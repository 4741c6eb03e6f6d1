//! Character and string helpers used throughout the schema engine:
//! ASCII case-insensitive comparison, trimming, substring search,
//! lexicographic ordering and integer parsing, each with an exact
//! specification over the string's character sequence.
use vstd::prelude::*;

verus! {

/// `c` is a decimal digit.
pub open spec fn is_digit_char(c: char) -> bool {
    48 <= c as u32 && c as u32 <= 57
}

/// Numeric value of a decimal digit character.
pub open spec fn digit_of(c: char) -> int {
    c as u32 - 48
}

/// `c` is a lower-case hexadecimal digit.
pub open spec fn is_lower_hex_char(c: char) -> bool {
    is_digit_char(c) || (97 <= c as u32 && c as u32 <= 102)
}

/// The code of `c` with an ASCII upper-case letter folded to lower case.
pub open spec fn lower_code(c: char) -> u32 {
    if 65 <= c as u32 && c as u32 <= 90 {
        (c as u32 + 32) as u32
    } else {
        c as u32
    }
}

/// The two sequences are equal up to ASCII case.
pub open spec fn eq_ignore_case_seq(a: Seq<char>, b: Seq<char>) -> bool {
    a.len() == b.len() && (forall|i: int| 0 <= i < a.len() ==> lower_code(a[i]) == lower_code(b[i]))
}

/// ASCII whitespace, as stripped by `trim`.
pub open spec fn is_space_char(c: char) -> bool {
    c == ' ' || c == '\t' || c == '\n' || c == '\r'
}

/// `s` with leading and trailing ASCII whitespace removed.
pub open spec fn trim_seq(s: Seq<char>) -> Seq<char>
    decreases s.len(),
{
    if s.len() == 0 {
        s
    } else if is_space_char(s[0]) {
        trim_seq(s.skip(1))
    } else if is_space_char(s.last()) {
        trim_seq(s.drop_last())
    } else {
        s
    }
}

/// `n` occurs in `h` starting at position `i`.
pub open spec fn contains_at(h: Seq<char>, n: Seq<char>, i: int) -> bool {
    0 <= i && i + n.len() <= h.len() && h.subrange(i, i + n.len()) == n
}

/// `n` occurs somewhere in `h`.
pub open spec fn seq_contains(h: Seq<char>, n: Seq<char>) -> bool {
    exists|i: int| contains_at(h, n, i)
}

/// Lexicographic order on character sequences by code point.
pub open spec fn lex_lt(a: Seq<char>, b: Seq<char>) -> bool
    decreases a.len(),
{
    if b.len() == 0 {
        false
    } else if a.len() == 0 {
        true
    } else if (a[0] as u32) < (b[0] as u32) {
        true
    } else if (a[0] as u32) > (b[0] as u32) {
        false
    } else {
        lex_lt(a.skip(1), b.skip(1))
    }
}

/// Case-insensitive (ASCII) equality of two strings.
pub fn eq_ignore_case(a: &str, b: &str) -> (r: bool)
    ensures
        r == eq_ignore_case_seq(a@, b@),
{
    let alen = a.unicode_len();
    let blen = b.unicode_len();
    if alen != blen {
        return false;
    }
    let mut i: usize = 0;
    while i < alen
        invariant
            alen == a@.len(),
            blen == b@.len(),
            alen == blen,
            0 <= i <= alen,
            forall|j: int| 0 <= j < i ==> lower_code(a@[j]) == lower_code(b@[j]),
        decreases alen - i,
    {
        let ca = a.get_char(i) as u32;
        let cb = b.get_char(i) as u32;
        let la = if 65 <= ca && ca <= 90 {
            ca + 32
        } else {
            ca
        };
        let lb = if 65 <= cb && cb <= 90 {
            cb + 32
        } else {
            cb
        };
        if la != lb {
            return false;
        }
        i = i + 1;
    }
    true
}

/// Character-for-character equality of two strings.
pub fn str_eq(a: &str, b: &str) -> (r: bool)
    ensures
        r == (a@ == b@),
{
    let alen = a.unicode_len();
    let blen = b.unicode_len();
    if alen != blen {
        return false;
    }
    let mut i: usize = 0;
    while i < alen
        invariant
            alen == a@.len(),
            blen == b@.len(),
            alen == blen,
            0 <= i <= alen,
            forall|j: int| 0 <= j < i ==> a@[j] == b@[j],
        decreases alen - i,
    {
        if a.get_char(i) != b.get_char(i) {
            return false;
        }
        i = i + 1;
    }
    proof {
        assert(a@ =~= b@);
    }
    true
}

/// Whether the list holds a string with exactly these characters.
pub fn contains_str(v: &Vec<String>, key: &str) -> (r: bool)
    ensures
        r == v.deep_view().contains(key@),
{
    let n = v.len();
    let mut i: usize = 0;
    while i < n
        invariant
            n == v@.len(),
            0 <= i <= n,
            forall|j: int| 0 <= j < i ==> #[trigger] v.deep_view()[j] != key@,
        decreases n - i,
    {
        if str_eq(v[i].as_str(), key) {
            proof {
                assert(v.deep_view()[i as int] == key@);
            }
            return true;
        }
        proof {
            assert(v.deep_view()[i as int] == v@[i as int]@);
        }
        i = i + 1;
    }
    proof {
        assert(v.deep_view().len() == n);
        assert(!v.deep_view().contains(key@));
    }
    false
}

/// Strip leading and trailing ASCII whitespace.
pub fn trim(s: &str) -> (r: &str)
    ensures
        r@ == trim_seq(s@),
{
    let len = s.unicode_len();
    let mut i: usize = 0;
    loop
        invariant_except_break
            len == s@.len(),
            0 <= i <= len,
            forall|j: int| 0 <= j < i ==> is_space_char(s@[j]),
        ensures
            len == s@.len(),
            0 <= i <= len,
            forall|j: int| 0 <= j < i ==> is_space_char(s@[j]),
            i < len ==> !is_space_char(s@[i as int]),
        decreases len - i,
    {
        if i == len {
            break ;
        }
        let c = s.get_char(i);
        if !(c == ' ' || c == '\t' || c == '\n' || c == '\r') {
            break ;
        }
        i = i + 1;
    }
    let mut j: usize = len;
    loop
        invariant_except_break
            len == s@.len(),
            0 <= i <= j <= len,
            forall|k: int| 0 <= k < i ==> is_space_char(s@[k]),
            forall|k: int| j <= k < len ==> is_space_char(s@[k]),
            i < len ==> !is_space_char(s@[i as int]),
        ensures
            len == s@.len(),
            0 <= i <= j <= len,
            forall|k: int| 0 <= k < i ==> is_space_char(s@[k]),
            forall|k: int| j <= k < len ==> is_space_char(s@[k]),
            i < j ==> !is_space_char(s@[i as int]),
            i < j ==> !is_space_char(s@[j - 1]),
        decreases j,
    {
        if j == i {
            break ;
        }
        let c = s.get_char(j - 1);
        if !(c == ' ' || c == '\t' || c == '\n' || c == '\r') {
            break ;
        }
        j = j - 1;
    }
    proof {
        lemma_trim_window(s@, i as int, j as int);
    }
    s.substring_char(i, j)
}

/// Trimming skips exactly the whitespace margins around the window `[i, j)`.
proof fn lemma_trim_window(s: Seq<char>, i: int, j: int)
    requires
        0 <= i <= j <= s.len(),
        forall|k: int| 0 <= k < i ==> is_space_char(s[k]),
        forall|k: int| j <= k < s.len() ==> is_space_char(s[k]),
        i < j ==> !is_space_char(s[i]),
        i < j ==> !is_space_char(s[j - 1]),
    ensures
        trim_seq(s) == s.subrange(i, j),
    decreases s.len(),
{
    if s.len() == 0 {
        assert(s.subrange(i, j) =~= s);
    } else if i == j {
        // all whitespace: every position is a space
        assert(forall|k: int| 0 <= k < s.len() ==> is_space_char(s[k]));
        assert(is_space_char(s[0]));
        let t = s.skip(1);
        assert(forall|k: int| 0 <= k < t.len() ==> is_space_char(t[k]));
        lemma_trim_window(t, 0, 0);
        assert(trim_seq(s) == trim_seq(t));
        assert(s.subrange(i, j) =~= t.subrange(0, 0));
    } else if i > 0 {
        assert(is_space_char(s[0]));
        let t = s.skip(1);
        lemma_trim_window(t, i - 1, j - 1);
        assert(s.subrange(i, j) =~= t.subrange(i - 1, j - 1));
    } else if j < s.len() {
        assert(is_space_char(s.last()));
        assert(!is_space_char(s[0]));
        let t = s.drop_last();
        lemma_trim_window(t, i, j);
        assert(s.subrange(i, j) =~= t.subrange(i, j));
    } else {
        assert(!is_space_char(s[0]));
        assert(!is_space_char(s.last()));
        assert(s.subrange(i, j) =~= s);
    }
}

/// Whether `needle` occurs in `hay` as a contiguous substring.
pub fn str_contains(hay: &str, needle: &str) -> (r: bool)
    ensures
        r == seq_contains(hay@, needle@),
{
    let hlen = hay.unicode_len();
    let nlen = needle.unicode_len();
    if nlen > hlen {
        assert(forall|i: int| !contains_at(hay@, needle@, i));
        return false;
    }
    if nlen == 0 {
        proof {
            assert(hay@.subrange(0, 0) =~= needle@);
            assert(contains_at(hay@, needle@, 0));
        }
        return true;
    }
    let mut i: usize = 0;
    while i <= hlen - nlen
        invariant
            hlen == hay@.len(),
            nlen == needle@.len(),
            0 < nlen <= hlen,
            0 <= i <= hlen - nlen + 1,
            forall|k: int| 0 <= k < i ==> !contains_at(hay@, needle@, k),
        decreases hlen + 1 - nlen - i,
    {
        let mut j: usize = 0;
        let mut matched: bool = true;
        while j < nlen
            invariant
                hlen == hay@.len(),
                nlen == needle@.len(),
                nlen <= hlen,
                0 <= i <= hlen - nlen,
                0 <= j <= nlen,
                matched ==> forall|k: int| 0 <= k < j ==> hay@[i + k] == needle@[k],
                !matched ==> !contains_at(hay@, needle@, i as int),
            decreases nlen - j,
        {
            if hay.get_char(i + j) != needle.get_char(j) {
                proof {
                    if contains_at(hay@, needle@, i as int) {
                        assert(hay@.subrange(i as int, i + nlen)[j as int] == needle@[j as int]);
                    }
                }
                matched = false;
                j = nlen;
            } else {
                j = j + 1;
            }
        }
        if matched {
            proof {
                assert(hay@.subrange(i as int, i + nlen) =~= needle@);
                assert(contains_at(hay@, needle@, i as int));
            }
            return true;
        }
        i = i + 1;
    }
    proof {
        assert(forall|k: int| #[trigger] contains_at(hay@, needle@, k) ==> 0 <= k <= hlen - nlen);
    }
    false
}

/// The order of `lex_lt` is unchanged by dropping an equal prefix.
proof fn lemma_lex_unroll(a: Seq<char>, b: Seq<char>, i: int)
    requires
        0 <= i <= a.len(),
        i <= b.len(),
        forall|j: int| 0 <= j < i ==> a[j] == b[j],
    ensures
        lex_lt(a, b) == lex_lt(a.skip(i), b.skip(i)),
    decreases i,
{
    if i > 0 {
        assert(a.len() > 0 && b.len() > 0);
        assert(a[0] == b[0]);
        lemma_lex_unroll(a.skip(1), b.skip(1), i - 1);
        assert(a.skip(1).skip(i - 1) =~= a.skip(i));
        assert(b.skip(1).skip(i - 1) =~= b.skip(i));
    } else {
        assert(a.skip(0) =~= a);
        assert(b.skip(0) =~= b);
    }
}

/// Lexicographic "less than" on strings, by code point.
pub fn str_lex_lt(a: &str, b: &str) -> (r: bool)
    ensures
        r == lex_lt(a@, b@),
{
    let alen = a.unicode_len();
    let blen = b.unicode_len();
    let min = if alen < blen {
        alen
    } else {
        blen
    };
    let mut i: usize = 0;
    while i < min
        invariant
            alen == a@.len(),
            blen == b@.len(),
            min == if alen < blen { alen as int } else { blen as int },
            0 <= i <= min,
            forall|j: int| 0 <= j < i ==> a@[j] == b@[j],
        decreases min - i,
    {
        let ca = a.get_char(i) as u32;
        let cb = b.get_char(i) as u32;
        if ca < cb {
            proof {
                lemma_lex_unroll(a@, b@, i as int);
            }
            return true;
        }
        if ca > cb {
            proof {
                lemma_lex_unroll(a@, b@, i as int);
            }
            return false;
        }
        i = i + 1;
    }
    proof {
        lemma_lex_unroll(a@, b@, min as int);
    }
    alen < blen
}

/// The position of the first comma at or after `i`, or the length.
pub open spec fn next_comma(s: Seq<char>, i: int) -> int
    decreases s.len() - i,
{
    if i < 0 || i >= s.len() {
        s.len() as int
    } else if s[i] == ',' {
        i
    } else {
        next_comma(s, i + 1)
    }
}

/// The comma never sits before where the search began.
pub proof fn lemma_next_comma_bounds(s: Seq<char>, i: int)
    requires
        0 <= i <= s.len(),
    ensures
        i <= next_comma(s, i) <= s.len(),
        next_comma(s, i) < s.len() ==> s[next_comma(s, i)] == ',',
        forall|k: int| i <= k < next_comma(s, i) ==> s[k] != ',',
    decreases s.len() - i,
{
    if i < s.len() && s[i] != ',' {
        lemma_next_comma_bounds(s, i + 1);
    }
}

/// The comma-separated pieces of `s` from position `i` on: empty pieces
/// are kept, and a trailing comma yields a trailing empty piece.
pub open spec fn split_from(s: Seq<char>, i: int) -> Seq<Seq<char>>
    decreases s.len() + 1 - i,
{
    if i < 0 || i > s.len() {
        Seq::empty()
    } else {
        let jc = next_comma(s, i);
        let j = if jc < i {
            i
        } else if jc > s.len() {
            s.len() as int
        } else {
            jc
        };
        seq![s.subrange(i, j)] + split_from(s, j + 1)
    }
}

/// The comma-separated pieces of `s`.
pub open spec fn split_commas_spec(s: Seq<char>) -> Seq<Seq<char>> {
    split_from(s, 0)
}

/// Split a string at every comma, keeping empty pieces.
pub fn split_commas(s: &str) -> (r: Vec<String>)
    ensures
        r.deep_view() == split_commas_spec(s@),
{
    let len = s.unicode_len();
    let mut out: Vec<String> = Vec::new();
    let mut i: usize = 0;
    while i <= len
        invariant
            len == s@.len(),
            0 <= i <= len + 1,
            split_commas_spec(s@) == out.deep_view() + split_from(s@, i as int),
        decreases len + 1 - i,
    {
        let mut j: usize = i;
        loop
            invariant_except_break
                len == s@.len(),
                i <= j <= len,
                forall|k: int| i <= k < j ==> s@[k] != ',',
            ensures
                len == s@.len(),
                i <= j <= len,
                forall|k: int| i <= k < j ==> s@[k] != ',',
                j < len ==> s@[j as int] == ',',
            decreases len - j,
        {
            if j == len {
                break ;
            }
            if s.get_char(j) == ',' {
                break ;
            }
            j = j + 1;
        }
        proof {
            lemma_next_comma_bounds(s@, i as int);
            assert(next_comma(s@, i as int) == j);
        }
        let part = s.substring_char(i, j).to_owned();
        let ghost pre = out.deep_view();
        out.push(part);
        proof {
            assert(out.deep_view() =~= pre.push(s@.subrange(i as int, j as int)));
            assert(split_from(s@, i as int) == seq![s@.subrange(i as int, j as int)] + split_from(
                s@,
                j + 1,
            ));
            assert(out.deep_view() + split_from(s@, j + 1) =~= pre + split_from(s@, i as int));
        }
        if j == len {
            proof {
                assert(split_from(s@, j + 1int) =~= Seq::<Seq<char>>::empty());
                assert(out.deep_view() =~= split_commas_spec(s@));
            }
            return out;
        }
        i = j + 1;
    }
    proof {
        assert(split_from(s@, i as int) =~= Seq::<Seq<char>>::empty());
        assert(out.deep_view() =~= split_commas_spec(s@));
    }
    out
}

/// The lexicographic order never puts a sequence before itself.
pub proof fn lemma_lex_lt_irrefl(a: Seq<char>)
    ensures
        !lex_lt(a, a),
    decreases a.len(),
{
    if a.len() > 0 {
        lemma_lex_lt_irrefl(a.skip(1));
    }
}

/// Two sequences are the same text: the same length, character codes
/// equal throughout.
pub open spec fn code_eq(a: Seq<char>, b: Seq<char>) -> bool {
    a.len() == b.len() && (forall|i: int| 0 <= i < a.len() ==> (a[i] as u32) == (b[i] as u32))
}

/// The lexicographic order chains: below and below again is below.
pub proof fn lemma_lex_lt_trans(a: Seq<char>, b: Seq<char>, c: Seq<char>)
    requires
        lex_lt(a, b),
        lex_lt(b, c),
    ensures
        lex_lt(a, c),
    decreases a.len(),
{
    if c.len() == 0 {
    } else if a.len() == 0 {
    } else {
        assert(b.len() > 0);
        if (a[0] as u32) < (b[0] as u32) {
        } else if (b[0] as u32) < (c[0] as u32) {
        } else {
            lemma_lex_lt_trans(a.skip(1), b.skip(1), c.skip(1));
        }
    }
}

/// The order is unmoved by swapping a sequence for an equal text.
pub proof fn lemma_lex_lt_congr(a: Seq<char>, b: Seq<char>, a2: Seq<char>, b2: Seq<char>)
    requires
        code_eq(a, a2),
        code_eq(b, b2),
    ensures
        lex_lt(a, b) == lex_lt(a2, b2),
    decreases a.len() + b.len(),
{
    if b.len() == 0 || a.len() == 0 {
    } else if (a[0] as u32) < (b[0] as u32) || (a[0] as u32) > (b[0] as u32) {
    } else {
        assert(code_eq(a.skip(1), a2.skip(1)));
        assert(code_eq(b.skip(1), b2.skip(1)));
        lemma_lex_lt_congr(a.skip(1), b.skip(1), a2.skip(1), b2.skip(1));
    }
}

/// Two sequences always compare: one is below the other, or they are
/// the same text.
pub proof fn lemma_lex_lt_connex(a: Seq<char>, b: Seq<char>)
    ensures
        lex_lt(a, b) || lex_lt(b, a) || code_eq(a, b),
    decreases a.len(),
{
    if a.len() == 0 {
    } else if b.len() == 0 {
    } else if (a[0] as u32) < (b[0] as u32) {
    } else if (b[0] as u32) < (a[0] as u32) {
    } else {
        lemma_lex_lt_connex(a.skip(1), b.skip(1));
        if !lex_lt(a, b) && !lex_lt(b, a) {
            assert(code_eq(a.skip(1), b.skip(1)));
            assert forall|i: int| 0 <= i < a.len() implies (a[i] as u32) == (b[i] as u32) by {
                if i > 0 {
                    assert(a.skip(1)[i - 1] == a[i]);
                    assert(b.skip(1)[i - 1] == b[i]);
                }
            }
        }
    }
}

/// Value of a digit string read in base ten.
pub open spec fn digits_val(s: Seq<char>) -> int
    decreases s.len(),
{
    if s.len() == 0 {
        0
    } else {
        digits_val(s.drop_last()) * 10 + digit_of(s.last())
    }
}

/// Every character of `s` is a decimal digit.
pub open spec fn all_digits(s: Seq<char>) -> bool {
    forall|i: int| 0 <= i < s.len() ==> is_digit_char(s[i])
}

/// The signed integer denoted by `s`: an optional sign, then at least one
/// digit, with the value within the range of `i64`.
pub open spec fn parse_i64_spec(s: Seq<char>) -> Option<i64> {
    let neg = s.len() > 0 && s[0] == '-';
    let signed = s.len() > 0 && (s[0] == '-' || s[0] == '+');
    let ds = if signed {
        s.skip(1)
    } else {
        s
    };
    if ds.len() == 0 || !all_digits(ds) {
        None
    } else {
        let v = if neg {
            -digits_val(ds)
        } else {
            digits_val(ds)
        };
        if i64::MIN <= v <= i64::MAX {
            Some(v as i64)
        } else {
            None
        }
    }
}

/// The value of a digit string never shrinks as digits are appended.
proof fn lemma_digits_val_nonneg(s: Seq<char>)
    requires
        all_digits(s),
    ensures
        digits_val(s) >= 0,
    decreases s.len(),
{
    if s.len() > 0 {
        assert(all_digits(s.drop_last()));
        lemma_digits_val_nonneg(s.drop_last());
    }
}

/// Parse a signed decimal integer, exactly as `parse_i64_spec` describes.
pub fn parse_i64(s: &str) -> (r: Option<i64>)
    ensures
        r == parse_i64_spec(s@),
{
    let len = s.unicode_len();
    if len == 0 {
        return None;
    }
    let first = s.get_char(0);
    let neg = first == '-';
    let signed = first == '-' || first == '+';
    let start: usize = if signed {
        1
    } else {
        0
    };
    let ghost ds = if signed {
        s@.skip(1)
    } else {
        s@
    };
    if start == len {
        assert(ds.len() == 0);
        return None;
    }
    let mut acc: u128 = 0;
    let mut i: usize = start;
    while i < len
        invariant
            len == s@.len(),
            len > 0,
            start <= i <= len,
            start == if signed { 1int } else { 0int },
            signed == (s@[0] == '-' || s@[0] == '+'),
            neg == (s@[0] == '-'),
            ds == if signed { s@.skip(1) } else { s@ },
            ds.len() > 0,
            all_digits(ds.subrange(0, i - start)),
            acc == digits_val(ds.subrange(0, i - start)),
            acc <= 0x8000_0000_0000_0000u128,
        decreases len - i,
    {
        let c = s.get_char(i);
        let cu = c as u32;
        if !(48 <= cu && cu <= 57) {
            proof {
                assert(ds[i - start] == s@[i as int]);
                assert(!is_digit_char(ds[i - start]));
                assert(!all_digits(ds));
                assert(parse_i64_spec(s@) is None);
            }
            return None;
        }
        let d: u128 = (cu - 48) as u128;
        let next = acc * 10 + d;
        proof {
            let pre = ds.subrange(0, i - start);
            let cur = ds.subrange(0, i + 1 - start);
            assert(cur.drop_last() =~= pre);
            assert(cur.last() == s@[i as int]);
            assert(digits_val(cur) == digits_val(pre) * 10 + digit_of(s@[i as int]));
        }
        if next > 0x8000_0000_0000_0000u128 {
            proof {
                if all_digits(ds) {
                    let cur = ds.subrange(0, i + 1 - start);
                    assert(digits_val(cur) == next);
                    lemma_digits_rest_ge(ds, (i + 1 - start) as int);
                    assert(digits_val(ds) > 0x8000_0000_0000_0000);
                }
                assert(parse_i64_spec(s@) is None);
            }
            return None;
        }
        acc = next;
        i = i + 1;
    }
    assert(ds.subrange(0, len - start) =~= ds);
    if neg {
        if acc == 0x8000_0000_0000_0000u128 {
            Some(i64::MIN)
        } else {
            Some(-((acc as i64)))
        }
    } else {
        if acc == 0x8000_0000_0000_0000u128 {
            None
        } else {
            Some(acc as i64)
        }
    }
}

/// A digit string is worth at least as much as any of its prefixes.
proof fn lemma_digits_rest_ge(s: Seq<char>, k: int)
    requires
        0 <= k <= s.len(),
        all_digits(s),
    ensures
        digits_val(s) >= digits_val(s.subrange(0, k)),
    decreases s.len() - k,
{
    if k < s.len() {
        let pre = s.subrange(0, k);
        let cur = s.subrange(0, k + 1);
        assert(cur.drop_last() =~= pre);
        lemma_digits_val_nonneg(pre);
        assert(digits_val(cur) == digits_val(pre) * 10 + digit_of(cur.last()));
        assert(digit_of(cur.last()) >= 0);
        lemma_digits_rest_ge(s, k + 1);
    } else {
        assert(s.subrange(0, k) =~= s);
    }
}

} // verus!
