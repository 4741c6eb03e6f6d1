//! Generated file names: 74 characters in all, 64 drawn at random and
//! ten carrying the digits of the current unix time, interspersed one
//! digit after every sixth random character.
use vstd::prelude::*;

use crate::trusted::{gen_sample_alphanumeric, now_unix_seconds};

verus! {

/// Ten to the `k`-th power.
pub open spec fn pow10(k: int) -> int
    decreases k,
{
    if k <= 0 {
        1
    } else {
        10 * pow10(k - 1)
    }
}

/// The `k`-th decimal digit of `t`, counting from the least significant.
pub open spec fn dec_digit(t: u64, k: int) -> int {
    ((t as int) / pow10(k)) % 10
}

/// The character of one decimal digit.
pub open spec fn digit_char_of(d: int) -> char {
    if d == 0 {
        '0'
    } else if d == 1 {
        '1'
    } else if d == 2 {
        '2'
    } else if d == 3 {
        '3'
    } else if d == 4 {
        '4'
    } else if d == 5 {
        '5'
    } else if d == 6 {
        '6'
    } else if d == 7 {
        '7'
    } else if d == 8 {
        '8'
    } else {
        '9'
    }
}

/// The first `n` groups of the marked name: six characters of the raw
/// name, then one digit of the time, from the most significant of its
/// last ten digits down.
pub open spec fn spec_prefix(h: Seq<char>, t: u64, n: int) -> Seq<char>
    decreases n,
{
    if n <= 0 {
        Seq::empty()
    } else {
        spec_prefix(h, t, n - 1) + h.subrange(6 * (n - 1), 6 * n) + seq![
            digit_char_of(dec_digit(t, 10 - n)),
        ]
    }
}

/// A 64-character name with the ten digits of `t` woven in: one time
/// digit after every sixth character, and the final four characters of
/// the name after the last digit.
pub open spec fn time_marked(h: Seq<char>, t: u64) -> Seq<char> {
    spec_prefix(h, t, 10) + h.subrange(60, 64)
}

/// The string form of one decimal digit.
fn digit_str(d: u64) -> (r: &'static str)
    requires
        d < 10,
    ensures
        r@ =~= seq![digit_char_of(d as int)],
{
    proof {
        reveal_strlit("0");
        reveal_strlit("1");
        reveal_strlit("2");
        reveal_strlit("3");
        reveal_strlit("4");
        reveal_strlit("5");
        reveal_strlit("6");
        reveal_strlit("7");
        reveal_strlit("8");
        reveal_strlit("9");
    }
    if d == 0 {
        "0"
    } else if d == 1 {
        "1"
    } else if d == 2 {
        "2"
    } else if d == 3 {
        "3"
    } else if d == 4 {
        "4"
    } else if d == 5 {
        "5"
    } else if d == 6 {
        "6"
    } else if d == 7 {
        "7"
    } else if d == 8 {
        "8"
    } else {
        "9"
    }
}

/// Ten to the `k`-th power, for the ten digit positions.
fn pow10_exec(k: u32) -> (r: u64)
    requires
        k <= 9,
    ensures
        r == pow10(k as int),
        r >= 1,
{
    proof {
        assert(pow10(0) == 1);
        assert(pow10(1) == 10);
        assert(pow10(2) == 100);
        assert(pow10(3) == 1000);
        assert(pow10(4) == 10000);
        assert(pow10(5) == 100000);
        assert(pow10(6) == 1000000);
        assert(pow10(7) == 10000000);
        assert(pow10(8) == 100000000);
        assert(pow10(9) == 1000000000);
    }
    if k == 0 {
        1
    } else if k == 1 {
        10
    } else if k == 2 {
        100
    } else if k == 3 {
        1000
    } else if k == 4 {
        10000
    } else if k == 5 {
        100000
    } else if k == 6 {
        1000000
    } else if k == 7 {
        10000000
    } else if k == 8 {
        100000000
    } else {
        1000000000
    }
}

/// The `k`-th decimal digit of `t`, counting from the least significant.
fn nth_digit(t: u64, k: u32) -> (r: u64)
    requires
        k <= 9,
    ensures
        r == dec_digit(t, k as int),
        r < 10,
{
    let p = pow10_exec(k);
    (t / p) % 10
}

/// Weave the digits of the unix time `t` into a 64-character name, as
/// `time_marked` lays them out.
pub fn intersperse_hash_with_time(hash: &str, t: u64) -> (r: String)
    requires
        hash@.len() == 64,
    ensures
        r@ == time_marked(hash@, t),
        r@.len() == 74,
{
    let mut out = String::new();
    let mut seg: usize = 0;
    while seg < 10
        invariant
            hash@.len() == 64,
            0 <= seg <= 10,
            out@.len() == seg * 7,
            out@ == spec_prefix(hash@, t, seg as int),
        decreases 10 - seg,
    {
        out.append(hash.substring_char(6 * seg, 6 * seg + 6));
        let d = nth_digit(t, (9 - seg) as u32);
        out.append(digit_str(d));
        proof {
            assert(out@ =~= spec_prefix(hash@, t, seg + 1));
        }
        seg = seg + 1;
    }
    out.append(hash.substring_char(60, 64));
    proof {
        assert(out@ =~= time_marked(hash@, t));
    }
    out
}

/// A fresh upload file name: 74 characters, 64 random and ten carrying
/// the current unix time.
pub fn generate_file_name() -> (r: String)
    ensures
        r@.len() == 74,
{
    let hash = gen_sample_alphanumeric(64);
    let secs = now_unix_seconds();
    let t: u64 = if secs >= 0 {
        secs as u64
    } else {
        0
    };
    intersperse_hash_with_time(hash.as_str(), t)
}

} // verus!
