//! The field type registry: the closed set of column types a schema may
//! declare, the reserved field keys, and the per-field metadata carried by
//! a schema definition.
use vstd::prelude::*;

use crate::text::eq_ignore_case_seq;

verus! {

/// The closed set of value types a schema column can have. Every type maps
/// to exactly one storage partition of a record.
#[derive(Clone, Copy, PartialEq, Eq, Structural, Debug)]
pub enum SchematicFieldType {
    Text,
    Number,
    URL,
    Email,
    Address,
    Phone,
    Boolean,
    DateTime,
    Date,
    Time,
    RichContent,
    RichText,
    Reference,
    MultiReference,
    MediaGallery,
    Document,
    MultiDocument,
    Image,
    Video,
    Audio,
    Tags,
    Array,
    Object,
}

impl SchematicFieldType {
    /// The binary-reference kinds, whose values identify uploaded files.
    pub open spec fn is_upload_file_type_spec(self) -> bool {
        self is Document || self is MultiDocument || self is Audio || self is Image
            || self is Video
    }

    /// Whether raw bytes arriving for a field of this type are a file upload.
    pub fn is_upload_file_type(&self) -> (r: bool)
        ensures
            r == self.is_upload_file_type_spec(),
    {
        match self {
            SchematicFieldType::Document
            | SchematicFieldType::MultiDocument
            | SchematicFieldType::Audio
            | SchematicFieldType::Image
            | SchematicFieldType::Video => true,
            _ => false,
        }
    }

    /// The cap, in bytes, on a raw imported value of this type; `None`
    /// means the type carries no byte-length cap.
    pub open spec fn max_bytes_length_spec(self) -> Option<usize> {
        match self {
            SchematicFieldType::Text => Some((1024 * 1024 * 1024) as usize),
            SchematicFieldType::Email => Some(100usize),
            SchematicFieldType::Number => Some(10usize),
            SchematicFieldType::URL => Some(1024usize),
            SchematicFieldType::Address => Some(1024usize),
            SchematicFieldType::Phone => Some(50usize),
            SchematicFieldType::Boolean => Some(1usize),
            SchematicFieldType::DateTime => Some(50usize),
            SchematicFieldType::Date => Some(50usize),
            SchematicFieldType::Time => Some(50usize),
            SchematicFieldType::RichContent => Some((1024 * 1024 * 10) as usize),
            SchematicFieldType::RichText => Some((1024 * 1024 * 10) as usize),
            SchematicFieldType::Reference => None,
            SchematicFieldType::MultiReference => None,
            SchematicFieldType::MediaGallery => Some((1024 * 1024 * 100) as usize),
            SchematicFieldType::Document => Some((1024 * 1024 * 100) as usize),
            SchematicFieldType::MultiDocument => Some((1024 * 1024 * 100) as usize),
            SchematicFieldType::Image => Some((1024 * 1024 * 100) as usize),
            SchematicFieldType::Video => Some((1024 * 1024 * 100) as usize),
            SchematicFieldType::Audio => Some((1024 * 1024 * 100) as usize),
            SchematicFieldType::Tags => None,
            SchematicFieldType::Array => None,
            SchematicFieldType::Object => None,
        }
    }

    pub fn max_bytes_length(&self) -> (r: Option<usize>)
        ensures
            r == self.max_bytes_length_spec(),
    {
        match self {
            SchematicFieldType::Text => Some(1024 * 1024 * 1024),
            SchematicFieldType::Email => Some(100),
            SchematicFieldType::Number => Some(10),
            SchematicFieldType::URL => Some(1024),
            SchematicFieldType::Address => Some(1024),
            SchematicFieldType::Phone => Some(50),
            SchematicFieldType::Boolean => Some(1),
            SchematicFieldType::DateTime => Some(50),
            SchematicFieldType::Date => Some(50),
            SchematicFieldType::Time => Some(50),
            SchematicFieldType::RichContent => Some(1024 * 1024 * 10),
            SchematicFieldType::RichText => Some(1024 * 1024 * 10),
            SchematicFieldType::Reference => None,
            SchematicFieldType::MultiReference => None,
            SchematicFieldType::MediaGallery => Some(1024 * 1024 * 100),
            SchematicFieldType::Document => Some(1024 * 1024 * 100),
            SchematicFieldType::MultiDocument => Some(1024 * 1024 * 100),
            SchematicFieldType::Image => Some(1024 * 1024 * 100),
            SchematicFieldType::Video => Some(1024 * 1024 * 100),
            SchematicFieldType::Audio => Some(1024 * 1024 * 100),
            SchematicFieldType::Tags => None,
            SchematicFieldType::Array => None,
            SchematicFieldType::Object => None,
        }
    }

    /// Human-readable name of the type.
    pub fn as_name(self) -> (r: &'static str) {
        match self {
            SchematicFieldType::Text => "Text",
            SchematicFieldType::Number => "Number",
            SchematicFieldType::URL => "URL",
            SchematicFieldType::Email => "Email",
            SchematicFieldType::Address => "Address",
            SchematicFieldType::Phone => "Phone",
            SchematicFieldType::Boolean => "True/False",
            SchematicFieldType::DateTime => "Date & Time",
            SchematicFieldType::Date => "Date",
            SchematicFieldType::Time => "Time",
            SchematicFieldType::RichContent => "Rich Content",
            SchematicFieldType::RichText => "Rich Text",
            SchematicFieldType::Reference => "Reference",
            SchematicFieldType::MultiReference => "Multi Reference",
            SchematicFieldType::MediaGallery => "Media Gallery",
            SchematicFieldType::Document => "Document",
            SchematicFieldType::MultiDocument => "Multi Document",
            SchematicFieldType::Image => "Image",
            SchematicFieldType::Video => "Video",
            SchematicFieldType::Audio => "Audio",
            SchematicFieldType::Tags => "Tags",
            SchematicFieldType::Array => "Array",
            SchematicFieldType::Object => "Object",
        }
    }

    /// The name of the storage partition holding values of this type.
    pub open spec fn storage_column_spec(self) -> Seq<char> {
        match self {
            SchematicFieldType::Text => "field_text"@,
            SchematicFieldType::Number => "field_number"@,
            SchematicFieldType::URL => "field_url"@,
            SchematicFieldType::Email => "field_email"@,
            SchematicFieldType::Address => "field_address"@,
            SchematicFieldType::Phone => "field_phone"@,
            SchematicFieldType::Boolean => "field_bool"@,
            SchematicFieldType::DateTime => "field_datetime"@,
            SchematicFieldType::Date => "field_date"@,
            SchematicFieldType::Time => "field_time"@,
            SchematicFieldType::RichContent => "field_rich_content"@,
            SchematicFieldType::RichText => "field_rich_text"@,
            SchematicFieldType::Reference => "field_reference"@,
            SchematicFieldType::MultiReference => "field_multi_reference"@,
            SchematicFieldType::MediaGallery => "field_gallery"@,
            SchematicFieldType::Document => "field_document"@,
            SchematicFieldType::MultiDocument => "field_multi_document"@,
            SchematicFieldType::Image => "field_image"@,
            SchematicFieldType::Video => "field_video"@,
            SchematicFieldType::Audio => "field_audio"@,
            SchematicFieldType::Tags => "field_tags"@,
            SchematicFieldType::Array => "field_array"@,
            SchematicFieldType::Object => "field_object"@,
        }
    }

    /// The name of the storage partition holding values of this type.
    pub fn storage_column(self) -> (r: &'static str)
        ensures
            r@ == self.storage_column_spec(),
    {
        match self {
            SchematicFieldType::Text => "field_text",
            SchematicFieldType::Number => "field_number",
            SchematicFieldType::URL => "field_url",
            SchematicFieldType::Email => "field_email",
            SchematicFieldType::Address => "field_address",
            SchematicFieldType::Phone => "field_phone",
            SchematicFieldType::Boolean => "field_bool",
            SchematicFieldType::DateTime => "field_datetime",
            SchematicFieldType::Date => "field_date",
            SchematicFieldType::Time => "field_time",
            SchematicFieldType::RichContent => "field_rich_content",
            SchematicFieldType::RichText => "field_rich_text",
            SchematicFieldType::Reference => "field_reference",
            SchematicFieldType::MultiReference => "field_multi_reference",
            SchematicFieldType::MediaGallery => "field_gallery",
            SchematicFieldType::Document => "field_document",
            SchematicFieldType::MultiDocument => "field_multi_document",
            SchematicFieldType::Image => "field_image",
            SchematicFieldType::Video => "field_video",
            SchematicFieldType::Audio => "field_audio",
            SchematicFieldType::Tags => "field_tags",
            SchematicFieldType::Array => "field_array",
            SchematicFieldType::Object => "field_object",
        }
    }
}

/// The scalar subset of field types.
#[derive(Clone, Copy, PartialEq, Eq, Structural, Debug)]
pub enum SchematicFieldBasicType {
    Text,
    Number,
    Boolean,
    DateTime,
    Date,
    Time,
}

/// A field key: one of the four reserved record-metadata keys, or a
/// user-chosen name. Reserved and custom keys meet through one string form.
#[derive(Debug)]
pub enum SchematicFieldKey {
    Id,
    Owner,
    CreatedAt,
    UpdatedAt,
    Other(String),
}

/// The string form of a field key.
pub open spec fn key_str_spec(k: SchematicFieldKey) -> Seq<char> {
    match k {
        SchematicFieldKey::Id => "_id"@,
        SchematicFieldKey::Owner => "_owner"@,
        SchematicFieldKey::CreatedAt => "_createdAt"@,
        SchematicFieldKey::UpdatedAt => "_updatedAt"@,
        SchematicFieldKey::Other(s) => s@,
    }
}

impl SchematicFieldKey {
    pub fn as_str(&self) -> (r: &str)
        ensures
            r@ == key_str_spec(*self),
    {
        match self {
            SchematicFieldKey::Id => "_id",
            SchematicFieldKey::Owner => "_owner",
            SchematicFieldKey::CreatedAt => "_createdAt",
            SchematicFieldKey::UpdatedAt => "_updatedAt",
            SchematicFieldKey::Other(s) => s.as_str(),
        }
    }

    pub fn is_other(&self) -> (r: bool)
        ensures
            r == (self is Other),
    {
        matches!(self, SchematicFieldKey::Other(_))
    }
}

/// Who may perform an operation on a schema's data.
#[derive(Clone, Copy, PartialEq, Eq, Structural, Debug)]
pub enum PermissionsUser {
    Anyone,
    Admin,
    Owner,
}

/// The capabilities of a schema, one per operation class.
#[derive(Clone, Copy, PartialEq, Eq, Structural, Debug)]
pub struct SchematicPermissions {
    pub insert: PermissionsUser,
    pub update: PermissionsUser,
    pub remove: PermissionsUser,
    pub read: PermissionsUser,
}

impl Default for SchematicPermissions {
    /// Every operation restricted to administrators.
    fn default() -> (r: Self)
        ensures
            r.insert is Admin && r.update is Admin && r.remove is Admin && r.read is Admin,
    {
        SchematicPermissions {
            insert: PermissionsUser::Admin,
            update: PermissionsUser::Admin,
            remove: PermissionsUser::Admin,
            read: PermissionsUser::Admin,
        }
    }
}

/// The operations a schema may allow its callers.
#[derive(Clone, Copy, PartialEq, Eq, Structural, Debug)]
pub enum Operations {
    BulkInsert,
    BulkSave,
    QueryReferenced,
    Truncate,
    ReplaceReferences,
    Count,
    Get,
    Find,
    RemoveReference,
    IsReferenced,
    Distinct,
    Remove,
    BulkUpdate,
    Insert,
    Save,
    Update,
    BulkRemove,
    Aggregate,
    InsertReference,
}

/// Direction of an ordering clause.
#[derive(Clone, Copy, PartialEq, Eq, Structural, Debug)]
pub enum SortOrder {
    Ascending,
    Descending,
}

/// A saved default ordering: one field and a direction.
#[derive(Debug)]
pub struct DefaultSort {
    pub field: String,
    pub order: SortOrder,
}

/// Per-view display configuration: the fields a view hides.
#[derive(Debug)]
pub struct SchemaViewItem {
    pub hidden_fields: Vec<String>,
}

/// The display configurations of one saved view, per presentation kind.
#[derive(Debug)]
pub struct SchemaViewTypes {
    pub form: SchemaViewItem,
    pub gallery: SchemaViewItem,
    pub list: SchemaViewItem,
    pub table: SchemaViewItem,
}

/// A saved filter clause of a view's query.
#[derive(Debug)]
pub struct SchemaFilter {
    pub field: String,
    pub condition: String,
    pub value: String,
}

/// The saved query of a view: its default orderings and filters.
#[derive(Debug)]
pub struct SchemaViewQuery {
    pub sort: Vec<DefaultSort>,
    pub filter: Vec<SchemaFilter>,
}

/// A named saved view over a schema.
#[derive(Debug)]
pub struct SchemaView {
    pub name: String,
    pub query: SchemaViewQuery,
    pub view_type: SchemaViewTypes,
}

/// One named, typed column of a schema.
#[derive(Debug)]
pub struct SchematicField {
    pub display_name: String,
    pub sortable: bool,
    pub is_deleted: bool,
    pub system_field: bool,
    pub field_type: SchematicFieldType,
    pub index: u16,
    pub referenced_schema: Option<String>,
}

/// The ghost image of a field: its metadata with text as sequences.
pub struct SchematicFieldV {
    pub display_name: Seq<char>,
    pub sortable: bool,
    pub is_deleted: bool,
    pub system_field: bool,
    pub field_type: SchematicFieldType,
    pub index: int,
    pub referenced_schema: Option<Seq<char>>,
}

impl SchematicField {
    pub open spec fn view_spec(self) -> SchematicFieldV {
        SchematicFieldV {
            display_name: self.display_name@,
            sortable: self.sortable,
            is_deleted: self.is_deleted,
            system_field: self.system_field,
            field_type: self.field_type,
            index: self.index as int,
            referenced_schema: match self.referenced_schema {
                Some(s) => Some(s@),
                None => None,
            },
        }
    }
}

impl View for SchematicField {
    type V = SchematicFieldV;

    open spec fn view(&self) -> SchematicFieldV {
        self.view_spec()
    }
}

/// A tag registered for one `Tags` column of one schema: tag names are
/// unique per column up to ASCII case, and each holds a stable numeric id.
#[derive(Debug)]
pub struct SchemaDataTagModel {
    pub id: i64,
    pub schema_id: i32,
    pub row_id: String,
    pub name: String,
    pub color: String,
}

/// Each field type owns exactly one storage partition: distinct types
/// never share a partition name.
pub proof fn lemma_storage_columns_distinct(t1: SchematicFieldType, t2: SchematicFieldType)
    requires
        t1 != t2,
    ensures
        t1.storage_column_spec() != t2.storage_column_spec(),
{
    reveal_strlit("field_text");
    reveal_strlit("field_number");
    reveal_strlit("field_url");
    reveal_strlit("field_email");
    reveal_strlit("field_address");
    reveal_strlit("field_phone");
    reveal_strlit("field_bool");
    reveal_strlit("field_datetime");
    reveal_strlit("field_date");
    reveal_strlit("field_time");
    reveal_strlit("field_rich_content");
    reveal_strlit("field_rich_text");
    reveal_strlit("field_reference");
    reveal_strlit("field_multi_reference");
    reveal_strlit("field_gallery");
    reveal_strlit("field_document");
    reveal_strlit("field_multi_document");
    reveal_strlit("field_image");
    reveal_strlit("field_video");
    reveal_strlit("field_audio");
    reveal_strlit("field_tags");
    reveal_strlit("field_array");
    reveal_strlit("field_object");
    assert("field_text"@.len() == 10 && "field_number"@.len() == 12 && "field_url"@.len() == 9);
    assert("field_email"@.len() == 11 && "field_address"@.len() == 13 && "field_phone"@.len()
        == 11);
    assert("field_bool"@.len() == 10 && "field_datetime"@.len() == 14 && "field_date"@.len()
        == 10);
    assert("field_time"@.len() == 10 && "field_rich_content"@.len() == 18
        && "field_rich_text"@.len() == 15);
    assert("field_reference"@.len() == 15 && "field_multi_reference"@.len() == 21
        && "field_gallery"@.len() == 13);
    assert("field_document"@.len() == 14 && "field_multi_document"@.len() == 20
        && "field_image"@.len() == 11);
    assert("field_video"@.len() == 11 && "field_audio"@.len() == 11 && "field_tags"@.len() == 10);
    assert("field_array"@.len() == 11 && "field_object"@.len() == 12);
    assert("field_text"@[6] == 't' && "field_bool"@[6] == 'b' && "field_date"@[6] == 'd');
    assert("field_time"@[6] == 't' && "field_tags"@[6] == 't');
    assert("field_text"@[7] == 'e' && "field_time"@[7] == 'i' && "field_tags"@[7] == 'a');
    assert("field_email"@[6] == 'e' && "field_phone"@[6] == 'p' && "field_image"@[6] == 'i');
    assert("field_video"@[6] == 'v' && "field_audio"@[6] == 'a' && "field_array"@[6] == 'a');
    assert("field_audio"@[7] == 'u' && "field_array"@[7] == 'r');
    assert("field_number"@[6] == 'n' && "field_object"@[6] == 'o');
    assert("field_address"@[6] == 'a' && "field_gallery"@[6] == 'g');
    assert("field_datetime"@[7] == 'a' && "field_document"@[7] == 'o');
    assert("field_rich_text"@[7] == 'i' && "field_reference"@[7] == 'e');
}

/// Two tag entries name the same tag: same schema, same column, and the
/// same name up to ASCII case.
pub open spec fn same_tag_slot(
    schema_id: int,
    row_id: Seq<char>,
    name: Seq<char>,
    t: SchemaDataTagModel,
) -> bool {
    t.schema_id == schema_id && t.row_id@ == row_id && eq_ignore_case_seq(t.name@, name)
}

} // verus!
