//! The content-management data model: posts, tags, and the request and
//! response shapes of the surrounding service. Transport concerns
//! (serialization, validation annotations) live outside the library.

use crate::maybe::MaybeAbsent;
use vstd::prelude::*;

verus! {

/// A stored post, as the relational store returns it.
#[derive(Debug, Clone)]
pub struct PostRow {
    pub id: i64,
    pub content: String,
    pub files: Option<String>,
    pub color: Option<String>,
    pub shared: bool,
    pub deleted_at: Option<i64>,
    pub created_at: i64,
    pub updated_at: i64,
    pub parent_id: Option<i64>,
    pub children_count: i64,
}

/// A post category colour.
#[derive(Debug, Clone, Copy, PartialEq, Eq, Structural)]
pub enum CategoryColor {
    Red,
    Blue,
    Green,
}

impl CategoryColor {
    /// The colour's wire name.
    pub fn as_str(&self) -> (r: &'static str)
        ensures
            self is Red ==> r@ == "red"@,
            self is Blue ==> r@ == "blue"@,
            self is Green ==> r@ == "green"@,
    {
        match self {
            CategoryColor::Red => "red",
            CategoryColor::Blue => "blue",
            CategoryColor::Green => "green",
        }
    }
}

/// The column a post listing is ordered by.
#[derive(Debug, Clone, Copy, PartialEq, Eq, Structural)]
pub enum SortingField {
    CreatedAt,
    UpdatedAt,
    DeletedAt,
}

impl SortingField {
    /// The field's column name.
    pub fn as_str(&self) -> (r: &'static str)
        ensures
            self is CreatedAt ==> r@ == "created_at"@,
            self is UpdatedAt ==> r@ == "updated_at"@,
            self is DeletedAt ==> r@ == "deleted_at"@,
    {
        match self {
            SortingField::CreatedAt => "created_at",
            SortingField::UpdatedAt => "updated_at",
            SortingField::DeletedAt => "deleted_at",
        }
    }
}

impl Default for SortingField {
    fn default() -> (r: Self)
        ensures
            r is CreatedAt,
    {
        SortingField::CreatedAt
    }
}

/// A request naming a post by id.
#[derive(Debug)]
pub struct Id {
    pub id: i64,
}

/// A request naming a tag by name.
#[derive(Debug)]
pub struct Name {
    pub name: String,
}

/// A login request.
#[derive(Debug)]
pub struct LoginRequest {
    pub password: String,
}

/// An uploaded file's public description.
#[derive(Debug, Clone)]
pub struct FileInfo {
    pub url: String,
    pub thumb_url: Option<String>,
    pub size: Option<u64>,
    pub width: Option<u32>,
    pub height: Option<u32>,
}

/// A full-text query request.
#[derive(Debug)]
pub struct PostQuery {
    pub query: String,
}

/// The filters of a post listing.
#[derive(Debug)]
pub struct PostFilterOptions {
    pub cursor: Option<i64>,
    pub deleted: bool,
    pub parent_id: Option<i64>,
    pub color: Option<CategoryColor>,
    pub tag: Option<String>,
    pub shared: Option<bool>,
    pub has_files: Option<bool>,
    pub order_by: SortingField,
    pub ascending: bool,
    pub start_date: Option<i64>,
    pub end_date: Option<i64>,
}

/// A post-creation request.
#[derive(Debug)]
pub struct PostCreate {
    pub content: String,
    pub files: Option<Vec<FileInfo>>,
    pub color: Option<CategoryColor>,
    pub shared: Option<bool>,
    pub parent_id: Option<i64>,
}

/// A partial post update: absent fields stay untouched.
#[derive(Debug)]
pub struct PostUpdate {
    pub id: i64,
    pub content: MaybeAbsent<String>,
    pub shared: MaybeAbsent<bool>,
    pub files: MaybeAbsent<Option<Vec<FileInfo>>>,
    pub color: MaybeAbsent<Option<CategoryColor>>,
    pub parent_id: MaybeAbsent<Option<i64>>,
}

/// A deletion request; `hard` skips the soft-delete stage.
#[derive(Debug)]
pub struct PostDelete {
    pub id: i64,
    pub hard: bool,
}

/// An inclusive date range with a client timezone offset in minutes.
#[derive(Debug)]
pub struct DateRange {
    pub start_date: String,
    pub end_date: String,
    pub offset: i32,
}

/// What a successful creation returns.
#[derive(Debug)]
pub struct CreateResponse {
    pub id: i64,
    pub created_at: i64,
    pub updated_at: i64,
}

/// Aggregate counts for the stats endpoint.
#[derive(Debug)]
pub struct PostStats {
    pub post_count: i64,
    pub tag_count: i64,
    pub day_count: i64,
}

/// A stored tag.
#[derive(Debug)]
pub struct Tag {
    pub id: i64,
    pub name: String,
    pub sticky: bool,
    pub created_at: i64,
    pub updated_at: i64,
}

/// A tag with the number of posts carrying it.
#[derive(Debug)]
pub struct TagWithPostCount {
    pub name: String,
    pub sticky: bool,
    pub post_count: i64,
}

/// A tag rename (or merge, when the new name exists) request.
#[derive(Debug)]
pub struct RenameTagRequest {
    pub name: String,
    pub new_name: String,
}

/// A request to pin or unpin a tag.
#[derive(Debug)]
pub struct StickyTagRequest {
    pub name: String,
    pub sticky: bool,
}

} // verus!
