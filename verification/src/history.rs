//! History items as the front end sees them, and the decisions the commands
//! take on them.
use vstd::prelude::*;
use crate::text::{chars_of, chars_equal, string_from_chars, extend_str, trim_chars, trim_ws};
use crate::paths::{starts_with_path, path_starts_with};

verus! {

/// One clipboard history entry.
#[derive(Debug, Clone)]
pub struct HistoryItem {
    pub id: i64,
    /// The text, or the path of the image, file or directory.
    pub content: String,
    /// `text`, `image`, `file` or `directory`.
    pub item_type: String,
    /// Text extracted from the content (OCR or a file preview), if any.
    pub content_text: Option<String>,
    pub timestamp: String,
    /// Whether an embedding is stored for the item.
    pub has_vec: bool,
    /// Modification time of the file behind the item (0 for text).
    pub mtime: i64,
    /// The application the content was copied from, if known.
    pub source_app: Option<String>,
    /// Whether the item is in the favourites section.
    pub is_favorite: bool,
}

impl HistoryItem {
    /// An item from a history row; the embedding column is non-null exactly
    /// when an embedding is stored, and a non-zero favourite flag marks a favourite.
    pub fn from_row(id: i64, content: String, item_type: String, content_text: Option<String>, timestamp: String, vec_marker: Option<i32>, mtime: i64, source_app: Option<String>, favorite_flag: i64) -> (item: Self)
        ensures
            item.id == id,
            item.content == content,
            item.item_type == item_type,
            item.content_text == content_text,
            item.timestamp == timestamp,
            item.has_vec == (vec_marker is Some),
            item.mtime == mtime,
            item.source_app == source_app,
            item.is_favorite == (favorite_flag != 0),
    {
        HistoryItem { id, content, item_type, content_text, timestamp, has_vec: vec_marker.is_some(), mtime, source_app, is_favorite: favorite_flag != 0 }
    }

    /// An item from a nearest-neighbour row, whose embedding column holds 1.
    pub fn from_semantic_row(id: i64, content: String, item_type: String, content_text: Option<String>, timestamp: String, vec_marker: i32, mtime: i64, source_app: Option<String>, favorite_flag: i64) -> (item: Self)
        ensures
            item.id == id,
            item.content == content,
            item.item_type == item_type,
            item.content_text == content_text,
            item.timestamp == timestamp,
            item.has_vec == (vec_marker == 1),
            item.mtime == mtime,
            item.source_app == source_app,
            item.is_favorite == (favorite_flag != 0),
    {
        HistoryItem { id, content, item_type, content_text, timestamp, has_vec: vec_marker == 1, mtime, source_app, is_favorite: favorite_flag != 0 }
    }
}

/// How an item is put back on the clipboard before pasting.
pub enum PasteAction {
    /// Put this text on the clipboard.
    Text(String),
    /// Decode the image file at this path and put its pixels on the clipboard.
    ImageFile(String),
    /// Put this file system path on the clipboard.
    FilePath(String),
    /// The item type is not one that can be pasted.
    Nothing,
}

/// The clipboard content for pasting an item of type `t` with content `c`.
pub open spec fn spec_paste_action(t: Seq<char>, c: Seq<char>) -> (u8, Seq<char>) {
    if t == "text"@ {
        (0, c)
    } else if t == "image"@ {
        (1, c)
    } else if t == "file"@ || t == "directory"@ {
        (2, c)
    } else {
        (3, seq![])
    }
}

/// The plain form of a paste action: a tag and its payload.
pub open spec fn paste_view(a: PasteAction) -> (u8, Seq<char>) {
    match a {
        PasteAction::Text(s) => (0, s@),
        PasteAction::ImageFile(s) => (1, s@),
        PasteAction::FilePath(s) => (2, s@),
        PasteAction::Nothing => (3, seq![]),
    }
}

fn is_type(t: &str, name: &str) -> (b: bool)
    ensures
        b == (t@ == name@),
{
    let a = chars_of(t);
    let b = chars_of(name);
    chars_equal(a.as_slice(), b.as_slice())
}

/// Decides what to put on the clipboard to paste `item`: its text, its image
/// file's pixels, or its path.
pub fn paste_action(item: &HistoryItem) -> (a: PasteAction)
    ensures
        paste_view(a) == spec_paste_action(item.item_type@, item.content@),
{
    let t = item.item_type.as_str();
    if is_type(t, "text") {
        PasteAction::Text(item.content.clone())
    } else if is_type(t, "image") {
        PasteAction::ImageFile(item.content.clone())
    } else if is_type(t, "file") || is_type(t, "directory") {
        PasteAction::FilePath(item.content.clone())
    } else {
        PasteAction::Nothing
    }
}

/// The text handed to the platform paste for an item: its content when it is a text item.
pub fn paste_text(item: &HistoryItem) -> (t: Option<String>)
    ensures
        match t {
            Some(s) => item.item_type@ == "text"@ && s@ == item.content@,
            None => item.item_type@ != "text"@,
        },
{
    if is_type(item.item_type.as_str(), "text") {
        Some(item.content.clone())
    } else {
        None
    }
}

/// Whether a deleted or cleared image's file may be removed: it lies inside
/// the images directory (whole path components).
pub fn is_owned_image_path(path: &str, images_dir: &str) -> (b: bool)
    ensures
        b == path_starts_with(path@, images_dir@),
{
    starts_with_path(path, images_dir)
}

/// Whether a deleted item's file should be removed: it is an image item whose
/// file lies inside the images directory.
pub fn should_remove_image_file(item: &HistoryItem, images_dir: &str) -> (b: bool)
    ensures
        b == (item.item_type@ == "image"@ && path_starts_with(item.content@, images_dir@)),
{
    is_type(item.item_type.as_str(), "image") && starts_with_path(item.content.as_str(), images_dir)
}

/// Rejects empty content for a saved or overwritten text item.
pub fn require_content(content: &str) -> (r: Result<(), String>)
    ensures
        match r {
            Ok(()) => content@.len() > 0,
            Err(e) => content@.len() == 0 && e@ == "Content is empty"@,
        },
{
    let c = chars_of(content);
    if c.len() == 0 {
        Err(string_from_chars(chars_of("Content is empty").as_slice()))
    } else {
        Ok(())
    }
}

/// Whether a semantic search query is blank (only whitespace), so no search runs.
pub fn is_blank_query(query: &str) -> (b: bool)
    ensures
        b == (trim_ws(query@).len() == 0),
{
    let t = trim_chars(chars_of(query).as_slice());
    t.len() == 0
}

/// The greeting of the demo command.
pub fn greet(name: &str) -> (g: String)
    ensures
        g@ == "Hello, "@ + name@ + "! You've been greeted from Rust!"@,
{
    let mut v: Vec<char> = chars_of("Hello, ");
    extend_str(&mut v, name);
    extend_str(&mut v, "! You've been greeted from Rust!");
    string_from_chars(v.as_slice())
}

} // verus!
