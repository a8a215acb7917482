//! Logical items of the tablet's document store.
//!
//! The store is a flat directory of files per item UUID:
//! - `<uuid>.metadata`: the visible name, the parent (UUID of the containing folder, `""`
//!   for the root, `"trash"` for trashed items) and the item type;
//! - `<uuid>.content`: the file type and layout settings;
//! - `<uuid>.<file type>`: the document payload;
//! - `<uuid>/`: per-page annotation data.
use vstd::prelude::*;

verus! {

/// Pseudo-parent UUID of items in the device's trash.
pub const TRASH_PARENT: &'static str = "trash";

/// Kind of a logical item.
#[derive(Debug, Clone, Copy, PartialEq, Eq, Structural)]
pub enum ItemKind {
    Folder,
    Document,
}

/// A logical item (folder or document) of the store.
#[derive(Debug)]
pub struct Item {
    pub uuid: String,
    pub visible_name: String,
    /// UUID of the parent folder; `""` means root.
    pub parent: String,
    pub kind: ItemKind,
    /// `pdf`/`epub` (a payload file exists) or `notebook`; `None` when unknown.
    pub file_type: Option<String>,
    /// Milliseconds since the epoch; `0` when absent.
    pub created_time: i64,
    pub last_modified: i64,
    /// Payload size for documents, when it could be determined.
    pub size_bytes: Option<u64>,
}

/// What an [`Item`] holds.
pub struct ItemView {
    pub uuid: Seq<char>,
    pub visible_name: Seq<char>,
    pub parent: Seq<char>,
    pub kind: ItemKind,
    pub file_type: Option<Seq<char>>,
    pub created_time: i64,
    pub last_modified: i64,
    pub size_bytes: Option<u64>,
}

/// The characters of an optional string.
pub open spec fn text_of(s: Option<String>) -> Option<Seq<char>> {
    match s {
        Some(t) => Some(t@),
        None => None,
    }
}

impl DeepView for Item {
    type V = ItemView;

    open spec fn deep_view(&self) -> ItemView {
        ItemView {
            uuid: self.uuid@,
            visible_name: self.visible_name@,
            parent: self.parent@,
            kind: self.kind,
            file_type: text_of(self.file_type),
            created_time: self.created_time,
            last_modified: self.last_modified,
            size_bytes: self.size_bytes,
        }
    }
}

impl ItemView {
    pub open spec fn is_folder(self) -> bool {
        self.kind == ItemKind::Folder
    }
}

impl Clone for Item {
    fn clone(&self) -> (r: Self)
        ensures
            r == *self,
    {
        Item {
            uuid: self.uuid.clone(),
            visible_name: self.visible_name.clone(),
            parent: self.parent.clone(),
            kind: self.kind,
            file_type: match &self.file_type {
                Some(t) => Some(t.clone()),
                None => None,
            },
            created_time: self.created_time,
            last_modified: self.last_modified,
            size_bytes: self.size_bytes,
        }
    }
}

impl Item {
    pub fn is_folder(&self) -> (r: bool)
        ensures
            r == self.deep_view().is_folder(),
    {
        self.kind == ItemKind::Folder
    }

    pub fn is_document(&self) -> (r: bool)
        ensures
            r == !self.deep_view().is_folder(),
    {
        self.kind == ItemKind::Document
    }
}

} // verus!
