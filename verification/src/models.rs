//! The items the API answers with and the request bodies it reads.
use vstd::prelude::*;

use crate::filters::{Filters, Rating};

verus! {

/// A paginated response envelope.
#[derive(Debug)]
pub struct Page<T> {
    pub incomplete: bool,
    pub limit: u64,
    pub offset: u64,
    pub items: Vec<T>,
}

/// Compact representation of a photo, used in list responses.
#[derive(Debug)]
pub struct PhotoSummary {
    pub id: u64,
    pub name: String,
    /// Display album path, e.g. `/Photos/201110_Georgia`.
    pub album_path: String,
    pub file_size: Option<u64>,
    pub format: Option<String>,
    pub width: Option<u64>,
    pub height: Option<u64>,
    /// Rating 0..=5. Digikam stores -1 for "unrated", which is reported as null.
    pub rating: Option<u64>,
    /// File modification date (`Images.modificationDate`).
    pub modification_date: Option<String>,
    /// `ImageInformation.creationDate`, if present.
    pub creation_date: Option<String>,
    pub mime: Option<String>,
    /// True if this item is a video (Digikam `category = 2`).
    pub is_video: bool,
}

/// One album in the flat album listing.
#[derive(Debug)]
pub struct AlbumNode {
    pub id: u64,
    /// Display path, e.g. `/Photos/Lego/Porsche911`.
    pub path: String,
    /// Album root label, e.g. `Photos`.
    pub root: String,
}

/// A node in the tag tree.
#[derive(Debug)]
pub struct TagNode {
    pub id: u64,
    pub name: String,
    pub children: Vec<TagNode>,
}

/// The cover item used to represent a sub-album.
#[derive(Debug)]
pub struct Cover {
    pub id: u64,
    pub name: String,
    /// True for a video cover.
    pub is_video: bool,
}

/// A direct sub-album of some album, with its cover and recursive photo count.
#[derive(Debug)]
pub struct SubAlbum {
    /// The sub-album's own name (the last path segment), e.g. `Porsche911`.
    pub name: String,
    /// Display path, e.g. `/Photos/Lego/Porsche911`.
    pub path: String,
    /// Number of visible photos in the sub-album's whole subtree.
    pub photo_count: u64,
    /// Newest item in the subtree, if any.
    pub cover: Option<Cover>,
}

/// A saved view: a name plus the album and filter settings to jump back to.
#[derive(Debug, Clone)]
pub struct Bookmark {
    pub name: String,
    /// Album display path, e.g. `/Photos/Lego` (empty string = the virtual root).
    pub album: String,
    /// The saved view filters (incl. `recursive`).
    pub filters: Filters,
}

/// Request body for `PATCH /api/photos/:id`: `None` = not mentioned,
/// `Some(None)` = clear, `Some(Some(v))` = set.
#[derive(Debug)]
pub struct PatchPhoto {
    /// New rating (0..=5), or `null` to clear back to Digikam's "unrated" (-1).
    pub rating: Option<Option<Rating>>,
    /// Tag ids to add to / remove from the photo (absent or empty: no
    /// change; re-adding a present tag or removing an absent one is a no-op).
    pub tags_add: Vec<i64>,
    pub tags_remove: Vec<i64>,
    /// The album to move the photo (row and file) to; absent: stay.
    pub album: Option<i64>,
}

/// Request body for `POST /api/bookmarks`.
#[derive(Debug)]
pub struct CreateBookmark {
    pub name: String,
    pub album: String,
    pub filters: Filters,
    /// When true, replace an existing bookmark of the same name instead of
    /// failing with a conflict.
    pub overwrite: bool,
}

} // verus!
