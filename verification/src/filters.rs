//! The view filters of an album page: minimum rating, media type, aspect
//! ratio, tags and sort order.
use vstd::prelude::*;

use crate::text::{same_text, views};

verus! {

/// A photo rating constrained to 0..=5. Construction is the single place the
/// range is enforced, so any `Rating` in hand is already valid. The default,
/// `0`, means "no rating filter" (unrated photos count as 0).
#[derive(Debug, Clone, Copy, PartialEq, Eq, Structural)]
pub struct Rating(i64);

impl Rating {
    #[verifier::type_invariant]
    spec fn in_range(self) -> bool {
        0 <= self.0 <= 5
    }

    /// The rating's value.
    pub closed spec fn value(self) -> int {
        self.0 as int
    }

    /// Wrap a value, returning `None` if it falls outside 0..=5.
    pub fn new(value: i64) -> (r: Option<Rating>)
        ensures
            r is Some <==> 0 <= value <= 5,
            r matches Some(x) ==> x.value() == value,
    {
        if 0 <= value && value <= 5 {
            Some(Rating(value))
        } else {
            None
        }
    }

    /// The underlying 0..=5 value.
    pub fn get(self) -> (v: i64)
        ensures
            v == self.value(),
            0 <= v <= 5,
    {
        proof {
            use_type_invariant(&self);
        }
        self.0
    }
}

impl Default for Rating {
    fn default() -> (r: Rating)
        ensures
            r.value() == 0,
    {
        Rating(0)
    }
}

/// The aspect-ratio filter. `Portrait` is `height >= width`, `Landscape` is
/// `width >= height`, so a square matches both. The default, `All`, applies
/// no constraint.
#[derive(Debug, Clone, Copy, PartialEq, Eq, Structural)]
pub enum Aspect {
    All,
    Portrait,
    Landscape,
}

impl Default for Aspect {
    fn default() -> (r: Aspect)
        ensures
            r == Aspect::All,
    {
        Aspect::All
    }
}

/// The canonical text of an aspect filter.
pub open spec fn aspect_text(a: Aspect) -> Seq<char> {
    match a {
        Aspect::All => "all"@,
        Aspect::Portrait => "portrait"@,
        Aspect::Landscape => "landscape"@,
    }
}

/// The SQL condition of an aspect filter on `ImageInformation` dimensions.
pub open spec fn aspect_sql(a: Aspect) -> Seq<char> {
    match a {
        Aspect::All => ""@,
        Aspect::Portrait => " AND ii.height >= ii.width"@,
        Aspect::Landscape => " AND ii.width >= ii.height"@,
    }
}

/// The aspect filter a text names, if any.
pub open spec fn aspect_of_text(s: Seq<char>) -> Option<Aspect> {
    if s == "all"@ {
        Some(Aspect::All)
    } else if s == "portrait"@ {
        Some(Aspect::Portrait)
    } else if s == "landscape"@ {
        Some(Aspect::Landscape)
    } else {
        None
    }
}

impl Aspect {
    /// The SQL `AND` fragment restricting `ImageInformation` dimensions. Items
    /// with a NULL width/height are excluded from portrait/landscape, but kept
    /// under `All` (no clause).
    pub fn sql_filter(self) -> (r: &'static str)
        ensures
            r@ == aspect_sql(self),
    {
        match self {
            Aspect::All => "",
            Aspect::Portrait => " AND ii.height >= ii.width",
            Aspect::Landscape => " AND ii.width >= ii.height",
        }
    }

    /// The canonical string form (matches the query-string / JSON values).
    pub fn as_str(self) -> (r: &'static str)
        ensures
            r@ == aspect_text(self),
    {
        match self {
            Aspect::All => "all",
            Aspect::Portrait => "portrait",
            Aspect::Landscape => "landscape",
        }
    }

    /// Parse the canonical string form, e.g. when reading a stored bookmark.
    pub fn parse(s: &str) -> (r: Option<Aspect>)
        ensures
            r == aspect_of_text(s@),
    {
        if same_text(s, "all") {
            Some(Aspect::All)
        } else if same_text(s, "portrait") {
            Some(Aspect::Portrait)
        } else if same_text(s, "landscape") {
            Some(Aspect::Landscape)
        } else {
            None
        }
    }
}

/// Photo sort order: `Modified` (the default) is newest first by modification
/// date, `Created` newest first by creation date, `Name` by natural name order.
#[derive(Debug, Clone, Copy, PartialEq, Eq, Structural)]
pub enum Sort {
    Modified,
    Created,
    Name,
}

impl Default for Sort {
    fn default() -> (r: Sort)
        ensures
            r == Sort::Modified,
    {
        Sort::Modified
    }
}

/// The canonical text of a sort order.
pub open spec fn sort_text(s: Sort) -> Seq<char> {
    match s {
        Sort::Modified => "modified"@,
        Sort::Created => "created"@,
        Sort::Name => "name"@,
    }
}

/// The sort order a text names, if any.
pub open spec fn sort_of_text(s: Seq<char>) -> Option<Sort> {
    if s == "modified"@ {
        Some(Sort::Modified)
    } else if s == "created"@ {
        Some(Sort::Created)
    } else if s == "name"@ {
        Some(Sort::Name)
    } else {
        None
    }
}

impl Sort {
    /// The canonical string form (matches the query-string / JSON values).
    pub fn as_str(self) -> (r: &'static str)
        ensures
            r@ == sort_text(self),
    {
        match self {
            Sort::Modified => "modified",
            Sort::Created => "created",
            Sort::Name => "name",
        }
    }

    /// Parse the canonical string form, e.g. when reading a stored bookmark.
    pub fn parse(s: &str) -> (r: Option<Sort>)
        ensures
            r == sort_of_text(s@),
    {
        if same_text(s, "modified") {
            Some(Sort::Modified)
        } else if same_text(s, "created") {
            Some(Sort::Created)
        } else if same_text(s, "name") {
            Some(Sort::Name)
        } else {
            None
        }
    }
}

/// Law: an aspect filter's canonical text parses back to the same filter.
pub proof fn lemma_aspect_text_round_trip(a: Aspect)
    ensures
        aspect_of_text(aspect_text(a)) == Some(a),
{
    reveal_strlit("all");
    reveal_strlit("portrait");
    reveal_strlit("landscape");
    assert("all"@.len() == 3);
    assert("portrait"@.len() == 8);
    assert("landscape"@.len() == 9);
}

/// Law: a sort order's canonical text parses back to the same order.
pub proof fn lemma_sort_text_round_trip(s: Sort)
    ensures
        sort_of_text(sort_text(s)) == Some(s),
{
    reveal_strlit("modified");
    reveal_strlit("created");
    reveal_strlit("name");
    assert("modified"@.len() == 8);
    assert("created"@.len() == 7);
    assert("name"@.len() == 4);
}

/// The set of view filters active on an album page, also saved in bookmarks.
#[derive(Debug, Clone)]
pub struct Filters {
    /// When true, the album scope also matches sub-albums.
    pub recursive: bool,
    /// Minimum rating; the default `Rating(0)` means no rating filter.
    pub min_rating: Rating,
    /// Media-type filter; both `true` by default.
    pub include_images: bool,
    pub include_video: bool,
    /// Aspect-ratio filter; the default `All` applies no constraint.
    pub aspect: Aspect,
    /// Tag-filter tokens, AND'd; each matches a tag (and its subtree) by name
    /// or absolute path. Empty = no tag filter.
    pub tags: Vec<String>,
    /// Photo sort order; the default is `Modified`.
    pub sort: Sort,
}

impl Default for Filters {
    fn default() -> (f: Filters)
        ensures
            !f.recursive,
            f.min_rating.value() == 0,
            f.include_images,
            f.include_video,
            f.aspect == Aspect::All,
            f.tags@.len() == 0,
            f.sort == Sort::Modified,
    {
        Filters {
            recursive: false,
            min_rating: Rating::default(),
            include_images: true,
            include_video: true,
            aspect: Aspect::All,
            tags: Vec::new(),
            sort: Sort::Modified,
        }
    }
}

} // verus!
