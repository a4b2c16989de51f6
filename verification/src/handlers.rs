//! The decisions behind the HTTP endpoints: turning query parameters into
//! queries, validating requests, building header values and redirect
//! targets, and encoding bookmarks for storage.
use std::collections::HashMap;
use vstd::prelude::*;
use vstd::string::StringSliceAdditionalSpecFns;

use crate::filters::{aspect_of_text, aspect_text, sort_of_text, sort_text, Aspect, Filters, Rating, Sort};
use crate::models::{AlbumNode, Bookmark, CreateBookmark, PatchPhoto};
use crate::outside::{
    guess_mime, guessed_mime, header_bytes_ok, header_value_allowed, json_string_list,
    json_text_at, json_text_at_path, parse_string_list, percent_encoded, string_list_json, url_encode, write_string_list,
};
use crate::paths::{
    abs_path, album_dir, album_dir_path, album_display_path, display_path, image_abs_path, AlbumRoot,
};
use crate::query::{album_segments, segments, PhotoQuery, DEFAULT_LIMIT, MAX_LIMIT};
use crate::text::{
    chars_of, concat, decimal, decimal_text, has_prefix, is_white_space, nonempty_pieces, owned, push_char,
    push_str, same_text, split_all, split_on, trim, trimmed, views,
};

verus! {

/// Why a request fails, with the message the client sees.
#[derive(Debug)]
pub enum ApiError {
    /// 400
    BadRequest(String),
    /// 403
    Forbidden(String),
    /// 404
    NotFound(String),
    /// 409
    Conflict(String),
    /// 422
    Unprocessable(String),
    /// 502
    BadGateway(String),
    /// 500
    Internal(String),
}

/// Serde default for the media-type booleans: both media types included.
pub fn yes() -> (r: bool)
    ensures
        r,
{
    true
}

/// Each piece with white space trimmed from both ends.
pub open spec fn trim_all(ps: Seq<Seq<char>>) -> Seq<Seq<char>>
    decreases ps.len(),
{
    if ps.len() == 0 {
        ps
    } else {
        trim_all(ps.drop_last()).push(trimmed(ps.last()))
    }
}

/// The tag-filter tokens of a comma-separated `tags=` parameter: the
/// trimmed, non-empty pieces.
pub open spec fn tag_tokens(s: Option<Seq<char>>) -> Seq<Seq<char>> {
    match s {
        None => Seq::empty(),
        Some(t) => nonempty_pieces(trim_all(split_on(t, ','))),
    }
}

/// Parse a comma-separated `tags=` param into filter tokens (trimmed, no empties).
pub fn parse_tags(s: Option<&str>) -> (r: Vec<String>)
    ensures
        views(r@) == tag_tokens(
            match s {
                Some(t) => Some(t@),
                None => None,
            },
        ),
{
    let mut out: Vec<String> = Vec::new();
    let text = match s {
        Some(t) => t,
        None => {
            return out;
        },
    };
    let pieces = split_all(text, ',');
    let mut i: usize = 0;
    assert(views(pieces@).take(0) =~= Seq::<Seq<char>>::empty());
    while i < pieces.len()
        invariant
            i <= pieces@.len(),
            views(pieces@) == split_on(text@, ','),
            views(out@) == nonempty_pieces(trim_all(views(pieces@).take(i as int))),
        decreases pieces.len() - i,
    {
        let t = trim(pieces[i].as_str());
        let ghost prev = trim_all(views(pieces@).take(i as int));
        assert(views(pieces@).take(i + 1).drop_last() =~= views(pieces@).take(i as int));
        assert(trim_all(views(pieces@).take(i + 1)).drop_last() =~= prev);
        if !t.as_str().is_empty() {
            out.push(t);
            assert(views(out@) =~= nonempty_pieces(prev).push(t@));
        }
        i += 1;
    }
    assert(views(pieces@).take(pieces@.len() as int) =~= views(pieces@));
    out
}

/// Raw query parameters for `GET /photos` and `GET /random`.
#[derive(Debug)]
pub struct PhotoParams {
    pub album: Option<String>,
    pub tags: Option<String>,
    pub recursive: bool,
    pub min_rating: Rating,
    /// Media-type filter (both default on; `=false` excludes that type).
    pub images: bool,
    pub video: bool,
    /// Aspect-ratio filter (`all` (default) / `portrait` / `landscape`).
    pub aspect: Aspect,
    /// Sort order (`modified` (default) / `created` / `name`).
    pub sort: Sort,
    pub limit: Option<u64>,
    pub offset: Option<u64>,
}

/// The view of an optional string parameter.
pub open spec fn param_view(o: Option<String>) -> Option<Seq<char>> {
    match o {
        Some(s) => Some(s@),
        None => None,
    }
}

/// The text of an optional parameter, `""` when absent.
pub open spec fn text_or_empty(o: Option<String>) -> Seq<char> {
    match o {
        Some(s) => s@,
        None => Seq::empty(),
    }
}

/// The requested page size: `DEFAULT_LIMIT` when absent, clamped to
/// `1..=MAX_LIMIT`.
pub open spec fn page_limit(limit: Option<u64>) -> u64 {
    let l = match limit {
        Some(l) => l,
        None => DEFAULT_LIMIT,
    };
    if l < 1 {
        1
    } else if l > MAX_LIMIT {
        MAX_LIMIT
    } else {
        l
    }
}

/// The filters a photo request asks for.
pub open spec fn filters_ok(f: Filters, p: PhotoParams) -> bool {
    &&& f.recursive == p.recursive
    &&& f.min_rating == p.min_rating
    &&& f.include_images == p.images
    &&& f.include_video == p.video
    &&& f.aspect == p.aspect
    &&& views(f.tags@) == tag_tokens(param_view(p.tags))
    &&& f.sort == p.sort
}

fn text_param(o: &Option<String>) -> (r: &str)
    ensures
        r@ == text_or_empty(*o),
{
    match o {
        Some(s) => s.as_str(),
        None => {
            proof {
                reveal_strlit("");
            }
            ""
        },
    }
}

fn opt_str(o: &Option<String>) -> (r: Option<&str>)
    ensures
        match r {
            Some(t) => param_view(*o) == Some(t@),
            None => param_view(*o) is None,
        },
{
    match o {
        Some(s) => Some(s.as_str()),
        None => None,
    }
}

fn photo_filters(params: &PhotoParams) -> (f: Filters)
    ensures
        filters_ok(f, *params),
{
    let tags = parse_tags(opt_str(&params.tags));
    Filters {
        recursive: params.recursive,
        min_rating: params.min_rating,
        include_images: params.images,
        include_video: params.video,
        aspect: params.aspect,
        tags,
        sort: params.sort,
    }
}

/// The photo listing a `GET /photos` request asks for: the album path split
/// into segments, the filters, and the page (limit defaulted and clamped,
/// offset defaulted to 0).
pub fn photo_query(params: &PhotoParams) -> (q: PhotoQuery)
    ensures
        views(q.album@) == segments(text_or_empty(params.album)),
        q.recursive == params.recursive,
        filters_ok(q.filters, *params),
        q.limit == page_limit(params.limit),
        q.offset == match params.offset {
            Some(o) => o,
            None => 0,
        },
{
    let album = album_segments(text_param(&params.album));
    let limit = match params.limit {
        Some(l) => l,
        None => DEFAULT_LIMIT,
    };
    let limit = if limit < 1 {
        1
    } else if limit > MAX_LIMIT {
        MAX_LIMIT
    } else {
        limit
    };
    PhotoQuery {
        album,
        recursive: params.recursive,
        filters: photo_filters(params),
        limit,
        offset: match params.offset {
            Some(o) => o,
            None => 0,
        },
    }
}

/// The scope and filters a `GET /random` request picks from (no paging).
pub fn random_query(params: &PhotoParams) -> (q: PhotoQuery)
    ensures
        views(q.album@) == segments(text_or_empty(params.album)),
        q.recursive == params.recursive,
        filters_ok(q.filters, *params),
        q.limit == 0,
        q.offset == 0,
{
    PhotoQuery {
        album: album_segments(text_param(&params.album)),
        recursive: params.recursive,
        filters: photo_filters(params),
        limit: 0,
        offset: 0,
    }
}

/// The redirect target of `GET /random`: the file of the picked photo.
pub fn random_location(id: i64) -> (r: String)
    ensures
        r@ == "/api/photos/"@ + decimal(id as int) + "/file"@,
{
    let mut r = String::new();
    push_str(&mut r, "/api/photos/");
    let digits = decimal_text(id);
    push_str(&mut r, digits.as_str());
    push_str(&mut r, "/file");
    r
}

/// Query parameters for `GET /subalbums`.
#[derive(Debug)]
pub struct SubalbumParams {
    pub album: Option<String>,
    pub min_rating: Rating,
    /// Media-type filter (both default on; `=false` excludes that type).
    pub images: bool,
    pub video: bool,
    /// Aspect-ratio filter (`all` (default) / `portrait` / `landscape`).
    pub aspect: Aspect,
    /// Comma-separated tag filter (same hierarchical semantics as `/photos`).
    pub tags: Option<String>,
    /// Sort order (`modified` (default) / `created` / `name`).
    pub sort: Sort,
}

/// The album segments and filters a `GET /subalbums` request asks for;
/// `recursive` is irrelevant there (counts and covers span the subtree).
pub fn subalbum_request(params: &SubalbumParams) -> (r: (Vec<String>, Filters))
    ensures
        views(r.0@) == segments(text_or_empty(params.album)),
        !r.1.recursive,
        r.1.min_rating == params.min_rating,
        r.1.include_images == params.images,
        r.1.include_video == params.video,
        r.1.aspect == params.aspect,
        views(r.1.tags@) == tag_tokens(param_view(params.tags)),
        r.1.sort == params.sort,
{
    let album = album_segments(text_param(&params.album));
    let filters = Filters {
        recursive: false,
        min_rating: params.min_rating,
        include_images: params.images,
        include_video: params.video,
        aspect: params.aspect,
        tags: parse_tags(opt_str(&params.tags)),
        sort: params.sort,
    };
    (album, filters)
}

/// Render a stored rating for the change log: `-1` / no row is "unrated".
pub open spec fn rating_text(r: Option<i64>) -> Seq<char> {
    match r {
        Some(n) => if n >= 0 {
            decimal(n as int)
        } else {
            "unrated"@
        },
        None => "unrated"@,
    }
}

/// Render a stored rating for the change log: `-1` / no row = "unrated".
pub fn fmt_rating(r: Option<i64>) -> (s: String)
    ensures
        s@ == rating_text(r),
{
    match r {
        Some(n) => if n >= 0 {
            decimal_text(n)
        } else {
            owned("unrated")
        },
        None => owned("unrated"),
    }
}

/// The rating value a patch stores: `-1` ("unrated") to clear, the rating
/// to set, nothing when the patch leaves the rating alone.
pub open spec fn patched_rating(rating: Option<Option<Rating>>) -> Option<int> {
    match rating {
        None => None,
        Some(None) => Some(-1),
        Some(Some(r)) => Some(r.value()),
    }
}

/// An optional integer as a mathematical one.
pub open spec fn opt_int(o: Option<i64>) -> Option<int> {
    match o {
        Some(n) => Some(n as int),
        None => None,
    }
}

/// The ids in order of first occurrence, each once.
pub open spec fn distinct_ids(s: Seq<i64>) -> Seq<i64>
    decreases s.len(),
{
    if s.len() == 0 {
        s
    } else {
        let init = distinct_ids(s.drop_last());
        if init.contains(s.last()) {
            init
        } else {
            init.push(s.last())
        }
    }
}

/// The first id of `s` that is not a user tag.
pub open spec fn first_unknown(s: Seq<i64>, user_tags: Seq<i64>) -> Option<i64>
    decreases s.len(),
{
    if s.len() == 0 {
        None
    } else if !user_tags.contains(s[0]) {
        Some(s[0])
    } else {
        first_unknown(s.drop_first(), user_tags)
    }
}

/// The first tag id of a patch, additions before removals, that is not a
/// user tag (unknown, or Digikam-internal).
pub open spec fn bad_tag(patch: PatchPhoto, user_tags: Seq<i64>) -> Option<i64> {
    match first_unknown(patch.tags_add@, user_tags) {
        Some(id) => Some(id),
        None => first_unknown(patch.tags_remove@, user_tags),
    }
}

/// What a photo patch changes, validated: the rating value to store, the
/// tags to add and to remove (each once), and the album to move to.
#[derive(Debug)]
pub struct PatchPlan {
    pub rating: Option<i64>,
    pub tags_add: Vec<i64>,
    pub tags_remove: Vec<i64>,
    pub album: Option<i64>,
}

/// The ids of `s`, each once, in order of first occurrence.
fn dedup_ids(s: &Vec<i64>) -> (r: Vec<i64>)
    ensures
        r@ == distinct_ids(s@),
{
    let mut out: Vec<i64> = Vec::new();
    let mut i: usize = 0;
    assert(s@.take(0) =~= Seq::<i64>::empty());
    while i < s.len()
        invariant
            i <= s@.len(),
            out@ == distinct_ids(s@.take(i as int)),
        decreases s.len() - i,
    {
        assert(s@.take(i + 1).drop_last() =~= s@.take(i as int));
        let x = s[i];
        let mut seen = false;
        let mut j: usize = 0;
        while j < out.len()
            invariant
                j <= out@.len(),
                seen <==> exists|k: int| 0 <= k < j && out@[k] == x,
            decreases out.len() - j,
        {
            if out[j] == x {
                seen = true;
            }
            j += 1;
        }
        if !seen {
            out.push(x);
        }
        i += 1;
    }
    assert(s@.take(s@.len() as int) =~= s@);
    out
}

/// The first id of `s` that is not among `user_tags`.
fn find_unknown(s: &Vec<i64>, user_tags: &Vec<i64>) -> (r: Option<i64>)
    ensures
        r == first_unknown(s@, user_tags@),
{
    let mut i: usize = 0;
    assert(s@.skip(0) =~= s@);
    while i < s.len()
        invariant
            i <= s@.len(),
            first_unknown(s@, user_tags@) == first_unknown(s@.skip(i as int), user_tags@),
        decreases s.len() - i,
    {
        let x = s[i];
        assert(s@.skip(i as int)[0] == x);
        let mut known = false;
        let mut j: usize = 0;
        while j < user_tags.len()
            invariant
                j <= user_tags@.len(),
                known <==> exists|k: int| 0 <= k < j && user_tags@[k] == x,
            decreases user_tags.len() - j,
        {
            if user_tags[j] == x {
                known = true;
            }
            j += 1;
        }
        if !known {
            return Some(x);
        }
        assert(s@.skip(i as int).drop_first() =~= s@.skip(i + 1));
        i += 1;
    }
    None
}

/// The 422 of a tag id that is not a user tag.
pub fn bad_tag_error(id: i64) -> (e: ApiError)
    ensures
        e matches ApiError::Unprocessable(m) && m@ == "unknown or internal tag id "@ + decimal(
            id as int,
        ),
{
    let mut m = owned("unknown or internal tag id ");
    let digits = decimal_text(id);
    push_str(&mut m, digits.as_str());
    ApiError::Unprocessable(m)
}

/// The 403 of a write while writes are disabled; nothing when they are on.
pub fn writes_allowed(allow_writes: bool) -> (r: Result<(), ApiError>)
    ensures
        allow_writes ==> r is Ok,
        !allow_writes ==> (r matches Err(ApiError::Forbidden(m)) && m@
            == "writes are disabled; start the server with --allow-writes"@),
{
    if allow_writes {
        Ok(())
    } else {
        Err(ApiError::Forbidden(owned("writes are disabled; start the server with --allow-writes")))
    }
}

/// Decide a `PATCH /photos/:id`: 403 when writes are disabled; 422 naming
/// the first tag id (additions before removals) that is not among
/// `user_tags` (the known tags outside Digikam's internal subtree);
/// otherwise the plan: the rating value to store (`-1` clears), the tags to
/// add and to remove each once in order of first mention, and the album to
/// move to. Nothing is written unless the whole plan stands.
pub fn plan_patch(allow_writes: bool, patch: &PatchPhoto, user_tags: &Vec<i64>) -> (r: Result<PatchPlan, ApiError>)
    ensures
        !allow_writes ==> (r matches Err(ApiError::Forbidden(m)) && m@
            == "writes are disabled; start the server with --allow-writes"@),
        allow_writes && bad_tag(*patch, user_tags@) is Some ==> (r matches Err(
            ApiError::Unprocessable(m),
        ) && m@ == "unknown or internal tag id "@ + decimal(
            bad_tag(*patch, user_tags@)->0 as int,
        )),
        allow_writes && bad_tag(*patch, user_tags@) is None ==> (r matches Ok(p) && opt_int(p.rating)
            == patched_rating(patch.rating) && p.tags_add@ == distinct_ids(patch.tags_add@)
            && p.tags_remove@ == distinct_ids(patch.tags_remove@) && p.album == patch.album),
{
    match writes_allowed(allow_writes) {
        Err(e) => {
            return Err(e);
        },
        Ok(()) => {},
    }
    match find_unknown(&patch.tags_add, user_tags) {
        Some(id) => {
            return Err(bad_tag_error(id));
        },
        None => {},
    }
    match find_unknown(&patch.tags_remove, user_tags) {
        Some(id) => {
            return Err(bad_tag_error(id));
        },
        None => {},
    }
    let rating = match patch.rating {
        None => None,
        Some(None) => Some(-1i64),
        Some(Some(r)) => Some(r.get()),
    };
    Ok(
        PatchPlan {
            rating,
            tags_add: dedup_ids(&patch.tags_add),
            tags_remove: dedup_ids(&patch.tags_remove),
            album: patch.album,
        },
    )
}

/// Whether a plan changes nothing (an empty patch).
pub fn changes_nothing(plan: &PatchPlan) -> (r: bool)
    ensures
        r == (plan.rating is None && plan.tags_add@.len() == 0 && plan.tags_remove@.len() == 0
            && plan.album is None),
{
    plan.rating.is_none() && plan.tags_add.len() == 0 && plan.tags_remove.len() == 0
        && plan.album.is_none()
}

/// Moving a photo's file: from where it is, into the target album's
/// directory, to the same name there.
#[derive(Debug)]
pub struct FileMove {
    pub from: String,
    pub to_dir: String,
    pub to: String,
}

/// The 422 of an album that does not exist.
pub fn unknown_album(id: i64) -> (e: ApiError)
    ensures
        e matches ApiError::Unprocessable(m) && m@ == "unknown album "@ + decimal(id as int),
{
    let mut m = owned("unknown album ");
    let digits = decimal_text(id);
    push_str(&mut m, digits.as_str());
    ApiError::Unprocessable(m)
}

/// Plan moving a photo (in album `photo_album`, root `album_root`, relative
/// path `relative_path`, file `name`) to album `target_id`, found as
/// `target` (its root and relative path) or not found: nothing to do when it
/// is the photo's own album; 422 when the target album does not exist; 404
/// when either album's root is unknown; else the file move.
pub fn plan_move(
    roots: &HashMap<i64, AlbumRoot>,
    photo_album: i64,
    album_root: i64,
    relative_path: &str,
    name: &str,
    target_id: i64,
    target: Option<(i64, String)>,
) -> (r: Result<Option<FileMove>, ApiError>)
    ensures
        target_id == photo_album ==> r matches Ok(None),
        target_id != photo_album ==> match target {
            None => r matches Err(ApiError::Unprocessable(m)) && m@ == "unknown album "@ + decimal(
                target_id as int,
            ),
            Some((troot, trel)) => if !roots@.contains_key(album_root) {
                r matches Err(ApiError::NotFound(m)) && m@ == "album root "@ + decimal(
                    album_root as int,
                ) + " unknown"@
            } else if !roots@.contains_key(troot) {
                r matches Err(ApiError::NotFound(m)) && m@ == "album root "@ + decimal(troot as int)
                    + " unknown"@
            } else {
                r matches Ok(Some(mv)) && mv.from@ == abs_path(
                    roots@[album_root].base@,
                    relative_path@,
                    name@,
                ) && mv.to_dir@ == album_dir(roots@[troot].base@, trel@) && mv.to@ == abs_path(
                    roots@[troot].base@,
                    trel@,
                    name@,
                )
            },
        },
{
    if target_id == photo_album {
        return Ok(None);
    }
    let (troot, trel) = match target {
        None => {
            return Err(unknown_album(target_id));
        },
        Some(t) => t,
    };
    let from = match roots.get(&album_root) {
        Some(root) => image_abs_path(root, relative_path, name),
        None => {
            return Err(root_not_found(album_root));
        },
    };
    match roots.get(&troot) {
        Some(root) => Ok(
            Some(
                FileMove {
                    from,
                    to_dir: album_dir_path(root, trel.as_str()),
                    to: image_abs_path(root, trel.as_str(), name),
                },
            ),
        ),
        None => Err(root_not_found(troot)),
    }
}

/// Check a file move against the file system as found: 409 when the target
/// album's directory does not exist, or when a file of that name is already
/// there.
pub fn check_move(mv: &FileMove, dir_exists: bool, target_exists: bool) -> (r: Result<(), ApiError>)
    ensures
        !dir_exists ==> (r matches Err(ApiError::Conflict(m)) && m@ == "album directory "@
            + mv.to_dir@ + " does not exist"@),
        dir_exists && target_exists ==> (r matches Err(ApiError::Conflict(m)) && m@ == mv.to@
            + " already exists"@),
        dir_exists && !target_exists ==> r is Ok,
{
    if !dir_exists {
        let mut m = owned("album directory ");
        push_str(&mut m, mv.to_dir.as_str());
        push_str(&mut m, " does not exist");
        return Err(ApiError::Conflict(m));
    }
    if target_exists {
        let mut m = mv.to.clone();
        push_str(&mut m, " already exists");
        return Err(ApiError::Conflict(m));
    }
    Ok(())
}

/// The 409 of a file move that failed (the whole patch is rolled back).
pub fn move_failed(mv: &FileMove, detail: &str) -> (e: ApiError)
    ensures
        e matches ApiError::Conflict(m) && m@ == "cannot move "@ + mv.from@ + ": "@ + detail@,
{
    let mut m = owned("cannot move ");
    push_str(&mut m, mv.from.as_str());
    push_str(&mut m, ": ");
    push_str(&mut m, detail);
    ApiError::Conflict(m)
}

/// The path of a photo for the change log: its file when the album root is
/// known, else `root<id>:<relative path>/<name>`.
pub open spec fn log_path(roots: Map<i64, AlbumRoot>, album_root: i64, relative_path: Seq<char>, name: Seq<char>) -> Seq<char> {
    if roots.contains_key(album_root) {
        abs_path(roots[album_root].base@, relative_path, name)
    } else {
        "root"@ + decimal(album_root as int) + seq![':'] + relative_path + seq!['/'] + name
    }
}

/// Build the change-log path of a photo (see `log_path`).
pub fn change_log_path(roots: &HashMap<i64, AlbumRoot>, album_root: i64, relative_path: &str, name: &str) -> (r: String)
    ensures
        r@ == log_path(roots@, album_root, relative_path@, name@),
{
    match roots.get(&album_root) {
        Some(root) => image_abs_path(root, relative_path, name),
        None => {
            let mut r = String::new();
            push_str(&mut r, "root");
            let digits = decimal_text(album_root);
            push_str(&mut r, digits.as_str());
            push_char(&mut r, ':');
            push_str(&mut r, relative_path);
            push_char(&mut r, '/');
            push_str(&mut r, name);
            r
        },
    }
}

/// One album of the flat album listing; `None` when its root is unknown.
pub fn album_node(roots: &HashMap<i64, AlbumRoot>, id: i64, album_root: i64, relative_path: &str) -> (r:
    Option<AlbumNode>)
    ensures
        match r {
            None => !roots@.contains_key(album_root),
            Some(n) => roots@.contains_key(album_root) && n.id == id as u64 && n.path@
                == display_path(roots@[album_root].label@, relative_path@) && n.root@
                == roots@[album_root].label@,
        },
{
    match roots.get(&album_root) {
        Some(root) => Some(
            AlbumNode {
                id: id as u64,
                path: album_display_path(root, relative_path),
                root: root.label.clone(),
            },
        ),
        None => None,
    }
}


/// One row of the `Albums` table.
pub struct AlbumRow {
    pub id: i64,
    pub album_root: i64,
    pub relative_path: String,
}

/// The plain values of an album of the listing: id, display path, root label.
pub open spec fn node_view(n: AlbumNode) -> (u64, Seq<char>, Seq<char>) {
    (n.id, n.path@, n.root@)
}

/// The album listing of `rows`, in order: the albums whose root is known,
/// each with its display path and root label.
pub open spec fn known_albums(roots: Map<i64, AlbumRoot>, rows: Seq<AlbumRow>) -> Seq<(u64, Seq<char>, Seq<char>)>
    decreases rows.len(),
{
    if rows.len() == 0 {
        Seq::empty()
    } else {
        let init = known_albums(roots, rows.drop_last());
        let row = rows.last();
        if roots.contains_key(row.album_root) {
            init.push(
                (
                    row.id as u64,
                    display_path(roots[row.album_root].label@, row.relative_path@),
                    roots[row.album_root].label@,
                ),
            )
        } else {
            init
        }
    }
}

/// The flat album listing of `GET /albums`: the albums whose root is known,
/// in row order.
pub fn album_nodes(roots: &HashMap<i64, AlbumRoot>, rows: &Vec<AlbumRow>) -> (r: Vec<AlbumNode>)
    ensures
        r@.map_values(|n: AlbumNode| node_view(n)) == known_albums(roots@, rows@),
{
    let mut out: Vec<AlbumNode> = Vec::new();
    let mut i: usize = 0;
    assert(rows@.take(0) =~= Seq::<AlbumRow>::empty());
    while i < rows.len()
        invariant
            i <= rows@.len(),
            out@.map_values(|n: AlbumNode| node_view(n)) == known_albums(roots@, rows@.take(i as int)),
        decreases rows.len() - i,
    {
        assert(rows@.take(i + 1).drop_last() =~= rows@.take(i as int));
        let row = &rows[i];
        let ghost before = out@;
        match album_node(roots, row.id, row.album_root, row.relative_path.as_str()) {
            Some(n) => {
                out.push(n);
                assert(out@.map_values(|n: AlbumNode| node_view(n)) =~= before.map_values(
                    |n: AlbumNode| node_view(n),
                ).push(node_view(n)));
            },
            None => {},
        }
        i += 1;
    }
    assert(rows@.take(rows@.len() as int) =~= rows@);
    out
}

/// Where the file of a photo lies on disk; a 404 when its album root is
/// unknown.
pub fn locate_file(roots: &HashMap<i64, AlbumRoot>, album_root: i64, relative_path: &str, name: &str) -> (r: Result<String, ApiError>)
    ensures
        match r {
            Ok(p) => roots@.contains_key(album_root) && p@ == abs_path(
                roots@[album_root].base@,
                relative_path@,
                name@,
            ),
            Err(e) => !roots@.contains_key(album_root) && (e matches ApiError::NotFound(m) && m@
                == "album root "@ + decimal(album_root as int) + " unknown"@),
        },
{
    match roots.get(&album_root) {
        Some(root) => Ok(image_abs_path(root, relative_path, name)),
        None => Err(root_not_found(album_root)),
    }
}

/// The file of a photo for its detail view: known only when its album root is.
pub fn photo_file_path(roots: &HashMap<i64, AlbumRoot>, album_root: i64, relative_path: &str, name: &str) -> (r: Option<String>)
    ensures
        match r {
            Some(p) => roots@.contains_key(album_root) && p@ == abs_path(
                roots@[album_root].base@,
                relative_path@,
                name@,
            ),
            None => !roots@.contains_key(album_root),
        },
{
    match roots.get(&album_root) {
        Some(root) => Some(image_abs_path(root, relative_path, name)),
        None => None,
    }
}

/// A `W/` weak-validator prefix dropped.
pub open spec fn weakless(tag: Seq<char>) -> Seq<char> {
    if has_prefix(tag, seq!['W', '/']) {
        tag.skip(2)
    } else {
        tag
    }
}

/// Strip a weak-validator `W/` prefix for comparison purposes.
pub fn strip_weak(tag: &str) -> (r: String)
    ensures
        r@ == weakless(tag@),
{
    let cs = chars_of(tag);
    if cs.len() >= 2 && cs[0] == 'W' && cs[1] == '/' {
        assert(cs@.take(2) =~= seq!['W', '/']);
        crate::text::string_of(&cs, 2, cs.len())
    } else {
        assert(cs@.len() >= 2 ==> cs@.take(2)[0] == cs@[0] && cs@.take(2)[1] == cs@[1]);
        owned(tag)
    }
}

/// Whether one `If-None-Match` candidate matches the ETag: `*`, or equal
/// once weak prefixes are dropped.
pub open spec fn candidate_matches(candidate: Seq<char>, etag: Seq<char>) -> bool {
    candidate == seq!['*'] || weakless(candidate) == weakless(etag)
}

/// Whether one of the comma-separated, trimmed candidates of an
/// `If-None-Match` value matches `etag`.
pub open spec fn some_candidate_matches(v: Seq<char>, etag: Seq<char>) -> bool {
    exists|i: int|
        0 <= i < split_on(v, ',').len() && candidate_matches(
            trimmed(#[trigger] split_on(v, ',')[i]),
            etag,
        )
}

/// A character `http` lets a header value hold when read as text: visible
/// ASCII or a tab.
pub open spec fn visible_ascii(c: char) -> bool {
    c == '\t' || (' ' <= c && c <= '~')
}

/// The text of an ETag as a header value reads it (`HeaderValue::to_str`,
/// empty when that fails): the ETag itself when all of it is visible ASCII,
/// else the empty text.
pub open spec fn header_text(etag: Seq<char>) -> Seq<char> {
    if forall|i: int| 0 <= i < etag.len() ==> visible_ascii(#[trigger] etag[i]) {
        etag
    } else {
        Seq::empty()
    }
}

/// Whether an `If-None-Match` header value matches `etag`, the ETag being
/// compared by its text as a header value.
pub open spec fn none_match(header: Option<Seq<char>>, etag: Seq<char>) -> bool {
    match header {
        None => false,
        Some(v) => some_candidate_matches(v, header_text(etag)),
    }
}

proof fn lemma_none_match_witness(v: Seq<char>, etag: Seq<char>, i: int)
    requires
        0 <= i < split_on(v, ',').len(),
        candidate_matches(trimmed(split_on(v, ',')[i]), header_text(etag)),
    ensures
        none_match(Some(v), etag),
{
    let pieces = split_on(v, ',');
    assert(candidate_matches(trimmed(pieces[i]), header_text(etag)));
}

/// The text of an ETag as a header value reads it (see `header_text`).
fn etag_text(etag: &str) -> (r: String)
    ensures
        r@ == header_text(etag@),
{
    let cs = chars_of(etag);
    let mut i: usize = 0;
    while i < cs.len()
        invariant
            i <= cs@.len(),
            cs@ == etag@,
            forall|j: int| 0 <= j < i ==> visible_ascii(#[trigger] cs@[j]),
        decreases cs.len() - i,
    {
        let c = cs[i];
        if !(c == '\t' || (' ' <= c && c <= '~')) {
            assert(!visible_ascii(etag@[i as int]));
            return String::new();
        }
        i += 1;
    }
    owned(etag)
}

/// Without the separator, a text is a single piece.
proof fn lemma_split_without_sep(s: Seq<char>, sep: char)
    requires
        forall|i: int| 0 <= i < s.len() ==> s[i] != sep,
    ensures
        split_on(s, sep) == seq![s],
    decreases s.len(),
{
    if s.len() > 0 {
        lemma_split_without_sep(s.drop_last(), sep);
        assert(Seq::<char>::empty().push(s.last()) =~= seq![s.last()]);
        assert(s.drop_last().push(s.last()) =~= s);
        assert(split_on(s, sep) =~= seq![s]);
    } else {
        assert(s =~= Seq::<char>::empty());
    }
}

/// A text without white space at either end is its own trimming.
proof fn lemma_trimmed_unchanged(s: Seq<char>)
    requires
        s.len() > 0,
        !is_white_space(s[0]),
        !is_white_space(s.last()),
    ensures
        trimmed(s) == s,
{
}

/// Law: an `If-None-Match` of `*` matches every ETag.
pub proof fn lemma_star_matches_any(etag: Seq<char>)
    ensures
        none_match(Some(seq!['*']), etag),
{
    let v = seq!['*'];
    lemma_split_without_sep(v, ',');
    lemma_trimmed_unchanged(v);
    lemma_none_match_witness(v, etag, 0);
}

/// Law: the weak form `W/"t"` of a strong ETag `"t"` matches it, and the
/// strong form matches the weak one (comparison ignores the weak prefix), as
/// long as the tag holds no `,` (which would split the header value).
pub proof fn lemma_weak_and_strong_match(t: Seq<char>)
    requires
        forall|i: int| 0 <= i < t.len() ==> t[i] != ',' && visible_ascii(t[i]),
    ensures
        none_match(Some(seq!['W', '/', '"'] + t + seq!['"']), seq!['"'] + t + seq!['"']),
        none_match(Some(seq!['"'] + t + seq!['"']), seq!['W', '/', '"'] + t + seq!['"']),
{
    let e = seq!['"'] + t + seq!['"'];
    let w = seq!['W', '/', '"'] + t + seq!['"'];
    assert(w =~= seq!['W', '/'] + e);
    assert(w.take(2) =~= seq!['W', '/']);
    assert(w.skip(2) =~= e);
    assert(!has_prefix(e, seq!['W', '/'])) by {
        if e.len() >= 2 {
            assert(e.take(2)[0] == '"');
        }
    }
    assert(weakless(w) == weakless(e));
    assert forall|i: int| 0 <= i < w.len() implies w[i] != ',' by {
        if i >= 3 && i < w.len() - 1 {
            assert(w[i] == t[i - 3]);
        }
    }
    assert forall|i: int| 0 <= i < e.len() implies e[i] != ',' by {
        if i >= 1 && i < e.len() - 1 {
            assert(e[i] == t[i - 1]);
        }
    }
    lemma_split_without_sep(w, ',');
    lemma_split_without_sep(e, ',');
    lemma_trimmed_unchanged(w);
    lemma_trimmed_unchanged(e);
    lemma_none_match_witness(w, e, 0);
    lemma_none_match_witness(e, w, 0);
}

/// Does the request's `If-None-Match` value (absent when the header is
/// missing or not visible ASCII) match `etag` (or `*`)? The ETag is compared
/// by its text as a header value, which is empty when it is not visible ASCII.
pub fn if_none_match_matches(header: Option<&str>, etag: &str) -> (r: bool)
    ensures
        r == none_match(
            match header {
                Some(h) => Some(h@),
                None => None,
            },
            etag@,
        ),
{
    let value = match header {
        Some(v) => v,
        None => {
            return false;
        },
    };
    assert(header == Some(value));
    let text = etag_text(etag);
    let want = strip_weak(text.as_str());
    let pieces = split_all(value, ',');
    let mut i: usize = 0;
    while i < pieces.len()
        invariant
            i <= pieces@.len(),
            header == Some(value),
            want@ == weakless(text@),
            text@ == header_text(etag@),
            views(pieces@) == split_on(value@, ','),
            forall|j: int|
                0 <= j < i ==> !candidate_matches(
                    trimmed(#[trigger] split_on(value@, ',')[j]),
                    text@,
                ),
        decreases pieces.len() - i,
    {
        let c = trim(pieces[i].as_str());
        assert(split_on(value@, ',')[i as int] == pieces@[i as int]@);
        assert(views(pieces@).len() == pieces@.len());
        let star = same_text(c.as_str(), "*");
        proof {
            reveal_strlit("*");
            assert("*"@ =~= seq!['*']);
        }
        if star {
            assert(candidate_matches(trimmed(split_on(value@, ',')[i as int]), text@));
            proof {
                lemma_none_match_witness(value@, etag@, i as int);
            }
            return true;
        }
        let w = strip_weak(c.as_str());
        if same_text(w.as_str(), want.as_str()) {
            assert(candidate_matches(trimmed(split_on(value@, ',')[i as int]), text@));
            proof {
                lemma_none_match_witness(value@, etag@, i as int);
            }
            return true;
        }
        i += 1;
    }
    false
}

/// `text` between double quotes, as a header value when `http` accepts it.
pub fn quoted_etag(text: &str) -> (r: Option<String>)
    ensures
        match r {
            Some(e) => e@ == seq!['"'] + text@ + seq!['"'] && header_bytes_ok(vstd::utf8::encode_utf8(e@)),
            None => !header_bytes_ok(vstd::utf8::encode_utf8(seq!['"'] + text@ + seq!['"'])),
        },
{
    let mut e = String::new();
    push_char(&mut e, '"');
    push_str(&mut e, text);
    push_char(&mut e, '"');
    assert(e@ =~= seq!['"'] + text@ + seq!['"']);
    if header_value_allowed(e.as_str()) {
        Some(e)
    } else {
        None
    }
}

/// The strong ETag of a photo file: its quoted content hash; none when
/// Digikam has no (or an empty) hash, or the hash cannot stand in a header.
pub fn file_etag(unique_hash: Option<String>) -> (r: Option<String>)
    ensures
        match unique_hash {
            Some(h) => if h@.len() > 0 && header_bytes_ok(
                vstd::utf8::encode_utf8(seq!['"'] + h@ + seq!['"']),
            ) {
                r matches Some(e) && e@ == seq!['"'] + h@ + seq!['"']
            } else {
                r is None
            },
            None => r is None,
        },
{
    match unique_hash {
        Some(h) => if h.as_str().is_empty() {
            None
        } else {
            quoted_etag(h.as_str())
        },
        None => None,
    }
}

/// The ETag of a stored thumbnail: the quoted content hash with a `-thumb`
/// suffix (distinct from the file's).
pub fn thumbnail_etag(hash: &str) -> (r: Option<String>)
    ensures
        match r {
            Some(e) => e@ == seq!['"'] + hash@ + "-thumb"@ + seq!['"'],
            None => !header_bytes_ok(
                vstd::utf8::encode_utf8(seq!['"'] + (hash@ + "-thumb"@) + seq!['"']),
            ),
        },
{
    let t = concat(hash, "-thumb");
    let r = quoted_etag(t.as_str());
    assert(seq!['"'] + (hash@ + "-thumb"@) + seq!['"'] =~= seq!['"'] + hash@ + "-thumb"@ + seq![
        '"',
    ]);
    r
}

/// A character kept as is in the ASCII `filename=` fallback: printable ASCII
/// other than `"` and `\`.
pub open spec fn filename_safe(c: char) -> bool {
    ' ' <= c && c < '\u{7f}' && c != '"' && c != '\\'
}

/// A file name with every character that is not `filename_safe` replaced by `_`.
pub open spec fn ascii_fallback(name: Seq<char>) -> Seq<char>
    decreases name.len(),
{
    if name.len() == 0 {
        name
    } else {
        ascii_fallback(name.drop_last()).push(
            if filename_safe(name.last()) {
                name.last()
            } else {
                '_'
            },
        )
    }
}

/// The `Content-Disposition` value suggesting a file name: inline, with an
/// ASCII fallback plus an RFC 5987 `filename*` carrying the UTF-8 name.
pub open spec fn disposition(name: Seq<char>) -> Seq<char> {
    "inline; filename=\""@ + ascii_fallback(name) + "\"; filename*=UTF-8''"@ + percent_encoded(
        vstd::utf8::encode_utf8(name),
    )
}

/// Law: the ASCII fallback name has one character per character of the
/// name: printable ASCII other than `"` and `\` is kept as it is, anything
/// else becomes `_`.
pub proof fn lemma_ascii_fallback_chars(name: Seq<char>)
    ensures
        ascii_fallback(name).len() == name.len(),
        forall|i: int|
            0 <= i < name.len() ==> #[trigger] ascii_fallback(name)[i] == if ' ' <= name[i] <= '~'
                && name[i] != '"' && name[i] != '\\' {
                name[i]
            } else {
                '_'
            },
    decreases name.len(),
{
    if name.len() > 0 {
        let init = name.drop_last();
        lemma_ascii_fallback_chars(init);
        assert forall|i: int|
            0 <= i < name.len() implies #[trigger] ascii_fallback(name)[i] == if ' ' <= name[i] <= '~'
                && name[i] != '"' && name[i] != '\\' {
                name[i]
            } else {
                '_'
            } by {
            if i < init.len() {
                assert(init[i] == name[i]);
                assert(ascii_fallback(name)[i] == ascii_fallback(init)[i]);
            }
        }
    }
}

/// Law: a name made of printable ASCII without `"` and `\` stands in the
/// `filename=` fallback unchanged.
pub proof fn lemma_ascii_name_kept(name: Seq<char>)
    requires
        forall|i: int|
            0 <= i < name.len() ==> ' ' <= #[trigger] name[i] <= '~' && name[i] != '"' && name[i]
                != '\\',
    ensures
        ascii_fallback(name) == name,
        disposition(name) == "inline; filename=\""@ + name + "\"; filename*=UTF-8''"@
            + percent_encoded(vstd::utf8::encode_utf8(name)),
{
    lemma_ascii_fallback_chars(name);
    assert(ascii_fallback(name) =~= name);
}

/// A `Content-Disposition: inline` value carrying the file name, with an
/// ASCII fallback plus an RFC 5987 `filename*` for non-ASCII names.
pub fn content_disposition(name: &str) -> (r: Option<String>)
    ensures
        match r {
            Some(v) => v@ == disposition(name@),
            None => !header_bytes_ok(vstd::utf8::encode_utf8(disposition(name@))),
        },
{
    let cs = chars_of(name);
    let mut ascii = String::new();
    let mut i: usize = 0;
    assert(cs@.take(0) =~= Seq::<char>::empty());
    while i < cs.len()
        invariant
            i <= cs@.len(),
            cs@ == name@,
            ascii@ == ascii_fallback(cs@.take(i as int)),
        decreases cs.len() - i,
    {
        let c = cs[i];
        assert(cs@.take(i + 1).drop_last() =~= cs@.take(i as int));
        if ' ' <= c && c < '\u{7f}' && c != '"' && c != '\\' {
            push_char(&mut ascii, c);
        } else {
            push_char(&mut ascii, '_');
        }
        i += 1;
    }
    assert(cs@.take(cs@.len() as int) =~= cs@);
    let encoded = url_encode(name);
    let mut v = String::new();
    push_str(&mut v, "inline; filename=\"");
    push_str(&mut v, ascii.as_str());
    push_str(&mut v, "\"; filename*=UTF-8''");
    push_str(&mut v, encoded.as_str());
    if header_value_allowed(v.as_str()) {
        Some(v)
    } else {
        None
    }
}

/// The 404 of a photo that does not exist (or is not visible).
pub fn photo_not_found(id: i64) -> (e: ApiError)
    ensures
        e matches ApiError::NotFound(m) && m@ == "photo "@ + decimal(id as int) + " not found"@,
{
    let mut m = owned("photo ");
    let digits = decimal_text(id);
    push_str(&mut m, digits.as_str());
    push_str(&mut m, " not found");
    ApiError::NotFound(m)
}

/// The 404 of a photo whose album root is unknown.
pub fn root_not_found(album_root: i64) -> (e: ApiError)
    ensures
        e matches ApiError::NotFound(m) && m@ == "album root "@ + decimal(album_root as int)
            + " unknown"@,
{
    let mut m = owned("album root ");
    let digits = decimal_text(album_root);
    push_str(&mut m, digits.as_str());
    push_str(&mut m, " unknown");
    ApiError::NotFound(m)
}

/// The content key of a photo's stored thumbnail (its unique hash and file
/// size); a 404 when the photo is unknown or lacks either.
pub fn thumbnail_key(id: i64, row: Option<(Option<String>, Option<i64>)>) -> (r: Result<
    (String, i64),
    ApiError,
>)
    ensures
        match row {
            Some((Some(h), Some(size))) => r matches Ok((k, s)) && k == h && s == size,
            _ => r matches Err(ApiError::NotFound(m)) && m@ == "photo "@ + decimal(id as int)
                + " not found"@,
        },
{
    match row {
        Some((Some(h), Some(size))) => Ok((h, size)),
        _ => Err(photo_not_found(id)),
    }
}

/// The 404 of a photo without a stored thumbnail.
pub fn no_thumbnail(id: i64) -> (e: ApiError)
    ensures
        e matches ApiError::NotFound(m) && m@ == "no thumbnail for photo "@ + decimal(id as int),
{
    let mut m = owned("no thumbnail for photo ");
    let digits = decimal_text(id);
    push_str(&mut m, digits.as_str());
    ApiError::NotFound(m)
}

/// Query for `GET /photos/:id/reverse-search`.
#[derive(Debug)]
pub struct ReverseSearchParams {
    /// Search engine; only `yandex` is supported (the default).
    pub engine: Option<String>,
}

/// Check the reverse-search engine: absent means `yandex`, the only one
/// supported; anything else is a 400.
pub fn check_engine(params: &ReverseSearchParams) -> (r: Result<(), ApiError>)
    ensures
        match params.engine {
            None => r is Ok,
            Some(e) => if e@ == "yandex"@ {
                r is Ok
            } else {
                r matches Err(ApiError::BadRequest(m)) && m@ == "unsupported engine: "@ + e@
            },
        },
{
    match &params.engine {
        None => Ok(()),
        Some(e) => if same_text(e.as_str(), "yandex") {
            Ok(())
        } else {
            Err(ApiError::BadRequest(concat("unsupported engine: ", e.as_str())))
        },
    }
}

/// The MIME type an upload of the file is sent with: the guess from its
/// name, else `application/octet-stream`.
pub fn upload_mime(name: &str) -> (r: String)
    ensures
        r@ == match guessed_mime(name@) {
            Some(m) => m,
            None => "application/octet-stream"@,
        },
{
    match guess_mime(name) {
        Some(m) => m,
        None => owned("application/octet-stream"),
    }
}

/// The canonical Yandex results page of a reverse-image search.
pub fn yandex_results_url(cbir_id: &str) -> (r: String)
    ensures
        r@ == "https://yandex.com/images/search?rpt=imageview&cbir_id="@ + percent_encoded(
            cbir_id.spec_bytes(),
        ) + "&cbir_page=similar"@,
{
    let mut r = owned("https://yandex.com/images/search?rpt=imageview&cbir_id=");
    let id = url_encode(cbir_id);
    push_str(&mut r, id.as_str());
    push_str(&mut r, "&cbir_page=similar");
    r
}


/// A failed reverse search: a 502 naming Yandex and what went wrong.
pub fn yandex_failure(detail: &str) -> (e: ApiError)
    ensures
        e matches ApiError::BadGateway(m) && m@ == "Yandex reverse search: "@ + detail@,
{
    ApiError::BadGateway(concat("Yandex reverse search: ", detail))
}

/// The CBIR id from what the JSON lookup found: the string itself; a 502
/// when the reply is not JSON (the message a failed JSON decoding of a
/// response body gives), or when it holds no id.
pub fn cbir_outcome(found: Option<Option<String>>) -> (r: Result<String, ApiError>)
    ensures
        match found {
            Some(Some(id)) => r matches Ok(x) && x@ == id@,
            Some(None) => r matches Err(ApiError::BadGateway(m)) && m@
                == "Yandex reverse search: no cbirId in response"@,
            None => r matches Err(ApiError::BadGateway(m)) && m@
                == "Yandex reverse search: error decoding response body"@,
        },
{
    proof {
        reveal_strlit("Yandex reverse search: ");
    }
    match found {
        Some(Some(id)) => Ok(id),
        Some(None) => {
            proof {
                reveal_strlit("no cbirId in response");
                reveal_strlit("Yandex reverse search: no cbirId in response");
            }
            Err(yandex_failure("no cbirId in response"))
        },
        None => {
            proof {
                reveal_strlit("error decoding response body");
                reveal_strlit("Yandex reverse search: error decoding response body");
            }
            Err(yandex_failure("error decoding response body"))
        },
    }
}

/// The CBIR id in the body of Yandex's reply to an image upload
/// (`blocks[0].params.cbirId`).
pub fn cbir_id(body: &[u8]) -> (r: Result<String, ApiError>)
    ensures
        match json_text_at(body@, "blocks"@, 0, "params"@, "cbirId"@) {
            Some(Some(id)) => r matches Ok(x) && x@ == id,
            Some(None) => r matches Err(ApiError::BadGateway(m)) && m@
                == "Yandex reverse search: no cbirId in response"@,
            None => r matches Err(ApiError::BadGateway(m)) && m@
                == "Yandex reverse search: error decoding response body"@,
        },
{
    let found = json_text_at_path(body, "blocks", 0, "params", "cbirId");
    cbir_outcome(found)
}

/// A valid bookmark name: trimmed, not empty, at most 100 characters.
pub fn bookmark_name(raw: &str) -> (r: Result<String, ApiError>)
    ensures
        match r {
            Ok(n) => n@ == trimmed(raw@) && 0 < n@.len() <= 100,
            Err(ApiError::BadRequest(m)) => if trimmed(raw@).len() == 0 {
                m@ == "bookmark name must not be empty"@
            } else {
                trimmed(raw@).len() > 100 && m@ == "bookmark name is too long"@
            },
            Err(_) => false,
        },
{
    let name = trim(raw);
    if name.as_str().is_empty() {
        return Err(ApiError::BadRequest(owned("bookmark name must not be empty")));
    }
    let cs = chars_of(name.as_str());
    if cs.len() > 100 {
        return Err(ApiError::BadRequest(owned("bookmark name is too long")));
    }
    Ok(name)
}

/// The bookmark a `POST /bookmarks` request creates, and whether it may
/// replace a same-named one.
pub fn new_bookmark(req: CreateBookmark) -> (r: Result<(Bookmark, bool), ApiError>)
    ensures
        match r {
            Ok((b, overwrite)) => b.name@ == trimmed(req.name@) && 0 < b.name@.len() <= 100
                && b.album == req.album && b.filters == req.filters && overwrite == req.overwrite,
            Err(ApiError::BadRequest(_)) => trimmed(req.name@).len() == 0 || trimmed(req.name@).len()
                > 100,
            Err(_) => false,
        },
{
    let name = match bookmark_name(req.name.as_str()) {
        Ok(n) => n,
        Err(e) => {
            return Err(e);
        },
    };
    Ok((Bookmark { name, album: req.album, filters: req.filters }, req.overwrite))
}

/// The statement storing a bookmark: a plain insert (a duplicate name is a
/// constraint violation), or insert-or-replace when overwriting.
pub fn bookmark_insert_sql(overwrite: bool) -> (r: &'static str)
    ensures
        r@ == if overwrite {
            "INSERT OR REPLACE INTO bookmarks (name, album, recursive, min_rating, images, video, aspect, tags, sort) VALUES (?1, ?2, ?3, ?4, ?5, ?6, ?7, ?8, ?9)"@
        } else {
            "INSERT INTO bookmarks (name, album, recursive, min_rating, images, video, aspect, tags, sort) VALUES (?1, ?2, ?3, ?4, ?5, ?6, ?7, ?8, ?9)"@
        },
{
    if overwrite {
        "INSERT OR REPLACE INTO bookmarks (name, album, recursive, min_rating, images, video, aspect, tags, sort) VALUES (?1, ?2, ?3, ?4, ?5, ?6, ?7, ?8, ?9)"
    } else {
        "INSERT INTO bookmarks (name, album, recursive, min_rating, images, video, aspect, tags, sort) VALUES (?1, ?2, ?3, ?4, ?5, ?6, ?7, ?8, ?9)"
    }
}

/// The 409 of a bookmark name that is already taken.
pub fn bookmark_conflict(name: &str) -> (e: ApiError)
    ensures
        e matches ApiError::Conflict(m) && m@ == "a bookmark named \""@ + name@ + "\" already exists"@,
{
    let mut m = owned("a bookmark named \"");
    push_str(&mut m, name);
    push_str(&mut m, "\" already exists");
    ApiError::Conflict(m)
}

/// One row of the `bookmarks` table.
#[derive(Debug)]
pub struct BookmarkRow {
    pub name: String,
    pub album: String,
    pub recursive: i64,
    pub min_rating: i64,
    pub images: i64,
    pub video: i64,
    pub aspect: String,
    /// The tag tokens as a JSON array of strings.
    pub tags: String,
    pub sort: String,
}

/// A bookmark as plain values.
pub struct SavedView {
    pub name: Seq<char>,
    pub album: Seq<char>,
    pub recursive: bool,
    pub min_rating: int,
    pub include_images: bool,
    pub include_video: bool,
    pub aspect: Aspect,
    pub tags: Seq<Seq<char>>,
    pub sort: Sort,
}

/// The plain values of a bookmark.
pub open spec fn saved_view(b: Bookmark) -> SavedView {
    SavedView {
        name: b.name@,
        album: b.album@,
        recursive: b.filters.recursive,
        min_rating: b.filters.min_rating.value(),
        include_images: b.filters.include_images,
        include_video: b.filters.include_video,
        aspect: b.filters.aspect,
        tags: views(b.filters.tags@),
        sort: b.filters.sort,
    }
}

/// An integer column for a flag.
pub open spec fn flag(b: bool) -> int {
    if b {
        1
    } else {
        0
    }
}

/// Whether `row` stores the bookmark `v`: flags as 1/0, the rating's value,
/// the aspect and sort as their canonical texts, the tags as JSON.
pub open spec fn row_stores(row: BookmarkRow, v: SavedView) -> bool {
    &&& row.name@ == v.name
    &&& row.album@ == v.album
    &&& row.recursive == flag(v.recursive)
    &&& row.min_rating == v.min_rating
    &&& row.images == flag(v.include_images)
    &&& row.video == flag(v.include_video)
    &&& row.aspect@ == aspect_text(v.aspect)
    &&& row.tags@ == string_list_json(v.tags)
    &&& row.sort@ == sort_text(v.sort)
}

/// The bookmark a stored row reads as: non-zero flags are true; an
/// out-of-range rating, an unknown aspect or sort, or tags that are not a JSON
/// list of strings fall back to the defaults.
pub open spec fn row_reading(row: BookmarkRow) -> SavedView {
    SavedView {
        name: row.name@,
        album: row.album@,
        recursive: row.recursive != 0,
        min_rating: if 0 <= row.min_rating <= 5 {
            row.min_rating as int
        } else {
            0
        },
        include_images: row.images != 0,
        include_video: row.video != 0,
        aspect: match aspect_of_text(row.aspect@) {
            Some(a) => a,
            None => Aspect::All,
        },
        tags: match json_string_list(row.tags@) {
            Some(t) => t,
            None => Seq::empty(),
        },
        sort: match sort_of_text(row.sort@) {
            Some(s) => s,
            None => Sort::Modified,
        },
    }
}

/// The row that stores a bookmark. Reading the row back gives the same
/// bookmark.
pub fn bookmark_to_row(b: &Bookmark) -> (row: BookmarkRow)
    ensures
        row_stores(row, saved_view(*b)),
        row_reading(row) == saved_view(*b),
{
    let tags = match write_string_list(&b.filters.tags) {
        Some(t) => t,
        None => owned("[]"),
    };
    let row = BookmarkRow {
        name: b.name.clone(),
        album: b.album.clone(),
        recursive: if b.filters.recursive {
            1
        } else {
            0
        },
        min_rating: b.filters.min_rating.get(),
        images: if b.filters.include_images {
            1
        } else {
            0
        },
        video: if b.filters.include_video {
            1
        } else {
            0
        },
        aspect: owned(b.filters.aspect.as_str()),
        tags,
        sort: owned(b.filters.sort.as_str()),
    };
    proof {
        crate::filters::lemma_aspect_text_round_trip(b.filters.aspect);
        crate::filters::lemma_sort_text_round_trip(b.filters.sort);
    }
    row
}

/// Read a row of the `bookmarks` table as a bookmark (see `row_reading`).
pub fn bookmark_from_row(row: BookmarkRow) -> (b: Bookmark)
    ensures
        saved_view(b) == row_reading(row),
{
    let min_rating = match Rating::new(row.min_rating) {
        Some(r) => r,
        None => Rating::default(),
    };
    let aspect = match Aspect::parse(row.aspect.as_str()) {
        Some(a) => a,
        None => Aspect::All,
    };
    let tags = match parse_string_list(row.tags.as_str()) {
        Some(t) => t,
        None => Vec::new(),
    };
    let sort = match Sort::parse(row.sort.as_str()) {
        Some(s) => s,
        None => Sort::Modified,
    };
    let b = Bookmark {
        name: row.name,
        album: row.album,
        filters: Filters {
            recursive: row.recursive != 0,
            min_rating,
            include_images: row.images != 0,
            include_video: row.video != 0,
            aspect,
            tags,
            sort,
        },
    };
    assert(saved_view(b).tags =~= row_reading(row).tags);
    b
}

} // verus!
