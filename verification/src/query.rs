//! Building the SQL of the photo and sub-album listings: album scope, view
//! filters, paging, and turning result rows into response items.
use vstd::prelude::*;

use std::collections::HashMap;

use crate::filters::{aspect_sql, Aspect, Filters, Rating, Sort};
use crate::models::{Cover, Page, PhotoSummary, SubAlbum};
use crate::outside::{guess_mime, guessed_mime};
use crate::paths::{album_display_path, display_path, opt_view, root_id_by_label, AlbumRoot};
use crate::text::{
    chars_of, drop_leading, drop_trailing, lemma_split_on_len, nonempty_pieces, push_char, push_str,
    split_nonempty, split_on, trim_end_char, views,
};

verus! {

pub const DEFAULT_LIMIT: u64 = 25000;

pub const MAX_LIMIT: u64 = 100000;

/// A value bound to a `?` or named parameter of an SQL statement.
#[derive(Debug, Clone)]
pub enum SqlValue {
    Integer(i64),
    Text(String),
}

/// The mathematical form of a bound SQL value.
pub enum SqlParam {
    Integer(int),
    Text(Seq<char>),
}

impl View for SqlValue {
    type V = SqlParam;

    open spec fn view(&self) -> SqlParam {
        match self {
            SqlValue::Integer(n) => SqlParam::Integer(*n as int),
            SqlValue::Text(s) => SqlParam::Text(s@),
        }
    }
}

/// The views of a list of bound values.
pub open spec fn param_views(v: Seq<SqlValue>) -> Seq<SqlParam> {
    v.map_values(|x: SqlValue| x@)
}

/// The SQL condition of the media-type filter on `Images.category` (videos
/// are category 2; anything else is an image).
pub open spec fn media_sql(include_images: bool, include_video: bool) -> Seq<char> {
    if include_images && include_video {
        ""@
    } else if include_images {
        " AND i.category != 2"@
    } else if include_video {
        " AND i.category = 2"@
    } else {
        " AND 1 = 0"@
    }
}

/// The SQL `AND` fragment restricting `Images.category` for the media-type
/// filter. Both booleans true: no restriction; both false: match nothing.
pub fn media_filter_sql(include_images: bool, include_video: bool) -> (r: &'static str)
    ensures
        r@ == media_sql(include_images, include_video),
{
    if include_images && include_video {
        ""
    } else if include_images {
        " AND i.category != 2"
    } else if include_video {
        " AND i.category = 2"
    } else {
        " AND 1 = 0"
    }
}

/// `s` with `%`, `_` and `\` escaped by a `\` for a `LIKE ... ESCAPE '\'` pattern.
pub open spec fn like_escaped(s: Seq<char>) -> Seq<char>
    decreases s.len(),
{
    if s.len() == 0 {
        s
    } else {
        let init = like_escaped(s.drop_last());
        let c = s.last();
        if c == '%' || c == '_' || c == '\\' {
            init.push('\\').push(c)
        } else {
            init.push(c)
        }
    }
}

/// Escape `%`, `_` and `\` for use in a `LIKE ... ESCAPE '\'` pattern.
pub fn escape_like(s: &str) -> (r: String)
    ensures
        r@ == like_escaped(s@),
{
    let cs = chars_of(s);
    let mut out = String::new();
    let mut i: usize = 0;
    assert(cs@.take(0) =~= Seq::<char>::empty());
    while i < cs.len()
        invariant
            i <= cs@.len(),
            cs@ == s@,
            out@ == like_escaped(cs@.take(i as int)),
        decreases cs.len() - i,
    {
        let c = cs[i];
        assert(cs@.take(i + 1).drop_last() =~= cs@.take(i as int));
        if c == '%' || c == '_' || c == '\\' {
            push_char(&mut out, '\\');
        }
        push_char(&mut out, c);
        i += 1;
    }
    assert(cs@.take(cs@.len() as int) =~= cs@);
    out
}

/// `s` with each `'` doubled, for a single-quoted SQLite string literal.
pub open spec fn quotes_doubled(s: Seq<char>) -> Seq<char>
    decreases s.len(),
{
    if s.len() == 0 {
        s
    } else if s.last() == '\'' {
        quotes_doubled(s.drop_last()).push('\'').push('\'')
    } else {
        quotes_doubled(s.drop_last()).push(s.last())
    }
}

/// The single-quoted SQLite string literal of a tag-filter token, trailing
/// `/` dropped.
pub open spec fn token_literal(token: Seq<char>) -> Seq<char> {
    sql_literal(drop_trailing(token, '/'))
}

/// The single-quoted SQLite string literal of a text (quotes doubled).
pub open spec fn sql_literal(s: Seq<char>) -> Seq<char> {
    seq!['\''] + quotes_doubled(s) + seq!['\'']
}

/// The `LIKE` pattern matching a relative album path whose last segment is
/// the tag-filter token (trailing `/` dropped, `LIKE` metacharacters escaped).
/// SQLite's `LIKE` ignores ASCII case.
pub open spec fn album_name_pattern(token: Seq<char>) -> Seq<char> {
    seq!['%', '/'] + like_escaped(drop_trailing(token, '/'))
}

/// The SQL subquery yielding the tag ids a tag-filter token matches: the
/// matched tag(s) plus all their descendants. A token starting with `/` is an
/// absolute tag path; any other token is a tag name, matched at any level.
pub open spec fn tag_ids_sql(token: Seq<char>) -> Seq<char> {
    if token.len() > 0 && token[0] == '/' {
        "WITH RECURSIVE paths(id, path) AS ( SELECT id, '/' || name FROM Tags WHERE pid = 0 UNION ALL SELECT t.id, p.path || '/' || t.name FROM Tags t JOIN paths p ON t.pid = p.id ), base(id) AS (SELECT id FROM paths WHERE path = "@
            + token_literal(token)
            + ") SELECT id FROM base UNION SELECT id FROM TagsTree WHERE pid IN (SELECT id FROM base)"@
    } else {
        "WITH base(id) AS (SELECT id FROM Tags WHERE name = "@ + token_literal(token)
            + ") SELECT id FROM base UNION SELECT id FROM TagsTree WHERE pid IN (SELECT id FROM base)"@
    }
}

/// The single-quoted SQLite string literal of `s` (see `sql_literal`).
fn sql_quoted(s: &str) -> (r: String)
    ensures
        r@ == sql_literal(s@),
{
    let cs = chars_of(s);
    let mut lit = String::new();
    push_char(&mut lit, '\'');
    let mut i: usize = 0;
    assert(cs@.take(0) =~= Seq::<char>::empty());
    while i < cs.len()
        invariant
            i <= cs@.len(),
            cs@ == s@,
            lit@ == seq!['\''] + quotes_doubled(cs@.take(i as int)),
        decreases cs.len() - i,
    {
        let c = cs[i];
        assert(cs@.take(i + 1).drop_last() =~= cs@.take(i as int));
        if c == '\'' {
            push_char(&mut lit, '\'');
            push_char(&mut lit, '\'');
        } else {
            push_char(&mut lit, c);
        }
        i += 1;
    }
    assert(cs@.take(cs@.len() as int) =~= cs@);
    push_char(&mut lit, '\'');
    lit
}

/// A SQL subquery yielding the tag ids one tag-filter token matches, the
/// token going in as an escaped string literal (doubled quotes).
pub fn resolve_tag_filter(token: &str) -> (r: String)
    ensures
        r@ == tag_ids_sql(token@),
{
    let trimmed = trim_end_char(token, '/');
    let lit = sql_quoted(trimmed.as_str());
    let tcs = chars_of(token);
    let mut out = String::new();
    if tcs.len() > 0 && tcs[0] == '/' {
        push_str(
            &mut out,
            "WITH RECURSIVE paths(id, path) AS ( SELECT id, '/' || name FROM Tags WHERE pid = 0 UNION ALL SELECT t.id, p.path || '/' || t.name FROM Tags t JOIN paths p ON t.pid = p.id ), base(id) AS (SELECT id FROM paths WHERE path = ",
        );
        push_str(&mut out, lit.as_str());
        push_str(
            &mut out,
            ") SELECT id FROM base UNION SELECT id FROM TagsTree WHERE pid IN (SELECT id FROM base)",
        );
    } else {
        push_str(&mut out, "WITH base(id) AS (SELECT id FROM Tags WHERE name = ");
        push_str(&mut out, lit.as_str());
        push_str(
            &mut out,
            ") SELECT id FROM base UNION SELECT id FROM TagsTree WHERE pid IN (SELECT id FROM base)",
        );
    }
    out
}

/// The condition that an item carries a tag the token matches (or one of
/// its descendants).
pub open spec fn tagged_sql(token: Seq<char>) -> Seq<char> {
    "EXISTS (SELECT 1 FROM ImageTags it WHERE it.imageid = i.id AND it.tagid IN ("@
        + tag_ids_sql(token) + "))"@
}

/// The condition of one tag-filter token. A tag path (leading `/`) matches
/// tagged items only; a name also matches the items of an album whose name
/// (last path segment) is the token, ignoring ASCII case.
pub open spec fn token_sql(token: Seq<char>) -> Seq<char> {
    if token.len() > 0 && token[0] == '/' {
        " AND "@ + tagged_sql(token)
    } else {
        " AND ("@ + tagged_sql(token) + " OR a.relativePath LIKE "@ + sql_literal(
            album_name_pattern(token),
        ) + " ESCAPE '\\')"@
    }
}

/// The conditions of a tag-filter token list, AND'd: an item must match
/// every token (the image table is aliased `i`, the album table `a`).
pub open spec fn tags_sql(tokens: Seq<Seq<char>>) -> Seq<char>
    decreases tokens.len(),
{
    if tokens.len() == 0 {
        Seq::empty()
    } else {
        tags_sql(tokens.drop_last()) + token_sql(tokens.last())
    }
}

/// The condition of one tag-filter token (see `token_sql`).
pub fn token_filter_sql(token: &str) -> (r: String)
    ensures
        r@ == token_sql(token@),
{
    let ids = resolve_tag_filter(token);
    let mut tagged = String::new();
    push_str(&mut tagged, "EXISTS (SELECT 1 FROM ImageTags it WHERE it.imageid = i.id AND it.tagid IN (");
    push_str(&mut tagged, ids.as_str());
    push_str(&mut tagged, "))");
    let tcs = chars_of(token);
    let mut out = String::new();
    if tcs.len() > 0 && tcs[0] == '/' {
        push_str(&mut out, " AND ");
        push_str(&mut out, tagged.as_str());
    } else {
        let trimmed = trim_end_char(token, '/');
        let mut pattern = String::new();
        push_str(&mut pattern, "%/");
        let escaped = escape_like(trimmed.as_str());
        push_str(&mut pattern, escaped.as_str());
        proof {
            reveal_strlit("%/");
            assert("%/"@ =~= seq!['%', '/']);
        }
        let lit = sql_quoted(pattern.as_str());
        push_str(&mut out, " AND (");
        push_str(&mut out, tagged.as_str());
        push_str(&mut out, " OR a.relativePath LIKE ");
        push_str(&mut out, lit.as_str());
        push_str(&mut out, " ESCAPE '\\')");
    }
    out
}

/// Build the conditions of a tag-filter token list (see `tags_sql`).
pub fn tag_filter_sql(tokens: &Vec<String>) -> (r: String)
    ensures
        r@ == tags_sql(views(tokens@)),
{
    let mut sql = String::new();
    let mut i: usize = 0;
    assert(views(tokens@).take(0) =~= Seq::<Seq<char>>::empty());
    while i < tokens.len()
        invariant
            i <= tokens@.len(),
            sql@ == tags_sql(views(tokens@).take(i as int)),
        decreases tokens.len() - i,
    {
        let cond = token_filter_sql(tokens[i].as_str());
        assert(views(tokens@).take(i + 1).drop_last() =~= views(tokens@).take(i as int));
        push_str(&mut sql, cond.as_str());
        i += 1;
    }
    assert(views(tokens@).take(tokens@.len() as int) =~= views(tokens@));
    sql
}

/// The album segments of a display path: its non-empty `/`-separated parts.
pub open spec fn segments(path: Seq<char>) -> Seq<Seq<char>> {
    nonempty_pieces(split_on(path, '/'))
}

/// Split a display path (`/Photos/Lego`) into album segments (`["Photos",
/// "Lego"]`); an empty or `"/"` path yields `[]` (the virtual root).
pub fn album_segments(path: &str) -> (r: Vec<String>)
    ensures
        views(r@) == segments(path@),
{
    split_nonempty(path, '/')
}

/// Segments joined by `/`.
pub open spec fn joined(segs: Seq<Seq<char>>) -> Seq<char>
    decreases segs.len(),
{
    if segs.len() == 0 {
        Seq::empty()
    } else if segs.len() == 1 {
        segs[0]
    } else {
        joined(segs.drop_last()) + seq!['/'] + segs.last()
    }
}

/// `/` followed by the segments `segs[from..]` joined by `/`.
pub fn slash_joined(segs: &[String], from: usize) -> (r: String)
    requires
        from < segs@.len(),
    ensures
        r@ == seq!['/'] + joined(views(segs@).skip(from as int)),
{
    let mut out = String::new();
    push_char(&mut out, '/');
    push_str(&mut out, segs[from].as_str());
    let mut i: usize = from + 1;
    assert(views(segs@).subrange(from as int, from + 1) =~= seq![segs@[from as int]@]);
    while i < segs.len()
        invariant
            from < i <= segs@.len(),
            out@ == seq!['/'] + joined(views(segs@).subrange(from as int, i as int)),
        decreases segs.len() - i,
    {
        assert(views(segs@).subrange(from as int, i + 1).drop_last() =~= views(segs@).subrange(
            from as int,
            i as int,
        ));
        push_char(&mut out, '/');
        push_str(&mut out, segs[i].as_str());
        i += 1;
    }
    assert(views(segs@).subrange(from as int, segs@.len() as int) =~= views(segs@).skip(
        from as int,
    ));
    out
}

/// The root label and relative path named by album segments: `None` for no
/// segments (the virtual root); the relative path is `None` for a
/// collection's root album, else `/seg/seg`.
pub open spec fn root_and_rel(album: Seq<Seq<char>>) -> Option<(Seq<char>, Option<Seq<char>>)> {
    if album.len() == 0 {
        None
    } else if album.len() == 1 {
        Some((album[0], None))
    } else {
        Some((album[0], Some(seq!['/'] + joined(album.skip(1)))))
    }
}

/// Split album segments into the root `label` and the album's `relativePath`.
pub fn album_root_and_rel(album: &[String]) -> (r: Option<(&str, Option<String>)>)
    ensures
        match r {
            None => root_and_rel(views(album@)) is None,
            Some((label, rel)) => root_and_rel(views(album@)) == Some(
                (
                    label@,
                    match rel {
                        Some(x) => Some(x@),
                        None => None,
                    },
                ),
            ),
        },
{
    if album.len() == 0 {
        return None;
    }
    let label = album[0].as_str();
    if album.len() == 1 {
        Some((label, None))
    } else {
        Some((label, Some(slash_joined(album, 1))))
    }
}


/// Parsed query parameters for `GET /photos`: an album scope plus the view
/// filters and paging.
#[derive(Debug)]
pub struct PhotoQuery {
    /// Album path as segments (`["Photos", "Lego"]` for `/Photos/Lego`); empty
    /// means no album filter. The first segment is the `AlbumRoots.label`.
    pub album: Vec<String>,
    /// When true, the album filter also matches sub-albums; otherwise only the
    /// named album itself. Has no effect without `album`.
    pub recursive: bool,
    /// The view filters (rating / media / aspect / tags / sort).
    pub filters: Filters,
    pub limit: u64,
    pub offset: u64,
}

/// The album-scope conditions and their bound values.
pub open spec fn album_scope(album: Seq<Seq<char>>, recursive: bool) -> (Seq<char>, Seq<SqlParam>) {
    match root_and_rel(album) {
        None => (Seq::empty(), Seq::empty()),
        Some((label, rel)) => {
            let sql = " AND r.label = ?"@;
            let params = seq![SqlParam::Text(label)];
            if recursive {
                match rel {
                    Some(r) => (
                        sql + " AND (a.relativePath = ? OR a.relativePath LIKE ? ESCAPE '\\')"@,
                        params + seq![SqlParam::Text(r), SqlParam::Text(like_escaped(r) + "/%"@)],
                    ),
                    None => (sql, params),
                }
            } else {
                (
                    sql + " AND a.relativePath = ?"@,
                    params.push(
                        SqlParam::Text(
                            match rel {
                                Some(r) => r,
                                None => seq!['/'],
                            },
                        ),
                    ),
                )
            }
        },
    }
}

/// The bound values of the album-scope conditions.
pub open spec fn scope_params(album: Seq<Seq<char>>, recursive: bool) -> Seq<SqlParam> {
    album_scope(album, recursive).1
}

/// The shared `FROM ... WHERE ...` fragment of the photo queries and its bound
/// values: visible images only, the album scope, the tag, rating, media-type
/// and aspect filters (a zero minimum rating adds no condition).
pub open spec fn filter_sql(album: Seq<Seq<char>>, recursive: bool, f: Filters) -> (
    Seq<char>,
    Seq<SqlParam>,
) {
    let scope = album_scope(album, recursive);
    let with_tags = scope.0 + tags_sql(views(f.tags@));
    let rated = if f.min_rating.value() > 0 {
        (
            with_tags + " AND max(ifnull(ii.rating, 0), 0) >= ?"@,
            scope.1.push(SqlParam::Integer(f.min_rating.value())),
        )
    } else {
        (with_tags, scope.1)
    };
    (
        " FROM Images i JOIN Albums a ON a.id = i.album JOIN AlbumRoots r ON r.id = a.albumRoot LEFT JOIN ImageInformation ii ON ii.imageid = i.id WHERE i.status = 1"@
            + rated.0 + media_sql(f.include_images, f.include_video) + aspect_sql(f.aspect),
        rated.1,
    )
}

/// Build the album-scope conditions plus their bound parameters.
fn album_scope_sql(album: &Vec<String>, recursive: bool) -> (r: (String, Vec<SqlValue>))
    ensures
        (r.0@, param_views(r.1@)) == album_scope(views(album@), recursive),
{
    let mut sql = String::new();
    let mut params: Vec<SqlValue> = Vec::new();
    match album_root_and_rel(album.as_slice()) {
        Some((label, rel)) => {
            push_str(&mut sql, " AND r.label = ?");
            params.push(SqlValue::Text(crate::text::owned(label)));
            if recursive {
                match rel {
                    Some(rel) => {
                        let mut like = escape_like(rel.as_str());
                        push_str(&mut like, "/%");
                        push_str(
                            &mut sql,
                            " AND (a.relativePath = ? OR a.relativePath LIKE ? ESCAPE '\\')",
                        );
                        params.push(SqlValue::Text(rel));
                        params.push(SqlValue::Text(like));
                        assert(param_views(params@) =~= scope_params(views(album@), recursive));
                    },
                    None => {
                        assert(param_views(params@) =~= scope_params(views(album@), recursive));
                    },
                }
            } else {
                push_str(&mut sql, " AND a.relativePath = ?");
                let value = match rel {
                    Some(rel) => rel,
                    None => crate::text::owned("/"),
                };
                proof {
                    reveal_strlit("/");
                    assert("/"@ =~= seq!['/']);
                }
                params.push(SqlValue::Text(value));
                assert(param_views(params@) =~= scope_params(views(album@), recursive));
            }
        },
        None => {
            assert(param_views(params@) =~= scope_params(views(album@), recursive));
        },
    }
    (sql, params)
}

/// Build the shared `FROM ... WHERE ...` fragment plus its bound parameters.
pub fn build_filter(q: &PhotoQuery) -> (r: (String, Vec<SqlValue>))
    ensures
        (r.0@, param_views(r.1@)) == filter_sql(views(q.album@), q.recursive, q.filters),
{
    let mut sql = String::new();
    push_str(
        &mut sql,
        " FROM Images i JOIN Albums a ON a.id = i.album JOIN AlbumRoots r ON r.id = a.albumRoot LEFT JOIN ImageInformation ii ON ii.imageid = i.id WHERE i.status = 1",
    );
    let (scope, mut params) = album_scope_sql(&q.album, q.recursive);
    push_str(&mut sql, scope.as_str());
    let ghost scope_params = param_views(params@);
    let tags = tag_filter_sql(&q.filters.tags);
    push_str(&mut sql, tags.as_str());
    let min = q.filters.min_rating.get();
    if min > 0 {
        push_str(&mut sql, " AND max(ifnull(ii.rating, 0), 0) >= ?");
        params.push(SqlValue::Integer(min));
        assert(param_views(params@) =~= scope_params.push(SqlParam::Integer(min as int)));
    }
    push_str(&mut sql, media_filter_sql(q.filters.include_images, q.filters.include_video));
    push_str(&mut sql, q.filters.aspect.sql_filter());
    (sql, params)
}

/// The `ORDER BY` terms of the photo listing for a sort order.
pub open spec fn photo_order_sql(s: Sort) -> Seq<char> {
    match s {
        Sort::Modified => "i.modificationDate DESC, i.id DESC"@,
        Sort::Created => "ii.creationDate DESC, i.id DESC"@,
        Sort::Name => "i.name COLLATE NATSORT, i.id"@,
    }
}

fn photo_order(s: Sort) -> (r: &'static str)
    ensures
        r@ == photo_order_sql(s),
{
    match s {
        Sort::Modified => "i.modificationDate DESC, i.id DESC",
        Sort::Created => "ii.creationDate DESC, i.id DESC",
        Sort::Name => "i.name COLLATE NATSORT, i.id",
    }
}

/// The bound `LIMIT`: one row past the page, to detect whether more results
/// exist; `u64::MAX` (list everything) stays `u64::MAX`, which as `i64` is
/// -1, no limit for SQLite.
pub open spec fn limit_param(limit: u64) -> int {
    (if limit == u64::MAX {
        limit
    } else {
        (limit + 1) as u64
    }) as i64 as int
}

/// Whether a photo query lists nothing without asking the database: the
/// virtual root has no photos of its own unless the listing is recursive.
pub open spec fn lists_nothing(q: PhotoQuery) -> bool {
    q.album@.len() == 0 && !q.recursive
}

/// The photo listing statement and its bound values.
pub open spec fn photos_sql(q: PhotoQuery) -> (Seq<char>, Seq<SqlParam>) {
    let f = filter_sql(views(q.album@), q.recursive, q.filters);
    (
        "SELECT i.id, i.name, a.albumRoot, a.relativePath, i.fileSize, ii.format, ii.width, ii.height, ii.rating, i.modificationDate, i.category, ii.creationDate"@
            + f.0 + " ORDER BY "@ + photo_order_sql(q.filters.sort) + " LIMIT ? OFFSET ?"@,
        f.1 + seq![
            SqlParam::Integer(limit_param(q.limit)),
            SqlParam::Integer(q.offset as i64 as int),
        ],
    )
}

/// The statement listing a page of photos, or `None` when the query lists
/// nothing (the virtual root, non-recursively).
pub fn list_photos_sql(q: &PhotoQuery) -> (r: Option<(String, Vec<SqlValue>)>)
    ensures
        r is None <==> lists_nothing(*q),
        r matches Some((sql, params)) ==> (sql@, param_views(params@)) == photos_sql(*q),
{
    if q.album.len() == 0 && !q.recursive {
        return None;
    }
    let (filter, mut params) = build_filter(q);
    let mut sql = String::new();
    push_str(
        &mut sql,
        "SELECT i.id, i.name, a.albumRoot, a.relativePath, i.fileSize, ii.format, ii.width, ii.height, ii.rating, i.modificationDate, i.category, ii.creationDate",
    );
    push_str(&mut sql, filter.as_str());
    push_str(&mut sql, " ORDER BY ");
    push_str(&mut sql, photo_order(q.filters.sort));
    push_str(&mut sql, " LIMIT ? OFFSET ?");
    let limit: u64 = if q.limit == u64::MAX {
        q.limit
    } else {
        q.limit + 1
    };
    let ghost before = param_views(params@);
    params.push(SqlValue::Integer(limit as i64));
    params.push(SqlValue::Integer(q.offset as i64));
    assert(param_views(params@) =~= before + seq![
        SqlParam::Integer(limit_param(q.limit)),
        SqlParam::Integer(q.offset as i64 as int),
    ]);
    Some((sql, params))
}

/// The statement picking one random photo of a query's scope and filters, or
/// `None` when the query lists nothing.
pub fn random_photo_sql(q: &PhotoQuery) -> (r: Option<(String, Vec<SqlValue>)>)
    ensures
        r is None <==> lists_nothing(*q),
        r matches Some((sql, params)) ==> sql@ == "SELECT i.id"@ + filter_sql(
            views(q.album@),
            q.recursive,
            q.filters,
        ).0 + " ORDER BY random() LIMIT 1"@ && param_views(params@) == filter_sql(
            views(q.album@),
            q.recursive,
            q.filters,
        ).1,
{
    if q.album.len() == 0 && !q.recursive {
        return None;
    }
    let (filter, params) = build_filter(q);
    let mut sql = String::new();
    push_str(&mut sql, "SELECT i.id");
    push_str(&mut sql, filter.as_str());
    push_str(&mut sql, " ORDER BY random() LIMIT 1");
    Some((sql, params))
}

/// A non-negative integer column as `u64`; negatives are absent.
pub open spec fn nonneg(v: Option<i64>) -> Option<u64> {
    match v {
        Some(n) => if n >= 0 {
            Some(n as u64)
        } else {
            None
        },
        None => None,
    }
}

/// Map a non-negative integer column to `Option<u64>`, treating negatives as absent.
pub fn opt_u64(v: Option<i64>) -> (r: Option<u64>)
    ensures
        r == nonneg(v),
{
    match v {
        Some(n) => if n >= 0 {
            Some(n as u64)
        } else {
            None
        },
        None => None,
    }
}

/// The display path of an album in a root, or its relative path when the
/// root is unknown.
pub open spec fn album_path_in(roots: Map<i64, AlbumRoot>, root: i64, relative_path: Seq<char>) -> Seq<
    char,
> {
    if roots.contains_key(root) {
        display_path(roots[root].label@, relative_path)
    } else {
        relative_path
    }
}

/// The display path of an album, falling back to its relative path when the
/// album root is unknown.
pub fn album_path_or_relative(roots: &HashMap<i64, AlbumRoot>, root: i64, relative_path: &str) -> (r:
    String)
    ensures
        r@ == album_path_in(roots@, root, relative_path@),
{
    match roots.get(&root) {
        Some(r) => album_display_path(r, relative_path),
        None => crate::text::owned(relative_path),
    }
}

/// One row of the photo listing.
pub struct PhotoRow {
    pub id: i64,
    pub name: String,
    pub album_root: i64,
    pub relative_path: String,
    pub file_size: Option<i64>,
    pub format: Option<String>,
    pub width: Option<i64>,
    pub height: Option<i64>,
    pub rating: Option<i64>,
    pub modification_date: Option<String>,
    pub category: i64,
    pub creation_date: Option<String>,
}

/// Turn one listing row into a photo summary: the album's display path, the
/// MIME type guessed from the file name, negative numbers as absent, and
/// category 2 as a video.
pub fn photo_summary(roots: &HashMap<i64, AlbumRoot>, row: PhotoRow) -> (p: PhotoSummary)
    ensures
        p.id == row.id as u64,
        p.name@ == row.name@,
        p.album_path@ == album_path_in(roots@, row.album_root, row.relative_path@),
        p.file_size == nonneg(row.file_size),
        p.format == row.format,
        p.width == nonneg(row.width),
        p.height == nonneg(row.height),
        p.rating == nonneg(row.rating),
        p.modification_date == row.modification_date,
        p.creation_date == row.creation_date,
        opt_view(p.mime) == guessed_mime(row.name@),
        p.is_video == (row.category == 2),
{
    let album_path = album_path_or_relative(roots, row.album_root, row.relative_path.as_str());
    let mime = guess_mime(row.name.as_str());
    PhotoSummary {
        id: row.id as u64,
        name: row.name,
        album_path,
        file_size: opt_u64(row.file_size),
        format: row.format,
        width: opt_u64(row.width),
        height: opt_u64(row.height),
        rating: opt_u64(row.rating),
        modification_date: row.modification_date,
        creation_date: row.creation_date,
        mime,
        is_video: row.category == 2,
    }
}

/// Close a page: if the extra row past the limit came back, drop it and flag
/// the page incomplete.
pub fn finish_page<T>(items: Vec<T>, limit: u64, offset: u64) -> (page: Page<T>)
    ensures
        page.incomplete == (items@.len() > limit),
        page.items@ == if items@.len() > limit {
            items@.take(limit as int)
        } else {
            items@
        },
        page.limit == limit,
        page.offset == offset,
{
    let mut items = items;
    let incomplete = items.len() as u64 > limit;
    if incomplete {
        items.truncate(limit as usize);
    }
    Page { incomplete, limit, offset, items }
}


/// The date a sub-album's recency and cover are taken from.
pub open spec fn cover_date_sql(s: Sort) -> Seq<char> {
    match s {
        Sort::Created => "ii.creationDate"@,
        _ => "i.modificationDate"@,
    }
}

/// The order in which a sub-album's items compete for its cover: newest first,
/// or the first by natural name order under the name sort.
pub open spec fn cover_rank_sql(s: Sort) -> Seq<char> {
    match s {
        Sort::Name => "image_name COLLATE NATSORT, image_id"@,
        _ => "cdate DESC, image_id DESC"@,
    }
}

/// The order of the sub-albums: most recent first (ties by name), or by
/// natural name order under the name sort.
pub open spec fn bucket_order_sql(s: Sort) -> Seq<char> {
    match s {
        Sort::Name => "c.bucket COLLATE NATSORT"@,
        _ => "c.recent DESC, c.bucket COLLATE NOCASE"@,
    }
}

fn cover_date(s: Sort) -> (r: &'static str)
    ensures
        r@ == cover_date_sql(s),
{
    match s {
        Sort::Created => "ii.creationDate",
        _ => "i.modificationDate",
    }
}

fn cover_rank(s: Sort) -> (r: &'static str)
    ensures
        r@ == cover_rank_sql(s),
{
    match s {
        Sort::Name => "image_name COLLATE NATSORT, image_id",
        _ => "cdate DESC, image_id DESC",
    }
}

fn bucket_order(s: Sort) -> (r: &'static str)
    ensures
        r@ == bucket_order_sql(s),
{
    match s {
        Sort::Name => "c.bucket COLLATE NATSORT",
        _ => "c.recent DESC, c.bucket COLLATE NOCASE",
    }
}

/// The filter conditions of the sub-album listing: media type, aspect, tags.
pub open spec fn subalbum_filter_sql(f: Filters) -> Seq<char> {
    media_sql(f.include_images, f.include_video) + aspect_sql(f.aspect) + tags_sql(views(f.tags@))
}

/// The matching items of the virtual top level, bucketed by root label.
pub open spec fn top_matched_sql(f: Filters) -> Seq<char> {
    "SELECT i.id AS image_id, i.name AS image_name, i.category AS category, "@ + cover_date_sql(
        f.sort,
    )
        + " AS cdate, r.label AS bucket FROM Images i JOIN Albums a ON a.id = i.album JOIN AlbumRoots r ON r.id = a.albumRoot LEFT JOIN ImageInformation ii ON ii.imageid = i.id WHERE i.status = 1 AND max(ifnull(ii.rating, 0), 0) >= :min"@
        + subalbum_filter_sql(f)
}

/// The matching items of an album's subtree, bucketed by the direct-child
/// path segment below the album.
pub open spec fn sub_matched_sql(f: Filters) -> Seq<char> {
    "SELECT image_id, image_name, category, cdate, CASE WHEN instr(rest, '/') > 0 THEN substr(rest, 1, instr(rest, '/') - 1) ELSE rest END AS bucket FROM ( SELECT i.id AS image_id, i.name AS image_name, i.category AS category, "@
        + cover_date_sql(f.sort)
        + " AS cdate, substr(a.relativePath, length(:prefix) + 1) AS rest FROM Images i JOIN Albums a ON a.id = i.album LEFT JOIN ImageInformation ii ON ii.imageid = i.id WHERE i.status = 1 AND a.albumRoot = :root AND a.relativePath LIKE :like ESCAPE '\\' AND length(a.relativePath) > length(:prefix) AND max(ifnull(ii.rating, 0), 0) >= :min"@
        + subalbum_filter_sql(f) + " )"@
}

/// The sub-album listing around the matching items: one row per bucket with
/// its count and cover.
pub open spec fn subalbums_sql(matched: Seq<char>, s: Sort) -> Seq<char> {
    "WITH matched AS ( "@ + matched
        + " ), counts AS ( SELECT bucket, COUNT(*) AS cnt, max(cdate) AS recent FROM matched GROUP BY bucket ), covers AS ( SELECT bucket, image_id, image_name, category, ROW_NUMBER() OVER (PARTITION BY bucket ORDER BY "@
        + cover_rank_sql(s)
        + ") AS rn FROM matched ) SELECT c.bucket, cv.image_id, cv.image_name, cv.category, c.cnt FROM counts c LEFT JOIN covers cv ON cv.bucket = c.bucket AND cv.rn = 1 ORDER BY "@
        + bucket_order_sql(s)
}

/// The path prefix shared by every album in a subtree (the root album is `/`).
pub open spec fn subtree_prefix(rel: Option<Seq<char>>) -> Seq<char> {
    match rel {
        None => seq!['/'],
        Some(r) => r + seq!['/'],
    }
}

/// The views of a list of named bound values.
pub open spec fn named_views(v: Seq<(&'static str, SqlValue)>) -> Seq<(Seq<char>, SqlParam)> {
    v.map_values(|x: (&'static str, SqlValue)| (x.0@, x.1@))
}

/// The sub-album listing of the album `album` (in the root `root_id` when it
/// is not the virtual top level) and its named bound values.
pub open spec fn subalbum_listing(album: Seq<Seq<char>>, f: Filters, root_id: i64) -> (
    Seq<char>,
    Seq<(Seq<char>, SqlParam)>,
) {
    let min = SqlParam::Integer(f.min_rating.value());
    match root_and_rel(album) {
        None => (subalbums_sql(top_matched_sql(f), f.sort), seq![(":min"@, min)]),
        Some((_label, rel)) => (
            subalbums_sql(sub_matched_sql(f), f.sort),
            seq![
                (":prefix"@, SqlParam::Text(subtree_prefix(rel))),
                (":root"@, SqlParam::Integer(root_id as int)),
                (":like"@, SqlParam::Text(like_escaped(subtree_prefix(rel)) + seq!['%'])),
                (":min"@, min),
            ],
        ),
    }
}

/// Whether no album root carries the label of the album's first segment.
pub open spec fn root_unknown(roots: Map<i64, AlbumRoot>, album: Seq<Seq<char>>) -> bool {
    album.len() > 0 && forall|id: i64| #[trigger]
        roots.contains_key(id) ==> roots[id].label@ != album[0]
}

/// The statement listing the direct sub-albums of `album` (an empty `album`
/// lists the album roots), each with its count and cover under `filters`;
/// `None` when the album's root label is unknown (the listing is then empty).
pub fn list_subalbums_sql(roots: &HashMap<i64, AlbumRoot>, album: &Vec<String>, filters: &Filters) -> (r:
    Option<(String, Vec<(&'static str, SqlValue)>)>)
    ensures
        r is None <==> root_unknown(roots@, views(album@)),
        r matches Some((sql, params)) ==> exists|id: i64|
            (album@.len() == 0 || (roots@.contains_key(id) && roots@[id].label@ == album@[0]@))
                && #[trigger] subalbum_listing(views(album@), *filters, id) == (
                sql@,
                named_views(params@),
            ),
{
    let min = filters.min_rating.get();
    let mut tail = String::new();
    push_str(&mut tail, media_filter_sql(filters.include_images, filters.include_video));
    push_str(&mut tail, filters.aspect.sql_filter());
    let tags = tag_filter_sql(&filters.tags);
    push_str(&mut tail, tags.as_str());
    let mut matched = String::new();
    let mut params: Vec<(&'static str, SqlValue)> = Vec::new();
    let ghost mut root_id: i64 = 0;
    match album_root_and_rel(album.as_slice()) {
        None => {
            push_str(&mut matched, "SELECT i.id AS image_id, i.name AS image_name, i.category AS category, ");
            push_str(&mut matched, cover_date(filters.sort));
            push_str(
                &mut matched,
                " AS cdate, r.label AS bucket FROM Images i JOIN Albums a ON a.id = i.album JOIN AlbumRoots r ON r.id = a.albumRoot LEFT JOIN ImageInformation ii ON ii.imageid = i.id WHERE i.status = 1 AND max(ifnull(ii.rating, 0), 0) >= :min",
            );
            push_str(&mut matched, tail.as_str());
            params.push((":min", SqlValue::Integer(min)));
            assert(named_views(params@) =~= seq![(":min"@, SqlParam::Integer(min as int))]);
            assert(named_views(params@) =~= subalbum_listing(views(album@), *filters, root_id).1);
        },
        Some((label, rel)) => {
            let id = match root_id_by_label(roots, label) {
                Some(id) => id,
                None => {
                    return None;
                },
            };
            proof {
                root_id = id;
            }
            let ghost rel_v = match &rel {
                Some(x) => Some(x@),
                None => None,
            };
            assert(root_and_rel(views(album@)) == Some((label@, rel_v)));
            let prefix = match rel {
                None => crate::text::owned("/"),
                Some(r) => {
                    let mut p = r;
                    push_char(&mut p, '/');
                    p
                },
            };
            proof {
                reveal_strlit("/");
                assert("/"@ =~= seq!['/']);
            }
            let mut like = escape_like(prefix.as_str());
            push_char(&mut like, '%');
            push_str(
                &mut matched,
                "SELECT image_id, image_name, category, cdate, CASE WHEN instr(rest, '/') > 0 THEN substr(rest, 1, instr(rest, '/') - 1) ELSE rest END AS bucket FROM ( SELECT i.id AS image_id, i.name AS image_name, i.category AS category, ",
            );
            push_str(&mut matched, cover_date(filters.sort));
            push_str(
                &mut matched,
                " AS cdate, substr(a.relativePath, length(:prefix) + 1) AS rest FROM Images i JOIN Albums a ON a.id = i.album LEFT JOIN ImageInformation ii ON ii.imageid = i.id WHERE i.status = 1 AND a.albumRoot = :root AND a.relativePath LIKE :like ESCAPE '\\' AND length(a.relativePath) > length(:prefix) AND max(ifnull(ii.rating, 0), 0) >= :min",
            );
            push_str(&mut matched, tail.as_str());
            push_str(&mut matched, " )");
            params.push((":prefix", SqlValue::Text(prefix)));
            params.push((":root", SqlValue::Integer(id)));
            params.push((":like", SqlValue::Text(like)));
            params.push((":min", SqlValue::Integer(min)));
            assert(named_views(params@) =~= seq![
                (":prefix"@, SqlParam::Text(prefix@)),
                (":root"@, SqlParam::Integer(id as int)),
                (":like"@, SqlParam::Text(like@)),
                (":min"@, SqlParam::Integer(min as int)),
            ]);
            assert(prefix@ == subtree_prefix(rel_v));
            assert(like@ == like_escaped(subtree_prefix(rel_v)) + seq!['%']);
            assert(root_id == id);
            assert(min == filters.min_rating.value());
            let ghost want = subalbum_listing(views(album@), *filters, root_id).1;
            assert(want[1] == (":root"@, SqlParam::Integer(id as int)));
            assert(want[0] == (":prefix"@, SqlParam::Text(prefix@)));
            assert(want[2] == (":like"@, SqlParam::Text(like@)));
            assert(want.len() == 4);
            assert(named_views(params@) =~= subalbum_listing(views(album@), *filters, root_id).1);
        },
    }
    let mut sql = String::new();
    push_str(&mut sql, "WITH matched AS ( ");
    push_str(&mut sql, matched.as_str());
    push_str(
        &mut sql,
        " ), counts AS ( SELECT bucket, COUNT(*) AS cnt, max(cdate) AS recent FROM matched GROUP BY bucket ), covers AS ( SELECT bucket, image_id, image_name, category, ROW_NUMBER() OVER (PARTITION BY bucket ORDER BY ",
    );
    push_str(&mut sql, cover_rank(filters.sort));
    push_str(
        &mut sql,
        ") AS rn FROM matched ) SELECT c.bucket, cv.image_id, cv.image_name, cv.category, c.cnt FROM counts c LEFT JOIN covers cv ON cv.bucket = c.bucket AND cv.rn = 1 ORDER BY ",
    );
    push_str(&mut sql, bucket_order(filters.sort));
    assert(named_views(params@) =~= subalbum_listing(views(album@), *filters, root_id).1);
    assert(sql@ =~= subalbum_listing(views(album@), *filters, root_id).0);
    Some((sql, params))
}

/// The display path of an album given as segments: `""` for the virtual
/// top level, else `/seg/seg`.
pub open spec fn parent_path(album: Seq<Seq<char>>) -> Seq<char> {
    if album.len() == 0 {
        Seq::empty()
    } else {
        seq!['/'] + joined(album)
    }
}

/// The display path of `album`, the parent of the sub-albums listed for it.
pub fn subalbum_parent(album: &Vec<String>) -> (r: String)
    ensures
        r@ == parent_path(views(album@)),
{
    if album.len() == 0 {
        String::new()
    } else {
        let r = slash_joined(album.as_slice(), 0);
        assert(views(album@).skip(0) =~= views(album@));
        r
    }
}

/// One row of the sub-album listing.
pub struct SubalbumRow {
    pub bucket: String,
    pub image_id: Option<i64>,
    pub image_name: Option<String>,
    pub category: Option<i64>,
    pub count: i64,
}

/// Turn one listing row into a sub-album: its path is the parent's path, `/`
/// and the bucket; the cover is present when the row names an item, and is a
/// video when its category is 2; a negative count reads as zero.
pub fn subalbum_from_row(parent: &str, row: SubalbumRow) -> (s: SubAlbum)
    ensures
        s.name == row.bucket,
        s.path@ == parent@ + seq!['/'] + row.bucket@,
        s.photo_count == if row.count > 0 {
            row.count as u64
        } else {
            0
        },
        match (row.image_id, row.image_name) {
            (Some(id), Some(name)) => s.cover matches Some(c) && c.id == id as u64 && c.name == name
                && c.is_video == (row.category == Some(2i64)),
            _ => s.cover is None,
        },
{
    let cover = match (row.image_id, row.image_name) {
        (Some(id), Some(name)) => Some(
            Cover {
                id: id as u64,
                name,
                is_video: match row.category {
                    Some(c) => c == 2,
                    None => false,
                },
            },
        ),
        _ => None,
    };
    let mut path = crate::text::owned(parent);
    push_char(&mut path, '/');
    push_str(&mut path, row.bucket.as_str());
    SubAlbum {
        path,
        name: row.bucket,
        photo_count: if row.count > 0 {
            row.count as u64
        } else {
            0
        },
        cover,
    }
}


/// Splitting `s`, a `/`, then slash-free `t` gives the pieces of `s` and then `t`.
proof fn lemma_split_append_piece(s: Seq<char>, t: Seq<char>)
    requires
        forall|k: int| 0 <= k < t.len() ==> t[k] != '/',
    ensures
        split_on(s + seq!['/'] + t, '/') == split_on(s, '/').push(t),
    decreases t.len(),
{
    if t.len() == 0 {
        assert(t =~= Seq::<char>::empty());
        assert(s + seq!['/'] + t =~= s.push('/'));
        assert(s.push('/').drop_last() =~= s);
    } else {
        let u = t.drop_last();
        assert forall|k: int| 0 <= k < u.len() implies u[k] != '/' by {
            assert(u[k] == t[k]);
        }
        lemma_split_append_piece(s, u);
        assert((s + seq!['/'] + t).drop_last() =~= s + seq!['/'] + u);
        assert((s + seq!['/'] + t).last() == t.last());
        assert(u.push(t.last()) =~= t);
        crate::text::lemma_split_on_len(s, '/');
        assert(split_on(s, '/').push(u).update(split_on(s, '/').len() as int, t) =~= split_on(
            s,
            '/',
        ).push(t));
    }
}

/// Whether `segs` are valid album segments: non-empty and free of `/`.
pub open spec fn valid_segments(segs: Seq<Seq<char>>) -> bool {
    forall|i: int|
        0 <= i < segs.len() ==> (#[trigger] segs[i]).len() > 0 && forall|k: int|
            0 <= k < segs[i].len() ==> segs[i][k] != '/'
}

/// Law: the display path of an album splits back into its segments.
pub proof fn lemma_segments_of_parent_path(segs: Seq<Seq<char>>)
    requires
        valid_segments(segs),
    ensures
        segments(parent_path(segs)) == segs,
    decreases segs.len(),
{
    if segs.len() == 0 {
        assert(parent_path(segs) =~= Seq::<char>::empty());
        assert(split_on(Seq::<char>::empty(), '/') =~= seq![Seq::<char>::empty()]);
        assert(nonempty_pieces(seq![Seq::<char>::empty()]).len() == 0) by {
            assert(seq![Seq::<char>::empty()].drop_last() =~= Seq::<Seq<char>>::empty());
            assert(nonempty_pieces(Seq::<Seq<char>>::empty()) == Seq::<Seq<char>>::empty());
        }
        assert(segments(parent_path(segs)) =~= segs);
    } else {
        let init = segs.drop_last();
        assert(valid_segments(init)) by {
            assert forall|i: int| 0 <= i < init.len() implies (#[trigger] init[i]).len() > 0
                && forall|k: int| 0 <= k < init[i].len() ==> init[i][k] != '/' by {
                assert(init[i] == segs[i]);
            }
        }
        lemma_segments_of_parent_path(init);
        let last = segs.last();
        assert(last == segs[segs.len() - 1]);
        let front = if init.len() == 0 {
            Seq::<char>::empty()
        } else {
            parent_path(init)
        };
        if init.len() == 0 {
            assert(parent_path(segs) =~= Seq::<char>::empty() + seq!['/'] + last);
        } else {
            assert(joined(segs) == joined(init) + seq!['/'] + last);
            assert(parent_path(segs) =~= parent_path(init) + seq!['/'] + last);
        }
        assert(parent_path(segs) =~= front + seq!['/'] + last);
        lemma_split_append_piece(front, last);
        let ps = split_on(front, '/');
        assert(ps.push(last).drop_last() =~= ps);
        if init.len() == 0 {
            assert(split_on(Seq::<char>::empty(), '/') =~= seq![Seq::<char>::empty()]);
            assert(nonempty_pieces(seq![Seq::<char>::empty()]).len() == 0) by {
                assert(seq![Seq::<char>::empty()].drop_last() =~= Seq::<Seq<char>>::empty());
                assert(nonempty_pieces(Seq::<Seq<char>>::empty()) == Seq::<Seq<char>>::empty());
            }
            assert(nonempty_pieces(ps) =~= init);
        }
        assert(segments(parent_path(segs)) =~= init.push(last));
        assert(init.push(last) =~= segs);
    }
}

/// Law: the path of a listed sub-album (its parent's display path, `/`, its
/// name) splits into the parent's segments followed by the name, so a
/// request for that path names the sub-album again.
pub proof fn lemma_subalbum_path_segments(album: Seq<Seq<char>>, name: Seq<char>)
    requires
        valid_segments(album.push(name)),
    ensures
        segments(parent_path(album) + seq!['/'] + name) == album.push(name),
{
    let segs = album.push(name);
    assert(segs.drop_last() =~= album);
    assert(segs.last() == name);
    if album.len() == 0 {
        assert(joined(segs) == name);
        assert(parent_path(album) + seq!['/'] + name =~= parent_path(segs));
    } else {
        assert(joined(segs) == joined(album) + seq!['/'] + name);
        assert(parent_path(album) + seq!['/'] + name =~= parent_path(segs));
    }
    lemma_segments_of_parent_path(segs);
}

/// No piece of a split holds the separator.
proof fn lemma_split_pieces_free(s: Seq<char>, sep: char)
    ensures
        forall|i: int, k: int|
            0 <= i < split_on(s, sep).len() && 0 <= k < split_on(s, sep)[i].len() ==> #[trigger] split_on(
                s,
                sep,
            )[i][k] != sep,
    decreases s.len(),
{
    if s.len() > 0 {
        lemma_split_pieces_free(s.drop_last(), sep);
        lemma_split_on_len(s.drop_last(), sep);
        let init = split_on(s.drop_last(), sep);
        let ps = split_on(s, sep);
        assert forall|i: int, k: int| 0 <= i < ps.len() && 0 <= k < ps[i].len() implies #[trigger] ps[i][k]
            != sep by {
            if s.last() == sep {
                if i < init.len() {
                    assert(ps[i] == init[i]);
                }
            } else {
                if i == init.len() - 1 {
                    let p = init.last().push(s.last());
                    assert(ps[i] == p);
                    if k < init.last().len() {
                        assert(p[k] == init[init.len() - 1][k]);
                    }
                } else {
                    assert(ps[i] == init[i]);
                }
            }
        }
    }
}

/// The non-empty pieces of pieces free of `/` are valid album segments.
proof fn lemma_nonempty_pieces_valid(ps: Seq<Seq<char>>)
    requires
        forall|i: int, k: int| 0 <= i < ps.len() && 0 <= k < ps[i].len() ==> #[trigger] ps[i][k] != '/',
    ensures
        valid_segments(nonempty_pieces(ps)),
    decreases ps.len(),
{
    if ps.len() > 0 {
        let init = ps.drop_last();
        assert forall|i: int, k: int| 0 <= i < init.len() && 0 <= k < init[i].len() implies #[trigger] init[i][k]
            != '/' by {
            assert(init[i] == ps[i]);
        }
        lemma_nonempty_pieces_valid(init);
        let np = nonempty_pieces(init);
        if ps.last().len() > 0 {
            let all = np.push(ps.last());
            assert forall|i: int| 0 <= i < all.len() implies (#[trigger] all[i]).len() > 0 && forall|k: int|
                0 <= k < all[i].len() ==> all[i][k] != '/' by {
                if i < np.len() {
                    assert(all[i] == np[i]);
                } else {
                    assert(all[i] == ps[ps.len() - 1]);
                    assert forall|k: int| 0 <= k < all[i].len() implies all[i][k] != '/' by {
                        assert(ps[ps.len() - 1][k] != '/');
                    }
                }
            }
        }
    }
}

/// Law: the segments of a path are non-empty and free of `/`, and the path
/// rebuilt from them (`/` and the segments joined by `/`) splits back into
/// the same segments.
pub proof fn lemma_segments_round_trip(path: Seq<char>)
    ensures
        valid_segments(segments(path)),
        segments(seq!['/'] + joined(segments(path))) == segments(path),
{
    lemma_split_pieces_free(path, '/');
    lemma_nonempty_pieces_valid(split_on(path, '/'));
    let s = segments(path);
    if s.len() == 0 {
        assert(seq!['/'] + joined(s) =~= seq!['/']);
        let one = seq!['/'];
        assert(one.drop_last() =~= Seq::<char>::empty());
        assert(split_on(Seq::<char>::empty(), '/') =~= seq![Seq::<char>::empty()]);
        assert(split_on(one, '/') =~= seq![Seq::<char>::empty(), Seq::<char>::empty()]);
        let ps = seq![Seq::<char>::empty(), Seq::<char>::empty()];
        assert(ps.drop_last() =~= seq![Seq::<char>::empty()]);
        assert(seq![Seq::<char>::empty()].drop_last() =~= Seq::<Seq<char>>::empty());
        assert(nonempty_pieces(Seq::<Seq<char>>::empty()) == Seq::<Seq<char>>::empty());
        assert(nonempty_pieces(seq![Seq::<char>::empty()]) == Seq::<Seq<char>>::empty());
        assert(nonempty_pieces(ps) == Seq::<Seq<char>>::empty());
        assert(segments(one) =~= s);
    } else {
        assert(seq!['/'] + joined(s) == parent_path(s));
        lemma_segments_of_parent_path(s);
    }
}

/// Joined segments begin with the first character of the first segment.
proof fn lemma_joined_first(segs: Seq<Seq<char>>)
    requires
        segs.len() > 0,
        segs[0].len() > 0,
    ensures
        joined(segs).len() > 0,
        joined(segs)[0] == segs[0][0],
    decreases segs.len(),
{
    if segs.len() > 1 {
        let init = segs.drop_last();
        assert(init[0] == segs[0]);
        lemma_joined_first(init);
        assert((joined(init) + seq!['/'] + segs.last())[0] == joined(init)[0]);
    }
}

/// Joining a segment in front of others puts it and a `/` before their join.
proof fn lemma_joined_cons(label: Seq<char>, segs: Seq<Seq<char>>)
    requires
        segs.len() > 0,
    ensures
        joined(seq![label] + segs) == label + seq!['/'] + joined(segs),
    decreases segs.len(),
{
    let all = seq![label] + segs;
    assert(all.last() == segs.last());
    if segs.len() == 1 {
        assert(all.drop_last() =~= seq![label]);
        assert(joined(seq![label]) == label);
        assert(joined(segs) == segs[0]);
        assert(joined(all) =~= label + seq!['/'] + joined(segs));
    } else {
        assert(all.drop_last() =~= seq![label] + segs.drop_last());
        lemma_joined_cons(label, segs.drop_last());
        assert(joined(all) =~= label + seq!['/'] + joined(segs));
    }
}

/// The relative path of an album below a root: `/` and the segments joined
/// by `/` (just `/` for the root album).
pub open spec fn rel_path_of(segs: Seq<Seq<char>>) -> Seq<char> {
    seq!['/'] + joined(segs)
}

/// Law: the display path of an album (root label `label`, relative path
/// `/seg/seg` or `/`) splits into segments that give back the root label and
/// the relative path (`None` for the root album).
pub proof fn lemma_display_path_round_trip(label: Seq<char>, segs: Seq<Seq<char>>)
    requires
        valid_segments(seq![label] + segs),
    ensures
        root_and_rel(segments(display_path(label, rel_path_of(segs)))) == Some(
            (
                label,
                if segs.len() == 0 {
                    None
                } else {
                    Some(rel_path_of(segs))
                },
            ),
        ),
{
    let all = seq![label] + segs;
    assert(all[0] == label);
    assert(all.skip(1) =~= segs);
    assert(joined(seq![label]) == label);
    let rel = rel_path_of(segs);
    if segs.len() == 0 {
        assert(rel =~= seq!['/']);
        assert(rel.drop_first() =~= Seq::<char>::empty());
        assert(drop_leading(rel, '/') == drop_leading(Seq::<char>::empty(), '/'));
        assert(drop_leading(rel, '/').len() == 0);
        assert(all =~= seq![label]);
        assert(display_path(label, rel) =~= parent_path(all));
    } else {
        assert(segs[0] == all[1]);
        lemma_joined_first(segs);
        assert(rel.drop_first() =~= joined(segs));
        assert(drop_leading(joined(segs), '/') == joined(segs));
        assert(drop_leading(rel, '/') == joined(segs));
        lemma_joined_cons(label, segs);
        assert(display_path(label, rel) =~= parent_path(all));
    }
    lemma_segments_of_parent_path(all);
}

/// Whether the text `t` occurs in `s`.
pub open spec fn occurs_in(t: Seq<char>, s: Seq<char>) -> bool {
    exists|i: int| 0 <= i && i + t.len() <= s.len() && #[trigger] s.subrange(i, i + t.len()) == t
}

/// Whether `s` ends with the text `t`.
pub open spec fn ends_with_text(s: Seq<char>, t: Seq<char>) -> bool {
    t.len() <= s.len() && s.subrange(s.len() - t.len(), s.len() - 0) == t
}

proof fn lemma_occurs_mid(x: Seq<char>, t: Seq<char>, y: Seq<char>)
    ensures
        occurs_in(t, x + t + y),
{
    assert((x + t + y).subrange(x.len() - 0, (x.len() + t.len()) as int) =~= t);
}

proof fn lemma_occurs_wider(t: Seq<char>, s: Seq<char>, x: Seq<char>, y: Seq<char>)
    requires
        occurs_in(t, s),
    ensures
        occurs_in(t, x + s + y),
{
    let i = choose|i: int| 0 <= i && i + t.len() <= s.len() && #[trigger] s.subrange(i, i + t.len()) == t;
    assert((x + s + y).subrange(x.len() + i, x.len() + i + t.len()) =~= s.subrange(i, i + t.len()));
}

proof fn lemma_ends_with(x: Seq<char>, t: Seq<char>)
    ensures
        ends_with_text(x + t, t),
{
    assert((x + t).subrange(x.len() - 0, (x + t).len() - 0) =~= t);
}

/// Law: the tag-filter conditions hold the condition of every token, so an
/// item must match each of them (none is dropped).
pub proof fn lemma_tags_sql_every_token(tokens: Seq<Seq<char>>)
    ensures
        forall|i: int| 0 <= i < tokens.len() ==> occurs_in(#[trigger] token_sql(tokens[i]), tags_sql(tokens)),
    decreases tokens.len(),
{
    if tokens.len() > 0 {
        let init = tokens.drop_last();
        lemma_tags_sql_every_token(init);
        let last = token_sql(tokens.last());
        assert forall|i: int| 0 <= i < tokens.len() implies occurs_in(#[trigger] token_sql(tokens[i]), tags_sql(tokens)) by {
            if i < init.len() {
                assert(tokens[i] == init[i]);
                assert(occurs_in(token_sql(init[i]), tags_sql(init)));
                lemma_occurs_wider(token_sql(init[i]), tags_sql(init), Seq::empty(), last);
                assert(Seq::<char>::empty() + tags_sql(init) + last =~= tags_sql(tokens));
            } else {
                lemma_occurs_mid(tags_sql(init), last, Seq::empty());
                assert(tags_sql(init) + last + Seq::<char>::empty() =~= tags_sql(tokens));
            }
        }
    }
}

/// Law: the photo filter holds the condition of every tag-filter token.
pub proof fn lemma_filter_every_token(album: Seq<Seq<char>>, recursive: bool, f: Filters)
    ensures
        forall|i: int|
            0 <= i < f.tags@.len() ==> occurs_in(
                #[trigger] token_sql(views(f.tags@)[i]),
                filter_sql(album, recursive, f).0,
            ),
{
    let tokens = views(f.tags@);
    lemma_tags_sql_every_token(tokens);
    let scope = album_scope(album, recursive);
    let from = " FROM Images i JOIN Albums a ON a.id = i.album JOIN AlbumRoots r ON r.id = a.albumRoot LEFT JOIN ImageInformation ii ON ii.imageid = i.id WHERE i.status = 1"@;
    let rating = if f.min_rating.value() > 0 {
        " AND max(ifnull(ii.rating, 0), 0) >= ?"@
    } else {
        Seq::empty()
    };
    let rest = rating + media_sql(f.include_images, f.include_video) + aspect_sql(f.aspect);
    assert(filter_sql(album, recursive, f).0 =~= (from + scope.0) + tags_sql(tokens) + rest);
    assert forall|i: int| 0 <= i < f.tags@.len() implies occurs_in(
        #[trigger] token_sql(views(f.tags@)[i]),
        filter_sql(album, recursive, f).0,
    ) by {
        assert(occurs_in(token_sql(tokens[i]), tags_sql(tokens)));
        lemma_occurs_wider(token_sql(tokens[i]), tags_sql(tokens), from + scope.0, rest);
    }
}

/// Law: outside the name sort, each sub-album's cover is its newest item:
/// the items of a bucket are ranked by date, newest first (ties: highest id).
pub proof fn lemma_subalbum_cover_newest(album: Seq<Seq<char>>, f: Filters, root_id: i64)
    requires
        f.sort != Sort::Name,
    ensures
        occurs_in(
            "ROW_NUMBER() OVER (PARTITION BY bucket ORDER BY cdate DESC, image_id DESC) AS rn"@,
            subalbum_listing(album, f, root_id).0,
        ),
{
    let m = match root_and_rel(album) {
        None => top_matched_sql(f),
        Some(_) => sub_matched_sql(f),
    };
    assert(subalbum_listing(album, f, root_id).0 == subalbums_sql(m, f.sort));
    reveal_strlit("WITH matched AS ( ");
    reveal_strlit(" ), counts AS ( SELECT bucket, COUNT(*) AS cnt, max(cdate) AS recent FROM matched GROUP BY bucket ), covers AS ( SELECT bucket, image_id, image_name, category, ROW_NUMBER() OVER (PARTITION BY bucket ORDER BY ");
    reveal_strlit(") AS rn FROM matched ) SELECT c.bucket, cv.image_id, cv.image_name, cv.category, c.cnt FROM counts c LEFT JOIN covers cv ON cv.bucket = c.bucket AND cv.rn = 1 ORDER BY ");
    reveal_strlit("cdate DESC, image_id DESC");
    reveal_strlit("ROW_NUMBER() OVER (PARTITION BY bucket ORDER BY cdate DESC, image_id DESC) AS rn");
    let b = " ), counts AS ( SELECT bucket, COUNT(*) AS cnt, max(cdate) AS recent FROM matched GROUP BY bucket ), covers AS ( SELECT bucket, image_id, image_name, category, ROW_NUMBER() OVER (PARTITION BY bucket ORDER BY "@;
    let c = ") AS rn FROM matched ) SELECT c.bucket, cv.image_id, cv.image_name, cv.category, c.cnt FROM counts c LEFT JOIN covers cv ON cv.bucket = c.bucket AND cv.rn = 1 ORDER BY "@;
    let t = "ROW_NUMBER() OVER (PARTITION BY bucket ORDER BY cdate DESC, image_id DESC) AS rn"@;
    assert(cover_rank_sql(f.sort) == "cdate DESC, image_id DESC"@);
    assert(t =~= b.subrange(160, 208) + "cdate DESC, image_id DESC"@ + c.subrange(0, 7));
    let x = "WITH matched AS ( "@ + m + b.subrange(0, 160);
    let y = c.subrange(7, 168) + bucket_order_sql(f.sort);
    assert(subalbums_sql(m, f.sort) =~= x + t + y);
    lemma_occurs_mid(x, t, y);
}

/// Law: under the name sort, each sub-album's cover is its first item in
/// natural name order (ties: lowest id).
pub proof fn lemma_subalbum_cover_by_name(album: Seq<Seq<char>>, f: Filters, root_id: i64)
    requires
        f.sort == Sort::Name,
    ensures
        occurs_in(
            "ROW_NUMBER() OVER (PARTITION BY bucket ORDER BY image_name COLLATE NATSORT, image_id) AS rn"@,
            subalbum_listing(album, f, root_id).0,
        ),
{
    let m = match root_and_rel(album) {
        None => top_matched_sql(f),
        Some(_) => sub_matched_sql(f),
    };
    assert(subalbum_listing(album, f, root_id).0 == subalbums_sql(m, f.sort));
    reveal_strlit("WITH matched AS ( ");
    reveal_strlit(" ), counts AS ( SELECT bucket, COUNT(*) AS cnt, max(cdate) AS recent FROM matched GROUP BY bucket ), covers AS ( SELECT bucket, image_id, image_name, category, ROW_NUMBER() OVER (PARTITION BY bucket ORDER BY ");
    reveal_strlit(") AS rn FROM matched ) SELECT c.bucket, cv.image_id, cv.image_name, cv.category, c.cnt FROM counts c LEFT JOIN covers cv ON cv.bucket = c.bucket AND cv.rn = 1 ORDER BY ");
    reveal_strlit("image_name COLLATE NATSORT, image_id");
    reveal_strlit("ROW_NUMBER() OVER (PARTITION BY bucket ORDER BY image_name COLLATE NATSORT, image_id) AS rn");
    let b = " ), counts AS ( SELECT bucket, COUNT(*) AS cnt, max(cdate) AS recent FROM matched GROUP BY bucket ), covers AS ( SELECT bucket, image_id, image_name, category, ROW_NUMBER() OVER (PARTITION BY bucket ORDER BY "@;
    let c = ") AS rn FROM matched ) SELECT c.bucket, cv.image_id, cv.image_name, cv.category, c.cnt FROM counts c LEFT JOIN covers cv ON cv.bucket = c.bucket AND cv.rn = 1 ORDER BY "@;
    let t = "ROW_NUMBER() OVER (PARTITION BY bucket ORDER BY image_name COLLATE NATSORT, image_id) AS rn"@;
    assert(cover_rank_sql(f.sort) == "image_name COLLATE NATSORT, image_id"@);
    assert(t =~= b.subrange(160, 208) + "image_name COLLATE NATSORT, image_id"@ + c.subrange(0, 7));
    let x = "WITH matched AS ( "@ + m + b.subrange(0, 160);
    let y = c.subrange(7, 168) + bucket_order_sql(f.sort);
    assert(subalbums_sql(m, f.sort) =~= x + t + y);
    lemma_occurs_mid(x, t, y);
}

/// Law: outside the name sort, the sub-albums come most recent first (ties
/// by name, ignoring case); under the name sort, in natural name order.
pub proof fn lemma_subalbum_order(album: Seq<Seq<char>>, f: Filters, root_id: i64)
    ensures
        f.sort != Sort::Name ==> ends_with_text(
            subalbum_listing(album, f, root_id).0,
            " ORDER BY c.recent DESC, c.bucket COLLATE NOCASE"@,
        ),
        f.sort == Sort::Name ==> ends_with_text(
            subalbum_listing(album, f, root_id).0,
            " ORDER BY c.bucket COLLATE NATSORT"@,
        ),
{
    let m = match root_and_rel(album) {
        None => top_matched_sql(f),
        Some(_) => sub_matched_sql(f),
    };
    assert(subalbum_listing(album, f, root_id).0 == subalbums_sql(m, f.sort));
    reveal_strlit(") AS rn FROM matched ) SELECT c.bucket, cv.image_id, cv.image_name, cv.category, c.cnt FROM counts c LEFT JOIN covers cv ON cv.bucket = c.bucket AND cv.rn = 1 ORDER BY ");
    reveal_strlit("c.recent DESC, c.bucket COLLATE NOCASE");
    reveal_strlit("c.bucket COLLATE NATSORT");
    reveal_strlit(" ORDER BY c.recent DESC, c.bucket COLLATE NOCASE");
    reveal_strlit(" ORDER BY c.bucket COLLATE NATSORT");
    let c = ") AS rn FROM matched ) SELECT c.bucket, cv.image_id, cv.image_name, cv.category, c.cnt FROM counts c LEFT JOIN covers cv ON cv.bucket = c.bucket AND cv.rn = 1 ORDER BY "@;
    let t = if f.sort == Sort::Name {
        " ORDER BY c.bucket COLLATE NATSORT"@
    } else {
        " ORDER BY c.recent DESC, c.bucket COLLATE NOCASE"@
    };
    assert(t =~= c.subrange(158, 168) + bucket_order_sql(f.sort));
    let x = "WITH matched AS ( "@ + m + " ), counts AS ( SELECT bucket, COUNT(*) AS cnt, max(cdate) AS recent FROM matched GROUP BY bucket ), covers AS ( SELECT bucket, image_id, image_name, category, ROW_NUMBER() OVER (PARTITION BY bucket ORDER BY "@ + cover_rank_sql(f.sort) + c.subrange(0, 158);
    assert(subalbums_sql(m, f.sort) =~= x + t);
    lemma_ends_with(x, t);
}

/// The date an item's recency is taken from under a sort: its creation
/// date under the creation sort, else its modification date.
pub open spec fn sort_date(s: Sort) -> Seq<char> {
    if s == Sort::Created {
        "ii.creationDate AS cdate"@
    } else {
        "i.modificationDate AS cdate"@
    }
}

/// Law: the recency of a sub-album and the choice of its cover go by the
/// creation date under the creation sort, and by the modification date
/// otherwise.
pub proof fn lemma_subalbum_date(album: Seq<Seq<char>>, f: Filters, root_id: i64)
    ensures
        occurs_in(sort_date(f.sort), subalbum_listing(album, f, root_id).0),
{
    reveal_strlit("ii.creationDate");
    reveal_strlit("i.modificationDate");
    reveal_strlit("ii.creationDate AS cdate");
    reveal_strlit("i.modificationDate AS cdate");
    reveal_strlit(" AS cdate, r.label AS bucket FROM Images i JOIN Albums a ON a.id = i.album JOIN AlbumRoots r ON r.id = a.albumRoot LEFT JOIN ImageInformation ii ON ii.imageid = i.id WHERE i.status = 1 AND max(ifnull(ii.rating, 0), 0) >= :min");
    reveal_strlit(" AS cdate, substr(a.relativePath, length(:prefix) + 1) AS rest FROM Images i JOIN Albums a ON a.id = i.album LEFT JOIN ImageInformation ii ON ii.imageid = i.id WHERE i.status = 1 AND a.albumRoot = :root AND a.relativePath LIKE :like ESCAPE '\\' AND length(a.relativePath) > length(:prefix) AND max(ifnull(ii.rating, 0), 0) >= :min");
    let t = sort_date(f.sort);
    let m = match root_and_rel(album) {
        None => top_matched_sql(f),
        Some(_) => sub_matched_sql(f),
    };
    assert(subalbum_listing(album, f, root_id).0 == subalbums_sql(m, f.sort));
    match root_and_rel(album) {
        None => {
            let l2 = " AS cdate, r.label AS bucket FROM Images i JOIN Albums a ON a.id = i.album JOIN AlbumRoots r ON r.id = a.albumRoot LEFT JOIN ImageInformation ii ON ii.imageid = i.id WHERE i.status = 1 AND max(ifnull(ii.rating, 0), 0) >= :min"@;
            assert(t =~= cover_date_sql(f.sort) + l2.subrange(0, 9));
            let x = "SELECT i.id AS image_id, i.name AS image_name, i.category AS category, "@;
            let y = l2.subrange(9, l2.len() as int) + subalbum_filter_sql(f);
            assert(m =~= x + t + y);
            lemma_occurs_mid(x, t, y);
        },
        Some(_) => {
            let l2 = " AS cdate, substr(a.relativePath, length(:prefix) + 1) AS rest FROM Images i JOIN Albums a ON a.id = i.album LEFT JOIN ImageInformation ii ON ii.imageid = i.id WHERE i.status = 1 AND a.albumRoot = :root AND a.relativePath LIKE :like ESCAPE '\\' AND length(a.relativePath) > length(:prefix) AND max(ifnull(ii.rating, 0), 0) >= :min"@;
            assert(t =~= cover_date_sql(f.sort) + l2.subrange(0, 9));
            let x = "SELECT image_id, image_name, category, cdate, CASE WHEN instr(rest, '/') > 0 THEN substr(rest, 1, instr(rest, '/') - 1) ELSE rest END AS bucket FROM ( SELECT i.id AS image_id, i.name AS image_name, i.category AS category, "@;
            let y = l2.subrange(9, l2.len() as int) + subalbum_filter_sql(f) + " )"@;
            assert(m =~= x + t + y);
            lemma_occurs_mid(x, t, y);
        },
    }
    let rest = subalbums_sql(m, f.sort).skip(("WITH matched AS ( "@.len() + m.len()) as int);
    assert(subalbums_sql(m, f.sort) =~= "WITH matched AS ( "@ + m + rest);
    lemma_occurs_wider(t, m, "WITH matched AS ( "@, rest);
}

/// The `ORDER BY` and paging of the photo listing under a sort: newest first
/// by modification date (the default) or by creation date (ties: highest id
/// first), or natural name order (ties: lowest id first).
pub open spec fn listing_order(s: Sort) -> Seq<char> {
    if s == Sort::Created {
        " ORDER BY ii.creationDate DESC, i.id DESC LIMIT ? OFFSET ?"@
    } else if s == Sort::Name {
        " ORDER BY i.name COLLATE NATSORT, i.id LIMIT ? OFFSET ?"@
    } else {
        " ORDER BY i.modificationDate DESC, i.id DESC LIMIT ? OFFSET ?"@
    }
}

/// Law: the photo listing orders and pages by its sort (see `listing_order`).
pub proof fn lemma_photos_order(q: PhotoQuery)
    ensures
        ends_with_text(photos_sql(q).0, listing_order(q.filters.sort)),
{
    reveal_strlit(" ORDER BY ");
    reveal_strlit(" LIMIT ? OFFSET ?");
    reveal_strlit("i.modificationDate DESC, i.id DESC");
    reveal_strlit("ii.creationDate DESC, i.id DESC");
    reveal_strlit("i.name COLLATE NATSORT, i.id");
    reveal_strlit(" ORDER BY ii.creationDate DESC, i.id DESC LIMIT ? OFFSET ?");
    reveal_strlit(" ORDER BY i.name COLLATE NATSORT, i.id LIMIT ? OFFSET ?");
    reveal_strlit(" ORDER BY i.modificationDate DESC, i.id DESC LIMIT ? OFFSET ?");
    let t = listing_order(q.filters.sort);
    assert(t =~= " ORDER BY "@ + photo_order_sql(q.filters.sort) + " LIMIT ? OFFSET ?"@);
    let f = filter_sql(views(q.album@), q.recursive, q.filters);
    let x = "SELECT i.id, i.name, a.albumRoot, a.relativePath, i.fileSize, ii.format, ii.width, ii.height, ii.rating, i.modificationDate, i.category, ii.creationDate"@ + f.0;
    assert(photos_sql(q).0 =~= x + t);
    lemma_ends_with(x, t);
}

/// Law: the `LIKE` escape works character by character: escaping a text is
/// escaping its parts one after the other, a `%`, `_` or `\` gains a
/// backslash in front, and any other character stays as it is.
pub proof fn lemma_like_escaped_chars(s: Seq<char>, t: Seq<char>, c: char)
    ensures
        like_escaped(s + t) == like_escaped(s) + like_escaped(t),
        like_escaped(seq![c]) == if c == '%' || c == '_' || c == '\\' {
            seq!['\\', c]
        } else {
            seq![c]
        },
    decreases t.len(),
{
    assert(seq![c].drop_last() =~= Seq::<char>::empty());
    assert(like_escaped(Seq::<char>::empty()) == Seq::<char>::empty());
    if t.len() == 0 {
        assert(s + t =~= s);
        assert(like_escaped(s) + like_escaped(t) =~= like_escaped(s));
    } else {
        lemma_like_escaped_chars(s, t.drop_last(), c);
        assert((s + t).drop_last() =~= s + t.drop_last());
        assert((s + t).last() == t.last());
        assert(like_escaped(s + t) =~= like_escaped(s) + like_escaped(t));
    }
}

/// Law: quoting for an SQL string literal works character by character:
/// quoting a text is quoting its parts one after the other, a `'` is
/// doubled, and any other character stays as it is.
pub proof fn lemma_quotes_doubled_chars(s: Seq<char>, t: Seq<char>, c: char)
    ensures
        quotes_doubled(s + t) == quotes_doubled(s) + quotes_doubled(t),
        quotes_doubled(seq![c]) == if c == '\'' {
            seq!['\'', '\'']
        } else {
            seq![c]
        },
    decreases t.len(),
{
    assert(seq![c].drop_last() =~= Seq::<char>::empty());
    assert(quotes_doubled(Seq::<char>::empty()) == Seq::<char>::empty());
    if t.len() == 0 {
        assert(s + t =~= s);
        assert(quotes_doubled(s) + quotes_doubled(t) =~= quotes_doubled(s));
    } else {
        lemma_quotes_doubled_chars(s, t.drop_last(), c);
        assert((s + t).drop_last() =~= s + t.drop_last());
        assert((s + t).last() == t.last());
        assert(quotes_doubled(s + t) =~= quotes_doubled(s) + quotes_doubled(t));
    }
}

} // verus!
