use std::cmp::Ordering::{Equal, Greater, Less};
use std::collections::HashMap;

use digikam_browse::filters::{Aspect, Filters, Rating, Sort};
use digikam_browse::handlers::{
    album_nodes, bookmark_conflict, bookmark_from_row, bookmark_insert_sql, bookmark_name,
    bookmark_to_row, cbir_id, cbir_outcome, change_log_path, check_engine, content_disposition,
    file_etag, fmt_rating, if_none_match_matches, locate_file, new_bookmark, parse_tags,
    photo_file_path, photo_not_found, photo_query, plan_patch, plan_move, check_move, move_failed,
    changes_nothing, unknown_album, random_location,
    random_query, root_not_found, strip_weak, subalbum_request, thumbnail_etag, thumbnail_key,
    upload_mime, yandex_failure, yandex_results_url, AlbumRow, ApiError, BookmarkRow,
    PhotoParams, ReverseSearchParams, SubalbumParams,
};
use digikam_browse::models::{Bookmark, CreateBookmark, PatchPhoto};
use digikam_browse::natural::natural_cmp;
use digikam_browse::paths::{
    album_root_from_row, parse_volume_path, root_id_by_label, roots_from_rows, AlbumRoot, RootRow,
};
use digikam_browse::query::{
    album_root_and_rel, album_segments, build_filter, finish_page, list_photos_sql, list_subalbums_sql, opt_u64, photo_summary,
    random_photo_sql, resolve_tag_filter, token_filter_sql, subalbum_from_row, subalbum_parent, PhotoQuery,
    PhotoRow, SqlValue, SubalbumRow, DEFAULT_LIMIT, MAX_LIMIT,
};
use digikam_browse::tags::{tag_tree, TagRow, INTERNAL_TAG_ROOT};
use digikam_browse::web::{
    asset_revalidation, build_etag_id, content_etag_id, fnv1a, revalidate, webpgf_build_id,
};

const FROM: &str = " FROM Images i JOIN Albums a ON a.id = i.album JOIN AlbumRoots r ON r.id = a.albumRoot LEFT JOIN ImageInformation ii ON ii.imageid = i.id WHERE i.status = 1";

fn photos_root() -> HashMap<i64, AlbumRoot> {
    let mut roots = HashMap::new();
    roots.insert(
        1,
        AlbumRoot {
            label: "Photos".to_string(),
            base: "/home/eelco/Images/Photos".to_string(),
        },
    );
    roots
}

fn text(v: &SqlValue) -> &str {
    match v {
        SqlValue::Text(s) => s.as_str(),
        SqlValue::Integer(_) => panic!("expected a text value, got {v:?}"),
    }
}

fn integer(v: &SqlValue) -> i64 {
    match v {
        SqlValue::Integer(n) => *n,
        SqlValue::Text(_) => panic!("expected an integer value, got {v:?}"),
    }
}

fn query(album: &[&str], recursive: bool, filters: Filters) -> PhotoQuery {
    PhotoQuery {
        album: album.iter().map(|s| s.to_string()).collect(),
        recursive,
        filters,
        limit: 10,
        offset: 20,
    }
}

fn params(album: Option<&str>, tags: Option<&str>, limit: Option<u64>) -> PhotoParams {
    PhotoParams {
        album: album.map(str::to_string),
        tags: tags.map(str::to_string),
        recursive: true,
        min_rating: Rating::new(2).unwrap(),
        images: true,
        video: false,
        aspect: Aspect::Portrait,
        sort: Sort::Name,
        limit,
        offset: None,
    }
}

fn message(e: &ApiError) -> (&'static str, &str) {
    match e {
        ApiError::BadRequest(m) => ("bad request", m),
        ApiError::Forbidden(m) => ("forbidden", m),
        ApiError::NotFound(m) => ("not found", m),
        ApiError::Conflict(m) => ("conflict", m),
        ApiError::Unprocessable(m) => ("unprocessable", m),
        ApiError::BadGateway(m) => ("bad gateway", m),
        ApiError::Internal(m) => ("internal", m),
    }
}

// ---- natural order ----

#[test]
fn natural_order_is_antisymmetric() {
    let words = ["9_foo", "10_bar", "img2", "IMG2", "a-10", "file007", "file7", "", "x"];
    for a in words {
        for b in words {
            assert_eq!(natural_cmp(a, b), natural_cmp(b, a).reverse(), "{a} vs {b}");
        }
    }
}

#[test]
fn natural_order_equal_only_when_case_folded_equal() {
    assert_eq!(natural_cmp("Beach 12", "bEACH 12"), Equal);
    assert_ne!(natural_cmp("beach 12", "beach 012"), Equal);
    assert_eq!(natural_cmp("", ""), Equal);
    assert_eq!(natural_cmp("", "a"), Less);
    assert_eq!(natural_cmp("a", ""), Greater);
}

#[test]
fn natural_order_is_transitive_on_a_chain() {
    let chain = ["1", "2", "02", "10", "a1", "A2", "a10", "b"];
    for i in 0..chain.len() {
        for j in i + 1..chain.len() {
            assert_eq!(natural_cmp(chain[i], chain[j]), Less, "{} < {}", chain[i], chain[j]);
        }
    }
}

// ---- filters ----

#[test]
fn rating_range_is_enforced() {
    assert!(Rating::new(-1).is_none());
    assert!(Rating::new(6).is_none());
    assert_eq!(Rating::new(0).unwrap().get(), 0);
    assert_eq!(Rating::new(5).unwrap().get(), 5);
    assert_eq!(Rating::default().get(), 0);
}

#[test]
fn aspect_and_sort_texts_round_trip() {
    for a in [Aspect::All, Aspect::Portrait, Aspect::Landscape] {
        assert_eq!(Aspect::parse(a.as_str()), Some(a));
    }
    for s in [Sort::Modified, Sort::Created, Sort::Name] {
        assert_eq!(Sort::parse(s.as_str()), Some(s));
    }
    assert_eq!(Aspect::All.as_str(), "all");
    assert_eq!(Aspect::Portrait.as_str(), "portrait");
    assert_eq!(Sort::Created.as_str(), "created");
    assert_eq!(Aspect::parse("square"), None);
    assert_eq!(Sort::parse("Name"), None);
}

#[test]
fn default_filters_apply_nothing() {
    let f = Filters::default();
    assert!(!f.recursive);
    assert_eq!(f.min_rating.get(), 0);
    assert!(f.include_images && f.include_video);
    assert_eq!(f.aspect, Aspect::All);
    assert!(f.tags.is_empty());
    assert_eq!(f.sort, Sort::Modified);
}

// ---- queries ----

#[test]
fn filter_for_a_single_album() {
    let (sql, params) = build_filter(&query(&["Photos", "Lego"], false, Filters::default()));
    assert_eq!(sql, format!("{FROM} AND r.label = ? AND a.relativePath = ?"));
    assert_eq!(params.len(), 2);
    assert_eq!(text(&params[0]), "Photos");
    assert_eq!(text(&params[1]), "/Lego");
}

#[test]
fn filter_for_a_root_album() {
    let (sql, params) = build_filter(&query(&["Photos"], false, Filters::default()));
    assert_eq!(sql, format!("{FROM} AND r.label = ? AND a.relativePath = ?"));
    assert_eq!(text(&params[1]), "/");
    let (sql, params) = build_filter(&query(&["Photos"], true, Filters::default()));
    assert_eq!(sql, format!("{FROM} AND r.label = ?"));
    assert_eq!(params.len(), 1);
}

#[test]
fn filter_for_a_subtree_with_all_filters() {
    let filters = Filters {
        recursive: true,
        min_rating: Rating::new(3).unwrap(),
        include_images: false,
        include_video: true,
        aspect: Aspect::Landscape,
        tags: vec!["beach".to_string()],
        sort: Sort::Modified,
    };
    let (sql, params) = build_filter(&query(&["Photos", "a_b"], true, filters));
    let tag = " AND (EXISTS (SELECT 1 FROM ImageTags it WHERE it.imageid = i.id AND it.tagid IN (WITH base(id) AS (SELECT id FROM Tags WHERE name = 'beach') SELECT id FROM base UNION SELECT id FROM TagsTree WHERE pid IN (SELECT id FROM base))) OR a.relativePath LIKE '%/beach' ESCAPE '\\')";
    assert_eq!(
        sql,
        format!(
            "{FROM} AND r.label = ? AND (a.relativePath = ? OR a.relativePath LIKE ? ESCAPE '\\'){tag} AND max(ifnull(ii.rating, 0), 0) >= ? AND i.category = 2 AND ii.width >= ii.height"
        )
    );
    assert_eq!(params.len(), 4);
    assert_eq!(text(&params[1]), "/a_b");
    assert_eq!(text(&params[2]), "/a\\_b/%");
    assert_eq!(integer(&params[3]), 3);
}

#[test]
fn tag_tokens_resolve_by_path_or_name() {
    assert_eq!(
        resolve_tag_filter("/local/it's/"),
        "WITH RECURSIVE paths(id, path) AS ( SELECT id, '/' || name FROM Tags WHERE pid = 0 UNION ALL SELECT t.id, p.path || '/' || t.name FROM Tags t JOIN paths p ON t.pid = p.id ), base(id) AS (SELECT id FROM paths WHERE path = '/local/it''s') SELECT id FROM base UNION SELECT id FROM TagsTree WHERE pid IN (SELECT id FROM base)"
    );
    assert_eq!(
        resolve_tag_filter("o'hara"),
        "WITH base(id) AS (SELECT id FROM Tags WHERE name = 'o''hara') SELECT id FROM base UNION SELECT id FROM TagsTree WHERE pid IN (SELECT id FROM base)"
    );
}

#[test]
fn virtual_root_lists_no_photos() {
    let q = query(&[], false, Filters::default());
    assert!(list_photos_sql(&q).is_none());
    assert!(random_photo_sql(&q).is_none());
    let q = query(&[], true, Filters::default());
    let (sql, params) = list_photos_sql(&q).unwrap();
    assert_eq!(
        sql,
        format!("SELECT i.id, i.name, a.albumRoot, a.relativePath, i.fileSize, ii.format, ii.width, ii.height, ii.rating, i.modificationDate, i.category, ii.creationDate{FROM} ORDER BY i.modificationDate DESC, i.id DESC LIMIT ? OFFSET ?")
    );
    assert_eq!(params.len(), 2);
    assert_eq!(integer(&params[0]), 11);
    assert_eq!(integer(&params[1]), 20);
}

#[test]
fn listing_orders_by_the_sort() {
    let mut f = Filters::default();
    f.sort = Sort::Name;
    let (sql, _) = list_photos_sql(&query(&["Photos"], true, f)).unwrap();
    assert!(sql.ends_with(" ORDER BY i.name COLLATE NATSORT, i.id LIMIT ? OFFSET ?"));
    let mut f = Filters::default();
    f.sort = Sort::Created;
    let (sql, _) = list_photos_sql(&query(&["Photos"], true, f)).unwrap();
    assert!(sql.ends_with(" ORDER BY ii.creationDate DESC, i.id DESC LIMIT ? OFFSET ?"));
}

#[test]
fn unlimited_listing_keeps_no_limit() {
    let mut q = query(&["Photos"], true, Filters::default());
    q.limit = u64::MAX;
    let (_, params) = list_photos_sql(&q).unwrap();
    assert_eq!(integer(&params[params.len() - 2]), -1);
}

#[test]
fn random_pick_statement() {
    let (sql, params) = random_photo_sql(&query(&["Photos"], true, Filters::default())).unwrap();
    assert_eq!(sql, format!("SELECT i.id{FROM} AND r.label = ? ORDER BY random() LIMIT 1"));
    assert_eq!(params.len(), 1);
}

#[test]
fn pages_drop_the_probe_row() {
    let page = finish_page(vec![1, 2, 3], 2, 4);
    assert!(page.incomplete);
    assert_eq!(page.items, vec![1, 2]);
    assert_eq!((page.limit, page.offset), (2, 4));
    let page = finish_page(vec![1, 2], 2, 0);
    assert!(!page.incomplete);
    assert_eq!(page.items, vec![1, 2]);
}

#[test]
fn negative_columns_read_as_absent() {
    assert_eq!(opt_u64(Some(-1)), None);
    assert_eq!(opt_u64(Some(0)), Some(0));
    assert_eq!(opt_u64(None), None);
}

fn row(name: &str, album_root: i64) -> PhotoRow {
    PhotoRow {
        id: 7,
        name: name.to_string(),
        album_root,
        relative_path: "/Lego".to_string(),
        file_size: Some(1234),
        format: Some("JPG".to_string()),
        width: Some(-1),
        height: Some(600),
        rating: Some(-1),
        modification_date: Some("2024-01-01T00:00:00".to_string()),
        category: 1,
        creation_date: None,
    }
}

#[test]
fn photo_summaries_from_rows() {
    let roots = photos_root();
    let p = photo_summary(&roots, row("img001.jpg", 1));
    assert_eq!(p.id, 7);
    assert_eq!(p.album_path, "/Photos/Lego");
    assert_eq!(p.mime.as_deref(), Some("image/jpeg"));
    assert_eq!(p.width, None);
    assert_eq!(p.height, Some(600));
    assert_eq!(p.rating, None);
    assert!(!p.is_video);
    let mut r = row("clip.mp4", 9);
    r.category = 2;
    let p = photo_summary(&roots, r);
    assert_eq!(p.album_path, "/Lego");
    assert_eq!(p.mime.as_deref(), Some("video/mp4"));
    assert!(p.is_video);
    assert_eq!(photo_summary(&roots, row("notes.zzzunknown", 1)).mime, None);
}

#[test]
fn subalbums_of_the_virtual_root() {
    let roots = photos_root();
    let (sql, params) = list_subalbums_sql(&roots, &Vec::new(), &Filters::default()).unwrap();
    assert!(sql.starts_with("WITH matched AS ( SELECT i.id AS image_id"));
    assert!(sql.contains("r.label AS bucket"));
    assert_eq!(params.len(), 1);
    assert_eq!(params[0].0, ":min");
    assert_eq!(integer(&params[0].1), 0);
}

#[test]
fn subalbums_of_an_album() {
    let roots = photos_root();
    let album = vec!["Photos".to_string(), "Le_go".to_string()];
    let (sql, params) = list_subalbums_sql(&roots, &album, &Filters::default()).unwrap();
    assert!(sql.contains("a.albumRoot = :root"));
    let names: Vec<&str> = params.iter().map(|p| p.0).collect();
    assert_eq!(names, [":prefix", ":root", ":like", ":min"]);
    assert_eq!(text(&params[0].1), "/Le_go/");
    assert_eq!(integer(&params[1].1), 1);
    assert_eq!(text(&params[2].1), "/Le\\_go/%");
    let album = vec!["Photos".to_string()];
    let (_, params) = list_subalbums_sql(&roots, &album, &Filters::default()).unwrap();
    assert_eq!(text(&params[0].1), "/");
    assert_eq!(text(&params[2].1), "/%");
}

#[test]
fn subalbums_of_an_unknown_root() {
    let album = vec!["Nope".to_string()];
    assert!(list_subalbums_sql(&photos_root(), &album, &Filters::default()).is_none());
}

#[test]
fn subalbum_rows() {
    let album = vec!["Photos".to_string(), "Lego".to_string()];
    let parent = subalbum_parent(&album);
    assert_eq!(parent, "/Photos/Lego");
    assert_eq!(subalbum_parent(&Vec::new()), "");
    let s = subalbum_from_row(
        &parent,
        SubalbumRow {
            bucket: "Cars".to_string(),
            image_id: Some(5),
            image_name: Some("c.mov".to_string()),
            category: Some(2),
            count: 12,
        },
    );
    assert_eq!(s.name, "Cars");
    assert_eq!(s.path, "/Photos/Lego/Cars");
    assert_eq!(album_segments(&s.path), ["Photos", "Lego", "Cars"]);
    assert_eq!(album_segments(&parent), album);
    assert_eq!(s.photo_count, 12);
    let c = s.cover.unwrap();
    assert_eq!((c.id, c.name.as_str(), c.is_video), (5, "c.mov", true));
    let s = subalbum_from_row(
        "",
        SubalbumRow {
            bucket: "Photos".to_string(),
            image_id: None,
            image_name: None,
            category: None,
            count: 0,
        },
    );
    assert_eq!(s.path, "/Photos");
    assert!(s.cover.is_none());
}

// ---- tags ----

fn tag(id: i64, pid: i64, name: &str) -> TagRow {
    TagRow { id, pid, name: name.to_string() }
}

#[test]
fn tag_tree_nests_children_and_hides_internal_tags() {
    let rows = vec![
        tag(INTERNAL_TAG_ROOT, 0, "_Digikam_Internal_Tags_"),
        tag(2, 0, "places"),
        tag(3, 2, "beach"),
        tag(4, 3, "north"),
        tag(5, INTERNAL_TAG_ROOT, "Color Label Red"),
        tag(6, 0, "people"),
        tag(7, 2, "city"),
    ];
    let tree = tag_tree(&rows);
    assert_eq!(tree.len(), 2);
    assert_eq!((tree[0].id, tree[0].name.as_str()), (2, "places"));
    assert_eq!(tree[0].children.len(), 2);
    assert_eq!(tree[0].children[0].name, "beach");
    assert_eq!(tree[0].children[0].children[0].name, "north");
    assert!(tree[0].children[0].children[0].children.is_empty());
    assert_eq!(tree[0].children[1].name, "city");
    assert_eq!(tree[1].name, "people");
    assert!(tree[1].children.is_empty());
}

// ---- paths ----

#[test]
fn volume_paths_are_percent_decoded() {
    assert_eq!(
        parse_volume_path("volumeid:?path=/home/me/My%20Photos&fileuuid=1").as_deref(),
        Some("/home/me/My Photos")
    );
    assert_eq!(parse_volume_path("volumeid:?uuid=abc"), None);
}

#[test]
fn roots_resolve_from_rows() {
    let rows = vec![
        RootRow {
            id: 1,
            label: Some("Photos".to_string()),
            identifier: Some("volumeid:?path=/home/eelco/Images&fileuuid=1".to_string()),
            specific_path: Some("/Photos".to_string()),
        },
        RootRow {
            id: 2,
            label: None,
            identifier: Some("networkshareid:?mountpath=/data/Video".to_string()),
            specific_path: None,
        },
        RootRow { id: 3, label: Some("Lost".to_string()), identifier: None, specific_path: None },
    ];
    let first = album_root_from_row(&rows[0]).unwrap();
    assert_eq!(first.base, "/home/eelco/Images/Photos");
    let roots = roots_from_rows(&rows);
    assert_eq!(roots.len(), 2);
    assert_eq!(roots[&1].label, "Photos");
    assert_eq!(roots[&2].label, "root2");
    assert_eq!(roots[&2].base, "/data/Video");
    assert_eq!(root_id_by_label(&roots, "Photos"), Some(1));
    assert_eq!(root_id_by_label(&roots, "Lost"), None);
}

// ---- requests ----

#[test]
fn tag_parameter_tokens() {
    assert_eq!(parse_tags(Some(" beach , ,/places/north/ ,")), ["beach", "/places/north/"]);
    assert!(parse_tags(Some("")).is_empty());
    assert!(parse_tags(None).is_empty());
}

#[test]
fn photo_requests_default_and_clamp_the_page() {
    let q = photo_query(&params(Some("/Photos/Lego"), Some("a,b"), None));
    assert_eq!(q.album, ["Photos", "Lego"]);
    assert!(q.recursive);
    assert_eq!(q.limit, DEFAULT_LIMIT);
    assert_eq!(q.offset, 0);
    assert_eq!(q.filters.tags, ["a", "b"]);
    assert_eq!(q.filters.min_rating.get(), 2);
    assert!(!q.filters.include_video);
    assert_eq!(q.filters.aspect, Aspect::Portrait);
    assert_eq!(q.filters.sort, Sort::Name);
    assert_eq!(photo_query(&params(None, None, Some(0))).limit, 1);
    assert_eq!(photo_query(&params(None, None, Some(u64::MAX))).limit, MAX_LIMIT);
    assert_eq!(photo_query(&params(None, None, Some(77))).limit, 77);
    assert!(photo_query(&params(None, None, None)).album.is_empty());
    let r = random_query(&params(Some("/Photos"), None, Some(5)));
    assert_eq!((r.limit, r.offset), (0, 0));
    assert_eq!(r.album, ["Photos"]);
}

#[test]
fn random_redirects_to_the_file() {
    assert_eq!(random_location(42), "/api/photos/42/file");
}

#[test]
fn subalbum_requests_ignore_recursion() {
    let p = SubalbumParams {
        album: Some("/Photos/".to_string()),
        min_rating: Rating::new(4).unwrap(),
        images: false,
        video: true,
        aspect: Aspect::Landscape,
        tags: Some("x".to_string()),
        sort: Sort::Created,
    };
    let (album, f) = subalbum_request(&p);
    assert_eq!(album, ["Photos"]);
    assert!(!f.recursive);
    assert_eq!(f.min_rating.get(), 4);
    assert!(!f.include_images && f.include_video);
    assert_eq!(f.tags, ["x"]);
    assert_eq!(f.sort, Sort::Created);
}

#[test]
fn ratings_in_the_change_log() {
    assert_eq!(fmt_rating(Some(3)), "3");
    assert_eq!(fmt_rating(Some(0)), "0");
    assert_eq!(fmt_rating(Some(-1)), "unrated");
    assert_eq!(fmt_rating(None), "unrated");
}

fn patch(rating: Option<Option<Rating>>, add: Vec<i64>, remove: Vec<i64>, album: Option<i64>) -> PatchPhoto {
    PatchPhoto { rating, tags_add: add, tags_remove: remove, album }
}

#[test]
fn patch_plans() {
    let user_tags = vec![10, 11, 12];
    let e = plan_patch(false, &patch(Some(Rating::new(4)), vec![], vec![], None), &user_tags).unwrap_err();
    assert_eq!(
        message(&e),
        ("forbidden", "writes are disabled; start the server with --allow-writes")
    );
    let p = plan_patch(true, &patch(Some(Rating::new(4)), vec![], vec![], None), &user_tags).unwrap();
    assert_eq!(p.rating, Some(4));
    assert!(!changes_nothing(&p));
    let p = plan_patch(true, &patch(Some(None), vec![], vec![], None), &user_tags).unwrap();
    assert_eq!(p.rating, Some(-1));
    let p = plan_patch(true, &patch(None, vec![], vec![], None), &user_tags).unwrap();
    assert_eq!(p.rating, None);
    assert!(changes_nothing(&p));
    // Tags each once, in order of first mention; the album passes through.
    let p = plan_patch(true, &patch(None, vec![12, 11, 12, 11], vec![10, 10], Some(4)), &user_tags)
        .unwrap();
    assert_eq!(p.tags_add, [12, 11]);
    assert_eq!(p.tags_remove, [10]);
    assert_eq!(p.album, Some(4));
    // Unknown and internal tag ids are refused, the first one named.
    let e = plan_patch(true, &patch(Some(Rating::new(1)), vec![12, 999], vec![], None), &user_tags)
        .unwrap_err();
    assert_eq!(message(&e), ("unprocessable", "unknown or internal tag id 999"));
    let e = plan_patch(true, &patch(None, vec![11], vec![2, 1], None), &user_tags).unwrap_err();
    assert_eq!(message(&e), ("unprocessable", "unknown or internal tag id 2"));
}

#[test]
fn album_moves() {
    let mut roots = photos_root();
    roots.insert(2, AlbumRoot { label: "Other".to_string(), base: "/mnt/other".to_string() });
    // Same album: nothing to do.
    assert!(plan_move(&roots, 2, 1, "/Animals", "img001.jpg", 2, None).unwrap().is_none());
    // Unknown album.
    let e = plan_move(&roots, 2, 1, "/Animals", "img001.jpg", 999, None).unwrap_err();
    assert_eq!(message(&e), ("unprocessable", "unknown album 999"));
    assert_eq!(message(&unknown_album(5)), ("unprocessable", "unknown album 5"));
    // Unknown root of the target album.
    let e = plan_move(&roots, 2, 1, "/Animals", "img001.jpg", 4, Some((7, "/Beach".to_string())))
        .unwrap_err();
    assert_eq!(message(&e), ("not found", "album root 7 unknown"));
    let mv = plan_move(&roots, 2, 1, "/Animals", "img001.jpg", 4, Some((1, "/Beach".to_string())))
        .unwrap()
        .unwrap();
    assert_eq!(mv.from, "/home/eelco/Images/Photos/Animals/img001.jpg");
    assert_eq!(mv.to_dir, "/home/eelco/Images/Photos/Beach");
    assert_eq!(mv.to, "/home/eelco/Images/Photos/Beach/img001.jpg");
    let mv2 = plan_move(&roots, 4, 1, "/Beach", "x.jpg", 1, Some((2, "/".to_string())))
        .unwrap()
        .unwrap();
    assert_eq!((mv2.to_dir.as_str(), mv2.to.as_str()), ("/mnt/other", "/mnt/other/x.jpg"));
    // The file system as found decides.
    let e = check_move(&mv, false, false).unwrap_err();
    assert_eq!(
        message(&e),
        ("conflict", "album directory /home/eelco/Images/Photos/Beach does not exist")
    );
    let e = check_move(&mv, true, true).unwrap_err();
    assert_eq!(
        message(&e),
        ("conflict", "/home/eelco/Images/Photos/Beach/img001.jpg already exists")
    );
    assert!(check_move(&mv, true, false).is_ok());
    assert_eq!(
        message(&move_failed(&mv, "No such file")),
        ("conflict", "cannot move /home/eelco/Images/Photos/Animals/img001.jpg: No such file")
    );
}

#[test]
fn change_log_paths() {
    let roots = photos_root();
    assert_eq!(
        change_log_path(&roots, 1, "/Lego", "a.jpg"),
        "/home/eelco/Images/Photos/Lego/a.jpg"
    );
    assert_eq!(change_log_path(&roots, 7, "/Lego", "a.jpg"), "root7:/Lego/a.jpg");
}

#[test]
fn album_listing_skips_unknown_roots() {
    let rows = vec![
        AlbumRow { id: 1, album_root: 1, relative_path: "/".to_string() },
        AlbumRow { id: 2, album_root: 9, relative_path: "/x".to_string() },
        AlbumRow { id: 3, album_root: 1, relative_path: "/Lego".to_string() },
    ];
    let nodes = album_nodes(&photos_root(), &rows);
    assert_eq!(nodes.len(), 2);
    assert_eq!((nodes[0].id, nodes[0].path.as_str(), nodes[0].root.as_str()), (1, "/Photos", "Photos"));
    assert_eq!((nodes[1].id, nodes[1].path.as_str()), (3, "/Photos/Lego"));
}

#[test]
fn files_are_located_under_their_root() {
    let roots = photos_root();
    assert_eq!(
        locate_file(&roots, 1, "/Lego", "b.png").unwrap(),
        "/home/eelco/Images/Photos/Lego/b.png"
    );
    assert_eq!(message(&locate_file(&roots, 4, "/", "b.png").unwrap_err()), ("not found", "album root 4 unknown"));
    assert_eq!(photo_file_path(&roots, 1, "/", "b.png").as_deref(), Some("/home/eelco/Images/Photos/b.png"));
    assert_eq!(photo_file_path(&roots, 2, "/", "b.png"), None);
}

#[test]
fn not_found_messages() {
    assert_eq!(message(&photo_not_found(12)), ("not found", "photo 12 not found"));
    assert_eq!(message(&root_not_found(-3)), ("not found", "album root -3 unknown"));
    assert_eq!(
        message(&thumbnail_key(5, Some((None, Some(10)))).unwrap_err()),
        ("not found", "photo 5 not found")
    );
    assert!(thumbnail_key(5, None).is_err());
    assert_eq!(thumbnail_key(5, Some((Some("h".to_string()), Some(10)))).unwrap(), ("h".to_string(), 10));
}

// ---- ETags and headers ----

#[test]
fn weak_prefix_is_dropped() {
    assert_eq!(strip_weak("W/\"abc\""), "\"abc\"");
    assert_eq!(strip_weak("\"abc\""), "\"abc\"");
    assert_eq!(strip_weak("w/\"abc\""), "w/\"abc\"");
}

#[test]
fn if_none_match_candidates() {
    let etag = "\"abc\"";
    assert!(!if_none_match_matches(None, etag));
    assert!(if_none_match_matches(Some("*"), etag));
    assert!(if_none_match_matches(Some("\"abc\""), etag));
    assert!(if_none_match_matches(Some("W/\"abc\""), etag));
    assert!(if_none_match_matches(Some("\"x\",  \"abc\" "), etag));
    assert!(if_none_match_matches(Some("\"abc\""), "W/\"abc\""));
    assert!(!if_none_match_matches(Some("\"abcd\", \"x\""), etag));
    assert!(!if_none_match_matches(Some(""), etag));
    // An ETag that is not visible ASCII reads as empty text: an empty
    // candidate matches it, its own text does not.
    assert!(if_none_match_matches(Some("\"x\", "), "\"é\""));
    assert!(!if_none_match_matches(Some("\"é\""), "\"é\""));
    assert!(!if_none_match_matches(Some("\"x\""), "\"é\""));
}

#[test]
fn file_and_thumbnail_etags() {
    assert_eq!(file_etag(Some("abc".to_string())).as_deref(), Some("\"abc\""));
    assert_eq!(file_etag(Some(String::new())), None);
    assert_eq!(file_etag(None), None);
    assert_eq!(file_etag(Some("a\nb".to_string())), None);
    assert_eq!(thumbnail_etag("abc").as_deref(), Some("\"abc-thumb\""));
}

#[test]
fn content_disposition_names() {
    assert_eq!(
        content_disposition("img 1.jpg").as_deref(),
        Some("inline; filename=\"img 1.jpg\"; filename*=UTF-8''img%201.jpg")
    );
    assert_eq!(
        content_disposition("café\"x.jpg").as_deref(),
        Some("inline; filename=\"caf__x.jpg\"; filename*=UTF-8''caf%C3%A9%22x.jpg")
    );
}

#[test]
fn revalidation_decisions() {
    let r = revalidate(Some("\"abc\""), Some("\"abc\"".to_string()));
    assert!(r.not_modified);
    assert_eq!(r.etag.as_deref(), Some("\"abc\""));
    let r = revalidate(Some("\"abc\""), None);
    assert!(!r.not_modified);
    assert!(r.etag.is_none());
    let r = revalidate(None, Some("\"abc\"".to_string()));
    assert!(!r.not_modified);
    let r = asset_revalidation(Some("W/\"sw-1\""), "sw-1");
    assert!(r.not_modified);
    assert_eq!(r.etag.as_deref(), Some("\"sw-1\""));
}

#[test]
fn fnv1a_known_values() {
    assert_eq!(fnv1a(b""), 0xcbf2_9ce4_8422_2325);
    assert_eq!(fnv1a(b"a"), 0xaf63_dc4c_8601_ec8c);
    assert_eq!(fnv1a(b"foobar"), 0x8594_4171_f739_67e8);
}

#[test]
fn asset_etag_ids() {
    assert_eq!(content_etag_id("favicon", b"a"), "favicon-af63dc4c8601ec8c");
    assert_eq!(content_etag_id("sw", b""), "sw-cbf29ce484222325");
    assert_eq!(webpgf_build_id("/nix/store/0abc-webpgf"), "0abc-webpgf");
    assert_eq!(webpgf_build_id("webpgf"), "webpgf");
    assert_eq!(build_etag_id("/nix/store/0abc-webpgf", "wasm"), "0abc-webpgf-wasm");
}

// ---- reverse search ----

#[test]
fn reverse_search_engines() {
    assert!(check_engine(&ReverseSearchParams { engine: None }).is_ok());
    assert!(check_engine(&ReverseSearchParams { engine: Some("yandex".to_string()) }).is_ok());
    let e = check_engine(&ReverseSearchParams { engine: Some("google".to_string()) }).unwrap_err();
    assert_eq!(message(&e), ("bad request", "unsupported engine: google"));
}

#[test]
fn upload_mime_types() {
    assert_eq!(upload_mime("a.png"), "image/png");
    assert_eq!(upload_mime("A.JPG"), "image/jpeg");
    assert_eq!(upload_mime("noext"), "application/octet-stream");
}

#[test]
fn yandex_results_page() {
    assert_eq!(
        yandex_results_url("12/ab c"),
        "https://yandex.com/images/search?rpt=imageview&cbir_id=12%2Fab%20c&cbir_page=similar"
    );
}

#[test]
fn cbir_ids_from_replies() {
    let body = br#"{"blocks":[{"name":"x","params":{"cbirId":"4242/xyz"}}]}"#;
    assert_eq!(cbir_id(body).unwrap(), "4242/xyz");
    let e = cbir_id(br#"{"blocks":[]}"#).unwrap_err();
    assert_eq!(message(&e), ("bad gateway", "Yandex reverse search: no cbirId in response"));
    let e = cbir_id(br#"{"blocks":[{"params":{"cbirId":7}}]}"#).unwrap_err();
    assert_eq!(message(&e).1, "Yandex reverse search: no cbirId in response");
    // `blocks` must be an array: an object keyed "0" holds no first block.
    let e = cbir_id(br#"{"blocks":{"0":{"params":{"cbirId":"k"}}}}"#).unwrap_err();
    assert_eq!(message(&e).1, "Yandex reverse search: no cbirId in response");
    let e = cbir_id(b"<html>").unwrap_err();
    assert_eq!(message(&e), ("bad gateway", "Yandex reverse search: error decoding response body"));
    let e = cbir_id(b"{\"blocks\":\"\xff\"}").unwrap_err();
    assert_eq!(message(&e).1, "Yandex reverse search: error decoding response body");
    assert_eq!(cbir_outcome(Some(Some("k".to_string()))).unwrap(), "k");
    assert_eq!(
        message(&cbir_outcome(None).unwrap_err()),
        ("bad gateway", "Yandex reverse search: error decoding response body")
    );
    assert_eq!(message(&yandex_failure("timeout")), ("bad gateway", "Yandex reverse search: timeout"));
}

// ---- bookmarks ----

#[test]
fn bookmark_names_are_validated() {
    assert_eq!(bookmark_name("  trip  ").unwrap(), "trip");
    assert_eq!(
        message(&bookmark_name("   ").unwrap_err()),
        ("bad request", "bookmark name must not be empty")
    );
    assert_eq!(
        message(&bookmark_name(&"x".repeat(101)).unwrap_err()),
        ("bad request", "bookmark name is too long")
    );
    assert_eq!(bookmark_name(&"é".repeat(100)).unwrap().chars().count(), 100);
}

#[test]
fn new_bookmarks_keep_the_request() {
    let req = CreateBookmark {
        name: " Lego ".to_string(),
        album: "/Photos/Lego".to_string(),
        filters: Filters::default(),
        overwrite: true,
    };
    let (b, overwrite) = new_bookmark(req).unwrap();
    assert_eq!(b.name, "Lego");
    assert_eq!(b.album, "/Photos/Lego");
    assert!(overwrite);
    assert!(bookmark_insert_sql(true).starts_with("INSERT OR REPLACE INTO bookmarks"));
    assert!(bookmark_insert_sql(false).starts_with("INSERT INTO bookmarks"));
    assert_eq!(
        message(&bookmark_conflict("Lego")),
        ("conflict", "a bookmark named \"Lego\" already exists")
    );
}

#[test]
fn bookmarks_round_trip_through_rows() {
    let b = Bookmark {
        name: "trip".to_string(),
        album: "/Photos".to_string(),
        filters: Filters {
            recursive: true,
            min_rating: Rating::new(4).unwrap(),
            include_images: true,
            include_video: false,
            aspect: Aspect::Landscape,
            tags: vec!["beach".to_string(), "say \"hi\"".to_string()],
            sort: Sort::Name,
        },
    };
    let row = bookmark_to_row(&b);
    assert_eq!(row.recursive, 1);
    assert_eq!(row.min_rating, 4);
    assert_eq!((row.images, row.video), (1, 0));
    assert_eq!(row.aspect, "landscape");
    assert_eq!(row.tags, r#"["beach","say \"hi\""]"#);
    let mut odd = b.clone();
    odd.filters.tags = vec!["a\\b\n\t".to_string(), "\u{1}\u{8}\u{c}\r/é".to_string()];
    assert_eq!(bookmark_to_row(&odd).tags, r#"["a\\b\n\t","\u0001\b\f\r/é"]"#);
    assert_eq!(bookmark_from_row(bookmark_to_row(&odd)).filters.tags, odd.filters.tags);
    let mut none = b.clone();
    none.filters.tags = vec![];
    assert_eq!(bookmark_to_row(&none).tags, "[]");
    assert_eq!(row.sort, "name");
    let back = bookmark_from_row(row);
    assert_eq!(back.name, b.name);
    assert_eq!(back.album, b.album);
    assert_eq!(back.filters.recursive, b.filters.recursive);
    assert_eq!(back.filters.min_rating, b.filters.min_rating);
    assert_eq!(back.filters.include_video, b.filters.include_video);
    assert_eq!(back.filters.aspect, b.filters.aspect);
    assert_eq!(back.filters.tags, b.filters.tags);
    assert_eq!(back.filters.sort, b.filters.sort);
}

#[test]
fn odd_bookmark_rows_fall_back_to_defaults() {
    let row = BookmarkRow {
        name: "n".to_string(),
        album: "/".to_string(),
        recursive: 7,
        min_rating: 9,
        images: 0,
        video: 2,
        aspect: "round".to_string(),
        tags: "not json".to_string(),
        sort: "random".to_string(),
    };
    let b = bookmark_from_row(row);
    assert!(b.filters.recursive);
    assert_eq!(b.filters.min_rating.get(), 0);
    assert!(!b.filters.include_images && b.filters.include_video);
    assert_eq!(b.filters.aspect, Aspect::All);
    assert!(b.filters.tags.is_empty());
    assert_eq!(b.filters.sort, Sort::Modified);
}

#[test]
fn tag_tokens_also_match_album_names() {
    assert_eq!(
        token_filter_sql("Beach_1/"),
        " AND (EXISTS (SELECT 1 FROM ImageTags it WHERE it.imageid = i.id AND it.tagid IN (WITH base(id) AS (SELECT id FROM Tags WHERE name = 'Beach_1') SELECT id FROM base UNION SELECT id FROM TagsTree WHERE pid IN (SELECT id FROM base))) OR a.relativePath LIKE '%/Beach\\_1' ESCAPE '\\')"
    );
    assert_eq!(
        token_filter_sql("/places/beach"),
        " AND EXISTS (SELECT 1 FROM ImageTags it WHERE it.imageid = i.id AND it.tagid IN (WITH RECURSIVE paths(id, path) AS ( SELECT id, '/' || name FROM Tags WHERE pid = 0 UNION ALL SELECT t.id, p.path || '/' || t.name FROM Tags t JOIN paths p ON t.pid = p.id ), base(id) AS (SELECT id FROM paths WHERE path = '/places/beach') SELECT id FROM base UNION SELECT id FROM TagsTree WHERE pid IN (SELECT id FROM base)))"
    );
    assert!(token_filter_sql("o'neil").contains("LIKE '%/o''neil'"));
}

#[test]
fn natural_order_ignores_lowercasing() {
    let words = ["Beach 12", "beach 9", "IMG_0010.JPG", "img_9.jpg", "Zebra", "apple", "A-10", "a-2"];
    for a in words {
        for b in words {
            assert_eq!(
                natural_cmp(&a.to_ascii_lowercase(), &b.to_ascii_lowercase()),
                natural_cmp(a, b),
                "{a} vs {b}"
            );
        }
    }
}

#[test]
fn segments_round_trip_through_joined_paths() {
    for path in ["/Photos/Lego", "Photos//Lego/", "/", "", "a"] {
        let segs = album_segments(path);
        assert!(segs.iter().all(|s| !s.is_empty() && !s.contains('/')));
        assert_eq!(album_segments(&format!("/{}", segs.join("/"))), segs);
    }
}

#[test]
fn display_paths_give_back_root_and_relative_path() {
    let root = AlbumRoot { label: "Photos".to_string(), base: "/x".to_string() };
    let segs = album_segments(&digikam_browse::paths::album_display_path(&root, "/Lego/Cars"));
    assert_eq!(album_root_and_rel(&segs), Some(("Photos", Some("/Lego/Cars".to_string()))));
    let segs = album_segments(&digikam_browse::paths::album_display_path(&root, "/"));
    assert_eq!(album_root_and_rel(&segs), Some(("Photos", None)));
}
