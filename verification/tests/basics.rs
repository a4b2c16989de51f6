use std::cmp::Ordering::{Equal, Greater, Less};

use digikam_browse::filters::Aspect;
use digikam_browse::natural::natural_cmp;
use digikam_browse::paths::{album_display_path, image_abs_path, parse_volume_path, AlbumRoot};
use digikam_browse::query::{album_root_and_rel, album_segments, escape_like, media_filter_sql};

#[test]
fn natural_ordering() {
    // The motivating case: numeric runs compare by value, not lexically.
    assert_eq!(natural_cmp("9_foo", "10_bar"), Less);
    assert_eq!(natural_cmp("10_bar", "9_foo"), Greater);
    assert_eq!(natural_cmp("img2.jpg", "img10.jpg"), Less);
    // Case-insensitive, like NOCASE.
    assert_eq!(natural_cmp("Foo", "foo"), Equal);
    assert_eq!(natural_cmp("ABC", "abd"), Less);
    // Leading zeros don't change the value; same value tie-breaks deterministically.
    assert_eq!(natural_cmp("09_a", "9_a"), Greater); // "9" before "09"
    assert_eq!(natural_cmp("file007", "file7"), Greater);
    // Big numbers beyond u64 still compare correctly (no parsing/overflow).
    assert_eq!(
        natural_cmp("v99999999999999999999", "v100000000000000000000"),
        Less
    );
    // Separators are ordinary non-digit characters.
    assert_eq!(natural_cmp("a-2", "a-10"), Less);
    // Sorting a slice gives the expected natural order.
    let mut v = ["10_b", "9_a", "1_c", "100_d"];
    v.sort_by(|x, y| natural_cmp(x, y));
    assert_eq!(v, ["1_c", "9_a", "10_b", "100_d"]);
}

#[test]
fn parses_volume_path() {
    let id = "volumeid:?path=/home/eelco/Images/Photos&fileuuid=478c42bb";
    assert_eq!(
        parse_volume_path(id).as_deref(),
        Some("/home/eelco/Images/Photos")
    );
    // Network shares use `networkshareid:?mountpath=...` instead of `path=`.
    let net = "networkshareid:?mountpath=/data/Video&fileuuid=082745db";
    assert_eq!(parse_volume_path(net).as_deref(), Some("/data/Video"));
}

#[test]
fn builds_paths() {
    let root = AlbumRoot {
        label: "Photos".into(),
        base: "/home/eelco/Images/Photos".into(),
    };
    assert_eq!(
        image_abs_path(&root, "/Lego/Porsche911", "img_1.jpg"),
        "/home/eelco/Images/Photos/Lego/Porsche911/img_1.jpg"
    );
    assert_eq!(
        image_abs_path(&root, "/", "img_1.jpg"),
        "/home/eelco/Images/Photos/img_1.jpg"
    );
    assert_eq!(album_display_path(&root, "/Lego"), "/Photos/Lego");
    assert_eq!(album_display_path(&root, "/"), "/Photos");
}

#[test]
fn escapes_like_metacharacters() {
    assert_eq!(escape_like("/a_b%c\\d"), "/a\\_b\\%c\\\\d");
}

#[test]
fn splits_album_segments() {
    assert_eq!(album_segments("/Photos/Lego"), ["Photos", "Lego"]);
    assert_eq!(album_segments("/Photos"), ["Photos"]);
    assert!(album_segments("/").is_empty());
    assert!(album_segments("").is_empty());
}

#[test]
fn splits_root_and_rel() {
    assert_eq!(album_root_and_rel(&[]), None);
    assert_eq!(
        album_root_and_rel(&["Photos".to_string()]),
        Some(("Photos", None))
    );
    assert_eq!(
        album_root_and_rel(&["Photos".to_string(), "Lego".to_string(), "X".to_string()]),
        Some(("Photos", Some("/Lego/X".to_string())))
    );
}

#[test]
fn media_filter_fragments() {
    assert_eq!(media_filter_sql(true, true), ""); // all media
    assert_eq!(media_filter_sql(true, false), " AND i.category != 2"); // images only
    assert_eq!(media_filter_sql(false, true), " AND i.category = 2"); // video only
    assert_eq!(media_filter_sql(false, false), " AND 1 = 0"); // neither
}

#[test]
fn aspect_filter_fragments() {
    assert_eq!(Aspect::All.sql_filter(), "");
    // Inclusive >= on both sides, so a square matches portrait and landscape.
    assert_eq!(Aspect::Portrait.sql_filter(), " AND ii.height >= ii.width");
    assert_eq!(Aspect::Landscape.sql_filter(), " AND ii.width >= ii.height");
}
