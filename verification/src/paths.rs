//! Album roots and the paths built from them: where an image lives on disk,
//! how an album is shown to the user, and how a Digikam album-root identifier
//! names its base directory.
use std::collections::HashMap;
use vstd::prelude::*;
use vstd::string::StringSliceAdditionalSpecFns;
use vstd::utf8::{decode_utf8, encode_utf8, valid_utf8};

use crate::outside::{percent_decoded, url_decode};
use crate::text::{
    chars_of, decimal, decimal_text, drop_leading, has_prefix, owned, push_char, push_str,
    same_text, split_all, split_on, starts_with, string_of, trim_start_char, views,
};

verus! {

broadcast use vstd::std_specs::hash::group_hash_axioms;

/// Information about a single Digikam album root.
#[derive(Debug, Clone)]
pub struct AlbumRoot {
    pub label: String,
    /// Absolute base directory on disk, e.g. `/home/eelco/Images/Photos`.
    pub base: String,
}

/// Appending `x` to the path `p` the way `PathBuf::push` does on Unix: an
/// absolute `x` replaces `p`; otherwise a `/` separates them unless `p` is
/// empty or already ends in one.
pub open spec fn path_join(p: Seq<char>, x: Seq<char>) -> Seq<char> {
    if x.len() > 0 && x[0] == '/' {
        x
    } else if p.len() == 0 || p.last() == '/' {
        p + x
    } else {
        p + seq!['/'] + x
    }
}

/// Append the path `x` to `p`.
pub fn push_path(p: &mut String, x: &str)
    ensures
        final(p)@ == path_join(old(p)@, x@),
{
    let xs = chars_of(x);
    if xs.len() > 0 && xs[0] == '/' {
        *p = owned(x);
        return;
    }
    let ps = chars_of(p.as_str());
    if ps.len() > 0 && ps[ps.len() - 1] != '/' {
        push_char(p, '/');
    }
    push_str(p, x);
}

/// The file of an image: the root's base, then the album's relative path
/// (leading `/` dropped, skipped when nothing is left), then the file name.
pub open spec fn abs_path(base: Seq<char>, relative_path: Seq<char>, name: Seq<char>) -> Seq<char> {
    path_join(album_dir(base, relative_path), name)
}

/// The directory of an album: the root's base, then the album's relative
/// path (leading `/` dropped, skipped when nothing is left).
pub open spec fn album_dir(base: Seq<char>, relative_path: Seq<char>) -> Seq<char> {
    let rel = drop_leading(relative_path, '/');
    if rel.len() > 0 {
        path_join(base, rel)
    } else {
        base
    }
}

/// Build the directory of an album on disk (see `album_dir`).
pub fn album_dir_path(root: &AlbumRoot, relative_path: &str) -> (p: String)
    ensures
        p@ == album_dir(root.base@, relative_path@),
{
    let mut p = root.base.clone();
    let rel = trim_start_char(relative_path, '/');
    if !rel.as_str().is_empty() {
        push_path(&mut p, rel.as_str());
    }
    p
}

/// The user-facing path of an album: `/label` for a root album (relative path
/// `/`), else `/label/relative/path`.
pub open spec fn display_path(label: Seq<char>, relative_path: Seq<char>) -> Seq<char> {
    let rel = drop_leading(relative_path, '/');
    if rel.len() == 0 {
        seq!['/'] + label
    } else {
        seq!['/'] + label + seq!['/'] + rel
    }
}

/// Build the absolute file path for an image given its album root, the
/// album's `relativePath`, and the file name. The root album has
/// `relativePath == "/"`.
pub fn image_abs_path(root: &AlbumRoot, relative_path: &str, name: &str) -> (p: String)
    ensures
        p@ == abs_path(root.base@, relative_path@, name@),
{
    let mut p = root.base.clone();
    let rel = trim_start_char(relative_path, '/');
    if !rel.as_str().is_empty() {
        push_path(&mut p, rel.as_str());
    }
    push_path(&mut p, name);
    p
}

/// Build the user-facing display path for an album, e.g. `/Photos/Lego`.
pub fn album_display_path(root: &AlbumRoot, relative_path: &str) -> (p: String)
    ensures
        p@ == display_path(root.label@, relative_path@),
{
    let rel = trim_start_char(relative_path, '/');
    let mut p = String::new();
    push_char(&mut p, '/');
    push_str(&mut p, root.label.as_str());
    if !rel.as_str().is_empty() {
        push_char(&mut p, '/');
        push_str(&mut p, rel.as_str());
    }
    p
}

/// What follows the first `c` in `s`, if `s` holds one.
pub open spec fn after_first(s: Seq<char>, c: char) -> Option<Seq<char>>
    decreases s.len(),
{
    if s.len() == 0 {
        None
    } else if s[0] == c {
        Some(s.drop_first())
    } else {
        after_first(s.drop_first(), c)
    }
}

/// `path=`
pub open spec fn path_key() -> Seq<char> {
    seq!['p', 'a', 't', 'h', '=']
}

/// `mountpath=`
pub open spec fn mountpath_key() -> Seq<char> {
    seq!['m', 'o', 'u', 'n', 't', 'p', 'a', 't', 'h', '=']
}

/// The value of a `path=` or `mountpath=` query pair.
pub open spec fn volume_value(pair: Seq<char>) -> Option<Seq<char>> {
    if has_prefix(pair, path_key()) {
        Some(pair.skip(5))
    } else if has_prefix(pair, mountpath_key()) {
        Some(pair.skip(10))
    } else {
        None
    }
}

/// The value of the first query pair that names a volume path.
pub open spec fn first_volume_value(pairs: Seq<Seq<char>>) -> Option<Seq<char>>
    decreases pairs.len(),
{
    if pairs.len() == 0 {
        None
    } else {
        match volume_value(pairs[0]) {
            Some(v) => Some(v),
            None => first_volume_value(pairs.drop_first()),
        }
    }
}

/// Percent-decoding of a text, when the result is valid UTF-8.
pub open spec fn url_decoded(v: Seq<char>) -> Option<Seq<char>> {
    let d = percent_decoded(encode_utf8(v));
    if valid_utf8(d) {
        Some(decode_utf8(d))
    } else {
        None
    }
}

/// The base directory named by a Digikam album-root identifier: the
/// percent-decoded value of the first `path=` or `mountpath=` pair of the
/// query after the first `?`.
pub open spec fn volume_path(identifier: Seq<char>) -> Option<Seq<char>> {
    match after_first(identifier, '?') {
        None => None,
        Some(q) => match first_volume_value(split_on(q, '&')) {
            None => None,
            Some(v) => url_decoded(v),
        },
    }
}

/// Extract the base directory from a Digikam album-root identifier,
/// percent-decoding it. Local volumes use `volumeid:?path=/abs/dir&fileuuid=...`;
/// network shares use `networkshareid:?mountpath=/mnt/dir&fileuuid=...`.
pub fn parse_volume_path(identifier: &str) -> (r: Option<String>)
    ensures
        match r {
            Some(p) => volume_path(identifier@) == Some(p@),
            None => volume_path(identifier@) is None,
        },
{
    let cs = chars_of(identifier);
    let mut i: usize = 0;
    assert(cs@.subrange(0, cs@.len() as int) =~= cs@);
    while i < cs.len() && cs[i] != '?'
        invariant
            i <= cs@.len(),
            cs@ == identifier@,
            after_first(cs@, '?') == after_first(cs@.subrange(i as int, cs@.len() as int), '?'),
        decreases cs.len() - i,
    {
        assert(cs@.subrange(i as int, cs@.len() as int).drop_first() =~= cs@.subrange(
            i + 1,
            cs@.len() as int,
        ));
        i += 1;
    }
    if i == cs.len() {
        return None;
    }
    assert(cs@.subrange(i as int, cs@.len() as int).drop_first() =~= cs@.subrange(
        i + 1,
        cs@.len() as int,
    ));
    let query = string_of(&cs, i + 1, cs.len());
    let pairs = split_all(query.as_str(), '&');
    let path_prefix: Vec<char> = vec!['p', 'a', 't', 'h', '='];
    let mount_prefix: Vec<char> = vec!['m', 'o', 'u', 'n', 't', 'p', 'a', 't', 'h', '='];
    assert(path_prefix@ =~= path_key());
    assert(mount_prefix@ =~= mountpath_key());
    let mut k: usize = 0;
    assert(views(pairs@).skip(0) =~= views(pairs@));
    while k < pairs.len()
        invariant
            k <= pairs@.len(),
            path_prefix@ == path_key(),
            mount_prefix@ == mountpath_key(),
            views(pairs@) == split_on(query@, '&'),
            volume_path(identifier@) == match first_volume_value(views(pairs@).skip(k as int)) {
                None => None,
                Some(v) => url_decoded(v),
            },
        decreases pairs.len() - k,
    {
        let pcs = chars_of(pairs[k].as_str());
        assert(views(pairs@).skip(k as int)[0] == pairs@[k as int]@);
        if starts_with(&pcs, &path_prefix) {
            let value = string_of(&pcs, 5, pcs.len());
            assert(value@ =~= pairs@[k as int]@.skip(5));
            return url_decode(value.as_str());
        }
        if starts_with(&pcs, &mount_prefix) {
            let value = string_of(&pcs, 10, pcs.len());
            assert(value@ =~= pairs@[k as int]@.skip(10));
            return url_decode(value.as_str());
        }
        assert(views(pairs@).skip(k as int).drop_first() =~= views(pairs@).skip(k + 1));
        k += 1;
    }
    None
}

/// The view of an optional string.
pub open spec fn opt_view(o: Option<String>) -> Option<Seq<char>> {
    match o {
        Some(s) => Some(s@),
        None => None,
    }
}

/// One row of the `AlbumRoots` table.
pub struct RootRow {
    pub id: i64,
    pub label: Option<String>,
    pub identifier: Option<String>,
    pub specific_path: Option<String>,
}

/// The album root a row describes, as (label, base directory): `None` when
/// its identifier names no base directory. The `specificPath` (leading `/`
/// dropped) is appended to the base; a missing label becomes `root<id>`.
pub open spec fn root_of_row(
    id: i64,
    label: Option<Seq<char>>,
    identifier: Option<Seq<char>>,
    specific_path: Option<Seq<char>>,
) -> Option<(Seq<char>, Seq<char>)> {
    let ident = match identifier {
        Some(s) => s,
        None => Seq::empty(),
    };
    match volume_path(ident) {
        None => None,
        Some(b) => {
            let base = match specific_path {
                Some(sp) => if drop_leading(sp, '/').len() > 0 {
                    path_join(b, drop_leading(sp, '/'))
                } else {
                    b
                },
                None => b,
            };
            let name = match label {
                Some(l) => l,
                None => seq!['r', 'o', 'o', 't'] + decimal(id as int),
            };
            Some((name, base))
        },
    }
}

/// Resolve one `AlbumRoots` row to its album root.
pub fn album_root_from_row(row: &RootRow) -> (r: Option<AlbumRoot>)
    ensures
        match r {
            Some(root) => root_of_row(
                row.id,
                opt_view(row.label),
                opt_view(row.identifier),
                opt_view(row.specific_path),
            ) == Some((root.label@, root.base@)),
            None => root_of_row(
                row.id,
                opt_view(row.label),
                opt_view(row.identifier),
                opt_view(row.specific_path),
            ) is None,
        },
{
    let identifier = match &row.identifier {
        Some(s) => s.clone(),
        None => String::new(),
    };
    let mut base = match parse_volume_path(identifier.as_str()) {
        Some(b) => b,
        None => {
            return None;
        },
    };
    match &row.specific_path {
        Some(sp) => {
            let t = trim_start_char(sp.as_str(), '/');
            if !t.as_str().is_empty() {
                push_path(&mut base, t.as_str());
            }
        },
        None => {},
    }
    let label = match &row.label {
        Some(l) => l.clone(),
        None => {
            let mut l = String::new();
            push_str(&mut l, "root");
            let digits = decimal_text(row.id);
            push_str(&mut l, digits.as_str());
            proof {
                reveal_strlit("root");
            }
            assert(l@ =~= seq!['r', 'o', 'o', 't'] + decimal(row.id as int));
            l
        },
    };
    Some(AlbumRoot { label, base })
}

/// The album roots of a list of rows, keyed by id: rows that name no base
/// directory are skipped, and a later row replaces an earlier one of the same id.
pub open spec fn roots_of_rows(rows: Seq<RootRow>) -> Map<i64, (Seq<char>, Seq<char>)>
    decreases rows.len(),
{
    if rows.len() == 0 {
        Map::empty()
    } else {
        let init = roots_of_rows(rows.drop_last());
        let row = rows.last();
        match root_of_row(
            row.id,
            opt_view(row.label),
            opt_view(row.identifier),
            opt_view(row.specific_path),
        ) {
            Some(r) => init.insert(row.id, r),
            None => init,
        }
    }
}

/// Whether a map of album roots holds exactly the (label, base) pairs of `m`.
pub open spec fn roots_match(roots: Map<i64, AlbumRoot>, m: Map<i64, (Seq<char>, Seq<char>)>) -> bool {
    &&& forall|id: i64| #[trigger] roots.contains_key(id) <==> m.contains_key(id)
    &&& forall|id: i64|
        #[trigger] roots.contains_key(id) ==> roots[id].label@ == m[id].0 && roots[id].base@
            == m[id].1
}

/// Load the album roots from the rows of the `AlbumRoots` table.
pub fn roots_from_rows(rows: &Vec<RootRow>) -> (roots: HashMap<i64, AlbumRoot>)
    ensures
        roots_match(roots@, roots_of_rows(rows@)),
{
    let mut roots: HashMap<i64, AlbumRoot> = HashMap::new();
    let mut i: usize = 0;
    assert(rows@.take(0) =~= Seq::<RootRow>::empty());
    while i < rows.len()
        invariant
            i <= rows@.len(),
            roots_match(roots@, roots_of_rows(rows@.take(i as int))),
        decreases rows.len() - i,
    {
        assert(rows@.take(i + 1).drop_last() =~= rows@.take(i as int));
        assert(rows@.take(i + 1).last() == rows@[i as int]);
        match album_root_from_row(&rows[i]) {
            Some(root) => {
                roots.insert(rows[i].id, root);
            },
            None => {},
        }
        i += 1;
    }
    assert(rows@.take(rows@.len() as int) =~= rows@);
    roots
}

/// The id of an album root with the given label, if there is one. Which one
/// is found when several roots share a label depends on the map's order.
pub fn root_id_by_label(roots: &HashMap<i64, AlbumRoot>, label: &str) -> (r: Option<i64>)
    ensures
        match r {
            Some(id) => roots@.contains_key(id) && roots@[id].label@ == label@,
            None => forall|id: i64| #[trigger]
                roots@.contains_key(id) ==> roots@[id].label@ != label@,
        },
{
    for entry in it: roots.iter()
        invariant
            forall|j: int|
                0 <= j < it.index() ==> (#[trigger] it.seq()[j]).1.label@ != label@,
    {
        let (id, root) = entry;
        if same_text(root.label.as_str(), label) {
            return Some(*id);
        }
    }
    None
}

} // verus!
