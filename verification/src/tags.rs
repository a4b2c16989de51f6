//! The tag hierarchy as a tree, built from the rows of the `Tags` table.
use vstd::prelude::*;

use crate::models::TagNode;

verus! {

/// Digikam's internal tag root (`_Digikam_Internal_Tags_`). Its subtree holds
/// internal bookkeeping (colour/pick labels, version history), not user tags.
pub const INTERNAL_TAG_ROOT: i64 = 1;

/// One row of the `Tags` table.
pub struct TagRow {
    pub id: i64,
    pub pid: i64,
    pub name: String,
}

/// The rows whose parent is `pid`, in row order.
pub open spec fn kids(rows: Seq<TagRow>, pid: i64) -> Seq<TagRow>
    decreases rows.len(),
{
    if rows.len() == 0 {
        rows
    } else {
        let init = kids(rows.drop_last(), pid);
        if rows.last().pid == pid {
            init.push(rows.last())
        } else {
            init
        }
    }
}

/// The top-level tags (parent 0), in row order, without the internal root.
pub open spec fn top_tags(rows: Seq<TagRow>) -> Seq<TagRow>
    decreases rows.len(),
{
    if rows.len() == 0 {
        rows
    } else {
        let init = top_tags(rows.drop_last());
        if rows.last().pid == 0 && rows.last().id != INTERNAL_TAG_ROOT {
            init.push(rows.last())
        } else {
            init
        }
    }
}

/// `n` is the tree of the tag `row`: its id and name, and below it the trees
/// of the rows whose parent is `row`, down to `depth` more levels.
pub open spec fn node_ok(n: TagNode, rows: Seq<TagRow>, row: TagRow, depth: nat) -> bool
    decreases depth, 1nat,
{
    &&& n.id == row.id as u64
    &&& n.name@ == row.name@
    &&& forest_ok(n.children@, rows, kids(rows, row.id), depth)
}

/// `ns` are the trees of the tags `ks`, in order, down to `depth` levels
/// (none at depth 0).
pub open spec fn forest_ok(ns: Seq<TagNode>, rows: Seq<TagRow>, ks: Seq<TagRow>, depth: nat) -> bool
    decreases depth, 0nat,
{
    if depth == 0 {
        ns.len() == 0
    } else {
        &&& ns.len() == ks.len()
        &&& forall|i: int| 0 <= i < ns.len() ==> node_ok(#[trigger] ns[i], rows, ks[i], (depth - 1) as nat)
    }
}

fn build_node(rows: &Vec<TagRow>, idx: usize, depth: usize) -> (n: TagNode)
    requires
        idx < rows@.len(),
    ensures
        node_ok(n, rows@, rows@[idx as int], depth as nat),
    decreases depth, 1nat,
{
    let children = build_forest(rows, rows[idx].id, depth);
    TagNode { id: rows[idx].id as u64, name: rows[idx].name.clone(), children }
}

fn build_forest(rows: &Vec<TagRow>, pid: i64, depth: usize) -> (ns: Vec<TagNode>)
    ensures
        forest_ok(ns@, rows@, kids(rows@, pid), depth as nat),
    decreases depth, 0nat,
{
    let mut ns: Vec<TagNode> = Vec::new();
    if depth == 0 {
        return ns;
    }
    let mut i: usize = 0;
    assert(rows@.take(0) =~= Seq::<TagRow>::empty());
    while i < rows.len()
        invariant
            0 < depth,
            i <= rows@.len(),
            ns@.len() == kids(rows@.take(i as int), pid).len(),
            forall|j: int|
                0 <= j < ns@.len() ==> node_ok(
                    #[trigger] ns@[j],
                    rows@,
                    kids(rows@.take(i as int), pid)[j],
                    (depth - 1) as nat,
                ),
        decreases rows.len() - i,
    {
        assert(rows@.take(i + 1).drop_last() =~= rows@.take(i as int));
        if rows[i].pid == pid {
            let n = build_node(rows, i, depth - 1);
            ns.push(n);
        }
        i += 1;
    }
    assert(rows@.take(rows@.len() as int) =~= rows@);
    ns
}

/// The tag hierarchy as a tree: the top-level tags except Digikam's internal
/// root, each with its descendants, children in row order. The trees reach
/// `rows.len()` levels below the top.
pub fn tag_tree(rows: &Vec<TagRow>) -> (ns: Vec<TagNode>)
    ensures
        ns@.len() == top_tags(rows@).len(),
        forall|j: int|
            0 <= j < ns@.len() ==> node_ok(
                #[trigger] ns@[j],
                rows@,
                top_tags(rows@)[j],
                rows@.len(),
            ),
{
    let mut ns: Vec<TagNode> = Vec::new();
    let mut i: usize = 0;
    assert(rows@.take(0) =~= Seq::<TagRow>::empty());
    while i < rows.len()
        invariant
            i <= rows@.len(),
            ns@.len() == top_tags(rows@.take(i as int)).len(),
            forall|j: int|
                0 <= j < ns@.len() ==> node_ok(
                    #[trigger] ns@[j],
                    rows@,
                    top_tags(rows@.take(i as int))[j],
                    rows@.len(),
                ),
        decreases rows.len() - i,
    {
        assert(rows@.take(i + 1).drop_last() =~= rows@.take(i as int));
        if rows[i].pid == 0 && rows[i].id != INTERNAL_TAG_ROOT {
            let n = build_node(rows, i, rows.len());
            ns.push(n);
        }
        i += 1;
    }
    assert(rows@.take(rows@.len() as int) =~= rows@);
    ns
}


/// Distinct rows carry distinct ids.
pub open spec fn ids_distinct(rows: Seq<TagRow>) -> bool {
    forall|a: int, b: int|
        0 <= a < rows.len() && 0 <= b < rows.len() && a != b ==> #[trigger] rows[a].id
            != #[trigger] rows[b].id
}

/// No row has id 0, the parent of the top-level tags.
pub open spec fn no_zero_id(rows: Seq<TagRow>) -> bool {
    forall|a: int| 0 <= a < rows.len() ==> (#[trigger] rows[a]).id != 0
}

/// Row indices from a top-level tag down to a descendant, each row the
/// parent of the next.
spec fn chain_ok(rows: Seq<TagRow>, c: Seq<int>) -> bool {
    &&& c.len() >= 1
    &&& forall|j: int| 0 <= j < c.len() ==> 0 <= #[trigger] c[j] < rows.len()
    &&& rows[c[0]].pid == 0
    &&& forall|j: int| 1 <= j < c.len() ==> rows[#[trigger] c[j]].pid == rows[c[j - 1]].id
}

proof fn lemma_chain_repeat(rows: Seq<TagRow>, c: Seq<int>, a: int, b: int)
    requires
        ids_distinct(rows),
        no_zero_id(rows),
        chain_ok(rows, c),
        0 <= a < b < c.len(),
    ensures
        c[a] != c[b],
    decreases a,
{
    if c[a] == c[b] {
        assert(rows[c[b]].pid == rows[c[b - 1]].id);
        assert(0 <= c[b - 1] < rows.len());
        if a == 0 {
            assert(rows[c[b - 1]].id == 0);
        } else {
            assert(rows[c[a]].pid == rows[c[a - 1]].id);
            assert(0 <= c[a - 1] < rows.len());
            assert(rows[c[a - 1]].id == rows[c[b - 1]].id);
            lemma_chain_repeat(rows, c, a - 1, b - 1);
        }
    }
}

/// A chain visits each row at most once, so it is no longer than the table.
proof fn lemma_chain_len(rows: Seq<TagRow>, c: Seq<int>)
    requires
        ids_distinct(rows),
        no_zero_id(rows),
        chain_ok(rows, c),
    ensures
        c.len() <= rows.len(),
{
    assert(c.no_duplicates()) by {
        assert forall|a: int, b: int| 0 <= a < c.len() && 0 <= b < c.len() && a != b implies c[a]
            != c[b] by {
            if a < b {
                lemma_chain_repeat(rows, c, a, b);
            } else {
                lemma_chain_repeat(rows, c, b, a);
            }
        }
    }
    c.unique_seq_to_set();
    vstd::set_lib::lemma_int_range(0, rows.len() as int);
    assert(c.to_set().subset_of(vstd::set_lib::set_int_range(0, rows.len() as int)));
    vstd::set_lib::lemma_len_subset(c.to_set(), vstd::set_lib::set_int_range(0, rows.len() as int));
}

/// Every child of `pid` is a row of the table with that parent.
proof fn lemma_kids_rows(rows: Seq<TagRow>, pid: i64, i: int)
    requires
        0 <= i < kids(rows, pid).len(),
    ensures
        exists|idx: int| 0 <= idx < rows.len() && rows[idx] == kids(rows, pid)[i] && rows[idx].pid == pid,
    decreases rows.len(),
{
    let init = kids(rows.drop_last(), pid);
    if i < init.len() {
        lemma_kids_rows(rows.drop_last(), pid, i);
        let idx = choose|idx: int|
            0 <= idx < rows.drop_last().len() && rows.drop_last()[idx] == init[i]
                && rows.drop_last()[idx].pid == pid;
        assert(rows[idx] == rows.drop_last()[idx]);
    } else {
        assert(rows[rows.len() - 1] == kids(rows, pid)[i]);
    }
}

/// Every top-level tag is a row of the table with parent 0.
proof fn lemma_top_rows(rows: Seq<TagRow>, i: int)
    requires
        0 <= i < top_tags(rows).len(),
    ensures
        exists|idx: int| 0 <= idx < rows.len() && rows[idx] == top_tags(rows)[i] && rows[idx].pid == 0,
    decreases rows.len(),
{
    let init = top_tags(rows.drop_last());
    if i < init.len() {
        lemma_top_rows(rows.drop_last(), i);
        let idx = choose|idx: int|
            0 <= idx < rows.drop_last().len() && rows.drop_last()[idx] == init[i]
                && rows.drop_last()[idx].pid == 0;
        assert(rows[idx] == rows.drop_last()[idx]);
    } else {
        assert(rows[rows.len() - 1] == top_tags(rows)[i]);
    }
}

proof fn lemma_node_deepen(n: TagNode, rows: Seq<TagRow>, c: Seq<int>, depth: nat, extra: nat)
    requires
        ids_distinct(rows),
        no_zero_id(rows),
        chain_ok(rows, c),
        c.len() + depth >= rows.len() + 1,
        node_ok(n, rows, rows[c.last()], depth),
    ensures
        node_ok(n, rows, rows[c.last()], depth + extra),
    decreases depth,
{
    lemma_chain_len(rows, c);
    let row = rows[c.last()];
    let ks = kids(rows, row.id);
    let ns = n.children@;
    assert(depth > 0);
    assert forall|i: int| 0 <= i < ns.len() implies node_ok(
        #[trigger] ns[i],
        rows,
        ks[i],
        ((depth + extra) - 1) as nat,
    ) by {
        lemma_kids_rows(rows, row.id, i);
        let idx = choose|idx: int| 0 <= idx < rows.len() && rows[idx] == ks[i] && rows[idx].pid == row.id;
        let c2 = c.push(idx);
        assert(chain_ok(rows, c2)) by {
            assert forall|j: int| 1 <= j < c2.len() implies rows[#[trigger] c2[j]].pid
                == rows[c2[j - 1]].id by {
                if j < c.len() {
                    assert(c2[j] == c[j]);
                    assert(c2[j - 1] == c[j - 1]);
                } else {
                    assert(c2[j] == idx);
                    assert(c2[j - 1] == c.last());
                }
            }
            assert forall|j: int| 0 <= j < c2.len() implies 0 <= #[trigger] c2[j] < rows.len() by {
                if j < c.len() {
                    assert(c2[j] == c[j]);
                }
            }
        }
        assert(c2.last() == idx);
        lemma_node_deepen(ns[i], rows, c2, (depth - 1) as nat, extra);
    }
}

/// Law: with distinct ids and none of them 0, the tree returned by
/// `tag_tree` is the whole hierarchy: allowing any number of further levels
/// describes the same trees.
pub proof fn lemma_tag_tree_complete(rows: Seq<TagRow>, ns: Seq<TagNode>, extra: nat)
    requires
        ids_distinct(rows),
        no_zero_id(rows),
        ns.len() == top_tags(rows).len(),
        forall|j: int| 0 <= j < ns.len() ==> node_ok(#[trigger] ns[j], rows, top_tags(rows)[j], rows.len()),
    ensures
        forall|j: int|
            0 <= j < ns.len() ==> node_ok(#[trigger] ns[j], rows, top_tags(rows)[j], rows.len() + extra),
{
    assert forall|j: int| 0 <= j < ns.len() implies node_ok(
        #[trigger] ns[j],
        rows,
        top_tags(rows)[j],
        rows.len() + extra,
    ) by {
        lemma_top_rows(rows, j);
        let idx = choose|idx: int| 0 <= idx < rows.len() && rows[idx] == top_tags(rows)[j] && rows[idx].pid == 0;
        let c = seq![idx];
        assert(chain_ok(rows, c));
        lemma_node_deepen(ns[j], rows, c, rows.len(), extra);
    }
}

} // verus!
