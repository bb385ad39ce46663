//! The table of contents: a label tree ordered by reading order, and the
//! resolution of a section index to the path of nodes that covers it.

use vstd::prelude::*;

verus! {

/// One node of the table of contents: the section it points at, its label,
/// and its subsections.
pub struct TableOfContentNode {
    /// The index of the section this node points at.
    pub index: usize,
    /// The displayed label of the node.
    pub name: String,
    /// The subsections of the node, in reading order.
    pub children: Vec<TableOfContentNode>,
}

/// The node selected among the siblings `toc[i..]`: the first `k` whose
/// section index covers `current` (that is, `toc[k].index <= current` and
/// `current` precedes the next sibling's index), or the last sibling when no
/// earlier one covers it.
pub open spec fn toc_select(toc: Seq<TableOfContentNode>, current: int, i: int) -> int
    decreases toc.len() - i,
{
    if i >= toc.len() - 1 {
        toc.len() - 1
    } else if toc[i].index <= current < toc[i + 1].index {
        i
    } else {
        toc_select(toc, current, i + 1)
    }
}

pub proof fn lemma_toc_select_range(toc: Seq<TableOfContentNode>, current: int, i: int)
    requires
        toc.len() >= 1,
        0 <= i <= toc.len() - 1,
    ensures
        i <= toc_select(toc, current, i) <= toc.len() - 1,
    decreases toc.len() - i,
{
    if i >= toc.len() - 1 {
    } else if toc[i].index <= current < toc[i + 1].index {
    } else {
        lemma_toc_select_range(toc, current, i + 1);
    }
}

/// The path of section indices from the root level down to the node whose
/// covered range contains `current`: empty when `current` precedes every
/// top-level node, and otherwise the selected node's section index followed
/// by the path within its children.
pub open spec fn toc_path(toc: Seq<TableOfContentNode>, current: int) -> Seq<usize>
    decreases toc,
    via toc_path_decreases
{
    if toc.len() == 0 || current < toc[0].index {
        Seq::<usize>::empty()
    } else {
        let i = toc_select(toc, current, 0);
        seq![toc[i].index] + toc_path(toc[i].children@, current)
    }
}

#[via_fn]
proof fn toc_path_decreases(toc: Seq<TableOfContentNode>, current: int) {
    if !(toc.len() == 0 || current < toc[0].index) {
        let i = toc_select(toc, current, 0);
        lemma_toc_select_range(toc, current, 0);
        assert(decreases_to!(toc => toc[i]));
        assert(decreases_to!(toc[i] => toc[i].children));
        assert(decreases_to!(toc[i].children => toc[i].children@));
    }
}

/// Scans a sibling list for the node whose covered range contains `current`.
fn toc_select_exec(toc: &Vec<TableOfContentNode>, current: usize) -> (r: usize)
    requires
        toc@.len() >= 1,
    ensures
        r == toc_select(toc@, current as int, 0),
        r < toc@.len(),
{
    let n = toc.len();
    let mut i: usize = 0;
    while i < n - 1
        invariant
            n == toc@.len(),
            n >= 1,
            0 <= i <= n - 1,
            toc_select(toc@, current as int, 0) == toc_select(toc@, current as int, i as int),
        decreases n - 1 - i,
    {
        if toc[i].index <= current && current < toc[i + 1].index {
            proof {
                assert(toc_select(toc@, current as int, i as int) == i);
            }
            return i;
        }
        i = i + 1;
    }
    i
}

/// Resolves `current` against the sibling list `toc`: the path (root to
/// node) of section indices of the nodes whose covered ranges contain
/// `current`, or the empty path when `current` precedes every node.
pub fn toc_index(toc: &Vec<TableOfContentNode>, current: usize) -> (r: Vec<usize>)
    ensures
        r@ == toc_path(toc@, current as int),
    decreases toc@,
{
    let mut res: Vec<usize> = Vec::new();
    if toc.len() == 0 || current < toc[0].index {
        proof {
            assert(res@ =~= toc_path(toc@, current as int));
        }
        return res;
    }
    let i = toc_select_exec(toc, current);
    res.push(toc[i].index);
    proof {
        assert(decreases_to!(toc@ => toc@[i as int]));
        assert(decreases_to!(toc@[i as int] => toc@[i as int].children));
        assert(decreases_to!(toc@[i as int].children => toc@[i as int].children@));
    }
    let mut rest = toc_index(&toc[i].children, current);
    res.append(&mut rest);
    proof {
        assert(res@ =~= toc_path(toc@, current as int));
    }
    res
}

} // verus!
