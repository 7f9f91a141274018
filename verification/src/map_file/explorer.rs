//! Walking through the tree of a file one choice at a time: the reader picks
//! a child by its number, or `-1` to go back to the parent.

use vstd::prelude::*;
use crate::map_file::reading::{lemma_view_children, Node, NodeView};
use crate::text::{chars_are, chars_of, parse_usize, trim_chars, trimmed, unsigned_text_value};

verus! {

/// What the reader chose.
#[derive(Debug, Clone, Copy, PartialEq, Eq, Structural)]
pub enum Selection {
    /// Back to the parent.
    Back,
    /// The child with this number.
    Child(usize),
    /// Nothing that can be read: the question is asked again.
    Invalid,
}

/// The choice written in `input`: `-1` for back, a number for a child, white
/// space around it ignored.
pub open spec fn selection_of(input: Seq<char>) -> Selection {
    let t = trimmed(input);
    if t == "-1"@ {
        Selection::Back
    } else {
        match unsigned_text_value(t, usize::MAX as nat) {
            Some(v) => Selection::Child(v as usize),
            None => Selection::Invalid,
        }
    }
}

/// Reads the reader's choice (see `selection_of`).
pub fn parse_selection(input: &str) -> (r: Selection)
    ensures
        r == selection_of(input@),
{
    let cs = chars_of(input);
    let t = trim_chars(&cs);
    if chars_are(&t, "-1") {
        return Selection::Back;
    }
    match parse_usize(&t) {
        Some(v) => Selection::Child(v),
        None => Selection::Invalid,
    }
}

/// Whether each step of `path` names an existing child.
pub open spec fn path_valid(root: NodeView, path: Seq<usize>) -> bool
    decreases path.len(),
{
    path.len() == 0 || (path[0] < root.children.len() && path_valid(
        root.children[path[0] as int],
        path.drop_first(),
    ))
}

/// The element reached from `root` by following `path`.
pub open spec fn node_at(root: NodeView, path: Seq<usize>) -> NodeView
    decreases path.len(),
{
    if path.len() == 0 {
        root
    } else {
        node_at(root.children[path[0] as int], path.drop_first())
    }
}

/// Whether the choice can be followed: a child must exist.
pub open spec fn selection_allowed(root: NodeView, path: Seq<usize>, s: Selection) -> bool {
    s matches Selection::Child(i) ==> i < node_at(root, path).children.len()
}

/// The path after one choice: back to the parent (the root stays where it is),
/// down to the chosen child, or unchanged.
pub open spec fn path_after(path: Seq<usize>, s: Selection) -> Seq<usize> {
    match s {
        Selection::Back => if path.len() > 0 {
            path.drop_last()
        } else {
            path
        },
        Selection::Child(i) => path.push(i),
        Selection::Invalid => path,
    }
}

/// Following one more step to an existing child stays on a valid path and
/// reaches that child.
pub proof fn lemma_node_at_push(root: NodeView, path: Seq<usize>, i: usize)
    requires
        path_valid(root, path),
        i < node_at(root, path).children.len(),
    ensures
        path_valid(root, path.push(i)),
        node_at(root, path.push(i)) == node_at(root, path).children[i as int],
    decreases path.len(),
{
    let pushed = path.push(i);
    if path.len() > 0 {
        let child = root.children[path[0] as int];
        assert(pushed[0] == path[0]);
        assert(pushed.drop_first() =~= path.drop_first().push(i));
        lemma_node_at_push(child, path.drop_first(), i);
    } else {
        let child = root.children[i as int];
        assert(pushed[0] == i);
        assert(pushed.drop_first() =~= Seq::<usize>::empty());
        assert(path_valid(child, pushed.drop_first()));
        assert(node_at(child, pushed.drop_first()) == child);
    }
}

/// Stepping back from a valid path leaves a valid path.
pub proof fn lemma_path_valid_drop_last(root: NodeView, path: Seq<usize>)
    requires
        path_valid(root, path),
        path.len() > 0,
    ensures
        path_valid(root, path.drop_last()),
    decreases path.len(),
{
    if path.len() > 1 {
        assert(path.drop_last().drop_first() =~= path.drop_first().drop_last());
        lemma_path_valid_drop_last(root.children[path[0] as int], path.drop_first());
    }
}

/// Going down to a child shows that child, and going back from it returns
/// to the element the reader was at.
pub proof fn lemma_child_then_back(root: NodeView, path: Seq<usize>, i: usize)
    requires
        path_valid(root, path),
        i < node_at(root, path).children.len(),
    ensures
        node_at(root, path_after(path, Selection::Child(i))) == node_at(root, path).children[i as int],
        path_after(path_after(path, Selection::Child(i)), Selection::Back) == path,
{
    lemma_node_at_push(root, path, i);
    assert(path.push(i).drop_last() =~= path);
}

/// The element reached from `root` by following `path`.
pub fn node_at_path<'a>(root: &'a Node, path: &Vec<usize>) -> (r: &'a Node)
    requires
        path_valid(root@, path@),
    ensures
        r@ == node_at(root@, path@),
{
    let mut cur: &'a Node = root;
    let mut i: usize = 0;
    assert(path@.skip(0) == path@);
    while i < path.len()
        invariant
            0 <= i <= path.len(),
            path_valid(cur@, path@.skip(i as int)),
            node_at(root@, path@) == node_at(cur@, path@.skip(i as int)),
        decreases path.len() - i,
    {
        let k = path[i];
        assert(path@.skip(i as int)[0] == k);
        assert(path@.skip(i as int).drop_first() == path@.skip(i + 1));
        proof {
            lemma_view_children(*cur);
        }
        cur = &cur.children[k];
        i = i + 1;
    }
    cur
}

/// One step of the exploration of a tree: the path to the element shown next
/// after the reader's choice at the element at `path`.
pub fn explore_children(root: &Node, path: &Vec<usize>, selection: Selection) -> (r: Vec<usize>)
    requires
        path_valid(root@, path@),
        selection_allowed(root@, path@, selection),
    ensures
        r@ == path_after(path@, selection),
        path_valid(root@, r@),
{
    let mut r: Vec<usize> = Vec::new();
    for i in 0..path.len()
        invariant
            r@ == path@.take(i as int),
    {
        r.push(path[i]);
        assert(path@.take(i + 1) =~= path@.take(i as int).push(path@[i as int]));
    }
    assert(path@.take(path.len() as int) == path@);
    match selection {
        Selection::Back => {
            if r.len() > 0 {
                r.pop();
                proof {
                    lemma_path_valid_drop_last(root@, path@);
                }
            }
        },
        Selection::Child(i) => {
            r.push(i);
            proof {
                lemma_node_at_push(root@, path@, i);
            }
        },
        Selection::Invalid => {},
    }
    r
}

} // verus!
