//! The hierarchy tree: paths from the root to a node, and the search for the
//! node of an identifier.

use crate::model::HierarchyNode;
use vstd::prelude::*;

verus! {

/// The children of a hierarchy node; a node without a list has none.
pub open spec fn children_of(node: HierarchyNode) -> Seq<HierarchyNode> {
    match node.children {
        Some(kids) => kids@,
        None => Seq::empty(),
    }
}

/// The node that `path` leads to from `node`: each element of the path is
/// the index of a child.
pub open spec fn node_at(node: HierarchyNode, path: Seq<usize>) -> Option<HierarchyNode>
    decreases path.len(),
{
    if path.len() == 0 {
        Some(node)
    } else if path[0] < children_of(node).len() {
        node_at(children_of(node)[path[0] as int], path.drop_first())
    } else {
        None
    }
}

/// The path from `node` to the first node, in depth-first order, whose
/// identifier is `id`.
pub open spec fn find_path(node: HierarchyNode, id: Seq<char>) -> Option<Seq<usize>>
    decreases node, 0int,
{
    if node.id@ == id {
        Some(Seq::empty())
    } else {
        match node.children {
            Some(kids) => find_in_children(kids@, id, 0),
            None => None,
        }
    }
}

/// The path to the first node of that identifier below the children at or
/// after `from`, starting with the index of the child.
pub open spec fn find_in_children(kids: Seq<HierarchyNode>, id: Seq<char>, from: int) -> Option<
    Seq<usize>,
>
    decreases kids, kids.len() - from,
{
    if from < 0 || from >= kids.len() {
        None
    } else {
        match find_path(kids[from], id) {
            Some(p) => Some(seq![from as usize] + p),
            None => find_in_children(kids, id, from + 1),
        }
    }
}

/// The path that [`find_path`] finds leads to a node of that identifier.
pub proof fn lemma_find_path_leads(node: HierarchyNode, id: Seq<char>)
    ensures
        find_path(node, id) matches Some(p) ==> (node_at(node, p) matches Some(n) && n.id@ == id),
    decreases node, children_of(node).len() + 1,
{
    if node.id@ != id {
        match node.children {
            Some(kids) => {
                lemma_find_in_children_leads(node, kids@, id, 0);
            },
            None => {},
        }
    }
}

proof fn lemma_find_in_children_leads(
    node: HierarchyNode,
    kids: Seq<HierarchyNode>,
    id: Seq<char>,
    from: int,
)
    requires
        node.children matches Some(v) && v@ == kids,
    ensures
        find_in_children(kids, id, from) matches Some(p) ==> (node_at(node, p) matches Some(n)
            && n.id@ == id),
    decreases node, kids.len() - from,
{
    if 0 <= from < kids.len() {
        assert(kids.len() == node.children->Some_0.len());
        match find_path(kids[from], id) {
            Some(p) => {
                lemma_find_path_leads(kids[from], id);
                let full = seq![from as usize] + p;
                assert(full.drop_first() =~= p);
                assert(full[0] == from as usize);
            },
            None => {
                lemma_find_in_children_leads(node, kids, id, from + 1);
            },
        }
    }
}

/// The path from `node` to the first node, in depth-first order, whose
/// identifier is `id`.
pub fn search(node: &HierarchyNode, id: &String) -> (r: Option<Vec<usize>>)
    ensures
        match r {
            Some(p) => find_path(*node, id@) == Some(p@),
            None => find_path(*node, id@) is None,
        },
    decreases node,
{
    if node.id == *id {
        let p: Vec<usize> = Vec::new();
        assert(p@ =~= Seq::<usize>::empty());
        return Some(p);
    }
    match &node.children {
        None => None,
        Some(kids) => {
            let mut i: usize = 0;
            while i < kids.len()
                invariant
                    node.id@ != id@,
                    node.children is Some,
                    node.children->Some_0 == *kids,
                    i <= kids@.len(),
                    find_in_children(kids@, id@, 0) == find_in_children(kids@, id@, i as int),
                decreases kids@.len() - i,
            {
                match search(&kids[i], id) {
                    Some(mut p) => {
                        let ghost tail = p@;
                        p.insert(0, i);
                        assert(p@ =~= seq![i] + tail);
                        return Some(p);
                    },
                    None => {},
                }
                i += 1;
            }
            None
        },
    }
}

/// The node that `path` leads to from `root`.
pub fn descend<'a>(root: &'a HierarchyNode, path: &Vec<usize>) -> (r: Option<&'a HierarchyNode>)
    ensures
        match r {
            Some(n) => node_at(*root, path@) == Some(*n),
            None => node_at(*root, path@) is None,
        },
{
    let mut current: &'a HierarchyNode = root;
    let mut i: usize = 0;
    assert(path@.subrange(0, path@.len() as int) =~= path@);
    while i < path.len()
        invariant
            i <= path@.len(),
            node_at(*root, path@) == node_at(*current, path@.subrange(i as int, path@.len() as int)),
        decreases path@.len() - i,
    {
        let ghost rest = path@.subrange(i as int, path@.len() as int);
        assert(rest[0] == path@[i as int]);
        assert(rest.drop_first() =~= path@.subrange(i + 1, path@.len() as int));
        match &current.children {
            Some(kids) => {
                if path[i] < kids.len() {
                    current = &kids[path[i]];
                } else {
                    return None;
                }
            },
            None => {
                return None;
            },
        }
        i += 1;
    }
    Some(current)
}

} // verus!
