//! Hierarchies: trees of nodes, each standing for one requirement.
//!
//! A tree is read in pre-order: a node, then the trees of its children from
//! first to last. What must hold of a tree (no node identifier twice, every
//! requirement known) is stated over that listing.

use vstd::prelude::*;
use crate::ident::{contains_id, embedding, find, lemma_position, Identified};
use crate::model::SpecHierarchy;

verus! {

/// One line of the pre-order listing of a hierarchy: a node's identifier and
/// the identifier of the requirement it stands for.
#[derive(Debug, Clone, PartialEq, Eq)]
pub struct HierarchyEntry {
    pub node: String,
    pub object: String,
}

impl Identified for HierarchyEntry {
    open spec fn id(&self) -> Seq<char> {
        self.node@
    }

    fn identifier(&self) -> (name: &String) {
        &self.node
    }
}

/// The line that `node` itself contributes to a listing.
pub open spec fn entry_of(node: SpecHierarchy) -> HierarchyEntry {
    HierarchyEntry { node: node.identifier, object: node.object }
}

/// The pre-order listing of the tree under `node`, `node` first.
pub open spec fn node_entries(node: SpecHierarchy) -> Seq<HierarchyEntry>
    decreases node, 1int,
{
    seq![entry_of(node)] + forest_entries(node.children@)
}

/// The pre-order listing of the trees `nodes`, one after the other.
pub open spec fn forest_entries(nodes: Seq<SpecHierarchy>) -> Seq<HierarchyEntry>
    decreases nodes, 0int,
{
    if nodes.len() == 0 {
        Seq::empty()
    } else {
        forest_entries(nodes.drop_last()) + node_entries(nodes.last())
    }
}

/// The listing of two runs of trees is the listing of the first followed by
/// that of the second.
pub proof fn lemma_entries_concat(front: Seq<SpecHierarchy>, back: Seq<SpecHierarchy>)
    ensures
        forest_entries(front + back) == forest_entries(front) + forest_entries(back),
    decreases back.len(),
{
    if back.len() == 0 {
        assert(front + back =~= front);
        assert(forest_entries(front) + forest_entries(back) =~= forest_entries(front));
    } else {
        let whole = front + back;
        assert(whole.drop_last() =~= front + back.drop_last());
        assert(whole.last() == back.last());
        lemma_entries_concat(front, back.drop_last());
        assert(forest_entries(whole) =~= forest_entries(front) + forest_entries(back));
    }
}

/// The listing of a run of trees, split at the tree with index `k`.
pub proof fn lemma_entries_split(nodes: Seq<SpecHierarchy>, k: int)
    requires
        0 <= k < nodes.len(),
    ensures
        forest_entries(nodes) == forest_entries(nodes.take(k)) + node_entries(nodes[k])
            + forest_entries(nodes.skip(k + 1)),
        forest_entries(nodes.take(k + 1)) == forest_entries(nodes.take(k)) + node_entries(
            nodes[k],
        ),
{
    let upto = nodes.take(k + 1);
    assert(upto.drop_last() =~= nodes.take(k));
    assert(upto.last() == nodes[k]);
    assert(nodes =~= upto + nodes.skip(k + 1));
    lemma_entries_concat(upto, nodes.skip(k + 1));
}

/// Appends the pre-order listing of `nodes` to `out`.
fn collect(nodes: &Vec<SpecHierarchy>, out: &mut Vec<HierarchyEntry>)
    ensures
        final(out)@ == old(out)@ + forest_entries(nodes@),
    decreases nodes,
{
    let mut i: usize = 0;
    proof {
        assert(old(out)@ + forest_entries(nodes@.take(0)) =~= old(out)@);
    }
    while i < nodes.len()
        invariant
            i <= nodes.len(),
            out@ == old(out)@ + forest_entries(nodes@.take(i as int)),
        decreases nodes.len() - i,
    {
        let ghost before = out@;
        let node = &nodes[i];
        out.push(HierarchyEntry { node: node.identifier.clone(), object: node.object.clone() });
        collect(&node.children, out);
        proof {
            lemma_entries_split(nodes@, i as int);
            assert(out@ =~= before + node_entries(nodes@[i as int]));
            assert(out@ =~= old(out)@ + forest_entries(nodes@.take(i + 1)));
        }
        i = i + 1;
    }
    proof {
        assert(nodes@.take(nodes.len() as int) =~= nodes@);
    }
}

/// The pre-order listing of the trees `nodes`.
pub fn flatten(nodes: &Vec<SpecHierarchy>) -> (entries: Vec<HierarchyEntry>)
    ensures
        entries@ == forest_entries(nodes@),
{
    let mut entries: Vec<HierarchyEntry> = Vec::new();
    collect(nodes, &mut entries);
    proof {
        assert(entries@ =~= forest_entries(nodes@));
    }
    entries
}

/// The pre-order listing of the trees `nodes`, followed by that of the tree
/// under `extra`.
pub fn flatten_with(nodes: &Vec<SpecHierarchy>, extra: &SpecHierarchy) -> (entries: Vec<
    HierarchyEntry,
>)
    ensures
        entries@ == forest_entries(nodes@) + node_entries(*extra),
{
    let mut entries = flatten(nodes);
    entries.push(HierarchyEntry { node: extra.identifier.clone(), object: extra.object.clone() });
    collect(&extra.children, &mut entries);
    proof {
        assert(entries@ =~= forest_entries(nodes@) + node_entries(*extra));
    }
    entries
}

/// The pre-order listing of the tree under `node`, `node` first.
pub fn flatten_node(node: &SpecHierarchy) -> (entries: Vec<HierarchyEntry>)
    ensures
        entries@ == node_entries(*node),
{
    let mut entries: Vec<HierarchyEntry> = Vec::new();
    entries.push(HierarchyEntry { node: node.identifier.clone(), object: node.object.clone() });
    collect(&node.children, &mut entries);
    proof {
        assert(entries@ =~= node_entries(*node));
    }
    entries
}

/// `after` is `before` with `extra` appended to the children of the node
/// `parent`, somewhere in the tree under it.
pub open spec fn node_inserted(
    before: SpecHierarchy,
    after: SpecHierarchy,
    parent: Seq<char>,
    extra: SpecHierarchy,
) -> bool
    decreases before, 1int,
{
    &&& after.identifier == before.identifier
    &&& after.object == before.object
    &&& after.last_change == before.last_change
    &&& if before.identifier@ == parent {
        after.children@ == before.children@.push(extra)
    } else {
        forest_inserted(before.children@, after.children@, parent, extra)
    }
}

/// `after` differs from `before` at most in the tree with index `k`.
pub open spec fn same_but(before: Seq<SpecHierarchy>, after: Seq<SpecHierarchy>, k: int) -> bool {
    &&& after.len() == before.len()
    &&& forall|j: int| 0 <= j < before.len() && j != k ==> #[trigger] after[j] == before[j]
}

/// `after` is `before` with `extra` appended to the children of the node
/// `parent`, in one of the trees; the other trees are as they were.
pub open spec fn forest_inserted(
    before: Seq<SpecHierarchy>,
    after: Seq<SpecHierarchy>,
    parent: Seq<char>,
    extra: SpecHierarchy,
) -> bool
    decreases before, 0int,
{
    exists|k: int|
        {
            &&& 0 <= k < before.len()
            &&& same_but(before, after, k)
            &&& node_inserted(#[trigger] before[k], after[k], parent, extra)
        }
}

/// `after` is `before` with `extra` as a new last child: of the node
/// `parent` where one is named, else of the root.
pub open spec fn grafted(
    before: Seq<SpecHierarchy>,
    after: Seq<SpecHierarchy>,
    parent: Option<Seq<char>>,
    extra: SpecHierarchy,
) -> bool {
    match parent {
        None => after == before.push(extra),
        Some(p) => forest_inserted(before, after, p, extra),
    }
}

/// A node identifier that occurs in the listing of a run of trees occurs in
/// the listing of one of them.
pub proof fn lemma_contains_in_tree(nodes: Seq<SpecHierarchy>, id: Seq<char>) -> (k: int)
    requires
        contains_id(forest_entries(nodes), id),
    ensures
        0 <= k < nodes.len(),
        contains_id(node_entries(nodes[k]), id),
    decreases nodes.len(),
{
    let listing = forest_entries(nodes);
    let w = choose|w: int| 0 <= w < listing.len() && #[trigger] listing[w].id() == id;
    assert(nodes.len() > 0);
    let front = forest_entries(nodes.drop_last());
    if w < front.len() {
        assert(front[w].id() == id);
        let k = lemma_contains_in_tree(nodes.drop_last(), id);
        assert(nodes.drop_last()[k] == nodes[k]);
        k
    } else {
        let last = node_entries(nodes.last());
        assert(last[w - front.len()].id() == id);
        nodes.len() - 1
    }
}

/// A node identifier that occurs in the listing of one of a run of trees
/// occurs in the listing of the run.
pub proof fn lemma_tree_in_forest(nodes: Seq<SpecHierarchy>, k: int, id: Seq<char>)
    requires
        0 <= k < nodes.len(),
        contains_id(node_entries(nodes[k]), id),
    ensures
        contains_id(forest_entries(nodes), id),
{
    lemma_entries_split(nodes, k);
    let own = node_entries(nodes[k]);
    let w = choose|w: int| 0 <= w < own.len() && #[trigger] own[w].id() == id;
    let offset = forest_entries(nodes.take(k)).len();
    assert(forest_entries(nodes)[offset + w] == own[w]);
}

/// Appends `extra` to the children of the node `parent`, which is known to
/// be in one of the trees.
fn insert_below(nodes: &mut Vec<SpecHierarchy>, parent: &String, extra: SpecHierarchy)
    requires
        contains_id(forest_entries(old(nodes)@), parent@),
    ensures
        forest_inserted(old(nodes)@, final(nodes)@, parent@, extra),
    decreases *old(nodes),
{
    let mut i: usize = 0;
    while i < nodes.len()
        invariant
            i <= nodes.len(),
            nodes@ == old(nodes)@,
            forall|j: int| 0 <= j < i ==> !contains_id(node_entries(#[trigger] nodes@[j]), parent@),
        decreases nodes.len() - i,
    {
        let listing = flatten_node(&nodes[i]);
        proof {
            lemma_position(listing@, parent@);
        }
        if find(&listing, parent).is_some() {
            let ghost before = nodes@[i as int];
            assert(decreases_to!(*old(nodes) => old(nodes)@[i as int].children));
            let current = &mut nodes[i];
            if current.identifier == *parent {
                current.children.push(extra);
            } else {
                proof {
                    let own = node_entries(before);
                    let w = choose|w: int| 0 <= w < own.len() && #[trigger] own[w].id() == parent@;
                    assert(w > 0);
                    assert(forest_entries(before.children@)[w - 1] == own[w]);
                }
                insert_below(&mut current.children, parent, extra);
            }
            proof {
                assert(same_but(old(nodes)@, nodes@, i as int));
                assert(node_inserted(old(nodes)@[i as int], nodes@[i as int], parent@, extra));
            }
            return ;
        }
        i = i + 1;
    }
    proof {
        let k = lemma_contains_in_tree(nodes@, parent@);
        assert(!contains_id(node_entries(nodes@[k]), parent@));
    }
}

/// Appends `extra` to the children of the node `parent`, and gives nothing
/// back; or, where no node of the trees has that identifier, leaves the
/// trees as they are and gives `extra` back.
pub fn insert_under(nodes: &mut Vec<SpecHierarchy>, parent: &String, extra: SpecHierarchy) -> (rest:
    Option<SpecHierarchy>)
    ensures
        match rest {
            None => {
                &&& contains_id(forest_entries(old(nodes)@), parent@)
                &&& forest_inserted(old(nodes)@, final(nodes)@, parent@, extra)
            },
            Some(back) => {
                &&& !contains_id(forest_entries(old(nodes)@), parent@)
                &&& back == extra
                &&& *final(nodes) == *old(nodes)
            },
        },
{
    let listing = flatten(nodes);
    proof {
        lemma_position(listing@, parent@);
    }
    if find(&listing, parent).is_some() {
        insert_below(nodes, parent, extra);
        None
    } else {
        Some(extra)
    }
}

/// `listing` with `part` put in before its line `at`.
pub open spec fn spliced(listing: Seq<HierarchyEntry>, at: int, part: Seq<HierarchyEntry>) -> Seq<
    HierarchyEntry,
> {
    listing.take(at) + part + listing.skip(at)
}

/// Where `extra` was inserted under a node of a tree, the listing of the
/// tree afterwards is its listing before with the listing of `extra` put in
/// at some line.
pub proof fn lemma_node_inserted_listing(
    before: SpecHierarchy,
    after: SpecHierarchy,
    parent: Seq<char>,
    extra: SpecHierarchy,
) -> (at: int)
    requires
        node_inserted(before, after, parent, extra),
    ensures
        0 <= at <= node_entries(before).len(),
        node_entries(after) == spliced(node_entries(before), at, node_entries(extra)),
    decreases before, 1int,
{
    let head = seq![entry_of(before)];
    assert(entry_of(after) == entry_of(before));
    if before.identifier@ == parent {
        let grown = after.children@;
        assert(grown.drop_last() =~= before.children@);
        assert(grown.last() == extra);
        assert(forest_entries(grown) == forest_entries(before.children@) + node_entries(extra));
        let at = node_entries(before).len() as int;
        assert(node_entries(after) =~= spliced(node_entries(before), at, node_entries(extra)));
        at
    } else {
        let inner = lemma_forest_inserted_listing(
            before.children@,
            after.children@,
            parent,
            extra,
        );
        let at = inner + 1;
        assert(node_entries(after) =~= spliced(node_entries(before), at, node_entries(extra)));
        at
    }
}

/// Where `extra` was inserted under a node of one of a run of trees, the
/// listing of the run afterwards is its listing before with the listing of
/// `extra` put in at some line.
pub proof fn lemma_forest_inserted_listing(
    before: Seq<SpecHierarchy>,
    after: Seq<SpecHierarchy>,
    parent: Seq<char>,
    extra: SpecHierarchy,
) -> (at: int)
    requires
        forest_inserted(before, after, parent, extra),
    ensures
        0 <= at <= forest_entries(before).len(),
        forest_entries(after) == spliced(forest_entries(before), at, node_entries(extra)),
    decreases before, 0int,
{
    let k = choose|k: int|
        {
            &&& 0 <= k < before.len()
            &&& same_but(before, after, k)
            &&& node_inserted(#[trigger] before[k], after[k], parent, extra)
        };
    let inner = lemma_node_inserted_listing(before[k], after[k], parent, extra);
    lemma_entries_split(before, k);
    lemma_entries_split(after, k);
    assert(after.take(k) =~= before.take(k));
    assert(after.skip(k + 1) =~= before.skip(k + 1));
    let left = forest_entries(before.take(k));
    let at = left.len() + inner;
    assert(forest_entries(after) =~= spliced(forest_entries(before), at, node_entries(extra)));
    at
}

/// Where `extra` was grafted onto a run of trees, the listing of the run
/// afterwards is its listing before with the listing of `extra` put in at
/// some line.
pub proof fn lemma_grafted_listing(
    before: Seq<SpecHierarchy>,
    after: Seq<SpecHierarchy>,
    parent: Option<Seq<char>>,
    extra: SpecHierarchy,
) -> (at: int)
    requires
        grafted(before, after, parent, extra),
    ensures
        0 <= at <= forest_entries(before).len(),
        forest_entries(after) == spliced(forest_entries(before), at, node_entries(extra)),
{
    match parent {
        None => {
            assert(after.drop_last() =~= before);
            assert(after.last() == extra);
            let at = forest_entries(before).len() as int;
            assert(forest_entries(after) =~= spliced(
                forest_entries(before),
                at,
                node_entries(extra),
            ));
            at
        },
        Some(p) => lemma_forest_inserted_listing(before, after, p, extra),
    }
}

/// In the tree under `node`, a node with the identifier `ancestor` has the
/// node `target` in the tree under it, or is that node.
pub open spec fn node_has_ancestor(node: SpecHierarchy, ancestor: Seq<char>, target: Seq<char>) -> bool
    decreases node, 1int,
{
    ||| node.identifier@ == ancestor && contains_id(node_entries(node), target)
    ||| forest_has_ancestor(node.children@, ancestor, target)
}

/// In one of the trees `nodes`, a node with the identifier `ancestor` has
/// the node `target` in the tree under it, or is that node.
pub open spec fn forest_has_ancestor(
    nodes: Seq<SpecHierarchy>,
    ancestor: Seq<char>,
    target: Seq<char>,
) -> bool
    decreases nodes, 0int,
{
    exists|k: int| 0 <= k < nodes.len() && node_has_ancestor(#[trigger] nodes[k], ancestor, target)
}

/// An ancestor of a node of a tree, and the node, are both in the listing
/// of the tree.
pub proof fn lemma_node_ancestor_listed(node: SpecHierarchy, ancestor: Seq<char>, target: Seq<char>)
    requires
        node_has_ancestor(node, ancestor, target),
    ensures
        contains_id(node_entries(node), ancestor),
        contains_id(node_entries(node), target),
    decreases node, 1int,
{
    let own = node_entries(node);
    if node.identifier@ == ancestor && contains_id(own, target) {
        assert(own[0].id() == ancestor);
    } else {
        lemma_forest_ancestor_listed(node.children@, ancestor, target);
        let below = forest_entries(node.children@);
        let a = choose|a: int| 0 <= a < below.len() && #[trigger] below[a].id() == ancestor;
        let t = choose|t: int| 0 <= t < below.len() && #[trigger] below[t].id() == target;
        assert(own[a + 1].id() == ancestor);
        assert(own[t + 1].id() == target);
    }
}

/// An ancestor of a node of a run of trees, and the node, are both in the
/// listing of the run.
pub proof fn lemma_forest_ancestor_listed(
    nodes: Seq<SpecHierarchy>,
    ancestor: Seq<char>,
    target: Seq<char>,
)
    requires
        forest_has_ancestor(nodes, ancestor, target),
    ensures
        contains_id(forest_entries(nodes), ancestor),
        contains_id(forest_entries(nodes), target),
    decreases nodes, 0int,
{
    let k = choose|k: int|
        0 <= k < nodes.len() && node_has_ancestor(#[trigger] nodes[k], ancestor, target);
    lemma_node_ancestor_listed(nodes[k], ancestor, target);
    lemma_tree_in_forest(nodes, k, ancestor);
    lemma_tree_in_forest(nodes, k, target);
}

/// `after` is the tree `before` without the nodes below its root that stand
/// for the requirement `object`, each gone with the tree under it.
pub open spec fn node_pruned(before: SpecHierarchy, after: SpecHierarchy, object: Seq<char>) -> bool
    decreases before, 1int,
{
    &&& after.identifier == before.identifier
    &&& after.object == before.object
    &&& after.last_change == before.last_change
    &&& forest_pruned(before.children@, after.children@, object)
}

/// `after` is the run of trees `before` without the nodes that stand for
/// the requirement `object`, each gone with the tree under it; what stays
/// is in the order in which it stood.
pub open spec fn forest_pruned(
    before: Seq<SpecHierarchy>,
    after: Seq<SpecHierarchy>,
    object: Seq<char>,
) -> bool
    decreases before, 0int,
{
    if before.len() == 0 {
        after.len() == 0
    } else if before.last().object@ == object {
        forest_pruned(before.drop_last(), after, object)
    } else {
        &&& after.len() > 0
        &&& node_pruned(before.last(), after.last(), object)
        &&& forest_pruned(before.drop_last(), after.drop_last(), object)
    }
}

/// Takes out of the trees `nodes` every node that stands for the
/// requirement `object`, with the tree under it.
pub fn prune(nodes: &mut Vec<SpecHierarchy>, object: &String)
    ensures
        forest_pruned(old(nodes)@, final(nodes)@, object@),
    decreases *old(nodes),
{
    let mut i: usize = 0;
    let ghost mut done: int = 0;
    proof {
        assert(old(nodes)@.take(0) =~= Seq::<SpecHierarchy>::empty());
        assert(nodes@.take(0) =~= Seq::<SpecHierarchy>::empty());
    }
    while i < nodes.len()
        invariant
            0 <= i <= nodes.len(),
            0 <= done <= old(nodes)@.len(),
            nodes@.len() - i == old(nodes)@.len() - done,
            forall|t: int|
                0 <= t < nodes@.len() - i ==> #[trigger] nodes@[i + t] == old(nodes)@[done + t],
            forest_pruned(old(nodes)@.take(done), nodes@.take(i as int), object@),
        decreases nodes.len() - i,
    {
        let ghost kept = nodes@.take(i as int);
        proof {
            assert(nodes@[i + 0] == old(nodes)@[done + 0]);
            assert(old(nodes)@.take(done + 1).drop_last() =~= old(nodes)@.take(done));
            assert(old(nodes)@.take(done + 1).last() == old(nodes)@[done]);
        }
        if nodes[i].object == *object {
            let ghost current = nodes@;
            nodes.remove(i);
            proof {
                assert(nodes@.take(i as int) =~= kept);
                assert forall|t: int| 0 <= t < nodes@.len() - i implies #[trigger] nodes@[i + t]
                    == old(nodes)@[done + 1 + t] by {
                    assert(nodes@[i + t] == current[i + (t + 1)]);
                }
                done = done + 1;
            }
        } else {
            let ghost current = nodes@;
            assert(decreases_to!(*old(nodes) => old(nodes)@[done].children));
            let node = &mut nodes[i];
            prune(&mut node.children, object);
            proof {
                assert(nodes@.take(i + 1).drop_last() =~= kept);
                assert(nodes@.take(i + 1).last() == nodes@[i as int]);
                assert(node_pruned(old(nodes)@[done], nodes@[i as int], object@));
                assert forall|t: int| 0 <= t < nodes@.len() - (i + 1) implies #[trigger] nodes@[i
                    + 1 + t] == old(nodes)@[done + 1 + t] by {
                    assert(nodes@[i + 1 + t] == current[i + (t + 1)]);
                }
                done = done + 1;
            }
            i = i + 1;
        }
    }
    proof {
        assert(old(nodes)@.take(done) =~= old(nodes)@);
        assert(nodes@.take(i as int) =~= nodes@);
    }
}

/// `places`, each moved up by `by`.
pub open spec fn shifted(places: Seq<int>, by: int) -> Seq<int> {
    Seq::new(places.len(), |i: int| places[i] + by)
}

/// The listing of a pruned tree is made of lines of the listing before, in
/// their order, and below the root none of them stands for the requirement
/// that was pruned.
pub proof fn lemma_node_pruned_listing(
    before: SpecHierarchy,
    after: SpecHierarchy,
    object: Seq<char>,
) -> (places: Seq<int>)
    requires
        node_pruned(before, after, object),
    ensures
        after.object == before.object,
        embedding(node_entries(after), node_entries(before), places),
        forall|i: int|
            1 <= i < node_entries(after).len() ==> (#[trigger] node_entries(after)[i]).object@
                != object,
    decreases before, 1int,
{
    let below = lemma_forest_pruned_listing(before.children@, after.children@, object);
    let places = seq![0int] + shifted(below, 1);
    let part = node_entries(after);
    let whole = node_entries(before);
    let inner = forest_entries(after.children@);
    assert(entry_of(after) == entry_of(before));
    assert forall|i: int| 0 <= i < part.len() implies 0 <= #[trigger] places[i] < whole.len()
        && part[i] == whole[places[i]] by {
        if i > 0 {
            assert(places[i] == below[i - 1] + 1);
            assert(part[i] == inner[i - 1]);
        }
    }
    assert forall|i: int, j: int| 0 <= i < j < part.len() implies #[trigger] places[i]
        < #[trigger] places[j] by {
        if i > 0 {
            assert(below[i - 1] < below[j - 1]);
        } else {
            assert(places[j] == below[j - 1] + 1);
        }
    }
    assert forall|i: int| 1 <= i < part.len() implies (#[trigger] part[i]).object@ != object by {
        assert(part[i] == inner[i - 1]);
    }
    places
}

/// The listing of a pruned run of trees is made of lines of the listing
/// before, in their order, and none of them stands for the requirement that
/// was pruned.
pub proof fn lemma_forest_pruned_listing(
    before: Seq<SpecHierarchy>,
    after: Seq<SpecHierarchy>,
    object: Seq<char>,
) -> (places: Seq<int>)
    requires
        forest_pruned(before, after, object),
    ensures
        embedding(forest_entries(after), forest_entries(before), places),
        forall|i: int|
            0 <= i < forest_entries(after).len() ==> (#[trigger] forest_entries(after)[i]).object@
                != object,
    decreases before, 0int,
{
    if before.len() == 0 {
        assert(after =~= Seq::<SpecHierarchy>::empty());
        Seq::empty()
    } else if before.last().object@ == object {
        lemma_forest_pruned_listing(before.drop_last(), after, object)
    } else {
        let front = lemma_forest_pruned_listing(before.drop_last(), after.drop_last(), object);
        let own = lemma_node_pruned_listing(before.last(), after.last(), object);
        let offset = forest_entries(before.drop_last()).len() as int;
        let places = front + shifted(own, offset);
        let part = forest_entries(after);
        let whole = forest_entries(before);
        let part_front = forest_entries(after.drop_last());
        let part_own = node_entries(after.last());
        assert(part == part_front + part_own);
        assert forall|i: int| 0 <= i < part.len() implies 0 <= #[trigger] places[i] < whole.len()
            && part[i] == whole[places[i]] by {
            if i < part_front.len() {
                assert(places[i] == front[i]);
            } else {
                let m = i - part_front.len();
                assert(places[i] == own[m] + offset);
                assert(part[i] == part_own[m]);
            }
        }
        assert forall|i: int, j: int| 0 <= i < j < part.len() implies #[trigger] places[i]
            < #[trigger] places[j] by {
            if j < part_front.len() {
                assert(front[i] < front[j]);
            } else if i < part_front.len() {
                assert(places[i] == front[i]);
                assert(places[j] == own[j - part_front.len()] + offset);
            } else {
                assert(own[i - part_front.len()] < own[j - part_front.len()]);
            }
        }
        assert forall|i: int| 0 <= i < part.len() implies (#[trigger] part[i]).object@
            != object by {
            if i < part_front.len() {
                assert(part[i] == part_front[i]);
                assert(part_front[i].object@ != object);
            } else {
                let m = i - part_front.len();
                assert(part[i] == part_own[m]);
                if m == 0 {
                    assert(part_own[0] == entry_of(after.last()));
                    assert(after.last().object == before.last().object);
                } else {
                    assert(part_own[m].object@ != object);
                }
            }
        }
        places
    }
}

} // verus!
