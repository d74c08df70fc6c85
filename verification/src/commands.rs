//! Edits built from a selection: each command reads the document and returns the delta that
//! carries the edit out, or the reason it cannot.
use vstd::prelude::*;
use std::collections::{HashMap, HashSet};
use vstd::std_specs::iter::IteratorSpec;
use crate::document::{
    fresh_node, CutLineType, Delta, Document, DocumentView, IdGen, Node, NodeId, NodeKind,
    NodeKindView, NodeOp, NodeOpView, NodeView, PresetAssignment, PresetAssignmentView, ShapeKind,
    ShapeKindView, Transform, ops_view,
};

verus! {

broadcast use vstd::std_specs::hash::group_hash_axioms;

/// Every way a command refuses.
#[derive(Debug)]
pub enum CmdError {
    /// A node or machine the command names is not there.
    NotFound,
    /// The node has no parent, and the command needs one.
    NoParent,
    /// The selection offers the command nothing to act on.
    EmptySelection,
    /// The geometry could not be built; the payload is the whole sentence.
    Geometry(String),
    /// A material assignment without a preset id.
    EmptyPresetId,
}

/// A `CmdError` with its text as characters.
pub enum CmdErrorView {
    NotFound,
    NoParent,
    EmptySelection,
    Geometry(Seq<char>),
    EmptyPresetId,
}

impl View for CmdError {
    type V = CmdErrorView;

    open spec fn view(&self) -> CmdErrorView {
        match self {
            CmdError::NotFound => CmdErrorView::NotFound,
            CmdError::NoParent => CmdErrorView::NoParent,
            CmdError::EmptySelection => CmdErrorView::EmptySelection,
            CmdError::Geometry(m) => CmdErrorView::Geometry(m@),
            CmdError::EmptyPresetId => CmdErrorView::EmptyPresetId,
        }
    }
}

impl PartialEq for CmdError {
    fn eq(&self, other: &Self) -> (r: bool) {
        let same = match (self, other) {
            (CmdError::NotFound, CmdError::NotFound) => true,
            (CmdError::NoParent, CmdError::NoParent) => true,
            (CmdError::EmptySelection, CmdError::EmptySelection) => true,
            (CmdError::Geometry(a), CmdError::Geometry(b)) => *a == *b,
            (CmdError::EmptyPresetId, CmdError::EmptyPresetId) => true,
            _ => false,
        };
        proof {
            if same {
                assert(self@ == other@);
            }
        }
        same
    }
}

impl vstd::std_specs::cmp::PartialEqSpecImpl for CmdError {
    open spec fn obeys_eq_spec() -> bool {
        true
    }

    open spec fn eq_spec(&self, other: &Self) -> bool {
        self@ == other@
    }
}

/// What an operator reads for each refusal.
pub open spec fn cmd_error_message(e: CmdErrorView) -> Seq<char> {
    match e {
        CmdErrorView::NotFound => "the node or machine this command names is not there"@,
        CmdErrorView::NoParent => "this node has no parent, and the command needs one"@,
        CmdErrorView::EmptySelection => "the selection has nothing this command can act on"@,
        CmdErrorView::Geometry(m) => m,
        CmdErrorView::EmptyPresetId => "a material assignment needs a preset id"@,
    }
}

impl CmdError {
    /// The refusal in the words an operator reads.
    pub fn message(&self) -> (r: String)
        ensures
            r@ == cmd_error_message(self@),
    {
        match self {
            CmdError::NotFound => String::from_str(
                "the node or machine this command names is not there",
            ),
            CmdError::NoParent => String::from_str(
                "this node has no parent, and the command needs one",
            ),
            CmdError::EmptySelection => String::from_str(
                "the selection has nothing this command can act on",
            ),
            CmdError::Geometry(m) => m.clone(),
            CmdError::EmptyPresetId => String::from_str("a material assignment needs a preset id"),
        }
    }
}

/// The delta that appends a new shape under `parent`, with the next id `ids` mints.
pub fn add_primitive(ids: &mut IdGen, parent: NodeId, kind: ShapeKind) -> (r: Result<Delta, CmdError>)
    requires
        old(ids).last() < u64::MAX,
    ensures
        final(ids).last() == old(ids).last() + 1,
        r matches Ok(d) && ops_view(d.0@) == seq![
            NodeOpView::Add {
                parent,
                node: fresh_node(NodeId(final(ids).last()), NodeKindView::Shape(kind@)),
                index: usize::MAX,
            },
        ],
{
    let node = Node::shape(ids.next(), kind);
    let mut ops: Vec<NodeOp> = Vec::new();
    ops.push(NodeOp::Add { parent, node, index: usize::MAX });
    assert(ops_view(ops@) =~= seq![ops@[0]@]);
    Ok(Delta(ops))
}

// ---------------------------------------------------------------------------
// Parents and ancestors
// ---------------------------------------------------------------------------

/// Whether the node stored under `p` holds `c` among its children.
pub open spec fn is_parent_of(doc: DocumentView, p: u64, c: NodeId) -> bool {
    doc.nodes.contains_key(p) && doc.nodes[p].children.contains(c)
}

/// Whether every node is the child of at most one node, as in any tree.
pub open spec fn single_parents(doc: DocumentView) -> bool {
    forall|c: NodeId, p: u64, q: u64|
        #![trigger is_parent_of(doc, p, c), is_parent_of(doc, q, c)]
        is_parent_of(doc, p, c) && is_parent_of(doc, q, c) ==> p == q
}

/// The node that holds `c` among its children, when one does.
pub open spec fn parent_spec(doc: DocumentView, c: NodeId) -> Option<NodeId> {
    if exists|p: u64| is_parent_of(doc, p, c) {
        Some(NodeId(choose|p: u64| is_parent_of(doc, p, c)))
    } else {
        None
    }
}

fn holds_child(children: &Vec<NodeId>, c: NodeId) -> (r: bool)
    ensures
        r == children@.contains(c),
{
    let mut i: usize = 0;
    while i < children.len()
        invariant
            i <= children.len(),
            forall|j: int| 0 <= j < i ==> children@[j] != c,
        decreases children.len() - i,
    {
        if children[i] == c {
            assert(children@[i as int] == c);
            return true;
        }
        i = i + 1;
    }
    false
}

/// A node holding `id` among its children, if any does. Where a node is the child of more than
/// one node, which of them is returned is not fixed.
pub fn parent_of(doc: &Document, id: NodeId) -> (r: Option<NodeId>)
    ensures
        r matches Some(p) ==> is_parent_of(doc@, p.0, id),
        r is None ==> forall|p: u64| !is_parent_of(doc@, p, id),
        single_parents(doc@) ==> r == parent_spec(doc@, id),
{
    let ghost dv = doc@;
    let ghost all = vstd::std_specs::hash::spec_hash_map_iter(&doc.nodes).remaining();
    let ghost mut count: int = 0;
    for entry in it: doc.nodes.iter()
        invariant
            dv == doc@,
            it.seq() == all,
            count == it.index(),
            forall|j: int| 0 <= j < it.index() ==> !is_parent_of(dv, *(#[trigger] all[j]).0, id),
    {
        let (key, node) = entry;
        proof {
            assert(all[count] == (key, node));
            assert(doc.nodes@.contains_key(*key) && doc.nodes@[*key] == *node);
        }
        if holds_child(&node.children, id) {
            proof {
                assert(is_parent_of(dv, *key, id));
                if single_parents(dv) {
                    let q = choose|q: u64| is_parent_of(dv, q, id);
                    assert(is_parent_of(dv, q, id));
                }
            }
            return Some(NodeId(*key));
        }
        proof {
            count = count + 1;
        }
    }
    proof {
        assert(count == all.len());
        assert forall|p: u64| !is_parent_of(dv, p, id) by {
            if is_parent_of(dv, p, id) {
                assert(doc.nodes@.contains_key(p));
                assert(all.contains((&p, &doc.nodes@[p])));
                let w = choose|w: int| 0 <= w < all.len() && all[w] == (&p, &doc.nodes@[p]);
                assert(!is_parent_of(dv, *all[w].0, id));
            }
        }
    }
    None
}

/// Whether some ancestor of `id`, within `steps` steps up the parent chain, is selected.
pub open spec fn selected_ancestor_within(doc: DocumentView, selected: Set<u64>, id: NodeId, steps: nat) -> bool
    decreases steps,
{
    if steps == 0 {
        false
    } else {
        match parent_spec(doc, id) {
            None => false,
            Some(p) => selected.contains(p.0) || selected_ancestor_within(
                doc,
                selected,
                p,
                (steps - 1) as nat,
            ),
        }
    }
}

/// Whether an ancestor of `id` is selected. The walk up the parent chain takes at most as many
/// steps as the document has nodes, which covers every ancestor of a node in a tree.
pub fn has_selected_ancestor(doc: &Document, selected: &HashSet<u64>, id: NodeId) -> (r: bool)
    ensures
        single_parents(doc@) ==> r == selected_ancestor_within(
            doc@,
            selected@,
            id,
            doc@.nodes.dom().len(),
        ),
{
    let n = doc.nodes.len();
    proof {
        assert(doc@.nodes.dom() =~= doc.nodes@.dom());
    }
    let mut cur = id;
    let mut k: usize = 0;
    while k < n
        invariant
            k <= n,
            n == doc@.nodes.dom().len(),
            single_parents(doc@) ==> selected_ancestor_within(doc@, selected@, id, n as nat)
                == selected_ancestor_within(doc@, selected@, cur, (n - k) as nat),
        decreases n - k,
    {
        match parent_of(doc, cur) {
            None => {
                return false;
            },
            Some(pid) => {
                if selected.contains(&pid.0) {
                    return true;
                }
                cur = pid;
            },
        }
        k = k + 1;
    }
    false
}

// ---------------------------------------------------------------------------
// Reordering and deleting
// ---------------------------------------------------------------------------

/// The delta that moves `id` to `new_index` among its parent's children: out, then back in.
pub fn reorder(doc: &Document, id: NodeId, new_index: usize) -> (r: Result<Delta, CmdError>)
    ensures
        !doc@.nodes.contains_key(id.0) ==> (r matches Err(e) && e@ == CmdErrorView::NotFound),
        doc@.nodes.contains_key(id.0) && (forall|p: u64| !is_parent_of(doc@, p, id)) ==> (r matches Err(
            e,
        ) && e@ == CmdErrorView::NoParent),
        doc@.nodes.contains_key(id.0) && (exists|p: u64| is_parent_of(doc@, p, id)) ==> r is Ok,
        r matches Ok(d) ==> exists|p: NodeId|
            is_parent_of(doc@, p.0, id) && ops_view(d.0@) == seq![
                NodeOpView::Remove { parent: p, id },
                NodeOpView::Add { parent: p, node: doc@.nodes[id.0], index: new_index },
            ],
        single_parents(doc@) && doc@.nodes.contains_key(id.0) && parent_spec(doc@, id) is Some ==> (r matches Ok(
            d,
        ) && ops_view(d.0@) == seq![
            NodeOpView::Remove { parent: parent_spec(doc@, id)->0, id },
            NodeOpView::Add { parent: parent_spec(doc@, id)->0, node: doc@.nodes[id.0], index: new_index },
        ]),
{
    let node = match doc.get(id) {
        None => {
            return Err(CmdError::NotFound);
        },
        Some(n) => n.duplicate(),
    };
    let parent = match parent_of(doc, id) {
        None => {
            return Err(CmdError::NoParent);
        },
        Some(p) => p,
    };
    let mut ops: Vec<NodeOp> = Vec::new();
    ops.push(NodeOp::Remove { parent, id });
    ops.push(NodeOp::Add { parent, node, index: new_index });
    assert(ops_view(ops@) =~= seq![ops@[0]@, ops@[1]@]);
    Ok(Delta(ops))
}

/// The removals that take `id` and everything under it out of the document, children before
/// their parent so that each removal still finds its parent. The walk goes at most `depth`
/// levels down; only nodes that contain each other go deeper than a document has nodes.
pub open spec fn subtree_removes(doc: DocumentView, id: NodeId, parent: NodeId, depth: nat) -> Result<
    Seq<NodeOpView>,
    CmdErrorView,
>
    decreases depth, 0nat,
{
    if depth == 0 || !doc.nodes.contains_key(id.0) {
        Err(CmdErrorView::NotFound)
    } else {
        match children_removes(doc, doc.nodes[id.0].children, id, (depth - 1) as nat) {
            Err(e) => Err(e),
            Ok(ops) => Ok(ops.push(NodeOpView::Remove { parent, id })),
        }
    }
}

/// The removals for each child's subtree, child by child.
pub open spec fn children_removes(doc: DocumentView, children: Seq<NodeId>, parent: NodeId, depth: nat) -> Result<
    Seq<NodeOpView>,
    CmdErrorView,
>
    decreases depth, children.len(),
{
    if children.len() == 0 {
        Ok(seq![])
    } else {
        match children_removes(doc, children.drop_last(), parent, depth) {
            Err(e) => Err(e),
            Ok(a) => match subtree_removes(doc, children.last(), parent, depth) {
                Err(e) => Err(e),
                Ok(b) => Ok(a + b),
            },
        }
    }
}

fn push_subtree(doc: &Document, id: NodeId, parent: NodeId, depth: usize, ops: &mut Vec<NodeOp>) -> (r:
    Result<(), CmdError>)
    ensures
        match subtree_removes(doc@, id, parent, depth as nat) {
            Ok(more) => r is Ok && ops_view(final(ops)@) == ops_view(old(ops)@) + more,
            Err(e) => r matches Err(x) && x@ == e,
        },
    decreases depth,
{
    if depth == 0 {
        return Err(CmdError::NotFound);
    }
    let node = match doc.get(id) {
        None => {
            return Err(CmdError::NotFound);
        },
        Some(n) => n,
    };
    let ghost start = ops_view(ops@);
    let ghost kids = node.children@;
    let mut i: usize = 0;
    assert(kids.take(0) =~= Seq::<NodeId>::empty());
    assert(start + Seq::<NodeOpView>::empty() =~= start);
    while i < node.children.len()
        invariant
            i <= node.children.len(),
            kids == node.children@,
            depth > 0,
            doc@.nodes.contains_key(id.0) && doc@.nodes[id.0].children == kids,
            children_removes(doc@, kids.take(i as int), id, (depth - 1) as nat) matches Ok(a) && ops_view(ops@)
                == start + a,
        decreases node.children.len() - i,
    {
        assert(kids.take(i + 1).drop_last() =~= kids.take(i as int));
        assert(kids.take(i + 1).last() == kids[i as int]);
        let ghost before = ops_view(ops@);
        let ghost a = children_removes(doc@, kids.take(i as int), id, (depth - 1) as nat)->Ok_0;
        match push_subtree(doc, node.children[i], id, depth - 1, ops) {
            Err(e) => {
                proof {
                    lemma_children_removes_fails_past(doc@, kids, id, (depth - 1) as nat, i as int + 1);
                }
                return Err(e);
            },
            Ok(()) => {
                proof {
                    let b = subtree_removes(doc@, kids[i as int], id, (depth - 1) as nat)->Ok_0;
                    assert(ops_view(ops@) == start + (a + b));
                }
            },
        }
        i = i + 1;
    }
    assert(kids.take(node.children.len() as int) =~= kids);
    let ghost mid = ops_view(ops@);
    ops.push(NodeOp::Remove { parent, id });
    assert(ops_view(ops@) =~= mid.push(NodeOpView::Remove { parent, id }));
    Ok(())
}

proof fn lemma_children_removes_fails_past(doc: DocumentView, kids: Seq<NodeId>, parent: NodeId, depth: nat, k: int)
    requires
        0 <= k <= kids.len(),
        children_removes(doc, kids.take(k), parent, depth) is Err,
    ensures
        children_removes(doc, kids, parent, depth) == children_removes(doc, kids.take(k), parent, depth),
    decreases kids.len() - k,
{
    if k < kids.len() {
        assert(kids.take(k + 1).drop_last() =~= kids.take(k));
        lemma_children_removes_fails_past(doc, kids, parent, depth, k + 1);
    } else {
        assert(kids.take(k) =~= kids);
    }
}

/// The removals a delete of the selection `ids` makes, selection by selection: a node selected
/// twice, or under a selected ancestor, is removed with what it is under; any other takes its
/// whole subtree out of its parent. Refused at the first node that is not there or has no
/// parent.
pub open spec fn delete_ops(doc: DocumentView, ids: Seq<NodeId>, selected: Set<u64>) -> Result<
    Seq<NodeOpView>,
    CmdErrorView,
>
    decreases ids.len(),
{
    if ids.len() == 0 {
        Ok(seq![])
    } else {
        match delete_ops(doc, ids.drop_last(), selected) {
            Err(e) => Err(e),
            Ok(ops) => {
                let id = ids.last();
                let n = doc.nodes.dom().len();
                if ids.drop_last().contains(id) || selected_ancestor_within(doc, selected, id, n) {
                    Ok(ops)
                } else if !doc.nodes.contains_key(id.0) {
                    Err(CmdErrorView::NotFound)
                } else {
                    match parent_spec(doc, id) {
                        None => Err(CmdErrorView::NoParent),
                        Some(p) => match subtree_removes(doc, id, p, n) {
                            Err(e) => Err(e),
                            Ok(more) => Ok(ops + more),
                        },
                    }
                }
            },
        }
    }
}

/// The ids of a selection, as a set of keys.
pub open spec fn id_keys(ids: Seq<NodeId>) -> Set<u64> {
    Set::new(|k: u64| exists|i: int| 0 <= i < ids.len() && #[trigger] ids[i].0 == k)
}

/// What a delete decides: an empty selection, or one that removes nothing, is refused.
pub open spec fn delete_verdict(doc: DocumentView, ids: Seq<NodeId>) -> Result<Seq<NodeOpView>, CmdErrorView> {
    if ids.len() == 0 {
        Err(CmdErrorView::EmptySelection)
    } else {
        match delete_ops(doc, ids, id_keys(ids)) {
            Err(e) => Err(e),
            Ok(ops) => if ops.len() == 0 {
                Err(CmdErrorView::EmptySelection)
            } else {
                Ok(ops)
            },
        }
    }
}

fn key_set(ids: &[NodeId]) -> (r: HashSet<u64>)
    ensures
        r@ == id_keys(ids@),
{
    let mut r: HashSet<u64> = HashSet::new();
    let mut i: usize = 0;
    while i < ids.len()
        invariant
            i <= ids.len(),
            r@ == id_keys(ids@.take(i as int)),
        decreases ids.len() - i,
    {
        r.insert(ids[i].0);
        i = i + 1;
        proof {
            let prev = ids@.take(i - 1);
            let now = ids@.take(i as int);
            assert(now[i - 1] == ids@[i - 1]);
            assert forall|k: u64| r@.contains(k) == id_keys(now).contains(k) by {
                if k == ids@[i - 1].0 {
                    assert(now[i - 1].0 == k);
                }
                if r@.contains(k) && k != ids@[i - 1].0 {
                    let w = choose|w: int| 0 <= w < prev.len() && #[trigger] prev[w].0 == k;
                    assert(now[w].0 == k);
                }
                if id_keys(now).contains(k) {
                    let w = choose|w: int| 0 <= w < now.len() && #[trigger] now[w].0 == k;
                    if w < i - 1 {
                        assert(prev[w].0 == k);
                    }
                }
            }
            assert(r@ =~= id_keys(ids@.take(i as int)));
        }
    }
    assert(ids@.take(ids.len() as int) =~= ids@);
    r
}

/// The delta that deletes the selected nodes and everything under them.
pub fn delete_nodes(doc: &Document, ids: &[NodeId]) -> (r: Result<Delta, CmdError>)
    ensures
        ids@.len() == 0 ==> (r matches Err(e) && e@ == CmdErrorView::EmptySelection),
        single_parents(doc@) ==> match delete_verdict(doc@, ids@) {
            Ok(ops) => r matches Ok(d) && ops_view(d.0@) == ops,
            Err(e) => r matches Err(x) && x@ == e,
        },
{
    if ids.len() == 0 {
        return Err(CmdError::EmptySelection);
    }
    let selected = key_set(ids);
    let n = doc.nodes.len();
    proof {
        assert(doc@.nodes.dom() =~= doc.nodes@.dom());
    }
    let ghost sv = ids@;
    let mut ops: Vec<NodeOp> = Vec::new();
    let mut seen: HashSet<u64> = HashSet::new();
    let mut i: usize = 0;
    assert(sv.take(0) =~= Seq::<NodeId>::empty());
    while i < ids.len()
        invariant
            i <= ids.len(),
            sv == ids@,
            n == doc@.nodes.dom().len(),
            selected@ == id_keys(sv),
            seen@ == id_keys(sv.take(i as int)),
            single_parents(doc@) ==> (delete_ops(doc@, sv.take(i as int), selected@) matches Ok(a) && ops_view(
                ops@,
            ) == a),
        decreases ids.len() - i,
    {
        let id = ids[i];
        assert(sv.take(i + 1).drop_last() =~= sv.take(i as int));
        assert(sv.take(i + 1).last() == id);
        proof {
            let prev = sv.take(i as int);
            assert(prev.contains(id) == id_keys(prev).contains(id.0)) by {
                if id_keys(prev).contains(id.0) {
                    let w = choose|w: int| 0 <= w < prev.len() && #[trigger] prev[w].0 == id.0;
                    assert(prev[w] == id);
                }
                if prev.contains(id) {
                    let w = choose|w: int| 0 <= w < prev.len() && #[trigger] prev[w] == id;
                    assert(prev[w].0 == id.0);
                }
            }
        }
        let fresh = seen.insert(id.0);
        proof {
            let prev = sv.take(i as int);
            let now = sv.take(i + 1);
            assert(seen@ =~= id_keys(now)) by {
                assert forall|k: u64| seen@.contains(k) == id_keys(now).contains(k) by {
                    if id_keys(now).contains(k) {
                        let w = choose|w: int| 0 <= w < now.len() && #[trigger] now[w].0 == k;
                        if w < i {
                            assert(prev[w].0 == k);
                        }
                    }
                    if seen@.contains(k) && k != id.0 {
                        let w = choose|w: int| 0 <= w < prev.len() && #[trigger] prev[w].0 == k;
                        assert(now[w].0 == k);
                    }
                }
            }
        }
        if fresh && !has_selected_ancestor(doc, &selected, id) {
            if doc.get(id).is_none() {
                proof {
                    if single_parents(doc@) {
                        lemma_delete_fails_past(doc@, sv, selected@, i as int + 1);
                    }
                }
                return Err(CmdError::NotFound);
            }
            let parent = match parent_of(doc, id) {
                None => {
                    proof {
                        if single_parents(doc@) {
                            lemma_delete_fails_past(doc@, sv, selected@, i as int + 1);
                        }
                    }
                    return Err(CmdError::NoParent);
                },
                Some(p) => p,
            };
            let ghost before = ops_view(ops@);
            match push_subtree(doc, id, parent, n, &mut ops) {
                Err(e) => {
                    proof {
                        if single_parents(doc@) {
                            lemma_delete_fails_past(doc@, sv, selected@, i as int + 1);
                        }
                    }
                    return Err(e);
                },
                Ok(()) => {},
            }
        }
        i = i + 1;
    }
    assert(sv.take(ids.len() as int) =~= sv);
    if ops.len() == 0 {
        return Err(CmdError::EmptySelection);
    }
    Ok(Delta(ops))
}

proof fn lemma_delete_fails_past(doc: DocumentView, ids: Seq<NodeId>, selected: Set<u64>, k: int)
    requires
        0 <= k <= ids.len(),
        delete_ops(doc, ids.take(k), selected) is Err,
    ensures
        delete_ops(doc, ids, selected) == delete_ops(doc, ids.take(k), selected),
    decreases ids.len() - k,
{
    if k < ids.len() {
        assert(ids.take(k + 1).drop_last() =~= ids.take(k));
        lemma_delete_fails_past(doc, ids, selected, k + 1);
    } else {
        assert(ids.take(k) =~= ids);
    }
}

// ---------------------------------------------------------------------------
// Material assignments
// ---------------------------------------------------------------------------

/// `n` with its material assignment replaced.
pub open spec fn with_material(n: NodeView, value: PresetAssignmentView) -> NodeView {
    NodeView { material_preset: value, ..n }
}

/// The updates a material assignment makes, id by id in selection order: one for each distinct
/// selected node whose assignment differs, and none for a node selected again. Refused at the
/// first selected node that is not there.
pub open spec fn material_updates(doc: DocumentView, ids: Seq<NodeId>, value: PresetAssignmentView) -> Result<
    Seq<NodeOpView>,
    CmdErrorView,
>
    decreases ids.len(),
{
    if ids.len() == 0 {
        Ok(seq![])
    } else {
        match material_updates(doc, ids.drop_last(), value) {
            Err(e) => Err(e),
            Ok(ops) => {
                let id = ids.last();
                if ids.drop_last().contains(id) {
                    Ok(ops)
                } else if !doc.nodes.contains_key(id.0) {
                    Err(CmdErrorView::NotFound)
                } else if doc.nodes[id.0].material_preset == value {
                    Ok(ops)
                } else {
                    Ok(
                        ops.push(
                            NodeOpView::Update {
                                id,
                                before: doc.nodes[id.0],
                                after: with_material(doc.nodes[id.0], value),
                            },
                        ),
                    )
                }
            },
        }
    }
}

/// What assigning a material decides: an empty selection, and an assignment naming an empty
/// preset id, are refused first.
pub open spec fn material_verdict(doc: DocumentView, ids: Seq<NodeId>, value: PresetAssignmentView) -> Result<
    Seq<NodeOpView>,
    CmdErrorView,
> {
    if ids.len() == 0 {
        Err(CmdErrorView::EmptySelection)
    } else if value matches PresetAssignmentView::Preset(id) && id.len() == 0 {
        Err(CmdErrorView::EmptyPresetId)
    } else {
        material_updates(doc, ids, value)
    }
}

proof fn lemma_material_fails_past(doc: DocumentView, ids: Seq<NodeId>, value: PresetAssignmentView, k: int)
    requires
        0 <= k <= ids.len(),
        material_updates(doc, ids.take(k), value) is Err,
    ensures
        material_updates(doc, ids, value) == material_updates(doc, ids.take(k), value),
    decreases ids.len() - k,
{
    if k < ids.len() {
        assert(ids.take(k + 1).drop_last() =~= ids.take(k));
        lemma_material_fails_past(doc, ids, value, k + 1);
    } else {
        assert(ids.take(k) =~= ids);
    }
}

/// The delta that assigns `value` to every selected node, and to nothing else: a container's
/// assignment is what the shapes under it inherit.
pub fn set_material_preset(doc: &Document, ids: &[NodeId], value: PresetAssignment) -> (r: Result<
    Delta,
    CmdError,
>)
    ensures
        match material_verdict(doc@, ids@, value@) {
            Ok(ops) => r matches Ok(d) && ops_view(d.0@) == ops,
            Err(e) => r matches Err(x) && x@ == e,
        },
{
    if ids.len() == 0 {
        return Err(CmdError::EmptySelection);
    }
    match &value {
        PresetAssignment::Preset(id) => {
            if id.as_str().is_empty() {
                return Err(CmdError::EmptyPresetId);
            }
        },
        _ => {},
    }
    let ghost sv = ids@;
    let mut ops: Vec<NodeOp> = Vec::new();
    let mut seen: HashSet<u64> = HashSet::new();
    let mut i: usize = 0;
    assert(sv.take(0) =~= Seq::<NodeId>::empty());
    while i < ids.len()
        invariant
            i <= ids.len(),
            sv == ids@,
            seen@ == id_keys(sv.take(i as int)),
            sv.len() > 0,
            !(value@ matches PresetAssignmentView::Preset(x) && x.len() == 0),
            material_updates(doc@, sv.take(i as int), value@) matches Ok(a) && ops_view(ops@) == a,
        decreases ids.len() - i,
    {
        let id = ids[i];
        assert(sv.take(i + 1).drop_last() =~= sv.take(i as int));
        assert(sv.take(i + 1).last() == id);
        proof {
            let prev = sv.take(i as int);
            assert(prev.contains(id) == id_keys(prev).contains(id.0)) by {
                if id_keys(prev).contains(id.0) {
                    let w = choose|w: int| 0 <= w < prev.len() && #[trigger] prev[w].0 == id.0;
                    assert(prev[w] == id);
                }
                if prev.contains(id) {
                    let w = choose|w: int| 0 <= w < prev.len() && #[trigger] prev[w] == id;
                    assert(prev[w].0 == id.0);
                }
            }
        }
        let fresh = seen.insert(id.0);
        proof {
            let prev = sv.take(i as int);
            let now = sv.take(i + 1);
            assert(now[i as int] == id);
            assert(seen@ =~= id_keys(now)) by {
                assert forall|k: u64| seen@.contains(k) == id_keys(now).contains(k) by {
                    if k == id.0 {
                        assert(now[i as int].0 == k);
                    }
                    if id_keys(now).contains(k) {
                        let w = choose|w: int| 0 <= w < now.len() && #[trigger] now[w].0 == k;
                        if w < i {
                            assert(prev[w].0 == k);
                        }
                    }
                    if seen@.contains(k) && k != id.0 {
                        let w = choose|w: int| 0 <= w < prev.len() && #[trigger] prev[w].0 == k;
                        assert(now[w].0 == k);
                    }
                }
            }
        }
        if fresh {
            match doc.get(id) {
                None => {
                    proof {
                        lemma_material_fails_past(doc@, sv, value@, i as int + 1);
                    }
                    return Err(CmdError::NotFound);
                },
                Some(node) => {
                    if !(node.material_preset == value) {
                        let before = node.duplicate();
                        let mut after = node.duplicate();
                        after.material_preset = value.duplicate();
                        let ghost was = ops_view(ops@);
                        ops.push(NodeOp::Update { id, before, after });
                        assert(ops_view(ops@) =~= was.push(ops@.last()@));
                    }
                },
            }
        }
        i = i + 1;
    }
    assert(sv.take(ids.len() as int) =~= sv);
    Ok(Delta(ops))
}

// ---------------------------------------------------------------------------
// Cut line types
// ---------------------------------------------------------------------------

/// `n` with its cut line type replaced.
pub open spec fn with_cut_line_type(n: NodeView, value: CutLineType) -> NodeView {
    NodeView { cut_line_type: value, ..n }
}

/// What setting a cut line type has gathered so far: the nodes met and the updates.
pub struct CutProgress {
    pub seen: Set<u64>,
    pub ops: Seq<NodeOpView>,
}

/// Setting `value` on the node `id` and everything under it, after what `so_far` gathered,
/// going at most `depth` levels down: a node not in the document refuses the edit; a node met
/// before is passed by; a shape whose type differs gets an update; any other node has its
/// children set in order. Only a walk that meets some node twice goes deeper than the document
/// has nodes, and such a walk passes that node by, so running out of depth passes by too.
pub open spec fn cut_node(doc: DocumentView, id: NodeId, value: CutLineType, so_far: CutProgress, depth: nat) -> Result<
    CutProgress,
    CmdErrorView,
>
    decreases depth, 0nat, 0nat,
{
    if !doc.nodes.contains_key(id.0) {
        Err(CmdErrorView::NotFound)
    } else if depth == 0 || so_far.seen.contains(id.0) {
        Ok(so_far)
    } else {
        let n = doc.nodes[id.0];
        let met = CutProgress { seen: so_far.seen.insert(id.0), ..so_far };
        match n.kind {
            NodeKindView::Shape(_) => if n.cut_line_type == value {
                Ok(met)
            } else {
                Ok(
                    CutProgress {
                        ops: met.ops.push(
                            NodeOpView::Update { id, before: n, after: with_cut_line_type(n, value) },
                        ),
                        ..met
                    },
                )
            },
            _ => cut_nodes(doc, n.children, value, met, (depth - 1) as nat),
        }
    }
}

/// Setting `value` on each of `ids` in turn, first to last, with everything under it; the
/// first refusal refuses the edit.
pub open spec fn cut_nodes(doc: DocumentView, ids: Seq<NodeId>, value: CutLineType, so_far: CutProgress, depth: nat) -> Result<
    CutProgress,
    CmdErrorView,
>
    decreases depth, 1nat, ids.len(),
{
    if ids.len() == 0 {
        Ok(so_far)
    } else {
        match cut_node(doc, ids[0], value, so_far, depth) {
            Ok(next) => cut_nodes(doc, ids.drop_first(), value, next, depth),
            Err(e) => Err(e),
        }
    }
}

/// The same edit as the loop runs it, over a stack whose top is its last element: the same
/// steps as `cut_node`, with a container's children put on the stack, first child on top,
/// instead of set at once.
spec fn cut_walk(
    doc: DocumentView,
    stack: Seq<NodeId>,
    seen: Set<u64>,
    value: CutLineType,
    ops: Seq<NodeOpView>,
) -> Result<Seq<NodeOpView>, CmdErrorView>
    decreases doc.nodes.dom().difference(seen).len(), stack.len(),
    when doc.nodes.dom().finite()
{
    if stack.len() == 0 {
        Ok(ops)
    } else {
        let id = stack.last();
        let rest = stack.drop_last();
        if !doc.nodes.contains_key(id.0) {
            Err(CmdErrorView::NotFound)
        } else if seen.contains(id.0) {
            cut_walk(doc, rest, seen, value, ops)
        } else {
            let n = doc.nodes[id.0];
            let seen2 = seen.insert(id.0);
            proof {
                lemma_unseen_shrinks(doc.nodes.dom(), seen, id.0);
            }
            match n.kind {
                NodeKindView::Shape(_) => if n.cut_line_type == value {
                    cut_walk(doc, rest, seen2, value, ops)
                } else {
                    cut_walk(
                        doc,
                        rest,
                        seen2,
                        value,
                        ops.push(
                            NodeOpView::Update { id, before: n, after: with_cut_line_type(n, value) },
                        ),
                    )
                },
                _ => cut_walk(doc, rest + n.children.reverse(), seen2, value, ops),
            }
        }
    }
}

/// Marking one more node of the document as met leaves fewer unmet.
pub proof fn lemma_unseen_shrinks(dom: Set<u64>, seen: Set<u64>, k: u64)
    requires
        dom.finite(),
        dom.contains(k),
        !seen.contains(k),
    ensures
        dom.difference(seen.insert(k)).len() < dom.difference(seen).len(),
{
    assert(dom.difference(seen.insert(k)) =~= dom.difference(seen).remove(k));
    vstd::set::axiom_set_difference_finite(dom, seen);
    assert(dom.difference(seen).contains(k));
    vstd::set::axiom_set_remove_len(dom.difference(seen), k);
}

/// What setting a cut line type decides: an empty selection is refused; otherwise the
/// selected nodes are set in order, each with everything under it, allowed one level more than
/// the document has nodes, and the updates gathered are the edit.
pub open spec fn cut_line_type_verdict(doc: DocumentView, ids: Seq<NodeId>, value: CutLineType) -> Result<
    Seq<NodeOpView>,
    CmdErrorView,
> {
    if ids.len() == 0 {
        Err(CmdErrorView::EmptySelection)
    } else {
        match cut_nodes(doc, ids, value, CutProgress { seen: Set::empty(), ops: seq![] }, doc.nodes.dom().len() + 1) {
            Ok(p) => Ok(p.ops),
            Err(e) => Err(e),
        }
    }
}

/// The stack walk from the selection, first selected node on top.
spec fn cut_stack_verdict(doc: DocumentView, ids: Seq<NodeId>, value: CutLineType) -> Result<
    Seq<NodeOpView>,
    CmdErrorView,
> {
    cut_walk(doc, ids.reverse(), Set::empty(), value, seq![])
}

/// The delta that gives `value` to every selected shape and every shape under a selected
/// container; a shape that already has it gets no update, and one reached twice gets one.
pub fn set_cut_line_type(doc: &Document, ids: &[NodeId], value: CutLineType) -> (r: Result<
    Delta,
    CmdError,
>)
    ensures
        match cut_line_type_verdict(doc@, ids@, value) {
            Ok(ops) => r matches Ok(d) && ops_view(d.0@) == ops,
            Err(e) => r matches Err(x) && x@ == e,
        },
{
    if ids.len() == 0 {
        return Err(CmdError::EmptySelection);
    }
    proof {
        assert(doc@.nodes.dom() =~= doc.nodes@.dom());
        vstd::std_specs::hash::axiom_hashmap_view_finite_dom(doc.nodes);
    }
    let mut stack: Vec<NodeId> = Vec::new();
    let mut k: usize = ids.len();
    while k > 0
        invariant
            k <= ids.len(),
            stack@ == ids@.subrange(k as int, ids@.len() as int).reverse(),
        decreases k,
    {
        k = k - 1;
        stack.push(ids[k]);
        assert(stack@ =~= ids@.subrange(k as int, ids@.len() as int).reverse());
    }
    assert(ids@.subrange(0, ids@.len() as int) =~= ids@);
    proof {
        lemma_the_cut_walk_sets_in_preorder(doc@, ids@, value);
    }
    let ghost start = cut_walk(doc@, stack@, Set::empty(), value, seq![]);
    let mut seen: HashSet<u64> = HashSet::new();
    let mut ops: Vec<NodeOp> = Vec::new();
    assert(ops_view(ops@) =~= Seq::<NodeOpView>::empty());
    while stack.len() > 0
        invariant
            doc@.nodes.dom().finite(),
            ids@.len() > 0,
            start == cut_line_type_verdict(doc@, ids@, value),
            start == cut_stack_verdict(doc@, ids@, value),
            seen@.subset_of(doc@.nodes.dom()),
            start == cut_walk(doc@, stack@, seen@, value, ops_view(ops@)),
        decreases doc@.nodes.dom().difference(seen@).len(), stack@.len(),
    {
        let ghost before_stack = stack@;
        let id = stack.pop().unwrap();
        assert(before_stack.drop_last() =~= stack@);
        let node = match doc.get(id) {
            None => {
                assert(start == Err::<Seq<NodeOpView>, CmdErrorView>(CmdErrorView::NotFound));
                return Err(CmdError::NotFound);
            },
            Some(n) => n,
        };
        if seen.contains(&id.0) {
            assert(start == cut_walk(doc@, stack@, seen@, value, ops_view(ops@)));
            continue;
        }
        let ghost old_seen = seen@;
        seen.insert(id.0);
        proof {
            lemma_unseen_shrinks(doc@.nodes.dom(), old_seen, id.0);
        }
        match &node.kind {
            NodeKind::Shape(_) => {
                if node.cut_line_type != value {
                    let before = node.duplicate();
                    let mut after = node.duplicate();
                    after.cut_line_type = value;
                    let ghost was = ops_view(ops@);
                    ops.push(NodeOp::Update { id, before, after });
                    assert(ops_view(ops@) =~= was.push(ops@.last()@));
                }
            },
            _ => {
                let ghost base = stack@;
                let mut c: usize = node.children.len();
                while c > 0
                    invariant
                        c <= node.children.len(),
                        stack@ == base + node.children@.subrange(c as int, node.children@.len() as int).reverse(),
                    decreases c,
                {
                    c = c - 1;
                    stack.push(node.children[c]);
                    assert(stack@ =~= base + node.children@.subrange(c as int, node.children@.len() as int).reverse());
                }
                assert(node.children@.subrange(0, node.children@.len() as int) =~= node.children@);
            },
        }
    }
    Ok(Delta(ops))
}


// ---------------------------------------------------------------------------
// Transforms
// ---------------------------------------------------------------------------

/// `n` with its transform replaced.
pub open spec fn with_transform(n: NodeView, t: Transform) -> NodeView {
    NodeView { transform: t, ..n }
}

/// Whether every node `ids` names is in the document.
pub open spec fn all_present(doc: DocumentView, ids: Seq<NodeId>) -> bool {
    forall|j: int| 0 <= j < ids.len() ==> doc.nodes.contains_key((#[trigger] ids[j]).0)
}

/// The nodes a transform of the selection moves, in selection order, up to the first selected
/// node that is not there: each distinct selected node with no selected ancestor. A node under
/// a selected ancestor is carried along by it, and moving it as well would move it twice.
pub open spec fn transform_targets_of(doc: DocumentView, ids: Seq<NodeId>, selected: Set<u64>) -> Seq<NodeId>
    decreases ids.len(),
{
    if ids.len() == 0 {
        seq![]
    } else {
        let before = transform_targets_of(doc, ids.drop_last(), selected);
        let id = ids.last();
        if !all_present(doc, ids) || ids.drop_last().contains(id) || selected_ancestor_within(
            doc,
            selected,
            id,
            doc.nodes.dom().len(),
        ) {
            before
        } else {
            before.push(id)
        }
    }
}

/// The new transforms, or why one cannot be had, as values.
pub open spec fn moves_view(m: Map<u64, Result<Transform, CmdError>>) -> Map<u64, Result<Transform, CmdErrorView>> {
    m.map_values(
        |r: Result<Transform, CmdError>|
            match r {
                Ok(t) => Ok(t),
                Err(e) => Err(e@),
            },
    )
}

/// The updates a transform of the selection makes, id by id: refused at the first selected node
/// that is not there; a node selected again, or under a selected ancestor, is passed by; any
/// other takes the new transform `moved` holds for it, or is refused with the reason `moved`
/// gives, or as not found when `moved` holds nothing for it.
pub open spec fn transform_ops(
    doc: DocumentView,
    ids: Seq<NodeId>,
    selected: Set<u64>,
    moved: Map<u64, Result<Transform, CmdErrorView>>,
) -> Result<Seq<NodeOpView>, CmdErrorView>
    decreases ids.len(),
{
    if ids.len() == 0 {
        Ok(seq![])
    } else {
        match transform_ops(doc, ids.drop_last(), selected, moved) {
            Err(e) => Err(e),
            Ok(ops) => {
                let id = ids.last();
                if !doc.nodes.contains_key(id.0) {
                    Err(CmdErrorView::NotFound)
                } else if ids.drop_last().contains(id) || selected_ancestor_within(
                    doc,
                    selected,
                    id,
                    doc.nodes.dom().len(),
                ) {
                    Ok(ops)
                } else if !moved.contains_key(id.0) {
                    Err(CmdErrorView::NotFound)
                } else {
                    match moved[id.0] {
                        Ok(t) => Ok(
                            ops.push(
                                NodeOpView::Update {
                                    id,
                                    before: doc.nodes[id.0],
                                    after: with_transform(doc.nodes[id.0], t),
                                },
                            ),
                        ),
                        Err(e) => Err(e),
                    }
                }
            },
        }
    }
}

/// What a transform of the selection decides: an empty selection is refused.
pub open spec fn transform_verdict(
    doc: DocumentView,
    ids: Seq<NodeId>,
    moved: Map<u64, Result<Transform, CmdErrorView>>,
) -> Result<Seq<NodeOpView>, CmdErrorView> {
    if ids.len() == 0 {
        Err(CmdErrorView::EmptySelection)
    } else {
        transform_ops(doc, ids, id_keys(ids), moved)
    }
}

proof fn lemma_transform_fails_past(
    doc: DocumentView,
    ids: Seq<NodeId>,
    selected: Set<u64>,
    moved: Map<u64, Result<Transform, CmdErrorView>>,
    k: int,
)
    requires
        0 <= k <= ids.len(),
        transform_ops(doc, ids.take(k), selected, moved) is Err,
    ensures
        transform_ops(doc, ids, selected, moved) == transform_ops(doc, ids.take(k), selected, moved),
    decreases ids.len() - k,
{
    if k < ids.len() {
        assert(ids.take(k + 1).drop_last() =~= ids.take(k));
        lemma_transform_fails_past(doc, ids, selected, moved, k + 1);
    } else {
        assert(ids.take(k) =~= ids);
    }
}

proof fn lemma_targets_stop(doc: DocumentView, ids: Seq<NodeId>, selected: Set<u64>, k: int)
    requires
        0 <= k <= ids.len(),
        !all_present(doc, ids.take(k)),
    ensures
        transform_targets_of(doc, ids, selected) == transform_targets_of(doc, ids.take(k), selected),
    decreases ids.len() - k,
{
    if k < ids.len() {
        let now = ids.take(k + 1);
        assert(now.drop_last() =~= ids.take(k));
        assert(!all_present(doc, now)) by {
            let j = choose|j: int| 0 <= j < k && !doc.nodes.contains_key((#[trigger] ids.take(k)[j]).0);
            assert(now[j] == ids.take(k)[j]);
        }
        lemma_targets_stop(doc, ids, selected, k + 1);
    } else {
        assert(ids.take(k) =~= ids);
    }
}

/// The keys a selection names, and whether a node was selected before position `i`.
proof fn lemma_seen_is_earlier(ids: Seq<NodeId>, i: int, seen: Set<u64>)
    requires
        0 <= i < ids.len(),
        seen == id_keys(ids.take(i)),
    ensures
        ids.take(i).contains(ids[i]) == seen.contains(ids[i].0),
        seen.insert(ids[i].0) == id_keys(ids.take(i + 1)),
{
    let prev = ids.take(i);
    let now = ids.take(i + 1);
    let id = ids[i];
    if seen.contains(id.0) {
        let w = choose|w: int| 0 <= w < prev.len() && #[trigger] prev[w].0 == id.0;
        assert(prev[w] == id);
    }
    if prev.contains(id) {
        let w = choose|w: int| 0 <= w < prev.len() && #[trigger] prev[w] == id;
        assert(prev[w].0 == id.0);
    }
    assert(now[i] == id);
    assert forall|k: u64| seen.insert(id.0).contains(k) == id_keys(now).contains(k) by {
        if k == id.0 {
            assert(now[i].0 == k);
        }
        if id_keys(now).contains(k) {
            let w = choose|w: int| 0 <= w < now.len() && #[trigger] now[w].0 == k;
            if w < i {
                assert(prev[w].0 == k);
            }
        }
        if seen.contains(k) && k != id.0 {
            let w = choose|w: int| 0 <= w < prev.len() && #[trigger] prev[w].0 == k;
            assert(now[w].0 == k);
        }
    }
    assert(seen.insert(id.0) =~= id_keys(now));
}

/// The nodes a transform of the selection would move, so that their new transforms can be
/// worked out before the edit is built.
pub fn transform_targets(doc: &Document, ids: &[NodeId]) -> (r: Vec<NodeId>)
    ensures
        single_parents(doc@) ==> r@ == transform_targets_of(doc@, ids@, id_keys(ids@)),
{
    let selected = key_set(ids);
    let ghost sv = ids@;
    let mut out: Vec<NodeId> = Vec::new();
    let mut seen: HashSet<u64> = HashSet::new();
    let mut i: usize = 0;
    assert(sv.take(0) =~= Seq::<NodeId>::empty());
    while i < ids.len()
        invariant
            i <= ids.len(),
            sv == ids@,
            selected@ == id_keys(sv),
            seen@ == id_keys(sv.take(i as int)),
            all_present(doc@, sv.take(i as int)),
            single_parents(doc@) ==> out@ == transform_targets_of(doc@, sv.take(i as int), selected@),
        decreases ids.len() - i,
    {
        let id = ids[i];
        let now = i + 1;
        assert(sv.take(now as int).drop_last() =~= sv.take(i as int));
        assert(sv.take(now as int).last() == id);
        if doc.get(id).is_none() {
            proof {
                assert(!all_present(doc@, sv.take(now as int))) by {
                    assert(sv.take(now as int)[i as int] == id);
                }
                lemma_targets_stop(doc@, sv, selected@, now as int);
            }
            return out;
        }
        proof {
            lemma_seen_is_earlier(sv, i as int, seen@);
            assert forall|j: int| 0 <= j < now implies doc@.nodes.contains_key(
                (#[trigger] sv.take(now as int)[j]).0,
            ) by {
                if j < i {
                    assert(sv.take(now as int)[j] == sv.take(i as int)[j]);
                }
            }
        }
        let fresh = seen.insert(id.0);
        if fresh && !has_selected_ancestor(doc, &selected, id) {
            out.push(id);
        }
        i = i + 1;
    }
    assert(sv.take(ids.len() as int) =~= sv);
    out
}

fn copy_cmd_error(e: &CmdError) -> (r: CmdError)
    ensures
        r@ == e@,
{
    match e {
        CmdError::NotFound => CmdError::NotFound,
        CmdError::NoParent => CmdError::NoParent,
        CmdError::EmptySelection => CmdError::EmptySelection,
        CmdError::Geometry(m) => CmdError::Geometry(m.clone()),
        CmdError::EmptyPresetId => CmdError::EmptyPresetId,
    }
}

/// The delta that transforms the selected nodes. `moved` holds, by node, the node's new local
/// transform, or why it cannot be had; it is asked only of the nodes the transform moves, in
/// selection order.
pub fn transform_nodes(doc: &Document, ids: &[NodeId], moved: &HashMap<u64, Result<Transform, CmdError>>) -> (r:
    Result<Delta, CmdError>)
    ensures
        ids@.len() == 0 ==> (r matches Err(e) && e@ == CmdErrorView::EmptySelection),
        single_parents(doc@) ==> match transform_verdict(doc@, ids@, moves_view(moved@)) {
            Ok(ops) => r matches Ok(d) && ops_view(d.0@) == ops,
            Err(e) => r matches Err(x) && x@ == e,
        },
{
    if ids.len() == 0 {
        return Err(CmdError::EmptySelection);
    }
    let selected = key_set(ids);
    let ghost sv = ids@;
    let ghost mv = moves_view(moved@);
    let mut ops: Vec<NodeOp> = Vec::new();
    let mut seen: HashSet<u64> = HashSet::new();
    let mut i: usize = 0;
    assert(sv.take(0) =~= Seq::<NodeId>::empty());
    assert(ops_view(ops@) =~= Seq::<NodeOpView>::empty());
    while i < ids.len()
        invariant
            i <= ids.len(),
            sv == ids@,
            sv.len() > 0,
            mv == moves_view(moved@),
            selected@ == id_keys(sv),
            seen@ == id_keys(sv.take(i as int)),
            single_parents(doc@) ==> (transform_ops(doc@, sv.take(i as int), selected@, mv) matches Ok(a)
                && ops_view(ops@) == a),
        decreases ids.len() - i,
    {
        let id = ids[i];
        let now = i + 1;
        assert(sv.take(now as int).drop_last() =~= sv.take(i as int));
        assert(sv.take(now as int).last() == id);
        let node = match doc.get(id) {
            None => {
                proof {
                    if single_parents(doc@) {
                        lemma_transform_fails_past(doc@, sv, selected@, mv, now as int);
                    }
                }
                return Err(CmdError::NotFound);
            },
            Some(n) => n,
        };
        proof {
            lemma_seen_is_earlier(sv, i as int, seen@);
        }
        let fresh = seen.insert(id.0);
        if fresh && !has_selected_ancestor(doc, &selected, id) {
            match moved.get(&id.0) {
                None => {
                    proof {
                        if single_parents(doc@) {
                            assert(!mv.contains_key(id.0));
                            lemma_transform_fails_past(doc@, sv, selected@, mv, now as int);
                        }
                    }
                    return Err(CmdError::NotFound);
                },
                Some(Err(e)) => {
                    let x = copy_cmd_error(e);
                    proof {
                        if single_parents(doc@) {
                            assert(mv[id.0] == Err::<Transform, CmdErrorView>(e@));
                            lemma_transform_fails_past(doc@, sv, selected@, mv, now as int);
                        }
                    }
                    return Err(x);
                },
                Some(Ok(t)) => {
                    let before = node.duplicate();
                    let mut after = node.duplicate();
                    after.transform = *t;
                    let ghost was = ops_view(ops@);
                    proof {
                        assert(mv[id.0] == Ok::<Transform, CmdErrorView>(*t));
                    }
                    ops.push(NodeOp::Update { id, before, after });
                    assert(ops_view(ops@) =~= was.push(ops@.last()@));
                },
            }
        }
        i = i + 1;
    }
    assert(sv.take(ids.len() as int) =~= sv);
    Ok(Delta(ops))
}

// ---------------------------------------------------------------------------
// New outlines: boolean results and text
// ---------------------------------------------------------------------------

/// The id a command gives a node it adds before the editor mints a real one.
pub const PLACEHOLDER_ID: u64 = 0xFFFF_FFFF_FFFF_FFFFu64;

/// The selection with repeats dropped, in first-selected order.
pub open spec fn distinct_ids(ids: Seq<NodeId>) -> Seq<NodeId>
    decreases ids.len(),
{
    if ids.len() == 0 {
        seq![]
    } else if ids.drop_last().contains(ids.last()) {
        distinct_ids(ids.drop_last())
    } else {
        distinct_ids(ids.drop_last()).push(ids.last())
    }
}

/// The parents of `ids`, in order, refused at the first that is not in the document or has no
/// parent.
pub open spec fn parents_of(doc: DocumentView, ids: Seq<NodeId>) -> Result<Seq<NodeId>, CmdErrorView>
    decreases ids.len(),
{
    if ids.len() == 0 {
        Ok(seq![])
    } else {
        match parents_of(doc, ids.drop_last()) {
            Err(e) => Err(e),
            Ok(ps) => if !doc.nodes.contains_key(ids.last().0) {
                Err(CmdErrorView::NotFound)
            } else {
                match parent_spec(doc, ids.last()) {
                    None => Err(CmdErrorView::NoParent),
                    Some(p) => Ok(ps.push(p)),
                }
            },
        }
    }
}

/// What a boolean operation on the selection settles before any geometry: the selection
/// without repeats, which must hold at least two nodes, and each node's parent.
pub open spec fn boolean_selection_verdict(doc: DocumentView, ids: Seq<NodeId>) -> Result<
    (Seq<NodeId>, Seq<NodeId>),
    CmdErrorView,
> {
    let d = distinct_ids(ids);
    if d.len() < 2 {
        Err(CmdErrorView::EmptySelection)
    } else {
        match parents_of(doc, d) {
            Err(e) => Err(e),
            Ok(ps) => Ok((d, ps)),
        }
    }
}

proof fn lemma_parents_fail_past(doc: DocumentView, ids: Seq<NodeId>, k: int)
    requires
        0 <= k <= ids.len(),
        parents_of(doc, ids.take(k)) is Err,
    ensures
        parents_of(doc, ids) == parents_of(doc, ids.take(k)),
    decreases ids.len() - k,
{
    if k < ids.len() {
        assert(ids.take(k + 1).drop_last() =~= ids.take(k));
        lemma_parents_fail_past(doc, ids, k + 1);
    } else {
        assert(ids.take(k) =~= ids);
    }
}

/// Settles a boolean operation on the selection before its geometry: drops repeats, refuses
/// fewer than two nodes, then finds each node's parent, refusing a node that is not there or
/// has none. Gives the nodes and their parents.
pub fn boolean_selection(doc: &Document, ids: &[NodeId]) -> (r: Result<(Vec<NodeId>, Vec<NodeId>), CmdError>)
    ensures
        single_parents(doc@) ==> match boolean_selection_verdict(doc@, ids@) {
            Ok((d, ps)) => r matches Ok((a, b)) && a@ == d && b@ == ps,
            Err(e) => r matches Err(x) && x@ == e,
        },
{
    let ghost sv = ids@;
    let mut distinct: Vec<NodeId> = Vec::new();
    let mut seen: HashSet<u64> = HashSet::new();
    let mut i: usize = 0;
    assert(sv.take(0) =~= Seq::<NodeId>::empty());
    while i < ids.len()
        invariant
            i <= ids.len(),
            sv == ids@,
            seen@ == id_keys(sv.take(i as int)),
            distinct@ == distinct_ids(sv.take(i as int)),
        decreases ids.len() - i,
    {
        let id = ids[i];
        assert(sv.take(i + 1).drop_last() =~= sv.take(i as int));
        assert(sv.take(i + 1).last() == id);
        proof {
            lemma_seen_is_earlier(sv, i as int, seen@);
        }
        if seen.insert(id.0) {
            distinct.push(id);
        }
        i = i + 1;
    }
    assert(sv.take(ids.len() as int) =~= sv);
    if distinct.len() < 2 {
        return Err(CmdError::EmptySelection);
    }
    let ghost dv = distinct@;
    let mut parents: Vec<NodeId> = Vec::new();
    let mut j: usize = 0;
    assert(dv.take(0) =~= Seq::<NodeId>::empty());
    while j < distinct.len()
        invariant
            j <= distinct.len(),
            dv == distinct@,
            dv == distinct_ids(ids@),
            dv.len() >= 2,
            single_parents(doc@) ==> parents_of(doc@, dv.take(j as int)) == Ok::<Seq<NodeId>, CmdErrorView>(
                parents@,
            ),
        decreases distinct.len() - j,
    {
        let id = distinct[j];
        assert(dv.take(j + 1).drop_last() =~= dv.take(j as int));
        assert(dv.take(j + 1).last() == id);
        if doc.get(id).is_none() {
            proof {
                if single_parents(doc@) {
                    lemma_parents_fail_past(doc@, dv, j + 1);
                }
            }
            return Err(CmdError::NotFound);
        }
        match parent_of(doc, id) {
            None => {
                proof {
                    if single_parents(doc@) {
                        lemma_parents_fail_past(doc@, dv, j + 1);
                    }
                }
                return Err(CmdError::NoParent);
            },
            Some(p) => {
                parents.push(p);
            },
        }
        j = j + 1;
    }
    assert(dv.take(distinct.len() as int) =~= dv);
    Ok((distinct, parents))
}

/// A new path shape, holding `d`, under the placeholder id.
pub open spec fn placeholder_path(d: Seq<char>) -> NodeView {
    fresh_node(NodeId(PLACEHOLDER_ID), NodeKindView::Shape(ShapeKindView::Path { d }))
}

/// The edit a boolean operation makes once its result is known: each operand leaves its
/// parent, in order, and the result, as path data `d`, becomes the last child of the first
/// operand's parent.
pub open spec fn boolean_ops(ids: Seq<NodeId>, parents: Seq<NodeId>, d: Seq<char>) -> Seq<NodeOpView> {
    Seq::new(ids.len(), |i: int| NodeOpView::Remove { parent: parents[i], id: ids[i] }).push(
        NodeOpView::Add { parent: parents[0], node: placeholder_path(d), index: usize::MAX },
    )
}

/// The delta that replaces the operands of a boolean operation, settled by
/// `boolean_selection`, with its result `d`.
pub fn boolean_delta(ids: &Vec<NodeId>, parents: &Vec<NodeId>, d: String) -> (r: Delta)
    requires
        ids@.len() == parents@.len(),
        ids@.len() >= 1,
    ensures
        ops_view(r.0@) == boolean_ops(ids@, parents@, d@),
{
    let mut ops: Vec<NodeOp> = Vec::new();
    let mut i: usize = 0;
    while i < ids.len()
        invariant
            i <= ids.len(),
            ids@.len() == parents@.len(),
            ops_view(ops@) == Seq::new(
                i as nat,
                |k: int| NodeOpView::Remove { parent: parents@[k], id: ids@[k] },
            ),
        decreases ids.len() - i,
    {
        let ghost was = ops_view(ops@);
        ops.push(NodeOp::Remove { parent: parents[i], id: ids[i] });
        assert(ops_view(ops@) =~= was.push(NodeOpView::Remove { parent: parents@[i as int], id: ids@[i as int] }));
        i = i + 1;
        assert(ops_view(ops@) =~= Seq::new(
            i as nat,
            |k: int| NodeOpView::Remove { parent: parents@[k], id: ids@[k] },
        ));
    }
    let ghost removes = ops_view(ops@);
    let node = Node::shape(NodeId(PLACEHOLDER_ID), ShapeKind::Path { d });
    ops.push(NodeOp::Add { parent: parents[0], node, index: usize::MAX });
    assert(ops_view(ops@) =~= boolean_ops(ids@, parents@, d@));
    Delta(ops)
}

/// What adding an outline under `parent` decides: a parent that is not there is refused first;
/// then an outline that could not be had is refused with its reason; otherwise the outline, as
/// path data, becomes `parent`'s last child.
pub open spec fn outline_verdict(doc: DocumentView, parent: NodeId, outline: Result<Seq<char>, CmdErrorView>) -> Result<
    Seq<NodeOpView>,
    CmdErrorView,
> {
    if !doc.nodes.contains_key(parent.0) {
        Err(CmdErrorView::NotFound)
    } else {
        match outline {
            Err(e) => Err(e),
            Ok(d) => Ok(seq![NodeOpView::Add { parent, node: placeholder_path(d), index: usize::MAX }]),
        }
    }
}

/// The delta that adds an outline, such as a text's glyphs, under `parent` as a new path shape.
/// `outline` is the outline's path data, or why it could not be had.
pub fn add_outline(doc: &Document, parent: NodeId, outline: Result<String, CmdError>) -> (r: Result<
    Delta,
    CmdError,
>)
    ensures
        match outline_verdict(
            doc@,
            parent,
            match outline {
                Ok(d) => Ok(d@),
                Err(e) => Err(e@),
            },
        ) {
            Ok(ops) => r matches Ok(d) && ops_view(d.0@) == ops,
            Err(e) => r matches Err(x) && x@ == e,
        },
{
    if doc.get(parent).is_none() {
        return Err(CmdError::NotFound);
    }
    match outline {
        Err(e) => Err(e),
        Ok(d) => {
            let node = Node::shape(NodeId(PLACEHOLDER_ID), ShapeKind::Path { d });
            let mut ops: Vec<NodeOp> = Vec::new();
            let ghost nv = node@;
            ops.push(NodeOp::Add { parent, node, index: usize::MAX });
            assert(ops_view(ops@) =~= seq![NodeOpView::Add { parent, node: nv, index: usize::MAX }]);
            Ok(Delta(ops))
        },
    }
}


// ---------------------------------------------------------------------------
// Each node at most once
// ---------------------------------------------------------------------------

/// The node an edit is about.
pub open spec fn op_node(op: NodeOpView) -> NodeId {
    match op {
        NodeOpView::Add { node, .. } => node.id,
        NodeOpView::Remove { id, .. } => id,
        NodeOpView::Update { id, .. } => id,
    }
}

/// No two edits are about the same node.
pub open spec fn one_edit_per_node(ops: Seq<NodeOpView>) -> bool {
    forall|i: int, j: int| 0 <= i < j < ops.len() ==> op_node(#[trigger] ops[i]) != op_node(#[trigger] ops[j])
}

/// A transform that goes through updates exactly the nodes it moves, in selection order: one
/// update for each, from the node as it stands to the node with its new transform, and nothing
/// else. Every selected node without a selected ancestor is among them.
pub proof fn lemma_a_transform_updates_exactly_its_targets(
    doc: DocumentView,
    ids: Seq<NodeId>,
    selected: Set<u64>,
    moved: Map<u64, Result<Transform, CmdErrorView>>,
)
    ensures
        transform_ops(doc, ids, selected, moved) matches Ok(ops) ==> ({
            let t = transform_targets_of(doc, ids, selected);
            &&& ops.len() == t.len()
            &&& forall|i: int|
                0 <= i < t.len() ==> moved.contains_key(t[i].0) && moved[t[i].0] is Ok && #[trigger] ops[i]
                    == (NodeOpView::Update {
                    id: t[i],
                    before: doc.nodes[t[i].0],
                    after: with_transform(doc.nodes[t[i].0], moved[t[i].0]->Ok_0),
                })
            &&& forall|j: int|
                0 <= j < ids.len() && !selected_ancestor_within(doc, selected, #[trigger] ids[j], doc.nodes.dom().len())
                    ==> t.contains(ids[j])
        }),
    decreases ids.len(),
{
    if ids.len() > 0 {
        let prev = ids.drop_last();
        lemma_a_transform_updates_exactly_its_targets(doc, prev, selected, moved);
        match transform_ops(doc, ids, selected, moved) {
            Ok(ops) => {
                let before = transform_targets_of(doc, prev, selected);
                let t = transform_targets_of(doc, ids, selected);
                let ops0 = transform_ops(doc, prev, selected, moved)->Ok_0;
                let id = ids.last();
                assert(transform_ops(doc, prev, selected, moved) is Ok);
                assert(doc.nodes.contains_key(id.0));
                assert(all_present(doc, prev) ==> all_present(doc, ids)) by {
                    assert forall|j: int| all_present(doc, prev) && 0 <= j < ids.len() implies doc.nodes.contains_key(
                        (#[trigger] ids[j]).0,
                    ) by {
                        if j < prev.len() {
                            assert(ids[j] == prev[j]);
                        }
                    }
                }
                lemma_ok_means_present(doc, prev, selected, moved);
                assert forall|j: int|
                    0 <= j < ids.len() && !selected_ancestor_within(doc, selected, #[trigger] ids[j], doc.nodes.dom().len())
                        implies t.contains(ids[j]) by {
                    if j < prev.len() {
                        assert(ids[j] == prev[j]);
                        assert(before.contains(prev[j]));
                        let w = choose|w: int| 0 <= w < before.len() && before[w] == prev[j];
                        if t != before {
                            assert(t[w] == before[w]);
                        }
                    } else {
                        if prev.contains(id) {
                            let w = choose|w: int| 0 <= w < prev.len() && prev[w] == id;
                            assert(prev[w] == ids[w]);
                            assert(before.contains(prev[w]));
                            let v = choose|v: int| 0 <= v < before.len() && before[v] == prev[w];
                            if t != before {
                                assert(t[v] == before[v]);
                            }
                        } else {
                            assert(t[t.len() - 1] == id);
                        }
                    }
                }
            },
            Err(_) => {},
        }
    }
}

/// A transform that goes through found every selected node.
proof fn lemma_ok_means_present(
    doc: DocumentView,
    ids: Seq<NodeId>,
    selected: Set<u64>,
    moved: Map<u64, Result<Transform, CmdErrorView>>,
)
    ensures
        transform_ops(doc, ids, selected, moved) is Ok ==> all_present(doc, ids),
    decreases ids.len(),
{
    if ids.len() > 0 {
        lemma_ok_means_present(doc, ids.drop_last(), selected, moved);
        if transform_ops(doc, ids, selected, moved) is Ok {
            assert forall|j: int| 0 <= j < ids.len() implies doc.nodes.contains_key((#[trigger] ids[j]).0) by {
                if j < ids.len() - 1 {
                    assert(ids[j] == ids.drop_last()[j]);
                }
            }
        }
    }
}

/// A transform moves each node at most once: no node is moved twice, none that sits under a
/// selected ancestor is moved, since the ancestor carries it along, and only selected nodes move.
pub proof fn lemma_a_transform_moves_each_node_once(doc: DocumentView, ids: Seq<NodeId>, selected: Set<u64>)
    ensures
        ({
            let t = transform_targets_of(doc, ids, selected);
            &&& forall|i: int, j: int| 0 <= i < j < t.len() ==> #[trigger] t[i] != #[trigger] t[j]
            &&& forall|i: int|
                0 <= i < t.len() ==> !selected_ancestor_within(
                    doc,
                    selected,
                    #[trigger] t[i],
                    doc.nodes.dom().len(),
                )
            &&& forall|i: int| 0 <= i < t.len() ==> ids.contains(#[trigger] t[i])
        }),
    decreases ids.len(),
{
    if ids.len() > 0 {
        let prev = ids.drop_last();
        lemma_a_transform_moves_each_node_once(doc, prev, selected);
        let before = transform_targets_of(doc, prev, selected);
        let t = transform_targets_of(doc, ids, selected);
        assert forall|i: int| 0 <= i < before.len() implies ids.contains(#[trigger] before[i]) by {
            let w = choose|w: int| 0 <= w < prev.len() && prev[w] == before[i];
            assert(ids[w] == prev[w]);
        }
        if t != before {
            let id = ids.last();
            assert(t == before.push(id));
            assert(!prev.contains(id));
            assert forall|i: int, j: int| 0 <= i < j < t.len() implies #[trigger] t[i] != #[trigger] t[j] by {
                if j == t.len() - 1 {
                    assert(prev.contains(before[i]));
                }
            }
            assert(ids[ids.len() - 1] == id);
        }
    }
}

/// Every node a material edit updates, no node twice.
pub proof fn lemma_a_material_edit_updates_each_node_once(doc: DocumentView, ids: Seq<NodeId>, value: PresetAssignmentView)
    ensures
        material_updates(doc, ids, value) matches Ok(ops) ==> one_edit_per_node(ops) && forall|i: int|
            0 <= i < ops.len() ==> ids.contains(op_node(#[trigger] ops[i])),
    decreases ids.len(),
{
    if ids.len() > 0 {
        let prev = ids.drop_last();
        lemma_a_material_edit_updates_each_node_once(doc, prev, value);
        match material_updates(doc, prev, value) {
            Ok(ops) => {
                assert forall|i: int| 0 <= i < ops.len() implies ids.contains(op_node(#[trigger] ops[i])) by {
                    let w = choose|w: int| 0 <= w < prev.len() && prev[w] == op_node(ops[i]);
                    assert(ids[w] == prev[w]);
                }
                let id = ids.last();
                assert(ids[ids.len() - 1] == id);
                if let Ok(now) = material_updates(doc, ids, value) {
                    if now.len() > ops.len() {
                        assert(!prev.contains(id));
                        assert forall|i: int, j: int| 0 <= i < j < now.len() implies op_node(#[trigger] now[i]) != op_node(#[trigger] now[j]) by {
                            if j == now.len() - 1 {
                                assert(now[i] == ops[i]);
                                assert(prev.contains(op_node(ops[i])));
                            } else {
                                assert(now[i] == ops[i] && now[j] == ops[j]);
                            }
                        }
                        assert forall|i: int| 0 <= i < now.len() implies ids.contains(op_node(#[trigger] now[i])) by {
                            if i < ops.len() {
                                assert(now[i] == ops[i]);
                            }
                        }
                    }
                }
            },
            Err(_) => {},
        }
    }
}

proof fn lemma_cut_walk_updates_each_shape_once(
    doc: DocumentView,
    stack: Seq<NodeId>,
    seen: Set<u64>,
    value: CutLineType,
    ops: Seq<NodeOpView>,
)
    requires
        doc.nodes.dom().finite(),
        one_edit_per_node(ops),
        forall|i: int| 0 <= i < ops.len() ==> seen.contains(op_node(#[trigger] ops[i]).0),
    ensures
        cut_walk(doc, stack, seen, value, ops) matches Ok(r) ==> one_edit_per_node(r),
    decreases doc.nodes.dom().difference(seen).len(), stack.len(),
{
    if stack.len() > 0 {
        let id = stack.last();
        let rest = stack.drop_last();
        if doc.nodes.contains_key(id.0) {
            if seen.contains(id.0) {
                lemma_cut_walk_updates_each_shape_once(doc, rest, seen, value, ops);
            } else {
                let n = doc.nodes[id.0];
                let seen2 = seen.insert(id.0);
                lemma_unseen_shrinks(doc.nodes.dom(), seen, id.0);
                match n.kind {
                    NodeKindView::Shape(_) => if n.cut_line_type == value {
                        lemma_cut_walk_updates_each_shape_once(doc, rest, seen2, value, ops);
                    } else {
                        let op = NodeOpView::Update { id, before: n, after: with_cut_line_type(n, value) };
                        let ops2 = ops.push(op);
                        assert forall|i: int, j: int| 0 <= i < j < ops2.len() implies op_node(#[trigger] ops2[i]) != op_node(#[trigger] ops2[j]) by {
                            if j == ops.len() {
                                assert(ops2[i] == ops[i]);
                                assert(seen.contains(op_node(ops[i]).0));
                            } else {
                                assert(ops2[i] == ops[i] && ops2[j] == ops[j]);
                            }
                        }
                        assert forall|i: int| 0 <= i < ops2.len() implies seen2.contains(op_node(#[trigger] ops2[i]).0) by {
                            if i < ops.len() {
                                assert(ops2[i] == ops[i]);
                            }
                        }
                        lemma_cut_walk_updates_each_shape_once(doc, rest, seen2, value, ops2);
                    },
                    _ => {
                        lemma_cut_walk_updates_each_shape_once(doc, rest + n.children.reverse(), seen2, value, ops);
                    },
                }
            }
        }
    }
}

/// A cut line type edit updates each shape at most once, however many times the selection
/// reaches it: a shape selected itself and through its container is updated once.
pub proof fn lemma_a_cut_line_edit_updates_each_shape_once(doc: DocumentView, ids: Seq<NodeId>, value: CutLineType)
    requires
        doc.nodes.dom().finite(),
    ensures
        cut_line_type_verdict(doc, ids, value) matches Ok(ops) ==> one_edit_per_node(ops),
{
    if ids.len() > 0 {
        lemma_the_cut_walk_sets_in_preorder(doc, ids, value);
        lemma_cut_walk_updates_each_shape_once(doc, ids.reverse(), Set::empty(), value, seq![]);
    }
}

/// The number of nodes of `doc` not yet in `seen`.
spec fn unmet(doc: DocumentView, seen: Set<u64>) -> nat {
    doc.nodes.dom().difference(seen).len()
}

proof fn lemma_more_met_fewer_unmet(doc: DocumentView, a: Set<u64>, b: Set<u64>)
    requires
        doc.nodes.dom().finite(),
        a.subset_of(b),
    ensures
        unmet(doc, b) <= unmet(doc, a),
{
    vstd::set::axiom_set_difference_finite(doc.nodes.dom(), a);
    vstd::set_lib::lemma_len_subset(doc.nodes.dom().difference(b), doc.nodes.dom().difference(a));
}

/// Setting a cut line type only ever meets more nodes.
proof fn lemma_cutting_only_meets_more(
    doc: DocumentView,
    ids: Seq<NodeId>,
    id: NodeId,
    value: CutLineType,
    so_far: CutProgress,
    depth: nat,
)
    ensures
        cut_node(doc, id, value, so_far, depth) matches Ok(n) ==> so_far.seen.subset_of(n.seen),
        cut_nodes(doc, ids, value, so_far, depth) matches Ok(n) ==> so_far.seen.subset_of(n.seen),
    decreases depth, ids.len(),
{
    if depth > 0 && !so_far.seen.contains(id.0) && doc.nodes.contains_key(id.0) {
        let n = doc.nodes[id.0];
        let met = CutProgress { seen: so_far.seen.insert(id.0), ..so_far };
        lemma_cutting_only_meets_more(doc, n.children, id, value, met, (depth - 1) as nat);
    }
    if ids.len() > 0 {
        lemma_cutting_only_meets_more(doc, seq![], ids[0], value, so_far, depth);
        match cut_node(doc, ids[0], value, so_far, depth) {
            Ok(next) => {
                lemma_cutting_only_meets_more(doc, ids.drop_first(), id, value, next, depth);
            },
            Err(_) => {},
        }
    }
}

/// Any depth beyond the nodes not yet met sets alike.
proof fn lemma_enough_depth_cuts_alike(
    doc: DocumentView,
    ids: Seq<NodeId>,
    id: NodeId,
    value: CutLineType,
    so_far: CutProgress,
    d1: nat,
    d2: nat,
)
    requires
        doc.nodes.dom().finite(),
        d1 > unmet(doc, so_far.seen),
        d2 > unmet(doc, so_far.seen),
    ensures
        cut_node(doc, id, value, so_far, d1) == cut_node(doc, id, value, so_far, d2),
        cut_nodes(doc, ids, value, so_far, d1) == cut_nodes(doc, ids, value, so_far, d2),
    decreases d1, ids.len(),
{
    if !so_far.seen.contains(id.0) && doc.nodes.contains_key(id.0) {
        let n = doc.nodes[id.0];
        let met = CutProgress { seen: so_far.seen.insert(id.0), ..so_far };
        lemma_unseen_shrinks(doc.nodes.dom(), so_far.seen, id.0);
        lemma_enough_depth_cuts_alike(doc, n.children, id, value, met, (d1 - 1) as nat, (d2 - 1) as nat);
    }
    if ids.len() > 0 {
        lemma_enough_depth_cuts_alike(doc, seq![], ids[0], value, so_far, d1, d2);
        lemma_cutting_only_meets_more(doc, seq![], ids[0], value, so_far, d1);
        match cut_node(doc, ids[0], value, so_far, d1) {
            Ok(next) => {
                lemma_more_met_fewer_unmet(doc, so_far.seen, next.seen);
                lemma_enough_depth_cuts_alike(doc, ids.drop_first(), id, value, next, d1, d2);
            },
            Err(_) => {},
        }
    }
}

/// Setting the stack entries `top`, the topmost (last) first, each with just enough depth.
spec fn cut_entries(doc: DocumentView, top: Seq<NodeId>, value: CutLineType, so_far: CutProgress) -> Result<
    CutProgress,
    CmdErrorView,
>
    decreases top.len(),
{
    if top.len() == 0 {
        Ok(so_far)
    } else {
        match cut_node(doc, top.last(), value, so_far, unmet(doc, so_far.seen) + 1) {
            Ok(next) => cut_entries(doc, top.drop_last(), value, next),
            Err(e) => Err(e),
        }
    }
}

proof fn lemma_cut_entries_split(
    doc: DocumentView,
    below: Seq<NodeId>,
    top: Seq<NodeId>,
    value: CutLineType,
    so_far: CutProgress,
)
    ensures
        cut_entries(doc, below + top, value, so_far) == match cut_entries(doc, top, value, so_far) {
            Ok(next) => cut_entries(doc, below, value, next),
            Err(e) => Err(e),
        },
    decreases top.len(),
{
    if top.len() == 0 {
        assert(below + top =~= below);
    } else {
        assert((below + top).last() == top.last());
        assert((below + top).drop_last() =~= below + top.drop_last());
        match cut_node(doc, top.last(), value, so_far, unmet(doc, so_far.seen) + 1) {
            Ok(next) => {
                lemma_cut_entries_split(doc, below, top.drop_last(), value, next);
            },
            Err(_) => {},
        }
    }
}

proof fn lemma_reversed_entries_cut_in_order(
    doc: DocumentView,
    ids: Seq<NodeId>,
    value: CutLineType,
    so_far: CutProgress,
    depth: nat,
)
    requires
        doc.nodes.dom().finite(),
        depth > unmet(doc, so_far.seen),
    ensures
        cut_entries(doc, ids.reverse(), value, so_far) == cut_nodes(doc, ids, value, so_far, depth),
    decreases ids.len(),
{
    if ids.len() > 0 {
        let r = ids.reverse();
        assert(r.last() == ids[0]);
        assert(r.drop_last() =~= ids.drop_first().reverse());
        let u = unmet(doc, so_far.seen) + 1;
        lemma_enough_depth_cuts_alike(doc, seq![], ids[0], value, so_far, u, depth);
        lemma_cutting_only_meets_more(doc, seq![], ids[0], value, so_far, depth);
        match cut_node(doc, ids[0], value, so_far, depth) {
            Ok(next) => {
                lemma_more_met_fewer_unmet(doc, so_far.seen, next.seen);
                lemma_reversed_entries_cut_in_order(doc, ids.drop_first(), value, next, depth);
            },
            Err(_) => {},
        }
    }
}

proof fn lemma_cut_walk_sets_its_top(
    doc: DocumentView,
    below: Seq<NodeId>,
    top: Seq<NodeId>,
    seen: Set<u64>,
    value: CutLineType,
    ops: Seq<NodeOpView>,
)
    requires
        doc.nodes.dom().finite(),
    ensures
        cut_walk(doc, below + top, seen, value, ops) == match cut_entries(
            doc,
            top,
            value,
            CutProgress { seen, ops },
        ) {
            Ok(n) => cut_walk(doc, below, n.seen, value, n.ops),
            Err(e) => Err(e),
        },
    decreases unmet(doc, seen), top.len(),
{
    let so_far = CutProgress { seen, ops };
    if top.len() == 0 {
        assert(below + top =~= below);
    } else {
        let stack = below + top;
        let id = top.last();
        assert(stack.last() == id);
        assert(stack.drop_last() =~= below + top.drop_last());
        if doc.nodes.contains_key(id.0) {
            if seen.contains(id.0) {
                lemma_cut_walk_sets_its_top(doc, below, top.drop_last(), seen, value, ops);
            } else {
                let n = doc.nodes[id.0];
                let seen2 = seen.insert(id.0);
                let met = CutProgress { seen: seen2, ..so_far };
                lemma_unseen_shrinks(doc.nodes.dom(), seen, id.0);
                match n.kind {
                    NodeKindView::Shape(_) => if n.cut_line_type == value {
                        lemma_cut_walk_sets_its_top(doc, below, top.drop_last(), seen2, value, ops);
                    } else {
                        lemma_cut_walk_sets_its_top(
                            doc,
                            below,
                            top.drop_last(),
                            seen2,
                            value,
                            ops.push(NodeOpView::Update { id, before: n, after: with_cut_line_type(n, value) }),
                        );
                    },
                    _ => {
                        let kids = n.children.reverse();
                        assert(stack.drop_last() + kids =~= below + (top.drop_last() + kids));
                        lemma_cut_walk_sets_its_top(doc, below, top.drop_last() + kids, seen2, value, ops);
                        lemma_cut_entries_split(doc, top.drop_last(), kids, value, met);
                        lemma_reversed_entries_cut_in_order(doc, n.children, value, met, unmet(doc, seen));
                    },
                }
            }
        }
    }
}

/// The loop's stack walk sets a cut line type exactly as the walk in selection order does.
proof fn lemma_the_cut_walk_sets_in_preorder(doc: DocumentView, ids: Seq<NodeId>, value: CutLineType)
    requires
        doc.nodes.dom().finite(),
        ids.len() > 0,
    ensures
        cut_stack_verdict(doc, ids, value) == cut_line_type_verdict(doc, ids, value),
{
    let start = CutProgress { seen: Set::empty(), ops: seq![] };
    assert(Seq::<NodeId>::empty() + ids.reverse() =~= ids.reverse());
    lemma_cut_walk_sets_its_top(doc, Seq::empty(), ids.reverse(), Set::empty(), value, seq![]);
    assert(doc.nodes.dom().difference(Set::empty()) =~= doc.nodes.dom());
    lemma_reversed_entries_cut_in_order(doc, ids, value, start, doc.nodes.dom().len() + 1);
}
} // verus!
