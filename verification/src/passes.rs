//! Planning a document's passes: a walk of the tree from its root that groups every shape that
//! is cut into passes by the key the grouping asks for, and counts the shapes that are not cut.
//! Each shape planned comes with its ancestors, from its parent up to the root, through which
//! its outline is carried into the machine's space.
use vstd::prelude::*;
use std::collections::{HashMap, HashSet};
use crate::document::{
    CutLineType, Document, DocumentView, NodeId, NodeKind, NodeKindView, PresetAssignment,
    PresetAssignmentView, Style,
};
use crate::pass_key::{PassKey, PassKeyView};
use crate::text::push_dec;

verus! {

broadcast use vstd::std_specs::hash::group_hash_axioms;

/// How shapes are split into passes: one pass for everything; by colour, stroke where visible
/// and else fill; by stroke alone; by fill alone; or by material preset.
#[derive(Clone, Copy, PartialEq, Eq, Debug, Structural)]
pub enum Grouping {
    Single,
    Color,
    Stroke,
    Fill,
    Preset,
}

/// Why a document cannot be planned.
#[derive(Debug)]
pub enum PlanError {
    /// A shape that is cut has no outline; the payload says why.
    BadShape(NodeId, String),
    /// A node a container names is not in the document.
    MissingNode(NodeId),
    /// The walk met a node a second time: the document's nodes contain each other.
    CycleDetected,
}

/// A `PlanError` with its text as characters.
pub enum PlanErrorView {
    BadShape(NodeId, Seq<char>),
    MissingNode(NodeId),
    CycleDetected,
}

impl View for PlanError {
    type V = PlanErrorView;

    open spec fn view(&self) -> PlanErrorView {
        match self {
            PlanError::BadShape(n, m) => PlanErrorView::BadShape(*n, m@),
            PlanError::MissingNode(n) => PlanErrorView::MissingNode(*n),
            PlanError::CycleDetected => PlanErrorView::CycleDetected,
        }
    }
}

impl PartialEq for PlanError {
    fn eq(&self, other: &Self) -> (r: bool) {
        let same = match (self, other) {
            (PlanError::BadShape(a, m), PlanError::BadShape(b, n)) => *a == *b && *m == *n,
            (PlanError::MissingNode(a), PlanError::MissingNode(b)) => *a == *b,
            (PlanError::CycleDetected, PlanError::CycleDetected) => true,
            _ => false,
        };
        proof {
            if same {
                assert(self@ == other@);
            }
        }
        same
    }
}

impl vstd::std_specs::cmp::PartialEqSpecImpl for PlanError {
    open spec fn obeys_eq_spec() -> bool {
        true
    }

    open spec fn eq_spec(&self, other: &Self) -> bool {
        self@ == other@
    }
}

/// What an operator reads for each refusal.
pub open spec fn plan_error_message(e: PlanErrorView) -> Seq<char> {
    match e {
        PlanErrorView::BadShape(n, m) => "shape #"@ + crate::text::dec(n.0 as nat) + ": "@ + m,
        PlanErrorView::MissingNode(n) => "shape #"@ + crate::text::dec(n.0 as nat)
            + " is referenced by the document but missing from it"@,
        PlanErrorView::CycleDetected => "the document's shapes contain each other in a loop"@,
    }
}

impl PlanError {
    /// The refusal in the words an operator reads.
    pub fn message(&self) -> (r: String)
        ensures
            r@ == plan_error_message(self@),
    {
        match self {
            PlanError::BadShape(n, m) => {
                let mut r = String::from_str("shape #");
                push_dec(&mut r, n.0);
                r.append(": ");
                r.append(m.as_str());
                r
            },
            PlanError::MissingNode(n) => {
                let mut r = String::from_str("shape #");
                push_dec(&mut r, n.0);
                r.append(" is referenced by the document but missing from it");
                r
            },
            PlanError::CycleDetected => String::from_str(
                "the document's shapes contain each other in a loop",
            ),
        }
    }
}

/// A colour that can be seen: present, with a non-zero alpha byte.
pub open spec fn seen_colour(c: Option<u32>) -> Option<u32> {
    match c {
        Some(v) => if v % 256 != 0 {
            Some(v)
        } else {
            None
        },
        None => None,
    }
}

/// The colour a shape's pass is keyed on under a colour grouping: its visible stroke, else its
/// visible fill, under `Color`; only its stroke under `Stroke`; only its fill under `Fill`.
pub open spec fn colour_key_of(style: Style, grouping: Grouping) -> Option<u32> {
    match grouping {
        Grouping::Color => match seen_colour(style.stroke) {
            Some(c) => Some(c),
            None => seen_colour(style.fill),
        },
        Grouping::Stroke => seen_colour(style.stroke),
        Grouping::Fill => seen_colour(style.fill),
        _ => None,
    }
}

fn visible_colour(c: Option<u32>) -> (r: Option<u32>)
    ensures
        r == seen_colour(c),
{
    match c {
        Some(v) => if v % 256 != 0 {
            Some(v)
        } else {
            None
        },
        None => None,
    }
}

/// The colour a shape's pass is keyed on.
pub fn color_key(style: &Style, grouping: Grouping) -> (r: Option<u32>)
    ensures
        r == colour_key_of(*style, grouping),
{
    match grouping {
        Grouping::Color => match visible_colour(style.stroke) {
            Some(c) => Some(c),
            None => visible_colour(style.fill),
        },
        Grouping::Stroke => visible_colour(style.stroke),
        Grouping::Fill => visible_colour(style.fill),
        _ => None,
    }
}

// ---------------------------------------------------------------------------
// The plan
// ---------------------------------------------------------------------------

/// One shape of a pass, with its ancestors from its parent up to the root.
#[derive(Clone, Debug)]
pub struct ShapeInPass {
    pub node_id: NodeId,
    pub ancestors: Vec<NodeId>,
}

/// A `ShapeInPass` with its ancestors as a sequence.
pub struct ShapeInPassView {
    pub node_id: NodeId,
    pub ancestors: Seq<NodeId>,
}

impl View for ShapeInPass {
    type V = ShapeInPassView;

    open spec fn view(&self) -> ShapeInPassView {
        ShapeInPassView { node_id: self.node_id, ancestors: self.ancestors@ }
    }
}

/// The shapes cut together as one pass, and the key that says which pass it is.
#[derive(Debug)]
pub struct PassOfShapes {
    pub key: PassKey,
    pub shapes: Vec<ShapeInPass>,
}

/// A `PassOfShapes` as values.
pub struct PassOfShapesView {
    pub key: PassKeyView,
    pub shapes: Seq<ShapeInPassView>,
}

/// The shapes, each as its view.
pub open spec fn shapes_in_view(s: Seq<ShapeInPass>) -> Seq<ShapeInPassView> {
    s.map_values(|x: ShapeInPass| x@)
}

impl View for PassOfShapes {
    type V = PassOfShapesView;

    open spec fn view(&self) -> PassOfShapesView {
        PassOfShapesView { key: self.key@, shapes: shapes_in_view(self.shapes@) }
    }
}

/// The passes, each as its view.
pub open spec fn passes_of_view(s: Seq<PassOfShapes>) -> Seq<PassOfShapesView> {
    s.map_values(|p: PassOfShapes| p@)
}

/// Every pass a document holds, in the order first seen, and the number of shapes that are
/// not cut.
#[derive(Debug)]
pub struct PassLayout {
    pub passes: Vec<PassOfShapes>,
    pub skipped_not_cut: usize,
}

/// Where the pass keyed `key` stands among `passes`.
pub open spec fn pass_index(passes: Seq<PassOfShapesView>, key: PassKeyView) -> Option<int>
    decreases passes.len(),
{
    if passes.len() == 0 {
        None
    } else {
        match pass_index(passes.drop_last(), key) {
            Some(i) => Some(i),
            None => if passes.last().key == key {
                Some(passes.len() - 1)
            } else {
                None
            },
        }
    }
}

proof fn lemma_pass_index_names_its_pass(passes: Seq<PassOfShapesView>, key: PassKeyView)
    ensures
        pass_index(passes, key) matches Some(i) ==> 0 <= i < passes.len() && passes[i].key == key,
    decreases passes.len(),
{
    if passes.len() > 0 {
        lemma_pass_index_names_its_pass(passes.drop_last(), key);
    }
}

/// `passes` with `shape` added to the pass keyed `key`, or to a new pass of that key at the end.
pub open spec fn add_to_pass(passes: Seq<PassOfShapesView>, key: PassKeyView, shape: ShapeInPassView) -> Seq<
    PassOfShapesView,
> {
    match pass_index(passes, key) {
        Some(i) => passes.update(i, PassOfShapesView { key, shapes: passes[i].shapes.push(shape) }),
        None => passes.push(PassOfShapesView { key, shapes: seq![shape] }),
    }
}

/// The material a node resolves to, given what it inherits.
pub open spec fn resolved_material(a: PresetAssignmentView, inherited: Option<Seq<char>>) -> Option<
    Seq<char>,
> {
    match a {
        PresetAssignmentView::Inherit => inherited,
        PresetAssignmentView::Unassigned => None,
        PresetAssignmentView::Preset(id) => Some(id),
    }
}

/// The key a cut shape's pass has under a grouping.
pub open spec fn pass_key_for(grouping: Grouping, style: Style, material: Option<Seq<char>>) -> PassKeyView {
    match grouping {
        Grouping::Preset => PassKeyView::Preset(material),
        Grouping::Single => PassKeyView::All,
        _ => PassKeyView::Color(colour_key_of(style, grouping)),
    }
}

/// What planning has gathered so far: the nodes visited, the passes in the order first seen,
/// and the number of shapes that are not cut.
pub struct PlanProgress {
    pub visited: Set<u64>,
    pub passes: Seq<PassOfShapesView>,
    pub skipped: nat,
}

/// Planning the node `id`, which inherits `inherited` and has `ancestors` from its parent up,
/// after what `so_far` gathered, going at most `depth` levels down. A node met a second time
/// refuses the plan, as does a node not in the document. A shape that is not cut is counted; a
/// shape that is cut joins the pass its key names, unless its outline is refused, which refuses
/// the plan; any other node plans its children in order, with the material it resolves to.
/// Only a walk that meets some node twice goes deeper than the document has nodes, so running
/// out of depth is that refusal too.
pub open spec fn plan_node(
    doc: DocumentView,
    grouping: Grouping,
    refused: Map<u64, Seq<char>>,
    id: NodeId,
    inherited: Option<Seq<char>>,
    ancestors: Seq<NodeId>,
    so_far: PlanProgress,
    depth: nat,
) -> Result<PlanProgress, PlanErrorView>
    decreases depth, 0nat, 0nat,
{
    if depth == 0 || so_far.visited.contains(id.0) {
        Err(PlanErrorView::CycleDetected)
    } else if !doc.nodes.contains_key(id.0) {
        Err(PlanErrorView::MissingNode(id))
    } else {
        let n = doc.nodes[id.0];
        let material = resolved_material(n.material_preset, inherited);
        let seen = PlanProgress { visited: so_far.visited.insert(id.0), ..so_far };
        match n.kind {
            NodeKindView::Shape(_) => match n.cut_line_type {
                CutLineType::NoCut => Ok(PlanProgress { skipped: seen.skipped + 1, ..seen }),
                CutLineType::Cut => if refused.contains_key(id.0) {
                    Err(PlanErrorView::BadShape(id, refused[id.0]))
                } else {
                    Ok(
                        PlanProgress {
                            passes: add_to_pass(
                                seen.passes,
                                pass_key_for(grouping, n.style, material),
                                ShapeInPassView { node_id: id, ancestors },
                            ),
                            ..seen
                        },
                    )
                },
            },
            _ => plan_children(
                doc,
                grouping,
                refused,
                n.children,
                material,
                seq![id] + ancestors,
                seen,
                (depth - 1) as nat,
            ),
        }
    }
}

/// Planning `children` one after the other, first to last, each inheriting `material` and
/// having `ancestors`, after what `so_far` gathered; the first refusal refuses the plan.
pub open spec fn plan_children(
    doc: DocumentView,
    grouping: Grouping,
    refused: Map<u64, Seq<char>>,
    children: Seq<NodeId>,
    material: Option<Seq<char>>,
    ancestors: Seq<NodeId>,
    so_far: PlanProgress,
    depth: nat,
) -> Result<PlanProgress, PlanErrorView>
    decreases depth, 1nat, children.len(),
{
    if children.len() == 0 {
        Ok(so_far)
    } else {
        match plan_node(doc, grouping, refused, children[0], material, ancestors, so_far, depth) {
            Ok(next) => plan_children(
                doc,
                grouping,
                refused,
                children.drop_first(),
                material,
                ancestors,
                next,
                depth,
            ),
            Err(e) => Err(e),
        }
    }
}

/// What planning a document decides: its nodes planned in preorder from the root, which
/// inherits no material and has no ancestors, allowed one level more than the document has
/// nodes. Gives the passes and the number of shapes not cut.
pub open spec fn plan_of(doc: DocumentView, grouping: Grouping, refused: Map<u64, Seq<char>>) -> Result<
    (Seq<PassOfShapesView>, nat),
    PlanErrorView,
> {
    match plan_node(
        doc,
        grouping,
        refused,
        doc.root,
        None,
        seq![],
        PlanProgress { visited: Set::empty(), passes: seq![], skipped: 0 },
        doc.nodes.dom().len() + 1,
    ) {
        Ok(p) => Ok((p.passes, p.skipped)),
        Err(e) => Err(e),
    }
}

/// One node still to visit: its id, the material it inherits, and its ancestors from its
/// parent up.
type WalkEntry = (NodeId, Option<Seq<char>>, Seq<NodeId>);

/// The entries for a container's children, last child first so that the first is on top.
spec fn child_entries(children: Seq<NodeId>, material: Option<Seq<char>>, ancestors: Seq<NodeId>) -> Seq<
    WalkEntry,
> {
    Seq::new(
        children.len(),
        |i: int| (children[children.len() - 1 - i], material, ancestors),
    )
}

/// The planning walk as the loop runs it, over a stack whose top is its last element: the
/// same steps as `plan_node`, with a container's children put on the stack instead of planned
/// at once.
spec fn plan_walk(
    doc: DocumentView,
    grouping: Grouping,
    refused: Map<u64, Seq<char>>,
    stack: Seq<WalkEntry>,
    visited: Set<u64>,
    passes: Seq<PassOfShapesView>,
    skipped: nat,
) -> Result<(Seq<PassOfShapesView>, nat), PlanErrorView>
    decreases doc.nodes.dom().difference(visited).len(),
    when doc.nodes.dom().finite()
{
    if stack.len() == 0 {
        Ok((passes, skipped))
    } else {
        let (id, inherited, ancestors) = stack.last();
        let rest = stack.drop_last();
        if visited.contains(id.0) {
            Err(PlanErrorView::CycleDetected)
        } else if !doc.nodes.contains_key(id.0) {
            Err(PlanErrorView::MissingNode(id))
        } else {
            let n = doc.nodes[id.0];
            let material = resolved_material(n.material_preset, inherited);
            let visited2 = visited.insert(id.0);
            proof {
                crate::commands::lemma_unseen_shrinks(doc.nodes.dom(), visited, id.0);
            }
            match n.kind {
                NodeKindView::Shape(_) => match n.cut_line_type {
                    CutLineType::NoCut => plan_walk(
                        doc,
                        grouping,
                        refused,
                        rest,
                        visited2,
                        passes,
                        skipped + 1,
                    ),
                    CutLineType::Cut => if refused.contains_key(id.0) {
                        Err(PlanErrorView::BadShape(id, refused[id.0]))
                    } else {
                        plan_walk(
                            doc,
                            grouping,
                            refused,
                            rest,
                            visited2,
                            add_to_pass(
                                passes,
                                pass_key_for(grouping, n.style, material),
                                ShapeInPassView { node_id: id, ancestors },
                            ),
                            skipped,
                        )
                    },
                },
                _ => plan_walk(
                    doc,
                    grouping,
                    refused,
                    rest + child_entries(n.children, material, seq![id] + ancestors),
                    visited2,
                    passes,
                    skipped,
                ),
            }
        }
    }
}

/// The stack walk from the root alone.
spec fn plan_verdict(doc: DocumentView, grouping: Grouping, refused: Map<u64, Seq<char>>) -> Result<
    (Seq<PassOfShapesView>, nat),
    PlanErrorView,
> {
    plan_walk(doc, grouping, refused, seq![(doc.root, None, seq![])], Set::empty(), seq![], 0)
}

/// The refused outlines, each as its text.
pub open spec fn refusals_view(m: Map<u64, String>) -> Map<u64, Seq<char>> {
    m.map_values(|s: String| s@)
}

fn find_pass(passes: &Vec<PassOfShapes>, key: &PassKey) -> (r: Option<usize>)
    ensures
        match r {
            Some(i) => pass_index(passes_of_view(passes@), key@) == Some(i as int) && i < passes@.len(),
            None => pass_index(passes_of_view(passes@), key@) is None,
        },
{
    let ghost pv = passes_of_view(passes@);
    let mut found: Option<usize> = None;
    let mut i: usize = 0;
    while i < passes.len()
        invariant
            i <= passes.len(),
            pv == passes_of_view(passes@),
            match found {
                Some(j) => pass_index(pv.take(i as int), key@) == Some(j as int) && j < i,
                None => pass_index(pv.take(i as int), key@) is None,
            },
        decreases passes.len() - i,
    {
        assert(pv.take(i + 1).drop_last() =~= pv.take(i as int));
        if found.is_none() && passes[i].key == *key {
            found = Some(i);
        }
        i = i + 1;
    }
    assert(pv.take(passes.len() as int) =~= pv);
    found
}

fn join_pass(passes: &mut Vec<PassOfShapes>, key: PassKey, shape: ShapeInPass)
    ensures
        passes_of_view(final(passes)@) == add_to_pass(passes_of_view(old(passes)@), key@, shape@),
{
    let ghost pv = passes_of_view(passes@);
    match find_pass(passes, &key) {
        Some(i) => {
            let ghost raw = passes@;
            let mut pass = passes.remove(i);
            let ghost old_shapes = shapes_in_view(pass.shapes@);
            pass.shapes.push(shape);
            assert(shapes_in_view(pass.shapes@) =~= old_shapes.push(shape@));
            let ghost changed = pass;
            passes.insert(i, pass);
            assert(passes@ =~= raw.update(i as int, changed));
            proof {
                lemma_pass_index_names_its_pass(pv, key@);
                assert(changed@ == PassOfShapesView { key: key@, shapes: pv[i as int].shapes.push(shape@) });
            }
            assert(passes_of_view(passes@) =~= pv.update(
                i as int,
                PassOfShapesView { key: key@, shapes: pv[i as int].shapes.push(shape@) },
            ));
        },
        None => {
            let mut shapes: Vec<ShapeInPass> = Vec::new();
            shapes.push(shape);
            assert(shapes_in_view(shapes@) =~= seq![shape@]);
            passes.push(PassOfShapes { key, shapes });
            assert(passes_of_view(passes@) =~= pv.push(PassOfShapesView { key: key@, shapes: seq![shape@] }));
        },
    }
}

/// An owned optional material, by its characters.
pub open spec fn material_view(m: Option<String>) -> Option<Seq<char>> {
    match m {
        Some(s) => Some(s@),
        None => None,
    }
}

/// The stack entries, each as values.
spec fn stack_view(s: Seq<(NodeId, Option<String>, Vec<NodeId>)>) -> Seq<WalkEntry> {
    s.map_values(|e: (NodeId, Option<String>, Vec<NodeId>)| (e.0, material_view(e.1), e.2@))
}

fn copy_material(m: &Option<String>) -> (r: Option<String>)
    ensures
        material_view(r) == material_view(*m),
{
    match m {
        Some(s) => Some(s.clone()),
        None => None,
    }
}

/// Plans a document's passes under `grouping`: every shape that is cut, in the order of a
/// preorder walk from the root, joins the pass its key names, and passes stand in the order
/// first seen. `refused` holds, by node, why a shape has no outline; it is asked only of shapes
/// that are cut.
pub fn plan_layout(doc: &Document, grouping: Grouping, refused: &HashMap<u64, String>) -> (r: Result<
    PassLayout,
    PlanError,
>)
    ensures
        match plan_of(doc@, grouping, refusals_view(refused@)) {
            Ok((passes, skipped)) => r matches Ok(l) && passes_of_view(l.passes@) == passes
                && l.skipped_not_cut == skipped,
            Err(e) => r matches Err(x) && x@ == e,
        },
{
    proof {
        assert(doc@.nodes.dom() =~= doc.nodes@.dom());
        vstd::std_specs::hash::axiom_hashmap_view_finite_dom(doc.nodes);
    }
    let ghost rv = refusals_view(refused@);
    proof {
        lemma_the_walk_plans_in_preorder(doc@, grouping, rv);
    }
    let total: usize = doc.nodes.len();
    assert(doc.nodes@.len() == doc.nodes@.dom().len());
    let mut stack: Vec<(NodeId, Option<String>, Vec<NodeId>)> = Vec::new();
    stack.push((doc.root, None, Vec::new()));
    assert(stack_view(stack@) =~= seq![(doc@.root, None::<Seq<char>>, Seq::<NodeId>::empty())]);
    let ghost start = plan_verdict(doc@, grouping, rv);
    let mut visited: HashSet<u64> = HashSet::new();
    let mut passes: Vec<PassOfShapes> = Vec::new();
    let mut skipped: usize = 0;
    assert(passes_of_view(passes@) =~= Seq::<PassOfShapesView>::empty());
    while stack.len() > 0
        invariant
            doc@.nodes.dom().finite(),
            rv == refusals_view(refused@),
            visited@.subset_of(doc@.nodes.dom()),
            skipped <= visited@.len(),
            visited@.finite(),
            visited@.len() <= doc@.nodes.dom().len(),
            doc@.nodes.dom().len() == doc.nodes@.dom().len(),
            doc.nodes@.dom().len() == total,
            start == plan_verdict(doc@, grouping, rv),
            start == plan_of(doc@, grouping, rv),
            start == plan_walk(
                doc@,
                grouping,
                rv,
                stack_view(stack@),
                visited@,
                passes_of_view(passes@),
                skipped as nat,
            ),
        decreases doc@.nodes.dom().difference(visited@).len(),
    {
        let ghost before_stack = stack@;
        let (id, inherited, ancestors) = stack.pop().unwrap();
        assert(stack_view(before_stack).drop_last() =~= stack_view(stack@));
        assert(stack_view(before_stack).last() == (id, material_view(inherited), ancestors@));
        if visited.contains(&id.0) {
            return Err(PlanError::CycleDetected);
        }
        let node = match doc.get(id) {
            None => {
                return Err(PlanError::MissingNode(id));
            },
            Some(n) => n,
        };
        let ghost old_visited = visited@;
        visited.insert(id.0);
        proof {
            crate::commands::lemma_unseen_shrinks(doc@.nodes.dom(), old_visited, id.0);
            vstd::set::axiom_set_insert_len(old_visited, id.0);
            vstd::set_lib::lemma_len_subset(visited@, doc@.nodes.dom());
        }
        let material: Option<String> = match &node.material_preset {
            PresetAssignment::Inherit => inherited,
            PresetAssignment::Unassigned => None,
            PresetAssignment::Preset(p) => Some(p.clone()),
        };
        match &node.kind {
            NodeKind::Shape(_) => {
                match node.cut_line_type {
                    CutLineType::NoCut => {
                        skipped = skipped + 1;
                    },
                    CutLineType::Cut => {
                        match refused.get(&id.0) {
                            Some(m) => {
                                return Err(PlanError::BadShape(id, m.clone()));
                            },
                            None => {},
                        }
                        let key = match grouping {
                            Grouping::Preset => PassKey::Preset(material),
                            Grouping::Single => PassKey::All,
                            _ => PassKey::Color(color_key(&node.style, grouping)),
                        };
                        join_pass(&mut passes, key, ShapeInPass { node_id: id, ancestors });
                    },
                }
            },
            _ => {
                let mut below: Vec<NodeId> = Vec::new();
                below.push(id);
                let mut a: usize = 0;
                while a < ancestors.len()
                    invariant
                        a <= ancestors.len(),
                        below@ == seq![id] + ancestors@.take(a as int),
                    decreases ancestors.len() - a,
                {
                    below.push(ancestors[a]);
                    a = a + 1;
                    assert(below@ =~= seq![id] + ancestors@.take(a as int));
                }
                assert(ancestors@.take(ancestors.len() as int) =~= ancestors@);
                let ghost base = stack_view(stack@);
                let ghost kids = node.children@;
                let mut c: usize = node.children.len();
                while c > 0
                    invariant
                        c <= node.children.len(),
                        kids == node.children@,
                        below@ == seq![id] + ancestors@,
                        stack_view(stack@) == base + child_entries(
                            kids.subrange(c as int, kids.len() as int),
                            material_view(material),
                            below@,
                        ),
                    decreases c,
                {
                    c = c - 1;
                    let ghost was = stack_view(stack@);
                    stack.push((node.children[c], copy_material(&material), below.clone()));
                    assert(stack_view(stack@) =~= was.push((kids[c as int], material_view(material), below@)));
                    assert(child_entries(kids.subrange(c as int, kids.len() as int), material_view(material), below@)
                        =~= child_entries(kids.subrange(c + 1, kids.len() as int), material_view(material), below@).push(
                        (kids[c as int], material_view(material), below@),
                    ));
                    assert(stack_view(stack@) =~= base + child_entries(
                        kids.subrange(c as int, kids.len() as int),
                        material_view(material),
                        below@,
                    ));
                }
                assert(kids.subrange(0, kids.len() as int) =~= kids);
            },
        }
    }
    Ok(PassLayout { passes, skipped_not_cut: skipped })
}


/// The number of nodes of `doc` not yet in `visited`.
spec fn unseen(doc: DocumentView, visited: Set<u64>) -> nat {
    doc.nodes.dom().difference(visited).len()
}

proof fn lemma_more_seen_fewer_unseen(doc: DocumentView, a: Set<u64>, b: Set<u64>)
    requires
        doc.nodes.dom().finite(),
        a.subset_of(b),
    ensures
        unseen(doc, b) <= unseen(doc, a),
{
    vstd::set::axiom_set_difference_finite(doc.nodes.dom(), a);
    vstd::set_lib::lemma_len_subset(doc.nodes.dom().difference(b), doc.nodes.dom().difference(a));
}

/// Planning only ever adds to the nodes visited.
proof fn lemma_planning_only_visits_more(
    doc: DocumentView,
    grouping: Grouping,
    refused: Map<u64, Seq<char>>,
    children: Seq<NodeId>,
    id: NodeId,
    inherited: Option<Seq<char>>,
    ancestors: Seq<NodeId>,
    so_far: PlanProgress,
    depth: nat,
)
    ensures
        plan_node(doc, grouping, refused, id, inherited, ancestors, so_far, depth) matches Ok(n)
            ==> so_far.visited.subset_of(n.visited) && n.visited.contains(id.0),
        plan_children(doc, grouping, refused, children, inherited, ancestors, so_far, depth) matches Ok(n)
            ==> so_far.visited.subset_of(n.visited),
    decreases depth, children.len(),
{
    if depth > 0 && !so_far.visited.contains(id.0) && doc.nodes.contains_key(id.0) {
        let n = doc.nodes[id.0];
        let seen = PlanProgress { visited: so_far.visited.insert(id.0), ..so_far };
        lemma_planning_only_visits_more(
            doc,
            grouping,
            refused,
            n.children,
            id,
            resolved_material(n.material_preset, inherited),
            seq![id] + ancestors,
            seen,
            (depth - 1) as nat,
        );
    }
    if children.len() > 0 {
        lemma_planning_only_visits_more(doc, grouping, refused, seq![], children[0], inherited, ancestors, so_far, depth);
        match plan_node(doc, grouping, refused, children[0], inherited, ancestors, so_far, depth) {
            Ok(next) => {
                lemma_planning_only_visits_more(
                    doc,
                    grouping,
                    refused,
                    children.drop_first(),
                    id,
                    inherited,
                    ancestors,
                    next,
                    depth,
                );
            },
            Err(_) => {},
        }
    }
}

/// Any depth beyond the nodes not yet visited plans alike.
proof fn lemma_enough_depth_plans_alike(
    doc: DocumentView,
    grouping: Grouping,
    refused: Map<u64, Seq<char>>,
    children: Seq<NodeId>,
    id: NodeId,
    inherited: Option<Seq<char>>,
    ancestors: Seq<NodeId>,
    so_far: PlanProgress,
    d1: nat,
    d2: nat,
)
    requires
        doc.nodes.dom().finite(),
        d1 > unseen(doc, so_far.visited),
        d2 > unseen(doc, so_far.visited),
    ensures
        plan_node(doc, grouping, refused, id, inherited, ancestors, so_far, d1) == plan_node(
            doc,
            grouping,
            refused,
            id,
            inherited,
            ancestors,
            so_far,
            d2,
        ),
        plan_children(doc, grouping, refused, children, inherited, ancestors, so_far, d1)
            == plan_children(doc, grouping, refused, children, inherited, ancestors, so_far, d2),
    decreases d1, children.len(),
{
    if !so_far.visited.contains(id.0) && doc.nodes.contains_key(id.0) {
        let n = doc.nodes[id.0];
        let seen = PlanProgress { visited: so_far.visited.insert(id.0), ..so_far };
        crate::commands::lemma_unseen_shrinks(doc.nodes.dom(), so_far.visited, id.0);
        lemma_enough_depth_plans_alike(
            doc,
            grouping,
            refused,
            n.children,
            id,
            resolved_material(n.material_preset, inherited),
            seq![id] + ancestors,
            seen,
            (d1 - 1) as nat,
            (d2 - 1) as nat,
        );
    }
    if children.len() > 0 {
        lemma_enough_depth_plans_alike(doc, grouping, refused, seq![], children[0], inherited, ancestors, so_far, d1, d2);
        lemma_planning_only_visits_more(doc, grouping, refused, seq![], children[0], inherited, ancestors, so_far, d1);
        match plan_node(doc, grouping, refused, children[0], inherited, ancestors, so_far, d1) {
            Ok(next) => {
                lemma_more_seen_fewer_unseen(doc, so_far.visited, next.visited);
                lemma_enough_depth_plans_alike(
                    doc,
                    grouping,
                    refused,
                    children.drop_first(),
                    id,
                    inherited,
                    ancestors,
                    next,
                    d1,
                    d2,
                );
            },
            Err(_) => {},
        }
    }
}

/// Planning the stack entries `top`, the topmost (last) first, each with just enough depth.
spec fn plan_entries(doc: DocumentView, grouping: Grouping, refused: Map<u64, Seq<char>>, top: Seq<WalkEntry>, so_far: PlanProgress) -> Result<
    PlanProgress,
    PlanErrorView,
>
    decreases top.len(),
{
    if top.len() == 0 {
        Ok(so_far)
    } else {
        let (id, inherited, ancestors) = top.last();
        match plan_node(doc, grouping, refused, id, inherited, ancestors, so_far, unseen(doc, so_far.visited) + 1) {
            Ok(next) => plan_entries(doc, grouping, refused, top.drop_last(), next),
            Err(e) => Err(e),
        }
    }
}

proof fn lemma_entries_split(
    doc: DocumentView,
    grouping: Grouping,
    refused: Map<u64, Seq<char>>,
    below: Seq<WalkEntry>,
    top: Seq<WalkEntry>,
    so_far: PlanProgress,
)
    ensures
        plan_entries(doc, grouping, refused, below + top, so_far) == match plan_entries(
            doc,
            grouping,
            refused,
            top,
            so_far,
        ) {
            Ok(next) => plan_entries(doc, grouping, refused, below, next),
            Err(e) => Err(e),
        },
    decreases top.len(),
{
    if top.len() == 0 {
        assert(below + top =~= below);
    } else {
        assert((below + top).last() == top.last());
        assert((below + top).drop_last() =~= below + top.drop_last());
        let (id, inherited, ancestors) = top.last();
        match plan_node(doc, grouping, refused, id, inherited, ancestors, so_far, unseen(doc, so_far.visited) + 1) {
            Ok(next) => {
                lemma_entries_split(doc, grouping, refused, below, top.drop_last(), next);
            },
            Err(_) => {},
        }
    }
}

proof fn lemma_child_entries_plan_the_children(
    doc: DocumentView,
    grouping: Grouping,
    refused: Map<u64, Seq<char>>,
    children: Seq<NodeId>,
    material: Option<Seq<char>>,
    ancestors: Seq<NodeId>,
    so_far: PlanProgress,
    depth: nat,
)
    requires
        doc.nodes.dom().finite(),
        depth > unseen(doc, so_far.visited),
    ensures
        plan_entries(doc, grouping, refused, child_entries(children, material, ancestors), so_far)
            == plan_children(doc, grouping, refused, children, material, ancestors, so_far, depth),
    decreases children.len(),
{
    let ce = child_entries(children, material, ancestors);
    if children.len() > 0 {
        assert(ce.last() == (children[0], material, ancestors));
        assert(ce.drop_last() =~= child_entries(children.drop_first(), material, ancestors));
        let u = unseen(doc, so_far.visited) + 1;
        lemma_enough_depth_plans_alike(doc, grouping, refused, seq![], children[0], material, ancestors, so_far, u, depth);
        lemma_planning_only_visits_more(doc, grouping, refused, seq![], children[0], material, ancestors, so_far, depth);
        match plan_node(doc, grouping, refused, children[0], material, ancestors, so_far, depth) {
            Ok(next) => {
                lemma_more_seen_fewer_unseen(doc, so_far.visited, next.visited);
                lemma_child_entries_plan_the_children(
                    doc,
                    grouping,
                    refused,
                    children.drop_first(),
                    material,
                    ancestors,
                    next,
                    depth,
                );
            },
            Err(_) => {},
        }
    }
}

proof fn lemma_stack_walk_plans_its_top(
    doc: DocumentView,
    grouping: Grouping,
    refused: Map<u64, Seq<char>>,
    below: Seq<WalkEntry>,
    top: Seq<WalkEntry>,
    visited: Set<u64>,
    passes: Seq<PassOfShapesView>,
    skipped: nat,
)
    requires
        doc.nodes.dom().finite(),
    ensures
        plan_walk(doc, grouping, refused, below + top, visited, passes, skipped) == match plan_entries(
            doc,
            grouping,
            refused,
            top,
            PlanProgress { visited, passes, skipped },
        ) {
            Ok(n) => plan_walk(doc, grouping, refused, below, n.visited, n.passes, n.skipped),
            Err(e) => Err(e),
        },
    decreases unseen(doc, visited),
{
    let so_far = PlanProgress { visited, passes, skipped };
    if top.len() == 0 {
        assert(below + top =~= below);
    } else {
        let stack = below + top;
        assert(stack.last() == top.last());
        assert(stack.drop_last() =~= below + top.drop_last());
        let (id, inherited, ancestors) = top.last();
        if !visited.contains(id.0) && doc.nodes.contains_key(id.0) {
            let n = doc.nodes[id.0];
            let material = resolved_material(n.material_preset, inherited);
            let visited2 = visited.insert(id.0);
            let seen = PlanProgress { visited: visited2, ..so_far };
            crate::commands::lemma_unseen_shrinks(doc.nodes.dom(), visited, id.0);
            match n.kind {
                NodeKindView::Shape(_) => match n.cut_line_type {
                    CutLineType::NoCut => {
                        lemma_stack_walk_plans_its_top(
                            doc,
                            grouping,
                            refused,
                            below,
                            top.drop_last(),
                            visited2,
                            passes,
                            skipped + 1,
                        );
                    },
                    CutLineType::Cut => {
                        if !refused.contains_key(id.0) {
                            lemma_stack_walk_plans_its_top(
                                doc,
                                grouping,
                                refused,
                                below,
                                top.drop_last(),
                                visited2,
                                add_to_pass(
                                    passes,
                                    pass_key_for(grouping, n.style, material),
                                    ShapeInPassView { node_id: id, ancestors },
                                ),
                                skipped,
                            );
                        }
                    },
                },
                _ => {
                    let ce = child_entries(n.children, material, seq![id] + ancestors);
                    assert(stack.drop_last() + ce =~= below + (top.drop_last() + ce));
                    lemma_stack_walk_plans_its_top(
                        doc,
                        grouping,
                        refused,
                        below,
                        top.drop_last() + ce,
                        visited2,
                        passes,
                        skipped,
                    );
                    lemma_entries_split(doc, grouping, refused, top.drop_last(), ce, seen);
                    lemma_child_entries_plan_the_children(
                        doc,
                        grouping,
                        refused,
                        n.children,
                        material,
                        seq![id] + ancestors,
                        seen,
                        unseen(doc, visited),
                    );
                },
            }
        }
    }
}

/// The loop's stack walk plans exactly as the preorder walk does.
proof fn lemma_the_walk_plans_in_preorder(doc: DocumentView, grouping: Grouping, refused: Map<u64, Seq<char>>)
    requires
        doc.nodes.dom().finite(),
    ensures
        plan_verdict(doc, grouping, refused) == plan_of(doc, grouping, refused),
{
    let start = PlanProgress { visited: Set::empty(), passes: seq![], skipped: 0 };
    let top: Seq<WalkEntry> = seq![(doc.root, None, seq![])];
    assert(Seq::<WalkEntry>::empty() + top =~= top);
    lemma_stack_walk_plans_its_top(doc, grouping, refused, Seq::empty(), top, Set::empty(), seq![], 0);
    assert(top.drop_last() =~= Seq::<WalkEntry>::empty());
    assert(doc.nodes.dom().difference(Set::empty()) =~= doc.nodes.dom());
    assert(top.last() == (doc.root, None::<Seq<char>>, Seq::<NodeId>::empty()));
    assert(unseen(doc, Set::empty()) == doc.nodes.dom().len());
    match plan_node(doc, grouping, refused, doc.root, None, seq![], start, doc.nodes.dom().len() + 1) {
        Ok(n) => {
            assert(plan_entries(doc, grouping, refused, top.drop_last(), n) == Ok::<PlanProgress, PlanErrorView>(n));
            assert(plan_entries(doc, grouping, refused, top, start) == Ok::<PlanProgress, PlanErrorView>(n));
            assert(plan_walk(doc, grouping, refused, Seq::empty(), n.visited, n.passes, n.skipped) == Ok::<
                (Seq<PassOfShapesView>, nat),
                PlanErrorView,
            >((n.passes, n.skipped)));
        },
        Err(e) => {
            assert(plan_entries(doc, grouping, refused, top, start) == Err::<PlanProgress, PlanErrorView>(e));
        },
    }
}

// ---------------------------------------------------------------------------
// What every plan keeps
// ---------------------------------------------------------------------------

/// The node `id` of `doc` is a shape that is cut.
pub open spec fn is_cut_shape(doc: DocumentView, id: NodeId) -> bool {
    &&& doc.nodes.contains_key(id.0)
    &&& doc.nodes[id.0].kind is Shape
    &&& doc.nodes[id.0].cut_line_type == CutLineType::Cut
}

/// A sound set of passes for `doc`: no two passes share a key, none is empty, and every shape
/// in them is a shape of `doc` that is cut.
pub open spec fn passes_sound(doc: DocumentView, passes: Seq<PassOfShapesView>) -> bool {
    &&& forall|i: int, j: int|
        0 <= i < j < passes.len() ==> #[trigger] passes[i].key != #[trigger] passes[j].key
    &&& forall|i: int| 0 <= i < passes.len() ==> #[trigger] passes[i].shapes.len() > 0
    &&& forall|i: int, k: int|
        0 <= i < passes.len() && 0 <= k < passes[i].shapes.len() ==> is_cut_shape(
            doc,
            #[trigger] passes[i].shapes[k].node_id,
        )
}

/// Two refusal tables that say the same of every shape of `doc` that is cut.
pub open spec fn agree_on_cut_shapes(doc: DocumentView, a: Map<u64, Seq<char>>, b: Map<u64, Seq<char>>) -> bool {
    forall|k: u64|
        #[trigger] is_cut_shape(doc, NodeId(k)) ==> (a.contains_key(k) == b.contains_key(k) && (
        a.contains_key(k) ==> a[k] == b[k]))
}

proof fn lemma_pass_index_none_means_no_such_key(passes: Seq<PassOfShapesView>, key: PassKeyView)
    ensures
        pass_index(passes, key) is None ==> forall|i: int|
            0 <= i < passes.len() ==> #[trigger] passes[i].key != key,
    decreases passes.len(),
{
    if passes.len() > 0 {
        lemma_pass_index_none_means_no_such_key(passes.drop_last(), key);
        if pass_index(passes, key) is None {
            assert forall|i: int| 0 <= i < passes.len() implies #[trigger] passes[i].key != key by {
                if i < passes.len() - 1 {
                    assert(passes.drop_last()[i] == passes[i]);
                }
            }
        }
    }
}

proof fn lemma_adding_keeps_passes_sound(
    doc: DocumentView,
    passes: Seq<PassOfShapesView>,
    key: PassKeyView,
    shape: ShapeInPassView,
)
    requires
        passes_sound(doc, passes),
        is_cut_shape(doc, shape.node_id),
    ensures
        passes_sound(doc, add_to_pass(passes, key, shape)),
{
    lemma_pass_index_names_its_pass(passes, key);
    lemma_pass_index_none_means_no_such_key(passes, key);
    let r = add_to_pass(passes, key, shape);
    match pass_index(passes, key) {
        Some(x) => {
            assert forall|i: int, k: int|
                0 <= i < r.len() && 0 <= k < r[i].shapes.len() implies is_cut_shape(
                doc,
                #[trigger] r[i].shapes[k].node_id,
            ) by {
                if i == x && k == passes[x].shapes.len() {
                } else {
                    assert(r[i].shapes[k] == passes[i].shapes[k]);
                }
            }
        },
        None => {
            assert forall|i: int, k: int|
                0 <= i < r.len() && 0 <= k < r[i].shapes.len() implies is_cut_shape(
                doc,
                #[trigger] r[i].shapes[k].node_id,
            ) by {
                if i < passes.len() {
                    assert(r[i] == passes[i]);
                }
            }
        },
    }
}

proof fn lemma_walk_keeps_passes_sound(
    doc: DocumentView,
    grouping: Grouping,
    refused: Map<u64, Seq<char>>,
    stack: Seq<WalkEntry>,
    visited: Set<u64>,
    passes: Seq<PassOfShapesView>,
    skipped: nat,
)
    requires
        doc.nodes.dom().finite(),
        passes_sound(doc, passes),
    ensures
        plan_walk(doc, grouping, refused, stack, visited, passes, skipped) matches Ok((p, _))
            ==> passes_sound(doc, p),
    decreases doc.nodes.dom().difference(visited).len(),
{
    if stack.len() > 0 {
        let (id, inherited, ancestors) = stack.last();
        let rest = stack.drop_last();
        if !visited.contains(id.0) && doc.nodes.contains_key(id.0) {
            let n = doc.nodes[id.0];
            let material = resolved_material(n.material_preset, inherited);
            let visited2 = visited.insert(id.0);
            crate::commands::lemma_unseen_shrinks(doc.nodes.dom(), visited, id.0);
            match n.kind {
                NodeKindView::Shape(_) => match n.cut_line_type {
                    CutLineType::NoCut => {
                        lemma_walk_keeps_passes_sound(doc, grouping, refused, rest, visited2, passes, skipped + 1);
                    },
                    CutLineType::Cut => {
                        if !refused.contains_key(id.0) {
                            let key = pass_key_for(grouping, n.style, material);
                            let shape = ShapeInPassView { node_id: id, ancestors };
                            lemma_adding_keeps_passes_sound(doc, passes, key, shape);
                            lemma_walk_keeps_passes_sound(
                                doc,
                                grouping,
                                refused,
                                rest,
                                visited2,
                                add_to_pass(passes, key, shape),
                                skipped,
                            );
                        }
                    },
                },
                _ => {
                    lemma_walk_keeps_passes_sound(
                        doc,
                        grouping,
                        refused,
                        rest + child_entries(n.children, material, seq![id] + ancestors),
                        visited2,
                        passes,
                        skipped,
                    );
                },
            }
        }
    }
}

/// A plan's passes are sound: no two passes share a key, no pass is empty, and every shape
/// planned is a shape of the document that is cut; a shape marked not to be cut never reaches
/// a pass.
pub proof fn lemma_a_plan_keys_each_pass_once_and_cuts_only_cut_shapes(
    doc: DocumentView,
    grouping: Grouping,
    refused: Map<u64, Seq<char>>,
)
    requires
        doc.nodes.dom().finite(),
    ensures
        plan_of(doc, grouping, refused) matches Ok((p, _)) ==> passes_sound(doc, p),
{
    lemma_the_walk_plans_in_preorder(doc, grouping, refused);
    lemma_walk_keeps_passes_sound(doc, grouping, refused, seq![(doc.root, None, seq![])], Set::empty(), seq![], 0);
}

proof fn lemma_walk_asks_only_of_cut_shapes(
    doc: DocumentView,
    grouping: Grouping,
    a: Map<u64, Seq<char>>,
    b: Map<u64, Seq<char>>,
    stack: Seq<WalkEntry>,
    visited: Set<u64>,
    passes: Seq<PassOfShapesView>,
    skipped: nat,
)
    requires
        doc.nodes.dom().finite(),
        agree_on_cut_shapes(doc, a, b),
    ensures
        plan_walk(doc, grouping, a, stack, visited, passes, skipped) == plan_walk(
            doc,
            grouping,
            b,
            stack,
            visited,
            passes,
            skipped,
        ),
    decreases doc.nodes.dom().difference(visited).len(),
{
    if stack.len() > 0 {
        let (id, inherited, ancestors) = stack.last();
        let rest = stack.drop_last();
        if !visited.contains(id.0) && doc.nodes.contains_key(id.0) {
            let n = doc.nodes[id.0];
            let material = resolved_material(n.material_preset, inherited);
            let visited2 = visited.insert(id.0);
            crate::commands::lemma_unseen_shrinks(doc.nodes.dom(), visited, id.0);
            match n.kind {
                NodeKindView::Shape(_) => match n.cut_line_type {
                    CutLineType::NoCut => {
                        lemma_walk_asks_only_of_cut_shapes(doc, grouping, a, b, rest, visited2, passes, skipped + 1);
                    },
                    CutLineType::Cut => {
                        assert(is_cut_shape(doc, NodeId(id.0)));
                        lemma_walk_asks_only_of_cut_shapes(
                            doc,
                            grouping,
                            a,
                            b,
                            rest,
                            visited2,
                            add_to_pass(
                                passes,
                                pass_key_for(grouping, n.style, material),
                                ShapeInPassView { node_id: id, ancestors },
                            ),
                            skipped,
                        );
                    },
                },
                _ => {
                    lemma_walk_asks_only_of_cut_shapes(
                        doc,
                        grouping,
                        a,
                        b,
                        rest + child_entries(n.children, material, seq![id] + ancestors),
                        visited2,
                        passes,
                        skipped,
                    );
                },
            }
        }
    }
}

/// Whether a shape's outline can be had matters only for shapes that are cut: two refusal
/// tables that say the same of every cut shape plan the document alike, so a shape marked not
/// to be cut cannot refuse the plan.
pub proof fn lemma_only_cut_shapes_can_refuse_a_plan(
    doc: DocumentView,
    grouping: Grouping,
    a: Map<u64, Seq<char>>,
    b: Map<u64, Seq<char>>,
)
    requires
        doc.nodes.dom().finite(),
        agree_on_cut_shapes(doc, a, b),
    ensures
        plan_of(doc, grouping, a) == plan_of(doc, grouping, b),
{
    lemma_the_walk_plans_in_preorder(doc, grouping, a);
    lemma_the_walk_plans_in_preorder(doc, grouping, b);
    lemma_walk_asks_only_of_cut_shapes(doc, grouping, a, b, seq![(doc.root, None, seq![])], Set::empty(), seq![], 0);
}

/// The node `id` of `doc` is a shape that is not cut.
pub open spec fn is_uncut_shape(doc: DocumentView, id: NodeId) -> bool {
    &&& doc.nodes.contains_key(id.0)
    &&& doc.nodes[id.0].kind is Shape
    &&& doc.nodes[id.0].cut_line_type == CutLineType::NoCut
}

/// Shape `k` of pass `i` is a place in `passes`.
pub open spec fn is_place(passes: Seq<PassOfShapesView>, i: int, k: int) -> bool {
    0 <= i < passes.len() && 0 <= k < passes[i].shapes.len()
}

/// Some place in `passes` holds the node `id`.
pub open spec fn holds_node(passes: Seq<PassOfShapesView>, id: NodeId) -> bool {
    exists|i: int, k: int| #[trigger] is_place(passes, i, k) && passes[i].shapes[k].node_id == id
}

/// What a plan gathered accounts for the nodes it reached: no node stands in two places of the
/// passes, every node the passes hold was reached, every reached shape that is cut is held, and
/// the count of shapes not cut is the number of reached shapes that are not cut.
pub open spec fn accounts_for(doc: DocumentView, p: PlanProgress) -> bool {
    &&& p.visited.finite()
    &&& forall|i: int, k: int, i2: int, k2: int|
        #[trigger] is_place(p.passes, i, k) && #[trigger] is_place(p.passes, i2, k2) && (i != i2 || k != k2)
            ==> p.passes[i].shapes[k].node_id != p.passes[i2].shapes[k2].node_id
    &&& forall|i: int, k: int| #[trigger] is_place(p.passes, i, k) ==> p.visited.contains(p.passes[i].shapes[k].node_id.0)
    &&& forall|id: u64| p.visited.contains(id) && is_cut_shape(doc, NodeId(id)) ==> holds_node(p.passes, NodeId(id))
    &&& p.skipped == p.visited.filter(|id: u64| is_uncut_shape(doc, NodeId(id))).len()
}

/// The place in `passes` where `add_to_pass` puts a shape under `key`.
spec fn new_place(passes: Seq<PassOfShapesView>, key: PassKeyView) -> (int, int) {
    match pass_index(passes, key) {
        Some(x) => (x, passes[x].shapes.len() as int),
        None => (passes.len() as int, 0),
    }
}

proof fn lemma_adding_a_shape_places_it(passes: Seq<PassOfShapesView>, key: PassKeyView, shape: ShapeInPassView)
    ensures
        is_place(add_to_pass(passes, key, shape), new_place(passes, key).0, new_place(passes, key).1),
        add_to_pass(passes, key, shape)[new_place(passes, key).0].shapes[new_place(passes, key).1] == shape,
        forall|i: int, k: int| #[trigger]
            is_place(passes, i, k) ==> is_place(add_to_pass(passes, key, shape), i, k) && add_to_pass(
                passes,
                key,
                shape,
            )[i].shapes[k] == passes[i].shapes[k],
        forall|i: int, k: int| #[trigger]
            is_place(add_to_pass(passes, key, shape), i, k) && (i != new_place(passes, key).0 || k
                != new_place(passes, key).1) ==> is_place(passes, i, k),
{
    lemma_pass_index_names_its_pass(passes, key);
    let r = add_to_pass(passes, key, shape);
    match pass_index(passes, key) {
        Some(x) => {
            assert forall|i: int, k: int| #[trigger] is_place(passes, i, k) implies is_place(r, i, k)
                && r[i].shapes[k] == passes[i].shapes[k] by {
                if i == x {
                    assert(r[i].shapes == passes[i].shapes.push(shape));
                }
            }
        },
        None => {
            assert forall|i: int, k: int| #[trigger] is_place(passes, i, k) implies is_place(r, i, k)
                && r[i].shapes[k] == passes[i].shapes[k] by {
                assert(r[i] == passes[i]);
            }
            assert forall|i: int, k: int| #[trigger]
                is_place(r, i, k) && (i != passes.len() || k != 0) implies is_place(passes, i, k) by {
                if i < passes.len() {
                    assert(r[i] == passes[i]);
                }
            }
        },
    }
}

proof fn lemma_adding_keeps_the_account(
    doc: DocumentView,
    p: PlanProgress,
    id: NodeId,
    key: PassKeyView,
    shape: ShapeInPassView,
)
    requires
        accounts_for(doc, p),
        !p.visited.contains(id.0),
        is_cut_shape(doc, id),
        shape.node_id == id,
    ensures
        accounts_for(
            doc,
            PlanProgress { visited: p.visited.insert(id.0), passes: add_to_pass(p.passes, key, shape), skipped: p.skipped },
        ),
{
    let v2 = p.visited.insert(id.0);
    let r = add_to_pass(p.passes, key, shape);
    let np = new_place(p.passes, key);
    lemma_adding_a_shape_places_it(p.passes, key, shape);
    assert forall|i: int, k: int, i2: int, k2: int|
        #[trigger] is_place(r, i, k) && #[trigger] is_place(r, i2, k2) && (i != i2 || k != k2) implies r[i].shapes[k].node_id
        != r[i2].shapes[k2].node_id by {
        if i == np.0 && k == np.1 {
            assert(is_place(p.passes, i2, k2));
            assert(p.visited.contains(p.passes[i2].shapes[k2].node_id.0));
        } else if i2 == np.0 && k2 == np.1 {
            assert(is_place(p.passes, i, k));
            assert(p.visited.contains(p.passes[i].shapes[k].node_id.0));
        } else {
            assert(is_place(p.passes, i, k));
            assert(is_place(p.passes, i2, k2));
        }
    }
    assert forall|i: int, k: int| #[trigger] is_place(r, i, k) implies v2.contains(r[i].shapes[k].node_id.0) by {
        if !(i == np.0 && k == np.1) {
            assert(is_place(p.passes, i, k));
        }
    }
    assert forall|x: u64| v2.contains(x) && is_cut_shape(doc, NodeId(x)) implies holds_node(r, NodeId(x)) by {
        if x == id.0 {
            assert(is_place(r, np.0, np.1));
        } else {
            assert(holds_node(p.passes, NodeId(x)));
            let (i, k) = choose|i: int, k: int| #[trigger] is_place(p.passes, i, k) && p.passes[i].shapes[k].node_id == NodeId(x);
            assert(is_place(r, i, k));
        }
    }
    assert(v2.filter(|x: u64| is_uncut_shape(doc, NodeId(x))) =~= p.visited.filter(|x: u64| is_uncut_shape(doc, NodeId(x))));
}

proof fn lemma_counting_keeps_the_account(doc: DocumentView, p: PlanProgress, id: NodeId)
    requires
        accounts_for(doc, p),
        !p.visited.contains(id.0),
        is_uncut_shape(doc, id),
    ensures
        accounts_for(doc, PlanProgress { visited: p.visited.insert(id.0), passes: p.passes, skipped: p.skipped + 1 }),
{
    let f = |x: u64| is_uncut_shape(doc, NodeId(x));
    let v2 = p.visited.insert(id.0);
    assert(v2.filter(f) =~= p.visited.filter(f).insert(id.0));
    p.visited.lemma_len_filter(f);
    vstd::set::axiom_set_insert_len(p.visited.filter(f), id.0);
    assert(!p.visited.filter(f).contains(id.0));
    assert forall|x: u64| v2.contains(x) && is_cut_shape(doc, NodeId(x)) implies holds_node(p.passes, NodeId(x)) by {
        assert(x != id.0);
    }
}

proof fn lemma_planning_keeps_the_account(
    doc: DocumentView,
    grouping: Grouping,
    refused: Map<u64, Seq<char>>,
    children: Seq<NodeId>,
    id: NodeId,
    inherited: Option<Seq<char>>,
    ancestors: Seq<NodeId>,
    so_far: PlanProgress,
    depth: nat,
)
    requires
        accounts_for(doc, so_far),
    ensures
        plan_node(doc, grouping, refused, id, inherited, ancestors, so_far, depth) matches Ok(n) ==> accounts_for(
            doc,
            n,
        ),
        plan_children(doc, grouping, refused, children, inherited, ancestors, so_far, depth) matches Ok(n)
            ==> accounts_for(doc, n),
    decreases depth, children.len(),
{
    if depth > 0 && !so_far.visited.contains(id.0) && doc.nodes.contains_key(id.0) {
        let n = doc.nodes[id.0];
        let material = resolved_material(n.material_preset, inherited);
        let seen = PlanProgress { visited: so_far.visited.insert(id.0), ..so_far };
        match n.kind {
            NodeKindView::Shape(_) => match n.cut_line_type {
                CutLineType::NoCut => {
                    lemma_counting_keeps_the_account(doc, so_far, id);
                },
                CutLineType::Cut => {
                    lemma_adding_keeps_the_account(
                        doc,
                        so_far,
                        id,
                        pass_key_for(grouping, n.style, material),
                        ShapeInPassView { node_id: id, ancestors },
                    );
                },
            },
            _ => {
                let f = |x: u64| is_uncut_shape(doc, NodeId(x));
                assert(seen.visited.filter(f) =~= so_far.visited.filter(f));
                assert forall|x: u64| seen.visited.contains(x) && is_cut_shape(doc, NodeId(x)) implies holds_node(
                    seen.passes,
                    NodeId(x),
                ) by {
                    assert(x != id.0);
                }
                assert forall|i: int, k: int| #[trigger] is_place(seen.passes, i, k) implies seen.visited.contains(
                    seen.passes[i].shapes[k].node_id.0,
                ) by {
                    assert(so_far.visited.contains(so_far.passes[i].shapes[k].node_id.0));
                }
                lemma_planning_keeps_the_account(
                    doc,
                    grouping,
                    refused,
                    n.children,
                    id,
                    material,
                    seq![id] + ancestors,
                    seen,
                    (depth - 1) as nat,
                );
            },
        }
    }
    if children.len() > 0 {
        lemma_planning_keeps_the_account(doc, grouping, refused, seq![], children[0], inherited, ancestors, so_far, depth);
        match plan_node(doc, grouping, refused, children[0], inherited, ancestors, so_far, depth) {
            Ok(next) => {
                lemma_planning_keeps_the_account(
                    doc,
                    grouping,
                    refused,
                    children.drop_first(),
                    id,
                    inherited,
                    ancestors,
                    next,
                    depth,
                );
            },
            Err(_) => {},
        }
    }
}

/// A plan accounts for every node it reaches: each shape that is cut stands in exactly one
/// place of its passes, the passes hold nothing it did not reach, and the count of shapes not
/// cut is the number of reached shapes that are not cut. The passes and the count are the
/// plan's, as `plan_of` gives them; the reached nodes include the root.
pub proof fn lemma_a_plan_holds_each_reached_cut_shape_once(
    doc: DocumentView,
    grouping: Grouping,
    refused: Map<u64, Seq<char>>,
)
    ensures
        plan_node(
            doc,
            grouping,
            refused,
            doc.root,
            None,
            seq![],
            PlanProgress { visited: Set::empty(), passes: seq![], skipped: 0 },
            doc.nodes.dom().len() + 1,
        ) matches Ok(p) ==> accounts_for(doc, p) && p.visited.contains(doc.root.0) && plan_of(doc, grouping, refused)
            == Ok::<(Seq<PassOfShapesView>, nat), PlanErrorView>((p.passes, p.skipped)),
{
    let start = PlanProgress { visited: Set::empty(), passes: seq![], skipped: 0 };
    let f = |x: u64| is_uncut_shape(doc, NodeId(x));
    assert(start.visited.filter(f) =~= Set::<u64>::empty());
    lemma_planning_keeps_the_account(
        doc,
        grouping,
        refused,
        seq![],
        doc.root,
        None,
        seq![],
        start,
        doc.nodes.dom().len() + 1,
    );
    lemma_planning_only_visits_more(
        doc,
        grouping,
        refused,
        seq![],
        doc.root,
        None,
        seq![],
        start,
        doc.nodes.dom().len() + 1,
    );
}

} // verus!
