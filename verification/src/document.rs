//! The document: a tree of nodes, each a shape or a container, edited only by deltas that can
//! be applied and undone. A node carries its transform and its shape's dimensions as the bit
//! patterns of their binary64 values; the document moves them from edit to edit and never
//! computes with them.
use vstd::prelude::*;
use std::collections::HashMap;

verus! {

/// A node's identity within a document.
#[derive(Clone, Copy, PartialEq, Eq, Hash, Debug, Structural)]
pub struct NodeId(pub u64);

/// Mints node ids, each one past the last.
#[derive(Clone, Copy, PartialEq, Eq, Debug, Structural)]
pub struct IdGen(u64);

impl Default for IdGen {
    /// A generator that has minted nothing yet.
    fn default() -> (g: IdGen)
        ensures
            g.last() == 0,
    {
        IdGen(0)
    }
}

impl IdGen {
    /// The last id minted, or zero before the first.
    pub closed spec fn last(&self) -> u64 {
        self.0
    }

    /// A generator whose last id minted is `last`, as a document read back from a file holds it.
    pub fn resumed_at(last: u64) -> (g: IdGen)
        ensures
            g.last() == last,
    {
        IdGen(last)
    }

    /// The last id minted, or zero before the first.
    pub fn last_minted(&self) -> (r: u64)
        ensures
            r == self.last(),
    {
        self.0
    }

    /// The next id: one past the last one minted.
    pub fn next(&mut self) -> (id: NodeId)
        requires
            old(self).last() < u64::MAX,
        ensures
            final(self).last() == old(self).last() + 1,
            id == NodeId(final(self).last()),
    {
        self.0 = self.0 + 1;
        NodeId(self.0)
    }
}

/// A node's paint, each colour `0xRRGGBBAA`. The default is an opaque black stroke and no fill.
#[derive(Clone, Copy, PartialEq, Eq, Debug, Structural)]
pub struct Style {
    pub stroke: Option<u32>,
    pub fill: Option<u32>,
}

impl Default for Style {
    /// An opaque black stroke, no fill.
    fn default() -> (s: Style)
        ensures
            s == (Style { stroke: Some(0x000000FFu32), fill: None }),
    {
        Style { stroke: Some(0x000000FFu32), fill: None }
    }
}

/// Whether a node's geometry is cut.
#[derive(Clone, Copy, PartialEq, Eq, Debug, Structural)]
pub enum CutLineType {
    Cut,
    NoCut,
}

/// Which material preset a node is cut with, or where to look for one.
#[derive(Debug)]
pub enum PresetAssignment {
    /// Take the nearest ancestor's assignment; no ancestor means no material.
    Inherit,
    /// No material, whatever any ancestor says.
    Unassigned,
    /// This preset id; never checked against the presets that exist.
    Preset(String),
}

/// A `PresetAssignment` with its id as characters.
pub enum PresetAssignmentView {
    Inherit,
    Unassigned,
    Preset(Seq<char>),
}

impl View for PresetAssignment {
    type V = PresetAssignmentView;

    open spec fn view(&self) -> PresetAssignmentView {
        match self {
            PresetAssignment::Inherit => PresetAssignmentView::Inherit,
            PresetAssignment::Unassigned => PresetAssignmentView::Unassigned,
            PresetAssignment::Preset(id) => PresetAssignmentView::Preset(id@),
        }
    }
}

impl PresetAssignment {
    /// A copy of this assignment.
    pub fn duplicate(&self) -> (r: PresetAssignment)
        ensures
            r@ == self@,
    {
        match self {
            PresetAssignment::Inherit => PresetAssignment::Inherit,
            PresetAssignment::Unassigned => PresetAssignment::Unassigned,
            PresetAssignment::Preset(id) => PresetAssignment::Preset(id.clone()),
        }
    }
}

impl Clone for PresetAssignment {
    fn clone(&self) -> (r: PresetAssignment)
        ensures
            r@ == self@,
    {
        self.duplicate()
    }
}

impl Default for PresetAssignment {
    /// A new node inherits its material.
    fn default() -> (a: PresetAssignment)
        ensures
            a@ == PresetAssignmentView::Inherit,
    {
        PresetAssignment::Inherit
    }
}

impl PartialEq for PresetAssignment {
    fn eq(&self, other: &Self) -> (r: bool) {
        let same = match (self, other) {
            (PresetAssignment::Inherit, PresetAssignment::Inherit) => true,
            (PresetAssignment::Unassigned, PresetAssignment::Unassigned) => true,
            (PresetAssignment::Preset(a), PresetAssignment::Preset(b)) => *a == *b,
            _ => false,
        };
        proof {
            if same {
                assert(self@ == other@);
            }
        }
        same
    }
}

impl vstd::std_specs::cmp::PartialEqSpecImpl for PresetAssignment {
    open spec fn obeys_eq_spec() -> bool {
        true
    }

    open spec fn eq_spec(&self, other: &Self) -> bool {
        self@ == other@
    }
}

impl Eq for PresetAssignment {
}

/// Whether a colour is there to be seen: present, with a non-zero alpha byte.
pub open spec fn visible(c: Option<u32>) -> bool {
    match c {
        Some(v) => v % 256 != 0,
        None => false,
    }
}

/// Whether a shape saved before cut line types existed is cut: it was exactly when its stroke
/// was visible. A container is always `Cut`, as a freshly built one is.
pub open spec fn legacy_cut_line_type(is_shape: bool, stroke: Option<u32>) -> CutLineType {
    if !is_shape || visible(stroke) {
        CutLineType::Cut
    } else {
        CutLineType::NoCut
    }
}

/// A node's cut line type as read from a file: the stored value when there is one, else the one
/// its stroke implies.
pub fn cut_line_type_from_file(stored: Option<CutLineType>, is_shape: bool, stroke: Option<u32>) -> (r:
    CutLineType)
    ensures
        r == match stored {
            Some(t) => t,
            None => legacy_cut_line_type(is_shape, stroke),
        },
{
    match stored {
        Some(t) => t,
        None => {
            if !is_shape {
                CutLineType::Cut
            } else {
                match stroke {
                    Some(c) => if c % 256 != 0 {
                        CutLineType::Cut
                    } else {
                        CutLineType::NoCut
                    },
                    None => CutLineType::NoCut,
                }
            }
        },
    }
}

// ---------------------------------------------------------------------------
// Nodes
// ---------------------------------------------------------------------------

/// The bit pattern of the binary64 value 1.0.
pub const ONE_BITS: u64 = 0x3FF0000000000000;

/// A row-major 2x3 affine transform `[a b c d e f]`, mapping `(x, y)` to
/// `(a x + c y + e, b x + d y + f)`, each coefficient held as the bit pattern of its binary64
/// value.
#[derive(Clone, Copy, Debug, PartialEq, Eq, Structural)]
pub struct Transform {
    pub a: u64,
    pub b: u64,
    pub c: u64,
    pub d: u64,
    pub e: u64,
    pub f: u64,
}

/// The transform that moves nothing.
pub open spec fn identity_transform() -> Transform {
    Transform { a: ONE_BITS, b: 0, c: 0, d: ONE_BITS, e: 0, f: 0 }
}

impl Transform {
    /// The transform that moves nothing.
    pub fn identity() -> (t: Transform)
        ensures
            t == identity_transform(),
    {
        Transform { a: ONE_BITS, b: 0, c: 0, d: ONE_BITS, e: 0, f: 0 }
    }
}

/// What a shape is, with its dimensions in millimetres held as binary64 bit patterns.
#[derive(Debug)]
pub enum ShapeKind {
    Rect { w: u64, h: u64 },
    Ellipse { rx: u64, ry: u64 },
    Text { family: String, size_mm: u64, text: String },
    /// An outline as SVG path data, in millimetres.
    Path { d: String },
}

/// A `ShapeKind` with its text as characters.
pub enum ShapeKindView {
    Rect { w: u64, h: u64 },
    Ellipse { rx: u64, ry: u64 },
    Text { family: Seq<char>, size_mm: u64, text: Seq<char> },
    Path { d: Seq<char> },
}

impl View for ShapeKind {
    type V = ShapeKindView;

    open spec fn view(&self) -> ShapeKindView {
        match self {
            ShapeKind::Rect { w, h } => ShapeKindView::Rect { w: *w, h: *h },
            ShapeKind::Ellipse { rx, ry } => ShapeKindView::Ellipse { rx: *rx, ry: *ry },
            ShapeKind::Text { family, size_mm, text } => ShapeKindView::Text {
                family: family@,
                size_mm: *size_mm,
                text: text@,
            },
            ShapeKind::Path { d } => ShapeKindView::Path { d: d@ },
        }
    }
}

impl ShapeKind {
    /// A copy of this shape.
    pub fn duplicate(&self) -> (r: ShapeKind)
        ensures
            r@ == self@,
    {
        match self {
            ShapeKind::Rect { w, h } => ShapeKind::Rect { w: *w, h: *h },
            ShapeKind::Ellipse { rx, ry } => ShapeKind::Ellipse { rx: *rx, ry: *ry },
            ShapeKind::Text { family, size_mm, text } => ShapeKind::Text {
                family: family.clone(),
                size_mm: *size_mm,
                text: text.clone(),
            },
            ShapeKind::Path { d } => ShapeKind::Path { d: d.clone() },
        }
    }
}

/// Whether a node is a shape or one of the two kinds of container.
#[derive(Debug)]
pub enum NodeKind {
    Shape(ShapeKind),
    Group,
    Layer,
}

/// A `NodeKind` with its shape as a view.
pub enum NodeKindView {
    Shape(ShapeKindView),
    Group,
    Layer,
}

impl View for NodeKind {
    type V = NodeKindView;

    open spec fn view(&self) -> NodeKindView {
        match self {
            NodeKind::Shape(s) => NodeKindView::Shape(s@),
            NodeKind::Group => NodeKindView::Group,
            NodeKind::Layer => NodeKindView::Layer,
        }
    }
}

impl NodeKind {
    /// A copy of this kind.
    pub fn duplicate(&self) -> (r: NodeKind)
        ensures
            r@ == self@,
    {
        match self {
            NodeKind::Shape(s) => NodeKind::Shape(s.duplicate()),
            NodeKind::Group => NodeKind::Group,
            NodeKind::Layer => NodeKind::Layer,
        }
    }
}

/// One node of the tree: its identity, what it is, its transform relative to its parent, its
/// paint, whether and with what it is cut, and its children in order.
#[derive(Debug)]
pub struct Node {
    pub id: NodeId,
    pub kind: NodeKind,
    pub transform: Transform,
    pub style: Style,
    pub cut_line_type: CutLineType,
    pub material_preset: PresetAssignment,
    pub children: Vec<NodeId>,
}

/// A `Node` as values.
pub struct NodeView {
    pub id: NodeId,
    pub kind: NodeKindView,
    pub transform: Transform,
    pub style: Style,
    pub cut_line_type: CutLineType,
    pub material_preset: PresetAssignmentView,
    pub children: Seq<NodeId>,
}

impl View for Node {
    type V = NodeView;

    open spec fn view(&self) -> NodeView {
        NodeView {
            id: self.id,
            kind: self.kind@,
            transform: self.transform,
            style: self.style,
            cut_line_type: self.cut_line_type,
            material_preset: self.material_preset@,
            children: self.children@,
        }
    }
}

/// A freshly built node: identity transform, the default paint, cut, inheriting its material,
/// and no children.
pub open spec fn fresh_node(id: NodeId, kind: NodeKindView) -> NodeView {
    NodeView {
        id,
        kind,
        transform: identity_transform(),
        style: Style { stroke: Some(0x000000FFu32), fill: None },
        cut_line_type: CutLineType::Cut,
        material_preset: PresetAssignmentView::Inherit,
        children: seq![],
    }
}

impl Node {
    /// A new shape node.
    pub fn shape(id: NodeId, kind: ShapeKind) -> (n: Node)
        ensures
            n@ == fresh_node(id, NodeKindView::Shape(kind@)),
    {
        Node {
            id,
            kind: NodeKind::Shape(kind),
            transform: Transform::identity(),
            style: Style::default(),
            cut_line_type: CutLineType::Cut,
            material_preset: PresetAssignment::Inherit,
            children: Vec::new(),
        }
    }

    /// A new container node of the given kind.
    pub fn container(id: NodeId, kind: NodeKind) -> (n: Node)
        ensures
            n@ == fresh_node(id, kind@),
    {
        Node {
            id,
            kind,
            transform: Transform::identity(),
            style: Style::default(),
            cut_line_type: CutLineType::Cut,
            material_preset: PresetAssignment::Inherit,
            children: Vec::new(),
        }
    }

    /// A copy of this node.
    pub fn duplicate(&self) -> (r: Node)
        ensures
            r@ == self@,
    {
        Node {
            id: self.id,
            kind: self.kind.duplicate(),
            transform: self.transform,
            style: self.style,
            cut_line_type: self.cut_line_type,
            material_preset: self.material_preset.duplicate(),
            children: self.children.clone(),
        }
    }
}

impl Clone for Node {
    fn clone(&self) -> (r: Node)
        ensures
            r@ == self@,
    {
        self.duplicate()
    }
}

// ---------------------------------------------------------------------------
// Edits
// ---------------------------------------------------------------------------

/// One edit to the tree.
#[derive(Debug)]
pub enum NodeOp {
    /// Put `node` in the document and make it `parent`'s child at `index`, or its last child
    /// when `index` is past the end.
    Add { parent: NodeId, node: Node, index: usize },
    /// Take `id` out of the document and out of `parent`'s children.
    Remove { parent: NodeId, id: NodeId },
    /// Replace the node `id` whole; `before` is what it was and `after` what it becomes.
    Update { id: NodeId, before: Node, after: Node },
}

/// A `NodeOp` with its nodes as views.
pub enum NodeOpView {
    Add { parent: NodeId, node: NodeView, index: usize },
    Remove { parent: NodeId, id: NodeId },
    Update { id: NodeId, before: NodeView, after: NodeView },
}

impl View for NodeOp {
    type V = NodeOpView;

    open spec fn view(&self) -> NodeOpView {
        match self {
            NodeOp::Add { parent, node, index } => NodeOpView::Add {
                parent: *parent,
                node: node@,
                index: *index,
            },
            NodeOp::Remove { parent, id } => NodeOpView::Remove { parent: *parent, id: *id },
            NodeOp::Update { id, before, after } => NodeOpView::Update {
                id: *id,
                before: before@,
                after: after@,
            },
        }
    }
}

impl NodeOp {
    /// A copy of this edit.
    pub fn duplicate(&self) -> (r: NodeOp)
        ensures
            r@ == self@,
    {
        match self {
            NodeOp::Add { parent, node, index } => NodeOp::Add {
                parent: *parent,
                node: node.duplicate(),
                index: *index,
            },
            NodeOp::Remove { parent, id } => NodeOp::Remove { parent: *parent, id: *id },
            NodeOp::Update { id, before, after } => NodeOp::Update {
                id: *id,
                before: before.duplicate(),
                after: after.duplicate(),
            },
        }
    }
}

/// The edits, each as its view.
pub open spec fn ops_view(s: Seq<NodeOp>) -> Seq<NodeOpView> {
    s.map_values(|o: NodeOp| o@)
}

/// Edits applied together, in order, as one step.
#[derive(Debug)]
pub struct Delta(pub Vec<NodeOp>);

impl Delta {
    /// A copy of these edits.
    pub fn duplicate(&self) -> (r: Delta)
        ensures
            ops_view(r.0@) == ops_view(self.0@),
    {
        let mut out: Vec<NodeOp> = Vec::new();
        let mut i: usize = 0;
        while i < self.0.len()
            invariant
                i <= self.0.len(),
                ops_view(out@) == ops_view(self.0@).take(i as int),
            decreases self.0.len() - i,
        {
            let ghost was = out@;
            let x = self.0[i].duplicate();
            out.push(x);
            assert(ops_view(out@) =~= ops_view(was).push(x@));
            assert(ops_view(self.0@).take(i + 1) =~= ops_view(self.0@).take(i as int).push(
                self.0@[i as int]@,
            ));
            i = i + 1;
        }
        assert(ops_view(self.0@).take(self.0.len() as int) =~= ops_view(self.0@));
        Delta(out)
    }
}

impl Clone for Delta {
    fn clone(&self) -> (r: Delta)
        ensures
            ops_view(r.0@) == ops_view(self.0@),
    {
        self.duplicate()
    }
}

/// The tree: every node by its id, the root, and the generator that mints new ids.
#[derive(Debug)]
pub struct Document {
    pub nodes: HashMap<u64, Node>,
    pub root: NodeId,
    pub ids: IdGen,
}

/// A `Document` as values.
pub struct DocumentView {
    pub nodes: Map<u64, NodeView>,
    pub root: NodeId,
    pub ids: u64,
}

/// The nodes of a map, each as its view.
pub open spec fn nodes_view(m: Map<u64, Node>) -> Map<u64, NodeView> {
    m.map_values(|n: Node| n@)
}

impl View for Document {
    type V = DocumentView;

    open spec fn view(&self) -> DocumentView {
        DocumentView { nodes: nodes_view(self.nodes@), root: self.root, ids: self.ids.last() }
    }
}

/// The first position of `x` in `s`, or -1.
pub open spec fn position_of(s: Seq<NodeId>, x: NodeId) -> int
    decreases s.len(),
{
    if s.len() == 0 {
        -1
    } else {
        let p = position_of(s.drop_last(), x);
        if p >= 0 {
            p
        } else if s.last() == x {
            s.len() - 1
        } else {
            -1
        }
    }
}

/// `n` with `c` inserted among its children at `idx`.
pub open spec fn with_child_at(n: NodeView, idx: int, c: NodeId) -> NodeView {
    NodeView { children: n.children.insert(idx, c), ..n }
}

/// `n` without the child at `idx`.
pub open spec fn without_child_at(n: NodeView, idx: int) -> NodeView {
    NodeView { children: n.children.remove(idx), ..n }
}

/// The smaller of an index and a length.
pub open spec fn clamp_index(index: usize, len: nat) -> int {
    if index < len {
        index as int
    } else {
        len as int
    }
}

/// Whether an edit can be applied: the parent it names is there once the edit's own node is, and
/// a node taken out is there and is a child of the parent named.
pub open spec fn op_ok(doc: DocumentView, op: NodeOpView) -> bool {
    match op {
        NodeOpView::Add { parent, node, index } => doc.nodes.insert(node.id.0, node).contains_key(
            parent.0,
        ),
        NodeOpView::Remove { parent, id } => {
            &&& doc.nodes.contains_key(id.0)
            &&& doc.nodes.remove(id.0).contains_key(parent.0)
            &&& position_of(doc.nodes.remove(id.0)[parent.0].children, id) >= 0
        },
        NodeOpView::Update { .. } => true,
    }
}

/// What an edit makes of a document, and the edit that takes it back.
pub open spec fn apply_op(doc: DocumentView, op: NodeOpView) -> (DocumentView, NodeOpView) {
    match op {
        NodeOpView::Add { parent, node, index } => {
            let nodes1 = doc.nodes.insert(node.id.0, node);
            let p = nodes1[parent.0];
            let idx = clamp_index(index, p.children.len());
            (
                DocumentView { nodes: nodes1.insert(parent.0, with_child_at(p, idx, node.id)), ..doc },
                NodeOpView::Remove { parent, id: node.id },
            )
        },
        NodeOpView::Remove { parent, id } => {
            let removed = doc.nodes[id.0];
            let nodes1 = doc.nodes.remove(id.0);
            let p = nodes1[parent.0];
            let idx = position_of(p.children, id);
            (
                DocumentView { nodes: nodes1.insert(parent.0, without_child_at(p, idx)), ..doc },
                NodeOpView::Add { parent, node: removed, index: idx as usize },
            )
        },
        NodeOpView::Update { id, before, after } => (
            DocumentView { nodes: doc.nodes.insert(id.0, after), ..doc },
            NodeOpView::Update { id, before: after, after: before },
        ),
    }
}

/// What edits applied in order make of a document, and the edits that take each back, in the
/// order they were applied.
pub open spec fn apply_ops(doc: DocumentView, ops: Seq<NodeOpView>) -> (DocumentView, Seq<NodeOpView>)
    decreases ops.len(),
{
    if ops.len() == 0 {
        (doc, seq![])
    } else {
        let (d, back) = apply_ops(doc, ops.drop_last());
        let (d2, b) = apply_op(d, ops.last());
        (d2, back.push(b))
    }
}

/// Whether edits can be applied in order, each to what the ones before it made.
pub open spec fn ops_ok(doc: DocumentView, ops: Seq<NodeOpView>) -> bool
    decreases ops.len(),
{
    ops.len() == 0 || (ops_ok(doc, ops.drop_last()) && op_ok(
        apply_ops(doc, ops.drop_last()).0,
        ops.last(),
    ))
}

proof fn lemma_ops_ok_prefix(doc: DocumentView, ops: Seq<NodeOpView>, k: int)
    requires
        ops_ok(doc, ops),
        0 <= k <= ops.len(),
    ensures
        ops_ok(doc, ops.take(k)),
    decreases ops.len() - k,
{
    if k < ops.len() {
        assert(ops.take(k + 1).drop_last() =~= ops.take(k));
        lemma_ops_ok_prefix(doc, ops, k + 1);
    } else {
        assert(ops.take(k) =~= ops);
    }
}

fn position(children: &Vec<NodeId>, x: NodeId) -> (r: Option<usize>)
    ensures
        match r {
            Some(i) => position_of(children@, x) == i as int && i < children@.len(),
            None => position_of(children@, x) == -1,
        },
{
    let mut found: Option<usize> = None;
    let mut i: usize = 0;
    while i < children.len()
        invariant
            i <= children.len(),
            match found {
                Some(j) => position_of(children@.take(i as int), x) == j as int && j < i,
                None => position_of(children@.take(i as int), x) == -1,
            },
        decreases children.len() - i,
    {
        assert(children@.take(i + 1).drop_last() =~= children@.take(i as int));
        if found.is_none() && children[i] == x {
            found = Some(i);
        }
        i = i + 1;
    }
    assert(children@.take(children.len() as int) =~= children@);
    found
}

proof fn lemma_nodes_view_insert(m: Map<u64, Node>, k: u64, v: Node)
    ensures
        nodes_view(m.insert(k, v)) == nodes_view(m).insert(k, v@),
{
    assert(nodes_view(m.insert(k, v)) =~= nodes_view(m).insert(k, v@));
}

proof fn lemma_nodes_view_remove(m: Map<u64, Node>, k: u64)
    ensures
        nodes_view(m.remove(k)) == nodes_view(m).remove(k),
{
    assert(nodes_view(m.remove(k)) =~= nodes_view(m).remove(k));
}

impl Document {
    /// A document holding only its root, a layer with the first id.
    pub fn new() -> (d: Document)
        ensures
            d@.ids == 1,
            d@.root == NodeId(1),
            d@.nodes == map![1u64 => fresh_node(NodeId(1), NodeKindView::Layer)],
    {
        broadcast use vstd::std_specs::hash::group_hash_axioms;

        let mut ids = IdGen::default();
        let root = ids.next();
        let mut nodes: HashMap<u64, Node> = HashMap::new();
        nodes.insert(root.0, Node::container(root, NodeKind::Layer));
        let d = Document { nodes, root, ids };
        proof {
            lemma_nodes_view_insert(Map::<u64, Node>::empty(), 1, nodes@[1]);
            assert(nodes_view(Map::<u64, Node>::empty()) =~= Map::<u64, NodeView>::empty());
            assert(d@.nodes =~= map![1u64 => fresh_node(NodeId(1), NodeKindView::Layer)]);
        }
        d
    }

    /// The node with this id, if the document holds one.
    pub fn get(&self, id: NodeId) -> (r: Option<&Node>)
        ensures
            match r {
                Some(n) => self@.nodes.contains_key(id.0) && self@.nodes[id.0] == n@,
                None => !self@.nodes.contains_key(id.0),
            },
    {
        broadcast use vstd::std_specs::hash::group_hash_axioms;

        self.nodes.get(&id.0)
    }

    fn apply_one(&mut self, op: NodeOp) -> (back: NodeOp)
        requires
            op_ok(old(self)@, op@),
        ensures
            (final(self)@, back@) == apply_op(old(self)@, op@),
    {
        broadcast use vstd::std_specs::hash::group_hash_axioms;

        let ghost before = self.nodes@;
        match op {
            NodeOp::Add { parent, node, index } => {
                let id = node.id;
                let ghost nv = node@;
                self.nodes.insert(id.0, node);
                proof {
                    lemma_nodes_view_insert(before, id.0, self.nodes@[id.0]);
                }
                let ghost mid = self.nodes@;
                let mut p = self.nodes.remove(&parent.0).unwrap();
                let ghost pv = p@;
                let idx = if index < p.children.len() {
                    index
                } else {
                    p.children.len()
                };
                p.children.insert(idx, id);
                let ghost pv2 = p@;
                self.nodes.insert(parent.0, p);
                proof {
                    lemma_nodes_view_remove(mid, parent.0);
                    lemma_nodes_view_insert(mid.remove(parent.0), parent.0, self.nodes@[parent.0]);
                    assert(pv2 == with_child_at(pv, idx as int, id));
                    assert(mid.remove(parent.0).insert(parent.0, self.nodes@[parent.0]) =~= self.nodes@);
                    assert(nodes_view(mid).remove(parent.0).insert(parent.0, pv2) =~= nodes_view(mid).insert(parent.0, pv2));
                }
                NodeOp::Remove { parent, id }
            },
            NodeOp::Remove { parent, id } => {
                let node = self.nodes.remove(&id.0).unwrap();
                proof {
                    lemma_nodes_view_remove(before, id.0);
                }
                let ghost mid = self.nodes@;
                let mut p = self.nodes.remove(&parent.0).unwrap();
                let ghost pv = p@;
                let index = position(&p.children, id).unwrap();
                p.children.remove(index);
                let ghost pv2 = p@;
                self.nodes.insert(parent.0, p);
                proof {
                    lemma_nodes_view_remove(mid, parent.0);
                    lemma_nodes_view_insert(mid.remove(parent.0), parent.0, self.nodes@[parent.0]);
                    assert(pv2 == without_child_at(pv, index as int));
                    assert(nodes_view(mid).remove(parent.0).insert(parent.0, pv2) =~= nodes_view(mid).insert(parent.0, pv2));
                }
                NodeOp::Add { parent, node, index }
            },
            NodeOp::Update { id, before: was, after } => {
                let kept = after.duplicate();
                self.nodes.insert(id.0, kept);
                proof {
                    lemma_nodes_view_insert(before, id.0, self.nodes@[id.0]);
                }
                NodeOp::Update { id, before: after, after: was }
            },
        }
    }

    /// Applies a delta's edits in order and returns the delta that undoes them: each edit's
    /// inverse, last edit first.
    pub fn apply(&mut self, d: Delta) -> (inv: Delta)
        requires
            ops_ok(old(self)@, ops_view(d.0@)),
        ensures
            final(self)@ == apply_ops(old(self)@, ops_view(d.0@)).0,
            ops_view(inv.0@) == apply_ops(old(self)@, ops_view(d.0@)).1.reverse(),
    {
        let ghost ops = ops_view(d.0@);
        let ghost start = self@;
        let mut back: Vec<NodeOp> = Vec::new();
        let n = d.0.len();
        assert(ops.take(0) =~= Seq::<NodeOpView>::empty());
        for op in it: d.0.into_iter()
            invariant
                n == ops.len(),
                ops_view(it.seq()) == ops,
                ops_ok(start, ops),
                self@ == apply_ops(start, ops.take(it.index() as int)).0,
                ops_view(back@) == apply_ops(start, ops.take(it.index() as int)).1,
        {
            let ghost i = it.index() as int;
            proof {
                lemma_ops_ok_prefix(start, ops, i + 1);
                assert(ops.take(i + 1).drop_last() =~= ops.take(i));
                assert(op@ == ops[i]);
            }
            let b = self.apply_one(op);
            back.push(b);
            proof {
                assert(ops_view(back@) =~= ops_view(back@.drop_last()).push(b@));
            }
        }
        assert(ops.take(n as int) =~= ops);
        let ghost all = ops_view(back@);
        let mut out: Vec<NodeOp> = Vec::new();
        while back.len() > 0
            invariant
                ops_view(out@) + ops_view(back@).reverse() == all.reverse(),
            decreases back.len(),
        {
            let ghost was = back@;
            let b = back.pop().unwrap();
            out.push(b);
            proof {
                assert(ops_view(was) =~= ops_view(back@).push(b@));
                assert(ops_view(was).reverse() =~= seq![b@] + ops_view(back@).reverse());
                assert(ops_view(out@) =~= ops_view(out@.drop_last()).push(b@));
                assert(ops_view(out@) + ops_view(back@).reverse() =~= ops_view(out@.drop_last()) + (seq![b@]
                    + ops_view(back@).reverse()));
            }
        }
        assert(ops_view(back@).reverse() =~= Seq::<NodeOpView>::empty());
        assert(ops_view(out@) + Seq::<NodeOpView>::empty() =~= ops_view(out@));
        Delta(out)
    }
}

// ---------------------------------------------------------------------------
// What an edit undoes
// ---------------------------------------------------------------------------

/// Whether an edit can be taken back exactly: an added node is new to the document, is not its
/// own parent and is not yet among the parent's children; a removed node is stored under its own
/// id and is not its own parent; an updated node is there and is what the edit says it was.
pub open spec fn op_reversible(doc: DocumentView, op: NodeOpView) -> bool {
    &&& op_ok(doc, op)
    &&& match op {
        NodeOpView::Add { parent, node, index } => {
            &&& !doc.nodes.contains_key(node.id.0)
            &&& parent != node.id
            &&& position_of(doc.nodes[parent.0].children, node.id) < 0
        },
        NodeOpView::Remove { parent, id } => {
            &&& parent != id
            &&& doc.nodes[id.0].id == id
            &&& doc.nodes[parent.0].children.len() <= usize::MAX
        },
        NodeOpView::Update { id, before, after } => {
            &&& doc.nodes.contains_key(id.0)
            &&& doc.nodes[id.0] == before
        },
    }
}

/// Whether every edit of a delta can be taken back exactly, each on what the ones before it made.
pub open spec fn ops_reversible(doc: DocumentView, ops: Seq<NodeOpView>) -> bool
    decreases ops.len(),
{
    ops.len() == 0 || (ops_reversible(doc, ops.drop_last()) && op_reversible(
        apply_ops(doc, ops.drop_last()).0,
        ops.last(),
    ))
}

proof fn lemma_position_of(s: Seq<NodeId>, x: NodeId)
    ensures
        -1 <= position_of(s, x) < s.len(),
        position_of(s, x) >= 0 ==> s[position_of(s, x)] == x && forall|j: int|
            0 <= j < position_of(s, x) ==> s[j] != x,
        position_of(s, x) < 0 ==> forall|j: int| 0 <= j < s.len() ==> s[j] != x,
    decreases s.len(),
{
    if s.len() > 0 {
        let t = s.drop_last();
        lemma_position_of(t, x);
        assert forall|j: int| 0 <= j < t.len() implies t[j] == s[j] by {}
    }
}

proof fn lemma_position_of_first(s: Seq<NodeId>, x: NodeId, i: int)
    requires
        0 <= i < s.len(),
        s[i] == x,
        forall|j: int| 0 <= j < i ==> s[j] != x,
    ensures
        position_of(s, x) == i,
    decreases s.len(),
{
    if i < s.len() - 1 {
        lemma_position_of_first(s.drop_last(), x, i);
    } else {
        lemma_position_of(s.drop_last(), x);
    }
}

proof fn lemma_op_undo(doc: DocumentView, op: NodeOpView)
    requires
        op_reversible(doc, op),
    ensures
        op_ok(apply_op(doc, op).0, apply_op(doc, op).1),
        apply_op(apply_op(doc, op).0, apply_op(doc, op).1).0 == doc,
        op_ok(doc, apply_op(apply_op(doc, op).0, apply_op(doc, op).1).1),
        apply_op(doc, apply_op(apply_op(doc, op).0, apply_op(doc, op).1).1).0 == apply_op(doc, op).0,
{
    let (d1, b) = apply_op(doc, op);
    match op {
        NodeOpView::Add { parent, node, index } => {
            let nid = node.id;
            let p = doc.nodes[parent.0];
            let idx = clamp_index(index, p.children.len());
            let p2 = with_child_at(p, idx, nid);
            lemma_position_of(p.children, nid);
            assert forall|j: int| 0 <= j < idx implies p2.children[j] != nid by {
                assert(p2.children[j] == p.children[j]);
            }
            lemma_position_of_first(p2.children, nid, idx);
            assert(d1.nodes.remove(nid.0) =~= doc.nodes.insert(parent.0, p2));
            assert(p2.children.remove(idx) =~= p.children);
            assert(without_child_at(p2, idx) == p);
            assert(apply_op(d1, b).0.nodes =~= doc.nodes);
            let (d2, b2) = apply_op(d1, b);
            assert(apply_op(doc, b2).0.nodes =~= d1.nodes);
        },
        NodeOpView::Remove { parent, id } => {
            let removed = doc.nodes[id.0];
            let nodes1 = doc.nodes.remove(id.0);
            let p = nodes1[parent.0];
            let idx = position_of(p.children, id);
            lemma_position_of(p.children, id);
            let p2 = without_child_at(p, idx);
            assert(clamp_index(idx as usize, p2.children.len()) == idx);
            assert(p2.children.insert(idx, id) =~= p.children);
            assert(with_child_at(p2, idx, id) == p);
            assert(apply_op(d1, b).0.nodes =~= doc.nodes);
            let (d2, b2) = apply_op(d1, b);
            assert(apply_op(doc, b2).0.nodes =~= d1.nodes);
        },
        NodeOpView::Update { id, before, after } => {
            assert(apply_op(d1, b).0.nodes =~= doc.nodes);
            let (d2, b2) = apply_op(d1, b);
            assert(apply_op(doc, b2).0.nodes =~= d1.nodes);
        },
    }
}

proof fn lemma_apply_ops_concat(doc: DocumentView, a: Seq<NodeOpView>, b: Seq<NodeOpView>)
    ensures
        apply_ops(doc, a + b).0 == apply_ops(apply_ops(doc, a).0, b).0,
        apply_ops(doc, a + b).1 == apply_ops(doc, a).1 + apply_ops(apply_ops(doc, a).0, b).1,
        ops_ok(doc, a + b) == (ops_ok(doc, a) && ops_ok(apply_ops(doc, a).0, b)),
    decreases b.len(),
{
    if b.len() == 0 {
        assert(a + b =~= a);
        assert(apply_ops(doc, a).1 + Seq::<NodeOpView>::empty() =~= apply_ops(doc, a).1);
    } else {
        lemma_apply_ops_concat(doc, a, b.drop_last());
        assert((a + b).drop_last() =~= a + b.drop_last());
        assert((a + b).last() == b.last());
        let mid = apply_ops(apply_ops(doc, a).0, b.drop_last());
        assert(apply_ops(doc, a).1 + mid.1.push(apply_op(mid.0, b.last()).1) =~= (apply_ops(doc, a).1
            + mid.1).push(apply_op(mid.0, b.last()).1));
    }
}

proof fn lemma_apply_one(doc: DocumentView, o: NodeOpView)
    ensures
        apply_ops(doc, seq![o]).0 == apply_op(doc, o).0,
        apply_ops(doc, seq![o]).1 == seq![apply_op(doc, o).1],
        ops_ok(doc, seq![o]) == op_ok(doc, o),
{
    assert(seq![o].drop_last() =~= Seq::<NodeOpView>::empty());
    assert(apply_ops(doc, Seq::<NodeOpView>::empty()) == (doc, Seq::<NodeOpView>::empty()));
    assert(ops_ok(doc, Seq::<NodeOpView>::empty()));
    assert(Seq::<NodeOpView>::empty().push(apply_op(doc, o).1) =~= seq![apply_op(doc, o).1]);
}

/// Applying the delta that `apply` returns takes the document back exactly to what it was, and
/// applying the delta that returns in turn makes it again what the first delta made it: an undo
/// restores the document, and a redo redoes the edit. This holds for every delta whose edits can
/// each be taken back.
pub proof fn lemma_an_applied_delta_is_undone_by_its_inverse(doc: DocumentView, ops: Seq<NodeOpView>)
    requires
        ops_reversible(doc, ops),
    ensures
        ops_ok(doc, ops),
        ({
            let (after, back) = apply_ops(doc, ops);
            let undone = apply_ops(after, back.reverse());
            &&& ops_ok(after, back.reverse())
            &&& undone.0 == doc
            &&& ops_ok(doc, undone.1.reverse())
            &&& apply_ops(doc, undone.1.reverse()).0 == after
        }),
    decreases ops.len(),
{
    if ops.len() > 0 {
        let pre = ops.drop_last();
        let o = ops.last();
        lemma_an_applied_delta_is_undone_by_its_inverse(doc, pre);
        let (dp, bp) = apply_ops(doc, pre);
        let (d1, b) = apply_op(dp, o);
        lemma_op_undo(dp, o);
        let back = bp.push(b);
        assert(back.reverse() =~= seq![b] + bp.reverse());
        lemma_apply_ops_concat(d1, seq![b], bp.reverse());
        lemma_apply_one(d1, b);
        let (d0, b2) = apply_op(d1, b);
        assert(d0 == dp);
        let r = apply_ops(dp, bp.reverse()).1;
        let undone = apply_ops(d1, back.reverse());
        assert(undone.1 == seq![b2] + r);
        assert(undone.1.reverse() =~= r.reverse() + seq![b2]);
        lemma_apply_ops_concat(doc, r.reverse(), seq![b2]);
        lemma_apply_one(dp, b2);
    }
}

// ---------------------------------------------------------------------------
// Checking a delta before applying it
// ---------------------------------------------------------------------------

impl Document {
    /// A copy of this document.
    pub fn duplicate(&self) -> (r: Document)
        ensures
            r@ == self@,
    {
        let nodes = self.nodes.clone();
        proof {
            assert(nodes_view(nodes@) =~= nodes_view(self.nodes@));
        }
        Document { nodes, root: self.root, ids: self.ids }
    }

    fn op_applies(&self, op: &NodeOp) -> (r: bool)
        ensures
            r == op_ok(self@, op@),
    {
        broadcast use vstd::std_specs::hash::group_hash_axioms;

        match op {
            NodeOp::Add { parent, node, index } => parent.0 == node.id.0 || self.nodes.contains_key(
                &parent.0,
            ),
            NodeOp::Remove { parent, id } => {
                if !self.nodes.contains_key(&id.0) || parent.0 == id.0 {
                    return false;
                }
                match self.nodes.get(&parent.0) {
                    None => false,
                    Some(p) => position(&p.children, *id).is_some(),
                }
            },
            NodeOp::Update { .. } => true,
        }
    }

    /// Whether every edit of `d` can be applied in order: what `apply` asks of a delta.
    pub fn can_apply(&self, d: &Delta) -> (r: bool)
        ensures
            r == ops_ok(self@, ops_view(d.0@)),
    {
        let ghost ops = ops_view(d.0@);
        let mut scratch = self.duplicate();
        let mut i: usize = 0;
        assert(ops.take(0) =~= Seq::<NodeOpView>::empty());
        while i < d.0.len()
            invariant
                i <= d.0.len(),
                ops == ops_view(d.0@),
                ops_ok(self@, ops.take(i as int)),
                scratch@ == apply_ops(self@, ops.take(i as int)).0,
            decreases d.0.len() - i,
        {
            assert(ops.take(i + 1).drop_last() =~= ops.take(i as int));
            if !scratch.op_applies(&d.0[i]) {
                proof {
                    lemma_ok_fails_past(self@, ops, i as int + 1);
                }
                return false;
            }
            let op = d.0[i].duplicate();
            scratch.apply_one(op);
            i = i + 1;
        }
        assert(ops.take(d.0.len() as int) =~= ops);
        true
    }
}

proof fn lemma_ok_fails_past(doc: DocumentView, ops: Seq<NodeOpView>, k: int)
    requires
        0 <= k <= ops.len(),
        !ops_ok(doc, ops.take(k)),
    ensures
        !ops_ok(doc, ops),
    decreases ops.len() - k,
{
    if k < ops.len() {
        assert(ops.take(k + 1).drop_last() =~= ops.take(k));
        lemma_ok_fails_past(doc, ops, k + 1);
    } else {
        assert(ops.take(k) =~= ops);
    }
}

// ---------------------------------------------------------------------------
// Undo and redo
// ---------------------------------------------------------------------------

/// A document with its history: each committed step's inverse, to undo, and each undone step,
/// to redo.
#[derive(Debug)]
pub struct Editor {
    pub doc: Document,
    undo_stack: Vec<Delta>,
    redo_stack: Vec<Delta>,
}

/// The deltas, each as the sequence of its edits.
pub open spec fn deltas_view(s: Seq<Delta>) -> Seq<Seq<NodeOpView>> {
    s.map_values(|d: Delta| ops_view(d.0@))
}

impl Editor {
    /// The document being edited.
    pub closed spec fn document(&self) -> DocumentView {
        self.doc@
    }

    /// The inverses of the committed steps, the most recent last.
    pub closed spec fn undo_deltas(&self) -> Seq<Seq<NodeOpView>> {
        deltas_view(self.undo_stack@)
    }

    /// The undone steps, the most recently undone last.
    pub closed spec fn redo_deltas(&self) -> Seq<Seq<NodeOpView>> {
        deltas_view(self.redo_stack@)
    }

    /// A new document with nothing to undo or redo.
    pub fn new() -> (e: Editor)
        ensures
            e.document() == Document::new_spec(),
            e.undo_deltas() == Seq::<Seq<NodeOpView>>::empty(),
            e.redo_deltas() == Seq::<Seq<NodeOpView>>::empty(),
    {
        let e = Editor { doc: Document::new(), undo_stack: Vec::new(), redo_stack: Vec::new() };
        assert(deltas_view(e.undo_stack@) =~= Seq::<Seq<NodeOpView>>::empty());
        assert(deltas_view(e.redo_stack@) =~= Seq::<Seq<NodeOpView>>::empty());
        e
    }

    /// Applies `forward` as one undoable step, forgets every undone step, and returns `forward`.
    pub fn commit(&mut self, forward: Delta) -> (r: Delta)
        requires
            ops_ok(old(self).document(), ops_view(forward.0@)),
        ensures
            ops_view(r.0@) == ops_view(forward.0@),
            final(self).document() == apply_ops(old(self).document(), ops_view(forward.0@)).0,
            final(self).undo_deltas() == old(self).undo_deltas().push(
                apply_ops(old(self).document(), ops_view(forward.0@)).1.reverse(),
            ),
            final(self).redo_deltas() == Seq::<Seq<NodeOpView>>::empty(),
    {
        let inverse = self.doc.apply(forward.duplicate());
        let ghost was = self.undo_stack@;
        self.undo_stack.push(inverse);
        self.redo_stack.clear();
        proof {
            assert(deltas_view(self.undo_stack@) =~= deltas_view(was).push(ops_view(self.undo_stack@.last().0@)));
            assert(deltas_view(self.redo_stack@) =~= Seq::<Seq<NodeOpView>>::empty());
        }
        forward
    }

    /// Whether the most recent step can be undone without fault.
    pub fn can_undo(&self) -> (r: bool)
        ensures
            r == (self.undo_deltas().len() > 0 && ops_ok(self.document(), self.undo_deltas().last())),
    {
        match self.undo_stack.last() {
            None => false,
            Some(d) => self.doc.can_apply(d),
        }
    }

    /// Whether the most recently undone step can be redone without fault.
    pub fn can_redo(&self) -> (r: bool)
        ensures
            r == (self.redo_deltas().len() > 0 && ops_ok(self.document(), self.redo_deltas().last())),
    {
        match self.redo_stack.last() {
            None => false,
            Some(d) => self.doc.can_apply(d),
        }
    }

    /// Undoes the most recent step: applies its inverse, keeps the inverse of that to redo, and
    /// returns the inverse applied. Nothing happens when there is nothing to undo.
    pub fn undo(&mut self) -> (r: Option<Delta>)
        requires
            old(self).undo_deltas().len() > 0 ==> ops_ok(old(self).document(), old(self).undo_deltas().last()),
        ensures
            old(self).undo_deltas().len() == 0 ==> r is None && final(self).document() == old(self).document()
                && final(self).undo_deltas() == old(self).undo_deltas() && final(self).redo_deltas()
                == old(self).redo_deltas(),
            old(self).undo_deltas().len() > 0 ==> ({
                let inv = old(self).undo_deltas().last();
                &&& r matches Some(d) && ops_view(d.0@) == inv
                &&& final(self).document() == apply_ops(old(self).document(), inv).0
                &&& final(self).undo_deltas() == old(self).undo_deltas().drop_last()
                &&& final(self).redo_deltas() == old(self).redo_deltas().push(
                    apply_ops(old(self).document(), inv).1.reverse(),
                )
            }),
    {
        let ghost was_undo = self.undo_stack@;
        let ghost was_redo = self.redo_stack@;
        match self.undo_stack.pop() {
            None => None,
            Some(inverse) => {
                proof {
                    assert(deltas_view(was_undo) =~= deltas_view(self.undo_stack@).push(ops_view(inverse.0@)));
                }
                let redo = self.doc.apply(inverse.duplicate());
                self.redo_stack.push(redo);
                proof {
                    assert(deltas_view(self.redo_stack@) =~= deltas_view(was_redo).push(ops_view(self.redo_stack@.last().0@)));
                }
                Some(inverse)
            },
        }
    }

    /// Redoes the most recently undone step: applies it, keeps its inverse to undo, and returns
    /// the step applied. Nothing happens when there is nothing to redo.
    pub fn redo(&mut self) -> (r: Option<Delta>)
        requires
            old(self).redo_deltas().len() > 0 ==> ops_ok(old(self).document(), old(self).redo_deltas().last()),
        ensures
            old(self).redo_deltas().len() == 0 ==> r is None && final(self).document() == old(self).document()
                && final(self).undo_deltas() == old(self).undo_deltas() && final(self).redo_deltas()
                == old(self).redo_deltas(),
            old(self).redo_deltas().len() > 0 ==> ({
                let fwd = old(self).redo_deltas().last();
                &&& r matches Some(d) && ops_view(d.0@) == fwd
                &&& final(self).document() == apply_ops(old(self).document(), fwd).0
                &&& final(self).redo_deltas() == old(self).redo_deltas().drop_last()
                &&& final(self).undo_deltas() == old(self).undo_deltas().push(
                    apply_ops(old(self).document(), fwd).1.reverse(),
                )
            }),
    {
        let ghost was_undo = self.undo_stack@;
        let ghost was_redo = self.redo_stack@;
        match self.redo_stack.pop() {
            None => None,
            Some(forward) => {
                proof {
                    assert(deltas_view(was_redo) =~= deltas_view(self.redo_stack@).push(ops_view(forward.0@)));
                }
                let inverse = self.doc.apply(forward.duplicate());
                self.undo_stack.push(inverse);
                proof {
                    assert(deltas_view(self.undo_stack@) =~= deltas_view(was_undo).push(ops_view(self.undo_stack@.last().0@)));
                }
                Some(forward)
            },
        }
    }
}

impl Document {
    /// What a new document is: its root layer with the first id, and nothing else.
    pub open spec fn new_spec() -> DocumentView {
        DocumentView {
            nodes: map![1u64 => fresh_node(NodeId(1), NodeKindView::Layer)],
            root: NodeId(1),
            ids: 1,
        }
    }
}

} // verus!
