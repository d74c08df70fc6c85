use cuthulhu::commands::{
    add_outline, add_primitive, boolean_delta, boolean_selection, delete_nodes, reorder,
    set_cut_line_type, set_material_preset, transform_nodes, transform_targets, CmdError,
    PLACEHOLDER_ID,
};
use cuthulhu::document::{
    cut_line_type_from_file, CutLineType, Delta, Document, Editor, IdGen, Node, NodeId, NodeKind,
    NodeOp, PresetAssignment, ShapeKind, Style, Transform, ONE_BITS,
};
use cuthulhu::geometry::GeomError;
use std::collections::HashMap;

fn mm(v: f64) -> u64 {
    v.to_bits()
}

fn rect(w: f64, h: f64) -> ShapeKind {
    ShapeKind::Rect { w: mm(w), h: mm(h) }
}

/// Every node of a document, by id, written out: two documents that print alike are alike.
fn state(doc: &Document) -> Vec<String> {
    let mut keys: Vec<u64> = doc.nodes.keys().copied().collect();
    keys.sort_unstable();
    let mut out: Vec<String> = keys.iter().map(|k| format!("{k}: {:?}", doc.nodes[k])).collect();
    out.push(format!("root {:?}", doc.root));
    out.push(format!("ids {:?}", doc.ids));
    out
}

fn translate(x: f64, y: f64) -> Transform {
    Transform { a: ONE_BITS, b: 0, c: 0, d: ONE_BITS, e: x.to_bits(), f: y.to_bits() }
}

// ---------------------------------------------------------------------------
// Nodes, deltas and history
// ---------------------------------------------------------------------------

#[test]
fn new_shape_has_identity_transform_and_unique_ids() {
    let mut ids = IdGen::default();
    let a = Node::shape(ids.next(), rect(10.0, 5.0));
    let b = Node::shape(ids.next(), rect(10.0, 5.0));
    assert_ne!(a.id, b.id);
    assert_eq!(a.transform, Transform::identity());
    assert!(matches!(a.kind, NodeKind::Shape(_)));
}

#[test]
fn a_new_node_is_cut() {
    let mut ids = IdGen::default();
    let shape = Node::shape(ids.next(), rect(10.0, 5.0));
    let group = Node::container(ids.next(), NodeKind::Group);
    assert_eq!(shape.cut_line_type, CutLineType::Cut);
    assert_eq!(group.cut_line_type, CutLineType::Cut);
}

#[test]
fn a_new_node_inherits_its_material() {
    let mut ids = IdGen::default();
    assert_eq!(Node::shape(ids.next(), rect(1.0, 1.0)).material_preset, PresetAssignment::Inherit);
    assert_eq!(Node::container(ids.next(), NodeKind::Group).material_preset, PresetAssignment::Inherit);
}

#[test]
fn a_node_saved_without_the_attribute_derives_it_from_its_stroke() {
    assert_eq!(cut_line_type_from_file(None, true, Some(255)), CutLineType::Cut);
    assert_eq!(cut_line_type_from_file(None, true, None), CutLineType::NoCut);
    assert_eq!(cut_line_type_from_file(None, true, Some(4278190080)), CutLineType::NoCut);
    assert_eq!(cut_line_type_from_file(None, true, Some(4278190081)), CutLineType::Cut);
    assert_eq!(cut_line_type_from_file(None, false, None), CutLineType::Cut, "a container is always Cut");
}

#[test]
fn an_explicit_attribute_survives() {
    assert_eq!(cut_line_type_from_file(Some(CutLineType::NoCut), true, Some(0x000000FF)), CutLineType::NoCut);
    assert_eq!(cut_line_type_from_file(Some(CutLineType::Cut), true, None), CutLineType::Cut);
}

#[test]
fn apply_then_apply_inverse_restores_state() {
    let mut doc = Document::new();
    let root = doc.root;
    let id = doc.ids.next();
    let node = Node::shape(id, rect(4.0, 2.0));

    let before = state(&doc);
    let add = Delta(vec![NodeOp::Add { parent: root, node, index: 0 }]);
    let inverse = doc.apply(add);
    assert!(doc.get(id).is_some());

    doc.apply(inverse);
    assert!(doc.get(id).is_none());
    assert_eq!(state(&doc), before);
}

#[test]
fn undo_then_redo_round_trips() {
    let mut ed = Editor::new();
    let root = ed.doc.root;
    let id = ed.doc.ids.next();
    let add = Delta(vec![NodeOp::Add { parent: root, index: 0, node: Node::shape(id, rect(1.0, 1.0)) }]);
    ed.commit(add);
    assert!(ed.doc.get(id).is_some());

    let undo = ed.undo().unwrap();
    assert!(ed.doc.get(id).is_none());
    assert_eq!(undo.0.len(), 1);
    assert!(matches!(undo.0[0], NodeOp::Remove { .. }));

    ed.redo().unwrap();
    assert!(ed.doc.get(id).is_some());
}

#[test]
fn commit_clears_redo_stack() {
    let mut ed = Editor::new();
    let id = ed.doc.ids.next();
    ed.commit(Delta(vec![NodeOp::Add { parent: ed.doc.root, index: 0, node: Node::shape(id, rect(1.0, 1.0)) }]));
    ed.undo();
    assert!(ed.redo().is_some());
    let id2 = ed.doc.ids.next();
    ed.commit(Delta(vec![NodeOp::Add {
        parent: ed.doc.root,
        index: 0,
        node: Node::shape(id2, ShapeKind::Ellipse { rx: mm(1.0), ry: mm(1.0) }),
    }]));
    assert!(ed.redo().is_none());
    assert!(!ed.can_redo());
}

#[test]
fn undo_with_nothing_committed_is_nothing() {
    let mut ed = Editor::new();
    assert!(!ed.can_undo());
    assert!(ed.undo().is_none());
    assert!(ed.redo().is_none());
}

#[test]
fn a_reorder_moves_a_node_among_its_siblings_and_undoes() {
    let mut ed = Editor::new();
    let root = ed.doc.root;
    let a = ed.doc.ids.next();
    let b = ed.doc.ids.next();
    ed.commit(Delta(vec![
        NodeOp::Add { parent: root, node: Node::shape(a, rect(1.0, 1.0)), index: usize::MAX },
        NodeOp::Add { parent: root, node: Node::shape(b, rect(1.0, 1.0)), index: usize::MAX },
    ]));
    ed.commit(reorder(&ed.doc, b, 0).unwrap());
    assert_eq!(ed.doc.get(root).unwrap().children, vec![b, a]);
    ed.undo();
    assert_eq!(ed.doc.get(root).unwrap().children, vec![a, b]);
}

// ---------------------------------------------------------------------------
// Commands
// ---------------------------------------------------------------------------

#[test]
fn every_command_refusal_has_a_sentence() {
    let cases: Vec<(CmdError, &str)> = vec![
        (CmdError::NotFound, "the node or machine this command names is not there"),
        (CmdError::NoParent, "this node has no parent, and the command needs one"),
        (CmdError::EmptySelection, "the selection has nothing this command can act on"),
        (CmdError::Geometry(GeomError::Degenerate.message()), "the operation left no geometry behind"),
        (CmdError::EmptyPresetId, "a material assignment needs a preset id"),
    ];
    for (error, sentence) in cases {
        assert_eq!(error.message(), sentence, "{error:?}");
    }
}

fn one_rect() -> (Editor, NodeId) {
    let mut ed = Editor::new();
    let d = add_primitive(&mut ed.doc.ids, ed.doc.root, rect(10.0, 10.0)).unwrap();
    ed.commit(d);
    let real = *ed.doc.get(ed.doc.root).unwrap().children.first().unwrap();
    (ed, real)
}

#[test]
fn a_command_on_the_parentless_root_says_it_has_no_parent() {
    let (ed, real) = one_rect();
    let root = ed.doc.root;
    assert!(ed.doc.get(root).is_some(), "the root is present, which is the whole point");
    for refusal in [
        delete_nodes(&ed.doc, &[root]).unwrap_err(),
        reorder(&ed.doc, root, 0).unwrap_err(),
        boolean_selection(&ed.doc, &[root, real]).unwrap_err(),
        boolean_selection(&ed.doc, &[real, root]).unwrap_err(),
    ] {
        assert_eq!(refusal.message(), "this node has no parent, and the command needs one");
    }
}

#[test]
fn a_stale_id_is_still_not_found_rather_than_parentless() {
    let (ed, real) = one_rect();
    let stale = NodeId(9999);
    for refusal in [
        delete_nodes(&ed.doc, &[stale]).unwrap_err(),
        reorder(&ed.doc, stale, 0).unwrap_err(),
        boolean_selection(&ed.doc, &[stale, real]).unwrap_err(),
    ] {
        assert_eq!(refusal, CmdError::NotFound);
    }
}

#[test]
fn delete_removes_node_and_is_undoable() {
    let mut ed = Editor::new();
    let d = add_primitive(&mut ed.doc.ids, ed.doc.root, ShapeKind::Ellipse { rx: mm(3.0), ry: mm(3.0) }).unwrap();
    ed.commit(d);
    let id = *ed.doc.get(ed.doc.root).unwrap().children.first().unwrap();
    ed.commit(delete_nodes(&ed.doc, &[id]).unwrap());
    assert!(ed.doc.get(id).is_none());
    ed.undo();
    assert!(ed.doc.get(id).is_some());
}

#[test]
fn delete_nodes_dedupes_ids() {
    let (mut ed, id) = one_rect();
    let d = delete_nodes(&ed.doc, &[id, id]).unwrap();
    assert_eq!(d.0.len(), 1, "one Remove for an id named twice");
    ed.commit(d);
    assert!(ed.doc.get(id).is_none());
}

fn group_with_child(ed: &mut Editor) -> (NodeId, NodeId) {
    let gid = ed.doc.ids.next();
    ed.commit(Delta(vec![NodeOp::Add { parent: ed.doc.root, node: Node::container(gid, NodeKind::Group), index: 0 }]));
    let cid = ed.doc.ids.next();
    ed.commit(Delta(vec![NodeOp::Add { parent: gid, node: Node::shape(cid, rect(1.0, 1.0)), index: 0 }]));
    (gid, cid)
}

#[test]
fn deleting_group_removes_descendants_and_undo_restores_structure() {
    let mut ed = Editor::new();
    let (gid, cid) = group_with_child(&mut ed);
    ed.commit(delete_nodes(&ed.doc, &[gid]).unwrap());
    assert!(ed.doc.get(gid).is_none());
    assert!(ed.doc.get(cid).is_none(), "descendants must not be orphaned");

    ed.undo();
    assert!(ed.doc.get(gid).is_some());
    assert!(ed.doc.get(cid).is_some());
    assert_eq!(ed.doc.get(gid).unwrap().children, vec![cid]);
}

#[test]
fn selecting_group_and_child_together_does_not_panic() {
    let mut ed = Editor::new();
    let (gid, cid) = group_with_child(&mut ed);
    ed.commit(delete_nodes(&ed.doc, &[gid, cid]).unwrap());
    assert!(ed.doc.get(gid).is_none());
    assert!(ed.doc.get(cid).is_none());
}

#[test]
fn an_empty_delete_is_refused() {
    let (ed, _) = one_rect();
    assert_eq!(delete_nodes(&ed.doc, &[]).unwrap_err(), CmdError::EmptySelection);
}

// Transforms: the new local transform of each moved node is worked out elsewhere; these pin
// which nodes move, and what the edit does with what it is handed.

fn moves(targets: &[NodeId], t: Transform) -> HashMap<u64, Result<Transform, CmdError>> {
    targets.iter().map(|id| (id.0, Ok(t))).collect()
}

#[test]
fn transform_nodes_multiplies_into_transform() {
    let (mut ed, target) = one_rect();
    let targets = transform_targets(&ed.doc, &[target]);
    assert_eq!(targets, vec![target]);
    let d = transform_nodes(&ed.doc, &[target], &moves(&targets, translate(5.0, 0.0))).unwrap();
    ed.commit(d);
    assert_eq!(ed.doc.get(target).unwrap().transform, translate(5.0, 0.0));
}

#[test]
fn transform_applies_once_per_selected_subtree() {
    let mut ed = Editor::new();
    let (gid, cid) = group_with_child(&mut ed);
    let targets = transform_targets(&ed.doc, &[gid, cid]);
    assert_eq!(targets, vec![gid], "the child rides along with its selected group");
    let d = transform_nodes(&ed.doc, &[gid, cid], &moves(&targets, translate(10.0, 0.0))).unwrap();
    assert_eq!(d.0.len(), 1);
    ed.commit(d);
    assert_eq!(ed.doc.get(gid).unwrap().transform, translate(10.0, 0.0));
    assert_eq!(ed.doc.get(cid).unwrap().transform, Transform::identity());
}

#[test]
fn transform_skips_transitively_selected_ancestors() {
    let mut ed = Editor::new();
    let outer = ed.doc.ids.next();
    ed.commit(Delta(vec![NodeOp::Add { parent: ed.doc.root, node: Node::container(outer, NodeKind::Group), index: 0 }]));
    let mid = ed.doc.ids.next();
    ed.commit(Delta(vec![NodeOp::Add { parent: outer, node: Node::container(mid, NodeKind::Group), index: 0 }]));
    let leaf = ed.doc.ids.next();
    ed.commit(Delta(vec![NodeOp::Add { parent: mid, node: Node::shape(leaf, rect(1.0, 1.0)), index: 0 }]));
    assert_eq!(transform_targets(&ed.doc, &[outer, leaf]), vec![outer],
        "a selected ancestor anywhere up the chain suppresses the leaf's own update");
}

#[test]
fn transform_nodes_dedupes_ids() {
    let (ed, id) = one_rect();
    let targets = transform_targets(&ed.doc, &[id, id]);
    assert_eq!(targets, vec![id]);
    let d = transform_nodes(&ed.doc, &[id, id], &moves(&targets, translate(5.0, 0.0))).unwrap();
    assert_eq!(d.0.len(), 1, "duplicate ids must collapse to one Update");
}

#[test]
fn a_transform_under_a_collapsed_ancestor_refuses_in_words() {
    let (ed, id) = one_rect();
    let reason = "something in the selection sits under a transform that cannot be reversed";
    let mut moved = HashMap::new();
    moved.insert(id.0, Err(CmdError::Geometry(reason.into())));
    let refusal = transform_nodes(&ed.doc, &[id], &moved).unwrap_err();
    assert_eq!(refusal.message(), reason);
}

#[test]
fn a_transform_of_nothing_or_of_a_stale_id_is_refused() {
    let (ed, id) = one_rect();
    assert_eq!(transform_nodes(&ed.doc, &[], &HashMap::new()).unwrap_err(), CmdError::EmptySelection);
    assert_eq!(transform_nodes(&ed.doc, &[NodeId(9999)], &HashMap::new()).unwrap_err(), CmdError::NotFound);
    assert_eq!(transform_nodes(&ed.doc, &[id], &HashMap::new()).unwrap_err(), CmdError::NotFound,
        "a moved node with no new transform to take is not found");
}

// Boolean operations: the selection is settled first, the geometry is worked out elsewhere,
// and the edit replaces the operands with the result.

fn two_rects() -> (Editor, Vec<NodeId>) {
    let mut ed = Editor::new();
    for _ in 0..2 {
        let d = add_primitive(&mut ed.doc.ids, ed.doc.root, rect(10.0, 10.0)).unwrap();
        ed.commit(d);
    }
    let sel: Vec<NodeId> = ed.doc.get(ed.doc.root).unwrap().children.clone();
    (ed, sel)
}

fn combine(ed: &mut Editor, sel: &[NodeId]) {
    let (ids, parents) = boolean_selection(&ed.doc, sel).unwrap();
    let mut d = boolean_delta(&ids, &parents, "M0,0 L15,0 L15,10 L0,10 Z".into());
    let fresh = ed.doc.ids.next();
    if let Some(NodeOp::Add { node, .. }) = d.0.last_mut() {
        assert_eq!(node.id, NodeId(PLACEHOLDER_ID));
        node.id = fresh;
    }
    ed.commit(d);
}

#[test]
fn boolean_union_replaces_selection_with_single_path() {
    let (mut ed, sel) = two_rects();
    combine(&mut ed, &sel);
    let kids = &ed.doc.get(ed.doc.root).unwrap().children;
    assert_eq!(kids.len(), 1);
    assert!(matches!(ed.doc.get(kids[0]).unwrap().kind, NodeKind::Shape(ShapeKind::Path { .. })));
}

#[test]
fn boolean_op_dedupes_ids() {
    let (mut ed, sel) = two_rects();
    let (ids, parents) = boolean_selection(&ed.doc, &[sel[0], sel[0], sel[1]]).unwrap();
    assert_eq!(ids, sel);
    assert_eq!(parents, vec![ed.doc.root, ed.doc.root]);
    combine(&mut ed, &[sel[0], sel[0], sel[1]]);
    assert_eq!(ed.doc.get(ed.doc.root).unwrap().children.len(), 1);
}

#[test]
fn boolean_union_is_undoable() {
    let (mut ed, sel) = two_rects();
    combine(&mut ed, &sel);
    ed.undo();
    assert_eq!(ed.doc.get(ed.doc.root).unwrap().children.len(), 2);
}

#[test]
fn boolean_op_requires_at_least_two_ids() {
    let (ed, id) = one_rect();
    assert_eq!(boolean_selection(&ed.doc, &[id]).unwrap_err(), CmdError::EmptySelection);
    assert_eq!(boolean_selection(&ed.doc, &[id, id]).unwrap_err(), CmdError::EmptySelection);
}

#[test]
fn boolean_op_unknown_id_is_not_found() {
    let (ed, real) = one_rect();
    assert_eq!(boolean_selection(&ed.doc, &[real, NodeId(9999)]).unwrap_err(), CmdError::NotFound);
}

#[test]
fn the_result_of_a_boolean_op_lands_under_the_first_operands_parent() {
    let mut ed = Editor::new();
    let (gid, cid) = group_with_child(&mut ed);
    let other = ed.doc.ids.next();
    ed.commit(Delta(vec![NodeOp::Add { parent: ed.doc.root, node: Node::shape(other, rect(1.0, 1.0)), index: 1 }]));
    let (ids, parents) = boolean_selection(&ed.doc, &[cid, other]).unwrap();
    let d = boolean_delta(&ids, &parents, "M0,0 Z".into());
    assert_eq!(d.0.len(), 3);
    assert!(matches!(d.0[0], NodeOp::Remove { parent, id } if parent == gid && id == cid));
    assert!(matches!(d.0[1], NodeOp::Remove { parent, id } if parent == ed.doc.root && id == other));
    assert!(matches!(&d.0[2], NodeOp::Add { parent, index, .. } if *parent == gid && *index == usize::MAX));
}

#[test]
fn add_text_appends_a_path_shape_under_parent() {
    let mut ed = Editor::new();
    let parent = ed.doc.root;
    let mut d = add_outline(&ed.doc, parent, Ok("M0,0 L1,0 Z".into())).unwrap();
    if let NodeOp::Add { node, .. } = &mut d.0[0] {
        node.id = ed.doc.ids.next();
    }
    ed.commit(d);
    let kids = &ed.doc.get(parent).unwrap().children;
    assert_eq!(kids.len(), 1);
    assert!(matches!(&ed.doc.get(kids[0]).unwrap().kind, NodeKind::Shape(ShapeKind::Path { d }) if d == "M0,0 L1,0 Z"));
}

#[test]
fn an_outline_that_cannot_be_had_or_a_missing_parent_refuses() {
    let ed = Editor::new();
    let no_font = CmdError::Geometry(GeomError::NoFont.message());
    assert_eq!(add_outline(&ed.doc, ed.doc.root, Err(no_font)).unwrap_err(),
        CmdError::Geometry("no fonts are installed on this system".into()));
    assert_eq!(add_outline(&ed.doc, NodeId(999), Err(CmdError::Geometry("x".into()))).unwrap_err(),
        CmdError::NotFound, "a missing parent is refused before the outline is looked at");
}

// Cut line types and materials

fn group_and_shape(kind: NodeKind) -> (Document, NodeId, NodeId) {
    let mut doc = Document::new();
    let group = Node::container(doc.ids.next(), kind);
    let group_id = group.id;
    let shape = Node::shape(doc.ids.next(), rect(1.0, 1.0));
    let shape_id = shape.id;
    doc.apply(Delta(vec![
        NodeOp::Add { parent: doc.root, node: group, index: usize::MAX },
        NodeOp::Add { parent: group_id, node: shape, index: usize::MAX },
    ]));
    (doc, group_id, shape_id)
}

fn lone_shape() -> (Document, NodeId) {
    let mut doc = Document::new();
    let shape = Node::shape(doc.ids.next(), rect(1.0, 1.0));
    let shape_id = shape.id;
    doc.apply(Delta(vec![NodeOp::Add { parent: doc.root, node: shape, index: usize::MAX }]));
    (doc, shape_id)
}

#[test]
fn setting_a_cut_line_type_reaches_the_shapes_under_a_container() {
    let (mut doc, group_id, shape_id) = group_and_shape(NodeKind::Group);
    let d = set_cut_line_type(&doc, &[group_id], CutLineType::NoCut).unwrap();
    doc.apply(d);
    assert_eq!(doc.get(shape_id).unwrap().cut_line_type, CutLineType::NoCut);
}

#[test]
fn setting_the_value_a_node_already_has_produces_no_ops() {
    let (doc, shape_id) = lone_shape();
    assert_eq!(doc.get(shape_id).unwrap().cut_line_type, CutLineType::Cut, "premise");
    let d = set_cut_line_type(&doc, &[shape_id], CutLineType::Cut).unwrap();
    assert!(d.0.is_empty());
}

#[test]
fn a_shape_selected_twice_over_is_updated_once_and_nothing_is_refused_twice() {
    let (doc, group_id, shape_id) = group_and_shape(NodeKind::Group);
    let d = set_cut_line_type(&doc, &[group_id, shape_id], CutLineType::NoCut).unwrap();
    assert_eq!(d.0.len(), 1, "the shape is reached twice and updated once");
    assert_eq!(set_cut_line_type(&doc, &[], CutLineType::NoCut).unwrap_err(), CmdError::EmptySelection);
    assert_eq!(set_cut_line_type(&doc, &[NodeId(9999)], CutLineType::NoCut).unwrap_err(), CmdError::NotFound);
}

#[test]
fn set_material_preset_writes_the_selected_layer_and_not_its_children() {
    let (mut doc, layer_id, shape_id) = group_and_shape(NodeKind::Layer);
    let delta = set_material_preset(&doc, &[layer_id], PresetAssignment::Preset("cameo5-htv".into())).unwrap();
    doc.apply(delta);
    assert_eq!(doc.get(layer_id).unwrap().material_preset, PresetAssignment::Preset("cameo5-htv".into()));
    assert_eq!(doc.get(shape_id).unwrap().material_preset, PresetAssignment::Inherit,
        "the child still inherits");
}

#[test]
fn set_material_preset_writes_every_selected_node_once() {
    let (mut doc, layer_id, shape_id) = group_and_shape(NodeKind::Layer);
    let delta = set_material_preset(&doc, &[layer_id, shape_id, layer_id], PresetAssignment::Unassigned).unwrap();
    assert_eq!(delta.0.len(), 2, "one op per distinct node, duplicates ignored");
    doc.apply(delta);
    assert_eq!(doc.get(layer_id).unwrap().material_preset, PresetAssignment::Unassigned);
    assert_eq!(doc.get(shape_id).unwrap().material_preset, PresetAssignment::Unassigned);
}

#[test]
fn set_material_preset_can_stop_or_restore_inheritance() {
    let (mut doc, shape_id) = lone_shape();
    let d = set_material_preset(&doc, &[shape_id], PresetAssignment::Unassigned).unwrap();
    doc.apply(d);
    assert_eq!(doc.get(shape_id).unwrap().material_preset, PresetAssignment::Unassigned);
    let d = set_material_preset(&doc, &[shape_id], PresetAssignment::Inherit).unwrap();
    doc.apply(d);
    assert_eq!(doc.get(shape_id).unwrap().material_preset, PresetAssignment::Inherit);
}

#[test]
fn set_material_preset_refuses_an_empty_id() {
    let (doc, shape_id) = lone_shape();
    assert_eq!(set_material_preset(&doc, &[shape_id], PresetAssignment::Preset(String::new())).unwrap_err(),
        CmdError::EmptyPresetId);
    assert!(set_material_preset(&doc, &[shape_id], PresetAssignment::Preset("cameo5-htv".into())).is_ok());
}

#[test]
fn set_material_preset_emits_nothing_for_an_unchanged_selection() {
    let (doc, shape_id) = lone_shape();
    assert!(set_material_preset(&doc, &[shape_id], PresetAssignment::Inherit).unwrap().0.is_empty());
    assert_eq!(set_material_preset(&doc, &[], PresetAssignment::Inherit).unwrap_err(), CmdError::EmptySelection);
    assert_eq!(set_material_preset(&doc, &[NodeId(9999)], PresetAssignment::Inherit).unwrap_err(), CmdError::NotFound);
}

#[test]
fn a_new_primitive_is_appended_with_a_fresh_id() {
    let mut ed = Editor::new();
    let before = ed.doc.ids;
    let d = add_primitive(&mut ed.doc.ids, ed.doc.root, rect(2.0, 3.0)).unwrap();
    assert_ne!(before, ed.doc.ids);
    assert!(matches!(&d.0[0], NodeOp::Add { parent, index, node } if *parent == ed.doc.root && *index == usize::MAX && node.style == Style::default()));
}
