use cuthulhu::document::{
    CutLineType, Delta, Document, Editor, Node, NodeId, NodeKind, NodeOp, PresetAssignment,
    ShapeKind, Style,
};
use cuthulhu::geometry::GeomError;
use cuthulhu::pass_key::PassKey;
use cuthulhu::passes::{color_key, plan_layout, Grouping, PassLayout, PlanError};
use std::collections::HashMap;

fn rect() -> ShapeKind {
    ShapeKind::Rect { w: 1.0f64.to_bits(), h: 1.0f64.to_bits() }
}

fn add(doc: &mut Document, parent: NodeId, node: Node) {
    doc.apply(Delta(vec![NodeOp::Add { parent, node, index: usize::MAX }]));
}

fn painted(doc: &mut Document, stroke: Option<u32>, fill: Option<u32>) -> NodeId {
    let mut node = Node::shape(doc.ids.next(), rect());
    node.style = Style { stroke, fill };
    let id = node.id;
    let root = doc.root;
    add(doc, root, node);
    id
}

fn plan(doc: &Document, g: Grouping) -> PassLayout {
    plan_layout(doc, g, &HashMap::new()).unwrap()
}

fn keys(doc: &Document, g: Grouping) -> Vec<String> {
    plan(doc, g).passes.iter().map(|p| p.key.to_text()).collect()
}

#[test]
fn every_plan_refusal_has_a_sentence() {
    let cases: Vec<(PlanError, &str)> = vec![
        (PlanError::BadShape(NodeId(3), GeomError::NoFont.message()), "shape #3: no fonts are installed on this system"),
        (
            PlanError::BadShape(NodeId(5), GeomError::BadFont.message()),
            "shape #5: a font was found, but its file could not be read",
        ),
        (
            PlanError::BadShape(NodeId(6), GeomError::NoGlyphs.message()),
            "shape #6: the chosen font cannot draw any of this text",
        ),
        (PlanError::MissingNode(NodeId(4)), "shape #4 is referenced by the document but missing from it"),
        (PlanError::CycleDetected, "the document's shapes contain each other in a loop"),
    ];
    for (error, sentence) in cases {
        assert_eq!(error.message(), sentence, "{error:?}");
    }
}

#[test]
fn plans_group_by_stroke_rgba_with_single_traversal() {
    const RED: u32 = 0xFF0000FF;
    const BLUE: u32 = 0x0000FFFF;
    let mut ed = Editor::new();
    let root = ed.doc.root;
    let gid = ed.doc.ids.next();
    ed.commit(Delta(vec![NodeOp::Add { parent: root, node: Node::container(gid, NodeKind::Group), index: usize::MAX }]));
    let grouped_child = ed.doc.ids.next();
    let mut node = Node::shape(grouped_child, rect());
    node.style = Style { stroke: Some(RED), fill: None };
    ed.commit(Delta(vec![NodeOp::Add { parent: gid, node, index: usize::MAX }]));
    let root_rect = ed.doc.ids.next();
    let mut node = Node::shape(root_rect, rect());
    node.style = Style { stroke: Some(RED), fill: None };
    ed.commit(Delta(vec![NodeOp::Add { parent: root, node, index: usize::MAX }]));
    let ellipse = ed.doc.ids.next();
    let mut node = Node::shape(ellipse, ShapeKind::Ellipse { rx: 3.0f64.to_bits(), ry: 3.0f64.to_bits() });
    node.style = Style { stroke: Some(BLUE), fill: None };
    ed.commit(Delta(vec![NodeOp::Add { parent: root, node, index: usize::MAX }]));
    let not_cut = ed.doc.ids.next();
    let mut node = Node::shape(not_cut, rect());
    node.cut_line_type = CutLineType::NoCut;
    ed.commit(Delta(vec![NodeOp::Add { parent: root, node, index: usize::MAX }]));

    let planned = plan(&ed.doc, Grouping::Color);
    assert_eq!(planned.passes.len(), 2, "red + blue; the not-cut rect excluded");
    assert_eq!(planned.skipped_not_cut, 1);
    let red = &planned.passes[0];
    assert_eq!(red.key, PassKey::Color(Some(RED)));
    assert_eq!(red.shapes.len(), 2);
    assert_eq!(red.shapes[0].node_id, grouped_child);
    assert_eq!(red.shapes[0].ancestors, vec![gid, root], "the grouped child carries its group's transform");
    assert_eq!(red.shapes[1].ancestors, vec![root]);
    assert_eq!(planned.passes[1].key, PassKey::Color(Some(BLUE)));
}

#[test]
fn a_skipped_path_with_unreadable_data_does_not_refuse_the_plan() {
    let mut doc = Document::new();
    painted(&mut doc, Some(0xFF0000FF), None);
    let mut bad = Node::shape(doc.ids.next(), ShapeKind::Path { d: "totally not path data".into() });
    bad.cut_line_type = CutLineType::NoCut;
    let bad_id = bad.id;
    let root = doc.root;
    add(&mut doc, root, bad);
    let mut refused = HashMap::new();
    refused.insert(bad_id.0, "the path data could not be read (cmd t)".to_string());

    let planned = plan_layout(&doc, Grouping::Color, &refused).expect("a skipped shape must not refuse the plan");
    assert_eq!(planned.passes.len(), 1);
    assert_eq!(planned.skipped_not_cut, 1);
}

#[test]
fn a_cut_shape_with_unreadable_data_still_refuses_the_plan() {
    let mut doc = Document::new();
    let mut node = Node::shape(doc.ids.next(), ShapeKind::Path { d: "totally not path data".into() });
    node.style = Style { stroke: Some(0xFF0000FF), fill: None };
    let bad = node.id;
    let root = doc.root;
    add(&mut doc, root, node);
    let mut refused = HashMap::new();
    refused.insert(bad.0, "the path data could not be read (cmd t)".to_string());

    match plan_layout(&doc, Grouping::Color, &refused) {
        Err(PlanError::BadShape(id, message)) => {
            assert_eq!(id, bad);
            assert!(message.contains("path data"), "unexpected message: {message}");
        }
        other => panic!("expected BadShape for a shape that would be cut, got {other:?}"),
    }
}

#[test]
fn a_fill_only_shape_that_is_cut_plans_into_a_pass_keyed_on_its_fill() {
    let mut doc = Document::new();
    painted(&mut doc, None, Some(0x00FF00FF));
    let planned = plan(&doc, Grouping::Color);
    assert_eq!(planned.skipped_not_cut, 0);
    assert_eq!(planned.passes.len(), 1);
    assert_eq!(planned.passes[0].key, PassKey::Color(Some(0x00FF00FF)));
}

#[test]
fn a_stroked_shape_marked_no_cut_plans_into_nothing() {
    let mut doc = Document::new();
    let mut node = Node::shape(doc.ids.next(), rect());
    node.style = Style { stroke: Some(0xFF0000FF), fill: None };
    node.cut_line_type = CutLineType::NoCut;
    let root = doc.root;
    add(&mut doc, root, node);
    let planned = plan(&doc, Grouping::Color);
    assert!(planned.passes.is_empty());
    assert_eq!(planned.skipped_not_cut, 1);
}

#[test]
fn a_cut_shape_with_no_paint_lands_in_the_colorless_pass() {
    let mut doc = Document::new();
    painted(&mut doc, None, None);
    let planned = plan(&doc, Grouping::Color);
    assert_eq!(planned.passes.len(), 1);
    assert_eq!(planned.passes[0].key, PassKey::Color(None));
}

#[test]
fn transparent_paint_is_not_a_pass_key() {
    let mut doc = Document::new();
    painted(&mut doc, Some(0xFF000000), Some(0x00FF0000));
    let planned = plan(&doc, Grouping::Color);
    assert_eq!(planned.passes.len(), 1);
    assert_eq!(planned.passes[0].key, PassKey::Color(None), "both paints are invisible, so neither keys the pass");
}

#[test]
fn a_shape_with_both_paints_is_keyed_on_its_stroke() {
    let mut doc = Document::new();
    painted(&mut doc, Some(0xFF0000FF), Some(0x00FF00FF));
    let planned = plan(&doc, Grouping::Color);
    assert_eq!(planned.passes.len(), 1);
    assert_eq!(planned.passes[0].key, PassKey::Color(Some(0xFF0000FF)), "the stroke wins over the fill");
}

#[test]
fn single_grouping_yields_one_pass_in_document_order() {
    let mut doc = Document::new();
    let mut ids = vec![];
    for fill in [0xFF0000FF, 0x00FF00FF, 0xFF0000FF] {
        ids.push(painted(&mut doc, None, Some(fill)));
    }
    assert_eq!(plan(&doc, Grouping::Color).passes.len(), 2, "premise: two fills, so colour grouping splits");

    let single = plan(&doc, Grouping::Single);
    assert_eq!(single.passes.len(), 1);
    assert_eq!(single.passes[0].key, PassKey::All, "one pass by request, not the colourless pass");
    let planned: Vec<_> = single.passes[0].shapes.iter().map(|s| s.node_id).collect();
    assert_eq!(planned, ids, "document order, not colour-grouped order");
}

#[test]
fn every_grouping_keys_the_same_shapes_differently() {
    const GREEN: u32 = 0x00FF00FF;
    const RED: u32 = 0xFF0000FF;
    const BLUE: u32 = 0x0000FFFF;
    let mut doc = Document::new();
    painted(&mut doc, Some(RED), Some(GREEN));
    painted(&mut doc, Some(GREEN), Some(GREEN));
    painted(&mut doc, None, Some(BLUE));
    painted(&mut doc, None, None);

    assert_eq!(keys(&doc, Grouping::Single), vec!["all"]);
    assert_eq!(keys(&doc, Grouping::Color), vec!["color:ff0000ff", "color:00ff00ff", "color:0000ffff", "no-color"]);
    assert_eq!(keys(&doc, Grouping::Stroke), vec!["color:ff0000ff", "color:00ff00ff", "no-color"]);
    assert_eq!(keys(&doc, Grouping::Fill), vec!["color:00ff00ff", "color:0000ffff", "no-color"]);
    assert_eq!(keys(&doc, Grouping::Preset), vec!["no-preset"]);

    for g in [Grouping::Single, Grouping::Color, Grouping::Stroke, Grouping::Fill, Grouping::Preset] {
        let planned = plan(&doc, g);
        let shapes: usize = planned.passes.iter().map(|p| p.shapes.len()).sum();
        assert_eq!(shapes, 4, "{g:?} dropped a shape");
        assert_eq!(planned.skipped_not_cut, 0);
    }
}

#[test]
fn the_colour_key_falls_back_from_stroke_to_fill_only_under_colour() {
    let style = Style { stroke: None, fill: Some(0x00FF00FF) };
    assert_eq!(color_key(&style, Grouping::Color), Some(0x00FF00FF));
    assert_eq!(color_key(&style, Grouping::Stroke), None);
    assert_eq!(color_key(&style, Grouping::Fill), Some(0x00FF00FF));
}

#[test]
fn a_material_resolves_from_the_nearest_assigned_ancestor() {
    let mut doc = Document::new();
    let mut layer = Node::container(doc.ids.next(), NodeKind::Layer);
    layer.material_preset = PresetAssignment::Preset("cameo5-htv".into());
    let layer_id = layer.id;
    let inherits = Node::shape(doc.ids.next(), rect());
    let mut refuses = Node::shape(doc.ids.next(), rect());
    refuses.material_preset = PresetAssignment::Unassigned;
    let mut overrides = Node::shape(doc.ids.next(), rect());
    overrides.material_preset = PresetAssignment::Preset("cameo5-vinyl-adhesive".into());
    doc.apply(Delta(vec![
        NodeOp::Add { parent: doc.root, node: layer, index: usize::MAX },
        NodeOp::Add { parent: layer_id, node: inherits, index: usize::MAX },
        NodeOp::Add { parent: layer_id, node: refuses, index: usize::MAX },
        NodeOp::Add { parent: layer_id, node: overrides, index: usize::MAX },
    ]));
    assert_eq!(keys(&doc, Grouping::Preset), vec!["preset:cameo5-htv", "no-preset", "preset:cameo5-vinyl-adhesive"]);
}

#[test]
fn a_reparented_shape_inherits_without_being_edited() {
    let mut doc = Document::new();
    let mut layer = Node::container(doc.ids.next(), NodeKind::Layer);
    layer.material_preset = PresetAssignment::Preset("cameo5-htv".into());
    let layer_id = layer.id;
    let resident = Node::shape(doc.ids.next(), rect());
    let shape = Node::shape(doc.ids.next(), rect());
    let shape_id = shape.id;
    doc.apply(Delta(vec![
        NodeOp::Add { parent: doc.root, node: layer, index: usize::MAX },
        NodeOp::Add { parent: layer_id, node: resident, index: usize::MAX },
        NodeOp::Add { parent: doc.root, node: shape, index: usize::MAX },
    ]));
    assert_eq!(keys(&doc, Grouping::Preset), vec!["preset:cameo5-htv", "no-preset"],
        "premise: outside the Layer it resolves to no material");

    let moved = doc.get(shape_id).unwrap().clone();
    doc.apply(Delta(vec![
        NodeOp::Remove { parent: doc.root, id: shape_id },
        NodeOp::Add { parent: layer_id, node: moved, index: usize::MAX },
    ]));
    assert_eq!(keys(&doc, Grouping::Preset), vec!["preset:cameo5-htv"]);
}

#[test]
fn an_unknown_preset_id_still_keys_a_pass() {
    let mut doc = Document::new();
    let mut shape = Node::shape(doc.ids.next(), rect());
    shape.material_preset = PresetAssignment::Preset("deleted-by-the-operator".into());
    let root = doc.root;
    add(&mut doc, root, shape);
    assert_eq!(plan(&doc, Grouping::Preset).passes[0].key, PassKey::Preset(Some("deleted-by-the-operator".into())));
}

#[test]
fn a_no_cut_shape_is_counted_under_every_grouping() {
    let mut doc = Document::new();
    let mut shape = Node::shape(doc.ids.next(), ShapeKind::Text {
        family: "no such family".into(),
        size_mm: 10.0f64.to_bits(),
        text: "x".into(),
    });
    shape.cut_line_type = CutLineType::NoCut;
    let id = shape.id;
    let root = doc.root;
    add(&mut doc, root, shape);
    let mut refused = HashMap::new();
    refused.insert(id.0, GeomError::NoFont.message());
    for g in [Grouping::Single, Grouping::Color, Grouping::Stroke, Grouping::Fill, Grouping::Preset] {
        let planned = plan_layout(&doc, g, &refused).unwrap();
        assert_eq!(planned.skipped_not_cut, 1, "{g:?}");
        assert!(planned.passes.is_empty(), "{g:?}");
    }
}

#[test]
fn a_document_whose_nodes_contain_each_other_is_refused() {
    let mut doc = Document::new();
    let gid = doc.ids.next();
    let root = doc.root;
    add(&mut doc, root, Node::container(gid, NodeKind::Group));
    doc.nodes.get_mut(&gid.0).unwrap().children.push(root);
    assert_eq!(plan_layout(&doc, Grouping::Color, &HashMap::new()).unwrap_err(), PlanError::CycleDetected);

    let mut doc = Document::new();
    doc.nodes.get_mut(&doc.root.0).unwrap().children.push(NodeId(77));
    assert_eq!(plan_layout(&doc, Grouping::Color, &HashMap::new()).unwrap_err(), PlanError::MissingNode(NodeId(77)));
}
