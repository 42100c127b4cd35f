use viereck::codec::{deserialize, serialize};
use viereck::draw::{render, root_style, Geom, GeomNode, PaintCmd};
use viereck::error::DrawError;
use viereck::events::{classify_event, commit, on_event, Action, Event, WindowEvent};
use viereck::layout::{build, PlanNode};
use viereck::object::{
    AvailSize, ColorDef, Measured, MeasureRequest, Object, PxSize, SizeHint,
};
use viereck::style::{AlignContent, Dimension, Style};

fn geom(x: i32, y: i32, w: u32, h: u32) -> Geom {
    Geom {
        x,
        y,
        width: w,
        height: h,
    }
}

fn leaf_geom(x: i32, y: i32, w: u32, h: u32) -> GeomNode {
    GeomNode {
        geom: geom(x, y, w, h),
        children: vec![],
    }
}

fn text_node(font: &str, text: &str, size: u32) -> Object {
    Object::Text {
        font: font.to_string(),
        text: text.to_string(),
        font_size: size,
        color: ColorDef::Rgba32(0x000000FF),
        style: Style::default(),
    }
}

#[test]
fn root_style_fills_viewport() {
    let s = root_style();
    assert_eq!(
        s.size.unwrap().width,
        Dimension::Percent(1000) // the whole parent extent
    );
    assert_eq!(s.size.unwrap().height, Dimension::Percent(1000));
    assert_eq!(s.align_content, Some(AlignContent::Stretch));
    assert_eq!(s.flex_grow, None);
}

#[test]
fn build_plans_boxes_and_leaves() {
    let objs = vec![Object::Container {
        children: vec![text_node("Mono", "Hi", 12)],
        style: Style::default(),
        background: None,
        corner_radius: None,
    }];
    let plan = build(&objs);
    assert_eq!(plan.style, root_style());
    assert!(plan.measure.is_none());
    assert_eq!(plan.children.len(), 1);
    assert!(plan.children[0].measure.is_none());
    assert_eq!(plan.children[0].children.len(), 1);
    match &plan.children[0].children[0].measure {
        Some(MeasureRequest::TextMetrics {
            font,
            text,
            font_size,
        }) => {
            assert_eq!(font, "Mono");
            assert_eq!(text, "Hi");
            assert_eq!(*font_size, 12);
        }
        _ => panic!("text leaf must request text metrics"),
    }
}

fn count_measures(p: &PlanNode) -> usize {
    let own = if p.measure.is_some() { 1 } else { 0 };
    own + p.children.iter().map(count_measures).sum::<usize>()
}

#[test]
fn containers_alone_request_no_measurement() {
    let objs = vec![
        Object::Container {
            children: vec![Object::Container {
                children: vec![],
                style: Style::default(),
                background: Some(ColorDef::Rgba32(0x00FF00FF)),
                corner_radius: Some(2),
            }],
            style: Style::default(),
            background: None,
            corner_radius: None,
        },
        Object::Container {
            children: vec![],
            style: Style::default(),
            background: None,
            corner_radius: None,
        },
    ];
    let plan = build(&objs);
    assert_eq!(count_measures(&plan), 0);
}

#[test]
fn measure_text_clamps_to_hint() {
    let t = text_node("Mono", "Hi", 12);
    let hint = SizeHint {
        width: AvailSize::Defined(50),
        height: AvailSize::Undefined,
    };
    let size = t.compute_size(&Measured::TextWidth(80), hint).unwrap();
    assert_eq!(
        size,
        PxSize {
            width: 50,
            height: 12
        }
    );
    let open = SizeHint {
        width: AvailSize::Undefined,
        height: AvailSize::Defined(10),
    };
    let size2 = t.compute_size(&Measured::TextWidth(80), open).unwrap();
    assert_eq!(
        size2,
        PxSize {
            width: 80,
            height: 10
        }
    );
}

#[test]
fn measure_image_keeps_natural_size() {
    let img = Object::Image {
        style: Style::default(),
        path: "p.png".to_string(),
    };
    let hint = SizeHint {
        width: AvailSize::Defined(32),
        height: AvailSize::Undefined,
    };
    let size = img.compute_size(&Measured::ImageSize(64, 48), hint).unwrap();
    assert_eq!(
        size,
        PxSize {
            width: 32,
            height: 48
        }
    );
}

#[test]
fn measure_container_is_unsupported() {
    let c = Object::Container {
        children: vec![],
        style: Style::default(),
        background: None,
        corner_radius: None,
    };
    let hint = SizeHint {
        width: AvailSize::Undefined,
        height: AvailSize::Undefined,
    };
    assert_eq!(
        c.compute_size(&Measured::TextWidth(1), hint),
        Err(DrawError::UnsupportedNodeKind)
    );
}

#[test]
fn measure_failure_aborts_with_measurement_error() {
    let img = Object::Image {
        style: Style::default(),
        path: "missing.png".to_string(),
    };
    let hint = SizeHint {
        width: AvailSize::Undefined,
        height: AvailSize::Undefined,
    };
    assert_eq!(
        img.compute_size(&Measured::Failed, hint),
        Err(DrawError::MeasurementError)
    );
    // a text answer for an image node is a collaborator fault too
    assert_eq!(
        img.compute_size(&Measured::TextWidth(3), hint),
        Err(DrawError::MeasurementError)
    );
}

#[test]
fn empty_tree_paints_only_the_base_layer() {
    let objs: Vec<Object> = vec![];
    let root = leaf_geom(0, 0, 640, 480);
    let cmds = render(&objs, &root).unwrap();
    assert_eq!(
        cmds,
        vec![
            PaintCmd::Clear(ColorDef::Rgba32(0xFFFFFFFF)),
            PaintCmd::FillRect {
                x: 0,
                y: 0,
                width: 640,
                height: 480,
                color: ColorDef::Rgba32(0xDDDDDDFF)
            },
            PaintCmd::Save,
            PaintCmd::Translate { dx: 0, dy: 0 },
            PaintCmd::Clip {
                width: 640,
                height: 480
            },
            PaintCmd::Restore,
        ]
    );
}

#[test]
fn red_container_with_text_paints_once_each() {
    // one red container filling a 100 x 50 viewport, one text child
    let line = "[{\"type\":\"Container\",\"children\":[{\"type\":\"Text\",\
        \"font\":\"Mono\",\"text\":\"Hi\",\"font_size\":12,\"color\":{\"Rgba32\":255},\
        \"style\":{}}],\"style\":{},\"background\":{\"Rgba32\":4278190335}}]";
    let objs = deserialize(line).expect("valid line");
    let root = GeomNode {
        geom: geom(0, 0, 100, 50),
        children: vec![GeomNode {
            geom: geom(0, 0, 100, 50),
            children: vec![leaf_geom(0, 0, 20, 12)],
        }],
    };
    let cmds = render(&objs, &root).unwrap();
    let red_fills: Vec<&PaintCmd> = cmds
        .iter()
        .filter(|c| {
            matches!(
                c,
                PaintCmd::FillRect {
                    width: 100,
                    height: 50,
                    color: ColorDef::Rgba32(4278190335),
                    ..
                }
            )
        })
        .collect();
    assert_eq!(red_fills.len(), 1);
    let texts: Vec<&PaintCmd> = cmds
        .iter()
        .filter(|c| matches!(c, PaintCmd::DrawText { .. }))
        .collect();
    assert_eq!(texts.len(), 1);
    match texts[0] {
        PaintCmd::DrawText { text, x, y, .. } => {
            assert_eq!(text, "Hi");
            // the vertical anchor is top plus the node's own height
            assert_eq!(*x, 0);
            assert_eq!(*y, 12);
        }
        _ => unreachable!(),
    }
    assert!(!cmds.iter().any(|c| matches!(c, PaintCmd::DrawImage { .. })));
}

#[test]
fn corner_radius_paints_rounded_rectangle() {
    let objs = vec![Object::Container {
        children: vec![],
        style: Style::default(),
        background: Some(ColorDef::Rgba32(0x336699FF)),
        corner_radius: Some(4),
    }];
    let root = GeomNode {
        geom: geom(0, 0, 10, 10),
        children: vec![leaf_geom(1, 2, 8, 6)],
    };
    let cmds = render(&objs, &root).unwrap();
    assert!(cmds.iter().any(|c| matches!(
        c,
        PaintCmd::FillRoundedRect {
            x: 1,
            y: 2,
            width: 8,
            height: 6,
            radius: 4,
            ..
        }
    )));
}

#[test]
fn children_paint_in_order_and_complete() {
    let objs = vec![Object::Container {
        children: vec![
            text_node("Mono", "first", 10),
            text_node("Mono", "second", 10),
            text_node("Mono", "third", 10),
        ],
        style: Style::default(),
        background: None,
        corner_radius: None,
    }];
    let root = GeomNode {
        geom: geom(0, 0, 90, 30),
        children: vec![GeomNode {
            geom: geom(0, 0, 90, 30),
            children: vec![
                leaf_geom(0, 0, 30, 10),
                leaf_geom(30, 0, 30, 10),
                leaf_geom(60, 0, 30, 10),
            ],
        }],
    };
    let cmds = render(&objs, &root).unwrap();
    let order: Vec<String> = cmds
        .iter()
        .filter_map(|c| match c {
            PaintCmd::DrawText { text, .. } => Some(text.clone()),
            _ => None,
        })
        .collect();
    assert_eq!(order, vec!["first", "second", "third"]);
    // each child's subtree is bracketed before the next child starts
    let first_restore = cmds
        .iter()
        .position(|c| matches!(c, PaintCmd::Restore))
        .unwrap();
    let second_text = cmds
        .iter()
        .position(|c| matches!(c, PaintCmd::DrawText { text, .. } if text == "second"))
        .unwrap();
    assert!(first_restore < second_text);
}

#[test]
fn render_rejects_mismatched_geometry() {
    let objs = vec![text_node("Mono", "Hi", 12)];
    let root = leaf_geom(0, 0, 100, 50); // no geometry for the text child
    assert_eq!(render(&objs, &root), Err(DrawError::LayoutEngineError));
}

#[test]
fn classify_exposure_codes() {
    assert_eq!(classify_event(12), WindowEvent::Draw);
    // the "sent by another client" bit is masked off
    assert_eq!(classify_event(12 | 0x80), WindowEvent::Draw);
    assert_eq!(classify_event(0), WindowEvent::Unknown);
    assert_eq!(classify_event(22), WindowEvent::Unknown);
}

#[test]
fn draw_event_repaints_current_tree() {
    match on_event(Event::Window(WindowEvent::Draw)) {
        Action::RepaintCurrent => {}
        _ => panic!("a draw event repaints the current tree"),
    }
    match on_event(Event::Window(WindowEvent::Unknown)) {
        Action::Ignore => {}
        _ => panic!("an unknown event is ignored"),
    }
}

#[test]
fn malformed_line_reports_and_keeps_tree() {
    let mut current = vec![text_node("Mono", "old", 10)];
    match on_event(Event::Input("{\"type\":\"Bogus\"}".to_string())) {
        Action::Report(_) => {}
        _ => panic!("a malformed line is reported, nothing repaints"),
    }
    // the current tree is untouched, and a following valid line still works
    assert_eq!(current.len(), 1);
    match on_event(Event::Input(serialize(&vec![]))) {
        Action::RepaintNew { tree } => {
            assert_eq!(tree, vec![]);
            commit(&mut current, tree, true);
        }
        _ => panic!("a valid line replaces the tree"),
    }
    assert_eq!(current, vec![]);
}

#[test]
fn failed_repaint_discards_the_new_tree() {
    let old_tree = vec![text_node("Mono", "old", 10)];
    let mut current = vec![text_node("Mono", "old", 10)];
    let line = serialize(&vec![Object::Image {
        style: Style::default(),
        path: "does-not-decode.png".to_string(),
    }]);
    match on_event(Event::Input(line)) {
        Action::RepaintNew { tree } => {
            // the repaint aborts: the image fails to decode during
            // measurement, so the build surfaces a measurement error
            let failed = tree[0].compute_size(
                &Measured::Failed,
                SizeHint {
                    width: AvailSize::Undefined,
                    height: AvailSize::Undefined,
                },
            );
            assert_eq!(failed, Err(DrawError::MeasurementError));
            commit(&mut current, tree, false);
        }
        _ => panic!("the line itself is well-formed"),
    }
    assert_eq!(current, old_tree);
}

#[test]
fn successful_repaint_commits_the_new_tree() {
    let mut current: Vec<Object> = vec![];
    let new_tree = vec![text_node("Mono", "new", 10)];
    commit(&mut current, new_tree, true);
    assert_eq!(current, vec![text_node("Mono", "new", 10)]);
}

#[test]
fn repaint_is_deterministic_for_equal_inputs() {
    let objs = vec![Object::Container {
        children: vec![],
        style: Style::default(),
        background: Some(ColorDef::Rgba32(0xAABBCCFF)),
        corner_radius: None,
    }];
    let make_root = || GeomNode {
        geom: geom(0, 0, 64, 64),
        children: vec![leaf_geom(2, 2, 60, 60)],
    };
    let first = render(&objs, &make_root()).unwrap();
    let second = render(&objs, &make_root()).unwrap();
    assert_eq!(first, second);
}
