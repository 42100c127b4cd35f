use viereck::codec::{deserialize, parse_object, serialize};
use viereck::object::{ColorDef, Object};
use viereck::opts::{
    parse_align_items, parse_align_self, parse_dimension, parse_flex_direction, parse_hex,
    parse_justify_content, parse_number, StyleOpts,
};
use viereck::style::{
    AlignItems, AlignSelf, DimRect, DimSize, Dimension, FlexDirection, JustifyContent, Style,
};

fn black() -> ColorDef {
    ColorDef::Rgba32(0x000000FF)
}

fn text_node(font: &str, text: &str, size: u32) -> Object {
    Object::Text {
        font: font.to_string(),
        text: text.to_string(),
        font_size: size,
        color: black(),
        style: Style::default(),
    }
}

#[test]
fn serialize_empty_forest() {
    let out = serialize(&vec![]);
    assert_eq!(out, "[]");
}

#[test]
fn serialize_text_node_exact() {
    let objs = vec![text_node("Mono", "Hi", 12)];
    let out = serialize(&objs);
    assert_eq!(
        out,
        "[{\"type\":\"Text\",\"font\":\"Mono\",\"text\":\"Hi\",\"font_size\":12,\
         \"color\":{\"Rgba32\":255},\"style\":{}}]"
    );
}

#[test]
fn serialize_container_exact() {
    let objs = vec![Object::Container {
        children: vec![text_node("Mono", "Hi", 12)],
        style: Style::default(),
        background: Some(ColorDef::Rgba32(0xFF0000FF)),
        corner_radius: None,
    }];
    let out = serialize(&objs);
    assert_eq!(
        out,
        "[{\"type\":\"Container\",\"children\":[{\"type\":\"Text\",\"font\":\"Mono\",\
         \"text\":\"Hi\",\"font_size\":12,\"color\":{\"Rgba32\":255},\"style\":{}}],\
         \"style\":{},\"background\":{\"Rgba32\":4278190335}}]"
    );
}

#[test]
fn round_trip_rich_forest() {
    let style = Style {
        size: Some(DimSize {
            width: Dimension::Points(100),
            height: Dimension::Percent(500),
        }),
        margin: Some(DimRect {
            start: Dimension::Points(1),
            end: Dimension::Points(2),
            top: Dimension::Auto,
            bottom: Dimension::Undefined,
        }),
        flex_grow: Some(1),
        align_items: Some(AlignItems::Center),
        justify_content: Some(JustifyContent::SpaceBetween),
        flex_direction: Some(FlexDirection::Column),
        ..Style::default()
    };
    let objs = vec![
        Object::Container {
            children: vec![
                text_node("Sans", "a\"b\\c", 14),
                Object::Image {
                    style: Style::default(),
                    path: "img/icon.png".to_string(),
                },
            ],
            style,
            background: Some(ColorDef::Rgba32(0x12345678)),
            corner_radius: Some(4),
        },
        text_node("Mono", "tail", 9),
    ];
    let line = serialize(&objs);
    let back = deserialize(&line).expect("round trip parses");
    assert_eq!(back, objs);
}

#[test]
fn round_trip_keeps_absent_fields_absent() {
    let objs = vec![Object::Container {
        children: vec![],
        style: Style {
            flex_grow: Some(0),
            ..Style::default()
        },
        background: None,
        corner_radius: None,
    }];
    let line = serialize(&objs);
    // only the present property is written
    assert!(line.contains("\"flex_grow\":0"));
    assert!(!line.contains("flex_shrink"));
    assert!(!line.contains("background"));
    let back = deserialize(&line).expect("parses");
    match &back[0] {
        Object::Container {
            style,
            background,
            corner_radius,
            ..
        } => {
            assert_eq!(style.flex_grow, Some(0));
            assert_eq!(style.flex_shrink, None);
            assert_eq!(style.size, None);
            assert_eq!(*background, None);
            assert_eq!(*corner_radius, None);
        }
        _ => panic!("wrong variant"),
    }
}

#[test]
fn round_trip_control_characters() {
    let objs = vec![text_node("Mono", "line\nbreak\ttab\rcr", 8)];
    let line = serialize(&objs);
    // the line framing survives: no raw newline inside the line
    assert!(!line.contains('\n'));
    let back = deserialize(&line).expect("parses");
    assert_eq!(back, objs);
}

#[test]
fn deserialize_rejects_malformed() {
    assert!(deserialize("{\"type\":\"Bogus\"}").is_err());
    assert!(deserialize("").is_err());
    assert!(deserialize("[").is_err());
    assert!(deserialize("[{\"type\":\"Text\"}]").is_err());
    assert!(deserialize("[] ").is_err());
    assert!(deserialize("[{\"type\":\"Container\",\"children\":[],\"style\":{},\"unknown\":1}]").is_err());
}

#[test]
fn deserialize_rejects_out_of_order_style() {
    // style properties must come in declaration order
    assert!(deserialize(
        "[{\"type\":\"Container\",\"children\":[],\"style\":{\"flex_grow\":1,\"display\":\"Flex\"}}]"
    )
    .is_err());
    assert!(deserialize(
        "[{\"type\":\"Container\",\"children\":[],\"style\":{\"display\":\"Flex\",\"flex_grow\":1}}]"
    )
    .is_ok());
}

#[test]
fn parse_object_single_node() {
    let o = parse_object("{\"type\":\"Image\",\"style\":{},\"path\":\"p.png\"}").expect("parses");
    assert_eq!(
        o,
        Object::Image {
            style: Style::default(),
            path: "p.png".to_string()
        }
    );
    assert!(parse_object("17").is_err());
}

#[test]
fn parse_hex_accepts_prefixed_and_bare() {
    assert_eq!(parse_hex("0xFF"), Ok(255));
    assert_eq!(parse_hex("ff"), Ok(255));
    assert_eq!(parse_hex("0x0"), Ok(0));
    assert_eq!(parse_hex("DEADBEEF"), Ok(0xDEADBEEF));
    assert_eq!(parse_hex("+1a"), Ok(26));
    // every leading 0x is stripped
    assert_eq!(parse_hex("0x0xAB"), Ok(171));
}

#[test]
fn parse_hex_rejects_junk() {
    assert!(parse_hex("").is_err());
    assert!(parse_hex("0x").is_err());
    assert!(parse_hex("xyz").is_err());
    assert!(parse_hex("1g").is_err());
    assert!(parse_hex("FFFFFFFFF").is_err()); // overflow
}

#[test]
fn parse_dimension_forms() {
    assert_eq!(parse_dimension("auto"), Ok(Dimension::Auto));
    assert_eq!(parse_dimension("12"), Ok(Dimension::Points(12)));
    assert_eq!(parse_dimension("50%"), Ok(Dimension::Percent(500)));
    assert_eq!(parse_dimension("100%"), Ok(Dimension::Percent(1000)));
    assert!(parse_dimension("").is_err());
    assert!(parse_dimension("%").is_err());
    assert!(parse_dimension("twelve").is_err());
}

#[test]
fn parse_number_plain() {
    assert_eq!(parse_number("1500"), Ok(1500));
    assert!(parse_number("").is_err());
    assert!(parse_number("1.5").is_err());
}

#[test]
fn parse_alignment_words() {
    assert_eq!(parse_align_items("center"), Ok(AlignItems::Center));
    assert_eq!(parse_align_items("stretch"), Ok(AlignItems::Stretch));
    assert!(parse_align_items("middle").is_err());
    assert_eq!(parse_align_self("auto"), Ok(AlignSelf::FlexStart));
    assert_eq!(parse_align_self("baseline"), Ok(AlignSelf::Baseline));
    assert!(parse_align_self("nope").is_err());
    assert_eq!(
        parse_justify_content("space_between"),
        Ok(JustifyContent::SpaceBetween)
    );
    assert!(parse_justify_content("between").is_err());
    assert_eq!(parse_flex_direction("row"), Ok(FlexDirection::Row));
    assert_eq!(
        parse_flex_direction("column_reverse"),
        Ok(FlexDirection::ColumnReverse)
    );
    assert!(parse_flex_direction("diagonal").is_err());
}

#[test]
fn to_style_groups_and_fallbacks() {
    let opts = StyleOpts {
        width: Some(Dimension::Points(10)),
        height: None,
        grow: Some(2),
        shrink: None,
        margin: Some(Dimension::Points(3)),
        padding: Some(Dimension::Points(5)),
        padding_end: Some(Dimension::Points(7)),
        padding_start: None,
        padding_top: None,
        padding_bottom: None,
        align_items: Some(AlignItems::Center),
        align_self: None,
        justify_content: None,
        flex_direction: Some(FlexDirection::Row),
        aspect_ratio: Some(1500),
    };
    let s = opts.to_style();
    assert_eq!(
        s.size,
        Some(DimSize {
            width: Dimension::Points(10),
            height: Dimension::Auto
        })
    );
    assert_eq!(
        s.margin,
        Some(DimRect {
            start: Dimension::Points(3),
            end: Dimension::Points(3),
            top: Dimension::Points(3),
            bottom: Dimension::Points(3)
        })
    );
    assert_eq!(
        s.padding,
        Some(DimRect {
            start: Dimension::Points(5),
            end: Dimension::Points(7),
            top: Dimension::Points(5),
            bottom: Dimension::Points(5)
        })
    );
    assert_eq!(s.flex_grow, Some(2));
    assert_eq!(s.flex_shrink, None);
    assert_eq!(s.align_items, Some(AlignItems::Center));
    assert_eq!(s.aspect_ratio, Some(1500));
    assert_eq!(s.display, None);
}

#[test]
fn to_style_empty_options_give_empty_style() {
    let opts = StyleOpts {
        width: None,
        height: None,
        grow: None,
        shrink: None,
        margin: None,
        padding: None,
        padding_end: None,
        padding_start: None,
        padding_top: None,
        padding_bottom: None,
        align_items: None,
        align_self: None,
        justify_content: None,
        flex_direction: None,
        aspect_ratio: None,
    };
    assert_eq!(opts.to_style(), Style::default());
}
