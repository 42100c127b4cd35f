//! The wire encoding of scene forests.
//!
//! A snapshot line is the canonical JSON-style text of an array of scene
//! nodes. Every node is a tagged object (`"type"` first); style properties
//! are written in a fixed order and absent properties are omitted, never
//! written as a zero default. Parsing is the exact inverse of
//! serialization, proved in `lemma_forest_round_trip`.

use vstd::prelude::*;

use crate::json::Json;
use crate::json::JsonV;
use crate::json::json_view;
use crate::json::members_view;
use crate::json::elems_view;
use crate::json::ser_json;
use crate::json::parse_json_text;
use crate::json::lemma_rt_json;
use crate::json::lemma_members_view_all;
use crate::json::lemma_members_view_cons;
use crate::json::lemma_elems_view_cons;
use crate::json::lemma_members_view_step;
use crate::json::lemma_elems_view_step;
use crate::error::InputParseError;
use crate::object::ColorDef;
use crate::object::Object;
use crate::object::obj_view;
use crate::object::forest_view;
use crate::object::lemma_forest_view_len;
use crate::object::lemma_forest_view_index;
use crate::object::ObjectV;
use crate::style::AlignContent;
use crate::style::AlignItems;
use crate::style::AlignSelf;
use crate::style::DimRect;
use crate::style::DimSize;
use crate::style::Dimension;
use crate::style::Direction;
use crate::style::Display;
use crate::style::FlexDirection;
use crate::style::FlexWrap;
use crate::style::JustifyContent;
use crate::style::Overflow;
use crate::style::PositionType;
use crate::style::Style;
use crate::style::empty_style;

verus! {

/// Texts of different lengths differ.
pub proof fn lemma_ne_len(a: &str, b: &str)
    requires
        a@.len() != b@.len(),
    ensures
        a@ != b@,
{
}

/// Texts that differ at one position differ.
pub proof fn lemma_ne_at(a: &str, b: &str, i: int)
    requires
        0 <= i < a@.len(),
        0 <= i < b@.len(),
        a@[i] != b@[i],
    ensures
        a@ != b@,
{
}

// ---------------------------------------------------------------------------
// Colors and numbers
// ---------------------------------------------------------------------------

/// The encoding of a color: `{"Rgba32":n}`.
pub open spec fn color_to_json(c: ColorDef) -> JsonV {
    match c {
        ColorDef::Rgba32(n) => JsonV::Obj(seq![("Rgba32"@, JsonV::UInt(n as u64))]),
    }
}

pub open spec fn color_of_json(j: JsonV) -> Option<ColorDef> {
    match j {
        JsonV::Obj(ms) => if ms.len() == 1 && ms[0].0 == "Rgba32"@ {
            match ms[0].1 {
                JsonV::UInt(n) => if n <= u32::MAX {
                    Some(ColorDef::Rgba32(n as u32))
                } else {
                    None
                },
                _ => None,
            }
        } else {
            None
        },
        _ => None,
    }
}

pub proof fn lemma_rt_color(c: ColorDef)
    ensures
        color_of_json(color_to_json(c)) == Some(c),
{
}

/// The encoding of a plain 32-bit number.
pub open spec fn u32_to_json(n: u32) -> JsonV {
    JsonV::UInt(n as u64)
}

pub open spec fn u32_of_json(j: JsonV) -> Option<u32> {
    match j {
        JsonV::UInt(n) => if n <= u32::MAX {
            Some(n as u32)
        } else {
            None
        },
        _ => None,
    }
}

// ---------------------------------------------------------------------------
// Dimensions
// ---------------------------------------------------------------------------

/// The encoding of one length constraint: `"undefined"`, `"auto"`,
/// `{"points":n}` or `{"percent":n}`.
pub open spec fn dim_to_json(d: Dimension) -> JsonV {
    match d {
        Dimension::Undefined => JsonV::Str("undefined"@),
        Dimension::Auto => JsonV::Str("auto"@),
        Dimension::Points(n) => JsonV::Obj(seq![("points"@, u32_to_json(n))]),
        Dimension::Percent(n) => JsonV::Obj(seq![("percent"@, u32_to_json(n))]),
    }
}

pub open spec fn dim_of_json(j: JsonV) -> Option<Dimension> {
    match j {
        JsonV::Str(s) => if s == "undefined"@ {
            Some(Dimension::Undefined)
        } else if s == "auto"@ {
            Some(Dimension::Auto)
        } else {
            None
        },
        JsonV::Obj(ms) => if ms.len() == 1 && ms[0].0 == "points"@ {
            match u32_of_json(ms[0].1) {
                Some(n) => Some(Dimension::Points(n)),
                None => None,
            }
        } else if ms.len() == 1 && ms[0].0 == "percent"@ {
            match u32_of_json(ms[0].1) {
                Some(n) => Some(Dimension::Percent(n)),
                None => None,
            }
        } else {
            None
        },
        _ => None,
    }
}

pub proof fn lemma_rt_dim(d: Dimension)
    ensures
        dim_of_json(dim_to_json(d)) == Some(d),
{
    reveal_strlit("undefined");
    reveal_strlit("auto");
    reveal_strlit("points");
    reveal_strlit("percent");
    lemma_ne_len("auto", "undefined");
    lemma_ne_len("points", "undefined");
    lemma_ne_len("points", "auto");
    lemma_ne_len("percent", "undefined");
    lemma_ne_len("percent", "auto");
    lemma_ne_len("percent", "points");
}

/// The encoding of a width/height pair.
pub open spec fn dimsize_to_json(z: DimSize) -> JsonV {
    JsonV::Obj(seq![("width"@, dim_to_json(z.width)), ("height"@, dim_to_json(z.height))])
}

pub open spec fn dimsize_of_json(j: JsonV) -> Option<DimSize> {
    match j {
        JsonV::Obj(ms) => if ms.len() == 2 && ms[0].0 == "width"@ && ms[1].0 == "height"@ {
            match (dim_of_json(ms[0].1), dim_of_json(ms[1].1)) {
                (Some(w), Some(h)) => Some(DimSize { width: w, height: h }),
                _ => None,
            }
        } else {
            None
        },
        _ => None,
    }
}

pub proof fn lemma_rt_dimsize(z: DimSize)
    ensures
        dimsize_of_json(dimsize_to_json(z)) == Some(z),
{
    lemma_rt_dim(z.width);
    lemma_rt_dim(z.height);
}

/// The encoding of per-edge length constraints.
pub open spec fn dimrect_to_json(r: DimRect) -> JsonV {
    JsonV::Obj(
        seq![
            ("start"@, dim_to_json(r.start)),
            ("end"@, dim_to_json(r.end)),
            ("top"@, dim_to_json(r.top)),
            ("bottom"@, dim_to_json(r.bottom)),
        ],
    )
}

pub open spec fn dimrect_of_json(j: JsonV) -> Option<DimRect> {
    match j {
        JsonV::Obj(ms) => if ms.len() == 4 && ms[0].0 == "start"@ && ms[1].0 == "end"@ && ms[2].0
            == "top"@ && ms[3].0 == "bottom"@ {
            match (dim_of_json(ms[0].1), dim_of_json(ms[1].1), dim_of_json(ms[2].1), dim_of_json(
                ms[3].1,
            )) {
                (Some(s), Some(e), Some(t), Some(b)) => Some(
                    DimRect { start: s, end: e, top: t, bottom: b },
                ),
                _ => None,
            }
        } else {
            None
        },
        _ => None,
    }
}

pub proof fn lemma_rt_dimrect(r: DimRect)
    ensures
        dimrect_of_json(dimrect_to_json(r)) == Some(r),
{
    lemma_rt_dim(r.start);
    lemma_rt_dim(r.end);
    lemma_rt_dim(r.top);
    lemma_rt_dim(r.bottom);
}

// ---------------------------------------------------------------------------
// Style enums
// ---------------------------------------------------------------------------

pub open spec fn display_to_json(v: Display) -> JsonV {
    match v {
        Display::Flex => JsonV::Str("Flex"@),
        Display::Hidden => JsonV::Str("Hidden"@),
    }
}

pub open spec fn display_of_json(j: JsonV) -> Option<Display> {
    match j {
        JsonV::Str(s) => if s == "Flex"@ {
            Some(Display::Flex)
        } else if s == "Hidden"@ {
            Some(Display::Hidden)
        } else {
            None
        },
        _ => None,
    }
}

pub proof fn lemma_rt_display(v: Display)
    ensures
        display_of_json(display_to_json(v)) == Some(v),
{
    reveal_strlit("Flex");
    reveal_strlit("Hidden");
    lemma_ne_len("Hidden", "Flex");
}

pub open spec fn position_type_to_json(v: PositionType) -> JsonV {
    match v {
        PositionType::Relative => JsonV::Str("Relative"@),
        PositionType::Absolute => JsonV::Str("Absolute"@),
    }
}

pub open spec fn position_type_of_json(j: JsonV) -> Option<PositionType> {
    match j {
        JsonV::Str(s) => if s == "Relative"@ {
            Some(PositionType::Relative)
        } else if s == "Absolute"@ {
            Some(PositionType::Absolute)
        } else {
            None
        },
        _ => None,
    }
}

pub proof fn lemma_rt_position_type(v: PositionType)
    ensures
        position_type_of_json(position_type_to_json(v)) == Some(v),
{
    reveal_strlit("Relative");
    reveal_strlit("Absolute");
    lemma_ne_at("Absolute", "Relative", 0);
}

pub open spec fn direction_to_json(v: Direction) -> JsonV {
    match v {
        Direction::Inherit => JsonV::Str("Inherit"@),
        Direction::LTR => JsonV::Str("LTR"@),
        Direction::RTL => JsonV::Str("RTL"@),
    }
}

pub open spec fn direction_of_json(j: JsonV) -> Option<Direction> {
    match j {
        JsonV::Str(s) => if s == "Inherit"@ {
            Some(Direction::Inherit)
        } else if s == "LTR"@ {
            Some(Direction::LTR)
        } else if s == "RTL"@ {
            Some(Direction::RTL)
        } else {
            None
        },
        _ => None,
    }
}

pub proof fn lemma_rt_direction(v: Direction)
    ensures
        direction_of_json(direction_to_json(v)) == Some(v),
{
    reveal_strlit("Inherit");
    reveal_strlit("LTR");
    reveal_strlit("RTL");
    lemma_ne_len("LTR", "Inherit");
    lemma_ne_len("RTL", "Inherit");
    lemma_ne_at("RTL", "LTR", 0);
}

pub open spec fn flex_direction_to_json(v: FlexDirection) -> JsonV {
    match v {
        FlexDirection::Row => JsonV::Str("Row"@),
        FlexDirection::Column => JsonV::Str("Column"@),
        FlexDirection::RowReverse => JsonV::Str("RowReverse"@),
        FlexDirection::ColumnReverse => JsonV::Str("ColumnReverse"@),
    }
}

pub open spec fn flex_direction_of_json(j: JsonV) -> Option<FlexDirection> {
    match j {
        JsonV::Str(s) => if s == "Row"@ {
            Some(FlexDirection::Row)
        } else if s == "Column"@ {
            Some(FlexDirection::Column)
        } else if s == "RowReverse"@ {
            Some(FlexDirection::RowReverse)
        } else if s == "ColumnReverse"@ {
            Some(FlexDirection::ColumnReverse)
        } else {
            None
        },
        _ => None,
    }
}

pub proof fn lemma_rt_flex_direction(v: FlexDirection)
    ensures
        flex_direction_of_json(flex_direction_to_json(v)) == Some(v),
{
    reveal_strlit("Row");
    reveal_strlit("Column");
    reveal_strlit("RowReverse");
    reveal_strlit("ColumnReverse");
    lemma_ne_len("Column", "Row");
    lemma_ne_len("RowReverse", "Row");
    lemma_ne_len("RowReverse", "Column");
    lemma_ne_len("ColumnReverse", "Row");
    lemma_ne_len("ColumnReverse", "Column");
    lemma_ne_len("ColumnReverse", "RowReverse");
}

pub open spec fn flex_wrap_to_json(v: FlexWrap) -> JsonV {
    match v {
        FlexWrap::NoWrap => JsonV::Str("NoWrap"@),
        FlexWrap::Wrap => JsonV::Str("Wrap"@),
        FlexWrap::WrapReverse => JsonV::Str("WrapReverse"@),
    }
}

pub open spec fn flex_wrap_of_json(j: JsonV) -> Option<FlexWrap> {
    match j {
        JsonV::Str(s) => if s == "NoWrap"@ {
            Some(FlexWrap::NoWrap)
        } else if s == "Wrap"@ {
            Some(FlexWrap::Wrap)
        } else if s == "WrapReverse"@ {
            Some(FlexWrap::WrapReverse)
        } else {
            None
        },
        _ => None,
    }
}

pub proof fn lemma_rt_flex_wrap(v: FlexWrap)
    ensures
        flex_wrap_of_json(flex_wrap_to_json(v)) == Some(v),
{
    reveal_strlit("NoWrap");
    reveal_strlit("Wrap");
    reveal_strlit("WrapReverse");
    lemma_ne_len("Wrap", "NoWrap");
    lemma_ne_len("WrapReverse", "NoWrap");
    lemma_ne_len("WrapReverse", "Wrap");
}

pub open spec fn overflow_to_json(v: Overflow) -> JsonV {
    match v {
        Overflow::Visible => JsonV::Str("Visible"@),
        Overflow::Hidden => JsonV::Str("Hidden"@),
        Overflow::Scroll => JsonV::Str("Scroll"@),
    }
}

pub open spec fn overflow_of_json(j: JsonV) -> Option<Overflow> {
    match j {
        JsonV::Str(s) => if s == "Visible"@ {
            Some(Overflow::Visible)
        } else if s == "Hidden"@ {
            Some(Overflow::Hidden)
        } else if s == "Scroll"@ {
            Some(Overflow::Scroll)
        } else {
            None
        },
        _ => None,
    }
}

pub proof fn lemma_rt_overflow(v: Overflow)
    ensures
        overflow_of_json(overflow_to_json(v)) == Some(v),
{
    reveal_strlit("Visible");
    reveal_strlit("Hidden");
    reveal_strlit("Scroll");
    lemma_ne_len("Hidden", "Visible");
    lemma_ne_len("Scroll", "Visible");
    lemma_ne_at("Scroll", "Hidden", 0);
}

pub open spec fn align_items_to_json(v: AlignItems) -> JsonV {
    match v {
        AlignItems::FlexStart => JsonV::Str("FlexStart"@),
        AlignItems::FlexEnd => JsonV::Str("FlexEnd"@),
        AlignItems::Center => JsonV::Str("Center"@),
        AlignItems::Baseline => JsonV::Str("Baseline"@),
        AlignItems::Stretch => JsonV::Str("Stretch"@),
    }
}

pub open spec fn align_items_of_json(j: JsonV) -> Option<AlignItems> {
    match j {
        JsonV::Str(s) => if s == "FlexStart"@ {
            Some(AlignItems::FlexStart)
        } else if s == "FlexEnd"@ {
            Some(AlignItems::FlexEnd)
        } else if s == "Center"@ {
            Some(AlignItems::Center)
        } else if s == "Baseline"@ {
            Some(AlignItems::Baseline)
        } else if s == "Stretch"@ {
            Some(AlignItems::Stretch)
        } else {
            None
        },
        _ => None,
    }
}

pub proof fn lemma_rt_align_items(v: AlignItems)
    ensures
        align_items_of_json(align_items_to_json(v)) == Some(v),
{
    reveal_strlit("FlexStart");
    reveal_strlit("FlexEnd");
    reveal_strlit("Center");
    reveal_strlit("Baseline");
    reveal_strlit("Stretch");
    lemma_ne_len("FlexEnd", "FlexStart");
    lemma_ne_len("Center", "FlexStart");
    lemma_ne_len("Center", "FlexEnd");
    lemma_ne_len("Baseline", "FlexStart");
    lemma_ne_len("Baseline", "FlexEnd");
    lemma_ne_len("Baseline", "Center");
    lemma_ne_len("Stretch", "FlexStart");
    lemma_ne_at("Stretch", "FlexEnd", 0);
    lemma_ne_len("Stretch", "Center");
    lemma_ne_len("Stretch", "Baseline");
}

pub open spec fn align_self_to_json(v: AlignSelf) -> JsonV {
    match v {
        AlignSelf::Auto => JsonV::Str("Auto"@),
        AlignSelf::FlexStart => JsonV::Str("FlexStart"@),
        AlignSelf::FlexEnd => JsonV::Str("FlexEnd"@),
        AlignSelf::Center => JsonV::Str("Center"@),
        AlignSelf::Baseline => JsonV::Str("Baseline"@),
        AlignSelf::Stretch => JsonV::Str("Stretch"@),
    }
}

pub open spec fn align_self_of_json(j: JsonV) -> Option<AlignSelf> {
    match j {
        JsonV::Str(s) => if s == "Auto"@ {
            Some(AlignSelf::Auto)
        } else if s == "FlexStart"@ {
            Some(AlignSelf::FlexStart)
        } else if s == "FlexEnd"@ {
            Some(AlignSelf::FlexEnd)
        } else if s == "Center"@ {
            Some(AlignSelf::Center)
        } else if s == "Baseline"@ {
            Some(AlignSelf::Baseline)
        } else if s == "Stretch"@ {
            Some(AlignSelf::Stretch)
        } else {
            None
        },
        _ => None,
    }
}

pub proof fn lemma_rt_align_self(v: AlignSelf)
    ensures
        align_self_of_json(align_self_to_json(v)) == Some(v),
{
    reveal_strlit("Auto");
    reveal_strlit("FlexStart");
    reveal_strlit("FlexEnd");
    reveal_strlit("Center");
    reveal_strlit("Baseline");
    reveal_strlit("Stretch");
    lemma_ne_len("FlexStart", "Auto");
    lemma_ne_len("FlexEnd", "Auto");
    lemma_ne_len("FlexEnd", "FlexStart");
    lemma_ne_len("Center", "Auto");
    lemma_ne_len("Center", "FlexStart");
    lemma_ne_len("Center", "FlexEnd");
    lemma_ne_len("Baseline", "Auto");
    lemma_ne_len("Baseline", "FlexStart");
    lemma_ne_len("Baseline", "FlexEnd");
    lemma_ne_len("Baseline", "Center");
    lemma_ne_len("Stretch", "Auto");
    lemma_ne_len("Stretch", "FlexStart");
    lemma_ne_at("Stretch", "FlexEnd", 0);
    lemma_ne_len("Stretch", "Center");
    lemma_ne_len("Stretch", "Baseline");
}

pub open spec fn align_content_to_json(v: AlignContent) -> JsonV {
    match v {
        AlignContent::FlexStart => JsonV::Str("FlexStart"@),
        AlignContent::FlexEnd => JsonV::Str("FlexEnd"@),
        AlignContent::Center => JsonV::Str("Center"@),
        AlignContent::Stretch => JsonV::Str("Stretch"@),
        AlignContent::SpaceBetween => JsonV::Str("SpaceBetween"@),
        AlignContent::SpaceAround => JsonV::Str("SpaceAround"@),
    }
}

pub open spec fn align_content_of_json(j: JsonV) -> Option<AlignContent> {
    match j {
        JsonV::Str(s) => if s == "FlexStart"@ {
            Some(AlignContent::FlexStart)
        } else if s == "FlexEnd"@ {
            Some(AlignContent::FlexEnd)
        } else if s == "Center"@ {
            Some(AlignContent::Center)
        } else if s == "Stretch"@ {
            Some(AlignContent::Stretch)
        } else if s == "SpaceBetween"@ {
            Some(AlignContent::SpaceBetween)
        } else if s == "SpaceAround"@ {
            Some(AlignContent::SpaceAround)
        } else {
            None
        },
        _ => None,
    }
}

pub proof fn lemma_rt_align_content(v: AlignContent)
    ensures
        align_content_of_json(align_content_to_json(v)) == Some(v),
{
    reveal_strlit("FlexStart");
    reveal_strlit("FlexEnd");
    reveal_strlit("Center");
    reveal_strlit("Stretch");
    reveal_strlit("SpaceBetween");
    reveal_strlit("SpaceAround");
    lemma_ne_len("FlexEnd", "FlexStart");
    lemma_ne_len("Center", "FlexStart");
    lemma_ne_len("Center", "FlexEnd");
    lemma_ne_len("Stretch", "FlexStart");
    lemma_ne_at("Stretch", "FlexEnd", 0);
    lemma_ne_len("Stretch", "Center");
    lemma_ne_len("SpaceBetween", "FlexStart");
    lemma_ne_len("SpaceBetween", "FlexEnd");
    lemma_ne_len("SpaceBetween", "Center");
    lemma_ne_len("SpaceBetween", "Stretch");
    lemma_ne_len("SpaceAround", "FlexStart");
    lemma_ne_len("SpaceAround", "FlexEnd");
    lemma_ne_len("SpaceAround", "Center");
    lemma_ne_len("SpaceAround", "Stretch");
    lemma_ne_len("SpaceAround", "SpaceBetween");
}

pub open spec fn justify_content_to_json(v: JustifyContent) -> JsonV {
    match v {
        JustifyContent::FlexStart => JsonV::Str("FlexStart"@),
        JustifyContent::FlexEnd => JsonV::Str("FlexEnd"@),
        JustifyContent::Center => JsonV::Str("Center"@),
        JustifyContent::SpaceBetween => JsonV::Str("SpaceBetween"@),
        JustifyContent::SpaceAround => JsonV::Str("SpaceAround"@),
        JustifyContent::SpaceEvenly => JsonV::Str("SpaceEvenly"@),
    }
}

pub open spec fn justify_content_of_json(j: JsonV) -> Option<JustifyContent> {
    match j {
        JsonV::Str(s) => if s == "FlexStart"@ {
            Some(JustifyContent::FlexStart)
        } else if s == "FlexEnd"@ {
            Some(JustifyContent::FlexEnd)
        } else if s == "Center"@ {
            Some(JustifyContent::Center)
        } else if s == "SpaceBetween"@ {
            Some(JustifyContent::SpaceBetween)
        } else if s == "SpaceAround"@ {
            Some(JustifyContent::SpaceAround)
        } else if s == "SpaceEvenly"@ {
            Some(JustifyContent::SpaceEvenly)
        } else {
            None
        },
        _ => None,
    }
}

pub proof fn lemma_rt_justify_content(v: JustifyContent)
    ensures
        justify_content_of_json(justify_content_to_json(v)) == Some(v),
{
    reveal_strlit("FlexStart");
    reveal_strlit("FlexEnd");
    reveal_strlit("Center");
    reveal_strlit("SpaceBetween");
    reveal_strlit("SpaceAround");
    reveal_strlit("SpaceEvenly");
    lemma_ne_len("FlexEnd", "FlexStart");
    lemma_ne_len("Center", "FlexStart");
    lemma_ne_len("Center", "FlexEnd");
    lemma_ne_len("SpaceBetween", "FlexStart");
    lemma_ne_len("SpaceBetween", "FlexEnd");
    lemma_ne_len("SpaceBetween", "Center");
    lemma_ne_len("SpaceAround", "FlexStart");
    lemma_ne_len("SpaceAround", "FlexEnd");
    lemma_ne_len("SpaceAround", "Center");
    lemma_ne_len("SpaceAround", "SpaceBetween");
    lemma_ne_len("SpaceEvenly", "FlexStart");
    lemma_ne_len("SpaceEvenly", "FlexEnd");
    lemma_ne_len("SpaceEvenly", "Center");
    lemma_ne_len("SpaceEvenly", "SpaceBetween");
    lemma_ne_at("SpaceEvenly", "SpaceAround", 5);
}


// ---------------------------------------------------------------------------
// The style field table
// ---------------------------------------------------------------------------

/// The number of style properties.
pub open spec fn field_count() -> int {
    21
}

/// The wire name of style property `k`, in declaration order.
pub open spec fn field_name(k: int) -> Seq<char> {

    if k == 0 {
        "display"@
    } else if k == 1 {
        "position_type"@
    } else if k == 2 {
        "direction"@
    } else if k == 3 {
        "flex_direction"@
    } else if k == 4 {
        "flex_wrap"@
    } else if k == 5 {
        "overflow"@
    } else if k == 6 {
        "align_items"@
    } else if k == 7 {
        "align_self"@
    } else if k == 8 {
        "align_content"@
    } else if k == 9 {
        "justify_content"@
    } else if k == 10 {
        "position"@
    } else if k == 11 {
        "margin"@
    } else if k == 12 {
        "padding"@
    } else if k == 13 {
        "border"@
    } else if k == 14 {
        "flex_grow"@
    } else if k == 15 {
        "flex_shrink"@
    } else if k == 16 {
        "flex_basis"@
    } else if k == 17 {
        "size"@
    } else if k == 18 {
        "min_size"@
    } else if k == 19 {
        "max_size"@
    } else if k == 20 {
        "aspect_ratio"@
    } else {
        Seq::empty()
    }
}


/// The encoded value of style property `k`, when present.
pub open spec fn get_field(s: Style, k: int) -> Option<JsonV> {
    if k == 0 {
        match s.display {
            Some(v) => Some(display_to_json(v)),
            None => None,
        }
    } else if k == 1 {
        match s.position_type {
            Some(v) => Some(position_type_to_json(v)),
            None => None,
        }
    } else if k == 2 {
        match s.direction {
            Some(v) => Some(direction_to_json(v)),
            None => None,
        }
    } else if k == 3 {
        match s.flex_direction {
            Some(v) => Some(flex_direction_to_json(v)),
            None => None,
        }
    } else if k == 4 {
        match s.flex_wrap {
            Some(v) => Some(flex_wrap_to_json(v)),
            None => None,
        }
    } else if k == 5 {
        match s.overflow {
            Some(v) => Some(overflow_to_json(v)),
            None => None,
        }
    } else if k == 6 {
        match s.align_items {
            Some(v) => Some(align_items_to_json(v)),
            None => None,
        }
    } else if k == 7 {
        match s.align_self {
            Some(v) => Some(align_self_to_json(v)),
            None => None,
        }
    } else if k == 8 {
        match s.align_content {
            Some(v) => Some(align_content_to_json(v)),
            None => None,
        }
    } else if k == 9 {
        match s.justify_content {
            Some(v) => Some(justify_content_to_json(v)),
            None => None,
        }
    } else if k == 10 {
        match s.position {
            Some(v) => Some(dimrect_to_json(v)),
            None => None,
        }
    } else if k == 11 {
        match s.margin {
            Some(v) => Some(dimrect_to_json(v)),
            None => None,
        }
    } else if k == 12 {
        match s.padding {
            Some(v) => Some(dimrect_to_json(v)),
            None => None,
        }
    } else if k == 13 {
        match s.border {
            Some(v) => Some(dimrect_to_json(v)),
            None => None,
        }
    } else if k == 14 {
        match s.flex_grow {
            Some(v) => Some(u32_to_json(v)),
            None => None,
        }
    } else if k == 15 {
        match s.flex_shrink {
            Some(v) => Some(u32_to_json(v)),
            None => None,
        }
    } else if k == 16 {
        match s.flex_basis {
            Some(v) => Some(dim_to_json(v)),
            None => None,
        }
    } else if k == 17 {
        match s.size {
            Some(v) => Some(dimsize_to_json(v)),
            None => None,
        }
    } else if k == 18 {
        match s.min_size {
            Some(v) => Some(dimsize_to_json(v)),
            None => None,
        }
    } else if k == 19 {
        match s.max_size {
            Some(v) => Some(dimsize_to_json(v)),
            None => None,
        }
    } else if k == 20 {
        match s.aspect_ratio {
            Some(v) => Some(u32_to_json(v)),
            None => None,
        }
    } else {
        None
    }
}


/// `s` with property `k` set from an encoded value.
pub open spec fn set_field(s: Style, k: int, j: JsonV) -> Option<Style> {
    if k == 0 {
        match display_of_json(j) {
            Some(v) => Some(Style { display: Some(v), ..s }),
            None => None,
        }
    } else if k == 1 {
        match position_type_of_json(j) {
            Some(v) => Some(Style { position_type: Some(v), ..s }),
            None => None,
        }
    } else if k == 2 {
        match direction_of_json(j) {
            Some(v) => Some(Style { direction: Some(v), ..s }),
            None => None,
        }
    } else if k == 3 {
        match flex_direction_of_json(j) {
            Some(v) => Some(Style { flex_direction: Some(v), ..s }),
            None => None,
        }
    } else if k == 4 {
        match flex_wrap_of_json(j) {
            Some(v) => Some(Style { flex_wrap: Some(v), ..s }),
            None => None,
        }
    } else if k == 5 {
        match overflow_of_json(j) {
            Some(v) => Some(Style { overflow: Some(v), ..s }),
            None => None,
        }
    } else if k == 6 {
        match align_items_of_json(j) {
            Some(v) => Some(Style { align_items: Some(v), ..s }),
            None => None,
        }
    } else if k == 7 {
        match align_self_of_json(j) {
            Some(v) => Some(Style { align_self: Some(v), ..s }),
            None => None,
        }
    } else if k == 8 {
        match align_content_of_json(j) {
            Some(v) => Some(Style { align_content: Some(v), ..s }),
            None => None,
        }
    } else if k == 9 {
        match justify_content_of_json(j) {
            Some(v) => Some(Style { justify_content: Some(v), ..s }),
            None => None,
        }
    } else if k == 10 {
        match dimrect_of_json(j) {
            Some(v) => Some(Style { position: Some(v), ..s }),
            None => None,
        }
    } else if k == 11 {
        match dimrect_of_json(j) {
            Some(v) => Some(Style { margin: Some(v), ..s }),
            None => None,
        }
    } else if k == 12 {
        match dimrect_of_json(j) {
            Some(v) => Some(Style { padding: Some(v), ..s }),
            None => None,
        }
    } else if k == 13 {
        match dimrect_of_json(j) {
            Some(v) => Some(Style { border: Some(v), ..s }),
            None => None,
        }
    } else if k == 14 {
        match u32_of_json(j) {
            Some(v) => Some(Style { flex_grow: Some(v), ..s }),
            None => None,
        }
    } else if k == 15 {
        match u32_of_json(j) {
            Some(v) => Some(Style { flex_shrink: Some(v), ..s }),
            None => None,
        }
    } else if k == 16 {
        match dim_of_json(j) {
            Some(v) => Some(Style { flex_basis: Some(v), ..s }),
            None => None,
        }
    } else if k == 17 {
        match dimsize_of_json(j) {
            Some(v) => Some(Style { size: Some(v), ..s }),
            None => None,
        }
    } else if k == 18 {
        match dimsize_of_json(j) {
            Some(v) => Some(Style { min_size: Some(v), ..s }),
            None => None,
        }
    } else if k == 19 {
        match dimsize_of_json(j) {
            Some(v) => Some(Style { max_size: Some(v), ..s }),
            None => None,
        }
    } else if k == 20 {
        match u32_of_json(j) {
            Some(v) => Some(Style { aspect_ratio: Some(v), ..s }),
            None => None,
        }
    } else {
        None
    }
}


/// `acc` with property `k` taken from `s`.
pub open spec fn copy_field(acc: Style, s: Style, k: int) -> Style {
    if k == 0 {
        Style { display: s.display, ..acc }
    } else if k == 1 {
        Style { position_type: s.position_type, ..acc }
    } else if k == 2 {
        Style { direction: s.direction, ..acc }
    } else if k == 3 {
        Style { flex_direction: s.flex_direction, ..acc }
    } else if k == 4 {
        Style { flex_wrap: s.flex_wrap, ..acc }
    } else if k == 5 {
        Style { overflow: s.overflow, ..acc }
    } else if k == 6 {
        Style { align_items: s.align_items, ..acc }
    } else if k == 7 {
        Style { align_self: s.align_self, ..acc }
    } else if k == 8 {
        Style { align_content: s.align_content, ..acc }
    } else if k == 9 {
        Style { justify_content: s.justify_content, ..acc }
    } else if k == 10 {
        Style { position: s.position, ..acc }
    } else if k == 11 {
        Style { margin: s.margin, ..acc }
    } else if k == 12 {
        Style { padding: s.padding, ..acc }
    } else if k == 13 {
        Style { border: s.border, ..acc }
    } else if k == 14 {
        Style { flex_grow: s.flex_grow, ..acc }
    } else if k == 15 {
        Style { flex_shrink: s.flex_shrink, ..acc }
    } else if k == 16 {
        Style { flex_basis: s.flex_basis, ..acc }
    } else if k == 17 {
        Style { size: s.size, ..acc }
    } else if k == 18 {
        Style { min_size: s.min_size, ..acc }
    } else if k == 19 {
        Style { max_size: s.max_size, ..acc }
    } else if k == 20 {
        Style { aspect_ratio: s.aspect_ratio, ..acc }
    } else {
        acc
    }
}


/// Property `k` of `s` is absent.
pub open spec fn field_is_none(s: Style, k: int) -> bool {
    if k == 0 {
        s.display is None
    } else if k == 1 {
        s.position_type is None
    } else if k == 2 {
        s.direction is None
    } else if k == 3 {
        s.flex_direction is None
    } else if k == 4 {
        s.flex_wrap is None
    } else if k == 5 {
        s.overflow is None
    } else if k == 6 {
        s.align_items is None
    } else if k == 7 {
        s.align_self is None
    } else if k == 8 {
        s.align_content is None
    } else if k == 9 {
        s.justify_content is None
    } else if k == 10 {
        s.position is None
    } else if k == 11 {
        s.margin is None
    } else if k == 12 {
        s.padding is None
    } else if k == 13 {
        s.border is None
    } else if k == 14 {
        s.flex_grow is None
    } else if k == 15 {
        s.flex_shrink is None
    } else if k == 16 {
        s.flex_basis is None
    } else if k == 17 {
        s.size is None
    } else if k == 18 {
        s.min_size is None
    } else if k == 19 {
        s.max_size is None
    } else if k == 20 {
        s.aspect_ratio is None
    } else {
        true
    }
}


/// Every property from `k` on is absent.
pub open spec fn clear_from(s: Style, k: int) -> bool
    decreases field_count() - k,
{
    if !(0 <= k < field_count()) {
        true
    } else {
        field_is_none(s, k) && clear_from(s, k + 1)
    }
}

/// The members written for the properties from `k` on, present ones only,
/// in declaration order.
pub open spec fn members_from(s: Style, k: int) -> Seq<(Seq<char>, JsonV)>
    decreases field_count() - k,
{
    if !(0 <= k < field_count()) {
        Seq::empty()
    } else {
        match get_field(s, k) {
            Some(j) => seq![(field_name(k), j)] + members_from(s, k + 1),
            None => members_from(s, k + 1),
        }
    }
}

/// `acc` with every property from `k` on taken from `s`.
pub open spec fn copy_from(acc: Style, s: Style, k: int) -> Style
    decreases field_count() - k,
{
    if !(0 <= k < field_count()) {
        acc
    } else {
        copy_from(copy_field(acc, s, k), s, k + 1)
    }
}

/// The encoding of a style: its present properties in declaration order.
pub open spec fn style_to_json(s: Style) -> JsonV {
    JsonV::Obj(members_from(s, 0))
}

/// Read members into `acc`, walking the field table from `k` on. Unknown,
/// repeated and out-of-order keys are refused.
pub open spec fn style_from(m: Seq<(Seq<char>, JsonV)>, k: int, acc: Style) -> Option<Style>
    decreases m.len(), field_count() - k,
{
    if m.len() == 0 {
        Some(acc)
    } else if !(0 <= k < field_count()) {
        None
    } else if m[0].0 == field_name(k) {
        match set_field(acc, k, m[0].1) {
            Some(acc2) => style_from(m.drop_first(), k + 1, acc2),
            None => None,
        }
    } else {
        style_from(m, k + 1, acc)
    }
}

pub open spec fn style_of_json(j: JsonV) -> Option<Style> {
    match j {
        JsonV::Obj(ms) => style_from(ms, 0, empty_style()),
        _ => None,
    }
}


// ---------------------------------------------------------------------------
// Style round trip
// ---------------------------------------------------------------------------

/// Distinct style properties have distinct wire names.
pub proof fn lemma_field_names_distinct(a: int, b: int)
    requires
        0 <= a < field_count(),
        0 <= b < field_count(),
        a != b,
    ensures
        field_name(a) != field_name(b),
{
    reveal_strlit("display");
    reveal_strlit("position_type");
    reveal_strlit("direction");
    reveal_strlit("flex_direction");
    reveal_strlit("flex_wrap");
    reveal_strlit("overflow");
    reveal_strlit("align_items");
    reveal_strlit("align_self");
    reveal_strlit("align_content");
    reveal_strlit("justify_content");
    reveal_strlit("position");
    reveal_strlit("margin");
    reveal_strlit("padding");
    reveal_strlit("border");
    reveal_strlit("flex_grow");
    reveal_strlit("flex_shrink");
    reveal_strlit("flex_basis");
    reveal_strlit("size");
    reveal_strlit("min_size");
    reveal_strlit("max_size");
    reveal_strlit("aspect_ratio");
    lemma_ne_len("position_type", "display");
    lemma_ne_len("direction", "display");
    lemma_ne_len("direction", "position_type");
    lemma_ne_len("flex_direction", "display");
    lemma_ne_len("flex_direction", "position_type");
    lemma_ne_len("flex_direction", "direction");
    lemma_ne_len("flex_wrap", "display");
    lemma_ne_len("flex_wrap", "position_type");
    lemma_ne_at("flex_wrap", "direction", 0);
    lemma_ne_len("flex_wrap", "flex_direction");
    lemma_ne_len("overflow", "display");
    lemma_ne_len("overflow", "position_type");
    lemma_ne_len("overflow", "direction");
    lemma_ne_len("overflow", "flex_direction");
    lemma_ne_len("overflow", "flex_wrap");
    lemma_ne_len("align_items", "display");
    lemma_ne_len("align_items", "position_type");
    lemma_ne_len("align_items", "direction");
    lemma_ne_len("align_items", "flex_direction");
    lemma_ne_len("align_items", "flex_wrap");
    lemma_ne_len("align_items", "overflow");
    lemma_ne_len("align_self", "display");
    lemma_ne_len("align_self", "position_type");
    lemma_ne_len("align_self", "direction");
    lemma_ne_len("align_self", "flex_direction");
    lemma_ne_len("align_self", "flex_wrap");
    lemma_ne_len("align_self", "overflow");
    lemma_ne_len("align_self", "align_items");
    lemma_ne_len("align_content", "display");
    lemma_ne_at("align_content", "position_type", 0);
    lemma_ne_len("align_content", "direction");
    lemma_ne_len("align_content", "flex_direction");
    lemma_ne_len("align_content", "flex_wrap");
    lemma_ne_len("align_content", "overflow");
    lemma_ne_len("align_content", "align_items");
    lemma_ne_len("align_content", "align_self");
    lemma_ne_len("justify_content", "display");
    lemma_ne_len("justify_content", "position_type");
    lemma_ne_len("justify_content", "direction");
    lemma_ne_len("justify_content", "flex_direction");
    lemma_ne_len("justify_content", "flex_wrap");
    lemma_ne_len("justify_content", "overflow");
    lemma_ne_len("justify_content", "align_items");
    lemma_ne_len("justify_content", "align_self");
    lemma_ne_len("justify_content", "align_content");
    lemma_ne_len("position", "display");
    lemma_ne_len("position", "position_type");
    lemma_ne_len("position", "direction");
    lemma_ne_len("position", "flex_direction");
    lemma_ne_len("position", "flex_wrap");
    lemma_ne_at("position", "overflow", 0);
    lemma_ne_len("position", "align_items");
    lemma_ne_len("position", "align_self");
    lemma_ne_len("position", "align_content");
    lemma_ne_len("position", "justify_content");
    lemma_ne_len("margin", "display");
    lemma_ne_len("margin", "position_type");
    lemma_ne_len("margin", "direction");
    lemma_ne_len("margin", "flex_direction");
    lemma_ne_len("margin", "flex_wrap");
    lemma_ne_len("margin", "overflow");
    lemma_ne_len("margin", "align_items");
    lemma_ne_len("margin", "align_self");
    lemma_ne_len("margin", "align_content");
    lemma_ne_len("margin", "justify_content");
    lemma_ne_len("margin", "position");
    lemma_ne_at("padding", "display", 0);
    lemma_ne_len("padding", "position_type");
    lemma_ne_len("padding", "direction");
    lemma_ne_len("padding", "flex_direction");
    lemma_ne_len("padding", "flex_wrap");
    lemma_ne_len("padding", "overflow");
    lemma_ne_len("padding", "align_items");
    lemma_ne_len("padding", "align_self");
    lemma_ne_len("padding", "align_content");
    lemma_ne_len("padding", "justify_content");
    lemma_ne_len("padding", "position");
    lemma_ne_len("padding", "margin");
    lemma_ne_len("border", "display");
    lemma_ne_len("border", "position_type");
    lemma_ne_len("border", "direction");
    lemma_ne_len("border", "flex_direction");
    lemma_ne_len("border", "flex_wrap");
    lemma_ne_len("border", "overflow");
    lemma_ne_len("border", "align_items");
    lemma_ne_len("border", "align_self");
    lemma_ne_len("border", "align_content");
    lemma_ne_len("border", "justify_content");
    lemma_ne_len("border", "position");
    lemma_ne_at("border", "margin", 0);
    lemma_ne_len("border", "padding");
    lemma_ne_len("flex_grow", "display");
    lemma_ne_len("flex_grow", "position_type");
    lemma_ne_at("flex_grow", "direction", 0);
    lemma_ne_len("flex_grow", "flex_direction");
    lemma_ne_at("flex_grow", "flex_wrap", 5);
    lemma_ne_len("flex_grow", "overflow");
    lemma_ne_len("flex_grow", "align_items");
    lemma_ne_len("flex_grow", "align_self");
    lemma_ne_len("flex_grow", "align_content");
    lemma_ne_len("flex_grow", "justify_content");
    lemma_ne_len("flex_grow", "position");
    lemma_ne_len("flex_grow", "margin");
    lemma_ne_len("flex_grow", "padding");
    lemma_ne_len("flex_grow", "border");
    lemma_ne_len("flex_shrink", "display");
    lemma_ne_len("flex_shrink", "position_type");
    lemma_ne_len("flex_shrink", "direction");
    lemma_ne_len("flex_shrink", "flex_direction");
    lemma_ne_len("flex_shrink", "flex_wrap");
    lemma_ne_len("flex_shrink", "overflow");
    lemma_ne_at("flex_shrink", "align_items", 0);
    lemma_ne_len("flex_shrink", "align_self");
    lemma_ne_len("flex_shrink", "align_content");
    lemma_ne_len("flex_shrink", "justify_content");
    lemma_ne_len("flex_shrink", "position");
    lemma_ne_len("flex_shrink", "margin");
    lemma_ne_len("flex_shrink", "padding");
    lemma_ne_len("flex_shrink", "border");
    lemma_ne_len("flex_shrink", "flex_grow");
    lemma_ne_len("flex_basis", "display");
    lemma_ne_len("flex_basis", "position_type");
    lemma_ne_len("flex_basis", "direction");
    lemma_ne_len("flex_basis", "flex_direction");
    lemma_ne_len("flex_basis", "flex_wrap");
    lemma_ne_len("flex_basis", "overflow");
    lemma_ne_len("flex_basis", "align_items");
    lemma_ne_at("flex_basis", "align_self", 0);
    lemma_ne_len("flex_basis", "align_content");
    lemma_ne_len("flex_basis", "justify_content");
    lemma_ne_len("flex_basis", "position");
    lemma_ne_len("flex_basis", "margin");
    lemma_ne_len("flex_basis", "padding");
    lemma_ne_len("flex_basis", "border");
    lemma_ne_len("flex_basis", "flex_grow");
    lemma_ne_len("flex_basis", "flex_shrink");
    lemma_ne_len("size", "display");
    lemma_ne_len("size", "position_type");
    lemma_ne_len("size", "direction");
    lemma_ne_len("size", "flex_direction");
    lemma_ne_len("size", "flex_wrap");
    lemma_ne_len("size", "overflow");
    lemma_ne_len("size", "align_items");
    lemma_ne_len("size", "align_self");
    lemma_ne_len("size", "align_content");
    lemma_ne_len("size", "justify_content");
    lemma_ne_len("size", "position");
    lemma_ne_len("size", "margin");
    lemma_ne_len("size", "padding");
    lemma_ne_len("size", "border");
    lemma_ne_len("size", "flex_grow");
    lemma_ne_len("size", "flex_shrink");
    lemma_ne_len("size", "flex_basis");
    lemma_ne_len("min_size", "display");
    lemma_ne_len("min_size", "position_type");
    lemma_ne_len("min_size", "direction");
    lemma_ne_len("min_size", "flex_direction");
    lemma_ne_len("min_size", "flex_wrap");
    lemma_ne_at("min_size", "overflow", 0);
    lemma_ne_len("min_size", "align_items");
    lemma_ne_len("min_size", "align_self");
    lemma_ne_len("min_size", "align_content");
    lemma_ne_len("min_size", "justify_content");
    lemma_ne_at("min_size", "position", 0);
    lemma_ne_len("min_size", "margin");
    lemma_ne_len("min_size", "padding");
    lemma_ne_len("min_size", "border");
    lemma_ne_len("min_size", "flex_grow");
    lemma_ne_len("min_size", "flex_shrink");
    lemma_ne_len("min_size", "flex_basis");
    lemma_ne_len("min_size", "size");
    lemma_ne_len("max_size", "display");
    lemma_ne_len("max_size", "position_type");
    lemma_ne_len("max_size", "direction");
    lemma_ne_len("max_size", "flex_direction");
    lemma_ne_len("max_size", "flex_wrap");
    lemma_ne_at("max_size", "overflow", 0);
    lemma_ne_len("max_size", "align_items");
    lemma_ne_len("max_size", "align_self");
    lemma_ne_len("max_size", "align_content");
    lemma_ne_len("max_size", "justify_content");
    lemma_ne_at("max_size", "position", 0);
    lemma_ne_len("max_size", "margin");
    lemma_ne_len("max_size", "padding");
    lemma_ne_len("max_size", "border");
    lemma_ne_len("max_size", "flex_grow");
    lemma_ne_len("max_size", "flex_shrink");
    lemma_ne_len("max_size", "flex_basis");
    lemma_ne_len("max_size", "size");
    lemma_ne_at("max_size", "min_size", 1);
    lemma_ne_len("aspect_ratio", "display");
    lemma_ne_len("aspect_ratio", "position_type");
    lemma_ne_len("aspect_ratio", "direction");
    lemma_ne_len("aspect_ratio", "flex_direction");
    lemma_ne_len("aspect_ratio", "flex_wrap");
    lemma_ne_len("aspect_ratio", "overflow");
    lemma_ne_len("aspect_ratio", "align_items");
    lemma_ne_len("aspect_ratio", "align_self");
    lemma_ne_len("aspect_ratio", "align_content");
    lemma_ne_len("aspect_ratio", "justify_content");
    lemma_ne_len("aspect_ratio", "position");
    lemma_ne_len("aspect_ratio", "margin");
    lemma_ne_len("aspect_ratio", "padding");
    lemma_ne_len("aspect_ratio", "border");
    lemma_ne_len("aspect_ratio", "flex_grow");
    lemma_ne_len("aspect_ratio", "flex_shrink");
    lemma_ne_len("aspect_ratio", "flex_basis");
    lemma_ne_len("aspect_ratio", "size");
    lemma_ne_len("aspect_ratio", "min_size");
    lemma_ne_len("aspect_ratio", "max_size");
}

/// A present property reads back as itself.
proof fn lemma_field_rt(acc: Style, s: Style, k: int)
    requires
        0 <= k < field_count(),
        get_field(s, k) is Some,
    ensures
        set_field(acc, k, get_field(s, k)->Some_0) == Some(copy_field(acc, s, k)),
{
    if k == 0 {
        lemma_rt_display(s.display->Some_0);
    }
    if k == 1 {
        lemma_rt_position_type(s.position_type->Some_0);
    }
    if k == 2 {
        lemma_rt_direction(s.direction->Some_0);
    }
    if k == 3 {
        lemma_rt_flex_direction(s.flex_direction->Some_0);
    }
    if k == 4 {
        lemma_rt_flex_wrap(s.flex_wrap->Some_0);
    }
    if k == 5 {
        lemma_rt_overflow(s.overflow->Some_0);
    }
    if k == 6 {
        lemma_rt_align_items(s.align_items->Some_0);
    }
    if k == 7 {
        lemma_rt_align_self(s.align_self->Some_0);
    }
    if k == 8 {
        lemma_rt_align_content(s.align_content->Some_0);
    }
    if k == 9 {
        lemma_rt_justify_content(s.justify_content->Some_0);
    }
    if k == 10 {
        lemma_rt_dimrect(s.position->Some_0);
    }
    if k == 11 {
        lemma_rt_dimrect(s.margin->Some_0);
    }
    if k == 12 {
        lemma_rt_dimrect(s.padding->Some_0);
    }
    if k == 13 {
        lemma_rt_dimrect(s.border->Some_0);
    }
    if k == 14 {
        // a plain number round-trips by arithmetic alone
    }
    if k == 15 {
        // a plain number round-trips by arithmetic alone
    }
    if k == 16 {
        lemma_rt_dim(s.flex_basis->Some_0);
    }
    if k == 17 {
        lemma_rt_dimsize(s.size->Some_0);
    }
    if k == 18 {
        lemma_rt_dimsize(s.min_size->Some_0);
    }
    if k == 19 {
        lemma_rt_dimsize(s.max_size->Some_0);
    }
    if k == 20 {
        // a plain number round-trips by arithmetic alone
    }
}

/// Copying an earlier property does not disturb absence from `k2` on.
proof fn lemma_clear_copy(acc: Style, s: Style, k: int, k2: int)
    requires
        k < k2,
    ensures
        clear_from(copy_field(acc, s, k), k2) == clear_from(acc, k2),
    decreases field_count() - k2,
{
    if 0 <= k2 < field_count() {
        assert(field_is_none(copy_field(acc, s, k), k2) == field_is_none(acc, k2));
        lemma_clear_copy(acc, s, k, k2 + 1);
    }
}

/// Copying an absent property into a slot that is already absent changes
/// nothing.
proof fn lemma_copy_none(acc: Style, s: Style, k: int)
    requires
        0 <= k < field_count(),
        field_is_none(acc, k),
        get_field(s, k) is None,
    ensures
        copy_field(acc, s, k) == acc,
{
}

/// A non-empty member list opens with the name of some property at or
/// after `k`.
proof fn lemma_members_head(s: Style, k: int)
    requires
        members_from(s, k).len() > 0,
    ensures
        exists|j: int|
            k <= j < field_count() && #[trigger] field_name(j) == members_from(s, k)[0].0,
    decreases field_count() - k,
{
    if 0 <= k < field_count() {
        match get_field(s, k) {
            Some(j) => {
                assert(members_from(s, k)[0] == (field_name(k), j));
                assert(k <= k < field_count() && field_name(k) == members_from(s, k)[0].0);
            },
            None => {
                lemma_members_head(s, k + 1);
                let j0 = choose|j: int|
                    k + 1 <= j < field_count() && #[trigger] field_name(j) == members_from(
                        s,
                        k + 1,
                    )[0].0;
                assert(k <= j0 < field_count() && field_name(j0) == members_from(s, k)[0].0);
            },
        }
    }
}

/// Reading back what the properties from `k` on wrote restores exactly
/// those properties, on top of any accumulator that has them absent.
proof fn lemma_rt_style_from(s: Style, acc: Style, k: int)
    requires
        0 <= k <= field_count(),
        clear_from(acc, k),
    ensures
        style_from(members_from(s, k), k, acc) == Some(copy_from(acc, s, k)),
    decreases field_count() - k,
{
    if k < field_count() {
        let m = members_from(s, k);
        match get_field(s, k) {
            Some(j) => {
                assert(m[0] == (field_name(k), j));
                assert(m.drop_first() =~= members_from(s, k + 1));
                lemma_field_rt(acc, s, k);
                let acc2 = copy_field(acc, s, k);
                lemma_clear_copy(acc, s, k, k + 1);
                lemma_rt_style_from(s, acc2, k + 1);
            },
            None => {
                assert(m == members_from(s, k + 1));
                lemma_copy_none(acc, s, k);
                lemma_rt_style_from(s, acc, k + 1);
                if m.len() > 0 {
                    lemma_members_head(s, k + 1);
                    let j0 = choose|j: int|
                        k + 1 <= j < field_count() && #[trigger] field_name(j) == members_from(
                            s,
                            k + 1,
                        )[0].0;
                    lemma_field_names_distinct(j0, k);
                    assert(m[0].0 != field_name(k));
                    assert(style_from(m, k, acc) == style_from(m, k + 1, acc));
                } else {
                    assert(style_from(m, k, acc) == Some(acc));
                    assert(style_from(m, k + 1, acc) == Some(acc));
                }
                assert(copy_from(acc, s, k) == copy_from(acc, s, k + 1));
            },
        }
    }
}

/// The style with everything absent has everything absent.
proof fn lemma_empty_clear(k: int)
    ensures
        clear_from(empty_style(), k),
    decreases field_count() - k,
{
    if 0 <= k < field_count() {
        lemma_empty_clear(k + 1);
    }
}

/// Copying every property of `s` onto the empty style gives `s` back.
proof fn lemma_copy_from_empty(s: Style)
    ensures
        copy_from(empty_style(), s, 0) == s,
{
    let s1 = copy_field(empty_style(), s, 0);
    let s2 = copy_field(s1 , s, 1);
    let s3 = copy_field(s2 , s, 2);
    let s4 = copy_field(s3 , s, 3);
    let s5 = copy_field(s4 , s, 4);
    let s6 = copy_field(s5 , s, 5);
    let s7 = copy_field(s6 , s, 6);
    let s8 = copy_field(s7 , s, 7);
    let s9 = copy_field(s8 , s, 8);
    let s10 = copy_field(s9 , s, 9);
    let s11 = copy_field(s10 , s, 10);
    let s12 = copy_field(s11 , s, 11);
    let s13 = copy_field(s12 , s, 12);
    let s14 = copy_field(s13 , s, 13);
    let s15 = copy_field(s14 , s, 14);
    let s16 = copy_field(s15 , s, 15);
    let s17 = copy_field(s16 , s, 16);
    let s18 = copy_field(s17 , s, 17);
    let s19 = copy_field(s18 , s, 18);
    let s20 = copy_field(s19 , s, 19);
    let s21 = copy_field(s20 , s, 20);
    assert(copy_from(empty_style(), s, 0) == copy_from(s1, s, 1));
    assert(copy_from(s1, s, 1) == copy_from(s2, s, 2));
    assert(copy_from(s2, s, 2) == copy_from(s3, s, 3));
    assert(copy_from(s3, s, 3) == copy_from(s4, s, 4));
    assert(copy_from(s4, s, 4) == copy_from(s5, s, 5));
    assert(copy_from(s5, s, 5) == copy_from(s6, s, 6));
    assert(copy_from(s6, s, 6) == copy_from(s7, s, 7));
    assert(copy_from(s7, s, 7) == copy_from(s8, s, 8));
    assert(copy_from(s8, s, 8) == copy_from(s9, s, 9));
    assert(copy_from(s9, s, 9) == copy_from(s10, s, 10));
    assert(copy_from(s10, s, 10) == copy_from(s11, s, 11));
    assert(copy_from(s11, s, 11) == copy_from(s12, s, 12));
    assert(copy_from(s12, s, 12) == copy_from(s13, s, 13));
    assert(copy_from(s13, s, 13) == copy_from(s14, s, 14));
    assert(copy_from(s14, s, 14) == copy_from(s15, s, 15));
    assert(copy_from(s15, s, 15) == copy_from(s16, s, 16));
    assert(copy_from(s16, s, 16) == copy_from(s17, s, 17));
    assert(copy_from(s17, s, 17) == copy_from(s18, s, 18));
    assert(copy_from(s18, s, 18) == copy_from(s19, s, 19));
    assert(copy_from(s19, s, 19) == copy_from(s20, s, 20));
    assert(copy_from(s20, s, 20) == copy_from(s21, s, 21));
    assert(copy_from(s21, s, 21) == s21);
    assert(s21 == s);
}

/// A style reads back as itself.
pub proof fn lemma_rt_style(s: Style)
    ensures
        style_of_json(style_to_json(s)) == Some(s),
{
    lemma_empty_clear(0);
    lemma_rt_style_from(s, empty_style(), 0);
    lemma_copy_from_empty(s);
}


// ---------------------------------------------------------------------------
// Scene nodes
// ---------------------------------------------------------------------------

/// The optional trailing members of a container: background, then corner
/// radius, each omitted when absent.
pub open spec fn container_tail(bg: Option<ColorDef>, cr: Option<u32>) -> Seq<(Seq<char>, JsonV)> {
    (match bg {
        Some(c) => seq![("background"@, color_to_json(c))],
        None => Seq::empty(),
    }) + (match cr {
        Some(r) => seq![("corner_radius"@, u32_to_json(r))],
        None => Seq::empty(),
    })
}

/// The encoding of one scene node: a tagged object, `"type"` first.
pub open spec fn obj_to_json(o: ObjectV) -> JsonV
    decreases o,
{
    match o {
        ObjectV::Container { children, style, background, corner_radius } => JsonV::Obj(
            seq![
                ("type"@, JsonV::Str("Container"@)),
                ("children"@, JsonV::Arr(forest_to_json(children))),
                ("style"@, style_to_json(style)),
            ] + container_tail(background, corner_radius),
        ),
        ObjectV::Text { font, text, font_size, color, style } => JsonV::Obj(
            seq![
                ("type"@, JsonV::Str("Text"@)),
                ("font"@, JsonV::Str(font)),
                ("text"@, JsonV::Str(text)),
                ("font_size"@, u32_to_json(font_size)),
                ("color"@, color_to_json(color)),
                ("style"@, style_to_json(style)),
            ],
        ),
        ObjectV::Image { style, path } => JsonV::Obj(
            seq![
                ("type"@, JsonV::Str("Image"@)),
                ("style"@, style_to_json(style)),
                ("path"@, JsonV::Str(path)),
            ],
        ),
    }
}

/// The encodings of an ordered forest.
pub open spec fn forest_to_json(os: Seq<ObjectV>) -> Seq<JsonV>
    decreases os,
{
    if os.len() == 0 {
        Seq::empty()
    } else {
        seq![obj_to_json(os[0])] + forest_to_json(os.drop_first())
    }
}

/// Read the optional trailing members of a container.
pub open spec fn container_tail_of(ms: Seq<(Seq<char>, JsonV)>) -> Option<
    (Option<ColorDef>, Option<u32>),
> {
    if ms.len() == 0 {
        Some((None, None))
    } else if ms[0].0 == "background"@ {
        match color_of_json(ms[0].1) {
            Some(c) => if ms.len() == 1 {
                Some((Some(c), None))
            } else if ms.len() == 2 && ms[1].0 == "corner_radius"@ {
                match u32_of_json(ms[1].1) {
                    Some(r) => Some((Some(c), Some(r))),
                    None => None,
                }
            } else {
                None
            },
            None => None,
        }
    } else if ms.len() == 1 && ms[0].0 == "corner_radius"@ {
        match u32_of_json(ms[0].1) {
            Some(r) => Some((None, Some(r))),
            None => None,
        }
    } else {
        None
    }
}

/// Read one scene node back from its encoding.
pub open spec fn obj_of_json(j: JsonV) -> Option<ObjectV>
    decreases j, 1int,
{
    match j {
        JsonV::Obj(ms) => if ms.len() >= 3 && ms[0].0 == "type"@ {
            match ms[0].1 {
                JsonV::Str(tag) => if tag == "Container"@ {
                    if ms[1].0 == "children"@ && ms[2].0 == "style"@ {
                        match ms[1].1 {
                            JsonV::Arr(elems) => match (
                                forest_of_json(elems),
                                style_of_json(ms[2].1),
                                container_tail_of(ms.skip(3)),
                            ) {
                                (Some(children), Some(style), Some((bg, cr))) => Some(
                                    ObjectV::Container {
                                        children,
                                        style,
                                        background: bg,
                                        corner_radius: cr,
                                    },
                                ),
                                _ => None,
                            },
                            _ => None,
                        }
                    } else {
                        None
                    }
                } else if tag == "Text"@ {
                    if ms.len() == 6 && ms[1].0 == "font"@ && ms[2].0 == "text"@ && ms[3].0
                        == "font_size"@ && ms[4].0 == "color"@ && ms[5].0 == "style"@ {
                        match (ms[1].1, ms[2].1) {
                            (JsonV::Str(font), JsonV::Str(text)) => match (
                                u32_of_json(ms[3].1),
                                color_of_json(ms[4].1),
                                style_of_json(ms[5].1),
                            ) {
                                (Some(font_size), Some(color), Some(style)) => Some(
                                    ObjectV::Text { font, text, font_size, color, style },
                                ),
                                _ => None,
                            },
                            _ => None,
                        }
                    } else {
                        None
                    }
                } else if tag == "Image"@ {
                    if ms.len() == 3 && ms[1].0 == "style"@ && ms[2].0 == "path"@ {
                        match ms[2].1 {
                            JsonV::Str(path) => match style_of_json(ms[1].1) {
                                Some(style) => Some(ObjectV::Image { style, path }),
                                _ => None,
                            },
                            _ => None,
                        }
                    } else {
                        None
                    }
                } else {
                    None
                },
                _ => None,
            }
        } else {
            None
        },
        _ => None,
    }
}

/// Read a forest back from the encodings of its nodes.
pub open spec fn forest_of_json(elems: Seq<JsonV>) -> Option<Seq<ObjectV>>
    decreases elems, 0int,
{
    if elems.len() == 0 {
        Some(Seq::empty())
    } else {
        match obj_of_json(elems[0]) {
            Some(o) => match forest_of_json(elems.drop_first()) {
                Some(rest) => Some(seq![o] + rest),
                None => None,
            },
            None => None,
        }
    }
}

/// One scene node reads back as itself.
pub proof fn lemma_rt_obj(o: ObjectV)
    ensures
        obj_of_json(obj_to_json(o)) == Some(o),
    decreases o, 1int,
{
    reveal_strlit("type");
    reveal_strlit("Container");
    reveal_strlit("Text");
    reveal_strlit("Image");
    lemma_ne_len("Text", "Container");
    lemma_ne_len("Image", "Container");
    lemma_ne_len("Image", "Text");
    match o {
        ObjectV::Container { children, style, background, corner_radius } => {
            let fixed = seq![
                ("type"@, JsonV::Str("Container"@)),
                ("children"@, JsonV::Arr(forest_to_json(children))),
                ("style"@, style_to_json(style)),
            ];
            let ms = fixed + container_tail(background, corner_radius);
            assert(ms[0] == ("type"@, JsonV::Str("Container"@)));
            assert(ms[1] == ("children"@, JsonV::Arr(forest_to_json(children))));
            assert(ms[2] == ("style"@, style_to_json(style)));
            assert(ms.skip(3) =~= container_tail(background, corner_radius));
            lemma_rt_forest(children);
            lemma_rt_style(style);
            reveal_strlit("background");
            reveal_strlit("corner_radius");
            lemma_ne_len("corner_radius", "background");
            let tail = container_tail(background, corner_radius);
            match background {
                Some(c) => {
                    lemma_rt_color(c);
                    match corner_radius {
                        Some(r) => {
                            assert(tail[0] == ("background"@, color_to_json(c)));
                            assert(tail[1] == ("corner_radius"@, u32_to_json(r)));
                            assert(tail.len() == 2);
                        },
                        None => {
                            assert(tail[0] == ("background"@, color_to_json(c)));
                            assert(tail.len() == 1);
                        },
                    }
                },
                None => {
                    match corner_radius {
                        Some(r) => {
                            assert(tail[0] == ("corner_radius"@, u32_to_json(r)));
                            assert(tail.len() == 1);
                        },
                        None => {
                            assert(tail.len() == 0);
                        },
                    }
                },
            }
            assert(container_tail_of(tail) == Some((background, corner_radius)));
        },
        ObjectV::Text { font, text, font_size, color, style } => {
            reveal_strlit("font");
            reveal_strlit("text");
            reveal_strlit("font_size");
            reveal_strlit("color");
            reveal_strlit("style");
            lemma_rt_color(color);
            lemma_rt_style(style);
            let ms = seq![
                ("type"@, JsonV::Str("Text"@)),
                ("font"@, JsonV::Str(font)),
                ("text"@, JsonV::Str(text)),
                ("font_size"@, u32_to_json(font_size)),
                ("color"@, color_to_json(color)),
                ("style"@, style_to_json(style)),
            ];
            assert(ms[0] == ("type"@, JsonV::Str("Text"@)));
            assert(ms[1] == ("font"@, JsonV::Str(font)));
            assert(ms[2] == ("text"@, JsonV::Str(text)));
            assert(ms[3] == ("font_size"@, u32_to_json(font_size)));
            assert(ms[4] == ("color"@, color_to_json(color)));
            assert(ms[5] == ("style"@, style_to_json(style)));
        },
        ObjectV::Image { style, path } => {
            reveal_strlit("style");
            reveal_strlit("path");
            lemma_rt_style(style);
            let ms = seq![
                ("type"@, JsonV::Str("Image"@)),
                ("style"@, style_to_json(style)),
                ("path"@, JsonV::Str(path)),
            ];
            assert(ms[0] == ("type"@, JsonV::Str("Image"@)));
            assert(ms[1] == ("style"@, style_to_json(style)));
            assert(ms[2] == ("path"@, JsonV::Str(path)));
        },
    }
}

/// A forest reads back as itself.
pub proof fn lemma_rt_forest(os: Seq<ObjectV>)
    ensures
        forest_of_json(forest_to_json(os)) == Some(os),
    decreases os, 0int,
{
    if os.len() == 0 {
        assert(forest_to_json(os).len() == 0);
        assert(forest_of_json(forest_to_json(os)) == Some(Seq::<ObjectV>::empty()));
        assert(os =~= Seq::<ObjectV>::empty());
    } else {
        let es = forest_to_json(os);
        assert(es[0] == obj_to_json(os[0]));
        assert(es.drop_first() =~= forest_to_json(os.drop_first()));
        lemma_rt_obj(os[0]);
        lemma_rt_forest(os.drop_first());
        assert(seq![os[0]] + os.drop_first() =~= os);
    }
}


// ---------------------------------------------------------------------------
// Whole forests
// ---------------------------------------------------------------------------

/// The snapshot line of a forest: the canonical text of the array of its
/// nodes.
pub open spec fn spec_serialize(os: Seq<ObjectV>) -> Seq<char> {
    ser_json(JsonV::Arr(forest_to_json(os)))
}

/// What a snapshot line says: the forest it encodes, if it encodes one.
pub open spec fn spec_deserialize(s: Seq<char>) -> Option<Seq<ObjectV>> {
    match parse_json_text(s) {
        Some(j) => match j {
            JsonV::Arr(elems) => forest_of_json(elems),
            _ => None,
        },
        None => None,
    }
}

/// What a single-node text says: the node it encodes, if it encodes one.
pub open spec fn spec_parse_object(s: Seq<char>) -> Option<ObjectV> {
    match parse_json_text(s) {
        Some(j) => obj_of_json(j),
        None => None,
    }
}

/// Serializing a forest and parsing the line back yields the same forest,
/// every field intact: absent style properties come back absent, never as
/// a zero default.
pub proof fn lemma_forest_round_trip(os: Seq<ObjectV>)
    ensures
        spec_deserialize(spec_serialize(os)) == Some(os),
{
    lemma_rt_json(JsonV::Arr(forest_to_json(os)));
    lemma_rt_forest(os);
}

// ---------------------------------------------------------------------------
// Executable encoding
// ---------------------------------------------------------------------------

/// The characters of a text, in order.
pub fn chars_of(s: &str) -> (r: Vec<char>)
    ensures
        r@ == s@,
{
    let n = s.unicode_len();
    let mut r: Vec<char> = Vec::new();
    let mut i: usize = 0;
    while i < n
        invariant
            i <= n,
            n == s@.len(),
            r@ == s@.take(i as int),
        decreases n - i,
    {
        r.push(s.get_char(i));
        proof {
            assert(r@ =~= s@.take(i as int + 1));
        }
        i = i + 1;
    }
    proof {
        assert(s@.take(n as int) =~= s@);
    }
    r
}

/// Whether a character vector spells exactly the given text.
fn chars_eq_str(v: &Vec<char>, s: &str) -> (r: bool)
    ensures
        r == (v@ == s@),
{
    let n = s.unicode_len();
    if v.len() != n {
        proof {
            assert(v@ != s@);
        }
        return false;
    }
    let mut i: usize = 0;
    while i < n
        invariant
            i <= n,
            n == s@.len(),
            v@.len() == n,
            forall|k: int| 0 <= k < i ==> v@[k] == s@[k],
        decreases n - i,
    {
        if v[i] != s.get_char(i) {
            proof {
                assert(v@[i as int] != s@[i as int]);
            }
            return false;
        }
        i = i + 1;
    }
    proof {
        assert(v@ =~= s@);
    }
    true
}

/// Relies on std's `String::push`: it appends exactly the given character.
#[verifier::external_body]
fn push_char(s: &mut String, c: char)
    ensures
        final(s)@ == old(s)@ + seq![c],
{
    s.push(c);
}

/// The characters of `cs` as one owned text.
pub fn string_of_chars(cs: &Vec<char>) -> (s: String)
    ensures
        s@ == cs@,
{
    let mut s = String::new();
    let mut i: usize = 0;
    while i < cs.len()
        invariant
            i <= cs.len(),
            s@ == cs@.take(i as int),
        decreases cs.len() - i,
    {
        push_char(&mut s, cs[i]);
        proof {
            assert(s@ =~= cs@.take(i as int + 1));
        }
        i = i + 1;
    }
    proof {
        assert(cs@.take(cs@.len() as int) =~= cs@);
    }
    s
}


fn display_json(v: Display) -> (j: Json)
    ensures
        j@ == display_to_json(v),
{
    match v {
        Display::Flex => Json::Str(chars_of("Flex")),
        Display::Hidden => Json::Str(chars_of("Hidden")),
    }
}


fn display_from(j: &Json) -> (r: Option<Display>)
    ensures
        r == display_of_json(j@),
{
    match j {
        Json::Str(s) => {
            if chars_eq_str(s, "Flex") {
                Some(Display::Flex)
            } else if chars_eq_str(s, "Hidden") {
                Some(Display::Hidden)
            } else {
                None
            }
        },
        _ => None,
    }
}


fn position_type_json(v: PositionType) -> (j: Json)
    ensures
        j@ == position_type_to_json(v),
{
    match v {
        PositionType::Relative => Json::Str(chars_of("Relative")),
        PositionType::Absolute => Json::Str(chars_of("Absolute")),
    }
}


fn position_type_from(j: &Json) -> (r: Option<PositionType>)
    ensures
        r == position_type_of_json(j@),
{
    match j {
        Json::Str(s) => {
            if chars_eq_str(s, "Relative") {
                Some(PositionType::Relative)
            } else if chars_eq_str(s, "Absolute") {
                Some(PositionType::Absolute)
            } else {
                None
            }
        },
        _ => None,
    }
}


fn direction_json(v: Direction) -> (j: Json)
    ensures
        j@ == direction_to_json(v),
{
    match v {
        Direction::Inherit => Json::Str(chars_of("Inherit")),
        Direction::LTR => Json::Str(chars_of("LTR")),
        Direction::RTL => Json::Str(chars_of("RTL")),
    }
}


fn direction_from(j: &Json) -> (r: Option<Direction>)
    ensures
        r == direction_of_json(j@),
{
    match j {
        Json::Str(s) => {
            if chars_eq_str(s, "Inherit") {
                Some(Direction::Inherit)
            } else if chars_eq_str(s, "LTR") {
                Some(Direction::LTR)
            } else if chars_eq_str(s, "RTL") {
                Some(Direction::RTL)
            } else {
                None
            }
        },
        _ => None,
    }
}


fn flex_direction_json(v: FlexDirection) -> (j: Json)
    ensures
        j@ == flex_direction_to_json(v),
{
    match v {
        FlexDirection::Row => Json::Str(chars_of("Row")),
        FlexDirection::Column => Json::Str(chars_of("Column")),
        FlexDirection::RowReverse => Json::Str(chars_of("RowReverse")),
        FlexDirection::ColumnReverse => Json::Str(chars_of("ColumnReverse")),
    }
}


fn flex_direction_from(j: &Json) -> (r: Option<FlexDirection>)
    ensures
        r == flex_direction_of_json(j@),
{
    match j {
        Json::Str(s) => {
            if chars_eq_str(s, "Row") {
                Some(FlexDirection::Row)
            } else if chars_eq_str(s, "Column") {
                Some(FlexDirection::Column)
            } else if chars_eq_str(s, "RowReverse") {
                Some(FlexDirection::RowReverse)
            } else if chars_eq_str(s, "ColumnReverse") {
                Some(FlexDirection::ColumnReverse)
            } else {
                None
            }
        },
        _ => None,
    }
}


fn flex_wrap_json(v: FlexWrap) -> (j: Json)
    ensures
        j@ == flex_wrap_to_json(v),
{
    match v {
        FlexWrap::NoWrap => Json::Str(chars_of("NoWrap")),
        FlexWrap::Wrap => Json::Str(chars_of("Wrap")),
        FlexWrap::WrapReverse => Json::Str(chars_of("WrapReverse")),
    }
}


fn flex_wrap_from(j: &Json) -> (r: Option<FlexWrap>)
    ensures
        r == flex_wrap_of_json(j@),
{
    match j {
        Json::Str(s) => {
            if chars_eq_str(s, "NoWrap") {
                Some(FlexWrap::NoWrap)
            } else if chars_eq_str(s, "Wrap") {
                Some(FlexWrap::Wrap)
            } else if chars_eq_str(s, "WrapReverse") {
                Some(FlexWrap::WrapReverse)
            } else {
                None
            }
        },
        _ => None,
    }
}


fn overflow_json(v: Overflow) -> (j: Json)
    ensures
        j@ == overflow_to_json(v),
{
    match v {
        Overflow::Visible => Json::Str(chars_of("Visible")),
        Overflow::Hidden => Json::Str(chars_of("Hidden")),
        Overflow::Scroll => Json::Str(chars_of("Scroll")),
    }
}


fn overflow_from(j: &Json) -> (r: Option<Overflow>)
    ensures
        r == overflow_of_json(j@),
{
    match j {
        Json::Str(s) => {
            if chars_eq_str(s, "Visible") {
                Some(Overflow::Visible)
            } else if chars_eq_str(s, "Hidden") {
                Some(Overflow::Hidden)
            } else if chars_eq_str(s, "Scroll") {
                Some(Overflow::Scroll)
            } else {
                None
            }
        },
        _ => None,
    }
}


fn align_items_json(v: AlignItems) -> (j: Json)
    ensures
        j@ == align_items_to_json(v),
{
    match v {
        AlignItems::FlexStart => Json::Str(chars_of("FlexStart")),
        AlignItems::FlexEnd => Json::Str(chars_of("FlexEnd")),
        AlignItems::Center => Json::Str(chars_of("Center")),
        AlignItems::Baseline => Json::Str(chars_of("Baseline")),
        AlignItems::Stretch => Json::Str(chars_of("Stretch")),
    }
}


fn align_items_from(j: &Json) -> (r: Option<AlignItems>)
    ensures
        r == align_items_of_json(j@),
{
    match j {
        Json::Str(s) => {
            if chars_eq_str(s, "FlexStart") {
                Some(AlignItems::FlexStart)
            } else if chars_eq_str(s, "FlexEnd") {
                Some(AlignItems::FlexEnd)
            } else if chars_eq_str(s, "Center") {
                Some(AlignItems::Center)
            } else if chars_eq_str(s, "Baseline") {
                Some(AlignItems::Baseline)
            } else if chars_eq_str(s, "Stretch") {
                Some(AlignItems::Stretch)
            } else {
                None
            }
        },
        _ => None,
    }
}


fn align_self_json(v: AlignSelf) -> (j: Json)
    ensures
        j@ == align_self_to_json(v),
{
    match v {
        AlignSelf::Auto => Json::Str(chars_of("Auto")),
        AlignSelf::FlexStart => Json::Str(chars_of("FlexStart")),
        AlignSelf::FlexEnd => Json::Str(chars_of("FlexEnd")),
        AlignSelf::Center => Json::Str(chars_of("Center")),
        AlignSelf::Baseline => Json::Str(chars_of("Baseline")),
        AlignSelf::Stretch => Json::Str(chars_of("Stretch")),
    }
}


fn align_self_from(j: &Json) -> (r: Option<AlignSelf>)
    ensures
        r == align_self_of_json(j@),
{
    match j {
        Json::Str(s) => {
            if chars_eq_str(s, "Auto") {
                Some(AlignSelf::Auto)
            } else if chars_eq_str(s, "FlexStart") {
                Some(AlignSelf::FlexStart)
            } else if chars_eq_str(s, "FlexEnd") {
                Some(AlignSelf::FlexEnd)
            } else if chars_eq_str(s, "Center") {
                Some(AlignSelf::Center)
            } else if chars_eq_str(s, "Baseline") {
                Some(AlignSelf::Baseline)
            } else if chars_eq_str(s, "Stretch") {
                Some(AlignSelf::Stretch)
            } else {
                None
            }
        },
        _ => None,
    }
}


fn align_content_json(v: AlignContent) -> (j: Json)
    ensures
        j@ == align_content_to_json(v),
{
    match v {
        AlignContent::FlexStart => Json::Str(chars_of("FlexStart")),
        AlignContent::FlexEnd => Json::Str(chars_of("FlexEnd")),
        AlignContent::Center => Json::Str(chars_of("Center")),
        AlignContent::Stretch => Json::Str(chars_of("Stretch")),
        AlignContent::SpaceBetween => Json::Str(chars_of("SpaceBetween")),
        AlignContent::SpaceAround => Json::Str(chars_of("SpaceAround")),
    }
}


fn align_content_from(j: &Json) -> (r: Option<AlignContent>)
    ensures
        r == align_content_of_json(j@),
{
    match j {
        Json::Str(s) => {
            if chars_eq_str(s, "FlexStart") {
                Some(AlignContent::FlexStart)
            } else if chars_eq_str(s, "FlexEnd") {
                Some(AlignContent::FlexEnd)
            } else if chars_eq_str(s, "Center") {
                Some(AlignContent::Center)
            } else if chars_eq_str(s, "Stretch") {
                Some(AlignContent::Stretch)
            } else if chars_eq_str(s, "SpaceBetween") {
                Some(AlignContent::SpaceBetween)
            } else if chars_eq_str(s, "SpaceAround") {
                Some(AlignContent::SpaceAround)
            } else {
                None
            }
        },
        _ => None,
    }
}


fn justify_content_json(v: JustifyContent) -> (j: Json)
    ensures
        j@ == justify_content_to_json(v),
{
    match v {
        JustifyContent::FlexStart => Json::Str(chars_of("FlexStart")),
        JustifyContent::FlexEnd => Json::Str(chars_of("FlexEnd")),
        JustifyContent::Center => Json::Str(chars_of("Center")),
        JustifyContent::SpaceBetween => Json::Str(chars_of("SpaceBetween")),
        JustifyContent::SpaceAround => Json::Str(chars_of("SpaceAround")),
        JustifyContent::SpaceEvenly => Json::Str(chars_of("SpaceEvenly")),
    }
}


fn justify_content_from(j: &Json) -> (r: Option<JustifyContent>)
    ensures
        r == justify_content_of_json(j@),
{
    match j {
        Json::Str(s) => {
            if chars_eq_str(s, "FlexStart") {
                Some(JustifyContent::FlexStart)
            } else if chars_eq_str(s, "FlexEnd") {
                Some(JustifyContent::FlexEnd)
            } else if chars_eq_str(s, "Center") {
                Some(JustifyContent::Center)
            } else if chars_eq_str(s, "SpaceBetween") {
                Some(JustifyContent::SpaceBetween)
            } else if chars_eq_str(s, "SpaceAround") {
                Some(JustifyContent::SpaceAround)
            } else if chars_eq_str(s, "SpaceEvenly") {
                Some(JustifyContent::SpaceEvenly)
            } else {
                None
            }
        },
        _ => None,
    }
}


fn u32_json(n: u32) -> (j: Json)
    ensures
        j@ == u32_to_json(n),
{
    Json::UInt(n as u64)
}

fn u32_from(j: &Json) -> (r: Option<u32>)
    ensures
        r == u32_of_json(j@),
{
    match j {
        Json::UInt(n) => if *n <= u32::MAX as u64 {
            Some(*n as u32)
        } else {
            None
        },
        _ => None,
    }
}

fn color_json(c: ColorDef) -> (j: Json)
    ensures
        j@ == color_to_json(c),
{
    match c {
        ColorDef::Rgba32(n) => {
            let mut ms: Vec<(Vec<char>, Json)> = Vec::new();
            ms.push((chars_of("Rgba32"), Json::UInt(n as u64)));
            proof {
                lemma_members_view_all(ms@);
                assert(members_view(ms@) =~= seq![("Rgba32"@, JsonV::UInt(n as u64))]);
            }
            Json::Obj(ms)
        },
    }
}

fn color_from(j: &Json) -> (r: Option<ColorDef>)
    ensures
        r == color_of_json(j@),
{
    match j {
        Json::Obj(ms) => {
            proof {
                lemma_members_view_all(ms@);
            }
            if ms.len() == 1 && chars_eq_str(&ms[0].0, "Rgba32") {
                match &ms[0].1 {
                    Json::UInt(n) => if *n <= u32::MAX as u64 {
                        Some(ColorDef::Rgba32(*n as u32))
                    } else {
                        None
                    },
                    _ => None,
                }
            } else {
                None
            }
        },
        _ => None,
    }
}

fn dim_json(d: Dimension) -> (j: Json)
    ensures
        j@ == dim_to_json(d),
{
    match d {
        Dimension::Undefined => Json::Str(chars_of("undefined")),
        Dimension::Auto => Json::Str(chars_of("auto")),
        Dimension::Points(n) => {
            let mut ms: Vec<(Vec<char>, Json)> = Vec::new();
            ms.push((chars_of("points"), u32_json(n)));
            proof {
                lemma_members_view_all(ms@);
                assert(members_view(ms@) =~= seq![("points"@, u32_to_json(n))]);
            }
            Json::Obj(ms)
        },
        Dimension::Percent(n) => {
            let mut ms: Vec<(Vec<char>, Json)> = Vec::new();
            ms.push((chars_of("percent"), u32_json(n)));
            proof {
                lemma_members_view_all(ms@);
                assert(members_view(ms@) =~= seq![("percent"@, u32_to_json(n))]);
            }
            Json::Obj(ms)
        },
    }
}

fn dim_from(j: &Json) -> (r: Option<Dimension>)
    ensures
        r == dim_of_json(j@),
{
    match j {
        Json::Str(s) => {
            if chars_eq_str(s, "undefined") {
                Some(Dimension::Undefined)
            } else if chars_eq_str(s, "auto") {
                Some(Dimension::Auto)
            } else {
                None
            }
        },
        Json::Obj(ms) => {
            proof {
                lemma_members_view_all(ms@);
            }
            if ms.len() == 1 && chars_eq_str(&ms[0].0, "points") {
                match u32_from(&ms[0].1) {
                    Some(n) => Some(Dimension::Points(n)),
                    None => None,
                }
            } else if ms.len() == 1 && chars_eq_str(&ms[0].0, "percent") {
                match u32_from(&ms[0].1) {
                    Some(n) => Some(Dimension::Percent(n)),
                    None => None,
                }
            } else {
                None
            }
        },
        _ => None,
    }
}

fn dimsize_json(z: DimSize) -> (j: Json)
    ensures
        j@ == dimsize_to_json(z),
{
    let mut ms: Vec<(Vec<char>, Json)> = Vec::new();
    ms.push((chars_of("width"), dim_json(z.width)));
    ms.push((chars_of("height"), dim_json(z.height)));
    proof {
        lemma_members_view_all(ms@);
        assert(members_view(ms@) =~= seq![
            ("width"@, dim_to_json(z.width)),
            ("height"@, dim_to_json(z.height)),
        ]);
    }
    Json::Obj(ms)
}

fn dimsize_from(j: &Json) -> (r: Option<DimSize>)
    ensures
        r == dimsize_of_json(j@),
{
    match j {
        Json::Obj(ms) => {
            proof {
                lemma_members_view_all(ms@);
            }
            if ms.len() == 2 && chars_eq_str(&ms[0].0, "width") && chars_eq_str(&ms[1].0, "height")
            {
                match (dim_from(&ms[0].1), dim_from(&ms[1].1)) {
                    (Some(w), Some(h)) => Some(DimSize { width: w, height: h }),
                    _ => None,
                }
            } else {
                None
            }
        },
        _ => None,
    }
}

fn dimrect_json(r: DimRect) -> (j: Json)
    ensures
        j@ == dimrect_to_json(r),
{
    let mut ms: Vec<(Vec<char>, Json)> = Vec::new();
    ms.push((chars_of("start"), dim_json(r.start)));
    ms.push((chars_of("end"), dim_json(r.end)));
    ms.push((chars_of("top"), dim_json(r.top)));
    ms.push((chars_of("bottom"), dim_json(r.bottom)));
    proof {
        lemma_members_view_all(ms@);
        assert(members_view(ms@) =~= seq![
            ("start"@, dim_to_json(r.start)),
            ("end"@, dim_to_json(r.end)),
            ("top"@, dim_to_json(r.top)),
            ("bottom"@, dim_to_json(r.bottom)),
        ]);
    }
    Json::Obj(ms)
}

fn dimrect_from(j: &Json) -> (r: Option<DimRect>)
    ensures
        r == dimrect_of_json(j@),
{
    match j {
        Json::Obj(ms) => {
            proof {
                lemma_members_view_all(ms@);
            }
            if ms.len() == 4 && chars_eq_str(&ms[0].0, "start") && chars_eq_str(&ms[1].0, "end")
                && chars_eq_str(&ms[2].0, "top") && chars_eq_str(&ms[3].0, "bottom") {
                match (dim_from(&ms[0].1), dim_from(&ms[1].1), dim_from(&ms[2].1), dim_from(
                    &ms[3].1,
                )) {
                    (Some(s), Some(e), Some(tp), Some(b)) => Some(
                        DimRect { start: s, end: e, top: tp, bottom: b },
                    ),
                    _ => None,
                }
            } else {
                None
            }
        },
        _ => None,
    }
}


/// The optional member written for style property `k`, when present.
fn style_member(s: &Style, k: usize) -> (r: Option<(Vec<char>, Json)>)
    requires
        k < 21,
    ensures
        match r {
            Some(kv) => get_field(*s, k as int) == Some(json_view(kv.1)) && kv.0@ == field_name(
                k as int,
            ),
            None => get_field(*s, k as int) is None,
        },
{
    if k == 0 {
        match s.display {
            Some(v) => Some((chars_of("display"), display_json(v))),
            None => None,
        }
    }
    else if k == 1 {
        match s.position_type {
            Some(v) => Some((chars_of("position_type"), position_type_json(v))),
            None => None,
        }
    }
    else if k == 2 {
        match s.direction {
            Some(v) => Some((chars_of("direction"), direction_json(v))),
            None => None,
        }
    }
    else if k == 3 {
        match s.flex_direction {
            Some(v) => Some((chars_of("flex_direction"), flex_direction_json(v))),
            None => None,
        }
    }
    else if k == 4 {
        match s.flex_wrap {
            Some(v) => Some((chars_of("flex_wrap"), flex_wrap_json(v))),
            None => None,
        }
    }
    else if k == 5 {
        match s.overflow {
            Some(v) => Some((chars_of("overflow"), overflow_json(v))),
            None => None,
        }
    }
    else if k == 6 {
        match s.align_items {
            Some(v) => Some((chars_of("align_items"), align_items_json(v))),
            None => None,
        }
    }
    else if k == 7 {
        match s.align_self {
            Some(v) => Some((chars_of("align_self"), align_self_json(v))),
            None => None,
        }
    }
    else if k == 8 {
        match s.align_content {
            Some(v) => Some((chars_of("align_content"), align_content_json(v))),
            None => None,
        }
    }
    else if k == 9 {
        match s.justify_content {
            Some(v) => Some((chars_of("justify_content"), justify_content_json(v))),
            None => None,
        }
    }
    else if k == 10 {
        match s.position {
            Some(v) => Some((chars_of("position"), dimrect_json(v))),
            None => None,
        }
    }
    else if k == 11 {
        match s.margin {
            Some(v) => Some((chars_of("margin"), dimrect_json(v))),
            None => None,
        }
    }
    else if k == 12 {
        match s.padding {
            Some(v) => Some((chars_of("padding"), dimrect_json(v))),
            None => None,
        }
    }
    else if k == 13 {
        match s.border {
            Some(v) => Some((chars_of("border"), dimrect_json(v))),
            None => None,
        }
    }
    else if k == 14 {
        match s.flex_grow {
            Some(v) => Some((chars_of("flex_grow"), u32_json(v))),
            None => None,
        }
    }
    else if k == 15 {
        match s.flex_shrink {
            Some(v) => Some((chars_of("flex_shrink"), u32_json(v))),
            None => None,
        }
    }
    else if k == 16 {
        match s.flex_basis {
            Some(v) => Some((chars_of("flex_basis"), dim_json(v))),
            None => None,
        }
    }
    else if k == 17 {
        match s.size {
            Some(v) => Some((chars_of("size"), dimsize_json(v))),
            None => None,
        }
    }
    else if k == 18 {
        match s.min_size {
            Some(v) => Some((chars_of("min_size"), dimsize_json(v))),
            None => None,
        }
    }
    else if k == 19 {
        match s.max_size {
            Some(v) => Some((chars_of("max_size"), dimsize_json(v))),
            None => None,
        }
    }
    else if k == 20 {
        match s.aspect_ratio {
            Some(v) => Some((chars_of("aspect_ratio"), u32_json(v))),
            None => None,
        }
    }
    else {
        None
    }
}

/// The members for the style properties from `k` on.
fn style_members(s: &Style, k: usize) -> (ms: Vec<(Vec<char>, Json)>)
    requires
        k <= 21,
    ensures
        members_view(ms@) == members_from(*s, k as int),
    decreases 21 - k,
{
    if k >= 21 {
        let r: Vec<(Vec<char>, Json)> = Vec::new();
        proof {
            assert(members_view(r@) =~= members_from(*s, k as int));
        }
        r
    } else {
        let opt = style_member(s, k);
        let mut rest = style_members(s, k + 1);
        match opt {
            Some(kv) => {
                let ghost kvg = kv;
                let ghost old_rest = rest@;
                rest.insert(0, kv);
                proof {
                    assert(rest@ =~= seq![kvg] + old_rest);
                    lemma_members_view_cons(kvg, old_rest);
                    assert(members_view(rest@) =~= members_from(*s, k as int));
                }
                rest
            },
            None => rest,
        }
    }
}

/// Whether member `idx` carries the name of style property `k`.
fn style_key_matches(ms: &Vec<(Vec<char>, Json)>, idx: usize, k: usize) -> (r: bool)
    requires
        idx < ms.len(),
        k < 21,
    ensures
        r == (ms@[idx as int].0@ == field_name(k as int)),
{
    if k == 0 {
        chars_eq_str(&ms[idx].0, "display")
    }
    else if k == 1 {
        chars_eq_str(&ms[idx].0, "position_type")
    }
    else if k == 2 {
        chars_eq_str(&ms[idx].0, "direction")
    }
    else if k == 3 {
        chars_eq_str(&ms[idx].0, "flex_direction")
    }
    else if k == 4 {
        chars_eq_str(&ms[idx].0, "flex_wrap")
    }
    else if k == 5 {
        chars_eq_str(&ms[idx].0, "overflow")
    }
    else if k == 6 {
        chars_eq_str(&ms[idx].0, "align_items")
    }
    else if k == 7 {
        chars_eq_str(&ms[idx].0, "align_self")
    }
    else if k == 8 {
        chars_eq_str(&ms[idx].0, "align_content")
    }
    else if k == 9 {
        chars_eq_str(&ms[idx].0, "justify_content")
    }
    else if k == 10 {
        chars_eq_str(&ms[idx].0, "position")
    }
    else if k == 11 {
        chars_eq_str(&ms[idx].0, "margin")
    }
    else if k == 12 {
        chars_eq_str(&ms[idx].0, "padding")
    }
    else if k == 13 {
        chars_eq_str(&ms[idx].0, "border")
    }
    else if k == 14 {
        chars_eq_str(&ms[idx].0, "flex_grow")
    }
    else if k == 15 {
        chars_eq_str(&ms[idx].0, "flex_shrink")
    }
    else if k == 16 {
        chars_eq_str(&ms[idx].0, "flex_basis")
    }
    else if k == 17 {
        chars_eq_str(&ms[idx].0, "size")
    }
    else if k == 18 {
        chars_eq_str(&ms[idx].0, "min_size")
    }
    else if k == 19 {
        chars_eq_str(&ms[idx].0, "max_size")
    }
    else if k == 20 {
        chars_eq_str(&ms[idx].0, "aspect_ratio")
    }
    else {
        false
    }
}

/// `acc` with style property `k` set from member `idx`, when its value
/// parses.
fn style_set_field(ms: &Vec<(Vec<char>, Json)>, idx: usize, k: usize, acc: Style) -> (r: Option<
    Style,
>)
    requires
        idx < ms.len(),
        k < 21,
    ensures
        r == set_field(acc, k as int, json_view(ms@[idx as int].1)),
{
    if k == 0 {
        match display_from(&ms[idx].1) {
            Some(v) => Some(Style { display: Some(v), ..acc }),
            None => None,
        }
    }
    else if k == 1 {
        match position_type_from(&ms[idx].1) {
            Some(v) => Some(Style { position_type: Some(v), ..acc }),
            None => None,
        }
    }
    else if k == 2 {
        match direction_from(&ms[idx].1) {
            Some(v) => Some(Style { direction: Some(v), ..acc }),
            None => None,
        }
    }
    else if k == 3 {
        match flex_direction_from(&ms[idx].1) {
            Some(v) => Some(Style { flex_direction: Some(v), ..acc }),
            None => None,
        }
    }
    else if k == 4 {
        match flex_wrap_from(&ms[idx].1) {
            Some(v) => Some(Style { flex_wrap: Some(v), ..acc }),
            None => None,
        }
    }
    else if k == 5 {
        match overflow_from(&ms[idx].1) {
            Some(v) => Some(Style { overflow: Some(v), ..acc }),
            None => None,
        }
    }
    else if k == 6 {
        match align_items_from(&ms[idx].1) {
            Some(v) => Some(Style { align_items: Some(v), ..acc }),
            None => None,
        }
    }
    else if k == 7 {
        match align_self_from(&ms[idx].1) {
            Some(v) => Some(Style { align_self: Some(v), ..acc }),
            None => None,
        }
    }
    else if k == 8 {
        match align_content_from(&ms[idx].1) {
            Some(v) => Some(Style { align_content: Some(v), ..acc }),
            None => None,
        }
    }
    else if k == 9 {
        match justify_content_from(&ms[idx].1) {
            Some(v) => Some(Style { justify_content: Some(v), ..acc }),
            None => None,
        }
    }
    else if k == 10 {
        match dimrect_from(&ms[idx].1) {
            Some(v) => Some(Style { position: Some(v), ..acc }),
            None => None,
        }
    }
    else if k == 11 {
        match dimrect_from(&ms[idx].1) {
            Some(v) => Some(Style { margin: Some(v), ..acc }),
            None => None,
        }
    }
    else if k == 12 {
        match dimrect_from(&ms[idx].1) {
            Some(v) => Some(Style { padding: Some(v), ..acc }),
            None => None,
        }
    }
    else if k == 13 {
        match dimrect_from(&ms[idx].1) {
            Some(v) => Some(Style { border: Some(v), ..acc }),
            None => None,
        }
    }
    else if k == 14 {
        match u32_from(&ms[idx].1) {
            Some(v) => Some(Style { flex_grow: Some(v), ..acc }),
            None => None,
        }
    }
    else if k == 15 {
        match u32_from(&ms[idx].1) {
            Some(v) => Some(Style { flex_shrink: Some(v), ..acc }),
            None => None,
        }
    }
    else if k == 16 {
        match dim_from(&ms[idx].1) {
            Some(v) => Some(Style { flex_basis: Some(v), ..acc }),
            None => None,
        }
    }
    else if k == 17 {
        match dimsize_from(&ms[idx].1) {
            Some(v) => Some(Style { size: Some(v), ..acc }),
            None => None,
        }
    }
    else if k == 18 {
        match dimsize_from(&ms[idx].1) {
            Some(v) => Some(Style { min_size: Some(v), ..acc }),
            None => None,
        }
    }
    else if k == 19 {
        match dimsize_from(&ms[idx].1) {
            Some(v) => Some(Style { max_size: Some(v), ..acc }),
            None => None,
        }
    }
    else if k == 20 {
        match u32_from(&ms[idx].1) {
            Some(v) => Some(Style { aspect_ratio: Some(v), ..acc }),
            None => None,
        }
    }
    else {
        None
    }
}

/// Read members from `idx` on into `acc`, walking the field table from `k`.
fn style_read(ms: &Vec<(Vec<char>, Json)>, idx: usize, k: usize, acc: Style) -> (r: Option<Style>)
    requires
        idx <= ms.len(),
        k <= 21,
    ensures
        r == style_from(members_view(ms@.skip(idx as int)), k as int, acc),
    decreases ms.len() - idx, 21 - k,
{
    proof {
        if idx < ms@.len() {
            lemma_members_view_step(ms@, idx as int);
        } else {
            assert(ms@.skip(idx as int) =~= Seq::<(Vec<char>, Json)>::empty());
            assert(members_view(ms@.skip(idx as int)) =~= Seq::<(Seq<char>, JsonV)>::empty());
        }
    }
    if idx == ms.len() {
        Some(acc)
    } else if k >= 21 {
        None
    } else if style_key_matches(ms, idx, k) {
        proof {
            assert(members_view(ms@.skip(idx as int))[0] == (
                ms@[idx as int].0@,
                json_view(ms@[idx as int].1),
            ));
            assert(members_view(ms@.skip(idx as int)).drop_first() =~= members_view(
                ms@.skip(idx as int + 1),
            ));
        }
        match style_set_field(ms, idx, k, acc) {
            Some(acc2) => style_read(ms, idx + 1, k + 1, acc2),
            None => None,
        }
    } else {
        style_read(ms, idx, k + 1, acc)
    }
}

/// The encoded form of a style.
fn style_json(s: &Style) -> (j: Json)
    ensures
        j@ == style_to_json(*s),
{
    Json::Obj(style_members(s, 0))
}

/// Read a style back from its encoding.
fn style_from_json(j: &Json) -> (r: Option<Style>)
    ensures
        r == style_of_json(j@),
{
    match j {
        Json::Obj(ms) => {
            proof {
                assert(ms@.skip(0) =~= ms@);
            }
            style_read(ms, 0, 0, Style::default())
        },
        _ => None,
    }
}


/// The encodings of the nodes from `k` on.
fn forest_json(os: &Vec<Object>, k: usize) -> (r: Vec<Json>)
    requires
        k <= os.len(),
    ensures
        elems_view(r@) == forest_to_json(forest_view(os@.skip(k as int))),
    decreases *os, os@.len() - k,
{
    if k == os.len() {
        let r: Vec<Json> = Vec::new();
        proof {
            assert(os@.skip(k as int) =~= Seq::<Object>::empty());
            assert(forest_view(os@.skip(k as int)) =~= Seq::<ObjectV>::empty());
            assert(elems_view(r@) =~= forest_to_json(forest_view(os@.skip(k as int))));
        }
        r
    } else {
        let head = obj_json(&os[k]);
        let ghost headg = head;
        let mut rest = forest_json(os, k + 1);
        let ghost old_rest = rest@;
        rest.insert(0, head);
        proof {
            let sk = os@.skip(k as int);
            assert(sk[0] == os@[k as int]);
            assert(sk.drop_first() =~= os@.skip(k as int + 1));
            assert(forest_view(sk) == seq![obj_view(os@[k as int])] + forest_view(
                os@.skip(k as int + 1),
            ));
            assert(rest@ =~= seq![headg] + old_rest);
            lemma_elems_view_cons(headg, old_rest);
            let fv = forest_view(sk);
            assert(fv[0] == obj_view(os@[k as int]));
            assert(fv.drop_first() =~= forest_view(os@.skip(k as int + 1)));
            assert(forest_to_json(fv) == seq![obj_to_json(fv[0])] + forest_to_json(
                fv.drop_first(),
            ));
            assert(elems_view(rest@) =~= forest_to_json(fv));
        }
        rest
    }
}

/// The encoding of one scene node.
fn obj_json(o: &Object) -> (j: Json)
    ensures
        j@ == obj_to_json(o@),
    decreases *o, 0int,
{
    match o {
        Object::Container { children, style, background, corner_radius } => {
            let elems = forest_json(children, 0);
            let mut ms: Vec<(Vec<char>, Json)> = Vec::new();
            ms.push((chars_of("type"), Json::Str(chars_of("Container"))));
            ms.push((chars_of("children"), Json::Arr(elems)));
            ms.push((chars_of("style"), style_json(style)));
            match background {
                Some(c) => {
                    ms.push((chars_of("background"), color_json(*c)));
                },
                None => {},
            }
            match corner_radius {
                Some(r) => {
                    ms.push((chars_of("corner_radius"), u32_json(*r)));
                },
                None => {},
            }
            proof {
                assert(children@.skip(0) =~= children@);
                lemma_members_view_all(ms@);
                assert(members_view(ms@) =~= seq![
                    ("type"@, JsonV::Str("Container"@)),
                    ("children"@, JsonV::Arr(forest_to_json(forest_view(children@)))),
                    ("style"@, style_to_json(*style)),
                ] + container_tail(*background, *corner_radius));
            }
            Json::Obj(ms)
        },
        Object::Text { font, text, font_size, color, style } => {
            let mut ms: Vec<(Vec<char>, Json)> = Vec::new();
            ms.push((chars_of("type"), Json::Str(chars_of("Text"))));
            ms.push((chars_of("font"), Json::Str(chars_of(font.as_str()))));
            ms.push((chars_of("text"), Json::Str(chars_of(text.as_str()))));
            ms.push((chars_of("font_size"), u32_json(*font_size)));
            ms.push((chars_of("color"), color_json(*color)));
            ms.push((chars_of("style"), style_json(style)));
            proof {
                lemma_members_view_all(ms@);
                assert(members_view(ms@) =~= seq![
                    ("type"@, JsonV::Str("Text"@)),
                    ("font"@, JsonV::Str(font@)),
                    ("text"@, JsonV::Str(text@)),
                    ("font_size"@, u32_to_json(*font_size)),
                    ("color"@, color_to_json(*color)),
                    ("style"@, style_to_json(*style)),
                ]);
            }
            Json::Obj(ms)
        },
        Object::Image { style, path } => {
            let mut ms: Vec<(Vec<char>, Json)> = Vec::new();
            ms.push((chars_of("type"), Json::Str(chars_of("Image"))));
            ms.push((chars_of("style"), style_json(style)));
            ms.push((chars_of("path"), Json::Str(chars_of(path.as_str()))));
            proof {
                lemma_members_view_all(ms@);
                assert(members_view(ms@) =~= seq![
                    ("type"@, JsonV::Str("Image"@)),
                    ("style"@, style_to_json(*style)),
                    ("path"@, JsonV::Str(path@)),
                ]);
            }
            Json::Obj(ms)
        },
    }
}

/// Read the optional trailing members of a container, standing at index 3.
fn container_tail_read(ms: &Vec<(Vec<char>, Json)>) -> (r: Option<(Option<ColorDef>, Option<u32>)>)
    requires
        ms@.len() >= 3,
    ensures
        r == container_tail_of(members_view(ms@.skip(3))),
{
    proof {
        lemma_members_view_all(ms@.skip(3));
    }
    if ms.len() == 3 {
        proof {
            assert(ms@.skip(3) =~= Seq::<(Vec<char>, Json)>::empty());
        }
        Some((None, None))
    } else if chars_eq_str(&ms[3].0, "background") {
        match color_from(&ms[3].1) {
            Some(c) => {
                if ms.len() == 4 {
                    Some((Some(c), None))
                } else if ms.len() == 5 && chars_eq_str(&ms[4].0, "corner_radius") {
                    match u32_from(&ms[4].1) {
                        Some(r) => Some((Some(c), Some(r))),
                        None => None,
                    }
                } else {
                    None
                }
            },
            None => None,
        }
    } else if ms.len() == 4 && chars_eq_str(&ms[3].0, "corner_radius") {
        match u32_from(&ms[3].1) {
            Some(r) => Some((None, Some(r))),
            None => None,
        }
    } else {
        None
    }
}

/// Read one scene node back from its encoding.
fn obj_from(j: &Json) -> (r: Option<Object>)
    ensures
        match r {
            Some(o) => obj_of_json(j@) == Some(o@),
            None => obj_of_json(j@) is None,
        },
    decreases *j, 1int,
{
    match j {
        Json::Obj(ms) => {
            proof {
                lemma_members_view_all(ms@);
            }
            if ms.len() >= 3 && chars_eq_str(&ms[0].0, "type") {
                match &ms[0].1 {
                    Json::Str(tag) => {
                        if chars_eq_str(tag, "Container") {
                            if chars_eq_str(&ms[1].0, "children") && chars_eq_str(
                                &ms[2].0,
                                "style",
                            ) {
                                match &ms[1].1 {
                                    Json::Arr(elems) => {
                                        let children = forest_from(elems, 0);
                                        let style = style_from_json(&ms[2].1);
                                        let tail = container_tail_read(ms);
                                        proof {
                                            assert(elems@.skip(0) =~= elems@);
                                            lemma_members_view_all(ms@.skip(3));
                                            assert(members_view(ms@).skip(3) =~= members_view(
                                                ms@.skip(3),
                                            )) by {
                                                lemma_members_view_all(ms@);
                                                lemma_members_view_all(ms@.skip(3));
                                                assert forall|i: int|
                                                    0 <= i < ms@.len() - 3 implies members_view(
                                                    ms@,
                                                ).skip(3)[i] == members_view(ms@.skip(3))[i] by {
                                                    assert(ms@.skip(3)[i] == ms@[i + 3]);
                                                }
                                            }
                                        }
                                        match (children, style, tail) {
                                            (Some(children), Some(style), Some(tail2)) => {
                                                let (bg, cr) = tail2;
                                                Some(
                                                    Object::Container {
                                                        children,
                                                        style,
                                                        background: bg,
                                                        corner_radius: cr,
                                                    },
                                                )
                                            },
                                            _ => None,
                                        }
                                    },
                                    _ => None,
                                }
                            } else {
                                None
                            }
                        } else if chars_eq_str(tag, "Text") {
                            if ms.len() == 6 && chars_eq_str(&ms[1].0, "font") && chars_eq_str(
                                &ms[2].0,
                                "text",
                            ) && chars_eq_str(&ms[3].0, "font_size") && chars_eq_str(
                                &ms[4].0,
                                "color",
                            ) && chars_eq_str(&ms[5].0, "style") {
                                match (&ms[1].1, &ms[2].1) {
                                    (Json::Str(font), Json::Str(text)) => {
                                        match (
                                            u32_from(&ms[3].1),
                                            color_from(&ms[4].1),
                                            style_from_json(&ms[5].1),
                                        ) {
                                            (Some(font_size), Some(color), Some(style)) => Some(
                                                Object::Text {
                                                    font: string_of_chars(font),
                                                    text: string_of_chars(text),
                                                    font_size,
                                                    color,
                                                    style,
                                                },
                                            ),
                                            _ => None,
                                        }
                                    },
                                    _ => None,
                                }
                            } else {
                                None
                            }
                        } else if chars_eq_str(tag, "Image") {
                            if ms.len() == 3 && chars_eq_str(&ms[1].0, "style") && chars_eq_str(
                                &ms[2].0,
                                "path",
                            ) {
                                match &ms[2].1 {
                                    Json::Str(path) => match style_from_json(&ms[1].1) {
                                        Some(style) => Some(
                                            Object::Image { style, path: string_of_chars(path) },
                                        ),
                                        _ => None,
                                    },
                                    _ => None,
                                }
                            } else {
                                None
                            }
                        } else {
                            None
                        }
                    },
                    _ => None,
                }
            } else {
                None
            }
        },
        _ => None,
    }
}

/// Read the nodes from `k` on back from their encodings.
fn forest_from(es: &Vec<Json>, k: usize) -> (r: Option<Vec<Object>>)
    requires
        k <= es.len(),
    ensures
        match r {
            Some(os) => forest_of_json(elems_view(es@.skip(k as int))) == Some(forest_view(os@)),
            None => forest_of_json(elems_view(es@.skip(k as int))) is None,
        },
    decreases *es, es@.len() - k,
{
    if k == es.len() {
        let r: Vec<Object> = Vec::new();
        proof {
            assert(es@.skip(k as int) =~= Seq::<Json>::empty());
            assert(elems_view(es@.skip(k as int)) =~= Seq::<JsonV>::empty());
            assert(forest_view(r@) =~= Seq::<ObjectV>::empty());
        }
        Some(r)
    } else {
        proof {
            lemma_elems_view_step(es@, k as int);
            let ev = elems_view(es@.skip(k as int));
            assert(ev[0] == json_view(es@[k as int]));
            assert(ev.drop_first() =~= elems_view(es@.skip(k as int + 1)));
        }
        match obj_from(&es[k]) {
            Some(o) => {
                let ghost og = o;
                match forest_from(es, k + 1) {
                    Some(mut rest) => {
                        let ghost old_rest = rest@;
                        rest.insert(0, o);
                        proof {
                            assert(rest@ =~= seq![og] + old_rest);
                            assert(forest_view(rest@)[0] == obj_view(og));
                            lemma_forest_view_len(rest@);
                            lemma_forest_view_len(old_rest);
                            assert(forest_view(rest@).drop_first() =~= forest_view(old_rest)) by {
                                lemma_forest_view_len(rest@);
                                assert forall|i: int|
                                    0 <= i < old_rest.len() implies forest_view(
                                    rest@,
                                ).drop_first()[i] == forest_view(old_rest)[i] by {
                                    lemma_forest_view_index(rest@, i + 1);
                                    lemma_forest_view_index(old_rest, i);
                                    assert(rest@[i + 1] == old_rest[i]);
                                }
                            }
                            assert(forest_view(rest@) =~= seq![obj_view(og)] + forest_view(
                                old_rest,
                            ));
                        }
                        Some(rest)
                    },
                    None => None,
                }
            },
            None => None,
        }
    }
}

// ---------------------------------------------------------------------------
// The public wire API
// ---------------------------------------------------------------------------

/// One snapshot line for a forest: the canonical text of its nodes.
pub fn serialize(objs: &Vec<Object>) -> (out: String)
    ensures
        out@ == spec_serialize(forest_view(objs@)),
{
    let elems = forest_json(objs, 0);
    proof {
        assert(objs@.skip(0) =~= objs@);
    }
    let j = Json::Arr(elems);
    let cs = j.to_text();
    string_of_chars(&cs)
}

/// Parse one snapshot line back into a forest.
///
/// Returns `Ok` exactly on the lines that encode a forest, and the parse
/// error on every other line.
pub fn deserialize(line: &str) -> (r: Result<Vec<Object>, InputParseError>)
    ensures
        match r {
            Ok(objs) => spec_deserialize(line@) == Some(forest_view(objs@)),
            Err(_) => spec_deserialize(line@) is None,
        },
{
    let cs = chars_of(line);
    match Json::parse_text(&cs) {
        Some(j) => match j {
            Json::Arr(elems) => {
                proof {
                    assert(elems@.skip(0) =~= elems@);
                }
                match forest_from(&elems, 0) {
                    Some(objs) => Ok(objs),
                    None => Err(InputParseError),
                }
            },
            _ => Err(InputParseError),
        },
        None => Err(InputParseError),
    }
}

/// Parse the text of one scene node.
///
/// Returns `Ok` exactly on the texts that encode one node.
pub fn parse_object(input: &str) -> (r: Result<Object, InputParseError>)
    ensures
        match r {
            Ok(o) => spec_parse_object(input@) == Some(o@),
            Err(_) => spec_parse_object(input@) is None,
        },
{
    let cs = chars_of(input);
    match Json::parse_text(&cs) {
        Some(j) => match obj_from(&j) {
            Some(o) => Ok(o),
            None => Err(InputParseError),
        },
        None => Err(InputParseError),
    }
}


/// Nothing is written for the properties from `k` on when all are absent.
proof fn lemma_members_from_clear(s: Style, k: int)
    requires
        clear_from(s, k),
    ensures
        members_from(s, k).len() == 0,
    decreases field_count() - k,
{
    if 0 <= k < field_count() {
        lemma_members_from_clear(s, k + 1);
    }
}

/// Serialization omits absent style properties: the style with every
/// property absent is written as an object with no members at all, never
/// as zero defaults.
pub proof fn lemma_absent_fields_omitted()
    ensures
        style_to_json(empty_style()) == JsonV::Obj(Seq::<(Seq<char>, JsonV)>::empty()),
{
    lemma_empty_clear(0);
    lemma_members_from_clear(empty_style(), 0);
    assert(members_from(empty_style(), 0) =~= Seq::<(Seq<char>, JsonV)>::empty());
}

} // verus!
