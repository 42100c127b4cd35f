//! The scene node: one element of the declarative UI tree.
//!
//! A scene node is a container, a piece of text, or an image. Containers
//! carry an ordered sequence of children; the order is paint order (first
//! child bottom-most). A node's style alone decides its participation in
//! layout; text and image content only contributes an intrinsic size at
//! measurement time.

use vstd::prelude::*;

use crate::error::DrawError;
use crate::style::Style;

verus! {

/// A color as a packed 0xRRGGBBAA value.
#[derive(Clone, Copy, Debug, PartialEq, Eq, Structural)]
pub enum ColorDef {
    Rgba32(u32),
}

/// One element of the scene tree.
#[derive(Debug, PartialEq, Eq)]
pub enum Object {
    Container {
        children: Vec<Object>,
        style: Style,
        background: Option<ColorDef>,
        corner_radius: Option<u32>,
    },
    Text {
        font: String,
        text: String,
        font_size: u32,
        color: ColorDef,
        style: Style,
    },
    Image {
        style: Style,
        path: String,
    },
}

/// The mathematical model of a scene node: strings become character
/// sequences and child vectors become sequences.
pub enum ObjectV {
    Container {
        children: Seq<ObjectV>,
        style: Style,
        background: Option<ColorDef>,
        corner_radius: Option<u32>,
    },
    Text {
        font: Seq<char>,
        text: Seq<char>,
        font_size: u32,
        color: ColorDef,
        style: Style,
    },
    Image {
        style: Style,
        path: Seq<char>,
    },
}

/// The model of one scene node.
pub open spec fn obj_view(o: Object) -> ObjectV
    decreases o,
{
    match o {
        Object::Container { children, style, background, corner_radius } => ObjectV::Container {
            children: forest_view(children@),
            style,
            background,
            corner_radius,
        },
        Object::Text { font, text, font_size, color, style } => ObjectV::Text {
            font: font@,
            text: text@,
            font_size,
            color,
            style,
        },
        Object::Image { style, path } => ObjectV::Image { style, path: path@ },
    }
}

/// The model of an ordered forest of scene nodes.
pub open spec fn forest_view(s: Seq<Object>) -> Seq<ObjectV>
    decreases s,
{
    if s.len() == 0 {
        Seq::empty()
    } else {
        seq![obj_view(s[0])] + forest_view(s.drop_first())
    }
}

impl View for Object {
    type V = ObjectV;

    open spec fn view(&self) -> ObjectV {
        obj_view(*self)
    }
}

/// `forest_view` read at one index.
pub proof fn lemma_forest_view_index(s: Seq<Object>, i: int)
    requires
        0 <= i < s.len(),
    ensures
        forest_view(s).len() == s.len(),
        forest_view(s)[i] == obj_view(s[i]),
    decreases s,
{
    lemma_forest_view_len(s);
    if i > 0 {
        lemma_forest_view_index(s.drop_first(), i - 1);
    }
}

/// `forest_view` keeps the length.
pub proof fn lemma_forest_view_len(s: Seq<Object>)
    ensures
        forest_view(s).len() == s.len(),
    decreases s,
{
    if s.len() > 0 {
        lemma_forest_view_len(s.drop_first());
    }
}

impl Object {
    /// The style this node hands to the layout solver.
    pub fn get_style(&self) -> (s: Style)
        ensures
            s == self@.style(),
    {
        match self {
            Object::Container { style, .. } => *style,
            Object::Text { style, .. } => *style,
            Object::Image { style, .. } => *style,
        }
    }

    /// The background fill of this node, if it declares one.
    ///
    /// Only containers carry a background; text and images never do.
    pub fn get_background(&self) -> (b: Option<&ColorDef>)
        ensures
            b is Some <==> self@.background() is Some,
            b is Some ==> *b.unwrap() == self@.background().unwrap(),
    {
        match self {
            Object::Container { background, .. } => background.as_ref(),
            Object::Text { .. } => None,
            Object::Image { .. } => None,
        }
    }
}

impl ObjectV {
    /// The style of any node variant.
    pub open spec fn style(self) -> Style {
        match self {
            ObjectV::Container { style, .. } => style,
            ObjectV::Text { style, .. } => style,
            ObjectV::Image { style, .. } => style,
        }
    }

    /// The background fill: only containers have one.
    pub open spec fn background(self) -> Option<ColorDef> {
        match self {
            ObjectV::Container { background, .. } => background,
            ObjectV::Text { .. } => None,
            ObjectV::Image { .. } => None,
        }
    }
}

// ---------------------------------------------------------------------------
// Leaf measurement
// ---------------------------------------------------------------------------

/// One axis of the solver's available-size hint: unconstrained, or at most
/// the given number of pixels.
#[derive(Clone, Copy, Debug, PartialEq, Eq, Structural)]
pub enum AvailSize {
    Undefined,
    Defined(u32),
}

/// The solver's available-size hint for both axes.
#[derive(Clone, Copy, Debug, PartialEq, Eq, Structural)]
pub struct SizeHint {
    pub width: AvailSize,
    pub height: AvailSize,
}

/// A definite measured size in whole pixels.
#[derive(Clone, Copy, Debug, PartialEq, Eq, Structural)]
pub struct PxSize {
    pub width: u32,
    pub height: u32,
}

/// What a leaf node asks its measurement collaborator for.
#[derive(Debug, PartialEq, Eq)]
pub enum MeasureRequest {
    /// Shape this text in this font at this size and report its width.
    TextMetrics { font: String, text: String, font_size: u32 },
    /// Decode the image file and report its natural pixel dimensions.
    ImageDims { path: String },
}

/// The model of a measurement request.
pub enum MeasureRequestV {
    TextMetrics { font: Seq<char>, text: Seq<char>, font_size: u32 },
    ImageDims { path: Seq<char> },
}

impl View for MeasureRequest {
    type V = MeasureRequestV;

    open spec fn view(&self) -> MeasureRequestV {
        match self {
            MeasureRequest::TextMetrics { font, text, font_size } => MeasureRequestV::TextMetrics {
                font: font@,
                text: text@,
                font_size: *font_size,
            },
            MeasureRequest::ImageDims { path } => MeasureRequestV::ImageDims { path: path@ },
        }
    }
}

/// What the measurement collaborator handed back.
#[derive(Clone, Copy, Debug, PartialEq, Eq, Structural)]
pub enum Measured {
    /// The shaped width of the requested text.
    TextWidth(u32),
    /// The natural pixel dimensions of the requested image.
    ImageSize(u32, u32),
    /// The collaborator failed: metrics unavailable or the file did not
    /// decode.
    Failed,
}

/// A measured extent clamped to one axis of the hint: an at-most hint caps
/// it, an unconstrained hint leaves it.
pub open spec fn spec_clamp(v: u32, a: AvailSize) -> u32 {
    match a {
        AvailSize::Undefined => v,
        AvailSize::Defined(m) => if v <= m {
            v
        } else {
            m
        },
    }
}

/// What this node needs measured.
pub open spec fn spec_measure_request(o: ObjectV) -> Option<MeasureRequestV> {
    match o {
        ObjectV::Container { .. } => None,
        ObjectV::Text { font, text, font_size, .. } => Some(
            MeasureRequestV::TextMetrics { font, text, font_size },
        ),
        ObjectV::Image { path, .. } => Some(MeasureRequestV::ImageDims { path }),
    }
}

/// The measured size of a leaf, given the collaborator's answer and the
/// solver's hint.
///
/// Text is as wide as its shaping and as tall as its font size; an image
/// keeps its natural dimensions; both are clamped per axis to an at-most
/// hint. A container is no leaf (`UnsupportedNodeKind`), and a failed or
/// mismatched collaborator answer aborts the measurement
/// (`MeasurementError`).
pub open spec fn spec_compute_size(o: ObjectV, m: Measured, hint: SizeHint) -> Result<
    PxSize,
    DrawError,
> {
    match o {
        ObjectV::Container { .. } => Err(DrawError::UnsupportedNodeKind),
        ObjectV::Text { font_size, .. } => match m {
            Measured::TextWidth(w) => Ok(
                PxSize {
                    width: spec_clamp(w, hint.width),
                    height: spec_clamp(font_size, hint.height),
                },
            ),
            _ => Err(DrawError::MeasurementError),
        },
        ObjectV::Image { .. } => match m {
            Measured::ImageSize(w, h) => Ok(
                PxSize { width: spec_clamp(w, hint.width), height: spec_clamp(h, hint.height) },
            ),
            _ => Err(DrawError::MeasurementError),
        },
    }
}

/// A measured extent clamped to one axis of the hint.
pub fn clamp(v: u32, a: AvailSize) -> (r: u32)
    ensures
        r == spec_clamp(v, a),
{
    match a {
        AvailSize::Undefined => v,
        AvailSize::Defined(m) => if v <= m {
            v
        } else {
            m
        },
    }
}

impl Object {
    /// What this node needs measured: nothing for a container, text
    /// metrics for text, natural image dimensions for an image.
    pub fn measure_request(&self) -> (r: Option<MeasureRequest>)
        ensures
            match r {
                Some(q) => spec_measure_request(self@) == Some(q@),
                None => spec_measure_request(self@) is None,
            },
    {
        match self {
            Object::Container { .. } => None,
            Object::Text { font, text, font_size, .. } => Some(
                MeasureRequest::TextMetrics {
                    font: font.clone(),
                    text: text.clone(),
                    font_size: *font_size,
                },
            ),
            Object::Image { path, .. } => Some(MeasureRequest::ImageDims { path: path.clone() }),
        }
    }

    /// The measured size of this node under the solver's hint, given what
    /// the measurement collaborator handed back.
    pub fn compute_size(&self, m: &Measured, hint: SizeHint) -> (r: Result<PxSize, DrawError>)
        ensures
            r == spec_compute_size(self@, *m, hint),
    {
        match self {
            Object::Container { .. } => Err(DrawError::UnsupportedNodeKind),
            Object::Text { font_size, .. } => match m {
                Measured::TextWidth(w) => Ok(
                    PxSize {
                        width: clamp(*w, hint.width),
                        height: clamp(*font_size, hint.height),
                    },
                ),
                _ => Err(DrawError::MeasurementError),
            },
            Object::Image { .. } => match m {
                Measured::ImageSize(w, h) => Ok(
                    PxSize { width: clamp(*w, hint.width), height: clamp(*h, hint.height) },
                ),
                _ => Err(DrawError::MeasurementError),
            },
        }
    }
}


/// The measured size for one request, given the collaborator's answer and
/// the solver's hint: the same sizing rule as `Object::compute_size`,
/// keyed on the request alone.
pub open spec fn spec_measured_size(q: MeasureRequestV, m: Measured, hint: SizeHint) -> Result<
    PxSize,
    DrawError,
> {
    match q {
        MeasureRequestV::TextMetrics { font_size, .. } => match m {
            Measured::TextWidth(w) => Ok(
                PxSize {
                    width: spec_clamp(w, hint.width),
                    height: spec_clamp(font_size, hint.height),
                },
            ),
            _ => Err(DrawError::MeasurementError),
        },
        MeasureRequestV::ImageDims { .. } => match m {
            Measured::ImageSize(w, h) => Ok(
                PxSize { width: spec_clamp(w, hint.width), height: spec_clamp(h, hint.height) },
            ),
            _ => Err(DrawError::MeasurementError),
        },
    }
}

/// The measured size for one request under the solver's hint.
pub fn measured_size(q: &MeasureRequest, m: &Measured, hint: SizeHint) -> (r: Result<
    PxSize,
    DrawError,
>)
    ensures
        r == spec_measured_size(q@, *m, hint),
{
    match q {
        MeasureRequest::TextMetrics { font_size, .. } => match m {
            Measured::TextWidth(w) => Ok(
                PxSize { width: clamp(*w, hint.width), height: clamp(*font_size, hint.height) },
            ),
            _ => Err(DrawError::MeasurementError),
        },
        MeasureRequest::ImageDims { .. } => match m {
            Measured::ImageSize(w, h) => Ok(
                PxSize { width: clamp(*w, hint.width), height: clamp(*h, hint.height) },
            ),
            _ => Err(DrawError::MeasurementError),
        },
    }
}

} // verus!
