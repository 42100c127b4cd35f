//! The render traversal: from solved geometry to an ordered list of paint
//! commands.
//!
//! After the solver has run, every plan node has a geometry: a position
//! relative to its parent and a resolved size. The traversal walks the
//! scene forest in child order and emits drawing operations: first a clear
//! and one base rectangle over the root, then per node its background, its
//! content, and — bracketed by a saved render state, a translation to the
//! node's position and a clip to its size — the commands of its children,
//! so children paint in node-local coordinates and cannot paint outside
//! their parent's bounds. The restore is emitted unconditionally.

use vstd::prelude::*;

use crate::error::DrawError;
use crate::object::ColorDef;
use crate::object::Object;
use crate::object::ObjectV;
use crate::object::forest_view;
use crate::object::obj_view;
use crate::style::AlignContent;
use crate::style::DimSize;
use crate::style::Dimension;
use crate::style::Style;
use crate::style::empty_style;

verus! {

/// The solved geometry of one node: its position relative to its parent
/// and its resolved size, in whole pixels.
#[derive(Clone, Copy, Debug, PartialEq, Eq, Structural)]
pub struct Geom {
    pub x: i32,
    pub y: i32,
    pub width: u32,
    pub height: u32,
}

/// Solved geometry for a whole plan: one geometry per plan node, children
/// in the same order as the plan.
#[derive(Debug)]
pub struct GeomNode {
    pub geom: Geom,
    pub children: Vec<GeomNode>,
}

/// The model of a geometry tree.
pub struct GeomNodeV {
    pub geom: Geom,
    pub children: Seq<GeomNodeV>,
}

pub open spec fn geom_view(g: GeomNode) -> GeomNodeV
    decreases g,
{
    GeomNodeV { geom: g.geom, children: geoms_view(g.children@) }
}

pub open spec fn geoms_view(s: Seq<GeomNode>) -> Seq<GeomNodeV>
    decreases s,
{
    if s.len() == 0 {
        Seq::empty()
    } else {
        seq![geom_view(s[0])] + geoms_view(s.drop_first())
    }
}

impl View for GeomNode {
    type V = GeomNodeV;

    open spec fn view(&self) -> GeomNodeV {
        geom_view(*self)
    }
}

/// One drawing operation on the rendering surface.
#[derive(Debug, PartialEq, Eq)]
pub enum PaintCmd {
    /// Clear the whole surface to this color.
    Clear(ColorDef),
    /// Fill a rectangle, coordinates local to the current transform.
    FillRect { x: i32, y: i32, width: u32, height: u32, color: ColorDef },
    /// Fill a rounded rectangle. The radius is taken as given: callers
    /// keep it at most half the shorter side, no clamping is performed.
    FillRoundedRect { x: i32, y: i32, width: u32, height: u32, radius: u32, color: ColorDef },
    /// Draw shaped text. The vertical anchor is the node's top plus its
    /// own height — a deliberate quirk of the renderer, kept as it is.
    DrawText { font: String, text: String, font_size: u32, color: ColorDef, x: i32, y: i64 },
    /// Draw a decoded image into the node's rectangle.
    DrawImage { path: String, x: i32, y: i32, width: u32, height: u32 },
    /// Push the current transform and clip.
    Save,
    /// Translate the coordinate system.
    Translate { dx: i32, dy: i32 },
    /// Clip to a rectangle at the local origin.
    Clip { width: u32, height: u32 },
    /// Pop back to the last saved transform and clip.
    Restore,
}

/// The model of one paint command.
pub enum PaintCmdV {
    Clear(ColorDef),
    FillRect { x: i32, y: i32, width: u32, height: u32, color: ColorDef },
    FillRoundedRect { x: i32, y: i32, width: u32, height: u32, radius: u32, color: ColorDef },
    DrawText { font: Seq<char>, text: Seq<char>, font_size: u32, color: ColorDef, x: i32, y: i64 },
    DrawImage { path: Seq<char>, x: i32, y: i32, width: u32, height: u32 },
    Save,
    Translate { dx: i32, dy: i32 },
    Clip { width: u32, height: u32 },
    Restore,
}

pub open spec fn cmd_view(c: PaintCmd) -> PaintCmdV {
    match c {
        PaintCmd::Clear(col) => PaintCmdV::Clear(col),
        PaintCmd::FillRect { x, y, width, height, color } => PaintCmdV::FillRect {
            x,
            y,
            width,
            height,
            color,
        },
        PaintCmd::FillRoundedRect { x, y, width, height, radius, color } => (
        PaintCmdV::FillRoundedRect { x, y, width, height, radius, color }),
        PaintCmd::DrawText { font, text, font_size, color, x, y } => PaintCmdV::DrawText {
            font: font@,
            text: text@,
            font_size,
            color,
            x,
            y,
        },
        PaintCmd::DrawImage { path, x, y, width, height } => PaintCmdV::DrawImage {
            path: path@,
            x,
            y,
            width,
            height,
        },
        PaintCmd::Save => PaintCmdV::Save,
        PaintCmd::Translate { dx, dy } => PaintCmdV::Translate { dx, dy },
        PaintCmd::Clip { width, height } => PaintCmdV::Clip { width, height },
        PaintCmd::Restore => PaintCmdV::Restore,
    }
}

impl View for PaintCmd {
    type V = PaintCmdV;

    open spec fn view(&self) -> PaintCmdV {
        cmd_view(*self)
    }
}

pub open spec fn cmds_view(s: Seq<PaintCmd>) -> Seq<PaintCmdV>
    decreases s,
{
    if s.len() == 0 {
        Seq::empty()
    } else {
        seq![cmd_view(s[0])] + cmds_view(s.drop_first())
    }
}

/// `cmds_view` read at each index.
pub proof fn lemma_cmds_view_all(s: Seq<PaintCmd>)
    ensures
        cmds_view(s).len() == s.len(),
        forall|i: int| 0 <= i < s.len() ==> cmds_view(s)[i] == cmd_view(s[i]),
    decreases s,
{
    if s.len() > 0 {
        lemma_cmds_view_all(s.drop_first());
        assert forall|i: int| 0 <= i < s.len() implies cmds_view(s)[i] == cmd_view(s[i]) by {
            if i > 0 {
                assert(cmds_view(s)[i] == cmds_view(s.drop_first())[i - 1]);
                assert(s.drop_first()[i - 1] == s[i]);
            }
        }
    }
}

/// The surface is cleared to plain white before anything is painted.
pub open spec fn clear_color() -> ColorDef {
    ColorDef::Rgba32(0xFFFFFFFF)
}

/// The base layer under all content: a light grey canvas rectangle.
pub open spec fn canvas_color() -> ColorDef {
    ColorDef::Rgba32(0xDDDDDDFF)
}

/// The style of the synthetic root box: it fills the viewport and
/// stretches its content.
pub open spec fn spec_root_style() -> Style {
    Style {
        size: Some(
            DimSize { width: Dimension::Percent(1000), height: Dimension::Percent(1000) },
        ),
        align_content: Some(AlignContent::Stretch),
        ..empty_style()
    }
}

/// The style of the synthetic root box.
pub fn root_style() -> (s: Style)
    ensures
        s == spec_root_style(),
{
    Style {
        size: Some(
            DimSize { width: Dimension::Percent(1000), height: Dimension::Percent(1000) },
        ),
        align_content: Some(AlignContent::Stretch),
        ..Style::default()
    }
}

impl ObjectV {
    /// The corner radius: only containers have one.
    pub open spec fn corner_radius(self) -> Option<u32> {
        match self {
            ObjectV::Container { corner_radius, .. } => corner_radius,
            _ => None,
        }
    }

    /// The children: only containers have any.
    pub open spec fn children(self) -> Seq<ObjectV> {
        match self {
            ObjectV::Container { children, .. } => children,
            _ => Seq::empty(),
        }
    }
}

/// Whether a geometry tree has the shape of the forest: one geometry per
/// node, in order, all the way down.
pub open spec fn forest_shape(os: Seq<ObjectV>, gs: Seq<GeomNodeV>) -> bool
    decreases os,
{
    &&& os.len() == gs.len()
    &&& (os.len() == 0 || (node_shape(os[0], gs[0]) && forest_shape(
        os.drop_first(),
        gs.drop_first(),
    )))
}

pub open spec fn node_shape(o: ObjectV, g: GeomNodeV) -> bool
    decreases o,
{
    match o {
        ObjectV::Container { children, .. } => forest_shape(children, g.children),
        _ => g.children.len() == 0,
    }
}

/// The background fill of one node, when it declares one: a plain
/// rectangle, or a rounded one when a corner radius is set.
pub open spec fn background_cmds(o: ObjectV, g: Geom) -> Seq<PaintCmdV> {
    match o.background() {
        Some(c) => match o.corner_radius() {
            Some(r) => seq![
                PaintCmdV::FillRoundedRect {
                    x: g.x,
                    y: g.y,
                    width: g.width,
                    height: g.height,
                    radius: r,
                    color: c,
                },
            ],
            None => seq![
                PaintCmdV::FillRect { x: g.x, y: g.y, width: g.width, height: g.height, color: c },
            ],
        },
        None => Seq::empty(),
    }
}

/// The content of one node: shaped text for a text node, anchored at the
/// node's top plus its own height; the decoded image for an image node;
/// nothing for a container.
pub open spec fn content_cmds(o: ObjectV, g: Geom) -> Seq<PaintCmdV> {
    match o {
        ObjectV::Text { font, text, font_size, color, .. } => seq![
            PaintCmdV::DrawText {
                font,
                text,
                font_size,
                color,
                x: g.x,
                y: (g.y + g.height) as i64,
            },
        ],
        ObjectV::Image { path, .. } => seq![
            PaintCmdV::DrawImage { path, x: g.x, y: g.y, width: g.width, height: g.height },
        ],
        ObjectV::Container { .. } => Seq::empty(),
    }
}

/// The commands of one node: background, content, then — between a save,
/// a translation to the node's position with a clip to its size, and the
/// matching restore — the commands of its children in order.
pub open spec fn paint_node(o: ObjectV, g: GeomNodeV) -> Seq<PaintCmdV>
    decreases o, 1int,
{
    background_cmds(o, g.geom) + content_cmds(o, g.geom) + seq![
        PaintCmdV::Save,
        PaintCmdV::Translate { dx: g.geom.x, dy: g.geom.y },
        PaintCmdV::Clip { width: g.geom.width, height: g.geom.height },
    ] + (match o {
        ObjectV::Container { children, .. } => paint_forest(children, g.children),
        _ => Seq::empty(),
    }) + seq![PaintCmdV::Restore]
}

/// The commands of a forest: each child's commands complete, in child
/// order.
pub open spec fn paint_forest(os: Seq<ObjectV>, gs: Seq<GeomNodeV>) -> Seq<PaintCmdV>
    decreases os, 0int,
{
    if os.len() == 0 || gs.len() == 0 {
        Seq::empty()
    } else {
        paint_node(os[0], gs[0]) + paint_forest(os.drop_first(), gs.drop_first())
    }
}

/// The whole repaint: clear, the base canvas rectangle over the root
/// geometry, then the forest under the root's transform and clip.
pub open spec fn spec_render(os: Seq<ObjectV>, root: GeomNodeV) -> Seq<PaintCmdV> {
    seq![
        PaintCmdV::Clear(clear_color()),
        PaintCmdV::FillRect {
            x: root.geom.x,
            y: root.geom.y,
            width: root.geom.width,
            height: root.geom.height,
            color: canvas_color(),
        },
        PaintCmdV::Save,
        PaintCmdV::Translate { dx: root.geom.x, dy: root.geom.y },
        PaintCmdV::Clip { width: root.geom.width, height: root.geom.height },
    ] + paint_forest(os, root.children) + seq![PaintCmdV::Restore]
}

/// Append one command.
fn push_cmd(out: &mut Vec<PaintCmd>, c: PaintCmd)
    ensures
        cmds_view(final(out)@) == cmds_view(old(out)@) + seq![cmd_view(c)],
        final(out)@.len() == old(out)@.len() + 1,
{
    let ghost cg = c;
    out.push(c);
    proof {
        lemma_cmds_view_all(out@);
        lemma_cmds_view_all(out@.drop_last());
        assert(out@.drop_last() =~= old(out)@);
        assert(cmds_view(out@) =~= cmds_view(old(out)@) + seq![cmd_view(cg)]);
    }
}

/// Emit the commands of one node, shape permitting.
fn paint_obj(o: &Object, g: &GeomNode, out: &mut Vec<PaintCmd>) -> (ok: bool)
    ensures
        ok == node_shape(o@, g@),
        ok ==> cmds_view(final(out)@) == cmds_view(old(out)@) + paint_node(o@, g@),
    decreases *o, 1int,
{
    match o {
        Object::Container { background, corner_radius, .. } => {
            match background {
                Some(c) => match corner_radius {
                    Some(r) => {
                        push_cmd(
                            out,
                            PaintCmd::FillRoundedRect {
                                x: g.geom.x,
                                y: g.geom.y,
                                width: g.geom.width,
                                height: g.geom.height,
                                radius: *r,
                                color: *c,
                            },
                        );
                    },
                    None => {
                        push_cmd(
                            out,
                            PaintCmd::FillRect {
                                x: g.geom.x,
                                y: g.geom.y,
                                width: g.geom.width,
                                height: g.geom.height,
                                color: *c,
                            },
                        );
                    },
                },
                None => {},
            }
        },
        Object::Text { font, text, font_size, color, .. } => {
            push_cmd(
                out,
                PaintCmd::DrawText {
                    font: font.clone(),
                    text: text.clone(),
                    font_size: *font_size,
                    color: *color,
                    x: g.geom.x,
                    y: g.geom.y as i64 + g.geom.height as i64,
                },
            );
        },
        Object::Image { path, .. } => {
            push_cmd(
                out,
                PaintCmd::DrawImage {
                    path: path.clone(),
                    x: g.geom.x,
                    y: g.geom.y,
                    width: g.geom.width,
                    height: g.geom.height,
                },
            );
        },
    }
    push_cmd(out, PaintCmd::Save);
    push_cmd(out, PaintCmd::Translate { dx: g.geom.x, dy: g.geom.y });
    push_cmd(out, PaintCmd::Clip { width: g.geom.width, height: g.geom.height });
    let ok = match o {
        Object::Container { children, .. } => {
            let r = paint_kids(children, &g.children, 0, out);
            proof {
                assert(children@.skip(0) =~= children@);
                assert(g.children@.skip(0) =~= g.children@);
            }
            r
        },
        _ => {
            let r = g.children.len() == 0;
            proof {
                if g.children@.len() == 0 {
                    assert(geoms_view(g.children@) =~= Seq::<GeomNodeV>::empty());
                } else {
                    lemma_geoms_view_len(g.children@);
                }
            }
            r
        },
    };
    if !ok {
        return false;
    }
    push_cmd(out, PaintCmd::Restore);
    proof {
        assert(cmds_view(out@) =~= cmds_view(old(out)@) + paint_node(obj_view(*o), geom_view(*g)));
    }
    true
}

/// `geoms_view` keeps the length.
pub proof fn lemma_geoms_view_len(s: Seq<GeomNode>)
    ensures
        geoms_view(s).len() == s.len(),
    decreases s,
{
    if s.len() > 0 {
        lemma_geoms_view_len(s.drop_first());
    }
}

/// Emit the commands of the children from `k` on, shape permitting.
fn paint_kids(os: &Vec<Object>, gs: &Vec<GeomNode>, k: usize, out: &mut Vec<PaintCmd>) -> (ok:
    bool)
    requires
        k <= os.len(),
        k <= gs@.len(),
    ensures
        ok == forest_shape(forest_view(os@.skip(k as int)), geoms_view(gs@.skip(k as int))),
        ok ==> cmds_view(final(out)@) == cmds_view(old(out)@) + paint_forest(
            forest_view(os@.skip(k as int)),
            geoms_view(gs@.skip(k as int)),
        ),
    decreases *os, 0int, os@.len() - k,
{
    proof {
        crate::object::lemma_forest_view_len(os@.skip(k as int));
        lemma_geoms_view_len(gs@.skip(k as int));
    }
    if k == os.len() && k == gs.len() {
        proof {
            assert(os@.skip(k as int) =~= Seq::<Object>::empty());
            assert(gs@.skip(k as int) =~= Seq::<GeomNode>::empty());
        }
        return true;
    }
    if k == os.len() || k == gs.len() {
        return false;
    }
    proof {
        let osk = os@.skip(k as int);
        let gsk = gs@.skip(k as int);
        assert(osk[0] == os@[k as int]);
        assert(gsk[0] == gs@[k as int]);
        assert(osk.drop_first() =~= os@.skip(k as int + 1));
        assert(gsk.drop_first() =~= gs@.skip(k as int + 1));
        crate::object::lemma_forest_view_index(osk, 0);
        lemma_geoms_view_index(gsk, 0);
        assert(forest_view(osk).drop_first() =~= forest_view(os@.skip(k as int + 1))) by {
            crate::object::lemma_forest_view_len(osk);
            assert forall|i: int|
                0 <= i < osk.len() - 1 implies forest_view(osk).drop_first()[i] == forest_view(
                os@.skip(k as int + 1),
            )[i] by {
                crate::object::lemma_forest_view_index(osk, i + 1);
                crate::object::lemma_forest_view_index(os@.skip(k as int + 1), i);
                assert(osk[i + 1] == os@.skip(k as int + 1)[i]);
            }
        }
        assert(geoms_view(gsk).drop_first() =~= geoms_view(gs@.skip(k as int + 1))) by {
            lemma_geoms_view_len(gsk);
            assert forall|i: int|
                0 <= i < gsk.len() - 1 implies geoms_view(gsk).drop_first()[i] == geoms_view(
                gs@.skip(k as int + 1),
            )[i] by {
                lemma_geoms_view_index(gsk, i + 1);
                lemma_geoms_view_index(gs@.skip(k as int + 1), i);
                assert(gsk[i + 1] == gs@.skip(k as int + 1)[i]);
            }
        }
    }
    let ok = paint_obj(&os[k], &gs[k], out);
    if !ok {
        return false;
    }
    let ok2 = paint_kids(os, gs, k + 1, out);
    if !ok2 {
        return false;
    }
    proof {
        assert(cmds_view(out@) =~= cmds_view(old(out)@) + paint_forest(
            forest_view(os@.skip(k as int)),
            geoms_view(gs@.skip(k as int)),
        ));
    }
    true
}

/// `geoms_view` read at one index.
pub proof fn lemma_geoms_view_index(s: Seq<GeomNode>, i: int)
    requires
        0 <= i < s.len(),
    ensures
        geoms_view(s).len() == s.len(),
        geoms_view(s)[i] == geom_view(s[i]),
    decreases s,
{
    lemma_geoms_view_len(s);
    if i > 0 {
        lemma_geoms_view_index(s.drop_first(), i - 1);
    }
}

/// The render traversal: the full command list of one repaint, or a
/// solver-shape error.
///
/// Succeeds exactly when the geometry tree has the shape of the forest;
/// a solver that handed back geometry of another shape is a solver
/// failure, and no partial command list is handed out.
pub fn render(objs: &Vec<Object>, root: &GeomNode) -> (r: Result<Vec<PaintCmd>, DrawError>)
    ensures
        r is Ok <==> forest_shape(forest_view(objs@), geom_view(*root).children),
        r matches Ok(cmds) ==> cmds_view(cmds@) == spec_render(forest_view(objs@), geom_view(*root)),
        r matches Err(e) ==> e == DrawError::LayoutEngineError,
{
    let mut out: Vec<PaintCmd> = Vec::new();
    push_cmd(&mut out, PaintCmd::Clear(ColorDef::Rgba32(0xFFFFFFFF)));
    push_cmd(
        &mut out,
        PaintCmd::FillRect {
            x: root.geom.x,
            y: root.geom.y,
            width: root.geom.width,
            height: root.geom.height,
            color: ColorDef::Rgba32(0xDDDDDDFF),
        },
    );
    push_cmd(&mut out, PaintCmd::Save);
    push_cmd(&mut out, PaintCmd::Translate { dx: root.geom.x, dy: root.geom.y });
    push_cmd(&mut out, PaintCmd::Clip { width: root.geom.width, height: root.geom.height });
    let ok = paint_kids(objs, &root.children, 0, &mut out);
    if !ok {
        proof {
            assert(objs@.skip(0) =~= objs@);
            assert(root.children@.skip(0) =~= root.children@);
        }
        return Err(DrawError::LayoutEngineError);
    }
    push_cmd(&mut out, PaintCmd::Restore);
    proof {
        assert(objs@.skip(0) =~= objs@);
        assert(root.children@.skip(0) =~= root.children@);
        assert(cmds_view(out@) =~= spec_render(forest_view(objs@), geom_view(*root)));
    }
    Ok(out)
}

// ---------------------------------------------------------------------------
// Laws of the traversal
// ---------------------------------------------------------------------------

/// Order preservation: the traversal paints each child completely before
/// the next one begins. For any boundary `i`, the forest's command list is
/// exactly the commands of the first `i` children followed by the commands
/// of the rest — so for children `[A, B, C]`, all of A's commands stand
/// before any of B's, and all of B's before any of C's.
pub proof fn lemma_paint_order(os: Seq<ObjectV>, gs: Seq<GeomNodeV>, i: int)
    requires
        forest_shape(os, gs),
        0 <= i <= os.len(),
    ensures
        paint_forest(os, gs) == paint_forest(os.take(i), gs.take(i)) + paint_forest(
            os.skip(i),
            gs.skip(i),
        ),
    decreases i,
{
    if i == 0 {
        assert(os.take(0) =~= Seq::<ObjectV>::empty());
        assert(gs.take(0) =~= Seq::<GeomNodeV>::empty());
        assert(os.skip(0) =~= os);
        assert(gs.skip(0) =~= gs);
        assert(paint_forest(os, gs) =~= paint_forest(os.take(0), gs.take(0)) + paint_forest(
            os.skip(0),
            gs.skip(0),
        ));
    } else {
        lemma_paint_order(os.drop_first(), gs.drop_first(), i - 1);
        assert(os.drop_first().take(i - 1) =~= os.take(i).drop_first());
        assert(gs.drop_first().take(i - 1) =~= gs.take(i).drop_first());
        assert(os.drop_first().skip(i - 1) =~= os.skip(i));
        assert(gs.drop_first().skip(i - 1) =~= gs.skip(i));
        assert(os.take(i)[0] == os[0]);
        assert(gs.take(i)[0] == gs[0]);
        assert(paint_forest(os.take(i), gs.take(i)) == paint_node(os[0], gs[0]) + paint_forest(
            os.take(i).drop_first(),
            gs.take(i).drop_first(),
        ));
        assert(paint_forest(os, gs) =~= paint_forest(os.take(i), gs.take(i)) + paint_forest(
            os.skip(i),
            gs.skip(i),
        ));
    }
}

/// Idempotence: the command list is a pure function of the tree and the
/// solved geometry. The solver itself is a pure function of the tree and
/// the viewport — the collaborator's own contract — so repainting twice
/// with an unchanged current tree and an unchanged viewport paints the
/// identical command list both times.
pub proof fn lemma_repaint_idempotent(
    os1: Seq<ObjectV>,
    os2: Seq<ObjectV>,
    g1: GeomNodeV,
    g2: GeomNodeV,
)
    requires
        os1 == os2,
        g1 == g2,
    ensures
        spec_render(os1, g1) == spec_render(os2, g2),
{
}


// ---------------------------------------------------------------------------
// Containment
// ---------------------------------------------------------------------------

/// An axis-aligned region in device coordinates, right-open; empty when an
/// edge crosses.
pub struct IRect {
    pub x1: int,
    pub y1: int,
    pub x2: int,
    pub y2: int,
}

/// `a` lies within `b`: an empty region lies within anything.
pub open spec fn rect_within(a: IRect, b: IRect) -> bool {
    ||| a.x1 >= a.x2
    ||| a.y1 >= a.y2
    ||| (b.x1 <= a.x1 && b.y1 <= a.y1 && a.x2 <= b.x2 && a.y2 <= b.y2)
}

/// The intersection of two regions.
pub open spec fn rect_inter(a: IRect, b: IRect) -> IRect {
    IRect {
        x1: if a.x1 >= b.x1 {
            a.x1
        } else {
            b.x1
        },
        y1: if a.y1 >= b.y1 {
            a.y1
        } else {
            b.y1
        },
        x2: if a.x2 <= b.x2 {
            a.x2
        } else {
            b.x2
        },
        y2: if a.y2 <= b.y2 {
            a.y2
        } else {
            b.y2
        },
    }
}

/// The render state the surface keeps: the cumulative translation and the
/// device-coordinate clip region.
pub struct RState {
    pub dx: int,
    pub dy: int,
    pub clip: IRect,
}

/// A local rectangle carried to device coordinates.
pub open spec fn device_rect(st: RState, x: int, y: int, w: int, h: int) -> IRect {
    IRect { x1: st.dx + x, y1: st.dy + y, x2: st.dx + x + w, y2: st.dy + y + h }
}

/// The state after one command.
pub open spec fn step_state(st: RState, stack: Seq<RState>, c: PaintCmdV) -> (RState, Seq<RState>) {
    match c {
        PaintCmdV::Save => (st, stack.push(st)),
        PaintCmdV::Translate { dx, dy } => (
            RState { dx: st.dx + dx, dy: st.dy + dy, clip: st.clip },
            stack,
        ),
        PaintCmdV::Clip { width, height } => (
            RState {
                dx: st.dx,
                dy: st.dy,
                clip: rect_inter(
                    st.clip,
                    device_rect(st, 0, 0, width as int, height as int),
                ),
            },
            stack,
        ),
        PaintCmdV::Restore => if stack.len() > 0 {
            (stack.last(), stack.drop_last())
        } else {
            (st, stack)
        },
        _ => (st, stack),
    }
}

/// The state and stack after a whole command list.
pub open spec fn run_cmds(cmds: Seq<PaintCmdV>, st: RState, stack: Seq<RState>) -> (
    RState,
    Seq<RState>,
)
    decreases cmds.len(),
{
    if cmds.len() == 0 {
        (st, stack)
    } else {
        let next = step_state(st, stack, cmds[0]);
        run_cmds(cmds.drop_first(), next.0, next.1)
    }
}

/// The visible region of one command: what it paints, cut to the clip in
/// force. State-changing commands paint nothing; a clear is the base wash
/// beneath the clip discipline and carries no region here.
pub open spec fn cmd_region(st: RState, c: PaintCmdV) -> Option<IRect> {
    match c {
        PaintCmdV::FillRect { x, y, width, height, .. } => Some(
            rect_inter(
                device_rect(st, x as int, y as int, width as int, height as int),
                st.clip,
            ),
        ),
        PaintCmdV::FillRoundedRect { x, y, width, height, .. } => Some(
            rect_inter(
                device_rect(st, x as int, y as int, width as int, height as int),
                st.clip,
            ),
        ),
        PaintCmdV::DrawImage { x, y, width, height, .. } => Some(
            rect_inter(
                device_rect(st, x as int, y as int, width as int, height as int),
                st.clip,
            ),
        ),
        PaintCmdV::DrawText { .. } => Some(st.clip),
        _ => None,
    }
}

/// The visible regions of a whole command list, in paint order.
pub open spec fn regions(cmds: Seq<PaintCmdV>, st: RState, stack: Seq<RState>) -> Seq<IRect>
    decreases cmds.len(),
{
    if cmds.len() == 0 {
        Seq::empty()
    } else {
        let rest = regions(
            cmds.drop_first(),
            step_state(st, stack, cmds[0]).0,
            step_state(st, stack, cmds[0]).1,
        );
        match cmd_region(st, cmds[0]) {
            Some(r) => seq![r] + rest,
            None => rest,
        }
    }
}

/// Running a concatenation runs its parts in order.
proof fn lemma_run_append(a: Seq<PaintCmdV>, b: Seq<PaintCmdV>, st: RState, stack: Seq<RState>)
    ensures
        run_cmds(a + b, st, stack) == run_cmds(b, run_cmds(a, st, stack).0, run_cmds(a, st, stack).1),
        regions(a + b, st, stack) == regions(a, st, stack) + regions(
            b,
            run_cmds(a, st, stack).0,
            run_cmds(a, st, stack).1,
        ),
    decreases a.len(),
{
    if a.len() == 0 {
        assert(a + b =~= b);
        assert(regions(a, st, stack) + regions(b, st, stack) =~= regions(b, st, stack));
    } else {
        assert((a + b)[0] == a[0]);
        assert((a + b).drop_first() =~= a.drop_first() + b);
        let next = step_state(st, stack, a[0]);
        lemma_run_append(a.drop_first(), b, next.0, next.1);
        match cmd_region(st, a[0]) {
            Some(r) => {
                assert(regions(a + b, st, stack) =~= regions(a, st, stack) + regions(
                    b,
                    run_cmds(a, st, stack).0,
                    run_cmds(a, st, stack).1,
                ));
            },
            None => {
                assert(regions(a + b, st, stack) =~= regions(a, st, stack) + regions(
                    b,
                    run_cmds(a, st, stack).0,
                    run_cmds(a, st, stack).1,
                ));
            },
        }
    }
}

/// Every region of a list lies within the clip if that holds of its parts.
proof fn lemma_regions_concat_within(rs1: Seq<IRect>, rs2: Seq<IRect>, c: IRect)
    requires
        forall|i: int| 0 <= i < rs1.len() ==> rect_within(#[trigger] rs1[i], c),
        forall|i: int| 0 <= i < rs2.len() ==> rect_within(#[trigger] rs2[i], c),
    ensures
        forall|i: int| 0 <= i < (rs1 + rs2).len() ==> rect_within(#[trigger] (rs1 + rs2)[i], c),
{
    assert forall|i: int| 0 <= i < (rs1 + rs2).len() implies rect_within((rs1 + rs2)[i], c) by {
        if i < rs1.len() {
            assert((rs1 + rs2)[i] == rs1[i]);
        } else {
            assert((rs1 + rs2)[i] == rs2[i - rs1.len()]);
        }
    }
}

/// A region within a tighter clip is within the looser one.
proof fn lemma_within_trans(a: IRect, b: IRect, c: IRect)
    requires
        rect_within(a, b),
        rect_within(b, c),
    ensures
        rect_within(a, c),
{
}


/// One painting command leaves the state alone and paints within the clip.
proof fn lemma_single_paint(c: PaintCmdV, st: RState, stack: Seq<RState>)
    requires
        !(c is Save),
        !(c is Translate),
        !(c is Clip),
        !(c is Restore),
        !(c is Clear),
    ensures
        run_cmds(seq![c], st, stack) == (st, stack),
        regions(seq![c], st, stack) == seq![cmd_region(st, c)->Some_0],
        rect_within(cmd_region(st, c)->Some_0, st.clip),
{
    reveal_with_fuel(run_cmds, 3);
    reveal_with_fuel(regions, 3);
    assert(seq![c].drop_first() =~= Seq::<PaintCmdV>::empty());
    assert(step_state(st, stack, c) == (st, stack));
    assert(regions(seq![c], st, stack) =~= seq![cmd_region(st, c)->Some_0]);
}

/// The background and content of one node leave the state alone and paint
/// within the clip.
proof fn proof_single_block(o: ObjectV, g: GeomNodeV, st: RState, stack: Seq<RState>)
    ensures
        run_cmds(background_cmds(o, g.geom), st, stack) == (st, stack),
        forall|i: int|
            0 <= i < regions(background_cmds(o, g.geom), st, stack).len() ==> rect_within(
                #[trigger] regions(background_cmds(o, g.geom), st, stack)[i],
                st.clip,
            ),
        run_cmds(content_cmds(o, g.geom), st, stack) == (st, stack),
        forall|i: int|
            0 <= i < regions(content_cmds(o, g.geom), st, stack).len() ==> rect_within(
                #[trigger] regions(content_cmds(o, g.geom), st, stack)[i],
                st.clip,
            ),
{
    let bg = background_cmds(o, g.geom);
    match o.background() {
        Some(c) => {
            match o.corner_radius() {
                Some(r) => {
                    lemma_single_paint(bg[0], st, stack);
                    assert(bg =~= seq![bg[0]]);
                },
                None => {
                    lemma_single_paint(bg[0], st, stack);
                    assert(bg =~= seq![bg[0]]);
                },
            }
        },
        None => {
            assert(bg =~= Seq::<PaintCmdV>::empty());
        },
    }
    let content = content_cmds(o, g.geom);
    match o {
        ObjectV::Text { .. } => {
            lemma_single_paint(content[0], st, stack);
            assert(content =~= seq![content[0]]);
        },
        ObjectV::Image { .. } => {
            lemma_single_paint(content[0], st, stack);
            assert(content =~= seq![content[0]]);
        },
        ObjectV::Container { .. } => {
            assert(content =~= Seq::<PaintCmdV>::empty());
        },
    }
}

/// Containment for one node: its commands leave the render state exactly
/// as they found it, and everything it makes visible — its own background
/// and content, and every descendant through the clip it pushes — lies
/// within the clip in force when it starts.
proof fn lemma_node_containment(o: ObjectV, g: GeomNodeV, st: RState, stack: Seq<RState>)
    requires
        node_shape(o, g),
    ensures
        run_cmds(paint_node(o, g), st, stack) == (st, stack),
        forall|i: int|
            0 <= i < regions(paint_node(o, g), st, stack).len() ==> rect_within(
                #[trigger] regions(paint_node(o, g), st, stack)[i],
                st.clip,
            ),
    decreases o, 1int,
{
    reveal_with_fuel(run_cmds, 6);
    reveal_with_fuel(regions, 6);
    let bg = background_cmds(o, g.geom);
    let content = content_cmds(o, g.geom);
    let frame = seq![
        PaintCmdV::Save,
        PaintCmdV::Translate { dx: g.geom.x, dy: g.geom.y },
        PaintCmdV::Clip { width: g.geom.width, height: g.geom.height },
    ];
    let kids = match o {
        ObjectV::Container { children, .. } => paint_forest(children, g.children),
        _ => Seq::<PaintCmdV>::empty(),
    };
    let fin = seq![PaintCmdV::Restore];
    assert(paint_node(o, g) =~= bg + (content + (frame + (kids + fin)))) by {
        assert(paint_node(o, g) == (((bg + content) + frame) + kids) + fin);
        assert((((bg + content) + frame) + kids) + fin =~= bg + (content + (frame + (kids
            + fin))));
    }
    // the background and content paint one clipped rectangle each, at most
    proof_single_block(o, g, st, stack);
    let st1 = RState { dx: st.dx + g.geom.x, dy: st.dy + g.geom.y, clip: st.clip };
    let st2 = RState {
        dx: st1.dx,
        dy: st1.dy,
        clip: rect_inter(
            st.clip,
            device_rect(st1, 0, 0, g.geom.width as int, g.geom.height as int),
        ),
    };
    let stack2 = stack.push(st);
    // the frame saves the state, translates, and tightens the clip
    assert(frame.drop_first()[0] == frame[1]);
    assert(frame.drop_first().drop_first()[0] == frame[2]);
    assert(frame.drop_first().drop_first().drop_first() =~= Seq::<PaintCmdV>::empty());
    assert(step_state(st, stack, frame[0]) == (st, stack2));
    assert(step_state(st, stack2, frame[1]) == (st1, stack2));
    assert(step_state(st1, stack2, frame[2]) == (st2, stack2));
    assert(run_cmds(frame, st, stack) == (st2, stack2));
    assert(regions(frame, st, stack) =~= Seq::<IRect>::empty());
    // the children paint within the tightened clip, which lies within ours
    match o {
        ObjectV::Container { children, .. } => {
            lemma_forest_containment(children, g.children, st2, stack2);
            assert(rect_within(st2.clip, st.clip));
            assert forall|i: int|
                0 <= i < regions(kids, st2, stack2).len() implies rect_within(
                #[trigger] regions(kids, st2, stack2)[i],
                st.clip,
            ) by {
                lemma_within_trans(regions(kids, st2, stack2)[i], st2.clip, st.clip);
            }
        },
        _ => {
            assert(kids =~= Seq::<PaintCmdV>::empty());
            assert(run_cmds(kids, st2, stack2) == (st2, stack2));
            assert(regions(kids, st2, stack2) =~= Seq::<IRect>::empty());
        },
    }
    assert(run_cmds(kids, st2, stack2) == (st2, stack2));
    // the restore pops back to exactly the state we started from
    assert(fin.drop_first() =~= Seq::<PaintCmdV>::empty());
    assert(stack2.last() == st);
    assert(stack2.drop_last() =~= stack);
    assert(step_state(st2, stack2, fin[0]) == (st, stack));
    assert(run_cmds(fin, st2, stack2) == (st, stack));
    assert(regions(fin, st2, stack2) =~= Seq::<IRect>::empty());
    lemma_run_append(kids, fin, st2, stack2);
    lemma_run_append(frame, kids + fin, st, stack);
    lemma_run_append(content, frame + (kids + fin), st, stack);
    lemma_run_append(bg, content + (frame + (kids + fin)), st, stack);
    lemma_regions_concat_within(
        regions(kids, st2, stack2),
        regions(fin, st2, stack2),
        st.clip,
    );
    lemma_regions_concat_within(
        regions(frame, st, stack),
        regions(kids + fin, st2, stack2),
        st.clip,
    );
    lemma_regions_concat_within(
        regions(content, st, stack),
        regions(frame + (kids + fin), st, stack),
        st.clip,
    );
    lemma_regions_concat_within(
        regions(bg, st, stack),
        regions(content + (frame + (kids + fin)), st, stack),
        st.clip,
    );
}

/// Containment, for every node of a forest in paint order.
proof fn lemma_forest_containment(
    os: Seq<ObjectV>,
    gs: Seq<GeomNodeV>,
    st: RState,
    stack: Seq<RState>,
)
    requires
        forest_shape(os, gs),
    ensures
        run_cmds(paint_forest(os, gs), st, stack) == (st, stack),
        forall|i: int|
            0 <= i < regions(paint_forest(os, gs), st, stack).len() ==> rect_within(
                #[trigger] regions(paint_forest(os, gs), st, stack)[i],
                st.clip,
            ),
    decreases os, 0int,
{
    if os.len() == 0 || gs.len() == 0 {
    } else {
        lemma_node_containment(os[0], gs[0], st, stack);
        lemma_forest_containment(os.drop_first(), gs.drop_first(), st, stack);
        lemma_run_append(paint_node(os[0], gs[0]), paint_forest(os.drop_first(), gs.drop_first()), st, stack);
        lemma_regions_concat_within(
            regions(paint_node(os[0], gs[0]), st, stack),
            regions(paint_forest(os.drop_first(), gs.drop_first()), st, stack),
            st.clip,
        );
    }
}

/// Containment: every child's painted geometry, carried through all the
/// ancestor translations and cut by the clips in force, lies within the
/// clip rectangle its parent established — no child paints visibly outside
/// its parent's bounds. Stated for a forest under the state its parent set
/// up: the state is restored exactly, and every visible region lies within
/// the parent's clip.
pub proof fn lemma_containment(
    os: Seq<ObjectV>,
    gs: Seq<GeomNodeV>,
    st: RState,
    stack: Seq<RState>,
)
    requires
        forest_shape(os, gs),
    ensures
        run_cmds(paint_forest(os, gs), st, stack) == (st, stack),
        forall|i: int|
            0 <= i < regions(paint_forest(os, gs), st, stack).len() ==> rect_within(
                #[trigger] regions(paint_forest(os, gs), st, stack)[i],
                st.clip,
            ),
{
    lemma_forest_containment(os, gs, st, stack);
}

} // verus!
