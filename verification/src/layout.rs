//! The layout adapter: from a scene forest to a solver build plan.
//!
//! The external constraint solver sees one synthetic root box sized to
//! fill the viewport, a plain box per container, and a measured leaf per
//! text or image node, with children attached in scene order. The plan
//! below carries exactly that: the caller creates one solver handle per
//! plan node, registers the measurement request of each leaf, and attaches
//! children in the order given. The plan is built fresh per repaint and
//! never mutated.

use vstd::prelude::*;

use crate::draw::root_style;
use crate::draw::spec_root_style;
use crate::object::MeasureRequest;
use crate::object::MeasureRequestV;
use crate::object::Object;
use crate::object::ObjectV;
use crate::object::forest_view;
use crate::object::obj_view;
use crate::object::spec_measure_request;
use crate::style::Style;

verus! {

/// One node of the solver build plan: a style, a measurement request for
/// leaves, and the children in scene order.
#[derive(Debug)]
pub struct PlanNode {
    pub style: Style,
    pub measure: Option<MeasureRequest>,
    pub children: Vec<PlanNode>,
}

/// The model of a plan node.
pub struct PlanNodeV {
    pub style: Style,
    pub measure: Option<MeasureRequestV>,
    pub children: Seq<PlanNodeV>,
}

/// The model of one plan node.
pub open spec fn plan_view(p: PlanNode) -> PlanNodeV
    decreases p,
{
    PlanNodeV {
        style: p.style,
        measure: match p.measure {
            Some(q) => Some(q@),
            None => None,
        },
        children: plans_view(p.children@),
    }
}

/// The model of an ordered sequence of plan nodes.
pub open spec fn plans_view(s: Seq<PlanNode>) -> Seq<PlanNodeV>
    decreases s,
{
    if s.len() == 0 {
        Seq::empty()
    } else {
        seq![plan_view(s[0])] + plans_view(s.drop_first())
    }
}

impl View for PlanNode {
    type V = PlanNodeV;

    open spec fn view(&self) -> PlanNodeV {
        plan_view(*self)
    }
}

/// The plan for one scene node: a plain box for a container, with its
/// children planned in order beneath it; a measured childless leaf for
/// text and images.
pub open spec fn spec_plan_obj(o: ObjectV) -> PlanNodeV
    decreases o,
{
    match o {
        ObjectV::Container { children, style, .. } => PlanNodeV {
            style,
            measure: None,
            children: spec_plan_forest(children),
        },
        _ => PlanNodeV { style: o.style(), measure: spec_measure_request(o), children: Seq::empty() },
    }
}

/// The plans of a forest, in scene order.
pub open spec fn spec_plan_forest(os: Seq<ObjectV>) -> Seq<PlanNodeV>
    decreases os,
{
    if os.len() == 0 {
        Seq::empty()
    } else {
        seq![spec_plan_obj(os[0])] + spec_plan_forest(os.drop_first())
    }
}

/// The whole plan of a repaint: one synthetic root box, styled to fill the
/// viewport, holding the forest.
pub open spec fn spec_build(os: Seq<ObjectV>) -> PlanNodeV {
    PlanNodeV { style: spec_root_style(), measure: None, children: spec_plan_forest(os) }
}

/// The plans of the nodes from `k` on.
fn plan_forest(os: &Vec<Object>, k: usize) -> (r: Vec<PlanNode>)
    requires
        k <= os.len(),
    ensures
        plans_view(r@) == spec_plan_forest(forest_view(os@.skip(k as int))),
    decreases *os, os@.len() - k,
{
    if k == os.len() {
        let r: Vec<PlanNode> = Vec::new();
        proof {
            assert(os@.skip(k as int) =~= Seq::<Object>::empty());
            assert(forest_view(os@.skip(k as int)) =~= Seq::<ObjectV>::empty());
            assert(plans_view(r@) =~= spec_plan_forest(forest_view(os@.skip(k as int))));
        }
        r
    } else {
        let head = plan_obj(&os[k]);
        let ghost headg = head@;
        let mut rest = plan_forest(os, k + 1);
        let ghost old_rest = rest@;
        rest.insert(0, head);
        proof {
            let sk = os@.skip(k as int);
            assert(sk[0] == os@[k as int]);
            assert(sk.drop_first() =~= os@.skip(k as int + 1));
            let fv = forest_view(sk);
            assert(fv == seq![obj_view(os@[k as int])] + forest_view(os@.skip(k as int + 1)));
            assert(fv[0] == obj_view(os@[k as int]));
            assert(fv.drop_first() =~= forest_view(os@.skip(k as int + 1)));
            assert(rest@.drop_first() =~= old_rest);
            assert(plan_view(rest@[0]) == headg);
            assert(plans_view(rest@) == seq![plan_view(rest@[0])] + plans_view(
                rest@.drop_first(),
            ));
            assert(plans_view(rest@) =~= spec_plan_forest(fv));
        }
        rest
    }
}

/// The plan for one scene node.
fn plan_obj(o: &Object) -> (p: PlanNode)
    ensures
        p@ == spec_plan_obj(o@),
    decreases *o, 0int,
{
    match o {
        Object::Container { children, style, .. } => {
            let planned = plan_forest(children, 0);
            proof {
                assert(children@.skip(0) =~= children@);
            }
            PlanNode { style: *style, measure: None, children: planned }
        },
        _ => {
            let style = o.get_style();
            let measure = o.measure_request();
            let children: Vec<PlanNode> = Vec::new();
            proof {
                assert(plans_view(children@) =~= Seq::<PlanNodeV>::empty());
            }
            PlanNode { style, measure, children }
        },
    }
}

/// The layout adapter: one synthetic root box styled to fill the viewport,
/// a plan node per scene node beneath it, children in scene order. The
/// adapter keeps no state between calls and never hands out a partial
/// plan.
pub fn build(root_children: &Vec<Object>) -> (root: PlanNode)
    ensures
        root@ == spec_build(forest_view(root_children@)),
{
    let planned = plan_forest(root_children, 0);
    proof {
        assert(root_children@.skip(0) =~= root_children@);
    }
    PlanNode { style: root_style(), measure: None, children: planned }
}

/// No node of the forest is a text or image leaf.
pub open spec fn forest_box_only(os: Seq<ObjectV>) -> bool
    decreases os,
{
    if os.len() == 0 {
        true
    } else {
        (os[0] matches ObjectV::Container { children, .. } && forest_box_only(children))
            && forest_box_only(os.drop_first())
    }
}

/// No node of the plan carries a measurement request.
pub open spec fn plan_measure_free(ps: Seq<PlanNodeV>) -> bool
    decreases ps,
{
    if ps.len() == 0 {
        true
    } else {
        ps[0].measure is None && plan_measure_free(ps[0].children) && plan_measure_free(
            ps.drop_first(),
        )
    }
}

/// A forest of containers alone builds a plan that never consults any
/// measurement collaborator: the whole plan, root included, is free of
/// measurement requests, so its layout proceeds without a single
/// measurement call.
pub proof fn lemma_boxes_need_no_measurement(os: Seq<ObjectV>)
    requires
        forest_box_only(os),
    ensures
        spec_build(os).measure is None,
        plan_measure_free(spec_build(os).children),
    decreases os,
{
    lemma_boxes_forest(os);
}

/// The forest part of the statement above.
proof fn lemma_boxes_forest(os: Seq<ObjectV>)
    requires
        forest_box_only(os),
    ensures
        plan_measure_free(spec_plan_forest(os)),
    decreases os,
{
    if os.len() > 0 {
        let ps = spec_plan_forest(os);
        assert(ps[0] == spec_plan_obj(os[0]));
        assert(ps.drop_first() =~= spec_plan_forest(os.drop_first()));
        match os[0] {
            ObjectV::Container { children, .. } => {
                lemma_boxes_forest(children);
            },
            _ => {},
        }
        lemma_boxes_forest(os.drop_first());
    }
}


/// The build plan is a pure function of the scene forest: an unchanged
/// current tree plans identically on every repaint, so — the solver being
/// a pure function of plan and viewport — an unchanged tree and viewport
/// solve to identical geometry both times.
pub proof fn lemma_plan_deterministic(os1: Seq<ObjectV>, os2: Seq<ObjectV>)
    requires
        os1 == os2,
    ensures
        spec_build(os1) == spec_build(os2),
{
}

} // verus!
