//! The state-binding companion: each route variant owns a field of the
//! shared application state, named by the snake-case of the variant, and
//! a nesting variant additionally exposes its nested state and hands the
//! nested table its own contexts. This module derives the names and the
//! ordered plan of context registrations.

use vstd::prelude::*;
use vstd::string::StringExecFns;
use crate::model::{RouteTable, VariantSpec};
use crate::naming::{spec_to_snake_case, to_snake_case};

verus! {

/// One context registration, in the order the generated code performs
/// them.
#[derive(Debug)]
pub enum ProvideStep {
    /// Provide the state field of one variant.
    Field { name: String },
    /// Provide a nesting variant's nested-state field.
    SubState { name: String },
    /// Hand the nested table its own contexts, through the same field.
    Nested { name: String },
}

/// The mathematical shape of a registration.
pub enum ProvideStepView {
    Field { name: Seq<char> },
    SubState { name: Seq<char> },
    Nested { name: Seq<char> },
}

impl View for ProvideStep {
    type V = ProvideStepView;

    open spec fn view(&self) -> ProvideStepView {
        match self {
            ProvideStep::Field { name } => ProvideStepView::Field { name: name@ },
            ProvideStep::SubState { name } => ProvideStepView::SubState { name: name@ },
            ProvideStep::Nested { name } => ProvideStepView::Nested { name: name@ },
        }
    }
}

pub open spec fn step_views(s: Seq<ProvideStep>) -> Seq<ProvideStepView> {
    s.map_values(|x: ProvideStep| x@)
}

/// The state field a variant owns: its name in snake case.
pub open spec fn spec_state_field(v: VariantSpec) -> Seq<char> {
    spec_to_snake_case(v.name@)
}

/// The registrations of the variants from `i` on: every variant provides
/// its state field, and a nesting variant then provides its nested state
/// and recurses into the nested table by one further registration.
pub open spec fn spec_provide_plan(t: RouteTable, i: int) -> Seq<ProvideStepView>
    decreases t.variants@.len() - i,
{
    if i < 0 || i >= t.variants@.len() {
        Seq::<ProvideStepView>::empty()
    } else {
        let v = t.variants@[i];
        let n = spec_state_field(v);
        (if v.kind.is_nesting() {
            seq![
                ProvideStepView::Field { name: n },
                ProvideStepView::SubState { name: n },
                ProvideStepView::Nested { name: n },
            ]
        } else {
            seq![ProvideStepView::Field { name: n }]
        }) + spec_provide_plan(t, i + 1)
    }
}

/// The ordered plan of context registrations a table's expansion emits.
pub fn provide_plan(t: &RouteTable) -> (r: Vec<ProvideStep>)
    ensures
        step_views(r@) == spec_provide_plan(*t, 0),
{
    let mut r: Vec<ProvideStep> = Vec::new();
    let mut i: usize = 0;
    proof {
        assert(step_views(r@) =~= Seq::<ProvideStepView>::empty());
    }
    while i < t.variants.len()
        invariant
            i <= t.variants@.len(),
            step_views(r@) + spec_provide_plan(*t, i as int) == spec_provide_plan(*t, 0),
        decreases t.variants@.len() - i,
    {
        let v = &t.variants[i];
        let n = to_snake_case(v.name.as_str());
        let nesting = match &v.kind {
            crate::model::RouteKind::Parent { .. } => true,
            crate::model::RouteKind::ProtectedParent { .. } => true,
            crate::model::RouteKind::Leaf { .. } => false,
            crate::model::RouteKind::Protected { .. } => false,
            crate::model::RouteKind::Unrouted => false,
        };
        if nesting {
            r.push(ProvideStep::Field { name: n.clone() });
            r.push(ProvideStep::SubState { name: n.clone() });
            r.push(ProvideStep::Nested { name: n });
        } else {
            r.push(ProvideStep::Field { name: n });
        }
        i = i + 1;
        proof {
            assert(step_views(r@) + spec_provide_plan(*t, i as int) =~~= spec_provide_plan(
                *t,
                0,
            ));
        }
    }
    proof {
        assert(spec_provide_plan(*t, t.variants@.len() as int) =~= Seq::<ProvideStepView>::empty());
        assert(step_views(r@) =~~= spec_provide_plan(*t, 0));
    }
    r
}

/// The name of the state type a variant owns.
pub fn state_type_name(variant: &str) -> (r: String)
    ensures
        r@ == variant@ + "State"@,
{
    let mut s = String::new();
    s.append(variant);
    s.append("State");
    s
}

/// The name of the nested-state type of a nesting variant.
pub fn sub_state_type_name(variant: &str) -> (r: String)
    ensures
        r@ == variant@ + "SubState"@,
{
    let mut s = String::new();
    s.append(variant);
    s.append("SubState");
    s
}

} // verus!
