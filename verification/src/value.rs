//! Typed route values: what the parser produces and the builder consumes.
//! A route value names a variant of its table, carries one optional slot
//! per declared field, and, for a nesting variant, the nested table's own
//! value.

use vstd::prelude::*;
use crate::model::{FieldSpec, RouteTable, ValueTy};
use crate::strutil::dec_digits;

verus! {

/// One field's runtime value.
#[derive(Debug, Clone)]
pub enum FieldValue {
    /// An unsigned integer, rendered in decimal.
    UInt(u64),
    /// Free text, rendered as itself.
    Text(String),
}

/// The mathematical shape of a field value.
pub enum FieldValV {
    UInt(u64),
    Text(Seq<char>),
}

impl View for FieldValue {
    type V = FieldValV;

    open spec fn view(&self) -> FieldValV {
        match self {
            FieldValue::UInt(n) => FieldValV::UInt(*n),
            FieldValue::Text(s) => FieldValV::Text(s@),
        }
    }
}

impl FieldValV {
    /// Whether the value belongs to the given semantic category.
    pub open spec fn has_ty(self, ty: ValueTy) -> bool {
        match self {
            FieldValV::UInt(_) => ty is UInt,
            FieldValV::Text(_) => ty is Text,
        }
    }

    /// The canonical string rendering of the value.
    pub open spec fn render(self) -> Seq<char> {
        match self {
            FieldValV::UInt(n) => dec_digits(n as nat),
            FieldValV::Text(s) => s,
        }
    }
}

/// One concrete navigable location: a variant of its route table, the
/// values of that variant's fields (absent optionals are `None`), and the
/// nested value of a nesting variant.
#[derive(Debug)]
pub struct RouteValue {
    pub variant: usize,
    pub slots: Vec<Option<FieldValue>>,
    pub nested: Option<Box<RouteValue>>,
}

/// The mathematical shape of a route value.
pub struct RouteValView {
    pub variant: int,
    pub slots: Seq<Option<FieldValV>>,
    pub nested: Option<Box<RouteValView>>,
}

/// The views of a vector of field slots.
pub open spec fn slot_views(s: Seq<Option<FieldValue>>) -> Seq<Option<FieldValV>> {
    s.map_values(
        |x: Option<FieldValue>|
            match x {
                Some(v) => Some(v@),
                None => None,
            },
    )
}

/// The view of a route value, nested values included.
pub open spec fn val_view(v: RouteValue) -> RouteValView
    decreases v,
{
    RouteValView {
        variant: v.variant as int,
        slots: slot_views(v.slots@),
        nested: match v.nested {
            Some(b) => Some(Box::new(val_view(*b))),
            None => None,
        },
    }
}

impl View for RouteValue {
    type V = RouteValView;

    open spec fn view(&self) -> RouteValView {
        val_view(*self)
    }
}

/// Whether one slot fits its field: a value of the field's category, or
/// absent only when the field is optional.
pub open spec fn slot_wf(f: FieldSpec, s: Option<FieldValV>) -> bool {
    match s {
        Some(x) => x.has_ty(f.ty),
        None => f.optional,
    }
}

/// Whether a route value conforms to its table: the variant exists, there
/// is one well-typed slot per field, and a nested value is present exactly
/// on nesting variants and conforms to the nested table.
pub open spec fn value_wf(t: RouteTable, v: RouteValView) -> bool
    decreases v,
{
    &&& 0 <= v.variant < t.variants@.len()
    &&& {
        let vs = t.variants@[v.variant];
        &&& v.slots.len() == vs.fields@.len()
        &&& forall|k: int|
            0 <= k < v.slots.len() ==> slot_wf(vs.fields@[k], #[trigger] v.slots[k])
        &&& if vs.kind.is_nesting() {
            v.nested is Some && value_wf(vs.kind.nested_table(), *v.nested->Some_0)
        } else {
            v.nested is None
        }
    }
}

} // verus!
