//! Layout constraints of the graphics API: boxes with five metrics each,
//! real-valued expressions over them, and propositions over expressions. What
//! stands here is which metric a property names and the check that an
//! expression refers only to boxes and metrics that exist, in the order the
//! solver's terms are built.

use vstd::prelude::*;

verus! {

/// A metric of a layout box.
#[derive(Debug, Clone, Copy, PartialEq, Eq, Structural)]
pub enum LayoutBoxProperty {
    Left,
    Top,
    Bottom,
    Right,
    Z,
}

/// The five metrics of a box.
#[derive(Debug, Clone)]
pub struct BoxMetrics<T> {
    pub left: T,
    pub right: T,
    pub top: T,
    pub bottom: T,
    pub z: T,
}

impl<T> BoxMetrics<T> {
    /// The metric that a property names.
    pub open spec fn spec_get(&self, prop: LayoutBoxProperty) -> T {
        match prop {
            LayoutBoxProperty::Bottom => self.bottom,
            LayoutBoxProperty::Left => self.left,
            LayoutBoxProperty::Right => self.right,
            LayoutBoxProperty::Top => self.top,
            LayoutBoxProperty::Z => self.z,
        }
    }

    /// The metric that a property names.
    pub fn get(&self, prop: LayoutBoxProperty) -> (res: &T)
        ensures
            *res == self.spec_get(prop),
    {
        match prop {
            LayoutBoxProperty::Bottom => &self.bottom,
            LayoutBoxProperty::Left => &self.left,
            LayoutBoxProperty::Right => &self.right,
            LayoutBoxProperty::Top => &self.top,
            LayoutBoxProperty::Z => &self.z,
        }
    }
}

/// A real-valued expression. A constant holds the fraction its number was
/// read as, or none when the number has no fraction of 32-bit parts.
pub enum Real {
    BoxProperty { id_index: u32, property: LayoutBoxProperty },
    Const { fraction: Option<(i32, i32)> },
    Add { left: Box<Real>, right: Box<Real> },
    Sub { left: Box<Real>, right: Box<Real> },
    Mul { left: Box<Real>, right: Box<Real> },
    Div { left: Box<Real>, right: Box<Real> },
    Select { cond: Box<Prop>, left: Box<Real>, right: Box<Real> },
    MetricRef { index: usize },
}

/// A proposition over expressions.
pub enum Prop {
    Eq { left: Box<Real>, right: Box<Real> },
    Lt { left: Box<Real>, right: Box<Real> },
    Le { left: Box<Real>, right: Box<Real> },
    Gt { left: Box<Real>, right: Box<Real> },
    Ge { left: Box<Real>, right: Box<Real> },
    Or { left: Box<Prop>, right: Box<Prop> },
    And { left: Box<Prop>, right: Box<Prop> },
    Not { value: Box<Prop> },
}

/// Why an expression cannot be built.
#[derive(Debug, Clone, Copy, PartialEq, Eq, Structural)]
pub enum LayoutError {
    /// A box index beyond the request's boxes.
    BoxIndexNotFound(u32),
    /// A constant with no fraction of 32-bit parts.
    InvalidRealConst,
    /// A metric index beyond the request's metrics.
    InvalidMetricRef(usize),
}

/// The first of two checks that fails, the left one first.
pub open spec fn first_of(a: Option<LayoutError>, b: Option<LayoutError>) -> Option<LayoutError> {
    match a {
        Some(e) => Some(e),
        None => b,
    }
}

/// The first problem of an expression, visiting operands left to right (a
/// selection's condition first), over `boxes` boxes and `metrics` metrics.
pub open spec fn real_error(r: Real, boxes: nat, metrics: nat) -> Option<LayoutError>
    decreases r,
{
    match r {
        Real::BoxProperty { id_index, .. } => if id_index < boxes {
            None
        } else {
            Some(LayoutError::BoxIndexNotFound(id_index))
        },
        Real::Const { fraction } => if fraction is Some {
            None
        } else {
            Some(LayoutError::InvalidRealConst)
        },
        Real::Add { left, right } => first_of(real_error(*left, boxes, metrics), real_error(*right, boxes, metrics)),
        Real::Sub { left, right } => first_of(real_error(*left, boxes, metrics), real_error(*right, boxes, metrics)),
        Real::Mul { left, right } => first_of(real_error(*left, boxes, metrics), real_error(*right, boxes, metrics)),
        Real::Div { left, right } => first_of(real_error(*left, boxes, metrics), real_error(*right, boxes, metrics)),
        Real::Select { cond, left, right } => first_of(
            prop_error(*cond, boxes, metrics),
            first_of(real_error(*left, boxes, metrics), real_error(*right, boxes, metrics)),
        ),
        Real::MetricRef { index } => if index < metrics {
            None
        } else {
            Some(LayoutError::InvalidMetricRef(index))
        },
    }
}

/// The first problem of a proposition, visiting operands left to right.
pub open spec fn prop_error(p: Prop, boxes: nat, metrics: nat) -> Option<LayoutError>
    decreases p,
{
    match p {
        Prop::Eq { left, right } => first_of(real_error(*left, boxes, metrics), real_error(*right, boxes, metrics)),
        Prop::Lt { left, right } => first_of(real_error(*left, boxes, metrics), real_error(*right, boxes, metrics)),
        Prop::Le { left, right } => first_of(real_error(*left, boxes, metrics), real_error(*right, boxes, metrics)),
        Prop::Gt { left, right } => first_of(real_error(*left, boxes, metrics), real_error(*right, boxes, metrics)),
        Prop::Ge { left, right } => first_of(real_error(*left, boxes, metrics), real_error(*right, boxes, metrics)),
        Prop::Or { left, right } => first_of(prop_error(*left, boxes, metrics), prop_error(*right, boxes, metrics)),
        Prop::And { left, right } => first_of(prop_error(*left, boxes, metrics), prop_error(*right, boxes, metrics)),
        Prop::Not { value } => prop_error(*value, boxes, metrics),
    }
}

/// The view of a check's outcome.
pub open spec fn outcome(e: Option<LayoutError>) -> Result<(), LayoutError> {
    match e {
        Some(x) => Err(x),
        None => Ok(()),
    }
}

/// Checks that an expression refers only to existing boxes and metrics and
/// has only constants with a fraction; the error is the first problem met.
pub fn check_real(r: &Real, boxes: usize, metrics: usize) -> (res: Result<(), LayoutError>)
    ensures
        res == outcome(real_error(*r, boxes as nat, metrics as nat)),
    decreases r,
{
    match r {
        Real::BoxProperty { id_index, .. } => {
            if (*id_index as usize) < boxes {
                Ok(())
            } else {
                Err(LayoutError::BoxIndexNotFound(*id_index))
            }
        },
        Real::Const { fraction } => {
            if fraction.is_some() {
                Ok(())
            } else {
                Err(LayoutError::InvalidRealConst)
            }
        },
        Real::Add { left, right } => {
            let a = check_real(left, boxes, metrics);
            if a.is_err() {
                return a;
            }
            check_real(right, boxes, metrics)
        },
        Real::Sub { left, right } => {
            let a = check_real(left, boxes, metrics);
            if a.is_err() {
                return a;
            }
            check_real(right, boxes, metrics)
        },
        Real::Mul { left, right } => {
            let a = check_real(left, boxes, metrics);
            if a.is_err() {
                return a;
            }
            check_real(right, boxes, metrics)
        },
        Real::Div { left, right } => {
            let a = check_real(left, boxes, metrics);
            if a.is_err() {
                return a;
            }
            check_real(right, boxes, metrics)
        },
        Real::Select { cond, left, right } => {
            let c = check_prop(cond, boxes, metrics);
            if c.is_err() {
                return c;
            }
            let a = check_real(left, boxes, metrics);
            if a.is_err() {
                return a;
            }
            check_real(right, boxes, metrics)
        },
        Real::MetricRef { index } => {
            if *index < metrics {
                Ok(())
            } else {
                Err(LayoutError::InvalidMetricRef(*index))
            }
        },
    }
}

/// Checks a proposition as `check_real` checks an expression.
pub fn check_prop(p: &Prop, boxes: usize, metrics: usize) -> (res: Result<(), LayoutError>)
    ensures
        res == outcome(prop_error(*p, boxes as nat, metrics as nat)),
    decreases p,
{
    match p {
        Prop::Eq { left, right } | Prop::Lt { left, right } | Prop::Le { left, right } | Prop::Gt { left, right }
        | Prop::Ge { left, right } => {
            let a = check_real(left, boxes, metrics);
            if a.is_err() {
                return a;
            }
            check_real(right, boxes, metrics)
        },
        Prop::Or { left, right } | Prop::And { left, right } => {
            let a = check_prop(left, boxes, metrics);
            if a.is_err() {
                return a;
            }
            check_prop(right, boxes, metrics)
        },
        Prop::Not { value } => check_prop(value, boxes, metrics),
    }
}

/// How the solver takes a constraint: a weight of zero makes it hard, any
/// other weight makes it soft with that weight.
#[derive(Debug, Clone, Copy, PartialEq, Eq, Structural)]
pub enum ConstraintKind {
    Hard,
    Soft(u32),
}

/// How the solver takes a constraint of the given weight.
pub fn constraint_kind(weight: u32) -> (res: ConstraintKind)
    ensures
        weight == 0 ==> res == ConstraintKind::Hard,
        weight != 0 ==> res == ConstraintKind::Soft(weight),
{
    if weight == 0 {
        ConstraintKind::Hard
    } else {
        ConstraintKind::Soft(weight)
    }
}

} // verus!
