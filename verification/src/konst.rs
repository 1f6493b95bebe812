//! Constant values for the VHDL scaffolding.
//!
//! A constant is an integer, a float, or a range of either; only the
//! integer side carries a modelled value. Floats are placeholders without
//! content here, as nothing in the core computes with them.

use vstd::prelude::*;

use crate::numeric::Num;

verus! {

/// Direction of a VHDL range.
#[derive(Debug, Clone, Copy, PartialEq, Eq, Structural)]
pub enum Dir {
    /// An ascending range.
    To,
    /// A descending range.
    Downto,
}

/// A constant value.
#[derive(Debug)]
pub enum Const {
    /// A constant integer.
    Int(ConstInt),
    /// A constant float.
    Float(ConstFloat),
    /// A constant integer range.
    IntRange(ConstIntRange),
    /// A constant float range.
    FloatRange(ConstFloatRange),
}

impl Const {
    /// The negated constant. Only plain integers and floats can be
    /// negated; ranges cannot.
    pub fn negate(&self) -> (r: Const)
        requires
            self is Int || self is Float,
            self matches Const::Int(c) ==> c.value.wf(),
        ensures
            match self {
                Const::Int(c) => r matches Const::Int(n) && n.value.wf() && n.value.spec_int()
                    == -c.value.spec_int(),
                Const::Float(_) => r == (Const::Float(ConstFloat {  })),
                _ => false,
            },
    {
        match self {
            Const::Int(c) => Const::Int(c.negate()),
            Const::Float(c) => Const::Float(c.negate()),
            _ => {
                proof {
                    assert(false);
                }
                Const::Float(ConstFloat {  })
            },
        }
    }

    /// A textual description of the kind of constant.
    pub fn kind_desc(&self) -> (r: &'static str)
        ensures
            r@ == (match self {
                Const::Int(_) => "integer"@,
                Const::Float(_) => "float"@,
                Const::IntRange(_) => "integer range"@,
                Const::FloatRange(_) => "float range"@,
            }),
    {
        match self {
            Const::Int(_) => "integer",
            Const::Float(_) => "float",
            Const::IntRange(_) => "integer range",
            Const::FloatRange(_) => "float range",
        }
    }
}

impl From<ConstInt> for Const {
    fn from(k: ConstInt) -> (r: Const) {
        Const::Int(k)
    }
}

impl vstd::std_specs::convert::FromSpecImpl<ConstInt> for Const {
    open spec fn obeys_from_spec() -> bool {
        true
    }

    open spec fn from_spec(k: ConstInt) -> Const {
        Const::Int(k)
    }
}

impl From<ConstFloat> for Const {
    fn from(k: ConstFloat) -> (r: Const) {
        Const::Float(k)
    }
}

impl vstd::std_specs::convert::FromSpecImpl<ConstFloat> for Const {
    open spec fn obeys_from_spec() -> bool {
        true
    }

    open spec fn from_spec(k: ConstFloat) -> Const {
        Const::Float(k)
    }
}

impl From<ConstIntRange> for Const {
    fn from(k: ConstIntRange) -> (r: Const) {
        Const::IntRange(k)
    }
}

impl vstd::std_specs::convert::FromSpecImpl<ConstIntRange> for Const {
    open spec fn obeys_from_spec() -> bool {
        true
    }

    open spec fn from_spec(k: ConstIntRange) -> Const {
        Const::IntRange(k)
    }
}

impl From<ConstFloatRange> for Const {
    fn from(k: ConstFloatRange) -> (r: Const) {
        Const::FloatRange(k)
    }
}

impl vstd::std_specs::convert::FromSpecImpl<ConstFloatRange> for Const {
    open spec fn obeys_from_spec() -> bool {
        true
    }

    open spec fn from_spec(k: ConstFloatRange) -> Const {
        Const::FloatRange(k)
    }
}

/// A constant integer value.
#[derive(Debug)]
pub struct ConstInt {
    /// The value.
    pub value: Num,
}

impl ConstInt {
    /// Create a new constant integer.
    pub fn new(value: Num) -> (r: ConstInt)
        ensures
            r.value == value,
    {
        ConstInt { value }
    }

    /// The negated constant integer.
    pub fn negate(&self) -> (r: ConstInt)
        ensures
            r.value.wf(),
            r.value.spec_int() == -self.value.spec_int(),
    {
        ConstInt::new(self.value.negate())
    }
}

/// A constant float value; floats carry no modelled content here.
#[derive(Debug, Clone, Copy, PartialEq, Eq, Structural)]
pub struct ConstFloat {}

impl ConstFloat {
    /// The negated constant float.
    pub fn negate(&self) -> (r: ConstFloat)
        ensures
            r == (ConstFloat {  }),
    {
        ConstFloat {  }
    }
}

/// A constant range value.
#[derive(Debug)]
pub struct ConstRange<T> {
    /// The range's direction.
    pub dir: Dir,
    /// The bound written first.
    pub left_bound: T,
    /// The bound written second.
    pub right_bound: T,
}

impl<T> ConstRange<T> {
    /// Create a new constant range.
    pub fn new(dir: Dir, left_bound: T, right_bound: T) -> (r: ConstRange<T>)
        ensures
            r.dir == dir,
            r.left_bound == left_bound,
            r.right_bound == right_bound,
    {
        ConstRange { dir, left_bound, right_bound }
    }
}

/// A range of constant integers.
pub type ConstIntRange = ConstRange<ConstInt>;

/// A range of constant floats.
pub type ConstFloatRange = ConstRange<ConstFloat>;

} // verus!
