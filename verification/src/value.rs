//! Run-time values and the integer model of binary64 comparison.
use core::cmp::Ordering;
use vstd::prelude::*;

verus! {

/// The sign bit of a binary64 pattern.
pub const SIGN_BIT: u64 = 0x8000_0000_0000_0000;

/// The pattern of positive infinity; every larger magnitude is a NaN.
pub const INFINITY_BITS: u64 = 0x7FF0_0000_0000_0000;

/// The pattern of the number one.
pub const ONE_BITS: u64 = 0x3FF0_0000_0000_0000;

/// The pattern with its sign bit cleared.
pub open spec fn magnitude(bits: u64) -> int {
    if bits >= SIGN_BIT {
        bits - SIGN_BIT
    } else {
        bits as int
    }
}

/// Whether the pattern is a NaN.
pub open spec fn is_nan(bits: u64) -> bool {
    magnitude(bits) > INFINITY_BITS
}

/// The place of a pattern that is no NaN in the order of the numbers: the
/// magnitude, negated under a sign bit.  Both zeros have place 0.
pub open spec fn ordinal(bits: u64) -> int {
    if bits >= SIGN_BIT {
        -magnitude(bits)
    } else {
        magnitude(bits)
    }
}

/// Numeric equality of two patterns: a NaN equals nothing, the two zeros
/// equal each other.
pub open spec fn float_eq(a: u64, b: u64) -> bool {
    !is_nan(a) && !is_nan(b) && ordinal(a) == ordinal(b)
}

/// Numeric "less than" of two patterns; false when either is a NaN.
pub open spec fn float_lt(a: u64, b: u64) -> bool {
    !is_nan(a) && !is_nan(b) && ordinal(a) < ordinal(b)
}

/// A run-time value.  `Float` holds the bit pattern of a binary64 number.
#[derive(Debug, Clone, Copy)]
pub enum Value {
    Nil,
    Boolean(bool),
    Float(u64),
}

/// Executable form of [`is_nan`].
pub fn bits_are_nan(bits: u64) -> (r: bool)
    ensures
        r == is_nan(bits),
{
    if bits >= SIGN_BIT {
        bits - SIGN_BIT > INFINITY_BITS
    } else {
        bits > INFINITY_BITS
    }
}

/// Executable form of [`ordinal`].
pub fn bits_ordinal(bits: u64) -> (r: i128)
    ensures
        r == ordinal(bits),
{
    if bits >= SIGN_BIT {
        let m: u64 = bits - SIGN_BIT;
        -(m as i128)
    } else {
        bits as i128
    }
}

/// Executable form of [`float_eq`].
pub fn bits_eq(a: u64, b: u64) -> (r: bool)
    ensures
        r == float_eq(a, b),
{
    !bits_are_nan(a) && !bits_are_nan(b) && bits_ordinal(a) == bits_ordinal(b)
}

/// Executable form of [`float_lt`].
pub fn bits_lt(a: u64, b: u64) -> (r: bool)
    ensures
        r == float_lt(a, b),
{
    !bits_are_nan(a) && !bits_are_nan(b) && bits_ordinal(a) < bits_ordinal(b)
}

impl Value {
    /// What counts as true: `Nil` never, a boolean by its value, and a
    /// number only when it equals one.
    pub open spec fn is_truthy(self) -> bool {
        match self {
            Value::Nil => false,
            Value::Boolean(b) => b,
            Value::Float(bits) => float_eq(bits, ONE_BITS),
        }
    }

    /// Whether the value counts as true in a condition.
    pub fn truthy(&self) -> (r: bool)
        ensures
            r == self.is_truthy(),
            self matches Value::Float(bits) ==> r == (bits == ONE_BITS),
    {
        match self {
            Value::Nil => false,
            Value::Boolean(b) => *b,
            Value::Float(bits) => *bits == ONE_BITS,
        }
    }

    /// Equality of values: the same variant with equal contents, numbers
    /// being compared as numbers.
    pub open spec fn same(self, other: Value) -> bool {
        match (self, other) {
            (Value::Nil, Value::Nil) => true,
            (Value::Boolean(a), Value::Boolean(b)) => a == b,
            (Value::Float(a), Value::Float(b)) => float_eq(a, b),
            _ => false,
        }
    }
}

impl PartialEq for Value {
    fn eq(&self, other: &Value) -> (r: bool) {
        match (*self, *other) {
            (Value::Nil, Value::Nil) => true,
            (Value::Boolean(a), Value::Boolean(b)) => a == b,
            (Value::Float(a), Value::Float(b)) => bits_eq(a, b),
            _ => false,
        }
    }
}

impl vstd::std_specs::cmp::PartialEqSpecImpl for Value {
    open spec fn obeys_eq_spec() -> bool {
        true
    }

    open spec fn eq_spec(&self, other: &Value) -> bool {
        self.same(*other)
    }
}

impl Value {
    /// How two values are ordered: `Nil` before every boolean, every
    /// boolean before every number, `false` before `true`, and numbers as
    /// numbers, a NaN being ordered with nothing.
    pub open spec fn order(self, other: Value) -> Option<Ordering> {
        match (self, other) {
            (Value::Nil, Value::Nil) => Some(Ordering::Equal),
            (Value::Nil, _) => Some(Ordering::Less),
            (Value::Boolean(_), Value::Nil) => Some(Ordering::Greater),
            (Value::Boolean(a), Value::Boolean(b)) => if a == b {
                Some(Ordering::Equal)
            } else if b {
                Some(Ordering::Less)
            } else {
                Some(Ordering::Greater)
            },
            (Value::Boolean(_), Value::Float(_)) => Some(Ordering::Less),
            (Value::Float(a), Value::Float(b)) => if float_lt(a, b) {
                Some(Ordering::Less)
            } else if float_eq(a, b) {
                Some(Ordering::Equal)
            } else if float_lt(b, a) {
                Some(Ordering::Greater)
            } else {
                None
            },
            (Value::Float(_), _) => Some(Ordering::Greater),
        }
    }
}

impl PartialOrd for Value {
    fn partial_cmp(&self, other: &Value) -> (r: Option<Ordering>) {
        match (*self, *other) {
            (Value::Nil, Value::Nil) => Some(Ordering::Equal),
            (Value::Nil, _) => Some(Ordering::Less),
            (Value::Boolean(_), Value::Nil) => Some(Ordering::Greater),
            (Value::Boolean(a), Value::Boolean(b)) => if a == b {
                Some(Ordering::Equal)
            } else if b {
                Some(Ordering::Less)
            } else {
                Some(Ordering::Greater)
            },
            (Value::Boolean(_), Value::Float(_)) => Some(Ordering::Less),
            (Value::Float(a), Value::Float(b)) => if bits_lt(a, b) {
                Some(Ordering::Less)
            } else if bits_eq(a, b) {
                Some(Ordering::Equal)
            } else if bits_lt(b, a) {
                Some(Ordering::Greater)
            } else {
                None
            },
            (Value::Float(_), _) => Some(Ordering::Greater),
        }
    }
}

impl vstd::std_specs::cmp::PartialOrdSpecImpl for Value {
    open spec fn obeys_partial_cmp_spec() -> bool {
        true
    }

    open spec fn partial_cmp_spec(&self, other: &Value) -> Option<Ordering> {
        self.order(*other)
    }
}

/// A number counts as true exactly if it is one: one is the only bit
/// pattern that is equal to one as a number, so neither zero, nor two, nor
/// a NaN, nor a neighbour of one counts as true.
pub proof fn law_only_one_is_truthy(bits: u64)
    ensures
        Value::Float(bits).is_truthy() <==> bits == ONE_BITS,
        float_eq(bits, ONE_BITS) <==> bits == ONE_BITS,
{
}

} // verus!
