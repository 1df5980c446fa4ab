use vstd::prelude::*;

verus! {

/// Bit pattern of the IEEE-754 double `1.0`.
pub const ONE_BITS: u64 = 0x3ff0_0000_0000_0000;

/// Bit pattern of the IEEE-754 double `+0.0`.
pub const ZERO_BITS: u64 = 0;

/// Bit pattern of the quiet not-a-number that coercions produce.
pub const NAN_BITS: u64 = 0x7ff8_0000_0000_0000;

pub const EXPONENT_MASK: u64 = 0x7ff0_0000_0000_0000;

pub const FRACTION_MASK: u64 = 0x000f_ffff_ffff_ffff;

pub const MAGNITUDE_MASK: u64 = 0x7fff_ffff_ffff_ffff;

/// A number is held as the bit pattern of an IEEE-754 double: the library
/// never computes with floating point itself.
pub open spec fn is_nan(bits: u64) -> bool {
    bits & EXPONENT_MASK == EXPONENT_MASK && bits & FRACTION_MASK != 0
}

/// IEEE-754 equality of two doubles given by their bits: not-a-number equals
/// nothing, `+0` equals `-0`, otherwise the bit patterns agree.
pub open spec fn numbers_equal(a: u64, b: u64) -> bool {
    !is_nan(a) && !is_nan(b) && (a == b || (a & MAGNITUDE_MASK == 0 && b & MAGNITUDE_MASK == 0))
}

pub fn number_equals(a: u64, b: u64) -> (r: bool)
    ensures
        r == numbers_equal(a, b),
{
    let a_nan = a & EXPONENT_MASK == EXPONENT_MASK && a & FRACTION_MASK != 0;
    let b_nan = b & EXPONENT_MASK == EXPONENT_MASK && b & FRACTION_MASK != 0;
    !a_nan && !b_nan && (a == b || (a & MAGNITUDE_MASK == 0 && b & MAGNITUDE_MASK == 0))
}

pub open spec fn boolean_bits(b: bool) -> u64 {
    if b {
        ONE_BITS
    } else {
        ZERO_BITS
    }
}

/// The kind and payload of a runtime value.
///
/// A string carries, beside its text, its reading as a number (the bits of
/// the double that JavaScript's numeric-literal rules give for the text, or
/// not-a-number). The reading is a function of the text alone and is fixed
/// by whoever builds the string literal.
#[derive(Debug, PartialEq)]
#[allow(inconsistent_fields)]
pub enum JavascriptObjectKind {
    Undefined,
    Boolean { value: bool },
    Number { value: u64 },
    String { text: String, number: u64 },
}

/// Numeric coercion: numbers pass through, booleans give one or zero,
/// undefined gives not-a-number, strings give their numeric reading.
pub open spec fn number_of(v: JavascriptObjectKind) -> u64 {
    match v {
        JavascriptObjectKind::Undefined => NAN_BITS,
        JavascriptObjectKind::Boolean { value } => boolean_bits(value),
        JavascriptObjectKind::Number { value } => value,
        JavascriptObjectKind::String { number, .. } => number,
    }
}

/// Loose (`==`) equality. Values of one kind compare their data; a string
/// against a number, or a boolean against a number or a string, compare as
/// numbers; undefined equals only undefined.
pub open spec fn loosely_equal(a: JavascriptObjectKind, b: JavascriptObjectKind) -> bool {
    match (a, b) {
        (JavascriptObjectKind::Undefined, JavascriptObjectKind::Undefined) => true,
        (JavascriptObjectKind::Undefined, _) => false,
        (_, JavascriptObjectKind::Undefined) => false,
        (JavascriptObjectKind::Boolean { value: x }, JavascriptObjectKind::Boolean { value: y }) => x
            == y,
        (JavascriptObjectKind::String { text: x, .. }, JavascriptObjectKind::String { text: y, .. }) => x@
            == y@,
        _ => numbers_equal(number_of(a), number_of(b)),
    }
}

impl JavascriptObjectKind {
    pub fn duplicate(&self) -> (r: Self)
        ensures
            r == *self,
    {
        match self {
            JavascriptObjectKind::Undefined => JavascriptObjectKind::Undefined,
            JavascriptObjectKind::Boolean { value } => JavascriptObjectKind::Boolean { value: *value },
            JavascriptObjectKind::Number { value } => JavascriptObjectKind::Number { value: *value },
            JavascriptObjectKind::String { text, number } => JavascriptObjectKind::String {
                text: text.clone(),
                number: *number,
            },
        }
    }

    pub fn cast_to_number(&self) -> (r: u64)
        ensures
            r == number_of(*self),
    {
        match self {
            JavascriptObjectKind::Undefined => NAN_BITS,
            JavascriptObjectKind::Boolean { value } => if *value {
                ONE_BITS
            } else {
                ZERO_BITS
            },
            JavascriptObjectKind::Number { value } => *value,
            JavascriptObjectKind::String { number, .. } => *number,
        }
    }

    pub fn is_equal_to_non_strict(&self, other: &Self) -> (r: bool)
        ensures
            r == loosely_equal(*self, *other),
    {
        match (self, other) {
            (JavascriptObjectKind::Undefined, JavascriptObjectKind::Undefined) => true,
            (JavascriptObjectKind::Undefined, _) => false,
            (_, JavascriptObjectKind::Undefined) => false,
            (
                JavascriptObjectKind::Boolean { value: x },
                JavascriptObjectKind::Boolean { value: y },
            ) => *x == *y,
            (
                JavascriptObjectKind::String { text: x, .. },
                JavascriptObjectKind::String { text: y, .. },
            ) => x.eq(y),
            _ => number_equals(self.cast_to_number(), other.cast_to_number()),
        }
    }
}

/// A runtime object: a value with the identity it was given when allocated.
/// Values never change after allocation, so every holder of a handle sees
/// the same object.
#[derive(Debug, PartialEq)]
pub struct JavascriptObjectRef {
    pub id: u64,
    pub kind: JavascriptObjectKind,
}

impl JavascriptObjectRef {
    pub fn duplicate(&self) -> (r: Self)
        ensures
            r == *self,
    {
        JavascriptObjectRef { id: self.id, kind: self.kind.duplicate() }
    }
}

} // verus!
