//! Decides whether handing a value on duplicates it or transfers ownership.

use vstd::prelude::*;

verus! {

/// The shape of a value, as far as ownership is concerned.
#[derive(Clone, Copy, Debug, PartialEq, Eq, Structural)]
pub enum ValueType {
    /// A fixed-width whole number.
    Integer,
    /// A fixed-width number with a fractional part.
    Fractional,
    /// A truth value.
    Boolean,
    /// A single character.
    Character,
    /// A growable text buffer on the heap.
    Text,
    /// A growable array of integers on the heap.
    IntegerList,
    /// A handle to a resource that must be released, such as an open file.
    Handle,
}

/// What happens to the source when a value is assigned or passed.
#[derive(Clone, Copy, Debug, PartialEq, Eq, Structural)]
pub enum Classification {
    /// The bit pattern is duplicated; the source stays usable.
    Copy,
    /// Ownership is transferred; the source becomes unusable.
    Move,
}

impl ValueType {
    /// True for the fixed-size primitive types, which hold no heap storage
    /// and no resource.
    pub open spec fn is_fixed_size_primitive(self) -> bool {
        self is Integer || self is Fractional || self is Boolean || self is Character
    }

    /// True for the types that keep their contents on the heap or hold a
    /// resource.
    pub open spec fn owns_storage(self) -> bool {
        self is Text || self is IntegerList || self is Handle
    }
}

/// The classification of a type: `Copy` exactly for the fixed-size
/// primitives, `Move` for everything that owns storage.
pub open spec fn classification_of(t: ValueType) -> Classification {
    if t.is_fixed_size_primitive() {
        Classification::Copy
    } else {
        Classification::Move
    }
}

/// Classifies a type as `Copy` or `Move`.
pub fn classify(t: ValueType) -> (c: Classification)
    ensures
        c == classification_of(t),
        (c is Copy) <==> t.is_fixed_size_primitive(),
        (c is Move) <==> t.owns_storage(),
{
    match t {
        ValueType::Integer => Classification::Copy,
        ValueType::Fractional => Classification::Copy,
        ValueType::Boolean => Classification::Copy,
        ValueType::Character => Classification::Copy,
        ValueType::Text => Classification::Move,
        ValueType::IntegerList => Classification::Move,
        ValueType::Handle => Classification::Move,
    }
}

} // verus!
