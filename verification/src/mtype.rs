//! The closed set of primitive types of the block language.

use vstd::prelude::*;

verus! {

/// A primitive type of the language, carrying its size in bytes.
/// Values are immutable and compared structurally.
#[derive(Debug, Clone, Copy, PartialEq, Eq, Structural)]
pub enum Type {
    I32(usize),
    F32(usize),
    Char(usize),
}

impl Type {
    /// The keyword this type is written as in source text.
    pub open spec fn spec_name(self) -> Seq<char> {
        match self {
            Type::I32(_) => "i32"@,
            Type::F32(_) => "f32"@,
            Type::Char(_) => "char"@,
        }
    }

    /// The 32-bit integer type; 4 bytes wide.
    pub fn new_i32() -> (t: Type)
        ensures
            t == Type::I32(4usize),
    {
        Type::I32(4)
    }

    /// The 32-bit floating-point type; 4 bytes wide.
    pub fn new_f32() -> (t: Type)
        ensures
            t == Type::F32(4usize),
    {
        Type::F32(4)
    }

    /// The character type; 1 byte wide.
    pub fn new_char() -> (t: Type)
        ensures
            t == Type::Char(1usize),
    {
        Type::Char(1)
    }

    /// The type's keyword, for rendering resolved uses.
    pub fn name(&self) -> (r: &'static str)
        ensures
            r@ == self.spec_name(),
    {
        match self {
            Type::I32(_) => "i32",
            Type::F32(_) => "f32",
            Type::Char(_) => "char",
        }
    }
}

} // verus!
