use vstd::prelude::*;

use crate::task::{Task, TimeRecord};

verus! {

/// A type that can name itself in diagnostics, in the form of its full path.
pub trait TypeLabel {
    spec fn label() -> Seq<char>;

    fn type_label() -> (r: &'static str)
        ensures
            r@ == Self::label();
}

impl TypeLabel for i64 {
    open spec fn label() -> Seq<char> {
        "i64"@
    }

    fn type_label() -> (r: &'static str) {
        "i64"
    }
}

impl TypeLabel for u64 {
    open spec fn label() -> Seq<char> {
        "u64"@
    }

    fn type_label() -> (r: &'static str) {
        "u64"
    }
}

impl TypeLabel for u32 {
    open spec fn label() -> Seq<char> {
        "u32"@
    }

    fn type_label() -> (r: &'static str) {
        "u32"
    }
}

impl TypeLabel for u8 {
    open spec fn label() -> Seq<char> {
        "u8"@
    }

    fn type_label() -> (r: &'static str) {
        "u8"
    }
}

impl TypeLabel for u16 {
    open spec fn label() -> Seq<char> {
        "u16"@
    }

    fn type_label() -> (r: &'static str) {
        "u16"
    }
}

impl TypeLabel for usize {
    open spec fn label() -> Seq<char> {
        "usize"@
    }

    fn type_label() -> (r: &'static str) {
        "usize"
    }
}

impl TypeLabel for i8 {
    open spec fn label() -> Seq<char> {
        "i8"@
    }

    fn type_label() -> (r: &'static str) {
        "i8"
    }
}

impl TypeLabel for i16 {
    open spec fn label() -> Seq<char> {
        "i16"@
    }

    fn type_label() -> (r: &'static str) {
        "i16"
    }
}

impl TypeLabel for i32 {
    open spec fn label() -> Seq<char> {
        "i32"@
    }

    fn type_label() -> (r: &'static str) {
        "i32"
    }
}

impl TypeLabel for isize {
    open spec fn label() -> Seq<char> {
        "isize"@
    }

    fn type_label() -> (r: &'static str) {
        "isize"
    }
}

impl TypeLabel for char {
    open spec fn label() -> Seq<char> {
        "char"@
    }

    fn type_label() -> (r: &'static str) {
        "char"
    }
}

impl<'a> TypeLabel for &'a str {
    open spec fn label() -> Seq<char> {
        "&str"@
    }

    fn type_label() -> (r: &'static str) {
        "&str"
    }
}

impl TypeLabel for bool {
    open spec fn label() -> Seq<char> {
        "bool"@
    }

    fn type_label() -> (r: &'static str) {
        "bool"
    }
}

impl TypeLabel for String {
    open spec fn label() -> Seq<char> {
        "alloc::string::String"@
    }

    fn type_label() -> (r: &'static str) {
        "alloc::string::String"
    }
}

impl TypeLabel for TimeRecord {
    open spec fn label() -> Seq<char> {
        "netupi::task::TimeRecord"@
    }

    fn type_label() -> (r: &'static str) {
        "netupi::task::TimeRecord"
    }
}

impl TypeLabel for Task {
    open spec fn label() -> Seq<char> {
        "netupi::task::Task"@
    }

    fn type_label() -> (r: &'static str) {
        "netupi::task::Task"
    }
}

/// The name of the type of the argument, for diagnostics.
pub fn type_of<T: TypeLabel>(_value: T) -> (r: &'static str)
    ensures
        r@ == T::label(),
{
    T::type_label()
}

} // verus!
