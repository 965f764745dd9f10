//! Primitive leaf kinds and their composition policy: a boolean is asked as a
//! confirmation, text is accepted verbatim, and numeric kinds are asked as
//! free text that must parse for the kind. Floating-point leaves are carried
//! as their accepted text; the library never interprets them numerically.

use vstd::prelude::*;

verus! {

use crate::text::{is_float_text, spec_parse_int, check_float_text, parse_int_wide};

/// The primitive kinds a leaf schema can name.
#[derive(Clone, Copy, Debug, PartialEq, Eq, Structural)]
pub enum LeafKind {
    Bool,
    Text,
    I8,
    I16,
    I32,
    I64,
    U8,
    U16,
    U32,
    U64,
    Usize,
    Isize,
    F32,
    F64,
}

/// A composed leaf value. `Float` holds the accepted text of a
/// floating-point leaf.
#[derive(Debug)]
pub enum LeafValue {
    Bool(bool),
    Int(i128),
    Text(String),
    Float(String),
}

/// Mathematical view of a leaf value.
pub ghost enum LeafV {
    Bool(bool),
    Int(int),
    Text(Seq<char>),
    Float(Seq<char>),
}

pub open spec fn leaf_view(v: LeafValue) -> LeafV {
    match v {
        LeafValue::Bool(b) => LeafV::Bool(b),
        LeafValue::Int(n) => LeafV::Int(n as int),
        LeafValue::Text(s) => LeafV::Text(s@),
        LeafValue::Float(s) => LeafV::Float(s@),
    }
}

pub open spec fn is_int_kind(k: LeafKind) -> bool {
    match k {
        LeafKind::I8
        | LeafKind::I16
        | LeafKind::I32
        | LeafKind::I64
        | LeafKind::U8
        | LeafKind::U16
        | LeafKind::U32
        | LeafKind::U64
        | LeafKind::Usize
        | LeafKind::Isize => true,
        _ => false,
    }
}

pub open spec fn is_float_kind(k: LeafKind) -> bool {
    k is F32 || k is F64
}

/// Smallest value an integer kind admits.
pub open spec fn kind_min(k: LeafKind) -> int {
    match k {
        LeafKind::I8 => i8::MIN as int,
        LeafKind::I16 => i16::MIN as int,
        LeafKind::I32 => i32::MIN as int,
        LeafKind::I64 => i64::MIN as int,
        LeafKind::Isize => isize::MIN as int,
        _ => 0,
    }
}

/// Largest value an integer kind admits.
pub open spec fn kind_max(k: LeafKind) -> int {
    match k {
        LeafKind::I8 => i8::MAX as int,
        LeafKind::I16 => i16::MAX as int,
        LeafKind::I32 => i32::MAX as int,
        LeafKind::I64 => i64::MAX as int,
        LeafKind::U8 => u8::MAX as int,
        LeafKind::U16 => u16::MAX as int,
        LeafKind::U32 => u32::MAX as int,
        LeafKind::U64 => u64::MAX as int,
        LeafKind::Usize => usize::MAX as int,
        LeafKind::Isize => isize::MAX as int,
        _ => 0,
    }
}

/// Whether a leaf value is of the given kind.
pub open spec fn leaf_fits(k: LeafKind, v: LeafV) -> bool {
    match v {
        LeafV::Bool(_) => k is Bool,
        LeafV::Text(_) => k is Text,
        LeafV::Int(n) => is_int_kind(k) && kind_min(k) <= n <= kind_max(k),
        LeafV::Float(t) => is_float_kind(k) && is_float_text(t),
    }
}

/// Whether free text is acceptable input for a (non-boolean) leaf kind: any
/// text for `Text`, text that parses within range for an integer kind, and
/// decimal-shaped text for a floating-point kind.
pub open spec fn leaf_text_ok(k: LeafKind, s: Seq<char>) -> bool {
    if k is Text {
        true
    } else if is_int_kind(k) {
        spec_parse_int(s) matches Some(n) && kind_min(k) <= n <= kind_max(k)
    } else if is_float_kind(k) {
        is_float_text(s)
    } else {
        false
    }
}

/// The leaf value denoted by acceptable text.
pub open spec fn spec_leaf_of_text(k: LeafKind, s: Seq<char>) -> LeafV {
    if k is Text {
        LeafV::Text(s)
    } else if is_int_kind(k) {
        LeafV::Int(spec_parse_int(s)->0)
    } else {
        LeafV::Float(s)
    }
}

/// Bounds of an integer kind.
fn kind_bounds(k: LeafKind) -> (r: (i128, i128))
    requires
        is_int_kind(k),
    ensures
        r.0 as int == kind_min(k),
        r.1 as int == kind_max(k),
{
    match k {
        LeafKind::I8 => (i8::MIN as i128, i8::MAX as i128),
        LeafKind::I16 => (i16::MIN as i128, i16::MAX as i128),
        LeafKind::I32 => (i32::MIN as i128, i32::MAX as i128),
        LeafKind::I64 => (i64::MIN as i128, i64::MAX as i128),
        LeafKind::U8 => (0, u8::MAX as i128),
        LeafKind::U16 => (0, u16::MAX as i128),
        LeafKind::U32 => (0, u32::MAX as i128),
        LeafKind::U64 => (0, u64::MAX as i128),
        LeafKind::Usize => (0, usize::MAX as i128),
        _ => (isize::MIN as i128, isize::MAX as i128),
    }
}

/// Decide `leaf_text_ok` for free text.
pub fn leaf_text_allowed(k: LeafKind, s: &str) -> (r: bool)
    ensures
        r == leaf_text_ok(k, s@),
{
    match k {
        LeafKind::Bool => false,
        LeafKind::Text => true,
        LeafKind::F32 | LeafKind::F64 => check_float_text(s),
        _ => {
            let (lo, hi) = kind_bounds(k);
            match parse_int_wide(s) {
                None => {
                    proof {
                        if spec_parse_int(s@) is Some {
                            let n = spec_parse_int(s@)->0;
                            assert(!(i64::MIN as int <= n <= u64::MAX as int));
                            assert(kind_min(k) >= i64::MIN as int);
                            assert(kind_max(k) <= u64::MAX as int);
                        }
                    }
                    false
                },
                Some(n) => lo <= n && n <= hi,
            }
        },
    }
}

/// Convert accepted text into the leaf value of a (non-boolean) kind.
pub fn leaf_value_of_text(k: LeafKind, s: String) -> (r: Option<LeafValue>)
    requires
        !(k is Bool),
    ensures
        match r {
            Some(v) => leaf_text_ok(k, s@) && leaf_view(v) == spec_leaf_of_text(k, s@) && leaf_fits(
                k,
                leaf_view(v),
            ),
            None => !leaf_text_ok(k, s@),
        },
{
    match k {
        LeafKind::Text => Some(LeafValue::Text(s)),
        LeafKind::F32 | LeafKind::F64 => {
            if check_float_text(s.as_str()) {
                Some(LeafValue::Float(s))
            } else {
                None
            }
        },
        _ => {
            let (lo, hi) = kind_bounds(k);
            match parse_int_wide(s.as_str()) {
                None => {
                    proof {
                        if spec_parse_int(s@) is Some {
                            assert(kind_min(k) >= i64::MIN as int);
                            assert(kind_max(k) <= u64::MAX as int);
                        }
                    }
                    None
                },
                Some(n) => {
                    if lo <= n && n <= hi {
                        Some(LeafValue::Int(n))
                    } else {
                        None
                    }
                },
            }
        },
    }
}

} // verus!
