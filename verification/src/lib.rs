//! Interactive composition of structured values.
//!
//! A type's shape is described by a [`schema::TypeSchema`]: a record of named
//! fields, a sum of named variants, or a primitive leaf. From such a schema the
//! library drives a recursive wizard: every field or chosen variant payload is
//! composed in turn by prompting through a [`service::PromptService`], and the
//! answers are assembled into a [`compose::Value`].

pub mod annotation;
pub mod compose;
pub mod leaf;
pub mod schema;
pub mod script;
pub mod service;
pub mod terminal;
pub mod text;

use vstd::prelude::*;

verus! {

use crate::leaf::{LeafKind, LeafV, LeafValue};
use crate::service::{Call, Outcome, PromptError, PromptService};

/// The uniform composition capability for leaf types: a value is built by a
/// single interaction through the prompt service. A boolean is asked as a
/// confirmation; text and numbers as type-directed free-text input. A
/// service failure is returned unchanged: the error in the result is the
/// very error the one logged call failed with.
pub trait Dialogue<P: PromptService>: Sized {
    /// The one call this type's composer makes for `prompt`, given that the
    /// composition returned `r`.
    spec fn call_of(prompt: Seq<char>, r: Result<Self, PromptError>) -> Call;

    fn compose(prompt: &str, p: &mut P) -> (r: Result<Self, PromptError>)
        ensures
            final(p).log() == old(p).log().push(Self::call_of(prompt@, r)),
    ;
}

impl<P: PromptService> Dialogue<P> for bool {
    open spec fn call_of(prompt: Seq<char>, r: Result<bool, PromptError>) -> Call {
        match r {
            Ok(b) => Call::Confirm { prompt, outcome: Outcome::Answered(b) },
            Err(e) => Call::Confirm { prompt, outcome: Outcome::Failed(e.message@) },
        }
    }

    fn compose(prompt: &str, p: &mut P) -> (r: Result<bool, PromptError>) {
        p.confirm(prompt)
    }
}

impl<P: PromptService> Dialogue<P> for String {
    open spec fn call_of(prompt: Seq<char>, r: Result<String, PromptError>) -> Call {
        match r {
            Ok(s) => Call::Input {
                prompt,
                kind: LeafKind::Text,
                outcome: Outcome::Answered(LeafV::Text(s@)),
            },
            Err(e) => Call::Input {
                prompt,
                kind: LeafKind::Text,
                outcome: Outcome::Failed(e.message@),
            },
        }
    }

    fn compose(prompt: &str, p: &mut P) -> (r: Result<String, PromptError>) {
        match p.input(prompt, LeafKind::Text) {
            Ok(v) => match v {
                LeafValue::Text(s) => Ok(s),
                _ => {
                    proof {
                        assert(false);
                    }
                    Err(PromptError { message: String::new() })
                },
            },
            Err(e) => Err(e),
        }
    }
}

impl<P: PromptService> Dialogue<P> for i8 {
    open spec fn call_of(prompt: Seq<char>, r: Result<i8, PromptError>) -> Call {
        match r {
            Ok(n) => Call::Input {
                prompt,
                kind: LeafKind::I8,
                outcome: Outcome::Answered(LeafV::Int(n as int)),
            },
            Err(e) => Call::Input {
                prompt,
                kind: LeafKind::I8,
                outcome: Outcome::Failed(e.message@),
            },
        }
    }

    fn compose(prompt: &str, p: &mut P) -> (r: Result<i8, PromptError>) {
        match p.input(prompt, LeafKind::I8) {
            Ok(v) => match v {
                LeafValue::Int(n) => Ok(n as i8),
                _ => {
                    proof {
                        assert(false);
                    }
                    Err(PromptError { message: String::new() })
                },
            },
            Err(e) => Err(e),
        }
    }
}

impl<P: PromptService> Dialogue<P> for i16 {
    open spec fn call_of(prompt: Seq<char>, r: Result<i16, PromptError>) -> Call {
        match r {
            Ok(n) => Call::Input {
                prompt,
                kind: LeafKind::I16,
                outcome: Outcome::Answered(LeafV::Int(n as int)),
            },
            Err(e) => Call::Input {
                prompt,
                kind: LeafKind::I16,
                outcome: Outcome::Failed(e.message@),
            },
        }
    }

    fn compose(prompt: &str, p: &mut P) -> (r: Result<i16, PromptError>) {
        match p.input(prompt, LeafKind::I16) {
            Ok(v) => match v {
                LeafValue::Int(n) => Ok(n as i16),
                _ => {
                    proof {
                        assert(false);
                    }
                    Err(PromptError { message: String::new() })
                },
            },
            Err(e) => Err(e),
        }
    }
}

impl<P: PromptService> Dialogue<P> for i32 {
    open spec fn call_of(prompt: Seq<char>, r: Result<i32, PromptError>) -> Call {
        match r {
            Ok(n) => Call::Input {
                prompt,
                kind: LeafKind::I32,
                outcome: Outcome::Answered(LeafV::Int(n as int)),
            },
            Err(e) => Call::Input {
                prompt,
                kind: LeafKind::I32,
                outcome: Outcome::Failed(e.message@),
            },
        }
    }

    fn compose(prompt: &str, p: &mut P) -> (r: Result<i32, PromptError>) {
        match p.input(prompt, LeafKind::I32) {
            Ok(v) => match v {
                LeafValue::Int(n) => Ok(n as i32),
                _ => {
                    proof {
                        assert(false);
                    }
                    Err(PromptError { message: String::new() })
                },
            },
            Err(e) => Err(e),
        }
    }
}

impl<P: PromptService> Dialogue<P> for i64 {
    open spec fn call_of(prompt: Seq<char>, r: Result<i64, PromptError>) -> Call {
        match r {
            Ok(n) => Call::Input {
                prompt,
                kind: LeafKind::I64,
                outcome: Outcome::Answered(LeafV::Int(n as int)),
            },
            Err(e) => Call::Input {
                prompt,
                kind: LeafKind::I64,
                outcome: Outcome::Failed(e.message@),
            },
        }
    }

    fn compose(prompt: &str, p: &mut P) -> (r: Result<i64, PromptError>) {
        match p.input(prompt, LeafKind::I64) {
            Ok(v) => match v {
                LeafValue::Int(n) => Ok(n as i64),
                _ => {
                    proof {
                        assert(false);
                    }
                    Err(PromptError { message: String::new() })
                },
            },
            Err(e) => Err(e),
        }
    }
}

impl<P: PromptService> Dialogue<P> for u8 {
    open spec fn call_of(prompt: Seq<char>, r: Result<u8, PromptError>) -> Call {
        match r {
            Ok(n) => Call::Input {
                prompt,
                kind: LeafKind::U8,
                outcome: Outcome::Answered(LeafV::Int(n as int)),
            },
            Err(e) => Call::Input {
                prompt,
                kind: LeafKind::U8,
                outcome: Outcome::Failed(e.message@),
            },
        }
    }

    fn compose(prompt: &str, p: &mut P) -> (r: Result<u8, PromptError>) {
        match p.input(prompt, LeafKind::U8) {
            Ok(v) => match v {
                LeafValue::Int(n) => Ok(n as u8),
                _ => {
                    proof {
                        assert(false);
                    }
                    Err(PromptError { message: String::new() })
                },
            },
            Err(e) => Err(e),
        }
    }
}

impl<P: PromptService> Dialogue<P> for u16 {
    open spec fn call_of(prompt: Seq<char>, r: Result<u16, PromptError>) -> Call {
        match r {
            Ok(n) => Call::Input {
                prompt,
                kind: LeafKind::U16,
                outcome: Outcome::Answered(LeafV::Int(n as int)),
            },
            Err(e) => Call::Input {
                prompt,
                kind: LeafKind::U16,
                outcome: Outcome::Failed(e.message@),
            },
        }
    }

    fn compose(prompt: &str, p: &mut P) -> (r: Result<u16, PromptError>) {
        match p.input(prompt, LeafKind::U16) {
            Ok(v) => match v {
                LeafValue::Int(n) => Ok(n as u16),
                _ => {
                    proof {
                        assert(false);
                    }
                    Err(PromptError { message: String::new() })
                },
            },
            Err(e) => Err(e),
        }
    }
}

impl<P: PromptService> Dialogue<P> for u32 {
    open spec fn call_of(prompt: Seq<char>, r: Result<u32, PromptError>) -> Call {
        match r {
            Ok(n) => Call::Input {
                prompt,
                kind: LeafKind::U32,
                outcome: Outcome::Answered(LeafV::Int(n as int)),
            },
            Err(e) => Call::Input {
                prompt,
                kind: LeafKind::U32,
                outcome: Outcome::Failed(e.message@),
            },
        }
    }

    fn compose(prompt: &str, p: &mut P) -> (r: Result<u32, PromptError>) {
        match p.input(prompt, LeafKind::U32) {
            Ok(v) => match v {
                LeafValue::Int(n) => Ok(n as u32),
                _ => {
                    proof {
                        assert(false);
                    }
                    Err(PromptError { message: String::new() })
                },
            },
            Err(e) => Err(e),
        }
    }
}

impl<P: PromptService> Dialogue<P> for u64 {
    open spec fn call_of(prompt: Seq<char>, r: Result<u64, PromptError>) -> Call {
        match r {
            Ok(n) => Call::Input {
                prompt,
                kind: LeafKind::U64,
                outcome: Outcome::Answered(LeafV::Int(n as int)),
            },
            Err(e) => Call::Input {
                prompt,
                kind: LeafKind::U64,
                outcome: Outcome::Failed(e.message@),
            },
        }
    }

    fn compose(prompt: &str, p: &mut P) -> (r: Result<u64, PromptError>) {
        match p.input(prompt, LeafKind::U64) {
            Ok(v) => match v {
                LeafValue::Int(n) => Ok(n as u64),
                _ => {
                    proof {
                        assert(false);
                    }
                    Err(PromptError { message: String::new() })
                },
            },
            Err(e) => Err(e),
        }
    }
}

impl<P: PromptService> Dialogue<P> for usize {
    open spec fn call_of(prompt: Seq<char>, r: Result<usize, PromptError>) -> Call {
        match r {
            Ok(n) => Call::Input {
                prompt,
                kind: LeafKind::Usize,
                outcome: Outcome::Answered(LeafV::Int(n as int)),
            },
            Err(e) => Call::Input {
                prompt,
                kind: LeafKind::Usize,
                outcome: Outcome::Failed(e.message@),
            },
        }
    }

    fn compose(prompt: &str, p: &mut P) -> (r: Result<usize, PromptError>) {
        match p.input(prompt, LeafKind::Usize) {
            Ok(v) => match v {
                LeafValue::Int(n) => Ok(n as usize),
                _ => {
                    proof {
                        assert(false);
                    }
                    Err(PromptError { message: String::new() })
                },
            },
            Err(e) => Err(e),
        }
    }
}

impl<P: PromptService> Dialogue<P> for isize {
    open spec fn call_of(prompt: Seq<char>, r: Result<isize, PromptError>) -> Call {
        match r {
            Ok(n) => Call::Input {
                prompt,
                kind: LeafKind::Isize,
                outcome: Outcome::Answered(LeafV::Int(n as int)),
            },
            Err(e) => Call::Input {
                prompt,
                kind: LeafKind::Isize,
                outcome: Outcome::Failed(e.message@),
            },
        }
    }

    fn compose(prompt: &str, p: &mut P) -> (r: Result<isize, PromptError>) {
        match p.input(prompt, LeafKind::Isize) {
            Ok(v) => match v {
                LeafValue::Int(n) => Ok(n as isize),
                _ => {
                    proof {
                        assert(false);
                    }
                    Err(PromptError { message: String::new() })
                },
            },
            Err(e) => Err(e),
        }
    }
}

} // verus!
