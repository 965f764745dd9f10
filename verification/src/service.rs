//! The prompt service: the single collaborator through which every
//! interaction runs. Its contract records each call, together with its
//! outcome, in a ghost log, so that a composer's whole conversation with the
//! user can be stated and proved as a sequence of calls. A failed call is
//! logged with the very error the service handed back, which lets composers
//! promise that failures reach their caller unchanged.

use vstd::prelude::*;

verus! {

use crate::leaf::{leaf_fits, leaf_view, LeafKind, LeafV, LeafValue};

/// A failure delivered by the prompt service: the interactive session ended
/// or refused the request. It propagates unchanged through every enclosing
/// composer.
#[derive(Debug)]
pub struct PromptError {
    pub message: String,
}

/// What a logged call came to: the answer handed back, or the message of the
/// `PromptError` the service returned for it.
pub ghost enum Outcome<T> {
    Answered(T),
    Failed(Seq<char>),
}

/// One logged interaction: what was asked, and what came of it.
pub ghost enum Call {
    Section { text: Seq<char> },
    Input { prompt: Seq<char>, kind: LeafKind, outcome: Outcome<LeafV> },
    Confirm { prompt: Seq<char>, outcome: Outcome<bool> },
    Select { prompt: Seq<char>, options: Seq<Seq<char>>, preselect: int, outcome: Outcome<int> },
}

/// View of a list of display labels.
pub open spec fn labels_view(v: Seq<String>) -> Seq<Seq<char>> {
    v.map_values(|s: String| s@)
}

/// Blocking interaction primitives. Every implementation keeps a ghost log
/// of the calls made on it, in order; each method appends exactly one entry,
/// and the entry of a failed call carries the returned error's message.
pub trait PromptService: Sized {
    spec fn log(&self) -> Seq<Call>;

    /// Print a section header line (used once ahead of a record's fields).
    fn section(&mut self, text: &str)
        ensures
            final(self).log() == old(self).log().push((Call::Section { text: text@ })),
    ;

    /// Ask for free text for a non-boolean leaf kind. The service performs
    /// the type-directed validation: a value is handed back only if it fits
    /// the kind.
    fn input(&mut self, prompt: &str, kind: LeafKind) -> (r: Result<LeafValue, PromptError>)
        requires
            !(kind is Bool),
        ensures
            match r {
                Ok(v) => leaf_fits(kind, leaf_view(v)) && final(self).log() == old(self).log().push(
                    (Call::Input {
                        prompt: prompt@,
                        kind,
                        outcome: Outcome::Answered(leaf_view(v)),
                    }),
                ),
                Err(e) => final(self).log() == old(self).log().push(
                    (Call::Input { prompt: prompt@, kind, outcome: Outcome::Failed(e.message@) }),
                ),
            },
    ;

    /// Ask a yes/no confirmation.
    fn confirm(&mut self, prompt: &str) -> (r: Result<bool, PromptError>)
        ensures
            match r {
                Ok(b) => final(self).log() == old(self).log().push(
                    (Call::Confirm { prompt: prompt@, outcome: Outcome::Answered(b) }),
                ),
                Err(e) => final(self).log() == old(self).log().push(
                    (Call::Confirm { prompt: prompt@, outcome: Outcome::Failed(e.message@) }),
                ),
            },
    ;

    /// Present a single-choice menu over `options` with `preselect` already
    /// highlighted. A returned index is always within the options.
    fn select(&mut self, prompt: &str, options: &Vec<String>, preselect: usize) -> (r: Result<
        usize,
        PromptError,
    >)
        requires
            options@.len() > 0,
            preselect < options@.len(),
        ensures
            match r {
                Ok(i) => i < options@.len() && final(self).log() == old(self).log().push(
                    (Call::Select {
                        prompt: prompt@,
                        options: labels_view(options@),
                        preselect: preselect as int,
                        outcome: Outcome::Answered(i as int),
                    }),
                ),
                Err(e) => final(self).log() == old(self).log().push(
                    (Call::Select {
                        prompt: prompt@,
                        options: labels_view(options@),
                        preselect: preselect as int,
                        outcome: Outcome::Failed(e.message@),
                    }),
                ),
            },
    ;
}

} // verus!
