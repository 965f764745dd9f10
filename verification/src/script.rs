//! A scripted prompt service: every interaction is answered from a fixed
//! list of replies, in order. It is the library's own, fully verified,
//! implementation of [`PromptService`]; tests drive compositions through it
//! and observe how many interactions took place.

use vstd::prelude::*;

verus! {

use crate::leaf::{leaf_value_of_text, LeafKind, LeafValue, leaf_view};
use crate::service::{Call, labels_view, Outcome, PromptError, PromptService};
use vstd::string::StringExecFns;

/// One scripted reply: free text, a confirmation, a menu choice, or a
/// refusal that stands for a failed interaction.
#[derive(Debug)]
pub enum Reply {
    Text(String),
    Confirmed(bool),
    Chosen(usize),
    Refused,
}

/// A prompt service whose answers come from a script. The n-th question
/// (input, confirmation or selection; section headers ask nothing) is
/// answered by the n-th script entry; a question past the end of the script,
/// a reply of the wrong shape, an unacceptable text, or an out-of-range
/// choice all fail that interaction.
pub struct ScriptedPrompts {
    replies: Vec<Reply>,
    calls: usize,
    next: usize,
    history: Ghost<Seq<Call>>,
}

impl ScriptedPrompts {
    /// The interaction counter tracks the log's length, saturating at
    /// `usize::MAX`.
    #[verifier::type_invariant]
    closed spec fn counter_tracks_log(self) -> bool {
        self.calls as nat == self.history@.len() || (self.calls == usize::MAX
            && self.history@.len() >= usize::MAX as nat)
    }

    pub fn new(replies: Vec<Reply>) -> (r: Self)
        ensures
            r.log() == Seq::<Call>::empty(),
    {
        ScriptedPrompts { replies, calls: 0, next: 0, history: Ghost(Seq::empty()) }
    }

    /// How many interactions have been made on this service: the length of
    /// its call log, saturating at `usize::MAX`.
    pub fn calls_made(&self) -> (n: usize)
        ensures
            n as nat == self.log().len() || (n == usize::MAX && self.log().len()
                >= usize::MAX as nat),
    {
        proof {
            use_type_invariant(&*self);
        }
        self.calls
    }

    /// Append one entry to the log and advance the interaction counter; a
    /// question also moves on to the next scripted reply.
    fn log_call(&mut self, Ghost(entry): Ghost<Call>, answered: bool)
        ensures
            final(self).history@ == old(self).history@.push(entry),
            final(self).replies == old(self).replies,
    {
        proof {
            use_type_invariant(&*self);
        }
        let new_calls: usize = if self.calls < usize::MAX {
            self.calls + 1
        } else {
            self.calls
        };
        let new_next: usize = if answered && self.next < usize::MAX {
            self.next + 1
        } else {
            self.next
        };
        let ghost new_hist = self.history@.push(entry);
        let mut replies: Vec<Reply> = Vec::new();
        std::mem::swap(&mut self.replies, &mut replies);
        *self = ScriptedPrompts {
            replies,
            calls: new_calls,
            next: new_next,
            history: Ghost(new_hist),
        };
    }

    fn refusal() -> PromptError {
        PromptError { message: String::from_str("the script has no fitting reply") }
    }
}

impl PromptService for ScriptedPrompts {
    closed spec fn log(&self) -> Seq<Call> {
        self.history@
    }

    fn section(&mut self, text: &str) {
        self.log_call(Ghost(Call::Section { text: text@ }), false);
    }

    fn input(&mut self, prompt: &str, kind: LeafKind) -> (r: Result<LeafValue, PromptError>) {
        let idx = self.next;
        let out: Result<LeafValue, PromptError> = if idx < self.replies.len() {
            match &self.replies[idx] {
                Reply::Text(s) => match leaf_value_of_text(kind, s.clone()) {
                    Some(v) => Ok(v),
                    None => Err(Self::refusal()),
                },
                _ => Err(Self::refusal()),
            }
        } else {
            Err(Self::refusal())
        };
        let ghost entry = match &out {
            Ok(v) => Call::Input {
                prompt: prompt@,
                kind,
                outcome: Outcome::Answered(leaf_view(*v)),
            },
            Err(e) => Call::Input { prompt: prompt@, kind, outcome: Outcome::Failed(e.message@) },
        };
        self.log_call(Ghost(entry), true);
        out
    }

    fn confirm(&mut self, prompt: &str) -> (r: Result<bool, PromptError>) {
        let idx = self.next;
        let out: Result<bool, PromptError> = if idx < self.replies.len() {
            match &self.replies[idx] {
                Reply::Confirmed(b) => Ok(*b),
                _ => Err(Self::refusal()),
            }
        } else {
            Err(Self::refusal())
        };
        let ghost entry = match &out {
            Ok(b) => Call::Confirm { prompt: prompt@, outcome: Outcome::Answered(*b) },
            Err(e) => Call::Confirm { prompt: prompt@, outcome: Outcome::Failed(e.message@) },
        };
        self.log_call(Ghost(entry), true);
        out
    }

    fn select(&mut self, prompt: &str, options: &Vec<String>, preselect: usize) -> (r: Result<
        usize,
        PromptError,
    >) {
        let idx = self.next;
        let out: Result<usize, PromptError> = if idx < self.replies.len() {
            match &self.replies[idx] {
                Reply::Chosen(ix) => {
                    if *ix < options.len() {
                        Ok(*ix)
                    } else {
                        Err(Self::refusal())
                    }
                },
                _ => Err(Self::refusal()),
            }
        } else {
            Err(Self::refusal())
        };
        let ghost entry = match &out {
            Ok(i) => Call::Select {
                prompt: prompt@,
                options: labels_view(options@),
                preselect: preselect as int,
                outcome: Outcome::Answered(*i as int),
            },
            Err(e) => Call::Select {
                prompt: prompt@,
                options: labels_view(options@),
                preselect: preselect as int,
                outcome: Outcome::Failed(e.message@),
            },
        };
        self.log_call(Ghost(entry), true);
        out
    }
}

} // verus!
