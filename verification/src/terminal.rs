//! The interactive prompt service, backed by the `dialoguer` crate: free
//! text, confirmations and selection menus on the terminal. Only the thin
//! wrappers that make the `dialoguer` calls are trusted; the type-directed
//! validation of free text is the library's own verified code, handed to
//! `dialoguer` as the input validator.

use std::io::Write;
use vstd::prelude::*;

verus! {

use crate::leaf::{leaf_text_ok, leaf_value_of_text, LeafKind, LeafValue, leaf_view};
use crate::service::{Call, labels_view, Outcome, PromptError, PromptService};

/// Relies on `writeln` to print a record's section header on stdout.
#[verifier::external_body]
fn term_section(text: &str) {
    let _ = writeln!(std::io::stdout(), "{}", text);
}

/// Relies on `dialoguer::Input::interact_text`: with a validator attached it
/// hands back only text the validator accepted, and loops otherwise; the
/// validator here is the library's own `leaf_text_allowed` for `kind`.
#[verifier::external_body]
fn term_input(prompt: &str, kind: LeafKind) -> (r: Result<String, PromptError>)
    requires
        !(kind is Bool),
    ensures
        r matches Ok(s) ==> leaf_text_ok(kind, s@),
{
    let res = dialoguer::Input::<String>::with_theme(&dialoguer::theme::ColorfulTheme::default())
        .with_prompt(prompt)
        .validate_with(|s: &String| -> Result<(), &'static str> {
            if crate::leaf::leaf_text_allowed(kind, s.as_str()) {
                Ok(())
            } else {
                Err("the value does not parse for the requested kind")
            }
        })
        .interact_text();
    res.map_err(|e| PromptError { message: e.to_string() })
}

/// Relies on `dialoguer::Confirm::interact` for a yes/no answer.
#[verifier::external_body]
fn term_confirm(prompt: &str) -> (r: Result<bool, PromptError>) {
    let res = dialoguer::Confirm::with_theme(&dialoguer::theme::ColorfulTheme::default())
        .with_prompt(prompt)
        .interact();
    res.map_err(|e| PromptError { message: e.to_string() })
}

/// Relies on `dialoguer::Select::interact`: with a nonempty item list and an
/// in-range preselected index, the selection moves over the items modulo
/// their number, so a returned index lies within the list.
#[verifier::external_body]
fn term_select(prompt: &str, options: &Vec<String>, preselect: usize) -> (r: Result<
    usize,
    PromptError,
>)
    requires
        options@.len() > 0,
        preselect < options@.len(),
    ensures
        r matches Ok(i) ==> i < options@.len(),
{
    let res = dialoguer::Select::with_theme(&dialoguer::theme::ColorfulTheme::default())
        .with_prompt(prompt)
        .default(preselect)
        .items(options.as_slice())
        .interact();
    res.map_err(|e| PromptError { message: e.to_string() })
}

/// The terminal-backed prompt service.
pub struct TerminalPrompts {
    history: Ghost<Seq<Call>>,
}

impl TerminalPrompts {
    pub fn new() -> (r: Self)
        ensures
            r.log() == Seq::<Call>::empty(),
    {
        TerminalPrompts { history: Ghost(Seq::empty()) }
    }
}

impl PromptService for TerminalPrompts {
    closed spec fn log(&self) -> Seq<Call> {
        self.history@
    }

    fn section(&mut self, text: &str) {
        term_section(text);
        self.history = Ghost(self.history@.push((Call::Section { text: text@ })));
    }

    fn input(&mut self, prompt: &str, kind: LeafKind) -> (r: Result<LeafValue, PromptError>) {
        let out: Result<LeafValue, PromptError> = match term_input(prompt, kind) {
            Err(e) => Err(e),
            Ok(s) => match leaf_value_of_text(kind, s) {
                Some(v) => Ok(v),
                None => {
                    proof {
                        assert(false);
                    }
                    Err(PromptError { message: String::new() })
                },
            },
        };
        let ghost entry = match &out {
            Ok(v) => Call::Input {
                prompt: prompt@,
                kind,
                outcome: Outcome::Answered(leaf_view(*v)),
            },
            Err(e) => Call::Input { prompt: prompt@, kind, outcome: Outcome::Failed(e.message@) },
        };
        self.history = Ghost(self.history@.push(entry));
        out
    }

    fn confirm(&mut self, prompt: &str) -> (r: Result<bool, PromptError>) {
        let out = term_confirm(prompt);
        let ghost entry = match &out {
            Ok(b) => Call::Confirm { prompt: prompt@, outcome: Outcome::Answered(*b) },
            Err(e) => Call::Confirm { prompt: prompt@, outcome: Outcome::Failed(e.message@) },
        };
        self.history = Ghost(self.history@.push(entry));
        out
    }

    fn select(&mut self, prompt: &str, options: &Vec<String>, preselect: usize) -> (r: Result<
        usize,
        PromptError,
    >) {
        let out = term_select(prompt, options, preselect);
        let ghost entry = match &out {
            Ok(i) => Call::Select {
                prompt: prompt@,
                options: labels_view(options@),
                preselect: preselect as int,
                outcome: Outcome::Answered(*i as int),
            },
            Err(e) => Call::Select {
                prompt: prompt@,
                options: labels_view(options@),
                preselect: preselect as int,
                outcome: Outcome::Failed(e.message@),
            },
        };
        self.history = Ghost(self.history@.push(entry));
        out
    }
}

} // verus!
