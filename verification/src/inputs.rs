//! Configuration and pure decisions for asking a user questions.
//!
//! Reading answers is outside work; what stands here is the
//! configuration record and the rules that interpret an answer.

use vstd::prelude::*;
use vstd::string::*;

verus! {

/// Configuration for reading user input: preset answers and a retry
/// budget.
#[derive(Debug, Clone, Copy)]
pub struct Inputs {
    /// Always answer yes.
    pub yes: bool,
    /// Always answer no.
    pub no: bool,
    /// Number of retries.
    pub trys: u8,
}

impl Inputs {
    /// Creates a new configuration. A present `bools` presets the answer;
    /// an absent `trys` defaults to 3.
    pub fn new(bools: Option<bool>, trys: Option<u8>) -> (r: Inputs)
        ensures
            r.yes == (bools is Some),
            r.no == (bools == Some(false)),
            r.trys == (match trys {
                Some(t) => t,
                None => 3u8,
            }),
    {
        Inputs {
            yes: bools.is_some(),
            no: match bools {
                Some(b) => !b,
                None => false,
            },
            trys: match trys {
                Some(t) => t,
                None => 3,
            },
        }
    }

    /// The preset consent answer, if one was configured.
    pub fn preset_consent(&self) -> (r: Option<bool>)
        ensures
            self.yes || self.no ==> r == Some(self.yes),
            !self.yes && !self.no ==> r is None,
    {
        if self.yes || self.no {
            Some(self.yes)
        } else {
            None
        }
    }
}

/// Whether the answer means yes.
pub open spec fn is_yes_answer(s: Seq<char>) -> bool {
    s == "y"@ || s == "yes"@ || s == "j"@ || s == "ja"@
}

/// Whether the answer means no.
pub open spec fn is_no_answer(s: Seq<char>) -> bool {
    s == "n"@ || s == "no"@ || s == "nein"@
}

/// Interprets a typed consent answer: yes words give true, no words give
/// false, anything else gives nothing.
pub fn parse_consent(answer: &str) -> (r: Option<bool>)
    ensures
        r == (if is_yes_answer(answer@) {
            Some(true)
        } else if is_no_answer(answer@) {
            Some(false)
        } else {
            None::<bool>
        }),
{
    if str_eq(answer, "y") || str_eq(answer, "yes") || str_eq(answer, "j") || str_eq(
        answer,
        "ja",
    ) {
        Some(true)
    } else if str_eq(answer, "n") || str_eq(answer, "no") || str_eq(answer, "nein") {
        Some(false)
    } else {
        None
    }
}

/// Whether two strings hold the same characters.
pub fn str_eq(a: &str, b: &str) -> (r: bool)
    ensures
        r == (a@ == b@),
{
    let an = a.unicode_len();
    let bn = b.unicode_len();
    if an != bn {
        proof {
            assert(a@ != b@);
        }
        return false;
    }
    let mut i: usize = 0;
    while i < an
        invariant
            i <= an,
            an as int == a@.len(),
            bn as int == b@.len(),
            an == bn,
            forall|j: int| 0 <= j < i ==> a@[j] == b@[j],
        decreases an - i,
    {
        if a.get_char(i) != b.get_char(i) {
            proof {
                assert(a@[i as int] != b@[i as int]);
            }
            return false;
        }
        i += 1;
    }
    proof {
        assert(a@ =~= b@);
    }
    true
}

/// How much a command-line run is asked to print.
#[derive(Debug, Clone, Copy)]
pub struct OutputLevel {
    /// Print maximum info.
    pub debug: bool,
    /// Print more info.
    pub verbose: bool,
    /// Print slightly more info.
    pub warn: bool,
    /// Print almost no info.
    pub silent: bool,
}

/// The verbosity a logger is configured with.
#[derive(Debug, Clone, Copy, PartialEq, Eq, Structural)]
pub enum Verbosity {
    /// Only errors.
    Error,
    /// Errors and warnings.
    Warn,
    /// The normal amount.
    Info,
    /// Debugging output.
    Debug,
    /// Everything.
    Trace,
}

impl OutputLevel {
    /// The verbosity this configuration selects: silence wins, then
    /// verbose, then debug, then warn; the default is the normal amount.
    pub fn verbosity(&self) -> (r: Verbosity)
        ensures
            r == (if self.silent {
                Verbosity::Error
            } else if self.verbose {
                Verbosity::Trace
            } else if self.debug {
                Verbosity::Debug
            } else if self.warn {
                Verbosity::Warn
            } else {
                Verbosity::Info
            }),
    {
        if self.silent {
            Verbosity::Error
        } else if self.verbose {
            Verbosity::Trace
        } else if self.debug {
            Verbosity::Debug
        } else if self.warn {
            Verbosity::Warn
        } else {
            Verbosity::Info
        }
    }
}

} // verus!
