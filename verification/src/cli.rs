//! The settings of a run: which files to scan and the credential to file
//! issues with.

use crate::pattern::{is_pattern, match_all, pattern_text};
use glob::Pattern;
use vstd::prelude::*;
use vstd::string::*;

verus! {

/// The settings of a run.
pub struct Args {
    pattern: Pattern,
    token: String,
}

/// The text of the pattern that a run scans with: the one asked for where it
/// is a pattern, and the one that matches every path where none was asked for
/// or what was asked for is no pattern.
pub open spec fn chosen_pattern(asked: Option<Seq<char>>) -> Seq<char> {
    match asked {
        Some(text) if is_pattern(text) => text,
        _ => match_all(),
    }
}

impl Args {
    /// The text of the pattern that narrows the scan.
    pub closed spec fn pattern(&self) -> Seq<char> {
        pattern_text(self.pattern)
    }

    /// The credential.
    pub closed spec fn token(&self) -> Seq<char> {
        self.token@
    }

    /// The credential.
    pub fn get_token(&self) -> (token: String)
        ensures
            token@ == self.token(),
    {
        self.token.clone()
    }

    /// The pattern that narrows the scan.
    pub fn get_pattern(&self) -> (pattern: &Pattern)
        ensures
            pattern_text(*pattern) == self.pattern(),
    {
        &self.pattern
    }
}

/// Settles the settings of a run from what was asked for on the command
/// line and the credential.
pub fn init(pattern: Option<&str>, token: String) -> (args: Args)
    ensures
        args.pattern() == chosen_pattern(
            match pattern {
                Some(text) => Some(text@),
                None => None,
            },
        ),
        args.token() == token@,
{
    proof {
        reveal_strlit("*");
    }
    assert("*"@ =~= match_all());
    let asked: &str = match pattern {
        Some(text) => text,
        None => "*",
    };
    match Pattern::new(asked) {
        Ok(compiled) => Args { pattern: compiled, token },
        Err(_) => {
            let all = Pattern::new("*");
            Args { pattern: all.unwrap(), token }
        },
    }
}

} // verus!
