//! The `completions` command: which shell to write a completion script for.
use vstd::prelude::*;

use crate::text::str_eq;

verus! {

/// A shell a completion script can be written for.
#[derive(Clone, Copy, Debug, PartialEq, Eq, Structural)]
pub enum Shell {
    Bash,
    Zsh,
    Fish,
}

/// Whether `value` names a shell.
pub open spec fn names_shell(value: Seq<char>) -> bool {
    value == "bash"@ || value == "zsh"@ || value == "fish"@
}

impl Shell {
    /// The shell `value` names: `bash`, `zsh` or `fish`.
    pub fn from_name(value: &str) -> (r: Shell)
        requires
            names_shell(value@),
        ensures
            value@ == "bash"@ ==> r == Shell::Bash,
            value@ == "zsh"@ ==> r == Shell::Zsh,
            value@ == "fish"@ ==> r == Shell::Fish,
    {
        proof {
            reveal_strlit("bash");
            reveal_strlit("zsh");
            reveal_strlit("fish");
            assert("bash"@.len() == 4 && "bash"@[0] == 'b');
            assert("zsh"@.len() == 3);
            assert("fish"@.len() == 4 && "fish"@[0] == 'f');
        }
        if str_eq(value, "bash") {
            Shell::Bash
        } else if str_eq(value, "zsh") {
            Shell::Zsh
        } else {
            Shell::Fish
        }
    }
}

/// The `completions` command.
pub struct Completions {
    pub shell: Shell,
}

} // verus!
