//! The `parse-tree` command's settings, and the one decision it makes before printing.
use vstd::prelude::*;

use crate::errors::Error;
use crate::text::string_of;

verus! {

/// The `parse-tree` command: prints the parse tree of a rules file.
pub struct ParseTree {
    /// The rules file; the reader when `None`.
    pub rules: Option<String>,
    /// Where the tree goes; standard output when `None`.
    pub output: Option<String>,
    pub print_json: bool,
    pub print_yaml: bool,
}

/// The format `parse-tree` writes.
#[derive(Clone, Copy, Debug, PartialEq, Eq, Structural)]
pub enum ParseTreeFormat {
    Json,
    Yaml,
}

/// The sentence for asking for both formats.
pub open spec fn both_formats_message() -> Seq<char> {
    "Cannot provide both --print-json and --print-yaml; they name different formats"@
}

impl ParseTree {
    /// The format to write: JSON only when asked for alone, YAML otherwise, and an error when both
    /// are asked for.
    pub fn output_format(&self) -> (r: Result<ParseTreeFormat, Error>)
        ensures
            self.print_json && self.print_yaml ==> (r matches Err(Error::IllegalArguments(m))
                && m@ == both_formats_message()),
            self.print_json && !self.print_yaml ==> r == Ok::<ParseTreeFormat, Error>(
                ParseTreeFormat::Json,
            ),
            !self.print_json ==> r == Ok::<ParseTreeFormat, Error>(ParseTreeFormat::Yaml),
    {
        if self.print_json && self.print_yaml {
            Err(
                Error::IllegalArguments(
                    string_of(
                        "Cannot provide both --print-json and --print-yaml; they name different formats",
                    ),
                ),
            )
        } else if self.print_json {
            Ok(ParseTreeFormat::Json)
        } else {
            Ok(ParseTreeFormat::Yaml)
        }
    }
}

} // verus!
