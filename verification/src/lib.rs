//! Guard: policy-as-code checks for structured data, and the commands around them. This library
//! holds what the commands compute; reading files and writing reports is left to the program
//! that drives it.
use vstd::prelude::*;

pub mod commands;
pub mod errors;
pub mod sorted;
pub mod text;

use crate::commands::parse_tree::ParseTree;
use crate::commands::rulegen::Rulegen;
use crate::commands::test::Test;
use crate::commands::validate::{OutputFormatType, ShowSummaryType, Validate};
use crate::errors::Error;
use crate::text::string_of;

verus! {

/// Something that builds a command, refusing settings that contradict each other.
pub trait CommandBuilder<T> {
    fn try_build(self) -> Result<T, Error>;
}

// ---------------------------------------------------------------------------------------------
// parse-tree
// ---------------------------------------------------------------------------------------------

/// A builder for the [`ParseTree`] command.
pub struct ParseTreeBuilder {
    rules: Option<String>,
    output: Option<String>,
    print_json: bool,
    print_yaml: bool,
}

/// The settings a [`ParseTreeBuilder`] holds.
pub struct ParseTreeSettings {
    pub rules: Option<String>,
    pub output: Option<String>,
    pub print_json: bool,
    pub print_yaml: bool,
}

impl View for ParseTreeBuilder {
    type V = ParseTreeSettings;

    closed spec fn view(&self) -> ParseTreeSettings {
        ParseTreeSettings {
            rules: self.rules,
            output: self.output,
            print_json: self.print_json,
            print_yaml: self.print_yaml,
        }
    }
}

/// The sentence for asking `parse-tree` for both formats.
pub open spec fn parse_tree_conflict_message() -> Seq<char> {
    "cannot construct a ParseTree command when both print_json and print_yaml are set to true"@
}

impl Default for ParseTreeBuilder {
    /// Nothing set.
    fn default() -> (r: Self)
        ensures
            r@ == (ParseTreeSettings { rules: None, output: None, print_json: false, print_yaml: false }),
    {
        ParseTreeBuilder { rules: None, output: None, print_json: false, print_yaml: false }
    }
}

impl CommandBuilder<ParseTree> for ParseTreeBuilder {
    /// The command, or an error when both formats are asked for.
    fn try_build(self) -> (r: Result<ParseTree, Error>)
        ensures
            self@.print_json && self@.print_yaml ==> (r matches Err(Error::IllegalArguments(m))
                && m@ == parse_tree_conflict_message()),
            !(self@.print_json && self@.print_yaml) ==> (r matches Ok(cmd) && cmd.rules
                == self@.rules && cmd.output == self@.output && cmd.print_json == self@.print_json
                && cmd.print_yaml == self@.print_yaml),
    {
        if self.print_json && self.print_yaml {
            return Err(
                Error::IllegalArguments(
                    string_of(
                        "cannot construct a ParseTree command when both print_json and print_yaml are set to true",
                    ),
                ),
            );
        }
        Ok(
            ParseTree {
                rules: self.rules,
                output: self.output,
                print_json: self.print_json,
                print_yaml: self.print_yaml,
            },
        )
    }
}

impl ParseTreeBuilder {
    /// The rules file to print the tree of.
    pub fn rules(self, rules: Option<String>) -> (r: Self)
        ensures
            r@ == (ParseTreeSettings { rules, ..self@ }),
    {
        let mut b = self;
        b.rules = rules;
        b
    }

    /// Where to write the tree.
    pub fn output(self, output: Option<String>) -> (r: Self)
        ensures
            r@ == (ParseTreeSettings { output, ..self@ }),
    {
        let mut b = self;
        b.output = output;
        b
    }

    /// Print the tree as JSON.
    pub fn print_json(self, arg: bool) -> (r: Self)
        ensures
            r@ == (ParseTreeSettings { print_json: arg, ..self@ }),
    {
        let mut b = self;
        b.print_json = arg;
        b
    }

    /// Print the tree as YAML.
    pub fn print_yaml(self, arg: bool) -> (r: Self)
        ensures
            r@ == (ParseTreeSettings { print_yaml: arg, ..self@ }),
    {
        let mut b = self;
        b.print_yaml = arg;
        b
    }
}

// ---------------------------------------------------------------------------------------------
// rulegen
// ---------------------------------------------------------------------------------------------

/// A builder for the [`Rulegen`] command.
pub struct RulegenBuilder {
    output: Option<String>,
    template: String,
}

/// The settings a [`RulegenBuilder`] holds.
pub struct RulegenSettings {
    pub output: Option<String>,
    pub template: String,
}

impl View for RulegenBuilder {
    type V = RulegenSettings;

    closed spec fn view(&self) -> RulegenSettings {
        RulegenSettings { output: self.output, template: self.template }
    }
}

impl Default for RulegenBuilder {
    /// No output file, and an empty template path.
    fn default() -> (r: Self)
        ensures
            r@.output is None,
            r@.template@ == Seq::<char>::empty(),
    {
        RulegenBuilder { output: None, template: String::new() }
    }
}

impl CommandBuilder<Rulegen> for RulegenBuilder {
    /// The command; nothing here can contradict anything else.
    fn try_build(self) -> (r: Result<Rulegen, Error>)
        ensures
            r matches Ok(cmd) && cmd.output == self@.output && cmd.template == self@.template,
    {
        Ok(Rulegen { output: self.output, template: self.template })
    }
}

impl RulegenBuilder {
    /// Where to write the generated rules.
    pub fn output(self, output: Option<String>) -> (r: Self)
        ensures
            r@ == (RulegenSettings { output, ..self@ }),
    {
        let mut b = self;
        b.output = output;
        b
    }

    /// The template to generate rules from.
    pub fn template(self, template: String) -> (r: Self)
        ensures
            r@ == (RulegenSettings { template, ..self@ }),
    {
        let mut b = self;
        b.template = template;
        b
    }
}

// ---------------------------------------------------------------------------------------------
// validate
// ---------------------------------------------------------------------------------------------

/// A builder for the [`Validate`] command.
pub struct ValidateBuilder {
    rules: Vec<String>,
    data: Vec<String>,
    input_params: Vec<String>,
    template_type: Option<String>,
    output_format: OutputFormatType,
    show_summary: Vec<ShowSummaryType>,
    alphabetical: bool,
    last_modified: bool,
    verbose: bool,
    print_json: bool,
    payload: bool,
    structured: bool,
}

/// The settings a [`ValidateBuilder`] holds.
pub struct ValidateSettings {
    pub rules: Vec<String>,
    pub data: Vec<String>,
    pub input_params: Vec<String>,
    pub template_type: Option<String>,
    pub output_format: OutputFormatType,
    pub show_summary: Vec<ShowSummaryType>,
    pub alphabetical: bool,
    pub last_modified: bool,
    pub verbose: bool,
    pub print_json: bool,
    pub payload: bool,
    pub structured: bool,
}

impl View for ValidateBuilder {
    type V = ValidateSettings;

    closed spec fn view(&self) -> ValidateSettings {
        ValidateSettings {
            rules: self.rules,
            data: self.data,
            input_params: self.input_params,
            template_type: self.template_type,
            output_format: self.output_format,
            show_summary: self.show_summary,
            alphabetical: self.alphabetical,
            last_modified: self.last_modified,
            verbose: self.verbose,
            print_json: self.print_json,
            payload: self.payload,
            structured: self.structured,
        }
    }
}

/// Why the settings `b` make no `validate` command, the first reason that applies; `None` when
/// they make one.
pub open spec fn validate_refusal(b: ValidateSettings) -> Option<Seq<char>> {
    if b.structured && b.output_format == OutputFormatType::SingleLineSummary {
        Some("single-line-summary is not able to be used when the `structured` flag is present"@)
    } else if b.structured && b.print_json {
        Some("unable to construct validate command when both structured and print_json are set to true"@)
    } else if b.structured && b.verbose {
        Some("unable to construct validate command when both structured and verbose are set to true"@)
    } else if b.structured && exists|i: int|
        0 <= i < b.show_summary@.len() && #[trigger] b.show_summary@[i] != ShowSummaryType::Off {
        Some("Cannot provide a summary-type other than `none` when the `structured` flag is present"@)
    } else if !b.structured && b.output_format == OutputFormatType::Junit {
        Some("the structured flag must be set when output is set to junit"@)
    } else if b.payload && (b.rules@.len() > 0 || b.data@.len() > 0) {
        Some("cannot construct a validate command payload conflicts with both data and rules arguments"@)
    } else if !b.payload && b.rules@.len() == 0 {
        Some("cannot construct a validate command: either payload must be set to true, or rules must not be empty"@)
    } else if b.last_modified && b.alphabetical {
        Some("cannot have both last modified, and alphabetical arguments set to true"@)
    } else {
        None
    }
}

impl Default for ValidateBuilder {
    /// Nothing to validate yet; single-line-summary output with a summary of failures.
    fn default() -> (r: Self)
        ensures
            r@.rules@.len() == 0,
            r@.data@.len() == 0,
            r@.input_params@.len() == 0,
            r@.template_type is None,
            r@.output_format == OutputFormatType::SingleLineSummary,
            r@.show_summary@ == seq![ShowSummaryType::Fail],
            !r@.alphabetical && !r@.last_modified && !r@.verbose && !r@.print_json,
            !r@.payload && !r@.structured,
    {
        let mut show_summary = Vec::new();
        show_summary.push(ShowSummaryType::Fail);
        ValidateBuilder {
            rules: Vec::new(),
            data: Vec::new(),
            input_params: Vec::new(),
            template_type: None,
            output_format: OutputFormatType::SingleLineSummary,
            show_summary,
            alphabetical: false,
            last_modified: false,
            verbose: false,
            print_json: false,
            payload: false,
            structured: false,
        }
    }
}

impl CommandBuilder<Validate> for ValidateBuilder {
    /// The command, or an error naming the first of the settings' contradictions.
    fn try_build(self) -> (r: Result<Validate, Error>)
        ensures
            validate_refusal(self@) matches Some(reason) ==> (r matches Err(
                Error::IllegalArguments(m),
            ) && m@ == reason),
            validate_refusal(self@) is None ==> (r matches Ok(cmd) && cmd.rules == self@.rules
                && cmd.data == self@.data && cmd.input_params == self@.input_params
                && cmd.template_type == self@.template_type && cmd.output_format
                == self@.output_format && cmd.show_summary == self@.show_summary
                && cmd.alphabetical == self@.alphabetical && cmd.last_modified
                == self@.last_modified && cmd.verbose == self@.verbose && cmd.print_json
                == self@.print_json && cmd.payload == self@.payload && cmd.structured
                == self@.structured),
    {
        if self.structured {
            if self.output_format == OutputFormatType::SingleLineSummary {
                return Err(Error::IllegalArguments(string_of(
                    "single-line-summary is not able to be used when the `structured` flag is present",
                )));
            }
            if self.print_json {
                return Err(Error::IllegalArguments(string_of(
                    "unable to construct validate command when both structured and print_json are set to true",
                )));
            }
            if self.verbose {
                return Err(Error::IllegalArguments(string_of(
                    "unable to construct validate command when both structured and verbose are set to true",
                )));
            }
            let mut i: usize = 0;
            while i < self.show_summary.len()
                invariant
                    i <= self.show_summary@.len(),
                    self.structured,
                    self.output_format != OutputFormatType::SingleLineSummary,
                    !self.print_json,
                    !self.verbose,
                    forall|k: int| 0 <= k < i ==> self.show_summary@[k] == ShowSummaryType::Off,
                decreases self.show_summary.len() - i,
            {
                if self.show_summary[i] != ShowSummaryType::Off {
                    assert(self@.show_summary@[i as int] != ShowSummaryType::Off);
                    return Err(Error::IllegalArguments(string_of(
                        "Cannot provide a summary-type other than `none` when the `structured` flag is present",
                    )));
                }
                i += 1;
            }
        } else if self.output_format == OutputFormatType::Junit {
            return Err(Error::IllegalArguments(string_of(
                "the structured flag must be set when output is set to junit",
            )));
        }
        if self.payload && (self.rules.len() > 0 || self.data.len() > 0) {
            return Err(Error::IllegalArguments(string_of(
                "cannot construct a validate command payload conflicts with both data and rules arguments",
            )));
        }
        if !self.payload && self.rules.len() == 0 {
            return Err(Error::IllegalArguments(string_of(
                "cannot construct a validate command: either payload must be set to true, or rules must not be empty",
            )));
        }
        if self.last_modified && self.alphabetical {
            return Err(Error::IllegalArguments(string_of(
                "cannot have both last modified, and alphabetical arguments set to true",
            )));
        }
        Ok(
            Validate {
                rules: self.rules,
                data: self.data,
                input_params: self.input_params,
                template_type: self.template_type,
                output_format: self.output_format,
                show_summary: self.show_summary,
                alphabetical: self.alphabetical,
                last_modified: self.last_modified,
                verbose: self.verbose,
                print_json: self.print_json,
                payload: self.payload,
                structured: self.structured,
            },
        )
    }
}

impl ValidateBuilder {
    /// Rules files, or directories of them; conflicts with `payload`.
    pub fn rules(self, rules: Vec<String>) -> (r: Self)
        ensures
            r@ == (ValidateSettings { rules, ..self@ }),
    {
        let mut b = self;
        b.rules = rules;
        b
    }

    /// Data files, or directories of them; conflicts with `payload`.
    pub fn data(self, data: Vec<String>) -> (r: Self)
        ensures
            r@ == (ValidateSettings { data, ..self@ }),
    {
        let mut b = self;
        b.data = data;
        b
    }

    /// Which rules the summary shows; only `none` goes with `structured`.
    pub fn show_summary(self, args: Vec<ShowSummaryType>) -> (r: Self)
        ensures
            r@ == (ValidateSettings { show_summary: args, ..self@ }),
    {
        let mut b = self;
        b.show_summary = args;
        b
    }

    /// Parameter files merged with each data file.
    pub fn input_params(self, input_params: Vec<String>) -> (r: Self)
        ensures
            r@ == (ValidateSettings { input_params, ..self@ }),
    {
        let mut b = self;
        b.input_params = input_params;
        b
    }

    /// The format of the report; `junit` needs `structured`.
    pub fn output_format(self, output: OutputFormatType) -> (r: Self)
        ensures
            r@ == (ValidateSettings { output_format: output, ..self@ }),
    {
        let mut b = self;
        b.output_format = output;
        b
    }

    /// Rules and data come as a JSON payload on the reader; conflicts with `rules` and `data`.
    pub fn payload(self, arg: bool) -> (r: Self)
        ensures
            r@ == (ValidateSettings { payload: arg, ..self@ }),
    {
        let mut b = self;
        b.payload = arg;
        b
    }

    /// Files in a directory in alphabetical order; conflicts with `last_modified`.
    pub fn alphabetical(self, arg: bool) -> (r: Self)
        ensures
            r@ == (ValidateSettings { alphabetical: arg, ..self@ }),
    {
        let mut b = self;
        b.alphabetical = arg;
        b
    }

    /// Files in a directory by last modification; conflicts with `alphabetical`.
    pub fn last_modified(self, arg: bool) -> (r: Self)
        ensures
            r@ == (ValidateSettings { last_modified: arg, ..self@ }),
    {
        let mut b = self;
        b.last_modified = arg;
        b
    }

    /// Verbose output; conflicts with `structured`.
    pub fn verbose(self, arg: bool) -> (r: Self)
        ensures
            r@ == (ValidateSettings { verbose: arg, ..self@ }),
    {
        let mut b = self;
        b.verbose = arg;
        b
    }

    /// Print the evaluation tree as JSON; conflicts with `structured`.
    pub fn print_json(self, arg: bool) -> (r: Self)
        ensures
            r@ == (ValidateSettings { print_json: arg, ..self@ }),
    {
        let mut b = self;
        b.print_json = arg;
        b
    }

    /// A structured report; conflicts with `verbose`, `print_json`, single-line-summary output and
    /// any summary but `none`.
    pub fn structured(self, arg: bool) -> (r: Self)
        ensures
            r@ == (ValidateSettings { structured: arg, ..self@ }),
    {
        let mut b = self;
        b.structured = arg;
        b
    }
}

// ---------------------------------------------------------------------------------------------
// test
// ---------------------------------------------------------------------------------------------

/// A builder for the [`Test`] command.
pub struct TestBuilder {
    rules: Option<String>,
    test_data: Option<String>,
    directory: Option<String>,
    alphabetical: bool,
    last_modified: bool,
    verbose: bool,
    output_format: OutputFormatType,
}

/// The settings a [`TestBuilder`] holds.
pub struct TestSettings {
    pub rules: Option<String>,
    pub test_data: Option<String>,
    pub directory: Option<String>,
    pub alphabetical: bool,
    pub last_modified: bool,
    pub verbose: bool,
    pub output_format: OutputFormatType,
}

impl View for TestBuilder {
    type V = TestSettings;

    closed spec fn view(&self) -> TestSettings {
        TestSettings {
            rules: self.rules,
            test_data: self.test_data,
            directory: self.directory,
            alphabetical: self.alphabetical,
            last_modified: self.last_modified,
            verbose: self.verbose,
            output_format: self.output_format,
        }
    }
}

/// Why the settings `b` make no `test` command, the first reason that applies; `None` when they
/// make one.
pub open spec fn test_refusal(b: TestSettings) -> Option<Seq<char>> {
    if b.last_modified && b.alphabetical {
        Some("unable to construct a test command: cannot have both last modified, and alphabetical arguments set to true"@)
    } else if b.directory is Some && b.rules is Some {
        Some("unable to construct a test command: cannot pass both a directory argument, and a rules argument"@)
    } else if b.output_format != OutputFormatType::SingleLineSummary && b.verbose {
        Some("Cannot provide an output_type of JSON, YAML, or JUnit while the verbose flag is set"@)
    } else if b.rules is None && b.test_data is None && b.directory is None {
        Some("unable to construct a test command: rules, test data and directory are all unset"@)
    } else {
        None
    }
}

impl Default for TestBuilder {
    /// Nothing set; single-line-summary output.
    fn default() -> (r: Self)
        ensures
            r@ == (TestSettings {
                rules: None,
                test_data: None,
                directory: None,
                alphabetical: false,
                last_modified: false,
                verbose: false,
                output_format: OutputFormatType::SingleLineSummary,
            }),
    {
        TestBuilder {
            rules: None,
            test_data: None,
            directory: None,
            alphabetical: false,
            last_modified: false,
            verbose: false,
            output_format: OutputFormatType::SingleLineSummary,
        }
    }
}

impl CommandBuilder<Test> for TestBuilder {
    /// The command, or an error naming the first of the settings' contradictions, or saying that
    /// nothing to test was given.
    fn try_build(self) -> (r: Result<Test, Error>)
        ensures
            test_refusal(self@) matches Some(reason) ==> (r matches Err(Error::IllegalArguments(m))
                && m@ == reason),
            test_refusal(self@) is None ==> (r matches Ok(cmd) && cmd.rules == self@.rules
                && cmd.test_data == self@.test_data && cmd.directory == self@.directory
                && cmd.alphabetical == self@.alphabetical && cmd.last_modified
                == self@.last_modified && cmd.verbose == self@.verbose && cmd.output_format
                == self@.output_format),
    {
        if self.last_modified && self.alphabetical {
            return Err(Error::IllegalArguments(string_of(
                "unable to construct a test command: cannot have both last modified, and alphabetical arguments set to true",
            )));
        }
        if self.directory.is_some() && self.rules.is_some() {
            return Err(Error::IllegalArguments(string_of(
                "unable to construct a test command: cannot pass both a directory argument, and a rules argument",
            )));
        }
        if self.output_format != OutputFormatType::SingleLineSummary && self.verbose {
            return Err(Error::IllegalArguments(string_of(
                "Cannot provide an output_type of JSON, YAML, or JUnit while the verbose flag is set",
            )));
        }
        if self.rules.is_none() && self.test_data.is_none() && self.directory.is_none() {
            return Err(Error::IllegalArguments(string_of(
                "unable to construct a test command: rules, test data and directory are all unset",
            )));
        }
        Ok(
            Test {
                rules: self.rules,
                test_data: self.test_data,
                directory: self.directory,
                alphabetical: self.alphabetical,
                last_modified: self.last_modified,
                verbose: self.verbose,
                output_format: self.output_format,
            },
        )
    }
}

impl TestBuilder {
    /// The rules file; conflicts with `directory`.
    pub fn rules(self, rules: Option<String>) -> (r: Self)
        ensures
            r@ == (TestSettings { rules, ..self@ }),
    {
        let mut b = self;
        b.rules = rules;
        b
    }

    /// The test file; conflicts with `directory`.
    pub fn test_data(self, test_data: Option<String>) -> (r: Self)
        ensures
            r@ == (TestSettings { test_data, ..self@ }),
    {
        let mut b = self;
        b.test_data = test_data;
        b
    }

    /// A directory of rules files with their tests; conflicts with `rules` and `test_data`.
    pub fn directory(self, directory: Option<String>) -> (r: Self)
        ensures
            r@ == (TestSettings { directory, ..self@ }),
    {
        let mut b = self;
        b.directory = directory;
        b
    }

    /// Files in a directory in alphabetical order; conflicts with `last_modified`.
    pub fn alphabetical(self, arg: bool) -> (r: Self)
        ensures
            r@ == (TestSettings { alphabetical: arg, ..self@ }),
    {
        let mut b = self;
        b.alphabetical = arg;
        b
    }

    /// Files in a directory by last modification; conflicts with `alphabetical`.
    pub fn last_modified(self, arg: bool) -> (r: Self)
        ensures
            r@ == (TestSettings { last_modified: arg, ..self@ }),
    {
        let mut b = self;
        b.last_modified = arg;
        b
    }

    /// Verbose output; only with single-line-summary output.
    pub fn verbose(self, arg: bool) -> (r: Self)
        ensures
            r@ == (TestSettings { verbose: arg, ..self@ }),
    {
        let mut b = self;
        b.verbose = arg;
        b
    }

    /// The format of the report; anything but single-line-summary conflicts with `verbose`.
    pub fn output_format(self, output: OutputFormatType) -> (r: Self)
        ensures
            r@ == (TestSettings { output_format: output, ..self@ }),
    {
        let mut b = self;
        b.output_format = output;
        b
    }
}

} // verus!
