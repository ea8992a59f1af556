//! The `test` command's settings, how its exit status accumulates over rules files, and which
//! rules file a test file belongs to.
use vstd::prelude::*;

use crate::commands::validate::OutputFormatType;
use crate::commands::{SUCCESS_STATUS_CODE, TEST_ERROR_STATUS_CODE, TEST_FAILURE_STATUS_CODE};
use crate::errors::Error;
use crate::text::{chars_of, push_str, string_of};

verus! {

/// The `test` command: runs rules against test files and compares the verdicts with the
/// expectations the test files hold.
pub struct Test {
    /// The rules file; conflicts with `directory`.
    pub rules: Option<String>,
    /// The test file; conflicts with `directory`.
    pub test_data: Option<String>,
    /// A directory of rules files, each with its test files in a `tests` directory beside it.
    pub directory: Option<String>,
    pub alphabetical: bool,
    pub last_modified: bool,
    pub verbose: bool,
    pub output_format: OutputFormatType,
}

/// The status so far, `exit_code`, combined with the status of one more rules file,
/// `test_code`: an error outweighs a failure, and a failure outweighs success.
pub open spec fn combined_exit_code(exit_code: i32, test_code: i32) -> i32 {
    if exit_code == SUCCESS_STATUS_CODE {
        test_code
    } else if exit_code == TEST_ERROR_STATUS_CODE {
        exit_code
    } else if test_code == TEST_ERROR_STATUS_CODE {
        TEST_ERROR_STATUS_CODE
    } else {
        TEST_FAILURE_STATUS_CODE
    }
}

/// The exit status after one more rules file. `exit_code` is one the test command produces.
pub fn get_exit_code(exit_code: i32, test_code: i32) -> (r: i32)
    requires
        exit_code == SUCCESS_STATUS_CODE || exit_code == TEST_ERROR_STATUS_CODE || exit_code
            == TEST_FAILURE_STATUS_CODE,
    ensures
        r == combined_exit_code(exit_code, test_code),
{
    if exit_code == SUCCESS_STATUS_CODE {
        test_code
    } else if exit_code == TEST_ERROR_STATUS_CODE {
        exit_code
    } else if test_code == TEST_ERROR_STATUS_CODE {
        TEST_ERROR_STATUS_CODE
    } else {
        TEST_FAILURE_STATUS_CODE
    }
}

/// How bad an exit status of the test command is: success, then a failed expectation, then an
/// error.
pub open spec fn severity(code: i32) -> int {
    if code == TEST_ERROR_STATUS_CODE {
        2
    } else if code == TEST_FAILURE_STATUS_CODE {
        1
    } else {
        0
    }
}

/// An exit status the test command gives.
pub open spec fn test_exit_code(code: i32) -> bool {
    code == SUCCESS_STATUS_CODE || code == TEST_ERROR_STATUS_CODE || code == TEST_FAILURE_STATUS_CODE
}

/// Over several rules files the exit status is the worst of theirs: combining two statuses the
/// command gives yields one of them, no better than either, and in either order the same.
pub proof fn law_exit_code_is_the_worst(exit_code: i32, test_code: i32)
    requires
        test_exit_code(exit_code),
        test_exit_code(test_code),
    ensures
        test_exit_code(combined_exit_code(exit_code, test_code)),
        severity(combined_exit_code(exit_code, test_code)) == if severity(exit_code) >= severity(
            test_code,
        ) {
            severity(exit_code)
        } else {
            severity(test_code)
        },
        combined_exit_code(exit_code, test_code) == combined_exit_code(test_code, exit_code),
{
}

/// `p` is a prefix of `s`.
pub open spec fn is_prefix(p: Seq<char>, s: Seq<char>) -> bool {
    p.len() <= s.len() && s.take(p.len() as int) == p
}

/// Whether `s` starts with `p` (`str::starts_with`).
pub fn starts_with(s: &str, p: &str) -> (r: bool)
    ensures
        r == is_prefix(p@, s@),
{
    let sc = chars_of(s);
    let pc = chars_of(p);
    if pc.len() > sc.len() {
        return false;
    }
    let mut i: usize = 0;
    while i < pc.len()
        invariant
            sc@ == s@,
            pc@ == p@,
            pc.len() <= sc.len(),
            i <= pc.len(),
            forall|k: int| 0 <= k < i ==> sc@[k] == pc@[k],
        decreases pc.len() - i,
    {
        if sc[i] != pc[i] {
            assert(s@.take(p@.len() as int)[i as int] != p@[i as int]);
            return false;
        }
        i += 1;
    }
    assert(s@.take(p@.len() as int) =~= p@);
    true
}

/// The rules file a test file named `name` belongs to, among the rules files beside its `tests`
/// directory, given by their names without extension in sort order: the one with the longest
/// name that `name` starts with, the first of them on a tie; `None` when `name` starts with none.
///
/// The longest, because a shorter stem is a prefix of a longer one: `s3_encryption_tests.yml`
/// belongs to `s3_encryption.guard`, not to `s3.guard`.
pub fn claiming_rules_file(prefixes: &Vec<String>, name: &str) -> (r: Option<usize>)
    ensures
        r is None <==> forall|m: int| 0 <= m < prefixes@.len() ==> !is_prefix(
            #[trigger] prefixes@[m]@,
            name@,
        ),
        r matches Some(k) ==> {
            &&& k < prefixes@.len()
            &&& is_prefix(prefixes@[k as int]@, name@)
            &&& forall|m: int|
                0 <= m < prefixes@.len() && is_prefix(#[trigger] prefixes@[m]@, name@) ==> {
                    &&& prefixes@[m]@.len() <= prefixes@[k as int]@.len()
                    &&& m < k ==> prefixes@[m]@.len() < prefixes@[k as int]@.len()
                }
        },
{
    let mut best: Option<usize> = None;
    let mut best_len: usize = 0;
    let mut m: usize = 0;
    while m < prefixes.len()
        invariant
            m <= prefixes@.len(),
            best is None <==> forall|j: int| 0 <= j < m ==> !is_prefix(
                #[trigger] prefixes@[j]@,
                name@,
            ),
            best matches Some(k) ==> {
                &&& k < m
                &&& is_prefix(prefixes@[k as int]@, name@)
                &&& best_len == prefixes@[k as int]@.len()
                &&& forall|j: int|
                    0 <= j < m && is_prefix(#[trigger] prefixes@[j]@, name@) ==> {
                        &&& prefixes@[j]@.len() <= prefixes@[k as int]@.len()
                        &&& j < k ==> prefixes@[j]@.len() < prefixes@[k as int]@.len()
                    }
            },
        decreases prefixes.len() - m,
    {
        if starts_with(name, prefixes[m].as_str()) {
            let len = chars_of(prefixes[m].as_str()).len();
            match best {
                None => {
                    best = Some(m);
                    best_len = len;
                },
                Some(_) => {
                    if len > best_len {
                        best = Some(m);
                        best_len = len;
                    }
                },
            }
        }
        m += 1;
    }
    best
}

/// `name` ends with `suffix` (`str::ends_with`).
pub open spec fn is_suffix(suffix: Seq<char>, name: Seq<char>) -> bool {
    suffix.len() <= name.len() && name.skip(name.len() - suffix.len()) == suffix
}

/// Whether `name` ends with `suffix`.
pub fn ends_with(name: &str, suffix: &str) -> (r: bool)
    ensures
        r == is_suffix(suffix@, name@),
{
    let nc = chars_of(name);
    let sc = chars_of(suffix);
    if sc.len() > nc.len() {
        return false;
    }
    let offset = nc.len() - sc.len();
    let mut i: usize = 0;
    while i < sc.len()
        invariant
            nc@ == name@,
            sc@ == suffix@,
            offset == nc.len() - sc.len(),
            sc.len() <= nc.len(),
            i <= sc.len(),
            forall|k: int| 0 <= k < i ==> nc@[offset + k] == sc@[k],
        decreases sc.len() - i,
    {
        if nc[offset + i] != sc[i] {
            assert(name@.skip(offset as int)[i as int] != suffix@[i as int]);
            return false;
        }
        i += 1;
    }
    assert(name@.skip(offset as int) =~= suffix@);
    true
}

/// A test file is YAML or JSON by its name.
pub open spec fn test_file_name(name: Seq<char>) -> bool {
    is_suffix(".yaml"@, name) || is_suffix(".yml"@, name) || is_suffix(".json"@, name)
        || is_suffix(".jsn"@, name)
}

/// Whether a file named `name` can hold test specifications.
pub fn is_test_file_name(name: &str) -> (r: bool)
    ensures
        r == test_file_name(name@),
{
    ends_with(name, ".yaml") || ends_with(name, ".yml") || ends_with(name, ".json") || ends_with(
        name,
        ".jsn",
    )
}

/// The name of a rules file without its extension, or `None` when `name` is not a rules file:
/// `.guard` is taken off first, then `.ruleset`.
pub open spec fn rules_file_stem(name: Seq<char>) -> Option<Seq<char>> {
    if is_suffix(".guard"@, name) {
        Some(name.take(name.len() - 6))
    } else if is_suffix(".ruleset"@, name) {
        Some(name.take(name.len() - 8))
    } else {
        None
    }
}

/// The name of a rules file without its extension, or `None` for a file that is not one.
pub fn rules_file_prefix(name: &str) -> (r: Option<String>)
    ensures
        match r {
            Some(p) => rules_file_stem(name@) == Some(p@),
            None => rules_file_stem(name@) is None,
        },
{
    proof {
        reveal_strlit(".guard");
        reveal_strlit(".ruleset");
    }
    let cs = chars_of(name);
    let keep: usize = if ends_with(name, ".guard") {
        cs.len() - 6
    } else if ends_with(name, ".ruleset") {
        cs.len() - 8
    } else {
        return None;
    };
    let mut out: Vec<char> = Vec::new();
    let mut i: usize = 0;
    while i < keep
        invariant
            cs@ == name@,
            keep <= cs.len(),
            i <= keep,
            out@ == name@.take(i as int),
        decreases keep - i,
    {
        out.push(cs[i]);
        assert(name@.take(i + 1) =~= name@.take(i as int).push(name@[i as int]));
        i += 1;
    }
    Some(crate::text::string_from_chars(&out))
}


// ---------------------------------------------------------------------------------------------
// What a run does
// ---------------------------------------------------------------------------------------------

/// The order files found under a directory are taken in.
#[derive(Clone, Copy, Debug, PartialEq, Eq, Structural)]
pub enum FileOrder {
    Alphabetical,
    LastModified,
    /// The order the directory walk finds them in.
    AsWalked,
}

/// What a `test` run does, once its settings are accepted.
pub enum TestRun {
    /// Each rules file under `directory`, against the test files in the `tests` directory beside
    /// it.
    Directory { directory: String, output_format: OutputFormatType },
    /// The rules file `rules` against the test files under `test_data`, taken in `order`.
    RulesFile { rules: String, test_data: String, order: FileOrder, output_format: OutputFormatType },
}

/// Why a `test` run with the settings `t` cannot start, if it cannot: a structured report with
/// verbose output, a SARIF report, or neither a directory nor both a rules file and test data.
pub open spec fn run_refusal(t: Test) -> Option<Seq<char>> {
    if t.output_format != OutputFormatType::SingleLineSummary && t.verbose {
        Some("Cannot provide an output_type of JSON, YAML, or JUnit while the verbose flag is set"@)
    } else if t.output_format == OutputFormatType::Sarif {
        Some("Cannot provide an output_type of SARIF, SARIF reporter is unsupported."@)
    } else if t.directory is None && (t.rules is None || t.test_data is None) {
        Some(
            "test requires both a rules file and a test data file: pass --rules-file and --test-data together, or --dir to walk a directory"@,
        )
    } else {
        None
    }
}

/// The order the settings `t` take files in: alphabetical before last modified.
pub open spec fn file_order(t: Test) -> FileOrder {
    if t.alphabetical {
        FileOrder::Alphabetical
    } else if t.last_modified {
        FileOrder::LastModified
    } else {
        FileOrder::AsWalked
    }
}

/// Whether `run` is what the accepted settings `t` ask for: the directory when there is one,
/// otherwise the rules file against the test data.
pub open spec fn run_of(t: Test, run: TestRun) -> bool {
    match t.directory {
        Some(d) => run matches TestRun::Directory { directory, output_format }
            && directory@ == d@ && output_format == t.output_format,
        None => run matches TestRun::RulesFile { rules, test_data, order, output_format }
            && t.rules matches Some(r) && t.test_data matches Some(data) && rules@ == r@
            && test_data@ == data@ && order == file_order(t) && output_format == t.output_format,
    }
}

impl Test {
    /// What this run does, or an error naming why it cannot start.
    pub fn plan(&self) -> (r: Result<TestRun, Error>)
        ensures
            run_refusal(*self) matches Some(reason) ==> (r matches Err(Error::IllegalArguments(m))
                && m@ == reason),
            run_refusal(*self) is None ==> (r matches Ok(run) && run_of(*self, run)),
    {
        if self.output_format != OutputFormatType::SingleLineSummary && self.verbose {
            return Err(Error::IllegalArguments(string_of(
                "Cannot provide an output_type of JSON, YAML, or JUnit while the verbose flag is set",
            )));
        }
        if self.output_format == OutputFormatType::Sarif {
            return Err(Error::IllegalArguments(string_of(
                "Cannot provide an output_type of SARIF, SARIF reporter is unsupported.",
            )));
        }
        if let Some(d) = &self.directory {
            return Ok(TestRun::Directory { directory: d.clone(), output_format: self.output_format });
        }
        match (&self.rules, &self.test_data) {
            (Some(rules), Some(data)) => {
                let order = if self.alphabetical {
                    FileOrder::Alphabetical
                } else if self.last_modified {
                    FileOrder::LastModified
                } else {
                    FileOrder::AsWalked
                };
                Ok(TestRun::RulesFile {
                    rules: rules.clone(),
                    test_data: data.clone(),
                    order,
                    output_format: self.output_format,
                })
            },
            _ => Err(Error::IllegalArguments(string_of(
                "test requires both a rules file and a test data file: pass --rules-file and --test-data together, or --dir to walk a directory",
            ))),
        }
    }
}

/// A file of test data is JSON or YAML by its name's extension, in lower case or, for `.json`
/// and `.yaml`, upper case.
pub open spec fn test_data_file_name(name: Seq<char>) -> bool {
    is_suffix(".json"@, name) || is_suffix(".yaml"@, name) || is_suffix(".JSON"@, name)
        || is_suffix(".YAML"@, name) || is_suffix(".yml"@, name) || is_suffix(".jsn"@, name)
}

/// Whether a file named `name`, found under the test data, is taken as test data.
pub fn is_test_data_file_name(name: &str) -> (r: bool)
    ensures
        r == test_data_file_name(name@),
{
    ends_with(name, ".json") || ends_with(name, ".yaml") || ends_with(name, ".JSON") || ends_with(
        name,
        ".YAML",
    ) || ends_with(name, ".yml") || ends_with(name, ".jsn")
}

/// What is said of a `--rules-file` that names something other than a file.
pub open spec fn not_a_rules_file_text(file: Seq<char>) -> Seq<char> {
    "`"@ + file
        + "` is not a rules file. --rules-file takes one file; use --dir to walk a directory of rules files."@
}

/// What is said of a `--rules-file` named `file` that is not a file.
pub fn not_a_rules_file_message(file: &str) -> (r: String)
    ensures
        r@ == not_a_rules_file_text(file@),
{
    let mut m = string_of("`");
    push_str(&mut m, file);
    push_str(
        &mut m,
        "` is not a rules file. --rules-file takes one file; use --dir to walk a directory of rules files.",
    );
    m
}

} // verus!
