//! The `validate` command's settings, and the decisions it makes around evaluation: which
//! partitions its summary shows, what it calls documents read from a payload, and its exit status.
use vstd::prelude::*;

use crate::commands::test::{ends_with, is_suffix};
use crate::text::{decimal, push_str, str_eq, string_of, usize_to_text, views};

verus! {

/// The format a report is written in.
#[derive(Clone, Copy, Debug, PartialEq, Eq, Structural)]
pub enum OutputFormatType {
    SingleLineSummary,
    JSON,
    YAML,
    Junit,
    Sarif,
}

impl Default for OutputFormatType {
    /// `single-line-summary`.
    fn default() -> (r: Self)
        ensures
            r == OutputFormatType::SingleLineSummary,
    {
        OutputFormatType::SingleLineSummary
    }
}

impl OutputFormatType {
    /// The format a command-line value names; anything not named otherwise is YAML.
    pub fn from_name(value: &str) -> (r: OutputFormatType)
        ensures
            r == if value@ == "single-line-summary"@ {
                OutputFormatType::SingleLineSummary
            } else if value@ == "json"@ {
                OutputFormatType::JSON
            } else if value@ == "junit"@ {
                OutputFormatType::Junit
            } else if value@ == "sarif"@ {
                OutputFormatType::Sarif
            } else {
                OutputFormatType::YAML
            },
    {
        if str_eq(value, "single-line-summary") {
            OutputFormatType::SingleLineSummary
        } else if str_eq(value, "json") {
            OutputFormatType::JSON
        } else if str_eq(value, "junit") {
            OutputFormatType::Junit
        } else if str_eq(value, "sarif") {
            OutputFormatType::Sarif
        } else {
            OutputFormatType::YAML
        }
    }
}

/// Which rules the summary table shows.
#[derive(Clone, Copy, Debug, PartialEq, Eq, Structural)]
pub enum ShowSummaryType {
    All,
    Pass,
    Fail,
    Skip,
    /// No summary at all (the command-line value `none`).
    Off,
}

impl Default for ShowSummaryType {
    /// `fail`.
    fn default() -> (r: Self)
        ensures
            r == ShowSummaryType::Fail,
    {
        ShowSummaryType::Fail
    }
}

/// The `validate` command: evaluates rules against data files.
pub struct Validate {
    /// Rules files, or directories of them.
    pub rules: Vec<String>,
    /// Data files, or directories of them.
    pub data: Vec<String>,
    /// Parameter files merged with each data file.
    pub input_params: Vec<String>,
    /// The kind of data, for better messages.
    pub template_type: Option<String>,
    pub output_format: OutputFormatType,
    pub show_summary: Vec<ShowSummaryType>,
    pub alphabetical: bool,
    pub last_modified: bool,
    pub verbose: bool,
    pub print_json: bool,
    /// Rules and data come as a JSON payload on the reader.
    pub payload: bool,
    pub structured: bool,
}

/// A document given as text rather than as a file: its content and the name it is reported by.
pub struct ValidateInput<'a> {
    pub content: &'a str,
    pub file_name: &'a str,
}

/// The extensions a data file may have.
pub const DATA_FILE_SUPPORTED_EXTENSIONS: [&'static str; 5] = [".yaml", ".yml", ".json", ".jsn", ".template"];
/// The extensions a rules file may have.
pub const RULE_FILE_SUPPORTED_EXTENSIONS: [&'static str; 2] = [".guard", ".ruleset"];

/// Whether `name` ends with one of `extensions`.
pub fn has_a_supported_extension(name: &str, extensions: &[&str]) -> (r: bool)
    ensures
        r == exists|i: int| 0 <= i < extensions@.len() && is_suffix(#[trigger] extensions@[i]@, name@),
{
    let mut i: usize = 0;
    while i < extensions.len()
        invariant
            i <= extensions@.len(),
            forall|k: int| 0 <= k < i ==> !is_suffix(#[trigger] extensions@[k]@, name@),
        decreases extensions.len() - i,
    {
        if ends_with(name, extensions[i]) {
            return true;
        }
        i += 1;
    }
    false
}

/// The kind of data a validation reads, for the messages it writes.
#[derive(Clone, Copy, Debug, PartialEq, Eq, Structural)]
pub enum Type {
    CFNTemplate,
    Generic,
}

impl Type {
    /// `CFNTemplate` for the value `CFNTemplate`, `Generic` for anything else.
    pub fn from_name(value: &str) -> (r: Type)
        ensures
            r == if value@ == "CFNTemplate"@ {
                Type::CFNTemplate
            } else {
                Type::Generic
            },
    {
        if str_eq(value, "CFNTemplate") {
            Type::CFNTemplate
        } else {
            Type::Generic
        }
    }
}


// ---------------------------------------------------------------------------------------------
// The summary table's partitions
// ---------------------------------------------------------------------------------------------

/// Which partitions of the rules a summary table shows.
#[derive(Clone, Copy, Debug, PartialEq, Eq, Structural)]
pub struct SummaryFlags {
    pub pass: bool,
    pub fail: bool,
    pub skip: bool,
}

/// Whether `v` is one of the values `--show-summary` takes.
pub open spec fn summary_value(v: Seq<char>) -> bool {
    v == "pass"@ || v == "fail"@ || v == "skip"@ || v == "none"@ || v == "all"@
}

/// The partitions shown after the value `v`, given those shown before it: `pass`, `fail` and
/// `skip` add one, `all` adds every one, and `none` clears them.
pub open spec fn summary_after(before: SummaryFlags, v: Seq<char>) -> SummaryFlags {
    if v == "pass"@ {
        SummaryFlags { pass: true, ..before }
    } else if v == "fail"@ {
        SummaryFlags { fail: true, ..before }
    } else if v == "skip"@ {
        SummaryFlags { skip: true, ..before }
    } else if v == "none"@ {
        SummaryFlags { pass: false, fail: false, skip: false }
    } else {
        SummaryFlags { pass: true, fail: true, skip: true }
    }
}

/// The partitions the values `vs` show, taken in order from none.
pub open spec fn summary_of(vs: Seq<Seq<char>>) -> SummaryFlags
    decreases vs.len(),
{
    if vs.len() == 0 {
        SummaryFlags { pass: false, fail: false, skip: false }
    } else {
        summary_after(summary_of(vs.drop_last()), vs.last())
    }
}

/// Whether the values `vs` ask for the partition `name`: some value is `name` or `all`, and no
/// `none` comes after it.
pub open spec fn asks_for(vs: Seq<Seq<char>>, name: Seq<char>) -> bool {
    exists|i: int|
        0 <= i < vs.len() && (#[trigger] vs[i] == name || vs[i] == "all"@) && forall|j: int|
            i < j < vs.len() ==> vs[j] != "none"@
}

proof fn lemma_asks_for_step(vs: Seq<Seq<char>>, name: Seq<char>)
    requires
        vs.len() > 0,
    ensures
        asks_for(vs, name) <==> (vs.last() == name || vs.last() == "all"@ || (vs.last()
            != "none"@ && asks_for(vs.drop_last(), name))),
{
    let d = vs.drop_last();
    let n = vs.len() - 1;
    if asks_for(vs, name) {
        let i = choose|i: int|
            0 <= i < vs.len() && (#[trigger] vs[i] == name || vs[i] == "all"@) && forall|j: int|
                i < j < vs.len() ==> vs[j] != "none"@;
        if i < n && vs.last() != name && vs.last() != "all"@ {
            assert(vs[n] != "none"@);
            assert(d[i] == vs[i]);
            assert forall|j: int| i < j < d.len() implies d[j] != "none"@ by {
                assert(d[j] == vs[j]);
            }
        }
    }
    if vs.last() == name || vs.last() == "all"@ {
        assert(vs[n] == name || vs[n] == "all"@);
    } else if vs.last() != "none"@ && asks_for(d, name) {
        let i = choose|i: int|
            0 <= i < d.len() && (#[trigger] d[i] == name || d[i] == "all"@) && forall|j: int|
                i < j < d.len() ==> d[j] != "none"@;
        assert(vs[i] == d[i]);
        assert forall|j: int| i < j < vs.len() implies vs[j] != "none"@ by {
            if j < n {
                assert(d[j] == vs[j]);
            }
        }
    }
}

/// The summary shows a partition exactly when the values ask for it: when one of them names it
/// or is `all`, and no `none` follows.
pub proof fn law_summary_shows_what_is_asked_for(vs: Seq<Seq<char>>)
    requires
        forall|i: int| 0 <= i < vs.len() ==> summary_value(#[trigger] vs[i]),
    ensures
        summary_of(vs).pass <==> asks_for(vs, "pass"@),
        summary_of(vs).fail <==> asks_for(vs, "fail"@),
        summary_of(vs).skip <==> asks_for(vs, "skip"@),
    decreases vs.len(),
{
    reveal_strlit("pass");
    reveal_strlit("fail");
    reveal_strlit("skip");
    reveal_strlit("none");
    reveal_strlit("all");
    if vs.len() > 0 {
        let d = vs.drop_last();
        assert forall|i: int| 0 <= i < d.len() implies summary_value(#[trigger] d[i]) by {
            assert(d[i] == vs[i]);
        }
        law_summary_shows_what_is_asked_for(d);
        lemma_asks_for_step(vs, "pass"@);
        lemma_asks_for_step(vs, "fail"@);
        lemma_asks_for_step(vs, "skip"@);
        assert(summary_value(vs[vs.len() - 1]));
        let l = vs.last();
        assert(l == vs[vs.len() - 1]);
        assert("pass"@[0] == 'p' && "fail"@[0] == 'f' && "skip"@[0] == 's' && "none"@[0] == 'n');
        assert("pass"@.len() == 4 && "all"@.len() == 3 && "none"@.len() == 4);
        assert("pass"@ != "fail"@ && "pass"@ != "skip"@ && "pass"@ != "none"@ && "pass"@ != "all"@);
        assert("fail"@ != "skip"@ && "fail"@ != "none"@ && "fail"@ != "all"@);
        assert("skip"@ != "none"@ && "skip"@ != "all"@ && "none"@ != "all"@);
        assert(summary_of(vs) == summary_after(summary_of(d), l));
    } else {
        assert(!asks_for(vs, "pass"@));
        assert(!asks_for(vs, "fail"@));
        assert(!asks_for(vs, "skip"@));
    }
}

/// The partitions the summary shows for the `--show-summary` values `values`: failures alone
/// when there are none.
pub fn summary_type(values: Option<&Vec<String>>) -> (r: SummaryFlags)
    requires
        values matches Some(vs) ==> forall|i: int|
            0 <= i < vs@.len() ==> summary_value(#[trigger] vs@[i]@),
    ensures
        r == match values {
            Some(vs) => summary_of(views(vs@)),
            None => SummaryFlags { pass: false, fail: true, skip: false },
        },
{
    let vs = match values {
        Some(vs) => vs,
        None => {
            return SummaryFlags { pass: false, fail: true, skip: false };
        },
    };
    let mut st = SummaryFlags { pass: false, fail: false, skip: false };
    let mut i: usize = 0;
    while i < vs.len()
        invariant
            i <= vs@.len(),
            st == summary_of(views(vs@.take(i as int))),
        decreases vs.len() - i,
    {
        let v = vs[i].as_str();
        assert(views(vs@.take(i + 1)).drop_last() =~= views(vs@.take(i as int)));
        assert(views(vs@.take(i + 1)).last() == v@);
        if str_eq(v, "pass") {
            st.pass = true;
        } else if str_eq(v, "fail") {
            st.fail = true;
        } else if str_eq(v, "skip") {
            st.skip = true;
        } else if str_eq(v, "none") {
            st = SummaryFlags { pass: false, fail: false, skip: false };
        } else {
            st = SummaryFlags { pass: true, fail: true, skip: true };
        }
        i += 1;
    }
    assert(vs@.take(i as int) =~= vs@);
    st
}

// ---------------------------------------------------------------------------------------------
// Documents of a payload
// ---------------------------------------------------------------------------------------------

/// The name the `index`th document of a payload's `prefix` list is reported by, counting from
/// one: `DATA_STDIN[1]`, `RULES_STDIN[2]`.
pub open spec fn payload_document_name(prefix: Seq<char>, index: nat) -> Seq<char> {
    prefix + "_STDIN["@ + decimal(index + 1) + "]"@
}

/// The name of the `index`th data document of a payload.
pub fn payload_data_name(index: usize) -> (r: String)
    requires
        index < usize::MAX,
    ensures
        r@ == payload_document_name("DATA"@, index as nat),
{
    let mut r = string_of("DATA_STDIN[");
    push_str(&mut r, usize_to_text(index + 1).as_str());
    push_str(&mut r, "]");
    proof {
        reveal_strlit("DATA_STDIN[");
        reveal_strlit("DATA");
        reveal_strlit("_STDIN[");
    }
    assert(r@ =~= payload_document_name("DATA"@, index as nat));
    r
}

/// The name of the `index`th rules document of a payload.
pub fn payload_rules_name(index: usize) -> (r: String)
    requires
        index < usize::MAX,
    ensures
        r@ == payload_document_name("RULES"@, index as nat),
{
    let mut r = string_of("RULES_STDIN[");
    push_str(&mut r, usize_to_text(index + 1).as_str());
    push_str(&mut r, "]");
    proof {
        reveal_strlit("RULES_STDIN[");
        reveal_strlit("RULES");
        reveal_strlit("_STDIN[");
    }
    assert(r@ =~= payload_document_name("RULES"@, index as nat));
    r
}

// ---------------------------------------------------------------------------------------------
// Exit status
// ---------------------------------------------------------------------------------------------

/// The exit status of a validation over rules files whose evaluations gave `statuses`, in order:
/// the last that is not success, or success when all were.
pub open spec fn validation_status(statuses: Seq<i32>) -> i32
    decreases statuses.len(),
{
    if statuses.len() == 0 {
        0
    } else if statuses.last() != 0 {
        statuses.last()
    } else {
        validation_status(statuses.drop_last())
    }
}

/// A validation succeeds exactly when every rules file did; otherwise its status is that of the
/// last rules file whose status was not success.
pub proof fn law_validation_status_is_the_last_failure(statuses: Seq<i32>)
    ensures
        (forall|i: int| 0 <= i < statuses.len() ==> #[trigger] statuses[i] == 0) ==> validation_status(
            statuses,
        ) == 0,
        forall|i: int|
            0 <= i < statuses.len() && #[trigger] statuses[i] != 0 && (forall|j: int|
                i < j < statuses.len() ==> statuses[j] == 0) ==> validation_status(statuses)
                == statuses[i],
    decreases statuses.len(),
{
    if statuses.len() > 0 {
        let d = statuses.drop_last();
        law_validation_status_is_the_last_failure(d);
        assert forall|i: int|
            0 <= i < statuses.len() && #[trigger] statuses[i] != 0 && (forall|j: int|
                i < j < statuses.len() ==> statuses[j] == 0) implies validation_status(statuses)
            == statuses[i] by {
            if i < statuses.len() - 1 {
                assert(statuses.last() == 0);
                assert(d[i] == statuses[i]);
                assert forall|j: int| i < j < d.len() implies d[j] == 0 by {
                    assert(statuses[j] == 0);
                }
            }
        }
        if forall|i: int| 0 <= i < statuses.len() ==> #[trigger] statuses[i] == 0 {
            assert(statuses[statuses.len() - 1] == 0);
            assert forall|i: int| 0 <= i < d.len() implies #[trigger] d[i] == 0 by {
                assert(statuses[i] == 0);
            }
        }
    }
}

/// The exit status of a validation whose rules files gave `statuses`.
pub fn validation_exit_code(statuses: &Vec<i32>) -> (r: i32)
    ensures
        r == validation_status(statuses@),
{
    let mut exit_code: i32 = 0;
    let mut i: usize = 0;
    while i < statuses.len()
        invariant
            i <= statuses@.len(),
            exit_code == validation_status(statuses@.take(i as int)),
        decreases statuses.len() - i,
    {
        assert(statuses@.take(i + 1).drop_last() =~= statuses@.take(i as int));
        if statuses[i] != 0 {
            exit_code = statuses[i];
        }
        i += 1;
    }
    assert(statuses@.take(i as int) =~= statuses@);
    exit_code
}

} // verus!
