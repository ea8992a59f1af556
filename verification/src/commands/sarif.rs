//! The SARIF document `validate` writes: one run, whose results are the failed clauses of the
//! templates that did not comply, and whose invocation says which rules files could not be read.
use vstd::prelude::*;
use vstd::utf8::encode_utf8;

use crate::commands::reporting::Status;
use crate::text::{chars_of, contains_string, join, join_strings, push_str, split_on, split_on_char, string_of, views};

verus! {

// ---------------------------------------------------------------------------------------------
// Percent-encoding
// ---------------------------------------------------------------------------------------------

/// Bytes a URI may carry as they are: ASCII letters and digits, `-`, `.`, `_` and `~`.
pub open spec fn unreserved(b: u8) -> bool {
    (48 <= b <= 57) || (65 <= b <= 90) || (97 <= b <= 122) || b == 45 || b == 46 || b == 95
        || b == 126
}

/// The upper-case hexadecimal digit for `d`, below 16.
pub open spec fn hex_digit(d: u8) -> char {
    if d < 10 {
        (48 + d) as char
    } else {
        (55 + d) as char
    }
}

/// One byte as a URI carries it: itself when unreserved, else `%` and two hexadecimal digits.
pub open spec fn escaped_byte(b: u8) -> Seq<char> {
    if unreserved(b) {
        seq![b as char]
    } else {
        seq!['%', hex_digit(b / 16), hex_digit(b % 16)]
    }
}

/// Each byte of `bytes` escaped, in order.
pub open spec fn escaped_bytes(bytes: Seq<u8>) -> Seq<char>
    decreases bytes.len(),
{
    if bytes.len() == 0 {
        Seq::empty()
    } else {
        escaped_bytes(bytes.drop_last()) + escaped_byte(bytes.last())
    }
}

/// `s` percent-encoded: the bytes of its UTF-8 encoding, each escaped.
pub open spec fn percent_encoded(s: Seq<char>) -> Seq<char> {
    escaped_bytes(encode_utf8(s))
}

/// `segment` percent-encoded by `urlencoding::encode`, which escapes every byte of the UTF-8
/// encoding but ASCII letters, digits, `-`, `.`, `_` and `~`, writing `%` and two upper-case
/// hexadecimal digits for each.
#[verifier::external_body]
fn url_encode(segment: &str) -> (r: String)
    ensures
        r@ == percent_encoded(segment@),
{
    urlencoding::encode(segment).into_owned()
}

// ---------------------------------------------------------------------------------------------
// What findings are made of
// ---------------------------------------------------------------------------------------------

/// A line and column in a data file.
pub struct Location {
    pub line: usize,
    pub col: usize,
}

/// What a failed clause says: its error, the rule author's message, and where it happened.
pub struct Messages {
    pub custom_message: Option<String>,
    pub error_message: Option<String>,
    pub location: Option<Location>,
}

/// A clause that did not pass: the rule's name when the clause is a whole rule, and one
/// message for each failure found in it.
pub struct ClauseFailure {
    pub rule_name: Option<String>,
    pub messages: Vec<Messages>,
}

/// A rules file that could not be read, and why.
pub struct RuleFileError {
    pub file_name: String,
    pub error: String,
}

/// What the evaluation of one data file found.
pub struct FileReport {
    pub name: String,
    pub status: Status,
    pub not_compliant: Vec<ClauseFailure>,
    pub rule_file_errors: Vec<RuleFileError>,
}

// ---------------------------------------------------------------------------------------------
// The document
// ---------------------------------------------------------------------------------------------

/// A message.
pub struct SarifMessage {
    pub text: String,
}

/// Where an artifact is.
pub struct SarifArtifactLocation {
    pub uri: String,
}

/// A file the run looked at.
pub struct SarifArtifact {
    pub location: SarifArtifactLocation,
}

/// A line and column, counted from one.
pub struct SarifRegion {
    pub start_line: usize,
    pub start_column: usize,
}

/// A place in a file.
pub struct SarifPhysicalLocation {
    pub artifact_location: SarifArtifactLocation,
    pub region: SarifRegion,
}

/// Where a result was found.
pub struct SarifLocation {
    pub physical_location: SarifPhysicalLocation,
}

/// One finding.
pub struct SarifResult {
    pub rule_id: String,
    pub level: String,
    pub message: SarifMessage,
    pub locations: Vec<SarifLocation>,
}

/// The findings of a run.
pub struct SarifResults(pub Vec<SarifResult>);

/// Something that happened to the tool rather than something it found.
pub struct SarifNotification {
    pub level: String,
    pub message: SarifMessage,
}

/// How the run went.
pub struct SarifInvocation {
    pub execution_successful: bool,
    pub tool_configuration_notifications: Vec<SarifNotification>,
}

/// The tool that made the run.
pub struct SarifDriver {
    pub name: String,
    pub semantic_version: String,
    pub full_name: String,
    pub organization: String,
    pub download_uri: String,
    pub information_uri: String,
    pub short_description: SarifMessage,
}

/// The tool.
pub struct SarifTool {
    pub driver: SarifDriver,
}

/// One run of the tool.
pub struct SarifRun {
    pub tool: SarifTool,
    pub invocations: Vec<SarifInvocation>,
    pub artifacts: Vec<SarifArtifact>,
    pub results: SarifResults,
}

/// A SARIF document.
pub struct SarifReport {
    pub schema: String,
    pub version: String,
    pub runs: Vec<SarifRun>,
}

// ---------------------------------------------------------------------------------------------
// Pieces of a result
// ---------------------------------------------------------------------------------------------

/// The text of an optional string; nothing when it is absent.
pub open spec fn text_or_empty(s: Option<String>) -> Seq<char> {
    match s {
        Some(t) => t@,
        None => Seq::empty(),
    }
}

/// A location as (uri, start line, start column).
pub open spec fn location_view(l: SarifLocation) -> (Seq<char>, usize, usize) {
    (
        l.physical_location.artifact_location.uri@,
        l.physical_location.region.start_line,
        l.physical_location.region.start_column,
    )
}

/// `n`, or one when it is zero.
pub open spec fn at_least_one(n: usize) -> usize {
    if n < 1 {
        1
    } else {
        n
    }
}

/// A path as a result names it: an absolute path becomes a `file://` URI whose segments are
/// percent-encoded; anything else is kept as it is.
pub open spec fn sanitized(path: Seq<char>) -> Seq<char> {
    if path.len() > 0 && path[0] == '/' {
        "file://"@ + join(split_on(path, '/').map_values(|seg: Seq<char>| percent_encoded(seg)), "/"@)
    } else {
        path
    }
}

/// A rule's identifier in the document: its name, unchanged.
pub fn extract_rule_id(rule_name: &str) -> (r: String)
    ensures
        r@ == rule_name@,
{
    string_of(rule_name)
}

/// The text of a result: the error message, a space, and the rule author's message.
pub open spec fn message_text(m: Messages) -> Seq<char> {
    text_or_empty(m.error_message) + " "@ + text_or_empty(m.custom_message)
}

/// The text of a result for `messages`.
pub fn handle_messages(messages: &Messages) -> (r: String)
    ensures
        r@ == message_text(*messages),
{
    let mut r = String::new();
    if let Some(e) = &messages.error_message {
        push_str(&mut r, e.as_str());
    }
    push_str(&mut r, " ");
    if let Some(c) = &messages.custom_message {
        push_str(&mut r, c.as_str());
    }
    r
}

/// `path` as a result names it (see [`sanitized`]).
pub fn sanitize_path(path: &str) -> (r: String)
    ensures
        r@ == sanitized(path@),
{
    let cs = chars_of(path);
    if cs.len() == 0 || cs[0] != '/' {
        return string_of(path);
    }
    let segments = split_on_char(path, '/');
    let ghost parts = split_on(path@, '/');
    let mut encoded: Vec<String> = Vec::new();
    let mut k: usize = 0;
    while k < segments.len()
        invariant
            views(segments@) == parts,
            k <= segments@.len(),
            views(encoded@) == parts.take(k as int).map_values(|seg: Seq<char>| percent_encoded(seg)),
        decreases segments.len() - k,
    {
        assert(views(segments@)[k as int] == segments@[k as int]@);
        let e = url_encode(segments[k].as_str());
        assert(e@ == percent_encoded(parts[k as int]));
        let ghost before = encoded@;
        encoded.push(e);
        assert(views(encoded@) =~= views(before).push(e@));
        assert(views(encoded@) =~= parts.take(k + 1).map_values(|seg: Seq<char>| percent_encoded(seg)));
        k += 1;
    }
    assert(parts.take(k as int) =~= parts);
    let joined = join_strings(&encoded, "/");
    let mut r = string_of("file://");
    push_str(&mut r, joined.as_str());
    r
}

/// The one location of a result found in `path_string` at the given line and column; a line or
/// column of zero, which means none was known, becomes one.
pub fn generate_sarif_locations(path_string: &str, start_line: usize, start_column: usize) -> (r:
    Vec<SarifLocation>)
    ensures
        r@.len() == 1,
        location_view(r@[0]) == (
            sanitized(path_string@),
            at_least_one(start_line),
            at_least_one(start_column),
        ),
{
    let line = if start_line < 1 {
        1
    } else {
        start_line
    };
    let column = if start_column < 1 {
        1
    } else {
        start_column
    };
    let mut r: Vec<SarifLocation> = Vec::new();
    r.push(
        SarifLocation {
            physical_location: SarifPhysicalLocation {
                artifact_location: SarifArtifactLocation { uri: sanitize_path(path_string) },
                region: SarifRegion { start_line: line, start_column: column },
            },
        },
    );
    r
}

// ---------------------------------------------------------------------------------------------
// Results
// ---------------------------------------------------------------------------------------------

/// A result as (rule id, level, text, locations).
pub open spec fn result_view(r: SarifResult) -> (
    Seq<char>,
    Seq<char>,
    Seq<char>,
    Seq<(Seq<char>, usize, usize)>,
) {
    (r.rule_id@, r.level@, r.message.text@, r.locations@.map_values(|l: SarifLocation| location_view(l)))
}

/// The views of `rs`, in order.
pub open spec fn results_view(rs: Seq<SarifResult>) -> Seq<
    (Seq<char>, Seq<char>, Seq<char>, Seq<(Seq<char>, usize, usize)>),
> {
    rs.map_values(|r: SarifResult| result_view(r))
}

/// The line a message gives, or zero.
pub open spec fn line_of(m: Messages) -> usize {
    match m.location {
        Some(l) => l.line,
        None => 0,
    }
}

/// The column a message gives, or zero.
pub open spec fn column_of(m: Messages) -> usize {
    match m.location {
        Some(l) => l.col,
        None => 0,
    }
}

/// The result for message `m` of `failure`, found in the data file `name`: an error under the
/// rule's name (none when the clause is not a whole rule), at the message's location.
pub open spec fn expected_result(failure: ClauseFailure, name: Seq<char>, m: Messages) -> (
    Seq<char>,
    Seq<char>,
    Seq<char>,
    Seq<(Seq<char>, usize, usize)>,
) {
    (
        text_or_empty(failure.rule_name),
        "error"@,
        message_text(m),
        seq![(sanitized(name), at_least_one(line_of(m)), at_least_one(column_of(m)))],
    )
}

/// The results for `failure`: one for each of its messages, in order.
pub open spec fn failure_results(failure: ClauseFailure, name: Seq<char>) -> Seq<
    (Seq<char>, Seq<char>, Seq<char>, Seq<(Seq<char>, usize, usize)>),
> {
    failure.messages@.map_values(|m: Messages| expected_result(failure, name, m))
}

impl SarifResults {
    /// The results for `failure` found in the data file `name`.
    pub fn from_failure(failure: &ClauseFailure, name: &str) -> (r: SarifResults)
        ensures
            results_view(r.0@) == failure_results(*failure, name@),
    {
        let rule_id = match &failure.rule_name {
            Some(n) => extract_rule_id(n.as_str()),
            None => String::new(),
        };
        let mut results: Vec<SarifResult> = Vec::new();
        let mut k: usize = 0;
        while k < failure.messages.len()
            invariant
                k <= failure.messages@.len(),
                rule_id@ == text_or_empty(failure.rule_name),
                results_view(results@) == failure_results(*failure, name@).take(k as int),
            decreases failure.messages.len() - k,
        {
            let messages = &failure.messages[k];
            let (start_line, start_column) = match &messages.location {
                Some(location) => (location.line, location.col),
                None => (0, 0),
            };
            let message = SarifMessage { text: handle_messages(messages) };
            let locations = generate_sarif_locations(name, start_line, start_column);
            let result = SarifResult {
                rule_id: rule_id.clone(),
                level: string_of("error"),
                message,
                locations,
            };
            assert(result_view(result).3 =~= seq![location_view(result.locations@[0])]);
            assert(result_view(result) == expected_result(*failure, name@, *messages));
            let ghost before = results@;
            results.push(result);
            assert(results_view(results@) =~= results_view(before).push(result_view(result)));
            assert(results_view(results@) =~= failure_results(*failure, name@).take(k + 1));
            k += 1;
        }
        assert(failure_results(*failure, name@).take(k as int) =~= failure_results(*failure, name@));
        SarifResults(results)
    }
}

// ---------------------------------------------------------------------------------------------
// The run
// ---------------------------------------------------------------------------------------------

/// `s` without the repeats: each item where it first occurs, in order.
pub open spec fn first_occurrences(s: Seq<Seq<char>>) -> Seq<Seq<char>>
    decreases s.len(),
{
    if s.len() == 0 {
        Seq::empty()
    } else if s.drop_last().contains(s.last()) {
        first_occurrences(s.drop_last())
    } else {
        first_occurrences(s.drop_last()).push(s.last())
    }
}

/// A sequence with one more item holds what it held and that item.
proof fn lemma_push_contains<A>(p: Seq<A>, l: A, x: A)
    ensures
        p.push(l).contains(x) <==> (p.contains(x) || x == l),
{
    if p.push(l).contains(x) {
        let k = choose|k: int| 0 <= k < p.len() + 1 && p.push(l)[k] == x;
        if k < p.len() {
            assert(p[k] == x);
        }
    }
    if p.contains(x) {
        let k = choose|k: int| 0 <= k < p.len() && p[k] == x;
        assert(p.push(l)[k] == x);
    }
    if x == l {
        assert(p.push(l)[p.len() as int] == x);
    }
}

/// Dropping repeats keeps every item.
pub proof fn lemma_first_occurrences_contains(s: Seq<Seq<char>>, x: Seq<char>)
    ensures
        first_occurrences(s).contains(x) <==> s.contains(x),
    decreases s.len(),
{
    if s.len() > 0 {
        let d = s.drop_last();
        lemma_first_occurrences_contains(d, x);
        assert(s =~= d.push(s.last()));
        lemma_push_contains(d, s.last(), x);
        lemma_push_contains(first_occurrences(d), s.last(), x);
    }
}

/// The names of the data files in `reports` that failed, the unnamed ones left out, in order.
pub open spec fn failing_names(reports: Seq<FileReport>) -> Seq<Seq<char>>
    decreases reports.len(),
{
    if reports.len() == 0 {
        Seq::empty()
    } else {
        let last = reports.last();
        if last.status == Status::FAIL && last.name@.len() > 0 {
            failing_names(reports.drop_last()).push(last.name@)
        } else {
            failing_names(reports.drop_last())
        }
    }
}

/// The results for each of `failures`, in order.
pub open spec fn failures_results(failures: Seq<ClauseFailure>, name: Seq<char>) -> Seq<
    (Seq<char>, Seq<char>, Seq<char>, Seq<(Seq<char>, usize, usize)>),
>
    decreases failures.len(),
{
    if failures.len() == 0 {
        Seq::empty()
    } else {
        failures_results(failures.drop_last(), name) + failure_results(failures.last(), name)
    }
}

/// The results of a run over `reports`: those of each failed clause of each data file that
/// failed, in order.
pub open spec fn run_results(reports: Seq<FileReport>) -> Seq<
    (Seq<char>, Seq<char>, Seq<char>, Seq<(Seq<char>, usize, usize)>),
>
    decreases reports.len(),
{
    if reports.len() == 0 {
        Seq::empty()
    } else {
        let last = reports.last();
        if last.status == Status::FAIL {
            run_results(reports.drop_last()) + failures_results(last.not_compliant@, last.name@)
        } else {
            run_results(reports.drop_last())
        }
    }
}

/// How many messages the failed clauses `failures` carry in all.
pub open spec fn message_count(failures: Seq<ClauseFailure>) -> nat
    decreases failures.len(),
{
    if failures.len() == 0 {
        0
    } else {
        failures[0].messages@.len() + message_count(failures.drop_first())
    }
}

/// How many messages the failed clauses of the data files of `reports` that failed carry in all.
pub open spec fn failing_message_count(reports: Seq<FileReport>) -> nat
    decreases reports.len(),
{
    if reports.len() == 0 {
        0
    } else {
        (if reports[0].status == Status::FAIL {
            message_count(reports[0].not_compliant@)
        } else {
            0
        }) + failing_message_count(reports.drop_first())
    }
}

proof fn lemma_message_count_last(failures: Seq<ClauseFailure>)
    requires
        failures.len() > 0,
    ensures
        message_count(failures) == message_count(failures.drop_last())
            + failures.last().messages@.len(),
    decreases failures.len(),
{
    if failures.len() > 1 {
        lemma_message_count_last(failures.drop_first());
        assert(failures.drop_first().drop_last() =~= failures.drop_last().drop_first());
        let d = failures.drop_last();
        assert(d[0] == failures[0]);
        assert(failures.drop_first().last() == failures.last());
        assert(message_count(d) == d[0].messages@.len() + message_count(d.drop_first()));
        assert(message_count(failures) == failures[0].messages@.len() + message_count(
            failures.drop_first(),
        ));
    } else {
        assert(failures.drop_last().len() == 0);
        assert(failures.drop_first().len() == 0);
        assert(message_count(failures.drop_first()) == 0);
        assert(message_count(failures.drop_last()) == 0);
        assert(message_count(failures) == failures[0].messages@.len() + message_count(
            failures.drop_first(),
        ));
    }
}

proof fn lemma_failing_message_count_last(reports: Seq<FileReport>)
    requires
        reports.len() > 0,
    ensures
        failing_message_count(reports) == failing_message_count(reports.drop_last()) + (
        if reports.last().status == Status::FAIL {
            message_count(reports.last().not_compliant@)
        } else {
            0
        }),
    decreases reports.len(),
{
    if reports.len() > 1 {
        lemma_failing_message_count_last(reports.drop_first());
        assert(reports.drop_first().drop_last() =~= reports.drop_last().drop_first());
        let d = reports.drop_last();
        assert(d[0] == reports[0]);
        assert(reports.drop_first().last() == reports.last());
        assert(failing_message_count(d) == (if d[0].status == Status::FAIL {
            message_count(d[0].not_compliant@)
        } else {
            0
        }) + failing_message_count(d.drop_first()));
    } else {
        assert(reports.drop_last().len() == 0);
        assert(reports.drop_first().len() == 0);
        assert(failing_message_count(reports.drop_first()) == 0);
        assert(failing_message_count(reports.drop_last()) == 0);
    }
}

proof fn lemma_failures_results_len(failures: Seq<ClauseFailure>, name: Seq<char>)
    ensures
        failures_results(failures, name).len() == message_count(failures),
    decreases failures.len(),
{
    if failures.len() > 0 {
        lemma_failures_results_len(failures.drop_last(), name);
        lemma_message_count_last(failures);
    }
}

/// A run holds one result for every message of every failed clause of every data file that
/// failed, and no other: none of a failing data file's clauses is left out.
pub proof fn law_run_results_count_every_message(reports: Seq<FileReport>)
    ensures
        run_results(reports).len() == failing_message_count(reports),
    decreases reports.len(),
{
    if reports.len() > 0 {
        law_run_results_count_every_message(reports.drop_last());
        lemma_failing_message_count_last(reports);
        lemma_failures_results_len(reports.last().not_compliant@, reports.last().name@);
    }
}

/// The results of a failed clause are those of its messages, one each, in order: each result
/// names the clause's rule and the data file.
pub proof fn law_failure_results_one_per_message(failure: ClauseFailure, name: Seq<char>)
    ensures
        failure_results(failure, name).len() == failure.messages@.len(),
        forall|k: int|
            0 <= k < failure.messages@.len() ==> #[trigger] failure_results(failure, name)[k]
                == expected_result(failure, name, failure.messages@[k]),
{
}

/// The uris of the artifacts of a run.
pub open spec fn artifact_uris(artifacts: Seq<SarifArtifact>) -> Seq<Seq<char>> {
    artifacts.map_values(|a: SarifArtifact| a.location.uri@)
}

/// The pairs (rules file, error) of the rules files that could not be read, as each report
/// repeats them, in order.
pub open spec fn error_pairs(reports: Seq<FileReport>) -> Seq<(Seq<char>, Seq<char>)>
    decreases reports.len(),
{
    if reports.len() == 0 {
        Seq::empty()
    } else {
        error_pairs(reports.drop_last()) + report_error_pairs(reports.last())
    }
}

/// The pairs (rules file, error) one report carries.
pub open spec fn report_error_pairs(report: FileReport) -> Seq<(Seq<char>, Seq<char>)> {
    report.rule_file_errors@.map_values(|e: RuleFileError| (e.file_name@, e.error@))
}

/// The rules files the pairs name.
pub open spec fn pair_names(s: Seq<(Seq<char>, Seq<char>)>) -> Seq<Seq<char>> {
    s.map_values(|p: (Seq<char>, Seq<char>)| p.0)
}

/// `s` keeping, for each rules file, only the pair where it first occurs.
pub open spec fn first_by_file(s: Seq<(Seq<char>, Seq<char>)>) -> Seq<(Seq<char>, Seq<char>)>
    decreases s.len(),
{
    if s.len() == 0 {
        Seq::empty()
    } else if pair_names(s.drop_last()).contains(s.last().0) {
        first_by_file(s.drop_last())
    } else {
        first_by_file(s.drop_last()).push(s.last())
    }
}

/// Keeping first pairs keeps every rules file.
pub proof fn lemma_first_by_file_names(s: Seq<(Seq<char>, Seq<char>)>, x: Seq<char>)
    ensures
        pair_names(first_by_file(s)).contains(x) <==> pair_names(s).contains(x),
    decreases s.len(),
{
    if s.len() > 0 {
        let d = s.drop_last();
        let l = s.last();
        lemma_first_by_file_names(d, x);
        assert(pair_names(s) =~= pair_names(d).push(l.0));
        lemma_push_contains(pair_names(d), l.0, x);
        assert(pair_names(first_by_file(d).push(l)) =~= pair_names(first_by_file(d)).push(l.0));
        lemma_push_contains(pair_names(first_by_file(d)), l.0, x);
    }
}

/// The sentence for a rules file that could not be read.
pub open spec fn unreadable_rules_text(p: (Seq<char>, Seq<char>)) -> Seq<char> {
    "Rules file "@ + p.0 + " could not be parsed, so none of its rules were evaluated: "@ + p.1
}

/// A notification as (level, text).
pub open spec fn notification_view(n: SarifNotification) -> (Seq<char>, Seq<char>) {
    (n.level@, n.message.text@)
}

/// The notifications a run over `reports` carries: an error for each rules file that could not
/// be read, once each, in the order they are first met.
pub open spec fn expected_notifications(reports: Seq<FileReport>) -> Seq<(Seq<char>, Seq<char>)> {
    first_by_file(error_pairs(reports)).map_values(
        |p: (Seq<char>, Seq<char>)| ("error"@, unreadable_rules_text(p)),
    )
}

/// What the invocations of a run over `reports` say: none when every rules file was read; else
/// one, unsuccessful, carrying [`expected_notifications`].
pub open spec fn invocations_match(invocations: Seq<SarifInvocation>, reports: Seq<FileReport>) -> bool {
    if expected_notifications(reports).len() == 0 {
        invocations.len() == 0
    } else {
        &&& invocations.len() == 1
        &&& !invocations[0].execution_successful
        &&& invocations[0].tool_configuration_notifications@.map_values(
            |n: SarifNotification| notification_view(n),
        ) == expected_notifications(reports)
    }
}

/// The invocation of a run over `reports`, when a rules file could not be read.
pub fn build_invocations(reports: &Vec<FileReport>) -> (r: Vec<SarifInvocation>)
    ensures
        invocations_match(r@, reports@),
{
    let mut seen: Vec<String> = Vec::new();
    let mut notifications: Vec<SarifNotification> = Vec::new();
    let mut i: usize = 0;
    while i < reports.len()
        invariant
            i <= reports@.len(),
            views(seen@) == pair_names(first_by_file(error_pairs(reports@.take(i as int)))),
            notifications@.map_values(|n: SarifNotification| notification_view(n))
                == expected_notifications(reports@.take(i as int)),
        decreases reports.len() - i,
    {
        let report = &reports[i];
        let ghost done = error_pairs(reports@.take(i as int));
        let mut j: usize = 0;
        assert(report_error_pairs(*report).take(0) =~= Seq::<(Seq<char>, Seq<char>)>::empty());
        assert(done + report_error_pairs(*report).take(0) =~= done);
        while j < report.rule_file_errors.len()
            invariant
                j <= report.rule_file_errors@.len(),
                views(seen@) == pair_names(
                    first_by_file(done + report_error_pairs(*report).take(j as int)),
                ),
                notifications@.map_values(|n: SarifNotification| notification_view(n))
                    == first_by_file(done + report_error_pairs(*report).take(j as int)).map_values(
                    |p: (Seq<char>, Seq<char>)| ("error"@, unreadable_rules_text(p)),
                ),
            decreases report.rule_file_errors.len() - j,
        {
            let e = &report.rule_file_errors[j];
            let ghost flat = done + report_error_pairs(*report).take(j as int);
            let ghost next = done + report_error_pairs(*report).take(j + 1);
            assert(next.drop_last() =~= flat);
            assert(next.last() == (e.file_name@, e.error@));
            proof {
                lemma_first_by_file_names(flat, e.file_name@);
            }
            if !contains_string(&seen, e.file_name.as_str()) {
                let mut text = string_of("Rules file ");
                push_str(&mut text, e.file_name.as_str());
                push_str(&mut text, " could not be parsed, so none of its rules were evaluated: ");
                push_str(&mut text, e.error.as_str());
                let ghost before_notes = notifications@;
                let ghost before_seen = seen@;
                notifications.push(
                    SarifNotification { level: string_of("error"), message: SarifMessage { text } },
                );
                seen.push(e.file_name.clone());
                assert(!pair_names(flat).contains(e.file_name@));
                assert(first_by_file(next) == first_by_file(flat).push(next.last()));
                assert(views(seen@) =~= views(before_seen).push(e.file_name@));
                assert(views(seen@) =~= pair_names(first_by_file(next)));
                assert(notification_view(notifications@.last()) == (
                    "error"@,
                    unreadable_rules_text(next.last()),
                ));
                assert(notifications@.drop_last() =~= before_notes);
                assert(before_notes.map_values(|n: SarifNotification| notification_view(n)).len()
                    == before_notes.len());
                assert(first_by_file(flat).len() == before_notes.len());
                assert(first_by_file(next).len() == notifications@.len());
                assert forall|k: int| 0 <= k < notifications@.len() implies notification_view(
                    #[trigger] notifications@[k],
                ) == ("error"@, unreadable_rules_text(first_by_file(next)[k])) by {
                    if k < before_notes.len() {
                        assert(notifications@[k] == before_notes[k]);
                        assert(before_notes.map_values(|n: SarifNotification| notification_view(n))[k]
                            == first_by_file(flat).map_values(
                            |p: (Seq<char>, Seq<char>)| ("error"@, unreadable_rules_text(p)),
                        )[k]);
                    }
                }
                assert(notifications@.map_values(|n: SarifNotification| notification_view(n))
                    =~= first_by_file(next).map_values(
                    |p: (Seq<char>, Seq<char>)| ("error"@, unreadable_rules_text(p)),
                ));
            } else {
                assert(first_by_file(next) == first_by_file(flat));
            }
            j += 1;
        }
        assert(report_error_pairs(*report).take(j as int) =~= report_error_pairs(*report));
        assert(reports@.take(i + 1).drop_last() =~= reports@.take(i as int));
        assert(reports@.take(i + 1).last() == *report);
        i += 1;
    }
    assert(reports@.take(i as int) =~= reports@);
    if notifications.len() == 0 {
        return Vec::new();
    }
    let mut r: Vec<SarifInvocation> = Vec::new();
    r.push(
        SarifInvocation {
            execution_successful: false,
            tool_configuration_notifications: notifications,
        },
    );
    r
}

/// Where the schema of the document is published.
pub const SARIF_SCHEMA_URL: &'static str =
    "https://docs.oasis-open.org/sarif/sarif/v2.1.0/errata01/os/schemas/sarif-schema-2.1.0.json";
/// The version of SARIF the document follows.
pub const SARIF_SCHEMA_VERSION: &'static str = "2.1.0";
/// Who makes the tool.
pub const ORGANIZATION: &'static str = "Amazon Web Services";

impl SarifDriver {
    /// The tool named `name` at `version`, published at `repository` and described by
    /// `description`.
    pub fn describing(name: &str, version: &str, repository: &str, description: &str) -> (r:
        SarifDriver)
        ensures
            r.name@ == name@,
            r.semantic_version@ == version@,
            r.full_name@ == name@ + " "@ + version@,
            r.organization@ == ORGANIZATION@,
            r.download_uri@ == repository@,
            r.information_uri@ == repository@,
            r.short_description.text@ == description@,
    {
        let mut full_name = string_of(name);
        push_str(&mut full_name, " ");
        push_str(&mut full_name, version);
        SarifDriver {
            name: string_of(name),
            semantic_version: string_of(version),
            full_name,
            organization: string_of(ORGANIZATION),
            download_uri: string_of(repository),
            information_uri: string_of(repository),
            short_description: SarifMessage { text: string_of(description) },
        }
    }
}

/// What a run over `reports` by the tool `driver` holds: an artifact for each data file that
/// failed, once each, in the order they are first met; the results of their failed clauses; and
/// the invocation, when a rules file could not be read.
pub open spec fn run_matches(run: SarifRun, reports: Seq<FileReport>, driver: SarifDriver) -> bool {
    &&& run.tool.driver == driver
    &&& artifact_uris(run.artifacts@) == first_occurrences(failing_names(reports)).map_values(
        |n: Seq<char>| sanitized(n),
    )
    &&& results_view(run.results.0@) == run_results(reports)
    &&& invocations_match(run.invocations@, reports)
}

impl SarifRun {
    /// Adds an artifact at `location`.
    pub fn insert_artifact(&mut self, location: String)
        ensures
            artifact_uris(final(self).artifacts@) == artifact_uris(old(self).artifacts@).push(
                location@,
            ),
            final(self).tool == old(self).tool,
            final(self).invocations == old(self).invocations,
            final(self).results == old(self).results,
    {
        let ghost before = self.artifacts@;
        self.artifacts.push(SarifArtifact { location: SarifArtifactLocation { uri: location } });
        assert(artifact_uris(self.artifacts@) =~= artifact_uris(before).push(location@));
    }

    /// Adds `results` after those the run holds.
    pub fn extend_results(&mut self, results: SarifResults)
        ensures
            results_view(final(self).results.0@) == results_view(old(self).results.0@)
                + results_view(results.0@),
            final(self).tool == old(self).tool,
            final(self).invocations == old(self).invocations,
            final(self).artifacts == old(self).artifacts,
    {
        let ghost before = self.results.0@;
        let mut more = results.0;
        let ghost added = more@;
        self.results.0.append(&mut more);
        assert(results_view(self.results.0@) =~= results_view(before) + results_view(added));
    }

    /// The run over `reports` by the tool `driver`.
    pub fn from_reports(reports: &Vec<FileReport>, driver: SarifDriver) -> (r: SarifRun)
        ensures
            run_matches(r, reports@, driver),
    {
        let ghost d = driver;
        let mut run = SarifRun {
            tool: SarifTool { driver },
            invocations: Vec::new(),
            artifacts: Vec::new(),
            results: SarifResults(Vec::new()),
        };
        let mut seen: Vec<String> = Vec::new();
        let mut i: usize = 0;
        while i < reports.len()
            invariant
                i <= reports@.len(),
                run.tool.driver == d,
                views(seen@) == first_occurrences(failing_names(reports@.take(i as int))),
                artifact_uris(run.artifacts@) == first_occurrences(
                    failing_names(reports@.take(i as int)),
                ).map_values(|n: Seq<char>| sanitized(n)),
                results_view(run.results.0@) == run_results(reports@.take(i as int)),
            decreases reports.len() - i,
        {
            let report = &reports[i];
            let ghost prefix = reports@.take(i as int);
            let ghost next = reports@.take(i + 1);
            assert(next.drop_last() =~= prefix);
            assert(next.last() == *report);
            if report.status == Status::FAIL {
                let name = report.name.as_str();
                if name.unicode_len() > 0 && !contains_string(&seen, name) {
                    proof {
                        lemma_first_occurrences_contains(failing_names(prefix), name@);
                    }
                    let ghost before_seen = seen@;
                    let ghost before_uris = artifact_uris(run.artifacts@);
                    assert(failing_names(next) == failing_names(prefix).push(name@));
                    assert(failing_names(next).drop_last() =~= failing_names(prefix));
                    assert(failing_names(next).last() == name@);
                    assert(first_occurrences(failing_names(next)) == first_occurrences(
                        failing_names(prefix),
                    ).push(name@));
                    seen.push(report.name.clone());
                    assert(views(seen@) =~= views(before_seen).push(name@));
                    run.insert_artifact(sanitize_path(name));
                    assert(artifact_uris(run.artifacts@) =~= first_occurrences(
                        failing_names(next),
                    ).map_values(|n: Seq<char>| sanitized(n)));
                } else if name.unicode_len() > 0 {
                    proof {
                        lemma_first_occurrences_contains(failing_names(prefix), name@);
                    }
                    assert(failing_names(next) == failing_names(prefix).push(name@));
                    assert(failing_names(next).drop_last() =~= failing_names(prefix));
                }
                let mut j: usize = 0;
                assert(report.not_compliant@.take(0) =~= Seq::<ClauseFailure>::empty());
                assert(run_results(prefix) + failures_results(report.not_compliant@.take(0), name@)
                    =~= run_results(prefix));
                while j < report.not_compliant.len()
                    invariant
                        j <= report.not_compliant@.len(),
                        name@ == report.name@,
                        run.tool.driver == d,
                        artifact_uris(run.artifacts@) == first_occurrences(
                            failing_names(next),
                        ).map_values(|n: Seq<char>| sanitized(n)),
                        results_view(run.results.0@) == run_results(prefix) + failures_results(
                            report.not_compliant@.take(j as int),
                            name@,
                        ),
                    decreases report.not_compliant.len() - j,
                {
                    let found = SarifResults::from_failure(&report.not_compliant[j], name);
                    run.extend_results(found);
                    let ghost taken = report.not_compliant@.take(j + 1);
                    assert(taken.drop_last() =~= report.not_compliant@.take(j as int));
                    assert(results_view(run.results.0@) =~= run_results(prefix)
                        + failures_results(taken, name@));
                    j += 1;
                }
                assert(report.not_compliant@.take(j as int) =~= report.not_compliant@);
            }
            i += 1;
        }
        assert(reports@.take(i as int) =~= reports@);
        run.invocations = build_invocations(reports);
        run
    }
}

impl SarifReport {
    /// The document for `reports`, made by the tool `driver`: one run.
    pub fn new(reports: &Vec<FileReport>, driver: SarifDriver) -> (r: SarifReport)
        ensures
            r.schema@ == SARIF_SCHEMA_URL@,
            r.version@ == SARIF_SCHEMA_VERSION@,
            r.runs@.len() == 1,
            run_matches(r.runs@[0], reports@, driver),
    {
        let mut runs: Vec<SarifRun> = Vec::new();
        runs.push(SarifRun::from_reports(reports, driver));
        SarifReport {
            schema: string_of(SARIF_SCHEMA_URL),
            version: string_of(SARIF_SCHEMA_VERSION),
            runs,
        }
    }
}

// ---------------------------------------------------------------------------------------------
// Laws
// ---------------------------------------------------------------------------------------------

/// A character a percent-encoded segment may hold: an ASCII letter or digit, `-`, `.`, `_`, `~`,
/// or the `%` of an escape.
pub open spec fn uri_segment_char(c: char) -> bool {
    let n = c as u32;
    (48 <= n <= 57) || (65 <= n <= 90) || (97 <= n <= 122) || n == 45 || n == 46 || n == 95
        || n == 126 || n == 37
}

proof fn lemma_escaped_byte_chars(b: u8)
    ensures
        forall|i: int| 0 <= i < escaped_byte(b).len() ==> uri_segment_char(#[trigger] escaped_byte(b)[i]),
{
    let hi = b / 16;
    let lo = b % 16;
    assert(hi < 16 && lo < 16);
    assert(uri_segment_char(hex_digit(hi)));
    assert(uri_segment_char(hex_digit(lo)));
    assert(uri_segment_char('%'));
}

proof fn lemma_escaped_bytes_chars(bytes: Seq<u8>)
    ensures
        forall|i: int| 0 <= i < escaped_bytes(bytes).len() ==> uri_segment_char(#[trigger] escaped_bytes(bytes)[i]),
    decreases bytes.len(),
{
    if bytes.len() > 0 {
        lemma_escaped_bytes_chars(bytes.drop_last());
        lemma_escaped_byte_chars(bytes.last());
        let front = escaped_bytes(bytes.drop_last());
        let back = escaped_byte(bytes.last());
        assert forall|i: int| 0 <= i < escaped_bytes(bytes).len() implies uri_segment_char(
            #[trigger] escaped_bytes(bytes)[i],
        ) by {
            if i < front.len() {
                assert(escaped_bytes(bytes)[i] == front[i]);
            } else {
                assert(escaped_bytes(bytes)[i] == back[i - front.len()]);
            }
        }
    }
}

/// Percent-encoding a path segment leaves only letters, digits, `-`, `.`, `_`, `~` and escapes: no
/// `/`, so the separators between segments survive, and no `#`, `?` or space, which a URI parser
/// would read as a fragment, a query or an error.
pub proof fn law_percent_encoded_segment_is_uri_safe(segment: Seq<char>)
    ensures
        forall|i: int|
            0 <= i < percent_encoded(segment).len() ==> uri_segment_char(#[trigger] percent_encoded(segment)[i]),
        !percent_encoded(segment).contains('/'),
        !percent_encoded(segment).contains('#'),
        !percent_encoded(segment).contains('?'),
        !percent_encoded(segment).contains(' '),
{
    lemma_escaped_bytes_chars(encode_utf8(segment));
    let e = percent_encoded(segment);
    assert forall|c: char| e.contains(c) implies uri_segment_char(c) by {
        let i = choose|i: int| 0 <= i < e.len() && e[i] == c;
        assert(uri_segment_char(e[i]));
    }
}

/// Dropping repeats leaves no item twice.
proof fn lemma_first_occurrences_distinct(s: Seq<Seq<char>>)
    ensures
        forall|i: int, j: int|
            0 <= i < j < first_occurrences(s).len() ==> #[trigger] first_occurrences(s)[i]
                != #[trigger] first_occurrences(s)[j],
    decreases s.len(),
{
    if s.len() > 0 {
        let d = s.drop_last();
        lemma_first_occurrences_distinct(d);
        if !d.contains(s.last()) {
            lemma_first_occurrences_contains(d, s.last());
            let f = first_occurrences(d);
            assert forall|i: int, j: int|
                0 <= i < j < first_occurrences(s).len() implies #[trigger] first_occurrences(s)[i]
                != #[trigger] first_occurrences(s)[j] by {
                if j == f.len() {
                    assert(first_occurrences(s)[i] == f[i]);
                    assert(f.contains(f[i]));
                } else {
                    assert(first_occurrences(s)[i] == f[i]);
                    assert(first_occurrences(s)[j] == f[j]);
                }
            }
        }
    }
}

/// A run names each data file that failed, and no other, exactly once among its artifacts.
pub proof fn law_each_failing_file_is_one_artifact(reports: Seq<FileReport>)
    ensures
        forall|i: int, j: int|
            0 <= i < j < first_occurrences(failing_names(reports)).len() ==> #[trigger] first_occurrences(
                failing_names(reports),
            )[i] != #[trigger] first_occurrences(failing_names(reports))[j],
        forall|n: Seq<char>|
            #[trigger] first_occurrences(failing_names(reports)).contains(n) <==> failing_names(
                reports,
            ).contains(n),
{
    lemma_first_occurrences_distinct(failing_names(reports));
    assert forall|n: Seq<char>|
        #[trigger] first_occurrences(failing_names(reports)).contains(n) <==> failing_names(
            reports,
        ).contains(n) by {
        lemma_first_occurrences_contains(failing_names(reports), n);
    }
}

/// Keeping first pairs names no rules file twice.
proof fn lemma_first_by_file_distinct(s: Seq<(Seq<char>, Seq<char>)>)
    ensures
        forall|i: int, j: int|
            0 <= i < j < first_by_file(s).len() ==> (#[trigger] first_by_file(s)[i]).0
                != (#[trigger] first_by_file(s)[j]).0,
    decreases s.len(),
{
    if s.len() > 0 {
        let d = s.drop_last();
        lemma_first_by_file_distinct(d);
        if pair_names(d).contains(s.last().0) {
            assert(first_by_file(s) == first_by_file(d));
        } else {
            lemma_first_by_file_names(d, s.last().0);
            let f = first_by_file(d);
            assert forall|i: int, j: int|
                0 <= i < j < first_by_file(s).len() implies (#[trigger] first_by_file(s)[i]).0
                != (#[trigger] first_by_file(s)[j]).0 by {
                if j == f.len() {
                    assert(first_by_file(s)[i] == f[i]);
                    assert(first_by_file(s)[j] == s.last());
                    assert(pair_names(f)[i] == f[i].0);
                    assert(pair_names(f).contains(f[i].0));
                } else {
                    assert(first_by_file(s)[i] == f[i]);
                    assert(first_by_file(s)[j] == f[j]);
                }
            }
        }
    }
}

/// Every rules file that could not be read is reported by exactly one notification, however many
/// reports repeat it; a run where every rules file was read carries no invocation at all.
pub proof fn law_each_unreadable_rules_file_is_one_notification(reports: Seq<FileReport>)
    ensures
        forall|i: int, j: int|
            0 <= i < j < first_by_file(error_pairs(reports)).len() ==> (#[trigger] first_by_file(
                error_pairs(reports),
            )[i]).0 != (#[trigger] first_by_file(error_pairs(reports))[j]).0,
        forall|n: Seq<char>|
            #[trigger] pair_names(first_by_file(error_pairs(reports))).contains(n) <==> pair_names(
                error_pairs(reports),
            ).contains(n),
        error_pairs(reports).len() == 0 ==> expected_notifications(reports).len() == 0,
{
    lemma_first_by_file_distinct(error_pairs(reports));
    assert forall|n: Seq<char>|
        #[trigger] pair_names(first_by_file(error_pairs(reports))).contains(n) <==> pair_names(
            error_pairs(reports),
        ).contains(n) by {
        lemma_first_by_file_names(error_pairs(reports), n);
    }
}

} // verus!
