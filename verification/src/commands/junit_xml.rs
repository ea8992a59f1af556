//! The XML document of a junit report, as the sequence of events an XML writer emits for it.
use vstd::prelude::*;

use crate::commands::junit::{JunitReport, JunitTestCase, TestCaseStatus, TestSuite};
use crate::commands::sarif::Messages;
use crate::text::{
    decimal, join, join_strings, lemma_split_on_join, split_on, string_of, u128_to_text,
    usize_to_text, views,
};

verus! {

/// One event of an XML document.
pub enum XmlEvent {
    /// The XML declaration.
    Decl { version: String, encoding: String },
    /// An opening tag, with its attributes in order.
    Start { name: String, attributes: Vec<(String, String)> },
    /// A tag with no content, with its attributes in order.
    Empty { name: String, attributes: Vec<(String, String)> },
    /// A closing tag.
    End { name: String },
    /// Character data, to be escaped by the writer.
    Text(String),
    /// The end of the document.
    Eof,
    /// A line break and the indentation of the writer's depth.
    Indent,
}

/// What an [`XmlEvent`] says.
pub enum XmlEventView {
    Decl { version: Seq<char>, encoding: Seq<char> },
    Start { name: Seq<char>, attributes: Seq<(Seq<char>, Seq<char>)> },
    Empty { name: Seq<char>, attributes: Seq<(Seq<char>, Seq<char>)> },
    End { name: Seq<char> },
    Text(Seq<char>),
    Eof,
    Indent,
}

/// The attributes `a`, as text.
pub open spec fn attributes_view(a: Seq<(String, String)>) -> Seq<(Seq<char>, Seq<char>)> {
    a.map_values(|p: (String, String)| (p.0@, p.1@))
}

impl View for XmlEvent {
    type V = XmlEventView;

    open spec fn view(&self) -> XmlEventView {
        match self {
            XmlEvent::Decl { version, encoding } => XmlEventView::Decl {
                version: version@,
                encoding: encoding@,
            },
            XmlEvent::Start { name, attributes } => XmlEventView::Start {
                name: name@,
                attributes: attributes_view(attributes@),
            },
            XmlEvent::Empty { name, attributes } => XmlEventView::Empty {
                name: name@,
                attributes: attributes_view(attributes@),
            },
            XmlEvent::End { name } => XmlEventView::End { name: name@ },
            XmlEvent::Text(t) => XmlEventView::Text(t@),
            XmlEvent::Eof => XmlEventView::Eof,
            XmlEvent::Indent => XmlEventView::Indent,
        }
    }
}

/// What the events `v` say, in order.
pub open spec fn events_view(v: Seq<XmlEvent>) -> Seq<XmlEventView> {
    v.map_values(|e: XmlEvent| e@)
}

// ---------------------------------------------------------------------------------------------
// The events of a report
// ---------------------------------------------------------------------------------------------

/// `s` as one line of a failure's text, when it has any characters.
pub open spec fn line_if_nonempty(s: Option<String>) -> Seq<Seq<char>> {
    match s {
        Some(text) => if text@.len() > 0 {
            seq![text@]
        } else {
            Seq::empty()
        },
        None => Seq::empty(),
    }
}

/// The lines of a failure's text: for each message in order, its custom message and then its
/// error message, leaving out those that are absent or empty.
pub open spec fn failure_lines(ms: Seq<Messages>) -> Seq<Seq<char>>
    decreases ms.len(),
{
    if ms.len() == 0 {
        Seq::empty()
    } else {
        failure_lines(ms.drop_last()) + line_if_nonempty(ms.last().custom_message)
            + line_if_nonempty(ms.last().error_message)
    }
}

/// The attributes of a test case's tag: its id when it has one, its name and time, and its status
/// unless it failed (a failure says so by the element it holds).
pub open spec fn case_attributes(c: JunitTestCase) -> Seq<(Seq<char>, Seq<char>)> {
    (match c.id {
        Some(id) => seq![("id"@, id@)],
        None => Seq::empty(),
    }) + seq![("name"@, c.name@), ("time"@, decimal(c.time as nat))] + match c.status {
        TestCaseStatus::Fail(_) => Seq::empty(),
        TestCaseStatus::Skip { .. } => seq![("status"@, "skip"@)],
        TestCaseStatus::Pass => seq![("status"@, "pass"@)],
        TestCaseStatus::Error { .. } => seq![("status"@, "error"@)],
    }
}

/// An element `name` without attributes, holding the text `text`.
pub open spec fn text_element(name: Seq<char>, text: Seq<char>) -> Seq<XmlEventView> {
    seq![
        XmlEventView::Start { name, attributes: Seq::empty() },
        XmlEventView::Text(text),
        XmlEventView::End { name },
    ]
}

/// The events of one test case. A failure holds a `failure` element, with the failing rule's name
/// as its `message` and its lines as text, or empty when it has no line; an error holds an `error`
/// element with the error; a skip with reasons holds a `skipped` element with one reason a line;
/// anything else is an empty `testcase` element.
pub open spec fn case_events(c: JunitTestCase) -> Seq<XmlEventView> {
    let tag = case_attributes(c);
    match c.status {
        TestCaseStatus::Fail(f) => {
            let lines = failure_lines(f.messages@);
            let attributes = match f.name {
                Some(n) => seq![("message"@, n@)],
                None => Seq::empty(),
            };
            seq![XmlEventView::Start { name: "testcase"@, attributes: tag }] + (if lines.len() > 0 {
                seq![
                    XmlEventView::Start { name: "failure"@, attributes },
                    XmlEventView::Text(join(lines, "\n"@)),
                    XmlEventView::End { name: "failure"@ },
                ]
            } else {
                seq![XmlEventView::Empty { name: "failure"@, attributes }]
            }) + seq![XmlEventView::End { name: "testcase"@ }]
        },
        TestCaseStatus::Error { error } => seq![
            XmlEventView::Start { name: "testcase"@, attributes: tag },
        ] + text_element("error"@, error@) + seq![XmlEventView::End { name: "testcase"@ }],
        TestCaseStatus::Skip { reasons } => if reasons@.len() > 0 {
            seq![XmlEventView::Start { name: "testcase"@, attributes: tag }] + text_element(
                "skipped"@,
                join(views(reasons@), "\n"@),
            ) + seq![XmlEventView::End { name: "testcase"@ }]
        } else {
            seq![XmlEventView::Empty { name: "testcase"@, attributes: tag }]
        },
        TestCaseStatus::Pass => seq![XmlEventView::Empty { name: "testcase"@, attributes: tag }],
    }
}

/// The events of `cases`, one case after another.
pub open spec fn cases_events(cases: Seq<JunitTestCase>) -> Seq<XmlEventView>
    decreases cases.len(),
{
    if cases.len() == 0 {
        Seq::empty()
    } else {
        cases_events(cases.drop_last()) + case_events(cases.last())
    }
}

/// The events of one suite: a `testsuite` element with its name, totals and time, around its
/// cases.
pub open spec fn suite_events(s: TestSuite) -> Seq<XmlEventView> {
    seq![
        XmlEventView::Start {
            name: "testsuite"@,
            attributes: seq![
                ("name"@, s.name@),
                ("errors"@, decimal(s.errors as nat)),
                ("failures"@, decimal(s.failures as nat)),
                ("time"@, decimal(s.time as nat)),
            ],
        },
    ] + cases_events(s.test_cases@) + seq![XmlEventView::End { name: "testsuite"@ }]
}

/// The events of `suites`, one suite after another.
pub open spec fn suites_events(suites: Seq<TestSuite>) -> Seq<XmlEventView>
    decreases suites.len(),
{
    if suites.len() == 0 {
        Seq::empty()
    } else {
        suites_events(suites.drop_last()) + suite_events(suites.last())
    }
}

/// The events of a whole report: the declaration, a `testsuites` element with the report's name,
/// totals and duration around its suites, the end of the document and a closing line break.
pub open spec fn report_events(r: JunitReport) -> Seq<XmlEventView> {
    seq![
        XmlEventView::Decl { version: "1.0"@, encoding: "UTF-8"@ },
        XmlEventView::Start {
            name: "testsuites"@,
            attributes: seq![
                ("name"@, r.name@),
                ("tests"@, decimal(r.tests as nat)),
                ("failures"@, decimal(r.failures as nat)),
                ("errors"@, decimal(r.errors as nat)),
                ("time"@, decimal(r.duration as nat)),
            ],
        },
    ] + suites_events(r.test_suites@) + seq![
        XmlEventView::End { name: "testsuites"@ },
        XmlEventView::Eof,
        XmlEventView::Indent,
    ]
}

/// The lines of the failure a test case holds, if it failed.
pub open spec fn case_failure_lines(c: JunitTestCase) -> Seq<Seq<char>> {
    match c.status {
        TestCaseStatus::Fail(f) => failure_lines(f.messages@),
        _ => Seq::empty(),
    }
}

/// The reasons a test case was skipped for, if it was.
pub open spec fn case_skip_reasons(c: JunitTestCase) -> Seq<Seq<char>> {
    match c.status {
        TestCaseStatus::Skip { reasons } => views(reasons@),
        _ => Seq::empty(),
    }
}

/// Whether no line of `lines` holds a line break.
pub open spec fn single_lines(lines: Seq<Seq<char>>) -> bool {
    forall|k: int| 0 <= k < lines.len() ==> !(#[trigger] lines[k]).contains('\n')
}

/// The text of a failed test case splits at its line breaks back into the failure's lines, one
/// for each custom or error message, when none of them holds a line break itself: a reader of the
/// report can tell where one message ends and the next begins.
pub proof fn law_failure_text_splits_into_its_messages(c: JunitTestCase)
    requires
        c.status is Fail,
        case_failure_lines(c).len() > 0,
        single_lines(case_failure_lines(c)),
    ensures
        case_events(c).len() > 2,
        case_events(c)[2] matches XmlEventView::Text(t) && split_on(t, '\n') == case_failure_lines(c),
{
    reveal_strlit("\n");
    assert("\n"@ =~= seq!['\n']);
    lemma_split_on_join(case_failure_lines(c), '\n');
}

/// The text of a test case skipped for some reasons splits at its line breaks back into those
/// reasons, one a rule, when none of them holds a line break itself.
pub proof fn law_skip_text_splits_into_its_reasons(c: JunitTestCase)
    requires
        c.status is Skip,
        case_skip_reasons(c).len() > 0,
        single_lines(case_skip_reasons(c)),
    ensures
        case_events(c).len() > 2,
        case_events(c)[2] matches XmlEventView::Text(t) && split_on(t, '\n') == case_skip_reasons(c),
{
    reveal_strlit("\n");
    assert("\n"@ =~= seq!['\n']);
    lemma_split_on_join(case_skip_reasons(c), '\n');
}

/// The open elements after `e`, given those open before it: a start tag opens one, an end tag
/// closes the innermost, which must have its name; `None` when it does not.
pub open spec fn nest_step(open: Seq<Seq<char>>, e: XmlEventView) -> Option<Seq<Seq<char>>> {
    match e {
        XmlEventView::Start { name, .. } => Some(open.push(name)),
        XmlEventView::End { name } => if open.len() > 0 && open.last() == name {
            Some(open.drop_last())
        } else {
            None
        },
        _ => Some(open),
    }
}

/// The open elements after `events`, given those open before them; `None` when an end tag does
/// not close the innermost open element.
pub open spec fn nesting(events: Seq<XmlEventView>, open: Seq<Seq<char>>) -> Option<Seq<Seq<char>>>
    decreases events.len(),
{
    if events.len() == 0 {
        Some(open)
    } else {
        match nesting(events.drop_last(), open) {
            Some(before) => nest_step(before, events.last()),
            None => None,
        }
    }
}

/// Whether every element `events` open is closed by them, innermost first, and nothing else is.
pub open spec fn balanced(events: Seq<XmlEventView>) -> bool {
    forall|open: Seq<Seq<char>>| #[trigger] nesting(events, open) == Some(open)
}

/// Nesting through two runs of events is nesting through one, then the other.
pub proof fn lemma_nesting_concat(a: Seq<XmlEventView>, b: Seq<XmlEventView>, open: Seq<Seq<char>>)
    ensures
        nesting(a + b, open) == match nesting(a, open) {
            Some(mid) => nesting(b, mid),
            None => None,
        },
    decreases b.len(),
{
    if b.len() == 0 {
        assert(a + b =~= a);
    } else {
        lemma_nesting_concat(a, b.drop_last(), open);
        assert((a + b).drop_last() =~= a + b.drop_last());
        assert((a + b).last() == b.last());
    }
}

/// Two balanced runs of events make a balanced run.
pub proof fn lemma_balanced_concat(a: Seq<XmlEventView>, b: Seq<XmlEventView>)
    requires
        balanced(a),
        balanced(b),
    ensures
        balanced(a + b),
{
    assert forall|open: Seq<Seq<char>>| #[trigger] nesting(a + b, open) == Some(open) by {
        lemma_nesting_concat(a, b, open);
        assert(nesting(a, open) == Some(open));
        assert(nesting(b, open) == Some(open));
    }
}

/// An element `name` around a balanced run of events is balanced.
pub proof fn lemma_balanced_element(
    name: Seq<char>,
    attributes: Seq<(Seq<char>, Seq<char>)>,
    inner: Seq<XmlEventView>,
)
    requires
        balanced(inner),
    ensures
        balanced(
            seq![XmlEventView::Start { name, attributes }] + inner + seq![XmlEventView::End { name }],
        ),
{
    let start = seq![XmlEventView::Start { name, attributes }];
    let end = seq![XmlEventView::End { name }];
    assert forall|open: Seq<Seq<char>>| #[trigger] nesting(start + inner + end, open) == Some(open) by {
        lemma_nesting_concat(start + inner, end, open);
        lemma_nesting_concat(start, inner, open);
        let pushed = open.push(name);
        assert(nesting(Seq::<XmlEventView>::empty(), open) == Some(open));
        assert(start.drop_last() =~= Seq::<XmlEventView>::empty());
        assert(nesting(start.drop_last(), open) == Some(open));
        assert(start.last() == XmlEventView::Start { name, attributes });
        assert(nest_step(open, start.last()) == Some(pushed));
        assert(nesting(start, open) == Some(pushed));
        assert(nesting(inner, pushed) == Some(pushed));
        assert(nesting(start + inner, open) == Some(pushed));
        assert(nesting(Seq::<XmlEventView>::empty(), pushed) == Some(pushed));
        assert(end.drop_last() =~= Seq::<XmlEventView>::empty());
        assert(nesting(end.drop_last(), pushed) == Some(pushed));
        assert(pushed.drop_last() =~= open);
        assert(pushed.last() == name);
        assert(nest_step(pushed, end.last()) == Some(open));
        assert(nesting(end, pushed) == Some(open));
    }
}

/// A run of events with no tag that opens or closes is balanced.
pub proof fn lemma_balanced_flat(events: Seq<XmlEventView>)
    requires
        forall|k: int| 0 <= k < events.len() ==> !(#[trigger] events[k] is Start) && !(events[k] is End),
    ensures
        balanced(events),
    decreases events.len(),
{
    if events.len() > 0 {
        lemma_balanced_flat(events.drop_last());
        assert(!(events[events.len() - 1] is Start) && !(events[events.len() - 1] is End));
        assert forall|open: Seq<Seq<char>>| #[trigger] nesting(events, open) == Some(open) by {
            assert(nesting(events.drop_last(), open) == Some(open));
        }
    } else {
        assert forall|open: Seq<Seq<char>>| #[trigger] nesting(events, open) == Some(open) by {}
    }
}

/// The events of one test case are balanced.
pub proof fn lemma_case_balanced(c: JunitTestCase)
    ensures
        balanced(case_events(c)),
{
    let tag = case_attributes(c);
    match c.status {
        TestCaseStatus::Fail(f) => {
            let lines = failure_lines(f.messages@);
            let attributes = match f.name {
                Some(n) => seq![("message"@, n@)],
                None => Seq::<(Seq<char>, Seq<char>)>::empty(),
            };
            let inner = if lines.len() > 0 {
                let text = seq![XmlEventView::Text(join(lines, "\n"@))];
                lemma_balanced_flat(text);
                lemma_balanced_element("failure"@, attributes, text);
                assert(failure_element(attributes, lines) =~= seq![XmlEventView::Start { name: "failure"@, attributes }] + text + seq![XmlEventView::End { name: "failure"@ }]);
                failure_element(attributes, lines)
            } else {
                let empty = seq![XmlEventView::Empty { name: "failure"@, attributes }];
                lemma_balanced_flat(empty);
                empty
            };
            lemma_balanced_element("testcase"@, tag, inner);
            assert(case_events(c) =~= seq![XmlEventView::Start { name: "testcase"@, attributes: tag }] + inner + seq![XmlEventView::End { name: "testcase"@ }]);
        },
        TestCaseStatus::Error { error } => {
            let text = seq![XmlEventView::Text(error@)];
            lemma_balanced_flat(text);
            lemma_balanced_element("error"@, Seq::empty(), text);
            assert(text_element("error"@, error@) =~= seq![XmlEventView::Start { name: "error"@, attributes: Seq::empty() }] + text + seq![XmlEventView::End { name: "error"@ }]);
            lemma_balanced_element("testcase"@, tag, text_element("error"@, error@));
        },
        TestCaseStatus::Skip { reasons } => {
            if reasons@.len() > 0 {
                let body = join(views(reasons@), "\n"@);
                let text = seq![XmlEventView::Text(body)];
                lemma_balanced_flat(text);
                lemma_balanced_element("skipped"@, Seq::empty(), text);
                assert(text_element("skipped"@, body) =~= seq![XmlEventView::Start { name: "skipped"@, attributes: Seq::empty() }] + text + seq![XmlEventView::End { name: "skipped"@ }]);
                lemma_balanced_element("testcase"@, tag, text_element("skipped"@, body));
            } else {
                lemma_balanced_flat(case_events(c));
            }
        },
        TestCaseStatus::Pass => {
            lemma_balanced_flat(case_events(c));
        },
    }
}

/// The failure element of a test case whose failure has the lines `lines`.
pub open spec fn failure_element(
    attributes: Seq<(Seq<char>, Seq<char>)>,
    lines: Seq<Seq<char>>,
) -> Seq<XmlEventView> {
    seq![
        XmlEventView::Start { name: "failure"@, attributes },
        XmlEventView::Text(join(lines, "\n"@)),
        XmlEventView::End { name: "failure"@ },
    ]
}

/// The events of any run of test cases are balanced.
pub proof fn lemma_cases_balanced(cases: Seq<JunitTestCase>)
    ensures
        balanced(cases_events(cases)),
    decreases cases.len(),
{
    if cases.len() == 0 {
        lemma_balanced_flat(cases_events(cases));
    } else {
        lemma_cases_balanced(cases.drop_last());
        lemma_case_balanced(cases.last());
        lemma_balanced_concat(cases_events(cases.drop_last()), case_events(cases.last()));
    }
}

/// The events of any run of suites are balanced.
pub proof fn lemma_suites_balanced(suites: Seq<TestSuite>)
    ensures
        balanced(suites_events(suites)),
    decreases suites.len(),
{
    if suites.len() == 0 {
        lemma_balanced_flat(suites_events(suites));
    } else {
        lemma_suites_balanced(suites.drop_last());
        let s = suites.last();
        lemma_cases_balanced(s.test_cases@);
        lemma_balanced_element(
            "testsuite"@,
            seq![
                ("name"@, s.name@),
                ("errors"@, decimal(s.errors as nat)),
                ("failures"@, decimal(s.failures as nat)),
                ("time"@, decimal(s.time as nat)),
            ],
            cases_events(s.test_cases@),
        );
        lemma_balanced_concat(suites_events(suites.drop_last()), suite_events(s));
    }
}

/// A junit document is well nested: every element it opens it closes, innermost first, with the
/// name it was opened with, and it closes nothing it did not open.
pub proof fn law_junit_document_is_well_nested(r: JunitReport)
    ensures
        nesting(report_events(r), Seq::empty()) == Some(Seq::<Seq<char>>::empty()),
{
    let attributes = seq![
        ("name"@, r.name@),
        ("tests"@, decimal(r.tests as nat)),
        ("failures"@, decimal(r.failures as nat)),
        ("errors"@, decimal(r.errors as nat)),
        ("time"@, decimal(r.duration as nat)),
    ];
    let decl = seq![XmlEventView::Decl { version: "1.0"@, encoding: "UTF-8"@ }];
    let tail = seq![XmlEventView::Eof, XmlEventView::Indent];
    lemma_suites_balanced(r.test_suites@);
    lemma_balanced_element("testsuites"@, attributes, suites_events(r.test_suites@));
    let body = seq![XmlEventView::Start { name: "testsuites"@, attributes }] + suites_events(
        r.test_suites@,
    ) + seq![XmlEventView::End { name: "testsuites"@ }];
    lemma_balanced_flat(decl);
    lemma_balanced_flat(tail);
    lemma_balanced_concat(decl, body);
    lemma_balanced_concat(decl + body, tail);
    assert(report_events(r) =~= decl + body + tail);
    assert(nesting(report_events(r), Seq::empty()) == Some(Seq::<Seq<char>>::empty()));
}

// ---------------------------------------------------------------------------------------------
// Building the events
// ---------------------------------------------------------------------------------------------

/// The attribute `key="value"`.
fn attribute(key: &str, value: String) -> (r: (String, String))
    ensures
        r.0@ == key@,
        r.1@ == value@,
{
    (string_of(key), value)
}

/// Appends `e` to `out`.
fn emit(out: &mut Vec<XmlEvent>, e: XmlEvent)
    ensures
        events_view(final(out)@) == events_view(old(out)@).push(e@),
{
    out.push(e);
    assert(events_view(out@) =~= events_view(old(out)@).push(e@));
}

/// Appends an element `name` holding the text `text`.
fn emit_text_element(out: &mut Vec<XmlEvent>, name: &str, text: String)
    ensures
        events_view(final(out)@) == events_view(old(out)@) + text_element(name@, text@),
{
    let ghost start = events_view(out@);
    emit(out, XmlEvent::Start { name: string_of(name), attributes: Vec::new() });
    assert(attributes_view(Seq::<(String, String)>::empty()) =~= Seq::empty());
    emit(out, XmlEvent::Text(text));
    emit(out, XmlEvent::End { name: string_of(name) });
    assert(events_view(out@) =~= start + text_element(name@, text@));
}

/// The lines of a failure's text, as [`failure_lines`] gives them.
fn collect_failure_lines(ms: &Vec<Messages>) -> (r: Vec<String>)
    ensures
        views(r@) == failure_lines(ms@),
{
    let mut lines: Vec<String> = Vec::new();
    let mut i: usize = 0;
    while i < ms.len()
        invariant
            i <= ms@.len(),
            views(lines@) == failure_lines(ms@.take(i as int)),
        decreases ms.len() - i,
    {
        let ghost before = views(lines@);
        let m = &ms[i];
        if let Some(c) = &m.custom_message {
            if c.as_str().unicode_len() > 0 {
                lines.push(c.clone());
            }
        }
        let ghost middle = views(lines@);
        assert(middle =~= before + line_if_nonempty(m.custom_message));
        if let Some(e) = &m.error_message {
            if e.as_str().unicode_len() > 0 {
                lines.push(e.clone());
            }
        }
        assert(views(lines@) =~= middle + line_if_nonempty(m.error_message));
        assert(ms@.take(i + 1).drop_last() =~= ms@.take(i as int));
        i += 1;
    }
    assert(ms@.take(i as int) =~= ms@);
    lines
}

/// The attributes of the tag of `c`.
fn test_case_attributes(c: &JunitTestCase) -> (r: Vec<(String, String)>)
    ensures
        attributes_view(r@) == case_attributes(*c),
{
    let mut attributes: Vec<(String, String)> = Vec::new();
    if let Some(id) = &c.id {
        attributes.push(attribute("id", id.clone()));
    }
    attributes.push(attribute("name", c.name.clone()));
    attributes.push(attribute("time", u128_to_text(c.time)));
    match &c.status {
        TestCaseStatus::Fail(_) => {},
        TestCaseStatus::Skip { .. } => {
            attributes.push(attribute("status", string_of("skip")));
        },
        TestCaseStatus::Pass => {
            attributes.push(attribute("status", string_of("pass")));
        },
        TestCaseStatus::Error { .. } => {
            attributes.push(attribute("status", string_of("error")));
        },
    }
    assert(attributes_view(attributes@) =~= case_attributes(*c));
    attributes
}

/// Appends the events of the test case `c`.
pub fn test_case_events(c: &JunitTestCase, out: &mut Vec<XmlEvent>)
    ensures
        events_view(final(out)@) == events_view(old(out)@) + case_events(*c),
{
    let ghost start = events_view(out@);
    let tag = test_case_attributes(c);
    match &c.status {
        TestCaseStatus::Fail(f) => {
            emit(out, XmlEvent::Start { name: string_of("testcase"), attributes: tag });
            let lines = collect_failure_lines(&f.messages);
            let mut attributes: Vec<(String, String)> = Vec::new();
            if let Some(n) = &f.name {
                attributes.push(attribute("message", n.clone()));
            }
            let ghost failure_attributes = attributes_view(attributes@);
            assert(failure_attributes =~= match f.name {
                Some(n) => seq![("message"@, n@)],
                None => Seq::<(Seq<char>, Seq<char>)>::empty(),
            });
            if lines.len() > 0 {
                emit(out, XmlEvent::Start { name: string_of("failure"), attributes });
                emit(out, XmlEvent::Text(join_strings(&lines, "\n")));
                emit(out, XmlEvent::End { name: string_of("failure") });
            } else {
                emit(out, XmlEvent::Empty { name: string_of("failure"), attributes });
            }
            emit(out, XmlEvent::End { name: string_of("testcase") });
        },
        TestCaseStatus::Error { error } => {
            emit(out, XmlEvent::Start { name: string_of("testcase"), attributes: tag });
            emit_text_element(out, "error", error.clone());
            emit(out, XmlEvent::End { name: string_of("testcase") });
        },
        TestCaseStatus::Skip { reasons } => {
            if reasons.len() > 0 {
                emit(out, XmlEvent::Start { name: string_of("testcase"), attributes: tag });
                emit_text_element(out, "skipped", join_strings(reasons, "\n"));
                emit(out, XmlEvent::End { name: string_of("testcase") });
            } else {
                emit(out, XmlEvent::Empty { name: string_of("testcase"), attributes: tag });
            }
        },
        TestCaseStatus::Pass => {
            emit(out, XmlEvent::Empty { name: string_of("testcase"), attributes: tag });
        },
    }
    assert(events_view(out@) =~= start + case_events(*c));
}

/// Appends the events of the suite `s`.
pub fn test_suite_events(s: &TestSuite, out: &mut Vec<XmlEvent>)
    ensures
        events_view(final(out)@) == events_view(old(out)@) + suite_events(*s),
{
    let ghost start = events_view(out@);
    let mut attributes: Vec<(String, String)> = Vec::new();
    attributes.push(attribute("name", s.name.clone()));
    attributes.push(attribute("errors", usize_to_text(s.errors)));
    attributes.push(attribute("failures", usize_to_text(s.failures)));
    attributes.push(attribute("time", u128_to_text(s.time)));
    assert(attributes_view(attributes@) =~= seq![
        ("name"@, s.name@),
        ("errors"@, decimal(s.errors as nat)),
        ("failures"@, decimal(s.failures as nat)),
        ("time"@, decimal(s.time as nat)),
    ]);
    emit(out, XmlEvent::Start { name: string_of("testsuite"), attributes });
    let ghost opened = events_view(out@);
    let mut i: usize = 0;
    while i < s.test_cases.len()
        invariant
            i <= s.test_cases@.len(),
            events_view(out@) == opened + cases_events(s.test_cases@.take(i as int)),
        decreases s.test_cases.len() - i,
    {
        test_case_events(&s.test_cases[i], out);
        assert(s.test_cases@.take(i + 1).drop_last() =~= s.test_cases@.take(i as int));
        i += 1;
    }
    assert(s.test_cases@.take(i as int) =~= s.test_cases@);
    emit(out, XmlEvent::End { name: string_of("testsuite") });
    assert(events_view(out@) =~= start + suite_events(*s));
}

/// The events an XML writer emits for the report `r`, in order: what its junit document is,
/// before the writer's escaping and indentation.
pub fn junit_events(r: &JunitReport) -> (out: Vec<XmlEvent>)
    ensures
        events_view(out@) == report_events(*r),
{
    let mut out: Vec<XmlEvent> = Vec::new();
    emit(&mut out, XmlEvent::Decl { version: string_of("1.0"), encoding: string_of("UTF-8") });
    let mut attributes: Vec<(String, String)> = Vec::new();
    attributes.push(attribute("name", r.name.clone()));
    attributes.push(attribute("tests", usize_to_text(r.tests)));
    attributes.push(attribute("failures", usize_to_text(r.failures)));
    attributes.push(attribute("errors", usize_to_text(r.errors)));
    attributes.push(attribute("time", u128_to_text(r.duration)));
    assert(attributes_view(attributes@) =~= seq![
        ("name"@, r.name@),
        ("tests"@, decimal(r.tests as nat)),
        ("failures"@, decimal(r.failures as nat)),
        ("errors"@, decimal(r.errors as nat)),
        ("time"@, decimal(r.duration as nat)),
    ]);
    emit(&mut out, XmlEvent::Start { name: string_of("testsuites"), attributes });
    let ghost opened = events_view(out@);
    let mut i: usize = 0;
    while i < r.test_suites.len()
        invariant
            i <= r.test_suites@.len(),
            events_view(out@) == opened + suites_events(r.test_suites@.take(i as int)),
        decreases r.test_suites.len() - i,
    {
        test_suite_events(&r.test_suites[i], &mut out);
        assert(r.test_suites@.take(i + 1).drop_last() =~= r.test_suites@.take(i as int));
        i += 1;
    }
    assert(r.test_suites@.take(i as int) =~= r.test_suites@);
    emit(&mut out, XmlEvent::End { name: string_of("testsuites") });
    emit(&mut out, XmlEvent::Eof);
    emit(&mut out, XmlEvent::Indent);
    assert(events_view(out@) =~= report_events(*r));
    out
}

} // verus!
