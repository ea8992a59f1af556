//! The per-resource report of a validation: for one resource, each failing rule with the clauses
//! that failed on that resource, drawn as nested blocks.
use vstd::prelude::*;

use crate::commands::console::{emit_messages, message_lines, message_pieces, padded};
use crate::commands::name_info::CmpOperator;
use crate::commands::test::{is_prefix, starts_with};
use crate::text::{decimal, push_str, string_of, usize_to_text};

verus! {

/// The messages a rule or clause carries.
pub struct Messages {
    /// The rule author's message.
    pub custom_message: Option<String>,
    /// Why the clause could not be checked.
    pub error_message: Option<String>,
}

/// A property a query did not find, with where the query stopped.
pub struct UnResolvedValue {
    /// The path of the last value the query reached.
    pub path: String,
    /// The line of the data that value stands on.
    pub line: usize,
    /// What was left of the query there.
    pub remaining_query: String,
    /// Why the query stopped, when it says.
    pub reason: Option<String>,
}

/// A value in the data: where it stands and what it is, as printed.
pub struct ValueAt {
    pub path: String,
    pub line: usize,
    pub value: String,
}

/// A one-value check that was made and failed.
pub struct UnaryComparison {
    pub value: ValueAt,
    pub comparison: (CmpOperator, bool),
}

/// A comparison of two values that was made and failed.
pub struct BinaryComparison {
    pub from: ValueAt,
    pub to: ValueAt,
    pub comparison: (CmpOperator, bool),
}

/// A membership check of a value in a list that was made and failed.
pub struct InComparison {
    pub from: ValueAt,
    pub to: Vec<ValueAt>,
    pub comparison: (CmpOperator, bool),
}

/// What a one-value clause came to.
pub enum UnaryCheck {
    UnResolved(UnResolvedValue),
    Resolved(UnaryComparison),
    /// A variable of the rule that did not resolve; the report prints nothing for it.
    UnResolvedContext(String),
}

/// What a two-value clause came to.
pub enum BinaryCheck {
    UnResolved(UnResolvedValue),
    Resolved(BinaryComparison),
    InResolved(InComparison),
}

/// A failing one-value clause; `id` tells it apart from every other clause of the report.
pub struct UnaryReport {
    pub id: u64,
    pub context: String,
    pub messages: Messages,
    pub check: UnaryCheck,
}

/// A failing two-value clause; `id` tells it apart from every other clause of the report.
pub struct BinaryReport {
    pub id: u64,
    pub context: String,
    pub messages: Messages,
    pub check: BinaryCheck,
}

/// A failing clause.
pub enum GuardClauseReport {
    Unary(UnaryReport),
    Binary(BinaryReport),
}

/// A failing rule and its failing clauses.
pub struct RuleReport {
    pub name: String,
    pub messages: Messages,
    pub checks: Vec<ClauseReport>,
}

/// Failing clauses joined by `or`.
pub struct DisjunctionsReport {
    pub checks: Vec<ClauseReport>,
}

/// A block whose query found nothing; `id` tells it apart from every other clause.
pub struct BlockReport {
    pub id: u64,
    pub context: String,
    pub messages: Messages,
    pub unresolved: Option<UnResolvedValue>,
}

/// The report of a failing rule, disjunction, block or clause.
pub enum ClauseReport {
    Rule(RuleReport),
    Disjunctions(DisjunctionsReport),
    Block(BlockReport),
    Clause(GuardClauseReport),
}

/// What a report knows of one non-compliant resource: its name and type, where the CDK put it,
/// the clauses that failed on it (by their `id`) and the paths of the rules that failed on it.
pub struct LocalResourceAggr {
    pub name: String,
    pub resource_type: String,
    pub cdk_path: Option<String>,
    pub clauses: Vec<u64>,
    pub paths: Vec<String>,
}

/// What a report adds below a failing clause, such as the lines of data that the clause looked
/// at. Each method gives the text it adds and the width it asks the headings of the clause's
/// messages to be padded to, and may move on to what it adds next.
pub trait ComparisonErrorWriter: Sized {
    /// What [`ComparisonErrorWriter::missing_property_msg`] gives, and the writer after it.
    spec fn missing_property_outcome(
        self,
        unresolved: Option<UnResolvedValue>,
        prefix: Seq<char>,
    ) -> (Seq<char>, nat, Self);

    /// What [`ComparisonErrorWriter::unary_error_msg`] gives, and the writer after it.
    spec fn unary_outcome(self, check: UnaryComparison, prefix: Seq<char>) -> (Seq<char>, nat, Self);

    /// What [`ComparisonErrorWriter::binary_error_msg`] gives, and the writer after it.
    spec fn binary_outcome(self, check: BinaryComparison, prefix: Seq<char>) -> (
        Seq<char>,
        nat,
        Self,
    );

    /// What [`ComparisonErrorWriter::binary_error_in_msg`] gives, and the writer after it.
    spec fn binary_in_outcome(self, check: InComparison, prefix: Seq<char>) -> (
        Seq<char>,
        nat,
        Self,
    );

    /// The text added for a property a query did not find, each line after `prefix`.
    fn missing_property_msg(&mut self, unresolved: &Option<UnResolvedValue>, prefix: &str) -> (r: (
        String,
        usize,
    ))
        ensures
            (r.0@, r.1 as nat, *final(self)) == old(self).missing_property_outcome(
                *unresolved,
                prefix@,
            ),
    ;

    /// The text added for a failed one-value check.
    fn unary_error_msg(&mut self, check: &UnaryComparison, prefix: &str) -> (r: (String, usize))
        ensures
            (r.0@, r.1 as nat, *final(self)) == old(self).unary_outcome(*check, prefix@),
    ;

    /// The text added for a failed comparison.
    fn binary_error_msg(&mut self, check: &BinaryComparison, prefix: &str) -> (r: (String, usize))
        ensures
            (r.0@, r.1 as nat, *final(self)) == old(self).binary_outcome(*check, prefix@),
    ;

    /// The text added for a failed membership check.
    fn binary_error_in_msg(&mut self, check: &InComparison, prefix: &str) -> (r: (String, usize))
        ensures
            (r.0@, r.1 as nat, *final(self)) == old(self).binary_in_outcome(*check, prefix@),
    ;
}

/// The writer that adds nothing below a clause and asks for no width.
pub struct PlainErrorWriter;

impl ComparisonErrorWriter for PlainErrorWriter {
    open spec fn missing_property_outcome(
        self,
        unresolved: Option<UnResolvedValue>,
        prefix: Seq<char>,
    ) -> (Seq<char>, nat, Self) {
        (Seq::empty(), 0, self)
    }

    open spec fn unary_outcome(self, check: UnaryComparison, prefix: Seq<char>) -> (
        Seq<char>,
        nat,
        Self,
    ) {
        (Seq::empty(), 0, self)
    }

    open spec fn binary_outcome(self, check: BinaryComparison, prefix: Seq<char>) -> (
        Seq<char>,
        nat,
        Self,
    ) {
        (Seq::empty(), 0, self)
    }

    open spec fn binary_in_outcome(self, check: InComparison, prefix: Seq<char>) -> (
        Seq<char>,
        nat,
        Self,
    ) {
        (Seq::empty(), 0, self)
    }

    fn missing_property_msg(&mut self, unresolved: &Option<UnResolvedValue>, prefix: &str) -> (r: (
        String,
        usize,
    )) {
        (String::new(), 0)
    }

    fn unary_error_msg(&mut self, check: &UnaryComparison, prefix: &str) -> (r: (String, usize)) {
        (String::new(), 0)
    }

    fn binary_error_msg(&mut self, check: &BinaryComparison, prefix: &str) -> (r: (String, usize)) {
        (String::new(), 0)
    }

    fn binary_error_in_msg(&mut self, check: &InComparison, prefix: &str) -> (r: (String, usize)) {
        (String::new(), 0)
    }
}

/// The author's message of `m`, empty when there is none.
pub open spec fn custom_text(m: Messages) -> Seq<char> {
    match m.custom_message {
        Some(t) => t@,
        None => Seq::empty(),
    }
}

/// The error message of `m`, empty when there is none.
pub open spec fn error_text(m: Messages) -> Seq<char> {
    match m.error_message {
        Some(t) => t@,
        None => Seq::empty(),
    }
}

/// Whether the author's message of `m` can be printed: a message that is not empty has a piece
/// that is not blank.
pub open spec fn printable_messages(m: Messages) -> bool {
    custom_text(m).len() > 0 ==> message_pieces(custom_text(m)).len() > 0
}

/// What the report prints for a clause whose query did not find a property: the clause, the
/// author's message, where the query stopped and what was missing, why, and what `w` adds.
pub open spec fn retrieval_text<E: ComparisonErrorWriter>(
    prefix: Seq<char>,
    vur: UnResolvedValue,
    context: Seq<char>,
    message: Seq<char>,
    w: E,
) -> (Seq<char>, E) {
    let p1 = prefix + "  "@;
    let p2 = p1 + "  "@;
    let added = w.missing_property_outcome(Some(vur), p2);
    (
        prefix + "Check = "@ + context + " {\n"@ + message_lines(p1, message, Seq::empty(), 0)
            + p1 + "RequiredPropertyError {\n"@ + p2 + "PropertyPath = "@ + vur.path@ + "\n"@
            + p2 + "MissingProperty = "@ + vur.remaining_query@ + "\n"@ + match vur.reason {
            Some(r) => if r@.len() > 0 {
                p2 + "Reason = "@ + r@ + "\n"@
            } else {
                Seq::empty()
            },
            None => Seq::empty(),
        } + added.0 + p1 + "}\n"@ + prefix + "}\n"@,
        added.2,
    )
}

/// What the report prints for a failed check: the clause, a `ComparisonError` block with the
/// clause's messages padded to the width `added` asks for, and `added`'s text; for a membership
/// check that text follows the block's end.
pub open spec fn comparison_error_text(
    prefix: Seq<char>,
    context: Seq<char>,
    messages: Messages,
    added: Seq<char>,
    width: nat,
    added_after_block: bool,
) -> Seq<char> {
    let p1 = prefix + "  "@;
    let p2 = p1 + "  "@;
    let lines = message_lines(p2, custom_text(messages), error_text(messages), width);
    prefix + "Check = "@ + context + " {\n"@ + p1 + "ComparisonError {\n"@ + lines + if added_after_block {
        p1 + "}\n"@ + added + "\n"@
    } else {
        added + "\n"@ + p1 + "}\n"@
    } + prefix + "}\n"@
}

/// Where the query of a block stopped and what it missed, when it says, each line after `p2`
/// with its heading padded.
pub open spec fn block_path_lines(p2: Seq<char>, unresolved: Option<UnResolvedValue>) -> Seq<char> {
    match unresolved {
        Some(u) => if u.path@.len() > 0 {
            p2 + padded("PropertyPath"@, 19) + "= "@ + u.path@ + "\n"@ + p2 + padded(
                "MissingProperty"@,
                19,
            ) + "= "@ + u.remaining_query@ + "\n"@
        } else {
            Seq::empty()
        },
        None => Seq::empty(),
    }
}

/// The width a block's own headings ask for: room for `MissingProperty` when it prints where its
/// query stopped, else for `Message`.
pub open spec fn block_own_width(unresolved: Option<UnResolvedValue>) -> nat {
    match unresolved {
        Some(u) => if u.path@.len() > 0 {
            19
        } else {
            11
        },
        None => 11,
    }
}

/// What the report prints for a block whose query found nothing.
pub open spec fn block_text<E: ComparisonErrorWriter>(
    prefix: Seq<char>,
    blk: BlockReport,
    w: E,
) -> (Seq<char>, E) {
    let p1 = prefix + "  "@;
    let p2 = p1 + "  "@;
    let added = w.missing_property_outcome(blk.unresolved, p2);
    let width = if added.1 > block_own_width(blk.unresolved) {
        added.1
    } else {
        block_own_width(blk.unresolved)
    };
    (
        prefix + "Check = "@ + blk.context@ + " {\n"@ + p1 + "RequiredPropertyError {\n"@
            + block_path_lines(p2, blk.unresolved) + message_lines(
            p2,
            custom_text(blk.messages),
            error_text(blk.messages),
            width,
        ) + added.0 + "\n"@ + p1 + "}\n"@ + prefix + "}\n"@,
        added.2,
    )
}

/// What the report prints for `c` on the resource whose failing clauses are `ids`, every line
/// after `prefix`, with `w` adding below each failed check; and the writer after it. A block or
/// clause that did not fail on the resource prints nothing.
pub open spec fn clause_text<E: ComparisonErrorWriter>(
    c: ClauseReport,
    ids: Seq<u64>,
    prefix: Seq<char>,
    w: E,
) -> (Seq<char>, E)
    decreases c, 0int,
{
    match c {
        ClauseReport::Rule(rr) => {
            let p1 = prefix + "  "@;
            let inner = checks_text(rr.checks@, rr.checks@.len() as int, ids, p1 + "  "@, w);
            (
                prefix + "Rule = "@ + rr.name@ + " {\n"@ + message_lines(
                    p1,
                    custom_text(rr.messages),
                    error_text(rr.messages),
                    0,
                ) + p1 + "ALL {\n"@ + inner.0 + p1 + "}\n"@ + prefix + "}\n"@,
                inner.1,
            )
        },
        ClauseReport::Disjunctions(ors) => {
            let inner = checks_text(ors.checks@, ors.checks@.len() as int, ids, prefix + "  "@, w);
            (prefix + "ANY {\n"@ + inner.0 + prefix + "}\n"@, inner.1)
        },
        ClauseReport::Block(blk) => if ids.contains(blk.id) {
            block_text(prefix, blk, w)
        } else {
            (Seq::empty(), w)
        },
        ClauseReport::Clause(GuardClauseReport::Unary(ur)) => if !ids.contains(ur.id) {
            (Seq::empty(), w)
        } else {
            match ur.check {
                UnaryCheck::UnResolved(vur) => retrieval_text(
                    prefix,
                    vur,
                    ur.context@,
                    custom_text(ur.messages),
                    w,
                ),
                UnaryCheck::Resolved(re) => {
                    let added = w.unary_outcome(re, prefix + "    "@);
                    (
                        comparison_error_text(
                            prefix,
                            ur.context@,
                            ur.messages,
                            added.0,
                            added.1,
                            false,
                        ),
                        added.2,
                    )
                },
                UnaryCheck::UnResolvedContext(_) => (Seq::empty(), w),
            }
        },
        ClauseReport::Clause(GuardClauseReport::Binary(br)) => if !ids.contains(br.id) {
            (Seq::empty(), w)
        } else {
            match br.check {
                BinaryCheck::UnResolved(vur) => retrieval_text(
                    prefix,
                    vur,
                    br.context@,
                    custom_text(br.messages),
                    w,
                ),
                BinaryCheck::Resolved(bc) => {
                    let added = w.binary_outcome(bc, prefix + "    "@);
                    (
                        comparison_error_text(
                            prefix,
                            br.context@,
                            br.messages,
                            added.0,
                            added.1,
                            false,
                        ),
                        added.2,
                    )
                },
                BinaryCheck::InResolved(inr) => {
                    let added = w.binary_in_outcome(inr, prefix + "    "@);
                    (
                        comparison_error_text(
                            prefix,
                            br.context@,
                            br.messages,
                            added.0,
                            added.1,
                            true,
                        ),
                        added.2,
                    )
                },
            }
        },
    }
}

/// What the report prints for the first `n` of `cs`, in order, threading the writer through.
pub open spec fn checks_text<E: ComparisonErrorWriter>(
    cs: Seq<ClauseReport>,
    n: int,
    ids: Seq<u64>,
    prefix: Seq<char>,
    w: E,
) -> (Seq<char>, E)
    decreases cs, n,
{
    if n <= 0 || n > cs.len() {
        (Seq::empty(), w)
    } else {
        let before = checks_text(cs, n - 1, ids, prefix, w);
        let last = clause_text(cs[n - 1], ids, prefix, before.1);
        (before.0 + last.0, last.1)
    }
}

/// Whether the report can print every message it reaches from `c` on the resource whose
/// failing clauses are `ids`.
pub open spec fn printable_clause(c: ClauseReport, ids: Seq<u64>) -> bool
    decreases c, 0int,
{
    match c {
        ClauseReport::Rule(rr) => printable_messages(rr.messages) && printable_checks(
            rr.checks@,
            rr.checks@.len() as int,
            ids,
        ),
        ClauseReport::Disjunctions(ors) => printable_checks(
            ors.checks@,
            ors.checks@.len() as int,
            ids,
        ),
        ClauseReport::Block(blk) => ids.contains(blk.id) ==> printable_messages(blk.messages),
        ClauseReport::Clause(GuardClauseReport::Unary(ur)) => ids.contains(ur.id) && !(
        ur.check is UnResolvedContext) ==> printable_messages(ur.messages),
        ClauseReport::Clause(GuardClauseReport::Binary(br)) => ids.contains(br.id)
            ==> printable_messages(br.messages),
    }
}

/// Whether the report can print every message it reaches from the first `n` of `cs`.
pub open spec fn printable_checks(cs: Seq<ClauseReport>, n: int, ids: Seq<u64>) -> bool
    decreases cs, n,
{
    if n <= 0 || n > cs.len() {
        true
    } else {
        printable_checks(cs, n - 1, ids) && printable_clause(cs[n - 1], ids)
    }
}

/// A copy of `u`.
fn copy_unresolved(u: &UnResolvedValue) -> (r: UnResolvedValue)
    ensures
        r == *u,
{
    UnResolvedValue {
        path: u.path.clone(),
        line: u.line,
        remaining_query: u.remaining_query.clone(),
        reason: match &u.reason {
            Some(t) => Some(t.clone()),
            None => None,
        },
    }
}

/// The text of `o`, empty when there is none.
fn text_or_empty(o: &Option<String>) -> (r: &str)
    ensures
        r@ == match *o {
            Some(t) => t@,
            None => Seq::<char>::empty(),
        },
{
    match o {
        Some(t) => t.as_str(),
        None => {
            proof {
                reveal_strlit("");
            }
            ""
        },
    }
}

/// Whether `ids` holds `id`.
fn holds_id(ids: &Vec<u64>, id: u64) -> (r: bool)
    ensures
        r == ids@.contains(id),
{
    let mut i: usize = 0;
    while i < ids.len()
        invariant
            i <= ids@.len(),
            forall|k: int| 0 <= k < i ==> ids@[k] != id,
        decreases ids.len() - i,
    {
        if ids[i] == id {
            assert(ids@[i as int] == id);
            return true;
        }
        i += 1;
    }
    false
}

/// See [`retrieval_text`].
fn emit_retrieval_error<E: ComparisonErrorWriter>(
    prefix: &str,
    vur: &UnResolvedValue,
    context: &str,
    message: &str,
    err_emitter: &mut E,
) -> (r: String)
    requires
        message@.len() > 0 ==> message_pieces(message@).len() > 0,
    ensures
        (r@, *final(err_emitter)) == retrieval_text(prefix@, *vur, context@, message@, *old(err_emitter)),
{
    let mut p1 = string_of(prefix);
    push_str(&mut p1, "  ");
    let mut p2 = string_of(p1.as_str());
    push_str(&mut p2, "  ");
    let mut out = string_of(prefix);
    push_str(&mut out, "Check = ");
    push_str(&mut out, context);
    push_str(&mut out, " {\n");
    proof {
        reveal_strlit("");
    }
    let lines = emit_messages(p1.as_str(), message, "", 0);
    push_str(&mut out, lines.as_str());
    push_str(&mut out, p1.as_str());
    push_str(&mut out, "RequiredPropertyError {\n");
    push_str(&mut out, p2.as_str());
    push_str(&mut out, "PropertyPath = ");
    push_str(&mut out, vur.path.as_str());
    push_str(&mut out, "\n");
    push_str(&mut out, p2.as_str());
    push_str(&mut out, "MissingProperty = ");
    push_str(&mut out, vur.remaining_query.as_str());
    push_str(&mut out, "\n");
    let reason = text_or_empty(&vur.reason);
    if reason.unicode_len() > 0 {
        push_str(&mut out, p2.as_str());
        push_str(&mut out, "Reason = ");
        push_str(&mut out, reason);
        push_str(&mut out, "\n");
    }
    let unresolved = Some(copy_unresolved(vur));
    let added = err_emitter.missing_property_msg(&unresolved, p2.as_str());
    push_str(&mut out, added.0.as_str());
    push_str(&mut out, p1.as_str());
    push_str(&mut out, "}\n");
    push_str(&mut out, prefix);
    push_str(&mut out, "}\n");
    assert(out@ =~= retrieval_text(prefix@, *vur, context@, message@, *old(err_emitter)).0);
    out
}

/// See [`comparison_error_text`].
fn emit_comparison_error(
    prefix: &str,
    context: &str,
    messages: &Messages,
    added: &str,
    width: usize,
    added_after_block: bool,
) -> (r: String)
    requires
        printable_messages(*messages),
    ensures
        r@ == comparison_error_text(
            prefix@,
            context@,
            *messages,
            added@,
            width as nat,
            added_after_block,
        ),
{
    let mut p1 = string_of(prefix);
    push_str(&mut p1, "  ");
    let mut p2 = string_of(p1.as_str());
    push_str(&mut p2, "  ");
    let mut out = string_of(prefix);
    push_str(&mut out, "Check = ");
    push_str(&mut out, context);
    push_str(&mut out, " {\n");
    push_str(&mut out, p1.as_str());
    push_str(&mut out, "ComparisonError {\n");
    let lines = emit_messages(
        p2.as_str(),
        text_or_empty(&messages.custom_message),
        text_or_empty(&messages.error_message),
        width,
    );
    push_str(&mut out, lines.as_str());
    if added_after_block {
        push_str(&mut out, p1.as_str());
        push_str(&mut out, "}\n");
        push_str(&mut out, added);
        push_str(&mut out, "\n");
    } else {
        push_str(&mut out, added);
        push_str(&mut out, "\n");
        push_str(&mut out, p1.as_str());
        push_str(&mut out, "}\n");
    }
    push_str(&mut out, prefix);
    push_str(&mut out, "}\n");
    assert(out@ =~= comparison_error_text(
        prefix@,
        context@,
        *messages,
        added@,
        width as nat,
        added_after_block,
    ));
    out
}

/// See [`block_path_lines`] and [`block_own_width`].
fn emit_block_path(p2: &str, unresolved: &Option<UnResolvedValue>) -> (r: (String, usize))
    ensures
        r.0@ == block_path_lines(p2@, *unresolved),
        r.1 as nat == block_own_width(*unresolved),
{
    let mut out = String::new();
    if let Some(u) = unresolved {
        if u.path.as_str().unicode_len() > 0 {
            push_str(&mut out, p2);
            push_str(&mut out, "PropertyPath       = ");
            push_str(&mut out, u.path.as_str());
            push_str(&mut out, "\n");
            push_str(&mut out, p2);
            push_str(&mut out, "MissingProperty    = ");
            push_str(&mut out, u.remaining_query.as_str());
            push_str(&mut out, "\n");
            proof {
                reveal_strlit("PropertyPath");
                reveal_strlit("MissingProperty");
                reveal_strlit("PropertyPath       = ");
                reveal_strlit("MissingProperty    = ");
                reveal_strlit("= ");
                assert(padded("PropertyPath"@, 19) + "= "@ =~= "PropertyPath       = "@);
                assert(padded("MissingProperty"@, 19) + "= "@ =~= "MissingProperty    = "@);
                assert(out@ =~= block_path_lines(p2@, *unresolved));
            }
            return (out, 19);
        }
    }
    (out, 11)
}

/// See [`block_text`].
fn emit_block<E: ComparisonErrorWriter>(prefix: &str, blk: &BlockReport, err_writer: &mut E) -> (r:
    String)
    requires
        printable_messages(blk.messages),
    ensures
        (r@, *final(err_writer)) == block_text(prefix@, *blk, *old(err_writer)),
{
    let mut p1 = string_of(prefix);
    push_str(&mut p1, "  ");
    let mut p2 = string_of(p1.as_str());
    push_str(&mut p2, "  ");
    let (path_lines, own_width) = emit_block_path(p2.as_str(), &blk.unresolved);
    let added = err_writer.missing_property_msg(&blk.unresolved, p2.as_str());
    let width = if added.1 > own_width {
        added.1
    } else {
        own_width
    };
    let lines = emit_messages(
        p2.as_str(),
        text_or_empty(&blk.messages.custom_message),
        text_or_empty(&blk.messages.error_message),
        width,
    );
    let mut out = string_of(prefix);
    push_str(&mut out, "Check = ");
    push_str(&mut out, blk.context.as_str());
    push_str(&mut out, " {\n");
    push_str(&mut out, p1.as_str());
    push_str(&mut out, "RequiredPropertyError {\n");
    push_str(&mut out, path_lines.as_str());
    push_str(&mut out, lines.as_str());
    push_str(&mut out, added.0.as_str());
    push_str(&mut out, "\n");
    push_str(&mut out, p1.as_str());
    push_str(&mut out, "}\n");
    push_str(&mut out, prefix);
    push_str(&mut out, "}\n");
    assert(out@ =~= block_text(prefix@, *blk, *old(err_writer)).0);
    out
}

/// What the report prints for `clause` on `resource` (see [`clause_text`]): a failing rule as a
/// `Rule` block holding its messages and an `ALL` block of its clauses, a disjunction as an `ANY`
/// block, and each block or clause that failed on the resource as a `Check` block, with what
/// `err_writer` adds below it; everything else prints nothing.
pub fn pprint_clauses<E: ComparisonErrorWriter>(
    clause: &ClauseReport,
    resource: &LocalResourceAggr,
    prefix: &str,
    err_writer: &mut E,
) -> (r: String)
    requires
        printable_clause(*clause, resource.clauses@),
    ensures
        (r@, *final(err_writer)) == clause_text(*clause, resource.clauses@, prefix@, *old(err_writer)),
    decreases clause,
{
    match clause {
        ClauseReport::Rule(rr) => {
            let mut p1 = string_of(prefix);
            push_str(&mut p1, "  ");
            let mut out = string_of(prefix);
            push_str(&mut out, "Rule = ");
            push_str(&mut out, rr.name.as_str());
            push_str(&mut out, " {\n");
            let lines = emit_messages(
                p1.as_str(),
                text_or_empty(&rr.messages.custom_message),
                text_or_empty(&rr.messages.error_message),
                0,
            );
            push_str(&mut out, lines.as_str());
            push_str(&mut out, p1.as_str());
            push_str(&mut out, "ALL {\n");
            let mut p2 = string_of(p1.as_str());
            push_str(&mut p2, "  ");
            let body = pprint_checks(&rr.checks, resource, p2.as_str(), err_writer);
            push_str(&mut out, body.as_str());
            push_str(&mut out, p1.as_str());
            push_str(&mut out, "}\n");
            push_str(&mut out, prefix);
            push_str(&mut out, "}\n");
            assert(out@ =~= clause_text(*clause, resource.clauses@, prefix@, *old(err_writer)).0);
            out
        },
        ClauseReport::Disjunctions(ors) => {
            let mut p1 = string_of(prefix);
            push_str(&mut p1, "  ");
            let mut out = string_of(prefix);
            push_str(&mut out, "ANY {\n");
            let body = pprint_checks(&ors.checks, resource, p1.as_str(), err_writer);
            push_str(&mut out, body.as_str());
            push_str(&mut out, prefix);
            push_str(&mut out, "}\n");
            assert(out@ =~= clause_text(*clause, resource.clauses@, prefix@, *old(err_writer)).0);
            out
        },
        ClauseReport::Block(blk) => {
            if !holds_id(&resource.clauses, blk.id) {
                return String::new();
            }
            emit_block(prefix, blk, err_writer)
        },
        ClauseReport::Clause(GuardClauseReport::Unary(ur)) => {
            if !holds_id(&resource.clauses, ur.id) {
                return String::new();
            }
            match &ur.check {
                UnaryCheck::UnResolved(vur) => emit_retrieval_error(
                    prefix,
                    vur,
                    ur.context.as_str(),
                    text_or_empty(&ur.messages.custom_message),
                    err_writer,
                ),
                UnaryCheck::Resolved(re) => {
                    let mut p2 = string_of(prefix);
                    push_str(&mut p2, "    ");
                    let added = err_writer.unary_error_msg(re, p2.as_str());
                    emit_comparison_error(
                        prefix,
                        ur.context.as_str(),
                        &ur.messages,
                        added.0.as_str(),
                        added.1,
                        false,
                    )
                },
                UnaryCheck::UnResolvedContext(_) => String::new(),
            }
        },
        ClauseReport::Clause(GuardClauseReport::Binary(br)) => {
            if !holds_id(&resource.clauses, br.id) {
                return String::new();
            }
            match &br.check {
                BinaryCheck::UnResolved(vur) => emit_retrieval_error(
                    prefix,
                    vur,
                    br.context.as_str(),
                    text_or_empty(&br.messages.custom_message),
                    err_writer,
                ),
                BinaryCheck::Resolved(bc) => {
                    let mut p2 = string_of(prefix);
                    push_str(&mut p2, "    ");
                    let added = err_writer.binary_error_msg(bc, p2.as_str());
                    emit_comparison_error(
                        prefix,
                        br.context.as_str(),
                        &br.messages,
                        added.0.as_str(),
                        added.1,
                        false,
                    )
                },
                BinaryCheck::InResolved(inr) => {
                    let mut p2 = string_of(prefix);
                    push_str(&mut p2, "    ");
                    let added = err_writer.binary_error_in_msg(inr, p2.as_str());
                    emit_comparison_error(
                        prefix,
                        br.context.as_str(),
                        &br.messages,
                        added.0.as_str(),
                        added.1,
                        true,
                    )
                },
            }
        },
    }
}

/// What the report prints for each of `checks` in order (see [`checks_text`]).
fn pprint_checks<E: ComparisonErrorWriter>(
    checks: &Vec<ClauseReport>,
    resource: &LocalResourceAggr,
    prefix: &str,
    err_writer: &mut E,
) -> (r: String)
    requires
        printable_checks(checks@, checks@.len() as int, resource.clauses@),
    ensures
        (r@, *final(err_writer)) == checks_text(
            checks@,
            checks@.len() as int,
            resource.clauses@,
            prefix@,
            *old(err_writer),
        ),
    decreases checks,
{
    let mut out = String::new();
    let n = checks.len();
    let mut i: usize = 0;
    while i < n
        invariant
            n == checks@.len(),
            i <= n,
            printable_checks(checks@, n as int, resource.clauses@),
            (out@, *err_writer) == checks_text(
                checks@,
                i as int,
                resource.clauses@,
                prefix@,
                *old(err_writer),
            ),
        decreases n - i,
    {
        proof {
            lemma_printable_check(checks@, n as int, i as int, resource.clauses@);
        }
        let s = pprint_clauses(&checks[i], resource, prefix, err_writer);
        push_str(&mut out, s.as_str());
        i += 1;
    }
    out
}

/// Each of the first `n` clauses that [`printable_checks`] speaks of is printable.
proof fn lemma_printable_check(cs: Seq<ClauseReport>, n: int, i: int, ids: Seq<u64>)
    requires
        printable_checks(cs, n, ids),
        0 <= i < n <= cs.len(),
    ensures
        printable_clause(cs[i], ids),
    decreases n,
{
    if i < n - 1 {
        lemma_printable_check(cs, n - 1, i, ids);
    }
}

/// The paths of the rules that failed on a resource start with `/` and the rule's name; whether
/// `rule` is one of them.
pub open spec fn rule_failed_on(rule: ClauseReport, paths: Seq<String>) -> bool {
    match rule {
        ClauseReport::Rule(rr) => exists|k: int|
            0 <= k < paths.len() && is_prefix("/"@ + rr.name@, #[trigger] paths[k]@),
        _ => false,
    }
}

/// What the single-line summary prints for the first `n` of the failing rules `rules` on
/// `res`: each rule that failed on it, as [`clause_text`] draws it; and the writer after it.
pub open spec fn rules_on_resource_text<E: ComparisonErrorWriter>(
    rules: Seq<ClauseReport>,
    n: int,
    res: LocalResourceAggr,
    w: E,
) -> (Seq<char>, E)
    decreases n,
{
    if n <= 0 || n > rules.len() {
        (Seq::empty(), w)
    } else {
        let before = rules_on_resource_text(rules, n - 1, res, w);
        if rule_failed_on(rules[n - 1], res.paths@) {
            let last = clause_text(rules[n - 1], res.clauses@, "  "@, before.1);
            (before.0 + last.0, last.1)
        } else {
            before
        }
    }
}

/// The lines that open a resource's block: its name, its type, and its CDK path when it has one.
pub open spec fn resource_head(res: LocalResourceAggr) -> Seq<char> {
    "Resource = "@ + res.name@ + " {\n"@ + "  "@ + padded("Type"@, 10) + "= "@
        + res.resource_type@ + "\n"@ + match res.cdk_path {
        Some(p) => if p@.len() > 0 {
            "  "@ + padded("CDK-Path"@, 10) + "= "@ + p@ + "\n"@
        } else {
            Seq::empty()
        },
        None => Seq::empty(),
    }
}

/// What the single-line summary prints for the first `n` of `resources`, each a block holding
/// the failing rules on it.
pub open spec fn resources_text<E: ComparisonErrorWriter>(
    resources: Seq<LocalResourceAggr>,
    n: int,
    rules: Seq<ClauseReport>,
    w: E,
) -> (Seq<char>, E)
    decreases n,
{
    if n <= 0 || n > resources.len() {
        (Seq::empty(), w)
    } else {
        let before = resources_text(resources, n - 1, rules, w);
        let body = rules_on_resource_text(rules, rules.len() as int, resources[n - 1], before.1);
        (before.0 + resource_head(resources[n - 1]) + body.0 + "}\n"@, body.1)
    }
}

/// What the single-line summary of a CloudFormation template prints: nothing when no rule
/// failed; else which data was evaluated against which rules, how many resources are not
/// compliant, and a block for each of them in the order given.
pub open spec fn single_line_text<E: ComparisonErrorWriter>(
    data_file: Seq<char>,
    rules_file: Seq<char>,
    rules: Seq<ClauseReport>,
    resources: Seq<LocalResourceAggr>,
    w: E,
) -> (Seq<char>, E) {
    if rules.len() == 0 {
        (Seq::empty(), w)
    } else {
        let body = resources_text(resources, resources.len() as int, rules, w);
        (
            "Evaluating data "@ + data_file + " against rules "@ + rules_file + "\n"@
                + "Number of non-compliant resources "@ + decimal(resources.len()) + "\n"@
                + body.0,
            body.1,
        )
    }
}

/// Whether `rule` failed on `res` (see [`rule_failed_on`]).
fn failed_on(rule: &ClauseReport, res: &LocalResourceAggr) -> (r: bool)
    ensures
        r == rule_failed_on(*rule, res.paths@),
{
    let rr = match rule {
        ClauseReport::Rule(rr) => rr,
        _ => {
            return false;
        },
    };
    let mut rule_path = string_of("/");
    push_str(&mut rule_path, rr.name.as_str());
    let mut k: usize = 0;
    while k < res.paths.len()
        invariant
            k <= res.paths@.len(),
            rule_path@ == "/"@ + rr.name@,
            *rule == ClauseReport::Rule(*rr),
            forall|j: int| 0 <= j < k ==> !is_prefix(rule_path@, #[trigger] res.paths@[j]@),
        decreases res.paths.len() - k,
    {
        if starts_with(res.paths[k].as_str(), rule_path.as_str()) {
            assert(is_prefix("/"@ + rr.name@, res.paths@[k as int]@));
            assert(*rule == ClauseReport::Rule(*rr));
            assert(rule_failed_on(*rule, res.paths@));
            return true;
        }
        k += 1;
    }
    false
}

/// See [`resource_head`].
fn emit_resource_head(res: &LocalResourceAggr) -> (r: String)
    ensures
        r@ == resource_head(*res),
{
    let mut out = string_of("Resource = ");
    push_str(&mut out, res.name.as_str());
    push_str(&mut out, " {\n");
    push_str(&mut out, "  Type      = ");
    push_str(&mut out, res.resource_type.as_str());
    push_str(&mut out, "\n");
    proof {
        reveal_strlit("Type");
        reveal_strlit("  Type      = ");
        reveal_strlit("= ");
        reveal_strlit("  ");
        assert("  "@ + padded("Type"@, 10) + "= "@ =~= "  Type      = "@);
    }
    let ghost head = out@;
    if let Some(p) = &res.cdk_path {
        if p.as_str().unicode_len() > 0 {
            push_str(&mut out, "  CDK-Path  = ");
            push_str(&mut out, p.as_str());
            push_str(&mut out, "\n");
            proof {
                reveal_strlit("CDK-Path");
                reveal_strlit("  CDK-Path  = ");
                assert("  "@ + padded("CDK-Path"@, 10) + "= "@ =~= "  CDK-Path  = "@);
            }
        }
    }
    assert(out@ =~= resource_head(*res));
    out
}

/// Whether the single-line summary can print every failing rule on every resource: each is a
/// rule whose messages, on each resource it failed on, can be printed.
pub open spec fn summary_printable(rules: Seq<ClauseReport>, resources: Seq<LocalResourceAggr>) -> bool {
    forall|i: int, j: int|
        0 <= i < rules.len() && 0 <= j < resources.len() ==> #[trigger] rules[i] is Rule
            && printable_clause(rules[i], #[trigger] resources[j].clauses@)
}

/// What the single-line summary of a CloudFormation template prints for the failing rules
/// `not_compliant` and the non-compliant resources `resources` (see [`single_line_text`]), with
/// `err_writer` adding below each failed check.
pub fn single_line<E: ComparisonErrorWriter>(
    data_file: &str,
    rules_file: &str,
    not_compliant: &Vec<ClauseReport>,
    resources: &Vec<LocalResourceAggr>,
    err_writer: &mut E,
) -> (r: String)
    requires
        summary_printable(not_compliant@, resources@),
    ensures
        (r@, *final(err_writer)) == single_line_text(
            data_file@,
            rules_file@,
            not_compliant@,
            resources@,
            *old(err_writer),
        ),
{
    if not_compliant.len() == 0 {
        return String::new();
    }
    let mut out = string_of("Evaluating data ");
    push_str(&mut out, data_file);
    push_str(&mut out, " against rules ");
    push_str(&mut out, rules_file);
    push_str(&mut out, "\nNumber of non-compliant resources ");
    let count = usize_to_text(resources.len());
    push_str(&mut out, count.as_str());
    push_str(&mut out, "\n");
    let ghost head = out@;
    proof {
        reveal_strlit("\nNumber of non-compliant resources ");
        reveal_strlit("Number of non-compliant resources ");
        reveal_strlit("\n");
        assert("\n"@ + "Number of non-compliant resources "@ =~= "\nNumber of non-compliant resources "@);
    }
    let mut j: usize = 0;
    while j < resources.len()
        invariant
            j <= resources@.len(),
            summary_printable(not_compliant@, resources@),
            (out@, *err_writer) == {
                let body = resources_text(resources@, j as int, not_compliant@, *old(err_writer));
                (head + body.0, body.1)
            },
        decreases resources.len() - j,
    {
        let res = &resources[j];
        let mut body = emit_resource_head(res);
        let mut i: usize = 0;
        let ghost w_start = *err_writer;
        while i < not_compliant.len()
            invariant
                i <= not_compliant@.len(),
                j < resources@.len(),
                res == resources@[j as int],
                summary_printable(not_compliant@, resources@),
                (body@, *err_writer) == {
                    let inner = rules_on_resource_text(not_compliant@, i as int, *res, w_start);
                    (resource_head(*res) + inner.0, inner.1)
                },
            decreases not_compliant.len() - i,
        {
            if failed_on(&not_compliant[i], res) {
                assert(printable_clause(not_compliant@[i as int], resources@[j as int].clauses@));
                let s = pprint_clauses(&not_compliant[i], res, "  ", err_writer);
                push_str(&mut body, s.as_str());
                proof {
                    reveal_strlit("  ");
                }
            }
            i += 1;
        }
        push_str(&mut out, body.as_str());
        push_str(&mut out, "}\n");
        j += 1;
    }
    out
}

} // verus!
