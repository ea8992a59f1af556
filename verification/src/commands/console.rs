//! Text the console reports print: where a template snippet starts, clause explanations cut to a
//! length a console can show, a clause's message and error, and the rules that passed or did not
//! apply.
use vstd::prelude::*;

use crate::sorted::{insert_sorted, string_set, strictly_sorted};
use crate::text::{
    chars_of, lemma_seq_lt_total, lemma_seq_lt_transitive, push_char, push_str, seq_lt, split_on,
    split_on_char, str_lt, string_from_chars, string_of, views,
};

verus! {

/// The first line of the snippet shown around a violation on `line`: two lines of context above
/// it, but never before the first line. Line numbers count from one.
pub open spec fn spec_context_start_line(line: usize) -> usize {
    if line <= 3 {
        1
    } else {
        (line - 2) as usize
    }
}

/// The first line of the snippet shown around a violation on `line`.
pub fn context_start_line(line: usize) -> (r: usize)
    ensures
        r == spec_context_start_line(line),
        r >= 1,
{
    let above = line.saturating_sub(2);
    if above < 1 {
        1
    } else {
        above
    }
}

/// A character with the Unicode `White_Space` property.
pub open spec fn spec_is_whitespace(c: char) -> bool {
    let n = c as u32;
    (9 <= n <= 13) || n == 32 || n == 0x85 || n == 0xA0 || n == 0x1680 || (0x2000 <= n <= 0x200A)
        || n == 0x2028 || n == 0x2029 || n == 0x202F || n == 0x205F || n == 0x3000
}

/// Whether `c` has the Unicode `White_Space` property (`char::is_whitespace`).
pub fn is_whitespace(c: char) -> (r: bool)
    ensures
        r == spec_is_whitespace(c),
{
    let n = c as u32;
    (9 <= n && n <= 13) || n == 32 || n == 0x85 || n == 0xA0 || n == 0x1680 || (0x2000 <= n && n
        <= 0x200A) || n == 0x2028 || n == 0x2029 || n == 0x202F || n == 0x205F || n == 0x3000
}

/// The longest clause explanation a console report prints, in characters.
pub const LONGEST_CLAUSE_EXPLANATION: usize = 240;

/// Where the last whitespace character of `s` is, if it has one.
pub open spec fn last_whitespace(s: Seq<char>) -> Option<int>
    decreases s.len(),
{
    if s.len() == 0 {
        None
    } else if spec_is_whitespace(s.last()) {
        Some(s.len() - 1)
    } else {
        last_whitespace(s.drop_last())
    }
}

/// `s` without the whitespace at its end (`str::trim_end`).
pub open spec fn trimmed_end(s: Seq<char>) -> Seq<char>
    decreases s.len(),
{
    if s.len() > 0 && spec_is_whitespace(s.last()) {
        trimmed_end(s.drop_last())
    } else {
        s
    }
}

/// An explanation as a console shows it: unchanged when it fits; else its first
/// [`LONGEST_CLAUSE_EXPLANATION`] characters, cut back to the last whitespace among them when there
/// is one, with the whitespace at the end trimmed and `...` after.
pub open spec fn shortened_text(s: Seq<char>) -> Seq<char> {
    if s.len() <= LONGEST_CLAUSE_EXPLANATION {
        s
    } else {
        let k = s.take(LONGEST_CLAUSE_EXPLANATION as int);
        let kept = match last_whitespace(k) {
            Some(i) => k.take(i),
            None => k,
        };
        trimmed_end(kept) + "..."@
    }
}

/// The explanation, cut to a length a console can show (see [`shortened_text`]).
pub fn shortened(explanation: &str) -> (r: String)
    ensures
        r@ == shortened_text(explanation@),
{
    let cs = chars_of(explanation);
    if cs.len() <= LONGEST_CLAUSE_EXPLANATION {
        return string_of(explanation);
    }
    let ghost k = explanation@.take(LONGEST_CLAUSE_EXPLANATION as int);
    let mut i: usize = LONGEST_CLAUSE_EXPLANATION;
    let mut found: Option<usize> = None;
    assert(k.take(i as int) =~= k);
    while i > 0
        invariant_except_break
            found is None,
            last_whitespace(k) == last_whitespace(k.take(i as int)),
        invariant
            cs@ == explanation@,
            cs@.len() > LONGEST_CLAUSE_EXPLANATION,
            k == explanation@.take(LONGEST_CLAUSE_EXPLANATION as int),
            i <= LONGEST_CLAUSE_EXPLANATION,
        ensures
            match found {
                Some(at) => last_whitespace(k) == Some(at as int) && at < LONGEST_CLAUSE_EXPLANATION,
                None => last_whitespace(k) is None,
            },
        decreases i,
    {
        let ghost prefix = k.take(i as int);
        assert(prefix.drop_last() =~= k.take(i - 1));
        assert(prefix.last() == cs@[i - 1]);
        if is_whitespace(cs[i - 1]) {
            found = Some(i - 1);
            break;
        }
        i -= 1;
    }
    let cut: usize = match found {
        Some(at) => at,
        None => LONGEST_CLAUSE_EXPLANATION,
    };
    let ghost kept = match last_whitespace(k) {
        Some(at) => k.take(at),
        None => k,
    };
    assert(kept =~= explanation@.take(cut as int));
    let mut end: usize = cut;
    while end > 0 && is_whitespace(cs[end - 1])
        invariant
            cs@ == explanation@,
            cut <= LONGEST_CLAUSE_EXPLANATION < cs@.len(),
            end <= cut,
            kept == explanation@.take(cut as int),
            trimmed_end(kept) == trimmed_end(explanation@.take(end as int)),
        decreases end,
    {
        let ghost t = explanation@.take(end as int);
        assert(t.drop_last() =~= explanation@.take(end - 1));
        assert(t.last() == cs@[end - 1]);
        end -= 1;
    }
    proof {
        let t = explanation@.take(end as int);
        if end > 0 {
            assert(t.last() == cs@[end - 1]);
        }
        assert(trimmed_end(t) == t);
    }
    let mut out: Vec<char> = Vec::new();
    let mut m: usize = 0;
    while m < end
        invariant
            cs@ == explanation@,
            end < cs@.len(),
            m <= end,
            out@ == explanation@.take(m as int),
        decreases end - m,
    {
        out.push(cs[m]);
        assert(explanation@.take(m + 1) =~= explanation@.take(m as int).push(cs@[m as int]));
        m += 1;
    }
    let mut r = string_from_chars(&out);
    push_str(&mut r, "...");
    r
}

/// `trimmed_end` only takes characters off the end.
pub proof fn lemma_trimmed_end_prefix(s: Seq<char>)
    ensures
        trimmed_end(s).len() <= s.len(),
        trimmed_end(s) == s.take(trimmed_end(s).len() as int),
    decreases s.len(),
{
    if s.len() > 0 && spec_is_whitespace(s.last()) {
        lemma_trimmed_end_prefix(s.drop_last());
        assert(s.drop_last().take(trimmed_end(s).len() as int) =~= s.take(trimmed_end(s).len() as int));
    } else {
        assert(s.take(s.len() as int) =~= s);
    }
}

/// The last whitespace of `s`, when it has one, is within it and is whitespace.
pub proof fn lemma_last_whitespace_in_range(s: Seq<char>)
    ensures
        last_whitespace(s) matches Some(i) ==> 0 <= i < s.len() && spec_is_whitespace(s[i]),
    decreases s.len(),
{
    if s.len() > 0 && !spec_is_whitespace(s.last()) {
        lemma_last_whitespace_in_range(s.drop_last());
    }
}

/// What a console shows of an explanation is the explanation itself, or at most
/// [`LONGEST_CLAUSE_EXPLANATION`] characters from its start followed by `...`: the length is
/// bounded, and nothing is shown that the explanation does not begin with.
pub proof fn law_shortened_is_a_bounded_prefix(s: Seq<char>)
    ensures
        shortened_text(s) == s || exists|n: int|
            0 <= n <= LONGEST_CLAUSE_EXPLANATION && #[trigger] s.take(n) + "..."@ == shortened_text(s),
        shortened_text(s).len() <= LONGEST_CLAUSE_EXPLANATION + 3,
{
    reveal_strlit("...");
    if s.len() > LONGEST_CLAUSE_EXPLANATION {
        let k = s.take(LONGEST_CLAUSE_EXPLANATION as int);
        lemma_last_whitespace_in_range(k);
        let kept = match last_whitespace(k) {
            Some(i) => k.take(i),
            None => k,
        };
        assert(kept =~= s.take(kept.len() as int));
        lemma_trimmed_end_prefix(kept);
        let n = trimmed_end(kept).len() as int;
        assert(s.take(n) =~= trimmed_end(kept));
        assert(s.take(n) + "..."@ == shortened_text(s));
    }
}

// ---------------------------------------------------------------------------------------------
// The sections of the single-line summary
// ---------------------------------------------------------------------------------------------

/// The lines for `rules`, in order, each saying the rule is `descriptor` for the template.
pub open spec fn rule_lines(rules: Seq<Seq<char>>, descriptor: Seq<char>, data_file: Seq<char>) -> Seq<char>
    decreases rules.len(),
{
    if rules.len() == 0 {
        Seq::empty()
    } else {
        rule_lines(rules.drop_last(), descriptor, data_file) + "Rule ["@ + rules.last() + "] is "@
            + descriptor + " for template ["@ + data_file + "]\n"@
    }
}

/// The section for a set of rules: nothing when there are none; else a `--` line, then a line for
/// each rule in sorted order.
pub open spec fn rules_section(sorted: Seq<Seq<char>>, descriptor: Seq<char>, data_file: Seq<char>) -> Seq<char> {
    if sorted.len() == 0 {
        Seq::empty()
    } else {
        "--\n"@ + rule_lines(sorted, descriptor, data_file)
    }
}

/// The section of the summary for `rules`, taken as a set: the rules in sorted order, each once,
/// each said to be `descriptor` for the template `data_file_name`.
pub fn print_rules_output(rules: &Vec<String>, descriptor: &str, data_file_name: &str) -> (r: String)
    ensures
        exists|sorted: Seq<Seq<char>>|
            {
                &&& strictly_sorted(sorted)
                &&& sorted.to_set() == string_set(rules@)
                &&& r@ == rules_section(sorted, descriptor@, data_file_name@)
            },
{
    let mut sorted: Vec<String> = Vec::new();
    let mut i: usize = 0;
    while i < rules.len()
        invariant
            i <= rules@.len(),
            strictly_sorted(views(sorted@)),
            string_set(sorted@) == string_set(rules@.take(i as int)),
        decreases rules.len() - i,
    {
        insert_sorted(&mut sorted, rules[i].clone());
        assert(string_set(rules@.take(i + 1)) =~= string_set(rules@.take(i as int)).insert(rules@[i as int]@)) by {
            assert(views(rules@.take(i + 1)) =~= views(rules@.take(i as int)).push(rules@[i as int]@));
            let a = views(rules@.take(i as int));
            let b = views(rules@.take(i + 1));
            assert forall|x: Seq<char>| b.contains(x) <==> a.contains(x) || x == rules@[i as int]@ by {
                if b.contains(x) {
                    let k = choose|k: int| 0 <= k < b.len() && b[k] == x;
                    if k < a.len() {
                        assert(a[k] == x);
                    }
                }
                if a.contains(x) {
                    let k = choose|k: int| 0 <= k < a.len() && a[k] == x;
                    assert(b[k] == x);
                }
                if x == rules@[i as int]@ {
                    assert(b[i as int] == x);
                }
            }
        }
        i += 1;
    }
    assert(rules@.take(i as int) =~= rules@);
    let mut r = String::new();
    if sorted.len() > 0 {
        push_str(&mut r, "--\n");
    }
    let ghost start = r@;
    let mut k: usize = 0;
    while k < sorted.len()
        invariant
            k <= sorted@.len(),
            r@ == start + rule_lines(views(sorted@).take(k as int), descriptor@, data_file_name@),
        decreases sorted.len() - k,
    {
        push_str(&mut r, "Rule [");
        push_str(&mut r, sorted[k].as_str());
        push_str(&mut r, "] is ");
        push_str(&mut r, descriptor);
        push_str(&mut r, " for template [");
        push_str(&mut r, data_file_name);
        push_str(&mut r, "]\n");
        assert(views(sorted@).take(k + 1).drop_last() =~= views(sorted@).take(k as int));
        assert(views(sorted@).take(k + 1).last() == sorted@[k as int]@);
        k += 1;
    }
    assert(views(sorted@).take(k as int) =~= views(sorted@));
    assert(r@ == rules_section(views(sorted@), descriptor@, data_file_name@)) by {
        if sorted@.len() == 0 {
            assert(rule_lines(views(sorted@), descriptor@, data_file_name@) =~= Seq::<char>::empty());
        }
    }
    r
}

/// The lines for skipped rules, in order, each followed by its reason when it has one.
pub open spec fn skipped_lines(rules: Seq<(Seq<char>, Option<Seq<char>>)>, data_file: Seq<char>) -> Seq<char>
    decreases rules.len(),
{
    if rules.len() == 0 {
        Seq::empty()
    } else {
        let (rule, reason) = rules.last();
        skipped_lines(rules.drop_last(), data_file) + "Rule ["@ + rule + "] is not applicable for template ["@
            + data_file + "]\n"@ + match reason {
            Some(why) => "  "@ + why + "\n"@,
            None => Seq::empty(),
        }
    }
}

/// The view of a skipped rule and its reason.
pub open spec fn skipped_view(e: (String, Option<String>)) -> (Seq<char>, Option<Seq<char>>) {
    (
        e.0@,
        match e.1 {
            Some(why) => Some(why@),
            None => None,
        },
    )
}

/// The views of skipped rules.
pub open spec fn skipped_views(s: Seq<(String, Option<String>)>) -> Seq<(Seq<char>, Option<Seq<char>>)> {
    s.map_values(|e: (String, Option<String>)| skipped_view(e))
}

/// No rule is named twice.
pub open spec fn distinct_rules(s: Seq<(Seq<char>, Option<Seq<char>>)>) -> bool {
    forall|a: int, b: int| 0 <= a < b < s.len() ==> (#[trigger] s[a]).0 != (#[trigger] s[b]).0
}

/// Sorted by rule name, strictly.
pub open spec fn sorted_by_rule(s: Seq<(Seq<char>, Option<Seq<char>>)>) -> bool {
    forall|a: int, b: int| 0 <= a < b < s.len() ==> seq_lt((#[trigger] s[a]).0, (#[trigger] s[b]).0)
}

/// The section of the summary for the skipped rules, a map from rule to reason: nothing when there
/// are none; else a `--` line, then each rule in name order with its reason.
pub fn print_skipped_rules_output(rules: &Vec<(String, Option<String>)>, data_file_name: &str) -> (r:
    String)
    requires
        distinct_rules(skipped_views(rules@)),
    ensures
        exists|sorted: Seq<(Seq<char>, Option<Seq<char>>)>|
            {
                &&& sorted_by_rule(sorted)
                &&& sorted.to_set() == skipped_views(rules@).to_set()
                &&& r@ == if sorted.len() == 0 {
                    Seq::<char>::empty()
                } else {
                    "--\n"@ + skipped_lines(sorted, data_file_name@)
                }
            },
{
    let ghost input = skipped_views(rules@);
    let mut sorted: Vec<(String, Option<String>)> = Vec::new();
    let mut i: usize = 0;
    while i < rules.len()
        invariant
            i <= rules@.len(),
            input == skipped_views(rules@),
            distinct_rules(input),
            sorted_by_rule(skipped_views(sorted@)),
            skipped_views(sorted@).to_set() == input.take(i as int).to_set(),
        decreases rules.len() - i,
    {
        let entry = (rules[i].0.clone(), rules[i].1.clone());
        assert(skipped_view(entry) == input[i as int]);
        let ghost sv = skipped_views(sorted@);
        let mut j: usize = 0;
        while j < sorted.len() && str_lt(sorted[j].0.as_str(), entry.0.as_str())
            invariant
                j <= sorted@.len(),
                sv == skipped_views(sorted@),
                forall|m: int| 0 <= m < j ==> seq_lt((#[trigger] sv[m]).0, entry.0@),
            decreases sorted.len() - j,
        {
            assert(sv[j as int].0 == sorted@[j as int].0@);
            j += 1;
        }
        proof {
            if j < sorted@.len() {
                assert(sv.contains(sv[j as int]));
                assert(input.take(i as int).to_set().contains(sv[j as int]));
                let t0 = input.take(i as int);
                let m = choose|m: int| 0 <= m < t0.len() && t0[m] == sv[j as int];
                assert(input[m] == sv[j as int]);
                assert(input[m].0 != input[i as int].0);
                lemma_seq_lt_total(sv[j as int].0, entry.0@);
            }
        }
        sorted.insert(j, entry);
        let ghost nv = skipped_views(sorted@);
        assert(nv =~= sv.insert(j as int, input[i as int]));
        assert(sorted_by_rule(nv)) by {
            assert forall|a: int, b: int| 0 <= a < b < nv.len() implies seq_lt((#[trigger] nv[a]).0, (#[trigger] nv[b]).0) by {
                if a < j && b == j {
                } else if a < j && b > j {
                    if a < b - 1 {
                        assert(seq_lt(sv[a].0, sv[b - 1].0));
                    }
                } else if a == j {
                    if b - 1 > j {
                        assert(seq_lt(sv[j as int].0, sv[b - 1].0));
                        lemma_seq_lt_transitive(entry.0@, sv[j as int].0, sv[b - 1].0);
                    }
                } else if b < j {
                } else {
                    assert(nv[a] == sv[a - 1] && nv[b] == sv[b - 1]);
                }
            }
        }
        assert(nv.to_set() =~= input.take(i + 1).to_set()) by {
            let t0 = input.take(i as int);
            let t1 = input.take(i + 1);
            assert(t1 =~= t0.push(input[i as int]));
            assert forall|x: (Seq<char>, Option<Seq<char>>)| nv.contains(x) <==> t1.contains(x) by {
                if nv.contains(x) {
                    let m = choose|m: int| 0 <= m < nv.len() && nv[m] == x;
                    if m == j {
                        assert(t1[i as int] == x);
                    } else {
                        let om = if m < j { m } else { m - 1 };
                        assert(sv[om] == x);
                        assert(sv.contains(x));
                        assert(t0.to_set().contains(x));
                        let q = choose|q: int| 0 <= q < t0.len() && t0[q] == x;
                        assert(t1[q] == x);
                    }
                }
                if t1.contains(x) {
                    let q = choose|q: int| 0 <= q < t1.len() && t1[q] == x;
                    if q == i {
                        assert(nv[j as int] == x);
                    } else {
                        assert(t0[q] == x);
                        assert(t0.to_set().contains(x));
                        assert(sv.to_set().contains(x));
                        let m = choose|m: int| 0 <= m < sv.len() && sv[m] == x;
                        if m < j {
                            assert(nv[m] == x);
                        } else {
                            assert(nv[m + 1] == x);
                        }
                    }
                }
            }
        }
        i += 1;
    }
    assert(input.take(i as int) =~= input);
    let ghost sv = skipped_views(sorted@);
    let mut r = String::new();
    if sorted.len() > 0 {
        push_str(&mut r, "--\n");
    }
    let ghost start = r@;
    let mut k: usize = 0;
    while k < sorted.len()
        invariant
            k <= sorted@.len(),
            sv == skipped_views(sorted@),
            r@ == start + skipped_lines(sv.take(k as int), data_file_name@),
        decreases sorted.len() - k,
    {
        push_str(&mut r, "Rule [");
        push_str(&mut r, sorted[k].0.as_str());
        push_str(&mut r, "] is not applicable for template [");
        push_str(&mut r, data_file_name);
        push_str(&mut r, "]\n");
        if let Some(why) = &sorted[k].1 {
            push_str(&mut r, "  ");
            push_str(&mut r, why.as_str());
            push_str(&mut r, "\n");
        }
        assert(sv.take(k + 1).drop_last() =~= sv.take(k as int));
        assert(sv.take(k + 1).last() == sv[k as int]);
        k += 1;
    }
    assert(sv.take(k as int) =~= sv);
    r
}


// ---------------------------------------------------------------------------------------------
// A clause's message and error
// ---------------------------------------------------------------------------------------------

/// `s` without the whitespace at its start (`str::trim_start`).
pub open spec fn trimmed_start(s: Seq<char>) -> Seq<char>
    decreases s.len(),
{
    if s.len() > 0 && spec_is_whitespace(s[0]) {
        trimmed_start(s.drop_first())
    } else {
        s
    }
}

/// `s` without the whitespace at either end.
pub open spec fn trimmed(s: Seq<char>) -> Seq<char> {
    trimmed_end(trimmed_start(s))
}

/// `s` without the whitespace at either end (`str::trim_start` and then `str::trim_end`).
pub fn trim(s: &str) -> (r: String)
    ensures
        r@ == trimmed(s@),
{
    let cs = chars_of(s);
    let mut start: usize = 0;
    assert(s@.skip(0) =~= s@);
    while start < cs.len() && is_whitespace(cs[start])
        invariant
            cs@ == s@,
            start <= cs@.len(),
            trimmed_start(s@) == trimmed_start(s@.skip(start as int)),
        decreases cs.len() - start,
    {
        let ghost rest = s@.skip(start as int);
        assert(rest[0] == cs@[start as int]);
        assert(rest.drop_first() =~= s@.skip(start + 1));
        start += 1;
    }
    let ghost front = s@.skip(start as int);
    proof {
        if start < cs.len() {
            assert(front[0] == cs@[start as int]);
        }
        assert(trimmed_start(front) == front);
    }
    let mut end: usize = cs.len();
    assert(front.take(front.len() as int) =~= front);
    while end > start && is_whitespace(cs[end - 1])
        invariant
            cs@ == s@,
            start <= end <= cs@.len(),
            front == s@.skip(start as int),
            trimmed_end(front) == trimmed_end(front.take(end - start)),
        decreases end,
    {
        let ghost t = front.take(end - start);
        assert(t.drop_last() =~= front.take(end - 1 - start));
        assert(t.last() == cs@[end - 1]);
        end -= 1;
    }
    proof {
        let t = front.take(end - start);
        if end > start {
            assert(t.last() == cs@[end - 1]);
        }
        assert(trimmed_end(t) == t);
    }
    let mut out: Vec<char> = Vec::new();
    let mut m: usize = start;
    while m < end
        invariant
            cs@ == s@,
            start <= m <= end <= cs@.len(),
            front == s@.skip(start as int),
            out@ == front.take(m - start),
        decreases end - m,
    {
        out.push(cs[m]);
        assert(front.take(m + 1 - start) =~= front.take(m - start).push(cs@[m as int]));
        m += 1;
    }
    string_from_chars(&out)
}

/// The parts a message splits into: at `;` when it has one, else at line breaks, else whole.
pub open spec fn message_parts(m: Seq<char>) -> Seq<Seq<char>> {
    if m.contains(';') {
        split_on(m, ';')
    } else if m.contains('\n') {
        split_on(m, '\n')
    } else {
        seq![m]
    }
}

/// The parts of `parts` with the whitespace at their ends taken off, leaving out those that are
/// then empty.
pub open spec fn kept_pieces(parts: Seq<Seq<char>>) -> Seq<Seq<char>>
    decreases parts.len(),
{
    if parts.len() == 0 {
        Seq::empty()
    } else {
        kept_pieces(parts.drop_last()) + if trimmed(parts.last()).len() > 0 {
            seq![trimmed(parts.last())]
        } else {
            Seq::empty()
        }
    }
}

/// The pieces of a message a report prints, one a line when there are several.
pub open spec fn message_pieces(m: Seq<char>) -> Seq<Seq<char>> {
    kept_pieces(message_parts(m))
}

/// `s` padded with spaces after it to `width` characters, when it is shorter.
pub open spec fn padded(s: Seq<char>, width: nat) -> Seq<char> {
    if s.len() >= width {
        s
    } else {
        s + Seq::new((width - s.len()) as nat, |i: int| ' ')
    }
}

/// One line for each piece, indented under `prefix`.
pub open spec fn piece_lines(prefix: Seq<char>, pieces: Seq<Seq<char>>) -> Seq<char>
    decreases pieces.len(),
{
    if pieces.len() == 0 {
        Seq::empty()
    } else {
        piece_lines(prefix, pieces.drop_last()) + prefix + "  "@ + pieces.last() + "\n"@
    }
}

/// What a report prints for a clause's message and error, each line under `prefix` with its
/// heading padded to `width`: a message of several pieces as a block, one piece on its line; and
/// the error on its line. An empty message or error prints nothing.
pub open spec fn message_lines(prefix: Seq<char>, message: Seq<char>, error: Seq<char>, width: nat) -> Seq<
    char,
> {
    (if message.len() > 0 {
        let pieces = message_pieces(message);
        if pieces.len() > 1 {
            prefix + padded("Message"@, width) + " {\n"@ + piece_lines(prefix, pieces) + prefix + "}\n"@
        } else {
            prefix + padded("Message"@, width) + " = "@ + pieces[0] + "\n"@
        }
    } else {
        Seq::empty()
    }) + if error.len() > 0 {
        prefix + padded("Error"@, width) + " = "@ + error + "\n"@
    } else {
        Seq::empty()
    }
}

/// `s` padded with spaces to `width` characters.
fn pad(s: &str, width: usize) -> (r: String)
    ensures
        r@ == padded(s@, width as nat),
{
    let cs = chars_of(s);
    let mut r = string_of(s);
    if cs.len() >= width {
        return r;
    }
    let mut k: usize = cs.len();
    while k < width
        invariant
            cs@ == s@,
            cs@.len() <= k <= width,
            r@ == s@ + Seq::new((k - s@.len()) as nat, |i: int| ' '),
        decreases width - k,
    {
        push_char(&mut r, ' ');
        assert(r@ =~= s@ + Seq::new((k + 1 - s@.len()) as nat, |i: int| ' '));
        k += 1;
    }
    r
}

/// Whether `cs` holds `c`.
fn holds_char(cs: &Vec<char>, c: char) -> (r: bool)
    ensures
        r == cs@.contains(c),
{
    let mut i: usize = 0;
    while i < cs.len()
        invariant
            i <= cs@.len(),
            forall|k: int| 0 <= k < i ==> cs@[k] != c,
        decreases cs.len() - i,
    {
        if cs[i] == c {
            assert(cs@[i as int] == c);
            return true;
        }
        i += 1;
    }
    false
}

/// The pieces of the message `message` a report prints.
fn pieces_of(message: &str) -> (r: Vec<String>)
    ensures
        views(r@) == message_pieces(message@),
{
    let cs = chars_of(message);
    let parts: Vec<String> = if holds_char(&cs, ';') {
        split_on_char(message, ';')
    } else if holds_char(&cs, '\n') {
        split_on_char(message, '\n')
    } else {
        let mut whole = Vec::new();
        whole.push(string_of(message));
        whole
    };
    assert(views(parts@) =~= message_parts(message@));
    let mut kept: Vec<String> = Vec::new();
    let mut i: usize = 0;
    while i < parts.len()
        invariant
            i <= parts@.len(),
            views(parts@) == message_parts(message@),
            views(kept@) == kept_pieces(views(parts@).take(i as int)),
        decreases parts.len() - i,
    {
        let t = trim(parts[i].as_str());
        let ghost before = views(kept@);
        assert(views(parts@).take(i + 1).drop_last() =~= views(parts@).take(i as int));
        assert(views(parts@).take(i + 1).last() == parts@[i as int]@);
        if t.as_str().unicode_len() > 0 {
            kept.push(t);
            assert(views(kept@) =~= before.push(trimmed(parts@[i as int]@)));
        } else {
            assert(views(kept@) =~= before);
        }
        i += 1;
    }
    assert(views(parts@).take(i as int) =~= views(parts@));
    kept
}

/// What a report prints for a clause's message and error (see [`message_lines`]).
pub fn emit_messages(prefix: &str, message: &str, error: &str, width: usize) -> (r: String)
    requires
        message@.len() > 0 ==> message_pieces(message@).len() > 0,
    ensures
        r@ == message_lines(prefix@, message@, error@, width as nat),
{
    let mut out = String::new();
    if message.unicode_len() > 0 {
        let pieces = pieces_of(message);
        let heading = pad("Message", width);
        if pieces.len() > 1 {
            push_str(&mut out, prefix);
            push_str(&mut out, heading.as_str());
            push_str(&mut out, " {\n");
            let ghost head = out@;
            let mut i: usize = 0;
            while i < pieces.len()
                invariant
                    i <= pieces@.len(),
                    out@ == head + piece_lines(prefix@, views(pieces@).take(i as int)),
                decreases pieces.len() - i,
            {
                assert(views(pieces@).take(i + 1).drop_last() =~= views(pieces@).take(i as int));
                assert(views(pieces@).take(i + 1).last() == pieces@[i as int]@);
                push_str(&mut out, prefix);
                push_str(&mut out, "  ");
                push_str(&mut out, pieces[i].as_str());
                push_str(&mut out, "\n");
                i += 1;
            }
            assert(views(pieces@).take(i as int) =~= views(pieces@));
            push_str(&mut out, prefix);
            push_str(&mut out, "}\n");
        } else {
            push_str(&mut out, prefix);
            push_str(&mut out, heading.as_str());
            push_str(&mut out, " = ");
            push_str(&mut out, pieces[0].as_str());
            push_str(&mut out, "\n");
        }
    }
    let ghost message_part = out@;
    if error.unicode_len() > 0 {
        let heading = pad("Error", width);
        push_str(&mut out, prefix);
        push_str(&mut out, heading.as_str());
        push_str(&mut out, " = ");
        push_str(&mut out, error);
        push_str(&mut out, "\n");
    }
    assert(out@ =~= message_lines(prefix@, message@, error@, width as nat));
    out
}


// ---------------------------------------------------------------------------------------------
// Rules that passed or did not apply
// ---------------------------------------------------------------------------------------------

/// One line for each rule of `rules`, saying in `what` how it went for the data file.
pub open spec fn rule_state_lines(
    rules: Seq<Seq<char>>,
    rules_file: Seq<char>,
    what: Seq<char>,
    data_file: Seq<char>,
) -> Seq<char>
    decreases rules.len(),
{
    if rules.len() == 0 {
        Seq::empty()
    } else {
        rule_state_lines(rules.drop_last(), rules_file, what, data_file) + "Rule ["@ + rules_file
            + "/"@ + rules.last() + "] "@ + what + " for template ["@ + data_file + "]\n"@
    }
}

/// What a report prints of the rules that passed and those that did not apply, each group in
/// the order given and after a `--` line when it has any rule.
pub open spec fn compliant_skipped_text(
    passed: Seq<Seq<char>>,
    skipped: Seq<Seq<char>>,
    rules_file: Seq<char>,
    data_file: Seq<char>,
) -> Seq<char> {
    (if passed.len() > 0 {
        "--\n"@
    } else {
        Seq::empty()
    }) + rule_state_lines(passed, rules_file, "is compliant"@, data_file) + (if skipped.len() > 0 {
        "--\n"@
    } else {
        Seq::empty()
    }) + rule_state_lines(skipped, rules_file, "is not applicable"@, data_file)
}

/// Whether `t` occurs in `s`.
pub open spec fn occurs_in(t: Seq<char>, s: Seq<char>) -> bool {
    exists|j: int| 0 <= j && j + t.len() <= s.len() && #[trigger] s.subrange(j, j + t.len()) == t
}

/// The line a report prints for the rule `rule` of `rules_file`, saying in `what` how it went
/// for `data_file`.
pub open spec fn rule_state_line(
    rules_file: Seq<char>,
    rule: Seq<char>,
    what: Seq<char>,
    data_file: Seq<char>,
) -> Seq<char> {
    "Rule ["@ + rules_file + "/"@ + rule + "] "@ + what + " for template ["@ + data_file + "]\n"@
}

proof fn lemma_occurs_in_prefix(t: Seq<char>, a: Seq<char>, b: Seq<char>)
    requires
        occurs_in(t, a),
    ensures
        occurs_in(t, a + b),
{
    let j = choose|j: int| 0 <= j && j + t.len() <= a.len() && #[trigger] a.subrange(j, j + t.len()) == t;
    assert((a + b).subrange(j, j + t.len()) =~= a.subrange(j, j + t.len()));
}

proof fn lemma_occurs_in_suffix(t: Seq<char>, a: Seq<char>, b: Seq<char>)
    requires
        occurs_in(t, b),
    ensures
        occurs_in(t, a + b),
{
    let j = choose|j: int| 0 <= j && j + t.len() <= b.len() && #[trigger] b.subrange(j, j + t.len()) == t;
    assert((a + b).subrange(a.len() + j, a.len() + j + t.len()) =~= b.subrange(j, j + t.len()));
}

proof fn lemma_rule_state_lines_hold_each(
    rules: Seq<Seq<char>>,
    rules_file: Seq<char>,
    what: Seq<char>,
    data_file: Seq<char>,
    k: int,
)
    requires
        0 <= k < rules.len(),
    ensures
        occurs_in(
            rule_state_line(rules_file, rules[k], what, data_file),
            rule_state_lines(rules, rules_file, what, data_file),
        ),
    decreases rules.len(),
{
    let line = rule_state_line(rules_file, rules[k], what, data_file);
    let before = rule_state_lines(rules.drop_last(), rules_file, what, data_file);
    let last = rule_state_line(rules_file, rules.last(), what, data_file);
    assert(rule_state_lines(rules, rules_file, what, data_file) =~= before + last);
    if k == rules.len() - 1 {
        assert(line == last);
        assert(last.subrange(0, 0 + line.len() as int) =~= line);
        assert(occurs_in(line, last));
        lemma_occurs_in_suffix(line, before, last);
    } else {
        assert(rules.drop_last()[k] == rules[k]);
        lemma_rule_state_lines_hold_each(rules.drop_last(), rules_file, what, data_file, k);
        lemma_occurs_in_prefix(line, before, last);
    }
}

/// Whatever rules passed, the report says of every rule that did not apply that it is not
/// applicable, and of every rule that passed that it is compliant; so it is empty only when no
/// rule passed and none was skipped.
pub proof fn law_every_passed_and_skipped_rule_is_reported(
    passed: Seq<Seq<char>>,
    skipped: Seq<Seq<char>>,
    rules_file: Seq<char>,
    data_file: Seq<char>,
)
    ensures
        forall|k: int|
            0 <= k < skipped.len() ==> occurs_in(
                rule_state_line(rules_file, #[trigger] skipped[k], "is not applicable"@, data_file),
                compliant_skipped_text(passed, skipped, rules_file, data_file),
            ),
        forall|k: int|
            0 <= k < passed.len() ==> occurs_in(
                rule_state_line(rules_file, #[trigger] passed[k], "is compliant"@, data_file),
                compliant_skipped_text(passed, skipped, rules_file, data_file),
            ),
        skipped.len() > 0 || passed.len() > 0 ==> compliant_skipped_text(
            passed,
            skipped,
            rules_file,
            data_file,
        ).len() > 0,
{
    let p_head = if passed.len() > 0 {
        "--\n"@
    } else {
        Seq::empty()
    };
    let s_head = if skipped.len() > 0 {
        "--\n"@
    } else {
        Seq::empty()
    };
    let p_lines = rule_state_lines(passed, rules_file, "is compliant"@, data_file);
    let s_lines = rule_state_lines(skipped, rules_file, "is not applicable"@, data_file);
    let text = compliant_skipped_text(passed, skipped, rules_file, data_file);
    assert(text =~= (p_head + p_lines + s_head) + s_lines);
    assert(text =~= p_head + (p_lines + (s_head + s_lines)));
    assert forall|k: int| 0 <= k < skipped.len() implies occurs_in(
        rule_state_line(rules_file, #[trigger] skipped[k], "is not applicable"@, data_file),
        text,
    ) by {
        lemma_rule_state_lines_hold_each(skipped, rules_file, "is not applicable"@, data_file, k);
        lemma_occurs_in_suffix(
            rule_state_line(rules_file, skipped[k], "is not applicable"@, data_file),
            p_head + p_lines + s_head,
            s_lines,
        );
    }
    assert forall|k: int| 0 <= k < passed.len() implies occurs_in(
        rule_state_line(rules_file, #[trigger] passed[k], "is compliant"@, data_file),
        text,
    ) by {
        let line = rule_state_line(rules_file, passed[k], "is compliant"@, data_file);
        lemma_rule_state_lines_hold_each(passed, rules_file, "is compliant"@, data_file, k);
        lemma_occurs_in_prefix(line, p_lines, s_head + s_lines);
        lemma_occurs_in_suffix(line, p_head, p_lines + (s_head + s_lines));
    }
    if skipped.len() > 0 {
        let line = rule_state_line(rules_file, skipped[0], "is not applicable"@, data_file);
        assert(occurs_in(line, text));
        assert(line.len() > 0) by {
            reveal_strlit("Rule [");
        }
    } else if passed.len() > 0 {
        let line = rule_state_line(rules_file, passed[0], "is compliant"@, data_file);
        assert(occurs_in(line, text));
        assert(line.len() > 0) by {
            reveal_strlit("Rule [");
        }
    }
}

proof fn lemma_rule_lines_hold_each(
    rules: Seq<Seq<char>>,
    descriptor: Seq<char>,
    data_file: Seq<char>,
    k: int,
)
    requires
        0 <= k < rules.len(),
    ensures
        occurs_in(
            "Rule ["@ + rules[k] + "] is "@ + descriptor + " for template ["@ + data_file + "]\n"@,
            rule_lines(rules, descriptor, data_file),
        ),
    decreases rules.len(),
{
    let line = "Rule ["@ + rules[k] + "] is "@ + descriptor + " for template ["@ + data_file
        + "]\n"@;
    let before = rule_lines(rules.drop_last(), descriptor, data_file);
    let last = "Rule ["@ + rules.last() + "] is "@ + descriptor + " for template ["@ + data_file
        + "]\n"@;
    assert(rule_lines(rules, descriptor, data_file) =~= before + last);
    if k == rules.len() - 1 {
        assert(line == last);
        assert(last.subrange(0, 0 + line.len() as int) =~= line);
        lemma_occurs_in_suffix(line, before, last);
    } else {
        assert(rules.drop_last()[k] == rules[k]);
        lemma_rule_lines_hold_each(rules.drop_last(), descriptor, data_file, k);
        lemma_occurs_in_prefix(line, before, last);
    }
}

/// A section of the single-line summary names every rule it is given, each said to be
/// `descriptor` for the template; it is empty only when it is given no rule.
pub proof fn law_rules_section_names_every_rule(
    sorted: Seq<Seq<char>>,
    descriptor: Seq<char>,
    data_file: Seq<char>,
)
    ensures
        forall|k: int|
            0 <= k < sorted.len() ==> occurs_in(
                "Rule ["@ + #[trigger] sorted[k] + "] is "@ + descriptor + " for template ["@
                    + data_file + "]\n"@,
                rules_section(sorted, descriptor, data_file),
            ),
        rules_section(sorted, descriptor, data_file).len() == 0 <==> sorted.len() == 0,
{
    assert forall|k: int| 0 <= k < sorted.len() implies occurs_in(
        "Rule ["@ + #[trigger] sorted[k] + "] is "@ + descriptor + " for template ["@ + data_file
            + "]\n"@,
        rules_section(sorted, descriptor, data_file),
    ) by {
        lemma_rule_lines_hold_each(sorted, descriptor, data_file, k);
        lemma_occurs_in_suffix(
            "Rule ["@ + sorted[k] + "] is "@ + descriptor + " for template ["@ + data_file + "]\n"@,
            "--\n"@,
            rule_lines(sorted, descriptor, data_file),
        );
    }
    if sorted.len() > 0 {
        assert(("--\n"@).len() > 0) by {
            reveal_strlit("--\n");
        }
    }
}

proof fn lemma_skipped_lines_hold_each(
    rules: Seq<(Seq<char>, Option<Seq<char>>)>,
    data_file: Seq<char>,
    k: int,
)
    requires
        0 <= k < rules.len(),
    ensures
        occurs_in(
            "Rule ["@ + rules[k].0 + "] is not applicable for template ["@ + data_file + "]\n"@,
            skipped_lines(rules, data_file),
        ),
    decreases rules.len(),
{
    let line = "Rule ["@ + rules[k].0 + "] is not applicable for template ["@ + data_file + "]\n"@;
    let before = skipped_lines(rules.drop_last(), data_file);
    let (rule, reason) = rules.last();
    let head = "Rule ["@ + rule + "] is not applicable for template ["@ + data_file + "]\n"@;
    let tail = match reason {
        Some(why) => "  "@ + why + "\n"@,
        None => Seq::<char>::empty(),
    };
    assert(skipped_lines(rules, data_file) =~= before + (head + tail));
    if k == rules.len() - 1 {
        assert(line == head);
        assert((head + tail).subrange(0, 0 + line.len() as int) =~= line);
        lemma_occurs_in_suffix(line, before, head + tail);
    } else {
        assert(rules.drop_last()[k] == rules[k]);
        lemma_skipped_lines_hold_each(rules.drop_last(), data_file, k);
        lemma_occurs_in_prefix(line, before, head + tail);
    }
}

/// The skipped rules' lines say of every skipped rule that it is not applicable to the template.
pub proof fn law_skipped_lines_name_every_rule(
    rules: Seq<(Seq<char>, Option<Seq<char>>)>,
    data_file: Seq<char>,
)
    ensures
        forall|k: int|
            0 <= k < rules.len() ==> occurs_in(
                "Rule ["@ + (#[trigger] rules[k]).0 + "] is not applicable for template ["@
                    + data_file + "]\n"@,
                skipped_lines(rules, data_file),
            ),
{
    assert forall|k: int| 0 <= k < rules.len() implies occurs_in(
        "Rule ["@ + (#[trigger] rules[k]).0 + "] is not applicable for template ["@ + data_file
            + "]\n"@,
        skipped_lines(rules, data_file),
    ) by {
        lemma_skipped_lines_hold_each(rules, data_file, k);
    }
}

/// Appends a line for each rule of `rules`, saying in `what` how it went.
fn push_rule_state_lines(
    out: &mut String,
    rules: &Vec<String>,
    rules_file: &str,
    what: &str,
    data_file: &str,
)
    ensures
        final(out)@ == old(out)@ + rule_state_lines(views(rules@), rules_file@, what@, data_file@),
{
    let ghost start = out@;
    let mut i: usize = 0;
    while i < rules.len()
        invariant
            i <= rules@.len(),
            out@ == start + rule_state_lines(views(rules@).take(i as int), rules_file@, what@, data_file@),
        decreases rules.len() - i,
    {
        assert(views(rules@).take(i + 1).drop_last() =~= views(rules@).take(i as int));
        assert(views(rules@).take(i + 1).last() == rules@[i as int]@);
        push_str(out, "Rule [");
        push_str(out, rules_file);
        push_str(out, "/");
        push_str(out, rules[i].as_str());
        push_str(out, "] ");
        push_str(out, what);
        push_str(out, " for template [");
        push_str(out, data_file);
        push_str(out, "]\n");
        i += 1;
    }
    assert(views(rules@).take(i as int) =~= views(rules@));
}

/// What a report prints of the rules of `rules_file_name` that passed, and of those that did not
/// apply, for the data file `data_file_name` (see [`compliant_skipped_text`]).
pub fn print_compliant_skipped_info(
    passed: &Vec<String>,
    skipped: &Vec<String>,
    rules_file_name: &str,
    data_file_name: &str,
) -> (r: String)
    ensures
        r@ == compliant_skipped_text(views(passed@), views(skipped@), rules_file_name@, data_file_name@),
{
    let mut out = String::new();
    if passed.len() > 0 {
        push_str(&mut out, "--\n");
    }
    push_rule_state_lines(&mut out, passed, rules_file_name, "is compliant", data_file_name);
    if skipped.len() > 0 {
        push_str(&mut out, "--\n");
    }
    push_rule_state_lines(&mut out, skipped, rules_file_name, "is not applicable", data_file_name);
    assert(out@ =~= compliant_skipped_text(views(passed@), views(skipped@), rules_file_name@, data_file_name@));
    out
}

} // verus!
