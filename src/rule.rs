//! Compiled rules and how many times a rule occurs in a document.

use rayon::prelude::ParallelIterator;
use rayon::prelude::IntoParallelRefIterator;
use std::sync::Arc;
use vstd::prelude::*;
use crate::matcher::{Matcher, line_matches};

verus! {

/// A compiled rule: a tree of combinators over shared, compiled regexes.
#[derive(Debug)]
pub enum Rule {
    /// One line matched against one regex.
    One(Arc<Matcher>),
    /// A run of consecutive lines, each matched against the regex at its position.
    Sequence(Vec<Arc<Matcher>>),
    /// All children must hold: the weakest child's count.
    And(Vec<Rule>),
    /// Any child contributes: the sum of the children's counts.
    Or(Vec<Rule>),
}

/// The document as the text of each line.
pub open spec fn lines_view(page: Seq<&str>) -> Seq<Seq<char>> {
    page.map_values(|s: &str| s@)
}

/// The pattern text of each regex of a sequence.
pub open spec fn patterns_view(ms: Seq<Arc<Matcher>>) -> Seq<Seq<char>> {
    ms.map_values(|m: Arc<Matcher>| m@)
}

/// The number of lines matched by `pattern`.
pub open spec fn literal_count(pattern: Seq<char>, lines: Seq<Seq<char>>) -> nat
    decreases lines.len(),
{
    if lines.len() == 0 {
        0
    } else {
        literal_count(pattern, lines.drop_last()) + if line_matches(pattern, lines.last()) {
            1nat
        } else {
            0nat
        }
    }
}

/// Whether the lines starting at `start` match the patterns, position by position.
pub open spec fn window_matches(patterns: Seq<Seq<char>>, lines: Seq<Seq<char>>, start: int) -> bool {
    forall|j: int|
        #![trigger patterns[j]]
        0 <= j < patterns.len() ==> line_matches(patterns[j], lines[start + j])
}

/// The number of start positions below `n` whose window matches.
pub open spec fn windows_count(patterns: Seq<Seq<char>>, lines: Seq<Seq<char>>, n: nat) -> nat
    decreases n,
{
    if n == 0 {
        0
    } else {
        windows_count(patterns, lines, (n - 1) as nat) + if window_matches(
            patterns,
            lines,
            n - 1,
        ) {
            1nat
        } else {
            0nat
        }
    }
}

/// The number of windows of `patterns.len()` consecutive lines that match the patterns.
pub open spec fn sequence_count(patterns: Seq<Seq<char>>, lines: Seq<Seq<char>>) -> nat {
    if patterns.len() <= lines.len() {
        windows_count(patterns, lines, (lines.len() - patterns.len() + 1) as nat)
    } else {
        0
    }
}

/// The smallest element (0 for an empty sequence).
pub open spec fn seq_min(s: Seq<nat>) -> nat
    decreases s.len(),
{
    if s.len() == 0 {
        0
    } else if s.len() == 1 {
        s[0]
    } else {
        let m = seq_min(s.drop_last());
        if s.last() < m {
            s.last()
        } else {
            m
        }
    }
}

/// The sum of the elements.
pub open spec fn seq_sum(s: Seq<nat>) -> nat
    decreases s.len(),
{
    if s.len() == 0 {
        0
    } else {
        seq_sum(s.drop_last()) + s.last()
    }
}

/// How many times `rule` occurs in the lines.
pub open spec fn occurrences(rule: Rule, lines: Seq<Seq<char>>) -> nat
    decreases rule, 0int,
{
    match rule {
        Rule::One(m) => literal_count(m@, lines),
        Rule::Sequence(ms) => sequence_count(patterns_view(ms@), lines),
        Rule::And(rs) => seq_min(child_counts(rs@, lines)),
        Rule::Or(rs) => seq_sum(child_counts(rs@, lines)),
    }
}

/// The count of each rule, in order.
pub open spec fn child_counts(rules: Seq<Rule>, lines: Seq<Seq<char>>) -> Seq<nat>
    decreases rules, 1int,
{
    if rules.len() == 0 {
        seq![]
    } else {
        child_counts(rules.drop_last(), lines).push(occurrences(rules.last(), lines))
    }
}

/// Every sequence, conjunction and disjunction in the tree has at least one child.
pub open spec fn well_formed(rule: Rule) -> bool
    decreases rule,
{
    match rule {
        Rule::One(_) => true,
        Rule::Sequence(ms) => ms.len() > 0,
        Rule::And(rs) => rs.len() > 0 && forall|i: int|
            0 <= i < rs.len() ==> well_formed(#[trigger] rs@[i]),
        Rule::Or(rs) => rs.len() > 0 && forall|i: int|
            0 <= i < rs.len() ==> well_formed(#[trigger] rs@[i]),
    }
}

/// The number of regex leaves under the rule, counting a sequence as one:
/// each leaf counts at most one per line, so a count never exceeds
/// `weight(rule) * lines.len()`.
pub open spec fn weight(rule: Rule) -> nat
    decreases rule, 0int,
{
    match rule {
        Rule::One(_) => 1,
        Rule::Sequence(_) => 1,
        Rule::And(rs) => weights_sum(rs@),
        Rule::Or(rs) => weights_sum(rs@),
    }
}

/// The sum of the weights of the rules.
pub open spec fn weights_sum(rules: Seq<Rule>) -> nat
    decreases rules, 1int,
{
    if rules.len() == 0 {
        0
    } else {
        weights_sum(rules.drop_last()) + weight(rules.last())
    }
}


/// The lengths and elements of `child_counts`.
pub proof fn lemma_child_counts(rules: Seq<Rule>, lines: Seq<Seq<char>>)
    ensures
        child_counts(rules, lines).len() == rules.len(),
        forall|i: int|
            0 <= i < rules.len() ==> #[trigger] child_counts(rules, lines)[i] == occurrences(
                rules[i],
                lines,
            ),
    decreases rules.len(),
{
    if rules.len() > 0 {
        lemma_child_counts(rules.drop_last(), lines);
    }
}

/// A prefix of the children extends by one child's count.
proof fn lemma_child_counts_prefix(rules: Seq<Rule>, lines: Seq<Seq<char>>, i: int)
    requires
        0 <= i < rules.len(),
    ensures
        child_counts(rules.subrange(0, i + 1), lines) == child_counts(rules.subrange(0, i), lines).push(
            occurrences(rules[i], lines),
        ),
        weights_sum(rules.subrange(0, i + 1)) == weights_sum(rules.subrange(0, i)) + weight(rules[i]),
{
    assert(rules.subrange(0, i + 1).drop_last() =~= rules.subrange(0, i));
}

/// The weights of a prefix of the children are at most the weights of all of them.
proof fn lemma_weights_prefix(rules: Seq<Rule>, i: int)
    requires
        0 <= i <= rules.len(),
    ensures
        weights_sum(rules.subrange(0, i)) <= weights_sum(rules),
    decreases rules.len() - i,
{
    if i < rules.len() {
        lemma_child_counts_prefix(rules, seq![], i);
        lemma_weights_prefix(rules, i + 1);
    } else {
        assert(rules.subrange(0, i) =~= rules);
    }
}

/// At most one count per line.
proof fn lemma_literal_count_bound(pattern: Seq<char>, lines: Seq<Seq<char>>)
    ensures
        literal_count(pattern, lines) <= lines.len(),
    decreases lines.len(),
{
    if lines.len() > 0 {
        lemma_literal_count_bound(pattern, lines.drop_last());
    }
}

/// At most one count per start position.
proof fn lemma_windows_count_bound(patterns: Seq<Seq<char>>, lines: Seq<Seq<char>>, n: nat)
    ensures
        windows_count(patterns, lines, n) <= n,
    decreases n,
{
    if n > 0 {
        lemma_windows_count_bound(patterns, lines, (n - 1) as nat);
    }
}

/// The smallest element of a non-empty sequence is at most its sum.
proof fn lemma_min_le_sum(s: Seq<nat>)
    requires
        s.len() > 0,
    ensures
        seq_min(s) <= seq_sum(s),
    decreases s.len(),
{
    if s.len() > 1 {
        lemma_min_le_sum(s.drop_last());
    } else {
        assert(s.drop_last().len() == 0);
    }
}

/// A rule counts at most `weight(rule)` per line.
pub proof fn lemma_occurrences_bound(rule: Rule, lines: Seq<Seq<char>>)
    requires
        well_formed(rule),
    ensures
        occurrences(rule, lines) <= weight(rule) * lines.len(),
    decreases rule, 0int,
{
    match rule {
        Rule::One(m) => {
            lemma_literal_count_bound(m@, lines);
            assert(1 * lines.len() == lines.len());
        },
        Rule::Sequence(ms) => {
            assert(1 * lines.len() == lines.len());
            let ps = patterns_view(ms@);
            if ps.len() <= lines.len() {
                lemma_windows_count_bound(ps, lines, (lines.len() - ps.len() + 1) as nat);
            }
        },
        Rule::And(rs) => {
            lemma_counts_bound(rs@, lines);
            lemma_child_counts(rs@, lines);
            lemma_min_le_sum(child_counts(rs@, lines));
        },
        Rule::Or(rs) => {
            lemma_counts_bound(rs@, lines);
        },
    }
}

/// The counts of well-formed rules sum to at most their weights per line.
proof fn lemma_counts_bound(rules: Seq<Rule>, lines: Seq<Seq<char>>)
    requires
        forall|i: int| 0 <= i < rules.len() ==> well_formed(#[trigger] rules[i]),
    ensures
        seq_sum(child_counts(rules, lines)) <= weights_sum(rules) * lines.len(),
    decreases rules, 1int,
{
    if rules.len() > 0 {
        let init = rules.drop_last();
        assert(forall|i: int| 0 <= i < init.len() ==> init[i] == rules[i]);
        lemma_counts_bound(init, lines);
        lemma_occurrences_bound(rules.last(), lines);
        assert(child_counts(rules, lines).drop_last() =~= child_counts(init, lines));
        let a = weights_sum(init);
        let b = weight(rules.last());
        let n = lines.len();
        assert(a * n + b * n == (a + b) * n) by (nonlinear_arith);
    }
}

/// A window of one pattern is one line: a sequence of one regex counts like that regex alone.
proof fn lemma_single_window(pattern: Seq<char>, lines: Seq<Seq<char>>, n: nat)
    requires
        n <= lines.len(),
    ensures
        windows_count(seq![pattern], lines, n) == literal_count(pattern, lines.subrange(0, n as int)),
    decreases n,
{
    let ps = seq![pattern];
    if n > 0 {
        lemma_single_window(pattern, lines, (n - 1) as nat);
        assert(lines.subrange(0, n as int).drop_last() =~= lines.subrange(0, n - 1));
        assert(window_matches(ps, lines, n - 1) == line_matches(pattern, lines[n - 1])) by {
            if line_matches(pattern, lines[n - 1]) {
                assert forall|j: int| 0 <= j < ps.len() implies line_matches(
                    ps[j],
                    lines[n - 1 + j],
                ) by {
                    assert(j == 0);
                }
            }
            assert(ps[0] == pattern);
        }
    } else {
        assert(lines.subrange(0, 0).len() == 0);
    }
}

/// Removing one line removes exactly that line's contribution.
proof fn lemma_literal_count_remove(pattern: Seq<char>, lines: Seq<Seq<char>>, k: int)
    requires
        0 <= k < lines.len(),
    ensures
        literal_count(pattern, lines) == literal_count(pattern, lines.remove(k)) + if line_matches(
            pattern,
            lines[k],
        ) {
            1nat
        } else {
            0nat
        },
    decreases lines.len(),
{
    if k == lines.len() - 1 {
        assert(lines.remove(k) =~= lines.drop_last());
    } else {
        lemma_literal_count_remove(pattern, lines.drop_last(), k);
        assert(lines.drop_last().remove(k) =~= lines.remove(k).drop_last());
        assert(lines.remove(k).last() == lines.last());
    }
}

/// A literal counts the lines that match it, whatever their order: two
/// documents with the same lines, each as many times, get the same count.
pub proof fn lemma_literal_ignores_order(m: Arc<Matcher>, lines1: Seq<Seq<char>>, lines2: Seq<Seq<char>>)
    requires
        lines1.to_multiset() == lines2.to_multiset(),
    ensures
        occurrences(Rule::One(m), lines1) == occurrences(Rule::One(m), lines2),
    decreases lines1.len(),
{
    broadcast use vstd::seq_lib::group_to_multiset_ensures;
    broadcast use vstd::multiset::group_multiset_axioms;

    let p = m@;
    if lines1.len() == 0 {
        assert(lines2.to_multiset().len() == 0);
        assert(lines2 =~= lines1);
    } else {
        let x = lines1.last();
        let init = lines1.drop_last();
        assert(lines1 =~= init.push(x));
        vstd::seq_lib::to_multiset_build(init, x);
        assert(lines2.to_multiset().count(x) > 0);
        assert(lines2.contains(x));
        let k = choose|k: int| 0 <= k < lines2.len() && lines2[k] == x;
        vstd::seq_lib::to_multiset_remove(lines2, k);
        assert(lines2.remove(k).to_multiset() =~= init.to_multiset());
        lemma_literal_ignores_order(m, init, lines2.remove(k));
        lemma_literal_count_remove(p, lines2, k);
    }
}

/// A sequence of one regex counts exactly what that regex alone counts.
pub proof fn lemma_single_sequence_is_literal(ms: Vec<Arc<Matcher>>, lines: Seq<Seq<char>>)
    requires
        ms@.len() == 1,
    ensures
        occurrences(Rule::Sequence(ms), lines) == occurrences(Rule::One(ms@[0]), lines),
{
    let p = ms@[0]@;
    assert(patterns_view(ms@) =~= seq![p]);
    if lines.len() >= 1 {
        lemma_single_window(p, lines, lines.len());
        assert(lines.subrange(0, lines.len() as int) =~= lines);
    } else {
        assert(lines.len() == 0);
    }
}

/// The smallest element is at most each element and equal to one of them.
proof fn lemma_seq_min(s: Seq<nat>)
    requires
        s.len() > 0,
    ensures
        forall|i: int| 0 <= i < s.len() ==> seq_min(s) <= #[trigger] s[i],
        exists|i: int| 0 <= i < s.len() && seq_min(s) == #[trigger] s[i],
    decreases s.len(),
{
    if s.len() == 1 {
        assert(seq_min(s) == s[0]);
    } else {
        let init = s.drop_last();
        lemma_seq_min(init);
        assert forall|i: int| 0 <= i < s.len() implies seq_min(s) <= #[trigger] s[i] by {
            if i < s.len() - 1 {
                assert(s[i] == init[i]);
            }
        }
        if s.last() < seq_min(init) {
            assert(seq_min(s) == s[s.len() - 1]);
        } else {
            let j = choose|j: int| 0 <= j < init.len() && seq_min(init) == #[trigger] init[j];
            assert(seq_min(s) == s[j]);
        }
    }
}

/// A conjunction counts as its least-matched child: at most each child's
/// count, and equal to one of them.
pub proof fn lemma_conjunction_is_min(rs: Vec<Rule>, lines: Seq<Seq<char>>)
    requires
        rs@.len() > 0,
    ensures
        forall|i: int|
            0 <= i < rs@.len() ==> occurrences(Rule::And(rs), lines) <= occurrences(
                #[trigger] rs@[i],
                lines,
            ),
        exists|i: int|
            0 <= i < rs@.len() && occurrences(Rule::And(rs), lines) == occurrences(
                #[trigger] rs@[i],
                lines,
            ),
{
    let cs = child_counts(rs@, lines);
    lemma_child_counts(rs@, lines);
    lemma_seq_min(cs);
    assert forall|i: int| 0 <= i < rs@.len() implies occurrences(Rule::And(rs), lines) <= occurrences(
        #[trigger] rs@[i],
        lines,
    ) by {
        assert(cs[i] == occurrences(rs@[i], lines));
    }
    let j = choose|j: int| 0 <= j < cs.len() && seq_min(cs) == #[trigger] cs[j];
    assert(occurrences(Rule::And(rs), lines) == occurrences(rs@[j], lines));
}

/// A disjunction counts the sum of its children's counts, with no deduplication.
pub proof fn lemma_disjunction_is_sum(rs: Vec<Rule>, lines: Seq<Seq<char>>)
    ensures
        occurrences(Rule::Or(rs), lines) == seq_sum(
            Seq::new(rs@.len(), |i: int| occurrences(rs@[i], lines)),
        ),
{
    lemma_child_counts(rs@, lines);
    assert(child_counts(rs@, lines) =~= Seq::new(rs@.len(), |i: int| occurrences(rs@[i], lines)));
}

/// A count depends on the rule and the text of the lines alone: evaluating a
/// rule twice, on the same page or on two pages with the same lines, gives the
/// same count (`Rule::occurances` returns `occurrences(self, lines_view(page@))`).
pub proof fn lemma_evaluation_is_pure(rule: Rule, page1: Seq<&str>, page2: Seq<&str>)
    requires
        lines_view(page1) == lines_view(page2),
    ensures
        occurrences(rule, lines_view(page1)) == occurrences(rule, lines_view(page2)),
{
}

/// An empty document holds no literal and no sequence, and a sequence longer
/// than the document never matches.
pub proof fn lemma_short_documents(m: Arc<Matcher>, ms: Vec<Arc<Matcher>>, lines: Seq<Seq<char>>)
    ensures
        occurrences(Rule::One(m), seq![]) == 0,
        ms@.len() > 0 ==> occurrences(Rule::Sequence(ms), seq![]) == 0,
        ms@.len() > lines.len() ==> occurrences(Rule::Sequence(ms), lines) == 0,
{
}

/// Relies on rayon's `par_iter().filter(..).count()`: the number of lines for
/// which the predicate holds, the lines being tested in parallel.
#[verifier::external_body]
fn par_count_matching(m: &Matcher, page: &[&str]) -> (r: usize)
    ensures
        r == literal_count(m@, lines_view(page@)),
{
    page.par_iter().filter(|line| m.matches_line(line)).count()
}

/// Whether the lines starting at `start` match the regexes of `ms`, position by position.
fn window_at(ms: &Vec<Arc<Matcher>>, page: &[&str], start: usize) -> (r: bool)
    requires
        start + ms@.len() <= page@.len(),
    ensures
        r == window_matches(patterns_view(ms@), lines_view(page@), start as int),
{
    let ghost ps = patterns_view(ms@);
    let ghost lines = lines_view(page@);
    let n = page.len();
    let mut j: usize = 0;
    while j < ms.len()
        invariant
            n == page@.len(),
            j <= ms@.len(),
            start + ms@.len() <= page@.len(),
            ps == patterns_view(ms@),
            lines == lines_view(page@),
            forall|k: int| #![trigger ps[k]] 0 <= k < j ==> line_matches(ps[k], lines[start + k]),
        decreases ms@.len() - j,
    {
        if !ms[j].matches_line(page[start + j]) {
            assert(!line_matches(ps[j as int], lines[start + j]));
            return false;
        }
        j += 1;
    }
    true
}

/// The number of windows of consecutive lines that match `ms` position by position.
fn count_windows(ms: &Vec<Arc<Matcher>>, page: &[&str]) -> (r: usize)
    requires
        ms@.len() >= 1,
    ensures
        r == sequence_count(patterns_view(ms@), lines_view(page@)),
{
    let k = ms.len();
    let n = page.len();
    if k > n {
        return 0;
    }
    let ghost ps = patterns_view(ms@);
    let ghost lines = lines_view(page@);
    let mut count: usize = 0;
    let mut start: usize = 0;
    while start < n - k + 1
        invariant
            k == ms@.len(),
            n == page@.len(),
            1 <= k <= n,
            start <= n - k + 1,
            ps == patterns_view(ms@),
            lines == lines_view(page@),
            count == windows_count(ps, lines, start as nat),
            count <= start,
        decreases n - k + 1 - start,
    {
        if window_at(ms, page, start) {
            count += 1;
        }
        start += 1;
    }
    count
}

/// The sum of the weights of `rules`, or `None` where it does not fit in a `usize`.
fn checked_weights_sum(rules: &Vec<Rule>) -> (r: Option<usize>)
    ensures
        r matches Some(w) ==> w == weights_sum(rules@),
        r is None ==> weights_sum(rules@) > usize::MAX,
    decreases rules, 1int,
{
    let mut total: usize = 0;
    let mut i: usize = 0;
    while i < rules.len()
        invariant
            i <= rules@.len(),
            total == weights_sum(rules@.subrange(0, i as int)),
        decreases rules@.len() - i,
    {
        proof {
            lemma_child_counts_prefix(rules@, seq![], i as int);
            lemma_weights_prefix(rules@, i + 1);
        }
        match rules[i].checked_weight() {
            Some(w) => {
                if w > usize::MAX - total {
                    return None;
                }
                total = total + w;
            },
            None => {
                return None;
            },
        }
        i += 1;
    }
    proof {
        assert(rules@.subrange(0, rules@.len() as int) =~= rules@);
    }
    Some(total)
}

impl Rule {
    /// The rule's weight (see `weight`), or `None` where it does not fit in a
    /// `usize`. A page of `n` lines may be evaluated when `weight * n` fits.
    pub fn checked_weight(&self) -> (r: Option<usize>)
        ensures
            r matches Some(w) ==> w == weight(*self),
            r is None ==> weight(*self) > usize::MAX,
        decreases self, 0int,
    {
        match self {
            Rule::One(_) => Some(1),
            Rule::Sequence(_) => Some(1),
            Rule::And(rs) => checked_weights_sum(rs),
            Rule::Or(rs) => checked_weights_sum(rs),
        }
    }

    /// How many times the rule occurs in the page: the number of matching
    /// lines for `One`, of matching windows for `Sequence`, the smallest
    /// child count for `And` and the sum of the child counts for `Or`.
    /// The count is a function of the rule and the lines alone, so calling
    /// it again on the same page gives the same count.
    pub fn occurances(&self, page: &[&str]) -> (r: usize)
        requires
            well_formed(*self),
            weight(*self) * page@.len() <= usize::MAX,
        ensures
            r == occurrences(*self, lines_view(page@)),
            *self matches Rule::And(rs) ==> {
                &&& forall|i: int|
                    0 <= i < rs@.len() ==> r <= occurrences(#[trigger] rs@[i], lines_view(page@))
                &&& exists|i: int|
                    0 <= i < rs@.len() && r == occurrences(#[trigger] rs@[i], lines_view(page@))
            },
            *self matches Rule::Or(rs) ==> r == seq_sum(
                Seq::new(rs@.len(), |i: int| occurrences(rs@[i], lines_view(page@))),
            ),
        decreases self, 0int,
    {
        let ghost lines = lines_view(page@);
        proof {
            lemma_occurrences_bound(*self, lines);
        }
        match self {
            Rule::One(m) => par_count_matching(m, page),
            Rule::Sequence(ms) => {
                if ms.len() == 1 {
                    proof {
                        let p = ms@[0]@;
                        assert(patterns_view(ms@) =~= seq![p]);
                        lemma_single_window(p, lines, lines.len());
                        assert(lines.subrange(0, lines.len() as int) =~= lines);
                    }
                    par_count_matching(&ms[0], page)
                } else {
                    count_windows(ms, page)
                }
            },
            Rule::And(rs) => {
                proof {
                    lemma_weights_prefix(rs@, 1);
                    lemma_child_counts_prefix(rs@, lines, 0);
                    assert(rs@.subrange(0, 0).len() == 0);
                    assert(weight(rs@[0]) * page@.len() <= weights_sum(rs@) * page@.len())
                        by (nonlinear_arith)
                        requires weight(rs@[0]) <= weights_sum(rs@);
                }
                let mut best = rs[0].occurances(page);
                let mut i: usize = 1;
                while i < rs.len()
                    invariant
                        1 <= i <= rs@.len(),
                        lines == lines_view(page@),
                        well_formed(*self),
                        *self == Rule::And(*rs),
                        weights_sum(rs@) * page@.len() <= usize::MAX,
                        best == seq_min(child_counts(rs@.subrange(0, i as int), lines)),
                    decreases rs@.len() - i,
                {
                    proof {
                        lemma_weights_prefix(rs@, i + 1);
                        lemma_child_counts_prefix(rs@, lines, i as int);
                        assert(weight(rs@[i as int]) * page@.len() <= weights_sum(rs@) * page@.len())
                            by (nonlinear_arith)
                            requires weight(rs@[i as int]) <= weights_sum(rs@);
                        let next = child_counts(rs@.subrange(0, i + 1), lines);
                        assert(next.drop_last() == child_counts(rs@.subrange(0, i as int), lines));
                    }
                    let c = rs[i].occurances(page);
                    if c < best {
                        best = c;
                    }
                    i += 1;
                }
                proof {
                    assert(rs@.subrange(0, rs@.len() as int) =~= rs@);
                    lemma_conjunction_is_min(*rs, lines);
                }
                best
            },
            Rule::Or(rs) => {
                let mut total: usize = 0;
                let mut i: usize = 0;
                while i < rs.len()
                    invariant
                        i <= rs@.len(),
                        lines == lines_view(page@),
                        well_formed(*self),
                        *self == Rule::Or(*rs),
                        weights_sum(rs@) * page@.len() <= usize::MAX,
                        total == seq_sum(child_counts(rs@.subrange(0, i as int), lines)),
                    decreases rs@.len() - i,
                {
                    let ghost pre = rs@.subrange(0, i + 1);
                    proof {
                        lemma_weights_prefix(rs@, i + 1);
                        lemma_child_counts_prefix(rs@, lines, i as int);
                        assert(forall|k: int| 0 <= k < pre.len() ==> pre[k] == rs@[k]);
                        lemma_counts_bound(pre, lines);
                        assert(weights_sum(pre) * page@.len() <= weights_sum(rs@) * page@.len())
                            by (nonlinear_arith)
                            requires weights_sum(pre) <= weights_sum(rs@);
                        assert(weight(rs@[i as int]) <= weights_sum(pre));
                        assert(weight(rs@[i as int]) * page@.len() <= weights_sum(rs@) * page@.len())
                            by (nonlinear_arith)
                            requires weight(rs@[i as int]) <= weights_sum(rs@);
                        assert(child_counts(pre, lines).drop_last() == child_counts(rs@.subrange(0, i as int), lines));
                    }
                    let c = rs[i].occurances(page);
                    total = total + c;
                    i += 1;
                }
                proof {
                    assert(rs@.subrange(0, rs@.len() as int) =~= rs@);
                    lemma_disjunction_is_sum(*rs, lines);
                }
                total
            },
        }
    }
}

} // verus!
