//! Lowering a parsed rule into a compiled `Rule`, each literal's regex compiled once.

use std::sync::Arc;
use vstd::prelude::*;
use crate::matcher::{Matcher, regex_compiles};
use crate::rule::{Rule, well_formed};
use crate::syntax::{
    CompileError, ErrorKind, Literal, LiteralSyntax, RegexPattern, Syntax, literals_view,
    lemma_syntaxes_of, parse, parse_rule, pattern_wf, string_of, syntaxes_of,
};

verus! {

/// The regex text of a literal: its flags, if any, as an inline group `(?flags)`
/// in front of its pattern.
pub open spec fn composed(l: LiteralSyntax) -> Seq<char> {
    if l.flags.len() == 0 {
        l.pattern
    } else {
        seq!['(', '?'] + l.flags + seq![')'] + l.pattern
    }
}

/// Every literal of the rule is accepted by the regex engine.
pub open spec fn compiles(x: Syntax) -> bool
    decreases x,
{
    match x {
        Syntax::One(l) => regex_compiles(composed(l)),
        Syntax::Sequence(ls) => forall|i: int| 0 <= i < ls.len() ==> regex_compiles(composed(#[trigger] ls[i])),
        Syntax::Any(ls) => forall|i: int| 0 <= i < ls.len() ==> regex_compiles(composed(#[trigger] ls[i])),
        Syntax::All(xs) => forall|i: int| 0 <= i < xs.len() ==> compiles(#[trigger] xs[i]),
    }
}

/// Some literal of the rule that starts at offset `at` is rejected by the regex engine.
pub open spec fn rejected_at(x: Syntax, at: int) -> bool
    decreases x,
{
    match x {
        Syntax::One(l) => l.at == at && !regex_compiles(composed(l)),
        Syntax::Sequence(ls) => exists|i: int| 0 <= i < ls.len() && (#[trigger] ls[i]).at == at && !regex_compiles(composed(ls[i])),
        Syntax::Any(ls) => exists|i: int| 0 <= i < ls.len() && (#[trigger] ls[i]).at == at && !regex_compiles(composed(ls[i])),
        Syntax::All(xs) => exists|i: int| 0 <= i < xs.len() && rejected_at(#[trigger] xs[i], at),
    }
}

/// `rule` is the compiled form of `x`: a literal becomes `One`, `sequence` a
/// `Sequence`, `any` an `Or` of `One`s and `all` an `And`, in the written order,
/// each regex compiled from the literal's composed text.
pub open spec fn lowered(rule: Rule, x: Syntax) -> bool
    decreases x,
{
    match x {
        Syntax::One(l) => match rule {
            Rule::One(m) => m@ == composed(l),
            _ => false,
        },
        Syntax::Sequence(ls) => match rule {
            Rule::Sequence(ms) => ms@.len() == ls.len() && forall|i: int|
                0 <= i < ls.len() ==> (#[trigger] ms@[i])@ == composed(ls[i]),
            _ => false,
        },
        Syntax::Any(ls) => match rule {
            Rule::Or(rs) => rs@.len() == ls.len() && forall|i: int|
                0 <= i < ls.len() ==> match #[trigger] rs@[i] {
                    Rule::One(m) => m@ == composed(ls[i]),
                    _ => false,
                },
            _ => false,
        },
        Syntax::All(xs) => match rule {
            Rule::And(rs) => rs@.len() == xs.len() && forall|i: int|
                0 <= i < xs.len() ==> lowered(#[trigger] rs@[i], xs[i]),
            _ => false,
        },
    }
}

/// A rule with a rejected literal does not compile.
pub proof fn lemma_rejected_not_compiles(x: Syntax, at: int)
    requires
        rejected_at(x, at),
    ensures
        !compiles(x),
    decreases x,
{
    if let Syntax::All(xs) = x {
        let i = choose|i: int| 0 <= i < xs.len() && rejected_at(#[trigger] xs[i], at);
        assert(decreases_to!(x => x->All_0));
        assert(decreases_to!(xs => xs[i]));
        lemma_rejected_not_compiles(xs[i], at);
    }
}

/// Appends the characters of `t`.
fn append_chars(v: &mut Vec<char>, t: &str)
    ensures
        final(v)@ == old(v)@ + t@,
{
    let cs = crate::syntax::chars_of(t);
    let ghost start = v@;
    let mut j: usize = 0;
    while j < cs.len()
        invariant
            j <= cs@.len(),
            cs@ == t@,
            v@ == start + cs@.subrange(0, j as int),
        decreases cs@.len() - j,
    {
        v.push(cs[j]);
        j += 1;
    }
    assert(cs@.subrange(0, cs@.len() as int) =~= cs@);
}

/// The regex text of a literal (see `composed`).
pub fn composed_text(l: &Literal) -> (r: String)
    ensures
        r@ == composed(l@),
{
    let mut v: Vec<char> = Vec::new();
    if !l.flags.as_str().is_empty() {
        v.push('(');
        v.push('?');
        append_chars(&mut v, l.flags.as_str());
        v.push(')');
    }
    append_chars(&mut v, l.pattern.as_str());
    let r = string_of(&v);
    proof {
        if l.flags@.len() != 0 {
            assert(v@ =~= seq!['(', '?'] + l.flags@ + seq![')'] + l.pattern@);
        } else {
            assert(v@ =~= l.pattern@);
        }
    }
    r
}

/// Compiles a literal's regex.
fn compile_literal(l: &Literal) -> (r: Result<Arc<Matcher>, CompileError>)
    ensures
        r is Ok <==> regex_compiles(composed(l@)),
        r matches Ok(m) ==> m@ == composed(l@),
        r matches Err(e) ==> e.kind == ErrorKind::InvalidRegex && e.at == l.at,
{
    let text = composed_text(l);
    match Matcher::new(text.as_str()) {
        Ok(m) => Ok(Arc::new(m)),
        Err(_) => Err(CompileError { kind: ErrorKind::InvalidRegex, at: l.at }),
    }
}

/// Compiles the regexes of a list of literals, in order.
fn compile_literals(ls: &Vec<Literal>) -> (r: Result<Vec<Arc<Matcher>>, CompileError>)
    ensures
        r is Ok ==> forall|i: int| 0 <= i < ls@.len() ==> regex_compiles(composed(#[trigger] ls@[i]@)),
        r matches Ok(ms) ==> ms@.len() == ls@.len() && forall|i: int|
            0 <= i < ls@.len() ==> (#[trigger] ms@[i])@ == composed(ls@[i]@),
        r matches Err(e) ==> e.kind == ErrorKind::InvalidRegex && exists|i: int|
            0 <= i < ls@.len() && (#[trigger] ls@[i]).at == e.at && !regex_compiles(composed(ls@[i]@)),
{
    let mut ms: Vec<Arc<Matcher>> = Vec::new();
    let mut i: usize = 0;
    while i < ls.len()
        invariant
            i <= ls@.len(),
            ms@.len() == i,
            forall|k: int| 0 <= k < i ==> regex_compiles(composed(#[trigger] ls@[k]@)),
            forall|k: int| 0 <= k < i ==> (#[trigger] ms@[k])@ == composed(ls@[k]@),
        decreases ls@.len() - i,
    {
        match compile_literal(&ls[i]) {
            Ok(m) => ms.push(m),
            Err(e) => {
                assert(!regex_compiles(composed(ls@[i as int]@)));
                return Err(e);
            },
        }
        i += 1;
    }
    Ok(ms)
}

/// Compiles every regex of a parsed rule.
pub fn lower(p: &RegexPattern) -> (r: Result<Rule, CompileError>)
    ensures
        r is Ok <==> compiles(p@),
        r matches Ok(rule) ==> lowered(rule, p@),
        r matches Ok(rule) ==> pattern_wf(*p) ==> well_formed(rule),
        r matches Err(e) ==> e.kind == ErrorKind::InvalidRegex && rejected_at(p@, e.at as int),
    decreases p,
{
    match p {
        RegexPattern::One(l) => match compile_literal(l) {
            Ok(m) => Ok(Rule::One(m)),
            Err(e) => {
                assert(rejected_at(p@, e.at as int));
                proof {
                    lemma_rejected_not_compiles(p@, e.at as int);
                }
                Err(e)
            },
        },
        RegexPattern::Sequence(ls) => {
            let ghost v = literals_view(ls@);
            assert(forall|i: int|
                #![trigger v[i]]
                #![trigger ls@[i]]
                0 <= i < ls@.len() ==> v[i] == ls@[i]@);
            match compile_literals(ls) {
                Ok(ms) => {
                    assert(compiles(p@));
                    Ok(Rule::Sequence(ms))
                },
                Err(e) => {
                    proof {
                        let j = choose|j: int|
                            0 <= j < ls@.len() && (#[trigger] ls@[j]).at == e.at && !regex_compiles(composed(ls@[j]@));
                        assert(v[j].at == e.at && !regex_compiles(composed(v[j])));
                        assert(p@ is Sequence ==> p@->Sequence_0 == v);
                        assert(p@ is Any ==> p@->Any_0 == v);
                    }
                    proof {
                        lemma_rejected_not_compiles(p@, e.at as int);
                    }
                    Err(e)
                },
            }
        },
        RegexPattern::Any(ls) => {
            let ghost v = literals_view(ls@);
            assert(forall|i: int|
                #![trigger v[i]]
                #![trigger ls@[i]]
                0 <= i < ls@.len() ==> v[i] == ls@[i]@);
            match compile_literals(ls) {
                Ok(ms) => {
                    let mut rs: Vec<Rule> = Vec::new();
                    let mut i: usize = 0;
                    while i < ms.len()
                        invariant
                            i <= ms@.len(),
                            ms@.len() == ls@.len(),
                            v == literals_view(ls@),
                            forall|k: int| 0 <= k < ls@.len() ==> (#[trigger] ms@[k])@ == composed(v[k]),
                            rs@.len() == i,
                            forall|k: int| 0 <= k < i ==> match #[trigger] rs@[k] {
                                Rule::One(m) => m@ == composed(v[k]),
                                _ => false,
                            },
                        decreases ms@.len() - i,
                    {
                        rs.push(Rule::One(ms[i].clone()));
                        i += 1;
                    }
                    assert(compiles(p@));
                    assert forall|k: int| 0 <= k < rs@.len() implies well_formed(#[trigger] rs@[k]) by {
                        assert(rs@[k] is One);
                    }
                    Ok(Rule::Or(rs))
                },
                Err(e) => {
                    proof {
                        let j = choose|j: int|
                            0 <= j < ls@.len() && (#[trigger] ls@[j]).at == e.at && !regex_compiles(composed(ls@[j]@));
                        assert(v[j].at == e.at && !regex_compiles(composed(v[j])));
                        assert(p@ is Sequence ==> p@->Sequence_0 == v);
                        assert(p@ is Any ==> p@->Any_0 == v);
                    }
                    proof {
                        lemma_rejected_not_compiles(p@, e.at as int);
                    }
                    Err(e)
                },
            }
        },
        RegexPattern::All(ps) => {
            let ghost xs = syntaxes_of(ps@);
            proof {
                lemma_syntaxes_of(ps@);
                assert(p@ == Syntax::All(xs));
            }
            let mut rs: Vec<Rule> = Vec::new();
            let mut i: usize = 0;
            while i < ps.len()
                invariant
                    i <= ps@.len(),
                    *p == RegexPattern::All(*ps),
                    p@ == Syntax::All(xs),
                    xs == syntaxes_of(ps@),
                    xs.len() == ps@.len(),
                    forall|k: int| 0 <= k < ps@.len() ==> #[trigger] xs[k] == ps@[k]@,
                    rs@.len() == i,
                    forall|k: int| 0 <= k < i ==> compiles(#[trigger] xs[k]),
                    forall|k: int| 0 <= k < i ==> lowered(#[trigger] rs@[k], xs[k]),
                    forall|k: int| 0 <= k < i ==> pattern_wf(ps@[k]) ==> well_formed(#[trigger] rs@[k]),
                decreases ps@.len() - i,
            {
                match lower(&ps[i]) {
                    Ok(rule) => rs.push(rule),
                    Err(e) => {
                                        assert(rejected_at(xs[i as int], e.at as int));
                        assert(decreases_to!(p@ => p@->All_0));
                        assert(decreases_to!(xs => xs[i as int]));
                        assert(rejected_at(p@, e.at as int));
                        proof {
                            lemma_rejected_not_compiles(p@, e.at as int);
                        }
                        return Err(e);
                    },
                }
                i += 1;
            }
            let rule = Rule::And(rs);
            proof {
                assert(compiles(p@));
                assert(lowered(rule, p@));
                if pattern_wf(*p) {
                    assert forall|k: int| 0 <= k < rs@.len() implies well_formed(#[trigger] rs@[k]) by {
                        assert(pattern_wf(ps@[k]));
                    }
                }
            }
            Ok(rule)
        },
    }
}

/// Compiles the text of a rule. A syntax error is reported exactly as the
/// grammar (`parse_rule`) finds it. A rule that parses compiles exactly when
/// every literal's regex does, into the well-formed `Rule` that `lowered`
/// describes; otherwise it fails at the offset of a literal that the regex
/// engine rejected.
pub fn rule(text: &str) -> (r: Result<Rule, CompileError>)
    ensures
        match parse_rule(text@) {
            Ok(x) => {
                &&& r is Ok <==> compiles(x)
                &&& r matches Ok(rl) ==> lowered(rl, x) && well_formed(rl)
                &&& r matches Err(e) ==> e.kind == ErrorKind::InvalidRegex && rejected_at(x, e.at as int)
            },
            Err((kind, at)) => r == Err::<Rule, CompileError>(CompileError { kind, at: at as usize }),
        },
{
    match parse(text) {
        Ok(p) => lower(&p),
        Err(e) => Err(e),
    }
}

} // verus!
