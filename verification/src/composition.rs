//! How `and`, `or` and parentheses compose: what an expression built from
//! conditions selects is built from what each condition selects on its own.
use vstd::prelude::*;

use crate::expression::{
    after_sign, alternative_at, alternatives, and_rule, and_word, both, condition_at,
    conditions_rule, evaluation, first_alternative, first_variable, in_class,
    lemma_and_or_composition, lemma_first_variable_not_paren, literal_at, operator_text, or_rule,
    or_word, run_end, subject_text, variable_name, variables, Alternative, CharClass, Formats,
    Function, Variable,
};
use crate::floats::FloatValues;
use crate::text::occurs_at;
use crate::tokenizer::TokenView;
use crate::values::{Datum, Kind, Operator};

verus! {

/// No character of `t` from index `i` on is a space.
pub open spec fn no_space_from(t: Seq<char>, i: int) -> bool
    decreases t.len() - i,
{
    if 0 <= i < t.len() {
        t[i] != ' ' && no_space_from(t, i + 1)
    } else {
        true
    }
}

proof fn lemma_no_space_from(t: Seq<char>, i: int, k: int)
    requires
        0 <= i <= k < t.len(),
        no_space_from(t, i),
    ensures
        t[k] != ' ',
    decreases k - i,
{
    if i < k {
        lemma_no_space_from(t, i + 1, k);
    }
}

proof fn lemma_name_has_no_space(v: Variable)
    ensures
        no_space_from(variable_name(v), 0),
{
    reveal_with_fuel(no_space_from, 20);
    match v {
        Variable::Integer => {
            reveal_strlit("$integer");
            assert(no_space_from("$integer"@, 0));
        },
        Variable::Float => {
            reveal_strlit("$float");
            assert(no_space_from("$float"@, 0));
        },
        Variable::Id => {
            reveal_strlit("$id");
            assert(no_space_from("$id"@, 0));
        },
        Variable::Date => {
            reveal_strlit("$date");
            assert(no_space_from("$date"@, 0));
        },
        Variable::Time => {
            reveal_strlit("$time");
            assert(no_space_from("$time"@, 0));
        },
        Variable::DateTime => {
            reveal_strlit("$dateTime");
            assert(no_space_from("$dateTime"@, 0));
        },
        Variable::LocalDateTime => {
            reveal_strlit("$localDateTime");
            assert(no_space_from("$localDateTime"@, 0));
        },
        Variable::IpAddress => {
            reveal_strlit("$ipAddress");
            assert(no_space_from("$ipAddress"@, 0));
        },
        Variable::Ipv4Address => {
            reveal_strlit("$ipv4Address");
            assert(no_space_from("$ipv4Address"@, 0));
        },
        Variable::Ipv6Address => {
            reveal_strlit("$ipv6Address");
            assert(no_space_from("$ipv6Address"@, 0));
        },
        Variable::IpSocketAddress => {
            reveal_strlit("$ipSocketAddress");
            assert(no_space_from("$ipSocketAddress"@, 0));
        },
        Variable::Ipv4SocketAddress => {
            reveal_strlit("$ipv4SocketAddress");
            assert(no_space_from("$ipv4SocketAddress"@, 0));
        },
        Variable::Ipv6SocketAddress => {
            reveal_strlit("$ipv6SocketAddress");
            assert(no_space_from("$ipv6SocketAddress"@, 0));
        },
        Variable::SemanticVersion => {
            reveal_strlit("$semanticVersion");
            assert(no_space_from("$semanticVersion"@, 0));
        },
        Variable::IpNetwork => {
            reveal_strlit("$ipNetwork");
            assert(no_space_from("$ipNetwork"@, 0));
        },
        Variable::Ipv4Network => {
            reveal_strlit("$ipv4Network");
            assert(no_space_from("$ipv4Network"@, 0));
        },
        Variable::Ipv6Network => {
            reveal_strlit("$ipv6Network");
            assert(no_space_from("$ipv6Network"@, 0));
        },
    }
}

/// A condition's subject (the variable, or a function applied to it) has
/// no space.
proof fn lemma_subject_has_no_space(v: Variable, f: Function, k: int)
    requires
        0 <= k < subject_text(v, f).len(),
    ensures
        subject_text(v, f)[k] != ' ',
{
    lemma_name_has_no_space(v);
    let name = variable_name(v);
    reveal_strlit("port(");
    reveal_strlit("ip(");
    reveal_strlit(")");
    match f {
        Function::Plain => {
            lemma_no_space_from(name, 0, k);
        },
        Function::Port => {
            if 5 <= k < 5 + name.len() {
                lemma_no_space_from(name, 0, k - 5);
            }
        },
        Function::Ip => {
            if 3 <= k < 3 + name.len() {
                lemma_no_space_from(name, 0, k - 3);
            }
        },
    }
}

/// A comparator is written as a word between two spaces; only `not in`
/// has a space inside, after its fourth character, and none is five
/// characters long.
proof fn lemma_operator_shape(op: Operator, k: int)
    ensures
        operator_text(op).len() >= 3,
        operator_text(op).len() != 5,
        operator_text(op)[0] == ' ',
        operator_text(op)[operator_text(op).len() - 1] == ' ',
        0 < k < operator_text(op).len() - 1 && operator_text(op)[k] == ' ' ==> op == Operator::NotIn
            && k == 4,
{
    reveal_with_fuel(no_space_from, 14);
    if op == Operator::NotIn {
        reveal_strlit(" not in ");
        assert(no_space_from(seq!['n', 'o', 't'], 0));
        assert(no_space_from(seq!['i', 'n'], 0));
        if 0 < k < 4 {
            assert(operator_text(op).subrange(1, 4) =~= seq!['n', 'o', 't']);
            lemma_no_space_from(seq!['n', 'o', 't'], 0, k - 1);
            assert(operator_text(op).subrange(1, 4)[k - 1] == operator_text(op)[k]);
        }
        if 4 < k < 7 {
            assert(operator_text(op).subrange(5, 7) =~= seq!['i', 'n']);
            lemma_no_space_from(seq!['i', 'n'], 0, k - 5);
            assert(operator_text(op).subrange(5, 7)[k - 5] == operator_text(op)[k]);
        }
    } else {
        match op {
            Operator::Equal => {
                reveal_strlit(" == ");
            },
            Operator::NotEqual => {
                reveal_strlit(" != ");
            },
            Operator::Greater => {
                reveal_strlit(" > ");
            },
            Operator::GreaterOrEqual => {
                reveal_strlit(" >= ");
            },
            Operator::Less => {
                reveal_strlit(" < ");
            },
            Operator::LessOrEqual => {
                reveal_strlit(" <= ");
            },
            Operator::Contains => {
                reveal_strlit(" contains ");
            },
            Operator::StartsWith => {
                reveal_strlit(" starts-with ");
            },
            Operator::EndsWith => {
                reveal_strlit(" ends-with ");
            },
            Operator::In => {
                reveal_strlit(" in ");
            },
            Operator::Matches => {
                reveal_strlit(" matches ");
            },
            Operator::NotIn => {},
        }
        let t = operator_text(op);
        if 0 < k < t.len() - 1 {
            assert(no_space_from(t.subrange(1, t.len() - 1), 0));
            lemma_no_space_from(t.subrange(1, t.len() - 1), 0, k - 1);
            assert(t.subrange(1, t.len() - 1)[k - 1] == t[k]);
        }
    }
}

/// The text that a form of condition starts with: its subject and its
/// comparator.
pub open spec fn form_text(v: Variable, f: Function, op: Operator) -> Seq<char> {
    subject_text(v, f) + operator_text(op)
}

/// No form text is a proper prefix of another.
proof fn lemma_form_prefix(v1: Variable, f1: Function, o1: Operator, v2: Variable, f2: Function, o2: Operator)
    requires
        form_text(v1, f1, o1).len() <= form_text(v2, f2, o2).len(),
        form_text(v2, f2, o2).subrange(0, form_text(v1, f1, o1).len() as int) == form_text(
            v1,
            f1,
            o1,
        ),
    ensures
        form_text(v1, f1, o1).len() == form_text(v2, f2, o2).len(),
{
    let s1 = subject_text(v1, f1);
    let s2 = subject_text(v2, f2);
    let p1 = operator_text(o1);
    let p2 = operator_text(o2);
    let t1 = form_text(v1, f1, o1);
    let t2 = form_text(v2, f2, o2);
    lemma_operator_shape(o1, 0);
    lemma_operator_shape(o2, p1.len() - 1);
    assert(t1[s1.len() as int] == ' ');
    assert(t2.subrange(0, t1.len() as int)[s1.len() as int] == t2[s1.len() as int]);
    if s1.len() < s2.len() {
        lemma_subject_has_no_space(v2, f2, s1.len() as int);
        assert(t2[s1.len() as int] == s2[s1.len() as int]);
    }
    if s2.len() < s1.len() {
        assert(t2[s2.len() as int] == ' ');
        assert(t2.subrange(0, t1.len() as int)[s2.len() as int] == t2[s2.len() as int]);
        lemma_subject_has_no_space(v1, f1, s2.len() as int);
        assert(t1[s2.len() as int] == s1[s2.len() as int]);
    }
    assert(s1.len() == s2.len());
    if p1.len() < p2.len() {
        let k = p1.len() - 1;
        assert(t1[s1.len() + k] == p1[k]);
        assert(t2[s2.len() + k] == p2[k]);
        assert(t2.subrange(0, t1.len() as int)[s1.len() + k] == t2[s2.len() + k]);
    }
}

/// `a` stands in `s` at `p`, and is followed by the end of `s`, a space or
/// a closing parenthesis.
pub open spec fn stands_at(s: Seq<char>, p: int, a: Seq<char>) -> bool {
    &&& 0 <= p
    &&& p + a.len() <= s.len()
    &&& s.subrange(p, p + a.len()) == a
    &&& (p + a.len() == s.len() || s[p + a.len()] == ' ' || s[p + a.len()] == ')')
}

/// A literal's end moved by `d`.
pub open spec fn shift_literal(r: Option<(int, Datum)>, d: int) -> Option<(int, Datum)> {
    match r {
        Some((e, x)) => Some((e + d, x)),
        None => None,
    }
}

/// A rule's end moved by `d`.
pub open spec fn shift_rule(r: Option<(int, Set<usize>)>, d: int) -> Option<(int, Set<usize>)> {
    match r {
        Some((e, x)) => Some((e + d, x)),
        None => None,
    }
}

proof fn lemma_run_end_bound(a: Seq<char>, q: int, class: CharClass)
    requires
        0 <= q <= a.len(),
    ensures
        q <= run_end(a, q, class) <= a.len(),
    decreases a.len() - q,
{
    if q < a.len() && in_class(a[q], class) {
        lemma_run_end_bound(a, q + 1, class);
    }
}

proof fn lemma_run_end_shift(s: Seq<char>, p: int, a: Seq<char>, q: int, class: CharClass)
    requires
        stands_at(s, p, a),
        0 <= q <= a.len(),
    ensures
        run_end(s, p + q, class) == p + run_end(a, q, class),
    decreases a.len() - q,
{
    if q < a.len() {
        assert(s.subrange(p, p + a.len())[q] == s[p + q]);
        lemma_run_end_shift(s, p, a, q + 1, class);
    }
}

#[verifier::spinoff_prover]
#[verifier::rlimit(40)]
proof fn lemma_literal_shift(s: Seq<char>, p: int, a: Seq<char>, q: int, kind: Kind, formats: Formats, floats: FloatValues)
    requires
        stands_at(s, p, a),
        0 <= q <= a.len(),
    ensures
        literal_at(s, p + q, kind, formats, floats) == shift_literal(
            literal_at(a, q, kind, formats, floats),
            p,
        ),
{
    if q < a.len() {
        assert(s.subrange(p, p + a.len())[q] == s[p + q]);
    }
    match kind {
        Kind::Integer => {
            let sq = after_sign(a, q);
            assert(after_sign(s, p + q) == p + sq);
            lemma_run_end_shift(s, p, a, sq, CharClass::Digit);
            lemma_run_end_bound(a, sq, CharClass::Digit);
            let e = run_end(a, sq, CharClass::Digit);
            assert(s.subrange(p + q, p + e) =~= a.subrange(q, e));
        },
        Kind::Float => {
            let sq = after_sign(a, q);
            assert(after_sign(s, p + q) == p + sq);
            lemma_run_end_shift(s, p, a, sq, CharClass::Digit);
            lemma_run_end_bound(a, sq, CharClass::Digit);
            let e1 = run_end(a, sq, CharClass::Digit);
            if e1 < a.len() {
                assert(s.subrange(p, p + a.len())[e1] == s[p + e1]);
            }
            let e2 = if 0 <= e1 < a.len() && a[e1] == '.' {
                e1 + 1
            } else {
                e1
            };
            lemma_run_end_shift(s, p, a, e2, CharClass::Digit);
            lemma_run_end_bound(a, e2, CharClass::Digit);
            let e3 = run_end(a, e2, CharClass::Digit);
            assert(s.subrange(p + q, p + e3) =~= a.subrange(q, e3));
        },
        Kind::Id => {
            lemma_run_end_shift(s, p, a, q, CharClass::Letter);
            lemma_run_end_bound(a, q, CharClass::Letter);
            let l1 = run_end(a, q, CharClass::Letter);
            lemma_run_end_shift(s, p, a, l1, CharClass::IdPart);
            lemma_run_end_bound(a, l1, CharClass::IdPart);
            let l2 = run_end(a, l1, CharClass::IdPart);
            assert(s.subrange(p + q, p + l2) =~= a.subrange(q, l2));
        },
        _ => {
            let class = crate::expression::literal_class(kind);
            lemma_run_end_shift(s, p, a, q, class);
            lemma_run_end_bound(a, q, class);
            let r = run_end(a, q, class);
            assert(s.subrange(p + q, p + r) =~= a.subrange(q, r));
        },
    }
}

proof fn lemma_alternative_shift(s: Seq<char>, p: int, a: Seq<char>, v: Variable, alt: Alternative, tokens: Seq<TokenView>, formats: Formats, floats: FloatValues, v0: Variable, f0: Function, o0: Operator)
    requires
        stands_at(s, p, a),
        occurs_at(a, 0, form_text(v0, f0, o0)),
        form_text(v0, f0, o0).len() < a.len(),
    ensures
        alternative_at(s, p, v, alt, tokens, formats, floats) == shift_rule(
            alternative_at(a, 0, v, alt, tokens, formats, floats),
            p,
        ),
{
    reveal(alternative_at);
    let text = subject_text(v, alt.function) + operator_text(alt.op);
    let t0 = form_text(v0, f0, o0);
    assert(text == form_text(v, alt.function, alt.op));
    if text.len() <= a.len() {
        assert(s.subrange(p, p + text.len()) =~= a.subrange(0, text.len() as int));
        assert(occurs_at(s, p, text) == occurs_at(a, 0, text));
        lemma_literal_shift(s, p, a, text.len() as int, alt.literal, formats, floats);
    } else {
        if occurs_at(s, p, text) {
            assert(text.subrange(0, a.len() as int) =~= s.subrange(p, p + a.len()));
            assert(text.subrange(0, t0.len() as int) =~= a.subrange(0, t0.len() as int));
            lemma_form_prefix(v0, f0, o0, v, alt.function, alt.op);
        }
    }
}

proof fn lemma_first_alternative_shift(s: Seq<char>, p: int, a: Seq<char>, v: Variable, forms: Seq<Alternative>, tokens: Seq<TokenView>, formats: Formats, floats: FloatValues, v0: Variable, f0: Function, o0: Operator)
    requires
        stands_at(s, p, a),
        occurs_at(a, 0, form_text(v0, f0, o0)),
        form_text(v0, f0, o0).len() < a.len(),
    ensures
        first_alternative(s, p, v, forms, tokens, formats, floats) == shift_rule(
            first_alternative(a, 0, v, forms, tokens, formats, floats),
            p,
        ),
    decreases forms.len(),
{
    if forms.len() > 0 {
        lemma_alternative_shift(s, p, a, v, forms[0], tokens, formats, floats, v0, f0, o0);
        lemma_first_alternative_shift(s, p, a, v, forms.drop_first(), tokens, formats, floats, v0, f0, o0);
    }
}

proof fn lemma_first_variable_shift(s: Seq<char>, p: int, a: Seq<char>, vs: Seq<Variable>, tokens: Seq<TokenView>, formats: Formats, floats: FloatValues, v0: Variable, f0: Function, o0: Operator)
    requires
        stands_at(s, p, a),
        occurs_at(a, 0, form_text(v0, f0, o0)),
        form_text(v0, f0, o0).len() < a.len(),
    ensures
        first_variable(s, p, vs, tokens, formats, floats) == shift_rule(
            first_variable(a, 0, vs, tokens, formats, floats),
            p,
        ),
    decreases vs.len(),
{
    if vs.len() > 0 {
        lemma_first_alternative_shift(s, p, a, vs[0], alternatives(vs[0]), tokens, formats, floats, v0, f0, o0);
        lemma_first_variable_shift(s, p, a, vs.drop_first(), tokens, formats, floats, v0, f0, o0);
    }
}

proof fn lemma_literal_nonempty(a: Seq<char>, q: int, kind: Kind, formats: Formats, floats: FloatValues)
    requires
        0 <= q <= a.len(),
    ensures
        literal_at(a, q, kind, formats, floats) matches Some((e, _)) ==> e > q,
{
    let sq = after_sign(a, q);
    lemma_run_end_bound(a, sq, CharClass::Digit);
    let e1 = run_end(a, sq, CharClass::Digit);
    let e2 = if 0 <= e1 < a.len() && a[e1] == '.' {
        e1 + 1
    } else {
        e1
    };
    lemma_run_end_bound(a, e2, CharClass::Digit);
    lemma_run_end_bound(a, q, CharClass::Letter);
    lemma_run_end_bound(a, run_end(a, q, CharClass::Letter), CharClass::IdPart);
}

proof fn lemma_form_of_first_alternative(a: Seq<char>, v: Variable, forms: Seq<Alternative>, tokens: Seq<TokenView>, formats: Formats, floats: FloatValues) -> (r: (Function, Operator))
    requires
        first_alternative(a, 0, v, forms, tokens, formats, floats) matches Some((e, _)) && e
            == a.len(),
    ensures
        occurs_at(a, 0, form_text(v, r.0, r.1)),
        form_text(v, r.0, r.1).len() < a.len(),
    decreases forms.len(),
{
    reveal(alternative_at);
    let alt = forms[0];
    if alternative_at(a, 0, v, alt, tokens, formats, floats) is Some {
        let text = subject_text(v, alt.function) + operator_text(alt.op);
        lemma_literal_nonempty(a, text.len() as int, alt.literal, formats, floats);
        (alt.function, alt.op)
    } else {
        lemma_form_of_first_alternative(a, v, forms.drop_first(), tokens, formats, floats)
    }
}

proof fn lemma_form_of_first_variable(a: Seq<char>, vs: Seq<Variable>, tokens: Seq<TokenView>, formats: Formats, floats: FloatValues) -> (r: (Variable, Function, Operator))
    requires
        first_variable(a, 0, vs, tokens, formats, floats) matches Some((e, _)) && e == a.len(),
    ensures
        occurs_at(a, 0, form_text(r.0, r.1, r.2)),
        form_text(r.0, r.1, r.2).len() < a.len(),
    decreases vs.len(),
{
    if first_alternative(a, 0, vs[0], alternatives(vs[0]), tokens, formats, floats) is Some {
        let (f, o) = lemma_form_of_first_alternative(
            a,
            vs[0],
            alternatives(vs[0]),
            tokens,
            formats,
            floats,
        );
        (vs[0], f, o)
    } else {
        lemma_form_of_first_variable(a, vs.drop_first(), tokens, formats, floats)
    }
}

/// The whole of `a` is one condition.
pub open spec fn is_condition(a: Seq<char>, tokens: Seq<TokenView>, formats: Formats, floats: FloatValues) -> bool {
    condition_at(a, 0, tokens, formats, floats) matches Some((e, _)) && e == a.len()
}

/// A condition that stands in a longer text, followed by its end, a space
/// or a closing parenthesis, is read there as it is read on its own.
proof fn lemma_condition_shift(s: Seq<char>, p: int, a: Seq<char>, tokens: Seq<TokenView>, formats: Formats, floats: FloatValues)
    requires
        stands_at(s, p, a),
        is_condition(a, tokens, formats, floats),
    ensures
        condition_at(s, p, tokens, formats, floats) == shift_rule(
            condition_at(a, 0, tokens, formats, floats),
            p,
        ),
{
    let (v0, f0, o0) = lemma_form_of_first_variable(a, variables(), tokens, formats, floats);
    lemma_first_variable_shift(s, p, a, variables(), tokens, formats, floats, v0, f0, o0);
}

/// What the condition `a` selects on its own.
pub open spec fn selected(a: Seq<char>, tokens: Seq<TokenView>, formats: Formats, floats: FloatValues) -> Set<usize> {
    match condition_at(a, 0, tokens, formats, floats) {
        Some((_, x)) => x,
        None => Set::empty(),
    }
}

/// `a`, the word `and` between spaces, and `b`.
pub open spec fn and_of(a: Seq<char>, b: Seq<char>) -> Seq<char> {
    a + and_word() + b
}

/// `a`, the word `or` between spaces, and `b`.
pub open spec fn or_of(a: Seq<char>, b: Seq<char>) -> Seq<char> {
    a + or_word() + b
}

/// `a` in parentheses.
pub open spec fn parenthesized(a: Seq<char>) -> Seq<char> {
    seq!['('] + a + seq![')']
}

/// A condition standing at `p` is read by `conditions_rule` there.
proof fn lemma_conditions_at(s: Seq<char>, p: int, a: Seq<char>, tokens: Seq<TokenView>, formats: Formats, floats: FloatValues)
    requires
        stands_at(s, p, a),
        is_condition(a, tokens, formats, floats),
    ensures
        conditions_rule(s, p, tokens, formats, floats) == Some(
            (p + a.len(), selected(a, tokens, formats, floats)),
        ),
{
    lemma_condition_shift(s, p, a, tokens, formats, floats);
}

/// What `or` and `and` read at `p` when a single part ends at `e` with no
/// `and` or `or` after it.
proof fn lemma_single_part(s: Seq<char>, p: int, e: int, x: Set<usize>, tokens: Seq<TokenView>, formats: Formats, floats: FloatValues)
    requires
        0 <= p <= e <= s.len(),
        conditions_rule(s, p, tokens, formats, floats) == Some((e, x)),
        !occurs_at(s, e, and_word()),
        !occurs_at(s, e, or_word()),
    ensures
        and_rule(s, p, tokens, formats, floats) == Some((e, x)),
        or_rule(s, p, tokens, formats, floats) == Some((e, x)),
{
}

/// `(b and c)` at `q`, with conditions `b` and `c`.
proof fn lemma_parenthesized_and(s: Seq<char>, q: int, b: Seq<char>, c: Seq<char>, tokens: Seq<TokenView>, formats: Formats, floats: FloatValues)
    requires
        0 <= q,
        q + b.len() + c.len() + 7 <= s.len(),
        s.subrange(q, q + b.len() + c.len() + 7) == parenthesized(and_of(b, c)),
        is_condition(b, tokens, formats, floats),
        is_condition(c, tokens, formats, floats),
    ensures
        conditions_rule(s, q, tokens, formats, floats) == Some(
            (
                q + b.len() + c.len() + 7,
                both(selected(b, tokens, formats, floats), selected(c, tokens, formats, floats)),
            ),
        ),
{
    let t = parenthesized(and_of(b, c));
    let lb = b.len() as int;
    let lc = c.len() as int;
    let sub = s.subrange(q, q + lb + lc + 7);
    assert forall|k: int| 0 <= k < lb + lc + 7 implies s[q + k] == t[k] by {
        assert(sub[k] == s[q + k]);
    }
    assert(s.subrange(q + 1, q + 1 + lb) =~= b) by {
        assert forall|k: int| 0 <= k < lb implies s.subrange(q + 1, q + 1 + lb)[k] == b[k] by {
            assert(t[1 + k] == b[k]);
        }
    }
    assert(s[q + 1 + lb] == ' ') by {
        assert(t[1 + lb] == ' ');
    }
    assert(s.subrange(q + 1 + lb, q + 1 + lb + 5) =~= and_word()) by {
        assert forall|k: int| 0 <= k < 5 implies s.subrange(q + 1 + lb, q + 1 + lb + 5)[k]
            == and_word()[k] by {
            assert(t[1 + lb + k] == and_word()[k]);
        }
    }
    assert(s.subrange(q + 6 + lb, q + 6 + lb + lc) =~= c) by {
        assert forall|k: int| 0 <= k < lc implies s.subrange(q + 6 + lb, q + 6 + lb + lc)[k]
            == c[k] by {
            assert(t[6 + lb + k] == c[k]);
        }
    }
    assert(s[q + 6 + lb + lc] == ')') by {
        assert(t[6 + lb + lc] == ')');
    }
    assert(s[q] == '(') by {
        assert(t[0] == '(');
    }
    lemma_conditions_at(s, q + 1, b, tokens, formats, floats);
    lemma_conditions_at(s, q + 6 + lb, c, tokens, formats, floats);
    let k = q + 6 + lb + lc;
    assert(!occurs_at(s, k, or_word()));
    assert(!occurs_at(s, k, and_word()));
    assert(and_rule(s, q + 1, tokens, formats, floats) == Some(
        (k, both(selected(b, tokens, formats, floats), selected(c, tokens, formats, floats))),
    ));
    assert(or_rule(s, q + 1, tokens, formats, floats) == Some(
        (k, both(selected(b, tokens, formats, floats), selected(c, tokens, formats, floats))),
    ));
    lemma_first_variable_not_paren(s, q, variables(), tokens, formats, floats);
}

proof fn lemma_single_condition(a: Seq<char>, tokens: Seq<TokenView>, formats: Formats, floats: FloatValues)
    requires
        is_condition(a, tokens, formats, floats),
    ensures
        evaluation(a, tokens, formats, floats) == Some(selected(a, tokens, formats, floats)),
{
    assert(a.subrange(0, a.len() as int) =~= a);
    lemma_conditions_at(a, 0, a, tokens, formats, floats);
    lemma_single_part(a, 0, a.len() as int, selected(a, tokens, formats, floats), tokens, formats, floats);
}

proof fn lemma_and_of(a: Seq<char>, b: Seq<char>, tokens: Seq<TokenView>, formats: Formats, floats: FloatValues)
    requires
        is_condition(a, tokens, formats, floats),
        is_condition(b, tokens, formats, floats),
    ensures
        evaluation(and_of(a, b), tokens, formats, floats) == Some(
            both(selected(a, tokens, formats, floats), selected(b, tokens, formats, floats)),
        ),
{
    let s = and_of(a, b);
    let la = a.len() as int;
    let lb = b.len() as int;
    assert(s.subrange(0, la) =~= a);
    assert(s[la] == ' ');
    assert(s.subrange(la, la + 5) =~= and_word());
    assert(s.subrange(la + 5, la + 5 + lb) =~= b);
    lemma_conditions_at(s, 0, a, tokens, formats, floats);
    lemma_conditions_at(s, la + 5, b, tokens, formats, floats);
    lemma_and_or_composition(
        s,
        tokens,
        formats,
        floats,
        la,
        0,
        selected(a, tokens, formats, floats),
        selected(b, tokens, formats, floats),
        Set::empty(),
    );
}

proof fn lemma_or_of(a: Seq<char>, b: Seq<char>, tokens: Seq<TokenView>, formats: Formats, floats: FloatValues)
    requires
        is_condition(a, tokens, formats, floats),
        is_condition(b, tokens, formats, floats),
    ensures
        evaluation(or_of(a, b), tokens, formats, floats) == Some(
            selected(a, tokens, formats, floats).union(selected(b, tokens, formats, floats)),
        ),
{
    let s = or_of(a, b);
    let la = a.len() as int;
    let lb = b.len() as int;
    assert(s.subrange(0, la) =~= a);
    assert(s[la] == ' ');
    assert(s.subrange(la, la + 4) =~= or_word());
    assert(s.subrange(la + 4, la + 4 + lb) =~= b);
    lemma_conditions_at(s, 0, a, tokens, formats, floats);
    lemma_conditions_at(s, la + 4, b, tokens, formats, floats);
    lemma_and_or_composition(
        s,
        tokens,
        formats,
        floats,
        la,
        0,
        selected(a, tokens, formats, floats),
        selected(b, tokens, formats, floats),
        Set::empty(),
    );
}

proof fn lemma_parenthesized(a: Seq<char>, tokens: Seq<TokenView>, formats: Formats, floats: FloatValues)
    requires
        is_condition(a, tokens, formats, floats),
    ensures
        evaluation(parenthesized(a), tokens, formats, floats) == Some(
            selected(a, tokens, formats, floats),
        ),
{
    let s = parenthesized(a);
    let la = a.len() as int;
    assert(s.subrange(1, 1 + la) =~= a);
    assert(s[1 + la] == ')');
    lemma_conditions_at(s, 1, a, tokens, formats, floats);
    lemma_single_part(s, 1, 1 + la, selected(a, tokens, formats, floats), tokens, formats, floats);
    lemma_and_or_composition(
        s,
        tokens,
        formats,
        floats,
        1 + la,
        0,
        selected(a, tokens, formats, floats),
        Set::empty(),
        Set::empty(),
    );
}

proof fn lemma_and_then_or(a: Seq<char>, b: Seq<char>, c: Seq<char>, tokens: Seq<TokenView>, formats: Formats, floats: FloatValues)
    requires
        is_condition(a, tokens, formats, floats),
        is_condition(b, tokens, formats, floats),
        is_condition(c, tokens, formats, floats),
    ensures
        evaluation(or_of(and_of(a, b), c), tokens, formats, floats) == Some(
            both(selected(a, tokens, formats, floats), selected(b, tokens, formats, floats)).union(
                selected(c, tokens, formats, floats),
            ),
        ),
{
    let s = or_of(and_of(a, b), c);
    let la = a.len() as int;
    let lb = b.len() as int;
    let lc = c.len() as int;
    let e2 = la + 5 + lb;
    assert(s.subrange(0, la) =~= a);
    assert(s[la] == ' ');
    assert(s.subrange(la, la + 5) =~= and_word());
    assert(s.subrange(la + 5, e2) =~= b);
    assert(s[e2] == ' ');
    assert(s.subrange(e2, e2 + 4) =~= or_word());
    assert(s.subrange(e2 + 4, e2 + 4 + lc) =~= c);
    lemma_conditions_at(s, 0, a, tokens, formats, floats);
    lemma_conditions_at(s, la + 5, b, tokens, formats, floats);
    lemma_conditions_at(s, e2 + 4, c, tokens, formats, floats);
    lemma_and_or_composition(
        s,
        tokens,
        formats,
        floats,
        la,
        e2,
        selected(a, tokens, formats, floats),
        selected(b, tokens, formats, floats),
        selected(c, tokens, formats, floats),
    );
}

proof fn lemma_parenthesized_and_then_or(a: Seq<char>, b: Seq<char>, c: Seq<char>, tokens: Seq<TokenView>, formats: Formats, floats: FloatValues)
    requires
        is_condition(a, tokens, formats, floats),
        is_condition(b, tokens, formats, floats),
        is_condition(c, tokens, formats, floats),
    ensures
        evaluation(or_of(parenthesized(and_of(a, b)), c), tokens, formats, floats) == Some(
            both(selected(a, tokens, formats, floats), selected(b, tokens, formats, floats)).union(
                selected(c, tokens, formats, floats),
            ),
        ),
{
    let s = or_of(parenthesized(and_of(a, b)), c);
    let la = a.len() as int;
    let lb = b.len() as int;
    let lc = c.len() as int;
    let e1 = la + lb + 7;
    assert(s.subrange(0, e1) =~= parenthesized(and_of(a, b)));
    assert(s.subrange(e1, e1 + 4) =~= or_word());
    assert(s.subrange(e1 + 4, e1 + 4 + lc) =~= c);
    lemma_parenthesized_and(s, 0, a, b, tokens, formats, floats);
    lemma_conditions_at(s, e1 + 4, c, tokens, formats, floats);
    lemma_and_or_composition(
        s,
        tokens,
        formats,
        floats,
        e1,
        0,
        both(selected(a, tokens, formats, floats), selected(b, tokens, formats, floats)),
        selected(c, tokens, formats, floats),
        Set::empty(),
    );
}

proof fn lemma_or_then_and(a: Seq<char>, b: Seq<char>, c: Seq<char>, tokens: Seq<TokenView>, formats: Formats, floats: FloatValues)
    requires
        is_condition(a, tokens, formats, floats),
        is_condition(b, tokens, formats, floats),
        is_condition(c, tokens, formats, floats),
    ensures
        evaluation(or_of(a, and_of(b, c)), tokens, formats, floats) == Some(
            selected(a, tokens, formats, floats).union(
                both(selected(b, tokens, formats, floats), selected(c, tokens, formats, floats)),
            ),
        ),
{
    let s = or_of(a, and_of(b, c));
    let la = a.len() as int;
    let lb = b.len() as int;
    let lc = c.len() as int;
    let e2 = la + 4 + lb;
    assert(s.subrange(0, la) =~= a);
    assert(s[la] == ' ');
    assert(s.subrange(la, la + 4) =~= or_word());
    assert(s.subrange(la + 4, e2) =~= b);
    assert(s[e2] == ' ');
    assert(s.subrange(e2, e2 + 5) =~= and_word());
    assert(s.subrange(e2 + 5, e2 + 5 + lc) =~= c);
    lemma_conditions_at(s, 0, a, tokens, formats, floats);
    lemma_conditions_at(s, la + 4, b, tokens, formats, floats);
    lemma_conditions_at(s, e2 + 5, c, tokens, formats, floats);
    lemma_and_or_composition(
        s,
        tokens,
        formats,
        floats,
        la,
        e2,
        selected(a, tokens, formats, floats),
        selected(b, tokens, formats, floats),
        selected(c, tokens, formats, floats),
    );
}

proof fn lemma_or_then_parenthesized_and(a: Seq<char>, b: Seq<char>, c: Seq<char>, tokens: Seq<TokenView>, formats: Formats, floats: FloatValues)
    requires
        is_condition(a, tokens, formats, floats),
        is_condition(b, tokens, formats, floats),
        is_condition(c, tokens, formats, floats),
    ensures
        evaluation(or_of(a, parenthesized(and_of(b, c))), tokens, formats, floats) == Some(
            selected(a, tokens, formats, floats).union(
                both(selected(b, tokens, formats, floats), selected(c, tokens, formats, floats)),
            ),
        ),
{
    let s = or_of(a, parenthesized(and_of(b, c)));
    let la = a.len() as int;
    let lb = b.len() as int;
    let lc = c.len() as int;
    assert(s.subrange(0, la) =~= a);
    assert(s[la] == ' ');
    assert(s.subrange(la, la + 4) =~= or_word());
    assert(s.subrange(la + 4, la + 4 + lb + lc + 7) =~= parenthesized(and_of(b, c)));
    lemma_conditions_at(s, 0, a, tokens, formats, floats);
    lemma_parenthesized_and(s, la + 4, b, c, tokens, formats, floats);
    lemma_and_or_composition(
        s,
        tokens,
        formats,
        floats,
        la,
        0,
        selected(a, tokens, formats, floats),
        both(selected(b, tokens, formats, floats), selected(c, tokens, formats, floats)),
        Set::empty(),
    );
}

/// What an expression built from conditions `a`, `b` and `c` selects is
/// built from what each selects on its own:
///  - a condition alone selects what it selects, and so does `(a)`;
///  - `a and b` selects `both` (the two together when each selected
///    something, and nothing otherwise), and `a or b` their union;
///  - `and` binds tighter than `or`: `a and b or c` selects as
///    `(a and b) or c`, and `a or b and c` as `a or (b and c)`.
pub proof fn lemma_conditions_compose(a: Seq<char>, b: Seq<char>, c: Seq<char>, tokens: Seq<TokenView>, formats: Formats, floats: FloatValues)
    requires
        is_condition(a, tokens, formats, floats),
        is_condition(b, tokens, formats, floats),
        is_condition(c, tokens, formats, floats),
    ensures
        evaluation(a, tokens, formats, floats) == Some(selected(a, tokens, formats, floats)),
        evaluation(parenthesized(a), tokens, formats, floats) == evaluation(
            a,
            tokens,
            formats,
            floats,
        ),
        evaluation(and_of(a, b), tokens, formats, floats) == Some(
            both(selected(a, tokens, formats, floats), selected(b, tokens, formats, floats)),
        ),
        evaluation(or_of(a, b), tokens, formats, floats) == Some(
            selected(a, tokens, formats, floats).union(selected(b, tokens, formats, floats)),
        ),
        evaluation(or_of(and_of(a, b), c), tokens, formats, floats) == Some(
            both(selected(a, tokens, formats, floats), selected(b, tokens, formats, floats)).union(
                selected(c, tokens, formats, floats),
            ),
        ),
        evaluation(or_of(and_of(a, b), c), tokens, formats, floats) == evaluation(
            or_of(parenthesized(and_of(a, b)), c),
            tokens,
            formats,
            floats,
        ),
        evaluation(or_of(a, and_of(b, c)), tokens, formats, floats) == Some(
            selected(a, tokens, formats, floats).union(
                both(selected(b, tokens, formats, floats), selected(c, tokens, formats, floats)),
            ),
        ),
        evaluation(or_of(a, and_of(b, c)), tokens, formats, floats) == evaluation(
            or_of(a, parenthesized(and_of(b, c))),
            tokens,
            formats,
            floats,
        ),
{
    lemma_single_condition(a, tokens, formats, floats);
    lemma_parenthesized(a, tokens, formats, floats);
    lemma_and_of(a, b, tokens, formats, floats);
    lemma_or_of(a, b, tokens, formats, floats);
    lemma_and_then_or(a, b, c, tokens, formats, floats);
    lemma_parenthesized_and_then_or(a, b, c, tokens, formats, floats);
    lemma_or_then_and(a, b, c, tokens, formats, floats);
    lemma_or_then_parenthesized_and(a, b, c, tokens, formats, floats);
}

} // verus!
