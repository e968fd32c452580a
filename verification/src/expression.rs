//! Filter expressions: their grammar and their evaluation against the tokens
//! of a line.
//!
//! ```text
//! or          ::= and " or " and | and
//! and         ::= conditions " and " conditions | conditions
//! conditions  ::= condition | "(" or ")"
//! condition   ::= variable operator literal
//!               | "port(" variable ")" operator literal
//!               | "ip(" variable ")" operator literal
//! ```
//!
//! The grammar is read as a parsing expression grammar: alternatives are
//! tried in order, the first that succeeds is taken, and repetitions of
//! character classes are greedy. The whole expression must be consumed.
//! A condition denotes the positions of the tokens whose word reads as the
//! variable's type and satisfies the comparison with the literal; `or` joins
//! the positions of both sides, and `and` joins them when both sides matched
//! something and is empty otherwise.
use vstd::prelude::*;

use std::collections::HashSet;

use crate::floats::FloatValues;
use crate::text::{chars_of, occurs_at, occurs_at_exec, string_from_chars};
use crate::tokenizer::{token_views, Token, TokenView};
use crate::values::{
    holds, parse_word, satisfies, well_formed, word_value, Datum, Kind, Operator, Value,
};

verus! {

broadcast use vstd::std_specs::hash::group_hash_axioms;

/// The formats that dates and times are read with (`chrono` strftime syntax).
pub struct Formats {
    pub date: String,
    pub time: String,
    pub date_time: String,
    pub local_date_time: String,
}

/// The format that words of `kind` are read with.
pub open spec fn format_of(kind: Kind, formats: Formats) -> Seq<char> {
    match kind {
        Kind::Date => formats.date@,
        Kind::Time => formats.time@,
        Kind::DateTime => formats.date_time@,
        Kind::LocalDateTime => formats.local_date_time@,
        _ => Seq::empty(),
    }
}

/// The typed variables of conditions, in the order the grammar tries them.
#[derive(Debug, PartialEq, Eq, Clone, Copy)]
pub enum Variable {
    Integer,
    Float,
    Id,
    Date,
    Time,
    DateTime,
    LocalDateTime,
    IpAddress,
    Ipv4Address,
    Ipv6Address,
    IpSocketAddress,
    Ipv4SocketAddress,
    Ipv6SocketAddress,
    SemanticVersion,
    IpNetwork,
    Ipv4Network,
    Ipv6Network,
}

/// The functions that a condition may apply to a socket address variable.
#[derive(Debug, PartialEq, Eq, Clone, Copy)]
pub enum Function {
    Plain,
    Port,
    Ip,
}

/// One form of condition: function, comparator and kind of literal.
#[derive(Debug, PartialEq, Eq, Clone, Copy)]
pub struct Alternative {
    pub function: Function,
    pub op: Operator,
    pub literal: Kind,
}

pub open spec fn variables() -> Seq<Variable> {
    seq![
        Variable::Integer,
        Variable::Float,
        Variable::Id,
        Variable::Date,
        Variable::Time,
        Variable::DateTime,
        Variable::LocalDateTime,
        Variable::IpAddress,
        Variable::Ipv4Address,
        Variable::Ipv6Address,
        Variable::IpSocketAddress,
        Variable::Ipv4SocketAddress,
        Variable::Ipv6SocketAddress,
        Variable::SemanticVersion,
        Variable::IpNetwork,
        Variable::Ipv4Network,
        Variable::Ipv6Network,
    ]
}

/// The kind of word that a variable reads tokens as.
pub open spec fn variable_kind(v: Variable) -> Kind {
    match v {
        Variable::Integer => Kind::Integer,
        Variable::Float => Kind::Float,
        Variable::Id => Kind::Id,
        Variable::Date => Kind::Date,
        Variable::Time => Kind::Time,
        Variable::DateTime => Kind::DateTime,
        Variable::LocalDateTime => Kind::LocalDateTime,
        Variable::IpAddress => Kind::IpAddress,
        Variable::Ipv4Address => Kind::Ipv4Address,
        Variable::Ipv6Address => Kind::Ipv6Address,
        Variable::IpSocketAddress => Kind::IpSocketAddress,
        Variable::Ipv4SocketAddress => Kind::Ipv4SocketAddress,
        Variable::Ipv6SocketAddress => Kind::Ipv6SocketAddress,
        Variable::SemanticVersion => Kind::SemanticVersion,
        Variable::IpNetwork => Kind::IpNetwork,
        Variable::Ipv4Network => Kind::Ipv4Network,
        Variable::Ipv6Network => Kind::Ipv6Network,
    }
}

/// The name of a variable in expressions.
pub open spec fn variable_name(v: Variable) -> Seq<char> {
    match v {
        Variable::Integer => "$integer"@,
        Variable::Float => "$float"@,
        Variable::Id => "$id"@,
        Variable::Date => "$date"@,
        Variable::Time => "$time"@,
        Variable::DateTime => "$dateTime"@,
        Variable::LocalDateTime => "$localDateTime"@,
        Variable::IpAddress => "$ipAddress"@,
        Variable::Ipv4Address => "$ipv4Address"@,
        Variable::Ipv6Address => "$ipv6Address"@,
        Variable::IpSocketAddress => "$ipSocketAddress"@,
        Variable::Ipv4SocketAddress => "$ipv4SocketAddress"@,
        Variable::Ipv6SocketAddress => "$ipv6SocketAddress"@,
        Variable::SemanticVersion => "$semanticVersion"@,
        Variable::IpNetwork => "$ipNetwork"@,
        Variable::Ipv4Network => "$ipv4Network"@,
        Variable::Ipv6Network => "$ipv6Network"@,
    }
}

/// The comparator as written in expressions, with its surrounding spaces.
pub open spec fn operator_text(op: Operator) -> Seq<char> {
    match op {
        Operator::Equal => " == "@,
        Operator::NotEqual => " != "@,
        Operator::Greater => " > "@,
        Operator::GreaterOrEqual => " >= "@,
        Operator::Less => " < "@,
        Operator::LessOrEqual => " <= "@,
        Operator::Contains => " contains "@,
        Operator::StartsWith => " starts-with "@,
        Operator::EndsWith => " ends-with "@,
        Operator::In => " in "@,
        Operator::NotIn => " not in "@,
        Operator::Matches => " matches "@,
    }
}

/// What a condition writes before its comparator.
pub open spec fn subject_text(v: Variable, f: Function) -> Seq<char> {
    match f {
        Function::Plain => variable_name(v),
        Function::Port => "port("@ + variable_name(v) + ")"@,
        Function::Ip => "ip("@ + variable_name(v) + ")"@,
    }
}

/// The six basic comparisons against one kind of literal.
pub open spec fn basic(f: Function, literal: Kind) -> Seq<Alternative> {
    seq![
        Alternative { function: f, op: Operator::Equal, literal },
        Alternative { function: f, op: Operator::NotEqual, literal },
        Alternative { function: f, op: Operator::Greater, literal },
        Alternative { function: f, op: Operator::GreaterOrEqual, literal },
        Alternative { function: f, op: Operator::Less, literal },
        Alternative { function: f, op: Operator::LessOrEqual, literal },
    ]
}

/// Membership tests against one kind of network literal.
pub open spec fn membership(f: Function, literal: Kind) -> Seq<Alternative> {
    seq![
        Alternative { function: f, op: Operator::In, literal },
        Alternative { function: f, op: Operator::NotIn, literal },
    ]
}

/// The forms of condition of each variable, in the order the grammar tries them.
pub open spec fn alternatives(v: Variable) -> Seq<Alternative> {
    match v {
        Variable::Integer => basic(Function::Plain, Kind::Integer),
        Variable::Float => basic(Function::Plain, Kind::Float),
        Variable::Id => basic(Function::Plain, Kind::Id) + seq![
            Alternative { function: Function::Plain, op: Operator::Contains, literal: Kind::Id },
            Alternative { function: Function::Plain, op: Operator::StartsWith, literal: Kind::Id },
            Alternative { function: Function::Plain, op: Operator::EndsWith, literal: Kind::Id },
        ],
        Variable::Date => basic(Function::Plain, Kind::Date),
        Variable::Time => basic(Function::Plain, Kind::Time),
        Variable::DateTime => basic(Function::Plain, Kind::DateTime),
        Variable::LocalDateTime => basic(Function::Plain, Kind::LocalDateTime),
        Variable::IpAddress => basic(Function::Plain, Kind::IpAddress) + membership(
            Function::Plain,
            Kind::IpNetwork,
        ),
        Variable::Ipv4Address => basic(Function::Plain, Kind::Ipv4Address) + membership(
            Function::Plain,
            Kind::Ipv4Network,
        ),
        Variable::Ipv6Address => basic(Function::Plain, Kind::Ipv6Address) + membership(
            Function::Plain,
            Kind::Ipv6Network,
        ),
        Variable::IpSocketAddress => basic(Function::Plain, Kind::IpSocketAddress) + basic(
            Function::Port,
            Kind::Port,
        ) + basic(Function::Ip, Kind::IpAddress) + membership(Function::Ip, Kind::IpNetwork),
        Variable::Ipv4SocketAddress => basic(Function::Plain, Kind::Ipv4SocketAddress) + basic(
            Function::Port,
            Kind::Port,
        ) + basic(Function::Ip, Kind::Ipv4Address) + membership(Function::Ip, Kind::Ipv4Network),
        Variable::Ipv6SocketAddress => basic(Function::Plain, Kind::Ipv6SocketAddress) + basic(
            Function::Port,
            Kind::Port,
        ) + basic(Function::Ip, Kind::Ipv6Address) + membership(Function::Ip, Kind::Ipv6Network),
        Variable::SemanticVersion => basic(Function::Plain, Kind::SemanticVersion) + seq![
            Alternative {
                function: Function::Plain,
                op: Operator::Matches,
                literal: Kind::SemanticVersionRequirement,
            },
        ],
        Variable::IpNetwork => basic(Function::Plain, Kind::IpNetwork),
        Variable::Ipv4Network => basic(Function::Plain, Kind::Ipv4Network),
        Variable::Ipv6Network => basic(Function::Plain, Kind::Ipv6Network),
    }
}

/// The character classes that literals are made of.
#[derive(Debug, PartialEq, Eq, Clone, Copy)]
pub enum CharClass {
    Digit,
    Letter,
    IdPart,
    NotDelimiter,
    IpAddressPart,
    Ipv4AddressPart,
    Ipv6AddressPart,
    IpSocketAddressPart,
    Ipv4SocketAddressPart,
    Ipv6SocketAddressPart,
    IpNetworkPart,
    Ipv4NetworkPart,
    Ipv6NetworkPart,
    VersionPart,
    RequirementPart,
}

pub open spec fn is_digit_char(c: char) -> bool {
    '0' <= c && c <= '9'
}

pub open spec fn is_letter(c: char) -> bool {
    ('a' <= c && c <= 'z') || ('A' <= c && c <= 'Z')
}

pub open spec fn is_hex(c: char) -> bool {
    is_digit_char(c) || ('a' <= c && c <= 'f') || ('A' <= c && c <= 'F')
}

pub open spec fn in_class(c: char, class: CharClass) -> bool {
    match class {
        CharClass::Digit => is_digit_char(c),
        CharClass::Letter => is_letter(c),
        CharClass::IdPart => is_letter(c) || is_digit_char(c) || c == '+' || c == '-' || c == '.'
            || c == ':' || c == '_',
        CharClass::NotDelimiter => !(c == '(' || c == ')' || c == ' '),
        CharClass::IpAddressPart => is_hex(c) || c == '.' || c == ':',
        CharClass::Ipv4AddressPart => is_digit_char(c) || c == '.',
        CharClass::Ipv6AddressPart => is_hex(c) || c == ':',
        CharClass::IpSocketAddressPart => is_hex(c) || c == '.' || c == ':' || c == '[' || c
            == ']',
        CharClass::Ipv4SocketAddressPart => is_digit_char(c) || c == '.' || c == ':',
        CharClass::Ipv6SocketAddressPart => is_hex(c) || c == ':' || c == '[' || c == ']',
        CharClass::IpNetworkPart => is_hex(c) || c == '.' || c == ':' || c == '/',
        CharClass::Ipv4NetworkPart => is_digit_char(c) || c == '.' || c == '/',
        CharClass::Ipv6NetworkPart => is_hex(c) || c == ':' || c == '/',
        CharClass::VersionPart => is_hex(c) || c == '.' || c == '-' || c == '+',
        CharClass::RequirementPart => is_hex(c) || c == '.' || c == '-' || c == '+' || c == '>'
            || c == '<' || c == '=' || c == '~' || c == '^' || c == '*' || c == ',',
    }
}

/// The characters of a literal that is a plain run of one class.
pub open spec fn literal_class(kind: Kind) -> CharClass {
    match kind {
        Kind::Port => CharClass::Digit,
        Kind::Date | Kind::Time | Kind::DateTime | Kind::LocalDateTime => CharClass::NotDelimiter,
        Kind::IpAddress => CharClass::IpAddressPart,
        Kind::Ipv4Address => CharClass::Ipv4AddressPart,
        Kind::Ipv6Address => CharClass::Ipv6AddressPart,
        Kind::IpSocketAddress => CharClass::IpSocketAddressPart,
        Kind::Ipv4SocketAddress => CharClass::Ipv4SocketAddressPart,
        Kind::Ipv6SocketAddress => CharClass::Ipv6SocketAddressPart,
        Kind::IpNetwork => CharClass::IpNetworkPart,
        Kind::Ipv4Network => CharClass::Ipv4NetworkPart,
        Kind::Ipv6Network => CharClass::Ipv6NetworkPart,
        Kind::SemanticVersion => CharClass::VersionPart,
        Kind::SemanticVersionRequirement => CharClass::RequirementPart,
        _ => CharClass::Digit,
    }
}

/// The end of the longest run of `class` characters of `s` from `p`.
pub open spec fn run_end(s: Seq<char>, p: int, class: CharClass) -> int
    decreases s.len() - p,
{
    if 0 <= p < s.len() && in_class(s[p], class) {
        run_end(s, p + 1, class)
    } else {
        p
    }
}

/// The end of an optional sign at `p`.
pub open spec fn after_sign(s: Seq<char>, p: int) -> int {
    if 0 <= p < s.len() && (s[p] == '+' || s[p] == '-') {
        p + 1
    } else {
        p
    }
}

/// The bits of the double that stands for a float literal whose value was
/// not supplied: a quiet NaN, which compares unequal to everything.
pub const UNKNOWN_FLOAT: u64 = 0x7ff8_0000_0000_0000;

/// A literal of `kind` at `p`: its end and value.
///  - integer: `['+'|'-']? ['0'..='9']+`, read as `i64`;
///  - float: `['+'|'-']? ['0'..='9']* ['.']? ['0'..='9']*` with at least
///    one digit (what `f64::from_str` accepts of that form); its value is
///    the one supplied in `floats`;
///  - id: `['a'..='z'|'A'..='Z']+` then `[letters, digits, '+-.:_']*`;
///  - any other: a non-empty run of its characters, read as its kind.
pub open spec fn literal_at(s: Seq<char>, p: int, kind: Kind, formats: Formats, floats: FloatValues) -> Option<(int, Datum)> {
    match kind {
        Kind::Integer => {
            let q = after_sign(s, p);
            let e = run_end(s, q, CharClass::Digit);
            if e > q {
                match word_value(Kind::Integer, s.subrange(p, e), Seq::empty(), floats) {
                    Some(d) => Some((e, d)),
                    None => None,
                }
            } else {
                None
            }
        },
        Kind::Float => {
            let q = after_sign(s, p);
            let e1 = run_end(s, q, CharClass::Digit);
            let e2 = if 0 <= e1 < s.len() && s[e1] == '.' {
                e1 + 1
            } else {
                e1
            };
            let e3 = run_end(s, e2, CharClass::Digit);
            if e1 > q || e3 > e2 {
                match floats.value_of(s.subrange(p, e3)) {
                    Some(b) => Some((e3, Datum::Float(b))),
                    None => Some((e3, Datum::Float(UNKNOWN_FLOAT))),
                }
            } else {
                None
            }
        },
        Kind::Id => {
            let e1 = run_end(s, p, CharClass::Letter);
            if e1 > p {
                let e = run_end(s, e1, CharClass::IdPart);
                Some((e, Datum::Id(s.subrange(p, e))))
            } else {
                None
            }
        },
        _ => {
            let e = run_end(s, p, literal_class(kind));
            if e > p {
                match word_value(kind, s.subrange(p, e), format_of(kind, formats), floats) {
                    Some(d) => Some((e, d)),
                    None => None,
                }
            } else {
                None
            }
        },
    }
}

/// The value that a function gives for a socket address.
pub open spec fn apply_function(f: Function, d: Datum) -> Option<Datum> {
    match f {
        Function::Plain => Some(d),
        Function::Port => match d {
            Datum::SocketAddress(_, _, port, _, _) => Some(Datum::Port(port)),
            _ => None,
        },
        Function::Ip => match d {
            Datum::SocketAddress(v6, address, _, _, _) => Some(Datum::Address(v6, address)),
            _ => None,
        },
    }
}

/// The term that a token's word gives for the variable and function.
pub open spec fn term_value(v: Variable, f: Function, word: Seq<char>, formats: Formats, floats: FloatValues) -> Option<Datum> {
    match word_value(variable_kind(v), word, format_of(variable_kind(v), formats), floats) {
        Some(d) => apply_function(f, d),
        None => None,
    }
}

/// Whether the token is a word whose term satisfies the comparison.
pub open spec fn token_selected(t: TokenView, v: Variable, f: Function, op: Operator, literal: Datum, formats: Formats, floats: FloatValues) -> bool {
    !t.separator && match term_value(v, f, t.word, formats, floats) {
        Some(d) => holds(op, d, literal),
        None => false,
    }
}

/// The positions of the tokens that a condition selects.
pub open spec fn condition_positions(tokens: Seq<TokenView>, v: Variable, a: Alternative, literal: Datum, formats: Formats, floats: FloatValues) -> Set<usize> {
    Set::new(
        |pos: usize|
            exists|i: int|
                0 <= i < tokens.len() && (#[trigger] tokens[i]).position == pos && token_selected(
                    tokens[i],
                    v,
                    a.function,
                    a.op,
                    literal,
                    formats,
                    floats,
                ),
    )
}

/// One form of condition at `p`: its end and the positions it selects.
#[verifier::opaque]
pub open spec fn alternative_at(s: Seq<char>, p: int, v: Variable, a: Alternative, tokens: Seq<TokenView>, formats: Formats, floats: FloatValues) -> Option<(int, Set<usize>)> {
    let text = subject_text(v, a.function) + operator_text(a.op);
    if occurs_at(s, p, text) {
        match literal_at(s, p + text.len(), a.literal, formats, floats) {
            Some((e, literal)) => Some(
                (e, condition_positions(tokens, v, a, literal, formats, floats)),
            ),
            None => None,
        }
    } else {
        None
    }
}

/// The first of the forms that succeeds at `p`.
pub open spec fn first_alternative(s: Seq<char>, p: int, v: Variable, forms: Seq<Alternative>, tokens: Seq<TokenView>, formats: Formats, floats: FloatValues) -> Option<(int, Set<usize>)>
    decreases forms.len(),
{
    if forms.len() == 0 {
        None
    } else {
        match alternative_at(s, p, v, forms[0], tokens, formats, floats) {
            Some(r) => Some(r),
            None => first_alternative(s, p, v, forms.drop_first(), tokens, formats, floats),
        }
    }
}

/// The first of the variables whose condition succeeds at `p`.
pub open spec fn first_variable(s: Seq<char>, p: int, vs: Seq<Variable>, tokens: Seq<TokenView>, formats: Formats, floats: FloatValues) -> Option<(int, Set<usize>)>
    decreases vs.len(),
{
    if vs.len() == 0 {
        None
    } else {
        match first_alternative(s, p, vs[0], alternatives(vs[0]), tokens, formats, floats) {
            Some(r) => Some(r),
            None => first_variable(s, p, vs.drop_first(), tokens, formats, floats),
        }
    }
}

/// `condition` at `p`.
pub open spec fn condition_at(s: Seq<char>, p: int, tokens: Seq<TokenView>, formats: Formats, floats: FloatValues) -> Option<(int, Set<usize>)> {
    first_variable(s, p, variables(), tokens, formats, floats)
}

pub open spec fn or_word() -> Seq<char> {
    seq![' ', 'o', 'r', ' ']
}

pub open spec fn and_word() -> Seq<char> {
    seq![' ', 'a', 'n', 'd', ' ']
}

/// `or` at `p`: its end and the positions it selects.
pub open spec fn or_rule(s: Seq<char>, p: int, tokens: Seq<TokenView>, formats: Formats, floats: FloatValues) -> Option<(int, Set<usize>)>
    decreases s.len() - p, 2int,
{
    if p < 0 || p > s.len() {
        None
    } else {
        match and_rule(s, p, tokens, formats, floats) {
            Some((e1, l)) => if p <= e1 && occurs_at(s, e1, or_word()) {
                match and_rule(s, e1 + 4, tokens, formats, floats) {
                    Some((e2, r)) => Some((e2, l.union(r))),
                    None => Some((e1, l)),
                }
            } else {
                Some((e1, l))
            },
            None => None,
        }
    }
}

/// `and` at `p`: its end and the positions it selects.
pub open spec fn and_rule(s: Seq<char>, p: int, tokens: Seq<TokenView>, formats: Formats, floats: FloatValues) -> Option<(int, Set<usize>)>
    decreases s.len() - p, 1int,
{
    if p < 0 || p > s.len() {
        None
    } else {
        match conditions_rule(s, p, tokens, formats, floats) {
            Some((e1, l)) => if p <= e1 && occurs_at(s, e1, and_word()) {
                match conditions_rule(s, e1 + 5, tokens, formats, floats) {
                    Some((e2, r)) => Some(
                        (
                            e2,
                            if l != Set::<usize>::empty() && r != Set::<usize>::empty() {
                                l.union(r)
                            } else {
                                Set::<usize>::empty()
                            },
                        ),
                    ),
                    None => Some((e1, l)),
                }
            } else {
                Some((e1, l))
            },
            None => None,
        }
    }
}

/// `conditions` at `p`: a condition, or an `or` in parentheses.
pub open spec fn conditions_rule(s: Seq<char>, p: int, tokens: Seq<TokenView>, formats: Formats, floats: FloatValues) -> Option<(int, Set<usize>)>
    decreases s.len() - p, 0int,
{
    if p < 0 || p > s.len() {
        None
    } else {
        match condition_at(s, p, tokens, formats, floats) {
            Some(r) => Some(r),
            None => if p < s.len() && s[p] == '(' {
                match or_rule(s, p + 1, tokens, formats, floats) {
                    Some((e, v)) => if 0 <= e < s.len() && s[e] == ')' {
                        Some((e + 1, v))
                    } else {
                        None
                    },
                    None => None,
                }
            } else {
                None
            },
        }
    }
}

/// The positions that the expression selects among the tokens, or `None`
/// when the expression is not in the grammar.
pub open spec fn evaluation(s: Seq<char>, tokens: Seq<TokenView>, formats: Formats, floats: FloatValues) -> Option<Set<usize>> {
    match or_rule(s, 0, tokens, formats, floats) {
        Some((e, v)) => if e == s.len() {
            Some(v)
        } else {
            None
        },
        None => None,
    }
}

/// The sequence holds exactly the elements of the set.
pub open spec fn denotes(v: Seq<usize>, set: Set<usize>) -> bool {
    forall|x: usize| v.contains(x) <==> set.contains(x)
}

proof fn lemma_occurs_at_concat(s: Seq<char>, p: int, a: Seq<char>, b: Seq<char>)
    ensures
        occurs_at(s, p, a + b) <==> occurs_at(s, p, a) && occurs_at(s, p + a.len(), b),
{
    let n = a.len() + b.len();
    if occurs_at(s, p, a + b) {
        assert forall|i: int| 0 <= i < a.len() implies s.subrange(p, p + a.len())[i] == a[i] by {
            assert(s.subrange(p, p + n)[i] == (a + b)[i]);
        }
        assert(s.subrange(p, p + a.len()) =~= a);
        assert forall|i: int| 0 <= i < b.len() implies s.subrange(p + a.len(), p + n)[i] == b[i] by {
            assert(s.subrange(p, p + n)[a.len() + i] == (a + b)[a.len() + i]);
        }
        assert(s.subrange(p + a.len(), p + a.len() + b.len()) =~= b);
    }
    if occurs_at(s, p, a) && occurs_at(s, p + a.len(), b) {
        assert forall|i: int| 0 <= i < n implies s.subrange(p, p + n)[i] == (a + b)[i] by {
            if i < a.len() {
                assert(s.subrange(p, p + a.len())[i] == a[i]);
            } else {
                assert(s.subrange(p + a.len(), p + n)[i - a.len()] == b[i - a.len()]);
            }
        }
        assert(s.subrange(p, p + (a + b).len()) =~= a + b);
    }
}

fn variable_list() -> (r: Vec<Variable>)
    ensures
        r@ == variables(),
{
    let r = vec![
        Variable::Integer,
        Variable::Float,
        Variable::Id,
        Variable::Date,
        Variable::Time,
        Variable::DateTime,
        Variable::LocalDateTime,
        Variable::IpAddress,
        Variable::Ipv4Address,
        Variable::Ipv6Address,
        Variable::IpSocketAddress,
        Variable::Ipv4SocketAddress,
        Variable::Ipv6SocketAddress,
        Variable::SemanticVersion,
        Variable::IpNetwork,
        Variable::Ipv4Network,
        Variable::Ipv6Network,
    ];
    assert(r@ =~= variables());
    r
}

fn kind_of(v: Variable) -> (r: Kind)
    ensures
        r == variable_kind(v),
{
    match v {
        Variable::Integer => Kind::Integer,
        Variable::Float => Kind::Float,
        Variable::Id => Kind::Id,
        Variable::Date => Kind::Date,
        Variable::Time => Kind::Time,
        Variable::DateTime => Kind::DateTime,
        Variable::LocalDateTime => Kind::LocalDateTime,
        Variable::IpAddress => Kind::IpAddress,
        Variable::Ipv4Address => Kind::Ipv4Address,
        Variable::Ipv6Address => Kind::Ipv6Address,
        Variable::IpSocketAddress => Kind::IpSocketAddress,
        Variable::Ipv4SocketAddress => Kind::Ipv4SocketAddress,
        Variable::Ipv6SocketAddress => Kind::Ipv6SocketAddress,
        Variable::SemanticVersion => Kind::SemanticVersion,
        Variable::IpNetwork => Kind::IpNetwork,
        Variable::Ipv4Network => Kind::Ipv4Network,
        Variable::Ipv6Network => Kind::Ipv6Network,
    }
}

fn name_of(v: Variable) -> (r: &'static str)
    ensures
        r@ == variable_name(v),
{
    match v {
        Variable::Integer => "$integer",
        Variable::Float => "$float",
        Variable::Id => "$id",
        Variable::Date => "$date",
        Variable::Time => "$time",
        Variable::DateTime => "$dateTime",
        Variable::LocalDateTime => "$localDateTime",
        Variable::IpAddress => "$ipAddress",
        Variable::Ipv4Address => "$ipv4Address",
        Variable::Ipv6Address => "$ipv6Address",
        Variable::IpSocketAddress => "$ipSocketAddress",
        Variable::Ipv4SocketAddress => "$ipv4SocketAddress",
        Variable::Ipv6SocketAddress => "$ipv6SocketAddress",
        Variable::SemanticVersion => "$semanticVersion",
        Variable::IpNetwork => "$ipNetwork",
        Variable::Ipv4Network => "$ipv4Network",
        Variable::Ipv6Network => "$ipv6Network",
    }
}

fn operator_text_of(op: Operator) -> (r: &'static str)
    ensures
        r@ == operator_text(op),
{
    match op {
        Operator::Equal => " == ",
        Operator::NotEqual => " != ",
        Operator::Greater => " > ",
        Operator::GreaterOrEqual => " >= ",
        Operator::Less => " < ",
        Operator::LessOrEqual => " <= ",
        Operator::Contains => " contains ",
        Operator::StartsWith => " starts-with ",
        Operator::EndsWith => " ends-with ",
        Operator::In => " in ",
        Operator::NotIn => " not in ",
        Operator::Matches => " matches ",
    }
}

fn push_basic(forms: &mut Vec<Alternative>, f: Function, literal: Kind)
    ensures
        final(forms)@ == old(forms)@ + basic(f, literal),
{
    forms.push(Alternative { function: f, op: Operator::Equal, literal });
    forms.push(Alternative { function: f, op: Operator::NotEqual, literal });
    forms.push(Alternative { function: f, op: Operator::Greater, literal });
    forms.push(Alternative { function: f, op: Operator::GreaterOrEqual, literal });
    forms.push(Alternative { function: f, op: Operator::Less, literal });
    forms.push(Alternative { function: f, op: Operator::LessOrEqual, literal });
    assert(final(forms)@ =~= old(forms)@ + basic(f, literal));
}

fn push_membership(forms: &mut Vec<Alternative>, f: Function, literal: Kind)
    ensures
        final(forms)@ == old(forms)@ + membership(f, literal),
{
    forms.push(Alternative { function: f, op: Operator::In, literal });
    forms.push(Alternative { function: f, op: Operator::NotIn, literal });
    assert(final(forms)@ =~= old(forms)@ + membership(f, literal));
}

fn push_socket(forms: &mut Vec<Alternative>, plain: Kind, address: Kind, network: Kind)
    ensures
        final(forms)@ == old(forms)@ + (basic(Function::Plain, plain) + basic(
            Function::Port,
            Kind::Port,
        ) + basic(Function::Ip, address) + membership(Function::Ip, network)),
{
    let ghost start = forms@;
    push_basic(forms, Function::Plain, plain);
    push_basic(forms, Function::Port, Kind::Port);
    push_basic(forms, Function::Ip, address);
    push_membership(forms, Function::Ip, network);
    assert(forms@ =~= start + (basic(Function::Plain, plain) + basic(Function::Port, Kind::Port)
        + basic(Function::Ip, address) + membership(Function::Ip, network)));
}

fn alternatives_of(v: Variable) -> (r: Vec<Alternative>)
    ensures
        r@ == alternatives(v),
{
    let mut forms: Vec<Alternative> = Vec::new();
    let ghost empty = forms@;
    match v {
        Variable::Integer => push_basic(&mut forms, Function::Plain, Kind::Integer),
        Variable::Float => push_basic(&mut forms, Function::Plain, Kind::Float),
        Variable::Id => {
            push_basic(&mut forms, Function::Plain, Kind::Id);
            forms.push(Alternative { function: Function::Plain, op: Operator::Contains, literal: Kind::Id });
            forms.push(Alternative { function: Function::Plain, op: Operator::StartsWith, literal: Kind::Id });
            forms.push(Alternative { function: Function::Plain, op: Operator::EndsWith, literal: Kind::Id });
        },
        Variable::Date => push_basic(&mut forms, Function::Plain, Kind::Date),
        Variable::Time => push_basic(&mut forms, Function::Plain, Kind::Time),
        Variable::DateTime => push_basic(&mut forms, Function::Plain, Kind::DateTime),
        Variable::LocalDateTime => push_basic(&mut forms, Function::Plain, Kind::LocalDateTime),
        Variable::IpAddress => {
            push_basic(&mut forms, Function::Plain, Kind::IpAddress);
            push_membership(&mut forms, Function::Plain, Kind::IpNetwork);
        },
        Variable::Ipv4Address => {
            push_basic(&mut forms, Function::Plain, Kind::Ipv4Address);
            push_membership(&mut forms, Function::Plain, Kind::Ipv4Network);
        },
        Variable::Ipv6Address => {
            push_basic(&mut forms, Function::Plain, Kind::Ipv6Address);
            push_membership(&mut forms, Function::Plain, Kind::Ipv6Network);
        },
        Variable::IpSocketAddress => push_socket(
            &mut forms,
            Kind::IpSocketAddress,
            Kind::IpAddress,
            Kind::IpNetwork,
        ),
        Variable::Ipv4SocketAddress => push_socket(
            &mut forms,
            Kind::Ipv4SocketAddress,
            Kind::Ipv4Address,
            Kind::Ipv4Network,
        ),
        Variable::Ipv6SocketAddress => push_socket(
            &mut forms,
            Kind::Ipv6SocketAddress,
            Kind::Ipv6Address,
            Kind::Ipv6Network,
        ),
        Variable::SemanticVersion => {
            push_basic(&mut forms, Function::Plain, Kind::SemanticVersion);
            forms.push(
                Alternative {
                    function: Function::Plain,
                    op: Operator::Matches,
                    literal: Kind::SemanticVersionRequirement,
                },
            );
        },
        Variable::IpNetwork => push_basic(&mut forms, Function::Plain, Kind::IpNetwork),
        Variable::Ipv4Network => push_basic(&mut forms, Function::Plain, Kind::Ipv4Network),
        Variable::Ipv6Network => push_basic(&mut forms, Function::Plain, Kind::Ipv6Network),
    }
    assert(forms@ =~= alternatives(v));
    forms
}

fn in_class_exec(c: char, class: CharClass) -> (r: bool)
    ensures
        r == in_class(c, class),
{
    let digit = '0' <= c && c <= '9';
    let letter = ('a' <= c && c <= 'z') || ('A' <= c && c <= 'Z');
    let hex = digit || ('a' <= c && c <= 'f') || ('A' <= c && c <= 'F');
    match class {
        CharClass::Digit => digit,
        CharClass::Letter => letter,
        CharClass::IdPart => letter || digit || c == '+' || c == '-' || c == '.' || c == ':' || c
            == '_',
        CharClass::NotDelimiter => !(c == '(' || c == ')' || c == ' '),
        CharClass::IpAddressPart => hex || c == '.' || c == ':',
        CharClass::Ipv4AddressPart => digit || c == '.',
        CharClass::Ipv6AddressPart => hex || c == ':',
        CharClass::IpSocketAddressPart => hex || c == '.' || c == ':' || c == '[' || c == ']',
        CharClass::Ipv4SocketAddressPart => digit || c == '.' || c == ':',
        CharClass::Ipv6SocketAddressPart => hex || c == ':' || c == '[' || c == ']',
        CharClass::IpNetworkPart => hex || c == '.' || c == ':' || c == '/',
        CharClass::Ipv4NetworkPart => digit || c == '.' || c == '/',
        CharClass::Ipv6NetworkPart => hex || c == ':' || c == '/',
        CharClass::VersionPart => hex || c == '.' || c == '-' || c == '+',
        CharClass::RequirementPart => hex || c == '.' || c == '-' || c == '+' || c == '>' || c
            == '<' || c == '=' || c == '~' || c == '^' || c == '*' || c == ',',
    }
}

fn literal_class_of(kind: Kind) -> (r: CharClass)
    ensures
        r == literal_class(kind),
{
    match kind {
        Kind::Port => CharClass::Digit,
        Kind::Date | Kind::Time | Kind::DateTime | Kind::LocalDateTime => CharClass::NotDelimiter,
        Kind::IpAddress => CharClass::IpAddressPart,
        Kind::Ipv4Address => CharClass::Ipv4AddressPart,
        Kind::Ipv6Address => CharClass::Ipv6AddressPart,
        Kind::IpSocketAddress => CharClass::IpSocketAddressPart,
        Kind::Ipv4SocketAddress => CharClass::Ipv4SocketAddressPart,
        Kind::Ipv6SocketAddress => CharClass::Ipv6SocketAddressPart,
        Kind::IpNetwork => CharClass::IpNetworkPart,
        Kind::Ipv4Network => CharClass::Ipv4NetworkPart,
        Kind::Ipv6Network => CharClass::Ipv6NetworkPart,
        Kind::SemanticVersion => CharClass::VersionPart,
        Kind::SemanticVersionRequirement => CharClass::RequirementPart,
        _ => CharClass::Digit,
    }
}

/// The end of the longest run of `class` characters from `p`.
fn run_end_exec(s: &Vec<char>, p: usize, class: CharClass) -> (e: usize)
    requires
        p <= s.len(),
    ensures
        e as int == run_end(s@, p as int, class),
        p <= e <= s.len(),
{
    let mut e = p;
    while e < s.len() && in_class_exec(s[e], class)
        invariant
            p <= e <= s.len(),
            run_end(s@, p as int, class) == run_end(s@, e as int, class),
        decreases s.len() - e,
    {
        e = e + 1;
    }
    e
}

fn format_for<'a>(kind: Kind, formats: &'a Formats) -> (r: &'a str)
    ensures
        r@ == format_of(kind, *formats),
{
    match kind {
        Kind::Date => formats.date.as_str(),
        Kind::Time => formats.time.as_str(),
        Kind::DateTime => formats.date_time.as_str(),
        Kind::LocalDateTime => formats.local_date_time.as_str(),
        _ => {
            proof {
                reveal_strlit("");
            }
            ""
        },
    }
}

/// The characters `s[p..e]` as a string.
fn text_between(s: &Vec<char>, p: usize, e: usize) -> (r: String)
    requires
        p <= e <= s.len(),
    ensures
        r@ == s@.subrange(p as int, e as int),
{
    string_from_chars(vstd::slice::slice_subrange(s.as_slice(), p, e))
}

/// The literal of `kind` at `p`; see `literal_at`.
fn literal_exec(s: &Vec<char>, p: usize, kind: Kind, formats: &Formats, floats: &FloatValues) -> (r: Option<(usize, Value)>)
    requires
        p <= s.len(),
    ensures
        match (r, literal_at(s@, p as int, kind, *formats, *floats)) {
            (Some((e, v)), Some((se, sv))) => e == se && v@ == sv && p < e <= s.len() && well_formed(
                v@,
            ),
            (None, None) => true,
            _ => false,
        },
{
    match kind {
        Kind::Integer => {
            let q = if p < s.len() && (s[p] == '+' || s[p] == '-') {
                p + 1
            } else {
                p
            };
            let e = run_end_exec(s, q, CharClass::Digit);
            if e > q {
                let word = text_between(s, p, e);
                proof {
                    reveal_strlit("");
                }
                match parse_word(Kind::Integer, word.as_str(), "", floats) {
                    Some(v) => Some((e, v)),
                    None => None,
                }
            } else {
                None
            }
        },
        Kind::Float => {
            let q = if p < s.len() && (s[p] == '+' || s[p] == '-') {
                p + 1
            } else {
                p
            };
            let e1 = run_end_exec(s, q, CharClass::Digit);
            let e2 = if e1 < s.len() && s[e1] == '.' {
                e1 + 1
            } else {
                e1
            };
            let e3 = run_end_exec(s, e2, CharClass::Digit);
            if e1 > q || e3 > e2 {
                let word = text_between(s, p, e3);
                match floats.get(word.as_str()) {
                    Some(b) => Some((e3, Value::Float(b))),
                    None => Some((e3, Value::Float(UNKNOWN_FLOAT))),
                }
            } else {
                None
            }
        },
        Kind::Id => {
            let e1 = run_end_exec(s, p, CharClass::Letter);
            if e1 > p {
                let e = run_end_exec(s, e1, CharClass::IdPart);
                Some((e, Value::Id(text_between(s, p, e))))
            } else {
                None
            }
        },
        _ => {
            let e = run_end_exec(s, p, literal_class_of(kind));
            if e > p {
                let word = text_between(s, p, e);
                match parse_word(kind, word.as_str(), format_for(kind, formats), floats) {
                    Some(v) => Some((e, v)),
                    None => None,
                }
            } else {
                None
            }
        },
    }
}

/// The term of a token's word; see `term_value`.
fn term_exec(v: Variable, f: Function, word: &str, formats: &Formats, floats: &FloatValues) -> (r: Option<Value>)
    ensures
        match r {
            Some(t) => term_value(v, f, word@, *formats, *floats) == Some(t@),
            None => term_value(v, f, word@, *formats, *floats) is None,
        },
{
    let kind = kind_of(v);
    match parse_word(kind, word, format_for(kind, formats), floats) {
        Some(value) => match f {
            Function::Plain => Some(value),
            Function::Port => match value {
                Value::SocketAddress(_, _, port, _, _) => Some(Value::Port(port)),
                _ => None,
            },
            Function::Ip => match value {
                Value::SocketAddress(v6, address, _, _, _) => Some(Value::Address(v6, address)),
                _ => None,
            },
        },
        None => None,
    }
}

/// The positions of the tokens that a condition selects.
fn positions_exec(tokens: &Vec<Token>, v: Variable, a: Alternative, literal: &Value, formats: &Formats, floats: &FloatValues) -> (r: Vec<usize>)
    requires
        well_formed(literal@),
    ensures
        denotes(r@, condition_positions(token_views(tokens@), v, a, literal@, *formats, *floats)),
{
    let ghost set = condition_positions(token_views(tokens@), v, a, literal@, *formats, *floats);
    let mut out: Vec<usize> = Vec::new();
    let mut i: usize = 0;
    while i < tokens.len()
        invariant
            0 <= i <= tokens.len(),
            well_formed(literal@),
            forall|x: usize|
                out@.contains(x) <==> exists|j: int|
                    0 <= j < i && (#[trigger] token_views(tokens@)[j]).position == x && token_selected(
                        token_views(tokens@)[j],
                        v,
                        a.function,
                        a.op,
                        literal@,
                        *formats,
                        *floats,
                    ),
        decreases tokens.len() - i,
    {
        let token = &tokens[i];
        let mut selected = false;
        if !token.separator {
            match term_exec(v, a.function, token.word.as_str(), formats, floats) {
                Some(term) => {
                    selected = satisfies(a.op, &term, literal);
                },
                None => {},
            }
        }
        assert(selected == token_selected(token_views(tokens@)[i as int], v, a.function, a.op, literal@, *formats, *floats));
        let ghost previous = out@;
        let ghost position = token_views(tokens@)[i as int].position;
        if selected {
            out.push(token.position);
        }
        proof {
            assert forall|x: usize|
                out@.contains(x) <==> (previous.contains(x) || (selected && x == position)) by {
                if out@.contains(x) {
                    let k = choose|k: int| 0 <= k < out@.len() && out@[k] == x;
                    if k < previous.len() {
                        assert(previous[k] == x);
                    }
                }
                if previous.contains(x) {
                    let k = choose|k: int| 0 <= k < previous.len() && previous[k] == x;
                    assert(out@[k] == x);
                }
                if selected && x == position {
                    assert(out@[previous.len() as int] == x);
                }
            }
            assert forall|x: usize|
                out@.contains(x) <==> exists|j: int|
                    0 <= j < i + 1 && (#[trigger] token_views(tokens@)[j]).position == x && token_selected(
                        token_views(tokens@)[j],
                        v,
                        a.function,
                        a.op,
                        literal@,
                        *formats,
                        *floats,
                    ) by {
                if previous.contains(x) {
                    let j = choose|j: int|
                        0 <= j < i && (#[trigger] token_views(tokens@)[j]).position == x && token_selected(
                            token_views(tokens@)[j],
                            v,
                            a.function,
                            a.op,
                            literal@,
                            *formats,
                            *floats,
                        );
                    assert(0 <= j < i + 1);
                }
                if exists|j: int|
                    0 <= j < i + 1 && (#[trigger] token_views(tokens@)[j]).position == x && token_selected(
                        token_views(tokens@)[j],
                        v,
                        a.function,
                        a.op,
                        literal@,
                        *formats,
                        *floats,
                    ) {
                    let j = choose|j: int|
                        0 <= j < i + 1 && (#[trigger] token_views(tokens@)[j]).position == x && token_selected(
                            token_views(tokens@)[j],
                            v,
                            a.function,
                            a.op,
                            literal@,
                            *formats,
                            *floats,
                        );
                    if j < i {
                        assert(previous.contains(x));
                    }
                }
            }
        }
        i = i + 1;
    }
    out
}

/// One form of condition at `p`; see `alternative_at`.
fn alternative_exec(s: &Vec<char>, p: usize, v: Variable, a: Alternative, tokens: &Vec<Token>, formats: &Formats, floats: &FloatValues) -> (r: Option<(usize, Vec<usize>)>)
    requires
        p <= s.len(),
    ensures
        match (r, alternative_at(s@, p as int, v, a, token_views(tokens@), *formats, *floats)) {
            (Some((e, set)), Some((se, sset))) => e == se && p < e <= s.len() && denotes(
                set@,
                sset,
            ),
            (None, None) => true,
            _ => false,
        },
{
    reveal(alternative_at);
    let name = chars_of(name_of(v));
    let operator = chars_of(operator_text_of(a.op));
    let ghost subject = subject_text(v, a.function);
    let ghost text = subject + operator_text(a.op);
    proof {
        lemma_occurs_at_concat(s@, p as int, subject, operator_text(a.op));
    }
    let after_subject: usize;
    match a.function {
        Function::Plain => {
            if !occurs_at_exec(s, p, &name) {
                return None;
            }
            after_subject = p + name.len();
        },
        Function::Port | Function::Ip => {
            let open = match a.function {
                Function::Port => chars_of("port("),
                _ => chars_of("ip("),
            };
            let close = chars_of(")");
            let ghost opening = if a.function == Function::Port {
                "port("@
            } else {
                "ip("@
            };
            assert(open@ == opening);
            assert(subject == opening + variable_name(v) + ")"@);
            proof {
                lemma_occurs_at_concat(s@, p as int, opening + variable_name(v), ")"@);
                lemma_occurs_at_concat(s@, p as int, opening, variable_name(v));
            }
            if !occurs_at_exec(s, p, &open) {
                return None;
            }
            let after_open = p + open.len();
            if !occurs_at_exec(s, after_open, &name) {
                return None;
            }
            let after_name = after_open + name.len();
            if !occurs_at_exec(s, after_name, &close) {
                return None;
            }
            after_subject = after_name + close.len();
        },
    }
    assert(after_subject == p + subject.len());
    if !occurs_at_exec(s, after_subject, &operator) {
        return None;
    }
    let start = after_subject + operator.len();
    assert(start == p + text.len());
    match literal_exec(s, start, a.literal, formats, floats) {
        Some((e, literal)) => {
            let set = positions_exec(tokens, v, a, &literal, formats, floats);
            Some((e, set))
        },
        None => None,
    }
}

/// `condition` at `p`; see `condition_at`.
#[verifier::loop_isolation(false)]
fn condition_exec(s: &Vec<char>, p: usize, tokens: &Vec<Token>, formats: &Formats, floats: &FloatValues) -> (r: Option<(usize, Vec<usize>)>)
    requires
        p <= s.len(),
    ensures
        match (r, condition_at(s@, p as int, token_views(tokens@), *formats, *floats)) {
            (Some((e, set)), Some((se, sset))) => e == se && p < e <= s.len() && denotes(
                set@,
                sset,
            ),
            (None, None) => true,
            _ => false,
        },
{
    let vs = variable_list();
    let mut i: usize = 0;
    assert(vs@.skip(0) =~= vs@);
    while i < vs.len()
        invariant
            0 <= i <= vs.len(),
            p <= s.len(),
            vs@ == variables(),
            condition_at(s@, p as int, token_views(tokens@), *formats, *floats) == first_variable(
                s@,
                p as int,
                vs@.skip(i as int),
                token_views(tokens@),
                *formats,
                *floats,
            ),
        decreases vs.len() - i,
    {
        let v = vs[i];
        let ghost rest = vs@.skip(i as int);
        assert(rest[0] == v);
        assert(rest.drop_first() =~= vs@.skip(i + 1));
        let forms = alternatives_of(v);
        let mut k: usize = 0;
        assert(forms@.skip(0) =~= forms@);
        while k < forms.len()
            invariant
                0 <= k <= forms.len(),
                p <= s.len(),
                forms@ == alternatives(v),
                first_alternative(s@, p as int, v, alternatives(v), token_views(tokens@), *formats, *floats)
                    == first_alternative(
                    s@,
                    p as int,
                    v,
                    forms@.skip(k as int),
                    token_views(tokens@),
                    *formats,
                    *floats,
                ),
            decreases forms.len() - k,
        {
            let ghost later = forms@.skip(k as int);
            assert(later[0] == forms@[k as int]);
            assert(later.drop_first() =~= forms@.skip(k + 1));
            match alternative_exec(s, p, v, forms[k], tokens, formats, floats) {
                Some(found) => {
                    assert(alternative_at(s@, p as int, v, forms@[k as int], token_views(tokens@), *formats, *floats) is Some);
                    assert(rest.len() > 0);
                    assert(first_alternative(s@, p as int, v, later, token_views(tokens@), *formats, *floats)
                        == alternative_at(s@, p as int, v, forms@[k as int], token_views(tokens@), *formats, *floats));
                    assert(first_variable(s@, p as int, rest, token_views(tokens@), *formats, *floats)
                        == first_alternative(s@, p as int, v, alternatives(v), token_views(tokens@), *formats, *floats));
                    return Some(found);
                },
                None => {},
            }
            k = k + 1;
        }
        assert(forms@.skip(k as int) =~= Seq::<Alternative>::empty());
        i = i + 1;
    }
    assert(vs@.skip(i as int) =~= Seq::<Variable>::empty());
    None
}

proof fn lemma_denotes_append(a: Seq<usize>, b: Seq<usize>, x: Set<usize>, y: Set<usize>)
    requires
        denotes(a, x),
        denotes(b, y),
    ensures
        denotes(a + b, x.union(y)),
{
    assert forall|e: usize| (a + b).contains(e) <==> x.union(y).contains(e) by {
        if (a + b).contains(e) {
            let k = choose|k: int| 0 <= k < (a + b).len() && (a + b)[k] == e;
            if k < a.len() {
                assert(a[k] == e);
            } else {
                assert(b[k - a.len()] == e);
            }
        }
        if a.contains(e) {
            let k = choose|k: int| 0 <= k < a.len() && a[k] == e;
            assert((a + b)[k] == e);
        }
        if b.contains(e) {
            let k = choose|k: int| 0 <= k < b.len() && b[k] == e;
            assert((a + b)[a.len() + k] == e);
        }
    }
}

proof fn lemma_denotes_empty(a: Seq<usize>, x: Set<usize>)
    requires
        denotes(a, x),
    ensures
        (a.len() == 0) <==> (x == Set::<usize>::empty()),
{
    if a.len() == 0 {
        assert(x =~= Set::<usize>::empty());
    } else {
        assert(a.contains(a[0]));
        assert(x.contains(a[0]));
    }
}

/// `or` at `p`; see `or_rule`.
fn or_exec(s: &Vec<char>, p: usize, tokens: &Vec<Token>, formats: &Formats, floats: &FloatValues) -> (r: Option<(usize, Vec<usize>)>)
    requires
        p <= s.len(),
    ensures
        match (r, or_rule(s@, p as int, token_views(tokens@), *formats, *floats)) {
            (Some((e, set)), Some((se, sset))) => e == se && p < e <= s.len() && denotes(
                set@,
                sset,
            ),
            (None, None) => true,
            _ => false,
        },
    decreases s.len() - p, 2int,
{
    match and_exec(s, p, tokens, formats, floats) {
        None => None,
        Some((e1, left)) => {
            let word = vec![' ', 'o', 'r', ' '];
            assert(word@ =~= or_word());
            if occurs_at_exec(s, e1, &word) {
                match and_exec(s, e1 + 4, tokens, formats, floats) {
                    Some((e2, right)) => {
                        let mut joined = left;
                        let mut more = right;
                        let ghost a = joined@;
                        let ghost b = more@;
                        joined.append(&mut more);
                        proof {
                            let (_, x) = and_rule(s@, p as int, token_views(tokens@), *formats, *floats)->0;
                            let (_, y) = and_rule(s@, e1 + 4, token_views(tokens@), *formats, *floats)->0;
                            lemma_denotes_append(a, b, x, y);
                        }
                        Some((e2, joined))
                    },
                    None => Some((e1, left)),
                }
            } else {
                Some((e1, left))
            }
        },
    }
}

/// `and` at `p`; see `and_rule`.
fn and_exec(s: &Vec<char>, p: usize, tokens: &Vec<Token>, formats: &Formats, floats: &FloatValues) -> (r: Option<(usize, Vec<usize>)>)
    requires
        p <= s.len(),
    ensures
        match (r, and_rule(s@, p as int, token_views(tokens@), *formats, *floats)) {
            (Some((e, set)), Some((se, sset))) => e == se && p < e <= s.len() && denotes(
                set@,
                sset,
            ),
            (None, None) => true,
            _ => false,
        },
    decreases s.len() - p, 1int,
{
    match conditions_exec(s, p, tokens, formats, floats) {
        None => None,
        Some((e1, left)) => {
            let word = vec![' ', 'a', 'n', 'd', ' '];
            assert(word@ =~= and_word());
            if occurs_at_exec(s, e1, &word) {
                match conditions_exec(s, e1 + 5, tokens, formats, floats) {
                    Some((e2, right)) => {
                        let ghost a = left@;
                        let ghost b = right@;
                        proof {
                            let (_, x) = conditions_rule(s@, p as int, token_views(tokens@), *formats, *floats)->0;
                            let (_, y) = conditions_rule(s@, e1 + 5, token_views(tokens@), *formats, *floats)->0;
                            lemma_denotes_empty(a, x);
                            lemma_denotes_empty(b, y);
                            lemma_denotes_append(a, b, x, y);
                            assert(denotes(Seq::<usize>::empty(), Set::<usize>::empty()));
                        }
                        if left.len() > 0 && right.len() > 0 {
                            let mut joined = left;
                            let mut more = right;
                            joined.append(&mut more);
                            Some((e2, joined))
                        } else {
                            Some((e2, Vec::new()))
                        }
                    },
                    None => Some((e1, left)),
                }
            } else {
                Some((e1, left))
            }
        },
    }
}

/// `conditions` at `p`; see `conditions_rule`.
fn conditions_exec(s: &Vec<char>, p: usize, tokens: &Vec<Token>, formats: &Formats, floats: &FloatValues) -> (r: Option<(usize, Vec<usize>)>)
    requires
        p <= s.len(),
    ensures
        match (r, conditions_rule(s@, p as int, token_views(tokens@), *formats, *floats)) {
            (Some((e, set)), Some((se, sset))) => e == se && p < e <= s.len() && denotes(
                set@,
                sset,
            ),
            (None, None) => true,
            _ => false,
        },
    decreases s.len() - p, 0int,
{
    match condition_exec(s, p, tokens, formats, floats) {
        Some(found) => Some(found),
        None => {
            if p < s.len() && s[p] == '(' {
                match or_exec(s, p + 1, tokens, formats, floats) {
                    Some((e, inner)) => {
                        if e < s.len() && s[e] == ')' {
                            Some((e + 1, inner))
                        } else {
                            None
                        }
                    },
                    None => None,
                }
            } else {
                None
            }
        },
    }
}

/// The float literal that starts at `p`, if one does (the span that
/// `literal_at` reads as a float).
pub open spec fn float_literal_at(s: Seq<char>, p: int) -> Option<Seq<char>> {
    let q = after_sign(s, p);
    let e1 = run_end(s, q, CharClass::Digit);
    let e2 = if 0 <= e1 < s.len() && s[e1] == '.' {
        e1 + 1
    } else {
        e1
    };
    let e3 = run_end(s, e2, CharClass::Digit);
    if e1 > q || e3 > e2 {
        Some(s.subrange(p, e3))
    } else {
        None
    }
}

/// The words whose values as doubles an evaluation of the expression on the
/// tokens may read: the words of the tokens and the float literals of the
/// expression.
pub open spec fn float_words(s: Seq<char>, tokens: Seq<TokenView>) -> Set<Seq<char>> {
    Set::new(
        |w: Seq<char>|
            (exists|i: int| 0 <= i < tokens.len() && #[trigger] tokens[i].word == w) || (exists|
                p: int,
            |
                0 <= p <= s.len() && #[trigger] float_literal_at(s, p) == Some(w)),
    )
}

/// The words whose values as doubles `evaluate` may read, each at least
/// once: the caller gives each of them that reads as a double its value.
#[verifier::rlimit(40)]
pub fn float_words_of(expression: &str, tokens: &Vec<Token>) -> (r: Vec<String>)
    ensures
        forall|w: Seq<char>|
            (exists|i: int| 0 <= i < r.len() && #[trigger] r@[i]@ == w) <==> float_words(
                expression@,
                token_views(tokens@),
            ).contains(w),
{
    let ghost views = token_views(tokens@);
    let mut words: Vec<String> = Vec::new();
    let mut i: usize = 0;
    while i < tokens.len()
        invariant
            0 <= i <= tokens.len(),
            views == token_views(tokens@),
            words.len() == i,
            forall|k: int| 0 <= k < i ==> #[trigger] words@[k]@ == views[k].word,
        decreases tokens.len() - i,
    {
        words.push(tokens[i].word.as_str().to_owned());
        i = i + 1;
    }
    let s = chars_of(expression);
    let n = words.len();
    let mut p: usize = 0;
    while p < s.len()
        invariant
            0 <= p <= s.len(),
            s@ == expression@,
            views == token_views(tokens@),
            n == tokens.len(),
            n <= words.len(),
            forall|k: int| 0 <= k < n ==> #[trigger] words@[k]@ == views[k].word,
            forall|k: int|
                n <= k < words.len() ==> exists|q: int|
                    0 <= q < p && float_literal_at(s@, q) == Some(#[trigger] words@[k]@),
            forall|q: int|
                0 <= q < p && #[trigger] float_literal_at(s@, q) is Some ==> exists|k: int|
                    n <= k < words.len() && float_literal_at(s@, q) == Some(#[trigger] words@[k]@),
        decreases s.len() - p,
    {
        let q = if p < s.len() && (s[p] == '+' || s[p] == '-') {
            p + 1
        } else {
            p
        };
        let e1 = run_end_exec(&s, q, CharClass::Digit);
        let e2 = if e1 < s.len() && s[e1] == '.' {
            e1 + 1
        } else {
            e1
        };
        let e3 = run_end_exec(&s, e2, CharClass::Digit);
        if e1 > q || e3 > e2 {
            let word = text_between(&s, p, e3);
            let ghost before = words@;
            words.push(word);
            assert(float_literal_at(s@, p as int) == Some(words@[words.len() - 1]@));
            assert forall|k: int| n <= k < words.len() implies exists|q: int|
                0 <= q < p + 1 && float_literal_at(s@, q) == Some(#[trigger] words@[k]@) by {
                if k < words.len() - 1 {
                    assert(words@[k] == before[k]);
                }
            }
            assert forall|r: int|
                0 <= r < p + 1 && #[trigger] float_literal_at(s@, r) is Some implies exists|k: int|
                n <= k < words.len() && float_literal_at(s@, r) == Some(#[trigger] words@[k]@) by {
                if r < p {
                    let k = choose|k: int|
                        n <= k < before.len() && float_literal_at(s@, r) == Some(
                            #[trigger] before[k]@,
                        );
                    assert(words@[k] == before[k]);
                } else {
                    assert(words@[words.len() - 1]@ == word@);
                }
            }
        }
        p = p + 1;
    }
    assert forall|w: Seq<char>|
        (exists|i: int| 0 <= i < words.len() && #[trigger] words@[i]@ == w) <==> float_words(
            expression@,
            views,
        ).contains(w) by {
        if exists|i: int| 0 <= i < words.len() && #[trigger] words@[i]@ == w {
            let i = choose|i: int| 0 <= i < words.len() && #[trigger] words@[i]@ == w;
            if i < n {
                assert(views[i].word == w);
            } else {
                let q = choose|q: int|
                    0 <= q < p && float_literal_at(s@, q) == Some(#[trigger] words@[i]@);
                assert(float_literal_at(expression@, q) == Some(w));
            }
        }
        if float_words(expression@, views).contains(w) {
            if exists|i: int| 0 <= i < views.len() && #[trigger] views[i].word == w {
                let i = choose|i: int| 0 <= i < views.len() && #[trigger] views[i].word == w;
                assert(words@[i]@ == w);
            } else {
                let q = choose|q: int|
                    0 <= q <= expression@.len() && #[trigger] float_literal_at(expression@, q)
                        == Some(w);
                assert(q < s.len()) by {
                    if q == s.len() {
                        assert(run_end(s@, q, CharClass::Digit) == q);
                    }
                }
                assert(float_literal_at(s@, q) is Some);
                let k = choose|k: int|
                    n <= k < words.len() && float_literal_at(s@, q) == Some(#[trigger] words@[k]@);
                assert(words@[k]@ == w);
            }
        }
    }
    words
}

/// The expression is not in the grammar.
#[derive(Debug, PartialEq, Eq, Clone, Copy)]
pub struct InvalidExpression;

impl InvalidExpression {
    /// The message that reports the expression as not in the grammar.
    pub fn message(&self, expression: &str) -> (r: String)
        ensures
            r@ == "Invalid filter expression '"@ + expression@ + "'"@,
    {
        let mut m = "Invalid filter expression '".to_owned();
        m.append(expression);
        m.append("'");
        m
    }
}

/// The set of the elements of `v`.
fn set_of(v: &Vec<usize>) -> (r: HashSet<usize>)
    ensures
        forall|x: usize| r@.contains(x) <==> v@.contains(x),
{
    let mut set: HashSet<usize> = HashSet::new();
    let mut i: usize = 0;
    while i < v.len()
        invariant
            0 <= i <= v.len(),
            forall|x: usize| set@.contains(x) <==> v@.take(i as int).contains(x),
        decreases v.len() - i,
    {
        set.insert(v[i]);
        assert(v@.take(i + 1) =~= v@.take(i as int).push(v@[i as int]));
        assert forall|x: usize| set@.contains(x) <==> v@.take(i + 1).contains(x) by {
            let shorter = v@.take(i as int);
            let longer = v@.take(i + 1);
            if shorter.contains(x) {
                let k = choose|k: int| 0 <= k < shorter.len() && shorter[k] == x;
                assert(longer[k] == x);
            }
            if longer.contains(x) {
                let k = choose|k: int| 0 <= k < longer.len() && longer[k] == x;
                if k < i {
                    assert(shorter[k] == x);
                }
            }
            assert(longer[i as int] == v@[i as int]);
        }
        i = i + 1;
    }
    assert(v@.take(v.len() as int) =~= v@);
    set
}

/// Evaluates the expression against the tokens of a line: the positions of
/// the tokens that it selects, or an error when the expression is not in the
/// grammar. Dates and times are read with `formats`; floats have the values
/// given in `floats`.
pub fn evaluate(expression: &str, tokens: &Vec<Token>, formats: &Formats, floats: &FloatValues) -> (r: Result<HashSet<usize>, InvalidExpression>)
    ensures
        match evaluation(expression@, token_views(tokens@), *formats, *floats) {
            Some(set) => r matches Ok(found) && found@ == set,
            None => r is Err,
        },
{
    let s = chars_of(expression);
    match or_exec(&s, 0, tokens, formats, floats) {
        Some((e, positions)) => {
            if e == s.len() {
                let found = set_of(&positions);
                proof {
                    let (_, set) = or_rule(s@, 0, token_views(tokens@), *formats, *floats)->0;
                    assert(found@ =~= set);
                }
                Ok(found)
            } else {
                Err(InvalidExpression)
            }
        },
        None => Err(InvalidExpression),
    }
}

/// Where a rule ends, if it succeeds.
pub open spec fn end_of(r: Option<(int, Set<usize>)>) -> Option<int> {
    match r {
        Some((e, _)) => Some(e),
        None => None,
    }
}

/// Where a literal ends, if it is one.
pub open spec fn literal_end(r: Option<(int, Datum)>) -> Option<int> {
    match r {
        Some((e, _)) => Some(e),
        None => None,
    }
}

proof fn lemma_literal_end(s: Seq<char>, p: int, kind: Kind, formats: Formats, fl1: FloatValues, fl2: FloatValues)
    ensures
        literal_end(literal_at(s, p, kind, formats, fl1)) == literal_end(
            literal_at(s, p, kind, formats, fl2),
        ),
{
}

proof fn lemma_alternative_end(s: Seq<char>, p: int, v: Variable, a: Alternative, t1: Seq<TokenView>, t2: Seq<TokenView>, formats: Formats, fl1: FloatValues, fl2: FloatValues)
    ensures
        end_of(alternative_at(s, p, v, a, t1, formats, fl1)) == end_of(
            alternative_at(s, p, v, a, t2, formats, fl2),
        ),
{
    reveal(alternative_at);
    let text = subject_text(v, a.function) + operator_text(a.op);
    lemma_literal_end(s, p + text.len(), a.literal, formats, fl1, fl2);
}

proof fn lemma_first_alternative_end(s: Seq<char>, p: int, v: Variable, forms: Seq<Alternative>, t1: Seq<TokenView>, t2: Seq<TokenView>, formats: Formats, fl1: FloatValues, fl2: FloatValues)
    ensures
        end_of(first_alternative(s, p, v, forms, t1, formats, fl1)) == end_of(
            first_alternative(s, p, v, forms, t2, formats, fl2),
        ),
    decreases forms.len(),
{
    if forms.len() > 0 {
        lemma_alternative_end(s, p, v, forms[0], t1, t2, formats, fl1, fl2);
        lemma_first_alternative_end(s, p, v, forms.drop_first(), t1, t2, formats, fl1, fl2);
    }
}

proof fn lemma_first_variable_end(s: Seq<char>, p: int, vs: Seq<Variable>, t1: Seq<TokenView>, t2: Seq<TokenView>, formats: Formats, fl1: FloatValues, fl2: FloatValues)
    ensures
        end_of(first_variable(s, p, vs, t1, formats, fl1)) == end_of(
            first_variable(s, p, vs, t2, formats, fl2),
        ),
    decreases vs.len(),
{
    if vs.len() > 0 {
        lemma_first_alternative_end(s, p, vs[0], alternatives(vs[0]), t1, t2, formats, fl1, fl2);
        lemma_first_variable_end(s, p, vs.drop_first(), t1, t2, formats, fl1, fl2);
    }
}

proof fn lemma_or_end(s: Seq<char>, p: int, t1: Seq<TokenView>, t2: Seq<TokenView>, formats: Formats, fl1: FloatValues, fl2: FloatValues)
    ensures
        end_of(or_rule(s, p, t1, formats, fl1)) == end_of(or_rule(s, p, t2, formats, fl2)),
    decreases s.len() - p, 2int,
{
    if 0 <= p <= s.len() {
        lemma_and_end(s, p, t1, t2, formats, fl1, fl2);
        match and_rule(s, p, t1, formats, fl1) {
            Some((e1, _)) => {
                if p <= e1 && occurs_at(s, e1, or_word()) {
                    lemma_and_end(s, e1 + 4, t1, t2, formats, fl1, fl2);
                }
            },
            None => {},
        }
    }
}

proof fn lemma_and_end(s: Seq<char>, p: int, t1: Seq<TokenView>, t2: Seq<TokenView>, formats: Formats, fl1: FloatValues, fl2: FloatValues)
    ensures
        end_of(and_rule(s, p, t1, formats, fl1)) == end_of(and_rule(s, p, t2, formats, fl2)),
    decreases s.len() - p, 1int,
{
    if 0 <= p <= s.len() {
        lemma_conditions_end(s, p, t1, t2, formats, fl1, fl2);
        match conditions_rule(s, p, t1, formats, fl1) {
            Some((e1, _)) => {
                if p <= e1 && occurs_at(s, e1, and_word()) {
                    lemma_conditions_end(s, e1 + 5, t1, t2, formats, fl1, fl2);
                }
            },
            None => {},
        }
    }
}

proof fn lemma_conditions_end(s: Seq<char>, p: int, t1: Seq<TokenView>, t2: Seq<TokenView>, formats: Formats, fl1: FloatValues, fl2: FloatValues)
    ensures
        end_of(conditions_rule(s, p, t1, formats, fl1)) == end_of(
            conditions_rule(s, p, t2, formats, fl2),
        ),
    decreases s.len() - p, 0int,
{
    if 0 <= p <= s.len() {
        lemma_first_variable_end(s, p, variables(), t1, t2, formats, fl1, fl2);
        if p < s.len() && s[p] == '(' {
            lemma_or_end(s, p + 1, t1, t2, formats, fl1, fl2);
        }
    }
}

/// Whether an expression is in the grammar does not depend on the line it
/// is evaluated on: for any two token sequences and any two sets of float
/// values, it evaluates on both or on neither. So checking it once, against
/// no tokens, decides whether it evaluates on every line.
pub proof fn lemma_validity_is_independent_of_line(s: Seq<char>, t1: Seq<TokenView>, t2: Seq<TokenView>, formats: Formats, fl1: FloatValues, fl2: FloatValues)
    ensures
        evaluation(s, t1, formats, fl1) is Some <==> evaluation(s, t2, formats, fl2) is Some,
{
    lemma_or_end(s, 0, t1, t2, formats, fl1, fl2);
}

/// The positions of the tokens that are words, not separators.
pub open spec fn word_positions(tokens: Seq<TokenView>) -> Set<usize> {
    Set::new(
        |pos: usize|
            exists|i: int|
                0 <= i < tokens.len() && (#[trigger] tokens[i]).position == pos
                    && !tokens[i].separator,
    )
}

/// The rule failed, or selected only word positions.
pub open spec fn selects_words(r: Option<(int, Set<usize>)>, tokens: Seq<TokenView>) -> bool {
    match r {
        Some((_, x)) => x.subset_of(word_positions(tokens)),
        None => true,
    }
}

proof fn lemma_first_alternative_words(s: Seq<char>, p: int, v: Variable, forms: Seq<Alternative>, tokens: Seq<TokenView>, formats: Formats, floats: FloatValues)
    ensures
        selects_words(first_alternative(s, p, v, forms, tokens, formats, floats), tokens),
    decreases forms.len(),
{
    if forms.len() > 0 {
        reveal(alternative_at);
        lemma_first_alternative_words(s, p, v, forms.drop_first(), tokens, formats, floats);
    }
}

proof fn lemma_first_variable_words(s: Seq<char>, p: int, vs: Seq<Variable>, tokens: Seq<TokenView>, formats: Formats, floats: FloatValues)
    ensures
        selects_words(first_variable(s, p, vs, tokens, formats, floats), tokens),
    decreases vs.len(),
{
    if vs.len() > 0 {
        lemma_first_alternative_words(s, p, vs[0], alternatives(vs[0]), tokens, formats, floats);
        lemma_first_variable_words(s, p, vs.drop_first(), tokens, formats, floats);
    }
}

proof fn lemma_or_words(s: Seq<char>, p: int, tokens: Seq<TokenView>, formats: Formats, floats: FloatValues)
    ensures
        selects_words(or_rule(s, p, tokens, formats, floats), tokens),
    decreases s.len() - p, 2int,
{
    if 0 <= p <= s.len() {
        lemma_and_words(s, p, tokens, formats, floats);
        match and_rule(s, p, tokens, formats, floats) {
            Some((e1, _)) => {
                if p <= e1 && occurs_at(s, e1, or_word()) {
                    lemma_and_words(s, e1 + 4, tokens, formats, floats);
                }
            },
            None => {},
        }
    }
}

proof fn lemma_and_words(s: Seq<char>, p: int, tokens: Seq<TokenView>, formats: Formats, floats: FloatValues)
    ensures
        selects_words(and_rule(s, p, tokens, formats, floats), tokens),
    decreases s.len() - p, 1int,
{
    if 0 <= p <= s.len() {
        lemma_conditions_words(s, p, tokens, formats, floats);
        match conditions_rule(s, p, tokens, formats, floats) {
            Some((e1, _)) => {
                if p <= e1 && occurs_at(s, e1, and_word()) {
                    lemma_conditions_words(s, e1 + 5, tokens, formats, floats);
                }
            },
            None => {},
        }
    }
}

proof fn lemma_conditions_words(s: Seq<char>, p: int, tokens: Seq<TokenView>, formats: Formats, floats: FloatValues)
    ensures
        selects_words(conditions_rule(s, p, tokens, formats, floats), tokens),
    decreases s.len() - p, 0int,
{
    if 0 <= p <= s.len() {
        lemma_first_variable_words(s, p, variables(), tokens, formats, floats);
        if p < s.len() && s[p] == '(' {
            lemma_or_words(s, p + 1, tokens, formats, floats);
        }
    }
}

/// An expression selects only words of the line, never separators; on a
/// line without words it selects nothing.
pub proof fn lemma_selects_only_words(s: Seq<char>, tokens: Seq<TokenView>, formats: Formats, floats: FloatValues)
    ensures
        evaluation(s, tokens, formats, floats) matches Some(x) ==> x.subset_of(
            word_positions(tokens),
        ),
        (forall|i: int| 0 <= i < tokens.len() ==> (#[trigger] tokens[i]).separator) ==> (evaluation(
            s,
            tokens,
            formats,
            floats,
        ) matches Some(x) ==> x == Set::<usize>::empty()),
{
    lemma_or_words(s, 0, tokens, formats, floats);
    if forall|i: int| 0 <= i < tokens.len() ==> (#[trigger] tokens[i]).separator {
        if let Some(x) = evaluation(s, tokens, formats, floats) {
            assert(word_positions(tokens) =~= Set::<usize>::empty());
            assert(x =~= Set::<usize>::empty());
        }
    }
}

/// The two sets of float values give the same double, or none, to each
/// word that an evaluation of `s` on `tokens` may read.
pub open spec fn agree_on_float_words(s: Seq<char>, tokens: Seq<TokenView>, fl1: FloatValues, fl2: FloatValues) -> bool {
    forall|w: Seq<char>| #[trigger] float_words(s, tokens).contains(w) ==> fl1.value_of(w) == fl2.value_of(w)
}

proof fn lemma_literal_agrees(s: Seq<char>, q: int, kind: Kind, tokens: Seq<TokenView>, formats: Formats, fl1: FloatValues, fl2: FloatValues)
    requires
        0 <= q <= s.len(),
        agree_on_float_words(s, tokens, fl1, fl2),
    ensures
        literal_at(s, q, kind, formats, fl1) == literal_at(s, q, kind, formats, fl2),
{
    if kind == Kind::Float {
        if let Some(w) = float_literal_at(s, q) {
            assert(float_words(s, tokens).contains(w));
        }
    }
}

proof fn lemma_alternative_agrees(s: Seq<char>, p: int, v: Variable, a: Alternative, tokens: Seq<TokenView>, formats: Formats, fl1: FloatValues, fl2: FloatValues)
    requires
        0 <= p <= s.len(),
        agree_on_float_words(s, tokens, fl1, fl2),
    ensures
        alternative_at(s, p, v, a, tokens, formats, fl1) == alternative_at(
            s,
            p,
            v,
            a,
            tokens,
            formats,
            fl2,
        ),
{
    reveal(alternative_at);
    let text = subject_text(v, a.function) + operator_text(a.op);
    if occurs_at(s, p, text) {
        lemma_literal_agrees(s, p + text.len(), a.literal, tokens, formats, fl1, fl2);
        if let Some((e, literal)) = literal_at(s, p + text.len(), a.literal, formats, fl1) {
            assert forall|i: int| 0 <= i < tokens.len() implies token_selected(
                #[trigger] tokens[i],
                v,
                a.function,
                a.op,
                literal,
                formats,
                fl1,
            ) == token_selected(tokens[i], v, a.function, a.op, literal, formats, fl2) by {
                assert(float_words(s, tokens).contains(tokens[i].word));
            }
            assert(condition_positions(tokens, v, a, literal, formats, fl1) =~= condition_positions(
                tokens,
                v,
                a,
                literal,
                formats,
                fl2,
            ));
        }
    }
}

proof fn lemma_first_alternative_agrees(s: Seq<char>, p: int, v: Variable, forms: Seq<Alternative>, tokens: Seq<TokenView>, formats: Formats, fl1: FloatValues, fl2: FloatValues)
    requires
        0 <= p <= s.len(),
        agree_on_float_words(s, tokens, fl1, fl2),
    ensures
        first_alternative(s, p, v, forms, tokens, formats, fl1) == first_alternative(
            s,
            p,
            v,
            forms,
            tokens,
            formats,
            fl2,
        ),
    decreases forms.len(),
{
    if forms.len() > 0 {
        lemma_alternative_agrees(s, p, v, forms[0], tokens, formats, fl1, fl2);
        lemma_first_alternative_agrees(s, p, v, forms.drop_first(), tokens, formats, fl1, fl2);
    }
}

proof fn lemma_first_variable_agrees(s: Seq<char>, p: int, vs: Seq<Variable>, tokens: Seq<TokenView>, formats: Formats, fl1: FloatValues, fl2: FloatValues)
    requires
        0 <= p <= s.len(),
        agree_on_float_words(s, tokens, fl1, fl2),
    ensures
        first_variable(s, p, vs, tokens, formats, fl1) == first_variable(
            s,
            p,
            vs,
            tokens,
            formats,
            fl2,
        ),
    decreases vs.len(),
{
    if vs.len() > 0 {
        lemma_first_alternative_agrees(s, p, vs[0], alternatives(vs[0]), tokens, formats, fl1, fl2);
        lemma_first_variable_agrees(s, p, vs.drop_first(), tokens, formats, fl1, fl2);
    }
}

proof fn lemma_or_agrees(s: Seq<char>, p: int, tokens: Seq<TokenView>, formats: Formats, fl1: FloatValues, fl2: FloatValues)
    requires
        agree_on_float_words(s, tokens, fl1, fl2),
    ensures
        or_rule(s, p, tokens, formats, fl1) == or_rule(s, p, tokens, formats, fl2),
    decreases s.len() - p, 2int,
{
    if 0 <= p <= s.len() {
        lemma_and_agrees(s, p, tokens, formats, fl1, fl2);
        match and_rule(s, p, tokens, formats, fl1) {
            Some((e1, _)) => {
                if p <= e1 && occurs_at(s, e1, or_word()) {
                    lemma_and_agrees(s, e1 + 4, tokens, formats, fl1, fl2);
                }
            },
            None => {},
        }
    }
}

proof fn lemma_and_agrees(s: Seq<char>, p: int, tokens: Seq<TokenView>, formats: Formats, fl1: FloatValues, fl2: FloatValues)
    requires
        agree_on_float_words(s, tokens, fl1, fl2),
    ensures
        and_rule(s, p, tokens, formats, fl1) == and_rule(s, p, tokens, formats, fl2),
    decreases s.len() - p, 1int,
{
    if 0 <= p <= s.len() {
        lemma_conditions_agrees(s, p, tokens, formats, fl1, fl2);
        match conditions_rule(s, p, tokens, formats, fl1) {
            Some((e1, _)) => {
                if p <= e1 && occurs_at(s, e1, and_word()) {
                    lemma_conditions_agrees(s, e1 + 5, tokens, formats, fl1, fl2);
                }
            },
            None => {},
        }
    }
}

proof fn lemma_conditions_agrees(s: Seq<char>, p: int, tokens: Seq<TokenView>, formats: Formats, fl1: FloatValues, fl2: FloatValues)
    requires
        agree_on_float_words(s, tokens, fl1, fl2),
    ensures
        conditions_rule(s, p, tokens, formats, fl1) == conditions_rule(s, p, tokens, formats, fl2),
    decreases s.len() - p, 0int,
{
    if 0 <= p <= s.len() {
        lemma_first_variable_agrees(s, p, variables(), tokens, formats, fl1, fl2);
        if p < s.len() && s[p] == '(' {
            lemma_or_agrees(s, p + 1, tokens, formats, fl1, fl2);
        }
    }
}

/// An evaluation reads the float values of the words in `float_words` and
/// of no other: two sets of float values that agree on them give the same
/// evaluation.
pub proof fn lemma_evaluation_reads_only_float_words(s: Seq<char>, tokens: Seq<TokenView>, formats: Formats, fl1: FloatValues, fl2: FloatValues)
    requires
        agree_on_float_words(s, tokens, fl1, fl2),
    ensures
        evaluation(s, tokens, formats, fl1) == evaluation(s, tokens, formats, fl2),
{
    lemma_or_agrees(s, 0, tokens, formats, fl1, fl2);
}

/// What `and` selects from its two sides: both, when each side selected
/// something, and nothing otherwise.
pub open spec fn both(l: Set<usize>, r: Set<usize>) -> Set<usize> {
    if l != Set::<usize>::empty() && r != Set::<usize>::empty() {
        l.union(r)
    } else {
        Set::<usize>::empty()
    }
}

proof fn lemma_subject_start(v: Variable, f: Function)
    ensures
        subject_text(v, f).len() > 0,
        subject_text(v, f)[0] != '(',
{
    reveal_strlit("$integer");
    reveal_strlit("$float");
    reveal_strlit("$id");
    reveal_strlit("$date");
    reveal_strlit("$time");
    reveal_strlit("$dateTime");
    reveal_strlit("$localDateTime");
    reveal_strlit("$ipAddress");
    reveal_strlit("$ipv4Address");
    reveal_strlit("$ipv6Address");
    reveal_strlit("$ipSocketAddress");
    reveal_strlit("$ipv4SocketAddress");
    reveal_strlit("$ipv6SocketAddress");
    reveal_strlit("$semanticVersion");
    reveal_strlit("$ipNetwork");
    reveal_strlit("$ipv4Network");
    reveal_strlit("$ipv6Network");
    reveal_strlit("port(");
    reveal_strlit("ip(");
}

proof fn lemma_first_alternative_not_paren(s: Seq<char>, p: int, v: Variable, forms: Seq<Alternative>, tokens: Seq<TokenView>, formats: Formats, floats: FloatValues)
    requires
        0 <= p < s.len(),
        s[p] == '(',
    ensures
        first_alternative(s, p, v, forms, tokens, formats, floats) is None,
    decreases forms.len(),
{
    if forms.len() > 0 {
        reveal(alternative_at);
        let text = subject_text(v, forms[0].function) + operator_text(forms[0].op);
        lemma_subject_start(v, forms[0].function);
        if occurs_at(s, p, text) {
            assert(s.subrange(p, p + text.len())[0] == text[0]);
        }
        lemma_first_alternative_not_paren(s, p, v, forms.drop_first(), tokens, formats, floats);
    }
}

pub(crate) proof fn lemma_first_variable_not_paren(s: Seq<char>, p: int, vs: Seq<Variable>, tokens: Seq<TokenView>, formats: Formats, floats: FloatValues)
    requires
        0 <= p < s.len(),
        s[p] == '(',
    ensures
        first_variable(s, p, vs, tokens, formats, floats) is None,
    decreases vs.len(),
{
    if vs.len() > 0 {
        lemma_first_alternative_not_paren(s, p, vs[0], alternatives(vs[0]), tokens, formats, floats);
        lemma_first_variable_not_paren(s, p, vs.drop_first(), tokens, formats, floats);
    }
}

proof fn lemma_run_end_after(s: Seq<char>, p: int, class: CharClass)
    ensures
        run_end(s, p, class) >= p,
    decreases s.len() - p,
{
    if 0 <= p < s.len() && in_class(s[p], class) {
        lemma_run_end_after(s, p + 1, class);
    }
}

proof fn lemma_first_alternative_after(s: Seq<char>, p: int, v: Variable, forms: Seq<Alternative>, tokens: Seq<TokenView>, formats: Formats, floats: FloatValues)
    ensures
        first_alternative(s, p, v, forms, tokens, formats, floats) matches Some((e, _)) ==> e >= p,
    decreases forms.len(),
{
    if forms.len() > 0 {
        reveal(alternative_at);
        let a = forms[0];
        let q = p + (subject_text(v, a.function) + operator_text(a.op)).len();
        let sq = after_sign(s, q);
        lemma_run_end_after(s, sq, CharClass::Digit);
        lemma_run_end_after(s, q, CharClass::Letter);
        lemma_run_end_after(s, run_end(s, q, CharClass::Letter), CharClass::IdPart);
        lemma_run_end_after(s, q, literal_class(a.literal));
        let e1 = run_end(s, sq, CharClass::Digit);
        let e2 = if 0 <= e1 < s.len() && s[e1] == '.' {
            e1 + 1
        } else {
            e1
        };
        lemma_run_end_after(s, e2, CharClass::Digit);
        lemma_first_alternative_after(s, p, v, forms.drop_first(), tokens, formats, floats);
    }
}

proof fn lemma_first_variable_after(s: Seq<char>, p: int, vs: Seq<Variable>, tokens: Seq<TokenView>, formats: Formats, floats: FloatValues)
    ensures
        first_variable(s, p, vs, tokens, formats, floats) matches Some((e, _)) ==> e >= p,
    decreases vs.len(),
{
    if vs.len() > 0 {
        lemma_first_alternative_after(s, p, vs[0], alternatives(vs[0]), tokens, formats, floats);
        lemma_first_variable_after(s, p, vs.drop_first(), tokens, formats, floats);
    }
}

proof fn lemma_or_after(s: Seq<char>, p: int, tokens: Seq<TokenView>, formats: Formats, floats: FloatValues)
    ensures
        or_rule(s, p, tokens, formats, floats) matches Some((e, _)) ==> e >= p,
    decreases s.len() - p, 2int,
{
    if 0 <= p <= s.len() {
        lemma_and_after(s, p, tokens, formats, floats);
        match and_rule(s, p, tokens, formats, floats) {
            Some((e1, _)) => {
                if p <= e1 && occurs_at(s, e1, or_word()) {
                    lemma_and_after(s, e1 + 4, tokens, formats, floats);
                }
            },
            None => {},
        }
    }
}

proof fn lemma_and_after(s: Seq<char>, p: int, tokens: Seq<TokenView>, formats: Formats, floats: FloatValues)
    ensures
        and_rule(s, p, tokens, formats, floats) matches Some((e, _)) ==> e >= p,
    decreases s.len() - p, 1int,
{
    if 0 <= p <= s.len() {
        lemma_conditions_after(s, p, tokens, formats, floats);
        match conditions_rule(s, p, tokens, formats, floats) {
            Some((e1, _)) => {
                if p <= e1 && occurs_at(s, e1, and_word()) {
                    lemma_conditions_after(s, e1 + 5, tokens, formats, floats);
                }
            },
            None => {},
        }
    }
}

proof fn lemma_conditions_after(s: Seq<char>, p: int, tokens: Seq<TokenView>, formats: Formats, floats: FloatValues)
    ensures
        conditions_rule(s, p, tokens, formats, floats) matches Some((e, _)) ==> e >= p,
    decreases s.len() - p, 0int,
{
    if 0 <= p <= s.len() {
        lemma_first_variable_after(s, p, variables(), tokens, formats, floats);
        if p < s.len() && s[p] == '(' {
            lemma_or_after(s, p + 1, tokens, formats, floats);
        }
    }
}

/// How `and`, `or` and parentheses compose, for an expression `s` whose
/// parts are parsed in place (each part a condition or a parenthesized
/// expression, `conditions_rule` giving where it ends and what it selects):
///  - `A and B` selects `both` of what `A` and `B` select;
///  - `A or B` selects what either selects;
///  - `(A)` selects what `A` selects;
///  - `A and B or C` selects as `(A and B) or C`, and `A or B and C` as
///    `A or (B and C)`: `and` binds tighter than `or`.
pub proof fn lemma_and_or_composition(s: Seq<char>, tokens: Seq<TokenView>, formats: Formats, floats: FloatValues, e1: int, e2: int, a: Set<usize>, b: Set<usize>, c: Set<usize>)
    ensures
        conditions_rule(s, 0, tokens, formats, floats) == Some((e1, a)) && occurs_at(
            s,
            e1,
            and_word(),
        ) && conditions_rule(s, e1 + 5, tokens, formats, floats) == Some((s.len() as int, b))
            ==> evaluation(s, tokens, formats, floats) == Some(both(a, b)),
        conditions_rule(s, 0, tokens, formats, floats) == Some((e1, a)) && occurs_at(
            s,
            e1,
            or_word(),
        ) && conditions_rule(s, e1 + 4, tokens, formats, floats) == Some((s.len() as int, b))
            ==> evaluation(s, tokens, formats, floats) == Some(a.union(b)),
        0 < s.len() && s[0] == '(' && or_rule(s, 1, tokens, formats, floats) == Some((e1, a)) && e1
            + 1 == s.len() && s[e1] == ')' ==> evaluation(s, tokens, formats, floats) == Some(a),
        conditions_rule(s, 0, tokens, formats, floats) == Some((e1, a)) && occurs_at(
            s,
            e1,
            and_word(),
        ) && conditions_rule(s, e1 + 5, tokens, formats, floats) == Some((e2, b)) && occurs_at(
            s,
            e2,
            or_word(),
        ) && conditions_rule(s, e2 + 4, tokens, formats, floats) == Some((s.len() as int, c))
            ==> evaluation(s, tokens, formats, floats) == Some(both(a, b).union(c)),
        conditions_rule(s, 0, tokens, formats, floats) == Some((e1, a)) && occurs_at(
            s,
            e1,
            or_word(),
        ) && conditions_rule(s, e1 + 4, tokens, formats, floats) == Some((e2, b)) && occurs_at(
            s,
            e2,
            and_word(),
        ) && conditions_rule(s, e2 + 5, tokens, formats, floats) == Some((s.len() as int, c))
            ==> evaluation(s, tokens, formats, floats) == Some(a.union(both(b, c))),
{
    let len = s.len() as int;
    assert(!occurs_at(s, len, and_word()));
    assert(!occurs_at(s, len, or_word()));
    if occurs_at(s, e1, or_word()) {
        assert(s.subrange(e1, e1 + 4)[1] == 'o');
        assert(!occurs_at(s, e1, and_word()));
    }
    if occurs_at(s, e2, or_word()) {
        assert(s.subrange(e2, e2 + 4)[1] == 'o');
        assert(!occurs_at(s, e2, and_word()));
    }
    if 0 < s.len() && s[0] == '(' {
        lemma_first_variable_not_paren(s, 0, variables(), tokens, formats, floats);
    }
    lemma_conditions_after(s, e1 + 4, tokens, formats, floats);
    lemma_conditions_after(s, e1 + 5, tokens, formats, floats);
}

} // verus!
