//! Typed values read from words, and the comparisons that filter expressions
//! apply to them.
use vstd::prelude::*;

use crate::addresses::{
    address_width, ip_addr_from_str, ip_net_from_str, ipv4_addr_from_str, ipv4_net_from_str,
    ipv6_addr_from_str, ipv6_net_from_str, leading_bits_agree, parse_ip_addr, parse_ip_net,
    parse_ipv4_addr, parse_ipv4_net, parse_ipv6_addr, parse_ipv6_net, parse_socket_addr,
    parse_socket_addr_v4, parse_socket_addr_v6, prefix_agrees, socket_addr_from_str,
    socket_addr_v4_from_str, socket_addr_v6_from_str,
};
use crate::dates::{
    date_time_from_str, naive_date_from_str, naive_date_time_from_str, naive_time_from_str,
    parse_date_time, parse_naive_date, parse_naive_date_time, parse_naive_time,
};
use crate::floats::{compare_floats, float_order, FloatValues};
use crate::numbers::{compare_ints, integer_value, parse_integer, parse_port, port_value};
use crate::text::{
    begins_with, chars_of, finishes_with, occurs_at_exec, occurs_in, occurs_in_exec, text_order,
    text_order_exec,
};
use crate::versions::{
    compare_versions, is_requirement, is_version, matches_requirement, requirement_is_valid,
    requirement_matches, version_is_valid, version_order,
};

verus! {

/// The kinds of words that can be read as typed values.
#[derive(Debug, PartialEq, Eq, Clone, Copy)]
pub enum Kind {
    Integer,
    Float,
    Port,
    Id,
    Date,
    Time,
    DateTime,
    LocalDateTime,
    IpAddress,
    Ipv4Address,
    Ipv6Address,
    IpSocketAddress,
    Ipv4SocketAddress,
    Ipv6SocketAddress,
    IpNetwork,
    Ipv4Network,
    Ipv6Network,
    SemanticVersion,
    SemanticVersionRequirement,
}

/// A typed value as the specifications see it.
pub enum Datum {
    Integer(int),
    /// The bits of an IEEE-754 double.
    Float(u64),
    Id(Seq<char>),
    /// Days from the Common Era.
    Date(int),
    /// Seconds from midnight, nanoseconds.
    Time(int, int),
    /// A UTC instant: days, seconds from midnight, nanoseconds.
    DateTime(int, int, int),
    /// Days, seconds from midnight, nanoseconds.
    LocalDateTime(int, int, int),
    /// Is IPv6, the address bits.
    Address(bool, int),
    /// Is IPv6, address bits, port, flow information, scope id.
    SocketAddress(bool, int, int, int, int),
    /// Is IPv6, address bits, prefix length.
    Network(bool, int, int),
    Port(int),
    /// The text of a semantic version.
    Version(Seq<char>),
    /// The text of a semantic version requirement.
    Requirement(Seq<char>),
}

/// A typed value.
#[derive(Debug)]
pub enum Value {
    Integer(i64),
    /// The bits of an IEEE-754 double (`f64::to_bits`).
    Float(u64),
    Id(String),
    /// Days from the Common Era.
    Date(i32),
    /// Seconds from midnight, nanoseconds.
    Time(u32, u32),
    /// A UTC instant: days, seconds from midnight, nanoseconds.
    DateTime(i32, u32, u32),
    /// Days, seconds from midnight, nanoseconds.
    LocalDateTime(i32, u32, u32),
    /// Is IPv6, the address bits.
    Address(bool, u128),
    /// Is IPv6, address bits, port, flow information, scope id.
    SocketAddress(bool, u128, u16, u32, u32),
    /// Is IPv6, address bits, prefix length.
    Network(bool, u128, u8),
    Port(u16),
    /// The text of a semantic version.
    Version(String),
    /// The text of a semantic version requirement.
    Requirement(String),
}

impl View for Value {
    type V = Datum;

    open spec fn view(&self) -> Datum {
        match self {
            Value::Integer(x) => Datum::Integer(*x as int),
            Value::Float(b) => Datum::Float(*b),
            Value::Id(s) => Datum::Id(s@),
            Value::Date(d) => Datum::Date(*d as int),
            Value::Time(s, n) => Datum::Time(*s as int, *n as int),
            Value::DateTime(d, s, n) => Datum::DateTime(*d as int, *s as int, *n as int),
            Value::LocalDateTime(d, s, n) => Datum::LocalDateTime(*d as int, *s as int, *n as int),
            Value::Address(v6, a) => Datum::Address(*v6, *a as int),
            Value::SocketAddress(v6, a, p, f, s) => Datum::SocketAddress(
                *v6,
                *a as int,
                *p as int,
                *f as int,
                *s as int,
            ),
            Value::Network(v6, a, p) => Datum::Network(*v6, *a as int, *p as int),
            Value::Port(p) => Datum::Port(*p as int),
            Value::Version(s) => Datum::Version(s@),
            Value::Requirement(s) => Datum::Requirement(s@),
        }
    }
}

/// The value of `word` read as `kind`. Dates and times are read with
/// `format`; a float is the value given to the word in `floats`.
pub open spec fn word_value(kind: Kind, word: Seq<char>, format: Seq<char>, floats: FloatValues) -> Option<Datum> {
    match kind {
        Kind::Float => match floats.value_of(word) {
            Some(b) => Some(Datum::Float(b)),
            None => None,
        },
        _ => plain_value(kind, word, format),
    }
}

/// The value of `word` read as a kind other than float.
pub open spec fn plain_value(kind: Kind, word: Seq<char>, format: Seq<char>) -> Option<Datum> {
    match kind {
        Kind::Integer => match integer_value(word) {
            Some(x) => Some(Datum::Integer(x as int)),
            None => None,
        },
        Kind::Port => match port_value(word) {
            Some(p) => Some(Datum::Port(p as int)),
            None => None,
        },
        Kind::Id => Some(Datum::Id(word)),
        Kind::Date => match naive_date_from_str(word, format) {
            Some(d) => Some(Datum::Date(d as int)),
            None => None,
        },
        Kind::Time => match naive_time_from_str(word, format) {
            Some((s, n)) => Some(Datum::Time(s as int, n as int)),
            None => None,
        },
        Kind::DateTime => match date_time_from_str(word, format) {
            Some((d, s, n)) => Some(Datum::DateTime(d as int, s as int, n as int)),
            None => None,
        },
        Kind::LocalDateTime => match naive_date_time_from_str(word, format) {
            Some((d, s, n)) => Some(Datum::LocalDateTime(d as int, s as int, n as int)),
            None => None,
        },
        Kind::IpAddress => match ip_addr_from_str(word) {
            Some((v6, a)) => Some(Datum::Address(v6, a as int)),
            None => None,
        },
        Kind::Ipv4Address => match ipv4_addr_from_str(word) {
            Some(a) => Some(Datum::Address(false, a as int)),
            None => None,
        },
        Kind::Ipv6Address => match ipv6_addr_from_str(word) {
            Some(a) => Some(Datum::Address(true, a as int)),
            None => None,
        },
        Kind::IpSocketAddress => match socket_addr_from_str(word) {
            Some((v6, a, p, f, s)) => Some(
                Datum::SocketAddress(v6, a as int, p as int, f as int, s as int),
            ),
            None => None,
        },
        Kind::Ipv4SocketAddress => match socket_addr_v4_from_str(word) {
            Some((a, p)) => Some(Datum::SocketAddress(false, a as int, p as int, 0, 0)),
            None => None,
        },
        Kind::Ipv6SocketAddress => match socket_addr_v6_from_str(word) {
            Some((a, p, f, s)) => Some(
                Datum::SocketAddress(true, a as int, p as int, f as int, s as int),
            ),
            None => None,
        },
        Kind::IpNetwork => match ip_net_from_str(word) {
            Some((v6, a, p)) => Some(Datum::Network(v6, a as int, p as int)),
            None => None,
        },
        Kind::Ipv4Network => match ipv4_net_from_str(word) {
            Some((a, p)) => Some(Datum::Network(false, a as int, p as int)),
            None => None,
        },
        Kind::Ipv6Network => match ipv6_net_from_str(word) {
            Some((a, p)) => Some(Datum::Network(true, a as int, p as int)),
            None => None,
        },
        Kind::SemanticVersion => if version_is_valid(word) {
            Some(Datum::Version(word))
        } else {
            None
        },
        Kind::SemanticVersionRequirement => if requirement_is_valid(word) {
            Some(Datum::Requirement(word))
        } else {
            None
        },
        Kind::Float => None,
    }
}

/// The well-formed values: a network's prefix is within its address width.
pub open spec fn well_formed(d: Datum) -> bool {
    match d {
        Datum::Network(v6, _, p) => 0 <= p <= address_width(v6),
        _ => true,
    }
}

/// Reads `word` as `kind`; see `word_value`.
pub fn parse_word(kind: Kind, word: &str, format: &str, floats: &FloatValues) -> (r: Option<Value>)
    ensures
        match r {
            Some(v) => word_value(kind, word@, format@, *floats) == Some(v@) && well_formed(v@),
            None => word_value(kind, word@, format@, *floats) is None,
        },
{
    match kind {
        Kind::Integer => match parse_integer(&chars_of(word)) {
            Some(x) => Some(Value::Integer(x)),
            None => None,
        },
        Kind::Float => match floats.get(word) {
            Some(b) => Some(Value::Float(b)),
            None => None,
        },
        Kind::Port => match parse_port(&chars_of(word)) {
            Some(p) => Some(Value::Port(p)),
            None => None,
        },
        Kind::Id => Some(Value::Id(word.to_owned())),
        Kind::Date => match parse_naive_date(word, format) {
            Some(d) => Some(Value::Date(d)),
            None => None,
        },
        Kind::Time => match parse_naive_time(word, format) {
            Some((s, n)) => Some(Value::Time(s, n)),
            None => None,
        },
        Kind::DateTime => match parse_date_time(word, format) {
            Some((d, s, n)) => Some(Value::DateTime(d, s, n)),
            None => None,
        },
        Kind::LocalDateTime => match parse_naive_date_time(word, format) {
            Some((d, s, n)) => Some(Value::LocalDateTime(d, s, n)),
            None => None,
        },
        Kind::IpAddress => match parse_ip_addr(word) {
            Some((v6, a)) => Some(Value::Address(v6, a)),
            None => None,
        },
        Kind::Ipv4Address => match parse_ipv4_addr(word) {
            Some(a) => Some(Value::Address(false, a as u128)),
            None => None,
        },
        Kind::Ipv6Address => match parse_ipv6_addr(word) {
            Some(a) => Some(Value::Address(true, a)),
            None => None,
        },
        Kind::IpSocketAddress => match parse_socket_addr(word) {
            Some((v6, a, p, f, s)) => Some(Value::SocketAddress(v6, a, p, f, s)),
            None => None,
        },
        Kind::Ipv4SocketAddress => match parse_socket_addr_v4(word) {
            Some((a, p)) => Some(Value::SocketAddress(false, a as u128, p, 0, 0)),
            None => None,
        },
        Kind::Ipv6SocketAddress => match parse_socket_addr_v6(word) {
            Some((a, p, f, s)) => Some(Value::SocketAddress(true, a, p, f, s)),
            None => None,
        },
        Kind::IpNetwork => match parse_ip_net(word) {
            Some((v6, a, p)) => Some(Value::Network(v6, a, p)),
            None => None,
        },
        Kind::Ipv4Network => match parse_ipv4_net(word) {
            Some((a, p)) => Some(Value::Network(false, a as u128, p)),
            None => None,
        },
        Kind::Ipv6Network => match parse_ipv6_net(word) {
            Some((a, p)) => Some(Value::Network(true, a, p)),
            None => None,
        },
        Kind::SemanticVersion => if is_version(word) {
            Some(Value::Version(word.to_owned()))
        } else {
            None
        },
        Kind::SemanticVersionRequirement => if is_requirement(word) {
            Some(Value::Requirement(word.to_owned()))
        } else {
            None
        },
    }
}

/// Lexicographic combination of two comparisons.
pub open spec fn then(first: int, second: int) -> int {
    if first != 0 {
        first
    } else {
        second
    }
}

/// `false` before `true`.
pub open spec fn compare_bools(a: bool, b: bool) -> int {
    if a == b {
        0
    } else if !a {
        -1
    } else {
        1
    }
}

/// The order of two values of the same type (-1, 0 or 1), as the types that
/// they stand for order them; `None` when they are unordered (a NaN, or
/// values of different types). Socket addresses are ordered by family,
/// address and port only.
pub open spec fn order(a: Datum, b: Datum) -> Option<int> {
    match (a, b) {
        (Datum::Integer(x), Datum::Integer(y)) => Some(compare_ints(x, y)),
        (Datum::Float(x), Datum::Float(y)) => float_order(x, y),
        (Datum::Id(x), Datum::Id(y)) => Some(text_order(x, y)),
        (Datum::Date(x), Datum::Date(y)) => Some(compare_ints(x, y)),
        (Datum::Time(s1, n1), Datum::Time(s2, n2)) => Some(
            then(compare_ints(s1, s2), compare_ints(n1, n2)),
        ),
        (Datum::DateTime(d1, s1, n1), Datum::DateTime(d2, s2, n2)) => Some(
            then(compare_ints(d1, d2), then(compare_ints(s1, s2), compare_ints(n1, n2))),
        ),
        (Datum::LocalDateTime(d1, s1, n1), Datum::LocalDateTime(d2, s2, n2)) => Some(
            then(compare_ints(d1, d2), then(compare_ints(s1, s2), compare_ints(n1, n2))),
        ),
        (Datum::Address(f1, a1), Datum::Address(f2, a2)) => Some(
            then(compare_bools(f1, f2), compare_ints(a1, a2)),
        ),
        (Datum::SocketAddress(f1, a1, p1, _, _), Datum::SocketAddress(f2, a2, p2, _, _)) => Some(
            then(compare_bools(f1, f2), then(compare_ints(a1, a2), compare_ints(p1, p2))),
        ),
        (Datum::Network(f1, a1, p1), Datum::Network(f2, a2, p2)) => Some(
            then(compare_bools(f1, f2), then(compare_ints(a1, a2), compare_ints(p1, p2))),
        ),
        (Datum::Port(x), Datum::Port(y)) => Some(compare_ints(x, y)),
        (Datum::Version(x), Datum::Version(y)) => match version_order(x, y) {
            Some(o) => Some(o as int),
            None => None,
        },
        _ => None,
    }
}

/// Whether two values are equal (`==`): for socket addresses all their
/// fields agree (flow information and scope id too), for other values they
/// are ordered as equal (so a NaN equals nothing, and `-0.0` equals `0.0`).
pub open spec fn equals(a: Datum, b: Datum) -> bool {
    match (a, b) {
        (Datum::SocketAddress(..), Datum::SocketAddress(..)) => a == b,
        _ => order(a, b) == Some(0int),
    }
}

/// Whether the network contains the address: same family, and the leading
/// prefix bits agree.
pub open spec fn network_contains(network: Datum, address: Datum) -> bool {
    match (network, address) {
        (Datum::Network(f, n, p), Datum::Address(g, a)) => f == g && prefix_agrees(
            address_width(f),
            p,
            n,
            a,
        ),
        _ => false,
    }
}

/// The comparators of conditions.
#[derive(Debug, PartialEq, Eq, Clone, Copy)]
pub enum Operator {
    Equal,
    NotEqual,
    Greater,
    GreaterOrEqual,
    Less,
    LessOrEqual,
    Contains,
    StartsWith,
    EndsWith,
    In,
    NotIn,
    Matches,
}

/// Whether `value op literal` holds, as `==`, `!=`, `>`, `>=`, `<`, `<=`,
/// `str::contains`, `str::starts_with`, `str::ends_with`, network containment
/// and requirement matching decide it for the types the values stand for.
pub open spec fn holds(op: Operator, value: Datum, literal: Datum) -> bool {
    match op {
        Operator::Equal => equals(value, literal),
        Operator::NotEqual => !equals(value, literal),
        Operator::Greater => order(value, literal) == Some(1int),
        Operator::GreaterOrEqual => order(value, literal) == Some(1int) || order(value, literal)
            == Some(0int),
        Operator::Less => order(value, literal) == Some(-1int),
        Operator::LessOrEqual => order(value, literal) == Some(-1int) || order(value, literal)
            == Some(0int),
        Operator::Contains => match (value, literal) {
            (Datum::Id(x), Datum::Id(y)) => occurs_in(x, y),
            _ => false,
        },
        Operator::StartsWith => match (value, literal) {
            (Datum::Id(x), Datum::Id(y)) => begins_with(x, y),
            _ => false,
        },
        Operator::EndsWith => match (value, literal) {
            (Datum::Id(x), Datum::Id(y)) => finishes_with(x, y),
            _ => false,
        },
        Operator::In => network_contains(literal, value),
        Operator::NotIn => !network_contains(literal, value),
        Operator::Matches => match (value, literal) {
            (Datum::Version(v), Datum::Requirement(r)) => requirement_matches(r, v) == Some(true),
            _ => false,
        },
    }
}

fn compare_i128(a: i128, b: i128) -> (r: i8)
    ensures
        r as int == compare_ints(a as int, b as int),
{
    if a < b {
        -1
    } else if a > b {
        1
    } else {
        0
    }
}

fn compare_u128(a: u128, b: u128) -> (r: i8)
    ensures
        r as int == compare_ints(a as int, b as int),
{
    if a < b {
        -1
    } else if a > b {
        1
    } else {
        0
    }
}

fn compare_flags(a: bool, b: bool) -> (r: i8)
    ensures
        r as int == compare_bools(a, b),
{
    if a == b {
        0
    } else if !a {
        -1
    } else {
        1
    }
}

fn then_exec(first: i8, second: i8) -> (r: i8)
    ensures
        r as int == then(first as int, second as int),
{
    if first != 0 {
        first
    } else {
        second
    }
}

/// The order of two values; see `order`.
pub fn compare_values(a: &Value, b: &Value) -> (r: Option<i8>)
    ensures
        match r {
            Some(x) => order(a@, b@) == Some(x as int),
            None => order(a@, b@) is None,
        },
{
    match (a, b) {
        (Value::Integer(x), Value::Integer(y)) => Some(compare_i128(*x as i128, *y as i128)),
        (Value::Float(x), Value::Float(y)) => compare_floats(*x, *y),
        (Value::Id(x), Value::Id(y)) => Some(
            text_order_exec(&chars_of(x.as_str()), &chars_of(y.as_str())),
        ),
        (Value::Date(x), Value::Date(y)) => Some(compare_i128(*x as i128, *y as i128)),
        (Value::Time(s1, n1), Value::Time(s2, n2)) => Some(
            then_exec(compare_u128(*s1 as u128, *s2 as u128), compare_u128(*n1 as u128, *n2 as u128)),
        ),
        (Value::DateTime(d1, s1, n1), Value::DateTime(d2, s2, n2)) => Some(
            then_exec(
                compare_i128(*d1 as i128, *d2 as i128),
                then_exec(
                    compare_u128(*s1 as u128, *s2 as u128),
                    compare_u128(*n1 as u128, *n2 as u128),
                ),
            ),
        ),
        (Value::LocalDateTime(d1, s1, n1), Value::LocalDateTime(d2, s2, n2)) => Some(
            then_exec(
                compare_i128(*d1 as i128, *d2 as i128),
                then_exec(
                    compare_u128(*s1 as u128, *s2 as u128),
                    compare_u128(*n1 as u128, *n2 as u128),
                ),
            ),
        ),
        (Value::Address(f1, a1), Value::Address(f2, a2)) => Some(
            then_exec(compare_flags(*f1, *f2), compare_u128(*a1, *a2)),
        ),
        (Value::SocketAddress(f1, a1, p1, _, _), Value::SocketAddress(f2, a2, p2, _, _)) => Some(
            then_exec(
                compare_flags(*f1, *f2),
                then_exec(compare_u128(*a1, *a2), compare_u128(*p1 as u128, *p2 as u128)),
            ),
        ),
        (Value::Network(f1, a1, p1), Value::Network(f2, a2, p2)) => Some(
            then_exec(
                compare_flags(*f1, *f2),
                then_exec(compare_u128(*a1, *a2), compare_u128(*p1 as u128, *p2 as u128)),
            ),
        ),
        (Value::Port(x), Value::Port(y)) => Some(compare_u128(*x as u128, *y as u128)),
        (Value::Version(x), Value::Version(y)) => compare_versions(x.as_str(), y.as_str()),
        _ => None,
    }
}

/// Whether two values are equal; see `equals`.
pub fn equal_values(a: &Value, b: &Value) -> (r: bool)
    ensures
        r == equals(a@, b@),
{
    match (a, b) {
        (Value::SocketAddress(f1, a1, p1, i1, s1), Value::SocketAddress(f2, a2, p2, i2, s2)) => *f1
            == *f2 && *a1 == *a2 && *p1 == *p2 && *i1 == *i2 && *s1 == *s2,
        _ => compare_values(a, b) == Some(0i8),
    }
}

/// Whether the network contains the address; see `network_contains`.
pub fn contains_address(network: &Value, address: &Value) -> (r: bool)
    requires
        well_formed(network@),
    ensures
        r == network_contains(network@, address@),
{
    match (network, address) {
        (Value::Network(f, n, p), Value::Address(g, a)) => {
            if *f != *g {
                return false;
            }
            let width: u32 = if *f {
                128
            } else {
                32
            };
            leading_bits_agree(width, *p, *n, *a)
        },
        _ => false,
    }
}

/// Whether `value op literal` holds; see `holds`.
pub fn satisfies(op: Operator, value: &Value, literal: &Value) -> (r: bool)
    requires
        well_formed(literal@),
    ensures
        r == holds(op, value@, literal@),
{
    match op {
        Operator::Equal => equal_values(value, literal),
        Operator::NotEqual => !equal_values(value, literal),
        Operator::Greater => compare_values(value, literal) == Some(1i8),
        Operator::GreaterOrEqual => {
            let o = compare_values(value, literal);
            o == Some(1i8) || o == Some(0i8)
        },
        Operator::Less => compare_values(value, literal) == Some(-1i8),
        Operator::LessOrEqual => {
            let o = compare_values(value, literal);
            o == Some(-1i8) || o == Some(0i8)
        },
        Operator::Contains => match (value, literal) {
            (Value::Id(x), Value::Id(y)) => occurs_in_exec(&chars_of(x.as_str()), &chars_of(y.as_str())),
            _ => false,
        },
        Operator::StartsWith => match (value, literal) {
            (Value::Id(x), Value::Id(y)) => occurs_at_exec(&chars_of(x.as_str()), 0, &chars_of(y.as_str())),
            _ => false,
        },
        Operator::EndsWith => match (value, literal) {
            (Value::Id(x), Value::Id(y)) => {
                let xs = chars_of(x.as_str());
                let ys = chars_of(y.as_str());
                if ys.len() > xs.len() {
                    false
                } else {
                    occurs_at_exec(&xs, xs.len() - ys.len(), &ys)
                }
            },
            _ => false,
        },
        Operator::In => contains_address(literal, value),
        Operator::NotIn => !contains_address(literal, value),
        Operator::Matches => match (value, literal) {
            (Value::Version(v), Value::Requirement(r)) => matches_requirement(r.as_str(), v.as_str())
                == Some(true),
            _ => false,
        },
    }
}

} // verus!
