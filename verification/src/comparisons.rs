//! Laws of the comparisons that conditions make, stated over the parts of
//! the values compared: which of two values is smaller, when they are
//! equal, and what the text tests of identifiers accept.
use vstd::prelude::*;

use crate::addresses::address_width;
use crate::expression::{apply_function, Function};
use crate::numbers::{all_digits, integer_value};
use crate::text::text_order;
use crate::versions::{requirement_matches, version_order};
use crate::values::{holds, Datum, Operator};

verus! {

/// `(d1, s1, n1)` comes before `(d2, s2, n2)`: the first part decides, then
/// the second, then the third.
pub open spec fn before(d1: int, s1: int, n1: int, d2: int, s2: int, n2: int) -> bool {
    d1 < d2 || (d1 == d2 && (s1 < s2 || (s1 == s2 && n1 < n2)))
}

/// What the six basic comparators give on two values, given which comes
/// before the other and whether they are equal.
pub open spec fn compares_as(x: Datum, y: Datum, less: bool, greater: bool, equal: bool) -> bool {
    &&& holds(Operator::Less, x, y) == less
    &&& holds(Operator::Greater, x, y) == greater
    &&& holds(Operator::Equal, x, y) == equal
    &&& holds(Operator::NotEqual, x, y) == !equal
    &&& holds(Operator::LessOrEqual, x, y) == !greater
    &&& holds(Operator::GreaterOrEqual, x, y) == !less
}

/// Integers and ports compare as numbers.
pub proof fn lemma_integer_order(x: int, y: int)
    ensures
        compares_as(Datum::Integer(x), Datum::Integer(y), x < y, x > y, x == y),
        compares_as(Datum::Port(x), Datum::Port(y), x < y, x > y, x == y),
{
}

/// Dates compare by day; times by second of the day, then nanosecond.
pub proof fn lemma_date_and_time_order(d1: int, d2: int, s1: int, n1: int, s2: int, n2: int)
    ensures
        compares_as(Datum::Date(d1), Datum::Date(d2), d1 < d2, d1 > d2, d1 == d2),
        compares_as(
            Datum::Time(s1, n1),
            Datum::Time(s2, n2),
            before(0, s1, n1, 0, s2, n2),
            before(0, s2, n2, 0, s1, n1),
            s1 == s2 && n1 == n2,
        ),
{
}

/// Date-times (by their UTC instant) and local date-times compare by day,
/// then second of the day, then nanosecond: values on different days are
/// ordered as their days are, whatever their times.
pub proof fn lemma_date_time_order(d1: int, s1: int, n1: int, d2: int, s2: int, n2: int)
    ensures
        compares_as(
            Datum::DateTime(d1, s1, n1),
            Datum::DateTime(d2, s2, n2),
            before(d1, s1, n1, d2, s2, n2),
            before(d2, s2, n2, d1, s1, n1),
            d1 == d2 && s1 == s2 && n1 == n2,
        ),
        compares_as(
            Datum::LocalDateTime(d1, s1, n1),
            Datum::LocalDateTime(d2, s2, n2),
            before(d1, s1, n1, d2, s2, n2),
            before(d2, s2, n2, d1, s1, n1),
            d1 == d2 && s1 == s2 && n1 == n2,
        ),
{
}

/// The family as a number: IPv4 before IPv6.
pub open spec fn family(v6: bool) -> int {
    if v6 {
        1
    } else {
        0
    }
}

/// Addresses compare by family (IPv4 first), then by address; networks by
/// family, address, then prefix length.
pub proof fn lemma_address_order(f1: bool, a1: int, p1: int, f2: bool, a2: int, p2: int)
    ensures
        compares_as(
            Datum::Address(f1, a1),
            Datum::Address(f2, a2),
            before(family(f1), a1, 0, family(f2), a2, 0),
            before(family(f2), a2, 0, family(f1), a1, 0),
            f1 == f2 && a1 == a2,
        ),
        compares_as(
            Datum::Network(f1, a1, p1),
            Datum::Network(f2, a2, p2),
            before(family(f1), a1, p1, family(f2), a2, p2),
            before(family(f2), a2, p2, family(f1), a1, p1),
            f1 == f2 && a1 == a2 && p1 == p2,
        ),
{
}

/// Socket addresses order by family, then address, then port: two of the
/// same family with different addresses are ordered as their addresses
/// are, whatever their ports. They are equal when all their parts are,
/// flow information and scope id included.
pub proof fn lemma_socket_address_order(f1: bool, a1: int, p1: int, i1: int, s1: int, f2: bool, a2: int, p2: int, i2: int, s2: int)
    ensures
        compares_as(
            Datum::SocketAddress(f1, a1, p1, i1, s1),
            Datum::SocketAddress(f2, a2, p2, i2, s2),
            before(family(f1), a1, p1, family(f2), a2, p2),
            before(family(f2), a2, p2, family(f1), a1, p1),
            f1 == f2 && a1 == a2 && p1 == p2 && i1 == i2 && s1 == s2,
        ),
{
}

/// The sign bit of a double's bits.
pub open spec fn negative_bits(x: u64) -> bool {
    x >= 0x8000_0000_0000_0000u64
}

/// The bits of a double without its sign bit.
pub open spec fn magnitude_bits(x: u64) -> int {
    (x % 0x8000_0000_0000_0000u64) as int
}

/// A double that is not a number: all exponent bits set and a non-zero
/// mantissa.
pub open spec fn not_a_number(x: u64) -> bool {
    magnitude_bits(x) > 0x7ff0_0000_0000_0000
}

/// The real value of the double `x` is below that of `y`: a negative
/// value is below every positive one (zeros of either sign are equal), two
/// positive values are ordered by their magnitudes, and two negative ones
/// the other way round.
pub open spec fn real_below(x: u64, y: u64) -> bool {
    if !negative_bits(x) && !negative_bits(y) {
        magnitude_bits(x) < magnitude_bits(y)
    } else if negative_bits(x) && negative_bits(y) {
        magnitude_bits(x) > magnitude_bits(y)
    } else if negative_bits(x) {
        !(magnitude_bits(x) == 0 && magnitude_bits(y) == 0)
    } else {
        false
    }
}

/// Doubles compare as IEEE-754 says: by their real values, with `-0.0`
/// equal to `0.0`; a NaN is unordered, equal to nothing and unequal to
/// everything.
pub proof fn lemma_float_order(x: u64, y: u64)
    ensures
        !not_a_number(x) && !not_a_number(y) ==> compares_as(
            Datum::Float(x),
            Datum::Float(y),
            real_below(x, y),
            real_below(y, x),
            magnitude_bits(x) == magnitude_bits(y) && (negative_bits(x) == negative_bits(y)
                || magnitude_bits(x) == 0),
        ),
        not_a_number(x) || not_a_number(y) ==> {
            &&& !holds(Operator::Less, Datum::Float(x), Datum::Float(y))
            &&& !holds(Operator::Greater, Datum::Float(x), Datum::Float(y))
            &&& !holds(Operator::Equal, Datum::Float(x), Datum::Float(y))
            &&& holds(Operator::NotEqual, Datum::Float(x), Datum::Float(y))
            &&& !holds(Operator::LessOrEqual, Datum::Float(x), Datum::Float(y))
            &&& !holds(Operator::GreaterOrEqual, Datum::Float(x), Datum::Float(y))
        },
{
    assert(magnitude_bits(x) == if x >= 0x8000_0000_0000_0000u64 {
        x - 0x8000_0000_0000_0000u64
    } else {
        x as int
    });
    assert(magnitude_bits(y) == if y >= 0x8000_0000_0000_0000u64 {
        y - 0x8000_0000_0000_0000u64
    } else {
        y as int
    });
}

proof fn lemma_text_order_first_difference(x: Seq<char>, y: Seq<char>, k: int)
    requires
        0 <= k < x.len(),
        k < y.len(),
        x.subrange(0, k) == y.subrange(0, k),
        (x[k] as u32) < (y[k] as u32),
    ensures
        text_order(x, y) == -1,
        text_order(y, x) == 1,
    decreases k,
{
    if k > 0 {
        assert(x.subrange(0, k)[0] == x[0]);
        assert(y.subrange(0, k)[0] == y[0]);
        assert(x[0] == y[0]);
        assert(x.drop_first().subrange(0, k - 1) =~= y.drop_first().subrange(0, k - 1)) by {
            assert forall|i: int| 0 <= i < k - 1 implies x.drop_first()[i] == y.drop_first()[i] by {
                assert(x.subrange(0, k)[i + 1] == x[i + 1]);
                assert(y.subrange(0, k)[i + 1] == y[i + 1]);
            }
        }
        assert(x.drop_first()[k - 1] == x[k]);
        assert(y.drop_first()[k - 1] == y[k]);
        lemma_text_order_first_difference(x.drop_first(), y.drop_first(), k - 1);
    }
}

proof fn lemma_text_order_prefix(x: Seq<char>, y: Seq<char>)
    requires
        x.len() < y.len(),
        y.subrange(0, x.len() as int) == x,
    ensures
        text_order(x, y) == -1,
        text_order(y, x) == 1,
    decreases x.len(),
{
    if x.len() > 0 {
        assert(y.subrange(0, x.len() as int)[0] == y[0]);
        assert(y.drop_first().subrange(0, x.len() - 1) =~= x.drop_first()) by {
            assert forall|i: int| 0 <= i < x.len() - 1 implies y.drop_first()[i] == x.drop_first()[i] by {
                assert(y.subrange(0, x.len() as int)[i + 1] == x[i + 1]);
            }
        }
        lemma_text_order_prefix(x.drop_first(), y.drop_first());
    }
}

proof fn lemma_text_order_same(x: Seq<char>, y: Seq<char>)
    ensures
        x == y ==> text_order(x, y) == 0,
        text_order(x, y) == 0 ==> x.len() == y.len() && forall|i: int|
            0 <= i < x.len() ==> (#[trigger] x[i] as u32) == (y[i] as u32),
    decreases x.len(),
{
    if x.len() > 0 && y.len() > 0 {
        lemma_text_order_same(x.drop_first(), y.drop_first());
        if text_order(x, y) == 0 {
            assert forall|i: int| 0 <= i < x.len() implies (#[trigger] x[i] as u32) == (
            y[i] as u32) by {
                if i > 0 {
                    assert(x.drop_first()[i - 1] == x[i]);
                    assert(y.drop_first()[i - 1] == y[i]);
                }
            }
        }
    }
}

/// Identifiers compare as strings by character code. Where `x` and `y`
/// first differ at index `k`, the one with the smaller character there is
/// the smaller; `x` is smaller than every longer identifier it begins; a
/// text equals itself, and equal identifiers have the same characters.
pub proof fn lemma_id_order(x: Seq<char>, y: Seq<char>, k: int)
    ensures
        0 <= k < x.len() && k < y.len() && x.subrange(0, k) == y.subrange(0, k) && (x[k] as u32)
            < (y[k] as u32) ==> compares_as(Datum::Id(x), Datum::Id(y), true, false, false),
        x.len() < y.len() && y.subrange(0, x.len() as int) == x ==> compares_as(
            Datum::Id(x),
            Datum::Id(y),
            true,
            false,
            false,
        ),
        x == y ==> holds(Operator::Equal, Datum::Id(x), Datum::Id(y)),
        holds(Operator::Equal, Datum::Id(x), Datum::Id(y)) ==> x.len() == y.len() && forall|i: int|
            0 <= i < x.len() ==> (#[trigger] x[i] as u32) == (y[i] as u32),
        holds(Operator::Greater, Datum::Id(x), Datum::Id(y)) <==> holds(
            Operator::Less,
            Datum::Id(y),
            Datum::Id(x),
        ),
{
    if 0 <= k < x.len() && k < y.len() && x.subrange(0, k) == y.subrange(0, k) && (x[k] as u32)
        < (y[k] as u32) {
        lemma_text_order_first_difference(x, y, k);
    }
    if x.len() < y.len() && y.subrange(0, x.len() as int) == x {
        lemma_text_order_prefix(x, y);
    }
    lemma_text_order_same(x, y);
    lemma_text_order_converse(x, y);
}

proof fn lemma_text_order_converse(x: Seq<char>, y: Seq<char>)
    ensures
        text_order(x, y) == -text_order(y, x),
    decreases x.len(),
{
    if x.len() > 0 && y.len() > 0 {
        lemma_text_order_converse(x.drop_first(), y.drop_first());
    }
}

/// The text tests of identifiers: `starts-with y` accepts the words whose
/// first `|y|` characters are `y`, `ends-with y` those whose last `|y|`
/// characters are `y`, and `contains y` those with `y` at some index.
pub proof fn lemma_id_text_tests(x: Seq<char>, y: Seq<char>)
    ensures
        holds(Operator::StartsWith, Datum::Id(x), Datum::Id(y)) <==> (y.len() <= x.len()
            && x.subrange(0, y.len() as int) == y),
        holds(Operator::EndsWith, Datum::Id(x), Datum::Id(y)) <==> (y.len() <= x.len()
            && x.subrange(x.len() - y.len(), x.len() as int) == y),
        holds(Operator::Contains, Datum::Id(x), Datum::Id(y)) <==> exists|k: int|
            0 <= k && k + y.len() <= x.len() && #[trigger] x.subrange(k, k + y.len()) == y,
{
    if holds(Operator::Contains, Datum::Id(x), Datum::Id(y)) {
        let k = choose|k: int| 0 <= k && #[trigger] crate::text::occurs_at(x, k, y);
        assert(x.subrange(k, k + y.len()) == y);
    }
    if exists|k: int| 0 <= k && k + y.len() <= x.len() && #[trigger] x.subrange(k, k + y.len()) == y {
        let k = choose|k: int|
            0 <= k && k + y.len() <= x.len() && #[trigger] x.subrange(k, k + y.len()) == y;
        assert(crate::text::occurs_at(x, k, y));
    }
}

/// Network membership (`in`, and `not in` as its negation): an address is
/// never in a network of the other family; every address of the family is
/// in a network with prefix length 0; and with a full-length prefix only the
/// network's own address is in it.
pub proof fn lemma_network_membership(f: bool, a: int, g: bool, n: int, p: int)
    ensures
        holds(Operator::NotIn, Datum::Address(f, a), Datum::Network(g, n, p)) == !holds(
            Operator::In,
            Datum::Address(f, a),
            Datum::Network(g, n, p),
        ),
        f != g ==> !holds(Operator::In, Datum::Address(f, a), Datum::Network(g, n, p)),
        f == g && p == 0 ==> holds(Operator::In, Datum::Address(f, a), Datum::Network(g, n, p)),
        f == g && p == address_width(f) ==> (holds(
            Operator::In,
            Datum::Address(f, a),
            Datum::Network(g, n, p),
        ) <==> a == n),
{
    vstd::arithmetic::power2::lemma2_to64();
    if f == g && p == address_width(f) {
        assert(((address_width(f) - p) as nat) == 0);
        assert(vstd::arithmetic::power2::pow2(0) == 1);
        assert(n / 1 == n);
        assert(a / 1 == a);
    }
}

/// The functions of socket addresses: `port(..)` gives the port, `ip(..)`
/// the address with its family, and neither applies to other values.
pub proof fn lemma_socket_functions(f: bool, a: int, p: int, i: int, s: int, d: Datum)
    ensures
        apply_function(Function::Port, Datum::SocketAddress(f, a, p, i, s)) == Some(
            Datum::Port(p),
        ),
        apply_function(Function::Ip, Datum::SocketAddress(f, a, p, i, s)) == Some(
            Datum::Address(f, a),
        ),
        apply_function(Function::Plain, d) == Some(d),
        !(d is SocketAddress) ==> apply_function(Function::Port, d) is None && apply_function(
            Function::Ip,
            d,
        ) is None,
{
}

/// The value of a decimal digit.
pub open spec fn digit_of(c: char) -> int {
    (c as u32) - ('0' as u32)
}

/// Reading integers: a digit alone is its value; a digit appended to a
/// run of digits multiplies the value by ten and adds the digit (while it
/// fits in `i64`); a `+` sign changes nothing and a `-` sign negates; a
/// word that starts with any other character, or has no digit, is not an
/// integer.
pub proof fn lemma_integer_words(d: Seq<char>, c: char, v: i64)
    ensures
        '0' <= c <= '9' ==> (integer_value(seq![c]) matches Some(v) && v == digit_of(c)),
        integer_value(d) == Some(v) && all_digits(d) && '0' <= c <= '9' && 10 * v + digit_of(c)
            <= i64::MAX ==> (integer_value(d + seq![c]) matches Some(w) && w == 10 * v + digit_of(
            c,
        )),
        all_digits(d) ==> integer_value(seq!['+'] + d) == integer_value(d),
        integer_value(d) == Some(v) && all_digits(d) ==> (integer_value(seq!['-'] + d) matches Some(
            w,
        ) && w == -v),
        !(c == '+' || c == '-' || ('0' <= c <= '9')) ==> integer_value(seq![c] + d) is None,
        integer_value(Seq::<char>::empty()) is None,
        integer_value(seq!['-']) is None,
{
    assert((seq!['+'] + d).drop_first() =~= d);
    assert((seq!['-'] + d).drop_first() =~= d);
    assert((d + seq![c]).drop_last() =~= d);
    assert(seq![c].drop_last() =~= Seq::<char>::empty());
    assert(seq!['-'].drop_first() =~= Seq::<char>::empty());
    if '0' <= c <= '9' {
        assert(all_digits(seq![c]));
        assert(crate::numbers::digits_value(seq![c]) == digit_of(c));
    }
    if all_digits(d) {
        assert(crate::numbers::is_digit(d[0]));
        assert((seq!['+'] + d)[0] == '+');
        assert((seq!['-'] + d)[0] == '-');
    }
    if all_digits(d) && '0' <= c <= '9' {
        assert(all_digits(d + seq![c])) by {
            assert forall|i: int| 0 <= i < (d + seq![c]).len() implies crate::numbers::is_digit(
                #[trigger] (d + seq![c])[i],
            ) by {
                if i < d.len() {
                    assert(crate::numbers::is_digit(d[i]));
                }
            }
        }
        assert((d + seq![c])[0] == d[0]);
        assert((d + seq![c]).last() == c);
    }
    if !(c == '+' || c == '-' || ('0' <= c <= '9')) {
        assert((seq![c] + d)[0] == c);
        assert(!crate::numbers::is_digit((seq![c] + d)[0]));
    }
}

/// Semantic versions compare as `semver` orders the versions read from
/// their texts (when both read as versions), and `matches` holds when `semver` says the version meets
/// the requirement.
pub proof fn lemma_version_order(x: Seq<char>, y: Seq<char>, r: Seq<char>)
    ensures
        version_order(x, y) == Some(-1i8) || version_order(x, y) == Some(0i8) || version_order(x, y)
            == Some(1i8) ==> compares_as(
            Datum::Version(x),
            Datum::Version(y),
            version_order(x, y) == Some(-1i8),
            version_order(x, y) == Some(1i8),
            version_order(x, y) == Some(0i8),
        ),
        holds(Operator::Matches, Datum::Version(x), Datum::Requirement(r)) <==> requirement_matches(
            r,
            x,
        ) == Some(true),
{
}

} // verus!
