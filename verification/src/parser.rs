//! Reading the words of tokens as typed terms.
use vstd::prelude::*;

use std::collections::HashSet;

use crate::floats::FloatValues;
use crate::numbers::{integer_value, parse_integer};
use crate::text::chars_of;
use crate::tokenizer::{Position, Token};
use crate::values::{parse_word, plain_value, Datum, Kind, Value};

verus! {

broadcast use vstd::std_specs::hash::group_hash_axioms;

/// An identifier: any word.
pub type Id = String;

/// A double, given by its IEEE-754 bits (`f64::to_bits`).
#[derive(Debug, PartialEq, Eq, Clone, Copy)]
pub struct Float(pub u64);

impl View for Float {
    type V = u64;

    open spec fn view(&self) -> u64 {
        self.0
    }
}

/// The type that words are read as, with what reading them takes: the
/// format of dates and times, and the values of floats.
pub enum Class {
    Integer,
    Float(FloatValues),
    Id,
    Date(String),
    Time(String),
    DateTime(String),
    LocalDateTime(String),
    IpAddress,
    Ipv4Address,
    Ipv6Address,
    IpSocketAddress,
    Ipv4SocketAddress,
    Ipv6SocketAddress,
    IpNetwork,
    Ipv4Network,
    Ipv6Network,
    SemanticVersion,
    SemanticVersionRequirement,
    Port,
}

/// The kind of word of a class.
pub open spec fn class_kind(class: Class) -> Kind {
    match class {
        Class::Integer => Kind::Integer,
        Class::Float(_) => Kind::Float,
        Class::Id => Kind::Id,
        Class::Date(_) => Kind::Date,
        Class::Time(_) => Kind::Time,
        Class::DateTime(_) => Kind::DateTime,
        Class::LocalDateTime(_) => Kind::LocalDateTime,
        Class::IpAddress => Kind::IpAddress,
        Class::Ipv4Address => Kind::Ipv4Address,
        Class::Ipv6Address => Kind::Ipv6Address,
        Class::IpSocketAddress => Kind::IpSocketAddress,
        Class::Ipv4SocketAddress => Kind::Ipv4SocketAddress,
        Class::Ipv6SocketAddress => Kind::Ipv6SocketAddress,
        Class::IpNetwork => Kind::IpNetwork,
        Class::Ipv4Network => Kind::Ipv4Network,
        Class::Ipv6Network => Kind::Ipv6Network,
        Class::SemanticVersion => Kind::SemanticVersion,
        Class::SemanticVersionRequirement => Kind::SemanticVersionRequirement,
        Class::Port => Kind::Port,
    }
}

/// The value of `word` read as `class`.
pub open spec fn class_value(class: Class, word: Seq<char>) -> Option<Datum> {
    match class {
        Class::Float(floats) => match floats.value_of(word) {
            Some(b) => Some(Datum::Float(b)),
            None => None,
        },
        Class::Date(format) => plain_value(Kind::Date, word, format@),
        Class::Time(format) => plain_value(Kind::Time, word, format@),
        Class::DateTime(format) => plain_value(Kind::DateTime, word, format@),
        Class::LocalDateTime(format) => plain_value(Kind::LocalDateTime, word, format@),
        _ => plain_value(class_kind(class), word, Seq::empty()),
    }
}

/// Why a word could not be read.
#[derive(Debug, PartialEq, Eq, Clone, Copy)]
pub enum WordError {
    /// The type cannot be read as this class.
    IncompatibleClass,
    /// The word is not a value of the class.
    Invalid,
}

/// Types that words can be read as.
pub trait FromWord: Sized + View {
    /// The classes that the type is read as.
    spec fn accepts(class: Class) -> bool;

    /// The value of `word` read as `class`.
    spec fn read(word: Seq<char>, class: Class) -> Option<Self::V>;

    fn from_word(word: &str, class: &Class) -> (r: Result<Self, WordError>)
        ensures
            match r {
                Ok(v) => Self::accepts(*class) && Self::read(word@, *class) == Some(v@),
                Err(e) => Self::read(word@, *class) is None && (e == WordError::IncompatibleClass
                    <==> !Self::accepts(*class)),
            },
    ;
}

impl FromWord for i64 {
    open spec fn accepts(class: Class) -> bool {
        class is Integer
    }

    open spec fn read(word: Seq<char>, class: Class) -> Option<i64> {
        if class is Integer {
            integer_value(word)
        } else {
            None
        }
    }

    /// `i64::from_str` for the integer class.
    fn from_word(word: &str, class: &Class) -> (r: Result<i64, WordError>) {
        match class {
            Class::Integer => match parse_integer(&chars_of(word)) {
                Some(x) => Ok(x),
                None => Err(WordError::Invalid),
            },
            _ => Err(WordError::IncompatibleClass),
        }
    }
}

impl FromWord for String {
    open spec fn accepts(class: Class) -> bool {
        class is Id
    }

    open spec fn read(word: Seq<char>, class: Class) -> Option<Seq<char>> {
        if class is Id {
            Some(word)
        } else {
            None
        }
    }

    /// Any word is an identifier.
    fn from_word(word: &str, class: &Class) -> (r: Result<String, WordError>) {
        match class {
            Class::Id => Ok(word.to_owned()),
            _ => Err(WordError::IncompatibleClass),
        }
    }
}

impl FromWord for Float {
    open spec fn accepts(class: Class) -> bool {
        class is Float
    }

    open spec fn read(word: Seq<char>, class: Class) -> Option<u64> {
        match class {
            Class::Float(floats) => floats.value_of(word),
            _ => None,
        }
    }

    /// The value given to the word, for the float class.
    fn from_word(word: &str, class: &Class) -> (r: Result<Float, WordError>) {
        match class {
            Class::Float(floats) => match floats.get(word) {
                Some(b) => Ok(Float(b)),
                None => Err(WordError::Invalid),
            },
            _ => Err(WordError::IncompatibleClass),
        }
    }
}

impl FromWord for Value {
    open spec fn accepts(class: Class) -> bool {
        true
    }

    open spec fn read(word: Seq<char>, class: Class) -> Option<Datum> {
        class_value(class, word)
    }

    /// The value of the word in any class.
    fn from_word(word: &str, class: &Class) -> (r: Result<Value, WordError>) {
        let none = FloatValues::new();
        let read = match class {
            Class::Float(floats) => parse_word(Kind::Float, word, "", floats),
            Class::Date(format) => parse_word(Kind::Date, word, format.as_str(), &none),
            Class::Time(format) => parse_word(Kind::Time, word, format.as_str(), &none),
            Class::DateTime(format) => parse_word(Kind::DateTime, word, format.as_str(), &none),
            Class::LocalDateTime(format) => parse_word(
                Kind::LocalDateTime,
                word,
                format.as_str(),
                &none,
            ),
            _ => {
                let kind = match class {
                    Class::Integer => Kind::Integer,
                    Class::Id => Kind::Id,
                    Class::IpAddress => Kind::IpAddress,
                    Class::Ipv4Address => Kind::Ipv4Address,
                    Class::Ipv6Address => Kind::Ipv6Address,
                    Class::IpSocketAddress => Kind::IpSocketAddress,
                    Class::Ipv4SocketAddress => Kind::Ipv4SocketAddress,
                    Class::Ipv6SocketAddress => Kind::Ipv6SocketAddress,
                    Class::IpNetwork => Kind::IpNetwork,
                    Class::Ipv4Network => Kind::Ipv4Network,
                    Class::Ipv6Network => Kind::Ipv6Network,
                    Class::SemanticVersion => Kind::SemanticVersion,
                    Class::SemanticVersionRequirement => Kind::SemanticVersionRequirement,
                    _ => Kind::Port,
                };
                proof {
                    reveal_strlit("");
                }
                parse_word(kind, word, "", &none)
            },
        };
        match read {
            Some(v) => Ok(v),
            None => Err(WordError::Invalid),
        }
    }
}

/// A typed value found at a token position.
#[derive(Debug, PartialEq)]
pub struct Term<T> {
    pub position: Position,
    pub value: T,
}

impl<T: View> View for Term<T> {
    type V = (usize, T::V);

    open spec fn view(&self) -> (usize, T::V) {
        (self.position, self.value@)
    }
}

/// The terms of the tokens: each word token that reads as `class`, with its
/// position, in token order.
pub open spec fn terms_of<T: FromWord>(tokens: Seq<Token>, class: Class) -> Seq<(usize, T::V)>
    decreases tokens.len(),
{
    if tokens.len() == 0 {
        Seq::empty()
    } else {
        let earlier = terms_of::<T>(tokens.drop_last(), class);
        let t = tokens.last();
        match T::read(t.word@, class) {
            Some(v) => if !t.separator {
                earlier.push((t.position, v))
            } else {
                earlier
            },
            None => earlier,
        }
    }
}

impl<T: FromWord> Term<T> {
    /// The terms of the tokens; see `terms_of`.
    pub fn from_tokens(tokens: &Vec<Token>, class: &Class) -> (r: Vec<Term<T>>)
        ensures
            r@.map_values(|t: Term<T>| t@) == terms_of::<T>(tokens@, *class),
    {
        let mut result: Vec<Term<T>> = Vec::new();
        let mut i: usize = 0;
        while i < tokens.len()
            invariant
                0 <= i <= tokens.len(),
                result@.map_values(|t: Term<T>| t@) == terms_of::<T>(
                    tokens@.take(i as int),
                    *class,
                ),
            decreases tokens.len() - i,
        {
            let token = &tokens[i];
            let ghost before = result@;
            assert(tokens@.take(i + 1).drop_last() =~= tokens@.take(i as int));
            assert(tokens@.take(i + 1).last() == tokens@[i as int]);
            if !token.separator {
                match T::from_word(token.word.as_str(), class) {
                    Ok(value) => {
                        result.push(Term { position: token.position, value });
                        assert(result@.map_values(|t: Term<T>| t@) =~= before.map_values(
                            |t: Term<T>| t@,
                        ).push((token.position, value@)));
                    },
                    Err(_) => {},
                }
            }
            i = i + 1;
        }
        assert(tokens@.take(tokens.len() as int) =~= tokens@);
        result
    }
}

/// The positions of the terms that satisfy the predicate.
pub fn matches<T, P>(terms: &Vec<Term<T>>, predicate: P) -> (r: HashSet<Position>) where
    P: Fn(&Term<T>) -> bool,

    requires
        forall|i: int| 0 <= i < terms.len() ==> predicate.requires((&terms@[i],)),
    ensures
        forall|x: usize|
            r@.contains(x) ==> exists|i: int|
                0 <= i < terms.len() && (#[trigger] terms@[i]).position == x
                    && predicate.ensures((&terms@[i],), true),
        forall|i: int|
            0 <= i < terms.len() && (forall|b: bool| #[trigger]
                predicate.ensures((&terms@[i],), b) ==> b) ==> r@.contains(
                (#[trigger] terms@[i]).position,
            ),
{
    let mut set: HashSet<Position> = HashSet::new();
    let mut i: usize = 0;
    while i < terms.len()
        invariant
            0 <= i <= terms.len(),
            forall|k: int| 0 <= k < terms.len() ==> predicate.requires((&terms@[k],)),
            forall|x: usize|
                set@.contains(x) ==> exists|k: int|
                    0 <= k < i && (#[trigger] terms@[k]).position == x && predicate.ensures(
                        (&terms@[k],),
                        true,
                    ),
            forall|k: int|
                0 <= k < i && (forall|b: bool| #[trigger]
                    predicate.ensures((&terms@[k],), b) ==> b) ==> set@.contains(
                    (#[trigger] terms@[k]).position,
                ),
        decreases terms.len() - i,
    {
        let term = &terms[i];
        let selected = predicate(term);
        if selected {
            set.insert(term.position);
        }
        i = i + 1;
    }
    set
}

} // verus!
