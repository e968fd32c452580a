use chrono::{DateTime, Datelike, NaiveDate, NaiveDateTime, NaiveTime, Timelike};

use semfilter::floats::FloatValues;
use semfilter::parser::{Class, Float, FromWord, Id, Term, WordError};
use semfilter::tokenizer::Token;
use semfilter::values::Value;

/// The float class with the doubles of the words that read as one.
fn float_class(words: &[&str]) -> Class {
    let mut floats = FloatValues::new();
    for word in words {
        if let Ok(value) = word.parse::<f64>() {
            floats.insert(word, value.to_bits());
        }
    }
    Class::Float(floats)
}

fn float_of(word: &str) -> Float {
    Float(word.parse::<f64>().unwrap().to_bits())
}

fn token(position: usize, separator: bool, word: &str) -> Token {
    Token { position, separator, word: String::from(word) }
}

fn sentence() -> Vec<Token> {
    vec![
        token(0, false, "integer"),
        token(1, true, " "),
        token(2, false, "8"),
        token(3, true, " "),
        token(4, false, "and"),
        token(5, true, " "),
        token(6, false, "float"),
        token(7, true, " "),
        token(8, false, "5.5"),
    ]
}

#[test]
fn new_integer() {
    let integer = 8;
    let ok = i64::from_word(&integer.to_string(), &Class::Integer);
    let err_1 = i64::from_word("5.5", &Class::Integer);
    let err_2 = i64::from_word("word", &Class::Integer);
    assert_eq!(integer, ok.unwrap());
    assert_eq!(true, err_1.is_err());
    assert_eq!(true, err_2.is_err());
}

#[test]
fn new_float() {
    let float = 5.5;
    let integer = 8;
    let class = float_class(&[&float.to_string(), &integer.to_string(), "word"]);
    let ok_1 = Float::from_word(&float.to_string(), &class);
    let ok_2 = Float::from_word(&integer.to_string(), &class);
    let err = Float::from_word("word", &class);
    assert_eq!(float, f64::from_bits(ok_1.unwrap().0));
    assert_eq!(integer as f64, f64::from_bits(ok_2.unwrap().0));
    assert_eq!(true, err.is_err());
}

#[test]
fn new_id() {
    let float = "5.5";
    let integer = "8";
    let id = "test";
    let ok_1 = Id::from_word(float, &Class::Id);
    let ok_2 = Id::from_word(integer, &Class::Id);
    let ok_3 = Id::from_word(id, &Class::Id);
    assert_eq!(Id::from(float), ok_1.unwrap());
    assert_eq!(Id::from(integer), ok_2.unwrap());
    assert_eq!(Id::from(id), ok_3.unwrap());
}

#[test]
fn new_date() {
    let format = "%F";
    let date = NaiveDate::from_ymd_opt(2021, 1, 1).unwrap();
    let ok_1 = Value::from_word(&date.format(format).to_string(), &Class::Date(String::from(format)));
    let err_1 = Value::from_word("5.5", &Class::Date(String::from(format)));
    let err_2 = Value::from_word("08/08/2021", &Class::Date(String::from(format)));
    assert!(matches!(ok_1, Ok(Value::Date(days)) if days == date.num_days_from_ce()));
    assert_eq!(true, err_1.is_err());
    assert_eq!(true, err_2.is_err());
}

#[test]
fn new_time() {
    let format = "%T";
    let time = NaiveTime::from_hms_opt(15, 15, 15).unwrap();
    let ok_1 = Value::from_word(&time.format(format).to_string(), &Class::Time(String::from(format)));
    let err_1 = Value::from_word("5.5", &Class::Time(String::from(format)));
    let err_2 = Value::from_word("15.15.15", &Class::Time(String::from(format)));
    assert!(matches!(ok_1, Ok(Value::Time(s, n))
        if s == time.num_seconds_from_midnight() && n == time.nanosecond()));
    assert_eq!(true, err_1.is_err());
    assert_eq!(true, err_2.is_err());
}

#[test]
fn new_date_time() {
    let format = "%+";
    let date_time_string = "2001-07-08T00:34:60.026490+09:30";
    let date_time = DateTime::parse_from_str(date_time_string, format).unwrap().naive_utc();
    let ok_1 = Value::from_word(date_time_string, &Class::DateTime(String::from(format)));
    let err_1 = Value::from_word("5.5", &Class::DateTime(String::from(format)));
    let err_2 = Value::from_word("2001-07-08 00:34:60", &Class::DateTime(String::from(format)));
    assert!(matches!(ok_1, Ok(Value::DateTime(d, s, n))
        if d == date_time.date().num_days_from_ce()
            && s == date_time.time().num_seconds_from_midnight()
            && n == date_time.time().nanosecond()));
    assert_eq!(true, err_1.is_err());
    assert_eq!(true, err_2.is_err());
}

#[test]
fn new_local_date_time() {
    let format = "%Y-%m-%dT%H:%M:%S%.f";
    let date_time_string = "2001-07-08T00:34:60.026490";
    let date_time = NaiveDateTime::parse_from_str(date_time_string, format).unwrap();
    let ok_1 = Value::from_word(date_time_string, &Class::LocalDateTime(String::from(format)));
    let err_1 = Value::from_word("5.5", &Class::LocalDateTime(String::from(format)));
    let err_2 = Value::from_word("2001-07-08 00:34:60", &Class::LocalDateTime(String::from(format)));
    assert!(matches!(ok_1, Ok(Value::LocalDateTime(d, s, n))
        if d == date_time.date().num_days_from_ce()
            && s == date_time.time().num_seconds_from_midnight()
            && n == date_time.time().nanosecond()));
    assert_eq!(true, err_1.is_err());
    assert_eq!(true, err_2.is_err());
}

#[test]
fn new_ipv4_address() {
    let address: u32 = 0x0808_0808;
    let ok = Value::from_word("8.8.8.8", &Class::Ipv4Address);
    let err_1 = Value::from_word("5.5", &Class::Ipv4Address);
    let err_2 = Value::from_word("word", &Class::Ipv4Address);
    assert!(matches!(ok, Ok(Value::Address(false, a)) if a == address as u128));
    assert_eq!(true, err_1.is_err());
    assert_eq!(true, err_2.is_err());
}

#[test]
fn new_ipv6_address() {
    let address: u128 = 0x2001_4860_4860_0000_0000_0000_0000_8888;
    let ok = Value::from_word("2001:4860:4860::8888", &Class::Ipv6Address);
    let err_1 = Value::from_word("2001:4860", &Class::Ipv6Address);
    let err_2 = Value::from_word("word", &Class::Ipv6Address);
    assert!(matches!(ok, Ok(Value::Address(true, a)) if a == address));
    assert_eq!(true, err_1.is_err());
    assert_eq!(true, err_2.is_err());
}

#[test]
fn new_ipv4_socket_address() {
    let address: u32 = 0x0808_0808;
    let ok = Value::from_word("8.8.8.8:53", &Class::Ipv4SocketAddress);
    let err_1 = Value::from_word("5.5.5.5", &Class::Ipv4SocketAddress);
    let err_2 = Value::from_word("word", &Class::Ipv4SocketAddress);
    assert!(matches!(ok, Ok(Value::SocketAddress(false, a, 53, 0, 0))
        if a == address as u128));
    assert_eq!(true, err_1.is_err());
    assert_eq!(true, err_2.is_err());
}

#[test]
fn new_ipv6_socket_address() {
    let address: u128 = 0x2001_4860_4860_0000_0000_0000_0000_8888;
    let ok = Value::from_word("[2001:4860:4860::8888]:53", &Class::Ipv6SocketAddress);
    let err_1 = Value::from_word("2001:4860", &Class::Ipv6SocketAddress);
    let err_2 = Value::from_word("word", &Class::Ipv6SocketAddress);
    assert!(matches!(ok, Ok(Value::SocketAddress(true, a, 53, 0, 0))
        if a == address));
    assert_eq!(true, err_1.is_err());
    assert_eq!(true, err_2.is_err());
}

#[test]
fn new_semantic_version() {
    let version = semver::Version::parse("1.2.3").unwrap();
    let ok = Value::from_word(&version.to_string(), &Class::SemanticVersion);
    let err_1 = Value::from_word("1:2:3", &Class::SemanticVersion);
    let err_2 = Value::from_word("word", &Class::SemanticVersion);
    assert!(matches!(ok, Ok(Value::Version(v)) if v == version.to_string()));
    assert_eq!(true, err_1.is_err());
    assert_eq!(true, err_2.is_err());
}

#[test]
fn from_separator() {
    let tokens = vec![token(0, true, " ")];
    let id_terms = Term::<Id>::from_tokens(&tokens, &Class::Id);
    let integer_terms = Term::<i64>::from_tokens(&tokens, &Class::Integer);
    let float_terms = Term::<Float>::from_tokens(&tokens, &float_class(&[" "]));
    assert_eq!(0, id_terms.len());
    assert_eq!(0, integer_terms.len());
    assert_eq!(0, float_terms.len());
}

#[test]
fn from_text() {
    let word = "text";
    let position = 0;
    let tokens = vec![token(position, false, word)];
    let id_terms = Term::<Id>::from_tokens(&tokens, &Class::Id);
    let integer_terms = Term::<i64>::from_tokens(&tokens, &Class::Integer);
    let float_terms = Term::<Float>::from_tokens(&tokens, &float_class(&[word]));
    assert_eq!(1, id_terms.len());
    assert_eq!(
        &Term { position: position, value: Id::from_word(word, &Class::Id).unwrap() },
        id_terms.get(0).unwrap()
    );
    assert_eq!(0, integer_terms.len());
    assert_eq!(0, float_terms.len());
}

#[test]
fn from_integer() {
    let word = "8";
    let position = 0;
    let tokens = vec![token(position, false, word)];
    let id_terms = Term::<Id>::from_tokens(&tokens, &Class::Id);
    let integer_terms = Term::<i64>::from_tokens(&tokens, &Class::Integer);
    let float_terms = Term::<Float>::from_tokens(&tokens, &float_class(&[word]));
    assert_eq!(1, id_terms.len());
    assert_eq!(
        &Term { position: position, value: Id::from_word(word, &Class::Id).unwrap() },
        id_terms.get(0).unwrap()
    );
    assert_eq!(1, integer_terms.len());
    assert_eq!(
        &Term { position: position, value: i64::from_word(word, &Class::Integer).unwrap() },
        integer_terms.get(0).unwrap()
    );
    assert_eq!(1, float_terms.len());
    assert_eq!(&Term { position: position, value: float_of(word) }, float_terms.get(0).unwrap());
}

#[test]
fn from_float() {
    let word = "5.5";
    let position = 0;
    let tokens = vec![token(position, false, word)];
    let id_terms = Term::<Id>::from_tokens(&tokens, &Class::Id);
    let integer_terms = Term::<i64>::from_tokens(&tokens, &Class::Integer);
    let float_terms = Term::<Float>::from_tokens(&tokens, &float_class(&[word]));
    assert_eq!(1, id_terms.len());
    assert_eq!(
        &Term { position: position, value: Id::from_word(word, &Class::Id).unwrap() },
        id_terms.get(0).unwrap()
    );
    assert_eq!(0, integer_terms.len());
    assert_eq!(1, float_terms.len());
    assert_eq!(&Term { position: position, value: float_of(word) }, float_terms.get(0).unwrap());
}

#[test]
fn to_id() {
    let tokens = sentence();
    let id_terms = Term::<Id>::from_tokens(&tokens, &Class::Id);
    assert_eq!(5, id_terms.len());
    let expected = [(0, "integer"), (2, "8"), (4, "and"), (6, "float"), (8, "5.5")];
    for (index, (position, word)) in expected.iter().enumerate() {
        assert_eq!(
            &Term { position: *position, value: Id::from_word(word, &Class::Id).unwrap() },
            id_terms.get(index).unwrap()
        );
    }
}

#[test]
fn to_integer() {
    let tokens = sentence();
    let integer_terms = Term::<i64>::from_tokens(&tokens, &Class::Integer);
    assert_eq!(1, integer_terms.len());
    assert_eq!(
        &Term { position: 2, value: i64::from_word("8", &Class::Integer).unwrap() },
        integer_terms.get(0).unwrap()
    );
}

#[test]
fn to_float() {
    let tokens = sentence();
    let words: Vec<&str> = tokens.iter().map(|t| t.word.as_str()).collect();
    let float_terms = Term::<Float>::from_tokens(&tokens, &float_class(&words));
    assert_eq!(2, float_terms.len());
    assert_eq!(&Term { position: 2, value: float_of("8") }, float_terms.get(0).unwrap());
    assert_eq!(&Term { position: 8, value: float_of("5.5") }, float_terms.get(1).unwrap());
}

#[test]
fn incompatible_class_is_reported() {
    assert_eq!(i64::from_word("8", &Class::Id), Err(WordError::IncompatibleClass));
    assert_eq!(Id::from_word("8", &Class::Integer), Err(WordError::IncompatibleClass));
    assert_eq!(Float::from_word("8", &Class::Integer), Err(WordError::IncompatibleClass));
    assert_eq!(i64::from_word("x", &Class::Integer), Err(WordError::Invalid));
}

#[test]
fn networks_and_ports_read_as_values() {
    assert!(matches!(Value::from_word("10.1.1.0/24", &Class::Ipv4Network),
        Ok(Value::Network(false, 0x0a01_0100, 24))));
    assert!(matches!(Value::from_word("fd00::/32", &Class::IpNetwork), Ok(Value::Network(true, _, 32))));
    assert!(Value::from_word("10.1.1.0/33", &Class::Ipv4Network).is_err());
    assert!(matches!(Value::from_word("8080", &Class::Port), Ok(Value::Port(8080))));
    assert!(Value::from_word("65536", &Class::Port).is_err());
    assert!(matches!(Value::from_word(">=1.2, <2", &Class::SemanticVersionRequirement), Ok(Value::Requirement(_))));
}
