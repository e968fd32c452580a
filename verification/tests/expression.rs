use std::collections::HashSet;

use semfilter::expression::{float_words_of, Formats, InvalidExpression};
use semfilter::floats::FloatValues;
use semfilter::parser::Term;
use semfilter::tokenizer::{Separators, Token};
use semfilter::validator::{ValidationError, Validator};

fn default_formats() -> Formats {
    Formats {
        date: String::from("%F"),
        time: String::from("%T"),
        date_time: String::from("%+"),
        local_date_time: String::from("%Y-%m-%dT%H:%M:%S%.f"),
    }
}

/// The doubles of the words that the evaluation may read as floats.
fn float_values(expression: &str, tokens: &Vec<Token>) -> FloatValues {
    let mut floats = FloatValues::new();
    for word in float_words_of(expression, tokens) {
        if let Ok(value) = word.parse::<f64>() {
            floats.insert(&word, value.to_bits());
        }
    }
    floats
}

fn evaluate(expression: &str, tokens: &Vec<Token>, formats: &Formats) -> Result<HashSet<usize>, InvalidExpression> {
    let floats = float_values(expression, tokens);
    semfilter::expression::evaluate(expression, tokens, formats, &floats)
}

fn assert_valid_expression(expression: &str) {
    assert!(evaluate(expression, &vec![], &default_formats()).is_ok());
}

fn assert_invalid_expression(expression: &str) {
    assert!(evaluate(expression, &vec![], &default_formats()).is_err());
}

#[test]
fn integer_matches() {
    let integers = vec![
        Term { position: 2, value: 1 },
        Term { position: 4, value: 2 },
        Term { position: 6, value: 3 },
    ];

    let integers_eq_integer_0 = semfilter::parser::matches(&integers, |term| term.value == 0);
    let integers_eq_integer_2 = semfilter::parser::matches(&integers, |term| term.value == 2);
    let integeres_ne_integer_0 = semfilter::parser::matches(&integers, |term| term.value != 0);
    let integers_ne_integer_2 = semfilter::parser::matches(&integers, |term| term.value != 2);
    let integers_gt_integer_0 = semfilter::parser::matches(&integers, |term| term.value > 0);
    let integers_lt_integer_0 = semfilter::parser::matches(&integers, |term| term.value < 0);

    assert_eq!(HashSet::from([]), integers_eq_integer_0);
    assert_eq!(HashSet::from([4]), integers_eq_integer_2);
    assert_eq!(HashSet::from([2, 4, 6]), integeres_ne_integer_0);
    assert_eq!(HashSet::from([2, 6]), integers_ne_integer_2);
    assert_eq!(HashSet::from([2, 4, 6]), integers_gt_integer_0);
    assert_eq!(HashSet::from([]), integers_lt_integer_0);
}

#[test]
fn validate_formats() {
    let valid_formats = default_formats();
    let invalid_formats_chrono_specifier = Formats {
        date: String::from("%F"),
        time: String::from("%T"),
        date_time: String::from("%+"),
        local_date_time: String::from("%c"),
    };
    let invalid_formats_grammar_delimiter = Formats {
        date: String::from("(%F)"),
        time: String::from("%T"),
        date_time: String::from("%+"),
        local_date_time: String::from("%Y-%m-%dT%H:%M:%S%.f"),
    };

    assert!(Validator::validate_formats(&valid_formats).is_ok());
    assert!(Validator::validate_formats(&invalid_formats_chrono_specifier).is_err());
    assert!(Validator::validate_formats(&invalid_formats_grammar_delimiter).is_err());
}

#[test]
fn validate_separators() {
    let separators = Separators::new(vec![":"]).unwrap();
    let formats = default_formats();

    assert!(Validator::validate_separators("$integer == 5", &separators, &formats).is_ok());
    assert!(Validator::validate_separators("$id == a", &separators, &formats).is_err());
}

#[test]
fn invalid_expressions() {
    assert_invalid_expression("()");
    assert_invalid_expression("wrong == 9");
}

#[test]
fn invalid_integer_expressions() {
    assert_invalid_expression("$integer + 9");
    assert_invalid_expression("$integer == a");
}

#[test]
fn valid_integer_expressions() {
    assert_valid_expression("$integer == 9");
    assert_valid_expression("$integer != 9");
    assert_valid_expression("$integer > 9");
    assert_valid_expression("$integer >= 9");
    assert_valid_expression("$integer < 9");
    assert_valid_expression("$integer <= 9");
    assert_valid_expression("($integer == 9)");
}

#[test]
fn invalid_date_expressions() {
    assert_invalid_expression("$date + 2021-01-01");
    assert_invalid_expression("$date == a");
}

#[test]
fn valid_date_expressions() {
    assert_valid_expression("$date == 2021-01-01");
    assert_valid_expression("$date != 2021-01-01");
    assert_valid_expression("$date > 2021-01-01");
    assert_valid_expression("$date >= 2021-01-01");
    assert_valid_expression("$date < 2021-01-01");
    assert_valid_expression("$date <= 2021-01-01");
    assert_valid_expression("($date == 2021-01-01)");
}

#[test]
fn valid_and_expressions() {
    assert_valid_expression("$integer > 9 and $integer > 8");
    assert_valid_expression("$date > 2021-01-01 and $integer > 8");
    assert_valid_expression("$integer > 9 and $date > 2021-01-01");
    assert_valid_expression("$integer > 9 and ($integer > 8 and $integer > 7)");
    assert_valid_expression("($integer > 9 and $integer > 8) and $integer > 7");
    assert_valid_expression("$integer > 9 and $float < 5.5");
    assert_valid_expression("($integer > 9) and ($integer > 8)");
    assert_valid_expression("(($integer > 9) and ($integer > 8))");
}

#[test]
fn invalid_and_expressions() {
    assert_invalid_expression("$integer > 9 && $integer > 8");
    assert_invalid_expression("$integer > 9 and < 5.5");
    assert_invalid_expression("$integer > 9 (and < 5.5)");
    assert_invalid_expression("($integer > 9)($integer > 8)");
    assert_invalid_expression("(($integer > 9)($integer > 8))");
    assert_invalid_expression("$integer > 9 and $integer > 8 and $integer > 7");
    assert_invalid_expression("$integer > 9 and $integer > 8 and $integer > 7 and $integer > 6");
    assert_invalid_expression("$integer > 9 and $integer > 8) and ($integer > 7 and $integer > 6");
}

#[test]
fn valid_or_expressions() {
    assert_valid_expression("$integer > 9 or $integer > 8");
    assert_valid_expression("$date > 2021-01-01 or $integer > 8");
    assert_valid_expression("$integer > 9 or $date > 2021-01-01");
    assert_valid_expression("$integer > 9 or ($integer > 8 or $integer > 7)");
    assert_valid_expression("($integer > 9 or $integer > 8) or $integer > 7");
    assert_valid_expression("$integer > 9 or $float < 5.5");
    assert_valid_expression("($integer > 9) or ($integer > 8)");
    assert_valid_expression("(($integer > 9) or ($integer > 8))");
}

#[test]
fn invalid_or_expressions() {
    assert_invalid_expression("()");
    assert_invalid_expression("$integer > 9 || $integer > 8");
    assert_invalid_expression("$integer > 9 or < 5.5");
    assert_invalid_expression("$integer > 9 (or < 5.5)");
    assert_invalid_expression("($integer > 9)($integer > 8)");
    assert_invalid_expression("(($integer > 9)($integer > 8))");
    assert_invalid_expression("$integer > 9 or $integer > 8 or $integer > 7");
    assert_invalid_expression("$integer > 9 or $integer > 8 or $integer > 7 or $integer > 6");
    assert_invalid_expression("$integer > 9 or $integer > 8) or ($integer > 7 or $integer > 6");
}

#[test]
fn valid_and_or_expressions() {
    assert_valid_expression("$integer > 9 and $integer > 8 or $float < 5.5");
    assert_valid_expression("$integer > 9 and ($integer > 8 or $float < 5.5)");
    assert_valid_expression("($integer > 9 and $integer > 8) or $float < 5.5");
    assert_valid_expression("($integer > 9) and ($integer > 8) or ($float < 5.5)");
}

#[test]
fn valid_or_and_expressions() {
    assert_valid_expression("$integer > 9 or $integer > 8 and $float < 5.5");
    assert_valid_expression("$integer > 9 or ($integer > 8 and $float < 5.5)");
    assert_valid_expression("($integer > 9 or $integer > 8) and $float < 5.5");
    assert_valid_expression("($integer > 9) or ($integer > 8) and ($float < 5.5)");
}

#[test]
fn valid_and_and_expressions() {
    assert_valid_expression("$integer > 9 and ($integer > 8 and $float < 5.5)");
    assert_valid_expression("($integer > 9 and $integer > 8) and $float < 5.5");
}

#[test]
fn invalid_and_and_expressions() {
    assert_invalid_expression("$integer > 9 and $integer > 8 and $float < 5.5");
    assert_invalid_expression("($integer > 9) and ($integer > 8) and ($float < 5.5)");
}

#[test]
fn valid_or_or_expressions() {
    assert_valid_expression("$integer > 9 or ($integer > 8 or $float < 5.5)");
    assert_valid_expression("($integer > 9 or $integer > 8) or $float < 5.5");
}

#[test]
fn invalid_or_or_expressions() {
    assert_invalid_expression("$integer > 9 or $integer > 8 or $float < 5.5");
    assert_invalid_expression("($integer > 9) or ($integer > 8) or ($float < 5.5)");
}

#[test]
fn evaluate_expression_without_tokens() {
    assert_eq!(
        evaluate("$integer == 9", &vec![], &default_formats()),
        Ok(HashSet::new())
    );
    assert_eq!(
        evaluate("$integer != 9", &vec![], &default_formats()),
        Ok(HashSet::new())
    );
    assert_eq!(
        evaluate("$float > 1.0", &vec![], &default_formats()),
        Ok(HashSet::new())
    );
}

#[test]
fn evaluate_integer_expression() {
    let tokens = vec![Token {
        position: 0,
        separator: false,
        word: String::from("9"),
    }];

    let formats = default_formats();

    assert_eq!(
        evaluate("$integer == 9", &tokens, &formats),
        Ok(HashSet::from([0]))
    );
    assert_eq!(
        evaluate("$integer != 9", &tokens, &formats),
        Ok(HashSet::from([]))
    );
}

#[test]
fn evaluate_float_expression() {
    let tokens = vec![Token {
        position: 0,
        separator: false,
        word: String::from("5.5"),
    }];

    let formats = default_formats();

    assert_eq!(
        evaluate("$float == 5.5", &tokens, &formats),
        Ok(HashSet::from([0]))
    );
    assert_eq!(
        evaluate("$float != 5.5", &tokens, &formats),
        Ok(HashSet::from([]))
    );
}

#[test]
fn evaluate_id_expression() {
    let tokens = vec![Token {
        position: 0,
        separator: false,
        word: String::from("qpanda"),
    }];

    let formats = default_formats();

    assert_eq!(
        evaluate("$id == qpanda", &tokens, &formats),
        Ok(HashSet::from([0]))
    );
    assert_eq!(
        evaluate("$id contains and", &tokens, &formats),
        Ok(HashSet::from([0]))
    );
    assert_eq!(
        evaluate("$id starts-with qpa", &tokens, &formats),
        Ok(HashSet::from([0]))
    );
    assert_eq!(
        evaluate("$id ends-with nda", &tokens, &formats),
        Ok(HashSet::from([0]))
    );
    assert_eq!(
        evaluate("$id != qpanda", &tokens, &formats),
        Ok(HashSet::from([]))
    );
}

#[test]
fn evaluate_date_time_expression() {
    let tokens = vec![
        Token {
            position: 0,
            separator: false,
            word: String::from("2021-01-01"),
        },
        Token {
            position: 1,
            separator: false,
            word: String::from("15:15:15"),
        },
        Token {
            position: 2,
            separator: false,
            word: String::from("2001-07-08T00:34:60.026490+09:30"),
        },
        Token {
            position: 3,
            separator: false,
            word: String::from("2001-07-08T00:34:60.026490"),
        },
    ];

    let formats = default_formats();

    assert_eq!(
        evaluate("$date == 2021-01-01", &tokens, &formats),
        Ok(HashSet::from([0]))
    );
    assert_eq!(
        evaluate("$date != 2021-01-01", &tokens, &formats),
        Ok(HashSet::from([]))
    );
    assert_eq!(
        evaluate("$date > 2000-01-01", &tokens, &formats),
        Ok(HashSet::from([0]))
    );
    assert_eq!(
        evaluate("$time == 15:15:15", &tokens, &formats),
        Ok(HashSet::from([1]))
    );
    assert_eq!(
        evaluate("$time != 15:15:15", &tokens, &formats),
        Ok(HashSet::from([]))
    );
    assert_eq!(
        evaluate("$time > 13:00:00", &tokens, &formats),
        Ok(HashSet::from([1]))
    );
    assert_eq!(
        evaluate("$dateTime == 2001-07-08T00:34:60.026490+09:30", &tokens, &formats),
        Ok(HashSet::from([2]))
    );
    assert_eq!(
        evaluate("$dateTime != 2001-07-08T00:34:60.026490+09:30", &tokens, &formats),
        Ok(HashSet::from([]))
    );
    assert_eq!(
        evaluate("$dateTime > 2001-07-08T00:00:00.000000+09:30", &tokens, &formats),
        Ok(HashSet::from([2]))
    );
    assert_eq!(
        evaluate("$localDateTime == 2001-07-08T00:34:60.026490", &tokens, &formats),
        Ok(HashSet::from([3]))
    );
    assert_eq!(
        evaluate("$localDateTime != 2001-07-08T00:34:60.026490", &tokens, &formats),
        Ok(HashSet::from([]))
    );
    assert_eq!(
        evaluate("$localDateTime > 2001-07-08T00:00:00.000000", &tokens, &formats),
        Ok(HashSet::from([3]))
    );
}

#[test]
fn evaluate_ip_address_expression() {
    let tokens = vec![
        Token {
            position: 0,
            separator: false,
            word: String::from("8.8.8.8"),
        },
        Token {
            position: 1,
            separator: false,
            word: String::from("2001:4860:4860::8888"),
        },
    ];

    let formats = default_formats();

    assert_eq!(
        evaluate("$ipAddress == 8.8.8.8", &tokens, &formats),
        Ok(HashSet::from([0]))
    );
    assert_eq!(
        evaluate("$ipAddress == 2001:4860:4860::8888", &tokens, &formats),
        Ok(HashSet::from([1]))
    );
    assert_eq!(
        evaluate("$ipAddress != 8.8.8.8", &tokens, &formats),
        Ok(HashSet::from([1]))
    );
    assert_eq!(
        evaluate("$ipAddress != 2001:4860:4860::8888", &tokens, &formats),
        Ok(HashSet::from([0]))
    );
    assert_eq!(
        evaluate("$ipAddress in 8.8.8.0/24", &tokens, &formats),
        Ok(HashSet::from([0]))
    );
    assert_eq!(
        evaluate("$ipAddress in 2001:4860::/32", &tokens, &formats),
        Ok(HashSet::from([1]))
    );
    assert_eq!(
        evaluate("$ipv4Address == 8.8.8.8", &tokens, &formats),
        Ok(HashSet::from([0]))
    );
    assert_eq!(
        evaluate("$ipv4Address != 8.8.8.8", &tokens, &formats),
        Ok(HashSet::from([]))
    );
    assert_eq!(
        evaluate("$ipv4Address > 1.1.1.1", &tokens, &formats),
        Ok(HashSet::from([0]))
    );
    assert_eq!(
        evaluate("$ipv4Address in 8.8.8.0/24", &tokens, &formats),
        Ok(HashSet::from([0]))
    );
    assert_eq!(
        evaluate("$ipv4Address not in 8.8.8.0/24", &tokens, &formats),
        Ok(HashSet::from([]))
    );
    assert_eq!(
        evaluate("$ipv6Address == 2001:4860:4860::8888", &tokens, &formats),
        Ok(HashSet::from([1]))
    );
    assert_eq!(
        evaluate("$ipv6Address != 2001:4860:4860::8888", &tokens, &formats),
        Ok(HashSet::from([]))
    );
    assert_eq!(
        evaluate("$ipv6Address > 2001:4860:4860::8844", &tokens, &formats),
        Ok(HashSet::from([1]))
    );
    assert_eq!(
        evaluate("$ipv6Address in 2001:4860::/32", &tokens, &formats),
        Ok(HashSet::from([1]))
    );
    assert_eq!(
        evaluate("$ipv6Address not in 2001:4860::/32", &tokens, &formats),
        Ok(HashSet::from([]))
    );
}

#[test]
fn evaluate_ip_socket_address_expression() {
    let tokens = vec![
        Token {
            position: 0,
            separator: false,
            word: String::from("8.8.8.8:53"),
        },
        Token {
            position: 1,
            separator: false,
            word: String::from("[2001:4860:4860::8888]:53"),
        },
    ];

    let formats = default_formats();

    assert_eq!(
        evaluate("$ipSocketAddress == 8.8.8.8:53", &tokens, &formats),
        Ok(HashSet::from([0]))
    );
    assert_eq!(
        evaluate("$ipSocketAddress == [2001:4860:4860::8888]:53", &tokens, &formats),
        Ok(HashSet::from([1]))
    );
    assert_eq!(
        evaluate("$ipSocketAddress != 8.8.8.8:53", &tokens, &formats),
        Ok(HashSet::from([1]))
    );
    assert_eq!(
        evaluate("$ipSocketAddress != [2001:4860:4860::8888]:53", &tokens, &formats),
        Ok(HashSet::from([0]))
    );
    assert_eq!(
        evaluate("port($ipSocketAddress) == 53", &tokens, &formats),
        Ok(HashSet::from([0, 1]))
    );
    assert_eq!(
        evaluate("port($ipSocketAddress) != 53", &tokens, &formats),
        Ok(HashSet::from([]))
    );
    assert_eq!(
        evaluate("ip($ipSocketAddress) == 8.8.8.8", &tokens, &formats),
        Ok(HashSet::from([0]))
    );
    assert_eq!(
        evaluate("ip($ipSocketAddress) != 8.8.8.8", &tokens, &formats),
        Ok(HashSet::from([1]))
    );
    assert_eq!(
        evaluate("ip($ipSocketAddress) in 8.8.8.0/24", &tokens, &formats),
        Ok(HashSet::from([0]))
    );
    assert_eq!(
        evaluate("ip($ipSocketAddress) not in 8.8.8.0/24", &tokens, &formats),
        Ok(HashSet::from([1]))
    );
    assert_eq!(
        evaluate("$ipv4SocketAddress == 8.8.8.8:53", &tokens, &formats),
        Ok(HashSet::from([0]))
    );
    assert_eq!(
        evaluate("$ipv4SocketAddress != 8.8.8.8:53", &tokens, &formats),
        Ok(HashSet::from([]))
    );
    assert_eq!(
        evaluate("$ipv4SocketAddress > 1.1.1.1:53", &tokens, &formats),
        Ok(HashSet::from([0]))
    );
    assert_eq!(
        evaluate("port($ipv4SocketAddress) == 53", &tokens, &formats),
        Ok(HashSet::from([0]))
    );
    assert_eq!(
        evaluate("port($ipv4SocketAddress) != 53", &tokens, &formats),
        Ok(HashSet::from([]))
    );
    assert_eq!(
        evaluate("ip($ipv4SocketAddress) == 8.8.8.8", &tokens, &formats),
        Ok(HashSet::from([0]))
    );
    assert_eq!(
        evaluate("ip($ipv4SocketAddress) != 8.8.8.8", &tokens, &formats),
        Ok(HashSet::from([]))
    );
    assert_eq!(
        evaluate("ip($ipv4SocketAddress) in 8.8.8.0/24", &tokens, &formats),
        Ok(HashSet::from([0]))
    );
    assert_eq!(
        evaluate("ip($ipv4SocketAddress) not in 8.8.8.0/24", &tokens, &formats),
        Ok(HashSet::from([]))
    );
    assert_eq!(
        evaluate("$ipv6SocketAddress == [2001:4860:4860::8888]:53", &tokens, &formats),
        Ok(HashSet::from([1]))
    );
    assert_eq!(
        evaluate("$ipv6SocketAddress != [2001:4860:4860::8888]:53", &tokens, &formats),
        Ok(HashSet::from([]))
    );
    assert_eq!(
        evaluate("$ipv6SocketAddress > [2001:4860:4860::8844]:53", &tokens, &formats),
        Ok(HashSet::from([1]))
    );
    assert_eq!(
        evaluate("port($ipv6SocketAddress) == 53", &tokens, &formats),
        Ok(HashSet::from([1]))
    );
    assert_eq!(
        evaluate("port($ipv6SocketAddress) != 53", &tokens, &formats),
        Ok(HashSet::from([]))
    );
    assert_eq!(
        evaluate("ip($ipv6SocketAddress) == 2001:4860:4860::8888", &tokens, &formats),
        Ok(HashSet::from([1]))
    );
    assert_eq!(
        evaluate("ip($ipv6SocketAddress) != 2001:4860:4860::8888", &tokens, &formats),
        Ok(HashSet::from([]))
    );
    assert_eq!(
        evaluate("ip($ipv6SocketAddress) in 2001:4860::/32", &tokens, &formats),
        Ok(HashSet::from([1]))
    );
    assert_eq!(
        evaluate("ip($ipv6SocketAddress) not in 2001:4860::/32", &tokens, &formats),
        Ok(HashSet::from([]))
    );
}

#[test]
fn evaluate_ip_network_expression() {
    let tokens = vec![
        Token {
            position: 0,
            separator: false,
            word: String::from("10.1.1.0/24"),
        },
        Token {
            position: 1,
            separator: false,
            word: String::from("fd00::/32"),
        },
    ];

    let formats = default_formats();

    assert_eq!(
        evaluate("$ipNetwork == 10.1.1.0/24", &tokens, &formats),
        Ok(HashSet::from([0]))
    );
    assert_eq!(
        evaluate("$ipNetwork != 10.1.1.0/24", &tokens, &formats),
        Ok(HashSet::from([1]))
    );
    assert_eq!(
        evaluate("$ipNetwork == fd00::/32", &tokens, &formats),
        Ok(HashSet::from([1]))
    );
    assert_eq!(
        evaluate("$ipNetwork != fd00::/32", &tokens, &formats),
        Ok(HashSet::from([0]))
    );
    assert_eq!(
        evaluate("$ipv4Network == 10.1.1.0/24", &tokens, &formats),
        Ok(HashSet::from([0]))
    );
    assert_eq!(
        evaluate("$ipv4Network != 10.1.1.0/24", &tokens, &formats),
        Ok(HashSet::from([]))
    );
    assert_eq!(
        evaluate("$ipv6Network == fd00::/32", &tokens, &formats),
        Ok(HashSet::from([1]))
    );
    assert_eq!(
        evaluate("$ipv6Network != fd00::/32", &tokens, &formats),
        Ok(HashSet::from([]))
    );
}

#[test]
fn evaluate_semantic_version_expression() {
    let tokens = vec![Token {
        position: 0,
        separator: false,
        word: String::from("1.2.3"),
    }];

    let formats = default_formats();

    assert_eq!(
        evaluate("$semanticVersion == 1.2.3", &tokens, &formats),
        Ok(HashSet::from([0]))
    );
    assert_eq!(
        evaluate("$semanticVersion != 1.2.3", &tokens, &formats),
        Ok(HashSet::from([]))
    );
    assert_eq!(
        evaluate("$semanticVersion > 1.0.0", &tokens, &formats),
        Ok(HashSet::from([0]))
    );
    assert_eq!(
        evaluate("$semanticVersion matches >=1.2.3,<1.8.0", &tokens, &formats),
        Ok(HashSet::from([0]))
    );
    assert_eq!(
        evaluate("$semanticVersion matches ~1.2.3", &tokens, &formats),
        Ok(HashSet::from([0]))
    );
}

#[test]
fn evaluate_complex_expression() {
    let tokens = vec![
        Token {
            position: 0,
            separator: false,
            word: String::from("a1"),
        },
        Token {
            position: 1,
            separator: false,
            word: String::from("9"),
        },
        Token {
            position: 2,
            separator: false,
            word: String::from("5.5"),
        },
    ];
    let formats = default_formats();

    assert_eq!(
        evaluate("$integer == 9 and $float == 5.5", &tokens, &formats),
        Ok(HashSet::from([1, 2]))
    );
    assert_eq!(
        evaluate("$integer == 9 or $float == 5.5", &tokens, &formats),
        Ok(HashSet::from([1, 2]))
    );
    assert_eq!(
        evaluate("$integer == 9 or $float == 8.8", &tokens, &formats),
        Ok(HashSet::from([1]))
    );
    assert_eq!(
        evaluate("$integer == 8 or $float == 5.5", &tokens, &formats),
        Ok(HashSet::from([2]))
    );
    assert_eq!(
        evaluate("$integer == 8 or $float == 6.6", &tokens, &formats),
        Ok(HashSet::from([]))
    );
    assert_eq!(
        evaluate("$integer == 9 and $integer == 8", &tokens, &formats),
        Ok(HashSet::from([]))
    );
    assert_eq!(
        evaluate("$integer == 9 and ($float == 5.5 or $id == a1)", &tokens, &formats),
        Ok(HashSet::from([0, 1, 2]))
    );
    assert_eq!(
        evaluate("$integer == 9 and ($float == 5.5 or $id == b1)", &tokens, &formats),
        Ok(HashSet::from([1, 2]))
    );
    assert_eq!(
        evaluate("$integer == 9 and ($float != 5.5 or $id == a1)", &tokens, &formats),
        Ok(HashSet::from([0, 1]))
    );
    assert_eq!(
        evaluate("$integer == 9 or ($float == 8.8 or $id == b1)", &tokens, &formats),
        Ok(HashSet::from([1]))
    );
    assert_eq!(
        evaluate("$integer == 9 or ($float != 5.5)", &tokens, &formats),
        Ok(HashSet::from([1]))
    );
}

#[test]
fn evaluate_operator_precedence() {
    let tokens = vec![
        Token {
            position: 0,
            separator: false,
            word: String::from("1"),
        },
        Token {
            position: 1,
            separator: false,
            word: String::from("2.2"),
        },
    ];
    let formats = default_formats();

    assert_eq!(
        evaluate("$integer == 0 and $integer == 1 or $float == 2.2", &tokens, &formats),
        Ok(HashSet::from([1]))
    );
    assert_eq!(
        evaluate("($integer == 0 and $integer == 1) or $float == 2.2", &tokens, &formats),
        Ok(HashSet::from([1]))
    );
    assert_eq!(
        evaluate("$integer == 0 and ($integer == 1 or $float == 2.2)", &tokens, &formats),
        Ok(HashSet::from([]))
    );
}

#[test]
fn float_words_cover_tokens_and_literals() {
    let tokens = vec![
        Token { position: 0, separator: false, word: String::from("a1") },
        Token { position: 1, separator: true, word: String::from(" ") },
        Token { position: 2, separator: false, word: String::from("5.5") },
    ];
    let words = float_words_of("$float == -2.25 or $float < .5", &tokens);
    for expected in ["a1", " ", "5.5", "-2.25", "2.25", ".5", "5", "25"] {
        assert!(words.iter().any(|w| w == expected), "missing {}", expected);
    }
    assert!(!words.iter().any(|w| w == "$float"));
}

#[test]
fn separator_tokens_are_never_selected() {
    let tokens = vec![
        Token { position: 0, separator: true, word: String::from("9") },
        Token { position: 1, separator: false, word: String::from("9") },
    ];
    assert_eq!(evaluate("$integer == 9", &tokens, &default_formats()), Ok(HashSet::from([1])));
    assert_eq!(evaluate("$id != x", &tokens, &default_formats()), Ok(HashSet::from([1])));
}

#[test]
fn float_literal_without_value_matches_nothing() {
    let tokens = vec![Token { position: 0, separator: false, word: String::from("5.5") }];
    let mut floats = FloatValues::new();
    floats.insert("5.5", 5.5f64.to_bits());
    let found = semfilter::expression::evaluate("$float == 5.5", &tokens, &default_formats(), &floats);
    assert_eq!(found, Ok(HashSet::from([0])));
    let mut only_token = FloatValues::new();
    only_token.insert("5.5", 5.5f64.to_bits());
    only_token.insert("4.5", 4.5f64.to_bits());
    let found = semfilter::expression::evaluate("$float >= 4.5", &tokens, &default_formats(), &only_token);
    assert_eq!(found, Ok(HashSet::from([0])));
    let empty = FloatValues::new();
    let found = semfilter::expression::evaluate("$float == 5.5", &tokens, &default_formats(), &empty);
    assert_eq!(found, Ok(HashSet::new()));
}

#[test]
fn integer_out_of_range_is_not_an_integer() {
    let tokens = vec![
        Token { position: 0, separator: false, word: String::from("9223372036854775808") },
        Token { position: 1, separator: false, word: String::from("-9223372036854775808") },
        Token { position: 2, separator: false, word: String::from("+7") },
    ];
    assert_eq!(evaluate("$integer < 0", &tokens, &default_formats()), Ok(HashSet::from([1])));
    assert_eq!(evaluate("$integer >= 7", &tokens, &default_formats()), Ok(HashSet::from([2])));
    assert!(evaluate("$integer == 9223372036854775808", &tokens, &default_formats()).is_err());
}

#[test]
fn and_of_an_empty_side_selects_nothing() {
    let tokens = vec![
        Token { position: 0, separator: false, word: String::from("abc") },
        Token { position: 1, separator: false, word: String::from("7") },
    ];
    assert_eq!(
        evaluate("$id == abc and $integer == 8", &tokens, &default_formats()),
        Ok(HashSet::new())
    );
    assert_eq!(
        evaluate("$id == abc and $integer == 7", &tokens, &default_formats()),
        Ok(HashSet::from([0, 1]))
    );
}

#[test]
fn network_membership_and_ordering() {
    let tokens = vec![
        Token { position: 0, separator: false, word: String::from("10.1.2.3") },
        Token { position: 1, separator: false, word: String::from("10.2.0.1") },
        Token { position: 2, separator: false, word: String::from("::1") },
    ];
    assert_eq!(evaluate("$ipAddress in 10.1.0.0/16", &tokens, &default_formats()), Ok(HashSet::from([0])));
    assert_eq!(evaluate("$ipAddress not in 10.1.0.0/16", &tokens, &default_formats()), Ok(HashSet::from([1, 2])));
    assert_eq!(evaluate("$ipv4Address in 0.0.0.0/0", &tokens, &default_formats()), Ok(HashSet::from([0, 1])));
    assert_eq!(evaluate("$ipv4Address < 10.2.0.0", &tokens, &default_formats()), Ok(HashSet::from([0])));
}

#[test]
fn semantic_version_ordering_and_requirements() {
    let tokens = vec![
        Token { position: 0, separator: false, word: String::from("1.2.3-alpha") },
        Token { position: 1, separator: false, word: String::from("1.10.0") },
    ];
    assert_eq!(evaluate("$semanticVersion < 1.2.3", &tokens, &default_formats()), Ok(HashSet::from([0])));
    assert_eq!(evaluate("$semanticVersion > 1.9.9", &tokens, &default_formats()), Ok(HashSet::from([1])));
    assert_eq!(evaluate("$semanticVersion matches ^1.3", &tokens, &default_formats()), Ok(HashSet::from([1])));
}

#[test]
fn validation_errors_name_the_problem() {
    let mut formats = default_formats();
    formats.time = String::from("%H %M");
    assert_eq!(
        Validator::validate_formats(&formats),
        Err(ValidationError::FormatDelimiter { class: String::from("$time"), format: String::from("%H %M") })
    );
    let mut formats = default_formats();
    formats.date = String::from("%Y%n%m");
    assert_eq!(
        Validator::validate_formats(&formats),
        Err(ValidationError::FormatSpecifier { class: String::from("$date"), format: String::from("%Y%n%m") })
    );
    let separators = Separators::new(vec![" ", "-"]).unwrap();
    assert_eq!(
        Validator::validate_separators("$integer == 5", &separators, &default_formats()),
        Err(ValidationError::ClassSeparators { separators: String::from("-"), class: String::from("$integer") })
    );
    let separators = Separators::new(vec![" ", "T"]).err();
    assert!(separators.is_some());
    let separators = Separators::new(vec![" ", "%"]).unwrap();
    let mut formats = default_formats();
    formats.date = String::from("%Y#%m");
    let separators_hash = Separators::new(vec![" ", "#"]).unwrap();
    assert_eq!(
        Validator::validate_separators("$date == 2021#01", &separators_hash, &formats),
        Err(ValidationError::FormatSeparators {
            separators: String::from("#"),
            class: String::from("$date"),
            format: String::from("%Y#%m"),
        })
    );
    assert!(Validator::validate_separators("$date == 2021-01-01", &separators, &default_formats()).is_ok());
}

#[test]
fn socket_addresses_order_by_address_and_port() {
    let tokens = vec![Token { position: 0, separator: false, word: String::from("[fe80::1%2]:80") }];
    let formats = default_formats();
    assert_eq!(evaluate("$ipv6SocketAddress == [fe80::1]:80", &tokens, &formats), Ok(HashSet::new()));
    assert_eq!(evaluate("$ipv6SocketAddress != [fe80::1]:80", &tokens, &formats), Ok(HashSet::from([0])));
    assert_eq!(evaluate("$ipv6SocketAddress >= [fe80::1]:80", &tokens, &formats), Ok(HashSet::from([0])));
    assert_eq!(evaluate("$ipv6SocketAddress <= [fe80::1]:80", &tokens, &formats), Ok(HashSet::from([0])));
    assert_eq!(evaluate("$ipv6SocketAddress > [fe80::1]:80", &tokens, &formats), Ok(HashSet::new()));
    assert_eq!(evaluate("$ipSocketAddress > 255.255.255.255:65535", &tokens, &formats), Ok(HashSet::from([0])));
    assert_eq!(evaluate("port($ipv6SocketAddress) < 81", &tokens, &formats), Ok(HashSet::from([0])));
}

#[test]
fn ip_of_socket_address_compares_with_its_family() {
    let tokens = vec![
        Token { position: 0, separator: false, word: String::from("8.8.8.8:53") },
        Token { position: 1, separator: false, word: String::from("[::1]:53") },
    ];
    let formats = default_formats();
    assert!(evaluate("ip($ipv4SocketAddress) == ::1", &tokens, &formats).is_err());
    assert!(evaluate("ip($ipv6SocketAddress) == 8.8.8.8", &tokens, &formats).is_err());
    assert_eq!(evaluate("ip($ipv6SocketAddress) == ::1", &tokens, &formats), Ok(HashSet::from([1])));
    assert_eq!(evaluate("ip($ipSocketAddress) == ::1", &tokens, &formats), Ok(HashSet::from([1])));
    assert_eq!(evaluate("ip($ipv4SocketAddress) >= 8.8.8.8", &tokens, &formats), Ok(HashSet::from([0])));
}

#[test]
fn error_messages() {
    assert_eq!(
        ValidationError::FormatDelimiter { class: String::from("$date"), format: String::from("(%F)") }.message(),
        "'$date' format string '(%F)' must not contain grammar delimiters ' ' or '(' or ')'"
    );
    assert_eq!(
        ValidationError::FormatSpecifier { class: String::from("$time"), format: String::from("%c") }.message(),
        "'$time' format string '%c' must not contain specifiers '%c', '%t', and '%n'"
    );
    assert_eq!(
        ValidationError::ClassSeparators { separators: String::from(":"), class: String::from("$id") }.message(),
        "separator(s) ':' can not be used with an expression containing type '$id'"
    );
    assert_eq!(
        ValidationError::FormatSeparators {
            separators: String::from("#"),
            class: String::from("$date"),
            format: String::from("%Y#%m"),
        }
        .message(),
        "separator(s) '#' can not be used in '$date' format string '%Y#%m' with an expression containing '$date'"
    );
    assert_eq!(InvalidExpression.message("$x"), "Invalid filter expression '$x'");
    assert_eq!(Separators::new(vec!["ab"]).err().unwrap().message(), "invalid separator 'ab'");
}

#[test]
fn fewer_separators_pass_the_check() {
    let formats = default_formats();
    let none = Separators::new(vec![]).unwrap();
    for expression in ["$id == a", "$date == 2021-01-01", "$ipv6Address == ::1", "$semanticVersion > 1.0.0-a+b"] {
        assert!(Validator::validate_separators(expression, &none, &formats).is_ok());
    }
    let more = Separators::new(vec![" ", ":", "."]).unwrap();
    let fewer = Separators::new(vec![" "]).unwrap();
    assert!(Validator::validate_separators("$integer == 5", &more, &formats).is_ok());
    assert!(Validator::validate_separators("$integer == 5", &fewer, &formats).is_ok());
    assert!(Validator::validate_separators("$id == a", &more, &formats).is_err());
    assert!(Validator::validate_separators("$id == a", &fewer, &formats).is_ok());
}

#[test]
fn and_or_composition() {
    let tokens = vec![
        Token { position: 0, separator: false, word: String::from("a") },
        Token { position: 1, separator: false, word: String::from("1") },
        Token { position: 2, separator: false, word: String::from("2.5") },
    ];
    let formats = default_formats();
    assert_eq!(evaluate("$id == a and $integer == 1", &tokens, &formats), Ok(HashSet::from([0, 1])));
    assert_eq!(evaluate("$id == a and $integer == 7", &tokens, &formats), Ok(HashSet::new()));
    assert_eq!(evaluate("$id == a or $integer == 7", &tokens, &formats), Ok(HashSet::from([0])));
    assert_eq!(evaluate("($id == a)", &tokens, &formats), Ok(HashSet::from([0])));
    assert_eq!(
        evaluate("$id == b and $integer == 1 or $float == 2.5", &tokens, &formats),
        evaluate("($id == b and $integer == 1) or $float == 2.5", &tokens, &formats)
    );
    assert_eq!(
        evaluate("$float == 2.5 or $id == b and $integer == 1", &tokens, &formats),
        Ok(HashSet::from([2]))
    );
}
