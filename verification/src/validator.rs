//! Checks of the settings against the expression grammar: date and time
//! formats must not contain what the grammar or the tokenizer would split
//! them at.
use vstd::prelude::*;

use crate::expression::Formats;
use crate::text::{chars_of, occurs_in, occurs_in_exec, string_from_chars};
use crate::tokenizer::{separator_test, Separators};

verus! {

/// A setting that the expression grammar cannot work with.
#[derive(Debug, PartialEq, Eq, Clone)]
pub enum ValidationError {
    /// The format of `class` contains ' ', '(' or ')'.
    FormatDelimiter { class: String, format: String },
    /// The format of `class` contains `%c`, `%t`, `%n` or `%%`.
    FormatSpecifier { class: String, format: String },
    /// The expression uses `class`, and `separators` (which split tokens)
    /// occur in values of that type.
    ClassSeparators { separators: String, class: String },
    /// The expression uses `class`, and `separators` occur in its format.
    FormatSeparators { separators: String, class: String, format: String },
}

/// A validation problem as the specifications see it.
pub enum Problem {
    FormatDelimiter(Seq<char>, Seq<char>),
    FormatSpecifier(Seq<char>, Seq<char>),
    ClassSeparators(Seq<char>, Seq<char>),
    FormatSeparators(Seq<char>, Seq<char>, Seq<char>),
}

impl View for ValidationError {
    type V = Problem;

    open spec fn view(&self) -> Problem {
        match self {
            ValidationError::FormatDelimiter { class, format } => Problem::FormatDelimiter(
                class@,
                format@,
            ),
            ValidationError::FormatSpecifier { class, format } => Problem::FormatSpecifier(
                class@,
                format@,
            ),
            ValidationError::ClassSeparators { separators, class } => Problem::ClassSeparators(
                separators@,
                class@,
            ),
            ValidationError::FormatSeparators {
                separators,
                class,
                format,
            } => Problem::FormatSeparators(separators@, class@, format@),
        }
    }
}

/// The message that reports a validation problem.
pub open spec fn problem_message(p: Problem) -> Seq<char> {
    match p {
        Problem::FormatDelimiter(class, format) => "'"@ + class + "' format string '"@ + format
            + "' must not contain grammar delimiters ' ' or '(' or ')'"@,
        Problem::FormatSpecifier(class, format) => "'"@ + class + "' format string '"@ + format
            + "' must not contain specifiers '%c', '%t', and '%n'"@,
        Problem::ClassSeparators(separators, class) => "separator(s) '"@ + separators
            + "' can not be used with an expression containing type '"@ + class + "'"@,
        Problem::FormatSeparators(separators, class, format) => "separator(s) '"@ + separators
            + "' can not be used in '"@ + class + "' format string '"@ + format
            + "' with an expression containing '"@ + class + "'"@,
    }
}

impl ValidationError {
    /// The message that reports the problem.
    pub fn message(&self) -> (r: String)
        ensures
            r@ == problem_message(self@),
    {
        match self {
            ValidationError::FormatDelimiter { class, format } => {
                let mut m = "'".to_owned();
                m.append(class.as_str());
                m.append("' format string '");
                m.append(format.as_str());
                m.append("' must not contain grammar delimiters ' ' or '(' or ')'");
                m
            },
            ValidationError::FormatSpecifier { class, format } => {
                let mut m = "'".to_owned();
                m.append(class.as_str());
                m.append("' format string '");
                m.append(format.as_str());
                m.append("' must not contain specifiers '%c', '%t', and '%n'");
                m
            },
            ValidationError::ClassSeparators { separators, class } => {
                let mut m = "separator(s) '".to_owned();
                m.append(separators.as_str());
                m.append("' can not be used with an expression containing type '");
                m.append(class.as_str());
                m.append("'");
                m
            },
            ValidationError::FormatSeparators { separators, class, format } => {
                let mut m = "separator(s) '".to_owned();
                m.append(separators.as_str());
                m.append("' can not be used in '");
                m.append(class.as_str());
                m.append("' format string '");
                m.append(format.as_str());
                m.append("' with an expression containing '");
                m.append(class.as_str());
                m.append("'");
                m
            },
        }
    }
}

/// The format contains a character that delimits grammar elements.
pub open spec fn has_delimiter(format: Seq<char>) -> bool {
    exists|i: int| 0 <= i < format.len() && (format[i] == ' ' || format[i] == '(' || format[i] == ')')
}

/// The format contains a specifier that stands for white space or `%`.
pub open spec fn has_spacing_specifier(format: Seq<char>) -> bool {
    occurs_in(format, "%c"@) || occurs_in(format, "%t"@) || occurs_in(format, "%n"@) || occurs_in(
        format,
        "%%"@,
    )
}

/// The problem with the format of `class`, if any.
pub open spec fn format_problem(class: Seq<char>, format: Seq<char>) -> Option<Problem> {
    if has_delimiter(format) {
        Some(Problem::FormatDelimiter(class, format))
    } else if has_spacing_specifier(format) {
        Some(Problem::FormatSpecifier(class, format))
    } else {
        None
    }
}

/// The problem with the four formats, the first one found.
pub open spec fn formats_problem(formats: Formats) -> Option<Problem> {
    if format_problem("$date"@, formats.date@) is Some {
        format_problem("$date"@, formats.date@)
    } else if format_problem("$time"@, formats.time@) is Some {
        format_problem("$time"@, formats.time@)
    } else if format_problem("$dateTime"@, formats.date_time@) is Some {
        format_problem("$dateTime"@, formats.date_time@)
    } else {
        format_problem("$localDateTime"@, formats.local_date_time@)
    }
}

/// The characters of `characters` that separate tokens.
pub open spec fn separating(separates: spec_fn(char) -> bool, characters: Seq<char>) -> Seq<char> {
    characters.filter(separates)
}

/// The expression uses `class` and some of `characters` separate tokens.
pub open spec fn class_problem(expression: Seq<char>, class: Seq<char>, separates: spec_fn(char) -> bool, characters: Seq<char>) -> Option<Problem> {
    if occurs_in(expression, class) && separating(separates, characters).len() != 0 {
        Some(Problem::ClassSeparators(separating(separates, characters), class))
    } else {
        None
    }
}

/// The format without its `%` characters.
pub open spec fn raw_format(format: Seq<char>) -> Seq<char> {
    format.filter(|c: char| c != '%')
}

/// The expression uses `class` and some characters of its format (without
/// `%`) separate tokens.
pub open spec fn format_separators_problem(expression: Seq<char>, class: Seq<char>, separates: spec_fn(char) -> bool, format: Seq<char>) -> Option<Problem> {
    if occurs_in(expression, class) && separating(separates, raw_format(format)).len() != 0 {
        Some(Problem::FormatSeparators(separating(separates, raw_format(format)), class, format))
    } else {
        None
    }
}

/// Each typed variable with the characters that its values may contain.
pub open spec fn class_characters() -> Seq<(Seq<char>, Seq<char>)> {
    seq![
        ("$integer"@, "+-"@),
        ("$float"@, "+-."@),
        ("$id"@, "+-.:_"@),
        ("$date"@, "/-.:+"@),
        ("$time"@, "/-.:+"@),
        ("$dateTime"@, "/-.:+"@),
        ("$localDateTime"@, "/-.:+"@),
        ("$ipAddress"@, ".:"@),
        ("$ipv4Address"@, "."@),
        ("$ipv6Address"@, ":"@),
        ("$ipSocketAddress"@, ".:[]"@),
        ("$ipv4SocketAddress"@, ".:"@),
        ("$ipv6SocketAddress"@, "[]:"@),
        ("$ipNetwork"@, ".:/"@),
        ("$ipv4Network"@, "./"@),
        ("$ipv6Network"@, ":/"@),
        ("$semanticVersion"@, ".-+"@),
    ]
}

/// Each date and time variable with its format.
pub open spec fn class_formats(formats: Formats) -> Seq<(Seq<char>, Seq<char>)> {
    seq![
        ("$date"@, formats.date@),
        ("$time"@, formats.time@),
        ("$dateTime"@, formats.date_time@),
        ("$localDateTime"@, formats.local_date_time@),
    ]
}

/// The first class problem among `checks`.
pub open spec fn first_class_problem(expression: Seq<char>, separates: spec_fn(char) -> bool, checks: Seq<(Seq<char>, Seq<char>)>) -> Option<Problem>
    decreases checks.len(),
{
    if checks.len() == 0 {
        None
    } else {
        match class_problem(expression, checks[0].0, separates, checks[0].1) {
            Some(p) => Some(p),
            None => first_class_problem(expression, separates, checks.drop_first()),
        }
    }
}

/// The first format separator problem among `checks`.
pub open spec fn first_format_problem(expression: Seq<char>, separates: spec_fn(char) -> bool, checks: Seq<(Seq<char>, Seq<char>)>) -> Option<Problem>
    decreases checks.len(),
{
    if checks.len() == 0 {
        None
    } else {
        match format_separators_problem(expression, checks[0].0, separates, checks[0].1) {
            Some(p) => Some(p),
            None => first_format_problem(expression, separates, checks.drop_first()),
        }
    }
}

/// The problem with the separators for the expression: the first variable
/// that the expression uses whose values, or whose format, contain a
/// separator.
pub open spec fn separators_problem(expression: Seq<char>, separates: spec_fn(char) -> bool, formats: Formats) -> Option<Problem> {
    match first_class_problem(expression, separates, class_characters()) {
        Some(p) => Some(p),
        None => first_format_problem(expression, separates, class_formats(formats)),
    }
}

proof fn lemma_filter_monotone(chars: Seq<char>, fewer: spec_fn(char) -> bool, more: spec_fn(char) -> bool)
    requires
        forall|c: char| #[trigger] fewer(c) ==> more(c),
    ensures
        chars.filter(fewer).len() > 0 ==> chars.filter(more).len() > 0,
        (forall|c: char| !#[trigger] more(c)) ==> chars.filter(more).len() == 0,
    decreases chars.len(),
{
    reveal(Seq::filter);
    if chars.len() > 0 {
        lemma_filter_monotone(chars.drop_last(), fewer, more);
    }
}

proof fn lemma_first_class_problem_monotone(expression: Seq<char>, fewer: spec_fn(char) -> bool, more: spec_fn(char) -> bool, checks: Seq<(Seq<char>, Seq<char>)>)
    requires
        forall|c: char| #[trigger] fewer(c) ==> more(c),
    ensures
        first_class_problem(expression, fewer, checks) is Some ==> first_class_problem(
            expression,
            more,
            checks,
        ) is Some,
        (forall|c: char| !#[trigger] more(c)) ==> first_class_problem(expression, more, checks) is None,
    decreases checks.len(),
{
    if checks.len() > 0 {
        lemma_filter_monotone(checks[0].1, fewer, more);
        lemma_first_class_problem_monotone(expression, fewer, more, checks.drop_first());
    }
}

proof fn lemma_first_format_problem_monotone(expression: Seq<char>, fewer: spec_fn(char) -> bool, more: spec_fn(char) -> bool, checks: Seq<(Seq<char>, Seq<char>)>)
    requires
        forall|c: char| #[trigger] fewer(c) ==> more(c),
    ensures
        first_format_problem(expression, fewer, checks) is Some ==> first_format_problem(
            expression,
            more,
            checks,
        ) is Some,
        (forall|c: char| !#[trigger] more(c)) ==> first_format_problem(expression, more, checks) is None,
    decreases checks.len(),
{
    if checks.len() > 0 {
        lemma_filter_monotone(raw_format(checks[0].1), fewer, more);
        lemma_first_format_problem_monotone(expression, fewer, more, checks.drop_first());
    }
}

/// Fewer separators never make the separator check fail: when every
/// character that separates under `fewer` also separates under `more`, and
/// `validate_separators` accepts `more`, it accepts `fewer`. With no
/// separator at all it accepts every expression and formats.
pub proof fn lemma_fewer_separators_pass(expression: Seq<char>, fewer: Separators, more: Separators, formats: Formats)
    requires
        forall|c: char| #[trigger] fewer.comprises(c) ==> more.comprises(c),
    ensures
        separators_problem(expression, separator_test(more), formats) is None ==> separators_problem(
            expression,
            separator_test(fewer),
            formats,
        ) is None,
        (forall|c: char| !#[trigger] fewer.comprises(c)) ==> separators_problem(
            expression,
            separator_test(fewer),
            formats,
        ) is None,
{
    let f = separator_test(fewer);
    let m = separator_test(more);
    assert forall|c: char| #[trigger] f(c) implies m(c) by {}
    lemma_first_class_problem_monotone(expression, f, m, class_characters());
    lemma_first_format_problem_monotone(expression, f, m, class_formats(formats));
    if forall|c: char| !#[trigger] fewer.comprises(c) {
        assert forall|c: char| #[trigger] f(c) implies f(c) by {}
        assert forall|c: char| !#[trigger] f(c) by {}
        lemma_first_class_problem_monotone(expression, f, f, class_characters());
        lemma_first_format_problem_monotone(expression, f, f, class_formats(formats));
    }
}

/// Checks of settings against the grammar.
pub struct Validator {}

impl Validator {
    /// Checks the four formats, in the order date, time, date and time, local
    /// date and time.
    pub fn validate_formats(formats: &Formats) -> (r: Result<(), ValidationError>)
        ensures
            match formats_problem(*formats) {
                Some(p) => r matches Err(e) && e@ == p,
                None => r is Ok,
            },
    {
        Validator::validate_format("$date", formats.date.as_str())?;
        Validator::validate_format("$time", formats.time.as_str())?;
        Validator::validate_format("$dateTime", formats.date_time.as_str())?;
        Validator::validate_format("$localDateTime", formats.local_date_time.as_str())?;
        Ok(())
    }

    /// A format must not contain grammar delimiters, nor specifiers that
    /// stand for white space or `%`.
    fn validate_format(class: &str, format: &str) -> (r: Result<(), ValidationError>)
        ensures
            match format_problem(class@, format@) {
                Some(p) => r matches Err(e) && e@ == p,
                None => r is Ok,
            },
    {
        let chars = chars_of(format);
        let mut i: usize = 0;
        while i < chars.len()
            invariant
                0 <= i <= chars.len(),
                chars@ == format@,
                forall|k: int| 0 <= k < i ==> !(chars@[k] == ' ' || chars@[k] == '(' || chars@[k] == ')'),
            decreases chars.len() - i,
        {
            let c = chars[i];
            if c == ' ' || c == '(' || c == ')' {
                return Err(
                    ValidationError::FormatDelimiter {
                        class: class.to_owned(),
                        format: format.to_owned(),
                    },
                );
            }
            i = i + 1;
        }
        if occurs_in_exec(&chars, &chars_of("%c")) || occurs_in_exec(&chars, &chars_of("%t"))
            || occurs_in_exec(&chars, &chars_of("%n")) || occurs_in_exec(&chars, &chars_of("%%")) {
            return Err(
                ValidationError::FormatSpecifier { class: class.to_owned(), format: format.to_owned() },
            );
        }
        Ok(())
    }

    /// Checks that no separator occurs in the values, or the formats, of the
    /// typed variables that the expression uses.
    pub fn validate_separators(expression: &str, separators: &Separators, formats: &Formats) -> (r: Result<(), ValidationError>)
        ensures
            match separators_problem(expression@, separator_test(*separators), *formats) {
                Some(p) => r matches Err(e) && e@ == p,
                None => r is Ok,
            },
    {
        let checks: Vec<(&str, &str)> = vec![
            ("$integer", "+-"),
            ("$float", "+-."),
            ("$id", "+-.:_"),
            ("$date", "/-.:+"),
            ("$time", "/-.:+"),
            ("$dateTime", "/-.:+"),
            ("$localDateTime", "/-.:+"),
            ("$ipAddress", ".:"),
            ("$ipv4Address", "."),
            ("$ipv6Address", ":"),
            ("$ipSocketAddress", ".:[]"),
            ("$ipv4SocketAddress", ".:"),
            ("$ipv6SocketAddress", "[]:"),
            ("$ipNetwork", ".:/"),
            ("$ipv4Network", "./"),
            ("$ipv6Network", ":/"),
            ("$semanticVersion", ".-+"),
        ];
        let ghost views = checks@.map_values(|c: (&str, &str)| (c.0@, c.1@));
        assert(views =~= class_characters());
        let mut i: usize = 0;
        assert(views.skip(0) =~= views);
        while i < checks.len()
            invariant
                0 <= i <= checks.len(),
                views == checks@.map_values(|c: (&str, &str)| (c.0@, c.1@)),
                first_class_problem(expression@, separator_test(*separators), class_characters())
                    == first_class_problem(expression@, separator_test(*separators), views.skip(i as int)),
            decreases checks.len() - i,
        {
            let (class, characters) = checks[i];
            assert(views.skip(i as int)[0] == (class@, characters@));
            assert(views.skip(i as int).drop_first() =~= views.skip(i + 1));
            Validator::validate_class_separators(expression, class, separators, characters)?;
            i = i + 1;
        }
        assert(views.skip(i as int) =~= Seq::<(Seq<char>, Seq<char>)>::empty());
        let format_checks: Vec<(&str, &str)> = vec![
            ("$date", formats.date.as_str()),
            ("$time", formats.time.as_str()),
            ("$dateTime", formats.date_time.as_str()),
            ("$localDateTime", formats.local_date_time.as_str()),
        ];
        let ghost format_views = format_checks@.map_values(|c: (&str, &str)| (c.0@, c.1@));
        assert(format_views =~= class_formats(*formats));
        let mut k: usize = 0;
        assert(format_views.skip(0) =~= format_views);
        while k < format_checks.len()
            invariant
                0 <= k <= format_checks.len(),
                format_views == format_checks@.map_values(|c: (&str, &str)| (c.0@, c.1@)),
                first_class_problem(expression@, separator_test(*separators), class_characters()) is None,
                first_format_problem(expression@, separator_test(*separators), class_formats(*formats))
                    == first_format_problem(expression@, separator_test(*separators), format_views.skip(k as int)),
            decreases format_checks.len() - k,
        {
            let (class, format) = format_checks[k];
            assert(format_views.skip(k as int)[0] == (class@, format@));
            assert(format_views.skip(k as int).drop_first() =~= format_views.skip(k + 1));
            Validator::validate_format_separators(expression, class, separators, format)?;
            k = k + 1;
        }
        assert(format_views.skip(k as int) =~= Seq::<(Seq<char>, Seq<char>)>::empty());
        Ok(())
    }

    /// If the expression uses `class`, none of `characters` may separate.
    fn validate_class_separators(expression: &str, class: &str, separators: &Separators, characters: &str) -> (r: Result<(), ValidationError>)
        ensures
            match class_problem(expression@, class@, separator_test(*separators), characters@) {
                Some(p) => r matches Err(e) && e@ == p,
                None => r is Ok,
            },
    {
        if occurs_in_exec(&chars_of(expression), &chars_of(class)) {
            let found = separators.comprise_any(characters);
            if chars_of(found.as_str()).len() != 0 {
                return Err(ValidationError::ClassSeparators { separators: found, class: class.to_owned() });
            }
        }
        Ok(())
    }

    /// If the expression uses `class`, no character of its format (without
    /// `%`) may separate.
    fn validate_format_separators(expression: &str, class: &str, separators: &Separators, format: &str) -> (r: Result<(), ValidationError>)
        ensures
            match format_separators_problem(expression@, class@, separator_test(*separators), format@) {
                Some(p) => r matches Err(e) && e@ == p,
                None => r is Ok,
            },
    {
        if occurs_in_exec(&chars_of(expression), &chars_of(class)) {
            let raw = without_percent(format);
            let found = separators.comprise_any(raw.as_str());
            if chars_of(found.as_str()).len() != 0 {
                return Err(
                    ValidationError::FormatSeparators {
                        separators: found,
                        class: class.to_owned(),
                        format: format.to_owned(),
                    },
                );
            }
        }
        Ok(())
    }
}

/// `format.replace("%", "")`.
fn without_percent(format: &str) -> (r: String)
    ensures
        r@ == raw_format(format@),
{
    let chars = chars_of(format);
    let ghost keep = |c: char| c != '%';
    let mut kept: Vec<char> = Vec::new();
    let mut i: usize = 0;
    while i < chars.len()
        invariant
            0 <= i <= chars.len(),
            chars@ == format@,
            keep == (|c: char| c != '%'),
            kept@ == chars@.take(i as int).filter(keep),
        decreases chars.len() - i,
    {
        proof {
            reveal_with_fuel(Seq::<_>::filter, 1);
            assert(chars@.take(i + 1).drop_last() =~= chars@.take(i as int));
        }
        if chars[i] != '%' {
            kept.push(chars[i]);
        }
        i = i + 1;
    }
    assert(chars@.take(chars.len() as int) =~= chars@);
    string_from_chars(kept.as_slice())
}

} // verus!
