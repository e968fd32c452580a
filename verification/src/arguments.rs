//! The command's settings: which separators split tokens, the filter mode,
//! the date and time formats, and their checks against the expression.
use vstd::prelude::*;

use crate::dates::{strftime_error, strftime_error_position};
use crate::expression::Formats;
use crate::filter::{mode_named, InvalidMode, Mode, Settings};
use crate::text::same_text;
use crate::tokenizer::{
    is_valid_separator, is_white_space, separator_test, whitespaces_name, InvalidSeparator,
    Separators,
};
use crate::validator::{
    formats_problem, problem_message, separators_problem, ValidationError, Validator,
};

verus! {

/// The views of a sequence of string slices.
pub open spec fn str_views(v: Seq<&str>) -> Seq<Seq<char>> {
    v.map_values(|s: &str| s@)
}

/// The separators used when none are added or removed: all white space and
/// `,;|'"()<=>{}`.
pub open spec fn default_separator_names() -> Seq<Seq<char>> {
    seq![
        whitespaces_name(),
        seq![','],
        seq![';'],
        seq!['|'],
        seq!['\''],
        seq!['"'],
        seq!['('],
        seq![')'],
        seq!['<'],
        seq!['='],
        seq!['>'],
        seq!['{'],
        seq!['}'],
    ]
}

/// The separator names in use: the defaults and the added ones, without the
/// removed ones.
pub open spec fn separator_names(add: Seq<Seq<char>>, remove: Seq<Seq<char>>) -> Set<Seq<char>> {
    Set::new(
        |n: Seq<char>| (default_separator_names().contains(n) || add.contains(n)) && !remove.contains(n),
    )
}

/// Every named separator is valid.
pub open spec fn all_valid(names: Set<Seq<char>>) -> bool {
    forall|n: Seq<char>| #[trigger] names.contains(n) ==> is_valid_separator(n)
}

/// Whether a character splits tokens under the named separators.
pub open spec fn separates_under(names: Set<Seq<char>>) -> spec_fn(char) -> bool {
    |c: char| (names.contains(whitespaces_name()) && is_white_space(c)) || names.contains(seq![c])
}

/// The message for a format string that `chrono` cannot read.
pub open spec fn invalid_format_message(format: Seq<char>) -> Seq<char> {
    "Format string '"@ + format + "' invalid"@
}

/// Why settings were refused.
#[derive(Debug, PartialEq, Eq, Clone)]
pub enum ArgumentError {
    /// The mode name is unknown.
    Mode(InvalidMode),
    /// A separator name is not valid.
    Separator(InvalidSeparator),
    /// A date or time format cannot be used with the grammar.
    Formats(ValidationError),
    /// A separator occurs in the values, or the format, of a variable that
    /// the expression uses.
    Separators(ValidationError),
}

/// The message that reports why settings were refused.
pub open spec fn argument_message(e: ArgumentError) -> Seq<char> {
    match e {
        ArgumentError::Mode(m) => "invalid mode '"@ + m.mode@ + "'"@,
        ArgumentError::Separator(s) => "invalid separator '"@ + s.separator@ + "'"@,
        ArgumentError::Formats(v) => problem_message(v@),
        ArgumentError::Separators(v) => problem_message(v@),
    }
}

impl ArgumentError {
    /// The message that reports why the settings were refused.
    pub fn message(&self) -> (r: String)
        ensures
            r@ == argument_message(*self),
    {
        match self {
            ArgumentError::Mode(e) => e.message(),
            ArgumentError::Separator(e) => e.message(),
            ArgumentError::Formats(e) => e.message(),
            ArgumentError::Separators(e) => e.message(),
        }
    }
}

/// Whether one of the slices has the characters of `s`.
fn contains_text(v: &Vec<&str>, s: &str) -> (r: bool)
    ensures
        r == str_views(v@).contains(s@),
{
    let mut i: usize = 0;
    while i < v.len()
        invariant
            0 <= i <= v.len(),
            forall|k: int| 0 <= k < i ==> v@[k]@ != s@,
        decreases v.len() - i,
    {
        if same_text(v[i], s) {
            assert(str_views(v@)[i as int] == s@);
            return true;
        }
        i = i + 1;
    }
    proof {
        if str_views(v@).contains(s@) {
            let k = choose|k: int| 0 <= k < str_views(v@).len() && str_views(v@)[k] == s@;
            assert(v@[k]@ == s@);
        }
    }
    false
}

/// The default separator names.
fn default_separators() -> (r: Vec<&'static str>)
    ensures
        str_views(r@) == default_separator_names(),
{
    let r = vec!["[:space:]", ",", ";", "|", "'", "\"", "(", ")", "<", "=", ">", "{", "}"];
    proof {
        reveal_strlit("[:space:]");
        reveal_strlit(",");
        reveal_strlit(";");
        reveal_strlit("|");
        reveal_strlit("'");
        reveal_strlit("\"");
        reveal_strlit("(");
        reveal_strlit(")");
        reveal_strlit("<");
        reveal_strlit("=");
        reveal_strlit(">");
        reveal_strlit("{");
        reveal_strlit("}");
        assert(r@[0]@ =~= default_separator_names()[0]);
        assert(r@[1]@ =~= default_separator_names()[1]);
        assert(r@[2]@ =~= default_separator_names()[2]);
        assert(r@[3]@ =~= default_separator_names()[3]);
        assert(r@[4]@ =~= default_separator_names()[4]);
        assert(r@[5]@ =~= default_separator_names()[5]);
        assert(r@[6]@ =~= default_separator_names()[6]);
        assert(r@[7]@ =~= default_separator_names()[7]);
        assert(r@[8]@ =~= default_separator_names()[8]);
        assert(r@[9]@ =~= default_separator_names()[9]);
        assert(r@[10]@ =~= default_separator_names()[10]);
        assert(r@[11]@ =~= default_separator_names()[11]);
        assert(r@[12]@ =~= default_separator_names()[12]);
    }
    assert(str_views(r@) =~= default_separator_names());
    r
}

/// Appends the names that are neither present yet nor removed.
fn append_names<'a>(all: &mut Vec<&'a str>, names: &Vec<&'a str>, remove: &Vec<&'a str>)
    requires
        str_views(old(all)@).no_duplicates(),
    ensures
        str_views(final(all)@).no_duplicates(),
        forall|n: Seq<char>|
            #[trigger] str_views(final(all)@).contains(n) <==> (str_views(old(all)@).contains(n) || (
            str_views(names@).contains(n) && !str_views(remove@).contains(n))),
{
    let ghost start = str_views(all@);
    let mut i: usize = 0;
    while i < names.len()
        invariant
            0 <= i <= names.len(),
            str_views(all@).no_duplicates(),
            forall|n: Seq<char>|
                #[trigger] str_views(all@).contains(n) <==> (start.contains(n) || (str_views(
                    names@,
                ).take(i as int).contains(n) && !str_views(remove@).contains(n))),
        decreases names.len() - i,
    {
        let name = names[i];
        let ghost before = str_views(all@);
        let ghost taken = str_views(names@).take(i as int);
        let ghost next = str_views(names@).take(i + 1);
        assert(next =~= taken.push(name@));
        if !contains_text(all, name) && !contains_text(remove, name) {
            all.push(name);
            assert(str_views(all@) =~= before.push(name@));
            assert forall|n: Seq<char>| #[trigger] str_views(all@).contains(n) <==> (start.contains(n) || (
            next.contains(n) && !str_views(remove@).contains(n))) by {
                if before.contains(n) {
                    let k = choose|k: int| 0 <= k < before.len() && before[k] == n;
                    assert(str_views(all@)[k] == n);
                }
                if taken.contains(n) {
                    let k = choose|k: int| 0 <= k < taken.len() && taken[k] == n;
                    assert(next[k] == n);
                }
                if next.contains(n) && n != name@ {
                    let k = choose|k: int| 0 <= k < next.len() && next[k] == n;
                    assert(taken[k] == n);
                }
                if str_views(all@).contains(n) && n != name@ {
                    let k = choose|k: int| 0 <= k < str_views(all@).len() && str_views(all@)[k] == n;
                    assert(before[k] == n);
                }
                assert(next[i as int] == name@);
                assert(str_views(all@)[before.len() as int] == name@);
            }
        } else {
            assert forall|n: Seq<char>| #[trigger] str_views(all@).contains(n) <==> (start.contains(n) || (
            next.contains(n) && !str_views(remove@).contains(n))) by {
                if taken.contains(n) {
                    let k = choose|k: int| 0 <= k < taken.len() && taken[k] == n;
                    assert(next[k] == n);
                }
                if next.contains(n) && n != name@ {
                    let k = choose|k: int| 0 <= k < next.len() && next[k] == n;
                    assert(taken[k] == n);
                }
            }
        }
        i = i + 1;
    }
    assert(str_views(names@).take(names.len() as int) =~= str_views(names@));
}

/// The settings of a run of the command.
pub struct Arguments {
    pub expression: String,
    pub separators: Separators,
    pub settings: Settings,
}

impl Arguments {
    /// The separator names to use: the defaults and `add_separators`,
    /// without `remove_separators`, each once.
    pub fn separators<'a>(add_separators: Vec<&'a str>, remove_separators: Vec<&'a str>) -> (r: Vec<&'a str>)
        ensures
            str_views(r@).to_set() == separator_names(
                str_views(add_separators@),
                str_views(remove_separators@),
            ),
            str_views(r@).no_duplicates(),
    {
        let defaults = default_separators();
        let mut all: Vec<&'a str> = Vec::new();
        assert(str_views(all@) =~= Seq::<Seq<char>>::empty());
        append_names(&mut all, &defaults, &remove_separators);
        append_names(&mut all, &add_separators, &remove_separators);
        assert(str_views(all@).to_set() =~= separator_names(
            str_views(add_separators@),
            str_views(remove_separators@),
        ));
        all
    }

    /// The verdict on a format string, given the index of the first item
    /// that `chrono` could not read, if any.
    pub fn strftime_verdict(format: &str, error: Option<usize>) -> (r: Result<(), String>)
        ensures
            match error {
                None => r is Ok,
                Some(_) => r matches Err(m) && m@ == invalid_format_message(format@),
            },
    {
        match error {
            None => Ok(()),
            Some(_) => {
                let mut message = "Format string '".to_owned();
                message.append(format);
                message.append("' invalid");
                Err(message)
            },
        }
    }

    /// Checks that `chrono` can read every specifier of the format string.
    pub fn validate_strftime(format: String) -> (r: Result<(), String>)
        ensures
            match strftime_error_position(format@) {
                None => r is Ok,
                Some(_) => r matches Err(m) && m@ == invalid_format_message(format@),
            },
    {
        let error = strftime_error(format.as_str());
        Arguments::strftime_verdict(format.as_str(), error)
    }

    /// The settings for `expression`, in the order the checks are made:
    /// the mode name, the separator names, the formats, and the separators
    /// against the variables and formats that the expression uses.
    pub fn new(
        expression: String,
        mode: &str,
        count: bool,
        formats: Formats,
        add_separators: Vec<&str>,
        remove_separators: Vec<&str>,
    ) -> (r: Result<Arguments, ArgumentError>)
        ensures
            ({
                let names = separator_names(
                    str_views(add_separators@),
                    str_views(remove_separators@),
                );
                match mode_named(mode@) {
                    None => r matches Err(ArgumentError::Mode(e)) && e.mode@ == mode@,
                    Some(m) => if !all_valid(names) {
                        r matches Err(ArgumentError::Separator(e)) && names.contains(e.separator@)
                            && !is_valid_separator(e.separator@)
                    } else {
                        match formats_problem(formats) {
                            Some(p) => r matches Err(ArgumentError::Formats(e)) && e@ == p,
                            None => match separators_problem(
                                expression@,
                                separates_under(names),
                                formats,
                            ) {
                                Some(p) => r matches Err(ArgumentError::Separators(e)) && e@ == p,
                                None => r matches Ok(a) && a.expression@ == expression@
                                    && a.settings.mode == m && a.settings.count == count
                                    && a.settings.formats == formats && separator_test(a.separators)
                                    == separates_under(names),
                            },
                        }
                    },
                }
            }),
    {
        let ghost names = separator_names(
            str_views(add_separators@),
            str_views(remove_separators@),
        );
        let mode = match Mode::from_str(mode) {
            Ok(m) => m,
            Err(e) => {
                return Err(ArgumentError::Mode(e));
            },
        };
        let list = Arguments::separators(add_separators, remove_separators);
        let ghost views = str_views(list@);
        assert forall|n: Seq<char>| views.contains(n) <==> #[trigger] names.contains(n) by {
            assert(views.to_set().contains(n) == views.contains(n));
        }
        let separators = match Separators::new(list) {
            Ok(s) => s,
            Err(e) => {
                proof {
                    let k = choose|k: int|
                        0 <= k < list.len() && !is_valid_separator(#[trigger] list@[k]@)
                            && e.separator@ == list@[k]@;
                    assert(views[k] == list@[k]@);
                    assert(names.contains(e.separator@));
                }
                return Err(ArgumentError::Separator(e));
            },
        };
        proof {
            assert forall|n: Seq<char>| #[trigger] names.contains(n) implies is_valid_separator(n) by {
                let k = choose|k: int| 0 <= k < views.len() && views[k] == n;
                assert(list@[k]@ == n);
            }
            assert forall|c: char| #[trigger] separator_test(separators)(c) == separates_under(names)(
                c,
            ) by {
                if names.contains(whitespaces_name()) {
                    let k = choose|k: int| 0 <= k < views.len() && views[k] == whitespaces_name();
                    assert(list@[k]@ == whitespaces_name());
                }
                if separators.includes_white_space() {
                    let k = choose|k: int|
                        0 <= k < list.len() && #[trigger] list@[k]@ == whitespaces_name();
                    assert(views[k] == whitespaces_name());
                }
                if names.contains(seq![c]) {
                    let k = choose|k: int| 0 <= k < views.len() && views[k] == seq![c];
                    assert(list@[k]@ == seq![c]);
                    assert(is_valid_separator(seq![c]));
                    assert(seq![c].len() == 1);
                    assert(seq![c][0] == c);
                }
                if separators.characters().contains(c) {
                    let k = choose|k: int|
                        0 <= k < list.len() && #[trigger] list@[k]@ == seq![c]
                            && crate::tokenizer::is_separator_character(c);
                    assert(views[k] == seq![c]);
                }
            }
            assert(separator_test(separators) =~= separates_under(names));
        }
        match Validator::validate_formats(&formats) {
            Ok(()) => {},
            Err(e) => {
                return Err(ArgumentError::Formats(e));
            },
        }
        match Validator::validate_separators(expression.as_str(), &separators, &formats) {
            Ok(()) => {},
            Err(e) => {
                return Err(ArgumentError::Separators(e));
            },
        }
        Ok(Arguments { expression, separators, settings: Settings { formats, mode, count } })
    }
}

} // verus!
