use semfilter::arguments::{ArgumentError, Arguments};
use semfilter::expression::Formats;
use semfilter::filter::Mode;
use semfilter::validator::ValidationError;

fn default_formats() -> Formats {
    Formats {
        date: String::from("%F"),
        time: String::from("%T"),
        date_time: String::from("%+"),
        local_date_time: String::from("%Y-%m-%dT%H:%M:%S%.f"),
    }
}

fn sorted(mut names: Vec<&str>) -> Vec<&str> {
    names.sort();
    names
}

#[test]
fn default_separators() {
    let names = Arguments::separators(vec![], vec![]);
    assert_eq!(
        sorted(names),
        sorted(vec!["[:space:]", ",", ";", "|", "'", "\"", "(", ")", "<", "=", ">", "{", "}"])
    );
}

#[test]
fn added_and_removed_separators() {
    let names = Arguments::separators(vec!["#", ",", "#"], vec!["[:space:]", "{", "#"]);
    assert_eq!(sorted(names), sorted(vec![",", ";", "|", "'", "\"", "(", ")", "<", "=", ">", "}"]));
    let names = Arguments::separators(vec!["-"], vec![]);
    assert_eq!(names.len(), 14);
    assert!(names.contains(&"-"));
}

#[test]
fn strftime_formats() {
    assert_eq!(Arguments::validate_strftime(String::from("%Y-%m-%d")), Ok(()));
    assert_eq!(Arguments::validate_strftime(String::from("%+")), Ok(()));
    assert_eq!(
        Arguments::validate_strftime(String::from("%Q")),
        Err(String::from("Format string '%Q' invalid"))
    );
    assert_eq!(
        Arguments::validate_strftime(String::from("%Y-%")),
        Err(String::from("Format string '%Y-%' invalid"))
    );
    assert_eq!(Arguments::strftime_verdict("%F", None), Ok(()));
    assert_eq!(Arguments::strftime_verdict("%F", Some(0)), Err(String::from("Format string '%F' invalid")));
}

#[test]
fn settings_from_values() {
    let arguments = Arguments::new(
        String::from("$integer == 5"),
        "filter",
        true,
        default_formats(),
        vec![],
        vec![],
    )
    .unwrap();
    assert_eq!(arguments.expression, "$integer == 5");
    assert_eq!(arguments.settings.mode, Mode::Filter);
    assert!(arguments.settings.count);
    assert!(arguments.separators.comprise(' '));
    assert!(arguments.separators.comprise('\t'));
    assert!(arguments.separators.comprise('='));
    assert!(!arguments.separators.comprise('-'));
}

#[test]
fn settings_errors() {
    let error = Arguments::new(String::from("$id == a"), "grep", false, default_formats(), vec![], vec![]);
    assert!(matches!(error, Err(ArgumentError::Mode(e)) if e.mode == "grep"));
    let error = Arguments::new(String::from("$id == a"), "filter", false, default_formats(), vec!["xy"], vec![]);
    assert!(matches!(error, Err(ArgumentError::Separator(e)) if e.separator == "xy"));
    let mut formats = default_formats();
    formats.date = String::from("(%F)");
    let error = Arguments::new(String::from("$id == a"), "filter", false, formats, vec![], vec![]);
    assert!(matches!(error, Err(ArgumentError::Formats(ValidationError::FormatDelimiter { .. }))));
    let error = Arguments::new(String::from("$id == a"), "highlight", false, default_formats(), vec![":"], vec![]);
    assert_eq!(
        error.err().unwrap(),
        ArgumentError::Separators(ValidationError::ClassSeparators {
            separators: String::from(":"),
            class: String::from("$id"),
        })
    );
    let fine = Arguments::new(String::from("$id == a"), "highlight", false, default_formats(), vec![":"], vec![":"]);
    assert!(fine.is_ok());
}

#[test]
fn argument_error_messages() {
    let error = Arguments::new(String::from("$id == a"), "grep", false, default_formats(), vec![], vec![]);
    assert_eq!(error.err().unwrap().message(), "invalid mode 'grep'");
    let error = Arguments::new(String::from("$id == a"), "filter", false, default_formats(), vec![":"], vec![]);
    assert_eq!(
        error.err().unwrap().message(),
        "separator(s) ':' can not be used with an expression containing type '$id'"
    );
}
