use semfilter::ansi::Colour;
use semfilter::expression::{float_words_of, Formats};
use semfilter::filter::{Filter, Lines, Mode, Settings};
use semfilter::floats::FloatValues;
use semfilter::tokenizer::{Separators, Tokenizer};

fn default_formats() -> Formats {
    Formats {
        date: String::from("%F"),
        time: String::from("%T"),
        date_time: String::from("%+"),
        local_date_time: String::from("%Y-%m-%dT%H:%M:%S%.f"),
    }
}

fn settings(mode: Mode) -> Settings {
    Settings { formats: default_formats(), mode, count: false }
}

fn tokenizer() -> Tokenizer {
    Tokenizer::new(Separators::new(vec![" "]).unwrap()).unwrap()
}

/// Runs the filter over the lines of `input` as the command does, and
/// returns the counts and what was written.
fn run(filter: &Filter, tokenizer: &Tokenizer, expression: &str, input: &str) -> (Lines, String) {
    let mut lines = Lines { processed: 0, matched: 0 };
    let mut output = String::new();
    for line in input.lines() {
        let tokens = tokenizer.tokens(line);
        let mut floats = FloatValues::new();
        for word in float_words_of(expression, &tokens) {
            if let Ok(value) = word.parse::<f64>() {
                floats.insert(&word, value.to_bits());
            }
        }
        if let Some(text) = filter.process(line, &floats, &mut lines).unwrap() {
            output.push_str(&text);
            output.push('\n');
        }
    }
    (lines, output)
}

fn input_text() -> String {
    format!("{}\n", "lorem ipsum dolor sit amet consectetuer")
}

#[test]
fn empty() {
    let tokenizer = tokenizer();
    let expression = "$integer == 9";
    let settings = settings(Mode::Filter);
    let filter = Filter::new(&tokenizer, expression, &settings).unwrap();
    let (lines, output) = run(&filter, &tokenizer, expression, "");
    assert_eq!(0, lines.processed);
    assert_eq!(0, lines.matched);
    assert_eq!("", output);
}

#[test]
fn highlight_matched() {
    let colour = ansi_term::Colour::Red;
    let expected_text = format!("lorem {} dolor sit amet consectetuer\n", colour.paint("ipsum"));
    let tokenizer = tokenizer();
    let expression = "$id == ipsum";
    let settings = settings(Mode::Highlight(Colour::Red));
    let filter = Filter::new(&tokenizer, expression, &settings).unwrap();
    let (lines, output) = run(&filter, &tokenizer, expression, &input_text());
    assert_eq!(1, lines.processed);
    assert_eq!(1, lines.matched);
    assert_eq!(expected_text, output);
}

#[test]
fn highlight_unmatched() {
    let tokenizer = tokenizer();
    let expression = "$id == abc";
    let settings = settings(Mode::Highlight(Colour::Red));
    let filter = Filter::new(&tokenizer, expression, &settings).unwrap();
    let (lines, output) = run(&filter, &tokenizer, expression, &input_text());
    assert_eq!(1, lines.processed);
    assert_eq!(0, lines.matched);
    assert_eq!(input_text(), output);
}

#[test]
fn filter_matched() {
    let tokenizer = tokenizer();
    let expression = "$id == ipsum";
    let settings = settings(Mode::Filter);
    let filter = Filter::new(&tokenizer, expression, &settings).unwrap();
    let (lines, output) = run(&filter, &tokenizer, expression, &input_text());
    assert_eq!(1, lines.processed);
    assert_eq!(1, lines.matched);
    assert_eq!(input_text(), output);
}

#[test]
fn filter_unmatched() {
    let tokenizer = tokenizer();
    let expression = "$id == abc";
    let settings = settings(Mode::Filter);
    let filter = Filter::new(&tokenizer, expression, &settings).unwrap();
    let (lines, output) = run(&filter, &tokenizer, expression, &input_text());
    assert_eq!(1, lines.processed);
    assert_eq!(0, lines.matched);
    assert_ne!(input_text(), output);
    assert_eq!("", output);
}

#[test]
fn filter_highlight_matched() {
    let colour = ansi_term::Colour::Red;
    let expected_text = format!("lorem {} dolor sit amet consectetuer\n", colour.paint("ipsum"));
    let tokenizer = tokenizer();
    let expression = "$id == ipsum";
    let settings = settings(Mode::FilterHighlight(Colour::Red));
    let filter = Filter::new(&tokenizer, expression, &settings).unwrap();
    let (lines, output) = run(&filter, &tokenizer, expression, &input_text());
    assert_eq!(1, lines.processed);
    assert_eq!(1, lines.matched);
    assert_eq!(expected_text, output);
}

#[test]
fn filter_highlight_unmatched() {
    let tokenizer = tokenizer();
    let expression = "$id == abc";
    let settings = settings(Mode::FilterHighlight(Colour::Red));
    let filter = Filter::new(&tokenizer, expression, &settings).unwrap();
    let (lines, output) = run(&filter, &tokenizer, expression, &input_text());
    assert_eq!(1, lines.processed);
    assert_eq!(0, lines.matched);
    assert_ne!(input_text(), output);
    assert_eq!("", output);
}

#[test]
fn invalid_expression_is_refused() {
    let tokenizer = tokenizer();
    let settings = settings(Mode::Filter);
    assert!(Filter::new(&tokenizer, "$integer = 9", &settings).is_err());
    assert!(Filter::new(&tokenizer, "", &settings).is_err());
}

#[test]
fn counts_lines_across_calls() {
    let tokenizer = tokenizer();
    let expression = "$integer > 2";
    let settings = settings(Mode::Filter);
    let filter = Filter::new(&tokenizer, expression, &settings).unwrap();
    let (lines, output) = run(&filter, &tokenizer, expression, "1 2\n3 4\nno numbers\n5\n");
    assert_eq!(4, lines.processed);
    assert_eq!(2, lines.matched);
    assert_eq!("3 4\n5\n", output);
}

#[test]
fn highlight_paints_each_matched_token_in_other_colours() {
    let tokenizer = tokenizer();
    let expression = "$integer >= 3";
    let fixed = settings(Mode::Highlight(Colour::Fixed(208)));
    let filter = Filter::new(&tokenizer, expression, &fixed).unwrap();
    let (_, output) = run(&filter, &tokenizer, expression, "1 3 5\n");
    let paint = ansi_term::Colour::Fixed(208);
    assert_eq!(format!("1 {} {}\n", paint.paint("3"), paint.paint("5")), output);
    let rgb = settings(Mode::Highlight(Colour::RGB(1, 22, 255)));
    let filter = Filter::new(&tokenizer, expression, &rgb).unwrap();
    let (_, output) = run(&filter, &tokenizer, expression, "3\n");
    assert_eq!(format!("{}\n", ansi_term::Colour::RGB(1, 22, 255).paint("3")), output);
    assert_eq!(output, "\u{1b}[38;2;1;22;255m3\u{1b}[0m\n");
}

#[test]
fn mode_names() {
    assert_eq!(Mode::from_str("filter"), Ok(Mode::Filter));
    assert_eq!(Mode::from_str("highlight"), Ok(Mode::Highlight(Colour::Red)));
    assert_eq!(Mode::from_str("filter-and-highlight"), Ok(Mode::FilterHighlight(Colour::Red)));
    assert_eq!(Mode::from_str("grep").err().unwrap().mode, "grep");
    assert!(!Mode::Filter.is_highlight());
    assert!(Mode::Highlight(Colour::Blue).is_highlight());
}

#[test]
fn ansi_support_is_enabled() {
    let settings = settings(Mode::Highlight(Colour::Red));
    assert_eq!(semfilter::ansi::enable_ansi_support(&settings), Ok(()));
}

/// Runs the command's logic with its default separators, in the filter mode.
fn run_command(expression: &str, time_format: &str, input: &str) -> String {
    let mut formats = default_formats();
    formats.time = String::from(time_format);
    let arguments = semfilter::arguments::Arguments::new(
        String::from(expression),
        "filter",
        false,
        formats,
        vec![],
        vec![],
    )
    .unwrap();
    let tokenizer = Tokenizer::new(arguments.separators).unwrap();
    let filter = Filter::new(&tokenizer, &arguments.expression, &arguments.settings).unwrap();
    run(&filter, &tokenizer, expression, input).1
}

#[test]
fn readme_git_tags() {
    let output = run_command("$semanticVersion >= 0.2.0", "%T", "0.1.0\n0.2.0\n0.3.0\n0.4.0\n");
    assert_eq!(output, "0.2.0\n0.3.0\n0.4.0\n");
}

fn w_output() -> String {
    [
        "21:41:07 up 12 days, 10:08,  2 users,  load average: 0.28, 0.20, 0.10",
        "USER      TTY      FROM        LOGIN@   IDLE   JCPU   PCPU  WHAT",
        "root      pts/0    10.10.0.2   20:59    1.00s  0.02s  0.00s w",
        "qpanda    pts/1    10.10.0.8   21:41    7.00s  0.00s  0.00s zsh",
        "qpanda    pts/1    10.10.0.7   20:01    7.00s  0.00s  0.00s zsh",
        "",
    ]
    .join("\n")
}

#[test]
fn readme_w_addresses() {
    let output = run_command("$id == qpanda and $ipv4Address == 10.10.0.7", "%T", &w_output());
    assert_eq!(output, "qpanda    pts/1    10.10.0.7   20:01    7.00s  0.00s  0.00s zsh\n");
}

#[test]
fn readme_w_times() {
    let output = run_command("$id == qpanda and $time > 21:00", "%R", &w_output());
    assert_eq!(output, "qpanda    pts/1    10.10.0.8   21:41    7.00s  0.00s  0.00s zsh\n");
}

#[test]
fn readme_netstat() {
    let input = [
        "Active Internet connections (w/o servers)",
        "Proto Recv-Q Send-Q Local Address           Foreign Address         State",
        "tcp        1      0 109.74.193.253:25       193.32.160.143:41356    ESTABLISHED",
        "tcp        0      0 109.74.193.253:22       79.131.135.223:64917    ESTABLISHED",
        "tcp        1      0 109.74.193.253:25       193.32.160.136:37752    CLOSE_WAIT",
        "tcp        1      0 109.74.193.253:25       193.32.160.136:49900    CLOSE_WAIT",
        "tcp        1      0 109.74.193.253:25       193.32.160.136:37752    ESTABLISHED",
        "tcp        1      0 109.74.193.253:25       193.32.160.136:49900    CLOSE_WAIT",
        "tcp        0      0 109.74.193.253:80       104.18.40.175:26111     SYN_RECV",
        "",
    ]
    .join("\n");
    let output = run_command(
        "$id == ESTABLISHED and ip($ipv4SocketAddress) in 193.32.160.0/24",
        "%T",
        &input,
    );
    assert_eq!(
        output,
        "tcp        1      0 109.74.193.253:25       193.32.160.143:41356    ESTABLISHED\n\
         tcp        1      0 109.74.193.253:25       193.32.160.136:37752    ESTABLISHED\n"
    );
}
