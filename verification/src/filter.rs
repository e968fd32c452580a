//! Filtering and highlighting lines: the decisions made for each input line.
//! Reading the lines and writing the output is left to the caller.
use vstd::prelude::*;

use std::collections::HashSet;
use vstd::string::StringExecFns;

use crate::ansi::{paint, painted, Colour};
use crate::expression::{
    evaluate, evaluation, lemma_validity_is_independent_of_line, Formats, InvalidExpression,
};
use crate::floats::FloatValues;
use crate::text::same_text;
use crate::tokenizer::{
    lemma_line_tokens_well_shaped, lemma_word_length_bounds, line_tokens, pieces, token_pieces,
    token_views, word_length, Position, Separators, Token, TokenView, Tokenizer,
};

verus! {

broadcast use vstd::std_specs::hash::group_hash_axioms;

pub const FILTER: &'static str = "filter";

pub const HIGHLIGHT: &'static str = "highlight";

pub const FILTER_HIGHLIGHT: &'static str = "filter-and-highlight";

pub const DATE_FORMAT: &'static str = "%F";

pub const TIME_FORMAT: &'static str = "%T";

pub const DATE_TIME_FORMAT: &'static str = "%+";

pub const LOCAL_DATE_TIME_FORMAT: &'static str = "%Y-%m-%dT%H:%M:%S%.f";

/// What is written for a line.
#[derive(Debug, PartialEq, Eq, Clone, Copy)]
pub enum Mode {
    /// Only the lines with a match, unchanged.
    Filter,
    /// Every line, with the matched tokens painted.
    Highlight(Colour),
    /// Only the lines with a match, with the matched tokens painted.
    FilterHighlight(Colour),
}

/// A mode name that is not one of `FILTER`, `HIGHLIGHT` and `FILTER_HIGHLIGHT`.
#[derive(Debug, PartialEq, Eq, Clone)]
pub struct InvalidMode {
    pub mode: String,
}

impl InvalidMode {
    /// The message that reports the mode name.
    pub fn message(&self) -> (r: String)
        ensures
            r@ == "invalid mode '"@ + self.mode@ + "'"@,
    {
        let mut m = "invalid mode '".to_owned();
        m.append(self.mode.as_str());
        m.append("'");
        m
    }
}

/// The mode that a name stands for; highlighting paints in red.
pub open spec fn mode_named(name: Seq<char>) -> Option<Mode> {
    if name == FILTER@ {
        Some(Mode::Filter)
    } else if name == HIGHLIGHT@ {
        Some(Mode::Highlight(Colour::Red))
    } else if name == FILTER_HIGHLIGHT@ {
        Some(Mode::FilterHighlight(Colour::Red))
    } else {
        None
    }
}

impl Mode {
    /// The mode named `mode`.
    pub fn from_str(mode: &str) -> (r: Result<Mode, InvalidMode>)
        ensures
            match mode_named(mode@) {
                Some(m) => r == Ok::<Mode, InvalidMode>(m),
                None => r matches Err(e) && e.mode@ == mode@,
            },
    {
        if same_text(mode, FILTER) {
            Ok(Mode::Filter)
        } else if same_text(mode, HIGHLIGHT) {
            Ok(Mode::Highlight(Colour::Red))
        } else if same_text(mode, FILTER_HIGHLIGHT) {
            Ok(Mode::FilterHighlight(Colour::Red))
        } else {
            Err(InvalidMode { mode: mode.to_owned() })
        }
    }

    /// Whether lines are highlighted.
    pub fn is_highlight(&self) -> (r: bool)
        ensures
            r == !(*self is Filter),
    {
        match self {
            Mode::Filter => false,
            _ => true,
        }
    }
}

/// The settings of a filter run.
pub struct Settings {
    pub formats: Formats,
    pub mode: Mode,
    pub count: bool,
}

/// The numbers of lines processed and matched so far.
#[derive(Debug, PartialEq, Eq, Clone, Copy)]
pub struct Lines {
    pub processed: usize,
    pub matched: usize,
}

/// The words of the tokens, joined.
pub open spec fn plain_text(tokens: Seq<TokenView>) -> Seq<char>
    decreases tokens.len(),
{
    if tokens.len() == 0 {
        Seq::empty()
    } else {
        plain_text(tokens.drop_last()) + tokens.last().word
    }
}

/// The words of the tokens, joined, with the words at matched positions
/// painted in the colour.
pub open spec fn highlighted(tokens: Seq<TokenView>, matches: Set<usize>, colour: Colour) -> Seq<char>
    decreases tokens.len(),
{
    if tokens.len() == 0 {
        Seq::empty()
    } else {
        let t = tokens.last();
        highlighted(tokens.drop_last(), matches, colour) + if matches.contains(t.position) {
            painted(colour, t.word)
        } else {
            t.word
        }
    }
}

/// The characters of the pieces, joined.
pub open spec fn pieces_text(pieces: Seq<(bool, Seq<char>)>) -> Seq<char>
    decreases pieces.len(),
{
    if pieces.len() == 0 {
        Seq::empty()
    } else {
        pieces[0].1 + pieces_text(pieces.drop_first())
    }
}

proof fn lemma_pieces_text_push(pieces: Seq<(bool, Seq<char>)>, piece: (bool, Seq<char>))
    ensures
        pieces_text(pieces.push(piece)) == pieces_text(pieces) + piece.1,
    decreases pieces.len(),
{
    if pieces.len() == 0 {
        let single = pieces.push(piece);
        assert(single.drop_first() =~= Seq::<(bool, Seq<char>)>::empty());
        assert(pieces_text(single.drop_first()) == Seq::<char>::empty());
        assert(single[0] == piece);
        assert(pieces_text(single) =~= piece.1);
    } else {
        lemma_pieces_text_push(pieces.drop_first(), piece);
        assert(pieces.push(piece).drop_first() =~= pieces.drop_first().push(piece));
        assert(pieces_text(pieces.push(piece)) =~= pieces_text(pieces) + piece.1);
    }
}

proof fn lemma_pieces_rebuild(s: Seq<char>, separators: Separators)
    ensures
        pieces_text(pieces(s, separators)) == s,
    decreases s.len(),
{
    if s.len() > 0 {
        let ps = pieces(s, separators);
        if separators.comprises(s[0]) {
            lemma_pieces_rebuild(s.drop_first(), separators);
            assert(ps.drop_first() =~= pieces(s.drop_first(), separators));
            assert(s =~= seq![s[0]] + s.drop_first());
        } else {
            let k = word_length(s, separators);
            lemma_word_length_bounds(s, separators);
            lemma_pieces_rebuild(s.skip(k as int), separators);
            assert(ps.drop_first() =~= pieces(s.skip(k as int), separators));
            assert(s =~= s.take(k as int) + s.skip(k as int));
        }
    }
}

proof fn lemma_plain_text_pieces(tokens: Seq<TokenView>)
    ensures
        plain_text(tokens) == pieces_text(token_pieces(tokens)),
    decreases tokens.len(),
{
    if tokens.len() > 0 {
        let last = tokens.last();
        lemma_plain_text_pieces(tokens.drop_last());
        assert(token_pieces(tokens) =~= token_pieces(tokens.drop_last()).push(
            (last.separator, last.word),
        ));
        lemma_pieces_text_push(token_pieces(tokens.drop_last()), (last.separator, last.word));
    } else {
        assert(token_pieces(tokens) =~= Seq::<(bool, Seq<char>)>::empty());
    }
}

/// The tokens of a line, joined, are the line: a line is written as it was
/// read unless tokens of it are highlighted.
pub proof fn lemma_tokens_rebuild_line(line: Seq<char>, separators: Separators)
    ensures
        plain_text(line_tokens(line, separators)) == line,
{
    lemma_plain_text_pieces(line_tokens(line, separators));
    lemma_line_tokens_well_shaped(line, separators);
    lemma_pieces_rebuild(line, separators);
}

/// Highlighting no token leaves the text as it is.
pub proof fn lemma_highlight_nothing(tokens: Seq<TokenView>, colour: Colour)
    ensures
        highlighted(tokens, Set::empty(), colour) == plain_text(tokens),
    decreases tokens.len(),
{
    if tokens.len() > 0 {
        lemma_highlight_nothing(tokens.drop_last(), colour);
    }
}

/// In the filter mode a line with a match is written as it was read; in
/// the highlight mode every line is written, and a line without a match as
/// it was read; in the two filtering modes a line without a match is not
/// written.
pub proof fn lemma_unchanged_lines(line: Seq<char>, separators: Separators, matches: Set<usize>, colour: Colour)
    ensures
        matches != Set::<usize>::empty() ==> output_of(
            Mode::Filter,
            line_tokens(line, separators),
            matches,
        ) == Some(line),
        output_of(Mode::Highlight(colour), line_tokens(line, separators), Set::empty()) == Some(
            line,
        ),
        output_of(Mode::Highlight(colour), line_tokens(line, separators), matches) is Some,
        output_of(Mode::Filter, line_tokens(line, separators), Set::empty()) is None,
        output_of(Mode::FilterHighlight(colour), line_tokens(line, separators), Set::empty()) is None,
{
    lemma_tokens_rebuild_line(line, separators);
    lemma_highlight_nothing(line_tokens(line, separators), colour);
}

/// What is written for a line with these tokens and matches: nothing when
/// the mode filters and nothing matched.
pub open spec fn output_of(mode: Mode, tokens: Seq<TokenView>, matches: Set<usize>) -> Option<Seq<char>> {
    match mode {
        Mode::Filter => if matches == Set::<usize>::empty() {
            None
        } else {
            Some(plain_text(tokens))
        },
        Mode::Highlight(colour) => Some(highlighted(tokens, matches, colour)),
        Mode::FilterHighlight(colour) => if matches == Set::<usize>::empty() {
            None
        } else {
            Some(highlighted(tokens, matches, colour))
        },
    }
}

/// Whether the expression is in the grammar, whatever line it is
/// evaluated on (see `lemma_validity_is_independent_of_line`).
pub open spec fn is_valid_expression(expression: Seq<char>, formats: Formats) -> bool {
    forall|tokens: Seq<TokenView>, floats: FloatValues|
        #[trigger] evaluation(expression, tokens, formats, floats) is Some
}

/// The words of the tokens, joined.
fn normal_text(tokens: &Vec<Token>) -> (r: String)
    ensures
        r@ == plain_text(token_views(tokens@)),
{
    let mut text = String::new();
    let mut i: usize = 0;
    while i < tokens.len()
        invariant
            0 <= i <= tokens.len(),
            text@ == plain_text(token_views(tokens@).take(i as int)),
        decreases tokens.len() - i,
    {
        text.append(tokens[i].word.as_str());
        proof {
            let views = token_views(tokens@);
            assert(views.take(i + 1).drop_last() =~= views.take(i as int));
            assert(views.take(i + 1).last() == tokens@[i as int]@);
        }
        i = i + 1;
    }
    assert(token_views(tokens@).take(tokens.len() as int) =~= token_views(tokens@));
    text
}

/// The words of the tokens, joined, with the matched ones painted.
fn highlighted_text(tokens: &Vec<Token>, matches: &HashSet<Position>, colour: Colour) -> (r: String)
    ensures
        r@ == highlighted(token_views(tokens@), matches@, colour),
{
    let mut text = String::new();
    let mut i: usize = 0;
    while i < tokens.len()
        invariant
            0 <= i <= tokens.len(),
            text@ == highlighted(token_views(tokens@).take(i as int), matches@, colour),
        decreases tokens.len() - i,
    {
        let token = &tokens[i];
        if matches.contains(&token.position) {
            let painted_word = paint(colour, token.word.as_str());
            text.append(painted_word.as_str());
        } else {
            text.append(token.word.as_str());
        }
        proof {
            let views = token_views(tokens@);
            assert(views.take(i + 1).drop_last() =~= views.take(i as int));
            assert(views.take(i + 1).last() == tokens@[i as int]@);
        }
        i = i + 1;
    }
    assert(token_views(tokens@).take(tokens.len() as int) =~= token_views(tokens@));
    text
}

/// What is written for a line with these tokens and matches.
fn output_line(mode: Mode, tokens: &Vec<Token>, matches: &HashSet<Position>) -> (r: Option<String>)
    ensures
        match output_of(mode, token_views(tokens@), matches@) {
            Some(text) => r matches Some(o) && o@ == text,
            None => r is None,
        },
{
    let nothing = matches.is_empty();
    match mode {
        Mode::Filter => if nothing {
            None
        } else {
            Some(normal_text(tokens))
        },
        Mode::Highlight(colour) => Some(highlighted_text(tokens, matches, colour)),
        Mode::FilterHighlight(colour) => if nothing {
            None
        } else {
            Some(highlighted_text(tokens, matches, colour))
        },
    }
}

/// Filters lines by an expression.
pub struct Filter<'a> {
    tokenizer: &'a Tokenizer,
    expression: &'a str,
    settings: &'a Settings,
}

impl<'a> Filter<'a> {
    pub closed spec fn tokenizer(&self) -> Tokenizer {
        *self.tokenizer
    }

    pub closed spec fn expression(&self) -> Seq<char> {
        self.expression@
    }

    pub closed spec fn settings(&self) -> Settings {
        *self.settings
    }

    /// A filter's expression is in the grammar.
    #[verifier::type_invariant]
    closed spec fn expression_is_valid(&self) -> bool {
        is_valid_expression(self.expression@, self.settings.formats)
    }

    /// A filter for the expression; an error when the expression is not in
    /// the grammar.
    pub fn new(tokenizer: &'a Tokenizer, expression: &'a str, settings: &'a Settings) -> (r: Result<Self, InvalidExpression>)
        ensures
            r is Ok <==> is_valid_expression(expression@, settings.formats),
            r matches Ok(f) ==> f.tokenizer() == *tokenizer && f.expression() == expression@
                && f.settings() == *settings,
    {
        let none: Vec<Token> = Vec::new();
        let floats = FloatValues::new();
        let checked = evaluate(expression, &none, &settings.formats, &floats);
        proof {
            assert forall|tokens: Seq<TokenView>, values: FloatValues|
                #[trigger] evaluation(expression@, tokens, settings.formats, values) is Some
                    <==> evaluation(expression@, token_views(none@), settings.formats, floats) is Some by {
                lemma_validity_is_independent_of_line(
                    expression@,
                    tokens,
                    token_views(none@),
                    settings.formats,
                    values,
                    floats,
                );
            }
        }
        match checked {
            Ok(_) => Ok(Filter { tokenizer, expression, settings }),
            Err(e) => Err(e),
        }
    }

    /// Processes one line: evaluates the expression on its tokens (floats
    /// have the values in `floats`), counts the line, and returns what is
    /// written for it. The expression of a filter is valid, so this never
    /// fails.
    pub fn process(&self, line: &str, floats: &FloatValues, lines: &mut Lines) -> (r: Result<Option<String>, InvalidExpression>)
        requires
            old(lines).processed < usize::MAX,
            old(lines).matched < usize::MAX,
        ensures
            r is Ok,
            old(lines).matched <= old(lines).processed ==> final(lines).matched <= final(lines).processed,
            ({
                let tokens = line_tokens(line@, self.tokenizer().separators());
                match evaluation(self.expression(), tokens, self.settings().formats, *floats) {
                    Some(matches) => {
                        &&& r matches Ok(out) && match output_of(self.settings().mode, tokens, matches) {
                            Some(text) => out matches Some(o) && o@ == text,
                            None => out is None,
                        }
                        &&& final(lines).processed == old(lines).processed + 1
                        &&& final(lines).matched == old(lines).matched + if matches
                            == Set::<usize>::empty() {
                            0int
                        } else {
                            1int
                        }
                    },
                    None => r is Err && *final(lines) == *old(lines),
                }
            }),
    {
        proof {
            use_type_invariant(self);
        }
        let tokens = self.tokenizer.tokens(line);
        let matches = match evaluate(self.expression, &tokens, &self.settings.formats, floats) {
            Ok(m) => m,
            Err(e) => {
                return Err(e);
            },
        };
        let output = output_line(self.settings.mode, &tokens, &matches);
        if !matches.is_empty() {
            lines.matched = lines.matched + 1;
        }
        lines.processed = lines.processed + 1;
        Ok(output)
    }
}

} // verus!
