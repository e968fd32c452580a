//! Splits an input line into tokens: maximal runs of non-separator characters
//! ("words") and single separator characters, numbered by their position.
use vstd::prelude::*;

use crate::text::{chars_of, string_from_chars};

verus! {

/// Index of a token in the token list of a line.
pub type Position = usize;

/// One token of a line: a separator character or a word between separators.
#[derive(Debug, PartialEq, Eq, Clone)]
pub struct Token {
    pub position: Position,
    pub separator: bool,
    pub word: String,
}

/// A token as the specifications see it.
pub struct TokenView {
    pub position: usize,
    pub separator: bool,
    pub word: Seq<char>,
}

impl View for Token {
    type V = TokenView;

    open spec fn view(&self) -> TokenView {
        TokenView { position: self.position, separator: self.separator, word: self.word@ }
    }
}

/// The views of a sequence of tokens.
pub open spec fn token_views(tokens: Seq<Token>) -> Seq<TokenView> {
    tokens.map_values(|t: Token| t@)
}

/// The separator name that stands for all Unicode white space characters.
pub const WHITESPACES: &'static str = "[:space:]";

/// The single characters that may be configured as separators.
pub const SEPARATORS: [&'static str; 33] = [
    " ", ",", ";", "|", "!", "\"", "#", "$", "%", "&", "'", "(", ")", "*", "+", "-", ".", "/", ":",
    "<", "=", ">", "?", "@", "[", "\\", "]", "^", "_", "`", "{", "}", "~",
];

/// The characters with the Unicode `White_Space` property (PropList.txt).
pub open spec fn is_white_space(c: char) -> bool {
    let u = c as u32;
    ||| 0x9 <= u <= 0xD
    ||| u == 0x20
    ||| u == 0x85
    ||| u == 0xA0
    ||| u == 0x1680
    ||| 0x2000 <= u <= 0x200A
    ||| u == 0x2028
    ||| u == 0x2029
    ||| u == 0x202F
    ||| u == 0x205F
    ||| u == 0x3000
}

/// The characters listed in `SEPARATORS`.
pub open spec fn is_separator_character(c: char) -> bool {
    ||| c == ' ' ||| c == ',' ||| c == ';' ||| c == '|' ||| c == '!' ||| c == '"'
    ||| c == '#' ||| c == '$' ||| c == '%' ||| c == '&' ||| c == '\'' ||| c == '('
    ||| c == ')' ||| c == '*' ||| c == '+' ||| c == '-' ||| c == '.' ||| c == '/'
    ||| c == ':' ||| c == '<' ||| c == '=' ||| c == '>' ||| c == '?' ||| c == '@'
    ||| c == '[' ||| c == '\\' ||| c == ']' ||| c == '^' ||| c == '_' ||| c == '`'
    ||| c == '{' ||| c == '}' ||| c == '~'
}

/// The name of the white space separator class, as characters.
pub open spec fn whitespaces_name() -> Seq<char> {
    seq!['[', ':', 's', 'p', 'a', 'c', 'e', ':', ']']
}

/// Whether a character separates tokens, as a predicate.
pub open spec fn separator_test(separators: Separators) -> spec_fn(char) -> bool {
    |c: char| separators.comprises(c)
}

/// A separator name accepted by `Separators::new`.
pub open spec fn is_valid_separator(name: Seq<char>) -> bool {
    name == whitespaces_name() || (name.len() == 1 && is_separator_character(name[0]))
}

/// `char::is_whitespace`: the character has the Unicode `White_Space` property.
pub fn is_whitespace(c: char) -> (r: bool)
    ensures
        r == is_white_space(c),
{
    let u = c as u32;
    (0x9 <= u && u <= 0xD) || u == 0x20 || u == 0x85 || u == 0xA0 || u == 0x1680 || (0x2000 <= u
        && u <= 0x200A) || u == 0x2028 || u == 0x2029 || u == 0x202F || u == 0x205F || u == 0x3000
}

fn is_separator_char(c: char) -> (r: bool)
    ensures
        r == is_separator_character(c),
{
    c == ' ' || c == ',' || c == ';' || c == '|' || c == '!' || c == '"' || c == '#' || c == '$'
        || c == '%' || c == '&' || c == '\'' || c == '(' || c == ')' || c == '*' || c == '+' || c
        == '-' || c == '.' || c == '/' || c == ':' || c == '<' || c == '=' || c == '>' || c == '?'
        || c == '@' || c == '[' || c == '\\' || c == ']' || c == '^' || c == '_' || c == '`' || c
        == '{' || c == '}' || c == '~'
}

fn is_whitespaces_name(chars: &Vec<char>) -> (r: bool)
    ensures
        r == (chars@ == whitespaces_name()),
{
    if chars.len() != 9 {
        return false;
    }
    let r = chars[0] == '[' && chars[1] == ':' && chars[2] == 's' && chars[3] == 'p' && chars[4]
        == 'a' && chars[5] == 'c' && chars[6] == 'e' && chars[7] == ':' && chars[8] == ']';
    assert(r ==> chars@ =~= whitespaces_name());
    r
}

/// The error of `Separators::new`: the first separator name that is not valid.
#[derive(Debug, PartialEq, Eq, Clone)]
pub struct InvalidSeparator {
    pub separator: String,
}

impl InvalidSeparator {
    /// The message that reports the separator.
    pub fn message(&self) -> (r: String)
        ensures
            r@ == "invalid separator '"@ + self.separator@ + "'"@,
    {
        let mut m = "invalid separator '".to_owned();
        m.append(self.separator.as_str());
        m.append("'");
        m
    }
}

/// The set of characters that split a line into tokens. The single
/// separator characters are kept in a vector without repetitions: vstd
/// specifies hash sets only for key types with a key model, which `char`
/// does not have.
pub struct Separators {
    whitespaces: bool,
    characters: Vec<char>,
}

/// Whether `c` is one of the characters.
fn has_char(v: &Vec<char>, c: char) -> (r: bool)
    ensures
        r == v@.contains(c),
{
    let mut i: usize = 0;
    while i < v.len()
        invariant
            0 <= i <= v.len(),
            forall|k: int| 0 <= k < i ==> v@[k] != c,
        decreases v.len() - i,
    {
        if v[i] == c {
            return true;
        }
        i = i + 1;
    }
    false
}

impl Separators {
    /// No separator character is kept twice.
    #[verifier::type_invariant]
    closed spec fn characters_are_distinct(&self) -> bool {
        self.characters@.no_duplicates()
    }

    /// Whether every white space character is a separator.
    pub closed spec fn includes_white_space(&self) -> bool {
        self.whitespaces
    }

    /// The single separator characters.
    pub closed spec fn characters(&self) -> Set<char> {
        self.characters@.to_set()
    }

    /// Whether `c` splits tokens.
    pub open spec fn comprises(&self, c: char) -> bool {
        (self.includes_white_space() && is_white_space(c)) || self.characters().contains(c)
    }

    /// Builds the separator set from separator names: `[:space:]` for all white
    /// space, or one of the characters of `SEPARATORS`. The first name that is
    /// neither is returned as the error.
    pub fn new(separators: Vec<&str>) -> (r: Result<Self, InvalidSeparator>)
        ensures
            r is Ok <==> forall|i: int| 0 <= i < separators.len() ==> is_valid_separator(
                #[trigger] separators[i]@,
            ),
            r matches Ok(s) ==> {
                &&& s.includes_white_space() <==> exists|i: int|
                    0 <= i < separators.len() && #[trigger] separators[i]@ == whitespaces_name()
                &&& forall|c: char|
                    s.characters().contains(c) <==> exists|i: int|
                        0 <= i < separators.len() && #[trigger] separators[i]@ == seq![c]
                            && is_separator_character(c)
            },
            r matches Err(e) ==> exists|k: int|
                0 <= k < separators.len() && !is_valid_separator(#[trigger] separators[k]@) && e.separator@
                    == separators[k]@ && forall|i: int|
                    0 <= i < k ==> is_valid_separator(#[trigger] separators[i]@),
    {
        let mut whitespaces = false;
        let mut characters: Vec<char> = Vec::new();
        let mut i: usize = 0;
        while i < separators.len()
            invariant
                0 <= i <= separators.len(),
                forall|j: int| 0 <= j < i ==> is_valid_separator(#[trigger] separators[j]@),
                whitespaces <==> exists|j: int|
                    0 <= j < i && #[trigger] separators[j]@ == whitespaces_name(),
                forall|c: char|
                    characters@.contains(c) <==> exists|j: int|
                        0 <= j < i && #[trigger] separators[j]@ == seq![c] && is_separator_character(c),
                characters@.no_duplicates(),
            decreases separators.len() - i,
        {
            let separator = separators[i];
            let chars = chars_of(separator);
            if is_whitespaces_name(&chars) {
                whitespaces = true;
                assert forall|c: char|
                    characters@.contains(c) <==> exists|j: int|
                        0 <= j < i + 1 && #[trigger] separators[j]@ == seq![c]
                            && is_separator_character(c) by {
                    if exists|j: int|
                        0 <= j < i + 1 && #[trigger] separators[j]@ == seq![c]
                            && is_separator_character(c) {
                        let j = choose|j: int|
                            0 <= j < i + 1 && #[trigger] separators[j]@ == seq![c]
                                && is_separator_character(c);
                        if j == i {
                            assert(seq![c].len() == 1);
                        }
                    }
                }
            } else if chars.len() == 1 && is_separator_char(chars[0]) {
                let c0 = chars[0];
                let ghost previous = characters@;
                if !has_char(&characters, c0) {
                    characters.push(c0);
                    proof {
                        assert forall|a: int, b: int|
                            0 <= a < b < characters@.len() implies characters@[a]
                            != characters@[b] by {
                            if b == characters@.len() - 1 {
                                assert(previous[a] == characters@[a]);
                            }
                        }
                    }
                }
                assert forall|c: char| characters@.contains(c) <==> (previous.contains(c) || c == c0) by {
                    if characters@.contains(c) && c != c0 {
                        let k = choose|k: int| 0 <= k < characters@.len() && characters@[k] == c;
                        assert(previous[k] == c);
                    }
                    if previous.contains(c) {
                        let k = choose|k: int| 0 <= k < previous.len() && previous[k] == c;
                        assert(characters@[k] == c);
                    }
                    if c == c0 && !previous.contains(c) {
                        assert(characters@[characters@.len() - 1] == c);
                    }
                }
                assert(separators[i as int]@ =~= seq![c0]);
                assert forall|c: char|
                    characters@.contains(c) <==> exists|j: int|
                        0 <= j < i + 1 && #[trigger] separators[j]@ == seq![c]
                            && is_separator_character(c) by {
                    if c == c0 {
                        assert(separators[i as int]@ == seq![c]);
                    } else {
                        assert(previous.contains(c) <==> exists|j: int|
                            0 <= j < i && #[trigger] separators[j]@ == seq![c]
                                && is_separator_character(c));
                        if exists|j: int|
                            0 <= j < i + 1 && #[trigger] separators[j]@ == seq![c]
                                && is_separator_character(c) {
                            let j = choose|j: int|
                                0 <= j < i + 1 && #[trigger] separators[j]@ == seq![c]
                                    && is_separator_character(c);
                            if j == i {
                                assert(seq![c][0] == c0);
                            }
                        }
                    }
                }
            } else {
                proof {
                    if chars@.len() == 1 {
                        assert(!is_separator_character(chars@[0]));
                    }
                }
                return Err(InvalidSeparator { separator: string_from_chars(chars.as_slice()) });
            }
            i = i + 1;
        }
        let s = Separators { whitespaces, characters };
        assert forall|c: char| s.characters().contains(c) <==> characters@.contains(c) by {}
        Ok(s)
    }

    /// Whether `character` is a separator.
    pub fn comprise(&self, character: char) -> (r: bool)
        ensures
            r == self.comprises(character),
    {
        if self.whitespaces && is_whitespace(character) {
            return true;
        }
        let mut i: usize = 0;
        while i < self.characters.len()
            invariant
                0 <= i <= self.characters.len(),
                forall|j: int| 0 <= j < i ==> self.characters@[j] != character,
            decreases self.characters.len() - i,
        {
            if self.characters[i] == character {
                assert(self.characters@.contains(character));
                return true;
            }
            i = i + 1;
        }
        false
    }

    /// The characters of `characters` that are separators, in order.
    pub fn comprise_any(&self, characters: &str) -> (r: String)
        ensures
            r@ == characters@.filter(separator_test(*self)),
    {
        let chars = chars_of(characters);
        let ghost pred = separator_test(*self);
        let mut kept: Vec<char> = Vec::new();
        let mut i: usize = 0;
        while i < chars.len()
            invariant
                0 <= i <= chars.len(),
                chars@ == characters@,
                pred == separator_test(*self),
                kept@ == chars@.take(i as int).filter(pred),
            decreases chars.len() - i,
        {
            proof {
                reveal_with_fuel(Seq::<_>::filter, 1);
                assert(chars@.take(i + 1).drop_last() =~= chars@.take(i as int));
            }
            if self.comprise(chars[i]) {
                kept.push(chars[i]);
            }
            i = i + 1;
        }
        assert(chars@.take(chars.len() as int) =~= chars@);
        string_from_chars(kept.as_slice())
    }
}

/// The number of leading characters of `s` that are not separators.
pub open spec fn word_length(s: Seq<char>, separators: Separators) -> nat
    decreases s.len(),
{
    if s.len() == 0 || separators.comprises(s[0]) {
        0
    } else {
        1 + word_length(s.drop_first(), separators)
    }
}

/// The pieces of a line, in order: each separator character on its own, and
/// each maximal run of other characters as one word. A piece is the pair
/// (is it a separator, its characters).
pub open spec fn pieces(s: Seq<char>, separators: Separators) -> Seq<(bool, Seq<char>)>
    decreases s.len(),
{
    if s.len() == 0 {
        Seq::empty()
    } else if separators.comprises(s[0]) {
        seq![(true, seq![s[0]])] + pieces(s.drop_first(), separators)
    } else {
        let k = word_length(s, separators);
        proof {
            lemma_word_length_bounds(s, separators);
        }
        seq![(false, s.take(k as int))] + pieces(s.skip(k as int), separators)
    }
}

/// A word is never longer than the text, and is not empty when the text
/// starts with a non-separator.
pub proof fn lemma_word_length_bounds(s: Seq<char>, separators: Separators)
    ensures
        word_length(s, separators) <= s.len(),
        s.len() > 0 && !separators.comprises(s[0]) ==> word_length(s, separators) >= 1,
    decreases s.len(),
{
    if s.len() > 0 && !separators.comprises(s[0]) {
        lemma_word_length_bounds(s.drop_first(), separators);
    }
}

/// The word length is the length of the run of non-separators that is
/// followed by the end of the text or by a separator.
proof fn lemma_word_length_run(s: Seq<char>, separators: Separators, m: int)
    requires
        0 <= m <= s.len(),
        forall|k: int| 0 <= k < m ==> !separators.comprises(#[trigger] s[k]),
        m == s.len() || separators.comprises(s[m]),
    ensures
        word_length(s, separators) == m,
    decreases m,
{
    if m > 0 {
        lemma_word_length_run(s.drop_first(), separators, m - 1);
    }
}

/// The pieces are well shaped: a separator piece is one separator
/// character, a word piece is a non-empty run of other characters, and a
/// word piece is never followed by another word piece.
pub open spec fn well_shaped(pieces: Seq<(bool, Seq<char>)>, separators: Separators) -> bool {
    &&& forall|i: int|
        0 <= i < pieces.len() && (#[trigger] pieces[i]).0 ==> pieces[i].1.len() == 1
            && separators.comprises(pieces[i].1[0])
    &&& forall|i: int|
        0 <= i < pieces.len() && !(#[trigger] pieces[i]).0 ==> pieces[i].1.len() >= 1 && forall|
            k: int,
        |
            0 <= k < pieces[i].1.len() ==> !separators.comprises(#[trigger] pieces[i].1[k])
    &&& forall|i: int|
        0 <= i && i + 1 < pieces.len() && !(#[trigger] pieces[i]).0 ==> pieces[i + 1].0
}

proof fn lemma_word_run(s: Seq<char>, separators: Separators)
    ensures
        forall|k: int|
            0 <= k < word_length(s, separators) ==> !separators.comprises(#[trigger] s[k]),
        word_length(s, separators) < s.len() ==> separators.comprises(
            s[word_length(s, separators) as int],
        ),
    decreases s.len(),
{
    lemma_word_length_bounds(s, separators);
    if s.len() > 0 && !separators.comprises(s[0]) {
        let rest = s.drop_first();
        lemma_word_run(rest, separators);
        lemma_word_length_bounds(rest, separators);
        assert forall|k: int| 0 <= k < word_length(s, separators) implies !separators.comprises(
            #[trigger] s[k],
        ) by {
            if k > 0 {
                assert(s[k] == rest[k - 1]);
            }
        }
        if word_length(s, separators) < s.len() {
            assert(s[word_length(s, separators) as int] == rest[word_length(rest, separators) as int]);
        }
    }
}

/// The pieces of any text are well shaped.
pub proof fn lemma_pieces_well_shaped(s: Seq<char>, separators: Separators)
    ensures
        well_shaped(pieces(s, separators), separators),
    decreases s.len(),
{
    if s.len() > 0 {
        let ps = pieces(s, separators);
        if separators.comprises(s[0]) {
            let rest = pieces(s.drop_first(), separators);
            lemma_pieces_well_shaped(s.drop_first(), separators);
            assert forall|i: int| 1 <= i < ps.len() implies #[trigger] ps[i] == rest[i - 1] by {}
            assert(ps[0] == (true, seq![s[0]]));
        } else {
            let k = word_length(s, separators);
            lemma_word_length_bounds(s, separators);
            lemma_word_run(s, separators);
            let rest_text = s.skip(k as int);
            let rest = pieces(rest_text, separators);
            lemma_pieces_well_shaped(rest_text, separators);
            assert forall|i: int| 1 <= i < ps.len() implies #[trigger] ps[i] == rest[i - 1] by {}
            assert(ps[0] == (false, s.take(k as int)));
            if ps.len() > 1 {
                assert(rest_text.len() > 0);
                assert(rest_text[0] == s[k as int]);
                assert(rest[0].0);
            }
        }
    }
}

/// The tokens of a line: its pieces, numbered from 0.
pub open spec fn line_tokens(line: Seq<char>, separators: Separators) -> Seq<TokenView> {
    Seq::new(
        pieces(line, separators).len(),
        |i: int|
            TokenView {
                position: i as usize,
                separator: pieces(line, separators)[i].0,
                word: pieces(line, separators)[i].1,
            },
    )
}

/// Whether some piece is the separator `c`.
pub open spec fn has_separator_piece(pieces: Seq<(bool, Seq<char>)>, c: char) -> bool {
    exists|i: int| 0 <= i < pieces.len() && #[trigger] pieces[i] == (true, seq![c])
}

proof fn lemma_separator_pieces(s: Seq<char>, separators: Separators)
    ensures
        forall|c: char|
            #[trigger] has_separator_piece(pieces(s, separators), c) <==> (s.contains(c)
                && separators.comprises(c)),
    decreases s.len(),
{
    if s.len() > 0 {
        let ps = pieces(s, separators);
        if separators.comprises(s[0]) {
            let rest = s.drop_first();
            let rps = pieces(rest, separators);
            lemma_separator_pieces(rest, separators);
            assert(ps == seq![(true, seq![s[0]])] + rps);
            assert forall|c: char|
                #[trigger] has_separator_piece(ps, c) <==> (s.contains(c) && separators.comprises(
                    c,
                )) by {
                if has_separator_piece(ps, c) {
                    let i = choose|i: int| 0 <= i < ps.len() && #[trigger] ps[i] == (true, seq![c]);
                    if i == 0 {
                        assert(seq![c][0] == seq![s[0]][0]);
                        assert(s[0] == c);
                    } else {
                        assert(rps[i - 1] == (true, seq![c]));
                        assert(has_separator_piece(rps, c));
                        let k = choose|k: int| 0 <= k < rest.len() && rest[k] == c;
                        assert(s[k + 1] == c);
                    }
                }
                if s.contains(c) && separators.comprises(c) {
                    let k = choose|k: int| 0 <= k < s.len() && s[k] == c;
                    if k == 0 {
                        assert(ps[0] == (true, seq![c]));
                    } else {
                        assert(rest[k - 1] == c);
                        assert(has_separator_piece(rps, c));
                        let i = choose|i: int| 0 <= i < rps.len() && #[trigger] rps[i] == (true, seq![c]);
                        assert(ps[i + 1] == (true, seq![c]));
                    }
                }
            }
        } else {
            let k = word_length(s, separators);
            lemma_word_length_bounds(s, separators);
            lemma_word_run(s, separators);
            let rest = s.skip(k as int);
            let rps = pieces(rest, separators);
            lemma_separator_pieces(rest, separators);
            assert(ps == seq![(false, s.take(k as int))] + rps);
            assert forall|c: char|
                #[trigger] has_separator_piece(ps, c) <==> (s.contains(c) && separators.comprises(
                    c,
                )) by {
                if has_separator_piece(ps, c) {
                    let i = choose|i: int| 0 <= i < ps.len() && #[trigger] ps[i] == (true, seq![c]);
                    assert(i != 0);
                    assert(rps[i - 1] == (true, seq![c]));
                    assert(has_separator_piece(rps, c));
                    let j = choose|j: int| 0 <= j < rest.len() && rest[j] == c;
                    assert(s[k + j] == c);
                }
                if s.contains(c) && separators.comprises(c) {
                    let j = choose|j: int| 0 <= j < s.len() && s[j] == c;
                    if j < k {
                        assert(!separators.comprises(s[j]));
                    }
                    assert(rest[j - k] == c);
                    assert(has_separator_piece(rps, c));
                    let i = choose|i: int| 0 <= i < rps.len() && #[trigger] rps[i] == (true, seq![c]);
                    assert(ps[i + 1] == (true, seq![c]));
                }
            }
        }
    }
}

/// The pieces that tokens stand for.
pub open spec fn token_pieces(tokens: Seq<TokenView>) -> Seq<(bool, Seq<char>)> {
    tokens.map_values(|t: TokenView| (t.separator, t.word))
}

/// The tokens of a line stand for its pieces, which are well shaped: each
/// separator token is one separator character, each word token a non-empty
/// run of other characters, and no word token follows another.
pub proof fn lemma_line_tokens_well_shaped(line: Seq<char>, separators: Separators)
    ensures
        token_pieces(line_tokens(line, separators)) == pieces(line, separators),
        well_shaped(token_pieces(line_tokens(line, separators)), separators),
{
    assert(token_pieces(line_tokens(line, separators)) =~= pieces(line, separators));
    lemma_pieces_well_shaped(line, separators);
}

/// A tokenizer splits exactly at its separators: a character forms a
/// separator token of a line exactly when it occurs in the line and is one
/// of the separators. (`Tokenizer::new` keeps the separators it is given,
/// and `tokens` gives `line_tokens` of them.)
pub proof fn lemma_separator_tokens(line: Seq<char>, separators: Separators)
    ensures
        forall|c: char|
            (exists|i: int|
                0 <= i < line_tokens(line, separators).len() && (#[trigger] line_tokens(
                    line,
                    separators,
                )[i]).separator && line_tokens(line, separators)[i].word == seq![c]) <==> (
            line.contains(c) && separators.comprises(c)),
{
    let tokens = line_tokens(line, separators);
    let ps = pieces(line, separators);
    lemma_separator_pieces(line, separators);
    assert forall|c: char|
        (exists|i: int|
            0 <= i < tokens.len() && (#[trigger] tokens[i]).separator && tokens[i].word == seq![c])
            <==> (line.contains(c) && separators.comprises(c)) by {
        assert(has_separator_piece(ps, c) <==> (line.contains(c) && separators.comprises(c)));
        if exists|i: int|
            0 <= i < tokens.len() && (#[trigger] tokens[i]).separator && tokens[i].word == seq![c] {
            let i = choose|i: int|
                0 <= i < tokens.len() && (#[trigger] tokens[i]).separator && tokens[i].word == seq![c];
            assert(ps[i] == (true, seq![c]));
        }
        if has_separator_piece(ps, c) {
            let i = choose|i: int| 0 <= i < ps.len() && #[trigger] ps[i] == (true, seq![c]);
            assert(tokens[i].separator && tokens[i].word == seq![c]);
        }
    }
}

/// The piece that a token stands for.
pub open spec fn piece_of(token: Token) -> (bool, Seq<char>) {
    (token.separator, token.word@)
}

/// Splits lines into tokens at separator characters.
pub struct Tokenizer {
    separators: Separators,
}

impl Tokenizer {
    /// The separators that this tokenizer splits at.
    pub closed spec fn separators(&self) -> Separators {
        self.separators
    }

    pub fn new(separators: Separators) -> (r: Result<Self, ()>)
        ensures
            r matches Ok(t) && t.separators() == separators,
    {
        Ok(Tokenizer { separators })
    }

    /// The tokens of `line`: its pieces, numbered from 0.
    pub fn tokens(&self, line: &str) -> (r: Vec<Token>)
        ensures
            token_views(r@) == line_tokens(line@, self.separators()),
            r.len() == pieces(line@, self.separators()).len(),
            forall|i: int|
                0 <= i < r.len() ==> (#[trigger] r[i]).position == i && piece_of(r[i]) == pieces(
                    line@,
                    self.separators(),
                )[i],
    {
        let chars = chars_of(line);
        let ghost seps = self.separators;
        let mut tokens: Vec<Token> = Vec::new();
        let mut i: usize = 0;
        assert(chars@.skip(0) =~= chars@);
        while i < chars.len()
            invariant
                0 <= i <= chars.len(),
                chars@ == line@,
                seps == self.separators,
                tokens@.map_values(|t: Token| piece_of(t)) + pieces(chars@.skip(i as int), seps)
                    == pieces(chars@, seps),
                forall|k: int| 0 <= k < tokens.len() ==> (#[trigger] tokens[k]).position == k,
            decreases chars.len() - i,
        {
            let ghost rest = chars@.skip(i as int);
            let ghost before = tokens@.map_values(|t: Token| piece_of(t));
            let c = chars[i];
            if self.separators.comprise(c) {
                let mut single: Vec<char> = Vec::new();
                single.push(c);
                let word = string_from_chars(single.as_slice());
                let position = tokens.len();
                tokens.push(Token { position, separator: true, word });
                proof {
                    assert(rest.drop_first() =~= chars@.skip(i + 1));
                    assert(single@ =~= seq![rest[0]]);
                    assert(tokens@.map_values(|t: Token| piece_of(t)) =~= before.push(
                        (true, seq![rest[0]]),
                    ));
                    assert(pieces(rest, seps) == seq![(true, seq![rest[0]])] + pieces(
                        rest.drop_first(),
                        seps,
                    ));
                    assert(before + pieces(rest, seps) =~= before.push((true, seq![rest[0]]))
                        + pieces(chars@.skip(i + 1), seps));
                }
                i = i + 1;
            } else {
                let mut letters: Vec<char> = Vec::new();
                letters.push(c);
                let mut j: usize = i + 1;
                while j < chars.len() && !self.separators.comprise(chars[j])
                    invariant
                        i < j <= chars.len(),
                        seps == self.separators,
                        letters@ =~= chars@.subrange(i as int, j as int),
                        forall|k: int| i <= k < j ==> !seps.comprises(#[trigger] chars@[k]),
                    decreases chars.len() - j,
                {
                    letters.push(chars[j]);
                    j = j + 1;
                }
                let word = string_from_chars(letters.as_slice());
                let position = tokens.len();
                tokens.push(Token { position, separator: false, word });
                proof {
                    let m = j - i;
                    assert forall|k: int| 0 <= k < m implies !seps.comprises(#[trigger] rest[k]) by {
                        assert(rest[k] == chars@[i + k]);
                    }
                    if m < rest.len() {
                        assert(rest[m] == chars@[j as int]);
                    }
                    lemma_word_length_run(rest, seps, m);
                    assert(rest.take(m) =~= letters@);
                    assert(rest.skip(m) =~= chars@.skip(j as int));
                    assert(tokens@.map_values(|t: Token| piece_of(t)) =~= before.push(
                        (false, letters@),
                    ));
                    assert(before + pieces(rest, seps) =~= before.push((false, letters@))
                        + pieces(chars@.skip(j as int), seps));
                }
                i = j;
            }
        }
        proof {
            assert(chars@.skip(i as int) =~= Seq::<char>::empty());
            let out = tokens@.map_values(|t: Token| piece_of(t));
            assert(out + Seq::<(bool, Seq<char>)>::empty() =~= out);
            assert forall|k: int| 0 <= k < tokens.len() implies piece_of(#[trigger] tokens[k])
                == pieces(line@, seps)[k] by {
                assert(out[k] == piece_of(tokens@[k]));
            }
            assert(token_views(tokens@) =~= line_tokens(line@, seps));
        }
        tokens
    }
}

} // verus!
