//! ANSI terminal colours for highlighting matched tokens.
use vstd::prelude::*;

use crate::filter::Settings;

verus! {

/// The terminal colours of `ansi_term`.
#[derive(Debug, PartialEq, Eq, Clone, Copy)]
pub enum Colour {
    Black,
    Red,
    Green,
    Yellow,
    Blue,
    Purple,
    Cyan,
    White,
    /// One of the 256 colours of the extended palette.
    Fixed(u8),
    /// A 24-bit colour.
    RGB(u8, u8, u8),
}

/// The decimal digits of `n`.
pub open spec fn decimal(n: nat) -> Seq<char>
    decreases n,
{
    if n < 10 {
        seq![((n + 48) as u8) as char]
    } else {
        decimal(n / 10) + seq![(((n % 10) + 48) as u8) as char]
    }
}

/// The code that selects the colour as the text colour.
pub open spec fn foreground_code(colour: Colour) -> Seq<char> {
    match colour {
        Colour::Black => "30"@,
        Colour::Red => "31"@,
        Colour::Green => "32"@,
        Colour::Yellow => "33"@,
        Colour::Blue => "34"@,
        Colour::Purple => "35"@,
        Colour::Cyan => "36"@,
        Colour::White => "37"@,
        Colour::Fixed(n) => "38;5;"@ + decimal(n as nat),
        Colour::RGB(r, g, b) => "38;2;"@ + decimal(r as nat) + ";"@ + decimal(g as nat) + ";"@
            + decimal(b as nat),
    }
}

/// The text painted in the colour: the escape sequence that selects the
/// colour, the text, and the escape sequence that resets all styles.
pub open spec fn painted(colour: Colour, text: Seq<char>) -> Seq<char> {
    seq!['\u{1b}', '['] + foreground_code(colour) + seq!['m'] + text + seq!['\u{1b}', '[', '0', 'm']
}

/// Calls `ansi_term::Colour::paint` and renders the result with `Display`.
/// Claims that the result is the colour's prefix `ESC [ code m`, the text,
/// and the reset suffix `ESC [ 0 m`, as `ansi_term`'s `write_prefix`,
/// `write_foreground_code` and `write_suffix` write them for a style with
/// only a foreground colour.
#[verifier::external_body]
pub(crate) fn paint(colour: Colour, text: &str) -> (r: String)
    ensures
        r@ == painted(colour, text@),
{
    let colour = match colour {
        Colour::Black => ansi_term::Colour::Black,
        Colour::Red => ansi_term::Colour::Red,
        Colour::Green => ansi_term::Colour::Green,
        Colour::Yellow => ansi_term::Colour::Yellow,
        Colour::Blue => ansi_term::Colour::Blue,
        Colour::Purple => ansi_term::Colour::Purple,
        Colour::Cyan => ansi_term::Colour::Cyan,
        Colour::White => ansi_term::Colour::White,
        Colour::Fixed(n) => ansi_term::Colour::Fixed(n),
        Colour::RGB(r, g, b) => ansi_term::Colour::RGB(r, g, b),
    };
    colour.paint(text).to_string()
}

/// Enables ANSI escape sequences in the terminal. On Unix terminals they
/// are always enabled, so there is nothing to do.
pub fn enable_ansi_support(settings: &Settings) -> (r: Result<(), ()>)
    ensures
        r is Ok,
{
    Ok(())
}

} // verus!
