//! Coloured text for the terminal.

use vstd::prelude::*;

verus! {

/// The colours that the tracker writes in.
#[derive(Clone, Copy, Debug, PartialEq, Eq, Structural)]
pub enum Colour {
    Black,
    Red,
    Green,
    Yellow,
    Blue,
    Purple,
}

/// A foreground colour, in normal or bold weight.
#[derive(Clone, Copy, Debug, PartialEq, Eq, Structural)]
pub struct Style {
    pub colour: Colour,
    pub bold: bool,
}

/// The number by which a terminal knows a foreground colour.
pub open spec fn colour_code(colour: Colour) -> Seq<char> {
    match colour {
        Colour::Black => seq!['3', '0'],
        Colour::Red => seq!['3', '1'],
        Colour::Green => seq!['3', '2'],
        Colour::Yellow => seq!['3', '3'],
        Colour::Blue => seq!['3', '4'],
        Colour::Purple => seq!['3', '5'],
    }
}

/// The escape sequence that switches a style on.
pub open spec fn style_prefix(style: Style) -> Seq<char> {
    seq!['\u{1b}', '['] + (if style.bold {
        seq!['1', ';']
    } else {
        Seq::<char>::empty()
    }) + colour_code(style.colour) + seq!['m']
}

/// The escape sequence that switches every style off.
pub open spec fn style_reset() -> Seq<char> {
    seq!['\u{1b}', '[', '0', 'm']
}

/// A text between the escape sequences that show it in a style.
pub open spec fn painted(style: Style, text: Seq<char>) -> Seq<char> {
    style_prefix(style) + text + style_reset()
}

/// Wraps a text in the escape sequences of a style.
///
/// Trusted: wraps `ansi_term::Style::paint` and the `Display` of what it
/// returns, for a style with a foreground colour that may be bold. The
/// contract spells the result out: `ESC [`, then `1;` for bold, the colour's
/// number and `m`; the text unchanged; and the reset sequence `ESC [ 0 m`.
#[verifier::external_body]
fn paint_with(style: Style, text: &str) -> (out: String)
    ensures
        out@ == painted(style, text@),
{
    let colour = match style.colour {
        Colour::Black => ansi_term::Colour::Black,
        Colour::Red => ansi_term::Colour::Red,
        Colour::Green => ansi_term::Colour::Green,
        Colour::Yellow => ansi_term::Colour::Yellow,
        Colour::Blue => ansi_term::Colour::Blue,
        Colour::Purple => ansi_term::Colour::Purple,
    };
    let look = ansi_term::Style { foreground: Some(colour), is_bold: style.bold, ..Default::default() };
    look.paint(text).to_string()
}

impl Style {
    /// The colour in normal weight.
    pub fn normal(colour: Colour) -> (s: Style)
        ensures
            s == (Style { colour, bold: false }),
    {
        Style { colour, bold: false }
    }

    /// The colour in bold weight.
    pub fn bold(colour: Colour) -> (s: Style)
        ensures
            s == (Style { colour, bold: true }),
    {
        Style { colour, bold: true }
    }

    /// The text, wrapped so that a terminal shows it in this style.
    pub fn paint(&self, text: &str) -> (out: String)
        ensures
            out@ == painted(*self, text@),
    {
        paint_with(*self, text)
    }
}

} // verus!
