use colored::{Color, Colorize};
use vstd::prelude::*;

verus! {

/// The colours in which the printers highlight text.
#[derive(Debug, Clone, Copy, PartialEq, Eq, Structural)]
pub enum Ink {
    Red,
    Green,
    Cyan,
    White,
}

/// The character that starts a terminal escape sequence.
pub open spec fn escape() -> char {
    '\x1b'
}

impl Ink {
    /// The escape sequence that switches the terminal to this colour.
    pub open spec fn switch_on(self) -> Seq<char> {
        match self {
            Ink::Red => seq![escape(), '[', '3', '1', 'm'],
            Ink::Green => seq![escape(), '[', '3', '2', 'm'],
            Ink::Cyan => seq![escape(), '[', '3', '6', 'm'],
            Ink::White => seq![escape(), '[', '3', '7', 'm'],
        }
    }
}

/// The escape sequence that switches all colours off again.
pub open spec fn switch_off() -> Seq<char> {
    seq![escape(), '[', '0', 'm']
}

/// `plain` with the colour `ink` switched on again behind every sequence in
/// it that switches colours off, so that such a sequence inside the text does
/// not end the highlighting.
pub open spec fn recoloured(plain: Seq<char>, ink: Ink) -> Seq<char>
    decreases plain.len(),
{
    if plain.len() == 0 {
        plain
    } else if plain.len() >= 4 && plain.subrange(0, 4) == switch_off() {
        switch_off() + ink.switch_on() + recoloured(plain.subrange(4, plain.len() as int), ink)
    } else {
        seq![plain[0]] + recoloured(plain.subrange(1, plain.len() as int), ink)
    }
}

/// `out` is `plain` as highlighted in `ink`.
///
/// Whether colours are written at all is decided outside the program (by the
/// terminal and the environment), so either the text comes back as it is, or
/// it comes back recoloured between the sequence that switches the colour on
/// and the one that switches it off.
pub open spec fn is_painted(plain: Seq<char>, ink: Ink, out: Seq<char>) -> bool {
    out == plain || out == ink.switch_on() + recoloured(plain, ink) + switch_off()
}

/// A text without an escape character is recoloured into itself: with
/// colours on it stands unchanged between the two switching sequences.
pub proof fn lemma_recoloured_without_escape(plain: Seq<char>, ink: Ink)
    requires
        !plain.contains(escape()),
    ensures
        recoloured(plain, ink) == plain,
    decreases plain.len(),
{
    if plain.len() > 0 {
        let rest = plain.subrange(1, plain.len() as int);
        assert(plain[0] != escape());
        assert(switch_off()[0] == escape());
        if plain.len() >= 4 {
            assert(plain.subrange(0, 4)[0] == plain[0]);
        }
        assert forall|c: char| rest.contains(c) implies plain.contains(c) by {
            let i = choose|i: int| 0 <= i < rest.len() && rest[i] == c;
            assert(plain[i + 1] == c);
        }
        lemma_recoloured_without_escape(rest, ink);
        assert(seq![plain[0]] + rest =~= plain);
    }
}

/// `Colorize::color` of the crate `colored` on a string slice, then the
/// `Display` rendering of the coloured string it returns. With colours off
/// that rendering is the text itself; with colours on it is the text between
/// `ESC [ <code> m` and `ESC [ 0 m`, with the colour switched on again behind
/// every reset sequence that the text itself holds.
#[verifier::external_body]
pub(crate) fn paint(text: &str, ink: Ink) -> (out: String)
    ensures
        is_painted(text@, ink, out@),
{
    let color = match ink {
        Ink::Red => Color::Red,
        Ink::Green => Color::Green,
        Ink::Cyan => Color::Cyan,
        Ink::White => Color::White,
    };
    format!("{}", text.color(color))
}

} // verus!
