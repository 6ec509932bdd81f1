//! Latin text in the Ogham script.

use vstd::prelude::*;
use vstd::std_specs::convert::FromSpecImpl;

verus! {

/// A sign of the Ogham script: a letter, a mark that opens or closes a
/// text, or the space.
#[derive(Clone, Copy, Debug, PartialEq, Eq)]
pub enum Ogham {
    /// Beith
    B,
    /// Luis
    L,
    /// Fern
    F,
    /// Sail
    S,
    /// Nion
    N,
    /// Uath
    H,
    /// Dair
    D,
    /// Tinne
    T,
    /// Coll
    C,
    /// Ceirt
    Q,
    /// Muin
    M,
    /// Gort
    G,
    /// Ngetal
    NG,
    /// Straif
    Z,
    /// Ruis
    R,
    /// Ailm
    A,
    /// Onn
    O,
    /// Ur
    U,
    /// Eadhadh
    E,
    /// Iodhadh
    I,
    /// Eabhadh
    EA,
    /// Oir
    OI,
    /// Uillean
    UI,
    /// Ifin
    IA,
    /// Eamhancholl
    AE,
    /// Peith
    P,
    /// The mark that opens a text.
    Start,
    /// The mark that closes a text.
    End,
    /// The space between words.
    Space,
}

impl Ogham {
    /// The character that writes the sign. Eamhancholl is written as Peith.
    pub open spec fn glyph(self) -> char {
        match self {
            Ogham::B => '\u{1681}',
            Ogham::L => '\u{1682}',
            Ogham::F => '\u{1683}',
            Ogham::S => '\u{1684}',
            Ogham::N => '\u{1685}',
            Ogham::H => '\u{1686}',
            Ogham::D => '\u{1687}',
            Ogham::T => '\u{1688}',
            Ogham::C => '\u{1689}',
            Ogham::Q => '\u{168a}',
            Ogham::M => '\u{168b}',
            Ogham::G => '\u{168c}',
            Ogham::NG => '\u{168d}',
            Ogham::Z => '\u{168e}',
            Ogham::R => '\u{168f}',
            Ogham::A => '\u{1690}',
            Ogham::O => '\u{1691}',
            Ogham::U => '\u{1692}',
            Ogham::E => '\u{1693}',
            Ogham::I => '\u{1694}',
            Ogham::EA => '\u{1695}',
            Ogham::OI => '\u{1696}',
            Ogham::UI => '\u{1697}',
            Ogham::IA => '\u{1698}',
            Ogham::AE => '\u{169a}',
            Ogham::P => '\u{169a}',
            Ogham::Start => '\u{169b}',
            Ogham::End => '\u{169c}',
            Ogham::Space => '\u{1680}',
        }
    }
}

impl From<Ogham> for char {
    fn from(val: Ogham) -> (c: char) {
        match val {
            Ogham::B => '\u{1681}',
            Ogham::L => '\u{1682}',
            Ogham::F => '\u{1683}',
            Ogham::S => '\u{1684}',
            Ogham::N => '\u{1685}',
            Ogham::H => '\u{1686}',
            Ogham::D => '\u{1687}',
            Ogham::T => '\u{1688}',
            Ogham::C => '\u{1689}',
            Ogham::Q => '\u{168a}',
            Ogham::M => '\u{168b}',
            Ogham::G => '\u{168c}',
            Ogham::NG => '\u{168d}',
            Ogham::Z => '\u{168e}',
            Ogham::R => '\u{168f}',
            Ogham::A => '\u{1690}',
            Ogham::O => '\u{1691}',
            Ogham::U => '\u{1692}',
            Ogham::E => '\u{1693}',
            Ogham::I => '\u{1694}',
            Ogham::EA => '\u{1695}',
            Ogham::OI => '\u{1696}',
            Ogham::UI => '\u{1697}',
            Ogham::IA => '\u{1698}',
            Ogham::AE => '\u{169a}',
            Ogham::P => '\u{169a}',
            Ogham::Start => '\u{169b}',
            Ogham::End => '\u{169c}',
            Ogham::Space => '\u{1680}',
        }
    }
}

impl FromSpecImpl<Ogham> for char {
    open spec fn obeys_from_spec() -> bool {
        true
    }

    open spec fn from_spec(val: Ogham) -> char {
        val.glyph()
    }
}

/// The sign that stands for a lower-case Latin letter or for the space;
/// `None` for every other character.
pub open spec fn letter_of(c: char) -> Option<Ogham> {
    match c {
        'a' => Some(Ogham::A),
        'b' => Some(Ogham::B),
        'c' => Some(Ogham::C),
        'd' => Some(Ogham::D),
        'e' => Some(Ogham::E),
        'f' => Some(Ogham::F),
        'g' => Some(Ogham::G),
        'h' => Some(Ogham::H),
        'i' => Some(Ogham::I),
        'j' => Some(Ogham::H),
        'k' => Some(Ogham::C),
        'l' => Some(Ogham::L),
        'm' => Some(Ogham::M),
        'n' => Some(Ogham::N),
        'o' => Some(Ogham::O),
        'p' => Some(Ogham::P),
        'q' => Some(Ogham::Q),
        'r' => Some(Ogham::R),
        's' => Some(Ogham::S),
        't' => Some(Ogham::T),
        'u' => Some(Ogham::U),
        'v' => Some(Ogham::F),
        'w' => Some(Ogham::EA),
        'x' => Some(Ogham::OI),
        'y' => Some(Ogham::IA),
        'z' => Some(Ogham::Z),
        ' ' => Some(Ogham::Space),
        _ => None,
    }
}

/// The sign that is written for a character: its own where it has one, the
/// space where it has none.
pub open spec fn sign_of(c: char) -> Ogham {
    match letter_of(c) {
        Some(sign) => sign,
        None => Ogham::Space,
    }
}

/// A text in lower case, in Ogham: the opening mark, the sign of each
/// character in turn, and the closing mark.
pub open spec fn ogham_text(lower: Seq<char>) -> Seq<char> {
    seq![Ogham::Start.glyph()] + lower.map_values(|c: char| sign_of(c).glyph()) + seq![
        Ogham::End.glyph(),
    ]
}

/// The text in lower case.
pub uninterp spec fn lowercase(text: Seq<char>) -> Seq<char>;

/// `str::to_lowercase` of the standard library. The result is the text in
/// lower case as Unicode defines it, which depends on the text alone.
#[verifier::external_body]
fn to_lowercase(text: &str) -> (lower: String)
    ensures
        lower@ == lowercase(text@),
{
    text.to_lowercase()
}

/// `String::push` of the standard library appends the character to the end
/// of the string.
pub assume_specification[ String::push ](s: &mut String, ch: char)
    ensures
        final(s)@ == old(s)@.push(ch),
;

/// Finds the sign that stands for a character.
pub fn find_letter(c: char) -> (r: Option<Ogham>)
    ensures
        r == letter_of(c),
{
    match c {
        'a' => Some(Ogham::A),
        'b' => Some(Ogham::B),
        'c' => Some(Ogham::C),
        'd' => Some(Ogham::D),
        'e' => Some(Ogham::E),
        'f' => Some(Ogham::F),
        'g' => Some(Ogham::G),
        'h' => Some(Ogham::H),
        'i' => Some(Ogham::I),
        'j' => Some(Ogham::H),
        'k' => Some(Ogham::C),
        'l' => Some(Ogham::L),
        'm' => Some(Ogham::M),
        'n' => Some(Ogham::N),
        'o' => Some(Ogham::O),
        'p' => Some(Ogham::P),
        'q' => Some(Ogham::Q),
        'r' => Some(Ogham::R),
        's' => Some(Ogham::S),
        't' => Some(Ogham::T),
        'u' => Some(Ogham::U),
        'v' => Some(Ogham::F),
        'w' => Some(Ogham::EA),
        'x' => Some(Ogham::OI),
        'y' => Some(Ogham::IA),
        'z' => Some(Ogham::Z),
        ' ' => Some(Ogham::Space),
        _ => None,
    }
}

/// Writes a text that is in lower case already in Ogham.
pub fn ogham_of_lowercase(lower: &str) -> (r: String)
    ensures
        r@ == ogham_text(lower@),
{
    let mut r = String::new();
    r.push(char::from(Ogham::Start));
    let chars = lower.chars();
    proof {
        vstd::string::axiom_spec_iter(lower);
    }
    for c in it: chars
        invariant
            it.seq() == lower@,
            r@ == seq![Ogham::Start.glyph()] + lower@.take(it.index()).map_values(
                |c: char| sign_of(c).glyph(),
            ),
    {
        let sign = match find_letter(c) {
            Some(sign) => sign,
            None => Ogham::Space,
        };
        proof {
            let f = |c: char| sign_of(c).glyph();
            let i = it.index();
            assert(lower@.take(i + 1).map_values(f) =~= lower@.take(i).map_values(f).push(
                f(lower@[i]),
            ));
        }
        r.push(char::from(sign));
    }
    proof {
        assert(lower@.take(lower@.len() as int) =~= lower@);
    }
    r.push(char::from(Ogham::End));
    r
}

/// Writes a text in Ogham: the text is put in lower case, every Latin
/// letter and every space becomes its sign, every other character a space,
/// and the marks that open and close a text are set around the whole.
pub fn into_ogham(text: String) -> (r: String)
    ensures
        r@ == ogham_text(lowercase(text@)),
{
    let lower = to_lowercase(text.as_str());
    ogham_of_lowercase(lower.as_str())
}

} // verus!
