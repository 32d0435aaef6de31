//! The fixed palette of output colors and their ANSI encodings.

use vstd::prelude::*;

verus! {

/// A color a command's output lines may be rendered in, one of the fixed
/// palette that the configuration may name.
#[derive(Clone, Copy, PartialEq, Eq, Structural, Debug)]
pub enum Color {
    Default,
    Red,
    Green,
    Yellow,
    Blue,
    Purple,
}

impl Color {
    /// The ANSI Select Graphic Rendition code of this color.
    pub open spec fn spec_sgr_code(self) -> u8 {
        match self {
            Color::Default => 0,
            Color::Red => 31,
            Color::Green => 32,
            Color::Yellow => 33,
            Color::Blue => 34,
            Color::Purple => 35,
        }
    }

    pub fn sgr_code(self) -> (r: u8)
        ensures
            r == self.spec_sgr_code(),
    {
        match self {
            Color::Default => 0,
            Color::Red => 31,
            Color::Green => 32,
            Color::Yellow => 33,
            Color::Blue => 34,
            Color::Purple => 35,
        }
    }
}

/// The color named by a configuration string, if it names one of the palette.
pub open spec fn spec_parse_color(name: Seq<char>) -> Option<Color> {
    if name == "default"@ {
        Some(Color::Default)
    } else if name == "red"@ {
        Some(Color::Red)
    } else if name == "green"@ {
        Some(Color::Green)
    } else if name == "yellow"@ {
        Some(Color::Yellow)
    } else if name == "blue"@ {
        Some(Color::Blue)
    } else if name == "purple"@ {
        Some(Color::Purple)
    } else {
        None
    }
}

/// Character-by-character equality of two string slices.
pub fn str_eq(a: &str, b: &str) -> (r: bool)
    ensures
        r == (a@ == b@),
{
    let la = a.unicode_len();
    let lb = b.unicode_len();
    if la != lb {
        proof {
            assert(a@.len() != b@.len());
        }
        return false;
    }
    let mut i: usize = 0;
    while i < la
        invariant
            i <= la,
            la == a@.len(),
            la == b@.len(),
            forall|j: int| 0 <= j < i ==> a@[j] == b@[j],
        decreases la - i,
    {
        if a.get_char(i) != b.get_char(i) {
            return false;
        }
        i += 1;
    }
    proof {
        assert(a@ =~= b@);
    }
    true
}

/// Maps a configuration color name to its palette color; an unknown name is
/// rejected rather than looked up at render time.
pub fn parse_color(name: &str) -> (r: Option<Color>)
    ensures
        r == spec_parse_color(name@),
{
    if str_eq(name, "default") {
        Some(Color::Default)
    } else if str_eq(name, "red") {
        Some(Color::Red)
    } else if str_eq(name, "green") {
        Some(Color::Green)
    } else if str_eq(name, "yellow") {
        Some(Color::Yellow)
    } else if str_eq(name, "blue") {
        Some(Color::Blue)
    } else if str_eq(name, "purple") {
        Some(Color::Purple)
    } else {
        None
    }
}

/// The escape sequence `ESC [ <code> m` that starts a line of this color.
pub open spec fn spec_color_prefix(c: Color) -> Seq<u8> {
    match c {
        Color::Default => seq![27u8, 91u8, 48u8, 109u8],
        Color::Red => seq![27u8, 91u8, 51u8, 49u8, 109u8],
        Color::Green => seq![27u8, 91u8, 51u8, 50u8, 109u8],
        Color::Yellow => seq![27u8, 91u8, 51u8, 51u8, 109u8],
        Color::Blue => seq![27u8, 91u8, 51u8, 52u8, 109u8],
        Color::Purple => seq![27u8, 91u8, 51u8, 53u8, 109u8],
    }
}

/// The escape sequence `ESC [ 0 m` that restores the default rendition.
pub open spec fn spec_reset_suffix() -> Seq<u8> {
    seq![27u8, 91u8, 48u8, 109u8]
}

/// Appends the color's start escape sequence to `out`.
pub fn push_color_prefix(out: &mut Vec<u8>, c: Color)
    ensures
        final(out)@ == old(out)@ + spec_color_prefix(c),
{
    out.push(27);
    out.push(91);
    match c {
        Color::Default => {
            out.push(48);
        }
        Color::Red => {
            out.push(51);
            out.push(49);
        }
        Color::Green => {
            out.push(51);
            out.push(50);
        }
        Color::Yellow => {
            out.push(51);
            out.push(51);
        }
        Color::Blue => {
            out.push(51);
            out.push(52);
        }
        Color::Purple => {
            out.push(51);
            out.push(53);
        }
    }
    out.push(109);
    proof {
        assert(out@ =~= old(out)@ + spec_color_prefix(c));
    }
}

/// Appends the reset escape sequence to `out`.
pub fn push_reset_suffix(out: &mut Vec<u8>)
    ensures
        final(out)@ == old(out)@ + spec_reset_suffix(),
{
    out.push(27);
    out.push(91);
    out.push(48);
    out.push(109);
    proof {
        assert(out@ =~= old(out)@ + spec_reset_suffix());
    }
}

} // verus!
