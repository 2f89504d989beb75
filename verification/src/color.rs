//! Colors and the named CSS colors the stylesheet grammar accepts.

use vstd::prelude::*;

verus! {

/// An RGBA color, eight bits per channel.
#[derive(Debug, Clone, Copy, PartialEq, Eq, Structural)]
pub struct Color {
    pub r: u8,
    pub g: u8,
    pub b: u8,
    pub a: u8,
}

impl Color {
    /// Fully transparent black; also the default color.
    pub open spec fn spec_transparent() -> Color {
        Color { r: 0, g: 0, b: 0, a: 0 }
    }

    pub open spec fn spec_rgb(r: u8, g: u8, b: u8) -> Color {
        Color { r, g, b, a: 255 }
    }

    pub fn rgb(r: u8, g: u8, b: u8) -> (c: Color)
        ensures
            c == Color::spec_rgb(r, g, b),
    {
        Color { r, g, b, a: 255 }
    }

    pub fn rgba(r: u8, g: u8, b: u8, a: u8) -> (c: Color)
        ensures
            c == (Color { r, g, b, a }),
    {
        Color { r, g, b, a }
    }

    pub fn transparent() -> (c: Color)
        ensures
            c == Color::spec_transparent(),
    {
        Color { r: 0, g: 0, b: 0, a: 0 }
    }

    pub fn red() -> (c: Color)
        ensures
            c == Color::spec_rgb(255, 0, 0),
    {
        Color::rgb(255, 0, 0)
    }

    pub fn blue() -> (c: Color)
        ensures
            c == Color::spec_rgb(0, 0, 255),
    {
        Color::rgb(0, 0, 255)
    }
}

impl Default for Color {
    /// The default color is fully transparent.
    fn default() -> (c: Color)
        ensures
            c == Color::spec_transparent(),
    {
        Color { r: 0, g: 0, b: 0, a: 0 }
    }
}

/// String equality for string slices, by view.
pub fn str_eq(a: &str, b: &str) -> (r: bool)
    ensures
        r == (a@ == b@),
{
    let sa: String = a.to_owned();
    let sb: String = b.to_owned();
    sa == sb
}

/// The named colors the stylesheet grammar knows, as sequences of characters.
pub open spec fn spec_css_color(s: Seq<char>) -> Option<Color> {
    if s == "transparent"@ {
        Some(Color::spec_transparent())
    } else if s == "black"@ {
        Some(Color::spec_rgb(0x00, 0x00, 0x00))
    } else if s == "silver"@ {
        Some(Color::spec_rgb(0xC0, 0xC0, 0xC0))
    } else if s == "gray"@ || s == "grey"@ {
        Some(Color::spec_rgb(0x80, 0x80, 0x80))
    } else if s == "white"@ {
        Some(Color::spec_rgb(0xFF, 0xFF, 0xFF))
    } else if s == "maroon"@ {
        Some(Color::spec_rgb(0x80, 0x00, 0x00))
    } else if s == "red"@ {
        Some(Color::spec_rgb(0xFF, 0x00, 0x00))
    } else if s == "purple"@ {
        Some(Color::spec_rgb(0x80, 0x00, 0x80))
    } else if s == "fuchsia"@ {
        Some(Color::spec_rgb(0xFF, 0x00, 0xFF))
    } else if s == "green"@ {
        Some(Color::spec_rgb(0x00, 0x80, 0x00))
    } else if s == "lime"@ {
        Some(Color::spec_rgb(0x00, 0xFF, 0x00))
    } else if s == "olive"@ {
        Some(Color::spec_rgb(0x80, 0x80, 0x00))
    } else if s == "yellow"@ {
        Some(Color::spec_rgb(0xFF, 0xFF, 0x00))
    } else if s == "navy"@ {
        Some(Color::spec_rgb(0x00, 0x00, 0x80))
    } else if s == "blue"@ {
        Some(Color::spec_rgb(0x00, 0x00, 0xFF))
    } else if s == "teal"@ {
        Some(Color::spec_rgb(0x00, 0x80, 0x80))
    } else if s == "aqua"@ {
        Some(Color::spec_rgb(0x00, 0xFF, 0xFF))
    } else {
        None
    }
}

/// Resolves a CSS color name; `None` for a name that is not in the table.
pub fn css_color(name: &str) -> (r: Option<Color>)
    ensures
        r == spec_css_color(name@),
{
    if str_eq(name, "transparent") {
        Some(Color::transparent())
    } else if str_eq(name, "black") {
        Some(Color::rgb(0x00, 0x00, 0x00))
    } else if str_eq(name, "silver") {
        Some(Color::rgb(0xC0, 0xC0, 0xC0))
    } else if str_eq(name, "gray") || str_eq(name, "grey") {
        Some(Color::rgb(0x80, 0x80, 0x80))
    } else if str_eq(name, "white") {
        Some(Color::rgb(0xFF, 0xFF, 0xFF))
    } else if str_eq(name, "maroon") {
        Some(Color::rgb(0x80, 0x00, 0x00))
    } else if str_eq(name, "red") {
        Some(Color::rgb(0xFF, 0x00, 0x00))
    } else if str_eq(name, "purple") {
        Some(Color::rgb(0x80, 0x00, 0x80))
    } else if str_eq(name, "fuchsia") {
        Some(Color::rgb(0xFF, 0x00, 0xFF))
    } else if str_eq(name, "green") {
        Some(Color::rgb(0x00, 0x80, 0x00))
    } else if str_eq(name, "lime") {
        Some(Color::rgb(0x00, 0xFF, 0x00))
    } else if str_eq(name, "olive") {
        Some(Color::rgb(0x80, 0x80, 0x00))
    } else if str_eq(name, "yellow") {
        Some(Color::rgb(0xFF, 0xFF, 0x00))
    } else if str_eq(name, "navy") {
        Some(Color::rgb(0x00, 0x00, 0x80))
    } else if str_eq(name, "blue") {
        Some(Color::rgb(0x00, 0x00, 0xFF))
    } else if str_eq(name, "teal") {
        Some(Color::rgb(0x00, 0x80, 0x80))
    } else if str_eq(name, "aqua") {
        Some(Color::rgb(0x00, 0xFF, 0xFF))
    } else {
        None
    }
}

/// Accepts a quoted string value as it stands.
pub fn css_string(name: &str) -> (r: Option<String>)
    ensures
        match r {
            Some(s) => s@ == name@,
            None => false,
        },
{
    Some(name.to_owned())
}

} // verus!
