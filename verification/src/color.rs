//! Colors and the packed color-attribute byte of the text-mode display.
//!
//! The display hardware stores, for every character cell, one attribute
//! byte whose low nibble selects the foreground color and whose high
//! nibble selects the background color. `ColorCode` values are built only
//! from two `Color`s, so every `ColorCode` in the system is a valid packed
//! attribute by construction.

use vstd::prelude::*;

verus! {

/// The sixteen fixed colors of the text-mode palette, each with a 4-bit
/// hardware code given by [`Color::code`].
#[allow(dead_code)]
#[derive(Debug, Clone, Copy, PartialEq, Eq, Structural)]
pub enum Color {
    Black,
    Blue,
    Green,
    Cyan,
    Red,
    Magenta,
    Brown,
    LightGray,
    DarkGray,
    LightBlue,
    LightGreen,
    LightCyan,
    LightRed,
    Pink,
    Yellow,
    White,
}

impl Color {
    /// The 4-bit hardware code of this color.
    pub open spec fn code_spec(self) -> u8 {
        match self {
            Color::Black => 0x0,
            Color::Blue => 0x1,
            Color::Green => 0x2,
            Color::Cyan => 0x3,
            Color::Red => 0x4,
            Color::Magenta => 0x5,
            Color::Brown => 0x6,
            Color::LightGray => 0x7,
            Color::DarkGray => 0x8,
            Color::LightBlue => 0x9,
            Color::LightGreen => 0xA,
            Color::LightCyan => 0xB,
            Color::LightRed => 0xC,
            Color::Pink => 0xD,
            Color::Yellow => 0xE,
            Color::White => 0xF,
        }
    }

    /// Every color code fits in the 4-bit field the hardware reserves for it.
    pub proof fn lemma_code_bounded(self)
        ensures
            self.code_spec() < 16,
    {
    }

    /// The 4-bit hardware code of this color.
    #[verifier::when_used_as_spec(code_spec)]
    pub fn code(self) -> (c: u8)
        ensures
            c == self.code_spec(),
    {
        match self {
            Color::Black => 0x0,
            Color::Blue => 0x1,
            Color::Green => 0x2,
            Color::Cyan => 0x3,
            Color::Red => 0x4,
            Color::Magenta => 0x5,
            Color::Brown => 0x6,
            Color::LightGray => 0x7,
            Color::DarkGray => 0x8,
            Color::LightBlue => 0x9,
            Color::LightGreen => 0xA,
            Color::LightCyan => 0xB,
            Color::LightRed => 0xC,
            Color::Pink => 0xD,
            Color::Yellow => 0xE,
            Color::White => 0xF,
        }
    }
}

/// A packed attribute byte: `(background code << 4) | foreground code`.
///
/// The display hardware reads this byte beside every character cell. Values
/// are created only by [`ColorCode::from_colors`], so the two nibbles always
/// hold valid 4-bit color codes.
#[derive(Debug, Clone, Copy, PartialEq, Eq, Structural)]
pub struct ColorCode(u8);

impl ColorCode {
    /// The raw attribute byte, as the hardware stores it.
    pub closed spec fn byte_spec(self) -> u8 {
        self.0
    }

    /// The foreground color code: the low nibble of the attribute byte.
    pub open spec fn fg_code(self) -> u8 {
        self.byte_spec() & 0x0F
    }

    /// The background color code: the high nibble of the attribute byte.
    pub open spec fn bg_code(self) -> u8 {
        self.byte_spec() >> 4
    }

    /// The attribute byte that packs `foreground` and `background`.
    pub closed spec fn spec_from_colors(foreground: Color, background: Color) -> ColorCode {
        ColorCode((background.code_spec() << 4) | foreground.code_spec())
    }

    /// Packs a foreground and a background color into one attribute byte.
    ///
    /// Total: every pair of colors yields a valid attribute whose low
    /// nibble is the foreground code and whose high nibble is the
    /// background code.
    pub fn from_colors(foreground: Color, background: Color) -> (r: ColorCode)
        ensures
            r == Self::spec_from_colors(foreground, background),
            r.fg_code() == foreground.code_spec(),
            r.bg_code() == background.code_spec(),
    {
        proof {
            foreground.lemma_code_bounded();
            background.lemma_code_bounded();
            Self::lemma_pack_nibbles(foreground.code_spec(), background.code_spec());
        }
        ColorCode((background.code() << 4) | foreground.code())
    }

    /// Packing two nibbles and reading them back returns the originals.
    proof fn lemma_pack_nibbles(fg: u8, bg: u8)
        requires
            fg < 16,
            bg < 16,
        ensures
            ((bg << 4) | fg) & 0x0F == fg,
            ((bg << 4) | fg) >> 4 == bg,
    {
        assert(((bg << 4) | fg) & 0x0F == fg && ((bg << 4) | fg) >> 4 == bg) by (bit_vector)
            requires
                fg < 16,
                bg < 16,
        ;
    }

    /// The raw attribute byte, for handing to the display hardware.
    pub fn as_byte(self) -> (b: u8)
        ensures
            b == self.byte_spec(),
    {
        self.0
    }
}

} // verus!
