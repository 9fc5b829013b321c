//! The colours of a terminal.

use vstd::prelude::*;

verus! {

/// The sixteen basic colours, each as red, green and blue.
#[derive(Clone, Copy, PartialEq, Debug)]
pub struct TerminalPalette {
    pub black: [u8; 3],
    pub red: [u8; 3],
    pub green: [u8; 3],
    pub yellow: [u8; 3],
    pub blue: [u8; 3],
    pub magenta: [u8; 3],
    pub cyan: [u8; 3],
    pub white: [u8; 3],
    pub bright_black: [u8; 3],
    pub bright_red: [u8; 3],
    pub bright_green: [u8; 3],
    pub bright_yellow: [u8; 3],
    pub bright_blue: [u8; 3],
    pub bright_magenta: [u8; 3],
    pub bright_cyan: [u8; 3],
    pub bright_white: [u8; 3],
}

/// A colour as one number.
pub open spec fn packed(c: [u8; 3]) -> int {
    c@[0] * 65536 + c@[1] * 256 + c@[2]
}

impl TerminalPalette {
    /// The colours as numbers, the basic ones first, then the bright ones.
    pub open spec fn numbers(self) -> Seq<int> {
        seq![
            packed(self.black),
            packed(self.red),
            packed(self.green),
            packed(self.yellow),
            packed(self.blue),
            packed(self.magenta),
            packed(self.cyan),
            packed(self.white),
            packed(self.bright_black),
            packed(self.bright_red),
            packed(self.bright_green),
            packed(self.bright_yellow),
            packed(self.bright_blue),
            packed(self.bright_magenta),
            packed(self.bright_cyan),
            packed(self.bright_white),
        ]
    }

    /// Dark colours for a light background.
    pub fn light() -> (r: Self)
        ensures
            r.numbers() == seq![
                0x3b3b3bint,
                0xb3261e,
                0x2b6f2d,
                0x806200,
                0x1a56c4,
                0x9c27b0,
                0x0b6e78,
                0x6b6b6b,
                0x6e6e6e,
                0xb91c1c,
                0x176b28,
                0x8a6200,
                0x0f5cb0,
                0x99124d,
                0x00695c,
                0x2b2b2b,
            ],
    {
        TerminalPalette {
            black: [0x3b, 0x3b, 0x3b],
            red: [0xb3, 0x26, 0x1e],
            green: [0x2b, 0x6f, 0x2d],
            yellow: [0x80, 0x62, 0x00],
            blue: [0x1a, 0x56, 0xc4],
            magenta: [0x9c, 0x27, 0xb0],
            cyan: [0x0b, 0x6e, 0x78],
            white: [0x6b, 0x6b, 0x6b],
            bright_black: [0x6e, 0x6e, 0x6e],
            bright_red: [0xb9, 0x1c, 0x1c],
            bright_green: [0x17, 0x6b, 0x28],
            bright_yellow: [0x8a, 0x62, 0x00],
            bright_blue: [0x0f, 0x5c, 0xb0],
            bright_magenta: [0x99, 0x12, 0x4d],
            bright_cyan: [0x00, 0x69, 0x5c],
            bright_white: [0x2b, 0x2b, 0x2b],
        }
    }

    /// Light colours for a dark background.
    pub fn dark() -> (r: Self)
        ensures
            r.numbers() == seq![
                0x3b4048int,
                0xe06c75,
                0x98c379,
                0xe5c07b,
                0x61afef,
                0xc678dd,
                0x56b6c2,
                0xabb2bf,
                0x7f848e,
                0xff7b86,
                0xb4d89b,
                0xffd68a,
                0x7cc0ff,
                0xda8ee7,
                0x6fd3df,
                0xe6e9ef,
            ],
    {
        TerminalPalette {
            black: [0x3b, 0x40, 0x48],
            red: [0xe0, 0x6c, 0x75],
            green: [0x98, 0xc3, 0x79],
            yellow: [0xe5, 0xc0, 0x7b],
            blue: [0x61, 0xaf, 0xef],
            magenta: [0xc6, 0x78, 0xdd],
            cyan: [0x56, 0xb6, 0xc2],
            white: [0xab, 0xb2, 0xbf],
            bright_black: [0x7f, 0x84, 0x8e],
            bright_red: [0xff, 0x7b, 0x86],
            bright_green: [0xb4, 0xd8, 0x9b],
            bright_yellow: [0xff, 0xd6, 0x8a],
            bright_blue: [0x7c, 0xc0, 0xff],
            bright_magenta: [0xda, 0x8e, 0xe7],
            bright_cyan: [0x6f, 0xd3, 0xdf],
            bright_white: [0xe6, 0xe9, 0xef],
        }
    }
}

} // verus!
