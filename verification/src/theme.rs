//! The colour themes: Yerba Mate (dark) and Tererê (light), switched by
//! the hour — light from 6h to 18h, dark otherwise.
use vstd::prelude::*;
use crate::text::{decimal, parse_u32, trim, trim_str};

verus! {

/// A colour as red, green and blue.
#[derive(Clone, Copy, Debug, PartialEq, Eq, Structural)]
pub struct Rgb {
    pub r: u8,
    pub g: u8,
    pub b: u8,
}

/// The colours the interface is drawn with.
#[derive(Clone, Copy, Debug, PartialEq, Eq, Structural)]
pub struct Theme {
    pub bg: Rgb,
    pub surface: Rgb,
    pub border: Rgb,
    pub text: Rgb,
    pub text_2: Rgb,
    pub text_3: Rgb,
    pub text_4: Rgb,
    /// `--accent-text`, not `--accent`: the fill colour fails contrast as
    /// text in Tererê, so the design system splits fill from ink.
    pub accent_text: Rgb,
}

/// A colour from its components.
pub open spec fn rgb(r: u8, g: u8, b: u8) -> Rgb {
    Rgb { r, g, b }
}

/// Yerba Mate, the dark theme.
pub open spec fn yerba_mate() -> Theme {
    Theme {
        bg: rgb(0x28, 0x2d, 0x1c),
        surface: rgb(0x40, 0x48, 0x34),
        border: rgb(0x4f, 0x5b, 0x4a),
        text: rgb(0xdc, 0xe0, 0xd9),
        text_2: rgb(0xb8, 0xc0, 0xaf),
        text_3: rgb(0xa0, 0xab, 0x98),
        text_4: rgb(0x7a, 0x85, 0x73),
        accent_text: rgb(0xd4, 0xa0, 0x33),
    }
}

/// Tererê, the light theme.
pub open spec fn terere() -> Theme {
    Theme {
        bg: rgb(0xfb, 0xf1, 0xc7),
        surface: rgb(0xf5, 0xea, 0xc0),
        border: rgb(0xdd, 0xd2, 0xa0),
        text: rgb(0x3c, 0x38, 0x36),
        text_2: rgb(0x50, 0x49, 0x45),
        text_3: rgb(0x66, 0x5c, 0x54),
        text_4: rgb(0x7c, 0x6f, 0x64),
        accent_text: rgb(0x8f, 0x4f, 0x00),
    }
}

/// The hour that `date +%H` printed, or noon when it could not be read.
pub open spec fn hour_of(output: Option<Seq<char>>) -> int {
    match output {
        Some(o) => match decimal(trim(o), false) {
            Some(h) => if h <= u32::MAX {
                h
            } else {
                12
            },
            None => 12,
        },
        None => 12,
    }
}

/// Whether it is day by the output of `date +%H` (`None` when `date` could
/// not be run): from 6h up to 18h.
pub fn is_daytime(date_output: Option<&str>) -> (r: bool)
    ensures
        r == (6 <= hour_of(match date_output {
            Some(o) => Some(o@),
            None => None,
        }) < 18),
{
    let hour: u32 = match date_output {
        Some(o) => match parse_u32(trim_str(o)) {
            Some(h) => h,
            None => 12,
        },
        None => 12,
    };
    6 <= hour && hour < 18
}

/// The theme for the time of day: Tererê by day, Yerba Mate by night.
pub fn current(daytime: bool) -> (t: Theme)
    ensures
        t == (if daytime {
            terere()
        } else {
            yerba_mate()
        }),
{
    if daytime {
        Theme {
            bg: Rgb { r: 0xfb, g: 0xf1, b: 0xc7 },
            surface: Rgb { r: 0xf5, g: 0xea, b: 0xc0 },
            border: Rgb { r: 0xdd, g: 0xd2, b: 0xa0 },
            text: Rgb { r: 0x3c, g: 0x38, b: 0x36 },
            text_2: Rgb { r: 0x50, g: 0x49, b: 0x45 },
            text_3: Rgb { r: 0x66, g: 0x5c, b: 0x54 },
            text_4: Rgb { r: 0x7c, g: 0x6f, b: 0x64 },
            accent_text: Rgb { r: 0x8f, g: 0x4f, b: 0x00 },
        }
    } else {
        Theme {
            bg: Rgb { r: 0x28, g: 0x2d, b: 0x1c },
            surface: Rgb { r: 0x40, g: 0x48, b: 0x34 },
            border: Rgb { r: 0x4f, g: 0x5b, b: 0x4a },
            text: Rgb { r: 0xdc, g: 0xe0, b: 0xd9 },
            text_2: Rgb { r: 0xb8, g: 0xc0, b: 0xaf },
            text_3: Rgb { r: 0xa0, g: 0xab, b: 0x98 },
            text_4: Rgb { r: 0x7a, g: 0x85, b: 0x73 },
            accent_text: Rgb { r: 0xd4, g: 0xa0, b: 0x33 },
        }
    }
}

} // verus!
