use vstd::prelude::*;

verus! {

/// A terminal color.
#[derive(Clone, Copy, Debug, PartialEq, Eq, Structural)]
pub enum Tone {
    Black,
    White,
    Gray,
    DarkGray,
    Cyan,
    Rgb(u8, u8, u8),
}

/// How a piece of text is drawn: text color, background color, and whether
/// it is bold.
#[derive(Clone, Copy, Debug, PartialEq, Eq, Structural)]
pub struct Paint {
    pub fg: Option<Tone>,
    pub bg: Option<Tone>,
    pub bold: bool,
}

/// Text in `fg` on the default background.
pub open spec fn fg_only(fg: Tone) -> Paint {
    Paint { fg: Some(fg), bg: None, bold: false }
}

pub fn paint_fg(fg: Tone) -> (p: Paint)
    ensures
        p == fg_only(fg),
{
    Paint { fg: Some(fg), bg: None, bold: false }
}

} // verus!
