use vstd::prelude::*;

verus! {

/// A four-bit pixel colour. With `a` set, `(r, g, b)` picks one of eight
/// palette colours. With `a` clear, all-false is "no edit" and
/// `(true, false, false, false)` is the erase directive.
#[derive(Clone, Copy, Debug, PartialEq, Eq, Structural)]
pub struct PixelColor {
    pub r: bool,
    pub g: bool,
    pub b: bool,
    pub a: bool,
}

/// One of the ten code points of the colour model: an opaque palette
/// colour, the transparent "no edit" value, or the erase directive.
pub open spec fn valid_color(c: PixelColor) -> bool {
    c.a || (!c.g && !c.b)
}

pub open spec fn transparent() -> PixelColor {
    PixelColor { r: false, g: false, b: false, a: false }
}

pub open spec fn erase() -> PixelColor {
    PixelColor { r: true, g: false, b: false, a: false }
}

/// The display code of a colour: light grey for anything not opaque, else
/// the palette colour's hex code.
pub open spec fn display_code(c: PixelColor) -> &'static str {
    if !c.a {
        "#dddddd"
    } else if !c.r && !c.g && !c.b {
        "#000000"
    } else if c.r && !c.g && !c.b {
        "#ff0000"
    } else if !c.r && c.g && !c.b {
        "#00ff00"
    } else if !c.r && !c.g && c.b {
        "#0000ff"
    } else if c.r && c.g && !c.b {
        "#ffff00"
    } else if c.r && !c.g && c.b {
        "#ff00ff"
    } else if !c.r && c.g && c.b {
        "#00ffff"
    } else {
        "#ffffff"
    }
}

impl PixelColor {
    /// "No edit": never overwrites anything when merged.
    pub fn alpha() -> (res: PixelColor)
        ensures
            res == (PixelColor { r: false, g: false, b: false, a: false }),
    {
        PixelColor { r: false, g: false, b: false, a: false }
    }

    pub fn black() -> (res: PixelColor)
        ensures
            res == (PixelColor { r: false, g: false, b: false, a: true }),
    {
        PixelColor { r: false, g: false, b: false, a: true }
    }

    pub fn red() -> (res: PixelColor)
        ensures
            res == (PixelColor { r: true, g: false, b: false, a: true }),
    {
        PixelColor { r: true, g: false, b: false, a: true }
    }

    pub fn green() -> (res: PixelColor)
        ensures
            res == (PixelColor { r: false, g: true, b: false, a: true }),
    {
        PixelColor { r: false, g: true, b: false, a: true }
    }

    pub fn blue() -> (res: PixelColor)
        ensures
            res == (PixelColor { r: false, g: false, b: true, a: true }),
    {
        PixelColor { r: false, g: false, b: true, a: true }
    }

    pub fn yellow() -> (res: PixelColor)
        ensures
            res == (PixelColor { r: true, g: true, b: false, a: true }),
    {
        PixelColor { r: true, g: true, b: false, a: true }
    }

    pub fn magenta() -> (res: PixelColor)
        ensures
            res == (PixelColor { r: true, g: false, b: true, a: true }),
    {
        PixelColor { r: true, g: false, b: true, a: true }
    }

    pub fn cyan() -> (res: PixelColor)
        ensures
            res == (PixelColor { r: false, g: true, b: true, a: true }),
    {
        PixelColor { r: false, g: true, b: true, a: true }
    }

    pub fn white() -> (res: PixelColor)
        ensures
            res == (PixelColor { r: true, g: true, b: true, a: true }),
    {
        PixelColor { r: true, g: true, b: true, a: true }
    }

    /// The erase directive: clears the pixel beneath it when merged.
    pub fn erase() -> (res: PixelColor)
        ensures
            res == (PixelColor { r: true, g: false, b: false, a: false }),
    {
        PixelColor { r: true, g: false, b: false, a: false }
    }

    pub fn new(r: bool, g: bool, b: bool, a: bool) -> (res: PixelColor)
        ensures
            res == (PixelColor { r, g, b, a }),
    {
        PixelColor { r, g, b, a }
    }

    /// A colour with the opacity flag clear.
    pub fn color(r: bool, g: bool, b: bool) -> (res: PixelColor)
        ensures
            res == (PixelColor { r, g, b, a: false }),
    {
        PixelColor { r, g, b, a: false }
    }

    /// The display code of the colour, as a hex string.
    pub fn to_rgb(&self) -> (res: &'static str)
        ensures
            res == display_code(*self),
    {
        if self.is_transperent() {
            return "#dddddd";
        }
        match (self.r, self.g, self.b) {
            (false, false, false) => "#000000",
            (true, false, false) => "#ff0000",
            (false, true, false) => "#00ff00",
            (false, false, true) => "#0000ff",
            (true, true, false) => "#ffff00",
            (true, false, true) => "#ff00ff",
            (false, true, true) => "#00ffff",
            (true, true, true) => "#ffffff",
        }
    }

    /// The colour carries no opacity: it is "no edit" or the erase directive.
    pub fn is_transperent(&self) -> (res: bool)
        ensures
            res == !self.a,
    {
        !self.a
    }

    /// The colour is the erase directive.
    pub fn is_eraser(&self) -> (res: bool)
        ensures
            res == (*self == erase()),
    {
        *self == PixelColor::erase()
    }
}

} // verus!
