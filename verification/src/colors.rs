//! The color palette a configuration names, and its RGB rendering.
use vstd::prelude::*;

verus! {

/// A named palette color.
#[derive(Clone, Copy, Debug, PartialEq, Eq, Structural)]
pub enum Colors {
    Light,
    Dark,
    Purple,
    Blue,
    Green,
    Red,
    Orange,
    Yellow,
}

/// The RGB triple each palette color renders as.
pub open spec fn color_text(c: Colors) -> Seq<char> {
    match c {
        Colors::Light => "(0, 0, 0)"@,
        Colors::Dark => "(255, 255, 255)"@,
        Colors::Purple => "(128, 0, 128)"@,
        Colors::Blue => "(0, 0, 255)"@,
        Colors::Green => "(0, 255, 0)"@,
        Colors::Red => "(255, 0, 0)"@,
        Colors::Orange => "(255, 165, 0)"@,
        Colors::Yellow => "(255, 255, 0)"@,
    }
}

impl Colors {
    /// The RGB triple of the color, as text.
    pub fn get_color(&self) -> (r: String)
        ensures
            r@ == color_text(*self),
    {
        match self {
            Colors::Light => "(0, 0, 0)".to_owned(),
            Colors::Dark => "(255, 255, 255)".to_owned(),
            Colors::Purple => "(128, 0, 128)".to_owned(),
            Colors::Blue => "(0, 0, 255)".to_owned(),
            Colors::Green => "(0, 255, 0)".to_owned(),
            Colors::Red => "(255, 0, 0)".to_owned(),
            Colors::Orange => "(255, 165, 0)".to_owned(),
            Colors::Yellow => "(255, 255, 0)".to_owned(),
        }
    }
}

} // verus!
