//! The plot output formats.
use vstd::prelude::*;

verus! {

/// The file format the plotting program writes.
#[derive(Debug, Clone, Copy, PartialEq, Eq, Structural)]
pub enum GraphOutputType {
    NONE,
    SVG,
    PDF,
    PNG,
}

impl GraphOutputType {
    /// The format's name as the plotting program knows it; empty for `NONE`.
    pub fn name(&self) -> (r: String)
        ensures
            *self == GraphOutputType::NONE ==> r@ == ""@,
            *self == GraphOutputType::SVG ==> r@ == "svg"@,
            *self == GraphOutputType::PDF ==> r@ == "pdf"@,
            *self == GraphOutputType::PNG ==> r@ == "png"@,
    {
        match self {
            GraphOutputType::NONE => String::from_str(""),
            GraphOutputType::SVG => String::from_str("svg"),
            GraphOutputType::PDF => String::from_str("pdf"),
            GraphOutputType::PNG => String::from_str("png"),
        }
    }
}

} // verus!
