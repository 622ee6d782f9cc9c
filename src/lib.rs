//! Chinese numeral renderings of numbers: lowercase and formal numeral words,
//! digit-by-digit Chinese glyphs, and full-width Arabic digits.
use vstd::prelude::*;

pub mod glyphs;
pub mod numeral;
pub mod text;

verus! {

} // verus!
