//! Colour, where a person is reading: red when standard output is a
//! terminal and `NO_COLOR` is not set, which the program decides; the
//! words say the same either way.
use vstd::prelude::*;
use crate::text::{append_str, text_of};

verus! {

/// The text in red, when a person is reading.
pub open spec fn red_text(text: Seq<char>, colour: bool) -> Seq<char> {
    if colour {
        seq!['\x1b'] + "[31m"@ + text + seq!['\x1b'] + "[0m"@
    } else {
        text
    }
}

pub fn red(text: &str, colour: bool) -> (r: String)
    ensures
        r@ == red_text(text@, colour),
{
    if colour {
        let mut out: Vec<char> = Vec::new();
        out.push('\x1b');
        append_str(&mut out, "[31m");
        append_str(&mut out, text);
        out.push('\x1b');
        append_str(&mut out, "[0m");
        text_of(&out)
    } else {
        text.to_owned()
    }
}

} // verus!
