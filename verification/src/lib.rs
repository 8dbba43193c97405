//! Verified logic of a desktop wallpaper tool that prints a scripture verse
//! onto a picture and sets it as the desktop background.
use vstd::prelude::*;

pub mod compose;
pub mod config;
pub mod database;
pub mod fonts;
pub mod json;
pub mod pictures;
mod random;
pub mod shell;
pub mod text;
pub mod wrap;

verus! {

/// `String::push` appends one character.
pub assume_specification[ String::push ](s: &mut String, ch: char)
    ensures
        final(s)@ == old(s)@.push(ch),
;

} // verus!
