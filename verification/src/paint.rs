//! Terminal colours. What a painted text looks like depends on the terminal
//! and the environment, so nothing in this module promises anything about
//! the characters that come out.

use colored::{ColoredString, Colorize};
use vstd::prelude::*;

verus! {

#[verifier::external_type_specification]
#[verifier::external_body]
pub struct ExColoredString(ColoredString);

/// `ColoredString::from`: a text with no colour and no style yet.
#[verifier::external_body]
pub(crate) fn plain(text: &str) -> ColoredString {
    ColoredString::from(text)
}

/// `Colorize::bold` on a `ColoredString`.
#[verifier::external_body]
pub(crate) fn bold(text: ColoredString) -> ColoredString {
    text.bold()
}

/// `Colorize::green` on a `ColoredString`.
#[verifier::external_body]
pub(crate) fn green(text: ColoredString) -> ColoredString {
    text.green()
}

/// `Colorize::bright_green` on a `ColoredString`.
#[verifier::external_body]
pub(crate) fn bright_green(text: ColoredString) -> ColoredString {
    text.bright_green()
}

/// `Colorize::bright_blue` on a `ColoredString`.
#[verifier::external_body]
pub(crate) fn bright_blue(text: ColoredString) -> ColoredString {
    text.bright_blue()
}

/// `ColoredString`'s `Display`: the text with the escape sequences of its
/// colour and style around it, or the bare text where colours are switched
/// off.
#[verifier::external_body]
pub(crate) fn render(text: &ColoredString) -> String {
    text.to_string()
}

} // verus!
