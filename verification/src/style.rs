//! Terminal colours.
use vstd::prelude::*;
use owo_colors::OwoColorize;
use crate::text::Text;

verus! {

/// A text in bold: it stands between the escape that turns bold on and the one
/// that resets every attribute.
pub open spec fn in_bold(s: Text) -> Text {
    "\x1b[1m"@ + s + "\x1b[0m"@
}

/// A dimmed text.
pub open spec fn in_dim(s: Text) -> Text {
    "\x1b[2m"@ + s + "\x1b[0m"@
}

/// A red text: the escape that ends it restores the default foreground.
pub open spec fn in_red(s: Text) -> Text {
    "\x1b[31m"@ + s + "\x1b[39m"@
}

/// A green text.
pub open spec fn in_green(s: Text) -> Text {
    "\x1b[32m"@ + s + "\x1b[39m"@
}

/// A yellow text.
pub open spec fn in_yellow(s: Text) -> Text {
    "\x1b[33m"@ + s + "\x1b[39m"@
}

/// A blue text.
pub open spec fn in_blue(s: Text) -> Text {
    "\x1b[34m"@ + s + "\x1b[39m"@
}

/// A cyan text.
pub open spec fn in_cyan(s: Text) -> Text {
    "\x1b[36m"@ + s + "\x1b[39m"@
}

/// `OwoColorize::bold` writes the text between `ESC[1m` and `ESC[0m`.
#[verifier::external_body]
pub(crate) fn bold(s: &str) -> (r: String)
    ensures
        r@ == in_bold(s@),
{
    s.bold().to_string()
}

/// `OwoColorize::dimmed` writes the text between `ESC[2m` and `ESC[0m`.
#[verifier::external_body]
pub(crate) fn dimmed(s: &str) -> (r: String)
    ensures
        r@ == in_dim(s@),
{
    s.dimmed().to_string()
}

/// `OwoColorize::red` writes the text between `ESC[31m` and `ESC[39m`.
#[verifier::external_body]
pub(crate) fn red(s: &str) -> (r: String)
    ensures
        r@ == in_red(s@),
{
    s.red().to_string()
}

/// `OwoColorize::green` writes the text between `ESC[32m` and `ESC[39m`.
#[verifier::external_body]
pub(crate) fn green(s: &str) -> (r: String)
    ensures
        r@ == in_green(s@),
{
    s.green().to_string()
}

/// `OwoColorize::yellow` writes the text between `ESC[33m` and `ESC[39m`.
#[verifier::external_body]
pub(crate) fn yellow(s: &str) -> (r: String)
    ensures
        r@ == in_yellow(s@),
{
    s.yellow().to_string()
}

/// `OwoColorize::blue` writes the text between `ESC[34m` and `ESC[39m`.
#[verifier::external_body]
pub(crate) fn blue(s: &str) -> (r: String)
    ensures
        r@ == in_blue(s@),
{
    s.blue().to_string()
}

/// `OwoColorize::cyan` writes the text between `ESC[36m` and `ESC[39m`.
#[verifier::external_body]
pub(crate) fn cyan(s: &str) -> (r: String)
    ensures
        r@ == in_cyan(s@),
{
    s.cyan().to_string()
}

} // verus!
