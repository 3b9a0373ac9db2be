//! Colour decoration of rendered lines and the platform's path separator,
//! both taken from outside the library.
use colored::Colorize;
use vstd::prelude::*;

verus! {

/// The escape sequence that ends a styled span.
pub open spec fn reset_sequence() -> Seq<char> {
    seq!['\u{1b}', '[', '0', 'm']
}

/// The style sequence colored writes for bold red text.
pub open spec fn red_bold_style() -> Seq<char> {
    seq!['\u{1b}', '[', '1', ';', '3', '1', 'm']
}

/// The style sequence colored writes for green text.
pub open spec fn green_style() -> Seq<char> {
    seq!['\u{1b}', '[', '3', '2', 'm']
}

/// The style of a line by its kind: bold red for directories, green for files.
pub open spec fn style_of(is_dir: bool) -> Seq<char> {
    if is_dir {
        red_bold_style()
    } else {
        green_style()
    }
}

/// `s` holds the reset sequence somewhere.
pub open spec fn has_reset(s: Seq<char>) -> bool {
    exists|i: int| 0 <= i && i + 4 <= s.len() && #[trigger] s.subrange(i, i + 4) == reset_sequence()
}

/// `out` is `plain` styled with `style`: it opens with the style, closes with
/// the reset, and is at least that much longer than `plain`; where `plain`
/// holds no reset of its own, `out` is exactly the style, `plain` and the
/// reset.
pub open spec fn styled(out: Seq<char>, plain: Seq<char>, style: Seq<char>) -> bool {
    &&& out.len() >= style.len() + plain.len() + 4
    &&& out.subrange(0, style.len() as int) == style
    &&& out.subrange(out.len() - 4, out.len() as int) == reset_sequence()
    &&& !has_reset(plain) ==> out == style + plain + reset_sequence()
}

/// `out` is what decoration makes of a line of text `plain` and kind
/// `is_dir`: unchanged when colour is off; when it is on, either unchanged
/// (the terminal environment may turn styling off) or styled for its kind.
pub open spec fn decorated(colored: bool, is_dir: bool, plain: Seq<char>, out: Seq<char>) -> bool {
    if colored {
        out == plain || styled(out, plain, style_of(is_dir))
    } else {
        out == plain
    }
}

/// Relies on colored's `Colorize::red`, `Colorize::bold` and the `Display` of
/// `ColoredString`: the text comes back as it is when colored decides from the
/// environment not to style, else as `ESC[1;31m`, the text (with the style
/// repeated after any reset inside it) and `ESC[0m`.
#[verifier::external_body]
pub(crate) fn red_bold(s: &String) -> (r: String)
    ensures
        r@ == s@ || styled(r@, s@, red_bold_style()),
{
    s.as_str().red().bold().to_string()
}

/// Relies on colored's `Colorize::green` and the `Display` of `ColoredString`:
/// the text comes back as it is when colored decides from the environment not
/// to style, else as `ESC[32m`, the text (with the style repeated after any
/// reset inside it) and `ESC[0m`.
#[verifier::external_body]
pub(crate) fn green(s: &String) -> (r: String)
    ensures
        r@ == s@ || styled(r@, s@, green_style()),
{
    s.as_str().green().to_string()
}

/// Relies on `std::path::MAIN_SEPARATOR_STR`: `\` on Windows, `/` elsewhere.
#[verifier::external_body]
pub(crate) fn platform_separator() -> (r: String)
    ensures
        r@ == seq!['/'] || r@ == seq!['\\'],
{
    std::path::MAIN_SEPARATOR_STR.to_string()
}

} // verus!
