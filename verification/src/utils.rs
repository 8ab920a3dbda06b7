//! The look of the progress bar that accompanies long-running work.
use vstd::prelude::*;

verus! {

/// The progress line for work of unknown length: a spinner, the message and
/// the elapsed time.
pub open spec fn spinner_template() -> Seq<char> {
    "  [{spinner:.green}] {msg} │ {elapsed:<4}"@
}

/// The progress line for work of known length: a spinner, the message, a
/// bar, the position and percentage, and the elapsed time.
pub open spec fn bar_template() -> Seq<char> {
    "  [{spinner:.green}] {msg} {wide_bar:.green/red} {pos}/{len} ({percent}%) │ {elapsed:<4}"@
}

/// The progress template for work of `len` steps; zero steps means that the
/// length is unknown.
pub fn progress_template(len: u64) -> (r: &'static str)
    ensures
        r@ == (if len == 0 { spinner_template() } else { bar_template() }),
{
    if len == 0 {
        "  [{spinner:.green}] {msg} │ {elapsed:<4}"
    } else {
        "  [{spinner:.green}] {msg} {wide_bar:.green/red} {pos}/{len} ({percent}%) │ {elapsed:<4}"
    }
}

/// The characters with which the progress bar is drawn.
pub fn progress_chars() -> (r: &'static str)
    ensures
        r@ == "━━━"@,
{
    "━━━"
}

} // verus!
