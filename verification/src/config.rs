//! Configuration defaults that need no floating point.
use vstd::prelude::*;

verus! {

/// The news feeds read when the configuration names none of its own.
pub open spec fn default_source_texts() -> Seq<Seq<char>> {
    seq![
        "https://fortune.com/feed/fortune-feeds/?id=3230629"@,
        "https://econbrowser.com/feed"@,
        "https://economictimes.indiatimes.com/rssfeedsdefault.cms"@,
    ]
}

/// The default feed sources, in the order in which they are read.
pub fn default_sources() -> (r: Vec<String>)
    ensures
        r@.len() == default_source_texts().len(),
        forall|i: int| 0 <= i < r@.len() ==> #[trigger] r@[i]@ == default_source_texts()[i],
{
    let mut r: Vec<String> = Vec::new();
    r.push(String::from_str("https://fortune.com/feed/fortune-feeds/?id=3230629"));
    r.push(String::from_str("https://econbrowser.com/feed"));
    r.push(String::from_str("https://economictimes.indiatimes.com/rssfeedsdefault.cms"));
    r
}

} // verus!
