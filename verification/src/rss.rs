//! Feed entries: reading a fetched RSS or Atom document into the entries that
//! the analysis works on.
use vstd::prelude::*;

verus! {

/// One entry of a news feed, as the analysis uses it.
#[derive(Clone, Debug, PartialEq, Eq)]
pub struct FeedEntry {
    pub title: String,
    pub content: String,
    /// The entry's time in RFC 3339 form.
    pub timestamp: String,
    /// The entry's time in seconds since the Unix epoch.
    pub timestamp_unix: u64,
}

impl FeedEntry {
    /// A copy of the entry, field by field.
    pub fn duplicate(&self) -> (r: FeedEntry)
        ensures
            r == *self,
    {
        FeedEntry {
            title: self.title.clone(),
            content: self.content.clone(),
            timestamp: self.timestamp.clone(),
            timestamp_unix: self.timestamp_unix,
        }
    }
}

/// A point in time as a feed gives it: in RFC 3339 form, and as whole seconds
/// since the Unix epoch with the nanoseconds past that second.
#[derive(Clone, Debug, PartialEq, Eq)]
pub struct Stamp {
    pub rfc3339: String,
    pub unix: i64,
    pub nanos: u32,
}

/// An entry that the analysis skips because its title or its text is empty.
#[derive(Clone, Debug, PartialEq, Eq)]
pub struct SkippedEntry {
    pub title: String,
    pub content: String,
}

/// What a feed document gives: the entries for the analysis, and the entries
/// skipped for an empty title or text, each in feed order.
#[derive(Clone, Debug, PartialEq, Eq)]
pub struct FeedReading {
    pub entries: Vec<FeedEntry>,
    pub skipped: Vec<SkippedEntry>,
}

/// The parts of a parsed feed entry that the analysis reads.
#[derive(Clone, Debug, PartialEq, Eq)]
pub struct RawEntry {
    /// The entry's title text, if it has a title.
    pub title: Option<String>,
    /// When the entry was last updated, if the feed says.
    pub updated: Option<Stamp>,
    /// When the entry was published, if the feed says.
    pub published: Option<Stamp>,
    /// The entry's content element, if it has one, with its body if that has one.
    pub content: Option<Option<String>>,
    /// The entry's summary text, if it has a summary.
    pub summary: Option<String>,
}

/// What an entry lacks for the analysis to use it.
#[derive(Clone, Copy, Debug, PartialEq, Eq, Structural)]
pub enum EntryDefect {
    /// The entry has no title.
    NoTitle,
    /// The entry has neither an update time nor a publication time.
    NoPublished,
    /// The entry has a content element without a body.
    NoContentBody,
    /// The entry has neither content nor a summary.
    NoContentOrSummary,
}

/// Why a fetched document gave no entries.
#[derive(Clone, Copy, Debug, PartialEq, Eq, Structural)]
pub enum FeedError {
    /// The document is no feed that the parser reads.
    Unparsable,
    /// An entry of the feed lacks a part that the analysis needs.
    Incomplete(EntryDefect),
    /// The document may give a media play time (an iTunes duration, or a
    /// `start`, `end` or `time` attribute) whose text is not plain ASCII
    /// without character references and with at most fifteen digits in a
    /// row; the feed parser's reading of play times fails on some such texts.
    PlayTime,
}

/// A byte is XML white space.
pub open spec fn xml_space(b: u8) -> bool {
    b == 0x20 || b == 0x09 || b == 0x0a || b == 0x0d
}

/// The bytes of `word` stand at position `i`.
pub open spec fn word_at(bytes: Seq<u8>, i: int, word: Seq<u8>) -> bool {
    0 <= i && i + word.len() <= bytes.len() && bytes.subrange(i, i + word.len()) == word
}

/// The first position at or after `i` that holds no white space.
pub open spec fn skip_space(bytes: Seq<u8>, i: int) -> int
    decreases bytes.len() - i,
{
    if 0 <= i < bytes.len() && xml_space(bytes[i]) {
        skip_space(bytes, i + 1)
    } else {
        i
    }
}

/// A byte is an ASCII digit.
pub open spec fn ascii_digit(b: u8) -> bool {
    0x30 <= b <= 0x39
}

/// A byte that may continue an XML name: an ASCII letter or digit, `-`,
/// `.`, `_`, `:`, or any byte of a non-ASCII character.
pub open spec fn name_byte(b: u8) -> bool {
    ||| 0x61 <= b <= 0x7a
    ||| 0x41 <= b <= 0x5a
    ||| ascii_digit(b)
    ||| b == 0x2d
    ||| b == 0x2e
    ||| b == 0x5f
    ||| b == 0x3a
    ||| b >= 0x80
}

/// The first position at or after `i` that holds the byte `b`, or the length
/// of the document where none does.
pub open spec fn find_byte(bytes: Seq<u8>, i: int, b: u8) -> int
    decreases bytes.len() - i,
{
    if 0 <= i < bytes.len() && bytes[i] != b {
        find_byte(bytes, i + 1, b)
    } else {
        i
    }
}

/// Sixteen ASCII digits stand in a row from position `k`.
pub open spec fn long_digit_run_at(bytes: Seq<u8>, k: int) -> bool {
    forall|j: int| k <= j < k + 16 ==> ascii_digit(#[trigger] bytes[j])
}

/// The bytes from `from` up to `to` are plain ASCII without character
/// references and hold at most fifteen digits in a row, so that every digit
/// run read from them is a short ASCII number.
pub open spec fn plain_number_text(bytes: Seq<u8>, from: int, to: int) -> bool {
    &&& 0 <= from <= to <= bytes.len()
    &&& forall|k: int| from <= k < to ==> (#[trigger] bytes[k]) < 0x80 && bytes[k] != 0x26
    &&& forall|k: int| from <= k && k + 16 <= to ==> !#[trigger] long_digit_run_at(bytes, k)
}

/// An element whose local name is `name` may start at `i`: the name follows
/// `<` or a prefix's colon.
pub open spec fn element_at(bytes: Seq<u8>, i: int, name: Seq<u8>) -> bool {
    1 <= i && (bytes[i - 1] == 0x3c || bytes[i - 1] == 0x3a) && word_at(bytes, i, name)
}

/// The text of the element whose name stands at `i` is plain: the bytes after
/// the first `>` up to the next `<` are plain numbers' text, and that `<`
/// opens an end tag.
pub open spec fn element_text_plain(bytes: Seq<u8>, i: int) -> bool {
    let open_end = find_byte(bytes, i, 0x3e);
    let text_end = find_byte(bytes, open_end + 1, 0x3c);
    &&& open_end < bytes.len()
    &&& text_end + 1 < bytes.len()
    &&& bytes[text_end + 1] == 0x2f
    &&& plain_number_text(bytes, open_end + 1, text_end)
}

/// An attribute named `name` may start at `i`: no name byte stands before it,
/// and after optional white space `=` follows.
pub open spec fn attribute_at(bytes: Seq<u8>, i: int, name: Seq<u8>) -> bool {
    1 <= i && !name_byte(bytes[i - 1]) && word_at(bytes, i, name) && {
        let j = skip_space(bytes, i + name.len());
        j < bytes.len() && bytes[j] == 0x3d
    }
}

/// The value of the attribute named `name` at `i` is plain: after `=` and
/// optional white space a quote opens it, a like quote closes it, and the
/// bytes between are plain numbers' text.
pub open spec fn attribute_value_plain(bytes: Seq<u8>, i: int, name: Seq<u8>) -> bool {
    let eq = skip_space(bytes, i + name.len());
    let q = skip_space(bytes, eq + 1);
    &&& q < bytes.len()
    &&& (bytes[q] == 0x22 || bytes[q] == 0x27)
    &&& find_byte(bytes, q + 1, bytes[q]) < bytes.len()
    &&& plain_number_text(bytes, q + 1, find_byte(bytes, q + 1, bytes[q]))
}

/// `duration`, the iTunes element of a play time.
pub open spec fn duration_word() -> Seq<u8> {
    seq![100u8, 117, 114, 97, 116, 105, 111, 110]
}

/// `start`, a media text's first play time.
pub open spec fn start_word() -> Seq<u8> {
    seq![115u8, 116, 97, 114, 116]
}

/// `end`, a media text's last play time.
pub open spec fn end_word() -> Seq<u8> {
    seq![101u8, 110, 100]
}

/// `time`, a media thumbnail's play time.
pub open spec fn time_word() -> Seq<u8> {
    seq![116u8, 105, 109, 101]
}

/// A play time whose text is not plain may be given at position `i`.
pub open spec fn unreadable_play_time_at(bytes: Seq<u8>, i: int) -> bool {
    ||| element_at(bytes, i, duration_word()) && !element_text_plain(bytes, i)
    ||| attribute_at(bytes, i, start_word()) && !attribute_value_plain(bytes, i, start_word())
    ||| attribute_at(bytes, i, end_word()) && !attribute_value_plain(bytes, i, end_word())
    ||| attribute_at(bytes, i, time_word()) && !attribute_value_plain(bytes, i, time_word())
}

/// Every media play time that the document may give is plain, and no byte is
/// NUL or ESC, so that the document's names and numbers are written in ASCII
/// bytes (UTF-16 and ISO-2022-JP documents are left out).
pub open spec fn play_times_readable(bytes: Seq<u8>) -> bool {
    forall|i: int| 0 <= i < bytes.len() ==> {
        &&& bytes[i] != 0
        &&& bytes[i] != 0x1b
        &&& !unreadable_play_time_at(bytes, i)
    }
}

/// The RFC 3339 text of the instant `unix` seconds and `nanos` nanoseconds
/// after the Unix epoch, in UTC, as chrono writes it.
pub uninterp spec fn rfc3339_text(unix: i64, nanos: u32) -> Seq<char>;

/// The entries that the feed parser reads from a document, in document order,
/// or `None` where it reads no feed.
pub uninterp spec fn feed_entries(bytes: Seq<u8>) -> Option<Seq<RawEntry>>;

/// `feed_rs::parser::parse`, with each entry of the parsed feed taken apart
/// into its title text, its update and publication times (each by chrono's
/// `to_rfc3339`, `timestamp` and `timestamp_subsec_nanos`), its content body
/// and its summary text. The entries are named by `feed_entries`; of each
/// time it is stated that its text is chrono's RFC 3339 rendering of its
/// seconds and nanoseconds, and nothing more. The parser's reading of media
/// play times unwraps integer parses of `\d+` runs, which fail on runs of
/// twenty digits or more and on non-ASCII digits, and multiplies hours by
/// 3600; so documents that may give a play time whose text is not plain ASCII
/// with at most fifteen digits in a row are left out.
#[verifier::external_body]
fn parse_feed(bytes: &[u8]) -> (r: Option<Vec<RawEntry>>)
    requires
        play_times_readable(bytes@),
    ensures
        r is Some <==> feed_entries(bytes@) is Some,
        r matches Some(v) ==> v@ == feed_entries(bytes@).unwrap(),
        r matches Some(v) ==> forall|i: int| 0 <= i < v@.len() ==> {
            &&& (#[trigger] v@[i]).updated matches Some(s) ==> s.rfc3339@ == rfc3339_text(s.unix, s.nanos)
            &&& v@[i].published matches Some(s) ==> s.rfc3339@ == rfc3339_text(s.unix, s.nanos)
        },
{
    let feed = feed_rs::parser::parse(bytes).ok()?;
    Some(feed.entries.into_iter().map(|e| RawEntry {
        title: e.title.map(|t| t.content),
        updated: e.updated.map(|d| Stamp { rfc3339: d.to_rfc3339(), unix: d.timestamp(), nanos: d.timestamp_subsec_nanos() }),
        published: e.published.map(|d| Stamp { rfc3339: d.to_rfc3339(), unix: d.timestamp(), nanos: d.timestamp_subsec_nanos() }),
        content: e.content.map(|c| c.body),
        summary: e.summary.map(|t| t.content),
    }).collect())
}

/// Every time of every entry is written as chrono's RFC 3339 rendering of
/// its seconds and nanoseconds.
pub open spec fn stamps_consistent(entries: Seq<RawEntry>) -> bool {
    forall|i: int| 0 <= i < entries.len() ==> {
        &&& (#[trigger] entries[i]).updated matches Some(s) ==> s.rfc3339@ == rfc3339_text(s.unix, s.nanos)
        &&& entries[i].published matches Some(s) ==> s.rfc3339@ == rfc3339_text(s.unix, s.nanos)
    }
}

fn word_matches(bytes: &[u8], i: usize, word: &[u8]) -> (r: bool)
    ensures
        r == word_at(bytes@, i as int, word@),
{
    if i > bytes.len() || word.len() > bytes.len() - i {
        return false;
    }
    let mut k: usize = 0;
    while k < word.len()
        invariant
            i as int + word@.len() <= bytes@.len(),
            word.len() == word@.len(),
            bytes.len() == bytes@.len(),
            0 <= k <= word@.len(),
            forall|m: int| 0 <= m < k ==> bytes@[i + m] == word@[m],
        decreases word@.len() - k,
    {
        if bytes[i + k] != word[k] {
            assert(bytes@.subrange(i as int, i + word@.len())[k as int] != word@[k as int]);
            return false;
        }
        k = k + 1;
    }
    assert(bytes@.subrange(i as int, i + word@.len()) =~= word@);
    true
}

fn skip_spaces(bytes: &[u8], i: usize) -> (j: usize)
    requires
        i <= bytes@.len(),
    ensures
        j as int == skip_space(bytes@, i as int),
        j <= bytes@.len(),
{
    let mut j = i;
    while j < bytes.len() && (bytes[j] == 0x20 || bytes[j] == 0x09 || bytes[j] == 0x0a || bytes[j] == 0x0d)
        invariant
            i <= j <= bytes@.len(),
            skip_space(bytes@, j as int) == skip_space(bytes@, i as int),
        decreases bytes@.len() - j,
    {
        j = j + 1;
    }
    j
}

fn is_name_byte(b: u8) -> (r: bool)
    ensures
        r == name_byte(b),
{
    (0x61 <= b && b <= 0x7a) || (0x41 <= b && b <= 0x5a) || (0x30 <= b && b <= 0x39) || b == 0x2d
        || b == 0x2e || b == 0x5f || b == 0x3a || b >= 0x80
}

fn find_byte_from(bytes: &[u8], i: usize, b: u8) -> (r: usize)
    requires
        i <= bytes@.len(),
    ensures
        r as int == find_byte(bytes@, i as int, b),
        i <= r <= bytes@.len(),
        r < bytes@.len() ==> bytes@[r as int] == b,
{
    let mut j = i;
    while j < bytes.len() && bytes[j] != b
        invariant
            i <= j <= bytes@.len(),
            find_byte(bytes@, j as int, b) == find_byte(bytes@, i as int, b),
        decreases bytes@.len() - j,
    {
        j = j + 1;
    }
    j
}

fn digits_at(bytes: &[u8], k: usize) -> (r: bool)
    requires
        k + 16 <= bytes@.len(),
    ensures
        r == long_digit_run_at(bytes@, k as int),
{
    let mut j: usize = 0;
    while j < 16
        invariant
            k + 16 <= bytes@.len(),
            bytes@.len() == bytes.len(),
            0 <= j <= 16,
            forall|m: int| k <= m < k + j ==> ascii_digit(#[trigger] bytes@[m]),
        decreases 16 - j,
    {
        let b = bytes[k + j];
        if !(0x30 <= b && b <= 0x39) {
            assert(!ascii_digit(bytes@[k + j]));
            return false;
        }
        j = j + 1;
    }
    true
}

fn plain_number_check(bytes: &[u8], from: usize, to: usize) -> (r: bool)
    requires
        from <= to <= bytes@.len(),
    ensures
        r == plain_number_text(bytes@, from as int, to as int),
{
    let mut k = from;
    while k < to
        invariant
            from <= k <= to <= bytes@.len(),
            forall|m: int| from <= m < k ==> (#[trigger] bytes@[m]) < 0x80 && bytes@[m] != 0x26,
        decreases to - k,
    {
        if bytes[k] >= 0x80 || bytes[k] == 0x26 {
            return false;
        }
        k = k + 1;
    }
    let mut k = from;
    while k <= to && to - k >= 16
        invariant
            from <= k,
            to <= bytes@.len(),
            forall|m: int| from <= m < k && m + 16 <= to ==> !#[trigger] long_digit_run_at(bytes@, m),
        decreases to - k,
    {
        if digits_at(bytes, k) {
            return false;
        }
        k = k + 1;
    }
    true
}

fn attribute_matches(bytes: &[u8], i: usize, name: &[u8]) -> (r: bool)
    ensures
        r == attribute_at(bytes@, i as int, name@),
        r ==> i as int + name@.len() <= bytes@.len(),
{
    if i < 1 || i >= bytes.len() {
        return false;
    }
    if is_name_byte(bytes[i - 1]) {
        return false;
    }
    if !word_matches(bytes, i, name) {
        return false;
    }
    let j = skip_spaces(bytes, i + name.len());
    j < bytes.len() && bytes[j] == 0x3d
}

fn attribute_value_check(bytes: &[u8], i: usize, name: &[u8]) -> (r: bool)
    requires
        i as int + name@.len() <= bytes@.len(),
    ensures
        r == attribute_value_plain(bytes@, i as int, name@),
{
    assert(bytes@.len() == bytes.len() && name@.len() == name.len());
    let eq = skip_spaces(bytes, i + name.len());
    if eq >= bytes.len() {
        return false;
    }
    let q = skip_spaces(bytes, eq + 1);
    if q >= bytes.len() {
        return false;
    }
    let quote = bytes[q];
    if !(quote == 0x22 || quote == 0x27) {
        return false;
    }
    let close = find_byte_from(bytes, q + 1, quote);
    if close >= bytes.len() {
        return false;
    }
    plain_number_check(bytes, q + 1, close)
}

fn element_matches(bytes: &[u8], i: usize, name: &[u8]) -> (r: bool)
    ensures
        r == element_at(bytes@, i as int, name@),
{
    if i < 1 || i > bytes.len() {
        return false;
    }
    (bytes[i - 1] == 0x3c || bytes[i - 1] == 0x3a) && word_matches(bytes, i, name)
}

fn element_text_check(bytes: &[u8], i: usize) -> (r: bool)
    requires
        i <= bytes@.len(),
    ensures
        r == element_text_plain(bytes@, i as int),
{
    let open_end = find_byte_from(bytes, i, 0x3e);
    if open_end >= bytes.len() {
        return false;
    }
    let text_end = find_byte_from(bytes, open_end + 1, 0x3c);
    if text_end >= bytes.len() || text_end + 1 >= bytes.len() {
        return false;
    }
    bytes[text_end + 1] == 0x2f && plain_number_check(bytes, open_end + 1, text_end)
}

fn unreadable_at(bytes: &[u8], i: usize, duration: &[u8], start: &[u8], end: &[u8], time: &[u8]) -> (r: bool)
    requires
        i < bytes@.len(),
        duration@ == duration_word(),
        start@ == start_word(),
        end@ == end_word(),
        time@ == time_word(),
    ensures
        r == unreadable_play_time_at(bytes@, i as int),
{
    if element_matches(bytes, i, duration) && !element_text_check(bytes, i) {
        return true;
    }
    if attribute_matches(bytes, i, start) && !attribute_value_check(bytes, i, start) {
        return true;
    }
    if attribute_matches(bytes, i, end) && !attribute_value_check(bytes, i, end) {
        return true;
    }
    attribute_matches(bytes, i, time) && !attribute_value_check(bytes, i, time)
}

/// Whether the document may give a media play time whose text is not plain,
/// or holds a NUL or ESC byte.
pub fn may_hold_play_time(bytes: &[u8]) -> (r: bool)
    ensures
        r == !play_times_readable(bytes@),
{
    let duration: Vec<u8> = vec![100u8, 117, 114, 97, 116, 105, 111, 110];
    let start: Vec<u8> = vec![115u8, 116, 97, 114, 116];
    let end: Vec<u8> = vec![101u8, 110, 100];
    let time: Vec<u8> = vec![116u8, 105, 109, 101];
    assert(duration@ =~= duration_word());
    assert(start@ =~= start_word());
    assert(end@ =~= end_word());
    assert(time@ =~= time_word());
    let n = bytes.len();
    let mut i: usize = 0;
    while i < n
        invariant
            n == bytes@.len(),
            0 <= i <= n,
            duration@ == duration_word(),
            start@ == start_word(),
            end@ == end_word(),
            time@ == time_word(),
            forall|k: int| 0 <= k < i ==> {
                &&& bytes@[k] != 0
                &&& bytes@[k] != 0x1b
                &&& !unreadable_play_time_at(bytes@, k)
            },
        decreases n - i,
    {
        if bytes[i] == 0 || bytes[i] == 0x1b
            || unreadable_at(bytes, i, duration.as_slice(), start.as_slice(), end.as_slice(), time.as_slice()) {
            return true;
        }
        i = i + 1;
    }
    false
}

/// What the entry lacks, checked in this order: title, time, content.
pub open spec fn entry_defect(raw: RawEntry) -> Option<EntryDefect> {
    if raw.title is None {
        Some(EntryDefect::NoTitle)
    } else if raw.updated is None && raw.published is None {
        Some(EntryDefect::NoPublished)
    } else {
        match raw.content {
            Some(body) => if body is None {
                Some(EntryDefect::NoContentBody)
            } else {
                None
            },
            None => if raw.summary is None {
                Some(EntryDefect::NoContentOrSummary)
            } else {
                None
            },
        }
    }
}

/// The defect of the first defective entry, if any entry is defective.
pub open spec fn first_defect(entries: Seq<RawEntry>) -> Option<EntryDefect>
    decreases entries.len(),
{
    if entries.len() == 0 {
        None
    } else if entry_defect(entries[0]) is Some {
        entry_defect(entries[0])
    } else {
        first_defect(entries.subrange(1, entries.len() as int))
    }
}

/// Every entry has all that the analysis needs.
pub open spec fn all_complete(entries: Seq<RawEntry>) -> bool {
    forall|i: int| 0 <= i < entries.len() ==> (#[trigger] entry_defect(entries[i])) is None
}

/// The entry's time: its update time, else its publication time.
pub open spec fn entry_stamp(raw: RawEntry) -> Stamp {
    match raw.updated {
        Some(s) => s,
        None => raw.published.unwrap(),
    }
}

/// The entry's text: its content body, else its summary.
pub open spec fn entry_text(raw: RawEntry) -> String {
    match raw.content {
        Some(body) => body.unwrap(),
        None => raw.summary.unwrap(),
    }
}

/// The entry has a non-empty title and a non-empty text, and so is kept.
pub open spec fn entry_kept(raw: RawEntry) -> bool {
    raw.title.unwrap()@.len() > 0 && entry_text(raw)@.len() > 0
}

/// The feed entry made of a complete raw entry; its Unix time is the
/// feed's seconds taken modulo 2^64.
pub open spec fn feed_entry_of(raw: RawEntry) -> FeedEntry {
    FeedEntry {
        title: raw.title.unwrap(),
        content: entry_text(raw),
        timestamp: entry_stamp(raw).rfc3339,
        timestamp_unix: entry_stamp(raw).unix as u64,
    }
}

/// The feed entries made of the kept raw entries, in feed order.
pub open spec fn entries_of(entries: Seq<RawEntry>) -> Seq<FeedEntry>
    decreases entries.len(),
{
    if entries.len() == 0 {
        Seq::empty()
    } else {
        let earlier = entries_of(entries.drop_last());
        if entry_kept(entries.last()) {
            earlier.push(feed_entry_of(entries.last()))
        } else {
            earlier
        }
    }
}

/// The skipped entry made of a complete raw entry.
pub open spec fn skipped_entry_of(raw: RawEntry) -> SkippedEntry {
    SkippedEntry { title: raw.title.unwrap(), content: entry_text(raw) }
}

/// The entries skipped for an empty title or text, in feed order.
pub open spec fn skipped_of(entries: Seq<RawEntry>) -> Seq<SkippedEntry>
    decreases entries.len(),
{
    if entries.len() == 0 {
        Seq::empty()
    } else {
        let earlier = skipped_of(entries.drop_last());
        if entry_kept(entries.last()) {
            earlier
        } else {
            earlier.push(skipped_entry_of(entries.last()))
        }
    }
}

/// The entry's RFC 3339 text renders the same instant whose whole seconds,
/// taken modulo 2^64, are its Unix time.
pub open spec fn times_agree(entry: FeedEntry) -> bool {
    exists|unix: i64, nanos: u32|
        entry.timestamp@ == rfc3339_text(unix, nanos) && entry.timestamp_unix == unix as u64
}

/// Every entry that the analysis receives carries one instant in both of its
/// time fields, where the feed's times are written as chrono renders them.
pub proof fn lemma_entry_times(entries: Seq<RawEntry>)
    requires
        all_complete(entries),
        stamps_consistent(entries),
    ensures
        forall|k: int| 0 <= k < entries_of(entries).len() ==> times_agree(#[trigger] entries_of(entries)[k]),
    decreases entries.len(),
{
    if entries.len() > 0 {
        let rest = entries.drop_last();
        assert forall|i: int| 0 <= i < rest.len() implies (#[trigger] entry_defect(rest[i])) is None by {
            assert(rest[i] == entries[i]);
        }
        assert forall|i: int| 0 <= i < rest.len() implies {
            &&& (#[trigger] rest[i]).updated matches Some(s) ==> s.rfc3339@ == rfc3339_text(s.unix, s.nanos)
            &&& rest[i].published matches Some(s) ==> s.rfc3339@ == rfc3339_text(s.unix, s.nanos)
        } by {
            assert(rest[i] == entries[i]);
        }
        lemma_entry_times(rest);
        let earlier = entries_of(rest);
        let last = entries.last();
        assert(entry_defect(entries[entries.len() - 1]) is None);
        assert(entries[entries.len() - 1] == last);
        assert forall|k: int| 0 <= k < entries_of(entries).len() implies times_agree(#[trigger] entries_of(entries)[k]) by {
            if k < earlier.len() {
                assert(entries_of(entries)[k] == earlier[k]);
            } else {
                let st = entry_stamp(last);
                assert(entries_of(entries)[k] == feed_entry_of(last));
                assert(feed_entry_of(last).timestamp@ == rfc3339_text(st.unix, st.nanos));
            }
        }
    }
}

/// An entry lacks nothing exactly when it has a title, an update or a
/// publication time, and a text: a content element with a body, or no content
/// element and a summary. A missing time is reported only when both times are
/// missing, and then only for an entry with a title.
pub proof fn lemma_entry_defects(raw: RawEntry)
    ensures
        entry_defect(raw) is None <==> {
            &&& raw.title is Some
            &&& (raw.updated is Some || raw.published is Some)
            &&& match raw.content {
                Some(body) => body is Some,
                None => raw.summary is Some,
            }
        },
        entry_defect(raw) == Some(EntryDefect::NoTitle) <==> raw.title is None,
        entry_defect(raw) == Some(EntryDefect::NoPublished) <==> (raw.title is Some && raw.updated is None
            && raw.published is None),
        raw.title is Some && raw.updated is Some ==> entry_defect(raw) != Some(EntryDefect::NoPublished),
{
}

/// A complete entry is kept exactly when its title and its text (the content
/// body, or the summary where there is no content element) are both
/// non-empty; no other property of the entry decides it.
pub proof fn lemma_entry_kept(raw: RawEntry)
    requires
        entry_defect(raw) is None,
    ensures
        entry_kept(raw) <==> {
            &&& raw.title.unwrap()@.len() > 0
            &&& match raw.content {
                Some(body) => body.unwrap()@.len() > 0,
                None => raw.summary.unwrap()@.len() > 0,
            }
        },
{
}

/// A complete entry is given to the analysis with its own title, its content
/// body (or its summary where it has no content element), and the time it was
/// updated, or published where it gives no update time; the Unix time is that
/// time's whole seconds taken modulo 2^64.
pub proof fn lemma_feed_entry_fields(raw: RawEntry)
    requires
        entry_defect(raw) is None,
    ensures
        ({
            let e = feed_entry_of(raw);
            let time = if raw.updated is Some { raw.updated.unwrap() } else { raw.published.unwrap() };
            &&& e.title == raw.title.unwrap()
            &&& raw.content matches Some(body) ==> e.content == body.unwrap()
            &&& raw.content is None ==> e.content == raw.summary.unwrap()
            &&& e.timestamp == time.rfc3339
            &&& e.timestamp_unix as int == time.unix as int % 0x1_0000_0000_0000_0000
        }),
{
    let time = if raw.updated is Some { raw.updated.unwrap() } else { raw.published.unwrap() };
    let u: i64 = time.unix;
    assert((u as u64) as int == u as int % 0x1_0000_0000_0000_0000) by (bit_vector);
}

/// The defect reported for a feed is that of an entry, and every entry before
/// that one is complete; no defect is reported exactly when all are complete.
pub proof fn lemma_first_defect(entries: Seq<RawEntry>)
    ensures
        first_defect(entries) is None <==> all_complete(entries),
        first_defect(entries) matches Some(d) ==> exists|i: int| {
            &&& 0 <= i < entries.len()
            &&& entry_defect(#[trigger] entries[i]) == Some(d)
            &&& forall|j: int| 0 <= j < i ==> (#[trigger] entry_defect(entries[j])) is None
        },
    decreases entries.len(),
{
    if entries.len() > 0 {
        let rest = entries.subrange(1, entries.len() as int);
        lemma_first_defect(rest);
        if entry_defect(entries[0]) is None {
            assert forall|i: int| 0 <= i < rest.len() implies rest[i] == entries[i + 1] by {}
            if all_complete(rest) {
                assert forall|i: int| 0 <= i < entries.len() implies (#[trigger] entry_defect(entries[i])) is None by {
                    if i > 0 {
                        assert(entries[i] == rest[i - 1]);
                    }
                }
            } else {
                let k = choose|k: int| 0 <= k < rest.len() && (#[trigger] entry_defect(rest[k])) is Some;
                assert(entries[k + 1] == rest[k]);
            }
            if first_defect(entries) is Some {
                let d = first_defect(entries).unwrap();
                let i = choose|i: int| {
                    &&& 0 <= i < rest.len()
                    &&& entry_defect(#[trigger] rest[i]) == Some(d)
                    &&& forall|j: int| 0 <= j < i ==> (#[trigger] entry_defect(rest[j])) is None
                };
                assert(entries[i + 1] == rest[i]);
                assert forall|j: int| 0 <= j < i + 1 implies (#[trigger] entry_defect(entries[j])) is None by {
                    if j > 0 {
                        assert(entries[j] == rest[j - 1]);
                    }
                }
            }
        } else {
            assert(entry_defect(entries[0]) is Some);
        }
    }
}

/// Every entry of the feed is either given to the analysis or skipped, and a
/// skipped entry has an empty title or an empty text: no entry with both is
/// ever skipped.
pub proof fn lemma_entries_partition(entries: Seq<RawEntry>)
    requires
        all_complete(entries),
    ensures
        entries_of(entries).len() + skipped_of(entries).len() == entries.len(),
        forall|k: int| 0 <= k < skipped_of(entries).len() ==> {
            ||| (#[trigger] skipped_of(entries)[k]).title@.len() == 0
            ||| skipped_of(entries)[k].content@.len() == 0
        },
        forall|i: int| 0 <= i < entries.len() && (#[trigger] entries[i]).title.unwrap()@.len() > 0 && match entries[i].content {
            Some(body) => body.unwrap()@.len() > 0,
            None => entries[i].summary.unwrap()@.len() > 0,
        } ==> entries_of(entries).contains(feed_entry_of(entries[i])),
    decreases entries.len(),
{
    if entries.len() > 0 {
        let rest = entries.drop_last();
        let last = entries.last();
        assert forall|i: int| 0 <= i < rest.len() implies (#[trigger] entry_defect(rest[i])) is None by {
            assert(rest[i] == entries[i]);
        }
        lemma_entries_partition(rest);
        assert(entry_defect(entries[entries.len() - 1]) is None);
        lemma_entry_kept(last);
        let earlier = skipped_of(rest);
        let kept = entries_of(rest);
        assert forall|k: int| 0 <= k < skipped_of(entries).len() implies {
            ||| (#[trigger] skipped_of(entries)[k]).title@.len() == 0
            ||| skipped_of(entries)[k].content@.len() == 0
        } by {
            if k < earlier.len() {
                assert(skipped_of(entries)[k] == earlier[k]);
            }
        }
        assert forall|i: int| 0 <= i < entries.len() && (#[trigger] entries[i]).title.unwrap()@.len() > 0 && match entries[i].content {
            Some(body) => body.unwrap()@.len() > 0,
            None => entries[i].summary.unwrap()@.len() > 0,
        } implies entries_of(entries).contains(feed_entry_of(entries[i])) by {
            if i < rest.len() {
                assert(rest[i] == entries[i]);
                let j = choose|j: int| 0 <= j < kept.len() && kept[j] == feed_entry_of(rest[i]);
                assert(entries_of(entries)[j] == kept[j]);
            } else {
                lemma_entry_kept(entries[i]);
                assert(entries_of(entries)[kept.len() as int] == feed_entry_of(last));
            }
        }
    }
}

/// Every entry that the analysis receives has a non-empty title and text, and
/// there are no more of them than entries in the feed.
pub proof fn lemma_entries_nonempty(entries: Seq<RawEntry>)
    ensures
        entries_of(entries).len() <= entries.len(),
        forall|k: int| 0 <= k < entries_of(entries).len() ==> {
            &&& (#[trigger] entries_of(entries)[k]).title@.len() > 0
            &&& entries_of(entries)[k].content@.len() > 0
        },
    decreases entries.len(),
{
    if entries.len() > 0 {
        lemma_entries_nonempty(entries.drop_last());
        let earlier = entries_of(entries.drop_last());
        assert forall|k: int| 0 <= k < entries_of(entries).len() implies {
            &&& (#[trigger] entries_of(entries)[k]).title@.len() > 0
            &&& entries_of(entries)[k].content@.len() > 0
        } by {
            if k < earlier.len() {
                assert(entries_of(entries)[k] == earlier[k]);
            }
        }
    }
}

fn copy_text(text: &Option<String>) -> (r: String)
    requires
        text is Some,
    ensures
        r == text.unwrap(),
{
    match text {
        Some(t) => t.clone(),
        None => String::new(),
    }
}

/// What the entry lacks for the analysis, if anything.
pub fn check_entry(raw: &RawEntry) -> (r: Option<EntryDefect>)
    ensures
        r == entry_defect(*raw),
{
    if raw.title.is_none() {
        Some(EntryDefect::NoTitle)
    } else if raw.updated.is_none() && raw.published.is_none() {
        Some(EntryDefect::NoPublished)
    } else {
        match &raw.content {
            Some(body) => if body.is_none() {
                Some(EntryDefect::NoContentBody)
            } else {
                None
            },
            None => if raw.summary.is_none() {
                Some(EntryDefect::NoContentOrSummary)
            } else {
                None
            },
        }
    }
}

/// The defect of the first defective entry, if any.
pub fn check_entries(entries: &Vec<RawEntry>) -> (r: Option<EntryDefect>)
    ensures
        r == first_defect(entries@),
        r is None <==> all_complete(entries@),
{
    let n = entries.len();
    let mut i: usize = 0;
    assert(entries@.subrange(0, n as int) =~= entries@);
    while i < n
        invariant
            n == entries@.len(),
            0 <= i <= n,
            forall|j: int| 0 <= j < i ==> (#[trigger] entry_defect(entries@[j])) is None,
            first_defect(entries@) == first_defect(entries@.subrange(i as int, n as int)),
        decreases n - i,
    {
        let d = check_entry(&entries[i]);
        let ghost rest = entries@.subrange(i as int, n as int);
        assert(rest[0] == entries@[i as int]);
        assert(rest.subrange(1, rest.len() as int) =~= entries@.subrange(i + 1, n as int));
        if d.is_some() {
            return d;
        }
        i = i + 1;
    }
    assert(entries@.subrange(n as int, n as int).len() == 0);
    None
}

/// Builds the feed entry of a complete raw entry.
pub fn entry_from_raw(raw: &RawEntry) -> (r: FeedEntry)
    requires
        entry_defect(*raw) is None,
    ensures
        r == feed_entry_of(*raw),
{
    let title = copy_text(&raw.title);
    let content = match &raw.content {
        Some(body) => copy_text(body),
        None => copy_text(&raw.summary),
    };
    let stamp = match &raw.updated {
        Some(s) => s,
        None => match &raw.published {
            Some(s) => s,
            None => {
                proof {
                    assert(false);
                }
                return FeedEntry { title, content, timestamp: String::new(), timestamp_unix: 0 };
            },
        },
    };
    FeedEntry {
        title,
        content,
        timestamp: stamp.rfc3339.clone(),
        timestamp_unix: stamp.unix as u64,
    }
}

/// The feed entries of complete raw entries: entries whose title or text is
/// empty are skipped, the rest keep their feed order.
pub fn collect_entries(entries: &Vec<RawEntry>) -> (r: FeedReading)
    requires
        all_complete(entries@),
    ensures
        r.entries@ == entries_of(entries@),
        r.skipped@ == skipped_of(entries@),
{
    let n = entries.len();
    let mut out: Vec<FeedEntry> = Vec::new();
    let mut skipped: Vec<SkippedEntry> = Vec::new();
    let mut i: usize = 0;
    while i < n
        invariant
            n == entries@.len(),
            0 <= i <= n,
            all_complete(entries@),
            out@ == entries_of(entries@.take(i as int)),
            skipped@ == skipped_of(entries@.take(i as int)),
        decreases n - i,
    {
        let raw = &entries[i];
        assert(entry_defect(entries@[i as int]) is None);
        let e = entry_from_raw(raw);
        assert(entries@.take(i + 1).drop_last() =~= entries@.take(i as int));
        assert(entries@.take(i + 1).last() == entries@[i as int]);
        if !raw.title_empty_or_text_empty() {
            out.push(e);
        } else {
            skipped.push(SkippedEntry { title: e.title, content: e.content });
        }
        i = i + 1;
    }
    assert(entries@.take(n as int) =~= entries@);
    FeedReading { entries: out, skipped }
}

impl RawEntry {
    /// The complete entry's title or text is empty, so the analysis skips it.
    pub fn title_empty_or_text_empty(&self) -> (r: bool)
        requires
            entry_defect(*self) is None,
        ensures
            r == !entry_kept(*self),
    {
        let title_empty = match &self.title {
            Some(t) => t.as_str().is_empty(),
            None => true,
        };
        let text_empty = match &self.content {
            Some(Some(b)) => b.as_str().is_empty(),
            Some(None) => true,
            None => match &self.summary {
                Some(s) => s.as_str().is_empty(),
                None => true,
            },
        };
        title_empty || text_empty
    }
}

/// Reads the entries of a fetched feed document: a document that may give a
/// media play time whose text is not plain is refused, the feed must parse,
/// and every entry must be complete; of these entries, those with an empty
/// title or text are set apart as skipped.
pub fn parse_entries(bytes: &[u8]) -> (r: Result<FeedReading, FeedError>)
    ensures
        !play_times_readable(bytes@) ==> r == Err::<FeedReading, FeedError>(FeedError::PlayTime),
        play_times_readable(bytes@) ==> match feed_entries(bytes@) {
            None => r == Err::<FeedReading, FeedError>(FeedError::Unparsable),
            Some(raw) => match first_defect(raw) {
                Some(d) => r == Err::<FeedReading, FeedError>(FeedError::Incomplete(d)),
                None => r matches Ok(f) && f.entries@ == entries_of(raw) && f.skipped@ == skipped_of(raw),
            },
        },
        r matches Ok(f) ==> forall|k: int| 0 <= k < f.entries@.len() ==> times_agree(#[trigger] f.entries@[k]),
{
    if may_hold_play_time(bytes) {
        return Err(FeedError::PlayTime);
    }
    let raw = match parse_feed(bytes) {
        Some(raw) => raw,
        None => return Err(FeedError::Unparsable),
    };
    match check_entries(&raw) {
        Some(d) => Err(FeedError::Incomplete(d)),
        None => {
            proof {
                lemma_entry_times(raw@);
            }
            Ok(collect_entries(&raw))
        },
    }
}

} // verus!
