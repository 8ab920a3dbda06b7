//! Choosing which feed entries the analysis reads: recent ones, ones not
//! analysed before, newest first, up to a limit; and the prompt for each.
use vstd::prelude::*;

use crate::rss::FeedEntry;

verus! {

/// The entries whose time is at or after the cutoff, in their order.
pub open spec fn recent(entries: Seq<FeedEntry>, cutoff: int) -> Seq<FeedEntry> {
    entries.filter(at_or_after(cutoff))
}

/// Whether an entry's time is at or after the cutoff.
pub open spec fn at_or_after(cutoff: int) -> spec_fn(FeedEntry) -> bool {
    |e: FeedEntry| e.timestamp_unix >= cutoff
}

/// The entries whose flag says they were not seen before, in their order.
pub open spec fn unseen(entries: Seq<FeedEntry>, seen: Seq<bool>) -> Seq<FeedEntry>
    decreases entries.len(),
{
    if entries.len() == 0 {
        entries
    } else {
        let earlier = unseen(entries.drop_last(), seen.take(entries.len() - 1));
        if seen[entries.len() - 1] {
            earlier
        } else {
            earlier.push(entries.last())
        }
    }
}

/// `entry` placed into `sorted` after every entry at least as new as it and
/// before the older ones that follow them.
pub open spec fn insert_by_time(sorted: Seq<FeedEntry>, entry: FeedEntry) -> Seq<FeedEntry>
    decreases sorted.len(),
{
    if sorted.len() == 0 {
        seq![entry]
    } else if sorted.last().timestamp_unix >= entry.timestamp_unix {
        sorted.push(entry)
    } else {
        insert_by_time(sorted.drop_last(), entry).push(sorted.last())
    }
}

/// The entries ordered newest first; entries of equal time keep their order.
pub open spec fn newest_first(entries: Seq<FeedEntry>) -> Seq<FeedEntry>
    decreases entries.len(),
{
    if entries.len() == 0 {
        entries
    } else {
        insert_by_time(newest_first(entries.drop_last()), entries.last())
    }
}

/// No entry comes before a newer one.
pub open spec fn ordered_newest_first(entries: Seq<FeedEntry>) -> bool {
    forall|i: int, j: int|
        0 <= i < j < entries.len() ==> entries[i].timestamp_unix >= entries[j].timestamp_unix
}

/// Whether an entry carries the given time.
pub open spec fn stamped_at(time: u64) -> spec_fn(FeedEntry) -> bool {
    |e: FeedEntry| e.timestamp_unix == time
}

/// At most `limit` entries from the front.
pub open spec fn at_most(entries: Seq<FeedEntry>, limit: int) -> Seq<FeedEntry> {
    if limit < entries.len() {
        entries.take(limit)
    } else {
        entries
    }
}

/// The entries that the analysis takes: those not seen before, newest first,
/// at most `limit` of them.
pub open spec fn selection(entries: Seq<FeedEntry>, seen: Seq<bool>, limit: int) -> Seq<FeedEntry> {
    at_most(newest_first(unseen(entries, seen)), limit)
}

/// The prompt that asks the model about an entry.
pub open spec fn prompt_text(entry: FeedEntry) -> Seq<char> {
    entry.timestamp@ + " "@ + entry.title@ + ":\n"@ + entry.content@
}

proof fn lemma_insert_at(sorted: Seq<FeedEntry>, entry: FeedEntry, j: int)
    requires
        0 <= j <= sorted.len(),
        forall|k: int| j <= k < sorted.len() ==> sorted[k].timestamp_unix < entry.timestamp_unix,
        j > 0 ==> sorted[j - 1].timestamp_unix >= entry.timestamp_unix,
    ensures
        insert_by_time(sorted, entry) == sorted.insert(j, entry),
    decreases sorted.len(),
{
    if sorted.len() == 0 {
        assert(sorted.insert(j, entry) =~= seq![entry]);
    } else if sorted.last().timestamp_unix >= entry.timestamp_unix {
        assert(sorted.insert(j, entry) =~= sorted.push(entry));
    } else {
        lemma_insert_at(sorted.drop_last(), entry, j);
        assert(sorted.insert(j, entry) =~= sorted.drop_last().insert(j, entry).push(sorted.last()));
    }
}

proof fn lemma_insert_lower_bound(sorted: Seq<FeedEntry>, entry: FeedEntry, low: u64)
    requires
        forall|k: int| 0 <= k < sorted.len() ==> sorted[k].timestamp_unix >= low,
        entry.timestamp_unix >= low,
    ensures
        forall|k: int|
            0 <= k < insert_by_time(sorted, entry).len()
                ==> (#[trigger] insert_by_time(sorted, entry)[k]).timestamp_unix >= low,
        insert_by_time(sorted, entry).len() == sorted.len() + 1,
    decreases sorted.len(),
{
    if sorted.len() > 0 && sorted.last().timestamp_unix < entry.timestamp_unix {
        lemma_insert_lower_bound(sorted.drop_last(), entry, low);
        let inner = insert_by_time(sorted.drop_last(), entry);
        assert forall|k: int| 0 <= k < inner.push(sorted.last()).len() implies
            (#[trigger] inner.push(sorted.last())[k]).timestamp_unix >= low by {
            if k < inner.len() {
                assert(inner.push(sorted.last())[k] == inner[k]);
            }
        }
    }
}

proof fn lemma_insert_ordered(sorted: Seq<FeedEntry>, entry: FeedEntry)
    requires
        ordered_newest_first(sorted),
    ensures
        ordered_newest_first(insert_by_time(sorted, entry)),
    decreases sorted.len(),
{
    if sorted.len() == 0 {
    } else if sorted.last().timestamp_unix >= entry.timestamp_unix {
    } else {
        let rest = sorted.drop_last();
        let last = sorted.last();
        lemma_insert_ordered(rest, entry);
        assert forall|k: int| 0 <= k < rest.len() implies rest[k].timestamp_unix >= last.timestamp_unix by {
            assert(sorted[k] == rest[k]);
        }
        lemma_insert_lower_bound(rest, entry, last.timestamp_unix);
    }
}

proof fn lemma_insert_filter(sorted: Seq<FeedEntry>, entry: FeedEntry, time: u64)
    ensures
        insert_by_time(sorted, entry).filter(stamped_at(time)) == (if entry.timestamp_unix == time {
            sorted.filter(stamped_at(time)).push(entry)
        } else {
            sorted.filter(stamped_at(time))
        }),
    decreases sorted.len(),
{
    reveal(Seq::filter);
    let p = stamped_at(time);
    if sorted.len() == 0 {
        assert(seq![entry].drop_last() =~= sorted);
    } else if sorted.last().timestamp_unix >= entry.timestamp_unix {
        assert(sorted.push(entry).drop_last() =~= sorted);
    } else {
        let rest = sorted.drop_last();
        let last = sorted.last();
        lemma_insert_filter(rest, entry, time);
        let inner = insert_by_time(rest, entry);
        assert(inner.push(last).drop_last() =~= inner);
    }
}

proof fn lemma_insert_multiset(sorted: Seq<FeedEntry>, entry: FeedEntry)
    ensures
        insert_by_time(sorted, entry).to_multiset() =~= sorted.to_multiset().insert(entry),
    decreases sorted.len(),
{
    broadcast use vstd::seq_lib::group_to_multiset_ensures;
    if sorted.len() == 0 {
        assert(seq![entry] =~= sorted.push(entry));
    } else if sorted.last().timestamp_unix >= entry.timestamp_unix {
    } else {
        let rest = sorted.drop_last();
        lemma_insert_multiset(rest, entry);
        assert(rest.push(sorted.last()) =~= sorted);
    }
}

/// The newest-first order puts no entry before a newer one, keeps the entries
/// of each time in their original order, and neither loses nor adds an entry.
pub proof fn lemma_newest_first(entries: Seq<FeedEntry>)
    ensures
        ordered_newest_first(newest_first(entries)),
        forall|time: u64| #[trigger] newest_first(entries).filter(stamped_at(time)) == entries.filter(stamped_at(time)),
        newest_first(entries).to_multiset() =~= entries.to_multiset(),
        newest_first(entries).len() == entries.len(),
    decreases entries.len(),
{
    broadcast use vstd::seq_lib::group_to_multiset_ensures;
    if entries.len() > 0 {
        let rest = entries.drop_last();
        let last = entries.last();
        lemma_newest_first(rest);
        lemma_insert_ordered(newest_first(rest), last);
        lemma_insert_multiset(newest_first(rest), last);
        lemma_insert_lower_bound(newest_first(rest), last, 0);
        assert forall|time: u64| #[trigger] newest_first(entries).filter(stamped_at(time)) == entries.filter(stamped_at(time)) by {
            reveal(Seq::filter);
            lemma_insert_filter(newest_first(rest), last, time);
        }
        assert(rest.push(last) =~= entries);
    }
}

/// The recent entries are exactly those at or after the cutoff: each kept
/// entry meets it, and each entry that meets it is kept.
pub proof fn lemma_recent(entries: Seq<FeedEntry>, cutoff: int)
    ensures
        forall|k: int| 0 <= k < recent(entries, cutoff).len()
            ==> (#[trigger] recent(entries, cutoff)[k]).timestamp_unix >= cutoff,
        forall|i: int| 0 <= i < entries.len() && entries[i].timestamp_unix >= cutoff
            ==> recent(entries, cutoff).contains(#[trigger] entries[i]),
        recent(entries, cutoff).len() <= entries.len(),
{
    broadcast use vstd::seq_lib::group_filter_ensures;
    assert forall|k: int| 0 <= k < recent(entries, cutoff).len()
        implies (#[trigger] recent(entries, cutoff)[k]).timestamp_unix >= cutoff by {
        assert(at_or_after(cutoff)(entries.filter(at_or_after(cutoff))[k]));
    }
    assert forall|i: int| 0 <= i < entries.len() && entries[i].timestamp_unix >= cutoff
        implies recent(entries, cutoff).contains(#[trigger] entries[i]) by {
        assert(at_or_after(cutoff)(entries[i]));
    }
}

/// The number of flags that say "not seen".
pub open spec fn unseen_count(seen: Seq<bool>) -> nat {
    seen.filter(|b: bool| !b).len()
}

/// Exactly the entries whose flag says "not seen" remain, each once and in
/// feed order: there are as many as there are such flags, and the entry at
/// such an index stands at the place given by the number of such flags
/// before it.
pub proof fn lemma_unseen_exact(entries: Seq<FeedEntry>, seen: Seq<bool>)
    requires
        seen.len() == entries.len(),
    ensures
        unseen(entries, seen).len() == unseen_count(seen),
        forall|i: int| 0 <= i < entries.len() && !seen[i] ==>
            unseen(entries, seen)[unseen_count(seen.take(i)) as int] == #[trigger] entries[i],
    decreases entries.len(),
{
    reveal(Seq::filter);
    if entries.len() > 0 {
        let n = entries.len() - 1;
        let rest = entries.drop_last();
        let rest_seen = seen.take(n as int);
        lemma_unseen_exact(rest, rest_seen);
        assert(seen.drop_last() =~= rest_seen);
        let earlier = unseen(rest, rest_seen);
        assert forall|i: int| 0 <= i < entries.len() && !seen[i] implies
            unseen(entries, seen)[unseen_count(seen.take(i)) as int] == #[trigger] entries[i] by {
            if i < n {
                assert(rest[i] == entries[i]);
                assert(rest_seen[i] == seen[i]);
                assert(rest_seen.take(i) =~= seen.take(i));
                lemma_count_le(rest_seen, i);
            } else {
                assert(seen.take(i) =~= rest_seen);
            }
        }
    }
}

proof fn lemma_count_le(seen: Seq<bool>, i: int)
    requires
        0 <= i < seen.len(),
        !seen[i],
    ensures
        unseen_count(seen.take(i)) < unseen_count(seen),
    decreases seen.len(),
{
    reveal(Seq::filter);
    let n = seen.len() - 1;
    assert(seen.drop_last() =~= seen.take(n));
    if i < n {
        lemma_count_le(seen.take(n), i);
        assert(seen.take(n).take(i) =~= seen.take(i));
    } else {
        assert(seen.take(i) =~= seen.drop_last());
    }
}

/// The prompt is the entry's time, a space, its title, a colon, a line break
/// and its whole text, in this order and with nothing else.
pub proof fn lemma_prompt_parts(entry: FeedEntry)
    ensures
        ({
            let p = prompt_text(entry);
            let t = entry.timestamp@.len() as int;
            let h = entry.title@.len() as int;
            let c = entry.content@.len() as int;
            &&& p.len() == t + h + c + 3
            &&& p.subrange(0, t) == entry.timestamp@
            &&& p[t] == ' '
            &&& p.subrange(t + 1, t + 1 + h) == entry.title@
            &&& p[t + 1 + h] == ':'
            &&& p[t + 2 + h] == '\n'
            &&& p.subrange(t + h + 3, p.len() as int) == entry.content@
        }),
{
    reveal_strlit(" ");
    reveal_strlit(":\n");
    let p = prompt_text(entry);
    let t = entry.timestamp@.len() as int;
    let h = entry.title@.len() as int;
    assert(p.subrange(0, t) =~= entry.timestamp@);
    assert(p.subrange(t + 1, t + 1 + h) =~= entry.title@);
    assert(p.subrange(t + h + 3, p.len() as int) =~= entry.content@);
}

proof fn lemma_unseen_members(entries: Seq<FeedEntry>, seen: Seq<bool>)
    requires
        seen.len() == entries.len(),
    ensures
        forall|m: int| 0 <= m < unseen(entries, seen).len() ==> exists|i: int|
            0 <= i < entries.len() && !seen[i] && entries[i] == #[trigger] unseen(entries, seen)[m],
    decreases entries.len(),
{
    if entries.len() > 0 {
        let n = entries.len() - 1;
        let rest = entries.drop_last();
        let rest_seen = seen.take(n as int);
        lemma_unseen_members(rest, rest_seen);
        let earlier = unseen(rest, rest_seen);
        assert forall|m: int| 0 <= m < unseen(entries, seen).len() implies exists|i: int|
            0 <= i < entries.len() && !seen[i] && entries[i] == #[trigger] unseen(entries, seen)[m] by {
            if m < earlier.len() {
                let i = choose|i: int| 0 <= i < rest.len() && !rest_seen[i] && rest[i] == earlier[m];
                assert(entries[i] == rest[i]);
                assert(seen[i] == rest_seen[i]);
                assert(unseen(entries, seen)[m] == earlier[m]);
            } else {
                assert(unseen(entries, seen)[m] == entries[n as int]);
            }
        }
    }
}

/// The entries that the analysis takes were all not seen before, come newest
/// first, and number the limit, or all unseen entries where fewer remain.
pub proof fn lemma_selection(entries: Seq<FeedEntry>, seen: Seq<bool>, limit: int)
    requires
        seen.len() == entries.len(),
        0 <= limit,
    ensures
        ordered_newest_first(selection(entries, seen, limit)),
        selection(entries, seen, limit).len() == (if limit < unseen(entries, seen).len() {
            limit
        } else {
            unseen(entries, seen).len() as int
        }),
        forall|m: int| 0 <= m < selection(entries, seen, limit).len() ==> exists|i: int|
            0 <= i < entries.len() && !seen[i] && entries[i] == #[trigger] selection(entries, seen, limit)[m],
{
    broadcast use vstd::seq_lib::group_to_multiset_ensures;
    let fresh = unseen(entries, seen);
    let sorted = newest_first(fresh);
    let chosen = selection(entries, seen, limit);
    lemma_newest_first(fresh);
    lemma_unseen_members(entries, seen);
    assert forall|m: int| 0 <= m < chosen.len() implies exists|i: int|
        0 <= i < entries.len() && !seen[i] && entries[i] == #[trigger] chosen[m] by {
        assert(chosen[m] == sorted[m]);
        assert(sorted.contains(sorted[m]));
        assert(sorted.to_multiset().count(sorted[m]) > 0);
        assert(fresh.to_multiset().count(sorted[m]) > 0);
        assert(fresh.contains(sorted[m]));
        let q = choose|q: int| 0 <= q < fresh.len() && fresh[q] == sorted[m];
        assert(fresh[q] == unseen(entries, seen)[q]);
    }
    assert forall|i: int, j: int| 0 <= i < j < chosen.len() implies
        chosen[i].timestamp_unix >= chosen[j].timestamp_unix by {
        assert(chosen[i] == sorted[i] && chosen[j] == sorted[j]);
    }
}

/// Orders entries newest first; entries of equal time keep their order.
pub fn sort_newest_first(entries: Vec<FeedEntry>) -> (r: Vec<FeedEntry>)
    ensures
        r@ == newest_first(entries@),
        ordered_newest_first(r@),
        r@.to_multiset() =~= entries@.to_multiset(),
{
    let ghost original = entries@;
    let n = entries.len();
    let mut rest = entries;
    let mut out: Vec<FeedEntry> = Vec::new();
    let mut i: usize = 0;
    while i < n
        invariant
            n == original.len(),
            0 <= i <= n,
            rest@ == original.subrange(i as int, n as int),
            out@ == newest_first(original.take(i as int)),
        decreases n - i,
    {
        let entry = rest.remove(0);
        assert(entry == original[i as int]);
        let mut j = out.len();
        while j > 0 && out[j - 1].timestamp_unix < entry.timestamp_unix
            invariant
                0 <= j <= out.len(),
                forall|k: int| j <= k < out.len() ==> out@[k].timestamp_unix < entry.timestamp_unix,
            decreases j,
        {
            j = j - 1;
        }
        proof {
            lemma_insert_at(out@, entry, j as int);
            assert(original.take(i + 1).drop_last() =~= original.take(i as int));
            assert(original.take(i + 1).last() == entry);
        }
        out.insert(j, entry);
        assert(rest@ =~= original.subrange(i + 1, n as int));
        i = i + 1;
    }
    assert(original.take(n as int) =~= original);
    proof {
        lemma_newest_first(original);
    }
    out
}

/// Keeps the entries whose time is at or after `now - max_age`, in their order.
pub fn retain_recent(entries: Vec<FeedEntry>, now: u64, max_age: u64) -> (r: Vec<FeedEntry>)
    requires
        max_age <= now,
    ensures
        r@ == recent(entries@, now - max_age),
{
    let cutoff = now - max_age;
    let ghost original = entries@;
    let ghost p = at_or_after(cutoff as int);
    let n = entries.len();
    let mut out: Vec<FeedEntry> = Vec::new();
    let mut i: usize = 0;
    while i < n
        invariant
            n == original.len(),
            entries@ == original,
            p == at_or_after(cutoff as int),
            0 <= i <= n,
            out@ == original.take(i as int).filter(p),
        decreases n - i,
    {
        proof {
            reveal(Seq::filter);
            assert(original.take(i + 1).drop_last() =~= original.take(i as int));
            assert(original.take(i + 1).last() == original[i as int]);
            assert(original.take(i + 1).filter(p) == (if p(original[i as int]) {
                original.take(i as int).filter(p).push(original[i as int])
            } else {
                original.take(i as int).filter(p)
            }));
        }
        if entries[i].timestamp_unix >= cutoff {
            out.push(entries[i].duplicate());
        }
        i = i + 1;
    }
    assert(original.take(n as int) =~= original);
    out
}

/// Keeps the entries whose flag says they were not seen before, in their order.
pub fn retain_unseen(entries: Vec<FeedEntry>, seen: &Vec<bool>) -> (r: Vec<FeedEntry>)
    requires
        seen.len() == entries.len(),
    ensures
        r@ == unseen(entries@, seen@),
{
    let ghost original = entries@;
    let n = entries.len();
    let mut out: Vec<FeedEntry> = Vec::new();
    let mut i: usize = 0;
    while i < n
        invariant
            n == original.len(),
            n == seen@.len(),
            entries@ == original,
            0 <= i <= n,
            out@ == unseen(original.take(i as int), seen@.take(i as int)),
        decreases n - i,
    {
        proof {
            assert(original.take(i + 1).drop_last() =~= original.take(i as int));
            assert(seen@.take(i + 1).take(i as int) =~= seen@.take(i as int));
        }
        if !seen[i] {
            out.push(entries[i].duplicate());
        }
        i = i + 1;
    }
    assert(original.take(n as int) =~= original);
    assert(seen@.take(n as int) =~= seen@);
    out
}

/// The entries for the analysis: those not seen before, newest first, at most
/// `max_entries` of them.
pub fn select_entries(entries: Vec<FeedEntry>, seen: &Vec<bool>, max_entries: usize) -> (r: Vec<FeedEntry>)
    requires
        seen.len() == entries.len(),
    ensures
        r@ == selection(entries@, seen@, max_entries as int),
{
    let fresh = retain_unseen(entries, seen);
    let mut sorted = sort_newest_first(fresh);
    sorted.truncate(max_entries);
    sorted
}

/// The prompt for an entry: its time, its title and a colon, a line break and
/// its text.
pub fn entry_prompt(entry: &FeedEntry) -> (r: String)
    ensures
        r@ == prompt_text(*entry),
{
    let mut s = entry.timestamp.clone();
    s.append(" ");
    s.append(entry.title.as_str());
    s.append(":\n");
    s.append(entry.content.as_str());
    proof {
        reveal_strlit(" ");
        reveal_strlit(":\n");
    }
    s
}

} // verus!
