//! Deterministic compaction of memory entries into a bounded context.
use vstd::prelude::*;

use crate::text::{
    chars_eq, chars_of, is_ws, normalize, normalize_chars, string_of, sub_chars, words,
};

verus! {

/// A memory entry as the compactor reads it: its key and its content.
pub struct MemoryEntry {
    pub key: String,
    pub content: String,
}

/// Deterministic budget for memory context compaction.
#[derive(Debug, Clone, Copy)]
pub struct CompressionBudget {
    pub max_chars: usize,
    pub max_entries: usize,
    pub max_entry_chars: usize,
}

impl Default for CompressionBudget {
    fn default() -> (b: Self)
        ensures
            b.max_chars == 4_000,
            b.max_entries == 4,
            b.max_entry_chars == 800,
    {
        CompressionBudget { max_chars: 4_000, max_entries: 4, max_entry_chars: 800 }
    }
}

/// One kept line: the entry's key and its compacted content.
#[derive(Debug, Clone)]
pub struct CompactLine {
    pub key: String,
    pub content: String,
}

/// Counters describing what the compaction did.
#[derive(Debug, Clone, Default)]
pub struct CompressionStats {
    pub original_entries: usize,
    pub kept_entries: usize,
    pub removed_duplicates: usize,
    pub truncated_entries: usize,
    pub omitted_entries: usize,
    pub original_chars: usize,
    pub compressed_chars: usize,
}

/// The kept lines and the counters.
#[derive(Debug, Clone, Default)]
pub struct CompressionResult {
    pub lines: Vec<CompactLine>,
    pub stats: CompressionStats,
}

/// The ellipsis character appended to a truncated entry.
pub open spec fn ellipsis() -> char {
    '\u{2026}'
}

/// The first `max` characters of `s` followed by an ellipsis, and `true`,
/// when `s` is longer than `max`; otherwise `s` itself and `false`.
pub open spec fn truncated(s: Seq<char>, max: nat) -> (Seq<char>, bool) {
    if s.len() > max {
        (s.take(max as int).push(ellipsis()), true)
    } else {
        (s, false)
    }
}

/// The key under which an entry is de-duplicated: its key and its
/// (normalized, truncated) content, compared as a pair.
pub open spec fn dedupe_key(key: Seq<char>, content: Seq<char>) -> (Seq<char>, Seq<char>) {
    (key, content)
}

/// The characters a kept line counts against the budget.
pub open spec fn line_chars(key: Seq<char>, content: Seq<char>) -> nat {
    key.len() + content.len() + 4
}

/// The state of a compaction after a prefix of the entries.
pub struct CompactState {
    pub lines: Seq<(Seq<char>, Seq<char>)>,
    pub seen: Set<(Seq<char>, Seq<char>)>,
    pub used: nat,
    pub removed_duplicates: nat,
    pub truncated_entries: nat,
    pub omitted_entries: nat,
    pub original_chars: nat,
}

pub open spec fn initial_state() -> CompactState {
    CompactState {
        lines: seq![],
        seen: Set::empty(),
        used: 0,
        removed_duplicates: 0,
        truncated_entries: 0,
        omitted_entries: 0,
        original_chars: 0,
    }
}

/// What one entry (`key`, `content`) does to the state: it is omitted once
/// `max_entries` lines are kept or when its content is all white space;
/// otherwise its normalized content is truncated to `max_entry_chars`, it is
/// dropped as a duplicate when its key and content were seen before, omitted
/// when its line would overrun `max_chars`, and kept otherwise.
pub open spec fn step(
    st: CompactState,
    key: Seq<char>,
    content: Seq<char>,
    budget: CompressionBudget,
) -> CompactState {
    let st = CompactState { original_chars: st.original_chars + content.len(), ..st };
    if st.lines.len() >= budget.max_entries {
        CompactState { omitted_entries: st.omitted_entries + 1, ..st }
    } else {
        let n = normalize(content);
        if n.len() == 0 {
            CompactState { omitted_entries: st.omitted_entries + 1, ..st }
        } else {
            let (t, was_truncated) = truncated(n, budget.max_entry_chars as nat);
            let st = if was_truncated {
                CompactState { truncated_entries: st.truncated_entries + 1, ..st }
            } else {
                st
            };
            let dk = dedupe_key(key, t);
            if st.seen.contains(dk) {
                CompactState { removed_duplicates: st.removed_duplicates + 1, ..st }
            } else {
                let st = CompactState { seen: st.seen.insert(dk), ..st };
                if st.used + line_chars(key, t) > budget.max_chars {
                    CompactState { omitted_entries: st.omitted_entries + 1, ..st }
                } else {
                    CompactState {
                        used: st.used + line_chars(key, t),
                        lines: st.lines.push((key, t)),
                        ..st
                    }
                }
            }
        }
    }
}

/// The state after all of `entries` (key, content) in order.
pub open spec fn compact(
    entries: Seq<(Seq<char>, Seq<char>)>,
    budget: CompressionBudget,
) -> CompactState
    decreases entries.len(),
{
    if entries.len() == 0 {
        initial_state()
    } else {
        let e = entries.last();
        step(compact(entries.drop_last(), budget), e.0, e.1, budget)
    }
}

/// The (key, content) of each entry.
pub open spec fn entry_views(entries: Seq<MemoryEntry>) -> Seq<(Seq<char>, Seq<char>)> {
    entries.map_values(|e: MemoryEntry| (e.key@, e.content@))
}

/// The (key, content) of each line.
pub open spec fn line_views(lines: Seq<CompactLine>) -> Seq<(Seq<char>, Seq<char>)> {
    lines.map_values(|l: CompactLine| (l.key@, l.content@))
}

/// An upper bound on the characters the counters can reach for `entries`.
pub open spec fn char_bound(entries: Seq<MemoryEntry>) -> nat
    decreases entries.len(),
{
    if entries.len() == 0 {
        0
    } else {
        char_bound(entries.drop_last()) + entries.last().key@.len() + 2 * entries.last().content@.len()
            + 5
    }
}

/// `input` with runs of white space made single spaces and trimmed.
pub fn normalize_whitespace(input: &str) -> (r: String)
    ensures
        r@ == normalize(input@),
{
    let v = chars_of(input);
    let n = normalize_chars(&v);
    string_of(&n)
}

fn truncate_chars(input: &Vec<char>, max_chars: usize) -> (r: (Vec<char>, bool))
    ensures
        (r.0@, r.1) == truncated(input@, max_chars as nat),
{
    if input.len() > max_chars {
        let mut p = sub_chars(input, 0, max_chars);
        p.push('\u{2026}');
        proof {
            assert(input@.subrange(0, max_chars as int) == input@.take(max_chars as int));
        }
        (p, true)
    } else {
        (sub_chars(input, 0, input.len()), false)
    }
}

/// The first `max_chars` characters of `input` followed by `…`, and `true`,
/// when `input` has more than `max_chars` characters; otherwise `input`
/// itself and `false`.
pub fn truncate_with_ellipsis(input: &str, max_chars: usize) -> (r: (String, bool))
    ensures
        (r.0@, r.1) == truncated(input@, max_chars as nat),
{
    let v = chars_of(input);
    let (t, b) = truncate_chars(&v, max_chars);
    proof {
        if !b {
            assert(v@.subrange(0, v@.len() as int) =~= v@);
        }
    }
    (string_of(&t), b)
}

/// The characters of a pair of character vectors.
pub open spec fn pair_view(p: (Vec<char>, Vec<char>)) -> (Seq<char>, Seq<char>) {
    (p.0@, p.1@)
}

fn seen_contains(seen: &Vec<(Vec<char>, Vec<char>)>, k: &Vec<char>, c: &Vec<char>) -> (r: bool)
    ensures
        r == exists|j: int| 0 <= j < seen.len() && pair_view(#[trigger] seen@[j]) == (k@, c@),
{
    let mut j: usize = 0;
    while j < seen.len()
        invariant
            0 <= j <= seen.len(),
            forall|m: int| 0 <= m < j ==> pair_view(#[trigger] seen@[m]) != (k@, c@),
        decreases seen.len() - j,
    {
        if chars_eq(&seen[j].0, k) && chars_eq(&seen[j].1, c) {
            return true;
        }
        j = j + 1;
    }
    false
}

proof fn lemma_char_bound_prefix(entries: Seq<MemoryEntry>, i: int)
    requires
        0 <= i < entries.len(),
    ensures
        char_bound(entries.take(i)) + entries[i].key@.len() + 2 * entries[i].content@.len() + 5
            == char_bound(entries.take(i + 1)),
        char_bound(entries.take(i + 1)) <= char_bound(entries),
    decreases entries.len() - i,
{
    assert(entries.take(i + 1).drop_last() =~= entries.take(i));
    assert(entries.take(i + 1).last() == entries[i]);
    if i + 1 < entries.len() {
        lemma_char_bound_prefix(entries, i + 1);
    } else {
        assert(entries.take(i + 1) =~= entries);
    }
}

/// Deterministically compacts memory entries by normalizing white space,
/// de-duplicating, truncating each entry and enforcing the total budget.
///
/// The result is the fold of `step` over the entries; besides, the kept,
/// duplicate and omitted counts add up to the number of entries, no more
/// than `max_entries` lines are kept, and the kept lines use
/// `compressed_chars <= max_chars` characters.
pub fn compact_memory_entries(entries: &[MemoryEntry], budget: CompressionBudget) -> (r:
    CompressionResult)
    requires
        char_bound(entries@) <= usize::MAX,
    ensures
        ({
            let st = compact(entry_views(entries@), budget);
            &&& line_views(r.lines@) == st.lines
            &&& r.stats.original_entries == entries@.len()
            &&& r.stats.kept_entries == st.lines.len()
            &&& r.stats.removed_duplicates == st.removed_duplicates
            &&& r.stats.truncated_entries == st.truncated_entries
            &&& r.stats.omitted_entries == st.omitted_entries
            &&& r.stats.original_chars == st.original_chars
            &&& r.stats.compressed_chars == st.used
        }),
        r.stats.kept_entries + r.stats.removed_duplicates + r.stats.omitted_entries
            == r.stats.original_entries,
        r.stats.truncated_entries <= r.stats.original_entries,
        r.stats.kept_entries == r.lines.len(),
        r.lines.len() <= budget.max_entries,
        r.stats.compressed_chars <= budget.max_chars,
{
    let ghost views = entry_views(entries@);
    let mut lines: Vec<CompactLine> = Vec::new();
    let mut seen: Vec<(Vec<char>, Vec<char>)> = Vec::new();
    let mut used: usize = 0;
    let mut removed_duplicates: usize = 0;
    let mut truncated_entries: usize = 0;
    let mut omitted_entries: usize = 0;
    let mut original_chars: usize = 0;
    let n = entries.len();
    let mut i: usize = 0;
    assert(views.take(0) =~= Seq::<(Seq<char>, Seq<char>)>::empty());
    while i < n
        invariant
            n == entries@.len(),
            views == entry_views(entries@),
            views.len() == n,
            char_bound(entries@) <= usize::MAX,
            0 <= i <= n,
            ({
                let st = compact(views.take(i as int), budget);
                &&& line_views(lines@) == st.lines
                &&& (forall|x: (Seq<char>, Seq<char>)|
                    st.seen.contains(x) <==> exists|j: int|
                        0 <= j < seen.len() && pair_view(#[trigger] seen@[j]) == x)
                &&& used == st.used
                &&& removed_duplicates == st.removed_duplicates
                &&& truncated_entries == st.truncated_entries
                &&& omitted_entries == st.omitted_entries
                &&& original_chars == st.original_chars
            }),
            lines.len() + removed_duplicates + omitted_entries == i,
            truncated_entries <= i,
            lines.len() <= budget.max_entries,
            used <= budget.max_chars,
            original_chars + used <= char_bound(entries@.take(i as int)),
        decreases n - i,
    {
        let entry = &entries[i];
        let ghost st0 = compact(views.take(i as int), budget);
        proof {
            assert(views.take(i + 1).drop_last() =~= views.take(i as int));
            assert(views.take(i + 1).last() == views[i as int]);
            assert(views[i as int] == (entry.key@, entry.content@));
            lemma_char_bound_prefix(entries@, i as int);
        }
        let ghost st1 = compact(views.take(i + 1), budget);
        let ghost oc0 = original_chars;
        let ghost u0 = used;
        let content = chars_of(entry.content.as_str());
        original_chars = original_chars + content.len();
        if lines.len() >= budget.max_entries {
            omitted_entries = omitted_entries + 1;
        } else {
            let normalized = normalize_chars(&content);
            if normalized.len() == 0 {
                omitted_entries = omitted_entries + 1;
            } else {
                let (t, was_truncated) = truncate_chars(&normalized, budget.max_entry_chars);
                if was_truncated {
                    truncated_entries = truncated_entries + 1;
                }
                let key = chars_of(entry.key.as_str());
                let ghost dk = dedupe_key(key@, t@);
                if seen_contains(&seen, &key, &t) {
                    removed_duplicates = removed_duplicates + 1;
                } else {
                    let ghost old_seen = seen@;
                    seen.push((sub_chars(&key, 0, key.len()), sub_chars(&t, 0, t.len())));
                    proof {
                        assert(key@.subrange(0, key@.len() as int) =~= key@);
                        assert(t@.subrange(0, t@.len() as int) =~= t@);
                        assert(pair_view(seen@[seen.len() - 1]) == dk);
                        assert(normalized@ == normalize(entry.content@));
                        assert(dk == dedupe_key(entry.key@, t@));
                        assert(!st0.seen.contains(dk));
                        assert(st1.seen == st0.seen.insert(dk));
                        assert forall|x: (Seq<char>, Seq<char>)|
                            st1.seen.contains(x) <==> exists|j: int|
                                0 <= j < seen.len() && pair_view(#[trigger] seen@[j]) == x by {
                            if st0.seen.contains(x) {
                                let j = choose|j: int|
                                    0 <= j < old_seen.len() && pair_view(#[trigger] old_seen[j]) == x;
                                assert(seen@[j] == old_seen[j]);
                            }
                            if x == dk {
                                assert(pair_view(seen@[seen.len() - 1]) == x);
                            }
                            if exists|j: int| 0 <= j < seen.len() && pair_view(#[trigger] seen@[j]) == x {
                                let j = choose|j: int| 0 <= j < seen.len() && pair_view(#[trigger] seen@[j]) == x;
                                if j < old_seen.len() {
                                    assert(old_seen[j] == seen@[j]);
                                }
                            }
                        }
                    }
                    assert(t.len() <= normalized.len());
                    let lc = key.len() + t.len() + 4;
                    if used + lc > budget.max_chars {
                        omitted_entries = omitted_entries + 1;
                    } else {
                        used = used + lc;
                        lines.push(CompactLine { key: string_of(&key), content: string_of(&t) });
                        proof {
                            assert(line_views(lines@) =~= st1.lines);
                        }
                    }
                }
            }
        }
        proof {
            assert(entries@[i as int] == *entry);
            assert(original_chars == oc0 + entry.content@.len());
            assert(used <= u0 + entry.key@.len() + entry.content@.len() + 4);
        }
        i = i + 1;
    }
    proof {
        assert(views.take(n as int) =~= views);
    }
    let stats = CompressionStats {
        original_entries: n,
        kept_entries: lines.len(),
        removed_duplicates,
        truncated_entries,
        omitted_entries,
        original_chars,
        compressed_chars: used,
    };
    CompressionResult { lines, stats }
}

/// The characters that the lines `lines` count against the budget.
pub open spec fn total_line_chars(lines: Seq<(Seq<char>, Seq<char>)>) -> nat
    decreases lines.len(),
{
    if lines.len() == 0 {
        0
    } else {
        total_line_chars(lines.drop_last()) + line_chars(lines.last().0, lines.last().1)
    }
}

/// What holds of the state after `n` entries: the budget is kept, the kept
/// lines account for exactly the characters used, each kept content is
/// non-empty and at most one character (the ellipsis) over the per-entry
/// limit, no two kept lines share their de-duplication key, and every entry
/// was kept, dropped as a duplicate or omitted.
pub open spec fn compaction_holds(st: CompactState, budget: CompressionBudget, n: nat) -> bool {
    &&& st.lines.len() <= budget.max_entries
    &&& st.used <= budget.max_chars
    &&& st.used == total_line_chars(st.lines)
    &&& forall|i: int|
        0 <= i < st.lines.len() ==> 0 < (#[trigger] st.lines[i]).1.len() <= budget.max_entry_chars
            + 1
    &&& forall|i: int|
        0 <= i < st.lines.len() ==> st.seen.contains(
            dedupe_key(#[trigger] st.lines[i].0, st.lines[i].1),
        )
    &&& forall|i: int, j: int|
        0 <= i < st.lines.len() && 0 <= j < st.lines.len() && i != j ==> dedupe_key(
            #[trigger] st.lines[i].0,
            st.lines[i].1,
        ) != dedupe_key(#[trigger] st.lines[j].0, st.lines[j].1)
    &&& st.lines.len() + st.removed_duplicates + st.omitted_entries == n
    &&& st.truncated_entries <= n
}

/// Compaction keeps its budget (at most `max_entries` lines and
/// `max_chars` characters, counted as key + content + 4 per line), never
/// keeps an empty or over-long content, never keeps two lines with the same
/// `key::content`, and accounts for every entry.
pub proof fn law_compaction_bounds(
    entries: Seq<(Seq<char>, Seq<char>)>,
    budget: CompressionBudget,
)
    ensures
        compaction_holds(compact(entries, budget), budget, entries.len()),
    decreases entries.len(),
{
    if entries.len() > 0 {
        let prev = entries.drop_last();
        law_compaction_bounds(prev, budget);
        let st0 = compact(prev, budget);
        let e = entries.last();
        let st1 = compact(entries, budget);
        assert(st1 == step(st0, e.0, e.1, budget));
        if st1.lines.len() > st0.lines.len() {
            let n = normalize(e.1);
            let t = truncated(n, budget.max_entry_chars as nat).0;
            assert(st1.lines == st0.lines.push((e.0, t)));
            assert(st1.lines.drop_last() =~= st0.lines);
            let dk = dedupe_key(e.0, t);
            assert(!st0.seen.contains(dk));
            assert forall|i: int, j: int|
                0 <= i < st1.lines.len() && 0 <= j < st1.lines.len() && i != j implies dedupe_key(
                #[trigger] st1.lines[i].0,
                st1.lines[i].1,
            ) != dedupe_key(#[trigger] st1.lines[j].0, st1.lines[j].1) by {
                if i < st0.lines.len() && j < st0.lines.len() {
                    assert(st1.lines[i] == st0.lines[i] && st1.lines[j] == st0.lines[j]);
                } else if i < st0.lines.len() {
                    assert(st1.lines[i] == st0.lines[i]);
                    assert(st0.seen.contains(dedupe_key(st0.lines[i].0, st0.lines[i].1)));
                } else {
                    assert(st1.lines[j] == st0.lines[j]);
                    assert(st0.seen.contains(dedupe_key(st0.lines[j].0, st0.lines[j].1)));
                }
            }
            assert forall|i: int| 0 <= i < st1.lines.len() implies st1.seen.contains(
                dedupe_key(#[trigger] st1.lines[i].0, st1.lines[i].1),
            ) by {
                if i < st0.lines.len() {
                    assert(st1.lines[i] == st0.lines[i]);
                }
            }
            assert forall|i: int|
                0 <= i < st1.lines.len() implies 0 < (#[trigger] st1.lines[i]).1.len()
                <= budget.max_entry_chars + 1 by {
                if i < st0.lines.len() {
                    assert(st1.lines[i] == st0.lines[i]);
                }
            }
        } else {
            assert(st1.lines == st0.lines);
        }
    }
}

/// Compaction is deterministic: entries with the same keys and contents in
/// the same order, under the same budget, compact to the same lines and
/// statistics.
pub proof fn law_compaction_deterministic(
    e1: Seq<MemoryEntry>,
    e2: Seq<MemoryEntry>,
    budget: CompressionBudget,
)
    requires
        entry_views(e1) == entry_views(e2),
    ensures
        compact(entry_views(e1), budget) == compact(entry_views(e2), budget),
{
}

/// An entry as compaction compares it for de-duplication: its key and its
/// normalized content truncated to the per-entry limit.
pub open spec fn compacted_pair(e: (Seq<char>, Seq<char>), budget: CompressionBudget) -> (
    Seq<char>,
    Seq<char>,
) {
    (e.0, truncated(normalize(e.1), budget.max_entry_chars as nat).0)
}

/// Every pair compaction has seen is the compacted pair of one of the
/// entries.
proof fn lemma_seen_from_entries(es: Seq<(Seq<char>, Seq<char>)>, budget: CompressionBudget)
    ensures
        forall|x: (Seq<char>, Seq<char>)|
            #[trigger] compact(es, budget).seen.contains(x) ==> exists|j: int|
                0 <= j < es.len() && x == compacted_pair(es[j], budget),
    decreases es.len(),
{
    if es.len() > 0 {
        let pre = es.drop_last();
        lemma_seen_from_entries(pre, budget);
        let e = es.last();
        assert forall|x: (Seq<char>, Seq<char>)|
            #[trigger] compact(es, budget).seen.contains(x) implies exists|j: int|
                0 <= j < es.len() && x == compacted_pair(es[j], budget) by {
            if compact(pre, budget).seen.contains(x) {
                let j = choose|j: int| 0 <= j < pre.len() && x == compacted_pair(pre[j], budget);
                assert(es[j] == pre[j]);
            } else {
                assert(x == compacted_pair(es[es.len() - 1], budget));
            }
        }
    }
}

/// De-duplication drops an entry only when an earlier entry has the same
/// key and the same compacted content: when no two entries agree on both,
/// nothing is counted as a duplicate. In particular entries with different
/// keys are never duplicates of each other, whatever their contents.
pub proof fn law_duplicates_need_same_key_and_content(
    es: Seq<(Seq<char>, Seq<char>)>,
    budget: CompressionBudget,
)
    requires
        forall|i: int, j: int|
            0 <= i < j < es.len() ==> compacted_pair(#[trigger] es[i], budget) != compacted_pair(
                #[trigger] es[j],
                budget,
            ),
    ensures
        compact(es, budget).removed_duplicates == 0,
    decreases es.len(),
{
    if es.len() > 0 {
        let pre = es.drop_last();
        assert forall|i: int, j: int| 0 <= i < j < pre.len() implies compacted_pair(
            #[trigger] pre[i],
            budget,
        ) != compacted_pair(#[trigger] pre[j], budget) by {
            assert(pre[i] == es[i] && pre[j] == es[j]);
        }
        law_duplicates_need_same_key_and_content(pre, budget);
        lemma_seen_from_entries(pre, budget);
        let e = es.last();
        let k = compacted_pair(e, budget);
        if compact(pre, budget).seen.contains(k) {
            let j = choose|j: int| 0 <= j < pre.len() && k == compacted_pair(pre[j], budget);
            assert(pre[j] == es[j]);
            assert(compacted_pair(es[j], budget) != compacted_pair(es[es.len() - 1], budget));
        }
    }
}

/// Entries whose keys are pairwise different are never de-duplicated,
/// whatever their contents.
pub proof fn law_distinct_keys_never_duplicates(
    es: Seq<(Seq<char>, Seq<char>)>,
    budget: CompressionBudget,
)
    requires
        forall|i: int, j: int| 0 <= i < j < es.len() ==> (#[trigger] es[i]).0 != (#[trigger] es[j]).0,
    ensures
        compact(es, budget).removed_duplicates == 0,
{
    assert forall|i: int, j: int| 0 <= i < j < es.len() implies compacted_pair(
        #[trigger] es[i],
        budget,
    ) != compacted_pair(#[trigger] es[j], budget) by {
        assert(es[i].0 != es[j].0);
    }
    law_duplicates_need_same_key_and_content(es, budget);
}

/// Truncation keeps the start of the text: a text within the limit is
/// kept whole; a longer one becomes its first `max` characters followed by
/// the ellipsis.
pub proof fn law_truncation_keeps_prefix(s: Seq<char>, max: nat)
    ensures
        truncated(s, max).1 <==> s.len() > max,
        !truncated(s, max).1 ==> truncated(s, max).0 == s,
        truncated(s, max).1 ==> truncated(s, max).0.len() == max + 1 && truncated(s, max).0.take(
            max as int,
        ) == s.take(max as int) && truncated(s, max).0.last() == '\u{2026}',
{
    if s.len() > max {
        assert(truncated(s, max).0.take(max as int) =~= s.take(max as int));
    }
}

} // verus!
