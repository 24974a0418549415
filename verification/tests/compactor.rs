use zeroclaw::compactor::{
    compact_memory_entries, normalize_whitespace, truncate_with_ellipsis, CompressionBudget,
    MemoryEntry,
};

fn entry(key: &str, content: &str) -> MemoryEntry {
    MemoryEntry { key: key.to_string(), content: content.to_string() }
}

#[test]
fn compactor_deduplicates_and_respects_budget() {
    let entries = vec![
        entry("a", "same content"),
        entry("a", "same content"),
        entry("b", "another content"),
    ];

    let result = compact_memory_entries(
        &entries,
        CompressionBudget { max_chars: 60, max_entries: 2, max_entry_chars: 20 },
    );

    assert_eq!(result.lines.len(), 2);
    assert_eq!(result.stats.removed_duplicates, 1);
}

#[test]
fn compactor_truncates_long_entries() {
    let entries = vec![entry("a", "01234567890123456789")];
    let result = compact_memory_entries(
        &entries,
        CompressionBudget { max_chars: 100, max_entries: 4, max_entry_chars: 10 },
    );

    assert_eq!(result.lines.len(), 1);
    assert!(result.lines[0].content.ends_with('…'));
    assert_eq!(result.stats.truncated_entries, 1);
}

#[test]
fn compactor_default_budget() {
    let b = CompressionBudget::default();
    assert_eq!(b.max_chars, 4_000);
    assert_eq!(b.max_entries, 4);
    assert_eq!(b.max_entry_chars, 800);
}

#[test]
fn compactor_stats_exact() {
    let entries = vec![
        entry("k1", "  hello   world \n"),
        entry("k2", "   \t "),
        entry("k1", "hello world"),
        entry("k3", "abcdefghijkl"),
        entry("k4", "x"),
    ];
    let result = compact_memory_entries(
        &entries,
        CompressionBudget { max_chars: 1000, max_entries: 3, max_entry_chars: 5 },
    );
    // k1 kept (normalized, truncated), k2 empty -> omitted, k1 duplicate,
    // k3 kept (truncated), k4 kept.
    assert_eq!(result.lines.len(), 3);
    assert_eq!(result.lines[0].key, "k1");
    assert_eq!(result.lines[0].content, "hello…");
    assert_eq!(result.lines[1].content, "abcde…");
    assert_eq!(result.lines[2].content, "x");
    assert_eq!(result.stats.original_entries, 5);
    assert_eq!(result.stats.kept_entries, 3);
    assert_eq!(result.stats.removed_duplicates, 1);
    assert_eq!(result.stats.omitted_entries, 1);
    assert_eq!(result.stats.truncated_entries, 3);
    assert_eq!(result.stats.original_chars, 17 + 5 + 11 + 12 + 1);
    assert_eq!(result.stats.compressed_chars, (2 + 6 + 4) + (2 + 6 + 4) + (2 + 1 + 4));
    assert_eq!(
        result.stats.kept_entries + result.stats.removed_duplicates + result.stats.omitted_entries,
        result.stats.original_entries
    );
}

#[test]
fn compactor_omits_entries_over_char_budget() {
    let entries = vec![entry("a", "12345"), entry("b", "67890"), entry("c", "1")];
    // each of the first two lines counts 1 + 5 + 4 = 10 characters
    let result = compact_memory_entries(
        &entries,
        CompressionBudget { max_chars: 16, max_entries: 10, max_entry_chars: 100 },
    );
    assert_eq!(result.lines.len(), 2);
    assert_eq!(result.lines[0].key, "a");
    assert_eq!(result.lines[1].key, "c");
    assert_eq!(result.stats.omitted_entries, 1);
    assert_eq!(result.stats.compressed_chars, 10 + 6);
    assert!(result.stats.compressed_chars <= 16);
}

#[test]
fn compactor_empty_input() {
    let result = compact_memory_entries(&[], CompressionBudget::default());
    assert!(result.lines.is_empty());
    assert_eq!(result.stats.original_entries, 0);
    assert_eq!(result.stats.compressed_chars, 0);
}

#[test]
fn normalize_whitespace_collapses_runs() {
    assert_eq!(normalize_whitespace("  a \t b\n\nc  "), "a b c");
    assert_eq!(normalize_whitespace(""), "");
    assert_eq!(normalize_whitespace(" \u{3000}x\u{a0}y "), "x y");
}

#[test]
fn truncate_with_ellipsis_cases() {
    assert_eq!(truncate_with_ellipsis("abcdef", 3), ("abc…".to_string(), true));
    assert_eq!(truncate_with_ellipsis("abc", 3), ("abc".to_string(), false));
    assert_eq!(truncate_with_ellipsis("héllo", 2), ("hé…".to_string(), true));
    assert_eq!(truncate_with_ellipsis("abc", 0), ("…".to_string(), true));
}

#[test]
fn compactor_keys_and_contents_are_compared_as_pairs() {
    let entries = vec![entry("a:", "x"), entry("a", ":x"), entry("a", ":x")];
    let result = compact_memory_entries(&entries, CompressionBudget::default());
    assert_eq!(result.lines.len(), 2);
    assert_eq!(result.lines[0].key, "a:");
    assert_eq!(result.lines[0].content, "x");
    assert_eq!(result.lines[1].key, "a");
    assert_eq!(result.lines[1].content, ":x");
    assert_eq!(result.stats.removed_duplicates, 1);
}
