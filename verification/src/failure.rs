//! The failure registry: structured failure records with fingerprinting,
//! occurrence counting and resolution status.
use vstd::prelude::*;

use crate::string_map::StringMap;
use crate::text::{
    all_ascii, ascii_lower, ascii_upper, cat, chars_eq, chars_lt,
    chars_of, owned, seq_lt, str_eq, trim, trim_chars, string_of,
};

verus! {

/// How severe a failure is, from least to most severe.
#[derive(Debug, Clone, Copy, PartialEq, Eq, Structural)]
pub enum FailureSeverity {
    Low,
    Medium,
    High,
    Critical,
}

/// Which part of the system a failure belongs to.
#[derive(Debug, Clone, Copy, PartialEq, Eq, Structural)]
pub enum FailureKind {
    Provider,
    Compact,
    Session,
    Channel,
    Memory,
    Config,
    Tool,
    Resource,
    Unknown,
}

/// The rank of a severity: low 1, medium 2, high 3, critical 4.
pub open spec fn severity_rank(s: FailureSeverity) -> int {
    match s {
        FailureSeverity::Low => 1,
        FailureSeverity::Medium => 2,
        FailureSeverity::High => 3,
        FailureSeverity::Critical => 4,
    }
}

impl FailureSeverity {
    /// The rank of the severity: low 1, medium 2, high 3, critical 4.
    pub fn rank(self) -> (r: u8)
        ensures
            r == severity_rank(self),
    {
        match self {
            FailureSeverity::Low => 1,
            FailureSeverity::Medium => 2,
            FailureSeverity::High => 3,
            FailureSeverity::Critical => 4,
        }
    }
}

/// What `str::to_lowercase` returns for a string: its Unicode lower case.
pub uninterp spec fn lowercase(s: Seq<char>) -> Seq<char>;

/// `str::to_lowercase`: the Unicode lower case of `s`; its result is named
/// `lowercase(s@)`. Of a string made of ASCII characters only, the
/// documentation of `to_lowercase` (lower case as Unicode defines it) gives
/// the ASCII lower case: `A`..`Z` become `a`..`z`, every other ASCII
/// character stays. Nothing more is stated of other strings.
#[verifier::external_body]
fn to_lowercase(s: &str) -> (r: String)
    ensures
        r@ == lowercase(s@),
        all_ascii(s@) ==> r@ == ascii_lower(s@),
{
    s.to_lowercase()
}

/// The lower case of the trimmed text.
fn folded(s: &str) -> (r: Vec<char>)
    ensures
        r@ == lowercase(trim(s@)),
        all_ascii(s@) ==> r@ == ascii_lower(trim(s@)),
{
    let v = chars_of(s);
    let t = trim_chars(&v);
    let ts = string_of(&t);
    proof {
        if all_ascii(s@) {
            assert forall|i: int| 0 <= i < t@.len() implies (#[trigger] t@[i] as u32) < 128 by {
                assert(v@.contains(t@[i]));
                let j = choose|j: int| 0 <= j < v@.len() && v@[j] == t@[i];
                assert((v@[j] as u32) < 128);
            }
        }
    }
    let l = to_lowercase(ts.as_str());
    chars_of(l.as_str())
}

/// The severity a trimmed, lower-cased name names: "low"; "medium", "warn"
/// or "warning"; "high" or "error"; "critical".
pub open spec fn severity_of_name(t: Seq<char>) -> Option<FailureSeverity> {
    if t == "low"@ {
        Some(FailureSeverity::Low)
    } else if t == "medium"@ || t == "warn"@ || t == "warning"@ {
        Some(FailureSeverity::Medium)
    } else if t == "high"@ || t == "error"@ {
        Some(FailureSeverity::High)
    } else if t == "critical"@ {
        Some(FailureSeverity::Critical)
    } else {
        None
    }
}

/// The severity a text names, after trimming and lower-casing (see
/// `severity_of_name`).
pub open spec fn severity_from_text(s: Seq<char>) -> Option<FailureSeverity> {
    severity_of_name(lowercase(trim(s)))
}

/// The kind a trimmed, lower-cased name names; "tools" and "resources" are
/// accepted for tool and resource.
pub open spec fn kind_of_name(t: Seq<char>) -> Option<FailureKind> {
    if t == "provider"@ {
        Some(FailureKind::Provider)
    } else if t == "compact"@ {
        Some(FailureKind::Compact)
    } else if t == "session"@ {
        Some(FailureKind::Session)
    } else if t == "channel"@ {
        Some(FailureKind::Channel)
    } else if t == "memory"@ {
        Some(FailureKind::Memory)
    } else if t == "config"@ {
        Some(FailureKind::Config)
    } else if t == "tool"@ || t == "tools"@ {
        Some(FailureKind::Tool)
    } else if t == "resource"@ || t == "resources"@ {
        Some(FailureKind::Resource)
    } else if t == "unknown"@ {
        Some(FailureKind::Unknown)
    } else {
        None
    }
}

/// The kind a text names, after trimming and lower-casing (see
/// `kind_of_name`).
pub open spec fn kind_from_text(s: Seq<char>) -> Option<FailureKind> {
    kind_of_name(lowercase(trim(s)))
}

fn seq_is(v: &Vec<char>, w: &str) -> (b: bool)
    ensures
        b == (v@ == w@),
{
    let x = chars_of(w);
    chars_eq(v, &x)
}

/// The severity a trimmed, lower-cased name names (see `severity_of_name`).
pub fn severity_from_name(t: &str) -> (r: Option<FailureSeverity>)
    ensures
        r == severity_of_name(t@),
{
    let t = chars_of(t);
    if seq_is(&t, "low") {
        Some(FailureSeverity::Low)
    } else if seq_is(&t, "medium") || seq_is(&t, "warn") || seq_is(&t, "warning") {
        Some(FailureSeverity::Medium)
    } else if seq_is(&t, "high") || seq_is(&t, "error") {
        Some(FailureSeverity::High)
    } else if seq_is(&t, "critical") {
        Some(FailureSeverity::Critical)
    } else {
        None
    }
}

/// The kind a trimmed, lower-cased name names (see `kind_of_name`).
pub fn kind_from_name(t: &str) -> (r: Option<FailureKind>)
    ensures
        r == kind_of_name(t@),
{
    let t = chars_of(t);
    if seq_is(&t, "provider") {
        Some(FailureKind::Provider)
    } else if seq_is(&t, "compact") {
        Some(FailureKind::Compact)
    } else if seq_is(&t, "session") {
        Some(FailureKind::Session)
    } else if seq_is(&t, "channel") {
        Some(FailureKind::Channel)
    } else if seq_is(&t, "memory") {
        Some(FailureKind::Memory)
    } else if seq_is(&t, "config") {
        Some(FailureKind::Config)
    } else if seq_is(&t, "tool") || seq_is(&t, "tools") {
        Some(FailureKind::Tool)
    } else if seq_is(&t, "resource") || seq_is(&t, "resources") {
        Some(FailureKind::Resource)
    } else if seq_is(&t, "unknown") {
        Some(FailureKind::Unknown)
    } else {
        None
    }
}

/// Parses a severity name (see `severity_from_text`); for ASCII text the
/// case of its letters does not matter.
pub fn parse_severity(s: &str) -> (r: Option<FailureSeverity>)
    ensures
        r == severity_from_text(s@),
        all_ascii(s@) ==> r == severity_of_name(ascii_lower(trim(s@))),
{
    let t = folded(s);
    let ts = string_of(&t);
    severity_from_name(ts.as_str())
}

/// Parses a kind name (see `kind_from_text`); for ASCII text the case of
/// its letters does not matter.
pub fn parse_kind(s: &str) -> (r: Option<FailureKind>)
    ensures
        r == kind_from_text(s@),
        all_ascii(s@) ==> r == kind_of_name(ascii_lower(trim(s@))),
{
    let t = folded(s);
    let ts = string_of(&t);
    kind_from_name(ts.as_str())
}

impl core::str::FromStr for FailureSeverity {
    type Err = ();

    fn from_str(s: &str) -> (r: Result<Self, ()>)
        ensures
            r is Ok <==> severity_from_text(s@) is Some,
            r matches Ok(v) ==> severity_from_text(s@) == Some(v),
            all_ascii(s@) ==> (r is Ok <==> severity_of_name(ascii_lower(trim(s@))) is Some),
            all_ascii(s@) ==> (r matches Ok(v) ==> severity_of_name(ascii_lower(trim(s@)))
                == Some(v)),
    {
        match parse_severity(s) {
            Some(v) => Ok(v),
            None => Err(()),
        }
    }
}

impl core::str::FromStr for FailureKind {
    type Err = ();

    fn from_str(s: &str) -> (r: Result<Self, ()>)
        ensures
            r is Ok <==> kind_from_text(s@) is Some,
            r matches Ok(v) ==> kind_from_text(s@) == Some(v),
            all_ascii(s@) ==> (r is Ok <==> kind_of_name(ascii_lower(trim(s@))) is Some),
            all_ascii(s@) ==> (r matches Ok(v) ==> kind_of_name(ascii_lower(trim(s@))) == Some(v)),
    {
        match parse_kind(s) {
            Some(v) => Ok(v),
            None => Err(()),
        }
    }
}

/// The name of a kind as `{:?}` prints it.
pub open spec fn kind_name(k: FailureKind) -> Seq<char> {
    match k {
        FailureKind::Provider => "Provider"@,
        FailureKind::Compact => "Compact"@,
        FailureKind::Session => "Session"@,
        FailureKind::Channel => "Channel"@,
        FailureKind::Memory => "Memory"@,
        FailureKind::Config => "Config"@,
        FailureKind::Tool => "Tool"@,
        FailureKind::Resource => "Resource"@,
        FailureKind::Unknown => "Unknown"@,
    }
}

/// The name of a kind as `{:?}` prints it.
pub fn kind_name_of(k: FailureKind) -> (r: &'static str)
    ensures
        r@ == kind_name(k),
{
    match k {
        FailureKind::Provider => "Provider",
        FailureKind::Compact => "Compact",
        FailureKind::Session => "Session",
        FailureKind::Channel => "Channel",
        FailureKind::Memory => "Memory",
        FailureKind::Config => "Config",
        FailureKind::Tool => "Tool",
        FailureKind::Resource => "Resource",
        FailureKind::Unknown => "Unknown",
    }
}

/// The fingerprint of a failure: its kind's name, `::`, and its trimmed
/// message.
pub open spec fn fingerprint_of(kind: FailureKind, message: Seq<char>) -> Seq<char> {
    kind_name(kind) + "::"@ + trim(message)
}

/// The fingerprint of a failure (see `fingerprint_of`).
pub fn fingerprint(kind: FailureKind, message: &str) -> (r: String)
    ensures
        r@ == fingerprint_of(kind, message@),
{
    let v = chars_of(message);
    let t = trim_chars(&v);
    let ts = string_of(&t);
    let a = cat(kind_name_of(kind), "::");
    cat(a.as_str(), ts.as_str())
}

/// A recorded failure.
pub struct FailureRecord {
    pub id: String,
    pub kind: FailureKind,
    pub severity: FailureSeverity,
    pub message: String,
    pub context: StringMap,
    pub first_seen: String,
    pub last_seen: String,
    pub occurrences: u64,
    pub resolved: bool,
    pub resolution: Option<String>,
}

/// The contents of a failure record, as mathematical values.
pub struct RecordView {
    pub id: Seq<char>,
    pub kind: FailureKind,
    pub severity: FailureSeverity,
    pub message: Seq<char>,
    pub context: Map<Seq<char>, Seq<char>>,
    pub first_seen: Seq<char>,
    pub last_seen: Seq<char>,
    pub occurrences: u64,
    pub resolved: bool,
    pub resolution: Option<Seq<char>>,
}

/// The characters of an optional string.
pub open spec fn opt_view(o: Option<String>) -> Option<Seq<char>> {
    match o {
        Some(s) => Some(s@),
        None => None,
    }
}

impl View for FailureRecord {
    type V = RecordView;

    open spec fn view(&self) -> RecordView {
        RecordView {
            id: self.id@,
            kind: self.kind,
            severity: self.severity,
            message: self.message@,
            context: self.context@,
            first_seen: self.first_seen@,
            last_seen: self.last_seen@,
            occurrences: self.occurrences,
            resolved: self.resolved,
            resolution: opt_view(self.resolution),
        }
    }
}

fn clone_opt(o: &Option<String>) -> (r: Option<String>)
    ensures
        opt_view(r) == opt_view(*o),
{
    match o {
        Some(s) => Some(s.clone()),
        None => None,
    }
}

impl Clone for FailureRecord {
    fn clone(&self) -> (r: Self)
        ensures
            r@ == self@,
    {
        FailureRecord {
            id: self.id.clone(),
            kind: self.kind,
            severity: self.severity,
            message: self.message.clone(),
            context: self.context.clone(),
            first_seen: self.first_seen.clone(),
            last_seen: self.last_seen.clone(),
            occurrences: self.occurrences,
            resolved: self.resolved,
            resolution: clone_opt(&self.resolution),
        }
    }
}

/// What `list_failures` selects and how many it returns (0 means 20).
#[derive(Debug, Clone, Default)]
pub struct FailureFilter {
    pub kind: Option<FailureKind>,
    pub min_severity: Option<FailureSeverity>,
    pub unresolved_only: bool,
    pub limit: usize,
}

/// The failure records, each under its id.
pub struct FailureRegistry {
    records: Vec<FailureRecord>,
}

/// Record `r` is unresolved and has `kind` and `message`.
pub open spec fn is_open_match(r: RecordView, kind: FailureKind, message: Seq<char>) -> bool {
    !r.resolved && r.kind == kind && r.message == message
}

/// Id `k` is at index `i` of `rs`.
pub open spec fn id_at(rs: Seq<FailureRecord>, k: Seq<char>, i: int) -> bool {
    0 <= i < rs.len() && rs[i].id@ == k
}

/// No id occurs twice in `rs`.
pub open spec fn ids_unique(rs: Seq<FailureRecord>) -> bool {
    forall|i: int, j: int|
        #![trigger rs[i], rs[j]]
        0 <= i < rs.len() && 0 <= j < rs.len() && i != j ==> rs[i].id@ != rs[j].id@
}

/// No two records of `rs` are unresolved with the same kind and message.
pub open spec fn one_open_per_message(rs: Seq<FailureRecord>) -> bool {
    forall|i: int, j: int|
        #![trigger rs[i], rs[j]]
        0 <= i < rs.len() && 0 <= j < rs.len() && i != j && !rs[i].resolved && !rs[j].resolved
            && rs[i].kind == rs[j].kind ==> rs[i].message@ != rs[j].message@
}

/// The records of `rs` under their ids.
pub open spec fn records_map(rs: Seq<FailureRecord>) -> Map<Seq<char>, RecordView> {
    Map::new(
        |k: Seq<char>| exists|i: int| id_at(rs, k, i),
        |k: Seq<char>| rs[choose|i: int| id_at(rs, k, i)]@,
    )
}

/// No two records of the map are unresolved with the same kind and message.
pub open spec fn map_one_open(m: Map<Seq<char>, RecordView>) -> bool {
    forall|a: Seq<char>, b: Seq<char>|
        #![trigger m[a], m[b]]
        m.contains_key(a) && m.contains_key(b) && a != b && !m[a].resolved && !m[b].resolved
            && m[a].kind == m[b].kind ==> m[a].message != m[b].message
}

/// Every record is stored under its own id.
pub open spec fn map_keys_are_ids(m: Map<Seq<char>, RecordView>) -> bool {
    forall|k: Seq<char>| #[trigger] m.contains_key(k) ==> m[k].id == k
}

pub proof fn lemma_records_map_at(rs: Seq<FailureRecord>, i: int)
    requires
        ids_unique(rs),
        0 <= i < rs.len(),
    ensures
        records_map(rs).contains_key(rs[i].id@),
        records_map(rs)[rs[i].id@] == rs[i]@,
{
    let k = rs[i].id@;
    assert(id_at(rs, k, i));
    let j = choose|j: int| id_at(rs, k, j);
    assert(rs[j].id@ == rs[i].id@);
}

proof fn lemma_records_map_update(rs: Seq<FailureRecord>, i: int, r: FailureRecord)
    requires
        ids_unique(rs),
        0 <= i < rs.len(),
        r.id@ == rs[i].id@,
    ensures
        ids_unique(rs.update(i, r)),
        records_map(rs.update(i, r)) == records_map(rs).insert(r.id@, r@),
{
    let ns = rs.update(i, r);
    assert forall|a: int, b: int|
        0 <= a < ns.len() && 0 <= b < ns.len() && a != b implies #[trigger] ns[a].id@
        != #[trigger] ns[b].id@ by {
        assert(rs[a].id@ != rs[b].id@);
    }
    let m = records_map(rs).insert(r.id@, r@);
    assert forall|k: Seq<char>| records_map(ns).contains_key(k) <==> m.contains_key(k) by {
        if records_map(ns).contains_key(k) {
            let j = choose|j: int| id_at(ns, k, j);
            assert(id_at(rs, k, j));
        }
        if records_map(rs).contains_key(k) {
            let j = choose|j: int| id_at(rs, k, j);
            assert(id_at(ns, k, j));
        }
        if k == r.id@ {
            assert(id_at(ns, k, i));
        }
    }
    assert forall|k: Seq<char>| #[trigger]
        records_map(ns).contains_key(k) implies records_map(ns)[k] == m[k] by {
        let j = choose|j: int| id_at(ns, k, j);
        lemma_records_map_at(ns, j);
        if j != i {
            lemma_records_map_at(rs, j);
        }
    }
    assert(records_map(ns) =~= m);
}

proof fn lemma_records_map_push(rs: Seq<FailureRecord>, r: FailureRecord)
    requires
        ids_unique(rs),
        !records_map(rs).contains_key(r.id@),
    ensures
        ids_unique(rs.push(r)),
        records_map(rs.push(r)) == records_map(rs).insert(r.id@, r@),
{
    let ns = rs.push(r);
    let n = rs.len() as int;
    assert forall|a: int, b: int|
        0 <= a < ns.len() && 0 <= b < ns.len() && a != b implies #[trigger] ns[a].id@
        != #[trigger] ns[b].id@ by {
        if a < n && b < n {
            assert(rs[a].id@ != rs[b].id@);
        } else if a == n {
            assert(!id_at(rs, r.id@, b));
        } else {
            assert(!id_at(rs, r.id@, a));
        }
    }
    let m = records_map(rs).insert(r.id@, r@);
    assert forall|k: Seq<char>| records_map(ns).contains_key(k) <==> m.contains_key(k) by {
        if records_map(ns).contains_key(k) {
            let j = choose|j: int| id_at(ns, k, j);
            if j < n {
                assert(id_at(rs, k, j));
            }
        }
        if records_map(rs).contains_key(k) {
            let j = choose|j: int| id_at(rs, k, j);
            assert(id_at(ns, k, j));
        }
        if k == r.id@ {
            assert(id_at(ns, k, n));
        }
    }
    assert forall|k: Seq<char>| #[trigger]
        records_map(ns).contains_key(k) implies records_map(ns)[k] == m[k] by {
        let j = choose|j: int| id_at(ns, k, j);
        lemma_records_map_at(ns, j);
        if j < n {
            lemma_records_map_at(rs, j);
        }
    }
    assert(records_map(ns) =~= m);
}

proof fn lemma_map_props(rs: Seq<FailureRecord>)
    requires
        ids_unique(rs),
        one_open_per_message(rs),
    ensures
        map_one_open(records_map(rs)),
        map_keys_are_ids(records_map(rs)),
{
    let m = records_map(rs);
    assert forall|k: Seq<char>| #[trigger] m.contains_key(k) implies m[k].id == k by {
        let j = choose|j: int| id_at(rs, k, j);
        lemma_records_map_at(rs, j);
    }
    assert forall|a: Seq<char>, b: Seq<char>|
        m.contains_key(a) && m.contains_key(b) && a != b && !m[a].resolved && !m[b].resolved
            && m[a].kind == m[b].kind implies #[trigger] m[a].message != #[trigger] m[b].message by {
        let i = choose|i: int| id_at(rs, a, i);
        let j = choose|j: int| id_at(rs, b, j);
        lemma_records_map_at(rs, i);
        lemma_records_map_at(rs, j);
        assert(rs[i]@ == m[a]);
        assert(rs[j]@ == m[b]);
    }
}

impl View for FailureRegistry {
    type V = Map<Seq<char>, RecordView>;

    closed spec fn view(&self) -> Map<Seq<char>, RecordView> {
        records_map(self.records@)
    }
}

/// The record that the registry holds as `record_failure` leaves it when
/// `existing` is the unresolved record with the same kind and message: one
/// more occurrence (saturating), seen at `now`, the higher severity of the
/// two, and the context extended by `context`.
pub open spec fn bumped(
    existing: RecordView,
    severity: FailureSeverity,
    context: Map<Seq<char>, Seq<char>>,
    now: Seq<char>,
) -> RecordView {
    RecordView {
        occurrences: if existing.occurrences == u64::MAX {
            u64::MAX
        } else {
            (existing.occurrences + 1) as u64
        },
        last_seen: now,
        severity: if severity_rank(severity) > severity_rank(existing.severity) {
            severity
        } else {
            existing.severity
        },
        context: existing.context.union_prefer_right(context),
        ..existing
    }
}

/// A new record as `record_failure` creates it: one occurrence, first and
/// last seen at `now`, unresolved, with the fingerprint under "fingerprint"
/// in its context unless `context` sets that key.
pub open spec fn fresh(
    id: Seq<char>,
    kind: FailureKind,
    severity: FailureSeverity,
    message: Seq<char>,
    context: Map<Seq<char>, Seq<char>>,
    now: Seq<char>,
) -> RecordView {
    RecordView {
        id,
        kind,
        severity,
        message,
        context: map![ "fingerprint"@ => fingerprint_of(kind, message) ].union_prefer_right(context),
        first_seen: now,
        last_seen: now,
        occurrences: 1,
        resolved: false,
        resolution: None,
    }
}

/// Some unresolved record of `m` has `kind` and `message`.
pub open spec fn has_open(m: Map<Seq<char>, RecordView>, kind: FailureKind, message: Seq<char>) -> bool {
    exists|k: Seq<char>| #[trigger] m.contains_key(k) && is_open_match(m[k], kind, message)
}

/// Recording a failure at `now` takes the registry from `m0` to `m1` and
/// returns `id`: when `m0` has an unresolved record of the same kind and
/// message, `id` is that record's and the record is bumped (see `bumped`);
/// otherwise `id` is `new_id` and a fresh record (see `fresh`) is stored
/// under it.
pub open spec fn record_post(
    m0: Map<Seq<char>, RecordView>,
    m1: Map<Seq<char>, RecordView>,
    id: Seq<char>,
    kind: FailureKind,
    severity: FailureSeverity,
    message: Seq<char>,
    context: Map<Seq<char>, Seq<char>>,
    now: Seq<char>,
    new_id: Seq<char>,
) -> bool {
    if has_open(m0, kind, message) {
        &&& m0.contains_key(id)
        &&& is_open_match(m0[id], kind, message)
        &&& m1 == m0.insert(id, bumped(m0[id], severity, context, now))
    } else {
        &&& id == new_id
        &&& m1 == m0.insert(id, fresh(id, kind, severity, message, context, now))
    }
}

/// Resolving `id` at `now` with `resolution` takes the registry from `m0`
/// to `m1` and answers `found`: whether there is such a record; if so it is
/// marked resolved, with the resolution and `now` as its last-seen time;
/// otherwise nothing changes.
pub open spec fn resolve_post(
    m0: Map<Seq<char>, RecordView>,
    m1: Map<Seq<char>, RecordView>,
    id: Seq<char>,
    found: bool,
    resolution: Option<Seq<char>>,
    now: Seq<char>,
) -> bool {
    &&& found == m0.contains_key(id)
    &&& found ==> m1 == m0.insert(
        id,
        RecordView { resolved: true, resolution, last_seen: now, ..m0[id] },
    )
    &&& !found ==> m1 == m0
}

/// `r` passes `filter`.
pub open spec fn passes(r: RecordView, filter: FailureFilter) -> bool {
    &&& !(filter.unresolved_only && r.resolved)
    &&& filter.kind matches Some(k) ==> r.kind == k
    &&& filter.min_severity matches Some(m) ==> severity_rank(r.severity) >= severity_rank(m)
}

/// Listing order: most recently seen first, then by id.
pub open spec fn listed_before(a: RecordView, b: RecordView) -> bool {
    seq_lt(b.last_seen, a.last_seen) || (a.last_seen == b.last_seen && seq_lt(a.id, b.id))
}

/// How many records `list_failures` returns at most: `limit`, or 20 when
/// `limit` is 0.
pub open spec fn effective_limit(filter: FailureFilter) -> nat {
    if filter.limit == 0 {
        20
    } else {
        filter.limit as nat
    }
}

/// `chrono::Utc::now().to_rfc3339()`: the current time in RFC 3339. It
/// depends on the clock, so nothing is stated of it.
#[verifier::external_body]
fn now_rfc3339() -> (r: String) {
    chrono::Utc::now().to_rfc3339()
}

/// `uuid::Uuid::new_v4().to_string()`: a random UUID in hyphenated form,
/// which has 36 characters.
#[verifier::external_body]
fn new_uuid() -> (r: String)
    ensures
        r@.len() == 36,
{
    uuid::Uuid::new_v4().to_string()
}

impl FailureRegistry {
    #[verifier::type_invariant]
    spec fn inv(self) -> bool {
        &&& ids_unique(self.records@)
        &&& one_open_per_message(self.records@)
    }

    /// An empty registry.
    pub fn new() -> (r: Self)
        ensures
            r@ == Map::<Seq<char>, RecordView>::empty(),
    {
        let r = FailureRegistry { records: Vec::new() };
        assert(r@ =~= Map::<Seq<char>, RecordView>::empty());
        r
    }

    fn index_of(&self, id: &str) -> (r: Option<usize>)
        ensures
            r matches Some(i) ==> id_at(self.records@, id@, i as int),
            r is None ==> !self@.contains_key(id@),
    {
        let mut i: usize = 0;
        while i < self.records.len()
            invariant
                0 <= i <= self.records.len(),
                forall|j: int| 0 <= j < i ==> !id_at(self.records@, id@, j),
            decreases self.records.len() - i,
        {
            if str_eq(self.records[i].id.as_str(), id) {
                return Some(i);
            }
            i = i + 1;
        }
        None
    }

    fn open_index(&self, kind: FailureKind, message: &str) -> (r: Option<usize>)
        ensures
            r matches Some(i) ==> i < self.records.len() && is_open_match(
                self.records@[i as int]@,
                kind,
                message@,
            ),
            r is None ==> forall|j: int|
                0 <= j < self.records.len() ==> !is_open_match(
                    #[trigger] self.records@[j]@,
                    kind,
                    message@,
                ),
    {
        let mut i: usize = 0;
        while i < self.records.len()
            invariant
                0 <= i <= self.records.len(),
                forall|j: int|
                    0 <= j < i ==> !is_open_match(#[trigger] self.records@[j]@, kind, message@),
            decreases self.records.len() - i,
        {
            let r = &self.records[i];
            if !r.resolved && r.kind == kind && str_eq(r.message.as_str(), message) {
                return Some(i);
            }
            i = i + 1;
        }
        None
    }
}

/// Records a failure at time `now`. When an unresolved record of the same
/// kind and message exists, it is bumped (see `bumped`) and its id returned;
/// otherwise a new record (see `fresh`) is stored under `new_id`, replacing
/// any record with that id, and `new_id` is returned.
pub fn record_failure_at(
    registry: &mut FailureRegistry,
    kind: FailureKind,
    severity: FailureSeverity,
    message: String,
    context: &StringMap,
    now: String,
    new_id: String,
) -> (id: String)
    ensures
        record_post(
            old(registry)@,
            final(registry)@,
            id@,
            kind,
            severity,
            message@,
            context@,
            now@,
            new_id@,
        ),
{
    proof {
        use_type_invariant(&*registry);
    }
    let ghost old_map = registry@;
    let ghost old_rs = registry.records@;
    match registry.open_index(kind, message.as_str()) {
        Some(i) => {
            let mut rec = registry.records[i].clone();
            rec.occurrences = rec.occurrences.saturating_add(1);
            rec.last_seen = now;
            if severity.rank() > rec.severity.rank() {
                rec.severity = severity;
            }
            rec.context.extend_from(context);
            let id = rec.id.clone();
            proof {
                lemma_records_map_at(old_rs, i as int);
                lemma_records_map_update(old_rs, i as int, rec);
                let ns = old_rs.update(i as int, rec);
                assert(one_open_per_message(ns)) by {
                    assert forall|a: int, b: int|
                        0 <= a < ns.len() && 0 <= b < ns.len() && a != b && !ns[a].resolved
                            && !ns[b].resolved && ns[a].kind == ns[b].kind implies #[trigger] ns[a].message@
                        != #[trigger] ns[b].message@ by {
                        assert(old_rs[a].kind == ns[a].kind && old_rs[a].message@ == ns[a].message@);
                        assert(old_rs[b].kind == ns[b].kind && old_rs[b].message@ == ns[b].message@);
                    }
                }
                assert(rec@ =~= bumped(old_map[id@], severity, context@, now@));
            }
            let mut rs: Vec<FailureRecord> = Vec::new();
            std::mem::swap(&mut rs, &mut registry.records);
            rs.set(i, rec);
            registry.records = rs;
            id
        },
        None => {
            let fp = fingerprint(kind, message.as_str());
            let mut ctx = StringMap::new();
            ctx.insert(owned("fingerprint"), fp);
            ctx.extend_from(context);
            let id = new_id.clone();
            let rec = FailureRecord {
                id: new_id,
                kind,
                severity,
                message,
                context: ctx,
                first_seen: now.clone(),
                last_seen: now,
                occurrences: 1,
                resolved: false,
                resolution: None,
            };
            proof {
                assert(rec@ =~= fresh(id@, kind, severity, rec.message@, context@, rec.last_seen@));
                assert(!exists|k: Seq<char>|
                    #[trigger] old_map.contains_key(k) && is_open_match(old_map[k], kind, rec.message@)) by {
                    if exists|k: Seq<char>|
                        #[trigger] old_map.contains_key(k) && is_open_match(old_map[k], kind, rec.message@) {
                        let k = choose|k: Seq<char>|
                            #[trigger] old_map.contains_key(k) && is_open_match(old_map[k], kind, rec.message@);
                        let j = choose|j: int| id_at(old_rs, k, j);
                        lemma_records_map_at(old_rs, j);
                        assert(!is_open_match(old_rs[j]@, kind, rec.message@));
                    }
                }
            }
            let found = registry.index_of(id.as_str());
            let mut rs: Vec<FailureRecord> = Vec::new();
            std::mem::swap(&mut rs, &mut registry.records);
            match found {
                Some(j) => {
                    proof {
                        lemma_records_map_update(old_rs, j as int, rec);
                    }
                    rs.set(j, rec);
                },
                None => {
                    proof {
                        lemma_records_map_push(old_rs, rec);
                    }
                    rs.push(rec);
                },
            }
            proof {
                let ns = rs@;
                assert(one_open_per_message(ns)) by {
                    assert forall|a: int, b: int|
                        0 <= a < ns.len() && 0 <= b < ns.len() && a != b && !ns[a].resolved
                            && !ns[b].resolved && ns[a].kind == ns[b].kind implies #[trigger] ns[a].message@
                        != #[trigger] ns[b].message@ by {
                        if a < old_rs.len() && ns[a] != old_rs[a] {
                            assert(!is_open_match(old_rs[b]@, kind, ns[a].message@));
                        } else if b < old_rs.len() && ns[b] != old_rs[b] {
                            assert(!is_open_match(old_rs[a]@, kind, ns[b].message@));
                        } else if a >= old_rs.len() {
                            assert(!is_open_match(old_rs[b]@, kind, ns[a].message@));
                        } else if b >= old_rs.len() {
                            assert(!is_open_match(old_rs[a]@, kind, ns[b].message@));
                        } else {
                            assert(old_rs[a] == ns[a] && old_rs[b] == ns[b]);
                        }
                    }
                }
            }
            registry.records = rs;
            id
        },
    }
}

/// Records a failure: bumps the unresolved record of the same kind and
/// message and returns its id, or stores a new record under
/// `fail_<uuid>` and returns that id. The time of the call is read from the
/// clock and becomes the record's last-seen time (and, for a new record, its
/// first-seen time); nothing is stated of its value.
pub fn record_failure(
    registry: &mut FailureRegistry,
    kind: FailureKind,
    severity: FailureSeverity,
    message: String,
    context: StringMap,
) -> (id: String)
    ensures
        exists|now: Seq<char>|
            record_post(
                old(registry)@,
                final(registry)@,
                id@,
                kind,
                severity,
                message@,
                context@,
                now,
                id@,
            ),
        !has_open(old(registry)@, kind, message@) ==> id@.len() == 41 && id@.take(5) == "fail_"@,
        map_one_open(final(registry)@),
        map_keys_are_ids(final(registry)@),
{
    let now = now_rfc3339();
    let u = new_uuid();
    let new_id = cat("fail_", u.as_str());
    proof {
        reveal_strlit("fail_");
        assert(new_id@.take(5) =~= "fail_"@);
    }
    let ghost now_v = now@;
    let ghost nid = new_id@;
    let id = record_failure_at(registry, kind, severity, message, &context, now, new_id);
    proof {
        use_type_invariant(&*registry);
        lemma_map_props(registry.records@);
        assert(record_post(old(registry)@, registry@, id@, kind, severity, message@, context@, now_v, id@));
    }
    id
}

/// Marks the record `id` resolved at time `now` with `resolution`;
/// `false`, with nothing changed, when there is no such record.
pub fn resolve_failure_at(
    registry: &mut FailureRegistry,
    id: &str,
    resolution: Option<String>,
    now: String,
) -> (found: bool)
    ensures
        resolve_post(old(registry)@, final(registry)@, id@, found, opt_view(resolution), now@),
{
    proof {
        use_type_invariant(&*registry);
    }
    let ghost old_rs = registry.records@;
    match registry.index_of(id) {
        Some(i) => {
            let mut rec = registry.records[i].clone();
            rec.resolved = true;
            rec.resolution = resolution;
            rec.last_seen = now;
            proof {
                lemma_records_map_at(old_rs, i as int);
                lemma_records_map_update(old_rs, i as int, rec);
                let ns = old_rs.update(i as int, rec);
                assert(one_open_per_message(ns)) by {
                    assert forall|a: int, b: int|
                        0 <= a < ns.len() && 0 <= b < ns.len() && a != b && !ns[a].resolved
                            && !ns[b].resolved && ns[a].kind == ns[b].kind implies #[trigger] ns[a].message@
                        != #[trigger] ns[b].message@ by {
                        assert(old_rs[a] == ns[a] && old_rs[b] == ns[b]);
                    }
                }
            }
            let mut rs: Vec<FailureRecord> = Vec::new();
            std::mem::swap(&mut rs, &mut registry.records);
            rs.set(i, rec);
            registry.records = rs;
            true
        },
        None => false,
    }
}

/// Marks the record `id` resolved with `resolution`, at the time of the
/// call (read from the clock; nothing is stated of its value); `false`, with
/// nothing changed, when there is no such record.
pub fn resolve_failure(registry: &mut FailureRegistry, id: &str, resolution: Option<String>) -> (found:
    bool)
    ensures
        exists|now: Seq<char>|
            resolve_post(old(registry)@, final(registry)@, id@, found, opt_view(resolution), now),
        map_one_open(final(registry)@),
        map_keys_are_ids(final(registry)@),
{
    let now = now_rfc3339();
    let ghost now_v = now@;
    let ghost res_v = opt_view(resolution);
    let found = resolve_failure_at(registry, id, resolution, now);
    proof {
        assert(resolve_post(old(registry)@, registry@, id@, found, res_v, now_v));
        use_type_invariant(&*registry);
        lemma_map_props(registry.records@);
    }
    found
}

/// A copy of the record `id`, if there is one.
pub fn get_failure(registry: &FailureRegistry, id: &str) -> (r: Option<FailureRecord>)
    ensures
        r is Some <==> registry@.contains_key(id@),
        r matches Some(rec) ==> rec@ == registry@[id@],
        map_one_open(registry@),
        map_keys_are_ids(registry@),
{
    proof {
        use_type_invariant(registry);
        lemma_map_props(registry.records@);
    }
    match registry.index_of(id) {
        Some(i) => {
            proof {
                lemma_records_map_at(registry.records@, i as int);
            }
            Some(registry.records[i].clone())
        },
        None => None,
    }
}

pub proof fn lemma_listed_before_trans(a: RecordView, b: RecordView, c: RecordView)
    requires
        listed_before(a, b),
        listed_before(b, c),
    ensures
        listed_before(a, c),
{
    if seq_lt(b.last_seen, a.last_seen) && seq_lt(c.last_seen, b.last_seen) {
        crate::text::lemma_seq_lt_trans(c.last_seen, b.last_seen, a.last_seen);
    } else if a.last_seen == b.last_seen && b.last_seen == c.last_seen {
        crate::text::lemma_seq_lt_trans(a.id, b.id, c.id);
    }
}

pub proof fn lemma_listed_before_total(a: RecordView, b: RecordView)
    requires
        a.id != b.id,
    ensures
        listed_before(a, b) || listed_before(b, a),
{
    crate::text::lemma_seq_lt_total(a.last_seen, b.last_seen);
    crate::text::lemma_seq_lt_total(a.id, b.id);
}

pub proof fn lemma_listed_before_asym(a: RecordView, b: RecordView)
    requires
        listed_before(a, b),
    ensures
        !listed_before(b, a),
        a.id != b.id || a.last_seen != b.last_seen,
{
    if seq_lt(b.last_seen, a.last_seen) {
        crate::text::lemma_seq_lt_asym(b.last_seen, a.last_seen);
    } else {
        crate::text::lemma_seq_lt_asym(a.id, b.id);
    }
}

fn record_before(a: &FailureRecord, b: &FailureRecord) -> (r: bool)
    ensures
        r == listed_before(a@, b@),
{
    let al = chars_of(a.last_seen.as_str());
    let bl = chars_of(b.last_seen.as_str());
    if chars_lt(&bl, &al) {
        true
    } else if chars_eq(&al, &bl) {
        let ai = chars_of(a.id.as_str());
        let bi = chars_of(b.id.as_str());
        chars_lt(&ai, &bi)
    } else {
        false
    }
}

fn passes_filter(r: &FailureRecord, filter: &FailureFilter) -> (b: bool)
    ensures
        b == passes(r@, *filter),
{
    if filter.unresolved_only && r.resolved {
        return false;
    }
    if let Some(kind) = filter.kind {
        if r.kind != kind {
            return false;
        }
    }
    if let Some(min) = filter.min_severity {
        if r.severity.rank() < min.rank() {
            return false;
        }
    }
    true
}

/// Each record of `s` is listed before every later one.
pub open spec fn sorted_by_listing(s: Seq<FailureRecord>) -> bool {
    forall|a: int, b: int|
        0 <= a < b < s.len() ==> listed_before(#[trigger] s[a]@, #[trigger] s[b]@)
}

fn insert_sorted(sorted: &mut Vec<FailureRecord>, x: FailureRecord) -> (p: usize)
    requires
        sorted_by_listing(old(sorted)@),
        forall|q: int| 0 <= q < old(sorted).len() ==> (#[trigger] old(sorted)@[q])@.id != x@.id,
    ensures
        p <= old(sorted).len(),
        final(sorted)@ == old(sorted)@.insert(p as int, x),
        sorted_by_listing(final(sorted)@),
{
    let mut p: usize = 0;
    while p < sorted.len() && !record_before(&x, &sorted[p])
        invariant
            0 <= p <= sorted.len(),
            forall|q: int| 0 <= q < p ==> !listed_before(x@, #[trigger] sorted@[q]@),
        decreases sorted.len() - p,
    {
        p = p + 1;
    }
    let ghost old_sorted = sorted@;
    proof {
        assert forall|q: int| 0 <= q < p implies listed_before(#[trigger] old_sorted[q]@, x@) by {
            lemma_listed_before_total(old_sorted[q]@, x@);
        }
        assert forall|q: int| p <= q < old_sorted.len() implies listed_before(
            x@,
            #[trigger] old_sorted[q]@,
        ) by {
            if q > p {
                lemma_listed_before_trans(x@, old_sorted[p as int]@, old_sorted[q]@);
            }
        }
    }
    sorted.insert(p, x);
    proof {
        let ns = sorted@;
        assert forall|a: int, b: int| 0 <= a < b < ns.len() implies listed_before(
            #[trigger] ns[a]@,
            #[trigger] ns[b]@,
        ) by {
            if b < p {
                assert(ns[a] == old_sorted[a] && ns[b] == old_sorted[b]);
            } else if b == p {
                assert(ns[a] == old_sorted[a]);
            } else if a < p {
                assert(ns[a] == old_sorted[a] && ns[b] == old_sorted[b - 1]);
            } else if a == p {
                assert(ns[b] == old_sorted[b - 1]);
            } else {
                assert(ns[a] == old_sorted[a - 1] && ns[b] == old_sorted[b - 1]);
            }
        }
    }
    p
}

/// `out` is the first `effective_limit(filter)` records of `full`.
pub open spec fn first_of(full: Seq<FailureRecord>, filter: FailureFilter, out: Seq<FailureRecord>) -> bool {
    &&& effective_limit(filter) <= full.len() ==> out == full.subrange(0, effective_limit(filter) as int)
    &&& effective_limit(filter) > full.len() ==> out == full
}

proof fn lemma_first_listed_members(
    rs: Seq<FailureRecord>,
    full: Seq<FailureRecord>,
    filter: FailureFilter,
    out: Seq<FailureRecord>,
)
    requires
        ids_unique(rs),
        forall|a: int|
            0 <= a < full.len() ==> passes(#[trigger] full[a]@, filter) && exists|j: int|
                0 <= j < rs.len() && full[a]@ == (#[trigger] rs[j])@,
        first_of(full, filter, out),
    ensures
        forall|a: int|
            0 <= a < out.len() ==> passes(#[trigger] out[a]@, filter) && records_map(rs).contains_key(
                out[a]@.id,
            ) && records_map(rs)[out[a]@.id] == out[a]@,
        out.len() <= effective_limit(filter),
{
    let m = records_map(rs);
    assert forall|a: int| 0 <= a < out.len() implies passes(#[trigger] out[a]@, filter)
        && m.contains_key(out[a]@.id) && m[out[a]@.id] == out[a]@ by {
        assert(out[a] == full[a]);
        let j = choose|j: int| 0 <= j < rs.len() && full[a]@ == (#[trigger] rs[j])@;
        lemma_records_map_at(rs, j);
    }
}

proof fn lemma_first_listed_sorted(full: Seq<FailureRecord>, filter: FailureFilter, out: Seq<FailureRecord>)
    requires
        sorted_by_listing(full),
        first_of(full, filter, out),
    ensures
        sorted_by_listing(out),
{
    assert forall|a: int, b: int| 0 <= a < b < out.len() implies listed_before(
        #[trigger] out[a]@,
        #[trigger] out[b]@,
    ) by {
        assert(out[a] == full[a] && out[b] == full[b]);
    }
}

proof fn lemma_first_listed_top(
    rs: Seq<FailureRecord>,
    full: Seq<FailureRecord>,
    filter: FailureFilter,
    out: Seq<FailureRecord>,
    k: Seq<char>,
)
    requires
        ids_unique(rs),
        forall|j: int|
            0 <= j < rs.len() && passes(#[trigger] rs[j]@, filter) ==> exists|a: int|
                0 <= a < full.len() && (#[trigger] full[a])@ == rs[j]@,
        sorted_by_listing(full),
        first_of(full, filter, out),
        records_map(rs).contains_key(k),
        passes(records_map(rs)[k], filter),
        forall|a: int| 0 <= a < out.len() ==> (#[trigger] out[a]@).id != k,
    ensures
        out.len() == effective_limit(filter),
        forall|a: int| 0 <= a < out.len() ==> listed_before(#[trigger] out[a]@, records_map(rs)[k]),
{
    let j = choose|j: int| id_at(rs, k, j);
    lemma_records_map_at(rs, j);
    assert(passes(rs[j]@, filter));
    let b = choose|b: int| 0 <= b < full.len() && (#[trigger] full[b])@ == rs[j]@;
    if b < out.len() {
        assert(out[b] == full[b]);
        assert(out[b]@.id == k);
    }
    assert(b >= out.len());
    assert forall|a: int| 0 <= a < out.len() implies listed_before(
        #[trigger] out[a]@,
        records_map(rs)[k],
    ) by {
        assert(out[a] == full[a]);
        assert(listed_before(full[a]@, full[b]@));
    }
}

/// The records that pass `filter`, most recently seen first (ties by id),
/// at most `limit` of them (20 when `limit` is 0): the first ones of that
/// order.
#[verifier::rlimit(40)]
pub fn list_failures(registry: &FailureRegistry, filter: &FailureFilter) -> (r: Vec<FailureRecord>)
    ensures
        forall|a: int|
            0 <= a < r.len() ==> passes(#[trigger] r@[a]@, *filter) && registry@.contains_key(
                r@[a]@.id,
            ) && registry@[r@[a]@.id] == r@[a]@,
        forall|a: int, b: int|
            0 <= a < b < r.len() ==> listed_before(#[trigger] r@[a]@, #[trigger] r@[b]@),
        r.len() <= effective_limit(*filter),
        forall|k: Seq<char>|
            #[trigger] registry@.contains_key(k) && passes(registry@[k], *filter) && (forall|a: int|
                0 <= a < r.len() ==> (#[trigger] r@[a]@).id != k) ==> r.len() == effective_limit(
                *filter,
            ) && forall|a: int| 0 <= a < r.len() ==> listed_before(#[trigger] r@[a]@, registry@[k]),
{
    proof {
        use_type_invariant(registry);
    }
    let rs = &registry.records;
    let mut sorted: Vec<FailureRecord> = Vec::new();
    let mut i: usize = 0;
    while i < rs.len()
        invariant
            0 <= i <= rs.len(),
            rs@ == registry.records@,
            ids_unique(rs@),
            forall|a: int|
                0 <= a < sorted.len() ==> passes(#[trigger] sorted@[a]@, *filter) && exists|j: int|
                    0 <= j < i && sorted@[a]@ == (#[trigger] rs@[j])@,
            forall|j: int|
                0 <= j < i && passes(#[trigger] rs@[j]@, *filter) ==> exists|a: int|
                    0 <= a < sorted.len() && (#[trigger] sorted@[a])@ == rs@[j]@,
            sorted_by_listing(sorted@),
        decreases rs.len() - i,
    {
        let x = &rs[i];
        if passes_filter(x, filter) {
            let ghost old_sorted = sorted@;
            proof {
                assert forall|q: int| 0 <= q < old_sorted.len() implies (#[trigger] old_sorted[q])@.id
                    != x@.id by {
                    let j = choose|j: int| 0 <= j < i && old_sorted[q]@ == (#[trigger] rs@[j])@;
                    assert(rs@[j].id@ != rs@[i as int].id@);
                }
            }
            let p = insert_sorted(&mut sorted, x.clone());
            proof {
                let ns = sorted@;
                assert forall|a: int| 0 <= a < ns.len() implies passes(#[trigger] ns[a]@, *filter)
                    && exists|j: int| 0 <= j < i + 1 && ns[a]@ == (#[trigger] rs@[j])@ by {
                    if a < p {
                        assert(ns[a] == old_sorted[a]);
                    } else if a == p {
                        assert(ns[a]@ == rs@[i as int]@);
                    } else {
                        assert(ns[a] == old_sorted[a - 1]);
                    }
                }
                assert forall|j: int| 0 <= j < i + 1 && passes(#[trigger] rs@[j]@, *filter) implies exists|a: int|
                    0 <= a < ns.len() && (#[trigger] ns[a])@ == rs@[j]@ by {
                    if j == i {
                        assert(ns[p as int]@ == rs@[j]@);
                    } else {
                        let a = choose|a: int| 0 <= a < old_sorted.len() && (#[trigger] old_sorted[a])@ == rs@[j]@;
                        if a < p {
                            assert(ns[a] == old_sorted[a]);
                        } else {
                            assert(ns[a + 1] == old_sorted[a]);
                        }
                    }
                }
            }
        }
        i = i + 1;
    }
    let limit: usize = if filter.limit == 0 {
        20
    } else {
        filter.limit
    };
    let ghost full = sorted@;
    sorted.truncate(limit);
    proof {
        assert(first_of(full, *filter, sorted@));
        lemma_first_listed_members(rs@, full, *filter, sorted@);
        lemma_first_listed_sorted(full, *filter, sorted@);
        assert forall|k: Seq<char>|
            #[trigger] registry@.contains_key(k) && passes(registry@[k], *filter) && (forall|a: int|
                0 <= a < sorted.len() ==> (#[trigger] sorted@[a]@).id != k) implies sorted.len()
            == effective_limit(*filter) && forall|a: int|
            0 <= a < sorted.len() ==> listed_before(#[trigger] sorted@[a]@, registry@[k]) by {
            lemma_first_listed_top(rs@, full, *filter, sorted@, k);
        }
    }
    sorted
}

/// The kind a failure category names: "provider"; "compact" or "context";
/// "session"; "channel" or "channels"; "memory"; "config"; "tool", "tools"
/// or "cli-tools"; "resource" or "resources"; anything else is unknown.
pub open spec fn category_kind(c: Seq<char>) -> FailureKind {
    if c == "provider"@ {
        FailureKind::Provider
    } else if c == "compact"@ || c == "context"@ {
        FailureKind::Compact
    } else if c == "session"@ {
        FailureKind::Session
    } else if c == "channel"@ || c == "channels"@ {
        FailureKind::Channel
    } else if c == "memory"@ {
        FailureKind::Memory
    } else if c == "config"@ {
        FailureKind::Config
    } else if c == "tool"@ || c == "tools"@ || c == "cli-tools"@ {
        FailureKind::Tool
    } else if c == "resource"@ || c == "resources"@ {
        FailureKind::Resource
    } else {
        FailureKind::Unknown
    }
}

/// The kind a failure category names (see `category_kind`).
pub fn classify_category(category: &str) -> (k: FailureKind)
    ensures
        k == category_kind(category@),
{
    if str_eq(category, "provider") {
        FailureKind::Provider
    } else if str_eq(category, "compact") || str_eq(category, "context") {
        FailureKind::Compact
    } else if str_eq(category, "session") {
        FailureKind::Session
    } else if str_eq(category, "channel") || str_eq(category, "channels") {
        FailureKind::Channel
    } else if str_eq(category, "memory") {
        FailureKind::Memory
    } else if str_eq(category, "config") {
        FailureKind::Config
    } else if str_eq(category, "tool") || str_eq(category, "tools") || str_eq(
        category,
        "cli-tools",
    ) {
        FailureKind::Tool
    } else if str_eq(category, "resource") || str_eq(category, "resources") {
        FailureKind::Resource
    } else {
        FailureKind::Unknown
    }
}

/// The recovery hint shown for each kind of failure.
pub open spec fn hint_text(kind: FailureKind) -> Seq<char> {
    match kind {
        FailureKind::Provider => "检查 API key/额度/网络；可执行 `zeroclaw doctor models` 验证 provider 连通性。"@,
        FailureKind::Compact => "降低上下文负载，检查压缩配置；必要时暂时关闭 context compact。"@,
        FailureKind::Session => "检查会话存储文件权限与损坏情况，必要时重建会话。"@,
        FailureKind::Channel => "检查渠道 token 与回调地址，确认网络可达后重连。"@,
        FailureKind::Memory => "检查 memory backend 路径/权限；必要时 vacuum 或切换后端。"@,
        FailureKind::Config => "校验配置字段与冲突项，修复后重新加载。"@,
        FailureKind::Tool => "检查工具依赖是否在 PATH，确认权限与参数。"@,
        FailureKind::Resource => "释放磁盘/内存压力，降低并发与上下文大小。"@,
        FailureKind::Unknown => "查看日志上下文进一步定位。"@,
    }
}

/// The recovery hint for a kind of failure (see `hint_text`).
pub fn recovery_hint(kind: FailureKind) -> (r: &'static str)
    ensures
        r@ == hint_text(kind),
{
    match kind {
        FailureKind::Provider => "检查 API key/额度/网络；可执行 `zeroclaw doctor models` 验证 provider 连通性。",
        FailureKind::Compact => "降低上下文负载，检查压缩配置；必要时暂时关闭 context compact。",
        FailureKind::Session => "检查会话存储文件权限与损坏情况，必要时重建会话。",
        FailureKind::Channel => "检查渠道 token 与回调地址，确认网络可达后重连。",
        FailureKind::Memory => "检查 memory backend 路径/权限；必要时 vacuum 或切换后端。",
        FailureKind::Config => "校验配置字段与冲突项，修复后重新加载。",
        FailureKind::Tool => "检查工具依赖是否在 PATH，确认权限与参数。",
        FailureKind::Resource => "释放磁盘/内存压力，降低并发与上下文大小。",
        FailureKind::Unknown => "查看日志上下文进一步定位。",
    }
}

/// Parsing a severity or kind name ignores the case of ASCII letters and
/// surrounding white space: for ASCII text `s`, the upper-cased text and the
/// trimmed text (both ASCII too) name what `s` names (see the ASCII clauses
/// of `parse_severity`, `parse_kind` and the `FromStr` impls).
pub proof fn law_names_ignore_case_and_padding(s: Seq<char>)
    requires
        all_ascii(s),
    ensures
        all_ascii(ascii_upper(s)),
        all_ascii(trim(s)),
        severity_of_name(ascii_lower(trim(ascii_upper(s)))) == severity_of_name(ascii_lower(trim(s))),
        kind_of_name(ascii_lower(trim(ascii_upper(s)))) == kind_of_name(ascii_lower(trim(s))),
        severity_of_name(ascii_lower(trim(trim(s)))) == severity_of_name(ascii_lower(trim(s))),
        kind_of_name(ascii_lower(trim(trim(s)))) == kind_of_name(ascii_lower(trim(s))),
{
    crate::text::lemma_ascii_kept(s);
    crate::text::lemma_trim_upper(s);
    crate::text::law_ascii_lower_ignores_case(trim(s));
    crate::text::lemma_trim_twice(s);
}

/// Listings put the most recently seen record first: a record listed
/// before another was not seen earlier than it (last-seen times compare as
/// text), and of two records seen at the same time the one with the
/// smaller id comes first.
pub proof fn law_listing_most_recent_first(a: RecordView, b: RecordView)
    requires
        listed_before(a, b),
    ensures
        !seq_lt(a.last_seen, b.last_seen),
        a.last_seen == b.last_seen ==> seq_lt(a.id, b.id),
{
    if seq_lt(a.last_seen, b.last_seen) {
        if seq_lt(b.last_seen, a.last_seen) {
            crate::text::lemma_seq_lt_asym(a.last_seen, b.last_seen);
        } else {
            crate::text::lemma_seq_lt_irrefl(a.last_seen);
        }
    }
    if a.last_seen == b.last_seen {
        crate::text::lemma_seq_lt_irrefl(a.last_seen);
    }
}

/// Recording a failure again bumps its record: one more occurrence (up to
/// `u64::MAX`), the more severe of the two severities, the new last-seen
/// time, the new context entries over the old ones; id, kind, message,
/// first-seen time and resolution stay.
pub proof fn law_bump_counts_and_escalates(
    existing: RecordView,
    severity: FailureSeverity,
    context: Map<Seq<char>, Seq<char>>,
    now: Seq<char>,
)
    ensures
        ({
            let b = bumped(existing, severity, context, now);
            &&& existing.occurrences < u64::MAX ==> b.occurrences == existing.occurrences + 1
            &&& existing.occurrences == u64::MAX ==> b.occurrences == u64::MAX
            &&& severity_rank(b.severity) >= severity_rank(existing.severity)
            &&& severity_rank(b.severity) >= severity_rank(severity)
            &&& (b.severity == existing.severity || b.severity == severity)
            &&& b.last_seen == now
            &&& forall|k: Seq<char>| #[trigger] context.contains_key(k) ==> b.context.contains_key(k)
                && b.context[k] == context[k]
            &&& forall|k: Seq<char>|
                #[trigger] existing.context.contains_key(k) && !context.contains_key(k)
                    ==> b.context.contains_key(k) && b.context[k] == existing.context[k]
            &&& b.id == existing.id && b.kind == existing.kind && b.message == existing.message
            &&& b.first_seen == existing.first_seen && b.resolved == existing.resolved
        }),
{
}

/// Every kind of failure has a recovery hint, and no two kinds share one.
pub proof fn law_recovery_hints_distinct(k1: FailureKind, k2: FailureKind)
    ensures
        hint_text(k1).len() > 0,
        k1 != k2 ==> hint_text(k1) != hint_text(k2),
{
    reveal_strlit("检查 API key/额度/网络；可执行 `zeroclaw doctor models` 验证 provider 连通性。");
    reveal_strlit("降低上下文负载，检查压缩配置；必要时暂时关闭 context compact。");
    reveal_strlit("检查会话存储文件权限与损坏情况，必要时重建会话。");
    reveal_strlit("检查渠道 token 与回调地址，确认网络可达后重连。");
    reveal_strlit("检查 memory backend 路径/权限；必要时 vacuum 或切换后端。");
    reveal_strlit("校验配置字段与冲突项，修复后重新加载。");
    reveal_strlit("检查工具依赖是否在 PATH，确认权限与参数。");
    reveal_strlit("释放磁盘/内存压力，降低并发与上下文大小。");
    reveal_strlit("查看日志上下文进一步定位。");
    if k1 != k2 {
        assert(hint_text(k1).len() != hint_text(k2).len());
    }
}

/// After a failure is recorded, the registry still holds at most one
/// unresolved record per kind and message and each record under its own id,
/// and the returned id names an unresolved record of that kind and message.
pub proof fn law_record_keeps_invariants(
    m0: Map<Seq<char>, RecordView>,
    m1: Map<Seq<char>, RecordView>,
    id: Seq<char>,
    kind: FailureKind,
    severity: FailureSeverity,
    message: Seq<char>,
    context: Map<Seq<char>, Seq<char>>,
    now: Seq<char>,
    new_id: Seq<char>,
)
    requires
        map_one_open(m0),
        map_keys_are_ids(m0),
        record_post(m0, m1, id, kind, severity, message, context, now, new_id),
    ensures
        map_one_open(m1),
        map_keys_are_ids(m1),
        m1.contains_key(id),
        is_open_match(m1[id], kind, message),
{
    if has_open(m0, kind, message) {
        assert forall|a: Seq<char>, b: Seq<char>|
            m1.contains_key(a) && m1.contains_key(b) && a != b && !m1[a].resolved
                && !m1[b].resolved && m1[a].kind == m1[b].kind implies #[trigger] m1[a].message
            != #[trigger] m1[b].message by {
            assert(m0.contains_key(a) && m0.contains_key(b));
            assert(m0[a].kind == m1[a].kind && m0[a].message == m1[a].message);
            assert(m0[b].kind == m1[b].kind && m0[b].message == m1[b].message);
        }
    } else {
        assert forall|a: Seq<char>, b: Seq<char>|
            m1.contains_key(a) && m1.contains_key(b) && a != b && !m1[a].resolved
                && !m1[b].resolved && m1[a].kind == m1[b].kind implies #[trigger] m1[a].message
            != #[trigger] m1[b].message by {
            if a == id {
                assert(m0.contains_key(b));
                assert(!is_open_match(m0[b], kind, message));
            } else if b == id {
                assert(m0.contains_key(a));
                assert(!is_open_match(m0[a], kind, message));
            } else {
                assert(m0.contains_key(a) && m0.contains_key(b));
            }
        }
    }
}

/// Recording the same failure (same kind and message) twice gives the same
/// id both times, and the second call bumps the record the first one left.
pub proof fn law_record_twice_same_id(
    m0: Map<Seq<char>, RecordView>,
    m1: Map<Seq<char>, RecordView>,
    m2: Map<Seq<char>, RecordView>,
    id1: Seq<char>,
    id2: Seq<char>,
    kind: FailureKind,
    message: Seq<char>,
    severity1: FailureSeverity,
    severity2: FailureSeverity,
    context1: Map<Seq<char>, Seq<char>>,
    context2: Map<Seq<char>, Seq<char>>,
    now1: Seq<char>,
    now2: Seq<char>,
    new_id1: Seq<char>,
    new_id2: Seq<char>,
)
    requires
        map_one_open(m0),
        map_keys_are_ids(m0),
        record_post(m0, m1, id1, kind, severity1, message, context1, now1, new_id1),
        record_post(m1, m2, id2, kind, severity2, message, context2, now2, new_id2),
    ensures
        id2 == id1,
        m2 == m1.insert(id1, bumped(m1[id1], severity2, context2, now2)),
{
    law_record_keeps_invariants(m0, m1, id1, kind, severity1, message, context1, now1, new_id1);
    assert(m1.contains_key(id1) && is_open_match(m1[id1], kind, message));
    assert(has_open(m1, kind, message));
    assert(m1.contains_key(id2) && is_open_match(m1[id2], kind, message));
    if id2 != id1 {
        assert(m1[id1].message != m1[id2].message);
    }
}

/// Once the unresolved record of a failure is resolved, recording the same
/// failure again starts a fresh record under the new id, with one
/// occurrence.
pub proof fn law_record_after_resolve_is_fresh(
    m0: Map<Seq<char>, RecordView>,
    m1: Map<Seq<char>, RecordView>,
    m2: Map<Seq<char>, RecordView>,
    id: Seq<char>,
    id2: Seq<char>,
    kind: FailureKind,
    message: Seq<char>,
    resolution: Option<Seq<char>>,
    now1: Seq<char>,
    severity: FailureSeverity,
    context: Map<Seq<char>, Seq<char>>,
    now2: Seq<char>,
    new_id: Seq<char>,
)
    requires
        map_one_open(m0),
        map_keys_are_ids(m0),
        m0.contains_key(id),
        is_open_match(m0[id], kind, message),
        resolve_post(m0, m1, id, true, resolution, now1),
        record_post(m1, m2, id2, kind, severity, message, context, now2, new_id),
    ensures
        id2 == new_id,
        m2.contains_key(new_id),
        m2[new_id].occurrences == 1,
        !m2[new_id].resolved,
{
    if has_open(m1, kind, message) {
        let k = choose|k: Seq<char>| #[trigger] m1.contains_key(k) && is_open_match(m1[k], kind, message);
        assert(k != id);
        assert(m0.contains_key(k));
        assert(m0[k] == m1[k]);
        assert(m0[k].message != m0[id].message);
    }
}

/// A record that was just recorded can be read back under the returned id,
/// with the kind and message it was recorded with, unresolved.
pub proof fn law_read_after_record(
    m0: Map<Seq<char>, RecordView>,
    m1: Map<Seq<char>, RecordView>,
    id: Seq<char>,
    kind: FailureKind,
    severity: FailureSeverity,
    message: Seq<char>,
    context: Map<Seq<char>, Seq<char>>,
    now: Seq<char>,
    new_id: Seq<char>,
)
    requires
        record_post(m0, m1, id, kind, severity, message, context, now, new_id),
    ensures
        m1.contains_key(id),
        m1[id].kind == kind,
        m1[id].message == message,
        !m1[id].resolved,
        m1[id].last_seen == now,
        forall|k: Seq<char>| k != id ==> (m1.contains_key(k) == m0.contains_key(k)) && (
        m0.contains_key(k) ==> #[trigger] m1[k] == m0[k]),
{
}

/// A resolved record never appears in a listing of unresolved failures.
pub proof fn law_resolved_not_listed_unresolved(r: RecordView, filter: FailureFilter)
    requires
        r.resolved,
        filter.unresolved_only,
    ensures
        !passes(r, filter),
{
}

} // verus!
