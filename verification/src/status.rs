//! Status reporting: the report's contents and its text forms.
use vstd::prelude::*;

use crate::text::{
    cat, chars_of, has_prefix, lines_of, owned, split_lines, starts_with_chars, string_of, views_of,
    words, words_of,
};

verus! {

/// The status report.
#[derive(Debug, Clone)]
pub struct StatusReport {
    /// Seconds of the report's time since the Unix epoch (UTC).
    pub timestamp_secs: i64,
    /// Nanoseconds within that second.
    pub timestamp_nanos: u32,
    pub version: String,
    pub workspace: String,
    pub config_path: String,
    pub system: SystemStatus,
    pub provider: ProviderStatus,
    pub memory: MemoryStatus,
    pub channels: ChannelStatus,
    pub resources: ResourceStatus,
}

#[derive(Debug, Clone)]
pub struct SystemStatus {
    pub uptime: String,
    pub service_running: bool,
    pub observability: String,
    pub autonomy_level: String,
    pub runtime: String,
}

#[derive(Debug, Clone)]
pub struct ProviderStatus {
    pub default_provider: String,
    pub default_model: String,
}

#[derive(Debug, Clone)]
pub struct MemoryStatus {
    pub backend: String,
    pub auto_save: bool,
}

#[derive(Debug, Clone)]
pub struct ChannelStatus {
    pub cli: bool,
    pub configured_channels: Vec<String>,
}

#[derive(Debug, Clone)]
pub struct ResourceStatus {
    pub memory_usage_mb: Option<u64>,
    /// The available disk space in GB, already written with one decimal.
    pub disk_available_gb: Option<String>,
}

/// What a status report is made from.
#[derive(Debug, Clone)]
pub struct StatusSources {
    pub version: String,
    pub workspace: String,
    pub config_path: String,
    pub uptime: String,
    pub service_running: bool,
    pub observability: String,
    pub autonomy_level: String,
    pub runtime: String,
    pub default_provider: Option<String>,
    pub default_model: Option<String>,
    pub memory_backend: String,
    pub auto_save: bool,
    /// Each channel's name and whether it is configured.
    pub channels: Vec<(String, bool)>,
    pub memory_usage_mb: Option<u64>,
    pub disk_available_gb: Option<String>,
}

// ---------------------------------------------------------------------------
// Numbers
// ---------------------------------------------------------------------------

/// The decimal digit for `d` (0 to 9).
pub open spec fn digit(d: nat) -> char {
    if d == 0 {
        '0'
    } else if d == 1 {
        '1'
    } else if d == 2 {
        '2'
    } else if d == 3 {
        '3'
    } else if d == 4 {
        '4'
    } else if d == 5 {
        '5'
    } else if d == 6 {
        '6'
    } else if d == 7 {
        '7'
    } else if d == 8 {
        '8'
    } else {
        '9'
    }
}

/// `n` in decimal, as `{}` writes it.
pub open spec fn dec(n: nat) -> Seq<char>
    decreases n,
{
    if n < 10 {
        seq![digit(n)]
    } else {
        dec(n / 10).push(digit(n % 10))
    }
}

fn digit_char(d: u64) -> (c: char)
    requires
        d < 10,
    ensures
        c == digit(d as nat),
{
    if d == 0 {
        '0'
    } else if d == 1 {
        '1'
    } else if d == 2 {
        '2'
    } else if d == 3 {
        '3'
    } else if d == 4 {
        '4'
    } else if d == 5 {
        '5'
    } else if d == 6 {
        '6'
    } else if d == 7 {
        '7'
    } else if d == 8 {
        '8'
    } else {
        '9'
    }
}

fn push_decimal(out: &mut Vec<char>, n: u64)
    ensures
        final(out)@ == old(out)@ + dec(n as nat),
    decreases n,
{
    if n >= 10 {
        push_decimal(out, n / 10);
    }
    out.push(digit_char(n % 10));
    proof {
        if n < 10 {
            assert(dec(n as nat) == seq![digit(n as nat)]);
        }
    }
}

/// `n` written in decimal.
pub fn format_decimal(n: u64) -> (r: String)
    ensures
        r@ == dec(n as nat),
{
    let mut v: Vec<char> = Vec::new();
    push_decimal(&mut v, n);
    assert(v@ =~= dec(n as nat));
    crate::text::string_of(&v)
}

/// The value of a decimal digit character, or -1 for any other character.
pub open spec fn digit_value(c: char) -> int {
    if '0' <= c && c <= '9' {
        (c as int) - ('0' as int)
    } else {
        -1
    }
}

/// The value of a string of decimal digits.
pub open spec fn digits_value(s: Seq<char>) -> int
    decreases s.len(),
{
    if s.len() == 0 {
        0
    } else {
        digits_value(s.drop_last()) * 10 + digit_value(s.last())
    }
}

/// `s` is made of decimal digits only.
pub open spec fn all_digits(s: Seq<char>) -> bool {
    forall|i: int| 0 <= i < s.len() ==> '0' <= #[trigger] s[i] && s[i] <= '9'
}

/// What `str::parse::<u64>` gives for `s`: an optional `+` followed by at
/// least one decimal digit, whose value fits in `u64`.
pub open spec fn parsed_u64(s: Seq<char>) -> Option<u64> {
    let d = if s.len() > 0 && s[0] == '+' {
        s.drop_first()
    } else {
        s
    };
    if d.len() > 0 && all_digits(d) && digits_value(d) <= u64::MAX {
        Some(digits_value(d) as u64)
    } else {
        None
    }
}

proof fn lemma_digits_value_nonneg(s: Seq<char>)
    requires
        all_digits(s),
    ensures
        digits_value(s) >= 0,
    decreases s.len(),
{
    if s.len() > 0 {
        assert(all_digits(s.drop_last()));
        lemma_digits_value_nonneg(s.drop_last());
    }
}

proof fn lemma_digits_value_grows(s: Seq<char>, t: Seq<char>)
    requires
        all_digits(t),
        t.len() > 0,
        s.len() > t.len(),
        all_digits(s),
        s.take(t.len() as int) == t,
    ensures
        digits_value(s) >= digits_value(t) * 10,
    decreases s.len(),
{
    let u = s.drop_last();
    assert(all_digits(u));
    assert(u.take(t.len() as int) =~= t);
    if u.len() > t.len() {
        lemma_digits_value_grows(u, t);
        lemma_digits_value_nonneg(t);
        assert(digits_value(u) * 10 >= digits_value(t) * 10) by (nonlinear_arith)
            requires digits_value(u) >= digits_value(t) * 10, digits_value(t) >= 0;
    } else {
        assert(u =~= t);
    }
}

/// `str::parse::<u64>` (see `parsed_u64`).
pub fn parse_u64(s: &str) -> (r: Option<u64>)
    ensures
        r == parsed_u64(s@),
{
    let v = chars_of(s);
    let start: usize = if v.len() > 0 && v[0] == '+' {
        1
    } else {
        0
    };
    let ghost d = if v@.len() > 0 && v@[0] == '+' {
        v@.drop_first()
    } else {
        v@
    };
    assert(d =~= v@.skip(start as int));
    if start >= v.len() {
        return None;
    }
    let mut acc: u64 = 0;
    let mut i = start;
    while i < v.len()
        invariant
            start <= i <= v.len(),
            v@ == s@,
            d == v@.skip(start as int),
            d == (if v@.len() > 0 && v@[0] == '+' {
                v@.drop_first()
            } else {
                v@
            }),
            all_digits(v@.subrange(start as int, i as int)),
            acc == digits_value(v@.subrange(start as int, i as int)),
        decreases v.len() - i,
    {
        let c = v[i];
        let ghost pre = v@.subrange(start as int, i as int);
        let ghost next = v@.subrange(start as int, i + 1);
        assert(next.drop_last() =~= pre);
        if !('0' <= c && c <= '9') {
            assert(d[i - start] == c);
            assert(!all_digits(d));
            return None;
        }
        let dv = (c as u64) - ('0' as u64);
        match acc.checked_mul(10) {
            Some(m) => match m.checked_add(dv) {
                Some(n) => {
                    acc = n;
                },
                None => {
                    proof {
                        assert(all_digits(next));
                        if all_digits(d) {
                            if i + 1 < v.len() {
                                assert(d.take(next.len() as int) =~= next);
                                lemma_digits_value_grows(d, next);
                            } else {
                                assert(next =~= d);
                            }
                            lemma_digits_value_nonneg(next);
                        }
                    }
                    return None;
                },
            },
            None => {
                proof {
                    assert(all_digits(next));
                    lemma_digits_value_nonneg(pre);
                    if all_digits(d) {
                        if i + 1 < v.len() {
                            assert(d.take(next.len() as int) =~= next);
                            lemma_digits_value_grows(d, next);
                        } else {
                            assert(next =~= d);
                        }
                        lemma_digits_value_nonneg(next);
                    }
                }
                return None;
            },
        }
        i = i + 1;
    }
    assert(v@.subrange(start as int, v.len() as int) =~= d);
    Some(acc)
}

proof fn lemma_dec_digits(n: nat)
    ensures
        dec(n).len() > 0,
        all_digits(dec(n)),
        digits_value(dec(n)) == n,
    decreases n,
{
    let d = n % 10;
    assert(digit_value(digit(d)) == d);
    if n >= 10 {
        lemma_dec_digits(n / 10);
        let s = dec(n);
        assert(s.drop_last() =~= dec(n / 10));
        assert(s.last() == digit(d));
        assert((n / 10) * 10 + n % 10 == n) by (nonlinear_arith);
        assert(digits_value(s) == digits_value(s.drop_last()) * 10 + digit_value(s.last()));
        assert forall|i: int| 0 <= i < s.len() implies '0' <= #[trigger] s[i] && s[i] <= '9' by {
            if i < s.len() - 1 {
                assert(s[i] == dec(n / 10)[i]);
            }
        }
    } else {
        assert(dec(n).drop_last() =~= Seq::<char>::empty());
        assert(dec(n).last() == digit(n));
        assert(n % 10 == n);
        assert(digits_value(dec(n)) == digits_value(dec(n).drop_last()) * 10 + digit_value(dec(n).last()));
    }
}

/// Reading back what `format_decimal` writes gives the number again.
pub proof fn law_parse_format_roundtrip(n: u64)
    ensures
        parsed_u64(dec(n as nat)) == Some(n),
{
    lemma_dec_digits(n as nat);
}

// ---------------------------------------------------------------------------
// Uptime and memory usage
// ---------------------------------------------------------------------------

/// An uptime of `secs` seconds as the report writes it: "<d>d <h>h <m>m"
/// with days, "<h>h <m>m" with hours, "<m>m <s>s" otherwise.
pub open spec fn uptime_text(secs: nat) -> Seq<char> {
    let days = secs / 86400;
    let hours = (secs % 86400) / 3600;
    let mins = (secs % 3600) / 60;
    if days > 0 {
        dec(days) + "d "@ + dec(hours) + "h "@ + dec(mins) + "m"@
    } else if hours > 0 {
        dec(hours) + "h "@ + dec(mins) + "m"@
    } else {
        dec(mins) + "m "@ + dec(secs % 60) + "s"@
    }
}

/// The uptime text for `secs` seconds (see `uptime_text`).
pub fn format_uptime(secs: u64) -> (r: String)
    ensures
        r@ == uptime_text(secs as nat),
{
    let days = secs / 86400;
    let hours = (secs % 86400) / 3600;
    let mins = (secs % 3600) / 60;
    if days > 0 {
        let mut r = format_decimal(days);
        r.append("d ");
        r.append(format_decimal(hours).as_str());
        r.append("h ");
        r.append(format_decimal(mins).as_str());
        r.append("m");
        r
    } else if hours > 0 {
        let mut r = format_decimal(hours);
        r.append("h ");
        r.append(format_decimal(mins).as_str());
        r.append("m");
        r
    } else {
        let mut r = format_decimal(mins);
        r.append("m ");
        r.append(format_decimal(secs % 60).as_str());
        r.append("s");
        r
    }
}

/// The characters of `w` before its first `.` (all of `w` when it has
/// none): the whole part of a decimal number.
pub open spec fn before_point(w: Seq<char>) -> Seq<char>
    decreases w.len(),
{
    if w.len() == 0 {
        w
    } else if w[0] == '.' {
        seq![]
    } else {
        seq![w[0]] + before_point(w.drop_first())
    }
}

proof fn lemma_before_point(w: Seq<char>, i: int)
    requires
        0 <= i <= w.len(),
        forall|j: int| 0 <= j < i ==> w[j] != '.',
        i == w.len() || w[i] == '.',
    ensures
        before_point(w) == w.take(i),
    decreases w.len(),
{
    if w.len() > 0 {
        if i == 0 {
            assert(w.take(0) =~= Seq::<char>::empty());
        } else {
            let t = w.drop_first();
            assert forall|j: int| 0 <= j < i - 1 implies t[j] != '.' by {
                assert(t[j] == w[j + 1]);
            }
            if i < w.len() {
                assert(t[i - 1] == w[i]);
            }
            lemma_before_point(t, i - 1);
            assert(seq![w[0]] + t.take(i - 1) =~= w.take(i));
        }
    } else {
        assert(w.take(0) =~= w);
    }
}

/// The whole part of the decimal number `w` (see `before_point`).
fn whole_part(w: &Vec<char>) -> (r: Vec<char>)
    ensures
        r@ == before_point(w@),
{
    let mut i: usize = 0;
    while i < w.len() && w[i] != '.'
        invariant
            0 <= i <= w.len(),
            forall|j: int| 0 <= j < i ==> w@[j] != '.',
        decreases w.len() - i,
    {
        i = i + 1;
    }
    proof {
        lemma_before_point(w@, i as int);
    }
    let mut r: Vec<char> = Vec::new();
    let mut k: usize = 0;
    while k < i
        invariant
            0 <= k <= i <= w.len(),
            r@ == w@.take(k as int),
        decreases i - k,
    {
        r.push(w[k]);
        k = k + 1;
        assert(r@ =~= w@.take(k as int));
    }
    r
}

/// The uptime from the text of `/proc/uptime` (`None` when it could not be
/// read): its first word is the uptime in seconds, a decimal number whose
/// whole part (the digits before the `.`) is read as whole seconds;
/// "unknown" when there is no such word or its whole part is not a whole
/// number.
pub open spec fn uptime_from(content: Option<Seq<char>>) -> Seq<char> {
    match content {
        Some(c) => if words(c).len() > 0 && parsed_u64(before_point(words(c)[0])) is Some {
            uptime_text(parsed_u64(before_point(words(c)[0]))->0 as nat)
        } else {
            "unknown"@
        },
        None => "unknown"@,
    }
}

/// The uptime text from the contents of `/proc/uptime` (see `uptime_from`).
pub fn uptime_from_proc(content: Option<String>) -> (r: String)
    ensures
        r@ == uptime_from(
            match content {
                Some(c) => Some(c@),
                None => None,
            },
        ),
{
    match content {
        Some(c) => {
            let v = chars_of(c.as_str());
            let ws = words_of(&v);
            if ws.len() > 0 {
                assert(ws@[0]@ == views_of(ws@)[0]);
                let whole = whole_part(&ws[0]);
                let w = string_of(&whole);
                match parse_u64(w.as_str()) {
                    Some(secs) => format_uptime(secs),
                    None => owned("unknown"),
                }
            } else {
                owned("unknown")
            }
        },
        None => owned("unknown"),
    }
}

/// A `VmRSS:` line of `/proc/self/status` with a whole number as its second
/// word gives that number (kB) divided by 1024 (MB).
pub open spec fn vmrss_of_line(l: Seq<char>) -> Option<u64> {
    if has_prefix(l, "VmRSS:"@) && words(l).len() >= 2 && parsed_u64(words(l)[1]) is Some {
        Some((parsed_u64(words(l)[1])->0 / 1024) as u64)
    } else {
        None
    }
}

/// The first line of `ls` that gives a memory usage, if any.
pub open spec fn vmrss_in(ls: Seq<Seq<char>>) -> Option<u64>
    decreases ls.len(),
{
    if ls.len() == 0 {
        None
    } else if vmrss_of_line(ls[0]) is Some {
        vmrss_of_line(ls[0])
    } else {
        vmrss_in(ls.drop_first())
    }
}

/// The memory usage in MB from the contents of `/proc/self/status` (`None`
/// when it could not be read): that of the first `VmRSS:` line whose second
/// word is a whole number.
pub open spec fn memory_usage_from(status: Option<Seq<char>>) -> Option<u64> {
    match status {
        Some(s) => vmrss_in(split_lines(s)),
        None => None,
    }
}

fn vmrss_line(l: &Vec<char>) -> (r: Option<u64>)
    ensures
        r == vmrss_of_line(l@),
{
    let p = chars_of("VmRSS:");
    if !starts_with_chars(l, &p) {
        return None;
    }
    let ws = words_of(l);
    if ws.len() < 2 {
        return None;
    }
    assert(ws@[1]@ == views_of(ws@)[1]);
    let w = string_of(&ws[1]);
    match parse_u64(w.as_str()) {
        Some(kb) => Some(kb / 1024),
        None => None,
    }
}

fn vmrss_of_text(s: &str) -> (r: Option<u64>)
    ensures
        r == vmrss_in(split_lines(s@)),
{
    let v = chars_of(s);
    let ls = lines_of(&v);
    let ghost lv = views_of(ls@);
    let mut i: usize = 0;
    assert(lv.skip(0) =~= lv);
    while i < ls.len()
        invariant
            0 <= i <= ls.len(),
            lv == views_of(ls@),
            lv == split_lines(s@),
            vmrss_in(lv) == vmrss_in(lv.skip(i as int)),
        decreases ls.len() - i,
    {
        assert(ls@[i as int]@ == lv[i as int]);
        assert(lv.skip(i as int)[0] == lv[i as int]);
        assert(lv.skip(i as int).drop_first() =~= lv.skip(i + 1));
        assert(lv.skip(i as int).len() > 0);
        match vmrss_line(&ls[i]) {
            Some(mb) => {
                return Some(mb);
            },
            None => {},
        }
        i = i + 1;
    }
    assert(lv.skip(ls.len() as int) =~= Seq::<Seq<char>>::empty());
    None
}

/// The memory usage from the contents of `/proc/self/status` (see
/// `memory_usage_from`).
pub fn memory_usage_from_status(status: Option<String>) -> (r: Option<u64>)
    ensures
        r == memory_usage_from(
            match status {
                Some(s) => Some(s@),
                None => None,
            },
        ),
{
    match status {
        Some(s) => vmrss_of_text(s.as_str()),
        None => None,
    }
}

// ---------------------------------------------------------------------------
// Text forms of the report
// ---------------------------------------------------------------------------

/// `n` (below 100) in two decimal digits.
pub open spec fn two_digits(n: int) -> Seq<char> {
    seq![digit((n / 10) as nat), digit((n % 10) as nat)]
}

/// The UTC time of day `secs` seconds after the Unix epoch as `HH:MM:SS`.
pub open spec fn clock_text(secs: int) -> Seq<char> {
    let t = secs % 86400;
    two_digits(t / 3600) + ":"@ + two_digits((t % 3600) / 60) + ":"@ + two_digits(t % 60)
}

/// An instant within 8 * 10^12 seconds of the Unix epoch, without a leap
/// second.
pub open spec fn utc_in_range(secs: i64, nanos: u32) -> bool {
    -8_000_000_000_000 <= secs <= 8_000_000_000_000 && nanos < 1_000_000_000
}

/// What `chrono::DateTime::<Utc>::format(fmt).to_string()` gives for the UTC
/// time `secs` seconds and `nanos` nanoseconds after the Unix epoch.
pub uninterp spec fn utc_format(secs: i64, nanos: u32, fmt: Seq<char>) -> Seq<char>;

/// The UTC time `secs`/`nanos` after the Unix epoch formatted by chrono
/// with the strftime-style `fmt` (`DateTime::from_timestamp`, then
/// `format(fmt).to_string()`); the result is named `utc_format`. An instant
/// that chrono cannot represent gives the empty string. Only the two
/// formats of the report are admitted: `to_string` panics on a format that
/// chrono cannot write.
///
/// Of `%H:%M:%S` chrono's documentation and source give what it writes: the
/// hour, minute and second of the UTC time of day, each in two digits. That
/// is stated for the instants chrono represents, which include all within
/// 8 * 10^12 seconds of the epoch (about 250,000 years; chrono reaches
/// years -262143 to 262142) with fewer than 10^9 nanoseconds (no leap
/// second).
#[verifier::external_body]
fn format_utc(secs: i64, nanos: u32, fmt: &str) -> (r: String)
    requires
        fmt@ == "%Y-%m-%d %H:%M:%S UTC"@ || fmt@ == "%H:%M:%S"@,
    ensures
        r@ == utc_format(secs, nanos, fmt@),
        fmt@ == "%H:%M:%S"@ && utc_in_range(secs, nanos) ==> r@ == clock_text(secs as int),
{
    match chrono::DateTime::from_timestamp(secs, nanos) {
        Some(t) => t.format(fmt).to_string(),
        None => String::new(),
    }
}

/// `s` left-aligned in a field of 9 characters (`{:9}`).
pub open spec fn pad9(s: Seq<char>) -> Seq<char> {
    if s.len() < 9 {
        s + Seq::new((9 - s.len()) as nat, |i: int| ' ')
    } else {
        s
    }
}

fn padded9(s: &str) -> (r: String)
    ensures
        r@ == pad9(s@),
{
    let v = chars_of(s);
    let mut r = owned(s);
    if v.len() >= 9 {
        return r;
    }
    let mut k = v.len();
    while k < 9
        invariant
            v@ == s@,
            v.len() <= k <= 9,
            r@ == s@ + Seq::new((k - v.len()) as nat, |i: int| ' '),
        decreases 9 - k,
    {
        r.append(" ");
        proof {
            reveal_strlit(" ");
            assert(s@ + Seq::new((k + 1 - v.len()) as nat, |i: int| ' ') =~= s@ + Seq::new(
                (k - v.len()) as nat,
                |i: int| ' ',
            ) + " "@);
        }
        k = k + 1;
    }
    r
}

/// The line of one configured channel.
pub open spec fn channel_line(name: Seq<char>) -> Seq<char> {
    "  "@ + pad9(name) + " ✅ configured\n"@
}

/// The lines of the configured channels, in order.
pub open spec fn channel_lines(names: Seq<Seq<char>>) -> Seq<char>
    decreases names.len(),
{
    if names.len() == 0 {
        seq![]
    } else {
        channel_lines(names.drop_last()) + channel_line(names.last())
    }
}

/// The names of the configured channels.
pub open spec fn channel_names(r: StatusReport) -> Seq<Seq<char>> {
    r.channels.configured_channels@.map_values(|c: String| c@)
}

/// The text of `b` as on/off.
pub open spec fn on_off(b: bool) -> Seq<char> {
    if b {
        "on"@
    } else {
        "off"@
    }
}

/// The head of the human-readable status: the title, version, workspace,
/// config path and time.
pub open spec fn human_head(r: StatusReport) -> Seq<char> {
    "🦀 ZeroClaw Status\n\n"@ + "Version:     "@ + r.version@ + "\n"@ + "Workspace:   "@ + r.workspace@
        + "\n"@ + "Config:      "@ + r.config_path@ + "\n"@ + "Timestamp:   "@ + utc_format(
        r.timestamp_secs,
        r.timestamp_nanos,
        "%Y-%m-%d %H:%M:%S UTC"@,
    ) + "\n"@ + "\n"@
}

/// The system part of the human-readable status: provider, model,
/// observability, autonomy, runtime, service state, uptime and memory
/// backend.
pub open spec fn human_system(r: StatusReport) -> Seq<char> {
    "🤖 Provider:      "@ + r.provider.default_provider@ + "\n"@ + "   Model:         "@
        + r.provider.default_model@ + "\n"@ + "📊 Observability:  "@ + r.system.observability@ + "\n"@
        + "🛡️  Autonomy:      "@ + r.system.autonomy_level@ + "\n"@ + "⚙️  Runtime:       "@
        + r.system.runtime@ + "\n"@ + "🟢 Service:       "@ + (if r.system.service_running {
        "running"@
    } else {
        "stopped"@
    }) + "\n"@ + "⏱️  Uptime:        "@ + r.system.uptime@ + "\n"@ + "🧠 Memory:         "@
        + r.memory.backend@ + " (auto-save: "@ + on_off(r.memory.auto_save) + ")\n"@
}

/// The channel part of the human-readable status: CLI always, then each
/// configured channel.
pub open spec fn human_channels(r: StatusReport) -> Seq<char> {
    "\n"@ + "Channels:\n"@ + "  CLI:      ✅ always\n"@ + channel_lines(channel_names(r))
}

/// The resource part of the human-readable status: the resources that are
/// known.
pub open spec fn human_resources(r: StatusReport) -> Seq<char> {
    "\n"@ + "Resources:\n"@ + (match r.resources.memory_usage_mb {
        Some(m) => "  Memory:   "@ + dec(m as nat) + " MB\n"@,
        None => seq![],
    }) + (match r.resources.disk_available_gb {
        Some(d) => "  Disk:     "@ + d@ + " GB available\n"@,
        None => seq![],
    })
}

/// The human-readable status text: the head, the system part, the channels
/// and the resources.
pub open spec fn human_text(r: StatusReport) -> Seq<char> {
    human_head(r) + human_system(r) + human_channels(r) + human_resources(r)
}

fn human_head_of(report: &StatusReport) -> (out: String)
    ensures
        out@ == human_head(*report),
{
    let mut output = owned("🦀 ZeroClaw Status\n\n");
    output.append("Version:     ");
    output.append(report.version.as_str());
    output.append("\n");
    output.append("Workspace:   ");
    output.append(report.workspace.as_str());
    output.append("\n");
    output.append("Config:      ");
    output.append(report.config_path.as_str());
    output.append("\n");
    output.append("Timestamp:   ");
    let ts = format_utc(report.timestamp_secs, report.timestamp_nanos, "%Y-%m-%d %H:%M:%S UTC");
    output.append(ts.as_str());
    output.append("\n");
    output.append("\n");
    output
}

fn human_system_of(report: &StatusReport) -> (out: String)
    ensures
        out@ == human_system(*report),
{
    let mut output = owned("🤖 Provider:      ");
    output.append(report.provider.default_provider.as_str());
    output.append("\n");
    output.append("   Model:         ");
    output.append(report.provider.default_model.as_str());
    output.append("\n");
    output.append("📊 Observability:  ");
    output.append(report.system.observability.as_str());
    output.append("\n");
    output.append("🛡️  Autonomy:      ");
    output.append(report.system.autonomy_level.as_str());
    output.append("\n");
    output.append("⚙️  Runtime:       ");
    output.append(report.system.runtime.as_str());
    output.append("\n");
    output.append("🟢 Service:       ");
    output.append(
        if report.system.service_running {
            "running"
        } else {
            "stopped"
        },
    );
    output.append("\n");
    output.append("⏱️  Uptime:        ");
    output.append(report.system.uptime.as_str());
    output.append("\n");
    output.append("🧠 Memory:         ");
    output.append(report.memory.backend.as_str());
    output.append(" (auto-save: ");
    output.append(
        if report.memory.auto_save {
            "on"
        } else {
            "off"
        },
    );
    output.append(")\n");
    output
}

fn human_channels_of(report: &StatusReport) -> (out: String)
    ensures
        out@ == human_channels(*report),
{
    let mut output = owned("\n");
    output.append("Channels:\n");
    output.append("  CLI:      ✅ always\n");
    let ghost head = output@;
    let chans = &report.channels.configured_channels;
    let ghost names = channel_names(*report);
    let mut i: usize = 0;
    assert(names.take(0) =~= Seq::<Seq<char>>::empty());
    while i < chans.len()
        invariant
            0 <= i <= chans.len(),
            names == chans@.map_values(|c: String| c@),
            output@ == head + channel_lines(names.take(i as int)),
        decreases chans.len() - i,
    {
        output.append("  ");
        let p = padded9(chans[i].as_str());
        output.append(p.as_str());
        output.append(" ✅ configured\n");
        proof {
            assert(names.take(i + 1).drop_last() =~= names.take(i as int));
            assert(names.take(i + 1).last() == chans@[i as int]@);
        }
        i = i + 1;
    }
    assert(names.take(chans.len() as int) =~= names);
    output
}

fn human_resources_of(report: &StatusReport) -> (out: String)
    ensures
        out@ == human_resources(*report),
{
    let mut output = owned("\n");
    output.append("Resources:\n");
    if let Some(mem) = report.resources.memory_usage_mb {
        output.append("  Memory:   ");
        output.append(format_decimal(mem).as_str());
        output.append(" MB\n");
    }
    if let Some(disk) = &report.resources.disk_available_gb {
        output.append("  Disk:     ");
        output.append(disk.as_str());
        output.append(" GB available\n");
    }
    output
}

/// Formats the report as human-readable text (see `human_text`).
pub fn format_human_status(report: &StatusReport) -> (out: String)
    ensures
        out@ == human_text(*report),
{
    let mut output = human_head_of(report);
    output.append(human_system_of(report).as_str());
    output.append(human_channels_of(report).as_str());
    output.append(human_resources_of(report).as_str());
    output
}

/// The time of the one-line report: the UTC time of day as `HH:MM:SS` (see
/// `clock_text`) for an instant within range (see `utc_in_range`), what
/// chrono writes for `%H:%M:%S` otherwise.
pub open spec fn brief_time(r: StatusReport) -> Seq<char> {
    if utc_in_range(r.timestamp_secs, r.timestamp_nanos) {
        clock_text(r.timestamp_secs as int)
    } else {
        utc_format(r.timestamp_secs, r.timestamp_nanos, "%H:%M:%S"@)
    }
}

/// The one-line status: version, time of day, provider, memory backend and
/// whether the service runs.
pub open spec fn brief_text(r: StatusReport) -> Seq<char> {
    "ZeroClaw v"@ + r.version@ + " | "@ + brief_time(r)
        + " | Provider: "@ + r.provider.default_provider@ + " | Memory: "@ + r.memory.backend@ + " | Service: "@ + (
    if r.system.service_running {
        "✅"@
    } else {
        "❌"@
    })
}

/// Formats the report as one line (see `brief_text`).
pub fn format_brief_status(report: &StatusReport) -> (out: String)
    ensures
        out@ == brief_text(*report),
{
    let mut output = owned("ZeroClaw v");
    output.append(report.version.as_str());
    output.append(" | ");
    let ts = format_utc(report.timestamp_secs, report.timestamp_nanos, "%H:%M:%S");
    output.append(ts.as_str());
    output.append(" | Provider: ");
    output.append(report.provider.default_provider.as_str());
    output.append(" | Memory: ");
    output.append(report.memory.backend.as_str());
    output.append(" | Service: ");
    output.append(
        if report.system.service_running {
            "✅"
        } else {
            "❌"
        },
    );
    output
}

/// The output form a format name asks for.
#[derive(Debug, Clone, Copy, PartialEq, Eq, Structural)]
pub enum OutputFormat {
    Json,
    Brief,
    Human,
}

/// "json" asks for JSON, "brief" for the one-line text, anything else for
/// the human-readable text.
pub fn output_format(name: &str) -> (f: OutputFormat)
    ensures
        f == (if name@ == "json"@ {
            OutputFormat::Json
        } else if name@ == "brief"@ {
            OutputFormat::Brief
        } else {
            OutputFormat::Human
        }),
{
    if crate::text::str_eq(name, "json") {
        OutputFormat::Json
    } else if crate::text::str_eq(name, "brief") {
        OutputFormat::Brief
    } else {
        OutputFormat::Human
    }
}

/// `chrono::Utc::now()` as seconds and nanoseconds since the Unix epoch
/// (`timestamp()`, `timestamp_subsec_nanos()`). It reads the clock, so its
/// value is not stated; what holds of every outcome is: chrono takes the
/// time as a `Duration` since the epoch (it panics on a clock set before
/// 1970), so the seconds are not negative and the nanoseconds are those of
/// that `Duration`, below 10^9.
#[verifier::external_body]
fn now_utc() -> (r: (i64, u32))
    ensures
        r.0 >= 0,
        r.1 < 1_000_000_000,
{
    let t = chrono::Utc::now();
    (t.timestamp(), t.timestamp_subsec_nanos())
}

/// The channels that are configured, in order.
pub open spec fn configured_names(chs: Seq<(String, bool)>) -> Seq<Seq<char>>
    decreases chs.len(),
{
    if chs.len() == 0 {
        seq![]
    } else if chs.last().1 {
        configured_names(chs.drop_last()).push(chs.last().0@)
    } else {
        configured_names(chs.drop_last())
    }
}

/// An optional string's text, or `default`.
pub open spec fn text_or(o: Option<String>, default: Seq<char>) -> Seq<char> {
    match o {
        Some(s) => s@,
        None => default,
    }
}

fn string_or(o: Option<String>, default: &str) -> (r: String)
    ensures
        r@ == text_or(o, default@),
{
    match o {
        Some(s) => s,
        None => owned(default),
    }
}

/// `r` is the report assembled from `sources`: the provider defaults to
/// "openrouter" and the model to "(default)", the CLI channel is always
/// there and the configured channels are listed in order.
pub open spec fn report_of(sources: StatusSources, r: StatusReport) -> bool {
    &&& r.version@ == sources.version@
    &&& r.workspace@ == sources.workspace@
    &&& r.config_path@ == sources.config_path@
    &&& r.system.uptime@ == sources.uptime@
    &&& r.system.service_running == sources.service_running
    &&& r.system.observability@ == sources.observability@
    &&& r.system.autonomy_level@ == sources.autonomy_level@
    &&& r.system.runtime@ == sources.runtime@
    &&& r.provider.default_provider@ == text_or(sources.default_provider, "openrouter"@)
    &&& r.provider.default_model@ == text_or(sources.default_model, "(default)"@)
    &&& r.memory.backend@ == sources.memory_backend@
    &&& r.memory.auto_save == sources.auto_save
    &&& r.channels.cli
    &&& r.channels.configured_channels@.map_values(|c: String| c@) == configured_names(
        sources.channels@,
    )
    &&& r.resources.memory_usage_mb == sources.memory_usage_mb
    &&& r.resources.disk_available_gb == sources.disk_available_gb
}

/// Assembles the status report from its sources (see `report_of`), at the
/// time of the call (read from the clock; of its value only that it is not
/// before the Unix epoch and has fewer than 10^9 nanoseconds).
pub fn generate_status_report(sources: StatusSources) -> (r: StatusReport)
    ensures
        report_of(sources, r),
        r.timestamp_secs >= 0,
        r.timestamp_nanos < 1_000_000_000,
{
    let (secs, nanos) = now_utc();
    generate_status_report_at(sources, secs, nanos)
}

/// Assembles the status report from its sources (see `report_of`), timed
/// `secs` seconds and `nanos` nanoseconds after the Unix epoch.
pub fn generate_status_report_at(sources: StatusSources, secs: i64, nanos: u32) -> (r:
    StatusReport)
    ensures
        report_of(sources, r),
        r.timestamp_secs == secs,
        r.timestamp_nanos == nanos,
{
    let chs = &sources.channels;
    let mut names: Vec<String> = Vec::new();
    let mut i: usize = 0;
    assert(chs@.take(0) =~= Seq::<(String, bool)>::empty());
    while i < chs.len()
        invariant
            0 <= i <= chs.len(),
            names@.map_values(|c: String| c@) == configured_names(chs@.take(i as int)),
        decreases chs.len() - i,
    {
        proof {
            assert(chs@.take(i + 1).drop_last() =~= chs@.take(i as int));
            assert(chs@.take(i + 1).last() == chs@[i as int]);
        }
        if chs[i].1 {
            let ghost before = names@;
            names.push(chs[i].0.clone());
            assert(names@.map_values(|c: String| c@) =~= before.map_values(|c: String| c@).push(
                chs@[i as int].0@,
            ));
        }
        i = i + 1;
    }
    assert(chs@.take(chs.len() as int) =~= chs@);
    let StatusSources {
        version,
        workspace,
        config_path,
        uptime,
        service_running,
        observability,
        autonomy_level,
        runtime,
        default_provider,
        default_model,
        memory_backend,
        auto_save,
        channels: _,
        memory_usage_mb,
        disk_available_gb,
    } = sources;
    StatusReport {
        timestamp_secs: secs,
        timestamp_nanos: nanos,
        version,
        workspace,
        config_path,
        system: SystemStatus { uptime, service_running, observability, autonomy_level, runtime },
        provider: ProviderStatus {
            default_provider: string_or(default_provider, "openrouter"),
            default_model: string_or(default_model, "(default)"),
        },
        memory: MemoryStatus { backend: memory_backend, auto_save },
        channels: ChannelStatus { cli: true, configured_channels: names },
        resources: ResourceStatus { memory_usage_mb, disk_available_gb },
    }
}

/// `needle` occurs in `hay` at position `i`.
pub open spec fn occurs_at_pos(hay: Seq<char>, needle: Seq<char>, i: int) -> bool {
    0 <= i && i + needle.len() <= hay.len() && hay.subrange(i, i + needle.len()) == needle
}

proof fn lemma_occurs_in_concat(a: Seq<char>, b: Seq<char>, needle: Seq<char>, i: int)
    ensures
        occurs_at_pos(a, needle, i) ==> occurs_at_pos(a + b, needle, i),
        occurs_at_pos(b, needle, i) ==> occurs_at_pos(a + b, needle, a.len() + i),
{
    if occurs_at_pos(a, needle, i) {
        assert((a + b).subrange(i, i + needle.len()) =~= a.subrange(i, i + needle.len()));
    }
    if occurs_at_pos(b, needle, i) {
        assert((a + b).subrange(a.len() + i, a.len() + i + needle.len()) =~= b.subrange(
            i,
            i + needle.len(),
        ));
    }
}

proof fn lemma_head_fields(r: StatusReport)
    ensures
        exists|i: int| occurs_at_pos(human_head(r), "Version:     "@ + r.version@ + "\n"@, i),
        exists|i: int| occurs_at_pos(human_head(r), "Workspace:   "@ + r.workspace@ + "\n"@, i),
        exists|i: int| occurs_at_pos(human_head(r), "Config:      "@ + r.config_path@ + "\n"@, i),
{
    let t = human_head(r);
    let title = "🦀 ZeroClaw Status\n\n"@;
    let v = "Version:     "@ + r.version@ + "\n"@;
    let w = "Workspace:   "@ + r.workspace@ + "\n"@;
    let c = "Config:      "@ + r.config_path@ + "\n"@;
    let v0: int = title.len() as int;
    assert(t.subrange(v0, v0 + v.len()) =~= v);
    assert(occurs_at_pos(t, v, v0));
    let w0: int = v0 + v.len() as int;
    assert(t.subrange(w0, w0 + w.len()) =~= w);
    assert(occurs_at_pos(t, w, w0));
    let c0: int = w0 + w.len();
    assert(t.subrange(c0, c0 + c.len()) =~= c);
    assert(occurs_at_pos(t, c, c0));
}

proof fn lemma_system_fields(r: StatusReport)
    ensures
        occurs_at_pos(
            human_system(r),
            "🤖 Provider:      "@ + r.provider.default_provider@ + "\n"@ + "   Model:         "@
                + r.provider.default_model@ + "\n"@,
            0,
        ),
        exists|i: int|
            occurs_at_pos(human_system(r), "📊 Observability:  "@ + r.system.observability@ + "\n"@, i),
        exists|i: int|
            occurs_at_pos(human_system(r), "🛡️  Autonomy:      "@ + r.system.autonomy_level@ + "\n"@, i),
        exists|i: int|
            occurs_at_pos(human_system(r), "⚙️  Runtime:       "@ + r.system.runtime@ + "\n"@, i),
        exists|i: int|
            occurs_at_pos(human_system(r), "⏱️  Uptime:        "@ + r.system.uptime@ + "\n"@, i),
{
    let t = human_system(r);
    let pm = "🤖 Provider:      "@ + r.provider.default_provider@ + "\n"@ + "   Model:         "@
        + r.provider.default_model@ + "\n"@;
    assert(t.subrange(0, pm.len() as int) =~= pm);
    let o = "📊 Observability:  "@ + r.system.observability@ + "\n"@;
    let o0: int = pm.len() as int;
    assert(t.subrange(o0, o0 + o.len()) =~= o);
    assert(occurs_at_pos(t, o, o0));
    let a = "🛡️  Autonomy:      "@ + r.system.autonomy_level@ + "\n"@;
    let a0: int = o0 + o.len();
    assert(t.subrange(a0, a0 + a.len()) =~= a);
    assert(occurs_at_pos(t, a, a0));
    let rt = "⚙️  Runtime:       "@ + r.system.runtime@ + "\n"@;
    let r0: int = a0 + a.len();
    assert(t.subrange(r0, r0 + rt.len()) =~= rt);
    assert(occurs_at_pos(t, rt, r0));
    let sv = "🟢 Service:       "@ + (if r.system.service_running {
        "running"@
    } else {
        "stopped"@
    }) + "\n"@;
    let u = "⏱️  Uptime:        "@ + r.system.uptime@ + "\n"@;
    let u0: int = r0 + rt.len() + sv.len();
    assert(t.subrange(u0, u0 + u.len()) =~= u);
    assert(occurs_at_pos(t, u, u0));
}

/// The human-readable status shows each of the report's fields on its own
/// labelled line: the version, workspace and config path at the top, then
/// the provider followed directly by the model, the observability backend,
/// the autonomy level, the runtime and the uptime; the report's provider is
/// never shown as the model or the other way round.
pub proof fn law_human_status_shows_fields(r: StatusReport)
    ensures
        exists|i: int|
            occurs_at_pos(
                human_text(r),
                "🤖 Provider:      "@ + r.provider.default_provider@ + "\n"@ + "   Model:         "@
                    + r.provider.default_model@ + "\n"@,
                i,
            ),
        exists|i: int| occurs_at_pos(human_text(r), "Version:     "@ + r.version@ + "\n"@, i),
        exists|i: int| occurs_at_pos(human_text(r), "Workspace:   "@ + r.workspace@ + "\n"@, i),
        exists|i: int| occurs_at_pos(human_text(r), "Config:      "@ + r.config_path@ + "\n"@, i),
        exists|i: int|
            occurs_at_pos(human_text(r), "📊 Observability:  "@ + r.system.observability@ + "\n"@, i),
        exists|i: int|
            occurs_at_pos(human_text(r), "🛡️  Autonomy:      "@ + r.system.autonomy_level@ + "\n"@, i),
        exists|i: int| occurs_at_pos(human_text(r), "⚙️  Runtime:       "@ + r.system.runtime@ + "\n"@, i),
        exists|i: int| occurs_at_pos(human_text(r), "⏱️  Uptime:        "@ + r.system.uptime@ + "\n"@, i),
{
    let hd = human_head(r);
    let sy = human_system(r);
    let ch = human_channels(r);
    let rs = human_resources(r);
    assert(human_text(r) == hd + sy + ch + rs);
    lemma_head_fields(r);
    lemma_system_fields(r);
    let needles = seq![
        "🤖 Provider:      "@ + r.provider.default_provider@ + "\n"@ + "   Model:         "@
            + r.provider.default_model@ + "\n"@,
        "Version:     "@ + r.version@ + "\n"@,
        "Workspace:   "@ + r.workspace@ + "\n"@,
        "Config:      "@ + r.config_path@ + "\n"@,
        "📊 Observability:  "@ + r.system.observability@ + "\n"@,
        "🛡️  Autonomy:      "@ + r.system.autonomy_level@ + "\n"@,
        "⚙️  Runtime:       "@ + r.system.runtime@ + "\n"@,
        "⏱️  Uptime:        "@ + r.system.uptime@ + "\n"@,
    ];
    assert forall|n: int| 0 <= n < needles.len() implies exists|i: int|
        occurs_at_pos(human_text(r), #[trigger] needles[n], i) by {
        let x = needles[n];
        if n == 0 {
            lemma_occurs_in_concat(hd, sy, x, 0);
            lemma_occurs_in_concat(hd + sy, ch, x, hd.len() as int);
            lemma_occurs_in_concat(hd + sy + ch, rs, x, hd.len() as int);
        } else if 1 <= n <= 3 {
            let i = choose|i: int| occurs_at_pos(hd, x, i);
            lemma_occurs_in_concat(hd, sy, x, i);
            lemma_occurs_in_concat(hd + sy, ch, x, i);
            lemma_occurs_in_concat(hd + sy + ch, rs, x, i);
        } else {
            let i = choose|i: int| occurs_at_pos(sy, x, i);
            lemma_occurs_in_concat(hd, sy, x, i);
            lemma_occurs_in_concat(hd + sy, ch, x, hd.len() + i);
            lemma_occurs_in_concat(hd + sy + ch, rs, x, hd.len() + i);
        }
    }
    assert(needles[0] == needles[0]);
    assert(needles[1] == needles[1]);
    assert(needles[2] == needles[2]);
    assert(needles[3] == needles[3]);
    assert(needles[4] == needles[4]);
    assert(needles[5] == needles[5]);
    assert(needles[6] == needles[6]);
    assert(needles[7] == needles[7]);
}

/// The one-line status begins with the version and names the provider and
/// then the memory backend, each after its own label.
pub proof fn law_brief_status_shows_fields(r: StatusReport)
    ensures
        occurs_at_pos(brief_text(r), "ZeroClaw v"@ + r.version@ + " | "@, 0),
        exists|i: int|
            occurs_at_pos(
                brief_text(r),
                " | Provider: "@ + r.provider.default_provider@ + " | Memory: "@ + r.memory.backend@
                    + " | Service: "@,
                i,
            ),
{
    let t = brief_text(r);
    let p = "ZeroClaw v"@ + r.version@ + " | "@;
    assert(t.subrange(0, p.len() as int) =~= p);
    let q = " | Provider: "@ + r.provider.default_provider@ + " | Memory: "@ + r.memory.backend@
        + " | Service: "@;
    let i: int = p.len() as int + brief_time(r).len();
    assert(t.subrange(i, i + q.len()) =~= q);
    assert(occurs_at_pos(t, q, i));
}

} // verus!
