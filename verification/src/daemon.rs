//! The daemon's own decisions: SysRq settings, the status query, interval
//! settings, discovery back-off, and when discovered data is too old to use.
use vstd::prelude::*;
use vstd::arithmetic::power2::{pow2, lemma2_to64, lemma2_to64_rest, lemma_pow2_unfold};
use crate::text::{
    chars_of, concat, decimal, is_whitespace, parse_i32, spec_parse_i32, split_chars, split_on,
    starts_with_chars, string_of, trim, trim_chars, u64_to_decimal, lemma_split_on_nonempty,
    spec_parse_u64, parse_u64,
};

verus! {

/// The bit of `/proc/sys/kernel/sysrq` that enables a SysRq command character.
pub open spec fn sysrq_bit(c: char) -> Option<i32> {
    if c == 's' {
        Some(16)
    } else if c == 'b' || c == 'o' {
        Some(128)
    } else if c == 'c' {
        Some(2)
    } else if c == 'u' {
        Some(32)
    } else if c == 'r' {
        Some(4)
    } else if c == 'e' || c == 'i' || c == 'f' {
        Some(64)
    } else if c == 't' || c == 'p' || c == 'm' || c == 'w' {
        Some(8)
    } else {
        None
    }
}

/// The enabling bit of a SysRq command character, if it is one the daemon accepts.
pub fn sysrq_char_to_bit(c: char) -> (r: Option<i32>)
    ensures
        r == sysrq_bit(c),
{
    match c {
        's' => Some(16),
        'b' | 'o' => Some(128),
        'c' => Some(2),
        'u' => Some(32),
        'r' => Some(4),
        'e' | 'i' | 'f' => Some(64),
        't' | 'p' | 'm' | 'w' => Some(8),
        _ => None,
    }
}

/// The characters of a SysRq setting such as `s, b`: the comma-separated parts,
/// trimmed, run together.
pub open spec fn sysrq_sequence_of(parts: Seq<Seq<char>>) -> Seq<char>
    decreases parts.len(),
{
    if parts.len() == 0 {
        Seq::empty()
    } else {
        sysrq_sequence_of(parts.drop_last()) + trim(parts.last())
    }
}

pub open spec fn sysrq_sequence(setting: Seq<char>) -> Seq<char> {
    sysrq_sequence_of(split_on(setting, ','))
}

/// The characters a SysRq setting names, in order.
pub fn sysrq_chars(setting: &str) -> (r: Vec<char>)
    ensures
        r@ == sysrq_sequence(setting@),
{
    let cs = chars_of(setting);
    let parts = split_chars(cs.as_slice(), ',');
    let ghost pv = parts@.map_values(|p: Vec<char>| p@);
    let mut out: Vec<char> = Vec::new();
    let mut i: usize = 0;
    assert(pv.take(0) =~= Seq::<Seq<char>>::empty());
    while i < parts.len()
        invariant
            i <= parts.len(),
            pv == parts@.map_values(|p: Vec<char>| p@),
            pv == split_on(setting@, ','),
            out@ == sysrq_sequence_of(pv.take(i as int)),
        decreases parts.len() - i,
    {
        assert(pv.take(i + 1).drop_last() =~= pv.take(i as int));
        assert(pv.take(i + 1).last() == parts@[i as int]@);
        let mut t = trim_chars(parts[i].as_slice());
        let ghost before = out@;
        let ghost tv = t@;
        out.append(&mut t);
        assert(out@ =~= before + tv);
        i = i + 1;
    }
    assert(pv.take(parts.len() as int) =~= pv);
    out
}

/// The first character of a sequence that is not a SysRq command the daemon accepts.
pub open spec fn first_invalid(chars: Seq<char>) -> Option<char>
    decreases chars.len(),
{
    if chars.len() == 0 {
        None
    } else if sysrq_bit(chars[0]) is None {
        Some(chars[0])
    } else {
        first_invalid(chars.drop_first())
    }
}

/// What is wrong with a SysRq setting, if anything: it names no character, or it
/// names one that is not a SysRq command the daemon accepts.
pub open spec fn sysrq_setting_error(setting: Seq<char>) -> Option<Seq<char>> {
    let chars = sysrq_sequence(setting);
    if chars.len() == 0 {
        Some("sysrq-char configuration cannot be empty"@)
    } else {
        match first_invalid(chars) {
            Some(c) => Some("Invalid SysRq character '"@ + seq![c] + "' specified in configuration"@),
            None => None,
        }
    }
}

/// Checks a SysRq setting; on success returns the characters it names.
pub fn validate_sysrq_chars(setting: &str) -> (r: Result<Vec<char>, String>)
    ensures
        match sysrq_setting_error(setting@) {
            Some(m) => r matches Err(e) && e@ == m,
            None => r matches Ok(v) && v@ == sysrq_sequence(setting@),
        },
{
    let chars = sysrq_chars(setting);
    if chars.len() == 0 {
        return Err("sysrq-char configuration cannot be empty".to_string());
    }
    let mut i: usize = 0;
    assert(chars@.skip(0) =~= chars@);
    while i < chars.len()
        invariant
            i <= chars.len(),
            chars.len() > 0,
            chars@ == sysrq_sequence(setting@),
            first_invalid(chars@) == first_invalid(chars@.skip(i as int)),
        decreases chars.len() - i,
    {
        assert(chars@.skip(i as int)[0] == chars@[i as int]);
        assert(chars@.skip(i as int).drop_first() =~= chars@.skip(i + 1));
        if sysrq_char_to_bit(chars[i]).is_none() {
            let s = "Invalid SysRq character '".to_string();
            let one = [chars[i]];
            let c = string_of(&one);
            let a = concat(s.as_str(), c.as_str());
            let m = concat(a.as_str(), "' specified in configuration");
            assert(one@ =~= seq![chars@[i as int]]);
            return Err(m);
        }
        i = i + 1;
    }
    assert(chars@.skip(i as int) =~= Seq::<char>::empty());
    Ok(chars)
}

/// One issue to record: key and message.
pub type IssueNote = (Seq<char>, Seq<char>);

pub open spec fn notes_view(v: Seq<(String, String)>) -> Seq<IssueNote> {
    v.map_values(|p: (String, String)| (p.0@, p.1@))
}

/// The issues for each configured character that the kernel's SysRq bitmask `val`
/// leaves disabled, in order.
pub open spec fn disabled_char_notes(chars: Seq<char>, val: i32, val_text: Seq<char>) -> Seq<IssueNote>
    decreases chars.len(),
{
    if chars.len() == 0 {
        Seq::empty()
    } else {
        let prev = disabled_char_notes(chars.drop_last(), val, val_text);
        let c = chars.last();
        match sysrq_bit(c) {
            Some(bit) => if val & bit == 0 {
                prev.push(
                    (
                        "sysrq_"@ + seq![c],
                        "Configured SysRq char '"@ + seq![c] + "' is disabled by /proc/sys/kernel/sysrq bitmask ("@
                            + val_text + ")!"@,
                    ),
                )
            } else {
                prev
            },
            None => prev,
        }
    }
}

/// The issues that the content of `/proc/sys/kernel/sysrq` raises for the
/// configured characters: SysRq disabled (0), characters masked out (any value
/// but 1), or a value that is no `i32`.
pub open spec fn sysrq_setting_notes(chars: Seq<char>, content: Seq<char>) -> Seq<IssueNote> {
    let t = trim(content);
    match spec_parse_i32(t) {
        Some(v) => if v == 0 {
            seq![
                (
                    "sysrq"@,
                    "SysRq is disabled (value is 0) in /proc/sys/kernel/sysrq. Fencing operations will fail!"@,
                ),
            ]
        } else if v != 1 {
            disabled_char_notes(chars, v, t)
        } else {
            Seq::empty()
        },
        None => seq![("sysrq_parse"@, "Could not parse /proc/sys/kernel/sysrq value: "@ + t)],
    }
}

/// The issues to record after reading `/proc/sys/kernel/sysrq` (see `sysrq_setting_notes`).
pub fn sysrq_state_issues(chars: &[char], content: &str) -> (r: Vec<(String, String)>)
    ensures
        notes_view(r@) == sysrq_setting_notes(chars@, content@),
{
    let cs = chars_of(content);
    let t = trim_chars(cs.as_slice());
    let ts = string_of(t.as_slice());
    let mut out: Vec<(String, String)> = Vec::new();
    match parse_i32(t.as_slice()) {
        Some(v) => {
            if v == 0 {
                out.push(
                    (
                        "sysrq".to_string(),
                        "SysRq is disabled (value is 0) in /proc/sys/kernel/sysrq. Fencing operations will fail!".to_string(),
                    ),
                );
                assert(notes_view(out@) =~= sysrq_setting_notes(chars@, content@));
            } else if v != 1 {
                let mut i: usize = 0;
                assert(chars@.take(0) =~= Seq::<char>::empty());
                assert(notes_view(out@) =~= Seq::<IssueNote>::empty());
                while i < chars.len()
                    invariant
                        i <= chars.len(),
                        ts@ == t@,
                        notes_view(out@) == disabled_char_notes(chars@.take(i as int), v, t@),
                    decreases chars.len() - i,
                {
                    let c = chars[i];
                    assert(chars@.take(i + 1).drop_last() =~= chars@.take(i as int));
                    assert(chars@.take(i + 1).last() == c);
                    match sysrq_char_to_bit(c) {
                        Some(bit) => {
                            if v & bit == 0 {
                                let one = [c];
                                let cstr = string_of(&one);
                                assert(one@ =~= seq![c]);
                                let key = concat("sysrq_", cstr.as_str());
                                let m1 = concat("Configured SysRq char '", cstr.as_str());
                                let m2 = concat(m1.as_str(), "' is disabled by /proc/sys/kernel/sysrq bitmask (");
                                let m3 = concat(m2.as_str(), ts.as_str());
                                let m4 = concat(m3.as_str(), ")!");
                                let ghost before = notes_view(out@);
                                let ghost note = (key@, m4@);
                                out.push((key, m4));
                                assert(notes_view(out@) =~= before.push(note));
                            }
                        },
                        None => {},
                    }
                    i = i + 1;
                }
                assert(chars@.take(chars.len() as int) =~= chars@);
            } else {
                assert(notes_view(out@) =~= Seq::<IssueNote>::empty());
            }
        },
        None => {
            let m = concat("Could not parse /proc/sys/kernel/sysrq value: ", ts.as_str());
            out.push(("sysrq_parse".to_string(), m));
            assert(notes_view(out@) =~= sysrq_setting_notes(chars@, content@));
        },
    }
    out
}

/// What the status query prints for the content of the status file, and the
/// Nagios exit code: the status line itself (0 for `OK -`, 1 for `WARNING -`,
/// 2 for `CRITICAL -`), or an `UNKNOWN` line (3) for an empty or badly
/// formatted file. The content is trimmed first.
pub open spec fn status_report(content: Seq<char>) -> (Seq<char>, i32) {
    let t = trim(content);
    if t.len() == 0 {
        ("UNKNOWN - Status file is empty"@, 3)
    } else if "OK -"@.is_prefix_of(t) {
        (t, 0)
    } else if "WARNING -"@.is_prefix_of(t) {
        (t, 1)
    } else if "CRITICAL -"@.is_prefix_of(t) {
        (t, 2)
    } else {
        ("UNKNOWN - Badly formatted status file: "@ + t, 3)
    }
}

/// Classifies the content of a status file (see `status_report`).
pub fn status_query_report(content: &str) -> (r: (String, i32))
    ensures
        (r.0@, r.1) == status_report(content@),
{
    let cs = chars_of(content);
    let t = trim_chars(cs.as_slice());
    let ts = string_of(t.as_slice());
    if t.len() == 0 {
        return ("UNKNOWN - Status file is empty".to_string(), 3);
    }
    let ok = chars_of("OK -");
    let warning = chars_of("WARNING -");
    let critical = chars_of("CRITICAL -");
    if starts_with_chars(t.as_slice(), ok.as_slice()) {
        (ts, 0)
    } else if starts_with_chars(t.as_slice(), warning.as_slice()) {
        (ts, 1)
    } else if starts_with_chars(t.as_slice(), critical.as_slice()) {
        (ts, 2)
    } else {
        (concat("UNKNOWN - Badly formatted status file: ", ts.as_str()), 3)
    }
}

/// The age (in seconds) beyond which the status file is outdated: three polling
/// intervals, but at least 30 s.
pub open spec fn status_age_limit(poll_interval: u64) -> int {
    if 3 * poll_interval > 30 {
        3 * poll_interval
    } else {
        30
    }
}

/// The `UNKNOWN` line for a status file last modified `elapsed_secs` ago, when it is
/// outdated.
pub fn status_outdated_message(elapsed_secs: u64, poll_interval: u64) -> (r: Option<String>)
    requires
        3 * poll_interval <= u64::MAX,
    ensures
        match r {
            Some(m) => elapsed_secs > status_age_limit(poll_interval) && m@
                == "UNKNOWN - Status file is outdated (last modified "@ + decimal(elapsed_secs as nat) + " seconds ago)"@,
            None => elapsed_secs <= status_age_limit(poll_interval),
        },
{
    let three = 3 * poll_interval;
    let threshold = if three > 30 {
        three
    } else {
        30
    };
    if elapsed_secs > threshold {
        let a = concat("UNKNOWN - Status file is outdated (last modified ", u64_to_decimal(elapsed_secs).as_str());
        Some(concat(a.as_str(), " seconds ago)"))
    } else {
        None
    }
}

/// The first interval setting that is zero, as the daemon reports it.
pub open spec fn interval_error(poll_interval: u64, max_failures: u64, discovery_interval: u64) -> Option<Seq<char>> {
    if poll_interval == 0 {
        Some("poll-interval cannot be 0"@)
    } else if max_failures == 0 {
        Some("max-failures cannot be 0"@)
    } else if discovery_interval == 0 {
        Some("discovery-interval cannot be 0"@)
    } else {
        None
    }
}

/// Checks the interval settings: none of them may be zero.
pub fn check_intervals(poll_interval: u64, max_failures: u64, discovery_interval: u64) -> (r: Option<String>)
    ensures
        match r {
            Some(m) => interval_error(poll_interval, max_failures, discovery_interval) == Some(m@),
            None => interval_error(poll_interval, max_failures, discovery_interval) is None,
        },
{
    if poll_interval == 0 {
        Some("poll-interval cannot be 0".to_string())
    } else if max_failures == 0 {
        Some("max-failures cannot be 0".to_string())
    } else if discovery_interval == 0 {
        Some("discovery-interval cannot be 0".to_string())
    } else {
        None
    }
}

/// The exponent of the back-off: the failures beyond the retry limit, taken
/// modulo 2^32 (the daemon reads it as a `u32`).
pub open spec fn backoff_exponent(consecutive_failures: u64, max_retries: u64) -> u32 {
    (consecutive_failures - max_retries) as u32
}

/// Whether the discovery loop backs off after this many consecutive failures.
pub open spec fn backs_off(consecutive_failures: u64, max_retries: u64) -> bool {
    consecutive_failures > 0 && max_retries > 0 && consecutive_failures >= max_retries
}

/// The back-off delay: `base * 2^exponent` (saturating), at most `max`.
pub open spec fn backoff_delay(consecutive_failures: u64, max_retries: u64, base: u64, max: u64) -> u64 {
    let p = pow2(backoff_exponent(consecutive_failures, max_retries) as nat);
    let d = if base * p > u64::MAX {
        u64::MAX
    } else {
        (base * p) as u64
    };
    if d < max {
        d
    } else {
        max
    }
}

/// The delay (in seconds) before the next discovery after consecutive failures:
/// none before the retry limit (or with no limit), else an exponential back-off
/// capped at `max`. The power of two must fit in 64 bits (the daemon computes it
/// as a `u64`).
pub fn discovery_backoff(consecutive_failures: u64, max_retries: u64, base: u64, max: u64) -> (r: Option<u64>)
    requires
        backs_off(consecutive_failures, max_retries) ==> backoff_exponent(consecutive_failures, max_retries) < 64,
    ensures
        match r {
            Some(d) => backs_off(consecutive_failures, max_retries) && d == backoff_delay(
                consecutive_failures,
                max_retries,
                base,
                max,
            ),
            None => !backs_off(consecutive_failures, max_retries),
        },
{
    if !(consecutive_failures > 0 && max_retries > 0 && consecutive_failures >= max_retries) {
        return None;
    }
    let e: u32 = (consecutive_failures - max_retries) as u32;
    let mut p: u64 = 1;
    let mut k: u32 = 0;
    proof {
        lemma2_to64();
        lemma2_to64_rest();
    }
    while k < e
        invariant
            k <= e,
            e < 64,
            e == backoff_exponent(consecutive_failures, max_retries),
            p as nat == pow2(k as nat),
            pow2(63) == 0x8000000000000000,
        decreases e - k,
    {
        proof {
            lemma_pow2_unfold((k + 1) as nat);
            vstd::arithmetic::power2::lemma_pow2_strictly_increases(k as nat, 63);
        }
        if k < 63 {
            assert(p < 0x8000000000000000) by {
                if k < 63 {
                    vstd::arithmetic::power2::lemma_pow2_strictly_increases(k as nat, 63);
                }
            };
        }
        p = p * 2;
        k = k + 1;
    }
    let d = match base.checked_mul(p) {
        Some(x) => x,
        None => u64::MAX,
    };
    Some(if d < max {
        d
    } else {
        max
    })
}

/// The back-off grows with the failures and never exceeds its maximum: of two
/// failure counts that both back off, the larger one waits at least as long (as
/// long as the exponent has not wrapped around in 32 bits).
pub proof fn lemma_backoff_grows(cf1: u64, cf2: u64, max_retries: u64, base: u64, max: u64)
    requires
        backs_off(cf1, max_retries),
        cf1 <= cf2,
        cf2 - max_retries < 0x1_0000_0000,
    ensures
        backoff_delay(cf1, max_retries, base, max) <= backoff_delay(cf2, max_retries, base, max),
        backoff_delay(cf2, max_retries, base, max) <= max,
{
    let e1 = backoff_exponent(cf1, max_retries);
    let e2 = backoff_exponent(cf2, max_retries);
    assert(e1 as int == cf1 - max_retries);
    assert(e2 as int == cf2 - max_retries);
    let p1 = pow2(e1 as nat);
    let p2 = pow2(e2 as nat);
    if e1 < e2 {
        vstd::arithmetic::power2::lemma_pow2_strictly_increases(e1 as nat, e2 as nat);
    }
    assert(p1 <= p2);
    vstd::arithmetic::mul::lemma_mul_inequality(p1 as int, p2 as int, base as int);
    assert(p1 * base <= p2 * base);
    assert(base * p1 <= base * p2) by {
        vstd::arithmetic::mul::lemma_mul_is_commutative(base as int, p1 as int);
        vstd::arithmetic::mul::lemma_mul_is_commutative(base as int, p2 as int);
    };
}

/// The status message while the discovery loop backs off.
pub fn backoff_message(consecutive_failures: u64, backoff_seconds: u64) -> (r: String)
    ensures
        r@ == "Discovery thread: "@ + decimal(consecutive_failures as nat) + " consecutive failures, backing off for "@
            + decimal(backoff_seconds as nat) + " seconds"@,
{
    let a = concat("Discovery thread: ", u64_to_decimal(consecutive_failures).as_str());
    let b = concat(a.as_str(), " consecutive failures, backing off for ");
    let c = concat(b.as_str(), u64_to_decimal(backoff_seconds).as_str());
    concat(c.as_str(), " seconds")
}

/// The time to wait for the reboot after the `b` command: the setting read as a
/// `u64`, else 10 s.
pub fn reboot_timeout_secs(setting: Option<&str>) -> (r: u64)
    ensures
        r == match setting {
            Some(t) => match spec_parse_u64(t@) {
                Some(n) => n,
                None => 10,
            },
            None => 10,
        },
{
    match setting {
        Some(t) => {
            let cs = chars_of(t);
            match parse_u64(cs.as_slice()) {
                Some(n) => n,
                None => 10,
            }
        },
        None => 10,
    }
}

/// Whether data discovered `elapsed` ago (seconds and nanoseconds) is too old:
/// older than two discovery intervals.
pub open spec fn is_stale_after(elapsed_secs: u64, elapsed_nanos: u32, interval_secs: u64) -> bool {
    elapsed_secs > 2 * interval_secs || (elapsed_secs == 2 * interval_secs && elapsed_nanos > 0)
}

/// Decides staleness from the elapsed time (see `is_stale_after`).
pub fn stale_after(elapsed_secs: u64, elapsed_nanos: u32, interval_secs: u64) -> (r: bool)
    requires
        2 * interval_secs <= u64::MAX,
    ensures
        r == is_stale_after(elapsed_secs, elapsed_nanos, interval_secs),
{
    let max_age = 2 * interval_secs;
    elapsed_secs > max_age || (elapsed_secs == max_age && elapsed_nanos > 0)
}

#[verifier::external_type_specification]
#[verifier::external_body]
pub struct ExInstant(std::time::Instant);

/// `Instant::now`: the current time; nothing is claimed of it.
#[verifier::external_body]
fn now() -> std::time::Instant {
    std::time::Instant::now()
}

/// `Instant::elapsed`: the time since the instant; nothing is claimed of it.
#[verifier::external_body]
fn elapsed_since(t: &std::time::Instant) -> core::time::Duration {
    t.elapsed()
}

/// `Duration::as_secs`: the whole seconds of a duration; nothing is claimed of them.
#[verifier::external_body]
fn duration_secs(d: &core::time::Duration) -> u64 {
    d.as_secs()
}

/// `Duration::subsec_nanos`: the fractional part in nanoseconds, below 10^9 as its
/// documentation says.
#[verifier::external_body]
fn duration_subsec_nanos(d: &core::time::Duration) -> (r: u32)
    ensures
        r < 1_000_000_000,
{
    d.subsec_nanos()
}

/// Active multipath devices together with the time of their discovery.
pub struct ActiveLunsWithTimestamp {
    pub luns: Vec<String>,
    discovered_at: std::time::Instant,
}

impl ActiveLunsWithTimestamp {
    /// The recorded in-use entries.
    pub closed spec fn entries(&self) -> Seq<String> {
        self.luns@
    }

    /// Records the in-use entries as discovered now.
    pub fn new(luns: Vec<String>) -> (r: Self)
        ensures
            r.entries() == luns@,
    {
        ActiveLunsWithTimestamp { luns, discovered_at: now() }
    }

    /// The recorded in-use entries (what `entries` denotes), for callers outside
    /// this module.
    pub fn luns(&self) -> (r: &Vec<String>)
        ensures
            r@ == self.entries(),
    {
        &self.luns
    }

    /// Whether the data is older than two discovery intervals (given in seconds).
    /// The answer depends on the clock; what is decided from the elapsed time is
    /// `stale_after`.
    pub fn is_stale(&self, discovery_interval_secs: u64) -> (r: bool)
        requires
            2 * discovery_interval_secs <= u64::MAX,
    {
        let d = elapsed_since(&self.discovered_at);
        let secs = duration_secs(&d);
        let nanos = duration_subsec_nanos(&d);
        stale_after(secs, nanos, discovery_interval_secs)
    }
}

} // verus!
