//! Decimal text of ids, archive paths, and the uptime stamp of log lines.

use vstd::prelude::*;
use vstd::string::StringExecFns;

verus! {

/// The character of a decimal digit.
pub open spec fn digit_char(d: nat) -> char {
    if d == 0 { '0' }
    else if d == 1 { '1' }
    else if d == 2 { '2' }
    else if d == 3 { '3' }
    else if d == 4 { '4' }
    else if d == 5 { '5' }
    else if d == 6 { '6' }
    else if d == 7 { '7' }
    else if d == 8 { '8' }
    else { '9' }
}

/// The decimal digits of `n`, most significant first, without leading zeros.
pub open spec fn decimal(n: nat) -> Seq<char>
    decreases n,
{
    if n < 10 {
        seq![digit_char(n)]
    } else {
        decimal(n / 10).push(digit_char(n % 10))
    }
}

/// Relies on `itoa::Buffer::format`: the decimal text of an unsigned integer,
/// digits only, without leading zeros.
#[verifier::external_body]
pub(crate) fn u64_text(n: u64) -> (r: String)
    ensures
        r@ == decimal(n as nat),
{
    itoa::Buffer::new().format(n).to_string()
}

/// The path separator.
pub open spec fn sep() -> char {
    '/'
}

/// `base` with `part` pushed as a further path component.
pub open spec fn push_component(base: Seq<char>, part: Seq<char>) -> Seq<char> {
    if base.len() == 0 || base.last() == sep() {
        base + part
    } else {
        base.push(sep()) + part
    }
}

/// `base` with every part pushed in turn.
pub open spec fn push_components(base: Seq<char>, parts: Seq<Seq<char>>) -> Seq<char>
    decreases parts.len(),
{
    if parts.len() == 0 {
        base
    } else {
        push_component(push_components(base, parts.drop_last()), parts.last())
    }
}

/// The text of each string slice.
pub open spec fn strs_text(parts: Seq<&str>) -> Seq<Seq<char>> {
    parts.map_values(|p: &str| p@)
}

/// Pushes `part` onto `path` as a further component.
pub fn push_path(path: &mut String, part: &str)
    ensures
        final(path)@ == push_component(old(path)@, part@),
{
    let n = path.unicode_len();
    if n > 0 && path.as_str().get_char(n - 1) != '/' {
        path.append("/");
        proof {
            reveal_strlit("/");
        }
    }
    path.append(part);
    proof {
        assert(old(path)@.push(sep()) =~= old(path)@ + seq!['/']);
    }
}

/// A path under the data directory: `data_path` followed by `parts` as
/// further components.
pub fn create_path(data_path: &str, parts: &[&str]) -> (r: String)
    ensures
        r@ == push_components(data_path@, strs_text(parts@)),
{
    let mut r = String::from_str(data_path);
    let n = parts.len();
    let mut i: usize = 0;
    while i < n
        invariant
            i <= n == parts@.len(),
            r@ == push_components(data_path@, strs_text(parts@.subrange(0, i as int))),
        decreases n - i,
    {
        push_path(&mut r, parts[i]);
        proof {
            let next = strs_text(parts@.subrange(0, i as int + 1));
            assert(next.drop_last() =~= strs_text(parts@.subrange(0, i as int)));
            assert(next.last() == parts@[i as int]@);
        }
        i = i + 1;
    }
    proof {
        assert(parts@.subrange(0, n as int) =~= parts@);
    }
    r
}

/// Index just past the last separator of `s` (0 when there is none).
pub open spec fn name_start(s: Seq<char>) -> int
    decreases s.len(),
{
    if s.len() == 0 {
        0
    } else if s.last() == sep() {
        s.len() as int
    } else {
        name_start(s.drop_last())
    }
}

/// Index of the last `.` of `s` at or after `from`, or -1.
pub open spec fn last_dot(s: Seq<char>, from: int) -> int
    decreases s.len(),
{
    if s.len() == 0 || s.len() as int <= from {
        -1
    } else if s.last() == '.' {
        s.len() - 1
    } else {
        last_dot(s.drop_last(), from)
    }
}

/// The path without the extension of its last component: the final `.` of
/// the file name and what follows it are dropped, unless that `.` opens the
/// name.
pub open spec fn without_extension(p: Seq<char>) -> Seq<char> {
    let d = last_dot(p, name_start(p));
    if d > name_start(p) {
        p.subrange(0, d)
    } else {
        p
    }
}

proof fn lemma_name_start_bounds(s: Seq<char>)
    ensures
        0 <= name_start(s) <= s.len(),
    decreases s.len(),
{
    if s.len() > 0 {
        lemma_name_start_bounds(s.drop_last());
    }
}

proof fn lemma_last_dot_bounds(s: Seq<char>, from: int)
    ensures
        last_dot(s, from) == -1 || (0 <= last_dot(s, from) && from <= last_dot(s, from) < s.len()
            && s[last_dot(s, from)] == '.'),
    decreases s.len(),
{
    if s.len() > 0 && s.len() as int > from {
        if s.last() != '.' {
            lemma_last_dot_bounds(s.drop_last(), from);
            let k = last_dot(s.drop_last(), from);
            if k != -1 {
                assert(s.drop_last()[k] == s[k]);
            }
        } else {
            assert(s[s.len() - 1] == s.last());
        }
    }
}

/// The path with the extension of its file name removed: the folder beside a
/// channel log that holds the channel's attachments.
pub fn remove_extension(path: &str) -> (r: String)
    ensures
        r@ == without_extension(path@),
{
    let n = path.unicode_len();
    let mut start: usize = n;
    let mut found = false;
    proof {
        assert(path@.subrange(0, n as int) =~= path@);
    }
    // the start of the file name
    while start > 0 && !found
        invariant
            start <= n == path@.len(),
            found ==> name_start(path@) == start,
            !found ==> name_start(path@) == name_start(path@.subrange(0, start as int)),
        decreases start + if found { 0int } else { 1int },
    {
        let ghost pre = path@.subrange(0, start as int);
        proof {
            assert(pre.drop_last() =~= path@.subrange(0, start - 1));
            assert(pre.last() == path@[start - 1]);
        }
        if path.get_char(start - 1) == '/' {
            found = true;
        } else {
            start = start - 1;
        }
    }
    proof {
        if !found {
            assert(path@.subrange(0, 0) =~= Seq::<char>::empty());
        }
        lemma_name_start_bounds(path@);
    }
    let mut dot: usize = n;
    let mut hit = false;
    while dot > start && !hit
        invariant
            start <= dot <= n == path@.len(),
            start == name_start(path@),
            hit ==> last_dot(path@, start as int) == dot && dot < n,
            !hit ==> last_dot(path@, start as int) == last_dot(path@.subrange(0, dot as int), start as int),
        decreases dot + if hit { 0int } else { 1int },
    {
        let ghost pre = path@.subrange(0, dot as int);
        proof {
            assert(pre.drop_last() =~= path@.subrange(0, dot - 1));
            assert(pre.last() == path@[dot - 1]);
        }
        if path.get_char(dot - 1) == '.' {
            hit = true;
            dot = dot - 1;
        } else {
            dot = dot - 1;
        }
    }
    proof {
        lemma_last_dot_bounds(path@, start as int);
    }
    if hit && dot > start {
        String::from_str(path.substring_char(0, dot))
    } else {
        proof {
            if !hit {
                assert(last_dot(path@.subrange(0, dot as int), start as int) == -1);
            }
        }
        String::from_str(path)
    }
}

/// The wall clock is read through std, whose time types are opaque here.
#[verifier::external_type_specification]
#[verifier::external_body]
pub struct ExSystemTime(std::time::SystemTime);

#[verifier::external_type_specification]
#[verifier::external_body]
pub struct ExSystemTimeError(std::time::SystemTimeError);

#[verifier::external_type_specification]
#[verifier::external_body]
pub struct ExInstant(std::time::Instant);

/// Relies on `SystemTime::now`: the current wall-clock time.
#[verifier::external_body]
fn system_now() -> std::time::SystemTime {
    std::time::SystemTime::now()
}

/// Relies on `SystemTime::duration_since`: the time since the Unix epoch,
/// or an error when the clock reads earlier than the epoch.
#[verifier::external_body]
fn since_unix_epoch(t: &std::time::SystemTime) -> Result<core::time::Duration, std::time::SystemTimeError> {
    t.duration_since(std::time::UNIX_EPOCH)
}

/// Relies on `Duration::as_millis`: the whole milliseconds of a duration.
#[verifier::external_body]
fn duration_millis(d: &core::time::Duration) -> u128 {
    d.as_millis()
}

/// Relies on `Instant::now`: a reading of the monotonic clock.
#[verifier::external_body]
fn instant_now() -> std::time::Instant {
    std::time::Instant::now()
}

/// Milliseconds since the Unix epoch by the wall clock (truncated to 64
/// bits), or the clock's error when it reads earlier than the epoch.
pub fn get_current_time_millis() -> Result<u64, std::time::SystemTimeError> {
    let now = system_now();
    match since_unix_epoch(&now) {
        Ok(d) => {
            let ms = duration_millis(&d);
            Ok(#[verifier::truncate] (ms as u64))
        },
        Err(e) => Err(e),
    }
}

/// The start of the process, for stamping log lines with the uptime.
pub struct HumanUptime {
    pub start_time: std::time::Instant,
}

impl HumanUptime {
    pub fn new() -> Self {
        HumanUptime { start_time: instant_now() }
    }
}

pub const SECS_PER_DAY: u64 = 60 * 60 * 24;
pub const SECS_PER_HOUR: u64 = 60 * 60;

/// `n` followed by a unit and a space.
pub open spec fn with_unit(n: nat, unit: Seq<char>) -> Seq<char> {
    decimal(n) + unit + seq![' ']
}

/// The uptime stamp of a log line for an elapsed time of `secs` whole
/// seconds and `millis` more milliseconds (`zero` when no time at all has
/// elapsed): hours, minutes and seconds within the day, each shown once a
/// larger unit is, and milliseconds unless the stamp ends in whole seconds.
pub open spec fn uptime_text(zero: bool, secs: nat, millis: nat) -> Seq<char> {
    if zero {
        "0ms "@
    } else {
        let days = secs / 86400;
        let hours = (secs % 86400) / 3600;
        let minutes = (secs % 3600) / 60;
        let seconds = secs % 60;
        let big_h = days > 0 || hours > 0;
        let big_m = big_h || minutes > 0;
        (if big_h { with_unit(hours, "h"@) } else { Seq::empty() })
            + (if big_m { with_unit(minutes, "m"@) } else { Seq::empty() })
            + (if big_m || seconds > 0 { with_unit(seconds, "s"@) } else { Seq::empty() })
            + (if big_m || seconds > 0 || millis > 0 || secs == 0 {
                with_unit(millis, "ms"@)
            } else {
                Seq::empty()
            })
    }
}

fn push_with_unit(out: &mut String, n: u64, unit: &str)
    ensures
        final(out)@ == old(out)@ + with_unit(n as nat, unit@),
{
    let t = u64_text(n);
    out.append(t.as_str());
    out.append(unit);
    out.append(" ");
    proof {
        reveal_strlit(" ");
        assert(" "@ =~= seq![' ']);
        assert(old(out)@ + t@ + unit@ + " "@ =~= old(out)@ + with_unit(n as nat, unit@));
    }
}

/// The uptime stamp for an elapsed time (see [`uptime_text`]).
pub fn format_uptime(zero: bool, secs: u64, millis: u32) -> (r: String)
    ensures
        r@ == uptime_text(zero, secs as nat, millis as nat),
{
    if zero {
        return String::from_str("0ms ");
    }
    let days = secs / SECS_PER_DAY;
    let hours = (secs % SECS_PER_DAY) / SECS_PER_HOUR;
    let minutes = (secs % SECS_PER_HOUR) / 60;
    let seconds = secs % 60;
    let mut out = String::new();
    let big_h = days > 0 || hours > 0;
    let ghost s0 = out@;
    if big_h {
        push_with_unit(&mut out, hours, "h");
    }
    let ghost s1 = out@;
    let big_m = big_h || minutes > 0;
    if big_m {
        push_with_unit(&mut out, minutes, "m");
    }
    let ghost s2 = out@;
    if big_m || seconds > 0 {
        push_with_unit(&mut out, seconds, "s");
    }
    let ghost s3 = out@;
    if big_m || seconds > 0 || millis > 0 || secs == 0 {
        push_with_unit(&mut out, millis as u64, "ms");
    }
    proof {
        assert(s0 =~= Seq::<char>::empty());
        assert(out@ =~= uptime_text(zero, secs as nat, millis as nat));
    }
    out
}

} // verus!
