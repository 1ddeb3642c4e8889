//! Points in time as whole UTC seconds since the Unix epoch and a nanosecond part,
//! with the calls into chrono that read the clock and format dates.

use vstd::prelude::*;

verus! {

/// Seconds of the first instant that chrono can represent (start of year -262143).
pub const MIN_SECS: i64 = -8334601315200;

/// Seconds of the last second that chrono can represent (end of year 262142).
pub const MAX_SECS: i64 = 8210266876799;

pub const SECS_PER_DAY: i64 = 86400;

/// A lower bound of every instant's `key`.
pub open spec fn min_key() -> int {
    i64::MIN * 0x1_0000_0000
}

pub const NANOS_PER_SEC: u32 = 1_000_000_000;

/// Whether `chrono::DateTime::<Utc>::from_timestamp(secs, nanos)` yields a value:
/// the day lies within chrono's calendar range, the nanosecond part is below two
/// seconds, and a nanosecond part of a second or more (a leap second) only occurs
/// in the last second of a minute.
pub open spec fn chrono_accepts(secs: int, nanos: int) -> bool {
    &&& MIN_SECS <= secs <= MAX_SECS
    &&& 0 <= nanos < 2_000_000_000
    &&& nanos >= 1_000_000_000 ==> secs % 60 == 59
}

/// An instant in UTC, in the form `DateTime<Utc>::timestamp()` and
/// `timestamp_subsec_nanos()` give it. Every value is one that chrono can represent.
#[derive(Clone, Copy, Debug)]
pub struct Timestamp {
    secs: i64,
    nanos: u32,
}

impl Timestamp {
    #[verifier::type_invariant]
    spec fn representable(self) -> bool {
        chrono_accepts(self.secs as int, self.nanos as int)
    }

    /// Whole seconds since 1970-01-01T00:00:00Z, leap seconds not counted.
    pub closed spec fn secs_spec(self) -> int {
        self.secs as int
    }

    /// Nanoseconds past the whole second; a second or more only inside a leap second.
    pub closed spec fn nanos_spec(self) -> int {
        self.nanos as int
    }

    /// The position of the instant on the time line: instants compare as their keys do,
    /// which is the order of chrono's `DateTime<Utc>` (seconds first, then nanoseconds).
    pub open spec fn key(self) -> int {
        self.secs_spec() * 0x1_0000_0000 + self.nanos_spec()
    }

    /// Every key is at least the key of the smallest pair of parts.
    pub proof fn lemma_key_lower_bound(self)
        ensures
            self.key() >= min_key(),
    {
        assert(self.secs * 0x1_0000_0000 >= i64::MIN * 0x1_0000_0000) by (nonlinear_arith)
            requires self.secs >= i64::MIN;
    }

    /// Builds the instant from its two parts, or `None` where chrono could not represent it.
    pub fn new(secs: i64, nanos: u32) -> (r: Option<Timestamp>)
        ensures
            r is Some <==> chrono_accepts(secs as int, nanos as int),
            r matches Some(t) ==> t.secs_spec() == secs && t.nanos_spec() == nanos,
    {
        if MIN_SECS <= secs && secs <= MAX_SECS && nanos < 2_000_000_000 {
            if nanos >= NANOS_PER_SEC {
                let shifted: u64 = (secs - MIN_SECS) as u64;
                proof { lemma_min_secs_mod(secs as int); }
                if shifted % 60 == 59 {
                    Some(Timestamp { secs, nanos })
                } else {
                    None
                }
            } else {
                Some(Timestamp { secs, nanos })
            }
        } else {
            None
        }
    }

    /// The parts of an instant are machine integers: an `i64` and a `u32`.
    pub proof fn lemma_parts_bounds(self)
        ensures
            i64::MIN <= self.secs_spec() <= i64::MAX,
            0 <= self.nanos_spec() <= u32::MAX,
    {
    }

    /// The whole seconds; the parts of every instant are ones chrono accepts.
    pub fn secs(&self) -> (r: i64)
        ensures
            r == self.secs_spec(),
            chrono_accepts(self.secs_spec(), self.nanos_spec()),
    {
        proof { use_type_invariant(self); }
        self.secs
    }

    /// The nanosecond part; the parts of every instant are ones chrono accepts.
    pub fn nanos(&self) -> (r: u32)
        ensures
            r == self.nanos_spec(),
            chrono_accepts(self.secs_spec(), self.nanos_spec()),
    {
        proof { use_type_invariant(self); }
        self.nanos
    }

    /// Whether `self` comes no later than `other`.
    pub fn le(&self, other: &Timestamp) -> (r: bool)
        ensures
            r == (self.key() <= other.key()),
    {
        proof {
            use_type_invariant(self);
            use_type_invariant(other);
            lemma_key_order(self.secs as int, self.nanos as int, other.secs as int, other.nanos as int);
        }
        self.secs < other.secs || (self.secs == other.secs && self.nanos <= other.nanos)
    }

    /// Whether `self` comes strictly before `other`.
    pub fn lt(&self, other: &Timestamp) -> (r: bool)
        ensures
            r == (self.key() < other.key()),
    {
        !other.le(self)
    }

    /// The start of the UTC day that holds the instant: what
    /// `date_naive().and_hms_opt(0, 0, 0)?.and_utc()` gives in chrono.
    pub fn start_of_day(&self) -> (r: Timestamp)
        ensures
            r.secs_spec() == self.secs_spec() - self.secs_spec() % (SECS_PER_DAY as int),
            r.nanos_spec() == 0,
    {
        proof { use_type_invariant(self); }
        let shifted: u64 = (self.secs - MIN_SECS) as u64;
        let into_day: u64 = shifted % 86400;
        proof {
            lemma_min_secs_mod(self.secs as int);
        }
        Timestamp { secs: self.secs - into_day as i64, nanos: 0 }
    }

    /// Whether going back `days` whole days from the instant stays representable.
    pub open spec fn can_go_back_spec(self, days: int) -> bool {
        days_back_secs(self.secs_spec(), self.nanos_spec(), days) >= MIN_SECS
    }

    pub fn can_go_back(&self, days: u32) -> (r: bool)
        ensures
            r == self.can_go_back_spec(days as int),
    {
        proof { use_type_invariant(self); }
        let back: i64 = days as i64 * 86400;
        if self.nanos >= NANOS_PER_SEC {
            self.secs + 1 - back >= MIN_SECS
        } else {
            self.secs - back >= MIN_SECS
        }
    }

    /// The instant `days` (at least one) whole days earlier, as chrono's
    /// `DateTime - TimeDelta::days(days)` computes it: a leap second first moves to the
    /// start of the next second. chrono panics where the result is not representable.
    pub fn minus_days(&self, days: u32) -> (r: Timestamp)
        requires
            days > 0,
            self.can_go_back_spec(days as int),
        ensures
            r.secs_spec() == days_back_secs(self.secs_spec(), self.nanos_spec(), days as int),
            r.nanos_spec() == days_back_nanos(self.nanos_spec()),
    {
        proof { use_type_invariant(self); }
        let back: i64 = days as i64 * 86400;
        if self.nanos >= NANOS_PER_SEC {
            Timestamp { secs: self.secs + 1 - back, nanos: self.nanos - NANOS_PER_SEC }
        } else {
            Timestamp { secs: self.secs - back, nanos: self.nanos }
        }
    }
}

/// Seconds part of an instant moved `days` days back (chrono's leap-second rule).
pub open spec fn days_back_secs(secs: int, nanos: int, days: int) -> int {
    if nanos >= 1_000_000_000 {
        secs + 1 - days * 86400
    } else {
        secs - days * 86400
    }
}

/// Nanosecond part of an instant moved back by whole days.
pub open spec fn days_back_nanos(nanos: int) -> int {
    if nanos >= 1_000_000_000 {
        nanos - 1_000_000_000
    } else {
        nanos
    }
}

proof fn lemma_key_order(s1: int, n1: int, s2: int, n2: int)
    requires
        0 <= n1 < 0x1_0000_0000,
        0 <= n2 < 0x1_0000_0000,
    ensures
        (s1 * 0x1_0000_0000 + n1 <= s2 * 0x1_0000_0000 + n2) <==> (s1 < s2 || (s1 == s2 && n1 <= n2)),
        (s1 * 0x1_0000_0000 + n1 == s2 * 0x1_0000_0000 + n2) <==> (s1 == s2 && n1 == n2),
{
    if s1 < s2 {
        assert(s1 * 0x1_0000_0000 + 0x1_0000_0000 <= s2 * 0x1_0000_0000) by (nonlinear_arith)
            requires s1 < s2;
    } else if s1 > s2 {
        assert(s2 * 0x1_0000_0000 + 0x1_0000_0000 <= s1 * 0x1_0000_0000) by (nonlinear_arith)
            requires s2 < s1;
    }
}

/// `MIN_SECS` starts a day, so shifting by it changes no remainder modulo a day or a minute.
proof fn lemma_min_secs_mod(secs: int)
    ensures
        (secs - MIN_SECS) % 86400 == secs % 86400,
        (secs - MIN_SECS) % 60 == secs % 60,
{
    assert(MIN_SECS == -96465293 * 86400);
    assert(MIN_SECS == -138910021920 * 60);
    vstd::arithmetic::div_mod::lemma_mod_add_multiples_vanish(secs, 86400);
    lemma_mod_shift(secs, 96465293, 86400);
    lemma_mod_shift(secs, 138910021920, 60);
}

proof fn lemma_mod_shift(x: int, k: int, m: int)
    requires
        m > 0,
        k >= 0,
    ensures
        (x + k * m) % m == x % m,
    decreases k,
{
    if k > 0 {
        lemma_mod_shift(x, k - 1, m);
        vstd::arithmetic::div_mod::lemma_mod_add_multiples_vanish(x + (k - 1) * m, m);
        assert(x + (k - 1) * m + m == x + k * m) by (nonlinear_arith);
    }
}

} // verus!

verus! {

/// What chrono's `DateTime::<Utc>::format(pattern).to_string()` gives for the instant
/// with these timestamp parts.
pub uninterp spec fn spec_utc_format(secs: int, nanos: int, pattern: Seq<char>) -> Seq<char>;

/// chrono's `DateTime::<Utc>::format`, rendered to a `String`. Claimed: the text is the
/// named result for the instant's parts and the pattern. The instant is rebuilt with
/// `DateTime::from_timestamp`, which succeeds for the parts `chrono_accepts`, so the
/// empty fallback is never taken; the two patterns hold only valid chrono specifiers, so
/// rendering does not fail.
#[verifier::external_body]
fn utc_format(t: &Timestamp, pattern: &str) -> (r: String)
    requires
        chrono_accepts(t.secs_spec(), t.nanos_spec()),
        pattern@ == "%Y-%m-%d"@ || pattern@ == "%Y-%m-%d %H:%M UTC"@,
    ensures
        r@ == spec_utc_format(t.secs_spec(), t.nanos_spec(), pattern@),
{
    match chrono::DateTime::from_timestamp(t.secs, t.nanos) {
        Some(d) => d.format(pattern).to_string(),
        None => String::new(),
    }
}

/// chrono's `Utc::now()`, as `(timestamp(), timestamp_subsec_nanos())`. The clock decides
/// the value. Claimed, from chrono's source: `Utc::now` takes the system time's
/// `duration_since(UNIX_EPOCH)` (stopping the program, as chrono does, when the clock reads
/// a time before 1970) and builds the instant with `DateTime::from_timestamp(as_secs() as
/// i64, subsec_nanos())`, unwrapped. So the parts are ones `from_timestamp` accepts, the
/// seconds are not negative, and the nanosecond part is `Duration::subsec_nanos`, which std
/// documents as below one billion: the clock never reads inside a leap second. Left
/// unsaid: the seconds being non-negative rests on the clock's seconds since 1970 fitting
/// in an `i64` before the cast, which holds wherever the system time itself is kept in
/// signed 64-bit seconds.
#[verifier::external_body]
fn clock_now() -> (r: (i64, u32))
    ensures
        chrono_accepts(r.0 as int, r.1 as int),
        r.0 >= 0,
        r.1 < NANOS_PER_SEC,
{
    let d = chrono::Utc::now();
    (d.timestamp(), d.timestamp_subsec_nanos())
}

/// The current instant: at or after 1970-01-01T00:00:00Z, and never inside a leap second.
pub fn now() -> (r: Timestamp)
    ensures
        r.secs_spec() >= 0,
        r.nanos_spec() < NANOS_PER_SEC,
{
    let (secs, nanos) = clock_now();
    Timestamp { secs, nanos }
}

/// The instant's UTC date as `YYYY-MM-DD`.
pub fn format_date(t: &Timestamp) -> (r: String)
    ensures
        r@ == spec_utc_format(t.secs_spec(), t.nanos_spec(), "%Y-%m-%d"@),
{
    proof { use_type_invariant(t); }
    utc_format(t, "%Y-%m-%d")
}

/// The instant's UTC date and minute as `YYYY-MM-DD HH:MM UTC`.
pub fn format_minute(t: &Timestamp) -> (r: String)
    ensures
        r@ == spec_utc_format(t.secs_spec(), t.nanos_spec(), "%Y-%m-%d %H:%M UTC"@),
{
    proof { use_type_invariant(t); }
    utc_format(t, "%Y-%m-%d %H:%M UTC")
}

} // verus!
