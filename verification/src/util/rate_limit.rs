//! Exponential backoff, and the messages by which an exchange asks for it.
use crate::clock::{Clock, Moment, NANOS_PER_SECOND};
use crate::double;
use crate::double::arithmetic;
use crate::double::laws;
use crate::double::Double;
use crate::text;
use vstd::arithmetic::mul::*;
use vstd::arithmetic::power2::*;
use vstd::prelude::*;

verus! {

/// Tracks consecutive rate limit errors.
#[derive(Debug)]
pub struct RateLimitTracker {
    clock: Clock,
    last_error_time: Option<Moment>,
    consecutive_errors: u32,
}

/// The backoff after `errors` consecutive errors, in seconds: none, then 1, 2,
/// 4 and so on up to 32.
pub open spec fn backoff_secs(errors: nat) -> nat {
    if errors == 0 {
        0
    } else if errors >= 6 {
        32
    } else {
        vstd::arithmetic::power2::pow2((errors - 1) as nat)
    }
}

impl RateLimitTracker {
    /// The clock by which the tracker goes.
    pub closed spec fn clock(&self) -> Clock {
        self.clock
    }

    pub closed spec fn errors(&self) -> nat {
        self.consecutive_errors as nat
    }

    /// When the last of them came; none after a success.
    pub closed spec fn last_error(&self) -> Option<Moment> {
        self.last_error_time
    }

    /// The nanoseconds of backoff that are left at `now`.
    pub open spec fn nanos_left(&self, now: Moment) -> int {
        match self.last_error() {
            Some(at) => {
                let left = backoff_secs(self.errors()) * NANOS_PER_SECOND - now.nanos_since(at);
                if left > 0 {
                    left
                } else {
                    0
                }
            },
            None => 0,
        }
    }

    /// A tracker without errors.
    pub fn new() -> (t: RateLimitTracker)
        ensures
            t.errors() == 0,
            t.last_error() is None,
    {
        RateLimitTracker { clock: Clock::start(), last_error_time: None, consecutive_errors: 0 }
    }

    /// The present reading of the tracker's clock.
    pub fn now(&self) -> (m: Moment)
        ensures
            m.is_reading(),
    {
        self.clock.now()
    }

    /// Records a rate limit error that came at `now`.
    pub fn record_error_at(&mut self, now: Moment)
        requires
            old(self).errors() < u32::MAX,
        ensures
            final(self).errors() == old(self).errors() + 1,
            final(self).last_error() == Some(now),
            final(self).clock() == old(self).clock(),
    {
        self.last_error_time = Some(now);
        self.consecutive_errors = self.consecutive_errors + 1;
    }

    /// Records a rate limit error.
    pub fn record_error(&mut self)
        requires
            old(self).errors() < u32::MAX,
        ensures
            final(self).errors() == old(self).errors() + 1,
            exists|now: Moment| now.is_reading() && final(self).last_error() == Some(now),
            final(self).clock() == old(self).clock(),
    {
        let now = self.clock.now();
        self.record_error_at(now);
    }

    /// Records a successful call.
    pub fn record_success(&mut self)
        ensures
            final(self).errors() == 0,
            final(self).last_error() is None,
            final(self).clock() == old(self).clock(),
    {
        self.last_error_time = None;
        self.consecutive_errors = 0;
    }

    /// The present backoff in seconds.
    pub fn get_backoff_secs(&self) -> (secs: u64)
        ensures
            secs == backoff_secs(self.errors()),
            secs <= 32,
    {
        backoff(self.consecutive_errors)
    }

    /// Whether the backoff still runs at `now`.
    pub fn should_skip_at(&self, now: Moment) -> (r: bool)
        ensures
            r == (self.nanos_left(now) > 0),
    {
        match self.last_error_time {
            Some(at) => now.since(&at) < self.get_backoff_secs() as u128 * NANOS_PER_SECOND,
            None => false,
        }
    }

    /// Whether the backoff still runs.
    pub fn should_skip(&self) -> (r: bool)
        ensures
            exists|now: Moment| now.is_reading() && r == (self.nanos_left(now) > 0),
            self.last_error() is None ==> !r,
    {
        let now = self.clock.now();
        let r = self.should_skip_at(now);
        assert(r == (self.nanos_left(now) > 0));
        r
    }

    /// What is left of the backoff at `now`, in nanoseconds.
    pub fn remaining_backoff_nanos_at(&self, now: Moment) -> (n: u64)
        ensures
            n == self.nanos_left(now),
    {
        match self.last_error_time {
            Some(at) => {
                let backoff: u128 = self.get_backoff_secs() as u128 * NANOS_PER_SECOND;
                let elapsed = now.since(&at);
                if elapsed < backoff {
                    (backoff - elapsed) as u64
                } else {
                    0
                }
            },
            None => 0,
        }
    }

    /// What is left of the backoff, in seconds.
    pub fn remaining_backoff_secs(&self) -> (secs: Double)
        ensures
            exists|now: Moment| now.is_reading() && secs == seconds(self.nanos_left(now)),
            self.last_error() is None ==> secs == seconds(0),
    {
        let now = self.clock.now();
        let n: u64 = self.remaining_backoff_nanos_at(now);
        let secs = nanos_in_seconds(n);
        assert(secs == seconds(self.nanos_left(now)));
        secs
    }

    /// The number of consecutive errors.
    pub fn consecutive_errors(&self) -> (n: u32)
        ensures
            n == self.errors(),
    {
        self.consecutive_errors
    }

    /// The first error asks for a pause of one second, each further one for twice as long,
    /// up to 32 seconds; without errors there is none.
    pub proof fn law_backoff_lengths()
        ensures
            backoff_secs(0) == 0,
            backoff_secs(1) == 1,
            forall|n: nat| 1 <= n < 6 ==> #[trigger] backoff_secs(n + 1) == 2 * backoff_secs(n),
            forall|n: nat| n >= 6 ==> #[trigger] backoff_secs(n) == 32,
    {
        vstd::arithmetic::power2::lemma2_to64();
    }

    /// The pause runs from the last error on, for as long as the errors in a row ask for, and
    /// is over then. Without an error, or after a success, there is none.
    pub proof fn law_pause_runs_out(&self, now: Moment)
        ensures
            self.last_error() is None ==> self.nanos_left(now) == 0,
            self.last_error() is Some && self.last_error()->0.nanos <= now.nanos ==> {
                let end = self.last_error()->0.nanos + backoff_secs(self.errors()) * 1_000_000_000;
                &&& self.nanos_left(now) > 0 <==> now.nanos < end
                &&& now.nanos < end ==> now.nanos + self.nanos_left(now) == end
            },
    {
    }

    /// Each further error waits at least as long, and none longer than 32 seconds.
    pub proof fn law_backoff_grows(errors: nat)
        ensures
            backoff_secs(errors) <= backoff_secs(errors + 1) <= 32,
            1 <= errors < 6 ==> backoff_secs(errors + 1) == 2 * backoff_secs(errors),
            errors > 0 ==> backoff_secs(errors) >= 1,
    {
        vstd::arithmetic::power2::lemma2_to64();
    }
}

/// The backoff after `errors` consecutive errors, in seconds.
pub fn backoff(errors: u32) -> (secs: u64)
    ensures
        secs == backoff_secs(errors as nat),
        secs <= 32,
{
    proof {
        vstd::arithmetic::power2::lemma2_to64();
    }
    match errors {
        0 => 0,
        1 => 1,
        2 => 2,
        3 => 4,
        4 => 8,
        5 => 16,
        _ => 32,
    }
}

/// `nanos` nanoseconds in seconds: the whole seconds plus the rest.
pub open spec fn seconds(nanos: int) -> Double {
    Double::whole_number(nanos / 1_000_000_000).sum(
        Double::whole_number(nanos % 1_000_000_000).quotient(Double::whole_number(1_000_000_000)),
    )
}

/// A thousand million times the seconds are the nanoseconds, up to rounding.
pub proof fn law_seconds_are_near(nanos: u64)
    ensures
        ({
            let r = seconds(nanos as int);
            let exact = nanos * double::one();
            r.finite() ==> laws::distance(r.amount() * 1_000_000_000, exact) * pow2(53) <= 3 * exact
                + 2_000_000_000 * pow2(53)
        }),
        seconds(0).amount() == 0,
{
    let one = double::one();
    let g = 1_000_000_000int;
    let (a, w) = (nanos as int / g, nanos as int % g);
    let (d, n) = (Double::whole_number(w), Double::whole_number(g));
    let (x, b) = (Double::whole_number(a), d.quotient(n));
    let p = pow2(53) as int;
    lemma_pow2_pos(1074);
    lemma_pow2_pos(53);
    lemma_whole_seconds(a);
    lemma_whole_seconds(w);
    lemma_whole_seconds(g);
    lemma_mul_strictly_positive(g, one);
    lemma_mul_nonnegative(w, one);
    lemma_mul_nonnegative(a, one);
    laws::law_quotient_is_near(d, n);
    if seconds(nanos as int).finite() {
        assert(b.finite());
        laws::law_sum_is_near(x, b);
        lemma_seconds_error(seconds(nanos as int).amount(), a, b.amount(), w, one, p);
    }
    arithmetic::lemma_zero();
    let zero = Double::whole_number(0);
    laws::law_quotient_is_near(zero, n);
    lemma_mul_basics(one);
    let q = zero.quotient(n);
    assert(q.amount() == 0);
    assert(q.finite()) by {
        double::lemma_units_order(q.magnitude(), 0);
        assert(double::units(0) == 0);
    }
    laws::law_sum_is_near(zero, q);
}

/// A number of seconds is a double.
proof fn lemma_whole_seconds(n: int)
    requires
        0 <= n < 0x20_0000_0000_0000,
    ensures
        Double::whole_number(n).finite(),
        Double::whole_number(n).amount() == n * double::one(),
{
    lemma_mul_basics(double::one());
    if n == 0 {
        arithmetic::lemma_zero();
    } else {
        arithmetic::lemma_whole_exact(n);
    }
}

/// How far the sum of the seconds and the rest can lie from both.
proof fn lemma_seconds_error(r: int, a: int, b: int, w: int, one: int, p: int)
    requires
        one > 0,
        p > 0,
        a >= 0,
        b >= 0,
        w >= 0,
        laws::distance(r, a * one + b) * p <= a * one + b,
        laws::distance(b * (1_000_000_000 * one), (w * one) * one) * p <= (w * one) * one || 2
            * laws::distance(b * (1_000_000_000 * one), (w * one) * one) <= 1_000_000_000 * one,
    ensures
        laws::distance(r * 1_000_000_000, (a * 1_000_000_000 + w) * one) * p <= 3 * ((a
            * 1_000_000_000 + w) * one) + 2_000_000_000 * p,
{
    let g = 1_000_000_000int;
    let e1 = laws::distance(b * g, w * one);
    let e2 = laws::distance(r, a * one + b);
    let off = laws::distance(r * g, (a * g + w) * one);
    assert(laws::distance(b * (g * one), (w * one) * one) == e1 * one) by (nonlinear_arith)
        requires
            e1 == laws::distance(b * g, w * one),
            g == 1_000_000_000,
            one > 0,
    ;
    assert(e1 * p <= w * one + g * p) by (nonlinear_arith)
        requires
            (e1 * one) * p <= (w * one) * one || 2 * (e1 * one) <= g * one,
            one > 0,
            p > 0,
            w >= 0,
            e1 >= 0,
            g > 0,
    ;
    assert((a * g + w) * one == g * (a * one) + w * one) by (nonlinear_arith);
    assert(off <= g * e2 + e1);
    assert(e1 <= e1 * p) by (nonlinear_arith)
        requires
            e1 >= 0,
            p >= 1,
    ;
    assert(off * p <= g * (e2 * p) + e1 * p) by (nonlinear_arith)
        requires
            off <= g * e2 + e1,
            p > 0,
    ;
    assert(0 <= w * one && 0 <= a * one) by (nonlinear_arith)
        requires
            w >= 0,
            a >= 0,
            one > 0,
    ;
}

/// `nanos` nanoseconds in seconds.
pub fn nanos_in_seconds(nanos: u64) -> (secs: Double)
    ensures
        secs == seconds(nanos as int),
{
    let whole = Double::integer(nanos / 1_000_000_000);
    let rest = Double::integer(nanos % 1_000_000_000).over(&Double::integer(1_000_000_000));
    whole.plus(&rest)
}

impl Default for RateLimitTracker {
    fn default() -> (t: RateLimitTracker)
        ensures
            t.errors() == 0,
            t.last_error() is None,
    {
        RateLimitTracker::new()
    }
}

/// The message, in lower case, speaks of a rate limit or of a ban.
pub open spec fn speaks_of_rate_limit(lowered: Seq<char>) -> bool {
    ||| text::occurs(lowered, "rate limit"@)
    ||| text::occurs(lowered, "too many requests"@)
    ||| text::occurs(lowered, "429"@)
    ||| text::occurs(lowered, "403 forbidden"@)
    ||| text::occurs(lowered, "418"@)
    ||| text::occurs(lowered, "-1003"@)
}

/// Whether an error message in lower case is one of a rate limit.
pub fn is_rate_limit_text(lowered: &str) -> (r: bool)
    ensures
        r == speaks_of_rate_limit(lowered@),
{
    text::contains(lowered, "rate limit") || text::contains(lowered, "too many requests")
        || text::contains(lowered, "429") || text::contains(lowered, "403 forbidden")
        || text::contains(lowered, "418") || text::contains(lowered, "-1003")
}

/// Whether an error message is one of a rate limit, a ban of the address included.
pub fn is_rate_limit_error(error: &str) -> (r: bool)
    ensures
        r == speaks_of_rate_limit(text::lowercase_of(error@)),
        text::all_ascii(error@) ==> r == speaks_of_rate_limit(text::lower(error@)),
{
    let lowered = text::to_lowercase(error);
    is_rate_limit_text(lowered.as_str())
}

/// The end of the ban that a message announces: the digits behind the first
/// "banned until ", unless they write 0 or more than 64 bits hold.
pub open spec fn ban_end(message: Seq<char>) -> Option<u64> {
    let mark = "banned until "@;
    if !text::occurs(message, mark) {
        None
    } else {
        let at = choose|i: int|
            text::stands_at(message, mark, i) && forall|k: int|
                0 <= k < i ==> !text::stands_at(message, mark, k);
        let run = text::run_of_digits(message, at + mark.len());
        if run.len() > 0 && 0 < text::value_of(run) <= u64::MAX {
            Some(text::value_of(run) as u64)
        } else {
            None
        }
    }
}

/// A number behind the first "banned until " is the end of the ban, unless it is 0 or too
/// large; a message without these words announces none.
pub proof fn law_announced_bans(before: Seq<char>, n: nat, rest: Seq<char>)
    requires
        forall|k: int|
            0 <= k < before.len() ==> !text::stands_at(
                before + "banned until "@ + text::numeral(n) + rest,
                "banned until "@,
                k,
            ),
        rest.len() > 0 ==> !text::is_digit(rest[0]),
    ensures
        ({
            let end = ban_end(before + "banned until "@ + text::numeral(n) + rest);
            &&& 0 < n <= u64::MAX ==> end is Some && end->0 == n
            &&& n == 0 || n > u64::MAX ==> end is None
        }),
        forall|message: Seq<char>|
            !text::occurs(message, "banned until "@) ==> #[trigger] ban_end(message) is None,
{
    let mark = "banned until "@;
    let message = before + mark + text::numeral(n) + rest;
    let i = before.len() as int;
    assert(message.subrange(i, i + mark.len()) =~= mark);
    assert(text::stands_at(message, mark, i));
    let at = choose|j: int|
        text::stands_at(message, mark, j) && forall|k: int|
            0 <= k < j ==> !text::stands_at(message, mark, k);
    assert(at == i);
    text::law_numeral_reads_back(n);
    let start = i + mark.len();
    let end = start + text::numeral(n).len();
    assert forall|k: int| start <= k < end implies text::is_digit(#[trigger] message[k]) by {
        assert(message[k] == text::numeral(n)[k - start]);
    }
    if rest.len() > 0 {
        assert(message[end] == rest[0]);
    }
    text::lemma_digits_from(message, start, end);
    assert(text::run_of_digits(message, start) =~= text::numeral(n));
}

/// When the ban that Binance announces ends, in milliseconds since the Unix epoch.
pub fn parse_ban_until_ms(error: &str) -> (r: Option<u64>)
    ensures
        r == ban_end(error@),
{
    let message = text::characters(error);
    let mark = text::characters("banned until ");
    match text::find(&message, &mark) {
        None => None,
        Some(i) => {
            proof {
                let at = choose|j: int|
                    text::stands_at(message@, mark@, j) && forall|k: int|
                        0 <= k < j ==> !text::stands_at(message@, mark@, k);
                assert(at == i);
            }
            let n: usize = message.len();
            match text::number_at(&message, i + mark.len()) {
                Some(v) => if v > 0 {
                    Some(v)
                } else {
                    None
                },
                None => None,
            }
        },
    }
}

} // verus!
