//! The adaptive send window and the retransmission timeout.
//!
//! Times are whole microseconds. The window grows by one with every
//! delivery and shrinks by one with every timeout; its limits move up when
//! the link has shown a medium or fast round-trip time ten rounds in a row.

use vstd::prelude::*;

verus! {

/// Window of a channel that has seen no traffic yet.
pub const WINDOW: u16 = 2;

/// Lower window limit of a channel that has seen no traffic yet.
pub const WINDOW_MIN: u16 = 2;

/// Lower window limit on a slow link.
pub const WINDOW_MIN_LIMIT_SLOW: u16 = 2;

/// Lower window limit once the link has proved medium fast.
pub const WINDOW_MIN_LIMIT_MEDIUM: u16 = 5;

/// Lower window limit once the link has proved fast.
pub const WINDOW_MIN_LIMIT_FAST: u16 = 16;

/// Upper window limit on a slow link.
pub const WINDOW_MAX_SLOW: u16 = 5;

/// Upper window limit once the link has proved medium fast.
pub const WINDOW_MAX_MEDIUM: u16 = 12;

/// Upper window limit once the link has proved fast.
pub const WINDOW_MAX_FAST: u16 = 48;

/// The largest window any channel ever has.
pub const WINDOW_MAX: u16 = WINDOW_MAX_FAST;

/// Rounds in a row that a band must be observed before the limits move.
pub const FAST_RATE_THRESHOLD: u16 = 10;

/// Round-trip times up to this many microseconds are fast.
pub const RTT_FAST: u64 = 180_000;

/// Round-trip times up to this many microseconds are at least medium.
pub const RTT_MEDIUM: u64 = 750_000;

/// Round-trip times above this many microseconds are slow.
pub const RTT_SLOW: u64 = 1_450_000;

/// How far the upper limit is kept above the lower one when timeouts
/// shrink it.
pub const WINDOW_FLEXIBILITY: u16 = 4;

/// The largest sequence number.
pub const SEQ_MAX: u32 = 0xFFFF;

/// Retransmissions an envelope is given before the channel gives up.
pub const MAX_TRIES: u16 = 5;

/// After this many tries the timeout is no longer computed: it is
/// `u64::MAX`.
pub const TIMEOUT_TRIES_CAP: u64 = 63;

/// The classes of round-trip time that steer the window limits.
#[derive(Clone, Copy, Debug, PartialEq, Eq, Structural)]
pub enum RttBand {
    /// At most [`RTT_FAST`].
    Fast,
    /// Above [`RTT_FAST`], at most [`RTT_MEDIUM`].
    Medium,
    /// Above [`RTT_MEDIUM`], at most [`RTT_SLOW`].
    Strained,
    /// Above [`RTT_SLOW`].
    Slow,
}

impl RttBand {
    /// The band of a round-trip time.
    pub open spec fn spec_of(rtt: u64) -> RttBand {
        if rtt > RTT_SLOW {
            RttBand::Slow
        } else if rtt > RTT_MEDIUM {
            RttBand::Strained
        } else if rtt > RTT_FAST {
            RttBand::Medium
        } else {
            RttBand::Fast
        }
    }

    /// The band of a round-trip time.
    pub fn of(rtt: u64) -> (band: RttBand)
        ensures
            band == RttBand::spec_of(rtt),
    {
        if rtt > RTT_SLOW {
            RttBand::Slow
        } else if rtt > RTT_MEDIUM {
            RttBand::Strained
        } else if rtt > RTT_FAST {
            RttBand::Medium
        } else {
            RttBand::Fast
        }
    }
}

/// A round counter one higher, held at `u16::MAX`.
pub open spec fn next_round(rounds: u16) -> u16 {
    if rounds < u16::MAX {
        (rounds + 1) as u16
    } else {
        rounds
    }
}

/// The window of a channel, its limits, and the counters that move them.
#[derive(Clone, Copy, Debug, PartialEq, Eq, Structural)]
pub struct ChannelParams {
    pub max_tries: u16,
    pub fast_rate_rounds: u16,
    pub medium_rate_rounds: u16,
    pub window: u16,
    pub window_max: u16,
    pub window_min: u16,
    pub window_flexibility: u16,
}

impl ChannelParams {
    /// The parameters a channel starts with.
    pub open spec fn spec_new(slow: bool) -> ChannelParams {
        ChannelParams {
            max_tries: MAX_TRIES,
            fast_rate_rounds: 0,
            medium_rate_rounds: 0,
            window: if slow {
                1
            } else {
                WINDOW
            },
            window_max: if slow {
                1
            } else {
                WINDOW_MAX_SLOW
            },
            window_min: if slow {
                1
            } else {
                WINDOW_MIN
            },
            window_flexibility: if slow {
                1
            } else {
                WINDOW_FLEXIBILITY
            },
        }
    }

    /// Neither the window nor its lower limit is above the upper limit.
    pub open spec fn capped(self) -> bool {
        self.window <= self.window_max && self.window_min <= self.window_max
    }

    /// The window lies between its limits.
    pub open spec fn within_limits(self) -> bool {
        self.window_min <= self.window <= self.window_max
    }

    /// The window one wider, where the upper limit leaves room.
    pub open spec fn widened(self) -> ChannelParams {
        if self.window < self.window_max {
            ChannelParams { window: (self.window + 1) as u16, ..self }
        } else {
            self
        }
    }

    /// The limits of a link that has proved medium fast.
    pub open spec fn promoted_to_medium(self) -> ChannelParams {
        ChannelParams {
            window_max: WINDOW_MAX_MEDIUM,
            window_min: WINDOW_MIN_LIMIT_MEDIUM,
            ..self
        }
    }

    /// The limits of a link that has proved fast.
    pub open spec fn promoted_to_fast(self) -> ChannelParams {
        ChannelParams { window_max: WINDOW_MAX_FAST, window_min: WINDOW_MIN_LIMIT_FAST, ..self }
    }

    /// One more medium round, with the promotion it may complete.
    pub open spec fn medium_round(self) -> ChannelParams {
        let counted = ChannelParams {
            medium_rate_rounds: next_round(self.medium_rate_rounds),
            ..self
        };
        if counted.window_max < WINDOW_MAX_MEDIUM && counted.medium_rate_rounds
            == FAST_RATE_THRESHOLD {
            counted.promoted_to_medium()
        } else {
            counted
        }
    }

    /// One more fast round, with the promotion it may complete.
    pub open spec fn fast_round(self) -> ChannelParams {
        let counted = ChannelParams { fast_rate_rounds: next_round(self.fast_rate_rounds), ..self };
        if counted.window_max < WINDOW_MAX_FAST && counted.fast_rate_rounds
            == FAST_RATE_THRESHOLD {
            counted.promoted_to_fast()
        } else {
            counted
        }
    }

    /// The counters and limits after one round observed in `band`.
    pub open spec fn observed(self, band: RttBand) -> ChannelParams {
        match band {
            RttBand::Slow => self,
            RttBand::Strained => ChannelParams { fast_rate_rounds: 0, ..self }.medium_round(),
            RttBand::Medium => self.medium_round(),
            RttBand::Fast => self.fast_round(),
        }
    }

    /// The parameters after a delivery on a link with round-trip time
    /// `rtt`: the window widens, then the band of `rtt` is counted.
    pub open spec fn after_delivery(self, rtt: u64) -> ChannelParams {
        self.widened().observed(RttBand::spec_of(rtt))
    }

    /// Whether a delivery at `rtt` moves the window limits.
    pub open spec fn delivery_promotes(self, rtt: u64) -> bool {
        self.after_delivery(rtt).window_min != self.window_min || self.after_delivery(
            rtt,
        ).window_max != self.window_max
    }

    /// The parameters after a timeout that is answered by a resend: a
    /// window above its lower limit narrows by one, and the upper limit,
    /// while more than the flexibility above the lower one, follows.
    pub open spec fn after_timeout(self) -> ChannelParams {
        if self.window > self.window_min {
            ChannelParams {
                window: (self.window - 1) as u16,
                window_max: if self.window_max > self.window_min + self.window_flexibility {
                    (self.window_max - 1) as u16
                } else {
                    self.window_max
                },
                ..self
            }
        } else {
            self
        }
    }

    /// The parameters a channel starts with: a window of one on a slow
    /// link, else the default window and limits.
    pub fn new(slow: bool) -> (params: ChannelParams)
        ensures
            params == ChannelParams::spec_new(slow),
    {
        ChannelParams {
            max_tries: MAX_TRIES,
            fast_rate_rounds: 0,
            medium_rate_rounds: 0,
            window: if slow {
                1
            } else {
                WINDOW
            },
            window_max: if slow {
                1
            } else {
                WINDOW_MAX_SLOW
            },
            window_min: if slow {
                1
            } else {
                WINDOW_MIN
            },
            window_flexibility: if slow {
                1
            } else {
                WINDOW_FLEXIBILITY
            },
        }
    }

    fn count_medium_round(&mut self)
        ensures
            *final(self) == old(self).medium_round(),
    {
        if self.medium_rate_rounds < u16::MAX {
            self.medium_rate_rounds += 1;
        }
        if self.window_max < WINDOW_MAX_MEDIUM && self.medium_rate_rounds == FAST_RATE_THRESHOLD {
            self.window_max = WINDOW_MAX_MEDIUM;
            self.window_min = WINDOW_MIN_LIMIT_MEDIUM;
        }
    }

    fn count_fast_round(&mut self)
        ensures
            *final(self) == old(self).fast_round(),
    {
        if self.fast_rate_rounds < u16::MAX {
            self.fast_rate_rounds += 1;
        }
        if self.window_max < WINDOW_MAX_FAST && self.fast_rate_rounds == FAST_RATE_THRESHOLD {
            self.window_max = WINDOW_MAX_FAST;
            self.window_min = WINDOW_MIN_LIMIT_FAST;
        }
    }

    /// Narrows the window after a timeout that is answered by a resend.
    pub fn shrink(&mut self)
        ensures
            *final(self) == old(self).after_timeout(),
    {
        if self.window > self.window_min {
            self.window -= 1;
            if self.window_max as u32 > self.window_min as u32 + self.window_flexibility as u32 {
                self.window_max -= 1;
            }
        }
    }
}

/// Widens the window after a delivery and counts the round in the band of
/// the link's round-trip time `rtt`.
pub fn adjust_params(rtt: u64, params: &mut ChannelParams)
    ensures
        *final(params) == old(params).after_delivery(rtt),
{
    if params.window < params.window_max {
        params.window += 1;
    }
    match RttBand::of(rtt) {
        RttBand::Slow => {},
        RttBand::Strained => {
            params.fast_rate_rounds = 0;
            params.count_medium_round();
        },
        RttBand::Medium => {
            params.count_medium_round();
        },
        RttBand::Fast => {
            params.count_fast_round();
        },
    }
}

/// The window never exceeds its upper limit, and the lower limit never
/// exceeds the upper one: both hold at the start and after every delivery
/// and every timeout.
pub proof fn lemma_window_stays_capped(params: ChannelParams, slow: bool, rtt: u64)
    requires
        params.capped(),
    ensures
        ChannelParams::spec_new(slow).capped(),
        ChannelParams::spec_new(slow).within_limits(),
        params.after_delivery(rtt).capped(),
        params.after_timeout().capped(),
{
}

/// A window that lies between its limits stays there through every timeout
/// and through every delivery that does not move the limits.
pub proof fn lemma_window_stays_within_limits(params: ChannelParams, rtt: u64)
    requires
        params.within_limits(),
        !params.delivery_promotes(rtt),
    ensures
        params.after_timeout().within_limits(),
        params.after_delivery(rtt).within_limits(),
{
}

/// The limits move only in three ways: a timeout takes one off the upper
/// limit and leaves the lower one alone, a delivery leaves both alone, or a
/// delivery sets both to the medium or to the fast pair, which happens only
/// on the tenth counted round of that band.
pub proof fn lemma_limits_move_only_on_promotion(params: ChannelParams, rtt: u64)
    ensures
        params.after_timeout().window_min == params.window_min,
        params.after_timeout().window_max == params.window_max || params.after_timeout().window_max
            == params.window_max - 1,
        ({
            let after = params.after_delivery(rtt);
            ||| (after.window_min == params.window_min && after.window_max == params.window_max)
            ||| (after.window_min == WINDOW_MIN_LIMIT_MEDIUM && after.window_max
                == WINDOW_MAX_MEDIUM && after.medium_rate_rounds == FAST_RATE_THRESHOLD
                && params.window_max < WINDOW_MAX_MEDIUM && RttBand::spec_of(rtt) != RttBand::Fast
                && RttBand::spec_of(rtt) != RttBand::Slow)
            ||| (after.window_min == WINDOW_MIN_LIMIT_FAST && after.window_max == WINDOW_MAX_FAST
                && after.fast_rate_rounds == FAST_RATE_THRESHOLD && params.window_max
                < WINDOW_MAX_FAST && RttBand::spec_of(rtt) == RttBand::Fast)
        }),
{
}

/// `3` to the power `n`.
pub open spec fn pow3(n: nat) -> nat
    decreases n,
{
    if n == 0 {
        1
    } else {
        3 * pow3((n - 1) as nat)
    }
}

/// `2` to the power `n`.
pub open spec fn pow2(n: nat) -> nat
    decreases n,
{
    if n == 0 {
        1
    } else {
        2 * pow2((n - 1) as nat)
    }
}

/// Twice the round-trip factor of the timeout, in microseconds: `5 * rtt`,
/// but at least 50 ms.
pub open spec fn doubled_rtt_factor(rtt: u64) -> nat {
    if 5 * rtt >= 50_000 {
        (5 * rtt) as nat
    } else {
        50_000
    }
}

/// The timeout `1.5^(tries - 1) * max(2.5 * rtt, 25 ms) * (ring_len + 1.5)`
/// in whole microseconds, rounded down. No tries counts as one.
pub open spec fn exact_timeout(rtt: u64, ring_len: nat, tries: nat) -> nat {
    let steps = if tries == 0 {
        0
    } else {
        (tries - 1) as nat
    };
    (pow3(steps) * doubled_rtt_factor(rtt) * (2 * ring_len + 3)) / (pow2(steps) * 4)
}

/// The timeout as the channel uses it: [`exact_timeout`], held at
/// `u64::MAX`, and `u64::MAX` beyond [`TIMEOUT_TRIES_CAP`] tries.
pub open spec fn spec_packet_timeout_time(rtt: u64, ring_len: usize, tries: u64) -> u64 {
    if tries > TIMEOUT_TRIES_CAP || exact_timeout(rtt, ring_len as nat, tries as nat) > u64::MAX {
        u64::MAX
    } else {
        exact_timeout(rtt, ring_len as nat, tries as nat) as u64
    }
}

proof fn lemma_pow_bounds(n: nat)
    requires
        n <= 62,
    ensures
        0 < pow3(n) <= 381520424476945831628649898809,
        0 < pow2(n) <= 0x4000_0000_0000_0000,
    decreases 62 - n,
{
    if n == 62 {
        reveal_with_fuel(pow3, 63);
        reveal_with_fuel(pow2, 63);
    } else {
        lemma_pow_bounds(n + 1);
    }
}

proof fn lemma_overflow_saturates(product: nat, divisor: nat)
    by (nonlinear_arith)
    requires
        product >= 0x1_0000_0000_0000_0000_0000_0000_0000_0000nat,
        0 < divisor <= 0x1_0000_0000_0000_0000,
    ensures
        product / divisor >= 0x1_0000_0000_0000_0000,
{
}

proof fn lemma_product_grows(a: nat, b: nat, bound: nat)
    by (nonlinear_arith)
    requires
        a >= bound,
        b >= 1,
    ensures
        a * b >= bound,
{
}

/// How long to wait for the acknowledgement of a packet that has been sent
/// `tries` times on a link with round-trip time `rtt`, with `ring_len`
/// envelopes in flight.
pub fn packet_timeout_time(rtt: u64, ring_len: usize, tries: u64) -> (timeout: u64)
    ensures
        timeout == spec_packet_timeout_time(rtt, ring_len, tries),
{
    if tries > TIMEOUT_TRIES_CAP {
        return u64::MAX;
    }
    let steps: u64 = if tries == 0 {
        0
    } else {
        tries - 1
    };
    let mut grow: u128 = 1;
    let mut shrink: u128 = 4;
    let mut i: u64 = 0;
    while i < steps
        invariant
            i <= steps <= 62,
            grow == pow3(i as nat),
            shrink == 4 * pow2(i as nat),
        decreases steps - i,
    {
        proof {
            lemma_pow_bounds(i as nat);
            lemma_pow_bounds((i + 1) as nat);
        }
        grow = grow * 3;
        shrink = shrink * 2;
        i += 1;
    }
    proof {
        lemma_pow_bounds(steps as nat);
    }
    let factor: u128 = if 5 * (rtt as u128) >= 50_000 {
        5 * (rtt as u128)
    } else {
        50_000
    };
    let span: u128 = 2 * (ring_len as u128) + 3;
    let ghost exact = exact_timeout(rtt, ring_len as nat, tries as nat);
    assert(factor == doubled_rtt_factor(rtt));
    assert(exact == (pow3(steps as nat) * doubled_rtt_factor(rtt) * (2 * (ring_len as nat) + 3))
        / (pow2(steps as nat) * 4));
    let scaled = match grow.checked_mul(factor) {
        Some(scaled) => scaled,
        None => {
            proof {
                lemma_product_grows((grow * factor) as nat, span as nat, 0x1_0000_0000_0000_0000_0000_0000_0000_0000nat);
                lemma_overflow_saturates((grow * factor * span) as nat, shrink as nat);
            }
            return u64::MAX;
        },
    };
    let product = match scaled.checked_mul(span) {
        Some(product) => product,
        None => {
            proof {
                lemma_overflow_saturates((scaled * span) as nat, shrink as nat);
            }
            return u64::MAX;
        },
    };
    let value = product / shrink;
    if value > u64::MAX as u128 {
        u64::MAX
    } else {
        value as u64
    }
}

} // verus!
