use vstd::prelude::*;

verus! {

/// A continuous token bucket guarding call volume to the judging service.
///
/// Time is supplied by the caller as a monotonic timestamp in milliseconds;
/// refill is computed from the time elapsed since the last recorded
/// observation, so the bucket reports availability correctly even after a
/// long idle gap. Tokens never go negative and never exceed the capacity.
/// The bucket only answers "may I proceed now?"; it performs no call itself.
pub struct TokenLimiter {
    /// Timestamp (ms) of the last observation folded into `tokens`.
    pub last_request: u64,
    /// Tokens gained per `refill_period_ms` elapsed milliseconds.
    pub refill_amount: u64,
    /// Length of one refill period in milliseconds; always at least 1.
    pub refill_period_ms: u64,
    /// Tokens currently stored; never exceeds `max_tokens`.
    pub tokens: u64,
    /// Capacity of the bucket.
    pub max_tokens: u64,
}

impl TokenLimiter {
    /// Well-formedness: the stored count respects the capacity and the
    /// refill period is a real duration.
    pub open spec fn wf(self) -> bool {
        &&& self.tokens <= self.max_tokens
        &&& self.refill_period_ms >= 1
    }

    /// How many tokens accrue over `elapsed_ms` milliseconds, clamped to the
    /// capacity.
    pub open spec fn refill(self, elapsed_ms: int) -> int {
        let accrued = elapsed_ms * self.refill_amount / self.refill_period_ms as int;
        if accrued > self.max_tokens { self.max_tokens as int } else { accrued }
    }

    /// The refreshed token count at time `now_ms`: stored tokens plus the
    /// refill since the last observation, clamped to the capacity.
    pub open spec fn available(self, now_ms: int) -> int {
        let total = self.tokens + self.refill(now_ms - self.last_request);
        if total > self.max_tokens { self.max_tokens as int } else { total }
    }

    pub fn new(max_tokens: u64, now_ms: u64) -> (r: Self)
        ensures
            r.wf(),
            r.max_tokens == max_tokens,
            r.tokens == 0,
            r.refill_amount == 0,
            r.refill_period_ms == 60000,
            r.last_request == now_ms,
    {
        TokenLimiter {
            max_tokens,
            tokens: 0,
            refill_amount: 0,
            refill_period_ms: 60000,
            last_request: now_ms,
        }
    }

    /// Builder step: start the bucket with `tokens` tokens, clamped to the
    /// capacity.
    pub fn inital_tokens(self, tokens: u64) -> (r: Self)
        requires
            self.wf(),
        ensures
            r.wf(),
            r.tokens == if tokens > self.max_tokens { self.max_tokens } else { tokens },
            r.last_request == self.last_request,
            r.refill_amount == self.refill_amount,
            r.refill_period_ms == self.refill_period_ms,
            r.max_tokens == self.max_tokens,
    {
        let clamped: u64 = if tokens > self.max_tokens { self.max_tokens } else { tokens };
        TokenLimiter { tokens: clamped, ..self }
    }

    /// Builder step: refill `tokens` tokens every `per_ms` milliseconds.
    pub fn token_refresh_rate(self, tokens: u64, per_ms: u64) -> (r: Self)
        requires
            self.wf(),
            per_ms >= 1,
        ensures
            r.wf(),
            r.refill_amount == tokens,
            r.refill_period_ms == per_ms,
            r.last_request == self.last_request,
            r.tokens == self.tokens,
            r.max_tokens == self.max_tokens,
    {
        TokenLimiter { refill_amount: tokens, refill_period_ms: per_ms, ..self }
    }

    /// Tokens accrued between the last observation and `now_ms`, clamped to
    /// the capacity.
    pub fn tokens_since(&self, now_ms: u64) -> (r: u64)
        requires
            self.wf(),
            now_ms >= self.last_request,
        ensures
            r == self.refill(now_ms - self.last_request),
            0 <= r <= self.max_tokens,
    {
        let elapsed: u64 = now_ms - self.last_request;
        proof {
            assert((elapsed as int) * (self.refill_amount as int)
                <= (u64::MAX as int) * (u64::MAX as int)) by (nonlinear_arith)
                requires
                    0 <= elapsed as int <= u64::MAX as int,
                    0 <= self.refill_amount as int <= u64::MAX as int,
            ;
        }
        let accrued: u128 =
            (elapsed as u128) * (self.refill_amount as u128) / (self.refill_period_ms as u128);
        proof {
            assert((elapsed as int) * (self.refill_amount as int) >= 0) by (nonlinear_arith);
            assert(accrued == (elapsed as int) * (self.refill_amount as int)
                / (self.refill_period_ms as int));
        }
        if accrued > self.max_tokens as u128 {
            self.max_tokens
        } else {
            accrued as u64
        }
    }

    /// Fold the refill since the last observation into the stored count,
    /// clamping at the capacity. Does not advance the observation time.
    pub fn update_tokens(&mut self, now_ms: u64)
        requires
            old(self).wf(),
            now_ms >= old(self).last_request,
        ensures
            final(self).wf(),
            final(self).tokens == old(self).available(now_ms as int),
            final(self).last_request == old(self).last_request,
            final(self).refill_amount == old(self).refill_amount,
            final(self).refill_period_ms == old(self).refill_period_ms,
            final(self).max_tokens == old(self).max_tokens,
    {
        let gained = self.tokens_since(now_ms);
        let total: u128 = (self.tokens as u128) + (gained as u128);
        self.tokens = if total > self.max_tokens as u128 {
            self.max_tokens
        } else {
            total as u64
        };
    }

    /// Record `now_ms` as the time of the last observation.
    pub fn update_time(&mut self, now_ms: u64)
        ensures
            final(self).last_request == now_ms,
            final(self).tokens == old(self).tokens,
            final(self).refill_amount == old(self).refill_amount,
            final(self).refill_period_ms == old(self).refill_period_ms,
            final(self).max_tokens == old(self).max_tokens,
    {
        self.last_request = now_ms;
    }

    /// True iff the refreshed token count at `now_ms` is exactly zero.
    pub fn is_limited(&self, now_ms: u64) -> (r: bool)
        requires
            self.wf(),
            now_ms >= self.last_request,
        ensures
            r == (self.available(now_ms as int) == 0),
    {
        self.tokens == 0 && self.tokens_since(now_ms) == 0
    }

    /// Attempt to take one token at time `now_ms`. Succeeds only if the
    /// refreshed count is at least one; on success deducts one token and
    /// records `now_ms` as the consumption time. On failure the bucket is
    /// left unchanged, so being limited is a soft, retryable condition.
    pub fn consume(&mut self, now_ms: u64) -> (r: bool)
        requires
            old(self).wf(),
            now_ms >= old(self).last_request,
        ensures
            final(self).wf(),
            r == (old(self).available(now_ms as int) >= 1),
            r ==> final(self).tokens == old(self).available(now_ms as int) - 1
                && final(self).last_request == now_ms,
            !r ==> *final(self) == *old(self),
            final(self).refill_amount == old(self).refill_amount,
            final(self).refill_period_ms == old(self).refill_period_ms,
            final(self).max_tokens == old(self).max_tokens,
    {
        let gained = self.tokens_since(now_ms);
        let total: u128 = (self.tokens as u128) + (gained as u128);
        let refreshed: u64 = if total > self.max_tokens as u128 {
            self.max_tokens
        } else {
            total as u64
        };
        if refreshed >= 1 {
            self.tokens = refreshed - 1;
            self.last_request = now_ms;
            true
        } else {
            false
        }
    }

    /// The refill is monotone in the elapsed time and stays within the
    /// capacity: waiting longer never yields fewer tokens, and no amount of
    /// waiting yields more than `max_tokens`.
    pub proof fn lemma_refill_monotonic(self, e1: int, e2: int)
        requires
            self.wf(),
            0 <= e1 <= e2,
        ensures
            0 <= self.refill(e1) <= self.refill(e2) <= self.max_tokens,
    {
        let p = self.refill_period_ms as int;
        let a = self.refill_amount as int;
        assert(0 <= e1 * a <= e2 * a) by (nonlinear_arith)
            requires 0 <= e1 <= e2 && a >= 0;
        assert(0 <= e1 * a / p <= e2 * a / p) by (nonlinear_arith)
            requires 0 <= e1 * a <= e2 * a && p >= 1;
    }

    /// The refreshed token count always stays within `[0, max_tokens]`.
    pub proof fn lemma_available_in_range(self, now_ms: int)
        requires
            self.wf(),
            now_ms >= self.last_request,
        ensures
            0 <= self.available(now_ms as int) <= self.max_tokens,
    {
        self.lemma_refill_monotonic(0, now_ms - self.last_request);
        assert(0 * self.refill_amount / (self.refill_period_ms as int) == 0) by (nonlinear_arith)
            requires self.refill_period_ms >= 1;
    }
}

} // verus!
