//! Peer reputation: penalties and rewards move a peer's score, and a score at
//! or below the ban threshold bans the peer for a fixed time. Times are
//! milliseconds on a monotonic clock, handed in by the caller.
use vstd::prelude::*;

verus! {

pub const INVALID_BLOCK_PENALTY: i32 = -10;
pub const INVALID_TX_PENALTY: i32 = -5;
pub const OVERSIZED_MESSAGE_PENALTY: i32 = -3;
pub const TIMEOUT_PENALTY: i32 = -15;
pub const SLOW_SYNC_PENALTY: i32 = -5;
pub const INVALID_HANDSHAKE_PENALTY: i32 = -20;
pub const GOOD_BEHAVIOR_REWARD: i32 = 1;
pub const BAN_THRESHOLD: i32 = -100;
/// One hour.
pub const BAN_DURATION_MS: u64 = 3_600_000;
pub const MAX_SCORE: i32 = 100;
pub const MIN_SCORE: i32 = -99;

/// A peer's standing: its score, ban, counters and handshake state.
#[derive(Debug, Clone, Copy, PartialEq, Eq, Structural)]
pub struct PeerStanding {
    pub score: i32,
    pub banned_until: Option<u64>,
    pub invalid_blocks: u32,
    pub invalid_txs: u32,
    pub valid_contributions: u32,
    pub last_seen: Option<u64>,
    pub handshaked: bool,
}

pub open spec fn clamp_low(s: int) -> int {
    if s < MIN_SCORE {
        MIN_SCORE as int
    } else {
        s
    }
}

/// The ban a score brings: at or below the threshold, until `now` plus the
/// ban duration (saturating); otherwise the ban stays as it was.
pub open spec fn ban_after(score: int, banned_until: Option<u64>, now: u64) -> Option<u64> {
    if score <= BAN_THRESHOLD {
        Some(if now + BAN_DURATION_MS > u64::MAX { u64::MAX } else { (now + BAN_DURATION_MS) as u64 })
    } else {
        banned_until
    }
}

/// Whether the peer is banned at `now`.
pub open spec fn banned_at(p: PeerStanding, now: u64) -> bool {
    p.banned_until matches Some(u) && now < u
}

impl PeerStanding {
    /// A peer never heard from: score 0, no ban, no counts.
    pub fn new() -> (p: Self)
        ensures
            p == (PeerStanding {
                score: 0,
                banned_until: None,
                invalid_blocks: 0,
                invalid_txs: 0,
                valid_contributions: 0,
                last_seen: None,
                handshaked: false,
            }),
    {
        PeerStanding {
            score: 0,
            banned_until: None,
            invalid_blocks: 0,
            invalid_txs: 0,
            valid_contributions: 0,
            last_seen: None,
            handshaked: false,
        }
    }

    /// Banned while `now` is before the end of the ban.
    pub fn is_banned(&self, now: u64) -> (b: bool)
        ensures
            b == banned_at(*self, now),
    {
        match self.banned_until {
            Some(u) => now < u,
            None => false,
        }
    }

    /// How long the ban still runs, if it does.
    pub fn ban_remaining(&self, now: u64) -> (r: Option<u64>)
        ensures
            r == (match self.banned_until {
                Some(u) => if now < u {
                    Some((u - now) as u64)
                } else {
                    None
                },
                None => None,
            }),
    {
        match self.banned_until {
            Some(u) => if now < u {
                Some(u - now)
            } else {
                None
            },
            None => None,
        }
    }

    /// Ban from `now` for the ban duration.
    pub fn ban(&mut self, now: u64)
        ensures
            *final(self) == (PeerStanding { banned_until: Some(now.saturating_add(BAN_DURATION_MS)), ..*old(self) }),
    {
        self.banned_until = Some(now.saturating_add(BAN_DURATION_MS));
    }

    /// Lift the ban and reset the score.
    pub fn unban(&mut self)
        ensures
            *final(self) == (PeerStanding { banned_until: None, score: 0, ..*old(self) }),
    {
        self.banned_until = None;
        self.score = 0;
    }

    /// A ban that has run out is lifted, and the score reset.
    pub fn expire_ban(&mut self, now: u64)
        ensures
            (old(self).banned_until matches Some(u) && now >= u) ==> *final(self) == (PeerStanding {
                banned_until: None,
                score: 0,
                ..*old(self)
            }),
            !(old(self).banned_until matches Some(u) && now >= u) ==> *final(self) == *old(self),
    {
        if let Some(u) = self.banned_until {
            if now >= u {
                self.banned_until = None;
                self.score = 0;
            }
        }
    }

    pub fn set_handshaked(&mut self, status: bool)
        ensures
            *final(self) == (PeerStanding { handshaked: status, ..*old(self) }),
    {
        self.handshaked = status;
    }

    /// An unclamped penalty: the score moves by `penalty`, and a score at or
    /// below the threshold bans.
    fn penalize(&mut self, penalty: i32, now: u64)
        requires
            penalty < 0,
            old(self).score + penalty >= i32::MIN,
        ensures
            final(self).score == old(self).score + penalty,
            final(self).banned_until == ban_after(old(self).score + penalty, old(self).banned_until, now),
            final(self).last_seen == Some(now),
            final(self).invalid_blocks == old(self).invalid_blocks,
            final(self).invalid_txs == old(self).invalid_txs,
            final(self).valid_contributions == old(self).valid_contributions,
            final(self).handshaked == old(self).handshaked,
    {
        self.score = self.score + penalty;
        self.last_seen = Some(now);
        if self.score <= BAN_THRESHOLD {
            self.ban(now);
        }
    }

    /// A penalty that stops at the minimum score.
    fn penalize_clamped(&mut self, penalty: i32, now: u64)
        requires
            penalty < 0,
            old(self).score + penalty >= i32::MIN,
        ensures
            final(self).score == clamp_low(old(self).score + penalty),
            final(self).banned_until == ban_after(clamp_low(old(self).score + penalty), old(self).banned_until, now),
            final(self).last_seen == Some(now),
            final(self).invalid_blocks == old(self).invalid_blocks,
            final(self).invalid_txs == old(self).invalid_txs,
            final(self).valid_contributions == old(self).valid_contributions,
            final(self).handshaked == old(self).handshaked,
    {
        let s: i32 = self.score + penalty;
        self.score = if s < MIN_SCORE { MIN_SCORE } else { s };
        self.last_seen = Some(now);
        if self.score <= BAN_THRESHOLD {
            self.ban(now);
        }
    }

    /// An invalid block: counted, and the score drops by the block penalty.
    pub fn report_invalid_block(&mut self, now: u64)
        requires
            old(self).invalid_blocks < u32::MAX,
            old(self).score + INVALID_BLOCK_PENALTY >= i32::MIN,
        ensures
            final(self).invalid_blocks == old(self).invalid_blocks + 1,
            final(self).score == old(self).score + INVALID_BLOCK_PENALTY,
            final(self).banned_until == ban_after(old(self).score + INVALID_BLOCK_PENALTY, old(self).banned_until, now),
            final(self).last_seen == Some(now),
            final(self).invalid_txs == old(self).invalid_txs,
            final(self).valid_contributions == old(self).valid_contributions,
            final(self).handshaked == old(self).handshaked,
    {
        self.invalid_blocks = self.invalid_blocks + 1;
        self.penalize(INVALID_BLOCK_PENALTY, now);
    }

    /// An invalid transaction: counted, and the score drops by the
    /// transaction penalty.
    pub fn report_invalid_tx(&mut self, now: u64)
        requires
            old(self).invalid_txs < u32::MAX,
            old(self).score + INVALID_TX_PENALTY >= i32::MIN,
        ensures
            final(self).invalid_txs == old(self).invalid_txs + 1,
            final(self).score == old(self).score + INVALID_TX_PENALTY,
            final(self).banned_until == ban_after(old(self).score + INVALID_TX_PENALTY, old(self).banned_until, now),
            final(self).last_seen == Some(now),
            final(self).invalid_blocks == old(self).invalid_blocks,
            final(self).valid_contributions == old(self).valid_contributions,
            final(self).handshaked == old(self).handshaked,
    {
        self.invalid_txs = self.invalid_txs + 1;
        self.penalize(INVALID_TX_PENALTY, now);
    }

    /// An oversized message: the score drops by the oversize penalty.
    pub fn report_oversized_message(&mut self, now: u64)
        requires
            old(self).score + OVERSIZED_MESSAGE_PENALTY >= i32::MIN,
        ensures
            *final(self) == (PeerStanding {
                score: (old(self).score + OVERSIZED_MESSAGE_PENALTY) as i32,
                banned_until: ban_after(old(self).score + OVERSIZED_MESSAGE_PENALTY, old(self).banned_until, now),
                last_seen: Some(now),
                ..*old(self)
            }),
    {
        self.penalize(OVERSIZED_MESSAGE_PENALTY, now);
    }

    /// Misbehaviour: the score drops by 10, not below the minimum.
    pub fn report_bad_behavior(&mut self, now: u64)
        requires
            old(self).score - 10 >= i32::MIN,
        ensures
            *final(self) == (PeerStanding {
                score: clamp_low(old(self).score - 10) as i32,
                banned_until: ban_after(clamp_low(old(self).score - 10), old(self).banned_until, now),
                last_seen: Some(now),
                ..*old(self)
            }),
    {
        self.penalize_clamped(-10, now);
    }

    /// A timeout: the score drops by the timeout penalty, not below the
    /// minimum.
    pub fn report_timeout(&mut self, now: u64)
        requires
            old(self).score + TIMEOUT_PENALTY >= i32::MIN,
        ensures
            *final(self) == (PeerStanding {
                score: clamp_low(old(self).score + TIMEOUT_PENALTY) as i32,
                banned_until: ban_after(clamp_low(old(self).score + TIMEOUT_PENALTY), old(self).banned_until, now),
                last_seen: Some(now),
                ..*old(self)
            }),
    {
        self.penalize_clamped(TIMEOUT_PENALTY, now);
    }

    /// A slow sync: the score drops by the slow-sync penalty, not below the
    /// minimum.
    pub fn report_slow_sync(&mut self, now: u64)
        requires
            old(self).score + SLOW_SYNC_PENALTY >= i32::MIN,
        ensures
            *final(self) == (PeerStanding {
                score: clamp_low(old(self).score + SLOW_SYNC_PENALTY) as i32,
                banned_until: ban_after(clamp_low(old(self).score + SLOW_SYNC_PENALTY), old(self).banned_until, now),
                last_seen: Some(now),
                ..*old(self)
            }),
    {
        self.penalize_clamped(SLOW_SYNC_PENALTY, now);
    }

    /// An invalid handshake: the score drops by the handshake penalty, not
    /// below the minimum.
    pub fn report_invalid_handshake(&mut self, now: u64)
        requires
            old(self).score + INVALID_HANDSHAKE_PENALTY >= i32::MIN,
        ensures
            *final(self) == (PeerStanding {
                score: clamp_low(old(self).score + INVALID_HANDSHAKE_PENALTY) as i32,
                banned_until: ban_after(clamp_low(old(self).score + INVALID_HANDSHAKE_PENALTY), old(self).banned_until, now),
                last_seen: Some(now),
                ..*old(self)
            }),
    {
        self.penalize_clamped(INVALID_HANDSHAKE_PENALTY, now);
    }

    /// A valid contribution: counted, and the score rises by the reward, not
    /// above the maximum.
    pub fn report_good_behavior(&mut self, now: u64)
        requires
            old(self).valid_contributions < u32::MAX,
        ensures
            *final(self) == (PeerStanding {
                valid_contributions: (old(self).valid_contributions + 1) as u32,
                score: if old(self).score + GOOD_BEHAVIOR_REWARD > MAX_SCORE {
                    MAX_SCORE
                } else {
                    (old(self).score + GOOD_BEHAVIOR_REWARD) as i32
                },
                last_seen: Some(now),
                ..*old(self)
            }),
    {
        self.valid_contributions = self.valid_contributions + 1;
        let s: i32 = if self.score < MAX_SCORE { self.score + GOOD_BEHAVIOR_REWARD } else { MAX_SCORE };
        self.score = if s > MAX_SCORE { MAX_SCORE } else { s };
        self.last_seen = Some(now);
    }

    /// A message over the rate limit: the score drops by the oversize
    /// penalty, not below the minimum.
    pub fn report_rate_limited(&mut self, now: u64)
        requires
            old(self).score + OVERSIZED_MESSAGE_PENALTY >= i32::MIN,
        ensures
            final(self).score == clamp_low(old(self).score + OVERSIZED_MESSAGE_PENALTY),
            final(self).banned_until == ban_after(clamp_low(old(self).score + OVERSIZED_MESSAGE_PENALTY), old(self).banned_until, now),
            final(self).invalid_blocks == old(self).invalid_blocks,
            final(self).invalid_txs == old(self).invalid_txs,
            final(self).valid_contributions == old(self).valid_contributions,
            final(self).last_seen == old(self).last_seen,
            final(self).handshaked == old(self).handshaked,
    {
        let s: i32 = self.score + OVERSIZED_MESSAGE_PENALTY;
        self.score = if s < MIN_SCORE { MIN_SCORE } else { s };
        if self.score <= BAN_THRESHOLD {
            self.ban(now);
        }
    }

    /// A vote or blob over its rate limit: the score drops by `penalty`, not
    /// below the minimum; this never bans.
    pub fn report_quota_exceeded(&mut self, penalty: i32)
        requires
            penalty < 0,
            old(self).score + penalty >= i32::MIN,
        ensures
            *final(self) == (PeerStanding { score: clamp_low(old(self).score + penalty) as i32, ..*old(self) }),
    {
        let s: i32 = self.score + penalty;
        self.score = if s < MIN_SCORE { MIN_SCORE } else { s };
    }
}

/// A penalty that stops at the minimum score never reaches the ban
/// threshold, so it never starts a ban: only unclamped penalties (invalid
/// blocks, invalid transactions, oversized messages) and explicit bans do.
pub proof fn law_clamped_penalties_never_ban(score: int, banned_until: Option<u64>, now: u64)
    ensures
        ban_after(clamp_low(score), banned_until, now) == banned_until,
{
}

/// A score at or below the threshold bans for the full duration: the peer is
/// banned at every time from the report until the report time plus the ban
/// duration.
pub proof fn law_ban_lasts_its_duration(p: PeerStanding, score: int, t: u64, now: u64)
    requires
        score <= BAN_THRESHOLD,
        t + BAN_DURATION_MS <= u64::MAX,
        t <= now < t + BAN_DURATION_MS,
    ensures
        banned_at(PeerStanding { banned_until: ban_after(score, p.banned_until, t), ..p }, now),
{
}

} // verus!
