use budlum_core::network::peer_score::{
    PeerStanding, BAN_DURATION_MS, BAN_THRESHOLD, GOOD_BEHAVIOR_REWARD, INVALID_BLOCK_PENALTY,
    MAX_SCORE, MIN_SCORE,
};

#[test]
fn test_new_peer_has_zero_score() {
    let peer = PeerStanding::new();
    assert_eq!(peer.score, 0);
}

#[test]
fn test_invalid_block_penalty() {
    let mut peer = PeerStanding::new();
    peer.report_invalid_block(1);
    assert_eq!(peer.score, INVALID_BLOCK_PENALTY);
    assert_eq!(peer.invalid_blocks, 1);
}

#[test]
fn test_good_behavior_reward() {
    let mut peer = PeerStanding::new();
    peer.report_good_behavior(1);
    assert_eq!(peer.score, GOOD_BEHAVIOR_REWARD);
}

#[test]
fn test_peer_gets_banned() {
    let mut peer = PeerStanding::new();
    for _ in 0..11 {
        peer.report_invalid_block(1_000);
    }
    assert!(peer.is_banned(1_000));
    assert!(peer.score <= BAN_THRESHOLD);
    assert_eq!(peer.ban_remaining(1_000), Some(BAN_DURATION_MS));
    assert!(!peer.is_banned(1_000 + BAN_DURATION_MS));
}

#[test]
fn test_unban_peer() {
    let mut peer = PeerStanding::new();
    peer.ban(5);
    assert!(peer.is_banned(5));
    peer.unban();
    assert!(!peer.is_banned(5));
    assert_eq!(peer.score, 0);
}

#[test]
fn test_score_capped_at_max() {
    let mut peer = PeerStanding::new();
    for _ in 0..200 {
        peer.report_good_behavior(1);
    }
    assert_eq!(peer.score, MAX_SCORE);
}

#[test]
fn clamped_penalties_stop_at_minimum_and_never_ban() {
    let mut peer = PeerStanding::new();
    for _ in 0..20 {
        peer.report_timeout(7);
        peer.report_invalid_handshake(7);
        peer.report_bad_behavior(7);
        peer.report_slow_sync(7);
        peer.report_rate_limited(7);
        peer.report_quota_exceeded(-5);
    }
    assert_eq!(peer.score, MIN_SCORE);
    assert!(!peer.is_banned(7));
    assert_eq!(peer.last_seen, Some(7));
}

#[test]
fn expired_bans_are_lifted() {
    let mut peer = PeerStanding::new();
    peer.ban(10);
    peer.score = -50;
    peer.expire_ban(10 + BAN_DURATION_MS - 1);
    assert!(peer.banned_until.is_some());
    assert_eq!(peer.score, -50);
    peer.expire_ban(10 + BAN_DURATION_MS);
    assert!(peer.banned_until.is_none());
    assert_eq!(peer.score, 0);
}

#[test]
fn ban_end_saturates() {
    let mut peer = PeerStanding::new();
    peer.ban(u64::MAX - 1);
    assert_eq!(peer.banned_until, Some(u64::MAX));
    peer.set_handshaked(true);
    assert!(peer.handshaked);
    peer.report_oversized_message(3);
    assert_eq!(peer.score, -3);
}
