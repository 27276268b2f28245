use rust_vss::player::{Effect, Player};
use rust_vss::rpc::{Share, ShareInfo, RPC};
use rust_vss::vss;

type Msg = RPC<&'static str, u32>;

// P(x) = 3x + 4x^2 over Z_5, g = 3 of order 5 modulo 11
fn info_for(share: Share, t: usize) -> ShareInfo {
    ShareInfo { share, g: 3, c: vec![1, 5, 4], p: 11, q: 5, t }
}

fn shares() -> Vec<Share> {
    vss::generate_shares(&vec![0, 3, 4], 4, 5)
}

fn player_with_share(t: usize) -> Player<&'static str, u32> {
    let mut player: Player<&'static str, u32> = Player::new(1);
    let e = player.handle(Msg::RegShare(info_for(shares()[0], t)));
    assert!(matches!(e, Effect::Idle));
    player
}

#[test]
fn ping_answers_pong() {
    let mut player: Player<&'static str, u32> = Player::new(1);
    assert!(matches!(player.handle(Msg::Ping(7)), Effect::Pong(7)));
}

#[test]
fn registration_overwrites() {
    let mut player: Player<&'static str, u32> = Player::new(1);
    player.handle(Msg::RegSender(2, "first"));
    player.handle(Msg::RegSender(3, "other"));
    player.handle(Msg::RegSender(2, "second"));
    let entries = player.senders.entries();
    assert_eq!(entries.len(), 2);
    assert_eq!(entries[0], (2, "second"));
    assert_eq!(entries[1], (3, "other"));
}

#[test]
fn invalid_own_share_halts() {
    let mut player: Player<&'static str, u32> = Player::new(1);
    let (x, y) = shares()[0];
    let e = player.handle(Msg::RegShare(info_for((x, (y + 1) % 5), 3)));
    assert!(matches!(e, Effect::Halt));
    assert!(player.share_info.is_none());
}

#[test]
fn reconstruct_without_share_is_ignored() {
    let mut player: Player<&'static str, u32> = Player::new(1);
    assert!(matches!(player.handle(Msg::Reconstruct(9)), Effect::Idle));
    assert!(player.reconstruct_send.is_none());
}

#[test]
fn reconstruct_broadcasts_own_share() {
    let mut player = player_with_share(3);
    match player.handle(Msg::Reconstruct(9)) {
        Effect::Broadcast(s) => assert_eq!(s, shares()[0]),
        _ => panic!("expected a broadcast"),
    }
    assert_eq!(player.reconstruct_send, Some(9));
}

#[test]
fn invalid_peer_share_is_rejected() {
    let mut player = player_with_share(3);
    let (x, y) = shares()[1];
    let e = player.handle(Msg::ReconstructShare(2, (x, (y + 1) % 5)));
    assert!(matches!(e, Effect::Reject(2)));
    assert_eq!(player.senders_shares.len(), 0);
}

#[test]
fn round_delivers_and_resets() {
    let mut player = player_with_share(3);
    player.handle(Msg::Reconstruct(9));
    let s = shares();
    assert!(matches!(player.handle(Msg::ReconstructShare(2, s[1])), Effect::Idle));
    // a repeated sender replaces its share and does not count twice
    assert!(matches!(player.handle(Msg::ReconstructShare(2, s[1])), Effect::Idle));
    assert!(matches!(player.handle(Msg::ReconstructShare(3, s[2])), Effect::Idle));
    match player.handle(Msg::ReconstructShare(4, s[3])) {
        Effect::Deliver(reply, secret) => {
            assert_eq!(reply, 9);
            assert_eq!(secret, 0);
        }
        _ => panic!("expected a delivery"),
    }
    assert_eq!(player.senders_shares.len(), 0);
    assert!(player.reconstruct_send.is_none());

    // a second round starts from nothing
    player.handle(Msg::Reconstruct(10));
    assert!(matches!(player.handle(Msg::ReconstructShare(2, s[1])), Effect::Idle));
    assert_eq!(player.senders_shares.len(), 1);
}

#[test]
fn round_without_request_discards_secret() {
    let mut player = player_with_share(2);
    let s = shares();
    player.handle(Msg::ReconstructShare(2, s[1]));
    assert!(matches!(player.handle(Msg::ReconstructShare(3, s[2])), Effect::Idle));
    assert_eq!(player.senders_shares.len(), 0);
}

#[test]
fn share_before_own_share_is_ignored() {
    let mut player: Player<&'static str, u32> = Player::new(1);
    assert!(matches!(player.handle(Msg::ReconstructShare(2, shares()[1])), Effect::Idle));
    assert_eq!(player.senders_shares.len(), 0);
}

#[test]
fn late_shares_do_not_reach_next_round() {
    let mut player = player_with_share(2);
    let s = shares();
    player.handle(Msg::Reconstruct(9));
    player.handle(Msg::ReconstructShare(2, s[1]));
    assert!(matches!(player.handle(Msg::ReconstructShare(3, s[2])), Effect::Deliver(9, _)));
    // a share that arrives after the round completed
    player.handle(Msg::ReconstructShare(4, s[3]));
    assert_eq!(player.senders_shares.len(), 1);
    // the next request starts from nothing
    player.handle(Msg::Reconstruct(10));
    assert_eq!(player.senders_shares.len(), 0);
    assert!(matches!(player.handle(Msg::ReconstructShare(2, s[1])), Effect::Idle));
}
