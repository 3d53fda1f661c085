use raft::config::Config;
use raft::server::{join_address, join_decision, JoinDecision};

#[test]
fn config_new_keeps_fields() {
    let c = Config::new(10, 15, 3);
    assert_eq!(c.election_timeout_min, 10);
    assert_eq!(c.election_timeout_max, 15);
    assert_eq!(c.heartbeat_interval, 3);
}

#[test]
fn rand_election_timeout_in_range() {
    let c = Config::new(10, 15, 3);
    for _ in 0..200 {
        let t = c.new_rand_election_timeout();
        assert!((10..15).contains(&t));
    }
    let c = Config::new(7, 8, 0);
    assert_eq!(c.new_rand_election_timeout(), 7);
}

#[test]
fn join_known_address_refused() {
    let connected = vec![String::from("[::1]:50051"), String::from("[::1]:50052")];
    assert_eq!(join_decision(&connected, &String::from("[::1]:50052")), JoinDecision::AlreadyConnected);
}

#[test]
fn join_new_address_connects() {
    let connected = vec![String::from("[::1]:50051")];
    assert_eq!(join_decision(&connected, &String::from("[::1]:50053")), JoinDecision::Connect);
    assert_eq!(join_decision(&Vec::new(), &String::from("a")), JoinDecision::Connect);
}

#[test]
fn join_address_decodes_utf8() {
    assert_eq!(join_address(b"[::1]:50052".to_vec()), "[::1]:50052");
    assert_eq!(join_address("h\u{e9}te:1".as_bytes().to_vec()), "h\u{e9}te:1");
    assert_eq!(join_address(Vec::new()), "");
}
