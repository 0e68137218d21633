use rust_blaster::networking::{select_role, wait_ms, NetSetup, Role};

#[test]
fn defaults_match_the_documented_settings() {
    let d = NetSetup::default();
    assert_eq!(d.transfer_ms, 33);
    assert_eq!(d.timeout_ms, 1000);
    assert_eq!(d.packet_ttl, 60);
    assert!(!d.non_blocking);
    assert!(d.nodelay);
}

#[test]
fn zero_transfer_period_becomes_one() {
    let s = NetSetup { transfer_ms: 0, ..NetSetup::default() };
    assert_eq!(s.normalized().transfer_ms, 1);
    let t = NetSetup { transfer_ms: 50, ..NetSetup::default() };
    assert_eq!(t.normalized().transfer_ms, 50);
}

#[test]
fn zero_timeout_means_none() {
    assert_eq!(NetSetup { timeout_ms: 0, ..NetSetup::default() }.timeout(), None);
    assert_eq!(NetSetup::default().timeout(), Some(1000));
}

#[test]
fn pacing_waits_for_the_rest_of_the_period() {
    assert_eq!(wait_ms(10, 33), 23);
    assert_eq!(wait_ms(33, 33), 0);
    assert_eq!(wait_ms(50, 33), 0);
}

#[test]
fn command_line_picks_the_role() {
    let args = |v: &[&str]| v.iter().map(|s| s.to_string()).collect::<Vec<String>>();
    assert_eq!(select_role(&args(&["blaster"])), Role::Server);
    assert_eq!(select_role(&args(&["blaster", "2.0"])), Role::Server);
    assert_eq!(select_role(&args(&["blaster", "c", "127.0.0.1"])), Role::Client);
    assert_eq!(select_role(&args(&["blaster", "spectate", "127.0.0.1"])), Role::Spectator);
}
