//! How often device codes are given out.

use remarkable_server::oauth::NANOS;
use remarkable_server::rate::{client_of, nearest, origin_of, Address, Client, CodeRate};

fn secs(n: u64) -> u64 {
    n * NANOS
}

#[test]
fn a_client_gets_five_codes_in_ten_minutes() {
    let mut rate = CodeRate::new();
    let a = Client::V4(1);
    for i in 0..5 {
        assert_eq!(rate.ask(a, secs(100 + i)), Ok(()));
    }
    // The first one is over at 700.
    assert_eq!(rate.ask(a, secs(200)), Err(500));
    assert_eq!(rate.ask(a, secs(699)), Err(1));
    assert_eq!(rate.ask(a, secs(699) + 1), Err(1));
    assert_eq!(rate.ask(a, secs(700)), Ok(()));
    assert_eq!(rate.ask(a, secs(700)), Err(1));
    // Another client is not held up.
    assert_eq!(rate.ask(Client::V6(1), secs(700)), Ok(()));
}

#[test]
fn all_clients_get_twenty_codes_in_a_minute() {
    let mut rate = CodeRate::new();
    for i in 0..20 {
        assert_eq!(rate.ask(Client::V4(i), secs(10)), Ok(()));
    }
    assert_eq!(rate.ask(Client::V4(77), secs(40)), Err(30));
    assert_eq!(rate.ask(Client::V4(77), secs(70)), Ok(()));
}

#[test]
fn what_is_refused_does_not_count() {
    let mut rate = CodeRate::new();
    let a = Client::V4(1);
    for _ in 0..5 {
        assert_eq!(rate.ask(a, secs(1)), Ok(()));
    }
    for t in 2..600 {
        assert!(rate.ask(a, secs(t)).is_err());
    }
    assert_eq!(rate.ask(a, secs(601)), Ok(()));
    assert_eq!(rate.log.len(), 1);
}

#[test]
fn a_v6_network_counts_as_one_client() {
    let host = |low: u128| Address::V6((0x2001_0db8_0000_0001u128 << 64) | low);
    assert_eq!(client_of(host(1)), client_of(host(0xffff)));
    assert_eq!(client_of(host(1)), Client::V6(0x2001_0db8_0000_0001));
    assert_eq!(client_of(Address::V4(9)), Client::V4(9));
}

#[test]
fn only_a_local_proxy_is_believed() {
    let local = Address::V4(0x7f00_0001);
    let far = Address::V4(0x0a00_0001);
    let claimed = Some(Address::V4(5));
    let heard = Some(Address::V4(6));
    assert_eq!(origin_of(far, claimed, heard), far);
    assert_eq!(origin_of(local, claimed, heard), Address::V4(5));
    assert_eq!(origin_of(local, None, heard), Address::V4(6));
    assert_eq!(origin_of(local, None, None), local);
    assert_eq!(origin_of(Address::V6(1), claimed, None), Address::V4(5));
    assert_eq!(nearest("1.2.3.4, 5.6.7.8"), "5.6.7.8");
    assert_eq!(nearest(" 9.9.9.9 "), "9.9.9.9");
    assert_eq!(nearest(""), "");
}
