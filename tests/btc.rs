use escrow_bot::btc::{get_wallet, AddressInfo, Btc, CoinError};
use escrow_bot::coins::{coin_kind, Coin};
use escrow_bot::ledger::CoinKind;
use escrow_bot::policy::{confirmation_depth, BalanceError, ChainReport};

const ZPUB: &str = "zpub6qUQGY8YyN3ZztQBDdN8gUrFNvgCdTdFyTNorQ79VfkfkmhMR6D4cHBZ4EnXdFog1e2ugyCJqTcyDE4ZpTGqcMiCEnyPEyJFKbPVL9knhKU";

const VPUB: &str = "vpub5Y9M3sStNdsebhdhtCDdr8UEh46QryfGK1HvipXbyeF9YNSSQTYp82YzyQxBddBzP5Zgh4p4zpCmg5cJwfcnRQynmSBguL2JEh8umtXSXHN";

fn wallet(index: u32) -> Btc {
    Btc::new(ZPUB.to_string(), index, None, "ssl://electrum.example:50002".to_string()).unwrap()
}

fn report(confirmed: u64, height: Option<u64>, tip: u64) -> ChainReport {
    ChainReport { confirmed, latest_height: height, tip_height: tip }
}

#[test]
fn new_wallet_keeps_settings() {
    let b = wallet(7);
    assert_eq!(b.address_index(), 7);
    assert_eq!(b.electrum(), "ssl://electrum.example:50002");
    assert!(!b.testnet());
    let t = Btc::new(VPUB.to_string(), 0, Some(true), String::new()).unwrap();
    assert!(t.testnet());
}

#[test]
fn mainnet_key_refused_on_testnet() {
    let r = Btc::new(ZPUB.to_string(), 0, Some(true), String::new());
    assert!(matches!(r, Err(CoinError::Wallet)));
}

#[test]
fn invalid_key_is_refused() {
    let r = Btc::new("not-a-key".to_string(), 0, None, String::new());
    assert!(matches!(r, Err(CoinError::InvalidKey)));
    let w = get_wallet("zpub".to_string(), 0, Some(false), String::new());
    assert!(matches!(w, Err(CoinError::InvalidKey)));
}

#[test]
fn new_addresses_climb_above_high_water_mark() {
    let mut b = wallet(5);
    let a = b.get_address(None).unwrap();
    assert_eq!(a.index, 6);
    assert_eq!(b.address_index(), 6);
    let c = b.get_address(Some(0)).unwrap();
    assert_eq!(c.index, 7);
    assert_eq!(b.address_index(), 7);
    assert_ne!(a.address, c.address);
    assert!(a.address.starts_with("bc1q"));
}

#[test]
fn peek_leaves_mark_alone() {
    let mut b = wallet(5);
    let p = b.get_address(Some(2)).unwrap();
    assert_eq!(p.index, 2);
    assert_eq!(b.address_index(), 5);
    let again = b.get_address(Some(2)).unwrap();
    assert_eq!(p.address, again.address);
}

#[test]
fn script_of_known_address() {
    let b = wallet(0);
    let s = b.script_for(&"bc1qw508d6qejxtdg4y5r3zarvary0c5xw7kv8f3t4".to_string()).unwrap();
    let mut expected = vec![0x00u8, 0x14];
    expected.extend_from_slice(&[
        0x75, 0x1e, 0x76, 0xe8, 0x19, 0x91, 0x96, 0xd4, 0x54, 0x94, 0x1c, 0x45, 0xd1, 0xb3,
        0xa3, 0x23, 0xf1, 0x43, 0x3b, 0xd6,
    ]);
    assert_eq!(s, expected);
}

#[test]
fn script_refuses_bad_or_foreign_address() {
    let b = wallet(0);
    assert_eq!(b.script_for(&"nonsense".to_string()), Err(CoinError::InvalidAddress));
    let t = Btc::new(VPUB.to_string(), 0, Some(true), String::new()).unwrap();
    assert_eq!(
        t.script_for(&"bc1qw508d6qejxtdg4y5r3zarvary0c5xw7kv8f3t4".to_string()),
        Err(CoinError::InvalidAddress)
    );
}

#[test]
fn depth_is_blocks_on_top() {
    assert_eq!(confirmation_depth(&report(0, Some(100), 104)), Some(4));
    assert_eq!(confirmation_depth(&report(0, Some(104), 104)), Some(0));
    assert_eq!(confirmation_depth(&report(0, Some(105), 104)), None);
    assert_eq!(confirmation_depth(&report(0, None, 104)), None);
}

#[test]
fn depth_of_unconfirmed_is_zero() {
    assert_eq!(confirmation_depth(&report(0, Some(0), 104)), Some(0));
    let b = wallet(0);
    assert_eq!(b.get_balance(&report(50_000, Some(0), 104)), Err(BalanceError::OutsideWindow));
}

#[test]
fn balance_counts_inside_window_only() {
    let b = wallet(0);
    assert_eq!(b.get_balance(&report(50_000, Some(100), 104)), Ok(50_000));
    assert_eq!(b.get_balance(&report(50_000, Some(100), 106)), Ok(50_000));
    assert_eq!(b.get_balance(&report(50_000, Some(100), 103)), Err(BalanceError::OutsideWindow));
    assert_eq!(b.get_balance(&report(50_000, Some(100), 107)), Err(BalanceError::OutsideWindow));
    assert_eq!(b.get_balance(&report(50_000, None, 107)), Err(BalanceError::NoHistory));
    assert_eq!(b.get_balance(&report(50_000, Some(200), 107)), Err(BalanceError::HeightAhead));
}

#[test]
fn assert_eq_compares_expected_units() {
    let b = wallet(0);
    assert_eq!(b.assert_eq(&report(50_000, Some(100), 105), 50_000), Ok(true));
    assert_eq!(b.assert_eq(&report(49_999, Some(100), 105), 50_000), Ok(false));
    assert_eq!(b.assert_eq(&report(60_000, Some(100), 102), 50_000), Err(BalanceError::OutsideWindow));
}

#[test]
fn coin_tags() {
    assert_eq!(coin_kind(&"btc".to_string()), Some(CoinKind::Btc));
    assert_eq!(coin_kind(&"BTC".to_string()), None);
    assert_eq!(coin_kind(&"xmr".to_string()), None);
    assert_eq!(coin_kind(&String::new()), None);
}

#[test]
fn registry_dispatches_to_bitcoin() {
    let mut c = Coin::Btc(wallet(3));
    assert_eq!(c.kind(), CoinKind::Btc);
    assert_eq!(c.get_balance(&report(10, Some(100), 105)), Ok(10));
    assert_eq!(c.assert_eq(&report(10, Some(100), 105), 11), Ok(false));
    assert_eq!(c.get_address(None).unwrap().index, 4);
    assert_eq!(c.get_address(Some(9)).unwrap().index, 9);
    match &c {
        Coin::Btc(b) => assert_eq!(b.address_index(), 4),
    }
}

#[test]
fn index_bound_refused() {
    let r = Btc::new(ZPUB.to_string(), 0x8000_0000, None, String::new());
    assert!(matches!(r, Err(CoinError::IndexExhausted)));
    let mut top = wallet(0x7fff_fffe);
    let last = top.get_address(None).unwrap();
    assert_eq!(last.index, 0x7fff_ffff);
    assert!(matches!(top.get_address(None), Err(CoinError::IndexExhausted)));
    assert_eq!(top.address_index(), 0x7fff_ffff);
    assert!(matches!(top.get_address(Some(0x8000_0000)), Err(CoinError::IndexExhausted)));
}

#[test]
fn short_key_payload_refused() {
    let r = Btc::new("3QJmnh".to_string(), 0, None, String::new());
    assert!(matches!(r, Err(CoinError::InvalidKey)));
}

#[test]
fn accept_new_needs_higher_index() {
    let mut b = wallet(5);
    let low = AddressInfo { index: 5, address: "a".to_string() };
    assert!(matches!(b.accept_new(low), Err(CoinError::IndexExhausted)));
    assert_eq!(b.address_index(), 5);
    let high = AddressInfo { index: 9, address: "b".to_string() };
    let got = b.accept_new(high).unwrap();
    assert_eq!(got.index, 9);
    assert_eq!(got.address, "b");
    assert_eq!(b.address_index(), 9);
}

#[test]
fn new_address_matches_peek() {
    let mut b = wallet(2);
    let peeked = b.get_address(Some(3)).unwrap();
    let fresh = b.get_address(None).unwrap();
    assert_eq!(fresh.index, 3);
    assert_eq!(fresh.address, peeked.address);
}

#[test]
fn peeks_agree() {
    let mut b = wallet(4);
    let p1 = b.get_address(Some(2)).unwrap();
    let p2 = b.get_address(Some(2)).unwrap();
    assert_eq!(p1.index, 2);
    assert_eq!(p1.address, p2.address);
    assert_eq!(b.address_index(), 4);
    assert_eq!(b.get_address(None).unwrap().index, 5);
}

#[test]
fn report_from_oracle_history() {
    let r = escrow_bot::policy::chain_report(7, &vec![100, 103], 110);
    assert_eq!(r.latest_height, Some(103));
    assert_eq!(r.confirmed, 7);
    assert_eq!(r.tip_height, 110);
    assert_eq!(escrow_bot::policy::chain_report(7, &vec![100, 0], 110).latest_height, Some(0));
    assert_eq!(escrow_bot::policy::chain_report(7, &vec![100, -1], 110).latest_height, Some(0));
    assert_eq!(escrow_bot::policy::chain_report(7, &vec![], 110).latest_height, None);
}
