use escrow_bot::engine::{Ad, Bot, Config, ConfigError, ListingError, PaymentReport, ADDRESS_NOTE};
use escrow_bot::ledger::{TradeSnapshot, TradeStatus};
use escrow_bot::policy::ChainReport;

const ZPUB: &str = "zpub6qUQGY8YyN3ZztQBDdN8gUrFNvgCdTdFyTNorQ79VfkfkmhMR6D4cHBZ4EnXdFog1e2ugyCJqTcyDE4ZpTGqcMiCEnyPEyJFKbPVL9knhKU";

fn config(ads: Vec<(&str, &str)>) -> Config {
    Config {
        password: "hunter2".to_string(),
        testnet: false,
        mpk: ZPUB.to_string(),
        electrum: "ssl://electrum.example:50002".to_string(),
        address_index: 0,
        ads: ads
            .into_iter()
            .map(|(id, coin)| Ad { id: id.to_string(), coin: coin.to_string() })
            .collect(),
    }
}

fn bot() -> Bot {
    Bot::new(&config(vec![("A1", "btc")])).unwrap()
}

fn snap(id: &str, ad: &str, amount: &str) -> TradeSnapshot {
    TradeSnapshot {
        trade_id: id.to_string(),
        advertisement_id: ad.to_string(),
        amount: amount.to_string(),
    }
}

fn paid_report(id: &str, confirmed: u64, depth: u64) -> PaymentReport {
    PaymentReport {
        trade_id: id.to_string(),
        report: Some(ChainReport {
            confirmed,
            latest_height: Some(800_000),
            tip_height: 800_000 + depth,
        }),
    }
}

/// A bot that has taken on T1 and told its counterparty the address.
fn notified_bot() -> Bot {
    let mut b = bot();
    let new = b.fetch_trades(&Ok(vec![snap("T1", "A1", "0.0005")]));
    assert_eq!(new, vec!["T1".to_string()]);
    assert!(b.address_sent(&"T1".to_string(), true));
    b
}

#[test]
fn config_unknown_coin() {
    let r = Bot::new(&config(vec![("A1", "btc"), ("A2", "doge")]));
    assert!(matches!(r, Err(ConfigError::UnknownCoin)));
}

#[test]
fn config_bad_key() {
    let mut c = config(vec![("A1", "btc")]);
    c.mpk = "xpub-garbage".to_string();
    assert!(matches!(Bot::new(&c), Err(ConfigError::Coin(_))));
}

#[test]
fn config_routes_ads() {
    let b = Bot::new(&config(vec![("A1", "btc"), ("A2", "btc")])).unwrap();
    assert_eq!(b.ads.len(), 2);
    assert_eq!(b.coins.len(), 1);
    assert!(b.trades.is_empty());
    assert!(b.route_for(&"A2".to_string()).is_some());
    assert!(b.route_for(&"A3".to_string()).is_none());
}

#[test]
fn scenario_discover_verify_finalize() {
    let mut b = bot();
    let new = b.fetch_trades(&Ok(vec![snap("T1", "A1", "0.0005")]));
    assert_eq!(new, vec!["T1".to_string()]);
    assert_eq!(b.trades.len(), 1);
    assert_eq!(b.trades[0].status, TradeStatus::AddressAssigned);
    assert!(!b.trades[0].address_notified);
    let address = b.trades[0].deposit_address.clone();
    assert!(address.starts_with("bc1q"));
    assert_eq!(b.pending_notifications(), vec!["T1".to_string()]);
    let msg = b.send_address(&"T1".to_string()).unwrap();
    assert_eq!(msg.trade_id, "T1");
    assert_eq!(msg.text, format!("{}{}", ADDRESS_NOTE, address));
    assert!(msg.text.ends_with(&address));
    assert!(b.address_sent(&"T1".to_string(), true));
    assert_eq!(b.trades[0].status, TradeStatus::Notified);
    assert!(b.pending_notifications().is_empty());
    let targets = b.monitor_targets();
    assert_eq!(targets.len(), 1);
    assert_eq!(targets[0].address, address);
    let paid = b.monitor_trade_status(&vec![paid_report("T1", 50_000, 4)]);
    assert_eq!(paid, vec!["T1".to_string()]);
    assert_eq!(b.trades[0].status, TradeStatus::Verified);
    let req = b.release_request(&"T1".to_string()).unwrap();
    assert_eq!(req.password, "hunter2");
    assert!(b.finalize_trade(&"T1".to_string(), true));
    assert!(b.trades.is_empty());
    assert!(!b.finalize_trade(&"T1".to_string(), true));
}

#[test]
fn scenario_shallow_depth_stays_notified() {
    let mut b = notified_bot();
    let paid = b.monitor_trade_status(&vec![paid_report("T1", 50_000, 2)]);
    assert!(paid.is_empty());
    assert_eq!(b.trades.len(), 1);
    assert_eq!(b.trades[0].status, TradeStatus::Notified);
    assert!(b.release_request(&"T1".to_string()).is_none());
}

#[test]
fn scenario_listing_failure_changes_nothing() {
    let mut b = notified_bot();
    let before = b.trades[0].deposit_address.clone();
    for e in [ListingError::Transport, ListingError::Status, ListingError::Decode] {
        let new = b.fetch_trades(&Err(e));
        assert!(new.is_empty());
        assert_eq!(b.trades.len(), 1);
        assert_eq!(b.trades[0].deposit_address, before);
        assert_eq!(b.trades[0].status, TradeStatus::Notified);
    }
}

#[test]
fn scenario_unfiltered_ad_ignored() {
    let mut b = bot();
    let new = b.fetch_trades(&Ok(vec![snap("T9", "A9", "0.0005")]));
    assert!(new.is_empty());
    assert!(b.trades.is_empty());
    let again = b.fetch_trades(&Ok(vec![snap("T9", "A9", "0.0005")]));
    assert!(again.is_empty());
    assert!(b.trades.is_empty());
}

#[test]
fn reobserved_trade_keeps_address() {
    let mut b = bot();
    b.fetch_trades(&Ok(vec![snap("T1", "A1", "0.0005")]));
    let address = b.trades[0].deposit_address.clone();
    let index = b.trades[0].address_index;
    let mark = match &b.coins[0] {
        escrow_bot::coins::Coin::Btc(w) => w.address_index(),
    };
    let new = b.fetch_trades(&Ok(vec![snap("T1", "A1", "0.0006")]));
    assert!(new.is_empty());
    assert_eq!(b.trades.len(), 1);
    assert_eq!(b.trades[0].deposit_address, address);
    assert_eq!(b.trades[0].address_index, index);
    assert_eq!(b.trades[0].data.amount, "0.0006");
    let mark_after = match &b.coins[0] {
        escrow_bot::coins::Coin::Btc(w) => w.address_index(),
    };
    assert_eq!(mark, mark_after);
}

#[test]
fn duplicate_listing_entries_make_one_record() {
    let mut b = bot();
    let new = b.fetch_trades(&Ok(vec![
        snap("T1", "A1", "0.0005"),
        snap("T1", "A1", "0.0007"),
        snap("T2", "A1", "1"),
    ]));
    assert_eq!(new, vec!["T1".to_string(), "T2".to_string()]);
    assert_eq!(b.trades.len(), 2);
    assert_eq!(b.trades[0].data.amount, "0.0007");
    assert_ne!(b.trades[0].deposit_address, b.trades[1].deposit_address);
    assert!(b.trades[1].address_index > b.trades[0].address_index);
}

#[test]
fn underpaid_never_verified() {
    let mut b = notified_bot();
    for depth in [3u64, 4, 5, 6, 7, 100] {
        let paid = b.monitor_trade_status(&vec![paid_report("T1", 49_999, depth)]);
        assert!(paid.is_empty());
        assert_eq!(b.trades[0].status, TradeStatus::Notified);
    }
}

#[test]
fn depth_window_boundaries() {
    for (depth, ok) in [(3u64, false), (4, true), (5, true), (6, true), (7, false)] {
        let mut b = notified_bot();
        let paid = b.monitor_trade_status(&vec![paid_report("T1", 50_000, depth)]);
        assert_eq!(paid.len() == 1, ok, "depth {}", depth);
    }
}

#[test]
fn overpayment_counts() {
    let mut b = notified_bot();
    let paid = b.monitor_trade_status(&vec![paid_report("T1", 70_000, 5)]);
    assert_eq!(paid, vec!["T1".to_string()]);
}

#[test]
fn unnotified_trade_not_monitored() {
    let mut b = bot();
    b.fetch_trades(&Ok(vec![snap("T1", "A1", "0.0005")]));
    assert!(!b.address_sent(&"T1".to_string(), false));
    assert_eq!(b.trades[0].status, TradeStatus::AddressAssigned);
    assert!(b.monitor_targets().is_empty());
    let paid = b.monitor_trade_status(&vec![paid_report("T1", 50_000, 5)]);
    assert!(paid.is_empty());
    assert_eq!(b.pending_notifications(), vec!["T1".to_string()]);
}

#[test]
fn unparsable_amount_skipped() {
    let mut b = bot();
    b.fetch_trades(&Ok(vec![snap("T1", "A1", "lots"), snap("T2", "A1", "0.0005")]));
    b.address_sent(&"T1".to_string(), true);
    b.address_sent(&"T2".to_string(), true);
    let paid = b.monitor_trade_status(&vec![
        paid_report("T1", 50_000, 5),
        paid_report("T2", 50_000, 5),
    ]);
    assert_eq!(paid, vec!["T2".to_string()]);
}

#[test]
fn oracle_failure_leaves_trade() {
    let mut b = notified_bot();
    let paid = b.monitor_trade_status(&vec![PaymentReport { trade_id: "T1".to_string(), report: None }]);
    assert!(paid.is_empty());
    assert_eq!(b.trades[0].status, TradeStatus::Notified);
}

#[test]
fn failed_release_is_retried() {
    let mut b = notified_bot();
    b.monitor_trade_status(&vec![paid_report("T1", 50_000, 6)]);
    assert!(!b.finalize_trade(&"T1".to_string(), false));
    assert_eq!(b.trades[0].status, TradeStatus::Verified);
    let paid = b.monitor_trade_status(&vec![paid_report("T1", 50_000, 6)]);
    assert_eq!(paid, vec!["T1".to_string()]);
    assert!(b.finalize_trade(&"T1".to_string(), true));
    assert!(b.trades.is_empty());
}

#[test]
fn finalize_needs_verified() {
    let mut b = notified_bot();
    assert!(!b.finalize_trade(&"T1".to_string(), true));
    assert_eq!(b.trades.len(), 1);
    assert!(!b.finalize_trade(&"nope".to_string(), true));
}

#[test]
fn operator_removal() {
    let mut b = notified_bot();
    b.remove_trade(&"nope".to_string());
    assert_eq!(b.trades.len(), 1);
    b.remove_trade(&"T1".to_string());
    assert!(b.trades.is_empty());
}

#[test]
fn send_address_only_while_waiting() {
    let b = notified_bot();
    assert!(b.send_address(&"T1".to_string()).is_none());
    assert!(b.send_address(&"T7".to_string()).is_none());
}

#[test]
fn config_without_ads_opens_no_wallet() {
    let mut c = config(vec![]);
    c.mpk = "not a key".to_string();
    let b = Bot::new(&c).unwrap();
    assert!(b.coins.is_empty());
    assert!(b.ads.is_empty());
}

#[test]
fn new_trade_takes_next_index() {
    let mut b = bot();
    b.fetch_trades(&Ok(vec![snap("T1", "A1", "0.0005")]));
    assert_eq!(b.trades[0].address_index, 1);
    let peeked = match &mut b.coins[0] {
        escrow_bot::coins::Coin::Btc(w) => w.get_address(Some(1)).unwrap(),
    };
    assert_eq!(peeked.address, b.trades[0].deposit_address);
}

#[test]
fn failed_or_filtered_listing_allocates_nothing() {
    let mut b = bot();
    let mark = b.coins[0].mark();
    b.fetch_trades(&Err(ListingError::Transport));
    assert_eq!(b.coins[0].mark(), mark);
    b.fetch_trades(&Ok(vec![snap("T9", "A9", "0.0005")]));
    assert_eq!(b.coins[0].mark(), mark);
    b.fetch_trades(&Ok(vec![snap("T1", "A1", "0.0005"), snap("T1", "A1", "0.0005")]));
    assert_eq!(b.coins[0].mark(), mark + 1);
    b.fetch_trades(&Ok(vec![snap("T1", "A1", "0.0005"), snap("T2", "A1", "0.1")]));
    assert_eq!(b.coins[0].mark(), mark + 2);
    assert_eq!(b.trades.len(), 2);
}
