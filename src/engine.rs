//! The reconciliation engine: one polling cycle's decisions, from the
//! marketplace listing to the release of escrow.
use vstd::prelude::*;
use crate::btc::{wallet_opens, AddressInfo, Btc, CoinError, INDEX_LIMIT};
use crate::coins::{coin_kind, next_of, tag_kind, Coin, CoinView};
use crate::amount::parse_amount;
use crate::policy::{is_paid, ChainReport};
use vstd::string::StringExecFns;
use crate::ledger::{
    address_in_use, address_used, amount_of_text, find_trade, is_monitored_status, ledger_wf,
    record_wf, tracks, view_records, CoinKind,
    RecordView, SnapshotView, TradeRecord, TradeSnapshot, TradeStatus,
};

verus! {

/// A marketplace advertisement that the engine services, and its asset tag.
pub struct Ad {
    pub id: String,
    pub coin: String,
}

/// The engine's configuration.
pub struct Config {
    /// Password that authorises the release of escrow.
    pub password: String,
    pub testnet: bool,
    /// SLIP-132 master public key of the deposit wallet.
    pub mpk: String,
    /// Address of the chain oracle.
    pub electrum: String,
    /// Last derivation index handed out.
    pub address_index: u32,
    pub ads: Vec<Ad>,
}

/// Why the engine cannot start.
#[derive(Debug, Clone, Copy, PartialEq, Eq, Structural)]
pub enum ConfigError {
    /// An advertisement names an asset that has no backend.
    UnknownCoin,
    /// The wallet of an asset could not be opened.
    Coin(CoinError),
}

/// Why the marketplace listing could not be had this cycle.
#[derive(Debug, Clone, Copy, PartialEq, Eq, Structural)]
pub enum ListingError {
    Transport,
    Status,
    Decode,
}

/// An advertisement of the filter, with the asset it is paid in.
pub struct AdRoute {
    pub id: String,
    pub coin: CoinKind,
}

pub struct RouteView {
    pub id: Seq<char>,
    pub coin: CoinKind,
}

impl View for AdRoute {
    type V = RouteView;

    open spec fn view(&self) -> RouteView {
        RouteView { id: self.id@, coin: self.coin }
    }
}

/// The asset of the first advertisement of the filter with id `ad`; `None`
/// where the filter does not hold it.
pub open spec fn route_of(routes: Seq<RouteView>, ad: Seq<char>) -> Option<CoinKind>
    decreases routes.len(),
{
    if routes.len() == 0 {
        None
    } else if routes[0].id == ad {
        Some(routes[0].coin)
    } else {
        route_of(routes.skip(1), ad)
    }
}

pub open spec fn in_filter(routes: Seq<RouteView>, ad: Seq<char>) -> bool {
    route_of(routes, ad) is Some
}

pub open spec fn with_data(r: RecordView, s: SnapshotView) -> RecordView {
    RecordView { data: s, ..r }
}

/// The ledger after the listing showed `s` again: a tracked trade of the
/// filter takes the new snapshot; nothing else changes.
pub open spec fn refreshed(l: Seq<RecordView>, routes: Seq<RouteView>, s: SnapshotView) -> Seq<
    RecordView,
> {
    if in_filter(routes, s.ad) {
        l.map_values(|r: RecordView| if r.id == s.id { with_data(r, s) } else { r })
    } else {
        l
    }
}

/// The last snapshot of trade `id` in `snaps` that the filter lets through.
pub open spec fn latest(routes: Seq<RouteView>, snaps: Seq<SnapshotView>, id: Seq<char>) -> Option<
    SnapshotView,
>
    decreases snaps.len(),
{
    if snaps.len() == 0 {
        None
    } else if snaps.last().id == id && in_filter(routes, snaps.last().ad) {
        Some(snaps.last())
    } else {
        latest(routes, snaps.drop_last(), id)
    }
}

pub open spec fn latest_or(
    routes: Seq<RouteView>,
    snaps: Seq<SnapshotView>,
    r: RecordView,
) -> RecordView {
    match latest(routes, snaps, r.id) {
        Some(s) => with_data(r, s),
        None => r,
    }
}

/// A record freshly made for the snapshot `s`.
pub open spec fn is_new_record(r: RecordView, s: SnapshotView, routes: Seq<RouteView>) -> bool {
    &&& r.id == s.id
    &&& r.data == s
    &&& r.status == TradeStatus::AddressAssigned
    &&& !r.notified
    &&& route_of(routes, s.ad) == Some(r.coin)
}

/// The backend of asset `k` among `cs`.
pub open spec fn backend_of(cs: Seq<CoinView>, k: CoinKind) -> int {
    choose|c: int| 0 <= c < cs.len() && cs[c].kind == k
}

pub open spec fn has_backend(cs: Seq<CoinView>, k: CoinKind) -> bool {
    exists|c: int| 0 <= c < cs.len() && cs[c].kind == k
}

/// Ledger, backends and whether a record was made, after the snapshot `s`
/// was taken in: a trade outside the filter changes nothing; a tracked one
/// takes the new snapshot; an untracked one gets a record, at the address
/// right above its backend's mark, which moves up to it, exactly where the
/// backend can derive that address and no live trade holds it.
pub open spec fn observe_spec(
    l: Seq<RecordView>,
    cs: Seq<CoinView>,
    routes: Seq<RouteView>,
    s: SnapshotView,
) -> (Seq<RecordView>, Seq<CoinView>, bool) {
    match route_of(routes, s.ad) {
        None => (l, cs, false),
        Some(k) => if tracks(l, s.id) {
            (refreshed(l, routes, s), cs, false)
        } else if !has_backend(cs, k) {
            (l, cs, false)
        } else {
            let c = backend_of(cs, k);
            match next_of(cs[c]) {
                None => (l, cs, false),
                Some(a) => if address_used(l, a) {
                    (l, cs, false)
                } else {
                    let index = (cs[c].mark + 1) as u32;
                    (
                        l.push(fresh_record(s, k, index, a)),
                        cs.update(c, CoinView { mark: index, ..cs[c] }),
                        true,
                    )
                },
            }
        },
    }
}

/// Ledger, backends and the ids of the trades taken on, in listing order,
/// after the snapshots `snaps` were taken in one by one.
pub open spec fn fetch_spec(
    l: Seq<RecordView>,
    cs: Seq<CoinView>,
    routes: Seq<RouteView>,
    snaps: Seq<SnapshotView>,
) -> (Seq<RecordView>, Seq<CoinView>, Seq<Seq<char>>)
    decreases snaps.len(),
{
    if snaps.len() == 0 {
        (l, cs, Seq::empty())
    } else {
        let prev = fetch_spec(l, cs, routes, snaps.drop_last());
        let step = observe_spec(prev.0, prev.1, routes, snaps.last());
        (step.0, step.1, if step.2 { prev.2.push(snaps.last().id) } else { prev.2 })
    }
}

/// The record made for the snapshot `s`, of asset `kind`, at derivation
/// `index` and deposit `address`.
pub open spec fn fresh_record(s: SnapshotView, kind: CoinKind, index: u32, address: Seq<char>) -> RecordView {
    RecordView {
        id: s.id,
        data: s,
        address,
        index,
        coin: kind,
        notified: false,
        status: TradeStatus::AddressAssigned,
    }
}

proof fn lemma_route_member(routes: Seq<RouteView>, ad: Seq<char>)
    ensures
        route_of(routes, ad) matches Some(k) ==> exists|i: int|
            0 <= i < routes.len() && routes[i].coin == k,
    decreases routes.len(),
{
    if routes.len() > 0 && routes[0].id != ad {
        let rest = routes.skip(1);
        lemma_route_member(rest, ad);
        if route_of(routes, ad) is Some {
            let i = choose|i: int| 0 <= i < rest.len() && rest[i].coin == route_of(routes, ad)->Some_0;
            assert(routes[i + 1] == rest[i]);
        }
    } else if routes.len() > 0 {
        assert(routes[0].coin == routes[0].coin);
    }
}

pub open spec fn ids_of(v: Seq<String>) -> Seq<Seq<char>> {
    v.map_values(|s: String| s@)
}

/// What one pass over the listing `snaps` left: ledger `l0` became `l1`,
/// and `new_ids` are the trades it took on, in order.
pub open spec fn fetch_outcome(
    l0: Seq<RecordView>,
    routes: Seq<RouteView>,
    snaps: Seq<SnapshotView>,
    l1: Seq<RecordView>,
    new_ids: Seq<Seq<char>>,
) -> bool {
    &&& l1.len() == l0.len() + new_ids.len()
    &&& forall|i: int| 0 <= i < l0.len() ==> l1[i] == latest_or(routes, snaps, #[trigger] l0[i])
    &&& forall|j: int|
        0 <= j < new_ids.len() ==> {
            let r = #[trigger] l1[l0.len() + j];
            &&& r.id == new_ids[j]
            &&& r.status == TradeStatus::AddressAssigned
            &&& !r.notified
            &&& !tracks(l0, r.id)
            &&& in_filter(routes, r.data.ad)
            &&& latest(routes, snaps, r.id) == Some(r.data)
        }
}

pub open spec fn snapshot_views(v: Seq<TradeSnapshot>) -> Seq<SnapshotView> {
    v.map_values(|s: TradeSnapshot| s@)
}

proof fn lemma_latest_step(routes: Seq<RouteView>, snaps: Seq<SnapshotView>, n: int, id: Seq<char>)
    requires
        0 <= n < snaps.len(),
    ensures
        latest(routes, snaps.take(n + 1), id) == if snaps[n].id == id && in_filter(
            routes,
            snaps[n].ad,
        ) {
            Some(snaps[n])
        } else {
            latest(routes, snaps.take(n), id)
        },
{
    assert(snaps.take(n + 1).drop_last() =~= snaps.take(n));
}

/// The message that tells a counterparty where to pay; the deposit
/// address closes it.
pub const ADDRESS_NOTE: &'static str = "Hello! This is an automatic BOT.

- transfer BTC onchain to address at the bottom of this message
- transfer must be same amount as shown in this offer / trade
- this bot is in beta currently but don't worry, you are protected by arbitrage bond
- if bot won't finalize automatically, I'll handle it manually

";

/// A message to post in a trade's chat.
pub struct AddressMessage {
    pub trade_id: String,
    pub text: String,
}

/// A request to release the escrow of a trade.
pub struct ReleaseRequest {
    pub trade_id: String,
    pub password: String,
}

/// A deposit address to ask the chain oracle about.
pub struct MonitorTarget {
    pub trade_id: String,
    pub address: String,
    pub coin: CoinKind,
}

/// What the chain oracle said about a trade's deposit address; `None` where
/// it could not be asked or had no answer.
pub struct PaymentReport {
    pub trade_id: String,
    pub report: Option<ChainReport>,
}

pub struct ReportView {
    pub id: Seq<char>,
    pub report: Option<ChainReport>,
}

impl View for PaymentReport {
    type V = ReportView;

    open spec fn view(&self) -> ReportView {
        ReportView { id: self.trade_id@, report: self.report }
    }
}

pub open spec fn report_views(v: Seq<PaymentReport>) -> Seq<ReportView> {
    v.map_values(|p: PaymentReport| p@)
}

/// Ids of the trades whose counterparty has not been told the address yet.
pub open spec fn awaiting_ids(l: Seq<RecordView>) -> Seq<Seq<char>> {
    l.filter_map(
        |r: RecordView|
            if r.status == TradeStatus::AddressAssigned {
                Some(r.id)
            } else {
                None
            },
    )
}

/// Trade ids and deposit addresses of the trades to be checked for payment.
pub open spec fn monitored_targets(l: Seq<RecordView>) -> Seq<(Seq<char>, Seq<char>)> {
    l.filter_map(
        |r: RecordView|
            if is_monitored_status(r.status) {
                Some((r.id, r.address))
            } else {
                None
            },
    )
}

/// The ledger once the counterparty of trade `id` was (`delivered`) or was
/// not told the address.
pub open spec fn notified(l: Seq<RecordView>, id: Seq<char>, delivered: bool) -> Seq<RecordView> {
    if delivered {
        l.map_values(
            |r: RecordView|
                if r.id == id && r.status == TradeStatus::AddressAssigned {
                    RecordView { status: TradeStatus::Notified, notified: true, ..r }
                } else {
                    r
                },
        )
    } else {
        l
    }
}

/// Report `p` shows record `r` paid: the record's amount reads as a number
/// of smallest units, and the report meets the payment policy for it.
pub open spec fn report_pays(p: ReportView, r: RecordView) -> bool {
    &&& p.id == r.id
    &&& match (p.report, amount_of_text(r.data.amount)) {
        (Some(c), Some(e)) => is_paid(c, e),
        _ => false,
    }
}

/// Record `r` is monitored and some report of `ps` shows it paid.
pub open spec fn paid_by(r: RecordView, ps: Seq<ReportView>) -> bool {
    is_monitored_status(r.status) && exists|k: int| 0 <= k < ps.len() && report_pays(ps[k], r)
}

pub open spec fn verified(r: RecordView) -> RecordView {
    RecordView { status: TradeStatus::Verified, ..r }
}

/// The ledger after a monitor pass over the reports `ps`.
pub open spec fn monitored(l: Seq<RecordView>, ps: Seq<ReportView>) -> Seq<RecordView> {
    l.map_values(|r: RecordView| if paid_by(r, ps) { verified(r) } else { r })
}

/// The trades that a monitor pass over `ps` finds paid, in ledger order.
pub open spec fn paid_ids(l: Seq<RecordView>, ps: Seq<ReportView>) -> Seq<Seq<char>> {
    l.filter_map(|r: RecordView| if paid_by(r, ps) { Some(r.id) } else { None })
}

/// Trade `id` is verified, so a release of its escrow that went through
/// (`released`) settles it.
pub open spec fn settles(l: Seq<RecordView>, id: Seq<char>, released: bool) -> bool {
    released && exists|i: int| 0 <= i < l.len() && l[i].id == id && l[i].status == TradeStatus::Verified
}

pub open spec fn position_of(l: Seq<RecordView>, id: Seq<char>) -> int {
    choose|i: int| 0 <= i < l.len() && l[i].id == id
}

/// The ledger without trade `id`.
pub open spec fn without(l: Seq<RecordView>, id: Seq<char>) -> Seq<RecordView> {
    if tracks(l, id) {
        l.remove(position_of(l, id))
    } else {
        l
    }
}

/// The ledger after the release of trade `id`'s escrow was attempted.
pub open spec fn finalized(l: Seq<RecordView>, id: Seq<char>, released: bool) -> Seq<RecordView> {
    if settles(l, id, released) {
        without(l, id)
    } else {
        l
    }
}

proof fn lemma_awaiting(l: Seq<RecordView>, id: Seq<char>)
    ensures
        awaiting_ids(l).contains(id) <==> exists|i: int|
            0 <= i < l.len() && l[i].id == id && l[i].status == TradeStatus::AddressAssigned,
    decreases l.len(),
{
    if l.len() > 0 {
        let t = l.drop_last();
        lemma_awaiting(t, id);
        if awaiting_ids(l).contains(id) {
            if l.last().status == TradeStatus::AddressAssigned && l.last().id == id {
                assert(l[l.len() - 1].id == id);
            } else if l.last().status == TradeStatus::AddressAssigned {
                let k = choose|k: int| 0 <= k < awaiting_ids(l).len() && awaiting_ids(l)[k] == id;
                assert(awaiting_ids(l) == awaiting_ids(t) + seq![l.last().id]);
                assert(k < awaiting_ids(t).len());
                assert(awaiting_ids(t)[k] == id);
                let j = choose|j: int|
                    0 <= j < t.len() && t[j].id == id && t[j].status
                        == TradeStatus::AddressAssigned;
                assert(l[j] == t[j]);
            } else {
                let j = choose|j: int|
                    0 <= j < t.len() && t[j].id == id && t[j].status
                        == TradeStatus::AddressAssigned;
                assert(l[j] == t[j]);
            }
        }
        if exists|i: int|
            0 <= i < l.len() && l[i].id == id && l[i].status == TradeStatus::AddressAssigned {
            let i = choose|i: int|
                0 <= i < l.len() && l[i].id == id && l[i].status == TradeStatus::AddressAssigned;
            if i == l.len() - 1 {
                assert(awaiting_ids(l) == awaiting_ids(t) + seq![id]);
                assert(awaiting_ids(l)[awaiting_ids(t).len() as int] == id);
            } else {
                assert(t[i] == l[i]);
                assert(awaiting_ids(t).contains(id));
                let k = choose|k: int| 0 <= k < awaiting_ids(t).len() && awaiting_ids(t)[k] == id;
                if l.last().status == TradeStatus::AddressAssigned {
                    assert(awaiting_ids(l) == awaiting_ids(t) + seq![l.last().id]);
                    assert(awaiting_ids(l)[k] == id);
                }
            }
        }
    }
}

proof fn lemma_position(l: Seq<RecordView>, i: int)
    requires
        ledger_wf(l),
        0 <= i < l.len(),
    ensures
        position_of(l, l[i].id) == i,
{
    let k = position_of(l, l[i].id);
    assert(0 <= k < l.len() && l[k].id == l[i].id);
}

proof fn lemma_remove_wf(l: Seq<RecordView>, i: int)
    requires
        ledger_wf(l),
        0 <= i < l.len(),
    ensures
        ledger_wf(l.remove(i)),
        !tracks(l.remove(i), l[i].id),
        forall|k: int| 0 <= k < l.remove(i).len() ==> #[trigger] l.remove(i)[k] == if k < i {
            l[k]
        } else {
            l[k + 1]
        },
{
    let m = l.remove(i);
    assert forall|k: int| 0 <= k < m.len() implies #[trigger] m[k] == if k < i {
        l[k]
    } else {
        l[k + 1]
    } by {}
    assert forall|a: int, b: int| 0 <= a < m.len() && 0 <= b < m.len() && a != b implies m[a].id
        != m[b].id && m[a].address != m[b].address && (m[a].coin == m[b].coin ==> m[a].index
        != m[b].index) by {
        let a1 = if a < i { a } else { a + 1 };
        let b1 = if b < i { b } else { b + 1 };
        assert(m[a] == l[a1] && m[b] == l[b1]);
    }
    assert forall|k: int| 0 <= k < m.len() implies record_wf(#[trigger] m[k]) by {
        let k1 = if k < i { k } else { k + 1 };
        assert(m[k] == l[k1]);
    }
    if tracks(m, l[i].id) {
        let k = choose|k: int| 0 <= k < m.len() && m[k].id == l[i].id;
        let k1 = if k < i { k } else { k + 1 };
        assert(m[k] == l[k1]);
    }
}

/// The settlement engine: configured assets, the advertisement filter, and
/// the ledger of live trades.
pub struct Bot {
    pub coins: Vec<Coin>,
    pub trades: Vec<TradeRecord>,
    pub password: String,
    pub ads: Vec<AdRoute>,
}

impl Bot {
    pub open spec fn ledger(&self) -> Seq<RecordView> {
        view_records(self.trades@)
    }

    pub open spec fn routes(&self) -> Seq<RouteView> {
        self.ads@.map_values(|a: AdRoute| a@)
    }

    /// The assets of the configured backends, in registry order.
    pub open spec fn coin_views(&self) -> Seq<CoinView> {
        self.coins@.map_values(|c: Coin| c@)
    }

    pub open spec fn coin_kinds(&self) -> Seq<CoinKind> {
        self.coins@.map_values(|c: Coin| c.kind_spec())
    }

    /// Record `r` has a backend of its asset, whose high-water mark is at or
    /// above the record's derivation index.
    pub open spec fn backed(&self, r: RecordView) -> bool {
        exists|c: int|
            0 <= c < self.coins@.len() && self.coins@[c].kind_spec() == r.coin && r.index
                <= self.coins@[c].high_water()
    }

    /// At most one backend per asset.
    pub open spec fn kinds_unique(&self) -> bool {
        forall|a: int, b: int|
            0 <= a < self.coins@.len() && 0 <= b < self.coins@.len() && a != b
                ==> self.coins@[a].kind_spec() != self.coins@[b].kind_spec()
    }

    pub open spec fn wf(&self) -> bool {
        &&& ledger_wf(self.ledger())
        &&& self.kinds_unique()
        &&& forall|i: int| 0 <= i < self.ledger().len() ==> self.backed(#[trigger] self.ledger()[i])
        &&& forall|i: int|
            0 <= i < self.routes().len() ==> self.coin_kinds().contains(
                (#[trigger] self.routes()[i]).coin,
            )
    }

    /// Sets the engine up from `config`: one backend per asset that an
    /// advertisement names. Fails with `UnknownCoin` exactly where some
    /// advertisement names an asset without a backend.
    pub fn new(config: &Config) -> (r: Result<Bot, ConfigError>)
        ensures
            (r == Err::<Bot, ConfigError>(ConfigError::UnknownCoin)) <==> exists|i: int|
                0 <= i < config.ads@.len() && (#[trigger] tag_kind(config.ads@[i].coin@)) is None,
            r is Ok <==> (forall|i: int|
                0 <= i < config.ads@.len() ==> (#[trigger] tag_kind(config.ads@[i].coin@)) is Some)
                && (config.ads@.len() == 0 || wallet_opens(
                config.mpk@,
                config.testnet,
                config.address_index,
            )),
            r matches Ok(b) ==> {
                &&& b.wf()
                &&& b.ledger().len() == 0
                &&& (config.ads@.len() == 0 <==> b.coins@.len() == 0)
                &&& b.password@ == config.password@
                &&& b.routes().len() == config.ads@.len()
                &&& forall|i: int|
                    0 <= i < config.ads@.len() ==> b.routes()[i].id == config.ads@[i].id@
                        && Some(b.routes()[i].coin) == tag_kind(config.ads@[i].coin@)
                        && b.coin_kinds().contains(b.routes()[i].coin)
            },
    {
        let mut ads: Vec<AdRoute> = Vec::new();
        let mut i: usize = 0;
        while i < config.ads.len()
            invariant
                i <= config.ads@.len(),
                ads@.len() == i,
                forall|j: int|
                    0 <= j < i ==> ads@[j]@.id == config.ads@[j].id@ && Some(ads@[j].coin)
                        == tag_kind(config.ads@[j].coin@),
            decreases config.ads@.len() - i,
        {
            let kind = match coin_kind(&config.ads[i].coin) {
                Some(k) => k,
                None => {
                    return Err(ConfigError::UnknownCoin);
                },
            };
            ads.push(AdRoute { id: config.ads[i].id.clone(), coin: kind });
            i = i + 1;
        }
        assert forall|j: int| 0 <= j < config.ads@.len() implies (#[trigger] tag_kind(
            config.ads@[j].coin@,
        )) is Some by {
            assert(Some(ads@[j].coin) == tag_kind(config.ads@[j].coin@));
        }
        let mut coins: Vec<Coin> = Vec::new();
        if ads.len() > 0 {
            match Btc::new(
                config.mpk.clone(),
                config.address_index,
                Some(config.testnet),
                config.electrum.clone(),
            ) {
                Ok(b) => coins.push(Coin::Btc(b)),
                Err(e) => {
                    return Err(ConfigError::Coin(e));
                },
            }
        }
        let bot = Bot { coins, trades: Vec::new(), password: config.password.clone(), ads };
        proof {
            assert(bot.ledger() =~= Seq::<RecordView>::empty());
            if bot.ads@.len() > 0 {
                assert(bot.coin_kinds()[0] == CoinKind::Btc);
                assert forall|i: int| 0 <= i < bot.routes().len() implies bot.coin_kinds().contains(
                    #[trigger] bot.routes()[i].coin,
                ) by {
                    assert(bot.routes()[i].coin == CoinKind::Btc);
                }
            }
        }
        Ok(bot)
    }

    /// The asset of the first advertisement of the filter with id `ad`.
    pub fn route_for(&self, ad: &String) -> (r: Option<CoinKind>)
        ensures
            r == route_of(self.routes(), ad@),
    {
        let ghost routes = self.routes();
        assert(routes.skip(0) =~= routes);
        let mut i: usize = 0;
        while i < self.ads.len()
            invariant
                i <= self.ads@.len(),
                routes == self.routes(),
                route_of(routes, ad@) == route_of(routes.skip(i as int), ad@),
            decreases self.ads@.len() - i,
        {
            proof {
                assert(routes.skip(i as int)[0] == routes[i as int]);
                assert(routes.skip(i as int).skip(1) =~= routes.skip(i + 1));
            }
            if self.ads[i].id == *ad {
                return Some(self.ads[i].coin);
            }
            i = i + 1;
        }
        None
    }

    /// Position of the backend of asset `kind`.
    pub fn find_coin(&self, kind: CoinKind) -> (r: Option<usize>)
        ensures
            match r {
                Some(c) => c < self.coins@.len() && self.coins@[c as int].kind_spec() == kind,
                None => !self.coin_kinds().contains(kind),
            },
    {
        let mut c: usize = 0;
        while c < self.coins.len()
            invariant
                c <= self.coins@.len(),
                forall|j: int| 0 <= j < c ==> self.coin_kinds()[j] != kind,
            decreases self.coins@.len() - c,
        {
            if self.coins[c].kind() == kind {
                return Some(c);
            }
            c = c + 1;
        }
        None
    }

    /// Takes one snapshot of the listing in, as `observe_spec` says. A trade
    /// outside the filter is ignored and a tracked one takes the new
    /// snapshot; neither touches a wallet. An untracked one asks its asset's
    /// wallet for the address right above the high-water mark and, where it
    /// gets one that no live trade holds, gets a record in `AddressAssigned`
    /// (`record_new_trade`) while the mark moves up to it. Else nothing
    /// changes and the next cycle tries again. Returns whether a record was
    /// made.
    pub fn observe_trade(&mut self, snap: &TradeSnapshot) -> (created: bool)
        requires
            old(self).wf(),
        ensures
            final(self).wf(),
            final(self).ads == old(self).ads,
            final(self).password == old(self).password,
            final(self).coin_kinds() == old(self).coin_kinds(),
            (final(self).ledger(), final(self).coin_views(), created) == observe_spec(
                old(self).ledger(),
                old(self).coin_views(),
                old(self).routes(),
                snap@,
            ),
            !created ==> final(self).coins@ == old(self).coins@,
            created ==> {
                &&& in_filter(old(self).routes(), snap@.ad)
                &&& !tracks(old(self).ledger(), snap@.id)
                &&& final(self).ledger().len() == old(self).ledger().len() + 1
                &&& final(self).ledger().drop_last() == old(self).ledger()
                &&& is_new_record(final(self).ledger().last(), snap@, old(self).routes())
            },
            !created ==> final(self).ledger() == refreshed(
                old(self).ledger(),
                old(self).routes(),
                snap@,
            ),
    {
        let ghost l0 = self.ledger();
        let ghost routes = self.routes();
        let ghost cv0 = self.coin_views();
        let kind = match self.route_for(&snap.advertisement_id) {
            Some(k) => k,
            None => {
                return false;
            },
        };
        match find_trade(&self.trades, &snap.trade_id) {
            Some(i) => {
                let data = snap.copied();
                self.trades[i].data = data;
                proof {
                    assert(tracks(l0, snap@.id)) by {
                        assert(l0[i as int].id == snap@.id);
                    }
                    assert(self.ledger() =~= refreshed(l0, routes, snap@)) by {
                        assert forall|j: int| 0 <= j < l0.len() && j != i implies l0[j].id
                            != snap@.id by {
                            assert(l0[j].id != l0[i as int].id);
                        }
                    }
                    assert forall|a: int, b: int|
                        0 <= a < self.ledger().len() && 0 <= b < self.ledger().len() && a
                            != b implies self.ledger()[a].address != self.ledger()[b].address by {
                        assert(l0[a].address != l0[b].address);
                    }
                }
                return false;
            },
            None => {},
        }
        proof {
            assert(refreshed(l0, routes, snap@) =~= l0);
        }
        let c = match self.find_coin(kind) {
            Some(c) => c,
            None => {
                proof {
                    lemma_route_member(routes, snap@.ad);
                    let i = choose|i: int| 0 <= i < routes.len() && routes[i].coin == kind;
                    assert(self.coin_kinds().contains(self.routes()[i].coin));
                }
                return false;
            },
        };
        proof {
            assert(cv0[c as int].kind == kind);
            assert(has_backend(cv0, kind));
            let b = backend_of(cv0, kind);
            assert(self.coins@[b].kind_spec() == self.coins@[c as int].kind_spec());
        }
        let hw = self.coins[c].mark();
        if hw >= INDEX_LIMIT - 1 {
            return false;
        }
        let ghost coins0 = self.coins@;
        let got = self.coins[c].get_address(Some(hw + 1));
        proof {
            assert(self.coins@ =~= coins0);
        }
        let info = match got {
            Ok(info) => info,
            Err(_) => {
                return false;
            },
        };
        self.record_new_trade(snap, kind, info, c)
    }

    /// Takes in the untracked trade of `snap`, of asset `kind`, with the
    /// answer `info` of that asset's wallet (the backend at `backend`) to a
    /// request for the address right above its mark. A record in
    /// `AddressAssigned` is made, and the mark moves up to `info`, exactly
    /// where no live trade holds the address; else nothing changes.
    fn record_new_trade(
        &mut self,
        snap: &TradeSnapshot,
        kind: CoinKind,
        info: AddressInfo,
        backend: usize,
    ) -> (created: bool)
        requires
            old(self).wf(),
            route_of(old(self).routes(), snap@.ad) == Some(kind),
            !tracks(old(self).ledger(), snap@.id),
            backend < old(self).coins@.len(),
            old(self).coins@[backend as int].kind_spec() == kind,
            info.index == old(self).coins@[backend as int].high_water() + 1,
        ensures
            final(self).wf(),
            final(self).ads == old(self).ads,
            final(self).password == old(self).password,
            final(self).coin_kinds() == old(self).coin_kinds(),
            created == !address_used(old(self).ledger(), info.address@),
            created ==> final(self).ledger() == old(self).ledger().push(
                fresh_record(snap@, kind, info.index, info.address@),
            ) && final(self).coin_views() == old(self).coin_views().update(
                backend as int,
                CoinView { mark: info.index, ..old(self).coin_views()[backend as int] },
            ),
            !created ==> *final(self) == *old(self),
    {
        let ghost l0 = self.ledger();
        let ghost coins0 = self.coins@;
        let ghost kinds0 = self.coin_kinds();
        let ghost cv0 = self.coin_views();
        if address_in_use(&self.trades, &info.address) {
            return false;
        }
        let accepted = self.coins[backend].accept_new(info);
        let info = match accepted {
            Ok(info) => info,
            Err(_) => {
                return false;
            },
        };
        proof {
            assert(self.coins@ == coins0.update(backend as int, self.coins@[backend as int]));
            assert(self.coin_kinds() =~= kinds0);
            assert(self.coin_views() =~= cv0.update(
                backend as int,
                CoinView { mark: info.index, ..cv0[backend as int] },
            ));
            assert forall|k: int| 0 <= k < l0.len() && l0[k].coin == kind implies l0[k].index
                < info.index by {
                assert(old(self).backed(l0[k]));
                let c1 = choose|c1: int|
                    0 <= c1 < coins0.len() && coins0[c1].kind_spec() == l0[k].coin && l0[k].index
                        <= coins0[c1].high_water();
                assert(kinds0[c1] == kinds0[backend as int]);
            }
            assert forall|k: int| 0 <= k < l0.len() implies self.backed(#[trigger] l0[k]) by {
                assert(old(self).backed(l0[k]));
                let c1 = choose|c1: int|
                    0 <= c1 < coins0.len() && coins0[c1].kind_spec() == l0[k].coin && l0[k].index
                        <= coins0[c1].high_water();
                assert(self.coins@[c1].kind_spec() == l0[k].coin);
                assert(l0[k].index <= self.coins@[c1].high_water());
            }
            assert forall|i: int| 0 <= i < self.routes().len() implies self.coin_kinds().contains(
                (#[trigger] self.routes()[i]).coin,
            ) by {
                assert(old(self).coin_kinds().contains(old(self).routes()[i].coin));
            }
        }
        let record = TradeRecord {
            trade_id: snap.trade_id.clone(),
            data: snap.copied(),
            deposit_address: info.address,
            address_index: info.index,
            coin: kind,
            address_notified: false,
            status: TradeStatus::AddressAssigned,
        };
        self.trades.push(record);
        proof {
            let l1 = self.ledger();
            assert(l1 =~= l0.push(record@));
            assert(!address_used(l0, record@.address));
            assert(!tracks(l0, record@.id));
            assert forall|k: int| 0 <= k < l0.len() implies l0[k].address != record@.address
                && l0[k].id != record@.id by {
                if l0[k].address == record@.address {
                    assert(address_used(l0, record@.address));
                }
                if l0[k].id == record@.id {
                    assert(tracks(l0, record@.id));
                }
            }
            assert forall|k: int| 0 <= k < l1.len() implies crate::ledger::record_wf(
                #[trigger] l1[k],
            ) && self.backed(l1[k]) by {
                if k < l0.len() {
                    assert(l1[k] == l0[k]);
                } else {
                    assert(l1[k] == record@);
                    assert(self.coins@[backend as int].kind_spec() == record@.coin);
                }
            }
            assert forall|a: int, b: int|
                0 <= a < l1.len() && 0 <= b < l1.len() && a != b implies l1[a].id != l1[b].id
                && l1[a].address != l1[b].address && (l1[a].coin == l1[b].coin ==> l1[a].index
                != l1[b].index) by {
                if a < l0.len() && b < l0.len() {
                    assert(l1[a] == l0[a] && l1[b] == l0[b]);
                } else if a < l0.len() {
                    assert(l1[a] == l0[a]);
                } else {
                    assert(l1[b] == l0[b]);
                }
            }
        }
        true
    }

    /// One pass over the marketplace's open trades. Where the listing could
    /// not be had, nothing changes and no trade is new. Else each listed
    /// trade of the filter is taken in as `observe_trade` says, and the ids
    /// of the trades taken on are returned in listing order.
    pub fn fetch_trades(&mut self, listing: &Result<Vec<TradeSnapshot>, ListingError>) -> (r: Vec<
        String,
    >)
        requires
            old(self).wf(),
        ensures
            final(self).wf(),
            final(self).ads == old(self).ads,
            final(self).password == old(self).password,
            final(self).coin_kinds() == old(self).coin_kinds(),
            match listing {
                Err(_) => final(self).ledger() == old(self).ledger() && r@.len() == 0
                    && final(self).coins@ == old(self).coins@,
                Ok(snaps) => fetch_outcome(
                    old(self).ledger(),
                    old(self).routes(),
                    snapshot_views(snaps@),
                    final(self).ledger(),
                    ids_of(r@),
                ) && (final(self).ledger(), final(self).coin_views(), ids_of(r@)) == fetch_spec(
                    old(self).ledger(),
                    old(self).coin_views(),
                    old(self).routes(),
                    snapshot_views(snaps@),
                ),
            },
    {
        let mut created: Vec<String> = Vec::new();
        let snaps = match listing {
            Ok(s) => s,
            Err(_) => {
                return created;
            },
        };
        let ghost l0 = self.ledger();
        let ghost routes = self.routes();
        let ghost sv = snapshot_views(snaps@);
        let ghost cv0 = self.coin_views();
        let mut n: usize = 0;
        proof {
            assert(sv.take(0) =~= Seq::<SnapshotView>::empty());
            assert forall|i: int| 0 <= i < l0.len() implies l0[i] == latest_or(
                routes,
                sv.take(0),
                #[trigger] l0[i],
            ) by {}
        }
        while n < snaps.len()
            invariant
                n <= snaps@.len(),
                sv == snapshot_views(snaps@),
                routes == self.routes(),
                self.wf(),
                self.ads == old(self).ads,
                self.coin_kinds() == old(self).coin_kinds(),
                self.password == old(self).password,
                l0 == old(self).ledger(),
                routes == old(self).routes(),
                cv0 == old(self).coin_views(),
                (self.ledger(), self.coin_views(), ids_of(created@)) == fetch_spec(
                    l0,
                    cv0,
                    routes,
                    sv.take(n as int),
                ),
                fetch_outcome(l0, routes, sv.take(n as int), self.ledger(), ids_of(created@)),
            decreases snaps@.len() - n,
        {
            let ghost lp = self.ledger();
            let ghost ip = ids_of(created@);
            let made = self.observe_trade(&snaps[n]);
            if made {
                created.push(snaps[n].trade_id.clone());
            }
            proof {
                let s = sv[n as int];
                assert(s == snaps@[n as int]@);
                assert(sv.take(n + 1).drop_last() =~= sv.take(n as int));
                if made {
                    assert(ids_of(created@) =~= ids_of(created@).drop_last().push(s.id));
                }
                let l1 = self.ledger();
                let ids = ids_of(created@);
                let grown = sv.take(n + 1);
                if made {
                    assert(ids =~= ip.push(s.id));
                    assert forall|i: int| 0 <= i < l0.len() implies l1[i] == latest_or(
                        routes,
                        grown,
                        #[trigger] l0[i],
                    ) by {
                        lemma_latest_step(routes, sv, n as int, l0[i].id);
                        assert(l1[i] == lp[i]);
                        assert(lp[i].id == l0[i].id);
                        if l0[i].id == s.id {
                            assert(tracks(lp, s.id));
                        }
                    }
                    assert forall|j: int| 0 <= j < ids.len() implies {
                        let r = #[trigger] l1[l0.len() + j];
                        &&& r.id == ids[j]
                        &&& r.status == TradeStatus::AddressAssigned
                        &&& !r.notified
                        &&& !tracks(l0, r.id)
                        &&& in_filter(routes, r.data.ad)
                        &&& latest(routes, grown, r.id) == Some(r.data)
                    } by {
                        let r = l1[l0.len() + j];
                        lemma_latest_step(routes, sv, n as int, r.id);
                        if j < ip.len() {
                            assert(r == lp[l0.len() + j]);
                            if r.id == s.id {
                                assert(tracks(lp, s.id));
                            }
                        } else {
                            assert(r == l1.last());
                            if tracks(l0, r.id) {
                                let k = choose|k: int| 0 <= k < l0.len() && l0[k].id == r.id;
                                assert(lp[k].id == l0[k].id);
                                assert(tracks(lp, s.id));
                            }
                        }
                    }
                } else {
                    assert(ids == ip);
                    assert forall|i: int| 0 <= i < l0.len() implies l1[i] == latest_or(
                        routes,
                        grown,
                        #[trigger] l0[i],
                    ) by {
                        lemma_latest_step(routes, sv, n as int, l0[i].id);
                        assert(lp[i].id == l0[i].id);
                    }
                    assert forall|j: int| 0 <= j < ids.len() implies {
                        let r = #[trigger] l1[l0.len() + j];
                        &&& r.id == ids[j]
                        &&& r.status == TradeStatus::AddressAssigned
                        &&& !r.notified
                        &&& !tracks(l0, r.id)
                        &&& in_filter(routes, r.data.ad)
                        &&& latest(routes, grown, r.id) == Some(r.data)
                    } by {
                        let q = lp[l0.len() + j];
                        lemma_latest_step(routes, sv, n as int, q.id);
                    }
                }
            }
            n = n + 1;
        }
        proof {
            assert(sv.take(snaps@.len() as int) =~= sv);
        }
        created
    }

    /// Ids of the trades whose counterparty has not been told the deposit
    /// address yet, in ledger order: the trades to notify this cycle.
    pub fn pending_notifications(&self) -> (r: Vec<String>)
        ensures
            ids_of(r@) == awaiting_ids(self.ledger()),
    {
        let ghost l = self.ledger();
        let mut out: Vec<String> = Vec::new();
        let mut i: usize = 0;
        while i < self.trades.len()
            invariant
                i <= self.trades@.len(),
                l == self.ledger(),
                ids_of(out@) == awaiting_ids(l.take(i as int)),
            decreases self.trades@.len() - i,
        {
            proof {
                assert(l.take(i + 1).drop_last() =~= l.take(i as int));
            }
            if self.trades[i].status == TradeStatus::AddressAssigned {
                out.push(self.trades[i].trade_id.clone());
                proof {
                    assert(ids_of(out@) =~= awaiting_ids(l.take(i + 1)));
                }
            }
            i = i + 1;
        }
        proof {
            assert(l.take(i as int) =~= l);
        }
        out
    }

    /// The message that tells trade `trade_id`'s counterparty its deposit
    /// address, while the trade waits for it; else `None`.
    pub fn send_address(&self, trade_id: &String) -> (r: Option<AddressMessage>)
        requires
            self.wf(),
        ensures
            match r {
                Some(m) => m.trade_id@ == trade_id@ && exists|i: int|
                    0 <= i < self.ledger().len() && self.ledger()[i].id == trade_id@
                        && self.ledger()[i].status == TradeStatus::AddressAssigned && m.text@
                        == ADDRESS_NOTE@ + self.ledger()[i].address,
                None => !awaiting_ids(self.ledger()).contains(trade_id@) && forall|i: int|
                    0 <= i < self.ledger().len() && self.ledger()[i].id == trade_id@
                        ==> self.ledger()[i].status != TradeStatus::AddressAssigned,
            },
    {
        match find_trade(&self.trades, trade_id) {
            Some(i) => {
                if self.trades[i].status != TradeStatus::AddressAssigned {
                    proof {
                        let l = self.ledger();
                        assert(l[i as int].id == trade_id@);
                        lemma_awaiting(l, trade_id@);
                    }
                    return None;
                }
                let mut text = ADDRESS_NOTE.to_owned();
                text.append(self.trades[i].deposit_address.as_str());
                proof {
                    assert(self.ledger()[i as int].id == trade_id@);
                }
                Some(AddressMessage { trade_id: trade_id.clone(), text })
            },
            None => {
                proof {
                    lemma_awaiting(self.ledger(), trade_id@);
                }
                None
            },
        }
    }

    /// Records whether the address message of trade `trade_id` went out: if
    /// it did, a trade that waited for it is now `Notified`. Returns whether
    /// a record changed.
    pub fn address_sent(&mut self, trade_id: &String, delivered: bool) -> (r: bool)
        requires
            old(self).wf(),
        ensures
            final(self).wf(),
            final(self).ads == old(self).ads,
            final(self).password == old(self).password,
            final(self).coin_kinds() == old(self).coin_kinds(),
            final(self).ledger() == notified(old(self).ledger(), trade_id@, delivered),
            r == (delivered && awaiting_ids(old(self).ledger()).contains(trade_id@)),
    {
        let ghost l0 = self.ledger();
        if !delivered {
            return false;
        }
        match find_trade(&self.trades, trade_id) {
            Some(i) => {
                if self.trades[i].status != TradeStatus::AddressAssigned {
                    proof {
                        assert(l0[i as int].id == trade_id@);
                        lemma_awaiting(l0, trade_id@);
                        assert(notified(l0, trade_id@, true) =~= l0) by {
                            assert forall|j: int| 0 <= j < l0.len() && j != i implies l0[j].id
                                != trade_id@ by {
                                assert(l0[j].id != l0[i as int].id);
                            }
                        }
                    }
                    return false;
                }
                self.trades[i].status = TradeStatus::Notified;
                self.trades[i].address_notified = true;
                proof {
                    let l1 = self.ledger();
                    assert(l0[i as int].id == trade_id@);
                    lemma_awaiting(l0, trade_id@);
                    assert forall|j: int| 0 <= j < l0.len() && j != i implies l0[j].id
                        != trade_id@ by {
                        assert(l0[j].id != l0[i as int].id);
                    }
                    assert(l1 =~= notified(l0, trade_id@, true));
                    assert forall|a: int, b: int|
                        0 <= a < l1.len() && 0 <= b < l1.len() && a != b implies l1[a].id
                            != l1[b].id && l1[a].address != l1[b].address && (l1[a].coin
                            == l1[b].coin ==> l1[a].index != l1[b].index) by {
                        assert(l0[a].id != l0[b].id && l0[a].address != l0[b].address);
                    }
                    assert forall|k: int| 0 <= k < l1.len() implies record_wf(#[trigger] l1[k])
                        && self.backed(l1[k]) by {
                        assert(record_wf(l0[k]));
                        assert(old(self).backed(l0[k]));
                    }
                }
                true
            },
            None => {
                proof {
                    lemma_awaiting(l0, trade_id@);
                    assert(notified(l0, trade_id@, true) =~= l0);
                }
                false
            },
        }
    }

    /// The deposit addresses to ask the chain oracle about this cycle: those
    /// of the trades whose counterparty knows the address, in ledger order.
    pub fn monitor_targets(&self) -> (r: Vec<MonitorTarget>)
        ensures
            r@.map_values(|t: MonitorTarget| (t.trade_id@, t.address@)) == monitored_targets(
                self.ledger(),
            ),
    {
        let ghost l = self.ledger();
        let mut out: Vec<MonitorTarget> = Vec::new();
        let mut i: usize = 0;
        while i < self.trades.len()
            invariant
                i <= self.trades@.len(),
                l == self.ledger(),
                out@.map_values(|t: MonitorTarget| (t.trade_id@, t.address@)) == monitored_targets(
                    l.take(i as int),
                ),
            decreases self.trades@.len() - i,
        {
            proof {
                assert(l.take(i + 1).drop_last() =~= l.take(i as int));
            }
            let status = self.trades[i].status;
            if status == TradeStatus::Notified || status == TradeStatus::Verified {
                out.push(
                    MonitorTarget {
                        trade_id: self.trades[i].trade_id.clone(),
                        address: self.trades[i].deposit_address.clone(),
                        coin: self.trades[i].coin,
                    },
                );
                proof {
                    assert(out@.map_values(|t: MonitorTarget| (t.trade_id@, t.address@))
                        =~= monitored_targets(l.take(i + 1)));
                }
            } else {
                proof {
                    assert(out@.map_values(|t: MonitorTarget| (t.trade_id@, t.address@))
                        =~= monitored_targets(l.take(i + 1)));
                }
            }
            i = i + 1;
        }
        proof {
            assert(l.take(i as int) =~= l);
        }
        out
    }

    /// Whether some report of `reports` shows the trade at position `i`
    /// paid, by its asset's policy.
    fn record_paid(&self, i: usize, reports: &Vec<PaymentReport>) -> (r: bool)
        requires
            self.wf(),
            i < self.ledger().len(),
        ensures
            r == exists|k: int|
                0 <= k < reports@.len() && report_pays(
                    report_views(reports@)[k],
                    self.ledger()[i as int],
                ),
    {
        let ghost rec = self.ledger()[i as int];
        let ghost ps = report_views(reports@);
        let expected = match parse_amount(self.trades[i].data.amount.as_str()) {
            Some(e) => e,
            None => {
                return false;
            },
        };
        let c = match self.find_coin(self.trades[i].coin) {
            Some(c) => c,
            None => {
                proof {
                    let r = self.ledger()[i as int];
                    assert(self.backed(r));
                    let c0 = choose|c0: int|
                        0 <= c0 < self.coins@.len() && self.coins@[c0].kind_spec() == r.coin
                            && r.index <= self.coins@[c0].high_water();
                    assert(self.coin_kinds()[c0] == r.coin);
                }
                return false;
            },
        };
        let mut k: usize = 0;
        while k < reports.len()
            invariant
                k <= reports@.len(),
                ps == report_views(reports@),
                rec == self.ledger()[i as int],
                i < self.ledger().len(),
                c < self.coins@.len(),
                amount_of_text(rec.data.amount) == Some(expected),
                forall|j: int| 0 <= j < k ==> !report_pays(#[trigger] ps[j], rec),
            decreases reports@.len() - k,
        {
            assert(ps[k as int] == reports@[k as int]@);
            if reports[k].trade_id == self.trades[i].trade_id {
                match &reports[k].report {
                    Some(chain) => {
                        match self.coins[c].assert_eq(chain, expected) {
                            Ok(true) => {
                                return true;
                            },
                            _ => {},
                        }
                    },
                    None => {},
                }
            }
            k = k + 1;
        }
        false
    }

    /// One monitor pass: every trade whose counterparty knows the address
    /// and that some report shows paid becomes `Verified`, and its id is
    /// returned (in ledger order) for release. Nothing else changes.
    pub fn monitor_trade_status(&mut self, reports: &Vec<PaymentReport>) -> (r: Vec<String>)
        requires
            old(self).wf(),
        ensures
            final(self).wf(),
            final(self).ads == old(self).ads,
            final(self).password == old(self).password,
            final(self).coin_kinds() == old(self).coin_kinds(),
            final(self).ledger() == monitored(old(self).ledger(), report_views(reports@)),
            ids_of(r@) == paid_ids(old(self).ledger(), report_views(reports@)),
    {
        let ghost l0 = self.ledger();
        let ghost ps = report_views(reports@);
        let mut out: Vec<String> = Vec::new();
        let mut i: usize = 0;
        while i < self.trades.len()
            invariant
                i <= self.trades@.len(),
                self.ledger().len() == l0.len(),
                self.wf(),
                self.ads == old(self).ads,
                self.password == old(self).password,
                self.coin_kinds() == old(self).coin_kinds(),
                l0 == old(self).ledger(),
                ps == report_views(reports@),
                forall|j: int| 0 <= j < i ==> self.ledger()[j] == #[trigger] monitored(l0, ps)[j],
                forall|j: int| i <= j < l0.len() ==> self.ledger()[j] == l0[j],
                ids_of(out@) == paid_ids(l0.take(i as int), ps),
            decreases self.trades@.len() - i,
        {
            proof {
                assert(l0.take(i + 1).drop_last() =~= l0.take(i as int));
            }
            let status = self.trades[i].status;
            let watch = status == TradeStatus::Notified || status == TradeStatus::Verified;
            if watch && self.record_paid(i, reports) {
                let ghost lp = self.ledger();
                self.trades[i].status = TradeStatus::Verified;
                out.push(self.trades[i].trade_id.clone());
                proof {
                    let l1 = self.ledger();
                    assert(l1 =~= lp.update(i as int, verified(lp[i as int])));
                    assert(ids_of(out@) =~= paid_ids(l0.take(i + 1), ps));
                    assert forall|a: int, b: int|
                        0 <= a < l1.len() && 0 <= b < l1.len() && a != b implies l1[a].id
                            != l1[b].id && l1[a].address != l1[b].address && (l1[a].coin
                            == l1[b].coin ==> l1[a].index != l1[b].index) by {
                        assert(lp[a].id != lp[b].id && lp[a].address != lp[b].address);
                    }
                    assert forall|k: int| 0 <= k < l1.len() implies record_wf(#[trigger] l1[k])
                        && self.backed(l1[k]) by {
                        assert(record_wf(lp[k]));
                        assert(self.backed(lp[k]));
                    }
                }
            } else {
                proof {
                    assert(ids_of(out@) =~= paid_ids(l0.take(i + 1), ps));
                }
            }
            i = i + 1;
        }
        proof {
            assert(l0.take(i as int) =~= l0);
            assert(self.ledger() =~= monitored(l0, ps));
        }
        out
    }

    /// The release of trade `trade_id`'s escrow, while the trade is
    /// `Verified`; else `None`.
    pub fn release_request(&self, trade_id: &String) -> (r: Option<ReleaseRequest>)
        requires
            self.wf(),
        ensures
            match r {
                Some(q) => q.trade_id@ == trade_id@ && q.password == self.password && settles(
                    self.ledger(),
                    trade_id@,
                    true,
                ),
                None => !settles(self.ledger(), trade_id@, true),
            },
    {
        match find_trade(&self.trades, trade_id) {
            Some(i) => {
                proof {
                    let l = self.ledger();
                    assert(l[i as int].id == trade_id@);
                    assert forall|j: int| 0 <= j < l.len() && l[j].id == trade_id@ implies j
                        == i by {
                        if j != i {
                            assert(l[j].id != l[i as int].id);
                        }
                    }
                }
                if self.trades[i].status == TradeStatus::Verified {
                    Some(ReleaseRequest { trade_id: trade_id.clone(), password: self.password.clone() })
                } else {
                    None
                }
            },
            None => None,
        }
    }

    /// Records the outcome of a release of trade `trade_id`'s escrow. Where
    /// it went through (`released`) and the trade is `Verified`, the trade is
    /// finalized and leaves the ledger; else nothing changes and the release
    /// is tried again on a later cycle. Returns whether the trade left.
    pub fn finalize_trade(&mut self, trade_id: &String, released: bool) -> (r: bool)
        requires
            old(self).wf(),
        ensures
            final(self).wf(),
            final(self).ads == old(self).ads,
            final(self).password == old(self).password,
            final(self).coin_kinds() == old(self).coin_kinds(),
            r == settles(old(self).ledger(), trade_id@, released),
            final(self).ledger() == finalized(old(self).ledger(), trade_id@, released),
    {
        let ghost l0 = self.ledger();
        if !released {
            return false;
        }
        match find_trade(&self.trades, trade_id) {
            Some(i) => {
                proof {
                    assert(l0[i as int].id == trade_id@);
                    assert forall|j: int| 0 <= j < l0.len() && l0[j].id == trade_id@ implies j
                        == i by {
                        if j != i {
                            assert(l0[j].id != l0[i as int].id);
                        }
                    }
                }
                if self.trades[i].status != TradeStatus::Verified {
                    return false;
                }
                self.remove_at(i);
                true
            },
            None => false,
        }
    }

    /// Drops trade `key` from the ledger, whatever its state (an operator's
    /// cleanup of a trade that will not settle).
    pub fn remove_trade(&mut self, key: &String)
        requires
            old(self).wf(),
        ensures
            final(self).wf(),
            final(self).ads == old(self).ads,
            final(self).password == old(self).password,
            final(self).coin_kinds() == old(self).coin_kinds(),
            final(self).ledger() == without(old(self).ledger(), key@),
    {
        match find_trade(&self.trades, key) {
            Some(i) => {
                proof {
                    assert(self.ledger()[i as int].id == key@);
                }
                self.remove_at(i);
            },
            None => {},
        }
    }

    fn remove_at(&mut self, i: usize)
        requires
            old(self).wf(),
            i < old(self).ledger().len(),
        ensures
            final(self).wf(),
            final(self).ads == old(self).ads,
            final(self).password == old(self).password,
            final(self).coin_kinds() == old(self).coin_kinds(),
            final(self).ledger() == without(old(self).ledger(), old(self).ledger()[i as int].id),
    {
        let ghost l0 = self.ledger();
        self.trades.remove(i);
        proof {
            lemma_position(l0, i as int);
            lemma_remove_wf(l0, i as int);
            assert(tracks(l0, l0[i as int].id));
            let l1 = self.ledger();
            assert(l1 =~= l0.remove(i as int));
            assert forall|k: int| 0 <= k < l1.len() implies self.backed(#[trigger] l1[k]) by {
                let k1 = if k < i { k } else { k + 1 };
                assert(l1[k] == l0[k1]);
                assert(old(self).backed(l0[k1]));
            }
        }
    }
}

} // verus!
