//! Trade records and the ledger of live trades.
use vstd::prelude::*;
use crate::amount::parsed_units;
use vstd::utf8::encode_utf8;

verus! {

/// The part of a marketplace trade that the engine reads, as of the latest
/// listing that showed it.
pub struct TradeSnapshot {
    pub trade_id: String,
    pub advertisement_id: String,
    /// The amount owed, as decimal text in whole coins ("0.0005").
    pub amount: String,
}

pub struct SnapshotView {
    pub id: Seq<char>,
    pub ad: Seq<char>,
    pub amount: Seq<char>,
}

impl View for TradeSnapshot {
    type V = SnapshotView;

    open spec fn view(&self) -> SnapshotView {
        SnapshotView { id: self.trade_id@, ad: self.advertisement_id@, amount: self.amount@ }
    }
}

impl TradeSnapshot {
    /// A copy with the same text in every field.
    pub fn copied(&self) -> (r: TradeSnapshot)
        ensures
            r@ == self@,
    {
        TradeSnapshot {
            trade_id: self.trade_id.clone(),
            advertisement_id: self.advertisement_id.clone(),
            amount: self.amount.clone(),
        }
    }
}

/// The amount that decimal text states, in smallest units.
pub open spec fn amount_of_text(t: Seq<char>) -> Option<u64> {
    parsed_units(encode_utf8(t))
}

/// Where a trade stands. A live record is `AddressAssigned`, `Notified` or
/// `Verified`; it only moves forward.
#[derive(Debug, Clone, Copy, PartialEq, Eq, Structural)]
pub enum TradeStatus {
    Discovered,
    AddressAssigned,
    Notified,
    Verified,
    Finalized,
    Failed,
}

/// The assets that a trade can be paid in.
#[derive(Debug, Clone, Copy, PartialEq, Eq, Structural)]
pub enum CoinKind {
    Btc,
}

/// One trade that the engine tracks.
pub struct TradeRecord {
    pub trade_id: String,
    pub data: TradeSnapshot,
    pub deposit_address: String,
    /// Derivation index of the deposit address.
    pub address_index: u32,
    pub coin: CoinKind,
    /// Whether the counterparty has been told the deposit address.
    pub address_notified: bool,
    pub status: TradeStatus,
}

pub struct RecordView {
    pub id: Seq<char>,
    pub data: SnapshotView,
    pub address: Seq<char>,
    pub index: u32,
    pub coin: CoinKind,
    pub notified: bool,
    pub status: TradeStatus,
}

impl View for TradeRecord {
    type V = RecordView;

    open spec fn view(&self) -> RecordView {
        RecordView {
            id: self.trade_id@,
            data: self.data@,
            address: self.deposit_address@,
            index: self.address_index,
            coin: self.coin,
            notified: self.address_notified,
            status: self.status,
        }
    }
}

pub open spec fn is_live_status(s: TradeStatus) -> bool {
    s == TradeStatus::AddressAssigned || s == TradeStatus::Notified || s == TradeStatus::Verified
}

/// Monitored for payment: the counterparty knows the address.
pub open spec fn is_monitored_status(s: TradeStatus) -> bool {
    s == TradeStatus::Notified || s == TradeStatus::Verified
}

pub open spec fn record_wf(r: RecordView) -> bool {
    &&& r.data.id == r.id
    &&& is_live_status(r.status)
    &&& r.notified == (r.status != TradeStatus::AddressAssigned)
}

/// No two records share a trade id.
pub open spec fn ids_distinct(l: Seq<RecordView>) -> bool {
    forall|i: int, j: int| 0 <= i < l.len() && 0 <= j < l.len() && i != j ==> l[i].id != l[j].id
}

/// No two records share a deposit address.
pub open spec fn addresses_distinct(l: Seq<RecordView>) -> bool {
    forall|i: int, j: int|
        0 <= i < l.len() && 0 <= j < l.len() && i != j ==> l[i].address != l[j].address
}

/// No two records of one asset share a derivation index.
pub open spec fn indices_distinct(l: Seq<RecordView>) -> bool {
    forall|i: int, j: int|
        0 <= i < l.len() && 0 <= j < l.len() && i != j && l[i].coin == l[j].coin ==> l[i].index
            != l[j].index
}

pub open spec fn ledger_wf(l: Seq<RecordView>) -> bool {
    &&& ids_distinct(l)
    &&& addresses_distinct(l)
    &&& indices_distinct(l)
    &&& forall|i: int| 0 <= i < l.len() ==> record_wf(#[trigger] l[i])
}

pub open spec fn tracks(l: Seq<RecordView>, id: Seq<char>) -> bool {
    exists|i: int| 0 <= i < l.len() && l[i].id == id
}

pub open spec fn address_used(l: Seq<RecordView>, address: Seq<char>) -> bool {
    exists|i: int| 0 <= i < l.len() && l[i].address == address
}

pub open spec fn view_records(v: Seq<TradeRecord>) -> Seq<RecordView> {
    v.map_values(|r: TradeRecord| r@)
}

/// Position of the record with trade id `id`.
pub fn find_trade(trades: &Vec<TradeRecord>, id: &String) -> (r: Option<usize>)
    ensures
        match r {
            Some(i) => i < trades@.len() && trades@[i as int].trade_id@ == id@,
            None => !tracks(view_records(trades@), id@),
        },
{
    let mut i: usize = 0;
    while i < trades.len()
        invariant
            i <= trades@.len(),
            forall|j: int| 0 <= j < i ==> trades@[j].trade_id@ != id@,
        decreases trades@.len() - i,
    {
        if trades[i].trade_id == *id {
            return Some(i);
        }
        i = i + 1;
    }
    proof {
        let l = view_records(trades@);
        assert forall|j: int| 0 <= j < l.len() implies l[j].id != id@ by {
            assert(l[j] == trades@[j]@);
        }
    }
    None
}

/// Whether some record holds `address` as its deposit address.
pub fn address_in_use(trades: &Vec<TradeRecord>, address: &String) -> (r: bool)
    ensures
        r == address_used(view_records(trades@), address@),
{
    let ghost l = view_records(trades@);
    let mut i: usize = 0;
    while i < trades.len()
        invariant
            i <= trades@.len(),
            l == view_records(trades@),
            forall|j: int| 0 <= j < i ==> l[j].address != address@,
        decreases trades@.len() - i,
    {
        if trades[i].deposit_address == *address {
            assert(l[i as int].address == address@);
            return true;
        }
        i = i + 1;
    }
    false
}

} // verus!
