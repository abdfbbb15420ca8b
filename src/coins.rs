//! The registry of asset backends: one variant per supported asset.
use vstd::prelude::*;
use crate::btc::{receive_address, AddressInfo, CoinError, INDEX_LIMIT};
pub use crate::btc::Btc;
use crate::ledger::CoinKind;
use crate::policy::{balance_outcome, payment_outcome, BalanceError, ChainReport};

verus! {

/// A configured asset backend.
pub enum Coin {
    Btc(Btc),
}

/// The asset that a configuration tag names: "btc" is bitcoin.
pub open spec fn tag_kind(tag: Seq<char>) -> Option<CoinKind> {
    if tag == seq!['b', 't', 'c'] {
        Some(CoinKind::Btc)
    } else {
        None
    }
}

/// The asset that the configuration tag `tag` names, if any.
pub fn coin_kind(tag: &String) -> (r: Option<CoinKind>)
    ensures
        r == tag_kind(tag@),
{
    let btc: String = "btc".to_owned();
    proof {
        reveal_strlit("btc");
        assert("btc"@ =~= seq!['b', 't', 'c']);
    }
    if *tag == btc {
        Some(CoinKind::Btc)
    } else {
        None
    }
}

/// What the engine sees of a backend: its asset, its high-water mark, and
/// the key and network its addresses derive from.
pub struct CoinView {
    pub kind: CoinKind,
    pub mark: u32,
    pub key: Seq<char>,
    pub testnet: bool,
}

/// The address that a backend in state `c` answers a request for a new one
/// with: the one right above its mark, where the mark leaves room.
pub open spec fn next_of(c: CoinView) -> Option<Seq<char>> {
    if c.mark < INDEX_LIMIT - 1 {
        receive_address(c.key, c.testnet, (c.mark + 1) as u32)
    } else {
        None
    }
}

impl View for Coin {
    type V = CoinView;

    open spec fn view(&self) -> CoinView {
        match self {
            Coin::Btc(b) => CoinView {
                kind: CoinKind::Btc,
                mark: b.mark(),
                key: b.key(),
                testnet: b.on_testnet(),
            },
        }
    }
}

impl Coin {
    pub open spec fn kind_spec(&self) -> CoinKind {
        match self {
            Coin::Btc(_) => CoinKind::Btc,
        }
    }

    pub fn kind(&self) -> (r: CoinKind)
        ensures
            r == self.kind_spec(),
    {
        match self {
            Coin::Btc(_) => CoinKind::Btc,
        }
    }

    /// The backend's high-water mark of derivation indices.
    pub open spec fn high_water(&self) -> u32 {
        self@.mark
    }

    pub fn mark(&self) -> (r: u32)
        ensures
            r == self.high_water(),
    {
        match self {
            Coin::Btc(b) => b.address_index(),
        }
    }

    /// An address from the backend's wallet, as `Btc::get_address` gives it:
    /// with `None` or `Some(0)` the one right above the high-water mark,
    /// which moves up to it; with `Some(i)` the one at index `i`, and nothing
    /// changes.
    pub fn get_address(&mut self, index: Option<u32>) -> (r: Result<AddressInfo, CoinError>)
        ensures
            final(self).kind_spec() == old(self).kind_spec(),
            match index {
                Some(i) if i != 0 => *final(self) == *old(self) && if i >= INDEX_LIMIT {
                    r == Err::<AddressInfo, CoinError>(CoinError::IndexExhausted)
                } else {
                    match r {
                        Ok(info) => info.index == i && receive_address(
                            old(self)@.key,
                            old(self)@.testnet,
                            i,
                        ) == Some(info.address@),
                        Err(e) => e == CoinError::Wallet && receive_address(
                            old(self)@.key,
                            old(self)@.testnet,
                            i,
                        ) is None,
                    }
                },
                _ => if old(self)@.mark >= INDEX_LIMIT - 1 {
                    r == Err::<AddressInfo, CoinError>(CoinError::IndexExhausted) && *final(self)
                        == *old(self)
                } else {
                    match r {
                        Ok(info) => info.index == old(self)@.mark + 1
                            && next_of(old(self)@) == Some(info.address@)
                            && final(self)@ == (CoinView { mark: info.index, ..old(self)@ }),
                        Err(e) => e == CoinError::Wallet && next_of(old(self)@) is None
                            && *final(self) == *old(self),
                    }
                },
            },
    {
        match self {
            Coin::Btc(b) => b.get_address(index),
        }
    }

    /// Takes the wallet's answer to a request for a new address, as
    /// `Btc::accept_new` does.
    pub fn accept_new(&mut self, info: AddressInfo) -> (r: Result<AddressInfo, CoinError>)
        ensures
            r is Ok <==> info.index > old(self)@.mark,
            r matches Ok(i) ==> i == info && final(self)@ == (CoinView {
                mark: info.index,
                ..old(self)@
            }),
            r matches Err(e) ==> e == CoinError::IndexExhausted && *final(self) == *old(self),
    {
        match self {
            Coin::Btc(b) => b.accept_new(info),
        }
    }

    /// The balance that `report` shows and that counts toward a payment, or
    /// why it does not count.
    pub fn get_balance(&self, report: &ChainReport) -> (r: Result<u64, BalanceError>)
        ensures
            r == balance_outcome(*report),
    {
        match self {
            Coin::Btc(b) => b.get_balance(report),
        }
    }

    /// Whether `report` shows at least `expect` smallest units that count;
    /// why the balance does not count where it does not.
    pub fn assert_eq(&self, report: &ChainReport, expect: u64) -> (r: Result<bool, BalanceError>)
        ensures
            r == payment_outcome(*report, expect),
    {
        match self {
            Coin::Btc(b) => b.assert_eq(report, expect),
        }
    }
}

} // verus!
