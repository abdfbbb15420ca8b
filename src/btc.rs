//! The bitcoin backend: a watch-only BIP84 wallet that hands out deposit
//! addresses, and the reading of what the chain oracle reports for them.
use vstd::prelude::*;
use crate::policy::{balance_outcome, counted_balance, payment_outcome, BalanceError, ChainReport};
use bdk::bitcoin::util::base58;
use bdk::bitcoin::util::bip32::ExtendedPubKey;
use bdk::database::memory::MemoryDatabase;
use bdk::template::Bip84Public;
use bdk::wallet::AddressIndex;
use bdk::Wallet;
use slip132::FromSlip132;
use std::str::FromStr;

verus! {

#[verifier::external_type_specification]
#[verifier::external_body]
#[verifier::reject_recursive_types(D)]
pub struct ExWallet<D>(Wallet<D>);

#[verifier::external_type_specification]
#[verifier::external_body]
pub struct ExMemoryDatabase(MemoryDatabase);

/// Derivation indices must stay below this bound (non-hardened BIP32 child
/// numbers).
pub const INDEX_LIMIT: u32 = 0x8000_0000;

/// Failures of the wallet and of address handling.
#[derive(Debug, Clone, Copy, PartialEq, Eq, Structural)]
pub enum CoinError {
    /// The master public key is no SLIP-132 extended public key.
    InvalidKey,
    /// The wallet refused to build or to derive an address.
    Wallet,
    /// The derivation index would reach the BIP32 bound, or the wallet's
    /// answer lies at or below the high-water mark.
    IndexExhausted,
    /// The address text is no address of the wallet's network.
    InvalidAddress,
}

/// An address derived from the wallet, with its derivation index.
pub struct AddressInfo {
    pub index: u32,
    pub address: String,
}

/// The payload of base58check text, checksum removed; `None` where the text
/// is no base58check or its checksum fails.
pub uninterp spec fn base58check_decoded(s: Seq<char>) -> Option<Seq<u8>>;

/// Relies on bitcoin's `base58::from_check`: the decoded payload without its
/// four checksum bytes.
#[verifier::external_body]
fn base58check_payload(s: &str) -> (r: Option<Vec<u8>>)
    ensures
        match r {
            Some(v) => base58check_decoded(s@) == Some(v@),
            None => base58check_decoded(s@) is None,
        },
{
    base58::from_check(s).ok()
}

/// `mpk` reads as an extended public key in one of the SLIP-132 encodings.
pub uninterp spec fn slip132_key_valid(mpk: Seq<char>) -> bool;

/// The BIP84 watch-only wallet of the key `mpk` opens on the main network
/// (`testnet` false) or the test network.
pub uninterp spec fn bip84_wallet_opens(mpk: Seq<char>, testnet: bool) -> bool;

/// The key text is base58check with a payload of at least four bytes.
pub open spec fn has_key_payload(mpk: Seq<char>) -> bool {
    base58check_decoded(mpk) matches Some(p) && p.len() >= 4
}

/// The key text has a payload of at least four bytes and reads as a
/// SLIP-132 extended public key.
pub open spec fn key_ok(mpk: Seq<char>) -> bool {
    has_key_payload(mpk) && slip132_key_valid(mpk)
}

/// `Btc::new` succeeds on these arguments.
pub open spec fn wallet_opens(mpk: Seq<char>, testnet: bool, index: u32) -> bool {
    key_ok(mpk) && bip84_wallet_opens(mpk, testnet) && index < INDEX_LIMIT
}

/// Relies on slip132's `FromSlip132::from_slip132_str` for `ExtendedPubKey`
/// (it reads the key) and on bdk's `Wallet::new` (a watch-only wallet over
/// the BIP84 templates of that key, receiving and change, kept in memory).
/// slip132 slices the first four payload bytes, hence the requirement.
#[verifier::external_body]
fn open_bip84_wallet(mpk: &str, testnet: bool) -> (r: Result<
    Wallet<MemoryDatabase>,
    CoinError,
>)
    requires
        has_key_payload(mpk@),
    ensures
        match r {
            Ok(_) => slip132_key_valid(mpk@) && bip84_wallet_opens(mpk@, testnet),
            Err(e) => (e == CoinError::InvalidKey && !slip132_key_valid(mpk@)) || (e
                == CoinError::Wallet && slip132_key_valid(mpk@) && !bip84_wallet_opens(
                mpk@,
                testnet,
            )),
        },
{
    let xpub = ExtendedPubKey::from_slip132_str(mpk).map_err(|_| CoinError::InvalidKey)?;
    let network = if testnet { bdk::bitcoin::Network::Testnet } else { bdk::bitcoin::Network::Bitcoin };
    let fingerprint = xpub.parent_fingerprint;
    Wallet::new(
        Bip84Public(xpub, fingerprint, bdk::KeychainKind::External),
        Some(Bip84Public(xpub, fingerprint, bdk::KeychainKind::Internal)),
        network,
        MemoryDatabase::default(),
    ).map_err(|_| CoinError::Wallet)
}

/// The receiving address at derivation `index` of the BIP84 watch-only
/// wallet of the key `mpk` on the main network (`testnet` false) or the test
/// network; `None` where the wallet cannot derive one there.
pub uninterp spec fn receive_address(mpk: Seq<char>, testnet: bool, index: u32) -> Option<Seq<char>>;

/// Relies on bdk's `Wallet::get_address` with `AddressIndex::Peek`: derives
/// the receiving address at `index` of `btc`'s wallet, which `Btc::new` built
/// from `btc`'s key and network, reports `index` back and leaves the wallet
/// as it was. Derivation panics from 2^31 on, hence the requirement.
#[verifier::external_body]
fn peek_receive_address(btc: &Btc, index: u32) -> (r: Result<AddressInfo, CoinError>)
    requires
        index < INDEX_LIMIT,
    ensures
        match r {
            Ok(info) => info.index == index && receive_address(btc.mpk@, btc.testnet, index) == Some(
                info.address@,
            ),
            Err(e) => e == CoinError::Wallet && receive_address(btc.mpk@, btc.testnet, index) is None,
        },
{
    btc.wallet.get_address(AddressIndex::Peek(index)).map(
        |info| AddressInfo { index: info.index, address: info.address.to_string() },
    ).map_err(|_| CoinError::Wallet)
}

/// The output script (`script_pubkey`) that pays `address`, where it is an
/// address of the main network (`testnet` false) or of the test network.
pub uninterp spec fn output_script(address: Seq<char>, testnet: bool) -> Option<Seq<u8>>;

/// Relies on bitcoin's `Address::from_str`, `Address::require_network` and
/// `Address::script_pubkey`: the output script that pays the address.
#[verifier::external_body]
fn script_pubkey_of(address: &str, testnet: bool) -> (r: Option<Vec<u8>>)
    ensures
        match r {
            Some(v) => output_script(address@, testnet) == Some(v@),
            None => output_script(address@, testnet) is None,
        },
{
    let network = if testnet { bitcoin::Network::Testnet } else { bitcoin::Network::Bitcoin };
    bitcoin::Address::from_str(address).ok().and_then(|a| a.require_network(network).ok()).map(
        |a| a.script_pubkey().into_bytes(),
    )
}

/// A watch-only bitcoin wallet and the chain oracle it is checked against.
/// Only `Btc::new` builds one, so the wallet always belongs to the key and
/// network held beside it.
pub struct Btc {
    wallet: Wallet<MemoryDatabase>,
    /// Address of the chain oracle (an Electrum server).
    electrum: String,
    /// The SLIP-132 master public key the wallet derives from.
    mpk: String,
    /// Whether the wallet is on the test network.
    testnet: bool,
    /// High-water mark: the highest receiving index that may have been
    /// handed out. Every new address has a higher index.
    address_index: u32,
}

impl Btc {
    /// The high-water mark of derivation indices.
    pub closed spec fn mark(&self) -> u32 {
        self.address_index
    }

    /// The SLIP-132 key the wallet derives from.
    pub closed spec fn key(&self) -> Seq<char> {
        self.mpk@
    }

    pub closed spec fn on_testnet(&self) -> bool {
        self.testnet
    }

    /// Address of the chain oracle.
    pub closed spec fn server(&self) -> Seq<char> {
        self.electrum@
    }

    /// The address that a request for a new one is answered with: the one
    /// right above the high-water mark, where the mark leaves room for it.
    pub open spec fn next_address(&self) -> Option<Seq<char>> {
        if self.mark() < INDEX_LIMIT - 1 {
            receive_address(self.key(), self.on_testnet(), (self.mark() + 1) as u32)
        } else {
            None
        }
    }

    /// `self` and `other` are one wallet, whatever their marks.
    pub open spec fn same_wallet(&self, other: &Btc) -> bool {
        &&& self.key() == other.key()
        &&& self.on_testnet() == other.on_testnet()
        &&& self.server() == other.server()
    }

    pub fn address_index(&self) -> (r: u32)
        ensures
            r == self.mark(),
    {
        self.address_index
    }

    pub fn electrum(&self) -> (r: &String)
        ensures
            r@ == self.server(),
    {
        &self.electrum
    }

    pub fn testnet(&self) -> (r: bool)
        ensures
            r == self.on_testnet(),
    {
        self.testnet
    }

    /// Opens the watch-only wallet of the SLIP-132 key `mpk`, with `index`
    /// as its high-water mark, so the first new address comes after it.
    /// `testnet` picks the network (main by default). Fails with
    /// `InvalidKey` exactly where the key does not read, with `Wallet` where
    /// the wallet does not open, and with `IndexExhausted` where `index` is
    /// no non-hardened index.
    pub fn new(mpk: String, index: u32, testnet: Option<bool>, server: String) -> (r: Result<
        Btc,
        CoinError,
    >)
        ensures
            r is Ok <==> wallet_opens(mpk@, testnet == Some(true), index),
            (r == Err::<Btc, CoinError>(CoinError::InvalidKey)) <==> !key_ok(mpk@),
            (r == Err::<Btc, CoinError>(CoinError::Wallet)) <==> key_ok(mpk@)
                && !bip84_wallet_opens(mpk@, testnet == Some(true)),
            r matches Ok(b) ==> b.mark() == index && b.server() == server@ && b.key() == mpk@
                && b.on_testnet() == (testnet == Some(true)),
    {
        let t = match testnet {
            Some(t) => t,
            None => false,
        };
        match base58check_payload(mpk.as_str()) {
            Some(p) => if p.len() < 4 {
                return Err(CoinError::InvalidKey);
            },
            None => {
                return Err(CoinError::InvalidKey);
            },
        }
        let wallet = open_bip84_wallet(mpk.as_str(), t)?;
        if index >= INDEX_LIMIT {
            return Err(CoinError::IndexExhausted);
        }
        Ok(Btc { wallet, electrum: server, mpk, testnet: t, address_index: index })
    }

    /// Takes the wallet's answer to a request for a new address: accepted,
    /// and the high-water mark moved up to it, exactly where its index lies
    /// above the mark; else nothing changes.
    pub fn accept_new(&mut self, info: AddressInfo) -> (r: Result<AddressInfo, CoinError>)
        ensures
            r is Ok <==> info.index > old(self).mark(),
            r matches Ok(i) ==> i == info && final(self).mark() == info.index
                && final(self).same_wallet(old(self)),
            r matches Err(e) ==> e == CoinError::IndexExhausted && *final(self) == *old(self),
    {
        if info.index <= self.address_index {
            return Err(CoinError::IndexExhausted);
        }
        self.address_index = info.index;
        Ok(info)
    }

    /// With `None` or `Some(0)`: a new receiving address, at the index right
    /// above the high-water mark, which moves up to it. With `Some(i)`: the
    /// address at index `i`, and nothing changes. Indices from 2^31 on are
    /// refused.
    pub fn get_address(&mut self, index: Option<u32>) -> (r: Result<AddressInfo, CoinError>)
        ensures
            match index {
                Some(i) if i != 0 => *final(self) == *old(self) && if i >= INDEX_LIMIT {
                    r == Err::<AddressInfo, CoinError>(CoinError::IndexExhausted)
                } else {
                    match r {
                        Ok(info) => info.index == i && receive_address(
                            old(self).key(),
                            old(self).on_testnet(),
                            i,
                        ) == Some(info.address@),
                        Err(e) => e == CoinError::Wallet && receive_address(
                            old(self).key(),
                            old(self).on_testnet(),
                            i,
                        ) is None,
                    }
                },
                _ => if old(self).mark() >= INDEX_LIMIT - 1 {
                    r == Err::<AddressInfo, CoinError>(CoinError::IndexExhausted) && *final(self)
                        == *old(self)
                } else {
                    match r {
                        Ok(info) => info.index == old(self).mark() + 1
                            && old(self).next_address() == Some(info.address@)
                            && final(self).mark() == info.index
                            && final(self).same_wallet(old(self)),
                        Err(e) => e == CoinError::Wallet && old(self).next_address() is None
                            && *final(self) == *old(self),
                    }
                },
            },
    {
        let i: u32 = match index {
            Some(i) => i,
            None => 0,
        };
        if i != 0 {
            if i >= INDEX_LIMIT {
                return Err(CoinError::IndexExhausted);
            }
            return peek_receive_address(self, i);
        }
        if self.address_index >= INDEX_LIMIT - 1 {
            return Err(CoinError::IndexExhausted);
        }
        let info = peek_receive_address(self, self.address_index + 1)?;
        self.accept_new(info)
    }

    /// The output script that pays `address` on this wallet's network.
    pub fn script_for(&self, address: &String) -> (r: Result<Vec<u8>, CoinError>)
        ensures
            match r {
                Ok(v) => output_script(address@, self.on_testnet()) == Some(v@),
                Err(e) => e == CoinError::InvalidAddress && output_script(
                    address@,
                    self.on_testnet(),
                ) is None,
            },
    {
        match script_pubkey_of(address.as_str(), self.testnet) {
            Some(v) => Ok(v),
            None => Err(CoinError::InvalidAddress),
        }
    }

    /// The confirmed balance that `report` shows, where the latest
    /// transaction lies inside the confirmation window; else why not.
    pub fn get_balance(&self, report: &ChainReport) -> (r: Result<u64, BalanceError>)
        ensures
            r == balance_outcome(*report),
    {
        counted_balance(report)
    }

    /// Whether `report` shows at least `expect` smallest units, counted as
    /// `get_balance` counts them; `get_balance`'s error where they do not
    /// count.
    pub fn assert_eq(&self, report: &ChainReport, expect: u64) -> (r: Result<bool, BalanceError>)
        ensures
            r == payment_outcome(*report, expect),
    {
        let balance = self.get_balance(report)?;
        Ok(balance >= expect)
    }
}

/// Opens the watch-only wallet of `mpk`; see `Btc::new`.
pub fn get_wallet(mpk: String, index: u32, testnet: Option<bool>, server: String) -> (r: Result<
    Btc,
    CoinError,
>)
    ensures
        r is Ok <==> wallet_opens(mpk@, testnet == Some(true), index),
        (r == Err::<Btc, CoinError>(CoinError::InvalidKey)) <==> !key_ok(mpk@),
        r matches Ok(b) ==> b.mark() == index && b.server() == server@ && b.key() == mpk@
            && b.on_testnet() == (testnet == Some(true)),
{
    Btc::new(mpk, index, testnet, server)
}

} // verus!
