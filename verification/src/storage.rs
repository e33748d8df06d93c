//! What the bridge keeps between calls, and what a call finds around it.

use soroban_sdk::Env as HostEnv;
use vstd::prelude::*;

use crate::history::{History, PriceSnapshot};
use crate::table::{copy_bytes, same_bytes, Table};

verus! {

/// An account or a contract, by the text of its address.
pub struct Address {
    /// The address in the network's text form.
    pub text: Vec<u8>,
}

impl View for Address {
    type V = Seq<u8>;

    open spec fn view(&self) -> Seq<u8> {
        self.text@
    }
}

impl Clone for Address {
    fn clone(&self) -> (copy: Address)
        ensures
            copy@ == self@,
    {
        Address { text: copy_bytes(&self.text) }
    }
}

impl Address {
    /// Whether two addresses are the same.
    pub fn same(&self, other: &Address) -> (same: bool)
        ensures
            same == (self@ == other@),
    {
        same_bytes(&self.text, &other.text)
    }
}

/// The latest accepted price of an asset.
pub struct PriceEntry {
    /// Asset identifier.
    pub asset: Vec<u8>,
    /// Price in the feed's native decimals.
    pub price: i128,
    /// Observation timestamp.
    pub timestamp: u64,
    /// Decimal precision of the price.
    pub decimals: u32,
    /// Ledger timestamp when the price was stored.
    pub updated_at: u64,
    /// Who submitted the price.
    pub updater: Address,
    /// The price scaled to 18 decimals.
    pub normalized: i128,
}

/// What a `PriceEntry` holds.
#[verifier::ext_equal]
pub struct PriceEntryView {
    pub asset: Seq<u8>,
    pub price: i128,
    pub timestamp: u64,
    pub decimals: u32,
    pub updated_at: u64,
    pub updater: Seq<u8>,
    pub normalized: i128,
}

impl View for PriceEntry {
    type V = PriceEntryView;

    open spec fn view(&self) -> PriceEntryView {
        PriceEntryView {
            asset: self.asset@,
            price: self.price,
            timestamp: self.timestamp,
            decimals: self.decimals,
            updated_at: self.updated_at,
            updater: self.updater@,
            normalized: self.normalized,
        }
    }
}

impl Clone for PriceEntry {
    fn clone(&self) -> (copy: PriceEntry)
        ensures
            copy@ == self@,
    {
        PriceEntry {
            asset: copy_bytes(&self.asset),
            price: self.price,
            timestamp: self.timestamp,
            decimals: self.decimals,
            updated_at: self.updated_at,
            updater: self.updater.clone(),
            normalized: self.normalized,
        }
    }
}

/// The rules of a feed.
#[derive(Clone, Copy, Eq, PartialEq, Debug, Structural)]
pub struct FeedConfig {
    /// Max age of a price in seconds.
    pub max_staleness: u64,
    /// Sanity lower bound; not applied unless positive.
    pub min_price: i128,
    /// Sanity upper bound; not applied unless positive.
    pub max_price: i128,
    /// Whether the feed accepts submissions.
    pub active: bool,
    /// Circuit breaker threshold in basis points: the largest move that is accepted.
    pub max_deviation_bps: u32,
    /// Number of snapshots that are kept.
    pub twap_window: u32,
}

impl View for FeedConfig {
    type V = FeedConfig;

    open spec fn view(&self) -> FeedConfig {
        *self
    }
}

/// The circuit breaker and the history of a feed.
pub struct DefiState {
    /// Whether the circuit breaker has tripped.
    pub circuit_broken: bool,
    /// The price accepted last, zero before the first one.
    pub last_price: i128,
    /// The latest snapshots.
    pub history: History,
}

/// What a `DefiState` holds.
#[verifier::ext_equal]
pub struct DefiStateView {
    pub circuit_broken: bool,
    pub last_price: i128,
    pub history: Seq<PriceSnapshot>,
}

impl View for DefiState {
    type V = DefiStateView;

    open spec fn view(&self) -> DefiStateView {
        DefiStateView {
            circuit_broken: self.circuit_broken,
            last_price: self.last_price,
            history: self.history@,
        }
    }
}

/// What a stored value is found by.
pub enum StorageKey {
    Admin,
    Price(Vec<u8>),
    FeedConfig(Vec<u8>),
    DefiState(Vec<u8>),
    Updater(Address),
}

/// The stored values.
pub struct Storage {
    /// Who manages feeds and updaters.
    pub admin: Option<Address>,
    /// The latest price of each asset.
    pub prices: Table<PriceEntry>,
    /// The rules of each asset's feed.
    pub configs: Table<FeedConfig>,
    /// The circuit breaker and the history of each asset's feed.
    pub states: Table<DefiState>,
    /// Whether each address may submit prices.
    pub updaters: Table<bool>,
}

/// What a `Storage` holds.
#[verifier::ext_equal]
pub struct StorageView {
    pub admin: Option<Seq<u8>>,
    pub prices: Map<Seq<u8>, PriceEntryView>,
    pub configs: Map<Seq<u8>, FeedConfig>,
    pub states: Map<Seq<u8>, DefiStateView>,
    pub updaters: Map<Seq<u8>, bool>,
}

impl View for Storage {
    type V = StorageView;

    open spec fn view(&self) -> StorageView {
        StorageView {
            admin: match self.admin {
                Some(admin) => Some(admin@),
                None => None,
            },
            prices: self.prices@,
            configs: self.configs@,
            states: self.states@,
            updaters: self.updaters@,
        }
    }
}

impl StorageView {
    /// A storage without values.
    pub open spec fn empty() -> StorageView {
        StorageView {
            admin: None,
            prices: Map::empty(),
            configs: Map::empty(),
            states: Map::empty(),
            updaters: Map::empty(),
        }
    }

    /// Whether a value is stored under `key`.
    pub open spec fn has(self, key: StorageKey) -> bool {
        match key {
            StorageKey::Admin => self.admin is Some,
            StorageKey::Price(asset) => self.prices.contains_key(asset@),
            StorageKey::FeedConfig(asset) => self.configs.contains_key(asset@),
            StorageKey::DefiState(asset) => self.states.contains_key(asset@),
            StorageKey::Updater(who) => self.updaters.contains_key(who@),
        }
    }
}

impl Storage {
    /// A storage without values.
    pub fn new() -> (storage: Storage)
        ensures
            storage@ == StorageView::empty(),
    {
        Storage {
            admin: None,
            prices: Table::new(),
            configs: Table::new(),
            states: Table::new(),
            updaters: Table::new(),
        }
    }

    /// Whether a value is stored under `key`.
    pub fn has(&self, key: &StorageKey) -> (found: bool)
        ensures
            found == self@.has(*key),
    {
        match key {
            StorageKey::Admin => self.admin.is_some(),
            StorageKey::Price(asset) => self.prices.has(asset),
            StorageKey::FeedConfig(asset) => self.configs.has(asset),
            StorageKey::DefiState(asset) => self.states.has(asset),
            StorageKey::Updater(who) => self.updaters.has(&who.text),
        }
    }
}

/// What a call finds around it.
pub struct Env {
    /// The host, in which vectors are made.
    pub host: HostEnv,
    /// The ledger's time in seconds.
    pub timestamp: u64,
    /// Who has authorized the call.
    pub signers: Vec<Address>,
    /// The stored values.
    pub storage: Storage,
}

/// What an `Env` holds.
#[verifier::ext_equal]
pub struct EnvView {
    pub now: u64,
    pub signers: Set<Seq<u8>>,
    pub storage: StorageView,
}

impl View for Env {
    type V = EnvView;

    open spec fn view(&self) -> EnvView {
        EnvView {
            now: self.timestamp,
            signers: Set::new(
                |who: Seq<u8>|
                    exists|i: int| 0 <= i < self.signers@.len() && (#[trigger] self.signers@[i])@ == who,
            ),
            storage: self.storage@,
        }
    }
}

impl Env {
    /// Surroundings in which nothing is stored and nobody has authorized anything.
    pub fn new(host: HostEnv, timestamp: u64) -> (e: Env)
        ensures
            e@.now == timestamp,
            e@.signers == Set::<Seq<u8>>::empty(),
            e@.storage == StorageView::empty(),
    {
        let e = Env { host, timestamp, signers: Vec::new(), storage: Storage::new() };
        assert(e@.signers =~= Set::<Seq<u8>>::empty());
        e
    }

    /// Records that `who` has authorized the call.
    pub fn authorize(&mut self, who: Address)
        ensures
            final(self)@ == (EnvView { signers: old(self)@.signers.insert(who@), ..old(self)@ }),
    {
        let ghost before = self.signers@;
        self.signers.push(who);
        proof {
            let now = self.signers@;
            assert(now.last()@ == who@);
            assert forall|w: Seq<u8>| old(self)@.signers.insert(who@).contains(w)
                <==> self@.signers.contains(w) by {
                if old(self)@.signers.contains(w) {
                    let i = choose|i: int|
                        0 <= i < before.len() && (#[trigger] before[i])@ == w;
                    assert(now[i]@ == w);
                }
                if self@.signers.contains(w) {
                    let i = choose|i: int| 0 <= i < now.len() && (#[trigger] now[i])@ == w;
                    if i < before.len() {
                        assert(before[i]@ == w);
                    }
                }
            }
            assert(self@.signers =~= old(self)@.signers.insert(who@));
        }
    }
}

} // verus!
