//! The price history of a feed, kept in a vector of the host.

use soroban_sdk::{Env as HostEnv, Vec as HostVec};
use vstd::prelude::*;

verus! {

/// A price as it was observed at some time.
#[derive(Clone, Copy, Eq, PartialEq, Debug, Structural)]
pub struct PriceSnapshot {
    /// Price at snapshot time.
    pub price: i128,
    /// Observation timestamp.
    pub timestamp: u64,
}

/// The host's environment.
#[verifier::external_type_specification]
#[verifier::external_body]
pub struct ExHostEnv(HostEnv);

/// The host's vector.
#[verifier::external_type_specification]
#[verifier::external_body]
#[verifier::reject_recursive_types(T)]
pub struct ExHostVec<T>(HostVec<T>);

/// The items of a host vector, first to last.
pub uninterp spec fn host_items(items: HostVec<(i128, u64)>) -> Seq<(i128, u64)>;

/// Whether every item of a host vector is a pair of the type that the vector declares. The host
/// does not check this of a vector that reaches a contract from outside.
pub uninterp spec fn host_items_typed(items: HostVec<(i128, u64)>) -> bool;

/// `soroban_sdk::Vec::new`: a vector without items.
#[verifier::external_body]
fn host_vec_new(host: &HostEnv) -> (items: HostVec<(i128, u64)>)
    ensures
        host_items(items) == Seq::<(i128, u64)>::empty(),
        host_items_typed(items),
{
    HostVec::new(host)
}

/// `soroban_sdk::Vec::len`: the number of items.
#[verifier::external_body]
fn host_vec_len(items: &HostVec<(i128, u64)>) -> (len: u32)
    ensures
        len == host_items(*items).len(),
{
    items.len()
}

/// `soroban_sdk::Vec::get`: the item at a position, if the vector is that long. It panics on an
/// item that is not of the declared type.
#[verifier::external_body]
fn host_vec_get(items: &HostVec<(i128, u64)>, i: u32) -> (item: Option<(i128, u64)>)
    requires
        host_items_typed(*items),
    ensures
        item == (if i < host_items(*items).len() {
            Some(host_items(*items)[i as int])
        } else {
            None
        }),
{
    items.get(i)
}

/// `soroban_sdk::Vec::push_back`: puts an item behind the last one. The host counts items in 32
/// bits.
#[verifier::external_body]
fn host_vec_push_back(items: &mut HostVec<(i128, u64)>, item: (i128, u64))
    requires
        host_items(*old(items)).len() < u32::MAX,
    ensures
        host_items(*final(items)) == host_items(*old(items)).push(item),
        host_items_typed(*final(items)) == host_items_typed(*old(items)),
{
    items.push_back(item)
}

/// `soroban_sdk::Vec::pop_front`: takes the first item out, if there is one. It panics on an item
/// that is not of the declared type.
#[verifier::external_body]
fn host_vec_pop_front(items: &mut HostVec<(i128, u64)>) -> (item: Option<(i128, u64)>)
    requires
        host_items_typed(*old(items)),
    ensures
        host_items_typed(*final(items)),
        host_items(*old(items)).len() == 0 ==> {
            &&& item is None
            &&& host_items(*final(items)) == host_items(*old(items))
        },
        host_items(*old(items)).len() > 0 ==> {
            &&& item == Some(host_items(*old(items))[0])
            &&& host_items(*final(items)) == host_items(*old(items)).drop_first()
        },
{
    items.pop_front()
}

/// The latest snapshots of a feed, oldest first.
pub struct History {
    items: HostVec<(i128, u64)>,
}

impl View for History {
    type V = Seq<PriceSnapshot>;

    closed spec fn view(&self) -> Seq<PriceSnapshot> {
        host_items(self.items).map_values(
            |item: (i128, u64)| PriceSnapshot { price: item.0, timestamp: item.1 },
        )
    }
}

impl History {
    #[verifier::type_invariant]
    spec fn typed(self) -> bool {
        host_items_typed(self.items)
    }

    /// A history without snapshots.
    pub fn new(host: &HostEnv) -> (history: History)
        ensures
            history@ == Seq::<PriceSnapshot>::empty(),
    {
        History { items: host_vec_new(host) }
    }

    /// The number of snapshots.
    pub fn len(&self) -> (len: u32)
        ensures
            len == self@.len(),
    {
        host_vec_len(&self.items)
    }

    /// The snapshot at a position, counted from the oldest.
    pub fn get(&self, i: u32) -> (snapshot: Option<PriceSnapshot>)
        ensures
            snapshot == (if i < self@.len() {
                Some(self@[i as int])
            } else {
                None
            }),
    {
        proof {
            use_type_invariant(self);
        }
        match host_vec_get(&self.items, i) {
            Some((price, timestamp)) => Some(PriceSnapshot { price, timestamp }),
            None => None,
        }
    }

    /// The history with one more snapshot, the latest.
    pub fn push_back(self, snapshot: PriceSnapshot) -> (history: History)
        requires
            self@.len() < u32::MAX,
        ensures
            history@ == self@.push(snapshot),
    {
        proof {
            use_type_invariant(&self);
        }
        let History { mut items } = self;
        host_vec_push_back(&mut items, (snapshot.price, snapshot.timestamp));
        let history = History { items };
        assert(history@ =~= self@.push(snapshot));
        history
    }

    /// The history without its oldest snapshot, if it has one.
    pub fn pop_front(self) -> (history: History)
        ensures
            history@ == (if self@.len() > 0 {
                self@.drop_first()
            } else {
                self@
            }),
    {
        proof {
            use_type_invariant(&self);
        }
        let History { mut items } = self;
        host_vec_pop_front(&mut items);
        let history = History { items };
        assert(self@.len() > 0 ==> history@ =~= self@.drop_first());
        history
    }

    /// The snapshots, oldest first.
    pub fn to_vec(&self) -> (snapshots: Vec<PriceSnapshot>)
        ensures
            snapshots@ == self@,
    {
        let mut snapshots: Vec<PriceSnapshot> = Vec::new();
        let len = self.len();
        let mut i: u32 = 0;
        while i < len
            invariant
                i <= len,
                len == self@.len(),
                snapshots@ == self@.take(i as int),
            decreases len - i,
        {
            if let Some(snapshot) = self.get(i) {
                snapshots.push(snapshot);
            }
            i = i + 1;
            assert(self@.take(i as int) =~= self@.take(i - 1).push(self@[i - 1]));
        }
        assert(self@.take(len as int) =~= self@);
        snapshots
    }
}

/// A new history has no snapshot. A snapshot that is put in stands behind the others, which keep
/// their places; beyond the last one there is none.
pub proof fn law_snapshots_are_found(
    host: &HostEnv,
    fresh: History,
    history: History,
    snapshot: PriceSnapshot,
    longer: History,
    i: u32,
    before: Option<PriceSnapshot>,
    after: Option<PriceSnapshot>,
    len: u32,
    first: Option<PriceSnapshot>,
)
    requires
        history@.len() < u32::MAX,
        call_ensures(History::new, (host,), fresh),
        call_ensures(History::get, (&fresh, i), first),
        call_ensures(History::push_back, (history, snapshot), longer),
        call_ensures(History::get, (&history, i), before),
        call_ensures(History::get, (&longer, i), after),
        call_ensures(History::len, (&history,), len),
    ensures
        call_requires(History::push_back, (history, snapshot)),
        first is None,
        before is Some <==> i < len,
        i < len ==> after == before,
        i == len ==> after == Some(snapshot),
        i > len ==> after is None,
{
}

/// Taking the oldest snapshot out leaves the others in their order, one place further to the
/// front; taking it out of an empty history leaves that empty.
pub proof fn law_oldest_snapshot_leaves(
    history: History,
    shorter: History,
    len: u32,
    left: u32,
    i: u32,
    before: Option<PriceSnapshot>,
    after: Option<PriceSnapshot>,
)
    requires
        i < u32::MAX,
        call_ensures(History::pop_front, (history,), shorter),
        call_ensures(History::len, (&history,), len),
        call_ensures(History::len, (&shorter,), left),
        call_ensures(History::get, (&history, (i + 1) as u32), before),
        call_ensures(History::get, (&shorter, i), after),
    ensures
        left == (if len > 0 {
            len - 1
        } else {
            0
        }),
        after == before,
{
}

/// The listed snapshots are those that are found at each place.
pub proof fn law_listing_is_complete(
    history: &History,
    snapshots: Vec<PriceSnapshot>,
    i: u32,
    found: Option<PriceSnapshot>,
)
    requires
        call_ensures(History::to_vec, (history,), snapshots),
        call_ensures(History::get, (history, i), found),
    ensures
        found is Some <==> i < snapshots@.len(),
        found matches Some(snapshot) ==> snapshots@[i as int] == snapshot,
{
}

} // verus!
