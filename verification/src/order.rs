//! The order in which events are applied: by ledger, and within a ledger as on the
//! chain.
use vstd::prelude::*;
use vstd::string::*;
use vstd::utf8::*;

use crate::ledger_events::LocalLedgerEvent;
use crate::rpc_events::RpcEvent;
use crate::text::{bytes_before, is_text_before, text_before};

verus! {

/// A ledger, and a text by which events of one ledger are ordered.
pub struct Place {
    pub ledger: u32,
    pub within: Seq<char>,
}

/// `a` comes before `b`.
pub open spec fn place_before(a: Place, b: Place) -> bool {
    a.ledger < b.ledger || (a.ledger == b.ledger && text_before(a.within, b.within))
}

/// An event that has a place.
pub trait Placed {
    spec fn place(&self) -> Place;

    /// Whether the event comes before another.
    fn comes_before(&self, other: &Self) -> (before: bool)
        ensures
            before == place_before(self.place(), other.place()),
    ;
}

/// The ids of events that the RPC service reports are ordered as the events are.
impl Placed for RpcEvent {
    open spec fn place(&self) -> Place {
        Place { ledger: self.ledger, within: self.id@ }
    }

    fn comes_before(&self, other: &Self) -> (before: bool) {
        self.ledger < other.ledger || (self.ledger == other.ledger && is_text_before(
            self.id.as_str(),
            other.id.as_str(),
        ))
    }
}

/// The events of a ledger are found in their order, and stay in it.
impl Placed for LocalLedgerEvent {
    open spec fn place(&self) -> Place {
        Place { ledger: self.ledger, within: Seq::empty() }
    }

    fn comes_before(&self, other: &Self) -> (before: bool) {
        proof {
            lemma_text_irreflexive(Seq::empty());
        }
        self.ledger < other.ledger
    }
}

/// The places of events.
pub open spec fn places<T: Placed>(list: Seq<T>) -> Seq<Place> {
    list.map_values(|event: T| event.place())
}

/// Where `place` goes among the first `n` of `order`: behind all that it does not
/// come before.
pub open spec fn slot(list: Seq<Place>, order: Seq<int>, place: Place, n: nat) -> nat
    decreases n,
{
    if n == 0 || !place_before(place, list[order[n - 1]]) {
        n
    } else {
        slot(list, order, place, (n - 1) as nat)
    }
}

/// The positions of the first `n` places, in the order of the places. Those that
/// are alike keep the order that they have.
pub open spec fn positions(list: Seq<Place>, n: nat) -> Seq<int>
    decreases n,
{
    if n == 0 {
        Seq::empty()
    } else {
        let front = positions(list, (n - 1) as nat);
        front.insert(slot(list, front, list[n - 1], (n - 1) as nat) as int, n - 1)
    }
}

/// The positions of events, in the order of their places.
pub open spec fn ordered(list: Seq<Place>) -> Seq<int> {
    positions(list, list.len())
}

/// The items at positions.
pub open spec fn picked<T>(list: Seq<T>, at: Seq<int>) -> Seq<T> {
    at.map_values(|i: int| list[i])
}

pub(crate) proof fn lemma_slot_range(list: Seq<Place>, order: Seq<int>, place: Place, n: nat)
    ensures
        slot(list, order, place, n) <= n,
        forall|i: int|
            slot(list, order, place, n) <= i < n ==> place_before(place, list[#[trigger] order[i]]),
        slot(list, order, place, n) > 0 ==> !place_before(
            place,
            list[order[slot(list, order, place, n) - 1]],
        ),
    decreases n,
{
    if n != 0 && place_before(place, list[order[n - 1]]) {
        lemma_slot_range(list, order, place, (n - 1) as nat);
    }
}

/// `at` holds each of the numbers below `n`, once.
pub open spec fn all_positions(at: Seq<int>, n: nat) -> bool {
    &&& at.len() == n
    &&& forall|i: int| 0 <= i < n ==> 0 <= #[trigger] at[i] < n
    &&& forall|i: int, j: int| 0 <= i < j < n ==> #[trigger] at[i] != #[trigger] at[j]
}

pub(crate) proof fn lemma_positions(list: Seq<Place>, n: nat)
    requires
        n <= list.len(),
    ensures
        all_positions(positions(list, n), n),
    decreases n,
{
    if n > 0 {
        let front = positions(list, (n - 1) as nat);
        lemma_positions(list, (n - 1) as nat);
        lemma_slot_range(list, front, list[n - 1], (n - 1) as nat);
    }
}

/// A list from its end on, so that its items come off in order.
pub(crate) fn reversed<T>(list: Vec<T>) -> (out: Vec<T>)
    ensures
        out@.len() == list@.len(),
        forall|k: int| 0 <= k < out@.len() ==> out@[k] == list@[list@.len() - 1 - k],
{
    let ghost all = list@;
    let n: usize = list.len();
    let mut list = list;
    let mut out: Vec<T> = Vec::new();
    while out.len() < n
        invariant
            n == all.len(),
            out@.len() <= n,
            list@ == all.subrange(0, n - out@.len()),
            forall|k: int| 0 <= k < out@.len() ==> out@[k] == all[n - 1 - k],
        decreases n - out@.len(),
    {
        match list.pop() {
            Some(item) => {
                out.push(item);
            },
            None => {},
        }
        assert(list@ =~= all.subrange(0, n - out@.len()));
    }
    out
}

/// The events in the order of their places.
pub fn sort_events<T: Placed>(list: Vec<T>) -> (out: Vec<T>)
    ensures
        out@ == picked(list@, ordered(places(list@))),
{
    let ghost all = list@;
    let ghost keys = places(all);
    let n: usize = list.len();
    let mut rest = reversed(list);
    let mut out: Vec<T> = Vec::new();
    let mut i: usize = 0;
    assert(out@ =~= picked(all, positions(keys, 0)));
    while i < n
        invariant
            n == all.len(),
            keys == places(all),
            i <= n,
            rest@.len() == n - i,
            forall|k: int| 0 <= k < rest@.len() ==> rest@[k] == all[n - 1 - k],
            out@ == picked(all, positions(keys, i as nat)),
        decreases n - i,
    {
        let ghost front = positions(keys, i as nat);
        proof {
            lemma_positions(keys, i as nat);
        }
        match rest.pop() {
            Some(event) => {
                assert(event == all[i as int]);
                assert(event.place() == keys[i as int]);
                let mut at: usize = i;
                while at > 0 && event.comes_before(&out[at - 1])
                    invariant
                        at <= i,
                        i < n,
                        n == all.len(),
                        keys == places(all),
                        front == positions(keys, i as nat),
                        all_positions(front, i as nat),
                        out@ == picked(all, front),
                        event.place() == keys[i as int],
                        slot(keys, front, keys[i as int], at as nat) == slot(
                            keys,
                            front,
                            keys[i as int],
                            i as nat,
                        ),
                    decreases at,
                {
                    assert(out@[at - 1].place() == keys[front[at - 1]]);
                    at = at - 1;
                }
                proof {
                    if at > 0 {
                        assert(out@[at - 1].place() == keys[front[at - 1]]);
                    }
                }
                let ghost before = out@;
                out.insert(at, event);
                assert(positions(keys, (i + 1) as nat) == front.insert(at as int, i as int));
                assert(out@ =~= picked(all, positions(keys, (i + 1) as nat)));
            },
            None => {},
        }
        i = i + 1;
    }
    out
}

proof fn lemma_bytes_asymmetric(a: Seq<u8>, b: Seq<u8>)
    requires
        bytes_before(a, b),
    ensures
        !bytes_before(b, a),
    decreases a.len(),
{
    if a.len() > 0 && b.len() > 0 && a[0] == b[0] {
        lemma_bytes_asymmetric(a.subrange(1, a.len() as int), b.subrange(1, b.len() as int));
    }
}

proof fn lemma_bytes_irreflexive(a: Seq<u8>)
    ensures
        !bytes_before(a, a),
    decreases a.len(),
{
    if a.len() > 0 {
        lemma_bytes_irreflexive(a.subrange(1, a.len() as int));
    }
}

/// No text comes before itself.
pub(crate) proof fn lemma_text_irreflexive(a: Seq<char>)
    ensures
        !text_before(a, a),
{
    lemma_bytes_irreflexive(encode_utf8(a));
}

proof fn lemma_bytes_not_before(a: Seq<u8>, b: Seq<u8>, c: Seq<u8>)
    requires
        !bytes_before(a, b),
        !bytes_before(b, c),
    ensures
        !bytes_before(a, c),
    decreases a.len(),
{
    if a.len() > 0 && b.len() > 0 && c.len() > 0 && a[0] == b[0] && b[0] == c[0] {
        lemma_bytes_not_before(
            a.subrange(1, a.len() as int),
            b.subrange(1, b.len() as int),
            c.subrange(1, c.len() as int),
        );
    }
}

proof fn lemma_place_asymmetric(a: Place, b: Place)
    requires
        place_before(a, b),
    ensures
        !place_before(b, a),
{
    if text_before(a.within, b.within) {
        lemma_bytes_asymmetric(encode_utf8(a.within), encode_utf8(b.within));
    }
}

proof fn lemma_place_not_before(a: Place, b: Place, c: Place)
    requires
        !place_before(a, b),
        !place_before(b, c),
    ensures
        !place_before(a, c),
{
    if !text_before(a.within, b.within) && !text_before(b.within, c.within) {
        lemma_bytes_not_before(encode_utf8(a.within), encode_utf8(b.within), encode_utf8(c.within));
    }
}

/// No place of `order` comes before one that it follows, and places that are alike
/// stand as they stood.
pub open spec fn in_order(list: Seq<Place>, order: Seq<int>) -> bool {
    forall|i: int, j: int|
        #![trigger order[i], order[j]]
        0 <= i < j < order.len() ==> {
            &&& !place_before(list[order[j]], list[order[i]])
            &&& list[order[i]] == list[order[j]] ==> order[i] < order[j]
        }
}

proof fn lemma_in_order(list: Seq<Place>, n: nat)
    requires
        n <= list.len(),
    ensures
        in_order(list, positions(list, n)),
    decreases n,
{
    if n > 0 {
        let m = (n - 1) as nat;
        let front = positions(list, m);
        let place = list[n - 1];
        let at = slot(list, front, place, m) as int;
        lemma_positions(list, m);
        lemma_in_order(list, m);
        lemma_slot_range(list, front, place, m);
        let order = positions(list, n);
        assert(order == front.insert(at, n - 1));
        assert forall|i: int, j: int|
            #![trigger order[i], order[j]]
            0 <= i < j < order.len() implies {
            &&& !place_before(list[order[j]], list[order[i]])
            &&& list[order[i]] == list[order[j]] ==> order[i] < order[j]
        } by {
            if j == at {
                let _ = (front[i], front[at - 1]);
                if i < at - 1 {
                    lemma_place_not_before(place, list[front[at - 1]], list[front[i]]);
                }
            } else if i == at {
                let _ = front[j - 1];
                lemma_place_asymmetric(place, list[front[j - 1]]);
            } else {
                let (x, y) = (
                    if i < at {
                        i
                    } else {
                        i - 1
                    },
                    if j < at {
                        j
                    } else {
                        j - 1
                    },
                );
                let _ = (front[x], front[y]);
            }
        }
    }
}

/// Sorting keeps each event once, puts none before one that it should follow, and
/// leaves events of the same place as they stood.
pub proof fn sorting_is_a_stable_reordering(list: Seq<Place>)
    ensures
        all_positions(ordered(list), list.len()),
        in_order(list, ordered(list)),
{
    lemma_positions(list, list.len());
    lemma_in_order(list, list.len());
}

} // verus!
