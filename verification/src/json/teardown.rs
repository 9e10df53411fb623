//! Teardown that does not recurse.
//!
//! A document may nest so deep that a teardown which goes down through each
//! child's own teardown runs out of stack. Here the children of a container
//! are its worklist, and the worklist is emptied one value at a time. Each
//! value that comes off gives up its own children before it is let go, so
//! what is let go holds nothing. Where a value has children while the
//! worklist is not yet empty, its children become the worklist and the rest
//! of the old worklist is put away among them, in the place of the first
//! child. Nothing is allocated on the way, so a teardown cannot fail.

use vstd::prelude::*;

use crate::json::value::{unpack, vec_new, vec_pop, weight, Array, Object, Value, Work};

verus! {

/// What the value in hand weighs: nothing where no value is in hand.
spec fn in_hand(hand: Option<Value>) -> nat {
    match hand {
        Some(value) => weight(value),
        None => 0,
    }
}

/// What the value that is torn down next weighs: the one in hand, or the
/// last one on the worklist.
spec fn next_up(work: Work, hand: Option<Value>) -> nat {
    match hand {
        Some(value) => weight(value),
        None => work.next_weight(),
    }
}

/// Lets a bare value go: one that holds no child.
fn let_go(bare: Value)
    requires
        weight(bare) == 1,
    opens_invariants none
    no_unwind
{
}

/// Tears down the value in hand and every value on the worklist. Each round
/// lets one bare value go, or moves on to a child of the value in hand, so
/// the rounds come to an end.
fn drain(work: Work, hand: Option<Value>)
    requires
        work.wf(),
    opens_invariants none
    no_unwind
{
    let mut work = work;
    let mut hand = hand;
    loop
        invariant
            work.wf(),
        decreases work.weight() + in_hand(hand), next_up(work, hand),
    {
        let value = match hand {
            Some(value) => value,
            None => match work.pop() {
                Some(value) => value,
                None => {
                    return ;
                },
            },
        };
        hand = None;
        let (bare, kids) = unpack(value);
        let_go(bare);
        match kids {
            None => {},
            Some(kids) => {
                if kids.is_empty() {
                } else if work.is_empty() {
                    work = kids;
                } else {
                    let (first, parked) = kids.park(work);
                    work = parked;
                    hand = Some(first);
                }
            },
        }
    }
}

/// Tears a value down without recursion, however deep it nests.
pub fn safely(value: Value)
    opens_invariants none
    no_unwind
{
    drain(Work::of_items(vec_new()), Some(value));
}

/// Tears the items of an array down without recursion.
pub fn teardown_items(items: Vec<Value>)
    opens_invariants none
    no_unwind
{
    drain(Work::of_items(items), None);
}

/// Tears the entries of a mapping down without recursion.
pub fn teardown_entries(entries: Vec<(String, Value)>)
    opens_invariants none
    no_unwind
{
    let mut entries = entries;
    loop
        decreases entries@.len(),
    {
        match vec_pop(&mut entries) {
            Some(entry) => {
                safely(entry.1);
            },
            None => {
                return ;
            },
        }
    }
}

impl Drop for Object {
    /// Runs when a mapping goes away: its entries are its worklist.
    fn drop(&mut self)
        opens_invariants none
        no_unwind
    {
        let entries = self.take_entries();
        drain(Work::of_entries(entries), None);
    }
}

impl Drop for Array {
    /// Runs when an array goes away: its items are its worklist.
    fn drop(&mut self)
        opens_invariants none
        no_unwind
    {
        let items = self.take_items();
        drain(Work::of_items(items), None);
    }
}

} // verus!
