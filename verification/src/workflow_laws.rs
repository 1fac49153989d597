//! What holds of the registry whatever commands are run on it.

use vstd::prelude::*;
use crate::record::WindowView;
use crate::registry::{
    addresses_unique, holds_address, lemma_insert_keeps_unique, lemma_remove_keeps_unique,
    lemma_remove_last_address, lemma_remove_leaves, lemma_unique_front,
};
use crate::workflow::{
    addresses_of, minimized, restored, restored_all, restored_each, restored_last,
};

verus! {

/// One command that changes the registry, with what the window manager
/// made of it.
pub enum Operation {
    /// A minimize of the window with this record; `moved` tells whether the
    /// window manager moved the window away.
    Minimize { record: WindowView, moved: bool },
    /// A restore of the window with this address.
    Restore { address: Seq<char> },
    RestoreLast,
    RestoreAll,
}

/// The registry after one operation.
pub open spec fn after(ws: Seq<WindowView>, op: Operation) -> Seq<WindowView> {
    match op {
        Operation::Minimize { record, moved } => minimized(ws, record, moved),
        Operation::Restore { address } => restored(ws, address),
        Operation::RestoreLast => restored_last(ws),
        Operation::RestoreAll => restored_all(ws),
    }
}

/// The registry after a sequence of operations, first to last.
pub open spec fn after_all(ws: Seq<WindowView>, ops: Seq<Operation>) -> Seq<WindowView>
    decreases ops.len(),
{
    if ops.len() == 0 {
        ws
    } else {
        after(after_all(ws, ops.drop_last()), ops.last())
    }
}

/// Whether each minimize of the sequence that moved its window away is of
/// a window that was not minimized at that time: the window manager hands
/// out as active only windows that are not parked.
pub open spec fn minimizes_visible_windows(ws: Seq<WindowView>, ops: Seq<Operation>) -> bool
    decreases ops.len(),
{
    if ops.len() == 0 {
        true
    } else {
        &&& minimizes_visible_windows(ws, ops.drop_last())
        &&& match ops.last() {
            Operation::Minimize { record, moved } => moved ==> !holds_address(
                after_all(ws, ops.drop_last()),
                record.address,
            ),
            _ => true,
        }
    }
}

/// Restoring a list of addresses in turn keeps the addresses of a registry
/// distinct.
pub proof fn lemma_restore_each_keeps_unique(ws: Seq<WindowView>, addresses: Seq<Seq<char>>)
    requires
        addresses_unique(ws),
    ensures
        addresses_unique(restored_each(ws, addresses)),
    decreases addresses.len(),
{
    if addresses.len() > 0 {
        lemma_remove_keeps_unique(ws, addresses[0]);
        lemma_restore_each_keeps_unique(restored(ws, addresses[0]), addresses.drop_first());
    }
}

/// One operation keeps the addresses of a registry distinct, where a
/// minimize that moved its window away is of a window that was not
/// minimized already.
pub proof fn lemma_operation_keeps_unique(ws: Seq<WindowView>, op: Operation)
    requires
        addresses_unique(ws),
        op matches Operation::Minimize { record, moved } ==> (moved ==> !holds_address(
            ws,
            record.address,
        )),
    ensures
        addresses_unique(after(ws, op)),
{
    match op {
        Operation::Minimize { record, moved } => {
            if moved {
                lemma_insert_keeps_unique(ws, record);
            }
        },
        Operation::Restore { address } => {
            lemma_remove_keeps_unique(ws, address);
        },
        Operation::RestoreLast => {
            if ws.len() > 0 {
                lemma_remove_keeps_unique(ws, ws.last().address);
            }
        },
        Operation::RestoreAll => {
            lemma_restore_each_keeps_unique(ws, addresses_of(ws));
        },
    }
}

/// After any sequence of minimizes and restores no two records share an
/// address, where none did at the start and each minimize that moved its
/// window away was of a window that was not minimized at that time.
pub proof fn lemma_addresses_stay_unique(ws: Seq<WindowView>, ops: Seq<Operation>)
    requires
        addresses_unique(ws),
        minimizes_visible_windows(ws, ops),
    ensures
        addresses_unique(after_all(ws, ops)),
    decreases ops.len(),
{
    if ops.len() > 0 {
        lemma_addresses_stay_unique(ws, ops.drop_last());
        lemma_operation_keeps_unique(after_all(ws, ops.drop_last()), ops.last());
    }
}

/// Restoring the last window removes the record that was added last, and
/// no other, where no earlier record has the same address. The record goes
/// by its place in the registry: how the addresses compare plays no part.
pub proof fn lemma_restore_last_removes_newest(ws: Seq<WindowView>)
    requires
        ws.len() > 0,
        !holds_address(ws.drop_last(), ws.last().address),
    ensures
        restored_last(ws) == ws.drop_last(),
{
    lemma_remove_last_address(ws);
}

/// In a registry of distinct addresses, restoring the last window removes
/// the record that was added last, and no other.
pub proof fn lemma_restore_last_of_unique(ws: Seq<WindowView>)
    requires
        ws.len() > 0,
        addresses_unique(ws),
    ensures
        restored_last(ws) == ws.drop_last(),
{
    lemma_unique_front(ws);
    lemma_remove_last_address(ws);
}

/// What is left after restoring a list of addresses are records of the
/// registry whose address is not in the list.
pub proof fn lemma_restore_each_leaves(ws: Seq<WindowView>, addresses: Seq<Seq<char>>)
    ensures
        forall|i: int|
            0 <= i < restored_each(ws, addresses).len() ==> {
                &&& holds_address(ws, (#[trigger] restored_each(ws, addresses)[i]).address)
                &&& !addresses.contains(restored_each(ws, addresses)[i].address)
            },
    decreases addresses.len(),
{
    let left = restored_each(ws, addresses);
    if addresses.len() > 0 {
        let first = restored(ws, addresses[0]);
        let rest = addresses.drop_first();
        lemma_restore_each_leaves(first, rest);
        lemma_remove_leaves(ws, addresses[0]);
        assert forall|i: int| 0 <= i < left.len() implies {
            &&& holds_address(ws, (#[trigger] left[i]).address)
            &&& !addresses.contains(left[i].address)
        } by {
            let a = left[i].address;
            assert(holds_address(first, a));
            let j = choose|j: int| 0 <= j < first.len() && (#[trigger] first[j]).address == a;
            assert(first[j].address != addresses[0]);
            assert(holds_address(ws, first[j].address));
            if addresses.contains(a) {
                let k = choose|k: int| 0 <= k < addresses.len() && addresses[k] == a;
                assert(k > 0);
                assert(rest[k - 1] == a);
                assert(rest.contains(a));
            }
        }
    } else {
        assert forall|i: int| 0 <= i < left.len() implies {
            &&& holds_address(ws, (#[trigger] left[i]).address)
            &&& !addresses.contains(left[i].address)
        } by {
            assert(ws[i].address == left[i].address);
        }
    }
}

/// Restoring every window leaves the registry empty.
pub proof fn lemma_restore_all_empties(ws: Seq<WindowView>)
    ensures
        restored_all(ws) == Seq::<WindowView>::empty(),
{
    let left = restored_all(ws);
    lemma_restore_each_leaves(ws, addresses_of(ws));
    if left.len() > 0 {
        let a = left[0].address;
        assert(holds_address(ws, a));
        let j = choose|j: int| 0 <= j < ws.len() && (#[trigger] ws[j]).address == a;
        assert(addresses_of(ws)[j] == a);
        assert(addresses_of(ws).contains(a));
    }
    assert(left =~= Seq::<WindowView>::empty());
}

} // verus!
