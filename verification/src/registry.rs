//! The registry of minimized windows: the records in the order in which the
//! windows were minimized, oldest first.

use vstd::prelude::*;
use crate::codec::{create_json_output, decoded, encoded, parse_windows_from_json, ParseError};
use crate::codec_laws::{lemma_round_trip_exact, survives_storage};
use crate::record::{window_views, MinimizedWindow, WindowView};
use crate::text::{option_str_view, str_eq};

verus! {

/// The minimized windows, oldest first.
#[derive(Debug)]
pub struct Registry {
    pub windows: Vec<MinimizedWindow>,
}

impl View for Registry {
    type V = Seq<WindowView>;

    open spec fn view(&self) -> Seq<WindowView> {
        window_views(self.windows@)
    }
}

/// Whether some record of `ws` has the given address.
pub open spec fn holds_address(ws: Seq<WindowView>, address: Seq<char>) -> bool {
    exists|i: int| 0 <= i < ws.len() && (#[trigger] ws[i]).address == address
}

/// Whether no two records of `ws` share an address.
pub open spec fn addresses_unique(ws: Seq<WindowView>) -> bool {
    forall|i: int, j: int|
        0 <= i < j < ws.len() ==> (#[trigger] ws[i]).address != (#[trigger] ws[j]).address
}

/// The records of `ws` whose address is not `address`, in their order.
pub open spec fn without_address(ws: Seq<WindowView>, address: Seq<char>) -> Seq<WindowView>
    decreases ws.len(),
{
    if ws.len() == 0 {
        ws
    } else if ws.last().address == address {
        without_address(ws.drop_last(), address)
    } else {
        without_address(ws.drop_last(), address).push(ws.last())
    }
}

/// The registry that a stored text holds; an empty one where nothing is
/// stored yet.
pub open spec fn loaded(stored: Option<Seq<char>>) -> Result<Seq<WindowView>, ParseError> {
    match stored {
        Some(text) => decoded(text),
        None => Ok(Seq::empty()),
    }
}

impl Registry {
    /// A registry without records.
    pub fn new() -> (r: Self)
        ensures
            r@ == Seq::<WindowView>::empty(),
    {
        let r = Registry { windows: Vec::new() };
        assert(r@ =~= Seq::<WindowView>::empty());
        r
    }

    /// The registry that the backing file holds, given the file's content,
    /// or `None` where the file does not exist yet.
    pub fn load(stored: Option<&str>) -> (r: Result<Registry, ParseError>)
        ensures
            match r {
                Ok(registry) => loaded(option_str_view(stored)) == Ok::<
                    Seq<WindowView>,
                    ParseError,
                >(registry@),
                Err(e) => loaded(option_str_view(stored)) == Err::<Seq<WindowView>, ParseError>(e),
            },
    {
        match stored {
            Some(text) => match parse_windows_from_json(text) {
                Ok(windows) => Ok(Registry { windows }),
                Err(e) => Err(e),
            },
            None => Ok(Registry::new()),
        }
    }

    /// As `load`, but a text that is no collection gives an empty registry,
    /// with the error beside it for the caller to report.
    pub fn load_or_empty(stored: Option<&str>) -> (r: (Registry, Option<ParseError>))
        ensures
            match loaded(option_str_view(stored)) {
                Ok(ws) => r.0@ == ws && r.1 is None,
                Err(e) => r.0@ == Seq::<WindowView>::empty() && r.1 == Some(e),
            },
    {
        match Registry::load(stored) {
            Ok(registry) => (registry, None),
            Err(e) => (Registry::new(), Some(e)),
        }
    }

    /// The content to write to the backing file, which replaces what the
    /// file held.
    pub fn save(&self) -> (text: String)
        ensures
            text@ == encoded(self@),
    {
        create_json_output(self.windows.as_slice())
    }

    /// The number of minimized windows.
    pub fn len(&self) -> (n: usize)
        ensures
            n == self@.len(),
    {
        self.windows.len()
    }

    /// Adds a record as the most recent one. Whether its address is new is
    /// not looked at: the caller sees to that.
    pub fn insert(&mut self, window: MinimizedWindow)
        ensures
            final(self)@ == old(self)@.push(window@),
    {
        let ghost before = self@;
        self.windows.push(window);
        assert(self@ =~= before.push(window@));
    }

    /// Removes every record with the given address, and nothing where there
    /// is none.
    pub fn remove_by_address(&mut self, address: &str)
        ensures
            final(self)@ == without_address(old(self)@, address@),
            !holds_address(old(self)@, address@) ==> final(self)@ == old(self)@,
            !holds_address(final(self)@, address@),
            addresses_unique(old(self)@) ==> addresses_unique(final(self)@),
    {
        let ghost before = self@;
        proof {
            if !holds_address(before, address@) {
                lemma_remove_absent(before, address@);
            }
            lemma_remove_leaves(before, address@);
            if addresses_unique(before) {
                lemma_remove_keeps_unique(before, address@);
            }
        }
        let mut kept: Vec<MinimizedWindow> = Vec::new();
        let mut i: usize = 0;
        assert(before.take(0) =~= Seq::<WindowView>::empty());
        assert(window_views(kept@) =~= Seq::<WindowView>::empty());
        while i < self.windows.len()
            invariant
                i <= self.windows.len(),
                before == window_views(self.windows@),
                window_views(kept@) == without_address(before.take(i as int), address@),
            decreases self.windows.len() - i,
        {
            let ghost so_far = window_views(kept@);
            assert(before.take(i + 1).drop_last() =~= before.take(i as int));
            assert(before.take(i + 1).last() == self.windows@[i as int]@);
            if !str_eq(self.windows[i].address.as_str(), address) {
                let window = self.windows[i].clone();
                kept.push(window);
                assert(window_views(kept@) =~= so_far.push(window@));
            }
            i += 1;
        }
        assert(before.take(self.windows.len() as int) =~= before);
        self.windows = kept;
    }

    /// Removes the most recent record and returns it, or returns `None`
    /// where the registry is empty.
    pub fn remove_last(&mut self) -> (r: Option<MinimizedWindow>)
        ensures
            match r {
                Some(window) => {
                    &&& old(self)@.len() > 0
                    &&& window@ == old(self)@.last()
                    &&& final(self)@ == old(self)@.drop_last()
                },
                None => old(self)@.len() == 0 && final(self)@ == old(self)@,
            },
    {
        let ghost before = self@;
        let r = self.windows.pop();
        assert(r is Some ==> self@ =~= before.drop_last());
        r
    }
}

/// Removing an address that no record has leaves the registry as it was.
pub proof fn lemma_remove_absent(ws: Seq<WindowView>, address: Seq<char>)
    requires
        !holds_address(ws, address),
    ensures
        without_address(ws, address) == ws,
    decreases ws.len(),
{
    if ws.len() > 0 {
        assert(ws[ws.len() - 1].address != address);
        assert forall|i: int| 0 <= i < ws.drop_last().len() implies (#[trigger] ws.drop_last()[i]).address
            != address by {
            assert(ws[i].address != address);
        }
        lemma_remove_absent(ws.drop_last(), address);
        assert(ws.drop_last().push(ws.last()) =~= ws);
    }
}

/// What is left after removing an address are records of the registry, and
/// none of them has the address.
pub proof fn lemma_remove_leaves(ws: Seq<WindowView>, address: Seq<char>)
    ensures
        forall|i: int|
            0 <= i < without_address(ws, address).len() ==> {
                &&& (#[trigger] without_address(ws, address)[i]).address != address
                &&& holds_address(ws, without_address(ws, address)[i].address)
            },
    decreases ws.len(),
{
    let left = without_address(ws, address);
    if ws.len() > 0 {
        let front = without_address(ws.drop_last(), address);
        lemma_remove_leaves(ws.drop_last(), address);
        assert forall|i: int| 0 <= i < left.len() implies {
            &&& (#[trigger] left[i]).address != address
            &&& holds_address(ws, left[i].address)
        } by {
            if i < front.len() {
                assert(left[i] == front[i]);
                assert(holds_address(ws.drop_last(), front[i].address));
                let j = choose|j: int|
                    0 <= j < ws.drop_last().len() && (#[trigger] ws.drop_last()[j]).address
                        == front[i].address;
                assert(ws[j] == ws.drop_last()[j]);
            } else {
                assert(left[i] == ws[ws.len() - 1]);
            }
        }
    }
}

/// Leaving the last record out keeps the addresses of a registry distinct,
/// and the address of the last record is then in the registry no more.
pub proof fn lemma_unique_front(ws: Seq<WindowView>)
    requires
        ws.len() > 0,
        addresses_unique(ws),
    ensures
        addresses_unique(ws.drop_last()),
        !holds_address(ws.drop_last(), ws.last().address),
{
    let front = ws.drop_last();
    assert forall|i: int, j: int| 0 <= i < j < front.len() implies (#[trigger] front[i]).address
        != (#[trigger] front[j]).address by {
        assert(front[i] == ws[i] && front[j] == ws[j]);
    }
    assert forall|k: int| 0 <= k < front.len() implies (#[trigger] front[k]).address
        != ws.last().address by {
        assert(front[k] == ws[k]);
        assert(ws[k].address != ws[ws.len() - 1].address);
    }
}

/// Removing an address keeps the addresses of a registry distinct.
pub proof fn lemma_remove_keeps_unique(ws: Seq<WindowView>, address: Seq<char>)
    requires
        addresses_unique(ws),
    ensures
        addresses_unique(without_address(ws, address)),
    decreases ws.len(),
{
    let left = without_address(ws, address);
    if ws.len() > 0 {
        let front = without_address(ws.drop_last(), address);
        lemma_unique_front(ws);
        lemma_remove_keeps_unique(ws.drop_last(), address);
        lemma_remove_leaves(ws.drop_last(), address);
        if ws.last().address != address {
            assert forall|i: int, j: int| 0 <= i < j < left.len() implies (#[trigger] left[i]).address
                != (#[trigger] left[j]).address by {
                assert(left[i] == front[i]);
                if j < front.len() {
                    assert(left[j] == front[j]);
                } else {
                    assert(left[j] == ws.last());
                    assert(holds_address(ws.drop_last(), front[i].address));
                }
            }
        }
    }
}

/// Adding a record whose address no record has yet keeps the addresses of a
/// registry distinct.
pub proof fn lemma_insert_keeps_unique(ws: Seq<WindowView>, w: WindowView)
    requires
        addresses_unique(ws),
        !holds_address(ws, w.address),
    ensures
        addresses_unique(ws.push(w)),
{
    let more = ws.push(w);
    assert forall|i: int, j: int| 0 <= i < j < more.len() implies (#[trigger] more[i]).address != (
    #[trigger] more[j]).address by {
        assert(more[i] == ws[i]);
        if j < ws.len() {
            assert(more[j] == ws[j]);
        }
    }
}

/// Removing the address of the most recent record removes that record and
/// no other, where no earlier record has the same address.
pub proof fn lemma_remove_last_address(ws: Seq<WindowView>)
    requires
        ws.len() > 0,
        !holds_address(ws.drop_last(), ws.last().address),
    ensures
        without_address(ws, ws.last().address) == ws.drop_last(),
{
    lemma_remove_absent(ws.drop_last(), ws.last().address);
}

/// Loading what was saved gives the registry that was saved, where each
/// record survives storage and has a preview.
pub proof fn lemma_load_after_save(ws: Seq<WindowView>)
    requires
        forall|i: int|
            0 <= i < ws.len() ==> survives_storage(#[trigger] ws[i]) && ws[i].preview_path
                is Some,
    ensures
        loaded(Some(encoded(ws))) == Ok::<Seq<WindowView>, ParseError>(ws),
{
    lemma_round_trip_exact(ws);
}

} // verus!
