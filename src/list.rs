//! The consumer's list of found paths: selection, removal requests and the
//! outcomes that deletion workers report.
use vstd::prelude::*;

use crate::item::{Message, PathItem, PathState};
use crate::matcher::listed;
use crate::text::views;

verus! {

/// The found paths as the consumer holds them.
pub struct ItemList {
    items: Vec<PathItem>,
    selected: Option<usize>,
    /// Bytes of everything found (saturating).
    total_size: u64,
    /// Bytes of everything removed (saturating).
    total_saved_size: u64,
    /// The last error reported, until the next key press.
    error: Option<String>,
    /// `DoneSearch` has arrived.
    search_done: bool,
    /// The paths of every `AddPath` received, in order.
    added: Ghost<Seq<Seq<char>>>,
}

impl ItemList {
    pub closed spec fn item_seq(&self) -> Seq<PathItem> {
        self.items@
    }

    pub closed spec fn total(&self) -> u64 {
        self.total_size
    }

    pub closed spec fn saved(&self) -> u64 {
        self.total_saved_size
    }

    pub closed spec fn done(&self) -> bool {
        self.search_done
    }

    pub closed spec fn error_view(&self) -> Option<String> {
        self.error
    }

    /// The found paths, in list order.
    pub fn items(&self) -> (r: &Vec<PathItem>)
        ensures
            r@ == self.item_seq(),
    {
        &self.items
    }

    /// Bytes of everything found.
    pub fn total_size(&self) -> (r: u64)
        ensures
            r == self.total(),
    {
        self.total_size
    }

    /// Bytes of everything removed.
    pub fn total_saved_size(&self) -> (r: u64)
        ensures
            r == self.saved(),
    {
        self.total_saved_size
    }

    /// Whether `DoneSearch` has arrived.
    pub fn search_done(&self) -> (r: bool)
        ensures
            r == self.done(),
    {
        self.search_done
    }

    /// The last error reported, if not yet cleared.
    pub fn error(&self) -> (r: Option<&String>)
        ensures
            r matches Some(e) ==> self.error_view() == Some(*e),
            r is None <==> self.error_view() is None,
    {
        self.error.as_ref()
    }

    /// The paths of every `AddPath` received, in order.
    pub closed spec fn added_paths(&self) -> Seq<Seq<char>> {
        self.added@
    }

    pub closed spec fn selection(&self) -> Option<usize> {
        self.selected
    }

    /// Every item came in an `AddPath`, and the selection points at an item.
    pub closed spec fn wf(&self) -> bool {
        &&& forall|k: int|
            0 <= k < self.items@.len() ==> listed(self.added@, #[trigger] self.items@[k].path@)
        &&& self.selected matches Some(i) ==> i < self.items@.len()
    }

    pub fn new() -> (r: ItemList)
        ensures
            r.wf(),
            r.item_seq().len() == 0,
            r.selection() is None,
            r.added_paths() == Seq::<Seq<char>>::empty(),
            r.total() == 0,
            r.saved() == 0,
            !r.done(),
    {
        ItemList {
            items: Vec::new(),
            selected: None,
            total_size: 0,
            total_saved_size: 0,
            error: None,
            search_done: false,
            added: Ghost(Seq::empty()),
        }
    }

    /// The selected index, if any.
    pub fn selected(&self) -> (r: Option<usize>)
        requires
            self.wf(),
        ensures
            r == self.selection(),
            r matches Some(i) ==> i < self.item_seq().len(),
    {
        self.selected
    }

    /// Takes in one message from the event stream.
    pub fn handle_message(&mut self, message: Message)
        requires
            old(self).wf(),
        ensures
            final(self).wf(),
            final(self).selection() == old(self).selection(),
            match message {
                Message::AddPath(item) => {
                    &&& final(self).item_seq() == old(self).item_seq().push(item)
                    &&& final(self).added_paths() == old(self).added_paths().push(item.path@)
                    &&& final(self).total() == sat_add(old(self).total(), size_or_zero(item.size))
                    &&& final(self).saved() == old(self).saved()
                    &&& final(self).done() == old(self).done()
                    &&& final(self).error_view() == old(self).error_view()
                },
                Message::DoneSearch => {
                    &&& final(self).done()
                    &&& final(self).item_seq() == old(self).item_seq()
                    &&& final(self).added_paths() == old(self).added_paths()
                    &&& final(self).total() == old(self).total()
                    &&& final(self).saved() == old(self).saved()
                    &&& final(self).error_view() == old(self).error_view()
                },
                Message::SetPathDeleted(p) => {
                    &&& match first_with_path(old(self).item_seq(), p@) {
                        Some(k) => {
                            &&& final(self).item_seq() == old(self).item_seq().update(
                                k,
                                PathItem { state: PathState::Deleted, ..old(self).item_seq()[k] },
                            )
                            &&& final(self).saved() == sat_add(
                                old(self).saved(),
                                size_or_zero(old(self).item_seq()[k].size),
                            )
                        },
                        None => {
                            &&& final(self).item_seq() == old(self).item_seq()
                            &&& final(self).saved() == old(self).saved()
                        },
                    }
                    &&& final(self).added_paths() == old(self).added_paths()
                    &&& final(self).total() == old(self).total()
                    &&& final(self).done() == old(self).done()
                    &&& final(self).error_view() == old(self).error_view()
                },
                Message::PutError(m) => {
                    &&& final(self).error_view() == Some(m)
                    &&& final(self).item_seq() == old(self).item_seq()
                    &&& final(self).added_paths() == old(self).added_paths()
                    &&& final(self).total() == old(self).total()
                    &&& final(self).saved() == old(self).saved()
                    &&& final(self).done() == old(self).done()
                },
            },
    {
        match message {
            Message::AddPath(item) => {
                let add = match item.size {
                    Some(s) => s,
                    None => 0,
                };
                self.total_size = self.total_size.saturating_add(add);
                self.add_item(item);
            },
            Message::DoneSearch => {
                self.search_done = true;
            },
            Message::SetPathDeleted(path) => {
                let saved = match self.set_item_deleted(&path) {
                    Some(s) => s,
                    None => 0,
                };
                self.total_saved_size = self.total_saved_size.saturating_add(saved);
            },
            Message::PutError(m) => {
                self.error = Some(m);
            },
        }
    }

    /// Appends a found path.
    pub fn add_item(&mut self, item: PathItem)
        requires
            old(self).wf(),
        ensures
            final(self).wf(),
            final(self).item_seq() == old(self).item_seq().push(item),
            final(self).added_paths() == old(self).added_paths().push(item.path@),
            final(self).selection() == old(self).selection(),
            final(self).total() == old(self).total(),
            final(self).saved() == old(self).saved(),
            final(self).done() == old(self).done(),
            final(self).error_view() == old(self).error_view(),
    {
        let ghost a = self.added@;
        let ghost p = item.path@;
        self.added = Ghost(self.added@.push(item.path@));
        let ghost old_items = self.items@;
        self.items.push(item);
        assert forall|k: int| 0 <= k < self.items@.len() implies listed(self.added@, #[trigger] self.items@[k].path@) by {
            if k < old_items.len() {
                assert(self.items@[k] == old_items[k]);
                let q = choose|q: int| 0 <= q < a.len() && a[q] == old_items[k].path@;
                assert(self.added@[q] == a[q]);
            } else {
                assert(self.added@[a.len() as int] == p);
            }
        }
    }

    /// Moves the selection down one, wrapping to the top.
    pub fn next(&mut self)
        requires
            old(self).wf(),
        ensures
            final(self).wf(),
            final(self).item_seq() == old(self).item_seq(),
            final(self).added_paths() == old(self).added_paths(),
            final(self).selection() == if old(self).item_seq().len() == 0 {
                None
            } else {
                match old(self).selection() {
                    Some(i) => Some(((i + 1) % old(self).item_seq().len() as int) as usize),
                    None => Some(0usize),
                }
            },
    {
        let n = self.items.len();
        if n == 0 {
            self.selected = None;
        } else {
            self.selected = match self.selected {
                Some(i) => Some((i + 1) % n),
                None => Some(0),
            };
        }
    }

    /// Moves the selection up one, wrapping to the bottom.
    pub fn previous(&mut self)
        requires
            old(self).wf(),
        ensures
            final(self).wf(),
            final(self).item_seq() == old(self).item_seq(),
            final(self).added_paths() == old(self).added_paths(),
            final(self).selection() == if old(self).item_seq().len() == 0 {
                None
            } else {
                match old(self).selection() {
                    Some(i) => Some(
                        if i == 0 {
                            (old(self).item_seq().len() - 1) as usize
                        } else {
                            (i - 1) as usize
                        },
                    ),
                    None => Some(0usize),
                }
            },
    {
        let n = self.items.len();
        if n == 0 {
            self.selected = None;
        } else {
            self.selected = match self.selected {
                Some(i) => Some(
                    if i == 0 {
                        n - 1
                    } else {
                        i - 1
                    },
                ),
                None => Some(0),
            };
        }
    }

    /// Selects the first item.
    pub fn begin(&mut self)
        requires
            old(self).wf(),
        ensures
            final(self).wf(),
            final(self).item_seq() == old(self).item_seq(),
            final(self).added_paths() == old(self).added_paths(),
            final(self).selection() == if old(self).item_seq().len() == 0 {
                None
            } else {
                Some(0usize)
            },
    {
        if self.items.len() == 0 {
            self.selected = None;
        } else {
            self.selected = Some(0);
        }
    }

    /// Selects the last item.
    pub fn end(&mut self)
        requires
            old(self).wf(),
        ensures
            final(self).wf(),
            final(self).item_seq() == old(self).item_seq(),
            final(self).added_paths() == old(self).added_paths(),
            final(self).selection() == if old(self).item_seq().len() == 0 {
                None
            } else {
                Some((old(self).item_seq().len() - 1) as usize)
            },
    {
        if self.items.len() == 0 {
            self.selected = None;
        } else {
            self.selected = Some(self.items.len() - 1);
        }
    }

    /// Forgets the last error.
    pub fn clear_tmp_state(&mut self)
        requires
            old(self).wf(),
        ensures
            final(self).wf(),
            final(self).item_seq() == old(self).item_seq(),
            final(self).added_paths() == old(self).added_paths(),
            final(self).error_view() is None,
    {
        self.error = None;
    }

    /// Marks the selected item as being removed and returns its path to hand
    /// to a deletion worker; nothing when no item is selected, or it is not
    /// `Normal`, or its size is unknown.
    pub fn start_deleting_item(&mut self) -> (r: Option<String>)
        requires
            old(self).wf(),
        ensures
            final(self).wf(),
            final(self).added_paths() == old(self).added_paths(),
            final(self).item_seq().len() == old(self).item_seq().len(),
            r is Some <==> (old(self).selection() matches Some(i) && old(self).item_seq()[i as int].state
                == PathState::Normal && old(self).item_seq()[i as int].size is Some),
            r is Some ==> {
                let i = old(self).selection()->0 as int;
                &&& r->0@ == old(self).item_seq()[i].path@
                &&& listed(old(self).added_paths(), r->0@)
                &&& final(self).item_seq() == old(self).item_seq().update(
                    i,
                    PathItem { state: PathState::StartDeleting, ..old(self).item_seq()[i] },
                )
            },
            r is None ==> final(self).item_seq() == old(self).item_seq(),
    {
        match self.selected {
            Some(i) => {
                if self.items[i].state != PathState::Normal || self.items[i].size.is_none() {
                    None
                } else {
                    let path = self.items[i].path.clone();
                    self.mark_deleting(i);
                    Some(path)
                }
            },
            None => None,
        }
    }

    fn mark_deleting(&mut self, i: usize)
        requires
            old(self).wf(),
            i < old(self).item_seq().len(),
        ensures
            final(self).wf(),
            final(self).added_paths() == old(self).added_paths(),
            final(self).selection() == old(self).selection(),
            final(self).item_seq() == old(self).item_seq().update(
                i as int,
                PathItem { state: PathState::StartDeleting, ..old(self).item_seq()[i as int] },
            ),
    {
        self.set_state(i, PathState::StartDeleting);
    }

    fn set_state(&mut self, i: usize, state: PathState)
        requires
            old(self).wf(),
            i < old(self).item_seq().len(),
        ensures
            final(self).wf(),
            final(self).added_paths() == old(self).added_paths(),
            final(self).selection() == old(self).selection(),
            final(self).total() == old(self).total(),
            final(self).saved() == old(self).saved(),
            final(self).done() == old(self).done(),
            final(self).error_view() == old(self).error_view(),
            final(self).item_seq() == old(self).item_seq().update(
                i as int,
                PathItem { state, ..old(self).item_seq()[i as int] },
            ),
    {
        let ghost before = self.items@;
        let mut items = Vec::new();
        std::mem::swap(&mut items, &mut self.items);
        let mut item = items.remove(i);
        item.state = state;
        items.insert(i, item);
        std::mem::swap(&mut items, &mut self.items);
        assert(self.items@ =~= before.update(i as int, PathItem { state, ..before[i as int] }));
        assert forall|k: int| 0 <= k < self.items@.len() implies listed(self.added@, #[trigger] self.items@[k].path@) by {
            assert(self.items@[k].path == before[k].path);
        }
    }

    /// Marks every `Normal` item of known size as being removed, and returns
    /// their paths, in list order, to hand to deletion workers.
    pub fn delete_all_items(&mut self) -> (r: Vec<String>)
        requires
            old(self).wf(),
        ensures
            final(self).wf(),
            final(self).added_paths() == old(self).added_paths(),
            final(self).item_seq().len() == old(self).item_seq().len(),
            final(self).selection() == old(self).selection(),
            views(r@) == deletable_paths(old(self).item_seq()),
            forall|k: int| 0 <= k < r@.len() ==> listed(old(self).added_paths(), #[trigger] r@[k]@),
            forall|k: int|
                0 <= k < old(self).item_seq().len() ==> {
                    let it = #[trigger] old(self).item_seq()[k];
                    if deletable(it) {
                        final(self).item_seq()[k] == PathItem { state: PathState::StartDeleting, ..it }
                    } else {
                        final(self).item_seq()[k] == it
                    }
                },
    {
        let mut out: Vec<String> = Vec::new();
        let mut i: usize = 0;
        assert(old(self).item_seq().subrange(0, 0) =~= Seq::<PathItem>::empty());
        while i < self.items.len()
            invariant
                self.wf(),
                self.added@ == old(self).added@,
                self.selected == old(self).selected,
                self.items@.len() == old(self).item_seq().len(),
                i <= self.items@.len(),
                views(out@) == deletable_paths(old(self).item_seq().subrange(0, i as int)),
                forall|k: int| 0 <= k < out@.len() ==> listed(self.added@, #[trigger] out@[k]@),
                forall|k: int|
                    i <= k < self.items@.len() ==> #[trigger] self.items@[k] == old(self).item_seq()[k],
                forall|k: int|
                    0 <= k < i ==> {
                        let it = #[trigger] old(self).item_seq()[k];
                        if deletable(it) {
                            self.items@[k] == PathItem { state: PathState::StartDeleting, ..it }
                        } else {
                            self.items@[k] == it
                        }
                    },
            decreases old(self).item_seq().len() - i,
        {
            let ghost pre = old(self).item_seq().subrange(0, i as int);
            assert(old(self).item_seq().subrange(0, i + 1).drop_last() == pre);
            assert(old(self).item_seq().subrange(0, i + 1).last() == old(self).item_seq()[i as int]);
            if self.items[i].state == PathState::Normal && self.items[i].size.is_some() {
                let path = self.items[i].path.clone();
                let ghost before_out = out@;
                out.push(path);
                self.set_state(i, PathState::StartDeleting);
                proof {
                    assert(views(out@) =~= views(before_out).push(old(self).item_seq()[i as int].path@));
                    assert(listed(self.added@, self.items@[i as int].path@));
                    assert forall|k: int| 0 <= k < out@.len() implies listed(self.added@, #[trigger] out@[k]@) by {
                        if k < before_out.len() {
                            assert(out@[k] == before_out[k]);
                        }
                    }
                }
            }
            i = i + 1;
        }
        assert(old(self).item_seq().subrange(0, old(self).item_seq().len() as int) == old(self).item_seq());
        out
    }

    /// Puts the items in the order `order` gives: the item at `order[k]` moves
    /// to `k`. Does nothing, and returns false, unless `order` lists every
    /// index exactly once.
    pub fn reorder(&mut self, order: &Vec<usize>) -> (r: bool)
        requires
            old(self).wf(),
        ensures
            final(self).wf(),
            final(self).added_paths() == old(self).added_paths(),
            final(self).selection() == old(self).selection(),
            r <==> is_permutation(order@, old(self).item_seq().len()),
            r ==> final(self).item_seq().len() == old(self).item_seq().len() && forall|k: int|
                0 <= k < order@.len() ==> #[trigger] final(self).item_seq()[k] == old(
                    self,
                ).item_seq()[order@[k] as int],
            !r ==> final(self).item_seq() == old(self).item_seq(),
    {
        let n = self.items.len();
        if order.len() != n {
            return false;
        }
        let mut seen: Vec<bool> = Vec::new();
        let mut i: usize = 0;
        while i < n
            invariant
                *self == *old(self),
                self.wf(),
                i <= n,
                seen@.len() == i,
                forall|j: int| 0 <= j < i ==> !(#[trigger] seen@[j]),
            decreases n - i,
        {
            seen.push(false);
            i = i + 1;
        }
        let mut k: usize = 0;
        while k < n
            invariant
                *self == *old(self),
                self.wf(),
                n == order@.len(),
                seen@.len() == n,
                k <= n,
                forall|a: int| 0 <= a < k ==> (#[trigger] order@[a]) < n,
                forall|a: int, b: int| 0 <= a < b < k ==> order@[a] != order@[b],
                forall|j: int|
                    0 <= j < n ==> (#[trigger] seen@[j] <==> exists|a: int|
                        0 <= a < k && order@[a] == j),
            decreases n - k,
        {
            let j = order[k];
            if j >= n || seen[j] {
                proof {
                    if j < n {
                        let a = choose|a: int| 0 <= a < k && order@[a] == j;
                        assert(order@[a] == order@[k as int]);
                    }
                }
                return false;
            }
            seen.set(j, true);
            k = k + 1;
        }
        let mut items = Vec::new();
        std::mem::swap(&mut items, &mut self.items);
        let ghost before = items@;
        let mut reordered: Vec<PathItem> = Vec::new();
        let mut rest: Vec<Option<PathItem>> = Vec::new();
        let mut it = items;
        let mut q: usize = n;
        while q > 0
            invariant
                n == before.len(),
                q <= n,
                it@ == before.subrange(0, q as int),
                rest@.len() == n - q,
                forall|j: int|
                    0 <= j < n - q ==> #[trigger] rest@[j] == Some(before[n - 1 - j]),
            decreases q,
        {
            let x = it.pop();
            proof {
                assert(x == Some(before[q - 1]));
            }
            rest.push(x);
            q = q - 1;
            assert(it@ =~= before.subrange(0, q as int));
        }
        let mut k: usize = 0;
        while k < n
            invariant
                n == order@.len(),
                n == before.len(),
                rest@.len() == n,
                k <= n,
                forall|a: int| 0 <= a < n ==> (#[trigger] order@[a]) < n,
                forall|a: int, b: int| 0 <= a < b < n ==> order@[a] != order@[b],
                forall|a: int| k <= a < n ==> #[trigger] rest@[n - 1 - order@[a]] == Some(before[order@[a] as int]),
                reordered@.len() == k,
                forall|a: int| 0 <= a < k ==> #[trigger] reordered@[a] == before[order@[a] as int],
            decreases n - k,
        {
            let j = order[k];
            let slot = n - 1 - j;
            let mut x: Option<PathItem> = None;
            let ghost old_rest = rest@;
            std::mem::swap(&mut x, &mut rest[slot]);
            proof {
                assert(x == Some(before[j as int]));
                assert(rest@ == old_rest.update(slot as int, None));
                assert forall|a: int| k + 1 <= a < n implies #[trigger] rest@[n - 1 - order@[a]] == Some(
                    before[order@[a] as int],
                ) by {
                    assert(order@[a] != order@[k as int]);
                    assert(old_rest[n - 1 - order@[a]] == Some(before[order@[a] as int]));
                }
            }
            let item = match x {
                Some(item) => item,
                None => {
                    proof {
                        assert(false);
                    }
                    return false;
                },
            };
            reordered.push(item);
            k = k + 1;
        }
        self.items = reordered;
        proof {
            assert forall|a: int| 0 <= a < self.items@.len() implies listed(self.added@, #[trigger] self.items@[a].path@) by {
                assert(self.items@[a] == before[order@[a] as int]);
            }
        }
        true
    }

    /// Marks the first item whose path is `path` as removed and returns its size.
    pub fn set_item_deleted(&mut self, path: &String) -> (r: Option<u64>)
        requires
            old(self).wf(),
        ensures
            final(self).wf(),
            final(self).added_paths() == old(self).added_paths(),
            final(self).item_seq().len() == old(self).item_seq().len(),
            final(self).selection() == old(self).selection(),
            final(self).total() == old(self).total(),
            final(self).saved() == old(self).saved(),
            final(self).done() == old(self).done(),
            final(self).error_view() == old(self).error_view(),
            match first_with_path(old(self).item_seq(), path@) {
                Some(k) => {
                    &&& final(self).item_seq() == old(self).item_seq().update(
                        k,
                        PathItem { state: PathState::Deleted, ..old(self).item_seq()[k] },
                    )
                    &&& r == old(self).item_seq()[k].size
                },
                None => final(self).item_seq() == old(self).item_seq() && r is None,
            },
    {
        let mut k: usize = 0;
        while k < self.items.len()
            invariant
                *self == *old(self),
                self.wf(),
                k <= self.items@.len(),
                forall|q: int| 0 <= q < k ==> (#[trigger] self.items@[q]).path@ != path@,
            decreases self.items@.len() - k,
        {
            if self.items[k].path == *path {
                proof {
                    lemma_first_with_path(self.items@, path@, k as int);
                }
                let size = self.items[k].size;
                self.set_state(k, PathState::Deleted);
                return size;
            }
            k = k + 1;
        }
        proof {
            lemma_no_path(self.items@, path@);
        }
        None
    }
}

/// `order` lists every index below `n` exactly once.
pub open spec fn is_permutation(order: Seq<usize>, n: nat) -> bool {
    &&& order.len() == n
    &&& forall|a: int| 0 <= a < n ==> (#[trigger] order[a]) < n
    &&& forall|a: int, b: int| 0 <= a < b < n ==> order[a] != order[b]
}

/// An item that a removal may be requested for: `Normal`, of known size.
pub open spec fn deletable(it: PathItem) -> bool {
    it.state == PathState::Normal && it.size is Some
}

/// The paths of the deletable items, in list order.
pub open spec fn deletable_paths(items: Seq<PathItem>) -> Seq<Seq<char>>
    decreases items.len(),
{
    if items.len() == 0 {
        Seq::empty()
    } else {
        let rest = deletable_paths(items.drop_last());
        if deletable(items.last()) {
            rest.push(items.last().path@)
        } else {
            rest
        }
    }
}

/// A size, or zero when it is unknown.
pub open spec fn size_or_zero(size: Option<u64>) -> u64 {
    match size {
        Some(s) => s,
        None => 0,
    }
}

/// `a + b`, saturated to the largest `u64`.
pub open spec fn sat_add(a: u64, b: u64) -> u64 {
    if a + b > u64::MAX {
        u64::MAX
    } else {
        (a + b) as u64
    }
}

/// The index of the first item whose path is `p`.
pub open spec fn first_with_path(items: Seq<PathItem>, p: Seq<char>) -> Option<int>
    decreases items.len(),
{
    if items.len() == 0 {
        None
    } else if items[0].path@ == p {
        Some(0)
    } else {
        match first_with_path(items.drop_first(), p) {
            Some(k) => Some(k + 1),
            None => None,
        }
    }
}

proof fn lemma_first_with_path(items: Seq<PathItem>, p: Seq<char>, k: int)
    requires
        0 <= k < items.len(),
        items[k].path@ == p,
        forall|q: int| 0 <= q < k ==> (#[trigger] items[q]).path@ != p,
    ensures
        first_with_path(items, p) == Some(k),
    decreases k,
{
    if k > 0 {
        let rest = items.drop_first();
        assert forall|q: int| 0 <= q < k - 1 implies (#[trigger] rest[q]).path@ != p by {
            assert(rest[q] == items[q + 1]);
        }
        lemma_first_with_path(rest, p, k - 1);
        assert(items[0].path@ != p);
    }
}

proof fn lemma_no_path(items: Seq<PathItem>, p: Seq<char>)
    requires
        forall|q: int| 0 <= q < items.len() ==> (#[trigger] items[q]).path@ != p,
    ensures
        first_with_path(items, p) is None,
    decreases items.len(),
{
    if items.len() > 0 {
        let rest = items.drop_first();
        assert forall|q: int| 0 <= q < rest.len() implies (#[trigger] rest[q]).path@ != p by {
            assert(rest[q] == items[q + 1]);
        }
        lemma_no_path(rest, p);
        assert(items[0].path@ != p);
    }
}

/// A removal is only ever requested for a path that arrived in an `AddPath`:
/// whatever `start_deleting_item` or `delete_all_items` hands to a worker, and
/// so every `SetPathDeleted` that a worker reports, names such a path.
pub proof fn lemma_deleted_was_added(list: ItemList, k: int)
    requires
        list.wf(),
        0 <= k < list.item_seq().len(),
    ensures
        listed(list.added_paths(), list.item_seq()[k].path@),
{
}

} // verus!
