//! The design scene: an ordered list of items (bottom to top), each found by
//! its id, and the ids of the selected items.
//!
//! An item carries whatever the canvas draws (`T`); the scene decides only by
//! ids and order. Geometric questions (is a point on an item, does an item
//! meet a rectangle) are answered per item by the caller and handed in as one
//! flag per item.

use vstd::prelude::*;

verus! {

/// An item of a scene: its id and what it carries.
pub struct SceneItem<T> {
    pub id: u128,
    pub data: T,
}

/// The ids of items, in order.
pub open spec fn item_ids<T>(items: Seq<SceneItem<T>>) -> Seq<u128> {
    items.map_values(|it: SceneItem<T>| it.id)
}

/// `i` is the position of the first item with id `id`.
pub open spec fn first_with<T>(items: Seq<SceneItem<T>>, id: u128, i: int) -> bool {
    &&& 0 <= i < items.len()
    &&& items[i].id == id
    &&& forall|j: int| 0 <= j < i ==> items[j].id != id
}

/// No two items share an id.
pub open spec fn unique_ids<T>(items: Seq<SceneItem<T>>) -> bool {
    forall|i: int, j: int|
        0 <= i < items.len() && 0 <= j < items.len() && i != j ==> items[i].id != items[j].id
}

/// The items whose id is not `id`, in order.
pub open spec fn without_id<T>(items: Seq<SceneItem<T>>, id: u128) -> Seq<SceneItem<T>>
    decreases items.len(),
{
    if items.len() == 0 {
        seq![]
    } else if items.last().id == id {
        without_id(items.drop_last(), id)
    } else {
        without_id(items.drop_last(), id).push(items.last())
    }
}

/// The items whose id is not among `ids`, in order.
pub open spec fn without_ids<T>(items: Seq<SceneItem<T>>, ids: Seq<u128>) -> Seq<SceneItem<T>>
    decreases items.len(),
{
    if items.len() == 0 {
        seq![]
    } else if ids.contains(items.last().id) {
        without_ids(items.drop_last(), ids)
    } else {
        without_ids(items.drop_last(), ids).push(items.last())
    }
}

/// `ids` without `id`, in order.
pub open spec fn other_ids(ids: Seq<u128>, id: u128) -> Seq<u128>
    decreases ids.len(),
{
    if ids.len() == 0 {
        seq![]
    } else if ids.last() == id {
        other_ids(ids.drop_last(), id)
    } else {
        other_ids(ids.drop_last(), id).push(ids.last())
    }
}

/// `items` with the items at `i` and `i + 1` exchanged.
pub open spec fn swapped<T>(items: Seq<SceneItem<T>>, i: int) -> Seq<SceneItem<T>> {
    items.update(i, items[i + 1]).update(i + 1, items[i])
}

/// The order after raising the first item with id `id` one step: it changes
/// places with the item above it, if there is one.
pub open spec fn raised<T>(items: Seq<SceneItem<T>>, id: u128) -> Seq<SceneItem<T>> {
    if exists|i: int| first_with(items, id, i) {
        let i = choose|i: int| first_with(items, id, i);
        if i + 1 < items.len() {
            swapped(items, i)
        } else {
            items
        }
    } else {
        items
    }
}

/// The order after lowering the first item with id `id` one step: it changes
/// places with the item below it, if there is one.
pub open spec fn lowered<T>(items: Seq<SceneItem<T>>, id: u128) -> Seq<SceneItem<T>> {
    if exists|i: int| first_with(items, id, i) {
        let i = choose|i: int| first_with(items, id, i);
        if i > 0 {
            swapped(items, i - 1)
        } else {
            items
        }
    } else {
        items
    }
}

/// The ids of the items whose flag is set, in order.
pub open spec fn flagged_ids<T>(items: Seq<SceneItem<T>>, flags: Seq<bool>) -> Seq<u128>
    decreases items.len(),
{
    if items.len() == 0 {
        seq![]
    } else if flags[items.len() - 1] {
        flagged_ids(items.drop_last(), flags).push(items.last().id)
    } else {
        flagged_ids(items.drop_last(), flags)
    }
}

/// The first position of `id` among `ids`, if any.
proof fn lemma_first_unique<T>(items: Seq<SceneItem<T>>, id: u128, i: int, k: int)
    requires
        first_with(items, id, i),
        first_with(items, id, k),
    ensures
        i == k,
{
    if i < k {
        assert(items[i].id != id);
    } else if k < i {
        assert(items[k].id != id);
    }
}

/// The design scene.
pub struct Scene<T> {
    items: Vec<SceneItem<T>>,
    selected: Vec<u128>,
}

impl<T> Scene<T> {
    /// The items, bottom to top.
    pub closed spec fn items_view(&self) -> Seq<SceneItem<T>> {
        self.items@
    }

    /// The ids of the selected items.
    pub closed spec fn selection(&self) -> Seq<u128> {
        self.selected@
    }

    /// An empty scene.
    pub fn new() -> (s: Self)
        ensures
            s.items_view() == Seq::<SceneItem<T>>::empty(),
            s.selection() == Seq::<u128>::empty(),
    {
        Scene { items: Vec::new(), selected: Vec::new() }
    }

    /// Puts an item on top and returns its id.
    pub fn add_item(&mut self, id: u128, data: T) -> (r: u128)
        ensures
            r == id,
            final(self).items_view() == old(self).items_view().push(SceneItem { id, data }),
            final(self).selection() == old(self).selection(),
    {
        self.items.push(SceneItem { id, data });
        id
    }

    /// Removes the items with id `id` and takes `id` out of the selection.
    pub fn remove_item(&mut self, id: u128)
        ensures
            final(self).items_view() == without_id(old(self).items_view(), id),
            final(self).selection() == other_ids(old(self).selection(), id),
    {
        let ghost orig = self.items@;
        let n: usize = self.items.len();
        let mut i: usize = 0;
        let mut j: usize = 0;
        while j < n
            invariant
                n == orig.len(),
                j <= orig.len(),
                i <= j,
                i == without_id(orig.take(j as int), id).len(),
                self.items@ == without_id(orig.take(j as int), id) + orig.skip(j as int),
                self.selected@ == old(self).selected@,
            decreases orig.len() - j,
        {
            assert(orig.take(j + 1).drop_last() =~= orig.take(j as int));
            assert(orig.take(j + 1).last() == orig[j as int]);
            assert(self.items@[i as int] == orig[j as int]);
            if self.items[i].id == id {
                let _gone: SceneItem<T> = self.items.remove(i);
                assert(self.items@ =~= without_id(orig.take(j + 1), id) + orig.skip(j + 1));
            } else {
                assert(self.items@ =~= without_id(orig.take(j + 1), id) + orig.skip(j + 1));
                i = i + 1;
            }
            j = j + 1;
        }
        assert(orig.take(orig.len() as int) =~= orig);
        assert(self.items@ =~= without_id(orig, id));
        let ghost sel = self.selected@;
        let mut kept: Vec<u128> = Vec::new();
        let mut k: usize = 0;
        while k < self.selected.len()
            invariant
                k <= sel.len(),
                sel == self.selected@,
                kept@ == other_ids(sel.take(k as int), id),
            decreases sel.len() - k,
        {
            let s: u128 = self.selected[k];
            assert(sel.take(k + 1).drop_last() =~= sel.take(k as int));
            if s != id {
                kept.push(s);
            }
            k = k + 1;
        }
        assert(sel.take(sel.len() as int) =~= sel);
        self.selected = kept;
    }

    /// Removes the selected items and clears the selection.
    pub fn remove_selected(&mut self)
        ensures
            final(self).items_view() == without_ids(old(self).items_view(), old(self).selection()),
            final(self).selection() == Seq::<u128>::empty(),
    {
        let ghost orig = self.items@;
        let ghost sel = self.selected@;
        let n: usize = self.items.len();
        let mut i: usize = 0;
        let mut j: usize = 0;
        while j < n
            invariant
                n == orig.len(),
                j <= orig.len(),
                i <= j,
                sel == self.selected@,
                i == without_ids(orig.take(j as int), sel).len(),
                self.items@ == without_ids(orig.take(j as int), sel) + orig.skip(j as int),
            decreases orig.len() - j,
        {
            assert(orig.take(j + 1).drop_last() =~= orig.take(j as int));
            assert(orig.take(j + 1).last() == orig[j as int]);
            assert(self.items@[i as int] == orig[j as int]);
            let id: u128 = self.items[i].id;
            if self.is_selected(id) {
                let _gone: SceneItem<T> = self.items.remove(i);
                assert(self.items@ =~= without_ids(orig.take(j + 1), sel) + orig.skip(j + 1));
            } else {
                assert(self.items@ =~= without_ids(orig.take(j + 1), sel) + orig.skip(j + 1));
                i = i + 1;
            }
            j = j + 1;
        }
        assert(orig.take(orig.len() as int) =~= orig);
        assert(self.items@ =~= without_ids(orig, sel));
        self.selected = Vec::new();
    }

    /// Removes every item and clears the selection.
    pub fn clear(&mut self)
        ensures
            final(self).items_view() == Seq::<SceneItem<T>>::empty(),
            final(self).selection() == Seq::<u128>::empty(),
    {
        self.items = Vec::new();
        self.selected = Vec::new();
    }

    /// The position of the first item with id `id`, if any.
    pub fn position(&self, id: u128) -> (r: Option<usize>)
        ensures
            match r {
                Some(i) => first_with(self.items_view(), id, i as int),
                None => !item_ids(self.items_view()).contains(id),
            },
    {
        let mut i: usize = 0;
        while i < self.items.len()
            invariant
                i <= self.items@.len(),
                forall|j: int| 0 <= j < i ==> self.items@[j].id != id,
            decreases self.items@.len() - i,
        {
            if self.items[i].id == id {
                return Some(i);
            }
            i = i + 1;
        }
        proof {
            if item_ids(self.items@).contains(id) {
                let w = choose|w: int|
                    0 <= w < item_ids(self.items@).len() && item_ids(self.items@)[w] == id;
                assert(self.items@[w].id == id);
            }
        }
        None
    }

    /// What the first item with id `id` carries, if there is one.
    pub fn item(&self, id: u128) -> (r: Option<&T>)
        ensures
            match r {
                Some(d) => exists|i: int|
                    first_with(self.items_view(), id, i) && *d == self.items_view()[i].data,
                None => !item_ids(self.items_view()).contains(id),
            },
    {
        match self.position(id) {
            Some(i) => Some(&self.items[i].data),
            None => None,
        }
    }

    /// Mutable access to what the first item with id `id` carries, if there
    /// is one.
    pub fn item_mut(&mut self, id: u128) -> (r: Option<&mut T>)
        ensures
            match r {
                Some(d) => exists|i: int|
                    {
                        &&& first_with(old(self).items_view(), id, i)
                        &&& *d == old(self).items_view()[i].data
                        &&& final(self).items_view() == old(self).items_view().update(
                            i,
                            SceneItem { id, data: *final(d) },
                        )
                        &&& final(self).selection() == old(self).selection()
                    },
                None => {
                    &&& !item_ids(old(self).items_view()).contains(id)
                    &&& *final(self) == *old(self)
                },
            },
    {
        match self.position(id) {
            Some(i) => {
                let item: &mut SceneItem<T> = &mut self.items[i];
                Some(&mut item.data)
            },
            None => None,
        }
    }

    /// The items, bottom to top.
    pub fn items(&self) -> (r: &[SceneItem<T>])
        ensures
            r@ == self.items_view(),
    {
        self.items.as_slice()
    }

    /// The number of items.
    pub fn item_count(&self) -> (r: usize)
        ensures
            r == self.items_view().len(),
    {
        self.items.len()
    }

    /// The ids of the selected items.
    pub fn selected_ids(&self) -> (r: &[u128])
        ensures
            r@ == self.selection(),
    {
        self.selected.as_slice()
    }

    /// Whether `id` is selected.
    pub fn is_selected(&self, id: u128) -> (r: bool)
        ensures
            r == self.selection().contains(id),
    {
        let mut k: usize = 0;
        while k < self.selected.len()
            invariant
                k <= self.selected@.len(),
                forall|j: int| 0 <= j < k ==> self.selected@[j] != id,
            decreases self.selected@.len() - k,
        {
            if self.selected[k] == id {
                assert(self.selected@[k as int] == id);
                return true;
            }
            k = k + 1;
        }
        false
    }

    /// Replaces the selection.
    pub fn set_selection(&mut self, ids: Vec<u128>)
        ensures
            final(self).selection() == ids@,
            final(self).items_view() == old(self).items_view(),
    {
        self.selected = ids;
    }

    /// Selects every item, in order.
    pub fn select_all(&mut self)
        ensures
            final(self).selection() == item_ids(old(self).items_view()),
            final(self).items_view() == old(self).items_view(),
    {
        let mut ids: Vec<u128> = Vec::new();
        let mut k: usize = 0;
        while k < self.items.len()
            invariant
                k <= self.items@.len(),
                ids@ == item_ids(self.items@.take(k as int)),
            decreases self.items@.len() - k,
        {
            ids.push(self.items[k].id);
            assert(item_ids(self.items@.take(k + 1)) =~= item_ids(self.items@.take(k as int)).push(
                self.items@[k as int].id,
            ));
            k = k + 1;
        }
        assert(self.items@.take(self.items@.len() as int) =~= self.items@);
        self.selected = ids;
    }

    /// Clears the selection.
    pub fn deselect_all(&mut self)
        ensures
            final(self).selection() == Seq::<u128>::empty(),
            final(self).items_view() == old(self).items_view(),
    {
        self.selected = Vec::new();
    }

    /// The topmost item whose flag is set (one flag per item, such as "the
    /// point is on this item").
    pub fn topmost_flagged(&self, flags: &[bool]) -> (r: Option<u128>)
        requires
            flags@.len() == self.items_view().len(),
        ensures
            match r {
                Some(id) => exists|i: int|
                    0 <= i < flags@.len() && flags@[i] && self.items_view()[i].id == id && forall|
                        j: int,
                    |
                        i < j < flags@.len() ==> !flags@[j],
                None => forall|j: int| 0 <= j < flags@.len() ==> !flags@[j],
            },
    {
        let mut k: usize = self.items.len();
        while k > 0
            invariant
                k <= flags@.len(),
                flags@.len() == self.items@.len(),
                forall|j: int| k <= j < flags@.len() ==> !flags@[j],
            decreases k,
        {
            k = k - 1;
            if flags[k] {
                return Some(self.items[k].id);
            }
        }
        None
    }

    /// The ids of the items whose flag is set, bottom to top (one flag per
    /// item, such as "the item meets this rectangle").
    pub fn flagged(&self, flags: &[bool]) -> (r: Vec<u128>)
        requires
            flags@.len() == self.items_view().len(),
        ensures
            r@ == flagged_ids(self.items_view(), flags@),
    {
        let mut ids: Vec<u128> = Vec::new();
        let mut k: usize = 0;
        while k < self.items.len()
            invariant
                k <= self.items@.len(),
                flags@.len() == self.items@.len(),
                ids@ == flagged_ids(self.items@.take(k as int), flags@),
            decreases self.items@.len() - k,
        {
            assert(self.items@.take(k + 1).drop_last() =~= self.items@.take(k as int));
            if flags[k] {
                ids.push(self.items[k].id);
            }
            k = k + 1;
        }
        assert(self.items@.take(self.items@.len() as int) =~= self.items@);
        ids
    }

    /// Raises the first item with id `id` one step.
    pub fn move_item_up(&mut self, id: u128)
        ensures
            final(self).items_view() == raised(old(self).items_view(), id),
            final(self).selection() == old(self).selection(),
    {
        let ghost orig = self.items@;
        match self.position(id) {
            Some(pos) => {
                proof {
                    let c = choose|i: int| first_with(orig, id, i);
                    lemma_first_unique(orig, id, c, pos as int);
                }
                let n: usize = self.items.len();
                assert(pos < n);
                if pos + 1 < n {
                    let it: SceneItem<T> = self.items.remove(pos);
                    self.items.insert(pos + 1, it);
                    assert(self.items@ =~= swapped(orig, pos as int));
                }
            },
            None => {
                assert forall|i: int| !first_with(orig, id, i) by {
                    if first_with(orig, id, i) {
                        assert(item_ids(orig)[i] == id);
                    }
                }
            },
        }
    }

    /// Lowers the first item with id `id` one step.
    pub fn move_item_down(&mut self, id: u128)
        ensures
            final(self).items_view() == lowered(old(self).items_view(), id),
            final(self).selection() == old(self).selection(),
    {
        let ghost orig = self.items@;
        match self.position(id) {
            Some(pos) => {
                proof {
                    let c = choose|i: int| first_with(orig, id, i);
                    lemma_first_unique(orig, id, c, pos as int);
                }
                if pos > 0 {
                    let it: SceneItem<T> = self.items.remove(pos);
                    self.items.insert(pos - 1, it);
                    assert(self.items@ =~= swapped(orig, pos - 1));
                }
            },
            None => {
                assert forall|i: int| !first_with(orig, id, i) by {
                    if first_with(orig, id, i) {
                        assert(item_ids(orig)[i] == id);
                    }
                }
            },
        }
    }
}

/// What a sequence holds after a push.
proof fn lemma_push_contains<A>(s: Seq<A>, a: A, x: A)
    ensures
        s.push(a).contains(x) <==> (s.contains(x) || a == x),
{
    if s.push(a).contains(x) {
        let w = choose|w: int| 0 <= w < s.len() + 1 && s.push(a)[w] == x;
        if w < s.len() {
            assert(s[w] == x);
        }
    }
    if s.contains(x) {
        let w = choose|w: int| 0 <= w < s.len() && s[w] == x;
        assert(s.push(a)[w] == x);
    }
    if a == x {
        assert(s.push(a)[s.len() as int] == x);
    }
}

/// Raising an item and then lowering it restores the order, when ids are
/// unique and the item is not already on top of others.
pub proof fn lemma_raise_then_lower<T>(items: Seq<SceneItem<T>>, id: u128)
    requires
        unique_ids(items),
        !(items.len() >= 2 && items.last().id == id),
    ensures
        lowered(raised(items, id), id) == items,
{
    if exists|i: int| first_with(items, id, i) {
        let i = choose|i: int| first_with(items, id, i);
        if i + 1 < items.len() {
            let up = swapped(items, i);
            assert(up[i + 1].id == id);
            assert forall|j: int| 0 <= j < i + 1 implies up[j].id != id by {
                if j == i {
                    assert(up[j] == items[i + 1]);
                    assert(items[i + 1].id != items[i].id);
                } else {
                    assert(up[j] == items[j]);
                }
            }
            assert(first_with(up, id, i + 1));
            let k = choose|k: int| first_with(up, id, k);
            lemma_first_unique(up, id, k, i + 1);
            assert(swapped(up, i) =~= items);
        } else {
            assert(i == 0);
        }
    }
}

/// Lowering an item and then raising it restores the order, when ids are
/// unique and the item is not already below all others.
pub proof fn lemma_lower_then_raise<T>(items: Seq<SceneItem<T>>, id: u128)
    requires
        unique_ids(items),
        !(items.len() >= 2 && items[0].id == id),
    ensures
        raised(lowered(items, id), id) == items,
{
    if exists|i: int| first_with(items, id, i) {
        let i = choose|i: int| first_with(items, id, i);
        if i > 0 {
            let down = swapped(items, i - 1);
            assert(down[i - 1].id == id);
            assert forall|j: int| 0 <= j < i - 1 implies down[j].id != id by {
                assert(down[j] == items[j]);
            }
            assert(first_with(down, id, i - 1));
            let k = choose|k: int| first_with(down, id, k);
            lemma_first_unique(down, id, k, i - 1);
            assert(swapped(down, i - 1) =~= items);
        } else {
            assert(items.len() == 1);
        }
    }
}

/// After removing an id, no item has it; every other item stays.
pub proof fn lemma_removed_id_gone<T>(items: Seq<SceneItem<T>>, id: u128, x: SceneItem<T>)
    ensures
        !item_ids(without_id(items, id)).contains(id),
        x.id != id ==> (without_id(items, id).contains(x) <==> items.contains(x)),
    decreases items.len(),
{
    if items.len() > 0 {
        let p = items.drop_last();
        let l = items.last();
        lemma_removed_id_gone(p, id, x);
        let r = without_id(p, id);
        assert(items =~= p.push(l));
        lemma_push_contains(p, l, x);
        if l.id != id {
            assert(item_ids(r.push(l)) =~= item_ids(r).push(l.id));
            lemma_push_contains(item_ids(r), l.id, id);
            lemma_push_contains(r, l, x);
        }
    }
}

/// After removing the selected items, no remaining item has a selected id;
/// every item whose id was not selected stays.
pub proof fn lemma_removed_ids_gone<T>(items: Seq<SceneItem<T>>, ids: Seq<u128>, x: SceneItem<T>)
    ensures
        without_ids(items, ids).contains(x) <==> (items.contains(x) && !ids.contains(x.id)),
    decreases items.len(),
{
    if items.len() > 0 {
        let p = items.drop_last();
        let l = items.last();
        lemma_removed_ids_gone(p, ids, x);
        assert(items =~= p.push(l));
        lemma_push_contains(p, l, x);
        if !ids.contains(l.id) {
            lemma_push_contains(without_ids(p, ids), l, x);
        }
    }
}

} // verus!
