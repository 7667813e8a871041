//! Cut layers.
//!
//! A [`Layer`] pairs its cut settings (`S`) with the set of ids of the canvas
//! items that belong to it; a [`LayerList`] keeps the layers in order. The
//! list decides only by ids and positions; it never reads the settings.

use vstd::prelude::*;
use std::collections::HashSet;

verus! {

broadcast use vstd::std_specs::hash::group_hash_axioms;

/// One cut layer.
pub struct Layer<S> {
    pub settings: S,
    pub item_ids: HashSet<u128>,
}

impl<S> Layer<S> {
    /// A layer with the given settings and no items.
    pub fn new(settings: S) -> (r: Self)
        ensures
            r.settings == settings,
            r.item_ids@ == Set::<u128>::empty(),
    {
        Layer { settings, item_ids: HashSet::new() }
    }

    /// Puts an item on this layer.
    pub fn add_item(&mut self, id: u128)
        ensures
            final(self).item_ids@ == old(self).item_ids@.insert(id),
            final(self).settings == old(self).settings,
    {
        self.item_ids.insert(id);
    }

    /// Takes an item off this layer.
    pub fn remove_item(&mut self, id: u128)
        ensures
            final(self).item_ids@ == old(self).item_ids@.remove(id),
            final(self).settings == old(self).settings,
    {
        self.item_ids.remove(&id);
    }
}

/// The colours given to new layers, in turn.
pub open spec fn layer_palette() -> Seq<Seq<char>> {
    seq![
        "#e74c3c"@,
        "#3498db"@,
        "#2ecc71"@,
        "#f39c12"@,
        "#9b59b6"@,
        "#1abc9c"@,
        "#e67e22"@,
        "#34495e"@,
        "#e91e63"@,
        "#00bcd4"@,
    ]
}

/// The colour of a new layer when `count` layers exist: the palette, in turn.
pub fn default_layer_color(count: usize) -> (r: &'static str)
    ensures
        r@ == layer_palette()[(count % 10) as int],
{
    let k: usize = count % 10;
    if k == 0 {
        "#e74c3c"
    } else if k == 1 {
        "#3498db"
    } else if k == 2 {
        "#2ecc71"
    } else if k == 3 {
        "#f39c12"
    } else if k == 4 {
        "#9b59b6"
    } else if k == 5 {
        "#1abc9c"
    } else if k == 6 {
        "#e67e22"
    } else if k == 7 {
        "#34495e"
    } else if k == 8 {
        "#e91e63"
    } else {
        "#00bcd4"
    }
}

/// The name of a new layer when `count` layers exist: `Layer <count + 1>`.
pub fn default_layer_name(count: usize) -> (r: String)
    requires
        count < usize::MAX,
    ensures
        r@ == "Layer "@ + crate::text::decimal((count + 1) as nat),
{
    let mut v: Vec<char> = Vec::new();
    crate::text::push_str(&mut v, "Layer ");
    let d: Vec<char> = crate::text::decimal_chars((count + 1) as u64);
    crate::text::push_all(&mut v, &d);
    crate::text::string_of(&v)
}

/// The item sets of layers, in order.
pub open spec fn member_sets<S>(layers: Seq<Layer<S>>) -> Seq<Set<u128>> {
    layers.map_values(|l: Layer<S>| l.item_ids@)
}

/// The settings of layers, in order.
pub open spec fn layer_settings<S>(layers: Seq<Layer<S>>) -> Seq<S> {
    layers.map_values(|l: Layer<S>| l.settings)
}

/// `s` with the entries at `i` and `j` exchanged.
pub open spec fn exchanged<A>(s: Seq<A>, i: int, j: int) -> Seq<A> {
    s.update(i, s[j]).update(j, s[i])
}

/// No item is on two layers.
pub open spec fn disjoint_layers(sets: Seq<Set<u128>>) -> bool {
    forall|i: int, j: int, id: u128|
        0 <= i < sets.len() && 0 <= j < sets.len() && i != j && #[trigger] sets[i].contains(id)
            ==> !#[trigger] sets[j].contains(id)
}

/// The item sets after `ids` were assigned to the layer at `target`: the ids
/// leave every layer and join that one, if it exists.
pub open spec fn assigned(sets: Seq<Set<u128>>, target: int, ids: Set<u128>) -> Seq<Set<u128>> {
    Seq::new(
        sets.len(),
        |i: int|
            if i == target {
                sets[i].difference(ids).union(ids)
            } else {
                sets[i].difference(ids)
            },
    )
}

/// The ordered list of layers.
pub struct LayerList<S> {
    layers: Vec<Layer<S>>,
}

impl<S> LayerList<S> {
    /// The layers, in order.
    pub closed spec fn layers_view(&self) -> Seq<Layer<S>> {
        self.layers@
    }

    /// An empty list.
    pub fn new() -> (r: Self)
        ensures
            r.layers_view() == Seq::<Layer<S>>::empty(),
    {
        LayerList { layers: Vec::new() }
    }

    /// The number of layers.
    pub fn len(&self) -> (r: usize)
        ensures
            r == self.layers_view().len(),
    {
        self.layers.len()
    }

    /// Whether there is no layer.
    pub fn is_empty(&self) -> (r: bool)
        ensures
            r == (self.layers_view().len() == 0),
    {
        self.layers.len() == 0
    }

    /// The layer at `index`, if there is one.
    pub fn get(&self, index: usize) -> (r: Option<&Layer<S>>)
        ensures
            match r {
                Some(l) => index < self.layers_view().len() && *l == self.layers_view()[index as int],
                None => index >= self.layers_view().len(),
            },
    {
        if index < self.layers.len() {
            Some(&self.layers[index])
        } else {
            None
        }
    }

    /// Mutable access to the layer at `index`, if there is one.
    pub fn get_mut(&mut self, index: usize) -> (r: Option<&mut Layer<S>>)
        ensures
            match r {
                Some(l) => {
                    &&& index < old(self).layers_view().len()
                    &&& *l == old(self).layers_view()[index as int]
                    &&& final(self).layers_view() == old(self).layers_view().update(
                        index as int,
                        *final(l),
                    )
                },
                None => {
                    &&& index >= old(self).layers_view().len()
                    &&& *final(self) == *old(self)
                },
            },
    {
        if index < self.layers.len() {
            Some(&mut self.layers[index])
        } else {
            None
        }
    }

    /// The layers, in order.
    pub fn iter(&self) -> (r: &[Layer<S>])
        ensures
            r@ == self.layers_view(),
    {
        self.layers.as_slice()
    }

    /// Appends a layer and returns its index.
    pub fn add(&mut self, layer: Layer<S>) -> (r: usize)
        ensures
            final(self).layers_view() == old(self).layers_view().push(layer),
            r == old(self).layers_view().len(),
    {
        self.layers.push(layer);
        self.layers.len() - 1
    }

    /// Removes the layer at `index`, if there is one.
    pub fn remove(&mut self, index: usize)
        ensures
            final(self).layers_view() == if index < old(self).layers_view().len() {
                old(self).layers_view().remove(index as int)
            } else {
                old(self).layers_view()
            },
    {
        if index < self.layers.len() {
            let _gone: Layer<S> = self.layers.remove(index);
        }
    }

    /// Exchanges the layer at `index` with the one after it, if there is one.
    pub fn move_up(&mut self, index: usize)
        requires
            index < usize::MAX,
        ensures
            final(self).layers_view() == if index + 1 < old(self).layers_view().len() {
                exchanged(old(self).layers_view(), index as int, index + 1)
            } else {
                old(self).layers_view()
            },
    {
        let ghost orig = self.layers@;
        if index + 1 < self.layers.len() {
            let l: Layer<S> = self.layers.remove(index);
            self.layers.insert(index + 1, l);
            assert(self.layers@ =~= exchanged(orig, index as int, index + 1));
        }
    }

    /// Exchanges the layer at `index` with the one before it, if `index` is
    /// not the first position.
    pub fn move_down(&mut self, index: usize)
        requires
            index == 0 || index < old(self).layers_view().len(),
        ensures
            final(self).layers_view() == if index > 0 {
                exchanged(old(self).layers_view(), index as int, index - 1)
            } else {
                old(self).layers_view()
            },
    {
        let ghost orig = self.layers@;
        if index > 0 {
            let l: Layer<S> = self.layers.remove(index);
            self.layers.insert(index - 1, l);
            assert(self.layers@ =~= exchanged(orig, index as int, index - 1));
        }
    }

    /// The index of the first layer that holds the item `item_id`, if any.
    pub fn layer_for_item(&self, item_id: u128) -> (r: Option<usize>)
        ensures
            match r {
                Some(i) => {
                    &&& i < self.layers_view().len()
                    &&& self.layers_view()[i as int].item_ids@.contains(item_id)
                    &&& forall|j: int|
                        0 <= j < i ==> !self.layers_view()[j].item_ids@.contains(item_id)
                },
                None => forall|j: int|
                    0 <= j < self.layers_view().len() ==> !self.layers_view()[j].item_ids@.contains(
                        item_id,
                    ),
            },
    {
        let mut k: usize = 0;
        while k < self.layers.len()
            invariant
                k <= self.layers@.len(),
                forall|j: int| 0 <= j < k ==> !self.layers@[j].item_ids@.contains(item_id),
            decreases self.layers@.len() - k,
        {
            if self.layers[k].item_ids.contains(&item_id) {
                return Some(k);
            }
            k = k + 1;
        }
        None
    }

    /// Assigns the items `ids` to the layer at `layer_index`: they leave every
    /// layer and join that one, if it exists. Settings and order stay.
    pub fn assign_items(&mut self, layer_index: usize, ids: &[u128])
        ensures
            layer_settings(final(self).layers_view()) == layer_settings(old(self).layers_view()),
            member_sets(final(self).layers_view()) == assigned(
                member_sets(old(self).layers_view()),
                layer_index as int,
                ids@.to_set(),
            ),
    {
        let ghost orig = self.layers@;
        let ghost idset = ids@.to_set();
        let n: usize = self.layers.len();
        let mut k: usize = 0;
        while k < n
            invariant
                n == orig.len(),
                self.layers@.len() == n,
                k <= n,
                idset == ids@.to_set(),
                forall|i: int| 0 <= i < n ==> #[trigger] self.layers@[i].settings == orig[i].settings,
                forall|i: int|
                    0 <= i < k ==> #[trigger] self.layers@[i].item_ids@ == orig[i].item_ids@.difference(
                        idset,
                    ),
                forall|i: int| k <= i < n ==> #[trigger] self.layers@[i].item_ids@ == orig[i].item_ids@,
            decreases n - k,
        {
            let layer: &mut Layer<S> = &mut self.layers[k];
            let mut t: usize = 0;
            while t < ids.len()
                invariant
                    t <= ids@.len(),
                    layer.settings == orig[k as int].settings,
                    layer.item_ids@ == orig[k as int].item_ids@.difference(ids@.take(t as int).to_set()),
                decreases ids@.len() - t,
            {
                layer.item_ids.remove(&ids[t]);
                assert(layer.item_ids@ =~= orig[k as int].item_ids@.difference(
                    ids@.take(t + 1).to_set(),
                )) by {
                    assert(ids@.take(t + 1) =~= ids@.take(t as int).push(ids@[t as int]));
                    ids@.take(t as int).lemma_push_to_set_commute(ids@[t as int]);
                }
                t = t + 1;
            }
            assert(ids@.take(ids@.len() as int) =~= ids@);
            k = k + 1;
        }
        if layer_index < n {
            let layer: &mut Layer<S> = &mut self.layers[layer_index];
            let ghost base = layer.item_ids@;
            let mut t: usize = 0;
            while t < ids.len()
                invariant
                    t <= ids@.len(),
                    layer.settings == orig[layer_index as int].settings,
                    layer.item_ids@ == base.union(ids@.take(t as int).to_set()),
                decreases ids@.len() - t,
            {
                layer.item_ids.insert(ids[t]);
                assert(layer.item_ids@ =~= base.union(ids@.take(t + 1).to_set())) by {
                    assert(ids@.take(t + 1) =~= ids@.take(t as int).push(ids@[t as int]));
                    ids@.take(t as int).lemma_push_to_set_commute(ids@[t as int]);
                }
                t = t + 1;
            }
            assert(ids@.take(ids@.len() as int) =~= ids@);
        }
        assert(member_sets(self.layers@) =~= assigned(member_sets(orig), layer_index as int, idset));
        assert(layer_settings(self.layers@) =~= layer_settings(orig));
    }
}

/// Raising a layer and then lowering it from its new place restores the
/// order.
pub proof fn lemma_move_up_then_down<A>(s: Seq<A>, i: int)
    requires
        0 <= i,
        i + 1 < s.len(),
    ensures
        exchanged(exchanged(s, i, i + 1), i + 1, i) == s,
{
    assert(exchanged(exchanged(s, i, i + 1), i + 1, i) =~= s);
}

/// After an assignment to an existing layer, each assigned item is on that
/// layer and on no other.
pub proof fn lemma_assigned_items_on_target(
    sets: Seq<Set<u128>>,
    target: int,
    ids: Set<u128>,
    id: u128,
    i: int,
)
    requires
        0 <= target < sets.len(),
        0 <= i < sets.len(),
        ids.contains(id),
    ensures
        assigned(sets, target, ids)[i].contains(id) <==> i == target,
{
}

/// Assigning items keeps every item on at most one layer.
pub proof fn lemma_assign_keeps_disjoint(sets: Seq<Set<u128>>, target: int, ids: Set<u128>)
    requires
        disjoint_layers(sets),
    ensures
        disjoint_layers(assigned(sets, target, ids)),
{
    let a = assigned(sets, target, ids);
    assert forall|i: int, j: int, id: u128|
        0 <= i < a.len() && 0 <= j < a.len() && i != j && #[trigger] a[i].contains(id) implies !#[trigger] a[j].contains(
        id,
    ) by {
        if ids.contains(id) {
        } else {
            assert(sets[i].contains(id));
        }
    }
}

/// Removing a layer or exchanging two layers keeps every item on at most
/// one layer.
pub proof fn lemma_reorder_keeps_disjoint(sets: Seq<Set<u128>>, i: int, j: int)
    requires
        disjoint_layers(sets),
        0 <= i < sets.len(),
        0 <= j < sets.len(),
    ensures
        disjoint_layers(sets.remove(i)),
        disjoint_layers(exchanged(sets, i, j)),
{
    let r = sets.remove(i);
    assert forall|a: int, b: int, id: u128|
        0 <= a < r.len() && 0 <= b < r.len() && a != b && #[trigger] r[a].contains(id) implies !#[trigger] r[b].contains(
        id,
    ) by {
        let a0 = if a < i { a } else { a + 1 };
        let b0 = if b < i { b } else { b + 1 };
        assert(r[a] == sets[a0]);
        assert(r[b] == sets[b0]);
    }
    let e = exchanged(sets, i, j);
    assert forall|a: int, b: int, id: u128|
        0 <= a < e.len() && 0 <= b < e.len() && a != b && #[trigger] e[a].contains(id) implies !#[trigger] e[b].contains(
        id,
    ) by {
        let a0 = if a == j { i } else if a == i { j } else { a };
        let b0 = if b == j { i } else if b == i { j } else { b };
        assert(e[a] == sets[a0]);
        assert(e[b] == sets[b0]);
    }
}

} // verus!
