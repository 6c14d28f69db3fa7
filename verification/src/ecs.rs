//! The entity/component store: entity identities, their liveness, and one
//! typed storage per component kind, keyed by entity identity.

use vstd::prelude::*;

verus! {

/// An opaque identity. It carries no data of its own; all state lives in
/// components addressed by it. Identities are never handed out twice.
#[derive(Clone, Copy, Debug, PartialEq, Eq, Hash, Structural)]
pub struct Entity {
    pub id: usize,
}

impl Entity {
    /// The identity as a mathematical integer, the key of every storage view.
    pub open spec fn key(self) -> int {
        self.id as int
    }
}

/// The identities of the entities in `list`.
pub open spec fn entity_keys(list: Seq<Entity>) -> Set<int> {
    Set::new(|k: int| exists|j: int| 0 <= j < list.len() && (#[trigger] list[j]).key() == k)
}

/// An empty list names no entity.
pub proof fn lemma_entity_keys_empty()
    ensures
        entity_keys(Seq::<Entity>::empty()) == Set::<int>::empty(),
{
    assert(entity_keys(Seq::<Entity>::empty()) =~= Set::<int>::empty());
}

/// A list with one more entity names that entity too.
pub proof fn lemma_entity_keys_push(list: Seq<Entity>, e: Entity)
    ensures
        entity_keys(list.push(e)) == entity_keys(list).insert(e.key()),
{
    let longer = list.push(e);
    assert forall|k: int| entity_keys(longer).contains(k) <==> entity_keys(list).insert(
        e.key(),
    ).contains(k) by {
        if entity_keys(longer).contains(k) {
            let j = choose|j: int| 0 <= j < longer.len() && (#[trigger] longer[j]).key() == k;
            if j < list.len() {
                assert(list[j].key() == k);
            }
        }
        if entity_keys(list).contains(k) {
            let j = choose|j: int| 0 <= j < list.len() && (#[trigger] list[j]).key() == k;
            assert(longer[j].key() == k);
        }
        if k == e.key() {
            assert(longer[list.len() as int].key() == k);
        }
    }
    assert(entity_keys(longer) =~= entity_keys(list).insert(e.key()));
}

/// Whether the two stores hold the same for entity `id`: nothing in both,
/// or the same component.
pub open spec fn agree_at<T>(a: Map<int, T>, b: Map<int, T>, id: int) -> bool {
    a.contains_key(id) == b.contains_key(id) && (b.contains_key(id) ==> a[id] == b[id])
}

/// Two stores that hold the same but for the entities in `ids` hold the
/// same for every entity outside `ids`.
pub proof fn lemma_agree_outside<T>(a: Map<int, T>, b: Map<int, T>, ids: Set<int>, id: int)
    requires
        a.remove_keys(ids) == b.remove_keys(ids),
        !ids.contains(id),
    ensures
        agree_at(a, b, id),
{
    assert(a.remove_keys(ids).contains_key(id) == a.contains_key(id));
    assert(b.remove_keys(ids).contains_key(id) == b.contains_key(id));
    if a.contains_key(id) {
        assert(a.remove_keys(ids)[id] == a[id]);
        assert(b.remove_keys(ids)[id] == b[id]);
    }
}

/// Holding the same but for some entities carries over two steps, and to
/// any larger set of exceptions.
pub proof fn lemma_agree_compose<T>(
    pre: Map<int, T>,
    mid: Map<int, T>,
    post: Map<int, T>,
    first: Set<int>,
    second: Set<int>,
    all: Set<int>,
)
    requires
        mid.remove_keys(first) == pre.remove_keys(first),
        post.remove_keys(second) == mid.remove_keys(second),
        first.subset_of(all),
        second.subset_of(all),
    ensures
        post.remove_keys(all) == pre.remove_keys(all),
{
    assert forall|k: int| !all.contains(k) implies agree_at(post, pre, k) by {
        lemma_agree_outside(mid, pre, first, k);
        lemma_agree_outside(post, mid, second, k);
    }
    assert(post.remove_keys(all) =~= pre.remove_keys(all));
}

/// A store holds for every entity that is not removed what it held
/// before.
pub proof fn lemma_removed_agrees<T>(m: Map<int, T>, gone: Set<int>, id: int)
    requires
        !gone.contains(id),
    ensures
        agree_at(m.remove_keys(gone), m, id),
{
}

/// Removing the entities in `first` and then those in `second` removes
/// those in either.
pub proof fn lemma_removed_twice<T>(m: Map<int, T>, first: Set<int>, second: Set<int>)
    ensures
        m.remove_keys(first).remove_keys(second) == m.remove_keys(first.union(second)),
        m.remove_keys(Set::<int>::empty()) == m,
{
    assert(m.remove_keys(first).remove_keys(second) =~= m.remove_keys(first.union(second)));
    assert(m.remove_keys(Set::<int>::empty()) =~= m);
}

/// The live entities, and those whose removal was requested and waits for
/// the next commit point.
pub struct Entities {
    pub alive: Vec<bool>,
    pub doomed: Vec<Entity>,
}

impl Entities {
    /// Whether `e` was created and not yet removed.
    pub open spec fn is_live(&self, e: Entity) -> bool {
        e.id < self.alive@.len() && self.alive@[e.key()]
    }

    /// The identities of all live entities.
    pub open spec fn live_set(&self) -> Set<int> {
        Set::new(|i: int| 0 <= i < self.alive@.len() && self.alive@[i])
    }

    /// The number of identities handed out so far, live or not.
    pub open spec fn issued(&self) -> int {
        self.alive@.len() as int
    }

    /// No entities at all.
    pub fn new() -> (r: Self)
        ensures
            r.alive@.len() == 0,
            r.doomed@.len() == 0,
    {
        Entities { alive: Vec::new(), doomed: Vec::new() }
    }

    /// Number of identities handed out so far; every live identity is below it.
    pub fn len(&self) -> (n: usize)
        ensures
            n == self.issued(),
    {
        self.alive.len()
    }

    /// Whether `e` was created and not yet removed.
    pub fn is_alive(&self, e: Entity) -> (r: bool)
        ensures
            r == self.is_live(e),
    {
        e.id < self.alive.len() && self.alive[e.id]
    }

    /// Hands out a fresh identity and marks it live.
    pub fn create(&mut self) -> (e: Entity)
        ensures
            e.key() == old(self).issued(),
            final(self).alive@ == old(self).alive@.push(true),
            final(self).doomed == old(self).doomed,
    {
        let e = Entity { id: self.alive.len() };
        self.alive.push(true);
        e
    }

    /// Marks `e` dead at once. A dead or unknown identity is left as it is.
    pub fn kill(&mut self, e: Entity)
        ensures
            final(self).doomed == old(self).doomed,
            final(self).alive@.len() == old(self).alive@.len(),
            forall|i: int|
                0 <= i < old(self).alive@.len() ==> final(self).alive@[i] == (old(self).alive@[i]
                    && i != e.key()),
    {
        if e.id < self.alive.len() {
            self.alive[e.id] = false;
        }
    }

    /// Requests the removal of `e` at the next commit point. Until then `e`
    /// stays live and keeps its components.
    pub fn delete(&mut self, e: Entity)
        ensures
            final(self).alive == old(self).alive,
            final(self).doomed@ == old(self).doomed@.push(e),
    {
        self.doomed.push(e);
    }
}

/// One typed store for one kind of component: at most one value per entity.
pub struct Storage<T> {
    pub slots: Vec<Option<T>>,
}

impl<T> View for Storage<T> {
    type V = Map<int, T>;

    /// The stored components, keyed by entity identity.
    open spec fn view(&self) -> Map<int, T> {
        Map::new(
            |i: int| 0 <= i < self.slots@.len() && self.slots@[i] is Some,
            |i: int| self.slots@[i]->Some_0,
        )
    }
}

impl<T> Storage<T> {
    /// Every key of the view lies below this bound.
    pub open spec fn bound(&self) -> int {
        self.slots@.len() as int
    }

    /// The component of `id`, if it has one.
    pub open spec fn at(&self, id: int) -> Option<T> {
        if 0 <= id < self.slots@.len() {
            self.slots@[id]
        } else {
            None
        }
    }

    /// An empty storage.
    pub fn new() -> (s: Self)
        ensures
            s@ == Map::<int, T>::empty(),
            s.bound() == 0,
    {
        let s = Storage { slots: Vec::new() };
        assert(s@ =~= Map::<int, T>::empty());
        s
    }

    /// An exclusive upper bound on the identities that hold a component here.
    pub fn limit(&self) -> (n: usize)
        ensures
            n == self.bound(),
            forall|i: int| self@.contains_key(i) ==> 0 <= i < n,
    {
        self.slots.len()
    }

    /// Whether `e` has a component here.
    pub fn contains(&self, e: Entity) -> (r: bool)
        ensures
            r == self@.contains_key(e.key()),
    {
        e.id < self.slots.len() && self.slots[e.id].is_some()
    }

    /// The component of `e`, if it has one.
    pub fn get(&self, e: Entity) -> (r: Option<&T>)
        ensures
            r is Some <==> self@.contains_key(e.key()),
            r is Some ==> *r->Some_0 == self@[e.key()],
    {
        if e.id < self.slots.len() {
            self.slots[e.id].as_ref()
        } else {
            None
        }
    }

    /// The component of `e` for changing in place, if it has one.
    pub fn get_mut(&mut self, e: Entity) -> (r: Option<&mut T>)
        ensures
            r is Some <==> old(self)@.contains_key(e.key()),
            r is Some ==> *r->Some_0 == old(self)@[e.key()] && final(self)@ == old(self)@.insert(
                e.key(),
                *final(r->Some_0),
            ),
            r is None ==> *final(self) == *old(self),
            final(self).bound() == old(self).bound(),
    {
        if e.id < self.slots.len() && self.slots[e.id].is_some() {
            self.slots[e.id].as_mut()
        } else {
            None
        }
    }

    /// Attaches `value` to `e`, replacing and returning what was there.
    pub fn insert(&mut self, e: Entity, value: T) -> (prev: Option<T>)
        ensures
            final(self)@ == old(self)@.insert(e.key(), value),
            final(self)@.remove_keys(set![e.key()]) == old(self)@.remove_keys(set![e.key()]),
            prev == old(self).at(e.key()),
            final(self).bound() == if e.key() < old(self).bound() {
                old(self).bound()
            } else {
                e.key() + 1
            },
    {
        while self.slots.len() <= e.id
            invariant
                self@ == old(self)@,
                self.at(e.key()) == old(self).at(e.key()),
                old(self).bound() <= self.bound(),
                self.bound() <= old(self).bound() || self.bound() <= e.key() + 1,
            decreases e.id + 1 - self.slots.len(),
        {
            let ghost before = *self;
            self.slots.push(None);
            assert(self@ =~= before@);
        }
        let mut cell = Some(value);
        std::mem::swap(&mut self.slots[e.id], &mut cell);
        assert(self@ =~= old(self)@.insert(e.key(), value));
        assert(self@.remove_keys(set![e.key()]) =~= old(self)@.remove_keys(set![e.key()]));
        cell
    }

    /// Detaches and returns the component of `e`, if it has one.
    pub fn remove(&mut self, e: Entity) -> (prev: Option<T>)
        ensures
            final(self)@ == old(self)@.remove(e.key()),
            final(self)@ == old(self)@.remove_keys(set![e.key()]),
            prev == old(self).at(e.key()),
            final(self).bound() == old(self).bound(),
    {
        if e.id < self.slots.len() {
            let mut cell = None;
            std::mem::swap(&mut self.slots[e.id], &mut cell);
            assert(self@ =~= old(self)@.remove(e.key()));
            assert(self@ =~= old(self)@.remove_keys(set![e.key()]));
            cell
        } else {
            assert(self@ =~= old(self)@.remove(e.key()));
            assert(self@ =~= old(self)@.remove_keys(set![e.key()]));
            None
        }
    }

    /// Detaches every component.
    pub fn clear(&mut self)
        ensures
            final(self)@ == Map::<int, T>::empty(),
            final(self).bound() == 0,
    {
        self.slots.clear();
        assert(self@ =~= Map::<int, T>::empty());
    }
}

impl<T: Copy> Storage<T> {
    /// A copy of the storage.
    pub fn duplicate(&self) -> (copy: Self)
        ensures
            copy@ == self@,
            copy.bound() == self.bound(),
    {
        let mut slots: Vec<Option<T>> = Vec::new();
        let mut i: usize = 0;
        while i < self.slots.len()
            invariant
                i <= self.slots@.len(),
                slots@ == self.slots@.take(i as int),
            decreases self.slots@.len() - i,
        {
            let cell: Option<T> = self.slots[i];
            slots.push(cell);
            assert(self.slots@.take(i as int + 1) =~= self.slots@.take(i as int).push(cell));
            i = i + 1;
        }
        assert(self.slots@.take(i as int) =~= self.slots@);
        let copy = Storage { slots };
        assert(copy@ =~= self@);
        copy
    }
}

} // verus!
