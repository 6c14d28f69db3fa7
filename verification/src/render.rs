//! What there is to draw, in the order in which to draw it. The drawing
//! itself is left to the caller.

use crate::components::{Position, Renderable};
use crate::ecs::Entity;
use crate::world::World;
use vstd::prelude::*;

verus! {

/// An entity's place and look.
pub type Drawn = (Position, Renderable);

/// Those of the first `n` entities that have both a place and a look, in
/// the order of their identities.
pub open spec fn drawable(w: World, n: int) -> Seq<Drawn>
    decreases n,
{
    if n <= 0 {
        Seq::empty()
    } else if w.positions@.contains_key(n - 1) && w.renderables@.contains_key(n - 1) {
        drawable(w, n - 1).push((w.positions@[n - 1], w.renderables@[n - 1]))
    } else {
        drawable(w, n - 1)
    }
}

/// `list` with `item` put in behind everything that is drawn no later
/// than it: before the first entry of lower render order.
pub open spec fn put_in_order(list: Seq<Drawn>, item: Drawn) -> Seq<Drawn>
    decreases list.len(),
{
    if list.len() == 0 {
        seq![item]
    } else if list[0].1.render_order < item.1.render_order {
        seq![item] + list
    } else {
        seq![list[0]] + put_in_order(list.drop_first(), item)
    }
}

/// `list` in drawing order: by falling render order, and among equals in
/// the order of `list`.
pub open spec fn in_draw_order(list: Seq<Drawn>) -> Seq<Drawn>
    decreases list.len(),
{
    if list.len() == 0 {
        Seq::empty()
    } else {
        put_in_order(in_draw_order(list.drop_last()), list.last())
    }
}

/// Whether the render order never rises along `list`.
pub open spec fn falls(list: Seq<Drawn>) -> bool {
    forall|i: int, j: int|
        0 <= i < j < list.len() ==> (#[trigger] list[i]).1.render_order >= (
        #[trigger] list[j]).1.render_order
}

/// Putting an item in at the first entry of lower render order is putting
/// it in order.
pub proof fn lemma_put_at(list: Seq<Drawn>, item: Drawn, at: int)
    requires
        0 <= at <= list.len(),
        forall|a: int| 0 <= a < at ==> (#[trigger] list[a]).1.render_order >= item.1.render_order,
        at < list.len() ==> list[at].1.render_order < item.1.render_order,
    ensures
        put_in_order(list, item) == list.insert(at, item),
    decreases at,
{
    if list.len() == 0 {
        assert(list.insert(at, item) =~= seq![item]);
    } else if at == 0 {
        assert(list.insert(0, item) =~= seq![item] + list);
    } else {
        let rest = list.drop_first();
        assert forall|a: int| 0 <= a < at - 1 implies (#[trigger] rest[a]).1.render_order
            >= item.1.render_order by {
            assert(rest[a] == list[a + 1]);
        }
        lemma_put_at(rest, item, at - 1);
        assert(list[0].1.render_order >= item.1.render_order);
        assert(list.insert(at, item) =~= seq![list[0]] + rest.insert(at - 1, item));
    }
}

/// Putting an item in order keeps a falling list falling, and adds the
/// item to what the list holds and nothing else.
pub proof fn lemma_put_in_order(list: Seq<Drawn>, item: Drawn)
    requires
        falls(list),
    ensures
        falls(put_in_order(list, item)),
        put_in_order(list, item).to_multiset() == list.to_multiset().insert(item),
        put_in_order(list, item).len() == list.len() + 1,
    decreases list.len(),
{
    broadcast use vstd::seq_lib::group_to_multiset_ensures;

    let out = put_in_order(list, item);
    if list.len() == 0 {
        assert(list =~= Seq::<Drawn>::empty());
        assert(out =~= Seq::<Drawn>::empty().push(item));
    } else if list[0].1.render_order < item.1.render_order {
        assert(out =~= list.insert(0, item));
        assert forall|i: int, j: int| 0 <= i < j < out.len() implies (
        #[trigger] out[i]).1.render_order >= (#[trigger] out[j]).1.render_order by {
            if i == 0 {
                assert(out[j] == list[j - 1]);
                assert(list[0].1.render_order >= list[j - 1].1.render_order || j - 1 == 0);
            } else {
                assert(out[i] == list[i - 1] && out[j] == list[j - 1]);
            }
        }
    } else {
        let rest = list.drop_first();
        assert forall|i: int, j: int| 0 <= i < j < rest.len() implies (
        #[trigger] rest[i]).1.render_order >= (#[trigger] rest[j]).1.render_order by {
            assert(rest[i] == list[i + 1] && rest[j] == list[j + 1]);
        }
        lemma_put_in_order(rest, item);
        let tail = put_in_order(rest, item);
        assert(out =~= tail.insert(0, list[0]));
        assert(list =~= rest.insert(0, list[0]));
        assert forall|i: int, j: int| 0 <= i < j < out.len() implies (
        #[trigger] out[i]).1.render_order >= (#[trigger] out[j]).1.render_order by {
            if i == 0 {
                assert(out[j] == tail[j - 1]);
                assert(tail.to_multiset().contains(tail[j - 1]));
                if tail[j - 1] != item {
                    assert(rest.to_multiset().contains(tail[j - 1]));
                    assert(rest.contains(tail[j - 1]));
                    let a = choose|a: int| 0 <= a < rest.len() && rest[a] == tail[j - 1];
                    assert(list[a + 1] == rest[a]);
                }
            } else {
                assert(out[i] == tail[i - 1] && out[j] == tail[j - 1]);
            }
        }
        assert(out.to_multiset() =~= list.to_multiset().insert(item));
    }
}

/// The drawing order falls, and holds what the list held and nothing
/// else.
pub proof fn lemma_draw_order(list: Seq<Drawn>)
    ensures
        falls(in_draw_order(list)),
        in_draw_order(list).to_multiset() == list.to_multiset(),
        in_draw_order(list).len() == list.len(),
    decreases list.len(),
{
    broadcast use vstd::seq_lib::group_to_multiset_ensures;

    if list.len() == 0 {
        assert(list =~= Seq::<Drawn>::empty());
    } else {
        lemma_draw_order(list.drop_last());
        lemma_put_in_order(in_draw_order(list.drop_last()), list.last());
        assert(list =~= list.drop_last().push(list.last()));
    }
}

/// The place and look of everything that has both, in drawing order: by
/// falling render order, so that what is drawn last lies on top, and among
/// equals by rising identity.
pub fn render_list(world: &World) -> (list: Vec<Drawn>)
    ensures
        list@ == in_draw_order(drawable(*world, world.positions.bound())),
        falls(list@),
        list@.to_multiset() == drawable(*world, world.positions.bound()).to_multiset(),
{
    let mut list: Vec<Drawn> = Vec::new();
    let n: usize = world.positions.limit();
    let mut i: usize = 0;
    while i < n
        invariant
            i <= n,
            n == world.positions.bound(),
            list@ == in_draw_order(drawable(*world, i as int)),
        decreases n - i,
    {
        let entity = Entity { id: i };
        let place: Option<Position> = match world.positions.get(entity) {
            Some(p) => Some(*p),
            None => None,
        };
        let look: Option<Renderable> = match world.renderables.get(entity) {
            Some(r) => Some(*r),
            None => None,
        };
        if place.is_some() && look.is_some() {
            let item: Drawn = (place.unwrap(), look.unwrap());
            let mut at: usize = 0;
            while at < list.len() && list[at].1.render_order >= item.1.render_order
                invariant
                    at <= list@.len(),
                    forall|a: int|
                        0 <= a < at ==> (#[trigger] list@[a]).1.render_order
                            >= item.1.render_order,
                decreases list@.len() - at,
            {
                at = at + 1;
            }
            proof {
                lemma_put_at(list@, item, at as int);
                assert(drawable(*world, i as int + 1).drop_last() =~= drawable(*world, i as int));
            }
            list.insert(at, item);
        }
        i = i + 1;
    }
    proof {
        lemma_draw_order(drawable(*world, n as int));
    }
    list
}

} // verus!
