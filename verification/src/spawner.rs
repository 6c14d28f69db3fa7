//! The spawner: building the player, the monsters and the items, each with
//! its own set of components.

use crate::components::{
    BlocksTile, Color, CombatStats, Consumable, Item, Monster, Name, Player, Position,
    ProvidesHealing, Renderable, Viewshed,
};
use crate::ecs::Entity;
use crate::map::{lemma_cell_index, lemma_index_cell};
use crate::rect::Rect;
use crate::world::{ComponentKind, World};
use vstd::prelude::*;

verus! {

/// A room holds fewer monsters than this.
pub const MAX_MONSTERS: i32 = 4;

/// A room holds fewer items than this.
pub const MAX_ITEMS: i32 = 2;

/// How often a free spot for one spawn is looked for before giving up.
pub const MAX_TRIES: i32 = 20;

/// The glyph of `c` in code page 437, as `rltk::to_cp437` gives it.
pub uninterp spec fn cp437(c: char) -> u16;

/// `rltk::to_cp437`: looks the character up in a fixed table and answers
/// with its glyph number, which is named `cp437`.
#[verifier::external_body]
pub(crate) fn to_cp437(c: char) -> (glyph: u16)
    ensures
        glyph == cp437(c),
{
    rltk::to_cp437(c)
}

/// The kinds of component that the player has.
pub open spec fn player_kinds() -> Set<ComponentKind> {
    set![
        ComponentKind::Position,
        ComponentKind::Renderable,
        ComponentKind::Player,
        ComponentKind::Viewshed,
        ComponentKind::Name,
        ComponentKind::CombatStats,
    ]
}

/// The kinds of component that a monster has.
pub open spec fn monster_kinds() -> Set<ComponentKind> {
    set![
        ComponentKind::Position,
        ComponentKind::Renderable,
        ComponentKind::Viewshed,
        ComponentKind::Monster,
        ComponentKind::Name,
        ComponentKind::BlocksTile,
        ComponentKind::CombatStats,
    ]
}

/// The kinds of component that a health potion has.
pub open spec fn potion_kinds() -> Set<ComponentKind> {
    set![
        ComponentKind::Position,
        ComponentKind::Renderable,
        ComponentKind::Name,
        ComponentKind::Item,
        ComponentKind::Consumable,
        ComponentKind::ProvidesHealing,
    ]
}

/// Whether the viewshed is that of a newborn: it reaches eight tiles, sees
/// nothing yet and waits to be brought up to date.
pub open spec fn fresh_view(v: Viewshed) -> bool {
    v.visible_tiles@.len() == 0 && v.range == 8 && v.dirty
}

/// Whether entity `k` is a player as it is born at `(x, y)`.
pub open spec fn is_player_at(w: World, k: int, x: i32, y: i32) -> bool {
    &&& w.holds_exactly(k, player_kinds())
    &&& w.positions@[k] == (Position { x, y })
    &&& w.renderables@[k] == (Renderable {
        glyph: cp437('@'),
        fg: Color::rgb(255, 255, 0),
        bg: Color::rgb(0, 0, 0),
        render_order: 0,
    })
    &&& fresh_view(w.viewsheds@[k])
    &&& w.names@[k].value@ == "Player"@
    &&& w.combat_stats@[k] == (CombatStats { max_hp: 30, hp: 30, defense: 2, power: 5 })
}

/// Whether entity `k` is a monster with the given glyph and name as it is
/// born at `(x, y)`.
pub open spec fn is_monster_at(w: World, k: int, x: i32, y: i32, glyph: u16, name: Seq<char>) -> bool {
    &&& w.holds_exactly(k, monster_kinds())
    &&& w.positions@[k] == (Position { x, y })
    &&& w.renderables@[k] == (Renderable {
        glyph,
        fg: Color::rgb(255, 0, 0),
        bg: Color::rgb(0, 0, 0),
        render_order: 1,
    })
    &&& fresh_view(w.viewsheds@[k])
    &&& w.names@[k].value@ == name
    &&& w.combat_stats@[k] == (CombatStats { max_hp: 16, hp: 16, defense: 1, power: 4 })
}

/// Whether entity `k` is a health potion as it is made at `(x, y)`.
pub open spec fn is_potion_at(w: World, k: int, x: i32, y: i32) -> bool {
    &&& w.holds_exactly(k, potion_kinds())
    &&& w.positions@[k] == (Position { x, y })
    &&& w.renderables@[k] == (Renderable {
        glyph: cp437('\u{a1}'),
        fg: Color::rgb(255, 0, 255),
        bg: Color::rgb(0, 0, 0),
        render_order: 2,
    })
    &&& w.names@[k].value@ == "Health Potion"@
    &&& w.provides_healing@[k] == (ProvidesHealing { heal_amount: 8 })
}

/// Whether `post` is `pre` with one more entity, the next in line, and
/// nothing else changed but the components of that entity.
pub open spec fn one_born(pre: World, post: World) -> bool {
    &&& post.entities.alive@ == pre.entities.alive@.push(true)
    &&& post.entities.doomed == pre.entities.doomed
    &&& post.same_except(pre, set![pre.entities.issued()])
    &&& post.same_resources(pre)
}

/// Spawns the player at `(player_x, player_y)` and returns it.
pub fn player(ecs: &mut World, player_x: i32, player_y: i32) -> (e: Entity)
    ensures
        e.key() == old(ecs).entities.issued(),
        one_born(*old(ecs), *final(ecs)),
        is_player_at(*final(ecs), e.key(), player_x, player_y),
{
    let e = ecs.create_entity();
    let ghost born = *ecs;
    ecs.positions.insert(e, Position { x: player_x, y: player_y });
    ecs.renderables.insert(
        e,
        Renderable {
            glyph: to_cp437('@'),
            fg: Color::yellow(),
            bg: Color::black(),
            render_order: 0,
        },
    );
    ecs.players.insert(e, Player {  });
    ecs.viewsheds.insert(e, Viewshed { visible_tiles: Vec::new(), range: 8, dirty: true });
    ecs.names.insert(e, Name { value: "Player".to_owned() });
    ecs.combat_stats.insert(e, CombatStats { max_hp: 30, hp: 30, defense: 2, power: 5 });
    proof {
        assert(born.bare(e.key()));
        assert forall|kind: ComponentKind| #[trigger]
            ecs.has(kind, e.key()) == player_kinds().contains(kind) by {}
    }
    e
}

/// Spawns an orc at `(x, y)`.
pub fn orc(ecs: &mut World, x: i32, y: i32)
    ensures
        one_born(*old(ecs), *final(ecs)),
        is_monster_at(*final(ecs), old(ecs).entities.issued(), x, y, cp437('o'), "Orc"@),
{
    monster(ecs, x, y, to_cp437('o'), "Orc")
}

/// Spawns a goblin at `(x, y)`.
pub fn goblin(ecs: &mut World, x: i32, y: i32)
    ensures
        one_born(*old(ecs), *final(ecs)),
        is_monster_at(*final(ecs), old(ecs).entities.issued(), x, y, cp437('g'), "Goblin"@),
{
    monster(ecs, x, y, to_cp437('g'), "Goblin")
}

/// Spawns a monster with the given glyph and name at `(x, y)`.
pub fn monster(ecs: &mut World, x: i32, y: i32, glyph: u16, name: &str)
    ensures
        one_born(*old(ecs), *final(ecs)),
        is_monster_at(*final(ecs), old(ecs).entities.issued(), x, y, glyph, name@),
{
    let e = ecs.create_entity();
    let ghost born = *ecs;
    ecs.positions.insert(e, Position { x, y });
    ecs.renderables.insert(
        e,
        Renderable { glyph, fg: Color::red(), bg: Color::black(), render_order: 1 },
    );
    ecs.viewsheds.insert(e, Viewshed { visible_tiles: Vec::new(), range: 8, dirty: true });
    ecs.monsters.insert(e, Monster {  });
    ecs.names.insert(e, Name { value: name.to_owned() });
    ecs.blockers.insert(e, BlocksTile {  });
    ecs.combat_stats.insert(e, CombatStats { max_hp: 16, hp: 16, defense: 1, power: 4 });
    proof {
        assert(born.bare(e.key()));
        assert forall|kind: ComponentKind| #[trigger]
            ecs.has(kind, e.key()) == monster_kinds().contains(kind) by {}
    }
}

/// Makes a health potion at `(x, y)`.
pub fn health_potion(ecs: &mut World, x: i32, y: i32)
    ensures
        one_born(*old(ecs), *final(ecs)),
        is_potion_at(*final(ecs), old(ecs).entities.issued(), x, y),
{
    let e = ecs.create_entity();
    let ghost born = *ecs;
    ecs.positions.insert(e, Position { x, y });
    ecs.renderables.insert(
        e,
        Renderable {
            glyph: to_cp437('\u{a1}'),
            fg: Color::magenta(),
            bg: Color::black(),
            render_order: 2,
        },
    );
    ecs.names.insert(e, Name { value: "Health Potion".to_owned() });
    ecs.items.insert(e, Item {  });
    ecs.consumables.insert(e, Consumable {  });
    ecs.provides_healing.insert(e, ProvidesHealing { heal_amount: 8 });
    proof {
        assert(born.bare(e.key()));
        assert forall|kind: ComponentKind| #[trigger]
            ecs.has(kind, e.key()) == potion_kinds().contains(kind) by {}
    }
}

/// Whether `post` is `pre` with one more entity, and nothing else changed
/// but the components of that entity and the state of the random source.
pub open spec fn one_born_by_chance(pre: World, post: World) -> bool {
    &&& post.entities.alive@ == pre.entities.alive@.push(true)
    &&& post.entities.doomed == pre.entities.doomed
    &&& post.same_except(pre, set![pre.entities.issued()])
    &&& post.map == pre.map
    &&& post.log == pre.log
    &&& post.player_pos == pre.player_pos
    &&& post.player_entity == pre.player_entity
    &&& post.run_state == pre.run_state
}

/// Spawns the monster that goes with a roll of a three-sided die at
/// `(x, y)`: an orc for a one, a goblin for anything else.
pub fn spawn_monster(ecs: &mut World, x: i32, y: i32, roll: i32)
    ensures
        one_born(*old(ecs), *final(ecs)),
        if roll == 1 {
            is_monster_at(*final(ecs), old(ecs).entities.issued(), x, y, cp437('o'), "Orc"@)
        } else {
            is_monster_at(*final(ecs), old(ecs).entities.issued(), x, y, cp437('g'), "Goblin"@)
        },
{
    match roll {
        1 => orc(ecs, x, y),
        _ => goblin(ecs, x, y),
    }
}

/// Spawns a monster at `(x, y)`: an orc or a goblin, as the dice fall.
pub fn random_monster(ecs: &mut World, x: i32, y: i32)
    ensures
        one_born_by_chance(*old(ecs), *final(ecs)),
        is_monster_at(*final(ecs), old(ecs).entities.issued(), x, y, cp437('o'), "Orc"@)
            || is_monster_at(
            *final(ecs),
            old(ecs).entities.issued(),
            x,
            y,
            cp437('g'),
            "Goblin"@,
        ),
{
    let roll: i32 = ecs.rng.roll_dice(1, 3);
    let ghost rolled = *ecs;
    assert(rolled.same_except(*old(ecs), set![old(ecs).entities.issued()]));
    spawn_monster(ecs, x, y, roll);
    proof {
        let only = set![old(ecs).entities.issued()];
        World::lemma_same_except_compose(*old(ecs), rolled, *ecs, only, only, only);
    }
}

/// Whether the tile with index `idx` of a generated map belongs to what
/// `room` carves out.
pub open spec fn point_in_room(room: Rect, idx: int) -> bool {
    0 <= idx < 4000 && room.carves(idx % 80, idx / 80)
}

/// Whether `room` lies on a generated map and has an inside.
pub open spec fn room_is_usable(room: Rect) -> bool {
    0 <= room.x1 < room.x2 < 80 && 0 <= room.y1 < room.y2 < 50
}

/// Whether `points` holds `idx`.
fn has_point(points: &Vec<usize>, idx: usize) -> (r: bool)
    ensures
        r == points@.contains(idx),
{
    let mut j: usize = 0;
    while j < points.len()
        invariant
            j <= points@.len(),
            forall|a: int| 0 <= a < j ==> points@[a] != idx,
        decreases points@.len() - j,
    {
        if points[j] == idx {
            return true;
        }
        j = j + 1;
    }
    false
}

/// The index of the tile of a generated map that lies `dx` to the right
/// of and `dy` below the corner of `room`.
pub open spec fn spot_in_room(room: Rect, dx: int, dy: int) -> int {
    (room.y1 + dy) * 80 + (room.x1 + dx)
}

/// Adds the tile that lies `dx` to the right of and `dy` below the corner
/// of `room` to `points`, unless it is among them already. Returns
/// whether it was added.
pub fn add_spawn_point(points: &mut Vec<usize>, room: &Rect, dx: i32, dy: i32) -> (added: bool)
    requires
        room_is_usable(*room),
        1 <= dx <= room.x2 - room.x1,
        1 <= dy <= room.y2 - room.y1,
    ensures
        added == !old(points)@.contains(spot_in_room(*room, dx as int, dy as int) as usize),
        final(points)@ == if added {
            old(points)@.push(spot_in_room(*room, dx as int, dy as int) as usize)
        } else {
            old(points)@
        },
        point_in_room(*room, spot_in_room(*room, dx as int, dy as int)),
{
    let x: usize = (room.x1 + dx) as usize;
    let y: usize = (room.y1 + dy) as usize;
    let idx: usize = (y * 80) + x;
    proof {
        lemma_cell_index(80, 50, x as int, y as int);
    }
    if !has_point(points, idx) {
        points.push(idx);
        true
    } else {
        false
    }
}

/// Picks up to `count` distinct tiles of the room by chance, looking for
/// each at most `MAX_TRIES` times.
fn pick_spawn_points(rng: &mut rltk::RandomNumberGenerator, room: &Rect, count: i32) -> (points:
    Vec<usize>)
    requires
        room_is_usable(*room),
    ensures
        count <= 0 ==> points@.len() == 0,
        count >= 1 ==> 1 <= points@.len() <= count,
        points@.no_duplicates(),
        forall|j: int| 0 <= j < points@.len() ==> point_in_room(*room, #[trigger] points@[j] as int),
{
    let mut points: Vec<usize> = Vec::new();
    let mut n: i32 = 0;
    while n < count
        invariant
            room_is_usable(*room),
            0 <= n <= count || n == 0,
            points@.len() <= n,
            n >= 1 ==> points@.len() >= 1,
            points@.no_duplicates(),
            forall|j: int|
                0 <= j < points@.len() ==> point_in_room(*room, #[trigger] points@[j] as int),
        decreases count - n,
    {
        let mut added = false;
        let mut tries: i32 = 0;
        while !added && tries < MAX_TRIES
            invariant
                room_is_usable(*room),
                0 <= tries <= MAX_TRIES,
                0 <= n < count,
                points@.len() <= n + if added {
                    1int
                } else {
                    0int
                },
                added || tries > 0 ==> points@.len() >= 1,
                points@.no_duplicates(),
                forall|j: int|
                    0 <= j < points@.len() ==> point_in_room(*room, #[trigger] points@[j] as int),
            decreases (if added { 0int } else { 1int }), MAX_TRIES - tries,
        {
            let dx: i32 = rng.roll_dice(1, room.x2 - room.x1);
            let dy: i32 = rng.roll_dice(1, room.y2 - room.y1);
            let ghost before = points@;
            if add_spawn_point(&mut points, room, dx, dy) {
                assert forall|i: int, j: int| 0 <= i < j < points@.len() implies points@[i]
                    != points@[j] by {
                    if j == before.len() {
                        assert(before[i] == points@[i]);
                    } else {
                        assert(before[i] == points@[i] && before[j] == points@[j]);
                    }
                }
                added = true;
            } else {
                // The spot is taken by a point picked before, so there is
                // one already.
                assert(before.len() >= 1);
                tries = tries + 1;
            }
        }
        n = n + 1;
    }
    points
}

/// Whether entity `k` is an orc, a goblin or a health potion as it is
/// born, on a tile that `room` carves out.
pub open spec fn inhabitant(w: World, k: int, room: Rect) -> bool {
    let p = w.positions@[k];
    &&& room.carves(p.x as int, p.y as int)
    &&& {
        ||| is_monster_at(w, k, p.x, p.y, cp437('o'), "Orc"@)
        ||| is_monster_at(w, k, p.x, p.y, cp437('g'), "Goblin"@)
        ||| is_potion_at(w, k, p.x, p.y)
    }
}

/// The identities handed out between `pre` and `post`.
pub open spec fn newborn(pre: World, post: World) -> Set<int> {
    Set::new(|k: int| pre.entities.issued() <= k < post.entities.issued())
}

/// Whether `post` is `pre` with new inhabitants of `room`: every entity
/// that is new is one, every other entity is as it was, and of the
/// resources only the random source has changed.
pub open spec fn peopled(pre: World, post: World, room: Rect) -> bool {
    &&& pre.entities.issued() <= post.entities.issued()
    &&& post.entities.alive@ == pre.entities.alive@ + Seq::new(
        (post.entities.issued() - pre.entities.issued()) as nat,
        |i: int| true,
    )
    &&& post.entities.doomed == pre.entities.doomed
    &&& post.same_except(pre, newborn(pre, post))
    &&& forall|k: int|
        pre.entities.issued() <= k < post.entities.issued() ==> #[trigger] inhabitant(post, k, room)
    &&& post.map == pre.map
    &&& post.log == pre.log
    &&& post.player_pos == pre.player_pos
    &&& post.player_entity == pre.player_entity
    &&& post.run_state == pre.run_state
}

/// An entity that is the same in two worlds holds the same kinds of
/// component in both.
pub proof fn lemma_kinds_stay(pre: World, post: World, k: int, kinds: Set<ComponentKind>)
    requires
        pre.holds_exactly(k, kinds),
        post.same_at(pre, k),
    ensures
        post.holds_exactly(k, kinds),
{
    assert forall|kind: ComponentKind| #[trigger] post.has(kind, k) == kinds.contains(kind) by {
        assert(pre.has(kind, k) == kinds.contains(kind));
    }
}

/// An entity that is the same in two worlds is a newborn player in both
/// or in neither.
pub proof fn lemma_player_stays(pre: World, post: World, k: int, x: i32, y: i32)
    requires
        is_player_at(pre, k, x, y),
        post.same_at(pre, k),
    ensures
        is_player_at(post, k, x, y),
{
    lemma_kinds_stay(pre, post, k, player_kinds());
    assert(pre.has(ComponentKind::Position, k));
    assert(pre.has(ComponentKind::Renderable, k));
    assert(pre.has(ComponentKind::Name, k));
    assert(pre.has(ComponentKind::Viewshed, k));
    assert(pre.has(ComponentKind::CombatStats, k));
}

/// An entity that is the same in two worlds is an inhabitant of a room in
/// both or in neither.
pub proof fn lemma_inhabitant_stays(pre: World, post: World, k: int, room: Rect)
    requires
        inhabitant(pre, k, room),
        post.same_at(pre, k),
    ensures
        inhabitant(post, k, room),
{
    let p = pre.positions@[k];
    if is_monster_at(pre, k, p.x, p.y, cp437('o'), "Orc"@) || is_monster_at(
        pre,
        k,
        p.x,
        p.y,
        cp437('g'),
        "Goblin"@,
    ) {
        lemma_kinds_stay(pre, post, k, monster_kinds());
        assert(pre.has(ComponentKind::Position, k));
        assert(pre.has(ComponentKind::Renderable, k));
        assert(pre.has(ComponentKind::Name, k));
        assert(pre.has(ComponentKind::Viewshed, k));
        assert(pre.has(ComponentKind::CombatStats, k));
    } else {
        lemma_kinds_stay(pre, post, k, potion_kinds());
        assert(pre.has(ComponentKind::Position, k));
        assert(pre.has(ComponentKind::Renderable, k));
        assert(pre.has(ComponentKind::Name, k));
        assert(pre.has(ComponentKind::ProvidesHealing, k));
    }
}

/// One more inhabitant keeps a room peopled.
proof fn lemma_peopled_step(pre: World, mid: World, post: World, room: Rect)
    requires
        peopled(pre, mid, room),
        one_born_by_chance(mid, post),
        inhabitant(post, mid.entities.issued(), room),
    ensures
        peopled(pre, post, room),
{
    let k = mid.entities.issued();
    World::lemma_same_except_compose(
        pre,
        mid,
        post,
        newborn(pre, mid),
        set![k],
        newborn(pre, post),
    );
    assert(post.entities.alive@ =~= pre.entities.alive@ + Seq::new(
        (post.entities.issued() - pre.entities.issued()) as nat,
        |i: int| true,
    ));
    assert forall|j: int| pre.entities.issued() <= j < post.entities.issued() implies #[trigger] inhabitant(
        post,
        j,
        room,
    ) by {
        if j < k {
            post.lemma_same_except_at(mid, set![k], j);
            lemma_inhabitant_stays(mid, post, j, room);
        }
    }
}

/// Whether entity `k` stands on the tile with index `idx` of a generated
/// map.
pub open spec fn stands_at(w: World, k: int, idx: int) -> bool {
    w.positions@.contains_key(k) && w.positions@[k].x == idx % 80 && w.positions@[k].y == idx / 80
}

/// Whether entity `k` is a monster that stands on the tile with index
/// `idx` of a generated map.
pub open spec fn monster_at(w: World, k: int, idx: int) -> bool {
    w.monsters@.contains_key(k) && stands_at(w, k, idx)
}

/// Whether entity `k` is an item that lies on the tile with index `idx`
/// of a generated map.
pub open spec fn item_at(w: World, k: int, idx: int) -> bool {
    w.items@.contains_key(k) && stands_at(w, k, idx)
}

/// Whether the entities that are new in `post` are first `monsters`
/// monsters and then items, fewer than `MAX_MONSTERS` of the one and fewer
/// than `MAX_ITEMS` of the other, with no two monsters on one tile and no
/// two items on one tile.
pub open spec fn sparingly(pre: World, post: World, monsters: int) -> bool {
    let base = pre.entities.issued();
    let end = post.entities.issued();
    &&& 0 <= monsters <= MAX_MONSTERS - 1
    &&& base + monsters <= end <= base + monsters + MAX_ITEMS - 1
    &&& forall|k: int| base <= k < base + monsters ==> #[trigger] post.monsters@.contains_key(k)
    &&& forall|k: int| base + monsters <= k < end ==> #[trigger] post.items@.contains_key(k)
    &&& forall|a: int, b: int|
        base <= a < b < base + monsters ==> #[trigger] post.positions@[a]
            != #[trigger] post.positions@[b]
    &&& forall|a: int, b: int|
        base + monsters <= a < b < end ==> #[trigger] post.positions@[a]
            != #[trigger] post.positions@[b]
}

/// Two tiles of a generated map with the same coordinates are one tile.
proof fn lemma_one_tile(a: int, b: int)
    requires
        0 <= a < 4000,
        0 <= b < 4000,
        a % 80 == b % 80,
        a / 80 == b / 80,
    ensures
        a == b,
{
    lemma_index_cell(80, 50, a);
    lemma_index_cell(80, 50, b);
}

/// Fills `room` with monsters and items: fewer than `MAX_MONSTERS`
/// monsters and fewer than `MAX_ITEMS` health potions, each on a tile of
/// its own among those that the room carves out. How many there are, and
/// where, is left to chance. A room that does not lie on a generated map,
/// or has no inside, is left empty, and no dice are rolled for it.
pub fn spawn_room(ecs: &mut World, room: &Rect)
    ensures
        peopled(*old(ecs), *final(ecs), *room),
        exists|monsters: int| #[trigger] sparingly(*old(ecs), *final(ecs), monsters),
        !room_is_usable(*room) ==> *final(ecs) == *old(ecs),
{
    if !(0 <= room.x1 && room.x1 < room.x2 && room.x2 < 80 && 0 <= room.y1 && room.y1 < room.y2
        && room.y2 < 50) {
        proof {
            World::lemma_purged_none(*ecs);
            assert(newborn(*ecs, *ecs) =~= Set::<int>::empty());
            assert(ecs.entities.alive@ =~= ecs.entities.alive@ + Seq::new(0nat, |i: int| true));
            assert(sparingly(*ecs, *ecs, 0));
        }
        return;
    }
    let num_monsters: i32 = ecs.rng.roll_dice(1, MAX_MONSTERS + 2) - 3;
    let num_items: i32 = ecs.rng.roll_dice(1, MAX_ITEMS + 2) - 3;
    let monster_spawn_points = pick_spawn_points(&mut ecs.rng, room, num_monsters);
    let item_spawn_points = pick_spawn_points(&mut ecs.rng, room, num_items);
    let ghost base = old(ecs).entities.issued();
    proof {
        assert(ecs.same_except(*old(ecs), newborn(*old(ecs), *ecs)));
        assert(ecs.entities.alive@ =~= old(ecs).entities.alive@ + Seq::new(
            0nat,
            |i: int| true,
        ));
    }
    let mut m: usize = 0;
    while m < monster_spawn_points.len()
        invariant
            m <= monster_spawn_points@.len(),
            room_is_usable(*room),
            base == old(ecs).entities.issued(),
            forall|j: int|
                0 <= j < monster_spawn_points@.len() ==> point_in_room(
                    *room,
                    #[trigger] monster_spawn_points@[j] as int,
                ),
            peopled(*old(ecs), *ecs, *room),
            ecs.entities.issued() == base + m,
            forall|j: int|
                0 <= j < m ==> #[trigger] monster_at(
                    *ecs,
                    base + j,
                    monster_spawn_points@[j] as int,
                ),
        decreases monster_spawn_points@.len() - m,
    {
        let idx: usize = monster_spawn_points[m];
        assert(point_in_room(*room, idx as int));
        let x: i32 = (idx % 80) as i32;
        let y: i32 = (idx / 80) as i32;
        let ghost before = *ecs;
        random_monster(ecs, x, y);
        proof {
            lemma_peopled_step(*old(ecs), before, *ecs, *room);
            assert(ecs.has(ComponentKind::Monster, base + m));
            assert(ecs.has(ComponentKind::Position, base + m));
            assert forall|j: int| 0 <= j < m + 1 implies #[trigger] monster_at(
                *ecs,
                base + j,
                monster_spawn_points@[j] as int,
            ) by {
                if j < m {
                    ecs.lemma_same_except_at(before, set![base + m], base + j);
                    assert(monster_at(before, base + j, monster_spawn_points@[j] as int));
                }
            }
        }
        m = m + 1;
    }
    let ghost monsters: int = m as int;
    let mut i: usize = 0;
    while i < item_spawn_points.len()
        invariant
            i <= item_spawn_points@.len(),
            room_is_usable(*room),
            base == old(ecs).entities.issued(),
            monsters == monster_spawn_points@.len(),
            forall|j: int|
                0 <= j < item_spawn_points@.len() ==> point_in_room(
                    *room,
                    #[trigger] item_spawn_points@[j] as int,
                ),
            peopled(*old(ecs), *ecs, *room),
            ecs.entities.issued() == base + monsters + i,
            forall|j: int|
                0 <= j < monsters ==> #[trigger] monster_at(
                    *ecs,
                    base + j,
                    monster_spawn_points@[j] as int,
                ),
            forall|j: int|
                0 <= j < i ==> #[trigger] item_at(
                    *ecs,
                    base + monsters + j,
                    item_spawn_points@[j] as int,
                ),
        decreases item_spawn_points@.len() - i,
    {
        let idx: usize = item_spawn_points[i];
        assert(point_in_room(*room, idx as int));
        let x: i32 = (idx % 80) as i32;
        let y: i32 = (idx / 80) as i32;
        let ghost before = *ecs;
        health_potion(ecs, x, y);
        proof {
            lemma_peopled_step(*old(ecs), before, *ecs, *room);
            let k = base + monsters + i;
            assert(ecs.has(ComponentKind::Item, k));
            assert(ecs.has(ComponentKind::Position, k));
            assert forall|j: int| 0 <= j < monsters implies #[trigger] monster_at(
                *ecs,
                base + j,
                monster_spawn_points@[j] as int,
            ) by {
                ecs.lemma_same_except_at(before, set![k], base + j);
                assert(monster_at(before, base + j, monster_spawn_points@[j] as int));
            }
            assert forall|j: int| 0 <= j < i + 1 implies #[trigger] item_at(
                *ecs,
                base + monsters + j,
                item_spawn_points@[j] as int,
            ) by {
                if j < i {
                    ecs.lemma_same_except_at(before, set![k], base + monsters + j);
                    assert(item_at(before, base + monsters + j, item_spawn_points@[j] as int));
                }
            }
        }
        i = i + 1;
    }
    proof {
        let end = ecs.entities.issued();
        assert forall|a: int, b: int| base <= a < b < base + monsters implies #[trigger] ecs.positions@[a]
            != #[trigger] ecs.positions@[b] by {
            let pa = monster_spawn_points@[a - base] as int;
            let pb = monster_spawn_points@[b - base] as int;
            assert(monster_at(*ecs, base + (a - base), pa) && monster_at(*ecs, base + (b - base), pb));
            assert(point_in_room(*room, pa) && point_in_room(*room, pb));
            if ecs.positions@[a] == ecs.positions@[b] {
                lemma_one_tile(pa, pb);
            }
        }
        assert forall|a: int, b: int| base + monsters <= a < b < end implies #[trigger] ecs.positions@[a]
            != #[trigger] ecs.positions@[b] by {
            let pa = item_spawn_points@[a - base - monsters] as int;
            let pb = item_spawn_points@[b - base - monsters] as int;
            assert(item_at(*ecs, base + monsters + (a - base - monsters), pa) && item_at(
                *ecs,
                base + monsters + (b - base - monsters),
                pb,
            ));
            assert(point_in_room(*room, pa) && point_in_room(*room, pb));
            if ecs.positions@[a] == ecs.positions@[b] {
                lemma_one_tile(pa, pb);
            }
        }
        assert forall|k: int| base <= k < base + monsters implies #[trigger] ecs.monsters@.contains_key(
            k,
        ) by {
            assert(monster_at(*ecs, base + (k - base), monster_spawn_points@[k - base] as int));
        }
        assert forall|k: int| base + monsters <= k < end implies #[trigger] ecs.items@.contains_key(
            k,
        ) by {
            assert(item_at(
                *ecs,
                base + monsters + (k - base - monsters),
                item_spawn_points@[k - base - monsters] as int,
            ));
        }
        assert(sparingly(*old(ecs), *ecs, monsters));
    }
}

/// Whether entity `k` is an inhabitant of one of the rooms of the map of
/// `w` that come after the first.
pub open spec fn lives_in_a_room(w: World, k: int) -> bool {
    exists|r: int| 1 <= r < w.map.rooms@.len() && inhabitant(w, k, #[trigger] w.map.rooms@[r])
}

/// Whether `post` is `pre` with the rooms of its map peopled: every entity
/// that is new is an inhabitant of a room after the first, every other
/// entity is as it was, and of the resources only the random source has
/// changed.
pub open spec fn settled(pre: World, post: World) -> bool {
    &&& pre.entities.issued() <= post.entities.issued()
    &&& post.entities.alive@ == pre.entities.alive@ + Seq::new(
        (post.entities.issued() - pre.entities.issued()) as nat,
        |i: int| true,
    )
    &&& post.entities.doomed == pre.entities.doomed
    &&& post.same_except(pre, newborn(pre, post))
    &&& forall|k: int|
        pre.entities.issued() <= k < post.entities.issued() ==> #[trigger] lives_in_a_room(post, k)
    &&& post.map == pre.map
    &&& post.log == pre.log
    &&& post.player_pos == pre.player_pos
    &&& post.player_entity == pre.player_entity
    &&& post.run_state == pre.run_state
}

/// A room that is peopled keeps a map settled.
proof fn lemma_settled_step(pre: World, mid: World, post: World, r: int)
    requires
        settled(pre, mid),
        1 <= r < mid.map.rooms@.len(),
        peopled(mid, post, mid.map.rooms@[r]),
    ensures
        settled(pre, post),
{
    World::lemma_same_except_compose(
        pre,
        mid,
        post,
        newborn(pre, mid),
        newborn(mid, post),
        newborn(pre, post),
    );
    assert(post.entities.alive@ =~= pre.entities.alive@ + Seq::new(
        (post.entities.issued() - pre.entities.issued()) as nat,
        |i: int| true,
    ));
    assert forall|k: int| pre.entities.issued() <= k < post.entities.issued() implies #[trigger] lives_in_a_room(
        post,
        k,
    ) by {
        if k < mid.entities.issued() {
            assert(lives_in_a_room(mid, k));
            let q = choose|q: int|
                1 <= q < mid.map.rooms@.len() && inhabitant(mid, k, #[trigger] mid.map.rooms@[q]);
            post.lemma_same_except_at(mid, newborn(mid, post), k);
            lemma_inhabitant_stays(mid, post, k, mid.map.rooms@[q]);
            assert(inhabitant(post, k, post.map.rooms@[q]));
        } else {
            assert(inhabitant(post, k, post.map.rooms@[r]));
        }
    }
}

/// Peoples every room of the map but the first, which is left to the
/// player.
pub fn populate(ecs: &mut World)
    ensures
        settled(*old(ecs), *final(ecs)),
        exists|steps: Seq<World>| #[trigger] rooms_filled(*old(ecs), steps, *final(ecs)),
{
    let mut r: usize = 1;
    let ghost mut steps: Seq<World> = seq![*ecs];
    proof {
        assert(ecs.entities.alive@ =~= old(ecs).entities.alive@ + Seq::new(
            0nat,
            |i: int| true,
        ));
        assert(newborn(*old(ecs), *ecs) =~= Set::<int>::empty());
        World::lemma_purged_none(*old(ecs));
    }
    while r < ecs.map.rooms.len()
        invariant
            1 <= r,
            r <= ecs.map.rooms@.len() || r == 1,
            settled(*old(ecs), *ecs),
            steps.len() == r,
            steps[0] == *old(ecs),
            steps[r - 1] == *ecs,
            forall|q: int|
                1 <= q < r ==> room_filled(steps[q - 1], #[trigger] steps[q], old(ecs).map.rooms@[q]),
        decreases ecs.map.rooms@.len() - r,
    {
        let room: Rect = ecs.map.rooms[r];
        let ghost before = *ecs;
        let ghost earlier = steps;
        spawn_room(ecs, &room);
        proof {
            lemma_settled_step(*old(ecs), before, *ecs, r as int);
            assert(room_filled(before, *ecs, room));
            steps = earlier.push(*ecs);
            assert forall|q: int| 1 <= q < r + 1 implies room_filled(
                steps[q - 1],
                #[trigger] steps[q],
                old(ecs).map.rooms@[q],
            ) by {
                if q < r {
                    assert(steps[q] == earlier[q] && steps[q - 1] == earlier[q - 1]);
                    assert(room_filled(earlier[q - 1], earlier[q], old(ecs).map.rooms@[q]));
                } else {
                    assert(steps[q - 1] == before);
                }
            }
        }
        r = r + 1;
    }
    proof {
        assert(rooms_filled(*old(ecs), steps, *ecs));
    }
}

/// Whether `post` comes of `pre` by filling `room` the way `spawn_room`
/// fills a room: with new inhabitants of that room and nothing else
/// changed, fewer than `MAX_MONSTERS` monsters and fewer than `MAX_ITEMS`
/// items, no two of a kind on one tile; and not at all where the room
/// does not lie on a generated map or has no inside.
pub open spec fn room_filled(pre: World, post: World, room: Rect) -> bool {
    &&& peopled(pre, post, room)
    &&& exists|monsters: int| #[trigger] sparingly(pre, post, monsters)
    &&& !room_is_usable(room) ==> post == pre
}

/// Whether `post` comes of `pre` by filling every room of the map but the
/// first, one after the other in the order of the rooms, with `steps` the
/// worlds on the way: `steps[r]` is the world once room `r` is filled,
/// and `steps[0]` the world to start with.
pub open spec fn rooms_filled(pre: World, steps: Seq<World>, post: World) -> bool {
    &&& steps.len() == if pre.map.rooms@.len() >= 1 {
        pre.map.rooms@.len()
    } else {
        1
    }
    &&& steps[0] == pre
    &&& steps[steps.len() - 1] == post
    &&& forall|r: int|
        1 <= r < steps.len() ==> room_filled(steps[r - 1], #[trigger] steps[r], pre.map.rooms@[r])
}

} // verus!
