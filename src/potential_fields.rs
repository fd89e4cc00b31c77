//! Stand-alone fields over a single snapshot: obstacles, enemies and the zone.

use vstd::prelude::*;
use crate::fields::{
    MILLI_UNITS, PART_BOUND, SUM_BOUND, VALUE_ONE, aged, aged_exec, candidates_spec, dist, dist_exec,
    falloff, falloff_exec, feasible, inside_obstacle, sum_of,
};
use crate::memory::SOUND_MEMORY_TICKS;
use crate::geometry::{
    Circle, Line, MILLI_PER_UNIT, Vec2, Vec2i, add_spec, clamp_coord, contains_spec, div_trunc,
    div_trunc_i128, floor_sqrt, lemma_mul_bound, scaled_to_spec, sq_dist, sq_len, vec_of,
};
use crate::memory::MemoryView;
use crate::model::{
    Ammo, Constants, Game, Item, Loot, Projectile, QUANTITY_LIMIT, Sound, SoundKind, TICK_LIMIT,
    Unit, WeaponKind, WeaponProps, WeaponTable, Zone, is_armed, moving_vec_spec,
};
use crate::strategy::{first_of, mine_fn};

verus! {

/// Length of an enemy's assumed aim line (fifty arena units).
pub const AIM_LENGTH: i64 = 50000;

/// Square of the distance within which an enemy's presence is felt (fifty
/// arena units).
pub const PRESENCE_RADIUS_SQ: i128 = 2500000000;

/// Reach of a threatening projectile path (five arena units).
pub const PATH_REACH: i64 = 5000;

/// Reach of a recent position (ten arena units).
pub const STAY_REACH: i64 = 10000;

/// How many recent positions are kept.
pub const POSITIONS_KEPT: usize = 10;

/// Width of one band of the aim-line penalty (one arena unit).
pub const AIM_BAND: i64 = 1000;

// ---------------------------------------------------------------------------
// Obstacles.

/// Obstacles inflated by the unit radius: positions inside one of them are
/// out of bounds.
pub struct ObstacleField {
    pub obstacles: Vec<Circle>,
}

/// `p` lies in one of the circles.
pub open spec fn in_some_circle(cs: Seq<Circle>, p: Vec2) -> bool {
    exists|i: int| 0 <= i < cs.len() && contains_spec(#[trigger] cs[i], p)
}

/// Minus one inside an obstacle, zero elsewhere.
pub open spec fn obstacle_value(cs: Seq<Circle>, p: Vec2) -> int {
    if in_some_circle(cs, p) {
        -VALUE_ONE
    } else {
        0
    }
}

pub open spec fn inflated(c: Constants) -> Seq<Circle> {
    Seq::new(
        c.obstacles.len() as nat,
        |i: int|
            Circle {
                center: c.obstacles[i].position,
                radius: (c.obstacles[i].radius + c.unit_radius) as i64,
            },
    )
}

impl ObstacleField {
    pub open spec fn wf(self) -> bool {
        forall|i: int| 0 <= i < self.obstacles.len() ==> #[trigger] self.obstacles[i].wf()
    }

    pub fn new(constants: &Constants) -> (r: ObstacleField)
        requires
            constants.wf(),
        ensures
            r.obstacles@ == inflated(*constants),
            r.wf(),
    {
        let mut obstacles: Vec<Circle> = Vec::new();
        let mut i: usize = 0;
        while i < constants.obstacles.len()
            invariant
                constants.wf(),
                i <= constants.obstacles.len(),
                obstacles@ == inflated(*constants).take(i as int),
                forall|j: int| 0 <= j < obstacles.len() ==> #[trigger] obstacles[j].wf(),
            decreases constants.obstacles.len() - i,
        {
            assert(constants.obstacles[i as int].wf());
            let c = constants.obstacles[i].as_circle(constants.unit_radius);
            obstacles.push(c);
            assert(obstacles@ =~= inflated(*constants).take(i as int + 1));
            i += 1;
        }
        assert(inflated(*constants).take(i as int) =~= inflated(*constants));
        ObstacleField { obstacles }
    }

    pub fn value(&self, point: &Vec2) -> (r: i64)
        requires
            self.wf(),
            point.wf(),
        ensures
            r as int == obstacle_value(self.obstacles@, *point),
    {
        let mut i: usize = 0;
        while i < self.obstacles.len()
            invariant
                self.wf(),
                point.wf(),
                i <= self.obstacles.len(),
                forall|j: int| 0 <= j < i ==> !contains_spec(#[trigger] self.obstacles@[j], *point),
            decreases self.obstacles.len() - i,
        {
            assert(self.obstacles[i as int].wf());
            if self.obstacles[i].contains(point) {
                return -VALUE_ONE;
            }
            i += 1;
        }
        0
    }
}

/// A position strictly inside an inflated obstacle gets the obstacle
/// field's minimum value, and it is never a candidate position.
pub proof fn law_inside_obstacle_excluded(
    c: Constants,
    p: Vec2,
    k: int,
    m: MemoryView,
    me: Unit,
)
    requires
        c.wf(),
        0 <= k < c.obstacles.len(),
        sq_dist(c.obstacles[k].position, p) < (c.obstacles[k].radius + c.unit_radius) * (
        c.obstacles[k].radius + c.unit_radius),
        c.obstacles[k].radius + c.unit_radius >= 0,
    ensures
        obstacle_value(inflated(c), p) == -VALUE_ONE,
        forall|q: Vec2| obstacle_value(inflated(c), q) >= obstacle_value(inflated(c), p),
        !feasible(m, me.id, p, c),
        !candidates_spec(m, me, c).contains(p),
{
    let cs = inflated(c);
    assert(c.obstacles[k].wf());
    assert(contains_spec(cs[k], p));
    assert(inside_obstacle(c, p)) by {
        assert(contains_spec(
            Circle {
                center: c.obstacles[k].position,
                radius: (c.obstacles[k].radius + c.unit_radius) as i64,
            },
            p,
        ));
    }
    let ring = crate::fields::ring(crate::fields::inertia_center(me, c), c.unit_radius as int);
    let fp = crate::fields::feasible_pred(m, me.id, c);
    if ring.filter(fp).contains(p) {
        let j = choose|j: int| 0 <= j < ring.filter(fp).len() && ring.filter(fp)[j] == p;
        ring.lemma_filter_pred(fp, j);
    }
}

// ---------------------------------------------------------------------------
// Enemies.

/// The enemies of one snapshot.
pub struct EnemyField {
    pub enemies: Vec<Unit>,
}

pub open spec fn enemies_of(g: Game) -> Seq<Unit> {
    g.units@.filter(|u: Unit| u.player_id != g.my_id)
}

/// Penalty for standing near an armed enemy's aim line: from one at the
/// line down in quarter steps to nothing four units away.
pub open spec fn aim_band_value(d: int) -> int {
    if d < AIM_BAND {
        -VALUE_ONE
    } else if d < 2 * AIM_BAND {
        -(VALUE_ONE * 3 / 4)
    } else if d < 3 * AIM_BAND {
        -(VALUE_ONE / 2)
    } else if d < 4 * AIM_BAND {
        -(VALUE_ONE / 4)
    } else {
        0
    }
}

/// An unarmed enemy attracts (one); an armed one repels near its aim line;
/// within the presence radius every enemy adds `distance^2 / radius^2`.
pub open spec fn single_enemy_value(e: Unit, p: Vec2) -> int {
    let aim = Line {
        start: e.position,
        end: add_spec(e.position, scaled_to_spec(e.direction, AIM_LENGTH as int)),
    };
    let base = if !is_armed(e) {
        VALUE_ONE as int
    } else {
        aim_band_value(aim.distance_spec(p))
    };
    let d2 = sq_dist(e.position, p);
    if d2 > PRESENCE_RADIUS_SQ {
        base
    } else {
        base + d2 * VALUE_ONE / PRESENCE_RADIUS_SQ as int
    }
}

pub open spec fn enemy_sum(es: Seq<Unit>, p: Vec2) -> int
    decreases es.len(),
{
    if es.len() == 0 {
        0
    } else {
        enemy_sum(es.drop_last(), p) + single_enemy_value(es.last(), p)
    }
}

/// The sum over the enemies, clamped to `[-1, 0]`.
pub open spec fn enemy_field_value(es: Seq<Unit>, p: Vec2) -> int {
    let v = enemy_sum(es, p);
    if v < -VALUE_ONE {
        -VALUE_ONE as int
    } else if v > 0 {
        0
    } else {
        v
    }
}

fn single_enemy_value_exec(e: &Unit, p: &Vec2) -> (r: i128)
    requires
        e.wf(),
        p.wf(),
    ensures
        r as int == single_enemy_value(*e, *p),
        -PART_BOUND <= r <= PART_BOUND,
{
    let aim = Line::new(e.position, e.position.add(&e.direction.scaled_to(AIM_LENGTH)));
    let base: i128 = if !e.is_armed() {
        VALUE_ONE as i128
    } else {
        let d = aim.distance_to_point(p);
        if d < AIM_BAND {
            -(VALUE_ONE as i128)
        } else if d < 2 * AIM_BAND {
            -(VALUE_ONE as i128 * 3 / 4)
        } else if d < 3 * AIM_BAND {
            -(VALUE_ONE as i128 / 2)
        } else if d < 4 * AIM_BAND {
            -(VALUE_ONE as i128 / 4)
        } else {
            0
        }
    };
    let d2 = e.position.square_distance_to(p);
    let r2 = PRESENCE_RADIUS_SQ;
    if d2 > r2 {
        base
    } else {
        proof {
            lemma_mul_bound(d2 as int, VALUE_ONE as int, r2 as int, VALUE_ONE as int);
            vstd::arithmetic::div_mod::lemma_div_is_ordered(d2 * VALUE_ONE, r2 * VALUE_ONE, r2 as int);
            vstd::arithmetic::div_mod::lemma_div_multiples_vanish(VALUE_ONE as int, r2 as int);
            vstd::arithmetic::div_mod::lemma_div_pos_is_pos(d2 * VALUE_ONE, r2 as int);
            assert(r2 * VALUE_ONE == VALUE_ONE * r2);
        }
        base + (d2 * VALUE_ONE as i128) / r2
    }
}

impl EnemyField {
    pub open spec fn wf(self) -> bool {
        forall|i: int| 0 <= i < self.enemies.len() ==> #[trigger] self.enemies[i].wf()
    }

    /// A field with no enemies.
    pub fn empty() -> (r: EnemyField)
        ensures
            r.enemies@.len() == 0,
            r.wf(),
    {
        EnemyField { enemies: Vec::new() }
    }

    /// The field of the enemies (units of other teams) of a snapshot.
    pub fn new(game: &Game) -> (r: EnemyField)
        requires
            game.wf(),
        ensures
            r.enemies@ == enemies_of(*game),
            r.wf(),
    {
        let ghost pred = |u: Unit| u.player_id != game.my_id;
        let mut enemies: Vec<Unit> = Vec::new();
        let mut i: usize = 0;
        while i < game.units.len()
            invariant
                game.wf(),
                pred == (|u: Unit| u.player_id != game.my_id),
                i <= game.units.len(),
                enemies@ == game.units@.take(i as int).filter(pred),
                forall|j: int| 0 <= j < enemies.len() ==> #[trigger] enemies[j].wf(),
            decreases game.units.len() - i,
        {
            let u = game.units[i];
            assert(game.units[i as int].wf());
            proof {
                crate::memory::lemma_take_push(game.units@, i as int);
                game.units@.take(i as int).lemma_filter_push(u, pred);
            }
            if u.player_id != game.my_id {
                enemies.push(u);
            }
            i += 1;
        }
        assert(game.units@.take(game.units.len() as int) =~= game.units@);
        EnemyField { enemies }
    }

    pub fn value(&self, point: &Vec2) -> (r: i128)
        requires
            self.wf(),
            point.wf(),
        ensures
            r as int == enemy_field_value(self.enemies@, *point),
            -VALUE_ONE <= r <= 0,
    {
        let mut acc: i128 = 0;
        let mut i: usize = 0;
        while i < self.enemies.len()
            invariant
                self.wf(),
                point.wf(),
                i <= self.enemies.len(),
                acc as int == enemy_sum(self.enemies@.take(i as int), *point),
                -(i as int) * (PART_BOUND as int) <= acc <= (i as int) * (PART_BOUND as int),
            decreases self.enemies.len() - i,
        {
            assert(self.enemies[i as int].wf());
            let t = single_enemy_value_exec(&self.enemies[i], point);
            proof {
                assert(self.enemies@.take(i as int + 1).drop_last() =~= self.enemies@.take(i as int));
            }
            acc = acc + t;
            i += 1;
        }
        assert(self.enemies@.take(self.enemies.len() as int) =~= self.enemies@);
        if acc < -(VALUE_ONE as i128) {
            -(VALUE_ONE as i128)
        } else if acc > 0 {
            0
        } else {
            acc
        }
    }
}

// ---------------------------------------------------------------------------
// The zone.

/// The zone as the last snapshot showed it.
pub struct ZoneField {
    pub zone: Zone,
}

/// Minus the distance from the current center relative to the current
/// radius, ten times as steep beyond the next radius.
pub open spec fn zone_field_value(z: Zone, p: Vec2) -> int {
    let d = dist(z.current_center, p);
    let k: int = if d > z.next_radius {
        10
    } else {
        1
    };
    if z.current_radius > 0 {
        -(k * d * VALUE_ONE / z.current_radius as int)
    } else {
        0
    }
}

impl ZoneField {
    pub fn new(constants: &Constants) -> (r: ZoneField)
        requires
            constants.wf(),
        ensures
            r.zone.current_center.is_zero(),
            r.zone.next_center.is_zero(),
            r.zone.current_radius == constants.initial_zone_radius,
            r.zone.next_radius == constants.initial_zone_radius,
            r.zone.wf(),
    {
        ZoneField {
            zone: Zone {
                current_center: Vec2::zero(),
                current_radius: constants.initial_zone_radius,
                next_center: Vec2::zero(),
                next_radius: constants.initial_zone_radius,
            },
        }
    }

    pub fn update(&mut self, game: &Game)
        ensures
            final(self).zone == game.zone,
    {
        self.zone = game.zone;
    }

    pub fn value(&self, point: &Vec2) -> (r: i128)
        requires
            self.zone.wf(),
            point.wf(),
        ensures
            r as int == zone_field_value(self.zone, *point),
            -PART_BOUND <= r <= PART_BOUND,
    {
        let d = self.zone.current_center.distance_to(point);
        let k: i128 = if d > self.zone.next_radius {
            10
        } else {
            1
        };
        if self.zone.current_radius > 0 {
            proof {
                lemma_mul_bound(self.zone.current_center.x - point.x, self.zone.current_center.x - point.x, 0x4000_0000int, 0x4000_0000int);
                lemma_mul_bound(self.zone.current_center.y - point.y, self.zone.current_center.y - point.y, 0x4000_0000int, 0x4000_0000int);
                if d > 0x1_0000_0000 {
                    assert((d as int) * (d as int) > 0x1_0000_0000_0000_0000int) by (nonlinear_arith)
                        requires
                            d as int > 0x1_0000_0000int,
                    ;
                }
                lemma_mul_bound(k * d, VALUE_ONE as int, 0x10_0000_0000int, VALUE_ONE as int);
                vstd::arithmetic::div_mod::lemma_div_is_ordered_by_denominator(
                    k * d * VALUE_ONE,
                    1,
                    self.zone.current_radius as int,
                );
                vstd::arithmetic::div_mod::lemma_div_pos_is_pos(
                    k * d * VALUE_ONE,
                    self.zone.current_radius as int,
                );
            }
            -((k * d as i128 * VALUE_ONE as i128) / self.zone.current_radius as i128)
        } else {
            0
        }
    }
}

// ---------------------------------------------------------------------------
// The controlled unit.

/// The first controlled unit of the snapshot.
pub fn first_mine(game: &Game) -> (r: Option<Unit>)
    requires
        game.wf(),
    ensures
        r == first_of(game.units@, mine_fn(game.my_id)),
        r matches Some(u) ==> u.wf(),
{
    let ghost ok = mine_fn(game.my_id);
    let mut i: usize = 0;
    while i < game.units.len()
        invariant
            game.wf(),
            ok == mine_fn(game.my_id),
            i <= game.units.len(),
            first_of(game.units@.take(i as int), ok) is None,
        decreases game.units.len() - i,
    {
        assert(game.units[i as int].wf());
        proof {
            assert(game.units@.take(i as int + 1).drop_last() =~= game.units@.take(i as int));
        }
        if game.units[i].player_id == game.my_id {
            proof {
                crate::strategy::lemma_first_of_prefix(game.units@, ok, i as int + 1);
            }
            return Some(game.units[i]);
        }
        i += 1;
    }
    assert(game.units@.take(game.units.len() as int) =~= game.units@);
    None
}

/// The snapshot shows some controlled unit.
pub open spec fn has_mine(g: Game) -> bool {
    exists|i: int| 0 <= i < g.units.len() && (#[trigger] g.units[i]).player_id == g.my_id
}

pub open spec fn me_of(g: Game) -> Unit {
    first_of(g.units@, mine_fn(g.my_id)).unwrap()
}

fn me_exec(game: &Game) -> (r: Unit)
    requires
        game.wf(),
        has_mine(*game),
    ensures
        r == me_of(*game),
        r.wf(),
{
    proof {
        let i = choose|i: int| 0 <= i < game.units.len() && (#[trigger] game.units[i]).player_id
            == game.my_id;
        crate::strategy::lemma_first_of_some(game.units@, mine_fn(game.my_id), i);
    }
    first_mine(game).unwrap()
}

// ---------------------------------------------------------------------------
// Loot.

/// Loot on the ground, judged for the first controlled unit.
pub struct LootField {
    pub loot: Vec<Loot>,
    pub me: Unit,
    pub unit_radius: i64,
    pub weapons: WeaponTable,
    pub max_shield_potions: i32,
}

pub open spec fn reach_product(w: WeaponProps) -> int {
    w.projectile_life_time * w.projectile_speed
}

pub open spec fn is_wand_pickup(l: Loot) -> bool {
    l.item == (Item::Weapon { kind: WeaponKind::Wand })
}

/// Wanted: a weapon other than the wand that the unit does not hold, that it
/// has at least ten rounds for and that reaches no shorter than its own;
/// ammunition below the cap; potions below the cap.
pub open spec fn loot_wanted(l: Loot, me: Unit, weapons: WeaponTable, max_potions: i32) -> bool {
    match l.item {
        Item::Weapon { kind } => kind != WeaponKind::Wand && match me.weapon {
            Some(w) => !(kind == w || me.ammo.spec_get(kind) < 10) && !(reach_product(
                weapons.spec_get(w),
            ) > reach_product(weapons.spec_get(kind))),
            None => true,
        },
        Item::Ammo { weapon, .. } => me.ammo.spec_get(weapon) != weapons.spec_get(
            weapon,
        ).max_inventory_ammo,
        Item::ShieldPotions { .. } => me.shield_potions != max_potions,
    }
}

/// One for wanted loot whose squared distance (in square arena units) is
/// below two unit radii (in arena units), then three quarters, a half and a
/// quarter below four, six and eight.
pub open spec fn loot_band(l: Loot, p: Vec2, r: int) -> int {
    let s = sq_dist(l.position, p);
    if s < r * 2 * MILLI_UNITS {
        VALUE_ONE as int
    } else if s < r * 4 * MILLI_UNITS {
        VALUE_ONE * 3 / 4
    } else if s < r * 6 * MILLI_UNITS {
        VALUE_ONE / 2
    } else if s < r * 8 * MILLI_UNITS {
        VALUE_ONE / 4
    } else {
        0
    }
}

pub open spec fn loot_field_term_fn(f: LootField, p: Vec2) -> spec_fn(Loot) -> int {
    |l: Loot|
        if loot_wanted(l, f.me, f.weapons, f.max_shield_potions) {
            loot_band(l, p, f.unit_radius as int)
        } else {
            0
        }
}

pub open spec fn not_wand_fn() -> spec_fn(Loot) -> bool {
    |l: Loot| !is_wand_pickup(l)
}

impl LootField {
    pub open spec fn wf(self) -> bool {
        &&& 1 <= self.unit_radius <= QUANTITY_LIMIT
        &&& forall|i: int| 0 <= i < self.loot.len() ==> #[trigger] self.loot[i].wf()
    }

    pub fn new(constants: &Constants) -> (r: LootField)
        requires
            constants.wf(),
        ensures
            r.loot@.len() == 0,
            r.unit_radius == constants.unit_radius,
            r.weapons == constants.weapons,
            r.max_shield_potions == constants.max_shield_potions_in_inventory,
            r.me.weapon is None,
            r.wf(),
    {
        LootField {
            loot: Vec::new(),
            me: Unit {
                id: 0,
                player_id: 0,
                position: Vec2::zero(),
                velocity: Vec2::zero(),
                direction: Vec2::zero(),
                health: 0,
                shield: 0,
                weapon: None,
                ammo: Ammo { wand: 0, staff: 0, bow: 0 },
                shield_potions: 0,
                remaining_spawn_time: None,
            },
            unit_radius: constants.unit_radius,
            weapons: constants.weapons,
            max_shield_potions: constants.max_shield_potions_in_inventory,
        }
    }

    /// Takes the snapshot's loot (but wands) and its first controlled unit.
    pub fn update(&mut self, game: &Game)
        requires
            old(self).wf(),
            game.wf(),
            has_mine(*game),
        ensures
            final(self).loot@ == game.loot@.filter(not_wand_fn()),
            final(self).me == me_of(*game),
            final(self).unit_radius == old(self).unit_radius,
            final(self).weapons == old(self).weapons,
            final(self).max_shield_potions == old(self).max_shield_potions,
            final(self).wf(),
    {
        let ghost p = not_wand_fn();
        let mut loot: Vec<Loot> = Vec::new();
        let mut i: usize = 0;
        while i < game.loot.len()
            invariant
                game.wf(),
                p == not_wand_fn(),
                i <= game.loot.len(),
                loot@ == game.loot@.take(i as int).filter(p),
                forall|j: int| 0 <= j < loot.len() ==> #[trigger] loot[j].wf(),
            decreases game.loot.len() - i,
        {
            let l = game.loot[i];
            assert(game.loot[i as int].wf());
            proof {
                crate::memory::lemma_take_push(game.loot@, i as int);
                game.loot@.take(i as int).lemma_filter_push(l, p);
            }
            let wand = match l.item {
                Item::Weapon { kind } => matches!(kind, WeaponKind::Wand),
                _ => false,
            };
            if !wand {
                loot.push(l);
            }
            i += 1;
        }
        assert(game.loot@.take(game.loot.len() as int) =~= game.loot@);
        self.loot = loot;
        self.me = me_exec(game);
    }

    pub fn value(&self, point: &Vec2) -> (r: i128)
        requires
            self.wf(),
            point.wf(),
        ensures
            r as int == sum_of(self.loot@, loot_field_term_fn(*self, *point)),
            -SUM_BOUND <= r <= SUM_BOUND,
    {
        let ghost f = loot_field_term_fn(*self, *point);
        let r = self.unit_radius as i128;
        let mut acc: i128 = 0;
        let mut i: usize = 0;
        while i < self.loot.len()
            invariant
                self.wf(),
                point.wf(),
                f == loot_field_term_fn(*self, *point),
                r == self.unit_radius,
                i <= self.loot.len(),
                acc as int == sum_of(self.loot@.take(i as int), f),
                0 <= acc <= (i as int) * 1000,
            decreases self.loot.len() - i,
        {
            assert(self.loot[i as int].wf());
            let l = self.loot[i];
            proof {
                assert(self.loot@.take(i as int + 1).drop_last() =~= self.loot@.take(i as int));
            }
            let t: i128 = if self.wanted(&l) {
                let s = l.position.square_distance_to(point);
                if s < r * 2 * 1000 {
                    1000
                } else if s < r * 4 * 1000 {
                    750
                } else if s < r * 6 * 1000 {
                    500
                } else if s < r * 8 * 1000 {
                    250
                } else {
                    0
                }
            } else {
                0
            };
            acc = acc + t;
            i += 1;
        }
        assert(self.loot@.take(self.loot.len() as int) =~= self.loot@);
        acc
    }

    fn wanted(&self, l: &Loot) -> (b: bool)
        ensures
            b == loot_wanted(*l, self.me, self.weapons, self.max_shield_potions),
    {
        let me = &self.me;
        match l.item {
            Item::Weapon { kind } => {
                if matches!(kind, WeaponKind::Wand) {
                    return false;
                }
                match me.weapon {
                    Some(w) => {
                        if kind == w || me.ammo.get(kind) < 10 {
                            return false;
                        }
                        let mine = self.weapons.get(w);
                        let new = self.weapons.get(kind);
                        proof {
                            lemma_mul_bound(mine.projectile_life_time as int, mine.projectile_speed as int, 0x8000_0000_0000_0000int, 0x8000_0000_0000_0000int);
                            lemma_mul_bound(new.projectile_life_time as int, new.projectile_speed as int, 0x8000_0000_0000_0000int, 0x8000_0000_0000_0000int);
                        }
                        !((mine.projectile_life_time as i128) * (mine.projectile_speed as i128) > (
                        new.projectile_life_time as i128) * (new.projectile_speed as i128))
                    },
                    None => true,
                }
            },
            Item::Ammo { weapon, .. } => me.ammo.get(weapon) != self.weapons.get(
                weapon,
            ).max_inventory_ammo,
            Item::ShieldPotions { .. } => me.shield_potions != self.max_shield_potions,
        }
    }
}

// ---------------------------------------------------------------------------
// Shots heard.

/// A shot heard: when, where, and where the listener stood.
#[derive(Clone, Copy, Debug, PartialEq, Eq, Structural)]
pub struct HeardShot {
    pub tick: i64,
    pub place: Vec2,
    pub listener: Vec2,
}

/// Shots heard lately by the first controlled unit.
pub struct ShootingSoundsField {
    pub sounds: Vec<HeardShot>,
    pub current_tick: i64,
    pub my_coordinates: Vec2,
    pub unit_radius: i64,
}

/// A shot counts unless a visible enemy stands closer than two unit radii
/// to where it was heard.
pub open spec fn shot_heard(s: Sound, g: Game, r: int) -> bool {
    s.kind is Shot && !exists|i: int|
        0 <= i < g.units.len() && (#[trigger] g.units[i]).player_id != g.my_id && sq_dist(
            g.units[i].position,
            s.position,
        ) < (2 * r) * (2 * r)
}

pub open spec fn shot_heard_fn(g: Game, r: int) -> spec_fn(Sound) -> bool {
    |s: Sound| shot_heard(s, g, r)
}

pub open spec fn heard_fn(g: Game, me: Unit) -> spec_fn(Sound) -> HeardShot {
    |s: Sound| HeardShot { tick: g.current_tick, place: s.position, listener: me.position }
}

pub open spec fn fresh_fn(now: i64) -> spec_fn(HeardShot) -> bool {
    |h: HeardShot| now - h.tick < SOUND_MEMORY_TICKS
}

/// Near the line from where a shot was heard to the listener: a penalty
/// falling to zero at two unit radii, fading as the shot ages.
pub open spec fn heard_term(h: HeardShot, p: Vec2, now: int, r: int) -> int {
    let d = (Line { start: h.place, end: h.listener }).distance_spec(p);
    if d > 2 * r {
        0
    } else {
        -aged(falloff(d, 2 * r), now, h.tick as int)
    }
}

pub open spec fn heard_term_fn(p: Vec2, now: int, r: int) -> spec_fn(HeardShot) -> int {
    |h: HeardShot| heard_term(h, p, now, r)
}

impl HeardShot {
    pub open spec fn wf(self) -> bool {
        self.place.wf() && self.listener.wf() && 0 <= self.tick <= TICK_LIMIT
    }
}

impl ShootingSoundsField {
    pub open spec fn wf(self) -> bool {
        &&& 1 <= self.unit_radius <= QUANTITY_LIMIT / 16
        &&& 0 <= self.current_tick <= TICK_LIMIT
        &&& forall|i: int| 0 <= i < self.sounds.len() ==> #[trigger] self.sounds[i].wf()
    }

    pub fn new(constants: &Constants) -> (r: ShootingSoundsField)
        requires
            constants.wf(),
        ensures
            r.sounds@.len() == 0,
            r.current_tick == 0,
            r.unit_radius == constants.unit_radius,
            r.wf(),
    {
        ShootingSoundsField {
            sounds: Vec::new(),
            current_tick: 0,
            my_coordinates: Vec2::zero(),
            unit_radius: constants.unit_radius,
        }
    }

    /// Adds the snapshot's shots and forgets those older than
    /// `SOUND_MEMORY_TICKS`.
    pub fn update(&mut self, game: &Game)
        requires
            old(self).wf(),
            game.wf(),
            has_mine(*game),
        ensures
            final(self).sounds@ == (old(self).sounds@ + game.sounds@.filter(
                shot_heard_fn(*game, old(self).unit_radius as int),
            ).map_values(heard_fn(*game, me_of(*game)))).filter(fresh_fn(game.current_tick)),
            final(self).my_coordinates == me_of(*game).position,
            final(self).current_tick == game.current_tick,
            final(self).unit_radius == old(self).unit_radius,
            final(self).wf(),
    {
        let me = me_exec(game);
        self.my_coordinates = me.position;
        let ghost p = shot_heard_fn(*game, self.unit_radius as int);
        let ghost f = heard_fn(*game, me);
        let lim = 2 * self.unit_radius as i128;
        let mut new: Vec<HeardShot> = Vec::new();
        let mut i: usize = 0;
        while i < game.sounds.len()
            invariant
                game.wf(),
                me.wf(),
                self.wf(),
                lim == 2 * self.unit_radius,
                p == shot_heard_fn(*game, self.unit_radius as int),
                f == heard_fn(*game, me),
                i <= game.sounds.len(),
                new@ == game.sounds@.take(i as int).filter(p).map_values(f),
                forall|j: int| 0 <= j < new.len() ==> #[trigger] new[j].wf(),
            decreases game.sounds.len() - i,
        {
            let s = game.sounds[i];
            assert(game.sounds[i as int].wf());
            proof {
                crate::memory::lemma_take_push(game.sounds@, i as int);
                game.sounds@.take(i as int).lemma_filter_push(s, p);
                game.sounds@.take(i as int).filter(p).lemma_push_map_commute(f, s);
            }
            let mut near = false;
            let mut k: usize = 0;
            while k < game.units.len()
                invariant
                    game.wf(),
                    s.wf(),
                    lim == 2 * self.unit_radius,
                    1 <= self.unit_radius <= QUANTITY_LIMIT / 16,
                    k <= game.units.len(),
                    near == exists|j: int|
                        0 <= j < k && (#[trigger] game.units[j]).player_id != game.my_id && sq_dist(
                            game.units[j].position,
                            s.position,
                        ) < lim * lim,
                decreases game.units.len() - k,
            {
                assert(game.units[k as int].wf());
                let u = game.units[k];
                proof {
                    lemma_mul_bound(lim as int, lim as int, QUANTITY_LIMIT as int, QUANTITY_LIMIT as int);
                }
                if u.player_id != game.my_id && u.position.square_distance_to(&s.position) < lim * lim {
                    near = true;
                }
                k += 1;
            }
            if matches!(s.kind, SoundKind::Shot(_)) && !near {
                new.push(HeardShot { tick: game.current_tick, place: s.position, listener: me.position });
            }
            i += 1;
        }
        assert(game.sounds@.take(game.sounds.len() as int) =~= game.sounds@);
        let ghost all = self.sounds@ + new@;
        self.sounds.append(&mut new);
        let ghost q = fresh_fn(game.current_tick);
        let mut kept: Vec<HeardShot> = Vec::new();
        let mut i: usize = 0;
        while i < self.sounds.len()
            invariant
                game.wf(),
                self.sounds@ == all,
                forall|j: int| 0 <= j < self.sounds.len() ==> #[trigger] self.sounds[j].wf(),
                q == fresh_fn(game.current_tick),
                i <= self.sounds.len(),
                kept@ == all.take(i as int).filter(q),
                forall|j: int| 0 <= j < kept.len() ==> #[trigger] kept[j].wf(),
            decreases self.sounds.len() - i,
        {
            let h = self.sounds[i];
            assert(self.sounds[i as int].wf());
            proof {
                crate::memory::lemma_take_push(all, i as int);
                all.take(i as int).lemma_filter_push(h, q);
            }
            if game.current_tick - h.tick < SOUND_MEMORY_TICKS {
                kept.push(h);
            }
            i += 1;
        }
        assert(all.take(all.len() as int) =~= all);
        self.sounds = kept;
        self.current_tick = game.current_tick;
    }

    pub fn value(&self, point: &Vec2) -> (r: i128)
        requires
            self.wf(),
            point.wf(),
        ensures
            r as int == sum_of(
                self.sounds@,
                heard_term_fn(*point, self.current_tick as int, self.unit_radius as int),
            ),
            -SUM_BOUND <= r <= SUM_BOUND,
    {
        let ghost f = heard_term_fn(*point, self.current_tick as int, self.unit_radius as int);
        let lim = 2 * self.unit_radius;
        let mut acc: i128 = 0;
        let mut i: usize = 0;
        while i < self.sounds.len()
            invariant
                self.wf(),
                point.wf(),
                lim == 2 * self.unit_radius,
                f == heard_term_fn(*point, self.current_tick as int, self.unit_radius as int),
                i <= self.sounds.len(),
                acc as int == sum_of(self.sounds@.take(i as int), f),
                -(i as int) * (PART_BOUND as int) <= acc <= (i as int) * (PART_BOUND as int),
            decreases self.sounds.len() - i,
        {
            assert(self.sounds[i as int].wf());
            let h = self.sounds[i];
            proof {
                assert(self.sounds@.take(i as int + 1).drop_last() =~= self.sounds@.take(i as int));
            }
            let d = Line::new(h.place, h.listener).distance_to_point(point);
            let t: i128 = if d > lim {
                0
            } else {
                -aged_exec(falloff_exec(d, lim), self.current_tick, h.tick)
            };
            acc = acc + t;
            i += 1;
        }
        assert(self.sounds@.take(self.sounds.len() as int) =~= self.sounds@);
        acc
    }
}

// ---------------------------------------------------------------------------
// Projectiles.

/// Enemy projectiles whose path, stretched by a unit radius, passes close
/// to the first controlled unit.
pub struct ProjectilesField {
    pub projectiles: Vec<Projectile>,
    pub unit_radius: i64,
}

/// The projectile's path, stretched by `r` beyond where it vanishes.
pub open spec fn stretched_path(p: Projectile, r: int) -> Line {
    let mv = moving_vec_spec(p);
    Line {
        start: p.position,
        end: add_spec(
            p.position,
            scaled_to_spec(mv, floor_sqrt(sq_len(mv.x as int, mv.y as int)) + r),
        ),
    }
}

pub open spec fn threatening_fn(g: Game, me: Unit, r: int) -> spec_fn(Projectile) -> bool {
    |p: Projectile| p.shooter_player_id != g.my_id && stretched_path(p, r).closer_than(me.position, 2 * r)
}

/// Within five arena units of a threatening path: a penalty falling to zero
/// at that distance.
pub open spec fn path_term(p: Projectile, q: Vec2, r: int) -> int {
    let d = stretched_path(p, r).distance_spec(q);
    if d > PATH_REACH {
        0
    } else {
        -falloff(d, PATH_REACH as int)
    }
}

pub open spec fn path_term_fn(q: Vec2, r: int) -> spec_fn(Projectile) -> int {
    |p: Projectile| path_term(p, q, r)
}

fn stretched_path_exec(p: &Projectile, r: i64) -> (l: Line)
    requires
        p.wf(),
        0 <= r <= QUANTITY_LIMIT,
    ensures
        l == stretched_path(*p, r as int),
        l.wf(),
{
    let mv = p.moving_vec();
    Line::new(p.position, p.position.add(&mv.lengthened(r)))
}

impl ProjectilesField {
    pub open spec fn wf(self) -> bool {
        &&& 1 <= self.unit_radius <= QUANTITY_LIMIT / 16
        &&& forall|i: int| 0 <= i < self.projectiles.len() ==> #[trigger] self.projectiles[i].wf()
    }

    pub fn new(constants: &Constants) -> (r: ProjectilesField)
        requires
            constants.wf(),
        ensures
            r.projectiles@.len() == 0,
            r.unit_radius == constants.unit_radius,
            r.wf(),
    {
        ProjectilesField { projectiles: Vec::new(), unit_radius: constants.unit_radius }
    }

    /// Keeps the snapshot's enemy projectiles that threaten the first
    /// controlled unit.
    pub fn update(&mut self, game: &Game)
        requires
            old(self).wf(),
            game.wf(),
            has_mine(*game),
        ensures
            final(self).projectiles@ == game.projectiles@.filter(
                threatening_fn(*game, me_of(*game), old(self).unit_radius as int),
            ),
            final(self).unit_radius == old(self).unit_radius,
            final(self).wf(),
    {
        let me = me_exec(game);
        let ghost p = threatening_fn(*game, me, self.unit_radius as int);
        let mut r: Vec<Projectile> = Vec::new();
        let mut i: usize = 0;
        while i < game.projectiles.len()
            invariant
                game.wf(),
                me.wf(),
                self.wf(),
                p == threatening_fn(*game, me, self.unit_radius as int),
                i <= game.projectiles.len(),
                r@ == game.projectiles@.take(i as int).filter(p),
                forall|j: int| 0 <= j < r.len() ==> #[trigger] r[j].wf(),
            decreases game.projectiles.len() - i,
        {
            let q = game.projectiles[i];
            assert(game.projectiles[i as int].wf());
            proof {
                crate::memory::lemma_take_push(game.projectiles@, i as int);
                game.projectiles@.take(i as int).lemma_filter_push(q, p);
            }
            if q.shooter_player_id != game.my_id && stretched_path_exec(&q, self.unit_radius)
                .is_closer_than(&me.position, 2 * self.unit_radius) {
                r.push(q);
            }
            i += 1;
        }
        assert(game.projectiles@.take(game.projectiles.len() as int) =~= game.projectiles@);
        self.projectiles = r;
    }

    pub fn value(&self, point: &Vec2) -> (r: i128)
        requires
            self.wf(),
            point.wf(),
        ensures
            r as int == sum_of(self.projectiles@, path_term_fn(*point, self.unit_radius as int)),
            -SUM_BOUND <= r <= SUM_BOUND,
    {
        let ghost f = path_term_fn(*point, self.unit_radius as int);
        let mut acc: i128 = 0;
        let mut i: usize = 0;
        while i < self.projectiles.len()
            invariant
                self.wf(),
                point.wf(),
                f == path_term_fn(*point, self.unit_radius as int),
                i <= self.projectiles.len(),
                acc as int == sum_of(self.projectiles@.take(i as int), f),
                -(i as int) * (PART_BOUND as int) <= acc <= (i as int) * (PART_BOUND as int),
            decreases self.projectiles.len() - i,
        {
            assert(self.projectiles[i as int].wf());
            let q = self.projectiles[i];
            proof {
                assert(self.projectiles@.take(i as int + 1).drop_last() =~= self.projectiles@.take(i as int));
            }
            let d = stretched_path_exec(&q, self.unit_radius).distance_to_point(point);
            let t: i128 = if d > PATH_REACH {
                0
            } else {
                -falloff_exec(d, PATH_REACH)
            };
            acc = acc + t;
            i += 1;
        }
        assert(self.projectiles@.take(self.projectiles.len() as int) =~= self.projectiles@);
        acc
    }
}

// ---------------------------------------------------------------------------
// Where the unit has lately been.

/// The last positions of the first controlled unit, oldest first.
pub struct DontStayField {
    pub last_positions: Vec<Vec2>,
}

/// Within ten arena units of a recent position: a penalty of up to a tenth,
/// falling to zero at that distance.
pub open spec fn stay_term(q: Vec2, p: Vec2) -> int {
    let d = dist(q, p);
    if d > STAY_REACH {
        0
    } else {
        -(falloff(d, STAY_REACH as int) / 10)
    }
}

pub open spec fn stay_term_fn(p: Vec2) -> spec_fn(Vec2) -> int {
    |q: Vec2| stay_term(q, p)
}

impl DontStayField {
    pub open spec fn wf(self) -> bool {
        &&& self.last_positions.len() <= POSITIONS_KEPT
        &&& forall|i: int| 0 <= i < self.last_positions.len() ==> #[trigger] self.last_positions[i].wf()
    }

    pub fn new() -> (r: DontStayField)
        ensures
            r.last_positions@.len() == 0,
            r.wf(),
    {
        DontStayField { last_positions: Vec::new() }
    }

    /// Appends the first controlled unit's position, dropping the oldest
    /// once `POSITIONS_KEPT` are held.
    pub fn update(&mut self, game: &Game)
        requires
            old(self).wf(),
            game.wf(),
            has_mine(*game),
        ensures
            final(self).last_positions@ == (if old(self).last_positions.len() == POSITIONS_KEPT {
                old(self).last_positions@.remove(0)
            } else {
                old(self).last_positions@
            }).push(me_of(*game).position),
            final(self).wf(),
    {
        let me = me_exec(game);
        if self.last_positions.len() == POSITIONS_KEPT {
            self.last_positions.remove(0);
        }
        self.last_positions.push(me.position);
    }

    pub fn value(&self, point: &Vec2) -> (r: i128)
        requires
            self.wf(),
            point.wf(),
        ensures
            r as int == sum_of(self.last_positions@, stay_term_fn(*point)),
            -SUM_BOUND <= r <= SUM_BOUND,
    {
        let ghost f = stay_term_fn(*point);
        let mut acc: i128 = 0;
        let mut i: usize = 0;
        while i < self.last_positions.len()
            invariant
                self.wf(),
                point.wf(),
                f == stay_term_fn(*point),
                i <= self.last_positions.len(),
                acc as int == sum_of(self.last_positions@.take(i as int), f),
                -(i as int) * 1000 <= acc <= 0,
            decreases self.last_positions.len() - i,
        {
            assert(self.last_positions[i as int].wf());
            let q = self.last_positions[i];
            proof {
                assert(self.last_positions@.take(i as int + 1).drop_last() =~= self.last_positions@.take(i as int));
            }
            let d = dist_exec(&q, point);
            let t: i128 = if d > STAY_REACH {
                0
            } else {
                -(falloff_exec(d, STAY_REACH) / 10)
            };
            acc = acc + t;
            i += 1;
        }
        assert(self.last_positions@.take(self.last_positions.len() as int) =~= self.last_positions@);
        acc
    }
}

// ---------------------------------------------------------------------------
// All of them.

/// The fields of one snapshot, combined.
pub struct PotentialFields {
    pub zone: ZoneField,
    pub obstacles: ObstacleField,
    pub enemies: EnemyField,
    pub loot: LootField,
    pub sounds: ShootingSoundsField,
    pub projectiles: ProjectilesField,
    pub dont_stay: DontStayField,
}

pub open spec fn grid_point(p: Vec2i) -> Vec2 {
    vec_of(clamp_coord(p.x * MILLI_PER_UNIT), clamp_coord(p.y * MILLI_PER_UNIT))
}

/// The sum of the fields at grid point `point`, averaged over their
/// weights: projectiles count five times; out of battle the loot and the
/// recent positions count too.
pub open spec fn fields_value(f: PotentialFields, point: Vec2i, battle_mode: bool) -> int {
    let p = grid_point(point);
    let base = zone_field_value(f.zone.zone, p) + obstacle_value(f.obstacles.obstacles@, p) + sum_of(
        f.projectiles.projectiles@,
        path_term_fn(p, f.projectiles.unit_radius as int),
    ) * 5 + enemy_field_value(f.enemies.enemies@, p) + sum_of(
        f.sounds.sounds@,
        heard_term_fn(p, f.sounds.current_tick as int, f.sounds.unit_radius as int),
    );
    if battle_mode {
        div_trunc(base, 11)
    } else {
        div_trunc(
            base + sum_of(f.loot.loot@, loot_field_term_fn(f.loot, p)) + sum_of(
                f.dont_stay.last_positions@,
                stay_term_fn(p),
            ),
            9,
        )
    }
}

impl PotentialFields {
    pub open spec fn wf(self) -> bool {
        &&& self.zone.zone.wf()
        &&& self.obstacles.wf()
        &&& self.enemies.wf()
        &&& self.loot.wf()
        &&& self.sounds.wf()
        &&& self.projectiles.wf()
        &&& self.dont_stay.wf()
    }

    pub fn new(constants: &Constants) -> (r: PotentialFields)
        requires
            constants.wf(),
        ensures
            r.wf(),
            r.enemies.enemies@.len() == 0,
            r.loot.loot@.len() == 0,
            r.sounds.sounds@.len() == 0,
            r.projectiles.projectiles@.len() == 0,
            r.dont_stay.last_positions@.len() == 0,
            r.obstacles.obstacles@ == inflated(*constants),
    {
        PotentialFields {
            zone: ZoneField::new(constants),
            obstacles: ObstacleField::new(constants),
            enemies: EnemyField::empty(),
            loot: LootField::new(constants),
            sounds: ShootingSoundsField::new(constants),
            projectiles: ProjectilesField::new(constants),
            dont_stay: DontStayField::new(),
        }
    }

    /// Brings every field up to the snapshot.
    pub fn calculate(&mut self, game: &Game, _constants: &Constants)
        requires
            old(self).wf(),
            game.wf(),
            has_mine(*game),
        ensures
            final(self).wf(),
            final(self).zone.zone == game.zone,
            final(self).obstacles == old(self).obstacles,
            final(self).enemies.enemies@ == enemies_of(*game),
            final(self).loot.loot@ == game.loot@.filter(not_wand_fn()),
            final(self).loot.me == me_of(*game),
            final(self).sounds.sounds@ == (old(self).sounds.sounds@ + game.sounds@.filter(
                shot_heard_fn(*game, old(self).sounds.unit_radius as int),
            ).map_values(heard_fn(*game, me_of(*game)))).filter(fresh_fn(game.current_tick)),
            final(self).sounds.current_tick == game.current_tick,
            final(self).projectiles.projectiles@ == game.projectiles@.filter(
                threatening_fn(*game, me_of(*game), old(self).projectiles.unit_radius as int),
            ),
            final(self).dont_stay.last_positions@ == (if old(self).dont_stay.last_positions.len()
                == POSITIONS_KEPT {
                old(self).dont_stay.last_positions@.remove(0)
            } else {
                old(self).dont_stay.last_positions@
            }).push(me_of(*game).position),
    {
        self.zone.update(game);
        self.enemies = EnemyField::new(game);
        self.loot.update(game);
        self.sounds.update(game);
        self.projectiles.update(game);
        self.dont_stay.update(game);
    }

    pub fn value(&self, point: Vec2i, battle_mode: bool) -> (r: i128)
        requires
            self.wf(),
        ensures
            r as int == fields_value(*self, point, battle_mode),
    {
        let p = Vec2::from_grid(point);
        let base = self.zone.value(&p) + self.obstacles.value(&p) as i128 + self.projectiles.value(&p)
            * 5 + self.enemies.value(&p) + self.sounds.value(&p);
        if battle_mode {
            div_trunc_i128(base, 11)
        } else {
            div_trunc_i128(base + self.loot.value(&p) + self.dont_stay.value(&p), 9)
        }
    }
}

} // verus!
