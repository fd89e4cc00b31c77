//! The world as one tick's snapshot shows it, and the static rules of a match.

use vstd::prelude::*;
use crate::geometry::{
    Circle, Line, Vec2, ANGLE_ONE, COORD_LIMIT, UNIT, add_spec, mul_div_spec,
    scaled_to_spec, sq_dist, dot_of, sq_len, floor_sqrt, lemma_mul_bound, lemma_sq_nonneg,
};

verus! {

/// Bound on every configured length, speed and duration (2^24).
pub const QUANTITY_LIMIT: i64 = 16777216;

/// Bound on a tick number (2^30).
pub const TICK_LIMIT: i64 = 1073741824;

/// Milliseconds in a second.
pub const MILLIS: i64 = 1000;

#[derive(Clone, Copy, Debug, PartialEq, Eq, Structural)]
pub enum WeaponKind {
    Wand,
    Staff,
    Bow,
}

/// The weapon a unit prefers to every other.
pub const PREFERRED_WEAPON: WeaponKind = WeaponKind::Bow;

/// Static properties of one weapon.
#[derive(Clone, Copy, Debug, PartialEq, Eq, Structural)]
pub struct WeaponProps {
    /// Milli-units per second.
    pub projectile_speed: i64,
    /// Milliseconds.
    pub projectile_life_time: i64,
    /// Milliseconds.
    pub aim_time: i64,
    pub max_inventory_ammo: i32,
}

pub open spec fn weapon_range_spec(w: WeaponProps) -> int {
    w.projectile_speed * w.projectile_life_time / MILLIS as int
}

impl WeaponProps {
    pub open spec fn wf(self) -> bool {
        &&& 1 <= self.projectile_speed <= QUANTITY_LIMIT
        &&& 0 <= self.projectile_life_time <= QUANTITY_LIMIT
        &&& 0 <= self.aim_time <= QUANTITY_LIMIT
        &&& 0 <= self.max_inventory_ammo
        &&& weapon_range_spec(self) <= QUANTITY_LIMIT
    }

    /// Distance a projectile of this weapon travels before it vanishes.
    pub fn range(&self) -> (r: i64)
        requires
            self.wf(),
        ensures
            r as int == weapon_range_spec(*self),
            0 <= r <= QUANTITY_LIMIT,
    {
        proof {
            lemma_mul_bound(
                self.projectile_speed as int,
                self.projectile_life_time as int,
                QUANTITY_LIMIT as int,
                QUANTITY_LIMIT as int,
            );
            vstd::arithmetic::mul::lemma_mul_nonnegative(
                self.projectile_speed as int,
                self.projectile_life_time as int,
            );
        }
        self.projectile_speed * self.projectile_life_time / MILLIS
    }
}

/// One entry per weapon kind.
#[derive(Clone, Copy, Debug, PartialEq, Eq, Structural)]
pub struct WeaponTable {
    pub wand: WeaponProps,
    pub staff: WeaponProps,
    pub bow: WeaponProps,
}

impl WeaponTable {
    pub open spec fn spec_get(self, k: WeaponKind) -> WeaponProps {
        match k {
            WeaponKind::Wand => self.wand,
            WeaponKind::Staff => self.staff,
            WeaponKind::Bow => self.bow,
        }
    }

    pub open spec fn wf(self) -> bool {
        self.wand.wf() && self.staff.wf() && self.bow.wf()
    }

    pub fn get(&self, k: WeaponKind) -> (r: WeaponProps)
        ensures
            r == self.spec_get(k),
    {
        match k {
            WeaponKind::Wand => self.wand,
            WeaponKind::Staff => self.staff,
            WeaponKind::Bow => self.bow,
        }
    }
}

/// Ammunition held for each weapon kind.
#[derive(Clone, Copy, Debug, PartialEq, Eq, Structural)]
pub struct Ammo {
    pub wand: i32,
    pub staff: i32,
    pub bow: i32,
}

impl Ammo {
    pub open spec fn spec_get(self, k: WeaponKind) -> i32 {
        match k {
            WeaponKind::Wand => self.wand,
            WeaponKind::Staff => self.staff,
            WeaponKind::Bow => self.bow,
        }
    }

    pub open spec fn spec_set(self, k: WeaponKind, v: i32) -> Ammo {
        match k {
            WeaponKind::Wand => Ammo { wand: v, ..self },
            WeaponKind::Staff => Ammo { staff: v, ..self },
            WeaponKind::Bow => Ammo { bow: v, ..self },
        }
    }

    pub fn get(&self, k: WeaponKind) -> (r: i32)
        ensures
            r == self.spec_get(k),
    {
        match k {
            WeaponKind::Wand => self.wand,
            WeaponKind::Staff => self.staff,
            WeaponKind::Bow => self.bow,
        }
    }

    pub fn set(&mut self, k: WeaponKind, v: i32)
        ensures
            *final(self) == old(self).spec_set(k, v),
    {
        match k {
            WeaponKind::Wand => self.wand = v,
            WeaponKind::Staff => self.staff = v,
            WeaponKind::Bow => self.bow = v,
        }
    }
}

/// A unit of any team.
#[derive(Clone, Copy, Debug, PartialEq, Eq, Structural)]
pub struct Unit {
    pub id: i32,
    pub player_id: i32,
    pub position: Vec2,
    /// Milli-units per second.
    pub velocity: Vec2,
    pub direction: Vec2,
    pub health: i64,
    pub shield: i64,
    pub weapon: Option<WeaponKind>,
    pub ammo: Ammo,
    pub shield_potions: i32,
    /// Milliseconds until the unit has spawned; `None` once it has.
    pub remaining_spawn_time: Option<i64>,
}

/// The unit holds a weapon and ammunition for it.
pub open spec fn is_armed(u: Unit) -> bool {
    match u.weapon {
        Some(w) => u.ammo.spec_get(w) > 0,
        None => false,
    }
}

pub open spec fn unit_range_spec(u: Unit, c: Constants) -> Option<int> {
    match u.weapon {
        Some(w) => Some(weapon_range_spec(c.weapons.spec_get(w))),
        None => None,
    }
}

/// `p` lies in the unit's view cone: within view distance and within half
/// the field-of-view angle of its (normalized) direction. With `v = p -
/// position`, `d` the normalized direction and `c` the cosine of half that
/// angle (scaled by `ANGLE_ONE`), the angle test is
/// `dot(d, v) * ANGLE_ONE >= c * |d| * |v|`, decided on squares.
pub open spec fn in_fov_spec(u: Unit, p: Vec2, c: Constants) -> bool {
    let d = scaled_to_spec(u.direction, UNIT as int);
    let vx = p.x - u.position.x;
    let vy = p.y - u.position.y;
    let dot = dot_of(d.x as int, d.y as int, vx, vy);
    let lhs = dot * dot * (ANGLE_ONE * ANGLE_ONE);
    let rhs = (c.field_of_view_cos * c.field_of_view_cos) * sq_len(d.x as int, d.y as int) * sq_len(vx, vy);
    &&& sq_dist(u.position, p) <= c.view_distance * c.view_distance
    &&& if c.field_of_view_cos >= 0 {
        dot >= 0 && lhs >= rhs
    } else {
        dot >= 0 || lhs <= rhs
    }
}

impl Unit {
    pub open spec fn wf(self) -> bool {
        &&& self.position.wf()
        &&& self.velocity.wf()
        &&& self.direction.wf()
        &&& 0 <= self.health <= QUANTITY_LIMIT
        &&& 0 <= self.shield <= QUANTITY_LIMIT
        &&& 0 <= self.shield_potions
        &&& match self.remaining_spawn_time {
            Some(t) => -QUANTITY_LIMIT <= t <= QUANTITY_LIMIT,
            None => true,
        }
    }

    /// Range of the unit's weapon, if it holds one.
    pub fn range(&self, constants: &Constants) -> (r: Option<i64>)
        requires
            constants.wf(),
        ensures
            r matches Some(x) ==> 0 <= x <= QUANTITY_LIMIT,
            match r {
                Some(x) => unit_range_spec(*self, *constants) == Some(x as int),
                None => unit_range_spec(*self, *constants) is None,
            },
    {
        match self.weapon {
            Some(w) => Some(constants.weapons.get(w).range()),
            None => None,
        }
    }

    pub fn is_armed(&self) -> (b: bool)
        ensures
            b == is_armed(*self),
    {
        match self.weapon {
            Some(w) => self.ammo.get(w) > 0,
            None => false,
        }
    }

    /// The circle of radius `radius` around the unit.
    pub fn as_circle(&self, radius: i64) -> (r: Circle)
        ensures
            r.center == self.position,
            r.radius == radius,
    {
        Circle::new(self.position, radius)
    }

    /// Whether `p` lies in this unit's view cone.
    pub fn is_in_fov(&self, p: &Vec2, constants: &Constants) -> (b: bool)
        requires
            self.wf(),
            p.wf(),
            constants.wf(),
        ensures
            b == in_fov_spec(*self, *p, *constants),
    {
        let s = self.position.square_distance_to(p);
        let vd = constants.view_distance as i128;
        proof {
            lemma_mul_bound(vd as int, vd as int, QUANTITY_LIMIT as int, QUANTITY_LIMIT as int);
        }
        if s > vd * vd {
            return false;
        }
        let d = self.direction.normalize();
        let vx = p.x as i128 - self.position.x as i128;
        let vy = p.y as i128 - self.position.y as i128;
        let ghost lim: int = 2 * COORD_LIMIT as int;
        proof {
            lemma_mul_bound(d.x as int, vx as int, UNIT as int, lim);
            lemma_mul_bound(d.y as int, vy as int, UNIT as int, lim);
        }
        let dot = d.x as i128 * vx + d.y as i128 * vy;
        let c = constants.field_of_view_cos as i128;
        let a = ANGLE_ONE as i128;
        proof {
            lemma_mul_bound(dot as int, dot as int, 0x200_0000_0000int, 0x200_0000_0000int);
            assert(a * a == 100_000_000);
            lemma_sq_nonneg(dot as int);
            lemma_mul_bound((dot * dot) as int, (a * a) as int, 0x4_0000_0000_0000_0000_0000int, 0x800_0000int);
            lemma_mul_bound(c as int, c as int, ANGLE_ONE as int, ANGLE_ONE as int);
            lemma_sq_nonneg(c as int);
            lemma_mul_bound(d.x as int, d.x as int, UNIT as int, UNIT as int);
            lemma_mul_bound(d.y as int, d.y as int, UNIT as int, UNIT as int);
            lemma_sq_nonneg(d.x as int);
            lemma_sq_nonneg(d.y as int);
            lemma_mul_bound(vx as int, vx as int, lim, lim);
            lemma_mul_bound(vy as int, vy as int, lim, lim);
            lemma_sq_nonneg(vx as int);
            lemma_sq_nonneg(vy as int);
        }
        let dd = d.x as i128 * d.x as i128 + d.y as i128 * d.y as i128;
        let vv = vx * vx + vy * vy;
        proof {
            lemma_mul_bound((c * c) as int, dd as int, 0x800_0000int, 0x20_0000int);
            lemma_sq_nonneg((c * c) as int);
            lemma_mul_bound(((c * c) * dd) as int, vv as int, 0x1_0000_0000_0000int, 0x4000_0000_0000_0000int);
        }
        let lhs = dot * dot * (a * a);
        let rhs = (c * c) * dd * vv;
        if c >= 0 {
            dot >= 0 && lhs >= rhs
        } else {
            dot >= 0 || lhs <= rhs
        }
    }
}

/// A projectile in flight.
#[derive(Clone, Copy, Debug, PartialEq, Eq, Structural)]
pub struct Projectile {
    pub id: i32,
    pub weapon: WeaponKind,
    pub shooter_id: i32,
    pub shooter_player_id: i32,
    pub position: Vec2,
    /// Milli-units per second.
    pub velocity: Vec2,
    /// Milliseconds left before it vanishes.
    pub life_time: i64,
}

pub open spec fn moving_vec_spec(p: Projectile) -> Vec2 {
    mul_div_spec(p.velocity, p.life_time as int, MILLIS as int)
}

/// The segment the projectile will fly along before it vanishes.
pub open spec fn travel_line_spec(p: Projectile) -> Line {
    Line { start: p.position, end: add_spec(p.position, moving_vec_spec(p)) }
}

/// A projectile is dangerous to `me` when it is not friendly (or friendly
/// fire is on) and its travel line passes closer than three unit radii to
/// `me`.
pub open spec fn dangerous_spec(p: Projectile, me: Unit, c: Constants) -> bool {
    &&& (p.shooter_player_id != me.player_id || c.friendly_fire)
    &&& travel_line_spec(p).closer_than(me.position, 3 * c.unit_radius)
}

impl Projectile {
    pub open spec fn wf(self) -> bool {
        self.position.wf() && self.velocity.wf() && -QUANTITY_LIMIT <= self.life_time
            <= QUANTITY_LIMIT
    }

    pub fn moving_vec(&self) -> (r: Vec2)
        requires
            self.wf(),
        ensures
            r == moving_vec_spec(*self),
            r.wf(),
    {
        self.velocity.mul_div(self.life_time, MILLIS)
    }

    pub fn range(&self) -> (r: i64)
        requires
            self.wf(),
        ensures
            r as int == floor_sqrt(
                sq_len(moving_vec_spec(*self).x as int, moving_vec_spec(*self).y as int),
            ),
            r >= 0,
    {
        self.moving_vec().length()
    }

    pub fn as_line(&self) -> (r: Line)
        requires
            self.wf(),
        ensures
            r == travel_line_spec(*self),
            r.wf(),
    {
        Line::new(self.position, self.position.add(&self.moving_vec()))
    }

    pub fn is_dangerous(&self, me: &Unit, constants: &Constants) -> (b: bool)
        requires
            self.wf(),
            me.wf(),
            constants.wf(),
        ensures
            b == dangerous_spec(*self, *me, *constants),
    {
        if self.shooter_player_id == me.player_id && !constants.friendly_fire {
            return false;
        }
        self.as_line().is_closer_than(&me.position, 3 * constants.unit_radius)
    }
}

/// What a sound was made by.
#[derive(Clone, Copy, Debug, PartialEq, Eq, Structural)]
pub enum SoundKind {
    Shot(WeaponKind),
    Hit(WeaponKind),
    Steps,
    Other,
}

/// A sound heard by one of the controlled units.
#[derive(Clone, Copy, Debug, PartialEq, Eq, Structural)]
pub struct Sound {
    pub kind: SoundKind,
    /// How far from its source a sound of this kind may be heard.
    pub offset: i64,
    /// The unit that heard it.
    pub unit_id: i32,
    /// Where it was heard (not where it was made).
    pub position: Vec2,
}

pub open spec fn sound_weapon_range_spec(s: Sound, c: Constants) -> Option<int> {
    match s.kind {
        SoundKind::Shot(w) => Some(weapon_range_spec(c.weapons.spec_get(w))),
        SoundKind::Hit(w) => Some(weapon_range_spec(c.weapons.spec_get(w))),
        _ => None,
    }
}

impl Sound {
    pub open spec fn wf(self) -> bool {
        self.position.wf() && 0 <= self.offset <= QUANTITY_LIMIT
    }

    /// Range of the weapon that made the sound, for the sound of a shot or
    /// of a hit.
    pub fn get_weapon_shooting_range(&self, constants: &Constants) -> (r: Option<i64>)
        requires
            constants.wf(),
        ensures
            r matches Some(x) ==> 0 <= x <= QUANTITY_LIMIT,
            match r {
                Some(x) => sound_weapon_range_spec(*self, *constants) == Some(x as int),
                None => sound_weapon_range_spec(*self, *constants) is None,
            },
    {
        match self.kind {
            SoundKind::Shot(w) => Some(constants.weapons.get(w).range()),
            SoundKind::Hit(w) => Some(constants.weapons.get(w).range()),
            _ => None,
        }
    }
}

#[derive(Clone, Copy, Debug, PartialEq, Eq, Structural)]
pub enum Item {
    Weapon { kind: WeaponKind },
    Ammo { weapon: WeaponKind, amount: i32 },
    ShieldPotions { amount: i32 },
}

/// Loot lying on the ground.
#[derive(Clone, Copy, Debug, PartialEq, Eq, Structural)]
pub struct Loot {
    pub id: i32,
    pub position: Vec2,
    pub item: Item,
}

/// Whether picking the item up helps `me`: a weapon only when it is no worse
/// than the one held, ammunition only below the cap and for a weapon worth
/// using, potions only below the cap.
pub open spec fn useful_spec(item: Item, me: Unit, c: Constants) -> bool {
    match item {
        Item::Weapon { kind } => match me.weapon {
            None => true,
            Some(w) => if kind != PREFERRED_WEAPON {
                me.ammo.spec_get(w) == 0 && me.ammo.spec_get(kind) > 0
            } else if w == PREFERRED_WEAPON {
                false
            } else {
                me.ammo.spec_get(w) > 0
            },
        },
        Item::Ammo { weapon, .. } => if me.ammo.spec_get(weapon) == c.weapons.spec_get(
            weapon,
        ).max_inventory_ammo {
            false
        } else {
            match me.weapon {
                Some(w) => if w == PREFERRED_WEAPON {
                    weapon == PREFERRED_WEAPON
                } else {
                    weapon != WeaponKind::Staff
                },
                None => true,
            }
        },
        Item::ShieldPotions { .. } => me.shield_potions != c.max_shield_potions_in_inventory,
    }
}

impl Loot {
    pub open spec fn wf(self) -> bool {
        self.position.wf()
    }

    pub fn is_useful_to_me(&self, me: &Unit, constants: &Constants) -> (b: bool)
        ensures
            b == useful_spec(self.item, *me, *constants),
    {
        match self.item {
            Item::Weapon { kind } => {
                match me.weapon {
                    None => true,
                    Some(w) => {
                        if kind != WeaponKind::Bow {
                            me.ammo.get(w) == 0 && me.ammo.get(kind) > 0
                        } else if w == WeaponKind::Bow {
                            false
                        } else {
                            me.ammo.get(w) > 0
                        }
                    },
                }
            },
            Item::Ammo { weapon, .. } => {
                if me.ammo.get(weapon) == constants.weapons.get(weapon).max_inventory_ammo {
                    false
                } else {
                    match me.weapon {
                        Some(w) => if w == WeaponKind::Bow {
                            weapon == WeaponKind::Bow
                        } else {
                            weapon != WeaponKind::Staff
                        },
                        None => true,
                    }
                }
            },
            Item::ShieldPotions { .. } => {
                me.shield_potions != constants.max_shield_potions_in_inventory
            },
        }
    }
}

/// The safe zone now and the one it shrinks toward.
#[derive(Clone, Copy, Debug, PartialEq, Eq, Structural)]
pub struct Zone {
    pub current_center: Vec2,
    pub current_radius: i64,
    pub next_center: Vec2,
    pub next_radius: i64,
}

impl Zone {
    pub open spec fn wf(self) -> bool {
        &&& self.current_center.wf()
        &&& self.next_center.wf()
        &&& 0 <= self.current_radius <= QUANTITY_LIMIT
        &&& 0 <= self.next_radius <= QUANTITY_LIMIT
    }
}

impl Default for Zone {
    /// A zone of radius zero at the origin.
    fn default() -> (r: Zone)
        ensures
            r.current_center.is_zero(),
            r.next_center.is_zero(),
            r.current_radius == 0,
            r.next_radius == 0,
            r.wf(),
    {
        Zone {
            current_center: Vec2::zero(),
            current_radius: 0,
            next_center: Vec2::zero(),
            next_radius: 0,
        }
    }
}

/// A static obstacle of the arena.
#[derive(Clone, Copy, Debug, PartialEq, Eq, Structural)]
pub struct Obstacle {
    pub id: i32,
    pub position: Vec2,
    pub radius: i64,
    pub can_see_through: bool,
    pub can_shoot_through: bool,
}

impl Obstacle {
    pub open spec fn wf(self) -> bool {
        self.position.wf() && 0 <= self.radius <= QUANTITY_LIMIT
    }

    /// The obstacle's circle, inflated by `extra` (shrunk when negative).
    pub fn as_circle(&self, extra: i64) -> (r: Circle)
        requires
            self.wf(),
            -QUANTITY_LIMIT <= extra <= QUANTITY_LIMIT,
        ensures
            r.center == self.position,
            r.radius == self.radius + extra,
            r.wf(),
    {
        Circle::new(self.position, self.radius + extra)
    }
}

/// The static rules of a match.
#[derive(Clone, Debug)]
pub struct Constants {
    pub ticks_per_second: i64,
    pub unit_radius: i64,
    pub view_distance: i64,
    /// Cosine of half the field-of-view angle, scaled by `ANGLE_ONE`.
    pub field_of_view_cos: i64,
    pub weapons: WeaponTable,
    pub max_shield_potions_in_inventory: i32,
    pub max_shield: i64,
    pub shield_per_potion: i64,
    /// Milli-units per second.
    pub max_unit_forward_speed: i64,
    /// Milli-units per second.
    pub spawn_movement_speed: i64,
    pub friendly_fire: bool,
    pub initial_zone_radius: i64,
    pub obstacles: Vec<Obstacle>,
}

impl Constants {
    pub open spec fn wf(self) -> bool {
        &&& 1 <= self.ticks_per_second <= MILLIS
        &&& 1 <= self.unit_radius <= QUANTITY_LIMIT / 16
        &&& 0 <= self.view_distance <= QUANTITY_LIMIT
        &&& -ANGLE_ONE <= self.field_of_view_cos <= ANGLE_ONE
        &&& self.weapons.wf()
        &&& 0 <= self.max_shield <= QUANTITY_LIMIT
        &&& 0 <= self.shield_per_potion <= QUANTITY_LIMIT
        &&& 0 <= self.max_unit_forward_speed <= QUANTITY_LIMIT
        &&& 0 <= self.spawn_movement_speed <= QUANTITY_LIMIT
        &&& 0 <= self.initial_zone_radius <= QUANTITY_LIMIT
        &&& forall|i: int| 0 <= i < self.obstacles.len() ==> #[trigger] self.obstacles[i].wf()
    }
}

/// No two units share an id.
pub open spec fn distinct_ids(s: Seq<Unit>) -> bool {
    forall|i: int, j: int|
        0 <= i < s.len() && 0 <= j < s.len() && i != j ==> #[trigger] s[i].id != #[trigger] s[j].id
}

/// One tick's snapshot of what the controlled team sees.
#[derive(Clone, Debug)]
pub struct Game {
    /// The controlled team.
    pub my_id: i32,
    pub current_tick: i64,
    pub units: Vec<Unit>,
    pub projectiles: Vec<Projectile>,
    pub loot: Vec<Loot>,
    pub sounds: Vec<Sound>,
    pub zone: Zone,
}

impl Game {
    pub open spec fn wf(self) -> bool {
        &&& 0 <= self.current_tick <= TICK_LIMIT
        &&& forall|i: int| 0 <= i < self.units.len() ==> #[trigger] self.units[i].wf()
        &&& distinct_ids(self.units@)
        &&& forall|i: int| 0 <= i < self.projectiles.len() ==> #[trigger] self.projectiles[i].wf()
        &&& forall|i: int| 0 <= i < self.loot.len() ==> #[trigger] self.loot[i].wf()
        &&& forall|i: int| 0 <= i < self.sounds.len() ==> #[trigger] self.sounds[i].wf()
        &&& self.zone.wf()
    }
}

} // verus!
