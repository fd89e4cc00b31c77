//! Influence fields over the perception memory, the danger flag and the
//! candidate ring of the decision selector.
//!
//! A field value is an integer utility scaled by `VALUE_ONE`.

use vstd::prelude::*;
use crate::geometry::{
    Circle, Line, Vec2, ANGLE_ONE, add_spec, contains_spec, floor_sqrt, mul_div_spec, scaled_to_spec,
    sq_dist, sq_len, div_trunc, div_trunc_i128, lemma_mul_bound, vec_of,
};
use crate::memory::{MemoryView, PotentialField, ShotRecord, SoundRecord, SOUND_MEMORY_TICKS};
use crate::model::{
    Constants, Loot, Projectile, Sound, Unit, QUANTITY_LIMIT, TICK_LIMIT, dangerous_spec, in_fov_spec, moving_vec_spec, sound_weapon_range_spec, travel_line_spec,
    unit_range_spec, useful_spec,
};

verus! {

/// A utility of one.
pub const VALUE_ONE: i64 = 1000;

/// Milli-units in one arena unit.
pub const MILLI_UNITS: i64 = 1000;

/// Bound on the magnitude of one field term (2^51).
pub const TERM_BOUND: i128 = 2251799813685248;

/// Bound on the magnitude of one part of a term (2^50).
pub const PART_BOUND: i128 = 1125899906842624;

/// The closing-boundary penalty starts at least this many unit radii inside
/// the current zone.
pub const ZONE_MARGIN_RADII: i64 = 4;

/// ... and at least this fraction (one over it) of the current radius inside.
pub const ZONE_MARGIN_DIVISOR: i64 = 8;

/// Standoff used when the unit has no weapon (forty arena units).
pub const DEFAULT_STANDOFF: i64 = 40000;

/// How a unit engages enemies this tick.
#[derive(Clone, Copy, Debug, PartialEq, Eq, Structural)]
pub enum FightMode {
    Attack,
    Defend,
    RunWithNoWeapons,
}

// ---------------------------------------------------------------------------
// Shapes of terms.

pub open spec fn dist(a: Vec2, b: Vec2) -> int {
    floor_sqrt(sq_dist(a, b))
}

/// `1 - d / lim`, scaled.
pub open spec fn falloff(d: int, lim: int) -> int {
    VALUE_ONE - d * VALUE_ONE / lim
}

/// `v` weighted by how fresh a sound heard at `tick` is at `now`: one when
/// just heard, zero once `SOUND_MEMORY_TICKS` old.
pub open spec fn aged(v: int, now: int, tick: int) -> int {
    div_trunc(v * (SOUND_MEMORY_TICKS - (now - tick)), SOUND_MEMORY_TICKS as int)
}

/// `a` and `b` are at most `r` apart.
pub open spec fn within_dist(a: Vec2, b: Vec2, r: int) -> bool {
    r >= 0 && sq_dist(a, b) <= r * r
}

/// `a` and `b` are at least `r` apart.
pub open spec fn at_least_dist(a: Vec2, b: Vec2, r: int) -> bool {
    r <= 0 || sq_dist(a, b) >= r * r
}

pub open spec fn sum_of<A>(s: Seq<A>, f: spec_fn(A) -> int) -> int
    decreases s.len(),
{
    if s.len() == 0 {
        0
    } else {
        sum_of(s.drop_last(), f) + f(s.last())
    }
}

proof fn lemma_sum_step<A>(s: Seq<A>, f: spec_fn(A) -> int, i: int)
    requires
        0 <= i < s.len(),
    ensures
        sum_of(s.take(i + 1), f) == sum_of(s.take(i), f) + f(s[i]),
{
    assert(s.take(i + 1).drop_last() =~= s.take(i));
}

proof fn lemma_sum_all<A>(s: Seq<A>, f: spec_fn(A) -> int)
    ensures
        sum_of(s.take(s.len() as int), f) == sum_of(s, f),
{
    assert(s.take(s.len() as int) =~= s);
}

// ---------------------------------------------------------------------------
// The terms of each field.

pub open spec fn progress_bonus(p: Projectile, pos: Vec2) -> int {
    let mv = moving_vec_spec(p);
    let range = floor_sqrt(sq_len(mv.x as int, mv.y as int));
    if range > 0 {
        dist(p.position, pos) * VALUE_ONE / (20 * range)
    } else {
        0
    }
}

/// Near a dangerous projectile's travel line: a penalty falling linearly to
/// zero at five unit radii, plus a small reward for lying farther along the
/// projectile's path.
pub open spec fn projectile_term(p: Projectile, pos: Vec2, c: Constants) -> int {
    let d = travel_line_spec(p).distance_spec(pos);
    let lim = 5 * c.unit_radius;
    if d > lim {
        0
    } else {
        -falloff(d, lim) + progress_bonus(p, pos)
    }
}

pub open spec fn projectile_term_fn(pos: Vec2, c: Constants) -> spec_fn(Projectile) -> int {
    |p: Projectile| projectile_term(p, pos, c)
}

pub open spec fn shot_term(r: ShotRecord, pos: Vec2, now: int, c: Constants) -> int {
    let d = (Line { start: r.sound.position, end: r.listener }).distance_spec(pos);
    let lim = 4 * c.unit_radius;
    if d > lim {
        0
    } else {
        -aged(falloff(d, lim), now, r.tick as int)
    }
}

pub open spec fn shot_term_fn(pos: Vec2, now: int, c: Constants) -> spec_fn(ShotRecord) -> int {
    |r: ShotRecord| shot_term(r, pos, now, c)
}

pub open spec fn point_sound_term(r: SoundRecord, pos: Vec2, now: int, c: Constants) -> int {
    let d = dist(r.sound.position, pos);
    let lim = 5 * c.unit_radius;
    if d > lim {
        0
    } else {
        -aged(falloff(d, lim), now, r.tick as int)
    }
}

pub open spec fn point_sound_term_fn(pos: Vec2, now: int, c: Constants) -> spec_fn(
    SoundRecord,
) -> int {
    |r: SoundRecord| point_sound_term(r, pos, now, c)
}

/// The zone field: inside the next zone shrunk by four unit radii (but no
/// less than two) the value grows from zero to one toward that boundary;
/// beyond it the value falls below zero in proportion to the overshoot.
pub open spec fn zone_value(m: MemoryView, pos: Vec2, c: Constants) -> int {
    let d = dist(m.zone.next_center, pos);
    let w = if m.zone.next_radius - 4 * c.unit_radius > 2 * c.unit_radius {
        m.zone.next_radius - 4 * c.unit_radius
    } else {
        2 * c.unit_radius
    };
    if d < w {
        d * VALUE_ONE / w
    } else {
        VALUE_ONE - d * VALUE_ONE / w
    }
}

/// How far inside the current zone's boundary the closing-boundary
/// penalty starts: `ZONE_MARGIN_RADII` unit radii, or the
/// `ZONE_MARGIN_DIVISOR`-th part of the current radius if that is more.
pub open spec fn zone_margin(m: MemoryView, c: Constants) -> int {
    let by_radius = ZONE_MARGIN_RADII as int * c.unit_radius as int;
    let by_zone = m.zone.current_radius as int / ZONE_MARGIN_DIVISOR as int;
    if by_radius >= by_zone {
        by_radius
    } else {
        by_zone
    }
}

/// The outside-zone field: minus the distance (in arena units) by which
/// the position lies beyond the current zone shrunk by the zone margin.
pub open spec fn outside_value(m: MemoryView, pos: Vec2, c: Constants) -> int {
    let d = dist(m.zone.current_center, pos);
    let mx = m.zone.current_radius - zone_margin(m, c);
    if d > mx {
        -((d - mx) * VALUE_ONE / MILLI_UNITS as int)
    } else {
        0
    }
}

pub open spec fn standoff(me: Unit, c: Constants) -> int {
    match unit_range_spec(me, c) {
        Some(r) => r * 3 / 4,
        None => DEFAULT_STANDOFF as int,
    }
}

/// The part of an enemy's term that depends on the fight mode.
pub open spec fn standoff_term(pos: Vec2, me: Unit, mode: FightMode, e: Unit, c: Constants) -> int {
    let d = dist(e.position, pos);
    match mode {
        FightMode::Attack => {
            let t = standoff(me, c);
            if t <= 0 {
                0
            } else if d < t {
                -falloff(d, t)
            } else if d < 4 * t {
                (d * VALUE_ONE / t - VALUE_ONE) / 2
            } else {
                0
            }
        },
        FightMode::Defend => match unit_range_spec(e, c) {
            Some(er) => if er > 0 {
                -falloff(d, er)
            } else {
                0
            },
            None => {
                let t = match unit_range_spec(me, c) {
                    Some(r) => r,
                    None => DEFAULT_STANDOFF as int,
                } * 3 / 4;
                if t <= 0 {
                    0
                } else if d < t {
                    -falloff(d, t)
                } else if d < 2 * t {
                    (d * VALUE_ONE / t - VALUE_ONE) / 4
                } else {
                    0
                }
            },
        },
        FightMode::RunWithNoWeapons => {
            let vd = c.view_distance + 2 * c.unit_radius;
            if d < vd {
                -falloff(d, vd)
            } else {
                0
            }
        },
    }
}

/// The enemy's aim line: its direction stretched to its weapon's range.
pub open spec fn aim_line(e: Unit, er: int) -> Line {
    Line { start: e.position, end: add_spec(e.position, scaled_to_spec(e.direction, er)) }
}

/// Standing in an armed enemy's aim line costs up to one half, falling to
/// zero at three unit radii from it.
pub open spec fn crosshair_term(pos: Vec2, e: Unit, c: Constants) -> int {
    match unit_range_spec(e, c) {
        Some(er) => {
            let d = aim_line(e, er).distance_spec(pos);
            let lim = 3 * c.unit_radius;
            if d > lim {
                0
            } else {
                -(falloff(d, lim) / 2)
            }
        },
        None => 0,
    }
}

pub open spec fn enemy_term(pos: Vec2, me: Unit, mode: FightMode, e: Unit, c: Constants) -> int {
    standoff_term(pos, me, mode, e, c) + crosshair_term(pos, e, c)
}

pub open spec fn visible_enemy_term_fn(
    pos: Vec2,
    me: Unit,
    mode: FightMode,
    my_id: i32,
    c: Constants,
) -> spec_fn(Unit) -> int {
    |e: Unit|
        if e.player_id != my_id {
            enemy_term(pos, me, mode, e, c)
        } else {
            0
        }
}

pub open spec fn remembered_enemy_term_fn(pos: Vec2, me: Unit, mode: FightMode, c: Constants) -> spec_fn(
    Unit,
) -> int {
    |e: Unit| enemy_term(pos, me, mode, e, c)
}

/// Closer than three unit radii to an ally costs up to one; farther than ten
/// earns `10 radii / distance`.
pub open spec fn ally_term(pos: Vec2, me: Unit, a: Unit, my_id: i32, c: Constants) -> int {
    if a.player_id == my_id && a.id != me.id {
        let d = dist(a.position, pos);
        let lo = 3 * c.unit_radius;
        let hi = 10 * c.unit_radius;
        if d < lo {
            -falloff(d, lo)
        } else if d > hi {
            hi * VALUE_ONE / d
        } else {
            0
        }
    } else {
        0
    }
}

pub open spec fn ally_term_fn(pos: Vec2, me: Unit, my_id: i32, c: Constants) -> spec_fn(Unit) -> int {
    |a: Unit| ally_term(pos, me, a, my_id, c)
}

/// Useful loot within ten unit radii earns up to one, falling with
/// distance.
pub open spec fn loot_term(pos: Vec2, me: Unit, l: Loot, c: Constants) -> int {
    if useful_spec(l.item, me, c) {
        let d = dist(l.position, pos);
        let hi = 10 * c.unit_radius;
        if d < hi {
            falloff(d, hi)
        } else {
            0
        }
    } else {
        0
    }
}

pub open spec fn loot_term_fn(pos: Vec2, me: Unit, c: Constants) -> spec_fn(Loot) -> int {
    |l: Loot| loot_term(pos, me, l, c)
}

// ---------------------------------------------------------------------------
// Field values over a memory.

pub open spec fn projectiles_value(m: MemoryView, pos: Vec2, c: Constants) -> int {
    sum_of(m.dangerous_projectiles, projectile_term_fn(pos, c))
}

pub open spec fn shooting_sounds_value(m: MemoryView, pos: Vec2, c: Constants) -> int {
    sum_of(m.shooting_sounds, shot_term_fn(pos, m.current_tick as int, c))
}

pub open spec fn hit_sounds_value(m: MemoryView, pos: Vec2, c: Constants) -> int {
    sum_of(m.hit_sounds, point_sound_term_fn(pos, m.current_tick as int, c))
}

pub open spec fn steps_sounds_value(m: MemoryView, pos: Vec2, c: Constants) -> int {
    sum_of(m.steps_sounds, point_sound_term_fn(pos, m.current_tick as int, c))
}

pub open spec fn enemies_value(m: MemoryView, pos: Vec2, me: Unit, mode: FightMode, c: Constants) -> int {
    sum_of(m.seeing_units, visible_enemy_term_fn(pos, me, mode, m.my_id, c)) + sum_of(
        m.old_enemies,
        remembered_enemy_term_fn(pos, me, mode, c),
    )
}

pub open spec fn allies_value(m: MemoryView, pos: Vec2, me: Unit, c: Constants) -> int {
    sum_of(m.seeing_units, ally_term_fn(pos, me, m.my_id, c))
}

pub open spec fn loot_value(m: MemoryView, pos: Vec2, me: Unit, c: Constants) -> int {
    sum_of(m.loot, loot_term_fn(pos, me, c))
}

// ---------------------------------------------------------------------------
// Danger.

pub open spec fn shot_threat(s: Sound, me: Unit, c: Constants) -> bool {
    !in_fov_spec(me, s.position, c) && match sound_weapon_range_spec(s, c) {
        Some(r) => within_dist(s.position, me.position, r + s.offset),
        None => false,
    }
}

pub open spec fn hit_threat(s: Sound, me: Unit, c: Constants) -> bool {
    within_dist(s.position, me.position, c.unit_radius + s.offset)
}

/// The position lies beyond the current zone shrunk by the zone margin.
pub open spec fn outside_spec(m: MemoryView, p: Vec2, c: Constants) -> bool {
    at_least_dist(p, m.zone.current_center, m.zone.current_radius - zone_margin(m, c))
}

pub open spec fn projectile_threat(m: MemoryView, me: Unit, c: Constants) -> bool {
    exists|i: int|
        0 <= i < m.dangerous_projectiles.len() && dangerous_spec(
            #[trigger] m.dangerous_projectiles[i],
            me,
            c,
        )
}

/// The danger flag: a remembered projectile threatens the unit, a shot it
/// cannot see was heard within that weapon's reach, a hit was heard right
/// next to it, or it stands outside the shrunk current zone.
pub open spec fn danger_spec(m: MemoryView, me: Unit, c: Constants) -> bool {
    ||| projectile_threat(m, me, c)
    ||| exists|i: int|
        0 <= i < m.shooting_sounds.len() && shot_threat(#[trigger] m.shooting_sounds[i].sound, me, c)
    ||| exists|i: int|
        0 <= i < m.hit_sounds.len() && hit_threat(#[trigger] m.hit_sounds[i].sound, me, c)
    ||| outside_spec(m, me.position, c)
}

/// The aggregate utility: under danger only the survival fields count
/// (projectiles, leaving the zone, shots heard, enemies), with heavy weights
/// on the first two; otherwise every field counts.
pub open spec fn value_spec(m: MemoryView, pos: Vec2, me: Unit, mode: FightMode, c: Constants) -> int {
    if danger_spec(m, me, c) {
        projectiles_value(m, pos, c) * 3 + outside_value(m, pos, c) * 5 + shooting_sounds_value(
            m,
            pos,
            c,
        ) + enemies_value(m, pos, me, mode, c)
    } else {
        zone_value(m, pos, c) + outside_value(m, pos, c) * 5 + hit_sounds_value(m, pos, c)
            + steps_sounds_value(m, pos, c) + enemies_value(m, pos, me, mode, c) + allies_value(
            m,
            pos,
            me,
            c,
        ) + loot_value(m, pos, me, c)
    }
}

/// The utility used while the unit is still spawning: it only flees.
pub open spec fn value_unspawned_spec(m: MemoryView, pos: Vec2, me: Unit, c: Constants) -> int {
    zone_value(m, pos, c) * 5 + outside_value(m, pos, c) * 5 + shooting_sounds_value(m, pos, c)
        + hit_sounds_value(m, pos, c) + steps_sounds_value(m, pos, c) + enemies_value(
        m,
        pos,
        me,
        FightMode::RunWithNoWeapons,
        c,
    ) + allies_value(m, pos, me, c) + loot_value(m, pos, me, c)
}

// ---------------------------------------------------------------------------
// Executable helpers.

/// `1 - d / lim`, scaled, for `0 <= d` and `0 < lim`.
pub fn falloff_exec(d: i64, lim: i64) -> (r: i128)
    requires
        0 <= d <= 0x1_0000_0000,
        0 < lim <= 0x1_0000_0000,
    ensures
        r as int == falloff(d as int, lim as int),
        -0x10_0000_0000_0000 <= r <= VALUE_ONE,
        d <= lim ==> 0 <= r,
{
    proof {
        if d <= lim {
            vstd::arithmetic::div_mod::lemma_div_is_ordered(d * VALUE_ONE, lim * VALUE_ONE, lim as int);
            vstd::arithmetic::div_mod::lemma_div_multiples_vanish(VALUE_ONE as int, lim as int);
            assert(lim * VALUE_ONE == VALUE_ONE * lim);
        }
        lemma_mul_bound(d as int, VALUE_ONE as int, 0x1_0000_0000int, VALUE_ONE as int);
        vstd::arithmetic::div_mod::lemma_div_is_ordered_by_denominator(d * VALUE_ONE, 1, lim as int);
        vstd::arithmetic::div_mod::lemma_div_pos_is_pos(d * VALUE_ONE, lim as int);
    }
    VALUE_ONE as i128 - (d as i128 * VALUE_ONE as i128) / lim as i128
}

pub fn aged_exec(v: i128, now: i64, tick: i64) -> (r: i128)
    requires
        0 <= v <= VALUE_ONE,
        0 <= now <= TICK_LIMIT,
        0 <= tick <= TICK_LIMIT,
    ensures
        r as int == aged(v as int, now as int, tick as int),
        -PART_BOUND <= r <= PART_BOUND,
{
    let w = SOUND_MEMORY_TICKS as i128 - (now as i128 - tick as i128);
    proof {
        lemma_mul_bound(v as int, w as int, VALUE_ONE as int, 0x1_0000_0000int);
    }
    let r = div_trunc_i128(v * w, SOUND_MEMORY_TICKS as i128);
    proof {
        let a = if v * w >= 0 { v * w } else { -(v * w) };
        vstd::arithmetic::div_mod::lemma_div_is_ordered_by_denominator(a as int, 1, SOUND_MEMORY_TICKS as int);
        vstd::arithmetic::div_mod::lemma_div_pos_is_pos(a as int, SOUND_MEMORY_TICKS as int);
    }
    r
}

pub fn dist_exec(a: &Vec2, b: &Vec2) -> (r: i64)
    requires
        a.wf(),
        b.wf(),
    ensures
        r as int == dist(*a, *b),
        0 <= r <= 0x6000_0000,
{
    let r = a.distance_to(b);
    proof {
        lemma_mul_bound(a.x - b.x, a.x - b.x, 0x4000_0000int, 0x4000_0000int);
        lemma_mul_bound(a.y - b.y, a.y - b.y, 0x4000_0000int, 0x4000_0000int);
        if r > 0x6000_0000 {
            assert((r as int) * (r as int) > 0x2400_0000_0000_0000int) by (nonlinear_arith)
                requires
                    r as int > 0x6000_0000int,
            ;
        }
    }
    r
}

/// Whether `a` and `b` are at most `r` apart.
pub fn within_dist_exec(a: &Vec2, b: &Vec2, r: i64) -> (res: bool)
    requires
        a.wf(),
        b.wf(),
        -0x1_0000_0000 <= r <= 0x1_0000_0000,
    ensures
        res == within_dist(*a, *b, r as int),
{
    if r < 0 {
        return false;
    }
    let s = a.square_distance_to(b);
    proof {
        lemma_mul_bound(r as int, r as int, 0x1_0000_0000int, 0x1_0000_0000int);
    }
    s <= r as i128 * r as i128
}

/// Whether `a` and `b` are at least `r` apart.
pub fn at_least_dist_exec(a: &Vec2, b: &Vec2, r: i64) -> (res: bool)
    requires
        a.wf(),
        b.wf(),
        -0x1_0000_0000 <= r <= 0x1_0000_0000,
    ensures
        res == at_least_dist(*a, *b, r as int),
{
    if r <= 0 {
        return true;
    }
    let s = a.square_distance_to(b);
    proof {
        lemma_mul_bound(r as int, r as int, 0x1_0000_0000int, 0x1_0000_0000int);
    }
    s >= r as i128 * r as i128
}

/// Bound on the magnitude of an aggregate utility (2^120).
pub const VALUE_BOUND: i128 = 1329227995784915872903807060280344576;

/// Bound on the magnitude of a sum of terms over one collection (2^115).
pub const SUM_BOUND: i128 = 41538374868278621028243970633760768;

proof fn lemma_sum_bound_step(acc: int, t: int, i: int)
    requires
        0 <= i < 0x1_0000_0000_0000_0000int,
        -(i * TERM_BOUND) <= acc <= i * TERM_BOUND,
        -TERM_BOUND <= t <= TERM_BOUND,
    ensures
        -((i + 1) * TERM_BOUND) <= acc + t <= (i + 1) * TERM_BOUND,
        (i + 1) * TERM_BOUND <= SUM_BOUND,
{
}

fn projectile_term_exec(p: &Projectile, pos: &Vec2, c: &Constants) -> (r: i128)
    requires
        p.wf(),
        pos.wf(),
        c.wf(),
    ensures
        r as int == projectile_term(*p, *pos, *c),
        -TERM_BOUND <= r <= TERM_BOUND,
{
    let d = p.as_line().distance_to_point(pos);
    let lim = 5 * c.unit_radius;
    if d > lim {
        return 0;
    }
    let fall = falloff_exec(d, lim);
    let range = p.range();
    let bonus: i128 = if range > 0 {
        let d2 = dist_exec(&p.position, pos);
        proof {
            lemma_mul_bound(d2 as int, VALUE_ONE as int, 0x1_0000_0000int, VALUE_ONE as int);
            vstd::arithmetic::div_mod::lemma_div_is_ordered_by_denominator(
                d2 * VALUE_ONE,
                1,
                20 * range,
            );
            vstd::arithmetic::div_mod::lemma_div_pos_is_pos(d2 * VALUE_ONE, 20 * range);
        }
        (d2 as i128 * VALUE_ONE as i128) / (20 * range as i128)
    } else {
        0
    };
    -fall + bonus
}

fn shot_term_exec(r: &ShotRecord, pos: &Vec2, now: i64, c: &Constants) -> (v: i128)
    requires
        r.wf(),
        pos.wf(),
        c.wf(),
        0 <= now <= TICK_LIMIT,
    ensures
        v as int == shot_term(*r, *pos, now as int, *c),
        -TERM_BOUND <= v <= TERM_BOUND,
{
    let line = Line::new(r.sound.position, r.listener);
    let d = line.distance_to_point(pos);
    let lim = 4 * c.unit_radius;
    if d > lim {
        return 0;
    }
    let fall = falloff_exec(d, lim);
    -aged_exec(fall, now, r.tick)
}

fn point_sound_term_exec(r: &SoundRecord, pos: &Vec2, now: i64, c: &Constants) -> (v: i128)
    requires
        r.wf(),
        pos.wf(),
        c.wf(),
        0 <= now <= TICK_LIMIT,
    ensures
        v as int == point_sound_term(*r, *pos, now as int, *c),
        -TERM_BOUND <= v <= TERM_BOUND,
{
    let d = dist_exec(&r.sound.position, pos);
    let lim = 5 * c.unit_radius;
    if d > lim {
        return 0;
    }
    let fall = falloff_exec(d, lim);
    -aged_exec(fall, now, r.tick)
}

/// `d / t - 1`, scaled and divided by `k`, for `0 < t <= d`.
fn beyond_exec(d: i64, t: i64, k: i128) -> (r: i128)
    requires
        0 <= d <= 0x1_0000_0000,
        0 < t <= d,
        k == 2 || k == 4,
    ensures
        r as int == (d as int * VALUE_ONE as int / t as int - VALUE_ONE as int) / (k as int),
        -TERM_BOUND <= r <= TERM_BOUND,
{
    proof {
        lemma_mul_bound(d as int, VALUE_ONE as int, 0x1_0000_0000int, VALUE_ONE as int);
        vstd::arithmetic::div_mod::lemma_div_is_ordered_by_denominator(d * VALUE_ONE, 1, t as int);
        vstd::arithmetic::div_mod::lemma_div_is_ordered(t * VALUE_ONE, d * VALUE_ONE, t as int);
        vstd::arithmetic::div_mod::lemma_div_multiples_vanish(VALUE_ONE as int, t as int);
        assert(t * VALUE_ONE == VALUE_ONE * t);
    }
    let q = (d as i128 * VALUE_ONE as i128) / t as i128 - VALUE_ONE as i128;
    q / k
}

fn standoff_term_exec(pos: &Vec2, me: &Unit, mode: FightMode, e: &Unit, c: &Constants) -> (r: i128)
    requires
        pos.wf(),
        me.wf(),
        e.wf(),
        c.wf(),
    ensures
        r as int == standoff_term(*pos, *me, mode, *e, *c),
        -PART_BOUND <= r <= PART_BOUND,
{
    let d = dist_exec(&e.position, pos);
    match mode {
        FightMode::Attack => {
            let t = match me.range(c) {
                Some(r) => r * 3 / 4,
                None => DEFAULT_STANDOFF,
            };
            if t <= 0 {
                0
            } else if d < t {
                -falloff_exec(d, t)
            } else if d < 4 * t {
                beyond_exec(d, t, 2)
            } else {
                0
            }
        },
        FightMode::Defend => match e.range(c) {
            Some(er) => if er > 0 {
                -falloff_exec(d, er)
            } else {
                0
            },
            None => {
                let t = match me.range(c) {
                    Some(r) => r,
                    None => DEFAULT_STANDOFF,
                } * 3 / 4;
                if t <= 0 {
                    0
                } else if d < t {
                    -falloff_exec(d, t)
                } else if d < 2 * t {
                    beyond_exec(d, t, 4)
                } else {
                    0
                }
            },
        },
        FightMode::RunWithNoWeapons => {
            let vd = c.view_distance + 2 * c.unit_radius;
            if d < vd {
                -falloff_exec(d, vd)
            } else {
                0
            }
        },
    }
}

fn crosshair_term_exec(pos: &Vec2, e: &Unit, c: &Constants) -> (r: i128)
    requires
        pos.wf(),
        e.wf(),
        c.wf(),
    ensures
        r as int == crosshair_term(*pos, *e, *c),
        -PART_BOUND <= r <= PART_BOUND,
{
    match e.range(c) {
        Some(er) => {
            let aim = Line::new(e.position, e.position.add(&e.direction.scaled_to(er)));
            let d = aim.distance_to_point(pos);
            let lim = 3 * c.unit_radius;
            if d > lim {
                0
            } else {
                -(falloff_exec(d, lim) / 2)
            }
        },
        None => 0,
    }
}

fn enemy_term_exec(pos: &Vec2, me: &Unit, mode: FightMode, e: &Unit, c: &Constants) -> (r: i128)
    requires
        pos.wf(),
        me.wf(),
        e.wf(),
        c.wf(),
    ensures
        r as int == enemy_term(*pos, *me, mode, *e, *c),
        -TERM_BOUND <= r <= TERM_BOUND,
{
    standoff_term_exec(pos, me, mode, e, c) + crosshair_term_exec(pos, e, c)
}

fn ally_term_exec(pos: &Vec2, me: &Unit, a: &Unit, my_id: i32, c: &Constants) -> (r: i128)
    requires
        pos.wf(),
        me.wf(),
        a.wf(),
        c.wf(),
    ensures
        r as int == ally_term(*pos, *me, *a, my_id, *c),
        -TERM_BOUND <= r <= TERM_BOUND,
{
    if a.player_id == my_id && a.id != me.id {
        let d = dist_exec(&a.position, pos);
        let lo = 3 * c.unit_radius;
        let hi = 10 * c.unit_radius;
        if d < lo {
            -falloff_exec(d, lo)
        } else if d > hi {
            proof {
                lemma_mul_bound(hi as int, VALUE_ONE as int, QUANTITY_LIMIT as int, VALUE_ONE as int);
                vstd::arithmetic::div_mod::lemma_div_is_ordered_by_denominator(hi * VALUE_ONE, 1, d as int);
                vstd::arithmetic::div_mod::lemma_div_pos_is_pos(hi * VALUE_ONE, d as int);
            }
            (hi as i128 * VALUE_ONE as i128) / d as i128
        } else {
            0
        }
    } else {
        0
    }
}

fn loot_term_exec(pos: &Vec2, me: &Unit, l: &Loot, c: &Constants) -> (r: i128)
    requires
        pos.wf(),
        me.wf(),
        l.wf(),
        c.wf(),
    ensures
        r as int == loot_term(*pos, *me, *l, *c),
        -TERM_BOUND <= r <= TERM_BOUND,
{
    if l.is_useful_to_me(me, c) {
        let d = dist_exec(&l.position, pos);
        let hi = 10 * c.unit_radius;
        if d < hi {
            falloff_exec(d, hi)
        } else {
            0
        }
    } else {
        0
    }
}

impl PotentialField {

    /// The projectile-danger field at `position`.
    pub fn value_projectiles(&self, position: &Vec2, constants: &Constants) -> (r: i128)
        requires
            self@.wf(),
            position.wf(),
            constants.wf(),
        ensures
            r as int == projectiles_value(self@, *position, *constants),
            -SUM_BOUND <= r <= SUM_BOUND,
    {
        let ghost f = projectile_term_fn(*position, *constants);
        let mut acc: i128 = 0;
        let mut i: usize = 0;
        while i < self.dangerous_projectiles.len()
            invariant
                self@.wf(),
                position.wf(),
                constants.wf(),
                f == projectile_term_fn(*position, *constants),
                i <= self.dangerous_projectiles.len(),
                acc as int == sum_of(self.dangerous_projectiles@.take(i as int), f),
                -(i as int) * (TERM_BOUND as int) <= acc <= (i as int) * (TERM_BOUND as int),
            decreases self.dangerous_projectiles.len() - i,
        {
            assert(self@.dangerous_projectiles[i as int].wf());
            let t = projectile_term_exec(&self.dangerous_projectiles[i], position, constants);
            proof {
                lemma_sum_step(self.dangerous_projectiles@, f, i as int);
                lemma_sum_bound_step(acc as int, t as int, i as int);
            }
            acc = acc + t;
            i += 1;
        }
        proof {
            lemma_sum_all(self.dangerous_projectiles@, f);
        }
        acc
    }

    /// The field of shots heard at `position`.
    pub fn value_shooting_sounds(&self, position: &Vec2, constants: &Constants) -> (r: i128)
        requires
            self@.wf(),
            position.wf(),
            constants.wf(),
        ensures
            r as int == shooting_sounds_value(self@, *position, *constants),
            -SUM_BOUND <= r <= SUM_BOUND,
    {
        let ghost f = shot_term_fn(*position, self.current_tick as int, *constants);
        let mut acc: i128 = 0;
        let mut i: usize = 0;
        while i < self.shooting_sounds.len()
            invariant
                self@.wf(),
                position.wf(),
                constants.wf(),
                f == shot_term_fn(*position, self.current_tick as int, *constants),
                i <= self.shooting_sounds.len(),
                acc as int == sum_of(self.shooting_sounds@.take(i as int), f),
                -(i as int) * (TERM_BOUND as int) <= acc <= (i as int) * (TERM_BOUND as int),
            decreases self.shooting_sounds.len() - i,
        {
            assert(self@.shooting_sounds[i as int].wf());
            let t = shot_term_exec(&self.shooting_sounds[i], position, self.current_tick, constants);
            proof {
                lemma_sum_step(self.shooting_sounds@, f, i as int);
                lemma_sum_bound_step(acc as int, t as int, i as int);
            }
            acc = acc + t;
            i += 1;
        }
        proof {
            lemma_sum_all(self.shooting_sounds@, f);
        }
        acc
    }

    /// The field of hits heard at `position`.
    pub fn value_hit_sounds(&self, position: &Vec2, constants: &Constants) -> (r: i128)
        requires
            self@.wf(),
            position.wf(),
            constants.wf(),
        ensures
            r as int == hit_sounds_value(self@, *position, *constants),
            -SUM_BOUND <= r <= SUM_BOUND,
    {
        let ghost f = point_sound_term_fn(*position, self.current_tick as int, *constants);
        let mut acc: i128 = 0;
        let mut i: usize = 0;
        while i < self.hit_sounds.len()
            invariant
                self@.wf(),
                position.wf(),
                constants.wf(),
                f == point_sound_term_fn(*position, self.current_tick as int, *constants),
                i <= self.hit_sounds.len(),
                acc as int == sum_of(self.hit_sounds@.take(i as int), f),
                -(i as int) * (TERM_BOUND as int) <= acc <= (i as int) * (TERM_BOUND as int),
            decreases self.hit_sounds.len() - i,
        {
            assert(self@.hit_sounds[i as int].wf());
            let t = point_sound_term_exec(&self.hit_sounds[i], position, self.current_tick, constants);
            proof {
                lemma_sum_step(self.hit_sounds@, f, i as int);
                lemma_sum_bound_step(acc as int, t as int, i as int);
            }
            acc = acc + t;
            i += 1;
        }
        proof {
            lemma_sum_all(self.hit_sounds@, f);
        }
        acc
    }

    /// The field of footsteps heard at `position`.
    pub fn value_steps_sounds(&self, position: &Vec2, constants: &Constants) -> (r: i128)
        requires
            self@.wf(),
            position.wf(),
            constants.wf(),
        ensures
            r as int == steps_sounds_value(self@, *position, *constants),
            -SUM_BOUND <= r <= SUM_BOUND,
    {
        let ghost f = point_sound_term_fn(*position, self.current_tick as int, *constants);
        let mut acc: i128 = 0;
        let mut i: usize = 0;
        while i < self.steps_sounds.len()
            invariant
                self@.wf(),
                position.wf(),
                constants.wf(),
                f == point_sound_term_fn(*position, self.current_tick as int, *constants),
                i <= self.steps_sounds.len(),
                acc as int == sum_of(self.steps_sounds@.take(i as int), f),
                -(i as int) * (TERM_BOUND as int) <= acc <= (i as int) * (TERM_BOUND as int),
            decreases self.steps_sounds.len() - i,
        {
            assert(self@.steps_sounds[i as int].wf());
            let t = point_sound_term_exec(&self.steps_sounds[i], position, self.current_tick, constants);
            proof {
                lemma_sum_step(self.steps_sounds@, f, i as int);
                lemma_sum_bound_step(acc as int, t as int, i as int);
            }
            acc = acc + t;
            i += 1;
        }
        proof {
            lemma_sum_all(self.steps_sounds@, f);
        }
        acc
    }

    /// The enemy field at `position` over the enemies in sight.
    pub fn value_visible_enemies(&self, position: &Vec2, me: &Unit, fight_mode: FightMode, constants: &Constants) -> (r: i128)
        requires
            self@.wf(),
            position.wf(),
            constants.wf(),
            me.wf(),
        ensures
            r as int == sum_of(self@.seeing_units, visible_enemy_term_fn(*position, *me, fight_mode, self@.my_id, *constants)),
            -SUM_BOUND <= r <= SUM_BOUND,
    {
        let ghost f = visible_enemy_term_fn(*position, *me, fight_mode, self.my_id, *constants);
        let mut acc: i128 = 0;
        let mut i: usize = 0;
        while i < self.seeing_units.len()
            invariant
                self@.wf(),
                position.wf(),
                constants.wf(),
            me.wf(),
                f == visible_enemy_term_fn(*position, *me, fight_mode, self.my_id, *constants),
                i <= self.seeing_units.len(),
                acc as int == sum_of(self.seeing_units@.take(i as int), f),
                -(i as int) * (TERM_BOUND as int) <= acc <= (i as int) * (TERM_BOUND as int),
            decreases self.seeing_units.len() - i,
        {
            assert(self@.seeing_units[i as int].wf());
            let t = if self.seeing_units[i].player_id != self.my_id { enemy_term_exec(position, me, fight_mode, &self.seeing_units[i], constants) } else { 0 };
            proof {
                lemma_sum_step(self.seeing_units@, f, i as int);
                lemma_sum_bound_step(acc as int, t as int, i as int);
            }
            acc = acc + t;
            i += 1;
        }
        proof {
            lemma_sum_all(self.seeing_units@, f);
        }
        acc
    }

    /// The enemy field at `position` over the remembered enemies.
    pub fn value_remembered_enemies(&self, position: &Vec2, me: &Unit, fight_mode: FightMode, constants: &Constants) -> (r: i128)
        requires
            self@.wf(),
            position.wf(),
            constants.wf(),
            me.wf(),
        ensures
            r as int == sum_of(self@.old_enemies, remembered_enemy_term_fn(*position, *me, fight_mode, *constants)),
            -SUM_BOUND <= r <= SUM_BOUND,
    {
        let ghost f = remembered_enemy_term_fn(*position, *me, fight_mode, *constants);
        let mut acc: i128 = 0;
        let mut i: usize = 0;
        while i < self.old_enemies.len()
            invariant
                self@.wf(),
                position.wf(),
                constants.wf(),
            me.wf(),
                f == remembered_enemy_term_fn(*position, *me, fight_mode, *constants),
                i <= self.old_enemies.len(),
                acc as int == sum_of(self.old_enemies@.take(i as int), f),
                -(i as int) * (TERM_BOUND as int) <= acc <= (i as int) * (TERM_BOUND as int),
            decreases self.old_enemies.len() - i,
        {
            assert(self@.old_enemies[i as int].wf());
            let t = enemy_term_exec(position, me, fight_mode, &self.old_enemies[i], constants);
            proof {
                lemma_sum_step(self.old_enemies@, f, i as int);
                lemma_sum_bound_step(acc as int, t as int, i as int);
            }
            acc = acc + t;
            i += 1;
        }
        proof {
            lemma_sum_all(self.old_enemies@, f);
        }
        acc
    }

    /// The ally field at `position`.
    pub fn value_allies(&self, position: &Vec2, me: &Unit, constants: &Constants) -> (r: i128)
        requires
            self@.wf(),
            position.wf(),
            constants.wf(),
            me.wf(),
        ensures
            r as int == allies_value(self@, *position, *me, *constants),
            -SUM_BOUND <= r <= SUM_BOUND,
    {
        let ghost f = ally_term_fn(*position, *me, self.my_id, *constants);
        let mut acc: i128 = 0;
        let mut i: usize = 0;
        while i < self.seeing_units.len()
            invariant
                self@.wf(),
                position.wf(),
                constants.wf(),
            me.wf(),
                f == ally_term_fn(*position, *me, self.my_id, *constants),
                i <= self.seeing_units.len(),
                acc as int == sum_of(self.seeing_units@.take(i as int), f),
                -(i as int) * (TERM_BOUND as int) <= acc <= (i as int) * (TERM_BOUND as int),
            decreases self.seeing_units.len() - i,
        {
            assert(self@.seeing_units[i as int].wf());
            let t = ally_term_exec(position, me, &self.seeing_units[i], self.my_id, constants);
            proof {
                lemma_sum_step(self.seeing_units@, f, i as int);
                lemma_sum_bound_step(acc as int, t as int, i as int);
            }
            acc = acc + t;
            i += 1;
        }
        proof {
            lemma_sum_all(self.seeing_units@, f);
        }
        acc
    }

    /// The loot field at `position`.
    pub fn value_loot(&self, position: &Vec2, me: &Unit, constants: &Constants) -> (r: i128)
        requires
            self@.wf(),
            position.wf(),
            constants.wf(),
            me.wf(),
        ensures
            r as int == loot_value(self@, *position, *me, *constants),
            -SUM_BOUND <= r <= SUM_BOUND,
    {
        let ghost f = loot_term_fn(*position, *me, *constants);
        let mut acc: i128 = 0;
        let mut i: usize = 0;
        while i < self.loot.len()
            invariant
                self@.wf(),
                position.wf(),
                constants.wf(),
            me.wf(),
                f == loot_term_fn(*position, *me, *constants),
                i <= self.loot.len(),
                acc as int == sum_of(self.loot@.take(i as int), f),
                -(i as int) * (TERM_BOUND as int) <= acc <= (i as int) * (TERM_BOUND as int),
            decreases self.loot.len() - i,
        {
            assert(self@.loot[i as int].wf());
            let t = loot_term_exec(position, me, &self.loot[i], constants);
            proof {
                lemma_sum_step(self.loot@, f, i as int);
                lemma_sum_bound_step(acc as int, t as int, i as int);
            }
            acc = acc + t;
            i += 1;
        }
        proof {
            lemma_sum_all(self.loot@, f);
        }
        acc
    }
}

// ---------------------------------------------------------------------------
// Candidate positions.

/// Fixed-point cosine of 45 degrees, scaled by `ANGLE_ONE`.
pub const DIAGONAL: i64 = 7071;

/// Ticks of motion the inertia projection looks ahead.
pub const INERTIA_TICKS: i64 = 3;

/// The `k`-th of eight points at distance `r` around `center`, at angle
/// `45 * k` degrees.
pub open spec fn ring_point(center: Vec2, r: int, k: int) -> Vec2 {
    let dg = r * DIAGONAL / ANGLE_ONE as int;
    let (dx, dy) = if k == 0 {
        (r, 0)
    } else if k == 1 {
        (dg, dg)
    } else if k == 2 {
        (0, r)
    } else if k == 3 {
        (-dg, dg)
    } else if k == 4 {
        (-r, 0)
    } else if k == 5 {
        (-dg, -dg)
    } else if k == 6 {
        (0, -r)
    } else {
        (dg, -dg)
    };
    add_spec(center, vec_of(dx, dy))
}

pub open spec fn ring(center: Vec2, r: int) -> Seq<Vec2> {
    Seq::new(8, |k: int| ring_point(center, r, k))
}

/// Where the unit will be a few ticks from now if it keeps its velocity.
pub open spec fn inertia_center(me: Unit, c: Constants) -> Vec2 {
    add_spec(me.position, mul_div_spec(me.velocity, INERTIA_TICKS as int, c.ticks_per_second as int))
}

/// `p` lies inside some obstacle inflated by the unit radius.
pub open spec fn inside_obstacle(c: Constants, p: Vec2) -> bool {
    exists|i: int|
        0 <= i < c.obstacles.len() && contains_spec(
            Circle {
                center: c.obstacles[i].position,
                radius: ((#[trigger] c.obstacles[i]).radius + c.unit_radius) as i64,
            },
            p,
        )
}

/// `p` lies within two unit radii of a unit other than `unit_id`.
pub open spec fn crowded(m: MemoryView, unit_id: i32, p: Vec2, c: Constants) -> bool {
    exists|i: int|
        0 <= i < m.seeing_units.len() && (#[trigger] m.seeing_units[i]).id != unit_id
            && within_dist(m.seeing_units[i].position, p, 2 * c.unit_radius)
}

pub open spec fn feasible(m: MemoryView, unit_id: i32, p: Vec2, c: Constants) -> bool {
    !inside_obstacle(c, p) && !crowded(m, unit_id, p, c)
}

pub open spec fn feasible_pred(m: MemoryView, unit_id: i32, c: Constants) -> spec_fn(Vec2) -> bool {
    |p: Vec2| feasible(m, unit_id, p, c)
}

/// The feasible points of the ring around the unit's projected position.
pub open spec fn candidates_spec(m: MemoryView, me: Unit, c: Constants) -> Seq<Vec2> {
    ring(inertia_center(me, c), c.unit_radius as int).filter(feasible_pred(m, me.id, c))
}

fn ring_point_exec(center: &Vec2, r: i64, k: usize) -> (p: Vec2)
    requires
        center.wf(),
        0 <= r <= QUANTITY_LIMIT,
        k < 8,
    ensures
        p == ring_point(*center, r as int, k as int),
        p.wf(),
{
    proof {
        lemma_mul_bound(r as int, DIAGONAL as int, QUANTITY_LIMIT as int, DIAGONAL as int);
        vstd::arithmetic::div_mod::lemma_div_is_ordered_by_denominator(r * DIAGONAL, 1, ANGLE_ONE as int);
        vstd::arithmetic::div_mod::lemma_div_pos_is_pos(r * DIAGONAL, ANGLE_ONE as int);
    }
    let dg = r * DIAGONAL / ANGLE_ONE;
    let (dx, dy) = if k == 0 {
        (r, 0)
    } else if k == 1 {
        (dg, dg)
    } else if k == 2 {
        (0, r)
    } else if k == 3 {
        (-dg, dg)
    } else if k == 4 {
        (-r, 0)
    } else if k == 5 {
        (-dg, -dg)
    } else if k == 6 {
        (0, -r)
    } else {
        (dg, -dg)
    };
    center.add(&Vec2::new(dx, dy))
}

/// Whether `p` lies inside some obstacle inflated by the unit radius.
pub fn inside_obstacle_exec(c: &Constants, p: &Vec2) -> (b: bool)
    requires
        c.wf(),
        p.wf(),
    ensures
        b == inside_obstacle(*c, *p),
{
    let mut i: usize = 0;
    while i < c.obstacles.len()
        invariant
            c.wf(),
            p.wf(),
            i <= c.obstacles.len(),
            forall|j: int|
                0 <= j < i ==> !contains_spec(
                    Circle {
                        center: c.obstacles[j].position,
                        radius: ((#[trigger] c.obstacles[j]).radius + c.unit_radius) as i64,
                    },
                    *p,
                ),
        decreases c.obstacles.len() - i,
    {
        assert(c.obstacles[i as int].wf());
        if c.obstacles[i].as_circle(c.unit_radius).contains(p) {
            return true;
        }
        i += 1;
    }
    false
}

impl PotentialField {
    /// The zone field at `position`.
    pub fn value_zone(&self, position: &Vec2, constants: &Constants) -> (r: i128)
        requires
            self@.wf(),
            position.wf(),
            constants.wf(),
        ensures
            r as int == zone_value(self@, *position, *constants),
            -TERM_BOUND <= r <= TERM_BOUND,
    {
        let d = dist_exec(&self.zone.next_center, position);
        let ur = constants.unit_radius;
        let w = if self.zone.next_radius - 4 * ur > 2 * ur {
            self.zone.next_radius - 4 * ur
        } else {
            2 * ur
        };
        proof {
            lemma_mul_bound(d as int, VALUE_ONE as int, 0x1_0000_0000int, VALUE_ONE as int);
            vstd::arithmetic::div_mod::lemma_div_is_ordered_by_denominator(d * VALUE_ONE, 1, w as int);
            vstd::arithmetic::div_mod::lemma_div_pos_is_pos(d * VALUE_ONE, w as int);
        }
        let q = (d as i128 * VALUE_ONE as i128) / w as i128;
        if (d as i128) < (w as i128) {
            q
        } else {
            VALUE_ONE as i128 - q
        }
    }

    /// The zone margin of the current zone.
    pub fn zone_margin(&self, constants: &Constants) -> (r: i64)
        requires
            self@.wf(),
            constants.wf(),
        ensures
            r as int == zone_margin(self@, *constants),
            0 <= r <= QUANTITY_LIMIT,
    {
        let by_radius = ZONE_MARGIN_RADII * constants.unit_radius;
        let by_zone = self.zone.current_radius / ZONE_MARGIN_DIVISOR;
        if by_radius >= by_zone {
            by_radius
        } else {
            by_zone
        }
    }

    /// The outside-zone field at `position`.
    pub fn value_outside(&self, position: &Vec2, constants: &Constants) -> (r: i128)
        requires
            self@.wf(),
            position.wf(),
            constants.wf(),
        ensures
            r as int == outside_value(self@, *position, *constants),
            -TERM_BOUND <= r <= 0,
    {
        let d = dist_exec(&self.zone.current_center, position);
        let mx = self.zone.current_radius - self.zone_margin(constants);
        if d > mx {
            let over = (d - mx) as i128;
            proof {
                lemma_mul_bound(over as int, VALUE_ONE as int, 0x2_0000_0000int, VALUE_ONE as int);
                vstd::arithmetic::div_mod::lemma_div_is_ordered_by_denominator(
                    over * VALUE_ONE,
                    1,
                    MILLI_UNITS as int,
                );
                vstd::arithmetic::div_mod::lemma_div_pos_is_pos(over * VALUE_ONE, MILLI_UNITS as int);
            }
            -((over * VALUE_ONE as i128) / MILLI_UNITS as i128)
        } else {
            0
        }
    }

    /// The enemy field at `position`, over visible and remembered enemies.
    pub fn value_enemies(&self, position: &Vec2, me: &Unit, fight_mode: FightMode, constants: &Constants) -> (r: i128)
        requires
            self@.wf(),
            position.wf(),
            me.wf(),
            constants.wf(),
        ensures
            r as int == enemies_value(self@, *position, *me, fight_mode, *constants),
            -2 * SUM_BOUND <= r <= 2 * SUM_BOUND,
    {
        self.value_visible_enemies(position, me, fight_mode, constants)
            + self.value_remembered_enemies(position, me, fight_mode, constants)
    }

    /// Whether the unit stands inside an obstacle inflated by its radius.
    pub fn im_inside_obstacle(&self, me: &Unit, constants: &Constants) -> (b: bool)
        requires
            me.wf(),
            constants.wf(),
        ensures
            b == inside_obstacle(*constants, me.position),
    {
        inside_obstacle_exec(constants, &me.position)
    }

    /// Whether the unit stands beyond the current zone shrunk by the zone
    /// margin.
    pub fn im_outside(&self, me: &Unit, constants: &Constants) -> (b: bool)
        requires
            self@.wf(),
            me.wf(),
            constants.wf(),
        ensures
            b == outside_spec(self@, me.position, *constants),
    {
        at_least_dist_exec(
            &me.position,
            &self.zone.current_center,
            self.zone.current_radius - self.zone_margin(constants),
        )
    }

    /// Whether a remembered dangerous projectile threatens the unit.
    pub fn projectile_threat(&self, me: &Unit, constants: &Constants) -> (b: bool)
        requires
            self@.wf(),
            me.wf(),
            constants.wf(),
        ensures
            b == projectile_threat(self@, *me, *constants),
    {
        let mut i: usize = 0;
        while i < self.dangerous_projectiles.len()
            invariant
                self@.wf(),
                me.wf(),
                constants.wf(),
                i <= self.dangerous_projectiles.len(),
                forall|j: int|
                    0 <= j < i ==> !dangerous_spec(
                        #[trigger] self@.dangerous_projectiles[j],
                        *me,
                        *constants,
                    ),
            decreases self.dangerous_projectiles.len() - i,
        {
            assert(self@.dangerous_projectiles[i as int].wf());
            if self.dangerous_projectiles[i].is_dangerous(me, constants) {
                return true;
            }
            i += 1;
        }
        false
    }

    /// The danger flag of the unit.
    pub fn is_in_danger(&self, me: &Unit, constants: &Constants) -> (b: bool)
        requires
            self@.wf(),
            me.wf(),
            constants.wf(),
        ensures
            b == danger_spec(self@, *me, *constants),
    {
        if self.projectile_threat(me, constants) {
            return true;
        }
        let mut i: usize = 0;
        while i < self.shooting_sounds.len()
            invariant
                self@.wf(),
                me.wf(),
                constants.wf(),
                i <= self.shooting_sounds.len(),
                forall|j: int|
                    0 <= j < i ==> !shot_threat(
                        (#[trigger] self@.shooting_sounds[j]).sound,
                        *me,
                        *constants,
                    ),
            decreases self.shooting_sounds.len() - i,
        {
            assert(self@.shooting_sounds[i as int].wf());
            let s = self.shooting_sounds[i].sound;
            if !me.is_in_fov(&s.position, constants) {
                match s.get_weapon_shooting_range(constants) {
                    Some(r) => {
                        if within_dist_exec(&s.position, &me.position, r + s.offset) {
                            return true;
                        }
                    },
                    None => {},
                }
            }
            i += 1;
        }
        let mut i: usize = 0;
        while i < self.hit_sounds.len()
            invariant
                self@.wf(),
                me.wf(),
                constants.wf(),
                i <= self.hit_sounds.len(),
                forall|j: int|
                    0 <= j < i ==> !hit_threat(
                        (#[trigger] self@.hit_sounds[j]).sound,
                        *me,
                        *constants,
                    ),
            decreases self.hit_sounds.len() - i,
        {
            assert(self@.hit_sounds[i as int].wf());
            let s = self.hit_sounds[i].sound;
            if within_dist_exec(&s.position, &me.position, constants.unit_radius + s.offset) {
                return true;
            }
            i += 1;
        }
        self.im_outside(me, constants)
    }

    /// Every remembered sound: shots, then hits, then footsteps.
    pub fn sounds(&self) -> (r: Vec<Sound>)
        ensures
            r@.len() == self.shooting_sounds.len() + self.hit_sounds.len()
                + self.steps_sounds.len(),
            forall|i: int|
                0 <= i < self.shooting_sounds.len() ==> r@[i] == #[trigger] self.shooting_sounds@[i].sound,
            forall|i: int|
                0 <= i < self.hit_sounds.len() ==> r@[self.shooting_sounds.len() + i]
                    == #[trigger] self.hit_sounds@[i].sound,
            forall|i: int|
                0 <= i < self.steps_sounds.len() ==> r@[self.shooting_sounds.len()
                    + self.hit_sounds.len() + i] == #[trigger] self.steps_sounds@[i].sound,
    {
        let mut r: Vec<Sound> = Vec::new();
        let mut i: usize = 0;
        while i < self.shooting_sounds.len()
            invariant
                i <= self.shooting_sounds.len(),
                r@.len() == i,
                forall|j: int| 0 <= j < i ==> r@[j] == #[trigger] self.shooting_sounds@[j].sound,
            decreases self.shooting_sounds.len() - i,
        {
            r.push(self.shooting_sounds[i].sound);
            i += 1;
        }
        let n1 = r.len();
        let mut i: usize = 0;
        while i < self.hit_sounds.len()
            invariant
                n1 == self.shooting_sounds.len(),
                i <= self.hit_sounds.len(),
                r@.len() == n1 + i,
                forall|j: int| 0 <= j < n1 ==> r@[j] == #[trigger] self.shooting_sounds@[j].sound,
                forall|j: int| 0 <= j < i ==> r@[n1 + j] == #[trigger] self.hit_sounds@[j].sound,
            decreases self.hit_sounds.len() - i,
        {
            r.push(self.hit_sounds[i].sound);
            i += 1;
        }
        let n2 = r.len();
        let mut i: usize = 0;
        while i < self.steps_sounds.len()
            invariant
                n1 == self.shooting_sounds.len(),
                n2 == n1 + self.hit_sounds.len(),
                i <= self.steps_sounds.len(),
                r@.len() == n2 + i,
                forall|j: int| 0 <= j < n1 ==> r@[j] == #[trigger] self.shooting_sounds@[j].sound,
                forall|j: int|
                    0 <= j < self.hit_sounds.len() ==> r@[n1 + j] == #[trigger] self.hit_sounds@[j].sound,
                forall|j: int| 0 <= j < i ==> r@[n2 + j] == #[trigger] self.steps_sounds@[j].sound,
            decreases self.steps_sounds.len() - i,
        {
            r.push(self.steps_sounds[i].sound);
            i += 1;
        }
        r
    }

    /// The aggregate utility of `position` for the unit.
    pub fn value(&self, position: &Vec2, me: &Unit, fight_mode: FightMode, constants: &Constants) -> (r: i128)
        requires
            self@.wf(),
            position.wf(),
            me.wf(),
            constants.wf(),
        ensures
            r as int == value_spec(self@, *position, *me, fight_mode, *constants),
            -VALUE_BOUND <= r <= VALUE_BOUND,
    {
        if self.is_in_danger(me, constants) {
            self.value_projectiles(position, constants) * 3 + self.value_outside(position, constants)
                * 5 + self.value_shooting_sounds(position, constants) + self.value_enemies(
                position,
                me,
                fight_mode,
                constants,
            )
        } else {
            self.value_zone(position, constants) + self.value_outside(position, constants) * 5
                + self.value_hit_sounds(position, constants) + self.value_steps_sounds(
                position,
                constants,
            ) + self.value_enemies(position, me, fight_mode, constants) + self.value_allies(
                position,
                me,
                constants,
            ) + self.value_loot(position, me, constants)
        }
    }

    /// The utility of `position` for a unit that is still spawning.
    pub fn value_unspawned(&self, position: &Vec2, me: &Unit, constants: &Constants) -> (r: i128)
        requires
            self@.wf(),
            position.wf(),
            me.wf(),
            constants.wf(),
        ensures
            r as int == value_unspawned_spec(self@, *position, *me, *constants),
            -VALUE_BOUND <= r <= VALUE_BOUND,
    {
        self.value_zone(position, constants) * 5 + self.value_outside(position, constants) * 5
            + self.value_shooting_sounds(position, constants) + self.value_hit_sounds(
            position,
            constants,
        ) + self.value_steps_sounds(position, constants) + self.value_enemies(
            position,
            me,
            FightMode::RunWithNoWeapons,
            constants,
        ) + self.value_allies(position, me, constants) + self.value_loot(position, me, constants)
    }

    /// Whether `p` is a feasible candidate for unit `unit_id`.
    pub fn is_feasible(&self, unit_id: i32, p: &Vec2, constants: &Constants) -> (b: bool)
        requires
            self@.wf(),
            p.wf(),
            constants.wf(),
        ensures
            b == feasible(self@, unit_id, *p, *constants),
    {
        if inside_obstacle_exec(constants, p) {
            return false;
        }
        let mut i: usize = 0;
        while i < self.seeing_units.len()
            invariant
                self@.wf(),
                p.wf(),
                constants.wf(),
                i <= self.seeing_units.len(),
                forall|j: int|
                    0 <= j < i ==> !((#[trigger] self@.seeing_units[j]).id != unit_id
                        && within_dist(self@.seeing_units[j].position, *p, 2 * constants.unit_radius)),
            decreases self.seeing_units.len() - i,
        {
            assert(self@.seeing_units[i as int].wf());
            let u = self.seeing_units[i];
            if u.id != unit_id && within_dist_exec(&u.position, p, 2 * constants.unit_radius) {
                return false;
            }
            i += 1;
        }
        true
    }

    /// The feasible candidate positions around the unit.
    pub fn candidates(&self, me: &Unit, constants: &Constants) -> (r: Vec<Vec2>)
        requires
            self@.wf(),
            me.wf(),
            constants.wf(),
        ensures
            r@ == candidates_spec(self@, *me, *constants),
            forall|i: int| 0 <= i < r.len() ==> (#[trigger] r[i]).wf(),
            forall|i: int| 0 <= i < r.len() ==> !inside_obstacle(*constants, #[trigger] r[i]),
    {
        let center = me.position.add(&me.velocity.mul_div(INERTIA_TICKS, constants.ticks_per_second));
        let ghost ring_seq = ring(center, constants.unit_radius as int);
        let ghost p = feasible_pred(self@, me.id, *constants);
        let mut r: Vec<Vec2> = Vec::new();
        let mut k: usize = 0;
        while k < 8
            invariant
                self@.wf(),
                me.wf(),
                constants.wf(),
                center.wf(),
                ring_seq == ring(center, constants.unit_radius as int),
                p == feasible_pred(self@, me.id, *constants),
                k <= 8,
                r@ == ring_seq.take(k as int).filter(p),
                forall|i: int| 0 <= i < r.len() ==> (#[trigger] r[i]).wf(),
                forall|i: int| 0 <= i < r.len() ==> !inside_obstacle(*constants, #[trigger] r[i]),
            decreases 8 - k,
        {
            let q = ring_point_exec(&center, constants.unit_radius, k);
            proof {
                assert(ring_seq.take(k as int + 1) =~= ring_seq.take(k as int).push(q));
                ring_seq.take(k as int).lemma_filter_push(q, p);
            }
            if self.is_feasible(me.id, &q, constants) {
                r.push(q);
            }
            k += 1;
        }
        assert(ring_seq.take(8) =~= ring_seq);
        r
    }

    /// The feasible candidate positions around unit `unit_id`, which must be
    /// in sight.
    pub fn points_around(&self, unit_id: i32, constants: &Constants) -> (r: Vec<Vec2>)
        requires
            self@.wf(),
            constants.wf(),
            crate::memory::find_unit(self@.seeing_units, unit_id) is Some,
        ensures
            r@ == candidates_spec(
                self@,
                crate::memory::find_unit(self@.seeing_units, unit_id).unwrap(),
                *constants,
            ),
    {
        let me = crate::memory::find_unit_exec(&self.seeing_units, unit_id).unwrap();
        self.candidates(&me, constants)
    }
}

/// Under danger the aggregate utility is the survival set alone: two
/// memories that differ only in their loot give every position the same
/// utility, however rich the loot.
pub proof fn law_danger_ignores_loot(
    m: MemoryView,
    loot: Seq<Loot>,
    pos: Vec2,
    me: Unit,
    mode: FightMode,
    c: Constants,
)
    requires
        danger_spec(m, me, c),
    ensures
        value_spec(MemoryView { loot, ..m }, pos, me, mode, c) == value_spec(m, pos, me, mode, c),
{
    let m2 = MemoryView { loot, ..m };
    if projectile_threat(m, me, c) {
        let i = choose|i: int|
            0 <= i < m.dangerous_projectiles.len() && dangerous_spec(
                #[trigger] m.dangerous_projectiles[i],
                me,
                c,
            );
        assert(m2.dangerous_projectiles[i] == m.dangerous_projectiles[i]);
        assert(projectile_threat(m2, me, c));
    } else if exists|i: int|
        0 <= i < m.shooting_sounds.len() && shot_threat(#[trigger] m.shooting_sounds[i].sound, me, c) {
        let i = choose|i: int|
            0 <= i < m.shooting_sounds.len() && shot_threat(
                #[trigger] m.shooting_sounds[i].sound,
                me,
                c,
            );
        assert(m2.shooting_sounds[i] == m.shooting_sounds[i]);
    } else if exists|i: int|
        0 <= i < m.hit_sounds.len() && hit_threat(#[trigger] m.hit_sounds[i].sound, me, c) {
        let i = choose|i: int|
            0 <= i < m.hit_sounds.len() && hit_threat(#[trigger] m.hit_sounds[i].sound, me, c);
        assert(m2.hit_sounds[i] == m.hit_sounds[i]);
    }
    assert(danger_spec(m2, me, c));
}

/// A position farther than nine tenths of the current radius from the
/// current center lies in the closing-boundary band: the outside-zone field
/// is negative there and the unit counts as outside (for zones of at least a
/// tenth of an arena unit).
pub proof fn law_closing_boundary_penalized(m: MemoryView, pos: Vec2, c: Constants)
    requires
        c.wf(),
        m.zone.wf(),
        m.zone.current_radius >= 100,
        100 * sq_dist(m.zone.current_center, pos) > 81 * (m.zone.current_radius
            * m.zone.current_radius),
    ensures
        outside_value(m, pos, c) < 0,
        outside_spec(m, pos, c),
{
    let big_r = m.zone.current_radius as int;
    let s = sq_dist(m.zone.current_center, pos);
    assert(s == sq_dist(pos, m.zone.current_center)) by (nonlinear_arith)
        requires
            s == (m.zone.current_center.x - pos.x) * (m.zone.current_center.x - pos.x) + (
            m.zone.current_center.y - pos.y) * (m.zone.current_center.y - pos.y),
    ;
    assert(s >= 0) by (nonlinear_arith)
        requires
            s == (m.zone.current_center.x - pos.x) * (m.zone.current_center.x - pos.x) + (
            m.zone.current_center.y - pos.y) * (m.zone.current_center.y - pos.y),
    ;
    crate::geometry::lemma_floor_sqrt_exists(s);
    let d = dist(m.zone.current_center, pos);
    assert(10 * (d + 1) > 9 * big_r) by (nonlinear_arith)
        requires
            100 * s > 81 * (big_r * big_r),
            s < (d + 1) * (d + 1),
            d >= 0,
            big_r >= 0,
    ;
    let mx = big_r - zone_margin(m, c);
    assert(8 * (big_r / 8) >= big_r - 7);
    assert(d > mx);
    if mx > 0 {
        assert(s >= mx * mx) by (nonlinear_arith)
            requires
                d * d <= s,
                d > mx,
                mx > 0,
        ;
    }
}

} // verus!
