//! The decision selector: per controlled unit, a movement target, a facing
//! and an action.

use vstd::prelude::*;
use crate::fields::{
    FightMode, VALUE_BOUND, candidates_spec, dist, sum_of, value_spec,
    value_unspawned_spec, within_dist, within_dist_exec,
};
use crate::geometry::{
    Circle, Line, Vec2, add_spec, intercepts_spec, lemma_mul_bound, mul_div_spec, scaled_to_spec,
    sq_dist, sub_spec, ANGLE_ONE,
};
use crate::memory::{MemoryView, PotentialField, ShotRecord, SoundRecord, lemma_take_push, next_view};
use crate::model::{
    Constants, Game, Loot, Obstacle, Sound, Unit, MILLIS, QUANTITY_LIMIT, is_armed,
    useful_spec, weapon_range_spec,
};

verus! {

/// Numerator of the fraction of an enemy's velocity used to lead a shot.
pub const LEAD_NUM: i64 = 77;

/// Denominator of that fraction.
pub const LEAD_DEN: i64 = 100;

/// Cosine of the angle by which the idle orbit turns (18 degrees).
pub const ORBIT_COS: i64 = 9511;

/// Sine of that angle.
pub const ORBIT_SIN: i64 = 3090;

// ---------------------------------------------------------------------------
// Fight mode.

pub open spec fn strength(u: Unit) -> int {
    u.health + u.shield
}

pub open spec fn strength_fn() -> spec_fn(Unit) -> int {
    |u: Unit| strength(u)
}

pub open spec fn team_strength_fn(my_id: i32) -> spec_fn(Unit) -> int {
    |u: Unit|
        if u.player_id == my_id {
            strength(u)
        } else {
            0
        }
}

/// Unarmed units flee; armed ones attack when their team's remaining
/// health and shield are at least the enemies' total, and defend otherwise.
pub open spec fn fight_mode_spec(g: Game, enemies: Seq<Unit>, me: Unit) -> FightMode {
    if !is_armed(me) {
        FightMode::RunWithNoWeapons
    } else if sum_of(g.units@, team_strength_fn(g.my_id)) >= sum_of(enemies, strength_fn()) {
        FightMode::Attack
    } else {
        FightMode::Defend
    }
}

/// The visible enemies of `g` followed by the remembered ones.
pub open spec fn all_enemies(m: MemoryView, g: Game) -> Seq<Unit> {
    g.units@.filter(|u: Unit| u.player_id != g.my_id) + m.old_enemies
}

fn strength_sum(us: &Vec<Unit>, only: Option<i32>) -> (r: i128)
    requires
        forall|i: int| 0 <= i < us.len() ==> #[trigger] us[i].wf(),
    ensures
        r as int == match only {
            Some(id) => sum_of(us@, team_strength_fn(id)),
            None => sum_of(us@, strength_fn()),
        },
{
    let ghost f = match only {
        Some(id) => team_strength_fn(id),
        None => strength_fn(),
    };
    let mut acc: i128 = 0;
    let mut i: usize = 0;
    while i < us.len()
        invariant
            forall|i: int| 0 <= i < us.len() ==> #[trigger] us[i].wf(),
            f == match only {
                Some(id) => team_strength_fn(id),
                None => strength_fn(),
            },
            i <= us.len(),
            acc as int == sum_of(us@.take(i as int), f),
            0 <= acc <= (i as int) * 33554432,
        decreases us.len() - i,
    {
        assert(us[i as int].wf());
        let u = us[i];
        let t: i128 = match only {
            Some(id) => if u.player_id == id {
                u.health as i128 + u.shield as i128
            } else {
                0
            },
            None => u.health as i128 + u.shield as i128,
        };
        proof {
            assert(us@.take(i as int + 1).drop_last() =~= us@.take(i as int));
        }
        acc = acc + t;
        i += 1;
    }
    assert(us@.take(us.len() as int) =~= us@);
    acc
}

/// How the unit engages enemies this tick.
pub fn fight_mode(game: &Game, enemies: &Vec<Unit>, me: &Unit) -> (r: FightMode)
    requires
        game.wf(),
        forall|i: int| 0 <= i < enemies.len() ==> #[trigger] enemies[i].wf(),
    ensures
        r == fight_mode_spec(*game, enemies@, *me),
{
    if !me.is_armed() {
        return FightMode::RunWithNoWeapons;
    }
    let mine = strength_sum(&game.units, Some(game.my_id));
    let theirs = strength_sum(enemies, None);
    if mine >= theirs {
        FightMode::Attack
    } else {
        FightMode::Defend
    }
}

// ---------------------------------------------------------------------------
// Combat target.

/// An obstacle stops shots and sight when it cannot be shot or seen through.
pub open spec fn blocks(o: Obstacle) -> bool {
    !o.can_shoot_through || !o.can_see_through
}

/// The number of blocking obstacles whose circle, grown by `extra`, the
/// segment passes through.
pub open spec fn blocking_count(obs: Seq<Obstacle>, l: Line, extra: int) -> int
    decreases obs.len(),
{
    if obs.len() == 0 {
        0
    } else {
        let o = obs.last();
        blocking_count(obs.drop_last(), l, extra) + if blocks(o) && intercepts_spec(
            Circle { center: o.position, radius: (o.radius + extra) as i64 },
            l,
        ) {
            1int
        } else {
            0int
        }
    }
}

/// Some controlled unit other than `me`, with its circle grown to `radius`,
/// stands on the segment.
pub open spec fn ally_on_line(g: Game, me: Unit, l: Line, radius: int) -> bool {
    exists|i: int|
        0 <= i < g.units.len() && (#[trigger] g.units[i]).player_id == g.my_id && g.units[i].id
            != me.id && intercepts_spec(
            Circle { center: g.units[i].position, radius: radius as i64 },
            l,
        )
}

/// A shot fired now at `u` would arrive after it has spawned.
pub open spec fn spawned_in_time(u: Unit, me: Unit, speed: int, c: Constants) -> bool {
    let rst = match u.remaining_spawn_time {
        Some(t) => t as int,
        None => 0,
    };
    rst * speed < (dist(u.position, me.position) - c.unit_radius) * MILLIS
}

/// 0: reachable by a clear line; 1: behind at most one obstacle; 2: only
/// spawned in time; 3: not a target.
pub open spec fn target_rank(u: Unit, me: Unit, g: Game, c: Constants) -> int {
    let speed = match me.weapon {
        Some(w) => c.weapons.spec_get(w).projectile_speed as int,
        None => 1,
    };
    let l = Line { start: me.position, end: u.position };
    let n = blocking_count(c.obstacles@, l, -c.unit_radius);
    let ally = ally_on_line(g, me, l, c.unit_radius as int);
    if !spawned_in_time(u, me, speed, c) {
        3
    } else if n == 0 && !ally {
        0
    } else if n < 2 && !ally {
        1
    } else {
        2
    }
}

/// The nearest of `es` whose rank is at most `k` (the first of equally near
/// ones).
pub open spec fn nearest_ranked(es: Seq<Unit>, me: Unit, g: Game, c: Constants, k: int) -> Option<
    Unit,
>
    decreases es.len(),
{
    if es.len() == 0 {
        None
    } else {
        let rest = nearest_ranked(es.drop_last(), me, g, c, k);
        let u = es.last();
        if target_rank(u, me, g, c) > k {
            rest
        } else {
            match rest {
                None => Some(u),
                Some(b) => if sq_dist(u.position, me.position) < sq_dist(b.position, me.position) {
                    Some(u)
                } else {
                    Some(b)
                },
            }
        }
    }
}

/// The combat target of an armed unit: the nearest enemy on a clear line,
/// else the nearest behind at most one obstacle, else the nearest at all,
/// among enemies that will have spawned when a shot arrives.
pub open spec fn combat_target_spec(es: Seq<Unit>, me: Unit, g: Game, c: Constants) -> Option<Unit> {
    if !is_armed(me) {
        None
    } else {
        match nearest_ranked(es, me, g, c, 0) {
            Some(u) => Some(u),
            None => match nearest_ranked(es, me, g, c, 1) {
                Some(u) => Some(u),
                None => nearest_ranked(es, me, g, c, 2),
            },
        }
    }
}

/// The number of blocking obstacles on the segment.
pub fn blocking_count_exec(obs: &Vec<Obstacle>, l: &Line, extra: i64) -> (r: usize)
    requires
        forall|i: int| 0 <= i < obs.len() ==> #[trigger] obs[i].wf(),
        l.wf(),
        -QUANTITY_LIMIT <= extra <= QUANTITY_LIMIT,
    ensures
        r as int == blocking_count(obs@, *l, extra as int),
{
    let mut n: usize = 0;
    let mut i: usize = 0;
    while i < obs.len()
        invariant
            forall|i: int| 0 <= i < obs.len() ==> #[trigger] obs[i].wf(),
            l.wf(),
            -QUANTITY_LIMIT <= extra <= QUANTITY_LIMIT,
            i <= obs.len(),
            n <= i,
            n as int == blocking_count(obs@.take(i as int), *l, extra as int),
        decreases obs.len() - i,
    {
        assert(obs[i as int].wf());
        let o = obs[i];
        proof {
            assert(obs@.take(i as int + 1).drop_last() =~= obs@.take(i as int));
        }
        if (!o.can_shoot_through || !o.can_see_through) && o.as_circle(extra).intercept_with_line(l) {
            n = n + 1;
        }
        i += 1;
    }
    assert(obs@.take(obs.len() as int) =~= obs@);
    n
}

/// Whether a controlled unit other than `me` stands on the segment.
pub fn ally_on_line_exec(g: &Game, me: &Unit, l: &Line, radius: i64) -> (b: bool)
    requires
        g.wf(),
        l.wf(),
        0 <= radius <= QUANTITY_LIMIT,
    ensures
        b == ally_on_line(*g, *me, *l, radius as int),
{
    let mut i: usize = 0;
    while i < g.units.len()
        invariant
            g.wf(),
            l.wf(),
            0 <= radius <= QUANTITY_LIMIT,
            i <= g.units.len(),
            forall|j: int|
                0 <= j < i ==> !((#[trigger] g.units[j]).player_id == g.my_id && g.units[j].id
                    != me.id && intercepts_spec(
                    Circle { center: g.units[j].position, radius: radius as i64 },
                    *l,
                )),
        decreases g.units.len() - i,
    {
        assert(g.units[i as int].wf());
        let u = g.units[i];
        if u.player_id == g.my_id && u.id != me.id && u.as_circle(radius).intercept_with_line(l) {
            return true;
        }
        i += 1;
    }
    false
}

fn target_rank_exec(u: &Unit, me: &Unit, g: &Game, c: &Constants) -> (r: i64)
    requires
        u.wf(),
        me.wf(),
        g.wf(),
        c.wf(),
    ensures
        r as int == target_rank(*u, *me, *g, *c),
{
    let speed = match me.weapon {
        Some(w) => c.weapons.get(w).projectile_speed,
        None => 1,
    };
    let d = crate::fields::dist_exec(&u.position, &me.position);
    let rst: i64 = match u.remaining_spawn_time {
        Some(t) => t,
        None => 0,
    };
    proof {
        lemma_mul_bound(rst as int, speed as int, QUANTITY_LIMIT as int, QUANTITY_LIMIT as int);
    }
    let lhs: i128 = (rst as i128) * (speed as i128);
    let gap: i128 = d as i128 - c.unit_radius as i128;
    let rhs: i128 = gap * 1000;
    let in_time = lhs < rhs;
    if !in_time {
        return 3;
    }
    let l = Line::new(me.position, u.position);
    let n = blocking_count_exec(&c.obstacles, &l, -c.unit_radius);
    let ally = ally_on_line_exec(g, me, &l, c.unit_radius);
    if n == 0 && !ally {
        0
    } else if n < 2 && !ally {
        1
    } else {
        2
    }
}

/// The nearest enemy of rank at most `k`.
fn nearest_ranked_exec(es: &Vec<Unit>, me: &Unit, g: &Game, c: &Constants, k: i64) -> (r: Option<Unit>)
    requires
        forall|i: int| 0 <= i < es.len() ==> #[trigger] es[i].wf(),
        me.wf(),
        g.wf(),
        c.wf(),
    ensures
        r == nearest_ranked(es@, *me, *g, *c, k as int),
        r matches Some(u) ==> u.wf(),
{
    let mut best: Option<Unit> = None;
    let mut best_d: i128 = 0;
    let mut i: usize = 0;
    while i < es.len()
        invariant
            forall|i: int| 0 <= i < es.len() ==> #[trigger] es[i].wf(),
            me.wf(),
            g.wf(),
            c.wf(),
            i <= es.len(),
            best == nearest_ranked(es@.take(i as int), *me, *g, *c, k as int),
            best matches Some(b) ==> b.wf() && best_d == sq_dist(b.position, me.position),
        decreases es.len() - i,
    {
        assert(es[i as int].wf());
        let u = es[i];
        proof {
            lemma_take_push(es@, i as int);
            assert(es@.take(i as int + 1).drop_last() =~= es@.take(i as int));
        }
        if target_rank_exec(&u, me, g, c) <= k {
            let d = u.position.square_distance_to(&me.position);
            match best {
                None => {
                    best = Some(u);
                    best_d = d;
                },
                Some(_) => {
                    if d < best_d {
                        best = Some(u);
                        best_d = d;
                    }
                },
            }
        }
        i += 1;
    }
    assert(es@.take(es.len() as int) =~= es@);
    best
}

/// The unit's combat target among `enemies`.
pub fn combat_target(enemies: &Vec<Unit>, me: &Unit, game: &Game, constants: &Constants) -> (r: Option<Unit>)
    requires
        forall|i: int| 0 <= i < enemies.len() ==> #[trigger] enemies[i].wf(),
        me.wf(),
        game.wf(),
        constants.wf(),
    ensures
        r == combat_target_spec(enemies@, *me, *game, *constants),
        r matches Some(u) ==> u.wf(),
{
    if !me.is_armed() {
        return None;
    }
    match nearest_ranked_exec(enemies, me, game, constants, 0) {
        Some(u) => Some(u),
        None => match nearest_ranked_exec(enemies, me, game, constants, 1) {
            Some(u) => Some(u),
            None => nearest_ranked_exec(enemies, me, game, constants, 2),
        },
    }
}

// ---------------------------------------------------------------------------
// Candidate selection.

/// Scores this close to the best count as ties (a thousandth of a utility).
pub const SCORE_EPSILON: i128 = 1;

/// The highest score of a non-empty `ps`.
pub open spec fn max_score(ps: Seq<Vec2>, score: spec_fn(Vec2) -> int) -> int
    decreases ps.len(),
{
    if ps.len() <= 1 {
        score(ps.last())
    } else {
        let rest = max_score(ps.drop_last(), score);
        if score(ps.last()) > rest {
            score(ps.last())
        } else {
            rest
        }
    }
}

pub open spec fn point_fn() -> spec_fn(Vec2) -> Vec2 {
    |p: Vec2| p
}

/// Within `SCORE_EPSILON` of the score `top`.
pub open spec fn near_top_fn(score: spec_fn(Vec2) -> int, top: int) -> spec_fn(Vec2) -> bool {
    |p: Vec2| score(p) >= top - SCORE_EPSILON
}

/// The best of `ps` under `score`: of the points scoring within
/// `SCORE_EPSILON` of the highest score, the one nearest `origin` (the first
/// of equally near ones).
pub open spec fn best_point(ps: Seq<Vec2>, score: spec_fn(Vec2) -> int, origin: Vec2) -> Option<Vec2> {
    if ps.len() == 0 {
        None
    } else {
        nearest_of(ps, point_fn(), near_top_fn(score, max_score(ps, score)), origin)
    }
}

proof fn lemma_max_score(ps: Seq<Vec2>, score: spec_fn(Vec2) -> int)
    requires
        ps.len() > 0,
    ensures
        forall|i: int| 0 <= i < ps.len() ==> score(#[trigger] ps[i]) <= max_score(ps, score),
        exists|i: int| 0 <= i < ps.len() && score(#[trigger] ps[i]) == max_score(ps, score),
    decreases ps.len(),
{
    if ps.len() > 1 {
        let r = ps.drop_last();
        lemma_max_score(r, score);
        assert forall|i: int| 0 <= i < r.len() implies ps[i] == #[trigger] r[i] by {}
        assert forall|i: int| 0 <= i < ps.len() implies score(#[trigger] ps[i]) <= max_score(ps, score) by {
            if i < r.len() {
                assert(ps[i] == r[i]);
            }
        }
        if score(ps.last()) > max_score(r, score) {
            assert(ps[ps.len() - 1] == ps.last());
        } else {
            let k = choose|k: int| 0 <= k < r.len() && score(#[trigger] r[k]) == max_score(r, score);
            assert(ps[k] == r[k]);
        }
    } else {
        assert(ps[0] == ps.last());
    }
}

/// What `nearest_of` picks satisfies `ok`, lies in the sequence and is
/// nearest among those satisfying `ok`; it picks something when anything
/// satisfies `ok`.
pub proof fn lemma_nearest_of<A>(s: Seq<A>, pos: spec_fn(A) -> Vec2, ok: spec_fn(A) -> bool, origin: Vec2)
    ensures
        (exists|i: int| 0 <= i < s.len() && ok(#[trigger] s[i])) ==> nearest_of(s, pos, ok, origin) is Some,
        nearest_of(s, pos, ok, origin) matches Some(b) ==> {
            &&& s.contains(b)
            &&& ok(b)
            &&& forall|i: int|
                0 <= i < s.len() && ok(#[trigger] s[i]) ==> sq_dist(pos(b), origin) <= sq_dist(
                    pos(s[i]),
                    origin,
                )
        },
    decreases s.len(),
{
    if s.len() > 0 {
        let r = s.drop_last();
        lemma_nearest_of(r, pos, ok, origin);
        assert forall|i: int| 0 <= i < r.len() implies s[i] == #[trigger] r[i] by {}
        assert(s[s.len() - 1] == s.last());
        if exists|i: int| 0 <= i < s.len() && ok(#[trigger] s[i]) {
            let i = choose|i: int| 0 <= i < s.len() && ok(#[trigger] s[i]);
            if i < r.len() {
                assert(ok(r[i]));
            }
        }
        match nearest_of(r, pos, ok, origin) {
            Some(b0) => {
                let k = choose|k: int| 0 <= k < r.len() && r[k] == b0;
                assert(s[k] == b0);
            },
            None => {},
        }
        if let Some(b) = nearest_of(s, pos, ok, origin) {
            assert forall|i: int|
                0 <= i < s.len() && ok(#[trigger] s[i]) implies sq_dist(pos(b), origin) <= sq_dist(
                pos(s[i]),
                origin,
            ) by {
                if i < r.len() {
                    assert(ok(r[i]));
                }
            }
        }
    }
}

/// The chosen point scores within `SCORE_EPSILON` of every point of `ps`,
/// and no point that also does lies nearer `origin`.
pub proof fn law_best_point_is_maximal(ps: Seq<Vec2>, score: spec_fn(Vec2) -> int, origin: Vec2)
    ensures
        ps.len() > 0 ==> best_point(ps, score, origin) is Some,
        best_point(ps, score, origin) matches Some(b) ==> {
            &&& ps.contains(b)
            &&& forall|i: int| 0 <= i < ps.len() ==> score(#[trigger] ps[i]) <= score(b) + SCORE_EPSILON
            &&& forall|i: int|
                0 <= i < ps.len() && score(#[trigger] ps[i]) >= max_score(ps, score) - SCORE_EPSILON
                    ==> sq_dist(b, origin) <= sq_dist(ps[i], origin)
        },
{
    if ps.len() > 0 {
        lemma_max_score(ps, score);
        let top = max_score(ps, score);
        let ok = near_top_fn(score, top);
        let k = choose|k: int| 0 <= k < ps.len() && score(#[trigger] ps[k]) == top;
        assert(ok(ps[k]));
        lemma_nearest_of(ps, point_fn(), ok, origin);
        if let Some(b) = best_point(ps, score, origin) {
            assert(ok(b));
            assert forall|i: int|
                0 <= i < ps.len() && score(#[trigger] ps[i]) >= top - SCORE_EPSILON implies sq_dist(
                b,
                origin,
            ) <= sq_dist(ps[i], origin) by {
                assert(ok(ps[i]));
            }
        }
    }
}

pub open spec fn value_fn(m: MemoryView, me: Unit, mode: FightMode, c: Constants) -> spec_fn(Vec2) -> int {
    |p: Vec2| value_spec(m, p, me, mode, c)
}

pub open spec fn value_unspawned_fn(m: MemoryView, me: Unit, c: Constants) -> spec_fn(Vec2) -> int {
    |p: Vec2| value_unspawned_spec(m, p, me, c)
}

/// The best candidate under the aggregate utility (`unspawned` selects the
/// utility of a spawning unit).
pub fn best_candidate(
    pp: &PotentialField,
    points: &Vec<Vec2>,
    me: &Unit,
    mode: FightMode,
    unspawned: bool,
    constants: &Constants,
) -> (r: Option<Vec2>)
    requires
        pp@.wf(),
        me.wf(),
        constants.wf(),
        forall|i: int| 0 <= i < points.len() ==> #[trigger] points[i].wf(),
    ensures
        r == best_point(
            points@,
            if unspawned {
                value_unspawned_fn(pp@, *me, *constants)
            } else {
                value_fn(pp@, *me, mode, *constants)
            },
            me.position,
        ),
        r matches Some(p) ==> p.wf(),
{
    if points.len() == 0 {
        return None;
    }
    let ghost f = if unspawned {
        value_unspawned_fn(pp@, *me, *constants)
    } else {
        value_fn(pp@, *me, mode, *constants)
    };
    // the scores, and the highest of them
    let mut values: Vec<i128> = Vec::new();
    let mut top: i128 = 0;
    let mut i: usize = 0;
    while i < points.len()
        invariant
            pp@.wf(),
            me.wf(),
            constants.wf(),
            forall|i: int| 0 <= i < points.len() ==> #[trigger] points[i].wf(),
            f == if unspawned {
                value_unspawned_fn(pp@, *me, *constants)
            } else {
                value_fn(pp@, *me, mode, *constants)
            },
            i <= points.len(),
            values@.len() == i,
            forall|j: int| 0 <= j < i ==> values@[j] as int == f(#[trigger] points@[j]),
            i > 0 ==> top as int == max_score(points@.take(i as int), f),
            -VALUE_BOUND <= top <= VALUE_BOUND,
        decreases points.len() - i,
    {
        assert(points[i as int].wf());
        let q = points[i];
        let v = if unspawned {
            pp.value_unspawned(&q, me, constants)
        } else {
            pp.value(&q, me, mode, constants)
        };
        proof {
            lemma_take_push(points@, i as int);
            assert(points@.take(i as int + 1).drop_last() =~= points@.take(i as int));
            assert(points@.take(i as int + 1).last() == q);
        }
        if i == 0 || v > top {
            top = v;
        }
        values.push(v);
        i += 1;
    }
    assert(points@.take(points.len() as int) =~= points@);
    let ghost ok = near_top_fn(f, top as int);
    let mut best: Option<Vec2> = None;
    let mut best_d: i128 = 0;
    let mut i: usize = 0;
    while i < points.len()
        invariant
            forall|i: int| 0 <= i < points.len() ==> #[trigger] points[i].wf(),
            me.wf(),
            values@.len() == points.len(),
            forall|j: int| 0 <= j < points.len() ==> values@[j] as int == f(#[trigger] points@[j]),
            ok == near_top_fn(f, top as int),
            top as int == max_score(points@, f),
            -VALUE_BOUND <= top <= VALUE_BOUND,
            i <= points.len(),
            best == nearest_of(points@.take(i as int), point_fn(), ok, me.position),
            best matches Some(b) ==> b.wf() && best_d == sq_dist(b, me.position),
        decreases points.len() - i,
    {
        assert(points[i as int].wf());
        let q = points[i];
        proof {
            assert(points@.take(i as int + 1).drop_last() =~= points@.take(i as int));
            assert(points@.take(i as int + 1).last() == q);
            assert(values@[i as int] as int == f(points@[i as int]));
        }
        let v = values[i];
        if v >= top - SCORE_EPSILON {
            let d = q.square_distance_to(&me.position);
            match best {
                None => {
                    best = Some(q);
                    best_d = d;
                },
                Some(_) => {
                    if d < best_d {
                        best = Some(q);
                        best_d = d;
                    }
                },
            }
        }
        i += 1;
    }
    assert(points@.take(points.len() as int) =~= points@);
    best
}

// ---------------------------------------------------------------------------
// Orders.

#[derive(Clone, Copy, Debug, PartialEq, Eq, Structural)]
pub enum ActionOrder {
    Pickup { loot: i32 },
    UseShieldPotion,
    Aim { shoot: bool },
}

/// What one controlled unit is told to do this tick.
#[derive(Clone, Copy, Debug, PartialEq, Eq, Structural)]
pub struct UnitOrder {
    pub target_velocity: Vec2,
    pub target_direction: Vec2,
    pub action: Option<ActionOrder>,
}

/// The orders of one tick, by unit id, in the order of the snapshot's units.
pub struct Order {
    pub unit_orders: Vec<(i32, UnitOrder)>,
}

// ---------------------------------------------------------------------------
// Generic searches.

/// The element of `s` satisfying `ok` whose position is nearest `origin`
/// (the first of equally near ones).
pub open spec fn nearest_of<A>(s: Seq<A>, pos: spec_fn(A) -> Vec2, ok: spec_fn(A) -> bool, origin: Vec2) -> Option<A>
    decreases s.len(),
{
    if s.len() == 0 {
        None
    } else {
        let rest = nearest_of(s.drop_last(), pos, ok, origin);
        let x = s.last();
        if !ok(x) {
            rest
        } else {
            match rest {
                None => Some(x),
                Some(b) => if sq_dist(pos(x), origin) < sq_dist(pos(b), origin) {
                    Some(x)
                } else {
                    Some(b)
                },
            }
        }
    }
}

/// The first element of `s` satisfying `ok`.
pub open spec fn first_of<A>(s: Seq<A>, ok: spec_fn(A) -> bool) -> Option<A>
    decreases s.len(),
{
    if s.len() == 0 {
        None
    } else {
        match first_of(s.drop_last(), ok) {
            Some(x) => Some(x),
            None => if ok(s.last()) {
                Some(s.last())
            } else {
                None
            },
        }
    }
}

// ---------------------------------------------------------------------------
// Shooting.

pub open spec fn my_range(me: Unit, c: Constants) -> int {
    match me.weapon {
        Some(w) => weapon_range_spec(c.weapons.spec_get(w)),
        None => 0,
    }
}

pub open spec fn spawn_time_or(u: Unit, default: int) -> int {
    match u.remaining_spawn_time {
        Some(t) => t as int,
        None => default,
    }
}

/// The segment a shot fired now would follow: the unit's facing, as long as
/// its weapon reaches plus two unit radii, cut to two unit radii beyond the
/// target.
pub open spec fn aim_segment(me: Unit, t: Unit, c: Constants) -> Line {
    let wr = my_range(me, c) + 2 * c.unit_radius;
    let d = dist(t.position, me.position);
    let aim0 = Line {
        start: me.position,
        end: add_spec(me.position, scaled_to_spec(me.direction, wr)),
    };
    if crate::geometry::floor_sqrt(aim0.len_sq()) > d + 2 * c.unit_radius {
        Line {
            start: me.position,
            end: add_spec(
                me.position,
                scaled_to_spec(sub_spec(aim0.end, aim0.start), d + 2 * c.unit_radius),
            ),
        }
    } else {
        aim0
    }
}

/// A controlled unit other than `me` that will be there when the shot
/// passes stands on the aim segment.
pub open spec fn ally_in_fire(g: Game, me: Unit, aim: Line, c: Constants) -> bool {
    let w = c.weapons.spec_get(me.weapon.unwrap());
    exists|i: int|
        0 <= i < g.units.len() && (#[trigger] g.units[i]).player_id == g.my_id && g.units[i].id
            != me.id && (dist(g.units[i].position, me.position) + c.unit_radius) * MILLIS
            + w.aim_time * w.projectile_speed > spawn_time_or(g.units[i], 0)
            * w.projectile_speed && intercepts_spec(
            Circle { center: g.units[i].position, radius: c.unit_radius },
            aim,
        )
}

/// Where the target will be, led by its velocity over the flight time.
pub open spec fn lead_point(t: Unit, d: int, speed: int) -> Vec2 {
    add_spec(t.position, mul_div_spec(t.velocity, d * LEAD_NUM, speed * LEAD_DEN))
}

/// `None` when the shot is ruled out (more than one blocking obstacle on the
/// aim segment, the target out of reach, or an ally in the line of fire);
/// otherwise whether to shoot: no blocking obstacle on the segment, the led
/// target within nine tenths of a unit radius of it, in reach, and spawned
/// when the shot arrives.
pub open spec fn shoot_spec(me: Unit, t: Unit, g: Game, c: Constants) -> Option<bool> {
    let w = c.weapons.spec_get(me.weapon.unwrap());
    let wr = weapon_range_spec(w) + 2 * c.unit_radius;
    let d = dist(t.position, me.position);
    let aim = aim_segment(me, t, c);
    let n = blocking_count(c.obstacles@, aim, c.unit_radius as int);
    let ally = ally_in_fire(g, me, aim, c);
    if n > 1 || d > wr || ally {
        None
    } else {
        Some(
            n == 0 && !ally && intercepts_spec(
                Circle {
                    center: lead_point(t, d + c.unit_radius, w.projectile_speed as int),
                    radius: (c.unit_radius * 9 / 10) as i64,
                },
                aim,
            ) && d <= wr + 2 * c.unit_radius && spawn_time_or(t, -MILLIS as int)
                * w.projectile_speed < (d - c.unit_radius) * MILLIS,
        )
    }
}

proof fn lemma_blocking_count_zero(obs: Seq<Obstacle>, l: Line, extra: int)
    requires
        blocking_count(obs, l, extra) == 0,
    ensures
        forall|i: int|
            0 <= i < obs.len() && blocks(#[trigger] obs[i]) ==> !intercepts_spec(
                Circle { center: obs[i].position, radius: (obs[i].radius + extra) as i64 },
                l,
            ),
    decreases obs.len(),
{
    if obs.len() > 0 {
        let r = obs.drop_last();
        lemma_blocking_count_nonneg(r, l, extra);
        lemma_blocking_count_zero(r, l, extra);
        assert forall|i: int| 0 <= i < obs.len() && blocks(#[trigger] obs[i]) implies !intercepts_spec(
            Circle { center: obs[i].position, radius: (obs[i].radius + extra) as i64 },
            l,
        ) by {
            if i < obs.len() - 1 {
                assert(obs[i] == r[i]);
            } else {
                assert(obs[i] == obs.last());
            }
        }
    }
}

proof fn lemma_blocking_count_nonneg(obs: Seq<Obstacle>, l: Line, extra: int)
    ensures
        blocking_count(obs, l, extra) >= 0,
    decreases obs.len(),
{
    if obs.len() > 0 {
        lemma_blocking_count_nonneg(obs.drop_last(), l, extra);
    }
}

fn ally_in_fire_exec(g: &Game, me: &Unit, aim: &Line, c: &Constants) -> (b: bool)
    requires
        g.wf(),
        me.wf(),
        me.weapon is Some,
        aim.wf(),
        c.wf(),
    ensures
        b == ally_in_fire(*g, *me, *aim, *c),
{
    let w = c.weapons.get(me.weapon.unwrap());
    let mut i: usize = 0;
    while i < g.units.len()
        invariant
            g.wf(),
            me.wf(),
            me.weapon is Some,
            aim.wf(),
            c.wf(),
            w == c.weapons.spec_get(me.weapon.unwrap()),
            i <= g.units.len(),
            forall|j: int|
                0 <= j < i ==> !((#[trigger] g.units[j]).player_id == g.my_id && g.units[j].id
                    != me.id && (dist(g.units[j].position, me.position) + c.unit_radius) * MILLIS
                    + w.aim_time * w.projectile_speed > spawn_time_or(g.units[j], 0)
                    * w.projectile_speed && intercepts_spec(
                    Circle { center: g.units[j].position, radius: c.unit_radius },
                    *aim,
                )),
        decreases g.units.len() - i,
    {
        assert(g.units[i as int].wf());
        let u = g.units[i];
        if u.player_id == g.my_id && u.id != me.id {
            let du = crate::fields::dist_exec(&u.position, &me.position);
            let rst: i64 = match u.remaining_spawn_time {
                Some(t) => t,
                None => 0,
            };
            proof {
                lemma_mul_bound(w.aim_time as int, w.projectile_speed as int, QUANTITY_LIMIT as int, QUANTITY_LIMIT as int);
                lemma_mul_bound(rst as int, w.projectile_speed as int, QUANTITY_LIMIT as int, QUANTITY_LIMIT as int);
            }
            let lhs: i128 = (du as i128 + c.unit_radius as i128) * 1000 + (w.aim_time as i128)
                * (w.projectile_speed as i128);
            let rhs: i128 = (rst as i128) * (w.projectile_speed as i128);
            if lhs > rhs && u.as_circle(c.unit_radius).intercept_with_line(aim) {
                return true;
            }
        }
        i += 1;
    }
    false
}

/// The shot decision against `target` (see `shoot_spec`). A shot is never
/// fired through an obstacle that blocks it.
pub fn shoot_decision(me: &Unit, target: &Unit, game: &Game, constants: &Constants) -> (r: Option<bool>)
    requires
        me.wf(),
        me.weapon is Some,
        target.wf(),
        game.wf(),
        constants.wf(),
    ensures
        r == shoot_spec(*me, *target, *game, *constants),
        r == Some(true) ==> forall|i: int|
            0 <= i < constants.obstacles.len() && blocks(#[trigger] constants.obstacles[i])
                ==> !intercepts_spec(
                Circle {
                    center: constants.obstacles[i].position,
                    radius: (constants.obstacles[i].radius + constants.unit_radius) as i64,
                },
                aim_segment(*me, *target, *constants),
            ),
{
    let c = constants;
    let w = c.weapons.get(me.weapon.unwrap());
    let wr = w.range() + 2 * c.unit_radius;
    let d = crate::fields::dist_exec(&target.position, &me.position);
    let mut aim = Line::new(me.position, me.position.add(&me.direction.scaled_to(wr)));
    if aim.length() > d + 2 * c.unit_radius {
        aim.set_length(d + 2 * c.unit_radius);
    }
    assert(aim == aim_segment(*me, *target, *c));
    let n = blocking_count_exec(&c.obstacles, &aim, c.unit_radius);
    let ally = ally_in_fire_exec(game, me, &aim, c);
    if n > 1 || d > wr || ally {
        return None;
    }
    let lead = target.velocity.mul_div((d + c.unit_radius) * LEAD_NUM, w.projectile_speed * LEAD_DEN);
    let circle = Circle::new(target.position.add(&lead), c.unit_radius * 9 / 10);
    let rst: i64 = match target.remaining_spawn_time {
        Some(t) => t,
        None => -MILLIS,
    };
    proof {
        lemma_mul_bound(rst as int, w.projectile_speed as int, QUANTITY_LIMIT as int, QUANTITY_LIMIT as int);
        if n == 0 {
            lemma_blocking_count_zero(c.obstacles@, aim, c.unit_radius as int);
        }
    }
    let in_time = (rst as i128) * (w.projectile_speed as i128) < (d as i128 - c.unit_radius as i128)
        * 1000;
    Some(
        n == 0 && !ally && circle.intercept_with_line(&aim) && d <= wr + 2 * c.unit_radius
            && in_time,
    )
}

// ---------------------------------------------------------------------------
// The other actions.

pub open spec fn pickup_ok_fn(me: Unit, c: Constants) -> spec_fn(Loot) -> bool {
    |l: Loot| within_dist(l.position, me.position, c.unit_radius as int) && useful_spec(l.item, me, c)
}

/// Pick up the first useful loot within reach, else drink a potion when the
/// shield has room for one, else nothing.
pub open spec fn fallback_spec(m: MemoryView, me: Unit, c: Constants) -> Option<ActionOrder> {
    match first_of(m.loot, pickup_ok_fn(me, c)) {
        Some(l) => Some(ActionOrder::Pickup { loot: l.id }),
        None => if me.shield <= c.max_shield - c.shield_per_potion && me.shield_potions > 0 {
            Some(ActionOrder::UseShieldPotion)
        } else {
            None
        },
    }
}

/// The action when not shooting.
pub fn fallback_action(pp: &PotentialField, me: &Unit, constants: &Constants) -> (r: Option<ActionOrder>)
    requires
        pp@.wf(),
        me.wf(),
        constants.wf(),
    ensures
        r == fallback_spec(pp@, *me, *constants),
{
    let ghost ok = pickup_ok_fn(*me, *constants);
    let mut i: usize = 0;
    while i < pp.loot.len()
        invariant
            pp@.wf(),
            me.wf(),
            constants.wf(),
            ok == pickup_ok_fn(*me, *constants),
            i <= pp.loot.len(),
            first_of(pp.loot@.take(i as int), ok) is None,
        decreases pp.loot.len() - i,
    {
        assert(pp@.loot[i as int].wf());
        let l = pp.loot[i];
        proof {
            assert(pp.loot@.take(i as int + 1).drop_last() =~= pp.loot@.take(i as int));
        }
        if within_dist_exec(&l.position, &me.position, constants.unit_radius) && l.is_useful_to_me(
            me,
            constants,
        ) {
            proof {
                lemma_first_of_prefix(pp.loot@, ok, i as int + 1);
            }
            return Some(ActionOrder::Pickup { loot: l.id });
        }
        i += 1;
    }
    assert(pp.loot@.take(pp.loot.len() as int) =~= pp.loot@);
    if me.shield <= constants.max_shield - constants.shield_per_potion && me.shield_potions > 0 {
        Some(ActionOrder::UseShieldPotion)
    } else {
        None
    }
}

/// A sequence holding a match has a first match.
pub proof fn lemma_first_of_some<A>(s: Seq<A>, ok: spec_fn(A) -> bool, i: int)
    requires
        0 <= i < s.len(),
        ok(s[i]),
    ensures
        first_of(s, ok) is Some,
    decreases s.len(),
{
    if i < s.len() - 1 {
        assert(s.drop_last()[i] == s[i]);
        lemma_first_of_some(s.drop_last(), ok, i);
    }
}

/// Once a prefix holds a match, the whole sequence's first match is it.
pub proof fn lemma_first_of_prefix<A>(s: Seq<A>, ok: spec_fn(A) -> bool, k: int)
    requires
        0 <= k <= s.len(),
        first_of(s.take(k), ok) is Some,
    ensures
        first_of(s, ok) == first_of(s.take(k), ok),
    decreases s.len() - k,
{
    if k < s.len() {
        assert(s.take(k + 1).drop_last() =~= s.take(k));
        lemma_first_of_prefix(s, ok, k + 1);
    } else {
        assert(s.take(k) =~= s);
    }
}

// ---------------------------------------------------------------------------
// Movement and facing.

pub open spec fn loot_pos_fn() -> spec_fn(Loot) -> Vec2 {
    |l: Loot| l.position
}

pub open spec fn unit_pos_fn() -> spec_fn(Unit) -> Vec2 {
    |u: Unit| u.position
}

pub open spec fn sound_pos_fn() -> spec_fn(Sound) -> Vec2 {
    |s: Sound| s.position
}

/// Sounds within view distance of the unit are worth turning to.
pub open spec fn audible_fn(me: Unit, c: Constants) -> spec_fn(Sound) -> bool {
    |s: Sound| sq_dist(s.position, me.position) <= c.view_distance * c.view_distance
}

/// Useful loot lying well inside the current zone.
pub open spec fn bonus_ok_fn(me: Unit, g: Game, c: Constants) -> spec_fn(Loot) -> bool {
    |l: Loot|
        useful_spec(l.item, me, c) && g.zone.current_radius - 2 * c.unit_radius > 0 && sq_dist(
            l.position,
            g.zone.current_center,
        ) < (g.zone.current_radius - 2 * c.unit_radius) * (g.zone.current_radius - 2
            * c.unit_radius)
}

/// Another controlled unit more than eight unit radii away.
pub open spec fn far_ally_fn(me: Unit, g: Game, c: Constants) -> spec_fn(Unit) -> bool {
    |u: Unit|
        u.player_id == g.my_id && u.id != me.id && sq_dist(u.position, me.position) > (8
            * c.unit_radius) * (8 * c.unit_radius)
}

/// With nothing else to do, a unit near the center moves outward and one
/// far from it circles around it.
pub open spec fn orbit_point(g: Game, me: Unit) -> Vec2 {
    let z = g.zone;
    let v = sub_spec(me.position, z.current_center);
    if 4 * sq_dist(me.position, z.current_center) < z.current_radius * z.current_radius {
        add_spec(z.current_center, mul_div_spec(v, 3, 2))
    } else {
        add_spec(
            z.current_center,
            crate::geometry::vec_of(
                crate::geometry::clamp_coord(
                    crate::geometry::div_trunc(v.x * ORBIT_COS - v.y * ORBIT_SIN, ANGLE_ONE as int),
                ),
                crate::geometry::clamp_coord(
                    crate::geometry::div_trunc(v.x * ORBIT_SIN + v.y * ORBIT_COS, ANGLE_ONE as int),
                ),
            ),
        )
    }
}

/// Where a unit out of danger heads: the nearest useful loot in the zone,
/// else the nearest distant ally, else its orbit point.
pub open spec fn idle_target(m: MemoryView, g: Game, me: Unit, c: Constants) -> Vec2 {
    match nearest_of(m.loot, loot_pos_fn(), bonus_ok_fn(me, g, c), me.position) {
        Some(l) => l.position,
        None => match nearest_of(g.units@, unit_pos_fn(), far_ally_fn(me, g, c), me.position) {
            Some(a) => a.position,
            None => orbit_point(g, me),
        },
    }
}

/// The danger flag, or the target standing within the unit's reach.
pub open spec fn in_danger_spec(m: MemoryView, me: Unit, target: Option<Unit>, c: Constants) -> bool {
    crate::fields::danger_spec(m, me, c) || match target {
        Some(t) => sq_dist(t.position, me.position) < my_range(me, c) * my_range(me, c),
        None => false,
    }
}

/// A spawning unit moves at spawn speed to its best candidate under the
/// spawning utility; a unit in danger at full speed to its best candidate;
/// either falls back to the zone center when no candidate is feasible. A
/// unit out of danger heads for its idle target.
pub open spec fn velocity_spec(
    m: MemoryView,
    g: Game,
    me: Unit,
    mode: FightMode,
    target: Option<Unit>,
    c: Constants,
) -> Vec2 {
    if me.remaining_spawn_time is Some {
        let to = match best_point(candidates_spec(m, me, c), value_unspawned_fn(m, me, c), me.position) {
            Some(p) => p,
            None => g.zone.current_center,
        };
        scaled_to_spec(sub_spec(to, me.position), c.spawn_movement_speed as int)
    } else if in_danger_spec(m, me, target, c) {
        let to = match best_point(candidates_spec(m, me, c), value_fn(m, me, mode, c), me.position) {
            Some(p) => p,
            None => g.zone.current_center,
        };
        scaled_to_spec(sub_spec(to, me.position), c.max_unit_forward_speed as int)
    } else {
        scaled_to_spec(sub_spec(idle_target(m, g, me, c), me.position), c.max_unit_forward_speed as int)
    }
}

pub open spec fn sounds_seq(m: MemoryView) -> Seq<Sound> {
    m.shooting_sounds.map_values(|r: ShotRecord| r.sound) + m.hit_sounds.map_values(
        |r: SoundRecord| r.sound,
    ) + m.steps_sounds.map_values(|r: SoundRecord| r.sound)
}

/// The target is close enough to aim at: within the weapon's range times
/// the square root of one and a half (`strict` for the strict comparison).
pub open spec fn aim_window(t: Unit, me: Unit, c: Constants, strict: bool) -> bool {
    if strict {
        2 * sq_dist(t.position, me.position) < 3 * (my_range(me, c) * my_range(me, c))
    } else {
        2 * sq_dist(t.position, me.position) <= 3 * (my_range(me, c) * my_range(me, c))
    }
}

/// Face the target's led position when it is within the aim window, else the
/// nearest remembered sound within view distance, else the direction of
/// motion.
pub open spec fn direction_spec(m: MemoryView, me: Unit, target: Option<Unit>, velocity: Vec2, c: Constants) -> Vec2 {
    let raw = match target {
        Some(t) => if aim_window(t, me, c, false) {
            let d = dist(t.position, me.position);
            let speed = c.weapons.spec_get(me.weapon.unwrap()).projectile_speed as int;
            sub_spec(lead_point(t, d - c.unit_radius, speed), me.position)
        } else {
            match nearest_of(sounds_seq(m), sound_pos_fn(), audible_fn(me, c), me.position) {
                Some(s) => sub_spec(s.position, me.position),
                None => velocity,
            }
        },
        None => match nearest_of(sounds_seq(m), sound_pos_fn(), audible_fn(me, c), me.position) {
            Some(s) => sub_spec(s.position, me.position),
            None => velocity,
        },
    };
    scaled_to_spec(raw, crate::geometry::UNIT as int)
}

/// Aim (and maybe shoot) at a target within the aim window unless the shot
/// is ruled out; otherwise the fallback action.
pub open spec fn action_spec(m: MemoryView, g: Game, me: Unit, target: Option<Unit>, c: Constants) -> Option<
    ActionOrder,
> {
    match target {
        Some(t) => if aim_window(t, me, c, true) {
            match shoot_spec(me, t, g, c) {
                Some(b) => Some(ActionOrder::Aim { shoot: b }),
                None => fallback_spec(m, me, c),
            }
        } else {
            fallback_spec(m, me, c)
        },
        None => fallback_spec(m, me, c),
    }
}

/// The order of one controlled unit.
pub open spec fn decide_spec(m: MemoryView, g: Game, me: Unit, c: Constants) -> UnitOrder {
    let enemies = all_enemies(m, g);
    let mode = fight_mode_spec(g, enemies, me);
    let target = combat_target_spec(enemies, me, g, c);
    let v = velocity_spec(m, g, me, mode, target, c);
    UnitOrder {
        target_velocity: v,
        target_direction: direction_spec(m, me, target, v, c),
        action: action_spec(m, g, me, target, c),
    }
}

fn nearest_bonus_loot(pp: &PotentialField, g: &Game, me: &Unit, c: &Constants) -> (r: Option<Loot>)
    requires
        pp@.wf(),
        g.wf(),
        me.wf(),
        c.wf(),
    ensures
        r == nearest_of(pp@.loot, loot_pos_fn(), bonus_ok_fn(*me, *g, *c), me.position),
        r matches Some(l) ==> l.wf(),
{
    let ghost ok = bonus_ok_fn(*me, *g, *c);
    let lim = g.zone.current_radius - 2 * c.unit_radius;
    let mut best: Option<Loot> = None;
    let mut best_d: i128 = 0;
    let mut i: usize = 0;
    while i < pp.loot.len()
        invariant
            pp@.wf(),
            g.wf(),
            me.wf(),
            c.wf(),
            ok == bonus_ok_fn(*me, *g, *c),
            lim == g.zone.current_radius - 2 * c.unit_radius,
            i <= pp.loot.len(),
            best == nearest_of(pp.loot@.take(i as int), loot_pos_fn(), ok, me.position),
            best matches Some(b) ==> b.wf() && best_d == sq_dist(b.position, me.position),
        decreases pp.loot.len() - i,
    {
        assert(pp@.loot[i as int].wf());
        let l = pp.loot[i];
        proof {
            assert(pp.loot@.take(i as int + 1).drop_last() =~= pp.loot@.take(i as int));
            lemma_mul_bound(lim as int, lim as int, QUANTITY_LIMIT as int, QUANTITY_LIMIT as int);
        }
        let good = l.is_useful_to_me(me, c) && lim > 0 && l.position.square_distance_to(
            &g.zone.current_center,
        ) < (lim as i128) * (lim as i128);
        if good {
            let d = l.position.square_distance_to(&me.position);
            match best {
                None => {
                    best = Some(l);
                    best_d = d;
                },
                Some(_) => {
                    if d < best_d {
                        best = Some(l);
                        best_d = d;
                    }
                },
            }
        }
        i += 1;
    }
    assert(pp.loot@.take(pp.loot.len() as int) =~= pp.loot@);
    best
}

fn nearest_far_ally(g: &Game, me: &Unit, c: &Constants) -> (r: Option<Unit>)
    requires
        g.wf(),
        me.wf(),
        c.wf(),
    ensures
        r == nearest_of(g.units@, unit_pos_fn(), far_ally_fn(*me, *g, *c), me.position),
        r matches Some(u) ==> u.wf(),
{
    let ghost ok = far_ally_fn(*me, *g, *c);
    let far = 8 * c.unit_radius as i128;
    let mut best: Option<Unit> = None;
    let mut best_d: i128 = 0;
    let mut i: usize = 0;
    while i < g.units.len()
        invariant
            g.wf(),
            me.wf(),
            c.wf(),
            ok == far_ally_fn(*me, *g, *c),
            far == 8 * c.unit_radius,
            i <= g.units.len(),
            best == nearest_of(g.units@.take(i as int), unit_pos_fn(), ok, me.position),
            best matches Some(b) ==> b.wf() && best_d == sq_dist(b.position, me.position),
        decreases g.units.len() - i,
    {
        assert(g.units[i as int].wf());
        let u = g.units[i];
        proof {
            assert(g.units@.take(i as int + 1).drop_last() =~= g.units@.take(i as int));
        }
        let d = u.position.square_distance_to(&me.position);
        proof {
            lemma_mul_bound(far as int, far as int, 8 * QUANTITY_LIMIT as int, 8 * QUANTITY_LIMIT as int);
        }
        if u.player_id == g.my_id && u.id != me.id && d > far * far {
            match best {
                None => {
                    best = Some(u);
                    best_d = d;
                },
                Some(_) => {
                    if d < best_d {
                        best = Some(u);
                        best_d = d;
                    }
                },
            }
        }
        i += 1;
    }
    assert(g.units@.take(g.units.len() as int) =~= g.units@);
    best
}

fn nearest_sound(sounds: &Vec<Sound>, me: &Unit, c: &Constants) -> (r: Option<Sound>)
    requires
        me.wf(),
        c.wf(),
        forall|i: int| 0 <= i < sounds.len() ==> #[trigger] sounds[i].wf(),
    ensures
        r == nearest_of(sounds@, sound_pos_fn(), audible_fn(*me, *c), me.position),
        r matches Some(s) ==> s.wf(),
{
    let mut best: Option<Sound> = None;
    let mut best_d: i128 = 0;
    let mut i: usize = 0;
    while i < sounds.len()
        invariant
            me.wf(),
            forall|i: int| 0 <= i < sounds.len() ==> #[trigger] sounds[i].wf(),
            i <= sounds.len(),
            c.wf(),
            best == nearest_of(sounds@.take(i as int), sound_pos_fn(), audible_fn(*me, *c), me.position),
            best matches Some(b) ==> b.wf() && best_d == sq_dist(b.position, me.position),
        decreases sounds.len() - i,
    {
        assert(sounds[i as int].wf());
        let x = sounds[i];
        proof {
            assert(sounds@.take(i as int + 1).drop_last() =~= sounds@.take(i as int));
        }
        let d = x.position.square_distance_to(&me.position);
        let vd = c.view_distance as i128;
        proof {
            lemma_mul_bound(vd as int, vd as int, QUANTITY_LIMIT as int, QUANTITY_LIMIT as int);
        }
        if d <= vd * vd {
            match best {
                None => {
                    best = Some(x);
                    best_d = d;
                },
                Some(_) => {
                    if d < best_d {
                        best = Some(x);
                        best_d = d;
                    }
                },
            }
        }
        i += 1;
    }
    assert(sounds@.take(sounds.len() as int) =~= sounds@);
    best
}

fn orbit_point_exec(g: &Game, me: &Unit) -> (r: Vec2)
    requires
        g.wf(),
        me.wf(),
    ensures
        r == orbit_point(*g, *me),
        r.wf(),
{
    let z = g.zone;
    let v = me.position.sub(&z.current_center);
    let s = me.position.square_distance_to(&z.current_center);
    let cr = z.current_radius as i128;
    proof {
        lemma_mul_bound(cr as int, cr as int, QUANTITY_LIMIT as int, QUANTITY_LIMIT as int);
    }
    if 4 * s < cr * cr {
        z.current_center.add(&v.mul_div(3, 2))
    } else {
        z.current_center.add(&v.rotate(ORBIT_COS, ORBIT_SIN))
    }
}

fn my_range_exec(me: &Unit, c: &Constants) -> (r: i64)
    requires
        c.wf(),
    ensures
        r as int == my_range(*me, *c),
        0 <= r <= QUANTITY_LIMIT,
{
    match me.weapon {
        Some(w) => c.weapons.get(w).range(),
        None => 0,
    }
}

fn aim_window_exec(t: &Unit, me: &Unit, c: &Constants, strict: bool) -> (b: bool)
    requires
        t.wf(),
        me.wf(),
        c.wf(),
    ensures
        b == aim_window(*t, *me, *c, strict),
{
    let r = my_range_exec(me, c) as i128;
    let s = t.position.square_distance_to(&me.position);
    proof {
        lemma_mul_bound(r as int, r as int, QUANTITY_LIMIT as int, QUANTITY_LIMIT as int);
    }
    if strict {
        2 * s < 3 * (r * r)
    } else {
        2 * s <= 3 * (r * r)
    }
}

/// The unit's target velocity.
pub fn target_velocity(
    pp: &PotentialField,
    game: &Game,
    me: &Unit,
    mode: FightMode,
    target: &Option<Unit>,
    constants: &Constants,
) -> (r: Vec2)
    requires
        pp@.wf(),
        game.wf(),
        me.wf(),
        target matches Some(t) ==> t.wf(),
        constants.wf(),
    ensures
        r == velocity_spec(pp@, *game, *me, mode, *target, *constants),
        r.wf(),
{
    let c = constants;
    if me.remaining_spawn_time.is_some() {
        let cands = pp.candidates(me, c);
        let to = match best_candidate(pp, &cands, me, mode, true, c) {
            Some(p) => p,
            None => game.zone.current_center,
        };
        return to.sub(&me.position).scaled_to(c.spawn_movement_speed);
    }
    let near = match target {
        Some(t) => {
            let r = my_range_exec(me, c) as i128;
            proof {
                lemma_mul_bound(r as int, r as int, QUANTITY_LIMIT as int, QUANTITY_LIMIT as int);
            }
            t.position.square_distance_to(&me.position) < r * r
        },
        None => false,
    };
    if pp.is_in_danger(me, c) || near {
        let cands = pp.candidates(me, c);
        let to = match best_candidate(pp, &cands, me, mode, false, c) {
            Some(p) => p,
            None => game.zone.current_center,
        };
        to.sub(&me.position).scaled_to(c.max_unit_forward_speed)
    } else {
        let to = match nearest_bonus_loot(pp, game, me, c) {
            Some(l) => l.position,
            None => match nearest_far_ally(game, me, c) {
                Some(a) => a.position,
                None => orbit_point_exec(game, me),
            },
        };
        to.sub(&me.position).scaled_to(c.max_unit_forward_speed)
    }
}

/// The unit's facing.
pub fn target_direction(
    pp: &PotentialField,
    me: &Unit,
    target: &Option<Unit>,
    velocity: &Vec2,
    constants: &Constants,
) -> (r: Vec2)
    requires
        pp@.wf(),
        me.wf(),
        target matches Some(t) ==> t.wf() && me.weapon is Some,
        velocity.wf(),
        constants.wf(),
    ensures
        r == direction_spec(pp@, *me, *target, *velocity, *constants),
{
    let c = constants;
    let aimed = match target {
        Some(t) => aim_window_exec(t, me, c, false),
        None => false,
    };
    let raw = if aimed {
        let t = target.unwrap();
        let d = crate::fields::dist_exec(&t.position, &me.position);
        let speed = c.weapons.get(me.weapon.unwrap()).projectile_speed;
        let lead = t.velocity.mul_div((d - c.unit_radius) * LEAD_NUM, speed * LEAD_DEN);
        t.position.add(&lead).sub(&me.position)
    } else {
        let sounds = pp.sounds();
        proof {
            assert(sounds@ =~= sounds_seq(pp@));
            assert forall|i: int| 0 <= i < sounds.len() implies #[trigger] sounds[i].wf() by {
                let n1 = pp.shooting_sounds.len() as int;
                let n2 = n1 + pp.hit_sounds.len();
                if i < n1 {
                    assert(pp@.shooting_sounds[i].wf());
                } else if i < n2 {
                    assert(pp@.hit_sounds[i - n1].wf());
                } else {
                    assert(pp@.steps_sounds[i - n2].wf());
                }
            }
        }
        match nearest_sound(&sounds, me, c) {
            Some(s) => s.position.sub(&me.position),
            None => *velocity,
        }
    };
    raw.normalize()
}

/// The unit's action.
pub fn unit_action(
    pp: &PotentialField,
    game: &Game,
    me: &Unit,
    target: &Option<Unit>,
    constants: &Constants,
) -> (r: Option<ActionOrder>)
    requires
        pp@.wf(),
        game.wf(),
        me.wf(),
        target matches Some(t) ==> t.wf() && me.weapon is Some,
        constants.wf(),
    ensures
        r == action_spec(pp@, *game, *me, *target, *constants),
{
    match target {
        Some(t) => {
            if aim_window_exec(t, me, constants, true) {
                match shoot_decision(me, t, game, constants) {
                    Some(b) => Some(ActionOrder::Aim { shoot: b }),
                    None => fallback_action(pp, me, constants),
                }
            } else {
                fallback_action(pp, me, constants)
            }
        },
        None => fallback_action(pp, me, constants),
    }
}

/// The visible enemies of `game` followed by the remembered ones.
pub fn collect_enemies(pp: &PotentialField, game: &Game) -> (r: Vec<Unit>)
    requires
        pp@.wf(),
        game.wf(),
    ensures
        r@ == all_enemies(pp@, *game),
        forall|i: int| 0 <= i < r.len() ==> #[trigger] r[i].wf(),
{
    let ghost pred = |u: Unit| u.player_id != game.my_id;
    let mut r: Vec<Unit> = Vec::new();
    let mut i: usize = 0;
    while i < game.units.len()
        invariant
            game.wf(),
            pred == (|u: Unit| u.player_id != game.my_id),
            i <= game.units.len(),
            r@ == game.units@.take(i as int).filter(pred),
            forall|j: int| 0 <= j < r.len() ==> #[trigger] r[j].wf(),
        decreases game.units.len() - i,
    {
        let u = game.units[i];
        assert(game.units[i as int].wf());
        proof {
            lemma_take_push(game.units@, i as int);
            game.units@.take(i as int).lemma_filter_push(u, pred);
        }
        if u.player_id != game.my_id {
            r.push(u);
        }
        i += 1;
    }
    assert(game.units@.take(game.units.len() as int) =~= game.units@);
    let mut old = pp.old_enemies.clone();
    assert(old@ =~= pp@.old_enemies);
    r.append(&mut old);
    proof {
        assert forall|j: int| 0 <= j < r.len() implies #[trigger] r[j].wf() by {
            let n = game.units@.filter(pred).len();
            if j >= n {
                assert(pp@.old_enemies[j - n].wf());
            }
        }
    }
    r
}

/// The order of one controlled unit, given the tick's enemies.
pub fn decide(
    pp: &PotentialField,
    game: &Game,
    enemies: &Vec<Unit>,
    me: &Unit,
    constants: &Constants,
) -> (r: UnitOrder)
    requires
        pp@.wf(),
        game.wf(),
        enemies@ == all_enemies(pp@, *game),
        forall|i: int| 0 <= i < enemies.len() ==> #[trigger] enemies[i].wf(),
        me.wf(),
        constants.wf(),
    ensures
        r == decide_spec(pp@, *game, *me, *constants),
{
    let mode = fight_mode(game, enemies, me);
    let target = combat_target(enemies, me, game, constants);
    let v = target_velocity(pp, game, me, mode, &target, constants);
    let d = target_direction(pp, me, &target, &v, constants);
    let a = unit_action(pp, game, me, &target, constants);
    UnitOrder { target_velocity: v, target_direction: d, action: a }
}

// ---------------------------------------------------------------------------
// The strategy.

/// The controller of one team: its rules and its memory.
pub struct MyStrategy {
    pub constants: Constants,
    pub pp: PotentialField,
}

pub open spec fn mine_fn(my_id: i32) -> spec_fn(Unit) -> bool {
    |u: Unit| u.player_id == my_id
}

impl MyStrategy {
    pub open spec fn wf(self) -> bool {
        self.constants.wf() && self.pp@.wf()
    }

    pub fn new(constants: Constants) -> (r: MyStrategy)
        requires
            constants.wf(),
        ensures
            r.wf(),
            r.constants == constants,
            r.pp@.last_tick is None,
    {
        let pp = PotentialField::new(&constants);
        MyStrategy { constants, pp }
    }

    /// Absorbs the tick's snapshot and orders every controlled unit, in the
    /// order of the snapshot's units.
    pub fn get_order(&mut self, game: &Game) -> (r: Order)
        requires
            old(self).wf(),
            game.wf(),
        ensures
            final(self).wf(),
            final(self).constants == old(self).constants,
            final(self).pp@ == next_view(old(self).pp@, *game, old(self).constants),
            r.unit_orders@.len() == game.units@.filter(mine_fn(game.my_id)).len(),
            forall|i: int|
                0 <= i < r.unit_orders@.len() ==> {
                    let u = #[trigger] game.units@.filter(mine_fn(game.my_id))[i];
                    r.unit_orders@[i] == (u.id, decide_spec(final(self).pp@, *game, u, final(self).constants))
                },
    {
        self.pp.update(game, &self.constants);
        let enemies = collect_enemies(&self.pp, game);
        let ghost pred = mine_fn(game.my_id);
        let mut orders: Vec<(i32, UnitOrder)> = Vec::new();
        let ghost mine: Seq<Unit> = Seq::empty();
        let mut i: usize = 0;
        while i < game.units.len()
            invariant
                self.wf(),
                game.wf(),
                enemies@ == all_enemies(self.pp@, *game),
                forall|j: int| 0 <= j < enemies.len() ==> #[trigger] enemies[j].wf(),
                pred == mine_fn(game.my_id),
                i <= game.units.len(),
                mine == game.units@.take(i as int).filter(pred),
                orders@.len() == mine.len(),
                forall|j: int|
                    0 <= j < orders@.len() ==> #[trigger] orders@[j] == (
                        mine[j].id,
                        decide_spec(self.pp@, *game, mine[j], self.constants),
                    ),
            decreases game.units.len() - i,
        {
            let u = game.units[i];
            assert(game.units[i as int].wf());
            proof {
                lemma_take_push(game.units@, i as int);
                game.units@.take(i as int).lemma_filter_push(u, pred);
            }
            if u.player_id == game.my_id {
                let o = decide(&self.pp, game, &enemies, &u, &self.constants);
                orders.push((u.id, o));
                proof {
                    mine = mine.push(u);
                }
            }
            i += 1;
        }
        assert(game.units@.take(game.units.len() as int) =~= game.units@);
        Order { unit_orders: orders }
    }

    /// Hook for a debugging view; it draws nothing.
    pub fn debug_update(&mut self, _displayed_tick: i32)
        ensures
            *final(self) == *old(self),
    {
    }

    /// Called once the match is over.
    pub fn finish(&mut self)
        ensures
            *final(self) == *old(self),
    {
    }
}

} // verus!
