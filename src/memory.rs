//! Perception memory: what the team has seen, merged with decaying beliefs
//! about what it no longer sees.

use vstd::prelude::*;
use crate::geometry::{Vec2, UNIT, scaled_to_spec, sub_spec, sq_dist, lemma_mul_bound};
use crate::model::{
    Constants, Game, Loot, Projectile, Sound, SoundKind, Unit, WeaponKind, Zone, MILLIS,
    QUANTITY_LIMIT, TICK_LIMIT, dangerous_spec, distinct_ids, in_fov_spec,
};

verus! {

/// Ticks a sound stays in memory.
pub const SOUND_MEMORY_TICKS: i64 = 50;

/// Weapon assumed for an enemy that is no longer seen.
pub const ASSUMED_WEAPON: WeaponKind = WeaponKind::Bow;

/// Ammunition assumed for that weapon.
pub const ASSUMED_AMMO: i32 = 25;

/// A shot heard, with where the listener stood when it heard it.
#[derive(Clone, Copy, Debug, PartialEq, Eq, Structural)]
pub struct ShotRecord {
    pub sound: Sound,
    pub listener: Vec2,
    pub tick: i64,
}

impl ShotRecord {
    pub open spec fn wf(self) -> bool {
        self.sound.wf() && self.listener.wf() && 0 <= self.tick <= TICK_LIMIT
    }
}

/// A sound heard at some tick.
#[derive(Clone, Copy, Debug, PartialEq, Eq, Structural)]
pub struct SoundRecord {
    pub sound: Sound,
    pub tick: i64,
}

impl SoundRecord {
    pub open spec fn wf(self) -> bool {
        self.sound.wf() && 0 <= self.tick <= TICK_LIMIT
    }
}

/// The three classes of sound memory.
#[derive(Clone, Copy, Debug, PartialEq, Eq, Structural)]
pub enum SoundClass {
    Shot,
    Hit,
    Steps,
}

pub open spec fn in_class(k: SoundKind, class: SoundClass) -> bool {
    match class {
        SoundClass::Shot => k is Shot,
        SoundClass::Hit => k is Hit,
        SoundClass::Steps => k is Steps,
    }
}

// ---------------------------------------------------------------------------
// What one snapshot says.

pub open spec fn unit_id_visible(g: Game, id: i32) -> bool {
    exists|i: int| 0 <= i < g.units.len() && #[trigger] g.units[i].id == id
}

pub open spec fn projectile_id_visible(g: Game, id: i32) -> bool {
    exists|i: int| 0 <= i < g.projectiles.len() && #[trigger] g.projectiles[i].id == id
}

pub open spec fn loot_id_visible(g: Game, id: i32) -> bool {
    exists|i: int| 0 <= i < g.loot.len() && #[trigger] g.loot[i].id == id
}

/// Some controlled unit's view cone covers `p`.
pub open spec fn covered_by_team(g: Game, p: Vec2, c: Constants) -> bool {
    exists|i: int|
        0 <= i < g.units.len() && #[trigger] g.units[i].player_id == g.my_id && in_fov_spec(
            g.units[i],
            p,
            c,
        )
}

/// The projectile is dangerous to some controlled unit.
pub open spec fn dangerous_to_team(p: Projectile, g: Game, c: Constants) -> bool {
    exists|i: int|
        0 <= i < g.units.len() && #[trigger] g.units[i].player_id == g.my_id && dangerous_spec(
            p,
            g.units[i],
            c,
        )
}

/// A visible enemy stands close enough to where the sound was heard to have
/// made it.
pub open spec fn near_visible_enemy(s: Sound, g: Game, c: Constants) -> bool {
    exists|i: int|
        0 <= i < g.units.len() && #[trigger] g.units[i].player_id != g.my_id && sq_dist(
            g.units[i].position,
            s.position,
        ) <= (c.unit_radius + s.offset) * (c.unit_radius + s.offset)
}

/// The controlled unit nearest to `p` (the first of equally near ones).
pub open spec fn closest_mine(us: Seq<Unit>, my_id: i32, p: Vec2) -> Option<Unit>
    decreases us.len(),
{
    if us.len() == 0 {
        None
    } else {
        let rest = closest_mine(us.drop_last(), my_id, p);
        let u = us.last();
        if u.player_id != my_id {
            rest
        } else {
            match rest {
                None => Some(u),
                Some(b) => if sq_dist(u.position, p) < sq_dist(b.position, p) {
                    Some(u)
                } else {
                    Some(b)
                },
            }
        }
    }
}

/// The unit with id `id` (the last one, should there be several).
pub open spec fn find_unit(us: Seq<Unit>, id: i32) -> Option<Unit>
    decreases us.len(),
{
    if us.len() == 0 {
        None
    } else if us.last().id == id {
        Some(us.last())
    } else {
        find_unit(us.drop_last(), id)
    }
}

/// Milliseconds from the memory's last snapshot to `g`; zero when `g` is
/// not later.
pub open spec fn elapsed_ms(last_tick: Option<i64>, g: Game, c: Constants) -> int {
    match last_tick {
        Some(t) => if g.current_tick > t {
            (g.current_tick - t) * MILLIS / c.ticks_per_second as int
        } else {
            0
        },
        None => 0,
    }
}

/// `g` is a later tick than any the memory has absorbed.
pub open spec fn advances(last_tick: Option<i64>, g: Game) -> bool {
    match last_tick {
        Some(t) => g.current_tick > t,
        None => true,
    }
}

// ---------------------------------------------------------------------------
// The rules of each kind of memory.

/// A remembered enemy is kept while it is not visible and no controlled
/// unit's view cone covers its last known position.
pub open spec fn keep_enemy(e: Unit, g: Game, c: Constants) -> bool {
    !unit_id_visible(g, e.id) && !covered_by_team(g, e.position, c)
}

pub open spec fn keep_enemy_pred(g: Game, c: Constants) -> spec_fn(Unit) -> bool {
    |e: Unit| keep_enemy(e, g, c)
}

pub open spec fn countdown(t: Option<i64>, dt: int) -> Option<i64> {
    match t {
        Some(x) => if x - dt > 0 {
            Some((x - dt) as i64)
        } else {
            None
        },
        None => None,
    }
}

/// A remembered enemy is assumed to turn toward the nearest controlled unit,
/// to carry the assumed weapon, and to keep counting down to its spawn.
pub open spec fn refresh_enemy(e: Unit, g: Game, dt: int) -> Unit {
    Unit {
        direction: match closest_mine(g.units@, g.my_id, e.position) {
            Some(u) => scaled_to_spec(sub_spec(u.position, e.position), UNIT as int),
            None => e.direction,
        },
        weapon: Some(ASSUMED_WEAPON),
        ammo: e.ammo.spec_set(ASSUMED_WEAPON, ASSUMED_AMMO),
        remaining_spawn_time: countdown(e.remaining_spawn_time, dt),
        ..e
    }
}

pub open spec fn refresh_enemy_fn(g: Game, dt: int) -> spec_fn(Unit) -> Unit {
    |e: Unit| refresh_enemy(e, g, dt)
}

pub open spec fn remembered_enemies_spec(cands: Seq<Unit>, g: Game, c: Constants, dt: int) -> Seq<
    Unit,
> {
    cands.filter(keep_enemy_pred(g, c)).map_values(refresh_enemy_fn(g, dt))
}

pub open spec fn decay_projectile(p: Projectile, dt: int) -> Projectile {
    Projectile { life_time: (p.life_time - dt) as i64, ..p }
}

pub open spec fn decay_fn(dt: int) -> spec_fn(Projectile) -> Projectile {
    |p: Projectile| decay_projectile(p, dt)
}

/// A remembered projectile is kept while it has life left and no visible
/// projectile has its id.
pub open spec fn keep_projectile(p: Projectile, g: Game) -> bool {
    p.life_time > 0 && !projectile_id_visible(g, p.id)
}

pub open spec fn keep_projectile_pred(g: Game) -> spec_fn(Projectile) -> bool {
    |p: Projectile| keep_projectile(p, g)
}

pub open spec fn remembered_projectiles_spec(old: Seq<Projectile>, g: Game, dt: int) -> Seq<
    Projectile,
> {
    old.map_values(decay_fn(dt)).filter(keep_projectile_pred(g))
}

pub open spec fn dangerous_pred(g: Game, c: Constants) -> spec_fn(Projectile) -> bool {
    |p: Projectile| dangerous_to_team(p, g, c)
}

/// A sound of `g` is absorbed into its class unless a visible enemy
/// explains it.
pub open spec fn absorb_sound(s: Sound, g: Game, c: Constants, class: SoundClass) -> bool {
    in_class(s.kind, class) && !near_visible_enemy(s, g, c)
}

pub open spec fn absorb_pred(g: Game, c: Constants, class: SoundClass) -> spec_fn(Sound) -> bool {
    |s: Sound| absorb_sound(s, g, c, class)
}

pub open spec fn shot_record(s: Sound, g: Game) -> ShotRecord {
    ShotRecord {
        sound: s,
        listener: match find_unit(g.units@, s.unit_id) {
            Some(u) => u.position,
            None => s.position,
        },
        tick: g.current_tick,
    }
}

pub open spec fn shot_record_fn(g: Game) -> spec_fn(Sound) -> ShotRecord {
    |s: Sound| shot_record(s, g)
}

pub open spec fn sound_record_fn(g: Game) -> spec_fn(Sound) -> SoundRecord {
    |s: Sound| SoundRecord { sound: s, tick: g.current_tick }
}

pub open spec fn recent(tick: i64, now: i64) -> bool {
    now - tick < SOUND_MEMORY_TICKS
}

pub open spec fn recent_shot_pred(now: i64) -> spec_fn(ShotRecord) -> bool {
    |r: ShotRecord| recent(r.tick, now)
}

pub open spec fn recent_sound_pred(now: i64) -> spec_fn(SoundRecord) -> bool {
    |r: SoundRecord| recent(r.tick, now)
}

/// Remembered loot is kept until it is visible again or some controlled
/// unit's view cone covers where it lay.
pub open spec fn keep_loot(l: Loot, g: Game, c: Constants) -> bool {
    !loot_id_visible(g, l.id) && !covered_by_team(g, l.position, c)
}

pub open spec fn keep_loot_pred(g: Game, c: Constants) -> spec_fn(Loot) -> bool {
    |l: Loot| keep_loot(l, g, c)
}

// ---------------------------------------------------------------------------
// Sequence lemmas.

pub proof fn lemma_filter_all<A>(s: Seq<A>, p: spec_fn(A) -> bool)
    requires
        forall|i: int| 0 <= i < s.len() ==> p(#[trigger] s[i]),
    ensures
        s.filter(p) == s,
    decreases s.len(),
{
    if s.len() > 0 {
        let r = s.drop_last();
        lemma_filter_all(r, p);
        r.lemma_filter_push(s.last(), p);
        assert(r.push(s.last()) =~= s);
    } else {
        reveal(Seq::filter);
    }
}

pub proof fn lemma_filter_none<A>(s: Seq<A>, p: spec_fn(A) -> bool)
    requires
        forall|i: int| 0 <= i < s.len() ==> !p(#[trigger] s[i]),
    ensures
        s.filter(p) == Seq::<A>::empty(),
    decreases s.len(),
{
    if s.len() > 0 {
        let r = s.drop_last();
        lemma_filter_none(r, p);
        r.lemma_filter_push(s.last(), p);
        assert(r.push(s.last()) =~= s);
    } else {
        reveal(Seq::filter);
        assert(s =~= Seq::<A>::empty());
    }
}

pub proof fn lemma_take_push<A>(s: Seq<A>, i: int)
    requires
        0 <= i < s.len(),
    ensures
        s.take(i + 1) == s.take(i).push(s[i]),
{
    assert(s.take(i + 1) =~= s.take(i).push(s[i]));
}

// ---------------------------------------------------------------------------
// Executable pieces.

fn unit_id_visible_exec(g: &Game, id: i32) -> (b: bool)
    ensures
        b == unit_id_visible(*g, id),
{
    let mut i: usize = 0;
    while i < g.units.len()
        invariant
            i <= g.units.len(),
            forall|j: int| 0 <= j < i ==> #[trigger] g.units[j].id != id,
        decreases g.units.len() - i,
    {
        if g.units[i].id == id {
            return true;
        }
        i += 1;
    }
    false
}

fn projectile_id_visible_exec(g: &Game, id: i32) -> (b: bool)
    ensures
        b == projectile_id_visible(*g, id),
{
    let mut i: usize = 0;
    while i < g.projectiles.len()
        invariant
            i <= g.projectiles.len(),
            forall|j: int| 0 <= j < i ==> #[trigger] g.projectiles[j].id != id,
        decreases g.projectiles.len() - i,
    {
        if g.projectiles[i].id == id {
            return true;
        }
        i += 1;
    }
    false
}

fn loot_id_visible_exec(g: &Game, id: i32) -> (b: bool)
    ensures
        b == loot_id_visible(*g, id),
{
    let mut i: usize = 0;
    while i < g.loot.len()
        invariant
            i <= g.loot.len(),
            forall|j: int| 0 <= j < i ==> #[trigger] g.loot[j].id != id,
        decreases g.loot.len() - i,
    {
        if g.loot[i].id == id {
            return true;
        }
        i += 1;
    }
    false
}

/// Whether some controlled unit's view cone covers `p`.
pub fn covered_by_team_exec(g: &Game, p: &Vec2, c: &Constants) -> (b: bool)
    requires
        g.wf(),
        p.wf(),
        c.wf(),
    ensures
        b == covered_by_team(*g, *p, *c),
{
    let mut i: usize = 0;
    while i < g.units.len()
        invariant
            g.wf(),
            p.wf(),
            c.wf(),
            i <= g.units.len(),
            forall|j: int|
                0 <= j < i ==> !(#[trigger] g.units[j].player_id == g.my_id && in_fov_spec(
                    g.units[j],
                    *p,
                    *c,
                )),
        decreases g.units.len() - i,
    {
        if g.units[i].player_id == g.my_id && g.units[i].is_in_fov(p, c) {
            return true;
        }
        i += 1;
    }
    false
}

/// Whether the projectile is dangerous to some controlled unit.
pub fn dangerous_to_team_exec(p: &Projectile, g: &Game, c: &Constants) -> (b: bool)
    requires
        g.wf(),
        p.wf(),
        c.wf(),
    ensures
        b == dangerous_to_team(*p, *g, *c),
{
    let mut i: usize = 0;
    while i < g.units.len()
        invariant
            g.wf(),
            p.wf(),
            c.wf(),
            i <= g.units.len(),
            forall|j: int|
                0 <= j < i ==> !(#[trigger] g.units[j].player_id == g.my_id && dangerous_spec(
                    *p,
                    g.units[j],
                    *c,
                )),
        decreases g.units.len() - i,
    {
        if g.units[i].player_id == g.my_id && p.is_dangerous(&g.units[i], c) {
            return true;
        }
        i += 1;
    }
    false
}

fn near_visible_enemy_exec(s: &Sound, g: &Game, c: &Constants) -> (b: bool)
    requires
        g.wf(),
        s.wf(),
        c.wf(),
    ensures
        b == near_visible_enemy(*s, *g, *c),
{
    let r = c.unit_radius as i128 + s.offset as i128;
    proof {
        lemma_mul_bound(r as int, r as int, 2 * QUANTITY_LIMIT as int, 2 * QUANTITY_LIMIT as int);
    }
    let mut i: usize = 0;
    while i < g.units.len()
        invariant
            g.wf(),
            s.wf(),
            c.wf(),
            r == c.unit_radius + s.offset,
            -(4 * QUANTITY_LIMIT * QUANTITY_LIMIT) <= r * r <= 4 * QUANTITY_LIMIT * QUANTITY_LIMIT,
            i <= g.units.len(),
            forall|j: int|
                0 <= j < i ==> !(#[trigger] g.units[j].player_id != g.my_id && sq_dist(
                    g.units[j].position,
                    s.position,
                ) <= (c.unit_radius + s.offset) * (c.unit_radius + s.offset)),
        decreases g.units.len() - i,
    {
        assert(g.units[i as int].wf());
        if g.units[i].player_id != g.my_id
            && g.units[i].position.square_distance_to(&s.position) <= r * r {
            return true;
        }
        i += 1;
    }
    false
}

/// The controlled unit nearest to `p`.
pub fn closest_mine_exec(g: &Game, p: &Vec2) -> (r: Option<Unit>)
    requires
        g.wf(),
        p.wf(),
    ensures
        r == closest_mine(g.units@, g.my_id, *p),
        r matches Some(u) ==> u.wf(),
{
    let mut best: Option<Unit> = None;
    let mut best_d: i128 = 0;
    let mut i: usize = 0;
    while i < g.units.len()
        invariant
            g.wf(),
            p.wf(),
            i <= g.units.len(),
            best == closest_mine(g.units@.take(i as int), g.my_id, *p),
            best matches Some(b) ==> b.wf() && best_d == sq_dist(b.position, *p),
        decreases g.units.len() - i,
    {
        proof {
            lemma_take_push(g.units@, i as int);
            assert(g.units@.take(i as int + 1).drop_last() =~= g.units@.take(i as int));
        }
        let u = g.units[i];
        assert(g.units[i as int].wf());
        if u.player_id == g.my_id {
            let d = u.position.square_distance_to(p);
            match best {
                None => {
                    best = Some(u);
                    best_d = d;
                },
                Some(_) => {
                    if d < best_d {
                        best = Some(u);
                        best_d = d;
                    }
                },
            }
        }
        i += 1;
    }
    assert(g.units@.take(g.units.len() as int) =~= g.units@);
    best
}

/// The unit of `units` with id `id`.
pub fn find_unit_exec(units: &Vec<Unit>, id: i32) -> (r: Option<Unit>)
    requires
        forall|i: int| 0 <= i < units.len() ==> #[trigger] units[i].wf(),
    ensures
        r == find_unit(units@, id),
        r matches Some(u) ==> u.wf(),
{
    let mut found: Option<Unit> = None;
    let mut i: usize = 0;
    while i < units.len()
        invariant
            forall|i: int| 0 <= i < units.len() ==> #[trigger] units[i].wf(),
            i <= units.len(),
            found == find_unit(units@.take(i as int), id),
            found matches Some(u) ==> u.wf(),
        decreases units.len() - i,
    {
        proof {
            lemma_take_push(units@, i as int);
            assert(units@.take(i as int + 1).drop_last() =~= units@.take(i as int));
        }
        if units[i].id == id {
            found = Some(units[i]);
        }
        i += 1;
    }
    assert(units@.take(units.len() as int) =~= units@);
    found
}

/// Longest time that can pass between two snapshots, in milliseconds.
pub const ELAPSED_LIMIT: i64 = 1099511627776;

fn refresh_enemy_exec(e: &Unit, g: &Game, dt: i64) -> (r: Unit)
    requires
        e.wf(),
        g.wf(),
        0 <= dt <= ELAPSED_LIMIT,
    ensures
        r == refresh_enemy(*e, *g, dt as int),
        r.wf(),
{
    let mut r = *e;
    match closest_mine_exec(g, &e.position) {
        Some(u) => {
            r.direction = u.position.sub(&e.position).normalize();
        },
        None => {},
    }
    r.weapon = Some(WeaponKind::Bow);
    r.ammo.set(WeaponKind::Bow, ASSUMED_AMMO);
    r.remaining_spawn_time =
        match e.remaining_spawn_time {
            Some(x) => if x - dt > 0 {
                Some(x - dt)
            } else {
                None
            },
            None => None,
        };
    r
}

/// Keeps the candidates that are still worth remembering, refreshed.
fn remember_enemies(cands: &Vec<Unit>, g: &Game, c: &Constants, dt: i64) -> (r: Vec<Unit>)
    requires
        g.wf(),
        c.wf(),
        forall|i: int| 0 <= i < cands.len() ==> #[trigger] cands[i].wf(),
        0 <= dt <= ELAPSED_LIMIT,
    ensures
        r@ == remembered_enemies_spec(cands@, *g, *c, dt as int),
        forall|i: int| 0 <= i < r.len() ==> #[trigger] r[i].wf(),
{
    let ghost p = keep_enemy_pred(*g, *c);
    let ghost f = refresh_enemy_fn(*g, dt as int);
    let mut r: Vec<Unit> = Vec::new();
    let mut i: usize = 0;
    while i < cands.len()
        invariant
            g.wf(),
            c.wf(),
            forall|i: int| 0 <= i < cands.len() ==> #[trigger] cands[i].wf(),
            0 <= dt <= ELAPSED_LIMIT,
            p == keep_enemy_pred(*g, *c),
            f == refresh_enemy_fn(*g, dt as int),
            i <= cands.len(),
            r@ == cands@.take(i as int).filter(p).map_values(f),
            forall|j: int| 0 <= j < r.len() ==> #[trigger] r[j].wf(),
        decreases cands.len() - i,
    {
        let e = cands[i];
        assert(cands[i as int].wf());
        proof {
            lemma_take_push(cands@, i as int);
            cands@.take(i as int).lemma_filter_push(e, p);
            cands@.take(i as int).filter(p).lemma_push_map_commute(f, e);
        }
        let keep = !unit_id_visible_exec(g, e.id) && !covered_by_team_exec(g, &e.position, c);
        if keep {
            let n = refresh_enemy_exec(&e, g, dt);
            r.push(n);
        }
        i += 1;
    }
    assert(cands@.take(cands.len() as int) =~= cands@);
    r
}

/// Ages the remembered projectiles by `dt` and keeps those still worth
/// remembering.
fn remember_projectiles(old: &Vec<Projectile>, g: &Game, dt: i64) -> (r: Vec<Projectile>)
    requires
        g.wf(),
        forall|i: int| 0 <= i < old.len() ==> #[trigger] old[i].wf(),
        0 <= dt <= ELAPSED_LIMIT,
    ensures
        r@ == remembered_projectiles_spec(old@, *g, dt as int),
        forall|i: int| 0 <= i < r.len() ==> #[trigger] r[i].wf(),
{
    let ghost p = keep_projectile_pred(*g);
    let ghost f = decay_fn(dt as int);
    let mut r: Vec<Projectile> = Vec::new();
    let mut i: usize = 0;
    while i < old.len()
        invariant
            g.wf(),
            forall|i: int| 0 <= i < old.len() ==> #[trigger] old[i].wf(),
            0 <= dt <= ELAPSED_LIMIT,
            p == keep_projectile_pred(*g),
            f == decay_fn(dt as int),
            i <= old.len(),
            r@ == old@.take(i as int).map_values(f).filter(p),
            forall|j: int| 0 <= j < r.len() ==> #[trigger] r[j].wf(),
        decreases old.len() - i,
    {
        let q = old[i];
        assert(old[i as int].wf());
        let mut d = q;
        d.life_time = q.life_time - dt;
        proof {
            lemma_take_push(old@, i as int);
            old@.take(i as int).lemma_push_map_commute(f, q);
            assert(d == f(q));
            old@.take(i as int).map_values(f).lemma_filter_push(d, p);
        }
        if d.life_time > 0 && !projectile_id_visible_exec(g, d.id) {
            r.push(d);
        }
        i += 1;
    }
    assert(old@.take(old.len() as int) =~= old@);
    r
}

/// The projectiles of `ps` that are dangerous to some controlled unit.
fn dangerous_of(ps: &Vec<Projectile>, g: &Game, c: &Constants) -> (r: Vec<Projectile>)
    requires
        g.wf(),
        c.wf(),
        forall|i: int| 0 <= i < ps.len() ==> #[trigger] ps[i].wf(),
    ensures
        r@ == ps@.filter(dangerous_pred(*g, *c)),
        forall|i: int| 0 <= i < r.len() ==> #[trigger] r[i].wf(),
{
    let ghost p = dangerous_pred(*g, *c);
    let mut r: Vec<Projectile> = Vec::new();
    let mut i: usize = 0;
    while i < ps.len()
        invariant
            g.wf(),
            c.wf(),
            forall|i: int| 0 <= i < ps.len() ==> #[trigger] ps[i].wf(),
            p == dangerous_pred(*g, *c),
            i <= ps.len(),
            r@ == ps@.take(i as int).filter(p),
            forall|j: int| 0 <= j < r.len() ==> #[trigger] r[j].wf(),
        decreases ps.len() - i,
    {
        let q = ps[i];
        assert(ps[i as int].wf());
        proof {
            lemma_take_push(ps@, i as int);
            ps@.take(i as int).lemma_filter_push(q, p);
        }
        if dangerous_to_team_exec(&q, g, c) {
            r.push(q);
        }
        i += 1;
    }
    assert(ps@.take(ps.len() as int) =~= ps@);
    r
}

fn in_class_exec(k: SoundKind, class: SoundClass) -> (b: bool)
    ensures
        b == in_class(k, class),
{
    match class {
        SoundClass::Shot => matches!(k, SoundKind::Shot(_)),
        SoundClass::Hit => matches!(k, SoundKind::Hit(_)),
        SoundClass::Steps => matches!(k, SoundKind::Steps),
    }
}

/// Records of the shots heard in `g` that no visible enemy explains.
fn absorb_shots(g: &Game, c: &Constants) -> (r: Vec<ShotRecord>)
    requires
        g.wf(),
        c.wf(),
    ensures
        r@ == g.sounds@.filter(absorb_pred(*g, *c, SoundClass::Shot)).map_values(
            shot_record_fn(*g),
        ),
        forall|i: int| 0 <= i < r.len() ==> #[trigger] r[i].wf(),
{
    let ghost p = absorb_pred(*g, *c, SoundClass::Shot);
    let ghost f = shot_record_fn(*g);
    let mut r: Vec<ShotRecord> = Vec::new();
    let mut i: usize = 0;
    while i < g.sounds.len()
        invariant
            g.wf(),
            c.wf(),
            p == absorb_pred(*g, *c, SoundClass::Shot),
            f == shot_record_fn(*g),
            i <= g.sounds.len(),
            r@ == g.sounds@.take(i as int).filter(p).map_values(f),
            forall|j: int| 0 <= j < r.len() ==> #[trigger] r[j].wf(),
        decreases g.sounds.len() - i,
    {
        let s = g.sounds[i];
        assert(g.sounds[i as int].wf());
        proof {
            lemma_take_push(g.sounds@, i as int);
            g.sounds@.take(i as int).lemma_filter_push(s, p);
            g.sounds@.take(i as int).filter(p).lemma_push_map_commute(f, s);
        }
        if in_class_exec(s.kind, SoundClass::Shot) && !near_visible_enemy_exec(&s, g, c) {
            let listener = match find_unit_exec(&g.units, s.unit_id) {
                Some(u) => u.position,
                None => s.position,
            };
            r.push(ShotRecord { sound: s, listener, tick: g.current_tick });
        }
        i += 1;
    }
    assert(g.sounds@.take(g.sounds.len() as int) =~= g.sounds@);
    r
}

/// Records of the sounds of `class` heard in `g` that no visible enemy
/// explains.
fn absorb_sounds(g: &Game, c: &Constants, class: SoundClass) -> (r: Vec<SoundRecord>)
    requires
        g.wf(),
        c.wf(),
    ensures
        r@ == g.sounds@.filter(absorb_pred(*g, *c, class)).map_values(sound_record_fn(*g)),
        forall|i: int| 0 <= i < r.len() ==> #[trigger] r[i].wf(),
{
    let ghost p = absorb_pred(*g, *c, class);
    let ghost f = sound_record_fn(*g);
    let mut r: Vec<SoundRecord> = Vec::new();
    let mut i: usize = 0;
    while i < g.sounds.len()
        invariant
            g.wf(),
            c.wf(),
            p == absorb_pred(*g, *c, class),
            f == sound_record_fn(*g),
            i <= g.sounds.len(),
            r@ == g.sounds@.take(i as int).filter(p).map_values(f),
            forall|j: int| 0 <= j < r.len() ==> #[trigger] r[j].wf(),
        decreases g.sounds.len() - i,
    {
        let s = g.sounds[i];
        assert(g.sounds[i as int].wf());
        proof {
            lemma_take_push(g.sounds@, i as int);
            g.sounds@.take(i as int).lemma_filter_push(s, p);
            g.sounds@.take(i as int).filter(p).lemma_push_map_commute(f, s);
        }
        if in_class_exec(s.kind, class) && !near_visible_enemy_exec(&s, g, c) {
            r.push(SoundRecord { sound: s, tick: g.current_tick });
        }
        i += 1;
    }
    assert(g.sounds@.take(g.sounds.len() as int) =~= g.sounds@);
    r
}

fn recent_shots(v: &Vec<ShotRecord>, now: i64) -> (r: Vec<ShotRecord>)
    requires
        forall|i: int| 0 <= i < v.len() ==> #[trigger] v[i].wf(),
    ensures
        r@ == v@.filter(recent_shot_pred(now)),
        forall|i: int| 0 <= i < r.len() ==> #[trigger] r[i].wf(),
{
    let ghost p = recent_shot_pred(now);
    let mut r: Vec<ShotRecord> = Vec::new();
    let mut i: usize = 0;
    while i < v.len()
        invariant
            forall|i: int| 0 <= i < v.len() ==> #[trigger] v[i].wf(),
            p == recent_shot_pred(now),
            i <= v.len(),
            r@ == v@.take(i as int).filter(p),
            forall|j: int| 0 <= j < r.len() ==> #[trigger] r[j].wf(),
        decreases v.len() - i,
    {
        let x = v[i];
        assert(v[i as int].wf());
        proof {
            lemma_take_push(v@, i as int);
            v@.take(i as int).lemma_filter_push(x, p);
        }
        if (now as i128) - (x.tick as i128) < SOUND_MEMORY_TICKS as i128 {
            r.push(x);
        }
        i += 1;
    }
    assert(v@.take(v.len() as int) =~= v@);
    r
}

fn recent_sounds(v: &Vec<SoundRecord>, now: i64) -> (r: Vec<SoundRecord>)
    requires
        forall|i: int| 0 <= i < v.len() ==> #[trigger] v[i].wf(),
    ensures
        r@ == v@.filter(recent_sound_pred(now)),
        forall|i: int| 0 <= i < r.len() ==> #[trigger] r[i].wf(),
{
    let ghost p = recent_sound_pred(now);
    let mut r: Vec<SoundRecord> = Vec::new();
    let mut i: usize = 0;
    while i < v.len()
        invariant
            forall|i: int| 0 <= i < v.len() ==> #[trigger] v[i].wf(),
            p == recent_sound_pred(now),
            i <= v.len(),
            r@ == v@.take(i as int).filter(p),
            forall|j: int| 0 <= j < r.len() ==> #[trigger] r[j].wf(),
        decreases v.len() - i,
    {
        let x = v[i];
        assert(v[i as int].wf());
        proof {
            lemma_take_push(v@, i as int);
            v@.take(i as int).lemma_filter_push(x, p);
        }
        if (now as i128) - (x.tick as i128) < SOUND_MEMORY_TICKS as i128 {
            r.push(x);
        }
        i += 1;
    }
    assert(v@.take(v.len() as int) =~= v@);
    r
}

fn remember_loot(old: &Vec<Loot>, g: &Game, c: &Constants) -> (r: Vec<Loot>)
    requires
        g.wf(),
        c.wf(),
        forall|i: int| 0 <= i < old.len() ==> #[trigger] old[i].wf(),
    ensures
        r@ == old@.filter(keep_loot_pred(*g, *c)),
        forall|i: int| 0 <= i < r.len() ==> #[trigger] r[i].wf(),
{
    let ghost p = keep_loot_pred(*g, *c);
    let mut r: Vec<Loot> = Vec::new();
    let mut i: usize = 0;
    while i < old.len()
        invariant
            g.wf(),
            c.wf(),
            forall|i: int| 0 <= i < old.len() ==> #[trigger] old[i].wf(),
            p == keep_loot_pred(*g, *c),
            i <= old.len(),
            r@ == old@.take(i as int).filter(p),
            forall|j: int| 0 <= j < r.len() ==> #[trigger] r[j].wf(),
        decreases old.len() - i,
    {
        let l = old[i];
        assert(old[i as int].wf());
        proof {
            lemma_take_push(old@, i as int);
            old@.take(i as int).lemma_filter_push(l, p);
        }
        if !loot_id_visible_exec(g, l.id) && !covered_by_team_exec(g, &l.position, c) {
            r.push(l);
        }
        i += 1;
    }
    assert(old@.take(old.len() as int) =~= old@);
    r
}

// ---------------------------------------------------------------------------
// The store.

/// What the memory holds, as values.
pub struct MemoryView {
    pub last_tick: Option<i64>,
    pub current_tick: i64,
    pub my_id: i32,
    pub seeing_units: Seq<Unit>,
    pub old_enemies: Seq<Unit>,
    pub seeing_projectiles: Seq<Projectile>,
    pub dangerous_projectiles: Seq<Projectile>,
    pub old_projectiles: Seq<Projectile>,
    pub zone: Zone,
    pub shooting_sounds: Seq<ShotRecord>,
    pub hit_sounds: Seq<SoundRecord>,
    pub steps_sounds: Seq<SoundRecord>,
    pub loot: Seq<Loot>,
}

/// The memory after absorbing snapshot `g`.
///
/// - Enemies: the previous tick's visible units and the remembered enemies
///   are kept while not visible and not covered by a controlled unit's view
///   cone, then refreshed (`refresh_enemy`).
/// - Projectiles: remembered ones age by the time elapsed and are dropped
///   once spent or visible again; the visible ones are then remembered. The
///   dangerous ones are the visible and the remembered ones that threaten a
///   controlled unit.
/// - Sounds: a later tick's sounds join their class unless a visible enemy
///   explains them; records older than `SOUND_MEMORY_TICKS` are dropped.
/// - Loot: remembered loot is kept while not visible and not covered; the
///   visible loot is then remembered.
pub open spec fn next_view(m: MemoryView, g: Game, c: Constants) -> MemoryView {
    let dt = elapsed_ms(m.last_tick, g, c);
    let kept = remembered_projectiles_spec(m.old_projectiles, g, dt);
    let adv = advances(m.last_tick, g);
    MemoryView {
        last_tick: Some(g.current_tick),
        current_tick: g.current_tick,
        my_id: g.my_id,
        seeing_units: g.units@,
        old_enemies: remembered_enemies_spec(m.old_enemies + m.seeing_units, g, c, dt),
        seeing_projectiles: g.projectiles@,
        dangerous_projectiles: g.projectiles@.filter(dangerous_pred(g, c)) + kept.filter(
            dangerous_pred(g, c),
        ),
        old_projectiles: kept + g.projectiles@,
        zone: g.zone,
        shooting_sounds: (m.shooting_sounds + if adv {
            g.sounds@.filter(absorb_pred(g, c, SoundClass::Shot)).map_values(shot_record_fn(g))
        } else {
            Seq::empty()
        }).filter(recent_shot_pred(g.current_tick)),
        hit_sounds: (m.hit_sounds + if adv {
            g.sounds@.filter(absorb_pred(g, c, SoundClass::Hit)).map_values(sound_record_fn(g))
        } else {
            Seq::empty()
        }).filter(recent_sound_pred(g.current_tick)),
        steps_sounds: (m.steps_sounds + if adv {
            g.sounds@.filter(absorb_pred(g, c, SoundClass::Steps)).map_values(sound_record_fn(g))
        } else {
            Seq::empty()
        }).filter(recent_sound_pred(g.current_tick)),
        loot: m.loot.filter(keep_loot_pred(g, c)) + g.loot@,
    }
}

/// Perception memory of one team, and the influence fields computed over it.
pub struct PotentialField {
    pub last_tick: Option<i64>,
    pub current_tick: i64,
    pub my_id: i32,
    pub seeing_units: Vec<Unit>,
    pub old_enemies: Vec<Unit>,
    pub seeing_projectiles: Vec<Projectile>,
    pub dangerous_projectiles: Vec<Projectile>,
    pub old_projectiles: Vec<Projectile>,
    pub zone: Zone,
    pub shooting_sounds: Vec<ShotRecord>,
    pub hit_sounds: Vec<SoundRecord>,
    pub steps_sounds: Vec<SoundRecord>,
    pub loot: Vec<Loot>,
}

impl View for PotentialField {
    type V = MemoryView;

    open spec fn view(&self) -> MemoryView {
        MemoryView {
            last_tick: self.last_tick,
            current_tick: self.current_tick,
            my_id: self.my_id,
            seeing_units: self.seeing_units@,
            old_enemies: self.old_enemies@,
            seeing_projectiles: self.seeing_projectiles@,
            dangerous_projectiles: self.dangerous_projectiles@,
            old_projectiles: self.old_projectiles@,
            zone: self.zone,
            shooting_sounds: self.shooting_sounds@,
            hit_sounds: self.hit_sounds@,
            steps_sounds: self.steps_sounds@,
            loot: self.loot@,
        }
    }
}

/// No unit of `a` shares an id with a unit of `b`.
pub open spec fn ids_disjoint(a: Seq<Unit>, b: Seq<Unit>) -> bool {
    forall|i: int, j: int| 0 <= i < a.len() && 0 <= j < b.len() ==> #[trigger] a[i].id != #[trigger] b[j].id
}

impl MemoryView {
    /// Besides the bounds of every entry: the remembered enemies have
    /// distinct ids, none of which a unit in sight has.
    pub open spec fn wf(self) -> bool {
        &&& distinct_ids(self.old_enemies)
        &&& distinct_ids(self.seeing_units)
        &&& ids_disjoint(self.old_enemies, self.seeing_units)
        &&& 0 <= self.current_tick <= TICK_LIMIT
        &&& (self.last_tick matches Some(t) ==> 0 <= t <= TICK_LIMIT)
        &&& self.zone.wf()
        &&& forall|i: int|
            0 <= i < self.seeing_units.len() ==> #[trigger] self.seeing_units[i].wf()
        &&& forall|i: int| 0 <= i < self.old_enemies.len() ==> #[trigger] self.old_enemies[i].wf()
        &&& forall|i: int|
            0 <= i < self.seeing_projectiles.len() ==> #[trigger] self.seeing_projectiles[i].wf()
        &&& forall|i: int|
            0 <= i < self.dangerous_projectiles.len()
                ==> #[trigger] self.dangerous_projectiles[i].wf()
        &&& forall|i: int|
            0 <= i < self.old_projectiles.len() ==> #[trigger] self.old_projectiles[i].wf()
        &&& forall|i: int|
            0 <= i < self.shooting_sounds.len() ==> #[trigger] self.shooting_sounds[i].wf()
        &&& forall|i: int| 0 <= i < self.hit_sounds.len() ==> #[trigger] self.hit_sounds[i].wf()
        &&& forall|i: int|
            0 <= i < self.steps_sounds.len() ==> #[trigger] self.steps_sounds[i].wf()
        &&& forall|i: int| 0 <= i < self.loot.len() ==> #[trigger] self.loot[i].wf()
    }
}

fn elapsed_exec(last_tick: Option<i64>, g: &Game, c: &Constants) -> (r: i64)
    requires
        g.wf(),
        c.wf(),
        last_tick matches Some(t) ==> 0 <= t <= TICK_LIMIT,
    ensures
        r as int == elapsed_ms(last_tick, *g, *c),
        0 <= r <= ELAPSED_LIMIT,
{
    match last_tick {
        Some(t) => if g.current_tick > t {
            proof {
                vstd::arithmetic::div_mod::lemma_div_is_ordered_by_denominator(
                    (g.current_tick - t) * MILLIS,
                    1,
                    c.ticks_per_second as int,
                );
            }
            (g.current_tick - t) * MILLIS / c.ticks_per_second
        } else {
            0
        },
        None => 0,
    }
}

impl PotentialField {
    /// An empty memory.
    pub fn new(_constants: &Constants) -> (r: PotentialField)
        ensures
            r@.last_tick is None,
            r@.current_tick == 0,
            r@.seeing_units.len() == 0,
            r@.old_enemies.len() == 0,
            r@.seeing_projectiles.len() == 0,
            r@.dangerous_projectiles.len() == 0,
            r@.old_projectiles.len() == 0,
            r@.shooting_sounds.len() == 0,
            r@.hit_sounds.len() == 0,
            r@.steps_sounds.len() == 0,
            r@.loot.len() == 0,
            r@.wf(),
    {
        PotentialField {
            last_tick: None,
            current_tick: 0,
            my_id: 0,
            seeing_units: Vec::new(),
            old_enemies: Vec::new(),
            seeing_projectiles: Vec::new(),
            dangerous_projectiles: Vec::new(),
            old_projectiles: Vec::new(),
            zone: Zone::default(),
            shooting_sounds: Vec::new(),
            hit_sounds: Vec::new(),
            steps_sounds: Vec::new(),
            loot: Vec::new(),
        }
    }

    /// Absorbs the snapshot of a tick.
    pub fn update(&mut self, game: &Game, constants: &Constants)
        requires
            old(self)@.wf(),
            game.wf(),
            constants.wf(),
        ensures
            final(self)@ == next_view(old(self)@, *game, *constants),
            final(self)@.wf(),
    {
        let ghost m = self@;
        let g = game;
        let c = constants;
        let dt = elapsed_exec(self.last_tick, g, c);
        let adv = match self.last_tick {
            Some(t) => g.current_tick > t,
            None => true,
        };
        // enemies
        let mut cands = self.old_enemies.clone();
        let mut seen = self.seeing_units.clone();
        assert(cands@ =~= m.old_enemies);
        assert(seen@ =~= m.seeing_units);
        cands.append(&mut seen);
        self.old_enemies = remember_enemies(&cands, g, c, dt);
        self.seeing_units = g.units.clone();
        assert(self.seeing_units@ =~= g.units@);
        proof {
            lemma_remembered_ids(m, *g, *c, dt as int);
        }
        // projectiles
        let kept = remember_projectiles(&self.old_projectiles, g, dt);
        let mut dangerous = dangerous_of(&g.projectiles, g, c);
        let mut dangerous_kept = dangerous_of(&kept, g, c);
        dangerous.append(&mut dangerous_kept);
        self.dangerous_projectiles = dangerous;
        let mut visible = g.projectiles.clone();
        assert(visible@ =~= g.projectiles@);
        let mut kept = kept;
        kept.append(&mut visible);
        self.old_projectiles = kept;
        self.seeing_projectiles = g.projectiles.clone();
        assert(self.seeing_projectiles@ =~= g.projectiles@);
        self.zone = g.zone;
        // sounds
        if adv {
            let mut shots = absorb_shots(g, c);
            self.shooting_sounds.append(&mut shots);
            let mut hits = absorb_sounds(g, c, SoundClass::Hit);
            self.hit_sounds.append(&mut hits);
            let mut steps = absorb_sounds(g, c, SoundClass::Steps);
            self.steps_sounds.append(&mut steps);
        } else {
            assert(self.shooting_sounds@ + Seq::empty() =~= self.shooting_sounds@);
            assert(self.hit_sounds@ + Seq::empty() =~= self.hit_sounds@);
            assert(self.steps_sounds@ + Seq::empty() =~= self.steps_sounds@);
        }
        self.shooting_sounds = recent_shots(&self.shooting_sounds, g.current_tick);
        self.hit_sounds = recent_sounds(&self.hit_sounds, g.current_tick);
        self.steps_sounds = recent_sounds(&self.steps_sounds, g.current_tick);
        // loot
        let mut loot = remember_loot(&self.loot, g, c);
        let mut visible_loot = g.loot.clone();
        assert(visible_loot@ =~= g.loot@);
        loot.append(&mut visible_loot);
        self.loot = loot;
        self.current_tick = g.current_tick;
        self.my_id = g.my_id;
        self.last_tick = Some(g.current_tick);
    }
}

// ---------------------------------------------------------------------------
// Laws of the memory.

pub proof fn lemma_filter_idem<A>(s: Seq<A>, p: spec_fn(A) -> bool)
    ensures
        s.filter(p).filter(p) == s.filter(p),
{
    let f = s.filter(p);
    assert forall|i: int| 0 <= i < f.len() implies p(#[trigger] f[i]) by {
        s.lemma_filter_pred(p, i);
    }
    lemma_filter_all(f, p);
}

proof fn lemma_refresh_keeps_identity(e: Unit, g: Game, c: Constants, dt: int)
    ensures
        refresh_enemy(e, g, dt).id == e.id,
        refresh_enemy(e, g, dt).position == e.position,
        keep_enemy(refresh_enemy(e, g, dt), g, c) == keep_enemy(e, g, c),
{
}

proof fn lemma_refresh_idem(e: Unit, g: Game, dt: int)
    requires
        dt >= 0,
    ensures
        refresh_enemy(refresh_enemy(e, g, dt), g, 0) == refresh_enemy(e, g, dt),
{
    let r1 = refresh_enemy(e, g, dt);
    let r2 = refresh_enemy(r1, g, 0);
    assert(r2.ammo == r1.ammo);
    assert(r2.direction == r1.direction);
    assert(r2.remaining_spawn_time == r1.remaining_spawn_time);
}

/// An out-of-sight enemy is remembered exactly as long as no controlled
/// unit's view cone covers its last known position: every enemy the memory
/// keeps is invisible and uncovered, so one whose position is covered is
/// purged, and one whose position is not covered is kept.
pub proof fn law_remembered_enemy_eviction(m: MemoryView, g: Game, c: Constants, e: Unit)
    requires
        (m.old_enemies + m.seeing_units).contains(e),
        !unit_id_visible(g, e.id),
    ensures
        forall|i: int|
            0 <= i < next_view(m, g, c).old_enemies.len() ==> {
                let r = #[trigger] next_view(m, g, c).old_enemies[i];
                !unit_id_visible(g, r.id) && !covered_by_team(g, r.position, c)
            },
        covered_by_team(g, e.position, c) ==> forall|i: int|
            0 <= i < next_view(m, g, c).old_enemies.len()
                ==> #[trigger] next_view(m, g, c).old_enemies[i].position != e.position,
        !covered_by_team(g, e.position, c) ==> next_view(m, g, c).old_enemies.contains(
            refresh_enemy(e, g, elapsed_ms(m.last_tick, g, c)),
        ),
{
    let cands = m.old_enemies + m.seeing_units;
    let dt = elapsed_ms(m.last_tick, g, c);
    let p = keep_enemy_pred(g, c);
    let f = cands.filter(p);
    let out = next_view(m, g, c).old_enemies;
    assert(out == f.map_values(refresh_enemy_fn(g, dt)));
    assert forall|i: int| 0 <= i < out.len() implies {
        let r = #[trigger] out[i];
        !unit_id_visible(g, r.id) && !covered_by_team(g, r.position, c)
    } by {
        cands.lemma_filter_pred(p, i);
        lemma_refresh_keeps_identity(f[i], g, c, dt);
    }
    if !covered_by_team(g, e.position, c) {
        let k = choose|k: int| 0 <= k < cands.len() && cands[k] == e;
        cands.lemma_filter_contains(p, k);
        let j = choose|j: int| 0 <= j < f.len() && f[j] == e;
        assert(out[j] == refresh_enemy(e, g, dt));
    }
}

/// Absorbing the same snapshot twice in a row leaves the memory as the
/// first absorption left it: no age advances and no entry is added twice.
pub proof fn law_repeated_snapshot(m: MemoryView, g: Game, c: Constants)
    requires
        c.wf(),
    ensures
        next_view(next_view(m, g, c), g, c) == next_view(m, g, c),
{
    let m1 = next_view(m, g, c);
    let m2 = next_view(m1, g, c);
    let dt = elapsed_ms(m.last_tick, g, c);
    if let Some(t) = m.last_tick {
        if g.current_tick > t {
            vstd::arithmetic::div_mod::lemma_div_pos_is_pos(
                (g.current_tick - t) * MILLIS,
                c.ticks_per_second as int,
            );
        }
    }
    assert(dt >= 0);
    assert(elapsed_ms(m1.last_tick, g, c) == 0);
    assert(!advances(m1.last_tick, g));
    let gu = g.units@;
    let gp = g.projectiles@;
    let gl = g.loot@;

    // enemies
    let pe = keep_enemy_pred(g, c);
    let cands = m.old_enemies + m.seeing_units;
    let fe = cands.filter(pe);
    assert forall|i: int| 0 <= i < gu.len() implies !pe(#[trigger] gu[i]) by {
        assert(g.units[i] == gu[i]);
        assert(unit_id_visible(g, gu[i].id));
    }
    lemma_filter_none(gu, pe);
    assert forall|i: int| 0 <= i < m1.old_enemies.len() implies pe(#[trigger] m1.old_enemies[i]) by {
        cands.lemma_filter_pred(pe, i);
        lemma_refresh_keeps_identity(fe[i], g, c, dt);
    }
    lemma_filter_all(m1.old_enemies, pe);
    Seq::filter_distributes_over_add(m1.old_enemies, gu, pe);
    assert(m1.old_enemies + Seq::<Unit>::empty() =~= m1.old_enemies);
    assert forall|i: int| 0 <= i < m1.old_enemies.len() implies #[trigger] refresh_enemy(
        m1.old_enemies[i],
        g,
        0,
    ) == m1.old_enemies[i] by {
        lemma_refresh_idem(fe[i], g, dt);
    }
    assert(m2.old_enemies =~= m1.old_enemies);

    // projectiles
    let pk = keep_projectile_pred(g);
    let kept1 = remembered_projectiles_spec(m.old_projectiles, g, dt);
    let both = kept1 + gp;
    assert(both.map_values(decay_fn(0)) =~= both);
    assert forall|i: int| 0 <= i < kept1.len() implies pk(#[trigger] kept1[i]) by {
        m.old_projectiles.map_values(decay_fn(dt)).lemma_filter_pred(pk, i);
    }
    lemma_filter_all(kept1, pk);
    assert forall|i: int| 0 <= i < gp.len() implies !pk(#[trigger] gp[i]) by {
        assert(g.projectiles[i] == gp[i]);
        assert(projectile_id_visible(g, gp[i].id));
    }
    lemma_filter_none(gp, pk);
    Seq::filter_distributes_over_add(kept1, gp, pk);
    assert(kept1 + Seq::<Projectile>::empty() =~= kept1);
    assert(remembered_projectiles_spec(m1.old_projectiles, g, 0) == kept1);
    assert(m2.old_projectiles =~= m1.old_projectiles);
    assert(m2.dangerous_projectiles =~= m1.dangerous_projectiles);

    // sounds
    let rs = recent_shot_pred(g.current_tick);
    let rh = recent_sound_pred(g.current_tick);
    assert(m1.shooting_sounds + Seq::<ShotRecord>::empty() =~= m1.shooting_sounds);
    assert(m1.hit_sounds + Seq::<SoundRecord>::empty() =~= m1.hit_sounds);
    assert(m1.steps_sounds + Seq::<SoundRecord>::empty() =~= m1.steps_sounds);
    lemma_filter_idem(
        m.shooting_sounds + g.sounds@.filter(absorb_pred(g, c, SoundClass::Shot)).map_values(
            shot_record_fn(g),
        ),
        rs,
    );
    lemma_filter_idem(
        m.hit_sounds + g.sounds@.filter(absorb_pred(g, c, SoundClass::Hit)).map_values(
            sound_record_fn(g),
        ),
        rh,
    );
    lemma_filter_idem(
        m.steps_sounds + g.sounds@.filter(absorb_pred(g, c, SoundClass::Steps)).map_values(
            sound_record_fn(g),
        ),
        rh,
    );
    lemma_filter_idem(m.shooting_sounds, rs);
    lemma_filter_idem(m.hit_sounds, rh);
    lemma_filter_idem(m.steps_sounds, rh);
    assert(m2.shooting_sounds == m1.shooting_sounds);
    assert(m2.hit_sounds == m1.hit_sounds);
    assert(m2.steps_sounds == m1.steps_sounds);

    // loot
    let pl = keep_loot_pred(g, c);
    assert forall|i: int| 0 <= i < gl.len() implies !pl(#[trigger] gl[i]) by {
        assert(g.loot[i] == gl[i]);
        assert(loot_id_visible(g, gl[i].id));
    }
    lemma_filter_none(gl, pl);
    lemma_filter_idem(m.loot, pl);
    Seq::filter_distributes_over_add(m.loot.filter(pl), gl, pl);
    assert(m.loot.filter(pl) + Seq::<Loot>::empty() =~= m.loot.filter(pl));
    assert(m2.loot =~= m1.loot);
}

// ---------------------------------------------------------------------------
// Ids of remembered enemies.

proof fn lemma_concat_distinct(a: Seq<Unit>, b: Seq<Unit>)
    requires
        distinct_ids(a),
        distinct_ids(b),
        ids_disjoint(a, b),
    ensures
        distinct_ids(a + b),
{
    let s = a + b;
    assert forall|i: int, j: int|
        0 <= i < s.len() && 0 <= j < s.len() && i != j implies #[trigger] s[i].id != #[trigger] s[j].id by {
        if i < a.len() && j < a.len() {
            assert(a[i].id != a[j].id);
        } else if i >= a.len() && j >= a.len() {
            assert(b[i - a.len()].id != b[j - a.len()].id);
        } else if i < a.len() {
            assert(a[i].id != b[j - a.len()].id);
        } else {
            assert(a[j].id != b[i - a.len()].id);
        }
    }
}

proof fn lemma_filter_distinct(s: Seq<Unit>, p: spec_fn(Unit) -> bool)
    requires
        distinct_ids(s),
    ensures
        distinct_ids(s.filter(p)),
    decreases s.len(),
{
    if s.len() == 0 {
        reveal(Seq::filter);
        assert(s.filter(p) =~= s);
    } else {
        let r = s.drop_last();
        let x = s.last();
        assert forall|i: int, j: int|
            0 <= i < r.len() && 0 <= j < r.len() && i != j implies #[trigger] r[i].id != #[trigger] r[j].id by {
            assert(r[i] == s[i] && r[j] == s[j]);
        }
        lemma_filter_distinct(r, p);
        r.lemma_filter_push(x, p);
        assert(r.push(x) =~= s);
        if p(x) {
            let f = r.filter(p);
            let t = f.push(x);
            assert forall|k: int| 0 <= k < f.len() implies #[trigger] f[k].id != x.id by {
                assert(f.contains(f[k]));
                r.lemma_filter_contains_rev(p, f[k]);
                let m = choose|m: int| 0 <= m < r.len() && r[m] == f[k];
                assert(s[m] == r[m]);
                assert(s[s.len() - 1] == x);
                assert(s[m].id != s[s.len() - 1].id);
            }
            assert forall|i: int, j: int|
                0 <= i < t.len() && 0 <= j < t.len() && i != j implies #[trigger] t[i].id != #[trigger] t[j].id by {
                if i < f.len() && j < f.len() {
                    assert(t[i] == f[i] && t[j] == f[j]);
                } else if i < f.len() {
                    assert(t[i] == f[i]);
                } else if j < f.len() {
                    assert(t[j] == f[j]);
                }
            }
        }
    }
}

/// The enemies remembered after a snapshot have distinct ids, none of which
/// a unit of the snapshot has.
proof fn lemma_remembered_ids(m: MemoryView, g: Game, c: Constants, dt: int)
    requires
        distinct_ids(m.old_enemies),
        distinct_ids(m.seeing_units),
        ids_disjoint(m.old_enemies, m.seeing_units),
    ensures
        distinct_ids(remembered_enemies_spec(m.old_enemies + m.seeing_units, g, c, dt)),
        ids_disjoint(remembered_enemies_spec(m.old_enemies + m.seeing_units, g, c, dt), g.units@),
{
    let cands = m.old_enemies + m.seeing_units;
    let p = keep_enemy_pred(g, c);
    let f = cands.filter(p);
    let out = remembered_enemies_spec(cands, g, c, dt);
    lemma_concat_distinct(m.old_enemies, m.seeing_units);
    lemma_filter_distinct(cands, p);
    assert forall|i: int, j: int|
        0 <= i < out.len() && 0 <= j < out.len() && i != j implies #[trigger] out[i].id != #[trigger] out[j].id by {
        assert(f[i].id != f[j].id);
    }
    assert forall|i: int, j: int|
        0 <= i < out.len() && 0 <= j < g.units@.len() implies #[trigger] out[i].id != #[trigger] g.units@[j].id by {
        cands.lemma_filter_pred(p, i);
        if out[i].id == g.units@[j].id {
            assert(g.units[j] == g.units@[j]);
            assert(unit_id_visible(g, f[i].id));
        }
    }
}

/// An out-of-sight enemy whose last known position a controlled unit's view
/// cone covers is forgotten: no remembered enemy keeps its id.
pub proof fn law_remembered_enemy_evicted_by_id(m: MemoryView, g: Game, c: Constants, e: Unit)
    requires
        m.wf(),
        (m.old_enemies + m.seeing_units).contains(e),
        !unit_id_visible(g, e.id),
        covered_by_team(g, e.position, c),
    ensures
        forall|i: int|
            0 <= i < next_view(m, g, c).old_enemies.len() ==> #[trigger] next_view(
                m,
                g,
                c,
            ).old_enemies[i].id != e.id,
{
    let cands = m.old_enemies + m.seeing_units;
    let dt = elapsed_ms(m.last_tick, g, c);
    let p = keep_enemy_pred(g, c);
    let f = cands.filter(p);
    let out = next_view(m, g, c).old_enemies;
    lemma_concat_distinct(m.old_enemies, m.seeing_units);
    let k = choose|k: int| 0 <= k < cands.len() && cands[k] == e;
    assert forall|i: int| 0 <= i < out.len() implies #[trigger] out[i].id != e.id by {
        cands.lemma_filter_pred(p, i);
        lemma_refresh_keeps_identity(f[i], g, c, dt);
        if out[i].id == e.id {
            assert(f.contains(f[i]));
            cands.lemma_filter_contains_rev(p, f[i]);
            let j = choose|j: int| 0 <= j < cands.len() && cands[j] == f[i];
            assert(cands[j].id == cands[k].id);
            assert(j == k);
        }
    }
}

} // verus!
