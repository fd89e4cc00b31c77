use ai_cup_22::fields::{FightMode, VALUE_ONE};
use ai_cup_22::geometry::Vec2;
use ai_cup_22::memory::PotentialField;
use ai_cup_22::model::{
    Ammo, Constants, Game, Item, Loot, Obstacle, Projectile, Sound, SoundKind, Unit, WeaponKind,
    WeaponProps, WeaponTable, Zone,
};
use ai_cup_22::potential_fields::{EnemyField, ObstacleField, ZoneField};
use ai_cup_22::strategy::{
    best_candidate, combat_target, fight_mode, shoot_decision, ActionOrder, MyStrategy,
};

fn v(x: i64, y: i64) -> Vec2 {
    Vec2::new(x, y)
}

fn props(speed: i64, life: i64) -> WeaponProps {
    WeaponProps {
        projectile_speed: speed,
        projectile_life_time: life,
        aim_time: 100,
        max_inventory_ammo: 100,
    }
}

fn constants(unit_radius: i64) -> Constants {
    Constants {
        ticks_per_second: 30,
        unit_radius,
        view_distance: 60_000,
        field_of_view_cos: 5000,
        weapons: WeaponTable {
            wand: props(20_000, 1000),
            staff: props(10_000, 2000),
            bow: props(40_000, 1500),
        },
        max_shield_potions_in_inventory: 10,
        max_shield: 200,
        shield_per_potion: 50,
        max_unit_forward_speed: 10_000,
        spawn_movement_speed: 5_000,
        friendly_fire: false,
        initial_zone_radius: 300_000,
        obstacles: vec![],
    }
}

fn unit(id: i32, player_id: i32, position: Vec2) -> Unit {
    Unit {
        id,
        player_id,
        position,
        velocity: Vec2::zero(),
        direction: v(1000, 0),
        health: 100,
        shield: 0,
        weapon: None,
        ammo: Ammo { wand: 0, staff: 0, bow: 0 },
        shield_potions: 0,
        remaining_spawn_time: None,
    }
}

fn armed(mut u: Unit) -> Unit {
    u.weapon = Some(WeaponKind::Bow);
    u.ammo.bow = 10;
    u
}

fn big_zone() -> Zone {
    Zone {
        current_center: Vec2::zero(),
        current_radius: 300_000,
        next_center: Vec2::zero(),
        next_radius: 300_000,
    }
}

fn game(tick: i64, units: Vec<Unit>) -> Game {
    Game {
        my_id: 1,
        current_tick: tick,
        units,
        projectiles: vec![],
        loot: vec![],
        sounds: vec![],
        zone: big_zone(),
    }
}

fn potion(id: i32, position: Vec2) -> Loot {
    Loot { id, position, item: Item::ShieldPotions { amount: 1 } }
}

#[test]
fn lone_unarmed_enemy_is_shot_at() {
    let c = constants(1000);
    let me = armed(unit(1, 1, v(0, 0)));
    let enemy = unit(2, 2, v(50_000, 0));
    let g = game(1, vec![me, enemy]);
    let mut s = MyStrategy::new(c);
    let order = s.get_order(&g);
    assert_eq!(order.unit_orders.len(), 1);
    let (id, o) = order.unit_orders[0];
    assert_eq!(id, 1);
    assert_eq!(o.action, Some(ActionOrder::Aim { shoot: true }));
    assert_eq!(o.target_direction, v(1000, 0));
    let enemies = vec![enemy];
    assert_eq!(combat_target(&enemies, &me, &g, &s.constants), Some(enemy));
}

#[test]
fn out_of_range_enemy_is_not_shot_at() {
    let c = constants(1000);
    let mut me = armed(unit(1, 1, v(0, 0)));
    me.weapon = Some(WeaponKind::Wand);
    me.ammo.wand = 5;
    let enemy = unit(2, 2, v(50_000, 0));
    let g = game(1, vec![me, enemy]);
    let mut s = MyStrategy::new(c);
    let order = s.get_order(&g);
    let (_, o) = order.unit_orders[0];
    assert_eq!(o.action, None);
}

#[test]
fn unit_near_closing_zone_moves_inward() {
    let c = constants(1000);
    let me = unit(1, 1, v(90_000, 0));
    let mut g = game(1, vec![me]);
    g.zone = Zone {
        current_center: Vec2::zero(),
        current_radius: 100_000,
        next_center: Vec2::zero(),
        next_radius: 50_000,
    };
    let mut s = MyStrategy::new(c);
    let order = s.get_order(&g);
    let outside = s.pp.value_outside(&v(90_000, 0), &s.constants);
    assert!(outside <= -(VALUE_ONE as i128));
    assert_eq!(outside, -2500);
    assert!(s.pp.is_in_danger(&me, &s.constants));
    let (_, o) = order.unit_orders[0];
    assert!(o.target_velocity.x < 0);
    let cands = s.pp.candidates(&me, &s.constants);
    let best = best_candidate(&s.pp, &cands, &me, FightMode::RunWithNoWeapons, false, &s.constants)
        .unwrap();
    assert!(best.x < 90_000);
    assert_eq!(best, v(89_000, 0));
}

#[test]
fn dangerous_projectile_outweighs_loot() {
    let c = constants(1000);
    let me = unit(1, 1, v(0, 0));
    let mut g = game(1, vec![me]);
    g.projectiles = vec![Projectile {
        id: 7,
        weapon: WeaponKind::Bow,
        shooter_id: 9,
        shooter_player_id: 2,
        position: v(-10_000, 0),
        velocity: v(20_000, 0),
        life_time: 1000,
    }];
    g.loot = vec![potion(20, v(1000, 0)), potion(21, v(1100, 100)), potion(22, v(900, -100))];
    let mut pp = PotentialField::new(&c);
    pp.update(&g, &c);
    assert_eq!(pp.dangerous_projectiles.len(), 1);
    assert!(pp.is_in_danger(&me, &c));
    let cands = pp.candidates(&me, &c);
    assert_eq!(cands.len(), 8);
    let best = best_candidate(&pp, &cands, &me, FightMode::RunWithNoWeapons, false, &c).unwrap();
    let best_proj = pp.value_projectiles(&best, &c);
    let max_proj = cands.iter().map(|p| pp.value_projectiles(p, &c)).max().unwrap();
    assert_eq!(best_proj, max_proj);
    let loot_best = cands.iter().max_by_key(|p| pp.value_loot(p, &me, &c)).unwrap();
    assert_eq!(*loot_best, v(1000, 0));
    assert_ne!(best, *loot_best);
    assert_eq!(best, v(0, 1000));
    assert_eq!(best_proj, -775);
}

#[test]
fn shot_blocked_by_obstacle_is_not_fired() {
    let mut c = constants(1000);
    c.obstacles = vec![Obstacle {
        id: 1,
        position: v(25_000, 0),
        radius: 2000,
        can_see_through: false,
        can_shoot_through: false,
    }];
    let me = armed(unit(1, 1, v(0, 0)));
    let enemy = unit(2, 2, v(50_000, 0));
    let g = game(1, vec![me, enemy]);
    let r = shoot_decision(&me, &enemy, &g, &c);
    assert_ne!(r, Some(true));
    assert_eq!(r, Some(false));
    let clear = constants(1000);
    assert_eq!(shoot_decision(&me, &enemy, &g, &clear), Some(true));
}

#[test]
fn shot_through_ally_is_ruled_out() {
    let c = constants(1000);
    let me = armed(unit(1, 1, v(0, 0)));
    let ally = unit(3, 1, v(20_000, 0));
    let enemy = unit(2, 2, v(50_000, 0));
    let g = game(1, vec![me, ally, enemy]);
    assert_eq!(shoot_decision(&me, &enemy, &g, &c), None);
}

#[test]
fn obstacle_field_minimum_inside() {
    let mut c = constants(1000);
    c.obstacles = vec![Obstacle {
        id: 1,
        position: v(5000, 0),
        radius: 1000,
        can_see_through: true,
        can_shoot_through: true,
    }];
    let f = ObstacleField::new(&c);
    assert_eq!(f.value(&v(5500, 0)), -VALUE_ONE);
    assert_eq!(f.value(&v(6900, 0)), -VALUE_ONE);
    assert_eq!(f.value(&v(7001, 0)), 0);
    let me = unit(1, 1, v(2900, 0));
    let g = game(1, vec![me]);
    let mut pp = PotentialField::new(&c);
    pp.update(&g, &c);
    let cands = pp.candidates(&me, &c);
    assert!(!cands.contains(&v(3900, 0)));
    assert!(cands.contains(&v(1900, 0)));
    assert_eq!(cands.len(), 5);
    assert!(pp.im_inside_obstacle(&unit(1, 1, v(3900, 0)), &c));
    assert!(pp.im_inside_obstacle(&unit(1, 1, v(3000, 0)), &c));
    assert!(!pp.im_inside_obstacle(&me, &c));
}

#[test]
fn candidates_skip_crowded_points() {
    let c = constants(1000);
    let me = unit(1, 1, v(0, 0));
    let other = unit(5, 2, v(2500, 0));
    let g = game(1, vec![me, other]);
    let mut pp = PotentialField::new(&c);
    pp.update(&g, &c);
    let cands = pp.candidates(&me, &c);
    assert!(!cands.contains(&v(1000, 0)));
    assert!(cands.contains(&v(-1000, 0)));
    assert_eq!(pp.points_around(1, &c), cands);
}

#[test]
fn enemy_forgotten_only_once_seen_to_be_gone() {
    let c = constants(1000);
    let me = unit(1, 1, v(0, 0));
    let enemy = unit(2, 2, v(10_000, 0));
    let mut pp = PotentialField::new(&c);
    pp.update(&game(1, vec![me, enemy]), &c);
    assert_eq!(pp.old_enemies.len(), 0);
    let mut turned = me;
    turned.direction = v(-1000, 0);
    pp.update(&game(2, vec![turned]), &c);
    assert_eq!(pp.old_enemies.len(), 1);
    assert_eq!(pp.old_enemies[0].id, 2);
    assert_eq!(pp.old_enemies[0].weapon, Some(WeaponKind::Bow));
    assert_eq!(pp.old_enemies[0].ammo.bow, 25);
    assert_eq!(pp.old_enemies[0].direction, v(-1000, 0));
    pp.update(&game(3, vec![turned]), &c);
    assert_eq!(pp.old_enemies.len(), 1);
    pp.update(&game(4, vec![me]), &c);
    assert_eq!(pp.old_enemies.len(), 0);
}

#[test]
fn remembered_enemy_spawn_countdown() {
    let c = constants(1000);
    let mut me = unit(1, 1, v(0, 0));
    me.direction = v(-1000, 0);
    let mut enemy = unit(2, 2, v(10_000, 0));
    enemy.remaining_spawn_time = Some(50);
    let mut pp = PotentialField::new(&c);
    pp.update(&game(1, vec![me, enemy]), &c);
    pp.update(&game(2, vec![me]), &c);
    assert_eq!(pp.old_enemies[0].remaining_spawn_time, Some(17));
    pp.update(&game(3, vec![me]), &c);
    assert_eq!(pp.old_enemies[0].remaining_spawn_time, None);
}

#[test]
fn repeated_snapshot_changes_nothing() {
    let c = constants(1000);
    let mut me = unit(1, 1, v(0, 0));
    me.direction = v(-1000, 0);
    let mut enemy = unit(2, 2, v(10_000, 0));
    enemy.remaining_spawn_time = Some(500);
    let mut pp = PotentialField::new(&c);
    pp.update(&game(1, vec![me, enemy]), &c);
    let mut g = game(2, vec![me]);
    g.projectiles = vec![Projectile {
        id: 7,
        weapon: WeaponKind::Bow,
        shooter_id: 9,
        shooter_player_id: 2,
        position: v(-10_000, 0),
        velocity: v(20_000, 0),
        life_time: 1000,
    }];
    g.sounds = vec![Sound {
        kind: SoundKind::Steps,
        offset: 0,
        unit_id: 1,
        position: v(-20_000, 0),
    }];
    g.loot = vec![potion(20, v(30_000, 30_000))];
    pp.update(&g, &c);
    let enemies = pp.old_enemies.clone();
    let projectiles = pp.old_projectiles.clone();
    let dangerous = pp.dangerous_projectiles.clone();
    let steps = pp.steps_sounds.clone();
    let loot = pp.loot.clone();
    pp.update(&g, &c);
    assert_eq!(pp.old_enemies, enemies);
    assert_eq!(pp.old_projectiles, projectiles);
    assert_eq!(pp.dangerous_projectiles, dangerous);
    assert_eq!(pp.steps_sounds, steps);
    assert_eq!(pp.loot, loot);
    assert_eq!(pp.steps_sounds.len(), 1);
    assert_eq!(pp.loot.len(), 1);
    assert_eq!(pp.old_enemies[0].remaining_spawn_time, Some(467));
}

#[test]
fn remembered_projectile_ages_and_expires() {
    let c = constants(1000);
    let me = unit(1, 1, v(0, 0));
    let mut g = game(1, vec![me]);
    g.projectiles = vec![Projectile {
        id: 7,
        weapon: WeaponKind::Bow,
        shooter_id: 9,
        shooter_player_id: 2,
        position: v(-10_000, 0),
        velocity: v(20_000, 0),
        life_time: 40,
    }];
    let mut pp = PotentialField::new(&c);
    pp.update(&g, &c);
    assert_eq!(pp.old_projectiles.len(), 1);
    pp.update(&game(2, vec![me]), &c);
    assert_eq!(pp.old_projectiles.len(), 1);
    assert_eq!(pp.old_projectiles[0].life_time, 7);
    // what is left of its path no longer reaches the unit
    assert_eq!(pp.dangerous_projectiles.len(), 0);
    pp.update(&game(3, vec![me]), &c);
    assert_eq!(pp.old_projectiles.len(), 0);
}

#[test]
fn sounds_age_out_of_memory() {
    let c = constants(1000);
    let me = unit(1, 1, v(0, 0));
    let mut g = game(1, vec![me]);
    g.sounds = vec![
        Sound { kind: SoundKind::Shot(WeaponKind::Bow), offset: 0, unit_id: 1, position: v(5000, 5000) },
        Sound { kind: SoundKind::Hit(WeaponKind::Wand), offset: 0, unit_id: 1, position: v(-5000, 0) },
        Sound { kind: SoundKind::Other, offset: 0, unit_id: 1, position: v(0, 5000) },
    ];
    let mut pp = PotentialField::new(&c);
    pp.update(&g, &c);
    assert_eq!(pp.shooting_sounds.len(), 1);
    assert_eq!(pp.shooting_sounds[0].listener, v(0, 0));
    assert_eq!(pp.hit_sounds.len(), 1);
    assert_eq!(pp.steps_sounds.len(), 0);
    assert_eq!(pp.sounds().len(), 2);
    pp.update(&game(50, vec![me]), &c);
    assert_eq!(pp.shooting_sounds.len(), 1);
    pp.update(&game(51, vec![me]), &c);
    assert_eq!(pp.shooting_sounds.len(), 0);
    assert_eq!(pp.hit_sounds.len(), 0);
}

#[test]
fn sound_next_to_visible_enemy_is_ignored() {
    let c = constants(1000);
    let me = unit(1, 1, v(0, 0));
    let enemy = unit(2, 2, v(5000, 5000));
    let mut g = game(1, vec![me, enemy]);
    g.sounds = vec![Sound {
        kind: SoundKind::Shot(WeaponKind::Bow),
        offset: 500,
        unit_id: 1,
        position: v(5500, 5800),
    }];
    let mut pp = PotentialField::new(&c);
    pp.update(&g, &c);
    assert_eq!(pp.shooting_sounds.len(), 0);
}

#[test]
fn picked_up_loot_is_forgotten() {
    let c = constants(1000);
    let me = unit(1, 1, v(0, 0));
    let mut g = game(1, vec![me]);
    g.loot = vec![potion(20, v(10_000, 0))];
    let mut pp = PotentialField::new(&c);
    pp.update(&g, &c);
    assert_eq!(pp.loot.len(), 1);
    let mut turned = me;
    turned.direction = v(-1000, 0);
    pp.update(&game(2, vec![turned]), &c);
    assert_eq!(pp.loot.len(), 1);
    pp.update(&game(3, vec![me]), &c);
    assert_eq!(pp.loot.len(), 0);
}

#[test]
fn pickup_then_potion_then_nothing() {
    let c = constants(1000);
    let me = unit(1, 1, v(0, 0));
    let mut g = game(1, vec![me]);
    g.loot = vec![potion(20, v(500, 0))];
    let mut s = MyStrategy::new(c.clone());
    let (_, o) = s.get_order(&g).unit_orders[0];
    assert_eq!(o.action, Some(ActionOrder::Pickup { loot: 20 }));

    let mut drinker = me;
    drinker.shield_potions = 2;
    let mut s = MyStrategy::new(c.clone());
    let (_, o) = s.get_order(&game(1, vec![drinker])).unit_orders[0];
    assert_eq!(o.action, Some(ActionOrder::UseShieldPotion));

    let mut full = drinker;
    full.shield = 200;
    let mut s = MyStrategy::new(c);
    let (_, o) = s.get_order(&game(1, vec![full])).unit_orders[0];
    assert_eq!(o.action, None);
    s.debug_update(1);
    s.finish();
    assert_eq!(s.pp.current_tick, 1);
}

#[test]
fn fight_modes() {
    let me = armed(unit(1, 1, v(0, 0)));
    let g = game(1, vec![me]);
    let weak = unit(2, 2, v(10_000, 0));
    let mut strong = weak;
    strong.health = 150;
    assert_eq!(fight_mode(&g, &vec![weak], &me), FightMode::Attack);
    assert_eq!(fight_mode(&g, &vec![strong], &me), FightMode::Defend);
    let unarmed = unit(1, 1, v(0, 0));
    assert_eq!(fight_mode(&g, &vec![weak], &unarmed), FightMode::RunWithNoWeapons);
}

#[test]
fn combat_target_prefers_clear_line() {
    let mut c = constants(1000);
    c.obstacles = vec![Obstacle {
        id: 1,
        position: v(10_000, 0),
        radius: 3000,
        can_see_through: false,
        can_shoot_through: false,
    }];
    let me = armed(unit(1, 1, v(0, 0)));
    let near_hidden = unit(2, 2, v(20_000, 0));
    let far_clear = unit(3, 2, v(0, 30_000));
    let g = game(1, vec![me, near_hidden, far_clear]);
    let enemies = vec![near_hidden, far_clear];
    assert_eq!(combat_target(&enemies, &me, &g, &c), Some(far_clear));
    let only_hidden = vec![near_hidden];
    assert_eq!(combat_target(&only_hidden, &me, &g, &c), Some(near_hidden));
    let unarmed = unit(1, 1, v(0, 0));
    assert_eq!(combat_target(&enemies, &unarmed, &g, &c), None);
}

#[test]
fn spawning_enemy_is_not_a_target() {
    let c = constants(1000);
    let me = armed(unit(1, 1, v(0, 0)));
    let mut spawning = unit(2, 2, v(20_000, 0));
    spawning.remaining_spawn_time = Some(5000);
    let g = game(1, vec![me, spawning]);
    assert_eq!(combat_target(&vec![spawning], &me, &g, &c), None);
}

#[test]
fn loot_usefulness_rules() {
    let c = constants(1000);
    let bare = unit(1, 1, v(0, 0));
    let bow = Loot { id: 1, position: v(0, 0), item: Item::Weapon { kind: WeaponKind::Bow } };
    let staff = Loot { id: 2, position: v(0, 0), item: Item::Weapon { kind: WeaponKind::Staff } };
    let staff_ammo = Loot {
        id: 3,
        position: v(0, 0),
        item: Item::Ammo { weapon: WeaponKind::Staff, amount: 5 },
    };
    let bow_ammo = Loot {
        id: 4,
        position: v(0, 0),
        item: Item::Ammo { weapon: WeaponKind::Bow, amount: 5 },
    };
    assert!(bow.is_useful_to_me(&bare, &c));
    assert!(staff.is_useful_to_me(&bare, &c));
    let archer = armed(unit(1, 1, v(0, 0)));
    assert!(!bow.is_useful_to_me(&archer, &c));
    assert!(!staff.is_useful_to_me(&archer, &c));
    assert!(bow_ammo.is_useful_to_me(&archer, &c));
    assert!(!staff_ammo.is_useful_to_me(&archer, &c));
    let mut wizard = unit(1, 1, v(0, 0));
    wizard.weapon = Some(WeaponKind::Wand);
    wizard.ammo.wand = 3;
    assert!(bow.is_useful_to_me(&wizard, &c));
    assert!(!staff.is_useful_to_me(&wizard, &c));
    assert!(!staff_ammo.is_useful_to_me(&wizard, &c));
    let mut full = archer;
    full.ammo.bow = 100;
    assert!(!bow_ammo.is_useful_to_me(&full, &c));
    let mut potions = bare;
    potions.shield_potions = 10;
    assert!(!potion(5, v(0, 0)).is_useful_to_me(&potions, &c));
    assert!(potion(5, v(0, 0)).is_useful_to_me(&bare, &c));
}

#[test]
fn projectile_danger_respects_friendly_fire() {
    let mut c = constants(1000);
    let me = unit(1, 1, v(0, 0));
    let p = Projectile {
        id: 7,
        weapon: WeaponKind::Wand,
        shooter_id: 3,
        shooter_player_id: 1,
        position: v(-10_000, 2500),
        velocity: v(20_000, 0),
        life_time: 1000,
    };
    assert!(!p.is_dangerous(&me, &c));
    c.friendly_fire = true;
    assert!(p.is_dangerous(&me, &c));
    let mut wide = p;
    wide.position = v(-10_000, 3000);
    assert!(!wide.is_dangerous(&me, &c));
    assert_eq!(p.moving_vec(), v(20_000, 0));
    assert_eq!(p.range(), 20_000);
    assert_eq!(p.as_line().end, v(10_000, 2500));
}

#[test]
fn weapon_and_sound_ranges() {
    let c = constants(1000);
    assert_eq!(c.weapons.bow.range(), 60_000);
    let shot = Sound { kind: SoundKind::Shot(WeaponKind::Staff), offset: 0, unit_id: 1, position: v(0, 0) };
    assert_eq!(shot.get_weapon_shooting_range(&c), Some(20_000));
    let steps = Sound { kind: SoundKind::Steps, offset: 0, unit_id: 1, position: v(0, 0) };
    assert_eq!(steps.get_weapon_shooting_range(&c), None);
    let me = armed(unit(1, 1, v(0, 0)));
    assert_eq!(me.range(&c), Some(60_000));
    assert_eq!(unit(1, 1, v(0, 0)).range(&c), None);
}

#[test]
fn view_cone() {
    let c = constants(1000);
    let me = unit(1, 1, v(0, 0));
    assert!(me.is_in_fov(&v(10_000, 0), &c));
    assert!(me.is_in_fov(&v(10_000, 17_000), &c));
    assert!(!me.is_in_fov(&v(10_000, 18_000), &c));
    assert!(!me.is_in_fov(&v(-10_000, 0), &c));
    assert!(!me.is_in_fov(&v(61_000, 0), &c));
}

#[test]
fn enemy_field_values() {
    let mut e = armed(unit(2, 2, v(0, 0)));
    e.ammo.bow = 5;
    let f = EnemyField { enemies: vec![e] };
    assert_eq!(f.value(&v(10_000, 500)), -960);
    let bare = unit(3, 2, v(0, 0));
    let f = EnemyField { enemies: vec![bare] };
    assert_eq!(f.value(&v(0, 100_000)), 0);
    assert_eq!(EnemyField::empty().value(&v(0, 0)), 0);
    let g = game(1, vec![unit(1, 1, v(0, 0)), e, bare]);
    assert_eq!(EnemyField::new(&g).enemies, vec![e, bare]);
}

#[test]
fn zone_field_values() {
    let c = constants(1000);
    let mut f = ZoneField::new(&c);
    assert_eq!(f.zone.current_radius, 300_000);
    let mut g = game(1, vec![]);
    g.zone = Zone {
        current_center: Vec2::zero(),
        current_radius: 100_000,
        next_center: Vec2::zero(),
        next_radius: 50_000,
    };
    f.update(&g);
    assert_eq!(f.value(&v(60_000, 0)), -6000);
    assert_eq!(f.value(&v(30_000, 0)), -300);
}

#[test]
fn memory_zone_and_ally_fields() {
    let c = constants(1000);
    let me = unit(1, 1, v(0, 0));
    let ally = unit(3, 1, v(2000, 0));
    let mut g = game(1, vec![me, ally]);
    g.zone = Zone {
        current_center: Vec2::zero(),
        current_radius: 100_000,
        next_center: Vec2::zero(),
        next_radius: 50_000,
    };
    let mut pp = PotentialField::new(&c);
    pp.update(&g, &c);
    assert_eq!(pp.value_zone(&v(23_000, 0), &c), 500);
    assert_eq!(pp.value_zone(&v(92_000, 0), &c), -1000);
    assert_eq!(pp.value_outside(&v(50_000, 0), &c), 0);
    assert_eq!(pp.value_allies(&v(0, 0), &me, &c), -334);
    assert!(!pp.im_outside(&me, &c));
    assert!(pp.im_outside(&unit(1, 1, v(97_000, 0)), &c));
}
