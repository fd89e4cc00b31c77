use ai_cup_22::geometry::{Vec2, Vec2i};
use ai_cup_22::model::{
    Ammo, Constants, Game, Item, Loot, Projectile, Sound, SoundKind, Unit, WeaponKind,
    WeaponProps, WeaponTable, Zone,
};
use ai_cup_22::potential_fields::{
    DontStayField, LootField, PotentialFields, ProjectilesField, ShootingSoundsField,
};

fn v(x: i64, y: i64) -> Vec2 {
    Vec2::new(x, y)
}

fn props(speed: i64, life: i64) -> WeaponProps {
    WeaponProps { projectile_speed: speed, projectile_life_time: life, aim_time: 100, max_inventory_ammo: 100 }
}

fn constants() -> Constants {
    Constants {
        ticks_per_second: 30,
        unit_radius: 1000,
        view_distance: 60_000,
        field_of_view_cos: 5000,
        weapons: WeaponTable {
            wand: props(20_000, 1000),
            staff: props(10_000, 2000),
            bow: props(40_000, 1500),
        },
        max_shield_potions_in_inventory: 10,
        max_shield: 200,
        shield_per_potion: 50,
        max_unit_forward_speed: 10_000,
        spawn_movement_speed: 5_000,
        friendly_fire: false,
        initial_zone_radius: 300_000,
        obstacles: vec![],
    }
}

fn unit(id: i32, player_id: i32, position: Vec2) -> Unit {
    Unit {
        id,
        player_id,
        position,
        velocity: Vec2::zero(),
        direction: v(1000, 0),
        health: 100,
        shield: 0,
        weapon: None,
        ammo: Ammo { wand: 0, staff: 0, bow: 0 },
        shield_potions: 0,
        remaining_spawn_time: None,
    }
}

fn game(tick: i64, units: Vec<Unit>) -> Game {
    Game {
        my_id: 1,
        current_tick: tick,
        units,
        projectiles: vec![],
        loot: vec![],
        sounds: vec![],
        zone: Zone {
            current_center: Vec2::zero(),
            current_radius: 300_000,
            next_center: Vec2::zero(),
            next_radius: 300_000,
        },
    }
}

#[test]
fn grid_conversions() {
    assert_eq!(Vec2::from_grid(Vec2i::new(3, -4)), v(3000, -4000));
    assert_eq!(Vec2i::from_point(v(1500, -2500)), Vec2i::new(2, -3));
    assert_eq!(Vec2i::from_point(v(1499, -1499)), Vec2i::new(1, -1));
    assert_eq!(v(3000, 4000).lengthened(5000), v(6000, 8000));
    assert_eq!(Vec2::zero().lengthened(5000), Vec2::zero());
    let z = Zone::default();
    assert_eq!(z.current_radius, 0);
    assert_eq!(z.next_center, Vec2::zero());
}

#[test]
fn loot_field_bands() {
    let c = constants();
    let mut f = LootField::new(&c);
    let mut g = game(1, vec![unit(1, 1, v(0, 0))]);
    g.loot = vec![
        Loot { id: 1, position: v(1000, 0), item: Item::ShieldPotions { amount: 1 } },
        Loot { id: 2, position: v(1800, 0), item: Item::ShieldPotions { amount: 1 } },
        Loot { id: 3, position: v(0, 500), item: Item::Weapon { kind: WeaponKind::Wand } },
        Loot { id: 4, position: v(0, 100_000), item: Item::Weapon { kind: WeaponKind::Bow } },
    ];
    f.update(&g);
    assert_eq!(f.loot.len(), 3);
    assert_eq!(f.me.id, 1);
    assert_eq!(f.value(&v(0, 0)), 1750);
}

#[test]
fn loot_field_skips_worse_weapons() {
    let c = constants();
    let mut f = LootField::new(&c);
    let mut me = unit(1, 1, v(0, 0));
    me.weapon = Some(WeaponKind::Bow);
    me.ammo.bow = 10;
    me.ammo.staff = 20;
    let mut g = game(1, vec![me]);
    g.loot = vec![Loot { id: 1, position: v(0, 0), item: Item::Weapon { kind: WeaponKind::Staff } }];
    f.update(&g);
    assert_eq!(f.value(&v(0, 0)), 0);
}

#[test]
fn shooting_sounds_field_fades() {
    let c = constants();
    let mut f = ShootingSoundsField::new(&c);
    let mut g = game(10, vec![unit(1, 1, v(0, 0))]);
    g.sounds = vec![Sound {
        kind: SoundKind::Shot(WeaponKind::Bow),
        offset: 0,
        unit_id: 1,
        position: v(0, 5000),
    }];
    f.update(&g);
    assert_eq!(f.sounds.len(), 1);
    assert_eq!(f.value(&v(0, 2500)), -1000);
    f.update(&game(35, vec![unit(1, 1, v(0, 0))]));
    assert_eq!(f.value(&v(0, 2500)), -500);
    f.update(&game(60, vec![unit(1, 1, v(0, 0))]));
    assert_eq!(f.sounds.len(), 0);
    assert_eq!(f.value(&v(0, 2500)), 0);
}

#[test]
fn projectiles_field_penalizes_path() {
    let c = constants();
    let mut f = ProjectilesField::new(&c);
    let mut g = game(1, vec![unit(1, 1, v(0, 0))]);
    let shot = Projectile {
        id: 7,
        weapon: WeaponKind::Wand,
        shooter_id: 9,
        shooter_player_id: 2,
        position: v(-10_000, 0),
        velocity: v(20_000, 0),
        life_time: 1000,
    };
    let mut own = shot;
    own.id = 8;
    own.shooter_player_id = 1;
    g.projectiles = vec![shot, own];
    f.update(&g);
    assert_eq!(f.projectiles, vec![shot]);
    assert_eq!(f.value(&v(0, 2000)), -600);
    assert_eq!(f.value(&v(0, 6000)), 0);
}

#[test]
fn dont_stay_field_keeps_ten_positions() {
    let mut f = DontStayField::new();
    for t in 0..12 {
        f.update(&game(t, vec![unit(1, 1, v(0, 0))]));
    }
    assert_eq!(f.last_positions.len(), 10);
    assert_eq!(f.value(&v(0, 0)), -1000);
    assert_eq!(f.value(&v(5000, 0)), -500);
}

#[test]
fn combined_fields() {
    let c = constants();
    let mut f = PotentialFields::new(&c);
    f.calculate(&game(1, vec![unit(1, 1, v(0, 0))]), &c);
    assert_eq!(f.value(Vec2i::new(30, 0), true), -9);
    assert_eq!(f.value(Vec2i::new(30, 0), false), -11);
    assert_eq!(f.value(Vec2i::new(0, 0), true), 0);
}
