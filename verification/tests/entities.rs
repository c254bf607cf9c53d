//! Entities, perception, hazards, weapons, ids, the camera and inputs.

use roguecore::bloc::Lava;
use roguecore::camera::Camera;
use roguecore::entity::EntityTrait;
use roguecore::geometry::{Circle, Pos2D, Rect, Rot, SCALE};
use roguecore::id::IdManager;
use roguecore::input::Input;
use roguecore::map::{GameMap, Tile};
use roguecore::monster::{Brain, Monster, MonsterManager, MonsterType, TestBot};
use roguecore::player::Player;
use roguecore::weapon::{ObjectDrop, Weapon, WeaponInventory, WeaponTrait, generate_drop};

fn fixed_brain(iq: i32) -> Brain {
    Brain {
        iq,
        close_vision_circle: Circle::new(Pos2D { x: 0, y: 0 }, 0),
        large_vision_circle: Circle::new(Pos2D { x: 0, y: 0 }, 0),
        vision_cone: (0, 0),
        see_something: false,
        wandering_path: Vec::new(),
    }
}

#[test]
fn id_manager_counts_up_from_one() {
    let mut ids = IdManager::new();
    assert_eq!(ids.get_new_id(), 1);
    assert_eq!(ids.get_new_id(), 2);
    assert_eq!(ids.get_new_id(), 3);
}

#[test]
fn perceive_close_target_regardless_of_facing() {
    let mut brain = fixed_brain(100);
    let observer = Pos2D { x: 0i64, y: 0i64 };
    // Facing far away from the target.
    brain.update(observer, 180000);
    // A target at distance IQ - 1 straight behind the facing.
    let target = Pos2D { x: 99i64, y: 0i64 };
    assert!(brain.can_see(observer, target, 0));
    assert!(brain.see_something);
}

#[test]
fn perceive_far_target_never() {
    let mut brain = fixed_brain(100);
    let observer = Pos2D { x: 0i64, y: 0i64 };
    // Facing straight at the target.
    brain.update(observer, 0);
    // A target at distance 3 * IQ + 1, dead ahead.
    let target = Pos2D { x: 301i64, y: 0i64 };
    assert!(!brain.can_see(observer, target, 0));
    assert!(!brain.see_something);
}

#[test]
fn perceive_ring_target_depends_on_cone() {
    let mut brain = fixed_brain(100);
    let observer = Pos2D { x: 0i64, y: 0i64 };
    brain.update(observer, 0);
    // A target in the ring between the circles, dead ahead: inside the
    // cone around angle zero.
    let ahead = Pos2D { x: 200i64, y: 0i64 };
    assert!(brain.can_see(observer, ahead, 0));
    // The same distance straight behind: outside the cone.
    let behind = Pos2D { x: -200i64, y: 0i64 };
    assert!(!brain.can_see(observer, behind, 180000));
}

#[test]
fn lava_damages_on_cooldown() {
    let tile = Tile::new(0, 0, 10, 18, true, Rot::zero());
    let mut lava = Lava::new(1, tile);
    let mut bot = Monster::TestBot(TestBot::new(0, 0, 4, 4, 7, fixed_brain(80)));
    // First overlap at t = 0: 5 damage.
    lava.damage(&mut bot, 0);
    let Monster::TestBot(tb) = &bot;
    assert_eq!(tb.hp, 95);
    // Still overlapping at t = 200, inside the window: no extra damage.
    lava.damage(&mut bot, 200);
    let Monster::TestBot(tb) = &bot;
    assert_eq!(tb.hp, 95);
    // At t = 600 the window expired: another 5 damage.
    lava.damage(&mut bot, 600);
    let Monster::TestBot(tb) = &bot;
    assert_eq!(tb.hp, 90);
}

#[test]
fn bloc_effects_damage_entity_standing_in_lava() {
    let mut map = GameMap::new(10);
    map.map_file_content = vec![vec![18]];
    map.ghost_tiles = vec![-1, 9, 10, 18, 19, 20, 21];
    let mut ids = IdManager::new();
    map.crate_tilemap(&mut ids);
    assert_eq!(map.bloc_list.len(), 1);
    let mut bot = Monster::TestBot(TestBot::new(2, 2, 4, 4, 7, fixed_brain(80)));
    map.bloc_effects(&mut bot, 0);
    let Monster::TestBot(tb) = &bot;
    assert_eq!(tb.hp, 95);
    map.bloc_effects(&mut bot, 100);
    let Monster::TestBot(tb) = &bot;
    assert_eq!(tb.hp, 95);
    map.bloc_effects(&mut bot, 900);
    let Monster::TestBot(tb) = &bot;
    assert_eq!(tb.hp, 90);
}

#[test]
fn weapon_cooldown_check_and_set() {
    let mut ids = IdManager::new();
    let mut w = Weapon::Pistol(roguecore::weapon::Pistol::new(&mut ids));
    // A fresh pistol (last shot at time 0) cannot fire inside its delay.
    assert!(!w.can_shoot(100));
    // Once the delay passed, it fires and records the shot.
    assert!(w.can_shoot(300));
    // Immediately after, the cooldown blocks the next shot.
    assert!(!w.can_shoot(350));
    assert!(w.can_shoot(600));
    assert_eq!(w.get_damage(), 6);
    assert_eq!(w.get_range(), 500);
}

#[test]
fn unarmed_slot_never_fires() {
    let mut w = Weapon::Unarmed;
    assert!(!w.can_shoot(1000000));
    assert_eq!(w.get_damage(), 0);
    assert_eq!(w.get_range(), 0);
}

#[test]
fn fresh_inventory_starts_with_knife() {
    let mut ids = IdManager::new();
    let inv = WeaponInventory::new(&mut ids);
    assert_eq!(inv.weapon_list.len(), 10);
    assert_eq!(inv.selected_index, 0);
    assert!(matches!(inv.weapon_list[0], Weapon::Knife(_)));
    assert!(matches!(inv.weapon_list[9], Weapon::Unarmed));
    assert!(inv.index_is_weapon());
}

#[test]
fn drops_are_weapons_or_nothing() {
    let mut ids = IdManager::new();
    for _ in 0..50 {
        match generate_drop(&mut ids) {
            ObjectDrop::Dropped(w) => assert!(!matches!(w, Weapon::Unarmed)),
            ObjectDrop::Nothing => {},
        }
    }
}

#[test]
fn monster_manager_spawn_damage_death() {
    let mut ids = IdManager::new();
    let mut mm = MonsterManager::new();
    mm.new_bot(10, 10, 8, 8, MonsterType::TestBot, &mut ids);
    assert_eq!(mm.monster_list.len(), 1);
    let Monster::TestBot(tb) = &mm.monster_list[0];
    assert_eq!(tb.hp, 100);
    // Non-lethal damage keeps the monster.
    mm.damage_monster_isdead(0, 40, &mut ids);
    assert_eq!(mm.monster_list.len(), 1);
    // Lethal damage removes it.
    mm.damage_monster_isdead(0, 60, &mut ids);
    assert_eq!(mm.monster_list.len(), 0);
}

#[test]
fn player_moves_with_input_intents() {
    let mut ids = IdManager::new();
    let mut mm = MonsterManager::new();
    let mut p = Player::new(100, 100, 10, 10, &mut ids);
    p.inputs.right = true;
    let blocs: Vec<roguecore::bloc::Bloc> = Vec::new();
    // One second straight right at speed 400.
    p.update_movements(&blocs, 1000, &mut ids, &mut mm, 0);
    assert_eq!(p.hitbox.x, 500);
    assert_eq!(p.hitbox.y, 100);
}

#[test]
fn player_damage_and_death_report() {
    let mut ids = IdManager::new();
    let mut p = Player::new(0, 0, 10, 10, &mut ids);
    assert!(!p.take_damages(40));
    assert_eq!(p.hp, 60);
    assert!(p.take_damages(60));
    assert_eq!(p.hp, 0);
}

#[test]
fn entity_views_agree_with_fields() {
    let mut ids = IdManager::new();
    let p = Player::new(5, 6, 7, 8, &mut ids);
    assert_eq!(p.get_hitbox(), Rect { x: 5, y: 6, w: 7, h: 8 });
    assert!(!p.ray_cast_bypass());
    assert_eq!(p.id(), p.id);
    let poly = p.rotated_hitbox();
    assert_eq!(poly.len(), 5);
    assert_eq!((poly[0].x, poly[0].y), (5, 6));
}

#[test]
fn camera_focus_follows_clamp_formula() {
    let mut cam = Camera::new(800, 600);
    cam.set_focus((100, 100), (800, 600), (100, 100), 32);
    // Centering on the target gives 300; the origin clamp takes 0; the
    // far-edge clamp (map cells minus view, times negated tile size)
    // dominates at (100 - 800) * -32.
    assert_eq!(cam.camera.x, 22400);
    assert_eq!(cam.camera.y, 16000);
    assert_eq!(cam.scroll.x, -22400);
    assert_eq!(cam.scroll.y, -16000);
    assert_eq!(cam.camera.w, 800);
    assert_eq!(cam.camera.h, 600);
}

#[test]
fn input_starts_empty() {
    let i = Input::new();
    assert!(!i.up && !i.down && !i.left && !i.right);
    assert!(!i.mouse_left && !i.mouse_right);
    assert_eq!((i.pointing.x, i.pointing.y), (0, 0));
}

#[test]
fn player_aims_at_pointed_position() {
    let mut ids = IdManager::new();
    let mut p = Player::new(100, 100, 10, 10, &mut ids);
    // Pointing straight right of the on-screen player center.
    p.inputs.pointing = Pos2D { x: 500, y: 105 };
    let blocs: Vec<roguecore::bloc::Bloc> = Vec::new();
    let monsters: Vec<Monster> = Vec::new();
    p.update_los(Pos2D { x: 0, y: 0 }, &blocs, &monsters);
    assert_eq!(p.los.rot.c, SCALE);
    assert_eq!(p.los.rot.s, 0);
    // Nothing blocks the ray, so the endpoint is the unclipped reach.
    assert!(matches!(p.los.result, roguecore::raycast::RayCastResult::Fail));
    assert_eq!(p.los.end_point.y, 105);
    assert!(p.los.end_point.x > 500);
}

#[test]
fn pistol_shot_damages_recorded_monster() {
    let mut ids = IdManager::new();
    let mut p = Player::new(0, 0, 10, 10, &mut ids);
    p.inventory.weapon_list[0] = Weapon::Pistol(roguecore::weapon::Pistol::new(&mut ids));
    let mut mm = MonsterManager::new();
    mm.new_bot(100, 0, 10, 10, MonsterType::TestBot, &mut ids);
    // The recorded line of sight ended on monster 0.
    p.los.result = roguecore::raycast::RayCastResult::Hit(
        (Pos2D { x: 5, y: 5 }, Pos2D { x: 100, y: 5 }),
        roguecore::raycast::RayCastBlocType::Bot(0),
        9025,
    );
    let dropped = p.shoot(&mut ids, &mut mm, 1000);
    let Monster::TestBot(tb) = &mm.monster_list[0];
    assert_eq!(tb.hp, 94);
    // The shot time was recorded in the same call: an immediate second
    // pull stays on cooldown.
    match p.inventory.weapon_list[0] {
        Weapon::Pistol(pi) => assert_eq!(pi.last_shot_time, 1000),
        _ => panic!("the pistol must stay in its slot"),
    }
    let _ = dropped;
    let again = p.shoot(&mut ids, &mut mm, 1050);
    assert!(matches!(again, ObjectDrop::Nothing));
    let Monster::TestBot(tb) = &mm.monster_list[0];
    assert_eq!(tb.hp, 94);
}

#[test]
fn facing_rot_tracks_aim() {
    // A bot that saw the player snaps its facing unit vector toward it.
    let mut bot = TestBot::new(0, 0, 10, 10, 1, fixed_brain(100));
    bot.brain.see_something = true;
    bot.update(Pos2D { x: 105i64, y: 5i64 }, 0);
    assert_eq!(bot.los.rot.c, SCALE);
    assert_eq!(bot.los.rot.s, 0);
    assert_eq!(bot.los.angle_mdeg, 0);
}
