use antbyte::ant::Ant;
use antbyte::ant::AntStatus;
use antbyte::error::ErrorKind;
use antbyte::linker::compile_world_simple;
use antbyte::peripherals::Peripheral;
use antbyte::vec2::Vec2u;
use antbyte::world::World;

fn world_of(code: &str) -> World {
    let properties = compile_world_simple(code).unwrap();
    World::new(properties).unwrap()
}

fn cache_matches_ants(world: &World) {
    let cells = world.cells();
    for y in 0..cells.height {
        for x in 0..cells.width {
            let pos = Vec2u { x, y };
            let standing = world
                .ants()
                .iter()
                .filter(|a| a.status != AntStatus::Dead && a.pos == pos)
                .count();
            assert!(standing <= 1);
            assert_eq!(world.is_occupied(&pos), standing == 1);
        }
    }
    assert!(world.ants().len() <= 256);
    for ant in world.ants() {
        assert!(ant.dir < 8);
        assert_eq!(ant.status, AntStatus::Alive);
    }
}

#[test]
fn self_replicating_worker_fills_the_column() {
    let mut world = world_of(
        "set width = 1; set height = 4; set border = collide; set start = top_left;
         ant main = 1 { A1 = -or(); }",
    );
    assert_eq!(world.ants().len(), 1);
    assert!(world.tick());
    assert_eq!(world.ants().len(), 2);
    cache_matches_ants(&world);
    assert!(world.tick());
    assert_eq!(world.ants().len(), 3);
    assert!(world.tick());
    assert_eq!(world.ants().len(), 4);
    assert!(world.tick());
    assert_eq!(world.ants().len(), 4);
    cache_matches_ants(&world);
    let rows: Vec<usize> = world.ants().iter().map(|a| a.pos.y).collect();
    assert_eq!(rows, vec![0, 1, 2, 3]);
    assert_eq!(world.tick_count(), 4);
}

#[test]
fn memory_echo_keeps_bit_zero() {
    let mut world = world_of(
        "set size = 4; set border = collide; set start = top_left;
         ant main = 1 { M0 = M0; }",
    );
    let mut odd = Ant::new(Vec2u { x: 2, y: 2 }, 0, 1);
    odd.status = AntStatus::Alive;
    odd.memory = 0b1111_0111;
    let mut even = Ant::new(Vec2u { x: 3, y: 3 }, 0, 1);
    even.status = AntStatus::Alive;
    even.memory = 0b1111_0110;
    world.spawn(odd);
    world.spawn(even);
    for _ in 0..3 {
        assert!(world.tick());
        let memories: Vec<u8> = world.ants().iter().map(|a| a.memory).collect();
        assert_eq!(memories, vec![0, 1, 0]);
    }
    cache_matches_ants(&world);
}

#[test]
fn despawn_kills_at_the_border_in_the_same_tick() {
    let mut world = world_of("set size = 3; set border = despawn; set start = top_left; ant main = 1 { }");
    assert!(!world.tick());
    assert_eq!(world.ants().len(), 0);
    assert!(!world.is_occupied(&Vec2u { x: 0, y: 0 }));
}

#[test]
fn collide_stays_at_the_border() {
    let mut world = world_of("set size = 3; set border = collide; set start = top_left; ant main = 1 { }");
    assert!(world.tick());
    assert_eq!(world.ants()[0].pos, Vec2u { x: 0, y: 0 });
    assert_eq!(world.ants()[0].age, 1);
}

#[test]
fn cycle_enters_on_the_other_side() {
    let mut world = world_of(
        "set width = 3; set height = 4; set border = cycle; set start = top_left; ant main = 1 { }",
    );
    assert!(world.tick());
    assert_eq!(world.ants()[0].pos, Vec2u { x: 0, y: 3 });
    assert!(world.tick());
    assert_eq!(world.ants()[0].pos, Vec2u { x: 0, y: 2 });
    cache_matches_ants(&world);
}

#[test]
fn wrap_enters_the_next_line() {
    let mut world = world_of(
        "set width = 3; set height = 2; set border = wrap; set start = top_left; ant main = 1 { }",
    );
    assert!(world.tick());
    assert_eq!(world.ants()[0].pos, Vec2u { x: 2, y: 1 });
    let mut east = world_of(
        "set width = 3; set height = 2; set border = wrap; set start = top_left;
         ant main = 1 { D1 = -or(T0, T1, T2); }",
    );
    assert!(east.tick());
    assert_eq!(east.ants()[0].dir, 2);
    assert_eq!(east.ants()[0].pos, Vec2u { x: 1, y: 0 });
    assert!(east.tick());
    assert_eq!(east.ants()[0].pos, Vec2u { x: 2, y: 0 });
    assert!(east.tick());
    assert_eq!(east.ants()[0].pos, Vec2u { x: 0, y: 1 });
}

#[test]
fn tick_limit_ends_the_run_after_that_many_ticks() {
    let mut world = world_of("set size = 3; set border = collide; set ticks = 5; ant main = 1 { }");
    assert_eq!(world.instant_run(), 5);
    assert_eq!(world.tick_count(), 5);
    let mut stepped =
        world_of("set size = 3; set border = collide; set ticks = 3; ant main = 1 { }");
    assert!(stepped.tick());
    assert!(stepped.tick());
    assert!(!stepped.tick());
    let mut framed =
        world_of("set size = 3; set border = collide; set speed = 4; set ticks = 9; ant main = 1 { }");
    assert!(framed.frame_tick());
    assert_eq!(framed.tick_count(), 4);
    assert!(framed.frame_tick());
    assert!(!framed.frame_tick());
    assert_eq!(framed.tick_count(), 9);
}

#[test]
fn cells_hold_the_colors_of_their_mode() {
    let mut rgbi = world_of(
        "set size = 2; set border = collide; set start = top_left; set colors = rgb;
         ant main = 1 { C0 = -or(); C2 = -or(); DX = -or(); }",
    );
    assert!(rgbi.tick());
    assert_eq!(rgbi.cells().values, vec![5, 0, 0, 0]);
    let mut binary = world_of(
        "set size = 2; set border = collide; set start = top_left; set colors = bin;
         ant main = 1 { C0 = -or(); DX = -or(); }",
    );
    assert!(binary.tick());
    assert_eq!(binary.cells().values, vec![15, 0, 0, 0]);
    // The output word is handed out from the last listed output up, so the
    // first of three outputs takes the bit of the third and the third that
    // of the first: the cell bit is `-T0` and the ant halts.
    let mut cleared = world_of(
        "set size = 2; set border = collide; set start = top_left;
         ant main = 1 { C1 = -or(); CC = T0; DX = -T0; }",
    );
    assert!(cleared.tick());
    assert_eq!(cleared.cells().values, vec![2, 0, 0, 0]);
    assert!(cleared.tick());
    assert_eq!(cleared.cells().values, vec![0, 0, 0, 0]);
}

#[test]
fn kill_and_die() {
    // Of three outputs the first takes the bit of the third: the ant halts
    // always, turns south in its first turn and kills where `CX` is set.
    let mut world = world_of(
        "set width = 1; set height = 3; set border = collide; set start = top_left;
         ant main = 1 { DX = CX; D2 = -T0; AK = -or(); }
         ant idle = 2 { DX = -or(); }",
    );
    let mut victim = Ant::new(Vec2u { x: 0, y: 1 }, 0, 2);
    victim.status = AntStatus::Alive;
    world.spawn(victim);
    assert_eq!(world.ants().len(), 2);
    assert!(world.tick());
    assert_eq!(world.ants().len(), 2);
    assert_eq!((world.ants()[0].dir, world.ants()[0].halted), (4, true));
    assert!(world.ants()[1].halted);
    cache_matches_ants(&world);
    assert!(world.tick());
    assert_eq!(world.ants().len(), 1);
    assert_eq!(world.ants()[0].behavior, 1);
    assert!(!world.is_occupied(&Vec2u { x: 0, y: 1 }));
    cache_matches_ants(&world);
    let mut dying = world_of("set size = 2; ant main = 1 { AX = -or(); }");
    assert!(!dying.tick());
    assert_eq!(dying.ants().len(), 0);
}

#[test]
fn world_needs_an_ant_with_id_one() {
    let properties = compile_world_simple("ant other = 2 { }").unwrap();
    assert_eq!(World::new(properties).err().unwrap().kind, ErrorKind::WorldNoEntry);
    let seeded = world_of("set seed = 7; set size = 5; ant main = 1 { D0 = R0; D1 = R1; }");
    assert_eq!(seeded.ants()[0].pos, Vec2u { x: 2, y: 2 });
}

#[test]
fn a_world_without_kill_die_and_despawn_loses_no_ant() {
    for border in ["collide", "wrap", "cycle"] {
        let code = format!(
            "set seed = 5; set size = 5; set border = {};
             ant main = 1 {{ D0 = R0; D1 = R1; D2 = R2; A1 = and(R3, R4); C0 = R5; M0 = R6; }}",
            border
        );
        let mut world = world_of(&code);
        let mut before = world.ants().len();
        for _ in 0..120 {
            assert!(world.tick());
            let now = world.ants().len();
            assert!(now >= before);
            assert!(now <= 25);
            before = now;
        }
        assert!(before > 1);
        cache_matches_ants(&world);
    }
}

#[test]
fn random_walk_keeps_the_world_in_order() {
    let mut world = world_of(
        "set seed = 11; set size = 6; set border = wrap;
         ant main = 1 { D0 = R0; D1 = R1; D2 = R2; A1 = and(R3, R4); C0 = R5; C3 = R6; AK = CX; }",
    );
    for _ in 0..200 {
        if !world.tick() {
            break;
        }
        cache_matches_ants(&world);
        for cell in &world.cells().values {
            assert!(*cell < 16);
        }
    }
}

#[test]
fn one_turn_and_the_cell_ahead() {
    let mut world = world_of(
        "set width = 3; set height = 2; set border = cycle; set start = top_left;
         ant main = 1 { D1 = -or(); M3 = -or(); }",
    );
    let ant = world.ants()[0];
    assert_eq!(world.next_pos(&ant), Some(Vec2u { x: 0, y: 1 }));
    world.ant_tick(0);
    let ant = world.ants()[0];
    assert_eq!((ant.dir, ant.memory, ant.age), (2, 8, 0));
    assert_eq!(ant.pos, Vec2u { x: 1, y: 0 });
    assert_eq!(world.tick_count(), 0);
    cache_matches_ants(&world);
    let walled = world_of("set size = 2; set border = collide; set start = top_left; ant main = 1 { }");
    assert_eq!(walled.next_pos(&walled.ants()[0]), None);
}

#[test]
fn pacing_can_be_set_on_a_world() {
    let mut world = world_of("set size = 3; set border = collide; ant main = 1 { }");
    world.set_ticks(Some(2));
    world.set_speed(Some(5));
    world.set_fps(None);
    world.set_looping(true);
    assert_eq!(world.config().ticks, Some(2));
    assert_eq!(world.config().speed, Some(5));
    assert_eq!(world.config().fps, None);
    assert!(world.config().looping);
    assert!(!world.frame_tick());
    assert_eq!(world.tick_count(), 2);
}

#[test]
fn a_turn_on_a_given_input_word() {
    // Inputs: `T0` is bit 0 of the input word, `T1` bit 1. Outputs are
    // listed as found, `[D1, C2, M0]`, and the output word is handed out
    // from the last listed up: `M0` takes bit 0 of the word (the value of
    // the statement for `D1`), `C2` bit 1 and `D1` bit 2.
    let code = "set width = 4; set height = 1; set border = cycle; set start = top_left;
         ant main = 1 { D1 = T0; C2 = T1; M0 = and(T0, T1); }";
    let mut world = world_of(code);
    assert_eq!(world.read_input(0, Peripheral::Time, 9), 0);
    assert_eq!(world.read_input(0, Peripheral::Random, 9), 9);
    assert_eq!(world.read_input(0, Peripheral::Direction, 9), 0);
    assert_eq!(world.read_input(0, Peripheral::Obstacle, 9), 1);
    assert_eq!(world.read_input(0, Peripheral::CellNext, 9), 0);
    world.apply_word(0, 0b00);
    let ant = world.ants()[0];
    assert_eq!((ant.dir, ant.memory, ant.pos), (0, 0, Vec2u { x: 0, y: 0 }));
    assert_eq!(world.cells().values, vec![0, 0, 0, 0]);
    world.apply_word(0, 0b01);
    let ant = world.ants()[0];
    assert_eq!((ant.dir, ant.memory, ant.pos), (0, 1, Vec2u { x: 0, y: 0 }));
    assert_eq!(world.cells().values, vec![0, 0, 0, 0]);
    world.apply_word(0, 0b10);
    let ant = world.ants()[0];
    assert_eq!((ant.dir, ant.memory, ant.pos), (0, 0, Vec2u { x: 0, y: 0 }));
    assert_eq!(world.cells().values, vec![4, 0, 0, 0]);
    world.apply_word(0, 0b11);
    let ant = world.ants()[0];
    assert_eq!((ant.dir, ant.memory, ant.pos), (2, 1, Vec2u { x: 1, y: 0 }));
    assert_eq!(world.cells().values, vec![4, 0, 0, 0]);
    assert_eq!(world.read_input(0, Peripheral::Cell, 0), 0);
    assert_eq!(world.read_input(0, Peripheral::Memory, 0), 1);
    assert_eq!(world.read_input(0, Peripheral::Obstacle, 0), 0);
    assert_eq!(world.read_input(0, Peripheral::Direction, 0), 2);
    cache_matches_ants(&world);
}

#[test]
fn properties_that_make_no_world() {
    let mut properties = compile_world_simple("ant main = 1 { }").unwrap();
    assert!(properties.is_valid());
    properties.config.width = 0;
    assert!(!properties.is_valid());
    properties.config.width = 5;
    properties.behaviors.pop();
    assert!(!properties.is_valid());
}

#[test]
fn a_worker_on_a_row_has_no_cell_behind_it() {
    // The first ant faces north; on a grid of one row the cell behind it
    // lies off the grid, so nothing is hatched and the ant cannot move.
    let mut world = world_of(
        "set width = 4; set height = 1; set border = collide; set start = top_left;
         ant main = 1 { A1 = -or(); }",
    );
    assert!(world.tick());
    assert!(world.tick());
    assert_eq!(world.ants().len(), 1);
    assert_eq!(world.ants()[0].pos, Vec2u { x: 0, y: 0 });
}

#[test]
fn the_step_and_the_color_by_themselves() {
    let mut world = world_of("set width = 2; set height = 2; set border = despawn; set colors = bin; ant main = 1 { }");
    assert_eq!(world.adjusted_color(0), 0);
    assert_eq!(world.adjusted_color(1), 15);
    assert_eq!(world.adjusted_color(9), 15);
    assert_eq!(world.ants()[0].pos, Vec2u { x: 1, y: 1 });
    world.move_tick(0);
    assert_eq!(world.ants()[0].pos, Vec2u { x: 1, y: 0 });
    assert!(world.is_occupied(&Vec2u { x: 1, y: 0 }));
    assert!(!world.is_occupied(&Vec2u { x: 1, y: 1 }));
    world.move_tick(0);
    assert_eq!(world.ants()[0].status, AntStatus::Dead);
    assert_eq!(world.ants()[0].pos, Vec2u { x: 1, y: 0 });
    assert!(!world.is_occupied(&Vec2u { x: 1, y: 0 }));
    let rgbi = world_of("set size = 2; ant main = 1 { }");
    assert_eq!(rgbi.adjusted_color(9), 9);
    let mut walled = world_of("set size = 2; set border = collide; set start = top_left; ant main = 1 { }");
    walled.move_tick(0);
    assert_eq!(walled.ants()[0].pos, Vec2u { x: 0, y: 0 });
    assert_eq!(walled.ants()[0].status, AntStatus::Alive);
}

#[test]
fn an_old_ant_ends_the_run() {
    let mut world = world_of("set size = 3; set border = collide; set speed = 3; ant main = 1 { DX = -or(); }");
    let mut old = Ant::new(Vec2u { x: 0, y: 0 }, 0, 1);
    old.status = AntStatus::Alive;
    old.age = u32::MAX - 1;
    world.spawn(old);
    assert_eq!(world.ants().len(), 2);
    assert!(world.can_tick_now());
    assert!(!world.frame_tick());
    assert_eq!(world.tick_count(), 1);
    assert_eq!(world.ants()[1].age, u32::MAX);
    assert!(!world.can_tick_now());
    assert_eq!(world.instant_run(), 0);
}
