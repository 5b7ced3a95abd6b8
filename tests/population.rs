use myco::grid::{Point};
use myco::instruction::Instruction;
use myco::organism::{OrganismCollection, OrganismContext};
use myco::state::OrganismState;
use myco::world::{Config, World};
use rand::rngs::StdRng;
use rand::SeedableRng;

fn world() -> World {
    World::init(10, 10, 1234, 0).unwrap()
}

fn origin() -> Point {
    Point { x: 0, y: 0 }
}

fn snapshot(w: &World) -> (Vec<Vec<(Point, u8)>>, Vec<(u64, u8, Option<u8>, Option<u8>, Point, bool, u8, u8)>) {
    let orgs = w
        .organisms()
        .iter()
        .into_iter()
        .map(|c: &OrganismContext| {
            (c.id(), c.delay_cycles, c.child_potential, c.life_potential, c.organism.ip, c.organism.flag, c.organism.ax, c.organism.bx)
        })
        .collect();
    (w.grid().view_all(), orgs)
}

#[test]
fn nop_loop() {
    let mut w = world();
    w.spawn(origin()).unwrap();
    for _ in 0..100 {
        w.cycle();
    }
    let all = w.organisms().iter();
    assert_eq!(all.len(), 1);
    let c = all[0];
    assert_eq!(c.organism.ip, Point { x: 0, y: 0 });
    assert_eq!(c.organism.ax, 0);
    assert_eq!(c.organism.bx, 0);
    assert!(!c.organism.flag);
    assert_eq!(w.total_cycles(), 100);
}

#[test]
fn explicit_halt() {
    let mut w = world();
    w.write_line(origin(), &vec![Instruction::IncA, Instruction::IncA, Instruction::Halt]);
    let before = w.grid().view_all();
    let id = w.spawn(origin()).unwrap();
    w.cycle();
    w.cycle();
    assert_eq!(w.organisms().get(id).unwrap().organism.ax, 2);
    w.cycle();
    assert_eq!(w.organisms().len(), 0);
    w.cycle();
    assert_eq!(w.organisms().len(), 0);
    assert_eq!(w.grid().view_all(), before);
}

#[test]
fn flag_fork_cap() {
    let mut w = world();
    w.set_max_children(Some(1));
    let mut config = Config::new(1234);
    config.max_organisms = Some(10);
    w.set_config(config);
    w.write_line(origin(), &vec![Instruction::FlagFork]);
    let parent = w.spawn(origin()).unwrap();
    w.cycle();
    w.cycle();
    assert_eq!(w.organisms().len(), 2);
    let p = w.organisms().get(parent).unwrap();
    assert_eq!(p.child_potential, Some(0));
    assert!(!p.organism.flag);
    let child = w.organisms().iter().into_iter().find(|c| c.id() != parent).unwrap();
    assert!(child.organism.flag);
    assert_eq!(child.child_potential, Some(1));
    // Ten cycles later both are back on the fork: only the child may still fork.
    for _ in 0..10 {
        w.cycle();
    }
    assert_eq!(w.organisms().len(), 3);
    assert_eq!(w.organisms().get(parent).unwrap().child_potential, Some(0));
}

#[test]
fn population_cap_culling() {
    let run = || {
        let mut w = world();
        let mut config = Config::new(1234);
        config.max_organisms = Some(3);
        w.set_config(config);
        w.write_line(origin(), &vec![Instruction::FlagFork]);
        for _ in 0..5 {
            w.spawn(origin()).unwrap();
        }
        w.cycle();
        let mut ids: Vec<u64> = w.organisms().iter().into_iter().map(|c| c.id()).collect();
        ids.sort();
        ids
    };
    let first = run();
    assert_eq!(first.len(), 3);
    assert_eq!(first, run());
}

#[test]
fn cap_holds_every_cycle() {
    let mut w = world();
    let mut config = Config::new(1234);
    config.max_organisms = Some(4);
    w.set_config(config);
    w.write_line(origin(), &vec![Instruction::FlagFork, Instruction::CursorFork]);
    w.spawn(origin()).unwrap();
    for _ in 0..50 {
        w.cycle();
        assert!(w.organisms().len() <= 4);
    }
}

#[test]
fn dedup_merges_identical() {
    let mut w = world();
    let a = w.spawn(origin()).unwrap();
    let b = w.spawn(origin()).unwrap();
    w.spawn(Point { x: 3, y: 3 }).unwrap();
    assert_ne!(a, b);
    w.dedup();
    assert_eq!(w.organisms().len(), 2);
    assert!(w.organisms().alive(a));
    assert!(!w.organisms().alive(b));
}

#[test]
fn dedup_twice_is_dedup_once() {
    let mut w = world();
    for &p in &[origin(), origin(), Point { x: 1, y: 0 }, origin(), Point { x: 1, y: 0 }] {
        w.spawn(p).unwrap();
    }
    w.dedup();
    let once = snapshot(&w);
    w.dedup();
    assert_eq!(snapshot(&w), once);
    assert_eq!(once.1.len(), 2);
}

#[test]
fn delay_skips_exactly_n_cycles() {
    let mut w = world();
    let id = w.spawn(origin()).unwrap();
    w.run_instructions(id, &vec![Instruction::IncA, Instruction::IncA, Instruction::IncA]);
    w.write_line(origin(), &vec![Instruction::WaitA]);
    w.cycle();
    let c = w.organisms().get(id).unwrap();
    assert_eq!(c.delay_cycles, 3);
    assert_eq!(c.organism.ip, Point { x: 1, y: 0 });
    for left in (0..3u8).rev() {
        w.cycle();
        let c = w.organisms().get(id).unwrap();
        assert_eq!(c.delay_cycles, left);
        assert_eq!(c.organism.ip, Point { x: 1, y: 0 });
    }
    w.cycle();
    assert_eq!(w.organisms().get(id).unwrap().organism.ip, Point { x: 2, y: 0 });
}

#[test]
fn ids_are_never_reused() {
    let mut w = world();
    let a = w.spawn(origin()).unwrap();
    let b = w.spawn(origin()).unwrap();
    w.kill(b);
    let c = w.spawn(origin()).unwrap();
    assert!(c > b && b > a);
    let mut ids: Vec<u64> = w.organisms().iter().into_iter().map(|c| c.id()).collect();
    ids.dedup();
    assert_eq!(ids.len(), 2);
}

#[test]
fn lifetime_expires() {
    let mut w = world();
    w.set_lifetime(Some(2));
    let id = w.spawn(origin()).unwrap();
    w.cycle();
    w.cycle();
    assert!(w.organisms().alive(id));
    w.cycle();
    assert!(!w.organisms().alive(id));
}

#[test]
fn same_seed_same_run() {
    let run = || {
        let mut w = World::init(12, 9, 99, 50).unwrap();
        w.set_wall_pierce_chance(3);
        let mut config = Config::new(99);
        config.max_organisms = Some(6);
        config.cosmic_ray_rate = 2;
        config.dedup_rate = 5;
        w.set_config(config);
        w.write_line(origin(), &vec![Instruction::FlagFork, Instruction::CursorFork, Instruction::IncA, Instruction::CursorDTimesA, Instruction::Paste]);
        w.spawn(origin()).unwrap();
        let mut states = Vec::new();
        for _ in 0..40 {
            w.cycle();
            states.push(snapshot(&w));
        }
        states
    };
    assert_eq!(run(), run());
}

#[test]
fn collection_basics() {
    let mut c = OrganismCollection::new(StdRng::seed_from_u64(2));
    assert_eq!(c.len(), 0);
    assert_eq!(c.max_children(), Some(4));
    assert_eq!(c.lifetime(), Some(100));
    let a = c.insert(OrganismState::init(origin())).unwrap();
    let b = c.insert(OrganismState::init(Point { x: 1, y: 1 })).unwrap();
    assert_eq!((a, b), (0, 1));
    assert!(c.alive(a));
    assert_eq!(c.get(b).unwrap().organism.ip, Point { x: 1, y: 1 });
    assert!(c.get_opt(None).is_none());
    c.remove(a);
    assert!(!c.alive(a));
    assert!(c.get(a).is_none());
    assert_eq!(c.get_opt(Some(b)).unwrap().id(), b);
    assert_eq!(c.len(), 1);
}

#[test]
fn move_ip_and_absolute() {
    let mut w = world();
    let id = w.spawn(origin()).unwrap();
    w.move_ip(id, myco::grid::Dir::L, 3);
    assert_eq!(w.organisms().get(id).unwrap().organism.ip, Point { x: 7, y: 0 });
    assert_eq!(w.absolute(Point { x: 8, y: 9 }, Point { x: 5, y: 3 }), Point { x: 3, y: 2 });
}

#[test]
fn world_rejects_empty_sizes() {
    assert!(matches!(World::init(0, 3, 1, 0), Err(myco::world::Error::BadWidth)));
    assert!(matches!(World::init(3, 0, 1, 0), Err(myco::world::Error::BadHeight)));
    assert_eq!(myco::world::Error::BadWidth.description(), "Width cannot be 0.");
    assert_eq!(myco::world::Error::BadHeight.description(), "Height cannot be 0.");
    let w = world();
    assert_eq!(w.config().rng_seed, 1234);
    assert!(w.grid().view_all().iter().flatten().all(|(_, b)| *b == Instruction::Nop.to_byte()));
}

#[test]
fn pacing_banks_leftover_time() {
    assert_eq!(myco::world::pace(0, 100), (0, 0));
    assert_eq!(myco::world::pace(100, 100), (0, 100));
    assert_eq!(myco::world::pace(101, 100), (1, 1));
    assert_eq!(myco::world::pace(350, 100), (3, 50));
    assert_eq!(myco::world::pace(16, 1), (15, 1));
}

#[test]
fn category_indices_follow_cells() {
    let mut w = World::init(3, 2, 5, 0).unwrap();
    w.set_byte(Point { x: 2, y: 1 }, Instruction::Wall.to_byte());
    w.set_byte(Point { x: 0, y: 0 }, Instruction::IncA.to_byte());
    assert_eq!(w.category_indices(), vec![2, 0, 0, 0, 0, 1]);
}

#[test]
fn step_respects_allowances() {
    let mut g = myco::grid::Grid::init(10, 10, StdRng::seed_from_u64(4), Instruction::Nop.to_byte(), 0).unwrap();
    g.set(origin(), Instruction::FlagFork.to_byte());
    let mut ctx = OrganismContext {
        id: 0,
        child_potential: Some(0),
        life_potential: Some(1),
        delay_cycles: 0,
        organism: OrganismState::init(origin()),
    };
    let (dies, child) = ctx.step(&mut g);
    assert!(!dies);
    assert!(child.is_none());
    assert_eq!(ctx.life_potential, Some(0));
    assert_eq!(ctx.child_potential, Some(0));
    assert_eq!(ctx.organism.ip, Point { x: 1, y: 0 });
    let (dies, child) = ctx.step(&mut g);
    assert!(dies);
    assert!(child.is_none());
    ctx.life_potential = None;
    ctx.child_potential = None;
    ctx.organism.ip = origin();
    let (dies, child) = ctx.step(&mut g);
    assert!(!dies);
    let child = child.unwrap();
    assert!(child.flag);
    assert_eq!(child.ip, Point { x: 1, y: 0 });
    ctx.delay_cycles = 2;
    let (dies, child) = ctx.step(&mut g);
    assert!(!dies && child.is_none());
    assert_eq!(ctx.delay_cycles, 1);
    assert_eq!(ctx.organism.ip, Point { x: 1, y: 0 });
}

#[test]
fn run_instructions_adds_forks_and_reports_death() {
    let mut w = world();
    let id = w.spawn(origin()).unwrap();
    assert!(!w.run_instructions(id, &vec![Instruction::IncA, Instruction::FlagFork]));
    assert_eq!(w.organisms().len(), 2);
    let child = w.organisms().iter().into_iter().find(|c| c.id() != id).unwrap();
    assert!(child.organism.flag);
    assert_eq!(child.organism.ax, 1);
    assert!(w.run_instructions(id, &vec![Instruction::Halt]));
    assert!(w.organisms().alive(id));
}
