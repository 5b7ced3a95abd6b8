use myco::grid::{Dir, Grid, Point};
use myco::instruction::{Category, Instruction, INSTRUCTION_COUNT, WALL_BYTE};
use myco::state::{get_points_for_selection, OrganismState, Response};
use rand::rngs::StdRng;
use rand::SeedableRng;

fn grid() -> Grid {
    Grid::init(10, 10, StdRng::seed_from_u64(11), Instruction::Nop.to_byte(), 0).unwrap()
}

fn delay(r: Response) -> u8 {
    match r {
        Response::Delay(n) => n,
        Response::Fork(_) => panic!("unexpected fork"),
        Response::Die => panic!("unexpected death"),
    }
}

#[test]
fn decoding_and_symbols() {
    assert_eq!(Instruction::from_byte(0), Instruction::Halt);
    assert_eq!(Instruction::from_byte(1), Instruction::Nop);
    assert_eq!(Instruction::from_byte(WALL_BYTE), Instruction::Wall);
    assert_eq!(Instruction::from_byte(INSTRUCTION_COUNT), Instruction::Nop);
    assert_eq!(Instruction::from_byte(255), Instruction::Nop);
    for b in 0..INSTRUCTION_COUNT {
        let ins = Instruction::from_byte(b);
        assert_eq!(ins.to_byte(), b);
        let (c0, c1) = ins.symbol_chars();
        let text: String = [c0, c1].iter().collect();
        assert_eq!(Instruction::from_symbol(&text), Some(ins));
    }
    assert_eq!(Instruction::from_symbol("-="), Some(Instruction::FlagFork));
    assert_eq!(Instruction::from_symbol("!\\"), Some(Instruction::ReflectBwd));
    assert_eq!(Instruction::from_symbol("zz"), None);
    assert_eq!(Instruction::from_symbol("..."), None);
}

#[test]
fn categories_and_colours() {
    assert_eq!(Instruction::Wall.category(), Category::Wall);
    assert_eq!(Instruction::Paste.category(), Category::Selection);
    assert_eq!(Instruction::IncPointee.category(), Category::Memory);
    assert_eq!(Category::Calculation.color_rgb(), [0x8e, 0xcd, 0x00]);
    assert_eq!(Category::Memory.color_rgb(), [0x74, 0xa4, 0xdc]);
    let palette = myco::instruction::palette();
    assert_eq!(&palette[6..9], &[0x8e, 0xcd, 0x00]);
    assert_eq!(Category::Cursor.index(), 4);
}

#[test]
fn arithmetic_wraps() {
    let mut g = grid();
    let mut s = OrganismState::init(Point { x: 0, y: 0 });
    s.run(&mut g, Instruction::NegateA);
    assert_eq!(s.ax, 0);
    s.run(&mut g, Instruction::DecA);
    assert_eq!(s.ax, 255);
    s.run(&mut g, Instruction::IncA);
    assert_eq!(s.ax, 0);
    s.ax = 200;
    s.bx = 100;
    s.run(&mut g, Instruction::SumA);
    assert_eq!(s.ax, 44);
    s.run(&mut g, Instruction::MulB);
    assert_eq!(s.bx, (44u32 * 100 % 256) as u8);
    s.run(&mut g, Instruction::HalveA);
    assert_eq!(s.ax, 22);
    s.run(&mut g, Instruction::Mod2A);
    assert_eq!(s.ax, 0);
    s.ax = 5;
    s.run(&mut g, Instruction::NegateA);
    assert_eq!(s.ax, 251);
    s.run(&mut g, Instruction::SwapAB);
    assert_eq!((s.ax, s.bx), ((44u32 * 100 % 256) as u8, 251));
    s.run(&mut g, Instruction::EqA);
    assert_eq!(s.ax, 0);
    s.run(&mut g, Instruction::IsZeroA);
    assert_eq!(s.ax, 1);
}

#[test]
fn control_and_flag() {
    let mut g = grid();
    let mut s = OrganismState::init(Point { x: 0, y: 0 });
    s.ax = 7;
    assert_eq!(delay(s.run(&mut g, Instruction::WaitA)), 7);
    s.run(&mut g, Instruction::CondMoveU);
    assert_eq!(s.dir, Dir::R);
    s.run(&mut g, Instruction::SetFlag);
    s.run(&mut g, Instruction::CondMoveU);
    assert_eq!(s.dir, Dir::U);
    s.run(&mut g, Instruction::ReflectFwd);
    assert_eq!(s.dir, Dir::R);
    assert!(matches!(s.run(&mut g, Instruction::CondHalt), Response::Die));
    assert!(matches!(s.run(&mut g, Instruction::Halt), Response::Die));
    assert!(matches!(s.run(&mut g, Instruction::Wall), Response::Die));
    s.run(&mut g, Instruction::FlagToB);
    assert_eq!(s.bx, 1);
}

#[test]
fn forks_set_flags_and_ip() {
    let mut g = grid();
    let mut s = OrganismState::init(Point { x: 2, y: 2 });
    s.flag = false;
    match s.run(&mut g, Instruction::FlagFork) {
        Response::Fork(child) => {
            assert!(child.flag);
            assert_eq!(child.ip, Point { x: 2, y: 2 });
        },
        _ => panic!("expected a fork"),
    }
    assert!(!s.flag);
    s.cursor = Point { x: 7, y: 1 };
    s.dir = Dir::U;
    match s.run(&mut g, Instruction::CursorFork) {
        Response::Fork(child) => {
            assert_eq!(child.ip, Point { x: 7, y: 1 });
            assert_eq!(child.dir, Dir::U);
            assert_eq!(s.ip, Point { x: 2, y: 2 });
        },
        _ => panic!("expected a fork"),
    }
}

#[test]
fn cursor_stops_at_walls() {
    let mut g = grid();
    g.set(Point { x: 4, y: 0 }, WALL_BYTE);
    let mut s = OrganismState::init(Point { x: 3, y: 0 });
    s.run(&mut g, Instruction::CursorR);
    assert_eq!(s.cursor, Point { x: 3, y: 0 });
    s.run(&mut g, Instruction::CursorL);
    assert_eq!(s.cursor, Point { x: 2, y: 0 });
    s.ax = 5;
    assert_eq!(delay(s.run(&mut g, Instruction::CursorRTimesA)), 2);
    assert_eq!(s.cursor, Point { x: 3, y: 0 });
    s.bx = 4;
    assert_eq!(delay(s.run(&mut g, Instruction::CursorLTimesB)), 4);
    assert_eq!(s.cursor, Point { x: 9, y: 0 });
    assert_eq!(g.get(Point { x: 4, y: 0 }), Some(WALL_BYTE));
    s.run(&mut g, Instruction::CursorHome);
    assert_eq!(s.cursor, Point { x: 3, y: 0 });
}

#[test]
fn radius_stays_in_range() {
    let mut g = grid();
    let mut s = OrganismState::init(Point { x: 0, y: 0 });
    s.ax = 11;
    s.run(&mut g, Instruction::RadiusA);
    assert_eq!(s.r, 0);
    s.ax = 10;
    s.run(&mut g, Instruction::RadiusA);
    assert_eq!(s.r, 10);
    s.run(&mut g, Instruction::IncRadius);
    assert_eq!(s.r, 10);
    s.run(&mut g, Instruction::RadiusReset);
    s.run(&mut g, Instruction::DecRadius);
    assert_eq!(s.r, 0);
    s.run(&mut g, Instruction::IncRadius);
    s.run(&mut g, Instruction::RadiusToB);
    assert_eq!(s.bx, 1);
}

#[test]
fn copy_takes_the_square() {
    let mut g = grid();
    let mut s = OrganismState::init(Point { x: 0, y: 0 });
    g.set(Point { x: 9, y: 9 }, 0x10);
    g.set(Point { x: 1, y: 0 }, 0x20);
    s.r = 1;
    s.run(&mut g, Instruction::Copy);
    let clip = s.clipboard();
    assert_eq!(clip.len(), 9);
    assert_eq!(clip[0], 0x10);
    assert_eq!(clip[2 * 3 + 1], 0x20);
    assert_eq!(clip[4], Instruction::Nop.to_byte());
    s.r = 2;
    s.run(&mut g, Instruction::Copy);
    assert_eq!(s.clipboard().len(), 25);
    let pts = get_points_for_selection(Point { x: 0, y: 0 }, 1, &g);
    assert_eq!(pts[0], Point { x: 9, y: 9 });
    assert_eq!(pts[1], Point { x: 9, y: 0 });
    assert_eq!(pts[8], Point { x: 1, y: 1 });
}

#[test]
fn paste_square() {
    let mut g = grid();
    let mut s = OrganismState::init(Point { x: 5, y: 5 });
    s.r = 1;
    s.clipboard = vec![0x42; 9];
    assert_eq!(delay(s.run(&mut g, Instruction::Paste)), 3);
    for x in 0..10usize {
        for y in 0..10usize {
            let inside = (x as i64 - 5).abs() <= 1 && (y as i64 - 5).abs() <= 1;
            let expected = if inside { 0x42 } else { Instruction::Nop.to_byte() };
            assert_eq!(g.get(Point { x, y }), Some(expected));
        }
    }
}

#[test]
fn paste_places_bytes_by_offset() {
    let mut g = grid();
    let mut s = OrganismState::init(Point { x: 0, y: 0 });
    s.clipboard = (0u8..9).collect();
    s.run(&mut g, Instruction::Paste);
    assert_eq!(g.get(Point { x: 9, y: 9 }), Some(0));
    assert_eq!(g.get(Point { x: 9, y: 0 }), Some(1));
    assert_eq!(g.get(Point { x: 0, y: 9 }), Some(3));
    assert_eq!(g.get(Point { x: 0, y: 0 }), Some(4));
    assert_eq!(g.get(Point { x: 1, y: 1 }), Some(8));
}

#[test]
fn paste_never_overwrites_walls() {
    let mut g = grid();
    for y in 0..10 {
        g.set(Point { x: 6, y }, WALL_BYTE);
    }
    let mut s = OrganismState::init(Point { x: 5, y: 5 });
    s.clipboard = vec![0x33; 25];
    assert_eq!(delay(s.run(&mut g, Instruction::Paste)), 5);
    for y in 0..10 {
        assert_eq!(g.get(Point { x: 6, y }), Some(WALL_BYTE));
        assert_eq!(g.get(Point { x: 7, y }), Some(Instruction::Nop.to_byte()));
    }
    assert_eq!(g.get(Point { x: 3, y: 7 }), Some(0x33));
    let mut walled = grid();
    walled.set(Point { x: 5, y: 5 }, WALL_BYTE);
    let mut t = OrganismState::init(Point { x: 5, y: 5 });
    t.clipboard = vec![0x33; 9];
    t.run(&mut walled, Instruction::Paste);
    assert_eq!(walled.get(Point { x: 5, y: 5 }), Some(WALL_BYTE));
    assert_eq!(walled.get(Point { x: 4, y: 5 }), Some(Instruction::Nop.to_byte()));
}

#[test]
fn cursor_writes_and_reads() {
    let mut g = grid();
    let mut s = OrganismState::init(Point { x: 2, y: 3 });
    s.ax = 99;
    s.run(&mut g, Instruction::CursorA);
    assert_eq!(g.get(Point { x: 2, y: 3 }), Some(99));
    s.run(&mut g, Instruction::CursorToB);
    assert_eq!(s.bx, 99);
}

#[test]
fn tape_grows_on_demand() {
    let mut g = grid();
    let mut s = OrganismState::init(Point { x: 0, y: 0 });
    s.run(&mut g, Instruction::PointeeToA);
    assert_eq!(s.ax, 0);
    assert!(s.storage.is_empty());
    s.ax = 5;
    s.run(&mut g, Instruction::PointerA);
    s.bx = 9;
    s.run(&mut g, Instruction::PointeeB);
    assert_eq!(s.storage, vec![0, 0, 0, 0, 0, 9]);
    s.run(&mut g, Instruction::DecPointeeA);
    assert_eq!(s.storage[5], 4);
    s.run(&mut g, Instruction::PointerL);
    s.run(&mut g, Instruction::IncPointee);
    assert_eq!(s.storage[4], 1);
    s.run(&mut g, Instruction::Pointer0);
    s.run(&mut g, Instruction::PointerL);
    assert_eq!(s.mp, 0);
    s.mp = 300;
    s.run(&mut g, Instruction::PointerToA);
    assert_eq!(s.ax, 255);
    let (first, column, bytes) = OrganismState::init(Point { x: 0, y: 0 }).local_memory();
    assert!(first);
    assert_eq!(column, 0);
    assert_eq!(bytes, [0; 12]);
}
