use myco::grid::{Dir, Grid, Point};
use myco::instruction::Instruction;
use myco::world::Error;
use rand::rngs::StdRng;
use rand::SeedableRng;

fn grid(w: usize, h: usize) -> Grid {
    Grid::init(w, h, StdRng::seed_from_u64(7), Instruction::Nop.to_byte(), 0).unwrap()
}

#[test]
fn moves_stay_on_grid_and_invert() {
    let dirs = [Dir::L, Dir::R, Dir::U, Dir::D];
    for &(w, h) in &[(1usize, 1usize), (3, 5), (10, 10)] {
        for x in 0..w {
            for y in 0..h {
                let p = Point { x, y };
                for &d in &dirs {
                    let q = p.move_in(d, w, h);
                    assert!(q.x < w && q.y < h);
                }
                assert_eq!(p.move_in(Dir::L, w, h).move_in(Dir::R, w, h), p);
                assert_eq!(p.move_in(Dir::R, w, h).move_in(Dir::L, w, h), p);
                assert_eq!(p.move_in(Dir::U, w, h).move_in(Dir::D, w, h), p);
                assert_eq!(p.move_in(Dir::D, w, h).move_in(Dir::U, w, h), p);
            }
        }
    }
}

#[test]
fn single_steps_wrap() {
    assert_eq!(Point { x: 0, y: 0 }.left(10), Point { x: 9, y: 0 });
    assert_eq!(Point { x: 9, y: 0 }.right(10), Point { x: 0, y: 0 });
    assert_eq!(Point { x: 0, y: 0 }.up(4), Point { x: 0, y: 3 });
    assert_eq!(Point { x: 0, y: 3 }.down(4), Point { x: 0, y: 0 });
}

#[test]
fn multi_steps_wrap_modulo() {
    let p = Point { x: 2, y: 3 };
    assert_eq!(p.move_in_n(Dir::R, 100, 10, 10), Point { x: 2, y: 3 });
    assert_eq!(p.move_in_n(Dir::R, 13, 10, 10), Point { x: 5, y: 3 });
    assert_eq!(p.move_in_n(Dir::L, 13, 10, 10), Point { x: 9, y: 3 });
    assert_eq!(p.move_in_n(Dir::U, 5, 10, 4), Point { x: 2, y: 2 });
    assert_eq!(p.move_in_n(Dir::D, 7, 10, 4), Point { x: 2, y: 2 });
    assert_eq!(p.left_n(usize::MAX, 10).x, (2 + 10 - (usize::MAX % 10)) % 10);
}

#[test]
fn modular_subtraction_and_distance() {
    let (w, h) = (10, 7);
    for ax in 0..w {
        for bx in 0..w {
            for ay in 0..h {
                let a = Point { x: ax, y: ay };
                let b = Point { x: bx, y: (ay * 3) % h };
                let d = a.sub(b, w, h);
                assert_eq!(d.x as i64, (ax as i64 - bx as i64).rem_euclid(w as i64));
                assert_eq!(d.y as i64, (a.y as i64 - b.y as i64).rem_euclid(h as i64));
                assert_eq!(a.dist_to(b, w, h), b.dist_to(a, w, h));
                assert!(a.dist_to(b, w, h) <= std::cmp::max(w / 2, h / 2));
            }
        }
    }
    assert_eq!(Point { x: 0, y: 0 }.dist_to(Point { x: 9, y: 1 }, 10, 10), 1);
    assert_eq!(Point { x: 0, y: 0 }.dist_to(Point { x: 5, y: 2 }, 10, 10), 5);
}

#[test]
fn from_modular_is_euclidean() {
    assert_eq!(Point::from_modular(-1, -11, 10, 5), Point { x: 9, y: 4 });
    assert_eq!(Point::from_modular(23, 5, 10, 5), Point { x: 3, y: 0 });
    assert_eq!(Point::from_modular(isize::MIN, 0, 7, 1).x as i128, (isize::MIN as i128).rem_euclid(7));
}

#[test]
fn directions_text_and_reflections() {
    for &d in &[Dir::L, Dir::R, Dir::U, Dir::D] {
        assert_eq!(Dir::from_str(&d.to_char().to_string()), Some(d));
        assert_eq!(d.reverse().reverse(), d);
    }
    assert_eq!(Dir::from_str("x"), None);
    assert_eq!(Dir::from_str("<<"), None);
    assert_eq!(Dir::from_str("v"), Some(Dir::D));
    assert_eq!(Dir::L.reflect_x(), Dir::R);
    assert_eq!(Dir::U.reflect_x(), Dir::U);
    assert_eq!(Dir::U.reflect_y(), Dir::D);
    assert_eq!(Dir::R.reflect_fwd(), Dir::U);
    assert_eq!(Dir::D.reflect_fwd(), Dir::L);
    assert_eq!(Dir::R.reflect_bwd(), Dir::D);
    assert_eq!(Dir::U.reflect_bwd(), Dir::L);
}

#[test]
fn grid_rejects_empty_sizes() {
    assert!(matches!(Grid::init(0, 5, StdRng::seed_from_u64(1), 0, 0), Err(Error::BadWidth)));
    assert!(matches!(Grid::init(5, 0, StdRng::seed_from_u64(1), 0, 0), Err(Error::BadHeight)));
    assert!(matches!(Grid::init(0, 0, StdRng::seed_from_u64(1), 0, 0), Err(Error::BadWidth)));
}

#[test]
fn grid_fill_get_set_and_view() {
    let mut g = grid(4, 3);
    assert_eq!(g.width(), 4);
    assert_eq!(g.height(), 3);
    assert_eq!(g.get(Point { x: 3, y: 2 }), Some(Instruction::Nop.to_byte()));
    assert_eq!(g.get(Point { x: 4, y: 0 }), None);
    g.set(Point { x: 1, y: 2 }, 0x42);
    assert_eq!(g.get(Point { x: 1, y: 2 }), Some(0x42));
    let view = g.view(Point { x: 3, y: 2 }, 2, 2);
    assert_eq!(view.len(), 2);
    assert_eq!(view[0][0], (Point { x: 3, y: 2 }, 1));
    assert_eq!(view[0][1], (Point { x: 0, y: 2 }, 1));
    assert_eq!(view[1][0], (Point { x: 3, y: 0 }, 1));
    assert_eq!(g.view(Point { x: 7, y: 5 }, 2, 2), view);
    let all = g.view_all();
    assert_eq!(all.len(), 3);
    assert_eq!(all[2][1], (Point { x: 1, y: 2 }, 0x42));
}

#[test]
fn pierce_depends_on_rate() {
    let mut g = grid(2, 2);
    assert_eq!(g.wall_pierce_chance(), 0);
    for _ in 0..20 {
        assert!(!g.pierce_wall());
    }
    g.set_wall_pierce_chance(1);
    for _ in 0..20 {
        assert!(g.pierce_wall());
    }
}

#[test]
fn fault_rate_does_not_change_exact_writes() {
    let mut exact = Grid::init(8, 8, StdRng::seed_from_u64(3), 1, 0).unwrap();
    let mut rare = Grid::init(8, 8, StdRng::seed_from_u64(3), 1, 0).unwrap();
    rare.set_write_error_chance(u32::MAX);
    for i in 0..64usize {
        let p = Point { x: i % 8, y: i / 8 };
        exact.set(p, (i * 7) as u8);
        rare.set(p, (i * 7) as u8);
    }
    assert_eq!(exact.view_all(), rare.view_all());
}

#[test]
fn certain_faults_replace_writes_and_fill() {
    let g = Grid::init(16, 16, StdRng::seed_from_u64(5), 1, 1).unwrap();
    let filled = g.view_all().iter().flatten().filter(|(_, b)| *b == 1).count();
    assert!(filled < 256);
}
