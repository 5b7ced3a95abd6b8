//! The toroidal grid of bytes, its points and its directions.

use vstd::prelude::*;
use vstd::arithmetic::div_mod::{lemma_fundamental_div_mod, lemma_fundamental_div_mod_converse};
use rand::rngs::StdRng;
use crate::random::{draw_byte, one_in};
use crate::world::Error;

verus! {

/// `x` reduced into `0..m` (the remainder is Euclidean for a positive `m`).
pub open spec fn wrap(x: int, m: int) -> int {
    x % m
}

/// The number of steps, forwards or backwards, between `a` and `b` on a
/// circle of `m` positions.
pub open spec fn circ_dist(a: int, b: int, m: int) -> int {
    let d = if a <= b { b - a } else { a - b };
    if d <= m - d { d } else { m - d }
}

/// Fixes `x % m` from a decomposition `x == q * m + r` with `0 <= r < m`.
pub proof fn lemma_mod_from_parts(x: int, m: int, q: int, r: int)
    requires
        m > 0,
        0 <= r < m,
        x == q * m + r,
    ensures
        x % m == r,
{
    lemma_fundamental_div_mod_converse(x, m, q, r);
}

/// A value already in `0..m` is its own remainder; one step outside wraps
/// to the other end.
pub proof fn lemma_wrap_basics(v: int, m: int)
    requires
        m > 0,
        0 <= v < m,
    ensures
        v % m == v,
        (v + m) % m == v,
        (v - m) % m == v,
{
    lemma_mod_from_parts(v, m, 0, v);
    lemma_mod_from_parts(v + m, m, 1, v);
    lemma_mod_from_parts(v - m, m, -1, v);
}

/// Sort a pair of values.
fn min_max(a: usize, b: usize) -> (r: (usize, usize))
    ensures
        r.0 <= r.1,
        (r.0 == a && r.1 == b) || (r.0 == b && r.1 == a),
{
    if a > b {
        (b, a)
    } else {
        (a, b)
    }
}

/// The minimum number of increments or decrements (modulo `rem`) that turn
/// one number into the other.
fn dist_modular(a: usize, b: usize, rem: usize) -> (r: usize)
    requires
        a < rem,
        b < rem,
    ensures
        r as int == circ_dist(a as int, b as int, rem as int),
{
    let (min, max) = min_max(a, b);
    let forward = max - min;
    let backward = min + (rem - max);
    if forward <= backward {
        forward
    } else {
        backward
    }
}

/// The minimum number of decrements (modulo `rem`) that turn `b` into `a`.
fn sub_modular(a: usize, b: usize, rem: usize) -> (r: usize)
    requires
        a < rem,
        b < rem,
    ensures
        r as int == wrap(a - b, rem as int),
{
    proof {
        if b > a {
            lemma_mod_from_parts(a - b, rem as int, -1, rem + a - b);
        } else {
            lemma_mod_from_parts(a - b, rem as int, 0, a - b);
        }
    }
    if b > a {
        rem - b + a
    } else {
        a - b
    }
}

/// A cell position on the grid.
#[derive(Clone, Copy, Debug, PartialEq, Eq, Hash, Structural)]
pub struct Point {
    pub x: usize,
    pub y: usize,
}

/// One of the four directions in which a position can move.
#[derive(Clone, Copy, Debug, PartialEq, Eq, Hash, Structural)]
pub enum Dir {
    L,
    R,
    U,
    D,
}

impl Dir {
    /// The horizontal component of one step in this direction.
    pub open spec fn dx(self) -> int {
        match self {
            Dir::L => -1,
            Dir::R => 1,
            _ => 0,
        }
    }

    /// The vertical component of one step in this direction (down is positive).
    pub open spec fn dy(self) -> int {
        match self {
            Dir::U => -1,
            Dir::D => 1,
            _ => 0,
        }
    }

    /// The character that stands for this direction.
    pub open spec fn glyph(self) -> char {
        match self {
            Dir::L => '<',
            Dir::R => '>',
            Dir::U => '^',
            Dir::D => 'v',
        }
    }

    /// The opposite direction.
    pub open spec fn reversed(self) -> Dir {
        match self {
            Dir::L => Dir::R,
            Dir::R => Dir::L,
            Dir::U => Dir::D,
            Dir::D => Dir::U,
        }
    }

    /// The mirror image in a vertical line.
    pub open spec fn x_reflected(self) -> Dir {
        match self {
            Dir::L => Dir::R,
            Dir::R => Dir::L,
            d => d,
        }
    }

    /// The mirror image in a horizontal line.
    pub open spec fn y_reflected(self) -> Dir {
        match self {
            Dir::U => Dir::D,
            Dir::D => Dir::U,
            d => d,
        }
    }

    /// The mirror image in a '/' diagonal.
    pub open spec fn fwd_reflected(self) -> Dir {
        match self {
            Dir::L => Dir::D,
            Dir::R => Dir::U,
            Dir::U => Dir::R,
            Dir::D => Dir::L,
        }
    }

    /// The mirror image in a '\' diagonal.
    pub open spec fn bwd_reflected(self) -> Dir {
        match self {
            Dir::L => Dir::U,
            Dir::R => Dir::D,
            Dir::U => Dir::L,
            Dir::D => Dir::R,
        }
    }

    pub fn to_char(self) -> (r: char)
        ensures
            r == self.glyph(),
    {
        match self {
            Dir::L => '<',
            Dir::R => '>',
            Dir::U => '^',
            Dir::D => 'v',
        }
    }

    /// The direction written as the single character `s`, if there is one.
    pub fn from_str(s: &str) -> (r: Option<Dir>)
        ensures
            r matches Some(d) ==> s@ == seq![d.glyph()],
            r is None ==> forall|d: Dir| s@ != seq![d.glyph()],
    {
        if s.unicode_len() != 1 {
            proof {
                assert forall|d: Dir| s@ != seq![d.glyph()] by {
                    assert(seq![d.glyph()].len() == 1);
                }
            }
            return None;
        }
        let c = s.get_char(0);
        proof {
            assert forall|d: Dir| s@ == seq![d.glyph()] <==> c == d.glyph() by {
                if c == d.glyph() {
                    assert(s@ =~= seq![d.glyph()]);
                }
            }
        }
        if c == '<' {
            Some(Dir::L)
        } else if c == '>' {
            Some(Dir::R)
        } else if c == '^' {
            Some(Dir::U)
        } else if c == 'v' {
            Some(Dir::D)
        } else {
            None
        }
    }

    /// Reflect as in '#': the opposite direction.
    pub fn reverse(self) -> (r: Dir)
        ensures
            r == self.reversed(),
            r.dx() == -self.dx(),
            r.dy() == -self.dy(),
    {
        match self {
            Dir::L => Dir::R,
            Dir::R => Dir::L,
            Dir::U => Dir::D,
            Dir::D => Dir::U,
        }
    }

    /// Reflect as in '|': the horizontal component is negated.
    pub fn reflect_x(self) -> (r: Dir)
        ensures
            r == self.x_reflected(),
            r.dx() == -self.dx(),
            r.dy() == self.dy(),
    {
        match self {
            Dir::L => Dir::R,
            Dir::R => Dir::L,
            d => d,
        }
    }

    /// Reflect as in '-': the vertical component is negated.
    pub fn reflect_y(self) -> (r: Dir)
        ensures
            r == self.y_reflected(),
            r.dx() == self.dx(),
            r.dy() == -self.dy(),
    {
        match self {
            Dir::U => Dir::D,
            Dir::D => Dir::U,
            d => d,
        }
    }

    /// Reflect as in '/'.
    pub fn reflect_fwd(self) -> (r: Dir)
        ensures
            r == self.fwd_reflected(),
            r.dx() == -self.dy(),
            r.dy() == -self.dx(),
    {
        match self {
            Dir::L => Dir::D,
            Dir::R => Dir::U,
            Dir::U => Dir::R,
            Dir::D => Dir::L,
        }
    }

    /// Reflect as in '\'.
    pub fn reflect_bwd(self) -> (r: Dir)
        ensures
            r == self.bwd_reflected(),
            r.dx() == self.dy(),
            r.dy() == self.dx(),
    {
        match self {
            Dir::L => Dir::U,
            Dir::R => Dir::D,
            Dir::U => Dir::L,
            Dir::D => Dir::R,
        }
    }
}

impl Point {
    /// The point lies on a grid of the given size.
    pub open spec fn in_bounds(self, width: int, height: int) -> bool {
        self.x < width && self.y < height
    }

    /// The point reached by `n` steps in direction `d`, wrapping around.
    pub open spec fn moved(self, d: Dir, n: int, width: int, height: int) -> Point {
        Point {
            x: wrap(self.x + d.dx() * n, width) as usize,
            y: wrap(self.y + d.dy() * n, height) as usize,
        }
    }

    /// The modular distance to `other`: a square metric, the larger of the
    /// two axis distances.
    pub open spec fn dist(self, other: Point, width: int, height: int) -> int {
        let dx = circ_dist(self.x as int, other.x as int, width);
        let dy = circ_dist(self.y as int, other.y as int, height);
        if dx >= dy { dx } else { dy }
    }

    /// Componentwise modular subtraction.
    pub open spec fn minus(self, other: Point, width: int, height: int) -> Point {
        Point {
            x: wrap(self.x - other.x, width) as usize,
            y: wrap(self.y - other.y, height) as usize,
        }
    }

    /// The point `(x mod width, y mod height)`.
    pub fn from_modular(x: isize, y: isize, width: usize, height: usize) -> (r: Point)
        requires
            width > 0,
            height > 0,
        ensures
            r.x as int == wrap(x as int, width as int),
            r.y as int == wrap(y as int, height as int),
    {
        Point { x: reduce(x, width), y: reduce(y, height) }
    }

    pub fn up(self, height: usize) -> (r: Point)
        requires
            self.y < height,
        ensures
            r.x == self.x,
            r.y as int == wrap(self.y - 1, height as int),
    {
        proof {
            if self.y == 0 {
                lemma_wrap_basics(height - 1, height as int);
            } else {
                lemma_wrap_basics(self.y - 1, height as int);
            }
        }
        let y = if self.y == 0 { height - 1 } else { self.y - 1 };
        Point { x: self.x, y }
    }

    pub fn up_n(self, n: usize, height: usize) -> (r: Point)
        requires
            self.y < height,
        ensures
            r.x == self.x,
            r.y as int == wrap(self.y - n, height as int),
    {
        let m = n % height;
        let y = if self.y < m { height - m + self.y } else { self.y - m };
        proof {
            let h = height as int;
            lemma_fundamental_div_mod(n as int, h);
            let q = n as int / h;
            if self.y < m {
                assert(self.y - n == (-q - 1) * h + y) by (nonlinear_arith)
                    requires
                        n as int == h * q + m,
                        y == h - m + self.y,
                ;
                lemma_mod_from_parts(self.y - n, h, -q - 1, y as int);
            } else {
                assert(self.y - n == (-q) * h + y) by (nonlinear_arith)
                    requires
                        n as int == h * q + m,
                        y == self.y - m,
                ;
                lemma_mod_from_parts(self.y - n, h, -q, y as int);
            }
        }
        Point { x: self.x, y }
    }

    pub fn down(self, height: usize) -> (r: Point)
        requires
            self.y < height,
        ensures
            r.x == self.x,
            r.y as int == wrap(self.y + 1, height as int),
    {
        proof {
            if self.y == height - 1 {
                lemma_wrap_basics(0, height as int);
            } else {
                lemma_wrap_basics(self.y + 1, height as int);
            }
        }
        let y = if self.y == height - 1 { 0 } else { self.y + 1 };
        Point { x: self.x, y }
    }

    pub fn down_n(self, n: usize, height: usize) -> (r: Point)
        requires
            self.y < height,
        ensures
            r.x == self.x,
            r.y as int == wrap(self.y + n, height as int),
    {
        let m = n % height;
        let y = if m >= height - self.y { self.y - (height - m) } else { self.y + m };
        proof {
            let h = height as int;
            lemma_fundamental_div_mod(n as int, h);
            let q = n as int / h;
            if m >= height - self.y {
                assert(self.y + n == (q + 1) * h + y) by (nonlinear_arith)
                    requires
                        n as int == h * q + m,
                        y == self.y - (h - m),
                ;
                lemma_mod_from_parts(self.y + n, h, q + 1, y as int);
            } else {
                assert(self.y + n == q * h + y) by (nonlinear_arith)
                    requires
                        n as int == h * q + m,
                        y == self.y + m,
                ;
                lemma_mod_from_parts(self.y + n, h, q, y as int);
            }
        }
        Point { x: self.x, y }
    }

    pub fn left(self, width: usize) -> (r: Point)
        requires
            self.x < width,
        ensures
            r.y == self.y,
            r.x as int == wrap(self.x - 1, width as int),
    {
        proof {
            if self.x == 0 {
                lemma_wrap_basics(width - 1, width as int);
            } else {
                lemma_wrap_basics(self.x - 1, width as int);
            }
        }
        let x = if self.x == 0 { width - 1 } else { self.x - 1 };
        Point { x, y: self.y }
    }

    pub fn left_n(self, n: usize, width: usize) -> (r: Point)
        requires
            self.x < width,
        ensures
            r.y == self.y,
            r.x as int == wrap(self.x - n, width as int),
    {
        let t = Point { x: self.y, y: self.x }.up_n(n, width);
        Point { x: t.y, y: self.y }
    }

    pub fn right(self, width: usize) -> (r: Point)
        requires
            self.x < width,
        ensures
            r.y == self.y,
            r.x as int == wrap(self.x + 1, width as int),
    {
        proof {
            if self.x == width - 1 {
                lemma_wrap_basics(0, width as int);
            } else {
                lemma_wrap_basics(self.x + 1, width as int);
            }
        }
        let x = if self.x == width - 1 { 0 } else { self.x + 1 };
        Point { x, y: self.y }
    }

    pub fn right_n(self, n: usize, width: usize) -> (r: Point)
        requires
            self.x < width,
        ensures
            r.y == self.y,
            r.x as int == wrap(self.x + n, width as int),
    {
        let t = Point { x: self.y, y: self.x }.down_n(n, width);
        Point { x: t.y, y: self.y }
    }

    /// One step in direction `dir`, wrapping around the edges.
    pub fn move_in(self, dir: Dir, width: usize, height: usize) -> (r: Point)
        requires
            self.in_bounds(width as int, height as int),
        ensures
            r == self.moved(dir, 1, width as int, height as int),
            r.in_bounds(width as int, height as int),
    {
        proof {
            lemma_wrap_basics(self.x as int, width as int);
            lemma_wrap_basics(self.y as int, height as int);
        }
        match dir {
            Dir::L => self.left(width),
            Dir::R => self.right(width),
            Dir::U => self.up(height),
            Dir::D => self.down(height),
        }
    }

    /// `n` steps in direction `dir`, wrapping around the edges.
    pub fn move_in_n(self, dir: Dir, n: usize, width: usize, height: usize) -> (r: Point)
        requires
            self.in_bounds(width as int, height as int),
        ensures
            r == self.moved(dir, n as int, width as int, height as int),
            r.in_bounds(width as int, height as int),
    {
        proof {
            lemma_wrap_basics(self.x as int, width as int);
            lemma_wrap_basics(self.y as int, height as int);
        }
        match dir {
            Dir::L => self.left_n(n, width),
            Dir::R => self.right_n(n, width),
            Dir::U => self.up_n(n, height),
            Dir::D => self.down_n(n, height),
        }
    }

    /// Modular distance: the larger of the two axis distances.
    pub fn dist_to(self, other: Point, width: usize, height: usize) -> (r: usize)
        requires
            self.in_bounds(width as int, height as int),
            other.in_bounds(width as int, height as int),
        ensures
            r as int == self.dist(other, width as int, height as int),
    {
        let dx = dist_modular(self.x, other.x, width);
        let dy = dist_modular(self.y, other.y, height);
        if dx >= dy {
            dx
        } else {
            dy
        }
    }

    /// Modular componentwise subtraction.
    pub fn sub(self, other: Point, width: usize, height: usize) -> (r: Point)
        requires
            self.in_bounds(width as int, height as int),
            other.in_bounds(width as int, height as int),
        ensures
            r == self.minus(other, width as int, height as int),
    {
        Point { x: sub_modular(self.x, other.x, width), y: sub_modular(self.y, other.y, height) }
    }
}

/// `x mod m`, for a signed `x`.
fn reduce(x: isize, m: usize) -> (r: usize)
    requires
        m > 0,
    ensures
        r as int == wrap(x as int, m as int),
{
    if x >= 0 {
        (x as usize) % m
    } else {
        let k = (-(x + 1)) as usize;
        let rest = k % m;
        proof {
            let mi = m as int;
            lemma_fundamental_div_mod(k as int, mi);
            let q = k as int / mi;
            assert(x as int == (-q - 1) * mi + (mi - 1 - rest)) by (nonlinear_arith)
                requires
                    k as int == mi * q + rest,
                    k as int == -(x as int + 1),
            ;
            lemma_mod_from_parts(x as int, mi, -q - 1, mi - 1 - rest);
        }
        m - 1 - rest
    }
}

/// A fixed-size toroidal array of bytes, with an owned random source that
/// drives write faults and wall piercing.
pub struct Grid {
    width: usize,
    height: usize,
    data: Vec<u8>,
    rng: StdRng,
    /// The inverse probability that a write stores a random byte instead of
    /// the requested one; 0 disables write faults.
    write_error_chance: u32,
    /// The inverse probability that a paste may overwrite a wall; 0 makes
    /// walls impenetrable.
    wall_pierce_chance: u32,
}

impl Grid {
    pub closed spec fn spec_width(&self) -> int {
        self.width as int
    }

    pub closed spec fn spec_height(&self) -> int {
        self.height as int
    }

    /// The bytes of the grid in row-major order.
    pub closed spec fn cells(&self) -> Seq<u8> {
        self.data@
    }

    pub closed spec fn fault_chance(&self) -> u32 {
        self.write_error_chance
    }

    pub closed spec fn pierce_chance(&self) -> u32 {
        self.wall_pierce_chance
    }

    /// The grid's size is positive and its bytes fill it exactly.
    pub open spec fn wf(&self) -> bool {
        &&& self.spec_width() > 0
        &&& self.spec_height() > 0
        &&& self.spec_width() <= usize::MAX
        &&& self.spec_height() <= usize::MAX
        &&& self.spec_width() * self.spec_height() <= usize::MAX
        &&& self.cells().len() == self.spec_width() * self.spec_height()
    }

    /// The point lies on this grid.
    pub open spec fn holds(&self, p: Point) -> bool {
        p.in_bounds(self.spec_width(), self.spec_height())
    }

    /// The row-major index of a point.
    pub open spec fn index_of(&self, p: Point) -> int {
        p.y * self.spec_width() + p.x
    }

    /// The byte at a point of the grid.
    pub open spec fn at(&self, p: Point) -> u8 {
        self.cells()[self.index_of(p)]
    }

    /// The point `n` steps from `p` in direction `d`.
    pub open spec fn step(&self, p: Point, d: Dir, n: int) -> Point {
        p.moved(d, n, self.spec_width(), self.spec_height())
    }

    /// Only the bytes changed: size and rates are those of `old`.
    pub open spec fn same_shape(&self, old: &Grid) -> bool {
        &&& self.spec_width() == old.spec_width()
        &&& self.spec_height() == old.spec_height()
        &&& self.cells().len() == old.cells().len()
        &&& self.fault_chance() == old.fault_chance()
        &&& self.pierce_chance() == old.pierce_chance()
    }

    /// The inverse probability of a write fault (0: none).
    pub fn write_error_chance(&self) -> (r: u32)
        ensures
            r == self.fault_chance(),
    {
        self.write_error_chance
    }

    /// The inverse probability of piercing a wall (0: never).
    pub fn wall_pierce_chance(&self) -> (r: u32)
        ensures
            r == self.pierce_chance(),
    {
        self.wall_pierce_chance
    }

    pub fn set_write_error_chance(&mut self, chance: u32)
        ensures
            final(self).fault_chance() == chance,
            final(self).pierce_chance() == old(self).pierce_chance(),
            final(self).spec_width() == old(self).spec_width(),
            final(self).spec_height() == old(self).spec_height(),
            final(self).cells() == old(self).cells(),
    {
        self.write_error_chance = chance;
    }

    pub fn set_wall_pierce_chance(&mut self, chance: u32)
        ensures
            final(self).pierce_chance() == chance,
            final(self).fault_chance() == old(self).fault_chance(),
            final(self).spec_width() == old(self).spec_width(),
            final(self).spec_height() == old(self).spec_height(),
            final(self).cells() == old(self).cells(),
    {
        self.wall_pierce_chance = chance;
    }

    pub fn width(&self) -> (r: usize)
        ensures
            r as int == self.spec_width(),
    {
        self.width
    }

    pub fn height(&self) -> (r: usize)
        ensures
            r as int == self.spec_height(),
    {
        self.height
    }

    /// The row-major index of a point of the grid.
    fn index(&self, p: Point) -> (r: usize)
        requires
            self.wf(),
            self.holds(p),
        ensures
            r as int == self.index_of(p),
            r < self.cells().len(),
    {
        proof {
            lemma_index_in_range(p, self.width as int, self.height as int);
        }
        p.y * self.width + p.x
    }

    /// The byte at `p`, or `None` where `p` lies off the grid.
    pub fn get(&self, p: Point) -> (r: Option<u8>)
        requires
            self.wf(),
        ensures
            self.holds(p) ==> r == Some(self.at(p)),
            !self.holds(p) ==> r is None,
    {
        if p.x < self.width && p.y < self.height {
            Some(self.data[self.index(p)])
        } else {
            None
        }
    }

    /// The byte at a point of the grid.
    pub fn at_point(&self, p: Point) -> (r: u8)
        requires
            self.wf(),
            self.holds(p),
        ensures
            r == self.at(p),
    {
        self.data[self.index(p)]
    }

    /// Builds a `width` by `height` grid of `fill`; where the write error
    /// chance is nonzero, each cell is instead random with probability one
    /// in that chance.
    pub fn init(width: usize, height: usize, rng: StdRng, fill: u8, write_error_chance: u32) -> (r:
        Result<Grid, Error>)
        requires
            width * height <= usize::MAX,
        ensures
            width == 0 ==> r == Err::<Grid, Error>(Error::BadWidth),
            width > 0 && height == 0 ==> r == Err::<Grid, Error>(Error::BadHeight),
            width > 0 && height > 0 ==> r is Ok,
            r matches Ok(g) ==> {
                &&& g.wf()
                &&& g.spec_width() == width
                &&& g.spec_height() == height
                &&& g.fault_chance() == write_error_chance
                &&& g.pierce_chance() == 0
                &&& (write_error_chance == 0 ==> forall|i: int|
                    0 <= i < g.cells().len() ==> #[trigger] g.cells()[i] == fill)
            },
    {
        if width == 0 {
            return Err(Error::BadWidth);
        }
        if height == 0 {
            return Err(Error::BadHeight);
        }
        let mut rng = rng;
        let total = width * height;
        let mut data: Vec<u8> = Vec::new();
        let mut i: usize = 0;
        while i < total
            invariant
                i <= total,
                data@.len() == i,
                write_error_chance == 0 ==> forall|j: int| 0 <= j < i ==> #[trigger] data@[j] == fill,
            decreases total - i,
        {
            if write_error_chance != 0 && one_in(&mut rng, write_error_chance) {
                data.push(draw_byte(&mut rng));
            } else {
                data.push(fill);
            }
            i = i + 1;
        }
        Ok(Grid { width, height, data, rng, write_error_chance, wall_pierce_chance: 0 })
    }

    /// Decides one attempt to paste over a wall: never when the pierce
    /// chance is zero, otherwise with probability one in that chance.
    pub fn pierce_wall(&mut self) -> (r: bool)
        ensures
            final(self).same_shape(old(self)),
            final(self).cells() == old(self).cells(),
            old(self).pierce_chance() == 0 ==> !r,
            old(self).pierce_chance() == 1 ==> r,
    {
        self.wall_pierce_chance != 0 && one_in(&mut self.rng, self.wall_pierce_chance)
    }

    /// Writes `new` at `p`. A random byte is always drawn first; where the
    /// write error chance is nonzero, that byte is stored instead with
    /// probability one in that chance.
    pub fn set(&mut self, p: Point, new: u8)
        requires
            old(self).wf(),
            old(self).holds(p),
        ensures
            final(self).wf(),
            final(self).same_shape(old(self)),
            final(self).cells() == old(self).cells().update(
                old(self).index_of(p),
                final(self).at(p),
            ),
            old(self).fault_chance() == 0 ==> final(self).at(p) == new,
    {
        let idx = self.index(p);
        let wrong = draw_byte(&mut self.rng);
        let value = if self.write_error_chance > 0 && one_in(&mut self.rng, self.write_error_chance) {
            wrong
        } else {
            new
        };
        self.data.set(idx, value);
    }

    /// The `w` by `h` window whose top-left corner is `start` (taken modulo
    /// the grid's size), row by row, wrapping around the edges; each entry
    /// holds a point and its byte.
    pub fn view(&self, start: Point, w: usize, h: usize) -> (r: Vec<Vec<(Point, u8)>>)
        requires
            self.wf(),
        ensures
            r@.len() == h,
            forall|i: int| 0 <= i < h ==> (#[trigger] r@[i])@.len() == w,
            forall|i: int, j: int|
                0 <= i < h && 0 <= j < w ==> {
                    let q = Point {
                        x: wrap(start.x + j, self.spec_width()) as usize,
                        y: wrap(start.y + i, self.spec_height()) as usize,
                    };
                    #[trigger] r@[i]@[j] == (q, self.at(q))
                },
    {
        let corner = Point { x: start.x % self.width, y: start.y % self.height };
        let r = self.view_from(corner, w, h);
        proof {
            let (ww, hh) = (self.width as int, self.height as int);
            assert forall|i: int, j: int| 0 <= i < h && 0 <= j < w implies {
                let q = Point {
                    x: wrap(start.x + j, self.spec_width()) as usize,
                    y: wrap(start.y + i, self.spec_height()) as usize,
                };
                #[trigger] r@[i]@[j] == (q, self.at(q))
            } by {
                vstd::arithmetic::div_mod::lemma_add_mod_noop(start.x as int, j, ww);
                vstd::arithmetic::div_mod::lemma_add_mod_noop(corner.x as int, j, ww);
                vstd::arithmetic::div_mod::lemma_mod_twice(start.x as int, ww);
                vstd::arithmetic::div_mod::lemma_add_mod_noop(start.y as int, i, hh);
                vstd::arithmetic::div_mod::lemma_add_mod_noop(corner.y as int, i, hh);
                vstd::arithmetic::div_mod::lemma_mod_twice(start.y as int, hh);
            }
        }
        r
    }

    /// `view` from a corner on the grid.
    fn view_from(&self, start: Point, w: usize, h: usize) -> (r: Vec<Vec<(Point, u8)>>)
        requires
            self.wf(),
            self.holds(start),
        ensures
            r@.len() == h,
            forall|i: int| 0 <= i < h ==> (#[trigger] r@[i])@.len() == w,
            forall|i: int, j: int|
                0 <= i < h && 0 <= j < w ==> {
                    let q = Point {
                        x: wrap(start.x + j, self.spec_width()) as usize,
                        y: wrap(start.y + i, self.spec_height()) as usize,
                    };
                    #[trigger] r@[i]@[j] == (q, self.at(q))
                },
    {
        let mut rows: Vec<Vec<(Point, u8)>> = Vec::new();
        proof {
            lemma_wrap_basics(start.x as int, self.width as int);
            lemma_wrap_basics(start.y as int, self.height as int);
        }
        let mut y = start.y;
        let mut i: usize = 0;
        while i < h
            invariant
                self.wf(),
                self.holds(start),
                i <= h,
                y < self.height,
                y as int == wrap(start.y + i, self.height as int),
                rows@.len() == i,
                forall|a: int| 0 <= a < i ==> (#[trigger] rows@[a])@.len() == w,
                forall|a: int, j: int|
                    0 <= a < i && 0 <= j < w ==> {
                        let q = Point {
                            x: wrap(start.x + j, self.spec_width()) as usize,
                            y: wrap(start.y + a, self.spec_height()) as usize,
                        };
                        #[trigger] rows@[a]@[j] == (q, self.at(q))
                    },
            decreases h - i,
        {
            let mut row: Vec<(Point, u8)> = Vec::new();
            proof {
                lemma_wrap_basics(start.x as int, self.width as int);
            }
            let mut x = start.x;
            let mut j: usize = 0;
            while j < w
                invariant
                    self.wf(),
                    self.holds(start),
                    j <= w,
                    x < self.width,
                    y < self.height,
                    x as int == wrap(start.x + j, self.width as int),
                    y as int == wrap(start.y + i, self.height as int),
                    row@.len() == j,
                    forall|b: int|
                        0 <= b < j ==> {
                            let q = Point {
                                x: wrap(start.x + b, self.spec_width()) as usize,
                                y: wrap(start.y + i, self.spec_height()) as usize,
                            };
                            #[trigger] row@[b] == (q, self.at(q))
                        },
                decreases w - j,
            {
                let q = Point { x, y };
                row.push((q, self.at_point(q)));
                proof {
                    lemma_wrap_next(start.x as int, j as int, self.width as int);
                }
                x = if x + 1 == self.width { 0 } else { x + 1 };
                j = j + 1;
            }
            rows.push(row);
            proof {
                lemma_wrap_next(start.y as int, i as int, self.height as int);
            }
            y = if y + 1 == self.height { 0 } else { y + 1 };
            i = i + 1;
        }
        rows
    }

    /// The whole grid, row by row.
    pub fn view_all(&self) -> (r: Vec<Vec<(Point, u8)>>)
        requires
            self.wf(),
        ensures
            r@.len() == self.spec_height(),
            forall|i: int| 0 <= i < self.spec_height() ==> (#[trigger] r@[i])@.len() == self.spec_width(),
            forall|i: int, j: int|
                0 <= i < self.spec_height() && 0 <= j < self.spec_width() ==> {
                    let q = Point { x: j as usize, y: i as usize };
                    #[trigger] r@[i]@[j] == (q, self.at(q))
                },
    {
        let r = self.view_from(Point { x: 0, y: 0 }, self.width, self.height);
        proof {
            assert forall|i: int, j: int|
                0 <= i < self.spec_height() && 0 <= j < self.spec_width() implies {
                    let q = Point { x: j as usize, y: i as usize };
                    #[trigger] r@[i]@[j] == (q, self.at(q))
                } by {
                lemma_wrap_basics(i, self.spec_height());
                lemma_wrap_basics(j, self.spec_width());
            }
        }
        r
    }
}

/// A row-major index of a point on a `w` by `h` grid lies in `0..w*h`.
pub proof fn lemma_index_in_range(p: Point, w: int, h: int)
    requires
        p.in_bounds(w, h),
    ensures
        0 <= p.y * w + p.x < w * h,
{
    assert(0 <= p.y * w + p.x < w * h) by (nonlinear_arith)
        requires
            0 <= p.x < w,
            0 <= p.y < h,
    ;
}

/// One more step along a wrapped coordinate.
proof fn lemma_wrap_next(start: int, k: int, m: int)
    requires
        m > 0,
        0 <= start < m,
        0 <= k,
    ensures
        ({
            let cur = wrap(start + k, m);
            wrap(start + k + 1, m) == if cur + 1 == m { 0 } else { cur + 1 }
        }),
{
    let q = (start + k) / m;
    lemma_fundamental_div_mod(start + k, m);
    vstd::arithmetic::div_mod::lemma_mod_bound(start + k, m);
    let cur = (start + k) % m;
    if cur + 1 == m {
        assert(start + k + 1 == (q + 1) * m + 0) by (nonlinear_arith)
            requires
                start + k == m * q + cur,
                cur + 1 == m,
        ;
        lemma_mod_from_parts(start + k + 1, m, q + 1, 0);
    } else {
        lemma_mod_from_parts(start + k + 1, m, q, cur + 1);
    }
}

/// Two points of a grid with the same row-major index are the same point.
pub proof fn lemma_index_injective(p: Point, q: Point, w: int, h: int)
    requires
        p.in_bounds(w, h),
        q.in_bounds(w, h),
        p.y * w + p.x == q.y * w + q.x,
    ensures
        p == q,
{
    let i = p.y * w + p.x;
    lemma_fundamental_div_mod_converse(i, w, p.y as int, p.x as int);
    lemma_fundamental_div_mod_converse(i, w, q.y as int, q.x as int);
}

/// One step forward from a wrapped value wraps again at the end.
pub proof fn lemma_wrap_succ(v: int, m: int)
    requires
        m > 0,
    ensures
        wrap(wrap(v, m) + 1, m) == wrap(v + 1, m),
        wrap(v + 1, m) == if wrap(v, m) + 1 == m { 0 } else { wrap(v, m) + 1 },
{
    lemma_fundamental_div_mod(v, m);
    vstd::arithmetic::div_mod::lemma_mod_bound(v, m);
    let q = v / m;
    let c = v % m;
    if c + 1 == m {
        assert(v + 1 == (q + 1) * m + 0) by (nonlinear_arith)
            requires
                v == m * q + c,
                c + 1 == m,
        ;
        lemma_mod_from_parts(v + 1, m, q + 1, 0);
        lemma_mod_from_parts(c + 1, m, 1, 0);
    } else {
        assert(v + 1 == q * m + (c + 1)) by (nonlinear_arith)
            requires
                v == m * q + c,
        ;
        lemma_mod_from_parts(v + 1, m, q, c + 1);
        lemma_mod_from_parts(c + 1, m, 0, c + 1);
    }
}

/// Distinct steps fewer than `m` apart land on distinct wrapped values.
pub proof fn lemma_wrap_apart(a: int, d: int, m: int)
    requires
        0 < d < m,
    ensures
        wrap(a + d, m) != wrap(a, m),
{
    vstd::arithmetic::div_mod::lemma_fundamental_div_mod(a, m);
    vstd::arithmetic::div_mod::lemma_fundamental_div_mod(a + d, m);
    let q1 = a / m;
    let q2 = (a + d) / m;
    if wrap(a + d, m) == wrap(a, m) {
        assert(d == (q2 - q1) * m) by (nonlinear_arith)
            requires
                a == m * q1 + a % m,
                a + d == m * q2 + (a + d) % m,
                (a + d) % m == a % m,
        ;
        assert(false) by (nonlinear_arith)
            requires
                d == (q2 - q1) * m,
                0 < d < m,
        ;
    }
}

/// Every step moves to a point of the grid; a step left undoes a step right
/// and a step up undoes a step down, and the other way round.
pub proof fn lemma_steps_invert(p: Point, w: usize, h: usize)
    requires
        w > 0,
        h > 0,
        p.in_bounds(w as int, h as int),
    ensures
        forall|d: Dir| #[trigger] p.moved(d, 1, w as int, h as int).in_bounds(w as int, h as int),
        p.moved(Dir::L, 1, w as int, h as int).moved(Dir::R, 1, w as int, h as int) == p,
        p.moved(Dir::R, 1, w as int, h as int).moved(Dir::L, 1, w as int, h as int) == p,
        p.moved(Dir::U, 1, w as int, h as int).moved(Dir::D, 1, w as int, h as int) == p,
        p.moved(Dir::D, 1, w as int, h as int).moved(Dir::U, 1, w as int, h as int) == p,
{
    lemma_wrap_basics(p.x as int, w as int);
    lemma_wrap_basics(p.y as int, h as int);
    if p.x == 0 {
        lemma_wrap_basics(w - 1, w as int);
    } else {
        lemma_wrap_basics(p.x - 1, w as int);
    }
    if p.x == w - 1 {
        lemma_wrap_basics(0, w as int);
    } else {
        lemma_wrap_basics(p.x + 1, w as int);
    }
    if p.y == 0 {
        lemma_wrap_basics(h - 1, h as int);
    } else {
        lemma_wrap_basics(p.y - 1, h as int);
    }
    if p.y == h - 1 {
        lemma_wrap_basics(0, h as int);
    } else {
        lemma_wrap_basics(p.y + 1, h as int);
    }
    assert forall|d: Dir| #[trigger] p.moved(d, 1, w as int, h as int).in_bounds(w as int, h as int) by {
        vstd::arithmetic::div_mod::lemma_mod_bound(p.x + d.dx(), w as int);
        vstd::arithmetic::div_mod::lemma_mod_bound(p.y + d.dy(), h as int);
    }
}

/// Distance is symmetric, and no point is farther from another than half the
/// larger side of the grid.
pub proof fn lemma_dist_symmetric_bounded(a: Point, b: Point, width: int, height: int)
    requires
        width > 0,
        height > 0,
        a.in_bounds(width, height),
        b.in_bounds(width, height),
    ensures
        a.dist(b, width, height) == b.dist(a, width, height),
        0 <= a.dist(b, width, height),
        a.dist(b, width, height) <= if width / 2 >= height / 2 { width / 2 } else { height / 2 },
{
}

/// The x coordinate of a difference is the difference of the x coordinates,
/// modulo the width, and likewise for y; the result lies on the grid.
pub proof fn lemma_minus_in_bounds(a: Point, b: Point, w: usize, h: usize)
    requires
        w > 0,
        h > 0,
    ensures
        a.minus(b, w as int, h as int).x as int == (a.x - b.x) % (w as int),
        a.minus(b, w as int, h as int).y as int == (a.y - b.y) % (h as int),
        a.minus(b, w as int, h as int).in_bounds(w as int, h as int),
{
    vstd::arithmetic::div_mod::lemma_mod_bound(a.x - b.x, w as int);
    vstd::arithmetic::div_mod::lemma_mod_bound(a.y - b.y, h as int);
}

} // verus!
