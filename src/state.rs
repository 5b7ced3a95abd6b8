//! The organism virtual machine: per-organism registers and the opcode
//! dispatcher.

use vstd::prelude::*;
use crate::grid::{Grid, Point, Dir, wrap, circ_dist, lemma_wrap_basics, lemma_wrap_succ, lemma_index_in_range};
use crate::instruction::{Category, Instruction, WALL_BYTE};
use vstd::arithmetic::div_mod::{
    lemma_fundamental_div_mod, lemma_mod_multiples_vanish, lemma_mod_decreases, lemma_mod_bound,
};

verus! {

/// The largest selection radius.
pub const MAX_RADIUS: u8 = 10;

/// The side of the square of radius `r`.
pub open spec fn side(r: int) -> int {
    2 * r + 1
}

/// The radius `k` in `0..=10` of a clipboard of `len == (2k+1)²` bytes, or
/// -1 where `len` is no such square.
pub open spec fn clip_radius(len: int) -> int {
    if len == 1 {
        0
    } else if len == 9 {
        1
    } else if len == 25 {
        2
    } else if len == 49 {
        3
    } else if len == 81 {
        4
    } else if len == 121 {
        5
    } else if len == 169 {
        6
    } else if len == 225 {
        7
    } else if len == 289 {
        8
    } else if len == 361 {
        9
    } else if len == 441 {
        10
    } else {
        -1
    }
}

/// The `k`-th point of the square of radius `r` around `center`: the square
/// is enumerated column by column from its low corner.
pub open spec fn selection_at(center: Point, r: int, k: int, w: int, h: int) -> Point {
    Point {
        x: wrap(center.x - r + k / side(r), w) as usize,
        y: wrap(center.y - r + k % side(r), h) as usize,
    }
}

/// The square root of an odd square between 1 and 441.
fn isqrt(n: usize) -> (r: u8)
    requires
        clip_radius(n as int) >= 0,
    ensures
        r as int == side(clip_radius(n as int)),
{
    match n {
        1 => 1,
        9 => 3,
        25 => 5,
        49 => 7,
        81 => 9,
        121 => 11,
        169 => 13,
        225 => 15,
        289 => 17,
        361 => 19,
        _ => 21,
    }
}

/// The radius of the square that a clipboard holds.
fn selection_radius(selection: &Vec<u8>) -> (r: u8)
    requires
        clip_radius(selection@.len() as int) >= 0,
    ensures
        r as int == clip_radius(selection@.len() as int),
{
    (isqrt(selection.len()) - 1) / 2
}

/// What a single instruction asks of the scheduler.
pub enum Response {
    /// Stay alive and skip the next `n` cycles.
    Delay(u8),
    /// Add an organism with the given state.
    Fork(OrganismState),
    /// Remove this organism.
    Die,
}

/// The mathematical content of a `Response`.
pub enum Outcome {
    Delay(u8),
    Fork(StateModel),
    Die,
}

impl View for Response {
    type V = Outcome;

    open spec fn view(&self) -> Outcome {
        match self {
            Response::Delay(n) => Outcome::Delay(*n),
            Response::Fork(s) => Outcome::Fork(s@),
            Response::Die => Outcome::Die,
        }
    }
}

/// The execution state of one organism.
pub struct OrganismState {
    /// Instruction pointer.
    pub ip: Point,
    /// The direction in which the instruction pointer advances.
    pub dir: Dir,
    /// The position that reads, writes, copies and pastes act on.
    pub cursor: Point,
    /// A copied square of bytes, of odd side 1 to 21.
    pub clipboard: Vec<u8>,
    /// Selection radius, 0 to 10.
    pub r: u8,
    /// General-purpose control flag.
    pub flag: bool,
    /// General-purpose register AX.
    pub ax: u8,
    /// General-purpose register BX.
    pub bx: u8,
    /// Tape memory, grown on demand.
    pub storage: Vec<u8>,
    /// Memory pointer into `storage`.
    pub mp: usize,
}

/// The mathematical content of an `OrganismState`.
pub struct StateModel {
    pub ip: Point,
    pub dir: Dir,
    pub cursor: Point,
    pub clipboard: Seq<u8>,
    pub r: u8,
    pub flag: bool,
    pub ax: u8,
    pub bx: u8,
    pub storage: Seq<u8>,
    pub mp: usize,
}

impl View for OrganismState {
    type V = StateModel;

    open spec fn view(&self) -> StateModel {
        StateModel {
            ip: self.ip,
            dir: self.dir,
            cursor: self.cursor,
            clipboard: self.clipboard@,
            r: self.r,
            flag: self.flag,
            ax: self.ax,
            bx: self.bx,
            storage: self.storage@,
            mp: self.mp,
        }
    }
}

impl StateModel {
    /// Both positions lie on a `w` by `h` grid, the radius is at most 10 and
    /// the clipboard is a square of odd side.
    pub open spec fn valid(self, w: int, h: int) -> bool {
        &&& self.ip.in_bounds(w, h)
        &&& self.cursor.in_bounds(w, h)
        &&& self.r <= MAX_RADIUS
        &&& clip_radius(self.clipboard.len() as int) >= 0
    }

    /// The byte under the memory pointer; 0 past the end of the tape.
    pub open spec fn stored(self) -> u8 {
        if self.mp < self.storage.len() {
            self.storage[self.mp as int]
        } else {
            0
        }
    }

    /// The tape after storing `v` under the memory pointer, grown with
    /// zeros as far as needed.
    pub open spec fn tape_with(self, v: u8) -> Seq<u8> {
        let grown = if self.mp < self.storage.len() {
            self.storage
        } else {
            self.storage + Seq::new((self.mp + 1 - self.storage.len()) as nat, |i: int| 0u8)
        };
        grown.update(self.mp as int, v)
    }

    pub open spec fn with_stored(self, v: u8) -> StateModel {
        StateModel { storage: self.tape_with(v), ..self }
    }

    /// The radius register after an attempt to set it to `v`: values above
    /// 10 are ignored.
    pub open spec fn with_radius(self, v: u8) -> StateModel {
        if v <= MAX_RADIUS {
            StateModel { r: v, ..self }
        } else {
            self
        }
    }

    /// The state after an attempt to move the cursor to `p`, which fails on
    /// a wall.
    pub open spec fn cursor_to(self, g: Grid, p: Point) -> StateModel {
        if g.at(p) != WALL_BYTE {
            StateModel { cursor: p, ..self }
        } else {
            self
        }
    }

    pub open spec fn mp_down(self, n: int) -> StateModel {
        StateModel { mp: if self.mp >= n { (self.mp - n) as usize } else { 0 }, ..self }
    }

    pub open spec fn mp_up(self, n: int) -> StateModel {
        StateModel {
            mp: if self.mp + n <= usize::MAX { (self.mp + n) as usize } else { usize::MAX },
            ..self
        }
    }
}

/// A new organism at `pos`: moving right, cursor on itself, a one-byte
/// clipboard holding 0, empty tape, all registers clear.
pub open spec fn fresh_state(pos: Point) -> StateModel {
    StateModel {
        ip: pos,
        dir: Dir::R,
        cursor: pos,
        clipboard: seq![0u8],
        r: 0,
        flag: false,
        ax: 0,
        bx: 0,
        storage: Seq::empty(),
        mp: 0,
    }
}

/// Up to `n` attempts to move the cursor from `c` in direction `d`, stopping
/// at the first wall: the cursor's end position and the number of attempts,
/// the failed one included.
pub open spec fn walk(g: Grid, c: Point, d: Dir, n: nat) -> (Point, nat)
    decreases n,
{
    if n == 0 {
        (c, 0)
    } else {
        let next = g.step(c, d, 1);
        if g.at(next) == WALL_BYTE {
            (c, 1)
        } else {
            let rest = walk(g, next, d, (n - 1) as nat);
            (rest.0, rest.1 + 1)
        }
    }
}

pub open spec fn flag_byte(b: bool) -> u8 {
    if b {
        1
    } else {
        0
    }
}

/// The bytes of the square of radius `r` around `center`, in selection
/// order.
pub open spec fn square_bytes(g: Grid, center: Point, r: int) -> Seq<u8> {
    Seq::new(
        (side(r) * side(r)) as nat,
        |k: int| g.at(selection_at(center, r, k, g.spec_width(), g.spec_height())),
    )
}

/// `v` reduced to a byte: arithmetic on the registers wraps modulo 256.
pub open spec fn byte(v: int) -> u8 {
    (v % 256) as u8
}

/// The effect of an instruction of halting, forking and doing nothing.
pub open spec fn special_effect(s: StateModel, g: Grid, ins: Instruction) -> (StateModel, Outcome) {
    match ins {
        Instruction::Halt | Instruction::Wall => (s, Outcome::Die),
        Instruction::Nop => (s, Outcome::Delay(0)),
        Instruction::FlagFork => (StateModel { flag: false, ..s }, Outcome::Fork(StateModel { flag: true, ..s })),
        Instruction::CursorFork => (s, Outcome::Fork(StateModel { ip: s.cursor, ..s })),
        _ => (s, Outcome::Delay(0)),
    }
}

/// The effect of an instruction of arithmetic on the two registers.
pub open spec fn calculation_effect(s: StateModel, g: Grid, ins: Instruction) -> (StateModel, Outcome) {
    match ins {
        Instruction::ZeroA => (StateModel { ax: 0, ..s }, Outcome::Delay(0)),
        Instruction::ZeroB => (StateModel { bx: 0, ..s }, Outcome::Delay(0)),
        Instruction::CopyA => (StateModel { bx: s.ax, ..s }, Outcome::Delay(0)),
        Instruction::CopyB => (StateModel { ax: s.bx, ..s }, Outcome::Delay(0)),
        Instruction::SwapAB => (StateModel { ax: s.bx, bx: s.ax, ..s }, Outcome::Delay(0)),
        Instruction::SumA => (StateModel { ax: byte(s.ax + s.bx), ..s }, Outcome::Delay(0)),
        Instruction::SumB => (StateModel { bx: byte(s.ax + s.bx), ..s }, Outcome::Delay(0)),
        Instruction::NegateA => (StateModel { ax: byte(256 - s.ax), ..s }, Outcome::Delay(0)),
        Instruction::NegateB => (StateModel { bx: byte(256 - s.bx), ..s }, Outcome::Delay(0)),
        Instruction::IncA => (StateModel { ax: byte(s.ax + 1), ..s }, Outcome::Delay(0)),
        Instruction::IncB => (StateModel { bx: byte(s.bx + 1), ..s }, Outcome::Delay(0)),
        Instruction::DecA => (StateModel { ax: byte(s.ax + 255), ..s }, Outcome::Delay(0)),
        Instruction::DecB => (StateModel { bx: byte(s.bx + 255), ..s }, Outcome::Delay(0)),
        Instruction::MulA => (StateModel { ax: byte(s.ax * s.bx), ..s }, Outcome::Delay(0)),
        Instruction::MulB => (StateModel { bx: byte(s.ax * s.bx), ..s }, Outcome::Delay(0)),
        Instruction::DoubleA => (StateModel { ax: byte(2 * s.ax), ..s }, Outcome::Delay(0)),
        Instruction::DoubleB => (StateModel { bx: byte(2 * s.bx), ..s }, Outcome::Delay(0)),
        Instruction::HalveA => (StateModel { ax: s.ax / 2, ..s }, Outcome::Delay(0)),
        Instruction::HalveB => (StateModel { bx: s.bx / 2, ..s }, Outcome::Delay(0)),
        Instruction::Mod2A => (StateModel { ax: s.ax % 2, ..s }, Outcome::Delay(0)),
        Instruction::Mod2B => (StateModel { bx: s.bx % 2, ..s }, Outcome::Delay(0)),
        Instruction::BitAndA => (StateModel { ax: s.ax & s.bx, ..s }, Outcome::Delay(0)),
        Instruction::BitAndB => (StateModel { bx: s.bx & s.ax, ..s }, Outcome::Delay(0)),
        Instruction::BitOrA => (StateModel { ax: s.ax | s.bx, ..s }, Outcome::Delay(0)),
        Instruction::BitOrB => (StateModel { bx: s.bx | s.ax, ..s }, Outcome::Delay(0)),
        Instruction::BitXorA => (StateModel { ax: s.ax ^ s.bx, ..s }, Outcome::Delay(0)),
        Instruction::BitXorB => (StateModel { bx: s.bx ^ s.ax, ..s }, Outcome::Delay(0)),
        Instruction::EqA => (StateModel { ax: flag_byte(s.ax == s.bx), ..s }, Outcome::Delay(0)),
        Instruction::EqB => (StateModel { bx: flag_byte(s.ax == s.bx), ..s }, Outcome::Delay(0)),
        Instruction::NeqA => (StateModel { ax: flag_byte(s.ax != s.bx), ..s }, Outcome::Delay(0)),
        Instruction::NeqB => (StateModel { bx: flag_byte(s.ax != s.bx), ..s }, Outcome::Delay(0)),
        Instruction::NonzeroA => (StateModel { ax: flag_byte(s.ax != 0), ..s }, Outcome::Delay(0)),
        Instruction::NonzeroB => (StateModel { bx: flag_byte(s.bx != 0), ..s }, Outcome::Delay(0)),
        Instruction::IsZeroA => (StateModel { ax: flag_byte(s.ax == 0), ..s }, Outcome::Delay(0)),
        Instruction::IsZeroB => (StateModel { bx: flag_byte(s.bx == 0), ..s }, Outcome::Delay(0)),
        _ => (s, Outcome::Delay(0)),
    }
}

/// The effect of an instruction of waiting, steering and the flag.
pub open spec fn control_effect(s: StateModel, g: Grid, ins: Instruction) -> (StateModel, Outcome) {
    match ins {
        Instruction::WaitA => (s, Outcome::Delay(s.ax)),
        Instruction::WaitB => (s, Outcome::Delay(s.bx)),
        Instruction::MoveL => (StateModel { dir: Dir::L, ..s }, Outcome::Delay(0)),
        Instruction::MoveR => (StateModel { dir: Dir::R, ..s }, Outcome::Delay(0)),
        Instruction::MoveU => (StateModel { dir: Dir::U, ..s }, Outcome::Delay(0)),
        Instruction::MoveD => (StateModel { dir: Dir::D, ..s }, Outcome::Delay(0)),
        Instruction::CondMoveL => (if s.flag { StateModel { dir: Dir::L, ..s } } else { s }, Outcome::Delay(0)),
        Instruction::CondMoveR => (if s.flag { StateModel { dir: Dir::R, ..s } } else { s }, Outcome::Delay(0)),
        Instruction::CondMoveU => (if s.flag { StateModel { dir: Dir::U, ..s } } else { s }, Outcome::Delay(0)),
        Instruction::CondMoveD => (if s.flag { StateModel { dir: Dir::D, ..s } } else { s }, Outcome::Delay(0)),
        Instruction::CondHalt => (s, if s.flag { Outcome::Die } else { Outcome::Delay(0) }),
        Instruction::ReflectAll => (StateModel { dir: s.dir.reversed(), ..s }, Outcome::Delay(0)),
        Instruction::ReflectX => (StateModel { dir: s.dir.x_reflected(), ..s }, Outcome::Delay(0)),
        Instruction::ReflectY => (StateModel { dir: s.dir.y_reflected(), ..s }, Outcome::Delay(0)),
        Instruction::ReflectFwd => (StateModel { dir: s.dir.fwd_reflected(), ..s }, Outcome::Delay(0)),
        Instruction::ReflectBwd => (StateModel { dir: s.dir.bwd_reflected(), ..s }, Outcome::Delay(0)),
        Instruction::SetFlag => (StateModel { flag: true, ..s }, Outcome::Delay(0)),
        Instruction::ClearFlag => (StateModel { flag: false, ..s }, Outcome::Delay(0)),
        Instruction::FlagZeroA => (StateModel { flag: s.ax == 0, ..s }, Outcome::Delay(0)),
        Instruction::FlagNonzeroA => (StateModel { flag: s.ax != 0, ..s }, Outcome::Delay(0)),
        Instruction::FlagZeroB => (StateModel { flag: s.bx == 0, ..s }, Outcome::Delay(0)),
        Instruction::FlagNonzeroB => (StateModel { flag: s.bx != 0, ..s }, Outcome::Delay(0)),
        Instruction::FlagEq => (StateModel { flag: s.ax == s.bx, ..s }, Outcome::Delay(0)),
        Instruction::FlagNeq => (StateModel { flag: s.ax != s.bx, ..s }, Outcome::Delay(0)),
        Instruction::FlagNot => (StateModel { flag: !s.flag, ..s }, Outcome::Delay(0)),
        Instruction::FlagToA => (StateModel { ax: flag_byte(s.flag), ..s }, Outcome::Delay(0)),
        Instruction::FlagToB => (StateModel { bx: flag_byte(s.flag), ..s }, Outcome::Delay(0)),
        _ => (s, Outcome::Delay(0)),
    }
}

/// The effect of an instruction of moving the cursor.
pub open spec fn cursor_effect(s: StateModel, g: Grid, ins: Instruction) -> (StateModel, Outcome) {
    match ins {
        Instruction::CursorL => (s.cursor_to(g, g.step(s.cursor, Dir::L, 1)), Outcome::Delay(0)),
        Instruction::CursorR => (s.cursor_to(g, g.step(s.cursor, Dir::R, 1)), Outcome::Delay(0)),
        Instruction::CursorU => (s.cursor_to(g, g.step(s.cursor, Dir::U, 1)), Outcome::Delay(0)),
        Instruction::CursorD => (s.cursor_to(g, g.step(s.cursor, Dir::D, 1)), Outcome::Delay(0)),
        Instruction::CursorLTimesA => (StateModel { cursor: walk(g, s.cursor, Dir::L, s.ax as nat).0, ..s }, Outcome::Delay(walk(g, s.cursor, Dir::L, s.ax as nat).1 as u8)),
        Instruction::CursorRTimesA => (StateModel { cursor: walk(g, s.cursor, Dir::R, s.ax as nat).0, ..s }, Outcome::Delay(walk(g, s.cursor, Dir::R, s.ax as nat).1 as u8)),
        Instruction::CursorUTimesA => (StateModel { cursor: walk(g, s.cursor, Dir::U, s.ax as nat).0, ..s }, Outcome::Delay(walk(g, s.cursor, Dir::U, s.ax as nat).1 as u8)),
        Instruction::CursorDTimesA => (StateModel { cursor: walk(g, s.cursor, Dir::D, s.ax as nat).0, ..s }, Outcome::Delay(walk(g, s.cursor, Dir::D, s.ax as nat).1 as u8)),
        Instruction::CursorLTimesB => (StateModel { cursor: walk(g, s.cursor, Dir::L, s.bx as nat).0, ..s }, Outcome::Delay(walk(g, s.cursor, Dir::L, s.bx as nat).1 as u8)),
        Instruction::CursorRTimesB => (StateModel { cursor: walk(g, s.cursor, Dir::R, s.bx as nat).0, ..s }, Outcome::Delay(walk(g, s.cursor, Dir::R, s.bx as nat).1 as u8)),
        Instruction::CursorUTimesB => (StateModel { cursor: walk(g, s.cursor, Dir::U, s.bx as nat).0, ..s }, Outcome::Delay(walk(g, s.cursor, Dir::U, s.bx as nat).1 as u8)),
        Instruction::CursorDTimesB => (StateModel { cursor: walk(g, s.cursor, Dir::D, s.bx as nat).0, ..s }, Outcome::Delay(walk(g, s.cursor, Dir::D, s.bx as nat).1 as u8)),
        Instruction::CursorHome => (s.cursor_to(g, s.ip), Outcome::Delay(0)),
        _ => (s, Outcome::Delay(0)),
    }
}

/// The effect of an instruction of the radius, the cursor's cell, copy and paste.
pub open spec fn selection_effect(s: StateModel, g: Grid, ins: Instruction) -> (StateModel, Outcome) {
    match ins {
        Instruction::RadiusA => (s.with_radius(s.ax), Outcome::Delay(0)),
        Instruction::RadiusB => (s.with_radius(s.bx), Outcome::Delay(0)),
        Instruction::RadiusReset => (StateModel { r: 0, ..s }, Outcome::Delay(0)),
        Instruction::RadiusToA => (StateModel { ax: s.r, ..s }, Outcome::Delay(0)),
        Instruction::RadiusToB => (StateModel { bx: s.r, ..s }, Outcome::Delay(0)),
        Instruction::IncRadius => (s.with_radius((s.r + 1) as u8), Outcome::Delay(0)),
        Instruction::DecRadius => (s.with_radius(if s.r > 0 { (s.r - 1) as u8 } else { 0 }), Outcome::Delay(0)),
        Instruction::CursorA => (s, Outcome::Delay(0)),
        Instruction::CursorB => (s, Outcome::Delay(0)),
        Instruction::CursorToA => (StateModel { ax: g.at(s.cursor), ..s }, Outcome::Delay(0)),
        Instruction::CursorToB => (StateModel { bx: g.at(s.cursor), ..s }, Outcome::Delay(0)),
        Instruction::Copy => (StateModel { clipboard: square_bytes(g, s.cursor, s.r as int), ..s }, Outcome::Delay(0)),
        Instruction::Paste => (s, Outcome::Delay(side(clip_radius(s.clipboard.len() as int)) as u8)),
        _ => (s, Outcome::Delay(0)),
    }
}

/// The effect of an instruction of the tape.
pub open spec fn memory_effect(s: StateModel, g: Grid, ins: Instruction) -> (StateModel, Outcome) {
    match ins {
        Instruction::Pointer0 => (StateModel { mp: 0, ..s }, Outcome::Delay(0)),
        Instruction::PointerA => (StateModel { mp: s.ax as usize, ..s }, Outcome::Delay(0)),
        Instruction::PointerB => (StateModel { mp: s.bx as usize, ..s }, Outcome::Delay(0)),
        Instruction::PointerToA => (StateModel { ax: if s.mp <= 255 { s.mp as u8 } else { 255 }, ..s }, Outcome::Delay(0)),
        Instruction::PointerToB => (StateModel { bx: if s.mp <= 255 { s.mp as u8 } else { 255 }, ..s }, Outcome::Delay(0)),
        Instruction::PointerL => (s.mp_down(1), Outcome::Delay(0)),
        Instruction::PointerR => (s.mp_up(1), Outcome::Delay(0)),
        Instruction::PointerLTimesA => (s.mp_down(s.ax as int), Outcome::Delay(0)),
        Instruction::PointerRTimesA => (s.mp_up(s.ax as int), Outcome::Delay(0)),
        Instruction::PointerLTimesB => (s.mp_down(s.bx as int), Outcome::Delay(0)),
        Instruction::PointerRTimesB => (s.mp_up(s.bx as int), Outcome::Delay(0)),
        Instruction::Pointee0 => (s.with_stored(0), Outcome::Delay(0)),
        Instruction::PointeeA => (s.with_stored(s.ax), Outcome::Delay(0)),
        Instruction::PointeeB => (s.with_stored(s.bx), Outcome::Delay(0)),
        Instruction::PointeeToA => (StateModel { ax: s.stored(), ..s }, Outcome::Delay(0)),
        Instruction::PointeeToB => (StateModel { bx: s.stored(), ..s }, Outcome::Delay(0)),
        Instruction::IncPointee => (s.with_stored(byte(s.stored() + 1)), Outcome::Delay(0)),
        Instruction::DecPointee => (s.with_stored(byte(s.stored() + 255)), Outcome::Delay(0)),
        Instruction::IncPointeeA => (s.with_stored(byte(s.stored() + s.ax)), Outcome::Delay(0)),
        Instruction::DecPointeeA => (s.with_stored(byte(s.stored() + 256 - s.ax)), Outcome::Delay(0)),
        Instruction::IncPointeeB => (s.with_stored(byte(s.stored() + s.bx)), Outcome::Delay(0)),
        Instruction::DecPointeeB => (s.with_stored(byte(s.stored() + 256 - s.bx)), Outcome::Delay(0)),
        _ => (s, Outcome::Delay(0)),
    }
}

/// What one instruction does to an organism's state, and what it asks of
/// the scheduler. The effects of writes and pastes on the grid are stated
/// by `run` itself.
pub open spec fn effect(s: StateModel, g: Grid, ins: Instruction) -> (StateModel, Outcome) {
    match ins.spec_category() {
        Category::Special | Category::Wall => special_effect(s, g, ins),
        Category::Calculation => calculation_effect(s, g, ins),
        Category::Control => control_effect(s, g, ins),
        Category::Cursor => cursor_effect(s, g, ins),
        Category::Selection => selection_effect(s, g, ins),
        Category::Memory => memory_effect(s, g, ins),
    }
}

/// Every cursor position a walk reaches is its start or a cell that is no
/// wall, and the walk makes at most `n` attempts.
pub proof fn lemma_walk_avoids_walls(g: Grid, c: Point, d: Dir, n: nat)
    ensures
        walk(g, c, d, n).0 == c || g.at(walk(g, c, d, n).0) != WALL_BYTE,
        walk(g, c, d, n).1 <= n,
    decreases n,
{
    if n > 0 {
        let next = g.step(c, d, 1);
        if g.at(next) != WALL_BYTE {
            lemma_walk_avoids_walls(g, next, d, (n - 1) as nat);
        }
    }
}

/// A cursor instruction never puts the cursor on a wall it was not
/// already on, and no cursor instruction writes to the grid.
pub proof fn lemma_cursor_avoids_walls(s: StateModel, g: Grid, ins: Instruction)
    requires
        ins.spec_category() == Category::Cursor,
    ensures
        ({
            let s1 = effect(s, g, ins).0;
            s1.cursor == s.cursor || g.at(s1.cursor) != WALL_BYTE
        }),
        !(ins is CursorA || ins is CursorB || ins is Paste),
{
    lemma_walk_avoids_walls(g, s.cursor, Dir::L, s.ax as nat);
    lemma_walk_avoids_walls(g, s.cursor, Dir::R, s.ax as nat);
    lemma_walk_avoids_walls(g, s.cursor, Dir::U, s.ax as nat);
    lemma_walk_avoids_walls(g, s.cursor, Dir::D, s.ax as nat);
    lemma_walk_avoids_walls(g, s.cursor, Dir::L, s.bx as nat);
    lemma_walk_avoids_walls(g, s.cursor, Dir::R, s.bx as nat);
    lemma_walk_avoids_walls(g, s.cursor, Dir::U, s.bx as nat);
    lemma_walk_avoids_walls(g, s.cursor, Dir::D, s.bx as nat);
}

/// `FlagFork` clears the parent's flag and forks a child whose flag is
/// set; `CursorFork` forks a child whose instruction pointer is the
/// parent's cursor. Otherwise the child is the parent.
pub proof fn lemma_forks(s: StateModel, g: Grid)
    ensures
        effect(s, g, Instruction::FlagFork) == (StateModel { flag: false, ..s }, Outcome::Fork(
            StateModel { flag: true, ..s },
        )),
        effect(s, g, Instruction::CursorFork) == (s, Outcome::Fork(StateModel { ip: s.cursor, ..s })),
{
}

/// After `Copy` the clipboard holds `(2r+1)²` bytes, `r` being the radius
/// at the time of the copy, and the state stays valid.
pub proof fn lemma_copy_shape(s: StateModel, g: Grid)
    requires
        s.valid(g.spec_width(), g.spec_height()),
    ensures
        effect(s, g, Instruction::Copy).0.clipboard.len() == side(s.r as int) * side(s.r as int),
        clip_radius(effect(s, g, Instruction::Copy).0.clipboard.len() as int) == s.r,
        effect(s, g, Instruction::Copy).0.valid(g.spec_width(), g.spec_height()),
{
    lemma_clip_radius_of_side(s.r as int);
    assert(side(s.r as int) * side(s.r as int) >= 0) by (nonlinear_arith);
}

/// With wall piercing off, a paste never overwrites a wall, and cursor
/// instructions never move the cursor onto one (`lemma_cursor_avoids_walls`).
pub proof fn lemma_paste_keeps_walls(g0: Grid, g1: Grid, cursor: Point, clip: Seq<u8>)
    requires
        pasted(g0, g1, cursor, clip),
        g0.pierce_chance() == 0,
    ensures
        forall|q: Point| g0.holds(q) && g0.at(q) == WALL_BYTE ==> #[trigger] g1.at(q) == WALL_BYTE,
{
}

/// Where a paste puts clipboard byte `i`: the offset of `q` from the low
/// corner of the square of radius `k` around `cursor`, column by column.
pub open spec fn paste_index(g: Grid, cursor: Point, k: int, q: Point) -> int {
    let low = Point {
        x: wrap(cursor.x - k, g.spec_width()) as usize,
        y: wrap(cursor.y - k, g.spec_height()) as usize,
    };
    let rel = q.minus(low, g.spec_width(), g.spec_height());
    rel.x * side(k) + rel.y
}

/// A write at `p` of `v`: only that cell may change, and it holds `v`
/// where write faults are off.
pub open spec fn written_at(g0: Grid, g1: Grid, p: Point, v: u8) -> bool {
    &&& g1.cells() == g0.cells().update(g0.index_of(p), g1.at(p))
    &&& g0.fault_chance() == 0 ==> g1.at(p) == v
}

/// Writes are exact and nothing in the square of radius `k` around
/// `cursor` stops a paste: walls are always pierced, or there are none.
pub open spec fn paste_unblocked(g0: Grid, cursor: Point, k: int) -> bool {
    &&& g0.fault_chance() == 0
    &&& (g0.pierce_chance() == 1 || forall|q: Point|
        g0.holds(q) && q.dist(cursor, g0.spec_width(), g0.spec_height()) <= k ==> #[trigger] g0.at(q)
            != WALL_BYTE)
}

/// What a paste of `clip` around `cursor` may do to the grid: cells outside
/// the square keep their bytes; a changed cell holds its clipboard byte
/// where write faults are off; walls stay where piercing is off; and the
/// cursor's cell, unless it is a wall, receives its clipboard byte; and
/// where nothing blocks the paste, every cell of the square receives its
/// clipboard byte.
pub open spec fn pasted(g0: Grid, g1: Grid, cursor: Point, clip: Seq<u8>) -> bool {
    let k = clip_radius(clip.len() as int);
    let w = g0.spec_width();
    let h = g0.spec_height();
    &&& forall|q: Point|
        g0.holds(q) && q.dist(cursor, w, h) > k ==> #[trigger] g1.at(q) == g0.at(q)
    &&& forall|q: Point|
        g0.holds(q) && g0.fault_chance() == 0 && #[trigger] g1.at(q) != g0.at(q) ==> g1.at(q)
            == clip[paste_index(g0, cursor, k, q)]
    &&& forall|q: Point|
        g0.holds(q) && g0.pierce_chance() == 0 && g0.at(q) == WALL_BYTE ==> #[trigger] g1.at(q)
            == WALL_BYTE
    &&& paste_unblocked(g0, cursor, k) ==> forall|q: Point|
        g0.holds(q) && q.dist(cursor, w, h) <= k ==> #[trigger] g1.at(q) == clip[paste_index(
            g0,
            cursor,
            k,
            q,
        )]
    &&& g0.at(cursor) != WALL_BYTE && g0.fault_chance() == 0 ==> g1.at(cursor) == clip[paste_index(
        g0,
        cursor,
        k,
        cursor,
    )]
}

/// What an instruction does to the grid: it writes only for `CursorA`,
/// `CursorB` and `Paste`; every other instruction leaves the grid, its
/// random source included, as it was.
pub open spec fn grid_after(g0: Grid, g1: Grid, s: StateModel, ins: Instruction) -> bool {
    &&& g1.wf()
    &&& g1.same_shape(&g0)
    &&& !(ins is CursorA || ins is CursorB || ins is Paste) ==> g1 == g0
    &&& ins is CursorA ==> written_at(g0, g1, s.cursor, s.ax)
    &&& ins is CursorB ==> written_at(g0, g1, s.cursor, s.bx)
    &&& ins is Paste ==> pasted(g0, g1, s.cursor, s.clipboard)
}

/// The number of unset marks.
pub open spec fn unmarked(s: Seq<bool>) -> nat
    decreases s.len(),
{
    if s.len() == 0 {
        0
    } else {
        unmarked(s.drop_last()) + if s.last() {
            0nat
        } else {
            1nat
        }
    }
}

/// Setting an unset mark leaves one fewer unset.
proof fn lemma_unmarked_set(s: Seq<bool>, i: int)
    requires
        0 <= i < s.len(),
        !s[i],
    ensures
        unmarked(s.update(i, true)) + 1 == unmarked(s),
    decreases s.len(),
{
    let t = s.update(i, true);
    if i == s.len() - 1 {
        assert(t.drop_last() =~= s.drop_last());
    } else {
        assert(t.drop_last() =~= s.drop_last().update(i, true));
        lemma_unmarked_set(s.drop_last(), i);
    }
}

/// A square of radius 0 to 10 has a clipboard of that radius.
proof fn lemma_clip_radius_of_side(r: int)
    requires
        0 <= r <= 10,
    ensures
        clip_radius(side(r) * side(r)) == r,
{
    if r == 0 {
        assert(side(r) * side(r) == 1) by (nonlinear_arith)
            requires
                r == 0,
        ;
    } else if r == 1 {
        assert(side(r) * side(r) == 9) by (nonlinear_arith)
            requires
                r == 1,
        ;
    } else if r == 2 {
        assert(side(r) * side(r) == 25) by (nonlinear_arith)
            requires
                r == 2,
        ;
    } else if r == 3 {
        assert(side(r) * side(r) == 49) by (nonlinear_arith)
            requires
                r == 3,
        ;
    } else if r == 4 {
        assert(side(r) * side(r) == 81) by (nonlinear_arith)
            requires
                r == 4,
        ;
    } else if r == 5 {
        assert(side(r) * side(r) == 121) by (nonlinear_arith)
            requires
                r == 5,
        ;
    } else if r == 6 {
        assert(side(r) * side(r) == 169) by (nonlinear_arith)
            requires
                r == 6,
        ;
    } else if r == 7 {
        assert(side(r) * side(r) == 225) by (nonlinear_arith)
            requires
                r == 7,
        ;
    } else if r == 8 {
        assert(side(r) * side(r) == 289) by (nonlinear_arith)
            requires
                r == 8,
        ;
    } else if r == 9 {
        assert(side(r) * side(r) == 361) by (nonlinear_arith)
            requires
                r == 9,
        ;
    } else {
        assert(side(r) * side(r) == 441) by (nonlinear_arith)
            requires
                r == 10,
        ;
    }
}

/// A clipboard of radius `k` holds exactly `(2k+1)²` bytes.
proof fn lemma_clip_len(len: int)
    requires
        clip_radius(len) >= 0,
    ensures
        len == side(clip_radius(len)) * side(clip_radius(len)),
        clip_radius(len) <= 10,
{
    let k = clip_radius(len);
    lemma_clip_radius_of_side(k);
}

/// Within distance `k` of `c`, a coordinate lies at most `2k` past the low
/// corner `c - k`.
proof fn lemma_rel_within(c: int, p: int, k: int, m: int)
    requires
        m > 0,
        0 <= c < m,
        0 <= p < m,
        0 <= k,
        crate::grid::circ_dist(p, c, m) <= k,
    ensures
        0 <= wrap(p - wrap(c - k, m), m) <= 2 * k,
{
    lemma_fundamental_div_mod(c - k, m);
    let q = (c - k) / m;
    let low = (c - k) % m;
    let d = p - c;
    let t: int = if -k <= d && d <= k {
        d + k
    } else if d > 0 {
        d + k - m
    } else {
        d + k + m
    };
    let j: int = if -k <= d && d <= k {
        q
    } else if d > 0 {
        q + 1
    } else {
        q - 1
    };
    assert(p - low == m * j + t) by (nonlinear_arith)
        requires
            c - k == m * q + low,
            d == p - c,
            (-k <= d && d <= k) ==> (t == d + k && j == q),
            (!(-k <= d && d <= k) && d > 0) ==> (t == d + k - m && j == q + 1),
            (!(-k <= d && d <= k) && d <= 0) ==> (t == d + k + m && j == q - 1),
    ;
    lemma_mod_multiples_vanish(j, t, m);
    lemma_mod_decreases(t as nat, m as nat);
    lemma_mod_bound(p - low, m);
}

/// On a circle of `m` positions, one of the two neighbours of `x` is
/// nearer to `c`, unless `x` is `c`.
proof fn lemma_step_closer(x: int, c: int, m: int)
    requires
        0 <= x < m,
        0 <= c < m,
        x != c,
    ensures
        circ_dist(if x == 0 { m - 1 } else { x - 1 }, c, m) < circ_dist(x, c, m) || circ_dist(
            if x + 1 == m { 0 } else { x + 1 },
            c,
            m,
        ) < circ_dist(x, c, m),
{
}

/// The coordinates of the four steps from a point of the grid.
proof fn lemma_step_coords(g: Grid, q: Point)
    requires
        g.wf(),
        g.holds(q),
    ensures
        g.step(q, Dir::L, 1) == (Point { x: (if q.x == 0 { g.spec_width() - 1 } else { q.x - 1 }) as usize, y: q.y }),
        g.step(q, Dir::R, 1) == (Point { x: (if q.x + 1 == g.spec_width() { 0 } else { q.x + 1 }) as usize, y: q.y }),
        g.step(q, Dir::U, 1) == (Point { x: q.x, y: (if q.y == 0 { g.spec_height() - 1 } else { q.y - 1 }) as usize }),
        g.step(q, Dir::D, 1) == (Point { x: q.x, y: (if q.y + 1 == g.spec_height() { 0 } else { q.y + 1 }) as usize }),
{
    let (w, h) = (g.spec_width(), g.spec_height());
    lemma_wrap_basics(q.x as int, w);
    lemma_wrap_basics(q.y as int, h);
    if q.x == 0 { lemma_wrap_basics(w - 1, w); } else { lemma_wrap_basics(q.x - 1, w); }
    if q.x + 1 == w { lemma_wrap_basics(0, w); } else { lemma_wrap_basics(q.x + 1, w); }
    if q.y == 0 { lemma_wrap_basics(h - 1, h); } else { lemma_wrap_basics(q.y - 1, h); }
    if q.y + 1 == h { lemma_wrap_basics(0, h); } else { lemma_wrap_basics(q.y + 1, h); }
}

/// A set of points that holds `c` and, with each of its points, every
/// neighbour within distance `k` of `c`, holds the whole square of radius
/// `k` around `c`.
proof fn lemma_square_reached(g: Grid, reached: Set<Point>, c: Point, k: int, q: Point)
    requires
        g.wf(),
        g.holds(c),
        g.holds(q),
        q.dist(c, g.spec_width(), g.spec_height()) <= k,
        reached.contains(c),
        forall|p: Point, d: Dir|
            reached.contains(p) && g.holds(p) && g.step(p, d, 1).dist(c, g.spec_width(), g.spec_height()) <= k
                ==> #[trigger] reached.contains(g.step(p, d, 1)),
    ensures
        reached.contains(q),
    decreases circ_dist(q.x as int, c.x as int, g.spec_width()) + circ_dist(
        q.y as int,
        c.y as int,
        g.spec_height(),
    ),
{
    let (w, h) = (g.spec_width(), g.spec_height());
    if q == c {
        return;
    }
    lemma_step_coords(g, q);
    let ql = g.step(q, Dir::L, 1);
    let qr = g.step(q, Dir::R, 1);
    let qu = g.step(q, Dir::U, 1);
    let qd = g.step(q, Dir::D, 1);
    crate::grid::lemma_steps_invert(q, w as usize, h as usize);
    if q.x != c.x {
        lemma_step_closer(q.x as int, c.x as int, w);
        if circ_dist(ql.x as int, c.x as int, w) < circ_dist(q.x as int, c.x as int, w) {
            lemma_square_reached(g, reached, c, k, ql);
            assert(g.step(ql, Dir::R, 1) == q);
        } else {
            lemma_square_reached(g, reached, c, k, qr);
            assert(g.step(qr, Dir::L, 1) == q);
        }
    } else {
        lemma_step_closer(q.y as int, c.y as int, h);
        if circ_dist(qu.y as int, c.y as int, h) < circ_dist(q.y as int, c.y as int, h) {
            lemma_square_reached(g, reached, c, k, qu);
            assert(g.step(qu, Dir::D, 1) == q);
        } else {
            lemma_square_reached(g, reached, c, k, qd);
            assert(g.step(qd, Dir::U, 1) == q);
        }
    }
}

/// A point of the square of radius `k` around `c` has a paste offset
/// within the square's `(2k+1)²` cells.
proof fn lemma_paste_index_range(g: Grid, c: Point, k: int, q: Point)
    requires
        g.wf(),
        g.holds(c),
        g.holds(q),
        0 <= k,
        q.dist(c, g.spec_width(), g.spec_height()) <= k,
    ensures
        0 <= paste_index(g, c, k, q) < side(k) * side(k),
{
    let (w, h) = (g.spec_width(), g.spec_height());
    let low = Point { x: wrap(c.x - k, w) as usize, y: wrap(c.y - k, h) as usize };
    lemma_rel_within(c.x as int, q.x as int, k, w);
    lemma_rel_within(c.y as int, q.y as int, k, h);
    let rel = q.minus(low, w, h);
    assert(0 <= rel.x * side(k) + rel.y < side(k) * side(k)) by (nonlinear_arith)
        requires
            0 <= rel.x <= 2 * k,
            0 <= rel.y <= 2 * k,
            k >= 0,
    ;
}

/// Distinct points of the square of radius `k` around `c` have distinct
/// paste offsets.
proof fn lemma_paste_index_injective(g: Grid, c: Point, k: int, p: Point, q: Point)
    requires
        g.wf(),
        g.holds(c),
        g.holds(p),
        g.holds(q),
        0 <= k,
        p.dist(c, g.spec_width(), g.spec_height()) <= k,
        q.dist(c, g.spec_width(), g.spec_height()) <= k,
        paste_index(g, c, k, p) == paste_index(g, c, k, q),
    ensures
        p == q,
{
    let (w, h) = (g.spec_width(), g.spec_height());
    let low = Point { x: wrap(c.x - k, w) as usize, y: wrap(c.y - k, h) as usize };
    lemma_rel_within(c.x as int, p.x as int, k, w);
    lemma_rel_within(c.y as int, p.y as int, k, h);
    lemma_rel_within(c.x as int, q.x as int, k, w);
    lemma_rel_within(c.y as int, q.y as int, k, h);
    let rp = p.minus(low, w, h);
    let rq = q.minus(low, w, h);
    vstd::arithmetic::div_mod::lemma_fundamental_div_mod_converse(paste_index(g, c, k, p), side(k), rp.x as int, rp.y as int);
    vstd::arithmetic::div_mod::lemma_fundamental_div_mod_converse(paste_index(g, c, k, q), side(k), rq.x as int, rq.y as int);
    if p.x < q.x {
        crate::grid::lemma_wrap_apart(p.x - low.x, q.x - p.x, w);
    } else if q.x < p.x {
        crate::grid::lemma_wrap_apart(q.x - low.x, p.x - q.x, w);
    }
    if p.y < q.y {
        crate::grid::lemma_wrap_apart(p.y - low.y, q.y - p.y, h);
    } else if q.y < p.y {
        crate::grid::lemma_wrap_apart(q.y - low.y, p.y - q.y, h);
    }
}

/// The points of the square of radius `r` around `cursor`, column by
/// column from the low corner.
pub fn get_points_for_selection(cursor: Point, r: u8, grid: &Grid) -> (pts: Vec<Point>)
    requires
        grid.wf(),
        grid.holds(cursor),
    ensures
        pts@.len() == side(r as int) * side(r as int),
        forall|k: int|
            0 <= k < pts@.len() ==> #[trigger] pts@[k] == selection_at(
                cursor,
                r as int,
                k,
                grid.spec_width(),
                grid.spec_height(),
            ),
        forall|k: int| 0 <= k < pts@.len() ==> grid.holds(#[trigger] pts@[k]),
{
    let w = grid.width();
    let h = grid.height();
    let width: usize = 2 * (r as usize) + 1;
    let ghost sd = side(r as int);
    let low = cursor.left_n(r as usize, w).up_n(r as usize, h);
    let mut pts: Vec<Point> = Vec::new();
    let mut col = low;
    let mut a: usize = 0;
    while a < width
        invariant
            grid.wf(),
            w as int == grid.spec_width(),
            h as int == grid.spec_height(),
            width as int == sd,
            sd == side(r as int),
            a <= width,
            col.x as int == wrap(cursor.x - r + a, w as int),
            col.y as int == wrap(cursor.y - r, h as int),
            col.in_bounds(w as int, h as int),
            pts@.len() == a * sd,
            forall|k: int|
                0 <= k < pts@.len() ==> #[trigger] pts@[k] == selection_at(
                    cursor,
                    r as int,
                    k,
                    w as int,
                    h as int,
                ),
            forall|k: int| 0 <= k < pts@.len() ==> (#[trigger] pts@[k]).in_bounds(w as int, h as int),
        decreases width - a,
    {
        let mut p = col;
        let mut b: usize = 0;
        while b < width
            invariant
                grid.wf(),
                w as int == grid.spec_width(),
                h as int == grid.spec_height(),
                width as int == sd,
                sd == side(r as int),
                a < width,
                b <= width,
                p.x == col.x,
                p.y as int == wrap(cursor.y - r + b, h as int),
                p.in_bounds(w as int, h as int),
                col.x as int == wrap(cursor.x - r + a, w as int),
                pts@.len() == a * sd + b,
                forall|k: int|
                    0 <= k < pts@.len() ==> #[trigger] pts@[k] == selection_at(
                        cursor,
                        r as int,
                        k,
                        w as int,
                        h as int,
                    ),
                forall|k: int| 0 <= k < pts@.len() ==> (#[trigger] pts@[k]).in_bounds(w as int, h as int),
            decreases width - b,
        {
            proof {
                let k = a * sd + b;
                vstd::arithmetic::div_mod::lemma_fundamental_div_mod_converse(k, sd, a as int, b as int);
            }
            pts.push(p);
            proof {
                lemma_wrap_succ(cursor.y - r + b, h as int);
            }
            p = p.down(h);
            b = b + 1;
        }
        proof {
            assert(a * sd + sd == (a + 1) * sd) by (nonlinear_arith);
            lemma_wrap_succ(cursor.x - r + a, w as int);
        }
        col = col.right(w);
        a = a + 1;
    }
    pts
}

/// The bytes of the grid at the given points, in order.
fn bytes_at(points: &Vec<Point>, grid: &Grid) -> (r: Vec<u8>)
    requires
        grid.wf(),
        forall|k: int| 0 <= k < points@.len() ==> grid.holds(#[trigger] points@[k]),
    ensures
        r@.len() == points@.len(),
        forall|k: int| 0 <= k < points@.len() ==> #[trigger] r@[k] == grid.at(points@[k]),
{
    let mut r: Vec<u8> = Vec::new();
    let mut i: usize = 0;
    while i < points.len()
        invariant
            grid.wf(),
            forall|k: int| 0 <= k < points@.len() ==> grid.holds(#[trigger] points@[k]),
            i <= points@.len(),
            r@.len() == i,
            forall|k: int| 0 <= k < i ==> #[trigger] r@[k] == grid.at(points@[k]),
        decreases points@.len() - i,
    {
        r.push(grid.at_point(points[i]));
        i = i + 1;
    }
    r
}

impl OrganismState {
    /// A fresh organism at `pos`: moving right, cursor on itself, a
    /// one-byte clipboard holding 0, empty tape.
    pub fn init(pos: Point) -> (s: OrganismState)
        ensures
            s@ == fresh_state(pos),
    {
        let s = OrganismState {
            ip: pos,
            dir: Dir::R,
            cursor: pos,
            clipboard: vec![0u8],
            r: 0,
            flag: false,
            ax: 0,
            bx: 0,
            storage: Vec::new(),
            mp: 0,
        };
        assert(s.clipboard@ =~= seq![0u8]);
        s
    }

    /// The state is one that can run on a `w` by `h` grid.
    pub open spec fn wf_in(&self, w: int, h: int) -> bool {
        self@.valid(w, h)
    }

    /// The state's clipboard, a square of odd side.
    pub fn clipboard(&self) -> (r: &Vec<u8>)
        ensures
            r@ == self.clipboard@,
    {
        &self.clipboard
    }

    /// A deep copy: both byte vectors are copied.
    pub fn duplicate(&self) -> (r: OrganismState)
        ensures
            r@ == self@,
    {
        let clipboard = self.clipboard.clone();
        let storage = self.storage.clone();
        assert(clipboard@ =~= self.clipboard@);
        assert(storage@ =~= self.storage@);
        OrganismState {
            ip: self.ip,
            dir: self.dir,
            cursor: self.cursor,
            clipboard,
            r: self.r,
            flag: self.flag,
            ax: self.ax,
            bx: self.bx,
            storage,
            mp: self.mp,
        }
    }

    /// Whether both states agree in every field.
    pub fn same_as(&self, other: &OrganismState) -> (r: bool)
        ensures
            r == (self@ == other@),
    {
        let same = self.ip == other.ip && self.dir == other.dir && self.cursor == other.cursor
            && self.r == other.r && self.flag == other.flag && self.ax == other.ax && self.bx
            == other.bx && self.mp == other.mp;
        if !same {
            return false;
        }
        let a = bytes_equal(&self.clipboard, &other.clipboard);
        let b = bytes_equal(&self.storage, &other.storage);
        a && b
    }

    /// What the status display shows of the tape: whether the memory
    /// pointer is in the first row of four, its column, and the three rows
    /// of four bytes around it (zeros past the end of the tape).
    pub fn local_memory(&self) -> (r: (bool, u8, [u8; 12]))
        ensures
            r.0 == (self.mp < 4),
            r.1 as int == self.mp % 4,
            forall|i: int|
                0 <= i < 12 ==> {
                    let start = if self.mp < 4 { 0 } else { self.mp - self.mp % 4 - 4 };
                    let at = start + i;
                    #[trigger] r.2[i] == if at < self.storage@.len() {
                        self.storage@[at]
                    } else {
                        0
                    }
                },
    {
        let first_row = self.mp < 4;
        let column = self.mp % 4;
        let byte_start = if first_row { 0 } else { self.mp - column - 4 };
        let mut bytes = [0u8; 12];
        let mut i: usize = 0;
        while i < 12
            invariant
                i <= 12,
                byte_start as int == if self.mp < 4 { 0 } else { self.mp - self.mp % 4 - 4 },
                forall|j: int|
                    0 <= j < i ==> #[trigger] bytes[j] == if byte_start + j < self.storage@.len() {
                        self.storage@[byte_start + j]
                    } else {
                        0
                    },
            decreases 12 - i,
        {
            if byte_start < self.storage.len() && i < self.storage.len() - byte_start {
                bytes[i] = self.storage[byte_start + i];
            } else {
                bytes[i] = 0;
            }
            i = i + 1;
        }
        (first_row, column as u8, bytes)
    }

    /// Moves the instruction pointer one step in its direction.
    pub fn advance(&mut self, grid: &Grid)
        requires
            grid.wf(),
            old(self).wf_in(grid.spec_width(), grid.spec_height()),
        ensures
            final(self)@ == (StateModel { ip: grid.step(old(self).ip, old(self).dir, 1), ..old(self)@ }),
            final(self).wf_in(grid.spec_width(), grid.spec_height()),
    {
        self.ip = self.ip.move_in(self.dir, grid.width(), grid.height());
    }

    /// Sets the selection radius; a value above 10 is ignored.
    fn set_r(&mut self, new: u8)
        ensures
            final(self)@ == old(self)@.with_radius(new),
    {
        if new <= MAX_RADIUS {
            self.r = new;
        }
    }

    fn set_dir(&mut self, dir: Dir)
        ensures
            final(self)@ == (StateModel { dir, ..old(self)@ }),
    {
        self.dir = dir;
    }

    /// The byte under the memory pointer; 0 past the end of the tape.
    fn get_stored(&self) -> (r: u8)
        ensures
            r == self@.stored(),
    {
        if self.mp < self.storage.len() {
            self.storage[self.mp]
        } else {
            0
        }
    }

    /// Stores `v` under the memory pointer, growing the tape with zeros.
    fn set_stored(&mut self, v: u8)
        ensures
            final(self)@ == old(self)@.with_stored(v),
    {
        let ghost s0 = self@;
        while self.storage.len() <= self.mp
            invariant
                self.mp == s0.mp,
                self@ == (StateModel { storage: self.storage@, ..s0 }),
                s0.storage.len() <= self.storage@.len(),
                self.storage@.len() <= s0.mp + 1 || self.storage@ == s0.storage,
                self.storage@.subrange(0, s0.storage.len() as int) == s0.storage,
                forall|i: int| s0.storage.len() <= i < self.storage@.len() ==> #[trigger] self.storage@[i] == 0,
            decreases self.mp + 1 - self.storage@.len(),
        {
            self.storage.push(0);
        }
        self.storage.set(self.mp, v);
        proof {
            let grown = if s0.mp < s0.storage.len() {
                s0.storage
            } else {
                s0.storage + Seq::new((s0.mp + 1 - s0.storage.len()) as nat, |i: int| 0u8)
            };
            if s0.mp < s0.storage.len() {
                assert(self.storage@ =~= grown.update(s0.mp as int, v));
            } else {
                assert(self.storage@ =~= grown.update(s0.mp as int, v));
            }
        }
    }

    fn mp_left(&mut self, n: usize)
        ensures
            final(self)@ == old(self)@.mp_down(n as int),
    {
        self.mp = if self.mp >= n { self.mp - n } else { 0 };
    }

    fn mp_right(&mut self, n: usize)
        ensures
            final(self)@ == old(self)@.mp_up(n as int),
    {
        self.mp = if self.mp <= usize::MAX - n { self.mp + n } else { usize::MAX };
    }

    /// Moves the cursor to `p` unless `p` holds a wall; reports whether it
    /// moved.
    fn try_set_cursor(&mut self, p: Point, grid: &Grid) -> (moved: bool)
        requires
            grid.wf(),
            grid.holds(p),
        ensures
            final(self)@ == old(self)@.cursor_to(*grid, p),
            moved == (grid.at(p) != WALL_BYTE),
    {
        let moved = grid.at_point(p) != WALL_BYTE;
        if moved {
            self.cursor = p;
        }
        moved
    }

    /// Up to `n` attempts to move the cursor in direction `d`, stopping at
    /// the first wall; returns the number of attempts made.
    fn repeat_move(&mut self, d: Dir, n: u8, grid: &Grid) -> (i: u8)
        requires
            grid.wf(),
            old(self).wf_in(grid.spec_width(), grid.spec_height()),
        ensures
            final(self)@ == (StateModel {
                cursor: walk(*grid, old(self).cursor, d, n as nat).0,
                ..old(self)@
            }),
            i as nat == walk(*grid, old(self).cursor, d, n as nat).1,
            final(self).wf_in(grid.spec_width(), grid.spec_height()),
    {
        let ghost s0 = self@;
        let w = grid.width();
        let h = grid.height();
        let mut i: u8 = 0;
        let mut blocked = false;
        while i < n && !blocked
            invariant
                grid.wf(),
                w as int == grid.spec_width(),
                h as int == grid.spec_height(),
                i <= n,
                self@ == (StateModel { cursor: self.cursor, ..s0 }),
                self.wf_in(w as int, h as int),
                !blocked ==> walk(*grid, s0.cursor, d, n as nat).0 == walk(
                    *grid,
                    self.cursor,
                    d,
                    (n - i) as nat,
                ).0,
                !blocked ==> walk(*grid, s0.cursor, d, n as nat).1 == walk(
                    *grid,
                    self.cursor,
                    d,
                    (n - i) as nat,
                ).1 + i,
                blocked ==> walk(*grid, s0.cursor, d, n as nat) == (self.cursor, i as nat),
            decreases n - i,
        {
            let next = self.cursor.move_in(d, w, h);
            proof {
                let m = (n - i) as nat;
                assert(walk(*grid, self.cursor, d, m) == if grid.at(next) == WALL_BYTE {
                    (self.cursor, 1nat)
                } else {
                    let rest = walk(*grid, next, d, (m - 1) as nat);
                    (rest.0, rest.1 + 1)
                });
            }
            i = i + 1;
            if !self.try_set_cursor(next, grid) {
                blocked = true;
            }
        }
        i
    }

    /// Pastes the clipboard's square around the cursor by a flood fill from
    /// the cursor that walls stop unless pierced; returns the square's side.
    fn paste(&self, grid: &mut Grid) -> (width: u8)
        requires
            old(grid).wf(),
            self.wf_in(old(grid).spec_width(), old(grid).spec_height()),
        ensures
            final(grid).wf(),
            final(grid).same_shape(old(grid)),
            pasted(*old(grid), *final(grid), self.cursor, self.clipboard@),
            width as int == side(clip_radius(self.clipboard@.len() as int)),
    {
        let ghost g0 = *grid;
        let k = selection_radius(&self.clipboard);
        let width = k * 2 + 1;
        let ghost kk = k as int;
        let w = grid.width();
        let h = grid.height();
        let cursor = self.cursor;
        let low = cursor.left_n(k as usize, w).up_n(k as usize, h);
        proof {
            lemma_clip_len(self.clipboard@.len() as int);
            assert((width as usize) * (width as usize) == side(kk) * side(kk)) by (nonlinear_arith)
                requires
                    width as int == side(kk),
            ;
            assert(side(kk) * side(kk) <= 441) by (nonlinear_arith)
                requires
                    0 <= kk <= 10,
            ;
        }
        let n: usize = (width as usize) * (width as usize);
        let mut marks: Vec<bool> = Vec::new();
        while marks.len() < n
            invariant
                marks@.len() <= n,
                forall|j: int| 0 <= j < marks@.len() ==> !(#[trigger] marks@[j]),
            decreases n - marks@.len(),
        {
            marks.push(false);
        }
        let mut frontier: Vec<Point> = Vec::new();
        frontier.push(cursor);
        let ghost mut written: Set<Point> = Set::empty();
        let ghost mut started = false;
        let ghost full = paste_unblocked(g0, cursor, kk);
        proof {
            assert forall|q: Point|
                g0.holds(q) && q.dist(cursor, w as int, h as int) <= kk && #[trigger] marks@[paste_index(
                    g0,
                    cursor,
                    kk,
                    q,
                )] implies written.contains(q) by {
                lemma_paste_index_range(g0, cursor, kk, q);
            }
        }
        loop
            invariant
                grid.wf(),
                grid.same_shape(&g0),
                g0.wf(),
                w as int == g0.spec_width(),
                h as int == g0.spec_height(),
                self.wf_in(w as int, h as int),
                cursor == self.cursor,
                kk == clip_radius(self.clipboard@.len() as int),
                kk == k as int,
                0 <= kk <= 10,
                width as int == side(kk),
                n as int == side(kk) * side(kk),
                n == self.clipboard@.len(),
                low.x as int == wrap(cursor.x - kk, w as int),
                low.y as int == wrap(cursor.y - kk, h as int),
                low.in_bounds(w as int, h as int),
                marks@.len() == n,
                forall|j: int| 0 <= j < frontier@.len() ==> g0.holds(#[trigger] frontier@[j]),
                forall|q: Point|
                    #[trigger] written.contains(q) ==> {
                        &&& g0.holds(q)
                        &&& q.dist(cursor, w as int, h as int) <= kk
                        &&& 0 <= paste_index(g0, cursor, kk, q) < n
                        &&& marks@[paste_index(g0, cursor, kk, q)]
                        &&& (g0.fault_chance() == 0 ==> grid.at(q) == self.clipboard@[paste_index(g0, cursor, kk, q)])
                        &&& (g0.pierce_chance() == 0 ==> g0.at(q) != WALL_BYTE)
                    },
                forall|q: Point| g0.holds(q) && !written.contains(q) ==> #[trigger] grid.at(q) == g0.at(q),
                frontier@.len() == 0 ==> started,
                !started ==> frontier@ == seq![cursor] && written == Set::<Point>::empty() && forall|j: int| 0 <= j < n ==> !(#[trigger] marks@[j]),
                started && g0.at(cursor) != WALL_BYTE ==> written.contains(cursor),
                full == paste_unblocked(g0, cursor, kk),
                full && started ==> written.contains(cursor),
                full ==> forall|q: Point|
                    g0.holds(q) && q.dist(cursor, w as int, h as int) <= kk && #[trigger] marks@[paste_index(
                        g0,
                        cursor,
                        kk,
                        q,
                    )] ==> written.contains(q),
                full ==> forall|p: Point, d: Dir|
                    #![trigger written.contains(p), g0.step(p, d, 1)]
                    written.contains(p) && g0.step(p, d, 1).dist(cursor, w as int, h as int) <= kk
                        ==> written.contains(g0.step(p, d, 1)) || frontier@.contains(g0.step(p, d, 1)),
            ensures
                started,
                frontier@.len() == 0,
            decreases unmarked(marks@), frontier@.len(),
        {
            let ghost fr0 = frontier@;
            let popped = frontier.pop();
            let ghost first = !started;
            proof {
                if fr0.len() > 0 {
                    assert(fr0 =~= frontier@.push(fr0.last()));
                }
            }
            proof {
                started = true;
            }
            match popped {
                None => {
                    proof {
                        assert(!first);
                    }
                    break;
                },
                Some(p) => {
                    proof {
                        assert(g0.holds(p));
                    }
                    if p.dist_to(cursor, w, h) > k as usize {
                        proof {
                            assert(!first);
                            if full {
                                assert forall|p0: Point, d: Dir|
                                    #![trigger written.contains(p0), g0.step(p0, d, 1)]
                                    written.contains(p0) && g0.step(p0, d, 1).dist(cursor, w as int, h as int) <= kk
                                        implies written.contains(g0.step(p0, d, 1)) || frontier@.contains(g0.step(p0, d, 1)) by {
                                    let q = g0.step(p0, d, 1);
                                    if !written.contains(q) {
                                        assert(fr0.contains(q));
                                        assert(q != p);
                                    }
                                }
                            }
                        }
                        continue;
                    }
                    let rel = p.sub(low, w, h);
                    proof {
                        assert(p.dist(cursor, w as int, h as int) <= kk);
                        assert(crate::grid::circ_dist(p.x as int, cursor.x as int, w as int) <= kk);
                        assert(crate::grid::circ_dist(p.y as int, cursor.y as int, h as int) <= kk);
                        lemma_rel_within(cursor.x as int, p.x as int, kk, w as int);
                        lemma_rel_within(cursor.y as int, p.y as int, kk, h as int);
                        assert(rel.x * side(kk) + rel.y < side(kk) * side(kk)) by (nonlinear_arith)
                            requires
                                0 <= rel.x <= 2 * kk,
                                0 <= rel.y <= 2 * kk,
                                kk >= 0,
                        ;
                        assert(rel.x * side(kk) + rel.y >= 0) by (nonlinear_arith)
                            requires
                                0 <= rel.x,
                                0 <= rel.y,
                                kk >= 0,
                        ;
                    }
                    let idx = rel.x * (width as usize) + rel.y;
                    assert(idx as int == paste_index(g0, cursor, kk, p));
                    if marks[idx] {
                        proof {
                            assert(!first);
                            if full {
                                assert(written.contains(p));
                                assert forall|p0: Point, d: Dir|
                                    #![trigger written.contains(p0), g0.step(p0, d, 1)]
                                    written.contains(p0) && g0.step(p0, d, 1).dist(cursor, w as int, h as int) <= kk
                                        implies written.contains(g0.step(p0, d, 1)) || frontier@.contains(g0.step(p0, d, 1)) by {
                                    let q = g0.step(p0, d, 1);
                                    if !written.contains(q) {
                                        assert(fr0.contains(q));
                                        assert(q != p);
                                    }
                                }
                            }
                        }
                        continue;
                    }
                    proof {
                        lemma_unmarked_set(marks@, idx as int);
                        assert(!written.contains(p));
                    }
                    let ghost marks0 = marks@;
                    marks.set(idx, true);
                    let is_wall = grid.at_point(p) == WALL_BYTE;
                    if is_wall {
                        let ghost before = *grid;
                        let pierced = grid.pierce_wall();
                        proof {
                            assert(grid.cells() == before.cells());
                            assert forall|q: Point| g0.holds(q) implies #[trigger] grid.at(q) == before.at(q) by {}
                        }
                        if !pierced {
                            proof {
                                if full {
                                    assert(g0.pierce_chance() != 1);
                                    assert(g0.at(p) != WALL_BYTE);
                                }
                                assert(!full);
                            }
                            continue;
                        }
                    }
                    let ghost before = *grid;
                    grid.set(p, self.clipboard[idx]);
                    proof {
                        assert forall|q: Point| g0.holds(q) && q != p implies #[trigger] grid.at(q) == before.at(q) by {
                            if grid.index_of(q) == grid.index_of(p) {
                                crate::grid::lemma_index_injective(q, p, w as int, h as int);
                            }
                            lemma_index_in_range(q, w as int, h as int);
                            lemma_index_in_range(p, w as int, h as int);
                        }
                        lemma_index_in_range(p, w as int, h as int);
                        written = written.insert(p);
                    }
                    let pu = p.up(h);
                    let pd = p.down(h);
                    let pl = p.left(w);
                    let pr = p.right(w);
                    proof {
                        lemma_wrap_basics(p.x as int, w as int);
                        lemma_wrap_basics(p.y as int, h as int);
                        assert(pu == g0.step(p, Dir::U, 1));
                        assert(pd == g0.step(p, Dir::D, 1));
                        assert(pl == g0.step(p, Dir::L, 1));
                        assert(pr == g0.step(p, Dir::R, 1));
                        crate::grid::lemma_steps_invert(p, w, h);
                    }
                    let ghost fr1 = frontier@;
                    frontier.push(pu);
                    frontier.push(pd);
                    frontier.push(pl);
                    frontier.push(pr);
                    proof {
                        assert(frontier@ =~= fr1.push(pu).push(pd).push(pl).push(pr));
                        assert forall|x: Point| fr1.contains(x) implies frontier@.contains(x) by {
                            let j = choose|j: int| 0 <= j < fr1.len() && fr1[j] == x;
                            assert(frontier@[j] == x);
                        }
                        assert(frontier@[fr1.len() as int] == pu);
                        assert(frontier@[fr1.len() as int + 1] == pd);
                        assert(frontier@[fr1.len() as int + 2] == pl);
                        assert(frontier@[fr1.len() as int + 3] == pr);
                        if full {
                            assert forall|q: Point|
                                g0.holds(q) && q.dist(cursor, w as int, h as int) <= kk && #[trigger] marks@[paste_index(
                                    g0,
                                    cursor,
                                    kk,
                                    q,
                                )] implies written.contains(q) by {
                                lemma_paste_index_range(g0, cursor, kk, q);
                                if paste_index(g0, cursor, kk, q) == idx as int {
                                    lemma_paste_index_injective(g0, cursor, kk, p, q);
                                } else {
                                    assert(marks0[paste_index(g0, cursor, kk, q)]);
                                }
                            }
                            assert forall|p0: Point, d: Dir|
                                #![trigger written.contains(p0), g0.step(p0, d, 1)]
                                written.contains(p0) && g0.step(p0, d, 1).dist(cursor, w as int, h as int) <= kk
                                    implies written.contains(g0.step(p0, d, 1)) || frontier@.contains(g0.step(p0, d, 1)) by {
                                let q = g0.step(p0, d, 1);
                                if p0 == p {
                                    match d {
                                        Dir::U => assert(frontier@[fr1.len() as int] == q),
                                        Dir::D => assert(frontier@[fr1.len() as int + 1] == q),
                                        Dir::L => assert(frontier@[fr1.len() as int + 2] == q),
                                        Dir::R => assert(frontier@[fr1.len() as int + 3] == q),
                                    }
                                } else if !written.contains(q) {
                                    assert(fr0.contains(q));
                                    assert(q != p);
                                    assert(fr1.contains(q));
                                }
                            }
                        }
                    }
                },
            }
        }
        proof {
            if full {
                assert forall|p0: Point, d: Dir|
                    written.contains(p0) && g0.holds(p0) && g0.step(p0, d, 1).dist(cursor, w as int, h as int) <= kk
                        implies #[trigger] written.contains(g0.step(p0, d, 1)) by {
                    assert(!frontier@.contains(g0.step(p0, d, 1)));
                }
                assert forall|q: Point| g0.holds(q) && q.dist(cursor, w as int, h as int) <= kk implies
                    #[trigger] grid.at(q) == self.clipboard@[paste_index(g0, cursor, kk, q)] by {
                    lemma_square_reached(g0, written, cursor, kk, q);
                }
            }
        }
        width
    }

    /// Executes one instruction on this organism, reading and writing the
    /// grid, and says what the scheduler must do next.
    pub fn run(&mut self, grid: &mut Grid, instruction: Instruction) -> (r: Response)
        requires
            old(grid).wf(),
            old(self).wf_in(old(grid).spec_width(), old(grid).spec_height()),
        ensures
            final(grid).wf(),
            final(grid).same_shape(old(grid)),
            final(self).wf_in(old(grid).spec_width(), old(grid).spec_height()),
            (final(self)@, r@) == effect(old(self)@, *old(grid), instruction),
            r matches Response::Fork(c) ==> c.wf_in(old(grid).spec_width(), old(grid).spec_height()),
            grid_after(*old(grid), *final(grid), old(self)@, instruction),
    {
        match instruction.category() {
            Category::Special | Category::Wall => self.run_special(grid, instruction),
            Category::Calculation => self.run_calculation(grid, instruction),
            Category::Control => self.run_control(grid, instruction),
            Category::Cursor => self.run_cursor(grid, instruction),
            Category::Selection => self.run_selection(grid, instruction),
            Category::Memory => self.run_memory(grid, instruction),
        }
    }

    /// Runs an instruction of halting, forking and doing nothing.
    #[verifier::rlimit(50)]
    fn run_special(&mut self, grid: &Grid, ins: Instruction) -> (r: Response)
        requires
            grid.wf(),
            old(self).wf_in(grid.spec_width(), grid.spec_height()),
            ins.spec_category() == Category::Special || ins.spec_category() == Category::Wall,
        ensures
            final(self).wf_in(grid.spec_width(), grid.spec_height()),
            (final(self)@, r@) == special_effect(old(self)@, *grid, ins),
            r matches Response::Fork(c) ==> c.wf_in(grid.spec_width(), grid.spec_height()),
    {
        match ins {
            Instruction::Halt | Instruction::Wall => {
                return Response::Die;
            },
            Instruction::Nop => {},
            Instruction::FlagFork => {
                let mut child = self.duplicate();
                child.flag = true;
                self.flag = false;
                return Response::Fork(child);
            },
            Instruction::CursorFork => {
                let mut child = self.duplicate();
                child.ip = child.cursor;
                return Response::Fork(child);
            },
            _ => {},
        }
        Response::Delay(0)
    }

    /// Runs an instruction of arithmetic on the two registers.
    #[verifier::rlimit(50)]
    fn run_calculation(&mut self, grid: &Grid, ins: Instruction) -> (r: Response)
        requires
            grid.wf(),
            old(self).wf_in(grid.spec_width(), grid.spec_height()),
            ins.spec_category() == Category::Calculation,
        ensures
            final(self).wf_in(grid.spec_width(), grid.spec_height()),
            (final(self)@, r@) == calculation_effect(old(self)@, *grid, ins),
    {
        match ins {
            Instruction::ZeroA => self.ax = 0,
            Instruction::ZeroB => self.bx = 0,
            Instruction::CopyA => self.bx = self.ax,
            Instruction::CopyB => self.ax = self.bx,
            Instruction::SwapAB => {
                let t = self.ax;
                self.ax = self.bx;
                self.bx = t;
            },
            Instruction::SumA => self.ax = ((self.ax as u16 + self.bx as u16) % 256) as u8,
            Instruction::SumB => self.bx = ((self.ax as u16 + self.bx as u16) % 256) as u8,
            Instruction::NegateA => self.ax = ((256 - self.ax as u16) % 256) as u8,
            Instruction::NegateB => self.bx = ((256 - self.bx as u16) % 256) as u8,
            Instruction::IncA => self.ax = ((self.ax as u16 + 1) % 256) as u8,
            Instruction::IncB => self.bx = ((self.bx as u16 + 1) % 256) as u8,
            Instruction::DecA => self.ax = ((self.ax as u16 + 255) % 256) as u8,
            Instruction::DecB => self.bx = ((self.bx as u16 + 255) % 256) as u8,
            Instruction::MulA => self.ax = mul_byte(self.ax, self.bx),
            Instruction::MulB => self.bx = mul_byte(self.ax, self.bx),
            Instruction::DoubleA => self.ax = ((2 * self.ax as u16) % 256) as u8,
            Instruction::DoubleB => self.bx = ((2 * self.bx as u16) % 256) as u8,
            Instruction::HalveA => self.ax = self.ax / 2,
            Instruction::HalveB => self.bx = self.bx / 2,
            Instruction::Mod2A => self.ax = self.ax % 2,
            Instruction::Mod2B => self.bx = self.bx % 2,
            Instruction::BitAndA => self.ax = self.ax & self.bx,
            Instruction::BitAndB => self.bx = self.bx & self.ax,
            Instruction::BitOrA => self.ax = self.ax | self.bx,
            Instruction::BitOrB => self.bx = self.bx | self.ax,
            Instruction::BitXorA => self.ax = self.ax ^ self.bx,
            Instruction::BitXorB => self.bx = self.bx ^ self.ax,
            Instruction::EqA => self.ax = if self.ax == self.bx { 1 } else { 0 },
            Instruction::EqB => self.bx = if self.ax == self.bx { 1 } else { 0 },
            Instruction::NeqA => self.ax = if self.ax != self.bx { 1 } else { 0 },
            Instruction::NeqB => self.bx = if self.ax != self.bx { 1 } else { 0 },
            Instruction::NonzeroA => self.ax = if self.ax != 0 { 1 } else { 0 },
            Instruction::NonzeroB => self.bx = if self.bx != 0 { 1 } else { 0 },
            Instruction::IsZeroA => self.ax = if self.ax == 0 { 1 } else { 0 },
            Instruction::IsZeroB => self.bx = if self.bx == 0 { 1 } else { 0 },
            _ => {},
        }
        Response::Delay(0)
    }

    /// Runs an instruction of waiting, steering and the flag.
    #[verifier::rlimit(50)]
    fn run_control(&mut self, grid: &Grid, ins: Instruction) -> (r: Response)
        requires
            grid.wf(),
            old(self).wf_in(grid.spec_width(), grid.spec_height()),
            ins.spec_category() == Category::Control,
        ensures
            final(self).wf_in(grid.spec_width(), grid.spec_height()),
            (final(self)@, r@) == control_effect(old(self)@, *grid, ins),
    {
        match ins {
            Instruction::WaitA => {
                return Response::Delay(self.ax);
            },
            Instruction::WaitB => {
                return Response::Delay(self.bx);
            },
            Instruction::MoveL => self.dir = Dir::L,
            Instruction::MoveR => self.dir = Dir::R,
            Instruction::MoveU => self.dir = Dir::U,
            Instruction::MoveD => self.dir = Dir::D,
            Instruction::CondMoveL => if self.flag {
                self.dir = Dir::L
            },
            Instruction::CondMoveR => if self.flag {
                self.dir = Dir::R
            },
            Instruction::CondMoveU => if self.flag {
                self.dir = Dir::U
            },
            Instruction::CondMoveD => if self.flag {
                self.dir = Dir::D
            },
            Instruction::CondHalt => if self.flag {
                return Response::Die;
            },
            Instruction::ReflectAll => self.set_dir(self.dir.reverse()),
            Instruction::ReflectX => self.set_dir(self.dir.reflect_x()),
            Instruction::ReflectY => self.set_dir(self.dir.reflect_y()),
            Instruction::ReflectFwd => self.set_dir(self.dir.reflect_fwd()),
            Instruction::ReflectBwd => self.set_dir(self.dir.reflect_bwd()),
            Instruction::SetFlag => self.flag = true,
            Instruction::ClearFlag => self.flag = false,
            Instruction::FlagZeroA => self.flag = self.ax == 0,
            Instruction::FlagNonzeroA => self.flag = self.ax != 0,
            Instruction::FlagZeroB => self.flag = self.bx == 0,
            Instruction::FlagNonzeroB => self.flag = self.bx != 0,
            Instruction::FlagEq => self.flag = self.ax == self.bx,
            Instruction::FlagNeq => self.flag = self.ax != self.bx,
            Instruction::FlagNot => self.flag = !self.flag,
            Instruction::FlagToA => self.ax = if self.flag { 1 } else { 0 },
            Instruction::FlagToB => self.bx = if self.flag { 1 } else { 0 },
            _ => {},
        }
        Response::Delay(0)
    }

    /// Runs an instruction of moving the cursor.
    #[verifier::rlimit(50)]
    fn run_cursor(&mut self, grid: &Grid, ins: Instruction) -> (r: Response)
        requires
            grid.wf(),
            old(self).wf_in(grid.spec_width(), grid.spec_height()),
            ins.spec_category() == Category::Cursor,
        ensures
            final(self).wf_in(grid.spec_width(), grid.spec_height()),
            (final(self)@, r@) == cursor_effect(old(self)@, *grid, ins),
    {
        match ins {
            Instruction::CursorL => {
                let p = self.cursor.move_in(Dir::L, grid.width(), grid.height());
                self.try_set_cursor(p, grid);
            },
            Instruction::CursorR => {
                let p = self.cursor.move_in(Dir::R, grid.width(), grid.height());
                self.try_set_cursor(p, grid);
            },
            Instruction::CursorU => {
                let p = self.cursor.move_in(Dir::U, grid.width(), grid.height());
                self.try_set_cursor(p, grid);
            },
            Instruction::CursorD => {
                let p = self.cursor.move_in(Dir::D, grid.width(), grid.height());
                self.try_set_cursor(p, grid);
            },
            Instruction::CursorLTimesA => {
                return Response::Delay(self.repeat_move(Dir::L, self.ax, grid));
            },
            Instruction::CursorRTimesA => {
                return Response::Delay(self.repeat_move(Dir::R, self.ax, grid));
            },
            Instruction::CursorUTimesA => {
                return Response::Delay(self.repeat_move(Dir::U, self.ax, grid));
            },
            Instruction::CursorDTimesA => {
                return Response::Delay(self.repeat_move(Dir::D, self.ax, grid));
            },
            Instruction::CursorLTimesB => {
                return Response::Delay(self.repeat_move(Dir::L, self.bx, grid));
            },
            Instruction::CursorRTimesB => {
                return Response::Delay(self.repeat_move(Dir::R, self.bx, grid));
            },
            Instruction::CursorUTimesB => {
                return Response::Delay(self.repeat_move(Dir::U, self.bx, grid));
            },
            Instruction::CursorDTimesB => {
                return Response::Delay(self.repeat_move(Dir::D, self.bx, grid));
            },
            Instruction::CursorHome => {
                let p = self.ip;
                self.try_set_cursor(p, grid);
            },
            _ => {},
        }
        Response::Delay(0)
    }

    /// Runs an instruction of the radius, the cursor's cell, copy and paste.
    #[verifier::rlimit(50)]
    fn run_selection(&mut self, grid: &mut Grid, ins: Instruction) -> (r: Response)
        requires
            old(grid).wf(),
            old(self).wf_in(old(grid).spec_width(), old(grid).spec_height()),
            ins.spec_category() == Category::Selection,
        ensures
            final(self).wf_in(old(grid).spec_width(), old(grid).spec_height()),
            (final(self)@, r@) == selection_effect(old(self)@, *old(grid), ins),
            final(grid).wf(),
            final(grid).same_shape(old(grid)),
            !(ins is CursorA || ins is CursorB || ins is Paste) ==> *final(grid) == *old(grid),
            ins is CursorA ==> written_at(*old(grid), *final(grid), old(self).cursor, old(self).ax),
            ins is CursorB ==> written_at(*old(grid), *final(grid), old(self).cursor, old(self).bx),
            ins is Paste ==> pasted(*old(grid), *final(grid), old(self).cursor, old(self).clipboard@),
    {
        match ins {
            Instruction::RadiusA => self.set_r(self.ax),
            Instruction::RadiusB => self.set_r(self.bx),
            Instruction::RadiusReset => self.r = 0,
            Instruction::RadiusToA => self.ax = self.r,
            Instruction::RadiusToB => self.bx = self.r,
            Instruction::IncRadius => self.set_r(self.r + 1),
            Instruction::DecRadius => self.set_r(if self.r > 0 { self.r - 1 } else { 0 }),
            Instruction::CursorA => grid.set(self.cursor, self.ax),
            Instruction::CursorB => grid.set(self.cursor, self.bx),
            Instruction::CursorToA => self.ax = grid.at_point(self.cursor),
            Instruction::CursorToB => self.bx = grid.at_point(self.cursor),
            Instruction::Copy => {
                let points = get_points_for_selection(self.cursor, self.r, grid);
                self.clipboard = bytes_at(&points, grid);
                proof {
                    lemma_clip_radius_of_side(self.r as int);
                    assert(self.clipboard@ =~= square_bytes(*grid, self.cursor, self.r as int));
                }
            },
            Instruction::Paste => {
                return Response::Delay(self.paste(grid));
            },
            _ => {},
        }
        Response::Delay(0)
    }

    /// Runs an instruction of the tape.
    #[verifier::rlimit(50)]
    fn run_memory(&mut self, grid: &Grid, ins: Instruction) -> (r: Response)
        requires
            grid.wf(),
            old(self).wf_in(grid.spec_width(), grid.spec_height()),
            ins.spec_category() == Category::Memory,
        ensures
            final(self).wf_in(grid.spec_width(), grid.spec_height()),
            (final(self)@, r@) == memory_effect(old(self)@, *grid, ins),
    {
        match ins {
            Instruction::Pointer0 => self.mp = 0,
            Instruction::PointerA => self.mp = self.ax as usize,
            Instruction::PointerB => self.mp = self.bx as usize,
            Instruction::PointerToA => self.ax = if self.mp <= 255 { self.mp as u8 } else { 255 },
            Instruction::PointerToB => self.bx = if self.mp <= 255 { self.mp as u8 } else { 255 },
            Instruction::PointerL => self.mp_left(1),
            Instruction::PointerR => self.mp_right(1),
            Instruction::PointerLTimesA => self.mp_left(self.ax as usize),
            Instruction::PointerRTimesA => self.mp_right(self.ax as usize),
            Instruction::PointerLTimesB => self.mp_left(self.bx as usize),
            Instruction::PointerRTimesB => self.mp_right(self.bx as usize),
            Instruction::Pointee0 => self.set_stored(0),
            Instruction::PointeeA => self.set_stored(self.ax),
            Instruction::PointeeB => self.set_stored(self.bx),
            Instruction::PointeeToA => self.ax = self.get_stored(),
            Instruction::PointeeToB => self.bx = self.get_stored(),
            Instruction::IncPointee => {
                let v = self.get_stored();
                self.set_stored(((v as u16 + 1) % 256) as u8);
            },
            Instruction::DecPointee => {
                let v = self.get_stored();
                self.set_stored(((v as u16 + 255) % 256) as u8);
            },
            Instruction::IncPointeeA => {
                let v = self.get_stored();
                self.set_stored(((v as u16 + self.ax as u16) % 256) as u8);
            },
            Instruction::DecPointeeA => {
                let v = self.get_stored();
                self.set_stored(((v as u16 + 256 - self.ax as u16) % 256) as u8);
            },
            Instruction::IncPointeeB => {
                let v = self.get_stored();
                self.set_stored(((v as u16 + self.bx as u16) % 256) as u8);
            },
            Instruction::DecPointeeB => {
                let v = self.get_stored();
                self.set_stored(((v as u16 + 256 - self.bx as u16) % 256) as u8);
            },
            _ => {},
        }
        Response::Delay(0)
    }
}

/// The product of two bytes, modulo 256.
fn mul_byte(a: u8, b: u8) -> (r: u8)
    ensures
        r == byte(a * b),
{
    assert(a as u32 * b as u32 <= 65025) by (nonlinear_arith);
    ((a as u32 * b as u32) % 256) as u8
}

/// Whether two byte vectors hold the same bytes.
fn bytes_equal(a: &Vec<u8>, b: &Vec<u8>) -> (r: bool)
    ensures
        r == (a@ == b@),
{
    if a.len() != b.len() {
        return false;
    }
    let mut i: usize = 0;
    while i < a.len()
        invariant
            a@.len() == b@.len(),
            i <= a@.len(),
            forall|j: int| 0 <= j < i ==> a@[j] == b@[j],
        decreases a@.len() - i,
    {
        if a[i] != b[i] {
            return false;
        }
        i = i + 1;
    }
    assert(a@ =~= b@);
    true
}

} // verus!
