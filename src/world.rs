//! The simulation as a whole: grid, population, random sources and the
//! settings that the command language changes.

use vstd::prelude::*;
use rand::rngs::StdRng;
use crate::grid::{Grid, Point, Dir, wrap};
use crate::instruction::Instruction;
use crate::organism::{ContextModel, OrganismCollection, OrganismId, cycled, views, dedup_seq, ran};
use crate::random::{draw_index, draw_byte, draw_u64, seeded};
use crate::state::{OrganismState, Outcome, StateModel, fresh_state};

verus! {

/// How many cycles are due after `elapsed` milliseconds when a cycle takes
/// `cycle_ms`: cycles run while strictly more than one cycle's time is
/// banked. Returns the count and the time left banked.
pub fn pace(elapsed: u64, cycle_ms: u64) -> (r: (u64, u64))
    requires
        cycle_ms > 0,
    ensures
        r.0 * cycle_ms + r.1 == elapsed,
        r.1 <= cycle_ms,
        r.0 > 0 ==> r.1 > 0,
{
    let mut left = elapsed;
    let mut n: u64 = 0;
    while left > cycle_ms
        invariant
            cycle_ms > 0,
            n * cycle_ms + left == elapsed,
            n > 0 ==> left > 0,
        decreases left,
    {
        proof {
            assert((n + 1) * cycle_ms == n * cycle_ms + cycle_ms) by (nonlinear_arith);
            assert(n + 1 <= (n + 1) * cycle_ms) by (nonlinear_arith)
                requires
                    cycle_ms > 0,
                    n >= 0,
            ;
        }
        left = left - cycle_ms;
        n = n + 1;
    }
    (n, left)
}

/// Why a simulation could not be built.
#[derive(Clone, Copy, Debug, PartialEq, Eq, Structural)]
pub enum Error {
    BadWidth,
    BadHeight,
}

impl Error {
    /// The message shown to the user.
    pub fn description(self) -> (r: String)
        ensures
            self is BadWidth ==> r@ == "Width cannot be 0."@,
            self is BadHeight ==> r@ == "Height cannot be 0."@,
    {
        match self {
            Error::BadWidth => String::from_str("Width cannot be 0."),
            Error::BadHeight => String::from_str("Height cannot be 0."),
        }
    }
}

/// Settings that rarely change.
#[derive(Clone, Copy)]
pub struct Config {
    /// The master seed; never changed during a run.
    pub rng_seed: u64,
    /// Milliseconds between cycles.
    pub cycle_frequency: u32,
    /// Random bytes written per cycle.
    pub cosmic_ray_rate: u32,
    /// The population cap, if any.
    pub max_organisms: Option<usize>,
    /// Cycles between deduplication passes; 0 disables them.
    pub dedup_rate: usize,
}

impl Config {
    /// The settings of a new run with the given seed: a cycle every 100 ms,
    /// no cosmic rays, no cap, no automatic deduplication.
    pub fn new(rng_seed: u64) -> (r: Config)
        ensures
            r.rng_seed == rng_seed,
            r.cycle_frequency == 100,
            r.cosmic_ray_rate == 0,
            r.max_organisms is None,
            r.dedup_rate == 0,
    {
        Config { rng_seed, cycle_frequency: 100, cosmic_ray_rate: 0, max_organisms: None, dedup_rate: 0 }
    }
}

/// A running simulation.
pub struct World {
    /// Cycles run so far.
    total_cycles: usize,
    /// Cycles since the last deduplication pass.
    cycles_since_dedup: usize,
    /// Drives cosmic rays.
    cosmic_ray_rng: StdRng,
    organisms: OrganismCollection,
    grid: Grid,
    config: Config,
}

impl World {
    pub closed spec fn spec_grid(&self) -> Grid {
        self.grid
    }

    pub closed spec fn spec_organisms(&self) -> OrganismCollection {
        self.organisms
    }

    pub closed spec fn spec_config(&self) -> Config {
        self.config
    }

    pub fn config(&self) -> (r: &Config)
        ensures
            *r == self.spec_config(),
    {
        &self.config
    }

    /// Replaces the settings.
    pub fn set_config(&mut self, config: Config)
        ensures
            final(self).spec_config() == config,
            final(self).spec_grid() == old(self).spec_grid(),
            final(self).spec_organisms() == old(self).spec_organisms(),
            final(self).spec_total_cycles() == old(self).spec_total_cycles(),
    {
        self.config = config;
    }

    /// Cycles since the last deduplication pass.
    pub closed spec fn spec_cycles_since_dedup(&self) -> usize {
        self.cycles_since_dedup
    }

    /// The count of cycles since deduplication after one more cycle.
    pub open spec fn next_since_dedup(&self) -> usize {
        if self.spec_cycles_since_dedup() < usize::MAX {
            (self.spec_cycles_since_dedup() + 1) as usize
        } else {
            self.spec_cycles_since_dedup()
        }
    }

    /// The next cycle ends with a deduplication pass.
    pub open spec fn dedup_due(&self) -> bool {
        self.spec_config().dedup_rate != 0 && self.next_since_dedup() >= self.spec_config().dedup_rate
    }

    pub closed spec fn spec_total_cycles(&self) -> usize {
        self.total_cycles
    }

    /// The grid and the population are consistent and every organism fits
    /// the grid.
    pub open spec fn wf(&self) -> bool {
        &&& self.spec_grid().wf()
        &&& self.spec_organisms().wf()
        &&& self.spec_organisms().fits(self.spec_grid().spec_width(), self.spec_grid().spec_height())
    }

    /// A `width` by `height` world filled with `Nop` (cells may be random
    /// where the write error chance is nonzero), no organisms, and random
    /// sources derived from `seed`: the grid's and the culling one are
    /// seeded from the first two draws of a generator seeded with `seed`,
    /// which then drives cosmic rays.
    pub fn init(width: usize, height: usize, seed: u64, write_error_chance: u32) -> (r: Result<
        World,
        Error,
    >)
        requires
            width * height <= usize::MAX,
        ensures
            width == 0 ==> r == Err::<World, Error>(Error::BadWidth),
            width > 0 && height == 0 ==> r == Err::<World, Error>(Error::BadHeight),
            width > 0 && height > 0 ==> r is Ok,
            r matches Ok(w) ==> {
                &&& w.wf()
                &&& w.spec_grid().spec_width() == width
                &&& w.spec_grid().spec_height() == height
                &&& w.spec_grid().fault_chance() == write_error_chance
                &&& w.spec_grid().pierce_chance() == 0
                &&& (write_error_chance == 0 ==> forall|i: int|
                    0 <= i < w.spec_grid().cells().len() ==> #[trigger] w.spec_grid().cells()[i]
                        == Instruction::Nop.code())
                &&& w.spec_organisms().slots().len() == 0
                &&& w.spec_total_cycles() == 0
                &&& w.spec_config().rng_seed == seed
                &&& w.spec_config().max_organisms is None
                &&& w.spec_config().dedup_rate == 0
                &&& w.spec_config().cosmic_ray_rate == 0
            },
    {
        if width == 0 {
            return Err(Error::BadWidth);
        }
        if height == 0 {
            return Err(Error::BadHeight);
        }
        let mut rng = seeded(seed);
        let grid_rng = seeded(draw_u64(&mut rng));
        let kill_rng = seeded(draw_u64(&mut rng));
        let grid = match Grid::init(width, height, grid_rng, Instruction::Nop.to_byte(), write_error_chance) {
            Ok(g) => g,
            Err(e) => return Err(e),
        };
        Ok(
            World {
                total_cycles: 0,
                cycles_since_dedup: 0,
                cosmic_ray_rng: rng,
                organisms: OrganismCollection::new(kill_rng),
                grid,
                config: Config::new(seed),
            },
        )
    }

    pub fn grid(&self) -> (r: &Grid)
        ensures
            *r == self.spec_grid(),
    {
        &self.grid
    }

    pub fn organisms(&self) -> (r: &OrganismCollection)
        ensures
            *r == self.spec_organisms(),
    {
        &self.organisms
    }

    pub fn total_cycles(&self) -> (r: usize)
        ensures
            r == self.spec_total_cycles(),
    {
        self.total_cycles
    }

    /// Writes `config.cosmic_ray_rate` random bytes at random cells.
    fn cosmic_rays(&mut self)
        requires
            old(self).wf(),
        ensures
            final(self).wf(),
            final(self).spec_grid().same_shape(&old(self).spec_grid()),
            final(self).spec_organisms() == old(self).spec_organisms(),
            final(self).spec_total_cycles() == old(self).spec_total_cycles(),
            final(self).spec_cycles_since_dedup() == old(self).spec_cycles_since_dedup(),
            final(self).spec_config() == old(self).spec_config(),
            old(self).spec_config().cosmic_ray_rate == 0 ==> final(self).spec_grid().cells() == old(
                self,
            ).spec_grid().cells(),
    {
        let mut k: u32 = 0;
        let ghost g0 = self.grid;
        while k < self.config.cosmic_ray_rate
            invariant
                self.wf(),
                self.grid.same_shape(&g0),
                self.organisms == old(self).organisms,
                self.total_cycles == old(self).total_cycles,
                self.cycles_since_dedup == old(self).cycles_since_dedup,
                self.config == old(self).config,
                g0 == old(self).grid,
                self.config.cosmic_ray_rate == 0 ==> self.grid.cells() == g0.cells(),
            decreases self.config.cosmic_ray_rate - k,
        {
            let x = draw_index(&mut self.cosmic_ray_rng, self.grid.width());
            let y = draw_index(&mut self.cosmic_ray_rng, self.grid.height());
            let val = draw_byte(&mut self.cosmic_ray_rng);
            self.grid.set(Point { x, y }, val);
            k = k + 1;
        }
    }

    /// Runs one cycle of the population under the configured cap, then the
    /// cosmic rays, then a deduplication pass when one is due.
    pub fn cycle(&mut self)
        requires
            old(self).wf(),
        ensures
            final(self).wf(),
            final(self).spec_grid().same_shape(&old(self).spec_grid()),
            final(self).spec_config() == old(self).spec_config(),
            final(self).spec_organisms().ids_from(&old(self).spec_organisms()),
            old(self).spec_config().max_organisms matches Some(m) ==> final(self).spec_organisms().slots().len() <= m,
            final(self).spec_total_cycles() == if old(self).spec_total_cycles() < usize::MAX {
                old(self).spec_total_cycles() + 1
            } else {
                old(self).spec_total_cycles() as int
            },
            final(self).spec_cycles_since_dedup() == if old(self).dedup_due() {
                0
            } else {
                old(self).next_since_dedup()
            },
            exists|p: OrganismCollection, g: Grid|
                #[trigger] cycled(
                    old(self).spec_organisms(),
                    old(self).spec_grid(),
                    p,
                    g,
                    old(self).spec_config().max_organisms,
                ) && {
                    &&& final(self).spec_grid().same_shape(&g)
                    &&& (old(self).spec_config().cosmic_ray_rate == 0 ==> final(self).spec_grid().cells()
                        == g.cells())
                    &&& (!old(self).dedup_due() ==> final(self).spec_organisms() == p)
                    &&& (old(self).dedup_due() ==> views(final(self).spec_organisms().slots())
                        == dedup_seq(views(p.slots())))
                },
    {
        self.organisms.run_cycle(&mut self.grid, self.config.max_organisms);
        let ghost p = self.organisms;
        let ghost g = self.grid;
        self.cosmic_rays();
        if self.total_cycles < usize::MAX {
            self.total_cycles = self.total_cycles + 1;
        }
        if self.cycles_since_dedup < usize::MAX {
            self.cycles_since_dedup = self.cycles_since_dedup + 1;
        }
        let rate = self.config.dedup_rate;
        if rate != 0 && self.cycles_since_dedup >= rate {
            self.cycles_since_dedup = 0;
            let ghost before = self.organisms;
            self.organisms.dedup();
            proof {
                assert forall|id: OrganismId| #[trigger] self.organisms.contains(id) implies old(self).organisms.contains(id) || old(self).organisms.next_id() <= id by {
                    assert(before.contains(id) || before.next_id() <= id);
                }
                if let Some(m) = self.config.max_organisms {
                    crate::organism::lemma_dedup_shape(crate::organism::views(before.slots()));
                }
            }
        }
        proof {
            assert(cycled(old(self).organisms, old(self).grid, p, g, old(self).config.max_organisms));
            assert(self.grid.same_shape(&g));
            assert(old(self).dedup_due() ==> views(self.organisms.slots()) == dedup_seq(views(p.slots())));
            assert(!old(self).dedup_due() ==> self.organisms == p);
        }
    }

    /// Writes `byte` at `p`, through the grid's fault-injected write.
    pub fn set_byte(&mut self, p: Point, byte: u8)
        requires
            old(self).wf(),
            old(self).spec_grid().holds(p),
        ensures
            final(self).wf(),
            final(self).spec_organisms() == old(self).spec_organisms(),
            final(self).spec_config() == old(self).spec_config(),
            crate::state::written_at(old(self).spec_grid(), final(self).spec_grid(), p, byte),
            final(self).spec_grid().same_shape(&old(self).spec_grid()),
    {
        self.grid.set(p, byte);
    }

    /// Writes the opcodes of `instructions` from `start` rightwards,
    /// wrapping around the row.
    pub fn write_line(&mut self, start: Point, instructions: &Vec<Instruction>)
        requires
            old(self).wf(),
            old(self).spec_grid().holds(start),
        ensures
            final(self).wf(),
            final(self).spec_organisms() == old(self).spec_organisms(),
            final(self).spec_config() == old(self).spec_config(),
            final(self).spec_grid().same_shape(&old(self).spec_grid()),
            old(self).spec_grid().fault_chance() == 0 && instructions@.len() <= old(self).spec_grid().spec_width()
                ==> forall|k: int|
                0 <= k < instructions@.len() ==> #[trigger] final(self).spec_grid().at(
                    Point { x: wrap(start.x + k, old(self).spec_grid().spec_width()) as usize, y: start.y },
                ) == instructions@[k].code(),
    {
        let ghost g0 = self.grid;
        let w = self.grid.width();
        let ghost wi = w as int;
        let mut pos = start;
        let mut k: usize = 0;
        proof {
            crate::grid::lemma_wrap_basics(start.x as int, wi);
        }
        while k < instructions.len()
            invariant
                self.wf(),
                self.grid.same_shape(&g0),
                self.organisms == old(self).organisms,
                self.config == old(self).config,
                wi == w,
                wi == g0.spec_width(),
                g0 == old(self).grid,
                start.x < w,
                start.y < g0.spec_height(),
                k <= instructions@.len(),
                pos.y == start.y,
                self.grid.holds(pos),
                pos.x as int == wrap(start.x + k, wi),
                g0.fault_chance() == 0 && instructions@.len() <= wi ==> forall|j: int|
                    0 <= j < k ==> #[trigger] self.grid.at(
                        Point { x: wrap(start.x + j, wi) as usize, y: start.y },
                    ) == instructions@[j].code(),
            decreases instructions@.len() - k,
        {
            let ghost before = self.grid;
            self.grid.set(pos, instructions[k].to_byte());
            proof {
                if g0.fault_chance() == 0 && instructions@.len() <= wi {
                    assert forall|j: int| 0 <= j < k + 1 implies #[trigger] self.grid.at(
                        Point { x: wrap(start.x + j, wi) as usize, y: start.y },
                    ) == instructions@[j].code() by {
                        let q = Point { x: wrap(start.x + j, wi) as usize, y: start.y };
                        vstd::arithmetic::div_mod::lemma_mod_bound(start.x + j, wi);
                        if j < k {
                            crate::grid::lemma_wrap_apart(start.x + j, (k - j) as int, wi);
                            if before.index_of(q) == before.index_of(pos) {
                                crate::grid::lemma_index_injective(q, pos, wi, g0.spec_height());
                            }
                            crate::grid::lemma_index_in_range(q, wi, g0.spec_height());
                            crate::grid::lemma_index_in_range(pos, wi, g0.spec_height());
                            assert(before.index_of(q) != before.index_of(pos));
                            assert(self.grid.at(q) == before.at(q));
                        } else {
                            assert(q == pos);
                        }
                    }
                }
                crate::grid::lemma_wrap_succ(start.x + k, wi);
            }
            pos = pos.right(w);
            k = k + 1;
        }
    }

    /// Runs the given instructions on the live organism `id` outside the
    /// cycle; reports whether one of them asked the organism to die.
    pub fn run_instructions(&mut self, id: OrganismId, instructions: &Vec<Instruction>) -> (r: bool)
        requires
            old(self).wf(),
            old(self).spec_organisms().contains(id),
        ensures
            final(self).wf(),
            final(self).spec_config() == old(self).spec_config(),
            final(self).spec_grid().same_shape(&old(self).spec_grid()),
            final(self).spec_organisms().contains(id),
            final(self).spec_organisms().ids_from(&old(self).spec_organisms()),
            forall|x: OrganismId|
                old(self).spec_organisms().contains(x) && x != id ==> #[trigger] final(self).spec_organisms().contains(x)
                    && final(self).spec_organisms().ctx(x) == old(self).spec_organisms().ctx(x),
            exists|ss: Seq<StateModel>, gs: Seq<Grid>, outs: Seq<Outcome>|
                #[trigger] ran(old(self).spec_organisms().ctx(id).organism@, old(self).spec_grid(), instructions@, ss, gs, outs)
                    && {
                    &&& gs.last() == final(self).spec_grid()
                    &&& final(self).spec_organisms().ctx(id)@ == (ContextModel {
                        organism: ss.last(),
                        ..old(self).spec_organisms().ctx(id)@
                    })
                    &&& r == exists|j: int| 0 <= j < outs.len() && (#[trigger] outs[j]) is Die
                    &&& forall|x: OrganismId|
                        #[trigger] final(self).spec_organisms().contains(x) && !old(self).spec_organisms().contains(x)
                            ==> outs.contains(Outcome::Fork(final(self).spec_organisms().ctx(x).organism@))
                },
    {
        self.organisms.run_on(id, &mut self.grid, instructions)
    }

    /// Moves the instruction pointer of the live organism `id` by `n`
    /// steps in direction `dir`.
    pub fn move_ip(&mut self, id: OrganismId, dir: Dir, n: usize)
        requires
            old(self).wf(),
            old(self).spec_organisms().contains(id),
        ensures
            final(self).wf(),
            final(self).spec_grid() == old(self).spec_grid(),
            final(self).spec_config() == old(self).spec_config(),
            final(self).spec_organisms().contains(id),
            final(self).spec_organisms().ctx(id).organism.ip == old(self).spec_grid().step(
                old(self).spec_organisms().ctx(id).organism.ip,
                dir,
                n as int,
            ),
    {
        self.organisms.move_ip(id, dir, n, &self.grid);
    }

    /// Removes the live organism `id`.
    pub fn kill(&mut self, id: OrganismId)
        requires
            old(self).wf(),
            old(self).spec_organisms().contains(id),
        ensures
            final(self).wf(),
            final(self).spec_grid() == old(self).spec_grid(),
            final(self).spec_config() == old(self).spec_config(),
            !final(self).spec_organisms().contains(id),
            final(self).spec_organisms().slots().len() == old(self).spec_organisms().slots().len() - 1,
    {
        self.organisms.remove(id);
    }

    /// Removes organisms that duplicate an earlier one.
    pub fn dedup(&mut self)
        requires
            old(self).wf(),
        ensures
            final(self).wf(),
            final(self).spec_grid() == old(self).spec_grid(),
            final(self).spec_config() == old(self).spec_config(),
            crate::organism::views(final(self).spec_organisms().slots()) == crate::organism::dedup_seq(
                crate::organism::views(old(self).spec_organisms().slots()),
            ),
    {
        self.organisms.dedup();
    }

    /// Sets how many children new organisms may have.
    pub fn set_max_children(&mut self, max: Option<u8>)
        requires
            old(self).wf(),
        ensures
            final(self).wf(),
            final(self).spec_organisms().spec_max_children() == max,
            final(self).spec_grid() == old(self).spec_grid(),
            final(self).spec_config() == old(self).spec_config(),
    {
        self.organisms.set_max_children(max);
    }

    /// Sets how many cycles new organisms may live.
    pub fn set_lifetime(&mut self, lifetime: Option<u8>)
        requires
            old(self).wf(),
        ensures
            final(self).wf(),
            final(self).spec_organisms().spec_lifetime() == lifetime,
            final(self).spec_grid() == old(self).spec_grid(),
            final(self).spec_config() == old(self).spec_config(),
    {
        self.organisms.set_lifetime(lifetime);
    }

    /// Sets the inverse probability of a write fault (0: none).
    pub fn set_write_error_chance(&mut self, chance: u32)
        requires
            old(self).wf(),
        ensures
            final(self).wf(),
            final(self).spec_grid().fault_chance() == chance,
            final(self).spec_grid().cells() == old(self).spec_grid().cells(),
            final(self).spec_organisms() == old(self).spec_organisms(),
    {
        self.grid.set_write_error_chance(chance);
    }

    /// Sets the inverse probability of piercing a wall (0: never).
    pub fn set_wall_pierce_chance(&mut self, chance: u32)
        requires
            old(self).wf(),
        ensures
            final(self).wf(),
            final(self).spec_grid().pierce_chance() == chance,
            final(self).spec_grid().cells() == old(self).spec_grid().cells(),
            final(self).spec_organisms() == old(self).spec_organisms(),
    {
        self.grid.set_wall_pierce_chance(chance);
    }

    /// The grid point at offset `p` from the view's corner `offset`.
    pub fn absolute(&self, offset: Point, p: Point) -> (r: Point)
        requires
            self.wf(),
        ensures
            r.x as int == wrap(offset.x + p.x, self.spec_grid().spec_width()),
            r.y as int == wrap(offset.y + p.y, self.spec_grid().spec_height()),
            self.spec_grid().holds(r),
    {
        let w = self.grid.width();
        let h = self.grid.height();
        let corner = Point { x: offset.x % w, y: offset.y % h };
        proof {
            vstd::arithmetic::div_mod::lemma_add_mod_noop(offset.x as int, p.x as int, w as int);
            vstd::arithmetic::div_mod::lemma_add_mod_noop(offset.y as int, p.y as int, h as int);
            vstd::arithmetic::div_mod::lemma_mod_twice(p.x as int, w as int);
            vstd::arithmetic::div_mod::lemma_mod_twice(p.y as int, h as int);
            vstd::arithmetic::div_mod::lemma_add_mod_noop(offset.x as int % w as int, p.x as int, w as int);
            vstd::arithmetic::div_mod::lemma_add_mod_noop(offset.y as int % h as int, p.y as int, h as int);
            vstd::arithmetic::div_mod::lemma_mod_twice(offset.x as int, w as int);
            vstd::arithmetic::div_mod::lemma_mod_twice(offset.y as int, h as int);
        }
        corner.right_n(p.x, w).down_n(p.y, h)
    }

    /// The palette position of each cell's category, in row-major order.
    pub fn category_indices(&self) -> (r: Vec<u8>)
        requires
            self.wf(),
        ensures
            r@.len() == self.spec_grid().cells().len(),
            forall|i: int|
                0 <= i < r@.len() ==> #[trigger] r@[i] == Instruction::decode(
                    self.spec_grid().cells()[i],
                ).spec_category().spec_index(),
    {
        let cells = self.grid.view_all();
        let w = self.grid.width();
        let h = self.grid.height();
        let mut r: Vec<u8> = Vec::new();
        let mut y: usize = 0;
        while y < h
            invariant
                self.wf(),
                w as int == self.spec_grid().spec_width(),
                h as int == self.spec_grid().spec_height(),
                y <= h,
                cells@.len() == h,
                forall|i: int| 0 <= i < h ==> (#[trigger] cells@[i])@.len() == w,
                forall|i: int, j: int|
                    0 <= i < h && 0 <= j < w ==> {
                        let q = Point { x: j as usize, y: i as usize };
                        #[trigger] cells@[i]@[j] == (q, self.spec_grid().at(q))
                    },
                r@.len() == y * w,
                forall|k: int|
                    0 <= k < r@.len() ==> #[trigger] r@[k] == Instruction::decode(
                        self.spec_grid().cells()[k],
                    ).spec_category().spec_index(),
            decreases h - y,
        {
            let mut x: usize = 0;
            while x < w
                invariant
                    self.wf(),
                    w as int == self.spec_grid().spec_width(),
                    h as int == self.spec_grid().spec_height(),
                    y < h,
                    x <= w,
                    cells@.len() == h,
                    forall|i: int| 0 <= i < h ==> (#[trigger] cells@[i])@.len() == w,
                    forall|i: int, j: int|
                        0 <= i < h && 0 <= j < w ==> {
                            let q = Point { x: j as usize, y: i as usize };
                            #[trigger] cells@[i]@[j] == (q, self.spec_grid().at(q))
                        },
                    r@.len() == y * w + x,
                    forall|k: int|
                        0 <= k < r@.len() ==> #[trigger] r@[k] == Instruction::decode(
                            self.spec_grid().cells()[k],
                        ).spec_category().spec_index(),
                decreases w - x,
            {
                let (_, byte) = cells[y][x];
                proof {
                    let q = Point { x: x as usize, y: y as usize };
                    assert(cells@[y as int]@[x as int] == (q, self.spec_grid().at(q)));
                    assert(self.spec_grid().index_of(q) == y * w + x);
                }
                r.push(Instruction::from_byte(byte).category().index());
                x = x + 1;
            }
            proof {
                assert(y * w + w == (y + 1) * w) by (nonlinear_arith);
            }
            y = y + 1;
        }
        proof {
            assert(h * w == w * h) by (nonlinear_arith);
        }
        r
    }

    /// Adds a new organism at `pos`; returns its id, or `None` once every
    /// id has been used.
    pub fn spawn(&mut self, pos: Point) -> (r: Option<OrganismId>)
        requires
            old(self).wf(),
            old(self).spec_grid().holds(pos),
        ensures
            final(self).wf(),
            final(self).spec_grid() == old(self).spec_grid(),
            final(self).spec_config() == old(self).spec_config(),
            r matches Some(id) ==> final(self).spec_organisms().contains(id) && final(self).spec_organisms().ctx(id).organism@ == fresh_state(pos),
            old(self).spec_organisms().next_id() < u64::MAX ==> r is Some,
    {
        let state = OrganismState::init(pos);
        let ghost s = state@;
        let ghost before = self.organisms;
        let n = self.organisms.len();
        let r = self.organisms.insert(state);
        proof {
            if let Some(id) = r {
                assert(before.next_id() < u64::MAX);
                assert(id == before.next_id());
                assert(self.organisms.index()[id] == n);
                assert(self.organisms.slots()[n as int].organism@ == s);
            }
        }
        r
    }
}

} // verus!
