//! The population: live organisms under stable ids, the cycle driver, the
//! population cap with random culling, and deduplication.

use vstd::prelude::*;
use std::collections::BTreeMap;
use rand::rngs::StdRng;
use crate::grid::Grid;
use crate::instruction::Instruction;
use crate::random::draw_index;
use crate::state::{OrganismState, Outcome, Response, StateModel, effect, grid_after};

verus! {

broadcast use vstd::std_specs::btree::group_btree_axioms, vstd::laws_cmp::group_laws_cmp,
    vstd::seq_lib::lemma_seq_contains_after_push;

/// A unique identifier for an organism.
pub type OrganismId = u64;

/// One live organism with its scheduling counters.
pub struct OrganismContext {
    /// The organism's identifier, never reused.
    pub id: OrganismId,
    /// Forks still permitted; `None` means unlimited.
    pub child_potential: Option<u8>,
    /// Cycles still to live; `None` means immortal.
    pub life_potential: Option<u8>,
    /// Cycles still to skip before the next instruction.
    pub delay_cycles: u8,
    pub organism: OrganismState,
}

/// The mathematical content of an `OrganismContext`.
pub struct ContextModel {
    pub id: OrganismId,
    pub child_potential: Option<u8>,
    pub life_potential: Option<u8>,
    pub delay_cycles: u8,
    pub organism: StateModel,
}

impl View for OrganismContext {
    type V = ContextModel;

    open spec fn view(&self) -> ContextModel {
        ContextModel {
            id: self.id,
            child_potential: self.child_potential,
            life_potential: self.life_potential,
            delay_cycles: self.delay_cycles,
            organism: self.organism@,
        }
    }
}

impl OrganismContext {
    pub fn id(&self) -> (r: OrganismId)
        ensures
            r == self.id,
    {
        self.id
    }

    /// What one cycle does to one organism: a delay is waited out, an
    /// exhausted life ends, or the instruction under the pointer runs and
    /// the pointer advances. Returns whether the organism is to be removed,
    /// and the child it forked, if its allowance permits one.
    pub fn step(&mut self, grid: &mut Grid) -> (r: (bool, Option<OrganismState>))
        requires
            old(grid).wf(),
            old(self).organism.wf_in(old(grid).spec_width(), old(grid).spec_height()),
        ensures
            stepped(*old(self), *old(grid), *final(self), *final(grid), r.0, r.1),
    {
        if self.delay_cycles != 0 {
            self.delay_cycles = self.delay_cycles - 1;
            return (false, None);
        }
        if !dec_option(&mut self.life_potential) {
            return (true, None);
        }
        let ins = Instruction::from_byte(grid.at_point(self.organism.ip));
        match self.organism.run(grid, ins) {
            Response::Delay(delay) => {
                self.delay_cycles = delay;
                self.organism.advance(grid);
                (false, None)
            },
            Response::Fork(child) => {
                self.organism.advance(grid);
                if dec_option(&mut self.child_potential) {
                    let mut child = child;
                    child.advance(grid);
                    (false, Some(child))
                } else {
                    (false, None)
                }
            },
            Response::Die => (true, None),
        }
    }
}

/// A cycle's pass over `p0` on `g0`: organism `j` of `p0` took its turn on
/// grid `gs[j]`, became `cs[j]`, left grid `gs[j+1]`, died if `deaths[j]`
/// and forked `kids[j]`; the pass ended on `g1`; and every organism of `p0`
/// still alive in `p1` did not die and is what its turn made it.
pub open spec fn took_turns(
    p0: OrganismCollection,
    g0: Grid,
    p1: OrganismCollection,
    g1: Grid,
    gs: Seq<Grid>,
    cs: Seq<OrganismContext>,
    deaths: Seq<bool>,
    kids: Seq<Option<OrganismState>>,
) -> bool {
    let n = p0.slots().len();
    &&& gs.len() == n + 1
    &&& cs.len() == n
    &&& deaths.len() == n
    &&& kids.len() == n
    &&& gs[0] == g0
    &&& gs[n as int] == g1
    &&& forall|j: int|
        0 <= j < n ==> stepped(p0.slots()[j], #[trigger] gs[j], cs[j], gs[j + 1], deaths[j], kids[j])
    &&& forall|id: OrganismId|
        p0.contains(id) && #[trigger] p1.contains(id) ==> !deaths[p0.index()[id] as int] && p1.ctx(id)
            == cs[p0.index()[id] as int]
}

/// How many turns did not end in death.
pub open spec fn survivors(deaths: Seq<bool>) -> nat
    decreases deaths.len(),
{
    if deaths.len() == 0 {
        0
    } else {
        survivors(deaths.drop_last()) + if deaths.last() {
            0nat
        } else {
            1nat
        }
    }
}

/// The children that the turns produced, in order.
pub open spec fn accepted(kids: Seq<Option<OrganismState>>) -> Seq<OrganismState>
    decreases kids.len(),
{
    if kids.len() == 0 {
        Seq::empty()
    } else {
        let a = accepted(kids.drop_last());
        match kids.last() {
            Some(c) => a.push(c),
            None => a,
        }
    }
}

pub open spec fn smaller(a: int, b: int) -> int {
    if a <= b {
        a
    } else {
        b
    }
}

/// How many of `live` organisms the cap culls when `born` children wait.
pub open spec fn live_culls(live: int, born: int, max: Option<usize>) -> int {
    match max {
        None => 0,
        Some(m) => live - smaller(live, m - smaller(m as int, born)),
    }
}

/// How many of `born` waiting children the cap culls.
pub open spec fn child_culls(born: int, max: Option<usize>) -> int {
    match max {
        None => 0,
        Some(m) => born - smaller(born, m as int),
    }
}

/// How a cycle's deaths and children settle the population: where the
/// cap culls no live organism, every organism that did not die stays; every
/// new organism is one of the children; and while ids remain, the
/// population ends at `min(survivors + children, cap)` (without a cap, at
/// their sum), and where no child is culled the children are added in order
/// under the next ids.
pub open spec fn settled(
    p0: OrganismCollection,
    p1: OrganismCollection,
    max: Option<usize>,
    deaths: Seq<bool>,
    kids: Seq<Option<OrganismState>>,
) -> bool {
    let n = p0.slots().len();
    let live = survivors(deaths) as int;
    let born = accepted(kids).len() as int;
    &&& live_culls(live, born, max) == 0 ==> forall|j: int|
        0 <= j < n && !deaths[j] ==> #[trigger] p1.contains(p0.slots()[j].id)
    &&& forall|id: OrganismId|
        #[trigger] p1.contains(id) && !p0.contains(id) ==> accepted(kids).contains(p1.ctx(id).organism)
    &&& p0.next_id() + n <= u64::MAX ==> {
        &&& p1.slots().len() == match max {
            None => live + born,
            Some(m) => smaller(live + born, m as int),
        }
        &&& child_culls(born, max) == 0 ==> {
            &&& p1.next_id() == p0.next_id() + born
            &&& forall|t: int|
                0 <= t < born ==> p1.contains((p0.next_id() + t) as u64) && p1.ctx(
                    (p0.next_id() + t) as u64,
                ).organism == #[trigger] accepted(kids)[t]
        }
    }
}

/// One cycle of the population `p0` on `g0`, ending as `p1` on `g1`, under
/// the cap `max`: every organism took its turn (`took_turns`) and the deaths
/// and children settled (`settled`); the cap holds; delayed organisms only
/// count down; organisms whose life ran out are gone; new organisms take
/// fresh ids with no delay and the configured allowances.
pub open spec fn cycled(
    p0: OrganismCollection,
    g0: Grid,
    p1: OrganismCollection,
    g1: Grid,
    max: Option<usize>,
) -> bool {
    &&& p1.wf()
    &&& g1.wf()
    &&& g1.same_shape(&g0)
    &&& p1.fits(g0.spec_width(), g0.spec_height())
    &&& p1.ids_from(&p0)
    &&& p1.spec_max_children() == p0.spec_max_children()
    &&& p1.spec_lifetime() == p0.spec_lifetime()
    &&& (max matches Some(m) ==> p1.slots().len() <= m)
    &&& forall|id: OrganismId|
        p0.contains(id) && p0.ctx(id).delay_cycles > 0 && #[trigger] p1.contains(id) ==> p1.ctx(id)@
            == (ContextModel { delay_cycles: (p0.ctx(id).delay_cycles - 1) as u8, ..p0.ctx(id)@ })
    &&& forall|id: OrganismId|
        p0.contains(id) && p0.ctx(id).delay_cycles == 0 && !available(p0.ctx(id).life_potential)
            ==> !#[trigger] p1.contains(id)
    &&& max is None ==> forall|id: OrganismId|
        p0.contains(id) && p0.ctx(id).delay_cycles > 0 ==> #[trigger] p1.contains(id)
    &&& exists|gs: Seq<Grid>, cs: Seq<OrganismContext>, deaths: Seq<bool>, kids: Seq<Option<OrganismState>>|
        #[trigger] took_turns(p0, g0, p1, g1, gs, cs, deaths, kids) && settled(p0, p1, max, deaths, kids)
    &&& forall|id: OrganismId|
        #[trigger] p1.contains(id) && !p0.contains(id) ==> {
            &&& p1.ctx(id).delay_cycles == 0
            &&& p1.ctx(id).child_potential == p0.spec_max_children()
            &&& p1.ctx(id).life_potential == p0.spec_lifetime()
        }
}

/// Running `ins` in turn from state `s0` on grid `g0`: step `j` takes
/// `ss[j]` on `gs[j]` to `ss[j+1]` on `gs[j+1]` as `effect` and `grid_after`
/// say, with outcome `outs[j]`.
pub open spec fn ran(
    s0: StateModel,
    g0: Grid,
    ins: Seq<Instruction>,
    ss: Seq<StateModel>,
    gs: Seq<Grid>,
    outs: Seq<Outcome>,
) -> bool {
    &&& ss.len() == ins.len() + 1
    &&& gs.len() == ins.len() + 1
    &&& outs.len() == ins.len()
    &&& ss[0] == s0
    &&& gs[0] == g0
    &&& forall|j: int|
        0 <= j < ins.len() ==> (ss[j + 1], outs[j]) == effect(#[trigger] ss[j], gs[j], ins[j])
            && grid_after(gs[j], gs[j + 1], ss[j], ins[j])
}

/// A counter after one use: unlimited stays unlimited, zero stays zero.
pub open spec fn spent(c: Option<u8>) -> Option<u8> {
    match c {
        Some(n) => Some(if n > 0 { (n - 1) as u8 } else { 0u8 }),
        None => None,
    }
}

/// The counter was not yet exhausted.
pub open spec fn available(c: Option<u8>) -> bool {
    c != Some(0u8)
}

/// The state after its instruction pointer advances one step.
pub open spec fn advanced(s: StateModel, g: Grid) -> StateModel {
    StateModel { ip: g.step(s.ip, s.dir, 1), ..s }
}

/// What deduplication compares: the delay and the whole organism state.
pub open spec fn dedup_key(c: ContextModel) -> (u8, StateModel) {
    (c.delay_cycles, c.organism)
}

/// Some organism of `s` has key `k`.
pub open spec fn has_key(s: Seq<ContextModel>, k: (u8, StateModel)) -> bool {
    exists|j: int| 0 <= j < s.len() && dedup_key(#[trigger] s[j]) == k
}

/// `s` without every organism whose key occurs earlier in it.
pub open spec fn dedup_seq(s: Seq<ContextModel>) -> Seq<ContextModel>
    decreases s.len(),
{
    if s.len() == 0 {
        s
    } else {
        let prev = dedup_seq(s.drop_last());
        if has_key(s.drop_last(), dedup_key(s.last())) {
            prev
        } else {
            prev.push(s.last())
        }
    }
}

/// No two organisms of `s` share a key.
pub open spec fn keys_distinct(s: Seq<ContextModel>) -> bool {
    forall|a: int, b: int| 0 <= a < b < s.len() ==> dedup_key(#[trigger] s[a]) != dedup_key(#[trigger] s[b])
}

/// No two organisms of `s` share an id.
pub open spec fn ids_distinct(s: Seq<ContextModel>) -> bool {
    forall|a: int, b: int| 0 <= a < b < s.len() ==> (#[trigger] s[a]).id != (#[trigger] s[b]).id
}

/// The views of a sequence of organisms.
pub open spec fn views(s: Seq<OrganismContext>) -> Seq<ContextModel> {
    s.map_values(|c: OrganismContext| c@)
}

/// Deduplication keeps the keys of `s`, keeps only organisms of `s`, and
/// leaves no key twice.
pub proof fn lemma_dedup_shape(s: Seq<ContextModel>)
    ensures
        forall|k: (u8, StateModel)| has_key(dedup_seq(s), k) == has_key(s, k),
        forall|i: int| 0 <= i < dedup_seq(s).len() ==> s.contains(#[trigger] dedup_seq(s)[i]),
        keys_distinct(dedup_seq(s)),
        dedup_seq(s).len() <= s.len(),
    decreases s.len(),
{
    if s.len() > 0 {
        let t = s.drop_last();
        lemma_dedup_shape(t);
        let d = dedup_seq(t);
        assert forall|k: (u8, StateModel)| has_key(dedup_seq(s), k) == has_key(s, k) by {
            let e = dedup_seq(s);
            if has_key(s, k) {
                let j = choose|j: int| 0 <= j < s.len() && dedup_key(#[trigger] s[j]) == k;
                if j < t.len() || has_key(t, dedup_key(s.last())) {
                    if j < t.len() {
                        assert(t[j] == s[j]);
                    }
                    assert(has_key(t, k));
                    assert(has_key(d, k));
                    let i = choose|i: int| 0 <= i < d.len() && dedup_key(#[trigger] d[i]) == k;
                    assert(e[i] == d[i]);
                    assert(dedup_key(e[i]) == k);
                } else {
                    assert(e[d.len() as int] == s.last());
                    assert(dedup_key(e[d.len() as int]) == k);
                }
            }
            if has_key(e, k) {
                let j = choose|j: int| 0 <= j < e.len() && dedup_key(#[trigger] e[j]) == k;
                if j < d.len() {
                    assert(e[j] == d[j]);
                    assert(has_key(d, k));
                    assert(has_key(t, k));
                    let m = choose|m: int| 0 <= m < t.len() && dedup_key(#[trigger] t[m]) == k;
                    assert(s[m] == t[m]);
                    assert(dedup_key(s[m]) == k);
                } else {
                    assert(e[j] == s[s.len() - 1]);
                    assert(dedup_key(s[s.len() - 1]) == k);
                }
            }
        }
        assert forall|i: int| 0 <= i < dedup_seq(s).len() implies s.contains(#[trigger] dedup_seq(s)[i]) by {
            if i < d.len() {
                assert(dedup_seq(s)[i] == d[i]);
                assert(t.contains(d[i]));
                let m = choose|m: int| 0 <= m < t.len() && t[m] == d[i];
                assert(s[m] == t[m]);
            } else {
                assert(s[s.len() - 1] == s.last());
            }
        }
        if !has_key(t, dedup_key(s.last())) {
            assert forall|a: int, b: int| 0 <= a < b < dedup_seq(s).len() implies dedup_key(
                #[trigger] dedup_seq(s)[a],
            ) != dedup_key(#[trigger] dedup_seq(s)[b]) by {
                if b == d.len() {
                    assert(dedup_seq(s)[a] == d[a]);
                    if dedup_key(d[a]) == dedup_key(s.last()) {
                        assert(has_key(d, dedup_key(s.last())));
                    }
                } else {
                    assert(dedup_seq(s)[a] == d[a]);
                    assert(dedup_seq(s)[b] == d[b]);
                }
            }
        }
    }
}

/// Deduplication keeps a sequence whose keys are already distinct.
pub proof fn lemma_dedup_distinct(s: Seq<ContextModel>)
    requires
        keys_distinct(s),
    ensures
        dedup_seq(s) == s,
    decreases s.len(),
{
    if s.len() > 0 {
        let t = s.drop_last();
        assert(keys_distinct(t)) by {
            assert forall|a: int, b: int| 0 <= a < b < t.len() implies dedup_key(#[trigger] t[a])
                != dedup_key(#[trigger] t[b]) by {
                assert(t[a] == s[a] && t[b] == s[b]);
            }
        }
        lemma_dedup_distinct(t);
        if has_key(t, dedup_key(s.last())) {
            let j = choose|j: int| 0 <= j < t.len() && dedup_key(#[trigger] t[j]) == dedup_key(s.last());
            assert(t[j] == s[j]);
            assert(dedup_key(s[j]) != dedup_key(s[s.len() - 1]));
        }
        assert(t.push(s.last()) =~= s);
    }
}

/// Deduplicating twice is the same as deduplicating once.
pub proof fn lemma_dedup_idempotent(s: Seq<ContextModel>)
    ensures
        dedup_seq(dedup_seq(s)) == dedup_seq(s),
{
    lemma_dedup_shape(s);
    lemma_dedup_distinct(dedup_seq(s));
}

/// Deduplication keeps ids distinct.
proof fn lemma_dedup_ids(s: Seq<ContextModel>)
    requires
        ids_distinct(s),
    ensures
        ids_distinct(dedup_seq(s)),
    decreases s.len(),
{
    if s.len() > 0 {
        let t = s.drop_last();
        assert(ids_distinct(t)) by {
            assert forall|a: int, b: int| 0 <= a < b < t.len() implies (#[trigger] t[a]).id
                != (#[trigger] t[b]).id by {
                assert(t[a] == s[a] && t[b] == s[b]);
            }
        }
        lemma_dedup_ids(t);
        lemma_dedup_shape(t);
        let d = dedup_seq(t);
        if !has_key(t, dedup_key(s.last())) {
            assert forall|a: int, b: int| 0 <= a < b < dedup_seq(s).len() implies (
            #[trigger] dedup_seq(s)[a]).id != (#[trigger] dedup_seq(s)[b]).id by {
                assert(dedup_seq(s)[a] == d[a]);
                if b == d.len() {
                    assert(t.contains(d[a]));
                    let m = choose|m: int| 0 <= m < t.len() && t[m] == d[a];
                    assert(s[m] == t[m]);
                    assert(s[s.len() - 1] == s.last());
                } else {
                    assert(dedup_seq(s)[b] == d[b]);
                }
            }
        }
    }
}

/// One organism's turn of a cycle, from `c0` on `g0` to `c1` on `g1`: a
/// delay is waited out and an exhausted life ends (`dies`), both leaving
/// the grid as it was; otherwise the instruction under the pointer runs as
/// `effect` says, changes the grid as `grid_after` says, and the pointer
/// advances; a fork yields `child` while the allowance lasts.
pub open spec fn stepped(
    c0: OrganismContext,
    g0: Grid,
    c1: OrganismContext,
    g1: Grid,
    dies: bool,
    child: Option<OrganismState>,
) -> bool {
    &&& g1.wf()
    &&& g1.same_shape(&g0)
    &&& c1.id == c0.id
    &&& c1.organism.wf_in(g0.spec_width(), g0.spec_height())
    &&& (child matches Some(c) ==> c.wf_in(g0.spec_width(), g0.spec_height()))
    &&& c0.delay_cycles > 0 ==> {
        &&& c1@ == (ContextModel { delay_cycles: (c0.delay_cycles - 1) as u8, ..c0@ })
        &&& !dies && child is None
        &&& g1 == g0
    }
    &&& c0.delay_cycles == 0 && !available(c0.life_potential) ==> {
        &&& c1@ == c0@
        &&& dies && child is None
        &&& g1 == g0
    }
    &&& c0.delay_cycles == 0 && available(c0.life_potential) ==> {
        let ins = Instruction::decode(g0.at(c0.organism.ip));
        let (s1, out) = effect(c0.organism@, g0, ins);
        &&& grid_after(g0, g1, c0.organism@, ins)
        &&& c1.id == c0.id
        &&& c1.life_potential == spent(c0.life_potential)
        &&& match out {
            Outcome::Die => dies && child is None,
            Outcome::Delay(n) => {
                &&& !dies && child is None
                &&& c1.delay_cycles == n
                &&& c1.child_potential == c0.child_potential
                &&& c1.organism@ == advanced(s1, g0)
            },
            Outcome::Fork(c) => {
                &&& !dies
                &&& c1.delay_cycles == 0
                &&& c1.child_potential == spent(c0.child_potential)
                &&& c1.organism@ == advanced(s1, g0)
                &&& available(c0.child_potential) ==> (child matches Some(k) && k@ == advanced(
                    c,
                    g0,
                ))
                &&& !available(c0.child_potential) ==> child is None
            },
        }
    }
}

/// Decrements a counter if it is present and positive; reports whether it
/// was usable (absent or positive).
fn dec_option(opt: &mut Option<u8>) -> (usable: bool)
    ensures
        usable == available(*old(opt)),
        *final(opt) == spent(*old(opt)),
{
    match opt {
        Some(t) => {
            if *t > 0 {
                *t = *t - 1;
                true
            } else {
                false
            }
        },
        None => true,
    }
}

/// The live organisms, held in a slot vector with an index from id to
/// slot, and the configuration that applies to new organisms.
pub struct OrganismCollection {
    /// The id that the next organism receives.
    next_id: OrganismId,
    /// The number of children a new organism may have.
    max_children: Option<u8>,
    /// The number of cycles a new organism may live.
    lifetime: Option<u8>,
    /// The live organisms.
    organisms: Vec<OrganismContext>,
    /// Where each live organism's id sits in `organisms`.
    id_map: BTreeMap<OrganismId, usize>,
    /// Chooses which organism dies when the population is over its cap.
    kill_rng: StdRng,
}

impl OrganismCollection {
    /// The live organisms in slot order.
    pub closed spec fn slots(&self) -> Seq<OrganismContext> {
        self.organisms@
    }

    /// The slot of each live id.
    pub closed spec fn index(&self) -> Map<OrganismId, usize> {
        self.id_map@
    }

    /// The id that the next organism will receive.
    pub closed spec fn next_id(&self) -> OrganismId {
        self.next_id
    }

    pub closed spec fn spec_max_children(&self) -> Option<u8> {
        self.max_children
    }

    pub closed spec fn spec_lifetime(&self) -> Option<u8> {
        self.lifetime
    }

    /// An organism with this id is alive.
    pub open spec fn contains(&self, id: OrganismId) -> bool {
        self.index().contains_key(id)
    }

    /// The live organism with this id.
    pub open spec fn ctx(&self, id: OrganismId) -> OrganismContext {
        self.slots()[self.index()[id] as int]
    }

    /// The index and the slots agree, and every id is below the next one.
    pub open spec fn wf(&self) -> bool {
        &&& forall|id: OrganismId|
            #[trigger] self.index().contains_key(id) ==> {
                &&& (self.index()[id] as int) < self.slots().len()
                &&& self.slots()[self.index()[id] as int].id == id
            }
        &&& forall|i: int|
            0 <= i < self.slots().len() ==> {
                &&& self.index().contains_key(#[trigger] self.slots()[i].id)
                &&& self.index()[self.slots()[i].id] == i
                &&& self.slots()[i].id < self.next_id()
            }
    }

    /// Every organism can run on a `w` by `h` grid.
    pub open spec fn fits(&self, w: int, h: int) -> bool {
        forall|i: int| 0 <= i < self.slots().len() ==> (#[trigger] self.slots()[i]).organism.wf_in(w, h)
    }

    /// Every organism of `self` was in `old` or took a fresh id.
    pub open spec fn ids_from(&self, old: &OrganismCollection) -> bool {
        &&& self.next_id() >= old.next_id()
        &&& forall|id: OrganismId| #[trigger] self.contains(id) ==> old.contains(id) || old.next_id() <= id
    }

    /// An empty population; new organisms may have 4 children and live 100
    /// cycles.
    pub fn new(kill_rng: StdRng) -> (r: OrganismCollection)
        ensures
            r.wf(),
            r.slots().len() == 0,
            r.index() == Map::<OrganismId, usize>::empty(),
            r.next_id() == 0,
            r.spec_max_children() == Some(4u8),
            r.spec_lifetime() == Some(100u8),
    {
        OrganismCollection {
            next_id: 0,
            max_children: Some(4),
            lifetime: Some(100),
            organisms: Vec::new(),
            id_map: BTreeMap::new(),
            kill_rng,
        }
    }

    pub fn max_children(&self) -> (r: Option<u8>)
        ensures
            r == self.spec_max_children(),
    {
        self.max_children
    }

    pub fn lifetime(&self) -> (r: Option<u8>)
        ensures
            r == self.spec_lifetime(),
    {
        self.lifetime
    }

    /// Sets how many children new organisms may have (`None`: unlimited).
    pub fn set_max_children(&mut self, max: Option<u8>)
        ensures
            final(self).spec_max_children() == max,
            final(self).spec_lifetime() == old(self).spec_lifetime(),
            final(self).slots() == old(self).slots(),
            final(self).index() == old(self).index(),
            final(self).next_id() == old(self).next_id(),
    {
        self.max_children = max;
    }

    /// Sets how many cycles new organisms may live (`None`: forever).
    pub fn set_lifetime(&mut self, lifetime: Option<u8>)
        ensures
            final(self).spec_lifetime() == lifetime,
            final(self).spec_max_children() == old(self).spec_max_children(),
            final(self).slots() == old(self).slots(),
            final(self).index() == old(self).index(),
            final(self).next_id() == old(self).next_id(),
    {
        self.lifetime = lifetime;
    }

    /// The number of live organisms.
    pub fn len(&self) -> (r: usize)
        ensures
            r == self.slots().len(),
    {
        self.organisms.len()
    }

    /// Whether an organism with this id is alive.
    pub fn alive(&self, id: OrganismId) -> (r: bool)
        ensures
            r == self.contains(id),
    {
        self.id_map.contains_key(&id)
    }

    /// The live organism with this id, if any.
    pub fn get(&self, id: OrganismId) -> (r: Option<&OrganismContext>)
        requires
            self.wf(),
        ensures
            r matches Some(c) ==> self.contains(id) && *c == self.ctx(id),
            r is None ==> !self.contains(id),
    {
        match self.id_map.get(&id) {
            Some(idx) => Some(&self.organisms[*idx]),
            None => None,
        }
    }

    /// `get` on an optional id.
    pub fn get_opt(&self, id: Option<OrganismId>) -> (r: Option<&OrganismContext>)
        requires
            self.wf(),
        ensures
            r matches Some(c) ==> (id matches Some(i) && self.contains(i) && *c == self.ctx(i)),
            r is None ==> (id matches Some(i) ==> !self.contains(i)),
    {
        match id {
            Some(i) => self.get(i),
            None => None,
        }
    }

    /// The live organisms, in slot order.
    pub fn iter(&self) -> (r: Vec<&OrganismContext>)
        ensures
            r@.len() == self.slots().len(),
            forall|i: int| 0 <= i < r@.len() ==> *(#[trigger] r@[i]) == self.slots()[i],
    {
        let mut r: Vec<&OrganismContext> = Vec::new();
        let mut i: usize = 0;
        while i < self.organisms.len()
            invariant
                i <= self.slots().len(),
                r@.len() == i,
                forall|j: int| 0 <= j < i ==> *(#[trigger] r@[j]) == self.slots()[j],
            decreases self.slots().len() - i,
        {
            r.push(&self.organisms[i]);
            i = i + 1;
        }
        r
    }

    /// Adds an organism with the given state under a fresh id, with the
    /// configured child and life allowances and no delay; returns its id.
    /// Returns `None`, and changes nothing, once every id has been used.
    pub fn insert(&mut self, state: OrganismState) -> (r: Option<OrganismId>)
        requires
            old(self).wf(),
        ensures
            final(self).wf(),
            final(self).ids_from(old(self)),
            final(self).spec_max_children() == old(self).spec_max_children(),
            final(self).spec_lifetime() == old(self).spec_lifetime(),
            old(self).next_id() < OrganismId::MAX ==> {
                &&& r == Some(old(self).next_id())
                &&& final(self).next_id() == old(self).next_id() + 1
                &&& final(self).slots() == old(self).slots().push(
                    OrganismContext {
                        id: old(self).next_id(),
                        child_potential: old(self).spec_max_children(),
                        life_potential: old(self).spec_lifetime(),
                        delay_cycles: 0,
                        organism: state,
                    },
                )
                &&& final(self).index() == old(self).index().insert(
                    old(self).next_id(),
                    old(self).slots().len() as usize,
                )
            },
            old(self).next_id() == OrganismId::MAX ==> {
                &&& r is None
                &&& final(self).slots() == old(self).slots()
                &&& final(self).index() == old(self).index()
                &&& final(self).next_id() == old(self).next_id()
            },
    {
        if self.next_id == OrganismId::MAX {
            return None;
        }
        let id = self.next_id;
        self.next_id = self.next_id + 1;
        let idx = self.organisms.len();
        self.organisms.push(
            OrganismContext {
                id,
                child_potential: self.max_children,
                life_potential: self.lifetime,
                delay_cycles: 0,
                organism: state,
            },
        );
        self.id_map.insert(id, idx);
        Some(id)
    }

    /// Removes the live organism with this id. The last slot moves into its
    /// place.
    pub fn remove(&mut self, id: OrganismId)
        requires
            old(self).wf(),
            old(self).contains(id),
        ensures
            final(self).wf(),
            final(self).next_id() == old(self).next_id(),
            final(self).spec_max_children() == old(self).spec_max_children(),
            final(self).spec_lifetime() == old(self).spec_lifetime(),
            final(self).index().dom() == old(self).index().dom().remove(id),
            final(self).slots().len() == old(self).slots().len() - 1,
            forall|j: OrganismId| #[trigger] final(self).contains(j) ==> final(self).ctx(j) == old(self).ctx(j),
            forall|w: int, h: int| old(self).fits(w, h) ==> final(self).fits(w, h),
    {
        let idx = *self.id_map.get(&id).unwrap();
        self.id_map.remove(&id);
        let ghost before = self.organisms@;
        self.organisms.swap_remove(idx);
        if idx < self.organisms.len() {
            let moved = self.organisms[idx].id;
            self.id_map.insert(moved, idx);
        }
        proof {
            assert(self.id_map@.dom() =~= old(self).index().dom().remove(id));
        }
    }

    /// Runs one cycle: each organism alive at the start, in slot order,
    /// takes one `OrganismContext::step` on the grid as the organisms
    /// before it left it; then the organisms that
    /// died are removed, the population is culled at random down to
    /// `max_organisms` (live organisms first, then unborn children), and the
    /// surviving children are added under fresh ids.
    #[verifier::rlimit(60)]
    pub fn run_cycle(&mut self, grid: &mut Grid, max_organisms: Option<usize>)
        requires
            old(self).wf(),
            old(grid).wf(),
            old(self).fits(old(grid).spec_width(), old(grid).spec_height()),
        ensures
            cycled(*old(self), *old(grid), *final(self), *final(grid), max_organisms),
    {
        let ghost s0 = *self;
        let ghost g0 = *grid;
        let ghost w = grid.spec_width();
        let ghost h = grid.spec_height();
        let mut children: Vec<OrganismState> = Vec::new();
        let mut suicides: Vec<OrganismId> = Vec::new();
        let ghost mut slot_of: Seq<int> = Seq::empty();
        let ghost mut gs: Seq<Grid> = seq![*grid];
        let ghost mut cs: Seq<OrganismContext> = Seq::empty();
        let ghost mut deaths: Seq<bool> = Seq::empty();
        let ghost mut kids: Seq<Option<OrganismState>> = Seq::empty();
        let n = self.organisms.len();
        let mut i: usize = 0;
        while i < n
            invariant
                grid.wf(),
                grid.same_shape(&g0),
                grid.spec_width() == w,
                grid.spec_height() == h,
                i <= n,
                n == s0.slots().len(),
                self.slots().len() == n,
                self.index() == s0.index(),
                self.next_id() == s0.next_id(),
                self.spec_max_children() == s0.spec_max_children(),
                self.spec_lifetime() == s0.spec_lifetime(),
                s0.wf(),
                forall|j: int| 0 <= j < n ==> (#[trigger] self.slots()[j]).id == s0.slots()[j].id,
                forall|j: int| 0 <= j < n ==> (#[trigger] self.slots()[j]).organism.wf_in(w, h),
                forall|j: int| i <= j < n ==> #[trigger] self.slots()[j] == s0.slots()[j],
                forall|j: int|
                    0 <= j < i && (#[trigger] s0.slots()[j]).delay_cycles > 0 ==> self.slots()[j]@
                        == (ContextModel {
                        delay_cycles: (s0.slots()[j].delay_cycles - 1) as u8,
                        ..s0.slots()[j]@
                    }),
                forall|j: int|
                    0 <= j < i && (#[trigger] s0.slots()[j]).delay_cycles == 0 && !available(
                        s0.slots()[j].life_potential,
                    ) ==> suicides@.contains(s0.slots()[j].id),
                slot_of.len() == suicides@.len(),
                gs.len() == i + 1,
                cs.len() == i,
                deaths.len() == i,
                kids.len() == i,
                gs[0] == g0,
                gs[i as int] == *grid,
                forall|j: int|
                    0 <= j < i ==> stepped(s0.slots()[j], #[trigger] gs[j], cs[j], gs[j + 1], deaths[j], kids[j]),
                forall|j: int| 0 <= j < i ==> #[trigger] cs[j] == self.slots()[j],
                forall|j: int| 0 <= j < i && #[trigger] deaths[j] ==> suicides@.contains(s0.slots()[j].id),
                forall|k: int|
                    0 <= k < suicides@.len() ==> 0 <= #[trigger] slot_of[k] < i && s0.slots()[slot_of[k]].delay_cycles
                        == 0 && suicides@[k] == s0.slots()[slot_of[k]].id,
                forall|j: int| 0 <= j < children@.len() ==> (#[trigger] children@[j]).wf_in(w, h),
                children@ == accepted(kids),
                children@.len() <= i,
                suicides@.len() + survivors(deaths) == i,
                forall|k1: int, k2: int| 0 <= k1 < k2 < slot_of.len() ==> slot_of[k1] < slot_of[k2],
                forall|k: int| 0 <= k < slot_of.len() ==> deaths[#[trigger] slot_of[k]],
            decreases n - i,
        {
            let ghost kids0 = kids;
            let ghost deaths0 = deaths;
            let ghost children0 = children@;
            let (dies, child) = self.organisms[i].step(grid);
            proof {
                gs = gs.push(*grid);
                cs = cs.push(self.organisms@[i as int]);
                deaths = deaths.push(dies);
                kids = kids.push(child);
            }
            if dies {
                suicides.push(self.organisms[i].id);
                proof {
                    slot_of = slot_of.push(i as int);
                }
            }
            match child {
                Some(c) => children.push(c),
                None => {},
            }
            proof {
                assert(kids.drop_last() =~= kids0);
                assert(deaths.drop_last() =~= deaths0);
                assert(children@ =~= accepted(kids));
            }
            i = i + 1;
        }
        proof {
            assert(self.wf());
        }
        let ghost s1 = *self;
        proof {
            assert forall|k2: int| 0 <= k2 < suicides@.len() implies s1.contains(#[trigger] suicides@[k2]) by {
                assert(s0.index().contains_key(s0.slots()[slot_of[k2]].id));
            }
        }
        let mut k: usize = 0;
        while k < suicides.len()
            invariant
                self.wf(),
                s1.wf(),
                self.fits(w, h),
                k <= suicides@.len(),
                self.next_id() == s0.next_id(),
                self.spec_max_children() == s0.spec_max_children(),
                self.spec_lifetime() == s0.spec_lifetime(),
                self.index().dom().subset_of(s1.index().dom()),
                forall|id: OrganismId| #[trigger] self.contains(id) ==> self.ctx(id) == s1.ctx(id),
                forall|j: int| 0 <= j < k ==> !self.contains(#[trigger] suicides@[j]),
                forall|id: OrganismId|
                    s1.contains(id) && !suicides@.contains(id) ==> #[trigger] self.contains(id),
                s0.wf(),
                s1.index() == s0.index(),
                s1.slots().len() == n,
                n == s0.slots().len(),
                slot_of.len() == suicides@.len(),
                forall|k1: int| 0 <= k1 < suicides@.len() ==> 0 <= #[trigger] slot_of[k1] < n && deaths[slot_of[k1]]
                    && suicides@[k1] == s0.slots()[slot_of[k1]].id,
                forall|k1: int, k2: int| 0 <= k1 < k2 < slot_of.len() ==> slot_of[k1] < slot_of[k2],
                self.slots().len() + k == s1.slots().len(),
                forall|k2: int| k <= k2 < suicides@.len() ==> self.contains(#[trigger] suicides@[k2]),
                children@ == accepted(kids),
                children@.len() <= n,
                suicides@.len() + survivors(deaths) == n,
                deaths.len() == n,
            decreases suicides@.len() - k,
        {
            let id = suicides[k];
            if self.alive(id) {
                let ghost before = *self;
                self.remove(id);
                proof {
                    assert forall|x: OrganismId| #[trigger] self.contains(x) implies self.ctx(x) == s1.ctx(x) by {
                        assert(before.index().dom().remove(id).contains(x));
                        assert(before.contains(x));
                    }
                    assert forall|x: OrganismId| s1.contains(x) && !suicides@.contains(x) implies #[trigger] self.contains(x) by {
                        assert(before.contains(x));
                        if x == id {
                            assert(suicides@[k as int] == id);
                        }
                        assert(before.index().dom().remove(id).contains(x));
                    }
                    assert forall|k2: int| k < k2 < suicides@.len() implies self.contains(#[trigger] suicides@[k2]) by {
                        assert(before.contains(suicides@[k2]));
                        let a = slot_of[k as int];
                        let b = slot_of[k2];
                        assert(a < b);
                        if suicides@[k2] == id {
                            assert(s0.index()[s0.slots()[a].id] == a);
                            assert(s0.index()[s0.slots()[b].id] == b);
                        }
                        assert(before.index().dom().remove(id).contains(suicides@[k2]));
                    }
                }
            }
            k = k + 1;
        }
        let ghost s2 = *self;
        proof {
            assert forall|j: int| 0 <= j < n && !deaths[j] implies #[trigger] s2.contains(s0.slots()[j].id) by {
                let x = s0.slots()[j].id;
                assert(s0.index().contains_key(x));
                if suicides@.contains(x) {
                    let k2 = choose|k2: int| 0 <= k2 < suicides@.len() && suicides@[k2] == x;
                    let a = slot_of[k2];
                    assert(s0.index()[s0.slots()[a].id] == a);
                    assert(s0.index()[s0.slots()[j].id] == j);
                }
            }
            assert(s2.slots().len() == survivors(deaths));
            assert forall|x: OrganismId| #[trigger] s2.contains(x) implies s1.contains(x) && s2.ctx(x) == s1.ctx(x) by {
                assert(s1.index().dom().contains(x));
            }
        }
        if let Some(max) = max_organisms {
            let live_deaths = self.organisms.len() - min_usize(
                self.organisms.len(),
                max - min_usize(max, children.len()),
            );
            let child_deaths = children.len() - min_usize(children.len(), max);
            let ghost c_before = children@.len();
            let mut d: usize = 0;
            while d < live_deaths
                invariant
                    self.wf(),
                    self.fits(w, h),
                    d <= live_deaths,
                    live_deaths <= s2.slots().len(),
                    self.slots().len() == s2.slots().len() - d,
                    self.next_id() == s0.next_id(),
                    self.spec_max_children() == s0.spec_max_children(),
                    self.spec_lifetime() == s0.spec_lifetime(),
                    self.index().dom().subset_of(s2.index().dom()),
                    forall|id: OrganismId| #[trigger] self.contains(id) ==> self.ctx(id) == s2.ctx(id),
                    children@.len() == c_before,
                    children@ == accepted(kids),
                    d == 0 ==> self.index() == s2.index(),
                decreases live_deaths - d,
            {
                let ghost before = *self;
                self.kill_random();
                proof {
                    assert forall|x: OrganismId| #[trigger] self.contains(x) implies self.ctx(x) == s2.ctx(x) by {
                        assert(before.index().dom().contains(x));
                        assert(before.contains(x));
                    }
                }
                d = d + 1;
            }
            let ghost born = children@.len();
            let ghost s4 = *self;
            let mut e: usize = 0;
            while e < child_deaths
                invariant
                    self.wf(),
                    self.fits(w, h),
                    self.slots() == s4.slots(),
                    self.index() == s4.index(),
                    self.index().dom().subset_of(s2.index().dom()),
                    forall|id: OrganismId| #[trigger] self.contains(id) ==> self.ctx(id) == s2.ctx(id),
                    self.next_id() == s4.next_id(),
                    self.spec_max_children() == s4.spec_max_children(),
                    self.spec_lifetime() == s4.spec_lifetime(),
                    e <= child_deaths,
                    child_deaths <= born,
                    children@.len() + e == born,
                    forall|j: int| 0 <= j < children@.len() ==> (#[trigger] children@[j]).wf_in(w, h),
                    forall|j: int| 0 <= j < children@.len() ==> accepted(kids).contains(#[trigger] children@[j]),
                    e == 0 ==> children@ == accepted(kids),
                decreases child_deaths - e,
            {
                let ghost before = *self;
                let idx = draw_index(&mut self.kill_rng, children.len());
                proof {
                    assert forall|id: OrganismId| #[trigger] self.contains(id) implies self.ctx(id) == s2.ctx(id) by {
                        assert(before.contains(id));
                        assert(self.ctx(id) == before.ctx(id));
                    }
                }
                let ghost cb = children@;
                children.swap_remove(idx);
                proof {
                    assert forall|j: int| 0 <= j < children@.len() implies accepted(kids).contains(#[trigger] children@[j]) by {
                        if j == idx as int {
                            assert(children@[j] == cb[cb.len() - 1]);
                        } else {
                            assert(children@[j] == cb[j]);
                        }
                    }
                }
                e = e + 1;
            }
            assert(self.slots().len() + children@.len() <= max);
            assert(live_deaths as int == live_culls(survivors(deaths) as int, accepted(kids).len() as int, max_organisms));
            assert(child_deaths as int == child_culls(accepted(kids).len() as int, max_organisms));
        }
        proof {
            assert forall|j: int| 0 <= j < children@.len() implies accepted(kids).contains(#[trigger] children@[j]) by {
                if max_organisms is None {
                    assert(children@[j] == accepted(kids)[j]);
                }
            }
        }
        let ghost s3 = *self;
        proof {
            assert forall|x: OrganismId| #[trigger] s3.contains(x) implies s2.contains(x) && s3.ctx(x) == s2.ctx(x) by {
                assert(s2.index().dom().contains(x));
            }
        }
        let ghost c3 = children@;
        let ghost live = survivors(deaths) as int;
        let ghost born = accepted(kids).len() as int;
        proof {
            assert(s3.slots().len() == live - live_culls(live, born, max_organisms));
            assert(c3.len() == born - child_culls(born, max_organisms));
            assert(live_culls(live, born, max_organisms) == 0 ==> s3.index() == s2.index());
            assert(child_culls(born, max_organisms) == 0 ==> c3 == accepted(kids));
        }
        while children.len() > 0
            invariant
                grid.wf(),
                grid.same_shape(&g0),
                self.wf(),
                self.fits(w, h),
                forall|j: int| 0 <= j < children@.len() ==> (#[trigger] children@[j]).wf_in(w, h),
                children@.len() <= c3.len(),
                children@ == c3.subrange(c3.len() - children@.len(), c3.len() as int),
                forall|j: int| 0 <= j < c3.len() ==> accepted(kids).contains(#[trigger] c3[j]),
                c3.len() <= n,
                n == s0.slots().len(),
                s3.next_id() == s0.next_id(),
                self.next_id() >= s0.next_id(),
                self.spec_max_children() == s0.spec_max_children(),
                self.spec_lifetime() == s0.spec_lifetime(),
                max_organisms matches Some(m) ==> self.slots().len() + children@.len() <= m,
                forall|id: OrganismId| #[trigger] self.contains(id) && s3.contains(id) ==> self.ctx(id) == s3.ctx(id),
                forall|id: OrganismId|
                    #[trigger] self.contains(id) && !s3.contains(id) ==> {
                        &&& s0.next_id() <= id
                        &&& self.ctx(id).delay_cycles == 0
                        &&& self.ctx(id).child_potential == s0.spec_max_children()
                        &&& self.ctx(id).life_potential == s0.spec_lifetime()
                        &&& accepted(kids).contains(self.ctx(id).organism)
                    },
                forall|id: OrganismId| #[trigger] s3.contains(id) ==> self.contains(id),
                s0.next_id() + n <= u64::MAX ==> {
                    let t = c3.len() - children@.len();
                    &&& self.next_id() == s0.next_id() + t
                    &&& self.slots().len() == s3.slots().len() + t
                    &&& forall|u: int|
                        0 <= u < t ==> self.contains((s0.next_id() + u) as u64) && self.ctx(
                            (s0.next_id() + u) as u64,
                        ).organism == #[trigger] c3[u]
                },
            decreases children@.len(),
        {
            let ghost t = c3.len() - children@.len();
            let ghost before = *self;
            let c = children.remove(0);
            proof {
                assert(c == c3[t]);
                assert(children@ =~= c3.subrange(c3.len() - children@.len(), c3.len() as int));
            }
            let n_before = self.organisms.len();
            let r = self.insert(c);
            proof {
                if before.next_id() < OrganismId::MAX {
                    let nid = before.next_id();
                    assert(self.index()[nid] == n_before);
                    assert(self.ctx(nid).organism == c);
                    assert forall|id: OrganismId| #[trigger] self.contains(id) && s3.contains(id) implies self.ctx(id) == s3.ctx(id) by {
                        assert(before.contains(id));
                        assert(id != nid);
                        assert(self.ctx(id) == before.ctx(id));
                    }
                    assert forall|id: OrganismId| #[trigger] self.contains(id) && !s3.contains(id) implies accepted(kids).contains(self.ctx(id).organism) by {
                        if id != nid {
                            assert(before.contains(id));
                            assert(self.ctx(id) == before.ctx(id));
                        }
                    }
                    if s0.next_id() + n <= u64::MAX {
                        assert forall|u: int| 0 <= u < t + 1 implies self.contains((s0.next_id() + u) as u64) && self.ctx(
                            (s0.next_id() + u) as u64,
                        ).organism == #[trigger] c3[u] by {
                            if u < t {
                                let x = (s0.next_id() + u) as u64;
                                assert(before.contains(x));
                                assert(x != nid);
                                assert(self.ctx(x) == before.ctx(x));
                            }
                        }
                    }
                }
            }
        }
        proof {
            assert forall|id: OrganismId| #[trigger] self.contains(id) && s0.contains(id) implies s3.contains(id) && self.ctx(id) == s1.ctx(id) by {
                assert(s0.slots()[s0.index()[id] as int].id == id);
                if !s3.contains(id) {
                    assert(s0.next_id() <= id);
                }
                assert(s2.index().dom().contains(id));
                assert(s2.contains(id));
                assert(s1.index().dom().contains(id));
            }
            assert forall|id: OrganismId|
                s0.contains(id) && s0.ctx(id).delay_cycles > 0 && #[trigger] self.contains(id) implies self.ctx(id)@ == (ContextModel {
                    delay_cycles: (s0.ctx(id).delay_cycles - 1) as u8,
                    ..s0.ctx(id)@
                }) by {
                let j = s0.index()[id] as int;
                assert(s0.slots()[j].delay_cycles > 0);
                assert(s1.ctx(id) == s1.slots()[j]);
            }
            assert forall|id: OrganismId|
                s0.contains(id) && s0.ctx(id).delay_cycles == 0 && !available(s0.ctx(id).life_potential) implies !#[trigger] self.contains(id) by {
                let j = s0.index()[id] as int;
                assert(s0.slots()[j].delay_cycles == 0);
                assert(suicides@.contains(id));
                let k = choose|k: int| 0 <= k < suicides@.len() && suicides@[k] == id;
                assert(!s2.contains(suicides@[k]));
                if self.contains(id) {
                    assert(s0.slots()[s0.index()[id] as int].id == id);
                    if !s3.contains(id) {
                        assert(s0.next_id() <= id);
                    }
                    assert(s2.index().dom().contains(id));
                }
            }
            assert forall|id: OrganismId| s0.contains(id) && #[trigger] self.contains(id) implies !deaths[s0.index()[id] as int]
                && self.ctx(id) == cs[s0.index()[id] as int] by {
                let j = s0.index()[id] as int;
                assert(self.contains(id) && s0.contains(id));
                assert(s3.contains(id) && self.ctx(id) == s1.ctx(id));
                assert(s1.ctx(id) == s1.slots()[j]);
                assert(s0.slots()[j].id == id);
                if deaths[j] {
                    assert(suicides@.contains(id));
                    let k = choose|k: int| 0 <= k < suicides@.len() && suicides@[k] == id;
                    assert(!s2.contains(suicides@[k]));
                    assert(s2.contains(id));
                }
            }
            assert(took_turns(s0, g0, *self, *grid, gs, cs, deaths, kids));
            if s0.next_id() + n <= u64::MAX {
                assert(children@.len() == 0);
                assert(c3.len() - children@.len() == c3.len());
            }
            assert forall|j: int| 0 <= j < n && !deaths[j] && live_culls(live, born, max_organisms) == 0 implies #[trigger] self.contains(s0.slots()[j].id) by {
                assert(s2.contains(s0.slots()[j].id));
                assert(s3.contains(s0.slots()[j].id));
            }
            assert(settled(s0, *self, max_organisms, deaths, kids));
            if max_organisms is None {
                assert forall|id: OrganismId| s0.contains(id) && s0.ctx(id).delay_cycles > 0 implies #[trigger] self.contains(id) by {
                    if suicides@.contains(id) {
                        let k = choose|k: int| 0 <= k < suicides@.len() && suicides@[k] == id;
                        let j = slot_of[k];
                        assert(s0.index()[id] == j);
                    }
                    assert(s1.contains(id));
                    assert(s2.contains(id));
                    assert(s3.contains(id));
                }
            }
            assert forall|id: OrganismId| #[trigger] self.contains(id) implies s0.contains(id) || s0.next_id() <= id by {
                if s3.contains(id) {
                    assert(s2.index().dom().contains(id));
                    assert(s1.index().dom().contains(id));
                }
            }
        }
    }

    /// Removes every organism whose delay and state equal those of an
    /// earlier one in slot order; the first of each such group stays, ids
    /// and allowances are not compared.
    pub fn dedup(&mut self)
        requires
            old(self).wf(),
        ensures
            final(self).wf(),
            views(final(self).slots()) == dedup_seq(views(old(self).slots())),
            final(self).next_id() == old(self).next_id(),
            final(self).spec_max_children() == old(self).spec_max_children(),
            final(self).spec_lifetime() == old(self).spec_lifetime(),
            final(self).ids_from(old(self)),
            forall|w: int, h: int| old(self).fits(w, h) ==> final(self).fits(w, h),
    {
        let ghost initial = self.organisms@;
        let ghost s0 = *self;
        let mut rest: Vec<OrganismContext> = Vec::new();
        std::mem::swap(&mut rest, &mut self.organisms);
        let mut kept: Vec<OrganismContext> = Vec::new();
        let ghost mut i: int = 0;
        while rest.len() > 0
            invariant
                0 <= i <= initial.len(),
                rest@ == initial.subrange(i, initial.len() as int),
                views(kept@) == dedup_seq(views(initial.subrange(0, i))),
            decreases rest@.len(),
        {
            let c = rest.remove(0);
            let dup = seen(&kept, &c);
            proof {
                let p0 = views(initial.subrange(0, i));
                let p1 = views(initial.subrange(0, i + 1));
                assert(p1.drop_last() =~= p0);
                assert(initial[i] == c);
                assert(p1.last() == c@);
                lemma_dedup_shape(p0);
            }
            if !dup {
                kept.push(c);
            }
            proof {
                i = i + 1;
                assert(views(kept@) =~= dedup_seq(views(initial.subrange(0, i))));
                assert(rest@ =~= initial.subrange(i, initial.len() as int));
            }
        }
        proof {
            assert(initial.subrange(0, initial.len() as int) =~= initial);
            lemma_dedup_shape(views(initial));
            assert(ids_distinct(views(initial))) by {
                assert forall|a: int, b: int| 0 <= a < b < views(initial).len() implies (
                #[trigger] views(initial)[a]).id != (#[trigger] views(initial)[b]).id by {
                    assert(views(initial)[a] == initial[a]@);
                    assert(views(initial)[b] == initial[b]@);
                    assert(s0.slots()[a].id == initial[a].id);
                }
            }
            lemma_dedup_ids(views(initial));
        }
        self.organisms = kept;
        let ghost ks = self.organisms@;
        proof {
            assert forall|a: int| 0 <= a < ks.len() implies exists|m: int|
                0 <= m < initial.len() && #[trigger] ks[a]@ == initial[m]@ by {
                assert(views(ks)[a] == ks[a]@);
                assert(views(initial).contains(views(ks)[a]));
                let m = choose|m: int| 0 <= m < views(initial).len() && views(initial)[m] == views(ks)[a];
                assert(views(initial)[m] == initial[m]@);
            }
        }
        let mut map: BTreeMap<OrganismId, usize> = BTreeMap::new();
        let mut j: usize = 0;
        while j < self.organisms.len()
            invariant
                self.organisms@ == ks,
                j <= ks.len(),
                ids_distinct(views(ks)),
                forall|id: OrganismId|
                    #[trigger] map@.contains_key(id) ==> (map@[id] as int) < j && ks[map@[id] as int].id
                        == id,
                forall|a: int| 0 <= a < j ==> map@.contains_key(#[trigger] ks[a].id) && map@[ks[a].id] == a,
            decreases ks.len() - j,
        {
            proof {
                assert forall|a: int| 0 <= a < j implies ks[a].id != ks[j as int].id by {
                    assert(views(ks)[a] == ks[a]@);
                    assert(views(ks)[j as int] == ks[j as int]@);
                }
            }
            map.insert(self.organisms[j].id, j);
            j = j + 1;
        }
        self.id_map = map;
        proof {
            assert forall|a: int| 0 <= a < ks.len() implies (#[trigger] ks[a]).id < s0.next_id() by {
                let m = choose|m: int| 0 <= m < initial.len() && ks[a]@ == initial[m]@;
                assert(s0.slots()[m].id < s0.next_id());
            }
            assert forall|id: OrganismId| #[trigger] self.contains(id) implies s0.contains(id) || s0.next_id() <= id by {
                let a = self.index()[id] as int;
                let m = choose|m: int| 0 <= m < initial.len() && ks[a]@ == initial[m]@;
                assert(s0.index().contains_key(s0.slots()[m].id));
            }
            assert forall|w: int, h: int| s0.fits(w, h) implies self.fits(w, h) by {
                assert forall|a: int| 0 <= a < ks.len() implies (#[trigger] ks[a]).organism.wf_in(w, h) by {
                    let m = choose|m: int| 0 <= m < initial.len() && ks[a]@ == initial[m]@;
                    assert(s0.slots()[m].organism.wf_in(w, h));
                }
            }
        }
    }

    /// Runs the given instructions, in order, on the live organism `id`
    /// outside the cycle: delays are ignored, forked children are added
    /// afterwards, and a request to die is only reported.
    pub fn run_on(&mut self, id: OrganismId, grid: &mut Grid, instructions: &Vec<Instruction>) -> (tried_to_die: bool)
        requires
            old(self).wf(),
            old(grid).wf(),
            old(self).fits(old(grid).spec_width(), old(grid).spec_height()),
            old(self).contains(id),
        ensures
            final(self).wf(),
            final(grid).wf(),
            final(grid).same_shape(old(grid)),
            final(self).fits(old(grid).spec_width(), old(grid).spec_height()),
            final(self).ids_from(old(self)),
            final(self).contains(id),
            final(self).spec_max_children() == old(self).spec_max_children(),
            final(self).spec_lifetime() == old(self).spec_lifetime(),
            forall|x: OrganismId|
                old(self).contains(x) && x != id ==> #[trigger] final(self).contains(x) && final(self).ctx(x)
                    == old(self).ctx(x),
            exists|ss: Seq<StateModel>, gs: Seq<Grid>, outs: Seq<Outcome>|
                #[trigger] ran(old(self).ctx(id).organism@, *old(grid), instructions@, ss, gs, outs) && {
                    &&& gs.last() == *final(grid)
                    &&& final(self).ctx(id)@ == (ContextModel { organism: ss.last(), ..old(self).ctx(id)@ })
                    &&& tried_to_die == exists|j: int| 0 <= j < outs.len() && (#[trigger] outs[j]) is Die
                    &&& forall|x: OrganismId|
                        #[trigger] final(self).contains(x) && !old(self).contains(x) ==> outs.contains(
                            Outcome::Fork(final(self).ctx(x).organism@),
                        )
                },
    {
        let ghost w = grid.spec_width();
        let ghost h = grid.spec_height();
        let ghost g0 = *grid;
        let ghost s0 = *self;
        let idx = *self.id_map.get(&id).unwrap();
        let ghost c0 = s0.ctx(id);
        let ghost mut ss: Seq<StateModel> = seq![c0.organism@];
        let ghost mut gs: Seq<Grid> = seq![*grid];
        let ghost mut outs: Seq<Outcome> = Seq::empty();
        let mut tried_to_die = false;
        let mut forks: Vec<OrganismState> = Vec::new();
        let mut k: usize = 0;
        while k < instructions.len()
            invariant
                grid.wf(),
                grid.same_shape(&g0),
                grid.spec_width() == w,
                grid.spec_height() == h,
                self.wf(),
                self.fits(w, h),
                self.index() == s0.index(),
                self.next_id() == s0.next_id(),
                self.slots().len() == s0.slots().len(),
                self.spec_max_children() == s0.spec_max_children(),
                self.spec_lifetime() == s0.spec_lifetime(),
                idx == s0.index()[id],
                c0 == s0.slots()[idx as int],
                (idx as int) < self.slots().len(),
                forall|j: int| 0 <= j < self.slots().len() ==> (#[trigger] self.slots()[j]).id == s0.slots()[j].id,
                forall|j: int| 0 <= j < self.slots().len() && j != idx ==> #[trigger] self.slots()[j] == s0.slots()[j],
                self.slots()[idx as int]@ == (ContextModel { organism: ss.last(), ..c0@ }),
                forall|j: int| 0 <= j < forks@.len() ==> (#[trigger] forks@[j]).wf_in(w, h),
                forall|j: int| 0 <= j < forks@.len() ==> outs.contains(Outcome::Fork((#[trigger] forks@[j])@)),
                k <= instructions@.len(),
                ran(c0.organism@, g0, instructions@.subrange(0, k as int), ss, gs, outs),
                gs.last() == *grid,
                tried_to_die == exists|j: int| 0 <= j < outs.len() && (#[trigger] outs[j]) is Die,
            decreases instructions@.len() - k,
        {
            let ghost s_before = self.organisms@[idx as int].organism@;
            let ghost g_before = *grid;
            let r = self.organisms[idx].organism.run(grid, instructions[k]);
            proof {
                let outs0 = outs;
                ss = ss.push(self.organisms@[idx as int].organism@);
                gs = gs.push(*grid);
                outs = outs.push(r@);
                assert(instructions@.subrange(0, k + 1).drop_last() =~= instructions@.subrange(0, k as int));
                assert forall|x: Outcome| outs0.contains(x) implies outs.contains(x) by {
                    let j = choose|j: int| 0 <= j < outs0.len() && outs0[j] == x;
                    assert(outs[j] == x);
                }
                assert(outs[outs.len() - 1] == r@);
                if exists|j: int| 0 <= j < outs0.len() && (#[trigger] outs0[j]) is Die {
                    let j = choose|j: int| 0 <= j < outs0.len() && (#[trigger] outs0[j]) is Die;
                    assert(outs[j] is Die);
                }
                if exists|j: int| 0 <= j < outs.len() && (#[trigger] outs[j]) is Die {
                    let j = choose|j: int| 0 <= j < outs.len() && (#[trigger] outs[j]) is Die;
                    if j < outs0.len() {
                        assert(outs0[j] is Die);
                    }
                }
            }
            match r {
                Response::Delay(_) => {},
                Response::Fork(c) => forks.push(c),
                Response::Die => tried_to_die = true,
            }
            proof {
                assert forall|j: int| 0 <= j < self.slots().len() implies (#[trigger] self.slots()[j]).organism.wf_in(w, h) by {}
            }
            k = k + 1;
        }
        proof {
            assert(instructions@.subrange(0, instructions@.len() as int) =~= instructions@);
        }
        let ghost s1 = *self;
        while forks.len() > 0
            invariant
                grid.wf(),
                grid.same_shape(&g0),
                self.wf(),
                self.fits(w, h),
                self.contains(id),
                self.ids_from(&s0),
                self.next_id() >= s0.next_id(),
                self.spec_max_children() == s0.spec_max_children(),
                self.spec_lifetime() == s0.spec_lifetime(),
                forall|j: int| 0 <= j < forks@.len() ==> (#[trigger] forks@[j]).wf_in(w, h),
                forall|j: int| 0 <= j < forks@.len() ==> outs.contains(Outcome::Fork((#[trigger] forks@[j])@)),
                forall|x: OrganismId| #[trigger] s1.contains(x) ==> self.contains(x) && self.ctx(x) == s1.ctx(x),
                forall|x: OrganismId|
                    #[trigger] self.contains(x) && !s0.contains(x) ==> outs.contains(Outcome::Fork(self.ctx(x).organism@)),
                s1.index() == s0.index(),
                s1.next_id() == s0.next_id(),
            decreases forks@.len(),
        {
            let c = forks.pop().unwrap();
            let ghost before = *self;
            let n_before = self.organisms.len();
            self.insert(c);
            proof {
                assert forall|x: OrganismId| #[trigger] self.contains(x) implies s0.contains(x) || s0.next_id() <= x by {
                    assert(before.contains(x) || before.next_id() <= x);
                }
                if before.next_id() < OrganismId::MAX {
                    let nid = before.next_id();
                    assert(self.index()[nid] == n_before);
                    assert forall|x: OrganismId| #[trigger] s1.contains(x) implies self.contains(x) && self.ctx(x) == s1.ctx(x) by {
                        assert(before.contains(x));
                        assert(x != nid);
                    }
                    assert forall|x: OrganismId| #[trigger] self.contains(x) && !s0.contains(x) implies outs.contains(Outcome::Fork(self.ctx(x).organism@)) by {
                        if x != nid {
                            assert(before.contains(x));
                            assert(self.ctx(x) == before.ctx(x));
                        } else {
                            assert(self.ctx(x).organism == c);
                        }
                    }
                }
            }
        }
        proof {
            assert(s1.contains(id));
            assert(self.ctx(id) == s1.ctx(id));
            assert(s1.ctx(id) == s1.slots()[idx as int]);
            assert forall|x: OrganismId| s0.contains(x) && x != id implies #[trigger] self.contains(x) && self.ctx(x) == s0.ctx(x) by {
                assert(s1.contains(x));
                assert(s0.index()[x] != idx);
            }
        }
        tried_to_die
    }

    /// Moves the instruction pointer of the live organism `id` by `n` steps
    /// in direction `dir`.
    pub fn move_ip(&mut self, id: OrganismId, dir: crate::grid::Dir, n: usize, grid: &Grid)
        requires
            old(self).wf(),
            grid.wf(),
            old(self).fits(grid.spec_width(), grid.spec_height()),
            old(self).contains(id),
        ensures
            final(self).wf(),
            final(self).fits(grid.spec_width(), grid.spec_height()),
            final(self).index() == old(self).index(),
            final(self).next_id() == old(self).next_id(),
            final(self).spec_max_children() == old(self).spec_max_children(),
            final(self).spec_lifetime() == old(self).spec_lifetime(),
            final(self).ctx(id)@ == (ContextModel {
                organism: StateModel { ip: grid.step(old(self).ctx(id).organism.ip, dir, n as int), ..old(self).ctx(id).organism@ },
                ..old(self).ctx(id)@
            }),
            forall|j: OrganismId| #[trigger] final(self).contains(j) && j != id ==> final(self).ctx(j) == old(self).ctx(j),
    {
        let idx = *self.id_map.get(&id).unwrap();
        let ip = self.organisms[idx].organism.ip;
        let moved = ip.move_in_n(dir, n, grid.width(), grid.height());
        let ghost before = self.organisms@;
        self.organisms[idx].organism.ip = moved;
        proof {
            assert forall|j: OrganismId| #[trigger] self.contains(j) && j != id implies self.ctx(j) == old(self).ctx(j) by {
                assert(self.index()[j] != idx);
            }
        }
    }

    /// Ids are never reused: an organism of a later population `p1` that is
    /// not in `self` has an id above every id that `self` holds or has ever
    /// handed out.
    pub proof fn lemma_ids_never_reused(&self, p1: &OrganismCollection)
        requires
            self.wf(),
            p1.ids_from(self),
        ensures
            forall|id: OrganismId|
                #[trigger] p1.contains(id) && !self.contains(id) ==> id >= self.next_id() && forall|j: int|
                    0 <= j < self.slots().len() ==> (#[trigger] self.slots()[j]).id < id,
    {
    }

    /// No two live organisms share an id.
    pub proof fn lemma_ids_unique(&self)
        requires
            self.wf(),
        ensures
            forall|a: int, b: int|
                0 <= a < b < self.slots().len() ==> (#[trigger] self.slots()[a]).id != (
                #[trigger] self.slots()[b]).id,
    {
    }

    /// Removes a uniformly chosen live organism.
    fn kill_random(&mut self)
        requires
            old(self).wf(),
            old(self).slots().len() > 0,
        ensures
            final(self).wf(),
            final(self).next_id() == old(self).next_id(),
            final(self).spec_max_children() == old(self).spec_max_children(),
            final(self).spec_lifetime() == old(self).spec_lifetime(),
            final(self).index().dom().subset_of(old(self).index().dom()),
            final(self).slots().len() == old(self).slots().len() - 1,
            forall|j: OrganismId| #[trigger] final(self).contains(j) ==> final(self).ctx(j) == old(self).ctx(j),
            forall|w: int, h: int| old(self).fits(w, h) ==> final(self).fits(w, h),
    {
        let idx = draw_index(&mut self.kill_rng, self.organisms.len());
        let id = self.organisms[idx].id;
        self.remove(id);
    }
}

/// Whether an organism in `kept` has the same delay and state as `c`.
fn seen(kept: &Vec<OrganismContext>, c: &OrganismContext) -> (r: bool)
    ensures
        r == has_key(views(kept@), dedup_key(c@)),
{
    let mut j: usize = 0;
    while j < kept.len()
        invariant
            j <= kept@.len(),
            forall|a: int| 0 <= a < j ==> dedup_key((#[trigger] kept@[a])@) != dedup_key(c@),
        decreases kept@.len() - j,
    {
        if kept[j].delay_cycles == c.delay_cycles && kept[j].organism.same_as(&c.organism) {
            proof {
                assert(views(kept@)[j as int] == kept@[j as int]@);
            }
            return true;
        }
        j = j + 1;
    }
    proof {
        if has_key(views(kept@), dedup_key(c@)) {
            let a = choose|a: int| 0 <= a < views(kept@).len() && dedup_key(#[trigger] views(kept@)[a]) == dedup_key(c@);
            assert(views(kept@)[a] == kept@[a]@);
        }
    }
    false
}

/// The smaller of two sizes.
fn min_usize(a: usize, b: usize) -> (r: usize)
    ensures
        r == if a <= b { a } else { b },
{
    if a <= b {
        a
    } else {
        b
    }
}

} // verus!
