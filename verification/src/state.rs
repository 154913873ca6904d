//! The bookkeeping of one path of symbolic execution: where it stands, the
//! basic blocks it went through, the calls it is inside, the constraints the
//! solver holds for it, and the points it can backtrack to.

use std::rc::Rc;
use vstd::prelude::*;

use crate::bv_term::{const_u64, eval, wf, width, BvTerm, Env};
use crate::cell_memory;
use crate::decimal::{decimal, to_decimal};
use vstd::string::StrSliceExecFns;
use crate::simple_memory;
use crate::config::NullPointerChecking;
use crate::error::{Error, Result};
use crate::bump_alloc::Alloc;
use crate::global_allocations::{GlobalAllocations, GlobalsView};
use crate::startup::{allocatable, allocate_globals, def_bits, no_globals, register_all, room_for, GlobalDef};
use crate::solver_utils::{insert_distinct, PossibleSolutions};

verus! {

/// A value that can be duplicated into an equal value.
pub trait Snapshot: Sized {
    /// A copy of the value, equal to it.
    fn snapshot(&self) -> (r: Self)
        ensures
            r == *self,
    ;
}

impl Snapshot for BvTerm {
    fn snapshot(&self) -> (r: Self) {
        self.clone()
    }
}

/// A copy of each element of `v`, in order.
pub fn snapshot_vec<T: Snapshot>(v: &Vec<T>) -> (r: Vec<T>)
    ensures
        r@ == v@,
{
    let mut r: Vec<T> = Vec::new();
    let mut i: usize = 0;
    while i < v.len()
        invariant
            i <= v.len(),
            r@ == v@.subrange(0, i as int),
        decreases v.len() - i,
    {
        r.push(v[i].snapshot());
        i += 1;
    }
    assert(r@ =~= v@);
    r
}

/// Denotes either a particular instruction in a basic block, or its terminator.
#[derive(PartialEq, Eq, Structural, Clone, Copy, Debug)]
pub enum BBInstrIndex {
    /// Index of the instruction within the basic block. 0-indexed, so 0 means
    /// the first instruction of the basic block.
    Instr(usize),
    /// Indicates the basic block terminator (not one of its instructions)
    Terminator,
}

/// A basic block, as far as locations go: its name, as LLVM prints it (such
/// as `%entry` or `%3`), and the number of its instructions (not counting the
/// terminator).
pub struct BlockInfo {
    pub name: String,
    pub num_instrs: usize,
}

/// A function, as far as locations go: its name and its basic blocks, in
/// order.
pub struct FunctionInfo {
    pub name: String,
    pub blocks: Vec<BlockInfo>,
}

impl Snapshot for BlockInfo {
    fn snapshot(&self) -> (r: Self) {
        BlockInfo { name: self.name.clone(), num_instrs: self.num_instrs }
    }
}

/// The position of the first block of `blocks` named `name`, if any.
pub open spec fn block_position(blocks: Seq<BlockInfo>, name: Seq<char>) -> Option<int> {
    if exists|k: int| 0 <= k < blocks.len() && #[trigger] blocks[k].name@ == name {
        Some(choose|k: int| 0 <= k < blocks.len() && #[trigger] blocks[k].name@ == name
            && forall|j: int| 0 <= j < k ==> #[trigger] blocks[j].name@ != name)
    } else {
        None
    }
}

/// The first block of `blocks` named `name`, if any.
pub open spec fn block_named(blocks: Seq<BlockInfo>, name: Seq<char>) -> Option<BlockInfo> {
    match block_position(blocks, name) {
        Some(k) => Some(blocks[k]),
        None => None,
    }
}

/// Some block of `blocks` is named `name`.
pub open spec fn has_block(blocks: Seq<BlockInfo>, name: Seq<char>) -> bool {
    exists|k: int| 0 <= k < blocks.len() && #[trigger] blocks[k].name@ == name
}

proof fn lemma_first_block(blocks: Seq<BlockInfo>, name: Seq<char>, k: int)
    requires
        0 <= k < blocks.len(),
        blocks[k].name@ == name,
        forall|j: int| 0 <= j < k ==> #[trigger] blocks[j].name@ != name,
    ensures
        block_position(blocks, name) == Some(k),
{
    let c = choose|c: int| 0 <= c < blocks.len() && #[trigger] blocks[c].name@ == name
        && forall|j: int| 0 <= j < c ==> #[trigger] blocks[j].name@ != name;
    assert(0 <= c < blocks.len() && blocks[c].name@ == name
        && forall|j: int| 0 <= j < c ==> #[trigger] blocks[j].name@ != name);
    if c < k {
        assert(blocks[c].name@ != name);
    }
    if k < c {
        assert(blocks[k].name@ != name);
    }
}

impl FunctionInfo {
    /// The first block of the function named `name` (as LLVM prints it), if
    /// any.
    pub fn get_bb_by_name(&self, name: &str) -> (r: Option<&BlockInfo>)
        ensures
            r == match block_named(self.blocks@, name@) {
                Some(b) => Some(&b),
                None => None::<&BlockInfo>,
            },
            r is Some <==> has_block(self.blocks@, name@),
    {
        let target: String = name.to_owned();
        let mut k: usize = 0;
        while k < self.blocks.len()
            invariant
                k <= self.blocks.len(),
                target@ == name@,
                forall|j: int| 0 <= j < k ==> #[trigger] self.blocks@[j].name@ != name@,
            decreases self.blocks.len() - k,
        {
            if self.blocks[k].name == target {
                proof {
                    lemma_first_block(self.blocks@, name@, k as int);
                }
                return Some(&self.blocks[k]);
            }
            k += 1;
        }
        assert(!has_block(self.blocks@, name@));
        None
    }
}

/// Fully describes a code location within the LLVM IR.
pub struct Location {
    /// The module's name.
    pub module: String,
    /// The function.
    pub func: Rc<FunctionInfo>,
    /// The basic block, one of the function's.
    pub bb: BlockInfo,
    /// The instruction within the basic block.
    pub instr: BBInstrIndex,
}

impl Snapshot for Location {
    fn snapshot(&self) -> (r: Self) {
        Location {
            module: self.module.clone(),
            func: self.func.clone(),
            bb: self.bb.snapshot(),
            instr: self.instr,
        }
    }
}

/// Two locations denote the same place when their modules, functions and
/// basic blocks have the same names and their instructions are the same.
pub open spec fn same_place(a: Location, b: Location) -> bool {
    &&& a.module@ == b.module@
    &&& a.func.name@ == b.func.name@
    &&& a.bb.name@ == b.bb.name@
    &&& a.instr == b.instr
}

/// Whether two locations denote the same place.
pub fn same_location(a: &Location, b: &Location) -> (r: bool)
    ensures
        r == same_place(*a, *b),
{
    a.module == b.module && a.func.name == b.func.name && a.bb.name == b.bb.name && a.instr == b.instr
}

/// The index that follows `i` in a basic block of `n` instructions.
pub open spec fn next_index(i: usize, n: usize) -> BBInstrIndex {
    if i + 1 >= n {
        BBInstrIndex::Terminator
    } else {
        BBInstrIndex::Instr((i + 1) as usize)
    }
}

impl Location {
    /// Move to the start of the given basic block, in the same function.
    pub fn move_to_start_of_bb(&mut self, bb: &BlockInfo)
        ensures
            final(self).module == old(self).module,
            final(self).func == old(self).func,
            final(self).bb == *bb,
            final(self).instr == BBInstrIndex::Instr(0),
    {
        self.bb = bb.snapshot();
        self.instr = BBInstrIndex::Instr(0);
    }

    /// Move to the start of the basic block with the given name (as LLVM
    /// prints it), in the same function.
    pub fn move_to_start_of_bb_by_name(&mut self, bbname: &str)
        requires
            has_block(old(self).func.blocks@, bbname@),
        ensures
            final(self).module == old(self).module,
            final(self).func == old(self).func,
            Some(final(self).bb) == block_named(old(self).func.blocks@, bbname@),
            final(self).instr == BBInstrIndex::Instr(0),
    {
        let func = self.func.clone();
        match func.get_bb_by_name(bbname) {
            Some(bb) => self.move_to_start_of_bb(bb),
            None => {},
        }
    }

    /// Increment the instruction index in the `Location`. The `Location` must
    /// not point to a terminator.
    pub fn inc(&mut self)
        requires
            old(self).instr is Instr,
        ensures
            final(self).module == old(self).module,
            final(self).func == old(self).func,
            final(self).bb == old(self).bb,
            final(self).instr == next_index(old(self).instr->Instr_0, old(self).bb.num_instrs),
    {
        match self.instr {
            BBInstrIndex::Instr(i) => {
                if self.bb.num_instrs == 0 || i >= self.bb.num_instrs - 1 {
                    self.instr = BBInstrIndex::Terminator;
                } else {
                    self.instr = BBInstrIndex::Instr(i + 1);
                }
            },
            BBInstrIndex::Terminator => {},
        }
    }
}

/// Describes one segment of a path through the LLVM IR: consecutive
/// instructions in a single basic block, starting at the location it holds.
pub struct PathEntry(pub Location);

impl Snapshot for PathEntry {
    fn snapshot(&self) -> (r: Self) {
        PathEntry(self.0.snapshot())
    }
}

/// The kind of instruction that made a call.
#[derive(PartialEq, Eq, Structural, Clone, Copy, Debug)]
pub enum CallInstr {
    /// A `call` instruction.
    Call,
    /// An `invoke` terminator.
    Invoke,
}

/// The code location of a `call` or `invoke`, and which of the two it is.
pub struct Callsite {
    /// Indicates the call or invoke instruction which was responsible for the call
    pub loc: Location,
    /// Which kind of instruction it is
    pub instr: CallInstr,
}

impl Snapshot for Callsite {
    fn snapshot(&self) -> (r: Self) {
        Callsite { loc: self.loc.snapshot(), instr: self.instr }
    }
}


/// A backtracking point, as far as its meaning goes.
pub struct PointView<M> {
    /// Where execution resumes.
    pub loc: Location,
    /// The call stack at the point.
    pub stack: Seq<Callsite>,
    /// The constraint added on resuming.
    pub constraint: BvTerm,
    /// The memory at the point.
    pub mem: M,
    /// The length of the path at the point.
    pub path_len: nat,
}

/// The meaning of a `State`.
pub struct StateView<M> {
    /// The current location.
    pub cur_loc: Location,
    /// The call stack: the first entry is the callsite in the top-level
    /// function, the last that of the current function's caller.
    pub stack: Seq<Callsite>,
    /// The backtracking points, the most recent last.
    pub points: Seq<PointView<M>>,
    /// The path entries recorded so far, in order.
    pub path: Seq<PathEntry>,
    /// The memory.
    pub mem: M,
    /// The constraints that the solver holds, by level: the first level is
    /// the base one, and each backtracking point opens one more.
    pub levels: Seq<Seq<BvTerm>>,
}

/// All the constraints that the solver holds, in the order they were added.
pub open spec fn constraints<M>(v: StateView<M>) -> Seq<BvTerm> {
    v.levels.flatten()
}

/// The invariant of a state: one constraint level per backtracking point,
/// plus the base one; and the path lengths saved at the points grow with the
/// points and do not exceed the path.
pub open spec fn wf_view<M>(v: StateView<M>) -> bool {
    &&& v.levels.len() == v.points.len() + 1
    &&& forall|k: int| 0 <= k < v.points.len() ==> #[trigger] v.points[k].path_len <= v.path.len()
    &&& forall|j: int, k: int| 0 <= j <= k < v.points.len() ==> #[trigger] v.points[j].path_len
        <= #[trigger] v.points[k].path_len
}

/// `levels` with `c` added to the last level.
pub open spec fn add_to_last(levels: Seq<Seq<BvTerm>>, c: BvTerm) -> Seq<Seq<BvTerm>> {
    levels.update(levels.len() - 1, levels.last().push(c))
}

/// `v` with the constraint `c` added.
pub open spec fn constrained<M>(v: StateView<M>, c: BvTerm) -> StateView<M> {
    StateView { levels: add_to_last(v.levels, c), ..v }
}

/// `v` with a backtracking point saved that resumes at `loc` with the
/// constraint `c`.
pub open spec fn saved_at<M>(v: StateView<M>, loc: Location, c: BvTerm) -> StateView<M> {
    StateView {
        points: v.points.push(
            PointView { loc, stack: v.stack, constraint: c, mem: v.mem, path_len: v.path.len() },
        ),
        levels: v.levels.push(Seq::empty()),
        ..v
    }
}

/// `v` reverted to its most recent backtracking point: the location, call
/// stack and memory of the point, the path cut to its length then, the
/// constraints added since dropped, and the point's constraint added.
pub open spec fn reverted<M>(v: StateView<M>) -> StateView<M> {
    let p = v.points.last();
    StateView {
        cur_loc: p.loc,
        stack: p.stack,
        points: v.points.drop_last(),
        path: v.path.take(p.path_len as int),
        mem: p.mem,
        levels: add_to_last(v.levels.drop_last(), p.constraint),
    }
}

/// `w` came from `v` by steps that leave the backtracking points alone: the
/// path and the current constraint level only grew, and the other levels are
/// unchanged. Location, call stack and memory are free.
pub open spec fn extends<M>(w: StateView<M>, v: StateView<M>) -> bool {
    &&& w.points == v.points
    &&& v.path.len() <= w.path.len()
    &&& w.path.take(v.path.len() as int) == v.path
    &&& w.levels.len() == v.levels.len()
    &&& w.levels.drop_last() == v.levels.drop_last()
    &&& v.levels.last().len() <= w.levels.last().len()
    &&& w.levels.last().take(v.levels.last().len() as int) == v.levels.last()
}

/// Adding a constraint appends it to all the constraints.
pub proof fn lemma_constrained_appends<M>(v: StateView<M>, c: BvTerm)
    requires
        v.levels.len() >= 1,
    ensures
        constraints(constrained(v, c)) == constraints(v).push(c),
{
    let init = v.levels.drop_last();
    assert(v.levels =~= init.push(v.levels.last()));
    assert(add_to_last(v.levels, c) =~= init.push(v.levels.last().push(c)));
    init.lemma_flatten_push(v.levels.last());
    init.lemma_flatten_push(v.levels.last().push(c));
    assert(init.flatten() + v.levels.last().push(c) =~= (init.flatten() + v.levels.last()).push(c));
}

/// Backtracking undoes everything done since its point was saved, whatever
/// steps that leave the points alone came in between: after saving a point
/// at `loc` with constraint `c` in state `v`, reverting gives back `v`'s call
/// stack, memory, path, points and constraints, with `c` added and execution
/// at `loc`.
pub proof fn lemma_revert_undoes<M>(v: StateView<M>, loc: Location, c: BvTerm, w: StateView<M>)
    requires
        wf_view(v),
        extends(w, saved_at(v, loc, c)),
    ensures
        reverted(w) == (StateView { cur_loc: loc, ..constrained(v, c) }),
        constraints(reverted(w)) == constraints(v).push(c),
        wf_view(reverted(w)),
{
    let s = saved_at(v, loc, c);
    assert(w.points.last() == s.points.last());
    assert(w.points.drop_last() =~= v.points);
    assert(s.levels.drop_last() =~= v.levels);
    assert(w.path.take(v.path.len() as int) == v.path);
    assert(reverted(w) =~= (StateView { cur_loc: loc, ..constrained(v, c) }));
    lemma_constrained_appends(v, c);
}

/// Extension is reflexive.
pub proof fn lemma_extends_refl<M>(v: StateView<M>)
    ensures
        extends(v, v),
{
    assert(v.path.take(v.path.len() as int) =~= v.path);
    assert(v.levels.last().take(v.levels.last().len() as int) =~= v.levels.last());
}

/// Extension is transitive.
pub proof fn lemma_extends_trans<M>(u: StateView<M>, v: StateView<M>, w: StateView<M>)
    requires
        extends(w, v),
        extends(v, u),
    ensures
        extends(w, u),
{
    assert(w.path.take(u.path.len() as int) =~= v.path.take(u.path.len() as int));
    assert(w.levels.last().take(u.levels.last().len() as int) =~= v.levels.last().take(
        u.levels.last().len() as int,
    ));
}

/// A saved point and its revert, with steps that leave the points alone in
/// between, amount to a step that leaves the points alone: nested
/// backtracking keeps the outer points' meaning.
pub proof fn lemma_save_revert_extends<M>(v: StateView<M>, loc: Location, c: BvTerm, w: StateView<M>)
    requires
        wf_view(v),
        v.levels.len() >= 1,
        extends(w, saved_at(v, loc, c)),
    ensures
        extends(reverted(w), v),
{
    lemma_revert_undoes(v, loc, c, w);
    let r = reverted(w);
    assert(r.path.take(v.path.len() as int) =~= v.path);
    assert(r.levels.drop_last() =~= v.levels.drop_last());
    assert(r.levels.last().take(v.levels.last().len() as int) =~= v.levels.last());
}

struct BacktrackPoint<M> {
    loc: Location,
    stack: Vec<Callsite>,
    constraint: BvTerm,
    mem: M,
    path_len: usize,
}

impl<M> BacktrackPoint<M> {
    closed spec fn point_view(&self) -> PointView<M> {
        PointView {
            loc: self.loc,
            stack: self.stack@,
            constraint: self.constraint,
            mem: self.mem,
            path_len: self.path_len as nat,
        }
    }
}

impl<M: Snapshot> BacktrackPoint<M> {
    fn copy_point(&self) -> (r: Self)
        ensures
            r.point_view() == self.point_view(),
    {
        BacktrackPoint {
            loc: self.loc.snapshot(),
            stack: snapshot_vec(&self.stack),
            constraint: self.constraint.clone(),
            mem: self.mem.snapshot(),
            path_len: self.path_len,
        }
    }
}

/// The state of one path of symbolic execution.
pub struct State<M, C> {
    /// Indicates the instruction which is currently being executed
    pub cur_loc: Location,
    alloc: Alloc,
    globals: Rc<GlobalAllocations<u64, C>>,
    pointer_size_bits: u32,
    null_pointer_checking: NullPointerChecking,
    stack: Vec<Callsite>,
    backtrack_points: Vec<BacktrackPoint<M>>,
    path: Vec<PathEntry>,
    mem: M,
    levels: Vec<Vec<BvTerm>>,
    function_ptr_cache: Vec<(Location, u64)>,
}

impl<M, C> View for State<M, C> {
    type V = StateView<M>;

    closed spec fn view(&self) -> StateView<M> {
        StateView {
            cur_loc: self.cur_loc,
            stack: self.stack@,
            points: self.backtrack_points@.map_values(|p: BacktrackPoint<M>| p.point_view()),
            path: self.path@,
            mem: self.mem,
            levels: self.levels@.map_values(|l: Vec<BvTerm>| l@),
        }
    }
}

impl<M, C> State<M, C> {
    /// How null pointers are treated on this path.
    pub closed spec fn null_checking(&self) -> NullPointerChecking {
        self.null_pointer_checking
    }

    /// The state's invariant.
    pub open spec fn wf(&self) -> bool {
        wf_view(self@) && self.cache_wf() && self.parts_wf()
    }

    /// The allocator and the global allocations are well formed.
    pub closed spec fn parts_wf(&self) -> bool {
        self.alloc.wf() && self.globals.wf()
    }

    /// The allocations made so far: the size in bits of each, by address.
    pub closed spec fn allocations(&self) -> Map<u64, u64> {
        self.alloc.sizes()
    }

    /// The global variables and functions, and where they were allocated.
    pub closed spec fn globals_view(&self) -> GlobalsView<u64, C> {
        self.globals.view()
    }

    /// The width of pointers, in bits.
    pub closed spec fn pointer_bits(&self) -> u32 {
        self.pointer_size_bits
    }

    /// A pointer to the global variable or function `name`, as seen from
    /// `module`: the address it was allocated at, as a constant of the
    /// pointer width; or `None` if there is none. A module-private
    /// definition takes precedence over a public one.
    pub fn get_pointer_to_function(&self, name: u64, module: u64) -> (r: Option<BvTerm>)
        requires
            self.wf(),
        ensures
            r == match self.globals_view().lookup(module, name) {
                Some(a) => Some(BvTerm::Const(a, self.pointer_bits())),
                None => None::<BvTerm>,
            },
    {
        match self.globals.get_global_allocation(name, module) {
            Some(a) => Some(BvTerm::Const(*a, self.pointer_size_bits)),
            None => None,
        }
    }

    /// No two entries of the function pointer cache are for the same place.
    pub closed spec fn cache_wf(&self) -> bool {
        forall|i: int, j: int| 0 <= i < j < self.function_ptr_cache@.len()
            ==> !same_place(#[trigger] self.function_ptr_cache@[i].0, #[trigger] self.function_ptr_cache@[j].0)
    }

    /// The function pointer value last resolved at the place of `loc`, if
    /// any.
    pub closed spec fn cached_at(&self, loc: Location) -> Option<u64> {
        let c = self.function_ptr_cache@;
        if exists|k: int| 0 <= k < c.len() && same_place(#[trigger] c[k].0, loc) {
            Some(c[choose|k: int| 0 <= k < c.len() && same_place(#[trigger] c[k].0, loc)].1)
        } else {
            None
        }
    }

    /// The position of the cache entry for the current location's place, or
    /// the cache's length if there is none.
    fn cache_position(&self) -> (r: usize)
        ensures
            r <= self.function_ptr_cache@.len(),
            r < self.function_ptr_cache@.len() ==> same_place(self.function_ptr_cache@[r as int].0, self@.cur_loc),
            forall|j: int| 0 <= j < r ==> !same_place(#[trigger] self.function_ptr_cache@[j].0, self@.cur_loc),
    {
        let mut k: usize = 0;
        while k < self.function_ptr_cache.len()
            invariant
                k <= self.function_ptr_cache@.len(),
                forall|j: int| 0 <= j < k ==> !same_place(#[trigger] self.function_ptr_cache@[j].0, self@.cur_loc),
            decreases self.function_ptr_cache.len() - k,
        {
            if same_location(&self.function_ptr_cache[k].0, &self.cur_loc) {
                return k;
            }
            k += 1;
        }
        k
    }

    /// The function pointer value last resolved at the current location, if
    /// any.
    pub fn cached_function_ptr(&self) -> (r: Option<u64>)
        requires
            self.wf(),
        ensures
            r == self.cached_at(self@.cur_loc),
    {
        let k = self.cache_position();
        if k < self.function_ptr_cache.len() {
            {
                proof {
                    let c = self.function_ptr_cache@;
                    let w = choose|w: int| 0 <= w < c.len() && same_place(#[trigger] c[w].0, self@.cur_loc);
                    if w != k as int {
                        if w < k {
                            assert(!same_place(c[w].0, self@.cur_loc));
                        } else {
                            assert(!same_place(c[k as int].0, c[w].0));
                        }
                    }
                }
                return Some(self.function_ptr_cache[k].1);
            }
        }
        None
    }

    /// Remember `addr` as the function pointer value resolved at the current
    /// location.
    pub fn cache_function_ptr(&mut self, addr: u64)
        requires
            old(self).wf(),
        ensures
            final(self).wf(),
            final(self)@ == old(self)@,
            final(self).cached_at(old(self)@.cur_loc) == Some(addr),
            forall|loc: Location| !same_place(loc, old(self)@.cur_loc) ==> #[trigger] final(self).cached_at(loc)
                == old(self).cached_at(loc),
            final(self).null_checking() == old(self).null_checking(),
    {
        let ghost old_c = self.function_ptr_cache@;
        let k = self.cache_position();
        let here = self.cur_loc.snapshot();
        if k < self.function_ptr_cache.len() {
            self.function_ptr_cache.set(k, (here, addr));
        } else {
            self.function_ptr_cache.push((here, addr));
        }
        proof {
            let c = self.function_ptr_cache@;
            let cur = self@.cur_loc;
            assert(c[k as int].0 == cur);
            assert forall|i: int, j: int| 0 <= i < j < c.len() implies !same_place(#[trigger] c[i].0, #[trigger] c[j].0) by {
                if j == k as int {
                    if k < old_c.len() {
                        assert(same_place(old_c[k as int].0, cur));
                        assert(!same_place(old_c[i].0, old_c[k as int].0));
                    } else {
                        assert(!same_place(old_c[i].0, cur));
                    }
                } else if i == k as int {
                    assert(same_place(old_c[k as int].0, cur));
                    assert(!same_place(old_c[k as int].0, old_c[j].0));
                } else {
                    assert(c[i] == old_c[i] && c[j] == old_c[j]);
                }
            }
            let w = choose|w: int| 0 <= w < c.len() && same_place(#[trigger] c[w].0, cur);
            assert(same_place(c[k as int].0, cur));
            if w != k as int {
                if w < k {
                    assert(!same_place(c[w].0, c[k as int].0));
                } else {
                    assert(!same_place(c[k as int].0, c[w].0));
                }
            }
            assert forall|loc: Location| !same_place(loc, cur) implies #[trigger] self.cached_at(loc)
                == old(self).cached_at(loc) by {
                assert forall|q: int| 0 <= q < c.len() && same_place(#[trigger] c[q].0, loc) implies q != k as int
                    && q < old_c.len() && c[q] == old_c[q] by {
                    if q == k as int {
                        assert(same_place(c[q].0, cur));
                    }
                }
                assert forall|q: int| 0 <= q < old_c.len() && same_place(#[trigger] old_c[q].0, loc) implies q != k as int
                    && c[q] == old_c[q] by {
                    if q == k as int {
                        assert(same_place(old_c[q].0, cur));
                    }
                }
            }
        }
    }

    /// A state at `start_loc`, with the memory `mem`, no constraints, an
    /// empty path, call stack, set of backtracking points and function
    /// pointer cache; and with each of the global variables and functions
    /// `defs` allocated in turn (see `allocate_globals`), pointers being
    /// `pointer_size_bits` wide. The addresses are distinct, at or above
    /// `Alloc::ALLOC_START`, and each definition is registered at its own.
    pub fn new(
        start_loc: Location,
        mem: M,
        null_pointer_checking: NullPointerChecking,
        pointer_size_bits: u32,
        defs: Vec<GlobalDef<C>>,
    ) -> (r: Self)
        requires
            allocatable(no_globals(), defs@, defs@.len() as int),
            Alloc::ALLOC_START + room_for(defs@, defs@.len() as int) <= u64::MAX,
        ensures
            r.wf(),
            r.pointer_bits() == pointer_size_bits,
            exists|addrs: Seq<u64>| {
                &&& addrs.len() == defs@.len()
                &&& forall|i: int, j: int| 0 <= i < j < addrs.len() ==> addrs[i] != addrs[j]
                &&& forall|i: int| 0 <= i < addrs.len() ==> Alloc::ALLOC_START <= #[trigger] addrs[i]
                    && r.allocations().contains_key(addrs[i]) && r.allocations()[addrs[i]] == def_bits(defs@[i])
                &&& r.allocations().dom() == addrs.to_set()
                &&& r.globals_view() == register_all(no_globals(), defs@, addrs, defs@.len() as int)
            },
            forall|loc: Location| #[trigger] r.cached_at(loc) is None,
            r@ == (StateView {
                cur_loc: start_loc,
                stack: Seq::<Callsite>::empty(),
                points: Seq::<PointView<M>>::empty(),
                path: Seq::<PathEntry>::empty(),
                mem: mem,
                levels: seq![Seq::<BvTerm>::empty()],
            }),
            r.null_checking() == null_pointer_checking,
    {
        let mut levels: Vec<Vec<BvTerm>> = Vec::new();
        levels.push(Vec::new());
        let mut alloc = Alloc::new();
        let mut globals: GlobalAllocations<u64, C> = GlobalAllocations::new();
        let ghost defs_s = defs@;
        assert(globals.view() == no_globals::<C>());
        let addrs = allocate_globals(&mut alloc, &mut globals, defs);
        proof {
            assert forall|i: int| 0 <= i < addrs@.len() implies Alloc::ALLOC_START <= #[trigger] addrs@[i] by {
                assert(alloc.sizes().contains_key(addrs@[i]));
            }
            assert forall|a: u64| alloc.sizes().dom().contains(a) <==> addrs@.to_set().contains(a) by {
                if alloc.sizes().contains_key(a) {
                    assert(addrs@.contains(a));
                }
                if addrs@.contains(a) {
                    let i = choose|i: int| 0 <= i < addrs@.len() && addrs@[i] == a;
                    assert(alloc.sizes().contains_key(addrs@[i]));
                }
            }
            assert(alloc.sizes().dom() =~= addrs@.to_set());
        }
        let r = State {
            cur_loc: start_loc,
            alloc,
            globals: Rc::new(globals),
            pointer_size_bits,
            null_pointer_checking,
            stack: Vec::new(),
            backtrack_points: Vec::new(),
            path: Vec::new(),
            mem,
            levels,
            function_ptr_cache: Vec::new(),
        };
        assert(r@.levels =~= seq![Seq::<BvTerm>::empty()]);
        assert(r@.points =~= Seq::<PointView<M>>::empty());
        assert(r.globals_view() == register_all(no_globals(), defs_s, addrs@, defs_s.len() as int));
        r
    }

    /// The memory.
    pub fn memory(&self) -> (r: &M)
        ensures
            *r == self@.mem,
    {
        &self.mem
    }

    /// Add a constraint for the solver to hold on this path.
    pub fn add_constraint(&mut self, c: BvTerm)
        requires
            old(self).wf(),
        ensures
            final(self).wf(),
            final(self)@ == constrained(old(self)@, c),
            constraints(final(self)@) == constraints(old(self)@).push(c),
            extends(final(self)@, old(self)@),
            final(self).null_checking() == old(self).null_checking(),
    {
        let ghost v = self@;
        match self.levels.pop() {
            Some(level) => {
                let mut level = level;
                level.push(c);
                self.levels.push(level);
            },
            None => {},
        }
        proof {
            assert(self@.levels =~= add_to_last(v.levels, c));
            assert(self@.points =~= v.points);
            assert(self@ == constrained(v, c));
            lemma_constrained_appends(v, c);
            assert(v.levels.drop_last() =~= self@.levels.drop_last());
            assert(self@.levels.last().take(v.levels.last().len() as int) =~= v.levels.last());
            assert(self@.path.take(v.path.len() as int) =~= v.path);
        }
    }

    /// All the constraints that the solver holds on this path, in the order
    /// they were added.
    pub fn constraints(&self) -> (r: Vec<BvTerm>)
        ensures
            r@ == constraints(self@),
    {
        let mut r: Vec<BvTerm> = Vec::new();
        let mut i: usize = 0;
        while i < self.levels.len()
            invariant
                i <= self.levels.len(),
                self@.levels == self.levels@.map_values(|l: Vec<BvTerm>| l@),
                r@ == self@.levels.take(i as int).flatten(),
            decreases self.levels.len() - i,
        {
            let ghost before = r@;
            let mut j: usize = 0;
            while j < self.levels[i].len()
                invariant
                    i < self.levels.len(),
                    j <= self.levels[i as int].len(),
                    r@ == before + self.levels[i as int]@.take(j as int),
                decreases self.levels[i as int].len() - j,
            {
                r.push(self.levels[i][j].clone());
                j += 1;
                assert(r@ =~= before + self.levels[i as int]@.take(j as int));
            }
            proof {
                let lv = self@.levels;
                assert(lv.take(i + 1) =~= lv.take(i as int).push(lv[i as int]));
                lv.take(i as int).lemma_flatten_push(lv[i as int]);
                assert(self.levels[i as int]@.take(j as int) =~= lv[i as int]);
            }
            i += 1;
        }
        assert(self@.levels.take(i as int) =~= self@.levels);
        r
    }

    /// Record the current location as a `PathEntry` in the current path.
    pub fn record_path_entry(&mut self)
        requires
            old(self).wf(),
        ensures
            final(self).wf(),
            final(self)@ == (StateView { path: old(self)@.path.push(PathEntry(old(self)@.cur_loc)), ..old(self)@ }),
            extends(final(self)@, old(self)@),
            final(self).null_checking() == old(self).null_checking(),
    {
        let ghost v = self@;
        let entry = PathEntry(self.cur_loc.snapshot());
        self.path.push(entry);
        proof {
            assert(self@.path.take(v.path.len() as int) =~= v.path);
            assert(self@.levels.last().take(v.levels.last().len() as int) =~= v.levels.last());
            assert forall|k: int| 0 <= k < self@.points.len() implies #[trigger] self@.points[k].path_len <= self@.path.len() by {
                assert(self@.points[k] == v.points[k]);
            }
        }
    }

    /// Get the `PathEntry`s that have been recorded, in order
    pub fn get_path(&self) -> (r: &Vec<PathEntry>)
        ensures
            r@ == self@.path,
    {
        &self.path
    }

    fn push_generic_callsite(&mut self, instr: CallInstr)
        requires
            old(self).wf(),
        ensures
            final(self).wf(),
            final(self)@ == (StateView {
                stack: old(self)@.stack.push(Callsite { loc: old(self)@.cur_loc, instr }),
                ..old(self)@
            }),
            extends(final(self)@, old(self)@),
            final(self).null_checking() == old(self).null_checking(),
    {
        let ghost v = self@;
        let site = Callsite { loc: self.cur_loc.snapshot(), instr };
        self.stack.push(site);
        proof {
            lemma_extends_refl(v);
        }
    }

    /// Record entering a normal `call` at the current location.
    pub fn push_callsite(&mut self)
        requires
            old(self).wf(),
        ensures
            final(self).wf(),
            final(self)@ == (StateView {
                stack: old(self)@.stack.push(Callsite { loc: old(self)@.cur_loc, instr: CallInstr::Call }),
                ..old(self)@
            }),
            extends(final(self)@, old(self)@),
            final(self).null_checking() == old(self).null_checking(),
    {
        self.push_generic_callsite(CallInstr::Call)
    }

    /// Record entering the `invoke` at the current location.
    pub fn push_invokesite(&mut self)
        requires
            old(self).wf(),
        ensures
            final(self).wf(),
            final(self)@ == (StateView {
                stack: old(self)@.stack.push(Callsite { loc: old(self)@.cur_loc, instr: CallInstr::Invoke }),
                ..old(self)@
            }),
            extends(final(self)@, old(self)@),
            final(self).null_checking() == old(self).null_checking(),
    {
        self.push_generic_callsite(CallInstr::Invoke)
    }

    /// Record leaving the current function. Returns the `Callsite` at which
    /// the current function was called, or `None` if the current function was
    /// the top-level function.
    pub fn pop_callsite(&mut self) -> (r: Option<Callsite>)
        requires
            old(self).wf(),
        ensures
            final(self).wf(),
            old(self)@.stack.len() == 0 ==> r is None && final(self)@ == old(self)@,
            old(self)@.stack.len() > 0 ==> r == Some(old(self)@.stack.last()) && final(self)@ == (StateView {
                stack: old(self)@.stack.drop_last(),
                ..old(self)@
            }),
            extends(final(self)@, old(self)@),
            final(self).null_checking() == old(self).null_checking(),
    {
        let ghost v = self@;
        let r = self.stack.pop();
        proof {
            lemma_extends_refl(v);
            assert(self@ =~= v || self@.stack =~= v.stack.drop_last());
        }
        r
    }

    /// Returns the current callstack depth. `0` indicates we're in the
    /// toplevel function, `1` indicates we're in a function directly called
    /// by the toplevel function, etc.
    pub fn current_callstack_depth(&self) -> (r: usize)
        ensures
            r == self@.stack.len(),
    {
        self.stack.len()
    }

    /// returns the number of saved backtracking points
    pub fn count_backtracking_points(&self) -> (r: usize)
        ensures
            r == self@.points.len(),
    {
        self.backtrack_points.len()
    }
}

impl<M: Snapshot, C> State<M, C> {
    /// Save the current state as a backtracking point that resumes at
    /// `loc_to_start_at` and adds `constraint` then, and only then.
    pub fn save_backtracking_point_at_location(&mut self, loc_to_start_at: Location, constraint: BvTerm)
        requires
            old(self).wf(),
        ensures
            final(self).wf(),
            final(self)@ == saved_at(old(self)@, loc_to_start_at, constraint),
            constraints(final(self)@) == constraints(old(self)@),
            final(self).null_checking() == old(self).null_checking(),
    {
        let ghost v = self@;
        let bp = BacktrackPoint {
            loc: loc_to_start_at,
            stack: snapshot_vec(&self.stack),
            constraint,
            mem: self.mem.snapshot(),
            path_len: self.path.len(),
        };
        self.backtrack_points.push(bp);
        self.levels.push(Vec::new());
        proof {
            assert(self@.points =~= v.points.push(bp.point_view()));
            assert(self@.levels =~= v.levels.push(Seq::empty()));
            assert(self@ == saved_at(v, loc_to_start_at, constraint));
            v.levels.lemma_flatten_push(Seq::empty());
            assert(v.levels.flatten() + Seq::<BvTerm>::empty() =~= v.levels.flatten());
        }
    }

    /// Save the current state, about to enter the basic block of the current
    /// function with the given name (as LLVM prints it), as a backtracking
    /// point. The constraint will be added only if we end up backtracking to
    /// this point, and only then.
    pub fn save_backtracking_point(&mut self, bb_to_enter: &str, constraint: BvTerm)
        requires
            old(self).wf(),
            has_block(old(self)@.cur_loc.func.blocks@, bb_to_enter@),
        ensures
            final(self).wf(),
            exists|bb: BlockInfo| Some(bb) == block_named(old(self)@.cur_loc.func.blocks@, bb_to_enter@)
                && final(self)@ == saved_at(
                    old(self)@,
                    Location {
                        module: old(self)@.cur_loc.module,
                        func: old(self)@.cur_loc.func,
                        bb,
                        instr: BBInstrIndex::Instr(0),
                    },
                    constraint,
                ),
            final(self).null_checking() == old(self).null_checking(),
    {
        let func = self.cur_loc.func.clone();
        match func.get_bb_by_name(bb_to_enter) {
            Some(bb) => {
                let loc = Location {
                    module: self.cur_loc.module.clone(),
                    func: self.cur_loc.func.clone(),
                    bb: bb.snapshot(),
                    instr: BBInstrIndex::Instr(0),
                };
                self.save_backtracking_point_at_location(loc, constraint);
            },
            None => {},
        }
    }

    /// Revert to the most recent backtracking point: returns `Ok(true)` if
    /// there was one, `Ok(false)` (and changes nothing) if there are no saved
    /// backtracking points.
    pub fn revert_to_backtracking_point(&mut self) -> (r: Result<bool>)
        requires
            old(self).wf(),
        ensures
            final(self).wf(),
            r == Ok::<bool, crate::error::Error>(old(self)@.points.len() > 0),
            old(self)@.points.len() == 0 ==> final(self)@ == old(self)@,
            old(self)@.points.len() > 0 ==> final(self)@ == reverted(old(self)@),
            final(self).null_checking() == old(self).null_checking(),
    {
        let ghost v = self@;
        match self.backtrack_points.pop() {
            None => Ok(false),
            Some(bp) => {
                let ghost p = bp.point_view();
                assert(p == v.points.last());
                self.levels.pop();
                self.mem = bp.mem;
                self.stack = bp.stack;
                self.path.truncate(bp.path_len);
                self.cur_loc = bp.loc;
                proof {
                    assert(self@.points =~= v.points.drop_last());
                    assert(self@.levels =~= v.levels.drop_last());
                    assert(self@.path =~= v.path.take(p.path_len as int));
                }
                self.add_constraint(bp.constraint);
                proof {
                    assert(self@ =~= reverted(v));
                }
                Ok(true)
            },
        }
    }

    /// Fully duplicate the `State`.
    pub fn fork(&self) -> (r: Self)
        ensures
            r@ == self@,
            forall|loc: Location| #[trigger] r.cached_at(loc) == self.cached_at(loc),
            self.wf() ==> r.wf(),
            r.allocations() == self.allocations(),
            r.globals_view() == self.globals_view(),
            r.pointer_bits() == self.pointer_bits(),
            r.null_checking() == self.null_checking(),
    {
        let mut points: Vec<BacktrackPoint<M>> = Vec::new();
        let mut i: usize = 0;
        while i < self.backtrack_points.len()
            invariant
                i <= self.backtrack_points.len(),
                points@.len() == i,
                forall|k: int| 0 <= k < i ==> #[trigger] points@[k].point_view()
                    == self.backtrack_points@[k].point_view(),
            decreases self.backtrack_points.len() - i,
        {
            points.push(self.backtrack_points[i].copy_point());
            i += 1;
        }
        let mut levels: Vec<Vec<BvTerm>> = Vec::new();
        let mut i: usize = 0;
        while i < self.levels.len()
            invariant
                i <= self.levels.len(),
                levels@.len() == i,
                forall|k: int| 0 <= k < i ==> #[trigger] levels@[k]@ == self.levels@[k]@,
            decreases self.levels.len() - i,
        {
            levels.push(snapshot_vec(&self.levels[i]));
            i += 1;
        }
        let checking = match self.null_pointer_checking {
            NullPointerChecking::Simple => NullPointerChecking::Simple,
            NullPointerChecking::SplitPath => NullPointerChecking::SplitPath,
            NullPointerChecking::Disabled => NullPointerChecking::Disabled,
        };
        let mut cache: Vec<(Location, u64)> = Vec::new();
        let mut i: usize = 0;
        while i < self.function_ptr_cache.len()
            invariant
                i <= self.function_ptr_cache@.len(),
                cache@ == self.function_ptr_cache@.subrange(0, i as int),
            decreases self.function_ptr_cache.len() - i,
        {
            cache.push((self.function_ptr_cache[i].0.snapshot(), self.function_ptr_cache[i].1));
            i += 1;
        }
        assert(cache@ =~= self.function_ptr_cache@);
        let ghost c = cache@;
        let r = State {
            cur_loc: self.cur_loc.snapshot(),
            alloc: self.alloc.copy(),
            globals: self.globals.clone(),
            pointer_size_bits: self.pointer_size_bits,
            null_pointer_checking: checking,
            stack: snapshot_vec(&self.stack),
            backtrack_points: points,
            path: snapshot_vec(&self.path),
            mem: self.mem.snapshot(),
            levels,
            function_ptr_cache: cache,
        };
        assert(r@.points =~= self@.points);
        assert(r@.levels =~= self@.levels);
        assert(r.function_ptr_cache@ == self.function_ptr_cache@);
        assert(r@ =~= self@);
        r
    }
}

/// The one-bit constraint that `addr` is not null.
pub open spec fn non_null(addr: BvTerm) -> BvTerm {
    BvTerm::Not(Box::new(BvTerm::Eq(Box::new(addr), Box::new(BvTerm::Zero(width(addr) as u32)))))
}

fn non_null_term(addr: &BvTerm) -> (r: BvTerm)
    requires
        wf(*addr),
    ensures
        r == non_null(*addr),
{
    let w = addr.get_width();
    BvTerm::Not(Box::new(BvTerm::Eq(Box::new(addr.clone()), Box::new(BvTerm::Zero(w)))))
}

/// What an access of memory that failed with `e` leaves of state `v`: where
/// the failure is a possibly-null address and null pointers split paths, a
/// backtracking point that re-executes the current instruction with the
/// address constrained to be non-null; otherwise `v` unchanged.
pub open spec fn after_failed_access<M>(v: StateView<M>, checking: NullPointerChecking, addr: BvTerm, e: Error) -> StateView<M> {
    if e == Error::NullPointerDereference && checking == NullPointerChecking::SplitPath {
        saved_at(v, v.cur_loc, non_null(addr))
    } else {
        v
    }
}

impl<M: Snapshot, C> State<M, C> {
    fn after_failure(&mut self, addr: &BvTerm, e: &Error)
        requires
            old(self).wf(),
            wf(*addr),
        ensures
            final(self).wf(),
            final(self)@ == after_failed_access(old(self)@, old(self).null_checking(), *addr, *e),
            final(self).null_checking() == old(self).null_checking(),
    {
        let split = match self.null_pointer_checking {
            NullPointerChecking::SplitPath => true,
            _ => false,
        };
        let null = match e {
            Error::NullPointerDereference => true,
            _ => false,
        };
        if split && null {
            let here = self.cur_loc.snapshot();
            let c = non_null_term(addr);
            self.save_backtracking_point_at_location(here, c);
        }
    }
}

impl<C> State<simple_memory::Memory, C> {
    /// Read a value `bits` bits long from memory at `addr`. When the memory
    /// reports a possibly-null address and null pointers split paths, a
    /// backtracking point is saved first that re-executes the current
    /// instruction with the address constrained to be non-null; the error is
    /// reported either way.
    pub fn read<F: Fn() -> Result<bool>>(&mut self, addr: &BvTerm, bits: u32, can_be_null: F) -> (r: Result<BvTerm>)
        requires
            old(self).wf(),
            old(self)@.mem.wf(),
            wf(*addr),
            width(*addr) == old(self)@.mem.addr_bits(),
            bits >= 1,
            bits < 8 || bits % 8 == 0,
            old(self)@.mem.null_detection() ==> can_be_null.requires(()),
        ensures
            final(self).wf(),
            final(self).null_checking() == old(self).null_checking(),
            r matches Ok(t) ==> {
                &&& wf(t)
                &&& width(t) == bits
                &&& forall|env: Env| #[trigger] eval(t, env) == old(self)@.mem.read_value(env, eval(*addr, env), bits as nat)
            },
            r is Ok ==> final(self)@ == old(self)@,
            r matches Err(e) ==> final(self)@ == after_failed_access(old(self)@, old(self).null_checking(), *addr, e),
            !old(self)@.mem.null_detection() ==> r is Ok,
            old(self)@.mem.null_detection() && r is Ok ==> can_be_null.ensures((), Ok(false)),
            r matches Err(e) ==> old(self)@.mem.null_detection() && (can_be_null.ensures((), Err(e)) || (e
                == Error::NullPointerDereference && can_be_null.ensures((), Ok(true)))),
    {
        let r = self.mem.read(addr, bits, can_be_null);
        match &r {
            Ok(_) => {},
            Err(e) => self.after_failure(addr, e),
        }
        r
    }

    /// Write a value into memory at `addr`. When the memory reports a
    /// possibly-null address and null pointers split paths, a backtracking
    /// point is saved that re-executes the current instruction with the
    /// address constrained to be non-null; the error is reported either way.
    pub fn write<F: Fn() -> Result<bool>>(&mut self, addr: &BvTerm, val: BvTerm, can_be_null: F) -> (r: Result<()>)
        requires
            old(self).wf(),
            old(self)@.mem.wf(),
            wf(*addr),
            width(*addr) == old(self)@.mem.addr_bits(),
            wf(val),
            width(val) < 8 || width(val) % 8 == 0,
            old(self)@.mem.null_detection() ==> can_be_null.requires(()),
        ensures
            final(self).wf(),
            final(self).null_checking() == old(self).null_checking(),
            r is Ok ==> simple_memory::Memory::is_write_of(final(self)@.mem, old(self)@.mem, *addr, val)
                && final(self)@ == (StateView { mem: final(self)@.mem, ..old(self)@ }),
            r matches Err(e) ==> final(self)@ == after_failed_access(old(self)@, old(self).null_checking(), *addr, e),
            !old(self)@.mem.null_detection() ==> r is Ok,
            old(self)@.mem.null_detection() && r is Ok ==> can_be_null.ensures((), Ok(false)),
            r matches Err(e) ==> old(self)@.mem.null_detection() && (can_be_null.ensures((), Err(e)) || (e
                == Error::NullPointerDereference && can_be_null.ensures((), Ok(true)))),
    {
        let ghost v = self@;
        let r = self.mem.write(addr, val, can_be_null);
        match &r {
            Ok(_) => {
                assert(self@ =~= (StateView { mem: self@.mem, ..v }));
            },
            Err(e) => {
                assert(self@ =~= v);
                self.after_failure(addr, e);
            },
        }
        r
    }
}

impl<C> State<cell_memory::Memory, C> {
    /// Read a value `bits` bits long from memory at `addr`. When the memory
    /// reports a possibly-null address and null pointers split paths, a
    /// backtracking point is saved first that re-executes the current
    /// instruction with the address constrained to be non-null; the error is
    /// reported either way.
    pub fn read<F: Fn() -> Result<bool>>(&mut self, addr: &BvTerm, bits: u32, can_be_null: F) -> (r: Result<BvTerm>)
        requires
            old(self).wf(),
            old(self)@.mem.wf(),
            wf(*addr),
            width(*addr) == cell_memory::INDEX_BITS,
            bits >= 1,
            bits > cell_memory::CELL_BITS && const_u64(*addr) is None ==> bits % 8 == 0,
            old(self)@.mem.null_detection() ==> can_be_null.requires(()),
        ensures
            final(self).wf(),
            final(self).null_checking() == old(self).null_checking(),
            r matches Ok(t) ==> {
                &&& wf(t)
                &&& width(t) == bits
                &&& forall|env: Env| #[trigger] eval(t, env) == old(self)@.mem.read_value(env, *addr, bits as nat)
            },
            r is Ok ==> final(self)@ == old(self)@,
            r matches Err(e) ==> final(self)@ == after_failed_access(old(self)@, old(self).null_checking(), *addr, e),
            !old(self)@.mem.null_detection() ==> r is Ok,
            old(self)@.mem.null_detection() && r is Ok ==> can_be_null.ensures((), Ok(false)),
            r matches Err(e) ==> old(self)@.mem.null_detection() && (can_be_null.ensures((), Err(e)) || (e
                == Error::NullPointerDereference && can_be_null.ensures((), Ok(true)))),
    {
        let r = self.mem.read(addr, bits, can_be_null);
        match &r {
            Ok(_) => {},
            Err(e) => self.after_failure(addr, e),
        }
        r
    }

    /// Write a value into memory at `addr`. When the memory reports a
    /// possibly-null address and null pointers split paths, a backtracking
    /// point is saved that re-executes the current instruction with the
    /// address constrained to be non-null; the error is reported either way.
    pub fn write<F: Fn() -> Result<bool>>(&mut self, addr: &BvTerm, val: BvTerm, can_be_null: F) -> (r: Result<()>)
        requires
            old(self).wf(),
            old(self)@.mem.wf(),
            wf(*addr),
            width(*addr) == cell_memory::INDEX_BITS,
            wf(val),
            width(val) > cell_memory::CELL_BITS && const_u64(*addr) is None ==> width(val) % 8 == 0,
            old(self)@.mem.null_detection() ==> can_be_null.requires(()),
        ensures
            final(self).wf(),
            final(self).null_checking() == old(self).null_checking(),
            r is Ok ==> {
                &&& cell_memory::Memory::same_except(final(self)@.mem, old(self)@.mem)
                &&& forall|env: Env, c: Seq<bool>| #[trigger] final(self)@.mem.cell(env, c)
                    == cell_memory::Memory::written(old(self)@.mem, env, *addr, eval(val, env), c)
                &&& final(self)@ == (StateView { mem: final(self)@.mem, ..old(self)@ })
            },
            r matches Err(e) ==> final(self)@ == after_failed_access(old(self)@, old(self).null_checking(), *addr, e),
            !old(self)@.mem.null_detection() ==> r is Ok,
            old(self)@.mem.null_detection() && r is Ok ==> can_be_null.ensures((), Ok(false)),
            r matches Err(e) ==> old(self)@.mem.null_detection() && (can_be_null.ensures((), Err(e)) || (e
                == Error::NullPointerDereference && can_be_null.ensures((), Ok(true)))),
    {
        let ghost v = self@;
        let r = self.mem.write(addr, val, can_be_null);
        match &r {
            Ok(_) => {
                assert(self@ =~= (StateView { mem: self@.mem, ..v }));
            },
            Err(e) => {
                assert(self@ =~= v);
                self.after_failure(addr, e);
            },
        }
        r
    }
}

/// Some address of `addrs` has no function allocated at it, as seen from
/// `module`.
pub open spec fn some_unresolved<A>(globals: GlobalAllocations<A, u64>, module: u64, addrs: Seq<u64>) -> bool {
    exists|i: int| 0 <= i < addrs.len() && (#[trigger] globals.view().function_at(module, addrs[i])) is None
}

/// The functions allocated at the addresses of `addrs`, as seen from
/// `module`.
pub open spec fn functions_at<A>(globals: GlobalAllocations<A, u64>, module: u64, addrs: Seq<u64>) -> Set<u64> {
    Set::new(|c: u64| exists|i: int| 0 <= i < addrs.len() && #[trigger] globals.view().function_at(module, addrs[i]) == Some(c))
}

/// `r` is what the possible values `addrs` of a function pointer resolve
/// to (see `callables_for_addresses`).
pub open spec fn resolves<A>(globals: GlobalAllocations<A, u64>, module: u64, addrs: Seq<u64>, n: usize, r: Result<PossibleSolutions<u64>>) -> bool {
    &&& r is Err <==> some_unresolved(globals, module, addrs)
    &&& r matches Err(e) ==> exists|i: int| 0 <= i < addrs.len()
        && globals.view().function_at(module, addrs[i]) is None
        && e == Error::FailedToResolveFunctionPointer(addrs[i])
        && forall|j: int| 0 <= j < i ==> (#[trigger] globals.view().function_at(module, addrs[j])) is Some
    &&& r matches Ok(ps) ==> {
        &&& ps.wf()
        &&& ps.items().to_set() == functions_at(globals, module, addrs)
        &&& (ps is AtLeast <==> ps.items().len() > n)
    }
}

/// The functions that the possible values `addrs` of a function pointer
/// point to, each once, as seen from `module`: `Exactly` those if there are
/// at most `n`, else `AtLeast` them. Fails with
/// `FailedToResolveFunctionPointer` for the first address at which no
/// function is allocated.
pub fn callables_for_addresses<A>(globals: &GlobalAllocations<A, u64>, module: u64, addrs: &Vec<u64>, n: usize) -> (r: Result<PossibleSolutions<u64>>)
    requires
        globals.wf(),
    ensures
        resolves(*globals, module, addrs@, n, r),
{
    let mut found: Vec<u64> = Vec::new();
    let mut i: usize = 0;
    while i < addrs.len()
        invariant
            globals.wf(),
            i <= addrs@.len(),
            found@.no_duplicates(),
            found@.to_set() == functions_at(*globals, module, addrs@.subrange(0, i as int)),
            forall|j: int| 0 <= j < i ==> (#[trigger] globals.view().function_at(module, addrs@[j])) is Some,
        decreases addrs.len() - i,
    {
        let ghost before = found@.to_set();
        match globals.get_func_for_address(addrs[i], module) {
            None => {
                assert(globals.view().function_at(module, addrs@[i as int]) is None);
                return Err(Error::FailedToResolveFunctionPointer(addrs[i]));
            },
            Some(c) => {
                insert_distinct(&mut found, *c);
                proof {
                    let s0 = addrs@.subrange(0, i as int);
                    let s1 = addrs@.subrange(0, i + 1);
                    assert forall|x: u64| functions_at(*globals, module, s1).contains(x) <==> before.insert(*c).contains(x) by {
                        if functions_at(*globals, module, s1).contains(x) {
                            let w = choose|w: int| 0 <= w < s1.len() && #[trigger] globals.view().function_at(module, s1[w]) == Some(x);
                            if w < i {
                                assert(s0[w] == s1[w]);
                                assert(functions_at(*globals, module, s0).contains(x));
                            }
                        }
                        if before.contains(x) {
                            let w = choose|w: int| 0 <= w < s0.len() && #[trigger] globals.view().function_at(module, s0[w]) == Some(x);
                            assert(s1[w] == s0[w]);
                        }
                        if x == *c {
                            assert(s1[i as int] == addrs@[i as int]);
                        }
                    }
                    assert(found@.to_set() =~= functions_at(*globals, module, s1));
                }
            },
        }
        i += 1;
    }
    assert(addrs@.subrange(0, i as int) =~= addrs@);
    assert(!some_unresolved(*globals, module, addrs@));
    if found.len() > n {
        Ok(PossibleSolutions::AtLeast(found))
    } else {
        Ok(PossibleSolutions::Exactly(found))
    }
}

/// The possible values of a function pointer, found in this order: the
/// pointer's constant value if it is one (`constant`); else the value last
/// resolved at the same location (`cached`) if the solver says the pointer
/// must equal it (`must_equal`); else the possible values the solver gives
/// (`possible`).
pub fn function_ptr_addresses<F, G>(constant: Option<u64>, cached: Option<u64>, must_equal: F, possible: G) -> (r: Result<Vec<u64>>)
    where
        F: Fn(u64) -> Result<bool>,
        G: Fn() -> Result<PossibleSolutions<u64>>,
    requires
        forall|a: u64| #[trigger] must_equal.requires((a,)),
        possible.requires(()),
    ensures
        constant matches Some(a) ==> r matches Ok(v) && v@ == seq![a],
        constant is None ==> (r matches Ok(v) ==> {
            ||| cached matches Some(c) && must_equal.ensures((c,), Ok(true)) && v@ == seq![c]
            ||| (cached matches Some(c) ==> must_equal.ensures((c,), Ok(false)))
                && exists|ps: PossibleSolutions<u64>| #[trigger] possible.ensures((), Ok(ps)) && v@ == ps.items()
        }),
        constant is None ==> (r matches Err(e) ==> {
            ||| cached matches Some(c) && must_equal.ensures((c,), Err(e))
            ||| (cached matches Some(c) ==> must_equal.ensures((c,), Ok(false)))
                && possible.ensures((), Err(e))
        }),
{
    match constant {
        Some(a) => {
            let mut v: Vec<u64> = Vec::new();
            v.push(a);
            assert(v@ =~= seq![a]);
            return Ok(v);
        },
        None => {},
    }
    match cached {
        Some(c) => {
            let same = must_equal(c)?;
            if same {
                let mut v: Vec<u64> = Vec::new();
                v.push(c);
                assert(v@ =~= seq![c]);
                return Ok(v);
            }
        },
        None => {},
    }
    let ps = possible()?;
    match ps {
        PossibleSolutions::Exactly(v) => Ok(v),
        PossibleSolutions::AtLeast(v) => Ok(v),
    }
}

impl<M, C> State<M, C> {
    /// The functions that `bv`, a function pointer, may point to, as seen
    /// from `module` (the current module): see `function_ptr_addresses` for
    /// how its possible values are found (the cached value is the one for
    /// the current location) and `callables_for_addresses` for what is made
    /// of them. When exactly one value was found, it is cached for the
    /// current location.
    pub fn interpret_as_function_ptr<A, F, G>(
        &mut self,
        globals: &GlobalAllocations<A, u64>,
        module: u64,
        bv: &BvTerm,
        n: usize,
        must_equal: F,
        possible: G,
    ) -> (r: Result<PossibleSolutions<u64>>)
        where
            F: Fn(u64) -> Result<bool>,
            G: Fn() -> Result<PossibleSolutions<u64>>,
        requires
            old(self).wf(),
            globals.wf(),
            wf(*bv),
            n > 0,
            forall|a: u64| #[trigger] must_equal.requires((a,)),
            possible.requires(()),
        ensures
            final(self).wf(),
            final(self)@ == old(self)@,
            final(self).null_checking() == old(self).null_checking(),
            const_u64(*bv) matches Some(a) ==> resolves(*globals, module, seq![a], n, r)
                && final(self).cached_at(old(self)@.cur_loc) == Some(a),
            const_u64(*bv) is None ==> {
                let cached = old(self).cached_at(old(self)@.cur_loc);
                ||| exists|addrs: Seq<u64>| {
                    &&& #[trigger] resolves(*globals, module, addrs, n, r)
                    &&& {
                        ||| cached matches Some(c) && must_equal.ensures((c,), Ok(true)) && addrs == seq![c]
                        ||| (cached matches Some(c) ==> must_equal.ensures((c,), Ok(false)))
                            && exists|ps: PossibleSolutions<u64>| #[trigger] possible.ensures((), Ok(ps)) && addrs == ps.items()
                    }
                    &&& (addrs.len() == 1 ==> final(self).cached_at(old(self)@.cur_loc) == Some(addrs[0]))
                }
                ||| r matches Err(e) && cached matches Some(c) && must_equal.ensures((c,), Err(e))
                ||| r matches Err(e) && (cached matches Some(c) ==> must_equal.ensures((c,), Ok(false)))
                    && possible.ensures((), Err(e))
            },
            forall|loc: Location| !same_place(loc, old(self)@.cur_loc) ==> #[trigger] final(self).cached_at(loc)
                == old(self).cached_at(loc),
    {
        let constant = bv.as_u64();
        let cached = self.cached_function_ptr();
        let addrs = function_ptr_addresses(constant, cached, must_equal, possible)?;
        if addrs.len() == 1 {
            self.cache_function_ptr(addrs[0]);
        }
        let r = callables_for_addresses(globals, module, &addrs, n);
        assert(resolves(*globals, module, addrs@, n, r));
        r
    }
}

/// How an instruction index is written: `instr 3`, or `terminator`.
pub open spec fn index_text(i: BBInstrIndex) -> Seq<char> {
    match i {
        BBInstrIndex::Instr(k) => "instr "@ + decimal(k as nat),
        BBInstrIndex::Terminator => "terminator"@,
    }
}

/// The part of `s` after its last `/`, or all of `s` if it has none.
pub open spec fn after_last_slash(s: Seq<char>) -> Seq<char>
    decreases s.len(),
{
    if s.len() == 0 {
        s
    } else if s.last() == '/' {
        Seq::empty()
    } else {
        after_last_slash(s.drop_last()).push(s.last())
    }
}

proof fn lemma_after_last_slash(s: Seq<char>, p: int)
    requires
        0 <= p <= s.len(),
        p > 0 ==> s[p - 1] == '/',
        forall|j: int| p <= j < s.len() ==> #[trigger] s[j] != '/',
    ensures
        after_last_slash(s) == s.subrange(p, s.len() as int),
    decreases s.len(),
{
    if s.len() > 0 && p < s.len() {
        lemma_after_last_slash(s.drop_last(), p);
        assert(s.drop_last().subrange(p, s.len() - 1).push(s.last()) =~= s.subrange(p, s.len() as int));
    } else if s.len() > 0 {
        assert(s.subrange(p, s.len() as int) =~= Seq::<char>::empty());
    }
}

/// `module: func, bb name, index`, as a location is written with its module.
pub open spec fn location_text(module: Seq<char>, loc: Location) -> Seq<char> {
    module + ": "@ + loc.func.name@ + ", bb "@ + loc.bb.name@ + ", "@ + index_text(loc.instr)
}

/// `func, bb name, index`, as a location is written without its module.
pub open spec fn location_text_no_module(loc: Location) -> Seq<char> {
    loc.func.name@ + ", bb "@ + loc.bb.name@ + ", "@ + index_text(loc.instr)
}

impl BBInstrIndex {
    /// The index as it is written: `instr 3`, or `terminator`.
    pub fn to_text(&self) -> (r: String)
        ensures
            r@ == index_text(*self),
    {
        match self {
            BBInstrIndex::Instr(k) => {
                proof {
                    reveal_strlit("instr ");
                }
                let mut r = String::from_str("instr ");
                let d = to_decimal(*k as u64);
                r.append(d.as_str());
                r
            },
            BBInstrIndex::Terminator => {
                proof {
                    reveal_strlit("terminator");
                }
                String::from_str("terminator")
            },
        }
    }
}

impl Location {
    fn text_after_module(&self) -> (r: String)
        ensures
            r@ == location_text_no_module(*self),
    {
        let mut r = self.func.name.clone();
        r.append(", bb ");
        r.append(self.bb.name.as_str());
        r.append(", ");
        let t = self.instr.to_text();
        r.append(t.as_str());
        r
    }

    /// Format this `Location` as a string, including the full module name
    pub fn to_string_with_module(&self) -> (r: String)
        ensures
            r@ == location_text(self.module@, *self),
    {
        let mut r = self.module.clone();
        r.append(": ");
        let rest = self.text_after_module();
        r.append(rest.as_str());
        assert(r@ =~= location_text(self.module@, *self));
        r
    }

    /// Format this `Location` as a string, omitting the module name
    pub fn to_string_no_module(&self) -> (r: String)
        ensures
            r@ == location_text_no_module(*self),
    {
        self.text_after_module()
    }

    /// Format this `Location` as a string, including the short module name:
    /// the part of the module name after its last `/`, or the full module
    /// name if it has no `/`.
    pub fn to_string_short_module(&self) -> (r: String)
        ensures
            r@ == location_text(after_last_slash(self.module@), *self),
    {
        let m = self.module.as_str();
        let n = m.unicode_len();
        let mut p: usize = n;
        let mut found = false;
        while p > 0 && !found
            invariant
                n == m@.len(),
                p <= n,
                found ==> p > 0 && m@[p - 1] == '/',
                forall|j: int| p <= j < n ==> #[trigger] m@[j] != '/',
            decreases p + (if found { 0int } else { 1int }),
        {
            if m.get_char(p - 1) == '/' {
                found = true;
            } else {
                p -= 1;
            }
        }
        proof {
            lemma_after_last_slash(m@, p as int);
        }
        let short = m.substring_char(p, n);
        let mut r = String::from_str(short);
        r.append(": ");
        let rest = self.text_after_module();
        r.append(rest.as_str());
        assert(r@ =~= location_text(after_last_slash(self.module@), *self));
        r
    }
}

impl PathEntry {
    /// Format this `PathEntry` as a string, including the module name:
    /// `{module: func, bb name, starting at index}`.
    pub fn to_string_with_module(&self) -> (r: String)
        ensures
            r@ == "{"@ + self.0.module@ + ": "@ + self.0.func.name@ + ", bb "@ + self.0.bb.name@
                + ", starting at "@ + index_text(self.0.instr) + "}"@,
    {
        let mut r = String::from_str("{");
        r.append(self.0.module.as_str());
        r.append(": ");
        let rest = self.entry_text();
        r.append(rest.as_str());
        assert(r@ =~= "{"@ + self.0.module@ + ": "@ + self.0.func.name@ + ", bb "@ + self.0.bb.name@
            + ", starting at "@ + index_text(self.0.instr) + "}"@);
        r
    }

    /// Format this `PathEntry` as a string, omitting the module name:
    /// `{func, bb name, starting at index}`.
    pub fn to_string_no_module(&self) -> (r: String)
        ensures
            r@ == "{"@ + self.0.func.name@ + ", bb "@ + self.0.bb.name@ + ", starting at "@
                + index_text(self.0.instr) + "}"@,
    {
        let mut r = String::from_str("{");
        let rest = self.entry_text();
        r.append(rest.as_str());
        assert(r@ =~= "{"@ + self.0.func.name@ + ", bb "@ + self.0.bb.name@ + ", starting at "@
            + index_text(self.0.instr) + "}"@);
        r
    }

    fn entry_text(&self) -> (r: String)
        ensures
            r@ == self.0.func.name@ + ", bb "@ + self.0.bb.name@ + ", starting at "@ + index_text(self.0.instr) + "}"@,
    {
        let mut r = self.0.func.name.clone();
        r.append(", bb ");
        r.append(self.0.bb.name.as_str());
        r.append(", starting at ");
        let t = self.0.instr.to_text();
        r.append(t.as_str());
        r.append("}");
        r
    }
}

impl<M, C> State<M, C> {
    /// The full path which led to this point, one path entry per line, each
    /// line indented by two spaces and written with or without its module
    /// name.
    pub fn pretty_path_llvm(&self, print_module_name: bool) -> (r: String)
        ensures
            r@ == path_text(self@.path, print_module_name),
    {
        let mut r = String::new();
        let mut i: usize = 0;
        while i < self.path.len()
            invariant
                i <= self.path@.len(),
                self@.path == self.path@,
                r@ == path_text(self@.path.take(i as int), print_module_name),
            decreases self.path.len() - i,
        {
            let e = if print_module_name {
                self.path[i].to_string_with_module()
            } else {
                self.path[i].to_string_no_module()
            };
            r.append("  ");
            r.append(e.as_str());
            r.append("\n");
            proof {
                reveal_strlit("  ");
                reveal_strlit("\n");
                assert(self@.path.take(i + 1).drop_last() =~= self@.path.take(i as int));
                assert(r@ =~= path_text(self@.path.take(i + 1), print_module_name));
            }
            i += 1;
        }
        assert(self@.path.take(i as int) =~= self@.path);
        r
    }
}

/// How a path entry is written, with or without its module.
pub open spec fn entry_text(e: PathEntry, print_module_name: bool) -> Seq<char> {
    if print_module_name {
        "{"@ + e.0.module@ + ": "@ + e.0.func.name@ + ", bb "@ + e.0.bb.name@ + ", starting at "@
            + index_text(e.0.instr) + "}"@
    } else {
        "{"@ + e.0.func.name@ + ", bb "@ + e.0.bb.name@ + ", starting at "@ + index_text(e.0.instr) + "}"@
    }
}

/// A path written one entry per line, each indented by two spaces.
pub open spec fn path_text(path: Seq<PathEntry>, print_module_name: bool) -> Seq<char>
    decreases path.len(),
{
    if path.len() == 0 {
        Seq::empty()
    } else {
        path_text(path.drop_last(), print_module_name) + "  "@ + entry_text(path.last(), print_module_name) + "\n"@
    }
}

} // verus!
