//! The allocation pass that sets up a symbolic execution: every global
//! variable definition and every function gets memory of its own, and is
//! registered under its name.
//!
//! Global variables are all allocated up front (their initializers may refer
//! to one another's addresses); each function gets a small allocation so
//! that pointers to it exist.

use vstd::prelude::*;

use crate::bump_alloc::{bytes_for_bits, Alloc};
use crate::cell_memory::CELL_BYTES;
use crate::global_allocations::{AllocationResult, Definition, GlobalAllocations, GlobalsView, Linkage};

verus! {

/// What a definition defines.
pub enum DefKind<C> {
    /// A global variable whose contents have this many bits.
    Variable(u64),
    /// A function, found through `C` at its address.
    Function(C),
}

/// A global variable or function definition, in the module with id `module`
/// and under the name with id `name`.
pub struct GlobalDef<C> {
    pub linkage: Linkage,
    pub module: u64,
    pub name: u64,
    pub kind: DefKind<C>,
}

/// How many bits a definition is allocated: a variable its size (at least
/// eight bits, even if it has none), a function 64.
pub open spec fn def_bits<C>(d: GlobalDef<C>) -> u64 {
    match d.kind {
        DefKind::Variable(s) => if s == 0 {
            8
        } else {
            s
        },
        DefKind::Function(_) => 64,
    }
}

/// No global variable or function registered.
pub open spec fn no_globals<C>() -> GlobalsView<u64, C> {
    GlobalsView {
        public: Map::empty(),
        private: Map::empty(),
        functions: Map::empty(),
        private_functions: Map::empty(),
    }
}

/// The registrations after allocating definition `d` at `addr`.
pub open spec fn register<C>(v: GlobalsView<u64, C>, d: GlobalDef<C>, addr: u64) -> GlobalsView<u64, C> {
    let a = v.allocate(d.linkage, d.module, d.name, addr);
    match d.kind {
        DefKind::Variable(_) => a,
        DefKind::Function(c) => GlobalsView {
            functions: match v.allocation_result(d.linkage, d.module, d.name) {
                AllocationResult::Public => v.functions.insert(addr, c),
                _ => v.functions,
            },
            private_functions: match v.allocation_result(d.linkage, d.module, d.name) {
                AllocationResult::ModulePrivate => v.private_functions.insert((d.module, addr), c),
                _ => v.private_functions,
            },
            ..a
        },
    }
}

/// The registrations after allocating the first `k` definitions at the
/// given addresses.
pub open spec fn register_all<C>(v: GlobalsView<u64, C>, defs: Seq<GlobalDef<C>>, addrs: Seq<u64>, k: int) -> GlobalsView<u64, C>
    decreases k,
{
    if k <= 0 {
        v
    } else {
        register(register_all(v, defs, addrs, k - 1), defs[k - 1], addrs[k - 1])
    }
}

/// Which names are registered, and how: what the rules for allocating a
/// definition look at.
pub open spec fn same_keys<C>(v: GlobalsView<u64, C>, w: GlobalsView<u64, C>) -> bool {
    &&& v.private.dom() == w.private.dom()
    &&& v.public.dom() == w.public.dom()
    &&& forall|n: u64| #[trigger] v.public.contains_key(n) ==> (v.public[n] is Strong <==> w.public[n] is Strong)
}

/// Addresses for `n` definitions, where only what is registered matters,
/// not where.
pub open spec fn placeholder_addrs(n: nat) -> Seq<u64> {
    Seq::new(n, |i: int| 0u64)
}

/// The first `k` definitions can be allocated one after the other: none
/// breaks the rules for allocating (the addresses do not matter to them).
pub open spec fn allocatable<C>(v: GlobalsView<u64, C>, defs: Seq<GlobalDef<C>>, k: int) -> bool
    decreases k,
{
    if k <= 0 {
        true
    } else {
        let d = defs[k - 1];
        &&& allocatable(v, defs, k - 1)
        &&& register_all(v, defs, placeholder_addrs(defs.len()), k - 1).may_allocate(d.linkage, d.module, d.name)
    }
}

/// Registering at other addresses registers the same names in the same way.
proof fn lemma_same_keys<C>(v: GlobalsView<u64, C>, defs: Seq<GlobalDef<C>>, a1: Seq<u64>, a2: Seq<u64>, k: int)
    ensures
        same_keys(register_all(v, defs, a1, k), register_all(v, defs, a2, k)),
    decreases k,
{
    if k > 0 {
        lemma_same_keys(v, defs, a1, a2, k - 1);
        let p1 = register_all(v, defs, a1, k - 1);
        let p2 = register_all(v, defs, a2, k - 1);
        let q1 = register_all(v, defs, a1, k);
        let q2 = register_all(v, defs, a2, k);
        assert(q1.private.dom() =~= q2.private.dom());
        assert(q1.public.dom() =~= q2.public.dom());
    }
}

/// The bytes the allocator may use for the first `k` definitions, counting
/// what aligning each to a cell may skip.
pub open spec fn room_for<C>(defs: Seq<GlobalDef<C>>, k: int) -> nat
    decreases k,
{
    if k <= 0 {
        0
    } else {
        room_for(defs, k - 1) + bytes_for_bits(def_bits(defs[k - 1])) + CELL_BYTES as nat
    }
}

/// Allocate each definition of `defs` in order: `def_bits` of memory from
/// `alloc`, registered in `globals` at the address it got. Returns the
/// addresses, one per definition.
pub fn allocate_globals<C>(alloc: &mut Alloc, globals: &mut GlobalAllocations<u64, C>, defs: Vec<GlobalDef<C>>) -> (addrs: Vec<u64>)
    requires
        old(alloc).wf(),
        forall|a: u64| #[trigger] old(alloc).sizes().contains_key(a) ==> a < old(alloc).cursor(),
        old(globals).wf(),
        allocatable(old(globals).view(), defs@, defs@.len() as int),
        old(alloc).cursor() + room_for(defs@, defs@.len() as int) <= u64::MAX,
    ensures
        final(alloc).wf(),
        final(globals).wf(),
        addrs@.len() == defs@.len(),
        forall|i: int, j: int| 0 <= i < j < addrs@.len() ==> addrs@[i] != addrs@[j],
        final(globals).view() == register_all(old(globals).view(), defs@, addrs@, defs@.len() as int),
        forall|i: int| 0 <= i < addrs@.len() ==> final(alloc).sizes().contains_key(#[trigger] addrs@[i])
            && final(alloc).sizes()[addrs@[i]] == def_bits(defs@[i]) && !old(alloc).sizes().contains_key(addrs@[i]),
        forall|a: u64| #[trigger] final(alloc).sizes().contains_key(a) ==> old(alloc).sizes().contains_key(a)
            || addrs@.contains(a),
        forall|a: u64| #[trigger] old(alloc).sizes().contains_key(a) ==> final(alloc).sizes().contains_key(a)
            && final(alloc).sizes()[a] == old(alloc).sizes()[a],
{
    let ghost v0 = globals.view();
    let ghost defs_s = defs@;
    let ghost sizes0 = alloc.sizes();
    let ghost zero_addrs = placeholder_addrs(defs@.len());
    let mut addrs: Vec<u64> = Vec::new();
    let mut k: usize = 0;
    let n = defs.len();
    let mut rest = defs;
    proof {
        assert(alloc.sizes() =~= sizes0);
    }
    while k < n
        invariant
            n == defs_s.len(),
            zero_addrs == placeholder_addrs(defs_s.len()),
            k <= n,
            rest@ == defs_s.subrange(k as int, n as int),
            alloc.wf(),
            globals.wf(),
            addrs@.len() == k,
            forall|i: int, j: int| 0 <= i < j < addrs@.len() ==> addrs@[i] != addrs@[j],
            allocatable(v0, defs_s, n as int),
            alloc.cursor() + room_for(defs_s, n as int) - room_for(defs_s, k as int) <= u64::MAX,
            globals.view() == register_all(v0, defs_s, addrs@, k as int),
            forall|i: int| 0 <= i < k ==> alloc.sizes().contains_key(#[trigger] addrs@[i])
                && alloc.sizes()[addrs@[i]] == def_bits(defs_s[i]) && !sizes0.contains_key(addrs@[i]),
            forall|a: u64| #[trigger] alloc.sizes().contains_key(a) ==> sizes0.contains_key(a) || addrs@.contains(a),
            forall|a: u64| #[trigger] sizes0.contains_key(a) ==> alloc.sizes().contains_key(a) && alloc.sizes()[a] == sizes0[a],
            forall|i: int| 0 <= i < k ==> #[trigger] addrs@[i] < alloc.cursor(),
            forall|a: u64| #[trigger] sizes0.contains_key(a) ==> a < alloc.cursor(),
        decreases n - k,
    {
        let d = rest.remove(0);
        let ghost dk = defs_s[k as int];
        assert(d == dk);
        proof {
            lemma_allocatable_prefix(v0, defs_s, k as int + 1, n as int);
            lemma_room_prefix(defs_s, k as int + 1, n as int);
            lemma_same_keys(v0, defs_s, addrs@, zero_addrs, k as int);
        }
        let bits: u64 = match d.kind {
            DefKind::Variable(s) => if s == 0 {
                8
            } else {
                s
            },
            DefKind::Function(_) => 64,
        };
        let ghost before = globals.view();
        let ghost sizes_before = alloc.sizes();
        let ghost cursor_before = alloc.cursor();
        let addr = alloc.alloc_bits(bits);
        proof {
            let zv = register_all(v0, defs_s, zero_addrs, k as int);
            assert(same_keys(before, zv));
            lemma_allocatable_step(v0, defs_s, k as int);
            assert(zv.may_allocate(dk.linkage, dk.module, dk.name));
            if before.public.contains_key(d.name) {
                assert(zv.public.dom().contains(d.name));
            }
            assert(before.private.contains_key((d.module, d.name)) ==> zv.private.dom().contains((d.module, d.name)));
            assert(before.may_allocate(d.linkage, d.module, d.name));
            assert forall|a: u64| #[trigger] sizes_before.contains_key(a) implies a < cursor_before by {
                if !sizes0.contains_key(a) {
                    let i = choose|i: int| 0 <= i < addrs@.len() && addrs@[i] == a;
                    assert(addrs@[i] < cursor_before);
                }
            }
        }
        match d.kind {
            DefKind::Variable(_) => {
                globals.allocate_global_var(d.linkage, d.module, d.name, addr);
            },
            DefKind::Function(c) => {
                globals.allocate_function(d.linkage, d.module, d.name, addr, addr, c);
            },
        }
        let ghost addrs_before = addrs@;
        addrs.push(addr);
        proof {
            assert(addrs@.subrange(0, k as int) =~= addrs_before);
            lemma_register_all_prefix(v0, defs_s, addrs_before, addrs@, k as int);
            assert(globals.view() =~= register_all(v0, defs_s, addrs@, k as int + 1));
            assert forall|a: u64| #[trigger] alloc.sizes().contains_key(a) implies sizes0.contains_key(a) || addrs@.contains(a) by {
                if a == addr {
                    assert(addrs@[k as int] == addr);
                } else if !sizes0.contains_key(a) {
                    let i = choose|i: int| 0 <= i < addrs_before.len() && addrs_before[i] == a;
                    assert(addrs@[i] == a);
                }
            }
        }
        k = k + 1;
    }
    addrs
}

/// In allocatable definitions, each may be allocated after those before it.
proof fn lemma_allocatable_step<C>(v: GlobalsView<u64, C>, defs: Seq<GlobalDef<C>>, k: int)
    requires
        0 <= k,
        allocatable(v, defs, k + 1),
    ensures
        register_all(v, defs, placeholder_addrs(defs.len()), k).may_allocate(defs[k].linkage, defs[k].module, defs[k].name),
{
    let j = k + 1;
    assert(j - 1 == k);
}

/// Allocatable definitions have allocatable prefixes.
proof fn lemma_allocatable_prefix<C>(v: GlobalsView<u64, C>, defs: Seq<GlobalDef<C>>, j: int, k: int)
    requires
        0 <= j <= k,
        allocatable(v, defs, k),
    ensures
        allocatable(v, defs, j),
    decreases k - j,
{
    if j < k {
        lemma_allocatable_prefix(v, defs, j, k - 1);
    }
}

/// The room for a prefix of the definitions is at most the room for all.
proof fn lemma_room_prefix<C>(defs: Seq<GlobalDef<C>>, j: int, k: int)
    requires
        0 <= j <= k,
    ensures
        room_for(defs, j) <= room_for(defs, k),
    decreases k - j,
{
    if j < k {
        lemma_room_prefix(defs, j, k - 1);
    }
}

/// Registering the first `k` definitions looks only at the first `k`
/// addresses.
proof fn lemma_register_all_prefix<C>(v: GlobalsView<u64, C>, defs: Seq<GlobalDef<C>>, a1: Seq<u64>, a2: Seq<u64>, k: int)
    requires
        0 <= k <= a1.len(),
        k <= a2.len(),
        forall|i: int| 0 <= i < k ==> a1[i] == a2[i],
    ensures
        register_all(v, defs, a1, k) == register_all(v, defs, a2, k),
    decreases k,
{
    if k > 0 {
        lemma_register_all_prefix(v, defs, a1, a2, k - 1);
    }
}

/// After registering the first `k` of `defs`, all with external linkage
/// and distinct names, starting from nothing: no module-private definition,
/// and each of those names publicly defined at its own address.
proof fn lemma_external_prefix<C>(defs: Seq<GlobalDef<C>>, addrs: Seq<u64>, k: int)
    requires
        0 <= k <= defs.len(),
        addrs.len() == defs.len(),
        forall|i: int| 0 <= i < defs.len() ==> (#[trigger] defs[i]).linkage is External,
        forall|i: int, j: int| 0 <= i < j < defs.len() ==> (#[trigger] defs[i]).name != (#[trigger] defs[j]).name,
    ensures
        register_all(no_globals(), defs, addrs, k).private == Map::<(u64, u64), u64>::empty(),
        forall|i: int| 0 <= i < k ==> register_all(no_globals(), defs, addrs, k).public.contains_key(#[trigger] defs[i].name)
            && register_all(no_globals(), defs, addrs, k).public[defs[i].name] == Definition::Strong(addrs[i]),
    decreases k,
{
    if k > 0 {
        lemma_external_prefix(defs, addrs, k - 1);
        let v = register_all(no_globals(), defs, addrs, k - 1);
        let d = defs[k - 1];
        assert(d.linkage is External);
        let w = register_all(no_globals(), defs, addrs, k);
        assert(w == register(v, d, addrs[k - 1]));
        assert(w.public == v.public.insert(d.name, Definition::Strong(addrs[k - 1])));
        assert(w.private == v.private);
        assert forall|i: int| 0 <= i < k implies w.public.contains_key(#[trigger] defs[i].name)
            && w.public[defs[i].name] == Definition::Strong(addrs[i]) by {
            if i < k - 1 {
                assert(defs[i].name != defs[k - 1].name);
            }
        }
    }
}

/// Definitions with external linkage and distinct names, allocated in turn
/// starting from nothing, are each found, from any module, at the address
/// it was allocated at.
pub proof fn lemma_external_definitions_found<C>(defs: Seq<GlobalDef<C>>, addrs: Seq<u64>, module: u64)
    requires
        addrs.len() == defs.len(),
        forall|i: int| 0 <= i < defs.len() ==> (#[trigger] defs[i]).linkage is External,
        forall|i: int, j: int| 0 <= i < j < defs.len() ==> (#[trigger] defs[i]).name != (#[trigger] defs[j]).name,
    ensures
        forall|i: int| 0 <= i < defs.len() ==> #[trigger] register_all(no_globals(), defs, addrs, defs.len() as int).lookup(
            module,
            defs[i].name,
        ) == Some(addrs[i]),
{
    lemma_external_prefix(defs, addrs, defs.len() as int);
    let v = register_all(no_globals(), defs, addrs, defs.len() as int);
    assert forall|i: int| 0 <= i < defs.len() implies #[trigger] v.lookup(module, defs[i].name) == Some(addrs[i]) by {
        assert(!v.private.contains_key((module, defs[i].name)));
    }
}

/// How much memory each definition gets: a global variable its size, but at
/// least a byte even when it has none; a function 64 bits, enough for its
/// address to be a distinct location.
pub proof fn lemma_definition_sizes<C>(linkage: Linkage, module: u64, name: u64, c: C, size: u64)
    ensures
        def_bits(GlobalDef { linkage, module, name, kind: DefKind::<C>::Function(c) }) == 64,
        def_bits(GlobalDef { linkage, module, name, kind: DefKind::<C>::Variable(0) }) == 8,
        size > 0 ==> def_bits(GlobalDef { linkage, module, name, kind: DefKind::<C>::Variable(size) }) == size,
{
}

} // verus!
