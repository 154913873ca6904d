//! Which global variable and function names, in which modules, resolve to
//! which allocations.
//!
//! Names of globals and of modules are interned as integer ids by the caller.
//! Both module-private and public definitions are tracked, the public ones of
//! the strong and weak varieties.

use std::collections::HashMap;
use vstd::prelude::*;

use crate::double_keyed_map::DoubleKeyedMap;

verus! {

broadcast use vstd::std_specs::hash::group_hash_axioms;

/// The linkage of an LLVM global object.
#[derive(PartialEq, Eq, Clone, Copy, Debug)]
pub enum Linkage {
    Private,
    Internal,
    External,
    ExternalWeak,
    AvailableExternally,
    LinkOnceAny,
    LinkOnceODR,
    LinkOnceODRAutoHide,
    WeakAny,
    WeakODR,
    Common,
    Appending,
    DLLImport,
    DLLExport,
    GhostLinkage,
    LinkerPrivate,
    LinkerPrivateWeak,
}

impl Linkage {
    /// Module-private linkage: the definition is a strong one visible in its
    /// module only.
    pub open spec fn is_module_private(self) -> bool {
        self is Private || self is Internal
    }

    /// Linkages that we treat as "public global, weak definition".
    pub open spec fn is_weak(self) -> bool {
        ||| self is AvailableExternally
        ||| self is LinkOnceAny
        ||| self is WeakAny
        ||| self is Common
        ||| self is ExternalWeak
        ||| self is LinkOnceODR
        ||| self is WeakODR
    }

    /// Linkages that allocation knows how to treat.
    pub open spec fn is_supported(self) -> bool {
        self.is_module_private() || self is External || self.is_weak() || self is Appending
    }
}

/// Strong and weak definitions.
///
/// Our definitions of "strong" and "weak" are slightly different than the LLVM
/// ones. In the case of multiple definitions of a single name in the same scope:
///   - Two strong definitions is an error
///   - One strong and one weak definition, the strong definition wins
///   - Two weak definitions, one will be chosen arbitrarily
#[derive(PartialEq, Eq, Clone, Copy, Debug)]
pub enum Definition<V> {
    Strong(V),
    Weak(V),
}

impl<V> Definition<V> {
    /// The definition's contents.
    pub open spec fn value(self) -> V {
        match self {
            Definition::Strong(v) => v,
            Definition::Weak(v) => v,
        }
    }

    /// The definition's contents.
    pub fn get(&self) -> (r: &V)
        ensures
            *r == self.value(),
    {
        match self {
            Definition::Strong(v) => v,
            Definition::Weak(v) => v,
        }
    }
}

/// What `allocate_global` did with a definition.
#[derive(PartialEq, Eq, Clone, Copy, Debug)]
pub enum AllocationResult {
    /// Allocated the global as public
    Public,
    /// Allocated the global as module-private
    ModulePrivate,
    /// Did not allocate the global (some other definition took precedence)
    NoAllocate,
}

/// The contents of a `GlobalAllocations`, as maps.
pub struct GlobalsView<A, C> {
    /// Public definitions, by name.
    pub public: Map<u64, Definition<A>>,
    /// Module-private definitions, by module and name.
    pub private: Map<(u64, u64), A>,
    /// Public functions, by address.
    pub functions: Map<u64, C>,
    /// Module-private functions, by module and address.
    pub private_functions: Map<(u64, u64), C>,
}

impl<A, C> GlobalsView<A, C> {
    /// Whether a definition of `name` with `linkage` in `module` may be
    /// allocated: two module-private definitions of one name in one module,
    /// or two strong public definitions of one name, are an error.
    pub open spec fn may_allocate(self, linkage: Linkage, module: u64, name: u64) -> bool {
        &&& linkage.is_supported()
        &&& linkage.is_module_private() ==> !self.private.contains_key((module, name))
        &&& linkage is External ==> !(self.public.contains_key(name) && self.public[name] is Strong)
    }

    /// What allocating the definition does.
    pub open spec fn allocation_result(self, linkage: Linkage, module: u64, name: u64) -> AllocationResult {
        if linkage.is_module_private() {
            AllocationResult::ModulePrivate
        } else if linkage is External {
            AllocationResult::Public
        } else if linkage.is_weak() && !self.public.contains_key(name) {
            AllocationResult::Public
        } else {
            AllocationResult::NoAllocate
        }
    }

    /// The contents after allocating `allocation` as the definition of `name`
    /// with `linkage` in `module`.
    pub open spec fn allocate(self, linkage: Linkage, module: u64, name: u64, allocation: A) -> Self {
        if linkage.is_module_private() {
            GlobalsView { private: self.private.insert((module, name), allocation), ..self }
        } else if linkage is External {
            GlobalsView { public: self.public.insert(name, Definition::Strong(allocation)), ..self }
        } else if linkage.is_weak() && !self.public.contains_key(name) {
            GlobalsView { public: self.public.insert(name, Definition::Weak(allocation)), ..self }
        } else {
            self
        }
    }

    /// The allocation that `name` resolves to in `module`: a module-private
    /// definition takes precedence over a public one.
    pub open spec fn lookup(self, module: u64, name: u64) -> Option<A> {
        if self.private.contains_key((module, name)) {
            Some(self.private[(module, name)])
        } else if self.public.contains_key(name) {
            Some(self.public[name].value())
        } else {
            None
        }
    }

    /// The function allocated at `addr`, as seen from `module`: a public one
    /// takes precedence over a module-private one.
    pub open spec fn function_at(self, module: u64, addr: u64) -> Option<C> {
        if self.functions.contains_key(addr) {
            Some(self.functions[addr])
        } else if self.private_functions.contains_key((module, addr)) {
            Some(self.private_functions[(module, addr)])
        } else {
            None
        }
    }
}

/// Keeps track of which global names in which modules resolve to which
/// allocations (of type `A`), and which function (of type `C`) is allocated
/// at which address.
pub struct GlobalAllocations<A, C> {
    /// Map from names of public globals and functions to either "strong" or
    /// "weak" allocations.
    allocated_globals: HashMap<u64, Definition<A>>,
    /// Map from an address to the public function allocated there (if any).
    addr_to_function: HashMap<u64, C>,
    /// Module-private allocations, by module and name.
    module_private_allocated_globals: DoubleKeyedMap<u64, u64, A>,
    /// Module-private functions, by module and address.
    module_private_addr_to_function: DoubleKeyedMap<u64, u64, C>,
}

impl<A, C> GlobalAllocations<A, C> {
    /// The contents, as maps.
    pub closed spec fn view(&self) -> GlobalsView<A, C> {
        GlobalsView {
            public: self.allocated_globals@,
            private: self.module_private_allocated_globals@,
            functions: self.addr_to_function@,
            private_functions: self.module_private_addr_to_function@,
        }
    }

    /// The invariant of the private maps.
    pub closed spec fn wf(&self) -> bool {
        &&& self.module_private_allocated_globals.wf()
        &&& self.module_private_addr_to_function.wf()
    }

    /// Nothing allocated.
    pub fn new() -> (r: Self)
        ensures
            r.wf(),
            r.view().public == Map::<u64, Definition<A>>::empty(),
            r.view().private == Map::<(u64, u64), A>::empty(),
            r.view().functions == Map::<u64, C>::empty(),
            r.view().private_functions == Map::<(u64, u64), C>::empty(),
    {
        GlobalAllocations {
            allocated_globals: HashMap::new(),
            addr_to_function: HashMap::new(),
            module_private_allocated_globals: DoubleKeyedMap::new(),
            module_private_addr_to_function: DoubleKeyedMap::new(),
        }
    }

    /// Record `allocation` as the definition of global `name` with `linkage`
    /// in `module`, as the linkage rules decide.
    pub fn allocate_global(&mut self, linkage: Linkage, module: u64, name: u64, allocation: A) -> (r: AllocationResult)
        requires
            old(self).wf(),
            old(self).view().may_allocate(linkage, module, name),
        ensures
            final(self).wf(),
            r == old(self).view().allocation_result(linkage, module, name),
            final(self).view() == old(self).view().allocate(linkage, module, name, allocation),
    {
        match linkage {
            Linkage::Private | Linkage::Internal => {
                // Module-private global, strong definition
                self.module_private_allocated_globals.insert(module, name, allocation);
                AllocationResult::ModulePrivate
            },
            Linkage::External => {
                // Public global, strong definition; discards any weak one
                self.allocated_globals.insert(name, Definition::Strong(allocation));
                AllocationResult::Public
            },
            Linkage::AvailableExternally
            | Linkage::LinkOnceAny
            | Linkage::WeakAny
            | Linkage::Common
            | Linkage::ExternalWeak
            | Linkage::LinkOnceODR
            | Linkage::WeakODR => {
                // We treat all of these modes as "Public global, weak definition" under our semantics
                if self.allocated_globals.contains_key(&name) {
                    // don't override an existing definition. If the existing definition
                    // was weak, we arbitrarily choose to leave it rather than replace it
                    // with this weak definition.
                    AllocationResult::NoAllocate
                } else {
                    self.allocated_globals.insert(name, Definition::Weak(allocation));
                    AllocationResult::Public
                }
            },
            _ => {
                // 'appending' linkage is not supported: any attempted use of
                // this global will result in an error.
                AllocationResult::NoAllocate
            },
        }
    }

    /// Allocate a global variable definition.
    pub fn allocate_global_var(&mut self, linkage: Linkage, module: u64, name: u64, allocation: A)
        requires
            old(self).wf(),
            old(self).view().may_allocate(linkage, module, name),
        ensures
            final(self).wf(),
            final(self).view() == old(self).view().allocate(linkage, module, name, allocation),
    {
        self.allocate_global(linkage, module, name, allocation);
    }

    /// Allocate a function definition at `addr`, recording `callable` as the
    /// function found at that address if the definition is allocated.
    pub fn allocate_function(&mut self, linkage: Linkage, module: u64, name: u64, addr: u64, allocation: A, callable: C)
        requires
            old(self).wf(),
            old(self).view().may_allocate(linkage, module, name),
        ensures
            final(self).wf(),
            final(self).view().public == old(self).view().allocate(linkage, module, name, allocation).public,
            final(self).view().private == old(self).view().allocate(linkage, module, name, allocation).private,
            final(self).view().functions == (match old(self).view().allocation_result(linkage, module, name) {
                AllocationResult::Public => old(self).view().functions.insert(addr, callable),
                _ => old(self).view().functions,
            }),
            final(self).view().private_functions == (match old(self).view().allocation_result(linkage, module, name) {
                AllocationResult::ModulePrivate => old(self).view().private_functions.insert((module, addr), callable),
                _ => old(self).view().private_functions,
            }),
    {
        match self.allocate_global(linkage, module, name, allocation) {
            AllocationResult::Public => {
                self.addr_to_function.insert(addr, callable);
            },
            AllocationResult::ModulePrivate => {
                self.module_private_addr_to_function.insert(module, addr, callable);
            },
            AllocationResult::NoAllocate => {},
        }
    }

    /// Get the allocation for the global variable or function `name`, as
    /// seen from `module`; or `None` if not found. A module-private
    /// definition takes precedence over any public one.
    pub fn get_global_allocation(&self, name: u64, module: u64) -> (r: Option<&A>)
        requires
            self.wf(),
        ensures
            r == match self.view().lookup(module, name) {
                Some(a) => Some(&a),
                None => None,
            },
    {
        match self.module_private_allocated_globals.get(&module, &name) {
            Some(a) => Some(a),
            None => match self.allocated_globals.get(&name) {
                Some(d) => Some(d.get()),
                None => None,
            },
        }
    }

    /// The function allocated at `addr`, as seen from `module`; or `None`
    /// if no function was allocated at that address.
    pub fn get_func_for_address(&self, addr: u64, module: u64) -> (r: Option<&C>)
        requires
            self.wf(),
        ensures
            r == match self.view().function_at(module, addr) {
                Some(c) => Some(&c),
                None => None,
            },
    {
        match self.addr_to_function.get(&addr) {
            Some(c) => Some(c),
            None => self.module_private_addr_to_function.get(&module, &addr),
        }
    }
}

/// A module-private definition is what its name resolves to in its module,
/// whatever public definitions of the name exist.
pub proof fn lemma_private_definition_takes_precedence<A, C>(
    g: GlobalsView<A, C>,
    linkage: Linkage,
    module: u64,
    name: u64,
    allocation: A,
)
    requires
        linkage.is_module_private(),
    ensures
        g.allocate(linkage, module, name, allocation).lookup(module, name) == Some(allocation),
{
}

/// A strong definition prevails over a weak one, whichever is allocated
/// first: from a module without a private definition of the name, the name
/// resolves to the strong definition.
pub proof fn lemma_strong_definition_wins<A, C>(
    g: GlobalsView<A, C>,
    weak: Linkage,
    strong_module: u64,
    weak_module: u64,
    module: u64,
    name: u64,
    strong_alloc: A,
    weak_alloc: A,
)
    requires
        weak.is_weak(),
        !g.public.contains_key(name),
        !g.private.contains_key((module, name)),
    ensures
        g.allocate(Linkage::External, strong_module, name, strong_alloc).allocate(
            weak,
            weak_module,
            name,
            weak_alloc,
        ).lookup(module, name) == Some(strong_alloc),
        g.allocate(weak, weak_module, name, weak_alloc).allocate(
            Linkage::External,
            strong_module,
            name,
            strong_alloc,
        ).lookup(module, name) == Some(strong_alloc),
        g.allocate(weak, weak_module, name, weak_alloc).may_allocate(Linkage::External, strong_module, name),
{
}

/// Of two weak definitions, the first one allocated is kept.
pub proof fn lemma_first_weak_definition_kept<A, C>(
    g: GlobalsView<A, C>,
    weak1: Linkage,
    weak2: Linkage,
    module1: u64,
    module2: u64,
    module: u64,
    name: u64,
    alloc1: A,
    alloc2: A,
)
    requires
        weak1.is_weak(),
        weak2.is_weak(),
        !g.public.contains_key(name),
        !g.private.contains_key((module, name)),
    ensures
        g.allocate(weak1, module1, name, alloc1).allocate(weak2, module2, name, alloc2).lookup(
            module,
            name,
        ) == Some(alloc1),
        g.allocate(weak1, module1, name, alloc1).allocation_result(weak2, module2, name)
            == AllocationResult::NoAllocate,
{
}

/// Definitions of the weak kinds (available-externally, link-once, weak,
/// common, extern-weak, in their variants) are public: with no definition of
/// the name yet, such a definition may be made, is allocated publicly, and is
/// what the name resolves to from every module with no module-private
/// definition of its own; a second definition of a weak kind keeps the first.
pub proof fn lemma_weak_linkages_are_public<A, C>(
    v: GlobalsView<A, C>,
    linkage: Linkage,
    other: Linkage,
    module: u64,
    module2: u64,
    name: u64,
    a: A,
    b: A,
)
    requires
        linkage is AvailableExternally || linkage is LinkOnceAny || linkage is LinkOnceODR
            || linkage is WeakAny || linkage is WeakODR || linkage is Common || linkage is ExternalWeak,
        other is AvailableExternally || other is LinkOnceAny || other is LinkOnceODR
            || other is WeakAny || other is WeakODR || other is Common || other is ExternalWeak,
        !v.public.contains_key(name),
        !v.private.contains_key((module2, name)),
    ensures
        v.may_allocate(linkage, module, name),
        v.allocation_result(linkage, module, name) == AllocationResult::Public,
        v.allocate(linkage, module, name, a).lookup(module2, name) == Some(a),
        v.allocate(linkage, module, name, a).allocation_result(other, module2, name) == AllocationResult::NoAllocate,
        v.allocate(linkage, module, name, a).allocate(other, module2, name, b).lookup(module2, name) == Some(a),
{
}

/// An external definition is public and strong: with no strong definition of
/// the name yet it may be made, and it is what the name resolves to from
/// every module with no module-private definition of its own.
pub proof fn lemma_external_is_public<A, C>(v: GlobalsView<A, C>, module: u64, module2: u64, name: u64, a: A)
    requires
        !(v.public.contains_key(name) && v.public[name] is Strong),
        !v.private.contains_key((module2, name)),
    ensures
        v.may_allocate(Linkage::External, module, name),
        v.allocation_result(Linkage::External, module, name) == AllocationResult::Public,
        v.allocate(Linkage::External, module, name, a).lookup(module2, name) == Some(a),
        !v.allocate(Linkage::External, module, name, a).may_allocate(Linkage::External, module2, name),
{
}

/// A private or internal definition is seen in its own module only: another
/// module with no definition of the name finds nothing.
pub proof fn lemma_private_stays_in_module<A, C>(v: GlobalsView<A, C>, linkage: Linkage, module: u64, module2: u64, name: u64, a: A)
    requires
        linkage is Private || linkage is Internal,
        module2 != module,
        !v.public.contains_key(name),
        !v.private.contains_key((module2, name)),
    ensures
        v.allocation_result(linkage, module, name) == AllocationResult::ModulePrivate,
        v.allocate(linkage, module, name, a).lookup(module, name) == Some(a),
        v.allocate(linkage, module, name, a).lookup(module2, name) is None,
{
}

/// A definition with appending linkage is accepted but not allocated: it
/// changes nothing, so the name still resolves as before.
pub proof fn lemma_appending_not_allocated<A, C>(v: GlobalsView<A, C>, module: u64, module2: u64, name: u64, a: A)
    ensures
        v.may_allocate(Linkage::Appending, module, name),
        v.allocation_result(Linkage::Appending, module, name) == AllocationResult::NoAllocate,
        v.allocate(Linkage::Appending, module, name, a).lookup(module2, name) == v.lookup(module2, name),
{
}

} // verus!
