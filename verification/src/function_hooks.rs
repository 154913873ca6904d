//! The registry of function hooks: which hook stands for a call to a
//! function of a given name (as it appears in the LLVM, or demangled as C++
//! or as Rust), for inline assembly, and for calls that nothing else hooks.
//!
//! A hook is named by a `Hook`: one of the built-in hooks of the library, or
//! a hook of the user's, by number; whoever runs the calls maps each to the
//! code it stands for.

use vstd::prelude::*;

use crate::bv_term::BvTerm;
use crate::demangling::{cpp_demangled, rust_demangled_alternate, rust_mangling_recognized, try_cpp_demangle, try_rust_demangle};
use crate::error::{Error, Result};
use crate::layout::{LlvmType, NESTING_BOUND};
use crate::project::Project;
use crate::return_value::ReturnValue;

verus! {

/// The hooks a registry can name.
#[derive(PartialEq, Eq, Structural, Clone, Copy, Debug)]
pub enum Hook {
    Malloc,
    Calloc,
    Realloc,
    Free,
    CxaAllocateException,
    CxaThrow,
    CxaBeginCatch,
    CxaEndCatch,
    LlvmEhTypeidFor,
    /// `abort_hook`
    Abort,
    /// `generic_stub_hook`
    GenericStub,
    /// A hook of the user's, by number.
    User(u64),
}

/// A hook as registered, with the id it was registered under; two
/// registered hooks are equal when their ids are.
#[derive(Clone, Copy, Debug)]
pub struct FunctionHook {
    pub hook: Hook,
    pub id: usize,
}

/// A map from names to registered hooks, in which no name occurs twice.
#[derive(Clone)]
struct NameMap {
    entries: Vec<(String, FunctionHook)>,
}

impl NameMap {
    /// No name occurs twice.
    spec fn wf(&self) -> bool {
        forall|i: int, j: int| 0 <= i < j < self.entries@.len() ==> #[trigger] self.entries@[i].0@ != #[trigger] self.entries@[j].0@
    }

    /// The map from names to hooks.
    spec fn map(&self) -> Map<Seq<char>, FunctionHook> {
        Map::new(
            |k: Seq<char>| exists|i: int| 0 <= i < self.entries@.len() && #[trigger] self.entries@[i].0@ == k,
            |k: Seq<char>| self.entries@[choose|i: int| 0 <= i < self.entries@.len() && #[trigger] self.entries@[i].0@ == k].1,
        )
    }

    fn new() -> (r: Self)
        ensures
            r.wf(),
            r.map() == Map::<Seq<char>, FunctionHook>::empty(),
    {
        let r = NameMap { entries: Vec::new() };
        assert(r.map() =~= Map::<Seq<char>, FunctionHook>::empty());
        r
    }

    /// Where `name` is held, if anywhere.
    fn find(&self, name: &String) -> (r: Option<usize>)
        requires
            self.wf(),
        ensures
            match r {
                Some(i) => i < self.entries@.len() && self.entries@[i as int].0@ == name@,
                None => !self.map().contains_key(name@),
            },
    {
        let mut i: usize = 0;
        while i < self.entries.len()
            invariant
                i <= self.entries@.len(),
                forall|j: int| 0 <= j < i ==> self.entries@[j].0@ != name@,
            decreases self.entries@.len() - i,
        {
            if self.entries[i].0 == *name {
                return Some(i);
            }
            i = i + 1;
        }
        None
    }

    /// The hook held for `name`.
    fn get(&self, name: &String) -> (r: Option<FunctionHook>)
        requires
            self.wf(),
        ensures
            r == (if self.map().contains_key(name@) {
                Some(self.map()[name@])
            } else {
                None
            }),
    {
        match self.find(name) {
            Some(i) => {
                proof {
                    let k = choose|j: int| 0 <= j < self.entries@.len() && #[trigger] self.entries@[j].0@ == name@;
                    if k != i {
                        if k < i {
                            assert(self.entries@[k].0@ != self.entries@[i as int].0@);
                        } else {
                            assert(self.entries@[i as int].0@ != self.entries@[k].0@);
                        }
                    }
                }
                Some(self.entries[i].1)
            },
            None => None,
        }
    }

    /// Hold `h` for `name`, in place of what was held for it.
    fn insert(&mut self, name: String, h: FunctionHook)
        requires
            old(self).wf(),
        ensures
            final(self).wf(),
            final(self).map() == old(self).map().insert(name@, h),
    {
        let ghost old_map = self.map();
        let ghost key = name@;
        match self.find(&name) {
            Some(i) => {
                self.entries.set(i, (name, h));
                proof {
                    assert forall|a: int, b: int| 0 <= a < b < self.entries@.len() implies #[trigger] self.entries@[a].0@
                        != #[trigger] self.entries@[b].0@ by {
                        assert(old(self).entries@[a].0@ != old(self).entries@[b].0@);
                    }
                    self.lemma_map_after_set(*old(self), i as int, key, h);
                }
            },
            None => {
                self.entries.push((name, h));
                proof {
                    let n = old(self).entries@.len() as int;
                    assert forall|a: int, b: int| 0 <= a < b < self.entries@.len() implies #[trigger] self.entries@[a].0@
                        != #[trigger] self.entries@[b].0@ by {
                        if b == n {
                            assert(old(self).entries@[a].0@ != key);
                        } else {
                            assert(old(self).entries@[a].0@ != old(self).entries@[b].0@);
                        }
                    }
                    assert(self.map() =~= old_map.insert(key, h)) by {
                        assert forall|k: Seq<char>| #[trigger] self.map().contains_key(k) == old_map.insert(key, h).contains_key(k) by {
                            if k == key {
                                assert(self.entries@[n].0@ == k);
                            } else if old_map.contains_key(k) {
                                let j = choose|j: int| 0 <= j < old(self).entries@.len() && #[trigger] old(self).entries@[j].0@ == k;
                                assert(self.entries@[j].0@ == k);
                            } else if self.map().contains_key(k) {
                                let j = choose|j: int| 0 <= j < self.entries@.len() && #[trigger] self.entries@[j].0@ == k;
                                assert(old(self).entries@[j].0@ == k);
                            }
                        }
                        assert forall|k: Seq<char>| #[trigger] self.map().contains_key(k) implies self.map()[k] == old_map.insert(key, h)[k] by {
                            let j = choose|j: int| 0 <= j < self.entries@.len() && #[trigger] self.entries@[j].0@ == k;
                            if k == key {
                                if j != n {
                                    assert(self.entries@[j].0@ != self.entries@[n].0@);
                                }
                            } else {
                                assert(old(self).entries@[j].0@ == k);
                                let j2 = choose|j2: int| 0 <= j2 < old(self).entries@.len() && #[trigger] old(self).entries@[j2].0@ == k;
                                if j2 != j {
                                    if j2 < j {
                                        assert(old(self).entries@[j2].0@ != old(self).entries@[j].0@);
                                    } else {
                                        assert(old(self).entries@[j].0@ != old(self).entries@[j2].0@);
                                    }
                                }
                            }
                        }
                    }
                }
            },
        }
    }

    /// After entry `i` of `old` is replaced by one for its own name, the map
    /// holds the new hook for that name.
    proof fn lemma_map_after_set(&self, old: Self, i: int, key: Seq<char>, h: FunctionHook)
        requires
            old.wf(),
            self.wf(),
            0 <= i < old.entries@.len(),
            old.entries@[i].0@ == key,
            self.entries@ == old.entries@.update(i, (self.entries@[i].0, h)),
            self.entries@[i].0@ == key,
        ensures
            self.map() == old.map().insert(key, h),
    {
        assert forall|k: Seq<char>| #[trigger] self.map().contains_key(k) == old.map().insert(key, h).contains_key(k) by {
            if self.map().contains_key(k) {
                let j = choose|j: int| 0 <= j < self.entries@.len() && #[trigger] self.entries@[j].0@ == k;
                if j != i {
                    assert(old.entries@[j].0@ == k);
                }
            }
            if old.map().contains_key(k) {
                let j = choose|j: int| 0 <= j < old.entries@.len() && #[trigger] old.entries@[j].0@ == k;
                if j != i {
                    assert(self.entries@[j].0@ == k);
                } else {
                    assert(self.entries@[i].0@ == k);
                }
            }
            if k == key {
                assert(self.entries@[i].0@ == k);
            }
        }
        assert forall|k: Seq<char>| #[trigger] self.map().contains_key(k) implies self.map()[k] == old.map().insert(key, h)[k] by {
            let j = choose|j: int| 0 <= j < self.entries@.len() && #[trigger] self.entries@[j].0@ == k;
            if k == key {
                if j != i {
                    if j < i {
                        assert(self.entries@[j].0@ != self.entries@[i].0@);
                    } else {
                        assert(self.entries@[i].0@ != self.entries@[j].0@);
                    }
                }
            } else {
                assert(j != i);
                assert(old.entries@[j].0@ == k);
                let j2 = choose|j2: int| 0 <= j2 < old.entries@.len() && #[trigger] old.entries@[j2].0@ == k;
                if j2 != j {
                    if j2 < j {
                        assert(old.entries@[j2].0@ != old.entries@[j].0@);
                    } else {
                        assert(old.entries@[j].0@ != old.entries@[j2].0@);
                    }
                }
            }
        }
        assert(self.map() =~= old.map().insert(key, h));
    }

    /// Hold nothing for `name`.
    fn remove(&mut self, name: &String)
        requires
            old(self).wf(),
        ensures
            final(self).wf(),
            final(self).map() == old(self).map().remove(name@),
    {
        let ghost old_map = self.map();
        match self.find(name) {
            Some(i) => {
                let ghost old_entries = self.entries@;
                self.entries.remove(i);
                proof {
                    let key = name@;
                    assert forall|a: int, b: int| 0 <= a < b < self.entries@.len() implies #[trigger] self.entries@[a].0@
                        != #[trigger] self.entries@[b].0@ by {
                        let a2 = if a < i { a } else { a + 1 };
                        let b2 = if b < i { b } else { b + 1 };
                        assert(self.entries@[a] == old_entries[a2]);
                        assert(self.entries@[b] == old_entries[b2]);
                        assert(old_entries[a2].0@ != old_entries[b2].0@);
                    }
                    assert forall|j: int| 0 <= j < self.entries@.len() implies #[trigger] self.entries@[j].0@ != key by {
                        let j2 = if j < i { j } else { j + 1 };
                        assert(self.entries@[j] == old_entries[j2]);
                        if j2 < i {
                            assert(old_entries[j2].0@ != old_entries[i as int].0@);
                        } else {
                            assert(old_entries[i as int].0@ != old_entries[j2].0@);
                        }
                    }
                    assert forall|k: Seq<char>| #[trigger] self.map().contains_key(k) == old_map.remove(key).contains_key(k) by {
                        if self.map().contains_key(k) {
                            let j = choose|j: int| 0 <= j < self.entries@.len() && #[trigger] self.entries@[j].0@ == k;
                            let j2 = if j < i { j } else { j + 1 };
                            assert(self.entries@[j] == old_entries[j2]);
                            assert(old_entries[j2].0@ == k);
                        }
                        if old_map.contains_key(k) && k != key {
                            let j = choose|j: int| 0 <= j < old_entries.len() && #[trigger] old_entries[j].0@ == k;
                            assert(j != i);
                            let j2 = if j < i { j } else { j - 1 };
                            assert(self.entries@[j2] == old_entries[j]);
                        }
                    }
                    assert forall|k: Seq<char>| #[trigger] self.map().contains_key(k) implies self.map()[k] == old_map.remove(key)[k] by {
                        let j = choose|j: int| 0 <= j < self.entries@.len() && #[trigger] self.entries@[j].0@ == k;
                        let j2 = if j < i { j } else { j + 1 };
                        assert(self.entries@[j] == old_entries[j2]);
                        let j3 = choose|j3: int| 0 <= j3 < old_entries.len() && #[trigger] old_entries[j3].0@ == k;
                        if j3 != j2 {
                            if j3 < j2 {
                                assert(old_entries[j3].0@ != old_entries[j2].0@);
                            } else {
                                assert(old_entries[j2].0@ != old_entries[j3].0@);
                            }
                        }
                    }
                    assert(self.map() =~= old_map.remove(key));
                }
            },
            None => {
                assert(self.map() =~= old_map.remove(name@));
            },
        }
    }
}


/// The registry of function hooks.
#[derive(Clone)]
pub struct FunctionHooks {
    /// Hooks for functions by the name that appears in the LLVM
    hooks: NameMap,
    /// Hooks for functions by their C++ demangled name
    cpp_demangled_hooks: NameMap,
    /// Hooks for functions by their Rust demangled name
    rust_demangled_hooks: NameMap,
    /// The hook for calls to inline assembly, if any
    inline_asm_hook: Option<FunctionHook>,
    /// The hook for calls that no other hook applies to, if any
    default_hook: Option<FunctionHook>,
    /// The id the next hook gets
    cur_id: usize,
}

impl FunctionHooks {
    /// Hooks by the name that appears in the LLVM.
    pub closed spec fn by_name(&self) -> Map<Seq<char>, FunctionHook> {
        self.hooks.map()
    }

    /// Hooks by C++ demangled name.
    pub closed spec fn by_cpp_name(&self) -> Map<Seq<char>, FunctionHook> {
        self.cpp_demangled_hooks.map()
    }

    /// Hooks by Rust demangled name.
    pub closed spec fn by_rust_name(&self) -> Map<Seq<char>, FunctionHook> {
        self.rust_demangled_hooks.map()
    }

    /// The hook for inline assembly.
    pub closed spec fn inline_asm(&self) -> Option<FunctionHook> {
        self.inline_asm_hook
    }

    /// The hook for calls no other hook applies to.
    pub closed spec fn default_one(&self) -> Option<FunctionHook> {
        self.default_hook
    }

    /// The id the next hook gets.
    pub closed spec fn next_id(&self) -> usize {
        self.cur_id
    }

    /// The registry's invariant.
    pub closed spec fn wf(&self) -> bool {
        self.hooks.wf() && self.cpp_demangled_hooks.wf() && self.rust_demangled_hooks.wf()
    }

    /// `new` is `old` with only the hooks by name replaced by `m`, and the
    /// next id advanced.
    pub open spec fn registered(new: Self, old: Self) -> bool {
        &&& new.wf()
        &&& new.inline_asm() == old.inline_asm()
        &&& new.default_one() == old.default_one()
        &&& new.next_id() == old.next_id() + 1
    }

    /// A registry with no hooks.
    pub fn new() -> (r: Self)
        ensures
            r.wf(),
            r.by_name() == Map::<Seq<char>, FunctionHook>::empty(),
            r.by_cpp_name() == Map::<Seq<char>, FunctionHook>::empty(),
            r.by_rust_name() == Map::<Seq<char>, FunctionHook>::empty(),
            r.inline_asm() is None,
            r.default_one() is None,
            r.next_id() == 0,
    {
        FunctionHooks {
            hooks: NameMap::new(),
            cpp_demangled_hooks: NameMap::new(),
            rust_demangled_hooks: NameMap::new(),
            inline_asm_hook: None,
            default_hook: None,
            cur_id: 0,
        }
    }

    /// The next hook, numbered with the next id.
    fn next_hook(&mut self, hook: Hook) -> (r: FunctionHook)
        requires
            old(self).next_id() < usize::MAX,
        ensures
            r == (FunctionHook { hook, id: old(self).next_id() }),
            *final(self) == (FunctionHooks { cur_id: (old(self).next_id() + 1) as usize, ..*old(self) }),
    {
        let r = FunctionHook { hook, id: self.cur_id };
        self.cur_id = self.cur_id + 1;
        r
    }

    /// Add a hook for the function named `hooked_function` (as it appears in
    /// the LLVM), replacing any earlier hook for it.
    pub fn add(&mut self, hooked_function: &str, hook: Hook)
        requires
            old(self).wf(),
            old(self).next_id() < usize::MAX,
        ensures
            Self::registered(*final(self), *old(self)),
            final(self).by_name() == old(self).by_name().insert(hooked_function@, FunctionHook { hook, id: old(self).next_id() }),
            final(self).by_cpp_name() == old(self).by_cpp_name(),
            final(self).by_rust_name() == old(self).by_rust_name(),
    {
        let h = self.next_hook(hook);
        self.hooks.insert(hooked_function.to_owned(), h);
    }

    /// Add a hook for the function whose C++ demangled name is
    /// `hooked_function`, replacing any earlier such hook.
    pub fn add_cpp_demangled(&mut self, hooked_function: &str, hook: Hook)
        requires
            old(self).wf(),
            old(self).next_id() < usize::MAX,
        ensures
            Self::registered(*final(self), *old(self)),
            final(self).by_cpp_name() == old(self).by_cpp_name().insert(hooked_function@, FunctionHook { hook, id: old(self).next_id() }),
            final(self).by_name() == old(self).by_name(),
            final(self).by_rust_name() == old(self).by_rust_name(),
    {
        let h = self.next_hook(hook);
        self.cpp_demangled_hooks.insert(hooked_function.to_owned(), h);
    }

    /// Add a hook for the function whose Rust demangled name is
    /// `hooked_function`, replacing any earlier such hook.
    pub fn add_rust_demangled(&mut self, hooked_function: &str, hook: Hook)
        requires
            old(self).wf(),
            old(self).next_id() < usize::MAX,
        ensures
            Self::registered(*final(self), *old(self)),
            final(self).by_rust_name() == old(self).by_rust_name().insert(hooked_function@, FunctionHook { hook, id: old(self).next_id() }),
            final(self).by_name() == old(self).by_name(),
            final(self).by_cpp_name() == old(self).by_cpp_name(),
    {
        let h = self.next_hook(hook);
        self.rust_demangled_hooks.insert(hooked_function.to_owned(), h);
    }

    /// Add the hook for calls to inline assembly, replacing any earlier one;
    /// returns whether there was one.
    pub fn add_inline_asm_hook(&mut self, hook: Hook) -> (r: bool)
        requires
            old(self).wf(),
            old(self).next_id() < usize::MAX,
        ensures
            r == old(self).inline_asm() is Some,
            final(self).wf(),
            final(self).inline_asm() == Some(FunctionHook { hook, id: old(self).next_id() }),
            final(self).default_one() == old(self).default_one(),
            final(self).next_id() == old(self).next_id() + 1,
            final(self).by_name() == old(self).by_name(),
            final(self).by_cpp_name() == old(self).by_cpp_name(),
            final(self).by_rust_name() == old(self).by_rust_name(),
    {
        let had = self.inline_asm_hook.is_some();
        let h = self.next_hook(hook);
        self.inline_asm_hook = Some(h);
        had
    }

    /// Add the hook for calls that no other hook applies to, replacing any
    /// earlier one; returns whether there was one.
    pub fn add_default_hook(&mut self, hook: Hook) -> (r: bool)
        requires
            old(self).wf(),
            old(self).next_id() < usize::MAX,
        ensures
            r == old(self).default_one() is Some,
            final(self).wf(),
            final(self).default_one() == Some(FunctionHook { hook, id: old(self).next_id() }),
            final(self).inline_asm() == old(self).inline_asm(),
            final(self).next_id() == old(self).next_id() + 1,
            final(self).by_name() == old(self).by_name(),
            final(self).by_cpp_name() == old(self).by_cpp_name(),
            final(self).by_rust_name() == old(self).by_rust_name(),
    {
        let had = self.default_hook.is_some();
        let h = self.next_hook(hook);
        self.default_hook = Some(h);
        had
    }

    /// Remove the hook for the function named `hooked_function`, if any.
    pub fn remove(&mut self, hooked_function: &str)
        requires
            old(self).wf(),
        ensures
            final(self).wf(),
            final(self).by_name() == old(self).by_name().remove(hooked_function@),
            final(self).by_cpp_name() == old(self).by_cpp_name(),
            final(self).by_rust_name() == old(self).by_rust_name(),
            final(self).inline_asm() == old(self).inline_asm(),
            final(self).default_one() == old(self).default_one(),
            final(self).next_id() == old(self).next_id(),
    {
        self.hooks.remove(&hooked_function.to_owned());
    }

    /// Remove the hook for the C++ demangled name `hooked_function`, if any.
    pub fn remove_cpp_demangled(&mut self, hooked_function: &str)
        requires
            old(self).wf(),
        ensures
            final(self).wf(),
            final(self).by_cpp_name() == old(self).by_cpp_name().remove(hooked_function@),
            final(self).by_name() == old(self).by_name(),
            final(self).by_rust_name() == old(self).by_rust_name(),
            final(self).inline_asm() == old(self).inline_asm(),
            final(self).default_one() == old(self).default_one(),
            final(self).next_id() == old(self).next_id(),
    {
        self.cpp_demangled_hooks.remove(&hooked_function.to_owned());
    }

    /// Remove the hook for the Rust demangled name `hooked_function`, if any.
    pub fn remove_rust_demangled(&mut self, hooked_function: &str)
        requires
            old(self).wf(),
        ensures
            final(self).wf(),
            final(self).by_rust_name() == old(self).by_rust_name().remove(hooked_function@),
            final(self).by_name() == old(self).by_name(),
            final(self).by_cpp_name() == old(self).by_cpp_name(),
            final(self).inline_asm() == old(self).inline_asm(),
            final(self).default_one() == old(self).default_one(),
            final(self).next_id() == old(self).next_id(),
    {
        self.rust_demangled_hooks.remove(&hooked_function.to_owned());
    }

    /// Remove the hook for inline assembly, if any.
    pub fn remove_inline_asm_hook(&mut self)
        ensures
            final(self).wf() == old(self).wf(),
            final(self).by_name() == old(self).by_name(),
            final(self).by_cpp_name() == old(self).by_cpp_name(),
            final(self).by_rust_name() == old(self).by_rust_name(),
            final(self).next_id() == old(self).next_id(),
            final(self).default_one() == old(self).default_one(),
            final(self).inline_asm() is None,
    {
        self.inline_asm_hook = None;
    }

    /// Remove the default hook, if any.
    pub fn remove_default_hook(&mut self)
        ensures
            final(self).wf() == old(self).wf(),
            final(self).by_name() == old(self).by_name(),
            final(self).by_cpp_name() == old(self).by_cpp_name(),
            final(self).by_rust_name() == old(self).by_rust_name(),
            final(self).next_id() == old(self).next_id(),
            final(self).inline_asm() == old(self).inline_asm(),
            final(self).default_one() is None,
    {
        self.default_hook = None;
    }

    /// The hook that applies to a call of the function named `funcname`: one
    /// by that name; else one by its Rust demangled name, where it is a Rust
    /// mangled name; else one by its C++ demangled name, where it has one.
    pub open spec fn hook_for(&self, funcname: Seq<char>) -> Option<FunctionHook> {
        if self.by_name().contains_key(funcname) {
            Some(self.by_name()[funcname])
        } else if rust_mangling_recognized(funcname) && self.by_rust_name().contains_key(rust_demangled_alternate(funcname)) {
            Some(self.by_rust_name()[rust_demangled_alternate(funcname)])
        } else if cpp_demangled(funcname) is Some && self.by_cpp_name().contains_key(cpp_demangled(funcname)->0) {
            Some(self.by_cpp_name()[cpp_demangled(funcname)->0])
        } else {
            None
        }
    }

    /// Get the hook that applies to a call of the function named `funcname`,
    /// if any (see `hook_for`).
    pub fn get_hook_for(&self, funcname: &str) -> (r: Option<FunctionHook>)
        requires
            self.wf(),
        ensures
            r == self.hook_for(funcname@),
    {
        let name = funcname.to_owned();
        if let Some(h) = self.hooks.get(&name) {
            return Some(h);
        }
        if let Some(demangled) = try_rust_demangle(funcname) {
            if let Some(h) = self.rust_demangled_hooks.get(&demangled) {
                return Some(h);
            }
        }
        if let Some(demangled) = try_cpp_demangle(funcname) {
            if let Some(h) = self.cpp_demangled_hooks.get(&demangled) {
                return Some(h);
            }
        }
        None
    }

    /// Whether a hook applies to calls of the function named `funcname`.
    pub fn is_hooked(&self, funcname: &str) -> (r: bool)
        requires
            self.wf(),
        ensures
            r == self.hook_for(funcname@) is Some,
    {
        self.get_hook_for(funcname).is_some()
    }

    /// Whether there is a hook for inline assembly.
    pub fn has_inline_asm_hook(&self) -> (r: bool)
        ensures
            r == self.inline_asm() is Some,
    {
        self.inline_asm_hook.is_some()
    }

    /// Whether there is a default hook.
    pub fn has_default_hook(&self) -> (r: bool)
        ensures
            r == self.default_one() is Some,
    {
        self.default_hook.is_some()
    }

    /// The hook for inline assembly, if any.
    pub fn get_inline_asm_hook(&self) -> (r: Option<FunctionHook>)
        ensures
            r == self.inline_asm(),
    {
        self.inline_asm_hook
    }

    /// The default hook, if any.
    pub fn get_default_hook(&self) -> (r: Option<FunctionHook>)
        ensures
            r == self.default_one(),
    {
        self.default_hook
    }
}


/// The hooks registered by name by default.
pub open spec fn default_by_name() -> Map<Seq<char>, FunctionHook> {
    Map::empty()
        .insert("malloc"@, FunctionHook { hook: Hook::Malloc, id: 0 })
        .insert("calloc"@, FunctionHook { hook: Hook::Calloc, id: 1 })
        .insert("realloc"@, FunctionHook { hook: Hook::Realloc, id: 2 })
        .insert("free"@, FunctionHook { hook: Hook::Free, id: 3 })
        .insert("__cxa_allocate_exception"@, FunctionHook { hook: Hook::CxaAllocateException, id: 4 })
        .insert("__cxa_throw"@, FunctionHook { hook: Hook::CxaThrow, id: 5 })
        .insert("__cxa_begin_catch"@, FunctionHook { hook: Hook::CxaBeginCatch, id: 6 })
        .insert("__cxa_end_catch"@, FunctionHook { hook: Hook::CxaEndCatch, id: 7 })
        .insert("llvm.eh.typeid.for"@, FunctionHook { hook: Hook::LlvmEhTypeidFor, id: 8 })
        .insert("exit"@, FunctionHook { hook: Hook::Abort, id: 9 })
}

/// The hooks registered by Rust demangled name by default: the functions
/// that panic abort.
pub open spec fn default_by_rust_name() -> Map<Seq<char>, FunctionHook> {
    Map::empty()
        .insert("std::panicking::begin_panic"@, FunctionHook { hook: Hook::Abort, id: 10 })
        .insert("std::panicking::begin_panic_fmt"@, FunctionHook { hook: Hook::Abort, id: 11 })
        .insert("std::panicking::begin_panic_handler"@, FunctionHook { hook: Hook::Abort, id: 12 })
        .insert("core::panicking::panic"@, FunctionHook { hook: Hook::Abort, id: 13 })
        .insert("core::panicking::panic_bounds_check"@, FunctionHook { hook: Hook::Abort, id: 14 })
        .insert("core::result::unwrap_failed"@, FunctionHook { hook: Hook::Abort, id: 15 })
        .insert("core::slice::slice_index_len_fail"@, FunctionHook { hook: Hook::Abort, id: 16 })
        .insert("core::slice::slice_index_order_fail"@, FunctionHook { hook: Hook::Abort, id: 17 })
        .insert("core::slice::slice_index_overflow_fail"@, FunctionHook { hook: Hook::Abort, id: 18 })
}

impl Default for FunctionHooks {
    /// The library's hooks for allocation, for C++ exceptions, and for the
    /// functions that abort (`exit`, and Rust's panics).
    fn default() -> (r: Self)
        ensures
            r.wf(),
            r.by_name() == default_by_name(),
            r.by_rust_name() == default_by_rust_name(),
            r.by_cpp_name() == Map::<Seq<char>, FunctionHook>::empty(),
            r.inline_asm() is None,
            r.default_one() is None,
            r.next_id() == 19,
    {
        let mut fhooks = Self::new();
        fhooks.add("malloc", Hook::Malloc);
        fhooks.add("calloc", Hook::Calloc);
        fhooks.add("realloc", Hook::Realloc);
        fhooks.add("free", Hook::Free);
        fhooks.add("__cxa_allocate_exception", Hook::CxaAllocateException);
        fhooks.add("__cxa_throw", Hook::CxaThrow);
        fhooks.add("__cxa_begin_catch", Hook::CxaBeginCatch);
        fhooks.add("__cxa_end_catch", Hook::CxaEndCatch);
        fhooks.add("llvm.eh.typeid.for", Hook::LlvmEhTypeidFor);
        fhooks.add("exit", Hook::Abort);
        fhooks.add_rust_demangled("std::panicking::begin_panic", Hook::Abort);
        fhooks.add_rust_demangled("std::panicking::begin_panic_fmt", Hook::Abort);
        fhooks.add_rust_demangled("std::panicking::begin_panic_handler", Hook::Abort);
        fhooks.add_rust_demangled("core::panicking::panic", Hook::Abort);
        fhooks.add_rust_demangled("core::panicking::panic_bounds_check", Hook::Abort);
        fhooks.add_rust_demangled("core::result::unwrap_failed", Hook::Abort);
        fhooks.add_rust_demangled("core::slice::slice_index_len_fail", Hook::Abort);
        fhooks.add_rust_demangled("core::slice::slice_index_order_fail", Hook::Abort);
        fhooks.add_rust_demangled("core::slice::slice_index_overflow_fail", Hook::Abort);
        fhooks
    }
}

/// This hook ignores the function arguments and returns an unconstrained
/// value of the appropriate size for the function's return value (or void
/// for void-typed functions): the fresh variable `fresh`.
///
/// May be used for functions taking any number and type of arguments, and
/// with any return type.
pub fn generic_stub_hook(proj: &Project, ret_ty: &LlvmType, fresh: u64) -> (r: Result<ReturnValue<BvTerm>>)
    requires
        proj.sizable(*ret_ty, NESTING_BOUND as nat),
        *ret_ty != LlvmType::VoidType ==> proj.size_spec(*ret_ty, NESTING_BOUND as nat) != Some(0int),
    ensures
        *ret_ty == LlvmType::VoidType ==> r == Ok::<ReturnValue<BvTerm>, Error>(ReturnValue::ReturnVoid),
        *ret_ty != LlvmType::VoidType ==> match proj.size_spec(*ret_ty, NESTING_BOUND as nat) {
            None => r matches Err(Error::OtherError(m)) && m@ == "Call return type is an opaque named struct"@,
            Some(w) => r == Ok::<ReturnValue<BvTerm>, Error>(ReturnValue::Return(BvTerm::Var(fresh, w as u32))),
        },
{
    match ret_ty {
        LlvmType::VoidType => Ok(ReturnValue::ReturnVoid),
        _ => match proj.size_in_bits(ret_ty) {
            None => Err(Error::OtherError(String::from_str("Call return type is an opaque named struct"))),
            Some(w) => Ok(ReturnValue::Return(BvTerm::Var(fresh, w))),
        },
    }
}

/// This hook ignores the function arguments and returns
/// `ReturnValue::Abort`. It is suitable for hooking functions such as C's
/// `exit()` which abort the program and never return.
pub fn abort_hook() -> (r: Result<ReturnValue<BvTerm>>)
    ensures
        r == Ok::<ReturnValue<BvTerm>, Error>(ReturnValue::Abort),
{
    Ok(ReturnValue::Abort)
}

/// In the default registry, each allocation function and each C++
/// exception function is hooked, by its own name, by the hook of its own
/// kind (`calloc` by the calloc hook, and so on); `exit` and Rust's panic
/// functions abort; nothing is hooked by C++ demangled name; and no two
/// default hooks share an id.
pub proof fn lemma_default_hooks()
    ensures
        default_by_name().contains_key("malloc"@) && default_by_name()["malloc"@].hook == Hook::Malloc,
        default_by_name().contains_key("calloc"@) && default_by_name()["calloc"@].hook == Hook::Calloc,
        default_by_name().contains_key("realloc"@) && default_by_name()["realloc"@].hook == Hook::Realloc,
        default_by_name().contains_key("free"@) && default_by_name()["free"@].hook == Hook::Free,
        default_by_name().contains_key("__cxa_allocate_exception"@)
            && default_by_name()["__cxa_allocate_exception"@].hook == Hook::CxaAllocateException,
        default_by_name().contains_key("__cxa_throw"@) && default_by_name()["__cxa_throw"@].hook == Hook::CxaThrow,
        default_by_name().contains_key("__cxa_begin_catch"@)
            && default_by_name()["__cxa_begin_catch"@].hook == Hook::CxaBeginCatch,
        default_by_name().contains_key("__cxa_end_catch"@)
            && default_by_name()["__cxa_end_catch"@].hook == Hook::CxaEndCatch,
        default_by_name().contains_key("llvm.eh.typeid.for"@)
            && default_by_name()["llvm.eh.typeid.for"@].hook == Hook::LlvmEhTypeidFor,
        default_by_name().contains_key("exit"@) && default_by_name()["exit"@].hook == Hook::Abort,
        default_by_name().dom() == set!["malloc"@, "calloc"@, "realloc"@, "free"@, "__cxa_allocate_exception"@,
            "__cxa_throw"@, "__cxa_begin_catch"@, "__cxa_end_catch"@, "llvm.eh.typeid.for"@, "exit"@],
        forall|k: Seq<char>| #[trigger] default_by_rust_name().contains_key(k) ==> default_by_rust_name()[k].hook
            == Hook::Abort,
        default_by_rust_name().dom() == set!["std::panicking::begin_panic"@, "std::panicking::begin_panic_fmt"@, "std::panicking::begin_panic_handler"@, "core::panicking::panic"@, "core::panicking::panic_bounds_check"@, "core::result::unwrap_failed"@, "core::slice::slice_index_len_fail"@, "core::slice::slice_index_order_fail"@, "core::slice::slice_index_overflow_fail"@],
        forall|k1: Seq<char>, k2: Seq<char>| #[trigger] default_by_name().contains_key(k1)
            && #[trigger] default_by_name().contains_key(k2) && k1 != k2 ==> default_by_name()[k1].id
            != default_by_name()[k2].id,
        forall|k1: Seq<char>, k2: Seq<char>| #[trigger] default_by_name().contains_key(k1)
            && #[trigger] default_by_rust_name().contains_key(k2) ==> default_by_name()[k1].id
            != default_by_rust_name()[k2].id,
{
    reveal_strlit("malloc");
    reveal_strlit("calloc");
    reveal_strlit("realloc");
    reveal_strlit("free");
    reveal_strlit("__cxa_allocate_exception");
    reveal_strlit("__cxa_throw");
    reveal_strlit("__cxa_begin_catch");
    reveal_strlit("__cxa_end_catch");
    reveal_strlit("llvm.eh.typeid.for");
    reveal_strlit("exit");
    reveal_strlit("std::panicking::begin_panic");
    reveal_strlit("std::panicking::begin_panic_fmt");
    reveal_strlit("std::panicking::begin_panic_handler");
    reveal_strlit("core::panicking::panic");
    reveal_strlit("core::panicking::panic_bounds_check");
    reveal_strlit("core::result::unwrap_failed");
    reveal_strlit("core::slice::slice_index_len_fail");
    reveal_strlit("core::slice::slice_index_order_fail");
    reveal_strlit("core::slice::slice_index_overflow_fail");
    assert("std::panicking::begin_panic"@ != "std::panicking::begin_panic_fmt"@) by {
        assert("std::panicking::begin_panic"@.len() != "std::panicking::begin_panic_fmt"@.len());
    }
    assert("std::panicking::begin_panic"@ != "std::panicking::begin_panic_handler"@) by {
        assert("std::panicking::begin_panic"@.len() != "std::panicking::begin_panic_handler"@.len());
    }
    assert("std::panicking::begin_panic"@ != "core::panicking::panic"@) by {
        assert("std::panicking::begin_panic"@[0] != "core::panicking::panic"@[0]);
    }
    assert("std::panicking::begin_panic"@ != "core::panicking::panic_bounds_check"@) by {
        assert("std::panicking::begin_panic"@[0] != "core::panicking::panic_bounds_check"@[0]);
    }
    assert("std::panicking::begin_panic"@ != "core::result::unwrap_failed"@) by {
        assert("std::panicking::begin_panic"@[0] != "core::result::unwrap_failed"@[0]);
    }
    assert("std::panicking::begin_panic"@ != "core::slice::slice_index_len_fail"@) by {
        assert("std::panicking::begin_panic"@[0] != "core::slice::slice_index_len_fail"@[0]);
    }
    assert("std::panicking::begin_panic"@ != "core::slice::slice_index_order_fail"@) by {
        assert("std::panicking::begin_panic"@[0] != "core::slice::slice_index_order_fail"@[0]);
    }
    assert("std::panicking::begin_panic"@ != "core::slice::slice_index_overflow_fail"@) by {
        assert("std::panicking::begin_panic"@[0] != "core::slice::slice_index_overflow_fail"@[0]);
    }
    assert("std::panicking::begin_panic_fmt"@ != "std::panicking::begin_panic_handler"@) by {
        assert("std::panicking::begin_panic_fmt"@[28] != "std::panicking::begin_panic_handler"@[28]);
    }
    assert("std::panicking::begin_panic_fmt"@ != "core::panicking::panic"@) by {
        assert("std::panicking::begin_panic_fmt"@[0] != "core::panicking::panic"@[0]);
    }
    assert("std::panicking::begin_panic_fmt"@ != "core::panicking::panic_bounds_check"@) by {
        assert("std::panicking::begin_panic_fmt"@[0] != "core::panicking::panic_bounds_check"@[0]);
    }
    assert("std::panicking::begin_panic_fmt"@ != "core::result::unwrap_failed"@) by {
        assert("std::panicking::begin_panic_fmt"@[0] != "core::result::unwrap_failed"@[0]);
    }
    assert("std::panicking::begin_panic_fmt"@ != "core::slice::slice_index_len_fail"@) by {
        assert("std::panicking::begin_panic_fmt"@[0] != "core::slice::slice_index_len_fail"@[0]);
    }
    assert("std::panicking::begin_panic_fmt"@ != "core::slice::slice_index_order_fail"@) by {
        assert("std::panicking::begin_panic_fmt"@[0] != "core::slice::slice_index_order_fail"@[0]);
    }
    assert("std::panicking::begin_panic_fmt"@ != "core::slice::slice_index_overflow_fail"@) by {
        assert("std::panicking::begin_panic_fmt"@[0] != "core::slice::slice_index_overflow_fail"@[0]);
    }
    assert("std::panicking::begin_panic_handler"@ != "core::panicking::panic"@) by {
        assert("std::panicking::begin_panic_handler"@[0] != "core::panicking::panic"@[0]);
    }
    assert("std::panicking::begin_panic_handler"@ != "core::panicking::panic_bounds_check"@) by {
        assert("std::panicking::begin_panic_handler"@[0] != "core::panicking::panic_bounds_check"@[0]);
    }
    assert("std::panicking::begin_panic_handler"@ != "core::result::unwrap_failed"@) by {
        assert("std::panicking::begin_panic_handler"@[0] != "core::result::unwrap_failed"@[0]);
    }
    assert("std::panicking::begin_panic_handler"@ != "core::slice::slice_index_len_fail"@) by {
        assert("std::panicking::begin_panic_handler"@[0] != "core::slice::slice_index_len_fail"@[0]);
    }
    assert("std::panicking::begin_panic_handler"@ != "core::slice::slice_index_order_fail"@) by {
        assert("std::panicking::begin_panic_handler"@[0] != "core::slice::slice_index_order_fail"@[0]);
    }
    assert("std::panicking::begin_panic_handler"@ != "core::slice::slice_index_overflow_fail"@) by {
        assert("std::panicking::begin_panic_handler"@[0] != "core::slice::slice_index_overflow_fail"@[0]);
    }
    assert("core::panicking::panic"@ != "core::panicking::panic_bounds_check"@) by {
        assert("core::panicking::panic"@.len() != "core::panicking::panic_bounds_check"@.len());
    }
    assert("core::panicking::panic"@ != "core::result::unwrap_failed"@) by {
        assert("core::panicking::panic"@[6] != "core::result::unwrap_failed"@[6]);
    }
    assert("core::panicking::panic"@ != "core::slice::slice_index_len_fail"@) by {
        assert("core::panicking::panic"@[6] != "core::slice::slice_index_len_fail"@[6]);
    }
    assert("core::panicking::panic"@ != "core::slice::slice_index_order_fail"@) by {
        assert("core::panicking::panic"@[6] != "core::slice::slice_index_order_fail"@[6]);
    }
    assert("core::panicking::panic"@ != "core::slice::slice_index_overflow_fail"@) by {
        assert("core::panicking::panic"@[6] != "core::slice::slice_index_overflow_fail"@[6]);
    }
    assert("core::panicking::panic_bounds_check"@ != "core::result::unwrap_failed"@) by {
        assert("core::panicking::panic_bounds_check"@[6] != "core::result::unwrap_failed"@[6]);
    }
    assert("core::panicking::panic_bounds_check"@ != "core::slice::slice_index_len_fail"@) by {
        assert("core::panicking::panic_bounds_check"@[6] != "core::slice::slice_index_len_fail"@[6]);
    }
    assert("core::panicking::panic_bounds_check"@ != "core::slice::slice_index_order_fail"@) by {
        assert("core::panicking::panic_bounds_check"@[6] != "core::slice::slice_index_order_fail"@[6]);
    }
    assert("core::panicking::panic_bounds_check"@ != "core::slice::slice_index_overflow_fail"@) by {
        assert("core::panicking::panic_bounds_check"@[6] != "core::slice::slice_index_overflow_fail"@[6]);
    }
    assert("core::result::unwrap_failed"@ != "core::slice::slice_index_len_fail"@) by {
        assert("core::result::unwrap_failed"@[6] != "core::slice::slice_index_len_fail"@[6]);
    }
    assert("core::result::unwrap_failed"@ != "core::slice::slice_index_order_fail"@) by {
        assert("core::result::unwrap_failed"@[6] != "core::slice::slice_index_order_fail"@[6]);
    }
    assert("core::result::unwrap_failed"@ != "core::slice::slice_index_overflow_fail"@) by {
        assert("core::result::unwrap_failed"@[6] != "core::slice::slice_index_overflow_fail"@[6]);
    }
    assert("core::slice::slice_index_len_fail"@ != "core::slice::slice_index_order_fail"@) by {
        assert("core::slice::slice_index_len_fail"@[25] != "core::slice::slice_index_order_fail"@[25]);
    }
    assert("core::slice::slice_index_len_fail"@ != "core::slice::slice_index_overflow_fail"@) by {
        assert("core::slice::slice_index_len_fail"@[25] != "core::slice::slice_index_overflow_fail"@[25]);
    }
    assert("core::slice::slice_index_order_fail"@ != "core::slice::slice_index_overflow_fail"@) by {
        assert("core::slice::slice_index_order_fail"@[26] != "core::slice::slice_index_overflow_fail"@[26]);
    }
    assert("malloc"@ != "calloc"@) by {
        assert("malloc"@[0] != "calloc"@[0]);
    }
    assert("malloc"@ != "realloc"@) by {
        assert("malloc"@[0] != "realloc"@[0]);
    }
    assert("malloc"@ != "free"@) by {
        assert("malloc"@[0] != "free"@[0]);
    }
    assert("malloc"@ != "__cxa_allocate_exception"@) by {
        assert("malloc"@[0] != "__cxa_allocate_exception"@[0]);
    }
    assert("malloc"@ != "__cxa_throw"@) by {
        assert("malloc"@[0] != "__cxa_throw"@[0]);
    }
    assert("malloc"@ != "__cxa_begin_catch"@) by {
        assert("malloc"@[0] != "__cxa_begin_catch"@[0]);
    }
    assert("malloc"@ != "__cxa_end_catch"@) by {
        assert("malloc"@[0] != "__cxa_end_catch"@[0]);
    }
    assert("malloc"@ != "llvm.eh.typeid.for"@) by {
        assert("malloc"@[0] != "llvm.eh.typeid.for"@[0]);
    }
    assert("malloc"@ != "exit"@) by {
        assert("malloc"@[0] != "exit"@[0]);
    }
    assert("calloc"@ != "realloc"@) by {
        assert("calloc"@[0] != "realloc"@[0]);
    }
    assert("calloc"@ != "free"@) by {
        assert("calloc"@[0] != "free"@[0]);
    }
    assert("calloc"@ != "__cxa_allocate_exception"@) by {
        assert("calloc"@[0] != "__cxa_allocate_exception"@[0]);
    }
    assert("calloc"@ != "__cxa_throw"@) by {
        assert("calloc"@[0] != "__cxa_throw"@[0]);
    }
    assert("calloc"@ != "__cxa_begin_catch"@) by {
        assert("calloc"@[0] != "__cxa_begin_catch"@[0]);
    }
    assert("calloc"@ != "__cxa_end_catch"@) by {
        assert("calloc"@[0] != "__cxa_end_catch"@[0]);
    }
    assert("calloc"@ != "llvm.eh.typeid.for"@) by {
        assert("calloc"@[0] != "llvm.eh.typeid.for"@[0]);
    }
    assert("calloc"@ != "exit"@) by {
        assert("calloc"@[0] != "exit"@[0]);
    }
    assert("realloc"@ != "free"@) by {
        assert("realloc"@[0] != "free"@[0]);
    }
    assert("realloc"@ != "__cxa_allocate_exception"@) by {
        assert("realloc"@[0] != "__cxa_allocate_exception"@[0]);
    }
    assert("realloc"@ != "__cxa_throw"@) by {
        assert("realloc"@[0] != "__cxa_throw"@[0]);
    }
    assert("realloc"@ != "__cxa_begin_catch"@) by {
        assert("realloc"@[0] != "__cxa_begin_catch"@[0]);
    }
    assert("realloc"@ != "__cxa_end_catch"@) by {
        assert("realloc"@[0] != "__cxa_end_catch"@[0]);
    }
    assert("realloc"@ != "llvm.eh.typeid.for"@) by {
        assert("realloc"@[0] != "llvm.eh.typeid.for"@[0]);
    }
    assert("realloc"@ != "exit"@) by {
        assert("realloc"@[0] != "exit"@[0]);
    }
    assert("free"@ != "__cxa_allocate_exception"@) by {
        assert("free"@[0] != "__cxa_allocate_exception"@[0]);
    }
    assert("free"@ != "__cxa_throw"@) by {
        assert("free"@[0] != "__cxa_throw"@[0]);
    }
    assert("free"@ != "__cxa_begin_catch"@) by {
        assert("free"@[0] != "__cxa_begin_catch"@[0]);
    }
    assert("free"@ != "__cxa_end_catch"@) by {
        assert("free"@[0] != "__cxa_end_catch"@[0]);
    }
    assert("free"@ != "llvm.eh.typeid.for"@) by {
        assert("free"@[0] != "llvm.eh.typeid.for"@[0]);
    }
    assert("free"@ != "exit"@) by {
        assert("free"@[0] != "exit"@[0]);
    }
    assert("__cxa_allocate_exception"@ != "__cxa_throw"@) by {
        assert("__cxa_allocate_exception"@[6] != "__cxa_throw"@[6]);
    }
    assert("__cxa_allocate_exception"@ != "__cxa_begin_catch"@) by {
        assert("__cxa_allocate_exception"@[6] != "__cxa_begin_catch"@[6]);
    }
    assert("__cxa_allocate_exception"@ != "__cxa_end_catch"@) by {
        assert("__cxa_allocate_exception"@[6] != "__cxa_end_catch"@[6]);
    }
    assert("__cxa_allocate_exception"@ != "llvm.eh.typeid.for"@) by {
        assert("__cxa_allocate_exception"@[0] != "llvm.eh.typeid.for"@[0]);
    }
    assert("__cxa_allocate_exception"@ != "exit"@) by {
        assert("__cxa_allocate_exception"@[0] != "exit"@[0]);
    }
    assert("__cxa_throw"@ != "__cxa_begin_catch"@) by {
        assert("__cxa_throw"@[6] != "__cxa_begin_catch"@[6]);
    }
    assert("__cxa_throw"@ != "__cxa_end_catch"@) by {
        assert("__cxa_throw"@[6] != "__cxa_end_catch"@[6]);
    }
    assert("__cxa_throw"@ != "llvm.eh.typeid.for"@) by {
        assert("__cxa_throw"@[0] != "llvm.eh.typeid.for"@[0]);
    }
    assert("__cxa_throw"@ != "exit"@) by {
        assert("__cxa_throw"@[0] != "exit"@[0]);
    }
    assert("__cxa_begin_catch"@ != "__cxa_end_catch"@) by {
        assert("__cxa_begin_catch"@[6] != "__cxa_end_catch"@[6]);
    }
    assert("__cxa_begin_catch"@ != "llvm.eh.typeid.for"@) by {
        assert("__cxa_begin_catch"@[0] != "llvm.eh.typeid.for"@[0]);
    }
    assert("__cxa_begin_catch"@ != "exit"@) by {
        assert("__cxa_begin_catch"@[0] != "exit"@[0]);
    }
    assert("__cxa_end_catch"@ != "llvm.eh.typeid.for"@) by {
        assert("__cxa_end_catch"@[0] != "llvm.eh.typeid.for"@[0]);
    }
    assert("__cxa_end_catch"@ != "exit"@) by {
        assert("__cxa_end_catch"@[0] != "exit"@[0]);
    }
    assert("llvm.eh.typeid.for"@ != "exit"@) by {
        assert("llvm.eh.typeid.for"@[0] != "exit"@[0]);
    }
    let m = default_by_name();
    let keys = set!["malloc"@, "calloc"@, "realloc"@, "free"@, "__cxa_allocate_exception"@, "__cxa_throw"@,
        "__cxa_begin_catch"@, "__cxa_end_catch"@, "llvm.eh.typeid.for"@, "exit"@];
    assert(m.dom() =~= keys);
    assert(default_by_rust_name().dom() =~= set!["std::panicking::begin_panic"@, "std::panicking::begin_panic_fmt"@, "std::panicking::begin_panic_handler"@, "core::panicking::panic"@, "core::panicking::panic_bounds_check"@, "core::result::unwrap_failed"@, "core::slice::slice_index_len_fail"@, "core::slice::slice_index_order_fail"@, "core::slice::slice_index_overflow_fail"@]);
    assert forall|k: Seq<char>| #[trigger] m.contains_key(k) implies m[k].id < 10 by {}
    assert forall|k: Seq<char>| #[trigger] default_by_rust_name().contains_key(k) implies default_by_rust_name()[k].id >= 10 by {}
}

/// Which hook a call gets: a hook registered under the function's own name
/// comes first, then one under its Rust demangling, then one under its C++
/// demangling; a name hooked in none of these ways gets none.
pub proof fn lemma_hook_precedence(f: FunctionHooks, name: Seq<char>)
    ensures
        f.by_name().contains_key(name) ==> f.hook_for(name) == Some(f.by_name()[name]),
        !f.by_name().contains_key(name) && rust_mangling_recognized(name)
            && f.by_rust_name().contains_key(rust_demangled_alternate(name)) ==> f.hook_for(name)
            == Some(f.by_rust_name()[rust_demangled_alternate(name)]),
        !f.by_name().contains_key(name) && !(rust_mangling_recognized(name) && f.by_rust_name().contains_key(
            rust_demangled_alternate(name),
        )) && cpp_demangled(name) is Some && f.by_cpp_name().contains_key(cpp_demangled(name)->0) ==> f.hook_for(name)
            == Some(f.by_cpp_name()[cpp_demangled(name)->0]),
        f.hook_for(name) is Some ==> f.by_name().contains_key(name) || f.by_rust_name().contains_key(
            rust_demangled_alternate(name),
        ) || (cpp_demangled(name) is Some && f.by_cpp_name().contains_key(cpp_demangled(name)->0)),
{
}

/// Registering a hook under a name makes calls of that name get it, with a
/// new id, whatever was registered before; removing the name's hook leaves
/// calls of it to the demangled registrations; other names are unaffected by
/// either.
pub proof fn lemma_add_then_lookup(f: FunctionHooks, g: FunctionHooks, r: FunctionHooks, name: Seq<char>, other: Seq<char>, hook: Hook)
    requires
        g.by_name() == f.by_name().insert(name, FunctionHook { hook, id: f.next_id() }),
        g.by_rust_name() == f.by_rust_name(),
        g.by_cpp_name() == f.by_cpp_name(),
        r.by_name() == f.by_name().remove(name),
        r.by_rust_name() == f.by_rust_name(),
        r.by_cpp_name() == f.by_cpp_name(),
        other != name,
    ensures
        g.hook_for(name) == Some(FunctionHook { hook, id: f.next_id() }),
        g.hook_for(other) == f.hook_for(other),
        r.hook_for(other) == f.hook_for(other),
        !r.by_name().contains_key(name),
{
}

} // verus!
