//! A set of LLVM modules, as far as looking functions up by name goes.

use vstd::prelude::*;

use crate::layout::NamedStructDecl;
use crate::demangling::{cpp_demangled, rust_demangle_or_id, rust_demangle_plain, rust_demangled,
    rust_demangled_alternate, try_cpp_demangle};

verus! {

/// An LLVM module: its name, the names of the functions it defines, and the
/// named struct types it declares.
pub struct ProjectModule {
    /// The module's name.
    pub name: String,
    /// The names of the functions defined in the module, in the module's order.
    pub functions: Vec<String>,
    /// The named struct types declared in the module.
    pub named_structs: Vec<NamedStructDecl>,
}

/// A set of LLVM modules.
pub struct Project {
    /// The modules, in the order they were loaded.
    pub modules: Vec<ProjectModule>,
    /// The size of a pointer, in bits.
    pub pointer_size_bits: u32,
}

/// The ways a function name `fname` can match a requested `name`, tried in
/// this order: 0, the name itself; 1, its Rust demangling; 2, its Rust
/// demangling without the trailing hash; 3, its C++ demangling.
pub open spec fn name_matches(pass: nat, fname: Seq<char>, name: Seq<char>) -> bool {
    if pass == 0 {
        fname == name
    } else if pass == 1 {
        rust_demangled(fname) == name
    } else if pass == 2 {
        rust_demangled_alternate(fname) == name
    } else {
        cpp_demangled(fname) == Some(name)
    }
}

impl Project {
    /// The name of function `f` of module `m`.
    pub open spec fn fname(&self, m: int, f: int) -> Seq<char> {
        self.modules@[m].functions@[f]@
    }

    /// Some function of module `m` matches `name` in the given way.
    pub open spec fn module_matches(&self, m: int, pass: nat, name: Seq<char>) -> bool {
        exists|f: int| 0 <= f < self.modules@[m].functions@.len() && name_matches(pass, #[trigger] self.fname(m, f), name)
    }

    /// Some function of some module matches `name` in the given way.
    pub open spec fn any_matches(&self, pass: nat, name: Seq<char>) -> bool {
        exists|m: int| 0 <= m < self.modules@.len() && #[trigger] self.module_matches(m, pass, name)
    }

    /// A lookup of `name` is unambiguous: in the first way of matching that
    /// finds any function, only one module has a match.
    pub open spec fn unambiguous(&self, name: Seq<char>) -> bool {
        forall|pass: nat, m1: int, m2: int|
            #![trigger self.module_matches(m1, pass, name), self.module_matches(m2, pass, name)]
            pass < 4 && (forall|p: nat| p < pass ==> !#[trigger] self.any_matches(p, name))
                && 0 <= m1 < self.modules@.len() && 0 <= m2 < self.modules@.len()
                && self.module_matches(m1, pass, name) && self.module_matches(m2, pass, name) ==> m1 == m2
    }

    /// `(m, f)` is what a lookup of `name` finds: function `f` of module `m`
    /// is the first function of its module to match `name` in the first way
    /// of matching that finds any function.
    pub open spec fn found_at(&self, name: Seq<char>, m: int, f: int) -> bool {
        exists|pass: nat|
            pass < 4 && (forall|p: nat| p < pass ==> !#[trigger] self.any_matches(p, name))
                && 0 <= m < self.modules@.len() && 0 <= f < self.modules@[m].functions@.len()
                && name_matches(pass, #[trigger] self.fname(m, f), name)
                && forall|g: int| 0 <= g < f ==> !name_matches(pass, #[trigger] self.fname(m, g), name)
    }

    /// Whether function name `fname` matches `name` in the given way.
    fn matches(pass: u32, fname: &String, name: &str) -> (r: bool)
        ensures
            r == name_matches(pass as nat, fname@, name@),
    {
        let wanted = name.to_owned();
        if pass == 0 {
            *fname == wanted
        } else if pass == 1 {
            rust_demangle_plain(fname.as_str()) == wanted
        } else if pass == 2 {
            rust_demangle_or_id(fname.as_str()) == wanted
        } else {
            match try_cpp_demangle(fname.as_str()) {
                Some(d) => d == wanted,
                None => false,
            }
        }
    }

    /// The first function of module `m` that matches `name` in the given way.
    fn find_in_module(&self, m: usize, pass: u32, name: &str) -> (r: Option<usize>)
        requires
            m < self.modules@.len(),
        ensures
            match r {
                Some(f) => f < self.modules@[m as int].functions@.len() && name_matches(pass as nat, self.fname(m as int, f as int), name@)
                    && forall|g: int| 0 <= g < f ==> !name_matches(pass as nat, #[trigger] self.fname(m as int, g), name@),
                None => !self.module_matches(m as int, pass as nat, name@),
            },
    {
        let funcs = &self.modules[m].functions;
        let mut f: usize = 0;
        while f < funcs.len()
            invariant
                funcs == &self.modules@[m as int].functions,
                f <= funcs@.len(),
                forall|g: int| 0 <= g < f ==> !name_matches(pass as nat, #[trigger] self.fname(m as int, g), name@),
            decreases funcs@.len() - f,
        {
            if Self::matches(pass, &funcs[f], name) {
                return Some(f);
            }
            f = f + 1;
        }
        None
    }

    /// Search the project for a function with the given name.
    /// If a matching function is found, return the position of the module
    /// it was found in and its position in that module.
    ///
    /// For projects containing C++ or Rust code, you can pass either the mangled
    /// or demangled function name (fully qualified with namespaces/modules).
    pub fn get_func_by_name(&self, name: &str) -> (r: Option<(usize, usize)>)
        requires
            self.unambiguous(name@),
        ensures
            match r {
                Some((m, f)) => self.found_at(name@, m as int, f as int),
                None => forall|pass: nat| pass < 4 ==> !#[trigger] self.any_matches(pass, name@),
            },
    {
        let mut pass: u32 = 0;
        while pass < 4
            invariant
                pass <= 4,
                self.unambiguous(name@),
                forall|p: nat| p < pass ==> !#[trigger] self.any_matches(p, name@),
            decreases 4 - pass,
        {
            let mut retval: Option<(usize, usize)> = None;
            let mut m: usize = 0;
            while m < self.modules.len()
                invariant
                    pass < 4,
                    m <= self.modules@.len(),
                    self.unambiguous(name@),
                    forall|p: nat| p < pass ==> !#[trigger] self.any_matches(p, name@),
                    match retval {
                        Some((mm, f)) => mm < m && self.found_at(name@, mm as int, f as int)
                            && self.module_matches(mm as int, pass as nat, name@)
                            && forall|k: int| 0 <= k < m && k != mm ==> !#[trigger] self.module_matches(k, pass as nat, name@),
                        None => forall|k: int| 0 <= k < m ==> !#[trigger] self.module_matches(k, pass as nat, name@),
                    },
                decreases self.modules@.len() - m,
            {
                match self.find_in_module(m, pass, name) {
                    Some(f) => {
                        assert(self.module_matches(m as int, pass as nat, name@));
                        match retval {
                            None => {
                                assert(self.found_at(name@, m as int, f as int));
                                retval = Some((m, f));
                            },
                            Some((mm, _)) => {
                                // the lookup is unambiguous, so no second module can match
                                assert(false);
                            },
                        }
                    },
                    None => {},
                }
                m = m + 1;
            }
            if retval.is_some() {
                return retval;
            }
            assert(!self.any_matches(pass as nat, name@));
            pass = pass + 1;
        }
        None
    }

    /// Like `get_func_by_name`, but first checks that the lookup is
    /// unambiguous: returns `None` when, in the first way of matching that
    /// finds any function, functions of two different modules match.
    pub fn try_get_func_by_name(&self, name: &str) -> (r: Option<Option<(usize, usize)>>)
        ensures
            r is Some <==> self.unambiguous(name@),
            r matches Some(found) ==> match found {
                Some((m, f)) => self.found_at(name@, m as int, f as int),
                None => forall|pass: nat| pass < 4 ==> !#[trigger] self.any_matches(pass, name@),
            },
    {
        let mut pass: u32 = 0;
        while pass < 4
            invariant
                pass <= 4,
                forall|p: nat| p < pass ==> !#[trigger] self.any_matches(p, name@),
            decreases 4 - pass,
        {
            let mut first: Option<usize> = None;
            let mut m: usize = 0;
            while m < self.modules.len()
                invariant
                    pass < 4,
                    m <= self.modules@.len(),
                    forall|p: nat| p < pass ==> !#[trigger] self.any_matches(p, name@),
                    match first {
                        Some(mm) => mm < m && self.module_matches(mm as int, pass as nat, name@)
                            && forall|k: int| 0 <= k < m && k != mm ==> !#[trigger] self.module_matches(k, pass as nat, name@),
                        None => forall|k: int| 0 <= k < m ==> !#[trigger] self.module_matches(k, pass as nat, name@),
                    },
                decreases self.modules@.len() - m,
            {
                match self.find_in_module(m, pass, name) {
                    Some(_) => {
                        match first {
                            None => {
                                first = Some(m);
                            },
                            Some(mm) => {
                                // two modules match in the first way that finds anything
                                assert(!self.unambiguous(name@)) by {
                                    assert(self.module_matches(mm as int, pass as nat, name@));
                                    assert(self.module_matches(m as int, pass as nat, name@));
                                }
                                return None;
                            },
                        }
                    },
                    None => {},
                }
                m = m + 1;
            }
            if first.is_some() {
                assert(self.unambiguous(name@)) by {
                    assert forall|p2: nat, m1: int, m2: int|
                        #![trigger self.module_matches(m1, p2, name@), self.module_matches(m2, p2, name@)]
                        p2 < 4 && (forall|p: nat| p < p2 ==> !#[trigger] self.any_matches(p, name@))
                            && 0 <= m1 < self.modules@.len() && 0 <= m2 < self.modules@.len()
                            && self.module_matches(m1, p2, name@) && self.module_matches(m2, p2, name@) implies m1 == m2 by {
                        if p2 < pass {
                            assert(self.any_matches(p2, name@));
                        } else if p2 > pass {
                            assert(self.any_matches(pass as nat, name@));
                        }
                    }
                }
                return Some(self.get_func_by_name(name));
            }
            assert(!self.any_matches(pass as nat, name@));
            pass = pass + 1;
        }
        assert(self.unambiguous(name@)) by {
            assert forall|p2: nat, m1: int, m2: int|
                #![trigger self.module_matches(m1, p2, name@), self.module_matches(m2, p2, name@)]
                p2 < 4 && (forall|p: nat| p < p2 ==> !#[trigger] self.any_matches(p, name@))
                    && 0 <= m1 < self.modules@.len() && 0 <= m2 < self.modules@.len()
                    && self.module_matches(m1, p2, name@) && self.module_matches(m2, p2, name@) implies m1 == m2 by {
                assert(self.any_matches(p2, name@));
            }
        }
        Some(self.get_func_by_name(name))
    }
}

} // verus!
