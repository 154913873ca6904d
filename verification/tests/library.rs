//! Scenarios for the allocator, results with warnings, maps, global
//! allocation, function lookup, layout and the small value types.

use haybale::bump_alloc::Alloc;
use haybale::bv_solution::BvSolution;
use haybale::decimal::{message_with_number, to_decimal};
use haybale::demangling::{cpp_demangle_or_id, try_rust_demangle, Demangling};
use haybale::double_keyed_map::DoubleKeyedMap;
use haybale::global_allocations::{AllocationResult, GlobalAllocations, Linkage};
use haybale::layout::{fp_size_in_bits, FPType, LlvmType, NamedStructDecl};
use haybale::project::{Project, ProjectModule};
use haybale::return_value::ReturnValue;
use haybale::return_values::{solution_value_for, ReturnValueCollector};
use haybale::solver_utils::PossibleSolutions;
use haybale::zero_search::{zero_search_solution, zero_search_step, zero_search_width, PathStep};
use haybale::layout::same_type;
use haybale::startup::{allocate_globals, DefKind, GlobalDef};
use haybale::{BackendResult, Concretize, Error, NullPointerChecking, ParameterVal, SolutionValue};

#[test]
fn alloc_places_allocations() {
    let mut a = Alloc::new();
    let p1 = a.alloc_bits(32);
    assert_eq!(p1, Alloc::ALLOC_START);
    // 4 bytes used in the first cell; 8 more bytes do not fit, so the next cell starts
    let p2 = a.alloc_bits(64);
    assert_eq!(p2, Alloc::ALLOC_START + 8);
    // 1 bit takes a byte, right after
    let p3 = a.alloc_bits(1);
    assert_eq!(p3, Alloc::ALLOC_START + 16);
    // a large allocation starts at a cell boundary
    let p4 = a.alloc_bits(200);
    assert_eq!(p4, Alloc::ALLOC_START + 24);
    assert_eq!(a.get_allocation_size(p1), Some(32));
    assert_eq!(a.get_allocation_size(p2), Some(64));
    assert_eq!(a.get_allocation_size(p3), Some(1));
    assert_eq!(a.get_allocation_size(p4), Some(200));
    assert_eq!(a.get_allocation_size(p1 + 1), None);
}

#[test]
fn backend_result_warnings() {
    let r: BackendResult<u32> = BackendResult::with_warn(Ok(3), "careful".to_owned());
    assert!(r.is_ok() && !r.is_err() && r.has_warnings());
    let mut r = r.map(|x| x + 1);
    r.add_warn("again".to_owned());
    assert_eq!(r.warnings, vec!["careful".to_owned(), "again".to_owned()]);
    assert_eq!(r.discard_warnings(), Ok(4));
    let e: BackendResult<u32> = BackendResult::with_warns(Err(Error::Unsat), vec!["w1".to_owned()]);
    let joined = e.and(BackendResult::with_warn(Ok(5u32), "w2".to_owned()));
    assert_eq!(joined.res, Err(Error::Unsat));
    assert_eq!(joined.warnings, vec!["w1".to_owned()]);
    let ok_joined = BackendResult::with_warn(Ok(1u32), "w0".to_owned()).and(BackendResult::with_warn(Ok(5u32), "w2".to_owned()));
    assert_eq!(ok_joined.res, Ok(5));
    assert_eq!(ok_joined.warnings, vec!["w0".to_owned(), "w2".to_owned()]);
    let recovered = BackendResult::<u32>::from_result(Err(Error::Unsat)).or_else(|_| BackendResult::from_result(Ok(9)));
    assert_eq!(recovered.unwrap_warn(), Ok(9));
    let r = BackendResult::from_result(Ok(2u32)).and_then(|x| BackendResult::with_warn(Ok(x * 10), "w".to_owned()));
    assert_eq!(r.warnings.len(), 1);
    assert_eq!(r.ok(), Some(20));
    assert_eq!(BackendResult::<u32>::from_result(Err(Error::Unsat)).err(), Some(Error::Unsat));
    let r = BackendResult::from_result(Err::<u32, Error>(Error::Unsat)).or(BackendResult::from_result(Ok(1)));
    assert_eq!(r.res, Ok(1));
}

#[test]
fn double_keyed_map_operations() {
    let mut m: DoubleKeyedMap<String, u64, u32> = DoubleKeyedMap::new();
    assert!(m.is_empty());
    m.insert("a".to_owned(), 1, 10);
    m.insert("a".to_owned(), 2, 20);
    m.insert("b".to_owned(), 1, 30);
    assert_eq!(m.len(), 3);
    assert_eq!(m.get(&"a".to_owned(), &2), Some(&20));
    assert_eq!(m.get(&"c".to_owned(), &2), None);
    m.insert("a".to_owned(), 2, 21);
    assert_eq!(m.len(), 3);
    assert_eq!(m.get(&"a".to_owned(), &2), Some(&21));
    if let Some(v) = m.get_mut(&"b".to_owned(), &1) {
        *v = 31;
    }
    assert_eq!(m.get(&"b".to_owned(), &1), Some(&31));
    *m.entry("c".to_owned(), 7, 0) += 5;
    *m.entry("c".to_owned(), 7, 0) += 5;
    assert_eq!(m.get(&"c".to_owned(), &7), Some(&10));
    assert_eq!(m.remove(&"a".to_owned(), &1), Some(10));
    assert_eq!(m.remove(&"a".to_owned(), &1), None);
    assert_eq!(m.len(), 3);
    let mut keys: Vec<(String, u64)> = m.keys().into_iter().map(|(a, b)| (a.clone(), *b)).collect();
    keys.sort();
    assert_eq!(keys, vec![("a".to_owned(), 2), ("b".to_owned(), 1), ("c".to_owned(), 7)]);
    let mut values: Vec<u32> = m.values().into_iter().copied().collect();
    values.sort();
    assert_eq!(values, vec![10, 21, 31]);
    assert_eq!(m.iter().len(), 3);
}

#[test]
fn global_allocations_linkage() {
    let mut g: GlobalAllocations<u64, &'static str> = GlobalAllocations::new();
    // module 1 defines a private "f"; module 2 a weak and then a strong public "f"
    assert_eq!(g.allocate_global(Linkage::Internal, 1, 100, 0x1000), AllocationResult::ModulePrivate);
    assert_eq!(g.allocate_global(Linkage::WeakAny, 2, 100, 0x2000), AllocationResult::Public);
    assert_eq!(g.get_global_allocation(100, 2), Some(&0x2000));
    assert_eq!(g.allocate_global(Linkage::LinkOnceODR, 3, 100, 0x3000), AllocationResult::NoAllocate);
    assert_eq!(g.get_global_allocation(100, 3), Some(&0x2000));
    assert_eq!(g.allocate_global(Linkage::External, 3, 100, 0x4000), AllocationResult::Public);
    // the strong definition wins everywhere but in module 1, which has its own
    assert_eq!(g.get_global_allocation(100, 2), Some(&0x4000));
    assert_eq!(g.get_global_allocation(100, 1), Some(&0x1000));
    assert_eq!(g.get_global_allocation(101, 1), None);
    assert_eq!(g.allocate_global(Linkage::Appending, 1, 102, 0x5000), AllocationResult::NoAllocate);
    assert_eq!(g.get_global_allocation(102, 1), None);
    // functions: public ones are found at their address from any module
    g.allocate_function(Linkage::External, 1, 200, 0x6000, 0x6000, "g");
    g.allocate_function(Linkage::Private, 2, 201, 0x7000, 0x7000, "h");
    assert_eq!(g.get_func_for_address(0x6000, 5), Some(&"g"));
    assert_eq!(g.get_func_for_address(0x7000, 2), Some(&"h"));
    assert_eq!(g.get_func_for_address(0x7000, 1), None);
}

fn module(name: &str, functions: &[&str], named_structs: Vec<NamedStructDecl>) -> ProjectModule {
    ProjectModule {
        name: name.to_owned(),
        functions: functions.iter().map(|f| f.to_string()).collect(),
        named_structs,
    }
}

#[test]
fn project_finds_functions() {
    let rust_name = "_ZN4test3foo17h1234567890abcdefE";
    let cpp_name = "_ZN5space3fooEibc";
    let project = Project {
        modules: vec![
            module("m1", &["main", rust_name], vec![]),
            module("m2", &["helper", cpp_name, "main2"], vec![]),
        ],
        pointer_size_bits: 64,
    };
    assert_eq!(project.get_func_by_name("main"), Some((0, 0)));
    assert_eq!(project.get_func_by_name("main2"), Some((1, 2)));
    assert_eq!(project.get_func_by_name(rust_name), Some((0, 1)));
    // the Rust demangled name, with and without the hash
    assert_eq!(project.get_func_by_name("test::foo::h1234567890abcdef"), Some((0, 1)));
    assert_eq!(project.get_func_by_name("test::foo"), Some((0, 1)));
    // the C++ demangled name, without parameters
    assert_eq!(project.get_func_by_name("space::foo"), Some((1, 1)));
    assert_eq!(project.get_func_by_name("nothere"), None);
    assert_eq!(project.try_get_func_by_name("helper"), Some(Some((1, 0))));
    // two modules defining one name: the lookup is ambiguous
    let project = Project {
        modules: vec![module("m1", &["dup"], vec![]), module("m2", &["dup"], vec![])],
        pointer_size_bits: 64,
    };
    assert_eq!(project.try_get_func_by_name("dup"), None);
    assert_eq!(project.try_get_func_by_name("other"), Some(None));
}

#[test]
fn demangling_names() {
    assert_eq!(cpp_demangle_or_id("_ZN5space3fooEibc"), "space::foo");
    assert_eq!(cpp_demangle_or_id("not_mangled"), "not_mangled");
    assert_eq!(try_rust_demangle("_ZN4test3foo17h1234567890abcdefE"), Some("test::foo".to_owned()));
    assert_eq!(try_rust_demangle("not_mangled"), None);
    assert_eq!(Demangling::Disabled.maybe_demangle("_ZN5space3fooEibc"), "_ZN5space3fooEibc");
    assert_eq!(Demangling::CPP.maybe_demangle("_ZN5space3fooEibc"), "space::foo");
    assert_eq!(Demangling::Rust.maybe_demangle("_ZN4test3foo17h1234567890abcdefE"), "test::foo");
    assert_eq!(Demangling::Rust.maybe_demangle("plain"), "plain");
}

fn i(bits: u32) -> LlvmType {
    LlvmType::IntegerType(bits)
}

#[test]
fn layout_sizes_and_offsets() {
    let pair = LlvmType::StructType(vec![i(32), i(64)]);
    let project = Project {
        modules: vec![
            module("m1", &[], vec![NamedStructDecl { name: "pair".to_owned(), def: None }]),
            module("m2", &[], vec![NamedStructDecl { name: "pair".to_owned(), def: Some(pair) }]),
        ],
        pointer_size_bits: 64,
    };
    assert_eq!(project.size_in_bits(&i(17)), Some(17));
    assert_eq!(project.size_in_bits(&LlvmType::PointerType(Box::new(i(8)))), Some(64));
    assert_eq!(project.size_in_bits(&LlvmType::FPType(FPType::X86_FP80)), Some(80));
    assert_eq!(project.size_in_bits(&LlvmType::ArrayType(Box::new(i(16)), 10)), Some(160));
    assert_eq!(project.size_in_bits(&LlvmType::StructType(vec![i(8), i(32), i(1)])), Some(41));
    // the definition of m2 is used, though m1 only declares the struct
    assert_eq!(project.size_in_bits(&LlvmType::NamedStructType("pair".to_owned())), Some(96));
    assert_eq!(project.size_in_bits(&LlvmType::NamedStructType("absent".to_owned())), None);
    assert_eq!(project.size_in_bits(&LlvmType::VoidType), Some(0));
    let (decl, m) = project.get_named_struct_def("pair").unwrap();
    assert_eq!(m, 1);
    assert!(decl.def.is_some());
    assert!(matches!(project.get_named_struct_def("absent"), Err(Error::OtherError(_))));
    assert_eq!(fp_size_in_bits(FPType::Half), 16);

    // offsets: element 3 of an array of i32 is 12 bytes in
    let arr = LlvmType::ArrayType(Box::new(i(32)), 10);
    let (off, ty) = project.get_offset_constant_index(0, &arr, 3).unwrap();
    assert_eq!((off, ty), (12, &i(32)));
    // element 2 of { i8, i16, i64 } is 3 bytes in
    let s = LlvmType::StructType(vec![i(8), i(16), i(64)]);
    let (off, ty) = project.get_offset_constant_index(0, &s, 2).unwrap();
    assert_eq!((off, ty), (3, &i(64)));
    // sub-byte sizes are refused
    let bits = LlvmType::ArrayType(Box::new(i(4)), 10);
    assert_eq!(
        project.get_offset_constant_index(0, &bits, 1),
        Err(Error::UnsupportedInstruction("Encountered a type with size 4 bits".to_owned()))
    );
    let odd = LlvmType::StructType(vec![i(1), i(8)]);
    assert_eq!(
        project.get_offset_constant_index(0, &odd, 1),
        Err(Error::UnsupportedInstruction("Struct offset of 1 bits".to_owned()))
    );
    // a named struct is looked up in the current module: opaque in m1, defined in m2
    let named = LlvmType::NamedStructType("pair".to_owned());
    assert!(matches!(project.get_offset_constant_index(0, &named, 1), Err(Error::MalformedInstruction(_))));
    assert_eq!(project.get_offset_constant_index(1, &named, 1).unwrap().0, 4);
}

#[test]
fn decimal_numbers() {
    assert_eq!(to_decimal(0), "0");
    assert_eq!(to_decimal(1234567890), "1234567890");
    assert_eq!(to_decimal(u64::MAX), "18446744073709551615");
    assert_eq!(message_with_number("size ", 40, " bits"), "size 40 bits");
}

#[test]
fn solution_values() {
    assert_eq!(SolutionValue::I8(-3).unwrap_to_i8(), -3);
    assert_eq!(SolutionValue::I16(300).unwrap_to_i16(), 300);
    assert_eq!(SolutionValue::I32(-70000).unwrap_to_i32(), -70000);
    assert_eq!(SolutionValue::I64(1 << 40).unwrap_to_i64(), 1 << 40);
    assert_eq!(SolutionValue::Ptr(0x1000).unwrap_to_ptr(), 0x1000);
    assert_eq!(solution_value_for(&i(8), 0xff), SolutionValue::I8(-1));
    assert_eq!(solution_value_for(&i(16), 0x1_8000), SolutionValue::I16(-32768));
    assert_eq!(solution_value_for(&i(32), 7), SolutionValue::I32(7));
    assert_eq!(solution_value_for(&i(64), u64::MAX), SolutionValue::I64(-1));
    assert_eq!(solution_value_for(&LlvmType::PointerType(Box::new(i(8))), 0x10), SolutionValue::Ptr(0x10));
    assert_eq!(ParameterVal::default(), ParameterVal::Unconstrained);
    assert_eq!(Concretize::Prefer(3, Box::new(Concretize::Minimum)).clone(), Concretize::Prefer(3, Box::new(Concretize::Minimum)));
    assert_ne!(NullPointerChecking::Simple, NullPointerChecking::Disabled);
}

#[test]
fn bv_solutions() {
    let s = BvSolution::from_01x_chars("1x0x1".chars().collect());
    assert_eq!(s.width(), 5);
    let d = s.disambiguate();
    assert_eq!(d.as_01x_chars().iter().collect::<String>(), "10001");
    assert_eq!(s.as_u64(), Some(17));
    assert_eq!(BvSolution::binary_of(5, 4).as_01x_chars().iter().collect::<String>(), "0101");
    assert_eq!(BvSolution::ones(3).as_u64(), Some(7));
    let wide = BvSolution::from_01x_chars(vec!['1'; 65]);
    assert_eq!(wide.as_u64(), None);
    assert!(s.same_as(&BvSolution::from_01x_chars("1x0x1".chars().collect())));
    assert!(!s.same_as(&d));
    let ps = PossibleSolutions::Exactly(vec![s, BvSolution::binary_of(17, 5), BvSolution::binary_of(3, 2)]);
    let u = ps.as_u64_solutions().unwrap();
    let mut vals = match u {
        PossibleSolutions::Exactly(v) => v,
        PossibleSolutions::AtLeast(_) => panic!("expected Exactly"),
    };
    vals.sort();
    assert_eq!(vals, vec![3, 17]);
}

#[test]
fn return_values_are_collected() {
    let mut c = ReturnValueCollector::new(2);
    assert!(!c.record_void());
    assert!(!c.record_void());
    assert!(!c.record_returns(&PossibleSolutions::Exactly(vec![7])));
    assert_eq!(c.returned_values(), vec![7]);
    // a third distinct value is more than 2
    assert!(c.record_throw_pointer(0x1000));
    assert!(!c.record_throw_pointer(0x2000));
    assert_eq!(c.thrown_values(), vec![0x1000]);
    match c.finish() {
        PossibleSolutions::AtLeast(v) => {
            assert_eq!(v, vec![ReturnValue::ReturnVoid, ReturnValue::Return(7), ReturnValue::Throw(0x1000)]);
        },
        PossibleSolutions::Exactly(_) => panic!("expected AtLeast"),
    }
    let mut c = ReturnValueCollector::new(5);
    assert!(c.record_returns(&PossibleSolutions::AtLeast(vec![1, 2])));
    assert!(!c.record_abort());
    assert!(!c.record_thrown_values(&PossibleSolutions::Exactly(vec![9, 9])));
    match c.finish() {
        PossibleSolutions::Exactly(v) => {
            assert_eq!(v, vec![ReturnValue::Return(1), ReturnValue::Return(2), ReturnValue::Abort, ReturnValue::Throw(9)]);
        },
        PossibleSolutions::AtLeast(_) => panic!("expected Exactly"),
    }
}

#[test]
fn zero_search_decisions() {
    assert_eq!(zero_search_step::<u64>(&Ok(ReturnValue::Return(3))), PathStep::TestForZero);
    assert_eq!(zero_search_step::<u64>(&Ok(ReturnValue::Throw(3))), PathStep::Skip);
    assert_eq!(zero_search_step::<u64>(&Ok(ReturnValue::Abort)), PathStep::Skip);
    assert_eq!(zero_search_step::<u64>(&Err(Error::LoopBoundExceeded(10))), PathStep::Skip);
    assert_eq!(zero_search_step::<u64>(&Err(Error::Unsat)), PathStep::Fail);
    let proj = Project {
        modules: vec![ProjectModule { name: "m".to_owned(), functions: vec![], named_structs: Vec::<NamedStructDecl>::new() }],
        pointer_size_bits: 64,
    };
    assert_eq!(zero_search_width(&proj, &LlvmType::IntegerType(32)), Ok(32));
    assert_eq!(zero_search_width(&proj, &LlvmType::PointerType(Box::new(LlvmType::IntegerType(8)))), Ok(64));
    assert_eq!(zero_search_width(&proj, &LlvmType::VoidType), Err("find_zero_of_func: function has void type".to_owned()));
    let params = vec![
        LlvmType::IntegerType(8),
        LlvmType::IntegerType(16),
        LlvmType::IntegerType(32),
        LlvmType::IntegerType(64),
        LlvmType::PointerType(Box::new(LlvmType::IntegerType(8))),
    ];
    let vals = zero_search_solution(&params, &vec![0xFF, 0xFFFE, 7, u64::MAX, 0x1000]);
    assert_eq!(
        vals,
        vec![SolutionValue::I8(-1), SolutionValue::I16(-2), SolutionValue::I32(7), SolutionValue::I64(-1), SolutionValue::Ptr(0x1000)]
    );
}

#[test]
fn type_sameness() {
    let s = |n: u32| LlvmType::StructType(vec![LlvmType::IntegerType(8), LlvmType::IntegerType(n)]);
    assert!(same_type(&s(32), &s(32)));
    assert!(!same_type(&s(32), &s(16)));
    assert!(!same_type(&LlvmType::StructType(vec![]), &s(8)));
    assert!(same_type(&LlvmType::NamedStructType("a".to_owned()), &LlvmType::NamedStructType("a".to_owned())));
    assert!(!same_type(&LlvmType::NamedStructType("a".to_owned()), &LlvmType::NamedStructType("b".to_owned())));
    assert!(!same_type(&LlvmType::VectorType(Box::new(LlvmType::IntegerType(8)), 4, false), &LlvmType::VectorType(Box::new(LlvmType::IntegerType(8)), 4, true)));
    assert!(same_type(&LlvmType::FPType(FPType::Double), &LlvmType::FPType(FPType::Double)));
    assert!(!same_type(&LlvmType::FPType(FPType::Double), &LlvmType::FPType(FPType::Single)));
}

#[test]
fn allocating_globals_and_functions() {
    let mut alloc = Alloc::new();
    let mut globals: GlobalAllocations<u64, String> = GlobalAllocations::new();
    let defs = vec![
        GlobalDef { linkage: Linkage::External, module: 0, name: 1, kind: DefKind::Variable(32) },
        GlobalDef { linkage: Linkage::Private, module: 0, name: 2, kind: DefKind::Variable(0) },
        GlobalDef { linkage: Linkage::External, module: 0, name: 3, kind: DefKind::Function("f".to_owned()) },
        GlobalDef { linkage: Linkage::WeakAny, module: 1, name: 1, kind: DefKind::Variable(32) },
        GlobalDef { linkage: Linkage::Internal, module: 1, name: 4, kind: DefKind::Function("g".to_owned()) },
    ];
    let addrs = allocate_globals(&mut alloc, &mut globals, defs);
    assert_eq!(addrs.len(), 5);
    for i in 0..addrs.len() {
        for j in i + 1..addrs.len() {
            assert_ne!(addrs[i], addrs[j]);
        }
    }
    assert_eq!(alloc.get_allocation_size(addrs[0]), Some(32));
    // a variable of no size gets a byte anyway
    assert_eq!(alloc.get_allocation_size(addrs[1]), Some(8));
    assert_eq!(alloc.get_allocation_size(addrs[2]), Some(64));
    // the strong definition is what the name resolves to; the weak one got memory but no name
    assert_eq!(globals.get_global_allocation(1, 1), Some(&addrs[0]));
    assert_eq!(globals.get_global_allocation(2, 0), Some(&addrs[1]));
    assert_eq!(globals.get_global_allocation(2, 1), None);
    assert_eq!(globals.get_func_for_address(addrs[2], 0), Some(&"f".to_owned()));
    assert_eq!(globals.get_func_for_address(addrs[4], 1), Some(&"g".to_owned()));
    assert_eq!(globals.get_func_for_address(addrs[4], 0), None);
}

// ---- the registry of function hooks ----

use haybale::function_hooks::{abort_hook, generic_stub_hook, FunctionHooks, Hook};

fn hook_of(h: &FunctionHooks, name: &str) -> Option<Hook> {
    h.get_hook_for(name).map(|f| f.hook)
}

#[test]
fn default_hooks() {
    let h = FunctionHooks::default();
    assert_eq!(hook_of(&h, "malloc"), Some(Hook::Malloc));
    assert_eq!(hook_of(&h, "free"), Some(Hook::Free));
    assert_eq!(hook_of(&h, "__cxa_throw"), Some(Hook::CxaThrow));
    assert_eq!(hook_of(&h, "exit"), Some(Hook::Abort));
    assert_eq!(hook_of(&h, "printf"), None);
    // found by its Rust demangled name
    assert_eq!(hook_of(&h, "_ZN3std9panicking11begin_panic17h0123456789abcdefE"), Some(Hook::Abort));
    assert!(h.is_hooked("_ZN4core9panicking5panic17h0123456789abcdefE"));
    assert!(!h.is_hooked("_ZN4core9panicking6notone17h0123456789abcdefE"));
    assert!(!h.has_inline_asm_hook());
    assert!(!h.has_default_hook());
}

#[test]
fn adding_and_removing_hooks() {
    let mut h = FunctionHooks::new();
    assert!(!h.is_hooked("foo"));
    h.add("foo", Hook::User(1));
    assert_eq!(hook_of(&h, "foo"), Some(Hook::User(1)));
    let first_id = h.get_hook_for("foo").unwrap().id;
    h.add("foo", Hook::User(2));
    assert_eq!(hook_of(&h, "foo"), Some(Hook::User(2)));
    assert_ne!(h.get_hook_for("foo").unwrap().id, first_id);
    h.add_cpp_demangled("ns::bar", Hook::User(3));
    assert_eq!(hook_of(&h, "_ZN2ns3barEi"), Some(Hook::User(3)));
    h.remove_cpp_demangled("ns::bar");
    assert_eq!(hook_of(&h, "_ZN2ns3barEi"), None);
    h.remove("foo");
    assert!(!h.is_hooked("foo"));
    assert!(!h.add_inline_asm_hook(Hook::GenericStub));
    assert!(h.add_inline_asm_hook(Hook::Abort));
    assert_eq!(h.get_inline_asm_hook().map(|f| f.hook), Some(Hook::Abort));
    h.remove_inline_asm_hook();
    assert!(!h.has_inline_asm_hook());
    assert!(!h.add_default_hook(Hook::GenericStub));
    assert!(h.has_default_hook());
    h.remove_default_hook();
    assert!(!h.has_default_hook());
    // a name hooked directly wins over a demangled one
    h.add_rust_demangled("std::panicking::begin_panic", Hook::User(7));
    h.add("_ZN3std9panicking11begin_panic17h0123456789abcdefE", Hook::User(8));
    assert_eq!(hook_of(&h, "_ZN3std9panicking11begin_panic17h0123456789abcdefE"), Some(Hook::User(8)));
    h.remove_rust_demangled("std::panicking::begin_panic");
    h.remove("_ZN3std9panicking11begin_panic17h0123456789abcdefE");
    assert!(!h.is_hooked("_ZN3std9panicking11begin_panic17h0123456789abcdefE"));
}

#[test]
fn stub_and_abort_hooks() {
    let proj = Project {
        modules: vec![ProjectModule { name: "m".to_owned(), functions: vec![], named_structs: vec![] }],
        pointer_size_bits: 64,
    };
    assert!(matches!(generic_stub_hook(&proj, &LlvmType::VoidType, 5), Ok(ReturnValue::ReturnVoid)));
    match generic_stub_hook(&proj, &LlvmType::IntegerType(32), 5) {
        Ok(ReturnValue::Return(haybale::bv_term::BvTerm::Var(5, 32))) => {},
        other => panic!("unexpected {:?}", other),
    }
    match generic_stub_hook(&proj, &LlvmType::NamedStructType("opaque".to_owned()), 5) {
        Err(Error::OtherError(m)) => assert_eq!(m, "Call return type is an opaque named struct"),
        other => panic!("unexpected {:?}", other),
    }
    assert!(matches!(abort_hook(), Ok(ReturnValue::Abort)));
}

#[test]
fn rust_demangling_keeps_unrecognized_names() {
    assert_eq!(Demangling::Rust.maybe_demangle("main"), "main");
    assert_eq!(Demangling::CPP.maybe_demangle("main"), "main");
    assert_eq!(Demangling::Disabled.maybe_demangle("_ZN4testE"), "_ZN4testE");
    // an LLVM renaming suffix is dropped, other suffixes are kept
    assert_eq!(Demangling::Rust.maybe_demangle("helper.llvm.12AB"), "helper");
    assert_eq!(Demangling::Rust.maybe_demangle("helper.llvm.xyz"), "helper.llvm.xyz");
}
