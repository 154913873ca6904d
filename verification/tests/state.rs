//! The bookkeeping of a path: locations, path entries, call stack,
//! constraints and backtracking. Constraints are checked by evaluating them
//! over a small range of values, standing in for the solver.

use std::rc::Rc;

use haybale::bv_term::BvTerm;
use haybale::config::NullPointerChecking;
use haybale::error::Error;
use haybale::global_allocations::{GlobalAllocations, Linkage};
use haybale::simple_memory::Memory;
use haybale::solver_utils::PossibleSolutions;
use haybale::startup::{DefKind, GlobalDef};
use haybale::state::{BBInstrIndex, BlockInfo, CallInstr, FunctionInfo, Location, State};

/// The value of a term of at most 64 bits, with variable `k` given `vals[k]`.
fn eval(t: &BvTerm, vals: &[u64]) -> u64 {
    match t {
        BvTerm::Const(v, _) => *v,
        BvTerm::Zero(_) => 0,
        BvTerm::Var(id, _) => vals[*id as usize],
        BvTerm::Not(a) => {
            if eval(a, vals) == 0 {
                1
            } else {
                0
            }
        },
        BvTerm::Eq(a, b) => (eval(a, vals) == eval(b, vals)) as u64,
        BvTerm::Ult(a, b) => (eval(a, vals) < eval(b, vals)) as u64,
        BvTerm::Slt(a, b) => ((eval(a, vals) as i64) < (eval(b, vals) as i64)) as u64,
        other => panic!("unexpected term {:?}", other),
    }
}

/// Whether some values below 64 for two variables meet all the constraints.
fn sat(cs: &[BvTerm]) -> bool {
    (0..64u64).any(|x| (0..64u64).any(|y| cs.iter().all(|c| eval(c, &[x, y]) == 1)))
}

/// A value of variable `var` below 64 in some solution, if any.
fn a_solution(cs: &[BvTerm], var: usize) -> Option<u64> {
    for x in 0..64u64 {
        for y in 0..64u64 {
            if cs.iter().all(|c| eval(c, &[x, y]) == 1) {
                return Some([x, y][var]);
            }
        }
    }
    None
}

fn test_func(blocks: &[(&str, usize)]) -> Rc<FunctionInfo> {
    Rc::new(FunctionInfo {
        name: "test_func".to_owned(),
        blocks: blocks
            .iter()
            .map(|(n, k)| BlockInfo { name: n.to_string(), num_instrs: *k })
            .collect(),
    })
}

fn start_of(func: &Rc<FunctionInfo>) -> Location {
    Location {
        module: "test_mod".to_owned(),
        func: func.clone(),
        bb: BlockInfo { name: func.blocks[0].name.clone(), num_instrs: func.blocks[0].num_instrs },
        instr: BBInstrIndex::Instr(0),
    }
}

fn blank_state(func: &Rc<FunctionInfo>, checking: NullPointerChecking) -> State<Memory, u64> {
    let mem = Memory::new_uninitialized(0, checking != NullPointerChecking::Disabled, None, 64);
    State::new(start_of(func), mem, checking, 64, vec![])
}

fn var(id: u64) -> Box<BvTerm> {
    Box::new(BvTerm::Var(id, 64))
}

fn c64(v: u64) -> Box<BvTerm> {
    Box::new(BvTerm::Const(v, 64))
}

#[test]
fn backtracking() {
    let func = test_func(&[("%bb_start", 2), ("%bb_target", 1)]);
    let mut state = blank_state(&func, NullPointerChecking::Simple);
    state.record_path_entry();

    // assert x > 11
    state.add_constraint(BvTerm::Slt(c64(11), var(0)));

    // create a backtrack point with constraint y > 5
    let constraint = BvTerm::Slt(c64(5), var(1));
    state.save_backtracking_point("%bb_target", constraint);
    assert_eq!(state.count_backtracking_points(), 1);

    // check that the constraint y > 5 wasn't added: adding y < 4 should keep us sat
    let mut with_extra = state.constraints();
    with_extra.push(BvTerm::Slt(var(1), c64(4)));
    assert!(sat(&with_extra));

    // assert x < 8 to make us unsat
    state.add_constraint(BvTerm::Slt(var(0), c64(8)));
    assert!(!sat(&state.constraints()));

    // do some more work on this path
    state.cur_loc.inc();
    state.record_path_entry();
    state.push_callsite();

    // roll back to backtrack point; check that we ended up at the right loc
    // and with the right path
    assert_eq!(state.revert_to_backtracking_point(), Ok(true));
    assert_eq!(state.cur_loc.func.name, "test_func");
    assert_eq!(state.cur_loc.bb.name, "%bb_target");
    assert_eq!(state.cur_loc.instr, BBInstrIndex::Instr(0));
    assert_eq!(state.current_callstack_depth(), 0);
    let path = state.get_path();
    assert_eq!(path.len(), 1);
    let path_entry = &path[0];
    assert_eq!(path_entry.0.module, "test_mod");
    assert_eq!(path_entry.0.func.name, "test_func");
    assert_eq!(path_entry.0.bb.name, "%bb_start");
    assert_eq!(path_entry.0.instr, BBInstrIndex::Instr(0));

    // check that the constraint x < 8 was removed: we're sat again
    let cs = state.constraints();
    assert_eq!(cs.len(), 2);
    assert!(sat(&cs));

    // check that the constraint y > 5 was added: y evaluates to something > 5
    assert!(a_solution(&cs, 1).expect("Expected a solution for y") > 5);

    // check that the first constraint remained in place: x > 11
    assert!(a_solution(&cs, 0).expect("Expected a solution for x") > 11);

    // check that trying to backtrack again fails
    assert_eq!(state.revert_to_backtracking_point(), Ok(false));
}

#[test]
fn fork() {
    let func = test_func(&[("%test_bb", 3)]);
    let mut state = blank_state(&func, NullPointerChecking::Simple);

    // assert x < 42
    state.add_constraint(BvTerm::Ult(var(0), c64(42)));

    // fork the state
    let mut state_2 = state.fork();

    // in one state, we assert `x > 3`, while in the other, we assert `x < 3`
    state.add_constraint(BvTerm::Ult(c64(3), var(0)));
    state_2.add_constraint(BvTerm::Ult(var(0), c64(3)));

    let x_1 = a_solution(&state.constraints(), 0).expect("Expected a solution for x");
    assert!(x_1 > 3 && x_1 < 42);
    let x_2 = a_solution(&state_2.constraints(), 0).expect("Expected a solution for x_2");
    assert!(x_2 < 3);
    assert_eq!(state.constraints().len(), 2);
    assert_eq!(state_2.constraints().len(), 2);
}

#[test]
fn location_inc_reaches_terminator() {
    let func = test_func(&[("%entry", 2)]);
    let mut loc = start_of(&func);
    loc.inc();
    assert_eq!(loc.instr, BBInstrIndex::Instr(1));
    loc.inc();
    assert_eq!(loc.instr, BBInstrIndex::Terminator);

    let empty = test_func(&[("%entry", 0)]);
    let mut loc = start_of(&empty);
    loc.inc();
    assert_eq!(loc.instr, BBInstrIndex::Terminator);
}

#[test]
fn move_to_block_by_name() {
    let func = test_func(&[("%entry", 2), ("%loop", 5), ("%exit", 0)]);
    let mut loc = start_of(&func);
    loc.inc();
    loc.move_to_start_of_bb_by_name("%loop");
    assert_eq!(loc.bb.name, "%loop");
    assert_eq!(loc.bb.num_instrs, 5);
    assert_eq!(loc.instr, BBInstrIndex::Instr(0));
    assert!(func.get_bb_by_name("%exit").is_some());
    assert!(func.get_bb_by_name("%missing").is_none());
}

#[test]
fn callstack_push_and_pop() {
    let func = test_func(&[("%entry", 4)]);
    let mut state = blank_state(&func, NullPointerChecking::Simple);
    assert!(state.pop_callsite().is_none());
    state.push_callsite();
    state.cur_loc.inc();
    state.push_invokesite();
    assert_eq!(state.current_callstack_depth(), 2);
    let top = state.pop_callsite().expect("expected a callsite");
    assert_eq!(top.instr, CallInstr::Invoke);
    assert_eq!(top.loc.instr, BBInstrIndex::Instr(1));
    let next = state.pop_callsite().expect("expected a callsite");
    assert_eq!(next.instr, CallInstr::Call);
    assert_eq!(next.loc.instr, BBInstrIndex::Instr(0));
    assert_eq!(state.current_callstack_depth(), 0);
}

#[test]
fn nested_backtracking_points() {
    let func = test_func(&[("%a", 1), ("%b", 1), ("%c", 1)]);
    let mut state = blank_state(&func, NullPointerChecking::Simple);
    state.add_constraint(BvTerm::Ult(var(0), c64(10)));
    state.save_backtracking_point("%b", BvTerm::Ult(c64(2), var(0)));
    state.record_path_entry();
    state.save_backtracking_point("%c", BvTerm::Ult(c64(4), var(0)));
    state.add_constraint(BvTerm::Ult(var(0), c64(1)));
    assert_eq!(state.count_backtracking_points(), 2);

    assert_eq!(state.revert_to_backtracking_point(), Ok(true));
    assert_eq!(state.cur_loc.bb.name, "%c");
    assert_eq!(state.get_path().len(), 1);
    assert_eq!(state.constraints().len(), 2);

    assert_eq!(state.revert_to_backtracking_point(), Ok(true));
    assert_eq!(state.cur_loc.bb.name, "%b");
    assert_eq!(state.get_path().len(), 0);
    let cs = state.constraints();
    assert_eq!(cs.len(), 2);
    let x = a_solution(&cs, 0).expect("expected a solution");
    assert!(x > 2 && x < 10);
    assert_eq!(state.count_backtracking_points(), 0);
}

#[test]
fn null_read_splits_path() {
    let func = test_func(&[("%entry", 3)]);
    let mut state = blank_state(&func, NullPointerChecking::SplitPath);
    state.cur_loc.inc();
    let addr = BvTerm::Var(0, 64);
    let r = state.read(&addr, 8, || Ok(true));
    assert_eq!(r.err(), Some(Error::NullPointerDereference));
    assert_eq!(state.count_backtracking_points(), 1);

    assert_eq!(state.revert_to_backtracking_point(), Ok(true));
    // back at the same instruction, with the address constrained non-null
    assert_eq!(state.cur_loc.instr, BBInstrIndex::Instr(1));
    let cs = state.constraints();
    assert_eq!(cs.len(), 1);
    assert_eq!(eval(&cs[0], &[0, 0]), 0);
    assert_eq!(eval(&cs[0], &[16, 0]), 1);
}

#[test]
fn null_write_with_simple_checking_does_not_split() {
    let func = test_func(&[("%entry", 1)]);
    let mut state = blank_state(&func, NullPointerChecking::Simple);
    let addr = BvTerm::Var(0, 64);
    let r = state.write(&addr, BvTerm::Const(7, 8), || Ok(true));
    assert_eq!(r, Err(Error::NullPointerDereference));
    assert_eq!(state.count_backtracking_points(), 0);

    let ok = state.write(&BvTerm::Const(0x100, 64), BvTerm::Const(7, 8), || Ok(false));
    assert_eq!(ok, Ok(()));
    let v = state.read(&BvTerm::Const(0x100, 64), 8, || Ok(false));
    assert!(v.is_ok());
}

fn function_table() -> GlobalAllocations<u64, u64> {
    let mut g: GlobalAllocations<u64, u64> = GlobalAllocations::new();
    g.allocate_function(Linkage::External, 1, 100, 0x1000, 0x1000, 7);
    g.allocate_function(Linkage::External, 1, 101, 0x2000, 0x2000, 8);
    g.allocate_function(Linkage::Private, 2, 102, 0x3000, 0x3000, 9);
    g
}

#[test]
fn function_pointer_constant_resolves_and_is_cached() {
    let g = function_table();
    let func = test_func(&[("%entry", 1)]);
    let mut state = blank_state(&func, NullPointerChecking::Simple);
    let r = state.interpret_as_function_ptr(&g, 1, &BvTerm::Const(0x2000, 64), 2, |_| Ok(false), || {
        Ok(PossibleSolutions::Exactly(vec![]))
    });
    match r {
        Ok(PossibleSolutions::Exactly(v)) => assert_eq!(v, vec![8]),
        other => panic!("unexpected {:?}", other),
    }
    assert_eq!(state.cached_function_ptr(), Some(0x2000));

    // a symbolic pointer that must equal the cached value resolves to it
    let r = state.interpret_as_function_ptr(&g, 1, &BvTerm::Var(0, 64), 2, |a| Ok(a == 0x2000), || {
        Err(Error::SolverError("not expected".to_owned()))
    });
    match r {
        Ok(PossibleSolutions::Exactly(v)) => assert_eq!(v, vec![8]),
        other => panic!("unexpected {:?}", other),
    }
}

#[test]
fn function_pointer_symbolic_uses_possible_values() {
    let g = function_table();
    let func = test_func(&[("%entry", 1)]);
    let mut state = blank_state(&func, NullPointerChecking::Simple);
    let r = state.interpret_as_function_ptr(&g, 2, &BvTerm::Var(0, 64), 1, |_| Ok(false), || {
        Ok(PossibleSolutions::AtLeast(vec![0x1000, 0x3000]))
    });
    match r {
        Ok(PossibleSolutions::AtLeast(v)) => assert_eq!(v, vec![7, 9]),
        other => panic!("unexpected {:?}", other),
    }
    assert_eq!(state.cached_function_ptr(), None);

    // an address with no function fails, naming the address
    let r = state.interpret_as_function_ptr(&g, 1, &BvTerm::Var(0, 64), 4, |_| Ok(false), || {
        Ok(PossibleSolutions::Exactly(vec![0x1000, 0x3000]))
    });
    assert_eq!(r.err(), Some(Error::FailedToResolveFunctionPointer(0x3000)));
}

#[test]
fn location_strings() {
    let func = test_func(&[("%entry", 2)]);
    let mut loc = start_of(&func);
    loc.module = "dir/sub/test_mod.bc".to_owned();
    assert_eq!(loc.to_string_with_module(), "dir/sub/test_mod.bc: test_func, bb %entry, instr 0");
    assert_eq!(loc.to_string_no_module(), "test_func, bb %entry, instr 0");
    assert_eq!(loc.to_string_short_module(), "test_mod.bc: test_func, bb %entry, instr 0");
    loc.inc();
    loc.inc();
    assert_eq!(loc.to_string_no_module(), "test_func, bb %entry, terminator");
    loc.module = "plain".to_owned();
    assert_eq!(loc.to_string_short_module(), "plain: test_func, bb %entry, terminator");
    assert_eq!(BBInstrIndex::Instr(12).to_text(), "instr 12");
}

#[test]
fn path_strings() {
    let func = test_func(&[("%entry", 2), ("%next", 1)]);
    let mut state = blank_state(&func, NullPointerChecking::Simple);
    state.record_path_entry();
    state.cur_loc.move_to_start_of_bb_by_name("%next");
    state.record_path_entry();
    assert_eq!(
        state.pretty_path_llvm(true),
        "  {test_mod: test_func, bb %entry, starting at instr 0}\n  {test_mod: test_func, bb %next, starting at instr 0}\n"
    );
    assert_eq!(
        state.pretty_path_llvm(false),
        "  {test_func, bb %entry, starting at instr 0}\n  {test_func, bb %next, starting at instr 0}\n"
    );
}

#[test]
fn new_state_allocates_functions() {
    let func = test_func(&[("%entry", 1)]);
    let mem = Memory::new_uninitialized(0, false, None, 64);
    let defs = vec![
        GlobalDef { linkage: Linkage::External, module: 0, name: 100, kind: DefKind::Function(7u64) },
        GlobalDef { linkage: Linkage::External, module: 0, name: 101, kind: DefKind::Function(8u64) },
        GlobalDef { linkage: Linkage::External, module: 1, name: 102, kind: DefKind::Variable(32) },
    ];
    let state: State<Memory, u64> = State::new(start_of(&func), mem, NullPointerChecking::Disabled, 64, defs);
    assert_eq!(state.current_callstack_depth(), 0);
    assert_eq!(state.count_backtracking_points(), 0);
    assert!(state.get_path().is_empty());
    assert_eq!(state.cached_function_ptr(), None);
    let mut seen = vec![];
    for name in [100u64, 101, 102] {
        match state.get_pointer_to_function(name, 0) {
            Some(BvTerm::Const(a, 64)) => {
                assert!(a >= 0x1000_0000);
                assert!(!seen.contains(&a));
                seen.push(a);
            },
            other => panic!("unexpected {:?}", other),
        }
    }
    assert!(state.get_pointer_to_function(103, 0).is_none());
}
