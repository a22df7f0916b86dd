use backtrace::bomb::Bomb;
use backtrace::capture::Backtrace;
use backtrace::demangle::demangle;
use backtrace::frame::{trace, visit_frames, Frame};
use backtrace::lock::{lock, LockState};
use backtrace::symbolize::{resolve, Symbol, SymbolName};
use std::cell::Cell;
use std::cell::RefCell;

fn frame(n: usize) -> Frame {
    Frame { ip: 0x1000 + n, sp: 0x8000 - 16 * n, symbol_address: 0x1000 + n - 1 }
}

fn walk_of(n: usize) -> Vec<Frame> {
    (1..=n).map(frame).collect()
}

fn sym(name: &str, line: u32, addr: usize) -> Symbol {
    Symbol::new(Some(name.as_bytes().to_vec()), Some(b"lib.rs".to_vec()), Some(line), addr)
}

#[test]
fn lock_refuses_reentry_and_frees_on_release() {
    let mut st = LockState::new();
    let g = lock(&mut st).expect("free lock");
    assert!(st.held);
    assert!(lock(&mut st).is_none());
    assert!(st.held);
    g.release(&mut st);
    assert!(!st.held);
    let g2 = lock(&mut st);
    assert!(g2.is_some());
    g2.unwrap().release(&mut st);
}

#[test]
fn bomb_is_armed_until_disarmed() {
    let mut b = Bomb::armed();
    assert!(b.must_abort());
    b.disarm();
    assert!(!b.must_abort());
}

#[test]
fn trace_first_visit_is_first_frame_after_machinery() {
    let mut st = LockState::new();
    let seen = RefCell::new(Vec::new());
    let n = trace(&mut st, || walk_of(6), 2, |f: &Frame| {
        seen.borrow_mut().push(f.ip());
        true
    });
    assert_eq!(n, 4);
    assert_eq!(seen.borrow()[0], frame(3).ip);
    assert_eq!(*seen.borrow(), vec![frame(3).ip, frame(4).ip, frame(5).ip, frame(6).ip]);
    assert!(!st.held);
}

#[test]
fn trace_stop_at_once_visits_one_frame() {
    let mut st = LockState::new();
    let calls = Cell::new(0usize);
    let n = trace(&mut st, || walk_of(10), 1, |_f: &Frame| {
        calls.set(calls.get() + 1);
        false
    });
    assert_eq!(n, 1);
    assert_eq!(calls.get(), 1);
}

#[test]
fn trace_stops_where_visitor_says_so() {
    let raw = walk_of(8);
    let n = visit_frames(&raw, 0, |f: &Frame| f.ip() < 0x1003);
    assert_eq!(n, 3);
}

#[test]
fn trace_while_holding_lock_visits_nothing() {
    let mut st = LockState::new();
    let g = lock(&mut st).unwrap();
    let calls = Cell::new(0usize);
    let n = trace(&mut st, || walk_of(5), 0, |_f: &Frame| {
        calls.set(calls.get() + 1);
        true
    });
    assert_eq!(n, 0);
    assert_eq!(calls.get(), 0);
    assert!(st.held);
    g.release(&mut st);
}

#[test]
fn trace_with_only_machinery_frames_visits_nothing() {
    let mut st = LockState::new();
    let n = trace(&mut st, || walk_of(2), 2, |_f: &Frame| true);
    assert_eq!(n, 0);
}

#[test]
fn resolve_without_debug_info_visits_no_symbol() {
    let mut st = LockState::new();
    let calls = Cell::new(0usize);
    let n = resolve(&mut st, 0xdead, |_a: usize| Vec::new(), |_s: &Symbol| calls.set(calls.get() + 1));
    assert_eq!(n, 0);
    assert_eq!(calls.get(), 0);
    assert!(!st.held);
}

#[test]
fn resolve_visits_symbols_in_backend_order() {
    let mut st = LockState::new();
    let names = RefCell::new(Vec::new());
    let n = resolve(
        &mut st,
        0x40,
        |a: usize| vec![sym("inner", 3, a), sym("outer", 9, a - 8)],
        |s: &Symbol| names.borrow_mut().push(s.name().unwrap().as_bytes().to_vec()),
    );
    assert_eq!(n, 2);
    assert_eq!(*names.borrow(), vec![b"inner".to_vec(), b"outer".to_vec()]);
}

#[test]
fn resolve_while_holding_lock_visits_nothing() {
    let mut st = LockState { held: true };
    let n = resolve(&mut st, 0x40, |a: usize| vec![sym("f", 1, a)], |_s: &Symbol| {});
    assert_eq!(n, 0);
    assert!(st.held);
}

#[test]
fn symbol_keeps_missing_fields_empty() {
    let s = Symbol::new(Some(b"main".to_vec()), None, None, 0x10);
    assert_eq!(s.name().unwrap().as_bytes(), b"main");
    assert!(s.filename().is_none());
    assert!(s.lineno().is_none());
    assert_eq!(s.addr(), 0x10);
}

#[test]
fn demangle_plain_cpp_name() {
    assert_eq!(demangle(b"_Z3fooi"), b"foo(int)".to_vec());
}

#[test]
fn demangle_void_parameter_list() {
    assert_eq!(demangle(b"_Z3foov"), b"foo()".to_vec());
}

#[test]
fn demangle_several_parameters() {
    assert_eq!(demangle(b"_Z5blendicm"), b"blend(int, char, unsigned long)".to_vec());
}

#[test]
fn demangle_nested_name() {
    assert_eq!(demangle(b"_ZN3foo3barE"), b"foo::bar".to_vec());
    assert_eq!(
        demangle(b"_ZN4core3fmt5writeEij"),
        b"core::fmt::write(int, unsigned int)".to_vec()
    );
}

#[test]
fn demangle_long_length_prefix() {
    assert_eq!(
        demangle(b"_ZN12abcdefghijkl3xyzE"),
        b"abcdefghijkl::xyz".to_vec()
    );
}

#[test]
fn demangle_passes_through_unrecognised_input() {
    let cases: [&[u8]; 12] = [
        b"",
        b"main",
        b"_Z",
        b"_Z3fo",
        b"_Z3foo",
        b"_Z03fooi",
        b"_ZN3fooE",
        b"_ZN3foo3bar",
        b"_Z3fooq",
        b"_Z99999999999999999999999999999999fooi",
        b"foo::bar(int)",
        b"_ZN3foo3barE(",
    ];
    for s in cases {
        assert_eq!(demangle(s), s.to_vec());
    }
}

#[test]
fn demangle_long_garbage_unchanged() {
    let mut g = b"_ZN".to_vec();
    g.extend(std::iter::repeat(b'9').take(100_000));
    assert_eq!(demangle(&g), g);
    let junk: Vec<u8> = (0..50_000u32).map(|i| (i * 7 % 251) as u8).collect();
    assert_eq!(demangle(&junk), junk);
}

#[test]
fn demangle_twice_same_as_once() {
    let cases: [&[u8]; 5] = [b"_Z3fooi", b"_ZN3foo3barE", b"hello", b"_Z3foov", b"_ZN1a1bEhs"];
    for s in cases {
        let once = demangle(s);
        assert_eq!(demangle(&once), once);
    }
}

#[test]
fn symbol_name_demangles_on_request() {
    let n = SymbolName::new(b"_ZN5outer5innerEv".to_vec());
    assert_eq!(n.as_bytes(), b"_ZN5outer5innerEv");
    assert_eq!(n.demangled(), b"outer::inner()".to_vec());
}

#[test]
fn capture_copies_frames_and_symbols_in_order() {
    let mut st = LockState::new();
    let bt = Backtrace::capture(&mut st, || walk_of(4), 1, |a: usize| {
        vec![sym("innermost", 1, a), sym("middle", 2, a), sym("outermost", 3, a)]
    });
    assert!(!st.held);
    let frames = bt.frames();
    assert_eq!(frames.len(), 3);
    for (k, f) in frames.iter().enumerate() {
        assert_eq!(f.ip(), frame(k + 2).ip);
        assert_eq!(f.sp(), frame(k + 2).sp);
        assert_eq!(f.symbol_address(), frame(k + 2).symbol_address);
        let names: Vec<Vec<u8>> = f.symbols().iter().map(|s| s.name().unwrap()).collect();
        assert_eq!(names, vec![b"innermost".to_vec(), b"middle".to_vec(), b"outermost".to_vec()]);
        assert_eq!(f.symbols()[1].lineno(), Some(2));
        assert_eq!(f.symbols()[2].filename(), Some(b"lib.rs".to_vec()));
        assert_eq!(f.symbols()[0].addr(), frame(k + 2).symbol_address);
    }
}

#[test]
fn capture_with_lock_held_is_empty() {
    let mut st = LockState::new();
    let g = lock(&mut st).unwrap();
    let bt = Backtrace::capture(&mut st, || walk_of(4), 0, |a: usize| vec![sym("f", 1, a)]);
    assert_eq!(bt.frames().len(), 0);
    assert!(st.held);
    g.release(&mut st);
}

#[test]
fn capture_twice_in_a_row_both_succeed() {
    let mut st = LockState::new();
    let a = Backtrace::capture(&mut st, || walk_of(5), 1, |_a: usize| Vec::new());
    let b = Backtrace::capture(&mut st, || walk_of(5), 1, |_a: usize| Vec::new());
    assert_eq!(a.frames().len(), 4);
    assert_eq!(b.frames().len(), 4);
    assert!(a.frames()[0].symbols().is_empty());
    assert!(!st.held);
}

#[test]
fn capture_at_known_depth() {
    let depth = 7usize;
    let machinery = 2usize;
    let mut st = LockState::new();
    let bt = Backtrace::capture(&mut st, || walk_of(depth + machinery + 1), machinery, |_a: usize| Vec::new());
    assert!(bt.frames().len() >= depth);
    assert_eq!(bt.frames()[0].symbol_address(), frame(machinery + 1).symbol_address);
}

#[test]
fn from_walk_matches_capture() {
    let raw = walk_of(3);
    let syms = vec![vec![sym("a", 1, 1)], vec![]];
    let bt = Backtrace::from_walk(&raw, 1, &syms);
    assert_eq!(bt.frames().len(), 2);
    assert_eq!(bt.frames()[0].ip(), frame(2).ip);
    assert_eq!(bt.frames()[0].symbols().len(), 1);
    assert_eq!(bt.frames()[1].symbols().len(), 0);
    assert_eq!(Backtrace::empty().frames().len(), 0);
}

#[test]
fn trace_always_true_visitor_sees_every_frame() {
    let mut st = LockState::new();
    let seen = RefCell::new(Vec::new());
    let n = trace(&mut st, || walk_of(5), 0, |f: &Frame| {
        seen.borrow_mut().push(f.ip());
        true
    });
    assert_eq!(n, 5);
    assert_eq!(*seen.borrow(), walk_of(5).iter().map(|f| f.ip).collect::<Vec<_>>());
}

#[test]
fn resolve_hands_over_symbol_without_file_or_line() {
    let mut st = LockState::new();
    let seen = RefCell::new(Vec::new());
    let n = resolve(
        &mut st,
        0x80,
        |a: usize| vec![Symbol::new(Some(b"bare".to_vec()), None, None, a)],
        |s: &Symbol| seen.borrow_mut().push((s.name().unwrap().as_bytes().to_vec(), s.filename(), s.lineno(), s.addr())),
    );
    assert_eq!(n, 1);
    assert_eq!(*seen.borrow(), vec![(b"bare".to_vec(), None, None, 0x80)]);
}

#[test]
fn demangle_rust_escapes() {
    assert_eq!(
        demangle(b"_ZN4core3ptr46drop_in_place$LT$alloc..vec..Vec$LT$u8$GT$$GT$E"),
        b"core::ptr::drop_in_place<alloc::vec::Vec<u8>>".to_vec()
    );
    assert_eq!(
        demangle(b"_ZN42_$LT$$RF$T$u20$as$u20$core..fmt..Debug$GT$3fmtE"),
        b"_<&T as core::fmt::Debug>::fmt".to_vec()
    );
    assert_eq!(demangle(b"_ZN3map9$BP$a$C$b1fE"), b"map::*a,b::f".to_vec());
    assert_eq!(demangle(b"_ZN3a$X1bE"), b"a$X::b".to_vec());
}

#[test]
fn demangle_escaped_output_twice_same_as_once() {
    let once = demangle(b"_ZN4core3ptr23drop_in_place$LT$u8$GT$E");
    assert_eq!(demangle(&once), once);
}

#[test]
fn captured_symbol_has_demangled_name() {
    let mut st = LockState::new();
    let bt = Backtrace::capture(&mut st, || walk_of(2), 0, |a: usize| {
        vec![sym("_ZN3foo3barE", 4, a), Symbol::new(None, None, None, a)]
    });
    let s = bt.frames()[0].symbols();
    assert_eq!(s[0].demangled_name(), Some(b"foo::bar".to_vec()));
    assert_eq!(s[0].name(), Some(b"_ZN3foo3barE".to_vec()));
    assert_eq!(s[1].demangled_name(), None);
}
