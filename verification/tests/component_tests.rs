//! Tests of the register pool, the symbol table, the token generators,
//! and the expression nodes.

use sysyc::ast::{Exp, Number};
use sysyc::reg_manager::RegManager;
use sysyc::symtab::{SymTab, Symbol};
use sysyc::token_generator::TokenGenerator;

#[test]
fn pool_allocates_in_priority_order() {
    let mut pool = RegManager::new();
    // t1, t2, s1, then s2 onward.
    assert_eq!(pool.allocate(0, None), 6);
    assert_eq!(pool.allocate(1, None), 7);
    assert_eq!(pool.allocate(2, None), 9);
    assert_eq!(pool.allocate(3, None), 18);
    assert_eq!(pool.reg(2), 9);
    pool.free(1, 7);
    assert_eq!(pool.allocate(4, None), 7);
}

#[test]
fn pool_requested_register_and_reset() {
    let mut pool = RegManager::new();
    assert_eq!(pool.allocate(5, Some(10)), 10);
    assert!(!pool.is_free(10));
    assert_eq!(pool.value(10), 5);
    pool.reset();
    assert!(pool.is_free(10));
}

#[test]
fn pool_move_to_free_register_and_swap() {
    let mut pool = RegManager::new();
    pool.allocate(1, None);
    // Move into a free register: no swap.
    assert!(!pool.move_to(6, 10));
    assert_eq!(pool.reg(1), 10);
    // Move into an occupied register: the occupant is exchanged.
    pool.allocate(2, Some(11));
    assert!(pool.move_to(10, 11));
    assert_eq!(pool.reg(1), 11);
    assert_eq!(pool.reg(2), 10);
}

#[test]
fn pool_free_of_zero_register_is_noop() {
    let mut pool = RegManager::new();
    pool.free(7, 0);
    assert_eq!(pool.regs().len(), 0);
}

#[test]
fn symtab_insert_get_replace() {
    let mut tab = SymTab::new();
    assert!(tab.get(&String::from("a")).is_none());
    tab.insert(String::from("a"), Symbol::ConstInt { token: String::from("@a_0"), value: 3 });
    match tab.get(&String::from("a")) {
        Some(Symbol::ConstInt { token, value }) => {
            assert_eq!(token, "@a_0");
            assert_eq!(*value, 3);
        },
        _ => panic!("missing symbol"),
    }
    // A second insert under the same identifier replaces the symbol.
    tab.insert(String::from("a"), Symbol::Int { token: String::from("@a_1") });
    match tab.get(&String::from("a")) {
        Some(Symbol::Int { token }) => assert_eq!(token, "@a_1"),
        _ => panic!("symbol not replaced"),
    }
    assert!(tab.get(&String::from("b")).is_none());
}

#[test]
fn token_generator_counts_from_zero() {
    let mut gen = TokenGenerator::new("%");
    assert_eq!(gen.peek(), "%0");
    assert_eq!(gen.generate(), "%0");
    assert_eq!(gen.generate(), "%1");
    assert_eq!(gen.peek(), "%2");
    gen.reset();
    assert_eq!(gen.generate(), "%0");
}

#[test]
fn token_generator_multi_digit() {
    let mut gen = TokenGenerator::new("L");
    for _ in 0..12 {
        gen.generate();
    }
    assert_eq!(gen.generate(), "L12");
}

#[test]
fn exp_number_round_trip() {
    let e = Exp::from_number(41);
    assert_eq!(e.value(), 41);
    let mut e2 = Exp::from_number(0);
    e2.set_value(-7);
    assert_eq!(e2.value(), -7);
    match e2 {
        Exp::Number(Number(v)) => assert_eq!(v, -7),
        _ => panic!("not a number"),
    }
}
