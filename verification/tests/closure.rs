use lib::closure::{compile, Compiled, Cont, Expr, Value};
use std::rc::Rc;
use lib::tree::Expr as T;

fn num(n: usize) -> Rc<Expr> {
    Rc::new(Expr::Number(n))
}

fn number_of(v: Value) -> usize {
    match v {
        Value::Number(n) => n,
        Value::Coroutine(_) => panic!("expected a number"),
    }
}

#[test]
fn compiled_addition_runs() {
    let e = Expr::Add(num(1), num(2));
    let code = compile(&e, Cont::Done);
    assert!(matches!(code, Compiled::Constant(3)));
    assert_eq!(number_of(code.run()), 3);
}

#[test]
fn compiled_left_suspend_resumes() {
    let e = Expr::Resume(Rc::new(Expr::Add(Rc::new(Expr::Suspend), num(2))), num(1));
    assert_eq!(number_of(compile(&e, Cont::Done).run()), 3);
}

#[test]
fn compiled_right_suspend_resumes() {
    let e = Expr::Resume(Rc::new(Expr::Add(num(1), Rc::new(Expr::Suspend))), num(2));
    assert_eq!(number_of(compile(&e, Cont::Done).run()), 3);
}

#[test]
fn compiled_suspend_waits_for_running() {
    let e = Expr::Add(Rc::new(Expr::Suspend), num(2));
    let code = compile(&e, Cont::Done);
    assert!(matches!(code, Compiled::Suspended(Cont::AddLeft(_))));
    assert!(matches!(code.run(), Value::Coroutine(Cont::AddLeft(_))));
}

#[test]
fn compiled_program_runs_twice_alike() {
    let e = Expr::Resume(Rc::new(Expr::Add(num(4), Rc::new(Expr::Suspend))), num(5));
    let code = compile(&e, Cont::Done);
    assert_eq!(number_of(code.run()), 9);
    assert_eq!(number_of(code.run()), 9);
}

#[test]
fn compiled_code_goes_to_continuation() {
    let e = Expr::Number(4);
    assert_eq!(number_of(compile(&e, Cont::AddRight(6)).run()), 10);
}

#[test]
fn compiler_refuses_adding_a_coroutine() {
    let e = Expr::Add(num(1), Rc::new(Expr::Suspend));
    assert!(lib::closure::try_compile(&e, Cont::AddLeft(num(1))).is_none());
}

#[test]
fn compiler_refuses_overflowing_sum() {
    let e = Expr::Add(num(usize::MAX), num(2));
    assert!(lib::closure::try_compile(&e, Cont::Done).is_none());
}

#[test]
fn compiler_refuses_resuming_a_number() {
    let e = Expr::Resume(num(1), num(2));
    assert!(lib::closure::try_compile(&e, Cont::Done).is_none());
}

fn walker_number(e: &lib::tree::Expr) -> usize {
    match lib::tree::eval(e, lib::tree::Cont::Done) {
        lib::tree::Value::Number(n) => n,
        lib::tree::Value::Coroutine(_) => panic!("expected a number"),
    }
}

#[test]
fn compiler_agrees_with_walker() {
    let c = Expr::Resume(
        Rc::new(Expr::Add(Rc::new(Expr::Suspend), Rc::new(Expr::Add(num(2), num(3))))),
        num(7),
    );
    let t = T::Resume(
        Box::new(T::Add(
            Box::new(T::Suspend),
            Box::new(T::Add(Box::new(T::Number(2)), Box::new(T::Number(3)))),
        )),
        Box::new(T::Number(7)),
    );
    assert_eq!(number_of(compile(&c, Cont::Done).run()), walker_number(&t));
    assert_eq!(walker_number(&t), 12);
}

#[test]
fn compiler_and_walker_refuse_alike() {
    let c = Expr::Resume(Rc::new(Expr::Add(Rc::new(Expr::Add(num(1), Rc::new(Expr::Suspend))), num(5))), num(7));
    let t = T::Resume(
        Box::new(T::Add(
            Box::new(T::Add(Box::new(T::Number(1)), Box::new(T::Suspend))),
            Box::new(T::Number(5)),
        )),
        Box::new(T::Number(7)),
    );
    assert!(lib::closure::try_compile(&c, Cont::Done).is_none());
    assert!(lib::tree::try_eval(&t, lib::tree::Cont::Done).is_none());
}

#[test]
fn compiler_folds_sum_into_continuation() {
    let e = Expr::Add(Rc::new(Expr::Add(num(1), num(2))), num(3));
    assert!(matches!(compile(&e, Cont::AddRight(4)), Compiled::Constant(10)));
    assert!(matches!(compile(&e, Cont::Done), Compiled::Constant(6)));
}

#[test]
fn compiler_value_text() {
    assert_eq!(Value::Number(42).describe(), "42");
    let t = Value::Coroutine(Cont::Done).describe();
    assert!(t.starts_with("<coroutine 0x"));
    assert!(t.ends_with(">"));
    assert!(t.len() > "<coroutine 0x>".len());
}
