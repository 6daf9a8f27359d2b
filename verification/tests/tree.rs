use lib::tree::{eval, Cont, Expr, Value};

fn num(n: usize) -> Box<Expr> {
    Box::new(Expr::Number(n))
}

fn number_of(v: Value) -> usize {
    match v {
        Value::Number(n) => n,
        Value::Coroutine(_) => panic!("expected a number"),
    }
}

#[test]
fn walker_adds_numbers() {
    let e = Expr::Add(num(1), num(2));
    assert_eq!(number_of(eval(&e, Cont::Done)), 3);
}

#[test]
fn walker_resumes_left_suspend() {
    let e = Expr::Resume(Box::new(Expr::Add(Box::new(Expr::Suspend), num(2))), num(1));
    assert_eq!(number_of(eval(&e, Cont::Done)), 3);
}

#[test]
fn walker_resumes_right_suspend() {
    let e = Expr::Resume(Box::new(Expr::Add(num(1), Box::new(Expr::Suspend))), num(2));
    assert_eq!(number_of(eval(&e, Cont::Done)), 3);
}

#[test]
fn walker_suspend_gives_coroutine() {
    let e = Expr::Add(Box::new(Expr::Suspend), num(2));
    match eval(&e, Cont::Done) {
        Value::Coroutine(Cont::AddLeft(r)) => assert!(matches!(*r, Expr::Number(2))),
        _ => panic!("expected the coroutine of the addition"),
    }
}

#[test]
fn walker_resumes_twice() {
    let inner = Expr::Add(Box::new(Expr::Suspend), Box::new(Expr::Suspend));
    let e = Expr::Resume(Box::new(Expr::Resume(Box::new(inner), num(1))), num(2));
    assert_eq!(number_of(eval(&e, Cont::Done)), 3);
}

#[test]
fn walker_hands_value_to_continuation() {
    let e = Expr::Number(2);
    assert_eq!(number_of(eval(&e, Cont::AddRight(5))), 7);
}

#[test]
fn walker_suspend_captures_resumption() {
    // The coroutine of a resumption is evaluated against the continuation
    // that resumes it, so a bare `suspend` captures that continuation.
    let e = Expr::Resume(Box::new(Expr::Suspend), num(9));
    match eval(&e, Cont::Done) {
        Value::Coroutine(Cont::ResumeLeft(r)) => assert!(matches!(*r, Expr::Number(9))),
        _ => panic!("expected the coroutine of the resumption"),
    }
}

#[test]
fn walker_nested_additions() {
    let e = Expr::Add(Box::new(Expr::Add(num(1), num(2))), Box::new(Expr::Add(num(3), num(4))));
    assert_eq!(number_of(eval(&e, Cont::Done)), 10);
}

#[test]
fn walker_value_copies() {
    let v = Value::Coroutine(Cont::AddRight(4));
    match v.duplicate() {
        Value::Coroutine(Cont::AddRight(4)) => {}
        _ => panic!("copy differs"),
    }
}

#[test]
fn walker_refuses_adding_a_coroutine() {
    let e = Expr::Add(Box::new(Expr::Suspend), num(1));
    let r = lib::tree::try_eval(&e, Cont::AddRight(1));
    assert!(r.is_none());
}

#[test]
fn walker_refuses_overflowing_sum() {
    let e = Expr::Add(num(usize::MAX), num(1));
    assert!(lib::tree::try_eval(&e, Cont::Done).is_none());
}

#[test]
fn walker_refuses_resuming_a_number() {
    let e = Expr::Resume(num(1), num(2));
    assert!(lib::tree::try_eval(&e, Cont::Done).is_none());
}

#[test]
fn walker_checked_agrees_with_eval() {
    let e = Expr::Resume(Box::new(Expr::Add(num(3), Box::new(Expr::Suspend))), num(4));
    let a = lib::tree::try_eval(&e, Cont::Done).map(number_of);
    let b = number_of(eval(&e, Cont::Done));
    assert_eq!(a, Some(b));
    assert_eq!(b, 7);
}

#[test]
fn walker_addition_unfolds() {
    // eval (l + r) k is k applied to eval l (AddLeft r).
    let l = Expr::Add(num(2), num(3));
    let r = num(4);
    let whole = Expr::Add(Box::new(Expr::Add(num(2), num(3))), Box::new(Expr::Number(4)));
    let left = eval(&l, Cont::AddLeft(r));
    let staged = number_of(eval(&Expr::Number(number_of(left)), Cont::AddRight(10)));
    assert_eq!(number_of(eval(&whole, Cont::AddRight(10))), staged);
    assert_eq!(staged, 19);
}

#[test]
fn walker_value_text() {
    assert_eq!(Value::Number(0).describe(), "0");
    assert_eq!(Value::Number(7).describe(), "7");
    assert_eq!(Value::Number(305).describe(), "305");
    assert_eq!(Value::Number(1000).describe(), "1000");
    assert_eq!(Value::Coroutine(Cont::Done).describe(), "<coroutine>");
}

#[test]
fn walker_sum_goes_to_continuation() {
    let e = Expr::Add(Box::new(Expr::Add(num(1), num(2))), num(3));
    assert_eq!(number_of(eval(&e, Cont::AddRight(4))), 10);
}
