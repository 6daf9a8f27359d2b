use lib::effects::{compile, Cont, Value};
use lib::syntax::{Atom, BuiltIn, Expr};

fn num(n: usize) -> Expr {
    Expr::Constant(Atom::Num(n))
}

fn kw(s: &str) -> Expr {
    Expr::Constant(Atom::Keyword(s.to_string()))
}

fn plus(a: Expr, b: Expr) -> Expr {
    Expr::Application(Box::new(Expr::Constant(Atom::BuiltIn(BuiltIn::Plus))), vec![a, b])
}

fn resume(c: Expr, r: Expr) -> Expr {
    Expr::Resume(Box::new(c), Box::new(r))
}

fn handle(e: Expr, r: Expr, b: Expr) -> Expr {
    Expr::Handle(Box::new(e), Box::new(r), Box::new(b))
}

fn raise(e: Expr) -> Expr {
    Expr::Raise(Box::new(e))
}

/// Compiles and runs a program twice; both runs agree.
fn run_twice(e: &Expr) -> Value {
    let p = compile(e, Cont::Done);
    let one = p.run();
    let two = p.run();
    assert!(one == two);
    one
}

fn one_shot(e: &Expr) -> Value {
    compile(e, Cont::Done).run()
}

fn check(e: Expr, gold: Option<Expr>) {
    let v = run_twice(&e);
    if let Some(g) = gold {
        assert!(v == one_shot(&g));
    }
}

#[test]
fn golden_number() {
    check(num(1), None);
    assert!(one_shot(&num(1)) == Value::Atom(Atom::Num(1)));
}

#[test]
fn golden_plus() {
    check(plus(num(1), num(2)), None);
    assert!(one_shot(&plus(num(1), num(2))) == Value::Atom(Atom::Num(3)));
}

#[test]
fn golden_nested_plus_left() {
    check(plus(plus(num(1), num(2)), num(3)), Some(num(6)));
}

#[test]
fn golden_nested_plus_right() {
    check(plus(num(1), plus(num(2), num(3))), Some(num(6)));
}

#[test]
fn golden_suspend() {
    check(Expr::Suspend, None);
    assert!(matches!(one_shot(&Expr::Suspend), Value::Coroutine(Cont::Done)));
}

#[test]
fn golden_resume_suspend() {
    check(resume(Expr::Suspend, num(1)), Some(num(1)));
}

#[test]
fn golden_resume_left_suspend() {
    check(resume(plus(Expr::Suspend, num(2)), num(1)), Some(num(3)));
}

#[test]
fn golden_resume_right_suspend() {
    check(resume(plus(num(1), Expr::Suspend), num(2)), Some(num(3)));
}

#[test]
fn golden_resume_two_suspends() {
    check(resume(resume(plus(Expr::Suspend, Expr::Suspend), num(1)), num(2)), Some(num(3)));
}

#[test]
fn golden_resume_suspend_with_suspend() {
    check(
        resume(resume(Expr::Suspend, Expr::Suspend), plus(num(1), num(2))),
        Some(num(3)),
    );
}

#[test]
fn golden_resume_nested_suspends() {
    check(
        resume(resume(plus(plus(num(1), Expr::Suspend), Expr::Suspend), num(2)), num(3)),
        Some(num(6)),
    );
}

#[test]
fn golden_resume_number() {
    check(resume(num(1), Expr::Suspend), Some(num(1)));
}

#[test]
fn golden_keyword() {
    check(kw("a"), None);
    assert!(one_shot(&kw("a")) == Value::Atom(Atom::Keyword("a".to_string())));
}

#[test]
fn golden_handle_other_effect() {
    check(resume(handle(kw("foo"), num(1), raise(kw("bar"))), num(2)), Some(num(2)));
}

#[test]
fn golden_handle_same_effect() {
    check(resume(handle(kw("foo"), num(1), raise(kw("foo"))), num(2)), Some(num(1)));
}

#[test]
fn golden_inner_handler_catches() {
    check(
        resume(handle(kw("foo"), num(1), handle(kw("bar"), num(2), raise(kw("bar")))), num(3)),
        Some(num(2)),
    );
}

#[test]
fn golden_outer_handler_catches() {
    check(
        resume(handle(kw("foo"), num(1), handle(kw("bar"), num(2), raise(kw("foo")))), num(3)),
        Some(num(1)),
    );
}

#[test]
fn quote_stays_unevaluated() {
    let q = Expr::Quote(vec![plus(num(1), num(2))]);
    match one_shot(&q) {
        Value::Quote(es) => {
            assert_eq!(es.len(), 1);
            assert!(es[0].same(&plus(num(1), num(2))));
        }
        _ => panic!("expected a quotation"),
    }
}

#[test]
fn values_compare() {
    assert!(Value::Coroutine(Cont::Done) == Value::Coroutine(Cont::Handler(Box::new(num(1)))));
    assert!(Value::Atom(Atom::Num(1)) != Value::Atom(Atom::Num(2)));
    assert!(Value::Atom(Atom::Num(1)) != Value::Quote(vec![]));
    assert!(Value::Quote(vec![num(1)]) == Value::Quote(vec![num(1)]));
}

#[test]
fn handler_body_finishing_passes_value_on() {
    check(handle(kw("foo"), num(1), num(7)), Some(num(7)));
}

#[test]
fn raise_without_handler_suspends() {
    check(resume(raise(kw("foo")), num(4)), Some(num(4)));
}

#[test]
fn handler_result_evaluated_fresh() {
    check(resume(handle(kw("foo"), plus(num(2), num(3)), raise(kw("foo"))), num(0)), Some(num(5)));
}

#[test]
fn compile_refuses_if() {
    let e = Expr::IfElse(Box::new(num(1)), Box::new(num(2)), Box::new(num(3)));
    assert!(lib::effects::try_compile(&e, Cont::Done).is_none());
}

#[test]
fn compile_refuses_if_in_argument() {
    let e = plus(num(1), Expr::IfElse(Box::new(num(1)), Box::new(num(2)), Box::new(num(3))));
    assert!(lib::effects::try_compile(&e, Cont::Done).is_none());
}

#[test]
fn compile_keeps_if_in_quote() {
    let e = Expr::Quote(vec![Expr::IfElse(Box::new(num(1)), Box::new(num(2)), Box::new(num(3)))]);
    assert!(lib::effects::try_compile(&e, Cont::Done).is_some());
}

#[test]
fn compile_refuses_non_keyword_effects() {
    assert!(lib::effects::try_compile(&raise(num(1)), Cont::Done).is_none());
    assert!(lib::effects::try_compile(&handle(num(1), num(2), num(3)), Cont::Done).is_none());
    assert!(lib::effects::try_compile(&raise(kw("x")), Cont::Done).is_some());
}

#[test]
fn run_refuses_wrong_applications() {
    let minus = Expr::Application(Box::new(num(1)), vec![num(1), num(2)]);
    assert!(compile(&minus, Cont::Done).try_run().is_none());
    let three = Expr::Application(
        Box::new(Expr::Constant(Atom::BuiltIn(BuiltIn::Plus))),
        vec![num(1), num(2), num(3)],
    );
    assert!(compile(&three, Cont::Done).try_run().is_none());
    let none = Expr::Application(Box::new(Expr::Constant(Atom::BuiltIn(BuiltIn::Plus))), vec![]);
    assert!(compile(&none, Cont::Done).try_run().is_none());
    assert!(compile(&plus(num(usize::MAX), num(1)), Cont::Done).try_run().is_none());
    assert!(compile(&plus(kw("a"), num(1)), Cont::Done).try_run().is_none());
}

#[test]
fn resume_value_skips_argument() {
    // The argument would go wrong, but it is never evaluated.
    let bad = plus(kw("a"), num(1));
    check(resume(num(5), bad), Some(num(5)));
}

#[test]
fn resume_suspend_gives_argument() {
    check(resume(Expr::Suspend, plus(num(20), num(22))), Some(num(42)));
}

#[test]
fn handler_catch_gives_result() {
    check(resume(handle(kw("e"), plus(num(4), num(4)), raise(kw("e"))), num(100)), Some(num(8)));
}

#[test]
fn handler_passes_other_effect() {
    check(resume(handle(kw("e"), num(8), raise(kw("f"))), plus(num(50), num(50))), Some(num(100)));
}

#[test]
fn suspend_in_application_captures_rest() {
    match one_shot(&plus(Expr::Suspend, num(2))) {
        Value::Coroutine(Cont::Arg(_, done, rem, _)) => {
            assert_eq!(done.len(), 0);
            assert_eq!(rem.len(), 1);
        }
        _ => panic!("expected the coroutine of the argument"),
    }
}

#[test]
fn copies_compare_equal() {
    let e = handle(kw("x"), Expr::Quote(vec![num(1)]), plus(num(1), num(2)));
    assert!(e.duplicate().same(&e));
    let v = one_shot(&plus(Expr::Suspend, num(2)));
    assert!(v.duplicate() == v);
}

#[test]
fn compiled_effect_names_are_folded() {
    // The handler's effect is computed, not written as a keyword.
    let computed = resume(Expr::Suspend, kw("foo"));
    check(resume(handle(computed, num(1), raise(kw("foo"))), num(2)), Some(num(1)));
    let computed = resume(Expr::Suspend, kw("bar"));
    check(resume(handle(kw("foo"), num(1), raise(computed)), num(2)), Some(num(2)));
}

#[test]
fn compiled_coroutine_keeps_handler() {
    let body = plus(Expr::Suspend, num(1));
    let e = handle(resume(Expr::Suspend, kw("foo")), num(9), body);
    match one_shot(&e) {
        Value::Coroutine(Cont::Arg(_, _, _, k)) => match *k {
            Cont::Handle(name, _, _) => assert_eq!(name, "foo"),
            _ => panic!("expected the handler below the argument"),
        },
        _ => panic!("expected the coroutine of the argument"),
    }
}

#[test]
fn value_text() {
    assert_eq!(Value::Atom(Atom::Num(3)).describe(), "Num(3)");
    assert_eq!(Value::Atom(Atom::BuiltIn(BuiltIn::Plus)).describe(), "BuiltIn(Plus)");
    assert_eq!(Value::Atom(Atom::Keyword("a".to_string())).describe(), "Keyword(\"a\")");
    assert_eq!(Value::Atom(Atom::Keyword("q\"".to_string())).describe(), "Keyword(\"q\\\"\")");
    let q = Value::Quote(vec![plus(num(1), num(2)), kw("a"), Expr::Suspend]);
    assert_eq!(q.describe(), "((+ 1 2) :a suspend)");
    assert_eq!(Value::Quote(vec![]).describe(), "()");
    let c = Value::Coroutine(Cont::Done).describe();
    assert!(c.starts_with("<coroutine 0x") && c.ends_with(">"));
}

#[test]
fn expression_text() {
    assert_eq!(resume(plus(Expr::Suspend, num(2)), num(1)).describe(), "resume (+ suspend 2) 1");
    assert_eq!(
        resume(handle(kw("foo"), num(1), handle(kw("bar"), num(2), raise(kw("foo")))), num(3))
            .describe(),
        "resume handle :foo 1 handle :bar 2 raise :foo 3"
    );
    assert_eq!(plus(plus(num(10), num(2)), num(305)).describe(), "(+ (+ 10 2) 305)");
    assert_eq!(Expr::Quote(vec![num(1), kw("b")]).describe(), "'(1 :b)");
    assert_eq!(
        Expr::IfElse(Box::new(num(1)), Box::new(num(2)), Box::new(num(3))).describe(),
        "if 1 2 3"
    );
}
