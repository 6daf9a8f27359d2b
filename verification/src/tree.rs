//! A continuation-passing tree walker for numbers, addition and coroutines.
//!
//! The continuations of the walker are first-order values ([`Cont`]), so a
//! suspended computation is plain data. Evaluation runs an abstract machine
//! whose control is either an expression to evaluate against a continuation
//! or a value to hand to a continuation, and whose stack holds the
//! continuations that the enclosing additions and resumptions still owe
//! their results to.
use vstd::prelude::*;
use crate::text::{decimal, decimal_text};

verus! {

/// Expressions of the language.
#[derive(Debug)]
pub enum Expr {
    Number(usize),
    Add(Box<Expr>, Box<Expr>),
    Suspend,
    Resume(Box<Expr>, Box<Expr>),
}

/// A continuation: what is done with the value of an expression.
pub enum Cont {
    /// Hand the value back.
    Done,
    /// The left operand of an addition was computed; the right one is next.
    AddLeft(Box<Expr>),
    /// Both operands are known but the right one; add it to this number.
    AddRight(usize),
    /// The coroutine of a resumption was computed; the argument is next.
    ResumeLeft(Box<Expr>),
    /// Resume this suspended continuation with the value.
    ResumeRight(Box<Cont>),
}

/// Values: numbers, and coroutines that wait for a value to resume with.
pub enum Value {
    Number(usize),
    Coroutine(Cont),
}

/// The control of the machine.
pub enum Control {
    Eval(Expr, Cont),
    Apply(Cont, Value),
}

/// What one step of the machine does.
pub enum Step {
    Next(Control, Seq<Cont>),
    Finished(Value),
    Stuck,
}

/// The result of one executed step.
pub enum Transition {
    Next(Control),
    Stuck,
    Finished(Value),
}

pub open spec fn expr_size(e: Expr) -> nat
    decreases e,
{
    match e {
        Expr::Number(_) => 1,
        Expr::Suspend => 1,
        Expr::Add(l, r) => expr_size(*l) + expr_size(*r) + 3,
        Expr::Resume(c, r) => expr_size(*c) + expr_size(*r) + 3,
    }
}

pub open spec fn cont_size(k: Cont) -> nat
    decreases k,
{
    match k {
        Cont::Done => 1,
        Cont::AddLeft(r) => expr_size(*r) + 2,
        Cont::AddRight(_) => 1,
        Cont::ResumeLeft(r) => expr_size(*r) + 2,
        Cont::ResumeRight(kc) => cont_size(*kc) + 1,
    }
}

pub open spec fn value_size(v: Value) -> nat {
    match v {
        Value::Number(_) => 0,
        Value::Coroutine(k) => cont_size(k),
    }
}

pub open spec fn stack_size(s: Seq<Cont>) -> nat
    decreases s.len(),
{
    if s.len() == 0 {
        0
    } else {
        stack_size(s.drop_last()) + cont_size(s.last())
    }
}

pub open spec fn measure(c: Control, s: Seq<Cont>) -> nat {
    stack_size(s) + match c {
        Control::Eval(e, k) => expr_size(e) + cont_size(k),
        Control::Apply(k, v) => cont_size(k) + value_size(v),
    }
}

/// Hands a finished value to the innermost continuation on the stack.
pub open spec fn give_back(v: Value, s: Seq<Cont>) -> Step {
    if s.len() == 0 {
        Step::Finished(v)
    } else {
        Step::Next(Control::Apply(s.last(), v), s.drop_last())
    }
}

/// One step of the machine.
pub open spec fn step(c: Control, s: Seq<Cont>) -> Step {
    match c {
        Control::Eval(e, k) => match e {
            Expr::Number(n) => Step::Next(Control::Apply(k, Value::Number(n)), s),
            Expr::Add(l, r) => Step::Next(Control::Eval(*l, Cont::AddLeft(r)), s.push(k)),
            Expr::Suspend => give_back(Value::Coroutine(k), s),
            Expr::Resume(c, r) => Step::Next(Control::Eval(*c, Cont::ResumeLeft(r)), s.push(k)),
        },
        Control::Apply(k, v) => match k {
            Cont::Done => give_back(v, s),
            Cont::AddLeft(r) => match v {
                Value::Number(n) => Step::Next(Control::Eval(*r, Cont::AddRight(n)), s),
                Value::Coroutine(_) => Step::Stuck,
            },
            Cont::AddRight(n) => match v {
                Value::Number(m) => if n + m <= usize::MAX {
                    give_back(Value::Number((n + m) as usize), s)
                } else {
                    Step::Stuck
                },
                Value::Coroutine(_) => Step::Stuck,
            },
            Cont::ResumeLeft(r) => match v {
                Value::Coroutine(kc) => Step::Next(
                    Control::Eval(*r, Cont::ResumeRight(Box::new(kc))),
                    s,
                ),
                Value::Number(_) => Step::Stuck,
            },
            Cont::ResumeRight(kc) => Step::Next(Control::Apply(*kc, v), s),
        },
    }
}

proof fn lemma_stack_size_push(s: Seq<Cont>, k: Cont)
    ensures
        stack_size(s.push(k)) == stack_size(s) + cont_size(k),
{
    assert(s.push(k).drop_last() =~= s);
}

/// Every step makes the machine smaller.
pub proof fn lemma_step_decreases(c: Control, s: Seq<Cont>)
    ensures
        step(c, s) matches Step::Next(c2, s2) ==> measure(c2, s2) < measure(c, s),
{
    match c {
        Control::Eval(e, k) => match e {
            Expr::Add(l, r) => lemma_stack_size_push(s, k),
            Expr::Resume(cc, r) => lemma_stack_size_push(s, k),
            _ => {},
        },
        _ => {},
    }
}

/// The outcome of running the machine to the end: `None` where it gets stuck.
pub open spec fn run(c: Control, s: Seq<Cont>) -> Option<Value>
    decreases measure(c, s),
{
    match step(c, s) {
        Step::Finished(v) => Some(v),
        Step::Stuck => None,
        Step::Next(c2, s2) => {
            proof {
                lemma_step_decreases(c, s);
            }
            run(c2, s2)
        },
    }
}

/// What evaluating `e` against the continuation `k` gives.
pub open spec fn eval_outcome(e: Expr, k: Cont) -> Option<Value> {
    run(Control::Eval(e, k), Seq::empty())
}

/// What handing `v` to the continuation `k` gives.
pub open spec fn apply_outcome(k: Cont, v: Value) -> Option<Value> {
    run(Control::Apply(k, v), Seq::empty())
}

/// Continues with the value `v` against the stack `s`.
pub open spec fn finish(v: Value, s: Seq<Cont>) -> Option<Value> {
    if s.len() == 0 {
        Some(v)
    } else {
        run(Control::Apply(s.last(), v), s.drop_last())
    }
}

/// Hands an outcome, where there is one, to the continuation `k`.
pub open spec fn and_then(o: Option<Value>, k: Cont) -> Option<Value> {
    match o {
        Some(v) => apply_outcome(k, v),
        None => None,
    }
}

/// A step depends on the stack only through its top: the frames below it
/// are carried along unchanged.
proof fn lemma_step_frame(c: Control, p: Seq<Cont>, q: Seq<Cont>)
    ensures
        match step(c, q) {
            Step::Stuck => step(c, p + q) is Stuck,
            Step::Next(c2, q2) => step(c, p + q) == Step::Next(c2, p + q2),
            Step::Finished(v) => q.len() == 0 && step(c, p + q) == give_back(v, p),
        },
{
    if q.len() == 0 {
        assert(p + q =~= p);
    } else {
        assert((p + q).drop_last() =~= p + q.drop_last());
        assert((p + q).last() == q.last());
    }
    match c {
        Control::Eval(e, k) => {
            assert((p + q).push(k) =~= p + q.push(k));
        },
        Control::Apply(k, v) => {},
    }
}

/// Running with frames `p` below the stack `q` runs against `q` first and
/// then hands the value on to `p`.
pub proof fn lemma_run_frame(c: Control, p: Seq<Cont>, q: Seq<Cont>)
    ensures
        run(c, p + q) == match run(c, q) {
            Some(v) => finish(v, p),
            None => None,
        },
    decreases measure(c, q),
{
    lemma_step_frame(c, p, q);
    lemma_step_decreases(c, q);
    match step(c, q) {
        Step::Stuck => {},
        Step::Next(c2, q2) => {
            lemma_run_frame(c2, p, q2);
        },
        Step::Finished(v) => {},
    }
}

/// Evaluation follows the equations of the continuation-passing walker: a
/// number goes to the continuation; an addition or a resumption hands to
/// its continuation what its first operand gives against the continuation
/// that finishes the form; `suspend` returns a coroutine holding the
/// continuation.
pub proof fn lemma_eval_unfolds(e: Expr, k: Cont)
    ensures
        eval_outcome(e, k) == match e {
            Expr::Number(n) => apply_outcome(k, Value::Number(n)),
            Expr::Add(l, r) => and_then(eval_outcome(*l, Cont::AddLeft(r)), k),
            Expr::Suspend => Some(Value::Coroutine(k)),
            Expr::Resume(c, r) => and_then(eval_outcome(*c, Cont::ResumeLeft(r)), k),
        },
{
    let empty = Seq::<Cont>::empty();
    let one = empty.push(k);
    assert(one + empty =~= one);
    assert(one.drop_last() =~= empty);
    match e {
        Expr::Add(l, r) => {
            lemma_run_frame(Control::Eval(*l, Cont::AddLeft(r)), one, empty);
        },
        Expr::Resume(c, r) => {
            lemma_run_frame(Control::Eval(*c, Cont::ResumeLeft(r)), one, empty);
        },
        _ => {},
    }
}

/// Applying a continuation follows the equations of the walker: `Done`
/// returns the value; the frames of an addition and of a resumption
/// evaluate the next operand, add, or resume the coroutine; anything else
/// goes wrong.
pub proof fn lemma_apply_unfolds(k: Cont, v: Value)
    ensures
        apply_outcome(k, v) == match k {
            Cont::Done => Some(v),
            Cont::AddLeft(r) => match v {
                Value::Number(n) => eval_outcome(*r, Cont::AddRight(n)),
                Value::Coroutine(_) => None,
            },
            Cont::AddRight(n) => match v {
                Value::Number(m) => if n + m <= usize::MAX {
                    Some(Value::Number((n + m) as usize))
                } else {
                    None
                },
                Value::Coroutine(_) => None,
            },
            Cont::ResumeLeft(r) => match v {
                Value::Coroutine(kc) => eval_outcome(*r, Cont::ResumeRight(Box::new(kc))),
                Value::Number(_) => None,
            },
            Cont::ResumeRight(kc) => apply_outcome(*kc, v),
        },
{
}

/// The number that a sum of numbers comes to, where it fits in `usize`;
/// `None` for anything with a coroutine in it.
pub open spec fn folded(e: Expr) -> Option<usize>
    decreases e,
{
    match e {
        Expr::Number(n) => Some(n),
        Expr::Add(l, r) => match (folded(*l), folded(*r)) {
            (Some(a), Some(b)) => if a + b <= usize::MAX {
                Some((a + b) as usize)
            } else {
                None
            },
            _ => None,
        },
        _ => None,
    }
}

/// A sum of numbers hands, to any continuation, the number it comes to.
pub proof fn lemma_eval_sum(e: Expr, k: Cont)
    requires
        folded(e) is Some,
    ensures
        eval_outcome(e, k) == apply_outcome(k, Value::Number(folded(e).unwrap())),
    decreases e,
{
    lemma_eval_unfolds(e, k);
    if let Expr::Add(l, r) = e {
        let a = folded(*l).unwrap();
        let b = folded(*r).unwrap();
        lemma_eval_sum(*l, Cont::AddLeft(r));
        lemma_apply_unfolds(Cont::AddLeft(r), Value::Number(a));
        lemma_eval_sum(*r, Cont::AddRight(a));
        lemma_apply_unfolds(Cont::AddRight(a), Value::Number(b));
    }
}

impl Expr {
    /// A copy of the expression.
    pub fn duplicate(&self) -> (r: Expr)
        ensures
            r == *self,
        decreases self,
    {
        match self {
            Expr::Number(n) => Expr::Number(*n),
            Expr::Add(l, r) => Expr::Add(Box::new(l.duplicate()), Box::new(r.duplicate())),
            Expr::Suspend => Expr::Suspend,
            Expr::Resume(c, r) => Expr::Resume(Box::new(c.duplicate()), Box::new(r.duplicate())),
        }
    }
}

impl Cont {
    /// A copy of the continuation.
    pub fn duplicate(&self) -> (r: Cont)
        ensures
            r == *self,
        decreases self,
    {
        match self {
            Cont::Done => Cont::Done,
            Cont::AddLeft(r) => Cont::AddLeft(Box::new(r.duplicate())),
            Cont::AddRight(n) => Cont::AddRight(*n),
            Cont::ResumeLeft(r) => Cont::ResumeLeft(Box::new(r.duplicate())),
            Cont::ResumeRight(k) => Cont::ResumeRight(Box::new(k.duplicate())),
        }
    }
}

impl Value {
    /// The value as text: a number in decimal digits, a coroutine as
    /// `<coroutine>`.
    pub fn describe(&self) -> (s: String)
        ensures
            s@ == match self {
                Value::Number(n) => decimal(*n as nat),
                Value::Coroutine(_) => "<coroutine>"@,
            },
    {
        match self {
            Value::Number(n) => decimal_text(*n),
            Value::Coroutine(_) => {
                let mut s = String::new();
                s.append("<coroutine>");
                assert(s@ =~= "<coroutine>"@);
                s
            },
        }
    }

    /// A copy of the value.
    pub fn duplicate(&self) -> (r: Value)
        ensures
            r == *self,
    {
        match self {
            Value::Number(n) => Value::Number(*n),
            Value::Coroutine(k) => Value::Coroutine(k.duplicate()),
        }
    }
}

/// Hands `v` to the innermost continuation on the stack, or finishes.
fn give_back_exec(v: Value, stack: &mut Vec<Cont>) -> (t: Transition)
    ensures
        match t {
            Transition::Finished(w) => give_back(v, old(stack)@) == Step::Finished(w),
            Transition::Stuck => false,
            Transition::Next(c) => give_back(v, old(stack)@) == Step::Next(c, final(stack)@),
        },
{
    match stack.pop() {
        None => Transition::Finished(v),
        Some(k) => Transition::Next(Control::Apply(k, v)),
    }
}

/// Performs one step of the machine.
fn advance(c: Control, stack: &mut Vec<Cont>) -> (t: Transition)
    ensures
        match t {
            Transition::Stuck => step(c, old(stack)@) is Stuck,
            Transition::Finished(w) => step(c, old(stack)@) == Step::Finished(w),
            Transition::Next(c2) => step(c, old(stack)@) == Step::Next(c2, final(stack)@),
        },
{
    match c {
        Control::Eval(e, k) => match e {
            Expr::Number(n) => Transition::Next(Control::Apply(k, Value::Number(n))),
            Expr::Add(l, r) => {
                stack.push(k);
                Transition::Next(Control::Eval(*l, Cont::AddLeft(r)))
            },
            Expr::Suspend => give_back_exec(Value::Coroutine(k), stack),
            Expr::Resume(co, r) => {
                stack.push(k);
                Transition::Next(Control::Eval(*co, Cont::ResumeLeft(r)))
            },
        },
        Control::Apply(k, v) => match k {
            Cont::Done => give_back_exec(v, stack),
            Cont::AddLeft(r) => match v {
                Value::Number(n) => Transition::Next(Control::Eval(*r, Cont::AddRight(n))),
                Value::Coroutine(_) => {
                    Transition::Stuck
                },
            },
            Cont::AddRight(n) => match v {
                Value::Number(m) => if n <= usize::MAX - m {
                    give_back_exec(Value::Number(n + m), stack)
                } else {
                    Transition::Stuck
                },
                Value::Coroutine(_) => {
                    Transition::Stuck
                },
            },
            Cont::ResumeLeft(r) => match v {
                Value::Coroutine(kc) => Transition::Next(
                    Control::Eval(*r, Cont::ResumeRight(Box::new(kc))),
                ),
                Value::Number(_) => {
                    Transition::Stuck
                },
            },
            Cont::ResumeRight(kc) => Transition::Next(Control::Apply(*kc, v)),
        },
    }
}

/// Evaluates `e` against `cont` where that does not go wrong: `None` for an
/// operand of an addition that is no number, a sum beyond `usize`, or
/// resuming a number.
pub fn try_eval(e: &Expr, cont: Cont) -> (r: Option<Value>)
    ensures
        r == eval_outcome(*e, cont),
{
    let ghost target = eval_outcome(*e, cont);
    let mut stack: Vec<Cont> = Vec::new();
    let mut control = Control::Eval(e.duplicate(), cont);
    assert(stack@ =~= Seq::<Cont>::empty());
    loop
        invariant
            run(control, stack@) == target,
            target == eval_outcome(*e, cont),
        decreases measure(control, stack@),
    {
        proof {
            lemma_step_decreases(control, stack@);
        }
        let ghost c0 = control;
        let ghost s0 = stack@;
        match advance(control, &mut stack) {
            Transition::Finished(v) => {
                assert(run(c0, s0) == Some(v));
                return Some(v);
            },
            Transition::Stuck => {
                assert(run(c0, s0) is None);
                return None;
            },
            Transition::Next(c) => {
                control = c;
            },
        }
    }
}

/// Evaluates `e` and hands its value to `cont`.
///
/// An addition applies its continuation to the value of its left operand,
/// evaluated against a continuation that evaluates the right operand and
/// adds; `suspend` returns a coroutine holding its continuation; a
/// resumption evaluates a coroutine, then its argument, and resumes the
/// coroutine with it. The inputs on which this goes wrong (an operand that
/// is no number, a sum beyond `usize`, resuming a number) are left out.
pub fn eval(e: &Expr, cont: Cont) -> (v: Value)
    requires
        eval_outcome(*e, cont) is Some,
    ensures
        eval_outcome(*e, cont) == Some(v),
{
    try_eval(e, cont).unwrap()
}

} // verus!
