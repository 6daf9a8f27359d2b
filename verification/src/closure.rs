//! A closure compiler for the language of the tree walker.
//!
//! Compiling an expression against a continuation does all the work that
//! does not wait on a coroutine: a continuation that needs the value of
//! compiled code runs that code on the spot, so sums of numbers are folded
//! while compiling. What is left is a [`Compiled`] program, which running
//! turns into a value. As in the walker, the continuations are first-order
//! values ([`Cont`]) and compiling runs an abstract machine with a stack of
//! the continuations that enclosing forms still owe their results to.
use vstd::prelude::*;
use crate::text::{coroutine_at, decimal, decimal_text, is_coroutine_at};
use std::rc::Rc;
use crate::tree;

verus! {

/// Expressions of the language, sharing their subexpressions.
#[derive(Debug)]
pub enum Expr {
    Number(usize),
    Add(Rc<Expr>, Rc<Expr>),
    Suspend,
    Resume(Rc<Expr>, Rc<Expr>),
}

/// A continuation of the compiler: what is done with compiled code.
pub enum Cont {
    /// Hand the code back.
    Done,
    /// The left operand of an addition is compiled; the right one is next.
    AddLeft(Rc<Expr>),
    /// Add the value of the code to this number.
    AddRight(usize),
    /// The coroutine of a resumption is compiled; the argument is next.
    ResumeLeft(Rc<Expr>),
    /// Resume this suspended continuation with the code.
    ResumeRight(Rc<Cont>),
}

/// Values that compiled programs give: numbers and coroutines.
pub enum Value {
    Number(usize),
    Coroutine(Cont),
}

/// A compiled program: run, it gives a number, or a coroutine that holds
/// the continuation of a `suspend`.
pub enum Compiled {
    Constant(usize),
    Suspended(Cont),
}

impl Compiled {
    /// The value that running the program gives.
    pub open spec fn value(self) -> Value {
        match self {
            Compiled::Constant(n) => Value::Number(n),
            Compiled::Suspended(k) => Value::Coroutine(k),
        }
    }
}

/// The control of the compiling machine.
pub enum Control {
    Compile(Expr, Cont),
    Apply(Cont, Compiled),
}

/// What one step of the compiling machine does.
pub enum Step {
    Next(Control, Seq<Cont>),
    Finished(Compiled),
    Stuck,
}

/// The result of one executed step.
pub enum Transition {
    Next(Control),
    Stuck,
    Finished(Compiled),
}

pub open spec fn expr_size(e: Expr) -> nat
    decreases e,
{
    match e {
        Expr::Number(_) => 1,
        Expr::Suspend => 1,
        Expr::Add(l, r) => expr_size(*l) + expr_size(*r) + 3,
        Expr::Resume(c, r) => expr_size(*c) + expr_size(*r) + 3,
    }
}

pub open spec fn cont_size(k: Cont) -> nat
    decreases k,
{
    match k {
        Cont::Done => 1,
        Cont::AddLeft(r) => expr_size(*r) + 2,
        Cont::AddRight(_) => 1,
        Cont::ResumeLeft(r) => expr_size(*r) + 2,
        Cont::ResumeRight(kc) => cont_size(*kc) + 1,
    }
}

pub open spec fn compiled_size(c: Compiled) -> nat {
    match c {
        Compiled::Constant(_) => 0,
        Compiled::Suspended(k) => cont_size(k),
    }
}

pub open spec fn stack_size(s: Seq<Cont>) -> nat
    decreases s.len(),
{
    if s.len() == 0 {
        0
    } else {
        stack_size(s.drop_last()) + cont_size(s.last())
    }
}

pub open spec fn measure(c: Control, s: Seq<Cont>) -> nat {
    stack_size(s) + match c {
        Control::Compile(e, k) => expr_size(e) + cont_size(k),
        Control::Apply(k, code) => cont_size(k) + compiled_size(code),
    }
}

/// Hands finished code to the innermost continuation on the stack.
pub open spec fn give_back(code: Compiled, s: Seq<Cont>) -> Step {
    if s.len() == 0 {
        Step::Finished(code)
    } else {
        Step::Next(Control::Apply(s.last(), code), s.drop_last())
    }
}

/// One step of the compiling machine.
pub open spec fn step(c: Control, s: Seq<Cont>) -> Step {
    match c {
        Control::Compile(e, k) => match e {
            Expr::Number(n) => Step::Next(Control::Apply(k, Compiled::Constant(n)), s),
            Expr::Add(l, r) => Step::Next(Control::Compile(*l, Cont::AddLeft(r)), s.push(k)),
            Expr::Suspend => give_back(Compiled::Suspended(k), s),
            Expr::Resume(c, r) => Step::Next(Control::Compile(*c, Cont::ResumeLeft(r)), s.push(k)),
        },
        Control::Apply(k, code) => match k {
            Cont::Done => give_back(code, s),
            Cont::AddLeft(r) => match code.value() {
                Value::Number(n) => Step::Next(Control::Compile(*r, Cont::AddRight(n)), s),
                Value::Coroutine(_) => Step::Stuck,
            },
            Cont::AddRight(n) => match code.value() {
                Value::Number(m) => if n + m <= usize::MAX {
                    give_back(Compiled::Constant((n + m) as usize), s)
                } else {
                    Step::Stuck
                },
                Value::Coroutine(_) => Step::Stuck,
            },
            Cont::ResumeLeft(r) => match code.value() {
                Value::Coroutine(kc) => Step::Next(
                    Control::Compile(*r, Cont::ResumeRight(Rc::new(kc))),
                    s,
                ),
                Value::Number(_) => Step::Stuck,
            },
            Cont::ResumeRight(kc) => Step::Next(Control::Apply(*kc, code), s),
        },
    }
}

proof fn lemma_stack_size_push(s: Seq<Cont>, k: Cont)
    ensures
        stack_size(s.push(k)) == stack_size(s) + cont_size(k),
{
    assert(s.push(k).drop_last() =~= s);
}

/// Every step makes the machine smaller.
pub proof fn lemma_step_decreases(c: Control, s: Seq<Cont>)
    ensures
        step(c, s) matches Step::Next(c2, s2) ==> measure(c2, s2) < measure(c, s),
{
    match c {
        Control::Compile(e, k) => match e {
            Expr::Add(l, r) => lemma_stack_size_push(s, k),
            Expr::Resume(cc, r) => lemma_stack_size_push(s, k),
            _ => {},
        },
        _ => {},
    }
}

/// The outcome of running the compiling machine: `None` where it gets stuck.
pub open spec fn run(c: Control, s: Seq<Cont>) -> Option<Compiled>
    decreases measure(c, s),
{
    match step(c, s) {
        Step::Finished(code) => Some(code),
        Step::Stuck => None,
        Step::Next(c2, s2) => {
            proof {
                lemma_step_decreases(c, s);
            }
            run(c2, s2)
        },
    }
}

/// What compiling `e` against the continuation `k` gives.
pub open spec fn compile_outcome(e: Expr, k: Cont) -> Option<Compiled> {
    run(Control::Compile(e, k), Seq::empty())
}

/// The expression that a shared operand holds.
pub open spec fn operand(r: Rc<Expr>) -> Expr {
    *r
}

/// Continues with the code `code` against the stack `s`.
pub open spec fn finish(code: Compiled, s: Seq<Cont>) -> Option<Compiled> {
    if s.len() == 0 {
        Some(code)
    } else {
        run(Control::Apply(s.last(), code), s.drop_last())
    }
}

/// What handing the code `code` to the continuation `k` gives.
pub open spec fn apply_outcome(k: Cont, code: Compiled) -> Option<Compiled> {
    run(Control::Apply(k, code), Seq::empty())
}

/// Hands an outcome, where there is one, to the continuation `k`.
pub open spec fn and_then(o: Option<Compiled>, k: Cont) -> Option<Compiled> {
    match o {
        Some(code) => apply_outcome(k, code),
        None => None,
    }
}

/// A step depends on the stack only through its top: the frames below it
/// are carried along unchanged.
proof fn lemma_step_frame(c: Control, p: Seq<Cont>, q: Seq<Cont>)
    ensures
        match step(c, q) {
            Step::Stuck => step(c, p + q) is Stuck,
            Step::Next(c2, q2) => step(c, p + q) == Step::Next(c2, p + q2),
            Step::Finished(code) => q.len() == 0 && step(c, p + q) == give_back(code, p),
        },
{
    if q.len() == 0 {
        assert(p + q =~= p);
    } else {
        assert((p + q).drop_last() =~= p + q.drop_last());
        assert((p + q).last() == q.last());
    }
    match c {
        Control::Compile(e, k) => {
            assert((p + q).push(k) =~= p + q.push(k));
        },
        Control::Apply(k, code) => {},
    }
}

/// Running with frames `p` below the stack `q` runs against `q` first and
/// then hands the code on to `p`.
pub proof fn lemma_run_frame(c: Control, p: Seq<Cont>, q: Seq<Cont>)
    ensures
        run(c, p + q) == match run(c, q) {
            Some(code) => finish(code, p),
            None => None,
        },
    decreases measure(c, q),
{
    lemma_step_frame(c, p, q);
    lemma_step_decreases(c, q);
    match step(c, q) {
        Step::Stuck => {},
        Step::Next(c2, q2) => {
            lemma_run_frame(c2, p, q2);
        },
        Step::Finished(code) => {},
    }
}

/// Compiling follows the equations of the closure compiler: a number
/// compiles to a constant that goes to the continuation; an addition or a
/// resumption hands to its continuation what compiling its first operand
/// gives against the continuation that finishes the form; `suspend`
/// compiles to code that makes a coroutine of its continuation.
pub proof fn lemma_compile_unfolds(e: Expr, k: Cont)
    ensures
        compile_outcome(e, k) == match e {
            Expr::Number(n) => apply_outcome(k, Compiled::Constant(n)),
            Expr::Add(l, r) => and_then(compile_outcome(*l, Cont::AddLeft(r)), k),
            Expr::Suspend => Some(Compiled::Suspended(k)),
            Expr::Resume(c, r) => and_then(compile_outcome(*c, Cont::ResumeLeft(r)), k),
        },
{
    let empty = Seq::<Cont>::empty();
    let one = empty.push(k);
    assert(one + empty =~= one);
    assert(one.drop_last() =~= empty);
    match e {
        Expr::Add(l, r) => {
            lemma_run_frame(Control::Compile(operand(l), Cont::AddLeft(r)), one, empty);
        },
        Expr::Resume(c, r) => {
            lemma_run_frame(Control::Compile(operand(c), Cont::ResumeLeft(r)), one, empty);
        },
        _ => {},
    }
}

/// Handing code to a continuation follows the equations of the compiler:
/// `Done` returns the code; the continuations of an addition and of a
/// resumption run the code, then compile the next operand, fold the sum,
/// or resume the coroutine; anything else goes wrong.
pub proof fn lemma_apply_unfolds(k: Cont, code: Compiled)
    ensures
        apply_outcome(k, code) == match k {
            Cont::Done => Some(code),
            Cont::AddLeft(r) => match code.value() {
                Value::Number(n) => compile_outcome(*r, Cont::AddRight(n)),
                Value::Coroutine(_) => None,
            },
            Cont::AddRight(n) => match code.value() {
                Value::Number(m) => if n + m <= usize::MAX {
                    Some(Compiled::Constant((n + m) as usize))
                } else {
                    None
                },
                Value::Coroutine(_) => None,
            },
            Cont::ResumeLeft(r) => match code.value() {
                Value::Coroutine(kc) => compile_outcome(*r, Cont::ResumeRight(Rc::new(kc))),
                Value::Number(_) => None,
            },
            Cont::ResumeRight(kc) => apply_outcome(*kc, code),
        },
{
}

/// The number that a sum of numbers comes to, where it fits in `usize`;
/// `None` for anything with a coroutine in it.
pub open spec fn folded(e: Expr) -> Option<usize>
    decreases e,
{
    match e {
        Expr::Number(n) => Some(n),
        Expr::Add(l, r) => match (folded(*l), folded(*r)) {
            (Some(a), Some(b)) => if a + b <= usize::MAX {
                Some((a + b) as usize)
            } else {
                None
            },
            _ => None,
        },
        _ => None,
    }
}

/// Compiling folds sums: a sum of numbers compiles, against any
/// continuation, to what that continuation makes of the constant it comes
/// to.
pub proof fn lemma_compile_folds(e: Expr, k: Cont)
    requires
        folded(e) is Some,
    ensures
        compile_outcome(e, k) == apply_outcome(k, Compiled::Constant(folded(e).unwrap())),
    decreases e,
{
    lemma_compile_unfolds(e, k);
    if let Expr::Add(l, r) = e {
        let a = folded(operand(l)).unwrap();
        let b = folded(operand(r)).unwrap();
        lemma_compile_folds(operand(l), Cont::AddLeft(r));
        lemma_apply_unfolds(Cont::AddLeft(r), Compiled::Constant(a));
        lemma_compile_folds(operand(r), Cont::AddRight(a));
        lemma_apply_unfolds(Cont::AddRight(a), Compiled::Constant(b));
    }
}

impl Expr {
    /// A copy of the expression.
    pub fn duplicate(&self) -> (r: Expr)
        ensures
            r == *self,
        decreases self,
    {
        match self {
            Expr::Number(n) => Expr::Number(*n),
            Expr::Add(l, r) => Expr::Add(Rc::new(l.duplicate()), Rc::new(r.duplicate())),
            Expr::Suspend => Expr::Suspend,
            Expr::Resume(c, r) => Expr::Resume(Rc::new(c.duplicate()), Rc::new(r.duplicate())),
        }
    }
}

impl Cont {
    /// A copy of the continuation.
    pub fn duplicate(&self) -> (r: Cont)
        ensures
            r == *self,
        decreases self,
    {
        match self {
            Cont::Done => Cont::Done,
            Cont::AddLeft(r) => Cont::AddLeft(Rc::new(r.duplicate())),
            Cont::AddRight(n) => Cont::AddRight(*n),
            Cont::ResumeLeft(r) => Cont::ResumeLeft(Rc::new(r.duplicate())),
            Cont::ResumeRight(k) => Cont::ResumeRight(Rc::new(k.duplicate())),
        }
    }
}

impl Value {
    /// The value as text: a number in decimal digits, a coroutine as
    /// `<coroutine ADDR>` with the address of its continuation.
    pub fn describe(&self) -> (s: String)
        ensures
            match self {
                Value::Number(n) => s@ == decimal(*n as nat),
                Value::Coroutine(_) => is_coroutine_at(s@),
            },
    {
        match self {
            Value::Number(n) => decimal_text(*n),
            Value::Coroutine(k) => coroutine_at(k),
        }
    }
}

impl Compiled {
    /// Runs the compiled program.
    pub fn run(&self) -> (v: Value)
        ensures
            v == self.value(),
    {
        match self {
            Compiled::Constant(n) => Value::Number(*n),
            Compiled::Suspended(k) => Value::Coroutine(k.duplicate()),
        }
    }
}

/// Hands `code` to the innermost continuation on the stack, or finishes.
fn give_back_exec(code: Compiled, stack: &mut Vec<Cont>) -> (t: Transition)
    ensures
        match t {
            Transition::Finished(w) => give_back(code, old(stack)@) == Step::Finished(w),
            Transition::Stuck => false,
            Transition::Next(c) => give_back(code, old(stack)@) == Step::Next(c, final(stack)@),
        },
{
    match stack.pop() {
        None => Transition::Finished(code),
        Some(k) => Transition::Next(Control::Apply(k, code)),
    }
}

/// Performs one step of the compiling machine.
fn advance(c: Control, stack: &mut Vec<Cont>) -> (t: Transition)
    ensures
        match t {
            Transition::Stuck => step(c, old(stack)@) is Stuck,
            Transition::Finished(w) => step(c, old(stack)@) == Step::Finished(w),
            Transition::Next(c2) => step(c, old(stack)@) == Step::Next(c2, final(stack)@),
        },
{
    match c {
        Control::Compile(e, k) => match e {
            Expr::Number(n) => Transition::Next(Control::Apply(k, Compiled::Constant(n))),
            Expr::Add(l, r) => {
                stack.push(k);
                Transition::Next(Control::Compile(l.duplicate(), Cont::AddLeft(r)))
            },
            Expr::Suspend => give_back_exec(Compiled::Suspended(k), stack),
            Expr::Resume(co, r) => {
                stack.push(k);
                Transition::Next(Control::Compile(co.duplicate(), Cont::ResumeLeft(r)))
            },
        },
        Control::Apply(k, code) => match k {
            Cont::Done => give_back_exec(code, stack),
            Cont::AddLeft(r) => match code.run() {
                Value::Number(n) => Transition::Next(Control::Compile(r.duplicate(), Cont::AddRight(n))),
                Value::Coroutine(_) => {
                    Transition::Stuck
                },
            },
            Cont::AddRight(n) => match code.run() {
                Value::Number(m) => if n <= usize::MAX - m {
                    give_back_exec(Compiled::Constant(n + m), stack)
                } else {
                    Transition::Stuck
                },
                Value::Coroutine(_) => {
                    Transition::Stuck
                },
            },
            Cont::ResumeLeft(r) => match code {
                Compiled::Suspended(kc) => Transition::Next(
                    Control::Compile(r.duplicate(), Cont::ResumeRight(Rc::new(kc))),
                ),
                Compiled::Constant(_) => {
                    Transition::Stuck
                },
            },
            Cont::ResumeRight(kc) => Transition::Next(Control::Apply(kc.duplicate(), code)),
        },
    }
}

/// Compiles `e` against `cont` where that does not go wrong: `None` for an
/// operand of an addition that is no number, a sum beyond `usize`, or
/// resuming a number.
pub fn try_compile(e: &Expr, cont: Cont) -> (r: Option<Compiled>)
    ensures
        r == compile_outcome(*e, cont),
{
    let ghost target = compile_outcome(*e, cont);
    let mut stack: Vec<Cont> = Vec::new();
    let mut control = Control::Compile(e.duplicate(), cont);
    assert(stack@ =~= Seq::<Cont>::empty());
    loop
        invariant
            run(control, stack@) == target,
            target == compile_outcome(*e, cont),
        decreases measure(control, stack@),
    {
        proof {
            lemma_step_decreases(control, stack@);
        }
        let ghost c0 = control;
        let ghost s0 = stack@;
        match advance(control, &mut stack) {
            Transition::Finished(code) => {
                assert(run(c0, s0) == Some(code));
                return Some(code);
            },
            Transition::Stuck => {
                assert(run(c0, s0) is None);
                return None;
            },
            Transition::Next(c) => {
                control = c;
            },
        }
    }
}

/// Compiles `e` and hands the code to `cont`.
///
/// A number compiles to a constant that goes to the continuation; an
/// addition hands to its continuation the code of its left operand,
/// compiled against a continuation that runs it, compiles the right operand
/// and adds; `suspend` compiles to code that makes a coroutine of its
/// continuation; a resumption compiles its coroutine against a continuation
/// that runs it, compiles the argument and resumes the coroutine with it.
/// The inputs on which this goes wrong (an operand that is no number, a sum
/// beyond `usize`, resuming a number) are left out.
pub fn compile(e: &Expr, cont: Cont) -> (code: Compiled)
    requires
        compile_outcome(*e, cont) is Some,
    ensures
        compile_outcome(*e, cont) == Some(code),
{
    try_compile(e, cont).unwrap()
}

/// The expression of the tree walker that `e` stands for.
pub open spec fn walker_expr(e: Expr) -> tree::Expr
    decreases e,
{
    match e {
        Expr::Number(n) => tree::Expr::Number(n),
        Expr::Add(l, r) => tree::Expr::Add(Box::new(walker_expr(*l)), Box::new(walker_expr(*r))),
        Expr::Suspend => tree::Expr::Suspend,
        Expr::Resume(c, r) => tree::Expr::Resume(
            Box::new(walker_expr(*c)),
            Box::new(walker_expr(*r)),
        ),
    }
}

/// The continuation of the tree walker that `k` stands for.
pub open spec fn walker_cont(k: Cont) -> tree::Cont
    decreases k,
{
    match k {
        Cont::Done => tree::Cont::Done,
        Cont::AddLeft(r) => tree::Cont::AddLeft(Box::new(walker_expr(*r))),
        Cont::AddRight(n) => tree::Cont::AddRight(n),
        Cont::ResumeLeft(r) => tree::Cont::ResumeLeft(Box::new(walker_expr(*r))),
        Cont::ResumeRight(kc) => tree::Cont::ResumeRight(Box::new(walker_cont(*kc))),
    }
}

/// The value of the tree walker that the value `v` stands for.
pub open spec fn walker_value(v: Value) -> tree::Value {
    match v {
        Value::Number(n) => tree::Value::Number(n),
        Value::Coroutine(k) => tree::Value::Coroutine(walker_cont(k)),
    }
}

pub open spec fn walker_control(c: Control) -> tree::Control {
    match c {
        Control::Compile(e, k) => tree::Control::Eval(walker_expr(e), walker_cont(k)),
        Control::Apply(k, code) => tree::Control::Apply(walker_cont(k), walker_value(code.value())),
    }
}

pub open spec fn walker_stack(s: Seq<Cont>) -> Seq<tree::Cont> {
    s.map_values(|k: Cont| walker_cont(k))
}

proof fn lemma_walker_stack(s: Seq<Cont>, k: Cont)
    ensures
        walker_stack(s.push(k)) == walker_stack(s).push(walker_cont(k)),
        s.len() > 0 ==> walker_stack(s).last() == walker_cont(s.last()),
        s.len() > 0 ==> walker_stack(s.drop_last()) == walker_stack(s).drop_last(),
        walker_stack(s).len() == s.len(),
{
    assert(walker_stack(s.push(k)) =~= walker_stack(s).push(walker_cont(k)));
    if s.len() > 0 {
        assert(walker_stack(s.drop_last()) =~= walker_stack(s).drop_last());
    }
}

/// A step of the compiling machine is a step of the walker's machine.
proof fn lemma_step_agrees(c: Control, s: Seq<Cont>)
    ensures
        match step(c, s) {
            Step::Stuck => tree::step(walker_control(c), walker_stack(s)) is Stuck,
            Step::Finished(code) => tree::step(walker_control(c), walker_stack(s))
                == tree::Step::Finished(walker_value(code.value())),
            Step::Next(c2, s2) => tree::step(walker_control(c), walker_stack(s))
                == tree::Step::Next(walker_control(c2), walker_stack(s2)),
        },
{
    match c {
        Control::Compile(e, k) => lemma_walker_stack(s, k),
        Control::Apply(k, code) => lemma_walker_stack(s, k),
    }
}

proof fn lemma_run_agrees(c: Control, s: Seq<Cont>)
    ensures
        tree::run(walker_control(c), walker_stack(s)) == match run(c, s) {
            Some(code) => Some(walker_value(code.value())),
            None => None,
        },
    decreases measure(c, s),
{
    lemma_step_agrees(c, s);
    lemma_step_decreases(c, s);
    if let Step::Next(c2, s2) = step(c, s) {
        lemma_run_agrees(c2, s2);
    }
}

/// Closure compilation and the tree walker agree: running the program that
/// compiling gives yields the value that walking the same expression
/// against the same continuation yields, and one goes wrong where the other
/// does.
pub proof fn lemma_compile_agrees_with_walker(e: Expr, k: Cont)
    ensures
        tree::eval_outcome(walker_expr(e), walker_cont(k)) == match compile_outcome(e, k) {
            Some(code) => Some(walker_value(code.value())),
            None => None,
        },
{
    assert(walker_stack(Seq::<Cont>::empty()) =~= Seq::<tree::Cont>::empty());
    lemma_run_agrees(Control::Compile(e, k), Seq::empty());
}

} // verus!
