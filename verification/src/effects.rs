//! The effects language: applications of built-ins, quotation, coroutines,
//! effect handlers and raised effects.
//!
//! Continuations are first-order values ([`Cont`]). An application keeps
//! its continuation while its head and arguments are evaluated from left to
//! right, so a `suspend` among the arguments captures the rest of the
//! arguments, the application and what follows it. A resumption, the
//! effect of a `handle` or a `raise`, and the result of a handler are
//! evaluated against a fresh continuation; what they still owe to the
//! enclosing forms waits on a stack of [`Frame`]s. A `raise` of an effect
//! that an enclosing `handle` names, with nothing but handlers between
//! them, captures that handler: resuming the coroutine gives the handler's
//! result. Any other `raise` captures its continuation as `suspend` does.
//!
//! Compiling evaluates the effect of every handler and raise once, ahead of
//! running, and puts the keyword it names in its place; running the
//! compiled program gives what evaluating the expression gives.
use vstd::prelude::*;
use crate::syntax::{
    Atom, AtomView, BuiltIn, Expr, ExprView, expr_view, exprs_view, duplicate_exprs, same_exprs,
};
use vstd::std_specs::cmp::PartialEqSpecImpl;
use crate::syntax::{atom_debug, joined, push_joined};
use crate::text::{coroutine_at, is_coroutine_at};

verus! {

/// The effects that programs name.
#[derive(Debug, Clone, Copy)]
pub enum Effect {
    Foo,
    Bar,
}

/// Values: atoms, quoted expressions and coroutines.
pub enum Value {
    Atom(Atom),
    Quote(Vec<Expr>),
    Coroutine(Cont),
}

/// A continuation: what is done with a value.
pub enum Cont {
    /// Hand the value back.
    Done,
    /// The value is the head of an application; evaluate these arguments.
    Head(Vec<Expr>, Box<Cont>),
    /// The value is the next argument of an application with this head,
    /// these argument values so far and these arguments still to evaluate.
    Arg(Box<Value>, Vec<Value>, Vec<Expr>, Box<Cont>),
    /// The value is the result of the body of a handler of the named effect.
    Handle(String, Box<Expr>, Box<Cont>),
    /// A raised effect was handled: evaluate the handler's result.
    Handler(Box<Expr>),
}

/// A frame of the stack: what an enclosing form does with a value that was
/// computed against a fresh continuation.
pub enum Frame {
    /// The value is the coroutine to resume; evaluate the argument next.
    ResumeCoroutine(Box<Expr>, Cont),
    /// The value is the argument; resume the first continuation with it.
    ResumeArgument(Cont, Cont),
    /// The value is what a resumed coroutine gave.
    Return(Cont),
    /// The value names the effect of a handler with this result and body.
    HandleEffect(Box<Expr>, Box<Expr>, Cont),
    /// The value names the effect to raise.
    RaiseEffect(Cont),
}

/// The control of the machine.
pub enum Control {
    /// Evaluate an expression against a continuation.
    Eval(Expr, Cont),
    /// Hand a value to a continuation.
    Apply(Cont, Value),
    /// Hand a value to a frame.
    Resume(Frame, Value),
}

/// The result of one executed step.
pub enum Transition {
    Next(Control),
    Stuck,
    Finished(Value),
}

/// A program: an expression and the continuation it is compiled against.
pub struct Compiled {
    expr: Expr,
    cont: Cont,
}

/// The model of a value.
pub enum ValueView {
    Atom(AtomView),
    Quote(Seq<ExprView>),
    Coroutine(ContView),
}

/// The model of a continuation.
pub enum ContView {
    Done,
    Head(Seq<ExprView>, Box<ContView>),
    Arg(Box<ValueView>, Seq<ValueView>, Seq<ExprView>, Box<ContView>),
    Handle(Seq<char>, Box<ExprView>, Box<ContView>),
    Handler(Box<ExprView>),
}

/// The model of a frame.
pub enum FrameView {
    ResumeCoroutine(ExprView, ContView),
    ResumeArgument(ContView, ContView),
    Return(ContView),
    HandleEffect(ExprView, ExprView, ContView),
    RaiseEffect(ContView),
}

/// The model of the control.
pub enum ControlView {
    Eval(ExprView, ContView),
    Apply(ContView, ValueView),
    Resume(FrameView, ValueView),
}

/// What one step of the machine does.
pub enum Step {
    Next(ControlView, Seq<FrameView>),
    Finished(ValueView),
    Stuck,
}

pub open spec fn values_view(s: Seq<Value>) -> Seq<ValueView>
    decreases s,
{
    Seq::new(
        s.len(),
        |i: int|
            if 0 <= i < s.len() {
                value_view(s[i])
            } else {
                ValueView::Quote(Seq::empty())
            },
    )
}

pub open spec fn value_view(v: Value) -> ValueView
    decreases v,
{
    match v {
        Value::Atom(a) => ValueView::Atom(a@),
        Value::Quote(q) => ValueView::Quote(exprs_view(q@)),
        Value::Coroutine(k) => ValueView::Coroutine(cont_view(k)),
    }
}

pub open spec fn cont_view(k: Cont) -> ContView
    decreases k,
{
    match k {
        Cont::Done => ContView::Done,
        Cont::Head(args, k2) => ContView::Head(exprs_view(args@), Box::new(cont_view(*k2))),
        Cont::Arg(h, done, rem, k2) => ContView::Arg(
            Box::new(value_view(*h)),
            values_view(done@),
            exprs_view(rem@),
            Box::new(cont_view(*k2)),
        ),
        Cont::Handle(name, res, k2) => ContView::Handle(
            name@,
            Box::new(expr_view(*res)),
            Box::new(cont_view(*k2)),
        ),
        Cont::Handler(res) => ContView::Handler(Box::new(expr_view(*res))),
    }
}

impl View for Value {
    type V = ValueView;

    open spec fn view(&self) -> ValueView {
        value_view(*self)
    }
}

impl View for Cont {
    type V = ContView;

    open spec fn view(&self) -> ContView {
        cont_view(*self)
    }
}

impl View for Frame {
    type V = FrameView;

    open spec fn view(&self) -> FrameView {
        match self {
            Frame::ResumeCoroutine(r, k) => FrameView::ResumeCoroutine(expr_view(**r), k@),
            Frame::ResumeArgument(kc, k) => FrameView::ResumeArgument(kc@, k@),
            Frame::Return(k) => FrameView::Return(k@),
            Frame::HandleEffect(res, body, k) => FrameView::HandleEffect(
                expr_view(**res),
                expr_view(**body),
                k@,
            ),
            Frame::RaiseEffect(k) => FrameView::RaiseEffect(k@),
        }
    }
}

impl View for Control {
    type V = ControlView;

    open spec fn view(&self) -> ControlView {
        match self {
            Control::Eval(e, k) => ControlView::Eval(e@, k@),
            Control::Apply(k, v) => ControlView::Apply(k@, v@),
            Control::Resume(f, v) => ControlView::Resume(f@, v@),
        }
    }
}

impl View for Compiled {
    type V = (ExprView, ContView);

    closed spec fn view(&self) -> (ExprView, ContView) {
        (self.expr@, self.cont@)
    }
}

pub open spec fn frames_view(s: Seq<Frame>) -> Seq<FrameView> {
    Seq::new(s.len(), |i: int| s[i]@)
}

// ---------------------------------------------------------------------------
// Sizes, which every step makes smaller.
pub open spec fn expr_size(e: ExprView) -> nat
    decreases e,
{
    match e {
        ExprView::Constant(_) => 1,
        ExprView::Quote(_) => 1,
        ExprView::Suspend => 1,
        ExprView::IfElse(_, _, _) => 1,
        ExprView::Application(f, args) => expr_size(*f) + exprs_size(args) + 3,
        ExprView::Resume(c, r) => expr_size(*c) + expr_size(*r) + 6,
        ExprView::Handle(eff, res, body) => expr_size(*eff) + expr_size(*res) + expr_size(*body)
            + 5,
        ExprView::Raise(eff) => expr_size(*eff) + 3,
    }
}

pub open spec fn exprs_size(s: Seq<ExprView>) -> nat
    decreases s,
{
    if s.len() == 0 {
        0
    } else {
        expr_size(s[0]) + 1 + exprs_size(s.drop_first())
    }
}

pub open spec fn values_size(s: Seq<ValueView>) -> nat
    decreases s,
{
    if s.len() == 0 {
        0
    } else {
        values_size(s.drop_last()) + value_size(s.last())
    }
}

pub open spec fn value_size(v: ValueView) -> nat
    decreases v,
{
    match v {
        ValueView::Coroutine(k) => cont_size(k),
        _ => 0,
    }
}

pub open spec fn cont_size(k: ContView) -> nat
    decreases k,
{
    match k {
        ContView::Done => 1,
        ContView::Head(args, k2) => exprs_size(args) + cont_size(*k2) + 2,
        ContView::Arg(h, done, rem, k2) => value_size(*h) + values_size(done) + exprs_size(rem)
            + cont_size(*k2) + 2,
        ContView::Handle(_, res, k2) => expr_size(*res) + cont_size(*k2) + 2,
        ContView::Handler(res) => expr_size(*res) + 2,
    }
}

pub open spec fn frame_size(f: FrameView) -> nat {
    match f {
        FrameView::ResumeCoroutine(r, k) => expr_size(r) + cont_size(k) + 4,
        FrameView::ResumeArgument(kc, k) => cont_size(kc) + cont_size(k) + 2,
        FrameView::Return(k) => cont_size(k) + 1,
        FrameView::HandleEffect(res, body, k) => expr_size(res) + expr_size(body) + cont_size(k)
            + 3,
        FrameView::RaiseEffect(k) => cont_size(k) + 1,
    }
}

pub open spec fn frames_size(s: Seq<FrameView>) -> nat
    decreases s.len(),
{
    if s.len() == 0 {
        0
    } else {
        frames_size(s.drop_last()) + frame_size(s.last())
    }
}

pub open spec fn measure(c: ControlView, s: Seq<FrameView>) -> nat {
    frames_size(s) + match c {
        ControlView::Eval(e, k) => expr_size(e) + cont_size(k),
        ControlView::Apply(k, v) => cont_size(k) + value_size(v),
        ControlView::Resume(f, v) => frame_size(f) + value_size(v),
    }
}

// ---------------------------------------------------------------------------
// The machine.
/// The continuation that a `suspend` (effect `None`) or a `raise` of the
/// effect `eff` captures: handlers are passed over, but one of the raised
/// effect catches it.
pub open spec fn resolve(k: ContView, eff: Option<Seq<char>>) -> ContView
    decreases k,
{
    match k {
        ContView::Handle(name, res, k2) => if eff == Some(name) {
            ContView::Handler(res)
        } else {
            resolve(*k2, eff)
        },
        _ => k,
    }
}

/// Applies the built-in `h` to the arguments `args`: `+` adds two numbers.
pub open spec fn builtin(h: ValueView, args: Seq<ValueView>) -> Option<ValueView> {
    if h == ValueView::Atom(AtomView::BuiltIn(BuiltIn::Plus)) && args.len() == 2 {
        match (args[0], args[1]) {
            (ValueView::Atom(AtomView::Num(a)), ValueView::Atom(AtomView::Num(b))) => if a + b
                <= usize::MAX {
                Some(ValueView::Atom(AtomView::Num((a + b) as usize)))
            } else {
                None
            },
            _ => None,
        }
    } else {
        None
    }
}

/// Hands a finished value to the innermost frame on the stack.
pub open spec fn give_back(v: ValueView, s: Seq<FrameView>) -> Step {
    if s.len() == 0 {
        Step::Finished(v)
    } else {
        Step::Next(ControlView::Resume(s.last(), v), s.drop_last())
    }
}

/// Continues with the outcome of a built-in, where there is one.
pub open spec fn after_builtin(r: Option<ValueView>, k: ContView, s: Seq<FrameView>) -> Step {
    match r {
        Some(v) => Step::Next(ControlView::Apply(k, v), s),
        None => Step::Stuck,
    }
}

/// One step of the machine.
pub open spec fn step(c: ControlView, s: Seq<FrameView>) -> Step {
    match c {
        ControlView::Eval(e, k) => match e {
            ExprView::Constant(a) => Step::Next(ControlView::Apply(k, ValueView::Atom(a)), s),
            ExprView::Application(f, args) => Step::Next(
                ControlView::Eval(*f, ContView::Head(args, Box::new(k))),
                s,
            ),
            ExprView::IfElse(_, _, _) => Step::Stuck,
            ExprView::Quote(q) => Step::Next(ControlView::Apply(k, ValueView::Quote(q)), s),
            ExprView::Suspend => give_back(ValueView::Coroutine(resolve(k, None)), s),
            ExprView::Resume(co, r) => Step::Next(
                ControlView::Eval(*co, ContView::Done),
                s.push(FrameView::ResumeCoroutine(*r, k)),
            ),
            ExprView::Handle(eff, res, body) => Step::Next(
                ControlView::Eval(*eff, ContView::Done),
                s.push(FrameView::HandleEffect(*res, *body, k)),
            ),
            ExprView::Raise(eff) => Step::Next(
                ControlView::Eval(*eff, ContView::Done),
                s.push(FrameView::RaiseEffect(k)),
            ),
        },
        ControlView::Apply(k, v) => match k {
            ContView::Done => give_back(v, s),
            ContView::Head(args, k2) => if args.len() == 0 {
                after_builtin(builtin(v, Seq::empty()), *k2, s)
            } else {
                Step::Next(
                    ControlView::Eval(
                        args[0],
                        ContView::Arg(Box::new(v), Seq::empty(), args.drop_first(), k2),
                    ),
                    s,
                )
            },
            ContView::Arg(h, done, rem, k2) => if rem.len() == 0 {
                after_builtin(builtin(*h, done.push(v)), *k2, s)
            } else {
                Step::Next(
                    ControlView::Eval(rem[0], ContView::Arg(h, done.push(v), rem.drop_first(), k2)),
                    s,
                )
            },
            ContView::Handle(_, _, k2) => Step::Next(ControlView::Apply(*k2, v), s),
            ContView::Handler(res) => Step::Next(ControlView::Eval(*res, ContView::Done), s),
        },
        ControlView::Resume(f, v) => match f {
            FrameView::ResumeCoroutine(r, k) => match v {
                ValueView::Coroutine(kc) => Step::Next(
                    ControlView::Eval(r, ContView::Done),
                    s.push(FrameView::ResumeArgument(kc, k)),
                ),
                _ => Step::Next(ControlView::Apply(k, v), s),
            },
            FrameView::ResumeArgument(kc, k) => Step::Next(
                ControlView::Apply(kc, v),
                s.push(FrameView::Return(k)),
            ),
            FrameView::Return(k) => Step::Next(ControlView::Apply(k, v), s),
            FrameView::HandleEffect(res, body, k) => match v {
                ValueView::Atom(AtomView::Keyword(name)) => Step::Next(
                    ControlView::Eval(body, ContView::Handle(name, Box::new(res), Box::new(k))),
                    s,
                ),
                _ => Step::Stuck,
            },
            FrameView::RaiseEffect(k) => match v {
                ValueView::Atom(AtomView::Keyword(name)) => give_back(
                    ValueView::Coroutine(resolve(k, Some(name))),
                    s,
                ),
                _ => Step::Stuck,
            },
        },
    }
}

proof fn lemma_frames_size_push(s: Seq<FrameView>, f: FrameView)
    ensures
        frames_size(s.push(f)) == frames_size(s) + frame_size(f),
{
    assert(s.push(f).drop_last() =~= s);
}

proof fn lemma_values_size_push(s: Seq<ValueView>, v: ValueView)
    ensures
        values_size(s.push(v)) == values_size(s) + value_size(v),
{
    assert(s.push(v).drop_last() =~= s);
}

proof fn lemma_resolve_size(k: ContView, eff: Option<Seq<char>>)
    ensures
        cont_size(resolve(k, eff)) <= cont_size(k),
    decreases k,
{
    if let ContView::Handle(name, res, k2) = k {
        lemma_resolve_size(*k2, eff);
    }
}

/// Every step makes the machine smaller.
pub proof fn lemma_step_decreases(c: ControlView, s: Seq<FrameView>)
    ensures
        step(c, s) matches Step::Next(c2, s2) ==> measure(c2, s2) < measure(c, s),
{
    if s.len() > 0 {
        assert(frames_size(s) == frames_size(s.drop_last()) + frame_size(s.last()));
    }
    match c {
        ControlView::Eval(e, k) => {
            assert(expr_size(e) == match e {
                ExprView::Application(f, args) => expr_size(*f) + exprs_size(args) + 3,
                ExprView::Resume(co, r) => expr_size(*co) + expr_size(*r) + 6,
                ExprView::Handle(eff, res, body) => expr_size(*eff) + expr_size(*res)
                    + expr_size(*body) + 5,
                ExprView::Raise(eff) => expr_size(*eff) + 3,
                _ => 1,
            });
            match e {
                ExprView::Suspend => lemma_resolve_size(k, None),
                ExprView::Resume(co, r) => lemma_frames_size_push(
                    s,
                    FrameView::ResumeCoroutine(*r, k),
                ),
                ExprView::Handle(eff, res, body) => lemma_frames_size_push(
                    s,
                    FrameView::HandleEffect(*res, *body, k),
                ),
                ExprView::Raise(eff) => lemma_frames_size_push(s, FrameView::RaiseEffect(k)),
                _ => {},
            }
        },
        ControlView::Apply(k, v) => match k {
            ContView::Head(args, k2) => {
                assert(values_size(Seq::<ValueView>::empty()) == 0);
            },
            ContView::Arg(h, done, rem, k2) => {
                lemma_values_size_push(done, v);
            },
            _ => {},
        },
        ControlView::Resume(f, v) => match f {
            FrameView::ResumeCoroutine(r, k) => if let ValueView::Coroutine(kc) = v {
                lemma_frames_size_push(s, FrameView::ResumeArgument(kc, k));
            },
            FrameView::ResumeArgument(kc, k) => lemma_frames_size_push(s, FrameView::Return(k)),
            FrameView::RaiseEffect(k) => if let ValueView::Atom(AtomView::Keyword(name)) = v {
                lemma_resolve_size(k, Some(name));
            },
            _ => {},
        },
    }
}

/// The outcome of running the machine to the end: `None` where it gets stuck.
pub open spec fn run(c: ControlView, s: Seq<FrameView>) -> Option<ValueView>
    decreases measure(c, s),
{
    match step(c, s) {
        Step::Finished(v) => Some(v),
        Step::Stuck => None,
        Step::Next(c2, s2) => {
            proof {
                lemma_step_decreases(c, s);
            }
            run(c2, s2)
        },
    }
}

/// What evaluating `e` against the continuation `k` gives.
pub open spec fn eval_outcome(e: ExprView, k: ContView) -> Option<ValueView> {
    run(ControlView::Eval(e, k), Seq::empty())
}

/// What running the program `p` gives.
pub open spec fn program_outcome(p: (ExprView, ContView)) -> Option<ValueView> {
    eval_outcome(p.0, p.1)
}

/// Continues with the value `v` against the stack `s`.
pub open spec fn finish(v: ValueView, s: Seq<FrameView>) -> Option<ValueView> {
    if s.len() == 0 {
        Some(v)
    } else {
        run(ControlView::Resume(s.last(), v), s.drop_last())
    }
}

/// What handing `v` to the continuation `k` gives.
pub open spec fn apply_outcome(k: ContView, v: ValueView) -> Option<ValueView> {
    run(ControlView::Apply(k, v), Seq::empty())
}

/// Hands an outcome, where there is one, to the continuation `k`.
pub open spec fn and_then(o: Option<ValueView>, k: ContView) -> Option<ValueView> {
    match o {
        Some(v) => apply_outcome(k, v),
        None => None,
    }
}

/// A step depends on the stack only through its top: the frames below it
/// are carried along unchanged.
proof fn lemma_step_frame(c: ControlView, p: Seq<FrameView>, q: Seq<FrameView>)
    ensures
        match step(c, q) {
            Step::Stuck => step(c, p + q) is Stuck,
            Step::Next(c2, q2) => step(c, p + q) == Step::Next(c2, p + q2),
            Step::Finished(v) => q.len() == 0 && step(c, p + q) == give_back(v, p),
        },
{
    if q.len() == 0 {
        assert(p + q =~= p);
    } else {
        assert((p + q).drop_last() =~= p + q.drop_last());
        assert((p + q).last() == q.last());
    }
    assert forall|f: FrameView| (p + q).push(f) =~= p + q.push(f) by {}
}

/// Running with frames `p` below the stack `q` runs against `q` first and
/// then hands the value on to `p`.
pub proof fn lemma_run_frame(c: ControlView, p: Seq<FrameView>, q: Seq<FrameView>)
    ensures
        run(c, p + q) == match run(c, q) {
            Some(v) => finish(v, p),
            None => None,
        },
    decreases measure(c, q),
{
    lemma_step_frame(c, p, q);
    lemma_step_decreases(c, q);
    match step(c, q) {
        Step::Stuck => {},
        Step::Next(c2, q2) => {
            lemma_run_frame(c2, p, q2);
        },
        Step::Finished(v) => {},
    }
}

/// Evaluating `e` against a fresh continuation below the frame `f` hands
/// its value to `f`.
proof fn lemma_eval_below(e: ExprView, f: FrameView)
    ensures
        run(ControlView::Eval(e, ContView::Done), seq![f]) == match eval_outcome(e, ContView::Done) {
            Some(v) => run(ControlView::Resume(f, v), Seq::empty()),
            None => None,
        },
{
    let one = seq![f];
    assert(one + Seq::<FrameView>::empty() =~= one);
    assert(one.drop_last() =~= Seq::<FrameView>::empty());
    lemma_run_frame(ControlView::Eval(e, ContView::Done), one, Seq::empty());
}

/// One step of a machine that does not get stuck or finish keeps its outcome.
proof fn lemma_run_next(c: ControlView, s: Seq<FrameView>, c2: ControlView, s2: Seq<FrameView>)
    requires
        step(c, s) == Step::Next(c2, s2),
    ensures
        run(c, s) == run(c2, s2),
{
}

/// Evaluation follows the equations of the continuation-passing compiler:
/// atoms and quotations go to the continuation; an application evaluates
/// its head against the continuation that evaluates its arguments; `if`
/// goes wrong; `suspend` gives a coroutine of its continuation; a
/// resumption evaluates its coroutine and, where that is a coroutine, its
/// argument, each against a fresh continuation, resumes the coroutine and
/// hands what it gives to the continuation, and hands anything else to the
/// continuation as it is; a handler evaluates its effect, then its body
/// against a continuation that handles that effect; a raise evaluates its
/// effect and gives a coroutine of the continuation that the effect
/// resolves to.
pub proof fn lemma_eval_unfolds(e: ExprView, k: ContView)
    ensures
        eval_outcome(e, k) == match e {
            ExprView::Constant(a) => apply_outcome(k, ValueView::Atom(a)),
            ExprView::Quote(q) => apply_outcome(k, ValueView::Quote(q)),
            ExprView::Application(f, args) => eval_outcome(*f, ContView::Head(args, Box::new(k))),
            ExprView::IfElse(_, _, _) => None,
            ExprView::Suspend => Some(ValueView::Coroutine(resolve(k, None))),
            ExprView::Resume(c, r) => match eval_outcome(*c, ContView::Done) {
                Some(ValueView::Coroutine(kc)) => match eval_outcome(*r, ContView::Done) {
                    Some(w) => and_then(apply_outcome(kc, w), k),
                    None => None,
                },
                Some(v) => apply_outcome(k, v),
                None => None,
            },
            ExprView::Handle(eff, res, body) => match eval_outcome(*eff, ContView::Done) {
                Some(ValueView::Atom(AtomView::Keyword(name))) => eval_outcome(
                    *body,
                    ContView::Handle(name, res, Box::new(k)),
                ),
                _ => None,
            },
            ExprView::Raise(eff) => match eval_outcome(*eff, ContView::Done) {
                Some(ValueView::Atom(AtomView::Keyword(name))) => Some(
                    ValueView::Coroutine(resolve(k, Some(name))),
                ),
                _ => None,
            },
        },
{
    let empty = Seq::<FrameView>::empty();
    match e {
        ExprView::Resume(c, r) => {
            let rc = FrameView::ResumeCoroutine(*r, k);
            assert(empty.push(rc) == seq![rc]);
            lemma_eval_below(*c, rc);
            if let Some(ValueView::Coroutine(kc)) = eval_outcome(*c, ContView::Done) {
                let ra = FrameView::ResumeArgument(kc, k);
                let ret = FrameView::Return(k);
                assert(empty.push(ra) == seq![ra]);
                assert(empty.push(ret) == seq![ret]);
                assert(seq![ret] + empty =~= seq![ret]);
                assert(seq![ret].drop_last() =~= empty);
                lemma_run_next(
                    ControlView::Resume(rc, ValueView::Coroutine(kc)),
                    empty,
                    ControlView::Eval(*r, ContView::Done),
                    seq![ra],
                );
                lemma_eval_below(*r, ra);
                if let Some(w) = eval_outcome(*r, ContView::Done) {
                    lemma_run_next(ControlView::Resume(ra, w), empty, ControlView::Apply(kc, w), seq![ret]);
                    lemma_run_frame(ControlView::Apply(kc, w), seq![ret], empty);
                    if let Some(x) = apply_outcome(kc, w) {
                        lemma_run_next(ControlView::Resume(ret, x), empty, ControlView::Apply(k, x), empty);
                    }
                }
            }
        },
        ExprView::Handle(eff, res, body) => {
            let he = FrameView::HandleEffect(*res, *body, k);
            assert(empty.push(he) == seq![he]);
            lemma_eval_below(*eff, he);
        },
        ExprView::Raise(eff) => {
            let re = FrameView::RaiseEffect(k);
            assert(empty.push(re) == seq![re]);
            lemma_eval_below(*eff, re);
        },
        _ => {},
    }
}

/// Applying a continuation follows the equations of the compiler: `Done`
/// gives the value; the head of an application evaluates the first
/// argument, or applies the head to no arguments; an argument evaluates the
/// next one, or applies the head to all of them and hands the result on;
/// the continuation of a handler's body passes the value on; a caught
/// effect evaluates the handler's result.
pub proof fn lemma_apply_unfolds(k: ContView, v: ValueView)
    ensures
        apply_outcome(k, v) == match k {
            ContView::Done => Some(v),
            ContView::Head(args, k2) => if args.len() == 0 {
                match builtin(v, Seq::empty()) {
                    Some(r) => apply_outcome(*k2, r),
                    None => None,
                }
            } else {
                eval_outcome(args[0], ContView::Arg(Box::new(v), Seq::empty(), args.drop_first(), k2))
            },
            ContView::Arg(h, done, rem, k2) => if rem.len() == 0 {
                match builtin(*h, done.push(v)) {
                    Some(r) => apply_outcome(*k2, r),
                    None => None,
                }
            } else {
                eval_outcome(rem[0], ContView::Arg(h, done.push(v), rem.drop_first(), k2))
            },
            ContView::Handle(_, _, k2) => apply_outcome(*k2, v),
            ContView::Handler(res) => eval_outcome(*res, ContView::Done),
        },
{
}

/// Resuming a bare `suspend` gives the argument: `resume suspend x`
/// evaluates `x` and hands its value to the continuation.
pub proof fn lemma_resume_suspend(x: ExprView, k: ContView)
    ensures
        eval_outcome(ExprView::Resume(Box::new(ExprView::Suspend), Box::new(x)), k) == and_then(
            eval_outcome(x, ContView::Done),
            k,
        ),
{
    let empty = Seq::<FrameView>::empty();
    let rc = FrameView::ResumeCoroutine(x, k);
    let ra = FrameView::ResumeArgument(ContView::Done, k);
    let ret = FrameView::Return(k);
    assert(empty.push(rc) == seq![rc]);
    assert(empty.push(ra) == seq![ra]);
    assert(empty.push(ret) == seq![ret]);
    assert(seq![rc].drop_last() =~= empty);
    assert(seq![ret].drop_last() =~= empty);
    lemma_run_next(
        ControlView::Eval(ExprView::Resume(Box::new(ExprView::Suspend), Box::new(x)), k),
        empty,
        ControlView::Eval(ExprView::Suspend, ContView::Done),
        seq![rc],
    );
    lemma_run_next(
        ControlView::Eval(ExprView::Suspend, ContView::Done),
        seq![rc],
        ControlView::Resume(rc, ValueView::Coroutine(ContView::Done)),
        empty,
    );
    lemma_run_next(
        ControlView::Resume(rc, ValueView::Coroutine(ContView::Done)),
        empty,
        ControlView::Eval(x, ContView::Done),
        seq![ra],
    );
    lemma_eval_below(x, ra);
    if let Some(v) = eval_outcome(x, ContView::Done) {
        lemma_run_next(ControlView::Resume(ra, v), empty, ControlView::Apply(ContView::Done, v), seq![ret]);
        lemma_run_next(ControlView::Apply(ContView::Done, v), seq![ret], ControlView::Resume(ret, v), empty);
        lemma_run_next(ControlView::Resume(ret, v), empty, ControlView::Apply(k, v), empty);
    }
}

/// Resuming what is not a coroutine gives it: where `c` evaluates to a
/// value that is no coroutine, `resume c x` hands that value to the
/// continuation without evaluating `x`.
pub proof fn lemma_resume_value(c: ExprView, x: ExprView, k: ContView)
    requires
        eval_outcome(c, ContView::Done) matches Some(v) && !(v is Coroutine),
    ensures
        eval_outcome(ExprView::Resume(Box::new(c), Box::new(x)), k) == and_then(
            eval_outcome(c, ContView::Done),
            k,
        ),
{
    let empty = Seq::<FrameView>::empty();
    let rc = FrameView::ResumeCoroutine(x, k);
    assert(empty.push(rc) == seq![rc]);
    lemma_run_next(
        ControlView::Eval(ExprView::Resume(Box::new(c), Box::new(x)), k),
        empty,
        ControlView::Eval(c, ContView::Done),
        seq![rc],
    );
    lemma_eval_below(c, rc);
    let v = eval_outcome(c, ContView::Done).unwrap();
    lemma_run_next(ControlView::Resume(rc, v), empty, ControlView::Apply(k, v), empty);
}

/// A handler catches the effect that its body raises: where `eff` and
/// `eff2` name the same effect, resuming `handle eff res (raise eff2)` with
/// `x` evaluates `x`, then gives the value of `res` to the continuation.
pub proof fn lemma_handle_catches(
    eff: ExprView,
    res: ExprView,
    eff2: ExprView,
    x: ExprView,
    k: ContView,
)
    requires
        effect_name(eff) is Some,
        effect_name(eff2) == effect_name(eff),
    ensures
        eval_outcome(
            ExprView::Resume(
                Box::new(
                    ExprView::Handle(
                        Box::new(eff),
                        Box::new(res),
                        Box::new(ExprView::Raise(Box::new(eff2))),
                    ),
                ),
                Box::new(x),
            ),
            k,
        ) == match eval_outcome(x, ContView::Done) {
            Some(_) => and_then(eval_outcome(res, ContView::Done), k),
            None => None,
        },
{
    let name = effect_name(eff).unwrap();
    let body = ExprView::Raise(Box::new(eff2));
    let hk = ContView::Handle(name, Box::new(res), Box::new(ContView::Done));
    assert(resolve(hk, Some(name)) == ContView::Handler(Box::new(res)));
    lemma_handle_raise(eff, res, eff2, x, k, ContView::Handler(Box::new(res)));
    let empty = Seq::<FrameView>::empty();
    let ra = FrameView::ResumeArgument(ContView::Handler(Box::new(res)), k);
    let ret = FrameView::Return(k);
    assert(empty.push(ret) == seq![ret]);
    assert(seq![ret].drop_last() =~= empty);
    if let Some(v) = eval_outcome(x, ContView::Done) {
        lemma_run_next(
            ControlView::Resume(ra, v),
            empty,
            ControlView::Apply(ContView::Handler(Box::new(res)), v),
            seq![ret],
        );
        lemma_run_next(
            ControlView::Apply(ContView::Handler(Box::new(res)), v),
            seq![ret],
            ControlView::Eval(res, ContView::Done),
            seq![ret],
        );
        lemma_eval_below(res, ret);
        if let Some(w) = eval_outcome(res, ContView::Done) {
            lemma_run_next(ControlView::Resume(ret, w), empty, ControlView::Apply(k, w), empty);
        }
    }
}

/// A handler lets other effects pass: where `eff2` names an effect other
/// than the one `eff` names, resuming `handle eff res (raise eff2)` with
/// `x` hands the value of `x` to the continuation.
pub proof fn lemma_handle_passes(
    eff: ExprView,
    res: ExprView,
    eff2: ExprView,
    x: ExprView,
    k: ContView,
)
    requires
        effect_name(eff) is Some,
        effect_name(eff2) is Some,
        effect_name(eff2) != effect_name(eff),
    ensures
        eval_outcome(
            ExprView::Resume(
                Box::new(
                    ExprView::Handle(
                        Box::new(eff),
                        Box::new(res),
                        Box::new(ExprView::Raise(Box::new(eff2))),
                    ),
                ),
                Box::new(x),
            ),
            k,
        ) == and_then(eval_outcome(x, ContView::Done), k),
{
    let name = effect_name(eff).unwrap();
    let hk = ContView::Handle(name, Box::new(res), Box::new(ContView::Done));
    assert(resolve(ContView::Done, effect_name(eff2)) == ContView::Done);
    assert(resolve(hk, effect_name(eff2)) == ContView::Done);
    lemma_handle_raise(eff, res, eff2, x, k, ContView::Done);
    let empty = Seq::<FrameView>::empty();
    let ra = FrameView::ResumeArgument(ContView::Done, k);
    let ret = FrameView::Return(k);
    assert(empty.push(ret) == seq![ret]);
    assert(seq![ret].drop_last() =~= empty);
    if let Some(v) = eval_outcome(x, ContView::Done) {
        lemma_run_next(ControlView::Resume(ra, v), empty, ControlView::Apply(ContView::Done, v), seq![ret]);
        lemma_run_next(ControlView::Apply(ContView::Done, v), seq![ret], ControlView::Resume(ret, v), empty);
        lemma_run_next(ControlView::Resume(ret, v), empty, ControlView::Apply(k, v), empty);
    }
}

/// Resuming `handle eff res (raise eff2)` with `x` evaluates both effects,
/// then `x`, and resumes the continuation that the raise captured.
proof fn lemma_handle_raise(
    eff: ExprView,
    res: ExprView,
    eff2: ExprView,
    x: ExprView,
    k: ContView,
    kc: ContView,
)
    requires
        effect_name(eff) is Some,
        effect_name(eff2) is Some,
        kc == resolve(
            ContView::Handle(effect_name(eff).unwrap(), Box::new(res), Box::new(ContView::Done)),
            effect_name(eff2),
        ),
    ensures
        eval_outcome(
            ExprView::Resume(
                Box::new(
                    ExprView::Handle(
                        Box::new(eff),
                        Box::new(res),
                        Box::new(ExprView::Raise(Box::new(eff2))),
                    ),
                ),
                Box::new(x),
            ),
            k,
        ) == match eval_outcome(x, ContView::Done) {
            Some(v) => run(ControlView::Resume(FrameView::ResumeArgument(kc, k), v), Seq::empty()),
            None => None,
        },
{
    let name = effect_name(eff).unwrap();
    let name2 = effect_name(eff2).unwrap();
    let empty = Seq::<FrameView>::empty();
    let body = ExprView::Raise(Box::new(eff2));
    let handle = ExprView::Handle(Box::new(eff), Box::new(res), Box::new(body));
    let rc = FrameView::ResumeCoroutine(x, k);
    let he = FrameView::HandleEffect(res, body, ContView::Done);
    let hk = ContView::Handle(name, Box::new(res), Box::new(ContView::Done));
    let re = FrameView::RaiseEffect(hk);
    let ra = FrameView::ResumeArgument(kc, k);
    let s_rc = seq![rc];
    assert(empty.push(rc) == s_rc);
    assert(empty.push(ra) == seq![ra]);
    assert(s_rc.push(he) == s_rc + seq![he]);
    assert(s_rc.push(re) == s_rc + seq![re]);
    assert(s_rc.drop_last() =~= empty);
    assert(seq![he].drop_last() =~= empty);
    assert(seq![re].drop_last() =~= empty);
    assert(s_rc + empty =~= s_rc);
    lemma_run_next(
        ControlView::Eval(ExprView::Resume(Box::new(handle), Box::new(x)), k),
        empty,
        ControlView::Eval(handle, ContView::Done),
        s_rc,
    );
    lemma_run_next(
        ControlView::Eval(handle, ContView::Done),
        s_rc,
        ControlView::Eval(eff, ContView::Done),
        s_rc + seq![he],
    );
    // the handler's effect, evaluated with the resumption's frame below
    lemma_run_frame(ControlView::Eval(eff, ContView::Done), s_rc, seq![he]);
    lemma_eval_below(eff, he);
    let kw = ValueView::Atom(AtomView::Keyword(name));
    lemma_run_frame(ControlView::Resume(he, kw), s_rc, empty);
    lemma_run_next(ControlView::Resume(he, kw), empty, ControlView::Eval(body, hk), empty);
    lemma_run_frame(ControlView::Eval(body, hk), s_rc, empty);
    lemma_run_next(ControlView::Eval(body, hk), s_rc, ControlView::Eval(eff2, ContView::Done), s_rc + seq![re]);
    // the raised effect
    lemma_run_frame(ControlView::Eval(eff2, ContView::Done), s_rc, seq![re]);
    lemma_eval_below(eff2, re);
    let kw2 = ValueView::Atom(AtomView::Keyword(name2));
    assert(step(ControlView::Resume(re, kw2), empty) == Step::Finished(ValueView::Coroutine(kc)));
    lemma_run_next(
        ControlView::Resume(rc, ValueView::Coroutine(kc)),
        empty,
        ControlView::Eval(x, ContView::Done),
        seq![ra],
    );
    lemma_eval_below(x, ra);
}

// ---------------------------------------------------------------------------
// Executing the machine.
proof fn lemma_frames_push(s: Seq<Frame>, f: Frame)
    ensures
        frames_view(s.push(f)) == frames_view(s).push(f@),
{
    assert(frames_view(s.push(f)) =~= frames_view(s).push(f@));
}

proof fn lemma_frames_pop(s: Seq<Frame>)
    requires
        s.len() > 0,
    ensures
        frames_view(s.drop_last()) == frames_view(s).drop_last(),
        frames_view(s).last() == s.last()@,
        frames_view(s).len() == s.len(),
{
    assert(frames_view(s.drop_last()) =~= frames_view(s).drop_last());
}

proof fn lemma_exprs_first(s: Seq<Expr>)
    requires
        s.len() > 0,
    ensures
        exprs_view(s.drop_first()) == exprs_view(s).drop_first(),
        exprs_view(s)[0] == expr_view(s[0]),
        exprs_view(s).len() == s.len(),
{
    assert(exprs_view(s.drop_first()) =~= exprs_view(s).drop_first());
}

proof fn lemma_values_push(s: Seq<Value>, v: Value)
    ensures
        values_view(s.push(v)) == values_view(s).push(v@),
{
    assert(values_view(s.push(v)) =~= values_view(s).push(v@));
}

/// The continuation that a `suspend` or a `raise` of `eff` captures.
fn resolve_exec(k: Cont, eff: Option<&String>) -> (r: Cont)
    ensures
        r@ == resolve(
            k@,
            match eff {
                Some(e) => Some(e@),
                None => None,
            },
        ),
    decreases k,
{
    match k {
        Cont::Handle(name, res, k2) => {
            let caught = match eff {
                Some(e) => name == *e,
                None => false,
            };
            if caught {
                Cont::Handler(res)
            } else {
                resolve_exec(*k2, eff)
            }
        },
        _ => k,
    }
}

/// Applies the built-in `h` to the arguments `args`.
fn builtin_exec(h: &Value, args: &Vec<Value>) -> (r: Option<Value>)
    ensures
        match r {
            Some(v) => builtin(h@, values_view(args@)) == Some(v@),
            None => builtin(h@, values_view(args@)) is None,
        },
{
    let is_plus = match h {
        Value::Atom(Atom::BuiltIn(BuiltIn::Plus)) => true,
        _ => false,
    };
    if !is_plus || args.len() != 2 {
        return None;
    }
    assert(values_view(args@)[0] == args@[0]@);
    assert(values_view(args@)[1] == args@[1]@);
    match (&args[0], &args[1]) {
        (Value::Atom(Atom::Num(a)), Value::Atom(Atom::Num(b))) => {
            if *a <= usize::MAX - *b {
                Some(Value::Atom(Atom::Num(*a + *b)))
            } else {
                None
            }
        },
        _ => None,
    }
}

/// Hands `v` to the innermost frame on the stack, or finishes.
fn give_back_exec(v: Value, stack: &mut Vec<Frame>) -> (t: Transition)
    ensures
        match t {
            Transition::Finished(w) => give_back(v@, frames_view(old(stack)@)) == Step::Finished(
                w@,
            ),
            Transition::Stuck => false,
            Transition::Next(c) => give_back(v@, frames_view(old(stack)@)) == Step::Next(
                c@,
                frames_view(final(stack)@),
            ),
        },
{
    let ghost s0 = stack@;
    match stack.pop() {
        None => Transition::Finished(v),
        Some(f) => {
            proof {
                lemma_frames_pop(s0);
            }
            Transition::Next(Control::Resume(f, v))
        },
    }
}

/// Continues with the outcome of a built-in.
fn after_builtin_exec(r: Option<Value>, k: Cont) -> (t: Transition)
    ensures
        match r {
            Some(v) => t matches Transition::Next(c) && c@ == ControlView::Apply(k@, v@),
            None => t is Stuck,
        },
{
    match r {
        Some(v) => Transition::Next(Control::Apply(k, v)),
        None => Transition::Stuck,
    }
}

/// Performs one step of the machine.
fn advance(c: Control, stack: &mut Vec<Frame>) -> (t: Transition)
    ensures
        match t {
            Transition::Stuck => step(c@, frames_view(old(stack)@)) is Stuck,
            Transition::Finished(w) => step(c@, frames_view(old(stack)@)) == Step::Finished(w@),
            Transition::Next(c2) => step(c@, frames_view(old(stack)@)) == Step::Next(
                c2@,
                frames_view(final(stack)@),
            ),
        },
{
    let ghost s0 = stack@;
    match c {
        Control::Eval(e, k) => match e {
            Expr::Constant(a) => Transition::Next(Control::Apply(k, Value::Atom(a))),
            Expr::Application(f, args) => Transition::Next(
                Control::Eval(*f, Cont::Head(args, Box::new(k))),
            ),
            Expr::IfElse(_, _, _) => Transition::Stuck,
            Expr::Quote(q) => Transition::Next(Control::Apply(k, Value::Quote(q))),
            Expr::Suspend => give_back_exec(Value::Coroutine(resolve_exec(k, None)), stack),
            Expr::Resume(co, r) => {
                let f = Frame::ResumeCoroutine(r, k);
                proof {
                    lemma_frames_push(s0, f);
                }
                stack.push(f);
                Transition::Next(Control::Eval(*co, Cont::Done))
            },
            Expr::Handle(eff, res, body) => {
                let f = Frame::HandleEffect(res, body, k);
                proof {
                    lemma_frames_push(s0, f);
                }
                stack.push(f);
                Transition::Next(Control::Eval(*eff, Cont::Done))
            },
            Expr::Raise(eff) => {
                let f = Frame::RaiseEffect(k);
                proof {
                    lemma_frames_push(s0, f);
                }
                stack.push(f);
                Transition::Next(Control::Eval(*eff, Cont::Done))
            },
        },
        Control::Apply(k, v) => match k {
            Cont::Done => give_back_exec(v, stack),
            Cont::Head(args, k2) => {
                if args.len() == 0 {
                    let empty: Vec<Value> = Vec::new();
                    assert(values_view(empty@) =~= Seq::<ValueView>::empty());
                    after_builtin_exec(builtin_exec(&v, &empty), *k2)
                } else {
                    let mut args = args;
                    let ghost a0 = args@;
                    let first = args.remove(0);
                    let done: Vec<Value> = Vec::new();
                    proof {
                        lemma_exprs_first(a0);
                        assert(a0.drop_first() =~= args@);
                        assert(values_view(done@) =~= Seq::<ValueView>::empty());
                    }
                    Transition::Next(Control::Eval(first, Cont::Arg(Box::new(v), done, args, k2)))
                }
            },
            Cont::Arg(h, done, rem, k2) => {
                let mut done = done;
                proof {
                    lemma_values_push(done@, v);
                }
                done.push(v);
                if rem.len() == 0 {
                    after_builtin_exec(builtin_exec(&h, &done), *k2)
                } else {
                    let mut rem = rem;
                    let ghost r0 = rem@;
                    let first = rem.remove(0);
                    proof {
                        lemma_exprs_first(r0);
                        assert(r0.drop_first() =~= rem@);
                    }
                    Transition::Next(Control::Eval(first, Cont::Arg(h, done, rem, k2)))
                }
            },
            Cont::Handle(_, _, k2) => Transition::Next(Control::Apply(*k2, v)),
            Cont::Handler(res) => Transition::Next(Control::Eval(*res, Cont::Done)),
        },
        Control::Resume(f, v) => match f {
            Frame::ResumeCoroutine(r, k) => match v {
                Value::Coroutine(kc) => {
                    let f2 = Frame::ResumeArgument(kc, k);
                    proof {
                        lemma_frames_push(s0, f2);
                    }
                    stack.push(f2);
                    Transition::Next(Control::Eval(*r, Cont::Done))
                },
                _ => Transition::Next(Control::Apply(k, v)),
            },
            Frame::ResumeArgument(kc, k) => {
                let f2 = Frame::Return(k);
                proof {
                    lemma_frames_push(s0, f2);
                }
                stack.push(f2);
                Transition::Next(Control::Apply(kc, v))
            },
            Frame::Return(k) => Transition::Next(Control::Apply(k, v)),
            Frame::HandleEffect(res, body, k) => match v {
                Value::Atom(Atom::Keyword(name)) => Transition::Next(
                    Control::Eval(*body, Cont::Handle(name, res, Box::new(k))),
                ),
                _ => Transition::Stuck,
            },
            Frame::RaiseEffect(k) => match v {
                Value::Atom(Atom::Keyword(name)) => {
                    let kc = resolve_exec(k, Some(&name));
                    give_back_exec(Value::Coroutine(kc), stack)
                },
                _ => Transition::Stuck,
            },
        },
    }
}

// ---------------------------------------------------------------------------
// Copies and comparisons.
/// A copy of a sequence of values.
fn duplicate_values(v: &Vec<Value>) -> (r: Vec<Value>)
    ensures
        values_view(r@) == values_view(v@),
    decreases v, 0nat,
{
    let mut r: Vec<Value> = Vec::new();
    let mut i: usize = 0;
    while i < v.len()
        invariant
            i <= v.len(),
            r.len() == i,
            forall|j: int| 0 <= j < i ==> value_view(#[trigger] r@[j]) == value_view(v@[j]),
        decreases v.len() - i,
    {
        proof {
            broadcast use vstd::std_specs::vec::axiom_vec_index_decreases;
            assert(decreases_to!(v => v@[i as int]));
        }
        let x = v[i].duplicate();
        r.push(x);
        i = i + 1;
    }
    assert(values_view(r@) =~= values_view(v@));
    r
}

impl Value {
    /// A copy of the value.
    pub fn duplicate(&self) -> (r: Value)
        ensures
            r@ == self@,
        decreases self, 2nat,
    {
        match self {
            Value::Atom(a) => Value::Atom(a.duplicate()),
            Value::Quote(q) => Value::Quote(duplicate_exprs(q)),
            Value::Coroutine(k) => Value::Coroutine(k.duplicate()),
        }
    }

    /// The value as text: an atom in its debug form, a quotation as its
    /// expressions in brackets, separated by spaces, and a coroutine as
    /// `<coroutine ADDR>` with the address of its continuation.
    pub fn describe(&self) -> (s: String)
        ensures
            match self@ {
                ValueView::Atom(a) => s@ == atom_debug(a),
                ValueView::Quote(q) => s@ == "("@ + joined(q) + ")"@,
                ValueView::Coroutine(_) => is_coroutine_at(s@),
            },
    {
        match self {
            Value::Atom(a) => a.describe(),
            Value::Quote(q) => {
                let mut s = String::new();
                s.append("(");
                push_joined(&mut s, q);
                s.append(")");
                assert(s@ =~= "("@ + joined(exprs_view(q@)) + ")"@);
                s
            },
            Value::Coroutine(k) => coroutine_at(k),
        }
    }

    /// Whether two values are equal: atoms and quotations by their
    /// contents; any two coroutines are equal.
    pub fn same(&self, other: &Value) -> (r: bool)
        ensures
            r == value_eq(self@, other@),
    {
        match (self, other) {
            (Value::Atom(a), Value::Atom(b)) => a.same(b),
            (Value::Quote(a), Value::Quote(b)) => same_exprs(a, b),
            (Value::Coroutine(_), Value::Coroutine(_)) => true,
            _ => false,
        }
    }
}

impl Cont {
    /// A copy of the continuation.
    pub fn duplicate(&self) -> (r: Cont)
        ensures
            r@ == self@,
        decreases self, 1nat,
    {
        match self {
            Cont::Done => Cont::Done,
            Cont::Head(args, k) => Cont::Head(duplicate_exprs(args), Box::new(k.duplicate())),
            Cont::Arg(h, done, rem, k) => Cont::Arg(
                Box::new(h.duplicate()),
                duplicate_values(done),
                duplicate_exprs(rem),
                Box::new(k.duplicate()),
            ),
            Cont::Handle(name, res, k) => Cont::Handle(
                name.clone(),
                Box::new(res.duplicate()),
                Box::new(k.duplicate()),
            ),
            Cont::Handler(res) => Cont::Handler(Box::new(res.duplicate())),
        }
    }
}

/// Equality of values: atoms and quotations by their contents; any two
/// coroutines are equal.
pub open spec fn value_eq(a: ValueView, b: ValueView) -> bool {
    match (a, b) {
        (ValueView::Atom(x), ValueView::Atom(y)) => x == y,
        (ValueView::Quote(x), ValueView::Quote(y)) => x == y,
        (ValueView::Coroutine(_), ValueView::Coroutine(_)) => true,
        _ => false,
    }
}

/// Equality of values is an equivalence.
pub proof fn lemma_value_eq_equivalence(a: ValueView, b: ValueView, c: ValueView)
    ensures
        value_eq(a, a),
        value_eq(a, b) == value_eq(b, a),
        value_eq(a, b) && value_eq(b, c) ==> value_eq(a, c),
{
}

impl PartialEq for Value {
    fn eq(&self, other: &Value) -> (r: bool) {
        self.same(other)
    }
}

impl PartialEqSpecImpl for Value {
    open spec fn obeys_eq_spec() -> bool {
        true
    }

    open spec fn eq_spec(&self, other: &Value) -> bool {
        value_eq(self@, other@)
    }
}

// ---------------------------------------------------------------------------
// Compiling and running.
/// The name of the effect that evaluating `e` gives, where it gives a
/// keyword.
pub open spec fn effect_name(e: ExprView) -> Option<Seq<char>> {
    match eval_outcome(e, ContView::Done) {
        Some(ValueView::Atom(AtomView::Keyword(name))) => Some(name),
        _ => None,
    }
}

/// Whether compiling `e` against `k` does not fail: compiling evaluates
/// the effects of handlers and raises, which must give keywords, refuses
/// `if`, and compiles every subexpression that is reached without waiting
/// on a coroutine: all but quoted ones and the arguments of an
/// application whose head does not finish.
pub open spec fn compiles(e: ExprView, k: ContView) -> bool
    decreases expr_size(e) + cont_size(k),
{
    match e {
        ExprView::Constant(_) => finishes(k),
        ExprView::Quote(_) => finishes(k),
        ExprView::IfElse(_, _, _) => false,
        ExprView::Suspend => true,
        ExprView::Application(f, args) => compiles(*f, ContView::Head(args, Box::new(k))),
        ExprView::Resume(c, r) => compiles(*c, ContView::Done) && compiles(*r, ContView::Done)
            && finishes(k),
        ExprView::Handle(eff, res, body) => compiles(*eff, ContView::Done) && compiles(
            *res,
            ContView::Done,
        ) && match effect_name(*eff) {
            Some(name) => compiles(*body, ContView::Handle(name, res, Box::new(k))),
            None => false,
        },
        ExprView::Raise(eff) => compiles(*eff, ContView::Done) && effect_name(*eff) is Some,
    }
}

/// Whether handing compiled code to `k` while compiling does not fail:
/// the head of an application compiles its arguments.
pub open spec fn finishes(k: ContView) -> bool
    decreases cont_size(k),
{
    match k {
        ContView::Head(args, k2) => finishes(*k2) && all_compile(args),
        ContView::Handle(_, _, k2) => finishes(*k2),
        _ => true,
    }
}

/// Whether each of the expressions compiles.
pub open spec fn all_compile(s: Seq<ExprView>) -> bool
    decreases exprs_size(s) + 1,
{
    if s.len() == 0 {
        true
    } else {
        compiles(s[0], ContView::Done) && all_compile(s.drop_first())
    }
}

/// Evaluates `e` against `k`: `None` where that goes wrong.
fn evaluate(e: Expr, k: Cont) -> (r: Option<Value>)
    ensures
        match r {
            Some(v) => eval_outcome(e@, k@) == Some(v@),
            None => eval_outcome(e@, k@) is None,
        },
{
    let ghost target = eval_outcome(e@, k@);
    let mut stack: Vec<Frame> = Vec::new();
    let mut control = Control::Eval(e, k);
    assert(frames_view(stack@) =~= Seq::<FrameView>::empty());
    loop
        invariant
            run(control@, frames_view(stack@)) == target,
            target == eval_outcome(e@, k@),
        decreases measure(control@, frames_view(stack@)),
    {
        proof {
            lemma_step_decreases(control@, frames_view(stack@));
        }
        let ghost c0 = control@;
        let ghost s0 = frames_view(stack@);
        match advance(control, &mut stack) {
            Transition::Finished(v) => {
                assert(run(c0, s0) == Some(v@));
                return Some(v);
            },
            Transition::Stuck => {
                assert(run(c0, s0) is None);
                return None;
            },
            Transition::Next(c) => {
                control = c;
            },
        }
    }
}

proof fn lemma_exprs_size_elem(s: Seq<ExprView>, j: int)
    requires
        0 <= j < s.len(),
    ensures
        expr_size(s[j]) + 1 <= exprs_size(s),
    decreases s.len(),
{
    if j > 0 {
        lemma_exprs_size_elem(s.drop_first(), j - 1);
    }
}

proof fn lemma_all_compile(s: Seq<ExprView>)
    ensures
        all_compile(s) == forall|j: int| 0 <= j < s.len() ==> compiles(#[trigger] s[j], ContView::Done),
    decreases s.len(),
{
    if s.len() > 0 {
        lemma_all_compile(s.drop_first());
        if all_compile(s) {
            assert forall|j: int| 0 <= j < s.len() implies compiles(#[trigger] s[j], ContView::Done) by {
                if j > 0 {
                    assert(s[j] == s.drop_first()[j - 1]);
                }
            }
        }
        if forall|j: int| 0 <= j < s.len() ==> compiles(#[trigger] s[j], ContView::Done) {
            assert forall|j: int| 0 <= j < s.drop_first().len() implies compiles(
                #[trigger] s.drop_first()[j],
                ContView::Done,
            ) by {
                assert(s.drop_first()[j] == s[j + 1]);
            }
        }
    }
}

/// The name of the effect that evaluating `eff` gives, where it gives a
/// keyword.
fn effect_name_exec(eff: &Expr) -> (r: Option<String>)
    ensures
        match r {
            Some(n) => effect_name(eff@) == Some(n@),
            None => effect_name(eff@) is None,
        },
{
    match evaluate(eff.duplicate(), Cont::Done) {
        Some(Value::Atom(Atom::Keyword(n))) => Some(n),
        _ => None,
    }
}

/// Whether compiling `e` against `k` does not fail.
fn check_compiles(e: &Expr, k: &Cont) -> (r: bool)
    ensures
        r == compiles(e@, k@),
    decreases expr_size(e@) + cont_size(k@), 1nat,
{
    match e {
        Expr::Constant(_) => check_finishes(k),
        Expr::Quote(_) => check_finishes(k),
        Expr::IfElse(_, _, _) => false,
        Expr::Suspend => true,
        Expr::Application(f, args) => {
            let k2 = Cont::Head(duplicate_exprs(args), Box::new(k.duplicate()));
            check_compiles(f, &k2)
        },
        Expr::Resume(c, r) => check_compiles(c, &Cont::Done) && check_compiles(r, &Cont::Done)
            && check_finishes(k),
        Expr::Handle(eff, res, body) => {
            if !check_compiles(eff, &Cont::Done) || !check_compiles(res, &Cont::Done) {
                return false;
            }
            match effect_name_exec(eff) {
                Some(name) => {
                    let k2 = Cont::Handle(name, Box::new(res.duplicate()), Box::new(k.duplicate()));
                    check_compiles(body, &k2)
                },
                None => false,
            }
        },
        Expr::Raise(eff) => check_compiles(eff, &Cont::Done) && effect_name_exec(eff).is_some(),
    }
}

/// Whether handing compiled code to `k` while compiling does not fail.
fn check_finishes(k: &Cont) -> (r: bool)
    ensures
        r == finishes(k@),
    decreases cont_size(k@), 1nat,
{
    match k {
        Cont::Head(args, k2) => check_finishes(k2) && check_all(args),
        Cont::Handle(_, _, k2) => check_finishes(k2),
        _ => true,
    }
}

/// Whether each of the expressions compiles.
fn check_all(args: &Vec<Expr>) -> (r: bool)
    ensures
        r == all_compile(exprs_view(args@)),
    decreases exprs_size(exprs_view(args@)) + 1, 0nat,
{
    let ghost s = exprs_view(args@);
    proof {
        lemma_all_compile(s);
    }
    let mut i: usize = 0;
    while i < args.len()
        invariant
            i <= args.len(),
            s == exprs_view(args@),
            s.len() == args.len(),
            all_compile(s) == forall|j: int| 0 <= j < s.len() ==> compiles(
                #[trigger] s[j],
                ContView::Done,
            ),
            forall|j: int| 0 <= j < i ==> compiles(#[trigger] s[j], ContView::Done),
        decreases args.len() - i,
    {
        proof {
            lemma_exprs_size_elem(s, i as int);
        }
        assert(s[i as int] == args@[i as int]@);
        if !check_compiles(&args[i], &Cont::Done) {
            return false;
        }
        i = i + 1;
    }
    true
}

/// Compiles `e` against `cont` where compiling does not fail: `None` on
/// `if`, and on the effect of a handler or a raise that gives no keyword.
pub fn try_compile(e: &Expr, cont: Cont) -> (r: Option<Compiled>)
    ensures
        match r {
            Some(p) => compiles(e@, cont@) && p@ == (prep_expr(e@), prep_cont(cont@)),
            None => !compiles(e@, cont@),
        },
{
    if check_compiles(e, &cont) {
        Some(compile(e, cont))
    } else {
        None
    }
}

// ---------------------------------------------------------------------------
// Compiling: the effects of handlers and raises are evaluated once, ahead of
// running, and replaced by the keywords they name.
/// The effect expression `eff` as compiled: the keyword it names where it
/// names one, else `rest`, its own compiled form.
pub open spec fn folded_effect(eff: ExprView, rest: ExprView) -> ExprView {
    match effect_name(eff) {
        Some(name) => ExprView::Constant(AtomView::Keyword(name)),
        None => rest,
    }
}

/// The compiled forms of a sequence of expressions.
pub open spec fn prep_exprs(s: Seq<ExprView>) -> Seq<ExprView>
    decreases s,
{
    Seq::new(
        s.len(),
        |i: int|
            if 0 <= i < s.len() {
                prep_expr(s[i])
            } else {
                ExprView::Suspend
            },
    )
}

/// The compiled form of an expression: the effect of every handler and
/// raise outside quotations replaced by the keyword it names.
pub open spec fn prep_expr(e: ExprView) -> ExprView
    decreases e,
{
    match e {
        ExprView::Application(f, args) => ExprView::Application(
            Box::new(prep_expr(*f)),
            prep_exprs(args),
        ),
        ExprView::Resume(c, r) => ExprView::Resume(Box::new(prep_expr(*c)), Box::new(prep_expr(*r))),
        ExprView::Handle(eff, res, body) => ExprView::Handle(
            Box::new(folded_effect(*eff, prep_expr(*eff))),
            Box::new(prep_expr(*res)),
            Box::new(prep_expr(*body)),
        ),
        ExprView::Raise(eff) => ExprView::Raise(Box::new(folded_effect(*eff, prep_expr(*eff)))),
        _ => e,
    }
}

pub open spec fn prep_values(s: Seq<ValueView>) -> Seq<ValueView>
    decreases s,
{
    Seq::new(
        s.len(),
        |i: int|
            if 0 <= i < s.len() {
                prep_value(s[i])
            } else {
                ValueView::Quote(Seq::empty())
            },
    )
}

/// A value with the expressions in its continuations compiled.
pub open spec fn prep_value(v: ValueView) -> ValueView
    decreases v,
{
    match v {
        ValueView::Coroutine(k) => ValueView::Coroutine(prep_cont(k)),
        _ => v,
    }
}

/// A continuation with its expressions compiled.
pub open spec fn prep_cont(k: ContView) -> ContView
    decreases k,
{
    match k {
        ContView::Done => ContView::Done,
        ContView::Head(args, k2) => ContView::Head(prep_exprs(args), Box::new(prep_cont(*k2))),
        ContView::Arg(h, done, rem, k2) => ContView::Arg(
            Box::new(prep_value(*h)),
            prep_values(done),
            prep_exprs(rem),
            Box::new(prep_cont(*k2)),
        ),
        ContView::Handle(name, res, k2) => ContView::Handle(
            name,
            Box::new(prep_expr(*res)),
            Box::new(prep_cont(*k2)),
        ),
        ContView::Handler(res) => ContView::Handler(Box::new(prep_expr(*res))),
    }
}

pub open spec fn prep_frame(f: FrameView) -> FrameView {
    match f {
        FrameView::ResumeCoroutine(r, k) => FrameView::ResumeCoroutine(prep_expr(r), prep_cont(k)),
        FrameView::ResumeArgument(kc, k) => FrameView::ResumeArgument(prep_cont(kc), prep_cont(k)),
        FrameView::Return(k) => FrameView::Return(prep_cont(k)),
        FrameView::HandleEffect(res, body, k) => FrameView::HandleEffect(
            prep_expr(res),
            prep_expr(body),
            prep_cont(k),
        ),
        FrameView::RaiseEffect(k) => FrameView::RaiseEffect(prep_cont(k)),
    }
}

pub open spec fn prep_frames(s: Seq<FrameView>) -> Seq<FrameView> {
    s.map_values(|f: FrameView| prep_frame(f))
}

pub open spec fn prep_control(c: ControlView) -> ControlView {
    match c {
        ControlView::Eval(e, k) => ControlView::Eval(prep_expr(e), prep_cont(k)),
        ControlView::Apply(k, v) => ControlView::Apply(prep_cont(k), prep_value(v)),
        ControlView::Resume(f, v) => ControlView::Resume(prep_frame(f), prep_value(v)),
    }
}

pub open spec fn prep_outcome(o: Option<ValueView>) -> Option<ValueView> {
    match o {
        Some(v) => Some(prep_value(v)),
        None => None,
    }
}

pub open spec fn prep_step(t: Step) -> Step {
    match t {
        Step::Next(c, s) => Step::Next(prep_control(c), prep_frames(s)),
        Step::Finished(v) => Step::Finished(prep_value(v)),
        Step::Stuck => Step::Stuck,
    }
}

/// The states at which compiling made a difference: the evaluation of an
/// effect that names a keyword.
pub open spec fn effect_folded(c: ControlView) -> bool {
    match c {
        ControlView::Eval(ExprView::Handle(eff, _, _), _) => effect_name(*eff) is Some,
        ControlView::Eval(ExprView::Raise(eff), _) => effect_name(*eff) is Some,
        _ => false,
    }
}

proof fn lemma_prep_exprs_first(s: Seq<ExprView>)
    requires
        s.len() > 0,
    ensures
        prep_exprs(s).len() == s.len(),
        prep_exprs(s)[0] == prep_expr(s[0]),
        prep_exprs(s.drop_first()) == prep_exprs(s).drop_first(),
{
    assert(prep_exprs(s.drop_first()) =~= prep_exprs(s).drop_first());
}

proof fn lemma_prep_values_push(s: Seq<ValueView>, v: ValueView)
    ensures
        prep_values(s.push(v)) == prep_values(s).push(prep_value(v)),
        prep_values(Seq::<ValueView>::empty()) == Seq::<ValueView>::empty(),
{
    assert(prep_values(s.push(v)) =~= prep_values(s).push(prep_value(v)));
    assert(prep_values(Seq::<ValueView>::empty()) =~= Seq::<ValueView>::empty());
}

proof fn lemma_prep_frames(s: Seq<FrameView>, f: FrameView)
    ensures
        prep_frames(s.push(f)) == prep_frames(s).push(prep_frame(f)),
        prep_frames(s).len() == s.len(),
        s.len() > 0 ==> prep_frames(s).last() == prep_frame(s.last()),
        s.len() > 0 ==> prep_frames(s.drop_last()) == prep_frames(s).drop_last(),
{
    assert(prep_frames(s.push(f)) =~= prep_frames(s).push(prep_frame(f)));
    if s.len() > 0 {
        assert(prep_frames(s.drop_last()) =~= prep_frames(s).drop_last());
    }
}

proof fn lemma_prep_resolve(k: ContView, eff: Option<Seq<char>>)
    ensures
        resolve(prep_cont(k), eff) == prep_cont(resolve(k, eff)),
    decreases k,
{
    if let ContView::Handle(name, res, k2) = k {
        lemma_prep_resolve(*k2, eff);
    }
}

proof fn lemma_prep_builtin(h: ValueView, args: Seq<ValueView>)
    ensures
        builtin(prep_value(h), prep_values(args)) == prep_outcome(builtin(h, args)),
{
    let pa = prep_values(args);
    if args.len() == 2 {
        assert(pa[0] == prep_value(args[0]));
        assert(pa[1] == prep_value(args[1]));
    }
}

/// Away from a folded effect, a step of the compiled machine is the
/// compiled step.
proof fn lemma_step_prep(c: ControlView, s: Seq<FrameView>)
    requires
        !effect_folded(c),
    ensures
        step(prep_control(c), prep_frames(s)) == prep_step(step(c, s)),
{
    lemma_prep_frames(s, FrameView::Return(ContView::Done));
    match c {
        ControlView::Eval(e, k) => {
            match e {
                ExprView::Suspend => lemma_prep_resolve(k, None),
                ExprView::Resume(co, r) => lemma_prep_frames(s, FrameView::ResumeCoroutine(*r, k)),
                ExprView::Handle(eff, res, body) => lemma_prep_frames(
                    s,
                    FrameView::HandleEffect(*res, *body, k),
                ),
                ExprView::Raise(eff) => lemma_prep_frames(s, FrameView::RaiseEffect(k)),
                _ => {},
            }
        },
        ControlView::Apply(k, v) => match k {
            ContView::Head(args, k2) => {
                lemma_prep_values_push(Seq::empty(), v);
                lemma_prep_builtin(v, Seq::empty());
                if args.len() > 0 {
                    lemma_prep_exprs_first(args);
                }
            },
            ContView::Arg(h, done, rem, k2) => {
                lemma_prep_values_push(done, v);
                lemma_prep_builtin(*h, done.push(v));
                if rem.len() > 0 {
                    lemma_prep_exprs_first(rem);
                }
            },
            _ => {},
        },
        ControlView::Resume(f, v) => match f {
            FrameView::ResumeCoroutine(r, k) => if let ValueView::Coroutine(kc) = v {
                lemma_prep_frames(s, FrameView::ResumeArgument(kc, k));
            },
            FrameView::ResumeArgument(kc, k) => lemma_prep_frames(s, FrameView::Return(k)),
            FrameView::RaiseEffect(k) => if let ValueView::Atom(AtomView::Keyword(name)) = v {
                lemma_prep_resolve(k, Some(name));
            },
            _ => {},
        },
    }
}

/// At a folded effect, both machines reach the frame of the form with the
/// keyword: the machine by evaluating the effect, the compiled one at once.
proof fn lemma_run_prep_effect(c: ControlView, s: Seq<FrameView>, eff: ExprView, f: FrameView)
    requires
        effect_name(eff) is Some,
        step(c, s) == Step::Next(ControlView::Eval(eff, ContView::Done), s.push(f)),
        step(prep_control(c), prep_frames(s)) == Step::Next(
            ControlView::Eval(
                ExprView::Constant(AtomView::Keyword(effect_name(eff).unwrap())),
                ContView::Done,
            ),
            prep_frames(s).push(prep_frame(f)),
        ),
        measure(
            ControlView::Resume(f, ValueView::Atom(AtomView::Keyword(effect_name(eff).unwrap()))),
            s,
        ) < measure(c, s),
    ensures
        run(prep_control(c), prep_frames(s)) == prep_outcome(run(c, s)),
    decreases measure(c, s), 0nat,
{
    let empty = Seq::<FrameView>::empty();
    let name = effect_name(eff).unwrap();
    let kw = ValueView::Atom(AtomView::Keyword(name));
    assert(s.push(f) == s + seq![f]);
    assert(empty.push(f) == seq![f]);
    lemma_run_frame(ControlView::Eval(eff, ContView::Done), s, seq![f]);
    lemma_eval_below(eff, f);
    assert(s + empty =~= s);
    lemma_run_frame(ControlView::Resume(f, kw), s, empty);
    assert(run(c, s) == run(ControlView::Resume(f, kw), s));
    let pf = prep_frame(f);
    let ps = prep_frames(s);
    let ek = ControlView::Eval(ExprView::Constant(AtomView::Keyword(name)), ContView::Done);
    assert(ps.push(pf).drop_last() =~= ps);
    lemma_run_next(prep_control(c), ps, ek, ps.push(pf));
    lemma_run_next(ek, ps.push(pf), ControlView::Apply(ContView::Done, kw), ps.push(pf));
    lemma_run_next(ControlView::Apply(ContView::Done, kw), ps.push(pf), ControlView::Resume(pf, kw), ps);
    assert(prep_control(ControlView::Resume(f, kw)) == ControlView::Resume(pf, kw));
    lemma_run_prep(ControlView::Resume(f, kw), s);
}

/// The compiled machine computes the compiled outcome.
proof fn lemma_run_prep(c: ControlView, s: Seq<FrameView>)
    ensures
        run(prep_control(c), prep_frames(s)) == prep_outcome(run(c, s)),
    decreases measure(c, s), 1nat,
{
    lemma_step_decreases(c, s);
    if effect_folded(c) {
        lemma_prep_frames(s, FrameView::Return(ContView::Done));
        match c {
            ControlView::Eval(ExprView::Handle(eff, res, body), k) => {
                let f = FrameView::HandleEffect(*res, *body, k);
                lemma_prep_frames(s, f);
                assert(expr_size(ExprView::Handle(eff, res, body)) == expr_size(*eff) + expr_size(
                    *res,
                ) + expr_size(*body) + 5);
                lemma_run_prep_effect(c, s, *eff, f);
            },
            ControlView::Eval(ExprView::Raise(eff), k) => {
                let f = FrameView::RaiseEffect(k);
                lemma_prep_frames(s, f);
                assert(expr_size(ExprView::Raise(eff)) == expr_size(*eff) + 3);
                lemma_run_prep_effect(c, s, *eff, f);
            },
            _ => {},
        }
    } else {
        lemma_step_prep(c, s);
        if let Step::Next(c2, s2) = step(c, s) {
            lemma_run_prep(c2, s2);
        }
    }
}

/// Running a compiled program gives what evaluating the expression gives,
/// with the expressions inside coroutines compiled: the same atoms and
/// quotations, a coroutine for a coroutine, and a failure for a failure.
pub proof fn lemma_compiled_agrees(e: ExprView, k: ContView)
    ensures
        eval_outcome(prep_expr(e), prep_cont(k)) == prep_outcome(eval_outcome(e, k)),
        match (eval_outcome(prep_expr(e), prep_cont(k)), eval_outcome(e, k)) {
            (Some(a), Some(b)) => value_eq(a, b),
            (None, None) => true,
            _ => false,
        },
{
    assert(prep_frames(Seq::<FrameView>::empty()) =~= Seq::<FrameView>::empty());
    lemma_run_prep(ControlView::Eval(e, k), Seq::empty());
}

/// The compiled forms of a sequence of expressions.
fn prepare_exprs(v: &Vec<Expr>) -> (r: Vec<Expr>)
    ensures
        exprs_view(r@) == prep_exprs(exprs_view(v@)),
    decreases v, 0nat,
{
    let mut r: Vec<Expr> = Vec::new();
    let mut i: usize = 0;
    while i < v.len()
        invariant
            i <= v.len(),
            r.len() == i,
            forall|j: int| 0 <= j < i ==> expr_view(#[trigger] r@[j]) == prep_expr(expr_view(v@[j])),
        decreases v.len() - i,
    {
        proof {
            broadcast use vstd::std_specs::vec::axiom_vec_index_decreases;
            assert(decreases_to!(v => v@[i as int]));
        }
        let x = prepare_expr(&v[i]);
        r.push(x);
        i = i + 1;
    }
    assert(exprs_view(r@) =~= prep_exprs(exprs_view(v@)));
    r
}

/// The compiled form of the effect of a handler or a raise.
fn prepare_effect(eff: &Expr) -> (r: Expr)
    ensures
        r@ == folded_effect(eff@, prep_expr(eff@)),
    decreases eff, 2nat,
{
    match effect_name_exec(eff) {
        Some(name) => Expr::Constant(Atom::Keyword(name)),
        None => prepare_expr(eff),
    }
}

/// The compiled form of an expression.
fn prepare_expr(e: &Expr) -> (r: Expr)
    ensures
        r@ == prep_expr(e@),
    decreases e, 1nat,
{
    match e {
        Expr::Application(f, args) => Expr::Application(
            Box::new(prepare_expr(f)),
            prepare_exprs(args),
        ),
        Expr::Resume(c, r) => Expr::Resume(Box::new(prepare_expr(c)), Box::new(prepare_expr(r))),
        Expr::Handle(eff, res, body) => Expr::Handle(
            Box::new(prepare_effect(eff)),
            Box::new(prepare_expr(res)),
            Box::new(prepare_expr(body)),
        ),
        Expr::Raise(eff) => Expr::Raise(Box::new(prepare_effect(eff))),
        _ => e.duplicate(),
    }
}

/// A sequence of values with the expressions in their continuations
/// compiled.
fn prepare_values(v: &Vec<Value>) -> (r: Vec<Value>)
    ensures
        values_view(r@) == prep_values(values_view(v@)),
    decreases v, 0nat,
{
    let mut r: Vec<Value> = Vec::new();
    let mut i: usize = 0;
    while i < v.len()
        invariant
            i <= v.len(),
            r.len() == i,
            forall|j: int|
                0 <= j < i ==> value_view(#[trigger] r@[j]) == prep_value(value_view(v@[j])),
        decreases v.len() - i,
    {
        proof {
            broadcast use vstd::std_specs::vec::axiom_vec_index_decreases;
            assert(decreases_to!(v => v@[i as int]));
        }
        let x = prepare_value(&v[i]);
        r.push(x);
        i = i + 1;
    }
    assert(values_view(r@) =~= prep_values(values_view(v@)));
    r
}

/// A value with the expressions in its continuations compiled.
fn prepare_value(v: &Value) -> (r: Value)
    ensures
        r@ == prep_value(v@),
    decreases v, 2nat,
{
    match v {
        Value::Coroutine(k) => Value::Coroutine(prepare_cont(k)),
        _ => v.duplicate(),
    }
}

/// A continuation with its expressions compiled.
fn prepare_cont(k: &Cont) -> (r: Cont)
    ensures
        r@ == prep_cont(k@),
    decreases k, 1nat,
{
    match k {
        Cont::Done => Cont::Done,
        Cont::Head(args, k2) => Cont::Head(prepare_exprs(args), Box::new(prepare_cont(k2))),
        Cont::Arg(h, done, rem, k2) => Cont::Arg(
            Box::new(prepare_value(h)),
            prepare_values(done),
            prepare_exprs(rem),
            Box::new(prepare_cont(k2)),
        ),
        Cont::Handle(name, res, k2) => Cont::Handle(
            name.clone(),
            Box::new(prepare_expr(res)),
            Box::new(prepare_cont(k2)),
        ),
        Cont::Handler(res) => Cont::Handler(Box::new(prepare_expr(res))),
    }
}

/// Compiles `e` against the continuation `cont`: the program that, run,
/// evaluates `e` and hands its value to `cont`.
///
/// Compiling evaluates the effect of every handler and raise once and puts
/// the keyword it names in its place, in `e` and in the expressions that
/// `cont` holds; `lemma_compiled_agrees` shows that running the result
/// gives what evaluating `e` gives. Compiling fails on `if`, and on the
/// effect of a handler or a raise that it reaches and that gives no
/// keyword; those inputs are left out.
pub fn compile(e: &Expr, cont: Cont) -> (p: Compiled)
    requires
        compiles(e@, cont@),
    ensures
        p@ == (prep_expr(e@), prep_cont(cont@)),
{
    Compiled { expr: prepare_expr(e), cont: prepare_cont(&cont) }
}

impl Compiled {
    /// Runs the program where that does not go wrong: `None` where it adds
    /// other than two numbers, overflows a sum, meets `if`, or handles or
    /// raises an effect that is no keyword.
    pub fn try_run(&self) -> (r: Option<Value>)
        ensures
            match r {
                Some(v) => program_outcome(self@) == Some(v@),
                None => program_outcome(self@) is None,
            },
    {
        evaluate(self.expr.duplicate(), self.cont.duplicate())
    }

    /// Runs the program: evaluates its expression and hands the value to
    /// its continuation. The programs that go wrong (adding other than two
    /// numbers, a sum beyond `usize`, `if`, an effect that is no keyword)
    /// are left out.
    pub fn run(&self) -> (v: Value)
        requires
            program_outcome(self@) is Some,
        ensures
            program_outcome(self@) == Some(v@),
    {
        self.try_run().unwrap()
    }
}

// ---------------------------------------------------------------------------
// Laws of handlers, built-ins, compiling and equality.
/// A keyword names itself as an effect.
pub proof fn lemma_effect_name_keyword(name: Seq<char>)
    ensures
        effect_name(ExprView::Constant(AtomView::Keyword(name))) == Some(name),
{
    lemma_eval_unfolds(ExprView::Constant(AtomView::Keyword(name)), ContView::Done);
    lemma_apply_unfolds(ContView::Done, ValueView::Atom(AtomView::Keyword(name)));
}

/// A raise whose continuation begins with a handler of the raised effect
/// is caught by that handler, whatever lies below it.
pub proof fn lemma_resolve_innermost(name: Seq<char>, res: ExprView, k: ContView)
    ensures
        resolve(ContView::Handle(name, Box::new(res), Box::new(k)), Some(name))
            == ContView::Handler(Box::new(res)),
{
}

/// The innermost handler of an effect catches it: where `eff1`, `eff2` and
/// `eff3` name the same effect, resuming
/// `handle eff1 r1 (handle eff2 r2 (raise eff3))` with `x` evaluates `x`,
/// then gives the value of the inner result `r2` to the continuation.
pub proof fn lemma_innermost_handler_catches(
    eff1: ExprView,
    r1: ExprView,
    eff2: ExprView,
    r2: ExprView,
    eff3: ExprView,
    x: ExprView,
    k: ContView,
)
    requires
        effect_name(eff1) is Some,
        effect_name(eff2) == effect_name(eff1),
        effect_name(eff3) == effect_name(eff1),
    ensures
        eval_outcome(
            ExprView::Resume(
                Box::new(
                    ExprView::Handle(
                        Box::new(eff1),
                        Box::new(r1),
                        Box::new(
                            ExprView::Handle(
                                Box::new(eff2),
                                Box::new(r2),
                                Box::new(ExprView::Raise(Box::new(eff3))),
                            ),
                        ),
                    ),
                ),
                Box::new(x),
            ),
            k,
        ) == match eval_outcome(x, ContView::Done) {
            Some(_) => and_then(eval_outcome(r2, ContView::Done), k),
            None => None,
        },
{
    let n = effect_name(eff1).unwrap();
    let raise = ExprView::Raise(Box::new(eff3));
    let inner = ExprView::Handle(Box::new(eff2), Box::new(r2), Box::new(raise));
    let outer = ExprView::Handle(Box::new(eff1), Box::new(r1), Box::new(inner));
    let k1 = ContView::Handle(n, Box::new(r1), Box::new(ContView::Done));
    let k2 = ContView::Handle(n, Box::new(r2), Box::new(k1));
    let caught = ContView::Handler(Box::new(r2));
    lemma_eval_unfolds(outer, ContView::Done);
    lemma_eval_unfolds(inner, k1);
    lemma_eval_unfolds(raise, k2);
    lemma_resolve_innermost(n, r2, k1);
    assert(eval_outcome(outer, ContView::Done) == Some(ValueView::Coroutine(caught)));
    lemma_eval_unfolds(ExprView::Resume(Box::new(outer), Box::new(x)), k);
    if let Some(w) = eval_outcome(x, ContView::Done) {
        lemma_apply_unfolds(caught, w);
    }
}

/// `+` adds: applying `+` to two numbers whose sum fits in `usize` hands
/// the sum to the continuation, and one whose sum does not fit goes wrong.
pub proof fn lemma_plus_adds(a: usize, b: usize, k: ContView)
    ensures
        eval_outcome(
            ExprView::Application(
                Box::new(ExprView::Constant(AtomView::BuiltIn(BuiltIn::Plus))),
                seq![ExprView::Constant(AtomView::Num(a)), ExprView::Constant(AtomView::Num(b))],
            ),
            k,
        ) == if a + b <= usize::MAX {
            apply_outcome(k, ValueView::Atom(AtomView::Num((a + b) as usize)))
        } else {
            None
        },
{
    let plus = ExprView::Constant(AtomView::BuiltIn(BuiltIn::Plus));
    let ea = ExprView::Constant(AtomView::Num(a));
    let eb = ExprView::Constant(AtomView::Num(b));
    let args = seq![ea, eb];
    let hv = ValueView::Atom(AtomView::BuiltIn(BuiltIn::Plus));
    let va = ValueView::Atom(AtomView::Num(a));
    let vb = ValueView::Atom(AtomView::Num(b));
    let head = ContView::Head(args, Box::new(k));
    let rest = args.drop_first();
    assert(rest =~= seq![eb]);
    let empty_v = Seq::<ValueView>::empty();
    let arg0 = ContView::Arg(Box::new(hv), empty_v, rest, Box::new(k));
    let arg1 = ContView::Arg(Box::new(hv), empty_v.push(va), rest.drop_first(), Box::new(k));
    assert(rest.drop_first() =~= Seq::<ExprView>::empty());
    assert(empty_v.push(va).push(vb) =~= seq![va, vb]);
    lemma_eval_unfolds(ExprView::Application(Box::new(plus), args), k);
    lemma_eval_unfolds(plus, head);
    lemma_apply_unfolds(head, hv);
    lemma_eval_unfolds(ea, arg0);
    lemma_apply_unfolds(arg0, va);
    lemma_eval_unfolds(eb, arg1);
    lemma_apply_unfolds(arg1, vb);
}

/// An effect passes a handler of another effect on to an enclosing handler
/// of its own: where `eff1` and `eff3` name one effect and `eff2` another,
/// resuming `handle eff1 r1 (handle eff2 r2 (raise eff3))` with `x`
/// evaluates `x`, then gives the value of the outer result `r1` to the
/// continuation.
pub proof fn lemma_outer_handler_catches(
    eff1: ExprView,
    r1: ExprView,
    eff2: ExprView,
    r2: ExprView,
    eff3: ExprView,
    x: ExprView,
    k: ContView,
)
    requires
        effect_name(eff1) is Some,
        effect_name(eff2) is Some,
        effect_name(eff2) != effect_name(eff1),
        effect_name(eff3) == effect_name(eff1),
    ensures
        eval_outcome(
            ExprView::Resume(
                Box::new(
                    ExprView::Handle(
                        Box::new(eff1),
                        Box::new(r1),
                        Box::new(
                            ExprView::Handle(
                                Box::new(eff2),
                                Box::new(r2),
                                Box::new(ExprView::Raise(Box::new(eff3))),
                            ),
                        ),
                    ),
                ),
                Box::new(x),
            ),
            k,
        ) == match eval_outcome(x, ContView::Done) {
            Some(_) => and_then(eval_outcome(r1, ContView::Done), k),
            None => None,
        },
{
    let n = effect_name(eff1).unwrap();
    let m = effect_name(eff2).unwrap();
    let raise = ExprView::Raise(Box::new(eff3));
    let inner = ExprView::Handle(Box::new(eff2), Box::new(r2), Box::new(raise));
    let outer = ExprView::Handle(Box::new(eff1), Box::new(r1), Box::new(inner));
    let k1 = ContView::Handle(n, Box::new(r1), Box::new(ContView::Done));
    let k2 = ContView::Handle(m, Box::new(r2), Box::new(k1));
    let caught = ContView::Handler(Box::new(r1));
    lemma_eval_unfolds(outer, ContView::Done);
    lemma_eval_unfolds(inner, k1);
    lemma_eval_unfolds(raise, k2);
    lemma_resolve_innermost(n, r1, ContView::Done);
    assert(resolve(k2, Some(n)) == caught);
    lemma_eval_unfolds(ExprView::Resume(Box::new(outer), Box::new(x)), k);
    if let Some(w) = eval_outcome(x, ContView::Done) {
        lemma_apply_unfolds(caught, w);
    }
}

/// A suspended argument of `+` is added when resumed: resuming
/// `(+ suspend b)` with `a` hands `a + b` to the continuation, where the
/// sum fits in `usize`.
pub proof fn lemma_plus_resumed_argument(a: usize, b: usize, k: ContView)
    ensures
        eval_outcome(
            ExprView::Resume(
                Box::new(
                    ExprView::Application(
                        Box::new(ExprView::Constant(AtomView::BuiltIn(BuiltIn::Plus))),
                        seq![ExprView::Suspend, ExprView::Constant(AtomView::Num(b))],
                    ),
                ),
                Box::new(ExprView::Constant(AtomView::Num(a))),
            ),
            k,
        ) == if a + b <= usize::MAX {
            apply_outcome(k, ValueView::Atom(AtomView::Num((a + b) as usize)))
        } else {
            None
        },
{
    let plus = ExprView::Constant(AtomView::BuiltIn(BuiltIn::Plus));
    let pv = ValueView::Atom(AtomView::BuiltIn(BuiltIn::Plus));
    let ea = ExprView::Constant(AtomView::Num(a));
    let eb = ExprView::Constant(AtomView::Num(b));
    let va = ValueView::Atom(AtomView::Num(a));
    let vb = ValueView::Atom(AtomView::Num(b));
    let args = seq![ExprView::Suspend, eb];
    let app = ExprView::Application(Box::new(plus), args);
    let empty_v = Seq::<ValueView>::empty();
    let empty_e = Seq::<ExprView>::empty();
    assert(args.drop_first() =~= seq![eb]);
    assert(seq![eb].drop_first() =~= empty_e);
    let head = ContView::Head(args, Box::new(ContView::Done));
    let a0 = ContView::Arg(Box::new(pv), empty_v, seq![eb], Box::new(ContView::Done));
    let a1 = ContView::Arg(Box::new(pv), empty_v.push(va), empty_e, Box::new(ContView::Done));
    assert(empty_v.push(va).push(vb) =~= seq![va, vb]);
    lemma_eval_unfolds(app, ContView::Done);
    lemma_eval_unfolds(plus, head);
    lemma_apply_unfolds(head, pv);
    lemma_eval_unfolds(ExprView::Suspend, a0);
    assert(resolve(a0, None) == a0);
    lemma_eval_unfolds(ea, ContView::Done);
    lemma_apply_unfolds(ContView::Done, va);
    lemma_eval_unfolds(ExprView::Resume(Box::new(app), Box::new(ea)), k);
    lemma_apply_unfolds(a0, va);
    lemma_eval_unfolds(eb, a1);
    lemma_apply_unfolds(a1, vb);
    if a + b <= usize::MAX {
        lemma_apply_unfolds(ContView::Done, ValueView::Atom(AtomView::Num((a + b) as usize)));
    }
}

/// Only `+` applies: applying an atom other than `+` to two numbers goes
/// wrong, and so does applying `+` to three numbers.
pub proof fn lemma_only_plus_applies(h: AtomView, a: usize, b: usize, c: usize, k: ContView)
    requires
        h != AtomView::BuiltIn(BuiltIn::Plus),
    ensures
        eval_outcome(
            ExprView::Application(
                Box::new(ExprView::Constant(h)),
                seq![ExprView::Constant(AtomView::Num(a)), ExprView::Constant(AtomView::Num(b))],
            ),
            k,
        ) is None,
        eval_outcome(
            ExprView::Application(
                Box::new(ExprView::Constant(AtomView::BuiltIn(BuiltIn::Plus))),
                seq![
                    ExprView::Constant(AtomView::Num(a)),
                    ExprView::Constant(AtomView::Num(b)),
                    ExprView::Constant(AtomView::Num(c)),
                ],
            ),
            k,
        ) is None,
{
    let ea = ExprView::Constant(AtomView::Num(a));
    let eb = ExprView::Constant(AtomView::Num(b));
    let ec = ExprView::Constant(AtomView::Num(c));
    let va = ValueView::Atom(AtomView::Num(a));
    let vb = ValueView::Atom(AtomView::Num(b));
    let vc = ValueView::Atom(AtomView::Num(c));
    let empty_v = Seq::<ValueView>::empty();
    let empty_e = Seq::<ExprView>::empty();
    // another head
    let hv = ValueView::Atom(h);
    let args = seq![ea, eb];
    let head = ContView::Head(args, Box::new(k));
    assert(args.drop_first() =~= seq![eb]);
    assert(seq![eb].drop_first() =~= empty_e);
    let a0 = ContView::Arg(Box::new(hv), empty_v, seq![eb], Box::new(k));
    let a1 = ContView::Arg(Box::new(hv), empty_v.push(va), empty_e, Box::new(k));
    lemma_eval_unfolds(ExprView::Application(Box::new(ExprView::Constant(h)), args), k);
    lemma_eval_unfolds(ExprView::Constant(h), head);
    lemma_apply_unfolds(head, hv);
    lemma_eval_unfolds(ea, a0);
    lemma_apply_unfolds(a0, va);
    lemma_eval_unfolds(eb, a1);
    lemma_apply_unfolds(a1, vb);
    // three arguments
    let pv = ValueView::Atom(AtomView::BuiltIn(BuiltIn::Plus));
    let plus = ExprView::Constant(AtomView::BuiltIn(BuiltIn::Plus));
    let args3 = seq![ea, eb, ec];
    let head3 = ContView::Head(args3, Box::new(k));
    assert(args3.drop_first() =~= seq![eb, ec]);
    assert(seq![eb, ec].drop_first() =~= seq![ec]);
    assert(seq![ec].drop_first() =~= empty_e);
    let b0 = ContView::Arg(Box::new(pv), empty_v, seq![eb, ec], Box::new(k));
    let b1 = ContView::Arg(Box::new(pv), empty_v.push(va), seq![ec], Box::new(k));
    let b2 = ContView::Arg(Box::new(pv), empty_v.push(va).push(vb), empty_e, Box::new(k));
    lemma_eval_unfolds(ExprView::Application(Box::new(plus), args3), k);
    lemma_eval_unfolds(plus, head3);
    lemma_apply_unfolds(head3, pv);
    lemma_eval_unfolds(ea, b0);
    lemma_apply_unfolds(b0, va);
    lemma_eval_unfolds(eb, b1);
    lemma_apply_unfolds(b1, vb);
    lemma_eval_unfolds(ec, b2);
    lemma_apply_unfolds(b2, vc);
    assert(empty_v.push(va).push(vb).push(vc).len() == 3);
}

/// Compiling refuses `if`, and a raise or a handler whose effect names no
/// keyword, against any continuation.
pub proof fn lemma_compile_refuses(c: ExprView, t: ExprView, f: ExprView, eff: ExprView, k: ContView)
    requires
        effect_name(eff) is None,
    ensures
        !compiles(ExprView::IfElse(Box::new(c), Box::new(t), Box::new(f)), k),
        !compiles(ExprView::Raise(Box::new(eff)), k),
        !compiles(ExprView::Handle(Box::new(eff), Box::new(t), Box::new(f)), k),
{
}

/// Whether `e` has no `if` outside quotations, and the effect of each of its
/// handlers and raises names a keyword.
pub open spec fn well_formed(e: ExprView) -> bool
    decreases e,
{
    match e {
        ExprView::IfElse(_, _, _) => false,
        ExprView::Application(f, args) => well_formed(*f) && all_well_formed(args),
        ExprView::Resume(c, r) => well_formed(*c) && well_formed(*r),
        ExprView::Handle(eff, res, body) => well_formed(*eff) && effect_name(*eff) is Some
            && well_formed(*res) && well_formed(*body),
        ExprView::Raise(eff) => well_formed(*eff) && effect_name(*eff) is Some,
        _ => true,
    }
}

/// Whether each of the expressions is well formed.
pub open spec fn all_well_formed(s: Seq<ExprView>) -> bool
    decreases s,
{
    if s.len() == 0 {
        true
    } else {
        well_formed(s[0]) && all_well_formed(s.drop_first())
    }
}

/// Whether the argument lists that the continuation still has to compile
/// are well formed.
pub open spec fn cont_well_formed(k: ContView) -> bool
    decreases k,
{
    match k {
        ContView::Head(args, k2) => all_well_formed(args) && cont_well_formed(*k2),
        ContView::Handle(_, _, k2) => cont_well_formed(*k2),
        _ => true,
    }
}

/// Compiling accepts every well-formed program: one with no `if` outside
/// quotations, whose handlers and raises name keywords, against a
/// continuation whose pending arguments are well formed.
pub proof fn lemma_well_formed_compiles(e: ExprView, k: ContView)
    requires
        well_formed(e),
        cont_well_formed(k),
    ensures
        compiles(e, k),
    decreases expr_size(e) + cont_size(k),
{
    match e {
        ExprView::Constant(_) => lemma_well_formed_finishes(k),
        ExprView::Quote(_) => lemma_well_formed_finishes(k),
        ExprView::Application(f, args) => {
            lemma_well_formed_compiles(*f, ContView::Head(args, Box::new(k)));
        },
        ExprView::Resume(c, r) => {
            lemma_well_formed_compiles(*c, ContView::Done);
            lemma_well_formed_compiles(*r, ContView::Done);
            lemma_well_formed_finishes(k);
        },
        ExprView::Handle(eff, res, body) => {
            lemma_well_formed_compiles(*eff, ContView::Done);
            lemma_well_formed_compiles(*res, ContView::Done);
            let name = effect_name(*eff).unwrap();
            lemma_well_formed_compiles(*body, ContView::Handle(name, res, Box::new(k)));
        },
        ExprView::Raise(eff) => {
            lemma_well_formed_compiles(*eff, ContView::Done);
        },
        _ => {},
    }
}

proof fn lemma_well_formed_finishes(k: ContView)
    requires
        cont_well_formed(k),
    ensures
        finishes(k),
    decreases cont_size(k),
{
    match k {
        ContView::Head(args, k2) => {
            lemma_well_formed_finishes(*k2);
            lemma_well_formed_all(args);
        },
        ContView::Handle(_, _, k2) => lemma_well_formed_finishes(*k2),
        _ => {},
    }
}

proof fn lemma_well_formed_all(s: Seq<ExprView>)
    requires
        all_well_formed(s),
    ensures
        all_compile(s),
    decreases exprs_size(s) + 1,
{
    if s.len() > 0 {
        lemma_well_formed_compiles(s[0], ContView::Done);
        lemma_well_formed_all(s.drop_first());
    }
}

/// Two quotations are equal exactly when they quote the same expressions.
pub proof fn lemma_quotes_equal(x: Seq<ExprView>, y: Seq<ExprView>)
    ensures
        value_eq(ValueView::Quote(x), ValueView::Quote(y)) <==> x == y,
{
}

/// Two atoms are equal exactly when they are the same atom; an atom, a
/// quotation and a coroutine are never equal to one of another kind.
pub proof fn lemma_atoms_equal(a: AtomView, b: AtomView, q: Seq<ExprView>, kc: ContView)
    ensures
        value_eq(ValueView::Atom(a), ValueView::Atom(b)) <==> a == b,
        !value_eq(ValueView::Atom(a), ValueView::Quote(q)),
        !value_eq(ValueView::Atom(a), ValueView::Coroutine(kc)),
        !value_eq(ValueView::Quote(q), ValueView::Coroutine(kc)),
{
}

} // verus!
