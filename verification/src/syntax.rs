//! The syntax of the effects language: atoms and expressions.
use vstd::prelude::*;
use crate::text::{debug_string, debug_text, decimal, push_decimal};

verus! {

/// The built-in functions.
#[derive(PartialEq, Eq, Structural, Clone, Copy, Debug)]
pub enum BuiltIn {
    Plus,
}

/// Atoms: numbers, built-in functions and keywords (`:name`).
#[derive(Debug)]
pub enum Atom {
    Num(usize),
    BuiltIn(BuiltIn),
    Keyword(String),
}

/// Expressions.
#[derive(Debug)]
pub enum Expr {
    /// An atom.
    Constant(Atom),
    /// `(f a b ...)`: a function applied to arguments.
    Application(Box<Expr>, Vec<Expr>),
    /// `if c t f`.
    IfElse(Box<Expr>, Box<Expr>, Box<Expr>),
    /// A quoted list of expressions, left unevaluated.
    Quote(Vec<Expr>),
    /// `suspend`: captures the continuation as a coroutine.
    Suspend,
    /// `resume c r`: resumes the coroutine `c` with the value of `r`.
    Resume(Box<Expr>, Box<Expr>),
    /// `handle e r b`: evaluates `b`; where `b` raises the effect `e`, the
    /// raise resumes to the value of `r`.
    Handle(Box<Expr>, Box<Expr>, Box<Expr>),
    /// `raise e`: raises the effect `e`.
    Raise(Box<Expr>),
}

/// The mathematical model of an atom.
pub enum AtomView {
    Num(usize),
    BuiltIn(BuiltIn),
    Keyword(Seq<char>),
}

/// The mathematical model of an expression.
pub enum ExprView {
    Constant(AtomView),
    Application(Box<ExprView>, Seq<ExprView>),
    IfElse(Box<ExprView>, Box<ExprView>, Box<ExprView>),
    Quote(Seq<ExprView>),
    Suspend,
    Resume(Box<ExprView>, Box<ExprView>),
    Handle(Box<ExprView>, Box<ExprView>, Box<ExprView>),
    Raise(Box<ExprView>),
}

impl View for Atom {
    type V = AtomView;

    open spec fn view(&self) -> AtomView {
        match self {
            Atom::Num(n) => AtomView::Num(*n),
            Atom::BuiltIn(b) => AtomView::BuiltIn(*b),
            Atom::Keyword(s) => AtomView::Keyword(s@),
        }
    }
}

/// The models of a sequence of expressions.
pub open spec fn exprs_view(s: Seq<Expr>) -> Seq<ExprView>
    decreases s,
{
    Seq::new(
        s.len(),
        |i: int|
            if 0 <= i < s.len() {
                expr_view(s[i])
            } else {
                ExprView::Suspend
            },
    )
}

/// The model of an expression.
pub open spec fn expr_view(e: Expr) -> ExprView
    decreases e,
{
    match e {
        Expr::Constant(a) => ExprView::Constant(a@),
        Expr::Application(f, args) => ExprView::Application(
            Box::new(expr_view(*f)),
            exprs_view(args@),
        ),
        Expr::IfElse(c, t, f) => ExprView::IfElse(
            Box::new(expr_view(*c)),
            Box::new(expr_view(*t)),
            Box::new(expr_view(*f)),
        ),
        Expr::Quote(q) => ExprView::Quote(exprs_view(q@)),
        Expr::Suspend => ExprView::Suspend,
        Expr::Resume(c, r) => ExprView::Resume(Box::new(expr_view(*c)), Box::new(expr_view(*r))),
        Expr::Handle(e, r, b) => ExprView::Handle(
            Box::new(expr_view(*e)),
            Box::new(expr_view(*r)),
            Box::new(expr_view(*b)),
        ),
        Expr::Raise(e) => ExprView::Raise(Box::new(expr_view(*e))),
    }
}

impl View for Expr {
    type V = ExprView;

    open spec fn view(&self) -> ExprView {
        expr_view(*self)
    }
}

impl Atom {
    /// A copy of the atom.
    pub fn duplicate(&self) -> (r: Atom)
        ensures
            r@ == self@,
    {
        match self {
            Atom::Num(n) => Atom::Num(*n),
            Atom::BuiltIn(b) => Atom::BuiltIn(*b),
            Atom::Keyword(s) => Atom::Keyword(s.clone()),
        }
    }

    /// Whether two atoms are the same.
    pub fn same(&self, other: &Atom) -> (r: bool)
        ensures
            r == (self@ == other@),
    {
        match (self, other) {
            (Atom::Num(a), Atom::Num(b)) => *a == *b,
            (Atom::BuiltIn(a), Atom::BuiltIn(b)) => *a == *b,
            (Atom::Keyword(a), Atom::Keyword(b)) => *a == *b,
            _ => false,
        }
    }
}

/// A copy of a sequence of expressions.
pub fn duplicate_exprs(v: &Vec<Expr>) -> (r: Vec<Expr>)
    ensures
        exprs_view(r@) == exprs_view(v@),
    decreases v, 0nat,
{
    let mut r: Vec<Expr> = Vec::new();
    let mut i: usize = 0;
    while i < v.len()
        invariant
            i <= v.len(),
            r.len() == i,
            forall|j: int| 0 <= j < i ==> expr_view(#[trigger] r@[j]) == expr_view(v@[j]),
        decreases v.len() - i,
    {
        proof {
            broadcast use vstd::std_specs::vec::axiom_vec_index_decreases;
            assert(decreases_to!(v => v@[i as int]));
        }
        let e = v[i].duplicate();
        r.push(e);
        i = i + 1;
    }
    assert(exprs_view(r@) =~= exprs_view(v@));
    r
}

/// Whether two sequences of expressions are the same.
pub fn same_exprs(a: &Vec<Expr>, b: &Vec<Expr>) -> (r: bool)
    ensures
        r == (exprs_view(a@) == exprs_view(b@)),
    decreases a, 0nat,
{
    if a.len() != b.len() {
        assert(exprs_view(a@).len() != exprs_view(b@).len());
        return false;
    }
    let mut i: usize = 0;
    while i < a.len()
        invariant
            i <= a.len(),
            a.len() == b.len(),
            forall|j: int| 0 <= j < i ==> expr_view(#[trigger] a@[j]) == expr_view(b@[j]),
        decreases a.len() - i,
    {
        proof {
            broadcast use vstd::std_specs::vec::axiom_vec_index_decreases;
            assert(decreases_to!(a => a@[i as int]));
        }
        if !a[i].same(&b[i]) {
            assert(exprs_view(a@)[i as int] != exprs_view(b@)[i as int]);
            return false;
        }
        i = i + 1;
    }
    assert(exprs_view(a@) =~= exprs_view(b@));
    true
}

impl Expr {
    /// A copy of the expression.
    pub fn duplicate(&self) -> (r: Expr)
        ensures
            r@ == self@,
        decreases self, 1nat,
    {
        match self {
            Expr::Constant(a) => Expr::Constant(a.duplicate()),
            Expr::Application(f, args) => Expr::Application(
                Box::new(f.duplicate()),
                duplicate_exprs(args),
            ),
            Expr::IfElse(c, t, f) => Expr::IfElse(
                Box::new(c.duplicate()),
                Box::new(t.duplicate()),
                Box::new(f.duplicate()),
            ),
            Expr::Quote(q) => Expr::Quote(duplicate_exprs(q)),
            Expr::Suspend => Expr::Suspend,
            Expr::Resume(c, r) => Expr::Resume(Box::new(c.duplicate()), Box::new(r.duplicate())),
            Expr::Handle(e, r, b) => Expr::Handle(
                Box::new(e.duplicate()),
                Box::new(r.duplicate()),
                Box::new(b.duplicate()),
            ),
            Expr::Raise(e) => Expr::Raise(Box::new(e.duplicate())),
        }
    }

    /// Whether two expressions are the same.
    pub fn same(&self, other: &Expr) -> (r: bool)
        ensures
            r == (self@ == other@),
        decreases self, 1nat,
    {
        match (self, other) {
            (Expr::Constant(a), Expr::Constant(b)) => a.same(b),
            (Expr::Application(f, x), Expr::Application(g, y)) => f.same(g) && same_exprs(x, y),
            (Expr::IfElse(a, b, c), Expr::IfElse(d, e, f)) => a.same(d) && b.same(e) && c.same(f),
            (Expr::Quote(x), Expr::Quote(y)) => same_exprs(x, y),
            (Expr::Suspend, Expr::Suspend) => true,
            (Expr::Resume(a, b), Expr::Resume(c, d)) => a.same(c) && b.same(d),
            (Expr::Handle(a, b, c), Expr::Handle(d, e, f)) => a.same(d) && b.same(e) && c.same(f),
            (Expr::Raise(a), Expr::Raise(b)) => a.same(b),
            _ => false,
        }
    }
}

// ---------------------------------------------------------------------------
// Text.
/// An atom as written in a program: a number in decimal digits, `+`, or a
/// keyword after a colon.
pub open spec fn atom_source(a: AtomView) -> Seq<char> {
    match a {
        AtomView::Num(n) => decimal(n as nat),
        AtomView::BuiltIn(_) => "+"@,
        AtomView::Keyword(k) => ":"@ + k,
    }
}

/// An atom in its debug form: `Num(3)`, `BuiltIn(Plus)`, `Keyword("a")`.
pub open spec fn atom_debug(a: AtomView) -> Seq<char> {
    match a {
        AtomView::Num(n) => "Num("@ + decimal(n as nat) + ")"@,
        AtomView::BuiltIn(_) => "BuiltIn(Plus)"@,
        AtomView::Keyword(k) => "Keyword("@ + debug_text(k) + ")"@,
    }
}

/// Expressions as written in a program, separated by spaces.
pub open spec fn joined(s: Seq<ExprView>) -> Seq<char>
    decreases s,
{
    if s.len() == 0 {
        Seq::empty()
    } else if s.len() == 1 {
        expr_text(s[0])
    } else {
        joined(s.drop_last()) + " "@ + expr_text(s.last())
    }
}

/// An expression as written in a program: an application in brackets,
/// the other forms as a word followed by their parts, a quotation as a
/// quoted list.
pub open spec fn expr_text(e: ExprView) -> Seq<char>
    decreases e,
{
    match e {
        ExprView::Constant(a) => atom_source(a),
        ExprView::Application(f, args) => if args.len() == 0 {
            "("@ + expr_text(*f) + ")"@
        } else {
            "("@ + expr_text(*f) + " "@ + joined(args) + ")"@
        },
        ExprView::IfElse(c, t, f) => "if "@ + expr_text(*c) + " "@ + expr_text(*t) + " "@
            + expr_text(*f),
        ExprView::Quote(q) => "'("@ + joined(q) + ")"@,
        ExprView::Suspend => "suspend"@,
        ExprView::Resume(c, r) => "resume "@ + expr_text(*c) + " "@ + expr_text(*r),
        ExprView::Handle(eff, r, b) => "handle "@ + expr_text(*eff) + " "@ + expr_text(*r) + " "@
            + expr_text(*b),
        ExprView::Raise(eff) => "raise "@ + expr_text(*eff),
    }
}

/// How atoms and expressions are written: a keyword after a colon, a
/// number as `Num(` digits `)` in debug form, the words of the prefix
/// forms, an application in brackets with its parts separated by spaces.
pub proof fn lemma_text_forms(n: usize, k: Seq<char>, c: ExprView, r: ExprView, a: ExprView)
    ensures
        atom_source(AtomView::Keyword(k)) == seq![':'] + k,
        atom_source(AtomView::BuiltIn(BuiltIn::Plus)) == seq!['+'],
        atom_debug(AtomView::Num(n)) == seq!['N', 'u', 'm', '('] + decimal(n as nat) + seq![')'],
        expr_text(ExprView::Suspend) == seq!['s', 'u', 's', 'p', 'e', 'n', 'd'],
        expr_text(ExprView::Resume(Box::new(c), Box::new(r))) == seq![
            'r',
            'e',
            's',
            'u',
            'm',
            'e',
            ' ',
        ] + expr_text(c) + seq![' '] + expr_text(r),
        expr_text(ExprView::Raise(Box::new(c))) == seq!['r', 'a', 'i', 's', 'e', ' '] + expr_text(
            c,
        ),
        expr_text(ExprView::Application(Box::new(c), seq![r, a])) == seq!['('] + expr_text(c)
            + seq![' '] + expr_text(r) + seq![' '] + expr_text(a) + seq![')'],
{
    reveal_strlit(":");
    reveal_strlit("+");
    reveal_strlit("Num(");
    reveal_strlit(")");
    reveal_strlit("(");
    reveal_strlit(" ");
    reveal_strlit("suspend");
    reveal_strlit("resume ");
    reveal_strlit("raise ");
    let two = seq![r, a];
    assert(two.drop_last() =~= seq![r]);
    assert(joined(seq![r]) == expr_text(r));
    assert(joined(two) == expr_text(r) + " "@ + expr_text(a));
    assert(expr_text(ExprView::Application(Box::new(c), two)) =~= seq!['('] + expr_text(c)
        + seq![' '] + expr_text(r) + seq![' '] + expr_text(a) + seq![')']);
    assert(expr_text(ExprView::Resume(Box::new(c), Box::new(r))) =~= seq![
        'r',
        'e',
        's',
        'u',
        'm',
        'e',
        ' ',
    ] + expr_text(c) + seq![' '] + expr_text(r));
    assert(expr_text(ExprView::Raise(Box::new(c))) =~= seq!['r', 'a', 'i', 's', 'e', ' ']
        + expr_text(c));
    assert(atom_debug(AtomView::Num(n)) =~= seq!['N', 'u', 'm', '('] + decimal(n as nat) + seq![
        ')',
    ]);
    assert(expr_text(ExprView::Suspend) =~= seq!['s', 'u', 's', 'p', 'e', 'n', 'd']);
    assert(atom_source(AtomView::Keyword(k)) =~= seq![':'] + k);
}

/// Appends the text of the expressions, separated by spaces.
pub(crate) fn push_joined(s: &mut String, v: &Vec<Expr>)
    ensures
        final(s)@ == old(s)@ + joined(exprs_view(v@)),
    decreases v, 0nat,
{
    let ghost t = exprs_view(v@);
    let ghost s0 = s@;
    assert(t.take(0) =~= Seq::<ExprView>::empty());
    assert(s@ =~= s0 + joined(t.take(0)));
    let mut i: usize = 0;
    while i < v.len()
        invariant
            i <= v.len(),
            t == exprs_view(v@),
            t.len() == v.len(),
            s@ == s0 + joined(t.take(i as int)),
        decreases v.len() - i,
    {
        proof {
            broadcast use vstd::std_specs::vec::axiom_vec_index_decreases;
            assert(decreases_to!(v => v@[i as int]));
        }
        let ghost before = s@;
        if i > 0 {
            s.append(" ");
        }
        push_expr(s, &v[i]);
        proof {
            let ti = t.take(i as int + 1);
            assert(ti.drop_last() =~= t.take(i as int));
            assert(ti.last() == t[i as int]);
            assert(t[i as int] == expr_view(v@[i as int]));
            if i == 0 {
                assert(ti.len() == 1);
                assert(ti[0] == t[0]);
            }
            assert(s@ =~= s0 + joined(ti));
        }
        i = i + 1;
    }
    assert(t.take(v.len() as int) =~= t);
}

/// Appends the text of the expression.
pub(crate) fn push_expr(s: &mut String, e: &Expr)
    ensures
        final(s)@ == old(s)@ + expr_text(e@),
    decreases e, 1nat,
{
    let ghost s0 = s@;
    match e {
        Expr::Constant(a) => match a {
            Atom::Num(n) => push_decimal(s, *n),
            Atom::BuiltIn(_) => s.append("+"),
            Atom::Keyword(k) => {
                s.append(":");
                s.append(k.as_str());
            },
        },
        Expr::Application(f, args) => {
            s.append("(");
            push_expr(s, f);
            if args.len() > 0 {
                s.append(" ");
                push_joined(s, args);
            }
            s.append(")");
        },
        Expr::IfElse(c, t, f) => {
            s.append("if ");
            push_expr(s, c);
            s.append(" ");
            push_expr(s, t);
            s.append(" ");
            push_expr(s, f);
        },
        Expr::Quote(q) => {
            s.append("'(");
            push_joined(s, q);
            s.append(")");
        },
        Expr::Suspend => s.append("suspend"),
        Expr::Resume(c, r) => {
            s.append("resume ");
            push_expr(s, c);
            s.append(" ");
            push_expr(s, r);
        },
        Expr::Handle(eff, r, b) => {
            s.append("handle ");
            push_expr(s, eff);
            s.append(" ");
            push_expr(s, r);
            s.append(" ");
            push_expr(s, b);
        },
        Expr::Raise(eff) => {
            s.append("raise ");
            push_expr(s, eff);
        },
    }
    assert(s@ =~= s0 + expr_text(e@));
}

impl Atom {
    /// The atom in its debug form: `Num(3)`, `BuiltIn(Plus)`, `Keyword("a")`.
    pub fn describe(&self) -> (s: String)
        ensures
            s@ == atom_debug(self@),
    {
        let mut s = String::new();
        match self {
            Atom::Num(n) => {
                s.append("Num(");
                push_decimal(&mut s, *n);
                s.append(")");
            },
            Atom::BuiltIn(_) => s.append("BuiltIn(Plus)"),
            Atom::Keyword(k) => {
                s.append("Keyword(");
                let d = debug_string(k);
                s.append(d.as_str());
                s.append(")");
            },
        }
        assert(s@ =~= atom_debug(self@));
        s
    }
}

impl Expr {
    /// The expression as written in a program.
    pub fn describe(&self) -> (s: String)
        ensures
            s@ == expr_text(self@),
    {
        let mut s = String::new();
        push_expr(&mut s, self);
        assert(s@ =~= expr_text(self@));
        s
    }
}

} // verus!
