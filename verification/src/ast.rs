//! The abstract syntax tree / runtime values of the language, and their
//! mathematical model.
use vstd::prelude::*;

verus! {

/// A handle to an environment frame held by an interpreter's store.
#[derive(Debug, Clone, Copy, PartialEq, Eq)]
pub struct Environment {
    pub id: usize,
}

/// The built-in operations that a native function value can stand for.
#[derive(Debug, Clone, Copy, PartialEq, Eq)]
pub enum NativeFn {
    Add,
    Equals,
    Multiply,
    Subtract,
    Divide,
    LessThan,
    GreaterThan,
    LessEqual,
    GreaterEqual,
    LogInfo,
    LogError,
    StringConcat,
    StringReverse,
    StringLen,
    StringToUpper,
    StringToLower,
    StringTrim,
}

/// A user-defined function: parameter names, body, and captured environment.
#[derive(Debug)]
pub struct LispFunction {
    pub params: Vec<String>,
    pub body: Box<Expr>,
    pub closure: Environment,
}

/// A function implemented by the interpreter itself.
#[derive(Debug, Clone)]
pub struct NativeFunction {
    pub name: String,
    pub func: NativeFn,
}

/// A module: where it came from and the environment holding its members.
#[derive(Debug, Clone)]
pub struct LispModule {
    pub path: String,
    pub env: Environment,
}

/// An expression, which is also a runtime value.
/// A number is held as the bit pattern of an IEEE-754 binary64 value.
#[derive(Debug)]
pub enum Expr {
    Symbol(String),
    Number(u64),
    List(Vec<Expr>),
    Function(LispFunction),
    NativeFunction(NativeFunction),
    Bool(bool),
    Nil,
    String(String),
    Module(LispModule),
}

/// The mathematical model of an expression.
pub enum SExpr {
    Symbol(Seq<char>),
    Number(u64),
    List(Seq<SExpr>),
    Function(Seq<Seq<char>>, Box<SExpr>, nat),
    Native(Seq<char>, NativeFn),
    Bool(bool),
    Nil,
    Str(Seq<char>),
    Module(Seq<char>, nat),
}

pub open spec fn view_strings(v: Seq<String>) -> Seq<Seq<char>> {
    Seq::new(v.len(), |i: int| v[i]@)
}

pub open spec fn view_exprs(s: Seq<Expr>) -> Seq<SExpr>
    decreases s,
{
    if s.len() == 0 {
        Seq::empty()
    } else {
        view_exprs(s.drop_last()).push(s.last().view_expr())
    }
}

impl Expr {
    pub open spec fn view_expr(&self) -> SExpr
        decreases self,
    {
        match self {
            Expr::Symbol(s) => SExpr::Symbol(s@),
            Expr::Number(n) => SExpr::Number(*n),
            Expr::List(v) => SExpr::List(view_exprs(v@)),
            Expr::Function(f) => SExpr::Function(
                view_strings(f.params@),
                Box::new(f.body.view_expr()),
                f.closure.id as nat,
            ),
            Expr::NativeFunction(nf) => SExpr::Native(nf.name@, nf.func),
            Expr::Bool(b) => SExpr::Bool(*b),
            Expr::Nil => SExpr::Nil,
            Expr::String(s) => SExpr::Str(s@),
            Expr::Module(m) => SExpr::Module(m.path@, m.env.id as nat),
        }
    }
}

impl View for Expr {
    type V = SExpr;

    open spec fn view(&self) -> SExpr {
        self.view_expr()
    }
}

pub proof fn lemma_view_exprs(s: Seq<Expr>)
    ensures
        view_exprs(s).len() == s.len(),
        forall|i: int| 0 <= i < s.len() ==> #[trigger] view_exprs(s)[i] == s[i].view_expr(),
    decreases s.len(),
{
    if s.len() > 0 {
        lemma_view_exprs(s.drop_last());
    }
}

pub fn clone_strings(v: &Vec<String>) -> (r: Vec<String>)
    ensures
        view_strings(r@) == view_strings(v@),
{
    let mut r: Vec<String> = Vec::new();
    let mut i: usize = 0;
    while i < v.len()
        invariant
            i <= v.len(),
            r@.len() == i,
            forall|k: int| 0 <= k < i ==> #[trigger] r@[k]@ == v@[k]@,
        decreases v.len() - i,
    {
        r.push(v[i].clone());
        i = i + 1;
    }
    assert(view_strings(r@) =~= view_strings(v@));
    r
}

impl Clone for LispFunction {
    fn clone(&self) -> (r: Self)
        ensures
            r.view_fn() == self.view_fn(),
    {
        LispFunction {
            params: clone_strings(&self.params),
            body: Box::new((*self.body).clone()),
            closure: self.closure,
        }
    }
}

impl LispFunction {
    pub open spec fn view_fn(&self) -> (Seq<Seq<char>>, SExpr, nat) {
        (view_strings(self.params@), self.body.view_expr(), self.closure.id as nat)
    }
}

impl Clone for Expr {
    fn clone(&self) -> (r: Self)
        ensures
            r@ == self@,
        decreases self,
    {
        match self {
            Expr::Symbol(s) => Expr::Symbol(s.clone()),
            Expr::Number(n) => Expr::Number(*n),
            Expr::List(v) => {
                let mut r: Vec<Expr> = Vec::new();
                let mut i: usize = 0;
                while i < v.len()
                    invariant
                        i <= v.len(),
                        r@.len() == i,
                        *self == Expr::List(*v),
                        forall|k: int| 0 <= k < i ==> #[trigger] r@[k]@ == v@[k]@,
                    decreases v.len() - i,
                {
                    let elem = &v[i];
                    proof {
                        vstd::std_specs::vec::axiom_vec_index_decreases(*v, i as int);
                        assert((*self)->List_0 == *v);
                        assert(decreases_to!(*self => (*self)->List_0));
                        assert(decreases_to!(*v => v[i as int]));
                        assert(decreases_to!(*self => *elem));
                    }
                    r.push(elem.clone());
                    i = i + 1;
                }
                proof {
                    lemma_view_exprs(r@);
                    lemma_view_exprs(v@);
                    assert forall|k: int| 0 <= k < r@.len() implies view_exprs(r@)[k] == view_exprs(v@)[k] by {
                        assert(r@[k]@ == v@[k]@);
                    }
                    assert(view_exprs(r@) =~= view_exprs(v@));
                }
                Expr::List(r)
            },
            Expr::Function(f) => {
                let params = clone_strings(&f.params);
                let body = (*f.body).clone();
                Expr::Function(LispFunction { params, body: Box::new(body), closure: f.closure })
            },
            Expr::NativeFunction(nf) => Expr::NativeFunction(NativeFunction { name: nf.name.clone(), func: nf.func }),
            Expr::Bool(b) => Expr::Bool(*b),
            Expr::Nil => Expr::Nil,
            Expr::String(s) => Expr::String(s.clone()),
            Expr::Module(m) => Expr::Module(LispModule { path: m.path.clone(), env: m.env }),
        }
    }
}

// ---------------------------------------------------------------------------
// Equality of values: numbers compare as binary64 values, functions by
// their parameters and body, native functions by name, modules by path.

/// Whether two values are equal.
pub open spec fn expr_equal(a: SExpr, b: SExpr) -> bool
    decreases a, 1int, 0int,
{
    match (a, b) {
        (SExpr::Symbol(x), SExpr::Symbol(y)) => x == y,
        (SExpr::Number(x), SExpr::Number(y)) => crate::builtins::float_eq(x, y),
        (SExpr::List(xs), SExpr::List(ys)) => xs.len() == ys.len() && exprs_equal(xs, ys, 0),
        (SExpr::Function(p1, b1, _), SExpr::Function(p2, b2, _)) => p1 == p2 && expr_equal(*b1, *b2),
        (SExpr::Native(n1, _), SExpr::Native(n2, _)) => n1 == n2,
        (SExpr::Bool(x), SExpr::Bool(y)) => x == y,
        (SExpr::Nil, SExpr::Nil) => true,
        (SExpr::Str(x), SExpr::Str(y)) => x == y,
        (SExpr::Module(p1, _), SExpr::Module(p2, _)) => p1 == p2,
        _ => false,
    }
}

/// Whether `xs[k..]` and `ys[k..]` are equal, element by element.
pub open spec fn exprs_equal(xs: Seq<SExpr>, ys: Seq<SExpr>, k: int) -> bool
    decreases SExpr::List(xs), 0int, xs.len() - k,
{
    if k < 0 || k >= xs.len() {
        true
    } else {
        proof {
            let l = SExpr::List(xs);
            assert(l->List_0 == xs);
            assert(decreases_to!(l => l->List_0));
            assert(decreases_to!(xs => xs[k]));
        }
        k < ys.len() && expr_equal(xs[k], ys[k]) && exprs_equal(xs, ys, k + 1)
    }
}

/// Whether two lists of strings are equal.
pub fn strings_equal(a: &Vec<String>, b: &Vec<String>) -> (r: bool)
    ensures
        r == (view_strings(a@) == view_strings(b@)),
{
    if a.len() != b.len() {
        assert(view_strings(a@).len() != view_strings(b@).len());
        return false;
    }
    let mut i: usize = 0;
    while i < a.len()
        invariant
            i <= a@.len() == b@.len(),
            forall|k: int| 0 <= k < i ==> a@[k]@ == b@[k]@,
        decreases a@.len() - i,
    {
        if !crate::env::string_eq(a[i].as_str(), b[i].as_str()) {
            assert(view_strings(a@)[i as int] != view_strings(b@)[i as int]);
            return false;
        }
        i = i + 1;
    }
    assert(view_strings(a@) =~= view_strings(b@));
    true
}

/// Whether two values are equal.
pub fn expr_eq(a: &Expr, b: &Expr) -> (r: bool)
    ensures
        r == expr_equal(a@, b@),
    decreases a@, 1int, 0int,
{
    match (a, b) {
        (Expr::Symbol(x), Expr::Symbol(y)) => crate::env::string_eq(x.as_str(), y.as_str()),
        (Expr::Number(x), Expr::Number(y)) => crate::builtins::numbers_equal(*x, *y),
        (Expr::List(xs), Expr::List(ys)) => {
            proof {
                lemma_view_exprs(xs@);
                lemma_view_exprs(ys@);
            }
            if xs.len() != ys.len() {
                return false;
            }
            let ghost vx = view_exprs(xs@);
            let ghost vy = view_exprs(ys@);
            let mut k = xs.len();
            while k > 0
                invariant
                    k <= xs@.len() == ys@.len(),
                    vx == view_exprs(xs@),
                    vy == view_exprs(ys@),
                    vx.len() == xs@.len(),
                    vy.len() == ys@.len(),
                    forall|i: int| 0 <= i < xs@.len() ==> #[trigger] vx[i] == xs@[i]@,
                    forall|i: int| 0 <= i < ys@.len() ==> #[trigger] vy[i] == ys@[i]@,
                    a@ == SExpr::List(vx),
                    b@ == SExpr::List(vy),
                    exprs_equal(vx, vy, k as int),
                decreases k,
            {
                proof {
                    let l = SExpr::List(vx);
                    assert(l->List_0 == vx);
                    assert(decreases_to!(l => l->List_0));
                    assert(decreases_to!(vx => vx[k - 1]));
                }
                assert(vx[k - 1] == xs@[k - 1]@);
                assert(vy[k - 1] == ys@[k - 1]@);
                if !expr_eq(&xs[k - 1], &ys[k - 1]) {
                    proof { lemma_exprs_equal_at(vx, vy, 0, k - 1); }
                    return false;
                }
                k = k - 1;
            }
            true
        },
        (Expr::Function(f1), Expr::Function(f2)) => {
            if !strings_equal(&f1.params, &f2.params) {
                return false;
            }
            proof {
                assert(decreases_to!(a@ => *(a@->Function_1)));
            }
            expr_eq(&f1.body, &f2.body)
        },
        (Expr::NativeFunction(n1), Expr::NativeFunction(n2)) => crate::env::string_eq(n1.name.as_str(), n2.name.as_str()),
        (Expr::Bool(x), Expr::Bool(y)) => *x == *y,
        (Expr::Nil, Expr::Nil) => true,
        (Expr::String(x), Expr::String(y)) => crate::env::string_eq(x.as_str(), y.as_str()),
        (Expr::Module(m1), Expr::Module(m2)) => crate::env::string_eq(m1.path.as_str(), m2.path.as_str()),
        _ => false,
    }
}

/// A false element comparison at `j` makes the lists unequal from `k` on.
proof fn lemma_exprs_equal_at(xs: Seq<SExpr>, ys: Seq<SExpr>, k: int, j: int)
    requires
        0 <= k <= j < xs.len(),
        !expr_equal(xs[j], ys[j]),
    ensures
        !exprs_equal(xs, ys, k),
    decreases j - k,
{
    if k < j {
        lemma_exprs_equal_at(xs, ys, k + 1, j);
    }
}

impl PartialEq for Expr {
    fn eq(&self, other: &Self) -> (r: bool) {
        expr_eq(self, other)
    }
}

impl vstd::std_specs::cmp::PartialEqSpecImpl for Expr {
    open spec fn obeys_eq_spec() -> bool {
        true
    }

    open spec fn eq_spec(&self, other: &Self) -> bool {
        expr_equal(self@, other@)
    }
}

impl PartialEq for LispFunction {
    fn eq(&self, other: &Self) -> (r: bool) {
        strings_equal(&self.params, &other.params) && expr_eq(&self.body, &other.body)
    }
}

impl vstd::std_specs::cmp::PartialEqSpecImpl for LispFunction {
    open spec fn obeys_eq_spec() -> bool {
        true
    }

    open spec fn eq_spec(&self, other: &Self) -> bool {
        view_strings(self.params@) == view_strings(other.params@) && expr_equal(self.body@, other.body@)
    }
}

impl PartialEq for NativeFunction {
    fn eq(&self, other: &Self) -> (r: bool) {
        crate::env::string_eq(self.name.as_str(), other.name.as_str())
    }
}

impl vstd::std_specs::cmp::PartialEqSpecImpl for NativeFunction {
    open spec fn obeys_eq_spec() -> bool {
        true
    }

    open spec fn eq_spec(&self, other: &Self) -> bool {
        self.name@ == other.name@
    }
}

impl PartialEq for LispModule {
    fn eq(&self, other: &Self) -> (r: bool) {
        crate::env::string_eq(self.path.as_str(), other.path.as_str())
    }
}

impl vstd::std_specs::cmp::PartialEqSpecImpl for LispModule {
    open spec fn obeys_eq_spec() -> bool {
        true
    }

    open spec fn eq_spec(&self, other: &Self) -> bool {
        self.path@ == other.path@
    }
}

} // verus!
