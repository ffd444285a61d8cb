//! The text forms of values: the `Debug` form used in error messages, and
//! the plain form printed by the `log` functions.
use vstd::prelude::*;
use crate::ast::{Expr, SExpr, view_exprs, view_strings, lemma_view_exprs};
use crate::format::{debug_str, spec_str_debug};
use crate::interp::{agrees, extends, Host, Interpreter, Reply, Request, reply_text};

verus! {

/// A model of the host: the reply it gives to each request.
pub type HostModel = spec_fn(Request) -> Reply;

/// `Debug` form of the strings of `ps`, separated by `", "`.
pub open spec fn debug_strs(ps: Seq<Seq<char>>) -> Seq<char>
    decreases ps.len(),
{
    if ps.len() == 0 {
        Seq::empty()
    } else if ps.len() == 1 {
        spec_str_debug(ps[0])
    } else {
        debug_strs(ps.drop_last()) + ", "@ + spec_str_debug(ps.last())
    }
}

/// The `Debug` form of a value.
pub open spec fn debug_expr(h: HostModel, e: SExpr) -> Seq<char>
    decreases e,
{
    match e {
        SExpr::Symbol(s) => "Symbol("@ + spec_str_debug(s) + ")"@,
        SExpr::Number(n) => "Number("@ + reply_text(h(Request::ShowNumber(n, true))) + ")"@,
        SExpr::List(items) => "List(["@ + debug_items(h, items) + "])"@,
        SExpr::Function(params, body, _) => "Function(LispFunction { params: ["@ + debug_strs(params)
            + "], body: "@ + debug_expr(h, *body) + ", closure: \"<captured_env>\" })"@,
        SExpr::Native(name, _) => "NativeFunction(NativeFunction { name: "@ + spec_str_debug(name)
            + ", func: \"<native_fn_ptr>\" })"@,
        SExpr::Bool(b) => if b { "Bool(true)"@ } else { "Bool(false)"@ },
        SExpr::Nil => "Nil"@,
        SExpr::Str(s) => "String("@ + spec_str_debug(s) + ")"@,
        SExpr::Module(p, _) => "Module(LispModule { path: "@ + spec_str_debug(p)
            + ", env: \"<module_env>\" })"@,
    }
}

/// `Debug` forms of `items`, separated by `", "`.
pub open spec fn debug_items(h: HostModel, items: Seq<SExpr>) -> Seq<char>
    decreases items,
{
    if items.len() == 0 {
        Seq::empty()
    } else if items.len() == 1 {
        debug_expr(h, items[0])
    } else {
        debug_items(h, items.drop_last()) + ", "@ + debug_expr(h, items.last())
    }
}

/// The plain text form of a value.
pub open spec fn lisp_string(h: HostModel, e: SExpr) -> Seq<char>
    decreases e,
{
    match e {
        SExpr::Symbol(s) => s,
        SExpr::Number(n) => reply_text(h(Request::ShowNumber(n, false))),
        SExpr::List(items) => "("@ + lisp_strings(h, items) + ")"@,
        SExpr::Function(_, _, _) => "<function>"@,
        SExpr::Native(name, _) => "<native_function:"@ + name + ">"@,
        SExpr::Bool(b) => if b { "true"@ } else { "false"@ },
        SExpr::Nil => "nil"@,
        SExpr::Str(s) => s,
        SExpr::Module(p, _) => "<module:"@ + p + ">"@,
    }
}

/// Plain forms of `items`, separated by single spaces.
pub open spec fn lisp_strings(h: HostModel, items: Seq<SExpr>) -> Seq<char>
    decreases items,
{
    if items.len() == 0 {
        Seq::empty()
    } else if items.len() == 1 {
        lisp_string(h, items[0])
    } else {
        lisp_strings(h, items.drop_last()) + " "@ + lisp_string(h, items.last())
    }
}

broadcast use crate::interp::group_log;

fn cat3(a: &str, b: &str, c: &str) -> (r: String)
    ensures
        r@ == a@ + b@ + c@,
{
    let mut r = String::from_str(a);
    r.append(b);
    r.append(c);
    r
}

proof fn lemma_debug_items_step(h: HostModel, items: Seq<SExpr>, i: int)
    requires
        0 <= i < items.len(),
    ensures
        debug_items(h, items.take(i + 1)) == if i == 0 {
            debug_expr(h, items[0])
        } else {
            debug_items(h, items.take(i)) + ", "@ + debug_expr(h, items[i])
        },
{
    assert(items.take(i + 1).drop_last() =~= items.take(i));
}

pub proof fn lemma_lisp_strings_step(h: HostModel, items: Seq<SExpr>, i: int)
    requires
        0 <= i < items.len(),
    ensures
        lisp_strings(h, items.take(i + 1)) == if i == 0 {
            lisp_string(h, items[0])
        } else {
            lisp_strings(h, items.take(i)) + " "@ + lisp_string(h, items[i])
        },
{
    assert(items.take(i + 1).drop_last() =~= items.take(i));
}

proof fn lemma_debug_strs_step(ps: Seq<Seq<char>>, i: int)
    requires
        0 <= i < ps.len(),
    ensures
        debug_strs(ps.take(i + 1)) == if i == 0 {
            spec_str_debug(ps[0])
        } else {
            debug_strs(ps.take(i)) + ", "@ + spec_str_debug(ps[i])
        },
{
    assert(ps.take(i + 1).drop_last() =~= ps.take(i));
}

/// The `Debug` forms of strings, separated by `", "`.
pub fn debug_strings(ps: &Vec<String>) -> (r: String)
    ensures
        r@ == debug_strs(view_strings(ps@)),
{
    let ghost vs = view_strings(ps@);
    let mut r = String::new();
    let mut i: usize = 0;
    while i < ps.len()
        invariant
            i <= ps@.len(),
            vs == view_strings(ps@),
            r@ == debug_strs(vs.take(i as int)),
        decreases ps.len() - i,
    {
        proof { lemma_debug_strs_step(vs, i as int); }
        if i > 0 {
            r.append(", ");
        }
        let d = debug_str(ps[i].as_str());
        r.append(d.as_str());
        i = i + 1;
    }
    assert(vs.take(ps@.len() as int) =~= vs);
    r
}

impl<H: Host> Interpreter<H> {
    /// The `Debug` form of a value.
    pub fn debug_expr_exec(&mut self, e: &Expr) -> (r: String)
        ensures
            final(self).state() == old(self).state(),
            extends(final(self).log(), old(self).log()),
            forall|h: HostModel| agrees(h, final(self).log()) ==> r@ == #[trigger] debug_expr(h, e@),
        decreases e@,
    {
        proof { reveal_strlit("Bool(true)"); reveal_strlit("Bool(false)"); }
        match e {
            Expr::Symbol(s) => {
                let d = debug_str(s.as_str());
                let r = cat3("Symbol(", d.as_str(), ")");
                assert(e@ == SExpr::Symbol(s@));
                assert(forall|h: HostModel| debug_expr(h, e@) == "Symbol("@ + spec_str_debug(s@) + ")"@);
                r
            },
            Expr::Number(n) => {
                let t = self.ask_show_number(*n, true);
                let r = cat3("Number(", t.as_str(), ")");
                assert(forall|h: HostModel| agrees(h, self.log()) ==> r@ == #[trigger] debug_expr(h, e@));
                r
            },
            Expr::List(v) => {
                let ghost items = view_exprs(v@);
                proof { lemma_view_exprs(v@); }
                let mut r = String::from_str("List([");
                let mut i: usize = 0;
                let ghost log0 = self.log();
                let ghost st0 = self.state();
                while i < v.len()
                    invariant
                        i <= v@.len(),
                        items == view_exprs(v@),
                        items.len() == v@.len(),
                        e@ == SExpr::List(items),
                        forall|k: int| 0 <= k < v@.len() ==> #[trigger] items[k] == v@[k]@,
                        self.state() == st0,
                        extends(self.log(), log0),
                        forall|h: HostModel| agrees(h, self.log()) ==> r@ == "List(["@ + #[trigger] debug_items(h, items.take(i as int)),
                    decreases v@.len() - i,
                {
                    proof {
                        assert((e@)->List_0 == items);
                        assert(decreases_to!(e@ => (e@)->List_0));
                        assert(decreases_to!(items => items[i as int]));
                    }
                    let ghost r0 = r@;
                    let ghost l0 = self.log();
                    if i > 0 {
                        r.append(", ");
                    }
                    let d = self.debug_expr_exec(&v[i]);
                    r.append(d.as_str());
                    proof {
                        assert forall|h: HostModel| agrees(h, self.log()) implies r@ == "List(["@ + #[trigger] debug_items(h, items.take(i + 1)) by {
                            lemma_debug_items_step(h, items, i as int);
                            assert(agrees(h, l0));
                            assert(d@ == debug_expr(h, v@[i as int]@));
                        }
                    }
                    i = i + 1;
                }
                r.append("])");
                proof {
                    assert(items.take(v@.len() as int) =~= items);
                    assert forall|h: HostModel| agrees(h, self.log()) implies r@ == #[trigger] debug_expr(h, e@) by {
                        assert(debug_expr(h, e@) == "List(["@ + debug_items(h, items) + "])"@);
                        assert(r@ == "List(["@ + debug_items(h, items.take(i as int)) + "])"@);
                    }
                }
                r
            },
            Expr::Function(f) => {
                let ps = debug_strings(&f.params);
                let mut r = cat3("Function(LispFunction { params: [", ps.as_str(), "], body: ");
                proof { assert(decreases_to!(e@ => *(e@->Function_1))); }
                let b = self.debug_expr_exec(&f.body);
                r.append(b.as_str());
                r.append(", closure: \"<captured_env>\" })");
                proof {
                    assert forall|h: HostModel| agrees(h, self.log()) implies r@ == #[trigger] debug_expr(h, e@) by {
                        assert(b@ == debug_expr(h, (*f.body)@));
                        assert(ps@ == debug_strs(view_strings(f.params@)));
                    }
                }
                r
            },
            Expr::NativeFunction(nf) => {
                let d = debug_str(nf.name.as_str());
                let r = cat3("NativeFunction(NativeFunction { name: ", d.as_str(), ", func: \"<native_fn_ptr>\" })");
                assert(forall|h: HostModel| agrees(h, self.log()) ==> r@ == #[trigger] debug_expr(h, e@));
                r
            },
            Expr::Bool(b) => {
                let r = if *b { String::from_str("Bool(true)") } else { String::from_str("Bool(false)") };
                assert(forall|h: HostModel| agrees(h, self.log()) ==> r@ == #[trigger] debug_expr(h, e@));
                r
            },
            Expr::Nil => {
                let r = String::from_str("Nil");
                assert(forall|h: HostModel| agrees(h, self.log()) ==> r@ == #[trigger] debug_expr(h, e@));
                r
            },
            Expr::String(s) => {
                let d = debug_str(s.as_str());
                let r = cat3("String(", d.as_str(), ")");
                assert(forall|h: HostModel| agrees(h, self.log()) ==> r@ == #[trigger] debug_expr(h, e@));
                r
            },
            Expr::Module(m) => {
                let d = debug_str(m.path.as_str());
                let r = cat3("Module(LispModule { path: ", d.as_str(), ", env: \"<module_env>\" })");
                assert(forall|h: HostModel| agrees(h, self.log()) ==> r@ == #[trigger] debug_expr(h, e@));
                r
            },
        }
    }

    /// The plain text form of a value.
    pub fn lisp_string_exec(&mut self, e: &Expr) -> (r: String)
        ensures
            final(self).state() == old(self).state(),
            extends(final(self).log(), old(self).log()),
            forall|h: HostModel| agrees(h, final(self).log()) ==> r@ == #[trigger] lisp_string(h, e@),
        decreases e@,
    {
        proof { reveal_strlit("true"); reveal_strlit("false"); reveal_strlit("nil"); reveal_strlit("<function>"); }
        match e {
            Expr::Symbol(s) => s.clone(),
            Expr::Number(n) => self.ask_show_number(*n, false),
            Expr::List(v) => {
                let ghost items = view_exprs(v@);
                proof { lemma_view_exprs(v@); }
                let mut r = String::from_str("(");
                let mut i: usize = 0;
                let ghost log0 = self.log();
                let ghost st0 = self.state();
                while i < v.len()
                    invariant
                        i <= v@.len(),
                        items == view_exprs(v@),
                        items.len() == v@.len(),
                        e@ == SExpr::List(items),
                        forall|k: int| 0 <= k < v@.len() ==> #[trigger] items[k] == v@[k]@,
                        self.state() == st0,
                        extends(self.log(), log0),
                        forall|h: HostModel| agrees(h, self.log()) ==> r@ == "("@ + #[trigger] lisp_strings(h, items.take(i as int)),
                    decreases v@.len() - i,
                {
                    proof {
                        assert((e@)->List_0 == items);
                        assert(decreases_to!(e@ => (e@)->List_0));
                        assert(decreases_to!(items => items[i as int]));
                    }
                    let ghost l0 = self.log();
                    if i > 0 {
                        r.append(" ");
                    }
                    let d = self.lisp_string_exec(&v[i]);
                    r.append(d.as_str());
                    proof {
                        assert forall|h: HostModel| agrees(h, self.log()) implies r@ == "("@ + #[trigger] lisp_strings(h, items.take(i + 1)) by {
                            lemma_lisp_strings_step(h, items, i as int);
                            assert(agrees(h, l0));
                            assert(d@ == lisp_string(h, v@[i as int]@));
                        }
                    }
                    i = i + 1;
                }
                r.append(")");
                proof {
                    assert(items.take(v@.len() as int) =~= items);
                    assert forall|h: HostModel| agrees(h, self.log()) implies r@ == #[trigger] lisp_string(h, e@) by {
                        assert(lisp_string(h, e@) == "("@ + lisp_strings(h, items) + ")"@);
                        assert(r@ == "("@ + lisp_strings(h, items.take(i as int)) + ")"@);
                    }
                }
                r
            },
            Expr::Function(_) => String::from_str("<function>"),
            Expr::NativeFunction(nf) => cat3("<native_function:", nf.name.as_str(), ">"),
            Expr::Bool(b) => {
                if *b { String::from_str("true") } else { String::from_str("false") }
            },
            Expr::Nil => String::from_str("nil"),
            Expr::String(s) => s.clone(),
            Expr::Module(m) => cat3("<module:", m.path.as_str(), ">"),
        }
    }
}

impl Expr {
    /// The plain text form of the value, as `log` prints it.
    pub fn to_lisp_string<H: Host>(&self, interp: &mut Interpreter<H>) -> (r: String)
        ensures
            final(interp).state() == old(interp).state(),
            extends(final(interp).log(), old(interp).log()),
            forall|h: HostModel| agrees(h, final(interp).log()) ==> r@ == #[trigger] lisp_string(h, self@),
    {
        interp.lisp_string_exec(self)
    }
}

} // verus!
