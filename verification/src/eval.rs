//! The evaluator: special forms, symbol and module-member lookup, function
//! application, and the loading of modules with `require`.
//!
//! Its meaning is the spec function `ev`: given a model `h` of the host, a
//! budget `d` of nested calls, the interpreter's state, an environment and an
//! expression, the new state and the value or error. Each nested application
//! of a user function (and each module loaded) takes one unit of the budget,
//! which is the measure that makes `ev` well defined; when none is left,
//! evaluation stops with an error. The entry points give the largest budget
//! there is (`MAX_DEPTH`), which no real nesting reaches.
use vstd::prelude::*;
use crate::ast::{Environment, Expr, LispFunction, LispModule, SExpr, view_exprs, view_strings, lemma_view_exprs};
use crate::builtins::{call_native, view_result};
use crate::error::LispError;
use crate::interp::{agrees, extends, Frame, Host, Interpreter, view_bindings};
use crate::parser::{parse_expr, view_opt_expr};
use crate::text::{chars_of, string_from_chars};
use crate::builtins::{native, trim_start_chars};
use crate::env::{assoc_get, define_in, lookup, string_eq};
use crate::error::SErr;
use crate::format::{decimal, decimal_string, debug_str, spec_str_debug};
use crate::globals::{builtin_named, new_builtin_module, with_prelude};
use crate::interp::{Request, SFrame, SState, reply_found};
use crate::parser::{SReadOutcome, spec_parse_expr};
use crate::show::{HostModel, debug_expr};
use crate::special_forms::spec_is_special_form;

verus! {

broadcast use crate::interp::group_log;

/// The new state, and the value or the error.
pub type Outcome = (SState, Result<SExpr, SErr>);

/// The error raised when calls nest deeper than the budget allows.
pub open spec fn depth_error() -> SErr {
    SErr::Evaluation("maximum call depth exceeded"@)
}

// ---------------------------------------------------------------------------
// Symbols and module members

/// The position of the first `/` in `s` from `i`, or -1.
pub open spec fn slash_index(s: Seq<char>, i: int) -> int
    decreases s.len() - i,
{
    if i < 0 || i >= s.len() {
        -1
    } else if s[i] == '/' {
        i
    } else {
        slash_index(s, i + 1)
    }
}

/// `module/member`: the text around the first `/`, when both parts are non-empty.
pub open spec fn member_path(s: Seq<char>) -> Option<(Seq<char>, Seq<char>)> {
    let k = slash_index(s, 0);
    if 0 < k && k < s.len() - 1 {
        Some((s.subrange(0, k), s.subrange(k + 1, s.len() as int)))
    } else {
        None
    }
}

/// The value of a symbol: a `module/member` path is looked up in the module
/// bound to `module`; any other symbol is looked up as it is.
pub open spec fn eval_symbol(frames: Seq<SFrame>, env: nat, s: Seq<char>) -> Result<SExpr, SErr> {
    match member_path(s) {
        Some((m, member)) => match lookup(frames, env, m) {
            Some(SExpr::Module(_, menv)) => match lookup(frames, menv, member) {
                Some(v) => Ok(v),
                None => Err(SErr::MemberNotFoundInModule(m, member)),
            },
            Some(_) => Err(SErr::NotAModule(m)),
            None => Err(SErr::UndefinedSymbol(m)),
        },
        None => match lookup(frames, env, s) {
            Some(v) => Ok(v),
            None => Err(SErr::UndefinedSymbol(s)),
        },
    }
}

/// The function named by a symbol in the first position of a call.
pub open spec fn callee_symbol(frames: Seq<SFrame>, env: nat, s: Seq<char>) -> Result<SExpr, SErr> {
    match member_path(s) {
        Some((m, member)) => match lookup(frames, env, m) {
            Some(SExpr::Module(p, menv)) => match lookup(frames, menv, member) {
                Some(v) => Ok(v),
                None => Err(SErr::MemberNotFoundInModule(
                    "variable '"@ + m + "' (bound to module '"@ + p + "')"@,
                    member,
                )),
            },
            Some(_) => Err(SErr::NotAModule(m)),
            None => Err(SErr::UndefinedSymbol(s)),
        },
        None => eval_symbol(frames, env, s),
    }
}

// ---------------------------------------------------------------------------
// Special forms that evaluate nothing

/// Whether `items` starts with the symbol `w`.
pub open spec fn is_form(items: Seq<SExpr>, w: Seq<char>) -> bool {
    items.len() > 0 && items[0] == SExpr::Symbol(w)
}

/// The number of arguments of a form, as a numeral.
pub open spec fn arg_count(items: Seq<SExpr>) -> Seq<char> {
    decimal((items.len() - 1) as nat)
}

/// `(quote e)`: `e`, unevaluated.
pub open spec fn quote_form(items: Seq<SExpr>) -> Result<SExpr, SErr> {
    if items.len() != 2 {
        Err(SErr::ArityMismatch("'quote' expects 1 argument, got "@ + arg_count(items)))
    } else {
        Ok(items[1])
    }
}

/// The parameter names `ps[k..]`, appended to `acc`: each must be a symbol
/// that is not a reserved keyword.
pub open spec fn fn_params(h: HostModel, ps: Seq<SExpr>, k: int, acc: Seq<Seq<char>>) -> Result<Seq<Seq<char>>, SErr>
    decreases ps.len() - k,
{
    if k < 0 || k >= ps.len() {
        Ok(acc)
    } else {
        match ps[k] {
            SExpr::Symbol(name) => if spec_is_special_form(name) {
                Err(SErr::ReservedKeyword(name))
            } else {
                fn_params(h, ps, k + 1, acc.push(name))
            },
            other => Err(SErr::TypeError("Symbol"@, debug_expr(h, other))),
        }
    }
}

/// `(fn (params...) body)`: a function closing over `env`.
pub open spec fn fn_form(h: HostModel, env: nat, items: Seq<SExpr>) -> Result<SExpr, SErr> {
    if items.len() != 3 {
        Err(SErr::ArityMismatch("'fn' expects 2 arguments (parameters list and body), got "@ + arg_count(items)))
    } else {
        match items[1] {
            SExpr::List(ps) => match fn_params(h, ps, 0, Seq::empty()) {
                Ok(names) => Ok(SExpr::Function(names, Box::new(items[2]), env)),
                Err(e) => Err(e),
            },
            other => Err(SErr::TypeError("List of parameters"@, debug_expr(h, other))),
        }
    }
}

/// `false` and `nil` are false; every other value is true.
pub open spec fn is_falsy(v: SExpr) -> bool {
    v == SExpr::Bool(false) || v == SExpr::Nil
}

/// The name that `require` is given: a string, a symbol, or a quoted one.
pub open spec fn require_target(h: HostModel, arg: SExpr) -> Result<Seq<char>, SErr> {
    match arg {
        SExpr::Str(s) => Ok(s),
        SExpr::Symbol(s) => Ok(s),
        SExpr::List(l) => if l.len() == 2 && l[0] == SExpr::Symbol("quote"@) && (l[1] is Str || l[1] is Symbol) {
            match l[1] {
                SExpr::Str(s) => Ok(s),
                SExpr::Symbol(s) => Ok(s),
                _ => Ok(Seq::empty()),
            }
        } else {
            Err(SErr::TypeError("String or Symbol path"@, debug_expr(h, arg)))
        },
        _ => Err(SErr::TypeError("String or Symbol path"@, debug_expr(h, arg))),
    }
}

/// `name` with `.lisp` appended, unless it already ends so.
pub open spec fn with_lisp_ext(name: Seq<char>) -> Seq<char> {
    let ext = ".lisp"@;
    if name.len() >= ext.len() && name.subrange(name.len() - ext.len(), name.len() as int) == ext {
        name
    } else {
        name + ext
    }
}

/// The outcome of running the expressions of a source text one after another.
pub enum SRun {
    /// All ran; the value of the last one, if there was one.
    Done(Option<SExpr>),
    /// An expression failed with this error.
    EvalError(SErr),
    /// No expression could be read at the start of this rest of the text.
    ParseError(Seq<char>),
}

/// The error that a module whose text cannot be read is loaded with. The
/// reader reports the place where it stopped rather than an error value of
/// a parser library, so the message ends with the rest of the module's text
/// from that place, written as a Rust string literal.
pub open spec fn module_parse_error(path: Seq<char>, rest: Seq<char>) -> SErr {
    SErr::Evaluation(
        "Module parsing error: Parsing Error in module '"@ + path + "': no expression can be read at "@
            + spec_str_debug(rest),
    )
}

// ---------------------------------------------------------------------------
// Evaluation

/// Evaluates `e` in environment `env`.
pub open spec fn ev(h: HostModel, d: nat, st: SState, env: nat, e: SExpr) -> Outcome
    decreases d, 1int, e, 2int, 0int,
{
    match e {
        SExpr::Symbol(s) => (st, eval_symbol(st.frames, env, s)),
        SExpr::List(items) => if items.len() == 0 {
            (st, Ok(SExpr::List(Seq::empty())))
        } else {
            ev_list(h, d, st, env, items)
        },
        _ => (st, Ok(e)),
    }
}

/// Evaluates the non-empty list `items`: a special form or a call.
pub open spec fn ev_list(h: HostModel, d: nat, st: SState, env: nat, items: Seq<SExpr>) -> Outcome
    decreases d, 1int, SExpr::List(items), 1int, 0int,
{
    if items.len() == 0 {
        (st, Ok(SExpr::List(items)))
    } else if is_form(items, "let"@) {
        ev_let(h, d, st, env, items)
    } else if is_form(items, "quote"@) {
        (st, quote_form(items))
    } else if is_form(items, "fn"@) {
        (st, fn_form(h, env, items))
    } else if is_form(items, "if"@) {
        ev_if(h, d, st, env, items)
    } else if is_form(items, "require"@) {
        ev_require(h, d, st, env, items)
    } else {
        let (st1, callee) = match items[0] {
            SExpr::Symbol(s) => (st, callee_symbol(st.frames, env, s)),
            _ => {
                proof { lemma_list_decreases(items, 0); }
                ev(h, d, st, env, items[0])
            },
        };
        match callee {
            Err(e) => (st1, Err(e)),
            Ok(f) => {
                let (st2, args) = ev_args(h, d, st1, env, items, 1, Seq::empty());
                match args {
                    Err(e) => (st2, Err(e)),
                    Ok(vals) => apply(h, d, st2, f, vals),
                }
            },
        }
    }
}

/// Evaluates `items[k..]` in order, appending the values to `acc`; stops at
/// the first error.
pub open spec fn ev_args(h: HostModel, d: nat, st: SState, env: nat, items: Seq<SExpr>, k: int, acc: Seq<SExpr>) -> (SState, Result<Seq<SExpr>, SErr>)
    decreases d, 1int, SExpr::List(items), 0int, items.len() - k + 1,
{
    if k < 0 || k >= items.len() {
        (st, Ok(acc))
    } else {
        proof { lemma_list_decreases(items, k); }
        let (st1, r) = ev(h, d, st, env, items[k]);
        match r {
            Err(e) => (st1, Err(e)),
            Ok(v) => ev_args(h, d, st1, env, items, k + 1, acc.push(v)),
        }
    }
}

/// `(let name value)`: binds the value in `env` and returns it.
pub open spec fn ev_let(h: HostModel, d: nat, st: SState, env: nat, items: Seq<SExpr>) -> Outcome
    decreases d, 1int, SExpr::List(items), 0int, 0int,
{
    if items.len() != 3 {
        (st, Err(SErr::ArityMismatch("'let' expects 2 arguments, got "@ + arg_count(items))))
    } else {
        match items[1] {
            SExpr::Symbol(name) => if spec_is_special_form(name) {
                (st, Err(SErr::ReservedKeyword(name)))
            } else {
                proof { lemma_list_decreases(items, 2); }
                let (st1, r) = ev(h, d, st, env, items[2]);
                match r {
                    Ok(v) => (SState { frames: define_in(st1.frames, env, name, v), ..st1 }, Ok(v)),
                    Err(e) => (st1, Err(e)),
                }
            },
            other => (st, Err(SErr::TypeError("Symbol"@, debug_expr(h, other)))),
        }
    }
}

/// `(if cond then [else])`.
pub open spec fn ev_if(h: HostModel, d: nat, st: SState, env: nat, items: Seq<SExpr>) -> Outcome
    decreases d, 1int, SExpr::List(items), 0int, 0int,
{
    if items.len() < 3 || items.len() > 4 {
        (st, Err(SErr::ArityMismatch("'if' expects 2 or 3 arguments, got "@ + arg_count(items))))
    } else {
        proof { lemma_list_decreases(items, 1); lemma_list_decreases(items, 2); }
        let (st1, c) = ev(h, d, st, env, items[1]);
        match c {
            Err(e) => (st1, Err(e)),
            Ok(v) => if is_falsy(v) {
                if items.len() == 4 {
                    proof { lemma_list_decreases(items, 3); }
                    ev(h, d, st1, env, items[3])
                } else {
                    (st1, Ok(SExpr::Nil))
                }
            } else {
                ev(h, d, st1, env, items[2])
            },
        }
    }
}

/// `(require name)`: a fresh built-in module, or the module loaded from
/// the file `name.lisp`.
pub open spec fn ev_require(h: HostModel, d: nat, st: SState, env: nat, items: Seq<SExpr>) -> Outcome
    decreases d, 1int, SExpr::List(items), 0int, 0int,
{
    if items.len() != 2 {
        (st, Err(SErr::ArityMismatch("'require' expects 1 argument (path string or symbol), got "@ + arg_count(items))))
    } else {
        match require_target(h, items[1]) {
            Err(e) => (st, Err(e)),
            Ok(name) => match builtin_named(name) {
                Some(b) => {
                    let (st1, m) = new_builtin_module(st, b);
                    (st1, Ok(m))
                },
                None => load_module(h, d, st, with_lisp_ext(name)),
            },
        }
    }
}

/// Loads the module file `path`: from the cache when it was loaded before,
/// else by running its text in a new environment with the prelude.
pub open spec fn load_module(h: HostModel, d: nat, st: SState, path: Seq<char>) -> Outcome
    decreases d, 0int, SExpr::Nil, 1int, 0int,
{
    let st1 = SState { disk: st.disk + 1, ..st };
    match reply_found(h(Request::Resolve(path, st.disk))) {
        Err(e) => (st1, Err(e)),
        Ok(canon) => match assoc_get(st.cache, canon) {
            Some(m) => (st1, Ok(m)),
            None => {
                let st2 = SState { disk: st.disk + 2, ..st };
                match reply_found(h(Request::Read(canon, st.disk + 1))) {
                    Err(e) => (st2, Err(e)),
                    Ok(text) => {
                        let root = st.frames.len();
                        let (st3, r) = run_source(h, d, with_prelude(st2), root, text, None);
                        match r {
                            SRun::Done(_) => {
                                let m = SExpr::Module(canon, root);
                                (SState { cache: st3.cache.push((canon, m)), ..st3 }, Ok(m))
                            },
                            SRun::EvalError(e) => (st3, Err(SErr::ModuleLoadError(canon, Box::new(e)))),
                            SRun::ParseError(rest) => (
                                st3,
                                Err(SErr::ModuleLoadError(canon, Box::new(module_parse_error(canon, rest)))),
                            ),
                        }
                    },
                }
            },
        },
    }
}

/// The bindings of the parameters to the argument values, in order.
pub open spec fn bind_params(params: Seq<Seq<char>>, args: Seq<SExpr>) -> Seq<(Seq<char>, SExpr)> {
    Seq::new(params.len(), |i: int| (params[i], args[i]))
}

/// Applies `f` to the argument values.
pub open spec fn apply(h: HostModel, d: nat, st: SState, f: SExpr, args: Seq<SExpr>) -> Outcome
    decreases d, 0int, SExpr::Nil, 0int, 0int,
{
    match f {
        SExpr::Function(params, body, clos) => if args.len() != params.len() {
            (st, Err(SErr::ArityMismatch(
                "Function expects "@ + decimal(params.len()) + " arguments, got "@ + decimal(args.len()),
            )))
        } else if d == 0 {
            (st, Err(depth_error()))
        } else {
            let n = st.frames.len();
            let frame = SFrame { bindings: bind_params(params, args), outer: Some(clos) };
            ev(h, (d - 1) as nat, SState { frames: st.frames.push(frame), ..st }, n, *body)
        },
        SExpr::Native(_, nf) => native(h, st, nf, args),
        _ => (st, Err(SErr::NotAFunction(
            "Expected a Lisp function or a native function, but found: "@ + debug_expr(h, f),
        ))),
    }
}

/// An element of a list is smaller than the list.
pub proof fn lemma_list_decreases(items: Seq<SExpr>, k: int)
    requires
        0 <= k < items.len(),
    ensures
        decreases_to!(SExpr::List(items) => items[k]),
{
    let l = SExpr::List(items);
    assert(l->List_0 == items);
    assert(decreases_to!(l => l->List_0));
    assert(decreases_to!(items => items[k]));
}

pub proof fn lemma_trim_start_len(s: Seq<char>)
    ensures
        trim_start_chars(s).len() <= s.len(),
    decreases s.len(),
{
    if s.len() > 0 && crate::text::char_is_whitespace(s[0]) {
        lemma_trim_start_len(s.drop_first());
    }
}

/// Runs the expressions of `text` one after another in `env`; `last` is the
/// value of the expression run before them.
pub open spec fn run_source(h: HostModel, d: nat, st: SState, env: nat, text: Seq<char>, last: Option<SExpr>) -> (SState, SRun)
    decreases d, 0int, SExpr::Nil, 0int, text.len(),
{
    let t = trim_start_chars(text);
    if t.len() == 0 {
        (st, SRun::Done(last))
    } else {
        match spec_parse_expr(t) {
            SReadOutcome::Failed(p) => (st, SRun::ParseError(t.subrange(p, t.len() as int))),
            SReadOutcome::Read(p, None) => if p == t.len() {
                (st, SRun::Done(last))
            } else {
                (st, SRun::ParseError(t.subrange(p, t.len() as int)))
            },
            SReadOutcome::Read(p, Some(e)) => if !(0 < p && p <= t.len()) {
                (st, SRun::ParseError(t))
            } else if d == 0 {
                (st, SRun::EvalError(depth_error()))
            } else {
                let (st1, r) = ev(h, (d - 1) as nat, st, env, e);
                match r {
                    Err(er) => (st1, SRun::EvalError(er)),
                    Ok(v) => {
                        proof { lemma_trim_start_len(text); }
                        run_source(h, d, st1, env, t.subrange(p, t.len() as int), Some(v))
                    },
                }
            },
        }
    }
}

// ---------------------------------------------------------------------------
// The evaluator itself

/// `module/member`: the text around the first `/`, when both parts are non-empty.
pub fn split_member_path(s: &str) -> (r: Option<(String, String)>)
    ensures
        match member_path(s@) {
            Some((m, member)) => r matches Some((a, b)) && a@ == m && b@ == member,
            None => r is None,
        },
{
    let cs = chars_of(s);
    let n = cs.len();
    let mut i: usize = 0;
    while i < n && cs[i] != '/'
        invariant
            i <= n == cs@.len(),
            cs@ == s@,
            slash_index(s@, i as int) == slash_index(s@, 0),
        decreases n - i,
    {
        i = i + 1;
    }
    if i < n && 0 < i && i < n - 1 {
        let a = string_from_chars(&cs, 0, i);
        let b = string_from_chars(&cs, i + 1, n);
        Some((a, b))
    } else {
        None
    }
}

fn cat3(a: &str, b: &str, c: &str) -> (r: String)
    ensures
        r@ == a@ + b@ + c@,
{
    let mut r = String::from_str(a);
    r.append(b);
    r.append(c);
    r
}

impl<H: Host> Interpreter<H> {
    /// The value of a symbol in environment `env`.
    pub fn eval_symbol_at(&self, env: usize, s: &str) -> (r: Result<Expr, LispError>)
        ensures
            view_result(&r) == eval_symbol(self.state().frames, env as nat, s@),
    {
        match split_member_path(s) {
            Some((m, member)) => match self.lookup_at(env, m.as_str()) {
                Some(Expr::Module(md)) => match self.lookup_at(md.env.id, member.as_str()) {
                    Some(v) => Ok(v),
                    None => Err(LispError::MemberNotFoundInModule { module: m, member }),
                },
                Some(_) => Err(LispError::NotAModule(m)),
                None => Err(LispError::UndefinedSymbol(m)),
            },
            None => match self.lookup_at(env, s) {
                Some(v) => Ok(v),
                None => Err(LispError::UndefinedSymbol(String::from_str(s))),
            },
        }
    }

    /// The function named by a symbol in the first position of a call.
    pub fn callee_symbol_at(&self, env: usize, s: &str) -> (r: Result<Expr, LispError>)
        ensures
            view_result(&r) == callee_symbol(self.state().frames, env as nat, s@),
    {
        match split_member_path(s) {
            Some((m, member)) => match self.lookup_at(env, m.as_str()) {
                Some(Expr::Module(md)) => match self.lookup_at(md.env.id, member.as_str()) {
                    Some(v) => Ok(v),
                    None => {
                        let mut text = cat3("variable '", m.as_str(), "' (bound to module '");
                        text.append(md.path.as_str());
                        text.append("')");
                        Err(LispError::MemberNotFoundInModule { module: text, member })
                    },
                },
                Some(_) => Err(LispError::NotAModule(m)),
                None => Err(LispError::UndefinedSymbol(String::from_str(s))),
            },
            None => self.eval_symbol_at(env, s),
        }
    }
}

/// What a non-empty list is: one of the special forms, or a call.
#[derive(Debug, Clone, Copy, PartialEq, Eq)]
pub enum FormKind {
    Let,
    Quote,
    Fn,
    If,
    Require,
    Call,
}

/// The kind of a list whose first element is `head`.
pub open spec fn form_kind(head: SExpr) -> FormKind {
    if head == SExpr::Symbol("let"@) {
        FormKind::Let
    } else if head == SExpr::Symbol("quote"@) {
        FormKind::Quote
    } else if head == SExpr::Symbol("fn"@) {
        FormKind::Fn
    } else if head == SExpr::Symbol("if"@) {
        FormKind::If
    } else if head == SExpr::Symbol("require"@) {
        FormKind::Require
    } else {
        FormKind::Call
    }
}

/// The kind of a list whose first element is `head`.
pub fn form_kind_of(head: &Expr) -> (k: FormKind)
    ensures
        k == form_kind(head@),
{
    match head {
        Expr::Symbol(s) => {
            if string_eq(s.as_str(), "let") {
                FormKind::Let
            } else if string_eq(s.as_str(), "quote") {
                FormKind::Quote
            } else if string_eq(s.as_str(), "fn") {
                FormKind::Fn
            } else if string_eq(s.as_str(), "if") {
                FormKind::If
            } else if string_eq(s.as_str(), "require") {
                FormKind::Require
            } else {
                FormKind::Call
            }
        },
        _ => FormKind::Call,
    }
}

/// The view of a list of parameter names, or of the error.
pub open spec fn view_names(r: &Result<Vec<String>, LispError>) -> Result<Seq<Seq<char>>, SErr> {
    match r {
        Ok(v) => Ok(view_strings(v@)),
        Err(e) => Err(e@),
    }
}

/// The view of a name, or of the error.
pub open spec fn view_name(r: &Result<String, LispError>) -> Result<Seq<char>, SErr> {
    match r {
        Ok(v) => Ok(v@),
        Err(e) => Err(e@),
    }
}

pub proof fn lemma_view_exprs_push(s: Seq<Expr>, x: Expr)
    ensures
        view_exprs(s.push(x)) == view_exprs(s).push(x@),
{
    assert(s.push(x).drop_last() =~= s);
}

/// The number of arguments of a form, as a numeral.
fn arg_count_exec(items: &Vec<Expr>) -> (r: String)
    requires
        items@.len() > 0,
    ensures
        r@ == arg_count(view_exprs(items@)),
{
    proof { lemma_view_exprs(items@); }
    decimal_string(items.len() - 1)
}

fn prefixed(prefix: &str, rest: &str) -> (r: String)
    ensures
        r@ == prefix@ + rest@,
{
    let mut r = String::from_str(prefix);
    r.append(rest);
    r
}

/// `name` with `.lisp` appended, unless it already ends so.
pub fn with_lisp_ext_exec(name: String) -> (r: String)
    ensures
        r@ == with_lisp_ext(name@),
{
    let ext = ".lisp";
    let n = name.unicode_len();
    let e = ext.unicode_len();
    proof { reveal_strlit(".lisp"); }
    if n >= e {
        let tail = name.as_str().substring_char(n - e, n);
        if string_eq(tail, ext) {
            return name;
        }
    }
    let mut r = name;
    r.append(ext);
    r
}

/// What running a source text came to.
pub enum RunOutcome {
    /// All ran; the value of the last expression, if there was one.
    Done(Option<Expr>),
    /// An expression failed with this error.
    EvalError(LispError),
    /// No expression could be read at the start of this rest of the text.
    ParseError(String),
}

impl RunOutcome {
    pub open spec fn view_run(&self) -> SRun {
        match self {
            RunOutcome::Done(o) => SRun::Done(view_opt_expr(*o)),
            RunOutcome::EvalError(e) => SRun::EvalError(e@),
            RunOutcome::ParseError(t) => SRun::ParseError(t@),
        }
    }
}

/// `str::trim_start`: the text without its leading whitespace.
pub fn trim_start_str(s: &str) -> (r: &str)
    ensures
        r@ == trim_start_chars(s@),
{
    let cs = chars_of(s);
    let n = cs.len();
    let mut i: usize = 0;
    assert(s@.subrange(0, n as int) =~= s@);
    while i < n && crate::text::is_whitespace(cs[i])
        invariant
            i <= n == cs@.len(),
            cs@ == s@,
            trim_start_chars(s@.subrange(i as int, n as int)) == trim_start_chars(s@),
        decreases n - i,
    {
        proof {
            assert(s@.subrange(i as int, n as int).drop_first() =~= s@.subrange(i + 1, n as int));
        }
        i = i + 1;
    }
    s.substring_char(i, n)
}

impl<H: Host> Interpreter<H> {
    /// `(quote e)`.
    pub fn eval_quote(&self, items: &Vec<Expr>) -> (r: Result<Expr, LispError>)
        requires
            items@.len() > 0,
        ensures
            view_result(&r) == quote_form(view_exprs(items@)),
    {
        proof { lemma_view_exprs(items@); }
        if items.len() != 2 {
            let c = arg_count_exec(items);
            return Err(LispError::ArityMismatch(prefixed("'quote' expects 1 argument, got ", c.as_str())));
        }
        Ok(items[1].clone())
    }

    /// The parameter names of `(fn (params...) body)`.
    fn fn_params_exec(&mut self, ps: &Vec<Expr>) -> (r: Result<Vec<String>, LispError>)
        ensures
            final(self).state() == old(self).state(),
            extends(final(self).log(), old(self).log()),
            forall|h: HostModel| agrees(h, final(self).log()) ==> view_names(&r) == #[trigger] fn_params(h, view_exprs(ps@), 0, Seq::empty()),
    {
        let ghost vp = view_exprs(ps@);
        proof { lemma_view_exprs(ps@); }
        let mut names: Vec<String> = Vec::new();
        let mut k: usize = 0;
        assert(view_strings(names@) =~= Seq::<Seq<char>>::empty());
        while k < ps.len()
            invariant
                k <= ps@.len(),
                vp == view_exprs(ps@),
                vp.len() == ps@.len(),
                forall|i: int| 0 <= i < ps@.len() ==> #[trigger] vp[i] == ps@[i]@,
                self.state() == old(self).state(),
                self.log() == old(self).log(),
                forall|h: HostModel| #[trigger] fn_params(h, vp, k as int, view_strings(names@)) == fn_params(h, vp, 0, Seq::empty()),
            decreases ps@.len() - k,
        {
            match &ps[k] {
                Expr::Symbol(name) => {
                    if crate::special_forms::is_special_form(name.as_str()) {
                        proof {
                            assert(vp[k as int] == SExpr::Symbol(name@));
                            assert forall|h: HostModel| agrees(h, self.log()) implies #[trigger] fn_params(h, vp, 0, Seq::empty()) == Err::<Seq<Seq<char>>, SErr>(SErr::ReservedKeyword(name@)) by {
                                assert(fn_params(h, vp, k as int, view_strings(names@)) == Err::<Seq<Seq<char>>, SErr>(SErr::ReservedKeyword(name@)));
                            }
                        }
                        return Err(LispError::ReservedKeyword(name.clone()));
                    }
                    let ghost n0 = names@;
                    names.push(name.clone());
                    proof {
                        assert(vp[k as int] == SExpr::Symbol(name@));
                        assert(view_strings(names@) =~= view_strings(n0).push(name@));
                        assert forall|h: HostModel| #[trigger] fn_params(h, vp, k + 1, view_strings(names@)) == fn_params(h, vp, 0, Seq::empty()) by {
                            assert(fn_params(h, vp, k as int, view_strings(n0)) == fn_params(h, vp, k + 1, view_strings(names@)));
                        }
                    }
                    k = k + 1;
                },
                other => {
                    let e = self.type_error_of("Symbol", other);
                    proof {
                        assert(vp[k as int] == other@);
                        assert(!(other@ is Symbol));
                        assert forall|h: HostModel| agrees(h, self.log()) implies view_names(&Err(e)) == #[trigger] fn_params(h, vp, 0, Seq::empty()) by {
                            assert(e@ == crate::builtins::type_error("Symbol"@, h, other@));
                            assert(fn_params(h, vp, k as int, view_strings(names@)) == Err::<Seq<Seq<char>>, SErr>(SErr::TypeError("Symbol"@, debug_expr(h, vp[k as int]))));
                        }
                    }
                    return Err(e);
                },
            }
        }
        proof {
            assert forall|h: HostModel| agrees(h, self.log()) implies view_names(&Ok(names)) == #[trigger] fn_params(h, vp, 0, Seq::empty()) by {
                assert(fn_params(h, vp, k as int, view_strings(names@)) == Ok::<Seq<Seq<char>>, SErr>(view_strings(names@)));
            }
        }
        Ok(names)
    }

    /// `(fn (params...) body)`: a function closing over environment `env`.
    pub fn eval_fn(&mut self, env: usize, items: &Vec<Expr>) -> (r: Result<Expr, LispError>)
        requires
            items@.len() > 0,
        ensures
            final(self).state() == old(self).state(),
            extends(final(self).log(), old(self).log()),
            forall|h: HostModel| agrees(h, final(self).log()) ==> view_result(&r) == #[trigger] fn_form(h, env as nat, view_exprs(items@)),
    {
        let ghost vi = view_exprs(items@);
        proof { lemma_view_exprs(items@); }
        if items.len() != 3 {
            let c = arg_count_exec(items);
            return Err(LispError::ArityMismatch(prefixed("'fn' expects 2 arguments (parameters list and body), got ", c.as_str())));
        }
        match &items[1] {
            Expr::List(ps) => {
                assert(vi[1] == SExpr::List(view_exprs(ps@)));
                let names = self.fn_params_exec(ps);
                match names {
                    Ok(params) => {
                        let body = items[2].clone();
                        let f = Expr::Function(LispFunction { params, body: Box::new(body), closure: Environment { id: env } });
                        assert(forall|h: HostModel| agrees(h, self.log()) ==> view_result(&Ok(f)) == #[trigger] fn_form(h, env as nat, vi));
                        Ok(f)
                    },
                    Err(e) => Err(e),
                }
            },
            other => {
                let e = self.type_error_of("List of parameters", other);
                proof {
                    assert(vi[1] == other@);
                    assert(!(other@ is List));
                    assert forall|h: HostModel| agrees(h, self.log()) implies view_result(&Err(e)) == #[trigger] fn_form(h, env as nat, vi) by {
                        assert(e@ == crate::builtins::type_error("List of parameters"@, h, other@));
                    }
                }
                Err(e)
            },
        }
    }

    /// The name that `require` is given: a string, a symbol, or a quoted one.
    fn require_target_exec(&mut self, arg: &Expr) -> (r: Result<String, LispError>)
        ensures
            final(self).state() == old(self).state(),
            extends(final(self).log(), old(self).log()),
            forall|h: HostModel| agrees(h, final(self).log()) ==> view_name(&r) == #[trigger] require_target(h, arg@),
    {
        match arg {
            Expr::String(s) => Ok(s.clone()),
            Expr::Symbol(s) => Ok(s.clone()),
            Expr::List(l) => {
                proof { lemma_view_exprs(l@); }
                if l.len() == 2 {
                    let quoted = match &l[0] {
                        Expr::Symbol(q) => string_eq(q.as_str(), "quote"),
                        _ => false,
                    };
                    if quoted {
                        match &l[1] {
                            Expr::String(s) => { return Ok(s.clone()); },
                            Expr::Symbol(s) => { return Ok(s.clone()); },
                            _ => {},
                        }
                    }
                }
                let e = self.type_error_of("String or Symbol path", arg);
                proof {
                    assert forall|h: HostModel| agrees(h, self.log()) implies view_name(&Err(e)) == #[trigger] require_target(h, arg@) by {
                        assert(e@ == crate::builtins::type_error("String or Symbol path"@, h, arg@));
                    }
                }
                Err(e)
            },
            _ => {
                let e = self.type_error_of("String or Symbol path", arg);
                proof {
                    assert forall|h: HostModel| agrees(h, self.log()) implies view_name(&Err(e)) == #[trigger] require_target(h, arg@) by {
                        assert(e@ == crate::builtins::type_error("String or Symbol path"@, h, arg@));
                    }
                }
                Err(e)
            },
        }
    }
}

/// The function value of the first element of a call.
pub open spec fn callee_value(h: HostModel, d: nat, st: SState, env: nat, head: SExpr) -> Outcome {
    match head {
        SExpr::Symbol(s) => (st, callee_symbol(st.frames, env, s)),
        _ => ev(h, d, st, env, head),
    }
}

/// The outcome of a call `items`: the function, then the arguments, are
/// evaluated, and the function is applied.
pub open spec fn call_outcome(h: HostModel, d: nat, st: SState, env: nat, items: Seq<SExpr>) -> Outcome {
    let (st1, callee) = callee_value(h, d, st, env, items[0]);
    match callee {
        Err(e) => (st1, Err(e)),
        Ok(f) => {
            let (st2, args) = ev_args(h, d, st1, env, items, 1, Seq::empty());
            match args {
                Err(e) => (st2, Err(e)),
                Ok(vals) => apply(h, d, st2, f, vals),
            }
        },
    }
}

pub proof fn lemma_ev_list_call(h: HostModel, d: nat, st: SState, env: nat, items: Seq<SExpr>)
    requires
        items.len() > 0,
        form_kind(items[0]) == FormKind::Call,
    ensures
        ev_list(h, d, st, env, items) == call_outcome(h, d, st, env, items),
{
}

/// The budget of nested calls that the entry points give to evaluation:
/// the largest there is, so that no nesting that a machine's stack can hold
/// reaches it.
pub const MAX_DEPTH: usize = usize::MAX;

fn depth_error_exec() -> (r: LispError)
    ensures
        r@ == depth_error(),
{
    LispError::Evaluation(String::from_str("maximum call depth exceeded"))
}

impl<H: Host> Interpreter<H> {
    /// Evaluates `e` in environment `env` with a budget of `d` nested calls.
    #[verifier::spinoff_prover]
    pub fn eval_in(&mut self, d: usize, env: usize, e: &Expr) -> (r: Result<Expr, LispError>)
        ensures
            extends(final(self).log(), old(self).log()),
            forall|h: HostModel| agrees(h, final(self).log()) ==> (final(self).state(), view_result(&r)) == #[trigger] ev(h, d as nat, old(self).state(), env as nat, e@),
        decreases d, 1int, e@, 3int, 0int,
    {
        match e {
            Expr::Symbol(s) => {
                let r = self.eval_symbol_at(env, s.as_str());
                assert(e@ == SExpr::Symbol(s@));
                assert(forall|h: HostModel| #[trigger] ev(h, d as nat, self.state(), env as nat, e@) == (self.state(), eval_symbol(self.state().frames, env as nat, s@)));
                assert(self.state() == old(self).state());
                assert(forall|h: HostModel| agrees(h, self.log()) ==> (self.state(), view_result(&r)) == #[trigger] ev(h, d as nat, old(self).state(), env as nat, e@));
                r
            },
            Expr::List(items) => {
                proof { lemma_view_exprs(items@); }
                if items.len() == 0 {
                    let v: Vec<Expr> = Vec::new();
                    assert(view_exprs(v@) =~= Seq::<SExpr>::empty());
                    return Ok(Expr::List(v));
                }
                assert(e@ == SExpr::List(view_exprs(items@)));
                let ghost st0 = self.state();
                assert(forall|h: HostModel| #[trigger] ev(h, d as nat, st0, env as nat, e@) == ev_list(h, d as nat, st0, env as nat, view_exprs(items@)));
                let r = self.eval_list(d, env, items);
                r
            },
            _ => {
                let v = e.clone();
                assert(!(e@ is Symbol) && !(e@ is List));
                assert(forall|h: HostModel| #[trigger] ev(h, d as nat, old(self).state(), env as nat, e@) == (old(self).state(), Ok::<SExpr, SErr>(e@)));
                Ok(v)
            },
        }
    }

    /// Evaluates a non-empty list: a special form or a call.
    fn eval_list(&mut self, d: usize, env: usize, items: &Vec<Expr>) -> (r: Result<Expr, LispError>)
        requires
            items@.len() > 0,
        ensures
            extends(final(self).log(), old(self).log()),
            forall|h: HostModel| agrees(h, final(self).log()) ==> (final(self).state(), view_result(&r)) == #[trigger] ev_list(h, d as nat, old(self).state(), env as nat, view_exprs(items@)),
        decreases d, 1int, SExpr::List(view_exprs(items@)), 2int, 0int,
    {
        let ghost vi = view_exprs(items@);
        let ghost st0 = self.state();
        proof { lemma_view_exprs(items@); }
        let k = form_kind_of(&items[0]);
        assert(vi[0] == items@[0]@);
        match k {
            FormKind::Let => {
                let r = self.eval_let(d, env, items);
                assert(forall|h: HostModel| #[trigger] ev_list(h, d as nat, st0, env as nat, vi) == ev_let(h, d as nat, st0, env as nat, vi));
                r
            },
            FormKind::Quote => {
                let r = self.eval_quote(items);
                assert(forall|h: HostModel| #[trigger] ev_list(h, d as nat, st0, env as nat, vi) == (st0, quote_form(vi)));
                r
            },
            FormKind::Fn => {
                let r = self.eval_fn(env, items);
                assert(forall|h: HostModel| #[trigger] ev_list(h, d as nat, st0, env as nat, vi) == (st0, fn_form(h, env as nat, vi)));
                r
            },
            FormKind::If => {
                let r = self.eval_if(d, env, items);
                assert(forall|h: HostModel| #[trigger] ev_list(h, d as nat, st0, env as nat, vi) == ev_if(h, d as nat, st0, env as nat, vi));
                r
            },
            FormKind::Require => {
                let r = self.eval_require(d, items);
                assert(forall|h: HostModel| #[trigger] ev_list(h, d as nat, st0, env as nat, vi) == ev_require(h, d as nat, st0, env as nat, vi));
                r
            },
            FormKind::Call => self.eval_call(d, env, items),
        }
    }

    /// A call: the function, then the arguments, are evaluated, and the
    /// function is applied.
    #[verifier::loop_isolation(false)]
    fn eval_call(&mut self, d: usize, env: usize, items: &Vec<Expr>) -> (r: Result<Expr, LispError>)
        requires
            items@.len() > 0,
            form_kind(items@[0]@) == FormKind::Call,
        ensures
            extends(final(self).log(), old(self).log()),
            forall|h: HostModel| agrees(h, final(self).log()) ==> (final(self).state(), view_result(&r)) == #[trigger] ev_list(h, d as nat, old(self).state(), env as nat, view_exprs(items@)),
        decreases d, 1int, SExpr::List(view_exprs(items@)), 1int, 0int,
    {
        let ghost vi = view_exprs(items@);
        let ghost st0 = self.state();
        let ghost l0 = self.log();
        proof {
            lemma_view_exprs(items@);
            assert(vi[0] == items@[0]@);
            assert forall|h: HostModel| #[trigger] ev_list(h, d as nat, st0, env as nat, vi) == call_outcome(h, d as nat, st0, env as nat, vi) by {
                lemma_ev_list_call(h, d as nat, st0, env as nat, vi);
            }
        }
        let callee = match &items[0] {
            Expr::Symbol(s) => self.callee_symbol_at(env, s.as_str()),
            other => {
                proof { lemma_list_decreases(vi, 0); }
                self.eval_in(d, env, other)
            },
        };
        let ghost st1 = self.state();
        let ghost l1 = self.log();
        proof {
            assert forall|h: HostModel| agrees(h, l1) implies (st1, view_result(&callee)) == #[trigger] callee_value(h, d as nat, st0, env as nat, vi[0]) by {}
        }
        let ghost cv = view_result(&callee);
        let f = match callee {
            Ok(f) => f,
            Err(e) => {
                proof {
                    assert forall|h: HostModel| agrees(h, self.log()) implies (self.state(), view_result(&Err(e))) == #[trigger] ev_list(h, d as nat, st0, env as nat, vi) by {
                        assert((st1, view_result(&callee)) == callee_value(h, d as nat, st0, env as nat, vi[0]));
                    }
                }
                return Err(e);
            },
        };
        let mut vals: Vec<Expr> = Vec::new();
        let mut k: usize = 1;
        assert(view_exprs(vals@) =~= Seq::<SExpr>::empty());
        while k < items.len()
            invariant
                1 <= k <= items@.len(),
                vi == view_exprs(items@),
                vi.len() == items@.len(),
                forall|i: int| 0 <= i < items@.len() ==> #[trigger] vi[i] == items@[i]@,
                extends(self.log(), l1),
                forall|h: HostModel| agrees(h, self.log()) ==> #[trigger] ev_args(h, d as nat, st1, env as nat, vi, 1, Seq::empty())
                    == ev_args(h, d as nat, self.state(), env as nat, vi, k as int, view_exprs(vals@)),
            decreases items@.len() - k,
        {
            let ghost sk = self.state();
            let ghost lk = self.log();
            let ghost v0 = vals@;
            proof { lemma_list_decreases(vi, k as int); }
            let r = self.eval_in(d, env, &items[k]);
            match r {
                Ok(v) => {
                    let ghost vv = v@;
                    vals.push(v);
                    proof {
                        lemma_view_exprs_push(v0, v);
                        assert forall|h: HostModel| agrees(h, self.log()) implies #[trigger] ev_args(h, d as nat, st1, env as nat, vi, 1, Seq::empty())
                            == ev_args(h, d as nat, self.state(), env as nat, vi, k + 1, view_exprs(vals@)) by {
                            assert(agrees(h, lk));
                            assert(vi[k as int] == items@[k as int]@);
                            assert(ev(h, d as nat, sk, env as nat, vi[k as int]) == (self.state(), Ok::<SExpr, SErr>(vv)));
                            assert(ev_args(h, d as nat, sk, env as nat, vi, k as int, view_exprs(v0))
                                == ev_args(h, d as nat, self.state(), env as nat, vi, k + 1, view_exprs(v0).push(vv)));
                        }
                    }
                    k = k + 1;
                },
                Err(e) => {
                    proof {
                        assert forall|h: HostModel| agrees(h, self.log()) implies (self.state(), view_result(&Err(e))) == #[trigger] ev_list(h, d as nat, st0, env as nat, vi) by {
                            assert(agrees(h, lk));
                            assert(agrees(h, l1));
                            assert(vi[k as int] == items@[k as int]@);
                            assert(ev(h, d as nat, sk, env as nat, vi[k as int]) == (self.state(), Err::<SExpr, SErr>(e@)));
                            assert(ev_args(h, d as nat, sk, env as nat, vi, k as int, view_exprs(v0)) == (self.state(), Err::<Seq<SExpr>, SErr>(e@)));
                            assert((st1, view_result(&callee)) == callee_value(h, d as nat, st0, env as nat, vi[0]));
                        }
                    }
                    return Err(e);
                },
            }
        }
        let ghost st2 = self.state();
        let ghost l2 = self.log();
        let ghost va = view_exprs(vals@);
        let ghost fv = f@;
        let r = self.apply(d, f, vals);
        proof {
            assert forall|h: HostModel| agrees(h, self.log()) implies (self.state(), view_result(&r)) == #[trigger] ev_list(h, d as nat, st0, env as nat, vi) by {
                assert(agrees(h, l2));
                assert(agrees(h, l1));
                assert(ev_args(h, d as nat, st2, env as nat, vi, k as int, va) == (st2, Ok::<Seq<SExpr>, SErr>(va)));
                assert((st1, view_result(&callee)) == callee_value(h, d as nat, st0, env as nat, vi[0]));
                assert((self.state(), view_result(&r)) == apply(h, d as nat, st2, fv, va));
                assert(cv == Ok::<SExpr, SErr>(fv));
                assert(callee_value(h, d as nat, st0, env as nat, vi[0]) == (st1, Ok::<SExpr, SErr>(fv)));
            }
        }
        r
    }

    /// `(let name value)`: evaluates the value, binds it in `env` and returns it.
    pub fn eval_let(&mut self, d: usize, env: usize, items: &Vec<Expr>) -> (r: Result<Expr, LispError>)
        requires
            items@.len() > 0,
        ensures
            extends(final(self).log(), old(self).log()),
            forall|h: HostModel| agrees(h, final(self).log()) ==> (final(self).state(), view_result(&r)) == #[trigger] ev_let(h, d as nat, old(self).state(), env as nat, view_exprs(items@)),
        decreases d, 1int, SExpr::List(view_exprs(items@)), 0int, 0int,
    {
        let ghost vi = view_exprs(items@);
        let ghost st0 = self.state();
        proof { lemma_view_exprs(items@); }
        if items.len() != 3 {
            let c = arg_count_exec(items);
            let e = LispError::ArityMismatch(prefixed("'let' expects 2 arguments, got ", c.as_str()));
            assert(forall|h: HostModel| agrees(h, self.log()) ==> (self.state(), view_result(&Err(e))) == #[trigger] ev_let(h, d as nat, st0, env as nat, vi));
            return Err(e);
        }
        assert(vi[1] == items@[1]@);
        assert(vi[2] == items@[2]@);
        match &items[1] {
            Expr::Symbol(name) => {
                if crate::special_forms::is_special_form(name.as_str()) {
                    let e = LispError::ReservedKeyword(name.clone());
                    assert(forall|h: HostModel| agrees(h, self.log()) ==> (self.state(), view_result(&Err(e))) == #[trigger] ev_let(h, d as nat, st0, env as nat, vi));
                    return Err(e);
                }
                proof { lemma_list_decreases(vi, 2); }
                let r = self.eval_in(d, env, &items[2]);
                let ghost st1 = self.state();
                let ghost l1 = self.log();
                match r {
                    Ok(v) => {
                        self.define_at(env, name.clone(), v.clone());
                        proof {
                            assert forall|h: HostModel| agrees(h, self.log()) implies (self.state(), view_result(&Ok(v))) == #[trigger] ev_let(h, d as nat, st0, env as nat, vi) by {
                                assert(agrees(h, l1));
                                assert(ev(h, d as nat, st0, env as nat, vi[2]) == (st1, Ok::<SExpr, SErr>(v@)));
                            }
                        }
                        Ok(v)
                    },
                    Err(e) => {
                        proof {
                            assert forall|h: HostModel| agrees(h, self.log()) implies (self.state(), view_result(&Err(e))) == #[trigger] ev_let(h, d as nat, st0, env as nat, vi) by {
                                assert(ev(h, d as nat, st0, env as nat, vi[2]) == (st1, Err::<SExpr, SErr>(e@)));
                            }
                        }
                        Err(e)
                    },
                }
            },
            other => {
                let e = self.type_error_of("Symbol", other);
                proof {
                    assert(!(other@ is Symbol));
                    assert forall|h: HostModel| agrees(h, self.log()) implies (self.state(), view_result(&Err(e))) == #[trigger] ev_let(h, d as nat, st0, env as nat, vi) by {
                        assert(e@ == crate::builtins::type_error("Symbol"@, h, other@));
                    }
                }
                Err(e)
            },
        }
    }

    /// `(if cond then [else])`.
    pub fn eval_if(&mut self, d: usize, env: usize, items: &Vec<Expr>) -> (r: Result<Expr, LispError>)
        requires
            items@.len() > 0,
        ensures
            extends(final(self).log(), old(self).log()),
            forall|h: HostModel| agrees(h, final(self).log()) ==> (final(self).state(), view_result(&r)) == #[trigger] ev_if(h, d as nat, old(self).state(), env as nat, view_exprs(items@)),
        decreases d, 1int, SExpr::List(view_exprs(items@)), 0int, 0int,
    {
        let ghost vi = view_exprs(items@);
        let ghost st0 = self.state();
        proof { lemma_view_exprs(items@); }
        if items.len() < 3 || items.len() > 4 {
            let c = arg_count_exec(items);
            let e = LispError::ArityMismatch(prefixed("'if' expects 2 or 3 arguments, got ", c.as_str()));
            assert(forall|h: HostModel| agrees(h, self.log()) ==> (self.state(), view_result(&Err(e))) == #[trigger] ev_if(h, d as nat, st0, env as nat, vi));
            return Err(e);
        }
        assert(vi[1] == items@[1]@);
        assert(vi[2] == items@[2]@);
        proof { lemma_list_decreases(vi, 1); lemma_list_decreases(vi, 2); }
        let c = self.eval_in(d, env, &items[1]);
        let ghost st1 = self.state();
        let ghost l1 = self.log();
        match c {
            Err(e) => {
                proof {
                    assert forall|h: HostModel| agrees(h, self.log()) implies (self.state(), view_result(&Err(e))) == #[trigger] ev_if(h, d as nat, st0, env as nat, vi) by {
                        assert(ev(h, d as nat, st0, env as nat, vi[1]) == (st1, Err::<SExpr, SErr>(e@)));
                    }
                }
                Err(e)
            },
            Ok(v) => {
                let falsy = match &v {
                    Expr::Bool(b) => !*b,
                    Expr::Nil => true,
                    _ => false,
                };
                assert(falsy == is_falsy(v@));
                if falsy {
                    if items.len() == 4 {
                        assert(vi[3] == items@[3]@);
                        proof { lemma_list_decreases(vi, 3); }
                        let r = self.eval_in(d, env, &items[3]);
                        proof {
                            assert forall|h: HostModel| agrees(h, self.log()) implies (self.state(), view_result(&r)) == #[trigger] ev_if(h, d as nat, st0, env as nat, vi) by {
                                assert(agrees(h, l1));
                                assert(ev(h, d as nat, st0, env as nat, vi[1]) == (st1, Ok::<SExpr, SErr>(v@)));
                                assert(ev(h, d as nat, st1, env as nat, vi[3]) == (self.state(), view_result(&r)));
                            }
                        }
                        r
                    } else {
                        proof {
                            assert forall|h: HostModel| agrees(h, self.log()) implies (self.state(), view_result(&Ok(Expr::Nil))) == #[trigger] ev_if(h, d as nat, st0, env as nat, vi) by {
                                assert(ev(h, d as nat, st0, env as nat, vi[1]) == (st1, Ok::<SExpr, SErr>(v@)));
                            }
                        }
                        Ok(Expr::Nil)
                    }
                } else {
                    let r = self.eval_in(d, env, &items[2]);
                    proof {
                        assert forall|h: HostModel| agrees(h, self.log()) implies (self.state(), view_result(&r)) == #[trigger] ev_if(h, d as nat, st0, env as nat, vi) by {
                            assert(agrees(h, l1));
                            assert(ev(h, d as nat, st0, env as nat, vi[1]) == (st1, Ok::<SExpr, SErr>(v@)));
                            assert(ev(h, d as nat, st1, env as nat, vi[2]) == (self.state(), view_result(&r)));
                        }
                    }
                    r
                }
            },
        }
    }

    /// `(require name)`: a fresh built-in module, or the module loaded from
    /// the file `name.lisp`.
    pub fn eval_require(&mut self, d: usize, items: &Vec<Expr>) -> (r: Result<Expr, LispError>)
        requires
            items@.len() > 0,
        ensures
            extends(final(self).log(), old(self).log()),
            forall|h: HostModel, env: nat| agrees(h, final(self).log()) ==> (final(self).state(), view_result(&r)) == #[trigger] ev_require(h, d as nat, old(self).state(), env, view_exprs(items@)),
        decreases d, 1int, SExpr::List(view_exprs(items@)), 0int, 0int,
    {
        let ghost vi = view_exprs(items@);
        let ghost st0 = self.state();
        proof { lemma_view_exprs(items@); }
        if items.len() != 2 {
            let c = arg_count_exec(items);
            let e = LispError::ArityMismatch(prefixed("'require' expects 1 argument (path string or symbol), got ", c.as_str()));
            assert(forall|h: HostModel, env: nat| agrees(h, self.log()) ==> (self.state(), view_result(&Err(e))) == #[trigger] ev_require(h, d as nat, st0, env, vi));
            return Err(e);
        }
        assert(vi[1] == items@[1]@);
        let t = self.require_target_exec(&items[1]);
        let ghost l1 = self.log();
        let ghost tv = view_name(&t);
        let name = match t {
            Ok(n) => n,
            Err(e) => {
                proof {
                    assert forall|h: HostModel, env: nat| agrees(h, self.log()) implies (self.state(), view_result(&Err(e))) == #[trigger] ev_require(h, d as nat, st0, env, vi) by {
                        assert(require_target(h, vi[1]) == tv);
                    }
                }
                return Err(e);
            },
        };
        let ghost nm = name@;
        match crate::globals::builtin_named_exec(name.as_str()) {
            Some(b) => {
                let m = crate::globals::create_builtin_module(self, b);
                proof {
                    assert forall|h: HostModel, env: nat| agrees(h, self.log()) implies (self.state(), view_result(&Ok(m))) == #[trigger] ev_require(h, d as nat, st0, env, vi) by {
                        assert(require_target(h, vi[1]) == Ok::<Seq<char>, SErr>(nm));
                    }
                }
                Ok(m)
            },
            None => {
                let path = with_lisp_ext_exec(name);
                let r = self.load_module(d, path.as_str());
                proof {
                    assert forall|h: HostModel, env: nat| agrees(h, self.log()) implies (self.state(), view_result(&r)) == #[trigger] ev_require(h, d as nat, st0, env, vi) by {
                        assert(agrees(h, l1));
                        assert(require_target(h, vi[1]) == Ok::<Seq<char>, SErr>(nm));
                        assert(load_module(h, d as nat, st0, with_lisp_ext(nm)) == (self.state(), view_result(&r)));
                    }
                }
                r
            },
        }
    }

    /// Loads the module file `path`: from the cache when it was loaded
    /// before, else by running its text in a new environment with the prelude.
    fn load_module(&mut self, d: usize, path: &str) -> (r: Result<Expr, LispError>)
        ensures
            extends(final(self).log(), old(self).log()),
            forall|h: HostModel| agrees(h, final(self).log()) ==> (final(self).state(), view_result(&r)) == #[trigger] load_module(h, d as nat, old(self).state(), path@),
        decreases d, 0int, SExpr::Nil, 1int, 0int,
    {
        let ghost st0 = self.state();
        let resolved = self.ask_resolve(path);
        let ghost l1 = self.log();
        let ghost rv = crate::interp::view_found(&resolved);
        let canon = match resolved {
            Ok(c) => c,
            Err(e) => {
                proof {
                    assert forall|h: HostModel| agrees(h, self.log()) implies (self.state(), view_result(&Err(e))) == #[trigger] load_module(h, d as nat, st0, path@) by {
                        assert(reply_found(h(Request::Resolve(path@, st0.disk))) == rv);
                    }
                }
                return Err(e);
            },
        };
        let ghost cn = canon@;
        match self.cache_get(canon.as_str()) {
            Some(m) => {
                proof {
                    assert forall|h: HostModel| agrees(h, self.log()) implies (self.state(), view_result(&Ok(m))) == #[trigger] load_module(h, d as nat, st0, path@) by {
                        assert(reply_found(h(Request::Resolve(path@, st0.disk))) == rv);
                    }
                }
                return Ok(m);
            },
            None => {},
        }
        let read = self.ask_read(canon.as_str());
        let ghost l2 = self.log();
        let ghost tv = crate::interp::view_found(&read);
        let text = match read {
            Ok(t) => t,
            Err(e) => {
                proof {
                    assert forall|h: HostModel| agrees(h, self.log()) implies (self.state(), view_result(&Err(e))) == #[trigger] load_module(h, d as nat, st0, path@) by {
                        assert(agrees(h, l1));
                        assert(reply_found(h(Request::Resolve(path@, st0.disk))) == rv);
                        assert(reply_found(h(Request::Read(cn, st0.disk + 1))) == tv);
                    }
                }
                return Err(e);
            },
        };
        let root = Environment::new_with_prelude(self);
        let ghost st3 = self.state();
        let ghost l3 = self.log();
        let out = self.run_source(d, root.id, text.as_str());
        let ghost st4 = self.state();
        let ghost ov = out.view_run();
        let ghost mv = SExpr::Module(cn, root.id as nat);
        proof {
            assert forall|h: HostModel| agrees(h, self.log()) implies #[trigger] load_module(h, d as nat, st0, path@) == (match ov {
                SRun::Done(_) => (SState { cache: st4.cache.push((cn, mv)), ..st4 }, Ok(mv)),
                SRun::EvalError(e) => (st4, Err(SErr::ModuleLoadError(cn, Box::new(e)))),
                SRun::ParseError(rest) => (st4, Err(SErr::ModuleLoadError(cn, Box::new(module_parse_error(cn, rest))))),
            }) by {
                assert(agrees(h, l1));
                assert(agrees(h, l2));
                assert(agrees(h, l3));
                assert(reply_found(h(Request::Resolve(path@, st0.disk))) == rv);
                assert(reply_found(h(Request::Read(cn, st0.disk + 1))) == tv);
                assert(run_source(h, d as nat, st3, root.id as nat, text@, None) == (st4, ov));
            }
        }
        match out {
            RunOutcome::Done(_) => {
                let m = Expr::Module(LispModule { path: canon.clone(), env: root });
                self.cache_insert(canon, m.clone());
                assert(m@ == mv);
                Ok(m)
            },
            RunOutcome::EvalError(e) => Err(LispError::ModuleLoadError { path: canon, source: Box::new(e) }),
            RunOutcome::ParseError(rest) => {
                let mut msg = cat3("Module parsing error: Parsing Error in module '", canon.as_str(), "': no expression can be read at ");
                let dr = debug_str(rest.as_str());
                msg.append(dr.as_str());
                let inner = LispError::Evaluation(msg);
                assert(inner@ == module_parse_error(cn, rest@));
                let e = LispError::ModuleLoadError { path: canon, source: Box::new(inner) };
                assert(e@ == SErr::ModuleLoadError(cn, Box::new(module_parse_error(cn, rest@))));
                Err(e)
            },
        }
    }

    /// Applies `f` to the argument values.
    #[verifier::loop_isolation(false)]
    fn apply(&mut self, d: usize, f: Expr, args: Vec<Expr>) -> (r: Result<Expr, LispError>)
        ensures
            extends(final(self).log(), old(self).log()),
            forall|h: HostModel| agrees(h, final(self).log()) ==> (final(self).state(), view_result(&r)) == #[trigger] apply(h, d as nat, old(self).state(), f@, view_exprs(args@)),
        decreases d, 0int, SExpr::Nil, 0int, 0int,
    {
        let ghost va = view_exprs(args@);
        let ghost st0 = self.state();
        let ghost fv = f@;
        proof { lemma_view_exprs(args@); }
        match f {
            Expr::Function(lf) => {
                let n = lf.params.len();
                let ghost ps = view_strings(lf.params@);
                if args.len() != n {
                    let mut m = String::from_str("Function expects ");
                    let a = decimal_string(n);
                    m.append(a.as_str());
                    m.append(" arguments, got ");
                    let b = decimal_string(args.len());
                    m.append(b.as_str());
                    return Err(LispError::ArityMismatch(m));
                }
                if d == 0 {
                    return Err(depth_error_exec());
                }
                let mut bs: Vec<(String, Expr)> = Vec::new();
                let mut i: usize = 0;
                while i < n
                    invariant
                        i <= n == lf.params@.len() == args@.len(),
                        ps == view_strings(lf.params@),
                        va == view_exprs(args@),
                        va.len() == args@.len(),
                        forall|j: int| 0 <= j < args@.len() ==> #[trigger] va[j] == args@[j]@,
                        view_bindings(bs@) =~= Seq::new(i as nat, |j: int| (ps[j], va[j])),
                    decreases n - i,
                {
                    let ghost b0 = bs@;
                    let p = lf.params[i].clone();
                    let a = args[i].clone();
                    bs.push((p, a));
                    proof {
                        assert forall|j: int| 0 <= j < i implies #[trigger] view_bindings(bs@)[j] == view_bindings(b0)[j] by {}
                        assert(view_bindings(bs@)[i as int] == (ps[i as int], va[i as int]));
                    }
                    i = i + 1;
                }
                assert(view_bindings(bs@) =~= bind_params(ps, va));
                let ghost frame = SFrame { bindings: bind_params(ps, va), outer: Some(lf.closure.id as nat) };
                let call_env = self.push_frame(Frame { bindings: bs, outer: Some(lf.closure.id) });
                let ghost st1 = self.state();
                assert(st1 == SState { frames: st0.frames.push(frame), ..st0 });
                let r = self.eval_in(d - 1, call_env.id, &lf.body);
                proof {
                    assert forall|h: HostModel| agrees(h, self.log()) implies (self.state(), view_result(&r)) == #[trigger] apply(h, d as nat, st0, fv, va) by {
                        assert(call_env.id == st0.frames.len());
                        assert(fv == SExpr::Function(ps, Box::new((*lf.body)@), lf.closure.id as nat));
                        assert(ev(h, (d - 1) as nat, st1, call_env.id as nat, (*lf.body)@) == (self.state(), view_result(&r)));
                        assert(apply(h, d as nat, st0, fv, va) == ev(h, (d - 1) as nat, st1, st0.frames.len(), (*lf.body)@));
                    }
                }
                r
            },
            Expr::NativeFunction(nf) => call_native(self, nf.func, args),
            other => {
                let dbg = self.debug_expr_exec(&other);
                let msg = prefixed("Expected a Lisp function or a native function, but found: ", dbg.as_str());
                Err(LispError::NotAFunction(msg))
            },
        }
    }

    /// Runs the expressions of `text` one after another in environment `env`.
    #[verifier::loop_isolation(false)]
    pub fn run_source(&mut self, d: usize, env: usize, text: &str) -> (r: RunOutcome)
        ensures
            extends(final(self).log(), old(self).log()),
            forall|h: HostModel| agrees(h, final(self).log()) ==> (final(self).state(), r.view_run()) == #[trigger] run_source(h, d as nat, old(self).state(), env as nat, text@, None),
        decreases d, 0int, SExpr::Nil, 0int, 0int,
    {
        let ghost st0 = self.state();
        let ghost l0 = self.log();
        let mut cur: &str = text;
        let mut last: Option<Expr> = None;
        loop
            invariant
                extends(self.log(), l0),
                st0 == old(self).state(),
                l0 == old(self).log(),
                forall|h: HostModel| agrees(h, self.log()) ==> #[trigger] run_source(h, d as nat, st0, env as nat, text@, None)
                    == run_source(h, d as nat, self.state(), env as nat, cur@, view_opt_expr(last)),
            decreases cur@.len(),
        {
            let ghost s1 = self.state();
            let ghost l1 = self.log();
            let t = trim_start_str(cur);
            proof { lemma_trim_start_len(cur@); }
            let n = t.unicode_len();
            if n == 0 {
                return RunOutcome::Done(last);
            }
            match parse_expr(t) {
                Err(pe) => {
                    return RunOutcome::ParseError(pe.input);
                },
                Ok((rest, oe)) => {
                    let ghost p = match spec_parse_expr(t@) {
                        SReadOutcome::Read(p, _) => p,
                        SReadOutcome::Failed(p) => p,
                    };
                    assert(spec_parse_expr(t@) == SReadOutcome::Read(p, view_opt_expr(oe)));
                    assert(rest@ == t@.subrange(p, n as int));
                    match oe {
                        None => {
                            if rest.unicode_len() == 0 {
                                return RunOutcome::Done(last);
                            }
                            return RunOutcome::ParseError(String::from_str(rest));
                        },
                        Some(e) => {
                            let m = rest.unicode_len();
                            if m >= n {
                                return RunOutcome::ParseError(String::from_str(t));
                            }
                            if d == 0 {
                                return RunOutcome::EvalError(depth_error_exec());
                            }
                            let r = self.eval_in(d - 1, env, &e);
                            match r {
                                Err(er) => {
                                    proof {
                                        assert forall|h: HostModel| agrees(h, self.log()) implies #[trigger] run_source(h, d as nat, st0, env as nat, text@, None)
                                            == (self.state(), SRun::EvalError(er@)) by {
                                            assert(agrees(h, l1));
                                            assert(ev(h, (d - 1) as nat, s1, env as nat, e@) == (self.state(), Err::<SExpr, SErr>(er@)));
                                        }
                                    }
                                    return RunOutcome::EvalError(er);
                                },
                                Ok(v) => {
                                    proof {
                                        assert forall|h: HostModel| agrees(h, self.log()) implies #[trigger] run_source(h, d as nat, st0, env as nat, text@, None)
                                            == run_source(h, d as nat, self.state(), env as nat, rest@, Some(v@)) by {
                                            assert(agrees(h, l1));
                                            assert(ev(h, (d - 1) as nat, s1, env as nat, e@) == (self.state(), Ok::<SExpr, SErr>(v@)));
                                        }
                                    }
                                    last = Some(v);
                                    cur = rest;
                                },
                            }
                        },
                    }
                },
            }
        }
    }
}

/// Evaluates an expression in an environment.
pub fn eval<H: Host>(expr: &Expr, env: Environment, interp: &mut Interpreter<H>) -> (r: Result<Expr, LispError>)
    ensures
        extends(final(interp).log(), old(interp).log()),
        forall|h: HostModel| agrees(h, final(interp).log()) ==> (final(interp).state(), view_result(&r)) == #[trigger] ev(h, MAX_DEPTH as nat, old(interp).state(), env.id as nat, expr@),
{
    interp.eval_in(MAX_DEPTH, env.id, expr)
}

/// Runs the expressions of a source text one after another in an environment.
pub fn eval_source<H: Host>(text: &str, env: Environment, interp: &mut Interpreter<H>) -> (r: RunOutcome)
    ensures
        extends(final(interp).log(), old(interp).log()),
        forall|h: HostModel| agrees(h, final(interp).log()) ==> (final(interp).state(), r.view_run()) == #[trigger] run_source(h, MAX_DEPTH as nat, old(interp).state(), env.id as nat, text@, None),
{
    interp.run_source(MAX_DEPTH, env.id, text)
}

/// What evaluating an expression given as text came to.
pub enum ExprReport {
    /// The text holds no expression.
    Empty,
    /// Text is left after the expression: the rest.
    Trailing(String),
    /// No expression could be read: the text where reading stopped.
    Unreadable(String),
    /// The value of the expression.
    Value(Expr),
    /// The error that evaluating the expression raised.
    Failed(LispError),
}

/// The model of an `ExprReport`.
pub enum SExprReport {
    Empty,
    Trailing(Seq<char>),
    Unreadable(Seq<char>),
    Value(SExpr),
    Failed(SErr),
}

impl ExprReport {
    pub open spec fn view_report(&self) -> SExprReport {
        match self {
            ExprReport::Empty => SExprReport::Empty,
            ExprReport::Trailing(t) => SExprReport::Trailing(t@),
            ExprReport::Unreadable(t) => SExprReport::Unreadable(t@),
            ExprReport::Value(v) => SExprReport::Value(v@),
            ExprReport::Failed(e) => SExprReport::Failed(e@),
        }
    }
}

/// Reads one expression from `text` and, when nothing but whitespace follows
/// it, evaluates it in a new root environment with the prelude.
pub open spec fn run_expression(h: HostModel, st: SState, text: Seq<char>) -> (SState, SExprReport) {
    match spec_parse_expr(text) {
        SReadOutcome::Failed(p) => (st, SExprReport::Unreadable(text.subrange(p, text.len() as int))),
        SReadOutcome::Read(p, oe) => {
            let rest = text.subrange(p, text.len() as int);
            if crate::builtins::trim_chars(rest).len() != 0 {
                (st, SExprReport::Trailing(rest))
            } else {
                match oe {
                    None => (st, SExprReport::Empty),
                    Some(e) => {
                        let (st2, r) = ev(h, MAX_DEPTH as nat, with_prelude(st), st.frames.len(), e);
                        match r {
                            Ok(v) => (st2, SExprReport::Value(v)),
                            Err(er) => (st2, SExprReport::Failed(er)),
                        }
                    },
                }
            }
        },
    }
}

/// Reads one expression from `text` and, when nothing but whitespace follows
/// it, evaluates it in a new root environment with the prelude.
pub fn eval_expression_text<H: Host>(text: &str, interp: &mut Interpreter<H>) -> (r: ExprReport)
    ensures
        extends(final(interp).log(), old(interp).log()),
        forall|h: HostModel| agrees(h, final(interp).log()) ==> (final(interp).state(), r.view_report()) == #[trigger] run_expression(h, old(interp).state(), text@),
{
    let ghost st0 = interp.state();
    match parse_expr(text) {
        Err(pe) => ExprReport::Unreadable(pe.input),
        Ok((rest, oe)) => {
            let left = crate::builtins::trim_string(rest);
            if left.unicode_len() != 0 {
                return ExprReport::Trailing(String::from_str(rest));
            }
            match oe {
                None => ExprReport::Empty,
                Some(e) => {
                    let root = Environment::new_with_prelude(interp);
                    let ghost st1 = interp.state();
                    let ghost l1 = interp.log();
                    let r = eval(&e, root, interp);
                    proof {
                        assert forall|h: HostModel| agrees(h, interp.log()) implies #[trigger] run_expression(h, st0, text@).0 == interp.state() by {
                            assert(ev(h, MAX_DEPTH as nat, st1, root.id as nat, e@) == (interp.state(), view_result(&r)));
                        }
                    }
                    match r {
                        Ok(v) => ExprReport::Value(v),
                        Err(er) => ExprReport::Failed(er),
                    }
                },
            }
        },
    }
}

} // verus!
