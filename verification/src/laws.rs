//! Properties of the language that hold of every input: environments,
//! special forms, modules, the built-in functions and the highlighter.
use vstd::prelude::*;
use crate::ast::{NativeFn, SExpr};
use crate::builtins::{float_eq, float_is_nan, float_is_zero, float_key, in_order, native, pure_native, trim_chars, trim_end_chars, trim_start_chars};
use crate::env::{assoc_get, define_in, lookup};
use crate::error::SErr;
use crate::eval::{ev, ev_list, ev_let, ev_if, is_falsy, load_module};
use crate::globals::{global_bindings, with_prelude};
use crate::interp::{Request, Reply, SFrame, SState};
use crate::show::HostModel;
use crate::special_forms::spec_is_special_form;
use crate::text::char_is_whitespace;
use crate::repl::{
    all_rules, ansi_painted, class_codes, compiled_rules, escape_end, has_no_escape, line_tokens, match_here, render,
    rendered, strip_escapes, LispHighlighter, ReplHelper, TokenClass,
};

verus! {

/// After `name` is defined as `v` in an environment, looking `name` up
/// there gives `v`.
pub proof fn law_get_after_define(frames: Seq<SFrame>, env: nat, name: Seq<char>, v: SExpr)
    requires
        env < frames.len(),
    ensures
        lookup(define_in(frames, env, name, v), env, name) == Some(v),
{
    let f2 = define_in(frames, env, name, v);
    assert(f2[env as int].bindings.last() == (name, v));
}

/// Defining a name in an environment changes nothing that is seen from the
/// environments made before it: its enclosing environments in particular.
pub proof fn law_define_leaves_outer(frames: Seq<SFrame>, env: nat, name: Seq<char>, v: SExpr, other: nat, key: Seq<char>)
    requires
        other < env,
    ensures
        lookup(define_in(frames, env, name, v), other, key) == lookup(frames, other, key),
    decreases other,
{
    let f2 = define_in(frames, env, name, v);
    if other < frames.len() {
        assert(f2[other as int] == frames[other as int]);
        match frames[other as int].outer {
            Some(o) => if o < other {
                law_define_leaves_outer(frames, env, name, v, o, key);
            },
            None => {},
        }
    }
}

/// Redefining a name in the same environment replaces its value.
pub proof fn law_redefine(frames: Seq<SFrame>, env: nat, name: Seq<char>, v1: SExpr, v2: SExpr)
    requires
        env < frames.len(),
    ensures
        lookup(define_in(define_in(frames, env, name, v1), env, name, v2), env, name) == Some(v2),
{
    law_get_after_define(define_in(frames, env, name, v1), env, name, v2);
}

/// Numbers, booleans, `nil`, strings, functions and modules evaluate to
/// themselves, and change nothing.
pub proof fn law_self_evaluating(h: HostModel, d: nat, st: SState, env: nat, e: SExpr)
    requires
        !(e is Symbol),
        !(e is List),
    ensures
        ev(h, d, st, env, e) == (st, Ok::<SExpr, SErr>(e)),
{
}

/// The empty list evaluates to itself.
pub proof fn law_empty_list(h: HostModel, d: nat, st: SState, env: nat)
    ensures
        ev(h, d, st, env, SExpr::List(Seq::empty())) == (st, Ok::<SExpr, SErr>(SExpr::List(Seq::empty()))),
{
}

/// `(quote x)` gives `x` unevaluated, and changes nothing.
pub proof fn law_quote(h: HostModel, d: nat, st: SState, env: nat, x: SExpr)
    ensures
        ev(h, d, st, env, SExpr::List(seq![SExpr::Symbol("quote"@), x])) == (st, Ok::<SExpr, SErr>(x)),
{
    let items = seq![SExpr::Symbol("quote"@), x];
    reveal_strlit("let");
    reveal_strlit("quote");
    assert(ev_list(h, d, st, env, items) == (st, crate::eval::quote_form(items)));
}

/// `(let name e)`, for a name that is not reserved: the value of `e`,
/// which is then what `name` stands for in the environment.
pub proof fn law_let_binds(h: HostModel, d: nat, st: SState, env: nat, name: Seq<char>, e: SExpr)
    requires
        !spec_is_special_form(name),
        ev(h, d, st, env, e).1 is Ok,
        env < ev(h, d, st, env, e).0.frames.len(),
    ensures
        ({
            let out = ev(h, d, st, env, SExpr::List(seq![SExpr::Symbol("let"@), SExpr::Symbol(name), e]));
            &&& out.1 == ev(h, d, st, env, e).1
            &&& lookup(out.0.frames, env, name) == Some(ev(h, d, st, env, e).1->Ok_0)
        }),
{
    let items = seq![SExpr::Symbol("let"@), SExpr::Symbol(name), e];
    reveal_strlit("let");
    reveal_strlit("quote");
    assert(items[2] == e);
    assert(ev_list(h, d, st, env, items) == ev_let(h, d, st, env, items));
    let (st1, r) = ev(h, d, st, env, e);
    law_get_after_define(st1.frames, env, name, r->Ok_0);
}

/// A reserved keyword cannot be bound with `let`.
pub proof fn law_let_reserved(h: HostModel, d: nat, st: SState, env: nat, name: Seq<char>, e: SExpr)
    requires
        spec_is_special_form(name),
    ensures
        ev(h, d, st, env, SExpr::List(seq![SExpr::Symbol("let"@), SExpr::Symbol(name), e]))
            == (st, Err::<SExpr, SErr>(SErr::ReservedKeyword(name))),
{
    let items = seq![SExpr::Symbol("let"@), SExpr::Symbol(name), e];
    reveal_strlit("let");
    reveal_strlit("quote");
    assert(ev_list(h, d, st, env, items) == ev_let(h, d, st, env, items));
}

/// `(if c a b)`: when `c` evaluates to `false` or `nil`, the value of `b`;
/// to any other value, the value of `a`; an error of `c` is the result.
pub proof fn law_if(h: HostModel, d: nat, st: SState, env: nat, c: SExpr, a: SExpr, b: SExpr)
    ensures
        ({
            let (st1, rc) = ev(h, d, st, env, c);
            ev(h, d, st, env, SExpr::List(seq![SExpr::Symbol("if"@), c, a, b])) == match rc {
                Err(e) => (st1, Err(e)),
                Ok(v) => if is_falsy(v) { ev(h, d, st1, env, b) } else { ev(h, d, st1, env, a) },
            }
        }),
{
    let items = seq![SExpr::Symbol("if"@), c, a, b];
    reveal_strlit("let");
    reveal_strlit("quote");
    reveal_strlit("fn");
    reveal_strlit("if");
    assert(ev_list(h, d, st, env, items) == ev_if(h, d, st, env, items));
}

/// `(if c a)` with a false condition is `nil`.
pub proof fn law_if_without_else(h: HostModel, d: nat, st: SState, env: nat, c: SExpr, a: SExpr)
    requires
        ev(h, d, st, env, c).1 matches Ok(v) && is_falsy(v),
    ensures
        ev(h, d, st, env, SExpr::List(seq![SExpr::Symbol("if"@), c, a]))
            == (ev(h, d, st, env, c).0, Ok::<SExpr, SErr>(SExpr::Nil)),
{
    let items = seq![SExpr::Symbol("if"@), c, a];
    reveal_strlit("let");
    reveal_strlit("quote");
    reveal_strlit("fn");
    reveal_strlit("if");
    assert(ev_list(h, d, st, env, items) == ev_if(h, d, st, env, items));
}

/// A module file that was loaded before is given from the cache: its file
/// is not read again, and nothing changes but the count of requests to the
/// file system.
pub proof fn law_module_cached(h: HostModel, d: nat, st: SState, path: Seq<char>, canon: Seq<char>, m: SExpr)
    requires
        h(Request::Resolve(path, st.disk)) == Reply::Found(Ok::<Seq<char>, SErr>(canon)),
        assoc_get(st.cache, canon) == Some(m),
    ensures
        load_module(h, d, st, path) == (SState { disk: st.disk + 1, ..st }, Ok::<SExpr, SErr>(m)),
{
}

/// A module file that loads is then in the cache, under its canonical path.
pub proof fn law_module_loaded_is_cached(h: HostModel, d: nat, st: SState, path: Seq<char>, canon: Seq<char>)
    requires
        h(Request::Resolve(path, st.disk)) == Reply::Found(Ok::<Seq<char>, SErr>(canon)),
        load_module(h, d, st, path).1 is Ok,
    ensures
        assoc_get(load_module(h, d, st, path).0.cache, canon) == Some(load_module(h, d, st, path).1->Ok_0),
{
}

/// Requiring a module file a second time, under a name that resolves to the
/// same file (such as `lib` and `lib.lisp`), gives the same module, from the
/// cache: the file is not read or run again, whatever it holds by then.
pub proof fn law_require_twice(h: HostModel, d1: nat, d2: nat, st: SState, path1: Seq<char>, path2: Seq<char>, canon: Seq<char>)
    requires
        h(Request::Resolve(path1, st.disk)) == Reply::Found(Ok::<Seq<char>, SErr>(canon)),
        load_module(h, d1, st, path1).1 is Ok,
        h(Request::Resolve(path2, load_module(h, d1, st, path1).0.disk)) == Reply::Found(Ok::<Seq<char>, SErr>(canon)),
    ensures
        ({
            let (st1, r1) = load_module(h, d1, st, path1);
            load_module(h, d2, st1, path2) == (SState { disk: st1.disk + 1, ..st1 }, r1)
        }),
{
    law_module_loaded_is_cached(h, d1, st, path1, canon);
}

/// Defining `name` in an environment leaves every other name as it was, as
/// seen from any environment.
pub proof fn law_define_other_names(frames: Seq<SFrame>, env: nat, name: Seq<char>, v: SExpr, from: nat, key: Seq<char>)
    requires
        key != name,
    ensures
        lookup(define_in(frames, env, name, v), from, key) == lookup(frames, from, key),
    decreases from,
{
    let f2 = define_in(frames, env, name, v);
    if from < frames.len() {
        assert(f2[from as int].outer == frames[from as int].outer);
        if from == env {
            assert(f2[from as int].bindings.drop_last() =~= frames[from as int].bindings);
            assert(assoc_get(f2[from as int].bindings, key) == assoc_get(frames[from as int].bindings, key));
        } else {
            assert(f2[from as int] == frames[from as int]);
        }
        match frames[from as int].outer {
            Some(o) => if o < from {
                law_define_other_names(frames, env, name, v, o, key);
            },
            None => {},
        }
    }
}

/// Defining in a handle that names no environment changes nothing.
pub proof fn law_define_nowhere(frames: Seq<SFrame>, env: nat, name: Seq<char>, v: SExpr)
    requires
        env >= frames.len(),
    ensures
        define_in(frames, env, name, v) == frames,
{
}

/// A number is equal to itself under `=` unless it is a NaN.
pub proof fn law_equals_reflexive(x: u64)
    ensures
        float_eq(x, x) == !float_is_nan(x),
{
}

/// `=` is symmetric.
pub proof fn law_equals_symmetric(x: u64, y: u64)
    ensures
        float_eq(x, y) == float_eq(y, x),
{
}

/// `(< a b)` and `(> b a)` agree, and so do `(<= a b)` and `(>= b a)`.
pub proof fn law_comparisons_mirror(a: u64, b: u64)
    ensures
        in_order(NativeFn::LessThan, a, b) == in_order(NativeFn::GreaterThan, b, a),
        in_order(NativeFn::LessEqual, a, b) == in_order(NativeFn::GreaterEqual, b, a),
{
}

/// `(<= a b)` holds exactly when `(< a b)` or `(= a b)` does; in
/// particular -0.0 and +0.0 are at most each other, and a NaN is in no order.
pub proof fn law_at_most_is_less_or_equal(a: u64, b: u64)
    ensures
        in_order(NativeFn::LessEqual, a, b) == (in_order(NativeFn::LessThan, a, b) || float_eq(a, b)),
{
    let m: u64 = 0x7fff_ffff_ffff_ffffu64;
    let sg: u64 = 0x8000_0000_0000_0000u64;
    if !float_is_nan(a) && !float_is_nan(b) && float_key(a) == float_key(b) {
        let sa = (a & sg) != 0;
        let sb = (b & sg) != 0;
        if sa == sb {
            assert((a & m) == (b & m));
            assert((a & 0x7fff_ffff_ffff_ffffu64) == (b & 0x7fff_ffff_ffff_ffffu64)
                && (((a & 0x8000_0000_0000_0000u64) != 0) == ((b & 0x8000_0000_0000_0000u64) != 0)) ==> a == b) by (bit_vector);
        } else {
            assert((a & m) == 0 && (b & m) == 0);
            assert(float_is_zero(a) && float_is_zero(b));
        }
    }
    if float_eq(a, b) {
        if a != b {
            assert(float_is_zero(a) && float_is_zero(b));
            assert(float_key(a) == 0 && float_key(b) == 0);
        }
    }
}

/// Reversing a string twice gives it back.
pub proof fn law_reverse_involutive(s: Seq<char>)
    ensures
        s.reverse().reverse() == s,
{
    assert(s.reverse().reverse() =~= s);
}

proof fn lemma_trim_start_idem(s: Seq<char>)
    ensures
        trim_start_chars(trim_start_chars(s)) == trim_start_chars(s),
        trim_start_chars(s).len() == 0 || !char_is_whitespace(trim_start_chars(s)[0]),
    decreases s.len(),
{
    if s.len() > 0 && char_is_whitespace(s[0]) {
        lemma_trim_start_idem(s.drop_first());
    }
}

proof fn lemma_trim_end_idem(s: Seq<char>)
    ensures
        trim_end_chars(trim_end_chars(s)) == trim_end_chars(s),
        trim_end_chars(s).len() == 0 || !char_is_whitespace(trim_end_chars(s).last()),
    decreases s.len(),
{
    if s.len() > 0 && char_is_whitespace(s.last()) {
        lemma_trim_end_idem(s.drop_last());
    }
}

proof fn lemma_trim_end_prefix(s: Seq<char>)
    ensures
        trim_end_chars(s) == s.subrange(0, trim_end_chars(s).len() as int),
        trim_end_chars(s).len() <= s.len(),
    decreases s.len(),
{
    if s.len() > 0 && char_is_whitespace(s.last()) {
        lemma_trim_end_prefix(s.drop_last());
        assert(s.drop_last().subrange(0, trim_end_chars(s).len() as int) =~= s.subrange(0, trim_end_chars(s).len() as int));
    } else {
        assert(s.subrange(0, s.len() as int) =~= s);
    }
}

proof fn lemma_trim_start_keeps(s: Seq<char>)
    requires
        s.len() == 0 || !char_is_whitespace(s[0]),
    ensures
        trim_start_chars(s) == s,
{
}

/// Trimming a trimmed string changes nothing.
pub proof fn law_trim_idempotent(s: Seq<char>)
    ensures
        trim_chars(trim_chars(s)) == trim_chars(s),
{
    let a = trim_start_chars(s);
    let b = trim_end_chars(a);
    lemma_trim_start_idem(s);
    lemma_trim_end_prefix(a);
    lemma_trim_end_idem(a);
    if b.len() > 0 {
        assert(b[0] == a[0]);
    }
    lemma_trim_start_keeps(b);
}

/// `log/info` and `log/error` print exactly the line they return.
pub proof fn law_log_prints_its_result(h: HostModel, st: SState, args: Seq<SExpr>)
    ensures
        native(h, st, crate::ast::NativeFn::LogInfo, args).0.printed
            == st.printed.push((false, pure_native(h, crate::ast::NativeFn::LogInfo, args)->Ok_0->Str_0)),
        native(h, st, crate::ast::NativeFn::LogError, args).0.printed
            == st.printed.push((true, pure_native(h, crate::ast::NativeFn::LogError, args)->Ok_0->Str_0)),
{
}

// ---------------------------------------------------------------------------
// Evaluation only adds: frames, bindings, cached modules and printed lines.

/// `b` is `a` with more bindings at its end, and the same enclosing frame.
pub open spec fn frame_extends(a: SFrame, b: SFrame) -> bool {
    &&& a.outer == b.outer
    &&& a.bindings.len() <= b.bindings.len()
    &&& b.bindings.subrange(0, a.bindings.len() as int) == a.bindings
}

/// `b` starts with `a`.
pub open spec fn is_prefix<T>(a: Seq<T>, b: Seq<T>) -> bool {
    a.len() <= b.len() && b.subrange(0, a.len() as int) == a
}

/// Every frame of `a` is in `b`, with possibly more bindings; `b` may hold
/// more frames, more cached modules and more printed lines.
pub open spec fn state_extends(a: SState, b: SState) -> bool {
    &&& a.frames.len() <= b.frames.len()
    &&& forall|i: int| 0 <= i < a.frames.len() ==> frame_extends(#[trigger] a.frames[i], b.frames[i])
    &&& is_prefix(a.cache, b.cache)
    &&& is_prefix(a.printed, b.printed)
}

pub proof fn lemma_state_extends_refl(a: SState)
    ensures
        state_extends(a, a),
{
    assert forall|i: int| 0 <= i < a.frames.len() implies frame_extends(#[trigger] a.frames[i], a.frames[i]) by {
        assert(a.frames[i].bindings.subrange(0, a.frames[i].bindings.len() as int) =~= a.frames[i].bindings);
    }
    assert(a.cache.subrange(0, a.cache.len() as int) =~= a.cache);
    assert(a.printed.subrange(0, a.printed.len() as int) =~= a.printed);
}

pub proof fn lemma_state_extends_trans(a: SState, b: SState, c: SState)
    requires
        state_extends(a, b),
        state_extends(b, c),
    ensures
        state_extends(a, c),
{
    assert forall|i: int| 0 <= i < a.frames.len() implies frame_extends(#[trigger] a.frames[i], c.frames[i]) by {
        assert(frame_extends(a.frames[i], b.frames[i]));
        assert(frame_extends(b.frames[i], c.frames[i]));
        let la = a.frames[i].bindings.len() as int;
        assert(c.frames[i].bindings.subrange(0, la) =~= b.frames[i].bindings.subrange(0, la));
    }
    assert(c.cache.subrange(0, a.cache.len() as int) =~= b.cache.subrange(0, a.cache.len() as int));
    assert(c.printed.subrange(0, a.printed.len() as int) =~= b.printed.subrange(0, a.printed.len() as int));
}

pub proof fn lemma_push_frame_extends(st: SState, f: SFrame)
    ensures
        state_extends(st, SState { frames: st.frames.push(f), ..st }),
{
    lemma_state_extends_refl(st);
}

pub proof fn lemma_define_extends(st: SState, env: nat, name: Seq<char>, v: SExpr)
    ensures
        state_extends(st, SState { frames: define_in(st.frames, env, name, v), ..st }),
{
    lemma_state_extends_refl(st);
    let f2 = define_in(st.frames, env, name, v);
    assert forall|i: int| 0 <= i < st.frames.len() implies frame_extends(#[trigger] st.frames[i], f2[i]) by {
        if i == env {
            assert(f2[i].bindings.subrange(0, st.frames[i].bindings.len() as int) =~= st.frames[i].bindings);
        } else {
            assert(f2[i].bindings.subrange(0, st.frames[i].bindings.len() as int) =~= st.frames[i].bindings);
        }
    }
}

pub proof fn lemma_define_all_extends(st: SState, env: nat, bs: Seq<(Seq<char>, SExpr)>)
    ensures
        state_extends(st, SState { frames: crate::globals::define_all(st.frames, env, bs), ..st }),
{
    lemma_state_extends_refl(st);
    let f2 = crate::globals::define_all(st.frames, env, bs);
    assert forall|i: int| 0 <= i < st.frames.len() implies frame_extends(#[trigger] st.frames[i], f2[i]) by {
        assert(f2[i].bindings.subrange(0, st.frames[i].bindings.len() as int) =~= st.frames[i].bindings);
    }
}

pub proof fn lemma_prelude_extends(st: SState)
    ensures
        state_extends(st, crate::globals::with_prelude(st)),
{
    let n = st.frames.len();
    let s1 = SState { frames: st.frames.push(crate::env::frame_of(Seq::empty(), None)), ..st };
    lemma_push_frame_extends(st, crate::env::frame_of(Seq::empty(), None));
    let s2 = SState { frames: s1.frames.push(crate::env::frame_of(crate::globals::math_bindings(), None)), ..s1 };
    lemma_push_frame_extends(s1, crate::env::frame_of(crate::globals::math_bindings(), None));
    let s3 = SState { frames: s2.frames.push(crate::env::frame_of(crate::globals::log_bindings(), None)), ..s2 };
    lemma_push_frame_extends(s2, crate::env::frame_of(crate::globals::log_bindings(), None));
    let s4 = SState { frames: s3.frames.push(crate::env::frame_of(crate::globals::string_bindings(), None)), ..s3 };
    lemma_push_frame_extends(s3, crate::env::frame_of(crate::globals::string_bindings(), None));
    let s5 = SState { frames: s4.frames.push(crate::env::frame_of(Seq::empty(), None)), ..s4 };
    lemma_push_frame_extends(s4, crate::env::frame_of(Seq::empty(), None));
    lemma_define_all_extends(s5, n, crate::globals::global_bindings(n + 1));
    lemma_state_extends_trans(st, s1, s2);
    lemma_state_extends_trans(st, s2, s3);
    lemma_state_extends_trans(st, s3, s4);
    lemma_state_extends_trans(st, s4, s5);
    lemma_state_extends_trans(st, s5, crate::globals::with_prelude(st));
}

pub proof fn lemma_native_extends(h: HostModel, st: SState, f: crate::ast::NativeFn, args: Seq<SExpr>)
    ensures
        state_extends(st, native(h, st, f, args).0),
{
    lemma_state_extends_refl(st);
    let out = native(h, st, f, args).0;
    assert(out.printed.subrange(0, st.printed.len() as int) =~= st.printed);
}

pub proof fn lemma_ev_extends(h: HostModel, d: nat, st: SState, env: nat, e: SExpr)
    ensures
        state_extends(st, ev(h, d, st, env, e).0),
    decreases d, 1int, e, 2int, 0int,
{
    lemma_state_extends_refl(st);
    match e {
        SExpr::List(items) => if items.len() > 0 {
            lemma_ev_list_extends(h, d, st, env, items);
        },
        _ => {},
    }
}

pub proof fn lemma_ev_list_extends(h: HostModel, d: nat, st: SState, env: nat, items: Seq<SExpr>)
    ensures
        state_extends(st, ev_list(h, d, st, env, items).0),
    decreases d, 1int, SExpr::List(items), 1int, 0int,
{
    lemma_state_extends_refl(st);
    if items.len() == 0 {
    } else if crate::eval::is_form(items, "let"@) {
        lemma_ev_let_extends(h, d, st, env, items);
    } else if crate::eval::is_form(items, "quote"@) {
    } else if crate::eval::is_form(items, "fn"@) {
    } else if crate::eval::is_form(items, "if"@) {
        lemma_ev_if_extends(h, d, st, env, items);
    } else if crate::eval::is_form(items, "require"@) {
        lemma_ev_require_extends(h, d, st, env, items);
    } else {
        let (st1, callee) = match items[0] {
            SExpr::Symbol(s) => (st, crate::eval::callee_symbol(st.frames, env, s)),
            _ => {
                crate::eval::lemma_list_decreases(items, 0);
                lemma_ev_extends(h, d, st, env, items[0]);
                ev(h, d, st, env, items[0])
            },
        };
        match callee {
            Err(_) => {},
            Ok(f) => {
                lemma_ev_args_extends(h, d, st1, env, items, 1, Seq::empty());
                let (st2, args) = crate::eval::ev_args(h, d, st1, env, items, 1, Seq::empty());
                lemma_state_extends_trans(st, st1, st2);
                match args {
                    Err(_) => {},
                    Ok(vals) => {
                        lemma_apply_extends(h, d, st2, f, vals);
                        lemma_state_extends_trans(st, st2, crate::eval::apply(h, d, st2, f, vals).0);
                    },
                }
            },
        }
    }
}

pub proof fn lemma_ev_args_extends(h: HostModel, d: nat, st: SState, env: nat, items: Seq<SExpr>, k: int, acc: Seq<SExpr>)
    ensures
        state_extends(st, crate::eval::ev_args(h, d, st, env, items, k, acc).0),
    decreases d, 1int, SExpr::List(items), 0int, items.len() - k + 1,
{
    lemma_state_extends_refl(st);
    if 0 <= k < items.len() {
        crate::eval::lemma_list_decreases(items, k);
        lemma_ev_extends(h, d, st, env, items[k]);
        let (st1, r) = ev(h, d, st, env, items[k]);
        match r {
            Err(_) => {},
            Ok(v) => {
                lemma_ev_args_extends(h, d, st1, env, items, k + 1, acc.push(v));
                lemma_state_extends_trans(st, st1, crate::eval::ev_args(h, d, st1, env, items, k + 1, acc.push(v)).0);
            },
        }
    }
}

pub proof fn lemma_ev_let_extends(h: HostModel, d: nat, st: SState, env: nat, items: Seq<SExpr>)
    ensures
        state_extends(st, ev_let(h, d, st, env, items).0),
    decreases d, 1int, SExpr::List(items), 0int, 0int,
{
    lemma_state_extends_refl(st);
    if items.len() == 3 {
        if let SExpr::Symbol(name) = items[1] {
            if !spec_is_special_form(name) {
                crate::eval::lemma_list_decreases(items, 2);
                lemma_ev_extends(h, d, st, env, items[2]);
                let (st1, r) = ev(h, d, st, env, items[2]);
                if let Ok(v) = r {
                    lemma_define_extends(st1, env, name, v);
                    lemma_state_extends_trans(st, st1, SState { frames: define_in(st1.frames, env, name, v), ..st1 });
                }
            }
        }
    }
}

pub proof fn lemma_ev_if_extends(h: HostModel, d: nat, st: SState, env: nat, items: Seq<SExpr>)
    ensures
        state_extends(st, ev_if(h, d, st, env, items).0),
    decreases d, 1int, SExpr::List(items), 0int, 0int,
{
    lemma_state_extends_refl(st);
    if 3 <= items.len() <= 4 {
        crate::eval::lemma_list_decreases(items, 1);
        crate::eval::lemma_list_decreases(items, 2);
        lemma_ev_extends(h, d, st, env, items[1]);
        let (st1, c) = ev(h, d, st, env, items[1]);
        if let Ok(v) = c {
            if is_falsy(v) {
                if items.len() == 4 {
                    crate::eval::lemma_list_decreases(items, 3);
                    lemma_ev_extends(h, d, st1, env, items[3]);
                    lemma_state_extends_trans(st, st1, ev(h, d, st1, env, items[3]).0);
                }
            } else {
                lemma_ev_extends(h, d, st1, env, items[2]);
                lemma_state_extends_trans(st, st1, ev(h, d, st1, env, items[2]).0);
            }
        }
    }
}

pub proof fn lemma_ev_require_extends(h: HostModel, d: nat, st: SState, env: nat, items: Seq<SExpr>)
    ensures
        state_extends(st, crate::eval::ev_require(h, d, st, env, items).0),
    decreases d, 1int, SExpr::List(items), 0int, 0int,
{
    lemma_state_extends_refl(st);
    if items.len() == 2 {
        if let Ok(name) = crate::eval::require_target(h, items[1]) {
            match crate::globals::builtin_named(name) {
                Some(b) => {
                    lemma_push_frame_extends(st, crate::env::frame_of(crate::globals::builtin_bindings(b), None));
                },
                None => {
                    lemma_load_module_extends(h, d, st, crate::eval::with_lisp_ext(name));
                },
            }
        }
    }
}

pub proof fn lemma_load_module_extends(h: HostModel, d: nat, st: SState, path: Seq<char>)
    ensures
        state_extends(st, load_module(h, d, st, path).0),
    decreases d, 0int, SExpr::Nil, 1int, 0int,
{
    lemma_state_extends_refl(st);
    if let Ok(canon) = crate::interp::reply_found(h(Request::Resolve(path, st.disk))) {
        if assoc_get(st.cache, canon) is None {
            let s0 = SState { disk: st.disk + 2, ..st };
            if let Ok(text) = crate::interp::reply_found(h(Request::Read(canon, st.disk + 1))) {
                let root = st.frames.len();
                let s1 = crate::globals::with_prelude(s0);
                lemma_state_extends_refl(s0);
                lemma_prelude_extends(s0);
                lemma_state_extends_trans(st, s0, s1);
                lemma_run_source_extends(h, d, s1, root, text, None);
                let (st2, r) = crate::eval::run_source(h, d, s1, root, text, None);
                lemma_state_extends_trans(st, s1, st2);
                if r is Done {
                    let m = SExpr::Module(canon, root);
                    let st3 = SState { cache: st2.cache.push((canon, m)), ..st2 };
                    lemma_state_extends_refl(st2);
                    assert(st3.cache.subrange(0, st2.cache.len() as int) =~= st2.cache);
                    assert(state_extends(st2, st3));
                    lemma_state_extends_trans(st, st2, st3);
                }
            }
        }
    }
}

pub proof fn lemma_apply_extends(h: HostModel, d: nat, st: SState, f: SExpr, args: Seq<SExpr>)
    ensures
        state_extends(st, crate::eval::apply(h, d, st, f, args).0),
    decreases d, 0int, SExpr::Nil, 0int, 0int,
{
    lemma_state_extends_refl(st);
    match f {
        SExpr::Function(params, body, clos) => if args.len() == params.len() && d > 0 {
            let frame = SFrame { bindings: crate::eval::bind_params(params, args), outer: Some(clos) };
            let s1 = SState { frames: st.frames.push(frame), ..st };
            lemma_push_frame_extends(st, frame);
            lemma_ev_extends(h, (d - 1) as nat, s1, st.frames.len(), *body);
            lemma_state_extends_trans(st, s1, ev(h, (d - 1) as nat, s1, st.frames.len(), *body).0);
        },
        SExpr::Native(_, nf) => {
            lemma_native_extends(h, st, nf, args);
        },
        _ => {},
    }
}

pub proof fn lemma_run_source_extends(h: HostModel, d: nat, st: SState, env: nat, text: Seq<char>, last: Option<SExpr>)
    ensures
        state_extends(st, crate::eval::run_source(h, d, st, env, text, last).0),
    decreases d, 0int, SExpr::Nil, 0int, text.len(),
{
    lemma_state_extends_refl(st);
    let t = trim_start_chars(text);
    if t.len() != 0 {
        if let crate::parser::SReadOutcome::Read(p, Some(e)) = crate::parser::spec_parse_expr(t) {
            if 0 < p <= t.len() && d > 0 {
                lemma_ev_extends(h, (d - 1) as nat, st, env, e);
                let (st1, r) = ev(h, (d - 1) as nat, st, env, e);
                if let Ok(v) = r {
                    crate::eval::lemma_trim_start_len(text);
                    lemma_run_source_extends(h, d, st1, env, t.subrange(p, t.len() as int), Some(v));
                    lemma_state_extends_trans(st, st1, crate::eval::run_source(h, d, st1, env, t.subrange(p, t.len() as int), Some(v)).0);
                }
            }
        }
    }
}

/// Evaluation never removes or rewrites anything: every environment frame
/// stays, with its bindings and its enclosing frame, and may only gain
/// bindings at its end; frames, cached modules and printed lines are only
/// added.
pub proof fn law_evaluation_only_adds(h: HostModel, d: nat, st: SState, env: nat, e: SExpr)
    ensures
        state_extends(st, ev(h, d, st, env, e).0),
{
    lemma_ev_extends(h, d, st, env, e);
}

// ---------------------------------------------------------------------------
// Calls

proof fn lemma_assoc_bind_params(params: Seq<Seq<char>>, args: Seq<SExpr>, k: Seq<char>)
    requires
        params.len() == args.len(),
        forall|i: int, j: int| 0 <= i < j < params.len() ==> params[i] != params[j],
    ensures
        params.contains(k) ==> assoc_get(crate::eval::bind_params(params, args), k) == Some(args[params.index_of(k)]),
        !params.contains(k) ==> assoc_get(crate::eval::bind_params(params, args), k) is None,
    decreases params.len(),
{
    let b = crate::eval::bind_params(params, args);
    if params.len() > 0 {
        let p2 = params.drop_last();
        let a2 = args.drop_last();
        assert(b.drop_last() =~= crate::eval::bind_params(p2, a2));
        lemma_assoc_bind_params(p2, a2, k);
        if params.last() == k {
            assert(params[params.len() - 1] == k);
            assert(params.contains(k));
            if params.index_of(k) != params.len() - 1 {
                let i = params.index_of(k);
                assert(params[i] == k);
            }
        } else {
            if params.contains(k) {
                let i = params.index_of(k);
                assert(params[i] == k);
                assert(p2[i] == k);
                assert(p2.contains(k));
                assert(p2.index_of(k) == i) by {
                    let j = p2.index_of(k);
                    assert(p2[j] == k);
                    assert(params[j] == k);
                }
            } else {
                assert forall|i: int| 0 <= i < p2.len() implies p2[i] != k by {
                    assert(params[i] == p2[i]);
                }
            }
        }
    }
}

/// In the environment of a call of a user function whose parameter names
/// are distinct, each parameter stands for its argument, and every other
/// name for what it stands for where the function was made.
pub proof fn law_call_environment(frames: Seq<SFrame>, params: Seq<Seq<char>>, args: Seq<SExpr>, clos: nat, k: Seq<char>)
    requires
        params.len() == args.len(),
        forall|i: int, j: int| 0 <= i < j < params.len() ==> params[i] != params[j],
        clos < frames.len(),
    ensures
        ({
            let call = frames.push(SFrame { bindings: crate::eval::bind_params(params, args), outer: Some(clos) });
            &&& params.contains(k) ==> lookup(call, frames.len(), k) == Some(args[params.index_of(k)])
            &&& !params.contains(k) ==> lookup(call, frames.len(), k) == lookup(frames, clos, k)
        }),
{
    let call = frames.push(SFrame { bindings: crate::eval::bind_params(params, args), outer: Some(clos) });
    lemma_assoc_bind_params(params, args, k);
    lemma_lookup_push(frames, SFrame { bindings: crate::eval::bind_params(params, args), outer: Some(clos) }, clos, k);
}

/// A new frame changes nothing that is seen from the frames before it.
pub proof fn lemma_lookup_push(frames: Seq<SFrame>, f: SFrame, e: nat, k: Seq<char>)
    requires
        e < frames.len(),
    ensures
        lookup(frames.push(f), e, k) == lookup(frames, e, k),
    decreases e,
{
    assert(frames.push(f)[e as int] == frames[e as int]);
    match frames[e as int].outer {
        Some(o) => if o < e {
            lemma_lookup_push(frames, f, o, k);
        },
        None => {},
    }
}

/// The shown form of tokens one after another is the shown forms of the
/// two parts one after the other.
pub proof fn lemma_rendered_concat(a: Seq<(Option<TokenClass>, Seq<char>)>, b: Seq<(Option<TokenClass>, Seq<char>)>)
    ensures
        rendered(a + b) == rendered(a) + rendered(b),
    decreases b.len(),
{
    if b.len() == 0 {
        assert(a + b =~= a);
        assert(rendered(a) + rendered(b) =~= rendered(a));
    } else {
        lemma_rendered_concat(a, b.drop_last());
        assert((a + b).drop_last() =~= a + b.drop_last());
        assert((a + b).last() == b.last());
        assert(rendered(a) + rendered(b) =~= rendered(a) + rendered(b.drop_last()) + render(b.last().0, b.last().1));
    }
}

/// A line in which no rule gives a token at any position is shown as it
/// is: text with no string, comment, number, keyword, boolean, `nil` or
/// bracket comes back unstyled.
pub proof fn law_unmatched_text_is_unstyled(rules: Seq<(Seq<char>, TokenClass)>, cs: Seq<char>, nbytes: nat, i: int, pos: usize)
    requires
        0 <= i <= cs.len(),
        forall|k: int, p: usize| i <= k < cs.len() ==> (#[trigger] match_here(rules, cs, nbytes, k, p)) is None,
    ensures
        rendered(line_tokens(rules, cs, nbytes, i, pos)) == cs.subrange(i, cs.len() as int),
    decreases cs.len() - i,
{
    if i == cs.len() {
        assert(line_tokens(rules, cs, nbytes, i, pos) =~= Seq::<(Option<TokenClass>, Seq<char>)>::empty());
        assert(cs.subrange(i, cs.len() as int) =~= Seq::<char>::empty());
    } else {
        assert(match_here(rules, cs, nbytes, i, pos) is None);
        let next = crate::repl::next_pos(pos, cs[i]);
        let first = seq![(None::<TokenClass>, cs.subrange(i, i + 1))];
        let rest = line_tokens(rules, cs, nbytes, i + 1, next);
        assert(line_tokens(rules, cs, nbytes, i, pos) == first + rest);
        law_unmatched_text_is_unstyled(rules, cs, nbytes, i + 1, next);
        lemma_rendered_concat(first, rest);
        assert(first.drop_last() =~= Seq::<(Option<TokenClass>, Seq<char>)>::empty());
        assert(first.last() == (None::<TokenClass>, cs.subrange(i, i + 1)));
        assert(rendered(first.drop_last()) == Seq::<char>::empty());
        assert(rendered(first) =~= cs.subrange(i, i + 1));
        assert(cs.subrange(i, i + 1) + cs.subrange(i + 1, cs.len() as int) =~= cs.subrange(i, cs.len() as int));
    }
}

/// The prompt helper's highlighter, as `ReplHelper::new` makes it, colours
/// every line exactly as a highlighter made by `LispHighlighter::new`.
pub proof fn law_prompt_helper_highlights_as_new(helper: ReplHelper, fresh: LispHighlighter, line: Seq<char>, nbytes: nat)
    requires
        helper.highlighter.rule_specs() == compiled_rules(all_rules()),
        fresh.rule_specs() == compiled_rules(all_rules()),
    ensures
        rendered(line_tokens(helper.highlighter.rule_specs(), line, nbytes, 0, 0))
            == rendered(line_tokens(fresh.rule_specs(), line, nbytes, 0, 0)),
{
}

/// Text without escapes passes through `strip_escapes` unchanged.
pub proof fn lemma_strip_plain(t: Seq<char>, x: Seq<char>)
    requires
        has_no_escape(t),
    ensures
        strip_escapes(t + x) == t + strip_escapes(x),
    decreases t.len(),
{
    if t.len() == 0 {
        assert(t + x =~= x);
        assert(t + strip_escapes(x) =~= strip_escapes(x));
    } else {
        let s = t + x;
        assert(s[0] == t[0]);
        assert(s.skip(1) =~= t.skip(1) + x);
        lemma_strip_plain(t.skip(1), x);
        assert(seq![t[0]] + (t.skip(1) + strip_escapes(x)) =~= t + strip_escapes(x));
    }
}

proof fn lemma_escape_end_at(s: Seq<char>, k: int, j: int)
    requires
        0 <= k <= j < s.len(),
        s[j] == 'm',
        forall|i: int| k <= i < j ==> s[i] != 'm',
    ensures
        escape_end(s, k) == j + 1,
    decreases j - k,
{
    if k < j {
        lemma_escape_end_at(s, k + 1, j);
    }
}

/// An escape sequence `ESC [ codes m` is taken out whole.
pub proof fn lemma_strip_escape(codes: Seq<char>, x: Seq<char>)
    requires
        forall|i: int| 0 <= i < codes.len() ==> codes[i] != 'm',
    ensures
        strip_escapes(seq!['\x1b', '['] + codes + seq!['m'] + x) == strip_escapes(x),
{
    let s = seq!['\x1b', '['] + codes + seq!['m'] + x;
    let j = codes.len() + 2int;
    assert(s[0] == '\x1b');
    assert(s[j] == 'm');
    assert forall|i: int| 1 <= i < j implies s[i] != 'm' by {
        if i >= 2 {
            assert(s[i] == codes[i - 2]);
        }
    }
    lemma_escape_end_at(s, 1, j);
    assert(s.skip(j + 1) =~= x);
}

proof fn lemma_class_codes_have_no_m(c: TokenClass)
    ensures
        forall|i: int| 0 <= i < class_codes(c).len() ==> class_codes(c)[i] != 'm',
{
}

/// A token as it is shown, escapes taken out, is its text.
pub proof fn lemma_strip_token(class: Option<TokenClass>, text: Seq<char>, x: Seq<char>)
    requires
        has_no_escape(text),
    ensures
        strip_escapes(render(class, text) + x) == text + strip_escapes(x),
{
    match class {
        None => lemma_strip_plain(text, x),
        Some(c) => {
            let codes = class_codes(c);
            let reset = seq!['\x1b', '[', '0', 'm'];
            assert(render(class, text) == ansi_painted(codes, text));
            lemma_class_codes_have_no_m(c);
            assert(ansi_painted(codes, text) + x =~= seq!['\x1b', '['] + codes + seq!['m'] + (text + (reset + x)));
            lemma_strip_escape(codes, text + (reset + x));
            lemma_strip_plain(text, reset + x);
            assert(reset + x =~= seq!['\x1b', '['] + seq!['0'] + seq!['m'] + x);
            lemma_strip_escape(seq!['0'], x);
        },
    }
}

/// Highlighting only adds colour: for a line that holds no ESC character,
/// taking the escape sequences out of the highlighted line gives the line
/// back, whatever the rules match.
pub proof fn law_highlighting_only_adds_colour(rules: Seq<(Seq<char>, TokenClass)>, cs: Seq<char>, nbytes: nat, i: int, pos: usize)
    requires
        0 <= i <= cs.len(),
        has_no_escape(cs),
    ensures
        strip_escapes(rendered(line_tokens(rules, cs, nbytes, i, pos))) == cs.subrange(i, cs.len() as int),
    decreases cs.len() - i,
{
    if i == cs.len() {
        assert(line_tokens(rules, cs, nbytes, i, pos) =~= Seq::<(Option<TokenClass>, Seq<char>)>::empty());
        assert(cs.subrange(i, cs.len() as int) =~= Seq::<char>::empty());
    } else {
        crate::repl::lemma_first_rule_match_advances(rules, cs, i, pos, 0);
        let (first, k, next) = match match_here(rules, cs, nbytes, i, pos) {
            Some((c, k, b)) => ((Some(c), cs.subrange(i, k)), k, b),
            None => ((None::<TokenClass>, cs.subrange(i, i + 1)), i + 1, crate::repl::next_pos(pos, cs[i])),
        };
        let rest = line_tokens(rules, cs, nbytes, k, next);
        assert(line_tokens(rules, cs, nbytes, i, pos) == seq![first] + rest);
        law_highlighting_only_adds_colour(rules, cs, nbytes, k, next);
        lemma_rendered_concat(seq![first], rest);
        assert(seq![first].drop_last() =~= Seq::<(Option<TokenClass>, Seq<char>)>::empty());
        assert(rendered(seq![first].drop_last()) == Seq::<char>::empty());
        assert(rendered(seq![first]) =~= render(first.0, first.1));
        assert(has_no_escape(first.1));
        lemma_strip_token(first.0, first.1, rendered(rest));
        assert(cs.subrange(i, k) + cs.subrange(k, cs.len() as int) =~= cs.subrange(i, cs.len() as int));
    }
}

/// In a new root environment with the prelude, `<`, `>`, `<=` and `>=` are
/// bound to the native comparisons of those names.
pub proof fn law_prelude_binds_comparisons(st: SState)
    ensures
        lookup(with_prelude(st).frames, st.frames.len(), "<"@) == Some(SExpr::Native("<"@, NativeFn::LessThan)),
        lookup(with_prelude(st).frames, st.frames.len(), ">"@) == Some(SExpr::Native(">"@, NativeFn::GreaterThan)),
        lookup(with_prelude(st).frames, st.frames.len(), "<="@) == Some(SExpr::Native("<="@, NativeFn::LessEqual)),
        lookup(with_prelude(st).frames, st.frames.len(), ">="@) == Some(SExpr::Native(">="@, NativeFn::GreaterEqual)),
{
    reveal_strlit("<");
    reveal_strlit(">");
    reveal_strlit("<=");
    reveal_strlit(">=");
    let n = st.frames.len();
    let root = with_prelude(st).frames[n as int];
    let g = global_bindings(n + 1);
    assert(g.len() == 13);
    let g12 = g.drop_last();
    let g11 = g12.drop_last();
    let g10 = g11.drop_last();
    assert(g.last() == (">="@, SExpr::Native(">="@, NativeFn::GreaterEqual)));
    assert(g12.last() == ("<="@, SExpr::Native("<="@, NativeFn::LessEqual)));
    assert(g11.last() == (">"@, SExpr::Native(">"@, NativeFn::GreaterThan)));
    assert(g10.last() == ("<"@, SExpr::Native("<"@, NativeFn::LessThan)));
    assert(">="@[0] != "<="@[0] && ">"@[0] != "<"@[0]);
    assert(">="@ != "<="@ && ">"@ != "<"@);
    assert(">="@.len() != ">"@.len() && ">="@.len() != "<"@.len());
    assert("<="@.len() != ">"@.len() && "<="@.len() != "<"@.len());
    assert(root.bindings =~= g);
    assert(with_prelude(st).frames.len() > n);
    assert(assoc_get(g, ">="@) == Some(SExpr::Native(">="@, NativeFn::GreaterEqual)));
    assert(assoc_get(g12, "<="@) == Some(SExpr::Native("<="@, NativeFn::LessEqual)));
    assert(assoc_get(g, "<="@) == assoc_get(g12, "<="@));
    assert(assoc_get(g11, ">"@) == Some(SExpr::Native(">"@, NativeFn::GreaterThan)));
    assert(assoc_get(g12, ">"@) == assoc_get(g11, ">"@));
    assert(assoc_get(g, ">"@) == assoc_get(g12, ">"@));
    assert(assoc_get(g10, "<"@) == Some(SExpr::Native("<"@, NativeFn::LessThan)));
    assert(assoc_get(g11, "<"@) == assoc_get(g10, "<"@));
    assert(assoc_get(g12, "<"@) == assoc_get(g11, "<"@));
    assert(assoc_get(g, "<"@) == assoc_get(g12, "<"@));
}

/// Characters that stand for themselves inside a string literal.
pub open spec fn plain_string_text(x: Seq<char>) -> bool {
    forall|i: int| 0 <= i < x.len() ==> x[i] != '"' && x[i] != '\\'
}

proof fn lemma_string_body_plain(s: Seq<char>, j: int, k: int, acc: Seq<char>)
    requires
        0 <= j <= k <= s.len(),
        forall|i: int| j <= i < k ==> s[i] != '"' && s[i] != '\\',
    ensures
        crate::parser::string_body(s, j, acc) == crate::parser::string_body(s, k, acc + s.subrange(j, k)),
    decreases k - j,
{
    if j < k {
        lemma_string_body_plain(s, j + 1, k, acc.push(s[j]));
        assert(acc.push(s[j]) + s.subrange(j + 1, k) =~= acc + s.subrange(j, k));
    } else {
        assert(acc + s.subrange(j, k) =~= acc);
    }
}

/// A text that starts with a string literal is read as that literal.
#[verifier::spinoff_prover]
proof fn lemma_string_start(s: Seq<char>)
    requires
        s.len() > 0,
        s[0] == '"',
        crate::parser::p_string(s, 0) is Parsed,
    ensures
        crate::parser::skip_blank(s, 0) == 0,
        crate::parser::p_expr(s, 0) == crate::parser::p_string(s, 0),
{
    let n = s.len() as int;
    assert(crate::parser::skip_blank(s, 0) == 0);
    assert(crate::parser::digits_from(s, 0) == 0);
    assert(crate::parser::float_lex(s) == crate::parser::FloatLex::NoMatch) by {
        assert(!crate::parser::starts_with_no_case(s, seq!['n', 'a', 'n'])) by {
            assert(s[0] != seq!['n', 'a', 'n'][0] && (s[0] as u32) + 32 != (seq!['n', 'a', 'n'][0] as u32));
        }
        assert(!crate::parser::starts_with_no_case(s, seq!['i', 'n', 'f', 'i', 'n', 'i', 't', 'y'])) by {
            assert(s[0] != 'i' && (s[0] as u32) + 32 != ('i' as u32));
        }
        assert(!crate::parser::starts_with_no_case(s, seq!['i', 'n', 'f'])) by {
            assert(s[0] != 'i' && (s[0] as u32) + 32 != ('i' as u32));
        }
    }
    assert(s.subrange(0, n) =~= s);
    assert(crate::parser::p_number(s, 0) == crate::parser::SParse::NoMatch);
    assert(!crate::parser::matches_word(s, 0, crate::parser::word_true())) by {
        if crate::parser::matches_word(s, 0, crate::parser::word_true()) {
            assert(s.subrange(0, 4)[0] == s[0]);
        }
    }
    assert(!crate::parser::matches_word(s, 0, crate::parser::word_false())) by {
        if crate::parser::matches_word(s, 0, crate::parser::word_false()) {
            assert(s.subrange(0, 5)[0] == s[0]);
        }
    }
    assert(!crate::parser::matches_word(s, 0, crate::parser::word_nil())) by {
        if crate::parser::matches_word(s, 0, crate::parser::word_nil()) {
            assert(s.subrange(0, 3)[0] == s[0]);
        }
    }
    assert(crate::parser::p_quoted(s, 0) == crate::parser::SParse::NoMatch);
}

/// Reading a string literal whose text is `x`, the escape `\c`, then `y`.
#[verifier::spinoff_prover]
proof fn lemma_read_escaped(x: Seq<char>, y: Seq<char>, c: char, out: char)
    requires
        plain_string_text(x),
        plain_string_text(y),
        crate::parser::escape_char(c) == Some(out),
    ensures
        crate::parser::spec_parse_expr(seq!['"'] + x + seq!['\\', c] + y + seq!['"'])
            == crate::parser::SReadOutcome::Read((x.len() + y.len() + 4) as int, Some(SExpr::Str(x + seq![out] + y))),
{
    let s = seq!['"'] + x + seq!['\\', c] + y + seq!['"'];
    let n = s.len() as int;
    let a = x.len() as int + 1;
    let b = a + 2;
    let e = b + y.len();
    assert(n == e + 1);
    assert(s[0] == '"');
    assert forall|i: int| 1 <= i < a implies s[i] != '"' && s[i] != '\\' by {
        assert(s[i] == x[i - 1]);
    }
    assert forall|i: int| b <= i < e implies s[i] != '"' && s[i] != '\\' by {
        assert(s[i] == y[i - b]);
    }
    assert(s[a] == '\\' && s[a + 1] == c && s[e] == '"');
    lemma_string_body_plain(s, 1, a, Seq::empty());
    assert(Seq::<char>::empty() + s.subrange(1, a) =~= x);
    assert(crate::parser::string_body(s, a, x) == crate::parser::string_body(s, b, x.push(out)));
    lemma_string_body_plain(s, b, e, x.push(out));
    assert(x.push(out) + s.subrange(b, e) =~= x + seq![out] + y);
    let t = x + seq![out] + y;
    assert(crate::parser::string_body(s, e, t) == (e, t));
    assert(crate::parser::p_string(s, 0) == crate::parser::SParse::Parsed(n, SExpr::Str(t)));
    lemma_string_start(s);
    assert(crate::parser::skip_blank(s, n) == n);
}

/// Inside a string literal, `\n` stands for a line feed, `\t` for a tab and
/// `\r` for a carriage return, whatever plain text stands around them:
/// reading `"x\ny"` gives the characters of `x`, U+000A, then those of `y`.
#[verifier::spinoff_prover]
pub proof fn law_string_escapes(x: Seq<char>, y: Seq<char>)
    requires
        plain_string_text(x),
        plain_string_text(y),
    ensures
        crate::parser::spec_parse_expr(seq!['"'] + x + seq!['\\', 'n'] + y + seq!['"'])
            == crate::parser::SReadOutcome::Read((x.len() + y.len() + 4) as int, Some(SExpr::Str(x + seq!['\u{0A}'] + y))),
        crate::parser::spec_parse_expr(seq!['"'] + x + seq!['\\', 't'] + y + seq!['"'])
            == crate::parser::SReadOutcome::Read((x.len() + y.len() + 4) as int, Some(SExpr::Str(x + seq!['\u{09}'] + y))),
        crate::parser::spec_parse_expr(seq!['"'] + x + seq!['\\', 'r'] + y + seq!['"'])
            == crate::parser::SReadOutcome::Read((x.len() + y.len() + 4) as int, Some(SExpr::Str(x + seq!['\u{0D}'] + y))),
        crate::parser::spec_parse_expr(seq!['"'] + x + seq!['\\', '"'] + y + seq!['"'])
            == crate::parser::SReadOutcome::Read((x.len() + y.len() + 4) as int, Some(SExpr::Str(x + seq!['"'] + y))),
        crate::parser::spec_parse_expr(seq!['"'] + x + seq!['\\', '\\'] + y + seq!['"'])
            == crate::parser::SReadOutcome::Read((x.len() + y.len() + 4) as int, Some(SExpr::Str(x + seq!['\\'] + y))),
{
    lemma_read_escaped(x, y, 'n', '\u{0A}');
    lemma_read_escaped(x, y, 't', '\u{09}');
    lemma_read_escaped(x, y, 'r', '\u{0D}');
    lemma_read_escaped(x, y, '"', '"');
    lemma_read_escaped(x, y, '\\', '\\');
}

proof fn lemma_scan_inside_string(t: Seq<char>, x: Seq<char>)
    requires
        crate::repl::scan(t).in_string,
        !crate::repl::scan(t).in_comment,
        forall|i: int| 0 <= i < x.len() ==> x[i] != '"',
    ensures
        crate::repl::scan(t + x) == crate::repl::scan(t),
    decreases x.len(),
{
    if x.len() == 0 {
        assert(t + x =~= t);
    } else {
        lemma_scan_inside_string(t, x.drop_last());
        assert((t + x).drop_last() =~= t + x.drop_last());
        assert((t + x).last() == x.last());
    }
}

/// What stands inside a string literal does not count towards whether an
/// input is complete: a `;` there starts no comment and parentheses there
/// are not counted. Appending a closed string literal to an input that is
/// outside any string and comment leaves the scan, and so completeness,
/// as it was; e.g. `(f "a;b")` is complete as `(f )` is.
pub proof fn law_string_contents_do_not_count(s: Seq<char>, x: Seq<char>)
    requires
        !crate::repl::scan(s).in_string,
        !crate::repl::scan(s).in_comment,
        forall|i: int| 0 <= i < x.len() ==> x[i] != '"',
    ensures
        crate::repl::scan(s + seq!['"'] + x + seq!['"']) == crate::repl::scan(s),
        crate::repl::is_complete(s + seq!['"'] + x + seq!['"']) == crate::repl::is_complete(s),
{
    let t = s + seq!['"'];
    assert(t.drop_last() =~= s);
    assert(t.last() == '"');
    lemma_scan_inside_string(t, x);
    let u = t + x + seq!['"'];
    assert(u.drop_last() =~= t + x);
    assert(u.last() == '"');
    assert(s + seq!['"'] + x + seq!['"'] =~= u);
}

/// Balanced parentheses around a string literal holding `;` make a complete
/// input, whatever else the literal holds: `(f "<x>")`.
pub proof fn law_call_with_string_is_complete(x: Seq<char>)
    requires
        forall|i: int| 0 <= i < x.len() ==> x[i] != '"',
    ensures
        crate::repl::is_complete(seq!['(', 'f', ' ', '"'] + x + seq!['"', ')']),
{
    let s1 = seq!['('];
    let s2 = seq!['(', 'f'];
    let s = seq!['(', 'f', ' '];
    assert(s1.drop_last() =~= Seq::<char>::empty());
    assert(s2.drop_last() =~= s1);
    assert(s.drop_last() =~= s2);
    assert(crate::repl::scan(Seq::<char>::empty()) == crate::repl::ScanState { open: 0, close: 0, in_string: false, in_comment: false });
    assert(crate::repl::scan(s1) == crate::repl::ScanState { open: 1, close: 0, in_string: false, in_comment: false });
    assert(crate::repl::scan(s2) == crate::repl::scan(s1));
    assert(crate::repl::scan(s) == crate::repl::scan(s1));
    law_string_contents_do_not_count(s, x);
    let v = s + seq!['"'] + x + seq!['"'];
    let w = seq!['(', 'f', ' ', '"'] + x + seq!['"', ')'];
    assert(w.drop_last() =~= v);
    assert(w.last() == ')');
}

/// `string.reverse` of one string gives its characters in the reverse
/// order, for strings of every length: the character at `i` of the result
/// is the one at `len - 1 - i` of the argument.
pub proof fn law_string_reverse(h: HostModel, s: Seq<char>)
    ensures
        pure_native(h, NativeFn::StringReverse, seq![SExpr::Str(s)]) matches Ok(SExpr::Str(r))
            && r.len() == s.len()
            && forall|i: int| 0 <= i < s.len() ==> r[i] == s[s.len() - 1 - i],
{
    assert(seq![SExpr::Str(s)][0] == SExpr::Str(s));
}

/// Every value but `false` and `nil` is true: `(if c a b)` with a string
/// (the empty one too), a number or `true` as its condition is `a`.
pub proof fn law_if_true_values(h: HostModel, d: nat, st: SState, env: nat, c: SExpr, a: SExpr, b: SExpr)
    requires
        c is Str || c is Number || c == SExpr::Bool(true),
    ensures
        ev(h, d, st, env, SExpr::List(seq![SExpr::Symbol("if"@), c, a, b])) == ev(h, d, st, env, a),
{
    law_if(h, d, st, env, c, a, b);
}

/// `(if c a b)` evaluates `c`, then `b` when its value is `false` or
/// `nil` and `a` for every other value; an error in `c` is the result.
pub proof fn law_if_chooses_by_value(h: HostModel, d: nat, st: SState, env: nat, c: SExpr, a: SExpr, b: SExpr)
    ensures
        ({
            let (st1, rc) = ev(h, d, st, env, c);
            ev(h, d, st, env, SExpr::List(seq![SExpr::Symbol("if"@), c, a, b])) == match rc {
                Err(e) => (st1, Err(e)),
                Ok(v) => if v == SExpr::Bool(false) || v == SExpr::Nil { ev(h, d, st1, env, b) } else { ev(h, d, st1, env, a) },
            }
        }),
{
    law_if(h, d, st, env, c, a, b);
}

/// `(if c a b)` with `false` or `nil` as its condition is `b`.
pub proof fn law_if_false_values(h: HostModel, d: nat, st: SState, env: nat, c: SExpr, a: SExpr, b: SExpr)
    requires
        c == SExpr::Bool(false) || c == SExpr::Nil,
    ensures
        ev(h, d, st, env, SExpr::List(seq![SExpr::Symbol("if"@), c, a, b])) == ev(h, d, st, env, b),
{
    law_if(h, d, st, env, c, a, b);
}

proof fn lemma_ev_args_numbers(h: HostModel, d: nat, st: SState, env: nat, items: Seq<SExpr>, k: int, acc: Seq<SExpr>)
    requires
        0 <= k <= items.len(),
        forall|i: int| k <= i < items.len() ==> items[i] is Number,
    ensures
        crate::eval::ev_args(h, d, st, env, items, k, acc) == (st, Ok::<Seq<SExpr>, SErr>(acc + items.subrange(k, items.len() as int))),
    decreases items.len() - k,
{
    if k < items.len() {
        assert(ev(h, d, st, env, items[k]) == (st, Ok::<SExpr, SErr>(items[k])));
        lemma_ev_args_numbers(h, d, st, env, items, k + 1, acc.push(items[k]));
        assert(acc.push(items[k]) + items.subrange(k + 1, items.len() as int) =~= acc + items.subrange(k, items.len() as int));
    } else {
        assert(acc + items.subrange(k, items.len() as int) =~= acc);
    }
}

/// Functions close over the environment they were made in: calling a
/// function value with arguments evaluates its body in a new frame that
/// binds each parameter to its argument and is enclosed by the function's
/// own environment `clos`, whatever the environment `env` of the call.
pub proof fn law_call_uses_closure(h: HostModel, d: nat, st: SState, env: nat, ps: Seq<Seq<char>>, body: SExpr, clos: nat, xs: Seq<u64>)
    requires
        ps.len() == xs.len(),
        d > 0,
    ensures
        ({
            let args = Seq::new(xs.len(), |i: int| SExpr::Number(xs[i]));
            let call = seq![SExpr::Function(ps, Box::new(body), clos)] + args;
            let frame = SFrame { bindings: Seq::new(ps.len(), |i: int| (ps[i], SExpr::Number(xs[i]))), outer: Some(clos) };
            ev(h, d, st, env, SExpr::List(call))
                == ev(h, (d - 1) as nat, SState { frames: st.frames.push(frame), ..st }, st.frames.len(), body)
        }),
{
    let args = Seq::new(xs.len(), |i: int| SExpr::Number(xs[i]));
    let f = SExpr::Function(ps, Box::new(body), clos);
    let call = seq![f] + args;
    assert(call[0] == f);
    assert(call.len() > 0);
    assert(forall|w: Seq<char>| !crate::eval::is_form(call, w));
    lemma_ev_args_numbers(h, d, st, env, call, 1, Seq::empty());
    assert(Seq::<SExpr>::empty() + call.subrange(1, call.len() as int) =~= args);
    assert(crate::eval::bind_params(ps, args) =~= Seq::new(ps.len(), |i: int| (ps[i], SExpr::Number(xs[i]))));
    assert(ev(h, d, st, env, f) == (st, Ok::<SExpr, SErr>(f)));
    assert(crate::eval::ev_list(h, d, st, env, call) == crate::eval::apply(h, d, st, f, args));
}

} // verus!
