//! The built-in (native) functions, the built-in modules, and the prelude.
//!
//! Numbers are binary64 values held as bit patterns; equality, order, zero tests and
//! negation work on the bits, and the host performs `+ - * /`.
use vstd::prelude::*;
use crate::ast::{Environment, Expr, LispModule, NativeFn, NativeFunction, SExpr, view_exprs, lemma_view_exprs};
use crate::env::{define_in, frame_of};
use crate::error::{LispError, SErr};
use crate::format::{decimal, decimal_string};
use crate::interp::{agrees, extends, ArithOp, Frame, Host, Interpreter, Request, SFrame, SState, reply_number, view_bindings};
use crate::show::{HostModel, debug_expr, lisp_string, lisp_strings, lemma_lisp_strings_step};
use crate::text::{char_is_whitespace, str_to_lowercase, str_to_uppercase};

verus! {

broadcast use crate::interp::group_log;

// ---------------------------------------------------------------------------
// binary64 values on their bits

/// The bits of the binary64 value 1.0.
pub open spec fn one_bits() -> u64 {
    0x3ff0_0000_0000_0000u64
}

/// The value is a NaN: all exponent bits set and a non-zero fraction.
pub open spec fn float_is_nan(b: u64) -> bool {
    (b & 0x7ff0_0000_0000_0000u64) == 0x7ff0_0000_0000_0000u64 && (b & 0x000f_ffff_ffff_ffffu64) != 0
}

/// The value is +0.0 or -0.0.
pub open spec fn float_is_zero(b: u64) -> bool {
    (b & 0x7fff_ffff_ffff_ffffu64) == 0
}

/// The negated value: the sign bit flipped.
pub open spec fn float_neg(b: u64) -> u64 {
    b ^ 0x8000_0000_0000_0000u64
}

/// IEEE-754 equality: no NaN is equal to anything, and +0.0 equals -0.0.
pub open spec fn float_eq(a: u64, b: u64) -> bool {
    !float_is_nan(a) && !float_is_nan(b) && (a == b || (float_is_zero(a) && float_is_zero(b)))
}

/// Where a value that is not a NaN stands in the order of the numbers: its
/// magnitude bits, negated when the sign bit is set (so -0.0 and +0.0 both
/// stand at 0, and the infinities at the ends).
pub open spec fn float_key(b: u64) -> int {
    let m = (b & 0x7fff_ffff_ffff_ffffu64) as int;
    if (b & 0x8000_0000_0000_0000u64) != 0 { -m } else { m }
}

/// IEEE-754 `a < b`: false when either is a NaN.
pub open spec fn float_lt(a: u64, b: u64) -> bool {
    !float_is_nan(a) && !float_is_nan(b) && float_key(a) < float_key(b)
}

/// IEEE-754 `a <= b`: false when either is a NaN.
pub open spec fn float_le(a: u64, b: u64) -> bool {
    !float_is_nan(a) && !float_is_nan(b) && float_key(a) <= float_key(b)
}

/// Whether `a` and `b` stand in the order that the comparison `f` tests.
pub open spec fn in_order(f: NativeFn, a: u64, b: u64) -> bool {
    match f {
        NativeFn::LessThan => float_lt(a, b),
        NativeFn::GreaterThan => float_lt(b, a),
        NativeFn::LessEqual => float_le(a, b),
        NativeFn::GreaterEqual => float_le(b, a),
        _ => false,
    }
}

/// Whether `f` is one of the comparisons `<`, `>`, `<=`, `>=`.
pub open spec fn is_comparison(f: NativeFn) -> bool {
    f is LessThan || f is GreaterThan || f is LessEqual || f is GreaterEqual
}

/// The name of a comparison.
pub open spec fn comparison_name(f: NativeFn) -> Seq<char> {
    match f {
        NativeFn::LessThan => "<"@,
        NativeFn::GreaterThan => ">"@,
        NativeFn::LessEqual => "<="@,
        _ => ">="@,
    }
}

fn float_key_exec(b: u64) -> (r: i128)
    ensures
        r == float_key(b),
{
    let m = (b & 0x7fff_ffff_ffff_ffffu64) as i128;
    if (b & 0x8000_0000_0000_0000u64) != 0 { -m } else { m }
}

pub fn numbers_in_order(f: NativeFn, a: u64, b: u64) -> (r: bool)
    ensures
        r == in_order(f, a, b),
{
    let ok = !is_nan(a) && !is_nan(b);
    let ka = float_key_exec(a);
    let kb = float_key_exec(b);
    match f {
        NativeFn::LessThan => ok && ka < kb,
        NativeFn::GreaterThan => ok && kb < ka,
        NativeFn::LessEqual => ok && ka <= kb,
        NativeFn::GreaterEqual => ok && kb <= ka,
        _ => false,
    }
}

pub fn is_nan(b: u64) -> (r: bool)
    ensures
        r == float_is_nan(b),
{
    (b & 0x7ff0_0000_0000_0000u64) == 0x7ff0_0000_0000_0000u64 && (b & 0x000f_ffff_ffff_ffffu64) != 0
}

pub fn is_zero(b: u64) -> (r: bool)
    ensures
        r == float_is_zero(b),
{
    (b & 0x7fff_ffff_ffff_ffffu64) == 0
}

pub fn numbers_equal(a: u64, b: u64) -> (r: bool)
    ensures
        r == float_eq(a, b),
{
    !is_nan(a) && !is_nan(b) && (a == b || (is_zero(a) && is_zero(b)))
}

// ---------------------------------------------------------------------------
// Specification of the native functions

pub open spec fn type_error(expected: Seq<char>, h: HostModel, found: SExpr) -> SErr {
    SErr::TypeError(expected, debug_expr(h, found))
}

/// `acc op args[k] op args[k+1] ...`, left to right; every argument must be a number.
pub open spec fn fold_arith(h: HostModel, op: ArithOp, acc: u64, args: Seq<SExpr>, k: int) -> Result<SExpr, SErr>
    decreases args.len() - k,
{
    if k < 0 || k >= args.len() {
        Ok(SExpr::Number(acc))
    } else {
        match args[k] {
            SExpr::Number(x) => fold_arith(h, op, reply_number(h(Request::Arith(op, acc, x))), args, k + 1),
            other => Err(type_error("Number"@, h, other)),
        }
    }
}

/// Division of `acc` by `args[k]`, `args[k+1]`, ...; a zero divisor is an error.
pub open spec fn fold_divide(h: HostModel, acc: u64, args: Seq<SExpr>, k: int) -> Result<SExpr, SErr>
    decreases args.len() - k,
{
    if k < 0 || k >= args.len() {
        Ok(SExpr::Number(acc))
    } else {
        match args[k] {
            SExpr::Number(x) => if float_is_zero(x) {
                Err(SErr::DivisionByZero("Division by zero in native '/' (argument "@ + decimal((k + 1) as nat) + ")"@))
            } else {
                fold_divide(h, reply_number(h(Request::Arith(ArithOp::Div, acc, x))), args, k + 1)
            },
            other => Err(type_error("Number"@, h, other)),
        }
    }
}

/// Whether `args[k..]` are all numbers equal to `x`; stops at the first that is not equal.
pub open spec fn fold_equal(h: HostModel, x: u64, args: Seq<SExpr>, k: int) -> Result<SExpr, SErr>
    decreases args.len() - k,
{
    if k < 0 || k >= args.len() {
        Ok(SExpr::Bool(true))
    } else {
        match args[k] {
            SExpr::Number(y) => if !float_eq(x, y) {
                Ok(SExpr::Bool(false))
            } else {
                fold_equal(h, x, args, k + 1)
            },
            other => Err(type_error("Number"@, h, other)),
        }
    }
}

/// Whether each of the numbers `args[k..]` stands in the order `f` to the
/// one before it, `x` coming before `args[k]`; stops at the first pair that
/// does not.
pub open spec fn fold_compare(h: HostModel, f: NativeFn, x: u64, args: Seq<SExpr>, k: int) -> Result<SExpr, SErr>
    decreases args.len() - k,
{
    if k < 0 || k >= args.len() {
        Ok(SExpr::Bool(true))
    } else {
        match args[k] {
            SExpr::Number(y) => if !in_order(f, x, y) {
                Ok(SExpr::Bool(false))
            } else {
                fold_compare(h, f, y, args, k + 1)
            },
            other => Err(type_error("Number"@, h, other)),
        }
    }
}

/// A comparison applied to its arguments: at least two numbers, each in
/// order with the one before it.
pub open spec fn compare_chain(h: HostModel, f: NativeFn, args: Seq<SExpr>) -> Result<SExpr, SErr> {
    if args.len() < 2 {
        Err(SErr::ArityMismatch(
            "Native '"@ + comparison_name(f) + "' expects at least 2 arguments for numeric comparison, got "@
                + decimal(args.len()),
        ))
    } else {
        match args[0] {
            SExpr::Number(x) => fold_compare(h, f, x, args, 1),
            other => Err(type_error("Number"@, h, other)),
        }
    }
}

/// The concatenation of `acc` and the strings `args[k..]`.
pub open spec fn fold_concat(h: HostModel, acc: Seq<char>, args: Seq<SExpr>, k: int) -> Result<SExpr, SErr>
    decreases args.len() - k,
{
    if k < 0 || k >= args.len() {
        Ok(SExpr::Str(acc))
    } else {
        match args[k] {
            SExpr::Str(s) => fold_concat(h, acc + s, args, k + 1),
            other => Err(type_error("String"@, h, other)),
        }
    }
}

pub open spec fn trim_start_chars(s: Seq<char>) -> Seq<char>
    decreases s.len(),
{
    if s.len() > 0 && char_is_whitespace(s[0]) {
        trim_start_chars(s.drop_first())
    } else {
        s
    }
}

pub open spec fn trim_end_chars(s: Seq<char>) -> Seq<char>
    decreases s.len(),
{
    if s.len() > 0 && char_is_whitespace(s.last()) {
        trim_end_chars(s.drop_last())
    } else {
        s
    }
}

/// The length in bytes of the UTF-8 encoding of `s` (as `str::len` gives it).
pub open spec fn byte_len(s: Seq<char>) -> u64 {
    (vstd::utf8::encode_utf8(s).len() as usize) as u64
}

/// `str::trim`: leading and trailing whitespace removed.
pub open spec fn trim_chars(s: Seq<char>) -> Seq<char> {
    trim_end_chars(trim_start_chars(s))
}

/// A string function of one string argument.
pub open spec fn unary_string(h: HostModel, name: Seq<char>, args: Seq<SExpr>, f: spec_fn(Seq<char>) -> SExpr) -> Result<SExpr, SErr> {
    if args.len() != 1 {
        Err(SErr::ArityMismatch(name + " expects 1 argument, got "@ + decimal(args.len())))
    } else {
        match args[0] {
            SExpr::Str(s) => Ok(f(s)),
            other => Err(type_error("String"@, h, other)),
        }
    }
}

/// The result of a native function that prints nothing.
pub open spec fn pure_native(h: HostModel, f: NativeFn, args: Seq<SExpr>) -> Result<SExpr, SErr> {
    match f {
        NativeFn::Add => if args.len() == 0 {
            Ok(SExpr::Number(0))
        } else {
            fold_arith(h, ArithOp::Add, 0, args, 0)
        },
        NativeFn::Multiply => if args.len() == 0 {
            Ok(SExpr::Number(one_bits()))
        } else {
            fold_arith(h, ArithOp::Mul, one_bits(), args, 0)
        },
        NativeFn::Subtract => if args.len() == 0 {
            Err(SErr::ArityMismatch("Native '-' expects at least 1 argument, got 0"@))
        } else {
            match args[0] {
                SExpr::Number(x) => if args.len() == 1 {
                    Ok(SExpr::Number(float_neg(x)))
                } else {
                    fold_arith(h, ArithOp::Sub, x, args, 1)
                },
                other => Err(type_error("Number"@, h, other)),
            }
        },
        NativeFn::Divide => if args.len() == 0 {
            Err(SErr::ArityMismatch("Native '/' expects at least 1 argument, got 0"@))
        } else {
            match args[0] {
                SExpr::Number(x) => if args.len() == 1 {
                    if float_is_zero(x) {
                        Err(SErr::DivisionByZero("Division by zero in native '/' (reciprocal of 0)"@))
                    } else {
                        Ok(SExpr::Number(reply_number(h(Request::Arith(ArithOp::Div, one_bits(), x)))))
                    }
                } else {
                    fold_divide(h, x, args, 1)
                },
                other => Err(type_error("Number"@, h, other)),
            }
        },
        NativeFn::Equals => if args.len() < 2 {
            Err(SErr::ArityMismatch(
                "Native '=' expects at least 2 arguments for numeric comparison, got "@ + decimal(args.len()),
            ))
        } else {
            match args[0] {
                SExpr::Number(x) => fold_equal(h, x, args, 1),
                other => Err(type_error("Number"@, h, other)),
            }
        },
        NativeFn::LessThan => compare_chain(h, f, args),
        NativeFn::GreaterThan => compare_chain(h, f, args),
        NativeFn::LessEqual => compare_chain(h, f, args),
        NativeFn::GreaterEqual => compare_chain(h, f, args),
        NativeFn::StringConcat => fold_concat(h, Seq::empty(), args, 0),
        NativeFn::StringReverse => unary_string(h, "string.reverse"@, args, |s: Seq<char>| SExpr::Str(s.reverse())),
        NativeFn::StringLen => unary_string(
            h,
            "string.len"@,
            args,
            |s: Seq<char>| SExpr::Number(reply_number(h(Request::IntToNumber(byte_len(s))))),
        ),
        NativeFn::StringToUpper => unary_string(h, "string.to-upper"@, args, |s: Seq<char>| SExpr::Str(str_to_uppercase(s))),
        NativeFn::StringToLower => unary_string(h, "string.to-lower"@, args, |s: Seq<char>| SExpr::Str(str_to_lowercase(s))),
        NativeFn::StringTrim => unary_string(h, "string.trim"@, args, |s: Seq<char>| SExpr::Str(trim_chars(s))),
        NativeFn::LogInfo => Ok(SExpr::Str(lisp_strings(h, args))),
        NativeFn::LogError => Ok(SExpr::Str(lisp_strings(h, args))),
    }
}

/// Applying a native function: its result, and the line that the `log`
/// functions print (to standard output for `info`, standard error for `error`).
pub open spec fn native(h: HostModel, st: SState, f: NativeFn, args: Seq<SExpr>) -> (SState, Result<SExpr, SErr>) {
    match f {
        NativeFn::LogInfo => (SState { printed: st.printed.push((false, lisp_strings(h, args))), ..st }, pure_native(h, f, args)),
        NativeFn::LogError => (SState { printed: st.printed.push((true, lisp_strings(h, args))), ..st }, pure_native(h, f, args)),
        _ => (st, pure_native(h, f, args)),
    }
}

// ---------------------------------------------------------------------------
// The native functions

pub open spec fn view_result(r: &Result<Expr, LispError>) -> Result<SExpr, SErr> {
    match r {
        Ok(e) => Ok(e@),
        Err(e) => Err(e@),
    }
}

proof fn lemma_trim_start_step(s: Seq<char>, i: int)
    requires
        0 <= i < s.len(),
        char_is_whitespace(s[i]),
    ensures
        trim_start_chars(s.subrange(i, s.len() as int)) == trim_start_chars(s.subrange(i + 1, s.len() as int)),
{
    assert(s.subrange(i, s.len() as int).drop_first() =~= s.subrange(i + 1, s.len() as int));
}

proof fn lemma_trim_end_step(s: Seq<char>, j: int)
    requires
        0 < j <= s.len(),
        char_is_whitespace(s[j - 1]),
    ensures
        trim_end_chars(s.subrange(0, j)) == trim_end_chars(s.subrange(0, j - 1)),
{
    assert(s.subrange(0, j).drop_last() =~= s.subrange(0, j - 1));
}

/// `str::trim` of the characters of `s`.
pub fn trim_string(s: &str) -> (r: String)
    ensures
        r@ == trim_chars(s@),
{
    let cs = crate::text::chars_of(s);
    let n = cs.len();
    let mut i: usize = 0;
    assert(cs@.subrange(0, n as int) =~= cs@);
    while i < n && crate::text::is_whitespace(cs[i])
        invariant
            i <= n == cs@.len(),
            cs@ == s@,
            trim_start_chars(cs@.subrange(i as int, n as int)) == trim_start_chars(s@),
        decreases n - i,
    {
        proof { lemma_trim_start_step(cs@, i as int); }
        i = i + 1;
    }
    let ghost t = cs@.subrange(i as int, n as int);
    assert(trim_start_chars(t) == t);
    let mut j: usize = n;
    assert(t.subrange(0, t.len() as int) =~= t);
    while j > i && crate::text::is_whitespace(cs[j - 1])
        invariant
            i <= j <= n == cs@.len(),
            t == cs@.subrange(i as int, n as int),
            trim_end_chars(t.subrange(0, j - i)) == trim_end_chars(t),
        decreases j,
    {
        proof {
            assert(t[j - i - 1] == cs@[j - 1]);
            lemma_trim_end_step(t, j - i);
        }
        j = j - 1;
    }
    let ghost u = t.subrange(0, j - i);
    assert(trim_end_chars(u) == u);
    assert(u =~= cs@.subrange(i as int, j as int));
    crate::text::string_from_chars(&cs, i, j)
}

/// The characters of `s` in reverse order.
pub fn reverse_string(s: &str) -> (r: String)
    ensures
        r@ == s@.reverse(),
{
    let cs = crate::text::chars_of(s);
    let n = cs.len();
    let mut r = String::new();
    let mut k: usize = 0;
    while k < n
        invariant
            k <= n == cs@.len(),
            cs@ == s@,
            r@ =~= Seq::new(k as nat, |i: int| cs@[n - 1 - i]),
        decreases n - k,
    {
        crate::text::push_char(&mut r, cs[n - 1 - k]);
        k = k + 1;
    }
    r
}

impl<H: Host> Interpreter<H> {
    /// A type error for an argument `found` where `expected` was needed.
    pub fn type_error_of(&mut self, expected: &str, found: &Expr) -> (r: LispError)
        ensures
            final(self).state() == old(self).state(),
            extends(final(self).log(), old(self).log()),
            forall|h: HostModel| agrees(h, final(self).log()) ==> r@ == #[trigger] type_error(expected@, h, found@),
    {
        let d = self.debug_expr_exec(found);
        LispError::TypeError { expected: String::from_str(expected), found: d }
    }

    fn native_fold_arith(&mut self, op: ArithOp, acc0: u64, args: &Vec<Expr>, k0: usize) -> (r: Result<Expr, LispError>)
        requires
            k0 <= args@.len(),
        ensures
            final(self).state() == old(self).state(),
            extends(final(self).log(), old(self).log()),
            forall|h: HostModel| agrees(h, final(self).log()) ==> view_result(&r) == #[trigger] fold_arith(h, op, acc0, view_exprs(args@), k0 as int),
    {
        let ghost va = view_exprs(args@);
        proof { lemma_view_exprs(args@); }
        let mut acc = acc0;
        let mut k = k0;
        let ghost log0 = self.log();
        let ghost st0 = self.state();
        while k < args.len()
            invariant
                k0 <= k <= args@.len(),
                va == view_exprs(args@),
                va.len() == args@.len(),
                forall|i: int| 0 <= i < args@.len() ==> #[trigger] va[i] == args@[i]@,
                self.state() == st0,
                extends(self.log(), log0),
                st0 == old(self).state(),
                log0 == old(self).log(),
                forall|h: HostModel| agrees(h, self.log()) ==> #[trigger] fold_arith(h, op, acc, va, k as int) == fold_arith(h, op, acc0, va, k0 as int),
            decreases args@.len() - k,
        {
            let ghost l0 = self.log();
            match &args[k] {
                Expr::Number(x) => {
                    let a2 = self.ask_arith(op, acc, *x);
                    proof {
                        assert(va[k as int] == SExpr::Number(*x));
                        assert forall|h: HostModel| agrees(h, self.log()) implies #[trigger] fold_arith(h, op, a2, va, k + 1) == fold_arith(h, op, acc0, va, k0 as int) by {
                            assert(agrees(h, l0));
                            assert(fold_arith(h, op, acc, va, k as int) == fold_arith(h, op, a2, va, k + 1));
                        }
                    }
                    acc = a2;
                    k = k + 1;
                },
                other => {
                    let e = self.type_error_of("Number", other);
                    proof {
                        assert forall|h: HostModel| agrees(h, self.log()) implies view_result(&Err(e)) == #[trigger] fold_arith(h, op, acc0, va, k0 as int) by {
                            assert(agrees(h, l0));
                            assert(fold_arith(h, op, acc, va, k as int) == Err::<SExpr, SErr>(type_error("Number"@, h, va[k as int])));
                        }
                    }
                    return Err(e);
                },
            }
        }
        proof {
            assert forall|h: HostModel| agrees(h, self.log()) implies view_result(&Ok(Expr::Number(acc))) == #[trigger] fold_arith(h, op, acc0, va, k0 as int) by {
                assert(fold_arith(h, op, acc, va, k as int) == Ok::<SExpr, SErr>(SExpr::Number(acc)));
            }
        }
        Ok(Expr::Number(acc))
    }

    fn native_fold_divide(&mut self, acc0: u64, args: &Vec<Expr>, k0: usize) -> (r: Result<Expr, LispError>)
        requires
            k0 <= args@.len(),
        ensures
            final(self).state() == old(self).state(),
            extends(final(self).log(), old(self).log()),
            forall|h: HostModel| agrees(h, final(self).log()) ==> view_result(&r) == #[trigger] fold_divide(h, acc0, view_exprs(args@), k0 as int),
    {
        let ghost va = view_exprs(args@);
        proof { lemma_view_exprs(args@); }
        let mut acc = acc0;
        let mut k = k0;
        let ghost log0 = self.log();
        let ghost st0 = self.state();
        while k < args.len()
            invariant
                k0 <= k <= args@.len(),
                va == view_exprs(args@),
                va.len() == args@.len(),
                forall|i: int| 0 <= i < args@.len() ==> #[trigger] va[i] == args@[i]@,
                self.state() == st0,
                extends(self.log(), log0),
                st0 == old(self).state(),
                log0 == old(self).log(),
                forall|h: HostModel| agrees(h, self.log()) ==> #[trigger] fold_divide(h, acc, va, k as int) == fold_divide(h, acc0, va, k0 as int),
            decreases args@.len() - k,
        {
            let ghost l0 = self.log();
            match &args[k] {
                Expr::Number(x) => {
                    if is_zero(*x) {
                        let num = decimal_string(k + 1);
                        let mut m = String::from_str("Division by zero in native '/' (argument ");
                        m.append(num.as_str());
                        m.append(")");
                        proof {
                            assert(va[k as int] == SExpr::Number(*x));
                            assert forall|h: HostModel| agrees(h, self.log()) implies view_result(&Err(LispError::DivisionByZero(m))) == #[trigger] fold_divide(h, acc0, va, k0 as int) by {
                                assert(agrees(h, l0));
                                assert(fold_divide(h, acc, va, k as int) == Err::<SExpr, SErr>(SErr::DivisionByZero(m@)));
                            }
                        }
                        return Err(LispError::DivisionByZero(m));
                    }
                    let a2 = self.ask_arith(ArithOp::Div, acc, *x);
                    proof {
                        assert(va[k as int] == SExpr::Number(*x));
                        assert forall|h: HostModel| agrees(h, self.log()) implies #[trigger] fold_divide(h, a2, va, k + 1) == fold_divide(h, acc0, va, k0 as int) by {
                            assert(agrees(h, l0));
                            assert(fold_divide(h, acc, va, k as int) == fold_divide(h, a2, va, k + 1));
                        }
                    }
                    acc = a2;
                    k = k + 1;
                },
                other => {
                    let e = self.type_error_of("Number", other);
                    proof {
                        assert forall|h: HostModel| agrees(h, self.log()) implies view_result(&Err(e)) == #[trigger] fold_divide(h, acc0, va, k0 as int) by {
                            assert(agrees(h, l0));
                            assert(fold_divide(h, acc, va, k as int) == Err::<SExpr, SErr>(type_error("Number"@, h, va[k as int])));
                        }
                    }
                    return Err(e);
                },
            }
        }
        proof {
            assert forall|h: HostModel| agrees(h, self.log()) implies view_result(&Ok(Expr::Number(acc))) == #[trigger] fold_divide(h, acc0, va, k0 as int) by {
                assert(fold_divide(h, acc, va, k as int) == Ok::<SExpr, SErr>(SExpr::Number(acc)));
            }
        }
        Ok(Expr::Number(acc))
    }

    fn native_fold_equal(&mut self, x: u64, args: &Vec<Expr>, k0: usize) -> (r: Result<Expr, LispError>)
        requires
            k0 <= args@.len(),
        ensures
            final(self).state() == old(self).state(),
            extends(final(self).log(), old(self).log()),
            forall|h: HostModel| agrees(h, final(self).log()) ==> view_result(&r) == #[trigger] fold_equal(h, x, view_exprs(args@), k0 as int),
    {
        let ghost va = view_exprs(args@);
        proof { lemma_view_exprs(args@); }
        let mut k = k0;
        let ghost log0 = self.log();
        let ghost st0 = self.state();
        while k < args.len()
            invariant
                k0 <= k <= args@.len(),
                va == view_exprs(args@),
                va.len() == args@.len(),
                forall|i: int| 0 <= i < args@.len() ==> #[trigger] va[i] == args@[i]@,
                self.state() == st0,
                self.log() == log0,
                st0 == old(self).state(),
                log0 == old(self).log(),
                forall|h: HostModel| #[trigger] fold_equal(h, x, va, k as int) == fold_equal(h, x, va, k0 as int),
            decreases args@.len() - k,
        {
            match &args[k] {
                Expr::Number(y) => {
                    proof { assert(va[k as int] == SExpr::Number(*y)); }
                    if !numbers_equal(x, *y) {
                        proof {
                            assert forall|h: HostModel| agrees(h, self.log()) implies view_result(&Ok(Expr::Bool(false))) == #[trigger] fold_equal(h, x, va, k0 as int) by {
                                assert(fold_equal(h, x, va, k as int) == Ok::<SExpr, SErr>(SExpr::Bool(false)));
                            }
                        }
                        return Ok(Expr::Bool(false));
                    }
                    proof {
                        assert forall|h: HostModel| #[trigger] fold_equal(h, x, va, k + 1) == fold_equal(h, x, va, k0 as int) by {
                            assert(fold_equal(h, x, va, k as int) == fold_equal(h, x, va, k + 1));
                        }
                    }
                    k = k + 1;
                },
                other => {
                    let e = self.type_error_of("Number", other);
                    proof {
                        assert forall|h: HostModel| agrees(h, self.log()) implies view_result(&Err(e)) == #[trigger] fold_equal(h, x, va, k0 as int) by {
                            assert(fold_equal(h, x, va, k as int) == Err::<SExpr, SErr>(type_error("Number"@, h, va[k as int])));
                        }
                    }
                    return Err(e);
                },
            }
        }
        proof {
            assert forall|h: HostModel| agrees(h, self.log()) implies view_result(&Ok(Expr::Bool(true))) == #[trigger] fold_equal(h, x, va, k0 as int) by {
                assert(fold_equal(h, x, va, k as int) == Ok::<SExpr, SErr>(SExpr::Bool(true)));
            }
        }
        Ok(Expr::Bool(true))
    }

    fn native_fold_compare(&mut self, f: NativeFn, x0: u64, args: &Vec<Expr>, k0: usize) -> (r: Result<Expr, LispError>)
        requires
            k0 <= args@.len(),
        ensures
            final(self).state() == old(self).state(),
            extends(final(self).log(), old(self).log()),
            forall|h: HostModel| agrees(h, final(self).log()) ==> view_result(&r) == #[trigger] fold_compare(h, f, x0, view_exprs(args@), k0 as int),
    {
        let ghost va = view_exprs(args@);
        proof { lemma_view_exprs(args@); }
        let mut k = k0;
        let mut x = x0;
        let ghost log0 = self.log();
        let ghost st0 = self.state();
        while k < args.len()
            invariant
                k0 <= k <= args@.len(),
                va == view_exprs(args@),
                va.len() == args@.len(),
                forall|i: int| 0 <= i < args@.len() ==> #[trigger] va[i] == args@[i]@,
                self.state() == st0,
                self.log() == log0,
                st0 == old(self).state(),
                log0 == old(self).log(),
                forall|h: HostModel| #[trigger] fold_compare(h, f, x, va, k as int) == fold_compare(h, f, x0, va, k0 as int),
            decreases args@.len() - k,
        {
            match &args[k] {
                Expr::Number(y) => {
                    proof { assert(va[k as int] == SExpr::Number(*y)); }
                    if !numbers_in_order(f, x, *y) {
                        proof {
                            assert forall|h: HostModel| agrees(h, self.log()) implies view_result(&Ok(Expr::Bool(false))) == #[trigger] fold_compare(h, f, x0, va, k0 as int) by {
                                assert(fold_compare(h, f, x, va, k as int) == Ok::<SExpr, SErr>(SExpr::Bool(false)));
                            }
                        }
                        return Ok(Expr::Bool(false));
                    }
                    proof {
                        assert forall|h: HostModel| #[trigger] fold_compare(h, f, *y, va, k + 1) == fold_compare(h, f, x0, va, k0 as int) by {
                            assert(fold_compare(h, f, x, va, k as int) == fold_compare(h, f, *y, va, k + 1));
                        }
                    }
                    x = *y;
                    k = k + 1;
                },
                other => {
                    let e = self.type_error_of("Number", other);
                    proof {
                        assert forall|h: HostModel| agrees(h, self.log()) implies view_result(&Err(e)) == #[trigger] fold_compare(h, f, x0, va, k0 as int) by {
                            assert(fold_compare(h, f, x, va, k as int) == Err::<SExpr, SErr>(type_error("Number"@, h, va[k as int])));
                        }
                    }
                    return Err(e);
                },
            }
        }
        proof {
            assert forall|h: HostModel| agrees(h, self.log()) implies view_result(&Ok(Expr::Bool(true))) == #[trigger] fold_compare(h, f, x0, va, k0 as int) by {
                assert(fold_compare(h, f, x, va, k as int) == Ok::<SExpr, SErr>(SExpr::Bool(true)));
            }
        }
        Ok(Expr::Bool(true))
    }

    fn native_concat(&mut self, args: &Vec<Expr>) -> (r: Result<Expr, LispError>)
        ensures
            final(self).state() == old(self).state(),
            extends(final(self).log(), old(self).log()),
            forall|h: HostModel| agrees(h, final(self).log()) ==> view_result(&r) == #[trigger] fold_concat(h, Seq::empty(), view_exprs(args@), 0),
    {
        let ghost va = view_exprs(args@);
        proof { lemma_view_exprs(args@); }
        let mut acc = String::new();
        let mut k: usize = 0;
        let ghost log0 = self.log();
        let ghost st0 = self.state();
        while k < args.len()
            invariant
                k <= args@.len(),
                va == view_exprs(args@),
                va.len() == args@.len(),
                forall|i: int| 0 <= i < args@.len() ==> #[trigger] va[i] == args@[i]@,
                self.state() == st0,
                self.log() == log0,
                st0 == old(self).state(),
                log0 == old(self).log(),
                forall|h: HostModel| #[trigger] fold_concat(h, acc@, va, k as int) == fold_concat(h, Seq::empty(), va, 0),
            decreases args@.len() - k,
        {
            match &args[k] {
                Expr::String(t) => {
                    let ghost a0 = acc@;
                    acc.append(t.as_str());
                    proof {
                        assert(va[k as int] == SExpr::Str(t@));
                        assert forall|h: HostModel| #[trigger] fold_concat(h, acc@, va, k + 1) == fold_concat(h, Seq::empty(), va, 0) by {
                            assert(fold_concat(h, a0, va, k as int) == fold_concat(h, acc@, va, k + 1));
                        }
                    }
                    k = k + 1;
                },
                other => {
                    let e = self.type_error_of("String", other);
                    proof {
                        assert forall|h: HostModel| agrees(h, self.log()) implies view_result(&Err(e)) == #[trigger] fold_concat(h, Seq::empty(), va, 0) by {
                            assert(fold_concat(h, acc@, va, k as int) == Err::<SExpr, SErr>(type_error("String"@, h, va[k as int])));
                        }
                    }
                    return Err(e);
                },
            }
        }
        proof {
            assert forall|h: HostModel| agrees(h, self.log()) implies view_result(&Ok(Expr::String(acc))) == #[trigger] fold_concat(h, Seq::empty(), va, 0) by {
                assert(fold_concat(h, acc@, va, k as int) == Ok::<SExpr, SErr>(SExpr::Str(acc@)));
            }
        }
        Ok(Expr::String(acc))
    }

    /// The arity error of a string function of one argument.
    fn unary_arity_error(name: &str, got: usize) -> (r: LispError)
        ensures
            r@ == SErr::ArityMismatch(name@ + " expects 1 argument, got "@ + decimal(got as nat)),
    {
        let mut m = String::from_str(name);
        m.append(" expects 1 argument, got ");
        let d = decimal_string(got);
        m.append(d.as_str());
        LispError::ArityMismatch(m)
    }

    /// A string function of one string argument.
    fn native_unary_string(&mut self, f: NativeFn, args: &Vec<Expr>) -> (r: Result<Expr, LispError>)
        requires
            f is StringReverse || f is StringLen || f is StringToUpper || f is StringToLower || f is StringTrim,
        ensures
            final(self).state() == old(self).state(),
            extends(final(self).log(), old(self).log()),
            forall|h: HostModel| agrees(h, final(self).log()) ==> view_result(&r) == #[trigger] pure_native(h, f, view_exprs(args@)),
    {
        proof {
            lemma_view_exprs(args@);
            reveal_strlit("string.reverse");
            reveal_strlit("string.len");
            reveal_strlit("string.to-upper");
            reveal_strlit("string.to-lower");
            reveal_strlit("string.trim");
        }
        let ghost va = view_exprs(args@);
        let name = match f {
            NativeFn::StringReverse => "string.reverse",
            NativeFn::StringLen => "string.len",
            NativeFn::StringToUpper => "string.to-upper",
            NativeFn::StringToLower => "string.to-lower",
            _ => "string.trim",
        };
        if args.len() != 1 {
            let e = Self::unary_arity_error(name, args.len());
            return Err(e);
        }
        match &args[0] {
            Expr::String(t) => {
                assert(va[0] == SExpr::Str(t@));
                let r = match f {
                    NativeFn::StringReverse => Expr::String(reverse_string(t.as_str())),
                    NativeFn::StringLen => {
                        let n = t.as_str().len();
                        let bits = self.ask_int_to_number(n as u64);
                        proof {
                            assert forall|h: HostModel| agrees(h, self.log()) implies #[trigger] pure_native(h, f, va) == Ok::<SExpr, SErr>(SExpr::Number(bits)) by {
                                assert(h(Request::IntToNumber(n as u64)) == crate::interp::Reply::Number(bits));
                            }
                        }
                        Expr::Number(bits)
                    },
                    NativeFn::StringToUpper => Expr::String(crate::text::to_uppercase(t.as_str())),
                    NativeFn::StringToLower => Expr::String(crate::text::to_lowercase(t.as_str())),
                    _ => Expr::String(trim_string(t.as_str())),
                };
                assert(forall|h: HostModel| agrees(h, self.log()) ==> view_result(&Ok(r)) == #[trigger] pure_native(h, f, va));
                Ok(r)
            },
            other => {
                let e = self.type_error_of("String", other);
                Err(e)
            },
        }
    }

    /// The plain forms of the values, separated by single spaces.
    pub fn lisp_strings_exec(&mut self, args: &Vec<Expr>) -> (r: String)
        ensures
            final(self).state() == old(self).state(),
            extends(final(self).log(), old(self).log()),
            forall|h: HostModel| agrees(h, final(self).log()) ==> r@ == #[trigger] lisp_strings(h, view_exprs(args@)),
    {
        let ghost items = view_exprs(args@);
        proof { lemma_view_exprs(args@); }
        let mut r = String::new();
        let mut i: usize = 0;
        let ghost log0 = self.log();
        let ghost st0 = self.state();
        while i < args.len()
            invariant
                i <= args@.len(),
                items == view_exprs(args@),
                items.len() == args@.len(),
                forall|k: int| 0 <= k < args@.len() ==> #[trigger] items[k] == args@[k]@,
                self.state() == st0,
                extends(self.log(), log0),
                st0 == old(self).state(),
                log0 == old(self).log(),
                forall|h: HostModel| agrees(h, self.log()) ==> r@ == #[trigger] lisp_strings(h, items.take(i as int)),
            decreases args@.len() - i,
        {
            let ghost l0 = self.log();
            let ghost r0 = r@;
            if i > 0 {
                r.append(" ");
            }
            let d = self.lisp_string_exec(&args[i]);
            r.append(d.as_str());
            proof {
                assert forall|h: HostModel| agrees(h, self.log()) implies r@ == #[trigger] lisp_strings(h, items.take(i + 1)) by {
                    lemma_lisp_strings_step(h, items, i as int);
                    assert(agrees(h, l0));
                    assert(r0 == lisp_strings(h, items.take(i as int)));
                    assert(d@ == lisp_string(h, args@[i as int]@));
                }
            }
            i = i + 1;
        }
        proof {
            assert(items.take(args@.len() as int) =~= items);
        }
        r
    }

    /// Prints the plain forms of the values, space-separated, as one line
    /// (to standard error when `to_stderr` is set) and returns that line.
    fn log_message(&mut self, to_stderr: bool, args: &Vec<Expr>) -> (r: Result<Expr, LispError>)
        ensures
            extends(final(self).log(), old(self).log()),
            forall|h: HostModel| agrees(h, final(self).log()) ==> final(self).state() == (SState {
                printed: old(self).state().printed.push((to_stderr, #[trigger] lisp_strings(h, view_exprs(args@)))),
                ..old(self).state()
            }),
            forall|h: HostModel| agrees(h, final(self).log()) ==> view_result(&r) == Ok::<SExpr, SErr>(SExpr::Str(#[trigger] lisp_strings(h, view_exprs(args@)))),
    {
        let line = self.lisp_strings_exec(args);
        self.ask_print(to_stderr, line.as_str());
        Ok(Expr::String(line))
    }
}

/// `+`: the sum of the numbers (0 for none).
pub fn native_add<H: Host>(interp: &mut Interpreter<H>, args: Vec<Expr>) -> (r: Result<Expr, LispError>)
    ensures
        extends(final(interp).log(), old(interp).log()),
        forall|h: HostModel| agrees(h, final(interp).log()) ==> (final(interp).state(), view_result(&r)) == #[trigger] native(h, old(interp).state(), NativeFn::Add, view_exprs(args@)),
{
    if args.len() == 0 {
        return Ok(Expr::Number(0));
    }
    interp.native_fold_arith(ArithOp::Add, 0, &args, 0)
}

/// `*`: the product of the numbers (1 for none).
pub fn native_multiply<H: Host>(interp: &mut Interpreter<H>, args: Vec<Expr>) -> (r: Result<Expr, LispError>)
    ensures
        extends(final(interp).log(), old(interp).log()),
        forall|h: HostModel| agrees(h, final(interp).log()) ==> (final(interp).state(), view_result(&r)) == #[trigger] native(h, old(interp).state(), NativeFn::Multiply, view_exprs(args@)),
{
    if args.len() == 0 {
        return Ok(Expr::Number(0x3ff0_0000_0000_0000u64));
    }
    interp.native_fold_arith(ArithOp::Mul, 0x3ff0_0000_0000_0000u64, &args, 0)
}

/// `-`: negation of one number, or the first minus the others.
pub fn native_subtract<H: Host>(interp: &mut Interpreter<H>, args: Vec<Expr>) -> (r: Result<Expr, LispError>)
    ensures
        extends(final(interp).log(), old(interp).log()),
        forall|h: HostModel| agrees(h, final(interp).log()) ==> (final(interp).state(), view_result(&r)) == #[trigger] native(h, old(interp).state(), NativeFn::Subtract, view_exprs(args@)),
{
    proof { lemma_view_exprs(args@); }
    if args.len() == 0 {
        return Err(LispError::ArityMismatch(String::from_str("Native '-' expects at least 1 argument, got 0")));
    }
    match &args[0] {
        Expr::Number(x) => {
            if args.len() == 1 {
                Ok(Expr::Number(*x ^ 0x8000_0000_0000_0000u64))
            } else {
                interp.native_fold_arith(ArithOp::Sub, *x, &args, 1)
            }
        },
        other => {
            let e = interp.type_error_of("Number", other);
            Err(e)
        },
    }
}

/// `/`: reciprocal of one number, or the first divided by the others;
/// a zero divisor is an error.
pub fn native_divide<H: Host>(interp: &mut Interpreter<H>, args: Vec<Expr>) -> (r: Result<Expr, LispError>)
    ensures
        extends(final(interp).log(), old(interp).log()),
        forall|h: HostModel| agrees(h, final(interp).log()) ==> (final(interp).state(), view_result(&r)) == #[trigger] native(h, old(interp).state(), NativeFn::Divide, view_exprs(args@)),
{
    proof { lemma_view_exprs(args@); }
    if args.len() == 0 {
        return Err(LispError::ArityMismatch(String::from_str("Native '/' expects at least 1 argument, got 0")));
    }
    match &args[0] {
        Expr::Number(x) => {
            if args.len() == 1 {
                if is_zero(*x) {
                    return Err(LispError::DivisionByZero(String::from_str("Division by zero in native '/' (reciprocal of 0)")));
                }
                let q = interp.ask_arith(ArithOp::Div, 0x3ff0_0000_0000_0000u64, *x);
                Ok(Expr::Number(q))
            } else {
                interp.native_fold_divide(*x, &args, 1)
            }
        },
        other => {
            let e = interp.type_error_of("Number", other);
            Err(e)
        },
    }
}

/// `=`: whether all (at least two) numbers are equal.
pub fn native_equals<H: Host>(interp: &mut Interpreter<H>, args: Vec<Expr>) -> (r: Result<Expr, LispError>)
    ensures
        extends(final(interp).log(), old(interp).log()),
        forall|h: HostModel| agrees(h, final(interp).log()) ==> (final(interp).state(), view_result(&r)) == #[trigger] native(h, old(interp).state(), NativeFn::Equals, view_exprs(args@)),
{
    proof { lemma_view_exprs(args@); }
    if args.len() < 2 {
        let mut m = String::from_str("Native '=' expects at least 2 arguments for numeric comparison, got ");
        let d = decimal_string(args.len());
        m.append(d.as_str());
        return Err(LispError::ArityMismatch(m));
    }
    match &args[0] {
        Expr::Number(x) => interp.native_fold_equal(*x, &args, 1),
        other => {
            let e = interp.type_error_of("Number", other);
            Err(e)
        },
    }
}

/// `log/info`: prints the values on standard output and returns the line.
pub fn native_log_info<H: Host>(interp: &mut Interpreter<H>, args: Vec<Expr>) -> (r: Result<Expr, LispError>)
    ensures
        extends(final(interp).log(), old(interp).log()),
        forall|h: HostModel| agrees(h, final(interp).log()) ==> (final(interp).state(), view_result(&r)) == #[trigger] native(h, old(interp).state(), NativeFn::LogInfo, view_exprs(args@)),
{
    interp.log_message(false, &args)
}

/// `log/error`: prints the values on standard error and returns the line.
pub fn native_log_error<H: Host>(interp: &mut Interpreter<H>, args: Vec<Expr>) -> (r: Result<Expr, LispError>)
    ensures
        extends(final(interp).log(), old(interp).log()),
        forall|h: HostModel| agrees(h, final(interp).log()) ==> (final(interp).state(), view_result(&r)) == #[trigger] native(h, old(interp).state(), NativeFn::LogError, view_exprs(args@)),
{
    interp.log_message(true, &args)
}

fn comparison_name_exec(f: NativeFn) -> (r: &'static str)
    requires
        is_comparison(f),
    ensures
        r@ == comparison_name(f),
{
    match f {
        NativeFn::LessThan => "<",
        NativeFn::GreaterThan => ">",
        NativeFn::LessEqual => "<=",
        _ => ">=",
    }
}

/// A comparison `<`, `>`, `<=` or `>=` of numbers: at least two arguments,
/// each in that order with the one before it.
fn native_compare<H: Host>(interp: &mut Interpreter<H>, f: NativeFn, args: Vec<Expr>) -> (r: Result<Expr, LispError>)
    requires
        is_comparison(f),
    ensures
        extends(final(interp).log(), old(interp).log()),
        forall|h: HostModel| agrees(h, final(interp).log()) ==> (final(interp).state(), view_result(&r)) == #[trigger] native(h, old(interp).state(), f, view_exprs(args@)),
{
    proof { lemma_view_exprs(args@); }
    if args.len() < 2 {
        let mut m = String::from_str("Native '");
        m.append(comparison_name_exec(f));
        m.append("' expects at least 2 arguments for numeric comparison, got ");
        let d = decimal_string(args.len());
        m.append(d.as_str());
        return Err(LispError::ArityMismatch(m));
    }
    match &args[0] {
        Expr::Number(x) => interp.native_fold_compare(f, *x, &args, 1),
        other => {
            let e = interp.type_error_of("Number", other);
            Err(e)
        },
    }
}

/// `(< a b ...)`: whether each number is less than the next.
pub fn native_less_than<H: Host>(interp: &mut Interpreter<H>, args: Vec<Expr>) -> (r: Result<Expr, LispError>)
    ensures
        extends(final(interp).log(), old(interp).log()),
        forall|h: HostModel| agrees(h, final(interp).log()) ==> (final(interp).state(), view_result(&r)) == #[trigger] native(h, old(interp).state(), NativeFn::LessThan, view_exprs(args@)),
{
    native_compare(interp, NativeFn::LessThan, args)
}

/// `(> a b ...)`: whether each number is greater than the next.
pub fn native_greater_than<H: Host>(interp: &mut Interpreter<H>, args: Vec<Expr>) -> (r: Result<Expr, LispError>)
    ensures
        extends(final(interp).log(), old(interp).log()),
        forall|h: HostModel| agrees(h, final(interp).log()) ==> (final(interp).state(), view_result(&r)) == #[trigger] native(h, old(interp).state(), NativeFn::GreaterThan, view_exprs(args@)),
{
    native_compare(interp, NativeFn::GreaterThan, args)
}

/// `(<= a b ...)`: whether each number is at most the next.
pub fn native_less_than_or_equal<H: Host>(interp: &mut Interpreter<H>, args: Vec<Expr>) -> (r: Result<Expr, LispError>)
    ensures
        extends(final(interp).log(), old(interp).log()),
        forall|h: HostModel| agrees(h, final(interp).log()) ==> (final(interp).state(), view_result(&r)) == #[trigger] native(h, old(interp).state(), NativeFn::LessEqual, view_exprs(args@)),
{
    native_compare(interp, NativeFn::LessEqual, args)
}

/// `(>= a b ...)`: whether each number is at least the next.
pub fn native_greater_than_or_equal<H: Host>(interp: &mut Interpreter<H>, args: Vec<Expr>) -> (r: Result<Expr, LispError>)
    ensures
        extends(final(interp).log(), old(interp).log()),
        forall|h: HostModel| agrees(h, final(interp).log()) ==> (final(interp).state(), view_result(&r)) == #[trigger] native(h, old(interp).state(), NativeFn::GreaterEqual, view_exprs(args@)),
{
    native_compare(interp, NativeFn::GreaterEqual, args)
}

/// Applies the native function `f` to the arguments.
pub fn call_native<H: Host>(interp: &mut Interpreter<H>, f: NativeFn, args: Vec<Expr>) -> (r: Result<Expr, LispError>)
    ensures
        extends(final(interp).log(), old(interp).log()),
        forall|h: HostModel| agrees(h, final(interp).log()) ==> (final(interp).state(), view_result(&r)) == #[trigger] native(h, old(interp).state(), f, view_exprs(args@)),
{
    match f {
        NativeFn::Add => native_add(interp, args),
        NativeFn::Multiply => native_multiply(interp, args),
        NativeFn::Subtract => native_subtract(interp, args),
        NativeFn::Divide => native_divide(interp, args),
        NativeFn::Equals => native_equals(interp, args),
        NativeFn::LessThan => native_less_than(interp, args),
        NativeFn::GreaterThan => native_greater_than(interp, args),
        NativeFn::LessEqual => native_less_than_or_equal(interp, args),
        NativeFn::GreaterEqual => native_greater_than_or_equal(interp, args),
        NativeFn::LogInfo => native_log_info(interp, args),
        NativeFn::LogError => native_log_error(interp, args),
        NativeFn::StringConcat => interp.native_concat(&args),
        _ => interp.native_unary_string(f, &args),
    }
}

} // verus!
