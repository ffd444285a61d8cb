//! The built-in modules (`math`, `log`, `string`, `list`) and the prelude:
//! the root environment that binds them, with the arithmetic shorthands and
//! the comparisons.
use vstd::prelude::*;
use crate::ast::{Environment, Expr, LispModule, NativeFn, NativeFunction, SExpr};
use crate::env::frame_of;
use crate::interp::{Frame, Host, Interpreter, SFrame, SState, view_bindings};

verus! {

/// The binding of `key` to the native function `f` named `name`.
pub open spec fn native_binding(key: Seq<char>, name: Seq<char>, f: NativeFn) -> (Seq<char>, SExpr) {
    (key, SExpr::Native(name, f))
}

/// The members of the `math` module.
pub open spec fn math_bindings() -> Seq<(Seq<char>, SExpr)> {
    seq![
        native_binding("+"@, "+"@, NativeFn::Add),
        native_binding("="@, "="@, NativeFn::Equals),
        native_binding("*"@, "*"@, NativeFn::Multiply),
        native_binding("-"@, "-"@, NativeFn::Subtract),
        native_binding("/"@, "/"@, NativeFn::Divide),
    ]
}

/// The members of the `log` module.
pub open spec fn log_bindings() -> Seq<(Seq<char>, SExpr)> {
    seq![
        native_binding("info"@, "info"@, NativeFn::LogInfo),
        native_binding("error"@, "error"@, NativeFn::LogError),
    ]
}

/// The members of the `string` module.
pub open spec fn string_bindings() -> Seq<(Seq<char>, SExpr)> {
    seq![
        native_binding("concat"@, "string.concat"@, NativeFn::StringConcat),
        native_binding("reverse"@, "string.reverse"@, NativeFn::StringReverse),
        native_binding("len"@, "string.len"@, NativeFn::StringLen),
        native_binding("to-upper"@, "string.to-upper"@, NativeFn::StringToUpper),
        native_binding("to-lower"@, "string.to-lower"@, NativeFn::StringToLower),
        native_binding("trim"@, "string.trim"@, NativeFn::StringTrim),
    ]
}

/// The built-in modules.
#[derive(Debug, Clone, Copy, PartialEq, Eq)]
pub enum Builtin {
    Math,
    Log,
    Str,
    List,
}

/// The built-in module that `require` gives for `name`, if any.
pub open spec fn builtin_named(name: Seq<char>) -> Option<Builtin> {
    if name == "math"@ {
        Some(Builtin::Math)
    } else if name == "log"@ {
        Some(Builtin::Log)
    } else if name == "string"@ {
        Some(Builtin::Str)
    } else if name == "list"@ {
        Some(Builtin::List)
    } else {
        None
    }
}

/// The members of a built-in module.
pub open spec fn builtin_bindings(b: Builtin) -> Seq<(Seq<char>, SExpr)> {
    match b {
        Builtin::Math => math_bindings(),
        Builtin::Log => log_bindings(),
        Builtin::Str => string_bindings(),
        Builtin::List => Seq::empty(),
    }
}

/// The path recorded in a built-in module.
pub open spec fn builtin_path(b: Builtin) -> Seq<char> {
    match b {
        Builtin::Math => "builtin:math"@,
        Builtin::Log => "builtin:log"@,
        Builtin::Str => "builtin:string"@,
        Builtin::List => "<builtin_list_module>"@,
    }
}

/// A fresh built-in module: a new frame holding its members, and the
/// module value that refers to it.
pub open spec fn new_builtin_module(st: SState, b: Builtin) -> (SState, SExpr) {
    (
        SState { frames: st.frames.push(frame_of(builtin_bindings(b), None)), ..st },
        SExpr::Module(builtin_path(b), st.frames.len()),
    )
}

/// The global bindings, for modules whose frames start at `n`.
pub open spec fn global_bindings(n: nat) -> Seq<(Seq<char>, SExpr)> {
    seq![
        ("math"@, SExpr::Module("builtin:math"@, n)),
        ("log"@, SExpr::Module("builtin:log"@, n + 1)),
        ("string"@, SExpr::Module("builtin:string"@, n + 2)),
        ("list"@, SExpr::Module("<builtin_list_module>"@, n + 3)),
        native_binding("+"@, "+"@, NativeFn::Add),
        native_binding("="@, "="@, NativeFn::Equals),
        native_binding("*"@, "*"@, NativeFn::Multiply),
        native_binding("-"@, "-"@, NativeFn::Subtract),
        native_binding("/"@, "/"@, NativeFn::Divide),
        native_binding("<"@, "<"@, NativeFn::LessThan),
        native_binding(">"@, ">"@, NativeFn::GreaterThan),
        native_binding("<="@, "<="@, NativeFn::LessEqual),
        native_binding(">="@, ">="@, NativeFn::GreaterEqual),
    ]
}

/// Appends the bindings `bs` to the frame `env`.
pub open spec fn define_all(frames: Seq<SFrame>, env: nat, bs: Seq<(Seq<char>, SExpr)>) -> Seq<SFrame> {
    if env < frames.len() {
        frames.update(env as int, SFrame { bindings: frames[env as int].bindings + bs, outer: frames[env as int].outer })
    } else {
        frames
    }
}

/// The state after the four built-in modules are created and bound,
/// with the arithmetic shorthands, in environment `env`.
pub open spec fn populated(st: SState, env: nat) -> SState {
    let n = st.frames.len();
    let frames = st.frames
        .push(frame_of(math_bindings(), None))
        .push(frame_of(log_bindings(), None))
        .push(frame_of(string_bindings(), None))
        .push(frame_of(Seq::empty(), None));
    SState { frames: define_all(frames, env, global_bindings(n)), ..st }
}

/// The state after a new root environment with the prelude is made; the
/// root is the frame numbered `st.frames.len()`.
pub open spec fn with_prelude(st: SState) -> SState {
    populated(SState { frames: st.frames.push(frame_of(Seq::empty(), None)), ..st }, st.frames.len())
}

fn native_value(name: &str, f: NativeFn) -> (r: Expr)
    ensures
        r@ == SExpr::Native(name@, f),
{
    Expr::NativeFunction(NativeFunction { name: String::from_str(name), func: f })
}

fn native_entry(key: &str, name: &str, f: NativeFn) -> (r: (String, Expr))
    ensures
        (r.0@, r.1@) == native_binding(key@, name@, f),
{
    (String::from_str(key), native_value(name, f))
}

impl<H: Host> Interpreter<H> {
    fn push_module(&mut self, path: &str, bs: Vec<(String, Expr)>) -> (r: Expr)
        ensures
            final(self).state() == (SState {
                frames: old(self).state().frames.push(frame_of(view_bindings(bs@), None)),
                ..old(self).state()
            }),
            final(self).log() == old(self).log(),
            r@ == SExpr::Module(path@, old(self).state().frames.len()),
    {
        let env = self.push_frame(Frame { bindings: bs, outer: None });
        Expr::Module(LispModule { path: String::from_str(path), env })
    }
}

/// Creates the `math` module: `+`, `=`, `*`, `-` and `/`.
pub fn create_math_module<H: Host>(interp: &mut Interpreter<H>) -> (r: Expr)
    ensures
        (final(interp).state(), r@) == new_builtin_module(old(interp).state(), Builtin::Math),
        final(interp).log() == old(interp).log(),
{
    let mut bs: Vec<(String, Expr)> = Vec::new();
    bs.push(native_entry("+", "+", NativeFn::Add));
    bs.push(native_entry("=", "=", NativeFn::Equals));
    bs.push(native_entry("*", "*", NativeFn::Multiply));
    bs.push(native_entry("-", "-", NativeFn::Subtract));
    bs.push(native_entry("/", "/", NativeFn::Divide));
    assert(view_bindings(bs@) =~= math_bindings());
    interp.push_module("builtin:math", bs)
}

/// Creates the `log` module: `info` and `error`.
pub fn create_log_module<H: Host>(interp: &mut Interpreter<H>) -> (r: Expr)
    ensures
        (final(interp).state(), r@) == new_builtin_module(old(interp).state(), Builtin::Log),
        final(interp).log() == old(interp).log(),
{
    let mut bs: Vec<(String, Expr)> = Vec::new();
    bs.push(native_entry("info", "info", NativeFn::LogInfo));
    bs.push(native_entry("error", "error", NativeFn::LogError));
    assert(view_bindings(bs@) =~= log_bindings());
    interp.push_module("builtin:log", bs)
}

/// Creates the `string` module: `concat`, `reverse`, `len`, `to-upper`,
/// `to-lower` and `trim`.
pub fn create_string_module<H: Host>(interp: &mut Interpreter<H>) -> (r: Expr)
    ensures
        (final(interp).state(), r@) == new_builtin_module(old(interp).state(), Builtin::Str),
        final(interp).log() == old(interp).log(),
{
    let mut bs: Vec<(String, Expr)> = Vec::new();
    bs.push(native_entry("concat", "string.concat", NativeFn::StringConcat));
    bs.push(native_entry("reverse", "string.reverse", NativeFn::StringReverse));
    bs.push(native_entry("len", "string.len", NativeFn::StringLen));
    bs.push(native_entry("to-upper", "string.to-upper", NativeFn::StringToUpper));
    bs.push(native_entry("to-lower", "string.to-lower", NativeFn::StringToLower));
    bs.push(native_entry("trim", "string.trim", NativeFn::StringTrim));
    assert(view_bindings(bs@) =~= string_bindings());
    interp.push_module("builtin:string", bs)
}

/// Creates the `list` module, which has no members yet.
pub fn create_list_module<H: Host>(interp: &mut Interpreter<H>) -> (r: Expr)
    ensures
        (final(interp).state(), r@) == new_builtin_module(old(interp).state(), Builtin::List),
        final(interp).log() == old(interp).log(),
{
    let bs: Vec<(String, Expr)> = Vec::new();
    assert(view_bindings(bs@) =~= Seq::<(Seq<char>, SExpr)>::empty());
    interp.push_module("<builtin_list_module>", bs)
}

/// Creates a fresh built-in module.
pub fn create_builtin_module<H: Host>(interp: &mut Interpreter<H>, b: Builtin) -> (r: Expr)
    ensures
        (final(interp).state(), r@) == new_builtin_module(old(interp).state(), b),
        final(interp).log() == old(interp).log(),
{
    match b {
        Builtin::Math => create_math_module(interp),
        Builtin::Log => create_log_module(interp),
        Builtin::Str => create_string_module(interp),
        Builtin::List => create_list_module(interp),
    }
}

/// The built-in module that `require` gives for `name`, if any.
pub fn builtin_named_exec(name: &str) -> (r: Option<Builtin>)
    ensures
        r == builtin_named(name@),
{
    if crate::env::string_eq(name, "math") {
        Some(Builtin::Math)
    } else if crate::env::string_eq(name, "log") {
        Some(Builtin::Log)
    } else if crate::env::string_eq(name, "string") {
        Some(Builtin::Str)
    } else if crate::env::string_eq(name, "list") {
        Some(Builtin::List)
    } else {
        None
    }
}

/// Binds the built-in modules `math`, `log`, `string` and `list`, the
/// arithmetic shorthands `+`, `=`, `*`, `-`, `/`, and the comparisons `<`,
/// `>`, `<=`, `>=`, in environment `env`.
pub fn populate_globals<H: Host>(interp: &mut Interpreter<H>, env: Environment)
    ensures
        final(interp).state() == populated(old(interp).state(), env.id as nat),
        final(interp).log() == old(interp).log(),
{
    let math = create_math_module(interp);
    let log = create_log_module(interp);
    let string = create_string_module(interp);
    let list = create_list_module(interp);
    let mut bs: Vec<(String, Expr)> = Vec::new();
    bs.push((String::from_str("math"), math));
    bs.push((String::from_str("log"), log));
    bs.push((String::from_str("string"), string));
    bs.push((String::from_str("list"), list));
    bs.push(native_entry("+", "+", NativeFn::Add));
    bs.push(native_entry("=", "=", NativeFn::Equals));
    bs.push(native_entry("*", "*", NativeFn::Multiply));
    bs.push(native_entry("-", "-", NativeFn::Subtract));
    bs.push(native_entry("/", "/", NativeFn::Divide));
    bs.push(native_entry("<", "<", NativeFn::LessThan));
    bs.push(native_entry(">", ">", NativeFn::GreaterThan));
    bs.push(native_entry("<=", "<=", NativeFn::LessEqual));
    bs.push(native_entry(">=", ">=", NativeFn::GreaterEqual));
    assert(view_bindings(bs@) =~= global_bindings(old(interp).state().frames.len()));
    interp.define_many(env.id, bs);
    proof {
        let n = old(interp).state().frames.len();
        let frames = old(interp).state().frames
            .push(frame_of(math_bindings(), None))
            .push(frame_of(log_bindings(), None))
            .push(frame_of(string_bindings(), None))
            .push(frame_of(Seq::empty(), None));
        assert(interp.state().frames =~= define_all(frames, env.id as nat, global_bindings(n)));
    }
}

impl Environment {
    /// Creates a new root environment holding the prelude: the built-in
    /// modules, the arithmetic shorthands and the comparisons.
    pub fn new_with_prelude<H: Host>(interp: &mut Interpreter<H>) -> (r: Environment)
        ensures
            final(interp).state() == with_prelude(old(interp).state()),
            final(interp).log() == old(interp).log(),
            r.id == old(interp).state().frames.len(),
    {
        let root = Environment::new(interp);
        populate_globals(interp, root);
        root
    }
}

} // verus!
