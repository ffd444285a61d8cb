//! Environments: frames of bindings, each possibly enclosed by an outer frame.
use vstd::prelude::*;
use crate::ast::{Environment, Expr, SExpr};
use crate::interp::{Frame, Host, Interpreter, SFrame, SState};

verus! {

/// The value bound to `k` by the most recent binding of `b` that names it.
pub open spec fn assoc_get(b: Seq<(Seq<char>, SExpr)>, k: Seq<char>) -> Option<SExpr>
    decreases b.len(),
{
    if b.len() == 0 {
        None
    } else if b.last().0 == k {
        Some(b.last().1)
    } else {
        assoc_get(b.drop_last(), k)
    }
}

/// The value of `name` in environment `env`: its own binding, else the value
/// in the enclosing environment.
pub open spec fn lookup(frames: Seq<SFrame>, env: nat, name: Seq<char>) -> Option<SExpr>
    decreases env,
{
    if env >= frames.len() {
        None
    } else {
        match assoc_get(frames[env as int].bindings, name) {
            Some(v) => Some(v),
            None => match frames[env as int].outer {
                Some(o) => if o < env { lookup(frames, o, name) } else { None },
                None => None,
            },
        }
    }
}

/// Binds `name` to `v` in environment `env`.
pub open spec fn define_in(frames: Seq<SFrame>, env: nat, name: Seq<char>, v: SExpr) -> Seq<SFrame> {
    if env < frames.len() {
        frames.update(
            env as int,
            SFrame { bindings: frames[env as int].bindings.push((name, v)), outer: frames[env as int].outer },
        )
    } else {
        frames
    }
}

/// A frame with the given bindings.
pub open spec fn frame_of(bindings: Seq<(Seq<char>, SExpr)>, outer: Option<nat>) -> SFrame {
    SFrame { bindings, outer }
}

/// Whether two strings are equal.
pub fn string_eq(a: &str, b: &str) -> (r: bool)
    ensures
        r == (a@ == b@),
{
    let n = a.unicode_len();
    if n != b.unicode_len() {
        return false;
    }
    let ca = crate::text::chars_of(a);
    let cb = crate::text::chars_of(b);
    let mut i: usize = 0;
    while i < n
        invariant
            i <= n == ca@.len() == cb@.len(),
            ca@ == a@,
            cb@ == b@,
            forall|k: int| 0 <= k < i ==> ca@[k] == cb@[k],
        decreases n - i,
    {
        if ca[i] != cb[i] {
            return false;
        }
        i = i + 1;
    }
    assert(a@ =~= b@);
    true
}

impl Environment {
    /// Creates a new, empty root environment.
    pub fn new<H: Host>(interp: &mut Interpreter<H>) -> (r: Environment)
        ensures
            final(interp).state() == (SState {
                frames: old(interp).state().frames.push(frame_of(Seq::empty(), None)),
                ..old(interp).state()
            }),
            final(interp).log() == old(interp).log(),
            r.id == old(interp).state().frames.len(),
    {
        let f = Frame { bindings: Vec::new(), outer: None };
        assert(f.view_frame().bindings =~= Seq::empty());
        interp.push_frame(f)
    }

    /// Creates a new, empty environment enclosed by `outer_env`.
    pub fn new_enclosed<H: Host>(interp: &mut Interpreter<H>, outer_env: Environment) -> (r: Environment)
        ensures
            final(interp).state() == (SState {
                frames: old(interp).state().frames.push(frame_of(Seq::empty(), Some(outer_env.id as nat))),
                ..old(interp).state()
            }),
            final(interp).log() == old(interp).log(),
            r.id == old(interp).state().frames.len(),
    {
        let f = Frame { bindings: Vec::new(), outer: Some(outer_env.id) };
        assert(f.view_frame().bindings =~= Seq::empty());
        interp.push_frame(f)
    }

    /// Defines a new variable, or redefines an existing one, in this environment.
    pub fn define<H: Host>(&self, interp: &mut Interpreter<H>, name: String, value: Expr)
        ensures
            final(interp).state() == (SState {
                frames: define_in(old(interp).state().frames, self.id as nat, name@, value@),
                ..old(interp).state()
            }),
            final(interp).log() == old(interp).log(),
    {
        interp.define_at(self.id, name, value)
    }

    /// The value of a variable: from this environment, else from the
    /// environments that enclose it.
    pub fn get<H: Host>(&self, interp: &Interpreter<H>, name: &str) -> (r: Option<Expr>)
        ensures
            crate::parser::view_opt_expr(r) == lookup(interp.state().frames, self.id as nat, name@),
    {
        interp.lookup_at(self.id, name)
    }
}

} // verus!
