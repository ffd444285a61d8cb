//! The interpreter's state: the store of environment frames, the cache of
//! loaded modules, and the host that performs the work that is not done
//! here (binary64 arithmetic and number formatting, printing, reading files).
//!
//! Environments are shared: a function and the code that made it see the
//! same frame, and a definition made through one is seen through the other.
//! So the frames live in one store owned by the interpreter, and an
//! environment is the index of its frame there. A frame's bindings are a
//! list in which the latest binding of a name is the one that counts. The
//! cache of loaded modules is a list of canonical paths and their modules.
//!
//! Every request made to the host is recorded, with its reply, in a ghost
//! log. The results of the library are stated for every model `h` of the
//! host (a function from requests to replies) that agrees with that log.
//! The log, like the frames and the cache, is private to this module: only
//! the request functions here add to it, one entry for each request made.
use vstd::prelude::*;
use crate::ast::{Environment, Expr, SExpr};
use crate::error::{LispError, SErr};
use crate::env::{assoc_get, define_in, lookup, string_eq};
use crate::globals::define_all;
use crate::parser::view_opt_expr;

verus! {

/// A binary64 arithmetic operation.
#[derive(Debug, Clone, Copy, PartialEq, Eq)]
pub enum ArithOp {
    Add,
    Sub,
    Mul,
    Div,
}

/// A request to the host.
pub enum Request {
    /// `a op b` on the binary64 values with these bit patterns.
    Arith(ArithOp, u64, u64),
    /// The binary64 value nearest to an integer.
    IntToNumber(u64),
    /// The text of a number: its `Debug` form when the flag is set, else its `Display` form.
    ShowNumber(u64, bool),
    /// Write a line to standard error (flag set) or standard output.
    Print(bool, Seq<char>),
    /// Resolve a module path to its canonical path. The number counts the
    /// requests made to the file system before this one: the files may
    /// change between two requests, so each is a request of its own.
    Resolve(Seq<char>, nat),
    /// Read the text of a module file; the number counts as for `Resolve`.
    Read(Seq<char>, nat),
}

/// A reply of the host.
pub enum Reply {
    Number(u64),
    Text(Seq<char>),
    Done,
    Found(Result<Seq<char>, SErr>),
}

/// The work that the interpreter hands to its host.
pub trait Host {
    fn arith(&mut self, op: ArithOp, a: u64, b: u64) -> u64;

    fn int_to_number(&mut self, n: u64) -> u64;

    fn show_number(&mut self, bits: u64, debug: bool) -> String;

    fn print(&mut self, to_stderr: bool, text: &str);

    fn resolve_module(&mut self, path: &str) -> Result<String, LispError>;

    fn read_module(&mut self, path: &str) -> Result<String, LispError>;
}

/// `h` answers every request of `log` as the log records.
pub open spec fn agrees(h: spec_fn(Request) -> Reply, log: Seq<(Request, Reply)>) -> bool {
    forall|i: int| #![trigger log[i]] 0 <= i < log.len() ==> h(log[i].0) == log[i].1
}

/// `a` starts with `b`.
pub open spec fn extends(a: Seq<(Request, Reply)>, b: Seq<(Request, Reply)>) -> bool {
    b.len() <= a.len() && forall|i: int| 0 <= i < b.len() ==> #[trigger] a[i] == b[i]
}

pub broadcast proof fn lemma_agrees_extends(h: spec_fn(Request) -> Reply, a: Seq<(Request, Reply)>, b: Seq<(Request, Reply)>)
    requires
        agrees(h, a),
        extends(a, b),
    ensures
        #![trigger agrees(h, a), extends(a, b)]
        agrees(h, b),
{
    lemma_agrees_prefix(h, a, b);
}

pub broadcast proof fn lemma_extends_trans(a: Seq<(Request, Reply)>, b: Seq<(Request, Reply)>, c: Seq<(Request, Reply)>)
    requires
        extends(a, b),
        extends(b, c),
    ensures
        #![trigger extends(a, b), extends(b, c)]
        extends(a, c),
{
    assert forall|i: int| 0 <= i < c.len() implies #[trigger] a[i] == c[i] by {
        assert(a[i] == b[i]);
        assert(b[i] == c[i]);
    }
}

pub broadcast proof fn lemma_extends_push(a: Seq<(Request, Reply)>, x: (Request, Reply))
    ensures
        #[trigger] extends(a.push(x), a),
{
    assert forall|i: int| 0 <= i < a.len() implies #[trigger] a.push(x)[i] == a[i] by {}
}

pub broadcast proof fn lemma_extends_refl(a: Seq<(Request, Reply)>)
    ensures
        #[trigger] extends(a, a),
{
}

pub broadcast group group_log {
    lemma_agrees_extends,
    lemma_extends_trans,
    lemma_extends_push,
    lemma_extends_refl,
}

pub proof fn lemma_agrees_prefix(h: spec_fn(Request) -> Reply, a: Seq<(Request, Reply)>, b: Seq<(Request, Reply)>)
    requires
        agrees(h, a),
        extends(a, b),
    ensures
        agrees(h, b),
{
    assert forall|i: int| #![trigger b[i]] 0 <= i < b.len() implies h(b[i].0) == b[i].1 by {
        assert(a[i] == b[i]);
    }
}

pub open spec fn reply_number(r: Reply) -> u64 {
    match r {
        Reply::Number(n) => n,
        _ => 0,
    }
}

pub open spec fn reply_text(r: Reply) -> Seq<char> {
    match r {
        Reply::Text(t) => t,
        _ => Seq::empty(),
    }
}

pub open spec fn reply_found(r: Reply) -> Result<Seq<char>, SErr> {
    match r {
        Reply::Found(f) => f,
        _ => Ok(Seq::empty()),
    }
}

/// One environment frame: its bindings, most recent last, and its enclosing frame.
pub struct Frame {
    pub bindings: Vec<(String, Expr)>,
    pub outer: Option<usize>,
}

pub struct SFrame {
    pub bindings: Seq<(Seq<char>, SExpr)>,
    pub outer: Option<nat>,
}

pub struct SState {
    pub frames: Seq<SFrame>,
    pub cache: Seq<(Seq<char>, SExpr)>,
    /// The lines printed so far, each with whether it went to standard error.
    pub printed: Seq<(bool, Seq<char>)>,
    /// The number of requests made to the file system so far.
    pub disk: nat,
}

pub open spec fn view_bindings(b: Seq<(String, Expr)>) -> Seq<(Seq<char>, SExpr)> {
    Seq::new(b.len(), |i: int| (b[i].0@, b[i].1@))
}

pub open spec fn view_outer(o: Option<usize>) -> Option<nat> {
    match o {
        Some(j) => Some(j as nat),
        None => None,
    }
}

impl Frame {
    pub open spec fn view_frame(&self) -> SFrame {
        SFrame { bindings: view_bindings(self.bindings@), outer: view_outer(self.outer) }
    }
}

/// An interpreter: the frames of all environments, the modules loaded so
/// far, the host, and the ghost log of the host's replies.
pub struct Interpreter<H> {
    frames: Vec<Frame>,
    cache: Vec<(String, Expr)>,
    pub host: H,
    host_log: Ghost<Seq<(Request, Reply)>>,
    printed: Ghost<Seq<(bool, Seq<char>)>>,
    disk: Ghost<nat>,
}

impl<H: Host> Interpreter<H> {
    pub closed spec fn state(&self) -> SState {
        SState {
            frames: Seq::new(self.frames@.len(), |i: int| self.frames@[i].view_frame()),
            cache: view_bindings(self.cache@),
            printed: self.printed_lines(),
            disk: self.file_requests(),
        }
    }

    /// The requests made to the host so far, each with its reply. Only the
    /// `ask_` functions below add to it, each one entry for its request.
    pub closed spec fn log(&self) -> Seq<(Request, Reply)> {
        self.host_log@
    }

    /// The lines printed so far, each with whether it went to standard error.
    pub closed spec fn printed_lines(&self) -> Seq<(bool, Seq<char>)> {
        self.printed@
    }

    /// The number of requests made to the file system so far.
    pub closed spec fn file_requests(&self) -> nat {
        self.disk@
    }

    /// An interpreter with no environments yet.
    pub fn new(host: H) -> (r: Self)
        ensures
            r.state().frames.len() == 0,
            r.state().cache.len() == 0,
            r.state().printed.len() == 0,
            r.state().disk == 0,
            r.log().len() == 0,
    {
        Interpreter {
            frames: Vec::new(),
            cache: Vec::new(),
            host,
            host_log: Ghost(Seq::empty()),
            printed: Ghost(Seq::empty()),
            disk: Ghost(0),
        }
    }

    pub(crate) fn ask_arith(&mut self, op: ArithOp, a: u64, b: u64) -> (r: u64)
        ensures
            final(self).state() == old(self).state(),
            final(self).log() == old(self).log().push((Request::Arith(op, a, b), Reply::Number(r))),
            forall|h: spec_fn(Request) -> Reply| agrees(h, final(self).log()) ==> h(Request::Arith(op, a, b)) == Reply::Number(r),
            extends(final(self).log(), old(self).log()),
    {
        let r = self.host.arith(op, a, b);
        self.host_log = Ghost(self.log().push((Request::Arith(op, a, b), Reply::Number(r))));
        proof {
            let last = self.log().len() - 1;
            assert(self.log()[last] == (Request::Arith(op, a, b), Reply::Number(r)));
            assert forall|h: spec_fn(Request) -> Reply| agrees(h, self.log()) implies h(self.log()[last].0) == self.log()[last].1 by {}
            assert forall|i: int| 0 <= i < old(self).log().len() implies #[trigger] self.log()[i] == old(self).log()[i] by {}
        }
        r
    }

    pub(crate) fn ask_int_to_number(&mut self, n: u64) -> (r: u64)
        ensures
            final(self).state() == old(self).state(),
            final(self).log() == old(self).log().push((Request::IntToNumber(n), Reply::Number(r))),
            forall|h: spec_fn(Request) -> Reply| agrees(h, final(self).log()) ==> h(Request::IntToNumber(n)) == Reply::Number(r),
            extends(final(self).log(), old(self).log()),
    {
        let r = self.host.int_to_number(n);
        self.host_log = Ghost(self.log().push((Request::IntToNumber(n), Reply::Number(r))));
        proof {
            let last = self.log().len() - 1;
            assert(self.log()[last] == (Request::IntToNumber(n), Reply::Number(r)));
            assert forall|h: spec_fn(Request) -> Reply| agrees(h, self.log()) implies h(self.log()[last].0) == self.log()[last].1 by {}
            assert forall|i: int| 0 <= i < old(self).log().len() implies #[trigger] self.log()[i] == old(self).log()[i] by {}
        }
        r
    }

    pub(crate) fn ask_show_number(&mut self, bits: u64, debug: bool) -> (r: String)
        ensures
            final(self).state() == old(self).state(),
            final(self).log() == old(self).log().push((Request::ShowNumber(bits, debug), Reply::Text(r@))),
            forall|h: spec_fn(Request) -> Reply| agrees(h, final(self).log()) ==> h(Request::ShowNumber(bits, debug)) == Reply::Text(r@),
            extends(final(self).log(), old(self).log()),
    {
        let r = self.host.show_number(bits, debug);
        self.host_log = Ghost(self.log().push((Request::ShowNumber(bits, debug), Reply::Text(r@))));
        proof {
            let last = self.log().len() - 1;
            assert(self.log()[last] == (Request::ShowNumber(bits, debug), Reply::Text(r@)));
            assert forall|h: spec_fn(Request) -> Reply| agrees(h, self.log()) implies h(self.log()[last].0) == self.log()[last].1 by {}
            assert forall|i: int| 0 <= i < old(self).log().len() implies #[trigger] self.log()[i] == old(self).log()[i] by {}
        }
        r
    }

    pub(crate) fn ask_print(&mut self, to_stderr: bool, text: &str)
        ensures
            final(self).state() == (SState {
                printed: old(self).state().printed.push((to_stderr, text@)),
                ..old(self).state()
            }),
            final(self).log() == old(self).log().push((Request::Print(to_stderr, text@), Reply::Done)),
            forall|h: spec_fn(Request) -> Reply| agrees(h, final(self).log()) ==> h(Request::Print(to_stderr, text@)) == Reply::Done,
            extends(final(self).log(), old(self).log()),
    {
        self.host.print(to_stderr, text);
        self.host_log = Ghost(self.log().push((Request::Print(to_stderr, text@), Reply::Done)));
        self.printed = Ghost(self.printed@.push((to_stderr, text@)));
        proof {
            let last = self.log().len() - 1;
            assert(self.log()[last] == (Request::Print(to_stderr, text@), Reply::Done));
            assert forall|h: spec_fn(Request) -> Reply| agrees(h, self.log()) implies h(self.log()[last].0) == self.log()[last].1 by {}
            assert forall|i: int| 0 <= i < old(self).log().len() implies #[trigger] self.log()[i] == old(self).log()[i] by {}
        }
    }

    pub(crate) fn ask_resolve(&mut self, path: &str) -> (r: Result<String, LispError>)
        ensures
            final(self).state() == (SState { disk: old(self).state().disk + 1, ..old(self).state() }),
            final(self).log() == old(self).log().push((Request::Resolve(path@, old(self).state().disk), Reply::Found(view_found(&r)))),
            forall|h: spec_fn(Request) -> Reply| agrees(h, final(self).log()) ==> h(Request::Resolve(path@, old(self).state().disk)) == Reply::Found(view_found(&r)),
            extends(final(self).log(), old(self).log()),
    {
        let r = self.host.resolve_module(path);
        let ghost n = self.disk@;
        self.host_log = Ghost(self.log().push((Request::Resolve(path@, n), Reply::Found(view_found(&r)))));
        self.disk = Ghost(n + 1);
        proof {
            let last = self.log().len() - 1;
            assert(self.log()[last] == (Request::Resolve(path@, n), Reply::Found(view_found(&r))));
            assert forall|h: spec_fn(Request) -> Reply| agrees(h, self.log()) implies h(self.log()[last].0) == self.log()[last].1 by {}
            assert forall|i: int| 0 <= i < old(self).log().len() implies #[trigger] self.log()[i] == old(self).log()[i] by {}
        }
        r
    }

    pub(crate) fn ask_read(&mut self, path: &str) -> (r: Result<String, LispError>)
        ensures
            final(self).state() == (SState { disk: old(self).state().disk + 1, ..old(self).state() }),
            final(self).log() == old(self).log().push((Request::Read(path@, old(self).state().disk), Reply::Found(view_found(&r)))),
            forall|h: spec_fn(Request) -> Reply| agrees(h, final(self).log()) ==> h(Request::Read(path@, old(self).state().disk)) == Reply::Found(view_found(&r)),
            extends(final(self).log(), old(self).log()),
    {
        let r = self.host.read_module(path);
        let ghost n = self.disk@;
        self.host_log = Ghost(self.log().push((Request::Read(path@, n), Reply::Found(view_found(&r)))));
        self.disk = Ghost(n + 1);
        proof {
            let last = self.log().len() - 1;
            assert(self.log()[last] == (Request::Read(path@, n), Reply::Found(view_found(&r))));
            assert forall|h: spec_fn(Request) -> Reply| agrees(h, self.log()) implies h(self.log()[last].0) == self.log()[last].1 by {}
            assert forall|i: int| 0 <= i < old(self).log().len() implies #[trigger] self.log()[i] == old(self).log()[i] by {}
        }
        r
    }
}

pub open spec fn view_found(r: &Result<String, LispError>) -> Result<Seq<char>, SErr> {
    match r {
        Ok(s) => Ok(s@),
        Err(e) => Err(e@),
    }
}

impl<H: Host> Interpreter<H> {
    /// Adds a frame and returns its handle.
    pub fn push_frame(&mut self, f: Frame) -> (r: Environment)
        ensures
            final(self).state() == (SState { frames: old(self).state().frames.push(f.view_frame()), ..old(self).state() }),
            final(self).log() == old(self).log(),
            r.id == old(self).state().frames.len(),
    {
        let id = self.frames.len();
        self.frames.push(f);
        proof {
            assert(self.state().frames =~= old(self).state().frames.push(f.view_frame()));
        }
        Environment { id }
    }

    /// Binds `name` to `v` in the frame `env`.
    pub fn define_at(&mut self, env: usize, name: String, v: Expr)
        ensures
            final(self).state() == (SState {
                frames: define_in(old(self).state().frames, env as nat, name@, v@),
                ..old(self).state()
            }),
            final(self).log() == old(self).log(),
    {
        if env < self.frames.len() {
            let ghost nv = v@;
            let ghost nm = name@;
            let mut frame = self.frames.remove(env);
            frame.bindings.push((name, v));
            self.frames.insert(env, frame);
            proof {
                let olds = old(self).state();
                let news = self.state();
                assert(view_bindings(frame.bindings@) =~= olds.frames[env as int].bindings.push((nm, nv)));
                assert(news.frames =~= define_in(olds.frames, env as nat, nm, nv));
            }
        }
    }

    /// The value of `name` in environment `env`.
    pub fn lookup_at(&self, env: usize, name: &str) -> (r: Option<Expr>)
        ensures
            crate::parser::view_opt_expr(r) == lookup(self.state().frames, env as nat, name@),
    {
        let ghost frames = self.state().frames;
        let mut cur = env;
        while cur < self.frames.len()
            invariant
                frames == self.state().frames,
                lookup(frames, cur as nat, name@) == lookup(frames, env as nat, name@),
            decreases cur,
        {
            let b = &self.frames[cur].bindings;
            let mut k = b.len();
            proof {
                assert(frames[cur as int] == self.frames@[cur as int].view_frame());
                assert(view_bindings(b@).take(b@.len() as int) =~= view_bindings(b@));
            }
            while k > 0
                invariant
                    k <= b@.len(),
                    cur < frames.len(),
                    lookup(frames, cur as nat, name@) == lookup(frames, env as nat, name@),
                    *b == self.frames@[cur as int].bindings,
                    frames == self.state().frames,
                    assoc_get(view_bindings(b@).take(k as int), name@)
                        == assoc_get(frames[cur as int].bindings, name@),
                decreases k,
            {
                let ghost bv = view_bindings(b@).take(k as int);
                assert(bv.drop_last() =~= view_bindings(b@).take(k - 1));
                assert(bv.last() == (b@[k - 1].0@, b@[k - 1].1@));
                let same = string_eq(b[k - 1].0.as_str(), name);
                if same {
                    let v = b[k - 1].1.clone();
                    assert(assoc_get(bv, name@) == Some(v@));
                    assert(assoc_get(frames[cur as int].bindings, name@) == Some(v@));
                    assert(lookup(frames, cur as nat, name@) == Some(v@));
                    return Some(v);
                }
                k = k - 1;
            }
            assert(view_bindings(b@).take(0) =~= Seq::<(Seq<char>, SExpr)>::empty());
            match self.frames[cur].outer {
                Some(o) => {
                    if o < cur {
                        cur = o;
                    } else {
                        return None;
                    }
                },
                None => {
                    return None;
                },
            }
        }
        None
    }

    /// The module cached under `key`, if any.
    pub fn cache_get(&self, key: &str) -> (r: Option<Expr>)
        ensures
            view_opt_expr(r) == assoc_get(self.state().cache, key@),
    {
        let ghost c = self.state().cache;
        let mut k = self.cache.len();
        assert(c.take(k as int) =~= c);
        while k > 0
            invariant
                k <= self.cache@.len(),
                c == self.state().cache,
                c == view_bindings(self.cache@),
                assoc_get(c.take(k as int), key@) == assoc_get(c, key@),
            decreases k,
        {
            let ghost ck = c.take(k as int);
            assert(ck.drop_last() =~= c.take(k - 1));
            if string_eq(self.cache[k - 1].0.as_str(), key) {
                return Some(self.cache[k - 1].1.clone());
            }
            k = k - 1;
        }
        None
    }

    /// Records `v` in the cache under `key`.
    pub fn cache_insert(&mut self, key: String, v: Expr)
        ensures
            final(self).state() == (SState { cache: old(self).state().cache.push((key@, v@)), ..old(self).state() }),
            final(self).log() == old(self).log(),
    {
        let ghost kv = (key@, v@);
        self.cache.push((key, v));
        proof {
            assert(self.state().cache =~= old(self).state().cache.push(kv));
            assert(self.state().frames =~= old(self).state().frames);
        }
    }

    /// Appends the bindings `bs` to the frame `env`.
    pub fn define_many(&mut self, env: usize, bs: Vec<(String, Expr)>)
        ensures
            final(self).state() == (SState {
                frames: define_all(old(self).state().frames, env as nat, view_bindings(bs@)),
                ..old(self).state()
            }),
            final(self).log() == old(self).log(),
    {
        if env < self.frames.len() {
            let ghost nb = view_bindings(bs@);
            let mut frame = self.frames.remove(env);
            let ghost b0 = frame.bindings@;
            let mut more = bs;
            frame.bindings.append(&mut more);
            self.frames.insert(env, frame);
            proof {
                let olds = old(self).state();
                let news = self.state();
                assert(frame.bindings@ == b0 + bs@);
                assert(view_bindings(frame.bindings@) =~= olds.frames[env as int].bindings + nb);
                assert(news.frames =~= define_all(olds.frames, env as nat, nb));
            }
        }
    }

}

} // verus!
