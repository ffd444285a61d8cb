//! Errors raised while evaluating, and their messages.
use vstd::prelude::*;
use crate::format::{decimal, debug_str, spec_str_debug};

verus! {

/// An evaluation error.
#[derive(Debug, PartialEq)]
pub enum LispError {
    Evaluation(String),
    TypeError { expected: String, found: String },
    UndefinedSymbol(String),
    InvalidArguments { operator: String, message: String },
    ArityMismatch(String),
    ReservedKeyword(String),
    NotAFunction(String),
    ModuleNotFound(String),
    ModuleLoadError { path: String, source: Box<LispError> },
    ModuleIoError { path: String, kind: String, message: String },
    NotAModule(String),
    MemberNotFoundInModule { module: String, member: String },
    DivisionByZero(String),
    ValueError(String),
}

/// The mathematical model of an error.
pub enum SErr {
    Evaluation(Seq<char>),
    TypeError(Seq<char>, Seq<char>),
    UndefinedSymbol(Seq<char>),
    InvalidArguments(Seq<char>, Seq<char>),
    ArityMismatch(Seq<char>),
    ReservedKeyword(Seq<char>),
    NotAFunction(Seq<char>),
    ModuleNotFound(Seq<char>),
    ModuleLoadError(Seq<char>, Box<SErr>),
    ModuleIoError(Seq<char>, Seq<char>, Seq<char>),
    NotAModule(Seq<char>),
    MemberNotFoundInModule(Seq<char>, Seq<char>),
    DivisionByZero(Seq<char>),
    ValueError(Seq<char>),
}

impl LispError {
    pub open spec fn view_err(&self) -> SErr
        decreases self,
    {
        match self {
            LispError::Evaluation(s) => SErr::Evaluation(s@),
            LispError::TypeError { expected, found } => SErr::TypeError(expected@, found@),
            LispError::UndefinedSymbol(s) => SErr::UndefinedSymbol(s@),
            LispError::InvalidArguments { operator, message } => SErr::InvalidArguments(operator@, message@),
            LispError::ArityMismatch(s) => SErr::ArityMismatch(s@),
            LispError::ReservedKeyword(s) => SErr::ReservedKeyword(s@),
            LispError::NotAFunction(s) => SErr::NotAFunction(s@),
            LispError::ModuleNotFound(s) => SErr::ModuleNotFound(s@),
            LispError::ModuleLoadError { path, source } => SErr::ModuleLoadError(path@, Box::new(source.view_err())),
            LispError::ModuleIoError { path, kind, message } => SErr::ModuleIoError(path@, kind@, message@),
            LispError::NotAModule(s) => SErr::NotAModule(s@),
            LispError::MemberNotFoundInModule { module, member } => SErr::MemberNotFoundInModule(module@, member@),
            LispError::DivisionByZero(s) => SErr::DivisionByZero(s@),
            LispError::ValueError(s) => SErr::ValueError(s@),
        }
    }
}

impl View for LispError {
    type V = SErr;

    open spec fn view(&self) -> SErr {
        self.view_err()
    }
}

/// The message of an error, as its `Display` form reads.
pub open spec fn spec_message(e: SErr) -> Seq<char>
    decreases e,
{
    match e {
        SErr::Evaluation(m) => "Evaluation error: "@ + m,
        SErr::TypeError(x, f) => "Type error: expected "@ + x + ", found "@ + f,
        SErr::UndefinedSymbol(m) => "Undefined symbol: "@ + m,
        SErr::InvalidArguments(o, m) => "Invalid arguments for operator '"@ + o + "': "@ + m,
        SErr::ArityMismatch(m) => "Arity mismatch: "@ + m,
        SErr::ReservedKeyword(m) => "Cannot bind reserved keyword: "@ + m,
        SErr::NotAFunction(m) => "Not a function: "@ + m,
        SErr::ModuleNotFound(p) => "Module not found: "@ + spec_str_debug(p),
        SErr::ModuleLoadError(p, src) => "Error loading module '"@ + spec_str_debug(p) + "': "@
            + spec_message(*src),
        SErr::ModuleIoError(p, k, m) => "I/O error for module '"@ + spec_str_debug(p) + "': kind: "@ + k
            + ", message: "@ + m,
        SErr::NotAModule(m) => "Symbol '"@ + m + "' is not a module, cannot access members."@,
        SErr::MemberNotFoundInModule(md, mb) => "Member '"@ + mb + "' not found in module '"@ + md
            + "'."@,
        SErr::DivisionByZero(m) => "Division by zero: "@ + m,
        SErr::ValueError(m) => "Value error: "@ + m,
    }
}

fn cat(a: &str, b: &str) -> (r: String)
    ensures
        r@ == a@ + b@,
{
    let mut r = String::from_str(a);
    r.append(b);
    r
}

fn cat3(a: &str, b: &str, c: &str) -> (r: String)
    ensures
        r@ == a@ + b@ + c@,
{
    let mut r = String::from_str(a);
    r.append(b);
    r.append(c);
    r
}

impl LispError {
    /// The message of the error, as its `Display` form reads.
    pub fn to_message(&self) -> (r: String)
        ensures
            r@ == spec_message(self@),
        decreases self,
    {
        match self {
            LispError::Evaluation(m) => cat("Evaluation error: ", m.as_str()),
            LispError::TypeError { expected, found } => {
                let mut r = cat3("Type error: expected ", expected.as_str(), ", found ");
                r.append(found.as_str());
                r
            },
            LispError::UndefinedSymbol(m) => cat("Undefined symbol: ", m.as_str()),
            LispError::InvalidArguments { operator, message } => {
                let mut r = cat3("Invalid arguments for operator '", operator.as_str(), "': ");
                r.append(message.as_str());
                r
            },
            LispError::ArityMismatch(m) => cat("Arity mismatch: ", m.as_str()),
            LispError::ReservedKeyword(m) => cat("Cannot bind reserved keyword: ", m.as_str()),
            LispError::NotAFunction(m) => cat("Not a function: ", m.as_str()),
            LispError::ModuleNotFound(p) => {
                let d = debug_str(p.as_str());
                cat("Module not found: ", d.as_str())
            },
            LispError::ModuleLoadError { path, source } => {
                let d = debug_str(path.as_str());
                let mut r = cat3("Error loading module '", d.as_str(), "': ");
                let m = source.to_message();
                r.append(m.as_str());
                r
            },
            LispError::ModuleIoError { path, kind, message } => {
                let d = debug_str(path.as_str());
                let mut r = cat3("I/O error for module '", d.as_str(), "': kind: ");
                r.append(kind.as_str());
                r.append(", message: ");
                r.append(message.as_str());
                r
            },
            LispError::NotAModule(m) => cat3("Symbol '", m.as_str(), "' is not a module, cannot access members."),
            LispError::MemberNotFoundInModule { module, member } => {
                let mut r = cat3("Member '", member.as_str(), "' not found in module '");
                r.append(module.as_str());
                r.append("'.");
                r
            },
            LispError::DivisionByZero(m) => cat("Division by zero: ", m.as_str()),
            LispError::ValueError(m) => cat("Value error: ", m.as_str()),
        }
    }

    /// A copy of the error.
    pub fn duplicate(&self) -> (r: LispError)
        ensures
            r@ == self@,
        decreases self,
    {
        match self {
            LispError::Evaluation(m) => LispError::Evaluation(m.clone()),
            LispError::TypeError { expected, found } => LispError::TypeError { expected: expected.clone(), found: found.clone() },
            LispError::UndefinedSymbol(m) => LispError::UndefinedSymbol(m.clone()),
            LispError::InvalidArguments { operator, message } => LispError::InvalidArguments { operator: operator.clone(), message: message.clone() },
            LispError::ArityMismatch(m) => LispError::ArityMismatch(m.clone()),
            LispError::ReservedKeyword(m) => LispError::ReservedKeyword(m.clone()),
            LispError::NotAFunction(m) => LispError::NotAFunction(m.clone()),
            LispError::ModuleNotFound(m) => LispError::ModuleNotFound(m.clone()),
            LispError::ModuleLoadError { path, source } => LispError::ModuleLoadError { path: path.clone(), source: Box::new(source.duplicate()) },
            LispError::ModuleIoError { path, kind, message } => LispError::ModuleIoError { path: path.clone(), kind: kind.clone(), message: message.clone() },
            LispError::NotAModule(m) => LispError::NotAModule(m.clone()),
            LispError::MemberNotFoundInModule { module, member } => LispError::MemberNotFoundInModule { module: module.clone(), member: member.clone() },
            LispError::DivisionByZero(m) => LispError::DivisionByZero(m.clone()),
            LispError::ValueError(m) => LispError::ValueError(m.clone()),
        }
    }
}

} // verus!
