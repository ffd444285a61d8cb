//! The reader: turns source text into expressions.
//!
//! Grammar (whitespace is space, tab, CR, LF; a comment runs from `;` to the
//! end of its line and may not hold a CR that is not followed by LF):
//! an expression is a number, `true`, `false`, `nil`, a quoted expression
//! `'e`, a string literal, a parenthesised list, or a symbol, tried in that
//! order.
use vstd::prelude::*;
use crate::ast::{Expr, SExpr};
use crate::text::{char_is_alphabetic, char_is_alphanumeric, is_alphabetic, is_alphanumeric, string_from_chars, chars_of};

verus! {

broadcast use vstd::string::group_string_axioms;

// ---------------------------------------------------------------------------
// Numbers: the syntax that nom's `double` recognises, and the value it reads.

/// What nom's `double` recognises at the start of a text.
pub enum FloatLex {
    /// A number of this many characters.
    Len(nat),
    /// No number.
    NoMatch,
    /// A number whose exponent marker no digit follows.
    Failed,
}

pub open spec fn is_ascii_digit(c: char) -> bool {
    '0' <= c && c <= '9'
}

/// The number of ASCII digits in a row from `k`.
pub open spec fn digits_from(s: Seq<char>, k: int) -> nat
    decreases s.len() - k,
{
    if 0 <= k < s.len() && is_ascii_digit(s[k]) { 1 + digits_from(s, k + 1) } else { 0 }
}

/// One where a sign `+` or `-` stands at `k`, else zero.
pub open spec fn sign_at(s: Seq<char>, k: int) -> nat {
    if 0 <= k < s.len() && (s[k] == '+' || s[k] == '-') { 1 } else { 0 }
}

/// Where digits with an optional fraction (`12`, `12.`, `12.5`), or a
/// fraction alone (`.5`), that start at `k` end.
pub open spec fn mantissa_end(s: Seq<char>, k: int) -> Option<int> {
    let d = digits_from(s, k);
    if d > 0 {
        let q = k + d;
        if q < s.len() && s[q] == '.' { Some(q + 1 + digits_from(s, q + 1)) } else { Some(q) }
    } else if 0 <= k < s.len() && s[k] == '.' && digits_from(s, k + 1) > 0 {
        Some(k + 1 + digits_from(s, k + 1))
    } else {
        None
    }
}

/// Whether `s` starts with the lower-case ASCII word `w`, letters in either case.
pub open spec fn starts_with_no_case(s: Seq<char>, w: Seq<char>) -> bool {
    w.len() <= s.len() && forall|t: int| 0 <= t < w.len() ==> (s[t] == w[t] || (s[t] as u32) + 32 == (w[t] as u32))
}

/// The number at the start of `s`: an optional sign, a mantissa, and an
/// optional exponent (`e` or `E`, an optional sign, digits); or else one of
/// `nan`, `infinity`, `inf` in any case, without a sign.
pub open spec fn float_lex(s: Seq<char>) -> FloatLex {
    match mantissa_end(s, sign_at(s, 0) as int) {
        Some(m) => if m < s.len() && (s[m] == 'e' || s[m] == 'E') {
            let e = m + 1 + sign_at(s, m + 1);
            if digits_from(s, e) > 0 { FloatLex::Len((e + digits_from(s, e)) as nat) } else { FloatLex::Failed }
        } else {
            FloatLex::Len(m as nat)
        },
        None => if starts_with_no_case(s, seq!['n', 'a', 'n']) {
            FloatLex::Len(3)
        } else if starts_with_no_case(s, seq!['i', 'n', 'f', 'i', 'n', 'i', 't', 'y']) {
            FloatLex::Len(8)
        } else if starts_with_no_case(s, seq!['i', 'n', 'f']) {
            FloatLex::Len(3)
        } else {
            FloatLex::NoMatch
        },
    }
}

proof fn lemma_digits_from_bound(s: Seq<char>, k: int)
    requires
        0 <= k,
    ensures
        digits_from(s, k) > 0 ==> k + digits_from(s, k) <= s.len(),
    decreases s.len() - k,
{
    if 0 <= k < s.len() && is_ascii_digit(s[k]) {
        lemma_digits_from_bound(s, k + 1);
    }
}

/// A recognised number holds at least one character of the text.
pub proof fn lemma_float_lex_len(s: Seq<char>)
    ensures
        float_lex(s) matches FloatLex::Len(n) ==> 0 < n <= s.len(),
{
    let p = sign_at(s, 0) as int;
    lemma_digits_from_bound(s, p);
    let d = digits_from(s, p);
    if d > 0 {
        lemma_digits_from_bound(s, p + d + 1);
    } else {
        lemma_digits_from_bound(s, p + 1);
    }
    if let Some(m) = mantissa_end(s, p) {
        let e = m + 1 + sign_at(s, m + 1);
        lemma_digits_from_bound(s, e);
    }
}

/// The bit pattern of the binary64 value that nom's `double` reads from
/// `input`, where it recognises a number there.
pub uninterp spec fn nom_double_bits(input: Seq<char>) -> u64;

pub enum NumberToken<'a> {
    Parsed(&'a str, u64),
    NoMatch,
    Failed,
}

/// Calls `nom::number::complete::double`. Its source recognises the syntax
/// of `float_lex` (through `recognize_float_or_exceptions`), fails hard
/// (`cut`) where an exponent marker has no digits, and converts the
/// recognised text with `str::parse::<f64>`, whose documented grammar
/// accepts every such text; the value is given here as its bit pattern.
#[verifier::external_body]
pub(crate) fn lex_number<'a>(s: &'a str) -> (r: NumberToken<'a>)
    ensures
        match float_lex(s@) {
            FloatLex::Len(n) => r matches NumberToken::Parsed(rest, bits) && rest@ == s@.skip(n as int)
                && bits == nom_double_bits(s@),
            FloatLex::NoMatch => r is NoMatch,
            FloatLex::Failed => r is Failed,
        },
{
    match nom::number::complete::double::<&str, nom::error::Error<&str>>(s) {
        Ok((rest, value)) => NumberToken::Parsed(rest, value.to_bits()),
        Err(nom::Err::Failure(_)) => NumberToken::Failed,
        Err(_) => NumberToken::NoMatch,
    }
}

// ---------------------------------------------------------------------------
// Specification of the grammar, over positions in a character sequence.

pub open spec fn is_space(c: char) -> bool {
    c == ' ' || c == '\t' || c == '\r' || c == '\n'
}

/// Where the body of a comment that starts at `k` ends (the position of its
/// line ending, or the end of the text), or `None` when a carriage return
/// that is not followed by a line feed stops it.
pub open spec fn comment_end(s: Seq<char>, k: int) -> Option<int>
    decreases s.len() - k,
{
    if k < 0 || k >= s.len() {
        Some(s.len() as int)
    } else if s[k] == '\n' {
        Some(k)
    } else if s[k] == '\r' {
        if k + 1 < s.len() && s[k + 1] == '\n' {
            Some(k)
        } else {
            None
        }
    } else {
        comment_end(s, k + 1)
    }
}

pub proof fn lemma_comment_end(s: Seq<char>, k: int)
    requires
        0 <= k <= s.len(),
    ensures
        comment_end(s, k) matches Some(j) ==> k <= j <= s.len(),
    decreases s.len() - k,
{
    if k < s.len() && s[k] != '\n' && s[k] != '\r' {
        lemma_comment_end(s, k + 1);
    }
}

/// The position after the whitespace and comments that start at `i`.
pub open spec fn skip_blank(s: Seq<char>, i: int) -> int
    decreases s.len() - i,
{
    if i < 0 || i >= s.len() {
        i
    } else if is_space(s[i]) {
        skip_blank(s, i + 1)
    } else if s[i] == ';' {
        match comment_end(s, i + 1) {
            Some(j) => if i < j <= s.len() { skip_blank(s, j) } else { i },
            None => i,
        }
    } else {
        i
    }
}

pub proof fn lemma_skip_blank(s: Seq<char>, i: int)
    requires
        0 <= i <= s.len(),
    ensures
        i <= skip_blank(s, i) <= s.len(),
    decreases s.len() - i,
{
    if i < s.len() {
        if is_space(s[i]) {
            lemma_skip_blank(s, i + 1);
        } else if s[i] == ';' {
            lemma_comment_end(s, i + 1);
            if let Some(j) = comment_end(s, i + 1) {
                if i < j <= s.len() {
                    lemma_skip_blank(s, j);
                }
            }
        }
    }
}

/// At least one whitespace run or comment at `i`: the position after all of them.
pub open spec fn skip_blank1(s: Seq<char>, i: int) -> Option<int> {
    if 0 <= i < s.len() && (is_space(s[i]) || (s[i] == ';' && comment_end(s, i + 1) is Some)) {
        Some(skip_blank(s, i))
    } else {
        None
    }
}

pub open spec fn is_symbol_punct(c: char) -> bool {
    c == '!' || c == '$' || c == '%' || c == '&' || c == '*' || c == '/' || c == ':' || c == '<'
        || c == '=' || c == '>' || c == '?' || c == '@' || c == '^' || c == '_' || c == '~'
        || c == '+' || c == '-'
}

pub open spec fn symbol_initial(c: char) -> bool {
    char_is_alphabetic(c) || is_symbol_punct(c)
}

pub open spec fn symbol_subsequent(c: char) -> bool {
    char_is_alphanumeric(c) || is_symbol_punct(c) || c == '.' || c == '#'
}

/// The end of the run of symbol characters that starts at `j`.
pub open spec fn symbol_end(s: Seq<char>, j: int) -> int
    decreases s.len() - j,
{
    if 0 <= j < s.len() && symbol_subsequent(s[j]) {
        symbol_end(s, j + 1)
    } else {
        j
    }
}

/// The character that an escape `\c` inside a string literal stands for.
pub open spec fn escape_char(c: char) -> Option<char> {
    if c == '"' {
        Some('"')
    } else if c == '\\' {
        Some('\\')
    } else if c == 'n' {
        Some('\n')
    } else if c == 'r' {
        Some('\r')
    } else if c == 't' {
        Some('\t')
    } else {
        None
    }
}

/// The body of a string literal from `j`: where it stops and the characters
/// it stands for, appended to `acc`.
pub open spec fn string_body(s: Seq<char>, j: int, acc: Seq<char>) -> (int, Seq<char>)
    decreases s.len() - j,
{
    if j < 0 || j >= s.len() {
        (j, acc)
    } else if s[j] != '"' && s[j] != '\\' {
        string_body(s, j + 1, acc.push(s[j]))
    } else if s[j] == '\\' && j + 1 < s.len() && escape_char(s[j + 1]) is Some {
        string_body(s, j + 2, acc.push(escape_char(s[j + 1])->0))
    } else {
        (j, acc)
    }
}

/// The outcome of parsing one expression at a position.
pub enum SParse {
    /// An expression, and the position after it.
    Parsed(int, SExpr),
    /// No expression starts here.
    NoMatch,
    /// A number with a broken exponent starts at this position.
    Failed(int),
}

pub open spec fn matches_word(s: Seq<char>, i: int, w: Seq<char>) -> bool {
    0 <= i && i + w.len() <= s.len() && s.subrange(i, i + w.len()) == w
}

pub open spec fn word_true() -> Seq<char> { seq!['t', 'r', 'u', 'e'] }
pub open spec fn word_false() -> Seq<char> { seq!['f', 'a', 'l', 's', 'e'] }
pub open spec fn word_nil() -> Seq<char> { seq!['n', 'i', 'l'] }
pub open spec fn word_quote() -> Seq<char> { seq!['q', 'u', 'o', 't', 'e'] }

pub open spec fn p_number(s: Seq<char>, i: int) -> SParse {
    let rest = s.subrange(i, s.len() as int);
    match float_lex(rest) {
        FloatLex::Len(n) => SParse::Parsed(i + n, SExpr::Number(nom_double_bits(rest))),
        FloatLex::NoMatch => SParse::NoMatch,
        FloatLex::Failed => SParse::Failed(i),
    }
}

pub open spec fn p_string(s: Seq<char>, i: int) -> SParse {
    if 0 <= i < s.len() && s[i] == '"' {
        let (j, t) = string_body(s, i + 1, Seq::empty());
        if 0 <= j < s.len() && s[j] == '"' {
            SParse::Parsed(j + 1, SExpr::Str(t))
        } else {
            SParse::NoMatch
        }
    } else {
        SParse::NoMatch
    }
}

pub open spec fn p_symbol(s: Seq<char>, i: int) -> SParse {
    if 0 <= i < s.len() && symbol_initial(s[i]) {
        let j = symbol_end(s, i + 1);
        SParse::Parsed(j, SExpr::Symbol(s.subrange(i, j)))
    } else {
        SParse::NoMatch
    }
}

/// One expression at `i` (no leading whitespace is skipped).
pub open spec fn p_expr(s: Seq<char>, i: int) -> SParse
    decreases s.len() - i, 3nat,
{
    if i < 0 || i > s.len() {
        SParse::NoMatch
    } else {
        match p_number(s, i) {
            SParse::NoMatch => if matches_word(s, i, word_true()) {
                SParse::Parsed(i + 4, SExpr::Bool(true))
            } else if matches_word(s, i, word_false()) {
                SParse::Parsed(i + 5, SExpr::Bool(false))
            } else if matches_word(s, i, word_nil()) {
                SParse::Parsed(i + 3, SExpr::Nil)
            } else {
                match p_quoted(s, i) {
                    SParse::NoMatch => match p_string(s, i) {
                        SParse::NoMatch => match p_list(s, i) {
                            SParse::NoMatch => p_symbol(s, i),
                            other => other,
                        },
                        other => other,
                    },
                    other => other,
                }
            },
            other => other,
        }
    }
}

/// A quoted expression `'e` at `i`, read as `(quote e)`.
pub open spec fn p_quoted(s: Seq<char>, i: int) -> SParse
    decreases s.len() - i, 2nat,
{
    if 0 <= i < s.len() && s[i] == '\'' {
        let j = skip_blank(s, i + 1);
        if i < j <= s.len() {
            match p_expr(s, j) {
                SParse::Parsed(k, e) => SParse::Parsed(
                    k,
                    SExpr::List(seq![SExpr::Symbol(word_quote()), e]),
                ),
                other => other,
            }
        } else {
            SParse::NoMatch
        }
    } else {
        SParse::NoMatch
    }
}

/// A list at `i`: `(`, elements separated by whitespace or comments, `)`.
pub open spec fn p_list(s: Seq<char>, i: int) -> SParse
    decreases s.len() - i, 2nat,
{
    if 0 <= i < s.len() && s[i] == '(' {
        let j = skip_blank(s, i + 1);
        if i < j <= s.len() {
            match p_expr(s, j) {
                SParse::Failed(p) => SParse::Failed(p),
                SParse::NoMatch => list_close(s, i + 1, Seq::empty()),
                SParse::Parsed(k, e) => if i < k <= s.len() {
                    list_rest(s, k, seq![e])
                } else {
                    SParse::NoMatch
                },
            }
        } else {
            SParse::NoMatch
        }
    } else {
        SParse::NoMatch
    }
}

/// The elements after the first, from `j`, with `acc` read so far.
pub open spec fn list_rest(s: Seq<char>, j: int, acc: Seq<SExpr>) -> SParse
    decreases s.len() - j, 1nat,
{
    match skip_blank1(s, j) {
        None => list_close(s, j, acc),
        Some(k) => if j < k <= s.len() {
            match p_expr(s, k) {
                SParse::Failed(p) => SParse::Failed(p),
                SParse::NoMatch => list_close(s, j, acc),
                SParse::Parsed(m, e) => if j < m <= s.len() {
                    list_rest(s, m, acc.push(e))
                } else {
                    SParse::NoMatch
                },
            }
        } else {
            SParse::NoMatch
        },
    }
}

/// Optional whitespace and the closing parenthesis of a list.
pub open spec fn list_close(s: Seq<char>, j: int, acc: Seq<SExpr>) -> SParse {
    let k = skip_blank(s, j);
    if 0 <= k < s.len() && s[k] == ')' {
        SParse::Parsed(k + 1, SExpr::List(acc))
    } else {
        SParse::NoMatch
    }
}

/// The outcome of reading at most one expression from a text.
pub enum SReadOutcome {
    /// The position of the rest of the text, and the expression if one was found.
    Read(int, Option<SExpr>),
    /// A number with a broken exponent starts at this position.
    Failed(int),
}

/// Reading one expression with the whitespace and comments around it.
pub open spec fn spec_parse_expr(s: Seq<char>) -> SReadOutcome {
    let i = skip_blank(s, 0);
    match p_expr(s, i) {
        SParse::Parsed(j, e) => SReadOutcome::Read(skip_blank(s, j), Some(e)),
        SParse::NoMatch => SReadOutcome::Read(i, None),
        SParse::Failed(p) => SReadOutcome::Failed(p),
    }
}

// ---------------------------------------------------------------------------
// The reader itself.

/// The outcome of parsing one expression at a position.
pub enum ExprParse {
    Parsed(usize, Expr),
    NoMatch,
    Failed(usize),
}

impl ExprParse {
    pub open spec fn view_parse(&self) -> SParse {
        match self {
            ExprParse::Parsed(j, e) => SParse::Parsed(*j as int, e@),
            ExprParse::NoMatch => SParse::NoMatch,
            ExprParse::Failed(p) => SParse::Failed(*p as int),
        }
    }
}

fn comment_end_at(cs: &Vec<char>, k: usize) -> (r: Option<usize>)
    requires
        k <= cs@.len(),
    ensures
        match r {
            Some(j) => comment_end(cs@, k as int) == Some(j as int),
            None => comment_end(cs@, k as int) is None,
        },
{
    let mut j = k;
    while j < cs.len()
        invariant
            k <= j <= cs@.len(),
            comment_end(cs@, j as int) == comment_end(cs@, k as int),
        decreases cs.len() - j,
    {
        if cs[j] == '\n' {
            return Some(j);
        } else if cs[j] == '\r' {
            if j + 1 < cs.len() && cs[j + 1] == '\n' {
                return Some(j);
            } else {
                return None;
            }
        }
        j = j + 1;
    }
    Some(cs.len())
}

fn is_space_char(c: char) -> (b: bool)
    ensures
        b == is_space(c),
{
    c == ' ' || c == '\t' || c == '\r' || c == '\n'
}

fn skip_blank_at(cs: &Vec<char>, i: usize) -> (r: usize)
    requires
        i <= cs@.len(),
    ensures
        r as int == skip_blank(cs@, i as int),
        i <= r <= cs@.len(),
{
    let mut j = i;
    proof { lemma_skip_blank(cs@, i as int); }
    while j < cs.len()
        invariant
            i <= j <= cs@.len(),
            skip_blank(cs@, j as int) == skip_blank(cs@, i as int),
        decreases cs.len() - j,
    {
        if is_space_char(cs[j]) {
            j = j + 1;
        } else if cs[j] == ';' {
            proof { lemma_comment_end(cs@, j + 1); }
            match comment_end_at(cs, j + 1) {
                Some(e) => {
                    if j < e {
                        j = e;
                    } else {
                        return j;
                    }
                },
                None => {
                    return j;
                },
            }
        } else {
            return j;
        }
    }
    j
}

fn skip_blank1_at(cs: &Vec<char>, i: usize) -> (r: Option<usize>)
    requires
        i <= cs@.len(),
    ensures
        match r {
            Some(k) => skip_blank1(cs@, i as int) == Some(k as int),
            None => skip_blank1(cs@, i as int) is None,
        },
        r matches Some(k) ==> i <= k <= cs@.len(),
{
    if i < cs.len() {
        let c = cs[i];
        if is_space_char(c) {
            return Some(skip_blank_at(cs, i));
        }
        if c == ';' {
            if comment_end_at(cs, i + 1).is_some() {
                return Some(skip_blank_at(cs, i));
            }
        }
    }
    None
}

fn is_symbol_punct_char(c: char) -> (b: bool)
    ensures
        b == is_symbol_punct(c),
{
    c == '!' || c == '$' || c == '%' || c == '&' || c == '*' || c == '/' || c == ':' || c == '<'
        || c == '=' || c == '>' || c == '?' || c == '@' || c == '^' || c == '_' || c == '~'
        || c == '+' || c == '-'
}

fn parse_symbol_at(cs: &Vec<char>, i: usize) -> (r: ExprParse)
    requires
        i <= cs@.len(),
    ensures
        r.view_parse() == p_symbol(cs@, i as int),
        r matches ExprParse::Parsed(j, _) ==> i < j <= cs@.len(),
        r matches ExprParse::Failed(p) ==> p <= cs@.len(),
{
    if i < cs.len() && (is_alphabetic(cs[i]) || is_symbol_punct_char(cs[i])) {
        let mut j = i + 1;
        while j < cs.len() && (is_alphanumeric(cs[j]) || is_symbol_punct_char(cs[j]) || cs[j] == '.' || cs[j] == '#')
            invariant
                i < j <= cs@.len(),
                symbol_end(cs@, j as int) == symbol_end(cs@, (i + 1) as int),
            decreases cs.len() - j,
        {
            j = j + 1;
        }
        let name = string_from_chars(cs, i, j);
        ExprParse::Parsed(j, Expr::Symbol(name))
    } else {
        ExprParse::NoMatch
    }
}

fn escape_char_exec(c: char) -> (r: Option<char>)
    ensures
        r == escape_char(c),
{
    if c == '"' {
        Some('"')
    } else if c == '\\' {
        Some('\\')
    } else if c == 'n' {
        Some('\n')
    } else if c == 'r' {
        Some('\r')
    } else if c == 't' {
        Some('\t')
    } else {
        None
    }
}

fn parse_string_at(cs: &Vec<char>, i: usize) -> (r: ExprParse)
    requires
        i <= cs@.len(),
    ensures
        r.view_parse() == p_string(cs@, i as int),
        r matches ExprParse::Parsed(j, _) ==> i < j <= cs@.len(),
        r matches ExprParse::Failed(p) ==> p <= cs@.len(),
{
    if i < cs.len() && cs[i] == '"' {
        let mut j = i + 1;
        let mut acc = String::new();
        let mut stop = false;
        while !stop && j < cs.len()
            invariant
                i < j <= cs@.len(),
                string_body(cs@, j as int, acc@) == string_body(cs@, (i + 1) as int, Seq::empty()),
                stop ==> string_body(cs@, j as int, acc@) == (j as int, acc@),
            decreases cs.len() - j, if stop { 0nat } else { 1nat },
        {
            let c = cs[j];
            if c != '"' && c != '\\' {
                crate::text::push_char(&mut acc, c);
                j = j + 1;
            } else if c == '\\' && j + 1 < cs.len() {
                match escape_char_exec(cs[j + 1]) {
                    Some(e) => {
                        crate::text::push_char(&mut acc, e);
                        j = j + 2;
                    },
                    None => {
                        stop = true;
                    },
                }
            } else {
                stop = true;
            }
        }
        if j < cs.len() && cs[j] == '"' {
            ExprParse::Parsed(j + 1, Expr::String(acc))
        } else {
            ExprParse::NoMatch
        }
    } else {
        ExprParse::NoMatch
    }
}

fn parse_number_at(input: &str, cs: &Vec<char>, i: usize) -> (r: ExprParse)
    requires
        i <= cs@.len(),
        input@ == cs@,
    ensures
        r.view_parse() == p_number(cs@, i as int),
        r matches ExprParse::Parsed(j, _) ==> i < j <= cs@.len(),
        r matches ExprParse::Failed(p) ==> p <= cs@.len(),
{
    let sub = input.substring_char(i, cs.len());
    proof {
        lemma_float_lex_len(sub@);
    }
    match lex_number(sub) {
        NumberToken::Parsed(rest, bits) => {
            let n = rest.unicode_len();
            ExprParse::Parsed(cs.len() - n, Expr::Number(bits))
        },
        NumberToken::NoMatch => ExprParse::NoMatch,
        NumberToken::Failed => ExprParse::Failed(i),
    }
}

fn matches_word_at(cs: &Vec<char>, i: usize, w: &str) -> (b: bool)
    requires
        i <= cs@.len(),
        w@.len() <= 8,
    ensures
        b == matches_word(cs@, i as int, w@),
{
    let n = w.unicode_len();
    let len = cs.len();
    if n > len - i {
        return false;
    }
    let mut k: usize = 0;
    while k < n
        invariant
            k <= n == w@.len(),
            len == cs@.len(),
            i + n <= cs@.len(),
            forall|t: int| 0 <= t < k ==> cs@[i + t] == w@[t],
        decreases n - k,
    {
        assert(i + k < cs@.len());
        if cs[i + k] != w.get_char(k) {
            proof {
                assert(cs@.subrange(i as int, i + n)[k as int] != w@[k as int]);
            }
            return false;
        }
        k = k + 1;
    }
    assert(cs@.subrange(i as int, i + n) =~= w@);
    true
}

/// Parses one expression starting exactly at position `i` of `cs`.
fn parse_expr_at(input: &str, cs: &Vec<char>, i: usize) -> (r: ExprParse)
    requires
        i <= cs@.len(),
        input@ == cs@,
    ensures
        r.view_parse() == p_expr(cs@, i as int),
        r matches ExprParse::Parsed(j, _) ==> i < j <= cs@.len(),
        r matches ExprParse::Failed(p) ==> p <= cs@.len(),
    decreases cs@.len() - i, 3nat,
{
    let _len = cs.len();
    let num = parse_number_at(input, cs, i);
    match num {
        ExprParse::NoMatch => {},
        _ => { return num; },
    }
    proof {
        reveal_strlit("true");
        reveal_strlit("false");
        reveal_strlit("nil");
        assert("true"@ =~= word_true());
        assert("false"@ =~= word_false());
        assert("nil"@ =~= word_nil());
    }
    let is_true = matches_word_at(cs, i, "true");
    assert(is_true ==> i + 4 <= cs@.len());
    if is_true {
        return ExprParse::Parsed(i + 4, Expr::Bool(true));
    }
    let is_false = matches_word_at(cs, i, "false");
    if is_false {
        return ExprParse::Parsed(i + 5, Expr::Bool(false));
    }
    let is_nil = matches_word_at(cs, i, "nil");
    if is_nil {
        return ExprParse::Parsed(i + 3, Expr::Nil);
    }
    let q = parse_quoted_at(input, cs, i);
    match q {
        ExprParse::NoMatch => {},
        _ => { return q; },
    }
    let st = parse_string_at(cs, i);
    match st {
        ExprParse::NoMatch => {},
        _ => { return st; },
    }
    let l = parse_list_at(input, cs, i);
    match l {
        ExprParse::NoMatch => {},
        _ => { return l; },
    }
    parse_symbol_at(cs, i)
}

fn quote_symbol() -> (r: Expr)
    ensures
        r@ == SExpr::Symbol(word_quote()),
{
    let s = String::from_str("quote");
    proof { reveal_strlit("quote"); }
    assert(s@ =~= word_quote());
    Expr::Symbol(s)
}

fn parse_quoted_at(input: &str, cs: &Vec<char>, i: usize) -> (r: ExprParse)
    requires
        i <= cs@.len(),
        input@ == cs@,
    ensures
        r.view_parse() == p_quoted(cs@, i as int),
        r matches ExprParse::Parsed(j, _) ==> i < j <= cs@.len(),
        r matches ExprParse::Failed(p) ==> p <= cs@.len(),
    decreases cs@.len() - i, 2nat,
{
    if i < cs.len() && cs[i] == '\'' {
        let j = skip_blank_at(cs, i + 1);
        match parse_expr_at(input, cs, j) {
            ExprParse::Parsed(k, e) => {
                let mut items: Vec<Expr> = Vec::new();
                items.push(quote_symbol());
                items.push(e);
                proof {
                    crate::ast::lemma_view_exprs(items@);
                    assert(crate::ast::view_exprs(items@) =~= seq![SExpr::Symbol(word_quote()), items@[1]@]);
                }
                ExprParse::Parsed(k, Expr::List(items))
            },
            other => other,
        }
    } else {
        ExprParse::NoMatch
    }
}

fn list_close_at(cs: &Vec<char>, j: usize, acc: Vec<Expr>) -> (r: ExprParse)
    requires
        j <= cs@.len(),
    ensures
        r.view_parse() == list_close(cs@, j as int, crate::ast::view_exprs(acc@)),
        r matches ExprParse::Parsed(m, _) ==> j < m <= cs@.len(),
        r matches ExprParse::Failed(p) ==> p <= cs@.len(),
{
    let k = skip_blank_at(cs, j);
    if k < cs.len() && cs[k] == ')' {
        ExprParse::Parsed(k + 1, Expr::List(acc))
    } else {
        ExprParse::NoMatch
    }
}

proof fn lemma_view_exprs_push(acc: Seq<Expr>, e: Expr)
    ensures
        crate::ast::view_exprs(acc.push(e)) == crate::ast::view_exprs(acc).push(e@),
{
    assert(acc.push(e).drop_last() =~= acc);
}

fn parse_list_at(input: &str, cs: &Vec<char>, i: usize) -> (r: ExprParse)
    requires
        i <= cs@.len(),
        input@ == cs@,
    ensures
        r.view_parse() == p_list(cs@, i as int),
        r matches ExprParse::Parsed(j, _) ==> i < j <= cs@.len(),
        r matches ExprParse::Failed(p) ==> p <= cs@.len(),
    decreases cs@.len() - i, 2nat,
{
    if !(i < cs.len() && cs[i] == '(') {
        return ExprParse::NoMatch;
    }
    let j0 = skip_blank_at(cs, i + 1);
    let first = parse_expr_at(input, cs, j0);
    let mut acc: Vec<Expr> = Vec::new();
    let mut j: usize;
    match first {
        ExprParse::Failed(p) => { return ExprParse::Failed(p); },
        ExprParse::NoMatch => { return list_close_at(cs, i + 1, acc); },
        ExprParse::Parsed(k, e) => {
            proof { lemma_view_exprs_push(acc@, e); }
            acc.push(e);
            j = k;
            assert(crate::ast::view_exprs(acc@) =~= seq![e@]);
        },
    }
    let ghost target = p_list(cs@, i as int);
    while true
        invariant
            i < j <= cs@.len(),
            input@ == cs@,
            target == p_list(cs@, i as int),
            list_rest(cs@, j as int, crate::ast::view_exprs(acc@)) == target,
        decreases cs@.len() - j,
    {
        match skip_blank1_at(cs, j) {
            None => { return list_close_at(cs, j, acc); },
            Some(k) => {
                if !(j < k) {
                    return ExprParse::NoMatch;
                }
                match parse_expr_at(input, cs, k) {
                    ExprParse::Failed(p) => { return ExprParse::Failed(p); },
                    ExprParse::NoMatch => { return list_close_at(cs, j, acc); },
                    ExprParse::Parsed(m, e) => {
                        proof { lemma_view_exprs_push(acc@, e); }
                        acc.push(e);
                        j = m;
                    },
                }
            },
        }
    }
    ExprParse::NoMatch
}

/// The failure of the reader: a number with an exponent marker and no
/// exponent digits starts at `input` (the rest of the text from there).
#[derive(Debug, PartialEq, Eq)]
pub struct ParseError {
    pub input: String,
}

pub open spec fn view_opt_expr(o: Option<Expr>) -> Option<SExpr> {
    match o {
        Some(e) => Some(e@),
        None => None,
    }
}

/// Reads one expression from `input`, skipping whitespace and comments around
/// it. Returns the rest of the input and the expression, if one starts there.
pub fn parse_expr(input: &str) -> (r: Result<(&str, Option<Expr>), ParseError>)
    ensures
        match spec_parse_expr(input@) {
            SReadOutcome::Read(p, oe) => r matches Ok((rest, o)) && rest@ == input@.subrange(
                p,
                input@.len() as int,
            ) && view_opt_expr(o) == oe && 0 <= p <= input@.len(),
            SReadOutcome::Failed(p) => r matches Err(e) && e.input@ == input@.subrange(
                p,
                input@.len() as int,
            ) && 0 <= p <= input@.len(),
        },
{
    let cs = chars_of(input);
    let i = skip_blank_at(&cs, 0);
    match parse_expr_at(input, &cs, i) {
        ExprParse::Parsed(j, e) => {
            let k = skip_blank_at(&cs, j);
            Ok((input.substring_char(k, cs.len()), Some(e)))
        },
        ExprParse::NoMatch => Ok((input.substring_char(i, cs.len()), None)),
        ExprParse::Failed(p) => Err(ParseError { input: input.substring_char(p, cs.len()).to_owned() }),
    }
}

} // verus!
