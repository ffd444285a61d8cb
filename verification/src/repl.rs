//! The logic of the interactive prompt: whether an input line is complete,
//! what is done with a line that was read,
//! and how a line is split into tokens and coloured.
use vstd::prelude::*;
use owo_colors::{OwoColorize, Style};
use regex::Regex;
use vstd::string::StringSliceAdditionalSpecFns;
use crate::text::{chars_of, string_from_chars};
use crate::builtins::{trim_chars, trim_string};

verus! {

// ---------------------------------------------------------------------------
// Completeness of an input

/// What the scan of an input has seen so far.
pub struct ScanState {
    pub open: nat,
    pub close: nat,
    pub in_string: bool,
    pub in_comment: bool,
}

/// One character of the scan: a comment runs to the end of its line; a
/// double quote opens or closes a string; parentheses outside strings and
/// comments are counted.
pub open spec fn scan_step(st: ScanState, c: char) -> ScanState {
    if st.in_comment {
        if c == '\n' { ScanState { in_comment: false, ..st } } else { st }
    } else if c == ';' && !st.in_string {
        ScanState { in_comment: true, ..st }
    } else if c == '"' {
        ScanState { in_string: !st.in_string, ..st }
    } else if c == '(' && !st.in_string {
        ScanState { open: st.open + 1, ..st }
    } else if c == ')' && !st.in_string {
        ScanState { close: st.close + 1, ..st }
    } else {
        st
    }
}

/// The scan of all of `s`.
pub open spec fn scan(s: Seq<char>) -> ScanState
    decreases s.len(),
{
    if s.len() == 0 {
        ScanState { open: 0, close: 0, in_string: false, in_comment: false }
    } else {
        scan_step(scan(s.drop_last()), s.last())
    }
}

/// An input is complete unless a string is left open or more parentheses
/// are opened than closed.
pub open spec fn is_complete(s: Seq<char>) -> bool {
    !scan(s).in_string && scan(s).open <= scan(s).close
}

/// Whether the prompt can hand `input` to the evaluator, or must read more lines.
pub fn input_is_complete(input: &str) -> (r: bool)
    ensures
        r == is_complete(input@),
{
    let cs = chars_of(input);
    let mut open: usize = 0;
    let mut close: usize = 0;
    let mut in_string = false;
    let mut in_comment = false;
    let mut i: usize = 0;
    while i < cs.len()
        invariant
            i <= cs@.len(),
            cs@ == input@,
            open <= i,
            close <= i,
            scan(cs@.take(i as int)) == (ScanState { open: open as nat, close: close as nat, in_string, in_comment }),
        decreases cs@.len() - i,
    {
        let c = cs[i];
        assert(cs@.take(i + 1).drop_last() =~= cs@.take(i as int));
        if in_comment {
            if c == '\n' {
                in_comment = false;
            }
        } else if c == ';' && !in_string {
            in_comment = true;
        } else if c == '"' {
            in_string = !in_string;
        } else if c == '(' && !in_string {
            open = open + 1;
        } else if c == ')' && !in_string {
            close = close + 1;
        }
        i = i + 1;
    }
    assert(cs@.take(cs@.len() as int) =~= cs@);
    !in_string && open <= close
}

// ---------------------------------------------------------------------------
// One line at the prompt

/// What the prompt does with a line it has read.
pub enum ReplAction {
    /// The line is blank: nothing is evaluated and the prompt keeps its number.
    Skip,
    /// The line asks to leave the prompt.
    Exit,
    /// The line, trimmed, is to be evaluated; the prompt's number goes up.
    Evaluate(String),
}

/// The commands that leave the prompt: `.exit` and `(exit)`.
pub open spec fn is_exit_command(s: Seq<char>) -> bool {
    s == seq!['.', 'e', 'x', 'i', 't'] || s == seq!['(', 'e', 'x', 'i', 't', ')']
}

/// The number of the next prompt after a line is evaluated, held at `u64::MAX`.
pub open spec fn next_line_number(n: u64) -> u64 {
    if n < u64::MAX { (n + 1) as u64 } else { u64::MAX }
}

/// Decides what the prompt does with `line`, read at prompt number
/// `line_number`: blank lines are skipped, `.exit` and `(exit)` leave, and
/// anything else is evaluated with surrounding whitespace removed. Returns
/// the action and the number of the next prompt.
pub fn repl_step(line: &str, line_number: u64) -> (r: (ReplAction, u64))
    ensures
        trim_chars(line@).len() == 0 ==> r.0 is Skip && r.1 == line_number,
        trim_chars(line@).len() > 0 && is_exit_command(trim_chars(line@)) ==> r.0 is Exit && r.1 == line_number,
        trim_chars(line@).len() > 0 && !is_exit_command(trim_chars(line@)) ==> {
            &&& r.0 matches ReplAction::Evaluate(s) && s@ == trim_chars(line@)
            &&& r.1 == next_line_number(line_number)
        },
{
    let t = trim_string(line);
    let ts = t.as_str();
    let n = ts.unicode_len();
    if n == 0 {
        return (ReplAction::Skip, line_number);
    }
    let exit = (n == 5 && ts.get_char(0) == '.' && ts.get_char(1) == 'e' && ts.get_char(2) == 'x'
        && ts.get_char(3) == 'i' && ts.get_char(4) == 't')
        || (n == 6 && ts.get_char(0) == '(' && ts.get_char(1) == 'e' && ts.get_char(2) == 'x'
        && ts.get_char(3) == 'i' && ts.get_char(4) == 't' && ts.get_char(5) == ')');
    proof {
        let a = seq!['.', 'e', 'x', 'i', 't'];
        let b = seq!['(', 'e', 'x', 'i', 't', ')'];
        if exit {
            if n == 5 {
                assert(ts@ =~= a);
            } else {
                assert(ts@ =~= b);
            }
        } else {
            if ts@ == a {
                assert(ts@[0] == a[0] && ts@[1] == a[1] && ts@[2] == a[2] && ts@[3] == a[3] && ts@[4] == a[4]);
            }
            if ts@ == b {
                assert(ts@[0] == b[0] && ts@[1] == b[1] && ts@[2] == b[2] && ts@[3] == b[3] && ts@[4] == b[4]
                    && ts@[5] == b[5]);
            }
        }
    }
    if exit {
        (ReplAction::Exit, line_number)
    } else {
        let next = if line_number < u64::MAX { line_number + 1 } else { u64::MAX };
        (ReplAction::Evaluate(t), next)
    }
}

// ---------------------------------------------------------------------------
// Highlighting

/// The classes of tokens that are coloured, in the order they are tried.
#[derive(Debug, Clone, Copy, PartialEq, Eq)]
pub enum TokenClass {
    Str,
    Comment,
    Number,
    Keyword,
    BoolNil,
    Paren,
}

/// A piece of a line: coloured as its class, or left as it is.
pub struct Token {
    pub class: Option<TokenClass>,
    pub text: String,
}

/// The compiled regular expressions of the regex crate, held as they are.
#[verifier::external_type_specification]
#[verifier::external_body]
pub struct ExRegex(Regex);

/// Whether `regex::Regex::new` accepts `pattern`.
pub uninterp spec fn regex_compiles(pattern: Seq<char>) -> bool;

/// What `regex::Regex::find_at` returns for the regular expression compiled
/// from `pattern`, searching `hay` from byte `start`: the byte range of the
/// leftmost-first match, if there is one.
pub uninterp spec fn regex_find_at(pattern: Seq<char>, hay: Seq<char>, start: usize) -> Option<(usize, usize)>;

/// A compiled regular expression beside the text it was compiled from. Only
/// `compile` makes one, so `re` is always the compiled form of `source`.
pub struct Pattern {
    source: String,
    re: Regex,
}

impl Pattern {
    /// The text the expression was compiled from.
    pub closed spec fn source(&self) -> Seq<char> {
        self.source@
    }
}

/// Calls `regex::Regex::new` on `pattern` and keeps the text beside the
/// result: `None` exactly when the regex crate refuses the pattern.
#[verifier::external_body]
fn compile(pattern: &str) -> (r: Option<Pattern>)
    ensures
        r is Some <==> regex_compiles(pattern@),
        r matches Some(p) ==> p.source() == pattern@,
{
    match Regex::new(pattern) {
        Ok(re) => Some(Pattern { source: pattern.to_string(), re }),
        Err(_) => None,
    }
}

/// Calls `regex::Regex::find_at`: the byte range of the leftmost-first match
/// in `hay` that starts at or after byte `start`. The regex documentation
/// gives the range as lying in `start..hay.len()`, and the call panics when
/// `start` is past the end, which `requires` rules out.
#[verifier::external_body]
fn find_at(p: &Pattern, hay: &str, start: usize) -> (r: Option<(usize, usize)>)
    requires
        start <= hay.spec_bytes().len(),
    ensures
        r == regex_find_at(p.source(), hay@, start),
        r matches Some((a, b)) ==> start <= a <= b <= hay.spec_bytes().len(),
{
    match p.re.find_at(hay, start) {
        Some(m) => Some((m.start(), m.end())),
        None => None,
    }
}

/// `text` as owo-colors writes it under a style: the escape sequence that
/// selects the display codes `codes`, the text, and the one that resets
/// them (`ESC [ codes m`, then `text`, then `ESC [ 0 m`).
pub open spec fn ansi_painted(codes: Seq<char>, text: Seq<char>) -> Seq<char> {
    seq!['\x1b', '['] + codes + seq!['m'] + text + seq!['\x1b', '[', '0', 'm']
}

/// Where the escape sequence at the start of `s` ends, looking from `k`:
/// just after the first `m`, or at the end of `s`.
pub open spec fn escape_end(s: Seq<char>, k: int) -> int
    decreases s.len() - k,
{
    if k < 0 || k >= s.len() {
        s.len() as int
    } else if s[k] == 'm' {
        k + 1
    } else {
        escape_end(s, k + 1)
    }
}

pub proof fn lemma_escape_end_bounds(s: Seq<char>, k: int)
    requires
        0 <= k <= s.len(),
    ensures
        k <= escape_end(s, k) <= s.len(),
    decreases s.len() - k,
{
    if k < s.len() && s[k] != 'm' {
        lemma_escape_end_bounds(s, k + 1);
    }
}

/// `s` with its escape sequences (an ESC up to the next `m`) taken out.
pub open spec fn strip_escapes(s: Seq<char>) -> Seq<char>
    decreases s.len(),
{
    if s.len() == 0 {
        Seq::empty()
    } else if s[0] == '\x1b' {
        proof {
            lemma_escape_end_bounds(s, 1);
        }
        strip_escapes(s.skip(escape_end(s, 1)))
    } else {
        seq![s[0]] + strip_escapes(s.skip(1))
    }
}

/// Whether `s` holds no ESC character.
pub open spec fn has_no_escape(s: Seq<char>) -> bool {
    forall|i: int| 0 <= i < s.len() ==> s[i] != '\x1b'
}

/// The display codes that each class is shown with: green (32), the grey
/// true colour (128, 128, 128), magenta (35), cyan (36) in bold (1),
/// yellow (33) and blue (34).
pub open spec fn class_codes(c: TokenClass) -> Seq<char> {
    match c {
        TokenClass::Str => seq!['3', '2'],
        TokenClass::Comment => seq!['3', '8', ';', '2', ';', '1', '2', '8', ';', '1', '2', '8', ';', '1', '2', '8'],
        TokenClass::Number => seq!['3', '5'],
        TokenClass::Keyword => seq!['3', '6', ';', '1'],
        TokenClass::BoolNil => seq!['3', '3'],
        TokenClass::Paren => seq!['3', '4'],
    }
}

/// The text of a string literal, in green.
pub open spec fn painted_string(text: Seq<char>) -> Seq<char> {
    ansi_painted(class_codes(TokenClass::Str), text)
}

/// The text of a comment, in grey.
pub open spec fn painted_comment(text: Seq<char>) -> Seq<char> {
    ansi_painted(class_codes(TokenClass::Comment), text)
}

/// The text of a number, in magenta.
pub open spec fn painted_number(text: Seq<char>) -> Seq<char> {
    ansi_painted(class_codes(TokenClass::Number), text)
}

/// The text of a keyword, in bold cyan.
pub open spec fn painted_keyword(text: Seq<char>) -> Seq<char> {
    ansi_painted(class_codes(TokenClass::Keyword), text)
}

/// The text of `true`, `false` or `nil`, in yellow.
pub open spec fn painted_bool_nil(text: Seq<char>) -> Seq<char> {
    ansi_painted(class_codes(TokenClass::BoolNil), text)
}

/// The text of a parenthesis or bracket, in blue.
pub open spec fn painted_paren(text: Seq<char>) -> Seq<char> {
    ansi_painted(class_codes(TokenClass::Paren), text)
}

/// Calls owo-colors' `style` with a green `Style` and formats the result:
/// its `Display` writes the style's prefix, the text and the reset.
#[verifier::external_body]
fn paint_string(text: &str) -> (r: String)
    ensures
        r@ == painted_string(text@),
{
    text.style(Style::new().green()).to_string()
}

/// Calls owo-colors' `style` with a grey true-colour `Style` and formats the result:
/// prefix, text and reset, as for `paint_string`.
#[verifier::external_body]
fn paint_comment(text: &str) -> (r: String)
    ensures
        r@ == painted_comment(text@),
{
    text.style(Style::new().truecolor(128, 128, 128)).to_string()
}

/// Calls owo-colors' `style` with a magenta `Style` and formats the result:
/// prefix, text and reset, as for `paint_string`.
#[verifier::external_body]
fn paint_number(text: &str) -> (r: String)
    ensures
        r@ == painted_number(text@),
{
    text.style(Style::new().magenta()).to_string()
}

/// Calls owo-colors' `style` with a bold cyan `Style` and formats the result:
/// prefix, text and reset, as for `paint_string`.
#[verifier::external_body]
fn paint_keyword(text: &str) -> (r: String)
    ensures
        r@ == painted_keyword(text@),
{
    text.style(Style::new().cyan().bold()).to_string()
}

/// Calls owo-colors' `style` with a yellow `Style` and formats the result:
/// prefix, text and reset, as for `paint_string`.
#[verifier::external_body]
fn paint_bool_nil(text: &str) -> (r: String)
    ensures
        r@ == painted_bool_nil(text@),
{
    text.style(Style::new().yellow()).to_string()
}

/// Calls owo-colors' `style` with a blue `Style` and formats the result:
/// prefix, text and reset, as for `paint_string`.
#[verifier::external_body]
fn paint_paren(text: &str) -> (r: String)
    ensures
        r@ == painted_paren(text@),
{
    text.style(Style::new().blue()).to_string()
}

/// The text of a token as it is shown.
pub open spec fn render(class: Option<TokenClass>, text: Seq<char>) -> Seq<char> {
    match class {
        None => text,
        Some(TokenClass::Str) => painted_string(text),
        Some(TokenClass::Comment) => painted_comment(text),
        Some(TokenClass::Number) => painted_number(text),
        Some(TokenClass::Keyword) => painted_keyword(text),
        Some(TokenClass::BoolNil) => painted_bool_nil(text),
        Some(TokenClass::Paren) => painted_paren(text),
    }
}

/// A token as a class and a text.
pub open spec fn token_views(ts: Seq<Token>) -> Seq<(Option<TokenClass>, Seq<char>)> {
    ts.map_values(|t: Token| (t.class, t.text@))
}

/// The texts of the tokens, one after another.
pub open spec fn joined_texts(ts: Seq<(Option<TokenClass>, Seq<char>)>) -> Seq<char>
    decreases ts.len(),
{
    if ts.len() == 0 { Seq::empty() } else { joined_texts(ts.drop_last()) + ts.last().1 }
}

/// The tokens as they are shown, one after another.
pub open spec fn rendered(ts: Seq<(Option<TokenClass>, Seq<char>)>) -> Seq<char>
    decreases ts.len(),
{
    if ts.len() == 0 {
        Seq::empty()
    } else {
        rendered(ts.drop_last()) + render(ts.last().0, ts.last().1)
    }
}

/// The number of bytes of the UTF-8 encoding of `c`.
pub open spec fn utf8_len(c: char) -> nat {
    if (c as u32) < 0x80 {
        1
    } else if (c as u32) < 0x800 {
        2
    } else if (c as u32) < 0x10000 {
        3
    } else {
        4
    }
}

fn utf8_width(c: char) -> (r: usize)
    ensures
        r == utf8_len(c),
{
    let u = c as u32;
    if u < 0x80 { 1 } else if u < 0x800 { 2 } else if u < 0x10000 { 3 } else { 4 }
}

/// Walking the characters of `cs` from index `k` at byte `p`, the index of
/// the character at which byte `b` is reached exactly, if it is reached at
/// a character boundary.
pub open spec fn match_end(cs: Seq<char>, k: int, p: int, b: int) -> Option<int>
    decreases cs.len() - k,
{
    if 0 <= k < cs.len() && p < b {
        if utf8_len(cs[k]) > b - p { None } else { match_end(cs, k + 1, p + utf8_len(cs[k]), b) }
    } else if p == b {
        Some(k)
    } else {
        None
    }
}

/// Whether a search result `found`, made at character `i` of `cs` and byte
/// `pos`, gives a token: the match must start at `pos`, end at a character
/// boundary and hold at least one character. The token then ends before
/// character `k`, at byte `b`.
pub open spec fn accepted(cs: Seq<char>, i: int, pos: usize, found: Option<(usize, usize)>) -> Option<(int, usize)> {
    match found {
        Some((a, b)) => if a == pos {
            match match_end(cs, i, pos as int, b as int) {
                Some(k) => if k > i { Some((k, b)) } else { None },
                None => None,
            }
        } else {
            None
        },
        None => None,
    }
}

/// The first of the rules from the `j`-th on whose search at byte `pos` of
/// `cs` gives a token starting at character `i`: its class, the index of
/// the character after it and its end byte.
pub open spec fn first_rule_match(rules: Seq<(Seq<char>, TokenClass)>, cs: Seq<char>, i: int, pos: usize, j: nat) -> Option<(TokenClass, int, usize)>
    decreases rules.len() - j,
{
    if j < rules.len() {
        match accepted(cs, i, pos, regex_find_at(rules[j as int].0, cs, pos)) {
            Some((k, b)) => Some((rules[j as int].1, k, b)),
            None => first_rule_match(rules, cs, i, pos, j + 1),
        }
    } else {
        None
    }
}

/// The token that starts at character `i` and byte `pos` of a line of
/// `nbytes` bytes, if a rule gives one there.
pub open spec fn match_here(rules: Seq<(Seq<char>, TokenClass)>, cs: Seq<char>, nbytes: nat, i: int, pos: usize) -> Option<(TokenClass, int, usize)> {
    if pos > nbytes { None } else { first_rule_match(rules, cs, i, pos, 0) }
}

/// The byte after a character left plain, held at `usize::MAX`.
pub open spec fn next_pos(pos: usize, c: char) -> usize {
    if pos + utf8_len(c) <= usize::MAX { (pos + utf8_len(c)) as usize } else { usize::MAX }
}

pub proof fn lemma_match_end_bounds(cs: Seq<char>, k: int, p: int, b: int)
    requires
        0 <= k <= cs.len(),
    ensures
        match_end(cs, k, p, b) matches Some(e) ==> k <= e <= cs.len(),
    decreases cs.len() - k,
{
    if 0 <= k < cs.len() && p < b && utf8_len(cs[k]) <= b - p {
        lemma_match_end_bounds(cs, k + 1, p + utf8_len(cs[k]), b);
    }
}

pub proof fn lemma_first_rule_match_advances(rules: Seq<(Seq<char>, TokenClass)>, cs: Seq<char>, i: int, pos: usize, j: nat)
    requires
        0 <= i <= cs.len(),
    ensures
        first_rule_match(rules, cs, i, pos, j) matches Some((c, k, b)) ==> i < k <= cs.len(),
    decreases rules.len() - j,
{
    if j < rules.len() {
        let found = regex_find_at(rules[j as int].0, cs, pos);
        if let Some((a, b)) = found {
            lemma_match_end_bounds(cs, i, pos as int, b as int);
        }
        lemma_first_rule_match_advances(rules, cs, i, pos, j + 1);
    }
}

/// The tokens of a line from character `i` and byte `pos` on: where a rule
/// gives a token, it takes the matched text in its class; elsewhere one
/// character is left plain.
pub open spec fn line_tokens(rules: Seq<(Seq<char>, TokenClass)>, cs: Seq<char>, nbytes: nat, i: int, pos: usize) -> Seq<(Option<TokenClass>, Seq<char>)>
    decreases cs.len() - i,
{
    if 0 <= i < cs.len() {
        match match_here(rules, cs, nbytes, i, pos) {
            Some((c, k, b)) => {
                proof {
                    lemma_first_rule_match_advances(rules, cs, i, pos, 0);
                }
                seq![(Some(c), cs.subrange(i, k))] + line_tokens(rules, cs, nbytes, k, b)
            },
            None => seq![(None, cs.subrange(i, i + 1))] + line_tokens(rules, cs, nbytes, i + 1, next_pos(pos, cs[i])),
        }
    } else {
        Seq::empty()
    }
}

/// The patterns of the token classes.
pub const STRING_PATTERN: &'static str = r#""([^"\\]|\\.)*""#;
pub const COMMENT_PATTERN: &'static str = r";.*";
pub const NUMBER_PATTERN: &'static str = r"-?\b\d+(\.\d*)?([eE][+-]?\d+)?\b";
pub const KEYWORD_PATTERN: &'static str = r"\b(let|if|fn|quote|require|define|lambda|set!|begin|cond|else|=>)\b";
pub const BOOLEAN_NIL_PATTERN: &'static str = r"\b(true|false|nil)\b";
pub const PARENS_PATTERN: &'static str = r"[(){}\[\]]";

/// The rules of the highlighter, in the order they are tried: the pattern
/// of each token class, strings first and parentheses last.
pub open spec fn all_rules() -> Seq<(Seq<char>, TokenClass)> {
    seq![
        (STRING_PATTERN@, TokenClass::Str),
        (COMMENT_PATTERN@, TokenClass::Comment),
        (NUMBER_PATTERN@, TokenClass::Number),
        (KEYWORD_PATTERN@, TokenClass::Keyword),
        (BOOLEAN_NIL_PATTERN@, TokenClass::BoolNil),
        (PARENS_PATTERN@, TokenClass::Paren),
    ]
}

/// The rules of `rs` whose patterns the regex crate accepts, in order.
pub open spec fn compiled_rules(rs: Seq<(Seq<char>, TokenClass)>) -> Seq<(Seq<char>, TokenClass)>
    decreases rs.len(),
{
    if rs.len() == 0 {
        Seq::empty()
    } else if regex_compiles(rs.last().0) {
        compiled_rules(rs.drop_last()).push(rs.last())
    } else {
        compiled_rules(rs.drop_last())
    }
}

/// The patterns and classes of compiled rules.
spec fn specs_of(rules: Seq<(Pattern, TokenClass)>) -> Seq<(Seq<char>, TokenClass)> {
    rules.map_values(|r: (Pattern, TokenClass)| (r.0.source(), r.1))
}

/// Whether the search result `found`, made for the token that would start
/// at character `i` of `cs` and byte `pos`, gives one: the index of the
/// character after it and its end byte.
pub fn accept_match(cs: &Vec<char>, i: usize, pos: usize, found: Option<(usize, usize)>) -> (r: Option<(usize, usize)>)
    ensures
        r is Some <==> accepted(cs@, i as int, pos, found) is Some,
        r matches Some((k, b)) ==> accepted(cs@, i as int, pos, found) == Some((k as int, b)),
{
    match found {
        Some((a, b)) => {
            if a != pos {
                return None;
            }
            let n = cs.len();
            if i >= n {
                assert(match_end(cs@, i as int, pos as int, b as int) matches Some(e) ==> e == i);
                return None;
            }
            let mut k = i;
            let mut p = pos;
            while k < n && p < b
                invariant
                    i <= k <= n == cs@.len(),
                    found == Some((a, b)),
                    a == pos,
                    match_end(cs@, i as int, pos as int, b as int) == match_end(cs@, k as int, p as int, b as int),
                decreases n - k,
            {
                let w = utf8_width(cs[k]);
                if w > b - p {
                    assert(match_end(cs@, k as int, p as int, b as int) is None);
                    return None;
                }
                p = p + w;
                k = k + 1;
            }
            if p == b && k > i {
                Some((k, b))
            } else {
                None
            }
        },
        None => None,
    }
}

/// Colours the tokens of a line: strings, comments, numbers, keywords,
/// booleans and `nil`, and parentheses.
pub struct LispHighlighter {
    rules: Vec<(Pattern, TokenClass)>,
}

impl LispHighlighter {
    /// The patterns and classes of the rules, in the order they are tried.
    pub closed spec fn rule_specs(&self) -> Seq<(Seq<char>, TokenClass)> {
        specs_of(self.rules@)
    }

    /// A highlighter with a rule for each token class whose pattern
    /// compiles, in the order of the classes.
    pub fn new() -> (r: LispHighlighter)
        ensures
            r.rule_specs() == compiled_rules(all_rules()),
    {
        let patterns = [
            (STRING_PATTERN, TokenClass::Str),
            (COMMENT_PATTERN, TokenClass::Comment),
            (NUMBER_PATTERN, TokenClass::Number),
            (KEYWORD_PATTERN, TokenClass::Keyword),
            (BOOLEAN_NIL_PATTERN, TokenClass::BoolNil),
            (PARENS_PATTERN, TokenClass::Paren),
        ];
        assert forall|j: int| 0 <= j < 6 implies (#[trigger] patterns@[j]).0@ == all_rules()[j].0
            && patterns@[j].1 == all_rules()[j].1 by {}
        let mut rules: Vec<(Pattern, TokenClass)> = Vec::new();
        let mut k: usize = 0;
        while k < 6
            invariant
                k <= 6,
                patterns@.len() == 6,
                all_rules().len() == 6,
                forall|j: int| 0 <= j < 6 ==> (#[trigger] patterns@[j]).0@ == all_rules()[j].0
                    && patterns@[j].1 == all_rules()[j].1,
                specs_of(rules@) == compiled_rules(all_rules().take(k as int)),
            decreases 6 - k,
        {
            let (p, class) = patterns[k];
            let ghost before = rules@;
            let ghost pre = all_rules().take(k as int);
            let ghost upto = all_rules().take(k + 1);
            assert(upto.drop_last() =~= pre);
            assert(upto.last() == all_rules()[k as int]);
            match compile(p) {
                Some(pat) => {
                    rules.push((pat, class));
                    assert(specs_of(rules@) =~= specs_of(before).push(all_rules()[k as int]));
                },
                None => {},
            }
            k = k + 1;
        }
        assert(all_rules().take(6) =~= all_rules());
        LispHighlighter { rules }
    }

    /// The token that starts at character `i` of `cs` and byte `pos` of
    /// `line`, if a rule gives one: the first rule whose match starts there
    /// and ends at a character boundary after it.
    fn match_at(&self, line: &str, cs: &Vec<char>, i: usize, pos: usize) -> (r: Option<(TokenClass, usize, usize)>)
        requires
            i < cs@.len(),
            cs@ == line@,
        ensures
            r is Some <==> match_here(self.rule_specs(), line@, line.spec_bytes().len(), i as int, pos) is Some,
            r matches Some((c, k, b)) ==> match_here(self.rule_specs(), line@, line.spec_bytes().len(), i as int, pos)
                == Some((c, k as int, b)),
    {
        if pos > line.as_bytes().len() {
            return None;
        }
        let ghost rs = self.rule_specs();
        let mut j: usize = 0;
        while j < self.rules.len()
            invariant
                j <= self.rules@.len(),
                rs == self.rule_specs(),
                rs.len() == self.rules@.len(),
                pos <= line.spec_bytes().len(),
                cs@ == line@,
                match_here(rs, line@, line.spec_bytes().len(), i as int, pos) == first_rule_match(rs, line@, i as int, pos, j as nat),
            decreases self.rules.len() - j,
        {
            assert(rs[j as int] == (self.rules@[j as int].0.source(), self.rules@[j as int].1));
            let found = find_at(&self.rules[j].0, line, pos);
            match accept_match(cs, i, pos, found) {
                Some((k, b)) => {
                    return Some((self.rules[j].1, k, b));
                },
                None => {},
            }
            j = j + 1;
        }
        None
    }

    /// Splits a line into tokens: at each position the first class whose
    /// pattern matches there takes the text it matches; where none does,
    /// one character is left as it is.
    pub fn tokenize(&self, line: &str) -> (r: Vec<Token>)
        ensures
            token_views(r@) == line_tokens(self.rule_specs(), line@, line.spec_bytes().len(), 0, 0),
            joined_texts(token_views(r@)) == line@,
    {
        let ghost rs = self.rule_specs();
        let ghost nb = line.spec_bytes().len();
        let cs = chars_of(line);
        let n = cs.len();
        let mut toks: Vec<Token> = Vec::new();
        let mut i: usize = 0;
        let mut pos: usize = 0;
        assert(token_views(toks@) =~= Seq::<(Option<TokenClass>, Seq<char>)>::empty());
        assert(cs@.take(0) =~= Seq::<char>::empty());
        while i < n
            invariant
                i <= n == cs@.len(),
                cs@ == line@,
                rs == self.rule_specs(),
                nb == line.spec_bytes().len(),
                token_views(toks@) + line_tokens(rs, cs@, nb, i as int, pos) == line_tokens(rs, cs@, nb, 0, 0),
                joined_texts(token_views(toks@)) == cs@.take(i as int),
            decreases n - i,
        {
            let ghost t0 = token_views(toks@);
            let ghost rest = line_tokens(rs, cs@, nb, i as int, pos);
            proof {
                lemma_first_rule_match_advances(rs, cs@, i as int, pos, 0);
            }
            match self.match_at(line, &cs, i, pos) {
                Some((class, k, p)) => {
                    let text = string_from_chars(&cs, i, k);
                    let ghost item = (Some(class), cs@.subrange(i as int, k as int));
                    toks.push(Token { class: Some(class), text });
                    proof {
                        assert(token_views(toks@) =~= t0.push(item));
                        assert(rest == seq![item] + line_tokens(rs, cs@, nb, k as int, p));
                        assert(t0.push(item) + line_tokens(rs, cs@, nb, k as int, p) =~= t0 + rest);
                        assert(t0.push(item).drop_last() =~= t0);
                        assert(cs@.take(i as int) + cs@.subrange(i as int, k as int) =~= cs@.take(k as int));
                    }
                    i = k;
                    pos = p;
                },
                None => {
                    let w = utf8_width(cs[i]);
                    let text = string_from_chars(&cs, i, i + 1);
                    let ghost item = (None::<TokenClass>, cs@.subrange(i as int, i + 1));
                    toks.push(Token { class: None, text });
                    let next = if w <= usize::MAX - pos { pos + w } else { usize::MAX };
                    proof {
                        assert(next == next_pos(pos, cs@[i as int]));
                        assert(token_views(toks@) =~= t0.push(item));
                        assert(rest == seq![item] + line_tokens(rs, cs@, nb, i + 1, next));
                        assert(t0.push(item) + line_tokens(rs, cs@, nb, i + 1, next) =~= t0 + rest);
                        assert(t0.push(item).drop_last() =~= t0);
                        assert(cs@.take(i as int) + cs@.subrange(i as int, i + 1) =~= cs@.take(i + 1));
                    }
                    i = i + 1;
                    pos = next;
                },
            }
        }
        assert(line_tokens(rs, cs@, nb, n as int, pos) =~= Seq::<(Option<TokenClass>, Seq<char>)>::empty());
        assert(token_views(toks@) + Seq::<(Option<TokenClass>, Seq<char>)>::empty() =~= token_views(toks@));
        assert(cs@.take(n as int) =~= cs@);
        toks
    }

    /// The line with its tokens coloured.
    pub fn highlight(&self, line: &str) -> (r: String)
        ensures
            r@ == rendered(line_tokens(self.rule_specs(), line@, line.spec_bytes().len(), 0, 0)),
    {
        let toks = self.tokenize(line);
        let ghost views = token_views(toks@);
        let mut out = String::new();
        let mut t: usize = 0;
        assert(views.take(0) =~= Seq::<(Option<TokenClass>, Seq<char>)>::empty());
        while t < toks.len()
            invariant
                t <= toks@.len(),
                views == token_views(toks@),
                out@ == rendered(views.take(t as int)),
            decreases toks@.len() - t,
        {
            let tok = &toks[t];
            let piece = match tok.class {
                None => tok.text.clone(),
                Some(TokenClass::Str) => paint_string(tok.text.as_str()),
                Some(TokenClass::Comment) => paint_comment(tok.text.as_str()),
                Some(TokenClass::Number) => paint_number(tok.text.as_str()),
                Some(TokenClass::Keyword) => paint_keyword(tok.text.as_str()),
                Some(TokenClass::BoolNil) => paint_bool_nil(tok.text.as_str()),
                Some(TokenClass::Paren) => paint_paren(tok.text.as_str()),
            };
            assert(views.take(t + 1).drop_last() =~= views.take(t as int));
            assert(views.take(t + 1).last() == (tok.class, tok.text@));
            out.append(piece.as_str());
            t = t + 1;
        }
        assert(views.take(toks@.len() as int) =~= views);
        out
    }
}

/// The helper of the interactive prompt: its highlighter.
pub struct ReplHelper {
    pub highlighter: LispHighlighter,
}

impl ReplHelper {
    /// A helper whose highlighter has a rule for each token class whose
    /// pattern compiles, as `LispHighlighter::new` makes it.
    pub fn new() -> (r: ReplHelper)
        ensures
            r.highlighter.rule_specs() == compiled_rules(all_rules()),
    {
        ReplHelper { highlighter: LispHighlighter::new() }
    }
}

} // verus!
