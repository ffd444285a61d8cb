//! Names of the special forms (reserved keywords) of the language.
use vstd::prelude::*;

verus! {

pub const LET: &'static str = "let";
pub const QUOTE: &'static str = "quote";
pub const FN: &'static str = "fn";
pub const IF: &'static str = "if";
pub const REQUIRE: &'static str = "require";

/// The special-form names, as character sequences.
pub open spec fn special_form_names() -> Seq<Seq<char>> {
    seq![seq!['l', 'e', 't'], seq!['q', 'u', 'o', 't', 'e'], seq!['f', 'n'], seq!['i', 'f'],
        seq!['r', 'e', 'q', 'u', 'i', 'r', 'e']]
}

/// Whether `name` is one of the reserved special-form names.
pub open spec fn spec_is_special_form(name: Seq<char>) -> bool {
    special_form_names().contains(name)
}

/// Checks if a given name is a special form (`let`, `quote`, `fn`, `if`, `require`).
pub fn is_special_form(name: &str) -> (r: bool)
    ensures
        r == spec_is_special_form(name@),
{
    let n = name.unicode_len();
    let r = (n == 3 && name.get_char(0) == 'l' && name.get_char(1) == 'e' && name.get_char(2) == 't')
        || (n == 5 && name.get_char(0) == 'q' && name.get_char(1) == 'u' && name.get_char(2) == 'o'
            && name.get_char(3) == 't' && name.get_char(4) == 'e')
        || (n == 2 && name.get_char(0) == 'f' && name.get_char(1) == 'n')
        || (n == 2 && name.get_char(0) == 'i' && name.get_char(1) == 'f')
        || (n == 7 && name.get_char(0) == 'r' && name.get_char(1) == 'e' && name.get_char(2) == 'q'
            && name.get_char(3) == 'u' && name.get_char(4) == 'i' && name.get_char(5) == 'r'
            && name.get_char(6) == 'e');
    proof {
        let names = special_form_names();
        if r {
            if n == 3 { assert(name@ =~= names[0]); }
            else if n == 5 { assert(name@ =~= names[1]); }
            else if n == 2 && name@[0] == 'f' { assert(name@ =~= names[2]); }
            else if n == 2 { assert(name@ =~= names[3]); }
            else { assert(name@ =~= names[4]); }
        } else {
            assert forall|k: int| 0 <= k < names.len() implies names[k] != name@ by {
                if names[k] == name@ {
                    assert(names[k].len() == name@.len());
                }
            }
        }
    }
    r
}

} // verus!
