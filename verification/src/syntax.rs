//! The syntax definitions of the `syntect` crate, as far as a language is
//! looked up in them by a file's extension.
//!
//! Nothing in this file is proved. Each function hands one call on to the
//! `syntect` crate, and its contract says what that crate's source shows of
//! the call.

use vstd::prelude::*;
use syntect::parsing::SyntaxSet;

verus! {

#[verifier::external_type_specification]
#[verifier::external_body]
pub struct ExSyntaxSet(SyntaxSet);

/// One syntax definition, as far as a lookup reads it: its name, and the file
/// extensions that it is for.
pub struct Syntax {
    pub name: Seq<char>,
    pub extensions: Seq<Seq<char>>,
}

/// The syntax definitions that a set holds, in the order in which it holds
/// them.
pub uninterp spec fn syntaxes(set: SyntaxSet) -> Seq<Syntax>;

/// The lower-case form of an ASCII capital; any other character itself.
pub open spec fn ascii_lower(c: char) -> char {
    if 'A' <= c <= 'Z' {
        ((c as u8) + 32) as char
    } else {
        c
    }
}

/// Whether two texts differ at most in the case of their ASCII letters.
pub open spec fn same_but_for_ascii_case(a: Seq<char>, b: Seq<char>) -> bool {
    &&& a.len() == b.len()
    &&& forall|i: int| 0 <= i < a.len() ==> ascii_lower(a[i]) == ascii_lower(b[i])
}

/// Whether a syntax is for files with the given extension.
pub open spec fn is_for(syntax: Syntax, extension: Seq<char>) -> bool {
    exists|k: int|
        0 <= k < syntax.extensions.len() && same_but_for_ascii_case(
            #[trigger] syntax.extensions[k],
            extension,
        )
}

/// The name of the syntax that a lookup by extension finds: the last one in
/// the set that is for the extension.
pub open spec fn name_for(all: Seq<Syntax>, extension: Seq<char>) -> Option<Seq<char>>
    decreases all.len(),
{
    if all.len() == 0 {
        None
    } else if is_for(all.last(), extension) {
        Some(all.last().name)
    } else {
        name_for(all.drop_last(), extension)
    }
}

/// Whether one of the syntaxes has the given name.
pub open spec fn has_name(all: Seq<Syntax>, name: Seq<char>) -> bool {
    exists|i: int| 0 <= i < all.len() && (#[trigger] all[i]).name == name
}

/// The name of the syntax for text without a language.
pub const PLAIN_TEXT: &'static str = "Plain Text";

/// `SyntaxSet::load_defaults_newlines`: the syntax definitions that come
/// packed with the crate. Of what they are, only this is claimed: one of them
/// is the syntax for plain text. The crate adds it when it packs these
/// definitions, and its own lookup of that syntax relies on it.
#[verifier::external_body]
pub(crate) fn load_syntaxes() -> (set: SyntaxSet)
    ensures
        has_name(syntaxes(set), PLAIN_TEXT@),
{
    SyntaxSet::load_defaults_newlines()
}

/// `SyntaxSet::find_syntax_by_extension`, and the name of what it finds. The
/// crate walks its definitions from the last to the first and stops at the
/// first that lists the extension, letter case of ASCII letters aside.
#[verifier::external_body]
pub(crate) fn find_name_by_extension(set: &SyntaxSet, extension: &str) -> (name: Option<String>)
    ensures
        match name {
            Some(n) => name_for(syntaxes(*set), extension@) == Some(n@),
            None => name_for(syntaxes(*set), extension@) is None,
        },
{
    match set.find_syntax_by_extension(extension) {
        Some(syntax) => Some(syntax.name.clone()),
        None => None,
    }
}

/// `SyntaxSet::find_syntax_plain_text`, and the name of what it finds. The
/// crate looks for the syntax named `Plain Text` and panics where the set has
/// none.
#[verifier::external_body]
pub(crate) fn find_plain_text_name(set: &SyntaxSet) -> (name: String)
    requires
        has_name(syntaxes(*set), PLAIN_TEXT@),
    ensures
        name@ == PLAIN_TEXT@,
{
    set.find_syntax_plain_text().name.clone()
}

} // verus!
