//! Calls into `std` and into outside crates whose behaviour the rest of the
//! library relies on without proof. Each item names the function it calls.

use vstd::prelude::*;
use vstd::utf8::{decode_utf8, valid_utf8};

use crate::args::{trees_of, InputToken, Token};

verus! {

/// Calls `String::push`, which appends `c` at the end of `s`.
#[verifier::external_body]
pub(crate) fn push_char(s: &mut String, c: char)
    ensures
        final(s)@ == old(s)@.push(c),
{
    s.push(c);
}

/// Calls `String::from_utf8`, which succeeds exactly when `bytes` are valid
/// UTF-8 and then holds the characters that they encode.
#[verifier::external_body]
pub(crate) fn utf8_string(bytes: Vec<u8>) -> (r: Option<String>)
    ensures
        r is Some <==> valid_utf8(bytes@),
        r matches Some(s) ==> s@ == decode_utf8(bytes@),
{
    match String::from_utf8(bytes) {
        Ok(s) => Some(s),
        Err(_) => None,
    }
}

/// `proc_macro2::TokenTree`, carried through the library as it is.
#[verifier::external_type_specification]
#[verifier::external_body]
pub struct ExTokenTree(proc_macro2::TokenTree);

/// What a token tree is read as: its variant, an identifier's text as
/// `Ident`'s `Display` writes it, a punctuation's `Punct::as_char`.
pub uninterp spec fn token_of(tree: proc_macro2::TokenTree) -> Token;

/// Tells apart the variants of `proc_macro2::TokenTree`, keeping an
/// identifier's text (`Ident`'s `Display`) and a punctuation's character
/// (`Punct::as_char`), and telling a group with `Delimiter::None` from the
/// others; the result is named `token_of`.
#[verifier::external_body]
pub(crate) fn token_kind(tree: &proc_macro2::TokenTree) -> (r: Token)
    ensures
        r == token_of(*tree),
{
    match tree {
        proc_macro2::TokenTree::Ident(ident) => Token::Ident(ident.to_string()),
        proc_macro2::TokenTree::Punct(punct) => Token::Punct(punct.as_char()),
        proc_macro2::TokenTree::Literal(_) => Token::Literal,
        proc_macro2::TokenTree::Group(group) => match group.delimiter() {
            proc_macro2::Delimiter::None => Token::InvisibleGroup,
            proc_macro2::Delimiter::Parenthesis => Token::Group,
            proc_macro2::Delimiter::Brace => Token::Group,
            proc_macro2::Delimiter::Bracket => Token::Group,
        },
    }
}

/// The token trees inside a group, as `Group::stream` holds them; none for
/// a tree that is no group.
pub uninterp spec fn group_trees(tree: proc_macro2::TokenTree) -> Seq<proc_macro2::TokenTree>;

/// Calls `Group::stream` on a group and collects its token trees; the
/// result is named `group_trees`.
#[verifier::external_body]
pub(crate) fn group_contents(tree: &proc_macro2::TokenTree) -> (r: Vec<proc_macro2::TokenTree>)
    ensures
        r@ == group_trees(*tree),
{
    match tree {
        proc_macro2::TokenTree::Group(group) => group.stream().into_iter().collect(),
        proc_macro2::TokenTree::Ident(_) => Vec::new(),
        proc_macro2::TokenTree::Punct(_) => Vec::new(),
        proc_macro2::TokenTree::Literal(_) => Vec::new(),
    }
}

/// Whether `syn::parse2::<syn::Expr>` reads all of `trees` as one
/// expression.
pub uninterp spec fn parses_as_expr(trees: Seq<proc_macro2::TokenTree>) -> bool;

/// Calls `syn::parse2::<syn::Expr>` on the token trees of `tokens` and says
/// whether `syn` read all of them as one expression; the verdict is named
/// `parses_as_expr`. No trees are no expression: `syn`'s expression parser
/// ends in "expected an expression" at the end of its input.
#[verifier::external_body]
pub(crate) fn syn_parses_expr(tokens: &Vec<InputToken>) -> (b: bool)
    ensures
        b == parses_as_expr(trees_of(tokens@)),
        tokens@.len() == 0 ==> !b,
{
    let stream: proc_macro2::TokenStream = tokens.iter().map(|t| t.tree.clone()).collect();
    match syn::parse2::<syn::Expr>(stream) {
        Ok(_) => true,
        Err(_) => false,
    }
}

} // verus!
