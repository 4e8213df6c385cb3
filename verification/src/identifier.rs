//! Identifiers of a schema.

use vstd::prelude::*;

verus! {

/// `proc_macro2::Ident`: an identifier token.
#[verifier::external_type_specification]
#[verifier::external_body]
pub struct ExToken(proc_macro2::Ident);

/// The text of an identifier token, as its `Display` writes it.
pub uninterp spec fn token_text(token: proc_macro2::Ident) -> Seq<char>;

/// The place of an identifier token.
pub uninterp spec fn token_span(token: proc_macro2::Ident) -> proc_macro2::Span;

/// `proc_macro2::Ident::to_string`: the text of the token.
#[verifier::external_body]
fn text_of_token(token: &proc_macro2::Ident) -> (text: String)
    ensures
        text@ == token_text(*token),
{
    token.to_string()
}

/// `proc_macro2::Ident::span`: the place of the token.
#[verifier::external_body]
fn span_of_token(token: &proc_macro2::Ident) -> (span: proc_macro2::Span)
    ensures
        span == token_span(*token),
{
    token.span()
}

/// An identifier: its text and its place in the source.
#[derive(Debug)]
pub struct Identifier {
    pub text: String,
    pub span: proc_macro2::Span,
}

/// What an identifier stands for in contracts.
pub struct IdentifierView {
    pub text: Seq<char>,
    pub span: proc_macro2::Span,
}

impl View for Identifier {
    type V = IdentifierView;

    open spec fn view(&self) -> IdentifierView {
        IdentifierView { text: self.text@, span: self.span }
    }
}

impl Identifier {
    /// The identifier that a token spells.
    pub fn from_token(token: &proc_macro2::Ident) -> (ident: Identifier)
        ensures
            ident@ == (IdentifierView { text: token_text(*token), span: token_span(*token) }),
            ident.text@ == token_text(*token),
            ident.span == token_span(*token),
    {
        Identifier { text: text_of_token(token), span: span_of_token(token) }
    }
}

} // verus!
