//! Problems found in a schema, reported as `syn::Error` values.

use vstd::prelude::*;

verus! {

/// `proc_macro2::Span`: a place in the source, carried through and never looked into.
#[verifier::external_type_specification]
#[verifier::external_body]
pub struct ExSpan(proc_macro2::Span);

/// `syn::Error`: a non-empty list of messages, each with the place it speaks of.
#[verifier::external_type_specification]
#[verifier::external_body]
pub struct ExError(syn::Error);

/// One reported problem: the place it is reported at, and its text.
pub type Message = (proc_macro2::Span, Seq<char>);

/// The messages that a `syn::Error` holds, in the order in which it reports them.
/// The place of a message is the span that it was made with.
pub uninterp spec fn error_messages(error: syn::Error) -> Seq<(proc_macro2::Span, Seq<char>)>;

/// `syn::Error::new`: the error holds one message, with the given text at the given place.
#[verifier::external_body]
pub(crate) fn new_error(span: proc_macro2::Span, message: String) -> (error: syn::Error)
    ensures
        error_messages(error) == seq![(span, message@)],
{
    syn::Error::new(span, message)
}

/// `syn::Error::combine`: the messages of `another` follow those that `error` held before.
#[verifier::external_body]
pub(crate) fn combine_errors(error: &mut syn::Error, another: syn::Error)
    ensures
        error_messages(*final(error)) == error_messages(*old(error)) + error_messages(another),
{
    error.combine(another)
}

/// Whether an outcome is the one that the model gives: the modelled value on success, and on
/// failure an error that holds the modelled messages.
pub open spec fn agrees<T: View>(
    outcome: Result<T, syn::Error>,
    model: Result<T::V, Seq<Message>>,
) -> bool {
    match (outcome, model) {
        (Ok(value), Ok(expected)) => value@ == expected,
        (Err(error), Err(messages)) => error_messages(error) == messages,
        _ => false,
    }
}

} // verus!
