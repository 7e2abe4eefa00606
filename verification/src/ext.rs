//! The narrow band of outside calls the session core makes: URL
//! well-formedness, fresh identifiers, and the one-shot cancellation signal
//! of the download registry. Each item carries the contract the callers rely
//! on; nothing more is assumed of the outside code than its own
//! documentation states.

use vstd::prelude::*;

verus! {

/// Whether `url::Url::parse` accepts `s` as an absolute URL. The outcome
/// depends on the characters of `s` alone; its exact shape (the WHATWG URL
/// grammar) is left unspecified here.
pub uninterp spec fn absolute_url(s: Seq<char>) -> bool;

/// Relies on `url::Url::parse`, which returns `Ok` exactly on well-formed
/// absolute URLs and is a pure function of the input string.
#[verifier::external_body]
pub(crate) fn is_absolute_url(s: &str) -> (r: bool)
    ensures
        r == absolute_url(s@),
{
    url::Url::parse(s).is_ok()
}

/// Relies on `uuid::Uuid::new_v4` and its hyphenated display form: a freshly
/// drawn random version-4 UUID. The value is random, so nothing is promised
/// of it; in particular uniqueness against earlier draws is not a contract.
#[verifier::external_body]
pub(crate) fn fresh_uuid() -> String {
    uuid::Uuid::new_v4().to_string()
}

#[verifier::external_type_specification]
#[verifier::external_body]
#[verifier::reject_recursive_types(T)]
pub struct ExOneshotSender<T>(tokio::sync::oneshot::Sender<T>);

#[verifier::external_type_specification]
#[verifier::external_body]
#[verifier::reject_recursive_types(T)]
pub struct ExOneshotReceiver<T>(tokio::sync::oneshot::Receiver<T>);

#[verifier::external_type_specification]
#[verifier::external_body]
pub struct ExRecvError(tokio::sync::oneshot::error::RecvError);

/// Relies on `tokio::sync::oneshot::channel`: a connected sender/receiver
/// pair carrying the one-shot cancellation signal of a download task.
#[verifier::external_body]
pub(crate) fn cancel_channel() -> (tokio::sync::oneshot::Sender<()>, tokio::sync::oneshot::Receiver<
    (),
>) {
    tokio::sync::oneshot::channel()
}

/// Relies on `tokio::sync::oneshot::Sender::send`: fires the cancellation
/// signal. Delivery is fire-and-forget; whether the task is still listening
/// cannot be known here, so nothing is promised.
#[verifier::external_body]
pub(crate) fn send_cancel(tx: tokio::sync::oneshot::Sender<()>) {
    let _ = tx.send(());
}

/// Relies on `String::push` of std: appends exactly one character.
#[verifier::external_body]
pub(crate) fn push_char(s: &mut String, c: char)
    ensures
        final(s)@ == old(s)@.push(c),
{
    s.push(c)
}

} // verus!
