//! The pieces of CosmWasm that the ballot's logic uses directly: the
//! `Response` it hands back to the chain, with its event attributes, and the
//! error type of the host's address checks.

use vstd::prelude::*;
use cosmwasm_std::{Empty, Response, StdError};

verus! {

#[verifier::external_type_specification]
#[verifier::external_body]
pub struct ExEmpty(Empty);

#[verifier::external_type_specification]
#[verifier::external_body]
#[verifier::reject_recursive_types(T)]
pub struct ExResponse<T>(Response<T>);

#[verifier::external_type_specification]
#[verifier::external_body]
pub struct ExStdError(StdError);

/// The (key, value) attributes of a `Response`, in the order they were added.
pub uninterp spec fn response_attributes(r: Response) -> Seq<(Seq<char>, Seq<char>)>;

/// The number of messages a `Response` asks the chain to send.
pub uninterp spec fn response_message_count(r: Response) -> nat;

/// The number of extra events a `Response` carries.
pub uninterp spec fn response_event_count(r: Response) -> nat;

/// Whether a `Response` carries a data payload.
pub uninterp spec fn response_has_data(r: Response) -> bool;

/// `r` sends no message, carries no extra event and no data: all it holds
/// are its attributes.
pub open spec fn attributes_only(r: Response) -> bool {
    &&& response_message_count(r) == 0
    &&& response_event_count(r) == 0
    &&& !response_has_data(r)
}

/// The decimal notation of `n`, as Rust's `Display` for integers writes it:
/// no sign, no leading zeros, "0" for zero.
pub open spec fn decimal(n: nat) -> Seq<char>
    decreases n,
{
    if n < 10 {
        seq![digit(n)]
    } else {
        decimal(n / 10).push(digit(n % 10))
    }
}

pub open spec fn digit(d: nat) -> char {
    (d + 48) as char
}

/// `cosmwasm_std::Response::new`: a response with no attributes, no
/// messages, no events and no data.
#[verifier::external_body]
pub(crate) fn response_new() -> (r: Response)
    ensures
        response_attributes(r) == Seq::<(Seq<char>, Seq<char>)>::empty(),
        response_message_count(r) == 0,
        response_event_count(r) == 0,
        !response_has_data(r),
{
    Response::new()
}

/// `cosmwasm_std::Response::add_attribute`: appends the attribute
/// `(key, value)` to the response's attribute list and leaves its messages,
/// events and data unchanged. Keys that start with `_` are reserved and make it panic in
/// debug builds, so they are excluded.
#[verifier::external_body]
pub(crate) fn add_attribute(r: Response, key: &str, value: &str) -> (out: Response)
    requires
        !(key@.len() > 0 && key@[0] == '_'),
    ensures
        response_attributes(out) == response_attributes(r).push((key@, value@)),
        response_message_count(out) == response_message_count(r),
        response_event_count(out) == response_event_count(r),
        response_has_data(out) == response_has_data(r),
{
    r.add_attribute(key, value)
}

/// `<u64 as ToString>::to_string`: the decimal notation of `n`.
#[verifier::external_body]
pub(crate) fn decimal_string(n: u64) -> (s: String)
    ensures
        s@ == decimal(n as nat),
{
    n.to_string()
}

} // verus!
