//! Connection target construction: the target URL is composed from an
//! endpoint address, a fixed scheme and path template, and the stream
//! identifier, then checked for URL validity.

use vstd::prelude::*;
use vstd::string::StringExecFns;
use url::Url;

verus! {

/// The characters of the connection target composed from an endpoint
/// address and a stream identifier.
pub open spec fn target_chars(address: Seq<char>, stream_id: Seq<char>) -> Seq<char> {
    "wss://"@ + address + "/logs/canister/"@ + stream_id
}

/// Whether the URL parser accepts the string as a valid URL.
pub uninterp spec fn url_accepts(s: Seq<char>) -> bool;

/// Relies on url::Url::parse: whether a string parses as a valid URL is a
/// function of its characters alone.
#[verifier::external_body]
fn url_is_valid(s: &str) -> (r: bool)
    ensures
        r == url_accepts(s@),
{
    match Url::parse(s) {
        Ok(_) => true,
        Err(_) => false,
    }
}

/// Composes the target string `wss://<address>/logs/canister/<stream_id>`.
pub fn build_target(address: &String, stream_id: &String) -> (r: String)
    ensures
        r@ == target_chars(address@, stream_id@),
{
    let mut s = String::from_str("wss://");
    s.append(address.as_str());
    s.append("/logs/canister/");
    s.append(stream_id.as_str());
    s
}

/// Builds the connection target for one session and validates it: the
/// composed string is returned exactly when it parses as a valid URL, and
/// an invalid composition yields nothing (a terminal startup error for that
/// session only).
pub fn make_target(address: &String, stream_id: &String) -> (r: Option<String>)
    ensures
        url_accepts(target_chars(address@, stream_id@)) ==> (r matches Some(u) && u@
            == target_chars(address@, stream_id@)),
        !url_accepts(target_chars(address@, stream_id@)) ==> r is None,
{
    let t = build_target(address, stream_id);
    if url_is_valid(t.as_str()) {
        Some(t)
    } else {
        None
    }
}

} // verus!
