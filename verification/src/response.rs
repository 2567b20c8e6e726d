//! Templates for the lines the server sends to clients.
//!
//! Every outbound line embeds the literal `<NL>` marker itself; the codec
//! writes outbound text verbatim, so framing is decided here.

use vstd::prelude::*;

verus! {

/// The join notice for `username`, exactly `"<username> has joined<NL>"`.
pub open spec fn spec_user_joined_message(username: Seq<char>) -> Seq<char> {
    username + " has joined<NL>"@
}

/// The leave notice for `username`, exactly `"<username> has left<NL>"`.
pub open spec fn spec_user_left_message(username: Seq<char>) -> Seq<char> {
    username + " has left<NL>"@
}

/// A chat line from `username`, exactly `"<username>: <message><NL>"`.
pub open spec fn spec_new_chat_message(username: Seq<char>, message: Seq<char>) -> Seq<char> {
    username + ": "@ + message + "<NL>"@
}

/// The error frame sent back to a misbehaving peer.
pub open spec fn spec_error_message() -> Seq<char> {
    "ERROR<NL>"@
}

/// Format the notice that a user has left.
pub fn user_left_message(username: &str) -> (r: String)
    ensures
        r@ == spec_user_left_message(username@),
{
    let r = username.to_owned().concat(" has left<NL>");
    r
}

/// Format a chat message from a user.
pub fn new_chat_message(username: &str, message: &str) -> (r: String)
    ensures
        r@ == spec_new_chat_message(username@, message@),
{
    let r = username.to_owned().concat(": ").concat(message).concat("<NL>");
    assert(r@ =~= spec_new_chat_message(username@, message@));
    r
}

/// Format the notice that a new user has joined.
pub fn user_joined_message(username: &str) -> (r: String)
    ensures
        r@ == spec_user_joined_message(username@),
{
    let r = username.to_owned().concat(" has joined<NL>");
    r
}

/// Format the error frame.
pub fn error_message() -> (r: String)
    ensures
        r@ == spec_error_message(),
{
    String::from_str("ERROR<NL>")
}

} // verus!
