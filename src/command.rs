//! Classification of a client's command line: a directive that opens or
//! closes the device transport, or text passed through to the device.

use vstd::prelude::*;
use crate::text::{has_at, starts_with, trim, trimmed, views};

verus! {

/// What a client's line asks for.
pub enum Command {
    /// Open the named endpoint and attach it in place of any current one.
    Attach(String),
    /// Close the current connection.
    Detach,
    /// An attach directive without an endpoint name: rejected, not forwarded.
    MissingPort,
    /// Send this text, followed by a line end, to the device.
    Forward(String),
}

/// The verb that attaches an endpoint.
pub open spec fn connect_verb() -> Seq<char> {
    "CONNECT_SERIAL"@
}

/// The directive that closes the connection.
pub open spec fn disconnect_verb() -> Seq<char> {
    "DISCONNECT_SERIAL"@
}

/// The result of `str::split_whitespace` on the given characters.
pub uninterp spec fn whitespace_words(s: Seq<char>) -> Seq<Seq<char>>;

/// Relies on `str::split_whitespace`: the maximal runs of non-white-space
/// characters, in order, as a function of the characters alone.
#[verifier::external_body]
fn split_words(s: &str) -> (r: Vec<String>)
    ensures
        views(r@) == whitespace_words(s@),
{
    s.split_whitespace().map(|w| w.to_string()).collect()
}

/// `c` is what the trimmed line `text`, whose words are `words`, asks for.
pub open spec fn command_of(c: Command, text: Seq<char>, words: Seq<Seq<char>>) -> bool {
    if starts_with(text, connect_verb()) {
        if words.len() >= 2 {
            c matches Command::Attach(name) && name@ == words[1]
        } else {
            c is MissingPort
        }
    } else if text == disconnect_verb() {
        c is Detach
    } else {
        c matches Command::Forward(t) && t@ == text
    }
}

/// Classifies a trimmed line `text` whose words are `words`: a line that
/// opens with the attach verb names its endpoint in its second word.
pub fn classify(text: String, words: Vec<String>) -> (r: Command)
    ensures
        command_of(r, text@, views(words@)),
{
    proof {
        reveal_strlit("CONNECT_SERIAL");
        reveal_strlit("DISCONNECT_SERIAL");
    }
    if has_at(text.as_str(), 0, "CONNECT_SERIAL") {
        if words.len() >= 2 {
            let mut words = words;
            let ghost w = views(words@);
            let name = words.swap_remove(1);
            proof {
                assert(w[1] == name@);
            }
            Command::Attach(name)
        } else {
            Command::MissingPort
        }
    } else {
        let is_disconnect = text.as_str().unicode_len() == 17 && has_at(
            text.as_str(),
            0,
            "DISCONNECT_SERIAL",
        );
        if is_disconnect {
            assert(text@ =~= text@.subrange(0, 17));
            Command::Detach
        } else {
            proof {
                if text@ == disconnect_verb() {
                    assert(text@.subrange(0, 17) =~= text@);
                }
            }
            Command::Forward(text)
        }
    }
}

/// Reads a client's command line: trimmed, then classified.
pub fn route(line: &str) -> (r: Command)
    ensures
        command_of(r, trimmed(line@), whitespace_words(trimmed(line@))),
{
    let text = trim(line);
    let words = split_words(text.as_str());
    classify(text, words)
}

} // verus!
