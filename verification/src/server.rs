//! The control channel: what the client sends and how the server reads it.
//!
//! The client sends one command, its parts with single spaces between them,
//! and reads the answer to the end. The server reads one request for each
//! connection and splits it at its spaces.

use crate::text::{join, join_strings, lemma_split_join, split, split_on, texts};
use vstd::prelude::*;

verus! {

/// The port of the control channel.
pub const PORT: u16 = 65000;

/// The most bytes that the server reads of one request.
pub const REQUEST_LIMIT: usize = 10000;

/// The parts of a request: the texts between its spaces, empty ones included.
pub fn request_parts(command: &str) -> (parts: Vec<String>)
    ensures
        texts(parts@) == split_on(command@, ' '),
{
    split(command, ' ')
}

/// The message that carries a command: its parts, with one space between two.
pub fn client_message(commands: &Vec<String>) -> (message: String)
    ensures
        message@ == join(texts(commands@), " "@),
{
    join_strings(commands, " ")
}

/// What the client sends the server reads: the parts of a command, none of
/// which holds a space, come out of the message as they went in.
pub proof fn lemma_message_carries_the_parts(parts: Seq<Seq<char>>)
    requires
        parts.len() > 0,
        forall|i: int| 0 <= i < parts.len() ==> !(#[trigger] parts[i]).contains(' '),
    ensures
        split_on(join(parts, " "@), ' ') == parts,
{
    reveal_strlit(" ");
    assert(" "@ =~= seq![' ']);
    lemma_split_join(parts, ' ');
}

} // verus!
