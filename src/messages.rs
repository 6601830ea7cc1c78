//! Messages between the game client and its server.
use vstd::prelude::*;

verus! {

#[derive(Debug, PartialEq)]
pub enum ClientMessage {
    Join,
    Leave,
    ChatMessage { message: String },
}

#[derive(Debug, PartialEq)]
pub enum ServerMessage {
    InitClient,
    ChatMessage { message: String },
}

} // verus!
