//! The messages that clients and the server exchange.

use vstd::prelude::*;
use crate::world::{Draw, Game, Player, RoomState, Turn, Username};

verus! {

/// Client to server.
#[derive(Clone, Debug)]
pub enum ToServer {
    Ping,
    Login(String),
    Chat(ChatMessage),
    Draw(Draw),
    RequestRoom(Option<String>, RoomRequest),
    ListRoom,
}

/// Server to client.
#[derive(Clone, Debug)]
pub enum ToClient {
    Chat(ChatMessage),
    Draw(Draw),
    PlayerConnect(Player),
    PlayerDisconnect(Username),
    Kicked(String),
    TurnStart(Turn),
    RoomStateChange(RoomState<Game>),
    JoinRoom { username: Username, player_list: Vec<Player>, initial_state: RoomState<Game> },
    TimeChanged(u32),
}

/// A line of the chat: from the game itself, or from a player.
#[derive(Clone, Debug)]
pub enum ChatMessage {
    System(String),
    User(Username, String),
}

impl ChatMessage {
    pub open spec fn text(&self) -> Seq<char> {
        match self {
            ChatMessage::System(m) => m@,
            ChatMessage::User(_, m) => m@,
        }
    }

    pub fn is_system(&self) -> (r: bool)
        ensures
            r == (self is System),
    {
        match self {
            ChatMessage::System(_) => true,
            _ => false,
        }
    }

    pub fn username(&self) -> (r: Option<&Username>)
        ensures
            match self {
                ChatMessage::User(u, _) => r == Some(u),
                _ => r is None,
            },
    {
        match self {
            ChatMessage::User(username, _) => Some(username),
            _ => None,
        }
    }

    pub fn inner(&self) -> (r: &str)
        ensures
            r@ == self.text(),
    {
        match self {
            ChatMessage::System(msg) => msg.as_str(),
            ChatMessage::User(_, msg) => msg.as_str(),
        }
    }

    pub fn into_inner(self) -> (r: String)
        ensures
            r@ == self.text(),
    {
        match self {
            ChatMessage::System(msg) => msg,
            ChatMessage::User(_, msg) => msg,
        }
    }
}

/// What a player asks of the rooms.
#[derive(Clone, Debug)]
pub enum RoomRequest {
    Find,
    Create,
    Join(String),
}

} // verus!
