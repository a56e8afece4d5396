//! The decisions of the actor that owns one client connection: which
//! requests go to the orchestrator, how its state follows the orchestrator's
//! notifications, and when a silent client is dropped.

use vstd::prelude::*;
use vstd::string::StringExecFns;
use crate::chance::random_below;
use crate::message::{ToClient, ToServer};
use crate::server::Message as ServerMessage;
use crate::world::{PlayerId, Username};

verus! {

/// Seconds without a keep-alive after which a client is disconnected.
pub const TIMED_OUT_SECONDS: u64 = 10;

/// What the orchestrator sends a session, to be written to its client.
#[derive(Debug)]
pub struct Message(pub ToClient);

/// Where a session stands.
pub enum UserState {
    /// Connected, in no room.
    Idle,
    /// In a room, under `name`.
    InGame { name: String },
    /// Done: the session ends.
    Stop,
}

/// The names given to players who ask for none.
pub open spec fn default_name(i: int) -> Seq<char> {
    if i == 0 {
        "alice"@
    } else if i == 1 {
        "bob"@
    } else if i == 2 {
        "dafny"@
    } else {
        "spice"@
    }
}

pub open spec fn is_default_name(s: Seq<char>) -> bool {
    exists|i: int| 0 <= i < 4 && s == #[trigger] default_name(i)
}

/// The state of the session of connection `id`.
pub struct UserSession {
    pub id: PlayerId,
    pub state: UserState,
    /// When the client last sent a keep-alive, in seconds.
    pub last_hb: u64,
}

impl UserSession {
    /// A session that starts at time `now`, in no room.
    pub fn new(id: PlayerId, now: u64) -> (r: Self)
        ensures
            r.id == id,
            r.state is Idle,
            r.last_hb == now,
    {
        UserSession { id, state: UserState::Idle, last_hb: now }
    }

    /// The `i`-th of the default names.
    pub fn default_name_at(i: usize) -> (r: String)
        requires
            i < 4,
        ensures
            r@ == default_name(i as int),
    {
        if i == 0 {
            String::from_str("alice")
        } else if i == 1 {
            String::from_str("bob")
        } else if i == 2 {
            String::from_str("dafny")
        } else {
            String::from_str("spice")
        }
    }

    /// One of the default names, at random.
    pub fn generate_name() -> (r: String)
        ensures
            is_default_name(r@),
    {
        let i = random_below(4);
        let r = Self::default_name_at(i);
        proof {
            assert(r@ == default_name(i as int));
        }
        r
    }

    /// Handles a request of the client at time `now`; the result is what the
    /// orchestrator is sent. A keep-alive only renews the heartbeat. In no
    /// room, only a room request is passed on, under the name asked for or a
    /// default one; in a room, every request is passed on under the room
    /// name; a stopped session passes nothing on.
    pub fn handle_msg(&mut self, msg: ToServer, now: u64) -> (r: Option<ServerMessage>)
        ensures
            final(self).id == old(self).id,
            final(self).state == old(self).state,
            msg is Ping ==> r is None && final(self).last_hb == now,
            !(msg is Ping) ==> final(self).last_hb == old(self).last_hb,
            !(msg is Ping) && old(self).state is Idle ==> match msg {
                ToServer::RequestRoom(maybe_name, req) => r matches Some(
                    ServerMessage::RoomRequest { from, req: rq },
                ) && from.1 == old(self).id && rq == req && match maybe_name {
                    Some(n) => from.0@ == n@,
                    None => is_default_name(from.0@),
                },
                _ => r is None,
            },
            !(msg is Ping) && old(self).state is InGame ==> (r matches Some(
                ServerMessage::InRoomMessage { from, msg: m },
            ) && from.1 == old(self).id && from.0@ == old(self).state->InGame_name@ && m == msg),
            !(msg is Ping) && old(self).state is Stop ==> r is None,
    {
        if let ToServer::Ping = msg {
            self.last_hb = now;
            return None;
        }
        match &self.state {
            UserState::Idle => match msg {
                ToServer::RequestRoom(maybe_name, req) => {
                    let name = match maybe_name {
                        Some(n) => n,
                        None => Self::generate_name(),
                    };
                    Some(ServerMessage::RoomRequest { from: Username::new(name, self.id), req })
                },
                _ => None,
            },
            UserState::InGame { name } => {
                Some(ServerMessage::InRoomMessage { from: Username::new(name.clone(), self.id), msg })
            },
            UserState::Stop => None,
        }
    }

    /// Follows a notification of the orchestrator before it is written to
    /// the client: joining a room puts the session in it, and a kick stops
    /// it.
    pub fn on_server_msg(&mut self, msg: &ToClient)
        ensures
            final(self).id == old(self).id,
            final(self).last_hb == old(self).last_hb,
            match msg {
                ToClient::JoinRoom { username, .. } => final(self).state matches UserState::InGame {
                    name,
                } && name@ == username.0@,
                ToClient::Kicked(_) => final(self).state is Stop,
                _ => final(self).state == old(self).state,
            },
    {
        match msg {
            ToClient::JoinRoom { username, .. } => {
                self.state = UserState::InGame { name: username.0.clone() };
            },
            ToClient::Kicked(_) => {
                self.state = UserState::Stop;
            },
            _ => {},
        }
    }

    /// The client sent no keep-alive for more than the timeout before `now`.
    pub fn heartbeat_expired(&self, now: u64) -> (r: bool)
        ensures
            r == (now > self.last_hb && now - self.last_hb > TIMED_OUT_SECONDS),
    {
        now > self.last_hb && now - self.last_hb > TIMED_OUT_SECONDS
    }

    pub fn is_stopped(&self) -> (r: bool)
        ensures
            r == (self.state is Stop),
    {
        match self.state {
            UserState::Stop => true,
            _ => false,
        }
    }

    /// What the session tells the orchestrator as its final act.
    pub fn disconnect_message(&self) -> (r: ServerMessage)
        ensures
            r == (ServerMessage::Disconnect { id: self.id }),
    {
        ServerMessage::Disconnect { id: self.id }
    }
}

} // verus!
