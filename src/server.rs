//! The orchestrator: the registry of connected players and of rooms, which
//! routes every request to the room it concerns.

use vstd::prelude::*;
use vstd::string::StringExecFns;
use crate::chance::random_byte;
use crate::message::{RoomRequest, ToClient, ToServer};
use crate::room::{extends, is_member, GameRoom, Outgoing};
use crate::world::{GameOpts, PlayerId, Username};

verus! {

/// What sessions tell the orchestrator.
#[derive(Debug)]
pub enum Message {
    /// A player asks to join a room.
    RoomRequest { from: Username, req: RoomRequest },
    /// A player in a room sent a message to it.
    InRoomMessage { from: Username, msg: ToServer },
    /// A session ended.
    Disconnect { id: PlayerId },
    /// The process is asked to stop.
    CtrlC,
}

/// Why a room request failed.
#[derive(Debug, Clone, Copy, PartialEq, Eq, Structural)]
pub enum Error {
    RoomNotFound,
}

impl Error {
    /// The error's name, as players are shown it when they are kicked.
    pub fn describe(&self) -> (r: String)
        ensures
            r@ == "RoomNotFound"@,
    {
        String::from_str("RoomNotFound")
    }
}

/// The room a player is in, and the name they joined it with.
pub struct InGameUser {
    pub room_key: String,
    pub name: String,
}

/// A connected player.
pub struct User {
    pub id: PlayerId,
    pub game: Option<InGameUser>,
}

/// A room under its name.
pub struct NamedRoom {
    pub key: String,
    pub room: GameRoom,
}

pub open spec fn has_user(users: Seq<User>, id: PlayerId) -> bool {
    exists|k: int| 0 <= k < users.len() && (#[trigger] users[k]).id == id
}

pub open spec fn has_room(rooms: Seq<NamedRoom>, key: Seq<char>) -> bool {
    exists|k: int| 0 <= k < rooms.len() && (#[trigger] rooms[k]).key@ == key
}

/// The text players are shown when a message arrives that their state does
/// not allow.
pub open spec fn unexpected_text() -> Seq<char> {
    "You are being naughty, got a unexpected message."@
}

/// The `j`-th id tried from `start`.
pub open spec fn probe(start: u8, j: int) -> u8 {
    ((start as int + j) % 256) as u8
}

/// The room that the connected player `id` joined, where there is one.
pub open spec fn room_key_of(users: Seq<User>, id: PlayerId) -> Option<Seq<char>> {
    if has_user(users, id) {
        let k = choose|k: int| 0 <= k < users.len() && (#[trigger] users[k]).id == id;
        match users[k].game {
            Some(g) => Some(g.room_key@),
            None => None,
        }
    } else {
        None
    }
}

pub open spec fn keys_unique(rooms: Seq<NamedRoom>) -> bool {
    forall|k1: int, k2: int|
        0 <= k1 < rooms.len() && 0 <= k2 < rooms.len() && k1 != k2 ==> (#[trigger] rooms[k1]).key@
            != (#[trigger] rooms[k2]).key@
}

/// The player `id` is in the room named `key`.
pub open spec fn in_room(rooms: Seq<NamedRoom>, key: Seq<char>, id: PlayerId) -> bool {
    exists|j: int|
        0 <= j < rooms.len() && (#[trigger] rooms[j]).key@ == key && is_member(rooms[j].room.players@, id)
}

/// Where in `users` the player `id` stands.
pub open spec fn user_index(users: Seq<User>, id: PlayerId) -> int {
    choose|k: int| 0 <= k < users.len() && (#[trigger] users[k]).id == id
}

/// Where in `rooms` the room named `key` stands.
pub open spec fn room_index(rooms: Seq<NamedRoom>, key: Seq<char>) -> int {
    choose|j: int| 0 <= j < rooms.len() && (#[trigger] rooms[j]).key@ == key
}

/// `b` is `a` with at most the room at `j` changed, under the same name.
pub open spec fn only_room_changed(a: Seq<NamedRoom>, b: Seq<NamedRoom>, j: int) -> bool {
    &&& a.len() == b.len()
    &&& 0 <= j < a.len()
    &&& b[j].key == a[j].key
    &&& forall|i: int| 0 <= i < a.len() && i != j ==> #[trigger] b[i] == a[i]
}

/// A message of `id` is handed to its room: it is a chat line or a draw
/// action, and `id` is a member of the room it joined.
pub open spec fn routed(s0: GameServer, id: PlayerId, msg: ToServer) -> bool {
    &&& room_key_of(s0.users(), id) is Some
    &&& in_room(s0.game_rooms@, room_key_of(s0.users(), id)->Some_0, id)
    &&& (msg is Chat || msg is Draw)
}

/// How the server stands after the connection `id` was forgotten: it is no
/// longer registered, and the room it had joined handled its leaving.
pub open spec fn forgot(s0: GameServer, s1: GameServer, id: PlayerId, now: u64, o0: Seq<Outgoing>, o1: Seq<Outgoing>) -> bool {
    &&& s1.default_game_opts == s0.default_game_opts
    &&& has_user(s0.users(), id) ==> s1.users() == s0.users().remove(user_index(s0.users(), id))
    &&& !has_user(s0.users(), id) ==> s1.users() == s0.users()
    &&& if has_user(s0.users(), id) && room_key_of(s0.users(), id) is Some && has_room(
        s0.game_rooms@,
        room_key_of(s0.users(), id)->Some_0,
    ) {
        let j = room_index(s0.game_rooms@, room_key_of(s0.users(), id)->Some_0);
        &&& only_room_changed(s0.game_rooms@, s1.game_rooms@, j)
        &&& GameRoom::disconnect_done(s0.game_rooms@[j].room, s1.game_rooms@[j].room, id, now, o0, o1)
    } else {
        s1.game_rooms@ == s0.game_rooms@ && o1 == o0
    }
}

/// How the server stands after `id` was kicked with the text `reason`: the
/// player is told, forgotten, and its id kept until its session ends.
pub open spec fn kicked(
    s0: GameServer,
    s1: GameServer,
    id: PlayerId,
    reason: Seq<char>,
    now: u64,
    o0: Seq<Outgoing>,
    o1: Seq<Outgoing>,
) -> bool {
    if has_user(s0.users(), id) {
        &&& o1.len() > o0.len()
        &&& o1[o0.len() as int].to == id
        &&& o1[o0.len() as int].msg matches ToClient::Kicked(r) && r@ == reason
        &&& forgot(s0, s1, id, now, o0.push(o1[o0.len() as int]), o1)
        &&& s1.reserved@ == s0.reserved@.push(id)
    } else {
        s1 == s0 && o1 == o0
    }
}

/// How the server stands after the end of the session of `id` was reported.
/// A reserved id is released and nothing else changes; otherwise the
/// connection is forgotten.
pub open spec fn disconnected(s0: GameServer, s1: GameServer, id: PlayerId, now: u64, o0: Seq<Outgoing>, o1: Seq<Outgoing>) -> bool {
    if s0.reserved@.contains(id) {
        &&& s1.users() == s0.users()
        &&& s1.game_rooms == s0.game_rooms
        &&& s1.default_game_opts == s0.default_game_opts
        &&& !s1.reserved@.contains(id)
        &&& forall|i: PlayerId| i != id ==> (s1.reserved@.contains(i) <==> s0.reserved@.contains(i))
        &&& o1 == o0
    } else {
        forgot(s0, s1, id, now, o0, o1) && s1.reserved == s0.reserved
    }
}

/// How the server stands after a message `msg` of `from` arrived.
pub open spec fn game_msg_done(s0: GameServer, s1: GameServer, from: Username, msg: ToServer, now: u64, o0: Seq<Outgoing>, o1: Seq<Outgoing>) -> bool {
    if !has_user(s0.users(), from.1) {
        s1 == s0 && o1 == o0
    } else if routed(s0, from.1, msg) {
        let j = room_index(s0.game_rooms@, room_key_of(s0.users(), from.1)->Some_0);
        &&& s1.users() == s0.users()
        &&& s1.reserved == s0.reserved
        &&& s1.default_game_opts == s0.default_game_opts
        &&& only_room_changed(s0.game_rooms@, s1.game_rooms@, j)
        &&& match msg {
            ToServer::Chat(c) => GameRoom::chat_done(
                s0.game_rooms@[j].room,
                s1.game_rooms@[j].room,
                from,
                c.text(),
                now,
                o0,
                o1,
            ),
            ToServer::Draw(d) => GameRoom::paint_done(
                s0.game_rooms@[j].room,
                s1.game_rooms@[j].room,
                from.1,
                d,
                o0,
                o1,
            ),
            _ => false,
        }
    } else {
        kicked(s0, s1, from.1, unexpected_text(), now, o0, o1)
    }
}

/// How the server stands after `from` asked for a room.
pub open spec fn room_request_done(s0: GameServer, s1: GameServer, from: Username, req: RoomRequest, now: u64, o0: Seq<Outgoing>, o1: Seq<Outgoing>) -> bool {
    if !has_user(s0.users(), from.1) {
        s1 == s0 && o1 == o0
    } else if room_key_of(s0.users(), from.1) is Some {
        kicked(s0, s1, from.1, "You are not allowed to join multiple game rooms."@, now, o0, o1)
    } else if !(req is Join) {
        kicked(s0, s1, from.1, "Unimplemented feature"@, now, o0, o1)
    } else if !has_room(s0.game_rooms@, req->Join_0@) {
        kicked(s0, s1, from.1, "RoomNotFound"@, now, o0, o1)
    } else if is_member(s0.game_rooms@[room_index(s0.game_rooms@, req->Join_0@)].room.players@, from.1) {
        kicked(s0, s1, from.1, "You are not allowed to join multiple game rooms."@, now, o0, o1)
    } else {
        let j = room_index(s0.game_rooms@, req->Join_0@);
        &&& only_room_changed(s0.game_rooms@, s1.game_rooms@, j)
        &&& GameRoom::connect_done(s0.game_rooms@[j].room, s1.game_rooms@[j].room, from, now, o0, o1)
        &&& s1.users() == s0.users().update(
            user_index(s0.users(), from.1),
            User { id: from.1, game: Some(InGameUser { room_key: req->Join_0, name: from.0 }) },
        )
        &&& s1.reserved == s0.reserved
        &&& s1.default_game_opts == s0.default_game_opts
    }
}

proof fn lemma_room_index(rooms: Seq<NamedRoom>, key: Seq<char>, r: int)
    requires
        keys_unique(rooms),
        0 <= r < rooms.len(),
        rooms[r].key@ == key,
    ensures
        has_room(rooms, key),
        room_index(rooms, key) == r,
{
    assert(rooms[r].key@ == key);
    let j = room_index(rooms, key);
    if j != r {
        assert(rooms[j].key@ != rooms[r].key@);
    }
}

/// The rooms after the one at `r` was replaced by `room`, kept well formed.
proof fn lemma_room_replaced(r0: Seq<NamedRoom>, r: int, named: NamedRoom)
    requires
        keys_unique(r0),
        0 <= r < r0.len(),
        named.key == r0[r].key,
        named.room.wf(),
        forall|k: int| 0 <= k < r0.len() ==> (#[trigger] r0[k]).room.wf(),
    ensures
        only_room_changed(r0, r0.update(r, named), r),
        keys_unique(r0.update(r, named)),
        forall|k: int| 0 <= k < r0.len() ==> (#[trigger] r0.update(r, named)[k]).room.wf(),
{
    let s = r0.update(r, named);
    assert forall|k1: int, k2: int|
        0 <= k1 < s.len() && 0 <= k2 < s.len() && k1 != k2 implies (#[trigger] s[k1]).key@ != (
        #[trigger] s[k2]).key@ by {
        assert(s[k1].key == r0[k1].key && s[k2].key == r0[k2].key);
    }
}

pub struct GameServer {
    /// The rooms, each under a name of its own.
    pub game_rooms: Vec<NamedRoom>,
    /// The configuration of rooms the server creates.
    pub default_game_opts: GameOpts,
    /// The connected players, each under an id of its own.
    pub connected_users: Vec<User>,
    /// Ids of kicked players whose sessions have not reported their end yet:
    /// they are not given to new connections.
    pub reserved: Vec<PlayerId>,
}

impl GameServer {
    pub open spec fn wf(&self) -> bool {
        &&& forall|k: int| 0 <= k < self.game_rooms@.len() ==> (#[trigger] self.game_rooms@[k]).room.wf()
        &&& forall|k1: int, k2: int|
            0 <= k1 < self.connected_users@.len() && 0 <= k2 < self.connected_users@.len() && k1
                != k2 ==> (#[trigger] self.connected_users@[k1]).id != (
            #[trigger] self.connected_users@[k2]).id
        &&& self.default_game_opts.custom_words@.len() > 0
        &&& keys_unique(self.game_rooms@)
        &&& forall|k: int| 0 <= k < self.reserved@.len() ==> !has_user(self.users(), #[trigger] self.reserved@[k])
        &&& forall|k1: int, k2: int|
            0 <= k1 < self.reserved@.len() && 0 <= k2 < self.reserved@.len() && k1 != k2
                ==> #[trigger] self.reserved@[k1] != #[trigger] self.reserved@[k2]
    }

    /// `id` belongs to a connection, or is kept for a kicked one.
    pub open spec fn is_taken(&self, id: PlayerId) -> bool {
        has_user(self.users(), id) || self.reserved@.contains(id)
    }

    pub open spec fn users(&self) -> Seq<User> {
        self.connected_users@
    }

    /// A server with one public room, "main", and no players.
    pub fn new(default_game_opts: GameOpts) -> (r: Self)
        requires
            default_game_opts.custom_words@.len() > 0,
        ensures
            r.wf(),
            r.connected_users@.len() == 0,
            r.reserved@.len() == 0,
            r.game_rooms@.len() == 1,
            r.game_rooms@[0].key@ == "main"@,
            r.game_rooms@[0].room.players@.len() == 0,
            r.game_rooms@[0].room.state is Waiting,
    {
        let room = GameRoom::new(default_game_opts.duplicate(), None);
        let mut game_rooms: Vec<NamedRoom> = Vec::new();
        game_rooms.push(NamedRoom { key: String::from_str("main"), room });
        GameServer { game_rooms, default_game_opts, connected_users: Vec::new(), reserved: Vec::new() }
    }

    pub fn find_user(&self, id: PlayerId) -> (r: Option<usize>)
        ensures
            r matches Some(k) ==> k < self.users().len() && self.users()[k as int].id == id,
            r is None <==> !has_user(self.users(), id),
    {
        let mut k: usize = 0;
        while k < self.connected_users.len()
            invariant
                k <= self.users().len(),
                forall|j: int| 0 <= j < k ==> (#[trigger] self.users()[j]).id != id,
            decreases self.users().len() - k,
        {
            if self.connected_users[k].id == id {
                return Some(k);
            }
            k = k + 1;
        }
        None
    }

    pub fn find_room(&self, key: &String) -> (r: Option<usize>)
        ensures
            r matches Some(k) ==> k < self.game_rooms@.len() && self.game_rooms@[k as int].key@ == key@,
            r is None <==> !has_room(self.game_rooms@, key@),
    {
        let mut k: usize = 0;
        while k < self.game_rooms.len()
            invariant
                k <= self.game_rooms@.len(),
                forall|j: int| 0 <= j < k ==> (#[trigger] self.game_rooms@[j]).key@ != key@,
            decreases self.game_rooms@.len() - k,
        {
            if self.game_rooms[k].key == *key {
                return Some(k);
            }
            k = k + 1;
        }
        None
    }

    pub fn is_reserved(&self, id: PlayerId) -> (r: Option<usize>)
        ensures
            r matches Some(k) ==> k < self.reserved@.len() && self.reserved@[k as int] == id,
            r is None <==> !self.reserved@.contains(id),
    {
        let mut k: usize = 0;
        while k < self.reserved.len()
            invariant
                k <= self.reserved@.len(),
                forall|j: int| 0 <= j < k ==> self.reserved@[j] != id,
            decreases self.reserved@.len() - k,
        {
            if self.reserved[k] == id {
                return Some(k);
            }
            k = k + 1;
        }
        None
    }

    pub fn id_taken(&self, id: PlayerId) -> (r: bool)
        ensures
            r == self.is_taken(id),
    {
        self.find_user(id).is_some() || self.is_reserved(id).is_some()
    }

    /// The first id at or after `start`, counting on from 255 to 0, that is
    /// not taken.
    pub fn first_free_id(&self, start: u8) -> (r: Option<PlayerId>)
        ensures
            r matches Some(id) ==> !self.is_taken(id),
            r is None ==> forall|id: PlayerId| self.is_taken(id),
    {
        let mut i: u16 = 0;
        while i < 256
            invariant
                i <= 256,
                forall|j: int| 0 <= j < i ==> self.is_taken(#[trigger] probe(start, j)),
            decreases 256 - i,
        {
            let id = ((start as u16 + i) % 256) as u8;
            if !self.id_taken(id) {
                return Some(id);
            }
            i = i + 1;
        }
        proof {
            assert forall|id: PlayerId| self.is_taken(id) by {
                let j = (id as int - start as int + 256) % 256;
                assert(0 <= j < 256);
                assert(probe(start, j) == id);
            }
        }
        None
    }

    /// An id that is not taken, drawn at random and drawn again while it is
    /// taken; after 256 draws the ids are searched in order. `None` where all
    /// 256 ids are taken.
    pub fn gen_unique_id(&self) -> (r: Option<PlayerId>)
        ensures
            r matches Some(id) ==> !self.is_taken(id),
            r is None ==> forall|id: PlayerId| self.is_taken(id),
    {
        let mut tries: u16 = 0;
        while tries < 256
            decreases 256 - tries,
        {
            let id = random_byte();
            if !self.id_taken(id) {
                return Some(id);
            }
            tries = tries + 1;
        }
        self.first_free_id(0)
    }

    /// Registers a new connection under a fresh id, which is returned.
    pub fn on_client_connect(&mut self) -> (r: Option<PlayerId>)
        requires
            old(self).wf(),
        ensures
            final(self).wf(),
            final(self).game_rooms == old(self).game_rooms,
            final(self).reserved == old(self).reserved,
            final(self).default_game_opts == old(self).default_game_opts,
            r matches Some(id) ==> !old(self).is_taken(id) && final(self).users()
                == old(self).users().push(User { id, game: None }),
            r is None ==> final(self).users() == old(self).users() && forall|id: PlayerId|
                old(self).is_taken(id),
    {
        let id = self.gen_unique_id();
        if let Some(id) = id {
            self.connected_users.push(User { id, game: None });
            proof {
                let s = self.users();
                let o = old(self).users();
                assert forall|k1: int, k2: int|
                    0 <= k1 < s.len() && 0 <= k2 < s.len() && k1 != k2 implies (#[trigger] s[k1]).id
                        != (#[trigger] s[k2]).id by {
                    if k1 < o.len() && k2 < o.len() {
                        assert(s[k1] == o[k1] && s[k2] == o[k2]);
                    } else if k1 < o.len() {
                        assert(s[k1] == o[k1]);
                    } else {
                        assert(s[k2] == o[k2]);
                    }
                }
                assert forall|k: int| 0 <= k < self.reserved@.len() implies !has_user(s, #[trigger] self.reserved@[k]) by {
                    let r = self.reserved@[k];
                    assert(old(self).reserved@.contains(r));
                    if has_user(s, r) {
                        let j = choose|j: int| 0 <= j < s.len() && (#[trigger] s[j]).id == r;
                        if j < o.len() {
                            assert(s[j] == o[j]);
                        }
                    }
                }
            }
        }
        id
    }

    /// Forgets the connection `id`, and takes it out of its room.
    fn forget_user(&mut self, id: PlayerId, now: u64, out: &mut Vec<Outgoing>)
        requires
            old(self).wf(),
        ensures
            extends(old(out)@, final(out)@),
            final(self).wf(),
            forgot(*old(self), *final(self), id, now, old(out)@, final(out)@),
            final(self).reserved == old(self).reserved,
    {
        match self.find_user(id) {
            None => {},
            Some(k) => {
                let ghost u0 = self.users();
                proof {
                    let j = user_index(u0, id);
                    assert(u0[k as int].id == id);
                    if j != k {
                        assert(u0[j].id != u0[k as int].id);
                    }
                }
                let user = self.connected_users.remove(k);
                proof {
                    let s = self.users();
                    assert forall|k1: int, k2: int|
                        0 <= k1 < s.len() && 0 <= k2 < s.len() && k1 != k2 implies (#[trigger] s[k1]).id
                            != (#[trigger] s[k2]).id by {
                        let i1 = if k1 < k { k1 } else { k1 + 1 };
                        let i2 = if k2 < k { k2 } else { k2 + 1 };
                        assert(s[k1] == u0[i1] && s[k2] == u0[i2]);
                    }
                    assert forall|i: int| 0 <= i < self.reserved@.len() implies !has_user(s, #[trigger] self.reserved@[i]) by {
                        let rid = self.reserved@[i];
                        if has_user(s, rid) {
                            let j = choose|j: int| 0 <= j < s.len() && (#[trigger] s[j]).id == rid;
                            let i2 = if j < k { j } else { j + 1 };
                            assert(s[j] == u0[i2]);
                        }
                    }
                }
                if let Some(game) = user.game {
                    if let Some(r) = self.find_room(&game.room_key) {
                        let ghost r0 = self.game_rooms@;
                        proof {
                            lemma_room_index(r0, game.room_key@, r as int);
                        }
                        let mut named = self.game_rooms.remove(r);
                        proof {
                            assert(named == r0[r as int]);
                        }
                        named.room.disconnect(id, now, out);
                        self.game_rooms.insert(r, named);
                        proof {
                            assert(self.game_rooms@ =~= r0.update(r as int, named));
                            lemma_room_replaced(r0, r as int, named);
                        }
                    }
                }
            },
        }
    }

    /// Handles the end of the session of `id`: a kicked player's id is
    /// released; any other connection is forgotten and leaves its room. A
    /// second report for the same id changes nothing.
    pub fn on_client_disconnect(&mut self, id: PlayerId, now: u64, out: &mut Vec<Outgoing>)
        requires
            old(self).wf(),
        ensures
            extends(old(out)@, final(out)@),
            final(self).wf(),
            disconnected(*old(self), *final(self), id, now, old(out)@, final(out)@),
    {
        match self.is_reserved(id) {
            Some(k) => {
                let ghost r0 = self.reserved@;
                self.reserved.remove(k);
                proof {
                    let r1 = self.reserved@;
                    assert(r1 == r0.remove(k as int));
                    assert forall|i: PlayerId| i != id implies (r1.contains(i) <==> r0.contains(i)) by {
                        if r0.contains(i) {
                            let j = choose|j: int| 0 <= j < r0.len() && r0[j] == i;
                            if j < k {
                                assert(r1[j] == i);
                            } else {
                                assert(r1[j - 1] == i);
                            }
                        }
                        if r1.contains(i) {
                            let j = choose|j: int| 0 <= j < r1.len() && r1[j] == i;
                            if j < k {
                                assert(r0[j] == i);
                            } else {
                                assert(r0[j + 1] == i);
                            }
                        }
                    }
                    if r1.contains(id) {
                        let j = choose|j: int| 0 <= j < r1.len() && r1[j] == id;
                        let i = if j < k { j } else { j + 1 };
                        assert(r0[i] == id && r0[k as int] == id);
                    }
                    assert forall|k1: int, k2: int|
                        0 <= k1 < r1.len() && 0 <= k2 < r1.len() && k1 != k2 implies #[trigger] r1[k1]
                            != #[trigger] r1[k2] by {
                        let i1 = if k1 < k { k1 } else { k1 + 1 };
                        let i2 = if k2 < k { k2 } else { k2 + 1 };
                        assert(r1[k1] == r0[i1] && r1[k2] == r0[i2]);
                    }
                    assert forall|i: int| 0 <= i < r1.len() implies !has_user(self.users(), #[trigger] r1[i]) by {
                        let i2 = if i < k { i } else { i + 1 };
                        assert(r1[i] == r0[i2]);
                    }
                }
            },
            None => {
                self.forget_user(id, now, out);
            },
        }
    }

    /// Tells the player `user_id` why they are being removed, removes them,
    /// and keeps their id until their session reports its end.
    pub fn kick_user(&mut self, user_id: PlayerId, reason: String, now: u64, out: &mut Vec<Outgoing>)
        requires
            old(self).wf(),
        ensures
            extends(old(out)@, final(out)@),
            final(self).wf(),
            kicked(*old(self), *final(self), user_id, reason@, now, old(out)@, final(out)@),
    {
        if self.find_user(user_id).is_some() {
            proof {
                if self.reserved@.contains(user_id) {
                    let j = choose|j: int| 0 <= j < self.reserved@.len() && self.reserved@[j] == user_id;
                    assert(!has_user(self.users(), self.reserved@[j]));
                }
            }
            out.push(Outgoing { to: user_id, msg: ToClient::Kicked(reason) });
            let ghost o1 = out@;
            self.forget_user(user_id, now, out);
            let ghost r0 = self.reserved@;
            self.reserved.push(user_id);
            proof {
                assert(out@[old(out)@.len() as int] == o1[old(out)@.len() as int]);
                assert(o1 == old(out)@.push(out@[old(out)@.len() as int]));
                let r1 = self.reserved@;
                assert forall|k1: int, k2: int|
                    0 <= k1 < r1.len() && 0 <= k2 < r1.len() && k1 != k2 implies #[trigger] r1[k1]
                        != #[trigger] r1[k2] by {
                    if k1 < r0.len() && k2 < r0.len() {
                        assert(r1[k1] == r0[k1] && r1[k2] == r0[k2]);
                    } else if k1 < r0.len() {
                        assert(r1[k1] == r0[k1]);
                        assert(!has_user(old(self).users(), r0[k1]));
                    } else if k2 < r0.len() {
                        assert(r1[k2] == r0[k2]);
                        assert(!has_user(old(self).users(), r0[k2]));
                    }
                }
                assert forall|i: int| 0 <= i < r1.len() implies !has_user(self.users(), #[trigger] r1[i]) by {
                    if i < r0.len() {
                        assert(r1[i] == r0[i]);
                    }
                }
            }
        }
    }

    /// Routes a message of a player to the room they are in: chat lines and
    /// draw actions are handled by the room; any other message, or one from a
    /// player who is not a member of a room, gets the sender kicked.
    pub fn on_user_game_msg(&mut self, from: Username, msg: ToServer, now: u64, out: &mut Vec<Outgoing>)
        requires
            old(self).wf(),
        ensures
            extends(old(out)@, final(out)@),
            final(self).wf(),
            game_msg_done(*old(self), *final(self), from, msg, now, old(out)@, final(out)@),
    {
        let k = match self.find_user(from.1) {
            Some(k) => k,
            None => {
                return;
            },
        };
        proof {
            let j = choose|j: int| 0 <= j < self.users().len() && (#[trigger] self.users()[j]).id == from.1;
            assert(self.users()[k as int].id == from.1);
            assert(j == k);
        }
        let r = match &self.connected_users[k].game {
            Some(game) => self.find_room(&game.room_key),
            None => None,
        };
        let r = match r {
            Some(r) => r,
            None => {
                proof {
                    if room_key_of(self.users(), from.1) is Some {
                        let key = room_key_of(self.users(), from.1)->Some_0;
                        if in_room(self.game_rooms@, key, from.1) {
                            let j = choose|j: int|
                                0 <= j < self.game_rooms@.len() && (#[trigger] self.game_rooms@[j]).key@ == key
                                    && is_member(self.game_rooms@[j].room.players@, from.1);
                            assert(has_room(self.game_rooms@, key));
                        }
                    }
                }
                self.kick_user(from.1, String::from_str("You are being naughty, got a unexpected message."), now, out);
                return;
            },
        };
        let ghost r0 = self.game_rooms@;
        let ghost key = room_key_of(self.users(), from.1)->Some_0;
        proof {
            lemma_room_index(r0, key, r as int);
        }
        if self.game_rooms[r].room.find_player(from.1).is_none() {
            proof {
                if in_room(self.game_rooms@, key, from.1) {
                    let j = choose|j: int|
                        0 <= j < self.game_rooms@.len() && (#[trigger] self.game_rooms@[j]).key@ == key
                            && is_member(self.game_rooms@[j].room.players@, from.1);
                    assert(j == r);
                }
            }
            self.kick_user(from.1, String::from_str("You are being naughty, got a unexpected message."), now, out);
            return;
        }
        let is_room_msg = match &msg {
            ToServer::Chat(_) => true,
            ToServer::Draw(_) => true,
            _ => false,
        };
        if !is_room_msg {
            self.kick_user(from.1, String::from_str("You are being naughty, got a unexpected message."), now, out);
            return;
        }
        let mut named = self.game_rooms.remove(r);
        proof {
            assert(named == r0[r as int]);
        }
        match msg {
            ToServer::Chat(chat) => {
                named.room.on_chat_msg(from, chat.into_inner(), now, out);
            },
            ToServer::Draw(draw) => {
                named.room.on_paint_msg(from.1, draw, out);
            },
            _ => {},
        }
        self.game_rooms.insert(r, named);
        proof {
            assert(self.game_rooms@ =~= r0.update(r as int, named));
            lemma_room_replaced(r0, r as int, named);
        }
    }

    /// Handles a player's request to join a room. A player already in a
    /// room, a request other than joining, and an unknown room name each get
    /// the player kicked with the reason; otherwise the player joins.
    pub fn on_room_request(&mut self, username: Username, action: RoomRequest, now: u64, out: &mut Vec<Outgoing>)
        requires
            old(self).wf(),
        ensures
            extends(old(out)@, final(out)@),
            final(self).wf(),
            room_request_done(*old(self), *final(self), username, action, now, old(out)@, final(out)@),
    {
        let id = username.1;
        let k = match self.find_user(id) {
            Some(k) => k,
            None => {
                return;
            },
        };
        proof {
            let j = choose|j: int| 0 <= j < self.users().len() && (#[trigger] self.users()[j]).id == id;
            assert(self.users()[k as int].id == id);
            assert(j == k);
        }
        if self.connected_users[k].game.is_some() {
            self.kick_user(id, String::from_str("You are not allowed to join multiple game rooms."), now, out);
            return;
        }
        let room_key = match &action {
            RoomRequest::Join(room_key) => room_key.clone(),
            _ => {
                self.kick_user(id, String::from_str("Unimplemented feature"), now, out);
                return;
            },
        };
        let r = match self.find_room(&room_key) {
            Some(r) => r,
            None => {
                self.kick_user(id, Error::RoomNotFound.describe(), now, out);
                return;
            },
        };
        let ghost r0 = self.game_rooms@;
        proof {
            lemma_room_index(r0, room_key@, r as int);
        }
        if self.game_rooms[r].room.find_player(id).is_some() {
            self.kick_user(id, String::from_str("You are not allowed to join multiple game rooms."), now, out);
            return;
        }
        let name = username.0.clone();
        let mut named = self.game_rooms.remove(r);
        proof {
            assert(named == r0[r as int]);
        }
        named.room.connect(username, now, out);
        self.game_rooms.insert(r, named);
        proof {
            assert(self.game_rooms@ =~= r0.update(r as int, named));
            lemma_room_replaced(r0, r as int, named);
        }
        let ghost u0 = self.users();
        self.connected_users[k].game = Some(InGameUser { room_key, name });
        proof {
            let us = self.users();
            assert(us =~= u0.update(k as int, User { id, game: Some(InGameUser { room_key: action->Join_0, name: username.0 }) }));
            assert forall|k1: int, k2: int|
                0 <= k1 < us.len() && 0 <= k2 < us.len() && k1 != k2 implies (#[trigger] us[k1]).id
                    != (#[trigger] us[k2]).id by {
                assert(us[k1].id == u0[k1].id && us[k2].id == u0[k2].id);
            }
            assert forall|i: int| 0 <= i < self.reserved@.len() implies !has_user(us, #[trigger] self.reserved@[i]) by {
                let rid = self.reserved@[i];
                if has_user(us, rid) {
                    let j = choose|j: int| 0 <= j < us.len() && (#[trigger] us[j]).id == rid;
                    assert(us[j].id == u0[j].id);
                }
            }
        }
    }

    /// Handles one event of the sessions. The result is false where the
    /// server is asked to stop.
    pub fn handle(&mut self, event: Message, now: u64, out: &mut Vec<Outgoing>) -> (r: bool)
        requires
            old(self).wf(),
        ensures
            extends(old(out)@, final(out)@),
            final(self).wf(),
            r == !(event is CtrlC),
            match event {
                Message::RoomRequest { from, req } => room_request_done(
                    *old(self),
                    *final(self),
                    from,
                    req,
                    now,
                    old(out)@,
                    final(out)@,
                ),
                Message::InRoomMessage { from, msg } => game_msg_done(
                    *old(self),
                    *final(self),
                    from,
                    msg,
                    now,
                    old(out)@,
                    final(out)@,
                ),
                Message::Disconnect { id } => disconnected(*old(self), *final(self), id, now, old(out)@, final(out)@),
                Message::CtrlC => *final(self) == *old(self) && final(out)@ == old(out)@,
            },
    {
        match event {
            Message::RoomRequest { from, req } => {
                self.on_room_request(from, req, now, out);
                true
            },
            Message::InRoomMessage { from, msg } => {
                self.on_user_game_msg(from, msg, now, out);
                true
            },
            Message::Disconnect { id } => {
                self.on_client_disconnect(id, now, out);
                true
            },
            Message::CtrlC => false,
        }
    }

    /// Lets time pass in every room.
    pub fn tick(&mut self, now: u64, out: &mut Vec<Outgoing>)
        requires
            old(self).wf(),
        ensures
            extends(old(out)@, final(out)@),
            final(self).wf(),
            final(self).users() == old(self).users(),
            final(self).reserved == old(self).reserved,
            final(self).default_game_opts == old(self).default_game_opts,
            final(self).game_rooms@.len() == old(self).game_rooms@.len(),
            forall|j: int|
                0 <= j < old(self).game_rooms@.len() ==> (#[trigger] final(self).game_rooms@[j]).key
                    == old(self).game_rooms@[j].key && GameRoom::tick_state(
                    old(self).game_rooms@[j].room,
                    final(self).game_rooms@[j].room,
                    now,
                ),
    {
        let mut r: usize = 0;
        while r < self.game_rooms.len()
            invariant
                old(self).wf(),
                self.wf(),
                r <= self.game_rooms@.len(),
                self.game_rooms@.len() == old(self).game_rooms@.len(),
                self.users() == old(self).users(),
                self.reserved == old(self).reserved,
                self.default_game_opts == old(self).default_game_opts,
                extends(old(out)@, out@),
                forall|j: int|
                    0 <= j < r ==> (#[trigger] self.game_rooms@[j]).key == old(self).game_rooms@[j].key
                        && GameRoom::tick_state(old(self).game_rooms@[j].room, self.game_rooms@[j].room, now),
                forall|j: int| r <= j < self.game_rooms@.len() ==> #[trigger] self.game_rooms@[j] == old(self).game_rooms@[j],
            decreases self.game_rooms@.len() - r,
        {
            let ghost r0 = self.game_rooms@;
            let mut named = self.game_rooms.remove(r);
            proof {
                assert(named == r0[r as int]);
            }
            named.room.tick(now, out);
            self.game_rooms.insert(r, named);
            proof {
                assert(self.game_rooms@ =~= r0.update(r as int, named));
                lemma_room_replaced(r0, r as int, named);
            }
            r = r + 1;
        }
    }
}

} // verus!
