//! A room: its players, its state, and the messages that each event in it
//! sends to its members.

use vstd::prelude::*;
use vstd::string::StringExecFns;
use std::collections::HashMap;
use crate::game::{guess_award, one_more_hint, sat_add, without, Skribbl};
use crate::world::extra_reveals;
use crate::message::{ChatMessage, ToClient};
use crate::text::edit_distance;
use crate::world::{
    coord_key, coord_key_of, same_draw, same_game, same_turn, seconds_left, Color, Coord, Draw, DrawingWord, Game,
    GameOpts, Player, PlayerId, RoomState, Username,
};

verus! {

broadcast use vstd::std_specs::hash::group_hash_axioms;

/// Players needed for a waiting room to start a game.
pub const REQUIRED_PLAYERS: usize = 1;

/// A message for the session of player `to`.
#[derive(Debug)]
pub struct Outgoing {
    pub to: PlayerId,
    pub msg: ToClient,
}

pub open spec fn is_member(players: Seq<Player>, id: PlayerId) -> bool {
    exists|k: int| 0 <= k < players.len() && (#[trigger] players[k]).name.1 == id
}

pub open spec fn ids_unique(players: Seq<Player>) -> bool {
    forall|k1: int, k2: int|
        0 <= k1 < players.len() && 0 <= k2 < players.len() && k1 != k2 ==> (
        #[trigger] players[k1]).name.1 != (#[trigger] players[k2]).name.1
}

/// A chat line from the game, with text `t`.
pub open spec fn system_text(m: ToClient, t: Seq<char>) -> bool {
    m matches ToClient::Chat(ChatMessage::System(s)) && s@ == t
}

/// A chat line of `sender`, with text `t`.
pub open spec fn user_text(m: ToClient, sender: Username, t: Seq<char>) -> bool {
    m matches ToClient::Chat(ChatMessage::User(u, s)) && u == sender && s@ == t
}

/// `after` starts with `before`.
pub open spec fn extends(before: Seq<Outgoing>, after: Seq<Outgoing>) -> bool {
    &&& before.len() <= after.len()
    &&& forall|i: int| 0 <= i < before.len() ==> #[trigger] after[i] == before[i]
}

/// `after` is `before` followed by one message to each of `players`, in
/// their order, each of which satisfies `ok`.
pub open spec fn fans_out(
    before: Seq<Outgoing>,
    after: Seq<Outgoing>,
    players: Seq<Player>,
    ok: spec_fn(PlayerId, ToClient) -> bool,
) -> bool {
    &&& after.len() == before.len() + players.len()
    &&& extends(before, after)
    &&& forall|k: int|
        0 <= k < players.len() ==> (#[trigger] after[before.len() + k]).to == players[k].name.1
            && ok(players[k].name.1, after[before.len() + k].msg)
}

/// What the player `id` is told when a turn of `sk` starts: the drawer is
/// given the word, everyone else only what guessers see.
pub open spec fn turn_start_for(sk: Skribbl, id: PlayerId, m: ToClient) -> bool {
    m matches ToClient::TurnStart(t) && if sk.drawer() == Some(id) {
        &&& t.state == sk.game.turn.state
        &&& t.end_instant == sk.game.turn.end_instant
        &&& t.current_round == sk.game.turn.current_round
        &&& t.last_round == sk.game.turn.last_round
        &&& t.word matches DrawingWord::Draw(w) && w@ == sk.current_word@
    } else {
        same_turn(sk.game.turn, t)
    }
}

/// The canvas after `n` points of `points` were painted in `color`.
pub open spec fn painted(canvas: Map<u32, Color>, points: Seq<Coord>, color: Color) -> Map<u32, Color>
    decreases points.len(),
{
    if points.len() == 0 {
        canvas
    } else {
        painted(canvas, points.drop_last(), color).insert(coord_key(points.last()), color)
    }
}

/// The canvas after a draw action.
pub open spec fn apply_draw(canvas: Map<u32, Color>, d: Draw) -> Map<u32, Color> {
    match d {
        Draw::Clear => Map::empty(),
        Draw::Erase(p) => canvas.remove(coord_key(p)),
        Draw::Paint { points, color } => painted(canvas, points@, color),
    }
}

/// The text announcing that `name` guessed the word.
pub open spec fn guessed_text(name: Seq<char>) -> Seq<char> {
    name + " guessed it!"@
}

/// The text announcing that `name` left.
pub open spec fn left_text(name: Seq<char>) -> Seq<char> {
    name + " left the room"@
}

/// The text that tells a guesser that one character is wrong.
pub open spec fn close_text() -> Seq<char> {
    "You're very close!"@
}

/// `b` holds the players of `a`, in the same order, with the same names and
/// scores.
pub open spec fn same_roster(a: Seq<Player>, b: Seq<Player>) -> bool {
    &&& a.len() == b.len()
    &&& forall|k: int|
        0 <= k < a.len() ==> (#[trigger] b[k]).name == a[k].name && b[k].score == a[k].score
}

/// The players of `players` other than `skip`, in order.
pub open spec fn others(players: Seq<Player>, skip: PlayerId) -> Seq<Player>
    decreases players.len(),
{
    if players.len() == 0 {
        Seq::empty()
    } else {
        let r = others(players.drop_last(), skip);
        if players.last().name.1 != skip {
            r.push(players.last())
        } else {
            r
        }
    }
}

proof fn lemma_member_after_remove(players: Seq<Player>, k: int, id: PlayerId)
    requires
        0 <= k < players.len(),
        ids_unique(players),
    ensures
        ids_unique(players.remove(k)),
        is_member(players.remove(k), id) <==> is_member(players, id) && players[k].name.1 != id,
{
    let r = players.remove(k);
    assert forall|k1: int, k2: int|
        0 <= k1 < r.len() && 0 <= k2 < r.len() && k1 != k2 implies (#[trigger] r[k1]).name.1 != (
        #[trigger] r[k2]).name.1 by {
        let i1 = if k1 < k { k1 } else { k1 + 1 };
        let i2 = if k2 < k { k2 } else { k2 + 1 };
        assert(r[k1] == players[i1] && r[k2] == players[i2]);
    }
    if is_member(players, id) && players[k].name.1 != id {
        let j = choose|j: int| 0 <= j < players.len() && (#[trigger] players[j]).name.1 == id;
        if j < k {
            assert(r[j] == players[j]);
        } else {
            assert(r[j - 1] == players[j]);
        }
    }
    if is_member(r, id) {
        let j = choose|j: int| 0 <= j < r.len() && (#[trigger] r[j]).name.1 == id;
        let i = if j < k { j } else { j + 1 };
        assert(r[j] == players[i]);
        assert(ids_unique(players));
        if players[k].name.1 == id {
            assert(players[k].name.1 == players[i].name.1);
        }
    }
}

/// `b` holds players with the names of `a`, in the same order.
pub open spec fn same_names(a: Seq<Player>, b: Seq<Player>) -> bool {
    &&& a.len() == b.len()
    &&& forall|k: int| 0 <= k < a.len() ==> (#[trigger] b[k]).name == a[k].name
}

proof fn lemma_same_roster_members(a: Seq<Player>, b: Seq<Player>)
    requires
        same_names(a, b),
    ensures
        forall|i: PlayerId| is_member(a, i) <==> is_member(b, i),
        ids_unique(a) ==> ids_unique(b),
{
    assert forall|i: PlayerId| is_member(a, i) <==> is_member(b, i) by {
        if is_member(a, i) {
            let j = choose|j: int| 0 <= j < a.len() && (#[trigger] a[j]).name.1 == i;
            assert(b[j].name == a[j].name);
        }
        if is_member(b, i) {
            let j = choose|j: int| 0 <= j < b.len() && (#[trigger] b[j]).name.1 == i;
            assert(b[j].name == a[j].name);
        }
    }
    if ids_unique(a) {
        assert forall|k1: int, k2: int|
            0 <= k1 < b.len() && 0 <= k2 < b.len() && k1 != k2 implies (#[trigger] b[k1]).name.1
                != (#[trigger] b[k2]).name.1 by {
            assert(b[k1].name == a[k1].name && b[k2].name == a[k2].name);
        }
    }
}

/// Applies a draw action to a canvas.
pub fn apply_to_canvas(canvas: &mut HashMap<u32, Color>, d: &Draw)
    ensures
        final(canvas)@ == apply_draw(old(canvas)@, *d),
{
    match d {
        Draw::Clear => {
            canvas.clear();
        },
        Draw::Erase(p) => {
            canvas.remove(&coord_key_of(*p));
        },
        Draw::Paint { points, color } => {
            let ghost c0 = canvas@;
            let mut k: usize = 0;
            while k < points.len()
                invariant
                    k <= points@.len(),
                    canvas@ == painted(c0, points@.take(k as int), *color),
                decreases points@.len() - k,
            {
                proof {
                    assert(points@.take(k + 1).drop_last() == points@.take(k as int));
                    assert(points@.take(k + 1).last() == points@[k as int]);
                }
                canvas.insert(coord_key_of(points[k]), *color);
                k = k + 1;
            }
            proof {
                assert(points@.take(points@.len() as int) == points@);
            }
        },
    }
}

/// The players of `players` who cannot guess: the drawer, and those who
/// solved the turn; in order.
pub open spec fn non_guessers(players: Seq<Player>, drawer: Option<PlayerId>) -> Seq<Player>
    decreases players.len(),
{
    if players.len() == 0 {
        Seq::empty()
    } else {
        let r = non_guessers(players.drop_last(), drawer);
        if players.last().solved_current_round || drawer == Some(players.last().name.1) {
            r.push(players.last())
        } else {
            r
        }
    }
}

/// Every player but the drawer solved the turn.
pub open spec fn all_solved(players: Seq<Player>, drawer: Option<PlayerId>) -> bool {
    forall|k: int|
        0 <= k < players.len() ==> (#[trigger] players[k]).solved_current_round || drawer == Some(
            players[k].name.1,
        )
}

/// How a room stands after a round was due to start with `players0` in a
/// game at round `cur` of `last`: it rests where the last round was played;
/// otherwise the next round runs and the first of `players0` draws.
pub open spec fn round_started(cur: usize, last: usize, players0: Seq<Player>, after: GameRoom) -> bool {
    if cur >= last {
        GameRoom::resting(after.owner_id, after.state)
    } else {
        after.state matches RoomState::Playing(sk) && sk.game.turn.current_round == cur + 1
            && sk.drawer() == Some(players0[0].name.1)
    }
}

/// How a room stands after the turn passed on, where `left` were still owed
/// a turn: the first of them draws and leaves the list; where none is left,
/// the next round is due.
pub open spec fn turn_passed(
    left: Seq<Username>,
    cur: usize,
    last: usize,
    players0: Seq<Player>,
    after: GameRoom,
) -> bool {
    if left.len() > 0 {
        after.state matches RoomState::Playing(sk) && sk.drawer() == Some(left[0].1)
            && sk.players_left_in_round@ == left.drop_first() && sk.game.turn.current_round == cur
    } else {
        round_started(cur, last, players0, after)
    }
}

/// The last messages of `out` tell each of the room's players of the turn
/// that starts: the drawer is sent the word, the others what guessers see.
pub open spec fn announced(room: GameRoom, out: Seq<Outgoing>) -> bool {
    &&& out.len() >= room.players@.len()
    &&& fans_out(
        out.take(out.len() - room.players@.len()),
        out,
        room.players@,
        |id: PlayerId, m: ToClient| turn_start_for(room.state->Playing_0, id, m),
    )
}

/// A turn with `remaining` of `duration` seconds left that showed `extra`
/// letters beyond whitespace and hyphens is due another: one once half of
/// the turn is over, a second once three quarters are.
pub open spec fn hint_due(remaining: u32, duration: usize, extra: nat) -> bool {
    (remaining as int * 2 <= duration as int && extra < 1) || (remaining as int * 4 <= duration as int
        && extra < 2)
}

/// A game instance with its own players and state.
pub struct GameRoom {
    pub state: RoomState<Skribbl>,
    pub game_opts: GameOpts,
    /// The leader of the room, where it has one.
    pub owner_id: Option<PlayerId>,
    /// The players connected to the room, in the order they joined.
    pub players: Vec<Player>,
}

impl GameRoom {
    /// What guessers were shown of the word beyond its whitespace and hyphens.
    pub open spec fn extra_shown(sk: Skribbl) -> nat {
        match sk.game.turn.word {
            DrawingWord::Guess { hints, .. } => extra_reveals(hints@),
            DrawingWord::Draw(_) => 0,
        }
    }

    /// How a room stands after time passed to `now`.
    pub open spec fn tick_state(r0: GameRoom, r1: GameRoom, now: u64) -> bool {
        &&& same_names(r0.players@, r1.players@)
        &&& r1.owner_id == r0.owner_id
        &&& r1.game_opts == r0.game_opts
        &&& !(r0.state is Playing) ==> r1 == r0
        &&& r0.state is Playing && (seconds_left(r0.state->Playing_0.game.turn.end_instant, now) == 0
            || all_solved(r0.players@, r0.drawer())) ==> turn_passed(
            r0.state->Playing_0.players_left_in_round@,
            r0.state->Playing_0.game.turn.current_round,
            r0.state->Playing_0.game.turn.last_round,
            r0.players@,
            r1,
        )
        &&& r0.state is Playing && seconds_left(r0.state->Playing_0.game.turn.end_instant, now) > 0
            && !all_solved(r0.players@, r0.drawer()) ==> r1.players == r0.players && r1.state is Playing
            && r1.drawer() == r0.drawer()
        &&& r0.state is Playing && seconds_left(r0.state->Playing_0.game.turn.end_instant, now) > 0
            && !all_solved(r0.players@, r0.drawer()) ==> ({
            let sk0 = r0.state->Playing_0;
            let sk1 = r1.state->Playing_0;
            if hint_due(seconds_left(sk0.game.turn.end_instant, now), sk0.round_duration, Self::extra_shown(sk0))
                && sk0.can_reveal() {
                sk0.game.turn.word matches DrawingWord::Guess { hints: h0, .. }
                    && sk1.game.turn.word matches DrawingWord::Guess { hints: h1, .. }
                    && one_more_hint(h0@, h1@, sk0.current_word@)
            } else {
                sk1.game.turn.word == sk0.game.turn.word
            }
        })
    }

    pub open spec fn chat_done(r0: GameRoom, r1: GameRoom, sender: Username, msg: Seq<char>, now: u64, o0: Seq<Outgoing>, o1: Seq<Outgoing>) -> bool {
        &&& (r1.state == r0.state)
        &&& (r1.owner_id == r0.owner_id)
        &&& (r1.game_opts == r0.game_opts)
        &&& (!(r0.state is Playing) ==> r1.players == r0.players && fans_out(
                o0,
                o1,
                r0.players@,
                |id: PlayerId, m: ToClient| user_text(m, sender, msg),
            ))
        &&& (r0.state is Playing && !is_member(r0.players@, sender.1) ==> r1.players == r0.players && o1 == o0)
        &&& (r0.state is Playing && is_member(r0.players@, sender.1) ==> {
                let sk = r0.state->Playing_0;
                let k = r0.index_of(sender.1);
                let p = r0.players@[k];
                let d = edit_distance(msg, sk.current_word@);
                if sk.drawer() == Some(sender.1) || p.solved_current_round {
                    r1.players@ == r0.players@ && fans_out(
                        o0,
                        o1,
                        non_guessers(r0.players@, sk.drawer()),
                        |id: PlayerId, m: ToClient| user_text(m, sender, msg),
                    )
                } else if d == 0 {
                    &&& r1.players@ == r0.players@.update(
                        k,
                        Player {
                            score: sat_add(
                                p.score,
                                guess_award(seconds_left(sk.game.turn.end_instant, now), sk.round_duration),
                            ),
                            name: p.name,
                            solved_current_round: true,
                        },
                    )
                    &&& fans_out(
                        o0,
                        o1,
                        r1.players@,
                        |id: PlayerId, m: ToClient| system_text(m, guessed_text(sender.0@)),
                    )
                } else if d == 1 {
                    &&& r1.players@ == r0.players@
                    &&& o1.len() == o0.len() + 1
                    &&& extends(o0, o1)
                    &&& o1[o0.len() as int].to == sender.1
                    &&& system_text(o1[o0.len() as int].msg, close_text())
                } else {
                    r1.players@ == r0.players@ && fans_out(
                        o0,
                        o1,
                        r0.players@,
                        |id: PlayerId, m: ToClient| user_text(m, sender, msg),
                    )
                }
            })
    }

    pub open spec fn paint_done(r0: GameRoom, r1: GameRoom, sender_id: PlayerId, draw_action: Draw, o0: Seq<Outgoing>, o1: Seq<Outgoing>) -> bool {
        &&& (r0.drawer() != Some(sender_id) ==> r1 == r0 && o1
                == o0)
        &&& (r0.drawer() == Some(sender_id) ==> {
                &&& r0.state matches RoomState::Playing(sk0)
                &&& r1.state matches RoomState::Playing(sk)
                &&& sk.game.canvas@ == apply_draw(sk0.game.canvas@, draw_action)
                &&& sk.game.turn == sk0.game.turn
                &&& sk.game.dimensions == sk0.game.dimensions
                &&& sk.current_word == sk0.current_word
                &&& sk.players_left_in_round == sk0.players_left_in_round
                &&& sk.words == sk0.words
                &&& sk.next_word == sk0.next_word
                &&& sk.round_duration == sk0.round_duration
                &&& fans_out(
                    o0,
                    o1,
                    others(r0.players@, sender_id),
                    |id: PlayerId, m: ToClient| m matches ToClient::Draw(d2) && same_draw(draw_action, d2),
                )
            })
        &&& (r1.players == r0.players)
        &&& (r1.owner_id == r0.owner_id)
        &&& (r1.game_opts == r0.game_opts)
    }

    pub open spec fn connect_done(r0: GameRoom, r1: GameRoom, username: Username, now: u64, o0: Seq<Outgoing>, o1: Seq<Outgoing>) -> bool {
        &&& (same_roster(r0.players@.push(Player::fresh_spec(username)), r1.players@))
        &&& (!(r0.state is Waiting) ==> r1.players@ == r0.players@.push(Player::fresh_spec(username)))
        &&& (r0.state is Waiting ==> forall|k: int|
            0 <= k < r1.players@.len() && (#[trigger] r1.players@[k]).solved_current_round
                ==> r0.players@.push(Player::fresh_spec(username))[k].solved_current_round)
        &&& (r0.state is Waiting && r1.state is Playing ==> forall|k: int|
            0 <= k < r1.players@.len() ==> !(#[trigger] r1.players@[k]).solved_current_round)
        &&& (is_member(r1.players@, username.1))
        &&& (r1.owner_id == r0.owner_id)
        &&& (r1.game_opts == r0.game_opts)
        &&& (!(r0.state is Waiting) ==> r1.state == r0.state)
        &&& (r0.state is Waiting ==> r1.state is Playing || Self::resting(
                r1.owner_id,
                r1.state,
            ))
        &&& (r0.state is Waiting ==> round_started(
                0,
                r0.game_opts.number_of_rounds,
                r0.players@.push(Player::fresh_spec(username)),
                r1,
            ))
        &&& (!r1.players@[r0.players@.len() as int].solved_current_round)
        &&& (fans_out(
                o0,
                o1.take((o0.len() + r0.players@.len()) as int),
                r0.players@,
                |id: PlayerId, m: ToClient| m matches ToClient::PlayerConnect(p) && p == Player::fresh_spec(username),
            ))
        &&& (o1.len() > o0.len() + r0.players@.len())
        &&& (({
                let o = o1[(o0.len() + r0.players@.len()) as int];
                &&& o.to == username.1
                &&& o.msg matches ToClient::JoinRoom { username: u, player_list, initial_state }
                &&& u == username
                &&& player_list@ == r0.players@.push(Player::fresh_spec(username))
                &&& (initial_state is Playing <==> r0.state is Playing)
            }))
    }

    pub open spec fn disconnect_done(r0: GameRoom, r1: GameRoom, player_id: PlayerId, now: u64, o0: Seq<Outgoing>, o1: Seq<Outgoing>) -> bool {
        &&& (!is_member(r1.players@, player_id))
        &&& (!is_member(r0.players@, player_id) ==> r1 == r0 && o1
                == o0)
        &&& (is_member(r0.players@, player_id) ==> r1.players@.len() == r0.players@.len() - 1)
        &&& (forall|i: PlayerId|
                is_member(r0.players@, i) && i != player_id ==> is_member(
                    r1.players@,
                    i,
                ))
        &&& (r1.owner_id == r0.owner_id)
        &&& (r1.game_opts == r0.game_opts)
        &&& (is_member(r0.players@, player_id) && r1.players@.len() == 0
                ==> Self::resting(r1.owner_id, r1.state))
        &&& (r0.drawer() == Some(player_id) && r1.players@.len() > 0 ==> (r1.state is Playing
            || Self::resting(r1.owner_id, r1.state)))
        &&& (r1.drawer() != Some(player_id))
        &&& (is_member(r0.players@, player_id) && r0.drawer() == Some(player_id)
                && r1.players@.len() > 0 ==> turn_passed(
                without(r0.state->Playing_0.players_left_in_round@, player_id),
                r0.state->Playing_0.game.turn.current_round,
                r0.state->Playing_0.game.turn.last_round,
                r0.players@.remove(r0.index_of(player_id)),
                r1,
            ))
        &&& (is_member(r0.players@, player_id) ==> ({
                let k = r0.index_of(player_id);
                let name = r0.players@[k].name;
                let rest = r0.players@.remove(k);
                let n0 = o0.len();
                &&& o1.len() >= n0 + 2 * rest.len()
                &&& fans_out(
                    o0,
                    o1.take((n0 + rest.len()) as int),
                    rest,
                    |id: PlayerId, m: ToClient| system_text(m, left_text(name.0@)),
                )
                &&& fans_out(
                    o1.take((n0 + rest.len()) as int),
                    o1.take((n0 + 2 * rest.len()) as int),
                    rest,
                    |id: PlayerId, m: ToClient| m matches ToClient::PlayerDisconnect(u) && u == name,
                )
            }))
    }

    /// The invariant that holds between events.
    pub open spec fn wf(&self) -> bool {
        &&& self.wf_base()
        &&& self.state matches RoomState::Playing(sk) ==> {
            &&& self.players@.len() > 0
            &&& sk.drawer() matches Some(d) && is_member(self.players@, d)
            &&& forall|k: int|
                0 <= k < sk.players_left_in_round@.len() ==> is_member(
                    self.players@,
                    (#[trigger] sk.players_left_in_round@[k]).1,
                )
        }
    }

    /// The part of the invariant that also holds while a game is set up.
    pub open spec fn wf_base(&self) -> bool {
        &&& ids_unique(self.players@)
        &&& self.game_opts.custom_words@.len() > 0
        &&& self.state matches RoomState::Playing(sk) ==> sk.wf() && sk.round_duration
            == self.game_opts.round_duration
    }

    /// The id of the player who draws, while a game is played.
    pub open spec fn drawer(&self) -> Option<PlayerId> {
        match self.state {
            RoomState::Playing(sk) => sk.drawer(),
            _ => None,
        }
    }

    /// The state a room rests in while no game is played.
    pub open spec fn resting(owner_id: Option<PlayerId>, state: RoomState<Skribbl>) -> bool {
        if owner_id is Some {
            state is Lobby
        } else {
            state is Waiting
        }
    }

    pub open spec fn index_of(&self, id: PlayerId) -> int {
        choose|k: int| 0 <= k < self.players@.len() && (#[trigger] self.players@[k]).name.1 == id
    }

    /// A room with no players: in the lobby where it has an owner, else
    /// waiting for players.
    pub fn new(game_opts: GameOpts, owner_id: Option<PlayerId>) -> (r: Self)
        requires
            game_opts.custom_words@.len() > 0,
        ensures
            r.wf(),
            r.players@.len() == 0,
            Self::resting(owner_id, r.state),
            r.owner_id == owner_id,
            r.game_opts == game_opts,
    {
        GameRoom {
            state: if owner_id.is_some() {
                RoomState::Lobby
            } else {
                RoomState::Waiting
            },
            game_opts,
            owner_id,
            players: Vec::new(),
        }
    }

    /// Where `id` stands among the players.
    pub fn find_player(&self, id: PlayerId) -> (r: Option<usize>)
        ensures
            r matches Some(k) ==> k < self.players@.len() && self.players@[k as int].name.1 == id,
            r is None <==> !is_member(self.players@, id),
    {
        let mut k: usize = 0;
        while k < self.players.len()
            invariant
                k <= self.players@.len(),
                forall|j: int| 0 <= j < k ==> (#[trigger] self.players@[j]).name.1 != id,
            decreases self.players@.len() - k,
        {
            if self.players[k].name.1 == id {
                return Some(k);
            }
            k = k + 1;
        }
        None
    }

    /// The players, copied.
    pub fn player_list(&self) -> (r: Vec<Player>)
        ensures
            r@ == self.players@,
    {
        let mut r: Vec<Player> = Vec::new();
        let mut k: usize = 0;
        while k < self.players.len()
            invariant
                k <= self.players@.len(),
                r@ == self.players@.take(k as int),
            decreases self.players@.len() - k,
        {
            r.push(self.players[k].duplicate());
            proof {
                assert(self.players@.take(k + 1) == self.players@.take(k as int).push(self.players@[k as int]));
            }
            k = k + 1;
        }
        proof {
            assert(self.players@.take(self.players@.len() as int) == self.players@);
        }
        r
    }

    /// The room's state as clients are shown it.
    pub fn game_state(&self) -> (r: RoomState<Game>)
        ensures
            r is FreeDraw <==> self.state is FreeDraw,
            r is Lobby <==> self.state is Lobby,
            r is Waiting <==> self.state is Waiting,
            r is Playing <==> self.state is Playing,
            r matches RoomState::Playing(g) ==> same_game(self.state->Playing_0.game, g),
    {
        match &self.state {
            RoomState::FreeDraw => RoomState::FreeDraw,
            RoomState::Lobby => RoomState::Lobby,
            RoomState::Waiting => RoomState::Waiting,
            RoomState::Playing(skribbl) => RoomState::Playing(skribbl.game.duplicate()),
        }
    }

    /// Sends `msg` to player `to`, where `to` is in the room.
    fn send(&self, to: PlayerId, msg: ToClient, out: &mut Vec<Outgoing>)
        ensures
            extends(old(out)@, final(out)@),
            is_member(self.players@, to) ==> final(out)@ == old(out)@.push(Outgoing { to, msg }),
            !is_member(self.players@, to) ==> final(out)@ == old(out)@,
    {
        if self.find_player(to).is_some() {
            out.push(Outgoing { to, msg });
        }
    }

    /// Sends every player the chat line `text` from the game.
    fn broadcast_system_text(&self, text: &String, out: &mut Vec<Outgoing>)
        ensures
            fans_out(old(out)@, final(out)@, self.players@, |id: PlayerId, m: ToClient| system_text(m, text@)),
    {
        let ghost before = out@;
        let mut k: usize = 0;
        while k < self.players.len()
            invariant
                k <= self.players@.len(),
                out@.len() == before.len() + k,
                extends(before, out@),
                forall|j: int|
                    0 <= j < k ==> (#[trigger] out@[before.len() + j]).to == self.players@[j].name.1
                        && system_text(out@[before.len() + j].msg, text@),
            decreases self.players@.len() - k,
        {
            let to = self.players[k].name.1;
            let ghost prev = out@;
            out.push(Outgoing { to, msg: ToClient::Chat(ChatMessage::System(text.clone())) });
            proof {
                assert forall|j: int| 0 <= j < k implies #[trigger] out@[before.len() + j] == prev[before.len() + j] by {}
            }
            k = k + 1;
        }
    }

    /// Sends every player the chat line `text` of `sender`.
    fn broadcast_user_text(&self, sender: &Username, text: &String, out: &mut Vec<Outgoing>)
        ensures
            fans_out(old(out)@, final(out)@, self.players@, |id: PlayerId, m: ToClient| user_text(m, *sender, text@)),
    {
        let ghost before = out@;
        let mut k: usize = 0;
        while k < self.players.len()
            invariant
                k <= self.players@.len(),
                out@.len() == before.len() + k,
                extends(before, out@),
                forall|j: int|
                    0 <= j < k ==> (#[trigger] out@[before.len() + j]).to == self.players@[j].name.1
                        && user_text(out@[before.len() + j].msg, *sender, text@),
            decreases self.players@.len() - k,
        {
            let to = self.players[k].name.1;
            let ghost prev = out@;
            out.push(Outgoing { to, msg: ToClient::Chat(ChatMessage::User(sender.duplicate(), text.clone())) });
            proof {
                assert forall|j: int| 0 <= j < k implies #[trigger] out@[before.len() + j] == prev[before.len() + j] by {}
            }
            k = k + 1;
        }
    }

    /// Tells every player the room's state.
    fn broadcast_state(&self, out: &mut Vec<Outgoing>)
        ensures
            fans_out(old(out)@, final(out)@, self.players@, |id: PlayerId, m: ToClient| m is RoomStateChange),
    {
        let ghost before = out@;
        let mut k: usize = 0;
        while k < self.players.len()
            invariant
                k <= self.players@.len(),
                out@.len() == before.len() + k,
                extends(before, out@),
                forall|j: int|
                    0 <= j < k ==> (#[trigger] out@[before.len() + j]).to == self.players@[j].name.1
                        && out@[before.len() + j].msg is RoomStateChange,
            decreases self.players@.len() - k,
        {
            let to = self.players[k].name.1;
            let ghost prev = out@;
            out.push(Outgoing { to, msg: ToClient::RoomStateChange(self.game_state()) });
            proof {
                assert forall|j: int| 0 <= j < k implies #[trigger] out@[before.len() + j] == prev[before.len() + j] by {}
            }
            k = k + 1;
        }
    }

    /// Tells every player that a turn started: the drawer is sent the word,
    /// the others what guessers see of it.
    fn announce_turn(&self, out: &mut Vec<Outgoing>)
        requires
            self.state matches RoomState::Playing(sk) && sk.game.turn.word is Guess,
        ensures
            self.state matches RoomState::Playing(sk) && fans_out(
                old(out)@,
                final(out)@,
                self.players@,
                |id: PlayerId, m: ToClient| turn_start_for(sk, id, m),
            ),
    {
        let ghost before = out@;
        let ghost sk = self.state->Playing_0;
        let mut k: usize = 0;
        while k < self.players.len()
            invariant
                self.state == RoomState::Playing(sk),
                sk.game.turn.word is Guess,
                k <= self.players@.len(),
                out@.len() == before.len() + k,
                extends(before, out@),
                forall|j: int|
                    0 <= j < k ==> (#[trigger] out@[before.len() + j]).to == self.players@[j].name.1
                        && turn_start_for(sk, self.players@[j].name.1, out@[before.len() + j].msg),
            decreases self.players@.len() - k,
        {
            let to = self.players[k].name.1;
            let msg = match &self.state {
                RoomState::Playing(skribbl) => {
                    let turn = skribbl.game.turn.duplicate();
                    if skribbl.is_drawing(to) {
                        ToClient::TurnStart(turn.with_word(DrawingWord::Draw(skribbl.current_word.clone())))
                    } else {
                        ToClient::TurnStart(turn)
                    }
                },
                _ => ToClient::TimeChanged(0),
            };
            let ghost prev = out@;
            out.push(Outgoing { to, msg });
            proof {
                assert forall|j: int| 0 <= j < k implies #[trigger] out@[before.len() + j] == prev[before.len() + j] by {}
            }
            k = k + 1;
        }
    }

    /// Marks every player as not having solved the current turn.
    fn reset_solved(&mut self)
        ensures
            final(self).players@.len() == old(self).players@.len(),
            forall|k: int|
                0 <= k < final(self).players@.len() ==> (#[trigger] final(self).players@[k]).name
                    == old(self).players@[k].name && final(self).players@[k].score == old(self).players@[k].score && !final(self).players@[k].solved_current_round,
            final(self).state == old(self).state,
            final(self).game_opts == old(self).game_opts,
            final(self).owner_id == old(self).owner_id,
    {
        let mut k: usize = 0;
        while k < self.players.len()
            invariant
                k <= self.players@.len(),
                self.players@.len() == old(self).players@.len(),
                forall|j: int|
                    0 <= j < self.players@.len() ==> (#[trigger] self.players@[j]).name == old(self).players@[j].name && self.players@[j].score == old(self).players@[j].score,
                forall|j: int| 0 <= j < k ==> !(#[trigger] self.players@[j]).solved_current_round,
                self.state == old(self).state,
                self.game_opts == old(self).game_opts,
                self.owner_id == old(self).owner_id,
            decreases self.players@.len() - k,
        {
            self.players[k].solved_current_round = false;
            k = k + 1;
        }
    }

    /// Ends the game: the room rests, and every player is told.
    pub fn end_game(&mut self, out: &mut Vec<Outgoing>)
        requires
            old(self).wf_base(),
        ensures
            extends(old(out)@, final(out)@),
            final(self).wf(),
            Self::resting(final(self).owner_id, final(self).state),
            final(self).players == old(self).players,
            final(self).owner_id == old(self).owner_id,
            final(self).game_opts == old(self).game_opts,
            fans_out(old(out)@, final(out)@, final(self).players@, |id: PlayerId, m: ToClient| m is RoomStateChange),
    {
        self.state = if self.owner_id.is_some() {
            RoomState::Lobby
        } else {
            RoomState::Waiting
        };
        self.broadcast_state(out);
    }

    /// Starts the next round, or ends the game where the last round was
    /// played. In a new round every player, in the order they joined, is owed
    /// a turn; the first of them draws now.
    pub fn start_round(&mut self, now: u64, out: &mut Vec<Outgoing>)
        requires
            old(self).wf_base(),
            old(self).state is Playing,
            old(self).players@.len() > 0,
        ensures
            forall|k: int|
                0 <= k < final(self).players@.len() && (#[trigger] final(self).players@[k]).solved_current_round
                    ==> old(self).players@[k].solved_current_round,
            extends(old(out)@, final(out)@),
            final(self).wf(),
            same_roster(old(self).players@, final(self).players@),
            final(self).owner_id == old(self).owner_id,
            final(self).game_opts == old(self).game_opts,
            old(self).state matches RoomState::Playing(sk0) && round_started(
                sk0.game.turn.current_round,
                sk0.game.turn.last_round,
                old(self).players@,
                *final(self),
            ),
            final(self).state is Playing ==> forall|k: int|
                0 <= k < final(self).players@.len()
                    ==> !(#[trigger] final(self).players@[k]).solved_current_round,
            final(self).state is Playing ==> announced(*final(self), final(out)@),
    {
        let mut st = RoomState::Waiting;
        std::mem::swap(&mut st, &mut self.state);
        match st {
            RoomState::Playing(mut skribbl) => {
                if skribbl.is_last_round() {
                    self.end_game(out);
                } else {
                    self.reset_solved();
                    skribbl.start_round(&self.players, now);
                    self.state = RoomState::Playing(skribbl);
                    proof {
                        let sk = self.state->Playing_0;
                        assert(is_member(self.players@, sk.drawer()->Some_0)) by {
                            assert(self.players@[0].name.1 == sk.drawer()->Some_0);
                        }
                        assert forall|k: int| 0 <= k < sk.players_left_in_round@.len() implies is_member(
                            self.players@,
                            (#[trigger] sk.players_left_in_round@[k]).1,
                        ) by {
                            assert(self.players@[k + 1].name.1 == sk.players_left_in_round@[k].1);
                        }
                    }
                    self.announce_turn(out);
                }
            },
            other => {
                self.state = other;
            },
        }
    }

    /// Hands the turn to the next player owed one in this round, or starts
    /// the next round where none is left.
    pub fn start_turn(&mut self, now: u64, out: &mut Vec<Outgoing>)
        requires
            old(self).wf_base(),
            old(self).state matches RoomState::Playing(sk) && forall|k: int|
                0 <= k < sk.players_left_in_round@.len() ==> is_member(
                    old(self).players@,
                    (#[trigger] sk.players_left_in_round@[k]).1,
                ),
            old(self).players@.len() > 0,
        ensures
            extends(old(out)@, final(out)@),
            final(self).wf(),
            same_roster(old(self).players@, final(self).players@),
            final(self).owner_id == old(self).owner_id,
            final(self).game_opts == old(self).game_opts,
            final(self).state is Playing || Self::resting(final(self).owner_id, final(self).state),
            old(self).state matches RoomState::Playing(sk0) && turn_passed(
                sk0.players_left_in_round@,
                sk0.game.turn.current_round,
                sk0.game.turn.last_round,
                old(self).players@,
                *final(self),
            ),
            final(self).state is Playing ==> announced(*final(self), final(out)@),
    {
        let mut st = RoomState::Waiting;
        std::mem::swap(&mut st, &mut self.state);
        match st {
            RoomState::Playing(mut skribbl) => {
                if skribbl.is_last_turn() {
                    self.state = RoomState::Playing(skribbl);
                    self.start_round(now, out);
                } else {
                    let ghost first = skribbl.players_left_in_round@[0];
                    let ghost left0 = skribbl.players_left_in_round@;
                    self.reset_solved();
                    skribbl.next_turn(now);
                    self.state = RoomState::Playing(skribbl);
                    proof {
                        let sk = self.state->Playing_0;
                        assert(is_member(old(self).players@, left0[0].1));
                        let j = choose|j: int| 0 <= j < old(self).players@.len() && (#[trigger] old(self).players@[j]).name.1 == left0[0].1;
                        assert(self.players@[j].name.1 == left0[0].1);
                        assert forall|k: int| 0 <= k < sk.players_left_in_round@.len() implies is_member(
                            self.players@,
                            (#[trigger] sk.players_left_in_round@[k]).1,
                        ) by {
                            assert(sk.players_left_in_round@[k] == left0[k + 1]);
                            assert(is_member(old(self).players@, left0[k + 1].1));
                            let i = choose|i: int| 0 <= i < old(self).players@.len() && (#[trigger] old(self).players@[i]).name.1 == left0[k + 1].1;
                            assert(self.players@[i].name.1 == left0[k + 1].1);
                        }
                    }
                    self.announce_turn(out);
                }
            },
            other => {
                self.state = other;
            },
        }
    }

    /// Starts a game where enough players are in the room.
    pub fn start_game(&mut self, now: u64, out: &mut Vec<Outgoing>)
        requires
            old(self).wf(),
        ensures
            final(self).state is Playing && !(old(self).state is Playing) ==> forall|k: int|
                0 <= k < final(self).players@.len() ==> !(#[trigger] final(self).players@[k]).solved_current_round,
            forall|k: int|
                0 <= k < final(self).players@.len() && (#[trigger] final(self).players@[k]).solved_current_round
                    ==> old(self).players@[k].solved_current_round,
            extends(old(out)@, final(out)@),
            final(self).wf(),
            same_roster(old(self).players@, final(self).players@),
            final(self).owner_id == old(self).owner_id,
            final(self).game_opts == old(self).game_opts,
            old(self).players@.len() < REQUIRED_PLAYERS ==> final(self).state == old(self).state,
            old(self).players@.len() >= REQUIRED_PLAYERS ==> final(self).state is Playing
                || Self::resting(final(self).owner_id, final(self).state),
            old(self).players@.len() >= REQUIRED_PLAYERS ==> round_started(
                0,
                old(self).game_opts.number_of_rounds,
                old(self).players@,
                *final(self),
            ),
            final(self).state is Playing && !(old(self).state is Playing) ==> announced(
                *final(self),
                final(out)@,
            ),
    {
        if self.players.len() >= REQUIRED_PLAYERS {
            self.state = RoomState::Playing(Skribbl::new(&self.game_opts));
            self.broadcast_state(out);
            self.start_round(now, out);
        }
    }

    /// Tells every player that `name` joined.
    fn broadcast_player_connect(&self, name: &Username, out: &mut Vec<Outgoing>)
        ensures
            fans_out(
                old(out)@,
                final(out)@,
                self.players@,
                |id: PlayerId, m: ToClient| m matches ToClient::PlayerConnect(p) && p == Player::fresh_spec(*name),
            ),
    {
        let ghost before = out@;
        let mut k: usize = 0;
        while k < self.players.len()
            invariant
                k <= self.players@.len(),
                out@.len() == before.len() + k,
                extends(before, out@),
                forall|j: int|
                    0 <= j < k ==> (#[trigger] out@[before.len() + j]).to == self.players@[j].name.1
                        && (out@[before.len() + j].msg matches ToClient::PlayerConnect(p) && p
                        == Player::fresh_spec(*name)),
            decreases self.players@.len() - k,
        {
            let to = self.players[k].name.1;
            let ghost prev = out@;
            out.push(Outgoing { to, msg: ToClient::PlayerConnect(Player::fresh(name.duplicate())) });
            proof {
                assert forall|j: int| 0 <= j < k implies #[trigger] out@[before.len() + j] == prev[before.len() + j] by {}
            }
            k = k + 1;
        }
    }

    /// Tells every player that `name` left.
    fn broadcast_player_disconnect(&self, name: &Username, out: &mut Vec<Outgoing>)
        ensures
            fans_out(
                old(out)@,
                final(out)@,
                self.players@,
                |id: PlayerId, m: ToClient| m matches ToClient::PlayerDisconnect(u) && u == *name,
            ),
    {
        let ghost before = out@;
        let mut k: usize = 0;
        while k < self.players.len()
            invariant
                k <= self.players@.len(),
                out@.len() == before.len() + k,
                extends(before, out@),
                forall|j: int|
                    0 <= j < k ==> (#[trigger] out@[before.len() + j]).to == self.players@[j].name.1
                        && (out@[before.len() + j].msg matches ToClient::PlayerDisconnect(u) && u
                        == *name),
            decreases self.players@.len() - k,
        {
            let to = self.players[k].name.1;
            let ghost prev = out@;
            out.push(Outgoing { to, msg: ToClient::PlayerDisconnect(name.duplicate()) });
            proof {
                assert forall|j: int| 0 <= j < k implies #[trigger] out@[before.len() + j] == prev[before.len() + j] by {}
            }
            k = k + 1;
        }
    }

    /// Adds the player `username` to the room: the others are told, the new
    /// player is sent the player list and the room's state, and a waiting
    /// room starts a game.
    pub fn connect(&mut self, username: Username, now: u64, out: &mut Vec<Outgoing>)
        requires
            old(self).wf(),
            !is_member(old(self).players@, username.1),
        ensures
            extends(old(out)@, final(out)@),
            final(self).wf(),
            Self::connect_done(*old(self), *final(self), username, now, old(out)@, final(out)@),
    {
        let ghost uname = username;
        self.broadcast_player_connect(&username, out);
        let ghost o1 = out@;
        let ghost roster0 = self.players@;
        let ghost uid = username.1;
        self.players.push(Player::fresh(username.duplicate()));
        proof {
            assert(self.players@ == roster0.push(Player::fresh_spec(uname)));
            let s = self.players@;
            assert(s[s.len() - 1].name.1 == username.1);
            assert forall|k1: int, k2: int|
                0 <= k1 < s.len() && 0 <= k2 < s.len() && k1 != k2 implies (#[trigger] s[k1]).name.1
                    != (#[trigger] s[k2]).name.1 by {
                if k1 < roster0.len() && k2 < roster0.len() {
                    assert(s[k1] == roster0[k1] && s[k2] == roster0[k2]);
                } else if k1 < roster0.len() {
                    assert(s[k1] == roster0[k1]);
                } else {
                    assert(s[k2] == roster0[k2]);
                }
            }
            if self.state is Playing {
                let sk = self.state->Playing_0;
                let d = sk.drawer()->Some_0;
                let j = choose|j: int| 0 <= j < roster0.len() && (#[trigger] roster0[j]).name.1 == d;
                assert(s[j] == roster0[j]);
                assert forall|k: int| 0 <= k < sk.players_left_in_round@.len() implies is_member(
                    s,
                    (#[trigger] sk.players_left_in_round@[k]).1,
                ) by {
                    let u = sk.players_left_in_round@[k];
                    let i = choose|i: int| 0 <= i < roster0.len() && (#[trigger] roster0[i]).name.1 == u.1;
                    assert(s[i] == roster0[i]);
                }
            }
        }
        let mut join_msg = username.0.clone();
        join_msg.append(" joined");
        let player_list = self.player_list();
        let initial_state = self.game_state();
        let id = username.1;
        proof {
            assert(is_member(self.players@, id)) by {
                assert(self.players@[roster0.len() as int].name.1 == id);
            }
        }
        self.send(id, ToClient::JoinRoom { username, player_list, initial_state }, out);
        let ghost o2 = out@;
        self.broadcast_system_text(&join_msg, out);
        if matches!(self.state, RoomState::Waiting) {
            self.start_game(now, out);
        }
        proof {
            assert(self.players@[roster0.len() as int].name.1 == uid);
            let n = old(out)@.len() + roster0.len();
            assert(out@[n as int] == o2[n as int]);
            assert forall|i: int| 0 <= i < n implies #[trigger] out@[i] == o1[i] by {
                assert(out@[i] == o2[i]);
            }
            assert(out@.take(n as int) =~= o1);
        }
    }

    /// Removes the player `player_id`, where it is in the room: the others
    /// are told; an empty room ends its game, and where the player was
    /// drawing, the turn passes on at once.
    pub fn disconnect(&mut self, player_id: PlayerId, now: u64, out: &mut Vec<Outgoing>)
        requires
            old(self).wf(),
        ensures
            extends(old(out)@, final(out)@),
            final(self).wf(),
            Self::disconnect_done(*old(self), *final(self), player_id, now, old(out)@, final(out)@),
    {
        match self.find_player(player_id) {
            None => {},
            Some(k) => {
                proof {
                    let j = self.index_of(player_id);
                    assert(self.players@[j].name.1 == player_id);
                    assert(j == k);
                }
                let ghost roster0 = self.players@;
                let p = self.players.remove(k);
                proof {
                    assert forall|i: PlayerId| true implies (is_member(self.players@, i) <==> is_member(roster0, i) && roster0[k as int].name.1 != i) by {
                        lemma_member_after_remove(roster0, k as int, i);
                    }
                    lemma_member_after_remove(roster0, k as int, player_id);
                }
                let mut text = p.name.0.clone();
                text.append(" left the room");
                self.broadcast_system_text(&text, out);
                let ghost o1 = out@;
                self.broadcast_player_disconnect(&p.name, out);
                let ghost o2 = out@;
                proof {
                    assert(self.players@ == roster0.remove(k as int));
                }
                if self.players.len() == 0 {
                    self.end_game(out);
                } else {
                    let mut st = RoomState::Waiting;
                    std::mem::swap(&mut st, &mut self.state);
                    match st {
                        RoomState::Playing(mut skribbl) => {
                            let ghost left0 = skribbl.players_left_in_round@;
                            skribbl.forget_player(player_id);
                            let drawing = skribbl.is_drawing(player_id);
                            self.state = RoomState::Playing(skribbl);
                            proof {
                                let sk = self.state->Playing_0;
                                assert forall|j: int| 0 <= j < sk.players_left_in_round@.len() implies is_member(
                                    self.players@,
                                    (#[trigger] sk.players_left_in_round@[j]).1,
                                ) by {
                                    let u = sk.players_left_in_round@[j];
                                    let m = choose|m: int| 0 <= m < left0.len() && left0[m] == u;
                                    assert(is_member(roster0, left0[m].1));
                                }
                            }
                            if drawing {
                                let ghost roster1 = self.players@;
                                self.start_turn(now, out);
                                proof {
                                    lemma_same_roster_members(roster1, self.players@);
                                }
                            }
                        },
                        other => {
                            self.state = other;
                        },
                    }
                }
                proof {
                    let n0 = old(out)@.len() as int;
                    let m = roster0.len() - 1;
                    assert forall|i: int| 0 <= i < n0 + 2 * m implies #[trigger] out@[i] == o2[i] by {}
                    assert(out@.take(n0 + m) =~= o1);
                    assert(out@.take(n0 + 2 * m) =~= o2);
                }
            },
        }
    }

    /// Sends the draw action `d` to every player but `skip`.
    fn broadcast_draw_except(&self, d: &Draw, skip: PlayerId, out: &mut Vec<Outgoing>)
        ensures
            fans_out(
                old(out)@,
                final(out)@,
                others(self.players@, skip),
                |id: PlayerId, m: ToClient| m matches ToClient::Draw(d2) && same_draw(*d, d2),
            ),
    {
        let ghost before = out@;
        let mut k: usize = 0;
        while k < self.players.len()
            invariant
                k <= self.players@.len(),
                out@.len() == before.len() + others(self.players@.take(k as int), skip).len(),
                extends(before, out@),
                forall|j: int|
                    0 <= j < others(self.players@.take(k as int), skip).len() ==> (#[trigger] out@[before.len()
                        + j]).to == others(self.players@.take(k as int), skip)[j].name.1 && (out@[before.len()
                        + j].msg matches ToClient::Draw(d2) && same_draw(*d, d2)),
            decreases self.players@.len() - k,
        {
            let ghost o0 = others(self.players@.take(k as int), skip);
            proof {
                assert(self.players@.take(k + 1).drop_last() == self.players@.take(k as int));
                assert(self.players@.take(k + 1).last() == self.players@[k as int]);
            }
            let to = self.players[k].name.1;
            if to != skip {
                let ghost prev = out@;
                out.push(Outgoing { to, msg: ToClient::Draw(d.duplicate()) });
                proof {
                    let o1 = others(self.players@.take(k + 1), skip);
                    assert(o1 == o0.push(self.players@[k as int]));
                    assert forall|j: int| 0 <= j < o1.len() implies (#[trigger] out@[before.len() + j]).to
                        == o1[j].name.1 && (out@[before.len() + j].msg matches ToClient::Draw(d2)
                        && same_draw(*d, d2)) by {
                        if j < o0.len() {
                            assert(out@[before.len() + j] == prev[before.len() + j]);
                            assert(o1[j] == o0[j]);
                        }
                    }
                }
            }
            k = k + 1;
        }
        proof {
            assert(self.players@.take(self.players@.len() as int) == self.players@);
        }
    }

    /// Applies a draw action of `sender_id` to the canvas and shows it to the
    /// other players, where a game is played and `sender_id` draws in it.
    /// Anyone else's draw action changes nothing.
    pub fn on_paint_msg(&mut self, sender_id: PlayerId, draw_action: Draw, out: &mut Vec<Outgoing>)
        requires
            old(self).wf(),
        ensures
            extends(old(out)@, final(out)@),
            final(self).wf(),
            Self::paint_done(*old(self), *final(self), sender_id, draw_action, old(out)@, final(out)@),
    {
        let drawing = match &self.state {
            RoomState::Playing(skribbl) => skribbl.is_drawing(sender_id),
            _ => false,
        };
        if !drawing {
            return;
        }
        let mut st = RoomState::Waiting;
        std::mem::swap(&mut st, &mut self.state);
        match st {
            RoomState::Playing(mut skribbl) => {
                apply_to_canvas(&mut skribbl.game.canvas, &draw_action);
                self.state = RoomState::Playing(skribbl);
            },
            other => {
                self.state = other;
            },
        }
        self.broadcast_draw_except(&draw_action, sender_id, out);
    }

    /// Sends the chat line `text` of `sender` to every player who cannot
    /// guess.
    fn send_to_non_guessers(&self, sender: &Username, text: &String, out: &mut Vec<Outgoing>)
        ensures
            fans_out(
                old(out)@,
                final(out)@,
                non_guessers(self.players@, self.drawer()),
                |id: PlayerId, m: ToClient| user_text(m, *sender, text@),
            ),
    {
        let ghost before = out@;
        let ghost dr = self.drawer();
        let mut k: usize = 0;
        while k < self.players.len()
            invariant
                dr == self.drawer(),
                k <= self.players@.len(),
                out@.len() == before.len() + non_guessers(self.players@.take(k as int), dr).len(),
                extends(before, out@),
                forall|j: int|
                    0 <= j < non_guessers(self.players@.take(k as int), dr).len() ==> (#[trigger] out@[before.len()
                        + j]).to == non_guessers(self.players@.take(k as int), dr)[j].name.1 && user_text(
                        out@[before.len() + j].msg,
                        *sender,
                        text@,
                    ),
            decreases self.players@.len() - k,
        {
            let ghost o0 = non_guessers(self.players@.take(k as int), dr);
            proof {
                assert(self.players@.take(k + 1).drop_last() == self.players@.take(k as int));
                assert(self.players@.take(k + 1).last() == self.players@[k as int]);
            }
            let to = self.players[k].name.1;
            let drawing = match &self.state {
                RoomState::Playing(skribbl) => skribbl.is_drawing(to),
                _ => false,
            };
            if self.players[k].solved_current_round || drawing {
                let ghost prev = out@;
                out.push(Outgoing { to, msg: ToClient::Chat(ChatMessage::User(sender.duplicate(), text.clone())) });
                proof {
                    let o1 = non_guessers(self.players@.take(k + 1), dr);
                    assert(o1 == o0.push(self.players@[k as int]));
                    assert forall|j: int| 0 <= j < o1.len() implies (#[trigger] out@[before.len() + j]).to
                        == o1[j].name.1 && user_text(out@[before.len() + j].msg, *sender, text@) by {
                        if j < o0.len() {
                            assert(out@[before.len() + j] == prev[before.len() + j]);
                            assert(o1[j] == o0[j]);
                        }
                    }
                }
            }
            k = k + 1;
        }
        proof {
            assert(self.players@.take(self.players@.len() as int) == self.players@);
        }
    }

    /// Handles a chat line of `sender`. While a game is played, a player who
    /// may guess has the line scored: the exact word earns points and is
    /// announced to all without the word; a line one edit away is answered
    /// privately; anything else is shown to all. The lines of players who
    /// cannot guess reach only the others who cannot. Outside a game every
    /// line is shown to all.
    pub fn on_chat_msg(&mut self, sender: Username, chat_msg: String, now: u64, out: &mut Vec<Outgoing>)
        requires
            old(self).wf(),
        ensures
            extends(old(out)@, final(out)@),
            final(self).wf(),
            Self::chat_done(*old(self), *final(self), sender, chat_msg@, now, old(out)@, final(out)@),
    {
        let drawing = match &self.state {
            RoomState::Playing(skribbl) => Some(skribbl.is_drawing(sender.1)),
            _ => None,
        };
        match drawing {
            None => {
                self.broadcast_user_text(&sender, &chat_msg, out);
            },
            Some(is_drawing) => {
                match self.find_player(sender.1) {
                    None => {},
                    Some(k) => {
                        proof {
                            let j = self.index_of(sender.1);
                            assert(self.players@[j].name.1 == sender.1);
                            assert(j == k);
                        }
                        if is_drawing || self.players[k].solved_current_round {
                            self.send_to_non_guessers(&sender, &chat_msg, out);
                        } else {
                            let ghost roster0 = self.players@;
                            let mut p = self.players.remove(k);
                            let mut st = RoomState::Waiting;
                            std::mem::swap(&mut st, &mut self.state);
                            let dist = match st {
                                RoomState::Playing(mut skribbl) => {
                                    let d = skribbl.do_guess(&mut p, chat_msg.as_str(), now);
                                    self.state = RoomState::Playing(skribbl);
                                    d
                                },
                                other => {
                                    self.state = other;
                                    2
                                },
                            };
                            if dist == 0 {
                                p.solved_current_round = true;
                            }
                            self.players.insert(k, p);
                            proof {
                                if dist == 0 {
                                    assert(self.players@ =~= roster0.update(k as int, self.players@[k as int]));
                                } else {
                                    assert(self.players@ =~= roster0);
                                }
                                assert forall|i: int| 0 <= i < self.players@.len() implies (#[trigger] self.players@[i]).name
                                    == roster0[i].name by {}
                                lemma_same_roster_members(roster0, self.players@);
                            }
                            if dist == 0 {
                                let mut text = sender.0.clone();
                                text.append(" guessed it!");
                                self.broadcast_system_text(&text, out);
                            } else if dist == 1 {
                                let text = String::from_str("You're very close!");
                                out.push(Outgoing { to: sender.1, msg: ToClient::Chat(ChatMessage::System(text)) });
                            } else {
                                self.broadcast_user_text(&sender, &chat_msg, out);
                            }
                        }
                    },
                }
            },
        }
    }

    /// Whether every player but the drawer solved the turn.
    pub fn all_guessers_solved(&self) -> (r: bool)
        ensures
            r == all_solved(self.players@, self.drawer()),
    {
        let mut k: usize = 0;
        while k < self.players.len()
            invariant
                k <= self.players@.len(),
                forall|j: int|
                    0 <= j < k ==> (#[trigger] self.players@[j]).solved_current_round || self.drawer()
                        == Some(self.players@[j].name.1),
            decreases self.players@.len() - k,
        {
            let id = self.players[k].name.1;
            let drawing = match &self.state {
                RoomState::Playing(skribbl) => skribbl.is_drawing(id),
                _ => false,
            };
            if !(self.players[k].solved_current_round || drawing) {
                return false;
            }
            k = k + 1;
        }
        true
    }

    /// Tells every player the seconds left in the turn.
    fn broadcast_time(&self, seconds: u32, out: &mut Vec<Outgoing>)
        ensures
            fans_out(old(out)@, final(out)@, self.players@, |id: PlayerId, m: ToClient| m == ToClient::TimeChanged(seconds)),
    {
        let ghost before = out@;
        let mut k: usize = 0;
        while k < self.players.len()
            invariant
                k <= self.players@.len(),
                out@.len() == before.len() + k,
                extends(before, out@),
                forall|j: int|
                    0 <= j < k ==> (#[trigger] out@[before.len() + j]).to == self.players@[j].name.1
                        && out@[before.len() + j].msg == ToClient::TimeChanged(seconds),
            decreases self.players@.len() - k,
        {
            let to = self.players[k].name.1;
            let ghost prev = out@;
            out.push(Outgoing { to, msg: ToClient::TimeChanged(seconds) });
            proof {
                assert forall|j: int| 0 <= j < k implies #[trigger] out@[before.len() + j] == prev[before.len() + j] by {}
            }
            k = k + 1;
        }
    }

    /// What a playing room does as time passes: a turn whose time is up, or
    /// whose guessers all solved it, passes on; otherwise letters are revealed
    /// on schedule and every player is told the time left.
    pub fn tick(&mut self, now: u64, out: &mut Vec<Outgoing>)
        requires
            old(self).wf(),
        ensures
            Self::tick_state(*old(self), *final(self), now),
            extends(old(out)@, final(out)@),
            final(self).wf(),
            same_names(old(self).players@, final(self).players@),
            final(self).owner_id == old(self).owner_id,
            final(self).game_opts == old(self).game_opts,
            !(old(self).state is Playing) ==> *final(self) == *old(self) && final(out)@ == old(out)@,
            old(self).state matches RoomState::Playing(sk) && (seconds_left(
                sk.game.turn.end_instant,
                now,
            ) == 0 || all_solved(old(self).players@, sk.drawer())) ==> final(self).state is Playing
                || Self::resting(final(self).owner_id, final(self).state),
            old(self).state matches RoomState::Playing(sk) && (seconds_left(
                sk.game.turn.end_instant,
                now,
            ) == 0 || all_solved(old(self).players@, sk.drawer())) ==> turn_passed(
                old(self).state->Playing_0.players_left_in_round@,
                old(self).state->Playing_0.game.turn.current_round,
                old(self).state->Playing_0.game.turn.last_round,
                old(self).players@,
                *final(self),
            ),
            old(self).state is Playing && seconds_left(
                old(self).state->Playing_0.game.turn.end_instant,
                now,
            ) > 0 && !all_solved(old(self).players@, old(self).drawer()) ==> {
                &&& final(self).players == old(self).players
                &&& final(self).state is Playing
                &&& final(self).drawer() == old(self).drawer()
                &&& final(out)@.len() >= old(self).players@.len()
                &&& fans_out(
                    final(out)@.take(final(out)@.len() - old(self).players@.len()),
                    final(out)@,
                    old(self).players@,
                    |id: PlayerId, m: ToClient| m == ToClient::TimeChanged(
                        seconds_left(old(self).state->Playing_0.game.turn.end_instant, now),
                    ),
                )
            },
    {
        let remaining = match &self.state {
            RoomState::Playing(skribbl) => skribbl.game.remaining_time_at(now),
            _ => {
                return;
            },
        };
        if remaining == 0 || self.all_guessers_solved() {
            let ghost roster0 = self.players@;
            self.start_turn(now, out);
            proof {
                assert forall|k: int| 0 <= k < roster0.len() implies (#[trigger] self.players@[k]).name == roster0[k].name by {}
            }
            return;
        }
        let mut st = RoomState::Waiting;
        std::mem::swap(&mut st, &mut self.state);
        let mut revealed = false;
        match st {
            RoomState::Playing(mut skribbl) => {
                let extra = skribbl.extra_reveal_count();
                let d = skribbl.round_duration;
                let due = ((remaining as u64) * 2 <= d as u64 && extra < 1) || ((remaining as u64) * 4
                    <= d as u64 && extra < 2);
                if due {
                    skribbl.reveal_random_char();
                    revealed = true;
                }
                self.state = RoomState::Playing(skribbl);
            },
            other => {
                self.state = other;
            },
        }
        if revealed {
            self.announce_turn(out);
        }
        let ghost before = out@;
        self.broadcast_time(remaining, out);
        proof {
            assert(out@.take(out@.len() - self.players@.len()) =~= before);
        }
    }

    /// Sends every player the chat line `msg` from the game.
    pub fn broadcast_system_msg(&self, msg: String, out: &mut Vec<Outgoing>)
        ensures
            fans_out(old(out)@, final(out)@, self.players@, |id: PlayerId, m: ToClient| system_text(m, msg@)),
    {
        self.broadcast_system_text(&msg, out);
    }
}

/// While a room plays, exactly one of its players draws.
pub proof fn lemma_single_drawer(room: &GameRoom)
    requires
        room.wf(),
        room.state is Playing,
    ensures
        exists|k: int|
            0 <= k < room.players@.len() && room.drawer() == Some(
                (#[trigger] room.players@[k]).name.1,
            ),
        forall|k1: int, k2: int|
            0 <= k1 < room.players@.len() && 0 <= k2 < room.players@.len() && room.drawer() == Some(
                (#[trigger] room.players@[k1]).name.1,
            ) && room.drawer() == Some((#[trigger] room.players@[k2]).name.1) ==> k1 == k2,
{
}

/// A correct guess of a player who may guess, with the turn's time left no
/// more than its length and the score well below the largest `u32`, raises
/// that player's score by exactly 50, plus 50, plus half the percentage of
/// the turn that was left: at least 50. The player is marked as having
/// solved the turn, no other player changes, and every player is told that
/// the sender guessed it.
pub proof fn lemma_exact_guess(
    r0: GameRoom,
    r1: GameRoom,
    sender: Username,
    msg: Seq<char>,
    now: u64,
    o0: Seq<Outgoing>,
    o1: Seq<Outgoing>,
)
    requires
        GameRoom::chat_done(r0, r1, sender, msg, now, o0, o1),
        r0.state is Playing,
        is_member(r0.players@, sender.1),
        r0.drawer() != Some(sender.1),
        !r0.players@[r0.index_of(sender.1)].solved_current_round,
        edit_distance(msg, r0.state->Playing_0.current_word@) == 0,
        r0.players@[r0.index_of(sender.1)].score + 150 <= u32::MAX,
        r0.state->Playing_0.round_duration > 0,
        seconds_left(r0.state->Playing_0.game.turn.end_instant, now) <= r0.state->Playing_0.round_duration,
    ensures
        ({
            let k = r0.index_of(sender.1);
            let rem = seconds_left(r0.state->Playing_0.game.turn.end_instant, now) as int;
            let d = r0.state->Playing_0.round_duration as int;
            &&& r1.players@[k].score == r0.players@[k].score + 50 + 50 + (rem * 100 / d) / 2
            &&& r1.players@[k].score >= r0.players@[k].score + 50
            &&& r1.players@[k].solved_current_round
            &&& r1.players@[k].name == r0.players@[k].name
            &&& forall|j: int| 0 <= j < r0.players@.len() && j != k ==> #[trigger] r1.players@[j] == r0.players@[j]
            &&& fans_out(o0, o1, r1.players@, |id: PlayerId, m: ToClient| system_text(m, guessed_text(sender.0@)))
        }),
{
    let k = r0.index_of(sender.1);
    let sk = r0.state->Playing_0;
    let rem = seconds_left(sk.game.turn.end_instant, now) as int;
    let d = sk.round_duration as int;
    assert(rem * 100 / d <= 100) by (nonlinear_arith)
        requires
            0 <= rem <= d,
            d > 0,
    ;
    assert(rem * 100 / d >= 0) by (nonlinear_arith)
        requires
            0 <= rem,
            d > 0,
    ;
}

} // verus!
