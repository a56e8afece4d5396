use termibbl::message::{ChatMessage, RoomRequest, ToClient, ToServer};
use termibbl::room::{GameRoom, Outgoing};
use termibbl::server::{GameServer, Message};
use termibbl::world::{Color, Coord, Draw, DrawingWord, GameOpts, PlayerId, RoomState, Username};

fn opts(rounds: usize) -> GameOpts {
    GameOpts {
        dimensions: Coord(40, 20),
        number_of_rounds: rounds,
        round_duration: 60,
        max_room_size: 8,
        custom_words: vec!["apple".to_string()],
        only_custom_words: true,
    }
}

fn system_texts_to(out: &[Outgoing], id: PlayerId) -> Vec<String> {
    out.iter()
        .filter(|o| o.to == id)
        .filter_map(|o| match &o.msg {
            ToClient::Chat(ChatMessage::System(t)) => Some(t.clone()),
            _ => None,
        })
        .collect()
}

fn user_chats(out: &[Outgoing]) -> usize {
    out.iter().filter(|o| matches!(o.msg, ToClient::Chat(ChatMessage::User(..)))).count()
}

fn room(server: &GameServer) -> &GameRoom {
    &server.game_rooms[0].room
}

fn drawer(server: &GameServer) -> PlayerId {
    match &room(server).state {
        RoomState::Playing(sk) => sk.get_drawing_player(),
        _ => panic!("not playing"),
    }
}

/// Two players in "main": A joined first and draws.
fn two_players(rounds: usize) -> (GameServer, PlayerId, PlayerId) {
    let mut server = GameServer::new(opts(rounds));
    let mut out = Vec::new();
    let a = server.on_client_connect().unwrap();
    let b = server.on_client_connect().unwrap();
    assert_ne!(a, b);
    server.handle(
        Message::RoomRequest { from: Username::new("A".to_string(), a), req: RoomRequest::Join("main".to_string()) },
        1000,
        &mut out,
    );
    server.handle(
        Message::RoomRequest { from: Username::new("B".to_string(), b), req: RoomRequest::Join("main".to_string()) },
        1000,
        &mut out,
    );
    (server, a, b)
}

fn chat(server: &mut GameServer, name: &str, id: PlayerId, text: &str, now: u64) -> Vec<Outgoing> {
    let mut out = Vec::new();
    let from = Username::new(name.to_string(), id);
    let msg = ToServer::Chat(ChatMessage::User(from.clone(), text.to_string()));
    assert!(server.handle(Message::InRoomMessage { from, msg }, now, &mut out));
    out
}

#[test]
fn joining_players_start_a_game() {
    let (server, a, b) = two_players(3);
    assert_eq!(drawer(&server), a);
    assert_eq!(room(&server).players.len(), 2);
    assert_eq!(room(&server).players[1].name.id(), b);
}

#[test]
fn exact_guess_scores_and_is_announced() {
    let (mut server, a, b) = two_players(3);
    let out = chat(&mut server, "B", b, "apple", 1000);
    let pb = &room(&server).players[1];
    assert!(pb.score >= 50);
    assert_eq!(pb.score, 150);
    assert!(pb.solved_current_round);
    assert_eq!(system_texts_to(&out, a), vec!["B guessed it!".to_string()]);
    assert_eq!(system_texts_to(&out, b), vec!["B guessed it!".to_string()]);
    assert_eq!(user_chats(&out), 0);
}

#[test]
fn near_miss_is_answered_privately() {
    let (mut server, a, b) = two_players(3);
    let out = chat(&mut server, "B", b, "aple", 1000);
    assert_eq!(out.len(), 1);
    assert_eq!(out[0].to, b);
    assert_eq!(system_texts_to(&out, b), vec!["You're very close!".to_string()]);
    assert!(system_texts_to(&out, a).is_empty());
    assert_eq!(room(&server).players[1].score, 0);
}

#[test]
fn other_chat_is_shown_to_all() {
    let (mut server, a, b) = two_players(3);
    let out = chat(&mut server, "B", b, "banana", 1000);
    assert_eq!(out.len(), 2);
    assert_eq!(user_chats(&out), 2);
    assert!(out.iter().any(|o| o.to == a));
}

#[test]
fn drawer_chat_reaches_only_non_guessers() {
    let (mut server, a, _b) = two_players(3);
    let out = chat(&mut server, "A", a, "apple", 1000);
    assert_eq!(out.len(), 1);
    assert_eq!(out[0].to, a);
}

#[test]
fn drawer_leaving_passes_the_turn() {
    let (mut server, a, b) = two_players(3);
    let mut out = Vec::new();
    server.handle(Message::Disconnect { id: a }, 1010, &mut out);
    assert_eq!(drawer(&server), b);
    match &room(&server).state {
        RoomState::Playing(sk) => assert_eq!(sk.game.turn.current_round, 2),
        _ => panic!("not playing"),
    }
    assert!(out.iter().any(|o| o.to == b && matches!(o.msg, ToClient::TurnStart(_))));
    assert!(out.iter().any(|o| o.to == b && matches!(o.msg, ToClient::PlayerDisconnect(_))));
}

#[test]
fn last_player_leaving_ends_the_game() {
    let (mut server, a, b) = two_players(3);
    let mut out = Vec::new();
    server.handle(Message::Disconnect { id: a }, 1010, &mut out);
    server.handle(Message::Disconnect { id: b }, 1010, &mut out);
    assert!(matches!(room(&server).state, RoomState::Waiting));
    assert!(room(&server).players.is_empty());
    server.handle(Message::Disconnect { id: b }, 1010, &mut out);
}

#[test]
fn only_the_drawer_paints() {
    let (mut server, a, b) = two_players(3);
    let mut out = Vec::new();
    let paint = Draw::Paint { points: vec![Coord(1, 2)], color: Color::Red };
    server.handle(
        Message::InRoomMessage { from: Username::new("B".to_string(), b), msg: ToServer::Draw(paint.clone()) },
        1000,
        &mut out,
    );
    assert!(out.is_empty());
    match &room(&server).state {
        RoomState::Playing(sk) => assert!(sk.game.canvas.is_empty()),
        _ => panic!("not playing"),
    }
    server.handle(
        Message::InRoomMessage { from: Username::new("A".to_string(), a), msg: ToServer::Draw(paint) },
        1000,
        &mut out,
    );
    assert_eq!(out.len(), 1);
    assert_eq!(out[0].to, b);
    match &room(&server).state {
        RoomState::Playing(sk) => assert_eq!(sk.game.canvas.get(&(1 * 65536 + 2)), Some(&Color::Red)),
        _ => panic!("not playing"),
    }
}

#[test]
fn turn_times_out_on_tick() {
    let (mut server, a, _b) = two_players(3);
    let mut out = Vec::new();
    server.tick(1030, &mut out);
    assert!(out.iter().any(|o| matches!(o.msg, ToClient::TimeChanged(30))));
    server.tick(1060, &mut out);
    assert_eq!(drawer(&server), a);
    match &room(&server).state {
        RoomState::Playing(sk) => assert_eq!(sk.game.turn.current_round, 2),
        _ => panic!("not playing"),
    }
}

#[test]
fn solved_turn_ends_on_tick() {
    let (mut server, a, b) = two_players(3);
    chat(&mut server, "B", b, "apple", 1000);
    let mut out = Vec::new();
    server.tick(1001, &mut out);
    assert_eq!(drawer(&server), a);
    assert!(!room(&server).players[1].solved_current_round);
    match &room(&server).state {
        RoomState::Playing(sk) => {
            assert_eq!(sk.game.turn.current_round, 2);
            assert_eq!(sk.players_left_in_round.len(), 1);
            assert_eq!(sk.players_left_in_round[0].id(), b);
        }
        _ => panic!("not playing"),
    }
}

#[test]
fn hints_follow_the_schedule() {
    let (mut server, _a, b) = two_players(3);
    let mut out = Vec::new();
    server.tick(1031, &mut out);
    let guessers_turn = out.iter().find_map(|o| match &o.msg {
        ToClient::TurnStart(t) if o.to == b => Some(t.clone()),
        _ => None,
    });
    match guessers_turn.map(|t| t.word) {
        Some(DrawingWord::Guess { hints, .. }) => assert_eq!(hints.len(), 1),
        _ => panic!("guesser got no hint"),
    }
}

#[test]
fn joining_an_unknown_room_kicks() {
    let mut server = GameServer::new(opts(3));
    let mut out = Vec::new();
    let a = server.on_client_connect().unwrap();
    server.on_room_request(Username::new("A".to_string(), a), RoomRequest::Join("nope".to_string()), 0, &mut out);
    assert!(matches!(&out[0].msg, ToClient::Kicked(r) if r == "RoomNotFound"));
    assert!(server.find_user(a).is_none());
}

#[test]
fn second_join_kicks() {
    let (mut server, a, _b) = two_players(3);
    let mut out = Vec::new();
    server.on_room_request(Username::new("A".to_string(), a), RoomRequest::Join("main".to_string()), 0, &mut out);
    assert!(matches!(&out[0].msg, ToClient::Kicked(r) if r == "You are not allowed to join multiple game rooms."));
    assert!(server.find_user(a).is_none());
    assert!(room(&server).find_player(a).is_none());
}

#[test]
fn find_and_create_are_refused() {
    let mut server = GameServer::new(opts(3));
    let mut out = Vec::new();
    let a = server.on_client_connect().unwrap();
    server.on_room_request(Username::new("A".to_string(), a), RoomRequest::Find, 0, &mut out);
    assert!(matches!(&out[0].msg, ToClient::Kicked(r) if r == "Unimplemented feature"));
}

#[test]
fn message_outside_a_room_kicks() {
    let mut server = GameServer::new(opts(3));
    let mut out = Vec::new();
    let a = server.on_client_connect().unwrap();
    let from = Username::new("A".to_string(), a);
    server.on_user_game_msg(from, ToServer::ListRoom, 0, &mut out);
    assert_eq!(out.len(), 1);
    assert!(matches!(&out[0].msg, ToClient::Kicked(r) if r == "You are being naughty, got a unexpected message."));
    assert!(server.find_user(a).is_none());
}

#[test]
fn ids_are_unique_until_exhausted() {
    let mut server = GameServer::new(opts(3));
    let mut seen = std::collections::HashSet::new();
    for _ in 0..256 {
        let id = server.on_client_connect().unwrap();
        assert!(seen.insert(id));
    }
    assert_eq!(server.on_client_connect(), None);
    assert_eq!(server.first_free_id(10), None);
}

#[test]
fn ctrl_c_stops() {
    let mut server = GameServer::new(opts(3));
    let mut out = Vec::new();
    assert!(!server.handle(Message::CtrlC, 0, &mut out));
    assert!(out.is_empty());
}

#[test]
fn owned_room_rests_in_lobby() {
    let mut r = GameRoom::new(opts(0), Some(3));
    assert!(matches!(r.state, RoomState::Lobby));
    let mut out = Vec::new();
    r.connect(Username::new("X".to_string(), 3), 0, &mut out);
    assert!(matches!(r.state, RoomState::Lobby));
    assert!(out.iter().any(|o| matches!(&o.msg, ToClient::JoinRoom { .. })));
    r.start_game(0, &mut out);
    assert!(matches!(r.state, RoomState::Lobby));
}

#[test]
fn joining_player_gets_the_room_after_the_others_are_told() {
    let mut r = GameRoom::new(opts(3), None);
    let mut out = Vec::new();
    r.connect(Username::new("A".to_string(), 1), 0, &mut out);
    let mut out = Vec::new();
    r.connect(Username::new("B".to_string(), 2), 0, &mut out);
    assert!(matches!(&out[0], Outgoing { to: 1, msg: ToClient::PlayerConnect(p) } if p.name.id() == 2 && p.score == 0));
    match &out[1] {
        Outgoing { to: 2, msg: ToClient::JoinRoom { username, player_list, initial_state } } => {
            assert_eq!(username.id(), 2);
            assert_eq!(player_list.len(), 2);
            assert!(matches!(initial_state, RoomState::Playing(_)));
        }
        _ => panic!("expected the room's state for the new player"),
    }
    assert_eq!(system_texts_to(&out, 1), vec!["B joined".to_string()]);
}

#[test]
fn room_wide_system_message() {
    let (server, a, b) = two_players(3);
    let mut out = Vec::new();
    room(&server).broadcast_system_msg("hello".to_string(), &mut out);
    assert_eq!(system_texts_to(&out, a), vec!["hello".to_string()]);
    assert_eq!(system_texts_to(&out, b), vec!["hello".to_string()]);
}

#[test]
fn guessers_never_receive_the_word() {
    let (mut server, a, b) = two_players(3);
    let mut out = Vec::new();
    server.tick(1060, &mut out);
    for o in &out {
        if let ToClient::TurnStart(t) = &o.msg {
            match (&t.word, o.to == a) {
                (DrawingWord::Draw(w), true) => assert_eq!(w, "apple"),
                (DrawingWord::Guess { word_len, .. }, false) => assert_eq!(*word_len, 5),
                _ => panic!("wrong view of the word for #{}", o.to),
            }
        }
    }
    assert!(out.iter().any(|o| o.to == b && matches!(o.msg, ToClient::TurnStart(_))));
}

#[test]
fn kicked_id_is_kept_until_its_session_ends() {
    let (mut server, a, b) = two_players(3);
    let mut out = Vec::new();
    server.kick_user(a, "bye".to_string(), 1000, &mut out);
    assert!(matches!(&out[0].msg, ToClient::Kicked(r) if r == "bye"));
    assert!(room(&server).find_player(a).is_none());
    assert_eq!(server.reserved, vec![a]);
    assert!(server.id_taken(a));
    // the kicked session's own report of its end releases the id and touches nobody else
    server.handle(Message::Disconnect { id: a }, 1001, &mut out);
    assert!(server.reserved.is_empty());
    assert!(server.find_user(b).is_some());
    assert!(room(&server).find_player(b).is_some());
    assert!(!server.id_taken(a));
}

#[test]
fn waiting_room_starts_with_its_first_player_drawing() {
    let mut r = GameRoom::new(opts(2), None);
    let mut out = Vec::new();
    r.connect(Username::new("A".to_string(), 4), 0, &mut out);
    match &r.state {
        RoomState::Playing(sk) => {
            assert_eq!(sk.get_drawing_player(), 4);
            assert_eq!(sk.game.turn.current_round, 1);
        }
        _ => panic!("not playing"),
    }
    assert!(!r.players[0].solved_current_round);
}
