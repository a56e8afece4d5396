use termibbl::canvas::{default_palette, Palette, PaintTool, TermCanvas};
use termibbl::input::{Cursor, InputText};
use termibbl::message::{ChatMessage, RoomRequest, ToClient, ToServer};
use termibbl::server::Message as ServerMessage;
use termibbl::session::{UserSession, UserState};
use termibbl::world::{Color, Coord, Draw, Game, RoomState, Turn, TurnState, DrawingWord, Username};

#[test]
fn session_passes_on_room_requests_when_idle() {
    let mut s = UserSession::new(7, 100);
    assert!(s.handle_msg(ToServer::Ping, 105).is_none());
    assert_eq!(s.last_hb, 105);
    assert!(s.handle_msg(ToServer::ListRoom, 106).is_none());
    match s.handle_msg(ToServer::RequestRoom(Some("zoe".to_string()), RoomRequest::Join("main".to_string())), 106) {
        Some(ServerMessage::RoomRequest { from, req: RoomRequest::Join(k) }) => {
            assert_eq!(from.name(), "zoe");
            assert_eq!(from.id(), 7);
            assert_eq!(k, "main");
        }
        _ => panic!("expected a room request"),
    }
    match s.handle_msg(ToServer::RequestRoom(None, RoomRequest::Find), 106) {
        Some(ServerMessage::RoomRequest { from, .. }) => {
            assert!(["alice", "bob", "dafny", "spice"].contains(&from.name()));
        }
        _ => panic!("expected a room request"),
    }
}

#[test]
fn session_follows_join_and_kick() {
    let mut s = UserSession::new(7, 100);
    s.on_server_msg(&ToClient::JoinRoom {
        username: Username::new("zoe".to_string(), 7),
        player_list: vec![],
        initial_state: RoomState::Waiting,
    });
    assert!(matches!(&s.state, UserState::InGame { name } if name == "zoe"));
    match s.handle_msg(ToServer::Chat(ChatMessage::System("hi".to_string())), 101) {
        Some(ServerMessage::InRoomMessage { from, .. }) => assert_eq!(from.name(), "zoe"),
        _ => panic!("expected an in-room message"),
    }
    s.on_server_msg(&ToClient::TimeChanged(3));
    assert!(!s.is_stopped());
    s.on_server_msg(&ToClient::Kicked("bye".to_string()));
    assert!(s.is_stopped());
    assert!(s.handle_msg(ToServer::ListRoom, 102).is_none());
    assert!(matches!(s.disconnect_message(), ServerMessage::Disconnect { id: 7 }));
}

#[test]
fn heartbeat_times_out() {
    let s = UserSession::new(1, 100);
    assert!(!s.heartbeat_expired(110));
    assert!(s.heartbeat_expired(111));
    assert!(!s.heartbeat_expired(50));
}

#[test]
fn canvas_paints_only_within_bounds() {
    let mut c = TermCanvas::new(4, 3);
    assert_eq!(c.dimensions(), Coord(4, 3));
    c.paint(&[Coord(1, 1), Coord(4, 0), Coord(3, 2)], Color::Blue);
    assert_eq!(c.color_at(Coord(1, 1)), Some(Color::Blue));
    assert_eq!(c.color_at(Coord(3, 2)), Some(Color::Blue));
    assert_eq!(c.color_at(Coord(4, 0)), None);
    assert!(c.within_bounds(&Coord(3, 2)));
    assert!(!c.within_bounds(&Coord(0, 3)));
    c.erase(Coord(1, 1));
    assert_eq!(c.color_at(Coord(1, 1)), None);
    c.draw(Draw::Paint { points: vec![Coord(0, 0)], color: Color::Red });
    c.draw(Draw::Erase(Coord(3, 2)));
    assert_eq!(c.color_at(Coord(0, 0)), Some(Color::Red));
    assert_eq!(c.color_at(Coord(3, 2)), None);
    c.draw(Draw::Clear);
    assert_eq!(c.color_at(Coord(0, 0)), None);
}

#[test]
fn canvas_settings() {
    let mut c = TermCanvas::new(4, 3).bg(Color::Black);
    assert!(!c.showing_grid());
    c.toggle_grid();
    assert!(c.showing_grid());
    c.paint(&[Coord(0, 0)], Color::Red);
    c.resize_canvas(Coord(10, 8));
    assert_eq!(c.dimensions(), Coord(10, 8));
    assert_eq!(c.color_at(Coord(0, 0)), Some(Color::Red));
    c.clear();
    assert_eq!(c.color_at(Coord(0, 0)), None);
}

#[test]
fn palette_picks_its_colour() {
    let mut p = Palette::new(default_palette());
    assert_eq!(p.paint_tool, PaintTool::Pen);
    assert_eq!(p.selected_color(), Color::White);
    p.selected_color_index = 4;
    assert_eq!(p.selected_color(), Color::Red);
}

#[test]
fn input_text_and_cursor() {
    let mut t = InputText::default();
    t.focus(true);
    assert!(t.has_focus());
    t.set_content("héllo".to_string());
    assert_eq!(t.content(), "héllo");
    assert_eq!(t.cursor(), 6);
    assert_eq!(t.drain(), "héllo");
    assert_eq!(t.content(), "");
    assert_eq!(t.cursor(), 0);
    let mut c = Cursor::default();
    c.set(3, 4);
    assert_eq!(c.take(), Some((3, 4)));
    assert_eq!(c.take(), None);
}

#[test]
fn chat_message_accessors() {
    let sys = ChatMessage::System("hello".to_string());
    assert!(sys.is_system());
    assert!(sys.username().is_none());
    assert_eq!(sys.inner(), "hello");
    let user = ChatMessage::User(Username::new("kim".to_string(), 2), "yo".to_string());
    assert!(!user.is_system());
    assert_eq!(user.username().map(|u| u.id()), Some(2));
    assert_eq!(user.into_inner(), "yo");
}

#[test]
fn turn_with_word_and_time_left() {
    let turn = Turn { state: TurnState::Drawing, word: DrawingWord::Draw(String::new()), end_instant: 500, current_round: 1, last_round: 3 };
    let t = turn.with_word(DrawingWord::Draw("pear".to_string()));
    assert!(matches!(&t.word, DrawingWord::Draw(w) if w == "pear"));
    assert_eq!(t.end_instant, 500);
    let game = Game { dimensions: Coord(5, 5), canvas: Default::default(), turn: t };
    assert_eq!(game.remaining_time_at(450), 50);
    assert_eq!(game.remaining_time_at(600), 0);
    assert_eq!(game.remaining_round_time(), 0);
    let state = RoomState::Playing(game);
    assert_eq!(state.dimensions(), Some(Coord(5, 5)));
    assert!(state.world().is_some());
    let waiting: RoomState<Game> = RoomState::Waiting;
    assert_eq!(waiting.dimensions(), None);
}

#[test]
fn usernames() {
    let u = Username::new("ann".to_string(), 9);
    assert_eq!(u.name(), "ann");
    assert_eq!(u.id(), 9);
    assert_eq!(u.duplicate(), u);
    assert_eq!(u.into_inner(), ("ann".to_string(), 9));
}

#[test]
fn mutable_access_to_a_playing_state() {
    let turn = Turn { state: TurnState::Drawing, word: DrawingWord::Draw(String::new()), end_instant: 0, current_round: 0, last_round: 1 };
    let mut state = RoomState::Playing(Game { dimensions: Coord(2, 2), canvas: Default::default(), turn });
    state.canvas_mut().unwrap().insert(5, Color::Green);
    assert_eq!(state.world().unwrap().canvas.get(&5), Some(&Color::Green));
    state.world_mut().unwrap().dimensions = Coord(3, 3);
    assert_eq!(state.dimensions(), Some(Coord(3, 3)));
    let mut lobby: RoomState<Game> = RoomState::Lobby;
    assert!(lobby.world_mut().is_none());
    assert!(lobby.canvas_mut().is_none());
}
