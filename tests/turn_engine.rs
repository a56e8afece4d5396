use termibbl::game::Skribbl;
use termibbl::world::{Coord, DrawingWord, GameOpts, Player, Username};

fn opts(words: &[&str], rounds: usize) -> GameOpts {
    GameOpts {
        dimensions: Coord(40, 20),
        number_of_rounds: rounds,
        round_duration: 60,
        max_room_size: 8,
        custom_words: words.iter().map(|w| w.to_string()).collect(),
        only_custom_words: true,
    }
}

fn players(ids: &[u8]) -> Vec<Player> {
    ids.iter().map(|id| Player::fresh(Username::new(format!("p{}", id), *id))).collect()
}

fn hints_of(sk: &Skribbl) -> usize {
    match &sk.game.turn.word {
        DrawingWord::Guess { hints, .. } => hints.len(),
        DrawingWord::Draw(_) => panic!("no turn"),
    }
}

#[test]
fn new_game_has_not_started() {
    let sk = Skribbl::new(&opts(&["apple", "pear"], 3));
    assert_eq!(sk.game.turn.current_round, 0);
    assert_eq!(sk.game.turn.last_round, 3);
    assert!(sk.game.canvas.is_empty());
    let mut words = sk.words.clone();
    words.sort();
    assert_eq!(words, vec!["apple".to_string(), "pear".to_string()]);
}

#[test]
fn round_hands_turns_in_order() {
    let mut sk = Skribbl::new(&opts(&["apple"], 2));
    sk.start_round(&players(&[5, 9, 2]), 100);
    assert_eq!(sk.game.turn.current_round, 1);
    assert_eq!(sk.get_drawing_player(), 5);
    assert!(sk.is_drawing(5));
    assert!(!sk.is_drawing(9));
    assert_eq!(sk.game.turn.end_instant, 160);
    assert_eq!(sk.current_word, "apple");
    assert_eq!(sk.players_left_in_round.len(), 2);
    sk.next_turn(200);
    assert_eq!(sk.get_drawing_player(), 9);
    sk.next_turn(300);
    assert_eq!(sk.get_drawing_player(), 2);
    assert!(sk.is_last_turn());
    assert!(!sk.is_last_round());
}

#[test]
fn hint_cap_holds_for_every_reveal() {
    let mut sk = Skribbl::new(&opts(&["abcdefg"], 1));
    sk.start_round(&players(&[1]), 0);
    for pick in 0..20 {
        sk.reveal_char(pick);
        assert!(hints_of(&sk) <= 7 / 2);
    }
    assert_eq!(hints_of(&sk), 3);
}

#[test]
fn reveal_picks_among_hidden_positions() {
    let mut sk = Skribbl::new(&opts(&["ab cd"], 1));
    sk.start_round(&players(&[1]), 0);
    assert_eq!(sk.hidden_count(), 4);
    sk.reveal_char(2);
    match &sk.game.turn.word {
        DrawingWord::Guess { hints, .. } => {
            assert_eq!(hints.len(), 2);
            assert_eq!(hints[1].index, 3);
            assert_eq!(hints[1].ch, 'c');
        }
        DrawingWord::Draw(_) => panic!("no turn"),
    }
    sk.reveal_random_char();
    assert_eq!(hints_of(&sk), 3);
    sk.reveal_random_char();
    assert_eq!(hints_of(&sk), 3);
}

#[test]
fn random_reveal_respects_cap() {
    let mut sk = Skribbl::new(&opts(&["abcdef"], 1));
    sk.start_round(&players(&[1]), 0);
    for _ in 0..10 {
        sk.reveal_random_char();
    }
    assert_eq!(hints_of(&sk), 3);
    assert_eq!(sk.extra_reveal_count(), 3);
}

#[test]
fn correct_guess_scores_with_time_bonus() {
    let mut sk = Skribbl::new(&opts(&["apple"], 1));
    sk.start_round(&players(&[1]), 1000);
    let mut p = Player::fresh(Username::new("b".to_string(), 2));
    assert_eq!(sk.do_guess(&mut p, "Apple", 1030), 0);
    assert_eq!(p.score, 50 + 75);
    assert_eq!(sk.do_guess(&mut p, "appl", 1030), 1);
    assert_eq!(p.score, 125);
    assert_eq!(sk.do_guess(&mut p, "apple", 2000), 0);
    assert_eq!(p.score, 125 + 100);
}

#[test]
fn forgotten_players_are_not_owed_a_turn() {
    let mut sk = Skribbl::new(&opts(&["apple"], 1));
    sk.start_round(&players(&[1, 2, 3]), 0);
    sk.forget_player(2);
    assert_eq!(sk.players_left_in_round.len(), 1);
    assert_eq!(sk.players_left_in_round[0].id(), 3);
}
