use termibbl::game::calculate_score_increase;
use termibbl::text::{chars_of, levenshtein_distance};
use termibbl::world::{DrawingWord, Hint, Username};

#[test]
fn levenshtein_examples() {
    assert_eq!(levenshtein_distance("apple", "apple"), 0);
    assert_eq!(levenshtein_distance("Apple", "apple"), 0);
    assert_eq!(levenshtein_distance("aple", "apple"), 1);
    assert_eq!(levenshtein_distance("xyz", "apple"), 5);
}

#[test]
fn levenshtein_edges() {
    assert_eq!(levenshtein_distance("", ""), 0);
    assert_eq!(levenshtein_distance("", "abc"), 3);
    assert_eq!(levenshtein_distance("abc", ""), 3);
    assert_eq!(levenshtein_distance("kitten", "sitting"), 3);
    assert_eq!(levenshtein_distance("HELLO", "hello"), 0);
}

#[test]
fn chars_are_split_in_order() {
    assert_eq!(chars_of("héllo"), vec!['h', 'é', 'l', 'l', 'o']);
}

#[test]
fn score_increase_formula() {
    assert_eq!(calculate_score_increase(30, 60), 75);
    assert_eq!(calculate_score_increase(60, 60), 100);
    assert_eq!(calculate_score_increase(0, 60), 50);
    assert_eq!(calculate_score_increase(7, 60), 55);
    assert_eq!(calculate_score_increase(10, 0), 50);
}

#[test]
fn guessers_see_spaces_and_hyphens() {
    let w = DrawingWord::for_guessers(Username::new("ann".to_string(), 4), "ice-cream cone");
    match w {
        DrawingWord::Guess { hints, who, word_len } => {
            assert_eq!(word_len, 14);
            assert_eq!(who.id(), 4);
            assert_eq!(hints, vec![Hint { index: 3, ch: '-' }, Hint { index: 9, ch: ' ' }]);
        }
        DrawingWord::Draw(_) => panic!("guessers must not see the word"),
    }
}

