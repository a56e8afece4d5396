//! Domain data shared by the server and its clients.

use vstd::prelude::*;
use std::collections::HashMap;
use crate::text::{chars_of, is_white_space, is_white_space_char};

verus! {

pub type PlayerId = u8;

/// A player's display name together with the connection id that makes it unique.
#[derive(Default, Eq, PartialEq, Hash, Clone, Ord, PartialOrd, Debug)]
pub struct Username(pub String, pub PlayerId);

impl Username {
    pub fn new(name: String, id: PlayerId) -> (r: Username)
        ensures
            r.0@ == name@,
            r.1 == id,
    {
        Username(name, id)
    }

    pub fn name(&self) -> (r: &str)
        ensures
            r@ == self.0@,
    {
        self.0.as_str()
    }

    pub fn id(&self) -> (r: PlayerId)
        ensures
            r == self.1,
    {
        self.1
    }

    pub fn into_inner(self) -> (r: (String, PlayerId))
        ensures
            r.0@ == self.0@,
            r.1 == self.1,
    {
        (self.0, self.1)
    }

    /// A copy of `self`.
    pub fn duplicate(&self) -> (r: Username)
        ensures
            r == *self,
    {
        Username(self.0.clone(), self.1)
    }
}

/// What the server keeps of every player.
#[derive(Clone, Debug)]
pub struct Player {
    pub score: u32,
    pub name: Username,
    pub solved_current_round: bool,
}

impl Player {
    /// A copy of `self`.
    pub fn duplicate(&self) -> (r: Player)
        ensures
            r == *self,
    {
        Player { score: self.score, name: self.name.duplicate(), solved_current_round: self.solved_current_round }
    }

    pub open spec fn fresh_spec(name: Username) -> Player {
        Player { score: 0, name, solved_current_round: false }
    }

    /// A player that joins with no score.
    pub fn fresh(name: Username) -> (r: Player)
        ensures
            r == Player::fresh_spec(name),
    {
        Player { score: 0, name, solved_current_round: false }
    }
}

/// A point of the canvas, column first.
#[derive(Debug, Copy, Clone, PartialEq, Eq, Hash, Structural)]
pub struct Coord(pub u16, pub u16);

/// The key under which a canvas stores the colour of a point.
pub open spec fn coord_key(c: Coord) -> u32 {
    (c.0 as int * 65536 + c.1 as int) as u32
}

pub fn coord_key_of(c: Coord) -> (r: u32)
    ensures
        r == coord_key(c),
{
    c.0 as u32 * 65536 + c.1 as u32
}


#[derive(Debug, Copy, Clone, PartialEq, Eq, Hash, Structural)]
pub enum Color {
    White,
    Gray,
    DarkGray,
    Black,
    Red,
    LightRed,
    Green,
    LightGreen,
    Blue,
    LightBlue,
    Yellow,
    LightYellow,
    Cyan,
    LightCyan,
    Magenta,
    LightMagenta,
}

#[derive(Clone, Debug)]
pub enum Draw {
    Clear,
    Erase(Coord),
    Paint { points: Vec<Coord>, color: Color },
}

/// `a` and `b` are the same draw action.
pub open spec fn same_draw(a: Draw, b: Draw) -> bool {
    match (a, b) {
        (Draw::Clear, Draw::Clear) => true,
        (Draw::Erase(p), Draw::Erase(q)) => p == q,
        (Draw::Paint { points: p, color: c }, Draw::Paint { points: q, color: d }) => p@ == q@ && c
            == d,
        _ => false,
    }
}

impl Draw {
    /// A copy of `self`.
    pub fn duplicate(&self) -> (r: Draw)
        ensures
            same_draw(*self, r),
    {
        match self {
            Draw::Clear => Draw::Clear,
            Draw::Erase(p) => Draw::Erase(*p),
            Draw::Paint { points, color } => {
                let mut copy: Vec<Coord> = Vec::new();
                let mut k: usize = 0;
                while k < points.len()
                    invariant
                        k <= points.len(),
                        copy@ == points@.take(k as int),
                    decreases points.len() - k,
                {
                    copy.push(points[k]);
                    proof {
                        assert(points@.take(k + 1) == points@.take(k as int).push(points@[k as int]));
                    }
                    k = k + 1;
                }
                proof {
                    assert(points@.take(points.len() as int) == points@);
                }
                Draw::Paint { points: copy, color: *color }
            },
        }
    }
}

#[derive(Clone, Debug)]
pub struct GameOpts {
    pub dimensions: Coord,
    pub number_of_rounds: usize,
    pub round_duration: usize,
    pub max_room_size: usize,
    pub custom_words: Vec<String>,
    pub only_custom_words: bool,
}

impl GameOpts {
    /// A copy of `self`.
    pub fn duplicate(&self) -> (r: GameOpts)
        ensures
            r.dimensions == self.dimensions,
            r.number_of_rounds == self.number_of_rounds,
            r.round_duration == self.round_duration,
            r.max_room_size == self.max_room_size,
            r.custom_words@ == self.custom_words@,
            r.only_custom_words == self.only_custom_words,
    {
        let mut words: Vec<String> = Vec::new();
        let mut k: usize = 0;
        while k < self.custom_words.len()
            invariant
                k <= self.custom_words.len(),
                words@ == self.custom_words@.take(k as int),
            decreases self.custom_words.len() - k,
        {
            words.push(self.custom_words[k].clone());
            proof {
                assert(self.custom_words@.take(k + 1) == self.custom_words@.take(k as int).push(
                    self.custom_words@[k as int],
                ));
            }
            k = k + 1;
        }
        proof {
            assert(self.custom_words@.take(self.custom_words.len() as int) == self.custom_words@);
        }
        GameOpts {
            dimensions: self.dimensions,
            number_of_rounds: self.number_of_rounds,
            round_duration: self.round_duration,
            max_room_size: self.max_room_size,
            custom_words: words,
            only_custom_words: self.only_custom_words,
        }
    }
}

#[derive(Clone, Debug)]
pub enum RoomState<T> {
    FreeDraw,
    Lobby,
    Waiting,
    Playing(T),
}

#[derive(Clone, Debug, Copy, PartialEq, Eq, Structural)]
pub enum TurnState {
    Start,
    Drawing,
    End,
}


/// A character of the secret word that guessers may see.
#[derive(Clone, Copy, Debug, PartialEq, Eq, Structural)]
pub struct Hint {
    pub index: usize,
    pub ch: char,
}

/// Characters that every guesser sees from the start of a turn.
pub open spec fn is_blank(c: char) -> bool {
    is_white_space(c) || c == '-'
}

/// Each hint shows the character of `word` at its index, and no index is
/// shown twice.
pub open spec fn hints_match(hints: Seq<Hint>, word: Seq<char>) -> bool {
    &&& forall|k: int|
        0 <= k < hints.len() ==> (#[trigger] hints[k]).index < word.len() && word[hints[k].index
            as int] == hints[k].ch
    &&& forall|k1: int, k2: int|
        0 <= k1 < hints.len() && 0 <= k2 < hints.len() && k1 != k2 ==> (#[trigger] hints[k1]).index
            != (#[trigger] hints[k2]).index
}

pub open spec fn is_revealed(hints: Seq<Hint>, i: int) -> bool {
    exists|k: int| 0 <= k < hints.len() && (#[trigger] hints[k]).index == i
}

/// How many of the hints show a character that is not whitespace.
pub open spec fn shown_letters(hints: Seq<Hint>) -> nat
    decreases hints.len(),
{
    if hints.len() == 0 {
        0
    } else {
        shown_letters(hints.drop_last()) + if is_white_space(hints.last().ch) {
            0nat
        } else {
            1nat
        }
    }
}

/// How many of the hints show a character that was not shown from the start.
pub open spec fn extra_reveals(hints: Seq<Hint>) -> nat
    decreases hints.len(),
{
    if hints.len() == 0 {
        0
    } else {
        extra_reveals(hints.drop_last()) + if is_blank(hints.last().ch) {
            0nat
        } else {
            1nat
        }
    }
}

/// How many hyphens `word` holds.
pub open spec fn hyphens(word: Seq<char>) -> nat
    decreases word.len(),
{
    if word.len() == 0 {
        0
    } else {
        hyphens(word.drop_last()) + if word.last() == '-' {
            1nat
        } else {
            0nat
        }
    }
}

/// The hints of a turn that has just started on `word`.
pub open spec fn opening_hints(hints: Seq<Hint>, word: Seq<char>) -> bool {
    &&& hints_match(hints, word)
    &&& forall|i: int| 0 <= i < word.len() ==> (#[trigger] is_blank(word[i]) <==> is_revealed(hints, i))
    &&& extra_reveals(hints) == 0
    &&& shown_letters(hints) == hyphens(word)
}

proof fn lemma_push_hint(hints: Seq<Hint>, h: Hint, word: Seq<char>, i: int)
    requires
        0 <= i < word.len(),
        h.index == i,
        h.ch == word[i],
        is_blank(word[i]),
        hints_match(hints, word),
        forall|k: int| 0 <= k < hints.len() ==> (#[trigger] hints[k]).index < i,
        forall|j: int| 0 <= j < i ==> (#[trigger] is_blank(word[j]) <==> is_revealed(hints, j)),
    ensures
        hints.push(h).drop_last() == hints,
        hints_match(hints.push(h), word),
        forall|k: int| 0 <= k < hints.len() + 1 ==> (#[trigger] hints.push(h)[k]).index < i + 1,
        forall|j: int| 0 <= j <= i ==> (#[trigger] is_blank(word[j]) <==> is_revealed(hints.push(h), j)),
        extra_reveals(hints.push(h)) == extra_reveals(hints),
        shown_letters(hints.push(h)) == shown_letters(hints) + if word[i] == '-' {
            1nat
        } else {
            0nat
        },
{
    let s = hints.push(h);
    assert(s.drop_last() =~= hints);
    assert(s.last() == h);
    assert forall|j: int| 0 <= j < i implies (is_revealed(hints, j) <==> is_revealed(s, j)) by {
        if is_revealed(hints, j) {
            let k = choose|k: int| 0 <= k < hints.len() && (#[trigger] hints[k]).index == j;
            assert(s[k] == hints[k]);
        }
        if is_revealed(s, j) {
            let k = choose|k: int| 0 <= k < s.len() && (#[trigger] s[k]).index == j;
            assert(k < hints.len());
            assert(s[k] == hints[k]);
        }
    }
    assert(s[s.len() - 1].index == i);
    assert forall|k1: int, k2: int|
        0 <= k1 < s.len() && 0 <= k2 < s.len() && k1 != k2 implies (#[trigger] s[k1]).index
            != (#[trigger] s[k2]).index by {
        if k1 < hints.len() && k2 < hints.len() {
            assert(s[k1] == hints[k1] && s[k2] == hints[k2]);
        } else if k1 < hints.len() {
            assert(s[k1] == hints[k1]);
        } else {
            assert(s[k2] == hints[k2]);
        }
    }
    assert forall|k: int| 0 <= k < s.len() implies (#[trigger] s[k]).index < word.len() && word[s[k].index as int] == s[k].ch by {
        if k < hints.len() {
            assert(s[k] == hints[k]);
        }
    }
}

/// The word of a turn, as one player sees it.
#[derive(Clone, Debug)]
pub enum DrawingWord {
    /// What guessers see: the revealed characters, who draws, and the length.
    Guess { hints: Vec<Hint>, who: Username, word_len: usize },
    /// What the drawing player sees.
    Draw(String),
}

impl DrawingWord {
    /// What guessers see of `word` at the start of a turn that `who` draws:
    /// its length, and its whitespace and hyphens.
    pub fn for_guessers(who: Username, word: &str) -> (r: DrawingWord)
        ensures
            r matches DrawingWord::Guess { hints, who: w, word_len } && w == who && word_len
                == word@.len() && opening_hints(hints@, word@),
    {
        let chars = chars_of(word);
        let mut hints: Vec<Hint> = Vec::new();
        let mut i: usize = 0;
        while i < chars.len()
            invariant
                chars@ == word@,
                i <= chars.len(),
                hints_match(hints@, word@),
                forall|k: int| 0 <= k < hints.len() ==> (#[trigger] hints[k]).index < i,
                forall|j: int| 0 <= j < i ==> (#[trigger] is_blank(word@[j]) <==> is_revealed(hints@, j)),
                extra_reveals(hints@) == 0,
                shown_letters(hints@) == hyphens(word@.take(i as int)),
            decreases chars.len() - i,
        {
            let c = chars[i];
            let ghost old_hints = hints@;
            proof {
                assert(word@.take(i + 1).drop_last() == word@.take(i as int));
                assert(word@.take(i + 1).last() == word@[i as int]);
            }
            if is_white_space_char(c) || c == '-' {
                let h = Hint { index: i, ch: c };
                hints.push(h);
                proof {
                    lemma_push_hint(old_hints, h, word@, i as int);
                }
            } else {
                proof {
                    assert(!is_revealed(hints@, i as int));
                }
            }
            i = i + 1;
        }
        proof {
            assert(word@.take(chars.len() as int) == word@);
        }
        DrawingWord::Guess { hints, who, word_len: chars.len() }
    }
}

fn copy_hints(v: &Vec<Hint>) -> (r: Vec<Hint>)
    ensures
        r@ == v@,
{
    let mut r: Vec<Hint> = Vec::new();
    let mut k: usize = 0;
    while k < v.len()
        invariant
            k <= v.len(),
            r@ == v@.take(k as int),
        decreases v.len() - k,
    {
        r.push(v[k]);
        proof {
            assert(v@.take(k + 1) == v@.take(k as int).push(v@[k as int]));
        }
        k = k + 1;
    }
    proof {
        assert(v@.take(v.len() as int) == v@);
    }
    r
}

impl DrawingWord {
    /// A copy of `self`: the same variant, with the same contents.
    pub fn duplicate(&self) -> (r: DrawingWord)
        ensures
            match (*self, r) {
                (
                    DrawingWord::Guess { hints: h0, who: w0, word_len: l0 },
                    DrawingWord::Guess { hints, who, word_len },
                ) => hints@ == h0@ && who == w0 && word_len == l0,
                (DrawingWord::Draw(s0), DrawingWord::Draw(s)) => s == s0,
                _ => false,
            },
    {
        match self {
            DrawingWord::Guess { hints, who, word_len } => DrawingWord::Guess {
                hints: copy_hints(hints),
                who: who.duplicate(),
                word_len: *word_len,
            },
            DrawingWord::Draw(s) => DrawingWord::Draw(s.clone()),
        }
    }
}

/// `a` and `b` are the same word of a turn.
pub open spec fn same_word(a: DrawingWord, b: DrawingWord) -> bool {
    match (a, b) {
        (
            DrawingWord::Guess { hints: h0, who: w0, word_len: l0 },
            DrawingWord::Guess { hints, who, word_len },
        ) => hints@ == h0@ && who == w0 && word_len == l0,
        (DrawingWord::Draw(s0), DrawingWord::Draw(s)) => s == s0,
        _ => false,
    }
}

/// `a` and `b` are the same turn.
pub open spec fn same_turn(a: Turn, b: Turn) -> bool {
    &&& a.state == b.state
    &&& a.end_instant == b.end_instant
    &&& a.current_round == b.current_round
    &&& a.last_round == b.last_round
    &&& same_word(a.word, b.word)
}

/// `a` and `b` are the same game.
pub open spec fn same_game(a: Game, b: Game) -> bool {
    &&& a.dimensions == b.dimensions
    &&& a.canvas@ == b.canvas@
    &&& same_turn(a.turn, b.turn)
}

/// The state of the current turn, as clients see it.
#[derive(Clone, Debug)]
pub struct Turn {
    pub state: TurnState,
    pub word: DrawingWord,
    pub end_instant: u64,
    pub current_round: usize,
    pub last_round: usize,
}

impl Turn {
    /// A copy of `self`, its word copied as `DrawingWord::duplicate` does.
    pub fn duplicate(&self) -> (r: Turn)
        ensures
            same_turn(*self, r),
    {
        Turn {
            state: self.state,
            word: self.word.duplicate(),
            end_instant: self.end_instant,
            current_round: self.current_round,
            last_round: self.last_round,
        }
    }

    /// The same turn, with `word` in place of its word.
    pub fn with_word(self, word: DrawingWord) -> (r: Self)
        ensures
            r == (Turn { word, ..self }),
    {
        let mut t = self;
        t.word = word;
        t
    }
}

/// Seconds left until `end`, at time `now`: never negative, and at most
/// what a `u32` holds.
pub open spec fn seconds_left(end: u64, now: u64) -> u32 {
    if end <= now {
        0
    } else if end - now > u32::MAX {
        u32::MAX
    } else {
        (end - now) as u32
    }
}

/// All that is known of an ongoing game.
#[derive(Clone, Debug)]
pub struct Game {
    pub dimensions: Coord,
    /// The colour of each painted point, under `coord_key` of the point.
    pub canvas: HashMap<u32, Color>,
    pub turn: Turn,
}

impl Game {
    /// A copy of `self`.
    pub fn duplicate(&self) -> (r: Game)
        ensures
            same_game(*self, r),
    {
        Game { dimensions: self.dimensions, canvas: self.canvas.clone(), turn: self.turn.duplicate() }
    }

    /// Seconds left in the current turn at time `now`.
    pub fn remaining_time_at(&self, now: u64) -> (r: u32)
        ensures
            r == seconds_left(self.turn.end_instant, now),
    {
        let end = self.turn.end_instant;
        if end <= now {
            0
        } else if end - now > 0xffff_ffff {
            0xffff_ffff
        } else {
            (end - now) as u32
        }
    }

    /// Seconds left in the current turn, by the system clock.
    pub fn remaining_round_time(&self) -> (r: u32)
        ensures
            exists|now: u64| r == seconds_left(self.turn.end_instant, now),
    {
        let now = get_time_now();
        self.remaining_time_at(now)
    }
}

impl<World: Clone> RoomState<World> {
    pub fn world(&self) -> (r: Option<&World>)
        ensures
            match self {
                RoomState::Playing(w) => r == Some(w),
                _ => r is None,
            },
    {
        match self {
            RoomState::Playing(info) => Some(info),
            _ => None,
        }
    }
}

impl<World: Clone> RoomState<World> {
    pub fn world_mut(&mut self) -> (r: Option<&mut World>)
        ensures
            match *old(self) {
                RoomState::Playing(w) => r matches Some(x) && *x == w,
                _ => r is None,
            },
    {
        match self {
            RoomState::Playing(info) => Some(info),
            _ => None,
        }
    }
}

impl RoomState<Game> {
    pub fn canvas_mut(&mut self) -> (r: Option<&mut HashMap<u32, Color>>)
        ensures
            match *old(self) {
                RoomState::Playing(g) => r matches Some(c) && *c == g.canvas,
                _ => r is None,
            },
    {
        match self {
            RoomState::Playing(g) => Some(&mut g.canvas),
            _ => None,
        }
    }

    pub fn dimensions(&self) -> (r: Option<Coord>)
        ensures
            match self {
                RoomState::Playing(g) => r == Some(g.dimensions),
                _ => r is None,
            },
    {
        match self {
            RoomState::Playing(g) => Some(g.dimensions),
            _ => None,
        }
    }
}

/// Milliseconds since the Unix epoch.
///
/// Relies on `std::time::SystemTime::now` and `duration_since`; a clock set
/// before the epoch reads as zero.
#[verifier::external_body]
pub(crate) fn clock_millis() -> (r: u64) {
    std::time::SystemTime::now()
        .duration_since(std::time::UNIX_EPOCH)
        .map(|d| d.as_millis() as u64)
        .unwrap_or(0)
}

/// Seconds since the Unix epoch, by the system clock.
pub fn get_time_now() -> (r: u64)
    ensures
        r <= u64::MAX / 1000,
{
    let ms = clock_millis();
    ms / 1000
}

} // verus!
