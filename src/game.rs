//! The turn engine of a room that is playing: who draws, which word, what
//! guessers see of it, and how guesses score.

use vstd::prelude::*;
use std::collections::HashMap;
use crate::chance::{random_below, shuffled};
use crate::text::{edit_distance, is_white_space_char, levenshtein_distance};
use crate::world::{
    is_blank, is_revealed, hints_match, hyphens, extra_reveals, opening_hints, seconds_left,
    shown_letters, DrawingWord, Game, GameOpts, Hint, Player, PlayerId, Turn, TurnState, Username,
};

verus! {

/// Points of a correct guess before the time bonus is added.
pub const GUESS_POINTS: u32 = 50;

/// The hints of a turn on `word`: every whitespace and hyphen is shown, and
/// beyond those, letters are shown only while at most half of the word is.
pub open spec fn hints_ok(hints: Seq<Hint>, word: Seq<char>) -> bool {
    &&& hints_match(hints, word)
    &&& forall|i: int| 0 <= i < word.len() && #[trigger] is_blank(word[i]) ==> is_revealed(hints, i)
    &&& shown_letters(hints) == hyphens(word) + extra_reveals(hints)
    &&& (extra_reveals(hints) == 0 || shown_letters(hints) <= word.len() / 2)
}

/// `a + b`, or the largest `u32` where that does not fit.
pub open spec fn sat_add(a: u32, b: u32) -> u32 {
    if a + b > u32::MAX {
        u32::MAX
    } else {
        (a + b) as u32
    }
}

/// The time bonus: 50, plus half the percentage of the turn that was left.
/// A turn of no length gives no percentage.
pub open spec fn score_increase(remaining: u32, round_duration: usize) -> u32 {
    let bonus: int = if round_duration == 0 {
        0
    } else {
        (remaining as int * 100 / round_duration as int) / 2
    };
    if 50 + bonus > u32::MAX {
        u32::MAX
    } else {
        (50 + bonus) as u32
    }
}

/// What a correct guess earns when `remaining` seconds of the turn are left.
pub open spec fn guess_award(remaining: u32, round_duration: usize) -> u32 {
    sat_add(GUESS_POINTS, score_increase(remaining, round_duration))
}

pub fn calculate_score_increase(remaining_time: u32, round_duration: usize) -> (r: u32)
    ensures
        r == score_increase(remaining_time, round_duration),
{
    if round_duration == 0 {
        return 50;
    }
    let num: u64 = remaining_time as u64 * 100;
    let d: u64 = round_duration as u64;
    let scaled: u64 = num / d;
    proof {
        assert(scaled <= num) by (nonlinear_arith)
            requires
                d >= 1,
                scaled == num / d,
        ;
    }
    let total: u64 = 50 + scaled / 2;
    if total > 0xffff_ffff {
        0xffff_ffff
    } else {
        total as u32
    }
}

/// The positions below `n` of `word` that `hints` do not show, in order.
pub open spec fn hidden_positions(hints: Seq<Hint>, n: nat) -> Seq<usize>
    decreases n,
{
    if n == 0 {
        Seq::empty()
    } else {
        let p = hidden_positions(hints, (n - 1) as nat);
        if is_revealed(hints, n - 1) {
            p
        } else {
            p.push((n - 1) as usize)
        }
    }
}

proof fn lemma_hidden_positions(hints: Seq<Hint>, n: nat)
    requires
        n <= usize::MAX,
    ensures
        forall|k: int|
            0 <= k < hidden_positions(hints, n).len() ==> (#[trigger] hidden_positions(hints, n)[k])
                < n && !is_revealed(hints, hidden_positions(hints, n)[k] as int),
    decreases n,
{
    if n > 0 {
        lemma_hidden_positions(hints, (n - 1) as nat);
        let p = hidden_positions(hints, (n - 1) as nat);
        if !is_revealed(hints, n - 1) {
            assert forall|k: int| 0 <= k < p.len() implies p.push((n - 1) as usize)[k] == p[k] by {}
        }
    }
}

proof fn lemma_reveal_hidden(hints: Seq<Hint>, word: Seq<char>, i: usize, c: char)
    requires
        hints_ok(hints, word),
        i < word.len(),
        c == word[i as int],
        !is_revealed(hints, i as int),
        shown_letters(hints) + 1 <= word.len() / 2,
    ensures
        hints_ok(hints.push(Hint { index: i, ch: c }), word),
        shown_letters(hints.push(Hint { index: i, ch: c })) == shown_letters(hints) + 1,
{
    let h = Hint { index: i, ch: c };
    let s = hints.push(h);
    assert(s.len() == hints.len() + 1);
    assert(s[hints.len() as int] == h);
    assert(s.drop_last() =~= hints);
    assert(s.last() == h);
    assert(!is_blank(word[i as int]));
    assert forall|j: int| 0 <= j < word.len() && #[trigger] is_blank(word[j]) implies is_revealed(s, j) by {
        let k = choose|k: int| 0 <= k < hints.len() && (#[trigger] hints[k]).index == j;
        assert(s[k] == hints[k]);
    }
    assert forall|k1: int, k2: int|
        0 <= k1 < s.len() && 0 <= k2 < s.len() && k1 != k2 implies (#[trigger] s[k1]).index
            != (#[trigger] s[k2]).index by {
        if k1 < hints.len() && k2 < hints.len() {
            assert(s[k1] == hints[k1] && s[k2] == hints[k2]);
        } else if k1 < hints.len() {
            assert(s[k1] == hints[k1]);
        } else {
            assert(s[k2] == hints[k2]);
        }
    }
    assert forall|k: int| 0 <= k < s.len() implies (#[trigger] s[k]).index < word.len() && word[s[k].index as int] == s[k].ch by {
        if k < hints.len() {
            assert(s[k] == hints[k]);
        }
    }
}

/// `h` is `h0` with one more hint, at a position that `h0` did not show.
pub open spec fn one_more_hint(h0: Seq<Hint>, h: Seq<Hint>, word: Seq<char>) -> bool {
    exists|i: usize|
        i < word.len() && !is_revealed(h0, i as int) && h == #[trigger] h0.push(
            Hint { index: i, ch: word[i as int] },
        )
}

/// Whether `hints` show the character at `i`.
fn revealed_at(hints: &Vec<Hint>, i: usize) -> (r: bool)
    ensures
        r == is_revealed(hints@, i as int),
{
    let mut k: usize = 0;
    while k < hints.len()
        invariant
            k <= hints.len(),
            forall|j: int| 0 <= j < k ==> (#[trigger] hints@[j]).index != i,
        decreases hints.len() - k,
    {
        if hints[k].index == i {
            return true;
        }
        k = k + 1;
    }
    false
}

fn count_shown_letters(hints: &Vec<Hint>) -> (r: usize)
    ensures
        r == shown_letters(hints@),
{
    let mut n: usize = 0;
    let mut k: usize = 0;
    while k < hints.len()
        invariant
            k <= hints.len(),
            n == shown_letters(hints@.take(k as int)),
            n <= k,
        decreases hints.len() - k,
    {
        proof {
            assert(hints@.take(k + 1).drop_last() == hints@.take(k as int));
            assert(hints@.take(k + 1).last() == hints@[k as int]);
        }
        if !is_white_space_char(hints[k].ch) {
            n = n + 1;
        }
        k = k + 1;
    }
    proof {
        assert(hints@.take(hints.len() as int) == hints@);
    }
    n
}

fn count_extra_reveals(hints: &Vec<Hint>) -> (r: usize)
    ensures
        r == extra_reveals(hints@),
{
    let mut n: usize = 0;
    let mut k: usize = 0;
    while k < hints.len()
        invariant
            k <= hints.len(),
            n == extra_reveals(hints@.take(k as int)),
            n <= k,
        decreases hints.len() - k,
    {
        proof {
            assert(hints@.take(k + 1).drop_last() == hints@.take(k as int));
            assert(hints@.take(k + 1).last() == hints@[k as int]);
        }
        let c = hints[k].ch;
        if !(is_white_space_char(c) || c == '-') {
            n = n + 1;
        }
        k = k + 1;
    }
    proof {
        assert(hints@.take(hints.len() as int) == hints@);
    }
    n
}

fn hidden_of(hints: &Vec<Hint>, len: usize) -> (r: Vec<usize>)
    ensures
        r@ == hidden_positions(hints@, len as nat),
{
    let mut r: Vec<usize> = Vec::new();
    let mut i: usize = 0;
    while i < len
        invariant
            i <= len,
            r@ == hidden_positions(hints@, i as nat),
        decreases len - i,
    {
        if !revealed_at(hints, i) {
            r.push(i);
        }
        i = i + 1;
    }
    r
}

fn copy_words(v: &Vec<String>) -> (r: Vec<String>)
    ensures
        r@ == v@,
{
    let mut r: Vec<String> = Vec::new();
    let mut k: usize = 0;
    while k < v.len()
        invariant
            k <= v.len(),
            r@ == v@.take(k as int),
        decreases v.len() - k,
    {
        r.push(v[k].clone());
        proof {
            assert(v@.take(k + 1) == v@.take(k as int).push(v@[k as int]));
        }
        k = k + 1;
    }
    proof {
        assert(v@.take(v.len() as int) == v@);
    }
    r
}

/// The entries of `left` whose id is not `id`, in order.
pub open spec fn without(left: Seq<Username>, id: PlayerId) -> Seq<Username>
    decreases left.len(),
{
    if left.len() == 0 {
        Seq::empty()
    } else {
        let r = without(left.drop_last(), id);
        if left.last().1 != id {
            r.push(left.last())
        } else {
            r
        }
    }
}

/// The state of a game that is being played.
pub struct Skribbl {
    /// What every client is shown of the game.
    pub game: Game,
    /// The word of the current turn.
    pub current_word: String,
    /// Players still owed a turn as drawer in this round, in order.
    pub players_left_in_round: Vec<Username>,
    /// The shuffled word list; turns take its words in a cycle.
    pub words: Vec<String>,
    /// Where in `words` the next turn's word is.
    pub next_word: usize,
    /// Seconds that a turn lasts.
    pub round_duration: usize,
}

impl Skribbl {
    pub open spec fn wf(&self) -> bool {
        &&& self.words.len() > 0
        &&& self.next_word < self.words.len()
        &&& self.game.turn.current_round <= self.game.turn.last_round
        &&& match self.game.turn.word {
            DrawingWord::Guess { hints, who: _, word_len } => word_len == self.current_word@.len()
                && hints_ok(hints@, self.current_word@),
            DrawingWord::Draw(_) => true,
        }
    }

    /// The id of the player who draws in the current turn.
    pub open spec fn drawer(&self) -> Option<PlayerId> {
        match self.game.turn.word {
            DrawingWord::Guess { who, .. } => Some(who.1),
            DrawingWord::Draw(_) => None,
        }
    }

    /// A game of `opts.number_of_rounds` rounds on a shuffle of the
    /// configured words; no round has started yet.
    pub fn new(opts: &GameOpts) -> (r: Self)
        requires
            opts.custom_words.len() > 0,
        ensures
            r.wf(),
            r.game.dimensions == opts.dimensions,
            r.game.canvas@ == Map::<u32, crate::world::Color>::empty(),
            r.game.turn.current_round == 0,
            r.game.turn.last_round == opts.number_of_rounds,
            r.game.turn.word is Draw,
            r.players_left_in_round@.len() == 0,
            r.words@.to_multiset() == opts.custom_words@.to_multiset(),
            r.round_duration == opts.round_duration,
    {
        let words = shuffled(copy_words(&opts.custom_words));
        let turn = Turn {
            last_round: opts.number_of_rounds,
            state: TurnState::Drawing,
            word: DrawingWord::Draw(String::new()),
            end_instant: 0,
            current_round: 0,
        };
        Skribbl {
            game: Game { dimensions: opts.dimensions, turn, canvas: HashMap::new() },
            current_word: String::new(),
            players_left_in_round: Vec::new(),
            words,
            next_word: 0,
            round_duration: opts.round_duration,
        }
    }

    /// No player is left to draw in this round.
    pub fn is_last_turn(&self) -> (r: bool)
        ensures
            r == (self.players_left_in_round@.len() == 0),
    {
        self.players_left_in_round.len() == 0
    }

    /// The configured number of rounds has been started.
    pub fn is_last_round(&self) -> (r: bool)
        ensures
            r == (self.game.turn.current_round >= self.game.turn.last_round),
    {
        self.game.turn.current_round >= self.game.turn.last_round
    }

    /// The player who draws now.
    pub fn get_drawing_player(&self) -> (r: PlayerId)
        requires
            self.game.turn.word is Guess,
        ensures
            self.drawer() == Some(r),
    {
        match &self.game.turn.word {
            DrawingWord::Guess { who, .. } => who.1,
            DrawingWord::Draw(_) => 0,
        }
    }

    pub fn is_drawing(&self, id: PlayerId) -> (r: bool)
        ensures
            r == (self.drawer() == Some(id)),
    {
        match &self.game.turn.word {
            DrawingWord::Guess { who, .. } => who.1 == id,
            DrawingWord::Draw(_) => false,
        }
    }

    /// Hands the next turn to the first player left in the round, with the
    /// next word of the cycle; the turn ends `round_duration` seconds after
    /// `now`.
    pub fn next_turn(&mut self, now: u64)
        requires
            old(self).wf(),
            old(self).players_left_in_round@.len() > 0,
        ensures
            final(self).wf(),
            final(self).players_left_in_round@ == old(self).players_left_in_round@.drop_first(),
            final(self).current_word@ == old(self).words@[old(self).next_word as int]@,
            final(self).words@ == old(self).words@,
            final(self).next_word == if old(self).next_word + 1 < old(self).words@.len() {
                old(self).next_word + 1
            } else {
                0
            },
            final(self).game.turn.word matches DrawingWord::Guess { hints, who, word_len } && who
                == old(self).players_left_in_round@[0] && word_len == final(self).current_word@.len()
                && opening_hints(hints@, final(self).current_word@),
            final(self).game.turn.state == TurnState::Drawing,
            final(self).game.turn.end_instant as int == if now + old(self).round_duration
                > u64::MAX {
                u64::MAX as int
            } else {
                now + old(self).round_duration
            },
            final(self).game.turn.current_round == old(self).game.turn.current_round,
            final(self).game.turn.last_round == old(self).game.turn.last_round,
            final(self).game.canvas == old(self).game.canvas,
            final(self).game.dimensions == old(self).game.dimensions,
            final(self).round_duration == old(self).round_duration,
    {
        let who = self.players_left_in_round.remove(0);
        proof {
            assert(old(self).players_left_in_round@.remove(0) =~= old(self).players_left_in_round@.drop_first());
        }
        let word = self.words[self.next_word].clone();
        self.next_word = if self.next_word + 1 < self.words.len() {
            self.next_word + 1
        } else {
            0
        };
        let guess_view = DrawingWord::for_guessers(who, word.as_str());
        self.current_word = word;
        self.game.turn.word = guess_view;
        self.game.turn.state = TurnState::Drawing;
        let d = self.round_duration as u64;
        self.game.turn.end_instant = if now > u64::MAX - d {
            u64::MAX
        } else {
            now + d
        };
    }

    /// Starts the next round: every player of `players`, in that order, is
    /// owed a turn, and the first of them draws now.
    pub fn start_round(&mut self, players: &Vec<Player>, now: u64)
        requires
            old(self).wf(),
            old(self).game.turn.current_round < old(self).game.turn.last_round,
            players.len() > 0,
        ensures
            final(self).wf(),
            final(self).game.turn.current_round == old(self).game.turn.current_round + 1,
            final(self).game.turn.last_round == old(self).game.turn.last_round,
            final(self).drawer() == Some(players@[0].name.1),
            final(self).players_left_in_round@.len() == players@.len() - 1,
            forall|k: int|
                0 <= k < final(self).players_left_in_round@.len() ==> (
                #[trigger] final(self).players_left_in_round@[k]).1 == players@[k + 1].name.1
                    && final(self).players_left_in_round@[k].0@ == players@[k + 1].name.0@,
            final(self).game.canvas == old(self).game.canvas,
            final(self).game.dimensions == old(self).game.dimensions,
            final(self).round_duration == old(self).round_duration,
    {
        self.game.turn.current_round = self.game.turn.current_round + 1;
        let mut left: Vec<Username> = Vec::new();
        let mut k: usize = 0;
        while k < players.len()
            invariant
                k <= players.len(),
                left@.len() == k,
                forall|j: int|
                    0 <= j < k ==> (#[trigger] left@[j]).1 == players@[j].name.1 && left@[j].0@
                        == players@[j].name.0@,
            decreases players.len() - k,
        {
            left.push(players[k].name.duplicate());
            k = k + 1;
        }
        self.players_left_in_round = left;
        self.next_turn(now);
    }

    /// Drops the player `id` from those still owed a turn in this round.
    pub fn forget_player(&mut self, id: PlayerId)
        ensures
            forall|k: int|
                0 <= k < final(self).players_left_in_round@.len() ==> (
                #[trigger] final(self).players_left_in_round@[k]).1 != id
                    && old(self).players_left_in_round@.contains(final(self).players_left_in_round@[k]),
            forall|k: int|
                0 <= k < old(self).players_left_in_round@.len() && (
                #[trigger] old(self).players_left_in_round@[k]).1 != id
                    ==> final(self).players_left_in_round@.contains(old(self).players_left_in_round@[k]),
            final(self).players_left_in_round@ == without(old(self).players_left_in_round@, id),
            final(self).game == old(self).game,
            final(self).current_word == old(self).current_word,
            final(self).words == old(self).words,
            final(self).next_word == old(self).next_word,
            final(self).round_duration == old(self).round_duration,
    {
        let mut old_left: Vec<Username> = Vec::new();
        std::mem::swap(&mut old_left, &mut self.players_left_in_round);
        let ghost o = old_left@;
        let n0 = old_left.len();
        let mut kept: Vec<Username> = Vec::new();
        let mut k: usize = 0;
        while old_left.len() > 0
            invariant
                k <= o.len(),
                old_left@ == o.subrange(k as int, o.len() as int),
                old_left@.len() == o.len() - k,
                o.len() == n0,
                kept@ == without(o.take(k as int), id),
                forall|j: int| 0 <= j < kept@.len() ==> (#[trigger] kept@[j]).1 != id && o.contains(kept@[j]),
                forall|j: int| 0 <= j < k && (#[trigger] o[j]).1 != id ==> kept@.contains(o[j]),
            decreases old_left@.len(),
        {
            let u = old_left.remove(0);
            proof {
                assert(o.take(k + 1).drop_last() == o.take(k as int));
                assert(o.take(k + 1).last() == o[k as int]);
                assert(u == o[k as int]);
                assert(old_left@ =~= o.subrange(k + 1, o.len() as int));
            }
            if u.1 != id {
                let ghost before = kept@;
                kept.push(u);
                proof {
                    assert(kept@[kept@.len() - 1] == o[k as int]);
                    assert forall|j: int| 0 <= j < before.len() implies kept@[j] == before[j] by {}
                    assert forall|j: int| 0 <= j <= k && (#[trigger] o[j]).1 != id implies kept@.contains(o[j]) by {
                        if j < k {
                            let m = choose|m: int| 0 <= m < before.len() && before[m] == o[j];
                            assert(kept@[m] == o[j]);
                        } else {
                            assert(kept@[kept@.len() - 1] == o[j]);
                        }
                    }
                }
            }
            k = k + 1;
        }
        proof {
            assert(o.take(o.len() as int) == o);
        }
        self.players_left_in_round = kept;
    }

    /// Whether a letter may be revealed now: the turn has a word, some of its
    /// characters are still hidden, and one more shown letter keeps at most
    /// half of the word shown.
    pub open spec fn can_reveal(&self) -> bool {
        match self.game.turn.word {
            DrawingWord::Guess { hints, .. } => shown_letters(hints@) + 1 <= self.current_word@.len()
                / 2 && hidden_positions(hints@, self.current_word@.len()).len() > 0,
            DrawingWord::Draw(_) => false,
        }
    }

    /// Reveals one hidden character of the word: of the hidden positions in
    /// order, the one at `pick` modulo their number. Nothing changes where
    /// `can_reveal` does not hold.
    pub fn reveal_char(&mut self, pick: usize)
        requires
            old(self).wf(),
        ensures
            final(self).wf(),
            old(self).can_reveal() ==> (old(self).game.turn.word matches DrawingWord::Guess {
                hints: h0,
                who: w0,
                word_len: l0,
            } && final(self).game.turn.word matches DrawingWord::Guess { hints, who, word_len }
                && who == w0 && word_len == l0 && ({
                let hidden = hidden_positions(h0@, old(self).current_word@.len());
                let i = hidden[pick as int % hidden.len() as int];
                hints@ == h0@.push(Hint { index: i, ch: old(self).current_word@[i as int] })
            })),
            !old(self).can_reveal() ==> final(self).game.turn.word == old(self).game.turn.word,
            final(self).drawer() == old(self).drawer(),
            final(self).current_word == old(self).current_word,
            final(self).players_left_in_round == old(self).players_left_in_round,
            final(self).words == old(self).words,
            final(self).next_word == old(self).next_word,
            final(self).round_duration == old(self).round_duration,
            final(self).game.canvas == old(self).game.canvas,
            final(self).game.dimensions == old(self).game.dimensions,
            final(self).game.turn.current_round == old(self).game.turn.current_round,
            final(self).game.turn.last_round == old(self).game.turn.last_round,
            final(self).game.turn.end_instant == old(self).game.turn.end_instant,
            final(self).game.turn.state == old(self).game.turn.state,
    {
        let chars = crate::text::chars_of(self.current_word.as_str());
        let mut word = DrawingWord::Draw(String::new());
        std::mem::swap(&mut word, &mut self.game.turn.word);
        let ghost w0 = word;
        match word {
            DrawingWord::Guess { mut hints, who, word_len } => {
                let shown = count_shown_letters(&hints);
                let hidden = hidden_of(&hints, chars.len());
                if hidden.len() > 0 && shown < chars.len() / 2 {
                    let i = hidden[pick % hidden.len()];
                    proof {
                        lemma_hidden_positions(hints@, chars@.len());
                        assert(hidden@[pick as int % hidden@.len() as int] == i);
                        lemma_reveal_hidden(hints@, chars@, i, chars@[i as int]);
                    }
                    hints.push(Hint { index: i, ch: chars[i] });
                }
                self.game.turn.word = DrawingWord::Guess { hints, who, word_len };
            },
            DrawingWord::Draw(w) => {
                self.game.turn.word = DrawingWord::Draw(w);
            },
        }
    }

    /// How many characters of the word guessers do not see yet.
    pub fn hidden_count(&self) -> (r: usize)
        ensures
            match self.game.turn.word {
                DrawingWord::Guess { hints, .. } => r == hidden_positions(
                    hints@,
                    self.current_word@.len(),
                ).len(),
                DrawingWord::Draw(_) => r == 0,
            },
    {
        match &self.game.turn.word {
            DrawingWord::Guess { hints, .. } => {
                let chars = crate::text::chars_of(self.current_word.as_str());
                hidden_of(hints, chars.len()).len()
            },
            DrawingWord::Draw(_) => 0,
        }
    }

    /// Reveals a hidden character chosen at random, as `reveal_char` does.
    pub fn reveal_random_char(&mut self)
        requires
            old(self).wf(),
        ensures
            final(self).wf(),
            old(self).can_reveal() ==> (old(self).game.turn.word matches DrawingWord::Guess {
                hints: h0,
                ..
            } && final(self).game.turn.word matches DrawingWord::Guess { hints, .. }
                && one_more_hint(h0@, hints@, old(self).current_word@)),
            !old(self).can_reveal() ==> final(self).game.turn.word == old(self).game.turn.word,
            final(self).drawer() == old(self).drawer(),
            final(self).current_word == old(self).current_word,
            final(self).players_left_in_round == old(self).players_left_in_round,
            final(self).round_duration == old(self).round_duration,
            final(self).game.canvas == old(self).game.canvas,
            final(self).game.turn.end_instant == old(self).game.turn.end_instant,
    {
        let n = self.hidden_count();
        let pick = if n > 0 {
            random_below(n)
        } else {
            0
        };
        let ghost h0 = self.game.turn.word;
        self.reveal_char(pick);
        proof {
            if old(self).can_reveal() {
                let hs = h0->Guess_hints@;
                let word = old(self).current_word@;
                lemma_hidden_positions(hs, word.len());
                let hidden = hidden_positions(hs, word.len());
                let i = hidden[pick as int % hidden.len() as int];
                assert(hidden[pick as int % hidden.len() as int] == i);
            }
        }
    }

    /// Scores `guess` for `player` at time `now`: the result is its distance
    /// to the word, and a guess at distance zero earns `guess_award` for the
    /// time left.
    pub fn do_guess(&mut self, player: &mut Player, guess: &str, now: u64) -> (r: usize)
        ensures
            r == edit_distance(guess@, old(self).current_word@),
            final(player).score == if r == 0 {
                sat_add(
                    old(player).score,
                    guess_award(
                        seconds_left(old(self).game.turn.end_instant, now),
                        old(self).round_duration,
                    ),
                )
            } else {
                old(player).score
            },
            final(player).name == old(player).name,
            final(player).solved_current_round == old(player).solved_current_round,
            *final(self) == *old(self),
    {
        let remaining_time = self.game.remaining_time_at(now);
        let dist = levenshtein_distance(guess, self.current_word.as_str());
        if dist == 0 {
            let inc = calculate_score_increase(remaining_time, self.round_duration);
            let award: u32 = if inc > u32::MAX - GUESS_POINTS {
                u32::MAX
            } else {
                GUESS_POINTS + inc
            };
            player.score = if player.score > u32::MAX - award {
                u32::MAX
            } else {
                player.score + award
            };
        }
        dist
    }

    /// How many characters beyond whitespace and hyphens guessers were shown.
    pub fn extra_reveal_count(&self) -> (r: usize)
        ensures
            match self.game.turn.word {
                DrawingWord::Guess { hints, .. } => r == extra_reveals(hints@),
                DrawingWord::Draw(_) => r == 0,
            },
    {
        match &self.game.turn.word {
            DrawingWord::Guess { hints, .. } => count_extra_reveals(hints),
            DrawingWord::Draw(_) => 0,
        }
    }
}

/// A correct guess raises a score by at least the flat points, wherever the
/// score is not within those points of the largest `u32`.
pub proof fn lemma_award_at_least_guess_points(score: u32, remaining: u32, round_duration: usize)
    requires
        score as int + GUESS_POINTS as int <= u32::MAX,
    ensures
        sat_add(score, guess_award(remaining, round_duration)) >= score + GUESS_POINTS,
{
}

/// However a turn's hints have grown, at most half of the word's length in
/// characters other than whitespace is shown, unless the word's hyphens,
/// which every guesser sees from the start, are already more than that.
pub proof fn lemma_hint_cap(sk: &Skribbl)
    requires
        sk.wf(),
        hyphens(sk.current_word@) <= sk.current_word@.len() / 2,
    ensures
        sk.game.turn.word matches DrawingWord::Guess { hints, .. } ==> shown_letters(hints@)
            <= sk.current_word@.len() / 2,
{
}

} // verus!
