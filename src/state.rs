//! The state of one game session and the steps that change it: spawning a
//! word, advancing the words, and resolving typed text.

use crate::count::{count_where, lemma_count_push, lemma_count_update, lemma_count_zero};
use crate::menu::Language;
use crate::trusted::{lower_of, lowercase, random_below, upper_of, uppercase};
use crate::tuning::{
    award_spec, interval_spec, speed_spec, standard_tuning, wpm_spec, Tuning, MAX_JITTER,
};
use crate::word::{Word, PROGRESS_ONE};
use vstd::prelude::*;

verus! {

/// The number of lanes a word can move along.
pub const LANE_COUNT: usize = 40;

/// The rows a console needs: the lanes and the frame around them.
pub const MIN_CONSOLE_HEIGHT: u16 = 47;

/// A condition under which the session cannot go on.
#[derive(Clone, Copy, Debug, PartialEq, Eq)]
pub enum GameError {
    /// A spawn was due but every word of the list has been used.
    NoWordsLeft,
    /// The console has fewer rows than the game needs.
    ConsoleTooSmall,
}

impl GameError {
    /// The message shown to the player.
    pub fn message(&self) -> &'static str {
        match self {
            GameError::NoWordsLeft => "No more words left.",
            GameError::ConsoleTooSmall => "Console should be at least 47 lines tall",
        }
    }
}

/// Whether a console of the given height can show the game.
pub fn check_console_height(height: u16) -> (r: Result<(), GameError>)
    ensures
        r is Ok <==> height >= MIN_CONSOLE_HEIGHT,
        r is Err ==> r == Err::<(), GameError>(GameError::ConsoleTooSmall),
{
    if height < MIN_CONSOLE_HEIGHT {
        Err(GameError::ConsoleTooSmall)
    } else {
        Ok(())
    }
}

/// The number of words that have not been found.
pub open spec fn live_count(ws: Seq<Word>) -> nat {
    count_where(ws, |w: Word| !w.found)
}

/// The number of occupied lanes.
pub open spec fn occupied_count(lanes: Seq<Option<usize>>) -> nat {
    count_where(lanes, |o: Option<usize>| o is Some)
}

/// What one step of the simulation reports.
#[derive(Clone, Copy, Debug, PartialEq, Eq)]
pub enum TickResult {
    /// The game goes on.
    Continue,
    /// The word at this index of `words` reached the end of its lane: the
    /// game is lost.
    Escaped(usize),
    /// Every word has been spawned and found: the game is won.
    Won,
}

/// Whether `w` is live and its folded text `key` equals the folded
/// candidate `wanted`.
pub open spec fn matches(w: Word, key: Seq<char>, wanted: Seq<char>) -> bool {
    !w.found && key == wanted
}

/// The word after resolving: found if it matches.
pub open spec fn resolved(w: Word, key: Seq<char>, wanted: Seq<char>) -> Word {
    if matches(w, key, wanted) {
        Word { found: true, ..w }
    } else {
        w
    }
}

/// The lane entry after resolving: freed if its word matches.
pub open spec fn released(
    o: Option<usize>,
    ws: Seq<Word>,
    keys: Seq<Seq<char>>,
    wanted: Seq<char>,
) -> Option<usize> {
    match o {
        Some(i) => if i < ws.len() && matches(ws[i as int], keys[i as int], wanted) {
            None
        } else {
            o
        },
        None => None,
    }
}

/// Each word's text as `str::to_uppercase` folds it.
pub open spec fn folded_texts(ws: Seq<Word>) -> Seq<Seq<char>> {
    Seq::new(ws.len(), |j: int| upper_of(ws[j].text@))
}

/// The characters of each string.
pub open spec fn key_views(keys: Seq<String>) -> Seq<Seq<char>> {
    Seq::new(keys.len(), |j: int| keys[j]@)
}

/// `score` plus `points`, saturating at the largest `u64`.
pub open spec fn add_points(score: u64, points: nat) -> u64 {
    if score + points > u64::MAX {
        u64::MAX
    } else {
        (score + points) as u64
    }
}

/// The score after awarding, in order, every one of the first `n` words of
/// `ws` that matches.
pub open spec fn score_after(
    t: Tuning,
    score: u64,
    ws: Seq<Word>,
    keys: Seq<Seq<char>>,
    wanted: Seq<char>,
    n: nat,
) -> u64
    decreases n,
{
    if n == 0 {
        score
    } else {
        let before = score_after(t, score, ws, keys, wanted, (n - 1) as nat);
        let w = ws[n - 1];
        if matches(w, keys[n - 1], wanted) {
            add_points(before, award_spec(t, w.x as nat, w.speed as nat))
        } else {
            before
        }
    }
}

proof fn lemma_score_after_grows(
    t: Tuning,
    score: u64,
    ws: Seq<Word>,
    keys: Seq<Seq<char>>,
    wanted: Seq<char>,
    n: nat,
)
    ensures
        score_after(t, score, ws, keys, wanted, n) >= score,
    decreases n,
{
    if n > 0 {
        lemma_score_after_grows(t, score, ws, keys, wanted, (n - 1) as nat);
    }
}

/// The lines that hold a word: every non-empty line, in order.
pub open spec fn word_entries(lines: Seq<String>) -> Seq<String>
    decreases lines.len(),
{
    if lines.len() == 0 {
        lines
    } else if lines.last()@.len() > 0 {
        word_entries(lines.drop_last()).push(lines.last())
    } else {
        word_entries(lines.drop_last())
    }
}

/// How far into its row a word at `x` is drawn, on a row `width` columns
/// wide: its progress times the room left beside its text and the frame.
pub open spec fn indent_spec(x: nat, text_len: nat, width: nat) -> nat {
    let room: nat = if width >= text_len + 3 {
        (width - text_len - 3) as nat
    } else {
        0
    };
    let shown: nat = if x < PROGRESS_ONE {
        x
    } else {
        PROGRESS_ONE as nat
    };
    (shown * room) / PROGRESS_ONE as nat
}

/// The red part of a word's colour: its progress times 255.
pub open spec fn red_spec(x: nat) -> nat {
    let shown: nat = if x < PROGRESS_ONE {
        x
    } else {
        PROGRESS_ONE as nat
    };
    (shown * 255) / PROGRESS_ONE as nat
}

/// The green part of a word's colour: its headroom times 255.
pub open spec fn green_spec(x: nat) -> nat {
    let shown: nat = if x < PROGRESS_ONE {
        x
    } else {
        PROGRESS_ONE as nat
    };
    ((PROGRESS_ONE - shown) * 255) as nat / PROGRESS_ONE as nat
}

/// How one occupied lane is drawn.
pub struct LaneRow {
    /// Columns of blank before the text.
    pub indent: usize,
    pub text: String,
    /// The colour of the text: red grows and green fades as the word moves.
    pub red: u8,
    pub green: u8,
}

/// One game session.
pub struct GameState {
    pub language: Language,
    pub tuning: Tuning,
    /// In thousandths of a point.
    pub score: u64,
    /// Words per minute, as last set from the score.
    pub wpm: u64,
    /// Steps left until the next spawn.
    pub countdown: u64,
    /// The words not spawned yet.
    pub word_pool: Vec<String>,
    /// Every word spawned in this session, found or not, in spawn order.
    pub words: Vec<Word>,
    /// For each lane, the index in `words` of the live word on it.
    pub lanes: Vec<Option<usize>>,
}

impl GameState {
    /// The lane table and the live words agree: each live word sits on its
    /// own lane, each occupied lane holds a live word on that lane, and as
    /// many lanes are occupied as words are live.
    pub open spec fn wf(&self) -> bool {
        &&& self.tuning.wf()
        &&& self.tuning.wpm_start <= self.wpm <= self.tuning.wpm_ceiling
        &&& self.lanes@.len() == LANE_COUNT
        &&& forall|i: int| 0 <= i < self.words@.len() ==> (#[trigger] self.words@[i]).wf()
        &&& forall|i: int|
            0 <= i < self.words@.len() && !(#[trigger] self.words@[i]).found ==> {
                &&& self.words@[i].lane < LANE_COUNT
                &&& self.lanes@[self.words@[i].lane as int] == Some(i as usize)
            }
        &&& forall|l: int|
            0 <= l < LANE_COUNT && (#[trigger] self.lanes@[l]) is Some ==> {
                let i = self.lanes@[l]->0 as int;
                &&& i < self.words@.len()
                &&& !self.words@[i].found
                &&& self.words@[i].lane == l
            }
        &&& occupied_count(self.lanes@) == live_count(self.words@)
    }

    /// The texts of the spawned words and the lowercased entries of the pool
    /// are pairwise distinct.
    pub open spec fn texts_distinct(&self) -> bool {
        &&& forall|i: int, j: int|
            0 <= i < self.words@.len() && 0 <= j < self.words@.len() && i != j
                ==> #[trigger] self.words@[i].text@ != #[trigger] self.words@[j].text@
        &&& forall|i: int, j: int|
            0 <= i < self.word_pool@.len() && 0 <= j < self.word_pool@.len() && i != j
                ==> lower_of(#[trigger] self.word_pool@[i]@) != lower_of(
                #[trigger] self.word_pool@[j]@,
            )
        &&& forall|i: int, j: int|
            0 <= i < self.words@.len() && 0 <= j < self.word_pool@.len()
                ==> #[trigger] self.words@[i].text@ != lower_of(#[trigger] self.word_pool@[j]@)
    }

    /// Whether the session is won: no word is left to spawn and none is live.
    pub open spec fn cleared(&self) -> bool {
        self.word_pool@.len() == 0 && live_count(self.words@) == 0
    }

    /// `post` is `pre` with pool entry `pick`, lowercased, spawned on `lane`
    /// at `speed`.
    pub open spec fn placed(pre: GameState, post: GameState, lane: usize, pick: int, speed: u64) -> bool {
        &&& post.words@.len() == pre.words@.len() + 1
        &&& post.words@.drop_last() == pre.words@
        &&& post.words@.last().text@ == lower_of(pre.word_pool@[pick]@)
        &&& !post.words@.last().found
        &&& post.words@.last().x == 0
        &&& post.words@.last().lane == lane
        &&& post.words@.last().speed == speed
        &&& post.word_pool@ == pre.word_pool@.remove(pick)
        &&& post.lanes@ == pre.lanes@.update(lane as int, Some(pre.words@.len() as usize))
        &&& post == (GameState {
            words: post.words,
            word_pool: post.word_pool,
            lanes: post.lanes,
            ..pre
        })
    }

    /// `post` is what a spawn attempt on `pre`, with a non-empty pool, may
    /// leave: nothing changes when every lane is occupied; otherwise some
    /// pool entry was placed on some free lane, at the speed of the current
    /// words per minute with some admissible jitter.
    pub open spec fn spawned(pre: GameState, post: GameState) -> bool {
        ||| (forall|l: int| 0 <= l < LANE_COUNT ==> pre.lanes@[l] is Some) && post == pre
        ||| exists|lane: usize, pick: int, jitter: int|
            #![trigger GameState::placed(pre, post, lane, pick, speed_spec(pre.tuning, pre.wpm as nat, jitter) as u64)]
            {
                &&& lane < LANE_COUNT
                &&& pre.lanes@[lane as int] is None
                &&& 0 <= pick < pre.word_pool@.len()
                &&& -MAX_JITTER <= jitter <= MAX_JITTER
                &&& GameState::placed(
                    pre,
                    post,
                    lane,
                    pick,
                    speed_spec(pre.tuning, pre.wpm as nat, jitter) as u64,
                )
            }
    }

    /// `post` is `pre` after every live word has moved once, stopping at the
    /// first (in spawn order) that escapes, which `r` then names.
    pub open spec fn stepped(pre: GameState, post: GameState, r: TickResult) -> bool {
        &&& post == (GameState { words: post.words, ..pre })
        &&& post.words@.len() == pre.words@.len()
        &&& match r {
            TickResult::Continue => forall|j: int|
                0 <= j < pre.words@.len() ==> {
                    &&& #[trigger] post.words@[j] == pre.words@[j].advanced()
                    &&& !post.words@[j].found ==> !post.words@[j].has_escaped()
                },
            TickResult::Escaped(i) => {
                &&& i < pre.words@.len()
                &&& !pre.words@[i as int].found
                &&& post.words@[i as int] == pre.words@[i as int].advanced()
                &&& post.words@[i as int].has_escaped()
                &&& forall|j: int|
                    0 <= j < i ==> {
                        &&& #[trigger] post.words@[j] == pre.words@[j].advanced()
                        &&& !post.words@[j].found ==> !post.words@[j].has_escaped()
                    }
                &&& forall|j: int| i < j < pre.words@.len() ==> #[trigger] post.words@[j] == pre.words@[j]
            },
            TickResult::Won => false,
        }
    }

    /// `post` is `pre` after resolving the folded candidate `wanted`
    /// against the folded texts `keys`: matching words found, their lanes
    /// freed, their rewards added, nothing else changed.
    pub open spec fn resolved_with(
        pre: GameState,
        post: GameState,
        keys: Seq<Seq<char>>,
        wanted: Seq<char>,
    ) -> bool {
        &&& post.words@.len() == pre.words@.len()
        &&& post.lanes@.len() == pre.lanes@.len()
        &&& forall|j: int| 0 <= j < pre.words@.len()
            ==> #[trigger] post.words@[j] == resolved(pre.words@[j], keys[j], wanted)
        &&& forall|l: int| 0 <= l < LANE_COUNT
            ==> #[trigger] post.lanes@[l] == released(pre.lanes@[l], pre.words@, keys, wanted)
        &&& post.score == score_after(pre.tuning, pre.score, pre.words@, keys, wanted, pre.words@.len())
        &&& post == (GameState { words: post.words, lanes: post.lanes, score: post.score, ..pre })
    }

    /// `post` is `pre` after resolving the typed text `candidate`, letter
    /// case folded by `str::to_uppercase` on both sides.
    pub open spec fn typed(pre: GameState, post: GameState, candidate: Seq<char>) -> bool {
        GameState::resolved_with(pre, post, folded_texts(pre.words@), upper_of(candidate))
    }

    /// A fresh session under the standard tuning.
    pub fn new() -> (s: GameState)
        ensures
            s.wf(),
            s.texts_distinct(),
            s == GameState::fresh(standard_tuning(), s.word_pool, s.words, s.lanes),
            s.word_pool@.len() == 0,
            s.words@.len() == 0,
            s.lanes@ == Seq::new(LANE_COUNT as nat, |l: int| None::<usize>),
    {
        GameState::with_tuning(Tuning::standard())
    }

    /// The fields of a fresh session under `tuning`, around the given
    /// collections.
    pub open spec fn fresh(
        tuning: Tuning,
        word_pool: Vec<String>,
        words: Vec<Word>,
        lanes: Vec<Option<usize>>,
    ) -> GameState {
        GameState {
            language: Language::English,
            tuning,
            score: 0,
            wpm: tuning.wpm_start,
            countdown: 20,
            word_pool,
            words,
            lanes,
        }
    }

    /// A fresh session under `tuning`: no score, no words, every lane free,
    /// and the first spawn twenty steps away.
    pub fn with_tuning(tuning: Tuning) -> (s: GameState)
        requires
            tuning.wf(),
        ensures
            s.wf(),
            s.texts_distinct(),
            s == GameState::fresh(tuning, s.word_pool, s.words, s.lanes),
            s.word_pool@.len() == 0,
            s.words@.len() == 0,
            s.lanes@ == Seq::new(LANE_COUNT as nat, |l: int| None::<usize>),
    {
        let mut lanes: Vec<Option<usize>> = Vec::new();
        let mut l: usize = 0;
        while l < LANE_COUNT
            invariant
                l <= LANE_COUNT,
                lanes@ == Seq::new(l as nat, |k: int| None::<usize>),
                occupied_count(lanes@) == 0,
            decreases LANE_COUNT - l,
        {
            proof {
                lemma_count_push(lanes@, |o: Option<usize>| o is Some, None::<usize>);
            }
            lanes.push(None);
            l = l + 1;
            assert(lanes@ =~= Seq::new(l as nat, |k: int| None::<usize>));
        }
        let s = GameState {
            language: Language::English,
            tuning,
            score: 0,
            wpm: tuning.wpm_start,
            countdown: 20,
            word_pool: Vec::new(),
            words: Vec::new(),
            lanes,
        };
        assert(live_count(s.words@) == 0);
        s
    }

    /// The free lanes, in increasing order.
    pub fn free_lanes(&self) -> (r: Vec<usize>)
        requires
            self.wf(),
        ensures
            forall|k: int| 0 <= k < r@.len() ==> #[trigger] r@[k] < LANE_COUNT && self.lanes@[r@[k] as int] is None,
            forall|l: int| 0 <= l < LANE_COUNT && self.lanes@[l] is None ==> r@.contains(l as usize),
    {
        let mut r: Vec<usize> = Vec::new();
        let mut l: usize = 0;
        while l < LANE_COUNT
            invariant
                l <= LANE_COUNT,
                self.lanes@.len() == LANE_COUNT,
                forall|k: int| 0 <= k < r@.len() ==> #[trigger] r@[k] < l && self.lanes@[r@[k] as int] is None,
                forall|m: int| 0 <= m < l && self.lanes@[m] is None ==> r@.contains(m as usize),
            decreases LANE_COUNT - l,
        {
            let ghost before = r@;
            if self.lanes[l].is_none() {
                r.push(l);
                assert(r@[r@.len() - 1] == l);
                assert forall|m: int| 0 <= m < l && self.lanes@[m] is None implies r@.contains(
                    m as usize,
                ) by {
                    let k = choose|k: int| 0 <= k < before.len() && before[k] == m as usize;
                    assert(r@[k] == m as usize);
                }
            }
            l = l + 1;
        }
        r
    }

    /// Spawns pool entry `pick`, lowercased, on the free `lane` at `speed`,
    /// removing the entry from the pool.
    pub fn place_word(&mut self, lane: usize, pick: usize, speed: u64)
        requires
            old(self).wf(),
            lane < LANE_COUNT,
            old(self).lanes@[lane as int] is None,
            pick < old(self).word_pool@.len(),
            speed > 0,
        ensures
            final(self).wf(),
            GameState::placed(*old(self), *final(self), lane, pick as int, speed),
            final(self).score == old(self).score,
            old(self).texts_distinct() ==> final(self).texts_distinct(),
    {
        let ghost pre = *self;
        let entry = self.word_pool.remove(pick);
        let text = lowercase(entry.as_str());
        let idx = self.words.len();
        proof {
            lemma_count_push(self.words@, |w: Word| !w.found, Word { text, found: false, x: 0, lane, speed });
            lemma_count_update(self.lanes@, |o: Option<usize>| o is Some, lane as int, Some(idx));
        }
        self.words.push(Word::new(text, lane, speed));
        self.lanes[lane] = Some(idx);
        proof {
            assert(self.words@.drop_last() =~= pre.words@);
            assert forall|l: int| 0 <= l < LANE_COUNT && (#[trigger] self.lanes@[l]) is Some implies {
                let i = self.lanes@[l]->0 as int;
                &&& i < self.words@.len()
                &&& !self.words@[i].found
                &&& self.words@[i].lane == l
            } by {
                if l != lane {
                    assert(pre.lanes@[l] == self.lanes@[l]);
                }
            }
            if pre.texts_distinct() {
                pre.word_pool@.remove_ensures(pick as int);
                let ws = self.words@;
                let ps = self.word_pool@;
                assert forall|i: int, j: int| 0 <= i < ps.len() && 0 <= j < ps.len() && i != j
                    implies lower_of(#[trigger] ps[i]@) != lower_of(#[trigger] ps[j]@) by {
                    let i0 = if i < pick { i } else { i + 1 };
                    let j0 = if j < pick { j } else { j + 1 };
                    assert(ps[i] == pre.word_pool@[i0]);
                    assert(ps[j] == pre.word_pool@[j0]);
                }
                assert forall|i: int, j: int| 0 <= i < ws.len() && 0 <= j < ps.len()
                    implies #[trigger] ws[i].text@ != lower_of(#[trigger] ps[j]@) by {
                    let j0 = if j < pick { j } else { j + 1 };
                    assert(ps[j] == pre.word_pool@[j0]);
                    if i < pre.words@.len() {
                        assert(ws[i] == pre.words@[i]);
                    }
                }
                assert forall|i: int, j: int| 0 <= i < ws.len() && 0 <= j < ws.len() && i != j
                    implies #[trigger] ws[i].text@ != #[trigger] ws[j].text@ by {
                    if i < pre.words@.len() {
                        assert(ws[i] == pre.words@[i]);
                    }
                    if j < pre.words@.len() {
                        assert(ws[j] == pre.words@[j]);
                    }
                }
            }
        }
    }

    /// Spawns a word if one is due to be spawned: a random free lane, a
    /// random pool entry, and a speed from the current words per minute with
    /// a random jitter. Nothing happens when every lane is occupied; an empty
    /// pool is an error.
    pub fn spawn_new_word(&mut self) -> (r: Result<(), GameError>)
        requires
            old(self).wf(),
        ensures
            final(self).wf(),
            r is Err <==> old(self).word_pool@.len() == 0,
            r is Err ==> r == Err::<(), GameError>(GameError::NoWordsLeft) && *final(self) == *old(self),
            r is Ok ==> GameState::spawned(*old(self), *final(self)),
            final(self).score == old(self).score,
            old(self).texts_distinct() ==> final(self).texts_distinct(),
    {
        if self.word_pool.len() == 0 {
            return Err(GameError::NoWordsLeft);
        }
        let free = self.free_lanes();
        if free.len() == 0 {
            assert forall|l: int| 0 <= l < LANE_COUNT implies self.lanes@[l] is Some by {
                if self.lanes@[l] is None {
                    assert(free@.contains(l as usize));
                }
            }
            return Ok(());
        }
        let lane = free[random_below(free.len())];
        let pick = random_below(self.word_pool.len());
        let jitter = random_below(2 * MAX_JITTER as usize + 1) as i64 - MAX_JITTER;
        let ghost pre = *self;
        let speed = self.tuning.spawn_speed(self.wpm, jitter);
        self.place_word(lane, pick, speed);
        assert(GameState::placed(
            pre,
            *self,
            lane,
            pick as int,
            speed_spec(pre.tuning, pre.wpm as nat, jitter as int) as u64,
        ));
        Ok(())
    }

    /// Resolves a folded candidate against the folded texts of the words
    /// (`keys[j]` for word `j`): every live word whose key equals `wanted`
    /// is found, its lane freed and its reward added to the score. Returns
    /// whether any word matched.
    pub fn resolve_folded(&mut self, wanted: &str, keys: &Vec<String>) -> (r: bool)
        requires
            old(self).wf(),
            keys@.len() == old(self).words@.len(),
        ensures
            final(self).wf(),
            r == exists|j: int|
                0 <= j < old(self).words@.len() && matches(#[trigger] old(self).words@[j], keys@[j]@, wanted@),
            GameState::resolved_with(*old(self), *final(self), key_views(keys@), wanted@),
            final(self).score >= old(self).score,
            forall|j: int| 0 <= j < final(self).words@.len() && !(#[trigger] final(self).words@[j]).found
                ==> keys@[j]@ != wanted@,
            old(self).texts_distinct() ==> final(self).texts_distinct(),
    {
        let ghost pre = *self;
        let ghost kv = key_views(keys@);
        let mut found = false;
        let mut i: usize = 0;
        while i < self.words.len()
            invariant
                self.wf(),
                i <= self.words@.len() == pre.words@.len() == keys@.len(),
                pre.wf(),
                kv == key_views(keys@),
                forall|j: int| 0 <= j < i ==> #[trigger] self.words@[j] == resolved(pre.words@[j], kv[j], wanted@),
                forall|j: int| i <= j < self.words@.len() ==> #[trigger] self.words@[j] == pre.words@[j],
                forall|l: int| 0 <= l < LANE_COUNT ==> #[trigger] self.lanes@[l] == (
                    if pre.lanes@[l] is Some && pre.lanes@[l]->0 < i {
                        released(pre.lanes@[l], pre.words@, kv, wanted@)
                    } else {
                        pre.lanes@[l]
                    }),
                self.score == score_after(pre.tuning, pre.score, pre.words@, kv, wanted@, i as nat),
                found == exists|j: int| 0 <= j < i && matches(#[trigger] pre.words@[j], kv[j], wanted@),
                *self == (GameState { words: self.words, lanes: self.lanes, score: self.score, ..pre }),
            decreases self.words@.len() - i,
        {
            let ghost mid = *self;
            if !self.words[i].found && keys[i] == wanted.to_owned() {
                let points = self.tuning.award(self.words[i].x, self.words[i].speed);
                if points > (u64::MAX - self.score) as u128 {
                    self.score = u64::MAX;
                } else {
                    self.score = self.score + points as u64;
                }
                let lane = self.words[i].lane;
                let ghost done = Word { found: true, ..self.words@[i as int] };
                proof {
                    lemma_count_update(self.words@, |w: Word| !w.found, i as int, done);
                    lemma_count_update(self.lanes@, |o: Option<usize>| o is Some, lane as int, None);
                }
                self.words[i].found = true;
                self.lanes[lane] = None;
                found = true;
                proof {
                    assert(self.words@ == mid.words@.update(i as int, done));
                    assert forall|j: int| 0 <= j < self.words@.len() && !(#[trigger] self.words@[j]).found implies {
                        &&& self.words@[j].lane < LANE_COUNT
                        &&& self.lanes@[self.words@[j].lane as int] == Some(j as usize)
                    } by {
                        assert(mid.words@[j] == self.words@[j]);
                    }
                    assert forall|l: int| 0 <= l < LANE_COUNT && (#[trigger] self.lanes@[l]) is Some implies {
                        let k = self.lanes@[l]->0 as int;
                        &&& k < self.words@.len()
                        &&& !self.words@[k].found
                        &&& self.words@[k].lane == l
                    } by {
                        assert(mid.lanes@[l] == self.lanes@[l]);
                    }
                    assert(matches(pre.words@[i as int], kv[i as int], wanted@));
                }
            }
            i = i + 1;
            proof {
                assert forall|l: int| 0 <= l < LANE_COUNT implies #[trigger] self.lanes@[l] == (
                    if pre.lanes@[l] is Some && pre.lanes@[l]->0 < i {
                        released(pre.lanes@[l], pre.words@, kv, wanted@)
                    } else {
                        pre.lanes@[l]
                    }) by {
                    if pre.lanes@[l] is Some && pre.lanes@[l]->0 == i - 1 {
                        assert(pre.words@[i - 1].lane == l);
                    }
                }
            }
        }
        proof {
            lemma_score_after_grows(pre.tuning, pre.score, pre.words@, kv, wanted@, pre.words@.len());
            assert forall|l: int| 0 <= l < LANE_COUNT implies #[trigger] self.lanes@[l] == released(
                pre.lanes@[l],
                pre.words@,
                kv,
                wanted@,
            ) by {
                if pre.lanes@[l] is Some {
                    assert(pre.lanes@[l]->0 < pre.words@.len());
                }
            }
            assert forall|j: int| 0 <= j < self.words@.len() && !(#[trigger] self.words@[j]).found
                implies keys@[j]@ != wanted@ by {
                assert(self.words@[j] == resolved(pre.words@[j], kv[j], wanted@));
            }
            if pre.texts_distinct() {
                assert forall|a: int, b: int| 0 <= a < self.words@.len() && 0 <= b < self.words@.len() && a != b
                    implies #[trigger] self.words@[a].text@ != #[trigger] self.words@[b].text@ by {
                    assert(self.words@[a] == resolved(pre.words@[a], kv[a], wanted@));
                    assert(self.words@[b] == resolved(pre.words@[b], kv[b], wanted@));
                }
                assert forall|a: int, b: int| 0 <= a < self.words@.len() && 0 <= b < self.word_pool@.len()
                    implies #[trigger] self.words@[a].text@ != lower_of(#[trigger] self.word_pool@[b]@) by {
                    assert(self.words@[a] == resolved(pre.words@[a], kv[a], wanted@));
                }
            }
        }
        found
    }

    /// Resolves typed text: every live word whose text equals `text` up to
    /// letter case is found, its lane freed and its reward added to the
    /// score. Returns whether any word matched.
    pub fn check_if_typed(&mut self, text: &str) -> (r: bool)
        requires
            old(self).wf(),
        ensures
            final(self).wf(),
            r == exists|j: int|
                0 <= j < old(self).words@.len() && matches(
                    #[trigger] old(self).words@[j],
                    upper_of(old(self).words@[j].text@),
                    upper_of(text@),
                ),
            GameState::typed(*old(self), *final(self), text@),
            final(self).score >= old(self).score,
            forall|j: int| 0 <= j < final(self).words@.len() && !(#[trigger] final(self).words@[j]).found
                ==> upper_of(final(self).words@[j].text@) != upper_of(text@),
            old(self).texts_distinct() ==> final(self).texts_distinct(),
    {
        let wanted = uppercase(text);
        let mut keys: Vec<String> = Vec::new();
        let mut j: usize = 0;
        while j < self.words.len()
            invariant
                j <= self.words@.len(),
                keys@.len() == j,
                forall|k: int| 0 <= k < j ==> (#[trigger] keys@[k])@ == upper_of(self.words@[k].text@),
            decreases self.words@.len() - j,
        {
            keys.push(uppercase(self.words[j].text.as_str()));
            j = j + 1;
        }
        let ghost pre = *self;
        assert(key_views(keys@) =~= folded_texts(self.words@));
        let r = self.resolve_folded(wanted.as_str(), &keys);
        proof {
            assert forall|k: int| 0 <= k < self.words@.len() && !(#[trigger] self.words@[k]).found
                implies upper_of(self.words@[k].text@) != upper_of(text@) by {
                assert(self.words@[k] == resolved(pre.words@[k], key_views(keys@)[k], wanted@));
            }
            if r {
                let k = choose|k: int| 0 <= k < pre.words@.len() && matches(#[trigger] pre.words@[k], keys@[k]@, wanted@);
                assert(matches(pre.words@[k], upper_of(pre.words@[k].text@), upper_of(text@)));
            }
        }
        r
    }

    /// Moves every live word forward by its speed. Stops at the first word
    /// that reaches the end of its lane and reports it.
    pub fn advance(&mut self) -> (r: TickResult)
        requires
            old(self).wf(),
        ensures
            final(self).wf(),
            GameState::stepped(*old(self), *final(self), r),
            final(self).score == old(self).score,
            old(self).texts_distinct() ==> final(self).texts_distinct(),
    {
        let ghost pre = *self;
        let mut i: usize = 0;
        let mut result = TickResult::Continue;
        while i < self.words.len()
            invariant_except_break
                result == TickResult::Continue,
                self.wf(),
                i <= self.words@.len() == pre.words@.len(),
                *self == (GameState { words: self.words, ..pre }),
                forall|j: int|
                    0 <= j < i ==> {
                        &&& #[trigger] self.words@[j] == pre.words@[j].advanced()
                        &&& !self.words@[j].found ==> !self.words@[j].has_escaped()
                    },
                forall|j: int| i <= j < self.words@.len() ==> #[trigger] self.words@[j] == pre.words@[j],
                pre.texts_distinct() ==> self.texts_distinct(),
            ensures
                self.wf(),
                GameState::stepped(pre, *self, result),
                pre.texts_distinct() ==> self.texts_distinct(),
            decreases self.words@.len() - i,
        {
            if !self.words[i].found {
                let ghost mid = *self;
                let ghost moved = pre.words@[i as int].advanced();
                proof {
                    lemma_count_update(self.words@, |w: Word| !w.found, i as int, moved);
                }
                self.words[i].increment();
                proof {
                    assert(self.words@ == mid.words@.update(i as int, moved));
                    assert forall|j: int| 0 <= j < self.words@.len() && !(#[trigger] self.words@[j]).found implies {
                        &&& self.words@[j].lane < LANE_COUNT
                        &&& self.lanes@[self.words@[j].lane as int] == Some(j as usize)
                    } by {
                        assert(mid.words@[j].lane == self.words@[j].lane);
                    }
                    if pre.texts_distinct() {
                        assert forall|a: int, b: int| 0 <= a < self.words@.len() && 0 <= b < self.words@.len() && a != b
                            implies #[trigger] self.words@[a].text@ != #[trigger] self.words@[b].text@ by {
                            assert(self.words@[a].text == mid.words@[a].text);
                            assert(self.words@[b].text == mid.words@[b].text);
                        }
                        assert forall|a: int, b: int| 0 <= a < self.words@.len() && 0 <= b < self.word_pool@.len()
                            implies #[trigger] self.words@[a].text@ != lower_of(#[trigger] self.word_pool@[b]@) by {
                            assert(self.words@[a].text == mid.words@[a].text);
                        }
                    }
                }
                if self.words[i].escaped() {
                    result = TickResult::Escaped(i);
                    break;
                }
            }
            i = i + 1;
        }
        result
    }

    /// Whether the session is won: the pool is empty and no word is live.
    pub fn is_cleared(&self) -> (r: bool)
        requires
            self.wf(),
        ensures
            r == self.cleared(),
    {
        if self.word_pool.len() != 0 {
            return false;
        }
        let mut l: usize = 0;
        while l < LANE_COUNT
            invariant
                l <= LANE_COUNT,
                self.wf(),
                forall|m: int| 0 <= m < l ==> #[trigger] self.lanes@[m] is None,
            decreases LANE_COUNT - l,
        {
            if self.lanes[l].is_some() {
                proof {
                    lemma_count_zero(self.lanes@, |o: Option<usize>| o is Some);
                    lemma_count_zero(self.words@, |w: Word| !w.found);
                    let i = self.lanes@[l as int]->0 as int;
                    assert(!self.words@[i].found);
                }
                return false;
            }
            l = l + 1;
        }
        proof {
            lemma_count_zero(self.lanes@, |o: Option<usize>| o is Some);
            lemma_count_zero(self.words@, |w: Word| !w.found);
        }
        true
    }

    /// One step of the simulation. A won session reports it and stays as it
    /// is. Otherwise, when the spawn countdown has run out a word is spawned
    /// and the countdown restarts from the words per minute at the current
    /// score; else the countdown goes down by one. Then every live word moves.
    pub fn tick(&mut self) -> (r: Result<TickResult, GameError>)
        requires
            old(self).wf(),
        ensures
            final(self).wf(),
            final(self).score == old(self).score,
            old(self).texts_distinct() ==> final(self).texts_distinct(),
            old(self).cleared() ==> r == Ok::<TickResult, GameError>(TickResult::Won) && *final(self) == *old(self),
            r is Err <==> !old(self).cleared() && old(self).countdown == 0 && old(self).word_pool@.len() == 0,
            r is Err ==> r == Err::<TickResult, GameError>(GameError::NoWordsLeft) && *final(self) == *old(self),
            !old(self).cleared() && old(self).countdown > 0 ==> r is Ok && GameState::stepped(
                GameState { countdown: (old(self).countdown - 1) as u64, ..*old(self) },
                *final(self),
                r->Ok_0,
            ),
            !old(self).cleared() && old(self).countdown == 0 && r is Ok ==> exists|s: GameState|
                #![trigger GameState::spawned(*old(self), s)]
                {
                    let wpm = wpm_spec(s.tuning, s.score as nat);
                    &&& GameState::spawned(*old(self), s)
                    &&& GameState::stepped(
                        GameState { wpm: wpm as u64, countdown: interval_spec(s.tuning, wpm) as u64, ..s },
                        *final(self),
                        r->Ok_0,
                    )
                },
    {
        if self.is_cleared() {
            return Ok(TickResult::Won);
        }
        if self.countdown == 0 {
            match self.spawn_new_word() {
                Err(e) => {
                    return Err(e);
                },
                Ok(()) => {},
            }
            let ghost s = *self;
            self.wpm = self.tuning.wpm_for_score(self.score);
            self.countdown = self.tuning.spawn_interval(self.wpm);
            let r = self.advance();
            assert(GameState::spawned(*old(self), s));
            Ok(r)
        } else {
            self.countdown = self.countdown - 1;
            Ok(self.advance())
        }
    }

    /// Resolves the input text, unless it is empty: empty text is never
    /// checked. Returns whether a word matched, and so whether the input
    /// should be cleared.
    pub fn submit_input(&mut self, text: &str) -> (r: bool)
        requires
            old(self).wf(),
        ensures
            final(self).wf(),
            r == (text@.len() > 0 && exists|j: int|
                0 <= j < old(self).words@.len() && matches(
                    #[trigger] old(self).words@[j],
                    upper_of(old(self).words@[j].text@),
                    upper_of(text@),
                )),
            text@.len() == 0 ==> *final(self) == *old(self),
            text@.len() > 0 ==> GameState::typed(*old(self), *final(self), text@),
            final(self).score >= old(self).score,
            old(self).texts_distinct() ==> final(self).texts_distinct(),
    {
        if text.is_empty() {
            false
        } else {
            self.check_if_typed(text)
        }
    }

    /// Fills the pool with the non-empty lines of a word list.
    pub fn load_words(&mut self, lines: Vec<String>)
        requires
            old(self).wf(),
        ensures
            final(self).wf(),
            final(self).word_pool@ == word_entries(lines@),
            *final(self) == (GameState { word_pool: final(self).word_pool, ..*old(self) }),
            old(self).words@.len() == 0 && (forall|i: int, j: int|
                0 <= i < word_entries(lines@).len() && 0 <= j < word_entries(lines@).len() && i != j
                    ==> lower_of(#[trigger] word_entries(lines@)[i]@) != lower_of(
                    #[trigger] word_entries(lines@)[j]@,
                )) ==> final(self).texts_distinct(),
    {
        let mut pool: Vec<String> = Vec::new();
        let mut i: usize = 0;
        while i < lines.len()
            invariant
                i <= lines@.len(),
                pool@ == word_entries(lines@.subrange(0, i as int)),
            decreases lines@.len() - i,
        {
            assert(lines@.subrange(0, i + 1).drop_last() =~= lines@.subrange(0, i as int));
            if !lines[i].as_str().is_empty() {
                pool.push(lines[i].clone());
            }
            i = i + 1;
        }
        assert(lines@.subrange(0, i as int) =~= lines@);
        self.word_pool = pool;
    }

    /// How each lane is drawn on rows `width` columns wide: nothing for a
    /// free lane, and for an occupied one its word's text, indent and colour.
    pub fn lane_rows(&self, width: u16) -> (r: Vec<Option<LaneRow>>)
        requires
            self.wf(),
        ensures
            r@.len() == LANE_COUNT,
            forall|l: int| 0 <= l < LANE_COUNT ==> (#[trigger] r@[l] is Some <==> self.lanes@[l] is Some),
            forall|l: int| 0 <= l < LANE_COUNT && #[trigger] r@[l] is Some ==> {
                let w = self.words@[self.lanes@[l]->0 as int];
                let row = r@[l]->0;
                &&& row.text@ == w.text@
                &&& row.indent == indent_spec(w.x as nat, w.text@.len(), width as nat)
                &&& row.red == red_spec(w.x as nat)
                &&& row.green == green_spec(w.x as nat)
            },
    {
        let mut rows: Vec<Option<LaneRow>> = Vec::new();
        let mut l: usize = 0;
        while l < LANE_COUNT
            invariant
                self.wf(),
                l <= LANE_COUNT,
                rows@.len() == l,
                forall|k: int| 0 <= k < l ==> (#[trigger] rows@[k] is Some <==> self.lanes@[k] is Some),
                forall|k: int| 0 <= k < l && #[trigger] rows@[k] is Some ==> {
                    let w = self.words@[self.lanes@[k]->0 as int];
                    let row = rows@[k]->0;
                    &&& row.text@ == w.text@
                    &&& row.indent == indent_spec(w.x as nat, w.text@.len(), width as nat)
                    &&& row.red == red_spec(w.x as nat)
                    &&& row.green == green_spec(w.x as nat)
                },
            decreases LANE_COUNT - l,
        {
            match self.lanes[l] {
                None => {
                    rows.push(None);
                },
                Some(i) => {
                    let w = &self.words[i];
                    let len = w.text.as_str().unicode_len() as u64;
                    let room: u64 = if width as u64 >= 3 && len <= width as u64 - 3 {
                        width as u64 - 3 - len
                    } else {
                        0
                    };
                    let shown: u64 = if w.x < PROGRESS_ONE {
                        w.x
                    } else {
                        PROGRESS_ONE
                    };
                    assert(shown * room <= 100_000 * 65_536) by (nonlinear_arith)
                        requires
                            shown <= 100_000,
                            room <= 65_536,
                    ;
                    let indent = (shown * room / PROGRESS_ONE) as usize;
                    assert(shown * 255 / 100_000 <= 255) by (nonlinear_arith)
                        requires
                            shown <= 100_000,
                    ;
                    assert((100_000 - shown) * 255 / 100_000 <= 255) by (nonlinear_arith)
                        requires
                            shown <= 100_000,
                    ;
                    let red = (shown * 255 / PROGRESS_ONE) as u8;
                    let green = ((PROGRESS_ONE - shown) * 255 / PROGRESS_ONE) as u8;
                    rows.push(Some(LaneRow { indent, text: w.text.clone(), red, green }));
                },
            }
            l = l + 1;
        }
        rows
    }
}

/// The lane table always agrees with the words: as many lanes are occupied
/// as words are live.
pub proof fn lemma_occupied_lanes_match_live_words(s: GameState)
    requires
        s.wf(),
    ensures
        occupied_count(s.lanes@) == live_count(s.words@),
{
}

/// Every word has a positive speed.
pub proof fn lemma_speeds_positive(s: GameState)
    requires
        s.wf(),
    ensures
        forall|i: int| 0 <= i < s.words@.len() ==> #[trigger] s.words@[i].speed > 0,
{
    assert forall|i: int| 0 <= i < s.words@.len() implies #[trigger] s.words@[i].speed > 0 by {
        assert(s.words@[i].wf());
    }
}

/// In a session whose pool started with entries that stay distinct once
/// lowercased, no two spawned words share a text.
pub proof fn lemma_spawned_texts_unique(s: GameState)
    requires
        s.texts_distinct(),
    ensures
        forall|i: int, j: int|
            0 <= i < s.words@.len() && 0 <= j < s.words@.len() && i != j
                ==> #[trigger] s.words@[i].text@ != #[trigger] s.words@[j].text@,
{
}

/// A word is matched at most once: resolving the same text a second time
/// matches nothing and changes nothing.
pub proof fn lemma_resolve_twice(pre: GameState, mid: GameState, post: GameState, candidate: Seq<char>)
    requires
        pre.wf(),
        GameState::typed(pre, mid, candidate),
        GameState::typed(mid, post, candidate),
    ensures
        forall|j: int|
            0 <= j < mid.words@.len() ==> !matches(
                #[trigger] mid.words@[j],
                upper_of(mid.words@[j].text@),
                upper_of(candidate),
            ),
        post.words@ == mid.words@,
        post.lanes@ == mid.lanes@,
        post.score == mid.score,
{
    let keys = folded_texts(pre.words@);
    let wanted = upper_of(candidate);
    assert(folded_texts(mid.words@) =~= keys) by {
        assert forall|j: int| 0 <= j < mid.words@.len() implies mid.words@[j].text == pre.words@[j].text by {
            assert(mid.words@[j] == resolved(pre.words@[j], keys[j], wanted));
        }
    }
    assert forall|j: int| 0 <= j < mid.words@.len() implies !matches(#[trigger] mid.words@[j], keys[j], wanted) by {
        assert(mid.words@[j] == resolved(pre.words@[j], keys[j], wanted));
    }
    assert(post.words@ =~= mid.words@) by {
        assert forall|j: int| 0 <= j < mid.words@.len() implies post.words@[j] == mid.words@[j] by {
            assert(post.words@[j] == resolved(mid.words@[j], keys[j], wanted));
        }
    }
    assert(post.lanes@ =~= mid.lanes@) by {
        assert forall|l: int| 0 <= l < LANE_COUNT implies post.lanes@[l] == mid.lanes@[l] by {
            assert(post.lanes@[l] == released(mid.lanes@[l], mid.words@, keys, wanted));
            if mid.lanes@[l] is Some && (mid.lanes@[l]->0 as int) < mid.words@.len() {
                let k = mid.lanes@[l]->0 as int;
                assert(mid.words@[k] == resolved(pre.words@[k], keys[k], wanted));
            }
        }
    }
    lemma_score_after_unmatched(mid.tuning, mid.score, mid.words@, keys, wanted, mid.words@.len());
}

proof fn lemma_score_after_unmatched(
    t: Tuning,
    score: u64,
    ws: Seq<Word>,
    keys: Seq<Seq<char>>,
    wanted: Seq<char>,
    n: nat,
)
    requires
        n <= ws.len(),
        forall|j: int| 0 <= j < n ==> !matches(#[trigger] ws[j], keys[j], wanted),
    ensures
        score_after(t, score, ws, keys, wanted, n) == score,
    decreases n,
{
    if n > 0 {
        assert(!matches(ws[n - 1], keys[n - 1], wanted));
        lemma_score_after_unmatched(t, score, ws, keys, wanted, (n - 1) as nat);
    }
}

} // verus!
