//! A session: the two pre-generated streams, the turn being played, the
//! record of every answered turn and the confusion counts of each modality.

use crate::accuracy::AccuracyStats;
use crate::random::{random_below, random_chance};
use crate::sequence_generator::{
    compose_index_sequences, dual_streams_follow_plan, lemma_planned_count_fits, lemma_same_repeats,
    GenerationError, GRID_CELLS,
};
use crate::settings::{clamp_session_length, clamped_length, UserSettings};
use vstd::prelude::*;

verus! {

/// What one turn shows: a cell of the visual grid and a spoken letter.
#[derive(Debug, Clone, Copy, PartialEq, Eq, Structural)]
pub struct Stimulus {
    pub visual: u8,
    pub audio: char,
}

/// The player's claims for one turn.
#[derive(Debug, Clone, Copy, PartialEq, Eq, Structural)]
pub struct UserResponse {
    pub visual_match: bool,
    pub audio_match: bool,
}

impl Default for UserResponse {
    fn default() -> (r: Self)
        ensures
            !r.visual_match,
            !r.audio_match,
    {
        UserResponse { visual_match: false, audio_match: false }
    }
}

/// The record of one answered turn.
#[derive(Debug, Clone, Copy, PartialEq, Eq, Structural)]
pub struct GameEvent {
    pub turn_index: usize,
    pub stimulus: Stimulus,
    pub is_visual_match: bool,
    pub is_audio_match: bool,
    pub user_response: UserResponse,
}

/// Appending a record adds one entry at the end and keeps the others.
proof fn lemma_push_len(s: Seq<GameEvent>, e: GameEvent)
    ensures
        s.push(e).len() == s.len() + 1,
        s.push(e)[s.len() as int] == e,
        forall|i: int| 0 <= i < s.len() ==> s.push(e)[i] == s[i],
{
}

/// A session of the game.
#[derive(Debug, Clone)]
pub struct GameState {
    pub settings: UserSettings,
    pub is_running: bool,
    /// One record per answered turn, in order.
    pub event_history: Vec<GameEvent>,
    /// Number of turns answered so far.
    pub current_turn_index: usize,
    pub visual_stats: AccuracyStats,
    pub audio_stats: AccuracyStats,
    /// The spoken letter of each turn.
    pub audio_sequence: Vec<char>,
    /// The grid cell of each turn.
    pub visual_sequence: Vec<u8>,
}

/// The letter with alphabet position `k`, counted from 0 for `A`.
pub open spec fn letter_at(k: int) -> char {
    ((65 + k) as u8) as char
}

/// The letter with alphabet position `k`, counted from 0 for `A`.
fn letter(k: usize) -> (c: char)
    requires
        k < 26,
    ensures
        c == letter_at(k as int),
{
    (65u8 + k as u8) as char
}

impl GameState {
    /// The stimulus of turn `i`.
    pub open spec fn stimulus_at(&self, i: int) -> Stimulus {
        Stimulus { visual: self.visual_sequence@[i], audio: self.audio_sequence@[i] }
    }

    /// Ground truth of turn `i` for the visual modality: no match before the
    /// lag, else the cell of `n` turns earlier comes again.
    pub open spec fn visual_match_at(&self, i: int) -> bool {
        i >= self.settings.n_level && self.visual_sequence@[i] == self.visual_sequence@[i
            - self.settings.n_level]
    }

    /// Ground truth of turn `i` for the auditory modality.
    pub open spec fn audio_match_at(&self, i: int) -> bool {
        i >= self.settings.n_level && self.audio_sequence@[i] == self.audio_sequence@[i
            - self.settings.n_level]
    }

    /// The record of turn `i` answered with `response`.
    pub open spec fn event_at(&self, i: int, response: UserResponse) -> GameEvent {
        GameEvent {
            turn_index: i as usize,
            stimulus: self.stimulus_at(i),
            is_visual_match: self.visual_match_at(i),
            is_audio_match: self.audio_match_at(i),
            user_response: response,
        }
    }

    /// Every spoken letter lies in `A..=Z` and every shown cell in
    /// `1..=GRID_CELLS`.
    pub open spec fn fresh_streams(&self) -> bool {
        &&& forall|i: int|
            0 <= i < self.audio_sequence@.len() ==> 'A' <= #[trigger] self.audio_sequence@[i]
                <= 'Z'
        &&& forall|i: int|
            0 <= i < self.visual_sequence@.len() ==> 1 <= #[trigger] self.visual_sequence@[i]
                <= GRID_CELLS
    }

    /// The session's invariant: streams of the session's length, a turn
    /// index within it and below it while running, one faithful record per
    /// answered turn, and one count per answered turn in each modality.
    pub open spec fn wf(&self) -> bool {
        let length = self.settings.session_length;
        &&& self.settings.playable()
        &&& self.audio_sequence@.len() == length
        &&& self.visual_sequence@.len() == length
        &&& self.current_turn_index <= length
        &&& self.is_running ==> self.current_turn_index < length
        &&& self.event_history@.len() == self.current_turn_index
        &&& forall|i: int|
            0 <= i < self.current_turn_index ==> #[trigger] self.event_history@[i]
                == self.event_at(i, self.event_history@[i].user_response)
        &&& self.visual_stats.total() == self.current_turn_index
        &&& self.audio_stats.total() == self.current_turn_index
    }

    /// A fresh, not yet running session with newly generated streams: spoken
    /// letters `A` to `Z` and grid cells whose repetitions are planned as
    /// `generate_dual_nback_sequences` plans them. A session numbers the cells
    /// it shows from 1, as the player sees them: cell index `k` is shown as
    /// `k + 1`, so a shown cell lies in `1..=GRID_CELLS` and 0 never names one.
    pub fn new(settings: UserSettings) -> (r: Self)
        requires
            settings.playable(),
        ensures
            r.wf(),
            r.settings == settings,
            !r.is_running,
            r.current_turn_index == 0,
            r.event_history@.len() == 0,
            r.visual_stats == AccuracyStats::zeroed(),
            r.audio_stats == AccuracyStats::zeroed(),
            r.fresh_streams(),
            dual_streams_follow_plan(
                r.audio_sequence@,
                r.visual_sequence@,
                settings.n_level as int,
            ),
    {
        let n = settings.n_level;
        let length = settings.session_length;
        let (audio_indices, visual_indices) = compose_index_sequences(n, length, 26);
        let mut audio_sequence: Vec<char> = Vec::new();
        let mut visual_sequence: Vec<u8> = Vec::new();
        let mut i: usize = 0;
        while i < length
            invariant
                i <= length,
                audio_indices@.len() == length,
                visual_indices@.len() == length,
                forall|k: int| 0 <= k < length ==> audio_indices@[k] < 26,
                forall|k: int| 0 <= k < length ==> visual_indices@[k] < GRID_CELLS,
                audio_sequence@.len() == i,
                visual_sequence@.len() == i,
                forall|k: int|
                    0 <= k < i ==> audio_sequence@[k] == letter_at(audio_indices@[k] as int),
                forall|k: int| 0 <= k < i ==> visual_sequence@[k] == visual_indices@[k] + 1,
            decreases length - i,
        {
            audio_sequence.push(letter(audio_indices[i]));
            visual_sequence.push(visual_indices[i] as u8 + 1);
            i = i + 1;
        }
        proof {
            assert forall|a: int, b: int|
                0 <= a < length && 0 <= b < length implies (audio_sequence@[a]
                == audio_sequence@[b] <==> audio_indices@[a] == audio_indices@[b]) by {
                assert(letter_at(audio_indices@[a] as int) as u32 == 65 + audio_indices@[a]);
                assert(letter_at(audio_indices@[b] as int) as u32 == 65 + audio_indices@[b]);
            }
            lemma_same_repeats(
                audio_indices@,
                audio_sequence@,
                n as int,
            );
            lemma_same_repeats(
                visual_indices@,
                visual_sequence@,
                n as int,
            );
            lemma_planned_count_fits(n as int, length as int);
            assert forall|i: int| 0 <= i < audio_sequence@.len() implies 'A'
                <= #[trigger] audio_sequence@[i] <= 'Z' by {
                assert(audio_sequence@[i] == letter_at(audio_indices@[i] as int));
            }
        }
        GameState {
            settings,
            is_running: false,
            event_history: Vec::new(),
            current_turn_index: 0,
            visual_stats: AccuracyStats::default(),
            audio_stats: AccuracyStats::default(),
            audio_sequence,
            visual_sequence,
        }
    }
}

impl GameState {
    /// The stimulus of the turn to be answered next, while the session runs.
    pub fn peek_stimulus(&self) -> (r: Option<Stimulus>)
        requires
            self.wf(),
        ensures
            r == (if self.is_running && self.current_turn_index < self.settings.session_length {
                Some(self.stimulus_at(self.current_turn_index as int))
            } else {
                None
            }),
    {
        if !self.is_running || self.current_turn_index >= self.settings.session_length {
            return None;
        }
        Some(
            Stimulus {
                visual: self.visual_sequence[self.current_turn_index],
                audio: self.audio_sequence[self.current_turn_index],
            },
        )
    }

    /// Answers the current turn with `user_response`: scores each modality
    /// against the ground truth, records the turn and moves to the next one;
    /// the session stops after its last turn. Does nothing when the session
    /// is not running.
    pub fn process_turn(&mut self, user_response: UserResponse)
        requires
            old(self).wf(),
        ensures
            final(self).wf(),
            !old(self).is_running ==> *final(self) == *old(self),
            old(self).is_running ==> {
                let i = old(self).current_turn_index as int;
                &&& final(self).settings == old(self).settings
                &&& final(self).audio_sequence == old(self).audio_sequence
                &&& final(self).visual_sequence == old(self).visual_sequence
                &&& final(self).current_turn_index == i + 1
                &&& final(self).event_history@ == old(self).event_history@.push(
                    old(self).event_at(i, user_response),
                )
                &&& final(self).visual_stats == old(self).visual_stats.recorded(
                    user_response.visual_match,
                    old(self).visual_match_at(i),
                )
                &&& final(self).audio_stats == old(self).audio_stats.recorded(
                    user_response.audio_match,
                    old(self).audio_match_at(i),
                )
            },
            // Before the lag no turn can be a match: nothing is a hit or a miss.
            old(self).current_turn_index < old(self).settings.n_level ==> {
                &&& final(self).visual_stats.true_positives
                    == old(self).visual_stats.true_positives
                &&& final(self).visual_stats.false_negatives
                    == old(self).visual_stats.false_negatives
                &&& final(self).audio_stats.true_positives == old(self).audio_stats.true_positives
                &&& final(self).audio_stats.false_negatives
                    == old(self).audio_stats.false_negatives
            },
            // The session finishes exactly when the last turn is answered.
            old(self).is_running ==> (final(self).is_running <==> final(self).current_turn_index
                < final(self).settings.session_length),
    {
        if !self.is_running {
            return;
        }
        let turn_idx = self.current_turn_index;
        let n = self.settings.n_level;
        let stimulus = Stimulus {
            visual: self.visual_sequence[turn_idx],
            audio: self.audio_sequence[turn_idx],
        };
        let mut is_visual_match = false;
        let mut is_audio_match = false;
        if turn_idx >= n {
            let target = Stimulus {
                visual: self.visual_sequence[turn_idx - n],
                audio: self.audio_sequence[turn_idx - n],
            };
            is_visual_match = stimulus.visual == target.visual;
            is_audio_match = stimulus.audio == target.audio;
        }
        self.visual_stats.record(user_response.visual_match, is_visual_match);
        self.audio_stats.record(user_response.audio_match, is_audio_match);
        let event = GameEvent {
            turn_index: turn_idx,
            stimulus,
            is_visual_match,
            is_audio_match,
            user_response,
        };
        let ghost before = self.event_history@;
        self.event_history.push(event);
        proof {
            lemma_push_len(before, event);
        }
        self.current_turn_index = turn_idx + 1;
        if self.current_turn_index >= self.settings.session_length {
            self.is_running = false;
        }
        proof {
            assert forall|i: int| 0 <= i < self.current_turn_index implies #[trigger] self.event_history@[i]
                == self.event_at(i, self.event_history@[i].user_response) by {
                if i < turn_idx {
                    assert(self.event_history@[i] == before[i]);
                    assert(before[i] == old(self).event_at(i, before[i].user_response));
                } else {
                    assert(self.event_history@[i] == event);
                }
            }
        }
    }

    /// Ground truth of the turn to be answered next, visual then auditory;
    /// both false when the session does not run or the turn comes before the
    /// lag. The earlier stimulus is read from the record of its turn.
    pub fn upcoming_matches(&self) -> (r: (bool, bool))
        requires
            self.wf(),
        ensures
            r.0 == (self.is_running && self.visual_match_at(self.current_turn_index as int)),
            r.1 == (self.is_running && self.audio_match_at(self.current_turn_index as int)),
    {
        let n = self.settings.n_level;
        let idx = self.current_turn_index;
        let mut is_visual_match = false;
        let mut is_audio_match = false;
        if self.is_running && idx >= n {
            if let Some(current) = self.peek_stimulus() {
                if idx - n < self.event_history.len() {
                    let target = &self.event_history[idx - n];
                    is_visual_match = current.visual == target.stimulus.visual;
                    is_audio_match = current.audio == target.stimulus.audio;
                }
            }
        }
        proof {
            if self.is_running && idx >= n {
                let j = idx - n;
                assert(self.event_history@[j as int] == self.event_at(
                    j as int,
                    self.event_history@[j as int].user_response,
                ));
            }
        }
        (is_visual_match, is_audio_match)
    }
}

/// Every answer of a well-formed session has been counted once in each
/// modality: each modality's four counts add up to the number of answered
/// turns, which is also the number of records.
pub proof fn lemma_counts_match_turns(state: &GameState)
    requires
        state.wf(),
    ensures
        state.visual_stats.total() == state.current_turn_index,
        state.audio_stats.total() == state.current_turn_index,
        state.event_history@.len() == state.current_turn_index,
{
}

/// Starts a new running session from `settings`, its length brought into
/// `[MIN_SESSION_LENGTH, MAX_SESSION_LENGTH]` first. Fails when the lag is
/// zero or not below that length.
pub fn start_game(settings: UserSettings) -> (r: Result<GameState, GenerationError>)
    ensures
        ({
            let length = clamped_length(settings.session_length as int);
            &&& (settings.n_level == 0 || settings.n_level >= length) <==> r is Err
            &&& r is Err ==> r->Err_0 == GenerationError::InvalidLag
            &&& r is Ok ==> {
                let state = r->Ok_0;
                &&& state.wf()
                &&& state.is_running
                &&& state.current_turn_index == 0
                &&& state.settings.n_level == settings.n_level
                &&& state.settings.speed_ms == settings.speed_ms
                &&& state.settings.session_length == length
                &&& state.visual_stats == AccuracyStats::zeroed()
                &&& state.audio_stats == AccuracyStats::zeroed()
                &&& state.event_history@.len() == 0
                &&& state.fresh_streams()
                &&& dual_streams_follow_plan(
                    state.audio_sequence@,
                    state.visual_sequence@,
                    settings.n_level as int,
                )
            }
        }),
{
    let length = clamp_session_length(settings.session_length);
    if settings.n_level == 0 || settings.n_level >= length {
        return Err(GenerationError::InvalidLag);
    }
    let clamped = UserSettings {
        n_level: settings.n_level,
        speed_ms: settings.speed_ms,
        session_length: length,
    };
    let mut state = GameState::new(clamped);
    state.is_running = true;
    Ok(state)
}

/// Answers the current turn of `state`; true exactly when that answer
/// finished a running session, so that the session can be stored.
pub fn submit_user_input(state: &mut GameState, user_response: UserResponse) -> (finished: bool)
    requires
        old(state).wf(),
    ensures
        final(state).wf(),
        !old(state).is_running ==> *final(state) == *old(state),
        old(state).is_running ==> {
            let i = old(state).current_turn_index as int;
            &&& final(state).settings == old(state).settings
            &&& final(state).audio_sequence == old(state).audio_sequence
            &&& final(state).visual_sequence == old(state).visual_sequence
            &&& final(state).current_turn_index == i + 1
            &&& final(state).event_history@ == old(state).event_history@.push(
                old(state).event_at(i, user_response),
            )
            &&& final(state).visual_stats == old(state).visual_stats.recorded(
                user_response.visual_match,
                old(state).visual_match_at(i),
            )
            &&& final(state).audio_stats == old(state).audio_stats.recorded(
                user_response.audio_match,
                old(state).audio_match_at(i),
            )
            &&& (final(state).is_running <==> final(state).current_turn_index
                < final(state).settings.session_length)
        },
        finished == (old(state).is_running && !final(state).is_running),
{
    if !state.is_running {
        return false;
    }
    state.process_turn(user_response);
    !state.is_running
}

/// Plays a whole session of `settings` with random answers, each claim
/// made with chance 1/5, and returns the finished session.
pub fn simulate_session(settings: UserSettings) -> (r: GameState)
    requires
        settings.playable(),
    ensures
        r.wf(),
        !r.is_running,
        r.settings == settings,
        r.current_turn_index == settings.session_length,
        r.event_history@.len() == settings.session_length,
        r.visual_stats.total() == settings.session_length,
        r.audio_stats.total() == settings.session_length,
{
    let mut state = GameState::new(settings);
    state.is_running = true;
    while state.is_running
        invariant
            state.wf(),
            state.settings == settings,
            state.is_running || state.current_turn_index == settings.session_length,
        decreases settings.session_length - state.current_turn_index,
    {
        let user_response = UserResponse {
            visual_match: random_chance(1, 5),
            audio_match: random_chance(1, 5),
        };
        state.process_turn(user_response);
    }
    state
}

/// Random settings for a practice session: lag 2 to 4, 2000 to 3000 ms per
/// stimulus, 20 to 30 turns.
pub fn random_practice_settings() -> (r: UserSettings)
    ensures
        2 <= r.n_level <= 4,
        2000 <= r.speed_ms <= 3000,
        20 <= r.session_length <= 30,
        r.playable(),
{
    let n_level = 2 + random_below(3);
    let speed_ms = 2000 + random_below(1001) as u64;
    let session_length = 20 + random_below(11);
    UserSettings { n_level, speed_ms, session_length }
}

} // verus!
