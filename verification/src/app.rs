//! The application state machine: a round, the stats, the popup and the
//! exit flag, driven one command at a time.
//!
//! The event loop outside the library polls the terminal for a key,
//! turns it into a command with [`crate::input::map_key`], applies it
//! here, and redraws from the public state.

use vstd::prelude::*;
use crate::round::Round;
use crate::round::GuessOutcome;
use crate::round::wf_word;
use crate::round::is_lower_letter;
use crate::round::START_LIVES;
use crate::round::BLANK;
use crate::stats::StatsRecord;
use crate::input::Command;

verus! {

/// Which modal overlay is shown over the game view.
#[derive(Clone, Copy, Debug, PartialEq, Eq, Structural)]
pub enum PopupState {
    Closed,
    /// The end-of-round result (win or loss text).
    RoundEnd,
    /// The stats summary.
    StatsView,
}

/// The whole application state.
pub struct App {
    /// Set by the quit command; the loop outside stops on it.
    pub exit: bool,
    /// The round being played.
    pub round: Round,
    /// The persisted win/loss record.
    pub stats: StatsRecord,
    /// The overlay currently shown.
    pub popup: PopupState,
}

/// Relies on `random_word::get(random_word::Lang::En)` for one random
/// English word; the crate's embedded English list is non-empty, so the
/// call returns.  Nothing is assumed of the word itself: the caller
/// checks the bytes.
#[verifier::external_body]
fn random_word_bytes() -> (r: Vec<u8>) {
    random_word::get(random_word::Lang::En).as_bytes().to_vec()
}

/// Whether the bytes form a well-formed secret word: non-empty, all
/// lowercase ASCII letters.
pub fn check_word(w: &Vec<u8>) -> (r: bool)
    ensures
        r == wf_word(w@),
{
    let n = w.len();
    if n == 0 {
        return false;
    }
    let mut i: usize = 0;
    while i < n
        invariant
            i <= n,
            n == w@.len(),
            forall|k: int| 0 <= k < i ==> is_lower_letter(#[trigger] w@[k]),
        decreases n - i,
    {
        if w[i] < 97 || w[i] > 122 {
            proof {
                assert(!is_lower_letter(w@[i as int]));
            }
            return false;
        }
        i += 1;
    }
    true
}

/// The fixed word played when the word source hands back anything but
/// lowercase ASCII letters.
fn fallback_word() -> (r: Vec<u8>)
    ensures
        wf_word(r@),
{
    let mut v: Vec<u8> = Vec::new();
    v.push(104);
    v.push(97);
    v.push(110);
    v.push(103);
    v.push(109);
    v.push(97);
    v.push(110);
    v
}

/// One checked word from the word source.
pub fn fresh_word() -> (r: Vec<u8>)
    ensures
        wf_word(r@),
{
    let w = random_word_bytes();
    if check_word(&w) {
        w
    } else {
        fallback_word()
    }
}

impl App {
    /// Both parts of the state satisfy their invariants.
    pub open spec fn wf(self) -> bool {
        self.round.wf() && self.stats.wf()
    }

    /// Headroom to count one more finished round.
    pub open spec fn can_record(self) -> bool {
        self.stats.won < u32::MAX && self.stats.lost < u32::MAX
    }

    /// The popup after a toggle of the stats view.
    pub open spec fn toggled_popup(self) -> PopupState {
        if self.popup == PopupState::StatsView {
            PopupState::Closed
        } else {
            PopupState::StatsView
        }
    }

    /// The state at program start: a round on the given word, the loaded
    /// stats, no popup, not exiting.
    pub fn new(word: Vec<u8>, stats: StatsRecord) -> (r: App)
        requires
            wf_word(word@),
            stats.wf(),
        ensures
            r.wf(),
            !r.exit,
            r.round.playing(),
            r.round.word@ == word@,
            r.round.lives == START_LIVES,
            r.round.guessed@.len() == 0,
            r.stats == stats,
            r.popup == PopupState::Closed,
    {
        App { exit: false, round: Round::start(word), stats, popup: PopupState::Closed }
    }

    /// Start a new round on a word from the word source: all blanks
    /// again, full lives, no guessed letters, popups closed.  The stats
    /// and the exit flag stay.
    pub fn new_game(&mut self)
        requires
            old(self).wf(),
        ensures
            final(self).wf(),
            final(self).round.playing(),
            final(self).round.lives == START_LIVES,
            final(self).round.guessed@.len() == 0,
            !final(self).round.won,
            final(self).round.revealed@.len() == final(self).round.word@.len(),
            forall|i: int| 0 <= i < final(self).round.revealed@.len() ==>
                #[trigger] final(self).round.revealed@[i] == BLANK,
            final(self).popup == PopupState::Closed,
            final(self).stats == old(self).stats,
            final(self).exit == old(self).exit,
    {
        let w = fresh_word();
        self.round = Round::start(w);
        self.popup = PopupState::Closed;
    }

    /// Apply one command.
    ///
    /// Quit sets the exit flag; a new round resets the round and closes
    /// popups; the stats toggle flips the stats view; a guessed letter is
    /// applied to a round in play (and ignored in a finished one), and a
    /// round end counts the result and opens the result popup.
    pub fn apply_command(&mut self, cmd: Command)
        requires
            old(self).wf(),
            old(self).can_record(),
            forall|b: u8| cmd == Command::Guess(b) ==> is_lower_letter(b),
        ensures
            final(self).wf(),
            (match cmd {
                Command::Quit => *final(self) == (App { exit: true, ..*old(self) }),
                Command::NewRound => ({
                    &&& final(self).round.playing()
                    &&& final(self).round.lives == START_LIVES
                    &&& final(self).round.guessed@.len() == 0
                    &&& !final(self).round.won
                    &&& forall|i: int| 0 <= i < final(self).round.revealed@.len() ==>
                            #[trigger] final(self).round.revealed@[i] == BLANK
                    &&& final(self).popup == PopupState::Closed
                    &&& final(self).stats == old(self).stats
                    &&& final(self).exit == old(self).exit
                }),
                Command::ToggleStats => *final(self) == (App {
                    popup: old(self).toggled_popup(),
                    ..*old(self)
                }),
                Command::Guess(b) => ({
                    &&& final(self).exit == old(self).exit
                    &&& final(self).round.word@ == old(self).round.word@
                    &&& !old(self).round.playing() ==> *final(self) == *old(self)
                    &&& (old(self).round.playing() && old(self).round.word@.contains(b)) ==> ({
                        &&& final(self).round.lives == old(self).round.lives
                        &&& final(self).round.guessed@ == old(self).round.guessed@
                        &&& forall|i: int| 0 <= i < old(self).round.word@.len() ==>
                                #[trigger] final(self).round.revealed@[i] == (
                                if old(self).round.word@[i] == b {
                                    b
                                } else {
                                    old(self).round.revealed@[i]
                                })
                        &&& (final(self).round.won <==> final(self).round.revealed@ == final(
                            self).round.word@)
                        &&& final(self).round.won ==> ({
                            &&& final(self).stats.won == old(self).stats.won + 1
                            &&& final(self).stats.lost == old(self).stats.lost
                            &&& final(self).popup == PopupState::RoundEnd
                        })
                        &&& !final(self).round.won ==> ({
                            &&& final(self).stats == old(self).stats
                            &&& final(self).popup == old(self).popup
                        })
                    })
                    &&& (old(self).round.playing() && !old(self).round.word@.contains(b)) ==> ({
                        &&& final(self).round.revealed@ == old(self).round.revealed@
                        &&& final(self).round.lives == old(self).round.lives - 1
                        &&& final(self).round.guessed@ == old(self).round.guessed@.push(b)
                        &&& !final(self).round.won
                        &&& (final(self).round.lost() <==> old(self).round.lives == 1)
                        &&& final(self).round.lost() ==> ({
                            &&& final(self).stats.lost == old(self).stats.lost + 1
                            &&& final(self).stats.won == old(self).stats.won
                            &&& final(self).popup == PopupState::RoundEnd
                        })
                        &&& !final(self).round.lost() ==> ({
                            &&& final(self).stats == old(self).stats
                            &&& final(self).popup == old(self).popup
                        })
                    })
                }),
            }),
    {
        match cmd {
            Command::Quit => {
                self.exit = true;
            },
            Command::NewRound => {
                self.new_game();
            },
            Command::ToggleStats => {
                if self.popup == PopupState::StatsView {
                    self.popup = PopupState::Closed;
                } else {
                    self.popup = PopupState::StatsView;
                }
            },
            Command::Guess(b) => {
                if self.round.lives > 0 && !self.round.won {
                    let outcome = self.round.guess(b);
                    if outcome == GuessOutcome::Won {
                        self.stats.record_win();
                        self.popup = PopupState::RoundEnd;
                    } else if outcome == GuessOutcome::Lost {
                        self.stats.record_loss();
                        self.popup = PopupState::RoundEnd;
                    }
                }
            },
        }
    }
}

} // verus!
