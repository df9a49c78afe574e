//! One round of hangman: a secret word, the partially revealed buffer,
//! the remaining lives and the letters guessed wrongly so far.

use vstd::prelude::*;

verus! {

/// The byte standing for an unrevealed position, `b'_'`.
pub const BLANK: u8 = 95;

/// Lives at the start of a round; the round is lost when they reach 0.
pub const START_LIVES: u32 = 10;

/// A lowercase ASCII letter, `b'a'..=b'z'`.
pub open spec fn is_lower_letter(b: u8) -> bool {
    97 <= b && b <= 122
}

/// A secret word: non-empty, all lowercase ASCII letters.
pub open spec fn wf_word(w: Seq<u8>) -> bool {
    w.len() > 0 && (forall|i: int| 0 <= i < w.len() ==> is_lower_letter(#[trigger] w[i]))
}

/// What one guess did to the round.
#[derive(Clone, Copy, Debug, PartialEq, Eq, Structural)]
pub enum GuessOutcome {
    InProgress,
    Won,
    Lost,
}

/// One playthrough from word selection to win or loss.
pub struct Round {
    /// The secret word, lowercase ASCII letters.
    pub word: Vec<u8>,
    /// Same length as `word`; position `i` holds `word[i]` once revealed,
    /// `BLANK` before.
    pub revealed: Vec<u8>,
    /// Wrong guesses left before the round is lost.
    pub lives: u32,
    /// The letters guessed wrongly so far, in order, repeats kept.
    pub guessed: Vec<u8>,
    /// True exactly when the whole word is revealed.
    pub won: bool,
}

impl Round {
    /// Every position of the revealed buffer is filled in.
    pub open spec fn complete(self) -> bool {
        forall|i: int| 0 <= i < self.revealed@.len() ==> #[trigger] self.revealed@[i] != BLANK
    }

    /// Well-formedness: the invariant every operation preserves.
    pub open spec fn wf(self) -> bool {
        &&& wf_word(self.word@)
        &&& self.revealed@.len() == self.word@.len()
        &&& forall|i: int| 0 <= i < self.word@.len() ==>
                (#[trigger] self.revealed@[i] == self.word@[i] || self.revealed@[i] == BLANK)
        &&& (self.won <==> self.complete())
        &&& self.lives <= START_LIVES
        &&& forall|j: int| 0 <= j < self.guessed@.len() ==>
                is_lower_letter(#[trigger] self.guessed@[j])
                && !self.word@.contains(self.guessed@[j])
    }

    /// The round is still going: neither won nor out of lives.
    pub open spec fn playing(self) -> bool {
        !self.won && self.lives > 0
    }

    /// The round is lost: lives ran out before the word was revealed.
    pub open spec fn lost(self) -> bool {
        !self.won && self.lives == 0
    }

    /// The revealed buffer never shows a letter the word does not have
    /// at that position: every position is still blank or already the
    /// word's own letter.
    pub proof fn lemma_revealed_matches_word(self)
        requires
            self.wf(),
        ensures
            forall|i: int| 0 <= i < self.word@.len() ==>
                (#[trigger] self.revealed@[i] == self.word@[i] || self.revealed@[i] == BLANK),
    {
    }

    /// The win flag holds exactly when the revealed buffer equals the word.
    pub proof fn lemma_won_iff_word_revealed(self)
        requires
            self.wf(),
        ensures
            self.won <==> self.revealed@ == self.word@,
    {
        if self.complete() {
            assert(self.revealed@ =~= self.word@);
        }
        if self.revealed@ == self.word@ {
            assert forall|i: int| 0 <= i < self.revealed@.len() implies #[trigger] self
                .revealed@[i] != BLANK by {
                assert(is_lower_letter(self.word@[i]));
            }
        }
    }

    /// Begin a round on the given word: all positions blank, full lives,
    /// no guesses recorded.
    pub fn start(word: Vec<u8>) -> (r: Round)
        requires
            wf_word(word@),
        ensures
            r.wf(),
            r.playing(),
            r.word@ == word@,
            r.lives == START_LIVES,
            r.guessed@.len() == 0,
            !r.won,
            r.revealed@.len() == word@.len(),
            forall|i: int| 0 <= i < r.revealed@.len() ==> #[trigger] r.revealed@[i] == BLANK,
    {
        let n = word.len();
        let mut revealed: Vec<u8> = Vec::new();
        let mut i: usize = 0;
        while i < n
            invariant
                i <= n,
                revealed@.len() == i,
                forall|k: int| 0 <= k < i ==> #[trigger] revealed@[k] == BLANK,
            decreases n - i,
        {
            revealed.push(BLANK);
            i += 1;
        }
        let r = Round { word, revealed, lives: START_LIVES, guessed: Vec::new(), won: false };
        proof {
            assert(r.revealed@[0] == BLANK);
            assert(!r.complete());
        }
        r
    }

    /// Apply one guessed letter to a round in play.
    ///
    /// A letter of the word reveals every one of its positions and costs
    /// nothing; any other letter is recorded and costs one life.  The
    /// outcome is `Won` exactly when the word is now fully revealed,
    /// `Lost` exactly when the last life was just spent.
    pub fn guess(&mut self, letter: u8) -> (r: GuessOutcome)
        requires
            old(self).wf(),
            old(self).playing(),
            is_lower_letter(letter),
        ensures
            final(self).wf(),
            final(self).word@ == old(self).word@,
            old(self).word@.contains(letter) ==> ({
                &&& final(self).lives == old(self).lives
                &&& final(self).guessed@ == old(self).guessed@
                &&& final(self).revealed@.len() == old(self).revealed@.len()
                &&& forall|i: int| 0 <= i < old(self).word@.len() ==>
                        #[trigger] final(self).revealed@[i] == (if old(self).word@[i] == letter {
                            letter
                        } else {
                            old(self).revealed@[i]
                        })
            }),
            !old(self).word@.contains(letter) ==> ({
                &&& final(self).revealed@ == old(self).revealed@
                &&& final(self).lives == old(self).lives - 1
                &&& final(self).guessed@ == old(self).guessed@.push(letter)
            }),
            forall|i: int| 0 <= i < old(self).revealed@.len()
                && old(self).revealed@[i] != BLANK ==> #[trigger] final(self).revealed@[i] == old(
                self).revealed@[i],
            (r == GuessOutcome::Won) <==> final(self).won,
            (r == GuessOutcome::Won) <==> final(self).revealed@ == final(self).word@,
            (r == GuessOutcome::Lost) <==> final(self).lost(),
            (r == GuessOutcome::InProgress) <==> final(self).playing(),
    {
        if contains_byte(&self.word, letter) {
            let n = self.word.len();
            let mut i: usize = 0;
            while i < n
                invariant
                    i <= n,
                    n == self.word@.len(),
                    self.word@ == old(self).word@,
                    self.lives == old(self).lives,
                    self.guessed@ == old(self).guessed@,
                    self.won == old(self).won,
                    self.revealed@.len() == old(self).revealed@.len(),
                    old(self).wf(),
                    forall|k: int| 0 <= k < i ==>
                        #[trigger] self.revealed@[k] == (if old(self).word@[k] == letter {
                            letter
                        } else {
                            old(self).revealed@[k]
                        }),
                    forall|k: int| i <= k < n ==>
                        #[trigger] self.revealed@[k] == old(self).revealed@[k],
                decreases n - i,
            {
                if self.word[i] == letter {
                    self.revealed.set(i, letter);
                }
                i += 1;
            }
            let done = all_filled(&self.revealed);
            if done {
                self.won = true;
                proof {
                    assert(self.wf());
                    self.lemma_won_iff_word_revealed();
                }
                GuessOutcome::Won
            } else {
                proof {
                    assert(self.wf());
                    self.lemma_won_iff_word_revealed();
                }
                GuessOutcome::InProgress
            }
        } else {
            self.guessed.push(letter);
            self.lives = self.lives - 1;
            proof {
                assert(!old(self).complete());
                let i = choose|i: int|
                    0 <= i < old(self).revealed@.len() && old(self).revealed@[i] == BLANK;
                assert(self.revealed@[i] == BLANK);
                assert(!self.complete());
                assert(self.wf());
                self.lemma_won_iff_word_revealed();
            }
            if self.lives == 0 {
                GuessOutcome::Lost
            } else {
                GuessOutcome::InProgress
            }
        }
    }
}

/// Whether `b` occurs in `v`.
pub fn contains_byte(v: &Vec<u8>, b: u8) -> (r: bool)
    ensures
        r == v@.contains(b),
{
    let n = v.len();
    let mut i: usize = 0;
    while i < n
        invariant
            i <= n,
            n == v@.len(),
            forall|k: int| 0 <= k < i ==> #[trigger] v@[k] != b,
        decreases n - i,
    {
        if v[i] == b {
            return true;
        }
        i += 1;
    }
    false
}

/// Whether no position of `v` is still the blank marker.
fn all_filled(v: &Vec<u8>) -> (r: bool)
    ensures
        r == (forall|i: int| 0 <= i < v@.len() ==> #[trigger] v@[i] != BLANK),
{
    let n = v.len();
    let mut i: usize = 0;
    while i < n
        invariant
            i <= n,
            n == v@.len(),
            forall|k: int| 0 <= k < i ==> #[trigger] v@[k] != BLANK,
        decreases n - i,
    {
        if v[i] == BLANK {
            return false;
        }
        i += 1;
    }
    true
}

} // verus!
