//! Game state: the letter bank, the in-progress word buffer and the
//! score, with the rules that mutate them — appraisal-gated acceptance,
//! replenishment to the target size, and viewer replacement commands.

use vstd::prelude::*;
use crate::appraise::{
    WordQuality, bank_count, bank_has, classify, consume, consumed_points, find_first,
    first_match, lemma_consume_count, lemma_consume_wf, lemma_first_match_props,
    lemma_points_nonneg, missing_list, occurrences, sat32, sat_add_u32,
};
use crate::channel::Command;
use crate::dict::{in_dictionary, lookup_word};
use crate::letters::{
    Letter, is_upper_char, lemma_pool_wf, pool, pool_lookup, pool_point, pool_spec, wf_bank,
    wf_letter,
};
use crate::rng::{draw_index, fresh_rng};

verus! {

/// Number of tiles the bank is refilled to after every accepted word.
pub const BANK_TARGET: usize = 14;

/// Upper bound on the length of the in-progress word buffer.
pub const WORD_MAX: usize = 24;

/// The bank after walking `w` left to right and removing, for each
/// character, the first tile carrying it (characters without a matching
/// tile remove nothing).
pub open spec fn remove_all(w: Seq<char>, b: Seq<Letter>) -> Seq<Letter>
    decreases w.len(),
{
    if w.len() == 0 {
        b
    } else if bank_has(b, w[0]) {
        remove_all(w.drop_first(), consume(b, w[0]))
    } else {
        remove_all(w.drop_first(), b)
    }
}

/// Accepting a covered word removes exactly one bank instance per
/// consumed character: for every character, the surviving bank holds its
/// old count less its occurrences in the word, and exactly the word's
/// length in tiles is gone.
pub proof fn lemma_removal_counts(w: Seq<char>, b: Seq<Letter>, c: char)
    requires
        missing_list(w, b).len() == 0,
    ensures
        bank_count(remove_all(w, b), c) == bank_count(b, c) - occurrences(w, c),
        remove_all(w, b).len() == b.len() - w.len(),
    decreases w.len(),
{
    if w.len() == 0 {
    } else {
        assert(bank_has(b, w[0])) by {
            if !bank_has(b, w[0]) {
                let m = missing_list(w.drop_first(), b);
                assert(missing_list(w, b).len() == 1 + m.len());
            }
        }
        lemma_first_match_props(b, w[0]);
        lemma_consume_count(b, w[0], c);
        lemma_removal_counts(w.drop_first(), consume(b, w[0]), c);
    }
}

/// Removal only discards tiles, so the survivors of an acceptance are
/// tiles of the old bank: a pool-priced bank stays pool-priced through
/// the removal, and with `accept_word`'s refill clause the pricing
/// invariant is carried across a whole acceptance.
pub proof fn lemma_remove_all_wf(w: Seq<char>, b: Seq<Letter>)
    requires
        wf_bank(b),
    ensures
        wf_bank(remove_all(w, b)),
    decreases w.len(),
{
    if w.len() == 0 {
    } else if bank_has(b, w[0]) {
        lemma_consume_wf(b, w[0]);
        lemma_remove_all_wf(w.drop_first(), consume(b, w[0]));
    } else {
        lemma_remove_all_wf(w.drop_first(), b);
    }
}

/// The player's state, owned and mutated by the render loop alone.
pub struct GameState {
    /// The current multiset of available tiles.
    pub bank: Vec<Letter>,
    /// The word being typed, always uppercase.
    pub word: Vec<char>,
    /// Total points of the accepted words, never decreasing.
    pub score: u32,
    /// The generator replenishment draws from.
    pub rng: nanorand::tls::TlsWyRand,
}

impl GameState {
    /// The bank never exceeds its target size, and the word buffer
    /// stays bounded and uppercase. Point values are an attribute of
    /// the tiles themselves: a bank built by this library always
    /// carries pool prices, but the rules below do not depend on it.
    pub open spec fn wf(self) -> bool {
        &&& self.bank@.len() <= BANK_TARGET as int
        &&& self.word@.len() <= WORD_MAX as int
        &&& forall|i: int| 0 <= i < self.word@.len() ==> is_upper_char(#[trigger] self.word@[i])
    }

    /// A fresh game: empty word, zero score, bank filled to the target
    /// with pool-priced tiles.
    pub fn new() -> (g: GameState)
        ensures
            g.wf(),
            wf_bank(g.bank@),
            g.score == 0,
            g.word@.len() == 0,
            g.bank@.len() == BANK_TARGET as int,
    {
        let mut g = GameState { bank: Vec::new(), word: Vec::new(), score: 0, rng: fresh_rng() };
        g.fill_bank();
        g
    }

    /// A game starting from a given bank, for callers that set the
    /// board up themselves.
    pub fn with_bank(bank: Vec<Letter>) -> (g: GameState)
        requires
            bank@.len() <= BANK_TARGET as int,
        ensures
            g.wf(),
            g.score == 0,
            g.word@.len() == 0,
            g.bank@ == bank@,
    {
        GameState { bank, word: Vec::new(), score: 0, rng: fresh_rng() }
    }

    /// Replenish the bank up to the target size by uniform draws from
    /// the pool; tiles already held are kept, in place, and every tile
    /// drawn carries its pool price.
    fn fill_bank(&mut self)
        requires
            old(self).wf(),
        ensures
            final(self).wf(),
            final(self).bank@.len() == BANK_TARGET as int,
            final(self).bank@.take(old(self).bank@.len() as int) == old(self).bank@,
            forall|k: int|
                old(self).bank@.len() <= k < final(self).bank@.len() ==> wf_letter(
                    #[trigger] final(self).bank@[k],
                ),
            final(self).word@ == old(self).word@,
            final(self).score == old(self).score,
    {
        let tiles = pool();
        let ghost orig = self.bank@;
        let ghost w0 = self.word@;
        let ghost s0 = self.score;
        proof {
            assert(self.bank@.take(orig.len() as int) =~= orig);
        }
        while self.bank.len() < BANK_TARGET
            invariant
                tiles@ == pool_spec(),
                forall|k: int|
                    orig.len() <= k < self.bank@.len() ==> wf_letter(#[trigger] self.bank@[k]),
                self.bank@.len() <= BANK_TARGET as int,
                orig.len() <= self.bank@.len(),
                self.bank@.take(orig.len() as int) == orig,
                self.word@ == w0,
                self.score == s0,
            decreases BANK_TARGET as int - self.bank@.len(),
        {
            let i = draw_index(&mut self.rng, tiles.len());
            let tile = tiles[i];
            proof {
                lemma_pool_wf();
                assert(wf_letter(tile));
            }
            let ghost before = self.bank@;
            self.bank.push(tile);
            proof {
                assert forall|k: int| orig.len() <= k < self.bank@.len() implies wf_letter(
                    #[trigger] self.bank@[k],
                ) by {
                    if k < before.len() {
                        assert(self.bank@[k] == before[k]);
                    }
                }
                assert(self.bank@.take(orig.len() as int) =~= before.take(orig.len() as int));
            }
        }
    }

    /// Append an uppercase character to the word; full buffers ignore
    /// the keystroke.
    pub fn push_char(&mut self, c: char)
        requires
            old(self).wf(),
            is_upper_char(c),
        ensures
            final(self).wf(),
            old(self).word@.len() < WORD_MAX as int ==> final(self).word@ == old(
                self,
            ).word@.push(c),
            old(self).word@.len() >= WORD_MAX as int ==> final(self).word@ == old(self).word@,
            final(self).bank@ == old(self).bank@,
            final(self).score == old(self).score,
    {
        if self.word.len() < WORD_MAX {
            self.word.push(c);
        }
    }

    /// Drop the last character of the word, if any.
    pub fn backspace(&mut self)
        requires
            old(self).wf(),
        ensures
            final(self).wf(),
            old(self).word@.len() > 0 ==> final(self).word@ == old(self).word@.drop_last(),
            old(self).word@.len() == 0 ==> final(self).word@ == old(self).word@,
            final(self).bank@ == old(self).bank@,
            final(self).score == old(self).score,
    {
        self.word.pop();
    }

    /// Clear the word buffer.
    pub fn clear_word(&mut self)
        requires
            old(self).wf(),
        ensures
            final(self).wf(),
            final(self).word@.len() == 0,
            final(self).bank@ == old(self).bank@,
            final(self).score == old(self).score,
    {
        self.word.clear();
    }

    /// Appraise the current word against the current bank and the
    /// dictionary. The length gate comes first: a short word is
    /// answered before any bank or dictionary work. Side-effect-free:
    /// safe to call every tick.
    pub fn appraise_word(&self) -> (q: WordQuality)
        ensures
            q is TooShort <==> self.word@.len() < 3,
            self.word@.len() >= 3 && missing_list(self.word@, self.bank@).len() > 0 ==> (q matches
                WordQuality::MissingLetters(m) && m@ == missing_list(self.word@, self.bank@)),
            self.word@.len() >= 3 && missing_list(self.word@, self.bank@).len() == 0
                && in_dictionary(self.word@) ==> q == WordQuality::Valid(
                sat32(consumed_points(self.word@, self.bank@)) as u32,
            ),
            self.word@.len() >= 3 && missing_list(self.word@, self.bank@).len() == 0
                && !in_dictionary(self.word@) ==> q == WordQuality::Invalid,
    {
        if self.word.len() < 3 {
            return WordQuality::TooShort;
        }
        let recognized = lookup_word(&self.word);
        classify(&self.word, &self.bank, recognized)
    }

    /// Accept the current word: re-appraise it, and only on a `Valid`
    /// verdict remove one matching tile per character, add the points to
    /// the score, clear the word and refill the bank to the target size.
    /// Any other verdict changes nothing.
    pub fn accept_word(&mut self)
        requires
            old(self).wf(),
        ensures
            final(self).wf(),
            final(self).score >= old(self).score,
            !(old(self).word@.len() >= 3 && missing_list(old(self).word@, old(self).bank@).len()
                == 0 && in_dictionary(old(self).word@)) ==> *final(self) == *old(self),
            old(self).word@.len() >= 3 && missing_list(old(self).word@, old(self).bank@).len()
                == 0 && in_dictionary(old(self).word@) ==> {
                &&& final(self).score as int == sat32(
                    old(self).score + sat32(consumed_points(old(self).word@, old(self).bank@)),
                )
                &&& final(self).word@.len() == 0
                &&& final(self).bank@.len() == BANK_TARGET as int
                &&& final(self).bank@.take(
                    remove_all(old(self).word@, old(self).bank@).len() as int,
                ) == remove_all(old(self).word@, old(self).bank@)
                &&& forall|k: int|
                    remove_all(old(self).word@, old(self).bank@).len() <= k
                        < final(self).bank@.len() ==> wf_letter(#[trigger] final(self).bank@[k])
            },
    {
        let q = self.appraise_word();
        if let WordQuality::Valid(points) = q {
            proof {
                lemma_points_nonneg(self.word@, self.bank@);
            }
            let ghost w0 = self.word@;
            let ghost b0 = self.bank@;
            let ghost s0 = self.score;
            proof {
                assert(w0.skip(0) =~= w0);
            }
            let mut j: usize = 0;
            while j < self.word.len()
                invariant
                    j <= self.word@.len(),
                    self.word@ == w0,
                    self.score == s0,
                    self.bank@.len() <= BANK_TARGET as int,
                    self.word@.len() <= WORD_MAX as int,
                    forall|i: int|
                        0 <= i < self.word@.len() ==> is_upper_char(#[trigger] self.word@[i]),
                    remove_all(w0, b0) == remove_all(w0.skip(j as int), self.bank@),
                decreases self.word@.len() - j,
            {
                let c = self.word[j];
                proof {
                    assert(w0.skip(j as int)[0] == w0[j as int]);
                    assert(w0.skip(j as int).drop_first() =~= w0.skip(j as int + 1));
                }
                match find_first(&self.bank, c) {
                    Some(i) => {
                        self.bank.remove(i);
                    },
                    None => {},
                }
                j += 1;
            }
            proof {
                assert(w0.skip(w0.len() as int) =~= Seq::<char>::empty());
            }
            self.score = sat_add_u32(self.score, points);
            self.word.clear();
            self.fill_bank();
        }
    }

    /// Apply a viewer command: swap the first tile carrying `cmd.0` for
    /// a fresh pool lookup of `cmd.1`. If `cmd.0` is absent from the
    /// bank, or the pool prices no tile for `cmd.1`, the bank is left
    /// unchanged.
    pub fn apply_command(&mut self, cmd: Command)
        requires
            old(self).wf(),
        ensures
            final(self).wf(),
            !bank_has(old(self).bank@, cmd.0) ==> *final(self) == *old(self),
            bank_has(old(self).bank@, cmd.0) && pool_point(cmd.1) is None ==> *final(self) == *old(
                self,
            ),
            bank_has(old(self).bank@, cmd.0) && pool_point(cmd.1) is Some ==> {
                &&& final(self).bank@ == old(self).bank@.update(
                    first_match(old(self).bank@, cmd.0),
                    (Letter { c: cmd.1, points: pool_point(cmd.1).unwrap() }),
                )
                &&& final(self).word@ == old(self).word@
                &&& final(self).score == old(self).score
            },
    {
        if let Some(i) = find_first(&self.bank, cmd.0) {
            if let Some(tile) = pool_lookup(cmd.1) {
                self.bank.set(i, tile);
            }
        }
    }
}

} // verus!
