//! Word appraisal: classify a candidate word against a bank of letter
//! tiles and a dictionary verdict. The word is walked left to right
//! against a copy of the bank; each character consumes the first unused
//! matching tile and earns its points, and characters with no tile left
//! are collected, in input order, as missing.

use vstd::prelude::*;
use crate::letters::{Letter, lemma_pool_wf, pool_point, wf_bank, wf_letter};

verus! {

/// Result of appraising one candidate word.
#[derive(PartialEq, Eq, Debug)]
pub enum WordQuality {
    /// Fewer than three characters; nothing else was looked at.
    TooShort,
    /// Every character was covered by the bank, but the dictionary does
    /// not recognize the word.
    Invalid,
    /// The characters for which no unused tile was left, occurrence by
    /// occurrence, in input order.
    MissingLetters(Vec<char>),
    /// Recognized and fully covered; the summed points of the consumed
    /// tiles.
    Valid(u32),
}

/// Whether some tile in `b` carries the character `c`.
pub open spec fn bank_has(b: Seq<Letter>, c: char) -> bool {
    exists|i: int| 0 <= i < b.len() && (#[trigger] b[i]).c == c
}

/// Index of the first tile in `b` carrying `c` (meaningful only when
/// `bank_has(b, c)`).
pub open spec fn first_match(b: Seq<Letter>, c: char) -> int
    decreases b.len(),
{
    if b.len() == 0 {
        0
    } else if b[0].c == c {
        0
    } else {
        1 + first_match(b.drop_first(), c)
    }
}

/// The bank after consuming the first tile carrying `c`.
pub open spec fn consume(b: Seq<Letter>, c: char) -> Seq<Letter> {
    b.remove(first_match(b, c))
}

/// The characters of `w` left unmatched when `w` is walked left to right
/// against `b`, each matched character consuming one tile: the missing
/// list, occurrence-preserving and in input order.
pub open spec fn missing_list(w: Seq<char>, b: Seq<Letter>) -> Seq<char>
    decreases w.len(),
{
    if w.len() == 0 {
        Seq::empty()
    } else if bank_has(b, w[0]) {
        missing_list(w.drop_first(), consume(b, w[0]))
    } else {
        seq![w[0]] + missing_list(w.drop_first(), b)
    }
}

/// Summed points of the tiles consumed when `w` is walked against `b`.
pub open spec fn consumed_points(w: Seq<char>, b: Seq<Letter>) -> int
    decreases w.len(),
{
    if w.len() == 0 {
        0
    } else if bank_has(b, w[0]) {
        b[first_match(b, w[0])].points + consumed_points(w.drop_first(), consume(b, w[0]))
    } else {
        consumed_points(w.drop_first(), b)
    }
}

/// Clamp a non-negative mathematical sum into the `u32` range.
pub open spec fn sat32(i: int) -> int {
    if i > u32::MAX as int {
        u32::MAX as int
    } else {
        i
    }
}

/// When `c` occurs in `b`, `first_match` points at its first occurrence.
pub proof fn lemma_first_match_props(b: Seq<Letter>, c: char)
    requires
        bank_has(b, c),
    ensures
        0 <= first_match(b, c) < b.len(),
        b[first_match(b, c)].c == c,
        forall|k: int| 0 <= k < first_match(b, c) ==> (#[trigger] b[k]).c != c,
    decreases b.len(),
{
    if b[0].c == c {
    } else {
        let i = choose|i: int| 0 <= i < b.len() && (#[trigger] b[i]).c == c;
        assert(b.drop_first()[i - 1].c == c);
        lemma_first_match_props(b.drop_first(), c);
        let f = first_match(b.drop_first(), c);
        assert forall|k: int| 0 <= k < 1 + f implies (#[trigger] b[k]).c != c by {
            if k > 0 {
                assert(b.drop_first()[k - 1].c != c);
            }
        }
    }
}

/// Consuming a tile keeps every remaining tile well formed.
pub proof fn lemma_consume_wf(b: Seq<Letter>, c: char)
    requires
        wf_bank(b),
        bank_has(b, c),
    ensures
        wf_bank(consume(b, c)),
        consume(b, c).len() == b.len() - 1,
{
    lemma_first_match_props(b, c);
    let f = first_match(b, c);
    assert forall|k: int| 0 <= k < consume(b, c).len() implies wf_letter(
        #[trigger] consume(b, c)[k],
    ) by {
        if k < f {
            assert(consume(b, c)[k] == b[k]);
        } else {
            assert(consume(b, c)[k] == b[k + 1]);
        }
    }
}

/// The consumed points are never negative, whatever the bank holds.
pub proof fn lemma_points_nonneg(w: Seq<char>, b: Seq<Letter>)
    ensures
        0 <= consumed_points(w, b),
    decreases w.len(),
{
    if w.len() == 0 {
    } else if bank_has(b, w[0]) {
        lemma_first_match_props(b, w[0]);
        lemma_points_nonneg(w.drop_first(), consume(b, w[0]));
    } else {
        lemma_points_nonneg(w.drop_first(), b);
    }
}

/// On a pool-priced bank the consumed points are at most five per tile
/// the bank holds. A bank within the game's target size therefore sums
/// far below `u32::MAX`, so the `Valid` points of `classify` are the
/// exact, unsaturated sum there.
pub proof fn lemma_points_bound(w: Seq<char>, b: Seq<Letter>)
    requires
        wf_bank(b),
    ensures
        0 <= consumed_points(w, b) <= 5 * b.len(),
    decreases w.len(),
{
    lemma_pool_wf();
    if w.len() == 0 {
    } else if bank_has(b, w[0]) {
        lemma_first_match_props(b, w[0]);
        lemma_consume_wf(b, w[0]);
        lemma_points_bound(w.drop_first(), consume(b, w[0]));
    } else {
        lemma_points_bound(w.drop_first(), b);
    }
}

/// Occurrences of `c` in a character sequence.
pub open spec fn occurrences(s: Seq<char>, c: char) -> int
    decreases s.len(),
{
    if s.len() == 0 {
        0
    } else {
        (if s[0] == c {
            1int
        } else {
            0int
        }) + occurrences(s.drop_first(), c)
    }
}

/// Tiles in `b` carrying the character `c`.
pub open spec fn bank_count(b: Seq<Letter>, c: char) -> int
    decreases b.len(),
{
    if b.len() == 0 {
        0
    } else {
        (if b[0].c == c {
            1int
        } else {
            0int
        }) + bank_count(b.drop_first(), c)
    }
}

/// Summed pool point values of the characters of `w` (unpooled
/// characters counting zero).
pub open spec fn pool_points_of(w: Seq<char>) -> int
    decreases w.len(),
{
    if w.len() == 0 {
        0
    } else {
        (if pool_point(w[0]) is Some {
            pool_point(w[0]).unwrap() as int
        } else {
            0int
        }) + pool_points_of(w.drop_first())
    }
}

pub proof fn lemma_occurrences_nonneg(s: Seq<char>, c: char)
    ensures
        occurrences(s, c) >= 0,
    decreases s.len(),
{
    if s.len() > 0 {
        lemma_occurrences_nonneg(s.drop_first(), c);
    }
}

/// A tile for `c` exists exactly when the count of such tiles is positive.
pub proof fn lemma_bank_has_count(b: Seq<Letter>, c: char)
    ensures
        bank_count(b, c) >= 0,
        bank_has(b, c) <==> bank_count(b, c) > 0,
    decreases b.len(),
{
    if b.len() == 0 {
    } else {
        lemma_bank_has_count(b.drop_first(), c);
        if b[0].c == c {
            assert(bank_has(b, c));
        } else {
            if bank_has(b, c) {
                let i = choose|i: int| 0 <= i < b.len() && (#[trigger] b[i]).c == c;
                assert(b.drop_first()[i - 1].c == c);
            }
            if bank_has(b.drop_first(), c) {
                let i = choose|i: int|
                    0 <= i < b.drop_first().len() && (#[trigger] b.drop_first()[i]).c == c;
                assert(b[i + 1].c == c);
            }
        }
    }
}

/// Removing the tile at `i` lowers the count of its character by one and
/// leaves every other count unchanged.
pub proof fn lemma_remove_count(b: Seq<Letter>, i: int, c: char)
    requires
        0 <= i < b.len(),
    ensures
        bank_count(b.remove(i), c) == bank_count(b, c) - (if b[i].c == c {
            1int
        } else {
            0int
        }),
    decreases b.len(),
{
    if i == 0 {
        assert(b.remove(0) =~= b.drop_first());
    } else {
        assert(b.remove(i)[0] == b[0]);
        assert(b.remove(i).drop_first() =~= b.drop_first().remove(i - 1));
        lemma_remove_count(b.drop_first(), i - 1, c);
    }
}

/// Consuming the first tile for `cc` lowers the count of `cc` by one and
/// leaves every other count unchanged.
pub proof fn lemma_consume_count(b: Seq<Letter>, cc: char, c: char)
    requires
        bank_has(b, cc),
    ensures
        bank_count(consume(b, cc), c) == bank_count(b, c) - (if cc == c {
            1int
        } else {
            0int
        }),
{
    lemma_first_match_props(b, cc);
    lemma_remove_count(b, first_match(b, cc), c);
}

/// The missing list holds, for each character, exactly the occurrences of
/// the word that exceed the bank's supply: the unmatched occurrences,
/// nothing more and nothing less.
pub proof fn lemma_missing_counts(w: Seq<char>, b: Seq<Letter>, c: char)
    ensures
        occurrences(missing_list(w, b), c) == (if occurrences(w, c) > bank_count(b, c) {
            occurrences(w, c) - bank_count(b, c)
        } else {
            0int
        }),
    decreases w.len(),
{
    lemma_bank_has_count(b, c);
    lemma_occurrences_nonneg(w, c);
    if w.len() == 0 {
    } else if bank_has(b, w[0]) {
        lemma_missing_counts(w.drop_first(), consume(b, w[0]), c);
        lemma_consume_count(b, w[0], c);
        lemma_bank_has_count(b, w[0]);
        lemma_occurrences_nonneg(w.drop_first(), c);
    } else {
        lemma_missing_counts(w.drop_first(), b, c);
        lemma_bank_has_count(b, w[0]);
        let m = missing_list(w.drop_first(), b);
        assert((seq![w[0]] + m)[0] == w[0]);
        assert((seq![w[0]] + m).drop_first() =~= m);
        lemma_occurrences_nonneg(w.drop_first(), c);
    }
}

/// The missing list is empty exactly when the bank's supply covers the
/// word's character multiset.
pub proof fn lemma_covered_iff_no_missing(w: Seq<char>, b: Seq<Letter>)
    ensures
        missing_list(w, b).len() == 0 <==> forall|c: char|
            occurrences(w, c) <= bank_count(b, c),
{
    if missing_list(w, b).len() == 0 {
        assert forall|c: char| occurrences(w, c) <= bank_count(b, c) by {
            lemma_missing_counts(w, b, c);
            lemma_occurrences_nonneg(missing_list(w, b), c);
        }
    } else {
        let m = missing_list(w, b);
        let c = m[0];
        assert(occurrences(m, c) > 0) by {
            lemma_occurrences_nonneg(m.drop_first(), c);
        }
        lemma_missing_counts(w, b, c);
        assert(occurrences(w, c) > bank_count(b, c));
    }
}

/// On a well-formed bank that covers the word, the consumed points are
/// exactly the summed pool values of the word's characters, whichever
/// tiles the walk consumed.
pub proof fn lemma_valid_points(w: Seq<char>, b: Seq<Letter>)
    requires
        wf_bank(b),
        missing_list(w, b).len() == 0,
    ensures
        consumed_points(w, b) == pool_points_of(w),
    decreases w.len(),
{
    if w.len() == 0 {
    } else {
        assert(bank_has(b, w[0])) by {
            if !bank_has(b, w[0]) {
                let m = missing_list(w.drop_first(), b);
                assert(missing_list(w, b).len() == 1 + m.len());
            }
        }
        lemma_first_match_props(b, w[0]);
        lemma_consume_wf(b, w[0]);
        lemma_valid_points(w.drop_first(), consume(b, w[0]));
    }
}

/// Saturating add on `u32`, exact below the cap.
pub fn sat_add_u32(a: u32, b: u32) -> (r: u32)
    ensures
        r as int == sat32(a as int + b as int),
{
    if a <= u32::MAX - b {
        a + b
    } else {
        u32::MAX
    }
}

/// Index of the first tile in `v` carrying `c`, or `None` when no tile
/// does.
pub fn find_first(v: &Vec<Letter>, c: char) -> (r: Option<usize>)
    ensures
        match r {
            Some(i) => bank_has(v@, c) && i < v@.len() && i == first_match(v@, c),
            None => !bank_has(v@, c),
        },
{
    let mut i: usize = 0;
    while i < v.len()
        invariant
            i <= v@.len(),
            forall|k: int| 0 <= k < i ==> (#[trigger] v@[k]).c != c,
        decreases v@.len() - i,
    {
        if v[i].c == c {
            proof {
                assert(bank_has(v@, c));
                lemma_first_match_props(v@, c);
                let f = first_match(v@, c);
                if f < i {
                    assert(v@[f].c != c);
                }
            }
            return Some(i);
        }
        i += 1;
    }
    None
}

/// Classify `word` against `bank`, with `recognized` standing for the
/// dictionary's verdict on the word. Free of side effects: the bank is
/// only copied, so repeated appraisals agree.
pub fn classify(word: &Vec<char>, bank: &Vec<Letter>, recognized: bool) -> (q: WordQuality)
    ensures
        q is TooShort <==> word@.len() < 3,
        word@.len() >= 3 && missing_list(word@, bank@).len() > 0 ==> (q matches
            WordQuality::MissingLetters(m) && m@ == missing_list(word@, bank@)),
        word@.len() >= 3 && missing_list(word@, bank@).len() == 0 && recognized ==> q
            == WordQuality::Valid(sat32(consumed_points(word@, bank@)) as u32),
        word@.len() >= 3 && missing_list(word@, bank@).len() == 0 && !recognized ==> q
            == WordQuality::Invalid,
{
    if word.len() < 3 {
        return WordQuality::TooShort;
    }
    let mut avail: Vec<Letter> = bank.clone();
    proof {
        assert(avail@ =~= bank@);
        assert(Seq::<char>::empty() + missing_list(word@.skip(0), avail@) =~= missing_list(
            word@.skip(0),
            avail@,
        ));
        assert(word@.skip(0) =~= word@);
    }
    let mut missing: Vec<char> = Vec::new();
    let mut points: u32 = 0;
    let ghost mut exact: int = 0;
    let mut j: usize = 0;
    while j < word.len()
        invariant
            j <= word@.len(),
            missing_list(word@, bank@) == missing@ + missing_list(word@.skip(j as int), avail@),
            consumed_points(word@, bank@) == exact + consumed_points(
                word@.skip(j as int),
                avail@,
            ),
            0 <= exact,
            points as int == sat32(exact),
        decreases word@.len() - j,
    {
        let c = word[j];
        proof {
            assert(word@.skip(j as int)[0] == word@[j as int]);
            assert(word@.skip(j as int).drop_first() =~= word@.skip(j as int + 1));
        }
        match find_first(&avail, c) {
            Some(i) => {
                let tile = avail.remove(i);
                points = sat_add_u32(points, tile.points);
                proof {
                    exact = exact + tile.points;
                }
            },
            None => {
                proof {
                    assert(missing@ + (seq![c] + missing_list(
                        word@.skip(j as int + 1),
                        avail@,
                    )) =~= missing@.push(c) + missing_list(word@.skip(j as int + 1), avail@));
                }
                missing.push(c);
            },
        }
        j += 1;
    }
    proof {
        assert(word@.skip(word@.len() as int) =~= Seq::<char>::empty());
        assert(missing@ + Seq::<char>::empty() =~= missing@);
    }
    if missing.len() > 0 {
        WordQuality::MissingLetters(missing)
    } else if recognized {
        WordQuality::Valid(points)
    } else {
        WordQuality::Invalid
    }
}

} // verus!
