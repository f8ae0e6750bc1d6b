//! The letter pool: a fixed weighted multiset of letter tiles, each an
//! uppercase character with a point value. The bank is replenished by
//! drawing from the pool, and replacement commands look letters up here.

use vstd::prelude::*;

verus! {

/// A letter tile: an uppercase character together with its point value.
#[derive(Clone, Copy, PartialEq, Eq, Structural, Debug)]
pub struct Letter {
    pub c: char,
    pub points: u32,
}

/// Point value the pool assigns to a character, or `None` when the pool
/// has no tile for that character.
pub open spec fn pool_point(c: char) -> Option<u32> {
    if c == 'A' {
        Some(2)
    } else if c == 'B' {
        Some(2)
    } else if c == 'C' {
        Some(1)
    } else if c == 'D' {
        Some(3)
    } else if c == 'E' {
        Some(3)
    } else if c == 'F' {
        Some(5)
    } else if c == 'G' {
        Some(1)
    } else if c == 'H' {
        Some(1)
    } else if c == 'I' {
        Some(2)
    } else if c == 'J' {
        Some(3)
    } else if c == 'K' {
        Some(5)
    } else if c == 'L' {
        Some(3)
    } else if c == 'M' {
        Some(4)
    } else if c == 'N' {
        Some(2)
    } else if c == 'O' {
        Some(2)
    } else if c == 'P' {
        Some(1)
    } else if c == 'Q' {
        Some(4)
    } else if c == 'R' {
        Some(2)
    } else if c == 'S' {
        Some(1)
    } else if c == 'T' {
        Some(4)
    } else if c == 'U' {
        Some(2)
    } else if c == 'V' {
        Some(5)
    } else if c == 'W' {
        Some(4)
    } else if c == 'X' {
        Some(3)
    } else if c == 'Y' {
        Some(4)
    } else if c == 'Z' {
        Some(2)
    } else {
        None
    }
}

/// Whether `c` is an uppercase ASCII letter, the only characters words
/// and commands are made of.
pub open spec fn is_upper_char(c: char) -> bool {
    65 <= c as u32 <= 90
}

/// A tile is well formed when it carries exactly the point value the pool
/// assigns to its character.
pub open spec fn wf_letter(l: Letter) -> bool {
    pool_point(l.c) == Some(l.points)
}

/// A bank (or any tile sequence) is well formed when every tile is.
pub open spec fn wf_bank(b: Seq<Letter>) -> bool {
    forall|i: int| 0 <= i < b.len() ==> wf_letter(#[trigger] b[i])
}

/// The pool's contents, duplicates standing for the weighting of the
/// uniform replenishment draw.
pub open spec fn pool_spec() -> Seq<Letter> {
    seq![
        Letter { c: 'A', points: 2 },
        Letter { c: 'A', points: 2 },
        Letter { c: 'B', points: 2 },
        Letter { c: 'C', points: 1 },
        Letter { c: 'D', points: 3 },
        Letter { c: 'E', points: 3 },
        Letter { c: 'E', points: 3 },
        Letter { c: 'F', points: 5 },
        Letter { c: 'G', points: 1 },
        Letter { c: 'H', points: 1 },
        Letter { c: 'I', points: 2 },
        Letter { c: 'I', points: 2 },
        Letter { c: 'J', points: 3 },
        Letter { c: 'K', points: 5 },
        Letter { c: 'L', points: 3 },
        Letter { c: 'M', points: 4 },
        Letter { c: 'N', points: 2 },
        Letter { c: 'O', points: 2 },
        Letter { c: 'O', points: 2 },
        Letter { c: 'P', points: 1 },
        Letter { c: 'Q', points: 4 },
        Letter { c: 'R', points: 2 },
        Letter { c: 'S', points: 1 },
        Letter { c: 'T', points: 4 },
        Letter { c: 'U', points: 2 },
        Letter { c: 'U', points: 2 },
        Letter { c: 'V', points: 5 },
        Letter { c: 'W', points: 4 },
        Letter { c: 'X', points: 3 },
        Letter { c: 'Y', points: 4 },
        Letter { c: 'Z', points: 2 },
    ]
}

/// Every pool tile is well formed, every pooled character's point value is
/// at most 5, and every character the pool prices has a tile in it.
pub proof fn lemma_pool_wf()
    ensures
        forall|i: int| 0 <= i < pool_spec().len() ==> wf_letter(#[trigger] pool_spec()[i]),
        forall|c: char| pool_point(c) is Some ==> pool_point(c).unwrap() <= 5,
        forall|c: char|
            pool_point(c) is Some ==> exists|i: int|
                0 <= i < pool_spec().len() && (#[trigger] pool_spec()[i]).c == c,
{
    assert forall|c: char| pool_point(c) is Some implies exists|i: int|
        0 <= i < pool_spec().len() && (#[trigger] pool_spec()[i]).c == c by {
        if c == 'A' {
            assert(pool_spec()[0].c == c);
        } else if c == 'B' {
            assert(pool_spec()[2].c == c);
        } else if c == 'C' {
            assert(pool_spec()[3].c == c);
        } else if c == 'D' {
            assert(pool_spec()[4].c == c);
        } else if c == 'E' {
            assert(pool_spec()[5].c == c);
        } else if c == 'F' {
            assert(pool_spec()[7].c == c);
        } else if c == 'G' {
            assert(pool_spec()[8].c == c);
        } else if c == 'H' {
            assert(pool_spec()[9].c == c);
        } else if c == 'I' {
            assert(pool_spec()[10].c == c);
        } else if c == 'J' {
            assert(pool_spec()[12].c == c);
        } else if c == 'K' {
            assert(pool_spec()[13].c == c);
        } else if c == 'L' {
            assert(pool_spec()[14].c == c);
        } else if c == 'M' {
            assert(pool_spec()[15].c == c);
        } else if c == 'N' {
            assert(pool_spec()[16].c == c);
        } else if c == 'O' {
            assert(pool_spec()[17].c == c);
        } else if c == 'P' {
            assert(pool_spec()[19].c == c);
        } else if c == 'Q' {
            assert(pool_spec()[20].c == c);
        } else if c == 'R' {
            assert(pool_spec()[21].c == c);
        } else if c == 'S' {
            assert(pool_spec()[22].c == c);
        } else if c == 'T' {
            assert(pool_spec()[23].c == c);
        } else if c == 'U' {
            assert(pool_spec()[24].c == c);
        } else if c == 'V' {
            assert(pool_spec()[26].c == c);
        } else if c == 'W' {
            assert(pool_spec()[27].c == c);
        } else if c == 'X' {
            assert(pool_spec()[28].c == c);
        } else if c == 'Y' {
            assert(pool_spec()[29].c == c);
        } else {
            assert(pool_spec()[30].c == c);
        }
    }
}

/// The pool as an executable vector, for the replenishment draw and for
/// replacement lookups.
pub fn pool() -> (v: Vec<Letter>)
    ensures
        v@ == pool_spec(),
{
    let mut v: Vec<Letter> = Vec::new();
    v.push(Letter { c: 'A', points: 2 });
    v.push(Letter { c: 'A', points: 2 });
    v.push(Letter { c: 'B', points: 2 });
    v.push(Letter { c: 'C', points: 1 });
    v.push(Letter { c: 'D', points: 3 });
    v.push(Letter { c: 'E', points: 3 });
    v.push(Letter { c: 'E', points: 3 });
    v.push(Letter { c: 'F', points: 5 });
    v.push(Letter { c: 'G', points: 1 });
    v.push(Letter { c: 'H', points: 1 });
    v.push(Letter { c: 'I', points: 2 });
    v.push(Letter { c: 'I', points: 2 });
    v.push(Letter { c: 'J', points: 3 });
    v.push(Letter { c: 'K', points: 5 });
    v.push(Letter { c: 'L', points: 3 });
    v.push(Letter { c: 'M', points: 4 });
    v.push(Letter { c: 'N', points: 2 });
    v.push(Letter { c: 'O', points: 2 });
    v.push(Letter { c: 'O', points: 2 });
    v.push(Letter { c: 'P', points: 1 });
    v.push(Letter { c: 'Q', points: 4 });
    v.push(Letter { c: 'R', points: 2 });
    v.push(Letter { c: 'S', points: 1 });
    v.push(Letter { c: 'T', points: 4 });
    v.push(Letter { c: 'U', points: 2 });
    v.push(Letter { c: 'U', points: 2 });
    v.push(Letter { c: 'V', points: 5 });
    v.push(Letter { c: 'W', points: 4 });
    v.push(Letter { c: 'X', points: 3 });
    v.push(Letter { c: 'Y', points: 4 });
    v.push(Letter { c: 'Z', points: 2 });
    proof {
        assert(v@ =~= pool_spec());
    }
    v
}

/// First pool tile carrying `c`: the tile a replacement command swaps in.
/// Returns `None` exactly when the pool prices no tile for `c`.
pub fn pool_lookup(c: char) -> (r: Option<Letter>)
    ensures
        match r {
            Some(l) => l.c == c && wf_letter(l),
            None => pool_point(c) is None,
        },
{
    let tiles = pool();
    let mut i: usize = 0;
    while i < tiles.len()
        invariant
            tiles@ == pool_spec(),
            i <= tiles@.len(),
            forall|k: int| 0 <= k < i ==> (#[trigger] tiles@[k]).c != c,
        decreases tiles@.len() - i,
    {
        if tiles[i].c == c {
            proof {
                lemma_pool_wf();
            }
            return Some(tiles[i]);
        }
        i += 1;
    }
    proof {
        lemma_pool_wf();
        if pool_point(c) is Some {
            let j = choose|j: int|
                0 <= j < pool_spec().len() && (#[trigger] pool_spec()[j]).c == c;
            assert(tiles@[j].c != c);
        }
    }
    None
}

} // verus!
