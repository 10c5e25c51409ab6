//! The en passant heuristic: a fast, approximate pass over the sanitized
//! token sequence. A two-character pawn advance to the fourth or fifth rank
//! whose very next ply is a four-character diagonal capture landing one rank
//! behind on the same file marks that reply as a likely en passant capture.
//! The flagged reply's text is rewritten with the trailing ` e.p.` suffix so
//! that a strict move parser accepts it instead of refusing it as ambiguous.
//! The flagged count is advisory; the replay engine's count is authoritative.

use vstd::prelude::*;

verus! {

/// One ply's sanitized notation: its 1-based position in the game, its text,
/// and whether the heuristic flagged it as a likely en passant capture.
pub struct HalfMoveToken {
    pub index: usize,
    pub text: Vec<char>,
    pub flagged: bool,
}

/// A pawn-advance candidate: exactly file and rank, with rank '4' or '5'.
pub open spec fn is_advance(t: Seq<char>) -> bool {
    t.len() == 2 && (t[1] == '4' || t[1] == '5')
}

/// The reply that makes an advance look like it was captured en passant:
/// four characters which, after the first, read `x`, the advance's file, and
/// the rank one behind the advance.
pub open spec fn matching_capture(adv: Seq<char>, rep: Seq<char>) -> bool {
    &&& rep.len() == 4
    &&& rep[1] == 'x'
    &&& rep[2] == adv[0]
    &&& rep[3] == (if adv[1] == '5' {
        '6'
    } else {
        '3'
    })
}

/// The token at 0-based position `i` is flagged: its predecessor is a pawn
/// advance and it is the matching diagonal capture.
pub open spec fn flagged_at(s: Seq<Seq<char>>, i: int) -> bool {
    0 < i < s.len() && is_advance(s[i - 1]) && matching_capture(s[i - 1], s[i])
}

/// How many of the first `n` positions are flagged.
pub open spec fn count_flagged(s: Seq<Seq<char>>, n: int) -> int
    decreases n,
{
    if n <= 0 {
        0
    } else {
        count_flagged(s, n - 1) + if flagged_at(s, n - 1) {
            1int
        } else {
            0int
        }
    }
}

/// The side that moves on 0-based position `i` is the analyzed user: the
/// first-moving side on even positions (odd plies), the second on odd ones.
pub open spec fn mover_is_user(i: int, white_is_user: bool, black_is_user: bool) -> bool {
    if i % 2 == 0 {
        white_is_user
    } else {
        black_is_user
    }
}

/// How many of the first `n` positions are flagged and attributed to the
/// analyzed user by ply parity.
pub open spec fn count_flagged_user(
    s: Seq<Seq<char>>,
    n: int,
    white_is_user: bool,
    black_is_user: bool,
) -> int
    decreases n,
{
    if n <= 0 {
        0
    } else {
        count_flagged_user(s, n - 1, white_is_user, black_is_user) + if flagged_at(s, n - 1)
            && mover_is_user(n - 1, white_is_user, black_is_user) {
            1int
        } else {
            0int
        }
    }
}

/// The suffix written onto a flagged capture so a strict parser accepts it.
pub open spec fn ep_suffix() -> Seq<char> {
    seq![' ', 'e', '.', 'p', '.']
}

/// What the scanner leaves as the text of position `i`.
pub open spec fn scanned_text(s: Seq<Seq<char>>, i: int) -> Seq<char> {
    if flagged_at(s, i) {
        s[i] + ep_suffix()
    } else {
        s[i]
    }
}

/// The token texts as the scanner leaves them, in order.
pub open spec fn scanned_texts(s: Seq<Seq<char>>) -> Seq<Seq<char>> {
    Seq::new(s.len(), |i: int| scanned_text(s, i))
}

/// A side that is not the analyzed user is never credited.
pub proof fn lemma_count_flagged_user_none(s: Seq<Seq<char>>, n: int)
    requires
        n >= 0,
    ensures
        count_flagged_user(s, n, false, false) == 0,
    decreases n,
{
    if n > 0 {
        lemma_count_flagged_user_none(s, n - 1);
    }
}

/// Runs the heuristic over the sanitized tokens: yields the token sequence
/// with 1-based indices, flags and rewritten texts, the number of flagged
/// positions, and how many of those the analyzed user played by ply parity.
pub fn scan_en_passant(toks: &Vec<Vec<char>>, white_is_user: bool, black_is_user: bool) -> (r: (
    Vec<HalfMoveToken>,
    usize,
    usize,
))
    ensures
        r.0@.len() == toks@.len(),
        forall|i: int|
            0 <= i < toks@.len() ==> {
                &&& (#[trigger] r.0@[i]).index == i + 1
                &&& r.0@[i].flagged == flagged_at(toks.deep_view(), i)
                &&& r.0@[i].text@ == scanned_text(toks.deep_view(), i)
            },
        r.1 == count_flagged(toks.deep_view(), toks@.len() as int),
        r.2 == count_flagged_user(
            toks.deep_view(),
            toks@.len() as int,
            white_is_user,
            black_is_user,
        ),
        r.2 <= r.1 <= toks@.len(),
{
    let ghost s = toks.deep_view();
    let mut out: Vec<HalfMoveToken> = Vec::new();
    let mut flagged_count: usize = 0;
    let mut played_count: usize = 0;
    let mut i: usize = 0;
    while i < toks.len()
        invariant
            i <= toks@.len(),
            s == toks.deep_view(),
            out@.len() == i,
            forall|j: int|
                0 <= j < i ==> {
                    &&& (#[trigger] out@[j]).index == j + 1
                    &&& out@[j].flagged == flagged_at(s, j)
                    &&& out@[j].text@ == scanned_text(s, j)
                },
            flagged_count == count_flagged(s, i as int),
            played_count == count_flagged_user(s, i as int, white_is_user, black_is_user),
            played_count <= flagged_count <= i,
        decreases toks@.len() - i,
    {
        let is_flagged: bool = if i == 0 {
            false
        } else {
            let prev: &Vec<char> = &toks[i - 1];
            let here: &Vec<char> = &toks[i];
            if prev.len() == 2 && (prev[1] == '4' || prev[1] == '5') {
                here.len() == 4 && here[1] == 'x' && here[2] == prev[0] && here[3] == (
                if prev[1] == '5' {
                    '6'
                } else {
                    '3'
                })
            } else {
                false
            }
        };
        assert(is_flagged == flagged_at(s, i as int));
        let mut text: Vec<char> = Vec::new();
        let mut k: usize = 0;
        while k < toks[i].len()
            invariant
                i < toks@.len(),
                k <= toks@[i as int]@.len(),
                text@ == toks@[i as int]@.take(k as int),
            decreases toks@[i as int]@.len() - k,
        {
            text.push(toks[i][k]);
            k += 1;
            assert(text@ =~= toks@[i as int]@.take(k as int));
        }
        proof {
            assert(text@ =~= s[i as int]);
        }
        if is_flagged {
            text.push(' ');
            text.push('e');
            text.push('.');
            text.push('p');
            text.push('.');
            proof {
                assert(text@ =~= s[i as int] + ep_suffix());
            }
            flagged_count = flagged_count + 1;
            if (i % 2 == 0 && white_is_user) || (i % 2 == 1 && black_is_user) {
                played_count = played_count + 1;
            }
        }
        out.push(HalfMoveToken { index: i + 1, text, flagged: is_flagged });
        i += 1;
    }
    (out, flagged_count, played_count)
}

} // verus!
