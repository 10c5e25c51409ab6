//! Move-list extraction: turns one game's raw notation text into the ordered
//! sequence of sanitized half-move tokens, or rejects the game as not
//! analyzable.
//!
//! A text is rejected when it carries a variant marker (the game did not use
//! the ordinary rules) or lacks the start-of-movetext marker for the first
//! move (the game was aborted before any move). Otherwise the text after the
//! marker is split on whitespace; move-number markers, comment delimiters and
//! termination markers are dropped; promotion and check decorations are
//! stripped from the surviving tokens.

use vstd::prelude::*;

use crate::text::contains_at;
use crate::text::contains_seq;
use crate::text::first_occurrence;
use crate::text::lemma_first_occurrence;
use crate::text::find_first;
use crate::text::contains_pattern;
use crate::text::has_char;
use crate::text::chars_vec;
use crate::text::subvec;

verus! {

/// The start-of-movetext marker for the first move.
pub open spec fn ply1_mark() -> Seq<char> {
    seq!['\n', '1', '.', ' ']
}

/// The tag that marks a game of a non-standard variant.
pub open spec fn variant_mark() -> Seq<char> {
    seq!['[', 'V', 'a', 'r', 'i', 'a', 'n', 't', ' ']
}

/// Termination marker: the first side won.
pub open spec fn white_win_mark() -> Seq<char> {
    seq!['1', '-', '0']
}

/// Termination marker: the second side won.
pub open spec fn black_win_mark() -> Seq<char> {
    seq!['0', '-', '1']
}

/// Termination marker: a draw.
pub open spec fn draw_mark() -> Seq<char> {
    seq!['1', '/', '2', '-', '1', '/', '2']
}

/// The characters the tokenizer splits on: the Unicode whitespace set, as
/// `char::is_whitespace` decides it.
pub open spec fn is_ws(c: char) -> bool {
    ||| c == '\u{0009}'
    ||| c == '\u{000A}'
    ||| c == '\u{000B}'
    ||| c == '\u{000C}'
    ||| c == '\u{000D}'
    ||| c == ' '
    ||| c == '\u{0085}'
    ||| c == '\u{00A0}'
    ||| c == '\u{1680}'
    ||| c == '\u{2000}'
    ||| c == '\u{2001}'
    ||| c == '\u{2002}'
    ||| c == '\u{2003}'
    ||| c == '\u{2004}'
    ||| c == '\u{2005}'
    ||| c == '\u{2006}'
    ||| c == '\u{2007}'
    ||| c == '\u{2008}'
    ||| c == '\u{2009}'
    ||| c == '\u{200A}'
    ||| c == '\u{2028}'
    ||| c == '\u{2029}'
    ||| c == '\u{202F}'
    ||| c == '\u{205F}'
    ||| c == '\u{3000}'
}

/// Decides tokenizer whitespace.
pub fn is_ws_char(c: char) -> (r: bool)
    ensures
        r == is_ws(c),
{
    c == '\u{0009}' || c == '\u{000A}' || c == '\u{000B}' || c == '\u{000C}' || c == '\u{000D}'
        || c == ' ' || c == '\u{0085}' || c == '\u{00A0}' || c == '\u{1680}' || c == '\u{2000}'
        || c == '\u{2001}' || c == '\u{2002}' || c == '\u{2003}' || c == '\u{2004}' || c
        == '\u{2005}' || c == '\u{2006}' || c == '\u{2007}' || c == '\u{2008}' || c == '\u{2009}'
        || c == '\u{200A}' || c == '\u{2028}' || c == '\u{2029}' || c == '\u{202F}' || c
        == '\u{205F}' || c == '\u{3000}'
}

/// State of a left-to-right whitespace split of `s`: the finished tokens and
/// the token still being collected.
pub open spec fn split_ws_state(s: Seq<char>) -> (Seq<Seq<char>>, Seq<char>)
    decreases s.len(),
{
    if s.len() == 0 {
        (Seq::empty(), Seq::empty())
    } else {
        let st = split_ws_state(s.drop_last());
        if is_ws(s.last()) {
            if st.1.len() == 0 {
                (st.0, Seq::empty())
            } else {
                (st.0.push(st.1), Seq::empty())
            }
        } else {
            (st.0, st.1.push(s.last()))
        }
    }
}

/// The whitespace-separated tokens of `s`, in order.
pub open spec fn split_ws(s: Seq<char>) -> Seq<Seq<char>> {
    let st = split_ws_state(s);
    if st.1.len() == 0 {
        st.0
    } else {
        st.0.push(st.1)
    }
}

/// A token survives the filter when it is no move-number marker, no comment
/// delimiter and no termination marker.
pub open spec fn keep_token(t: Seq<char>) -> bool {
    &&& !t.contains('.')
    &&& !t.contains('{')
    &&& !t.contains('}')
    &&& !contains_seq(t, white_win_mark())
    &&& !contains_seq(t, black_win_mark())
    &&& !contains_seq(t, draw_mark())
}

/// The tokens of `s` that survive the filter, in order.
pub open spec fn keep_tokens(s: Seq<Seq<char>>) -> Seq<Seq<char>>
    decreases s.len(),
{
    if s.len() == 0 {
        Seq::empty()
    } else {
        let r = keep_tokens(s.drop_last());
        if keep_token(s.last()) {
            r.push(s.last())
        } else {
            r
        }
    }
}

/// `t` without promotion markers and check decorations.
pub open spec fn strip_marks(t: Seq<char>) -> Seq<char>
    decreases t.len(),
{
    if t.len() == 0 {
        Seq::empty()
    } else {
        let r = strip_marks(t.drop_last());
        if t.last() == '=' || t.last() == '+' {
            r
        } else {
            r.push(t.last())
        }
    }
}

/// `strip_marks`, applied to each token.
pub open spec fn strip_all(s: Seq<Seq<char>>) -> Seq<Seq<char>>
    decreases s.len(),
{
    if s.len() == 0 {
        Seq::empty()
    } else {
        strip_all(s.drop_last()).push(strip_marks(s.last()))
    }
}

/// What extraction yields on a notation text: `None` when the text carries a
/// variant marker or lacks the first-move marker, else the sanitized tokens
/// of the text after the first first-move marker.
pub open spec fn extract_spec(text: Seq<char>) -> Option<Seq<Seq<char>>> {
    if contains_seq(text, variant_mark()) {
        None
    } else if !contains_seq(text, ply1_mark()) {
        None
    } else {
        let start = first_occurrence(text, ply1_mark()) + ply1_mark().len();
        Some(strip_all(keep_tokens(split_ws(text.subrange(start as int, text.len() as int)))))
    }
}

/// No character of `t` is tokenizer whitespace.
pub open spec fn ws_free(t: Seq<char>) -> bool {
    forall|k: int| 0 <= k < t.len() ==> !is_ws(#[trigger] t[k])
}

/// What always holds of a token the extractor emits: no whitespace, no
/// move-number or comment characters, no promotion or check decorations.
pub open spec fn token_sanitized(t: Seq<char>) -> bool {
    &&& ws_free(t)
    &&& !t.contains('.')
    &&& !t.contains('{')
    &&& !t.contains('}')
    &&& !t.contains('=')
    &&& !t.contains('+')
}

/// The tokens joined back into text with single separating blanks.
pub open spec fn join_sp(toks: Seq<Seq<char>>) -> Seq<char>
    decreases toks.len(),
{
    if toks.len() == 0 {
        Seq::empty()
    } else if toks.len() == 1 {
        toks[0]
    } else {
        join_sp(toks.drop_last()) + seq![' '] + toks.last()
    }
}

/// The joined tokens behind a fresh first-move marker: the text whose
/// re-extraction the idempotence law speaks about.
pub open spec fn rejoined(toks: Seq<Seq<char>>) -> Seq<char> {
    ply1_mark() + join_sp(toks)
}

/// `t` ends with `p`.
pub open spec fn ends_with(t: Seq<char>, p: Seq<char>) -> bool {
    t.len() >= p.len() && t.subrange(t.len() - p.len(), t.len() as int) == p
}

/// The variant marker without its trailing blank.
pub open spec fn variant_head() -> Seq<char> {
    seq!['[', 'V', 'a', 'r', 'i', 'a', 'n', 't']
}

/// A character missing from `t` is missing from every prefix of `t`.
proof fn lemma_contains_drop_last(t: Seq<char>, c: char)
    requires
        t.len() > 0,
        !t.contains(c),
    ensures
        !t.drop_last().contains(c),
        t.last() != c,
{
    if t.drop_last().contains(c) {
        let k = choose|k: int| 0 <= k < t.drop_last().len() && t.drop_last()[k] == c;
        assert(t[k] == c);
    }
    assert(t[t.len() - 1] == t.last());
}

/// Stripping decorations from a decoration-free token changes nothing.
proof fn lemma_strip_marks_identity(t: Seq<char>)
    requires
        !t.contains('='),
        !t.contains('+'),
    ensures
        strip_marks(t) == t,
    decreases t.len(),
{
    if t.len() == 0 {
        assert(strip_marks(t) =~= t);
    } else {
        lemma_contains_drop_last(t, '=');
        lemma_contains_drop_last(t, '+');
        lemma_strip_marks_identity(t.drop_last());
        assert(strip_marks(t) =~= t);
    }
}

/// A stripped token keeps every absence its source had and carries no
/// decoration of its own.
proof fn lemma_strip_marks_sanitized(t: Seq<char>)
    requires
        ws_free(t),
        !t.contains('.'),
        !t.contains('{'),
        !t.contains('}'),
    ensures
        token_sanitized(strip_marks(t)),
    decreases t.len(),
{
    if t.len() == 0 {
    } else {
        lemma_contains_drop_last(t, '.');
        lemma_contains_drop_last(t, '{');
        lemma_contains_drop_last(t, '}');
        assert(ws_free(t.drop_last())) by {
            assert(forall|k: int|
                0 <= k < t.drop_last().len() ==> t.drop_last()[k] == #[trigger] t[k]);
        }
        lemma_strip_marks_sanitized(t.drop_last());
        let r = strip_marks(t.drop_last());
        if !(t.last() == '=' || t.last() == '+') {
            assert(t[t.len() - 1] == t.last());
            assert(!is_ws(t.last()));
            assert(token_sanitized(r.push(t.last()))) by {
                if r.push(t.last()).contains('.') {
                    let k = choose|k: int|
                        0 <= k < r.push(t.last()).len() && r.push(t.last())[k] == '.';
                    assert(k == r.len() || r[k] == '.');
                }
                if r.push(t.last()).contains('{') {
                    let k = choose|k: int|
                        0 <= k < r.push(t.last()).len() && r.push(t.last())[k] == '{';
                    assert(k == r.len() || r[k] == '{');
                }
                if r.push(t.last()).contains('}') {
                    let k = choose|k: int|
                        0 <= k < r.push(t.last()).len() && r.push(t.last())[k] == '}';
                    assert(k == r.len() || r[k] == '}');
                }
                if r.push(t.last()).contains('=') {
                    let k = choose|k: int|
                        0 <= k < r.push(t.last()).len() && r.push(t.last())[k] == '=';
                    assert(k == r.len() || r[k] == '=');
                }
                if r.push(t.last()).contains('+') {
                    let k = choose|k: int|
                        0 <= k < r.push(t.last()).len() && r.push(t.last())[k] == '+';
                    assert(k == r.len() || r[k] == '+');
                }
            }
        }
    }
}

/// Every token the whitespace split finishes is nonempty and whitespace
/// free, and the token still being collected is whitespace free.
proof fn lemma_split_ws_state_wf(s: Seq<char>)
    ensures
        forall|j: int|
            0 <= j < split_ws_state(s).0.len() ==> (#[trigger] split_ws_state(s).0[j]).len() > 0
                && ws_free(split_ws_state(s).0[j]),
        ws_free(split_ws_state(s).1),
    decreases s.len(),
{
    if s.len() > 0 {
        lemma_split_ws_state_wf(s.drop_last());
        let st = split_ws_state(s.drop_last());
        if !is_ws(s.last()) {
            assert(ws_free(st.1.push(s.last()))) by {
                assert(forall|k: int| 0 <= k < st.1.len() ==> st.1.push(s.last())[k] == st.1[k]);
                assert(st.1.push(s.last())[st.1.len() as int] == s.last());
            }
        }
    }
}

/// Every token of the whitespace split is nonempty and whitespace free.
pub proof fn lemma_split_ws_wf(s: Seq<char>)
    ensures
        forall|j: int|
            0 <= j < split_ws(s).len() ==> (#[trigger] split_ws(s)[j]).len() > 0 && ws_free(
                split_ws(s)[j],
            ),
{
    lemma_split_ws_state_wf(s);
}

/// Filtering keeps only tokens that pass, and keeps their shape.
proof fn lemma_keep_tokens_prop(s: Seq<Seq<char>>)
    requires
        forall|j: int| 0 <= j < s.len() ==> (#[trigger] s[j]).len() > 0 && ws_free(s[j]),
    ensures
        forall|j: int|
            0 <= j < keep_tokens(s).len() ==> (#[trigger] keep_tokens(s)[j]).len() > 0 && ws_free(
                keep_tokens(s)[j],
            ) && keep_token(keep_tokens(s)[j]),
    decreases s.len(),
{
    if s.len() > 0 {
        assert(forall|j: int| 0 <= j < s.drop_last().len() ==> s.drop_last()[j] == #[trigger] s[j]);
        lemma_keep_tokens_prop(s.drop_last());
        let r = keep_tokens(s.drop_last());
        if keep_token(s.last()) {
            assert(s[s.len() - 1] == s.last());
            assert(forall|j: int| 0 <= j < r.len() ==> r.push(s.last())[j] == #[trigger] r[j]);
            assert(r.push(s.last())[r.len() as int] == s.last());
        }
    }
}

/// Filtering a list whose tokens all pass changes nothing.
proof fn lemma_keep_tokens_identity(s: Seq<Seq<char>>)
    requires
        forall|j: int| 0 <= j < s.len() ==> keep_token(#[trigger] s[j]),
    ensures
        keep_tokens(s) == s,
    decreases s.len(),
{
    if s.len() == 0 {
        assert(keep_tokens(s) =~= s);
    } else {
        assert(forall|j: int| 0 <= j < s.drop_last().len() ==> s.drop_last()[j] == #[trigger] s[j]);
        lemma_keep_tokens_identity(s.drop_last());
        assert(s[s.len() - 1] == s.last());
        assert(keep_tokens(s) =~= s);
    }
}

/// Stripping a list of decoration-free tokens changes nothing.
proof fn lemma_strip_all_identity(s: Seq<Seq<char>>)
    requires
        forall|j: int|
            0 <= j < s.len() ==> !(#[trigger] s[j]).contains('=') && !s[j].contains('+'),
    ensures
        strip_all(s) == s,
    decreases s.len(),
{
    if s.len() == 0 {
        assert(strip_all(s) =~= s);
    } else {
        assert(forall|j: int| 0 <= j < s.drop_last().len() ==> s.drop_last()[j] == #[trigger] s[j]);
        lemma_strip_all_identity(s.drop_last());
        assert(s[s.len() - 1] == s.last());
        lemma_strip_marks_identity(s.last());
        assert(strip_all(s) =~= s);
    }
}

/// Every token the extractor emits is sanitized: free of whitespace,
/// move-number and comment characters, and decorations.
pub proof fn lemma_extract_output_sanitized(text: Seq<char>)
    requires
        extract_spec(text) is Some,
    ensures
        forall|j: int|
            0 <= j < extract_spec(text).unwrap().len() ==> token_sanitized(
                #[trigger] extract_spec(text).unwrap()[j],
            ),
{
    let start = first_occurrence(text, ply1_mark()) + ply1_mark().len();
    let tail = text.subrange(start as int, text.len() as int);
    let split = split_ws(tail);
    let kept = keep_tokens(split);
    lemma_split_ws_wf(tail);
    lemma_keep_tokens_prop(split);
    lemma_strip_all_len(kept);
    assert forall|j: int| 0 <= j < strip_all(kept).len() implies token_sanitized(
        #[trigger] strip_all(kept)[j],
    ) by {
        lemma_strip_all_index(kept, j);
        lemma_strip_marks_sanitized(kept[j]);
    }
}

/// `strip_all` works tokenwise.
proof fn lemma_strip_all_index(s: Seq<Seq<char>>, j: int)
    requires
        0 <= j < s.len(),
    ensures
        strip_all(s).len() == s.len(),
        strip_all(s)[j] == strip_marks(s[j]),
    decreases s.len(),
{
    if j < s.len() - 1 {
        assert(s.drop_last()[j] == s[j]);
        lemma_strip_all_index(s.drop_last(), j);
    } else {
        assert(s[s.len() - 1] == s.last());
        lemma_strip_all_len(s.drop_last());
    }
}

/// `strip_all` keeps the length.
proof fn lemma_strip_all_len(s: Seq<Seq<char>>)
    ensures
        strip_all(s).len() == s.len(),
    decreases s.len(),
{
    if s.len() > 0 {
        lemma_strip_all_len(s.drop_last());
    }
}

/// Appending whitespace-free characters only grows the collected token.
proof fn lemma_state_append_word(a: Seq<char>, t: Seq<char>)
    requires
        ws_free(t),
    ensures
        split_ws_state(a + t).0 == split_ws_state(a).0,
        split_ws_state(a + t).1 == split_ws_state(a).1 + t,
    decreases t.len(),
{
    if t.len() == 0 {
        assert(a + t =~= a);
        assert(split_ws_state(a).1 + t =~= split_ws_state(a).1);
    } else {
        assert(ws_free(t.drop_last())) by {
            assert(forall|k: int|
                0 <= k < t.drop_last().len() ==> t.drop_last()[k] == #[trigger] t[k]);
        }
        lemma_state_append_word(a, t.drop_last());
        let s = a + t;
        assert(s.drop_last() =~= a + t.drop_last());
        assert(s.last() == t[t.len() - 1]);
        assert(!is_ws(s.last()));
        assert(split_ws_state(s).1 =~= split_ws_state(a).1 + t);
    }
}

/// The split of the joined tokens, mid-run: all but the last are finished,
/// the last is still being collected.
proof fn lemma_join_state(toks: Seq<Seq<char>>)
    requires
        toks.len() >= 1,
        forall|j: int| 0 <= j < toks.len() ==> (#[trigger] toks[j]).len() > 0 && ws_free(toks[j]),
    ensures
        split_ws_state(join_sp(toks)).0 == toks.drop_last(),
        split_ws_state(join_sp(toks)).1 == toks.last(),
    decreases toks.len(),
{
    if toks.len() == 1 {
        assert(Seq::<char>::empty() + toks[0] =~= toks[0]);
        lemma_state_append_word(Seq::<char>::empty(), toks[0]);
        assert(split_ws_state(join_sp(toks)).0 =~= toks.drop_last());
        assert(split_ws_state(join_sp(toks)).1 =~= Seq::<char>::empty() + toks[0]);
        assert(Seq::<char>::empty() + toks[0] =~= toks.last());
    } else {
        let front = toks.drop_last();
        assert(forall|j: int| 0 <= j < front.len() ==> front[j] == #[trigger] toks[j]);
        lemma_join_state(front);
        let jf = join_sp(front);
        let b = jf.push(' ');
        assert(b.drop_last() =~= jf);
        assert(b.last() == ' ');
        assert(front.last().len() > 0);
        assert(split_ws_state(b).0 == split_ws_state(jf).0.push(split_ws_state(jf).1));
        assert(split_ws_state(b).0 =~= front);
        assert(split_ws_state(b).1 =~= Seq::<char>::empty());
        assert(join_sp(toks) =~= b + toks.last());
        lemma_state_append_word(b, toks.last());
        assert(split_ws_state(join_sp(toks)).0 == split_ws_state(b).0);
        assert(split_ws_state(b).1 + toks.last() =~= toks.last());
    }
}

/// Splitting the joined tokens gives the tokens back.
pub proof fn lemma_split_join(toks: Seq<Seq<char>>)
    requires
        forall|j: int| 0 <= j < toks.len() ==> (#[trigger] toks[j]).len() > 0 && ws_free(toks[j]),
    ensures
        split_ws(join_sp(toks)) == toks,
{
    if toks.len() == 0 {
        assert(split_ws(join_sp(toks)) =~= toks);
    } else {
        lemma_join_state(toks);
        assert(toks.last().len() > 0);
        assert(split_ws(join_sp(toks)) =~= toks.drop_last().push(toks.last()));
        assert(toks.drop_last().push(toks.last()) =~= toks);
    }
}

/// The joined text ends with the last token; with two or more tokens a
/// separating blank stands right before it.
proof fn lemma_join_ends_with_last(ts: Seq<Seq<char>>)
    requires
        ts.len() >= 1,
    ensures
        join_sp(ts).len() >= ts.last().len(),
        join_sp(ts).subrange(
            join_sp(ts).len() - ts.last().len(),
            join_sp(ts).len() as int,
        ) == ts.last(),
        ts.len() >= 2 ==> join_sp(ts).len() >= ts.last().len() + 1 && join_sp(ts)[join_sp(
            ts,
        ).len() - ts.last().len() - 1] == ' ',
{
    let join = join_sp(ts);
    if ts.len() == 1 {
        assert(join == ts[0]);
        assert(join.subrange(join.len() - ts.last().len(), join.len() as int) =~= ts.last());
    } else {
        assert(join.subrange(join.len() - ts.last().len(), join.len() as int) =~= ts.last());
    }
}

/// The joined tokens never carry the variant marker: the marker ends in a
/// blank, every blank of the join separates two tokens, and no token that a
/// separator follows ends with the marker's head.
proof fn lemma_join_no_variant(toks: Seq<Seq<char>>)
    requires
        forall|j: int| 0 <= j < toks.len() ==> (#[trigger] toks[j]).len() > 0 && ws_free(toks[j]),
        forall|j: int| 0 <= j < toks.len() - 1 ==> !ends_with(#[trigger] toks[j], variant_head()),
    ensures
        !contains_seq(join_sp(toks), variant_mark()),
    decreases toks.len(),
{
    let vm = variant_mark();
    let vh = variant_head();
    let join = join_sp(toks);
    assert(vm[0] == '[' && vm[1] == 'V' && vm[2] == 'a' && vm[3] == 'r' && vm[4] == 'i' && vm[5]
        == 'a' && vm[6] == 'n' && vm[7] == 't' && vm[8] == ' ');
    assert(vh[0] == '[' && vh[1] == 'V' && vh[2] == 'a' && vh[3] == 'r' && vh[4] == 'i' && vh[5]
        == 'a' && vh[6] == 'n' && vh[7] == 't');
    if contains_seq(join, vm) {
        let i = choose|i: int| contains_at(join, vm, i);
        assert(join.subrange(i, i + 9) == vm);
        assert(forall|k: int|
            0 <= k < 9 ==> #[trigger] join[i + k] == join.subrange(i, i + 9)[k]);
        if toks.len() == 0 {
            assert(false);
        } else if toks.len() == 1 {
            assert(join == toks[0]);
            assert(join[i + 8] == ' ');
            assert(is_ws(join[i + 8]));
            assert(false);
        } else {
            let front = toks.drop_last();
            assert(forall|j: int| 0 <= j < front.len() ==> front[j] == #[trigger] toks[j]);
            let jf = join_sp(front);
            let last = toks.last();
            let big = jf + seq![' '];
            assert(join == big + last);
            assert(big.len() == jf.len() + 1);
            assert(big[jf.len() as int] == ' ');
            assert(forall|k: int| 0 <= k < jf.len() ==> #[trigger] big[k] == jf[k]);
            let jl = jf.len() as int;
            if i + 9 <= jl {
                lemma_join_no_variant(front);
                assert(jf.subrange(i, i + 9) =~= join.subrange(i, i + 9));
                assert(contains_at(jf, vm, i));
                assert(false);
            } else if i >= jl + 1 {
                assert(join[i + 8] == last[i + 8 - jl - 1]);
                assert(is_ws(join[i + 8]));
                assert(false);
            } else {
                let o = jl - i;
                assert(0 <= o < 9);
                assert(join[jl] == ' ');
                assert(join[i + o] == vm[o]);
                if o < 8 {
                    assert(vm[o] != ' ');
                    assert(false);
                } else {
                    assert(i == jl - 8);
                    assert(jf.len() >= 8);
                    assert(jf.subrange(jl - 8, jl) =~= vh) by {
                        assert(forall|k: int|
                            0 <= k < 8 ==> #[trigger] jf[jl - 8 + k] == join[i + k]);
                    }
                    lemma_join_ends_with_last(front);
                    let fl = front.last().len() as int;
                    assert(fl > 0);
                    if fl >= 8 {
                        assert(ends_with(front.last(), vh)) by {
                            assert(front.last().subrange(fl - 8, fl) =~= vh) by {
                                assert(forall|k: int|
                                    0 <= k < fl ==> #[trigger] front.last()[k] == jf.subrange(
                                        jl - fl,
                                        jl,
                                    )[k]);
                            }
                        }
                        assert(front.last() == toks[toks.len() - 2]);
                        assert(false);
                    } else {
                        if front.len() == 1 {
                            assert(jf == front[0]);
                            assert(jf.len() == fl);
                            assert(false);
                        } else {
                            assert(jf[jl - fl - 1] == ' ');
                            assert(jf[jl - 8 + (7 - fl)] == vh[7 - fl]);
                            assert(vh[7 - fl] != ' ');
                            assert(false);
                        }
                    }
                }
            }
        }
    }
}

/// Re-extracting the extractor's own output, joined back into a text behind
/// a fresh first-move marker, yields the same token sequence. The law holds
/// of every sanitized, nonempty token sequence whose tokens carry no
/// termination marker inside them and, except for the last token, do not end
/// with the variant marker's head — the extractor's own filter would drop or
/// reject such tokens on the second pass.
pub proof fn lemma_extract_idempotent(toks: Seq<Seq<char>>)
    requires
        forall|j: int|
            0 <= j < toks.len() ==> token_sanitized(#[trigger] toks[j]) && toks[j].len() > 0,
        forall|j: int|
            0 <= j < toks.len() ==> !contains_seq(#[trigger] toks[j], white_win_mark())
                && !contains_seq(toks[j], black_win_mark()) && !contains_seq(toks[j], draw_mark()),
        forall|j: int| 0 <= j < toks.len() - 1 ==> !ends_with(#[trigger] toks[j], variant_head()),
    ensures
        extract_spec(rejoined(toks)) == Some(toks),
{
    let text = rejoined(toks);
    let vm = variant_mark();
    let mark = ply1_mark();
    assert(mark[0] == '\n' && mark[1] == '1' && mark[2] == '.' && mark[3] == ' ');
    assert(vm[0] == '[');
    assert(!contains_seq(text, vm)) by {
        lemma_join_no_variant(toks);
        if contains_seq(text, vm) {
            let i = choose|i: int| contains_at(text, vm, i);
            assert(text.subrange(i, i + 9) == vm);
            assert(forall|k: int|
                0 <= k < 9 ==> #[trigger] text[i + k] == text.subrange(i, i + 9)[k]);
            if i >= 4 {
                assert(join_sp(toks).subrange(i - 4, i + 5) =~= text.subrange(i, i + 9)) by {
                    assert(forall|k: int|
                        0 <= k < join_sp(toks).len() ==> #[trigger] join_sp(toks)[k] == text[k
                            + 4]);
                }
                assert(contains_at(join_sp(toks), vm, i - 4));
                assert(false);
            } else {
                assert(text[i] == mark[i]);
                assert(text[i] == '[');
                assert(false);
            }
        }
    }
    assert(contains_at(text, mark, 0)) by {
        assert(text.subrange(0, 4) =~= mark);
    }
    lemma_first_occurrence(text, mark, 0);
    let tail = text.subrange(4, text.len() as int);
    assert(tail =~= join_sp(toks));
    lemma_split_join(toks);
    assert(forall|j: int| 0 <= j < toks.len() ==> keep_token(#[trigger] toks[j]));
    lemma_keep_tokens_identity(toks);
    lemma_strip_all_identity(toks);
}

/// Re-tokenizing the extractor's own output is the identity: joining the
/// tokens extracted from a text back behind a fresh first-move marker and
/// extracting again yields the same sequence. The extractor itself
/// guarantees sanitized tokens; the three named conditions rule out the
/// degenerate outputs its own filter would treat differently on the second
/// pass — a token stripped to nothing, a token whose stripping uncovered a
/// termination marker, and a token that recreates the variant marker when a
/// blank follows it.
pub proof fn lemma_extract_retokenize(text: Seq<char>)
    requires
        extract_spec(text) is Some,
        forall|j: int|
            0 <= j < extract_spec(text).unwrap().len() ==> (#[trigger] extract_spec(
                text,
            ).unwrap()[j]).len() > 0,
        forall|j: int|
            0 <= j < extract_spec(text).unwrap().len() ==> !contains_seq(
                #[trigger] extract_spec(text).unwrap()[j],
                white_win_mark(),
            ) && !contains_seq(extract_spec(text).unwrap()[j], black_win_mark()) && !contains_seq(
                extract_spec(text).unwrap()[j],
                draw_mark(),
            ),
        forall|j: int|
            0 <= j < extract_spec(text).unwrap().len() - 1 ==> !ends_with(
                #[trigger] extract_spec(text).unwrap()[j],
                variant_head(),
            ),
    ensures
        extract_spec(rejoined(extract_spec(text).unwrap())) == Some(extract_spec(text).unwrap()),
{
    lemma_extract_output_sanitized(text);
    lemma_extract_idempotent(extract_spec(text).unwrap());
}

/// Splits `s` into its whitespace-separated tokens.
pub fn tokenize(s: &Vec<char>) -> (r: Vec<Vec<char>>)
    ensures
        r.deep_view() == split_ws(s@),
{
    let mut out: Vec<Vec<char>> = Vec::new();
    let mut cur: Vec<char> = Vec::new();
    let mut i: usize = 0;
    while i < s.len()
        invariant
            i <= s@.len(),
            out.deep_view() == split_ws_state(s@.take(i as int)).0,
            cur@ == split_ws_state(s@.take(i as int)).1,
        decreases s@.len() - i,
    {
        let ghost prev = out.deep_view();
        let c: char = s[i];
        if is_ws_char(c) {
            if cur.len() > 0 {
                out.push(cur);
                cur = Vec::new();
                proof {
                    assert(cur@ =~= Seq::<char>::empty());
                    assert(out.deep_view() =~= prev.push(out@[out@.len() - 1].deep_view()));
                    assert(out@[out@.len() - 1].deep_view() =~= split_ws_state(
                        s@.take(i as int),
                    ).1);
                }
            }
        } else {
            cur.push(c);
        }
        i += 1;
        proof {
            assert(s@.take(i as int).drop_last() =~= s@.take(i as int - 1));
            assert(s@.take(i as int).last() == s@[i as int - 1]);
        }
    }
    proof {
        assert(s@.take(s@.len() as int) =~= s@);
    }
    if cur.len() > 0 {
        let ghost prev = out.deep_view();
        out.push(cur);
        proof {
            assert(out.deep_view() =~= prev.push(out@[out@.len() - 1].deep_view()));
            assert(out@[out@.len() - 1].deep_view() =~= split_ws_state(s@).1);
        }
    }
    out
}

/// Decides whether one token survives the filter.
pub fn token_survives(t: &Vec<char>) -> (r: bool)
    ensures
        r == keep_token(t@),
{
    if has_char(t, '.') {
        return false;
    }
    if has_char(t, '{') {
        return false;
    }
    if has_char(t, '}') {
        return false;
    }
    let ww: Vec<char> = vec!['1', '-', '0'];
    let bw: Vec<char> = vec!['0', '-', '1'];
    let dr: Vec<char> = vec!['1', '/', '2', '-', '1', '/', '2'];
    proof {
        assert(ww@ =~= white_win_mark());
        assert(bw@ =~= black_win_mark());
        assert(dr@ =~= draw_mark());
    }
    if contains_pattern(t, &ww) {
        return false;
    }
    if contains_pattern(t, &bw) {
        return false;
    }
    if contains_pattern(t, &dr) {
        return false;
    }
    true
}

/// Drops the tokens the filter refuses.
pub fn filter_tokens(toks: &Vec<Vec<char>>) -> (r: Vec<Vec<char>>)
    ensures
        r.deep_view() == keep_tokens(toks.deep_view()),
{
    let mut out: Vec<Vec<char>> = Vec::new();
    let mut i: usize = 0;
    while i < toks.len()
        invariant
            i <= toks@.len(),
            out.deep_view() == keep_tokens(toks.deep_view().take(i as int)),
        decreases toks@.len() - i,
    {
        let ghost prev = out.deep_view();
        if token_survives(&toks[i]) {
            let mut copy: Vec<char> = Vec::new();
            let mut k: usize = 0;
            while k < toks[i].len()
                invariant
                    i < toks@.len(),
                    k <= toks@[i as int]@.len(),
                    copy@ == toks@[i as int]@.take(k as int),
                decreases toks@[i as int]@.len() - k,
            {
                copy.push(toks[i][k]);
                k += 1;
                assert(copy@ =~= toks@[i as int]@.take(k as int));
            }
            proof {
                assert(copy@ =~= toks@[i as int]@);
            }
            out.push(copy);
            proof {
                assert(out.deep_view() =~= prev.push(toks.deep_view()[i as int]));
            }
        }
        i += 1;
        proof {
            assert(toks.deep_view().take(i as int).drop_last() =~= toks.deep_view().take(
                i as int - 1,
            ));
            assert(toks.deep_view().take(i as int).last() == toks.deep_view()[i as int - 1]);
            assert(toks.deep_view()[i as int - 1] == toks@[i as int - 1]@);
        }
    }
    proof {
        assert(toks.deep_view().take(toks@.len() as int) =~= toks.deep_view());
    }
    out
}

/// Strips promotion markers and check decorations from one token.
pub fn strip_token(t: &Vec<char>) -> (r: Vec<char>)
    ensures
        r@ == strip_marks(t@),
{
    let mut out: Vec<char> = Vec::new();
    let mut i: usize = 0;
    while i < t.len()
        invariant
            i <= t@.len(),
            out@ == strip_marks(t@.take(i as int)),
        decreases t@.len() - i,
    {
        let c: char = t[i];
        if c != '=' && c != '+' {
            out.push(c);
        }
        i += 1;
        proof {
            assert(t@.take(i as int).drop_last() =~= t@.take(i as int - 1));
            assert(t@.take(i as int).last() == t@[i as int - 1]);
        }
    }
    proof {
        assert(t@.take(t@.len() as int) =~= t@);
    }
    out
}

/// Strips every token of the list.
pub fn strip_tokens(toks: &Vec<Vec<char>>) -> (r: Vec<Vec<char>>)
    ensures
        r.deep_view() == strip_all(toks.deep_view()),
{
    let mut out: Vec<Vec<char>> = Vec::new();
    let mut i: usize = 0;
    while i < toks.len()
        invariant
            i <= toks@.len(),
            out.deep_view() == strip_all(toks.deep_view().take(i as int)),
        decreases toks@.len() - i,
    {
        let ghost prev = out.deep_view();
        let stripped: Vec<char> = strip_token(&toks[i]);
        proof {
            assert(stripped.deep_view() =~= stripped@);
        }
        out.push(stripped);
        i += 1;
        proof {
            assert(toks.deep_view().take(i as int).drop_last() =~= toks.deep_view().take(
                i as int - 1,
            ));
            assert(toks.deep_view().take(i as int).last() == toks@[i as int - 1]@);
            assert(out.deep_view() =~= prev.push(strip_marks(toks@[i as int - 1]@)));
        }
    }
    proof {
        assert(toks.deep_view().take(toks@.len() as int) =~= toks.deep_view());
    }
    out
}

/// Extracts the sanitized half-move tokens of a notation text, or rejects the
/// text as not analyzable.
pub fn extract_moves(pgn: &str) -> (r: Option<Vec<Vec<char>>>)
    ensures
        r is Some <==> extract_spec(pgn@) is Some,
        r matches Some(v) ==> Some(v.deep_view()) == extract_spec(pgn@),
{
    let chars: Vec<char> = chars_vec(pgn);
    let variant: Vec<char> = vec!['[', 'V', 'a', 'r', 'i', 'a', 'n', 't', ' '];
    proof {
        assert(variant@ =~= variant_mark());
    }
    if contains_pattern(&chars, &variant) {
        return None;
    }
    let mark: Vec<char> = vec!['\n', '1', '.', ' '];
    proof {
        assert(mark@ =~= ply1_mark());
    }
    let start: usize = match find_first(&chars, &mark) {
        None => {
            return None;
        },
        Some(i) => i,
    };
    proof {
        lemma_first_occurrence(pgn@, ply1_mark(), start as int);
    }
    let n: usize = chars.len();
    assert(start + ply1_mark().len() <= n);
    let tail: Vec<char> = subvec(&chars, start + 4, n);
    let toks: Vec<Vec<char>> = tokenize(&tail);
    let kept: Vec<Vec<char>> = filter_tokens(&toks);
    let stripped: Vec<Vec<char>> = strip_tokens(&kept);
    Some(stripped)
}

} // verus!
