//! Tokens as pieces of the source text: the tokens are the runs of
//! characters that stand outside comments and are no separators, each run
//! as long as it can be, in the order in which they stand.

use crate::lexer::{completed, completed_at_end, start, step, tokens, LexState};
use crate::lexer_laws::{
    completed_within, ends_in_comment, lemma_completed_concat, lemma_lex_concat, lemma_read_one,
    lemma_state_after_is_comment, lemma_state_after_push, state_after,
};
use crate::text::is_word_char;
use vstd::prelude::*;

verus! {

/// Whether the character at `i` of `s` belongs to a token: it is neither a
/// separator nor a comment sign, and it does not stand in a comment.
pub open spec fn in_token(s: Seq<char>, i: int) -> bool {
    0 <= i < s.len() && is_word_char(s[i]) && !ends_in_comment(s.take(i))
}

/// Whether `s[from..to]` is a run of token characters that cannot be made
/// longer at either end.
pub open spec fn is_token_at(s: Seq<char>, from: int, to: int) -> bool {
    &&& 0 <= from < to <= s.len()
    &&& forall|i: int| from <= i < to ==> #[trigger] in_token(s, i)
    &&& !in_token(s, from - 1)
    &&& !in_token(s, to)
}

/// Whether `spans` gives, for each of `found` in order, the place where it
/// stands in `s` as a token, each place behind the one before.
pub open spec fn places_of(s: Seq<char>, spans: Seq<(int, int)>, found: Seq<Seq<char>>) -> bool {
    &&& spans.len() == found.len()
    &&& forall|k: int|
        0 <= k < spans.len() ==> is_token_at(s, (#[trigger] spans[k]).0, spans[k].1) && found[k]
            == s.subrange(spans[k].0, spans[k].1)
    &&& forall|j: int, k: int|
        0 <= j < k < spans.len() ==> (#[trigger] spans[j]).1 < (#[trigger] spans[k]).0
}

/// Whether `spans` holds every place where a token stands in `s` and ends
/// before `n`.
pub open spec fn all_places_before(s: Seq<char>, spans: Seq<(int, int)>, n: int) -> bool {
    forall|from: int, to: int|
        to < n && #[trigger] is_token_at(s, from, to) ==> spans.contains((from, to))
}

/// How many characters the token pending in `state` has.
spec fn pending_len(state: LexState) -> int {
    match state {
        LexState::InComment => 0,
        LexState::Scanning(pending) => pending.len() as int,
    }
}

/// Whether `state`, reached after the first `n` characters of `s`, holds as
/// its pending token the run of token characters that ends at `n`.
spec fn pending_is_run(s: Seq<char>, n: int, state: LexState) -> bool {
    let from = n - pending_len(state);
    &&& 0 <= from <= n
    &&& state matches LexState::Scanning(pending) ==> pending == s.subrange(from, n)
    &&& forall|i: int| from <= i < n ==> #[trigger] in_token(s, i)
    &&& !in_token(s, from - 1)
}

/// The tokens completed within the first `n` characters of `s` stand at
/// places that this proof gives; no other token of `s` ends before `n`; and
/// the pending token is the run that ends at `n`.
proof fn lemma_places_in_prefix(s: Seq<char>, n: int) -> (spans: Seq<(int, int)>)
    requires
        0 <= n <= s.len(),
    ensures
        places_of(s, spans, completed_within(s.take(n), start())),
        all_places_before(s, spans, n),
        pending_is_run(s, n, state_after(s.take(n), start())),
        forall|k: int|
            0 <= k < spans.len() ==> (#[trigger] spans[k]).1 < n - pending_len(
                state_after(s.take(n), start()),
            ),
    decreases n,
{
    if n == 0 {
        let spans = Seq::<(int, int)>::empty();
        assert(s.take(0).len() == 0);
        assert(s.subrange(0, 0) =~= Seq::<char>::empty());
        spans
    } else {
        let m = n - 1;
        let earlier = lemma_places_in_prefix(s, m);
        let text = s.take(m);
        let c = s[m];
        let state = state_after(text, start());
        let next = step(state, c);
        let found = completed_within(text, start());
        assert(s.take(n) =~= text.push(c));
        assert(s.take(n) =~= text + seq![c]);
        lemma_state_after_push(text, c, start());
        lemma_completed_concat(text, seq![c], start());
        lemma_read_one(c, state);
        assert(completed_within(s.take(n), start()) == found + completed(state, c));
        lemma_state_after_is_comment(text);
        let from = m - pending_len(state);
        assert(in_token(s, m) <==> (is_word_char(c) && state is Scanning));
        let spans = if completed(state, c).len() > 0 {
            earlier.push((from, m))
        } else {
            earlier
        };
        if completed(state, c).len() > 0 {
            assert(is_token_at(s, from, m));
            assert(spans[spans.len() - 1] == (from, m));
            assert forall|k: int| 0 <= k < spans.len() implies is_token_at(
                s,
                (#[trigger] spans[k]).0,
                spans[k].1,
            ) && (found + completed(state, c))[k] == s.subrange(spans[k].0, spans[k].1) by {
                if k < earlier.len() {
                    assert(spans[k] == earlier[k]);
                }
            }
            assert forall|j: int, k: int| 0 <= j < k < spans.len() implies (#[trigger] spans[j]).1
                < (#[trigger] spans[k]).0 by {
                assert(spans[j] == earlier[j]);
                if k < earlier.len() {
                    assert(spans[k] == earlier[k]);
                }
            }
        } else {
            assert(found + completed(state, c) =~= found);
        }
        assert forall|from2: int, to2: int|
            to2 < n && #[trigger] is_token_at(s, from2, to2) implies spans.contains(
            (from2, to2),
        ) by {
            if to2 < m {
                assert(earlier.contains((from2, to2)));
                let k = choose|k: int| 0 <= k < earlier.len() && earlier[k] == (from2, to2);
                assert(spans[k] == (from2, to2));
            } else {
                // The run ends at `m`, where the pending token ends.
                assert(in_token(s, to2 - 1));
                assert(!in_token(s, m));
                if from2 < from {
                    assert(in_token(s, from - 1));
                } else if from2 > from {
                    assert(in_token(s, from2 - 1));
                }
                assert(from2 == from);
                assert(completed(state, c).len() > 0);
                assert(spans[spans.len() - 1] == (from2, to2));
            }
        }
        if let LexState::Scanning(pending) = next {
            if is_word_char(c) {
                assert(pending =~= s.subrange(from, n));
            } else {
                assert(pending =~= s.subrange(n, n));
            }
        }
        assert forall|k: int| 0 <= k < spans.len() implies (#[trigger] spans[k]).1 < n
            - pending_len(next) by {
            if k < earlier.len() {
                assert(spans[k] == earlier[k]);
            }
        }
        spans
    }
}

/// The tokens of a text are its runs of token characters: this proof gives
/// the place of each token, the places follow one another in the text, each
/// is a run that cannot be made longer, and no such run is left out.
pub proof fn lemma_tokens_are_runs(s: Seq<char>) -> (spans: Seq<(int, int)>)
    ensures
        places_of(s, spans, tokens(s)),
        forall|from: int, to: int| #[trigger] is_token_at(s, from, to) ==> spans.contains((from, to)),
{
    let n = s.len() as int;
    let earlier = lemma_places_in_prefix(s, n);
    let none = Seq::<char>::empty();
    assert(s.take(n) =~= s);
    assert(s + none =~= s);
    lemma_lex_concat(s, none, start());
    let state = state_after(s, start());
    let found = completed_within(s, start());
    let from = n - pending_len(state);
    let spans = if completed_at_end(state).len() > 0 {
        earlier.push((from, n))
    } else {
        earlier
    };
    assert(tokens(s) == found + completed_at_end(state));
    if completed_at_end(state).len() > 0 {
        assert(is_token_at(s, from, n));
        assert(spans[spans.len() - 1] == (from, n));
        assert forall|k: int| 0 <= k < spans.len() implies is_token_at(
            s,
            (#[trigger] spans[k]).0,
            spans[k].1,
        ) && tokens(s)[k] == s.subrange(spans[k].0, spans[k].1) by {
            if k < earlier.len() {
                assert(spans[k] == earlier[k]);
            }
        }
        assert forall|j: int, k: int| 0 <= j < k < spans.len() implies (#[trigger] spans[j]).1 < (
        #[trigger] spans[k]).0 by {
            assert(spans[j] == earlier[j]);
            if k < earlier.len() {
                assert(spans[k] == earlier[k]);
            }
        }
    } else {
        assert(found + completed_at_end(state) =~= found);
    }
    assert forall|from2: int, to2: int| #[trigger] is_token_at(s, from2, to2) implies spans.contains(
        (from2, to2),
    ) by {
        if to2 < n {
            assert(earlier.contains((from2, to2)));
            let k = choose|k: int| 0 <= k < earlier.len() && earlier[k] == (from2, to2);
            assert(spans[k] == (from2, to2));
        } else {
            assert(in_token(s, to2 - 1));
            if from2 < from {
                assert(in_token(s, from - 1));
            } else if from2 > from {
                assert(in_token(s, from2 - 1));
            }
            assert(from2 == from);
            assert(completed_at_end(state).len() > 0);
            assert(spans[spans.len() - 1] == (from2, to2));
        }
    }
    spans
}

} // verus!
