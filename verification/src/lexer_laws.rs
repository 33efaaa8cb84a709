//! What holds of the tokens of every source text: how the lexer treats a
//! text made of two parts, what a token looks like, and that neither the
//! width of the white space between tokens nor the content of a comment
//! matters.

use crate::lexer::{completed, completed_at_end, lex, start, step, tokens, LexState};
use crate::text::{is_space, is_word, is_word_char};
use vstd::prelude::*;

verus! {

/// The state in which the lexer is after reading `s` from `state`.
pub open spec fn state_after(s: Seq<char>, state: LexState) -> LexState
    decreases s.len(),
{
    if s.len() == 0 {
        state
    } else {
        state_after(s.skip(1), step(state, s[0]))
    }
}

/// The tokens that the lexer completes while it reads `s` from `state`,
/// without those that only the end of the text would complete.
pub open spec fn completed_within(s: Seq<char>, state: LexState) -> Seq<Seq<char>>
    decreases s.len(),
{
    if s.len() == 0 {
        Seq::empty()
    } else {
        completed(state, s[0]) + completed_within(s.skip(1), step(state, s[0]))
    }
}

/// Whether every character of `s` is a space, a tab or a line feed.
pub open spec fn all_space(s: Seq<char>) -> bool {
    forall|i: int| 0 <= i < s.len() ==> is_space(#[trigger] s[i])
}

/// Whether `s` ends inside a comment: its last line holds a `#`.
pub open spec fn ends_in_comment(s: Seq<char>) -> bool {
    exists|i: int| 0 <= i < s.len() && #[trigger] s[i] == '#' && no_line_feed(s.skip(i + 1))
}

/// Whether `s` holds no line feed.
pub open spec fn no_line_feed(s: Seq<char>) -> bool {
    forall|i: int| 0 <= i < s.len() ==> #[trigger] s[i] != '\n'
}

/// Whether a token boundary lies between `before` and `after` when they are
/// joined: one of them is empty, or white space stands on either side, or
/// `after` begins with a comment.
pub open spec fn separated(before: Seq<char>, after: Seq<char>) -> bool {
    ||| before.len() == 0
    ||| after.len() == 0
    ||| is_space(before.last())
    ||| is_space(after[0])
    ||| after[0] == '#'
}

/// Reading `a + b` is reading `a`, then `b` from where `a` left the lexer.
pub proof fn lemma_state_after_concat(a: Seq<char>, b: Seq<char>, state: LexState)
    ensures
        state_after(a + b, state) == state_after(b, state_after(a, state)),
    decreases a.len(),
{
    if a.len() == 0 {
        assert(a + b =~= b);
    } else {
        assert((a + b).skip(1) =~= a.skip(1) + b);
        lemma_state_after_concat(a.skip(1), b, step(state, a[0]));
    }
}

/// The tokens completed within `a + b` are those completed within `a`, then
/// those completed within `b` from where `a` left the lexer.
pub proof fn lemma_completed_concat(a: Seq<char>, b: Seq<char>, state: LexState)
    ensures
        completed_within(a + b, state) == completed_within(a, state) + completed_within(
            b,
            state_after(a, state),
        ),
    decreases a.len(),
{
    if a.len() == 0 {
        assert(a + b =~= b);
    } else {
        assert((a + b).skip(1) =~= a.skip(1) + b);
        lemma_completed_concat(a.skip(1), b, step(state, a[0]));
        assert(completed_within(a + b, state) =~= completed_within(a, state) + completed_within(
            b,
            state_after(a, state),
        ));
    }
}

/// The tokens of `a + b` are those completed within `a`, then those of `b`
/// read from where `a` left the lexer.
pub proof fn lemma_lex_concat(a: Seq<char>, b: Seq<char>, state: LexState)
    ensures
        lex(a + b, state) == completed_within(a, state) + lex(b, state_after(a, state)),
    decreases a.len(),
{
    if a.len() == 0 {
        assert(a + b =~= b);
    } else {
        assert((a + b).skip(1) =~= a.skip(1) + b);
        lemma_lex_concat(a.skip(1), b, step(state, a[0]));
        assert(lex(a + b, state) =~= completed_within(a, state) + lex(b, state_after(a, state)));
    }
}

/// Reading the one character `c` is one step of the lexer.
pub proof fn lemma_read_one(c: char, state: LexState)
    ensures
        state_after(seq![c], state) == step(state, c),
        completed_within(seq![c], state) == completed(state, c),
{
    let one = seq![c];
    assert(one.len() == 1 && one[0] == c);
    assert(one.skip(1).len() == 0);
    assert(state_after(one.skip(1), step(state, c)) == step(state, c));
    assert(completed_within(one.skip(1), step(state, c)).len() == 0);
    assert(completed_within(one, state) =~= completed(state, c));
}

/// The state after `s` and one more character is one step from the state
/// after `s`.
pub proof fn lemma_state_after_push(s: Seq<char>, c: char, state: LexState)
    ensures
        state_after(s.push(c), state) == step(state_after(s, state), c),
{
    assert(s.push(c) =~= s + seq![c]);
    lemma_state_after_concat(s, seq![c], state);
    lemma_read_one(c, state_after(s, state));
}

/// Characters that are neither separators nor comment signs extend the
/// pending token and complete nothing.
pub proof fn lemma_read_word_chars(word: Seq<char>, pending: Seq<char>)
    requires
        forall|i: int| 0 <= i < word.len() ==> is_word_char(#[trigger] word[i]),
    ensures
        state_after(word, LexState::Scanning(pending)) == LexState::Scanning(pending + word),
        completed_within(word, LexState::Scanning(pending)).len() == 0,
    decreases word.len(),
{
    if word.len() == 0 {
        assert(pending + word =~= pending);
    } else {
        assert(is_word_char(word[0]));
        let rest = word.skip(1);
        assert forall|i: int| 0 <= i < rest.len() implies is_word_char(#[trigger] rest[i]) by {
            assert(rest[i] == word[i + 1]);
        }
        lemma_read_word_chars(rest, pending.push(word[0]));
        assert(pending.push(word[0]) + rest =~= pending + word);
    }
}

/// A run of white space outside comments completes the pending token, if
/// there is one, and leaves the lexer where it started.
pub proof fn lemma_read_spaces(gap: Seq<char>, pending: Seq<char>)
    requires
        all_space(gap),
        gap.len() > 0,
    ensures
        state_after(gap, LexState::Scanning(pending)) == start(),
        completed_within(gap, LexState::Scanning(pending)) == completed_at_end(
            LexState::Scanning(pending),
        ),
    decreases gap.len(),
{
    assert(is_space(gap[0]));
    let state = LexState::Scanning(pending);
    let rest = gap.skip(1);
    assert(step(state, gap[0]) == start());
    assert(completed(state, gap[0]) == completed_at_end(state));
    if rest.len() > 0 {
        assert forall|i: int| 0 <= i < rest.len() implies is_space(#[trigger] rest[i]) by {
            assert(rest[i] == gap[i + 1]);
        }
        lemma_read_spaces(rest, Seq::empty());
    }
    assert(state_after(rest, start()) == start());
    assert(completed_within(rest, start()).len() == 0);
    assert(state_after(gap, state) == state_after(rest, step(state, gap[0])));
    assert(completed_within(gap, state) =~= completed_at_end(state));
}

/// Inside a comment, text without a line feed completes nothing and leaves
/// the lexer inside the comment.
pub proof fn lemma_read_comment(comment: Seq<char>)
    requires
        no_line_feed(comment),
    ensures
        state_after(comment, LexState::InComment) == LexState::InComment,
        completed_within(comment, LexState::InComment).len() == 0,
    decreases comment.len(),
{
    if comment.len() > 0 {
        assert(comment[0] != '\n');
        let rest = comment.skip(1);
        assert forall|i: int| 0 <= i < rest.len() implies #[trigger] rest[i] != '\n' by {
            assert(rest[i] == comment[i + 1]);
        }
        lemma_read_comment(rest);
    }
}

/// The lexer is inside a comment after `s` exactly if `s` ends in one.
pub proof fn lemma_state_after_is_comment(s: Seq<char>)
    ensures
        state_after(s, start()) is InComment <==> ends_in_comment(s),
    decreases s.len(),
{
    if s.len() > 0 {
        let head = s.drop_last();
        let c = s.last();
        assert(s =~= head.push(c));
        lemma_state_after_is_comment(head);
        lemma_state_after_push(head, c, start());
        if ends_in_comment(s) {
            let i = choose|i: int|
                0 <= i < s.len() && #[trigger] s[i] == '#' && no_line_feed(s.skip(i + 1));
            if i < head.len() {
                let tail = s.skip(i + 1);
                assert(tail[tail.len() - 1] == c);
                assert(head[i] == '#');
                assert forall|k: int| 0 <= k < head.skip(i + 1).len() implies #[trigger] head.skip(
                    i + 1,
                )[k] != '\n' by {
                    assert(head.skip(i + 1)[k] == tail[k]);
                }
                assert(ends_in_comment(head));
            }
        }
        if c == '#' {
            let i = s.len() - 1;
            assert(s[i] == '#');
            assert(s.skip(i + 1).len() == 0);
            assert(ends_in_comment(s));
        } else if ends_in_comment(head) && c != '\n' {
            let i = choose|i: int|
                0 <= i < head.len() && #[trigger] head[i] == '#' && no_line_feed(head.skip(i + 1));
            assert(s[i] == '#');
            assert forall|k: int| 0 <= k < s.skip(i + 1).len() implies #[trigger] s.skip(i + 1)[k]
                != '\n' by {
                if k < head.skip(i + 1).len() {
                    assert(s.skip(i + 1)[k] == head.skip(i + 1)[k]);
                }
            }
            assert(ends_in_comment(s));
        }
    } else {
        assert(!ends_in_comment(s));
    }
}

/// A text that can be lexed as one token is lexed as one token.
pub proof fn lemma_tokens_of_word(word: Seq<char>)
    requires
        is_word(word),
    ensures
        tokens(word) == seq![word],
{
    let none = Seq::<char>::empty();
    lemma_read_word_chars(word, none);
    assert(word + none =~= word);
    lemma_lex_concat(word, none, start());
    assert(none + word =~= word);
    assert(tokens(word) =~= seq![word]);
}

/// Every token that the lexer completes while reading, from a state whose
/// pending token holds no separator, is a word.
proof fn lemma_lex_gives_words(s: Seq<char>, state: LexState)
    requires
        state matches LexState::Scanning(pending) ==> forall|i: int|
            0 <= i < pending.len() ==> is_word_char(#[trigger] pending[i]),
    ensures
        forall|k: int| 0 <= k < lex(s, state).len() ==> is_word(#[trigger] lex(s, state)[k]),
    decreases s.len(),
{
    if s.len() > 0 {
        let next = step(state, s[0]);
        if let LexState::Scanning(pending) = next {
            assert forall|i: int| 0 <= i < pending.len() implies is_word_char(
                #[trigger] pending[i],
            ) by {
                if let LexState::Scanning(earlier) = state {
                    if i < earlier.len() {
                        assert(pending[i] == earlier[i]);
                    }
                }
            }
        }
        lemma_lex_gives_words(s.skip(1), next);
        let first = completed(state, s[0]);
        let rest = lex(s.skip(1), next);
        assert forall|k: int| 0 <= k < lex(s, state).len() implies is_word(
            #[trigger] lex(s, state)[k],
        ) by {
            if k < first.len() {
                assert(lex(s, state)[k] == first[k]);
            } else {
                assert(lex(s, state)[k] == rest[k - first.len()]);
            }
        }
    }
}

/// Every token is a word: it is not empty and holds neither white space nor
/// a comment sign.
pub proof fn lemma_tokens_are_words(s: Seq<char>)
    ensures
        forall|k: int| 0 <= k < tokens(s).len() ==> is_word(#[trigger] tokens(s)[k]),
{
    lemma_lex_gives_words(s, start());
}

/// White space between tokens: a run of spaces, tabs and line feeds may be
/// put in, or taken out, at any place outside comments where a token
/// boundary lies without it, and the tokens stay the same.
pub proof fn lemma_tokens_ignore_space(before: Seq<char>, gap: Seq<char>, after: Seq<char>)
    requires
        all_space(gap),
        !ends_in_comment(before),
        separated(before, after),
    ensures
        tokens(before + gap + after) == tokens(before + after),
{
    if gap.len() == 0 {
        assert(before + gap + after =~= before + after);
    } else {
        lemma_state_after_is_comment(before);
        let state = state_after(before, start());
        let pending = state->Scanning_0;
        assert(before + gap + after =~= before + (gap + after));
        lemma_lex_concat(before, gap + after, start());
        lemma_lex_concat(gap, after, state);
        lemma_read_spaces(gap, pending);
        lemma_lex_concat(before, after, start());
        if before.len() > 0 && is_space(before.last()) {
            assert(before =~= before.drop_last().push(before.last()));
            lemma_state_after_push(before.drop_last(), before.last(), start());
            assert(state == start());
        }
        assert(lex(after, state) =~= completed_at_end(state) + lex(after, start()));
        assert(tokens(before + gap + after) =~= tokens(before + after));
    }
}

/// Two texts parted by white space, the first of which does not end inside
/// a comment, give the tokens of the first, then those of the second.
pub proof fn lemma_tokens_concat(before: Seq<char>, gap: Seq<char>, after: Seq<char>)
    requires
        all_space(gap),
        gap.len() > 0,
        !ends_in_comment(before),
    ensures
        tokens(before + gap + after) == tokens(before) + tokens(after),
{
    let none = Seq::<char>::empty();
    lemma_state_after_is_comment(before);
    let state = state_after(before, start());
    let pending = state->Scanning_0;
    assert(before + gap + after =~= before + (gap + after));
    assert(before + none =~= before);
    lemma_lex_concat(before, gap + after, start());
    lemma_lex_concat(gap, after, state);
    lemma_read_spaces(gap, pending);
    lemma_lex_concat(before, none, start());
    assert(tokens(before + gap + after) =~= tokens(before) + tokens(after));
}

/// Comments: the text of a comment, from its `#` to the end of its line, can
/// be taken out and the tokens stay the same, whatever the comment holds.
pub proof fn lemma_tokens_ignore_comment(before: Seq<char>, comment: Seq<char>, after: Seq<char>)
    requires
        no_line_feed(comment),
    ensures
        tokens(before + seq!['#'] + comment + seq!['\n'] + after) == tokens(
            before + seq!['\n'] + after,
        ),
{
    let sign = seq!['#'];
    let feed = seq!['\n'];
    let state = state_after(before, start());
    assert(before + sign + comment + feed + after =~= before + (sign + (comment + (feed + after))));
    assert(before + feed + after =~= before + (feed + after));
    lemma_lex_concat(before, sign + (comment + (feed + after)), start());
    lemma_lex_concat(sign, comment + (feed + after), state);
    lemma_lex_concat(comment, feed + after, LexState::InComment);
    lemma_read_comment(comment);
    lemma_lex_concat(feed, after, LexState::InComment);
    lemma_lex_concat(before, feed + after, start());
    lemma_lex_concat(feed, after, state);
    lemma_read_one('#', state);
    lemma_read_one('\n', state);
    lemma_read_one('\n', LexState::InComment);
    assert(state_after(sign, state) == LexState::InComment);
    assert(state_after(feed, state) == start());
    assert(state_after(feed, LexState::InComment) == start());
    assert(completed_within(sign, state) =~= completed_within(feed, state));
    assert(completed_within(feed, LexState::InComment) =~= Seq::empty());
    assert(tokens(before + sign + comment + feed + after) =~= tokens(before + feed + after));
}

/// A comment that the end of the text ends can be taken out as well.
pub proof fn lemma_tokens_ignore_last_comment(before: Seq<char>, comment: Seq<char>)
    requires
        no_line_feed(comment),
    ensures
        tokens(before + seq!['#'] + comment) == tokens(before),
{
    let sign = seq!['#'];
    let none = Seq::<char>::empty();
    let state = state_after(before, start());
    assert(before + sign + comment =~= before + (sign + comment));
    assert(before + none =~= before);
    assert(comment + none =~= comment);
    lemma_lex_concat(before, sign + comment, start());
    lemma_lex_concat(sign, comment, state);
    lemma_lex_concat(comment, none, LexState::InComment);
    lemma_read_comment(comment);
    lemma_lex_concat(before, none, start());
    lemma_read_one('#', state);
    assert(state_after(sign, state) == LexState::InComment);
    assert(completed_within(sign, state) =~= completed_at_end(state));
    assert(tokens(before + sign + comment) =~= tokens(before));
}

} // verus!
