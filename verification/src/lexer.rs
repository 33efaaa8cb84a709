//! The lexer: from source text to tokens.
//!
//! A `#` starts a comment, which runs to the end of its line. Outside
//! comments, spaces, tabs and line feeds separate tokens, and every other
//! character is part of one. The lexer is a machine with two states that
//! reads the text once, from left to right; [`lex`] says what it hands out.

use crate::encoder::{encode_token, token_bytes};
use crate::error::{outcome, AssembleError};
use crate::opcodes::OpcodeTable;
use crate::text::{chars_of, is_space, is_word_char, space, string_of};
use vstd::prelude::*;

verus! {

/// The state of the lexer between two characters.
pub enum LexState {
    /// Inside a comment.
    InComment,
    /// Outside comments, with the characters of the token read so far; none
    /// where no token has begun.
    Scanning(Seq<char>),
}

/// The state in which the lexer starts: outside comments, no token begun.
pub open spec fn start() -> LexState {
    LexState::Scanning(Seq::empty())
}

/// The state after reading `c` in `state`.
pub open spec fn step(state: LexState, c: char) -> LexState {
    match state {
        LexState::InComment => if c == '\n' {
            start()
        } else {
            LexState::InComment
        },
        LexState::Scanning(pending) => if c == '#' {
            LexState::InComment
        } else if is_space(c) {
            start()
        } else {
            LexState::Scanning(pending.push(c))
        },
    }
}

/// The tokens that reading `c` in `state` completes: the pending token, if
/// there is one and `c` ends it.
pub open spec fn completed(state: LexState, c: char) -> Seq<Seq<char>> {
    match state {
        LexState::InComment => Seq::empty(),
        LexState::Scanning(pending) => if pending.len() > 0 && (c == '#' || is_space(c)) {
            seq![pending]
        } else {
            Seq::empty()
        },
    }
}

/// The tokens that the end of the text completes in `state`.
pub open spec fn completed_at_end(state: LexState) -> Seq<Seq<char>> {
    match state {
        LexState::InComment => Seq::empty(),
        LexState::Scanning(pending) => if pending.len() > 0 {
            seq![pending]
        } else {
            Seq::empty()
        },
    }
}

/// The tokens that the lexer hands out when it reads `s` from `state`.
pub open spec fn lex(s: Seq<char>, state: LexState) -> Seq<Seq<char>>
    decreases s.len(),
{
    if s.len() == 0 {
        completed_at_end(state)
    } else {
        completed(state, s[0]) + lex(s.skip(1), step(state, s[0]))
    }
}

/// The tokens of the source text `s`, in order.
pub open spec fn tokens(s: Seq<char>) -> Seq<Seq<char>> {
    lex(s, start())
}

/// A lexer over one source text, with the opcode table that its tokens are
/// encoded by. It hands out each token once.
pub struct Lexer<'a> {
    input: Vec<char>,
    current_position: usize,
    opcodes: &'a OpcodeTable,
}

impl<'a> Lexer<'a> {
    #[verifier::type_invariant]
    spec fn in_bounds(&self) -> bool {
        self.current_position <= self.input@.len()
    }

    /// The text that has not been read yet.
    pub closed spec fn unread(&self) -> Seq<char> {
        self.input@.skip(self.current_position as int)
    }

    /// The tokens that have not been handed out yet.
    pub open spec fn remaining(&self) -> Seq<Seq<char>> {
        tokens(self.unread())
    }

    /// The opcode table in use.
    pub closed spec fn table(&self) -> Map<Seq<char>, u8> {
        self.opcodes@
    }

    /// A lexer at the start of `input`.
    pub fn new(input: &str, opcodes: &'a OpcodeTable) -> (lexer: Lexer<'a>)
        ensures
            lexer.unread() == input@,
            lexer.remaining() == tokens(input@),
            lexer.table() == opcodes@,
    {
        let chars = chars_of(input);
        assert(chars@.skip(0) =~= chars@);
        Lexer { input: chars, current_position: 0, opcodes }
    }

    /// The next token, or `None` when the text holds no further token.
    pub fn next_token(&mut self) -> (token: Option<String>)
        ensures
            final(self).table() == old(self).table(),
            match token {
                Some(t) => old(self).remaining() == seq![t@] + final(self).remaining(),
                None => old(self).remaining().len() == 0 && final(self).remaining().len() == 0,
            },
    {
        proof {
            use_type_invariant(&*self);
        }
        let n = self.input.len();
        let ghost s = self.input@;
        let mut i = self.current_position;
        let mut in_comment = false;
        // Skip separators and comments.
        while i < n && (in_comment || !word_char(self.input[i]))
            invariant
                self.current_position <= i <= n,
                n == s.len(),
                self.input@ == s,
                lex(s.skip(self.current_position as int), start()) == lex(
                    s.skip(i as int),
                    if in_comment {
                        LexState::InComment
                    } else {
                        start()
                    },
                ),
            decreases n - i,
        {
            let c = self.input[i];
            assert(s.skip(i as int)[0] == c);
            assert(s.skip(i as int).skip(1) =~= s.skip(i + 1));
            in_comment = if in_comment {
                c != '\n'
            } else {
                c == '#'
            };
            i += 1;
        }
        if i >= n {
            self.current_position = n;
            assert(s.skip(n as int).len() == 0);
            return None;
        }
        // Read the token.
        let begin = i;
        assert(s.subrange(begin as int, begin as int) =~= Seq::empty());
        while i < n && word_char(self.input[i])
            invariant
                begin <= i <= n,
                n == s.len(),
                self.input@ == s,
                begin < n,
                is_word_char(s[begin as int]),
                lex(s.skip(begin as int), start()) == lex(
                    s.skip(i as int),
                    LexState::Scanning(s.subrange(begin as int, i as int)),
                ),
            decreases n - i,
        {
            assert(s.skip(i as int)[0] == s[i as int]);
            assert(s.skip(i as int).skip(1) =~= s.skip(i + 1));
            assert(s.subrange(begin as int, i as int).push(s[i as int]) =~= s.subrange(
                begin as int,
                i + 1,
            ));
            i += 1;
        }
        let token = string_of(&self.input, begin, i);
        proof {
            let rest = s.skip(i as int);
            if i < n {
                assert(rest[0] == s[i as int]);
                assert(step(LexState::Scanning(token@), rest[0]) == step(start(), rest[0]));
                assert(lex(rest, start()) == completed(start(), rest[0]) + lex(
                    rest.skip(1),
                    step(start(), rest[0]),
                ));
                assert(lex(rest, start()) =~= lex(rest.skip(1), step(start(), rest[0])));
            }
        }
        self.current_position = i;
        Some(token)
    }

    /// The bytes that `token` contributes, under the lexer's opcode table.
    pub fn parse_token(&self, token: &str) -> (r: Result<Vec<u8>, AssembleError>)
        ensures
            outcome(r) == token_bytes(self.table(), token@),
    {
        encode_token(self.opcodes, token)
    }
}

/// Whether `c` can stand inside a token.
pub(crate) fn word_char(c: char) -> (r: bool)
    ensures
        r == is_word_char(c),
{
    !space(c) && c != '#'
}

} // verus!
