//! Recognition of reserved words by a deterministic automaton.
//!
//! The automaton reads characters from the start of a word. State 0 is the
//! start, state 1 accepts, state 2 rejects; every other state stands for one
//! proper prefix of a reserved word.
use crate::scanner::token::TokenType;
use vstd::prelude::*;
use vstd::std_specs::iter::IteratorSpec;

verus! {

/// Whether `s` begins with the characters of `word`.
pub open spec fn begins(s: Seq<char>, word: Seq<char>) -> bool {
    word.is_prefix_of(s)
}

/// The length of the reserved word that `s` begins with, `None` where it begins
/// with none. No reserved word begins another, so at most one applies.
pub open spec fn keyword_prefix(s: Seq<char>) -> Option<usize> {
    if begins(s, "and"@) {
        Some(3usize)
    } else if begins(s, "class"@) {
        Some(5usize)
    } else if begins(s, "else"@) {
        Some(4usize)
    } else if begins(s, "false"@) {
        Some(5usize)
    } else if begins(s, "for"@) {
        Some(3usize)
    } else if begins(s, "fun"@) {
        Some(3usize)
    } else if begins(s, "if"@) {
        Some(2usize)
    } else if begins(s, "nil"@) {
        Some(3usize)
    } else if begins(s, "or"@) {
        Some(2usize)
    } else if begins(s, "print"@) {
        Some(5usize)
    } else if begins(s, "return"@) {
        Some(6usize)
    } else if begins(s, "super"@) {
        Some(5usize)
    } else if begins(s, "this"@) {
        Some(4usize)
    } else if begins(s, "true"@) {
        Some(4usize)
    } else if begins(s, "var"@) {
        Some(3usize)
    } else if begins(s, "while"@) {
        Some(5usize)
    } else {
        None
    }
}

/// `keyword_prefix`, character by character.
spec fn prefix_by_chars(s: Seq<char>) -> Option<usize> {
    if s.len() >= 3 && s[0] == 'a' && s[1] == 'n' && s[2] == 'd' {
        Some(3usize)
    } else if s.len() >= 5 && s[0] == 'c' && s[1] == 'l' && s[2] == 'a' && s[3] == 's' && s[4] == 's' {
        Some(5usize)
    } else if s.len() >= 4 && s[0] == 'e' && s[1] == 'l' && s[2] == 's' && s[3] == 'e' {
        Some(4usize)
    } else if s.len() >= 5 && s[0] == 'f' && s[1] == 'a' && s[2] == 'l' && s[3] == 's' && s[4] == 'e' {
        Some(5usize)
    } else if s.len() >= 3 && s[0] == 'f' && s[1] == 'o' && s[2] == 'r' {
        Some(3usize)
    } else if s.len() >= 3 && s[0] == 'f' && s[1] == 'u' && s[2] == 'n' {
        Some(3usize)
    } else if s.len() >= 2 && s[0] == 'i' && s[1] == 'f' {
        Some(2usize)
    } else if s.len() >= 3 && s[0] == 'n' && s[1] == 'i' && s[2] == 'l' {
        Some(3usize)
    } else if s.len() >= 2 && s[0] == 'o' && s[1] == 'r' {
        Some(2usize)
    } else if s.len() >= 5 && s[0] == 'p' && s[1] == 'r' && s[2] == 'i' && s[3] == 'n' && s[4] == 't' {
        Some(5usize)
    } else if s.len() >= 6 && s[0] == 'r' && s[1] == 'e' && s[2] == 't' && s[3] == 'u' && s[4] == 'r' && s[5] == 'n' {
        Some(6usize)
    } else if s.len() >= 5 && s[0] == 's' && s[1] == 'u' && s[2] == 'p' && s[3] == 'e' && s[4] == 'r' {
        Some(5usize)
    } else if s.len() >= 4 && s[0] == 't' && s[1] == 'h' && s[2] == 'i' && s[3] == 's' {
        Some(4usize)
    } else if s.len() >= 4 && s[0] == 't' && s[1] == 'r' && s[2] == 'u' && s[3] == 'e' {
        Some(4usize)
    } else if s.len() >= 3 && s[0] == 'v' && s[1] == 'a' && s[2] == 'r' {
        Some(3usize)
    } else if s.len() >= 5 && s[0] == 'w' && s[1] == 'h' && s[2] == 'i' && s[3] == 'l' && s[4] == 'e' {
        Some(5usize)
    } else {
        None
    }
}

/// A word is a prefix of `s` exactly when `s` is long enough and agrees with it
/// at every index.
proof fn lemma_begins(s: Seq<char>, word: Seq<char>)
    ensures
        begins(s, word) <==> (word.len() <= s.len() && forall|j: int|
            0 <= j < word.len() ==> s[j] == word[j]),
{
    if word.len() <= s.len() {
        if begins(s, word) {
            assert forall|j: int| 0 <= j < word.len() implies s[j] == word[j] by {
                assert(s.subrange(0, word.len() as int)[j] == s[j]);
            }
        }
        if forall|j: int| 0 <= j < word.len() ==> s[j] == word[j] {
            assert(word =~= s.subrange(0, word.len() as int));
        }
    }
}

proof fn lemma_prefix_by_chars(s: Seq<char>)
    ensures
        keyword_prefix(s) == prefix_by_chars(s),
{
    reveal_strlit("and");
    lemma_begins(s, "and"@);
    reveal_strlit("class");
    lemma_begins(s, "class"@);
    reveal_strlit("else");
    lemma_begins(s, "else"@);
    reveal_strlit("false");
    lemma_begins(s, "false"@);
    reveal_strlit("for");
    lemma_begins(s, "for"@);
    reveal_strlit("fun");
    lemma_begins(s, "fun"@);
    reveal_strlit("if");
    lemma_begins(s, "if"@);
    reveal_strlit("nil");
    lemma_begins(s, "nil"@);
    reveal_strlit("or");
    lemma_begins(s, "or"@);
    reveal_strlit("print");
    lemma_begins(s, "print"@);
    reveal_strlit("return");
    lemma_begins(s, "return"@);
    reveal_strlit("super");
    lemma_begins(s, "super"@);
    reveal_strlit("this");
    lemma_begins(s, "this"@);
    reveal_strlit("true");
    lemma_begins(s, "true"@);
    reveal_strlit("var");
    lemma_begins(s, "var"@);
    reveal_strlit("while");
    lemma_begins(s, "while"@);
}

/// The transition table: the state that follows `state` on reading `t`.
pub open spec fn transition(state: u8, t: char) -> u8 {
    if state == 0 {
        if t == 'a' {
            3
        } else if t == 'c' {
            5
        } else if t == 'e' {
            9
        } else if t == 'f' {
            12
        } else if t == 'i' {
            18
        } else if t == 'n' {
            19
        } else if t == 'o' {
            21
        } else if t == 'p' {
            22
        } else if t == 'r' {
            26
        } else if t == 's' {
            31
        } else if t == 't' {
            35
        } else if t == 'v' {
            40
        } else if t == 'w' {
            42
        } else {
            2
        }
    } else if state == 3 {
        if t == 'n' {
            4
        } else {
            2
        }
    } else if state == 4 {
        if t == 'd' {
            1
        } else {
            2
        }
    } else if state == 5 {
        if t == 'l' {
            6
        } else {
            2
        }
    } else if state == 6 {
        if t == 'a' {
            7
        } else {
            2
        }
    } else if state == 7 {
        if t == 's' {
            8
        } else {
            2
        }
    } else if state == 8 {
        if t == 's' {
            1
        } else {
            2
        }
    } else if state == 9 {
        if t == 'l' {
            10
        } else {
            2
        }
    } else if state == 10 {
        if t == 's' {
            11
        } else {
            2
        }
    } else if state == 11 {
        if t == 'e' {
            1
        } else {
            2
        }
    } else if state == 12 {
        if t == 'a' {
            13
        } else if t == 'o' {
            16
        } else if t == 'u' {
            17
        } else {
            2
        }
    } else if state == 13 {
        if t == 'l' {
            14
        } else {
            2
        }
    } else if state == 14 {
        if t == 's' {
            15
        } else {
            2
        }
    } else if state == 15 {
        if t == 'e' {
            1
        } else {
            2
        }
    } else if state == 16 {
        if t == 'r' {
            1
        } else {
            2
        }
    } else if state == 17 {
        if t == 'n' {
            1
        } else {
            2
        }
    } else if state == 18 {
        if t == 'f' {
            1
        } else {
            2
        }
    } else if state == 19 {
        if t == 'i' {
            20
        } else {
            2
        }
    } else if state == 20 {
        if t == 'l' {
            1
        } else {
            2
        }
    } else if state == 21 {
        if t == 'r' {
            1
        } else {
            2
        }
    } else if state == 22 {
        if t == 'r' {
            23
        } else {
            2
        }
    } else if state == 23 {
        if t == 'i' {
            24
        } else {
            2
        }
    } else if state == 24 {
        if t == 'n' {
            25
        } else {
            2
        }
    } else if state == 25 {
        if t == 't' {
            1
        } else {
            2
        }
    } else if state == 26 {
        if t == 'e' {
            27
        } else {
            2
        }
    } else if state == 27 {
        if t == 't' {
            28
        } else {
            2
        }
    } else if state == 28 {
        if t == 'u' {
            29
        } else {
            2
        }
    } else if state == 29 {
        if t == 'r' {
            30
        } else {
            2
        }
    } else if state == 30 {
        if t == 'n' {
            1
        } else {
            2
        }
    } else if state == 31 {
        if t == 'u' {
            32
        } else {
            2
        }
    } else if state == 32 {
        if t == 'p' {
            33
        } else {
            2
        }
    } else if state == 33 {
        if t == 'e' {
            34
        } else {
            2
        }
    } else if state == 34 {
        if t == 'r' {
            1
        } else {
            2
        }
    } else if state == 35 {
        if t == 'h' {
            36
        } else if t == 'r' {
            38
        } else {
            2
        }
    } else if state == 36 {
        if t == 'i' {
            37
        } else {
            2
        }
    } else if state == 37 {
        if t == 's' {
            1
        } else {
            2
        }
    } else if state == 38 {
        if t == 'u' {
            39
        } else {
            2
        }
    } else if state == 39 {
        if t == 'e' {
            1
        } else {
            2
        }
    } else if state == 40 {
        if t == 'a' {
            41
        } else {
            2
        }
    } else if state == 41 {
        if t == 'r' {
            1
        } else {
            2
        }
    } else if state == 42 {
        if t == 'h' {
            43
        } else {
            2
        }
    } else if state == 43 {
        if t == 'i' {
            44
        } else {
            2
        }
    } else if state == 44 {
        if t == 'l' {
            45
        } else {
            2
        }
    } else if state == 45 {
        if t == 'e' {
            1
        } else {
            2
        }
    } else {
        state
    }
}

/// The number of characters that lead from the start to `state`.
spec fn depth(state: u8) -> int {
    if state == 0 {
        0
    } else if state == 3 || state == 5 || state == 9 || state == 12 || state == 18 || state == 19 || state == 21 || state == 22 || state == 26 || state == 31 || state == 35 || state == 40 || state == 42 {
        1
    } else if state == 4 || state == 6 || state == 10 || state == 13 || state == 16 || state == 17 || state == 20 || state == 23 || state == 27 || state == 32 || state == 36 || state == 38 || state == 41 || state == 43 {
        2
    } else if state == 7 || state == 11 || state == 14 || state == 24 || state == 28 || state == 33 || state == 37 || state == 39 || state == 44 {
        3
    } else if state == 8 || state == 15 || state == 25 || state == 29 || state == 34 || state == 45 {
        4
    } else if state == 30 {
        5
    } else {
        0
    }
}

/// Whether `s` begins with the characters that lead from the start to `state`.
spec fn spelled(state: u8, s: Seq<char>) -> bool {
    if state == 3 {
        s[0] == 'a'
    } else if state == 4 {
        s[0] == 'a' && s[1] == 'n'
    } else if state == 5 {
        s[0] == 'c'
    } else if state == 6 {
        s[0] == 'c' && s[1] == 'l'
    } else if state == 7 {
        s[0] == 'c' && s[1] == 'l' && s[2] == 'a'
    } else if state == 8 {
        s[0] == 'c' && s[1] == 'l' && s[2] == 'a' && s[3] == 's'
    } else if state == 9 {
        s[0] == 'e'
    } else if state == 10 {
        s[0] == 'e' && s[1] == 'l'
    } else if state == 11 {
        s[0] == 'e' && s[1] == 'l' && s[2] == 's'
    } else if state == 12 {
        s[0] == 'f'
    } else if state == 13 {
        s[0] == 'f' && s[1] == 'a'
    } else if state == 14 {
        s[0] == 'f' && s[1] == 'a' && s[2] == 'l'
    } else if state == 15 {
        s[0] == 'f' && s[1] == 'a' && s[2] == 'l' && s[3] == 's'
    } else if state == 16 {
        s[0] == 'f' && s[1] == 'o'
    } else if state == 17 {
        s[0] == 'f' && s[1] == 'u'
    } else if state == 18 {
        s[0] == 'i'
    } else if state == 19 {
        s[0] == 'n'
    } else if state == 20 {
        s[0] == 'n' && s[1] == 'i'
    } else if state == 21 {
        s[0] == 'o'
    } else if state == 22 {
        s[0] == 'p'
    } else if state == 23 {
        s[0] == 'p' && s[1] == 'r'
    } else if state == 24 {
        s[0] == 'p' && s[1] == 'r' && s[2] == 'i'
    } else if state == 25 {
        s[0] == 'p' && s[1] == 'r' && s[2] == 'i' && s[3] == 'n'
    } else if state == 26 {
        s[0] == 'r'
    } else if state == 27 {
        s[0] == 'r' && s[1] == 'e'
    } else if state == 28 {
        s[0] == 'r' && s[1] == 'e' && s[2] == 't'
    } else if state == 29 {
        s[0] == 'r' && s[1] == 'e' && s[2] == 't' && s[3] == 'u'
    } else if state == 30 {
        s[0] == 'r' && s[1] == 'e' && s[2] == 't' && s[3] == 'u' && s[4] == 'r'
    } else if state == 31 {
        s[0] == 's'
    } else if state == 32 {
        s[0] == 's' && s[1] == 'u'
    } else if state == 33 {
        s[0] == 's' && s[1] == 'u' && s[2] == 'p'
    } else if state == 34 {
        s[0] == 's' && s[1] == 'u' && s[2] == 'p' && s[3] == 'e'
    } else if state == 35 {
        s[0] == 't'
    } else if state == 36 {
        s[0] == 't' && s[1] == 'h'
    } else if state == 37 {
        s[0] == 't' && s[1] == 'h' && s[2] == 'i'
    } else if state == 38 {
        s[0] == 't' && s[1] == 'r'
    } else if state == 39 {
        s[0] == 't' && s[1] == 'r' && s[2] == 'u'
    } else if state == 40 {
        s[0] == 'v'
    } else if state == 41 {
        s[0] == 'v' && s[1] == 'a'
    } else if state == 42 {
        s[0] == 'w'
    } else if state == 43 {
        s[0] == 'w' && s[1] == 'h'
    } else if state == 44 {
        s[0] == 'w' && s[1] == 'h' && s[2] == 'i'
    } else if state == 45 {
        s[0] == 'w' && s[1] == 'h' && s[2] == 'i' && s[3] == 'l'
    } else {
        true
    }
}

/// Whether `state` is one that the automaton goes on from: the start or a
/// proper prefix of a reserved word.
pub open spec fn running(state: u8) -> bool {
    state == 0 || 3 <= state <= 45
}

/// The length of the reserved word that the characters begin with: `Some(3)`
/// for `function`, which begins with `fun`; `None` where they begin with no
/// reserved word.
pub fn match_keyword<I: Iterator<Item = char>>(chars: I) -> (r: Option<usize>)
    ensures
        chars.obeys_prophetic_iter_laws() ==> r == keyword_prefix(chars.remaining()),
{
    let mut dfa = KeywordDFA { state: 0 };
    dfa.check(chars)
}

struct KeywordDFA {
    state: u8,
}

impl KeywordDFA {
    /// Runs the automaton from the start state over the characters until it
    /// accepts, rejects or the characters end.
    fn check<I: Iterator<Item = char>>(&mut self, iter: I) -> (r: Option<usize>)
        requires
            old(self).state == 0,
        ensures
            iter.obeys_prophetic_iter_laws() ==> r == keyword_prefix(iter.remaining()),
    {
        let mut it = iter;
        let mut consumed: usize = 0;
        let ghost s = iter.remaining();
        proof {
            lemma_prefix_by_chars(s);
            assert(s.skip(0) =~= s);
        }
        loop
            invariant
                running(self.state),
                consumed == depth(self.state),
                it.obeys_prophetic_iter_laws() == iter.obeys_prophetic_iter_laws(),
                keyword_prefix(s) == prefix_by_chars(s),
                iter.obeys_prophetic_iter_laws() ==> {
                    &&& consumed <= s.len()
                    &&& spelled(self.state, s)
                    &&& it.remaining() == s.skip(consumed as int)
                },
                s == iter.remaining(),
            decreases 6 - consumed,
        {
            let ghost before = it.remaining();
            match it.next() {
                None => {
                    return None;
                },
                Some(c) => {
                    proof {
                        if iter.obeys_prophetic_iter_laws() {
                            assert(before.len() > 0);
                            assert(c == s[consumed as int]);
                            assert(before.drop_first() =~= s.skip(consumed + 1));
                        }
                    }
                    if self.consume(c) {
                        consumed += 1;
                    }
                    let next_state = self.state;
                    if next_state == 1 {
                        return Some(consumed);
                    } else if next_state == 2 {
                        return None;
                    }
                },
            }
        }
    }

    /// Reads one character: moves to the state that follows. In the accepting
    /// and the rejecting state nothing is read.
    #[inline(always)]
    fn consume(&mut self, t: char) -> (r: bool)
        requires
            old(self).state <= 45,
        ensures
            r == (old(self).state != 1 && old(self).state != 2),
            final(self).state == transition(old(self).state, t),
    {
        let next_state = match self.state {
            0 => _state_0(t),
            1 => return false,
            2 => return false,
            3 => _state_3(t),
            4 => _state_4(t),
            5 => _state_5(t),
            6 => _state_6(t),
            7 => _state_7(t),
            8 => _state_8(t),
            9 => _state_9(t),
            10 => _state_10(t),
            11 => _state_11(t),
            12 => _state_12(t),
            13 => _state_13(t),
            14 => _state_14(t),
            15 => _state_15(t),
            16 => _state_16(t),
            17 => _state_17(t),
            18 => _state_18(t),
            19 => _state_19(t),
            20 => _state_20(t),
            21 => _state_21(t),
            22 => _state_22(t),
            23 => _state_23(t),
            24 => _state_24(t),
            25 => _state_25(t),
            26 => _state_26(t),
            27 => _state_27(t),
            28 => _state_28(t),
            29 => _state_29(t),
            30 => _state_30(t),
            31 => _state_31(t),
            32 => _state_32(t),
            33 => _state_33(t),
            34 => _state_34(t),
            35 => _state_35(t),
            36 => _state_36(t),
            37 => _state_37(t),
            38 => _state_38(t),
            39 => _state_39(t),
            40 => _state_40(t),
            41 => _state_41(t),
            42 => _state_42(t),
            43 => _state_43(t),
            44 => _state_44(t),
            45 => _state_45(t),
            _ => self.state,
        };
        self.state = next_state;
        true
    }
}

#[inline(always)]
fn _state_0(t: char) -> (r: u8)
    ensures
        r == transition(0, t),
{
    match t {
        'a' => 3,
        'c' => 5,
        'e' => 9,
        'f' => 12,
        'i' => 18,
        'n' => 19,
        'o' => 21,
        'p' => 22,
        'r' => 26,
        's' => 31,
        't' => 35,
        'v' => 40,
        'w' => 42,
        _ => 2,
    }
}

#[inline(always)]
fn _state_3(t: char) -> (r: u8)
    ensures
        r == transition(3, t),
{
    match t {
        'n' => 4,
        _ => 2,
    }
}

#[inline(always)]
fn _state_4(t: char) -> (r: u8)
    ensures
        r == transition(4, t),
{
    match t {
        'd' => 1,
        _ => 2,
    }
}

#[inline(always)]
fn _state_5(t: char) -> (r: u8)
    ensures
        r == transition(5, t),
{
    match t {
        'l' => 6,
        _ => 2,
    }
}

#[inline(always)]
fn _state_6(t: char) -> (r: u8)
    ensures
        r == transition(6, t),
{
    match t {
        'a' => 7,
        _ => 2,
    }
}

#[inline(always)]
fn _state_7(t: char) -> (r: u8)
    ensures
        r == transition(7, t),
{
    match t {
        's' => 8,
        _ => 2,
    }
}

#[inline(always)]
fn _state_8(t: char) -> (r: u8)
    ensures
        r == transition(8, t),
{
    match t {
        's' => 1,
        _ => 2,
    }
}

#[inline(always)]
fn _state_9(t: char) -> (r: u8)
    ensures
        r == transition(9, t),
{
    match t {
        'l' => 10,
        _ => 2,
    }
}

#[inline(always)]
fn _state_10(t: char) -> (r: u8)
    ensures
        r == transition(10, t),
{
    match t {
        's' => 11,
        _ => 2,
    }
}

#[inline(always)]
fn _state_11(t: char) -> (r: u8)
    ensures
        r == transition(11, t),
{
    match t {
        'e' => 1,
        _ => 2,
    }
}

#[inline(always)]
fn _state_12(t: char) -> (r: u8)
    ensures
        r == transition(12, t),
{
    match t {
        'a' => 13,
        'o' => 16,
        'u' => 17,
        _ => 2,
    }
}

#[inline(always)]
fn _state_13(t: char) -> (r: u8)
    ensures
        r == transition(13, t),
{
    match t {
        'l' => 14,
        _ => 2,
    }
}

#[inline(always)]
fn _state_14(t: char) -> (r: u8)
    ensures
        r == transition(14, t),
{
    match t {
        's' => 15,
        _ => 2,
    }
}

#[inline(always)]
fn _state_15(t: char) -> (r: u8)
    ensures
        r == transition(15, t),
{
    match t {
        'e' => 1,
        _ => 2,
    }
}

#[inline(always)]
fn _state_16(t: char) -> (r: u8)
    ensures
        r == transition(16, t),
{
    match t {
        'r' => 1,
        _ => 2,
    }
}

#[inline(always)]
fn _state_17(t: char) -> (r: u8)
    ensures
        r == transition(17, t),
{
    match t {
        'n' => 1,
        _ => 2,
    }
}

#[inline(always)]
fn _state_18(t: char) -> (r: u8)
    ensures
        r == transition(18, t),
{
    match t {
        'f' => 1,
        _ => 2,
    }
}

#[inline(always)]
fn _state_19(t: char) -> (r: u8)
    ensures
        r == transition(19, t),
{
    match t {
        'i' => 20,
        _ => 2,
    }
}

#[inline(always)]
fn _state_20(t: char) -> (r: u8)
    ensures
        r == transition(20, t),
{
    match t {
        'l' => 1,
        _ => 2,
    }
}

#[inline(always)]
fn _state_21(t: char) -> (r: u8)
    ensures
        r == transition(21, t),
{
    match t {
        'r' => 1,
        _ => 2,
    }
}

#[inline(always)]
fn _state_22(t: char) -> (r: u8)
    ensures
        r == transition(22, t),
{
    match t {
        'r' => 23,
        _ => 2,
    }
}

#[inline(always)]
fn _state_23(t: char) -> (r: u8)
    ensures
        r == transition(23, t),
{
    match t {
        'i' => 24,
        _ => 2,
    }
}

#[inline(always)]
fn _state_24(t: char) -> (r: u8)
    ensures
        r == transition(24, t),
{
    match t {
        'n' => 25,
        _ => 2,
    }
}

#[inline(always)]
fn _state_25(t: char) -> (r: u8)
    ensures
        r == transition(25, t),
{
    match t {
        't' => 1,
        _ => 2,
    }
}

#[inline(always)]
fn _state_26(t: char) -> (r: u8)
    ensures
        r == transition(26, t),
{
    match t {
        'e' => 27,
        _ => 2,
    }
}

#[inline(always)]
fn _state_27(t: char) -> (r: u8)
    ensures
        r == transition(27, t),
{
    match t {
        't' => 28,
        _ => 2,
    }
}

#[inline(always)]
fn _state_28(t: char) -> (r: u8)
    ensures
        r == transition(28, t),
{
    match t {
        'u' => 29,
        _ => 2,
    }
}

#[inline(always)]
fn _state_29(t: char) -> (r: u8)
    ensures
        r == transition(29, t),
{
    match t {
        'r' => 30,
        _ => 2,
    }
}

#[inline(always)]
fn _state_30(t: char) -> (r: u8)
    ensures
        r == transition(30, t),
{
    match t {
        'n' => 1,
        _ => 2,
    }
}

#[inline(always)]
fn _state_31(t: char) -> (r: u8)
    ensures
        r == transition(31, t),
{
    match t {
        'u' => 32,
        _ => 2,
    }
}

#[inline(always)]
fn _state_32(t: char) -> (r: u8)
    ensures
        r == transition(32, t),
{
    match t {
        'p' => 33,
        _ => 2,
    }
}

#[inline(always)]
fn _state_33(t: char) -> (r: u8)
    ensures
        r == transition(33, t),
{
    match t {
        'e' => 34,
        _ => 2,
    }
}

#[inline(always)]
fn _state_34(t: char) -> (r: u8)
    ensures
        r == transition(34, t),
{
    match t {
        'r' => 1,
        _ => 2,
    }
}

#[inline(always)]
fn _state_35(t: char) -> (r: u8)
    ensures
        r == transition(35, t),
{
    match t {
        'h' => 36,
        'r' => 38,
        _ => 2,
    }
}

#[inline(always)]
fn _state_36(t: char) -> (r: u8)
    ensures
        r == transition(36, t),
{
    match t {
        'i' => 37,
        _ => 2,
    }
}

#[inline(always)]
fn _state_37(t: char) -> (r: u8)
    ensures
        r == transition(37, t),
{
    match t {
        's' => 1,
        _ => 2,
    }
}

#[inline(always)]
fn _state_38(t: char) -> (r: u8)
    ensures
        r == transition(38, t),
{
    match t {
        'u' => 39,
        _ => 2,
    }
}

#[inline(always)]
fn _state_39(t: char) -> (r: u8)
    ensures
        r == transition(39, t),
{
    match t {
        'e' => 1,
        _ => 2,
    }
}

#[inline(always)]
fn _state_40(t: char) -> (r: u8)
    ensures
        r == transition(40, t),
{
    match t {
        'a' => 41,
        _ => 2,
    }
}

#[inline(always)]
fn _state_41(t: char) -> (r: u8)
    ensures
        r == transition(41, t),
{
    match t {
        'r' => 1,
        _ => 2,
    }
}

#[inline(always)]
fn _state_42(t: char) -> (r: u8)
    ensures
        r == transition(42, t),
{
    match t {
        'h' => 43,
        _ => 2,
    }
}

#[inline(always)]
fn _state_43(t: char) -> (r: u8)
    ensures
        r == transition(43, t),
{
    match t {
        'i' => 44,
        _ => 2,
    }
}

#[inline(always)]
fn _state_44(t: char) -> (r: u8)
    ensures
        r == transition(44, t),
{
    match t {
        'l' => 45,
        _ => 2,
    }
}

#[inline(always)]
fn _state_45(t: char) -> (r: u8)
    ensures
        r == transition(45, t),
{
    match t {
        'e' => 1,
        _ => 2,
    }
}

/// The token kind of a reserved word; `None` for any other word.
pub open spec fn keyword_kind(word: Seq<char>) -> Option<TokenType> {
    if word == "and"@ {
        Some(TokenType::TOKEN_AND)
    } else if word == "class"@ {
        Some(TokenType::TOKEN_CLASS)
    } else if word == "else"@ {
        Some(TokenType::TOKEN_ELSE)
    } else if word == "false"@ {
        Some(TokenType::TOKEN_FALSE)
    } else if word == "for"@ {
        Some(TokenType::TOKEN_FOR)
    } else if word == "fun"@ {
        Some(TokenType::TOKEN_FUN)
    } else if word == "if"@ {
        Some(TokenType::TOKEN_IF)
    } else if word == "nil"@ {
        Some(TokenType::TOKEN_NIL)
    } else if word == "or"@ {
        Some(TokenType::TOKEN_OR)
    } else if word == "print"@ {
        Some(TokenType::TOKEN_PRINT)
    } else if word == "return"@ {
        Some(TokenType::TOKEN_RETURN)
    } else if word == "super"@ {
        Some(TokenType::TOKEN_SUPER)
    } else if word == "this"@ {
        Some(TokenType::TOKEN_THIS)
    } else if word == "true"@ {
        Some(TokenType::TOKEN_TRUE)
    } else if word == "var"@ {
        Some(TokenType::TOKEN_VAR)
    } else if word == "while"@ {
        Some(TokenType::TOKEN_WHILE)
    } else {
        None
    }
}

/// `keyword_kind`, character by character.
spec fn kind_by_chars(word: Seq<char>) -> Option<TokenType> {
    if word.len() == 3 && word[0] == 'a' && word[1] == 'n' && word[2] == 'd' {
        Some(TokenType::TOKEN_AND)
    } else if word.len() == 5 && word[0] == 'c' && word[1] == 'l' && word[2] == 'a' && word[3] == 's' && word[4] == 's' {
        Some(TokenType::TOKEN_CLASS)
    } else if word.len() == 4 && word[0] == 'e' && word[1] == 'l' && word[2] == 's' && word[3] == 'e' {
        Some(TokenType::TOKEN_ELSE)
    } else if word.len() == 5 && word[0] == 'f' && word[1] == 'a' && word[2] == 'l' && word[3] == 's' && word[4] == 'e' {
        Some(TokenType::TOKEN_FALSE)
    } else if word.len() == 3 && word[0] == 'f' && word[1] == 'o' && word[2] == 'r' {
        Some(TokenType::TOKEN_FOR)
    } else if word.len() == 3 && word[0] == 'f' && word[1] == 'u' && word[2] == 'n' {
        Some(TokenType::TOKEN_FUN)
    } else if word.len() == 2 && word[0] == 'i' && word[1] == 'f' {
        Some(TokenType::TOKEN_IF)
    } else if word.len() == 3 && word[0] == 'n' && word[1] == 'i' && word[2] == 'l' {
        Some(TokenType::TOKEN_NIL)
    } else if word.len() == 2 && word[0] == 'o' && word[1] == 'r' {
        Some(TokenType::TOKEN_OR)
    } else if word.len() == 5 && word[0] == 'p' && word[1] == 'r' && word[2] == 'i' && word[3] == 'n' && word[4] == 't' {
        Some(TokenType::TOKEN_PRINT)
    } else if word.len() == 6 && word[0] == 'r' && word[1] == 'e' && word[2] == 't' && word[3] == 'u' && word[4] == 'r' && word[5] == 'n' {
        Some(TokenType::TOKEN_RETURN)
    } else if word.len() == 5 && word[0] == 's' && word[1] == 'u' && word[2] == 'p' && word[3] == 'e' && word[4] == 'r' {
        Some(TokenType::TOKEN_SUPER)
    } else if word.len() == 4 && word[0] == 't' && word[1] == 'h' && word[2] == 'i' && word[3] == 's' {
        Some(TokenType::TOKEN_THIS)
    } else if word.len() == 4 && word[0] == 't' && word[1] == 'r' && word[2] == 'u' && word[3] == 'e' {
        Some(TokenType::TOKEN_TRUE)
    } else if word.len() == 3 && word[0] == 'v' && word[1] == 'a' && word[2] == 'r' {
        Some(TokenType::TOKEN_VAR)
    } else if word.len() == 5 && word[0] == 'w' && word[1] == 'h' && word[2] == 'i' && word[3] == 'l' && word[4] == 'e' {
        Some(TokenType::TOKEN_WHILE)
    } else {
        None
    }
}

/// Two words are the same exactly when they are as long and agree at every
/// index.
proof fn lemma_same_word(s: Seq<char>, word: Seq<char>)
    ensures
        s == word <==> (word.len() == s.len() && forall|j: int|
            0 <= j < word.len() ==> s[j] == word[j]),
{
    if word.len() == s.len() && (forall|j: int| 0 <= j < word.len() ==> s[j] == word[j]) {
        assert(s =~= word);
    }
}

proof fn lemma_kind_by_chars(word: Seq<char>)
    ensures
        keyword_kind(word) == kind_by_chars(word),
{
    reveal_strlit("and");
    lemma_same_word(word, "and"@);
    reveal_strlit("class");
    lemma_same_word(word, "class"@);
    reveal_strlit("else");
    lemma_same_word(word, "else"@);
    reveal_strlit("false");
    lemma_same_word(word, "false"@);
    reveal_strlit("for");
    lemma_same_word(word, "for"@);
    reveal_strlit("fun");
    lemma_same_word(word, "fun"@);
    reveal_strlit("if");
    lemma_same_word(word, "if"@);
    reveal_strlit("nil");
    lemma_same_word(word, "nil"@);
    reveal_strlit("or");
    lemma_same_word(word, "or"@);
    reveal_strlit("print");
    lemma_same_word(word, "print"@);
    reveal_strlit("return");
    lemma_same_word(word, "return"@);
    reveal_strlit("super");
    lemma_same_word(word, "super"@);
    reveal_strlit("this");
    lemma_same_word(word, "this"@);
    reveal_strlit("true");
    lemma_same_word(word, "true"@);
    reveal_strlit("var");
    lemma_same_word(word, "var"@);
    reveal_strlit("while");
    lemma_same_word(word, "while"@);
}

/// A word is a reserved word exactly when it begins with one that is as long
/// as the word itself.
pub proof fn lemma_keyword_kind(word: Seq<char>)
    requires
        word.len() <= usize::MAX,
    ensures
        keyword_kind(word) is Some <==> keyword_prefix(word) == Some(word.len() as usize),
{
    lemma_prefix_by_chars(word);
    lemma_kind_by_chars(word);
}

/// The token kind of a word that is known to be reserved, told by its first
/// two letters.
pub fn keyword_type(word: &str) -> (ty: TokenType)
    requires
        keyword_kind(word@) is Some,
    ensures
        keyword_kind(word@) == Some(ty),
{
    proof {
        lemma_kind_by_chars(word@);
    }
    let first = word.get_char(0);
    let second = word.get_char(1);
    match first {
        'a' => TokenType::TOKEN_AND,
        'c' => TokenType::TOKEN_CLASS,
        'e' => TokenType::TOKEN_ELSE,
        'f' => match second {
            'a' => TokenType::TOKEN_FALSE,
            'o' => TokenType::TOKEN_FOR,
            _ => TokenType::TOKEN_FUN,
        },
        'i' => TokenType::TOKEN_IF,
        'n' => TokenType::TOKEN_NIL,
        'o' => TokenType::TOKEN_OR,
        'p' => TokenType::TOKEN_PRINT,
        'r' => TokenType::TOKEN_RETURN,
        's' => TokenType::TOKEN_SUPER,
        't' => match second {
            'h' => TokenType::TOKEN_THIS,
            _ => TokenType::TOKEN_TRUE,
        },
        'v' => TokenType::TOKEN_VAR,
        _ => TokenType::TOKEN_WHILE,
    }
}

} // verus!
