//! The pattern language as mathematics: which token stands at a position of a
//! pattern, how many characters it takes, and which text of the matching
//! expression it is translated to.

use vstd::prelude::*;

verus! {

/// A whitespace character: the controls from tab to carriage return, the
/// space, the next-line control, and the spaces and separators beyond ASCII.
pub open spec fn is_space(c: char) -> bool {
    ||| '\u{0009}' <= c <= '\u{000D}'
    ||| c == '\u{0020}'
    ||| c == '\u{0085}'
    ||| c == '\u{00A0}'
    ||| c == '\u{1680}'
    ||| '\u{2000}' <= c <= '\u{200A}'
    ||| c == '\u{2028}'
    ||| c == '\u{2029}'
    ||| c == '\u{202F}'
    ||| c == '\u{205F}'
    ||| c == '\u{3000}'
}

/// A character that is written with a backslash before it in the matching
/// expression, so that it stands for itself there and is not read as an
/// operator. `<` and `>` are not among them: they stand for themselves as
/// they are, and behind a backslash they would mean the edge of a word.
pub open spec fn is_special(c: char) -> bool {
    c == '^' || c == '$' || c == '.' || c == ',' || c == '{' || c == '}' || c == '\\' || c == '|'
        || c == '?' || c == '*' || c == ':' || c == '(' || c == ')' || c == '[' || c == ']' || c
        == '-' || c == '+'
}

/// A character that may have a backslash before it in the matching expression
/// and then stands for itself there: ASCII punctuation other than `<`, `>`
/// and `_`. Before a letter or a digit a backslash makes a class or an
/// assertion, before `<` and `>` the edge of a word.
pub open spec fn keeps_backslash(c: char) -> bool {
    &&& ('\u{0021}' <= c <= '\u{002F}' || '\u{003A}' <= c <= '\u{0040}' || '\u{005B}' <= c
        <= '\u{0060}' || '\u{007B}' <= c <= '\u{007E}')
    &&& c != '<'
    &&& c != '>'
    &&& c != '_'
}

/// `word` stands in `p` from position `at` on.
pub open spec fn occurs_at(p: Seq<char>, at: int, word: Seq<char>) -> bool {
    0 <= at && at + word.len() <= p.len() && p.subrange(at, at + word.len()) == word
}

/// The three characters `@N@` stand in `p` from position `i` on.
pub open spec fn slot_at(p: Seq<char>, i: int) -> bool {
    occurs_at(p, i, seq!['@', 'N', '@'])
}

/// What the slot `@N@` is translated to: a group of one or more digits.
pub open spec fn slot_text() -> Seq<char> {
    seq!['(', '\\', 'd', '+', ')']
}

/// How many characters of `p` the token that starts at `i` takes.
pub open spec fn token_len(p: Seq<char>, i: int) -> int
    recommends
        0 <= i < p.len(),
{
    let c = p[i];
    if c == '*' || c == '?' || is_space(c) {
        1
    } else if slot_at(p, i) {
        3
    } else if c == '\\' && i + 1 < p.len() {
        2
    } else {
        1
    }
}

/// The text of the matching expression that the token at `i` becomes.
pub open spec fn token_text(p: Seq<char>, i: int) -> Seq<char>
    recommends
        0 <= i < p.len(),
{
    let c = p[i];
    if c == '*' {
        seq!['.', '*', '?']
    } else if c == '?' {
        seq!['.', '?']
    } else if is_space(c) {
        seq!['\\', 's']
    } else if slot_at(p, i) {
        slot_text()
    } else if c == '\\' {
        if i + 1 >= p.len() {
            Seq::empty()
        } else if keeps_backslash(p[i + 1]) {
            seq!['\\', p[i + 1]]
        } else {
            seq![p[i + 1]]
        }
    } else if is_special(c) {
        seq!['\\', c]
    } else {
        seq![c]
    }
}

/// The translation of `p` from the token at `i` to the end.
pub open spec fn body_from(p: Seq<char>, i: int) -> Seq<char>
    decreases p.len() - i,
{
    if 0 <= i < p.len() {
        token_text(p, i) + body_from(p, i + token_len(p, i))
    } else {
        Seq::empty()
    }
}

/// How many slots `p` holds from the token at `i` to the end.
pub open spec fn slots_from(p: Seq<char>, i: int) -> nat
    decreases p.len() - i,
{
    if 0 <= i < p.len() {
        if slot_at(p, i) {
            1 + slots_from(p, i + 3)
        } else {
            slots_from(p, i + token_len(p, i))
        }
    } else {
        0
    }
}

/// What every expression starts with: the flag that makes it ignore case, and
/// the anchor at the start of the name.
pub open spec fn head() -> Seq<char> {
    seq!['(', '?', 'i', ')', '^']
}

/// The matching expression for the pattern `p`: anchored at both ends, and
/// blind to case.
pub open spec fn expression(p: Seq<char>) -> Seq<char> {
    head() + body_from(p, 0) + seq!['$']
}

/// The number of slots of the pattern `p`.
pub open spec fn slot_count(p: Seq<char>) -> nat {
    slots_from(p, 0)
}

/// No escape is left open at the end of `s`: read from the left, with every
/// backslash taking the character behind it, the text ends after a whole
/// character or a whole escape.
pub open spec fn is_whole(s: Seq<char>) -> bool
    decreases s.len(),
{
    if s.len() == 0 {
        true
    } else if s[0] == '\\' {
        s.len() >= 2 && is_whole(s.skip(2))
    } else {
        is_whole(s.skip(1))
    }
}

/// Two texts that leave no escape open leave none open when joined.
pub proof fn lemma_whole_joined(a: Seq<char>, b: Seq<char>)
    requires
        is_whole(a),
        is_whole(b),
    ensures
        is_whole(a + b),
    decreases a.len(),
{
    if a.len() == 0 {
        assert(a + b =~= b);
    } else if a[0] == '\\' {
        assert((a + b).skip(2) =~= a.skip(2) + b);
        lemma_whole_joined(a.skip(2), b);
    } else {
        assert((a + b).skip(1) =~= a.skip(1) + b);
        lemma_whole_joined(a.skip(1), b);
    }
}

/// What a token is translated to leaves no escape open.
pub proof fn lemma_token_whole(p: Seq<char>, i: int)
    requires
        0 <= i < p.len(),
    ensures
        is_whole(token_text(p, i)),
{
    reveal_with_fuel(is_whole, 6);
    let t = token_text(p, i);
    if t.len() == 1 {
        assert(t.skip(1) =~= Seq::<char>::empty());
    } else if t.len() == 2 {
        assert(t.skip(2) =~= Seq::<char>::empty());
        assert(t.skip(1).skip(1) =~= Seq::<char>::empty());
    } else if t.len() == 3 {
        assert(t.skip(1).skip(1).skip(1) =~= Seq::<char>::empty());
    } else if t.len() == 5 {
        assert(t == slot_text());
        assert(t.skip(1).skip(2).skip(1).skip(1) =~= Seq::<char>::empty());
    }
}

/// The translation of a pattern leaves no escape open, from whichever token
/// it starts.
pub proof fn lemma_body_whole(p: Seq<char>, i: int)
    requires
        0 <= i,
    ensures
        is_whole(body_from(p, i)),
    decreases p.len() - i,
{
    if i < p.len() {
        lemma_token_whole(p, i);
        lemma_body_whole(p, i + token_len(p, i));
        lemma_whole_joined(token_text(p, i), body_from(p, i + token_len(p, i)));
    }
}

/// Every expression starts with the flag and the anchor of the start and
/// ends with `$`, and the text before that `$` leaves no escape open.
pub proof fn lemma_anchors_stand(p: Seq<char>)
    ensures
        expression(p).subrange(0, 5) == head(),
        expression(p).last() == '$',
        is_whole(expression(p).drop_last()),
{
    let e = expression(p);
    lemma_body_whole(p, 0);
    reveal_with_fuel(is_whole, 6);
    let h = head();
    assert(h.skip(1).skip(1).skip(1).skip(1).skip(1) =~= Seq::<char>::empty());
    assert(is_whole(h));
    lemma_whole_joined(h, body_from(p, 0));
    assert(e.drop_last() =~= h + body_from(p, 0));
    assert(e.subrange(0, 5) =~= h);
}

} // verus!
