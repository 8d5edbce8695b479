//! The pattern compiler: a reader over the pattern's characters with one
//! character of lookahead, and the translation to a matching expression.

use vstd::prelude::*;
use crate::pattern::{body_from, expression, head, is_space, is_special, keeps_backslash,
    occurs_at, slot_at,
    slot_count, slots_from, token_len, token_text};

verus! {

/// `String::push` appends the character to the end of the string.
pub assume_specification[ String::push ](s: &mut String, c: char)
    ensures
        final(s)@ == old(s)@.push(c),
;

/// The characters of `s`, in order.
pub fn chars_of(s: &str) -> (v: Vec<char>)
    ensures
        v@ == s@,
{
    let mut v: Vec<char> = Vec::new();
    for c in it: s.chars()
        invariant
            it.seq() == s@,
            v@ == it.seq().take(it.index() as int),
    {
        v.push(c);
        assert(it.seq().take(it.index() + 1) =~= it.seq().take(it.index() as int).push(c));
    }
    assert(s@.take(s@.len() as int) =~= s@);
    v
}

/// Whether `c` is a whitespace character.
pub fn space(c: char) -> (b: bool)
    ensures
        b == is_space(c),
{
    ('\u{0009}' <= c && c <= '\u{000D}') || c == '\u{0020}' || c == '\u{0085}' || c == '\u{00A0}'
        || c == '\u{1680}' || ('\u{2000}' <= c && c <= '\u{200A}') || c == '\u{2028}' || c
        == '\u{2029}' || c == '\u{202F}' || c == '\u{205F}' || c == '\u{3000}'
}

/// Whether `c` is written with a backslash before it in a matching
/// expression.
pub fn special(c: char) -> (b: bool)
    ensures
        b == is_special(c),
{
    c == '^' || c == '$' || c == '.' || c == ',' || c == '{' || c == '}' || c == '\\' || c == '|'
        || c == '?' || c == '*' || c == ':' || c == '(' || c == ')' || c == '[' || c == ']' || c
        == '-' || c == '+'
}

/// Whether `c` may have a backslash before it in a matching expression and
/// then stands for itself.
pub fn escapable(c: char) -> (b: bool)
    ensures
        b == keeps_backslash(c),
{
    (('\u{0021}' <= c && c <= '\u{002F}') || ('\u{003A}' <= c && c <= '\u{0040}') || ('\u{005B}'
        <= c && c <= '\u{0060}') || ('\u{007B}' <= c && c <= '\u{007E}')) && c != '<' && c != '>'
        && c != '_'
}

/// What the reader shows as its current character once it is past the end:
/// the replacement character. The same character inside a pattern is an
/// ordinary one; only the position tells that the end is reached.
pub const PAST_END: char = '\u{FFFD}';

/// A reader over the characters of a pattern: a position, the character
/// there, and a look at what follows.
pub struct Compiler {
    expr: Vec<char>,
    pos: usize,
    readpos: usize,
    ch: char,
}

impl Compiler {
    /// The characters being read.
    pub closed spec fn text(&self) -> Seq<char> {
        self.expr@
    }

    /// The position of the current character. It grows with every step, past
    /// the end of the text too.
    pub closed spec fn position(&self) -> int {
        self.pos as int
    }

    /// The position that the lookahead starts from: one behind the current
    /// character.
    pub open spec fn lookahead(&self) -> int {
        self.position() + 1
    }

    /// The current character; the replacement character past the end.
    pub closed spec fn current(&self) -> char {
        self.ch
    }

    /// The lookahead stands one character behind the position, and the
    /// current character is the one at the position.
    pub closed spec fn wf(&self) -> bool {
        &&& self.readpos == self.pos + 1
        &&& self.ch == if self.pos < self.expr@.len() {
            self.expr@[self.pos as int]
        } else {
            PAST_END
        }
    }

    /// A reader at the first character of `s`. An empty `s` gives a reader
    /// that is past the end from the start.
    pub fn new(s: &str) -> (c: Self)
        ensures
            c.wf(),
            c.text() == s@,
            c.position() == 0,
            c.current() == if s@.len() > 0 {
                s@[0]
            } else {
                PAST_END
            },
    {
        let expr = chars_of(s);
        if expr.len() == 0 {
            Self { expr, pos: 0, readpos: 1, ch: PAST_END }
        } else {
            let ch = expr[0];
            Self { expr, pos: 0, readpos: 1, ch }
        }
    }

    /// The current character; the replacement character past the end.
    pub fn peek(&self) -> (c: char)
        ensures
            c == self.current(),
    {
        self.ch
    }

    /// The position of the current character.
    pub fn offset(&self) -> (i: usize)
        ensures
            i == self.position(),
    {
        self.pos
    }

    /// Whether the reader is past the last character.
    pub fn at_end(&self) -> (b: bool)
        requires
            self.wf(),
        ensures
            b == (self.position() >= self.text().len()),
    {
        self.pos >= self.expr.len()
    }

    /// Steps to the next character: the position becomes the lookahead, and
    /// the lookahead moves on by one, past the end of the text too.
    pub fn read(&mut self)
        requires
            old(self).wf(),
            old(self).lookahead() < usize::MAX,
        ensures
            final(self).wf(),
            final(self).text() == old(self).text(),
            final(self).position() == old(self).position() + 1,
            final(self).current() == if final(self).position() < final(self).text().len() {
                final(self).text()[final(self).position()]
            } else {
                PAST_END
            },
    {
        if self.readpos >= self.expr.len() {
            self.ch = PAST_END;
        } else {
            self.ch = self.expr[self.readpos];
        }
        self.pos = self.readpos;
        self.readpos = self.readpos + 1;
    }

    /// Steps like `read` where the lookahead can still move on, and tells
    /// whether it did. It cannot only at the last position that the machine
    /// can count to.
    fn try_read(&mut self) -> (stepped: bool)
        requires
            old(self).wf(),
        ensures
            final(self).wf(),
            final(self).text() == old(self).text(),
            stepped == (old(self).lookahead() < usize::MAX),
            stepped ==> final(self).position() == old(self).position() + 1,
            !stepped ==> final(self).position() == old(self).position(),
    {
        if self.readpos < usize::MAX {
            self.read();
            true
        } else {
            false
        }
    }

    /// Whether the characters of `s` follow the current character.
    pub fn ahead_is(&self, s: &str) -> (b: bool)
        requires
            self.wf(),
        ensures
            b == (self.position() < self.text().len() && occurs_at(
                self.text(),
                self.position() + 1,
                s@,
            )),
    {
        let word = chars_of(s);
        let len = self.expr.len();
        if self.pos >= len {
            return false;
        }
        let from: usize = self.pos + 1;
        if word.len() > len - from {
            return false;
        }
        let mut k: usize = 0;
        while k < word.len()
            invariant
                self.wf(),
                word@ == s@,
                from == self.pos + 1,
                from + word@.len() <= len,
                len == self.expr@.len(),
                k <= word@.len(),
                self.expr@.subrange(from as int, from + k) == word@.take(k as int),
            decreases word@.len() - k,
        {
            if self.expr[from + k] != word[k] {
                proof {
                    let a = self.expr@.subrange(from as int, from + word@.len());
                    assert(a[k as int] != word@[k as int]);
                }
                return false;
            }
            proof {
                assert(self.expr@.subrange(from as int, from + k + 1) =~= self.expr@.subrange(
                    from as int,
                    from + k,
                ).push(self.expr@[from + k]));
                assert(word@.take(k + 1) =~= word@.take(k as int).push(word@[k as int]));
            }
            k = k + 1;
        }
        assert(word@.take(word@.len() as int) =~= word@);
        true
    }
}

impl Compiler {
    /// Translates the pattern, from the current character to its end, into a
    /// matching expression: `*` becomes any run of characters, as short as
    /// can be; `?` becomes at most one character; a space character becomes
    /// one space character of any kind; `@N@` becomes a group of digits; a
    /// backslash makes the character behind it stand for itself, with no
    /// other rule applied to it: the backslash is kept before punctuation
    /// that can be escaped and left out before anything else, and it is
    /// dropped where nothing follows it; every other special character gets
    /// a backslash before it; all else is handed on as it is. The result is
    /// anchored at both ends and ignores case.
    pub fn compile(self) -> (buf: String)
        requires
            self.wf(),
        ensures
            buf@ == head() + body_from(self.text(), self.position()) + seq!['$'],
    {
        self.translate().0
    }

    /// The translation as `compile` gives it, and beside it the number of
    /// slots that were met on the way.
    pub fn translate(self) -> (out: (String, usize))
        requires
            self.wf(),
        ensures
            out.0@ == head() + body_from(self.text(), self.position()) + seq!['$'],
            out.1 == slots_from(self.text(), self.position()),
    {
        let ghost p = self.expr@;
        let ghost start = self.pos as int;
        let mut reader = self;
        let mut slots: usize = 0;
        let mut buf = String::new();
        buf.push('(');
        buf.push('?');
        buf.push('i');
        buf.push(')');
        buf.push('^');
        assert(buf@ =~= head());
        proof {
            reveal_strlit("N@");
            assert("N@"@ =~= seq!['N', '@']);
        }
        let ghost at: int = start;
        let len: usize = reader.expr.len();
        let mut done: bool = reader.at_end();
        while !done
            invariant
                reader.wf(),
                reader.expr@ == p,
                len == p.len(),
                start <= at,
                !done ==> at == reader.pos && at < p.len(),
                done ==> at >= p.len(),
                "N@"@ == seq!['N', '@'],
                head() + body_from(p, start) == buf@ + body_from(p, at),
                slots_from(p, start) == slots + slots_from(p, at),
                slots <= at,
            decreases p.len() - at,
        {
            let ghost i = at;
            let ghost before = buf@;
            let c = reader.ch;
            proof {
                if p[i] == '@' {
                    let w = seq!['N', '@'];
                    let t = seq!['@', 'N', '@'];
                    if occurs_at(p, i + 1, w) {
                        assert(p.subrange(i + 1, i + 3) == w);
                        assert(p[i + 1] == p.subrange(i + 1, i + 3)[0]);
                        assert(p[i + 2] == p.subrange(i + 1, i + 3)[1]);
                        assert(p.subrange(i, i + 3) =~= t);
                    }
                    if slot_at(p, i) {
                        assert(p.subrange(i, i + 3) == t);
                        assert(p[i + 1] == p.subrange(i, i + 3)[1]);
                        assert(p[i + 2] == p.subrange(i, i + 3)[2]);
                        assert(p.subrange(i + 1, i + 3) =~= w);
                    }
                } else if slot_at(p, i) {
                    assert(p[i] == p.subrange(i, i + 3)[0]);
                }
            }
            let mut stepped: bool = true;
            if c == '*' {
                buf.push('.');
                buf.push('*');
                buf.push('?');
            } else if c == '?' {
                buf.push('.');
                buf.push('?');
            } else if space(c) {
                buf.push('\\');
                buf.push('s');
            } else if c == '@' && reader.ahead_is("N@") {
                reader.read();
                reader.read();
                slots = slots + 1;
                buf.push('(');
                buf.push('\\');
                buf.push('d');
                buf.push('+');
                buf.push(')');
            } else if c == '\\' {
                stepped = reader.try_read();
                if stepped && !reader.at_end() {
                    if escapable(reader.ch) {
                        buf.push('\\');
                    }
                    buf.push(reader.ch);
                }
            } else if special(c) {
                buf.push('\\');
                buf.push(c);
            } else {
                buf.push(c);
            }
            if stepped {
                stepped = reader.try_read();
            }
            proof {
                at = i + token_len(p, i);
                assert(buf@ =~= before + token_text(p, i));
                assert(body_from(p, i) == token_text(p, i) + body_from(p, i + token_len(p, i)));
                assert(before + (token_text(p, i) + body_from(p, at)) =~= (before + token_text(
                    p,
                    i,
                )) + body_from(p, at));
            }
            done = !stepped || reader.at_end();
        }
        proof {
            assert(body_from(p, at) =~= Seq::<char>::empty());
            assert(buf@ + Seq::<char>::empty() =~= buf@);
        }
        buf.push('$');
        (buf, slots)
    }
}

/// Whether the three characters `@N@` stand anywhere in `pattern`: without
/// them a pattern has no slot, and nothing to pad.
pub fn names_a_slot(pattern: &str) -> (b: bool)
    ensures
        b == exists|i: int| slot_at(pattern@, i),
{
    let p = chars_of(pattern);
    if p.len() < 3 {
        assert forall|i: int| !slot_at(pattern@, i) by {}
        return false;
    }
    let n: usize = p.len();
    let last: usize = n - 2;
    let mut i: usize = 0;
    while i < last
        invariant
            n == p@.len(),
            last + 2 == n,
            p@ == pattern@,
            3 <= p@.len(),
            i <= last,
            forall|j: int| 0 <= j < i ==> !slot_at(pattern@, j),
        decreases last - i,
    {
        if p[i] == '@' && p[i + 1] == 'N' && p[i + 2] == '@' {
            assert(p@.subrange(i as int, i + 3) =~= seq!['@', 'N', '@']);
            assert(slot_at(pattern@, i as int));
            return true;
        }
        proof {
            if slot_at(pattern@, i as int) {
                let w = pattern@.subrange(i as int, i + 3);
                assert(w[0] == p@[i as int] && w[1] == p@[i + 1] && w[2] == p@[i + 2]);
            }
        }
        i = i + 1;
    }
    assert forall|j: int| !slot_at(pattern@, j) by {}
    false
}

/// A pattern with a slot holds the characters `@N@` somewhere.
pub proof fn lemma_slot_is_named(p: Seq<char>, i: int)
    requires
        0 <= i,
        slots_from(p, i) > 0,
    ensures
        exists|j: int| slot_at(p, j),
    decreases p.len() - i,
{
    if i < p.len() {
        if slot_at(p, i) {
        } else {
            lemma_slot_is_named(p, i + token_len(p, i));
        }
    }
}

/// The error that the `regex` crate gives for an expression it cannot build.
#[verifier::external_type_specification]
#[verifier::external_body]
pub struct ExRegexError(regex::Error);

/// Whether `regex::Regex::new` builds a matcher from the expression `expr`.
pub uninterp spec fn regex_accepts(expr: Seq<char>) -> bool;

/// What `regex::Regex::captures` finds when the matcher built from `expr` is
/// run on `text`: nothing where there is no match; otherwise, for every group
/// of the expression in the order of their opening brackets, the whole match
/// first, the byte offsets at which the group starts and ends in `text`, or
/// nothing for a group that took no part in the match.
pub uninterp spec fn regex_groups(expr: Seq<char>, text: Seq<char>) -> Option<
    Seq<Option<(usize, usize)>>,
>;

/// The groups of a match as a sequence, in the form `regex_groups` has them.
pub open spec fn groups_view(found: Option<Vec<Option<(usize, usize)>>>) -> Option<
    Seq<Option<(usize, usize)>>,
> {
    match found {
        Some(v) => Some(v@),
        None => None,
    }
}

/// Calls `regex::Regex::new` on `expr` and keeps only whether it succeeded:
/// the result is `Ok` exactly when the crate builds a matcher from `expr`,
/// and holds the crate's error otherwise.
#[verifier::external_body]
fn try_build(expr: &str) -> (r: Result<(), regex::Error>)
    ensures
        r is Ok <==> regex_accepts(expr@),
{
    regex::Regex::new(expr).map(|_| ())
}

/// Builds the matcher for `expr` with `regex::Regex::new` and runs
/// `regex::Regex::captures` on `text`. The result is `Ok` exactly when the
/// crate builds a matcher from `expr`; it then holds what `captures` found,
/// each group as the pair of `Match::start` and `Match::end`.
#[verifier::external_body]
fn run_captures(expr: &str, text: &str) -> (r: Result<
    Option<Vec<Option<(usize, usize)>>>,
    regex::Error,
>)
    ensures
        r is Ok <==> regex_accepts(expr@),
        r matches Ok(found) ==> groups_view(found) == regex_groups(expr@, text@),
{
    let re = regex::Regex::new(expr)?;
    Ok(re.captures(text).map(|c| c.iter().map(|g| g.map(|m| (m.start(), m.end()))).collect()))
}

/// Renders a `regex::Error` as text, by its `Display` implementation.
#[verifier::external_body]
fn describe(e: &regex::Error) -> String {
    e.to_string()
}

/// Why a pattern could not be compiled: the expression it translates to was
/// refused, with these words.
#[derive(Debug)]
pub struct CompileError {
    pub message: String,
}

/// A compiled pattern: the matching expression, which was checked to build,
/// and the number of slots whose digits it captures. A matcher is plain data:
/// every call of `captures` hands the expression and a name to the engine.
pub struct Matcher {
    expr: String,
    slots: usize,
}

impl Matcher {
    #[verifier::type_invariant]
    spec fn accepted(&self) -> bool {
        regex_accepts(self.expr@)
    }

    /// The text of the matching expression.
    pub closed spec fn source(&self) -> Seq<char> {
        self.expr@
    }

    /// The number of slots.
    pub closed spec fn slot_count(&self) -> nat {
        self.slots as nat
    }

    /// The text of the matching expression.
    pub fn as_str(&self) -> (s: &str)
        ensures
            s@ == self.source(),
    {
        self.expr.as_str()
    }

    /// The number of slots: one for each `@N@` of the pattern. The groups
    /// that `captures` hands out are one more, the whole match being the
    /// first.
    pub fn slots(&self) -> (n: usize)
        ensures
            n == self.slot_count(),
    {
        self.slots
    }

    /// The groups that the expression finds in `name`, as `regex_groups`
    /// names them, or `None` where `name` does not match.
    pub fn captures(&self, name: &str) -> (found: Option<Vec<Option<(usize, usize)>>>)
        ensures
            groups_view(found) == regex_groups(self.source(), name@),
    {
        proof {
            use_type_invariant(self);
        }
        match run_captures(self.expr.as_str(), name) {
            Ok(found) => found,
            Err(_) => None,
        }
    }
}

/// Compiles `pattern`: translates it to a matching expression and has the
/// expression checked. The result is a matcher for the translation, with the
/// pattern's slots counted, exactly when the translation is accepted.
pub fn compile(pattern: &str) -> (r: Result<Matcher, CompileError>)
    ensures
        r is Ok <==> regex_accepts(expression(pattern@)),
        r matches Ok(m) ==> m.source() == expression(pattern@) && m.slot_count() == slot_count(
            pattern@,
        ),
{
    let (expr, slots) = Compiler::new(pattern).translate();
    match try_build(expr.as_str()) {
        Ok(_) => Ok(Matcher { expr, slots }),
        Err(e) => Err(CompileError { message: describe(&e) }),
    }
}

} // verus!
