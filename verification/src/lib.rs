//! Batch renaming of numbered files: a pattern with `@N@` slots is compiled to
//! a matching expression, the digits every file name holds in a slot are padded
//! with zeros to the width of the longest number seen there, and the renames
//! that result are checked for collisions before anything is touched.

pub mod digits;
pub mod cmd;
pub mod engine;
pub mod laws;
pub mod pattern;
pub mod splice;
pub mod text;

use vstd::prelude::*;

verus! {

/// Whether `s` holds one of the wildcards `*` and `?`, and so names a set of
/// files rather than one file.
pub fn is_glob(s: &str) -> (b: bool)
    ensures
        b == exists|i: int| 0 <= i < s@.len() && (#[trigger] s@[i] == '*' || s@[i] == '?'),
{
    let chars = engine::chars_of(s);
    let mut i: usize = 0;
    while i < chars.len()
        invariant
            chars@ == s@,
            i <= chars@.len(),
            forall|j: int| 0 <= j < i ==> !(#[trigger] s@[j] == '*' || s@[j] == '?'),
        decreases chars@.len() - i,
    {
        if chars[i] == '*' || chars[i] == '?' {
            return true;
        }
        i = i + 1;
    }
    false
}

/// What `str::to_lowercase` gives for a text: its lowercase equivalent.
pub uninterp spec fn lowercase_of(text: Seq<char>) -> Seq<char>;

/// `str::to_lowercase`: the lowercase equivalent of `s` as a new string.
#[verifier::external_body]
fn to_lowercase(s: &str) -> (lower: String)
    ensures
        lower@ == lowercase_of(s@),
{
    s.to_lowercase()
}

/// What a line in lower case says to a yes-or-no question: yes for `y` and
/// `yes`, no for `n` and `no`, and nothing for anything else.
pub open spec fn meaning(lower: Seq<char>) -> Option<bool> {
    if lower == seq!['y'] || lower == seq!['y', 'e', 's'] {
        Some(true)
    } else if lower == seq!['n'] || lower == seq!['n', 'o'] {
        Some(false)
    } else {
        None
    }
}

/// Reads a line that is already in lower case as an answer to a yes-or-no
/// question.
pub fn read_answer(lower: &str) -> (r: Option<bool>)
    ensures
        r == meaning(lower@),
{
    proof {
        reveal_strlit("y");
        reveal_strlit("yes");
        reveal_strlit("n");
        reveal_strlit("no");
        assert("y"@ =~= seq!['y']);
        assert("yes"@ =~= seq!['y', 'e', 's']);
        assert("n"@ =~= seq!['n']);
        assert("no"@ =~= seq!['n', 'o']);
    }
    if text::string_eq(lower, "y") || text::string_eq(lower, "yes") {
        Some(true)
    } else if text::string_eq(lower, "n") || text::string_eq(lower, "no") {
        Some(false)
    } else {
        None
    }
}

/// Reads a line as an answer to a yes-or-no question, whatever its case. A
/// line that is no answer gives `None`: the question is then put again.
pub fn answer(line: &str) -> (r: Option<bool>)
    ensures
        r == meaning(lowercase_of(line@)),
{
    let lower = to_lowercase(line);
    read_answer(lower.as_str())
}

} // verus!
