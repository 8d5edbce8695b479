//! Names as text: that the bytes of a respliced name are valid UTF-8 whenever
//! those of the old name are, and the step from bytes back to a string.

use vstd::prelude::*;
use vstd::utf8::{decode_utf8, decode_utf8_encode_utf8, encode_utf8, encode_utf8_decode_utf8,
    is_char_boundary,
    is_char_boundary_iff_is_leading_byte, is_leading_byte_width_1,
    partial_valid_partial_invalid_utf8, partial_valid_utf8, partial_valid_utf8_extend_ascii_block,
    valid_utf8, valid_utf8_concat, valid_utf8_split};
use crate::digits::{all_digits, is_digit, lemma_padded_digits, padded};
use crate::splice::{field, gap, gap_end, prev_end, respliced, span_ok, spans_ok, width_at};

verus! {

/// A run of digits is valid UTF-8.
pub proof fn lemma_digits_valid(s: Seq<u8>)
    requires
        all_digits(s),
    ensures
        valid_utf8(s),
{
    assert(s.subrange(0, 0) =~= Seq::<u8>::empty());
    assert(partial_valid_utf8(s, 0));
    assert forall|i: int| 0 <= 0 <= i < s.len() <= s.len() implies #[trigger] is_leading_byte_width_1(
        s[i],
    ) by {
        assert(is_digit(s[i]));
    }
    partial_valid_utf8_extend_ascii_block(s, 0, s.len() as int);
    assert(s.subrange(0, s.len() as int) =~= s);
}

/// In valid UTF-8, the bytes before a run of digits are valid by themselves,
/// and so are the bytes up to the end of the run.
pub proof fn lemma_cut_at_digits(name: Seq<u8>, a: int, b: int)
    requires
        valid_utf8(name),
        0 <= a < b <= name.len(),
        all_digits(name.subrange(a, b)),
    ensures
        partial_valid_utf8(name, a),
        partial_valid_utf8(name, b),
{
    let f = name.subrange(a, b);
    assert forall|i: int| a <= i < b implies is_digit(name[i]) by {
        assert(f[i - a] == name[i]);
    }
    assert(is_leading_byte_width_1(name[a]));
    is_char_boundary_iff_is_leading_byte(name, a);
    assert(is_char_boundary(name, a));
    valid_utf8_split(name, a);
    assert(partial_valid_utf8(name, a));
    assert forall|i: int| 0 <= a <= i < b <= name.len() implies #[trigger] is_leading_byte_width_1(
        name[i],
    ) by {
        assert(is_digit(name[i]));
    }
    partial_valid_utf8_extend_ascii_block(name, a, b);
}

/// Where the bytes up to `i` and the bytes up to `j` are each valid UTF-8,
/// so are the bytes between `i` and `j`.
pub proof fn lemma_between_cuts(name: Seq<u8>, i: int, j: int)
    requires
        0 <= i <= j <= name.len(),
        partial_valid_utf8(name, i),
        partial_valid_utf8(name, j),
    ensures
        valid_utf8(name.subrange(i, j)),
{
    let m = name.subrange(0, j);
    assert(m.subrange(0, i) =~= name.subrange(0, i));
    assert(m.subrange(i, m.len() as int) =~= name.subrange(i, j));
    if !valid_utf8(name.subrange(i, j)) {
        partial_valid_partial_invalid_utf8(m, i);
    }
}

/// The bytes of a name can be cut before and behind every span.
pub proof fn lemma_cuts(name: Seq<u8>, spans: Seq<(usize, usize)>, k: int)
    requires
        valid_utf8(name),
        spans_ok(name, spans),
        0 <= k <= spans.len(),
    ensures
        partial_valid_utf8(name, prev_end(spans, k)),
        partial_valid_utf8(name, gap_end(name, spans, k)),
        prev_end(spans, k) <= gap_end(name, spans, k) <= name.len(),
{
    if k > 0 {
        assert(span_ok(name, spans, k - 1));
        lemma_cut_at_digits(name, spans[k - 1].0 as int, spans[k - 1].1 as int);
    } else {
        assert(name.subrange(0, 0) =~= Seq::<u8>::empty());
    }
    if k < spans.len() {
        assert(span_ok(name, spans, k));
        lemma_cut_at_digits(name, spans[k].0 as int, spans[k].1 as int);
    } else {
        assert(name.subrange(0, name.len() as int) =~= name);
    }
}

/// Resplicing valid UTF-8 gives valid UTF-8.
pub proof fn lemma_respliced_valid(
    name: Seq<u8>,
    spans: Seq<(usize, usize)>,
    widths: Seq<usize>,
    k: nat,
)
    requires
        valid_utf8(name),
        spans_ok(name, spans),
        k <= spans.len(),
    ensures
        valid_utf8(respliced(name, spans, widths, k)),
    decreases k,
{
    lemma_cuts(name, spans, k as int);
    lemma_between_cuts(name, prev_end(spans, k as int), gap_end(name, spans, k as int));
    if k > 0 {
        lemma_respliced_valid(name, spans, widths, (k - 1) as nat);
        assert(span_ok(name, spans, k - 1));
        let number = padded(field(name, spans, k - 1), width_at(widths, k - 1));
        lemma_padded_digits(field(name, spans, k - 1), width_at(widths, k - 1));
        lemma_digits_valid(number);
        let front = respliced(name, spans, widths, (k - 1) as nat);
        valid_utf8_concat(front, number);
        valid_utf8_concat(front + number, gap(name, spans, k as int));
    }
}

/// The bytes of a text: its UTF-8 encoding.
pub open spec fn bytes_of(text: Seq<char>) -> Seq<u8> {
    encode_utf8(text)
}

/// `String::from_utf8`: the bytes become a string exactly when they are valid
/// UTF-8, and the string is then the text they encode.
#[verifier::external_body]
fn string_from_utf8(bytes: Vec<u8>) -> (r: Option<String>)
    ensures
        r is Some <==> valid_utf8(bytes@),
        r matches Some(s) ==> s@ == decode_utf8(bytes@),
{
    String::from_utf8(bytes).ok()
}

/// The text that `bytes` encode, where they are valid UTF-8.
pub fn text_of(bytes: Vec<u8>) -> (r: Option<String>)
    ensures
        r is Some <==> valid_utf8(bytes@),
        r matches Some(s) ==> bytes_of(s@) == bytes@,
{
    let ghost b = bytes@;
    let r = string_from_utf8(bytes);
    proof {
        if valid_utf8(b) {
            decode_utf8_encode_utf8(b);
        }
    }
    r
}

/// Whether two texts are the same.
pub fn string_eq(a: &str, b: &str) -> (same: bool)
    ensures
        same == (a@ == b@),
{
    let x = a.as_bytes();
    let y = b.as_bytes();
    proof {
        encode_utf8_decode_utf8(a@);
        encode_utf8_decode_utf8(b@);
    }
    if x.len() != y.len() {
        return false;
    }
    let mut i: usize = 0;
    while i < x.len()
        invariant
            x@ == bytes_of(a@),
            y@ == bytes_of(b@),
            x@.len() == y@.len(),
            i <= x@.len(),
            forall|j: int| 0 <= j < i ==> x@[j] == y@[j],
        decreases x@.len() - i,
    {
        if x[i] != y[i] {
            return false;
        }
        i = i + 1;
    }
    assert(x@ =~= y@);
    true
}

} // verus!
