//! A file name as bytes, the spans of it that hold the numbers, and the name
//! that results when every number is padded to its slot's width while the text
//! around the numbers stays as it is.

use vstd::prelude::*;
use vstd::slice::slice_subrange;
use crate::digits::{all_digits, is_digit, padded, push_padded, push_range};

verus! {

/// Where the span before span `k` ends; the start of the name for the first.
pub open spec fn prev_end(spans: Seq<(usize, usize)>, k: int) -> int {
    if k <= 0 {
        0
    } else {
        spans[k - 1].1 as int
    }
}

/// Span `k` lies in the name, starts no earlier than the span before it ends,
/// is not empty, and holds digits only.
pub open spec fn span_ok(name: Seq<u8>, spans: Seq<(usize, usize)>, k: int) -> bool {
    &&& prev_end(spans, k) <= spans[k].0 < spans[k].1 <= name.len()
    &&& all_digits(name.subrange(spans[k].0 as int, spans[k].1 as int))
}

/// The spans are in order, do not overlap, and each holds a number.
pub open spec fn spans_ok(name: Seq<u8>, spans: Seq<(usize, usize)>) -> bool {
    forall|k: int| 0 <= k < spans.len() ==> span_ok(name, spans, k)
}

/// The digits in span `k`.
pub open spec fn field(name: Seq<u8>, spans: Seq<(usize, usize)>, k: int) -> Seq<u8> {
    name.subrange(spans[k].0 as int, spans[k].1 as int)
}

/// Where the literal text before span `k` ends: at the span's start, or at
/// the end of the name for `k` past the last span.
pub open spec fn gap_end(name: Seq<u8>, spans: Seq<(usize, usize)>, k: int) -> int {
    if k < spans.len() {
        spans[k].0 as int
    } else {
        name.len() as int
    }
}

/// The literal text between span `k - 1` and span `k`. There is one more gap
/// than there are spans: the first starts the name, the last ends it.
pub open spec fn gap(name: Seq<u8>, spans: Seq<(usize, usize)>, k: int) -> Seq<u8> {
    name.subrange(prev_end(spans, k), gap_end(name, spans, k))
}

/// The width of slot `k`; a slot the table does not reach has width 0, so
/// that its number is written without padding.
pub open spec fn width_at(widths: Seq<usize>, k: int) -> nat {
    if 0 <= k < widths.len() {
        widths[k] as nat
    } else {
        0
    }
}

/// The new name up to and including gap `k`: the gaps of the old name, with
/// the padded numbers between them.
pub open spec fn respliced(
    name: Seq<u8>,
    spans: Seq<(usize, usize)>,
    widths: Seq<usize>,
    k: nat,
) -> Seq<u8>
    decreases k,
{
    if k == 0 {
        gap(name, spans, 0)
    } else {
        respliced(name, spans, widths, (k - 1) as nat) + padded(
            field(name, spans, k - 1),
            width_at(widths, k - 1),
        ) + gap(name, spans, k as int)
    }
}

/// The new name: every number of the old one padded to its slot's width.
pub open spec fn new_bytes(name: Seq<u8>, spans: Seq<(usize, usize)>, widths: Seq<usize>) -> Seq<
    u8,
> {
    respliced(name, spans, widths, spans.len())
}

/// Whether the spans are in order, apart, inside the name, and hold digits.
pub fn check_spans(name: &[u8], spans: &Vec<(usize, usize)>) -> (ok: bool)
    ensures
        ok == spans_ok(name@, spans@),
{
    let mut last: usize = 0;
    let mut k: usize = 0;
    while k < spans.len()
        invariant
            k <= spans@.len(),
            last == prev_end(spans@, k as int),
            forall|j: int| 0 <= j < k ==> span_ok(name@, spans@, j),
        decreases spans@.len() - k,
    {
        let (a, b) = spans[k];
        if !(last <= a && a < b && b <= name.len()) {
            assert(!span_ok(name@, spans@, k as int));
            return false;
        }
        let mut i: usize = a;
        while i < b
            invariant
                a <= i <= b <= name@.len(),
                (a, b) == spans@[k as int],
                k < spans@.len(),
                forall|j: int| a <= j < i ==> is_digit(name@[j]),
            decreases b - i,
        {
            let c = name[i];
            if !(0x30 <= c && c <= 0x39) {
                proof {
                    let f = name@.subrange(a as int, b as int);
                    assert(f[i - a] == name@[i as int]);
                    assert(!span_ok(name@, spans@, k as int));
                }
                return false;
            }
            i = i + 1;
        }
        proof {
            let f = name@.subrange(a as int, b as int);
            assert forall|j: int| 0 <= j < f.len() implies is_digit(#[trigger] f[j]) by {
                assert(f[j] == name@[a + j]);
            }
        }
        last = b;
        k = k + 1;
    }
    true
}

/// The width of slot `k` in the table `widths`, 0 where the table is shorter.
pub fn width_of(widths: &[usize], k: usize) -> (w: usize)
    ensures
        w == width_at(widths@, k as int),
{
    if k < widths.len() {
        widths[k]
    } else {
        0
    }
}

/// Builds the new name from the old one: the text before the first span, then
/// for every span its number padded to the slot's width and the text up to
/// the next span, or to the end of the name after the last.
pub fn splice(name: &[u8], spans: &Vec<(usize, usize)>, widths: &[usize]) -> (out: Vec<u8>)
    requires
        spans_ok(name@, spans@),
    ensures
        out@ == new_bytes(name@, spans@, widths@),
{
    let mut out: Vec<u8> = Vec::new();
    let n: usize = spans.len();
    if n == 0 {
        push_range(&mut out, name, 0, name.len());
        assert(out@ =~= gap(name@, spans@, 0));
        return out;
    }
    assert(span_ok(name@, spans@, 0));
    push_range(&mut out, name, 0, spans[0].0);
    assert(out@ =~= respliced(name@, spans@, widths@, 0));
    let mut k: usize = 0;
    while k < n
        invariant
            n == spans@.len(),
            k <= n,
            spans_ok(name@, spans@),
            out@ == respliced(name@, spans@, widths@, k as nat),
        decreases n - k,
    {
        let ghost before = out@;
        let (a, b) = spans[k];
        assert(span_ok(name@, spans@, k as int));
        let digits = slice_subrange(name, a, b);
        push_padded(&mut out, digits, width_of(widths, k));
        let to: usize = if k + 1 < n {
            assert(span_ok(name@, spans@, k + 1));
            spans[k + 1].0
        } else {
            name.len()
        };
        push_range(&mut out, name, b, to);
        k = k + 1;
        proof {
            assert(name@.subrange(b as int, to as int) == gap(name@, spans@, k as int));
            assert(out@ == before + padded(field(name@, spans@, k - 1), width_at(widths@, k - 1))
                + gap(name@, spans@, k as int));
        }
    }
    out
}

} // verus!
