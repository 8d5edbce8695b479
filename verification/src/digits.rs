//! Runs of ASCII digits as bytes: their significant part, their value, and the
//! zero-padded form in which a slot is written.

use vstd::prelude::*;

verus! {

/// The byte of the digit zero.
pub const ZERO: u8 = 0x30;

/// `b` is one of the bytes `0` to `9`.
pub open spec fn is_digit(b: u8) -> bool {
    0x30 <= b <= 0x39
}

/// Every byte of `s` is an ASCII digit.
pub open spec fn all_digits(s: Seq<u8>) -> bool {
    forall|i: int| 0 <= i < s.len() ==> is_digit(#[trigger] s[i])
}

/// The number that a run of digits denotes in base ten.
pub open spec fn value(s: Seq<u8>) -> nat
    decreases s.len(),
{
    if s.len() == 0 {
        0
    } else {
        (10 * value(s.drop_last()) + (s.last() - ZERO)) as nat
    }
}

/// `s` without its leading zeros, except that the last byte always stays: the
/// significant part of `000` is `0`, not the empty run.
pub open spec fn significant(s: Seq<u8>) -> Seq<u8>
    decreases s.len(),
{
    if s.len() > 1 && s[0] == ZERO {
        significant(s.skip(1))
    } else {
        s
    }
}

/// `n` zeros.
pub open spec fn zeros(n: nat) -> Seq<u8> {
    Seq::new(n, |i: int| ZERO)
}

/// The significant part of `s`, with zeros in front up to `width` bytes. A run
/// whose significant part is longer than `width` is not cut.
pub open spec fn padded(s: Seq<u8>, width: nat) -> Seq<u8> {
    let sig = significant(s);
    if sig.len() >= width {
        sig
    } else {
        zeros((width - sig.len()) as nat) + sig
    }
}

/// The significant part is a suffix of the run, and what stands before it is
/// zeros only.
pub proof fn lemma_significant_suffix(s: Seq<u8>)
    ensures
        significant(s).len() <= s.len(),
        s.len() > 0 ==> significant(s).len() > 0,
        s == zeros((s.len() - significant(s).len()) as nat) + significant(s),
    decreases s.len(),
{
    if s.len() > 1 && s[0] == ZERO {
        let t = s.skip(1);
        lemma_significant_suffix(t);
        let k = (t.len() - significant(t).len()) as nat;
        let r = zeros(k + 1) + significant(t);
        assert(s.len() == r.len());
        assert forall|i: int| 0 <= i < s.len() implies s[i] == r[i] by {
            if i > 0 {
                assert(s[i] == t[i - 1]);
                assert(t[i - 1] == (zeros(k) + significant(t))[i - 1]);
            }
        }
        assert(s =~= r);
    } else {
        assert(s =~= zeros(0) + s);
    }
}

/// Padding keeps a run of digits a run of digits.
pub proof fn lemma_padded_digits(s: Seq<u8>, width: nat)
    requires
        all_digits(s),
    ensures
        all_digits(padded(s, width)),
{
    lemma_significant_suffix(s);
    let sig = significant(s);
    let n = (s.len() - sig.len()) as nat;
    assert forall|i: int| 0 <= i < sig.len() implies is_digit(#[trigger] sig[i]) by {
        assert(sig[i] == (zeros(n) + sig)[n + i]);
    }
}

/// A run at least as long as its significant part, padded to its own length,
/// is the run itself; padded to `width`, a run has `width` bytes unless its
/// significant part is longer.
pub proof fn lemma_padded_len(s: Seq<u8>, width: nat)
    ensures
        padded(s, width).len() == if significant(s).len() >= width {
            significant(s).len()
        } else {
            width
        },
        width == s.len() ==> padded(s, width) == s,
{
    lemma_significant_suffix(s);
    if width == s.len() {
        if significant(s).len() >= width {
            assert(zeros(0) + significant(s) =~= significant(s));
        }
    }
}

/// Zeros in front of a run do not change the number it denotes.
pub proof fn lemma_zeros_value(n: nat, s: Seq<u8>)
    ensures
        value(zeros(n) + s) == value(s),
    decreases s.len(), n,
{
    let t = zeros(n) + s;
    if s.len() > 0 {
        assert(t.drop_last() =~= zeros(n) + s.drop_last());
        lemma_zeros_value(n, s.drop_last());
    } else if n > 0 {
        assert(t.drop_last() =~= zeros((n - 1) as nat) + s);
        lemma_zeros_value((n - 1) as nat, s);
    } else {
        assert(t =~= s);
    }
}

/// Padding changes how a number is written, not the number: the padded run
/// denotes what the run denoted.
pub proof fn lemma_padded_value(s: Seq<u8>, width: nat)
    ensures
        value(padded(s, width)) == value(s),
{
    lemma_significant_suffix(s);
    let sig = significant(s);
    lemma_zeros_value((s.len() - sig.len()) as nat, sig);
    if sig.len() < width {
        lemma_zeros_value((width - sig.len()) as nat, sig);
    }
}

/// The significant part of a run has no zeros in front that could go.
pub proof fn lemma_significant_twice(s: Seq<u8>)
    ensures
        significant(significant(s)) == significant(s),
    decreases s.len(),
{
    if s.len() > 1 && s[0] == ZERO {
        lemma_significant_twice(s.skip(1));
    }
}

/// Zeros in front of a run that is not empty do not change its significant
/// part.
pub proof fn lemma_zeros_significant(n: nat, s: Seq<u8>)
    requires
        s.len() > 0,
    ensures
        significant(zeros(n) + s) == significant(s),
    decreases n,
{
    let t = zeros(n) + s;
    if n > 0 {
        assert(t.skip(1) =~= zeros((n - 1) as nat) + s);
        lemma_zeros_significant((n - 1) as nat, s);
    } else {
        assert(t =~= s);
    }
}

/// Padding a number keeps its significant digits, and padding it once more
/// to the same width changes nothing.
pub proof fn lemma_padded_twice(s: Seq<u8>, width: nat)
    requires
        s.len() > 0,
    ensures
        significant(padded(s, width)) == significant(s),
        padded(padded(s, width), width) == padded(s, width),
{
    lemma_significant_suffix(s);
    lemma_significant_twice(s);
    let sig = significant(s);
    if sig.len() < width {
        lemma_zeros_significant((width - sig.len()) as nat, sig);
    }
}

/// How many bytes of `field` are significant.
pub fn significant_len(field: &[u8]) -> (n: usize)
    ensures
        n == significant(field@).len(),
{
    let len: usize = field.len();
    let mut i: usize = 0;
    assert(field@.skip(0) =~= field@);
    while i + 1 < len && field[i] == ZERO
        invariant
            len == field@.len(),
            i <= len,
            len > 0 ==> i < len,
            significant(field@) == significant(field@.skip(i as int)),
        decreases len - i,
    {
        proof {
            let t = field@.skip(i as int);
            assert(t.skip(1) =~= field@.skip(i + 1));
        }
        i = i + 1;
    }
    proof {
        let t = field@.skip(i as int);
        assert(significant(t) == t);
    }
    len - i
}

/// Appends the bytes of `src` from `from` up to `to` to `out`.
pub fn push_range(out: &mut Vec<u8>, src: &[u8], from: usize, to: usize)
    requires
        from <= to <= src@.len(),
    ensures
        final(out)@ == old(out)@ + src@.subrange(from as int, to as int),
{
    let ghost before = out@;
    let mut i: usize = from;
    assert(out@ =~= before + src@.subrange(from as int, i as int));
    while i < to
        invariant
            from <= i <= to <= src@.len(),
            out@ == before + src@.subrange(from as int, i as int),
        decreases to - i,
    {
        out.push(src[i]);
        assert(src@.subrange(from as int, i + 1) =~= src@.subrange(from as int, i as int).push(
            src@[i as int],
        ));
        i = i + 1;
        assert(out@ =~= before + src@.subrange(from as int, i as int));
    }
}

/// Appends to `out` the run of digits `field`, padded with zeros to `width`
/// bytes: its leading zeros go, then as many zeros are written as its
/// significant part is short of `width`, then the significant part.
pub fn push_padded(out: &mut Vec<u8>, field: &[u8], width: usize)
    ensures
        final(out)@ == old(out)@ + padded(field@, width as nat),
{
    let ghost before = out@;
    let sig: usize = significant_len(field);
    proof {
        lemma_significant_suffix(field@);
    }
    let from: usize = field.len() - sig;
    proof {
        let z = zeros((field@.len() - sig) as nat);
        assert(field@ == z + significant(field@));
        assert(significant(field@) =~= field@.subrange(from as int, field@.len() as int));
    }
    let mut n: usize = 0;
    let fill: usize = if width > sig {
        width - sig
    } else {
        0
    };
    assert(out@ =~= before + zeros(0));
    while n < fill
        invariant
            n <= fill,
            out@ == before + zeros(n as nat),
        decreases fill - n,
    {
        out.push(ZERO);
        n = n + 1;
        assert(out@ =~= before + zeros(n as nat));
    }
    push_range(out, field, from, field.len());
    proof {
        if sig >= width {
            assert(zeros(0) =~= Seq::<u8>::empty());
            assert(out@ =~= before + padded(field@, width as nat));
        } else {
            assert(out@ =~= before + padded(field@, width as nat));
        }
    }
}

} // verus!
