//! What holds of the planner as a whole: where the numbers and the text
//! around them stand in a new name, that widths are maxima, that a set of
//! names in padded form is left alone, and which files collide.

use vstd::prelude::*;
use crate::digits::{lemma_padded_digits, lemma_padded_len, lemma_padded_twice,
    lemma_significant_suffix, padded};
use vstd::utf8::encode_utf8_decode_utf8;
use crate::cmd::{are_new_names, collides, colliding, decides, digits_at, is_width_table, taken,
    widest, RenameDecision, Renamee};
use crate::splice::{field, gap, gap_end, new_bytes, respliced, span_ok, spans_ok, width_at};
use crate::text::bytes_of;

verus! {

/// Where the number of slot `k` starts in the new name.
pub open spec fn new_start(
    name: Seq<u8>,
    spans: Seq<(usize, usize)>,
    widths: Seq<usize>,
    k: int,
) -> int {
    respliced(name, spans, widths, k as nat).len() as int
}

/// Where the number of slot `k` ends in the new name; the start of the name
/// for `k` below 0.
pub open spec fn new_end(
    name: Seq<u8>,
    spans: Seq<(usize, usize)>,
    widths: Seq<usize>,
    k: int,
) -> int {
    if k < 0 {
        0
    } else {
        new_start(name, spans, widths, k) + padded(field(name, spans, k), width_at(widths, k)).len()
    }
}

/// The new name up to gap `j` is the start of the new name up to gap `m`.
pub proof fn lemma_respliced_prefix(
    name: Seq<u8>,
    spans: Seq<(usize, usize)>,
    widths: Seq<usize>,
    j: nat,
    m: nat,
)
    requires
        j <= m,
    ensures
        respliced(name, spans, widths, j).len() <= respliced(name, spans, widths, m).len(),
        respliced(name, spans, widths, m).subrange(
            0,
            respliced(name, spans, widths, j).len() as int,
        ) == respliced(name, spans, widths, j),
    decreases m - j,
{
    let rj = respliced(name, spans, widths, j);
    let rm = respliced(name, spans, widths, m);
    if j == m {
        assert(rm.subrange(0, rj.len() as int) =~= rj);
    } else {
        lemma_respliced_prefix(name, spans, widths, j, (m - 1) as nat);
        let before = respliced(name, spans, widths, (m - 1) as nat);
        assert(rm.subrange(0, rj.len() as int) =~= before.subrange(0, rj.len() as int));
    }
}

/// Literal text stays, numbers change their width only. In the new name the
/// number of every slot is the old number padded to the slot's width, and
/// the text before it is the text that stood before the old number, byte
/// for byte; so is the text behind the last number.
pub proof fn lemma_new_name_structure(
    name: Seq<u8>,
    spans: Seq<(usize, usize)>,
    widths: Seq<usize>,
    k: int,
)
    requires
        spans_ok(name, spans),
        0 <= k <= spans.len(),
    ensures
        ({
            let new = new_bytes(name, spans, widths);
            let from = new_end(name, spans, widths, k - 1);
            let start = new_start(name, spans, widths, k);
            &&& 0 <= from <= start <= new.len()
            &&& new.subrange(from, start) == gap(name, spans, k)
            &&& k < spans.len() ==> {
                let end = new_end(name, spans, widths, k);
                &&& start <= end <= new.len()
                &&& new.subrange(start, end) == padded(field(name, spans, k), width_at(widths, k))
            }
            &&& k == spans.len() ==> start == new.len()
        }),
{
    let n = spans.len();
    let new = new_bytes(name, spans, widths);
    let upto = respliced(name, spans, widths, k as nat);
    lemma_respliced_prefix(name, spans, widths, k as nat, n);
    if k > 0 {
        let before = respliced(name, spans, widths, (k - 1) as nat);
        let number = padded(field(name, spans, k - 1), width_at(widths, k - 1));
        assert(upto == before + number + gap(name, spans, k));
        assert(upto.subrange((before.len() + number.len()) as int, upto.len() as int) =~= gap(
            name,
            spans,
            k,
        ));
        assert(new.subrange((before.len() + number.len()) as int, upto.len() as int) =~= upto.subrange(
            (before.len() + number.len()) as int,
            upto.len() as int,
        ));
    } else {
        assert(new.subrange(0, upto.len() as int) =~= upto);
    }
    if k < n {
        let next = respliced(name, spans, widths, (k + 1) as nat);
        let number = padded(field(name, spans, k), width_at(widths, k));
        lemma_respliced_prefix(name, spans, widths, (k + 1) as nat, n);
        assert(next == upto + number + gap(name, spans, k + 1));
        assert(next.subrange(upto.len() as int, (upto.len() + number.len()) as int) =~= number);
        assert(new.subrange(upto.len() as int, (upto.len() + number.len()) as int) =~= next.subrange(
            upto.len() as int,
            (upto.len() + number.len()) as int,
        ));
    }
}

/// A name whose numbers already have the widths of their slots is its own
/// new name.
pub proof fn lemma_padded_name_stays(
    name: Seq<u8>,
    spans: Seq<(usize, usize)>,
    widths: Seq<usize>,
)
    requires
        spans_ok(name, spans),
        forall|k: int| 0 <= k < spans.len() ==> field(name, spans, k).len() == width_at(widths, k),
    ensures
        new_bytes(name, spans, widths) == name,
{
    lemma_stays_upto(name, spans, widths, spans.len());
    assert(name.subrange(0, name.len() as int) =~= name);
}

/// Up to gap `k`, a name whose numbers have the widths of their slots is its
/// own new name.
proof fn lemma_stays_upto(name: Seq<u8>, spans: Seq<(usize, usize)>, widths: Seq<usize>, k: nat)
    requires
        spans_ok(name, spans),
        k <= spans.len(),
        forall|j: int| 0 <= j < spans.len() ==> field(name, spans, j).len() == width_at(widths, j),
    ensures
        respliced(name, spans, widths, k) == name.subrange(0, gap_end(name, spans, k as int)),
    decreases k,
{
    if k > 0 {
        lemma_stays_upto(name, spans, widths, (k - 1) as nat);
        assert(span_ok(name, spans, k - 1));
        if k < spans.len() {
            assert(span_ok(name, spans, k as int));
        }
        let f = field(name, spans, k - 1);
        lemma_padded_len(f, width_at(widths, k - 1));
        assert(padded(f, width_at(widths, k - 1)) == f);
        assert(respliced(name, spans, widths, k) =~= name.subrange(
            0,
            gap_end(name, spans, k as int),
        ));
    } else if spans.len() > 0 {
        assert(span_ok(name, spans, 0));
    }
}

/// The width of a slot is a maximum: no file among the first `upto` holds
/// more significant digits there, and unless the width is 0 one of them holds
/// exactly that many.
pub proof fn lemma_widest_is_max(items: Seq<Renamee>, k: int, upto: nat)
    requires
        upto <= items.len(),
    ensures
        forall|i: int| 0 <= i < upto ==> digits_at(#[trigger] items[i], k) <= widest(items, k, upto),
        widest(items, k, upto) == 0 || exists|i: int|
            0 <= i < upto && digits_at(#[trigger] items[i], k) == widest(items, k, upto),
    decreases upto,
{
    if upto > 0 {
        lemma_widest_is_max(items, k, (upto - 1) as nat);
        let before = widest(items, k, (upto - 1) as nat);
        let here = digits_at(items[upto - 1], k);
        if here > before {
            assert(digits_at(items[upto - 1], k) == widest(items, k, upto));
        } else if before > 0 {
            let i = choose|i: int| 0 <= i < upto - 1 && digits_at(#[trigger] items[i], k) == before;
            assert(digits_at(items[i], k) == widest(items, k, upto));
        }
    }
}

/// Every number of a new name has exactly the width of its slot, where the
/// widths are those of a set that the file belongs to.
pub proof fn lemma_field_has_slot_width(
    items: Seq<Renamee>,
    slots: nat,
    widths: Seq<usize>,
    i: int,
    k: int,
)
    requires
        is_width_table(items, slots, widths),
        0 <= i < items.len(),
        0 <= k < items[i].spans().len(),
        k < slots,
    ensures
        padded(field(items[i].bytes(), items[i].spans(), k), width_at(widths, k)).len()
            == widths[k],
{
    lemma_widest_is_max(items, k, items.len());
    lemma_padded_len(field(items[i].bytes(), items[i].spans(), k), width_at(widths, k));
    assert(digits_at(items[i], k) <= widest(items, k, items.len()));
}

/// A set of files in padded form is left alone: where every number of every
/// file already has the width of its slot, every decision is to skip.
pub proof fn lemma_padded_set_is_skipped(
    items: Seq<Renamee>,
    widths: Seq<usize>,
    names: Seq<String>,
    exists: Seq<bool>,
    decisions: Seq<RenameDecision>,
)
    requires
        are_new_names(items, widths, names),
        forall|i: int| 0 <= i < items.len() ==> spans_ok(items[i].bytes(), items[i].spans()),
        forall|i: int, k: int|
            0 <= i < items.len() && 0 <= k < items[i].spans().len() ==> (#[trigger] field(
                items[i].bytes(),
                items[i].spans(),
                k,
            )).len() == width_at(widths, k),
        decisions.len() == items.len(),
        forall|i: int|
            0 <= i < items.len() ==> decides(
                #[trigger] decisions[i],
                items[i].name(),
                names[i]@,
                taken(exists, i),
            ),
    ensures
        forall|i: int| 0 <= i < items.len() ==> #[trigger] decisions[i] is Skip,
{
    assert forall|i: int| 0 <= i < items.len() implies #[trigger] decisions[i] is Skip by {
        let item = items[i];
        assert forall|k: int| 0 <= k < item.spans().len() implies field(
            item.bytes(),
            item.spans(),
            k,
        ).len() == width_at(widths, k) by {
            assert(field(items[i].bytes(), items[i].spans(), k).len() == width_at(widths, k));
        }
        lemma_padded_name_stays(item.bytes(), item.spans(), widths);
        assert(bytes_of(names[i]@) == bytes_of(item.name()));
        encode_utf8_decode_utf8(names[i]@);
        encode_utf8_decode_utf8(item.name());
        assert(decides(decisions[i], items[i].name(), names[i]@, taken(exists, i)));
    }
}

/// The list of colliding files holds exactly the files that would get
/// another name while a file stands at that name, each once and in order.
pub proof fn lemma_colliding_lists_all(
    old: Seq<Renamee>,
    new: Seq<String>,
    exists: Seq<bool>,
    upto: nat,
)
    requires
        upto <= usize::MAX,
    ensures
        forall|i: int|
            0 <= i < upto && collides(old, new, exists, i) ==> colliding(
                old,
                new,
                exists,
                upto,
            ).contains(i as usize),
        forall|j: int|
            #![trigger colliding(old, new, exists, upto)[j]]
            0 <= j < colliding(old, new, exists, upto).len() ==> {
                let at = colliding(old, new, exists, upto)[j];
                &&& at < upto
                &&& collides(old, new, exists, at as int)
            },
        forall|j: int, l: int|
            #![trigger colliding(old, new, exists, upto)[j], colliding(old, new, exists, upto)[l]]
            0 <= j < l < colliding(old, new, exists, upto).len() ==> colliding(
                old,
                new,
                exists,
                upto,
            )[j] < colliding(old, new, exists, upto)[l],
    decreases upto,
{
    if upto > 0 {
        lemma_colliding_lists_all(old, new, exists, (upto - 1) as nat);
        let before = colliding(old, new, exists, (upto - 1) as nat);
        let all = colliding(old, new, exists, upto);
        assert forall|i: int| 0 <= i < upto && collides(old, new, exists, i) implies all.contains(
            i as usize,
        ) by {
            if i < upto - 1 {
                assert(before.contains(i as usize));
                let j = choose|j: int| 0 <= j < before.len() && before[j] == i as usize;
                assert(all[j] == i as usize);
            } else {
                assert(all[all.len() - 1] == i as usize);
            }
        }
    }
}

/// Two files that would both be renamed to a name that is taken both
/// collide: the list of colliding files holds the two of them, and a
/// decision for either, where one is made all the same, is a rename with the
/// word that a file is in the way.
pub proof fn lemma_both_collide(
    old: Seq<Renamee>,
    new: Seq<String>,
    exists: Seq<bool>,
    a: int,
    b: int,
    d: RenameDecision,
)
    requires
        old.len() <= usize::MAX,
        new.len() == old.len(),
        0 <= a < b < old.len(),
        old[a].name() != new[a]@,
        old[b].name() != new[b]@,
        taken(exists, a),
        taken(exists, b),
        decides(d, old[a].name(), new[a]@, taken(exists, a)) || decides(
            d,
            old[b].name(),
            new[b]@,
            taken(exists, b),
        ),
    ensures
        colliding(old, new, exists, old.len()).contains(a as usize),
        colliding(old, new, exists, old.len()).contains(b as usize),
        colliding(old, new, exists, old.len()).len() >= 2,
        d matches RenameDecision::Rename { new_name, exists } && exists,
{
    lemma_colliding_lists_all(old, new, exists, old.len());
    let all = colliding(old, new, exists, old.len());
    assert(collides(old, new, exists, a));
    assert(collides(old, new, exists, b));
    assert(all.contains(a as usize));
    assert(all.contains(b as usize));
    let j = choose|j: int| 0 <= j < all.len() && all[j] == a as usize;
    let l = choose|l: int| 0 <= l < all.len() && all[l] == b as usize;
    assert(j != l);
}

/// The numbers of `second` stand where the new name of `first` has them:
/// `second` is what a match finds in that new name when it finds every slot
/// at its padded number.
pub open spec fn found_again(first: Renamee, widths: Seq<usize>, second: Renamee) -> bool {
    &&& second.spans().len() == first.spans().len()
    &&& forall|k: int|
        0 <= k < first.spans().len() ==> {
            &&& (#[trigger] second.spans()[k]).0 == new_start(
                first.bytes(),
                first.spans(),
                widths,
                k,
            )
            &&& second.spans()[k].1 == new_end(first.bytes(), first.spans(), widths, k)
        }
}

/// A new name with its numbers found again is a name with well-formed spans,
/// and every number in it is the old number, padded.
pub proof fn lemma_found_again(first: Renamee, widths: Seq<usize>, second: Renamee)
    requires
        spans_ok(first.bytes(), first.spans()),
        second.bytes() == new_bytes(first.bytes(), first.spans(), widths),
        found_again(first, widths, second),
    ensures
        spans_ok(second.bytes(), second.spans()),
        forall|k: int|
            0 <= k < first.spans().len() ==> #[trigger] field(second.bytes(), second.spans(), k)
                == padded(field(first.bytes(), first.spans(), k), width_at(widths, k)),
{
    let name = first.bytes();
    let spans = first.spans();
    assert forall|k: int| 0 <= k < spans.len() implies #[trigger] span_ok(
        second.bytes(),
        second.spans(),
        k,
    ) && field(second.bytes(), second.spans(), k) == padded(
        field(name, spans, k),
        width_at(widths, k),
    ) by {
        lemma_new_name_structure(name, spans, widths, k);
        assert(span_ok(name, spans, k));
        let f = field(name, spans, k);
        lemma_significant_suffix(f);
        lemma_padded_len(f, width_at(widths, k));
        lemma_padded_digits(f, width_at(widths, k));
        assert(second.spans()[k].0 == new_start(name, spans, widths, k));
        if k > 0 {
            assert(second.spans()[k - 1].1 == new_end(name, spans, widths, k - 1));
        }
    }
    assert forall|k: int| 0 <= k < spans.len() implies #[trigger] field(
        second.bytes(),
        second.spans(),
        k,
    ) == padded(field(name, spans, k), width_at(widths, k)) by {
        assert(span_ok(second.bytes(), second.spans(), k));
    }
}

/// Where every file of `second` holds as many significant digits in slot `k`
/// as the file of `first` at its place, the widest are the same.
pub proof fn lemma_widest_same(first: Seq<Renamee>, second: Seq<Renamee>, k: int, upto: nat)
    requires
        upto <= first.len(),
        second.len() == first.len(),
        forall|i: int| 0 <= i < first.len() ==> digits_at(second[i], k) == digits_at(first[i], k),
    ensures
        widest(second, k, upto) == widest(first, k, upto),
    decreases upto,
{
    if upto > 0 {
        lemma_widest_same(first, second, k, (upto - 1) as nat);
    }
}

/// A second run renames nothing. Where the files of a first run carry their
/// new names, and a match finds every slot of a new name at its padded
/// number, the widths of the second run are those of the first, and every
/// decision of the second run is to skip.
pub proof fn lemma_second_run_skips(
    first: Seq<Renamee>,
    slots: nat,
    widths: Seq<usize>,
    names: Seq<String>,
    second: Seq<Renamee>,
    widths2: Seq<usize>,
    names2: Seq<String>,
    exists: Seq<bool>,
    decisions: Seq<RenameDecision>,
)
    requires
        is_width_table(first, slots, widths),
        are_new_names(first, widths, names),
        forall|i: int|
            0 <= i < first.len() ==> spans_ok(
                (#[trigger] first[i]).bytes(),
                first[i].spans(),
            ) && first[i].spans().len() == slots,
        second.len() == first.len(),
        forall|i: int|
            0 <= i < first.len() ==> (#[trigger] second[i]).name() == names[i]@ && found_again(
                first[i],
                widths,
                second[i],
            ),
        is_width_table(second, slots, widths2),
        are_new_names(second, widths2, names2),
        decisions.len() == second.len(),
        forall|i: int|
            0 <= i < second.len() ==> decides(
                #[trigger] decisions[i],
                second[i].name(),
                names2[i]@,
                taken(exists, i),
            ),
    ensures
        widths2 == widths,
        forall|i: int| 0 <= i < second.len() ==> #[trigger] decisions[i] is Skip,
{
    assert forall|i: int| 0 <= i < first.len() implies spans_ok(
        (#[trigger] second[i]).bytes(),
        second[i].spans(),
    ) && (forall|k: int|
        0 <= k < slots ==> #[trigger] field(second[i].bytes(), second[i].spans(), k) == padded(
            field(first[i].bytes(), first[i].spans(), k),
            width_at(widths, k),
        )) by {
        assert(spans_ok(first[i].bytes(), first[i].spans()));
        assert(second[i].name() == names[i]@);
        assert(bytes_of(names[i]@) == new_bytes(first[i].bytes(), first[i].spans(), widths));
        lemma_found_again(first[i], widths, second[i]);
    }
    assert forall|k: int| 0 <= k < slots implies #[trigger] widths2[k] == widths[k] by {
        assert forall|i: int| 0 <= i < first.len() implies digits_at(second[i], k) == digits_at(
            first[i],
            k,
        ) by {
            assert(spans_ok(first[i].bytes(), first[i].spans()));
            assert(span_ok(first[i].bytes(), first[i].spans(), k));
            assert(found_again(first[i], widths, second[i]));
            assert(spans_ok(second[i].bytes(), second[i].spans()));
            let f = field(first[i].bytes(), first[i].spans(), k);
            assert(field(second[i].bytes(), second[i].spans(), k) == padded(f, width_at(widths, k)));
            lemma_padded_twice(f, width_at(widths, k));
        }
        lemma_widest_same(first, second, k, first.len());
    }
    assert(widths2 =~= widths);
    assert forall|i: int, k: int|
        0 <= i < second.len() && 0 <= k < second[i].spans().len() implies (#[trigger] field(
        second[i].bytes(),
        second[i].spans(),
        k,
    )).len() == width_at(widths2, k) by {
        assert(spans_ok(second[i].bytes(), second[i].spans()));
        assert(found_again(first[i], widths, second[i]));
        assert(first[i].spans().len() == slots);
        assert(field(second[i].bytes(), second[i].spans(), k) == padded(
            field(first[i].bytes(), first[i].spans(), k),
            width_at(widths, k),
        ));
        lemma_field_has_slot_width(first, slots, widths, i, k);
    }
    assert forall|i: int| 0 <= i < second.len() implies spans_ok(
        second[i].bytes(),
        second[i].spans(),
    ) by {
        assert(spans_ok((second[i]).bytes(), second[i].spans()));
    }
    lemma_padded_set_is_skipped(second, widths2, names2, exists, decisions);
}

} // verus!
