//! The rename planner: the files whose names match, the width of every slot
//! over all of them, the new names, and what is to be done with each file.

use vstd::prelude::*;
use vstd::utf8::encode_utf8_valid_utf8;
use crate::engine::{compile, regex_accepts, regex_groups, CompileError, Matcher};
use crate::pattern::{expression, slot_count};
use vstd::slice::slice_subrange;
use crate::digits::{significant, significant_len};
use crate::splice::{check_spans, field, new_bytes, span_ok, spans_ok, splice};
use crate::text::{bytes_of, lemma_respliced_valid, string_eq, text_of};

verus! {

/// A file to rename: its name, and the spans of the name that hold the
/// numbers, one for each slot of the pattern, as byte offsets.
pub struct Renamee {
    old: String,
    indices: Vec<(usize, usize)>,
}

impl Renamee {
    #[verifier::type_invariant]
    spec fn spans_fit(&self) -> bool {
        spans_ok(bytes_of(self.old@), self.indices@)
    }

    /// The file's name.
    pub closed spec fn name(&self) -> Seq<char> {
        self.old@
    }

    /// The spans of the name that hold the numbers.
    pub closed spec fn spans(&self) -> Seq<(usize, usize)> {
        self.indices@
    }

    /// The bytes of the file's name.
    pub open spec fn bytes(&self) -> Seq<u8> {
        bytes_of(self.name())
    }

    /// A file named `old` with numbers at `indices`. There is none where the
    /// spans are out of order, overlap, leave the name, are empty, or hold
    /// anything but ASCII digits.
    pub fn new(old: String, indices: Vec<(usize, usize)>) -> (r: Option<Self>)
        ensures
            r is Some <==> spans_ok(bytes_of(old@), indices@),
            r matches Some(c) ==> c.name() == old@ && c.spans() == indices@,
    {
        if check_spans(old.as_str().as_bytes(), &indices) {
            Some(Self { old, indices })
        } else {
            None
        }
    }

    /// The file's name.
    pub fn old_name(&self) -> (s: &str)
        ensures
            s@ == self.name(),
    {
        self.old.as_str()
    }

    /// Computes the new name: the old one with every number padded to the
    /// width that `max_digits` gives for its slot.
    pub fn calc_new_name(&self, max_digits: &[usize]) -> (new: String)
        ensures
            bytes_of(new@) == new_bytes(self.bytes(), self.spans(), max_digits@),
    {
        proof {
            use_type_invariant(self);
            encode_utf8_valid_utf8(self.old@);
            lemma_respliced_valid(
                bytes_of(self.old@),
                self.indices@,
                max_digits@,
                self.indices@.len(),
            );
        }
        let bytes = splice(self.old.as_str().as_bytes(), &self.indices, max_digits);
        match text_of(bytes) {
            Some(new) => new,
            None => String::new(),
        }
    }

    /// The new name of the file for the widths `max_digits`.
    pub fn new_name(&self, max_digits: &[usize]) -> (new: String)
        ensures
            bytes_of(new@) == new_bytes(self.bytes(), self.spans(), max_digits@),
    {
        self.calc_new_name(max_digits)
    }
}

/// The groups that took part in a match, in order, the ones that did not
/// left out.
pub open spec fn kept(groups: Seq<Option<(usize, usize)>>) -> Seq<(usize, usize)>
    decreases groups.len(),
{
    if groups.len() == 0 {
        Seq::empty()
    } else if groups.last() is Some {
        kept(groups.drop_last()).push(groups.last()->0)
    } else {
        kept(groups.drop_last())
    }
}

/// The spans of the slots among the groups of a match: all groups but the
/// first, which is the whole match, as far as they took part.
pub open spec fn picked(groups: Seq<Option<(usize, usize)>>) -> Seq<(usize, usize)> {
    if groups.len() == 0 {
        Seq::empty()
    } else {
        kept(groups.skip(1))
    }
}

/// The groups of a match give one span for each of `slots` slots, and the
/// spans hold numbers of the name, in order.
pub open spec fn groups_fit(name: Seq<u8>, groups: Seq<Option<(usize, usize)>>, slots: nat) -> bool {
    picked(groups).len() == slots && spans_ok(name, picked(groups))
}

/// The spans of the slots among the groups of a match.
pub fn pick(groups: &Vec<Option<(usize, usize)>>) -> (spans: Vec<(usize, usize)>)
    ensures
        spans@ == picked(groups@),
{
    let mut spans: Vec<(usize, usize)> = Vec::new();
    if groups.len() == 0 {
        return spans;
    }
    let ghost rest = groups@.skip(1);
    let mut i: usize = 1;
    assert(rest.take(0) =~= Seq::empty());
    while i < groups.len()
        invariant
            1 <= i <= groups@.len(),
            rest == groups@.skip(1),
            spans@ == kept(rest.take(i - 1)),
        decreases groups@.len() - i,
    {
        proof {
            let next = rest.take(i as int);
            assert(next.drop_last() =~= rest.take(i - 1));
            assert(next.last() == groups@[i as int]);
        }
        match groups[i] {
            Some(span) => {
                spans.push(span);
            },
            None => {},
        }
        i = i + 1;
    }
    assert(rest.take(rest.len() as int) =~= rest);
    spans
}

impl Renamee {
    /// The file named `old` whose match against a pattern of `slots` slots
    /// gave `groups`. There is none unless every slot has its span, and the
    /// spans hold numbers of the name, in order.
    pub fn from_groups(old: String, groups: &Vec<Option<(usize, usize)>>, slots: usize) -> (r:
        Option<Self>)
        ensures
            r is Some <==> groups_fit(bytes_of(old@), groups@, slots as nat),
            r matches Some(c) ==> c.name() == old@ && c.spans() == picked(groups@),
    {
        let spans = pick(groups);
        if spans.len() != slots {
            return None;
        }
        Self::new(old, spans)
    }

    /// Matches the name `old` against `matcher`. The file is found where the
    /// name matches and the groups of the match fit the matcher's slots.
    pub fn parse(matcher: &Matcher, old: String) -> (r: Option<Self>)
        ensures
            r is Some <==> matches_name(matcher.source(), matcher.slot_count(), old@),
            r matches Some(c) ==> c.name() == old@ && c.spans() == picked(
                regex_groups(matcher.source(), old@)->0,
            ),
    {
        match matcher.captures(old.as_str()) {
            Some(groups) => Self::from_groups(old, &groups, matcher.slots()),
            None => None,
        }
    }
}

/// The name `text` matches the expression `expr` with every one of `slots`
/// slots holding a number.
pub open spec fn matches_name(expr: Seq<char>, slots: nat, text: Seq<char>) -> bool {
    regex_groups(expr, text) matches Some(groups) && groups_fit(bytes_of(text), groups, slots)
}

/// What is known of a file's name: the path has no last component, or the
/// component is no valid text, or this is its text.
#[derive(Debug)]
pub enum FileName {
    Missing,
    Undecodable,
    Text(String),
}

/// Why there is no plan. The parse errors hold the position of the file in
/// the list that was given; a collision holds the positions of all files
/// whose new name is taken.
#[derive(Debug)]
pub enum PlanError {
    NoFileName(usize),
    InvalidEncoding(usize),
    NoMatch(usize),
    Collision(Vec<usize>),
}

/// The file has a name, and the name matches.
pub open spec fn accepted(expr: Seq<char>, slots: nat, file: FileName) -> bool {
    file matches FileName::Text(s) && matches_name(expr, slots, s@)
}

/// The error for the file at position `i`, which is not accepted.
pub open spec fn refusal(file: FileName, i: usize) -> PlanError {
    match file {
        FileName::Missing => PlanError::NoFileName(i),
        FileName::Undecodable => PlanError::InvalidEncoding(i),
        FileName::Text(_) => PlanError::NoMatch(i),
    }
}

/// The file at position `i` is the first that is not accepted.
pub open spec fn first_refused(expr: Seq<char>, slots: nat, files: Seq<FileName>, i: int) -> bool {
    &&& 0 <= i < files.len()
    &&& !accepted(expr, slots, files[i])
    &&& forall|j: int| 0 <= j < i ==> accepted(expr, slots, #[trigger] files[j])
}

/// `item` is what parsing the accepted file `file` gives: its name, and the
/// spans of its slots.
pub open spec fn parsed_as(expr: Seq<char>, file: FileName, item: Renamee) -> bool {
    &&& file matches FileName::Text(s)
    &&& item.name() == s@
    &&& item.spans() == picked(regex_groups(expr, s@)->0)
}

/// Parses every file, in order, and stops at the first that has no name,
/// whose name is no text, or whose name does not match: the error is that
/// file's, and nothing is returned for the others.
pub fn parse_all(matcher: &Matcher, files: &Vec<FileName>) -> (r: Result<Vec<Renamee>, PlanError>)
    ensures
        match r {
            Ok(items) => {
                &&& items@.len() == files@.len()
                &&& forall|i: int|
                    0 <= i < files@.len() ==> accepted(
                        matcher.source(),
                        matcher.slot_count(),
                        #[trigger] files@[i],
                    )
                &&& forall|i: int|
                    0 <= i < files@.len() ==> parsed_as(
                        matcher.source(),
                        files@[i],
                        #[trigger] items@[i],
                    )
            },
            Err(e) => exists|i: int|
                first_refused(matcher.source(), matcher.slot_count(), files@, i) && e == refusal(
                    files@[i],
                    i as usize,
                ),
        },
{
    let mut items: Vec<Renamee> = Vec::new();
    let mut i: usize = 0;
    while i < files.len()
        invariant
            i <= files@.len(),
            items@.len() == i,
            forall|j: int|
                0 <= j < i ==> accepted(
                    matcher.source(),
                    matcher.slot_count(),
                    #[trigger] files@[j],
                ),
            forall|j: int|
                0 <= j < i ==> parsed_as(matcher.source(), files@[j], #[trigger] items@[j]),
        decreases files@.len() - i,
    {
        match &files[i] {
            FileName::Missing => {
                assert(first_refused(matcher.source(), matcher.slot_count(), files@, i as int));
                return Err(PlanError::NoFileName(i));
            },
            FileName::Undecodable => {
                assert(first_refused(matcher.source(), matcher.slot_count(), files@, i as int));
                return Err(PlanError::InvalidEncoding(i));
            },
            FileName::Text(name) => {
                match Renamee::parse(matcher, name.clone()) {
                    Some(item) => {
                        items.push(item);
                    },
                    None => {
                        assert(first_refused(
                            matcher.source(),
                            matcher.slot_count(),
                            files@,
                            i as int,
                        ));
                        return Err(PlanError::NoMatch(i));
                    },
                }
            },
        }
        i = i + 1;
    }
    Ok(items)
}

/// How many significant digits the file holds in slot `k`: the length of the
/// number there without its leading zeros, and 0 for a slot it does not have.
pub open spec fn digits_at(item: Renamee, k: int) -> nat {
    if 0 <= k < item.spans().len() {
        significant(field(item.bytes(), item.spans(), k)).len()
    } else {
        0
    }
}

/// The most significant digits that any of the first `upto` files holds in
/// slot `k`.
pub open spec fn widest(items: Seq<Renamee>, k: int, upto: nat) -> nat
    decreases upto,
{
    if upto == 0 {
        0
    } else {
        let before = widest(items, k, (upto - 1) as nat);
        let here = digits_at(items[upto - 1], k);
        if here > before {
            here
        } else {
            before
        }
    }
}

/// `widths` is the width table of `items` for `slots` slots: for every slot
/// the most significant digits that any file holds there.
pub open spec fn is_width_table(items: Seq<Renamee>, slots: nat, widths: Seq<usize>) -> bool {
    &&& widths.len() == slots
    &&& forall|k: int| 0 <= k < slots ==> #[trigger] widths[k] == widest(items, k, items.len())
}

/// Computes the width of every slot over all files.
pub fn max_digits(items: &Vec<Renamee>, slots: usize) -> (widths: Vec<usize>)
    ensures
        is_width_table(items@, slots as nat, widths@),
{
    let mut widths: Vec<usize> = Vec::new();
    while widths.len() < slots
        invariant
            widths@.len() <= slots,
            forall|k: int| 0 <= k < widths@.len() ==> #[trigger] widths@[k] == 0,
        decreases slots - widths@.len(),
    {
        widths.push(0);
    }
    let mut r: usize = 0;
    while r < items.len()
        invariant
            r <= items@.len(),
            widths@.len() == slots,
            forall|k: int| 0 <= k < slots ==> #[trigger] widths@[k] == widest(items@, k, r as nat),
        decreases items@.len() - r,
    {
        let item = &items[r];
        proof {
            use_type_invariant(item);
        }
        let bytes = item.old.as_str().as_bytes();
        let mut k: usize = 0;
        while k < item.indices.len() && k < slots
            invariant
                r < items@.len(),
                *item == items@[r as int],
                bytes@ == item.bytes(),
                spans_ok(item.bytes(), item.spans()),
                k <= item.indices@.len(),
                k <= slots,
                widths@.len() == slots,
                forall|j: int|
                    0 <= j < k ==> #[trigger] widths@[j] == widest(items@, j, (r + 1) as nat),
                forall|j: int|
                    k <= j < slots ==> #[trigger] widths@[j] == widest(items@, j, r as nat),
            decreases item.indices@.len() - k,
        {
            let (a, b) = item.indices[k];
            assert(span_ok(item.bytes(), item.spans(), k as int));
            let n = significant_len(slice_subrange(bytes, a, b));
            assert(n == digits_at(items@[r as int], k as int));
            if n > widths[k] {
                widths.set(k, n);
            }
            k = k + 1;
        }
        r = r + 1;
    }
    widths
}

/// `names` holds, for every file, its name with the numbers padded to the
/// widths of `widths`.
pub open spec fn are_new_names(items: Seq<Renamee>, widths: Seq<usize>, names: Seq<String>) -> bool {
    &&& names.len() == items.len()
    &&& forall|i: int|
        0 <= i < items.len() ==> bytes_of((#[trigger] names[i])@) == new_bytes(
            items[i].bytes(),
            items[i].spans(),
            widths,
        )
}

/// Computes the new name of every file for the widths `widths`.
pub fn new_names(items: &Vec<Renamee>, widths: &Vec<usize>) -> (names: Vec<String>)
    ensures
        are_new_names(items@, widths@, names@),
{
    let mut names: Vec<String> = Vec::new();
    let mut i: usize = 0;
    while i < items.len()
        invariant
            i <= items@.len(),
            names@.len() == i,
            forall|j: int|
                0 <= j < i ==> bytes_of((#[trigger] names@[j])@) == new_bytes(
                    items@[j].bytes(),
                    items@[j].spans(),
                    widths@,
                ),
        decreases items@.len() - i,
    {
        let name = items[i].new_name(widths.as_slice());
        names.push(name);
        i = i + 1;
    }
    names
}

/// What is to be done with a file: nothing, where its name is already the
/// new one; otherwise a rename to `new_name`, with the word on whether a file
/// of that name is in the way.
#[derive(Debug)]
pub enum RenameDecision {
    Skip,
    Rename { new_name: String, exists: bool },
}

/// Whether a file stands at the new name of file `i`. A file that was not
/// probed counts as standing there, so that nothing is overwritten unseen.
pub open spec fn taken(exists: Seq<bool>, i: int) -> bool {
    !(0 <= i < exists.len()) || exists[i]
}

/// File `i` collides: it would get another name, and that name is taken.
pub open spec fn collides(old: Seq<Renamee>, new: Seq<String>, exists: Seq<bool>, i: int) -> bool {
    old[i].name() != new[i]@ && taken(exists, i)
}

/// The positions among the first `upto` files that collide, in order.
pub open spec fn colliding(old: Seq<Renamee>, new: Seq<String>, exists: Seq<bool>, upto: nat) -> Seq<
    usize,
>
    decreases upto,
{
    if upto == 0 {
        Seq::empty()
    } else if collides(old, new, exists, upto - 1) {
        colliding(old, new, exists, (upto - 1) as nat).push((upto - 1) as usize)
    } else {
        colliding(old, new, exists, (upto - 1) as nat)
    }
}

/// `d` is the decision for a file named `old` whose new name is `new`.
pub open spec fn decides(d: RenameDecision, old: Seq<char>, new: Seq<char>, taken: bool) -> bool {
    if old == new {
        d is Skip
    } else {
        d matches RenameDecision::Rename { new_name, exists } && new_name@ == new && exists
            == taken
    }
}

/// The outcome of the first half of planning: the files as parsed, the width
/// of every slot, and the new name of every file.
pub struct Proposal {
    items: Vec<Renamee>,
    widths: Vec<usize>,
    names: Vec<String>,
}

impl Proposal {
    #[verifier::type_invariant]
    spec fn aligned(&self) -> bool {
        self.names@.len() == self.items@.len()
    }

    /// The files, in the order in which they were given.
    pub closed spec fn items(&self) -> Seq<Renamee> {
        self.items@
    }

    /// The width of every slot.
    pub closed spec fn widths(&self) -> Seq<usize> {
        self.widths@
    }

    /// The new name of every file.
    pub closed spec fn names(&self) -> Seq<String> {
        self.names@
    }

    /// The number of files.
    pub fn len(&self) -> (n: usize)
        ensures
            n == self.items().len(),
            n == self.names().len(),
    {
        proof {
            use_type_invariant(self);
        }
        self.items.len()
    }

    /// The width of every slot.
    pub fn max_digits(&self) -> (w: &Vec<usize>)
        ensures
            w@ == self.widths(),
    {
        &self.widths
    }

    /// The present name of file `i`.
    pub fn old_name(&self, i: usize) -> (s: &str)
        requires
            i < self.items().len(),
        ensures
            s@ == self.items()[i as int].name(),
    {
        self.items[i].old_name()
    }

    /// The new name of file `i`.
    pub fn new_name(&self, i: usize) -> (s: &str)
        requires
            i < self.names().len(),
        ensures
            s@ == self.names()[i as int]@,
    {
        self.names[i].as_str()
    }

    /// Whether file `i` keeps its name.
    pub fn is_unchanged(&self, i: usize) -> (same: bool)
        requires
            i < self.items().len(),
        ensures
            same == (self.items()[i as int].name() == self.names()[i as int]@),
    {
        proof {
            use_type_invariant(self);
        }
        string_eq(self.items[i].old_name(), self.names[i].as_str())
    }

    /// Decides what is to be done with every file, given for each whether a
    /// file stands at its new name. Unless `force` is set, nothing is decided
    /// while any file collides: the error lists every file that does.
    /// Otherwise a file whose name stays is skipped, and every other is
    /// renamed, with the word on whether its new name is taken.
    pub fn decide(&self, exists: &Vec<bool>, force: bool) -> (r: Result<
        Vec<RenameDecision>,
        PlanError,
    >)
        ensures
            match r {
                Ok(decisions) => {
                    &&& force || colliding(
                        self.items(),
                        self.names(),
                        exists@,
                        self.items().len(),
                    ).len() == 0
                    &&& decisions@.len() == self.items().len()
                    &&& forall|i: int|
                        0 <= i < self.items().len() ==> decides(
                            #[trigger] decisions@[i],
                            self.items()[i].name(),
                            self.names()[i]@,
                            taken(exists@, i),
                        )
                },
                Err(e) => {
                    &&& !force
                    &&& e matches PlanError::Collision(files)
                    &&& files@.len() > 0
                    &&& files@ == colliding(
                        self.items(),
                        self.names(),
                        exists@,
                        self.items().len(),
                    )
                },
            },
    {
        let n: usize = self.len();
        if !force {
            let mut files: Vec<usize> = Vec::new();
            let mut i: usize = 0;
            while i < n
                invariant
                    n == self.items@.len(),
                    self.names@.len() == n,
                    i <= n,
                    files@ == colliding(self.items@, self.names@, exists@, i as nat),
                decreases n - i,
            {
                let there: bool = i >= exists.len() || exists[i];
                if !self.is_unchanged(i) && there {
                    files.push(i);
                }
                i = i + 1;
            }
            if files.len() > 0 {
                return Err(PlanError::Collision(files));
            }
        }
        let mut decisions: Vec<RenameDecision> = Vec::new();
        let mut i: usize = 0;
        while i < n
            invariant
                n == self.items@.len(),
                self.names@.len() == n,
                i <= n,
                decisions@.len() == i,
                forall|j: int|
                    0 <= j < i ==> decides(
                        #[trigger] decisions@[j],
                        self.items@[j].name(),
                        self.names@[j]@,
                        taken(exists@, j),
                    ),
            decreases n - i,
        {
            let there: bool = i >= exists.len() || exists[i];
            if self.is_unchanged(i) {
                decisions.push(RenameDecision::Skip);
            } else {
                decisions.push(
                    RenameDecision::Rename { new_name: self.names[i].clone(), exists: there },
                );
            }
            i = i + 1;
        }
        Ok(decisions)
    }
}

/// The first half of planning. Every file is parsed, and the first that has
/// no name, whose name is no text, or whose name does not match ends the
/// planning with its error. Then the width of every slot is taken over all
/// files, and every file gets its new name.
pub fn propose(matcher: &Matcher, files: &Vec<FileName>) -> (r: Result<Proposal, PlanError>)
    ensures
        match r {
            Ok(p) => {
                &&& p.items().len() == files@.len()
                &&& forall|i: int|
                    0 <= i < files@.len() ==> accepted(
                        matcher.source(),
                        matcher.slot_count(),
                        #[trigger] files@[i],
                    )
                &&& forall|i: int|
                    0 <= i < files@.len() ==> parsed_as(
                        matcher.source(),
                        files@[i],
                        #[trigger] p.items()[i],
                    )
                &&& is_width_table(p.items(), matcher.slot_count(), p.widths())
                &&& are_new_names(p.items(), p.widths(), p.names())
            },
            Err(e) => exists|i: int|
                first_refused(matcher.source(), matcher.slot_count(), files@, i) && e == refusal(
                    files@[i],
                    i as usize,
                ),
        },
{
    match parse_all(matcher, files) {
        Ok(items) => {
            let widths = max_digits(&items, matcher.slots());
            let names = new_names(&items, &widths);
            Ok(Proposal { items, widths, names })
        },
        Err(e) => Err(e),
    }
}

/// Why a command came to nothing: its pattern does not compile, or there is
/// no plan for its files.
#[derive(Debug)]
pub enum CmdError {
    Compile(CompileError),
    Plan(PlanError),
}

/// What the caller does next with one file.
#[derive(Debug)]
pub enum Step {
    /// Nothing: the file keeps its name.
    Pass,
    /// Ask whether the file is to be renamed, and come back with the answer.
    Ask,
    /// Rename the file, with a warning first where `warn` is set: a file
    /// stands at the new name and will be overwritten.
    Rename { warn: bool },
}

/// A command: the pattern, the files as they were named on the command line,
/// and the three switches.
pub struct Cmd {
    pattern: String,
    files: Vec<String>,
    interactive: bool,
    err_abort: bool,
    force: bool,
}

impl Cmd {
    /// The pattern.
    pub closed spec fn pattern(&self) -> Seq<char> {
        self.pattern@
    }

    /// The files, as they were named.
    pub closed spec fn files(&self) -> Seq<String> {
        self.files@
    }

    /// Whether every rename is confirmed first.
    pub closed spec fn interactive(&self) -> bool {
        self.interactive
    }

    /// Whether the first rename that fails ends the run.
    pub closed spec fn err_abort(&self) -> bool {
        self.err_abort
    }

    /// Whether files that are in the way are overwritten.
    pub closed spec fn force(&self) -> bool {
        self.force
    }

    /// The command for these arguments.
    pub fn from_args(
        pattern: String,
        files: Vec<String>,
        interactive: bool,
        err_abort: bool,
        force: bool,
    ) -> (cmd: Self)
        ensures
            cmd.pattern() == pattern@,
            cmd.files() == files@,
            cmd.interactive() == interactive,
            cmd.err_abort() == err_abort,
            cmd.force() == force,
    {
        Self { pattern, files, interactive, err_abort, force }
    }

    /// The pattern.
    pub fn pattern_str(&self) -> (s: &str)
        ensures
            s@ == self.pattern(),
    {
        self.pattern.as_str()
    }

    /// The files, as they were named.
    pub fn file_args(&self) -> (v: &Vec<String>)
        ensures
            v@ == self.files(),
    {
        &self.files
    }

    /// Whether every rename is confirmed first.
    pub fn is_interactive(&self) -> (b: bool)
        ensures
            b == self.interactive(),
    {
        self.interactive
    }

    /// Whether the first rename that fails ends the run; otherwise the
    /// failure is reported and the run goes on with the next file.
    pub fn stops_on_failure(&self) -> (b: bool)
        ensures
            b == self.err_abort(),
    {
        self.err_abort
    }

    /// Whether files that are in the way are overwritten.
    pub fn is_forced(&self) -> (b: bool)
        ensures
            b == self.force(),
    {
        self.force
    }

    /// Compiles the command's pattern and proposes new names for the files
    /// whose names are `names`. A pattern that does not compile is the first
    /// error; then the first file that cannot be parsed.
    pub fn propose(&self, names: &Vec<FileName>) -> (r: Result<Proposal, CmdError>)
        ensures
            match r {
                Ok(p) => {
                    let expr = expression(self.pattern());
                    let slots = slot_count(self.pattern());
                    &&& regex_accepts(expr)
                    &&& p.items().len() == names@.len()
                    &&& forall|i: int|
                        0 <= i < names@.len() ==> accepted(expr, slots, #[trigger] names@[i])
                    &&& forall|i: int|
                        0 <= i < names@.len() ==> parsed_as(
                            expr,
                            names@[i],
                            #[trigger] p.items()[i],
                        )
                    &&& is_width_table(p.items(), slots, p.widths())
                    &&& are_new_names(p.items(), p.widths(), p.names())
                },
                Err(CmdError::Compile(_)) => !regex_accepts(expression(self.pattern())),
                Err(CmdError::Plan(e)) => {
                    let expr = expression(self.pattern());
                    let slots = slot_count(self.pattern());
                    &&& regex_accepts(expr)
                    &&& exists|i: int|
                        first_refused(expr, slots, names@, i) && e == refusal(
                            names@[i],
                            i as usize,
                        )
                },
            },
    {
        match compile(self.pattern.as_str()) {
            Ok(matcher) => match propose(&matcher, names) {
                Ok(p) => Ok(p),
                Err(e) => Err(CmdError::Plan(e)),
            },
            Err(e) => Err(CmdError::Compile(e)),
        }
    }

    /// Decides on a proposal as `Proposal::decide` does, with the command's
    /// own word on whether files in the way are overwritten.
    pub fn decide(&self, proposal: &Proposal, exists: &Vec<bool>) -> (r: Result<
        Vec<RenameDecision>,
        PlanError,
    >)
        ensures
            match r {
                Ok(decisions) => {
                    &&& self.force() || colliding(
                        proposal.items(),
                        proposal.names(),
                        exists@,
                        proposal.items().len(),
                    ).len() == 0
                    &&& decisions@.len() == proposal.items().len()
                    &&& forall|i: int|
                        0 <= i < proposal.items().len() ==> decides(
                            #[trigger] decisions@[i],
                            proposal.items()[i].name(),
                            proposal.names()[i]@,
                            taken(exists@, i),
                        )
                },
                Err(e) => {
                    &&& !self.force()
                    &&& e matches PlanError::Collision(files)
                    &&& files@.len() > 0
                    &&& files@ == colliding(
                        proposal.items(),
                        proposal.names(),
                        exists@,
                        proposal.items().len(),
                    )
                },
            },
    {
        proposal.decide(exists, self.force)
    }

    /// What to do next with the file that `decision` is about. `answer` is
    /// what was said when the rename was asked about, and `None` before
    /// anything was asked. A file that keeps its name is passed over. A
    /// rename is asked about first where the command is interactive, passed
    /// over where the answer was no, and carried out otherwise, with a
    /// warning where a file stands at the new name.
    pub fn step(&self, decision: &RenameDecision, answer: Option<bool>) -> (next: Step)
        ensures
            next == self.next_step(*decision, answer),
    {
        match decision {
            RenameDecision::Skip => Step::Pass,
            RenameDecision::Rename { new_name: _, exists } => {
                if self.interactive {
                    match answer {
                        None => Step::Ask,
                        Some(false) => Step::Pass,
                        Some(true) => Step::Rename { warn: *exists },
                    }
                } else {
                    Step::Rename { warn: *exists }
                }
            },
        }
    }

    /// The step that follows `decision` and `answer`.
    pub open spec fn next_step(&self, decision: RenameDecision, answer: Option<bool>) -> Step {
        match decision {
            RenameDecision::Skip => Step::Pass,
            RenameDecision::Rename { new_name, exists } => {
                if self.interactive() && answer is None {
                    Step::Ask
                } else if self.interactive() && answer == Some(false) {
                    Step::Pass
                } else {
                    Step::Rename { warn: exists }
                }
            },
        }
    }
}

} // verus!
