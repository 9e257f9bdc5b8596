//! Bulk loading of confidence vectors from the records of a text source.
//!
//! A source has one record on each line: the sample key, then one score for
//! each class, separated by commas. [`split_record`] takes a line apart into
//! these fields. Turning the text of a score into a number is left to the
//! caller, who hands the records on to
//! [`ClassificationOutput::load_records`] with each score either read or
//! not.

use vstd::prelude::*;

use crate::classification::output::ClassificationOutput;
use crate::classification::output::OutputModel;
use crate::classification::table::key_views;
use crate::errors::Error;
use crate::errors::ErrorView;
use crate::utils::onehot::ClassIndex;

verus! {

/// `String::push` of the standard library: the string afterwards is the
/// string before with the character `c` appended at its end.
pub assume_specification[ String::push ](text: &mut String, c: char)
    ensures
        final(text)@ == old(text)@.push(c),
;

/// Whether `c` is white space: a space, a tab, a line feed or a carriage
/// return.
pub open spec fn is_space(c: char) -> bool {
    c == ' ' || c == '\t' || c == '\n' || c == '\r'
}

/// `text` without the white space at its start.
pub open spec fn trim_start(text: Seq<char>) -> Seq<char>
    decreases text.len(),
{
    if text.len() > 0 && is_space(text.first()) {
        trim_start(text.drop_first())
    } else {
        text
    }
}

/// `text` without the white space at its end.
pub open spec fn trim_end(text: Seq<char>) -> Seq<char>
    decreases text.len(),
{
    if text.len() > 0 && is_space(text.last()) {
        trim_end(text.drop_last())
    } else {
        text
    }
}

/// `text` without the white space at its start and at its end.
pub open spec fn trim(text: Seq<char>) -> Seq<char> {
    trim_end(trim_start(text))
}

/// Where the white space at the start of `text` ends: `trim_start` gives
/// the rest of `text` from there.
proof fn lemma_trim_start(text: Seq<char>) -> (start: int)
    ensures
        0 <= start <= text.len(),
        trim_start(text) == text.skip(start),
        forall|i: int| 0 <= i < start ==> is_space(#[trigger] text[i]),
        start < text.len() ==> !is_space(text[start]),
    decreases text.len(),
{
    if text.len() > 0 && is_space(text.first()) {
        let rest = text.drop_first();
        let inner = lemma_trim_start(rest);
        assert(rest.skip(inner) =~= text.skip(inner + 1));
        assert forall|i: int| 0 <= i < inner + 1 implies is_space(#[trigger] text[i]) by {
            if i > 0 {
                assert(text[i] == rest[i - 1]);
            }
        }
        if inner + 1 < text.len() {
            assert(text[inner + 1] == rest[inner]);
        }
        inner + 1
    } else {
        assert(text.skip(0) =~= text);
        0
    }
}

/// Where the white space at the end of `text` starts: `trim_end` gives
/// `text` up to there.
proof fn lemma_trim_end(text: Seq<char>) -> (end: int)
    ensures
        0 <= end <= text.len(),
        trim_end(text) == text.take(end),
        forall|i: int| end <= i < text.len() ==> is_space(#[trigger] text[i]),
        end > 0 ==> !is_space(text[end - 1]),
    decreases text.len(),
{
    if text.len() > 0 && is_space(text.last()) {
        let rest = text.drop_last();
        let inner = lemma_trim_end(rest);
        assert(rest.take(inner) =~= text.take(inner));
        assert forall|i: int| inner <= i < text.len() implies is_space(#[trigger] text[i]) by {
            if i < rest.len() {
                assert(text[i] == rest[i]);
            }
        }
        if inner > 0 {
            assert(text[inner - 1] == rest[inner - 1]);
        }
        inner
    } else {
        assert(text.take(text.len() as int) =~= text);
        text.len() as int
    }
}

/// What `trim` gives is `text` without white space before it and after it,
/// and neither starts nor ends with white space.
pub proof fn lemma_trim(text: Seq<char>)
    ensures
        trim(text).len() > 0 ==> !is_space(trim(text).first()) && !is_space(trim(text).last()),
        exists|start: int, end: int|
            {
                &&& 0 <= start <= end <= text.len()
                &&& #[trigger] text.subrange(start, end) == trim(text)
                &&& forall|i: int|
                    0 <= i < start || end <= i < text.len() ==> is_space(#[trigger] text[i])
            },
{
    let start = lemma_trim_start(text);
    let inner = text.skip(start);
    let kept = lemma_trim_end(inner);
    let end = start + kept;
    assert(inner.take(kept) =~= text.subrange(start, end));
    assert forall|i: int| 0 <= i < start || end <= i < text.len() implies is_space(
        #[trigger] text[i],
    ) by {
        if end <= i {
            assert(text[i] == inner[i - start]);
        }
    }
    if trim(text).len() > 0 {
        assert(trim(text).first() == text[start]);
        assert(trim(text).last() == inner[kept - 1]);
    }
}

/// The pieces into which the commas cut `line`: one more than there are
/// commas, each free of commas, some of them possibly empty.
pub open spec fn split(line: Seq<char>) -> Seq<Seq<char>>
    decreases line.len(),
{
    if line.len() == 0 {
        seq![Seq::empty()]
    } else {
        let before = split(line.drop_last());
        if line.last() == ',' {
            before.push(Seq::empty())
        } else {
            before.drop_last().push(before.last().push(line.last()))
        }
    }
}

/// The fields of the record on `line`: the pieces between the commas, each
/// without the white space around it.
pub open spec fn fields_of(line: Seq<char>) -> Seq<Seq<char>> {
    split(line).map_values(|piece: Seq<char>| trim(piece))
}

/// `pieces` put together again with a comma between each two.
pub open spec fn join(pieces: Seq<Seq<char>>) -> Seq<char>
    decreases pieces.len(),
{
    if pieces.len() == 0 {
        Seq::empty()
    } else if pieces.len() == 1 {
        pieces[0]
    } else {
        join(pieces.drop_last()).push(',') + pieces.last()
    }
}

/// The pieces of a line are free of commas, and joined by commas they are
/// the line again.
pub proof fn lemma_split_joins(line: Seq<char>)
    ensures
        split(line).len() >= 1,
        forall|i: int, j: int|
            0 <= i < split(line).len() && 0 <= j < split(line)[i].len() ==> split(line)[i][j] != ',',
        join(split(line)) == line,
    decreases line.len(),
{
    if line.len() > 0 {
        let rest = line.drop_last();
        let before = split(rest);
        lemma_split_joins(rest);
        assert(line =~= rest.push(line.last()));
        if line.last() == ',' {
            let pieces = before.push(Seq::empty());
            assert(pieces.drop_last() =~= before);
            assert(join(pieces) =~= join(before).push(','));
        } else {
            let last = before.last().push(line.last());
            let pieces = before.drop_last().push(last);
            assert(pieces.drop_last() =~= before.drop_last());
            assert(join(pieces) =~= join(before).push(line.last()));
        }
    }
}

/// Decides [`is_space`].
fn space(c: char) -> (yes: bool)
    ensures
        yes == is_space(c),
{
    c == ' ' || c == '\t' || c == '\n' || c == '\r'
}

/// Dropping `skipped` leading characters that are all white space does
/// not change what `trim_start` gives.
proof fn lemma_trim_start_skip(text: Seq<char>, skipped: int)
    requires
        0 <= skipped <= text.len(),
        forall|i: int| 0 <= i < skipped ==> is_space(#[trigger] text[i]),
    ensures
        trim_start(text) == trim_start(text.skip(skipped)),
    decreases skipped,
{
    if skipped > 0 {
        assert(text.drop_first().skip(skipped - 1) =~= text.skip(skipped));
        lemma_trim_start_skip(text.drop_first(), skipped - 1);
    } else {
        assert(text.skip(0) =~= text);
    }
}

/// Dropping trailing characters that are all white space does not change
/// what `trim_end` gives.
proof fn lemma_trim_end_take(text: Seq<char>, kept: int)
    requires
        0 <= kept <= text.len(),
        forall|i: int| kept <= i < text.len() ==> is_space(#[trigger] text[i]),
    ensures
        trim_end(text) == trim_end(text.take(kept)),
    decreases text.len() - kept,
{
    if kept < text.len() {
        assert(text.drop_last().take(kept) =~= text.take(kept));
        lemma_trim_end_take(text.drop_last(), kept);
    } else {
        assert(text.take(kept) =~= text);
    }
}

/// The characters of `piece` without the white space around them, as a
/// string.
fn trimmed(piece: &Vec<char>) -> (text: String)
    ensures
        text@ == trim(piece@),
{
    let mut start: usize = 0;
    while start < piece.len() && space(piece[start])
        invariant
            start <= piece.len(),
            forall|i: int| 0 <= i < start ==> is_space(#[trigger] piece@[i]),
        decreases piece.len() - start,
    {
        start += 1;
    }
    let mut end: usize = piece.len();
    while end > start && space(piece[end - 1])
        invariant
            start <= end <= piece.len(),
            forall|i: int| end <= i < piece.len() ==> is_space(#[trigger] piece@[i]),
        decreases end,
    {
        end -= 1;
    }
    proof {
        let inner = piece@.skip(start as int);
        lemma_trim_start_skip(piece@, start as int);
        assert(trim_start(inner) == inner) by {
            if inner.len() > 0 {
                assert(inner.first() == piece@[start as int]);
            }
        }
        assert forall|i: int| end - start <= i < inner.len() implies is_space(#[trigger] inner[i]) by {
            assert(inner[i] == piece@[i + start]);
        }
        lemma_trim_end_take(inner, end - start);
        let kept = inner.take(end - start);
        assert(kept =~= piece@.subrange(start as int, end as int));
        assert(trim_end(kept) == kept) by {
            if kept.len() > 0 {
                assert(kept.last() == piece@[end - 1]);
            }
        }
    }
    let mut text = String::new();
    let mut i: usize = start;
    while i < end
        invariant
            start <= i <= end <= piece.len(),
            text@ == piece@.subrange(start as int, i as int),
        decreases end - i,
    {
        text.push(piece[i]);
        assert(piece@.subrange(start as int, i + 1) =~= piece@.subrange(start as int, i as int).push(
            piece@[i as int],
        ));
        i += 1;
    }
    text
}

/// The fields of the record on `line`, as [`fields_of`] says: there is
/// always at least one, and a line without characters has one empty field.
pub fn split_record(line: &str) -> (fields: Vec<String>)
    ensures
        key_views(fields@) == fields_of(line@),
{
    let mut fields: Vec<String> = Vec::new();
    let mut piece: Vec<char> = Vec::new();
    let ghost mut pieces: Seq<Seq<char>> = Seq::empty();
    for c in it: line.chars()
        invariant
            it.seq() == line@,
            split(line@.take(it.index() as int)) == pieces.push(piece@),
            key_views(fields@) == pieces.map_values(|piece: Seq<char>| trim(piece)),
    {
        let ghost seen = line@.take(it.index() as int);
        let ghost seen_next = line@.take(it.index() + 1);
        assert(seen_next.drop_last() =~= seen);
        assert(seen_next.last() == c);
        let ghost before = key_views(fields@);
        if c == ',' {
            fields.push(trimmed(&piece));
            proof {
                pieces = pieces.push(piece@);
                assert(key_views(fields@) =~= before.push(trim(piece@)));
                assert(key_views(fields@) =~= pieces.map_values(|piece: Seq<char>| trim(piece)));
            }
            piece = Vec::new();
        } else {
            piece.push(c);
            assert(split(seen).drop_last() =~= pieces);
        }
    }
    assert(line@.take(line@.len() as int) =~= line@);
    let ghost before = key_views(fields@);
    fields.push(trimmed(&piece));
    proof {
        assert(key_views(fields@) =~= before.push(trim(piece@)));
        assert(key_views(fields@) =~= fields_of(line@));
    }
    fields
}

/// One record of a source: the sample key and, for each score on the
/// line, the number that was read, or `None` where the text is not a
/// number.
pub struct Record<T2> {
    pub key: String,
    pub scores: Vec<Option<T2>>,
}

/// What a [`Record`] holds.
pub struct RecordView<T2> {
    pub key: Seq<char>,
    pub scores: Seq<Option<T2>>,
}

impl<T2> View for Record<T2> {
    type V = RecordView<T2>;

    open spec fn view(&self) -> RecordView<T2> {
        RecordView { key: self.key@, scores: self.scores@ }
    }
}

/// Whether one of `records` has the key `key`.
pub open spec fn names<T2>(records: Seq<RecordView<T2>>, key: Seq<char>) -> bool {
    exists|i: int| 0 <= i < records.len() && (#[trigger] records[i]).key == key
}

/// The records of `records`, each as what it holds.
pub open spec fn record_views<T2>(records: Seq<Record<T2>>) -> Seq<RecordView<T2>> {
    records.map_values(|record: Record<T2>| record@)
}

impl<T2> RecordView<T2> {
    /// Whether the record is that of a blank line: no key and no scores.
    pub open spec fn is_blank(self) -> bool {
        self.key.len() == 0 && self.scores.len() == 0
    }

    /// Whether the record can be loaded into a store of `num_classes`
    /// classes: it is not blank, and it has one score for each class, each
    /// of them a number.
    pub open spec fn well_formed(self, num_classes: nat) -> bool {
        &&& !self.is_blank()
        &&& self.scores.len() == num_classes
        &&& forall|j: int| 0 <= j < self.scores.len() ==> (#[trigger] self.scores[j]) is Some
    }

    /// The confidence vector of a record whose scores are all numbers.
    pub open spec fn vector(self) -> Seq<T2> {
        self.scores.map_values(|score: Option<T2>| score->Some_0)
    }
}

impl<T1: ClassIndex, T2> OutputModel<T1, T2> {
    /// The store after the confidence vectors of `records` were put into
    /// it, one after the other.
    pub open spec fn with_records(self, records: Seq<RecordView<T2>>) -> Self
        decreases records.len(),
    {
        if records.len() == 0 {
            self
        } else {
            self.with_records(records.drop_last()).put(records.last().key, records.last().vector())
        }
    }

    /// Whether every record can be loaded into this store.
    pub open spec fn all_well_formed(self, records: Seq<RecordView<T2>>) -> bool {
        forall|i: int|
            0 <= i < records.len() ==> (#[trigger] records[i]).well_formed(self.num_classes.class())
    }

    /// Whether `records[i]` is the first record that cannot be loaded into
    /// this store.
    pub open spec fn first_malformed(self, records: Seq<RecordView<T2>>, i: int) -> bool {
        &&& 0 <= i < records.len()
        &&& !records[i].well_formed(self.num_classes.class())
        &&& forall|j: int| 0 <= j < i ==> (#[trigger] records[j]).well_formed(self.num_classes.class())
    }

    /// The store after `records` were loaded from the source named
    /// `source`, or why they were not. The load is all or nothing: where a
    /// record cannot be loaded, the error is `MalformedRecord` with the
    /// number of the first such record, counted from 1, and no store.
    pub open spec fn load(self, source: Seq<char>, records: Seq<RecordView<T2>>) -> Result<
        Self,
        ErrorView,
    > {
        if self.all_well_formed(records) {
            Ok(self.with_records(records))
        } else {
            let first = choose|i: int| self.first_malformed(records, i);
            Err(ErrorView::MalformedRecord { line: (first + 1) as usize, source })
        }
    }

    /// The first record that cannot be loaded decides the error of a load.
    pub proof fn lemma_load_rejects(self, source: Seq<char>, records: Seq<RecordView<T2>>, i: int)
        requires
            self.first_malformed(records, i),
        ensures
            self.load(source, records) == Err::<Self, ErrorView>(
                ErrorView::MalformedRecord { line: (i + 1) as usize, source },
            ),
    {
        let first = choose|j: int| self.first_malformed(records, j);
        assert(first == i) by {
            if first < i {
                assert(records[first].well_formed(self.num_classes.class()));
            }
            if i < first {
                assert(records[i].well_formed(self.num_classes.class()));
            }
        }
    }

    /// A record with one score more than there are classes cannot be
    /// loaded: where all records before it can, the load fails with the
    /// number of that record.
    pub proof fn lemma_load_rejects_extra_score(
        self,
        source: Seq<char>,
        records: Seq<RecordView<T2>>,
        i: int,
    )
        requires
            0 <= i < records.len(),
            records[i].scores.len() == self.num_classes.class() + 1,
            self.all_well_formed(records.take(i)),
        ensures
            self.load(source, records) == Err::<Self, ErrorView>(
                ErrorView::MalformedRecord { line: (i + 1) as usize, source },
            ),
    {
        assert forall|j: int| 0 <= j < i implies (#[trigger] records[j]).well_formed(
            self.num_classes.class(),
        ) by {
            assert(records.take(i)[j] == records[j]);
        }
        self.lemma_load_rejects(source, records, i);
    }

    /// What the store holds after records were put into it: the keys it
    /// had and the keys of the records, and for the key of a record that
    /// no later record repeats, the confidence vector of that record.
    pub proof fn lemma_with_records(self, records: Seq<RecordView<T2>>)
        ensures
            self.with_records(records).num_classes == self.num_classes,
            forall|key: Seq<char>| #[trigger]
                self.with_records(records).contains(key) <==> self.contains(key) || names(
                    records,
                    key,
                ),
            forall|i: int|
                0 <= i < records.len() && (forall|j: int|
                    i < j < records.len() ==> (#[trigger] records[j]).key != records[i].key)
                    ==> self.with_records(records).get((#[trigger] records[i]).key) == Ok::<
                    Seq<T2>,
                    ErrorView,
                >(records[i].vector()),
        decreases records.len(),
    {
        if records.len() > 0 {
            let rest = records.drop_last();
            let last = records.last();
            let before = self.with_records(rest);
            let after = self.with_records(records);
            self.lemma_with_records(rest);
            assert forall|key: Seq<char>| #[trigger]
                after.contains(key) <==> self.contains(key) || names(records, key) by {
                assert(after.contains(key) <==> before.contains(key) || key == last.key);
                assert(before.contains(key) <==> self.contains(key) || names(rest, key));
                if names(rest, key) {
                    let i = choose|i: int| 0 <= i < rest.len() && (#[trigger] rest[i]).key == key;
                    assert(records[i] == rest[i]);
                }
                if key == last.key {
                    assert(records[records.len() - 1].key == key);
                }
                if names(records, key) {
                    let i = choose|i: int|
                        0 <= i < records.len() && (#[trigger] records[i]).key == key;
                    if i < rest.len() {
                        assert(rest[i] == records[i]);
                    }
                }
            }
            assert forall|i: int|
                0 <= i < records.len() && (forall|j: int|
                    i < j < records.len() ==> (#[trigger] records[j]).key != records[i].key) implies after.get(
                (#[trigger] records[i]).key,
            ) == Ok::<Seq<T2>, ErrorView>(records[i].vector()) by {
                if i < rest.len() {
                    assert(rest[i] == records[i]);
                    assert forall|j: int| i < j < rest.len() implies (#[trigger] rest[j]).key
                        != rest[i].key by {
                        assert(rest[j] == records[j]);
                    }
                    assert(records[records.len() - 1].key != records[i].key);
                }
            }
        }
    }

    /// Loading records that can all be loaded keeps a valid store valid.
    pub proof fn lemma_with_records_valid(self, records: Seq<RecordView<T2>>)
        requires
            self.valid(),
            self.all_well_formed(records),
        ensures
            self.with_records(records).valid(),
        decreases records.len(),
    {
        if records.len() > 0 {
            let rest = records.drop_last();
            assert forall|i: int| 0 <= i < rest.len() implies (#[trigger] rest[i]).well_formed(
                self.num_classes.class(),
            ) by {
                assert(rest[i] == records[i]);
            }
            self.lemma_with_records_valid(rest);
            self.lemma_with_records(rest);
            let before = self.with_records(rest);
            let last = records.last();
            assert(records[records.len() - 1].well_formed(self.num_classes.class()));
            before.lemma_add_keeps_valid(last.key, last.vector());
        }
    }

    /// Records that can all be loaded, with keys that differ from each
    /// other and from the keys that the store has, are all loaded: the
    /// store has one sample more for each record, and for the key of each
    /// record the confidence vector of that record.
    pub proof fn lemma_load_distinct(self, source: Seq<char>, records: Seq<RecordView<T2>>)
        requires
            self.valid(),
            self.all_well_formed(records),
            forall|i: int, j: int|
                0 <= i < j < records.len() ==> (#[trigger] records[i]).key != (#[trigger] records[j]).key,
            forall|i: int| 0 <= i < records.len() ==> !self.contains((#[trigger] records[i]).key),
        ensures
            self.load(source, records) == Ok::<Self, ErrorView>(self.with_records(records)),
            self.with_records(records).valid(),
            self.with_records(records).count() == self.count() + records.len(),
            forall|i: int|
                0 <= i < records.len() ==> self.with_records(records).get((#[trigger] records[i]).key)
                    == Ok::<Seq<T2>, ErrorView>(records[i].vector()),
        decreases records.len(),
    {
        self.lemma_with_records(records);
        self.lemma_with_records_valid(records);
        if records.len() > 0 {
            let rest = records.drop_last();
            let last = records.last();
            assert forall|i: int| 0 <= i < rest.len() implies (#[trigger] rest[i]).well_formed(
                self.num_classes.class(),
            ) && !self.contains(rest[i].key) by {
                assert(rest[i] == records[i]);
            }
            assert forall|i: int, j: int| 0 <= i < j < rest.len() implies (#[trigger] rest[i]).key != (
            #[trigger] rest[j]).key by {
                assert(rest[i] == records[i]);
                assert(rest[j] == records[j]);
            }
            self.lemma_load_distinct(source, rest);
            self.lemma_with_records(rest);
            let before = self.with_records(rest);
            assert(!before.contains(last.key)) by {
                if before.contains(last.key) {
                    assert(!self.contains(records[records.len() - 1].key));
                    assert(names(rest, last.key));
                    let i = choose|i: int| 0 <= i < rest.len() && (#[trigger] rest[i]).key == last.key;
                    assert(rest[i] == records[i]);
                    assert(records[i].key != records[records.len() - 1].key);
                }
            }
            assert(records[records.len() - 1].well_formed(self.num_classes.class()));
            before.lemma_add_keeps_valid(last.key, last.vector());
        }
    }
}

/// Decides [`RecordView::well_formed`] for a store of `num_classes`
/// classes.
fn can_be_loaded<T1: ClassIndex, T2>(record: &Record<T2>, num_classes: T1) -> (yes: bool)
    ensures
        yes == record@.well_formed(num_classes.class()),
{
    if num_classes.to_index() != Some(record.scores.len()) {
        return false;
    }
    if record.scores.len() == 0 && record.key.as_str().is_empty() {
        return false;
    }
    let mut j: usize = 0;
    while j < record.scores.len()
        invariant
            j <= record.scores.len(),
            forall|i: int| 0 <= i < j ==> (#[trigger] record.scores@[i]) is Some,
        decreases record.scores.len() - j,
    {
        if record.scores[j].is_none() {
            return false;
        }
        j += 1;
    }
    true
}

/// The confidence vector of scores that are all numbers.
fn numbers<T2: Copy>(scores: &Vec<Option<T2>>) -> (vector: Vec<T2>)
    requires
        forall|j: int| 0 <= j < scores@.len() ==> (#[trigger] scores@[j]) is Some,
    ensures
        vector@ == scores@.map_values(|score: Option<T2>| score->Some_0),
{
    let mut vector: Vec<T2> = Vec::with_capacity(scores.len());
    let mut j: usize = 0;
    while j < scores.len()
        invariant
            j <= scores.len(),
            forall|j: int| 0 <= j < scores@.len() ==> (#[trigger] scores@[j]) is Some,
            vector@ == scores@.take(j as int).map_values(|score: Option<T2>| score->Some_0),
        decreases scores.len() - j,
    {
        let ghost before = vector@;
        vector.push(scores[j].unwrap());
        assert(scores@.take(j + 1) =~= scores@.take(j as int).push(scores@[j as int]));
        assert(vector@ =~= scores@.take(j + 1).map_values(|score: Option<T2>| score->Some_0));
        j += 1;
    }
    assert(scores@.take(j as int) =~= scores@);
    vector
}

impl<T1: ClassIndex, T2: Copy> ClassificationOutput<T1, T2> {
    /// Loads the records of the source named `source`, as
    /// [`OutputModel::load`] says: either every record is loaded, or the
    /// store is unchanged and the error names the first record that
    /// could not be loaded, counted from 1, and the source.
    pub fn load_records(&mut self, source: &str, records: &Vec<Record<T2>>) -> (result: Result<
        (),
        Error,
    >)
        ensures
            match (result, old(self)@.load(source@, record_views(records@))) {
                (Ok(()), Ok(after)) => final(self)@ == after,
                (Err(e), Err(expected)) => e@ == expected && final(self)@ == old(self)@,
                _ => false,
            },
    {
        let ghost views = record_views(records@);
        let ghost start = self@;
        let num_classes = self.num_classes();
        let mut i: usize = 0;
        while i < records.len()
            invariant
                i <= records.len(),
                views == record_views(records@),
                self@ == start,
                num_classes == start.num_classes,
                forall|j: int| 0 <= j < i ==> (#[trigger] views[j]).well_formed(num_classes.class()),
            decreases records.len() - i,
        {
            if !can_be_loaded(&records[i], num_classes) {
                proof {
                    assert(views[i as int] == records@[i as int]@);
                    start.lemma_load_rejects(source@, views, i as int);
                }
                return Err(Error::MalformedRecord { line: i + 1, source: source.to_owned() });
            }
            assert(views[i as int] == records@[i as int]@);
            i += 1;
        }
        let mut i: usize = 0;
        while i < records.len()
            invariant
                i <= records.len(),
                views == record_views(records@),
                start.all_well_formed(views),
                self@ == start.with_records(views.take(i as int)),
            decreases records.len() - i,
        {
            let record = &records[i];
            proof {
                assert(views[i as int] == record@);
                assert(views[i as int].well_formed(start.num_classes.class()));
                assert(views.take(i + 1).drop_last() =~= views.take(i as int));
                start.lemma_with_records(views.take(i as int));
            }
            let added = self.add(record.key.as_str(), numbers(&record.scores));
            assert(added is Ok);
            i += 1;
        }
        assert(views.take(i as int) =~= views);
        Ok(())
    }
}

} // verus!
