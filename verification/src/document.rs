//! The stored document: one line for each class.

use crate::class::{class_complaints, decode_class, encode_class, Class, ClassView};
use crate::classes::{
    by_id, class_views, distinct_ids, has_id, lemma_front_distinct, lemma_position, lemma_put,
    position, put, Classes,
};
use crate::date::{is_calendar_date, today, Date, Ymd};
use crate::error::{error_views, Error, ErrorView};
use crate::roundtrip::{
    lemma_class_fields, lemma_decode_encode_class, lemma_no_class_complaints, storable_class,
};
use crate::sorting::{lemma_sorted_by_same_store, sorted_by, SortingMethod};
use crate::text::{free_of, join, join_texts, lemma_split_join, split, split_on, texts};
use vstd::prelude::*;

verus! {

/// The stored line of each class.
pub open spec fn encoded_lines(classes: Seq<ClassView>) -> Seq<Seq<char>> {
    classes.map_values(|c: ClassView| encode_class(c))
}

/// The document that stores the classes: their lines in the order of their
/// periods, with line breaks between them.
pub open spec fn encode_document(list: Seq<ClassView>) -> Seq<char> {
    join(encoded_lines(sorted_by(list, SortingMethod::Period)), seq!['\n'])
}

/// The lines of a document that are not empty.
pub open spec fn document_lines(text: Seq<char>) -> Seq<Seq<char>> {
    split_on(text, '\n').filter(|l: Seq<char>| l.len() > 0)
}

/// The classes that a run of lines holds. Each class comes into the list as
/// by `put`, so that of two lines with one id the later counts. The first
/// line that cannot be decoded makes the whole run fail.
pub open spec fn decode_lines(lines: Seq<Seq<char>>, fallback: Ymd) -> Result<
    Seq<ClassView>,
    ErrorView,
>
    decreases lines.len(),
{
    if lines.len() == 0 {
        Ok(Seq::<ClassView>::empty())
    } else {
        match decode_lines(lines.drop_last(), fallback) {
            Err(e) => Err(e),
            Ok(list) => match decode_class(lines.last(), fallback) {
                Ok(c) => Ok(put(list, c)),
                Err(e) => Err(e),
            },
        }
    }
}

/// The classes that a document holds.
pub open spec fn decode_document(text: Seq<char>, fallback: Ymd) -> Result<
    Seq<ClassView>,
    ErrorView,
> {
    decode_lines(document_lines(text), fallback)
}

/// The complaints about the dates in a run of lines, line after line.
pub open spec fn line_complaints(lines: Seq<Seq<char>>) -> Seq<ErrorView>
    decreases lines.len(),
{
    if lines.len() == 0 {
        Seq::<ErrorView>::empty()
    } else {
        line_complaints(lines.drop_last()) + class_complaints(lines.last())
    }
}

/// The complaints about the dates in a document: one for every stored
/// assignment whose date cannot be read.
pub open spec fn document_complaints(text: Seq<char>) -> Seq<ErrorView> {
    line_complaints(document_lines(text))
}

/// A failure among the first lines is the failure of the whole run.
pub proof fn lemma_decode_lines_fails(a: Seq<Seq<char>>, b: Seq<Seq<char>>, fallback: Ymd)
    requires
        decode_lines(a, fallback) is Err,
    ensures
        decode_lines(a + b, fallback) == decode_lines(a, fallback),
    decreases b.len(),
{
    if b.len() == 0 {
        assert(a + b =~= a);
    } else {
        lemma_decode_lines_fails(a, b.drop_last(), fallback);
        assert((a + b).drop_last() =~= a + b.drop_last());
    }
}

/// The classes of a document have distinct ids.
pub proof fn lemma_decode_lines_distinct(lines: Seq<Seq<char>>, fallback: Ymd)
    ensures
        decode_lines(lines, fallback) matches Ok(list) ==> distinct_ids(list),
    decreases lines.len(),
{
    if lines.len() > 0 {
        lemma_decode_lines_distinct(lines.drop_last(), fallback);
        match decode_lines(lines.drop_last(), fallback) {
            Ok(list) => match decode_class(lines.last(), fallback) {
                Ok(c) => {
                    lemma_put(list, c);
                },
                Err(_) => {},
            },
            Err(_) => {},
        }
    }
}

/// Joined pieces hold a character only if a piece or the delimiter does.
pub proof fn lemma_join_free_of(parts: Seq<Seq<char>>, sep: char, c: char)
    requires
        free_of(parts, c),
        sep != c,
    ensures
        !join(parts, seq![sep]).contains(c),
        join(parts, seq![sep]).len() >= parts.len() - 1,
    decreases parts.len(),
{
    if parts.len() == 0 {
    } else if parts.len() == 1 {
        assert(!parts[0].contains(c));
    } else {
        let front = parts.drop_last();
        assert(free_of(front, c)) by {
            assert forall|i: int| 0 <= i < front.len() implies !(#[trigger] front[i]).contains(
                c,
            ) by {
                assert(front[i] == parts[i]);
            }
        }
        lemma_join_free_of(front, sep, c);
        let j = join(front, seq![sep]);
        let all = join(parts, seq![sep]);
        assert(!parts[parts.len() - 1].contains(c));
        if all.contains(c) {
            let k = choose|k: int| 0 <= k < all.len() && all[k] == c;
            if k < j.len() {
                assert(j[k] == c);
            } else if k > j.len() {
                assert(parts.last()[k - j.len() - 1] == c);
            }
        }
    }
}

/// A filter that every element passes changes nothing.
pub proof fn lemma_filter_all(lines: Seq<Seq<char>>)
    requires
        forall|i: int| 0 <= i < lines.len() ==> (#[trigger] lines[i]).len() > 0,
    ensures
        lines.filter(|l: Seq<char>| l.len() > 0) == lines,
    decreases lines.len(),
{
    let pred = |l: Seq<char>| l.len() > 0;
    if lines.len() == 0 {
        assert(lines.filter(pred) =~= lines) by {
            reveal(Seq::filter);
        }
    } else {
        let front = lines.drop_last();
        assert forall|i: int| 0 <= i < front.len() implies (#[trigger] front[i]).len() > 0 by {
            assert(front[i] == lines[i]);
        }
        lemma_filter_all(front);
        front.lemma_filter_push(lines.last(), pred);
        assert(front.push(lines.last()) =~= lines);
    }
}

/// The stored lines of storable classes with distinct ids are read back as
/// those classes, in their order.
pub proof fn lemma_decode_lines_encoded(classes: Seq<ClassView>, fallback: Ymd)
    requires
        distinct_ids(classes),
        forall|i: int| 0 <= i < classes.len() ==> storable_class(#[trigger] classes[i]),
    ensures
        decode_lines(encoded_lines(classes), fallback) == Ok::<Seq<ClassView>, ErrorView>(classes),
    decreases classes.len(),
{
    let lines = encoded_lines(classes);
    if classes.len() == 0 {
        assert(classes =~= Seq::<ClassView>::empty());
    } else {
        let front = classes.drop_last();
        let c = classes.last();
        lemma_front_distinct(classes);
        assert forall|i: int| 0 <= i < front.len() implies storable_class(#[trigger] front[i]) by {
            assert(front[i] == classes[i]);
        }
        lemma_decode_lines_encoded(front, fallback);
        assert(lines.drop_last() =~= encoded_lines(front));
        assert(lines.last() == encode_class(c));
        lemma_decode_encode_class(c, fallback);
        lemma_position(front, c.id);
        assert(!has_id(front, c.id)) by {
            if has_id(front, c.id) {
                let k = position(front, c.id);
                assert(front[k] == classes[k]);
                assert(classes[k].id != classes[classes.len() - 1].id);
            }
        }
        assert(front.push(c) =~= classes);
    }
}

/// There is no complaint about the stored lines of storable classes.
pub proof fn lemma_no_line_complaints(classes: Seq<ClassView>)
    requires
        forall|i: int| 0 <= i < classes.len() ==> storable_class(#[trigger] classes[i]),
    ensures
        line_complaints(encoded_lines(classes)) == Seq::<ErrorView>::empty(),
    decreases classes.len(),
{
    if classes.len() > 0 {
        let front = classes.drop_last();
        assert forall|i: int| 0 <= i < front.len() implies storable_class(#[trigger] front[i]) by {
            assert(front[i] == classes[i]);
        }
        lemma_no_line_complaints(front);
        assert(encoded_lines(classes).drop_last() =~= encoded_lines(front));
        assert(encoded_lines(classes).last() == encode_class(classes.last()));
        lemma_no_class_complaints(classes.last());
    }
}

/// Decoding undoes encoding. A store of storable classes with distinct ids
/// comes back from its document with the same class under every id; the
/// classes stand in the order of their periods. There is no complaint about
/// any date in the document.
pub proof fn lemma_decode_encode_document(list: Seq<ClassView>, fallback: Ymd)
    requires
        distinct_ids(list),
        forall|i: int| 0 <= i < list.len() ==> storable_class(#[trigger] list[i]),
    ensures
        decode_document(encode_document(list), fallback) == Ok::<Seq<ClassView>, ErrorView>(
            sorted_by(list, SortingMethod::Period),
        ),
        by_id(sorted_by(list, SortingMethod::Period)) == by_id(list),
        document_complaints(encode_document(list)) == Seq::<ErrorView>::empty(),
{
    let sorted = sorted_by(list, SortingMethod::Period);
    lemma_sorted_by_same_store(list, SortingMethod::Period);
    assert forall|i: int| 0 <= i < sorted.len() implies storable_class(#[trigger] sorted[i]) by {
        assert(list.contains(sorted[i]));
        let k = choose|k: int| 0 <= k < list.len() && list[k] == sorted[i];
        assert(storable_class(list[k]));
    }
    let lines = encoded_lines(sorted);
    let text = encode_document(list);
    let pred = |l: Seq<char>| l.len() > 0;
    if sorted.len() == 0 {
        assert(lines =~= Seq::<Seq<char>>::empty());
        assert(text =~= Seq::<char>::empty());
        let pieces = split_on(text, '\n');
        assert(pieces =~= seq![Seq::<char>::empty()]);
        assert(pieces.drop_last() =~= Seq::<Seq<char>>::empty());
        assert(pieces.filter(pred) =~= Seq::<Seq<char>>::empty()) by {
            reveal_with_fuel(Seq::filter, 2);
        }
        assert(sorted =~= Seq::<ClassView>::empty());
    } else {
        assert forall|i: int| 0 <= i < lines.len() implies !(#[trigger] lines[i]).contains('\n')
            && lines[i].len() > 0 by {
            lemma_class_fields(sorted[i]);
            lemma_join_free_of(crate::class::class_fields(sorted[i]), ',', '\n');
        }
        lemma_split_join(lines, '\n');
        lemma_filter_all(lines);
        lemma_decode_lines_encoded(sorted, fallback);
        lemma_no_line_complaints(sorted);
    }
}

/// The result of decoding a document, as plain values.
pub open spec fn decoded_store(r: Result<Classes, Error>) -> Result<Seq<ClassView>, ErrorView> {
    match r {
        Ok(s) => Ok(s.list()),
        Err(e) => Err(e@),
    }
}

impl Classes {
    /// The document that stores the classes.
    pub fn encode(&self) -> (out: String)
        ensures
            out@ == encode_document(self.list()),
    {
        let classes = self.sorted(SortingMethod::Period);
        let mut lines: Vec<String> = Vec::new();
        let mut i: usize = 0;
        while i < classes.len()
            invariant
                i <= classes.len(),
                texts(lines@) == encoded_lines(class_views(classes@)).take(i as int),
            decreases classes.len() - i,
        {
            let ghost before = texts(lines@);
            lines.push(classes[i].encode());
            proof {
                assert(texts(lines@) =~= before.push(encode_class(classes@[i as int]@)));
                assert(texts(lines@) =~= encoded_lines(class_views(classes@)).take(i + 1));
            }
            i += 1;
        }
        proof {
            assert(texts(lines@) =~= encoded_lines(class_views(classes@)));
            reveal_strlit("\n");
            assert("\n"@ =~= seq!['\n']);
        }
        join_texts(&lines, "\n")
    }

    /// Decodes a document. An assignment whose date cannot be read is due on
    /// `fallback`, and the complaints about such dates come back beside the
    /// store. Empty lines are passed over. Fails with the error of the first
    /// line that cannot be decoded.
    pub fn parse_noting_on(s: String, fallback: Date) -> (r: Result<(Classes, Vec<Error>), Error>)
        ensures
            match decode_document(s@, fallback@) {
                Ok(list) => r matches Ok((store, notes)) && store.list() == list && store.wf()
                    && error_views(notes@) == document_complaints(s@),
                Err(e) => r matches Err(x) && x@ == e,
            },
    {
        let pieces = split(s.as_str(), '\n');
        let ghost all = texts(pieces@);
        let ghost pred = |l: Seq<char>| l.len() > 0;
        let mut store = Classes::new();
        let mut notes: Vec<Error> = Vec::new();
        let mut i: usize = 0;
        proof {
            assert(all.take(0) =~= Seq::<Seq<char>>::empty());
            assert(all.take(0).filter(pred) =~= Seq::<Seq<char>>::empty()) by {
                reveal(Seq::filter);
            }
            assert(error_views(notes@) =~= Seq::<ErrorView>::empty());
        }
        while i < pieces.len()
            invariant
                i <= pieces.len(),
                all == texts(pieces@),
                all == split_on(s@, '\n'),
                pred == |l: Seq<char>| l.len() > 0,
                store.wf(),
                decode_lines(all.take(i as int).filter(pred), fallback@) == Ok::<
                    Seq<ClassView>,
                    ErrorView,
                >(store.list()),
                error_views(notes@) == line_complaints(all.take(i as int).filter(pred)),
            decreases pieces.len() - i,
        {
            let line = &pieces[i];
            proof {
                assert(all.take(i + 1) =~= all.take(i as int).push(line@));
                all.take(i as int).lemma_filter_push(line@, pred);
                assert(all.take(i as int).filter(pred).push(line@).drop_last() =~= all.take(
                    i as int,
                ).filter(pred));
            }
            if !line.as_str().is_empty() {
                match Class::parse_noting_on(line.as_str(), fallback) {
                    Ok((c, mut found)) => {
                        store.add_class(c);
                        let ghost noted = error_views(notes@);
                        let ghost added = error_views(found@);
                        notes.append(&mut found);
                        proof {
                            assert(error_views(notes@) =~= noted + added);
                        }
                    },
                    Err(e) => {
                        proof {
                            assert(all =~= all.take(i + 1) + all.skip(i + 1));
                            Seq::filter_distributes_over_add(
                                all.take(i + 1),
                                all.skip(i + 1),
                                pred,
                            );
                            lemma_decode_lines_fails(
                                all.take(i + 1).filter(pred),
                                all.skip(i + 1).filter(pred),
                                fallback@,
                            );
                        }
                        return Err(e);
                    },
                }
            }
            i += 1;
        }
        proof {
            assert(all.take(pieces@.len() as int) =~= all);
        }
        Ok((store, notes))
    }

    /// Decodes a document; an assignment whose date cannot be read is due on
    /// `fallback`. Empty lines are passed over. Fails with the error of the
    /// first line that cannot be decoded.
    pub fn parse_on(s: String, fallback: Date) -> (r: Result<Classes, Error>)
        ensures
            decoded_store(r) == decode_document(s@, fallback@),
            r matches Ok(store) ==> store.wf(),
    {
        match Classes::parse_noting_on(s, fallback) {
            Ok((store, _)) => Ok(store),
            Err(e) => Err(e),
        }
    }

    /// Decodes a document. An assignment whose date cannot be read is due
    /// today, and the complaints about such dates come back beside the store.
    pub fn parse_noting(s: String) -> (r: Result<(Classes, Vec<Error>), Error>)
        ensures
            exists|fallback: Ymd|
                is_calendar_date(fallback) && match #[trigger] decode_document(s@, fallback) {
                    Ok(list) => r matches Ok((store, notes)) && store.list() == list && store.wf()
                        && error_views(notes@) == document_complaints(s@),
                    Err(e) => r matches Err(x) && x@ == e,
                },
    {
        let now = today();
        Classes::parse_noting_on(s, now)
    }

    /// Decodes a document; an assignment whose date cannot be read is due
    /// today.
    pub fn parse(s: String) -> (r: Result<Classes, Error>)
        ensures
            exists|fallback: Ymd|
                is_calendar_date(fallback) && decoded_store(r) == #[trigger] decode_document(
                    s@,
                    fallback,
                ),
            r matches Ok(store) ==> store.wf(),
    {
        let now = today();
        Classes::parse_on(s, now)
    }
}

} // verus!
