//! Walking a parsed document, visiting every value with its source path.

use vstd::prelude::*;

use crate::error::ProfileError;
use crate::scan::path::{PathPartView, SourcePath};
use crate::util::json_value::JsonValue;

verus! {

/// One call that a scan makes on its visitor: the start or the end of a
/// document, or a visit of a value (an object, an array or a scalar) at a
/// path.
pub enum ScanEvent {
    BeginDocument(u64),
    EndDocument(u64),
    Visit(u64, Seq<PathPartView>, JsonValue),
}

/// The calls a walk makes, in order: the value at `path`, then, depth first,
/// each member of an object under its name and each item of an array under
/// its index.
pub open spec fn value_events(document_index: u64, value: JsonValue, path: Seq<PathPartView>) -> Seq<ScanEvent>
    decreases value,
{
    match value {
        JsonValue::Object(fields) => {
            proof {
                assert(decreases_to!(value => fields));
                assert(decreases_to!(fields => fields@));
            }
            seq![ScanEvent::Visit(document_index, path, value)] + member_events(document_index, fields@, path)
        },
        JsonValue::Array(items) => {
            proof {
                assert(decreases_to!(value => items));
                assert(decreases_to!(items => items@));
            }
            seq![ScanEvent::Visit(document_index, path, value)] + item_events(document_index, items@, path)
        },
        _ => seq![ScanEvent::Visit(document_index, path, value)],
    }
}

/// The calls of walking the members `fields` of an object at `path`.
pub open spec fn member_events(document_index: u64, fields: Seq<(String, JsonValue)>, path: Seq<PathPartView>) -> Seq<ScanEvent>
    decreases fields,
{
    if fields.len() == 0 {
        Seq::empty()
    } else {
        proof {
            assert(decreases_to!(fields => fields[fields.len() - 1]));
            assert(decreases_to!(fields[fields.len() - 1] => fields[fields.len() - 1].1));
            assert(fields.drop_last() == fields.subrange(0, fields.len() - 1));
        }
        member_events(document_index, fields.drop_last(), path) + value_events(
            document_index,
            fields.last().1,
            path.push(PathPartView::Field(fields.last().0@)),
        )
    }
}

/// The calls of walking the items `items` of an array at `path`.
pub open spec fn item_events(document_index: u64, items: Seq<JsonValue>, path: Seq<PathPartView>) -> Seq<ScanEvent>
    decreases items,
{
    if items.len() == 0 {
        Seq::empty()
    } else {
        proof {
            assert(decreases_to!(items => items[items.len() - 1]));
            assert(items.drop_last() == items.subrange(0, items.len() - 1));
        }
        item_events(document_index, items.drop_last(), path) + value_events(
            document_index,
            items.last(),
            path.push(PathPartView::ArrayIndex((items.len() - 1) as usize)),
        )
    }
}

/// The calls of scanning a document: its start, the walk of its value from
/// the root path, and its end.
pub open spec fn document_events(document_index: u64, value: JsonValue) -> Seq<ScanEvent> {
    seq![ScanEvent::BeginDocument(document_index)] + value_events(document_index, value, Seq::empty())
        + seq![ScanEvent::EndDocument(document_index)]
}

/// `calls` are the calls `expected` made in order up to the first one that
/// failed, and `result` is what that call returned, or `Ok` when every
/// expected call was made and succeeded.
pub open spec fn ran_until_error(
    calls: Seq<(ScanEvent, Result<(), ProfileError>)>,
    expected: Seq<ScanEvent>,
    result: Result<(), ProfileError>,
) -> bool {
    &&& calls.len() <= expected.len()
    &&& forall|i: int| 0 <= i < calls.len() ==> (#[trigger] calls[i]).0 == expected[i]
    &&& forall|i: int| 0 <= i < calls.len() - 1 ==> (#[trigger] calls[i]).1 is Ok
    &&& match result {
        Ok(()) => calls.len() == expected.len() && (calls.len() > 0 ==> calls.last().1 is Ok),
        Err(error) => calls.len() > 0 && calls.last().1 == Err::<(), ProfileError>(error),
    }
}

/// What a scan calls for each document and for each value in it, in
/// document order: an object or array before its members, each member
/// with its path one step deeper.
///
/// Each method's contract says that the call is recorded in `calls`, with
/// what it returned. The run's visitor keeps that record; nothing checks
/// an implementation outside verified code, and one that does not define
/// the record leaves it empty, so that what a scan states of the record
/// does not describe it.
pub trait ScanVisitor {
    /// The calls made on the visitor so far, each with what it returned.
    closed spec fn calls(&self) -> Seq<(ScanEvent, Result<(), ProfileError>)> {
        Seq::empty()
    }

    /// Whether the visitor can take calls; every call keeps it so.
    closed spec fn ready(&self) -> bool {
        true
    }

    fn begin_document(&mut self, document_index: u64) -> (result: Result<(), ProfileError>)
        requires
            old(self).ready(),
        ensures
            final(self).ready(),
            final(self).calls() == old(self).calls().push((ScanEvent::BeginDocument(document_index), result)),
    ;

    fn end_document(&mut self, document_index: u64) -> (result: Result<(), ProfileError>)
        requires
            old(self).ready(),
        ensures
            final(self).ready(),
            final(self).calls() == old(self).calls().push((ScanEvent::EndDocument(document_index), result)),
    ;

    fn visit_object(
        &mut self,
        document_index: u64,
        path: &SourcePath,
        object: &Vec<(String, JsonValue)>,
    ) -> (result: Result<(), ProfileError>)
        requires
            old(self).ready(),
        ensures
            final(self).ready(),
            final(self).calls() == old(self).calls().push(
                (ScanEvent::Visit(document_index, path.parts(), JsonValue::Object(*object)), result),
            ),
    ;

    fn visit_array(&mut self, document_index: u64, path: &SourcePath, array: &Vec<JsonValue>) -> (result: Result<(), ProfileError>)
        requires
            old(self).ready(),
        ensures
            final(self).ready(),
            final(self).calls() == old(self).calls().push(
                (ScanEvent::Visit(document_index, path.parts(), JsonValue::Array(*array)), result),
            ),
    ;

    fn visit_scalar(&mut self, document_index: u64, path: &SourcePath, value: &JsonValue) -> (result: Result<(), ProfileError>)
        requires
            old(self).ready(),
        ensures
            final(self).ready(),
            final(self).calls() == old(self).calls().push((ScanEvent::Visit(document_index, path.parts(), *value), result)),
    ;

    /// The parse of an input text starts (for timing; no call is recorded).
    fn parse_started(&mut self)
        requires
            old(self).ready(),
        ensures
            final(self).ready(),
            final(self).calls() == old(self).calls(),
    {
    }

    /// The parse of an input text of `bytes` bytes succeeded (for timing and
    /// byte counts; no call is recorded).
    fn parse_finished(&mut self, bytes: u64)
        requires
            old(self).ready(),
        ensures
            final(self).ready(),
            final(self).calls() == old(self).calls(),
    {
    }

    /// The walk of a parsed document starts (for timing; no call is
    /// recorded).
    fn walk_started(&mut self)
        requires
            old(self).ready(),
        ensures
            final(self).ready(),
            final(self).calls() == old(self).calls(),
    {
    }

    /// The walk of a parsed document ended (for timing; no call is
    /// recorded).
    fn walk_finished(&mut self)
        requires
            old(self).ready(),
        ensures
            final(self).ready(),
            final(self).calls() == old(self).calls(),
    {
    }
}

pub(crate) proof fn lemma_ran_single(event: ScanEvent, result: Result<(), ProfileError>)
    ensures
        ran_until_error(seq![(event, result)], seq![event], result),
{
}

pub(crate) proof fn lemma_ran_concat(
    first: Seq<(ScanEvent, Result<(), ProfileError>)>,
    first_expected: Seq<ScanEvent>,
    second: Seq<(ScanEvent, Result<(), ProfileError>)>,
    second_expected: Seq<ScanEvent>,
    result: Result<(), ProfileError>,
)
    requires
        ran_until_error(first, first_expected, Ok(())),
        ran_until_error(second, second_expected, result),
    ensures
        ran_until_error(first + second, first_expected + second_expected, result),
{
    let calls = first + second;
    let expected = first_expected + second_expected;
    assert forall|i: int| 0 <= i < calls.len() implies (#[trigger] calls[i]).0 == expected[i] by {
        if i >= first.len() {
            assert(calls[i] == second[i - first.len()]);
        }
    }
    assert forall|i: int| 0 <= i < calls.len() - 1 implies (#[trigger] calls[i]).1 is Ok by {
        if i >= first.len() {
            assert(calls[i] == second[i - first.len()]);
        } else if i == first.len() - 1 {
            assert(first.last() == first[first.len() - 1]);
        }
    }
    if second.len() > 0 {
        assert(calls.last() == second.last());
    } else {
        assert(calls =~= first);
    }
}

pub(crate) proof fn lemma_ran_error_prefix(
    calls: Seq<(ScanEvent, Result<(), ProfileError>)>,
    prefix: Seq<ScanEvent>,
    expected: Seq<ScanEvent>,
    result: Result<(), ProfileError>,
)
    requires
        result is Err,
        ran_until_error(calls, prefix, result),
        prefix.len() <= expected.len(),
        expected.subrange(0, prefix.len() as int) == prefix,
    ensures
        ran_until_error(calls, expected, result),
{
    assert forall|i: int| 0 <= i < calls.len() implies (#[trigger] calls[i]).0 == expected[i] by {
        assert(expected.subrange(0, prefix.len() as int)[i] == expected[i]);
    }
}

proof fn lemma_member_events_prefix(document_index: u64, fields: Seq<(String, JsonValue)>, path: Seq<PathPartView>, k: int)
    requires
        0 <= k <= fields.len(),
    ensures
        member_events(document_index, fields.subrange(0, k), path).len() <= member_events(document_index, fields, path).len(),
        member_events(document_index, fields, path).subrange(
            0,
            member_events(document_index, fields.subrange(0, k), path).len() as int,
        ) == member_events(document_index, fields.subrange(0, k), path),
    decreases fields.len(),
{
    if k == fields.len() {
        assert(fields.subrange(0, k) =~= fields);
    } else {
        let init = fields.drop_last();
        lemma_member_events_prefix(document_index, init, path, k);
        assert(init.subrange(0, k) =~= fields.subrange(0, k));
        let whole = member_events(document_index, fields, path);
        let part = member_events(document_index, init, path);
        let small = member_events(document_index, init.subrange(0, k), path);
        assert(whole.subrange(0, part.len() as int) =~= part);
        assert(whole.subrange(0, small.len() as int) =~= part.subrange(0, small.len() as int));
    }
}

proof fn lemma_item_events_prefix(document_index: u64, items: Seq<JsonValue>, path: Seq<PathPartView>, k: int)
    requires
        0 <= k <= items.len(),
    ensures
        item_events(document_index, items.subrange(0, k), path).len() <= item_events(document_index, items, path).len(),
        item_events(document_index, items, path).subrange(0, item_events(document_index, items.subrange(0, k), path).len() as int)
            == item_events(document_index, items.subrange(0, k), path),
    decreases items.len(),
{
    if k == items.len() {
        assert(items.subrange(0, k) =~= items);
    } else {
        let init = items.drop_last();
        lemma_item_events_prefix(document_index, init, path, k);
        assert(init.subrange(0, k) =~= items.subrange(0, k));
        let whole = item_events(document_index, items, path);
        let part = item_events(document_index, init, path);
        let small = item_events(document_index, init.subrange(0, k), path);
        assert(whole.subrange(0, part.len() as int) =~= part);
        assert(whole.subrange(0, small.len() as int) =~= part.subrange(0, small.len() as int));
    }
}

/// The calls recorded after `before`.
pub open spec fn calls_since(
    calls: Seq<(ScanEvent, Result<(), ProfileError>)>,
    before: Seq<(ScanEvent, Result<(), ProfileError>)>,
) -> Seq<(ScanEvent, Result<(), ProfileError>)> {
    calls.skip(before.len() as int)
}

/// `calls` extends `before`.
pub open spec fn extends(
    calls: Seq<(ScanEvent, Result<(), ProfileError>)>,
    before: Seq<(ScanEvent, Result<(), ProfileError>)>,
) -> bool {
    before.len() <= calls.len() && calls.subrange(0, before.len() as int) == before
}

pub(crate) proof fn lemma_calls_since_split(
    a: Seq<(ScanEvent, Result<(), ProfileError>)>,
    b: Seq<(ScanEvent, Result<(), ProfileError>)>,
    c: Seq<(ScanEvent, Result<(), ProfileError>)>,
)
    requires
        extends(b, a),
        extends(c, b),
    ensures
        extends(c, a),
        calls_since(c, a) == calls_since(b, a) + calls_since(c, b),
{
    assert(c.subrange(0, a.len() as int) =~= c.subrange(0, b.len() as int).subrange(0, a.len() as int));
    assert(calls_since(c, a) =~= calls_since(b, a) + calls_since(c, b)) by {
        assert forall|i: int| 0 <= i < calls_since(b, a).len() implies calls_since(c, a)[i] == calls_since(b, a)[i] by {
            assert(c.subrange(0, b.len() as int)[a.len() + i] == b[a.len() + i]);
        }
    }
}

/// Visits `value` at `path` and then, depth first, each member: a field
/// under its name, an array item under its index. The calls it makes are
/// those of `value_events`, in order, up to the first that fails; it
/// returns that call's error, or `Ok` when every call succeeded. A walk
/// that succeeds leaves `path` as it found it.
pub fn walk_value<V: ScanVisitor>(
    document_index: u64,
    value: &JsonValue,
    path: &mut SourcePath,
    visitor: &mut V,
) -> (result: Result<(), ProfileError>)
    requires
        old(visitor).ready(),
    ensures
        final(visitor).ready(),
        extends(final(visitor).calls(), old(visitor).calls()),
        ran_until_error(
            calls_since(final(visitor).calls(), old(visitor).calls()),
            value_events(document_index, *value, old(path).parts()),
            result,
        ),
        result is Ok ==> final(path).parts() == old(path).parts(),
    decreases value,
{
    let ghost before = visitor.calls();
    let ghost start = path.parts();
    match value {
        JsonValue::Object(object) => {
            let r = visitor.visit_object(document_index, path, object);
            let ghost visit = ScanEvent::Visit(document_index, start, *value);
            proof {
                lemma_ran_single(visit, r);
                assert(calls_since(visitor.calls(), before) =~= seq![(visit, r)]);
                assert(visitor.calls().subrange(0, before.len() as int) =~= before);
            }
            match r {
                Ok(()) => {},
                Err(error) => {
                    proof {
                        let full = value_events(document_index, *value, start);
                        assert(full.subrange(0, 1) =~= seq![visit]);
                        lemma_ran_error_prefix(calls_since(visitor.calls(), before), seq![visit], full, r);
                    }
                    return Err(error);
                },
            }
            let mut index: usize = 0;
            proof {
                assert(object@.subrange(0, 0) =~= Seq::<(String, JsonValue)>::empty());
                assert(seq![visit] + member_events(document_index, object@.subrange(0, 0), start) =~= seq![visit]);
            }
            while index < object.len()
                invariant
                    index <= object@.len(),
                    *value == JsonValue::Object(*object),
                    visit == ScanEvent::Visit(document_index, start, *value),
                    path.parts() == start,
                    start == old(path).parts(),
                    before == old(visitor).calls(),
                    visitor.ready(),
                    extends(visitor.calls(), before),
                    ran_until_error(
                        calls_since(visitor.calls(), before),
                        seq![visit] + member_events(document_index, object@.subrange(0, index as int), start),
                        Ok(()),
                    ),
                decreases object@.len() - index,
            {
                let field = &object[index];
                path.push_field(field.0.as_str());
                proof {
                    assert(*object == (*value)->Object_0);
                    assert(decreases_to!(*value => (*value)->Object_0));
                    assert(decreases_to!(*object => object@));
                    assert(decreases_to!(object@ => object@[index as int]));
                    assert(decreases_to!(object@[index as int] => object@[index as int].1));
                    assert(decreases_to!(*value => object@[index as int].1));
                }
                let ghost middle = visitor.calls();
                let ghost done = seq![visit] + member_events(document_index, object@.subrange(0, index as int), start);
                let ghost child = value_events(document_index, field.1, start.push(PathPartView::Field(field.0@)));
                let r = walk_value(document_index, &field.1, path, visitor);
                proof {
                    lemma_calls_since_split(before, middle, visitor.calls());
                    lemma_ran_concat(calls_since(middle, before), done, calls_since(visitor.calls(), middle), child, r);
                    let next = object@.subrange(0, index + 1);
                    assert(next.drop_last() =~= object@.subrange(0, index as int));
                    assert(next.last() == object@[index as int]);
                    assert(done + child =~= seq![visit] + member_events(document_index, next, start));
                }
                match r {
                    Ok(()) => {},
                    Err(error) => {
                        proof {
                            let full = value_events(document_index, *value, start);
                            let prefix = seq![visit] + member_events(document_index, object@.subrange(0, index + 1), start);
                            lemma_member_events_prefix(document_index, object@, start, index + 1);
                            assert(full == seq![visit] + member_events(document_index, object@, start));
                            assert(full.subrange(0, prefix.len() as int) =~= prefix);
                            lemma_ran_error_prefix(calls_since(visitor.calls(), before), prefix, full, r);
                        }
                        return Err(error);
                    },
                }
                path.pop();
                assert(path.parts() =~= start);
                index = index + 1;
            }
            proof {
                assert(object@.subrange(0, object@.len() as int) =~= object@);
            }
            Ok(())
        },
        JsonValue::Array(array) => {
            let r = visitor.visit_array(document_index, path, array);
            let ghost visit = ScanEvent::Visit(document_index, start, *value);
            proof {
                lemma_ran_single(visit, r);
                assert(calls_since(visitor.calls(), before) =~= seq![(visit, r)]);
                assert(visitor.calls().subrange(0, before.len() as int) =~= before);
            }
            match r {
                Ok(()) => {},
                Err(error) => {
                    proof {
                        let full = value_events(document_index, *value, start);
                        assert(full.subrange(0, 1) =~= seq![visit]);
                        lemma_ran_error_prefix(calls_since(visitor.calls(), before), seq![visit], full, r);
                    }
                    return Err(error);
                },
            }
            let mut index: usize = 0;
            proof {
                assert(array@.subrange(0, 0) =~= Seq::<JsonValue>::empty());
                assert(seq![visit] + item_events(document_index, array@.subrange(0, 0), start) =~= seq![visit]);
            }
            while index < array.len()
                invariant
                    index <= array@.len(),
                    *value == JsonValue::Array(*array),
                    visit == ScanEvent::Visit(document_index, start, *value),
                    path.parts() == start,
                    start == old(path).parts(),
                    before == old(visitor).calls(),
                    visitor.ready(),
                    extends(visitor.calls(), before),
                    ran_until_error(
                        calls_since(visitor.calls(), before),
                        seq![visit] + item_events(document_index, array@.subrange(0, index as int), start),
                        Ok(()),
                    ),
                decreases array@.len() - index,
            {
                path.push_index(index);
                proof {
                    assert(*array == (*value)->Array_0);
                    assert(decreases_to!(*value => (*value)->Array_0));
                    assert(decreases_to!(*array => array@));
                    assert(decreases_to!(array@ => array@[index as int]));
                    assert(decreases_to!(*value => array@[index as int]));
                }
                let ghost middle = visitor.calls();
                let ghost done = seq![visit] + item_events(document_index, array@.subrange(0, index as int), start);
                let ghost child = value_events(document_index, array@[index as int], start.push(PathPartView::ArrayIndex(index)));
                let r = walk_value(document_index, &array[index], path, visitor);
                proof {
                    lemma_calls_since_split(before, middle, visitor.calls());
                    lemma_ran_concat(calls_since(middle, before), done, calls_since(visitor.calls(), middle), child, r);
                    let next = array@.subrange(0, index + 1);
                    assert(next.drop_last() =~= array@.subrange(0, index as int));
                    assert(next.last() == array@[index as int]);
                    assert(done + child =~= seq![visit] + item_events(document_index, next, start));
                }
                match r {
                    Ok(()) => {},
                    Err(error) => {
                        proof {
                            let full = value_events(document_index, *value, start);
                            let prefix = seq![visit] + item_events(document_index, array@.subrange(0, index + 1), start);
                            lemma_item_events_prefix(document_index, array@, start, index + 1);
                            assert(full == seq![visit] + item_events(document_index, array@, start));
                            assert(full.subrange(0, prefix.len() as int) =~= prefix);
                            lemma_ran_error_prefix(calls_since(visitor.calls(), before), prefix, full, r);
                        }
                        return Err(error);
                    },
                }
                path.pop();
                assert(path.parts() =~= start);
                index = index + 1;
            }
            proof {
                assert(array@.subrange(0, array@.len() as int) =~= array@);
            }
            Ok(())
        },
        _ => {
            let r = visitor.visit_scalar(document_index, path, value);
            proof {
                lemma_ran_single(ScanEvent::Visit(document_index, start, *value), r);
                assert(calls_since(visitor.calls(), before) =~= seq![(ScanEvent::Visit(document_index, start, *value), r)]);
                assert(visitor.calls().subrange(0, before.len() as int) =~= before);
            }
            r
        },
    }
}

/// Scans one parsed document: begins it, walks it from the root path, and
/// ends it. The calls it makes are those of `document_events`, in order, up
/// to the first that fails; it returns that call's error, or `Ok` when
/// every call succeeded.
pub fn scan_document<V: ScanVisitor>(document_index: u64, value: &JsonValue, visitor: &mut V) -> (result: Result<(), ProfileError>)
    requires
        old(visitor).ready(),
    ensures
        final(visitor).ready(),
        extends(final(visitor).calls(), old(visitor).calls()),
        ran_until_error(calls_since(final(visitor).calls(), old(visitor).calls()), document_events(document_index, *value), result),
{
    let ghost before = visitor.calls();
    let ghost begin = ScanEvent::BeginDocument(document_index);
    let ghost walk = value_events(document_index, *value, Seq::empty());
    let ghost end = ScanEvent::EndDocument(document_index);
    let ghost full = document_events(document_index, *value);
    let r = visitor.begin_document(document_index);
    proof {
        lemma_ran_single(begin, r);
        assert(calls_since(visitor.calls(), before) =~= seq![(begin, r)]);
        assert(visitor.calls().subrange(0, before.len() as int) =~= before);
    }
    match r {
        Ok(()) => {},
        Err(error) => {
            proof {
                assert(full.subrange(0, 1) =~= seq![begin]);
                lemma_ran_error_prefix(calls_since(visitor.calls(), before), seq![begin], full, r);
            }
            return Err(error);
        },
    }
    let mut path = SourcePath::root();
    let ghost after_begin = visitor.calls();
    let r = walk_value(document_index, value, &mut path, visitor);
    proof {
        lemma_calls_since_split(before, after_begin, visitor.calls());
        lemma_ran_concat(calls_since(after_begin, before), seq![begin], calls_since(visitor.calls(), after_begin), walk, r);
    }
    match r {
        Ok(()) => {},
        Err(error) => {
            proof {
                assert(full.subrange(0, (seq![begin] + walk).len() as int) =~= seq![begin] + walk);
                lemma_ran_error_prefix(calls_since(visitor.calls(), before), seq![begin] + walk, full, r);
            }
            return Err(error);
        },
    }
    let ghost after_walk = visitor.calls();
    let r = visitor.end_document(document_index);
    proof {
        lemma_ran_single(end, r);
        assert(calls_since(visitor.calls(), after_walk) =~= seq![(end, r)]);
        assert(visitor.calls().subrange(0, after_walk.len() as int) =~= after_walk);
        lemma_calls_since_split(before, after_walk, visitor.calls());
        lemma_ran_concat(calls_since(after_walk, before), seq![begin] + walk, calls_since(visitor.calls(), after_walk), seq![end], r);
        assert(full =~= seq![begin] + walk + seq![end]);
    }
    r
}

} // verus!
