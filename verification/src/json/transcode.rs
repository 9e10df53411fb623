//! From the fragment of a value straight into a document: the fragment is
//! pulled, and what comes out is pushed into the visitor of a value.

use vstd::prelude::*;

use crate::de::Visitor;
use crate::error::Error;
use crate::json::value::{
    entry_shapes, is_plain, item_shapes, keys_sorted, lemma_all_plain, lemma_entries_plain,
    lemma_plain_shape_is_value, lemma_put_at_end, lemma_shape, lemma_shape_of_view,
    lemma_value_view, shape, Value,
};
use crate::place::Place;
use crate::ser::{
    lemma_entries_size_item, lemma_nodes_size_item, node_size, Fragment, Node,
};

verus! {

/// Decodes what a fragment gives into the cell of a place. The value that
/// the cell then holds has the shape of the fragment: scalars are the same,
/// sequences hold the same items in the same order, and mappings hold the
/// same entries under the same keys. It holds no passthrough value: what a
/// passthrough value gives comes back as a mapping under the reserved key.
/// The work goes as deep as the fragment nests.
pub fn transcode(fragment: Fragment<'_>, place: Place<'_, Value>) -> (r: Result<(), Error>)
    ensures
        r is Ok,
        *final(place.out) matches Some(value) && shape(value) == fragment.shape() && is_plain(
            value@,
        ),
    decreases node_size(fragment.shape()),
{
    let mut place = place;
    match fragment {
        Fragment::Null => {
            proof {
                lemma_shape(Value::Null);
                lemma_value_view(Value::Null);
            }
            place.null()
        },
        Fragment::Bool(b) => {
            proof {
                lemma_shape(Value::Bool(b));
                lemma_value_view(Value::Bool(b));
            }
            place.boolean(b)
        },
        Fragment::Str(s) => {
            let r = place.string(s);
            proof {
                lemma_shape((*place.out)->0);
                lemma_value_view((*place.out)->0);
            }
            r
        },
        Fragment::U64(n) => {
            proof {
                lemma_shape(Value::Number(crate::json::value::Number::U64(n)));
                lemma_value_view(Value::Number(crate::json::value::Number::U64(n)));
            }
            place.nonnegative(n)
        },
        Fragment::I64(n) => {
            proof {
                lemma_shape(Value::Number(crate::json::value::Number::I64(n)));
                lemma_value_view(Value::Number(crate::json::value::Number::I64(n)));
            }
            place.negative(n)
        },
        Fragment::Sequence(stream) => {
            let mut stream = stream;
            let ghost all = stream.remaining();
            let ghost at_end = *final(place.out);
            let mut builder = match place.seq() {
                Ok(builder) => builder,
                Err(e) => {
                    return Err(e);
                },
            };
            let ghost mut k: int = 0;
            let mut next = stream.next();
            assert(item_shapes(builder.items()) =~= all.take(0));
            while next.is_some()
                invariant
                    0 <= k <= all.len(),
                    fragment.shape() == Node::Sequence(all),
                    item_shapes(builder.items()) == all.take(k),
                    forall|i: int|
                        0 <= i < builder.items().len() ==> is_plain(
                            (#[trigger] builder.items()[i])@,
                        ),
                    *final(builder.out) == at_end,
                    match next {
                        Some(child) => k < all.len() && child.shape() == all[k]
                            && stream.remaining() == all.skip(k + 1),
                        None => k == all.len(),
                    },
                decreases all.len() - k,
            {
                let child = next.unwrap();
                let ghost before = builder.items();
                proof {
                    lemma_nodes_size_item(all, k);
                }
                match builder.element() {
                    Ok(slot) => {
                        let _ = transcode(child, slot);
                    },
                    Err(_) => {},
                }
                proof {
                    let value = builder.element->0;
                    assert(item_shapes(before).len() == before.len());
                    assert(before.len() == k);
                    assert(builder.items() == before.push(value));
                    assert(shape(value) == all[k]);
                    assert forall|i: int| 0 <= i < k + 1 implies #[trigger] item_shapes(
                        builder.items(),
                    )[i] == all.take(k + 1)[i] by {
                        if i < k {
                            assert(item_shapes(before)[i] == all.take(k)[i]);
                        }
                    }
                    assert(item_shapes(builder.items()) =~= all.take(k + 1));
                    k = k + 1;
                }
                next = stream.next();
                proof {
                    if next is Some {
                        assert(all.skip(k)[0] == all[k]);
                        assert(all.skip(k).drop_first() =~= all.skip(k + 1));
                    } else {
                        assert(all.skip(k).len() == 0);
                    }
                }
            }
            assert(all.take(k) =~= all);
            let ghost items = builder.items();
            let r = builder.finish();
            proof {
                let value = (*builder.out)->0;
                let array = value->Array_0;
                lemma_shape(value);
                array.lemma_shapes();
                lemma_value_view(value);
                array.lemma_deep();
                lemma_all_plain(array.deep());
                assert forall|i: int| 0 <= i < array.deep().len() implies is_plain(
                    #[trigger] array.deep()[i],
                ) by {
                    assert(is_plain(items[i]@));
                }
            }
            r
        },
        Fragment::Mapping(stream) => {
            let mut stream = stream;
            let ghost all = stream.remaining();
            let ghost at_end = *final(place.out);
            stream.check_sorted();
            let mut builder = match place.map() {
                Ok(builder) => builder,
                Err(e) => {
                    return Err(e);
                },
            };
            let ghost mut k: int = 0;
            let mut next = stream.next();
            assert(entry_shapes(builder.entries()) =~= all.take(0));
            while next.is_some()
                invariant
                    0 <= k <= all.len(),
                    fragment.shape() == Node::Mapping(all),
                    keys_sorted(all),
                    entry_shapes(builder.entries()) == all.take(k),
                    forall|i: int|
                        0 <= i < builder.entries().len() ==> is_plain(
                            (#[trigger] builder.entries()[i]).1@,
                        ),
                    *final(builder.out) == at_end,
                    match next {
                        Some((key, child)) => k < all.len() && key@ == all[k].0 && child.shape()
                            == all[k].1 && stream.remaining() == all.skip(k + 1),
                        None => k == all.len(),
                    },
                decreases all.len() - k,
            {
                let (key, child) = next.unwrap();
                let ghost before = builder.entries();
                proof {
                    lemma_entries_size_item(all, k);
                }
                match builder.key(key) {
                    Ok(slot) => {
                        let _ = transcode(child, slot);
                    },
                    Err(_) => {},
                }
                proof {
                    let value = builder.value->0;
                    assert(entry_shapes(before).len() == before.len());
                    assert(before.len() == k);
                    assert forall|i: int, j: int| 0 <= i < j < before.len() implies crate::text::text_lt(
                        #[trigger] before[i].0,
                        #[trigger] before[j].0,
                    ) by {
                        assert(entry_shapes(before)[i] == all.take(k)[i]);
                        assert(entry_shapes(before)[j] == all.take(k)[j]);
                        assert(crate::text::text_lt(all[i].0, all[j].0));
                    }
                    if k > 0 {
                        assert(entry_shapes(before)[k - 1] == all.take(k)[k - 1]);
                        assert(crate::text::text_lt(all[k - 1].0, all[k].0));
                    }
                    lemma_put_at_end(before, key@, value);
                    assert(builder.entries() == before.push((key@, value)));
                    assert forall|i: int| 0 <= i < k + 1 implies #[trigger] entry_shapes(
                        builder.entries(),
                    )[i] == all.take(k + 1)[i] by {
                        if i < k {
                            assert(entry_shapes(before)[i] == all.take(k)[i]);
                        }
                    }
                    assert(entry_shapes(builder.entries()) =~= all.take(k + 1));
                    k = k + 1;
                }
                next = stream.next();
                proof {
                    if next is Some {
                        assert(all.skip(k)[0] == all[k]);
                        assert(all.skip(k).drop_first() =~= all.skip(k + 1));
                    } else {
                        assert(all.skip(k).len() == 0);
                    }
                }
            }
            assert(all.take(k) =~= all);
            let ghost entries = builder.entries();
            let r = builder.finish();
            proof {
                let value = (*builder.out)->0;
                let object = value->Object_0;
                lemma_shape(value);
                object.lemma_shapes();
                lemma_value_view(value);
                object.lemma_deep();
                lemma_entries_plain(object.deep());
                assert forall|i: int| 0 <= i < object.deep().len() implies is_plain(
                    (#[trigger] object.deep()[i]).1,
                ) by {
                    assert(is_plain(entries[i].1@));
                }
            }
            r
        },
    }
}

/// Round trip of a document: decodes the fragment of a value into a cell.
/// The value that the cell then holds has the shape of the value that was
/// encoded, and is that value where it holds no passthrough value.
pub fn round_trip(value: &Value, out: &mut Option<Value>) -> (r: Result<(), Error>)
    ensures
        r is Ok,
        *final(out) matches Some(copy) && shape(copy) == shape(*value) && (is_plain(value@)
            ==> copy@ == value@),
{
    let r = transcode(value.begin(), Place::new(out));
    proof {
        let copy = (*out)->0;
        lemma_shape_of_view(copy);
        lemma_shape_of_view(*value);
        if is_plain(value@) {
            lemma_plain_shape_is_value(value@, copy@);
        }
    }
    r
}

} // verus!
