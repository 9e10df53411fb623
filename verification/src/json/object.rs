//! The mapping of a document as a stream of entries.

use vstd::prelude::*;

use crate::json::value::{keys_sorted, Object, Value};
use crate::text::text_lt;
use crate::ser::{Fragment, MapStream, Node};

verus! {

/// The stream of a mapping: it gives the entries in the order of the keys.
pub struct ObjectIter<'a> {
    pub(crate) object: &'a Object,
    pub(crate) pos: usize,
}

impl<'a> ObjectIter<'a> {
    /// The entries that the stream has yet to give.
    pub closed spec fn remaining(&self) -> Seq<(Seq<char>, Node)> {
        if self.pos <= self.object@.len() {
            self.object.shapes().skip(self.pos as int)
        } else {
            Seq::<(Seq<char>, Node)>::empty()
        }
    }

    /// Tells that the entries which the stream has yet to give stand in the
    /// order of their keys.
    pub fn check_sorted(&self)
        ensures
            keys_sorted(self.remaining()),
    {
        self.object.check_sorted();
        proof {
            self.object.lemma_shapes();
            let rest = self.remaining();
            assert forall|i: int, j: int| 0 <= i < j < rest.len() implies text_lt(
                #[trigger] rest[i].0,
                #[trigger] rest[j].0,
            ) by {
                let a = i + self.pos;
                let b = j + self.pos;
                assert(rest[i] == self.object.shapes()[a]);
                assert(rest[j] == self.object.shapes()[b]);
                assert(text_lt(self.object@[a].0, self.object@[b].0));
            }
        }
    }

    /// Gives the next entry: its key and the fragment of its value.
    pub fn next(&mut self) -> (r: Option<(&'a str, Fragment<'a>)>)
        ensures
            match r {
                Some((key, child)) => {
                    &&& old(self).remaining().len() > 0
                    &&& key@ == old(self).remaining()[0].0
                    &&& child.shape() == old(self).remaining()[0].1
                    &&& final(self).remaining() == old(self).remaining().drop_first()
                },
                None => old(self).remaining().len() == 0 && final(self).remaining().len() == 0,
            },
    {
        proof {
            self.object.lemma_shapes();
        }
        let len = self.object.len();
        match self.object.entry(self.pos) {
            Some((key, value)) => {
                self.pos = self.pos + 1;
                assert(old(self).remaining().drop_first() =~= self.remaining());
                Some((key, value.begin()))
            },
            None => None,
        }
    }
}

/// The holder of the functions that stand behind the codec of the library's
/// own types.
#[allow(non_camel_case_types)]
pub struct private;

impl private {
    /// The fragment of a mapping: the stream of its entries in the order of
    /// the keys.
    pub fn stream_object(object: &Object) -> (fragment: Fragment<'_>)
        ensures
            fragment.shape() == Node::Mapping(object.shapes()),
    {
        let stream = ObjectIter { object, pos: 0 };
        assert(stream.remaining() =~= object.shapes());
        Fragment::Mapping(MapStream::Object(stream))
    }
}

} // verus!
