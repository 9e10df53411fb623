//! The decode side of the codec: a visitor takes the tokens of one value
//! and builds the value in a caller-owned cell.
//!
//! A visitor has one method for each shape a token can have, and each method
//! fails unless the visitor is one for that shape. A struct is decoded by a
//! state with one slot for each field: `key` picks the slot of a wire name,
//! and `finish` asks every slot to be filled.

use vstd::prelude::*;

use crate::attr::attr_views;
use crate::error::{Error, ErrorKind};
use crate::input::{
    adapter_plan, enum_plan, field_views, plan_adapter, plan_enum, plan_struct, struct_plan,
    variant_views, Adapter, DeriveError, DeriveInput, FieldDecl, VariantDecl,
};
use crate::place::Place;

verus! {

/// The state machine that takes the tokens of one value. Every method
/// refuses its token as being of the wrong shape, unless the visitor
/// overrides it.
pub trait Visitor: Sized {
    /// The state that takes the items of a sequence.
    type Items;

    /// The state that takes the entries of a mapping.
    type Entries;

    fn null(&mut self) -> (r: Result<(), Error>)
        default_ensures
            r == Err::<(), Error>(Error { kind: ErrorKind::Shape }),
            *final(self) == *old(self),
    {
        Err(Error::shape())
    }

    fn boolean(&mut self, b: bool) -> (r: Result<(), Error>)
        default_ensures
            r == Err::<(), Error>(Error { kind: ErrorKind::Shape }),
            *final(self) == *old(self),
    {
        Err(Error::shape())
    }

    fn string(&mut self, s: &str) -> (r: Result<(), Error>)
        default_ensures
            r == Err::<(), Error>(Error { kind: ErrorKind::Shape }),
            *final(self) == *old(self),
    {
        Err(Error::shape())
    }

    fn negative(&mut self, n: i64) -> (r: Result<(), Error>)
        default_ensures
            r == Err::<(), Error>(Error { kind: ErrorKind::Shape }),
            *final(self) == *old(self),
    {
        Err(Error::shape())
    }

    fn nonnegative(&mut self, n: u64) -> (r: Result<(), Error>)
        default_ensures
            r == Err::<(), Error>(Error { kind: ErrorKind::Shape }),
            *final(self) == *old(self),
    {
        Err(Error::shape())
    }

    fn seq(self) -> (r: Result<Self::Items, Error>)
        default_ensures
            r matches Err(e) && e == (Error { kind: ErrorKind::Shape }),
    {
        Err(Error::shape())
    }

    fn map(self) -> (r: Result<Self::Entries, Error>)
        default_ensures
            r matches Err(e) && e == (Error { kind: ErrorKind::Shape }),
    {
        Err(Error::shape())
    }
}

/// The visitor that takes any value and throws it away.
#[derive(Copy, Clone, Debug, PartialEq, Eq, Structural)]
pub struct Ignore;

impl Ignore {
    /// Takes the key of an entry that is thrown away.
    pub fn key(&mut self, k: &str) -> (nested: Ignore)
        ensures
            nested == Ignore,
            *final(self) == *old(self),
    {
        Ignore
    }

    /// Takes the place of an item that is thrown away.
    pub fn element(&mut self) -> (nested: Ignore)
        ensures
            nested == Ignore,
            *final(self) == *old(self),
    {
        Ignore
    }

    /// Ends what is thrown away.
    pub fn finish(&mut self) -> (r: Result<(), Error>)
        ensures
            r is Ok,
    {
        Ok(())
    }
}

impl Visitor for Ignore {
    type Items = Ignore;

    type Entries = Ignore;

    fn null(&mut self) -> (r: Result<(), Error>)
        ensures
            r is Ok,
    {
        Ok(())
    }

    fn boolean(&mut self, b: bool) -> (r: Result<(), Error>)
        ensures
            r is Ok,
    {
        Ok(())
    }

    fn string(&mut self, s: &str) -> (r: Result<(), Error>)
        ensures
            r is Ok,
    {
        Ok(())
    }

    fn negative(&mut self, n: i64) -> (r: Result<(), Error>)
        ensures
            r is Ok,
    {
        Ok(())
    }

    fn nonnegative(&mut self, n: u64) -> (r: Result<(), Error>)
        ensures
            r is Ok,
    {
        Ok(())
    }

    fn seq(self) -> (r: Result<Ignore, Error>)
        ensures
            r is Ok,
    {
        Ok(Ignore)
    }

    fn map(self) -> (r: Result<Ignore, Error>)
        ensures
            r is Ok,
    {
        Ok(Ignore)
    }
}

impl<'a> Visitor for Place<'a, String> {
    type Items = Ignore;

    type Entries = Ignore;

    /// A string takes a string token: the cell then holds its text.
    fn string(&mut self, s: &str) -> (r: Result<(), Error>)
        ensures
            r is Ok,
            *final(self).out matches Some(text) && text@ == s@,
            *final(final(self).out) == *final(old(self).out),
    {
        *self.out = Some(s.to_owned());
        Ok(())
    }
}

impl<'a> Visitor for Place<'a, bool> {
    type Items = Ignore;

    type Entries = Ignore;

    /// A boolean takes a boolean token.
    fn boolean(&mut self, b: bool) -> (r: Result<(), Error>)
        ensures
            r is Ok,
            *final(self).out == Some(b),
            *final(final(self).out) == *final(old(self).out),
    {
        *self.out = Some(b);
        Ok(())
    }
}

/// The wire names of a list as mathematical values.
pub open spec fn name_views(names: Seq<String>) -> Seq<Seq<char>> {
    names.map_values(|name: String| name@)
}

/// The first place at which `key` stands among the wire names.
pub open spec fn field_index_of(names: Seq<Seq<char>>, key: Seq<char>) -> Option<int>
    decreases names.len(),
{
    if names.len() == 0 {
        None
    } else {
        match field_index_of(names.drop_last(), key) {
            Some(i) => Some(i),
            None => if names.last() == key {
                Some(names.len() - 1)
            } else {
                None
            },
        }
    }
}

/// What the place of a key is: the first name that is the key, or none
/// where no name is.
pub proof fn lemma_field_index_of(names: Seq<Seq<char>>, key: Seq<char>)
    ensures
        match field_index_of(names, key) {
            Some(i) => {
                &&& 0 <= i < names.len()
                &&& names[i] == key
                &&& forall|j: int| 0 <= j < i ==> names[j] != key
            },
            None => forall|j: int| 0 <= j < names.len() ==> names[j] != key,
        },
    decreases names.len(),
{
    if names.len() > 0 {
        lemma_field_index_of(names.drop_last(), key);
        assert forall|j: int| 0 <= j < names.len() - 1 implies names[j] == names.drop_last()[j] by {}
    }
}

/// Finds the field or variant that a wire name stands for: the first one
/// with that name.
pub fn field_index(names: &[String], key: &str) -> (r: Option<usize>)
    ensures
        match r {
            Some(i) => field_index_of(name_views(names@), key@) == Some(i as int) && i
                < names@.len(),
            None => field_index_of(name_views(names@), key@) is None,
        },
{
    let ghost all = name_views(names@);
    let mut i: usize = 0;
    while i < names.len()
        invariant
            i <= names.len(),
            all == name_views(names@),
            field_index_of(all.take(i as int), key@) is None,
        decreases names.len() - i,
    {
        proof {
            assert(all.take(i + 1).drop_last() == all.take(i as int));
            assert(all.take(i + 1).last() == names@[i as int]@);
        }
        if names[i].as_str().eq(key) {
            proof {
                lemma_field_index_stays(all, key@, i + 1);
            }
            return Some(i);
        }
        i += 1;
    }
    assert(all.take(i as int) == all);
    None
}

/// A key that is found among the first names is found at the same place
/// among all of them.
pub proof fn lemma_field_index_stays(names: Seq<Seq<char>>, key: Seq<char>, k: int)
    requires
        0 <= k <= names.len(),
        field_index_of(names.take(k), key) is Some,
    ensures
        field_index_of(names, key) == field_index_of(names.take(k), key),
    decreases names.len() - k,
{
    if k == names.len() {
        assert(names.take(k) == names);
    } else {
        assert(names.take(k + 1).drop_last() == names.take(k));
        lemma_field_index_stays(names, key, k + 1);
    }
}

/// The enumeration value that a string token stands for: the variant with
/// that wire name. A string that is no variant's name is an error.
pub open spec fn variant_of(names: Seq<Seq<char>>, s: Seq<char>) -> Result<int, Error> {
    match field_index_of(names, s) {
        Some(i) => Ok(i),
        None => Err(Error { kind: ErrorKind::Completeness }),
    }
}

/// Finds the variant that a string token stands for.
pub fn variant_index(names: &[String], s: &str) -> (r: Result<usize, Error>)
    ensures
        match r {
            Ok(i) => variant_of(name_views(names@), s@) == Ok::<int, Error>(i as int) && i
                < names@.len(),
            Err(e) => variant_of(name_views(names@), s@) == Err::<int, Error>(e),
        },
{
    match field_index(names, s) {
        Some(i) => Ok(i),
        None => Err(Error::completeness()),
    }
}

/// The visitor of an enumeration without payloads. The value it builds is
/// the number of the variant.
pub struct EnumVisitor<'a> {
    pub names: &'a [String],
    pub out: &'a mut Option<usize>,
}

impl<'a> EnumVisitor<'a> {
    /// Enters the visitor of an enumeration over the caller's cell.
    pub fn begin(names: &'a [String], out: &'a mut Option<usize>) -> (visitor: EnumVisitor<'a>)
        ensures
            visitor.names == names,
            *visitor.out == *old(out),
            *final(out) == *final(visitor.out),
    {
        EnumVisitor { names, out }
    }
}

impl<'a> Visitor for EnumVisitor<'a> {
    type Items = Ignore;

    type Entries = Ignore;

    /// An enumeration takes a string token: the wire name of a variant. A
    /// string that is no variant's name is an error and leaves the cell as
    /// it is.
    fn string(&mut self, s: &str) -> (r: Result<(), Error>)
        ensures
            match variant_of(name_views(old(self).names@), s@) {
                Ok(i) => r is Ok && (*final(self).out matches Some(found) && found == i),
                Err(e) => r == Err::<(), Error>(e) && *final(self).out == *old(self).out,
            },
            final(self).names == old(self).names,
            *final(final(self).out) == *final(old(self).out),
    {
        match variant_index(self.names, s) {
            Ok(i) => {
                *self.out = Some(i);
                Ok(())
            },
            Err(e) => Err(e),
        }
    }
}

/// The slots of a struct with `n` fields before any token has come: all
/// empty.
pub open spec fn empty_slots<T>(n: nat) -> Seq<Option<T>> {
    Seq::new(n, |i: int| None::<T>)
}

/// The slot that a key stands for: that of the first field with this wire
/// name, where there is such a field and such a slot.
pub open spec fn slot_of<T>(names: Seq<Seq<char>>, slots: Seq<Option<T>>, key: Seq<char>) -> Option<
    int,
> {
    match field_index_of(names, key) {
        Some(i) => if i < slots.len() {
            Some(i)
        } else {
            None
        },
        None => None,
    }
}

/// The slots after one entry: the entry's value stands in the slot of its
/// key; an entry whose key is no field's wire name changes nothing.
pub open spec fn fed_one<T>(
    names: Seq<Seq<char>>,
    slots: Seq<Option<T>>,
    key: Seq<char>,
    value: T,
) -> Seq<Option<T>> {
    match slot_of(names, slots, key) {
        Some(i) => slots.update(i, Some(value)),
        None => slots,
    }
}

/// The slots after the entries of a mapping have come, in order.
pub open spec fn fed<T>(
    names: Seq<Seq<char>>,
    slots: Seq<Option<T>>,
    entries: Seq<(Seq<char>, T)>,
) -> Seq<Option<T>>
    decreases entries.len(),
{
    if entries.len() == 0 {
        slots
    } else {
        fed_one(names, fed(names, slots, entries.drop_last()), entries.last().0, entries.last().1)
    }
}

/// Whether every slot is filled.
pub open spec fn all_filled<T>(slots: Seq<Option<T>>) -> bool {
    forall|i: int| 0 <= i < slots.len() ==> #[trigger] slots[i] is Some
}

/// What finishing gives: the values of the slots where every slot is
/// filled, and an error where one is empty.
pub open spec fn finished<T>(slots: Seq<Option<T>>) -> Result<Seq<T>, Error> {
    if all_filled(slots) {
        Ok(Seq::new(slots.len(), |i: int| slots[i]->0))
    } else {
        Err(Error { kind: ErrorKind::Completeness })
    }
}

/// The fields of the struct that the entries of a mapping decode to, or the
/// error of a field that no entry fills.
pub open spec fn decoded<T>(names: Seq<Seq<char>>, entries: Seq<(Seq<char>, T)>) -> Result<
    Seq<T>,
    Error,
> {
    finished(fed(names, empty_slots::<T>(names.len()), entries))
}

/// The entries that a struct is encoded as: each field's wire name with the
/// field's value, in the order in which the fields are declared.
pub open spec fn encoded<T>(names: Seq<Seq<char>>, values: Seq<T>) -> Seq<(Seq<char>, T)> {
    Seq::new(names.len(), |i: int| (names[i], values[i]))
}

/// The visitor that `key` hands out for the value behind a key.
pub enum FieldVisitor<'c, T> {
    /// The key is a field's wire name: the value goes into the field's slot.
    Field(Place<'c, T>),
    /// The key is no field's wire name: the value is thrown away.
    Unknown(Ignore),
}

/// The visitor of a struct with named fields. The value it builds is the
/// list of the fields' values, in the order in which they are declared.
pub struct StructVisitor<'a, T> {
    pub names: &'a [String],
    pub out: &'a mut Option<Vec<T>>,
}

/// The state of a struct that is being decoded: one slot for each field,
/// and the caller's cell.
pub struct StructState<'a, T> {
    pub names: &'a [String],
    pub slots: Vec<Option<T>>,
    pub out: &'a mut Option<Vec<T>>,
}

impl<'a, T> StructVisitor<'a, T> {
    /// Enters the visitor of a struct over the caller's cell.
    pub fn begin(names: &'a [String], out: &'a mut Option<Vec<T>>) -> (visitor: StructVisitor<
        'a,
        T,
    >)
        ensures
            visitor.names == names,
            *visitor.out == *old(out),
            *final(out) == *final(visitor.out),
    {
        StructVisitor { names, out }
    }
}

impl<'a, T> Visitor for StructVisitor<'a, T> {
    type Items = Ignore;

    type Entries = StructState<'a, T>;

    /// A struct takes a mapping: the state starts with every slot empty.
    fn map(self) -> (r: Result<StructState<'a, T>, Error>)
        ensures
            r matches Ok(state) && state.names == self.names && state.slots@ == empty_slots::<T>(
                self.names@.len(),
            ) && *state.out == *old(self.out) && *final(self.out) == *final(state.out),
    {
        let mut slots: Vec<Option<T>> = Vec::new();
        let mut i: usize = 0;
        while i < self.names.len()
            invariant
                i <= self.names.len(),
                slots@ == empty_slots::<T>(i as nat),
            decreases self.names.len() - i,
        {
            slots.push(None);
            i += 1;
            assert(slots@ =~= empty_slots::<T>(i as nat));
        }
        Ok(StructState { names: self.names, slots, out: self.out })
    }
}

impl<'a, T> StructState<'a, T> {
    /// Picks the visitor for the value behind a key: the slot of the first
    /// field with that wire name, or the visitor that throws the value away.
    pub fn key(&mut self, k: &str) -> (r: Result<FieldVisitor<'_, T>, Error>)
        ensures
            final(self).names == old(self).names,
            *final(self).out == *old(self).out,
            *final(final(self).out) == *final(old(self).out),
            match slot_of(name_views(old(self).names@), old(self).slots@, k@) {
                Some(i) => r matches Ok(FieldVisitor::Field(place)) && *place.out == old(
                    self,
                ).slots@[i] && final(self).slots@ == old(self).slots@.update(i, *final(place.out)),
                None => r matches Ok(FieldVisitor::Unknown(_)) && final(self).slots@ == old(
                    self,
                ).slots@,
            },
    {
        match field_index(self.names, k) {
            Some(i) => {
                if i < self.slots.len() {
                    Ok(FieldVisitor::Field(Place::new(&mut self.slots[i])))
                } else {
                    Ok(FieldVisitor::Unknown(Ignore))
                }
            },
            None => Ok(FieldVisitor::Unknown(Ignore)),
        }
    }

    /// Ends the struct. Where every slot is filled, the values move out of
    /// the slots into the caller's cell; where one is empty, nothing moves
    /// and the result is an error.
    pub fn finish(&mut self) -> (r: Result<(), Error>)
        ensures
            final(self).names == old(self).names,
            *final(final(self).out) == *final(old(self).out),
            match finished(old(self).slots@) {
                Ok(values) => r is Ok && (*final(self).out matches Some(built) && built@
                    == values) && final(self).slots@ == empty_slots::<T>(old(self).slots@.len()),
                Err(e) => r == Err::<(), Error>(e) && *final(self).out == *old(self).out
                    && final(self).slots@ == old(self).slots@,
            },
    {
        let n = self.slots.len();
        let mut i: usize = 0;
        while i < n
            invariant
                i <= n,
                n == self.slots@.len(),
                self.names == old(self).names,
                self.slots == old(self).slots,
                *self.out == *old(self).out,
                *final(self.out) == *final(old(self).out),
                forall|j: int| 0 <= j < i ==> #[trigger] self.slots@[j] is Some,
            decreases n - i,
        {
            if self.slots[i].is_none() {
                return Err(Error::completeness());
            }
            i += 1;
        }
        let mut values: Vec<T> = Vec::new();
        let mut j: usize = 0;
        let ghost before = self.slots@;
        while j < n
            invariant
                j <= n,
                n == self.slots@.len(),
                n == before.len(),
                all_filled(before),
                before == old(self).slots@,
                self.names == old(self).names,
                *self.out == *old(self).out,
                *final(self.out) == *final(old(self).out),
                values@.len() == j,
                forall|t: int| 0 <= t < j ==> #[trigger] values@[t] == before[t]->0,
                forall|t: int| 0 <= t < j ==> #[trigger] self.slots@[t] is None,
                forall|t: int| j <= t < n ==> #[trigger] self.slots@[t] == before[t],
            decreases n - j,
        {
            let mut slot: Option<T> = None;
            core::mem::swap(&mut self.slots[j], &mut slot);
            assert(slot == before[j as int]);
            match slot {
                Some(value) => {
                    values.push(value);
                },
                None => {},
            }
            j += 1;
        }
        assert(values@ =~= Seq::new(before.len(), |i: int| before[i]->0));
        assert(self.slots@ =~= empty_slots::<T>(before.len()));
        *self.out = Some(values);
        Ok(())
    }
}

/// Decodes the entries of a mapping into a struct: each entry goes through
/// `key` into its slot, and `finish` writes the fields into the cell. The
/// cell keeps what it held where a field is missing.
pub fn decode_entries<T>(names: &[String], entries: Vec<(String, T)>, out: &mut Option<Vec<T>>) -> (r:
    Result<(), Error>)
    ensures
        match decoded(name_views(names@), entry_views(entries@)) {
            Ok(values) => r is Ok && (*final(out) matches Some(built) && built@ == values),
            Err(e) => r == Err::<(), Error>(e) && *final(out) == *old(out),
        },
{
    let ghost all = entry_views(entries@);
    let ghost wire = name_views(names@);
    let ghost at_end = *final(out);
    let visitor = StructVisitor::begin(names, out);
    let mut state = match visitor.map() {
        Ok(state) => state,
        Err(e) => {
            return Err(e);
        },
    };
    assert(all.take(0) =~= Seq::<(Seq<char>, T)>::empty());
    for entry in it: entries
        invariant
            state.names == names,
            wire == name_views(names@),
            all == entry_views(it.seq()),
            *state.out == *old(out),
            *final(state.out) == at_end,
            state.slots@ == fed(wire, empty_slots::<T>(wire.len()), all.take(it.index())),
    {
        proof {
            let k = it.index();
            assert(all.take(k + 1).drop_last() =~= all.take(k));
            assert(all.take(k + 1).last() == (entry.0@, entry.1));
        }
        match state.key(entry.0.as_str()) {
            Ok(FieldVisitor::Field(mut place)) => {
                place.set(entry.1);
            },
            Ok(FieldVisitor::Unknown(_)) => {},
            Err(_) => {},
        }
    }
    assert(all.take(all.len() as int) =~= all);
    state.finish()
}

/// The entries of a list as mathematical values.
pub open spec fn entry_views<T>(entries: Seq<(String, T)>) -> Seq<(Seq<char>, T)> {
    entries.map_values(|e: (String, T)| (e.0@, e.1))
}

/// A name that stands once among the names is found at its own place.
pub proof fn lemma_field_index_unique(names: Seq<Seq<char>>, i: int)
    requires
        names.no_duplicates(),
        0 <= i < names.len(),
    ensures
        field_index_of(names, names[i]) == Some(i),
{
    lemma_field_index_of(names, names[i]);
}

proof fn lemma_fed_encoded<T>(names: Seq<Seq<char>>, values: Seq<T>, k: int)
    requires
        names.no_duplicates(),
        values.len() == names.len(),
        0 <= k <= names.len(),
    ensures
        fed(names, empty_slots::<T>(names.len()), encoded(names, values).take(k)) == Seq::new(
            names.len(),
            |i: int|
                if i < k {
                    Some(values[i])
                } else {
                    None::<T>
                },
        ),
    decreases k,
{
    let entries = encoded(names, values).take(k);
    let slots = fed(names, empty_slots::<T>(names.len()), entries);
    let goal = Seq::new(
        names.len(),
        |i: int|
            if i < k {
                Some(values[i])
            } else {
                None::<T>
            },
    );
    if k == 0 {
        assert(slots =~= goal);
    } else {
        lemma_fed_encoded(names, values, k - 1);
        assert(entries.drop_last() =~= encoded(names, values).take(k - 1));
        assert(entries.last() == (names[k - 1], values[k - 1]));
        lemma_field_index_unique(names, k - 1);
        assert(slots =~= goal);
    }
}

/// Round trip: the entries that a struct is encoded as decode to the same
/// fields, where no two fields share a wire name.
pub proof fn lemma_round_trip<T>(names: Seq<Seq<char>>, values: Seq<T>)
    requires
        names.no_duplicates(),
        values.len() == names.len(),
    ensures
        decoded(names, encoded(names, values)) == Ok::<Seq<T>, Error>(values),
{
    let entries = encoded(names, values);
    lemma_fed_encoded(names, values, names.len() as int);
    assert(entries.take(names.len() as int) =~= entries);
    let slots = fed(names, empty_slots::<T>(names.len()), entries);
    assert(all_filled(slots));
    assert(Seq::new(slots.len(), |i: int| slots[i]->0) =~= values);
}

proof fn lemma_fed_len<T>(names: Seq<Seq<char>>, slots: Seq<Option<T>>, entries: Seq<(Seq<char>, T)>)
    requires
        slots.len() == names.len(),
    ensures
        fed(names, slots, entries).len() == slots.len(),
    decreases entries.len(),
{
    if entries.len() > 0 {
        lemma_fed_len(names, slots, entries.drop_last());
        lemma_field_index_of(names, entries.last().0);
    }
}

proof fn lemma_slot_stays_empty<T>(
    names: Seq<Seq<char>>,
    entries: Seq<(Seq<char>, T)>,
    first: int,
)
    requires
        0 <= first < names.len(),
        forall|e: int|
            0 <= e < entries.len() ==> field_index_of(names, (#[trigger] entries[e]).0) != Some(
                first,
            ),
    ensures
        fed(names, empty_slots::<T>(names.len()), entries).len() == names.len(),
        fed(names, empty_slots::<T>(names.len()), entries)[first] is None,
    decreases entries.len(),
{
    lemma_fed_len(names, empty_slots::<T>(names.len()), entries);
    if entries.len() > 0 {
        let front = entries.drop_last();
        assert forall|e: int| 0 <= e < front.len() implies field_index_of(
            names,
            (#[trigger] front[e]).0,
        ) != Some(first) by {
            assert(front[e] == entries[e]);
        }
        lemma_slot_stays_empty(names, front, first);
        let last = entries[entries.len() - 1];
        assert(field_index_of(names, last.0) != Some(first));
        lemma_field_index_of(names, last.0);
    }
}

/// Missing field: where no entry has the wire name of some field, decoding
/// fails at `finish`. This holds for every field, whatever the other entries
/// are.
pub proof fn lemma_missing_field<T>(names: Seq<Seq<char>>, entries: Seq<(Seq<char>, T)>, field: int)
    requires
        0 <= field < names.len(),
        forall|e: int| 0 <= e < entries.len() ==> (#[trigger] entries[e]).0 != names[field],
    ensures
        decoded(names, entries) == Err::<Seq<T>, Error>(Error { kind: ErrorKind::Completeness }),
{
    lemma_field_index_of(names, names[field]);
    let first = field_index_of(names, names[field])->0;
    assert forall|e: int| 0 <= e < entries.len() implies field_index_of(
        names,
        (#[trigger] entries[e]).0,
    ) != Some(first) by {
        lemma_field_index_of(names, entries[e].0);
    }
    lemma_slot_stays_empty(names, entries, first);
}

/// Unknown key: an entry whose key is no field's wire name, put in at any
/// place among the entries, leaves what they decode to as it is.
pub proof fn lemma_unknown_key<T>(
    names: Seq<Seq<char>>,
    entries: Seq<(Seq<char>, T)>,
    at: int,
    key: Seq<char>,
    value: T,
)
    requires
        0 <= at <= entries.len(),
        field_index_of(names, key) is None,
    ensures
        decoded(names, entries.insert(at, (key, value))) == decoded(names, entries),
{
    lemma_fed_unknown(names, empty_slots::<T>(names.len()), entries, at, key, value);
}

proof fn lemma_fed_unknown<T>(
    names: Seq<Seq<char>>,
    slots: Seq<Option<T>>,
    entries: Seq<(Seq<char>, T)>,
    at: int,
    key: Seq<char>,
    value: T,
)
    requires
        0 <= at <= entries.len(),
        field_index_of(names, key) is None,
    ensures
        fed(names, slots, entries.insert(at, (key, value))) == fed(names, slots, entries),
    decreases entries.len(),
{
    let more = entries.insert(at, (key, value));
    if at == entries.len() {
        assert(more.drop_last() =~= entries);
        assert(more.last() == (key, value));
    } else {
        lemma_fed_unknown(names, slots, entries.drop_last(), at, key, value);
        assert(more.drop_last() =~= entries.drop_last().insert(at, (key, value)));
        assert(more.last() == entries.last());
    }
}

/// Enumeration round trip: the wire name of a variant decodes to that
/// variant, where no two variants share a wire name.
pub proof fn lemma_variant_round_trip(names: Seq<Seq<char>>, variant: int)
    requires
        names.no_duplicates(),
        0 <= variant < names.len(),
    ensures
        variant_of(names, names[variant]) == Ok::<int, Error>(variant),
{
    lemma_field_index_unique(names, variant);
}

/// A string that is no variant's wire name fails decoding.
pub proof fn lemma_variant_unmatched(names: Seq<Seq<char>>, s: Seq<char>)
    requires
        forall|i: int| 0 <= i < names.len() ==> names[i] != s,
    ensures
        variant_of(names, s) == Err::<int, Error>(Error { kind: ErrorKind::Completeness }),
{
    lemma_field_index_of(names, s);
}

/// Plans the decoding adapter of a type: of a struct with named fields or of
/// an enum without payloads. Any other type is refused.
pub fn derive(input: &DeriveInput) -> (r: Result<Adapter, DeriveError>)
    ensures
        match adapter_plan(*input) {
            Ok(plan) => r matches Ok(adapter) && adapter.plan() == plan,
            Err(e) => r == Err::<Adapter, DeriveError>(e),
        },
{
    plan_adapter(input)
}

/// Plans the decoding adapter of a struct with these named fields: the
/// state of the struct has one slot for each wire name of the plan.
pub fn derive_struct(input: &DeriveInput, fields: &[FieldDecl]) -> (r: Result<Adapter, DeriveError>)
    ensures
        match struct_plan(attr_views(input.attrs@), field_views(fields@)) {
            Ok(names) => r matches Ok(adapter) && adapter.plan() == (true, names),
            Err(e) => r == Err::<Adapter, DeriveError>(e),
        },
{
    match plan_struct(input.attrs.as_slice(), fields) {
        Ok(names) => Ok(Adapter::Struct { names }),
        Err(e) => Err(e),
    }
}

/// Plans the decoding adapter of an enum with these variants: the visitor
/// of the enum matches a string token against the wire names of the plan.
pub fn derive_enum(input: &DeriveInput, variants: &[VariantDecl]) -> (r: Result<
    Adapter,
    DeriveError,
>)
    ensures
        match enum_plan(input.is_generic(), attr_views(input.attrs@), variant_views(variants@)) {
            Ok(names) => r matches Ok(adapter) && adapter.plan() == (false, names),
            Err(e) => r == Err::<Adapter, DeriveError>(e),
        },
{
    match plan_enum(input.is_generic(), input.attrs.as_slice(), variants) {
        Ok(names) => Ok(Adapter::Enum { names }),
        Err(e) => Err(e),
    }
}

} // verus!
