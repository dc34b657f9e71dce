//! Write access to chain state.
use std::collections::BTreeMap;
use tendermint::abci;
use vstd::prelude::*;
use vstd::utf8::{
    decode_utf8, decode_utf8_encode_utf8, encode_utf8, encode_utf8_decode_utf8,
    encode_utf8_valid_utf8, valid_utf8,
};

verus! {

/// An ABCI event; nothing inside it is read.
#[verifier::external_type_specification]
#[verifier::external_body]
pub struct ExEvent(abci::Event);

/// Everything that can be written to: the two key-value stores, the ephemeral
/// objects, and the events recorded so far.
#[verifier::ext_equal]
pub struct ChainState<O> {
    pub verifiable: Map<Seq<u8>, Seq<u8>>,
    pub nonverifiable: Map<Seq<u8>, Seq<u8>>,
    pub objects: Map<Seq<char>, O>,
    pub events: Seq<abci::Event>,
}

/// What a set of changes says about the object of that name: nothing, that it
/// is deleted, or what it becomes.
pub open spec fn change_of<O>(changes: Map<&'static str, Option<O>>, name: Seq<char>) -> Option<
    Option<O>,
> {
    if exists|key: &'static str| #[trigger] changes.contains_key(key) && key@ == name {
        Some(
            changes[choose|key: &'static str| #[trigger]
                changes.contains_key(key) && key@ == name],
        )
    } else {
        None
    }
}

impl<O> ChainState<O> {
    /// The state with a value put under a key of the verifiable store.
    pub open spec fn with_value(self, key: Seq<u8>, value: Seq<u8>) -> Self {
        ChainState { verifiable: self.verifiable.insert(key, value), ..self }
    }

    /// The state with a key deleted from the verifiable store.
    pub open spec fn without_value(self, key: Seq<u8>) -> Self {
        ChainState { verifiable: self.verifiable.remove(key), ..self }
    }

    /// The state with a value put under a key of the non-verifiable store.
    pub open spec fn with_nonverifiable(self, key: Seq<u8>, value: Seq<u8>) -> Self {
        ChainState { nonverifiable: self.nonverifiable.insert(key, value), ..self }
    }

    /// The state with a key deleted from the non-verifiable store.
    pub open spec fn without_nonverifiable(self, key: Seq<u8>) -> Self {
        ChainState { nonverifiable: self.nonverifiable.remove(key), ..self }
    }

    /// The state with an object put under a name.
    pub open spec fn with_object(self, name: Seq<char>, object: O) -> Self {
        ChainState { objects: self.objects.insert(name, object), ..self }
    }

    /// The state with the object of that name deleted.
    pub open spec fn without_object(self, name: Seq<char>) -> Self {
        ChainState { objects: self.objects.remove(name), ..self }
    }

    /// The state with a set of object changes merged into it.
    pub open spec fn with_object_changes(self, changes: Map<&'static str, Option<O>>) -> Self {
        ChainState {
            objects: Map::new(
                |name: Seq<char>|
                    match change_of(changes, name) {
                        Some(change) => change is Some,
                        None => self.objects.contains_key(name),
                    },
                |name: Seq<char>|
                    match change_of(changes, name) {
                        Some(change) => change->0,
                        None => self.objects[name],
                    },
            ),
            ..self
        }
    }

    /// The state with one more event recorded.
    pub open spec fn with_event(self, event: abci::Event) -> Self {
        ChainState { events: self.events.push(event), ..self }
    }
}

/// Write access to chain state.
pub trait StateWrite: Send + Sync {
    /// What the ephemeral object store holds: objects of any type, which know
    /// their type.
    type Object;

    /// The state as the writes so far have left it. A verified implementation
    /// says what it is; of any other nothing is known.
    open spec fn state(&self) -> ChainState<Self::Object> {
        arbitrary()
    }

    /// Whether two objects have the same type; as with the state, an
    /// implementation says when.
    open spec fn same_type(a: Self::Object, b: Self::Object) -> bool {
        arbitrary()
    }

    /// Puts raw bytes into the verifiable key-value store with the given key.
    fn put_raw(&mut self, key: String, value: Vec<u8>)
        ensures
            final(self).state() == old(self).state().with_value(encode_utf8(key@), value@),
    ;

    /// Delete a key from the verifiable key-value store.
    fn delete(&mut self, key: String)
        ensures
            final(self).state() == old(self).state().without_value(encode_utf8(key@)),
    ;

    /// Puts raw bytes into the verifiable key-value store under a key that
    /// need not be valid UTF-8.
    ///
    /// The verifiable store hashes key bytes, so this is the same store as
    /// [`put_raw`](Self::put_raw): a key that *is* valid UTF-8 is exactly
    /// equivalent to the text that it encodes. Keys that are not valid UTF-8
    /// are intended for protocol-fixed paths, which are only ever read by
    /// exact key.
    fn put_raw_bytes(&mut self, key: Vec<u8>, value: Vec<u8>)
        ensures
            final(self).state() == old(self).state().with_value(key@, value@),
    ;

    /// Delete a key from the verifiable key-value store; see
    /// [`put_raw_bytes`](Self::put_raw_bytes).
    fn delete_bytes(&mut self, key: Vec<u8>)
        ensures
            final(self).state() == old(self).state().without_value(key@),
    ;

    /// Puts raw bytes into the non-verifiable key-value store with the given key.
    fn nonverifiable_put_raw(&mut self, key: Vec<u8>, value: Vec<u8>)
        ensures
            final(self).state() == old(self).state().with_nonverifiable(key@, value@),
    ;

    /// Delete a key from non-verifiable key-value storage.
    fn nonverifiable_delete(&mut self, key: Vec<u8>)
        ensures
            final(self).state() == old(self).state().without_nonverifiable(key@),
    ;

    /// Puts an object into the ephemeral object store with the given key. An
    /// object that is already there under this key must have the same type.
    fn object_put(&mut self, key: &'static str, value: Self::Object)
        requires
            old(self).state().objects.contains_key(key@) ==> Self::same_type(
                old(self).state().objects[key@],
                value,
            ),
        ensures
            final(self).state() == old(self).state().with_object(key@, value),
    ;

    /// Deletes a key from the ephemeral object store.
    fn object_delete(&mut self, key: &'static str)
        ensures
            final(self).state() == old(self).state().without_object(key@),
    ;

    /// Merge a set of object changes into this `StateWrite`: an object
    /// replaces the one under its key, and nothing deletes it.
    ///
    /// Unlike `object_put`, this asks nothing of the types of the objects.
    fn object_merge(&mut self, objects: BTreeMap<&'static str, Option<Self::Object>>)
        ensures
            final(self).state() == old(self).state().with_object_changes(objects@),
    ;

    /// Record that an ABCI event occurred while building up this set of state changes.
    fn record(&mut self, event: abci::Event)
        ensures
            final(self).state() == old(self).state().with_event(event),
    ;
}

impl<'a, S: StateWrite + Send + Sync> StateWrite for &'a mut S {
    type Object = S::Object;

    open spec fn state(&self) -> ChainState<S::Object> {
        (**self).state()
    }

    open spec fn same_type(a: S::Object, b: S::Object) -> bool {
        S::same_type(a, b)
    }

    fn put_raw(&mut self, key: String, value: Vec<u8>) {
        (**self).put_raw(key, value)
    }

    fn delete(&mut self, key: String) {
        (**self).delete(key)
    }

    fn put_raw_bytes(&mut self, key: Vec<u8>, value: Vec<u8>) {
        (**self).put_raw_bytes(key, value)
    }

    fn delete_bytes(&mut self, key: Vec<u8>) {
        (**self).delete_bytes(key)
    }

    fn nonverifiable_delete(&mut self, key: Vec<u8>) {
        (**self).nonverifiable_delete(key)
    }

    fn nonverifiable_put_raw(&mut self, key: Vec<u8>, value: Vec<u8>) {
        (**self).nonverifiable_put_raw(key, value)
    }

    fn object_put(&mut self, key: &'static str, value: S::Object) {
        (**self).object_put(key, value)
    }

    fn object_delete(&mut self, key: &'static str) {
        (**self).object_delete(key)
    }

    fn object_merge(&mut self, objects: BTreeMap<&'static str, Option<S::Object>>) {
        (**self).object_merge(objects)
    }

    fn record(&mut self, event: abci::Event) {
        (**self).record(event)
    }
}

/// Under a key that is valid UTF-8, writing by bytes and writing by text are
/// the same: the text that the key encodes stands for exactly these bytes.
pub proof fn byte_keys_and_text_keys_agree<O>(
    state: ChainState<O>,
    key: Seq<u8>,
    value: Seq<u8>,
)
    requires
        valid_utf8(key),
    ensures
        state.with_value(encode_utf8(decode_utf8(key)), value) == state.with_value(key, value),
        state.without_value(encode_utf8(decode_utf8(key))) == state.without_value(key),
{
    decode_utf8_encode_utf8(key);
}

/// Different texts are different keys.
pub proof fn text_keys_are_distinct(a: Seq<char>, b: Seq<char>)
    requires
        encode_utf8(a) == encode_utf8(b),
    ensures
        a == b,
{
    encode_utf8_decode_utf8(a);
    encode_utf8_decode_utf8(b);
}

/// A key that is not valid UTF-8 is out of reach of the text-typed writes:
/// none of them puts, changes or deletes it.
pub proof fn text_writes_leave_other_byte_keys_alone<O>(
    state: ChainState<O>,
    text: Seq<char>,
    value: Seq<u8>,
    key: Seq<u8>,
)
    requires
        !valid_utf8(key),
    ensures
        ({
            let after = state.with_value(encode_utf8(text), value);
            &&& after.verifiable.contains_key(key) == state.verifiable.contains_key(key)
            &&& after.verifiable[key] == state.verifiable[key]
        }),
        ({
            let after = state.without_value(encode_utf8(text));
            &&& after.verifiable.contains_key(key) == state.verifiable.contains_key(key)
            &&& state.verifiable.contains_key(key) ==> after.verifiable[key]
                == state.verifiable[key]
        }),
{
    encode_utf8_valid_utf8(text);
}

/// A value that was put is what the key maps to, and a key that was deleted
/// maps to nothing, whatever the state was before.
pub proof fn last_write_counts<O>(state: ChainState<O>, key: Seq<u8>, value: Seq<u8>)
    ensures
        state.with_value(key, value).verifiable.contains_key(key),
        state.with_value(key, value).verifiable[key] == value,
        !state.without_value(key).verifiable.contains_key(key),
        state.without_value(key).with_value(key, value) == state.with_value(key, value),
        state.with_value(key, value).without_value(key) == state.without_value(key),
        state.with_nonverifiable(key, value).nonverifiable.contains_key(key),
        state.with_nonverifiable(key, value).nonverifiable[key] == value,
        !state.without_nonverifiable(key).nonverifiable.contains_key(key),
{
}

/// Merging one change is putting that object, or deleting it.
pub proof fn merging_one_change_puts_or_deletes<O>(
    state: ChainState<O>,
    key: &'static str,
    change: Option<O>,
)
    ensures
        state.with_object_changes(Map::empty().insert(key, change)) == match change {
            Some(object) => state.with_object(key@, object),
            None => state.without_object(key@),
        },
{
    let changes = Map::<&'static str, Option<O>>::empty().insert(key, change);
    assert(changes.contains_key(key));
    assert forall|name: Seq<char>| change_of(changes, name) == if name == key@ {
        Some(change)
    } else {
        None
    } by {
        if exists|k: &'static str| #[trigger] changes.contains_key(k) && k@ == name {
            let k = choose|k: &'static str| #[trigger] changes.contains_key(k) && k@ == name;
            assert(k == key);
        }
    }
    let expected = match change {
        Some(object) => state.with_object(key@, object),
        None => state.without_object(key@),
    };
    assert(state.with_object_changes(changes).objects =~= expected.objects);
}

/// Merging no changes leaves the state as it is.
pub proof fn merging_nothing_changes_nothing<O>(state: ChainState<O>)
    ensures
        state.with_object_changes(Map::empty()) == state,
{
    let changes = Map::<&'static str, Option<O>>::empty();
    assert(forall|name: Seq<char>| change_of(changes, name) is None);
    assert(state.with_object_changes(changes).objects =~= state.objects);
}

/// A write to one part of the state leaves the other parts alone.
pub proof fn writes_touch_one_part_only<O>(
    state: ChainState<O>,
    key: Seq<u8>,
    value: Seq<u8>,
    name: Seq<char>,
    object: O,
    event: abci::Event,
)
    ensures
        forall|after: ChainState<O>|
            after == state.with_value(key, value) || after == state.without_value(key) ==> {
                &&& (#[trigger] after.nonverifiable) == state.nonverifiable
                &&& after.objects == state.objects
                &&& after.events == state.events
            },
        forall|after: ChainState<O>|
            after == state.with_nonverifiable(key, value) || after == state.without_nonverifiable(
                key,
            ) ==> {
                &&& (#[trigger] after.verifiable) == state.verifiable
                &&& after.objects == state.objects
                &&& after.events == state.events
            },
        forall|after: ChainState<O>|
            after == state.with_object(name, object) || after == state.without_object(name) ==> {
                &&& (#[trigger] after.verifiable) == state.verifiable
                &&& after.nonverifiable == state.nonverifiable
                &&& after.events == state.events
            },
        state.with_event(event).verifiable == state.verifiable,
        state.with_event(event).nonverifiable == state.nonverifiable,
        state.with_event(event).objects == state.objects,
{
}

/// A write to a key leaves every other key of the store alone.
pub proof fn writes_touch_one_key_only<O>(
    state: ChainState<O>,
    key: Seq<u8>,
    value: Seq<u8>,
    other: Seq<u8>,
)
    requires
        other != key,
    ensures
        ({
            let (put, deleted) = (state.with_value(key, value), state.without_value(key));
            &&& put.verifiable.contains_key(other) == state.verifiable.contains_key(other)
            &&& deleted.verifiable.contains_key(other) == state.verifiable.contains_key(other)
            &&& state.verifiable.contains_key(other) ==> put.verifiable[other]
                == state.verifiable[other] && deleted.verifiable[other] == state.verifiable[other]
        }),
        ({
            let put = state.with_nonverifiable(key, value);
            let deleted = state.without_nonverifiable(key);
            &&& put.nonverifiable.contains_key(other) == state.nonverifiable.contains_key(other)
            &&& deleted.nonverifiable.contains_key(other) == state.nonverifiable.contains_key(other)
            &&& state.nonverifiable.contains_key(other) ==> put.nonverifiable[other]
                == state.nonverifiable[other] && deleted.nonverifiable[other]
                == state.nonverifiable[other]
        }),
{
}

/// An object that was put is found under its name and one that was deleted is
/// not; every other name is left alone.
pub proof fn objects_are_found_under_their_names<O>(
    state: ChainState<O>,
    name: Seq<char>,
    object: O,
    other: Seq<char>,
)
    ensures
        state.with_object(name, object).objects.contains_key(name),
        state.with_object(name, object).objects[name] == object,
        !state.without_object(name).objects.contains_key(name),
        other != name ==> {
            let (put, deleted) = (state.with_object(name, object), state.without_object(name));
            &&& put.objects.contains_key(other) == state.objects.contains_key(other)
            &&& deleted.objects.contains_key(other) == state.objects.contains_key(other)
            &&& state.objects.contains_key(other) ==> put.objects[other] == state.objects[other]
                && deleted.objects[other] == state.objects[other]
        },
{
}

/// Merging changes gives each changed name what its change says, and leaves
/// every other name and every other part of the state alone.
pub proof fn merging_follows_the_changes<O>(
    state: ChainState<O>,
    changes: Map<&'static str, Option<O>>,
    key: &'static str,
    name: Seq<char>,
)
    requires
        forall|a: &'static str, b: &'static str|
            (#[trigger] changes.contains_key(a)) && (#[trigger] changes.contains_key(b)) && a@ == b@
                ==> a == b,
    ensures
        ({
            let after = state.with_object_changes(changes);
            &&& changes.contains_key(key) ==> match changes[key] {
                Some(object) => after.objects.contains_key(key@) && after.objects[key@] == object,
                None => !after.objects.contains_key(key@),
            }
            &&& (forall|k: &'static str| #[trigger] changes.contains_key(k) ==> k@ != name) ==> {
                &&& after.objects.contains_key(name) == state.objects.contains_key(name)
                &&& state.objects.contains_key(name) ==> after.objects[name] == state.objects[name]
            }
            &&& after.verifiable == state.verifiable
            &&& after.nonverifiable == state.nonverifiable
            &&& after.events == state.events
        }),
{
    if changes.contains_key(key) {
        let found = choose|k: &'static str| #[trigger] changes.contains_key(k) && k@ == key@;
        assert(changes.contains_key(found) && found@ == key@);
        assert(found == key);
    }
}

/// An event is recorded after those before it, which stay.
pub proof fn events_are_recorded_at_the_end<O>(state: ChainState<O>, event: abci::Event)
    ensures
        state.with_event(event).events == state.events + seq![event],
{
    assert(state.with_event(event).events =~= state.events + seq![event]);
}

/// Putting by text maps the bytes of the text to the value, and changes nothing
/// else.
pub proof fn put_raw_puts_under_the_text<S: StateWrite>(
    state: &mut S,
    key: String,
    value: Vec<u8>,
)
    requires
        call_ensures(S::put_raw, (state, key, value), ()),
    ensures
        (*final(state)).state().verifiable == (*old(state)).state().verifiable.insert(
            encode_utf8(key@),
            value@,
        ),
        (*final(state)).state().nonverifiable == (*old(state)).state().nonverifiable,
        (*final(state)).state().objects == (*old(state)).state().objects,
        (*final(state)).state().events == (*old(state)).state().events,
{
}

/// Deleting by text deletes the bytes of the text, and changes nothing else.
pub proof fn delete_deletes_the_text<S: StateWrite>(state: &mut S, key: String)
    requires
        call_ensures(S::delete, (state, key), ()),
    ensures
        (*final(state)).state().verifiable == (*old(state)).state().verifiable.remove(encode_utf8(key@)),
        (*final(state)).state().nonverifiable == (*old(state)).state().nonverifiable,
        (*final(state)).state().objects == (*old(state)).state().objects,
        (*final(state)).state().events == (*old(state)).state().events,
{
}

/// Putting by bytes maps them to the value, and changes nothing else.
pub proof fn put_raw_bytes_puts_under_the_bytes<S: StateWrite>(
    state: &mut S,
    key: Vec<u8>,
    value: Vec<u8>,
)
    requires
        call_ensures(S::put_raw_bytes, (state, key, value), ()),
    ensures
        (*final(state)).state().verifiable == (*old(state)).state().verifiable.insert(key@, value@),
        (*final(state)).state().nonverifiable == (*old(state)).state().nonverifiable,
        (*final(state)).state().objects == (*old(state)).state().objects,
        (*final(state)).state().events == (*old(state)).state().events,
{
}

/// Deleting by bytes deletes them, and changes nothing else.
pub proof fn delete_bytes_deletes_the_bytes<S: StateWrite>(state: &mut S, key: Vec<u8>)
    requires
        call_ensures(S::delete_bytes, (state, key), ()),
    ensures
        (*final(state)).state().verifiable == (*old(state)).state().verifiable.remove(key@),
        (*final(state)).state().nonverifiable == (*old(state)).state().nonverifiable,
        (*final(state)).state().objects == (*old(state)).state().objects,
        (*final(state)).state().events == (*old(state)).state().events,
{
}

/// Putting into the non-verifiable store changes that store alone.
pub proof fn nonverifiable_put_raw_puts_into_the_other_store<S: StateWrite>(
    state: &mut S,
    key: Vec<u8>,
    value: Vec<u8>,
)
    requires
        call_ensures(S::nonverifiable_put_raw, (state, key, value), ()),
    ensures
        (*final(state)).state().nonverifiable == (*old(state)).state().nonverifiable.insert(key@, value@),
        (*final(state)).state().verifiable == (*old(state)).state().verifiable,
        (*final(state)).state().objects == (*old(state)).state().objects,
        (*final(state)).state().events == (*old(state)).state().events,
{
}

/// Deleting from the non-verifiable store changes that store alone.
pub proof fn nonverifiable_delete_deletes_from_the_other_store<S: StateWrite>(
    state: &mut S,
    key: Vec<u8>,
)
    requires
        call_ensures(S::nonverifiable_delete, (state, key), ()),
    ensures
        (*final(state)).state().nonverifiable == (*old(state)).state().nonverifiable.remove(key@),
        (*final(state)).state().verifiable == (*old(state)).state().verifiable,
        (*final(state)).state().objects == (*old(state)).state().objects,
        (*final(state)).state().events == (*old(state)).state().events,
{
}

/// Putting an object changes the objects alone, under its name alone.
pub proof fn object_put_puts_the_object<S: StateWrite>(
    state: &mut S,
    key: &'static str,
    value: S::Object,
)
    requires
        call_ensures(S::object_put, (state, key, value), ()),
    ensures
        (*final(state)).state().objects == (*old(state)).state().objects.insert(key@, value),
        (*final(state)).state().verifiable == (*old(state)).state().verifiable,
        (*final(state)).state().nonverifiable == (*old(state)).state().nonverifiable,
        (*final(state)).state().events == (*old(state)).state().events,
{
}

/// Deleting an object changes the objects alone, under its name alone.
pub proof fn object_delete_deletes_the_object<S: StateWrite>(state: &mut S, key: &'static str)
    requires
        call_ensures(S::object_delete, (state, key), ()),
    ensures
        (*final(state)).state().objects == (*old(state)).state().objects.remove(key@),
        (*final(state)).state().verifiable == (*old(state)).state().verifiable,
        (*final(state)).state().nonverifiable == (*old(state)).state().nonverifiable,
        (*final(state)).state().events == (*old(state)).state().events,
{
}

/// Recording an event appends it, and changes nothing else.
pub proof fn record_appends_the_event<S: StateWrite>(state: &mut S, event: abci::Event)
    requires
        call_ensures(S::record, (state, event), ()),
    ensures
        (*final(state)).state().events == (*old(state)).state().events.push(event),
        (*final(state)).state().verifiable == (*old(state)).state().verifiable,
        (*final(state)).state().nonverifiable == (*old(state)).state().nonverifiable,
        (*final(state)).state().objects == (*old(state)).state().objects,
{
}

/// Merging changes gives each changed name what its change says, leaves every
/// other name alone, and changes nothing but the objects.
pub proof fn object_merge_follows_the_changes<S: StateWrite>(
    state: &mut S,
    objects: BTreeMap<&'static str, Option<S::Object>>,
    key: &'static str,
    name: Seq<char>,
)
    requires
        call_ensures(S::object_merge, (state, objects), ()),
        forall|a: &'static str, b: &'static str|
            (#[trigger] objects@.contains_key(a)) && (#[trigger] objects@.contains_key(b)) && a@
                == b@ ==> a == b,
    ensures
        ({
            let before = (*old(state)).state().objects;
            let after = (*final(state)).state().objects;
            &&& objects@.contains_key(key) ==> match objects@[key] {
                Some(object) => after.contains_key(key@) && after[key@] == object,
                None => !after.contains_key(key@),
            }
            &&& (forall|k: &'static str| #[trigger] objects@.contains_key(k) ==> k@ != name) ==> {
                &&& after.contains_key(name) == before.contains_key(name)
                &&& before.contains_key(name) ==> after[name] == before[name]
            }
        }),
        (*final(state)).state().verifiable == (*old(state)).state().verifiable,
        (*final(state)).state().nonverifiable == (*old(state)).state().nonverifiable,
        (*final(state)).state().events == (*old(state)).state().events,
{
    merging_follows_the_changes((*old(state)).state(), objects@, key, name);
}

/// A reference stands for the state that it refers to: what is written through
/// it is written there.
pub proof fn references_stand_for_their_state<'a, S: StateWrite + Send + Sync>(
    a: S::Object,
    b: S::Object,
)
    ensures
        forall|reference: &'a mut S| #[trigger]
            <&'a mut S as StateWrite>::state(&reference) == (*reference).state(),
        <&'a mut S as StateWrite>::same_type(a, b) == S::same_type(a, b),
{
}

} // verus!
