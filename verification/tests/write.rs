use cnidarium::write::StateWrite;
use std::collections::BTreeMap;
use tendermint::abci::Event;

/// Chain state in memory.
#[derive(Default)]
struct Memory {
    verifiable: BTreeMap<Vec<u8>, Vec<u8>>,
    nonverifiable: BTreeMap<Vec<u8>, Vec<u8>>,
    objects: BTreeMap<&'static str, u64>,
    events: Vec<Event>,
}

impl StateWrite for Memory {
    type Object = u64;

    fn put_raw(&mut self, key: String, value: Vec<u8>) {
        self.verifiable.insert(key.into_bytes(), value);
    }

    fn delete(&mut self, key: String) {
        self.verifiable.remove(key.as_bytes());
    }

    fn put_raw_bytes(&mut self, key: Vec<u8>, value: Vec<u8>) {
        self.verifiable.insert(key, value);
    }

    fn delete_bytes(&mut self, key: Vec<u8>) {
        self.verifiable.remove(&key);
    }

    fn nonverifiable_put_raw(&mut self, key: Vec<u8>, value: Vec<u8>) {
        self.nonverifiable.insert(key, value);
    }

    fn nonverifiable_delete(&mut self, key: Vec<u8>) {
        self.nonverifiable.remove(&key);
    }

    fn object_put(&mut self, key: &'static str, value: u64) {
        self.objects.insert(key, value);
    }

    fn object_delete(&mut self, key: &'static str) {
        self.objects.remove(key);
    }

    fn object_merge(&mut self, objects: BTreeMap<&'static str, Option<u64>>) {
        for (key, change) in objects {
            match change {
                Some(value) => self.objects.insert(key, value),
                None => self.objects.remove(key),
            };
        }
    }

    fn record(&mut self, event: Event) {
        self.events.push(event);
    }
}

fn packet_commitment_key(client_id: &str, seq: u64) -> Vec<u8> {
    let mut k = client_id.as_bytes().to_vec();
    k.push(0x01);
    k.extend_from_slice(&seq.to_be_bytes());
    k
}

fn full_key(substore_key: &[u8]) -> Vec<u8> {
    [b"ibc-data/".as_slice(), substore_key].concat()
}

/// Writes through whatever is given, so that a reference can stand for the
/// state itself.
fn write_everything<S: StateWrite>(mut state: S, number: S::Object) {
    state.put_raw("kept".to_string(), b"1".to_vec());
    state.put_raw("gone".to_string(), b"2".to_vec());
    state.delete("gone".to_string());
    state.put_raw_bytes(vec![0xc8], b"3".to_vec());
    state.put_raw_bytes(vec![0xc9], b"4".to_vec());
    state.delete_bytes(vec![0xc9]);
    state.nonverifiable_put_raw(b"nv".to_vec(), b"5".to_vec());
    state.nonverifiable_put_raw(b"nv-gone".to_vec(), b"6".to_vec());
    state.nonverifiable_delete(b"nv-gone".to_vec());
    state.object_put("number", number);
    state.object_delete("other");
    state.object_merge(BTreeMap::from([("deleted", None)]));
    state.record(Event::new("happened", Vec::<(String, String)>::new()));
}

fn assert_everything_written(state: &Memory) {
    assert_eq!(
        state.verifiable,
        BTreeMap::from([
            (b"kept".to_vec(), b"1".to_vec()),
            (vec![0xc8], b"3".to_vec())
        ])
    );
    assert_eq!(
        state.nonverifiable,
        BTreeMap::from([(b"nv".to_vec(), b"5".to_vec())])
    );
    assert_eq!(state.objects, BTreeMap::from([("number", 42)]));
    assert_eq!(state.events.len(), 1);
    assert_eq!(state.events[0].kind, "happened");
}

fn with_old_objects() -> Memory {
    Memory {
        objects: BTreeMap::from([("other", 1), ("deleted", 2)]),
        ..Default::default()
    }
}

#[test]
fn reference_forwards_every_write() {
    let mut state = with_old_objects();
    write_everything(&mut state, 42);
    assert_everything_written(&state);
}

#[test]
fn reference_to_a_reference_forwards_every_write() {
    let mut state = with_old_objects();
    let mut reference = &mut state;
    write_everything(&mut reference, 42);
    assert_everything_written(&state);
}

#[test]
fn byte_keys_and_text_keys_share_a_store() {
    let mut state = Memory::default();
    let mut reference = &mut state;
    let text = "ibc-data/v2/counterparty/07-tendermint-0";
    StateWrite::put_raw_bytes(&mut reference, text.as_bytes().to_vec(), b"cp".to_vec());
    StateWrite::put_raw(&mut reference, text.to_string(), b"newer".to_vec());
    assert_eq!(state.verifiable.len(), 1);
    assert_eq!(state.verifiable[text.as_bytes()], b"newer".to_vec());
    let mut reference = &mut state;
    StateWrite::delete_bytes(&mut reference, text.as_bytes().to_vec());
    assert!(state.verifiable.is_empty());
}

#[test]
fn keys_that_are_not_text_are_kept_apart() {
    // Sequence 200: the big-endian bytes contain 0xC8, which is not UTF-8.
    let sub_key = packet_commitment_key("07-tendermint-0", 200);
    assert!(std::str::from_utf8(&sub_key).is_err());
    let key = full_key(&sub_key);
    let value = [0xABu8; 32].to_vec();

    let mut state = Memory::default();
    let mut reference = &mut state;
    StateWrite::put_raw_bytes(&mut reference, key.clone(), value.clone());
    StateWrite::put_raw(
        &mut reference,
        "ibc-data/clients/07-tendermint-0/clientState".to_string(),
        b"cs".to_vec(),
    );
    StateWrite::delete(&mut reference, String::from_utf8_lossy(&key).into_owned());
    assert_eq!(state.verifiable.len(), 2);
    assert_eq!(state.verifiable[&key], value);

    let mut reference = &mut state;
    StateWrite::delete_bytes(&mut reference, key.clone());
    assert!(!state.verifiable.contains_key(&key));
}

#[test]
fn merging_objects_puts_and_deletes() {
    let mut state = with_old_objects();
    let mut reference = &mut state;
    let changes = BTreeMap::from([("deleted", None), ("added", Some(9)), ("other", Some(7))]);
    StateWrite::object_merge(&mut reference, changes);
    assert_eq!(state.objects, BTreeMap::from([("added", 9), ("other", 7)]));
    // Merging nothing changes nothing.
    let mut reference = &mut state;
    StateWrite::object_merge(&mut reference, BTreeMap::new());
    assert_eq!(state.objects, BTreeMap::from([("added", 9), ("other", 7)]));
}

#[test]
fn different_texts_are_different_keys() {
    let mut state = Memory::default();
    let mut reference = &mut state;
    for key in ["", "a", "A", "\u{e9}", "e\u{301}"] {
        StateWrite::put_raw(&mut reference, key.to_string(), key.as_bytes().to_vec());
    }
    assert_eq!(state.verifiable.len(), 5);
    assert_eq!(state.verifiable[[0xc3, 0xa9].as_slice()], vec![0xc3, 0xa9]);
}

#[test]
fn events_are_recorded_in_order() {
    let mut state = Memory::default();
    let mut reference = &mut state;
    for kind in ["first", "second"] {
        let event = Event::new(kind, Vec::<(String, String)>::new());
        StateWrite::record(&mut reference, event);
    }
    let kinds: Vec<&str> = state.events.iter().map(|event| event.kind.as_str()).collect();
    assert_eq!(kinds, vec!["first", "second"]);
}
