use magnetite::hasher::NickHasher;
use magnetite::lookup::{LookupError, LookupState, RecordStep, StoreError};

/// A store in memory: one row per commitment.
struct MemoryStore {
    rows: Vec<(i32, String)>,
    writes: usize,
}

impl MemoryStore {
    fn new() -> Self {
        MemoryStore { rows: Vec::new(), writes: 0 }
    }

    fn hashes_for_index(&self, index: i32) -> Result<Vec<String>, StoreError> {
        Ok(self.rows.iter().filter(|row| row.0 == index).map(|row| row.1.clone()).collect())
    }

    fn reversed_for_index(&self, index: i32) -> Result<Vec<String>, StoreError> {
        Ok(self.rows.iter().rev().filter(|row| row.0 == index).map(|row| row.1.clone()).collect())
    }

    fn add_hash(&mut self, index: i32, hash: &str) -> Result<(), StoreError> {
        self.rows.push((index, hash.to_string()));
        self.writes += 1;
        Ok(())
    }
}

fn engine() -> LookupState {
    LookupState::new(NickHasher::new(&[0u8; 16]))
}

fn lookup(state: &LookupState, store: &MemoryStore, nick: &str) -> Result<bool, LookupError> {
    let index = state.hasher().index_for(nick);
    state.lookup(nick, store.hashes_for_index(index))
}

fn record(state: &LookupState, store: &mut MemoryStore, nick: &str) -> Result<bool, LookupError> {
    let index = state.hasher().index_for(nick);
    match state.record(nick, store.hashes_for_index(index)) {
        RecordStep::Done(reply) => reply,
        RecordStep::Add { index, commitment } => {
            LookupState::added(store.add_hash(index, &commitment))
        }
    }
}

#[test]
fn alice_is_found_and_bob_is_not() {
    let state = engine();
    let mut store = MemoryStore::new();
    let index = state.hasher().index_for("alice");
    assert_eq!(index, 42479);
    assert!(matches!(record(&state, &mut store, "alice"), Ok(false)));
    assert_eq!(store.rows.len(), 1);
    assert_eq!(store.rows[0].0, index);
    assert!(matches!(lookup(&state, &store, "alice"), Ok(true)));
    assert!(matches!(lookup(&state, &store, "bob"), Ok(false)));
}

#[test]
fn lookup_is_false_before_and_true_after_a_record() {
    let state = engine();
    let mut store = MemoryStore::new();
    assert!(matches!(lookup(&state, &store, "carol"), Ok(false)));
    assert!(matches!(record(&state, &mut store, "carol"), Ok(false)));
    assert!(matches!(lookup(&state, &store, "carol"), Ok(true)));
    assert!(matches!(record(&state, &mut store, "carol"), Ok(true)));
    assert!(matches!(lookup(&state, &store, "carol"), Ok(true)));
}

#[test]
fn recording_twice_writes_once() {
    let state = engine();
    let mut store = MemoryStore::new();
    assert!(matches!(record(&state, &mut store, "dave"), Ok(false)));
    assert!(matches!(record(&state, &mut store, "dave"), Ok(true)));
    assert_eq!(store.writes, 1);
    assert_eq!(store.rows.len(), 1);
}

#[test]
fn racing_records_both_write_and_lookups_still_find() {
    let state = engine();
    let mut store = MemoryStore::new();
    let index = state.hasher().index_for("erin");
    // Both calls read the bucket before either has written.
    let first = state.record("erin", store.hashes_for_index(index));
    let second = state.record("erin", store.hashes_for_index(index));
    let mut replies = Vec::new();
    let mut written = Vec::new();
    for step in [first, second] {
        match step {
            RecordStep::Add { index, commitment } => {
                written.push(commitment.clone());
                replies.push(LookupState::added(store.add_hash(index, &commitment)));
            }
            RecordStep::Done(reply) => replies.push(reply),
        }
    }
    assert!(matches!(replies[0], Ok(false)));
    assert!(matches!(replies[1], Ok(false)));
    assert_eq!(store.writes, 2);
    assert_ne!(written[0], written[1]);
    assert!(matches!(lookup(&state, &store, "erin"), Ok(true)));
    assert!(matches!(state.lookup("erin", store.reversed_for_index(index)), Ok(true)));
}

#[test]
fn a_record_that_comes_late_in_a_race_replies_true() {
    let state = engine();
    let mut store = MemoryStore::new();
    let index = state.hasher().index_for("frank");
    let early = state.record("frank", store.hashes_for_index(index));
    match early {
        RecordStep::Add { index, commitment } => {
            assert!(matches!(LookupState::added(store.add_hash(index, &commitment)), Ok(false)));
        }
        RecordStep::Done(_) => panic!("the first call finds nothing"),
    }
    let late = state.record("frank", store.hashes_for_index(index));
    assert!(matches!(late, RecordStep::Done(Ok(true))));
    assert_eq!(store.writes, 1);
}

#[test]
fn a_malformed_row_fails_the_lookup_of_its_bucket() {
    let state = engine();
    let mut store = MemoryStore::new();
    let index = state.hasher().index_for("alice");
    store.add_hash(index, "garbage").unwrap();
    assert!(matches!(lookup(&state, &store, "alice"), Err(LookupError::Bcrypt(_))));
    assert!(matches!(record(&state, &mut store, "alice"), Err(LookupError::Bcrypt(_))));
    assert_eq!(store.writes, 1);
    // Another bucket is not touched by it.
    assert!(matches!(lookup(&state, &store, "bob"), Ok(false)));
}

#[test]
fn a_failed_write_is_a_failed_record() {
    let state = engine();
    let store = MemoryStore::new();
    let index = state.hasher().index_for("grace");
    match state.record("grace", store.hashes_for_index(index)) {
        RecordStep::Add { .. } => {
            let failure = StoreError { message: "read-only".to_string() };
            match LookupState::added(Err(failure)) {
                Err(LookupError::Db(failure)) => assert_eq!(failure.message, "read-only"),
                _ => panic!("the failure of the store was not passed on"),
            }
        }
        RecordStep::Done(_) => panic!("a new nickname has to be written"),
    }
    assert!(matches!(lookup(&state, &store, "grace"), Ok(false)));
}
