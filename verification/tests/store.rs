use kvs::{
    sorted_terms, stale_terms, Command, Compaction, KvStore, KvsError, KvsReader, LogRecord, Pos,
    TermLog, COMPACTION_THRESHOLD,
};
use std::collections::{BTreeMap, HashMap};

/// The number of bytes that the JSON text of `cmd` takes.
fn encoded_len(cmd: &Command) -> u64 {
    let text = match cmd {
        Command::Put { key, value } => format!(
            "{{\"Set\":{{\"key\":{},\"value\":{}}}}}",
            serde_json::to_string(key).unwrap(),
            serde_json::to_string(value).unwrap()
        ),
        Command::Remove { key } => format!(
            "{{\"Remove\":{{\"key\":{}}}}}",
            serde_json::to_string(key).unwrap()
        ),
    };
    text.len() as u64
}

/// A directory of term files, held in memory: for each term its records,
/// each with the offset at which it starts.
struct Disk {
    files: BTreeMap<u64, Vec<(u64, LogRecord)>>,
}

impl Disk {
    fn new() -> Disk {
        Disk { files: BTreeMap::new() }
    }

    fn create(&mut self, term: u64) {
        self.files.entry(term).or_default();
    }

    fn file_len(&self, term: u64) -> u64 {
        self.files[&term].iter().map(|(_, rec)| rec.len).sum()
    }

    fn append(&mut self, term: u64, cmd: Command) -> u64 {
        let len = encoded_len(&cmd);
        let offset = self.file_len(term);
        self.files.get_mut(&term).unwrap().push((offset, LogRecord { cmd, len }));
        len
    }

    fn read(&self, pos: Pos) -> Command {
        let file = self.files.get(&pos.term).expect("the file of the term exists");
        let (_, rec) = file
            .iter()
            .find(|(offset, rec)| *offset == pos.offset && rec.len == pos.len)
            .expect("a record lies at the position");
        rec.cmd.clone()
    }

    fn stems(&self) -> Vec<String> {
        let mut stems: Vec<String> = self.files.keys().map(|t| t.to_string()).collect();
        stems.push("engine".to_string());
        stems
    }

    fn logs(&self) -> Vec<TermLog> {
        sorted_terms(&self.stems())
            .into_iter()
            .map(|term| TermLog {
                term,
                records: self.files[&term].iter().map(|(_, rec)| rec.clone()).collect(),
            })
            .collect()
    }

    fn total_len(&self) -> u64 {
        self.files.keys().map(|t| self.file_len(*t)).sum()
    }

    fn carry_out(&mut self, plan: &Compaction) {
        self.create(plan.compact_term);
        self.create(plan.next_term);
        for step in &plan.copies {
            let cmd = self.read(step.from);
            assert_eq!(step.to.term, plan.compact_term);
            assert_eq!(step.to.offset, self.file_len(plan.compact_term));
            assert_eq!(step.to.len, step.from.len);
            let len = self.append(plan.compact_term, cmd);
            assert_eq!(len, step.to.len);
        }
        let listed = sorted_terms(&self.stems());
        for term in stale_terms(&listed, plan.compact_term) {
            self.files.remove(&term);
        }
    }
}

/// The store together with its files and one reader, driven as a program
/// around the engine drives them.
struct Harness {
    store: KvStore,
    reader: KvsReader,
    disk: Disk,
    compactions: usize,
}

impl Harness {
    fn open(mut disk: Disk) -> Harness {
        let store = KvStore::open(disk.logs());
        disk.create(store.current_term());
        Harness { store, reader: KvsReader::new(), disk, compactions: 0 }
    }

    fn reopen(self) -> Harness {
        Harness::open(self.disk)
    }

    fn compact(&mut self) {
        let planned = self.store.plan_compaction();
        let plan = self.store.compact();
        assert_eq!(plan, planned);
        self.disk.carry_out(&plan);
        self.compactions += 1;
    }

    fn set(&mut self, key: &str, value: &str) {
        let cmd = Command::Put { key: key.to_string(), value: value.to_string() };
        let offset = self.store.active_len();
        let len = self.disk.append(self.store.current_term(), cmd);
        assert_eq!(self.disk.file_len(self.store.current_term()), offset + len);
        if self.store.set(key.to_string(), value.to_string(), len) {
            self.compact();
        }
    }

    fn get(&mut self, key: &str) -> Result<Option<String>, KvsError> {
        match self.store.get(key.to_string()) {
            None => Ok(None),
            Some(pos) => {
                let plan = self.reader.read_and(self.store.safe_point(), pos);
                assert_eq!(plan.at, pos);
                if plan.open {
                    assert!(self.disk.files.contains_key(&pos.term));
                    self.reader.open_term(pos.term);
                }
                KvStore::read_value(self.disk.read(plan.at))
            }
        }
    }

    fn remove(&mut self, key: &str) -> Result<(), KvsError> {
        if !self.store.contains_key(key) {
            let before = self.disk.total_len();
            let outcome = self.store.remove(key.to_string(), 0);
            assert_eq!(self.disk.total_len(), before);
            return outcome.map(|_| ());
        }
        let cmd = Command::Remove { key: key.to_string() };
        let len = self.disk.append(self.store.current_term(), cmd);
        if self.store.remove(key.to_string(), len)? {
            self.compact();
        }
        Ok(())
    }
}

fn value_of(found: Result<Option<String>, KvsError>) -> Option<String> {
    found.expect("the read succeeds")
}

#[test]
fn empty_directory_starts_at_term_one() {
    let store = KvStore::open(Vec::new());
    assert_eq!(store.current_term(), 1);
    assert_eq!(store.safe_point(), 0);
    assert_eq!(store.uncompacted(), 0);
    assert_eq!(store.active_len(), 0);
    assert_eq!(store.log_bytes(), 0);
    assert_eq!(store.get("a".to_string()), None);
}

#[test]
fn set_get_remove_and_reopen() {
    let mut h = Harness::open(Disk::new());
    h.set("a", "1");
    h.set("b", "2");
    assert_eq!(value_of(h.get("a")), Some("1".to_string()));
    h.remove("a").unwrap();
    assert_eq!(value_of(h.get("a")), None);
    let mut h = h.reopen();
    assert_eq!(value_of(h.get("a")), None);
    assert_eq!(value_of(h.get("b")), Some("2".to_string()));
    assert_eq!(h.store.current_term(), 2);
}

#[test]
fn set_records_the_position_of_the_record() {
    let mut store = KvStore::open(Vec::new());
    assert!(!store.set("a".to_string(), "1".to_string(), 30));
    assert!(!store.set("b".to_string(), "22".to_string(), 31));
    assert_eq!(store.get("a".to_string()), Some(Pos { term: 1, offset: 0, len: 30 }));
    assert_eq!(store.get("b".to_string()), Some(Pos { term: 1, offset: 30, len: 31 }));
    assert_eq!(store.active_len(), 61);
    assert_eq!(store.log_bytes(), 61);
    assert_eq!(store.uncompacted(), 0);
}

#[test]
fn overwriting_counts_the_displaced_record_as_dead() {
    let mut store = KvStore::open(Vec::new());
    store.set("a".to_string(), "1".to_string(), 30);
    store.set("a".to_string(), "2".to_string(), 40);
    assert_eq!(store.uncompacted(), 30);
    assert_eq!(store.get("a".to_string()), Some(Pos { term: 1, offset: 30, len: 40 }));
    store.set("a".to_string(), "3".to_string(), 50);
    assert_eq!(store.uncompacted(), 70);
}

#[test]
fn removing_counts_the_value_and_the_remove_record_as_dead() {
    let mut store = KvStore::open(Vec::new());
    store.set("a".to_string(), "1".to_string(), 30);
    assert!(matches!(store.remove("a".to_string(), 20), Ok(false)));
    assert_eq!(store.uncompacted(), 50);
    assert_eq!(store.active_len(), 50);
    assert!(!store.contains_key("a"));
    assert_eq!(store.get("a".to_string()), None);
}

#[test]
fn removing_an_absent_key_fails_and_changes_nothing() {
    let mut h = Harness::open(Disk::new());
    h.set("a", "1");
    let bytes = h.store.log_bytes();
    let dead = h.store.uncompacted();
    assert!(matches!(h.remove("b"), Err(KvsError::KeyNotFound)));
    assert!(matches!(h.store.remove("b".to_string(), 25), Err(KvsError::KeyNotFound)));
    assert_eq!(h.store.log_bytes(), bytes);
    assert_eq!(h.store.uncompacted(), dead);
    assert_eq!(h.store.active_len(), bytes);
    assert_eq!(value_of(h.get("a")), Some("1".to_string()));
    h.remove("a").unwrap();
    assert!(matches!(h.remove("a"), Err(KvsError::KeyNotFound)));
}

#[test]
fn set_is_due_for_compaction_above_the_threshold() {
    let mut store = KvStore::open(Vec::new());
    assert_eq!(COMPACTION_THRESHOLD, 1024 * 1024);
    assert!(!store.set("a".to_string(), "1".to_string(), COMPACTION_THRESHOLD));
    assert!(!store.set("a".to_string(), "2".to_string(), 1));
    assert_eq!(store.uncompacted(), COMPACTION_THRESHOLD);
    assert!(store.set("a".to_string(), "3".to_string(), 10));
    assert_eq!(store.uncompacted(), COMPACTION_THRESHOLD + 1);
}

#[test]
fn remove_is_due_for_compaction_above_the_threshold() {
    let mut store = KvStore::open(Vec::new());
    store.set("a".to_string(), "1".to_string(), COMPACTION_THRESHOLD);
    assert!(matches!(store.remove("a".to_string(), 1), Ok(true)));
    store.set("b".to_string(), "1".to_string(), 5);
    assert!(matches!(store.remove("c".to_string(), 1), Err(KvsError::KeyNotFound)));
    assert!(matches!(store.remove("c".to_string(), u64::MAX), Err(KvsError::KeyNotFound)));
}

#[test]
fn compaction_moves_every_live_record_to_the_next_term() {
    let mut store = KvStore::open(Vec::new());
    store.set("b".to_string(), "1".to_string(), 10);
    store.set("a".to_string(), "2".to_string(), 20);
    store.set("b".to_string(), "3".to_string(), 30);
    store.set("c".to_string(), "4".to_string(), 40);
    store.remove("c".to_string(), 15).unwrap();
    assert_eq!(store.uncompacted(), 65);
    let plan = store.compact();
    assert_eq!(plan.compact_term, 2);
    assert_eq!(plan.next_term, 3);
    assert_eq!(plan.copies.len(), 2);
    assert_eq!(plan.copies[0].key, "a");
    assert_eq!(plan.copies[0].from, Pos { term: 1, offset: 10, len: 20 });
    assert_eq!(plan.copies[0].to, Pos { term: 2, offset: 0, len: 20 });
    assert_eq!(plan.copies[1].key, "b");
    assert_eq!(plan.copies[1].from, Pos { term: 1, offset: 30, len: 30 });
    assert_eq!(plan.copies[1].to, Pos { term: 2, offset: 20, len: 30 });
    assert_eq!(store.current_term(), 3);
    assert_eq!(store.safe_point(), 2);
    assert_eq!(store.uncompacted(), 0);
    assert_eq!(store.active_len(), 0);
    assert_eq!(store.log_bytes(), 50);
    assert_eq!(store.get("a".to_string()), Some(Pos { term: 2, offset: 0, len: 20 }));
    assert_eq!(store.get("b".to_string()), Some(Pos { term: 2, offset: 20, len: 30 }));
    assert_eq!(store.get("c".to_string()), None);
}

#[test]
fn planning_a_compaction_changes_nothing() {
    let mut store = KvStore::open(Vec::new());
    store.set("b".to_string(), "1".to_string(), 10);
    store.set("a".to_string(), "2".to_string(), 20);
    store.set("b".to_string(), "3".to_string(), 30);
    let planned = store.plan_compaction();
    assert_eq!(store.current_term(), 1);
    assert_eq!(store.safe_point(), 0);
    assert_eq!(store.uncompacted(), 10);
    assert_eq!(store.get("a".to_string()), Some(Pos { term: 1, offset: 10, len: 20 }));
    assert_eq!(store.get("b".to_string()), Some(Pos { term: 1, offset: 30, len: 30 }));
    assert_eq!(planned, store.plan_compaction());
    assert_eq!(planned.compact_term, 2);
    assert_eq!(planned.next_term, 3);
    assert_eq!(
        planned.copies,
        vec![
            kvs::CopyStep {
                key: "a".to_string(),
                from: Pos { term: 1, offset: 10, len: 20 },
                to: Pos { term: 2, offset: 0, len: 20 },
            },
            kvs::CopyStep {
                key: "b".to_string(),
                from: Pos { term: 1, offset: 30, len: 30 },
                to: Pos { term: 2, offset: 20, len: 30 },
            },
        ]
    );
    assert_eq!(store.compact(), planned);
}

#[test]
fn compaction_of_an_empty_store_takes_two_terms() {
    let mut store = KvStore::open(Vec::new());
    let plan = store.compact();
    assert_eq!(plan.compact_term, 2);
    assert_eq!(plan.next_term, 3);
    assert!(plan.copies.is_empty());
    assert_eq!(store.current_term(), 3);
    assert_eq!(store.log_bytes(), 0);
}

#[test]
fn compaction_keeps_what_get_returns() {
    let mut h = Harness::open(Disk::new());
    let mut oracle: HashMap<String, String> = HashMap::new();
    let value = "x".repeat(300);
    for round in 0..10 {
        for i in 0..1000 {
            let key = format!("k_{}", i);
            let v = format!("v_{}_{}_{}", i, round, value);
            h.set(&key, &v);
            oracle.insert(key, v);
        }
        for i in (0..1000).step_by(7) {
            let key = format!("k_{}", i);
            h.remove(&key).unwrap();
            oracle.remove(&key);
        }
    }
    assert!(h.compactions >= 1);
    assert!(h.disk.files.keys().any(|term| *term >= 3));
    for i in 0..1000 {
        let key = format!("k_{}", i);
        assert_eq!(value_of(h.get(&key)), oracle.get(&key).cloned());
    }
    let mut h = h.reopen();
    for i in 0..1000 {
        let key = format!("k_{}", i);
        assert_eq!(value_of(h.get(&key)), oracle.get(&key).cloned());
    }
}

#[test]
fn files_after_compaction_hold_only_live_records() {
    let mut h = Harness::open(Disk::new());
    for i in 0..50 {
        h.set(&format!("k_{}", i % 5), &format!("v_{}", i));
    }
    h.remove("k_0").unwrap();
    let before = h.disk.total_len();
    assert_eq!(h.store.log_bytes(), before);
    h.compact();
    let live: u64 = (1..5)
        .map(|i| h.store.get(format!("k_{}", i)).unwrap().len)
        .sum();
    assert_eq!(h.disk.total_len(), live);
    assert_eq!(h.store.log_bytes(), live);
    assert!(live < before);
    assert_eq!(h.disk.files.keys().copied().collect::<Vec<u64>>(), vec![2, 3]);
    assert_eq!(h.disk.file_len(3), 0);
}

#[test]
fn ten_thousand_distinct_keys_read_back() {
    let mut h = Harness::open(Disk::new());
    for i in 0..10_000 {
        h.set(&format!("k_{}", i), &format!("v_{}", i));
    }
    assert_eq!(h.store.uncompacted(), 0);
    for i in 0..10_000 {
        assert_eq!(value_of(h.get(&format!("k_{}", i))), Some(format!("v_{}", i)));
    }
}

#[test]
fn ten_thousand_sets_with_overwrites_compact_and_read_back() {
    let mut h = Harness::open(Disk::new());
    let padding = "p".repeat(1200);
    for i in 0..10_000 {
        h.set(&format!("k_{}", i % 100), &format!("v_{}_{}", i, padding));
    }
    assert!(h.compactions >= 1);
    assert!(h.disk.files.keys().any(|term| *term >= 3));
    for k in 0..100 {
        let last = 9_900 + k;
        assert_eq!(
            value_of(h.get(&format!("k_{}", k))),
            Some(format!("v_{}_{}", last, padding))
        );
    }
}

#[test]
fn set_then_get_survives_work_on_other_keys() {
    let mut h = Harness::open(Disk::new());
    h.set("k", "v");
    for i in 0..200 {
        h.set(&format!("other_{}", i % 10), &"w".repeat(100));
        if i % 3 == 0 {
            let _ = h.remove(&format!("other_{}", (i + 1) % 10));
        }
        if i % 50 == 0 {
            h.compact();
        }
    }
    assert_eq!(value_of(h.get("k")), Some("v".to_string()));
}

#[test]
fn interleaved_writers_on_disjoint_keys() {
    let mut h = Harness::open(Disk::new());
    for j in 0..1000 {
        for t in 0..8 {
            h.set(&format!("t{}:{}", t, j), &j.to_string());
        }
    }
    for t in 0..8 {
        for j in 0..1000 {
            assert_eq!(value_of(h.get(&format!("t{}:{}", t, j))), Some(j.to_string()));
        }
    }
}

#[test]
fn reopening_restores_index_and_counters() {
    let mut h = Harness::open(Disk::new());
    h.set("a", "1");
    h.set("b", "2");
    h.set("a", "3");
    h.remove("b").unwrap();
    let pos = h.store.get("a".to_string());
    let dead = h.store.uncompacted();
    let bytes = h.store.log_bytes();
    let h = h.reopen();
    assert_eq!(h.store.get("a".to_string()), pos);
    assert_eq!(h.store.get("b".to_string()), None);
    assert_eq!(h.store.uncompacted(), dead);
    assert_eq!(h.store.log_bytes(), bytes);
    assert_eq!(h.store.current_term(), 2);
    assert_eq!(h.store.active_len(), 0);
}

#[test]
fn open_replays_files_in_the_order_given() {
    let put = |key: &str, value: &str, len: u64| LogRecord {
        cmd: Command::Put { key: key.to_string(), value: value.to_string() },
        len,
    };
    let remove = |key: &str, len: u64| LogRecord {
        cmd: Command::Remove { key: key.to_string() },
        len,
    };
    let logs = vec![
        TermLog { term: 4, records: vec![put("a", "1", 10), put("b", "2", 11)] },
        TermLog { term: 7, records: vec![put("a", "3", 12), remove("b", 13), remove("z", 14)] },
    ];
    let store = KvStore::open(logs);
    assert_eq!(store.current_term(), 8);
    assert_eq!(store.get("a".to_string()), Some(Pos { term: 7, offset: 0, len: 12 }));
    assert_eq!(store.get("b".to_string()), None);
    assert_eq!(store.uncompacted(), 10 + 11 + 13 + 14);
    assert_eq!(store.log_bytes(), 60);
}

#[test]
fn open_takes_the_term_after_the_greatest() {
    let put = |key: &str, len: u64| LogRecord {
        cmd: Command::Put { key: key.to_string(), value: "v".to_string() },
        len,
    };
    let logs = vec![
        TermLog { term: 9, records: vec![put("a", 10)] },
        TermLog { term: 3, records: vec![put("a", 20)] },
        TermLog { term: 5, records: Vec::new() },
    ];
    let store = KvStore::open(logs);
    assert_eq!(store.current_term(), 10);
    assert_eq!(store.get("a".to_string()), Some(Pos { term: 3, offset: 0, len: 20 }));
    assert_eq!(store.uncompacted(), 10);
    assert_eq!(store.log_bytes(), 30);
}

#[test]
fn read_value_takes_the_value_of_a_put() {
    let put = Command::Put { key: "k".to_string(), value: "v".to_string() };
    assert!(matches!(KvStore::read_value(put), Ok(Some(v)) if v == "v"));
    let remove = Command::Remove { key: "k".to_string() };
    assert!(matches!(KvStore::read_value(remove), Err(KvsError::UnexpectedCommandType)));
}

#[test]
fn load_replays_one_file_into_an_index() {
    let mut index = kvs::KeyIndex::new();
    let records = vec![
        LogRecord { cmd: Command::Put { key: "a".to_string(), value: "1".to_string() }, len: 5 },
        LogRecord { cmd: Command::Put { key: "a".to_string(), value: "2".to_string() }, len: 6 },
        LogRecord { cmd: Command::Remove { key: "q".to_string() }, len: 7 },
    ];
    assert_eq!(kvs::load(3, &records, &mut index), 12);
    assert_eq!(index.get("a"), Some(Pos { term: 3, offset: 5, len: 6 }));
    let more = vec![LogRecord { cmd: Command::Remove { key: "a".to_string() }, len: 8 }];
    assert_eq!(kvs::load(4, &more, &mut index), 14);
    assert_eq!(index.get("a"), None);
}
