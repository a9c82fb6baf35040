use nostrdb::config::{ConfigValues, NdbConfig, DEFAULT_INGESTER_THREADS, DEFAULT_MAPSIZE};
use nostrdb::event::{Decision, ErrorKind, Event, Id, Signature};
use nostrdb::index::{derive_keys, Record};
use nostrdb::ingest::{Counters, IngressQueue, Origin, Progress, Reply, Stage, Task};
use nostrdb::ndb::{check_path, Ndb, INGRESS_CAPACITY};
use nostrdb::filter::{is_match, Filter, TagMatch};
use nostrdb::query::{choose_plan, query, Plan};
use nostrdb::index::{AuthorKey, KindKey, TagKey, TimeKey};
use nostrdb::content::key_precedes;
use nostrdb::secondary::{author_key_before, kind_key_before};
use nostrdb::store::{Durable, Store};
use nostrdb::tag_index::{tag_rank, text_rank};

fn id(n: u128) -> Id {
    Id { hi: 0, lo: n }
}

fn event(n: u128, author: u128, created_at: u64, kind: u32) -> Event {
    Event {
        id: id(n),
        pubkey: id(author),
        sig: Signature { r: id(1), s: id(2) },
        created_at,
        kind,
        tags: Vec::new(),
        content: String::from("hello"),
    }
}

fn tagged(n: u128, created_at: u64, tags: &[&[&str]]) -> Event {
    let mut e = event(n, 7, created_at, 1);
    e.tags = tags.iter().map(|t| t.iter().map(|s| s.to_string()).collect()).collect();
    e
}

fn record(n: u128, author: u128, created_at: u64, kind: u32, bytes: &[u8]) -> Record {
    Record::seal(&event(n, author, created_at, kind), bytes.to_vec())
}

fn any() -> Filter {
    Filter {
        ids: Vec::new(),
        authors: Vec::new(),
        kinds: Vec::new(),
        since: None,
        until: None,
        tags: Vec::new(),
        limit: None,
    }
}

fn task(payload: &[u8]) -> Task {
    Task { payload: payload.to_vec(), origin: Origin::Relay, source: String::from("wss://relay"), filter_context: None }
}

fn run(e: Option<Event>, hashed: Id, sig_ok: bool, decision: Decision, bytes: &[u8], filtered: bool) -> Progress {
    let mut p = Progress::start();
    loop {
        let reply = match p.next_stage(filtered) {
            None => return p,
            Some(Stage::Parse) => Reply::Parsed(e.clone()),
            Some(Stage::ContentId) => Reply::ContentId(hashed),
            Some(Stage::Signature) => Reply::Signature(sig_ok),
            Some(Stage::Policy) => Reply::Policy(decision),
            Some(Stage::Encode) => Reply::Encoded(bytes.to_vec()),
        };
        p = p.advance(reply, filtered);
    }
}

#[test]
fn lib_ndb_init_works() {
    let mut config = NdbConfig::new();
    config.set_flags(0).set_ingester_threads(0);
    let ndb = Ndb::new(".", &config, Some(Vec::new()));
    assert!(ndb.is_ok());
}

#[test]
fn ndb_ndb_init_works() {
    let cfg = NdbConfig::new();
    let _ = Ndb::new(".", &cfg, Some(Vec::new()));
}

#[test]
fn config_defaults_are_the_documented_policy() {
    let cfg = NdbConfig::new();
    assert_eq!(
        cfg.config,
        ConfigValues { ingest_filter: false, filter_context: None, flags: 0, ingester_threads: 0, mapsize: DEFAULT_MAPSIZE }
    );
    assert_eq!(DEFAULT_MAPSIZE, 32 * 1024 * 1024 * 1024);
    assert_eq!(cfg.worker_threads(), Some(DEFAULT_INGESTER_THREADS));
    assert_eq!(DEFAULT_INGESTER_THREADS, 4);
}

#[test]
fn config_setters_change_one_field_each() {
    let mut cfg = NdbConfig::new();
    cfg.set_flags(5);
    assert_eq!(cfg.config.flags, 5);
    assert_eq!(cfg.config.ingester_threads, 0);
    cfg.set_ingester_threads(3);
    assert_eq!(cfg.config.flags, 5);
    assert_eq!(cfg.config.ingester_threads, 3);
    assert_eq!(cfg.worker_threads(), Some(3));
    cfg.set_mapsize(1024).set_ingest_filter(true).set_filter_context(Some(42));
    assert_eq!(
        *cfg.as_ptr(),
        ConfigValues { ingest_filter: true, filter_context: Some(42), flags: 5, ingester_threads: 3, mapsize: 1024 }
    );
    cfg.set_ingester_threads(-1);
    assert_eq!(cfg.worker_threads(), None);
}

#[test]
fn open_fails_on_zero_byte_in_path() {
    let cfg = NdbConfig::new();
    assert!(check_path("data/db"));
    assert!(!check_path("da\0ta"));
    assert!(matches!(Ndb::new("da\0ta", &cfg, Some(Vec::new())), Err(ErrorKind::OpenFailed)));
}

#[test]
fn open_fails_on_negative_thread_count() {
    let mut cfg = NdbConfig::new();
    cfg.set_ingester_threads(-2);
    assert!(matches!(Ndb::new(".", &cfg, Some(Vec::new())), Err(ErrorKind::OpenFailed)));
}

#[test]
fn open_gives_an_empty_engine() {
    let mut cfg = NdbConfig::new();
    cfg.set_mapsize(77);
    let ndb = Ndb::new("db", &cfg, Some(Vec::new())).unwrap();
    assert_eq!(ndb.store.len(), 0);
    assert_eq!(ndb.store.used_bytes(), 0);
    assert_eq!(ndb.store.bound_bytes(), 77);
    assert_eq!(ndb.queue.depth(), 0);
    assert_eq!(ndb.queue.capacity(), INGRESS_CAPACITY);
    assert_eq!(ndb.config().mapsize, 77);
}

#[test]
fn id_order_is_by_high_half_then_low_half() {
    let a = Id { hi: 1, lo: 9 };
    let b = Id { hi: 2, lo: 0 };
    let c = Id { hi: 2, lo: 1 };
    assert!(a.is_below(&b));
    assert!(b.is_below(&c));
    assert!(!c.is_below(&b));
    assert!(!a.is_below(&a));
    assert!(a.same(&a));
    assert!(!a.same(&b));
}

#[test]
fn keys_follow_the_event_fields() {
    let e = tagged(5, 900, &[&["e", "abc"], &["p"], &["t", "rust", "extra"], &[]]);
    let keys = derive_keys(&e);
    assert_eq!(keys.by_time.created_at, 900);
    assert_eq!(keys.by_time.id, id(5));
    assert_eq!(keys.by_author.pubkey, id(7));
    assert_eq!(keys.by_author.created_at, 900);
    assert_eq!(keys.by_author.id, id(5));
    assert_eq!(keys.by_kind.kind, 1);
    assert_eq!(keys.by_kind.id, id(5));
    assert_eq!(keys.by_tag.len(), 2);
    assert_eq!(keys.by_tag[0].name, "e");
    assert_eq!(keys.by_tag[0].value, "abc");
    assert_eq!(keys.by_tag[1].name, "t");
    assert_eq!(keys.by_tag[1].value, "rust");
    assert_eq!(keys.by_tag[1].created_at, 900);
    assert_eq!(keys.by_tag[1].id, id(5));
}

#[test]
fn keys_are_the_same_on_every_derivation() {
    let e = tagged(5, 900, &[&["e", "abc"], &["t", "rust"]]);
    let a = derive_keys(&e);
    let b = derive_keys(&e);
    assert_eq!(a.by_time, b.by_time);
    assert_eq!(a.by_author, b.by_author);
    assert_eq!(a.by_kind, b.by_kind);
    assert_eq!(a.by_tag.len(), b.by_tag.len());
    for (x, y) in a.by_tag.iter().zip(b.by_tag.iter()) {
        assert_eq!(x.name, y.name);
        assert_eq!(x.value, y.value);
    }
}

#[test]
fn queue_is_first_in_first_out_and_bounded() {
    let mut q = IngressQueue::new(2);
    assert!(q.enqueue(task(b"one")).is_ok());
    assert!(q.enqueue(task(b"two")).is_ok());
    assert_eq!(q.enqueue(task(b"three")), Err(ErrorKind::QueueFull));
    assert_eq!(q.depth(), 2);
    assert_eq!(q.dequeue().unwrap().payload, b"one".to_vec());
    assert!(q.enqueue(task(b"four")).is_ok());
    assert_eq!(q.dequeue().unwrap().payload, b"two".to_vec());
    assert_eq!(q.dequeue().unwrap().payload, b"four".to_vec());
    assert!(q.dequeue().is_none());
}

#[test]
fn queue_full_is_retriable_and_rejection_is_policy() {
    assert!(ErrorKind::QueueFull.is_retriable());
    assert!(!ErrorKind::StoreFull.is_retriable());
    assert!(ErrorKind::RejectedByFilter.is_policy());
    assert!(!ErrorKind::InvalidSignature.is_policy());
}

#[test]
fn submit_and_next_task_go_through_the_queue() {
    let mut ndb = Ndb::new(".", &NdbConfig::new(), Some(Vec::new())).unwrap();
    assert!(ndb.submit(task(b"a")).is_ok());
    assert!(ndb.submit(task(b"b")).is_ok());
    assert_eq!(ndb.next_task().unwrap().payload, b"a".to_vec());
    assert_eq!(ndb.next_task().unwrap().payload, b"b".to_vec());
    assert!(ndb.next_task().is_none());
    assert_eq!(ndb.store.len(), 0);
}

#[test]
fn submit_reports_queue_full() {
    let mut ndb = Ndb::new(".", &NdbConfig::new(), Some(Vec::new())).unwrap();
    for _ in 0..INGRESS_CAPACITY {
        assert!(ndb.submit(task(b"x")).is_ok());
    }
    assert_eq!(ndb.submit(task(b"y")), Err(ErrorKind::QueueFull));
    assert_eq!(ndb.queue.depth(), INGRESS_CAPACITY);
}

#[test]
fn pipeline_accepts_a_valid_event() {
    let e = tagged(5, 900, &[&["e", "abc"]]);
    let done = run(Some(e), id(5), true, Decision::Accept, b"bytes", true);
    match done.outcome() {
        Some(Ok(r)) => {
            assert_eq!(r.id, id(5));
            assert_eq!(r.bytes, b"bytes".to_vec());
            assert_eq!(r.keys.by_time.created_at, 900);
            assert_eq!(r.keys.by_tag.len(), 1);
        }
        _ => panic!("the event should be ready"),
    }
}

#[test]
fn pipeline_stages_come_in_order() {
    let e = event(5, 7, 900, 1);
    let p = Progress::start();
    assert_eq!(p.next_stage(true), Some(Stage::Parse));
    let p = p.advance(Reply::Parsed(Some(e)), true);
    assert_eq!(p.next_stage(true), Some(Stage::ContentId));
    let p = p.advance(Reply::ContentId(id(5)), true);
    assert_eq!(p.next_stage(true), Some(Stage::Signature));
    let p = p.advance(Reply::Signature(true), true);
    assert_eq!(p.next_stage(true), Some(Stage::Policy));
    assert_eq!(p.next_stage(false), Some(Stage::Encode));
    let p = p.advance(Reply::Policy(Decision::SkipChecks), true);
    assert_eq!(p.next_stage(true), Some(Stage::Encode));
    let p = p.advance(Reply::Encoded(vec![1, 2]), true);
    assert_eq!(p.next_stage(true), None);
    assert!(matches!(p, Progress::Ready(_)));
}

#[test]
fn pipeline_drops_a_malformed_payload() {
    let done = run(None, id(5), true, Decision::Accept, b"", true);
    assert!(matches!(done.outcome(), Some(Err(ErrorKind::ParseFailed))));
}

#[test]
fn pipeline_drops_a_wrong_id() {
    let done = run(Some(event(5, 7, 900, 1)), id(6), true, Decision::Accept, b"", true);
    assert!(matches!(done.outcome(), Some(Err(ErrorKind::InvalidId))));
}

#[test]
fn pipeline_drops_a_bad_signature() {
    let done = run(Some(event(5, 7, 900, 1)), id(5), false, Decision::Accept, b"", true);
    assert!(matches!(done.outcome(), Some(Err(ErrorKind::InvalidSignature))));
}

#[test]
fn pipeline_drops_what_the_filter_rejects() {
    let done = run(Some(event(5, 7, 900, 1)), id(5), true, Decision::Reject, b"", true);
    assert!(matches!(done.outcome(), Some(Err(ErrorKind::RejectedByFilter))));
}

#[test]
fn pipeline_without_a_filter_accepts_everything_valid() {
    let done = run(Some(event(5, 7, 900, 1)), id(5), true, Decision::Reject, b"b", false);
    assert!(matches!(done.outcome(), Some(Ok(_))));
}

#[test]
fn pipeline_ignores_a_reply_it_did_not_ask_for() {
    let p = Progress::start().advance(Reply::Signature(true), true);
    assert!(matches!(p, Progress::Fresh));
    let p = p.advance(Reply::Parsed(Some(event(5, 7, 900, 1))), true);
    let p = p.advance(Reply::Encoded(vec![1]), true);
    assert!(matches!(p, Progress::Parsed(_)));
    let p = p.advance(Reply::ContentId(id(5)), true).advance(Reply::Signature(true), true);
    let p = p.advance(Reply::Encoded(vec![1]), true);
    assert!(matches!(p, Progress::Verified(_)));
    let p = p.advance(Reply::Policy(Decision::Reject), true);
    let p = p.advance(Reply::Encoded(vec![1]), true);
    assert!(matches!(p, Progress::Dropped(ErrorKind::RejectedByFilter)));
    assert!(Progress::start().outcome().is_none());
}

#[test]
fn ingest_then_get_returns_the_same_bytes() {
    let mut store = Store::new(1000);
    let bytes: Vec<u8> = vec![9, 8, 7, 0, 255];
    assert_eq!(store.commit(vec![record(5, 7, 900, 1, &bytes)], Durable::Committed), Ok(()));
    assert_eq!(store.get(&id(5)), Some(&bytes));
    assert!(store.contains(&id(5)));
    assert_eq!(store.find(&id(5)), Some(0));
    assert_eq!(store.get(&id(6)), None);
    assert!(!store.contains(&id(6)));
    assert_eq!(store.used_bytes(), 5);
    assert_eq!(query(&store, &Filter { ids: vec![id(5)], ..any() }), vec![id(5)]);
}

#[test]
fn reingesting_changes_nothing() {
    let mut store = Store::new(1000);
    let batch = || vec![record(1, 7, 100, 1, b"aa"), record(2, 7, 50, 1, b"bbb")];
    assert_eq!(store.commit(batch(), Durable::Committed), Ok(()));
    let ids = query(&store, &any());
    let used = store.used_bytes();
    for _ in 0..3 {
        assert_eq!(store.commit(batch(), Durable::Committed), Ok(()));
        assert_eq!(store.len(), 2);
        assert_eq!(store.used_bytes(), used);
        assert_eq!(query(&store, &any()), ids);
    }
    assert_eq!(used, 5);
    assert_eq!(store.commit(vec![record(1, 7, 100, 1, b"other bytes")], Durable::Committed), Ok(()));
    assert_eq!(store.get(&id(1)), Some(&b"aa".to_vec()));
}

#[test]
fn duplicate_inside_a_batch_is_written_once() {
    let mut store = Store::new(1000);
    let batch = vec![record(1, 7, 100, 1, b"first"), record(1, 7, 100, 1, b"second"), record(2, 7, 100, 1, b"x")];
    assert_eq!(store.commit(batch, Durable::Committed), Ok(()));
    assert_eq!(store.len(), 2);
    assert_eq!(store.used_bytes(), 6);
    assert_eq!(store.get(&id(1)), Some(&b"first".to_vec()));
}

#[test]
fn rejected_event_leaves_the_engine_unchanged() {
    let mut ndb = Ndb::new(".", &NdbConfig::new(), Some(Vec::new())).unwrap();
    assert_eq!(ndb.hand_over(Ok(record(1, 7, 100, 1, b"aa"))), Ok(()));
    assert_eq!(ndb.flush(Durable::Committed), Ok(()));
    for reason in [ErrorKind::ParseFailed, ErrorKind::InvalidId, ErrorKind::InvalidSignature, ErrorKind::RejectedByFilter] {
        assert_eq!(ndb.hand_over(Err(reason)), Err(reason));
        assert_eq!(ndb.pending.len(), 0);
        assert_eq!(ndb.flush(Durable::Committed), Ok(()));
        assert_eq!(ndb.store.len(), 1);
        assert_eq!(ndb.store.used_bytes(), 2);
        assert_eq!(ndb.query(&any()), vec![id(1)]);
    }
}

#[test]
fn store_full_fails_the_whole_batch() {
    let mut store = Store::new(10);
    assert_eq!(store.commit(vec![record(1, 7, 100, 1, b"123456")], Durable::Committed), Ok(()));
    let batch = vec![record(2, 7, 200, 1, b"12"), record(3, 7, 300, 1, b"123")];
    assert_eq!(store.commit(batch, Durable::Committed), Err(ErrorKind::StoreFull));
    assert_eq!(store.len(), 1);
    assert_eq!(store.used_bytes(), 6);
    assert!(!store.contains(&id(2)));
    assert!(!store.contains(&id(3)));
    assert_eq!(store.get(&id(1)), Some(&b"123456".to_vec()));
    assert_eq!(query(&store, &any()), vec![id(1)]);
    assert_eq!(store.commit(vec![record(2, 7, 200, 1, b"1234")], Durable::Committed), Ok(()));
    assert_eq!(store.used_bytes(), 10);
    assert_eq!(store.commit(vec![record(2, 7, 200, 1, b"1234")], Durable::Committed), Ok(()));
    assert_eq!(store.commit(vec![record(4, 7, 200, 1, b"1")], Durable::Committed), Err(ErrorKind::StoreFull));
}

#[test]
fn durable_layer_failures_leave_the_store_unchanged() {
    let mut ndb = Ndb::new(".", &NdbConfig::new(), Some(Vec::new())).unwrap();
    assert_eq!(ndb.commit(vec![record(1, 7, 100, 1, b"a")], Durable::Fault), Err(ErrorKind::WriteFailed));
    assert_eq!(ndb.commit(vec![record(1, 7, 100, 1, b"a")], Durable::MapFull), Err(ErrorKind::StoreFull));
    assert_eq!(ndb.store.len(), 0);
    assert_eq!(ndb.get(&id(1)), None);
    assert_eq!(ndb.commit(vec![record(1, 7, 100, 1, b"a")], Durable::Committed), Ok(()));
    assert_eq!(ndb.get(&id(1)), Some(&b"a".to_vec()));
}

#[test]
fn query_orders_by_time_then_id() {
    let (a, b, c) = (id(0xA), id(0xB), id(0xC));
    let mut store = Store::new(1000);
    let batch = vec![record(0xA, 7, 100, 1, b"a"), record(0xB, 7, 50, 1, b"b"), record(0xC, 7, 100, 1, b"c")];
    assert_eq!(store.commit(batch, Durable::Committed), Ok(()));
    let f = Filter { since: Some(0), until: Some(1000), ..any() };
    assert_eq!(query(&store, &f), vec![a, c, b]);
    let mut other = Store::new(1000);
    let batch = vec![record(0xB, 7, 50, 1, b"b"), record(0xC, 7, 100, 1, b"c"), record(0xA, 7, 100, 1, b"a")];
    assert_eq!(other.commit(batch, Durable::Committed), Ok(()));
    assert_eq!(query(&other, &f), vec![a, c, b]);
    let keys: Vec<_> = other.records().iter().map(|r| r.keys.by_time).collect();
    assert!(key_precedes(&keys[0], &keys[1]));
    assert!(key_precedes(&keys[1], &keys[2]));
    assert!(!key_precedes(&keys[1], &keys[0]));
}

#[test]
fn query_applies_every_constraint() {
    let mut store = Store::new(1000);
    let mut batch = vec![
        record(1, 7, 100, 1, b"a"),
        record(2, 8, 200, 1, b"b"),
        record(3, 7, 300, 4, b"c"),
        record(4, 9, 400, 4, b"d"),
    ];
    batch.push(Record::seal(&tagged(5, 500, &[&["t", "rust"], &["e", "abc"]]), b"e".to_vec()));
    batch.push(Record::seal(&tagged(6, 600, &[&["t", "verus"]]), b"f".to_vec()));
    assert_eq!(store.commit(batch, Durable::Committed), Ok(()));
    assert_eq!(query(&store, &any()), vec![id(6), id(5), id(4), id(3), id(2), id(1)]);
    assert_eq!(query(&store, &Filter { kinds: vec![4], ..any() }), vec![id(4), id(3)]);
    assert_eq!(query(&store, &Filter { authors: vec![id(7)], ..any() }), vec![id(6), id(5), id(3), id(1)]);
    assert_eq!(query(&store, &Filter { authors: vec![id(7), id(9)], kinds: vec![4], ..any() }), vec![id(4), id(3)]);
    assert_eq!(query(&store, &Filter { ids: vec![id(2), id(4), id(99)], ..any() }), vec![id(4), id(2)]);
    assert_eq!(query(&store, &Filter { since: Some(200), until: Some(400), ..any() }), vec![id(4), id(3), id(2)]);
    assert_eq!(query(&store, &Filter { limit: Some(2), ..any() }), vec![id(6), id(5)]);
    assert_eq!(query(&store, &Filter { limit: Some(0), ..any() }), Vec::<Id>::new());
    assert_eq!(query(&store, &Filter { limit: Some(1), kinds: vec![1], until: Some(200), ..any() }), vec![id(2)]);
    let t = |name: &str, values: &[&str]| TagMatch {
        name: name.to_string(),
        values: values.iter().map(|v| v.to_string()).collect(),
    };
    assert_eq!(query(&store, &Filter { tags: vec![t("t", &["rust", "verus"])], ..any() }), vec![id(6), id(5)]);
    assert_eq!(query(&store, &Filter { tags: vec![t("t", &["rust"]), t("e", &["abc"])], ..any() }), vec![id(5)]);
    assert_eq!(query(&store, &Filter { tags: vec![t("t", &["rust"]), t("e", &["zzz"])], ..any() }), Vec::<Id>::new());
    assert_eq!(query(&store, &Filter { tags: vec![t("e", &["rust"])], ..any() }), Vec::<Id>::new());
    assert!(is_match(&record(1, 7, 100, 1, b"a"), &Filter { kinds: vec![1], ..any() }));
    assert!(!is_match(&record(1, 7, 100, 1, b"a"), &Filter { kinds: vec![2], ..any() }));
}

#[test]
fn many_events_give_as_many_records() {
    let mut ndb = Ndb::new(".", &NdbConfig::new(), Some(Vec::new())).unwrap();
    let n: u128 = 1200;
    let mut batch = Vec::new();
    for i in 0..n {
        let e = event(i, i % 5, (i % 17) as u64, 1);
        let done = run(Some(e), id(i), true, Decision::Accept, b"rec", false);
        batch.push(done.outcome().unwrap().unwrap());
        if batch.len() == 100 {
            assert_eq!(ndb.commit(std::mem::take(&mut batch), Durable::Committed), Ok(()));
        }
    }
    assert_eq!(ndb.store.len(), 1200);
    assert_eq!(ndb.store.used_bytes(), 3600);
    let all = ndb.query(&any());
    assert_eq!(all.len(), 1200);
    for i in 0..n {
        assert!(ndb.store.contains(&id(i)));
    }
    let mut sorted = all.clone();
    sorted.sort_by_key(|x| x.lo);
    sorted.dedup();
    assert_eq!(sorted.len(), 1200);
}

#[test]
fn filter_on_a_kind_keeps_that_kind_out() {
    let mut cfg = NdbConfig::new();
    cfg.set_ingest_filter(true);
    let mut ndb = Ndb::new(".", &cfg, Some(Vec::new())).unwrap();
    let banned: u32 = 4;
    for i in 0..20u128 {
        let kind = (i % 5) as u32;
        let e = event(i, 7, i as u64, kind);
        let mut p = Progress::start();
        p = ndb.advance(p, Reply::Parsed(Some(e)));
        p = ndb.advance(p, Reply::ContentId(id(i)));
        p = ndb.advance(p, Reply::Signature(true));
        let decision = if kind == banned { Decision::Reject } else { Decision::Accept };
        p = ndb.advance(p, Reply::Policy(decision));
        p = ndb.advance(p, Reply::Encoded(vec![1]));
        let res = ndb.hand_over(p.outcome().unwrap());
        if kind == banned {
            assert_eq!(res, Err(ErrorKind::RejectedByFilter));
        } else {
            assert_eq!(res, Ok(()));
        }
    }
    assert_eq!(ndb.pending.len(), 16);
    assert_eq!(ndb.flush(Durable::Committed), Ok(()));
    assert_eq!(ndb.query(&Filter { kinds: vec![banned], ..any() }), Vec::<Id>::new());
    assert_eq!(ndb.query(&any()).len(), 16);
    assert_eq!(ndb.query(&Filter { kinds: vec![0], ..any() }).len(), 4);
}

#[test]
fn pending_records_are_invisible_until_flushed() {
    let mut ndb = Ndb::new(".", &NdbConfig::new(), Some(Vec::new())).unwrap();
    assert_eq!(ndb.hand_over(Ok(record(1, 7, 100, 1, b"aa"))), Ok(()));
    assert_eq!(ndb.hand_over(Ok(record(2, 7, 200, 1, b"bb"))), Ok(()));
    assert_eq!(ndb.pending.len(), 2);
    assert_eq!(ndb.store.len(), 0);
    assert_eq!(ndb.query(&any()), Vec::<Id>::new());
    assert_eq!(ndb.flush(Durable::Committed), Ok(()));
    assert_eq!(ndb.pending.len(), 0);
    assert_eq!(ndb.query(&any()), vec![id(2), id(1)]);
}

#[test]
fn failed_flush_drops_the_batch_and_keeps_the_store() {
    let mut cfg = NdbConfig::new();
    cfg.set_mapsize(3);
    let mut ndb = Ndb::new(".", &cfg, Some(Vec::new())).unwrap();
    assert_eq!(ndb.hand_over(Ok(record(1, 7, 100, 1, b"aa"))), Ok(()));
    assert_eq!(ndb.flush(Durable::Committed), Ok(()));
    assert_eq!(ndb.hand_over(Ok(record(2, 7, 200, 1, b"b"))), Ok(()));
    assert_eq!(ndb.hand_over(Ok(record(3, 7, 300, 1, b"c"))), Ok(()));
    assert_eq!(ndb.flush(Durable::Committed), Err(ErrorKind::StoreFull));
    assert_eq!(ndb.pending.len(), 0);
    assert_eq!(ndb.query(&any()), vec![id(1)]);
    assert_eq!(ndb.get(&id(1)), Some(&b"aa".to_vec()));
}

#[test]
fn destroy_flushes_what_is_pending() {
    let mut ndb = Ndb::new(".", &NdbConfig::new(), Some(Vec::new())).unwrap();
    assert_eq!(ndb.hand_over(Ok(record(1, 7, 100, 1, b"aa"))), Ok(()));
    let closed = ndb.destroy(Durable::Committed);
    assert_eq!(closed.last, Ok(()));
    assert_eq!(closed.store.len(), 1);
    assert_eq!(closed.store.get(&id(1)), Some(&b"aa".to_vec()));
    assert!(closed.unsettled.is_empty());
    let mut ndb = Ndb::new(".", &NdbConfig::new(), Some(Vec::new())).unwrap();
    assert_eq!(ndb.hand_over(Ok(record(1, 7, 100, 1, b"aa"))), Ok(()));
    let closed = ndb.destroy(Durable::Fault);
    assert_eq!(closed.last, Err(ErrorKind::WriteFailed));
    assert_eq!(closed.store.len(), 0);
}

#[test]
fn destroy_hands_back_the_tasks_not_yet_taken() {
    let mut ndb = Ndb::new(".", &NdbConfig::new(), Some(Vec::new())).unwrap();
    assert!(ndb.submit(task(b"one")).is_ok());
    assert!(ndb.submit(task(b"two")).is_ok());
    assert!(ndb.submit(task(b"three")).is_ok());
    assert_eq!(ndb.next_task().unwrap().payload, b"one".to_vec());
    let closed = ndb.destroy(Durable::Committed);
    assert_eq!(closed.last, Ok(()));
    let left: Vec<Vec<u8>> = closed.unsettled.iter().map(|t| t.payload.clone()).collect();
    assert_eq!(left, vec![b"two".to_vec(), b"three".to_vec()]);
}

#[test]
fn reopening_reads_what_was_committed() {
    let cfg = NdbConfig::new();
    let mut ndb = Ndb::new(".", &cfg, Some(Vec::new())).unwrap();
    let mut batch = vec![record(1, 9, 100, 2, b"aa"), record(2, 8, 300, 1, b"bbb"), record(3, 9, 300, 1, b"")];
    batch.push(Record::seal(&tagged(4, 50, &[&["t", "x"], &["e", "y"]]), b"dddd".to_vec()));
    assert_eq!(ndb.commit(batch, Durable::Committed), Ok(()));
    assert_eq!(ndb.hand_over(Ok(record(5, 7, 10, 1, b"e"))), Ok(()));
    let before = ndb.query(&any());
    assert_eq!(before, vec![id(2), id(3), id(1), id(4)]);
    let closed = ndb.destroy(Durable::Committed);
    assert_eq!(closed.last, Ok(()));
    let again = Ndb::new(".", &cfg, Some(closed.store.into_records())).unwrap();
    assert_eq!(again.query(&any()), vec![id(2), id(3), id(1), id(4), id(5)]);
    assert_eq!(again.get(&id(2)), Some(&b"bbb".to_vec()));
    assert_eq!(again.get(&id(3)), Some(&Vec::new()));
    assert_eq!(again.query(&Filter { ids: vec![id(4)], ..any() }), vec![id(4)]);
    assert_eq!(again.query(&Filter { kinds: vec![2], ..any() }), vec![id(1)]);
    assert_eq!(again.store.used_bytes(), 10);
    assert_eq!(again.store.author_index().len(), 5);
    assert_eq!(again.store.tag_index().len(), 2);
}

#[test]
fn open_fails_without_a_durable_layer_or_over_the_bound() {
    let mut cfg = NdbConfig::new();
    assert!(matches!(Ndb::new(".", &cfg, None), Err(ErrorKind::OpenFailed)));
    cfg.set_mapsize(3);
    let held = vec![record(1, 9, 100, 2, b"aa"), record(2, 8, 300, 1, b"bb")];
    assert!(matches!(Ndb::new(".", &cfg, Some(held)), Err(ErrorKind::OpenFailed)));
    let held = vec![record(1, 9, 100, 2, b"aa"), record(1, 9, 100, 2, b"aa"), record(2, 8, 300, 1, b"b")];
    let ndb = Ndb::new(".", &cfg, Some(held)).unwrap();
    assert_eq!(ndb.store.len(), 2);
    assert_eq!(ndb.store.used_bytes(), 3);
}

#[test]
fn fits_tells_before_anything_is_written() {
    let mut store = Store::new(10);
    assert!(store.fits(&vec![record(1, 7, 100, 1, b"123456")]));
    assert_eq!(store.commit(vec![record(1, 7, 100, 1, b"123456")], Durable::Committed), Ok(()));
    assert!(store.fits(&vec![record(2, 7, 200, 1, b"1234")]));
    assert!(!store.fits(&vec![record(2, 7, 200, 1, b"12345")]));
    assert!(!store.fits(&vec![record(2, 7, 200, 1, b"12"), record(3, 7, 300, 1, b"123")]));
    assert!(store.fits(&vec![record(2, 7, 200, 1, b"12"), record(2, 7, 200, 1, b"12"), record(1, 7, 100, 1, b"123456")]));
    assert!(store.fits(&Vec::new()));
    assert_eq!(store.len(), 1);
    assert_eq!(store.used_bytes(), 6);
}

#[test]
fn lookup_by_id_gives_store_order_and_honours_the_limit() {
    let mut store = Store::new(1000);
    let batch = vec![
        record(1, 7, 100, 1, b"a"),
        record(2, 8, 400, 1, b"b"),
        record(3, 7, 300, 4, b"c"),
        record(4, 9, 300, 4, b"d"),
    ];
    assert_eq!(store.commit(batch, Durable::Committed), Ok(()));
    let ids = vec![id(1), id(4), id(3), id(99), id(4), id(2)];
    assert_eq!(query(&store, &Filter { ids: ids.clone(), ..any() }), vec![id(2), id(3), id(4), id(1)]);
    assert_eq!(query(&store, &Filter { ids: ids.clone(), limit: Some(2), ..any() }), vec![id(2), id(3)]);
    assert_eq!(query(&store, &Filter { ids: ids.clone(), kinds: vec![4], ..any() }), vec![id(3), id(4)]);
    assert_eq!(query(&store, &Filter { ids: ids.clone(), authors: vec![id(7)], until: Some(200), ..any() }), vec![id(1)]);
    assert_eq!(query(&store, &Filter { ids: vec![id(99)], ..any() }), Vec::<Id>::new());
    assert_eq!(choose_plan(&Filter { ids: ids, ..any() }), Plan::Lookup);
    assert_eq!(choose_plan(&Filter { kinds: vec![1], ..any() }), Plan::KindRange);
    assert_eq!(choose_plan(&Filter { kinds: vec![1], authors: vec![id(7)], ..any() }), Plan::AuthorRange);
    assert_eq!(choose_plan(&Filter { since: Some(1), ..any() }), Plan::Scan);
    let by_tag = Filter { tags: vec![TagMatch { name: "t".to_string(), values: vec!["x".to_string()] }], ..any() };
    assert_eq!(choose_plan(&by_tag), Plan::TagEntries);
}

#[test]
fn stored_record_is_never_replaced() {
    let mut store = Store::new(1000);
    assert_eq!(store.commit(vec![record(1, 7, 100, 1, b"first")], Durable::Committed), Ok(()));
    let batch = vec![record(2, 7, 500, 1, b"x"), record(1, 8, 900, 2, b"second"), record(0, 7, 100, 1, b"y")];
    assert_eq!(store.commit(batch, Durable::Committed), Ok(()));
    assert_eq!(store.len(), 3);
    assert_eq!(store.get(&id(1)), Some(&b"first".to_vec()));
    assert_eq!(query(&store, &any()), vec![id(2), id(0), id(1)]);
    assert_eq!(query(&store, &Filter { kinds: vec![2], ..any() }), Vec::<Id>::new());
}

#[test]
fn time_range_bounds_are_inclusive() {
    let mut store = Store::new(1000);
    let mut batch = Vec::new();
    for i in 1..=9u128 {
        batch.push(record(i, 7, (i as u64) * 10, 1, b"r"));
    }
    assert_eq!(store.commit(batch, Durable::Committed), Ok(()));
    assert_eq!(query(&store, &Filter { until: Some(30), ..any() }), vec![id(3), id(2), id(1)]);
    assert_eq!(query(&store, &Filter { until: Some(29), ..any() }), vec![id(2), id(1)]);
    assert_eq!(query(&store, &Filter { until: Some(5), ..any() }), Vec::<Id>::new());
    assert_eq!(query(&store, &Filter { until: Some(1000), limit: Some(1), ..any() }), vec![id(9)]);
    assert_eq!(query(&store, &Filter { since: Some(80), ..any() }), vec![id(9), id(8)]);
    assert_eq!(query(&store, &Filter { since: Some(81), ..any() }), vec![id(9)]);
    assert_eq!(query(&store, &Filter { since: Some(91), ..any() }), Vec::<Id>::new());
    assert_eq!(query(&store, &Filter { since: Some(40), until: Some(60), ..any() }), vec![id(6), id(5), id(4)]);
    assert_eq!(query(&store, &Filter { since: Some(60), until: Some(40), ..any() }), Vec::<Id>::new());
    assert_eq!(query(&store, &Filter { since: Some(40), until: Some(60), limit: Some(2), ..any() }), vec![id(6), id(5)]);
}

#[test]
fn every_plan_gives_the_same_answer_as_the_walk() {
    let mut store = Store::new(100000);
    let mut batch = Vec::new();
    for i in 0..60u128 {
        batch.push(record(i * 37 % 61, i % 4, (i % 7) as u64 * 10, (i % 3) as u32, b"r"));
    }
    assert_eq!(store.commit(batch, Durable::Committed), Ok(()));
    assert_eq!(store.len(), 60);
    assert_eq!(store.author_index().len(), 60);
    assert_eq!(store.kind_index().len(), 60);
    assert_eq!(store.tag_index().len(), 0);
    let walk = |f: &Filter| -> Vec<Id> {
        let mut out = Vec::new();
        for r in store.records().iter() {
            if f.limit.map_or(false, |l| out.len() >= l) {
                break;
            }
            if is_match(r, f) {
                out.push(r.id);
            }
        }
        out
    };
    let filters = vec![
        Filter { authors: vec![id(2)], ..any() },
        Filter { authors: vec![id(3), id(0), id(3), id(9)], ..any() },
        Filter { authors: vec![id(1)], kinds: vec![0, 2], ..any() },
        Filter { authors: vec![id(1), id(2)], since: Some(20), until: Some(40), limit: Some(5), ..any() },
        Filter { kinds: vec![1], ..any() },
        Filter { kinds: vec![2, 0], limit: Some(7), ..any() },
        Filter { kinds: vec![5], ..any() },
        Filter { kinds: vec![1], until: Some(30), ..any() },
        Filter { ids: vec![id(3), id(59), id(60), id(0)], authors: vec![id(0), id(1), id(2), id(3)], ..any() },
        Filter { limit: Some(10), ..any() },
    ];
    for f in filters.iter() {
        assert_eq!(query(&store, f), walk(f));
    }
    assert_eq!(query(&store, &Filter { authors: vec![id(2)], ..any() }).len(), 15);
    assert_eq!(query(&store, &Filter { kinds: vec![1], ..any() }).len(), 20);
}

#[test]
fn secondary_indices_hold_one_entry_per_record_in_index_order() {
    let mut store = Store::new(1000);
    let mut batch = vec![record(1, 9, 100, 2, b"a"), record(2, 8, 300, 1, b"b"), record(3, 9, 200, 1, b"c")];
    batch.push(Record::seal(&tagged(4, 50, &[&["t", "x"], &["e", "y"]]), b"d".to_vec()));
    assert_eq!(store.commit(batch, Durable::Committed), Ok(()));
    let authors: Vec<(u128, u64, u128)> =
        store.author_index().iter().map(|k| (k.pubkey.lo, k.created_at, k.id.lo)).collect();
    assert_eq!(authors, vec![(7, 50, 4), (8, 300, 2), (9, 200, 3), (9, 100, 1)]);
    let kinds: Vec<(u32, u64, u128)> = store.kind_index().iter().map(|k| (k.kind, k.created_at, k.id.lo)).collect();
    assert_eq!(kinds, vec![(1, 300, 2), (1, 200, 3), (1, 50, 4), (2, 100, 1)]);
    let tags: Vec<(String, String, u128)> =
        store.tag_index().iter().map(|k| (k.name.clone(), k.value.clone(), k.id.lo)).collect();
    assert_eq!(tags, vec![("e".to_string(), "y".to_string(), 4), ("t".to_string(), "x".to_string(), 4)]);
    assert_eq!(store.commit(vec![record(9, 1, 1, 1, b"0123456789".repeat(100).as_slice())], Durable::Committed), Err(ErrorKind::StoreFull));
    assert_eq!(store.author_index().len(), 4);
    assert_eq!(store.kind_index().len(), 4);
    assert_eq!(store.tag_index().len(), 2);
    assert_eq!(store.commit(vec![record(1, 9, 100, 2, b"a")], Durable::Committed), Ok(()));
    assert_eq!(store.author_index().len(), 4);
}

#[test]
fn index_orders_compare_field_by_field() {
    let t = |created_at: u64, n: u128| TimeKey { created_at, id: id(n) };
    assert!(key_precedes(&t(200, 9), &t(100, 1)));
    assert!(!key_precedes(&t(100, 1), &t(200, 9)));
    assert!(key_precedes(&t(100, 1), &t(100, 2)));
    assert!(!key_precedes(&t(100, 2), &t(100, 2)));
    let a = |author: u128, created_at: u64, n: u128| AuthorKey { pubkey: id(author), created_at, id: id(n) };
    assert!(author_key_before(&a(1, 10, 5), &a(2, 99, 1)));
    assert!(!author_key_before(&a(2, 99, 1), &a(1, 10, 5)));
    assert!(author_key_before(&a(1, 99, 5), &a(1, 10, 1)));
    assert!(author_key_before(&a(1, 10, 1), &a(1, 10, 5)));
    assert!(!author_key_before(&a(1, 10, 5), &a(1, 10, 5)));
    let k = |kind: u32, created_at: u64, n: u128| KindKey { kind, created_at, id: id(n) };
    assert!(kind_key_before(&k(1, 10, 5), &k(2, 99, 1)));
    assert!(!kind_key_before(&k(2, 99, 1), &k(1, 10, 5)));
    assert!(kind_key_before(&k(1, 99, 5), &k(1, 10, 1)));
    assert!(kind_key_before(&k(1, 10, 1), &k(1, 10, 5)));
    assert!(!kind_key_before(&k(1, 10, 5), &k(1, 10, 5)));
}

#[test]
fn outcomes_are_counted_by_reason() {
    let mut ndb = Ndb::new(".", &NdbConfig::new(), Some(Vec::new())).unwrap();
    assert_eq!(ndb.counters, Counters::new());
    assert_eq!(ndb.hand_over(Ok(record(1, 7, 100, 1, b"aa"))), Ok(()));
    assert_eq!(ndb.hand_over(Err(ErrorKind::ParseFailed)), Err(ErrorKind::ParseFailed));
    assert_eq!(ndb.hand_over(Err(ErrorKind::ParseFailed)), Err(ErrorKind::ParseFailed));
    assert_eq!(ndb.hand_over(Err(ErrorKind::InvalidId)), Err(ErrorKind::InvalidId));
    assert_eq!(ndb.hand_over(Err(ErrorKind::InvalidSignature)), Err(ErrorKind::InvalidSignature));
    assert_eq!(ndb.hand_over(Err(ErrorKind::RejectedByFilter)), Err(ErrorKind::RejectedByFilter));
    assert_eq!(ndb.hand_over(Err(ErrorKind::QueueFull)), Err(ErrorKind::QueueFull));
    assert_eq!(
        ndb.counters,
        Counters { parse_failed: 2, invalid_id: 1, invalid_signature: 1, rejected_by_filter: 1, accepted: 1 }
    );
    let mut c = Counters { parse_failed: u64::MAX, invalid_id: 0, invalid_signature: 0, rejected_by_filter: 0, accepted: 0 };
    c.note(Some(ErrorKind::ParseFailed));
    c.note(None);
    assert_eq!(c.parse_failed, u64::MAX);
    assert_eq!(c.accepted, 1);
    assert_eq!(ndb.flush(Durable::Committed), Ok(()));
    assert_eq!(ndb.counters.accepted, 1);
}

#[test]
fn delete_removes_the_record_and_its_index_entries() {
    let mut ndb = Ndb::new(".", &NdbConfig::new(), Some(Vec::new())).unwrap();
    let mut batch = vec![record(1, 9, 100, 2, b"aa"), record(2, 8, 300, 1, b"bbb"), record(3, 9, 200, 1, b"c")];
    batch.push(Record::seal(&tagged(4, 50, &[&["t", "x"], &["e", "y"]]), b"dddd".to_vec()));
    batch.push(Record::seal(&tagged(5, 60, &[&["t", "x"]]), b"e".to_vec()));
    assert_eq!(ndb.commit(batch, Durable::Committed), Ok(()));
    assert_eq!(ndb.store.used_bytes(), 11);
    assert_eq!(ndb.delete(&id(77), Durable::Committed), Ok(false));
    assert_eq!(ndb.delete(&id(77), Durable::Fault), Ok(false));
    assert_eq!(ndb.delete(&id(4), Durable::Fault), Err(ErrorKind::WriteFailed));
    assert_eq!(ndb.delete(&id(4), Durable::MapFull), Err(ErrorKind::StoreFull));
    assert_eq!(ndb.store.len(), 5);
    assert_eq!(ndb.store.tag_index().len(), 3);
    assert_eq!(ndb.delete(&id(4), Durable::Committed), Ok(true));
    assert_eq!(ndb.store.len(), 4);
    assert_eq!(ndb.store.used_bytes(), 7);
    assert_eq!(ndb.get(&id(4)), None);
    assert_eq!(ndb.store.author_index().len(), 4);
    assert_eq!(ndb.store.kind_index().len(), 4);
    assert_eq!(ndb.store.tag_index().len(), 1);
    assert_eq!(ndb.store.tag_index()[0].id, id(5));
    assert_eq!(ndb.query(&any()), vec![id(2), id(3), id(1), id(5)]);
    assert_eq!(ndb.query(&Filter { authors: vec![id(7)], ..any() }), vec![id(5)]);
    assert_eq!(ndb.query(&Filter { kinds: vec![1], ..any() }), vec![id(2), id(3), id(5)]);
    let t = TagMatch { name: "t".to_string(), values: vec!["x".to_string()] };
    assert_eq!(ndb.query(&Filter { tags: vec![t], ..any() }), vec![id(5)]);
    assert_eq!(ndb.query(&Filter { ids: vec![id(4), id(1)], ..any() }), vec![id(1)]);
    assert_eq!(ndb.delete(&id(4), Durable::Committed), Ok(false));
    assert_eq!(ndb.delete(&id(2), Durable::Committed), Ok(true));
    assert_eq!(ndb.delete(&id(1), Durable::Committed), Ok(true));
    assert_eq!(ndb.query(&any()), vec![id(3), id(5)]);
    let again = Record::seal(&tagged(4, 50, &[&["t", "x"]]), b"dddd".to_vec());
    assert_eq!(ndb.commit(vec![again], Durable::Committed), Ok(()));
    assert_eq!(ndb.query(&any()), vec![id(3), id(5), id(4)]);
    assert_eq!(ndb.store.used_bytes(), 6);
}

#[test]
fn sealed_records_are_consistent_and_tampered_ones_are_not() {
    let good = Record::seal(&tagged(4, 50, &[&["t", "x"], &["e", "y"]]), b"d".to_vec());
    assert!(good.is_consistent());
    let mut bad = good.clone();
    bad.id = id(5);
    assert!(!bad.is_consistent());
    let mut bad = good.clone();
    bad.keys.by_kind.created_at = 51;
    assert!(!bad.is_consistent());
    let mut bad = good.clone();
    bad.keys.by_author.id = id(9);
    assert!(!bad.is_consistent());
    let mut bad = good.clone();
    bad.keys.by_tag[1].created_at = 7;
    assert!(!bad.is_consistent());
    let mut bad = good.clone();
    bad.keys.by_tag[0].id = id(9);
    assert!(!bad.is_consistent());
}

#[test]
fn tag_index_is_ordered_and_says_nothing_twice() {
    let mut store = Store::new(1000);
    let a = Record::seal(&tagged(4, 50, &[&["t", "x"], &["t", "x"], &["e", "y"], &["t", "a"], &["t"]]), b"a".to_vec());
    let b = Record::seal(&tagged(5, 60, &[&["t", "x"], &["e", ""], &["", "z"]]), b"b".to_vec());
    let c = Record::seal(&tagged(3, 50, &[&["t", "x"], &["\u{e9}", "q"], &["ta", "a"]]), b"c".to_vec());
    assert_eq!(store.commit(vec![a, b, c], Durable::Committed), Ok(()));
    let tags: Vec<(String, String, u64, u128)> =
        store.tag_index().iter().map(|k| (k.name.clone(), k.value.clone(), k.created_at, k.id.lo)).collect();
    let want: Vec<(&str, &str, u64, u128)> = vec![
        ("", "z", 60, 5),
        ("e", "", 60, 5),
        ("e", "y", 50, 4),
        ("t", "a", 50, 4),
        ("t", "x", 60, 5),
        ("t", "x", 50, 3),
        ("t", "x", 50, 4),
        ("ta", "a", 50, 3),
        ("\u{e9}", "q", 50, 3),
    ];
    let want: Vec<(String, String, u64, u128)> =
        want.into_iter().map(|(n, v, t, i)| (n.to_string(), v.to_string(), t, i)).collect();
    assert_eq!(tags, want);
    let t = TagMatch { name: "t".to_string(), values: vec!["x".to_string()] };
    assert_eq!(query(&store, &Filter { tags: vec![t], ..any() }), vec![id(5), id(3), id(4)]);
    assert_eq!(store.delete(&id(4), Durable::Committed), Ok(true));
    assert_eq!(store.tag_index().len(), 6);
    assert!(store.tag_index().iter().all(|k| k.id != id(4)));
}

#[test]
fn ranks_follow_the_bytes_of_the_text() {
    let r = |a: &str, b: &str| text_rank(&a.to_string(), &b.to_string());
    assert_eq!(r("", ""), 1);
    assert_eq!(r("", "a"), 0);
    assert_eq!(r("a", ""), 2);
    assert_eq!(r("abc", "abd"), 0);
    assert_eq!(r("abd", "abc"), 2);
    assert_eq!(r("ab", "abc"), 0);
    assert_eq!(r("abc", "abc"), 1);
    assert_eq!(r("z", "\u{e9}"), 0);
    let k = |n: &str, v: &str, t: u64, i: u128| TagKey { name: n.to_string(), value: v.to_string(), created_at: t, id: id(i) };
    assert_eq!(tag_rank(&k("e", "z", 1, 9), &k("t", "a", 9, 1)), 0);
    assert_eq!(tag_rank(&k("t", "a", 1, 9), &k("t", "b", 9, 1)), 0);
    assert_eq!(tag_rank(&k("t", "a", 9, 9), &k("t", "a", 1, 1)), 0);
    assert_eq!(tag_rank(&k("t", "a", 1, 1), &k("t", "a", 9, 9)), 2);
    assert_eq!(tag_rank(&k("t", "a", 5, 1), &k("t", "a", 5, 2)), 0);
    assert_eq!(tag_rank(&k("t", "a", 5, 2), &k("t", "a", 5, 2)), 1);
}

#[test]
fn batches_split_any_way_give_the_same_store() {
    let all: Vec<Record> = (0..40u128).map(|i| record(i * 7 % 41, i % 3, (i % 5) as u64, 1, b"r")).collect();
    let mut one = Store::new(1000);
    assert_eq!(one.commit(all.clone(), Durable::Committed), Ok(()));
    for cut in [0usize, 1, 13, 39, 40] {
        let mut two = Store::new(1000);
        assert_eq!(two.commit(all[..cut].to_vec(), Durable::Committed), Ok(()));
        assert_eq!(two.commit(all[cut..].to_vec(), Durable::Committed), Ok(()));
        assert_eq!(two.len(), 40);
        assert_eq!(query(&two, &any()), query(&one, &any()));
    }
    let mut back = Store::new(1000);
    let mut reversed = all.clone();
    reversed.reverse();
    assert_eq!(back.commit(reversed, Durable::Committed), Ok(()));
    assert_eq!(query(&back, &any()), query(&one, &any()));
}
