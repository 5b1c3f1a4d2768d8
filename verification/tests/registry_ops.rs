use kvhandles::codec::HostTerm;
use kvhandles::errors::KvError;
use kvhandles::options::OptEntry;
use kvhandles::registry::{DbHandle, Registry};

fn open_opts() -> Vec<OptEntry> {
    vec![
        OptEntry { name: b"create_if_missing".to_vec(), value: HostTerm::Bool(true) },
        OptEntry {
            name: b"create_missing_column_families".to_vec(),
            value: HostTerm::Bool(true),
        },
    ]
}

#[test]
fn put_then_get_returns_value_and_delete_makes_absent() {
    let mut reg = Registry::new();
    assert!(reg.init(&b"/data/main".to_vec()));
    let k = b"answer".to_vec();
    let v = vec![42u8];
    assert!(reg.put(&k, &v));
    assert_eq!(reg.get(&k), Some(v.clone()));
    assert!(reg.delete(&k));
    assert_eq!(reg.get(&k), None);
}

#[test]
fn get_of_never_written_key_is_absent_not_an_error() {
    let mut reg = Registry::new();
    assert!(reg.init(&b"/data/main".to_vec()));
    assert_eq!(reg.get(&b"nothing here".to_vec()), None);
}

#[test]
fn get_and_put_without_init_fail_softly() {
    let mut reg = Registry::new();
    assert_eq!(reg.get(&b"k".to_vec()), None);
    assert!(!reg.put(&b"k".to_vec(), &b"v".to_vec()));
    assert!(!reg.delete(&b"k".to_vec()));
}

#[test]
fn overwrite_keeps_last_value() {
    let mut reg = Registry::new();
    assert!(reg.init(&b"/data/main".to_vec()));
    let k = b"k".to_vec();
    assert!(reg.put(&k, &b"first".to_vec()));
    assert!(reg.put(&k, &b"second".to_vec()));
    assert_eq!(reg.get(&k), Some(b"second".to_vec()));
}

#[test]
fn open_with_column_families_and_cf_ops() {
    let mut reg = Registry::new();
    let cfs = vec![b"users".to_vec(), b"posts".to_vec()];
    let h = reg.open(&b"/data/cf".to_vec(), &open_opts(), &cfs).unwrap();
    let users = b"users".to_vec();
    let k = b"u1".to_vec();
    let v = b"alice".to_vec();
    reg.put_cf(h, &users, &k, &v).unwrap();
    assert_eq!(reg.get_cf(h, &users, &k).unwrap(), Some(v));
    // the other column family is untouched
    assert_eq!(reg.get_cf(h, &b"posts".to_vec(), &k).unwrap(), None);
    reg.delete_cf(h, &users, &k).unwrap();
    assert_eq!(reg.get_cf(h, &users, &k).unwrap(), None);
}

#[test]
fn missing_column_family_reports_not_found_never_a_crash() {
    let mut reg = Registry::new();
    let h = reg.open(&b"/data/cf".to_vec(), &open_opts(), &vec![b"users".to_vec()]).unwrap();
    let absent_cf = b"no_such_cf".to_vec();
    let k = b"k".to_vec();
    let v = b"v".to_vec();
    assert!(matches!(reg.get_cf(h, &absent_cf, &k), Err(KvError::NotFound)));
    assert!(matches!(reg.put_cf(h, &absent_cf, &k, &v), Err(KvError::NotFound)));
    assert!(matches!(reg.delete_cf(h, &absent_cf, &k), Err(KvError::NotFound)));
    assert!(matches!(reg.column_family(h, &absent_cf), Err(KvError::NotFound)));
    assert!(matches!(reg.iterator_cf(h, &absent_cf, &Vec::new()), Err(KvError::NotFound)));
}

#[test]
fn column_family_lookup_finds_declared_families() {
    let mut reg = Registry::new();
    let h = reg.open(&b"/data/cf".to_vec(), &open_opts(), &vec![b"users".to_vec()]).unwrap();
    let c = reg.column_family(h, &b"users".to_vec()).unwrap();
    assert_eq!(c.db, h);
    assert_eq!(c.name, b"users".to_vec());
    // the default keyspace exists in every database
    assert!(reg.column_family(h, &b"default".to_vec()).is_ok());
}

#[test]
fn listing_column_families_names_them_in_creation_order() {
    let mut reg = Registry::new();
    let cfs = vec![b"users".to_vec(), b"posts".to_vec()];
    let h = reg.open(&b"/data/cf".to_vec(), &open_opts(), &cfs).unwrap();
    let names = reg.list_column_families(h).unwrap();
    assert_eq!(names, vec![b"default".to_vec(), b"users".to_vec(), b"posts".to_vec()]);
    reg.close(h);
    assert!(matches!(reg.list_column_families(h), Err(KvError::InvalidHandle)));
}

#[test]
fn open_refuses_creation_when_configured_off() {
    let mut reg = Registry::new();
    let opts = vec![OptEntry { name: b"create_if_missing".to_vec(), value: HostTerm::Bool(false) }];
    assert!(matches!(
        reg.open(&b"/data/x".to_vec(), &opts, &Vec::new()),
        Err(KvError::Engine { .. })
    ));
    // creation on, but declared column families with their creation off
    let opts2 = vec![OptEntry { name: b"create_if_missing".to_vec(), value: HostTerm::Bool(true) }];
    assert!(matches!(
        reg.open(&b"/data/x".to_vec(), &opts2, &vec![b"users".to_vec()]),
        Err(KvError::Engine { .. })
    ));
}

#[test]
fn open_rejects_malformed_options() {
    let mut reg = Registry::new();
    let opts = vec![OptEntry { name: b"create_if_missing".to_vec(), value: HostTerm::Int(1) }];
    assert!(matches!(
        reg.open(&b"/data/x".to_vec(), &opts, &Vec::new()),
        Err(KvError::BadOptionShape)
    ));
}

#[test]
fn stale_handle_is_invalid() {
    let mut reg = Registry::new();
    let bogus = DbHandle { id: 17 };
    let k = b"k".to_vec();
    let v = b"v".to_vec();
    assert!(matches!(reg.get_cf(bogus, &b"default".to_vec(), &k), Err(KvError::InvalidHandle)));
    assert!(matches!(reg.put_cf(bogus, &b"default".to_vec(), &k, &v), Err(KvError::InvalidHandle)));
    assert!(matches!(reg.begin(bogus), Err(KvError::InvalidHandle)));
}

#[test]
fn closed_database_fails_fast() {
    let mut reg = Registry::new();
    let h = reg.open(&b"/data/x".to_vec(), &open_opts(), &Vec::new()).unwrap();
    let d = b"default".to_vec();
    reg.put_cf(h, &d, &b"k".to_vec(), &b"v".to_vec()).unwrap();
    reg.close(h);
    assert!(matches!(reg.get_cf(h, &d, &b"k".to_vec()), Err(KvError::InvalidHandle)));
    assert!(matches!(
        reg.put_cf(h, &d, &b"k".to_vec(), &b"v".to_vec()),
        Err(KvError::InvalidHandle)
    ));
    assert!(matches!(reg.begin(h), Err(KvError::InvalidHandle)));
    assert!(matches!(reg.iterator(h, &Vec::new()), Err(KvError::InvalidHandle)));
}

#[test]
fn two_databases_are_independent() {
    let mut reg = Registry::new();
    let h1 = reg.open(&b"/data/a".to_vec(), &open_opts(), &Vec::new()).unwrap();
    let h2 = reg.open(&b"/data/b".to_vec(), &open_opts(), &Vec::new()).unwrap();
    let d = b"default".to_vec();
    let k = b"shared".to_vec();
    reg.put_cf(h1, &d, &k, &b"one".to_vec()).unwrap();
    reg.put_cf(h2, &d, &k, &b"two".to_vec()).unwrap();
    assert_eq!(reg.get_cf(h1, &d, &k).unwrap(), Some(b"one".to_vec()));
    assert_eq!(reg.get_cf(h2, &d, &k).unwrap(), Some(b"two".to_vec()));
}
