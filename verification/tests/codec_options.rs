use kvhandles::codec::{binary_to_vec, vec_to_binary, HostTerm};
use kvhandles::dispatch;
use kvhandles::errors::KvError;
use kvhandles::options::{decode_db_config, parse_iterator_opts, Direction, IterMode, OptEntry};
use kvhandles::registry::TxnHandle;

#[test]
fn codec_round_trips_bytes_exactly() {
    let data = vec![0u8, 1, 2, 255, 254, 0, 7];
    let term = vec_to_binary(data.clone());
    let back = binary_to_vec(term).unwrap();
    assert_eq!(back, data);
}

#[test]
fn codec_rejects_non_binary() {
    let r = binary_to_vec(HostTerm::Int(7));
    assert!(matches!(r, Err(KvError::NotBinary)));
    let r2 = binary_to_vec(HostTerm::Name(b"start".to_vec()));
    assert!(matches!(r2, Err(KvError::NotBinary)));
}

#[test]
fn empty_codec_value_keeps_length_zero() {
    let term = vec_to_binary(Vec::new());
    let back = binary_to_vec(term).unwrap();
    assert_eq!(back.len(), 0);
}

#[test]
fn decode_config_defaults() {
    let opts: Vec<OptEntry> = Vec::new();
    let cfg = decode_db_config(&opts).unwrap();
    assert!(!cfg.create_if_missing);
    assert!(!cfg.create_missing_column_families);
    assert_eq!(cfg.target_file_size, 67108864);
}

#[test]
fn decode_config_applies_recognized_names() {
    let opts = vec![
        OptEntry { name: b"create_if_missing".to_vec(), value: HostTerm::Bool(true) },
        OptEntry { name: b"target_file_size".to_vec(), value: HostTerm::Int(4096) },
    ];
    let cfg = decode_db_config(&opts).unwrap();
    assert!(cfg.create_if_missing);
    assert!(!cfg.create_missing_column_families);
    assert_eq!(cfg.target_file_size, 4096);
}

#[test]
fn decode_config_ignores_unrecognized_names() {
    let opts = vec![
        OptEntry { name: b"compression".to_vec(), value: HostTerm::Name(b"zstd".to_vec()) },
        OptEntry { name: b"whatever".to_vec(), value: HostTerm::Int(3) },
    ];
    let cfg = decode_db_config(&opts).unwrap();
    assert!(!cfg.create_if_missing);
    assert!(!cfg.create_missing_column_families);
    assert_eq!(cfg.target_file_size, 67108864);
}

#[test]
fn decode_config_rejects_wrong_shape() {
    let opts = vec![OptEntry {
        name: b"create_if_missing".to_vec(),
        value: HostTerm::Int(1),
    }];
    assert!(matches!(decode_db_config(&opts), Err(KvError::BadOptionShape)));
}

#[test]
fn iterator_mode_start_and_end() {
    let start = vec![OptEntry {
        name: b"iterator_mode".to_vec(),
        value: HostTerm::Name(b"start".to_vec()),
    }];
    assert!(matches!(parse_iterator_opts(&start), IterMode::Start));
    let end = vec![OptEntry {
        name: b"iterator_mode".to_vec(),
        value: HostTerm::Name(b"end".to_vec()),
    }];
    assert!(matches!(parse_iterator_opts(&end), IterMode::End));
}

#[test]
fn iterator_mode_from_with_directions() {
    let fwd = vec![OptEntry {
        name: b"iterator_mode".to_vec(),
        value: HostTerm::Tuple3(
            Box::new(HostTerm::Name(b"from".to_vec())),
            Box::new(HostTerm::Bin(b"k2".to_vec())),
            Box::new(HostTerm::Name(b"forward".to_vec())),
        ),
    }];
    match parse_iterator_opts(&fwd) {
        IterMode::From { key, dir } => {
            assert_eq!(key, b"k2".to_vec());
            assert!(matches!(dir, Direction::Forward));
        }
        _ => panic!("expected a seek mode"),
    }
    let rev = vec![OptEntry {
        name: b"iterator_mode".to_vec(),
        value: HostTerm::Tuple3(
            Box::new(HostTerm::Name(b"from".to_vec())),
            Box::new(HostTerm::Bin(b"k2".to_vec())),
            Box::new(HostTerm::Name(b"reverse".to_vec())),
        ),
    }];
    match parse_iterator_opts(&rev) {
        IterMode::From { key, dir } => {
            assert_eq!(key, b"k2".to_vec());
            assert!(matches!(dir, Direction::Reverse));
        }
        _ => panic!("expected a seek mode"),
    }
}

#[test]
fn iterator_mode_unknown_direction_defaults_forward() {
    let odd = vec![OptEntry {
        name: b"iterator_mode".to_vec(),
        value: HostTerm::Tuple3(
            Box::new(HostTerm::Name(b"from".to_vec())),
            Box::new(HostTerm::Bin(b"q".to_vec())),
            Box::new(HostTerm::Name(b"sideways".to_vec())),
        ),
    }];
    match parse_iterator_opts(&odd) {
        IterMode::From { dir, .. } => assert!(matches!(dir, Direction::Forward)),
        _ => panic!("expected a seek mode"),
    }
}

#[test]
fn iterator_mode_malformed_from_falls_back_to_start() {
    // the seek key is not a byte buffer: the entry is skipped
    let bad = vec![OptEntry {
        name: b"iterator_mode".to_vec(),
        value: HostTerm::Tuple3(
            Box::new(HostTerm::Name(b"from".to_vec())),
            Box::new(HostTerm::Int(9)),
            Box::new(HostTerm::Name(b"reverse".to_vec())),
        ),
    }];
    assert!(matches!(parse_iterator_opts(&bad), IterMode::Start));
    // the tuple does not start with the "from" tag
    let wrong_tag = vec![OptEntry {
        name: b"iterator_mode".to_vec(),
        value: HostTerm::Tuple3(
            Box::new(HostTerm::Name(b"since".to_vec())),
            Box::new(HostTerm::Bin(b"q".to_vec())),
            Box::new(HostTerm::Name(b"forward".to_vec())),
        ),
    }];
    assert!(matches!(parse_iterator_opts(&wrong_tag), IterMode::Start));
}

#[test]
fn iterator_mode_absent_defaults_to_start() {
    let opts = vec![OptEntry { name: b"whatever".to_vec(), value: HostTerm::Bool(true) }];
    assert!(matches!(parse_iterator_opts(&opts), IterMode::Start));
}

#[test]
fn declared_surface_reports_not_implemented() {
    let t = TxnHandle { id: 0 };
    let k = b"k".to_vec();
    let v = b"v".to_vec();
    let o = HostTerm::Bool(false);
    let cf = b"cf".to_vec();
    assert!(matches!(dispatch::transaction_get_3(t, &k, &o), Err(KvError::NotImplemented)));
    assert!(matches!(dispatch::transaction_get_4(t, &k, &o, &cf), Err(KvError::NotImplemented)));
    assert!(matches!(dispatch::get_3(&k, &o), Err(KvError::NotImplemented)));
    assert!(matches!(dispatch::get_4(&k, &o, &cf), Err(KvError::NotImplemented)));
    assert!(matches!(dispatch::transaction_put_3(t, &k, &v), Err(KvError::NotImplemented)));
    assert!(matches!(dispatch::transaction_put_4(t, &k, &v, &o), Err(KvError::NotImplemented)));
    assert!(matches!(dispatch::put_4(&k, &v, &o), Err(KvError::NotImplemented)));
    assert!(matches!(dispatch::put_5(&k, &v, &o, &cf), Err(KvError::NotImplemented)));
    assert!(matches!(dispatch::transaction_delete_2(t, &k), Err(KvError::NotImplemented)));
    assert!(matches!(dispatch::transaction_delete_3(t, &k, &o), Err(KvError::NotImplemented)));
    assert!(matches!(dispatch::delete_3(&k, &o), Err(KvError::NotImplemented)));
    assert!(matches!(dispatch::delete_4(&k, &o, &cf), Err(KvError::NotImplemented)));
    assert!(matches!(dispatch::transaction_iterator_2(t), Err(KvError::NotImplemented)));
    assert!(matches!(dispatch::transaction_iterator_3(t, &o), Err(KvError::NotImplemented)));
    assert!(matches!(dispatch::flush_3(&o, true), Err(KvError::NotImplemented)));
    assert!(matches!(dispatch::compact_range_5(&o, &o, &o, &cf, 0), Err(KvError::NotImplemented)));
}
