use mvcc_lock::lock::{
    FLAG_DELETE, FLAG_LOCK, FLAG_PESSIMISTIC, FLAG_PUT, FOR_UPDATE_TS_PREFIX,
    MIN_COMMIT_TS_PREFIX, SHORT_VALUE_PREFIX, TXN_SIZE_PREFIX,
};
use mvcc_lock::{CodecError, Error, Key, Lock, LockInfo, LockType, Mutation, Op, TsSet};

#[test]
fn test_lock_type() {
    let (key, value) = (b"key", b"value");
    let mut tests = vec![
        (
            Mutation::Put((Key::from_raw(key), value.to_vec())),
            LockType::Put,
            FLAG_PUT,
        ),
        (
            Mutation::Delete(Key::from_raw(key)),
            LockType::Delete,
            FLAG_DELETE,
        ),
        (
            Mutation::Lock(Key::from_raw(key)),
            LockType::Lock,
            FLAG_LOCK,
        ),
    ];
    for (i, (mutation, lock_type, flag)) in tests.drain(..).enumerate() {
        let lt = LockType::from_mutation(&mutation);
        assert_eq!(
            lt, lock_type,
            "#{}, expect from_mutation({:?}) returns {:?}, but got {:?}",
            i, mutation, lock_type, lt
        );
        let f = lock_type.to_u8();
        assert_eq!(
            f, flag,
            "#{}, expect {:?}.to_u8() returns {:?}, but got {:?}",
            i, lock_type, flag, f
        );
        let lt = LockType::from_u8(flag).unwrap();
        assert_eq!(
            lt, lock_type,
            "#{}, expect from_u8({:?}) returns {:?}, but got {:?})",
            i, flag, lock_type, lt
        );
    }
}

#[test]
fn test_lock() {
    // Test `Lock::to_bytes()` and `Lock::parse()` works as a pair.
    let mut locks = vec![
        Lock::new(LockType::Put, b"pk".to_vec(), 1, 10, None, 0, 0, 0),
        Lock::new(
            LockType::Delete,
            b"pk".to_vec(),
            1,
            10,
            Some(b"short_value".to_vec()),
            0,
            0,
            0,
        ),
        Lock::new(LockType::Put, b"pk".to_vec(), 1, 10, None, 10, 0, 0),
        Lock::new(
            LockType::Delete,
            b"pk".to_vec(),
            1,
            10,
            Some(b"short_value".to_vec()),
            10,
            0,
            0,
        ),
        Lock::new(LockType::Put, b"pk".to_vec(), 1, 10, None, 0, 16, 0),
        Lock::new(
            LockType::Delete,
            b"pk".to_vec(),
            1,
            10,
            Some(b"short_value".to_vec()),
            0,
            16,
            0,
        ),
        Lock::new(LockType::Put, b"pk".to_vec(), 1, 10, None, 10, 16, 0),
        Lock::new(
            LockType::Delete,
            b"pk".to_vec(),
            1,
            10,
            Some(b"short_value".to_vec()),
            10,
            0,
            0,
        ),
        Lock::new(
            LockType::Put,
            b"pkpkpk".to_vec(),
            111,
            222,
            None,
            333,
            444,
            555,
        ),
    ];
    for (i, lock) in locks.drain(..).enumerate() {
        let v = lock.to_bytes();
        let l = Lock::parse(&v[..]).unwrap_or_else(|e| panic!("#{} parse() err: {:?}", i, e));
        assert_eq!(l, lock, "#{} expect {:?}, but got {:?}", i, lock, l);
    }

    // Test `Lock::parse()` handles incorrect input.
    assert!(Lock::parse(b"").is_err());

    let lock = Lock::new(
        LockType::Lock,
        b"pk".to_vec(),
        1,
        10,
        Some(b"short_value".to_vec()),
        0,
        0,
        0,
    );
    let v = lock.to_bytes();
    assert!(Lock::parse(&v[..4]).is_err());
}

#[test]
fn test_check_ts_conflict() {
    let key = Key::from_raw(b"foo");
    let mut lock = Lock::new(LockType::Put, vec![], 100, 3, None, 0, 1, 0);

    let empty = Default::default();

    // Ignore the lock if read ts is less than the lock version
    lock.clone().check_ts_conflict(&key, 50, &empty).unwrap();

    // Returns the lock if read ts >= lock version
    lock.clone()
        .check_ts_conflict(&key, 110, &empty)
        .unwrap_err();

    // Ignore locks that occurs in the `bypass_locks` set.
    lock.clone()
        .check_ts_conflict(&key, 110, &TsSet::new(vec![109]))
        .unwrap_err();
    lock.clone()
        .check_ts_conflict(&key, 110, &TsSet::new(vec![110]))
        .unwrap_err();
    lock.clone()
        .check_ts_conflict(&key, 110, &TsSet::new(vec![100]))
        .unwrap();
    lock.clone()
        .check_ts_conflict(&key, 110, &TsSet::new(vec![99, 101, 102, 100, 80]))
        .unwrap();

    // Ignore the lock if it is Lock or Pessimistic.
    lock.lock_type = LockType::Lock;
    lock.clone().check_ts_conflict(&key, 110, &empty).unwrap();
    lock.lock_type = LockType::Pessimistic;
    lock.clone().check_ts_conflict(&key, 110, &empty).unwrap();

    // Ignore the primary lock when reading the latest committed version by setting u64::MAX as ts
    lock.lock_type = LockType::Put;
    lock.primary = b"foo".to_vec();
    lock.clone()
        .check_ts_conflict(&key, std::u64::MAX, &empty)
        .unwrap();

    // Should not ignore the secondary lock even though reading the latest version
    lock.primary = b"bar".to_vec();
    lock.clone()
        .check_ts_conflict(&key, std::u64::MAX, &empty)
        .unwrap_err();
}

#[test]
fn tags_are_the_four_letters() {
    assert_eq!(FLAG_PUT, b'P');
    assert_eq!(FLAG_DELETE, b'D');
    assert_eq!(FLAG_LOCK, b'L');
    assert_eq!(FLAG_PESSIMISTIC, b'S');
    assert_eq!(SHORT_VALUE_PREFIX, b'v');
    assert_eq!(FOR_UPDATE_TS_PREFIX, b'f');
    assert_eq!(TXN_SIZE_PREFIX, b't');
    assert_eq!(MIN_COMMIT_TS_PREFIX, b'c');
}

#[test]
fn tag_mapping_is_a_bijection() {
    let kinds = [
        LockType::Put,
        LockType::Delete,
        LockType::Lock,
        LockType::Pessimistic,
    ];
    for kind in kinds.iter() {
        assert_eq!(LockType::from_u8(kind.to_u8()), Some(*kind));
    }
    assert_eq!(LockType::Pessimistic.to_u8(), b'S');
    for b in 0..=255u8 {
        let named = LockType::from_u8(b);
        if b == b'P' || b == b'D' || b == b'L' || b == b'S' {
            assert_eq!(named.unwrap().to_u8(), b);
        } else {
            assert_eq!(named, None);
        }
    }
}

#[test]
fn insert_takes_a_put_lock() {
    let m = Mutation::Insert((Key::from_raw(b"k"), b"v".to_vec()));
    assert_eq!(LockType::from_mutation(&m), LockType::Put);
}

#[test]
fn record_of_a_plain_lock() {
    let lock = Lock::new(LockType::Put, b"pk".to_vec(), 1, 10, None, 0, 0, 0);
    assert_eq!(lock.to_bytes(), vec![b'P', 4, b'p', b'k', 1, 10]);
}

#[test]
fn record_with_every_field() {
    let lock = Lock::new(
        LockType::Pessimistic,
        b"pkpkpk".to_vec(),
        300,
        128,
        Some(b"sv".to_vec()),
        0x0102030405060708,
        1,
        u64::MAX,
    );
    let mut expected = vec![b'S', 12];
    expected.extend_from_slice(b"pkpkpk");
    expected.extend_from_slice(&[0xac, 0x02, 0x80, 0x01]);
    expected.extend_from_slice(&[b'v', 2, b's', b'v']);
    expected.extend_from_slice(&[b'f', 1, 2, 3, 4, 5, 6, 7, 8]);
    expected.extend_from_slice(&[b't', 0, 0, 0, 0, 0, 0, 0, 1]);
    expected.extend_from_slice(&[b'c', 255, 255, 255, 255, 255, 255, 255, 255]);
    let bytes = lock.to_bytes();
    assert_eq!(bytes, expected);
    assert_eq!(Lock::parse(&bytes), Ok(lock));
}

#[test]
fn empty_short_value_is_kept() {
    let lock = Lock::new(LockType::Put, b"a".to_vec(), 5, 0, Some(vec![]), 0, 0, 0);
    let bytes = lock.to_bytes();
    assert_eq!(bytes, vec![b'P', 2, b'a', 5, 0, b'v', 0]);
    assert_eq!(Lock::parse(&bytes), Ok(lock));
}

#[test]
fn round_trip_over_many_locks() {
    let kinds = [
        LockType::Put,
        LockType::Delete,
        LockType::Lock,
        LockType::Pessimistic,
    ];
    let primaries: Vec<Vec<u8>> = vec![
        vec![],
        b"pk".to_vec(),
        (0..=255u8).collect(),
        vec![0xff; 1000],
    ];
    let numbers = [0u64, 1, 127, 128, 16383, 16384, 1 << 56, u64::MAX];
    let values: Vec<Option<Vec<u8>>> = vec![None, Some(vec![]), Some(b"v".to_vec()), Some(vec![7; 255])];
    let mut n = 0usize;
    for kind in kinds.iter() {
        for primary in primaries.iter() {
            for value in values.iter() {
                for (i, a) in numbers.iter().enumerate() {
                    let b = numbers[(i + 3) % numbers.len()];
                    let c = numbers[(i + 5) % numbers.len()];
                    let lock = Lock::new(
                        *kind,
                        primary.clone(),
                        *a,
                        b,
                        value.clone(),
                        c,
                        *a,
                        b,
                    );
                    assert_eq!(Lock::parse(&lock.to_bytes()), Ok(lock));
                    n += 1;
                }
            }
        }
    }
    assert_eq!(n, 4 * 4 * 4 * 8);
}

#[test]
fn record_without_ttl_reads_as_zero() {
    let lock = Lock::parse(&[b'D', 4, b'p', b'k', 7]).unwrap();
    assert_eq!(
        lock,
        Lock::new(LockType::Delete, b"pk".to_vec(), 7, 0, None, 0, 0, 0)
    );
    // Written again, the record holds the time to live, and then stays as it is.
    let again = lock.to_bytes();
    assert_eq!(again, vec![b'D', 4, b'p', b'k', 7, 0]);
    assert_eq!(Lock::parse(&again).unwrap().to_bytes(), again);
}

#[test]
fn optional_fields_in_any_order() {
    let mut bytes = vec![b'P', 4, b'p', b'k', 1, 10];
    bytes.extend_from_slice(&[b'c', 0, 0, 0, 0, 0, 0, 0, 9]);
    bytes.extend_from_slice(&[b't', 0, 0, 0, 0, 0, 0, 1, 0]);
    bytes.extend_from_slice(&[b'v', 3, 1, 2, 3]);
    bytes.extend_from_slice(&[b'f', 0, 0, 0, 0, 0, 0, 0, 5]);
    assert_eq!(
        Lock::parse(&bytes),
        Ok(Lock::new(
            LockType::Put,
            b"pk".to_vec(),
            1,
            10,
            Some(vec![1, 2, 3]),
            5,
            256,
            9
        ))
    );
}

#[test]
fn empty_input_is_malformed() {
    assert_eq!(Lock::parse(b""), Err(Error::BadFormatLock));
}

#[test]
fn unknown_kind_is_malformed() {
    assert_eq!(Lock::parse(&[b'X', 4, b'p', b'k', 1, 10]), Err(Error::BadFormatLock));
    assert_eq!(Lock::parse(&[0]), Err(Error::BadFormatLock));
}

#[test]
fn every_cut_inside_the_head_fails() {
    let lock = Lock::new(
        LockType::Lock,
        b"primary-key".to_vec(),
        u64::MAX,
        10,
        Some(b"short_value".to_vec()),
        1,
        2,
        3,
    );
    let bytes = lock.to_bytes();
    // kind, length, eleven bytes of key, ten bytes of timestamp
    let head = 1 + 1 + 11 + 10;
    assert_eq!(Lock::parse(&bytes[..0]), Err(Error::BadFormatLock));
    for n in 1..head {
        assert_eq!(
            Lock::parse(&bytes[..n]),
            Err(Error::Codec(CodecError::UnexpectedEof)),
            "cut at {}",
            n
        );
    }
    // Cut right after the head, the record is one of the oldest form.
    assert_eq!(
        Lock::parse(&bytes[..head]),
        Ok(Lock::new(LockType::Lock, b"primary-key".to_vec(), u64::MAX, 0, None, 0, 0, 0))
    );
}

#[test]
fn cut_inside_ttl_fails() {
    let lock = Lock::new(LockType::Put, b"pk".to_vec(), 1, 300, None, 0, 0, 0);
    let bytes = lock.to_bytes();
    assert_eq!(bytes, vec![b'P', 4, b'p', b'k', 1, 0xac, 0x02]);
    assert_eq!(
        Lock::parse(&bytes[..6]),
        Err(Error::Codec(CodecError::UnexpectedEof))
    );
}

#[test]
fn overlong_number_fails() {
    let mut bytes = vec![b'P', 0];
    bytes.extend_from_slice(&[0xff; 9]);
    bytes.push(2);
    assert_eq!(
        Lock::parse(&bytes),
        Err(Error::Codec(CodecError::VarintOverflow))
    );
}

#[test]
fn negative_key_length_fails() {
    assert_eq!(
        Lock::parse(&[b'P', 1, 1, 10]),
        Err(Error::Codec(CodecError::UnexpectedEof))
    );
}

#[test]
fn unknown_field_is_corrupt() {
    assert_eq!(
        Lock::parse(&[b'P', 4, b'p', b'k', 1, 10, b'x']),
        Err(Error::CorruptLockExtension)
    );
}

#[test]
fn short_value_longer_than_the_record_is_corrupt() {
    assert_eq!(
        Lock::parse(&[b'P', 4, b'p', b'k', 1, 10, b'v', 3, 1, 2]),
        Err(Error::CorruptLockExtension)
    );
}

#[test]
fn cut_optional_field_fails() {
    assert_eq!(
        Lock::parse(&[b'P', 4, b'p', b'k', 1, 10, b'v']),
        Err(Error::Codec(CodecError::UnexpectedEof))
    );
    assert_eq!(
        Lock::parse(&[b'P', 4, b'p', b'k', 1, 10, b'f', 0, 0, 0, 0, 0, 0, 1]),
        Err(Error::Codec(CodecError::UnexpectedEof))
    );
    assert_eq!(
        Lock::parse(&[b'P', 4, b'p', b'k', 1, 10, b't']),
        Err(Error::Codec(CodecError::UnexpectedEof))
    );
}

#[test]
fn short_value_of_256_bytes_does_not_survive() {
    let lock = Lock::new(LockType::Put, b"pk".to_vec(), 1, 10, Some(vec![0; 256]), 0, 0, 0);
    let bytes = lock.to_bytes();
    assert_eq!(&bytes[..8], &[b'P', 4, b'p', b'k', 1, 10, b'v', 0]);
    assert_eq!(bytes.len(), 8 + 256);
    assert_eq!(Lock::parse(&bytes), Err(Error::CorruptLockExtension));
}

#[test]
fn lock_info_of_each_kind() {
    let cases = [
        (LockType::Put, Op::Put),
        (LockType::Delete, Op::Del),
        (LockType::Lock, Op::Lock),
        (LockType::Pessimistic, Op::PessimisticLock),
    ];
    for (kind, op) in cases.iter() {
        let lock = Lock::new(*kind, b"pk".to_vec(), 11, 22, Some(b"v".to_vec()), 33, 44, 55);
        assert_eq!(
            lock.into_lock_info(b"raw".to_vec()),
            LockInfo {
                primary_lock: b"pk".to_vec(),
                lock_version: 11,
                key: b"raw".to_vec(),
                lock_ttl: 22,
                txn_size: 44,
                lock_type: *op,
            }
        );
    }
}

#[test]
fn conflict_reports_the_lock() {
    let key = Key::from_raw(b"foo");
    let lock = Lock::new(LockType::Put, vec![], 100, 3, None, 0, 1, 0);
    assert_eq!(
        lock.check_ts_conflict(&key, 110, &TsSet::default()),
        Err(Error::KeyIsLocked(LockInfo {
            primary_lock: vec![],
            lock_version: 100,
            key: b"foo".to_vec(),
            lock_ttl: 3,
            txn_size: 1,
            lock_type: Op::Put,
        }))
    );
}

#[test]
fn conflict_at_the_lock_timestamp() {
    let key = Key::from_raw(b"foo");
    let lock = Lock::new(LockType::Delete, b"bar".to_vec(), 100, 3, None, 0, 1, 0);
    assert!(lock.clone().check_ts_conflict(&key, 99, &TsSet::default()).is_ok());
    assert!(lock.clone().check_ts_conflict(&key, 100, &TsSet::default()).is_err());
    // The largest timestamp but one is an ordinary read.
    let own = Lock::new(LockType::Put, b"foo".to_vec(), 100, 3, None, 0, 1, 0);
    assert!(own.clone().check_ts_conflict(&key, u64::MAX - 1, &TsSet::default()).is_err());
    assert!(own.check_ts_conflict(&key, u64::MAX, &TsSet::default()).is_ok());
}

#[test]
fn key_error_comes_only_when_the_key_is_needed() {
    let bad = Key::from_encoded(vec![1, 2, 3]);
    let lock = Lock::new(LockType::Put, b"pk".to_vec(), 100, 3, None, 0, 1, 0);
    assert_eq!(
        lock.clone().check_ts_conflict(&bad, 110, &TsSet::default()),
        Err(Error::Codec(CodecError::UnexpectedEof))
    );
    assert_eq!(lock.clone().check_ts_conflict(&bad, 50, &TsSet::default()), Ok(()));
    assert_eq!(
        lock.clone().check_ts_conflict(&bad, 110, &TsSet::new(vec![100])),
        Ok(())
    );
    let marker = Lock::new(LockType::Lock, b"pk".to_vec(), 100, 3, None, 0, 1, 0);
    assert_eq!(marker.check_ts_conflict(&bad, 110, &TsSet::default()), Ok(()));
}
