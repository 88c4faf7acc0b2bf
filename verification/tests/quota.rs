use torrent_vlc::torrent::quota::{QuotaError, QuotaStorageFactory};

#[test]
fn the_limit_is_hard() {
    let (quota, mut state) = QuotaStorageFactory::new(32).create(16, 64, vec![(0, 10), (10, 54)]);
    assert_eq!(quota.reserve(&mut state, 0, 0, 10), Ok(vec![0]));
    assert_eq!(state.reserved_bytes, 16);
    assert_eq!(quota.reserve(&mut state, 1, 0, 10), Ok(vec![0, 1]));
    assert_eq!(state.reserved_bytes, 32);
    assert_eq!(
        quota.reserve(&mut state, 1, 10, 20),
        Err(QuotaError::LimitExceeded { limit: 32 })
    );
    assert_eq!(state.reserved_bytes, 32);
    assert_eq!(quota.reserve(&mut state, 1, 2, 6), Ok(vec![0, 1]));
    assert_eq!(state.reserved_bytes, 32);
}

#[test]
fn a_short_last_piece_counts_less() {
    let (quota, mut state) = QuotaStorageFactory::new(20).create(16, 18, vec![(0, 18)]);
    assert_eq!(quota.piece_len(0), 16);
    assert_eq!(quota.piece_len(1), 2);
    assert_eq!(quota.piece_len(2), 0);
    assert_eq!(quota.reserve(&mut state, 0, 0, 18), Ok(vec![0, 1]));
    assert_eq!(state.reserved_bytes, 18);
}

#[test]
fn every_refused_write_is_named() {
    let (quota, mut state) = QuotaStorageFactory::new(100).create(
        16,
        64,
        vec![(0, 10), (u64::MAX, 30), (u64::MAX - 5, 30)],
    );
    assert_eq!(quota.reserve(&mut state, 9, 0, 0), Ok(Vec::new()));
    assert_eq!(quota.reserve(&mut state, 9, 0, 1), Err(QuotaError::UnknownFile));
    assert_eq!(quota.reserve(&mut state, 0, u64::MAX, 1), Err(QuotaError::OffsetOverflow));
    assert_eq!(quota.reserve(&mut state, 0, 9, 2), Err(QuotaError::BeyondFile));
    assert_eq!(quota.reserve(&mut state, 1, 1, 2), Err(QuotaError::GlobalOffsetOverflow));
    assert_eq!(quota.reserve(&mut state, 2, 1, 20), Err(QuotaError::GlobalRangeOverflow));
    let (wide, mut other) = QuotaStorageFactory::new(100).create(1, 64, vec![(1 << 33, 30)]);
    assert_eq!(wide.reserve(&mut other, 0, 0, 1), Err(QuotaError::TooManyPieces));
    assert_eq!(state.reserved_bytes, 0);
}

#[test]
fn writes_have_their_place_in_the_torrent() {
    let (quota, _) = QuotaStorageFactory::new(100).create(16, 64, vec![(0, 10), (10, 54)]);
    assert_eq!(quota.span(1, 3, 5), Ok((13, 18)));
    assert_eq!(quota.span(2, 0, 1), Err(QuotaError::UnknownFile));
    assert_eq!(quota.span(0, 6, 5), Err(QuotaError::BeyondFile));
}
