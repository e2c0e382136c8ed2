use recomp64::rdram::RdramError;
use recomp64::rdram::BORROWED_CAPACITY;
use recomp64::rdram::RDRAM;

#[test]
fn from_bytes_reproduces_source() {
    let source: Vec<u8> = vec![10, 20, 30, 40, 50, 60, 70, 80];
    let buffer = RDRAM::from(source.clone());
    assert_eq!(buffer.capacity(), 8);
    assert!(buffer.owns_raw_data());
    for i in 1..=8i64 {
        let physical: usize = ((i - 1) as usize) ^ 3;
        assert_eq!(buffer.index(i), Ok(source[physical]));
    }
    assert_eq!(buffer.index(1), Ok(40));
    assert_eq!(buffer.index(4), Ok(10));
    assert_eq!(buffer.index(5), Ok(80));
    assert_eq!(buffer.index(8), Ok(50));
}

#[test]
fn index_out_of_range() {
    let buffer = RDRAM::from(vec![1, 2, 3, 4]);
    for bad in [0i64, -1, -77, 5, 100, i64::MIN, i64::MAX] {
        assert_eq!(
            buffer.index(bad),
            Err(RdramError::OutOfRange { capacity: 4, index: bad })
        );
    }
}

#[test]
fn swizzle_can_escape_an_unaligned_tail() {
    // With a capacity that is not a multiple of 4, the swizzled offset of an
    // in-range index can fall outside the storage.
    let buffer = RDRAM::from(vec![1, 2, 3, 4, 5, 6]);
    assert_eq!(buffer.index(4), Ok(1)); // (4-1) ^ 3 == 0
    assert_eq!(buffer.index(1), Ok(4)); // (1-1) ^ 3 == 3
    assert_eq!(
        buffer.index(5), // (5-1) ^ 3 == 7, outside capacity 6
        Err(RdramError::OutOfRange { capacity: 6, index: 5 })
    );
    assert_eq!(
        buffer.index(6), // (6-1) ^ 3 == 6, outside capacity 6
        Err(RdramError::OutOfRange { capacity: 6, index: 6 })
    );
}

#[test]
fn clone_is_an_owned_deep_copy() {
    let buffer = RDRAM::from(vec![9, 8, 7, 6, 5, 4, 3, 2]);
    let copy = buffer.clone();
    assert!(copy.owns_raw_data());
    assert_eq!(copy.capacity(), buffer.capacity());
    for i in 1..=8i64 {
        assert_eq!(copy.index(i), buffer.index(i));
    }
    assert_eq!(copy.len(), buffer.len());
}

#[test]
fn borrowed_buffer_wraps_region() {
    let mut region: Vec<u8> = vec![0; BORROWED_CAPACITY];
    region[3] = 42;
    let buffer = RDRAM::new(&region);
    assert_eq!(buffer.capacity(), BORROWED_CAPACITY);
    assert!(!buffer.owns_raw_data());
    assert_eq!(buffer.index(1), Ok(42)); // (1-1) ^ 3 == 3
    assert_eq!(buffer.index(4), Ok(0));
    assert_eq!(
        buffer.index(BORROWED_CAPACITY as i64 + 1),
        Err(RdramError::OutOfRange {
            capacity: BORROWED_CAPACITY,
            index: BORROWED_CAPACITY as i64 + 1,
        })
    );
}

#[test]
fn clone_of_borrowed_buffer_owns_its_storage() {
    let mut region: Vec<u8> = vec![0; BORROWED_CAPACITY];
    region[0] = 17;
    let buffer = RDRAM::new(&region);
    let copy = buffer.clone();
    assert!(!buffer.owns_raw_data());
    assert!(copy.owns_raw_data());
    assert_eq!(copy.capacity(), BORROWED_CAPACITY);
    assert_eq!(copy.index(4), Ok(17)); // (4-1) ^ 3 == 0
}

#[test]
fn logical_len_of_all_zero_buffer_is_zero() {
    assert_eq!(RDRAM::from(vec![0; 16]).len(), 0);
    assert_eq!(RDRAM::from(vec![0; 5]).len(), 0);
    assert_eq!(RDRAM::from(Vec::new()).len(), 0);
}

#[test]
fn logical_len_with_final_byte_nonzero_is_capacity() {
    assert_eq!(RDRAM::from(vec![0, 0, 0, 0, 0, 0, 0, 9]).len(), 8);
    assert_eq!(RDRAM::from(vec![0, 0, 0, 0, 0, 9]).len(), 6);
    assert_eq!(RDRAM::from(vec![5]).len(), 1);
}

#[test]
fn logical_len_recovers_swizzled_word() {
    // The only non-zero byte sits at raw offset 6, inside the final 4-byte
    // group: the trim stops at length 7 and the group correction re-extends
    // the length across the word, to the full capacity 8.
    assert_eq!(RDRAM::from(vec![0, 0, 0, 0, 0, 0, 1, 0]).len(), 8);
}

#[test]
fn logical_len_counts_group_corrections() {
    // Trimming [0, 0, 1, 0] stops at length 3; offset 2 == 3 ^ 1 holds the
    // non-zero byte, so the word is counted in full.
    assert_eq!(RDRAM::from(vec![0, 0, 1, 0]).len(), 4);
    // Trimming [1, 0, 0, 0, 0, 0, 0, 0] stops at length 1; offset 0 == 1 ^ 1
    // is non-zero, so the length grows by exactly one.
    assert_eq!(RDRAM::from(vec![1, 0, 0, 0, 0, 0, 0, 0]).len(), 2);
}
