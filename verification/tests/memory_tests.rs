use riscv_sim::memory::{Memory, MemoryError, Signedness, Width};

fn bytes_of(memory: &Memory) -> Vec<u32> {
    (0..memory.size())
        .map(|a| memory.load(a, Width::Byte, Signedness::Unsigned).unwrap())
        .collect()
}

#[test]
fn new_refuses_size_zero() {
    assert_eq!(Memory::new(0).err(), Some(MemoryError::InvalidSize));
}

#[test]
fn new_is_zero_filled() {
    let memory = Memory::new(16).unwrap();
    assert_eq!(memory.size(), 16);
    assert_eq!(bytes_of(&memory), vec![0u32; 16]);
    assert_eq!(memory.load(12, Width::Word, Signedness::Unsigned), Ok(0));
}

#[test]
fn size_one_memory_holds_one_byte() {
    let mut memory = Memory::new(1).unwrap();
    assert_eq!(memory.store(0, 0xab, Width::Byte), Ok(()));
    assert_eq!(memory.load(0, Width::Byte, Signedness::Unsigned), Ok(0xab));
    assert_eq!(memory.load(0, Width::Half, Signedness::Unsigned), Err(MemoryError::OutOfBounds));
    assert_eq!(memory.load(1, Width::Byte, Signedness::Unsigned), Err(MemoryError::OutOfBounds));
}

#[test]
fn width_sizes() {
    assert_eq!(Width::Byte.size(), 1);
    assert_eq!(Width::Half.size(), 2);
    assert_eq!(Width::Word.size(), 4);
}

#[test]
fn word_is_stored_least_significant_byte_first() {
    let mut memory = Memory::new(8).unwrap();
    memory.store(4, 0x1234_5678, Width::Word).unwrap();
    assert_eq!(bytes_of(&memory), vec![0, 0, 0, 0, 0x78, 0x56, 0x34, 0x12]);
    assert_eq!(memory.load(4, Width::Half, Signedness::Unsigned), Ok(0x5678));
    assert_eq!(memory.load(6, Width::Half, Signedness::Unsigned), Ok(0x1234));
    assert_eq!(memory.load(5, Width::Half, Signedness::Unsigned), Ok(0x3456));
    assert_eq!(memory.load(4, Width::Word, Signedness::Unsigned), Ok(0x1234_5678));
}

#[test]
fn half_is_stored_least_significant_byte_first() {
    let mut memory = Memory::new(4).unwrap();
    memory.store(1, 0xbeef, Width::Half).unwrap();
    assert_eq!(bytes_of(&memory), vec![0, 0xef, 0xbe, 0]);
}

#[test]
fn store_writes_only_the_low_bytes() {
    let mut memory = Memory::new(8).unwrap();
    memory.store(0, 0xffff_ffff, Width::Word).unwrap();
    memory.store(4, 0xffff_ffff, Width::Word).unwrap();
    memory.store(2, 0x1234_5678, Width::Byte).unwrap();
    assert_eq!(bytes_of(&memory), vec![0xff, 0xff, 0x78, 0xff, 0xff, 0xff, 0xff, 0xff]);
    memory.store(4, 0x1234_5678, Width::Half).unwrap();
    assert_eq!(bytes_of(&memory), vec![0xff, 0xff, 0x78, 0xff, 0x78, 0x56, 0xff, 0xff]);
}

#[test]
fn signed_loads_extend_the_sign() {
    let mut memory = Memory::new(8).unwrap();
    memory.store(0, 0x80, Width::Byte).unwrap();
    memory.store(2, 0x8000, Width::Half).unwrap();
    memory.store(4, 0x7f, Width::Byte).unwrap();
    memory.store(6, 0x7fff, Width::Half).unwrap();
    assert_eq!(memory.load(0, Width::Byte, Signedness::Signed), Ok(0xffff_ff80));
    assert_eq!(memory.load(0, Width::Byte, Signedness::Unsigned), Ok(0x80));
    assert_eq!(memory.load(2, Width::Half, Signedness::Signed), Ok(0xffff_8000));
    assert_eq!(memory.load(2, Width::Half, Signedness::Unsigned), Ok(0x8000));
    assert_eq!(memory.load(4, Width::Byte, Signedness::Signed), Ok(0x7f));
    assert_eq!(memory.load(6, Width::Half, Signedness::Signed), Ok(0x7fff));
}

#[test]
fn word_loads_ignore_signedness() {
    let mut memory = Memory::new(4).unwrap();
    memory.store(0, 0x8000_0001, Width::Word).unwrap();
    assert_eq!(memory.load(0, Width::Word, Signedness::Signed), Ok(0x8000_0001));
    assert_eq!(memory.load(0, Width::Word, Signedness::Unsigned), Ok(0x8000_0001));
}

#[test]
fn round_trip_of_representable_values() {
    let mut memory = Memory::new(32).unwrap();
    let cases: Vec<(u32, Width, Signedness)> = vec![
        (0, Width::Byte, Signedness::Unsigned),
        (0xff, Width::Byte, Signedness::Unsigned),
        (0x7f, Width::Byte, Signedness::Signed),
        (0xffff_ff80, Width::Byte, Signedness::Signed),
        (0xffff_ffff, Width::Byte, Signedness::Signed),
        (0xffff, Width::Half, Signedness::Unsigned),
        (0x7fff, Width::Half, Signedness::Signed),
        (0xffff_8000, Width::Half, Signedness::Signed),
        (0xffff_ffff, Width::Word, Signedness::Unsigned),
        (0x8000_0000, Width::Word, Signedness::Signed),
        (0xdead_beef, Width::Word, Signedness::Unsigned),
    ];
    for address in [0usize, 1, 7, 28] {
        for &(value, width, signedness) in &cases {
            assert_eq!(memory.store(address, value, width), Ok(()));
            assert_eq!(memory.load(address, width, signedness), Ok(value));
        }
    }
}

#[test]
fn value_that_does_not_fit_comes_back_truncated() {
    let mut memory = Memory::new(4).unwrap();
    memory.store(0, 0x1ff, Width::Byte).unwrap();
    assert_eq!(memory.load(0, Width::Byte, Signedness::Unsigned), Ok(0xff));
    assert_eq!(memory.load(0, Width::Byte, Signedness::Signed), Ok(0xffff_ffff));
    assert_eq!(memory.load(1, Width::Byte, Signedness::Unsigned), Ok(0));
}

#[test]
fn load_out_of_bounds_is_refused() {
    let memory = Memory::new(10).unwrap();
    assert_eq!(memory.load(10, Width::Byte, Signedness::Unsigned), Err(MemoryError::OutOfBounds));
    assert_eq!(memory.load(9, Width::Half, Signedness::Unsigned), Err(MemoryError::OutOfBounds));
    assert_eq!(memory.load(7, Width::Word, Signedness::Signed), Err(MemoryError::OutOfBounds));
    assert_eq!(memory.load(usize::MAX, Width::Word, Signedness::Signed), Err(MemoryError::OutOfBounds));
    assert_eq!(memory.load(usize::MAX - 1, Width::Half, Signedness::Signed), Err(MemoryError::OutOfBounds));
    assert_eq!(memory.load(9, Width::Byte, Signedness::Unsigned), Ok(0));
    assert_eq!(memory.load(8, Width::Half, Signedness::Unsigned), Ok(0));
    assert_eq!(memory.load(6, Width::Word, Signedness::Unsigned), Ok(0));
}

#[test]
fn store_out_of_bounds_is_refused_and_changes_nothing() {
    let mut memory = Memory::new(10).unwrap();
    for a in 0..10 {
        memory.store(a, 0x10 + a as u32, Width::Byte).unwrap();
    }
    let before = bytes_of(&memory);
    assert_eq!(memory.store(10, 0xff, Width::Byte), Err(MemoryError::OutOfBounds));
    assert_eq!(memory.store(9, 0xffff, Width::Half), Err(MemoryError::OutOfBounds));
    assert_eq!(memory.store(7, 0xffff_ffff, Width::Word), Err(MemoryError::OutOfBounds));
    assert_eq!(memory.store(8, 0xffff_ffff, Width::Word), Err(MemoryError::OutOfBounds));
    assert_eq!(memory.store(usize::MAX, 0xffff_ffff, Width::Word), Err(MemoryError::OutOfBounds));
    assert_eq!(bytes_of(&memory), before);
    assert_eq!(memory.size(), 10);
}

#[test]
fn store_keeps_the_other_bytes() {
    let mut memory = Memory::new(8).unwrap();
    for a in 0..8 {
        memory.store(a, 0xa0 + a as u32, Width::Byte).unwrap();
    }
    memory.store(3, 0x0102, Width::Half).unwrap();
    assert_eq!(bytes_of(&memory), vec![0xa0, 0xa1, 0xa2, 0x02, 0x01, 0xa5, 0xa6, 0xa7]);
}

#[test]
fn contains_tells_what_load_accepts() {
    let memory = Memory::new(6).unwrap();
    assert!(memory.contains(0, Width::Word));
    assert!(memory.contains(2, Width::Word));
    assert!(!memory.contains(3, Width::Word));
    assert!(memory.contains(4, Width::Half));
    assert!(!memory.contains(5, Width::Half));
    assert!(memory.contains(5, Width::Byte));
    assert!(!memory.contains(6, Width::Byte));
    assert!(!memory.contains(usize::MAX, Width::Byte));
}
