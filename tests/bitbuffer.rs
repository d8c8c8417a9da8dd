use ascn_rs::bitbuffer::{BitBuffer, BitBufferError};

#[test]
fn simple_read_write() {
    let mut bit_buffer = BitBuffer::new();

    let test_val: u8 = 0b110;

    bit_buffer.add(test_val, 3);
    assert_eq!(bit_buffer.read(3), Ok(test_val))
}

#[test]
fn multiple_read_write() {
    let mut bit_buffer = BitBuffer::new();

    bit_buffer.add(0b110, 3);
    bit_buffer.add(0b1101, 4);
    bit_buffer.add(0b11, 2);
    bit_buffer.add(0b11001, 5);

    assert_eq!(bit_buffer.read(3), Ok(0b110));
    assert_eq!(bit_buffer.read(4), Ok(0b1101));
    assert_eq!(bit_buffer.read(2), Ok(0b11));
    assert_eq!(bit_buffer.read(5), Ok(0b11001));
}

#[test]
fn convert_to_bytes() {
    let mut bit_buffer = BitBuffer::new();

    bit_buffer.add(0b110, 3);
    bit_buffer.add(0b1101, 4);
    bit_buffer.add(0b11, 2);
    bit_buffer.add(0b11001, 5);

    let mut bit_buffer = BitBuffer::from_bytes(&bit_buffer.to_bytes());

    assert_eq!(bit_buffer.read(3), Ok(0b110));
    assert_eq!(bit_buffer.read(4), Ok(0b1101));
    assert_eq!(bit_buffer.read(2), Ok(0b11));
    assert_eq!(bit_buffer.read(5), Ok(0b11001));
}

#[test]
fn exam_test() {
    // The bit count is not a multiple of eight: the leading byte is partial.
    let mut bit_buffer = BitBuffer::new();

    bit_buffer.add(0b110, 3);
    bit_buffer.add(0b1101, 4);
    bit_buffer.add(0b11, 2);

    let mut bit_buffer = BitBuffer::from_bytes(&bit_buffer.to_bytes());

    assert_eq!(bit_buffer.read(3), Ok(0b110));
    assert_eq!(bit_buffer.read(4), Ok(0b1101));
    assert_eq!(bit_buffer.read(2), Ok(0b11));

    // Exactly eight bits: one full byte.

    let mut bit_buffer = BitBuffer::new();

    bit_buffer.add(0b110, 3);
    bit_buffer.add(0b1101, 4);
    bit_buffer.add(0b1, 1);

    let mut bit_buffer = BitBuffer::from_bytes(&bit_buffer.to_bytes());

    assert_eq!(bit_buffer.read(3), Ok(0b110));
    assert_eq!(bit_buffer.read(4), Ok(0b1101));
    assert_eq!(bit_buffer.read(1), Ok(0b1));
}

#[test]
fn to_bytes_layout() {
    let mut bit_buffer = BitBuffer::new();
    // Bits, oldest first: 0 1 1 | 1 0 1 1 | 1 1 -> value 0b1_1110_1110 read big-endian.
    bit_buffer.add(0b110, 3);
    bit_buffer.add(0b1101, 4);
    bit_buffer.add(0b11, 2);
    assert_eq!(bit_buffer.to_bytes(), vec![0b0000_0001, 0b1110_1110]);

    let empty = BitBuffer::new();
    assert_eq!(empty.to_bytes(), Vec::<u8>::new());
}

#[test]
fn from_bytes_bit_order() {
    let mut bit_buffer = BitBuffer::from_bytes(&[0b1000_0000, 0b0000_0101]);
    // The last byte comes first, least significant bit first.
    assert_eq!(bit_buffer.read(3), Ok(0b101));
    assert_eq!(bit_buffer.read(5), Ok(0));
    assert_eq!(bit_buffer.read(8), Ok(0b1000_0000));
}

#[test]
fn read_underflow() {
    let mut bit_buffer = BitBuffer::new();
    bit_buffer.add(0b10, 2);
    assert_eq!(bit_buffer.read(3), Err(BitBufferError::Underflow));
    assert_eq!(bit_buffer.read(2), Ok(0b10));
    assert_eq!(bit_buffer.read_bit(), Err(BitBufferError::Underflow));
}

#[test]
fn add_bit_and_read_bit() {
    let mut bit_buffer = BitBuffer::new();
    bit_buffer.add_bit(true);
    bit_buffer.add_bit(false);
    bit_buffer.add(0b1, 1);
    assert_eq!(bit_buffer.read_bit(), Ok(true));
    assert_eq!(bit_buffer.read_bit(), Ok(false));
    assert_eq!(bit_buffer.read(1), Ok(1));
}

#[test]
fn add_keeps_only_low_bits() {
    let mut bit_buffer = BitBuffer::new();
    bit_buffer.add(0b1111_0110, 3);
    assert_eq!(bit_buffer.read(3), Ok(0b110));
    assert_eq!(bit_buffer.read(1), Err(BitBufferError::Underflow));
}

#[test]
fn law_values_survive_bytes() {
    let entries: [(u8, u8); 6] = [(0, 0), (5, 3), (255, 8), (1, 1), (2, 2), (100, 7)];
    let mut bit_buffer = BitBuffer::new();
    for (v, w) in entries {
        bit_buffer.add(v, w);
    }
    let mut bit_buffer = BitBuffer::from_bytes(&bit_buffer.to_bytes());
    for (v, w) in entries {
        assert_eq!(bit_buffer.read(w), Ok(v));
    }
}

#[test]
fn to_bytes_layout_several_groups() {
    let mut bit_buffer = BitBuffer::new();
    bit_buffer.add(0xAB, 8);
    bit_buffer.add(0xCD, 8);
    bit_buffer.add(0b1010, 4);
    // Leftover bits lead; the full groups follow newest first.
    let bytes = bit_buffer.to_bytes();
    assert_eq!(bytes, vec![0b1010, 0xCD, 0xAB]);
    let mut back = BitBuffer::from_bytes(&bytes);
    assert_eq!(back.read(8), Ok(0xAB));
    assert_eq!(back.read(8), Ok(0xCD));
    assert_eq!(back.read(4), Ok(0b1010));
}
