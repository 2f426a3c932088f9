use bpsim::decoder::{decode_event, BranchEvent, HEADER_BYTES, RECORD_BYTES};

#[test]
fn decode_sign_bit_and_low_bits() {
    // Sign bit set, low bits 0x1234: a taken branch at address 0x1234 with
    // no instructions retired since the previous event.
    let bytes: [u8; 8] = [0x34, 0x12, 0x00, 0x00, 0x00, 0x00, 0x00, 0x80];
    let ev = decode_event(&bytes);
    assert!(ev.taken);
    assert_eq!(ev.addr, 0x1234);
    assert_eq!(ev.delta, 0);
}

#[test]
fn decode_sign_extends_bit_47() {
    // Bit 47 of the record sets the whole upper half of the address.
    let bytes: [u8; 8] = [0x00, 0x00, 0x00, 0x00, 0x00, 0x80, 0x00, 0x00];
    let ev = decode_event(&bytes);
    assert!(!ev.taken);
    assert_eq!(ev.addr, 0xFFFF_8000_0000_0000);
    assert_eq!(ev.delta, 0);
}

#[test]
fn decode_delta_bits() {
    // Bits 48..63 carry the retired-instruction delta; bit 63 stays the
    // taken flag.
    let bytes: [u8; 8] = [0x00, 0x00, 0x00, 0x00, 0x00, 0x00, 0x34, 0x12];
    let ev = decode_event(&bytes);
    assert!(!ev.taken);
    assert_eq!(ev.addr, 0);
    assert_eq!(ev.delta, 0x1234);

    let bytes: [u8; 8] = [0x02, 0x00, 0x00, 0x00, 0x00, 0x00, 0xFF, 0xFF];
    let ev = decode_event(&bytes);
    assert!(ev.taken);
    assert_eq!(ev.delta, 0x7FFF);
    assert_eq!(ev.addr, 2);
}

#[test]
fn decode_equals_value() {
    let bytes: [u8; 8] = [0x34, 0x12, 0x00, 0x00, 0x00, 0x00, 0x00, 0x80];
    let ev = decode_event(&bytes);
    assert_eq!(
        ev,
        BranchEvent { addr: 0x1234, taken: true, delta: 0 }
    );
}

#[test]
fn trace_layout_constants() {
    assert_eq!(HEADER_BYTES, 1024);
    assert_eq!(RECORD_BYTES, 8);
}
