use modbusaudio::clip_player::ClipPlayer;
use modbusaudio::modbus_server::{
    be16_to_u16, get_coils, get_inputs, handle_request, set_coils, u16_to_be16, unpack_coil_bits,
    Engine, Ops,
};
use modbusaudio::ops::ServerOps;

#[test]
fn be16_round_trip() {
    let mut buf = [0u8; 2];
    u16_to_be16(0xabcd, &mut buf);
    assert_eq!(buf, [0xab, 0xcd]);
    assert_eq!(be16_to_u16(&buf), 0xabcd);
    u16_to_be16(7, &mut buf);
    assert_eq!(buf, [0, 7]);
    assert_eq!(be16_to_u16(&buf), 7);
}

#[test]
fn unpack_low_bit_first() {
    // One byte, quantity 8: bit 0 is the first value, bit 7 the last.
    let bits = unpack_coil_bits(&[0b1011_0001], 8);
    assert_eq!(
        bits,
        vec![true, false, false, false, true, true, false, true]
    );
}

#[test]
fn unpack_truncates_to_quantity() {
    let bits = unpack_coil_bits(&[0xff, 0x00], 11);
    assert_eq!(
        bits,
        vec![true, true, true, true, true, true, true, true, false, false, false]
    );
    // A quantity beyond the bitmap yields only what the bitmap holds.
    let bits = unpack_coil_bits(&[0x01], 100);
    assert_eq!(
        bits,
        vec![true, false, false, false, false, false, false, false]
    );
    let bits = unpack_coil_bits(&[], 5);
    assert_eq!(bits, Vec::<bool>::new());
}

#[test]
fn write_single_coil_accepted_value() {
    let mut ops = ServerOps::new();
    // function 5, address 3, value on.
    let resp = handle_request(&[5, 0, 3, 0xff, 0], &mut ops);
    assert_eq!(resp, vec![5, 0xff, 0]);
    assert_eq!(ops.take_plays(), vec![3]);
    // Any nonzero value byte counts as on; off is echoed as 0x00.
    let resp = handle_request(&[5, 0, 3, 0, 0], &mut ops);
    assert_eq!(resp, vec![5, 0x00, 0]);
    assert_eq!(ops.take_plays(), vec![3]);
}

#[test]
fn write_single_coil_wrong_length() {
    let mut ops = ServerOps::new();
    let resp = handle_request(&[5, 0, 3, 0xff], &mut ops);
    assert_eq!(resp, vec![5 | 0x80, 3]);
    let resp = handle_request(&[5, 0, 3, 0xff, 0, 0], &mut ops);
    assert_eq!(resp, vec![5 | 0x80, 3]);
    assert_eq!(ops.take_plays(), Vec::<u16>::new());
}

#[test]
fn write_multiple_coils_echoes_header() {
    let mut ops = ServerOps::new();
    // function 15, address 10, quantity 8, one bitmap byte 0b0000_0011.
    let resp = handle_request(&[15, 0, 10, 0, 8, 1, 0b0000_0011], &mut ops);
    assert_eq!(resp, vec![15, 0, 10, 0, 8]);
    // Bits 0 and 1 turned coils 10 and 11 on; the six off-writes matched
    // the default state and so asked for nothing.
    assert_eq!(ops.take_plays(), vec![10, 11]);
}

#[test]
fn write_multiple_coils_wrong_byte_count() {
    let mut ops = ServerOps::new();
    // byteCount says 2 but only one bitmap byte follows.
    let resp = handle_request(&[15, 0, 10, 0, 8, 2, 0xff], &mut ops);
    assert_eq!(resp, vec![15 | 0x80, 3]);
    // Too short to even carry a byte count.
    let resp = handle_request(&[15, 0, 10, 0, 8], &mut ops);
    assert_eq!(resp, vec![15 | 0x80, 3]);
    assert_eq!(ops.take_plays(), Vec::<u16>::new());
}

#[test]
fn unknown_function_code() {
    let mut ops = ServerOps::new();
    let resp = handle_request(&[99, 1, 2, 3], &mut ops);
    assert_eq!(resp, vec![0xe3, 1]);
    let resp = handle_request(&[1], &mut ops);
    assert_eq!(resp, vec![0x81, 1]);
}

#[test]
fn reads_are_not_modelled() {
    let mut ops = ServerOps::new();
    assert_eq!(ops.get_input(1), Err(2));
    assert_eq!(ops.get_coil(1), Err(2));
    assert_eq!(get_inputs(&ops, 0, 4), Err(2));
    assert_eq!(get_coils(&ops, 0, &[true, false]), Err(2));
    assert_eq!(get_inputs(&ops, 0, 0), Ok(()));
    assert_eq!(set_coils(&mut ops, 5, &[true, true]), Ok(()));
    assert_eq!(ops.take_plays(), vec![5, 6]);
}

#[test]
fn set_coil_edge_triggered() {
    // Only transitions ask for playback.
    let mut ops = ServerOps::new();
    assert_eq!(ops.set_coil(9, true), Ok(true));
    assert_eq!(ops.set_coil(9, true), Ok(true));
    assert_eq!(ops.set_coil(9, true), Ok(true));
    // The first write triggered; the repeats changed nothing, so the coil
    // observably stayed on.
    assert_eq!(ops.take_plays(), vec![9]);
    assert_eq!(ops.set_coil(9, false), Ok(false));
    assert_eq!(ops.set_coil(9, true), Ok(true));
    // Off and on again: two more transitions, two more requests.
    assert_eq!(ops.take_plays(), vec![9, 9]);
}

#[test]
fn set_coils_wraps_around_address_space() {
    let mut ops = ServerOps::new();
    assert_eq!(set_coils(&mut ops, 0xffff, &[true, true]), Ok(()));
    assert_eq!(ops.take_plays(), vec![0xffff, 0]);
}

#[test]
fn end_to_end_write_coil_frame() {
    // Write coil 3 on, with clip slot 3 registered.
    let mut ops = ServerOps::new();
    let mut player = ClipPlayer::new();
    player.add_clip(3, vec![100, -100, 200, -200]);
    let mut engine = Engine::new();
    engine.feed(&[0x00, 0x01, 0x00, 0x00, 0x00, 0x06, 0x01, 0x05, 0x00, 0x03, 0xff, 0x00]);
    let resp = engine.step(&mut ops).expect("a complete frame must be answered");
    assert_eq!(
        resp,
        vec![0x00, 0x01, 0x00, 0x00, 0x00, 0x04, 0x01, 0x05, 0xff, 0x00]
    );
    let plays = ops.take_plays();
    assert_eq!(plays, vec![3]);
    let mut starts = 0;
    for slot in plays {
        if player.play_clip(slot) {
            starts += 1;
        }
    }
    assert_eq!(starts, 1);
}

#[test]
fn end_to_end_same_frame_twice() {
    // The same frame twice gets the same response twice but asks for
    // playback only the first time.
    let frame = [0x00u8, 0x01, 0x00, 0x00, 0x00, 0x06, 0x01, 0x05, 0x00, 0x03, 0xff, 0x00];
    let expected = vec![0x00u8, 0x01, 0x00, 0x00, 0x00, 0x04, 0x01, 0x05, 0xff, 0x00];
    let mut ops = ServerOps::new();
    let mut engine = Engine::new();
    engine.feed(&frame);
    let first = engine.step(&mut ops).unwrap();
    assert_eq!(first, expected);
    assert_eq!(ops.take_plays(), vec![3]);
    engine.feed(&frame);
    let second = engine.step(&mut ops).unwrap();
    assert_eq!(second, expected);
    assert_eq!(ops.take_plays(), Vec::<u16>::new());
}

#[test]
fn end_to_end_unknown_function_frame() {
    // Function code 99 is answered with 0x63 | 0x80 = 0xe3 and
    // exception code 1.
    let mut ops = ServerOps::new();
    let mut engine = Engine::new();
    engine.feed(&[0x00, 0x01, 0x00, 0x00, 0x00, 0x06, 0x01, 99, 0x00, 0x03, 0xff, 0x00]);
    let resp = engine.step(&mut ops).unwrap();
    assert_eq!(
        resp,
        vec![0x00, 0x01, 0x00, 0x00, 0x00, 0x03, 0x01, 0xe3, 0x01]
    );
    assert_eq!(ops.take_plays(), Vec::<u16>::new());
}

#[test]
fn chunked_delivery_equals_whole() {
    // Any chunking of a request decodes like the whole frame.
    let frame = [0x00u8, 0x01, 0x00, 0x00, 0x00, 0x06, 0x01, 0x05, 0x00, 0x07, 0xff, 0x00];
    let mut whole_ops = ServerOps::new();
    let mut whole_engine = Engine::new();
    whole_engine.feed(&frame);
    let expected = whole_engine.step(&mut whole_ops).unwrap();

    // Byte by byte.
    let mut ops = ServerOps::new();
    let mut engine = Engine::new();
    let mut responses = Vec::new();
    for b in frame {
        engine.feed(&[b]);
        if let Some(r) = engine.step(&mut ops) {
            responses.push(r);
        }
    }
    assert_eq!(responses, vec![expected.clone()]);
    assert_eq!(ops.take_plays(), whole_ops.take_plays());

    // An uneven split.
    let mut ops = ServerOps::new();
    let mut engine = Engine::new();
    engine.feed(&frame[..5]);
    assert_eq!(engine.step(&mut ops), None);
    engine.feed(&frame[5..11]);
    assert_eq!(engine.step(&mut ops), None);
    engine.feed(&frame[11..]);
    assert_eq!(engine.step(&mut ops), Some(expected));
}

#[test]
fn nonzero_protocol_id_discards_buffer() {
    // A nonzero protocol id throws the whole buffer away.
    let mut ops = ServerOps::new();
    let mut engine = Engine::new();
    engine.feed(&[0x00, 0x01, 0x00, 0x02, 0x00, 0x06, 0x01, 0x05, 0x00, 0x03]);
    assert_eq!(engine.step(&mut ops), None);
    assert_eq!(ops.take_plays(), Vec::<u16>::new());
    // The discarded bytes must not desynchronize the next valid frame.
    engine.feed(&[0x00, 0x01, 0x00, 0x00, 0x00, 0x06, 0x01, 0x05, 0x00, 0x03, 0xff, 0x00]);
    let resp = engine.step(&mut ops).unwrap();
    assert_eq!(
        resp,
        vec![0x00, 0x01, 0x00, 0x00, 0x00, 0x04, 0x01, 0x05, 0xff, 0x00]
    );
}

#[test]
fn reset_discards_partial_frame() {
    let mut ops = ServerOps::new();
    let mut engine = Engine::new();
    engine.feed(&[0x00, 0x01, 0x00, 0x00, 0x00, 0x06, 0x01]);
    assert_eq!(engine.step(&mut ops), None);
    engine.reset();
    engine.feed(&[0x00, 0x02, 0x00, 0x00, 0x00, 0x06, 0x01, 0x05, 0x00, 0x03, 0xff, 0x00]);
    let resp = engine.step(&mut ops).unwrap();
    assert_eq!(
        resp,
        vec![0x00, 0x02, 0x00, 0x00, 0x00, 0x04, 0x01, 0x05, 0xff, 0x00]
    );
}

#[test]
fn short_frame_consumed_without_response() {
    let mut ops = ServerOps::new();
    let mut engine = Engine::new();
    // A declared length of 1 leaves no function code to dispatch on: the
    // seven-byte frame is consumed without a response once enough bytes
    // are buffered, and the frame behind it is answered normally.
    engine.feed(&[0x00, 0x01, 0x00, 0x00, 0x00, 0x01, 0x01]);
    engine.feed(&[0x00, 0x01, 0x00, 0x00, 0x00, 0x06, 0x01, 0x05, 0x00, 0x03, 0xff, 0x00]);
    assert_eq!(engine.step(&mut ops), None);
    let resp = engine.step(&mut ops).unwrap();
    assert_eq!(
        resp,
        vec![0x00, 0x01, 0x00, 0x00, 0x00, 0x04, 0x01, 0x05, 0xff, 0x00]
    );
}

#[test]
fn one_frame_per_step() {
    // Two complete frames buffered: each step answers exactly one.
    let mut ops = ServerOps::new();
    let mut engine = Engine::new();
    let f1 = [0x00u8, 0x01, 0x00, 0x00, 0x00, 0x06, 0x01, 0x05, 0x00, 0x03, 0xff, 0x00];
    let f2 = [0x00u8, 0x02, 0x00, 0x00, 0x00, 0x06, 0x01, 0x05, 0x00, 0x04, 0xff, 0x00];
    engine.feed(&f1);
    engine.feed(&f2);
    let r1 = engine.step(&mut ops).unwrap();
    assert_eq!(r1[1], 0x01);
    let r2 = engine.step(&mut ops).unwrap();
    assert_eq!(r2[1], 0x02);
    assert_eq!(engine.step(&mut ops), None);
    assert_eq!(ops.take_plays(), vec![3, 4]);
}
