use meatpack::ArrWriter;
use meatpack::MeatPackError;
use meatpack::MeatPackResult;
use meatpack::Packer;
use meatpack::Unpacker;

fn unpack_all(stream: &[u8]) -> Result<Vec<u8>, MeatPackError> {
    let mut unpacker = Unpacker::<64>::default();
    let mut out: Vec<u8> = Vec::new();
    for byte in stream {
        match unpacker.unpack(byte)? {
            MeatPackResult::Line(line) => out.extend(line),
            MeatPackResult::WaitingForNextByte => {}
        }
    }
    Ok(out)
}

#[test]
fn missing_header_passes_bytes_through() {
    let input = b"hello\nworld\n";
    let out = unpack_all(input).unwrap();
    assert_eq!(out.as_slice(), input.as_slice());
}

#[test]
fn passthrough_ends_at_header() {
    // Raw bytes pass through until the header arrives; packed bytes after
    // it decode.
    let mut stream: Vec<u8> = Vec::new();
    stream.extend(b"raw\n");
    stream.extend([255, 255, 251]);
    stream.extend([0x1D, 0xCC]); // ('G','1') packed, then the terminator
    let out = unpack_all(&stream).unwrap();
    assert_eq!(out.as_slice(), b"raw\nG1\n".as_slice());
}

#[test]
fn commands_toggle_packing_and_mode() {
    let stream: Vec<u8> = vec![
        255, 255, 247, // no-spaces enabled: decoding on, code 11 is E
        0x1B, 0xCC, // ('E','1') packed, then the terminator
        255, 255, 249, // reset all: back to pass-through, mode off
        b'x', 10, // raw bytes pass through
        255, 255, 251, // packing enabled again, code 11 is space now
        0x1B, 0xCC,
    ];
    let out = unpack_all(&stream).unwrap();
    assert_eq!(out.as_slice(), b"E1\nx\n 1\n".as_slice());
}

#[test]
fn packing_disabled_returns_to_passthrough() {
    let stream: Vec<u8> = vec![
        255, 255, 251, // header
        0xC1, // ('1','\n') packed
        255, 255, 250, // packing disabled
        b'a', b'b', 10,
    ];
    let out = unpack_all(&stream).unwrap();
    assert_eq!(out.as_slice(), b"1\nab\n".as_slice());
}

#[test]
fn no_spaces_mode_round_trips_e() {
    let gcode = b"E12\n";
    let mut meat: Vec<u8> = Vec::new();
    Packer::<64>::pack_slice(gcode, &mut meat, false, true).unwrap();
    // Header, no-spaces command, then ('E','1') in one byte and ('2','\n')
    // in another: E holds code 11 in this mode.
    assert_eq!(meat, vec![255, 255, 251, 255, 255, 247, 0x1B, 0xC2]);
    let out = unpack_all(&meat).unwrap();
    assert_eq!(out.as_slice(), gcode.as_slice());
}

#[test]
fn spaces_mode_escapes_e() {
    let gcode = b"E 1\n";
    let mut meat: Vec<u8> = Vec::new();
    Packer::<64>::pack_slice(gcode, &mut meat, false, false).unwrap();
    // E has no code outside no-spaces mode: it travels as an escaped raw
    // byte, while the space takes code 11.
    assert_eq!(meat, vec![255, 255, 251, 0xBF, b'E', 0xC1]);
    let out = unpack_all(&meat).unwrap();
    assert_eq!(out.as_slice(), gcode.as_slice());
}

#[test]
fn blank_line_is_suppressed() {
    let mut packer = Packer::<16>::new(false, false);
    // A lone terminator with nothing buffered reports no line.
    assert!(matches!(packer.pack(&b'\n'), Ok(MeatPackResult::WaitingForNextByte)));
    assert!(matches!(packer.pack(&b'\n'), Ok(MeatPackResult::WaitingForNextByte)));
}

#[test]
fn escaped_byte_round_trips() {
    let gcode = b"!\n";
    let mut meat: Vec<u8> = Vec::new();
    Packer::<64>::pack_slice(gcode, &mut meat, false, false).unwrap();
    assert_eq!(meat, vec![255, 255, 251, 0xCF, b'!']);
    let out = unpack_all(&meat).unwrap();
    assert_eq!(out.as_slice(), gcode.as_slice());
}

#[test]
fn double_full_width_collides_with_signal_byte() {
    let mut packer = Packer::<16>::new(false, false);
    assert!(matches!(packer.pack(&b'!'), Ok(MeatPackResult::WaitingForNextByte)));
    assert!(matches!(packer.pack(&b'?'), Ok(MeatPackResult::WaitingForNextByte)));
    let line = match packer.pack(&b'\n') {
        Ok(MeatPackResult::Line(line)) => line,
        _ => panic!("expected a completed line"),
    };
    // Two escaped characters produce the signal-byte value followed by
    // both raw bytes; the terminator packs with itself.
    assert_eq!(line, vec![255, 33, 63, 0xCC]);

    // A decoder must take that sequence as data, never as a command.
    let mut stream: Vec<u8> = vec![255, 255, 251];
    stream.extend(&line);
    let out = unpack_all(&stream).unwrap();
    assert_eq!(out.as_slice(), b"!?\n".as_slice());
}

#[test]
fn m73_line_round_trips() {
    let gcode = b"M73 P0 R3\n";
    let mut meat: Vec<u8> = Vec::new();
    Packer::<64>::pack_slice(gcode, &mut meat, false, false).unwrap();
    assert_eq!(&meat[0..3], &[255, 255, 251]);
    let out = unpack_all(&meat).unwrap();
    assert_eq!(out.as_slice(), gcode.as_slice());
}

#[test]
fn packer_reports_buffer_full() {
    let mut packer = Packer::<1>::new(false, false);
    assert!(matches!(packer.pack(&b'1'), Ok(MeatPackResult::WaitingForNextByte)));
    assert!(matches!(packer.pack(&b'2'), Ok(MeatPackResult::WaitingForNextByte)));
    assert!(matches!(packer.pack(&b'3'), Ok(MeatPackResult::WaitingForNextByte)));
    assert_eq!(packer.pack(&b'4'), Err(MeatPackError::BufferFull));
}

#[test]
fn unpacker_reports_buffer_full() {
    let mut unpacker = Unpacker::<2>::default();
    assert!(matches!(unpacker.unpack(&b'a'), Ok(MeatPackResult::WaitingForNextByte)));
    assert!(matches!(unpacker.unpack(&b'b'), Ok(MeatPackResult::WaitingForNextByte)));
    assert_eq!(unpacker.unpack(&b'c'), Err(MeatPackError::BufferFull));
}

#[test]
fn unknown_command_byte_is_reported() {
    let mut unpacker = Unpacker::<16>::default();
    assert!(matches!(unpacker.unpack(&255), Ok(MeatPackResult::WaitingForNextByte)));
    assert!(matches!(unpacker.unpack(&255), Ok(MeatPackResult::WaitingForNextByte)));
    assert_eq!(unpacker.unpack(&200), Err(MeatPackError::InvalidCommandByte(200)));
}

#[test]
fn signal_byte_in_escape_state_is_invalid() {
    let mut unpacker = Unpacker::<16>::default();
    for byte in [255u8, 255, 251] {
        unpacker.unpack(&byte).unwrap();
    }
    // 0x1F escapes its first character: a raw byte is owed next.
    assert!(matches!(unpacker.unpack(&0x1F), Ok(MeatPackResult::WaitingForNextByte)));
    assert_eq!(unpacker.unpack(&255), Err(MeatPackError::InvalidState));
}

#[test]
fn unterminated_input_is_reported() {
    let mut meat: Vec<u8> = Vec::new();
    let r = Packer::<64>::pack_slice(b"123", &mut meat, false, false);
    assert_eq!(r, Err(MeatPackError::UnterminatedLine(1)));

    let mut out: Vec<u8> = Vec::new();
    let r = Unpacker::<64>::unpack_slice(&[255, 255, 251, 0x21], &mut out);
    assert_eq!(r, Err(MeatPackError::UnterminatedLine(2)));
    assert_eq!(out, Vec::<u8>::new());
}

#[test]
fn data_remains_tracks_line_boundaries() {
    let mut packer = Packer::<16>::new(false, false);
    assert!(packer.data_remains());
    packer.pack(&b'1').unwrap();
    assert!(packer.data_remains());
    packer.pack(&b'\n').unwrap();
    assert!(!packer.data_remains());

    let mut unpacker = Unpacker::<16>::default();
    assert!(unpacker.data_remains());
    unpacker.unpack(&b'a').unwrap();
    unpacker.unpack(&b'\n').unwrap();
    assert!(!unpacker.data_remains());
}

#[test]
fn arr_writer_refuses_overflow() {
    let mut writer = ArrWriter::<2>::new();
    writer.push(&1).unwrap();
    writer.push(&2).unwrap();
    assert_eq!(writer.push(&3), Err(MeatPackError::BufferFull));
    assert_eq!(writer.as_bytes(), &[1, 2]);
}
