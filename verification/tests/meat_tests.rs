use meatpack::determine_command;
use meatpack::forward_lookup;
use meatpack::is_linefeed_byte;
use meatpack::is_signal_byte;
use meatpack::reverse_lookup;
use meatpack::unpack_byte;
use meatpack::MeatPackCommand;
use meatpack::MeatPackError;
use meatpack::Pack;

#[test]
fn test_unpack() {
    let packed: u8 = 0b1101_0001;
    let (most, least) = packed.unpack(false);
    assert_eq!(most, b'G');
    assert_eq!(least, b'1');
}

#[test]
fn test_pack_packable() {
    let packable: u8 = b'0';
    let packed = packable.pack(false).unwrap();
    assert_eq!(packed, 0u8);
}

#[test]
fn test_pack_unpackable() {
    let unpackable: u8 = b'T';
    let packed = unpackable.pack(false);
    assert!(packed.is_none());
}

#[test]
fn forward_lookup_whole_table() {
    for (c, code) in [
        (b'0', 0u8),
        (b'1', 1),
        (b'2', 2),
        (b'3', 3),
        (b'4', 4),
        (b'5', 5),
        (b'6', 6),
        (b'7', 7),
        (b'8', 8),
        (b'9', 9),
        (b'.', 10),
        (b' ', 11),
        (b'\n', 12),
        (b'G', 13),
        (b'X', 14),
    ] {
        assert_eq!(forward_lookup(&c, false), Some(code));
    }
    assert_eq!(forward_lookup(&b'E', false), None);
    assert_eq!(forward_lookup(&b'E', true), Some(11));
    assert_eq!(forward_lookup(&b' ', true), None);
    assert_eq!(forward_lookup(&b'!', false), None);
    assert_eq!(forward_lookup(&0u8, false), None);
}

#[test]
fn reverse_lookup_whole_table() {
    for (code, c) in [
        (0u8, b'0'),
        (1, b'1'),
        (2, b'2'),
        (3, b'3'),
        (4, b'4'),
        (5, b'5'),
        (6, b'6'),
        (7, b'7'),
        (8, b'8'),
        (9, b'9'),
        (10, b'.'),
        (11, b' '),
        (12, b'\n'),
        (13, b'G'),
        (14, b'X'),
        (15, 0u8),
    ] {
        assert_eq!(reverse_lookup(&code, false), Some(c));
    }
    assert_eq!(reverse_lookup(&11, true), Some(b'E'));
    assert_eq!(reverse_lookup(&16, false), None);
}

#[test]
fn unpack_byte_splits_nibbles() {
    assert_eq!(unpack_byte(&0b1100_1100, false), (b'\n', b'\n'));
    assert_eq!(unpack_byte(&0b0001_1011, true), (b'1', b'E'));
    assert_eq!(unpack_byte(&0b0001_1011, false), (b'1', b' '));
}

#[test]
fn determine_command_whole_table() {
    assert!(matches!(determine_command(&246), Ok(MeatPackCommand::NoSpacesDisabled)));
    assert!(matches!(determine_command(&247), Ok(MeatPackCommand::NoSpacesEnabled)));
    assert!(matches!(determine_command(&248), Ok(MeatPackCommand::QueryConfig)));
    assert!(matches!(determine_command(&249), Ok(MeatPackCommand::ResetAll)));
    assert!(matches!(determine_command(&250), Ok(MeatPackCommand::PackingDisabled)));
    assert!(matches!(determine_command(&251), Ok(MeatPackCommand::PackingEnabled)));
    assert!(matches!(determine_command(&255), Ok(MeatPackCommand::SignalByte)));
    assert_eq!(determine_command(&200), Err(MeatPackError::InvalidCommandByte(200)));
}

#[test]
fn signal_and_linefeed_checks() {
    assert!(is_signal_byte(&255));
    assert!(!is_signal_byte(&254));
    assert!(is_linefeed_byte(&10));
    assert!(!is_linefeed_byte(&13));
}
