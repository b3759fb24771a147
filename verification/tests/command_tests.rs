use weever_streaming::command::{
    command_of_pair, command_subject, text_within_bytes, decode_command, encode_command, room_from_command_subject,
    Command, CommandCodecError,
};

#[test]
fn user_msg_for_join_and_leave() {
    assert_eq!(Command::PubJoin("alice".to_string()).to_user_msg(), "PUB_JOIN alice");
    assert_eq!(Command::PubLeft("bob+42".to_string()).to_user_msg(), "PUB_LEFT bob+42");
}

#[test]
fn encoding_is_tag_then_length_prefixed_text() {
    let join = encode_command(&Command::PubJoin("bob".to_string())).unwrap();
    assert_eq!(join, vec![0u8, 3, b'b', b'o', b'b']);
    let left = encode_command(&Command::PubLeft("bob".to_string())).unwrap();
    assert_eq!(left, vec![1u8, 3, b'b', b'o', b'b']);
    let utf8 = encode_command(&Command::PubJoin("é".to_string())).unwrap();
    assert_eq!(utf8, vec![0u8, 2, 0xc3, 0xa9]);
}

#[test]
fn encoding_must_fit_the_frame() {
    // 1 byte of tag, 1 byte of length, 14 bytes of text: exactly 16 bytes.
    let fits = encode_command(&Command::PubJoin("abcdefghijklmn".to_string())).unwrap();
    assert_eq!(fits.len(), 16);
    let too_long = encode_command(&Command::PubJoin("abcdefghijklmno".to_string()));
    assert_eq!(too_long.unwrap_err(), CommandCodecError::Encode);
}

#[test]
fn decoding_gives_back_the_encoded_command() {
    for cmd in [
        Command::PubJoin("carol".to_string()),
        Command::PubLeft("dave+1".to_string()),
        Command::PubJoin(String::new()),
    ] {
        let bytes = encode_command(&cmd).unwrap();
        let back = decode_command(&bytes).unwrap();
        match (&cmd, &back) {
            (Command::PubJoin(a), Command::PubJoin(b)) => assert_eq!(a, b),
            (Command::PubLeft(a), Command::PubLeft(b)) => assert_eq!(a, b),
            _ => panic!("variant changed"),
        }
    }
}

#[test]
fn decoding_refuses_unknown_variants_and_garbage() {
    assert_eq!(decode_command(&[2u8, 0]).unwrap_err(), CommandCodecError::Decode);
    assert_eq!(decode_command(&[0u8, 5, b'a']).unwrap_err(), CommandCodecError::Decode);
    assert_eq!(decode_command(&[]).unwrap_err(), CommandCodecError::Decode);
    assert_eq!(decode_command(&[0u8, 2, 0xff, 0xfe]).unwrap_err(), CommandCodecError::Decode);
}

#[test]
fn command_subjects() {
    assert_eq!(command_subject("1234"), "cmd.1234");
    assert_eq!(room_from_command_subject("cmd.1234"), Some("1234".to_string()));
    assert_eq!(room_from_command_subject("cmd.a.b"), Some("a.b".to_string()));
    assert_eq!(room_from_command_subject("cmd"), None);
}

#[test]
fn command_subject_round_trip() {
    for room in ["room", "", "x-y_z"] {
        let subject = command_subject(room);
        assert_eq!(room_from_command_subject(&subject), Some(room.to_string()));
    }
}

#[test]
fn huge_length_prefixes_are_refused() {
    // a zero tag, then a text length of u64::MAX
    let bytes = [0u8, 0xfd, 0xff, 0xff, 0xff, 0xff, 0xff, 0xff, 0xff, 0xff];
    assert_eq!(decode_command(&bytes).unwrap_err(), CommandCodecError::Decode);
    // a length of 1000 with nothing after it
    let bytes = [1u8, 0xfb, 0xe8, 0x03];
    assert_eq!(decode_command(&bytes).unwrap_err(), CommandCodecError::Decode);
}

#[test]
fn longest_framed_command_decodes() {
    let cmd = Command::PubLeft("abcdefghijklmn".to_string());
    let bytes = encode_command(&cmd).unwrap();
    assert_eq!(bytes.len(), 16);
    match decode_command(&bytes).unwrap() {
        Command::PubLeft(u) => assert_eq!(u, "abcdefghijklmn"),
        _ => panic!("variant changed"),
    }
}

#[test]
fn pairs_become_commands_by_tag() {
    match command_of_pair(0, "ann".to_string()).unwrap() {
        Command::PubJoin(u) => assert_eq!(u, "ann"),
        _ => panic!("tag 0 is a join"),
    }
    match command_of_pair(1, "ann".to_string()).unwrap() {
        Command::PubLeft(u) => assert_eq!(u, "ann"),
        _ => panic!("tag 1 is a leave"),
    }
    assert_eq!(command_of_pair(2, "ann".to_string()).unwrap_err(), CommandCodecError::Decode);
    assert_eq!(command_of_pair(u32::MAX, String::new()).unwrap_err(), CommandCodecError::Decode);
}

#[test]
fn long_user_names_from_elsewhere_decode() {
    // longer than this instance's frame, but well formed
    let name = "a-rather-long-user-name+1234567890";
    let mut bytes = vec![0u8, name.len() as u8];
    bytes.extend_from_slice(name.as_bytes());
    match decode_command(&bytes).unwrap() {
        Command::PubJoin(u) => assert_eq!(u, name),
        _ => panic!("tag 0 is a join"),
    }
    // a 300-byte name, its length written in the two-byte form
    let long = "x".repeat(300);
    let mut bytes = vec![1u8, 251, 0x2c, 0x01];
    bytes.extend_from_slice(long.as_bytes());
    match decode_command(&bytes).unwrap() {
        Command::PubLeft(u) => assert_eq!(u, long),
        _ => panic!("tag 1 is a leave"),
    }
}

#[test]
fn declared_text_must_stay_within_the_bytes() {
    assert!(text_within_bytes(&[0u8, 3, b'a', b'b', b'c']));
    assert!(text_within_bytes(&[0u8, 3, b'a', b'b', b'c', b'd']));
    assert!(!text_within_bytes(&[0u8, 4, b'a', b'b', b'c']));
    assert!(!text_within_bytes(&[0u8, 0xfd, 0xff, 0xff, 0xff, 0xff, 0xff, 0xff, 0xff, 0xff]));
    assert!(!text_within_bytes(&[0u8, 0xfb, 0x00, 0x01, b'a']));
    // a prefix that does not read at all is left to the decoder, which refuses it
    assert!(text_within_bytes(&[]));
    assert!(text_within_bytes(&[0xfd, 0, 0, 0, 0, 0, 0, 0, 0, 0]));
    assert!(text_within_bytes(&[0u8, 0xfb, 0x00]));
    assert_eq!(decode_command(&[0xfd, 0, 0, 0, 0, 0, 0, 0, 0, 0]).unwrap_err(), CommandCodecError::Decode);
}
