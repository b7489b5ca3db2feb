use file_relay::codec::{
    decode_file_message, decode_join, decode_roster, encode_file_message, encode_roster,
    FileMessage,
};
use file_relay::username::{is_alnum_byte, Username};

fn name(text: &str) -> Username {
    Username::parse(text).unwrap()
}

#[test]
fn alnum_bytes_are_letters_and_digits() {
    for b in 0u8..=255 {
        let expected = (b as char).is_ascii_alphanumeric();
        assert_eq!(is_alnum_byte(b), expected);
    }
}

#[test]
fn username_takes_one_to_thirteen_letters_or_digits() {
    assert!(Username::parse("a").is_some());
    assert!(Username::parse("Alice99").is_some());
    assert!(Username::parse("abcdefghijklm").is_some());
    assert_eq!(Username::parse("abcdefghijklm").unwrap().len(), 13);
    assert_eq!(Username::parse("bob").unwrap().as_bytes(), &b"bob".to_vec());
}

#[test]
fn username_refuses_empty_long_and_foreign_bytes() {
    assert!(Username::parse("").is_none());
    assert!(Username::parse("abcdefghijklmn").is_none());
    assert!(Username::parse("al ice").is_none());
    assert!(Username::parse("al|ice").is_none());
    assert!(Username::parse("al,ice").is_none());
    assert!(Username::parse("al_ice").is_none());
    assert!(Username::parse("caf\u{e9}").is_none());
    assert!(Username::new(vec![0x61, 0x00]).is_none());
    assert!(Username::new(vec![0xff]).is_none());
}

#[test]
fn username_new_keeps_the_bytes() {
    let made = Username::new(b"Zed42".to_vec()).unwrap();
    assert_eq!(made.as_bytes(), &vec![0x5a, 0x65, 0x64, 0x34, 0x32]);
    assert!(made.same(&name("Zed42")));
    assert!(!made.same(&name("zed42")));
    assert_eq!(made.clone(), made);
}

#[test]
fn join_request_gives_the_name_after_the_prefix() {
    assert_eq!(decode_join(&b"JOIN|alice".to_vec()), Some(b"alice".to_vec()));
    assert_eq!(decode_join(&b"JOIN|A1b2C3".to_vec()), Some(b"A1b2C3".to_vec()));
}

#[test]
fn join_request_may_have_no_name() {
    assert_eq!(decode_join(&b"JOIN|".to_vec()), Some(Vec::new()));
}

#[test]
fn join_request_of_any_length_is_read() {
    assert_eq!(
        decode_join(&b"JOIN|abcdefghijklmn".to_vec()),
        Some(b"abcdefghijklmn".to_vec())
    );
}

#[test]
fn join_request_must_start_with_the_prefix() {
    assert_eq!(decode_join(&b"".to_vec()), None);
    assert_eq!(decode_join(&b"JOIN".to_vec()), None);
    assert_eq!(decode_join(&b"join|alice".to_vec()), None);
    assert_eq!(decode_join(&b"JOIN:alice".to_vec()), None);
    assert_eq!(decode_join(&b"xJOIN|alice".to_vec()), None);
    assert_eq!(decode_join(&b"hello JOIN|bob".to_vec()), None);
}

#[test]
fn join_request_takes_letters_and_digits_only() {
    assert_eq!(decode_join(&b"JOIN|al ice".to_vec()), None);
    assert_eq!(decode_join(&b"JOIN|alice\n".to_vec()), None);
    assert_eq!(decode_join(&b"JOIN|al|ice".to_vec()), None);
    assert_eq!(decode_join(&"JOIN|caf\u{e9}".as_bytes().to_vec()), None);
}

#[test]
fn file_message_is_length_name_and_bytes() {
    let msg = FileMessage { username: name("bob"), file_bytes: vec![1, 2, 3] };
    assert_eq!(encode_file_message(&msg), vec![3, 0x62, 0x6f, 0x62, 1, 2, 3]);
}

#[test]
fn file_message_round_trips() {
    let msg = FileMessage { username: name("abcdefghijklm"), file_bytes: vec![0, 255, 44, 124] };
    let frame = encode_file_message(&msg);
    assert_eq!(frame.len(), 1 + 13 + 4);
    assert_eq!(decode_file_message(&frame), Some(msg));
}

#[test]
fn file_message_may_carry_no_bytes() {
    let msg = FileMessage { username: name("a"), file_bytes: Vec::new() };
    let frame = encode_file_message(&msg);
    assert_eq!(frame, vec![1, 0x61]);
    assert_eq!(decode_file_message(&frame), Some(msg));
}

#[test]
fn file_frame_is_written_as_it_was_read() {
    let frame = vec![2, 0x68, 0x69, 9, 8, 7, 6];
    let msg = decode_file_message(&frame).unwrap();
    assert_eq!(msg.username, name("hi"));
    assert_eq!(msg.file_bytes, vec![9, 8, 7, 6]);
    assert_eq!(encode_file_message(&msg), frame);
}

#[test]
fn file_frame_that_cannot_be_read() {
    assert_eq!(decode_file_message(&Vec::new()), None);
    assert_eq!(decode_file_message(&vec![0]), None);
    assert_eq!(decode_file_message(&vec![0, 0x61]), None);
    assert_eq!(decode_file_message(&vec![3, 0x62, 0x6f]), None);
    assert_eq!(decode_file_message(&vec![3, 0x62, 0x20, 0x62]), None);
    let mut long = vec![14];
    long.extend_from_slice(b"abcdefghijklmn");
    assert_eq!(decode_file_message(&long), None);
    let mut huge = vec![255];
    huge.extend_from_slice(&[0x61; 255]);
    assert_eq!(decode_file_message(&huge), None);
}

#[test]
fn roster_frame_of_nobody() {
    assert_eq!(encode_roster(&Vec::new()), b"LIST|".to_vec());
    assert_eq!(decode_roster(&b"LIST|".to_vec()), Some(Vec::new()));
}

#[test]
fn roster_frame_lists_the_names_in_order() {
    assert_eq!(encode_roster(&vec![name("alice")]), b"LIST|alice".to_vec());
    assert_eq!(
        encode_roster(&vec![name("alice"), name("bob"), name("Carol3")]),
        b"LIST|alice,bob,Carol3".to_vec()
    );
}

#[test]
fn roster_frame_round_trips() {
    let names = vec![name("bob"), name("alice"), name("abcdefghijklm"), name("x")];
    assert_eq!(decode_roster(&encode_roster(&names)), Some(names));
}

#[test]
fn roster_frame_is_read() {
    assert_eq!(decode_roster(&b"LIST|zoe".to_vec()), Some(vec![name("zoe")]));
    assert_eq!(
        decode_roster(&b"LIST|zoe,adam".to_vec()),
        Some(vec![name("zoe"), name("adam")])
    );
}

#[test]
fn roster_frame_that_cannot_be_read() {
    assert_eq!(decode_roster(&Vec::new()), None);
    assert_eq!(decode_roster(&b"LIST".to_vec()), None);
    assert_eq!(decode_roster(&b"list|alice".to_vec()), None);
    assert_eq!(decode_roster(&b"JOIN|alice".to_vec()), None);
    assert_eq!(decode_roster(&b"LIST|,".to_vec()), None);
    assert_eq!(decode_roster(&b"LIST|alice,".to_vec()), None);
    assert_eq!(decode_roster(&b"LIST|,alice".to_vec()), None);
    assert_eq!(decode_roster(&b"LIST|alice,,bob".to_vec()), None);
    assert_eq!(decode_roster(&b"LIST|al ice".to_vec()), None);
    assert_eq!(decode_roster(&b"LIST|abcdefghijklmn".to_vec()), None);
    assert_eq!(decode_roster(&b"LIST|bob,abcdefghijklmn,al".to_vec()), None);
}
