use logos::codec::{get_u16, get_u32, get_u64, put_u16, put_u32, put_u64};
use logos::namespace::{ObjectId, ObjectInfo, ObjectKind, ObjectList, MAX_COMPONENT_BYTES};
use logos::session::{
    command_name_len, display_width, move_cursor, next_boundary, previous_boundary,
    syntax_extra_bytes, utf8_sequence_width, ShellOutput, MAX_OUTPUT_BYTES,
};
use logos::terminal::{control_byte, modified_character, shifted_ascii, Parser, ParserState, MOD_CAPS_LOCK, MOD_SHIFT};
use logos::user::{
    constant_time_eq, encoded_role_bytes, encoded_user_bytes, read_array, read_u16, read_u32,
    read_u64, read_u8, PasswordVerifier, RoleName, UserError, UserName,
};

#[test]
fn shell_output_is_bounded_and_prints_short_decimals() {
    let mut output = ShellOutput::new();
    output.push_decimal(0);
    output.push(b' ');
    output.push_decimal(42);
    output.push(b' ');
    output.push_decimal(1234);
    assert_eq!(output.as_bytes(), b"0 42 234");
    let mut full = ShellOutput::new();
    full.extend(&[b'x'; MAX_OUTPUT_BYTES + 10]);
    assert_eq!(full.len(), MAX_OUTPUT_BYTES);
    full.push(b'y');
    assert_eq!(full.len(), MAX_OUTPUT_BYTES);
    let mut moved = ShellOutput::new();
    move_cursor(&mut moved, b'D', 13);
    move_cursor(&mut moved, b'C', 0);
    assert_eq!(moved.as_bytes(), b"\x1b[13D");
}

#[test]
fn utf8_helpers_walk_characters() {
    let text = "aé€😀".as_bytes();
    assert_eq!(utf8_sequence_width(&text[1..]), 2);
    assert_eq!(utf8_sequence_width(&text[3..]), 3);
    assert_eq!(utf8_sequence_width(&text[6..]), 4);
    assert_eq!(utf8_sequence_width(&[0xc3, 0x28]), 1);
    assert_eq!(utf8_sequence_width(&[0xe0, 0x80, 0x80]), 1);
    assert_eq!(utf8_sequence_width(&[]), 0);
    assert_eq!(display_width(text), 4);
    assert_eq!(previous_boundary(text, text.len()), 6);
    assert_eq!(previous_boundary(text, 6), 3);
    assert_eq!(previous_boundary(text, 0), 0);
    assert_eq!(next_boundary(text, 1, text.len()), 3);
    assert_eq!(next_boundary(text, 6, text.len()), text.len());
}

#[test]
fn highlighting_counts_names_and_strings() {
    assert_eq!(command_name_len(b"echo(\"hi\")"), 4);
    assert_eq!(command_name_len(b"9lives"), 0);
    assert_eq!(command_name_len(b"net_status"), 10);
    assert_eq!(syntax_extra_bytes(b"echo(\"hi\")", 4), 9 + 9);
    assert_eq!(syntax_extra_bytes(b"\"a\" \"b", 0), 18);
    assert_eq!(syntax_extra_bytes(b"plain", 0), 0);
}

#[test]
fn terminal_key_translation() {
    assert_eq!(control_byte(b'c'), Some(3));
    assert_eq!(control_byte(b'C'), Some(3));
    assert_eq!(control_byte(b'?'), Some(0x7f));
    assert_eq!(control_byte(b'['), Some(0x1b));
    assert_eq!(control_byte(b'~'), None);
    assert_eq!(shifted_ascii(b'1'), b'!');
    assert_eq!(shifted_ascii(b'\\'), b'|');
    assert_eq!(shifted_ascii(b'a'), b'a');
    assert_eq!(modified_character(b'a', MOD_SHIFT), b'A');
    assert_eq!(modified_character(b'a', MOD_SHIFT | MOD_CAPS_LOCK), b'a');
    assert_eq!(modified_character(b'A', 0), b'a');
    assert_eq!(modified_character(b'/', MOD_SHIFT), b'?');
}

#[test]
fn csi_parameters_default_when_absent() {
    let mut parser = Parser::new();
    assert_eq!(parser.state, ParserState::Ground);
    parser.current = 12;
    parser.has_current = true;
    parser.push_param();
    parser.push_param();
    assert_eq!(parser.param(0, 1), 12);
    assert_eq!(parser.param(1, 1), 1);
    assert_eq!(parser.param(20, 7), 7);
    parser.reset_csi();
    assert_eq!(parser.param_count, 0);
}

#[test]
fn object_ids_need_a_generation() {
    assert!(ObjectId::new(3, 0).is_none());
    let id = ObjectId::new(3, 9).unwrap();
    assert_eq!((id.slot(), id.generation()), (3, 9));
    assert_eq!(ObjectId::root().generation(), 1);
    let list = ObjectList::empty();
    assert!(list.is_empty());
    assert_eq!(list.len(), 0);
    assert!(list.get(0).is_none());
    let mut name = [0u8; MAX_COMPONENT_BYTES];
    name[..3].copy_from_slice(b"one");
    let info = ObjectInfo { id, parent: ObjectId::root(), kind: ObjectKind::File, length: 0, name, name_length: 3 };
    assert_eq!(info.name_bytes(), b"one".to_vec());
}

#[test]
fn field_codec_round_trips() {
    let mut bytes = vec![0xaau8; 16];
    put_u16(&mut bytes, 1, 0x1234);
    put_u32(&mut bytes, 3, 0xdead_beef);
    put_u64(&mut bytes, 7, 0x0102_0304_0506_0708);
    assert_eq!(bytes[0], 0xaa);
    assert_eq!(bytes[15], 0xaa);
    assert_eq!(&bytes[1..3], &[0x34, 0x12]);
    assert_eq!(get_u16(&bytes, 1), 0x1234);
    assert_eq!(get_u32(&bytes, 3), 0xdead_beef);
    assert_eq!(get_u64(&bytes, 7), 0x0102_0304_0506_0708);
}

#[test]
fn names_are_canonical_and_bounded() {
    assert!(UserName::parse(b"alice-1").is_ok());
    assert_eq!(UserName::parse(b"Alice"), Err(UserError::InvalidName));
    assert_eq!(UserName::parse(b""), Err(UserError::InvalidName));
}

#[test]
fn names_keep_their_bytes() {
    let name = UserName::parse(b"bob.smith_2").unwrap();
    assert_eq!(name.slice(), b"bob.smith_2");
    assert_eq!(name.len(), 11);
    assert_eq!(name.as_bytes().len(), 32);
    assert!(UserName::parse(&[b'a'; 33]).is_err());
    assert!(RoleName::parse(b"admins").is_ok());
    assert_eq!(RoleName::parse(b"a b"), Err(UserError::InvalidName));
}

#[test]
fn password_verifiers_accept_only_their_password() {
    let salt = [7u8; 16];
    let verifier = PasswordVerifier::create(b"correct horse", salt).unwrap();
    assert_eq!(verifier.output.len(), 32);
    assert_ne!(verifier.output, [0u8; 32]);
    assert_eq!(verifier.verify(b"correct horse"), Ok(()));
    assert_eq!(verifier.verify(b"wrong"), Err(UserError::BadCredentials));
    assert_eq!(verifier.verify(b""), Err(UserError::BadCredentials));
    assert_eq!(PasswordVerifier::create(b"", salt), Err(UserError::InvalidPassword));
    let other_salt = PasswordVerifier::create(b"correct horse", [8u8; 16]).unwrap();
    assert_ne!(other_salt.output, verifier.output);
}

#[test]
fn constant_time_comparison_and_readers() {
    assert!(constant_time_eq(b"abc", b"abc"));
    assert!(!constant_time_eq(b"abc", b"abd"));
    assert!(!constant_time_eq(b"abc", b"ab"));
    assert_eq!(encoded_user_bytes(), 212);
    assert_eq!(encoded_role_bytes(), 158);
    let input = [1u8, 2, 3, 4, 5, 6, 7, 8, 9, 10, 11, 12, 13, 14, 15];
    let mut offset = 0;
    assert_eq!(read_u8(&input, &mut offset), Ok(1));
    assert_eq!(read_u16(&input, &mut offset), Ok(0x0302));
    assert_eq!(read_u32(&input, &mut offset), Ok(0x0706_0504));
    assert_eq!(offset, 7);
    assert_eq!(read_array(&input, &mut offset, 4), Ok(vec![8, 9, 10, 11]));
    assert_eq!(read_u64(&input, &mut offset), Err(UserError::Corrupt));
    assert_eq!(offset, 11);
    assert_eq!(read_u32(&input, &mut offset), Ok(0x0f0e_0d0c));
    assert_eq!(read_u8(&input, &mut offset), Err(UserError::Corrupt));
    let mut zero = 0;
    assert_eq!(read_u64(&input, &mut zero), Ok(0x0807_0605_0403_0201));
}

#[test]
fn sequence_width_refuses_overlong_surrogate_and_out_of_range_forms() {
    assert_eq!(utf8_sequence_width(&[0xc3, 0xa9]), 2);
    assert_eq!(utf8_sequence_width(&[0xe2, 0x82, 0xac]), 3);
    assert_eq!(utf8_sequence_width(&[0xf0, 0x9f, 0x98, 0x80]), 4);
    assert_eq!(utf8_sequence_width(&[0xe0, 0x80, 0x80]), 1);
    assert_eq!(utf8_sequence_width(&[0xed, 0xa0, 0x80]), 1);
    assert_eq!(utf8_sequence_width(&[0xf4, 0x90, 0x80, 0x80]), 1);
    assert_eq!(utf8_sequence_width(&[0xe2, 0x82, 0x41]), 1);
    assert_eq!(utf8_sequence_width(&[0xc3]), 1);
    for bytes in [[0xc3u8, 0xa9, 0, 0], [0xe2, 0x82, 0xac, 0], [0xf0, 0x9f, 0x98, 0x80]] {
        let width = utf8_sequence_width(&bytes);
        assert!(std::str::from_utf8(&bytes[..width]).is_ok());
    }
}
