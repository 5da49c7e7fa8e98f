use osc::decode::{i32_from_bits, scan_into_byte_array, type_tag_to_default_arg};
use osc::encode::{arg_char_repr, bits_from_i32, write_arg, write_blob, write_string};
use osc::errors::Error;
use osc::{Arg, OscMessage};

fn datagram(parts: &[&[u8]]) -> Vec<u8> {
    let mut bytes = Vec::new();
    for part in parts {
        bytes.extend_from_slice(part);
    }
    bytes
}

#[test]
fn encode_decode() {
    let message = OscMessage::new("/test", vec![Arg::Str("test".to_string())]);
    let bytes = message.build().expect("Failed to build message");
    let decoded_message = OscMessage::parse_bytes(&bytes).expect("Failed to decode message");
    assert!(decoded_message == message);
}

#[test]
fn empty_args_encoding_is_address_and_lone_comma() {
    let bytes = OscMessage::new("/x", vec![]).build().expect("Failed to build message");
    assert_eq!(bytes, vec![b'/', b'x', 0, 0, b',', 0, 0, 0]);
}

#[test]
fn aligned_address_gets_four_bytes_of_padding() {
    let bytes = OscMessage::new("/abc", vec![]).build().unwrap();
    assert_eq!(bytes, datagram(&[b"/abc", &[0, 0, 0, 0], b",", &[0, 0, 0]]));
}

#[test]
fn encodes_integers_big_endian() {
    let bytes = OscMessage::new("/a", vec![Arg::Int(1), Arg::Int(-1), Arg::Int(i32::MIN)])
        .build()
        .unwrap();
    assert_eq!(
        bytes,
        datagram(&[
            b"/a\0\0",
            b",iii\0\0\0\0",
            &[0, 0, 0, 1],
            &[0xff, 0xff, 0xff, 0xff],
            &[0x80, 0, 0, 0],
        ])
    );
}

#[test]
fn encodes_floats_as_their_bits() {
    let bytes = OscMessage::new("/a", vec![Arg::Float(1.0f32.to_bits())]).build().unwrap();
    assert_eq!(bytes, datagram(&[b"/a\0\0", b",f\0\0", &1.0f32.to_be_bytes()]));
    assert_eq!(&bytes[8..], &[0x3f, 0x80, 0, 0]);
}

#[test]
fn encodes_text_with_one_to_four_zeros() {
    assert_eq!(write_string(""), vec![0, 0, 0, 0]);
    assert_eq!(write_string("a"), vec![b'a', 0, 0, 0]);
    assert_eq!(write_string("ab"), vec![b'a', b'b', 0, 0]);
    assert_eq!(write_string("abc"), vec![b'a', b'b', b'c', 0]);
    assert_eq!(write_string("abcd"), vec![b'a', b'b', b'c', b'd', 0, 0, 0, 0]);
    assert_eq!(write_string("\u{e9}"), vec![0xc3, 0xa9, 0, 0]);
}

#[test]
fn encodes_blobs_with_length_and_padding() {
    assert_eq!(write_blob(vec![]).unwrap(), vec![0, 0, 0, 0, 0, 0, 0, 0]);
    assert_eq!(write_blob(vec![1, 2, 3]).unwrap(), vec![0, 0, 0, 3, 1, 2, 3, 0]);
    assert_eq!(
        write_blob(vec![1, 2, 3, 4]).unwrap(),
        vec![0, 0, 0, 4, 1, 2, 3, 4, 0, 0, 0, 0]
    );
    let long = write_blob(vec![7; 300]).unwrap();
    assert_eq!(&long[..4], &[0, 0, 1, 44]);
    assert_eq!(long.len(), 4 + 300 + 4);
}

#[test]
fn write_arg_covers_each_kind() {
    assert_eq!(write_arg(&Arg::Int(258)).unwrap(), vec![0, 0, 1, 2]);
    assert_eq!(write_arg(&Arg::Float(0x0102_0304)).unwrap(), vec![1, 2, 3, 4]);
    assert_eq!(write_arg(&Arg::Str("hi".to_string())).unwrap(), vec![b'h', b'i', 0, 0]);
    assert_eq!(write_arg(&Arg::Blob(vec![9])).unwrap(), vec![0, 0, 0, 1, 9, 0, 0, 0]);
}

#[test]
fn full_message_layout() {
    let message = OscMessage::new(
        "/mix",
        vec![
            Arg::Int(-2),
            Arg::Float(0.5f32.to_bits()),
            Arg::Str("on".to_string()),
            Arg::Blob(vec![0xaa, 0xbb]),
        ],
    );
    assert_eq!(
        message.build().unwrap(),
        datagram(&[
            b"/mix\0\0\0\0",
            b",ifsb\0\0\0",
            &[0xff, 0xff, 0xff, 0xfe],
            &[0x3f, 0, 0, 0],
            b"on\0\0",
            &[0, 0, 0, 2, 0xaa, 0xbb, 0, 0],
        ])
    );
}

#[test]
fn every_encoding_is_a_multiple_of_four() {
    let addresses = ["", "/", "/a", "/ab", "/abc", "/abcd", "/\u{e9}\u{20ac}"];
    let payloads: Vec<Vec<Arg>> = vec![
        vec![],
        vec![Arg::Int(7)],
        vec![Arg::Str("x".to_string()), Arg::Str("four".to_string())],
        vec![Arg::Blob(vec![1]), Arg::Blob(vec![1, 2, 3, 4, 5])],
        vec![Arg::Float(f32::NAN.to_bits()), Arg::Blob(vec![])],
    ];
    for address in addresses {
        for args in &payloads {
            let bytes = OscMessage::new(address, args.clone()).build().unwrap();
            assert_eq!(bytes.len() % 4, 0);
        }
    }
}

#[test]
fn round_trip_keeps_order_and_values() {
    let message = OscMessage::new(
        "/synth/\u{e9}",
        vec![
            Arg::Int(i32::MAX),
            Arg::Int(i32::MIN),
            Arg::Float(f32::NAN.to_bits()),
            Arg::Float((-0.0f32).to_bits()),
            Arg::Str("".to_string()),
            Arg::Str("caf\u{e9} \u{1f600}".to_string()),
            Arg::Int(0),
            Arg::Blob(vec![1, 2, 3, 4, 5]),
        ],
    );
    let bytes = message.build().unwrap();
    let decoded = OscMessage::parse_bytes(&bytes).unwrap();
    assert!(decoded == message);
    assert_eq!(decoded.address, "/synth/\u{e9}");
    assert_eq!(decoded.args.len(), 8);
    assert!(decoded.args[7] == Arg::Blob(vec![1, 2, 3, 4, 5]));
}

#[test]
fn round_trip_with_blank_arguments_after_a_blob() {
    let message = OscMessage::new(
        "/b",
        vec![
            Arg::Blob(vec![1]),
            Arg::Int(0),
            Arg::Str(String::new()),
            Arg::Float(0),
            Arg::Blob(vec![]),
            Arg::Int(0),
        ],
    );
    let decoded = OscMessage::parse_bytes(&message.build().unwrap()).unwrap();
    assert!(decoded == message);
}

#[test]
fn argument_after_a_blob_is_read_from_the_padding() {
    let message = OscMessage::new("/b", vec![Arg::Blob(vec![9]), Arg::Int(1)]);
    let decoded = OscMessage::parse_bytes(&message.build().unwrap()).unwrap();
    assert!(decoded != message);
    assert!(decoded == OscMessage::new("/b", vec![Arg::Blob(vec![9]), Arg::Int(0)]));

    let aligned = OscMessage::new("/b", vec![Arg::Blob(vec![1, 2, 3, 4]), Arg::Int(0x0102_0304)]);
    let decoded = OscMessage::parse_bytes(&aligned.build().unwrap()).unwrap();
    assert!(decoded == OscMessage::new("/b", vec![Arg::Blob(vec![1, 2, 3, 4]), Arg::Int(0)]));
}

#[test]
fn text_with_a_nul_is_cut_at_the_nul() {
    let message = OscMessage::new("/n", vec![Arg::Str("ab\0cd".to_string())]);
    let decoded = OscMessage::parse_bytes(&message.build().unwrap()).unwrap();
    assert!(decoded.args[0] == Arg::Str("ab".to_string()));
}

#[test]
fn decodes_each_kind() {
    let data = datagram(&[
        b"/k\0\0",
        b",ifsb\0\0\0",
        &[0xff, 0xff, 0xff, 0x85],
        &[0x40, 0x49, 0x0f, 0xdb],
        b"text\0\0\0\0",
        &[0, 0, 0, 3, 7, 8, 9, 0],
    ]);
    let message = OscMessage::parse_bytes(&data).unwrap();
    assert_eq!(message.address, "/k");
    assert_eq!(message.args.len(), 4);
    assert!(message.args[0] == Arg::Int(-123));
    assert!(message.args[1] == Arg::Float(0x4049_0fdb));
    assert!(message.args[2] == Arg::Str("text".to_string()));
    assert!(message.args[3] == Arg::Blob(vec![7, 8, 9]));
    match message.args[1] {
        Arg::Float(bits) => assert_eq!(f32::from_bits(bits), std::f32::consts::PI),
        _ => panic!("not a float"),
    }
}

#[test]
fn decodes_from_a_larger_buffer() {
    let message = OscMessage::new("/ping", vec![Arg::Str("pong".to_string()), Arg::Int(3)]);
    let mut buffer = message.build().unwrap();
    buffer.resize(1024, 0);
    assert!(OscMessage::parse_bytes(&buffer).unwrap() == message);
    buffer[1000] = 0xff;
    assert!(OscMessage::parse_bytes(&buffer).unwrap() == message);
}

#[test]
fn decodes_degenerate_datagrams() {
    let empty = OscMessage::parse_bytes(&[]).unwrap();
    assert_eq!(empty.address, "");
    assert!(empty.args.is_empty());

    let address_only = OscMessage::parse_bytes(b"/a\0\0").unwrap();
    assert_eq!(address_only.address, "/a");
    assert!(address_only.args.is_empty());

    let unterminated = OscMessage::parse_bytes(b"/abc").unwrap();
    assert_eq!(unterminated.address, "/abc");
    assert!(unterminated.args.is_empty());

    let empty_tags = OscMessage::parse_bytes(b"/a\0\0\0\0\0\0").unwrap();
    assert!(empty_tags.args.is_empty());
}

#[test]
fn text_beyond_the_end_is_empty() {
    let message = OscMessage::parse_bytes(b"/a\0\0,ss\0").unwrap();
    assert!(message == OscMessage::new("/a", vec![Arg::Str(String::new()), Arg::Str(String::new())]));
}

#[test]
fn misaligned_length_is_refused() {
    for len in [1usize, 2, 3, 5, 6, 7, 1023] {
        let data = vec![0u8; len];
        assert!(matches!(OscMessage::parse_bytes(&data), Err(Error::Alignment(l, 4)) if l == len));
    }
}

#[test]
fn alignment_is_checked_first() {
    assert!(matches!(OscMessage::parse_bytes(&[0xff, 0xff, 0xff]), Err(Error::Alignment(3, 4))));
}

#[test]
fn invalid_utf8_is_refused_by_part() {
    let bad_address = datagram(&[&[0xff, 0xfe, 0, 0], b",\0\0\0"]);
    assert!(matches!(
        OscMessage::parse_bytes(&bad_address),
        Err(Error::Utf8(part)) if part == "OSC address"
    ));

    let bad_tags = datagram(&[b"/a\0\0", &[b',', 0xc3, 0, 0]]);
    assert!(matches!(
        OscMessage::parse_bytes(&bad_tags),
        Err(Error::Utf8(part)) if part == "OSC argument type tags"
    ));

    let bad_text = datagram(&[b"/a\0\0", b",s\0\0", &[0xed, 0xa0, 0x80, 0]]);
    assert!(matches!(
        OscMessage::parse_bytes(&bad_text),
        Err(Error::Utf8(part)) if part == "OSC string"
    ));

    let both = datagram(&[&[0xff, 0, 0, 0], &[0xff, 0, 0, 0]]);
    assert!(matches!(
        OscMessage::parse_bytes(&both),
        Err(Error::Utf8(part)) if part == "OSC address"
    ));
}

#[test]
fn tags_without_a_comma_are_malformed() {
    let data = datagram(&[b"/a\0\0", b"i\0\0\0", &[0, 0, 0, 1]]);
    assert!(matches!(
        OscMessage::parse_bytes(&data),
        Err(Error::Malformed(part)) if part == "OSC argument type tags"
    ));
    let data = datagram(&[b"/a\0\0", b"x,\0\0"]);
    assert!(matches!(OscMessage::parse_bytes(&data), Err(Error::Malformed(_))));
}

#[test]
fn unknown_tag_is_named() {
    let data = datagram(&[b"/a\0\0", b",ix\0", &[0, 0, 0, 1]]);
    assert!(matches!(OscMessage::parse_bytes(&data), Err(Error::UnrecognisedTypeTag('x'))));

    let first_of_two = datagram(&[b"/a\0\0", b",qz\0"]);
    assert!(matches!(OscMessage::parse_bytes(&first_of_two), Err(Error::UnrecognisedTypeTag('q'))));

    let wide = datagram(&[b"/a\0\0", &[b',', 0xc3, 0xa9, 0]]);
    assert!(matches!(
        OscMessage::parse_bytes(&wide),
        Err(Error::UnrecognisedTypeTag('\u{e9}'))
    ));

    let second_comma = datagram(&[b"/a\0\0", b",,\0\0"]);
    assert!(matches!(OscMessage::parse_bytes(&second_comma), Err(Error::UnrecognisedTypeTag(','))));
}

#[test]
fn unknown_tag_is_found_before_any_value_is_read() {
    let data = datagram(&[b"/a\0\0", b",bk\0", &[0xff, 0xff, 0xff, 0xff]]);
    assert!(matches!(OscMessage::parse_bytes(&data), Err(Error::UnrecognisedTypeTag('k'))));
    let data = datagram(&[b"/a\0\0", b",ik\0"]);
    assert!(matches!(OscMessage::parse_bytes(&data), Err(Error::UnrecognisedTypeTag('k'))));
}

#[test]
fn negative_blob_length_is_refused() {
    let data = datagram(&[b"/a\0\0", b",b\0\0", &[0xff, 0xff, 0xff, 0xff]]);
    assert!(matches!(OscMessage::parse_bytes(&data), Err(Error::BlobSize(-1))));
    let data = datagram(&[b"/a\0\0", b",b\0\0", &[0x80, 0, 0, 0]]);
    assert!(matches!(OscMessage::parse_bytes(&data), Err(Error::BlobSize(i32::MIN))));
}

#[test]
fn exhausted_data_is_refused_with_width_and_position() {
    let no_int = datagram(&[b"/a\0\0", b",i\0\0"]);
    assert!(matches!(OscMessage::parse_bytes(&no_int), Err(Error::DataLength(4, 8))));

    let no_float = datagram(&[b"/a\0\0", b",if\0", &[0, 0, 0, 1]]);
    assert!(matches!(OscMessage::parse_bytes(&no_float), Err(Error::DataLength(4, 12))));

    let no_length = datagram(&[b"/a\0\0", b",b\0\0"]);
    assert!(matches!(OscMessage::parse_bytes(&no_length), Err(Error::DataLength(4, 8))));

    let short_blob = datagram(&[b"/a\0\0", b",b\0\0", &[0, 0, 0, 8], &[1, 2, 3, 4]]);
    assert!(matches!(OscMessage::parse_bytes(&short_blob), Err(Error::DataLength(8, 16))));

    let huge_blob = datagram(&[b"/a\0\0", b",b\0\0", &[0x7f, 0xff, 0xff, 0xff]]);
    assert!(matches!(
        OscMessage::parse_bytes(&huge_blob),
        Err(Error::DataLength(0x7fff_ffff, 12))
    ));
}

#[test]
fn position_beyond_the_end_is_reported() {
    let data = b"/a\0\0,ssi\0\0\0\0";
    assert!(matches!(OscMessage::parse_bytes(data), Err(Error::DataLength(4, 20))));
    let after_blob = datagram(&[b"/a\0\0", b",bi\0", &[0, 0, 0, 1, 5, 0, 0, 0]]);
    assert!(matches!(OscMessage::parse_bytes(&after_blob), Err(Error::DataLength(4, 16))));
}

#[test]
fn blob_is_read_without_its_padding() {
    let data = datagram(&[b"/a\0\0", b",bi\0", &[0, 0, 0, 1, 5], &[0, 0, 1, 0], &[0, 0, 0]]);
    let message = OscMessage::parse_bytes(&data).unwrap();
    assert!(message == OscMessage::new("/a", vec![Arg::Blob(vec![5]), Arg::Int(256)]));
}

#[test]
fn scan_copies_and_advances() {
    let data = [10u8, 11, 12, 13, 14, 15];
    let mut four = [0u8; 4];
    let mut idx = 1usize;
    assert!(scan_into_byte_array(&mut four, &mut idx, &data).is_ok());
    assert_eq!(four, [11, 12, 13, 14]);
    assert_eq!(idx, 5);

    let mut none: [u8; 0] = [];
    let mut far = 99usize;
    assert!(scan_into_byte_array(&mut none, &mut far, &data).is_ok());
    assert_eq!(far, 99);
}

#[test]
fn scan_stops_where_the_data_ends() {
    let data = [10u8, 11, 12, 13, 14, 15];
    let mut four = [1u8; 4];
    let mut idx = 4usize;
    assert!(matches!(
        scan_into_byte_array(&mut four, &mut idx, &data),
        Err(Error::DataLength(4, 6))
    ));
    assert_eq!(four, [14, 15, 1, 1]);
    assert_eq!(idx, 6);

    let mut beyond = 9usize;
    assert!(matches!(
        scan_into_byte_array(&mut four, &mut beyond, &data),
        Err(Error::DataLength(4, 9))
    ));
    assert_eq!(beyond, 9);
    assert_eq!(four, [14, 15, 1, 1]);
}

#[test]
fn tags_and_placeholders_agree() {
    for tag in ['i', 'f', 's', 'b'] {
        let slot = type_tag_to_default_arg(tag).unwrap();
        assert_eq!(arg_char_repr(&slot), tag);
    }
    assert!(type_tag_to_default_arg('i').unwrap() == Arg::Int(0));
    assert!(type_tag_to_default_arg('f').unwrap() == Arg::Float(0));
    assert!(type_tag_to_default_arg('s').unwrap() == Arg::Str(String::new()));
    assert!(type_tag_to_default_arg('b').unwrap() == Arg::Blob(vec![]));
    for tag in ['I', 'd', 'h', ',', '\0', 'T'] {
        assert!(matches!(
            type_tag_to_default_arg(tag),
            Err(Error::UnrecognisedTypeTag(t)) if t == tag
        ));
    }
}

#[test]
fn bit_patterns_are_twos_complement() {
    for v in [0i32, 1, -1, 42, -42, i32::MAX, i32::MIN, 0x1234_5678, -0x1234_5678] {
        assert_eq!(bits_from_i32(v), v as u32);
        assert_eq!(i32_from_bits(v as u32), v);
        assert_eq!(bits_from_i32(v).to_be_bytes(), v.to_be_bytes());
    }
}

#[test]
fn equality_is_by_kind_and_value() {
    assert!(Arg::Int(1) == Arg::Int(1));
    assert!(Arg::Int(1) != Arg::Int(2));
    assert!(Arg::Int(0) != Arg::Float(0));
    assert!(Arg::Str("a".to_string()) != Arg::Blob(vec![b'a']));
    assert!(Arg::Float(f32::NAN.to_bits()) == Arg::Float(f32::NAN.to_bits()));
    assert!(Arg::Float(0.0f32.to_bits()) != Arg::Float((-0.0f32).to_bits()));
    assert!(Arg::Blob(vec![1, 2]) != Arg::Blob(vec![1, 2, 3]));
    assert!(OscMessage::new("/a", vec![Arg::Int(1)]) != OscMessage::new("/b", vec![Arg::Int(1)]));
    assert!(OscMessage::new("/a", vec![Arg::Int(1)]) != OscMessage::new("/a", vec![]));
    assert!(
        OscMessage::new("/a", vec![Arg::Int(1), Arg::Int(2)])
            != OscMessage::new("/a", vec![Arg::Int(2), Arg::Int(1)])
    );
}
