use cmppprotocol::decode_msg_content;
use cmppprotocol::encoding::{
    choose_encoding, encode_content, split_content, try_split_content, SmsEncoding, UdhRefCounter,
    MSG_FMT_ASCII, MSG_FMT_GBK, MSG_FMT_UCS2, SINGLE_MAX_BYTES,
};
use cmppprotocol::Error;

#[test]
fn ascii_single_segment() {
    let segs = split_content("hello world", &mut UdhRefCounter::new());
    assert_eq!(segs.len(), 1);
    assert_eq!(segs[0].msg_fmt, MSG_FMT_ASCII);
    assert_eq!(segs[0].tp_udhi, 0);
    assert_eq!(segs[0].content, b"hello world");
}

#[test]
fn chinese_single_segment_ucs2() {
    let segs = split_content("你好", &mut UdhRefCounter::new());
    assert_eq!(segs.len(), 1);
    assert_eq!(segs[0].msg_fmt, MSG_FMT_UCS2);
    assert_eq!(segs[0].content, vec![0x4f, 0x60, 0x59, 0x7d]);
}

#[test]
fn long_chinese_splits_with_udh() {
    let content: String = "中".repeat(71);
    let segs = split_content(&content, &mut UdhRefCounter::new());
    assert!(segs.len() >= 2);
    let total = segs[0].pk_total;
    for (i, seg) in segs.iter().enumerate() {
        assert_eq!(seg.tp_udhi, 1);
        assert_eq!(seg.pk_total, total);
        assert_eq!(seg.pk_number as usize, i + 1);
        assert_eq!(&seg.content[0..3], &[0x05, 0x00, 0x03]);
        assert!(seg.content.len() <= SINGLE_MAX_BYTES);
    }
}

#[test]
fn surrogate_pair_not_split() {
    let content: String = "\u{1F600}".repeat(40);
    let segs = split_content(&content, &mut UdhRefCounter::new());
    assert!(segs.len() >= 2);
    for seg in &segs {
        let payload = seg.content.len() - 6;
        assert_eq!(payload % 4, 0);
    }
}

#[test]
fn character_sets_have_their_numbers() {
    assert_eq!(SmsEncoding::Ascii.msg_fmt(), 0);
    assert_eq!(SmsEncoding::Ucs2.msg_fmt(), 8);
    assert_eq!(SmsEncoding::Gbk.msg_fmt(), 15);
    assert_eq!(choose_encoding("plain ~\u{7f}"), SmsEncoding::Ascii);
    assert_eq!(choose_encoding("caf\u{e9}"), SmsEncoding::Ucs2);
    assert_eq!(choose_encoding(""), SmsEncoding::Ascii);
}

#[test]
fn texts_have_these_bytes() {
    assert_eq!(encode_content("\u{141}z", SmsEncoding::Ascii), b"\x41z");
    assert_eq!(
        encode_content("a\u{1F600}", SmsEncoding::Ucs2),
        vec![0x00, 0x61, 0xd8, 0x3d, 0xde, 0x00]
    );
    assert_eq!(
        encode_content("a你好", SmsEncoding::Gbk),
        vec![0x61, 0xc4, 0xe3, 0xba, 0xc3]
    );
}

#[test]
fn what_gbk_lacks_becomes_a_reference() {
    assert_eq!(
        encode_content("\u{1F600}", SmsEncoding::Gbk),
        b"&#128512;"
    );
}

#[test]
fn contents_are_decoded_by_their_character_set() {
    assert_eq!(decode_msg_content(MSG_FMT_ASCII, 0, b"hello"), "hello");
    assert_eq!(
        decode_msg_content(MSG_FMT_UCS2, 0, &[0x4f, 0x60, 0xd8, 0x3d, 0xde, 0x00]),
        "你\u{1F600}"
    );
    assert_eq!(
        decode_msg_content(MSG_FMT_GBK, 0, &[0xc4, 0xe3, 0xba, 0xc3]),
        "你好"
    );
    assert_eq!(decode_msg_content(4, 0, "数据".as_bytes()), "数据");
}

#[test]
fn broken_contents_are_repaired() {
    assert_eq!(
        decode_msg_content(MSG_FMT_ASCII, 0, &[0x61, 0xff, 0x62]),
        "a\u{fffd}b"
    );
    assert_eq!(
        decode_msg_content(MSG_FMT_UCS2, 0, &[0xd8, 0x3d, 0x00, 0x61, 0xde, 0x00]),
        "\u{fffd}a\u{fffd}"
    );
    assert_eq!(decode_msg_content(MSG_FMT_UCS2, 0, b"odd"), "odd");
}

#[test]
fn a_header_is_skipped_where_there_is_more_behind_it() {
    let content = [5, 0, 3, 1, 2, 1, b'h', b'i'];
    assert_eq!(decode_msg_content(MSG_FMT_ASCII, 1, &content), "hi");
    assert_eq!(
        decode_msg_content(MSG_FMT_ASCII, 0, &content),
        "\u{5}\0\u{3}\u{1}\u{2}\u{1}hi"
    );
    assert_eq!(
        decode_msg_content(MSG_FMT_ASCII, 1, &content[..6]),
        "\u{5}\0\u{3}\u{1}\u{2}\u{1}"
    );
}

#[test]
fn segments_give_the_text_back() {
    let texts = vec![
        String::new(),
        "x".repeat(140),
        "x".repeat(141),
        "中文\u{1F600}ab".repeat(60),
        "a".repeat(500),
    ];
    for text in texts {
        let segs = split_content(&text, &mut UdhRefCounter::new());
        let joined: String = segs
            .iter()
            .map(|s| decode_msg_content(s.msg_fmt, s.tp_udhi, &s.content))
            .collect();
        assert_eq!(joined, text);
        for seg in &segs {
            assert!(seg.content.len() <= SINGLE_MAX_BYTES);
        }
    }
}

#[test]
fn segments_are_filled_before_the_next_begins() {
    let segs = split_content(&"x".repeat(141), &mut UdhRefCounter::new());
    assert_eq!(segs.len(), 2);
    assert_eq!(segs[0].content.len(), 140);
    assert_eq!(segs[1].content.len(), 13);
    assert_eq!(&segs[1].content[..6], &[5, 0, 3, 0, 2, 2]);
    assert_eq!(split_content(&"x".repeat(140), &mut UdhRefCounter::new()).len(), 1);
}

#[test]
fn references_are_drawn_by_long_messages_only() {
    let mut references = UdhRefCounter::new();
    let long = "x".repeat(200);
    assert_eq!(split_content(&long, &mut references)[0].content[3], 0);
    assert_eq!(split_content("short", &mut references).len(), 1);
    assert_eq!(split_content(&long, &mut references)[1].content[3], 1);
    for _ in 2..256 {
        split_content(&long, &mut references);
    }
    assert_eq!(split_content(&long, &mut references)[0].content[3], 0);
}

#[test]
fn more_segments_than_a_byte_counts_are_refused() {
    let mut references = UdhRefCounter::new();
    let most = "x".repeat(134 * 255);
    let split = try_split_content(&most, &mut references).unwrap();
    assert_eq!(split.len(), 255);
    assert_eq!(split[254].pk_number, 255);
    assert_eq!(split[0].pk_total, 255);

    let too_long = "x".repeat(134 * 255 + 1);
    match try_split_content(&too_long, &mut references) {
        Err(Error::Config(text)) => assert_eq!(text, "长短信 segment 数量超过 255"),
        other => panic!("unexpected {:?}", other),
    }
    let unchecked = split_content(&too_long, &mut references);
    assert_eq!(unchecked.len(), 256);
    assert_eq!(unchecked[255].pk_total, 255);
    assert_eq!(unchecked[255].pk_number, 0);
    assert_eq!(unchecked[0].content[3], 1);
}

#[test]
fn texts_one_behind_the_other_are_encoded_so() {
    let mut parts = encode_content("你a", SmsEncoding::Ucs2);
    parts.extend_from_slice(&encode_content("\u{1F600}好", SmsEncoding::Ucs2));
    assert_eq!(encode_content("你a\u{1F600}好", SmsEncoding::Ucs2), parts);
}

#[test]
fn no_more_segments_are_made_than_needed() {
    let mut counter = UdhRefCounter::new();
    assert_eq!(split_content(&"a".repeat(268), &mut counter).len(), 2);
    assert_eq!(split_content(&"a".repeat(269), &mut counter).len(), 3);
    assert_eq!(split_content(&"中".repeat(134), &mut counter).len(), 2);
    assert_eq!(split_content(&"中".repeat(135), &mut counter).len(), 3);
}
