use cmppprotocol::encoding::UdhRefCounter;
use cmppprotocol::{decode_msg_content, Error, SubmitOptions};

fn options() -> SubmitOptions {
    SubmitOptions::new("SVC", "901234", "10690001", "13800138000")
}

#[test]
fn short_ascii_is_single_segment() {
    let opts = SubmitOptions::new("SVC", "901234", "10690001", "13800138000");
    let submits = opts.build_submits("hello", &mut UdhRefCounter::new());
    assert_eq!(submits.len(), 1);
    assert_eq!(submits[0].pk_total, 1);
    assert_eq!(submits[0].tp_udhi, 0);
    assert_eq!(submits[0].registered_delivery, 1);
    assert_eq!(
        submits[0].dest_terminal_ids,
        vec!["13800138000".to_string()]
    );
}

#[test]
fn long_chinese_splits() {
    let opts = SubmitOptions::new("SVC", "901234", "10690001", "13800138000");
    let content: String = "中".repeat(100);
    let submits = opts.build_submits(&content, &mut UdhRefCounter::new());
    assert!(submits.len() >= 2);
    for (i, s) in submits.iter().enumerate() {
        assert_eq!(s.tp_udhi, 1);
        assert_eq!(s.pk_number as usize, i + 1);
        assert_eq!(s.pk_total as usize, submits.len());
    }
}

#[test]
fn options_start_from_defaults() {
    let opts = options();
    assert_eq!(opts.service_id, "SVC");
    assert_eq!(opts.msg_src, "901234");
    assert_eq!(opts.src_id, "10690001");
    assert_eq!(opts.dest_terminal_ids, vec!["13800138000".to_string()]);
    assert_eq!(opts.registered_delivery, 1);
    assert_eq!(opts.msg_level, 0);
    assert_eq!(opts.fee_user_type, 2);
    assert_eq!(opts.fee_terminal_id, "");
    assert_eq!(opts.fee_type, "01");
    assert_eq!(opts.fee_code, "000000");
    assert_eq!(opts.tp_pid, 0);
    assert_eq!(opts.valid_time, "");
    assert_eq!(opts.at_time, "");
}

#[test]
fn options_can_be_changed() {
    let opts = options()
        .dest_terminal_ids(vec!["1".to_string(), "2".to_string()])
        .registered_delivery(0)
        .msg_level(3)
        .fee(1, "02", String::from("000100"));
    let submits = opts.build_submits("hi", &mut UdhRefCounter::new());
    let s = &submits[0];
    assert_eq!(s.dest_terminal_ids, vec!["1".to_string(), "2".to_string()]);
    assert_eq!(s.registered_delivery, 0);
    assert_eq!(s.msg_level, 3);
    assert_eq!(s.fee_user_type, 1);
    assert_eq!(s.fee_type, "02");
    assert_eq!(s.fee_code, "000100");
    assert_eq!(s.msg_content, b"hi");
    assert_eq!(s.msg_id, [0u8; 8]);
    assert_eq!(s.msg_src, "901234");
}

#[test]
fn too_many_numbers_or_segments_are_refused() {
    let mut references = UdhRefCounter::new();
    let opts = options().dest_terminal_ids(vec!["1".to_string(); 256]);
    match opts.try_build_submits("hi", &mut references) {
        Err(Error::Config(text)) => assert_eq!(text, "SUBMIT destination 数量超过 255"),
        other => panic!("unexpected {:?}", other),
    }
    match options().try_build_submits(&"x".repeat(134 * 255 + 1), &mut references) {
        Err(Error::Config(text)) => assert_eq!(text, "长短信 segment 数量超过 255"),
        other => panic!("unexpected {:?}", other),
    }
    assert!(opts.build_short_submit("hi", &mut references).is_none());
    assert_eq!(references, UdhRefCounter::new());
}

#[test]
fn only_a_short_text_makes_a_short_submit() {
    let mut references = UdhRefCounter::new();
    let short = options().build_short_submit("hello", &mut references).unwrap();
    assert_eq!(short.msg_content, b"hello");
    assert_eq!(short.tp_udhi, 0);
    assert_eq!(references, UdhRefCounter::new());
    assert!(options()
        .build_short_submit(&"中".repeat(71), &mut references)
        .is_none());
    assert!(references != UdhRefCounter::new());
}

#[test]
fn built_messages_encode_and_carry_the_text() {
    let text = "短信 with a \u{1F600} ".repeat(30);
    let submits = options().build_submits(&text, &mut UdhRefCounter::new());
    let mut joined = String::new();
    for (i, s) in submits.iter().enumerate() {
        assert!(s.try_encode(i as u32).is_ok());
        joined.push_str(&decode_msg_content(s.msg_fmt, s.tp_udhi, &s.msg_content));
    }
    assert_eq!(joined, text);
}
