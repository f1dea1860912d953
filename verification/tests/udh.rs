use cmppprotocol::connection::message::{
    assign_reference, preferred_reference, prepare_submits, prepare_with_buckets,
};
use cmppprotocol::connection::udh::{
    bucket_ids_of, normalize_udh_address, UdhReferencePool, UDH_REFERENCE_BUCKET_COUNT,
};
use cmppprotocol::encoding::UdhRefCounter;
use cmppprotocol::{Error, SubmitOptions};

fn options() -> SubmitOptions {
    SubmitOptions::new("SVC", "901234", "10690001", "13800138000")
}

#[test]
fn addresses_are_cut_and_filled() {
    let mut expected = [0u8; 21];
    expected[..5].copy_from_slice(b"10690");
    assert_eq!(normalize_udh_address("10690"), expected);
    assert_eq!(
        normalize_udh_address("0123456789012345678901234"),
        *b"012345678901234567890"
    );
}

#[test]
fn buckets_are_sorted_and_distinct() {
    assert_eq!(
        bucket_ids_of(&vec![4096 + 7, 3, 7, u64::MAX, 3]),
        vec![3, 7, 4095]
    );
    assert!(bucket_ids_of(&Vec::new()).is_empty());
}

#[test]
fn the_same_numbers_fall_into_the_same_buckets() {
    let pool = UdhReferencePool::new();
    let destinations: Vec<String> = vec!["1".into(), "2".into(), "1".into()];
    let ids = pool.bucket_ids("10690001", &destinations);
    assert_eq!(ids, pool.bucket_ids("10690001", &destinations));
    assert!(!ids.is_empty() && ids.len() <= 2);
    assert!(ids.iter().all(|&id| id < UDH_REFERENCE_BUCKET_COUNT));
    assert!(ids.windows(2).all(|w| w[0] < w[1]));
    assert_eq!(pool.bucket_ids("10690001", &Vec::new()).len(), 1);
    let spread: Vec<Vec<usize>> = (0..20)
        .map(|i| pool.bucket_ids("10690001", &vec![format!("1380013800{}", i)]))
        .collect();
    assert!(spread.iter().any(|ids| *ids != spread[0]));
}

#[test]
fn a_reference_in_use_is_not_acquired_again() {
    let mut pool = UdhReferencePool::new();
    let first = pool.try_acquire(vec![1, 2], 250, 10, 0).unwrap();
    let second = pool.try_acquire(vec![2, 3], 250, 10, 0).unwrap();
    let apart = pool.try_acquire(vec![5], 250, 10, 0).unwrap();
    assert_eq!(first.reference(), 250);
    assert_eq!(second.reference(), 251);
    assert_eq!(apart.reference(), 250);
    assert!(pool.holds(&first));
}

#[test]
fn references_roll_over_and_run_out() {
    let mut pool = UdhReferencePool::new();
    let mut seen = Vec::new();
    for _ in 0..256 {
        seen.push(pool.try_acquire(vec![9], 254, 10, 0).unwrap().reference());
    }
    assert_eq!(&seen[..4], &[254, 255, 0, 1]);
    assert!(pool.try_acquire(vec![9], 0, 10, 0).is_none());
    assert!(pool.try_acquire(vec![8, 9], 0, 10, 0).is_none());
    assert!(pool.try_acquire(vec![8], 0, 10, 0).is_some());
}

#[test]
fn a_reference_that_went_on_air_cools_down() {
    let mut pool = UdhReferencePool::new();
    let mut lease = pool.try_acquire(vec![1], 7, 100, 0).unwrap();
    lease.mark_exposed();
    pool.release(lease, 50);
    let early = pool.try_acquire(vec![1], 7, 100, 149).unwrap();
    assert_eq!(early.reference(), 8);
    let late = pool.try_acquire(vec![1], 7, 100, 150).unwrap();
    assert_eq!(late.reference(), 7);
}

#[test]
fn a_reference_that_did_not_go_on_air_is_free_at_once() {
    let mut pool = UdhReferencePool::new();
    let lease = pool.try_acquire(vec![1], 7, 100, 0).unwrap();
    assert!(pool.holds(&lease));
    pool.release(lease, 50);
    assert_eq!(pool.try_acquire(vec![1], 7, 100, 50).unwrap().reference(), 7);
}

#[test]
fn long_messages_are_put_under_a_free_reference() {
    let mut pool = UdhReferencePool::new();
    let mut references = UdhRefCounter::new();
    let text = "中".repeat(100);
    let taken = pool.try_acquire(vec![4], 0, 10, 0).unwrap();
    assert_eq!(taken.reference(), 0);
    let (submits, lease) =
        prepare_with_buckets(&options(), &text, &mut references, &mut pool, vec![4], 10, 0)
            .unwrap();
    assert_eq!(lease.unwrap().reference(), 1);
    for (i, s) in submits.iter().enumerate() {
        assert_eq!(
            &s.msg_content[..6],
            &[5, 0, 3, 1, submits.len() as u8, i as u8 + 1]
        );
    }
}

#[test]
fn short_messages_need_no_reference() {
    let mut pool = UdhReferencePool::new();
    let mut references = UdhRefCounter::new();
    let (submits, lease) =
        prepare_submits(&options(), "hi", &mut references, &mut pool, 10, 0).unwrap();
    assert_eq!(submits.len(), 1);
    assert!(lease.is_none());
    assert_eq!(submits[0].msg_content, b"hi");
}

#[test]
fn messages_between_the_same_numbers_do_not_share_a_reference() {
    let mut pool = UdhReferencePool::new();
    let text = "x".repeat(200);
    let mut held = Vec::new();
    for _ in 0..256 {
        let (submits, lease) = prepare_submits(
            &options(),
            &text,
            &mut UdhRefCounter::new(),
            &mut pool,
            10,
            0,
        )
        .unwrap();
        let lease = lease.unwrap();
        assert_eq!(submits[0].msg_content[3], lease.reference());
        assert!(!held.contains(&lease.reference()));
        held.push(lease.reference());
    }
    match prepare_submits(
        &options(),
        &text,
        &mut UdhRefCounter::new(),
        &mut pool,
        10,
        0,
    ) {
        Err(Error::Config(message)) => {
            assert_eq!(message, "同一短信重组域的 8-bit UDH reference 已全部占用")
        }
        other => panic!("unexpected {:?}", other),
    }
}

#[test]
fn a_header_without_a_reference_is_refused() {
    let mut submits = options().build_submits("abc", &mut UdhRefCounter::new());
    match preferred_reference(&submits) {
        Err(Error::Config(text)) => assert_eq!(text, "long SMS UDH 无效"),
        other => panic!("unexpected {:?}", other),
    }
    assert!(assign_reference(&mut submits, 9).is_err());
    assert_eq!(submits[0].msg_content, b"abc");
    submits[0].msg_content = vec![5, 0, 3, 77, 2, 1];
    assert_eq!(preferred_reference(&submits).unwrap(), 77);
    assign_reference(&mut submits, 9).unwrap();
    assert_eq!(submits[0].msg_content, vec![5, 0, 3, 9, 2, 1]);
}

#[test]
fn the_same_number_elsewhere_is_given_up_without_effect() {
    let mut pool = UdhReferencePool::new();
    let here = pool.try_acquire(vec![1], 7, 100, 0).unwrap();
    let mut elsewhere = pool.try_acquire(vec![2], 7, 100, 0).unwrap();
    assert_eq!(elsewhere.reference(), here.reference());
    elsewhere.mark_exposed();
    pool.release(elsewhere, 10);
    assert!(pool.holds(&here));
    assert_eq!(pool.try_acquire(vec![1], 7, 100, 200).unwrap().reference(), 8);
}
