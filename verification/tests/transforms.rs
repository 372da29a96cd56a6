use nexthop::config::TransformConfig;
use nexthop::stats::Stats;
use nexthop::transforms::{
    apply_pipeline, build_pipeline, ByteSwap16, ByteSwap32, Decision, DropLargerThan,
    DropSmallerThan, Transform,
};

fn dropped_validation(stats: &Stats) -> u64 {
    stats.snapshot(1, 0).dropped_validation
}

#[test]
fn drop_smaller_than_passes_at_threshold() {
    let t = DropSmallerThan { n_bytes: 4 };
    let payload = vec![1u8, 2, 3, 4];
    match t.apply(payload.clone()) {
        Decision::Pass(out) => assert_eq!(out, payload),
        Decision::Drop => panic!("expected Pass at threshold"),
    }
}

#[test]
fn drop_smaller_than_passes_above_threshold() {
    let t = DropSmallerThan { n_bytes: 4 };
    let payload = vec![1u8, 2, 3, 4, 5];
    match t.apply(payload.clone()) {
        Decision::Pass(out) => assert_eq!(out, payload),
        Decision::Drop => panic!("expected Pass above threshold"),
    }
}

#[test]
fn drop_smaller_than_drops_below_threshold() {
    let t = DropSmallerThan { n_bytes: 4 };
    let payload = vec![1u8, 2, 3];
    assert!(matches!(t.apply(payload), Decision::Drop));
}

#[test]
fn apply_pipeline_pass_through_when_empty() {
    let mut stats = Stats::new("test", "", "");
    let payload = vec![1u8, 2, 3];
    let out = apply_pipeline(&[], &mut stats, payload.clone()).unwrap();
    assert_eq!(out, payload);
    assert_eq!(dropped_validation(&stats), 0);
}

#[test]
fn apply_pipeline_short_circuits_on_drop() {
    let mut stats = Stats::new("test", "", "");
    let pipeline = vec![Transform::DropSmallerThan(DropSmallerThan { n_bytes: 10 })];
    let payload = vec![1u8, 2, 3];
    assert!(apply_pipeline(&pipeline, &mut stats, payload).is_none());
    assert_eq!(dropped_validation(&stats), 1);
}

#[test]
fn build_pipeline_constructs_drop_smaller_than() {
    let cfgs = vec![TransformConfig::DropSmallerThan { n_bytes: 8 }];
    let pipeline = build_pipeline(&cfgs);
    assert_eq!(pipeline.len(), 1);
    let mut stats = Stats::new("test", "", "");
    let payload = vec![1u8; 7];
    assert!(apply_pipeline(&pipeline, &mut stats, payload).is_none());
}

#[test]
fn drop_larger_than_passes_at_threshold() {
    let t = DropLargerThan { n_bytes: 4 };
    let payload = vec![1u8, 2, 3, 4];
    match t.apply(payload.clone()) {
        Decision::Pass(out) => assert_eq!(out, payload),
        Decision::Drop => panic!("expected Pass at threshold"),
    }
}

#[test]
fn drop_larger_than_passes_below_threshold() {
    let t = DropLargerThan { n_bytes: 4 };
    let payload = vec![1u8, 2, 3];
    match t.apply(payload.clone()) {
        Decision::Pass(out) => assert_eq!(out, payload),
        Decision::Drop => panic!("expected Pass below threshold"),
    }
}

#[test]
fn drop_larger_than_drops_above_threshold() {
    let t = DropLargerThan { n_bytes: 4 };
    let payload = vec![1u8, 2, 3, 4, 5];
    assert!(matches!(t.apply(payload), Decision::Drop));
}

#[test]
fn build_pipeline_constructs_drop_larger_than() {
    let cfgs = vec![TransformConfig::DropLargerThan { n_bytes: 4 }];
    let pipeline = build_pipeline(&cfgs);
    assert_eq!(pipeline.len(), 1);
    let mut stats = Stats::new("test", "", "");
    let payload = vec![1u8; 5];
    assert!(apply_pipeline(&pipeline, &mut stats, payload).is_none());
}

#[test]
fn byte_swap_16_swaps_each_word() {
    let payload = vec![0xAAu8, 0xBB, 0xCC, 0xDD];
    match ByteSwap16.apply(payload) {
        Decision::Pass(out) => assert_eq!(&out[..], &[0xBB, 0xAA, 0xDD, 0xCC]),
        Decision::Drop => panic!("expected Pass on aligned payload"),
    }
}

#[test]
fn byte_swap_16_drops_odd_length() {
    let payload = vec![0xAAu8, 0xBB, 0xCC];
    assert!(matches!(ByteSwap16.apply(payload), Decision::Drop));
}

#[test]
fn byte_swap_32_swaps_each_word() {
    let payload = vec![0x01u8, 0x02, 0x03, 0x04, 0x05, 0x06, 0x07, 0x08];
    match ByteSwap32.apply(payload) {
        Decision::Pass(out) => {
            assert_eq!(&out[..], &[0x04, 0x03, 0x02, 0x01, 0x08, 0x07, 0x06, 0x05])
        }
        Decision::Drop => panic!("expected Pass on aligned payload"),
    }
}

#[test]
fn byte_swap_32_drops_misaligned_length() {
    let payload = vec![1u8, 2, 3, 4, 5];
    assert!(matches!(ByteSwap32.apply(payload), Decision::Drop));
}

#[test]
fn build_pipeline_constructs_byte_swap_16_and_32() {
    let cfgs = vec![TransformConfig::ByteSwap16, TransformConfig::ByteSwap32];
    let pipeline = build_pipeline(&cfgs);
    assert_eq!(pipeline.len(), 2);
}

// ── Further cases ──────────────────────────────────────────────────

#[test]
fn byte_swap_applied_twice_restores_payload() {
    let payload: Vec<u8> = (0u8..16).collect();
    let once = match ByteSwap32.apply(payload.clone()) {
        Decision::Pass(v) => v,
        Decision::Drop => panic!("aligned payload must pass"),
    };
    assert_ne!(once, payload);
    match ByteSwap32.apply(once) {
        Decision::Pass(v) => assert_eq!(v, payload),
        Decision::Drop => panic!("aligned payload must pass"),
    }
    let once16 = match ByteSwap16.apply(payload.clone()) {
        Decision::Pass(v) => v,
        Decision::Drop => panic!("aligned payload must pass"),
    };
    match ByteSwap16.apply(once16) {
        Decision::Pass(v) => assert_eq!(v, payload),
        Decision::Drop => panic!("aligned payload must pass"),
    }
}

#[test]
fn byte_swap_of_empty_payload_passes_empty() {
    assert_eq!(ByteSwap16.apply(Vec::new()), Decision::Pass(Vec::new()));
    assert_eq!(ByteSwap32.apply(Vec::new()), Decision::Pass(Vec::new()));
}

#[test]
fn pipeline_runs_stages_in_order() {
    let cfgs = vec![
        TransformConfig::DropSmallerThan { n_bytes: 2 },
        TransformConfig::ByteSwap16,
        TransformConfig::DropLargerThan { n_bytes: 4 },
    ];
    let pipeline = build_pipeline(&cfgs);
    let mut stats = Stats::new("d", "", "");
    assert_eq!(
        apply_pipeline(&pipeline, &mut stats, vec![1, 2, 3, 4]),
        Some(vec![2, 1, 4, 3])
    );
    assert_eq!(dropped_validation(&stats), 0);
    // Odd length: the swap stage drops it.
    assert_eq!(apply_pipeline(&pipeline, &mut stats, vec![1, 2, 3]), None);
    // Too long: the last stage drops it.
    assert_eq!(apply_pipeline(&pipeline, &mut stats, vec![0; 6]), None);
    assert_eq!(dropped_validation(&stats), 2);
    assert_eq!(stats.dropped_messages, 2);
}

#[test]
fn concatenated_pipelines_match_running_one_after_the_other() {
    let a = build_pipeline(&[TransformConfig::ByteSwap32]);
    let b = build_pipeline(&[TransformConfig::ByteSwap16]);
    let mut both = a.clone();
    both.extend(b.iter().copied());
    let mut stats = Stats::new("d", "", "");
    let input = vec![1u8, 2, 3, 4];
    let first = apply_pipeline(&a, &mut stats, input.clone()).unwrap();
    let second = apply_pipeline(&b, &mut stats, first).unwrap();
    assert_eq!(apply_pipeline(&both, &mut stats, input), Some(second.clone()));
    assert_eq!(second, vec![3, 4, 1, 2]);
}
