use marcel_ssh::{
    check_segment_length, download_ranges, parse_content_range_total, plan_segments,
    retry_delay_ms, RetryStep, SegmentRetry, SegmentedDownload, MAX_SEGMENTS, SEGMENT_ATTEMPTS,
};

fn assert_covers_exactly(ranges: &[(u64, u64)], total: u64) {
    assert!(!ranges.is_empty());
    assert_eq!(ranges[0].0, 0);
    assert_eq!(ranges.last().unwrap().1, total - 1);
    for (i, (start, end)) in ranges.iter().enumerate() {
        assert!(start <= end);
        if i > 0 {
            assert_eq!(ranges[i - 1].1 + 1, *start);
        }
    }
}

#[test]
fn plan_segments_covers_every_byte_without_overlap() {
    let ranges = plan_segments(9_748_248, MAX_SEGMENTS);
    assert_eq!(ranges.len(), MAX_SEGMENTS);
    assert_covers_exactly(&ranges, 9_748_248);
    let ranges = plan_segments(26_337_407, MAX_SEGMENTS);
    assert_eq!(ranges.len(), MAX_SEGMENTS);
    assert_covers_exactly(&ranges, 26_337_407);

    for total in [1_048_577u64, 8_000_000, 262_144, 300_000] {
        let ranges = plan_segments(total, MAX_SEGMENTS);
        assert_covers_exactly(&ranges, total);
    }
}

#[test]
fn plan_segments_handles_uneven_split() {
    let ranges = plan_segments(1000 * 1024, 3);
    assert_eq!(ranges.len(), 3);
    assert_covers_exactly(&ranges, 1000 * 1024);
}

#[test]
fn plan_segments_keeps_small_files_single() {
    assert_eq!(plan_segments(64 * 1024, MAX_SEGMENTS), vec![(0, 64 * 1024 - 1)]);
    assert_eq!(plan_segments(1, MAX_SEGMENTS), vec![(0, 0)]);
    assert!(plan_segments(0, MAX_SEGMENTS).is_empty());
}

#[test]
fn plan_segments_respects_segment_floor() {
    assert_eq!(plan_segments(1024 * 1024, MAX_SEGMENTS).len(), 4);
}

#[test]
fn parse_content_range_total_reads_size() {
    assert_eq!(parse_content_range_total("bytes 0-0/9748248"), Some(9_748_248));
    assert_eq!(parse_content_range_total("bytes 0-0/*"), None);
    assert_eq!(parse_content_range_total("garbage"), None);
}

#[test]
fn content_range_total_edge_cases() {
    assert_eq!(parse_content_range_total("bytes 0-0/ 12 "), Some(12));
    assert_eq!(parse_content_range_total("bytes 0-0/+7"), Some(7));
    assert_eq!(parse_content_range_total("bytes 0-0/18446744073709551615"), Some(u64::MAX));
    assert_eq!(parse_content_range_total("bytes 0-0/18446744073709551616"), None);
    assert_eq!(parse_content_range_total("bytes 0-0/-1"), None);
    assert_eq!(parse_content_range_total("42"), Some(42));
}

#[test]
fn uneven_split_gives_extra_bytes_to_first_segments() {
    let ranges = plan_segments(1000 * 1024, 3);
    assert_eq!(ranges, vec![(0, 341333), (341334, 682666), (682667, 1023999)]);
    assert_eq!(plan_segments(300_000, 0), vec![(0, 299_999)]);
}

#[test]
fn ranges_follow_range_support() {
    assert_eq!(download_ranges(10, false), vec![(0, 9)]);
    assert_eq!(download_ranges(1024 * 1024, true).len(), 4);
}

#[test]
fn segment_length_is_checked() {
    assert!(check_segment_length(Some((0, 9)), 10).is_ok());
    assert_eq!(
        check_segment_length(Some((10, 19)), 4),
        Err("分段长度不足（期望 10 字节，实收 4）".to_string())
    );
    assert!(check_segment_length(None, 3).is_ok());
}

#[test]
fn sizes_and_sources_of_a_download() {
    let dl = SegmentedDownload {
        urls: vec!["a".into(), "b".into(), "a".into(), "c".into()],
        part_path: "/tmp/x.part".into(),
        expected_size: 77,
    };
    assert_eq!(dl.total_size(5), Ok(5));
    assert_eq!(dl.total_size(0), Ok(77));
    assert_eq!(dl.sources(&"a".to_string()), vec!["a", "b", "c"]);
    assert_eq!(dl.sources(&"c".to_string()), vec!["c", "a", "b", "a"]);
    let unknown = SegmentedDownload { urls: vec![], part_path: String::new(), expected_size: 0 };
    assert_eq!(unknown.total_size(0), Err("更新包大小未知".to_string()));
    assert_eq!(retry_delay_ms(0), 300);
    assert_eq!(retry_delay_ms(2), 900);
}

#[test]
fn segment_tries_each_source_three_times_in_order() {
    let mut r = SegmentRetry::new(2, 2);
    let mut seen = Vec::new();
    let mut delays = Vec::new();
    loop {
        match r.next_step() {
            RetryStep::Fetch { source, attempt } => {
                seen.push((source, attempt));
                delays.push(r.record_failure("超时"));
            }
            RetryStep::GiveUp(m) => {
                assert_eq!(m, "第 3 段: 超时");
                break;
            }
        }
    }
    assert_eq!(seen, vec![(0, 0), (0, 1), (0, 2), (1, 0), (1, 1), (1, 2)]);
    assert_eq!(delays, vec![300, 600, 900, 300, 600, 900]);
    assert_eq!(r.tries, 2 * SEGMENT_ATTEMPTS);
}

#[test]
fn segment_without_sources_gives_up_at_once() {
    let r = SegmentRetry::new(0, 0);
    assert_eq!(r.next_step(), RetryStep::GiveUp("未知错误".to_string()));
}

#[test]
fn last_failure_message_is_kept() {
    let mut r = SegmentRetry::new(0, 1);
    r.record_failure("a");
    r.record_failure("b");
    assert_eq!(r.last_error, "第 1 段: b");
    assert_eq!(r.next_step(), RetryStep::Fetch { source: 0, attempt: 2 });
    r.record_failure("c");
    assert_eq!(r.next_step(), RetryStep::GiveUp("第 1 段: c".to_string()));
}
