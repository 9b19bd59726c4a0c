use diff_core::contents::{assemble_chunks, batch_item, decode_file_side, file_display_name, saturating_u32, worker_ranges, FileSideContent};
use diff_core::types::BackendError;

#[test]
fn sides_decode_text_or_binary() {
    let s = decode_file_side("héllo".as_bytes());
    assert_eq!(s.content.as_deref(), Some("héllo"));
    assert!(!s.is_binary);
    let b = decode_file_side(&[0xff, 0xfe, 0x00]);
    assert!(b.content.is_none());
    assert!(b.is_binary);
    let a = FileSideContent::absent();
    assert!(a.content.is_none() && !a.is_binary);
}

#[test]
fn display_names() {
    assert_eq!(file_display_name("src/main.rs"), "main.rs");
    assert_eq!(file_display_name("dir/"), "dir");
    assert_eq!(file_display_name("a/.."), "a/..");
    assert_eq!(file_display_name(""), "");
}

#[test]
fn batch_items() {
    let ok = batch_item(
        "a.txt".into(),
        "a.txt".into(),
        Ok(FileSideContent::absent()),
        Ok(decode_file_side(b"hi")),
    );
    let r = ok.response.unwrap();
    assert!(ok.error.is_none());
    assert_eq!(r.new_content.as_deref(), Some("hi"));
    assert!(r.old_content.is_none());
    let both_bad = batch_item(
        "x".into(),
        "x".into(),
        Err(BackendError::Git("old".into())),
        Err(BackendError::Io("new".into())),
    );
    assert!(both_bad.response.is_none());
    assert_eq!(both_bad.error.as_deref(), Some("git error: old"));
    let new_bad = batch_item("x".into(), "x".into(), Ok(FileSideContent::absent()), Err(BackendError::Io("new".into())));
    assert_eq!(new_bad.error.as_deref(), Some("io error: new"));
}

#[test]
fn ranges_cover_every_item_once() {
    assert!(worker_ranges(0, Some(8)).is_empty());
    assert_eq!(worker_ranges(10, Some(4)), vec![(0, 3), (3, 6), (6, 9), (9, 10)]);
    assert_eq!(worker_ranges(3, None), vec![(0, 1), (1, 2), (2, 3)]);
    assert_eq!(worker_ranges(100, Some(64)), vec![(0, 13), (13, 26), (26, 39), (39, 52), (52, 65), (65, 78), (78, 91), (91, 100)]);
    for total in 1..60usize {
        for par in [None, Some(1), Some(3), Some(8), Some(16)] {
            let r = worker_ranges(total, par);
            assert_eq!(r[0].0, 0);
            assert_eq!(r.last().unwrap().1, total);
            assert!(r.len() <= 8);
            for w in r.windows(2) {
                assert_eq!(w[0].1, w[1].0);
            }
        }
    }
}

#[test]
fn line_counts_saturate() {
    assert_eq!(saturating_u32(5), 5);
    assert_eq!(saturating_u32(usize::MAX), u32::MAX);
}

#[test]
fn batches_come_back_one_item_per_request_in_order() {
    let requests: Vec<String> = (0..11).map(|i| format!("file{i}.txt")).collect();
    for par in [None, Some(1), Some(2), Some(5), Some(8)] {
        let ranges = worker_ranges(requests.len(), par);
        let parts: Vec<Vec<String>> = ranges.iter().map(|&(s, e)| requests[s..e].to_vec()).collect();
        assert_eq!(assemble_chunks(parts), requests);
    }
    let none: Vec<Vec<u8>> = Vec::new();
    assert!(assemble_chunks(none).is_empty());
}
