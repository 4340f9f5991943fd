use deep_index_board::capture::{
    image_file_name, calculate_hash, new_image_file_name, rgba_to_png, text_preview, BINARY_PROBE_LEN, PREVIEW_LIMIT,
};
use deep_index_board::monitor::{
    file_follow_up, file_item_type, hash_text, is_new_image, is_new_text, ocr_after_image_capture,
    plan_image_capture, select_embedding_jobs, EmbeddingCandidate, FileFollowUp, ImageCapture,
    scan_wait_ms, ClipboardWatch, ScanWait,
};

fn is_uuid_png_name(n: &str) -> bool {
    let c: Vec<char> = n.chars().collect();
    c.len() == 40
        && n.ends_with(".png")
        && c[8] == '-'
        && c[13] == '-'
        && c[18] == '-'
        && c[23] == '-'
        && c[14] == '4'
        && "89ab".contains(c[19])
        && c[..36].iter().all(|ch| *ch == '-' || ch.is_ascii_digit() || ('a'..='f').contains(ch))
}

#[test]
fn hash_is_lowercase_sha256_hex() {
    assert_eq!(calculate_hash(b"abc"), "ba7816bf8f01cfea414140de5dae2223b00361a396177a9cb410ff61f20015ad");
    assert_eq!(calculate_hash(b""), "e3b0c44298fc1c149afbf4c8996fb92427ae41e4649b934ca495991b7852b855");
    assert_eq!(hash_text("abc"), calculate_hash(b"abc"));
    assert_eq!(hash_text("你好"), calculate_hash("你好".as_bytes()));
}

#[test]
fn new_image_names_are_fresh_uuids() {
    let a = new_image_file_name();
    let b = new_image_file_name();
    assert!(is_uuid_png_name(&a), "{a}");
    assert!(is_uuid_png_name(&b), "{b}");
    assert_ne!(a, b);
}

#[test]
fn bitmaps_become_png() {
    let png = rgba_to_png(2, 2, vec![255; 16]).expect("png");
    assert_eq!(&png[..8], &[0x89, b'P', b'N', b'G', 0x0d, 0x0a, 0x1a, 0x0a]);
    assert!(matches!(plan_image_capture(&png, None), ImageCapture::New { .. }));
}

#[test]
fn short_bitmaps_are_rejected() {
    assert!(rgba_to_png(2, 2, vec![0; 15]).is_none());
    assert!(rgba_to_png(1, 1, vec![]).is_none());
}

#[test]
fn empty_bitmaps_are_rejected() {
    assert!(rgba_to_png(0, 3, vec![]).is_none());
    assert!(rgba_to_png(3, 0, vec![]).is_none());
}

#[test]
fn dimensions_are_cut_to_32_bits() {
    if usize::BITS == 64 {
        let width = ((1u64 << 32) + 1) as usize;
        let png = rgba_to_png(width, 1, vec![7; 4]).expect("a 1 by 1 image");
        assert_eq!(&png[..8], &[0x89, b'P', b'N', b'G', 0x0d, 0x0a, 0x1a, 0x0a]);
    }
}

#[test]
fn garbage_does_not_decode() {
    assert!(matches!(plan_image_capture(b"not an image", None), ImageCapture::Undecodable));
    assert!(matches!(plan_image_capture(b"", None), ImageCapture::Undecodable));
}

#[test]
fn previews_of_text_and_binary() {
    assert_eq!(text_preview(b"hello\nworld"), Some("hello\nworld".to_string()));
    assert_eq!(text_preview(b"a\0b"), None);
    assert_eq!(text_preview(b""), None);
    assert_eq!(text_preview(&[0xff, b'a']), Some("\u{fffd}a".to_string()));
    let mut late_nul = vec![b'x'; BINARY_PROBE_LEN];
    late_nul.push(0);
    assert_eq!(text_preview(&late_nul).map(|s| s.len()), Some(BINARY_PROBE_LEN + 1));
    assert_eq!(PREVIEW_LIMIT, 256 * 1024);
}

#[test]
fn file_records_and_follow_up() {
    assert_eq!(file_item_type(true), "directory");
    assert_eq!(file_item_type(false), "file");
    assert_eq!(file_follow_up("/x/a.JPG", false), FileFollowUp::Ocr);
    assert_eq!(file_follow_up("/x/a.md", false), FileFollowUp::TextPreview);
    assert_eq!(file_follow_up("/x/a.md", true), FileFollowUp::Nothing);
    assert_eq!(file_follow_up("/x/a.bin", false), FileFollowUp::Nothing);
}

#[test]
fn only_changed_content_is_recorded() {
    assert!(!is_new_text("same", "same"));
    assert!(!is_new_text("old", ""));
    assert!(is_new_text("old", "new"));
    assert!(is_new_text("", "first"));
    assert!(!is_new_image("h1", "h1"));
    assert!(is_new_image("h1", "h2"));
}

#[test]
fn image_capture_plans() {
    let png = rgba_to_png(1, 1, vec![1, 2, 3, 255]).unwrap();
    match plan_image_capture(&png, Some("/img/old.png".to_string())) {
        ImageCapture::Known { path } => assert_eq!(path, "/img/old.png"),
        _ => panic!("expected a known image"),
    }
    match plan_image_capture(&png, None) {
        ImageCapture::New { file_name, image } => {
            assert!(is_uuid_png_name(&file_name));
            assert_eq!((image.width, image.height, image.channels, image.bytes_per_pixel), (1, 1, 4, 4));
            assert_eq!(image.pixels, vec![1, 2, 3, 255]);
        }
        _ => panic!("expected a new image"),
    }
    assert!(matches!(plan_image_capture(b"xx", None), ImageCapture::Undecodable));
    assert!(ocr_after_image_capture(false, true));
    assert!(ocr_after_image_capture(true, false));
    assert!(!ocr_after_image_capture(true, true));
}

fn cand(id: i64, db_mtime: i64, has_vec: bool) -> EmbeddingCandidate {
    EmbeddingCandidate { id, content: format!("/img/{id}.png"), db_mtime, has_vec }
}

#[test]
fn stale_or_missing_embeddings_are_selected() {
    let cands = vec![cand(1, 10, true), cand(2, 10, true), cand(3, 10, false), cand(4, 10, false)];
    let disk = vec![Some(10), Some(11), Some(5), None];
    let jobs = select_embedding_jobs(&cands, &disk);
    let got: Vec<(i64, String, i64)> = jobs.into_iter().map(|j| (j.id, j.content, j.disk_mtime)).collect();
    assert_eq!(got, vec![(2, "/img/2.png".to_string(), 11), (3, "/img/3.png".to_string(), 5)]);
}

#[test]
fn embedded_items_are_not_selected_again() {
    let cands = vec![cand(2, 11, true), cand(3, 5, true)];
    assert!(select_embedding_jobs(&cands, &vec![Some(11), Some(5)]).is_empty());
}

#[test]
fn image_names_from_identifiers() {
    assert_eq!(image_file_name("0a1b"), "0a1b.png");
    assert_eq!(image_file_name(""), ".png");
}

#[test]
fn same_png_for_same_pixels() {
    let a = rgba_to_png(2, 1, vec![1, 2, 3, 4, 5, 6, 7, 8]).unwrap();
    let b = rgba_to_png(2, 1, vec![1, 2, 3, 4, 5, 6, 7, 8]).unwrap();
    let t = rgba_to_png(1, 2, vec![1, 2, 3, 4, 5, 6, 7, 8]).unwrap();
    assert_eq!(a, b);
    assert_ne!(a, t);
}

#[test]
fn unchanged_clipboard_is_recorded_once() {
    let mut w = ClipboardWatch::new();
    assert!(!w.text_changed(""));
    assert!(w.text_changed("hello"));
    assert!(!w.text_changed("hello"));
    assert!(!w.text_changed("hello"));
    assert!(!w.text_changed(""));
    assert!(!w.text_changed("hello"));
    assert!(w.text_changed("world"));
    assert_eq!(w.last_text, "world");
    assert!(w.image_changed("h1"));
    assert!(!w.image_changed("h1"));
    assert!(w.image_changed("h2"));
    assert_eq!(w.last_text, "world");
}

#[test]
fn scan_waits() {
    assert_eq!(scan_wait_ms(ScanWait::NothingToDo), 30_000);
    assert_eq!(scan_wait_ms(ScanWait::BetweenJobs), 1_000);
    assert_eq!(scan_wait_ms(ScanWait::RoundDone), 10_000);
    assert_eq!(scan_wait_ms(ScanWait::ModelMissing), 30_000);
    assert_eq!(scan_wait_ms(ScanWait::QueryFailed), 10_000);
    assert_eq!(scan_wait_ms(ScanWait::DatabaseUnavailable), 1_000);
}

#[test]
fn polls_record_each_change_once() {
    let mut w = ClipboardWatch::new();
    let polls = ["a", "a", "", "b", "b", "a", "", "a"];
    let recorded: Vec<bool> = polls.iter().map(|t| w.text_changed(t)).collect();
    assert_eq!(recorded, vec![true, false, false, true, false, true, false, false]);
}
