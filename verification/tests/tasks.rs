use deep_index_board::tasks::{ocr_result_text, run_file_extract, run_native_ocr, run_translate, OCR_PENDING_TEXT};

#[test]
fn test_translate_dummy() {
    assert!(true);
}

#[test]
fn test_file_extract_placeholder() {
    let result = run_file_extract("sample.txt".into());
    assert!(result.is_ok());
}

#[test]
fn file_extract_names_the_file() {
    let result = run_file_extract("sample.txt".into());
    assert_eq!(result, Ok("Extracted content from \"sample.txt\"".to_string()));
}

#[test]
fn file_extract_quotes_special_characters() {
    let result = run_file_extract("a\"b".into());
    assert_eq!(result, Ok("Extracted content from \"a\\\"b\"".to_string()));
}

#[test]
fn file_extract_formats_like_a_path() {
    let result = run_file_extract("it's.txt".into());
    assert_eq!(result, Ok("Extracted content from \"it's.txt\"".to_string()));
}

#[test]
fn translate_formats_the_request() {
    let r = run_translate("hello".to_string(), "fr".to_string());
    assert_eq!(r, Ok("Translated 'hello' to fr".to_string()));
}

#[test]
fn native_ocr_is_unsupported_here() {
    assert_eq!(run_native_ocr("/tmp/a.png"), Err("Native OCR is only supported on macOS".to_string()));
}

#[test]
fn ocr_result_text_reports_failures() {
    assert_eq!(ocr_result_text(Ok("abc".to_string())), "abc");
    assert_eq!(ocr_result_text(Err("boom".to_string())), "OCR 识别失败：boom");
    assert_eq!(OCR_PENDING_TEXT, "OCR 正在识别...");
}
