use deep_index_board::paths::{
    components_of, extension_of, extension_of_name, file_name_of, is_image_file, is_text_file, join,
    join_parts, with_separator, ocr_model_files, ocr_root_candidates, onnxruntime_dll_candidates, starts_with_path,
    DET_DIR, REC_DIR,
};
use deep_index_board::text::{
    chars_equal, chars_of, copy_range, debug_list_chars, decimal_chars, equals_any, extend_chars,
    extend_str, has_prefix, lowercase_vec, replace_char_vec, split_lines, trim_chars, trim_start_chars,
    trim_str,
};

fn s(v: &[char]) -> String {
    v.iter().collect()
}

fn cv(x: &str) -> Vec<char> {
    x.chars().collect()
}

#[test]
fn chars_and_ranges() {
    assert_eq!(chars_of("héllo"), cv("héllo"));
    assert_eq!(s(&copy_range(&cv("abcdef"), 1, 4)), "bcd");
    assert_eq!(s(&copy_range(&cv("abc"), 3, 3)), "");
}

#[test]
fn trimming_matches_str_trim() {
    assert_eq!(trim_str("  x y \n"), "x y");
    assert_eq!(trim_str("\u{3000}全角\u{3000}"), "全角");
    assert_eq!(s(&trim_chars(&cv("\t\n"))), "");
    assert_eq!(s(&trim_start_chars(&cv("  a b "))), "a b ");
}

#[test]
fn lines_split_like_str_lines() {
    let lines = split_lines(&cv("a\r\nb\n\nc\n"));
    let got: Vec<String> = lines.iter().map(|l| s(l)).collect();
    assert_eq!(got, vec!["a", "b", "", "c"]);
    assert_eq!(split_lines(&cv("")).len(), 0);
    let last: Vec<String> = split_lines(&cv("x\ny")).iter().map(|l| s(l)).collect();
    assert_eq!(last, vec!["x", "y"]);
}

#[test]
fn small_character_helpers() {
    assert!(has_prefix(&cv("prefix-rest"), &cv("prefix")));
    assert!(!has_prefix(&cv("pre"), &cv("prefix")));
    assert!(chars_equal(&cv("abc"), &cv("abc")));
    assert!(!chars_equal(&cv("abc"), &cv("abd")));
    assert_eq!(s(&lowercase_vec(&cv("AbC-Z"))), "abc-z");
    assert!(equals_any(&cv("jpg"), &vec!["png", "jpg"]));
    assert!(!equals_any(&cv("gif"), &vec!["png", "jpg"]));
    assert_eq!(s(&replace_char_vec(&cv("a\"b\""), '"', ' ')), "a b ");
    let mut v = cv("ab");
    extend_chars(&mut v, &cv("cd"));
    extend_str(&mut v, "ef");
    assert_eq!(s(&v), "abcdef");
}

#[test]
fn numbers_format_like_debug() {
    assert_eq!(s(&decimal_chars(0)), "0");
    assert_eq!(s(&decimal_chars(120)), "120");
    assert_eq!(s(&debug_list_chars(&[])), "[]");
    assert_eq!(s(&debug_list_chars(&[1, 3, 960])), "[1, 3, 960]");
}

#[test]
fn path_components_and_names() {
    let comps: Vec<String> = components_of(&cv("/a//b/./c/")).iter().map(|c| s(c)).collect();
    assert_eq!(comps, vec!["/", "a", "b", "c"]);
    let rel: Vec<String> = components_of(&cv("./x/../y")).iter().map(|c| s(c)).collect();
    assert_eq!(rel, vec![".", "x", "..", "y"]);
    assert_eq!(file_name_of(&cv("/tmp/photo.png")).map(|v| s(&v)), Some("photo.png".to_string()));
    assert_eq!(file_name_of(&cv("/tmp/..")), None);
    assert_eq!(file_name_of(&cv("/")), None);
    assert_eq!(extension_of_name(&cv("archive.tar.gz")).map(|v| s(&v)), Some("gz".to_string()));
    assert_eq!(extension_of_name(&cv(".bashrc")), None);
    assert_eq!(extension_of(&cv("/a/b.c/readme")), None);
    assert_eq!(extension_of(&cv("/a/b/x.")).map(|v| s(&v)), Some("".to_string()));
}

#[test]
fn image_and_text_files_by_extension() {
    assert!(is_image_file("/Users/me/Desktop/Photo.PNG"));
    assert!(is_image_file("shot.heic"));
    assert!(!is_image_file("/a/.png"));
    assert!(!is_image_file("/a/png"));
    assert!(is_text_file("notes.MD"));
    assert!(is_text_file("/src/main.rs"));
    assert!(!is_text_file("/bin/tool"));
    assert!(!is_text_file("image.jpeg"));
}

#[test]
fn starts_with_compares_whole_components() {
    assert!(starts_with_path("/data/images/a.png", "/data/images"));
    assert!(starts_with_path("/data/images/a.png", "/data/images/"));
    assert!(!starts_with_path("/data/images2/a.png", "/data/images"));
    assert!(!starts_with_path("data/images/a.png", "/data/images"));
    assert!(starts_with_path("/x", "/x"));
}

#[test]
fn joining_paths() {
    assert_eq!(join("a", "b"), "a/b");
    assert_eq!(join("a/", "b"), "a/b");
    assert_eq!(join("", "b"), "b");
    assert_eq!(join_parts("/root", &vec!["x", "y", "z.txt"]), "/root/x/y/z.txt");
    assert_eq!(join_parts("/root", &vec![]), "/root");
}

#[test]
fn joined_name_stays_inside_base() {
    let base = "/data/images";
    let joined = join(base, "0a1b.png");
    assert!(starts_with_path(&joined, base));
    assert!(starts_with_path(base, base));
}

#[test]
fn onnxruntime_search_order() {
    let c = onnxruntime_dll_candidates(Some("/exe"), Some("/cwd"));
    assert_eq!(c.len(), 10);
    assert_eq!(c[0], "/exe/onnxruntime.dll");
    assert_eq!(c[1], "/exe/deps/onnxruntime.dll");
    assert_eq!(c[2], "/exe/resources/native/onnxruntime/onnxruntime.dll");
    assert_eq!(c[3], "/cwd/onnxruntime.dll");
    assert_eq!(c[4], "/cwd/target/debug/onnxruntime.dll");
    assert_eq!(c[9], "/cwd/src-tauri/resources/native/onnxruntime/onnxruntime.dll");
    assert_eq!(onnxruntime_dll_candidates(None, Some("/w")).len(), 7);
    assert_eq!(onnxruntime_dll_candidates(Some("/e"), None).len(), 3);
    assert!(onnxruntime_dll_candidates(None, None).is_empty());
}

#[test]
fn ocr_model_locations() {
    let (det, rec, cfg) = ocr_model_files("/m");
    assert_eq!(det, format!("/m/{}/inference.onnx", DET_DIR));
    assert_eq!(rec, "/m/PP-OCRv6_medium_rec_onnx/inference.onnx");
    assert_eq!(cfg, format!("/m/{}/inference.yml", REC_DIR));
    let roots = ocr_root_candidates("/work");
    assert_eq!(roots, vec!["/work/src-tauri/resources/models/ocr", "/work/resources/models/ocr"]);
}

#[test]
fn windows_paths_read_with_slashes() {
    let unix = with_separator("C:\\data\\images", '\\', '/');
    assert_eq!(unix, "C:/data/images");
    let joined = join(&unix, "a.png");
    assert_eq!(with_separator(&joined, '/', '\\'), "C:\\data\\images\\a.png");
    assert!(starts_with_path(&joined, &unix));
}
