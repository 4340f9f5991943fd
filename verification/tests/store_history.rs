use deep_index_board::monitor::EmbeddingJob;
use deep_index_board::history::{
    greet, is_blank_query, is_owned_image_path, paste_action, paste_text, require_content,
    should_remove_image_file, HistoryItem, PasteAction,
};
use deep_index_board::store::{
    clear_all_history_statements, clear_content_text_statement, delete_vector_statement, history_statement,
    id_by_hash_statement, item_by_hash_statement, item_by_id_statement, path_by_hash_statement,
    semantic_statement, update_content_text_statement, update_mtime_statement, upsert_item_statement,
    upsert_vector_statements, SqlValue, Statement, DELETE_ALL_ITEMS_SQL, DELETE_ALL_VECTORS_SQL,
    DELETE_VECTOR_SQL, HISTORY_BEFORE_SQL, HISTORY_MATCH_SQL, HISTORY_ORDER_SQL, HISTORY_SELECT_SQL,
    ID_BY_HASH_SQL, INSERT_VECTOR_SQL, ITEM_BY_HASH_SQL, ITEM_BY_ID_SQL, PATH_BY_HASH_SQL, SEMANTIC_SQL,
    SEMANTIC_FAVORITE_SQL, SEMANTIC_ORDER_SQL, HISTORY_FAVORITE_SQL, SET_FAVORITE_SQL, UNFAVORITE_ALL_SQL,
    DELETE_ITEM_SQL, OVERWRITE_TEXT_SQL, CLEARABLE_IMAGES_SQL, CLEAR_SECTION_VECTORS_SQL, CLEAR_SECTION_ITEMS_SQL,
    set_favorite_statement, unfavorite_all_statement, delete_item_statements, overwrite_text_statement,
    clearable_images_statement, clear_history_statements, embedding_write_back_statements,
    UPDATE_CONTENT_TEXT_SQL, UPDATE_MTIME_SQL, UPSERT_ITEM_SQL, CLEAR_CONTENT_TEXT_SQL,
};

fn text_param(v: &SqlValue) -> Option<&str> {
    match v {
        SqlValue::Text(s) => Some(s.as_str()),
        _ => None,
    }
}

fn int_param(v: &SqlValue) -> Option<i64> {
    match v {
        SqlValue::Integer(i) => Some(*i),
        _ => None,
    }
}

fn one_int(s: &Statement, sql: &str, id: i64) {
    assert_eq!(s.sql, sql);
    assert_eq!(s.params.len(), 1);
    assert_eq!(int_param(&s.params[0]), Some(id));
}

#[test]
fn upsert_binds_all_columns() {
    let s = upsert_item_statement("hello", "text", "h", 0, Some("Safari"));
    assert_eq!(s.sql, UPSERT_ITEM_SQL);
    assert_eq!(s.params.len(), 5);
    assert_eq!(text_param(&s.params[0]), Some("hello"));
    assert_eq!(text_param(&s.params[1]), Some("text"));
    assert_eq!(text_param(&s.params[2]), Some("h"));
    assert_eq!(int_param(&s.params[3]), Some(0));
    assert_eq!(text_param(&s.params[4]), Some("Safari"));
    let s = upsert_item_statement("/a.png", "image", "h2", 7, None);
    assert!(matches!(s.params[4], SqlValue::Null));
    assert_eq!(int_param(&s.params[3]), Some(7));
}

#[test]
fn single_row_statements() {
    let s = update_content_text_statement("/a.png", "OCR text");
    assert_eq!(s.sql, UPDATE_CONTENT_TEXT_SQL);
    assert_eq!(text_param(&s.params[0]), Some("OCR text"));
    assert_eq!(text_param(&s.params[1]), Some("/a.png"));
    one_int(&delete_vector_statement(4), DELETE_VECTOR_SQL, 4);
    one_int(&clear_content_text_statement(5), CLEAR_CONTENT_TEXT_SQL, 5);
    one_int(&item_by_id_statement(6), ITEM_BY_ID_SQL, 6);
    let m = update_mtime_statement(99, 3);
    assert_eq!(m.sql, UPDATE_MTIME_SQL);
    assert_eq!((int_param(&m.params[0]), int_param(&m.params[1])), (Some(99), Some(3)));
    for (st, sql) in [
        (id_by_hash_statement("hh"), ID_BY_HASH_SQL),
        (item_by_hash_statement("hh"), ITEM_BY_HASH_SQL),
        (path_by_hash_statement("hh"), PATH_BY_HASH_SQL),
    ] {
        assert_eq!(st.sql, sql);
        assert_eq!(st.params.len(), 1);
        assert_eq!(text_param(&st.params[0]), Some("hh"));
    }
}

#[test]
fn vector_statements() {
    let (d, i) = upsert_vector_statements(8, vec![1, 2, 3, 4]);
    one_int(&d, DELETE_VECTOR_SQL, 8);
    assert_eq!(i.sql, INSERT_VECTOR_SQL);
    assert_eq!(int_param(&i.params[0]), Some(8));
    assert!(matches!(&i.params[1], SqlValue::Blob(b) if b == &vec![1, 2, 3, 4]));
    let s = semantic_statement(vec![0, 0, 128, 63], 10, None);
    assert_eq!(s.sql, format!("{SEMANTIC_SQL}{SEMANTIC_ORDER_SQL}"));
    assert_eq!(s.params.len(), 2);
    assert!(matches!(&s.params[0], SqlValue::Blob(b) if b == &vec![0, 0, 128, 63]));
    assert_eq!(int_param(&s.params[1]), Some(10));
    let (a, b) = clear_all_history_statements();
    assert_eq!((a.sql.as_str(), b.sql.as_str()), (DELETE_ALL_VECTORS_SQL, DELETE_ALL_ITEMS_SQL));
    assert!(a.params.is_empty() && b.params.is_empty());
}

#[test]
fn plain_history_page() {
    let s = history_statement(None, 20, None, None);
    assert_eq!(s.sql, format!("{HISTORY_SELECT_SQL}{HISTORY_ORDER_SQL}"));
    assert_eq!(s.params.len(), 1);
    assert_eq!(int_param(&s.params[0]), Some(20));
    let e = history_statement(None, 20, Some(String::new()), None);
    assert_eq!(e.sql, s.sql);
}

#[test]
fn searched_history_page_before_a_timestamp() {
    let s = history_statement(Some("2024-01-01 10:00:00".to_string()), 50, Some(" he\"llo ".to_string()), None);
    assert_eq!(s.sql, format!("{HISTORY_SELECT_SQL}{HISTORY_MATCH_SQL}{HISTORY_BEFORE_SQL}{HISTORY_ORDER_SQL}"));
    assert_eq!(s.params.len(), 5);
    assert_eq!(text_param(&s.params[0]), Some("\"he llo\"*"));
    assert_eq!(text_param(&s.params[1]), Some("% he\"llo %"));
    assert_eq!(text_param(&s.params[2]), Some("% he\"llo %"));
    assert_eq!(text_param(&s.params[3]), Some("2024-01-01 10:00:00"));
    assert_eq!(int_param(&s.params[4]), Some(50));
}

fn item(t: &str, content: &str) -> HistoryItem {
    HistoryItem::from_row(1, content.to_string(), t.to_string(), None, "ts".to_string(), Some(1), 0, None, 0)
}

#[test]
fn rows_become_items() {
    let a = HistoryItem::from_row(3, "c".into(), "text".into(), Some("t".into()), "ts".into(), None, 9, Some("App".into()), 1);
    assert_eq!((a.id, a.has_vec, a.mtime), (3, false, 9));
    assert_eq!(a.source_app.as_deref(), Some("App"));
    assert!(a.is_favorite);
    assert!(!item("text", "x").is_favorite);
    assert!(HistoryItem::from_row(3, "c".into(), "text".into(), None, "ts".into(), Some(7), 0, None, 0).has_vec);
    assert!(HistoryItem::from_semantic_row(3, "c".into(), "text".into(), None, "ts".into(), 1, 0, None, 0).has_vec);
    assert!(!HistoryItem::from_semantic_row(3, "c".into(), "text".into(), None, "ts".into(), 0, 0, None, 0).has_vec);
}

#[test]
fn paste_actions_by_type() {
    assert!(matches!(paste_action(&item("text", "hi")), PasteAction::Text(s) if s == "hi"));
    assert!(matches!(paste_action(&item("image", "/i.png")), PasteAction::ImageFile(s) if s == "/i.png"));
    assert!(matches!(paste_action(&item("file", "/f")), PasteAction::FilePath(s) if s == "/f"));
    assert!(matches!(paste_action(&item("directory", "/d")), PasteAction::FilePath(s) if s == "/d"));
    assert!(matches!(paste_action(&item("other", "x")), PasteAction::Nothing));
    assert_eq!(paste_text(&item("text", "hi")), Some("hi".to_string()));
    assert_eq!(paste_text(&item("image", "/i.png")), None);
}

#[test]
fn image_files_removed_only_inside_images_dir() {
    assert!(is_owned_image_path("/data/images/a.png", "/data/images"));
    assert!(!is_owned_image_path("/data/images2/a.png", "/data/images"));
    assert!(should_remove_image_file(&item("image", "/data/images/a.png"), "/data/images"));
    assert!(!should_remove_image_file(&item("file", "/data/images/a.png"), "/data/images"));
    assert!(!should_remove_image_file(&item("image", "/home/me/a.png"), "/data/images"));
}

#[test]
fn command_checks() {
    assert_eq!(require_content(""), Err("Content is empty".to_string()));
    assert_eq!(require_content("x"), Ok(()));
    assert!(is_blank_query(" \t\n"));
    assert!(is_blank_query(""));
    assert!(!is_blank_query(" a "));
    assert_eq!(greet("Tauri"), "Hello, Tauri! You've been greeted from Rust!");
}

#[test]
fn favorites_filter_history_pages() {
    let s = history_statement(Some("ts".to_string()), 10, Some("q".to_string()), Some(true));
    assert_eq!(s.sql, format!("{HISTORY_SELECT_SQL}{HISTORY_MATCH_SQL}{HISTORY_FAVORITE_SQL}{HISTORY_BEFORE_SQL}{HISTORY_ORDER_SQL}"));
    assert_eq!(s.params.len(), 6);
    assert_eq!(int_param(&s.params[3]), Some(1));
    assert_eq!(text_param(&s.params[4]), Some("ts"));
    assert_eq!(int_param(&s.params[5]), Some(10));
    let r = history_statement(None, 5, None, Some(false));
    assert_eq!(r.sql, format!("{HISTORY_SELECT_SQL}{HISTORY_FAVORITE_SQL}{HISTORY_ORDER_SQL}"));
    assert_eq!((int_param(&r.params[0]), int_param(&r.params[1])), (Some(0), Some(5)));
    let m = semantic_statement(vec![1], 3, Some(true));
    assert_eq!(m.sql, format!("{SEMANTIC_SQL}{SEMANTIC_FAVORITE_SQL}{SEMANTIC_ORDER_SQL}"));
    assert_eq!(int_param(&m.params[2]), Some(1));
}

#[test]
fn favorite_statements() {
    let s = set_favorite_statement(7, true);
    assert_eq!(s.sql, SET_FAVORITE_SQL);
    assert_eq!((int_param(&s.params[0]), int_param(&s.params[1])), (Some(1), Some(7)));
    let u = set_favorite_statement(7, false);
    assert_eq!(int_param(&u.params[0]), Some(0));
    let a = unfavorite_all_statement();
    assert_eq!(a.sql, UNFAVORITE_ALL_SQL);
    assert!(a.params.is_empty());
}

#[test]
fn deleting_one_item() {
    let (v, i) = delete_item_statements(9);
    one_int(&v, DELETE_VECTOR_SQL, 9);
    one_int(&i, DELETE_ITEM_SQL, 9);
}

#[test]
fn overwriting_text() {
    let s = overwrite_text_statement(4, "new text").expect("statement");
    assert_eq!(s.sql, OVERWRITE_TEXT_SQL);
    assert_eq!(text_param(&s.params[0]), Some("new text"));
    assert_eq!(text_param(&s.params[1]), Some(deep_index_board::capture::calculate_hash(b"new text").as_str()));
    assert_eq!(int_param(&s.params[2]), Some(4));
    assert_eq!(overwrite_text_statement(4, "").err(), Some("Content is empty".to_string()));
}

#[test]
fn clearing_a_section_keeps_the_other() {
    let (v, i) = clear_history_statements(false);
    assert_eq!((v.sql.as_str(), i.sql.as_str()), (CLEAR_SECTION_VECTORS_SQL, CLEAR_SECTION_ITEMS_SQL));
    assert_eq!((int_param(&v.params[0]), int_param(&i.params[0])), (Some(0), Some(0)));
    let (fv, fi) = clear_history_statements(true);
    assert_eq!((int_param(&fv.params[0]), int_param(&fi.params[0])), (Some(1), Some(1)));
    let c = clearable_images_statement(false);
    assert_eq!(c.sql, CLEARABLE_IMAGES_SQL);
    assert_eq!(int_param(&c.params[0]), Some(0));
}

#[test]
fn embedding_write_back() {
    let job = EmbeddingJob { id: 12, content: "/img/a.png".to_string(), disk_mtime: 1700 };
    let (d, i, m) = embedding_write_back_statements(&job, vec![9, 8]);
    one_int(&d, DELETE_VECTOR_SQL, 12);
    assert_eq!(i.sql, INSERT_VECTOR_SQL);
    assert_eq!(int_param(&i.params[0]), Some(12));
    assert!(matches!(&i.params[1], SqlValue::Blob(b) if b == &vec![9, 8]));
    assert_eq!(m.sql, UPDATE_MTIME_SQL);
    assert_eq!((int_param(&m.params[0]), int_param(&m.params[1])), (Some(1700), Some(12)));
}
