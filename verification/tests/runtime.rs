use deep_index_board::platform::{clipboard_change_count, get_frontmost_app, read_clipboard_file_paths, CoreMLBackend};
use deep_index_board::quick_window::{point_outside_rect, style_with_bits, style_without_bits, DismissWatch, WatchStep};
use deep_index_board::scheduler::{TaskPriority, TaskQueues};
use deep_index_board::sessions::{choose_backend, LoadStep, SessionRegistry};
use deep_index_board::tokenizer::{id_through_f32, SimpleBertTokenizer};
use deep_index_board::utils::{get_mtime, memory_of_process_tree, ProcessInfo};

#[test]
fn tasks_leave_by_priority_then_arrival() {
    let mut q: TaskQueues<u32> = TaskQueues::new();
    assert_eq!(q.len(), 0);
    q.enqueue(1, TaskPriority::Low);
    q.enqueue(2, TaskPriority::Normal);
    q.enqueue(3, TaskPriority::High);
    q.enqueue(4, TaskPriority::Normal);
    assert_eq!(q.len(), 4);
    assert_eq!(q.next_task(), Some(3));
    assert_eq!(q.next_task(), Some(2));
    assert_eq!(q.next_task(), Some(4));
    assert_eq!(q.next_task(), Some(1));
    assert_eq!(q.next_task(), None);
    assert_eq!(q.len(), 0);
}

#[test]
fn high_priority_task_preempts_pending_work() {
    let mut q: TaskQueues<&str> = TaskQueues::new();
    q.enqueue("embed", TaskPriority::Low);
    q.enqueue("ocr", TaskPriority::Normal);
    q.enqueue("search", TaskPriority::High);
    assert_eq!(q.next_task(), Some("search"));
    assert_eq!(q.next_task(), Some("ocr"));
}

fn names(v: &[&str]) -> Vec<String> {
    v.iter().map(|s| s.to_string()).collect()
}

#[test]
fn backend_choice() {
    let n = names(&["ONNX", "CoreML"]);
    assert_eq!(choose_backend(&n, Some("CoreML")), Ok(1));
    assert_eq!(choose_backend(&n, None), Ok(0));
    assert_eq!(choose_backend(&n, Some("GPU")), Err("Backend GPU not found".to_string()));
    assert_eq!(choose_backend(&vec![], None), Err("No inference backends registered".to_string()));
}

#[test]
fn loaded_sessions_are_reused_and_released() {
    let n = names(&["ONNX", "CoreML"]);
    let mut r: SessionRegistry<String> = SessionRegistry::new();
    assert!(matches!(r.begin_load("clip", &n, Some("CoreML")), LoadStep::LoadWith(1)));
    assert_eq!(r.memory_report(), vec![("clip".to_string(), 0)]);
    r.record_loaded("clip", "session-a".to_string(), 100);
    assert!(matches!(r.begin_load("clip", &n, Some("CoreML")), LoadStep::Loaded));
    assert_eq!(r.session("clip"), Some(&"session-a".to_string()));
    r.record_loaded("ocr", "session-b".to_string(), 20);
    assert_eq!(r.total_memory(), 120);
    let mut report = r.memory_report();
    report.sort();
    assert_eq!(report, vec![("clip".to_string(), 100), ("ocr".to_string(), 20)]);
    r.release_session("clip");
    assert_eq!(r.session("clip"), None);
    assert!(matches!(r.begin_load("clip", &n, None), LoadStep::LoadWith(0)));
    r.release_all();
    assert!(r.memory_report().is_empty());
    assert_eq!(r.total_memory(), 0);
    match r.begin_load("x", &vec![], None) {
        LoadStep::Fail(m) => assert_eq!(m, "No inference backends registered"),
        _ => panic!("expected a failure"),
    }
}

fn vocab() -> SimpleBertTokenizer {
    let lines: Vec<String> = ["[PAD]", "[UNK]", "[CLS]", "[SEP]", " a ", "b"].iter().map(|s| s.to_string()).collect();
    SimpleBertTokenizer::from_vocab_lines(&lines)
}

#[test]
fn tokenizer_pads_to_length() {
    let t = vocab();
    assert_eq!(t.tokenize_to_i64_ids("A b c", 6), vec![2, 4, 5, 1, 3, 0]);
    assert_eq!(t.tokenize_to_i64_ids("", 4), vec![2, 3, 0, 0]);
}

#[test]
fn tokenizer_truncates_to_length() {
    let t = vocab();
    assert_eq!(t.tokenize_to_i64_ids("ababab", 4), vec![2, 4, 5, 3]);
    assert_eq!(t.tokenize_to_i64_ids("ab", 1), vec![2, 4, 3]);
    for len in 3..9 {
        let ids = t.tokenize_to_i64_ids("a b a b a", len);
        assert_eq!(ids.len(), len);
        assert_eq!(ids[0], 2);
    }
}

#[test]
fn tokenizer_defaults_without_special_tokens() {
    let lines: Vec<String> = vec!["x".to_string()];
    let t = SimpleBertTokenizer::from_vocab_lines(&lines);
    assert_eq!(t.tokenize_to_i64_ids("xy", 5), vec![101, 0, 100, 102, 0]);
}

#[test]
fn ids_pass_through_f32() {
    assert_eq!(id_through_f32(7), 7);
    assert_eq!(id_through_f32(-3), -3);
    assert_eq!(id_through_f32(16_777_217), 16_777_216);
    assert_eq!(id_through_f32(16_777_219), 16_777_220);
    assert_eq!(id_through_f32(i32::MAX), 2_147_483_648);
}

#[test]
fn quick_window_watch() {
    let mut w = DismissWatch::new();
    assert_eq!(w.observe(true, false, false), WatchStep::Wait);
    assert_eq!(w.observe(true, true, false), WatchStep::CheckDismiss);
    assert_eq!(w.observe(true, false, false), WatchStep::Stop);
    assert_eq!(w.observe(false, true, false), WatchStep::Stop);
    let mut late = DismissWatch::new();
    assert_eq!(late.observe(true, false, true), WatchStep::Stop);
}

#[test]
fn escape_fires_once_per_press() {
    let mut w = DismissWatch::new();
    assert!(w.escape_pressed(true));
    assert!(!w.escape_pressed(true));
    assert!(!w.escape_pressed(false));
    assert!(w.escape_pressed(true));
}

#[test]
fn window_geometry_and_styles() {
    assert!(!point_outside_rect(5, 5, 0, 0, 10, 10));
    assert!(point_outside_rect(10, 5, 0, 0, 10, 10));
    assert!(point_outside_rect(5, -1, 0, 0, 10, 10));
    assert_eq!(style_with_bits(0x10, 0x10), None);
    assert_eq!(style_with_bits(0x10, 0x80), Some(0x90));
    assert_eq!(style_without_bits(0x90, 0x80), Some(0x10));
    assert_eq!(style_without_bits(0x10, 0x80), None);
}

#[test]
fn memory_of_me_and_my_children() {
    let p = |pid, parent, memory| ProcessInfo { pid, parent, memory };
    let procs = vec![p(1, None, 100), p(2, Some(1), 50), p(3, Some(2), 25), p(4, Some(1), 10), p(5, None, 7)];
    assert_eq!(memory_of_process_tree(&procs, 1), 160);
    assert_eq!(memory_of_process_tree(&procs, 9), 0);
}

#[test]
fn modification_times() {
    assert_eq!(get_mtime(Some(1_700_000_000)), 1_700_000_000);
    assert_eq!(get_mtime(None), 0);
}

#[test]
fn other_platform_defaults() {
    assert_eq!(clipboard_change_count(), 0);
    assert!(read_clipboard_file_paths().is_empty());
    assert_eq!(get_frontmost_app(), None);
    assert_eq!(CoreMLBackend.name(), "CoreML");
}

#[test]
fn ready_tasks_fill_the_free_workers() {
    let mut q: TaskQueues<u32> = TaskQueues::new();
    for (t, p) in [(1, TaskPriority::Low), (2, TaskPriority::High), (3, TaskPriority::Normal), (4, TaskPriority::High), (5, TaskPriority::Low)] {
        q.enqueue(t, p);
    }
    assert_eq!(q.take_ready(3), vec![2, 4, 3]);
    assert_eq!(q.take_ready(0), Vec::<u32>::new());
    assert_eq!(q.take_ready(4), vec![1, 5]);
    assert_eq!(q.len(), 0);
}

#[test]
fn failed_loads_are_retried() {
    let n = names(&["CoreML"]);
    let mut r: SessionRegistry<String> = SessionRegistry::new();
    assert!(matches!(r.begin_load("m", &n, None), LoadStep::LoadWith(0)));
    // the backend failed: nothing recorded
    assert_eq!(r.memory_report(), vec![("m".to_string(), 0)]);
    assert!(matches!(r.begin_load("m", &n, None), LoadStep::LoadWith(0)));
}

#[test]
fn leftover_tasks_keep_their_priority() {
    let mut q: TaskQueues<u32> = TaskQueues::new();
    q.enqueue(1, TaskPriority::Normal);
    q.enqueue(2, TaskPriority::Normal);
    q.enqueue(3, TaskPriority::Low);
    assert_eq!(q.take_ready(1), vec![1]);
    q.enqueue(4, TaskPriority::High);
    assert_eq!(q.take_ready(4), vec![4, 2, 3]);
}

#[test]
fn begin_load_keeps_total_memory() {
    let n = names(&["CoreML"]);
    let mut r: SessionRegistry<String> = SessionRegistry::new();
    r.record_loaded("a", "s".to_string(), 40);
    assert_eq!(r.total_memory(), 40);
    assert!(matches!(r.begin_load("b", &n, None), LoadStep::LoadWith(0)));
    assert_eq!(r.total_memory(), 40);
    r.record_loaded("b", "t".to_string(), 2);
    r.begin_load("c", &n, None);
    r.release_session("c");
    assert!(matches!(r.begin_load("a", &n, None), LoadStep::Loaded));
    assert_eq!(r.session("a"), Some(&"s".to_string()));
}
