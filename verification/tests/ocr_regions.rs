use deep_index_board::ocr::{
    ctc_collapse, ctc_layout, neighbor_slots, page_text, parse_character_dict, round_to_multiple, unquote_yaml_scalar,
};
use deep_index_board::regions::{detection_map_size, is_readable_box, keep_large_regions, label_components, reading_order, Rect};

#[test]
fn neighbours_at_corner_and_middle() {
    assert_eq!(
        neighbor_slots(0, 0, 3, 3),
        [(None, Some(0)), (Some(0), None), (Some(1), Some(0)), (Some(0), Some(1))]
    );
    assert_eq!(
        neighbor_slots(1, 1, 3, 3),
        [(Some(0), Some(1)), (Some(1), Some(0)), (Some(2), Some(1)), (Some(1), Some(2))]
    );
    assert_eq!(
        neighbor_slots(2, 2, 3, 3),
        [(Some(1), Some(2)), (Some(2), Some(1)), (None, Some(2)), (Some(2), None)]
    );
}

#[test]
fn rounding_up_to_multiples() {
    assert_eq!(round_to_multiple(33, 32), 64);
    assert_eq!(round_to_multiple(32, 32), 32);
    assert_eq!(round_to_multiple(0, 8), 0);
    assert_eq!(round_to_multiple(161, 8), 168);
    assert_eq!(round_to_multiple(960, 32), 960);
}

#[test]
fn ctc_layout_step_major_with_space() {
    let l = ctc_layout(&[1, 10, 5], 3).unwrap();
    assert_eq!((l.timesteps, l.classes, l.step_major, l.with_space), (10, 5, true, true));
    assert_eq!(l.index(2, 3), 13);
}

#[test]
fn ctc_layout_class_major() {
    let l = ctc_layout(&[1, 4, 25], 3).unwrap();
    assert_eq!((l.timesteps, l.classes, l.step_major, l.with_space), (25, 4, false, false));
    assert_eq!(l.index(2, 3), 77);
}

#[test]
fn ctc_layout_errors() {
    assert_eq!(ctc_layout(&[1, 2], 3).err(), Some("Unexpected recognition output shape: [1, 2]".to_string()));
    assert_eq!(
        ctc_layout(&[1, 7, 9], 3).err(),
        Some("Recognition output classes do not match dictionary: shape=[1, 7, 9], dict=3".to_string())
    );
}

fn dict() -> Vec<String> {
    vec!["a".to_string(), "b".to_string(), "c".to_string()]
}

#[test]
fn ctc_collapses_repeats_and_blanks() {
    assert_eq!(ctc_collapse(&[0, 1, 1, 0, 1, 2, 4], &dict(), true), "aab ");
    assert_eq!(ctc_collapse(&[0, 1, 1, 0, 1, 2, 4], &dict(), false), "aab");
    assert_eq!(ctc_collapse(&[], &dict(), false), "");
}

#[test]
fn ctc_repeat_and_blank_laws_on_values() {
    assert_eq!(ctc_collapse(&[2, 2, 2], &dict(), false), ctc_collapse(&[2], &dict(), false));
    assert_eq!(ctc_collapse(&[0, 0, 3, 0], &dict(), false), "c");
    assert_eq!(ctc_collapse(&[3, 0, 3], &dict(), false), "cc");
}

#[test]
fn yaml_scalars_are_unquoted() {
    assert_eq!(unquote_yaml_scalar("'a''b'"), "a'b");
    assert_eq!(unquote_yaml_scalar("''''"), "'");
    assert_eq!(unquote_yaml_scalar("abc"), "abc");
    assert_eq!(unquote_yaml_scalar("'x'"), "x");
    assert_eq!(unquote_yaml_scalar("'"), "'");
    assert_eq!(unquote_yaml_scalar("''"), "");
}

#[test]
fn quoting_then_unquoting_gives_the_text_back() {
    for t in ["it's", "''", "plain", ""] {
        let quoted = format!("'{}'", t.replace('\'', "''"));
        assert_eq!(unquote_yaml_scalar(&quoted), t);
    }
}

#[test]
fn character_dict_is_read_from_config() {
    let content = "Global:\n  x: 1\ncharacter_dict:\n- a\n- 'b'\n- ''''\n  - c\n\nOther: 1\n- d\n";
    assert_eq!(parse_character_dict(content), Ok(vec!["a".to_string(), "b".to_string(), "'".to_string(), "c".to_string()]));
}

#[test]
fn character_dict_strips_repeated_markers() {
    let content = "character_dict:\n  - - x \n";
    assert_eq!(parse_character_dict(content), Ok(vec!["x".to_string()]));
}

#[test]
fn empty_character_dict_is_an_error() {
    assert_eq!(parse_character_dict("a: 1\n"), Err("OCR character dictionary is empty".to_string()));
    assert_eq!(parse_character_dict("character_dict:\nnext: 2\n- a\n"), Err("OCR character dictionary is empty".to_string()));
}

#[test]
fn components_of_a_mask() {
    let mask = [true, true, false, true, false, false, false, false, true];
    let comps = label_components(&mask, 3, 3);
    assert_eq!(comps.len(), 2);
    let mut cells = comps[0].cells.clone();
    cells.sort();
    assert_eq!(cells, vec![0, 1, 3]);
    assert_eq!(comps[0].cells[0], 0);
    assert_eq!(comps[0].count, 3);
    assert_eq!(comps[0].perimeter, 8);
    assert_eq!((comps[0].min_x, comps[0].max_x, comps[0].min_y, comps[0].max_y), (0, 1, 0, 1));
    assert_eq!(comps[1].cells, vec![8]);
    assert_eq!(comps[1].count, 1);
    assert_eq!(comps[1].perimeter, 4);
    assert_eq!((comps[1].min_x, comps[1].max_x, comps[1].min_y, comps[1].max_y), (2, 2, 2, 2));
}

#[test]
fn no_components_in_an_empty_mask() {
    assert!(label_components(&[false; 6], 3, 2).is_empty());
}

#[test]
fn small_regions_are_dropped() {
    let mask = [
        true, true, false, false, //
        true, true, false, true, //
        false, false, false, false,
    ];
    let comps = label_components(&mask, 4, 3);
    assert_eq!(comps.len(), 2);
    let kept = keep_large_regions(comps);
    assert_eq!(kept.len(), 1);
    assert_eq!(kept[0].count, 4);
    assert_eq!(kept[0].perimeter, 8);
}

#[test]
fn detection_map_size_checks_shape() {
    assert_eq!(detection_map_size(&[1, 1, 2, 3], 6), Ok((2, 3)));
    assert_eq!(
        detection_map_size(&[1, 1, 2, 3], 5),
        Err("Invalid detection output shape: [1, 1, 2, 3]".to_string())
    );
    assert_eq!(detection_map_size(&[1, 0, 3], 9), Err("Invalid detection output shape: [1, 0, 3]".to_string()));
    assert_eq!(detection_map_size(&[5], 5), Err("Unexpected detection output shape: [5]".to_string()));
}

#[test]
fn regions_are_read_in_bands() {
    let r = |x, y| Rect { x, y, w: 4, h: 4 };
    let rects = vec![r(50, 20), r(10, 30), r(5, 0), r(10, 31)];
    assert_eq!(reading_order(&rects), vec![2, 1, 3, 0]);
    assert!(reading_order(&vec![]).is_empty());
}

#[test]
fn page_text_trims_and_drops_empty_lines() {
    let lines: Vec<String> = vec!["  first ".into(), "   ".into(), "".into(), "second\t".into(), " third".into()];
    assert_eq!(page_text(&lines), "first\nsecond\nthird");
    assert_eq!(page_text(&vec![]), "");
    assert_eq!(page_text(&vec![" \n ".to_string()]), "");
    assert_eq!(page_text(&vec!["only".to_string()]), "only");
}

#[test]
fn diagonal_cells_are_separate_regions() {
    let comps = label_components(&[true, false, false, true], 2, 2);
    assert_eq!(comps.len(), 2);
    assert_eq!(comps[0].cells, vec![0]);
    assert_eq!(comps[1].cells, vec![3]);
}

#[test]
fn winding_region_is_one_component() {
    // A U shape: the two arms meet only through the bottom row.
    let mask = [
        true, false, true, //
        true, false, true, //
        true, true, true,
    ];
    let comps = label_components(&mask, 3, 3);
    assert_eq!(comps.len(), 1);
    let mut cells = comps[0].cells.clone();
    cells.sort();
    assert_eq!(cells, vec![0, 2, 3, 5, 6, 7, 8]);
    assert_eq!(comps[0].cells[0], 0);
    assert_eq!((comps[0].min_x, comps[0].max_x, comps[0].min_y, comps[0].max_y), (0, 2, 0, 2));
}

#[test]
fn tiny_boxes_are_not_read() {
    assert!(is_readable_box(&Rect { x: 0, y: 0, w: 3, h: 3 }));
    assert!(!is_readable_box(&Rect { x: 0, y: 0, w: 2, h: 30 }));
    assert!(!is_readable_box(&Rect { x: 0, y: 0, w: 30, h: 2 }));
}
