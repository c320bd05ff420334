use exodus::editor::{title_for_path, Editor, EditorTab};
use exodus::search::{find_matches, highlight_segments, Span, SpanKind};
use exodus::text::dec_string;

fn fresh_tab(highlights: Vec<(usize, usize)>, cursor: usize) -> EditorTab {
    EditorTab {
        id: 0,
        title: String::new(),
        content: String::new(),
        file_path: None,
        modified: false,
        undo_stack: Vec::new(),
        redo_stack: Vec::new(),
        cursor_pos: cursor,
        search_highlights: highlights,
    }
}

#[test]
fn new_session_has_one_untitled_tab() {
    let ed = Editor::new();
    assert_eq!(ed.tabs.len(), 1);
    assert_eq!(ed.active_tab, 0);
    assert_eq!(ed.next_id, 1);
    assert_eq!(ed.tabs[0].title, "Untitled 1");
    assert_eq!(ed.tabs[0].content, "");
    assert!(!ed.tabs[0].modified);
    assert!(ed.tabs[0].file_path.is_none());
}

#[test]
fn titles_carry_creation_ordinals_and_ids_are_never_reused() {
    let mut ed = Editor::new();
    ed.new_file();
    assert_eq!(ed.tabs[1].title, "Untitled 2");
    ed.close_file();
    ed.new_file();
    assert_eq!(ed.tabs[1].title, "Untitled 3");
    assert_eq!(ed.tabs[1].id, 2);
    assert_ne!(ed.tabs[0].id, ed.tabs[1].id);
}

#[test]
fn undo_redo_inverse_scenario() {
    let mut ed = Editor::new();
    ed.apply_edit("first".to_string());
    assert_eq!(ed.tabs[0].content, "first");
    ed.apply_edit("second".to_string());
    ed.undo();
    assert_eq!(ed.tabs[0].content, "first");
    ed.redo();
    assert_eq!(ed.tabs[0].content, "second");
    assert!(ed.tabs[0].modified);
}

#[test]
fn undo_and_redo_on_empty_stacks_are_no_ops() {
    let mut ed = Editor::new();
    ed.undo();
    assert_eq!(ed.tabs[0].content, "");
    ed.redo();
    assert_eq!(ed.tabs[0].content, "");
    assert!(!ed.tabs[0].modified);
}

#[test]
fn redo_invalidation() {
    let mut ed = Editor::new();
    ed.apply_edit("a".to_string());
    ed.apply_edit("b".to_string());
    ed.undo();
    assert_eq!(ed.tabs[0].content, "a");
    ed.apply_edit("c".to_string());
    assert_eq!(ed.tabs[0].redo_stack.len(), 0);
    ed.redo();
    assert_eq!(ed.tabs[0].content, "c");
}

#[test]
fn unchanged_text_commits_nothing() {
    let mut ed = Editor::new();
    ed.apply_edit("same".to_string());
    let depth = ed.tabs[0].undo_stack.len();
    ed.apply_edit("same".to_string());
    assert_eq!(ed.tabs[0].undo_stack.len(), depth);
}

#[test]
fn history_cap() {
    let mut ed = Editor::new();
    for i in 0..150 {
        ed.apply_edit(format!("v{}", i));
    }
    assert_eq!(ed.tabs[0].undo_stack.len(), 100);
    for _ in 0..101 {
        ed.undo();
    }
    // Only the most recent 100 snapshots survive: the original empty
    // content is out of reach, the oldest surviving snapshot is not.
    assert_eq!(ed.tabs[0].content, "v49");
    assert_ne!(ed.tabs[0].content, "");
}

#[test]
fn search_overlap() {
    let mut ed = Editor::new();
    ed.apply_edit("aaaa".to_string());
    ed.highlight_search("aa");
    assert_eq!(ed.tabs[0].search_highlights, vec![(0, 2), (1, 3), (2, 4)]);
    assert_eq!(ed.get_search_match_count(), 3);
}

#[test]
fn case_insensitive_search() {
    let mut ed = Editor::new();
    ed.apply_edit("say hello world".to_string());
    ed.highlight_search("HELLO");
    assert_eq!(ed.tabs[0].search_highlights, vec![(4, 9)]);
}

#[test]
fn empty_query_clears_matches() {
    let mut ed = Editor::new();
    ed.apply_edit("abc abc".to_string());
    ed.highlight_search("abc");
    assert_eq!(ed.get_search_match_count(), 2);
    ed.highlight_search("");
    assert_eq!(ed.get_search_match_count(), 0);
}

#[test]
fn clear_search_highlights_empties_matches_and_keeps_cursor() {
    let mut ed = Editor::new();
    ed.apply_edit("abc abc".to_string());
    ed.highlight_search("abc");
    ed.find_next("abc");
    let cursor = ed.tabs[0].cursor_pos;
    ed.clear_search_highlights();
    assert_eq!(ed.get_search_match_count(), 0);
    assert_eq!(ed.tabs[0].cursor_pos, cursor);
}

#[test]
fn circular_navigation() {
    let mut ed = Editor::new();
    let mut tab = fresh_tab(vec![(5, 7), (20, 22), (40, 42)], 40);
    ed.move_to_next_match(&mut tab);
    assert_eq!(tab.cursor_pos, 5);
    tab.cursor_pos = 5;
    ed.move_to_previous_match(&mut tab);
    assert_eq!(tab.cursor_pos, 40);
}

#[test]
fn find_next_steps_through_matches() {
    let mut ed = Editor::new();
    ed.apply_edit("ab ab ab".to_string());
    ed.highlight_search("ab");
    assert_eq!(ed.tabs[0].search_highlights, vec![(0, 2), (3, 5), (6, 8)]);
    ed.find_next("ab");
    assert_eq!(ed.tabs[0].cursor_pos, 3);
    ed.find_next("ab");
    assert_eq!(ed.tabs[0].cursor_pos, 6);
    ed.find_next("ab");
    assert_eq!(ed.tabs[0].cursor_pos, 0);
}

#[test]
fn find_previous_steps_backwards_and_wraps() {
    let mut ed = Editor::new();
    ed.apply_edit("ab ab ab".to_string());
    ed.highlight_search("ab");
    ed.find_next("ab");
    ed.find_next("ab");
    assert_eq!(ed.tabs[0].cursor_pos, 6);
    ed.find_previous("ab");
    assert_eq!(ed.tabs[0].cursor_pos, 3);
    ed.find_previous("ab");
    assert_eq!(ed.tabs[0].cursor_pos, 0);
    ed.find_previous("ab");
    assert_eq!(ed.tabs[0].cursor_pos, 6);
}

#[test]
fn titles_derive_from_the_file_name() {
    assert_eq!(title_for_path("/notes/todo.txt"), "todo.txt");
    assert_eq!(title_for_path("plain"), "plain");
    assert_eq!(title_for_path("dir/"), "Untitled");
    assert_eq!(title_for_path(""), "Untitled");
}

#[test]
fn unsaved_changes_are_noticed_and_cleared() {
    let mut ed = Editor::new();
    assert!(!ed.has_unsaved_changes());
    ed.open_file("/a/b.txt".to_string(), "b.txt".to_string(), "x".to_string());
    ed.apply_edit("xy".to_string());
    assert!(ed.has_unsaved_changes());
    ed.mark_active_saved();
    assert!(!ed.has_unsaved_changes());
}

#[test]
fn find_next_without_matches_or_query_is_a_no_op() {
    let mut ed = Editor::new();
    ed.apply_edit("text".to_string());
    ed.find_next("zz");
    assert_eq!(ed.tabs[0].cursor_pos, 0);
    ed.highlight_search("zz");
    ed.find_next("zz");
    assert_eq!(ed.tabs[0].cursor_pos, 0);
}

#[test]
fn tab_closing_invariant() {
    let mut ed = Editor::new();
    ed.close_file();
    assert_eq!(ed.tabs.len(), 1);
    ed.new_file();
    ed.new_file();
    assert_eq!(ed.tabs.len(), 3);
    assert_eq!(ed.active_tab, 2);
    ed.close_file();
    assert_eq!(ed.tabs.len(), 2);
    assert_eq!(ed.active_tab, 1);
}

#[test]
fn close_tab_shifts_the_selector_left() {
    let mut ed = Editor::new();
    ed.new_file();
    ed.new_file();
    ed.switch_active(2);
    ed.close_tab(0);
    assert_eq!(ed.tabs.len(), 2);
    assert_eq!(ed.active_tab, 1);
    assert_eq!(ed.tabs[1].title, "Untitled 3");
}

#[test]
fn open_file_appends_an_unmodified_tab_with_its_path() {
    let mut ed = Editor::new();
    ed.open_file(
        "/notes/todo.txt".to_string(),
        "todo.txt".to_string(),
        "remember".to_string(),
    );
    assert_eq!(ed.tabs.len(), 2);
    assert_eq!(ed.active_tab, 1);
    let tab = &ed.tabs[1];
    assert_eq!(tab.title, "todo.txt");
    assert_eq!(tab.content, "remember");
    assert_eq!(tab.file_path.as_deref(), Some("/notes/todo.txt"));
    assert!(!tab.modified);
}

#[test]
fn saving_clears_the_modification_flag() {
    let mut ed = Editor::new();
    ed.open_file("/a/b.txt".to_string(), "b.txt".to_string(), "x".to_string());
    ed.apply_edit("xy".to_string());
    assert!(ed.tabs[1].modified);
    assert_eq!(ed.save_target().as_deref(), Some("/a/b.txt"));
    ed.mark_active_saved();
    assert!(!ed.tabs[1].modified);
}

#[test]
fn attaching_a_save_path_renames_the_tab() {
    let mut ed = Editor::new();
    ed.apply_edit("draft".to_string());
    assert_eq!(ed.save_target(), None);
    ed.attach_saved_path("/tmp/draft.txt".to_string(), "draft.txt".to_string());
    assert_eq!(ed.tabs[0].title, "draft.txt");
    assert_eq!(ed.tabs[0].file_path.as_deref(), Some("/tmp/draft.txt"));
    assert!(!ed.tabs[0].modified);
}

#[test]
fn workspace_folder_is_remembered() {
    let mut ed = Editor::new();
    assert!(ed.get_workspace_folder().is_none());
    ed.open_folder("/home/me/project".to_string());
    assert_eq!(ed.get_workspace_folder().map(|s| s.as_str()), Some("/home/me/project"));
}

#[test]
fn find_matches_lists_every_occurrence_in_order() {
    let ms = find_matches("abab", "ab");
    assert_eq!(ms, vec![(0, 2), (2, 4)]);
    let none = find_matches("abc", "zz");
    assert!(none.is_empty());
}

#[test]
fn highlight_segments_paints_current_and_other_matches() {
    let ms = vec![(2, 4), (6, 8)];
    let spans = highlight_segments(10, &ms, 3);
    assert_eq!(
        spans,
        vec![
            Span { start: 0, end: 2, kind: SpanKind::Plain },
            Span { start: 2, end: 4, kind: SpanKind::Other },
            Span { start: 4, end: 6, kind: SpanKind::Plain },
            Span { start: 6, end: 8, kind: SpanKind::Current },
            Span { start: 8, end: 10, kind: SpanKind::Plain },
        ]
    );
}

#[test]
fn decimal_rendering_is_exact() {
    assert_eq!(dec_string(0), "0");
    assert_eq!(dec_string(7), "7");
    assert_eq!(dec_string(12345), "12345");
    assert_eq!(dec_string(u64::MAX), "18446744073709551615");
}
