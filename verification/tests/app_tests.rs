use caret::app::{App, ViewMode};
use caret::commands::{TuiCommand, ViewModeCmd};
use caret::data::Dataset;
use caret::format::InputFormat;
use caret::linter::Linter;

fn app(lines: usize) -> App {
    let records: Vec<String> = (0..lines).map(|i| format!("{{\"n\":\"{} \"}}", i)).collect();
    App::new(Dataset::from_lines(&records, "mem".to_string(), InputFormat::Jsonl))
}

#[test]
fn test_view_mode_cycle() {
    let mut mode = ViewMode::Text;
    assert_eq!(mode.label(), "TEXT");
    mode.toggle();
    assert_eq!(mode, ViewMode::TokenXray);
    assert_eq!(mode.label(), "TOKEN X-RAY");
    mode.toggle();
    assert_eq!(mode, ViewMode::Tree);
    assert_eq!(mode.label(), "TREE");
    mode.toggle();
    assert_eq!(mode, ViewMode::Text);
}

#[test]
fn test_new_app() {
    let a = app(5);
    assert_eq!(a.scroll, 0);
    assert_eq!(a.viewport_height, 20);
    assert_eq!(a.view_mode, ViewMode::Text);
    assert!(a.lint_results.is_empty());
    assert!(a.dedup_result.is_none());
    assert!(!a.show_help && !a.should_quit && !a.show_detail);
    assert_eq!(a.selected_line, 0);
    assert_eq!(a.current_line_content(), Some("{\"n\":\"0 \"}"));
}

#[test]
fn test_scrolling() {
    let mut a = app(100);
    a.scroll_down(7);
    assert_eq!((a.scroll, a.selected_line), (7, 7));
    a.scroll_down(80);
    assert_eq!((a.scroll, a.selected_line), (80, 87));
    a.scroll_down(usize::MAX);
    assert_eq!((a.scroll, a.selected_line), (80, 99));
    a.scroll_up(30);
    assert_eq!((a.scroll, a.selected_line), (50, 69));
    a.scroll_up(60);
    assert_eq!((a.scroll, a.selected_line), (0, 9));
    a.goto_bottom();
    assert_eq!((a.scroll, a.selected_line), (80, 99));
    a.goto_top();
    assert_eq!((a.scroll, a.selected_line), (0, 0));
    a.set_viewport_height(3);
    assert_eq!(a.viewport_height, 0);
    a.set_viewport_height(54);
    assert_eq!(a.viewport_height, 50);
    a.goto_bottom();
    assert_eq!((a.scroll, a.selected_line), (50, 99));

    let mut small = app(3);
    small.scroll_down(1);
    assert_eq!((small.scroll, small.selected_line), (0, 1));
    small.goto_bottom();
    assert_eq!((small.scroll, small.selected_line), (0, 2));
}

#[test]
fn test_commands() {
    let mut a = app(100);
    a.apply_command(TuiCommand::JumpToLine(40));
    assert_eq!((a.scroll, a.selected_line), (30, 40));
    a.apply_command(TuiCommand::JumpToLine(5));
    assert_eq!((a.scroll, a.selected_line), (0, 5));
    a.apply_command(TuiCommand::JumpToLine(1000));
    assert_eq!((a.scroll, a.selected_line), (89, 99));
    a.apply_command(TuiCommand::ToggleView);
    assert_eq!(a.view_mode, ViewMode::TokenXray);
    a.apply_command(TuiCommand::SetViewMode(ViewModeCmd::Tree));
    assert_eq!(a.view_mode, ViewMode::Tree);
    a.apply_command(TuiCommand::SetViewMode(ViewModeCmd::Text));
    assert_eq!(a.view_mode, ViewMode::Text);
    a.apply_command(TuiCommand::SetViewMode(ViewModeCmd::TokenXray));
    assert_eq!(a.view_mode, ViewMode::TokenXray);
    a.apply_command(TuiCommand::ShowDetail(true));
    assert!(a.show_detail);
    a.toggle_detail();
    assert!(!a.show_detail);
    a.apply_command(TuiCommand::GotoTop);
    assert_eq!((a.scroll, a.selected_line), (0, 0));
    a.apply_command(TuiCommand::ScrollDown(10));
    assert_eq!((a.scroll, a.selected_line), (10, 10));
    a.apply_command(TuiCommand::ScrollUp(4));
    assert_eq!((a.scroll, a.selected_line), (6, 6));
    a.apply_command(TuiCommand::GotoBottom);
    assert_eq!((a.scroll, a.selected_line), (80, 99));
    assert_eq!(a.view_mode, ViewMode::TokenXray);
}

#[test]
fn test_lint_and_dedup_marks() {
    let a = app(4);
    let results = Linter::new().lint_dataset(&a.dataset);
    let mut a = a.with_lint_results(results);
    assert_eq!(a.lint_results.len(), 4);
    assert!(a.line_has_error(0));
    assert!(a.line_has_error(3));
    assert!(!a.line_has_error(4));
    assert_eq!(a.get_lint_error(2).unwrap().line, 2);
    assert!(a.get_lint_error(9).is_none());

    assert!(!a.line_is_duplicate(0));
    a.toggle_dedup();
    let result = a.dedup_result.as_ref().unwrap();
    assert_eq!(result.total_lines, 4);
    assert!(!a.line_is_duplicate(0));
    assert!(!a.line_is_duplicate(4));
    a.toggle_dedup();
    assert!(a.dedup_result.is_none());
}

#[test]
fn test_current_line_pretty() {
    let text = "{\"b\":[1,2],\"a\":\"x\"}\nnot json\n";
    let mut bytes = text.as_bytes().to_vec();
    bytes.push(0xff);
    let mut a = App::new(Dataset::from_bytes(bytes, "mem".to_string(), InputFormat::Jsonl));
    assert_eq!(a.current_line_pretty(), "{\n  \"a\": \"x\",\n  \"b\": [\n    1,\n    2\n  ]\n}");
    a.scroll_down(1);
    assert_eq!(a.current_line_pretty(), "not json");
    a.scroll_down(1);
    assert_eq!(a.selected_line, 2);
    assert_eq!(a.current_line_content(), None);
    assert_eq!(a.current_line_pretty(), "");
}
