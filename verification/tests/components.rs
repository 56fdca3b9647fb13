use five::components::component::DispatchEventResult;
use five::components::divider::DividerComponent;
use five::components::file_view::{FileViewComponent, FileViewContent};
use five::event::{Event, KeyInput};
use five::file_pane::{FilePaneItem, ViewModel};
use five::painting_utils::paint_truncated_text;
use five::terminal::Rect;
use five::text::count_lines;

#[test]
fn dispatch_event_result_empty() {
    let r = DispatchEventResult::empty();
    assert!(!r.handled);
    assert_eq!(r.events.len(), 0);
}

#[test]
fn divider_paint_flag() {
    let mut divider = DividerComponent::new();
    assert!(divider.take_needs_paint());
    assert!(!divider.take_needs_paint());
}

#[test]
fn rect_is_plain_data() {
    let rect = Rect { top: 1, left: 2, width: 30, height: 40 };
    let copy = rect;
    assert_eq!(copy.top, 1);
    assert_eq!(copy.left, 2);
    assert_eq!(copy.width, 30);
    assert_eq!(copy.height, 40);
}

#[test]
fn paint_truncated_text_pads() {
    assert_eq!(paint_truncated_text("abc", 5), "abc  ");
}

#[test]
fn paint_truncated_text_truncates() {
    assert_eq!(paint_truncated_text("abcdef", 3), "abc");
}

#[test]
fn paint_truncated_text_empty() {
    assert_eq!(paint_truncated_text("", 2), "  ");
}

#[test]
fn count_lines_matches_lines_iterator() {
    assert_eq!(count_lines(""), 0);
    assert_eq!(count_lines("a"), 1);
    assert_eq!(count_lines("a\n"), 1);
    assert_eq!(count_lines("a\nb"), 2);
    assert_eq!(count_lines("a\n\nb"), 3);
    assert_eq!(count_lines("\n"), 1);
}

#[test]
fn file_view_set_text_content() {
    let mut view = FileViewComponent::new();
    view.set_content(FileViewContent::TextFile(
        String::from("/tmp/a.txt"),
        String::from("hello\nworld"),
    ));
    let (buffer, path) = view.get_buffer();
    assert_eq!(path, "/tmp/a.txt");
    assert_eq!(buffer.get(), ("", "hello\nworld"));
}

#[test]
fn file_view_set_binary_content() {
    let mut view = FileViewComponent::new();
    view.set_content(FileViewContent::BinaryFile(String::from("/tmp/a.bin")));
    let (buffer, _) = view.get_buffer();
    assert_eq!(buffer.get(), ("", "<binary file>"));
}

#[test]
fn file_view_set_folder_content() {
    let mut view = FileViewComponent::new();
    view.set_content(FileViewContent::Folder(
        String::from("/tmp"),
        vec![String::from("a"), String::from("b")],
    ));
    let (buffer, _) = view.get_buffer();
    assert_eq!(buffer.get(), ("", "./a\n./b"));
}

#[test]
fn file_view_edits_through_keys() {
    let mut view = FileViewComponent::new();
    view.set_content(FileViewContent::TextFile(
        String::from("f"),
        String::from("hello"),
    ));
    let r = view.dispatch_key(KeyInput::Right);
    assert!(r.handled);
    let (buffer, _) = view.get_buffer();
    assert_eq!(buffer.get(), ("h", "ello"));
    view.dispatch_key(KeyInput::Char('X'));
    let (buffer, _) = view.get_buffer();
    assert_eq!(buffer.get(), ("hX", "ello"));
    view.dispatch_key(KeyInput::Backspace);
    let (buffer, _) = view.get_buffer();
    assert_eq!(buffer.get(), ("h", "ello"));
    view.dispatch_key(KeyInput::Left);
    let (buffer, _) = view.get_buffer();
    assert_eq!(buffer.get(), ("", "hello"));
}

#[test]
fn file_view_escape_and_save_events() {
    let mut view = FileViewComponent::new();
    let r = view.dispatch_key(KeyInput::Esc);
    assert!(r.handled);
    assert_eq!(r.events.len(), 1);
    assert!(matches!(r.events[0], Event::FileViewLostFocus));
    let r = view.dispatch_key(KeyInput::Ctrl('s'));
    assert!(r.handled);
    assert_eq!(r.events.len(), 1);
    assert!(matches!(r.events[0], Event::FileSaved));
    let r = view.dispatch_key(KeyInput::Ctrl('x'));
    assert!(!r.handled);
    assert_eq!(r.events.len(), 0);
}

#[test]
fn file_view_paint_flags() {
    let mut view = FileViewComponent::new();
    assert!(view.take_needs_paint());
    assert!(!view.take_needs_paint());
    view.set_has_focus(true);
    assert!(view.take_needs_paint());
    view.scroll_up();
    assert!(!view.take_needs_paint());
}

#[test]
fn file_pane_selection_moves() {
    let mut pane = ViewModel::from_items(vec![
        FilePaneItem::File(String::from("a")),
        FilePaneItem::Folder(String::from("b")),
    ]);
    assert_eq!(pane.selected_item_index, None);
    pane.select_next();
    assert_eq!(pane.selected_item_index, Some(0));
    pane.select_next();
    assert_eq!(pane.selected_item_index, Some(1));
    pane.select_next();
    assert_eq!(pane.selected_item_index, Some(1));
    pane.select_previous();
    assert_eq!(pane.selected_item_index, Some(0));
    pane.select_previous();
    assert_eq!(pane.selected_item_index, Some(0));
}

#[test]
fn file_pane_selection_with_no_items() {
    let mut pane = ViewModel::from_items(Vec::new());
    pane.select_next();
    assert_eq!(pane.selected_item_index, None);
    pane.select_previous();
    assert_eq!(pane.selected_item_index, None);
}

#[test]
fn file_view_model_keeps_content() {
    let model = five::file_view::ViewModel::with_content(String::from("preview"));
    assert_eq!(model.content(), "preview");
}
