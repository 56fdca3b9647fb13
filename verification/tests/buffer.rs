use five::buffer::Buffer;

const TEST_CAPACITY: usize = 64;

#[test]
fn initialize() {
    let buffer = Buffer::with_initial_capacity(TEST_CAPACITY);
    assert_eq!(buffer.get(), ("", ""));
}

#[test]
fn simple_insert() {
    let mut buffer = Buffer::with_initial_capacity(TEST_CAPACITY);
    buffer.insert_at_cursor("John is the best");
    assert_eq!(buffer.get(), ("John is the best", ""));
}

#[test]
fn move_cursor_left_1() {
    let mut buffer = Buffer::with_initial_capacity(TEST_CAPACITY);
    buffer.insert_at_cursor("Let's move the cursor 😎");
    buffer.move_cursor(-1);
    assert_eq!(buffer.get(), ("Let's move the cursor ", "😎"));
}

#[test]
fn move_cursor_left_2() {
    let mut buffer = Buffer::with_initial_capacity(TEST_CAPACITY);
    buffer.insert_at_cursor("Test out this weird character: a̐");
    buffer.move_cursor(-3);
    assert_eq!(buffer.get(), ("Test out this weird character", ": a̐"));
}

#[test]
fn move_cursor_left_saturating() {
    let mut buffer = Buffer::with_initial_capacity(TEST_CAPACITY);
    buffer.insert_at_cursor("Not enough room");
    buffer.move_cursor(-1000);
    assert_eq!(buffer.get(), ("", "Not enough room"));
}

#[test]
fn move_cursor_left_multiple_times() {
    let mut buffer = Buffer::with_initial_capacity(TEST_CAPACITY);
    buffer.insert_at_cursor("OneTwoThree");
    buffer.move_cursor(-5);
    buffer.move_cursor(-3);
    assert_eq!(buffer.get(), ("One", "TwoThree"));
}

#[test]
fn move_cursor_nowhere() {
    let mut buffer = Buffer::with_initial_capacity(TEST_CAPACITY);
    buffer.insert_at_cursor("Don't even move the dang cursor");
    buffer.move_cursor(0);
    assert_eq!(buffer.get(), ("Don't even move the dang cursor", ""));
}

#[test]
fn move_cursor_right_1() {
    let mut buffer = Buffer::with_initial_capacity(TEST_CAPACITY);
    buffer.insert_at_cursor("Let's move the cursor 😎");
    buffer.move_cursor(-4);
    buffer.move_cursor(2);
    assert_eq!(buffer.get(), ("Let's move the cursor", " 😎"));
}

#[test]
fn move_cursor_right_2() {
    let mut buffer = Buffer::with_initial_capacity(TEST_CAPACITY);
    buffer.insert_at_cursor("Test out this weird character: a̐");
    buffer.move_cursor(-10);
    buffer.move_cursor(2);
    assert_eq!(buffer.get(), ("Test out this weird char", "acter: a̐"));
}

#[test]
fn move_cursor_right_saturating() {
    let mut buffer = Buffer::with_initial_capacity(TEST_CAPACITY);
    buffer.insert_at_cursor("Cursor is already at the end");
    buffer.move_cursor(1);
    assert_eq!(buffer.get(), ("Cursor is already at the end", ""));
}

#[test]
fn move_cursor_right_multiple_times() {
    let mut buffer = Buffer::with_initial_capacity(TEST_CAPACITY);
    buffer.insert_at_cursor("OneTwoThree");
    buffer.move_cursor(-1000);
    buffer.move_cursor(3);
    buffer.move_cursor(3);
    assert_eq!(buffer.get(), ("OneTwo", "Three"));
}

#[test]
fn grow_1() {
    let mut buffer = Buffer::with_initial_capacity(8);
    buffer.insert_at_cursor("12345");
    buffer.insert_at_cursor("12345");
    assert_eq!(buffer.get(), ("1234512345", ""));
}

#[test]
fn grow_2() {
    let mut buffer = Buffer::with_initial_capacity(8);
    buffer.insert_at_cursor("12345");
    buffer.move_cursor_left(3);
    buffer.insert_at_cursor("12345");
    assert_eq!(buffer.get(), ("1212345", "345"));
}

#[test]
fn delete_1() {
    let mut buffer = Buffer::with_initial_capacity(TEST_CAPACITY);
    buffer.insert_at_cursor("Delete me, please");
    buffer.delete_at_cursor(4);
    assert_eq!(buffer.get(), ("Delete me, pl", ""));
}

#[test]
fn delete_2() {
    let mut buffer = Buffer::with_initial_capacity(TEST_CAPACITY);
    buffer.insert_at_cursor("Delete me, please");
    buffer.move_cursor_left(8);
    buffer.delete_at_cursor(3);
    assert_eq!(buffer.get(), ("Delete", ", please"));
}

#[test]
fn complex_1() {
    let mut buffer = Buffer::with_initial_capacity(1000);
    buffer.insert_at_cursor("This ");
    buffer.insert_at_cursor("is a test");
    buffer.insert_at_cursor("\nThat tests öut a møre complex\t\tscenario");
    buffer.move_cursor_left(9);
    buffer.insert_at_cursor("AHA");
    buffer.move_cursor_to_beginning();
    buffer.insert_at_cursor("Put this at the front");
    buffer.move_cursor_right(10);
    buffer.insert_at_cursor("Last thing");
    assert_eq!(
        buffer.get(),
        (
            "Put this at the frontThis is a Last thing",
            "test\nThat tests öut a møre complex\tAHA\tscenario"
        )
    );
}

#[test]
fn default_capacity_insert() {
    let mut buffer = Buffer::new();
    buffer.insert_at_cursor("hello");
    assert_eq!(buffer.get(), ("hello", ""));
}

#[test]
fn grow_from_empty_store() {
    let mut buffer = Buffer::with_initial_capacity(0);
    buffer.insert_at_cursor("hi");
    assert_eq!(buffer.get(), ("hi", ""));
}

#[test]
fn delete_all_then_reuse() {
    let mut buffer = Buffer::with_initial_capacity(TEST_CAPACITY);
    buffer.insert_at_cursor("old content");
    buffer.delete_all();
    assert_eq!(buffer.get(), ("", ""));
    buffer.insert_at_cursor("new");
    assert_eq!(buffer.get(), ("new", ""));
}

#[test]
fn delete_nothing() {
    let mut buffer = Buffer::with_initial_capacity(TEST_CAPACITY);
    buffer.insert_at_cursor("keep me");
    buffer.delete_at_cursor(0);
    assert_eq!(buffer.get(), ("keep me", ""));
}

#[test]
fn delete_saturates_at_start() {
    let mut buffer = Buffer::with_initial_capacity(TEST_CAPACITY);
    buffer.insert_at_cursor("short");
    buffer.delete_at_cursor(100);
    assert_eq!(buffer.get(), ("", ""));
}

#[test]
fn delete_whole_cluster() {
    let mut buffer = Buffer::with_initial_capacity(TEST_CAPACITY);
    buffer.insert_at_cursor("xa̐");
    buffer.delete_at_cursor(1);
    assert_eq!(buffer.get(), ("x", ""));
}

#[test]
fn move_cursor_to_end_from_beginning() {
    let mut buffer = Buffer::with_initial_capacity(TEST_CAPACITY);
    buffer.insert_at_cursor("go to the end");
    buffer.move_cursor_to_beginning();
    buffer.move_cursor_to_end();
    assert_eq!(buffer.get(), ("go to the end", ""));
}

#[test]
fn move_cursor_down_same_column() {
    let mut buffer = Buffer::with_initial_capacity(TEST_CAPACITY);
    buffer.insert_at_cursor("abc\ndefg");
    buffer.move_cursor_to_beginning();
    buffer.move_cursor(1);
    buffer.move_cursor_down();
    assert_eq!(buffer.get(), ("abc\nd", "efg"));
}

#[test]
fn move_cursor_down_clamps_to_short_line() {
    let mut buffer = Buffer::with_initial_capacity(TEST_CAPACITY);
    buffer.insert_at_cursor("abc\nx\nyy");
    buffer.move_cursor(-5);
    buffer.move_cursor_down();
    assert_eq!(buffer.get(), ("abc\n", "x\nyy"));
}

#[test]
fn move_cursor_down_without_next_line() {
    let mut buffer = Buffer::with_initial_capacity(TEST_CAPACITY);
    buffer.insert_at_cursor("only one line");
    buffer.move_cursor(-5);
    buffer.move_cursor_down();
    assert_eq!(buffer.get(), ("only one", " line"));
}

#[test]
fn multibyte_round_trip() {
    let mut buffer = Buffer::with_initial_capacity(4);
    buffer.insert_at_cursor("héllo 😎 wörld");
    assert_eq!(buffer.get(), ("héllo 😎 wörld", ""));
}
