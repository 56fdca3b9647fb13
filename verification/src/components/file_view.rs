//! The file view: the pane that shows one file's content and lets the user
//! edit it through the gap buffer.

use vstd::prelude::*;

verus! {

use vstd::string::{StringExecFns, StrSliceExecFns};
use vstd::utf8::encode_utf8;
use crate::buffer::Buffer;
use crate::components::component::DispatchEventResult;
use crate::event::{Event, KeyInput};
use crate::graphemes::{grapheme_prefix, grapheme_suffix, clusters_back, clusters_forward};
use crate::text::{line_count, count_lines, lemma_chars_le_bytes, lemma_one_char_bytes};

/// The listing text shown for a folder: each child on its own line, behind
/// `./`.
pub open spec fn folder_listing(children: Seq<Seq<char>>) -> Seq<char>
    decreases children.len(),
{
    if children.len() == 0 {
        Seq::empty()
    } else if children.len() == 1 {
        seq!['.', '/'] + children[0]
    } else {
        folder_listing(children.drop_last()) + seq!['\n'] + (seq!['.', '/'] + children.last())
    }
}

/// Each child contributes at least its `./` prefix to the listing.
proof fn lemma_folder_listing_len(children: Seq<Seq<char>>)
    ensures
        folder_listing(children).len() >= 2 * children.len(),
    decreases children.len(),
{
    if children.len() > 1 {
        lemma_folder_listing_len(children.drop_last());
    }
}

/// The text that the view shows for each kind of content.
pub open spec fn content_text(content: FileViewContent) -> Seq<char> {
    match content {
        FileViewContent::TextFile(path, text) => text@,
        FileViewContent::BinaryFile(path) => "<binary file>"@,
        FileViewContent::Folder(path, children) => folder_listing(
            children@.map_values(|c: String| c@),
        ),
    }
}

/// The path that the view shows for each kind of content.
pub open spec fn content_path(content: FileViewContent) -> Seq<char> {
    match content {
        FileViewContent::TextFile(path, text) => path@,
        FileViewContent::BinaryFile(path) => path@,
        FileViewContent::Folder(path, children) => path@,
    }
}

/// The line count that the view keeps for each kind of content.
pub open spec fn content_line_count(content: FileViewContent) -> int {
    match content {
        FileViewContent::TextFile(path, text) => line_count(text@),
        FileViewContent::BinaryFile(path) => 1,
        FileViewContent::Folder(path, children) => children@.len() as int,
    }
}

/// What the file view shows: a text file, a binary file it will not show,
/// or a folder listing.
pub enum FileViewContent {
    TextFile(String, String),
    BinaryFile(String),
    Folder(String, Vec<String>),
}

/// The file view's state: the shown content and path, the scroll position,
/// focus, the repaint flag, and the edit buffer holding the content.
pub struct FileViewComponent {
    content: String,
    num_content_lines: i64,
    file_path: String,
    start_line: i64,
    has_focus: bool,
    needs_paint: bool,
    buffer: Buffer,
}

impl FileViewComponent {
    /// The shown content.
    pub closed spec fn spec_content(self) -> Seq<char> {
        self.content@
    }

    /// The line count of the shown content.
    pub closed spec fn spec_num_content_lines(self) -> int {
        self.num_content_lines as int
    }

    /// The shown path.
    pub closed spec fn spec_file_path(self) -> Seq<char> {
        self.file_path@
    }

    /// The first line that painting starts at.
    pub closed spec fn spec_start_line(self) -> int {
        self.start_line as int
    }

    /// Whether the view has focus.
    pub closed spec fn spec_has_focus(self) -> bool {
        self.has_focus
    }

    /// Whether the next paint pass must repaint the view.
    pub closed spec fn spec_needs_paint(self) -> bool {
        self.needs_paint
    }

    /// The edit buffer.
    pub closed spec fn spec_buffer(self) -> Buffer {
        self.buffer
    }

    /// The buffer is well formed and the scroll position lies between the
    /// first and the last line.
    pub open spec fn well_formed(self) -> bool {
        &&& self.spec_buffer().well_formed()
        &&& 0 <= self.spec_start_line() <= self.spec_num_content_lines()
    }

    /// An empty view: no content, no path, no focus, an empty buffer, and a
    /// pending first paint.
    pub fn new() -> (r: FileViewComponent)
        ensures
            r.well_formed(),
            r.spec_content() == Seq::<char>::empty(),
            r.spec_num_content_lines() == 0,
            r.spec_file_path() == Seq::<char>::empty(),
            r.spec_start_line() == 0,
            !r.spec_has_focus(),
            r.spec_needs_paint(),
            r.spec_buffer().text() == Seq::<char>::empty(),
    {
        FileViewComponent {
            content: String::new(),
            num_content_lines: 0,
            file_path: String::new(),
            start_line: 0,
            has_focus: false,
            needs_paint: true,
            buffer: Buffer::new(),
        }
    }

    /// Replaces what the view shows: the buffer is cleared and refilled with
    /// the new content, the cursor moves to its beginning, painting restarts
    /// at the first line, and a repaint is due.
    #[verifier::loop_isolation(false)]
    pub fn set_content(&mut self, content: FileViewContent)
        requires
            old(self).well_formed(),
            encode_utf8(content_text(content)).len() <= usize::MAX as int / 2,
        ensures
            final(self).well_formed(),
            final(self).spec_content() == content_text(content),
            final(self).spec_file_path() == content_path(content),
            final(self).spec_num_content_lines() == content_line_count(content),
            final(self).spec_start_line() == 0,
            final(self).spec_has_focus() == old(self).spec_has_focus(),
            final(self).spec_needs_paint(),
            final(self).spec_buffer().well_formed(),
            final(self).spec_buffer().text_left() == Seq::<char>::empty(),
            final(self).spec_buffer().text_right() == content_text(content),
    {
        self.buffer.delete_all();
        match content {
            FileViewContent::TextFile(path, text) => {
                proof {
                    lemma_chars_le_bytes(text@);
                    crate::text::lemma_line_count_le_len(text@);
                }
                self.num_content_lines = count_lines(text.as_str()) as i64;
                self.content = text;
                self.file_path = path;
            },
            FileViewContent::BinaryFile(path) => {
                self.content = String::from_str("<binary file>");
                self.num_content_lines = 1;
                self.file_path = path;
            },
            FileViewContent::Folder(path, children) => {
                proof {
                    lemma_folder_listing_len(children@.map_values(|c: String| c@));
                    lemma_chars_le_bytes(folder_listing(children@.map_values(|c: String| c@)));
                }
                self.num_content_lines = children.len() as i64;
                self.content = build_folder_listing(&children);
                self.file_path = path;
            },
        }
        self.buffer.insert_at_cursor(self.content.as_str());
        self.buffer.move_cursor_to_beginning();
        self.start_line = 0;
        self.needs_paint = true;
    }

    /// Gives or takes focus; either way a repaint is due.
    pub fn set_has_focus(&mut self, focused: bool)
        ensures
            final(self).well_formed() == old(self).well_formed(),
            final(self).spec_has_focus() == focused,
            final(self).spec_needs_paint(),
            final(self).spec_content() == old(self).spec_content(),
            final(self).spec_file_path() == old(self).spec_file_path(),
            final(self).spec_start_line() == old(self).spec_start_line(),
            final(self).spec_num_content_lines() == old(self).spec_num_content_lines(),
            final(self).spec_buffer() == old(self).spec_buffer(),
    {
        self.has_focus = focused;
        self.needs_paint = true;
    }

    /// The edit buffer and the path of the shown file, for saving.
    pub fn get_buffer(&self) -> (r: (&Buffer, String))
        ensures
            *r.0 == self.spec_buffer(),
            r.1@ == self.spec_file_path(),
    {
        (&self.buffer, self.file_path.clone())
    }

    /// Scrolls one line down, stopping at the last content line.
    pub fn scroll_down(&mut self)
        requires
            old(self).well_formed(),
        ensures
            final(self).well_formed(),
            final(self).spec_start_line() == (if old(self).spec_start_line() < old(self).spec_num_content_lines() {
                old(self).spec_start_line() + 1
            } else {
                old(self).spec_start_line()
            }),
            old(self).spec_start_line() < old(self).spec_num_content_lines() ==> final(self).spec_needs_paint(),
            final(self).spec_buffer() == old(self).spec_buffer(),
            final(self).spec_content() == old(self).spec_content(),
            final(self).spec_num_content_lines() == old(self).spec_num_content_lines(),
    {
        if self.start_line < self.num_content_lines {
            self.start_line = self.start_line + 1;
            self.needs_paint = true;
        }
    }

    /// Scrolls one line up, stopping at the first line.
    pub fn scroll_up(&mut self)
        requires
            old(self).well_formed(),
        ensures
            final(self).well_formed(),
            final(self).spec_start_line() == (if old(self).spec_start_line() > 0 {
                old(self).spec_start_line() - 1
            } else {
                old(self).spec_start_line()
            }),
            old(self).spec_start_line() > 0 ==> final(self).spec_needs_paint(),
            final(self).spec_buffer() == old(self).spec_buffer(),
            final(self).spec_content() == old(self).spec_content(),
            final(self).spec_num_content_lines() == old(self).spec_num_content_lines(),
    {
        if self.start_line > 0 {
            self.start_line = self.start_line - 1;
            self.needs_paint = true;
        }
    }

    /// Reads and clears the repaint flag: the caller paints exactly when
    /// this returns true.
    pub fn take_needs_paint(&mut self) -> (r: bool)
        ensures
            r == old(self).spec_needs_paint(),
            !final(self).spec_needs_paint(),
            final(self).spec_buffer() == old(self).spec_buffer(),
            final(self).spec_content() == old(self).spec_content(),
            final(self).well_formed() == old(self).well_formed(),
    {
        let r = self.needs_paint;
        self.needs_paint = false;
        r
    }

    /// Applies one key stroke to the view: the arrow keys move the cursor,
    /// characters are inserted, backspace deletes, escape drops focus and
    /// control-s asks for a save. Returns whether the key was handled and
    /// the events to pass on.
    pub fn dispatch_key(&mut self, key: KeyInput) -> (r: DispatchEventResult)
        requires
            old(self).well_formed(),
            old(self).spec_buffer().byte_len() + 4 <= usize::MAX as int / 2 + 1,
        ensures
            final(self).well_formed(),
            final(self).spec_content() == old(self).spec_content(),
            final(self).spec_file_path() == old(self).spec_file_path(),
            final(self).spec_start_line() == old(self).spec_start_line(),
            final(self).spec_num_content_lines() == old(self).spec_num_content_lines(),
            final(self).spec_has_focus() == old(self).spec_has_focus(),
            r.handled == (match key {
                KeyInput::Ctrl(c) => c == 's',
                _ => true,
            }),
            r.events@ == (match key {
                KeyInput::Esc => seq![Event::FileViewLostFocus],
                KeyInput::Ctrl(c) => if c == 's' {
                    seq![Event::FileSaved]
                } else {
                    Seq::<Event>::empty()
                },
                _ => Seq::<Event>::empty(),
            }),
            ({
                let b = old(self).spec_buffer();
                match key {
                    KeyInput::Left => final(self).spec_buffer().text_left() == grapheme_prefix(
                        b.text_left(),
                        clusters_back(b.text_left(), 1),
                    ) && final(self).spec_buffer().text_right() == grapheme_suffix(
                        b.text_left(),
                        clusters_back(b.text_left(), 1),
                    ) + b.text_right(),
                    KeyInput::Right => final(self).spec_buffer().text_left() == b.text_left()
                        + grapheme_prefix(b.text_right(), clusters_forward(b.text_right(), 1))
                        && final(self).spec_buffer().text_right() == grapheme_suffix(
                        b.text_right(),
                        clusters_forward(b.text_right(), 1),
                    ),
                    KeyInput::Char(c) => final(self).spec_buffer().text_left() == b.text_left()
                        + seq![c] && final(self).spec_buffer().text_right() == b.text_right(),
                    KeyInput::Backspace => final(self).spec_buffer().text_left()
                        == grapheme_prefix(b.text_left(), clusters_back(b.text_left(), 1))
                        && final(self).spec_buffer().text_right() == b.text_right(),
                    _ => final(self).spec_buffer() == b,
                }
            }),
            final(self).spec_needs_paint() == (match key {
                KeyInput::Esc => old(self).spec_needs_paint(),
                KeyInput::Ctrl(c) => old(self).spec_needs_paint(),
                _ => true,
            }),
    {
        let mut events: Vec<Event> = Vec::new();
        let handled: bool;
        match key {
            KeyInput::Down => {
                self.needs_paint = true;
                handled = true;
            },
            KeyInput::Left => {
                self.buffer.move_cursor_left(1);
                self.needs_paint = true;
                handled = true;
            },
            KeyInput::Right => {
                self.buffer.move_cursor_right(1);
                self.needs_paint = true;
                handled = true;
            },
            KeyInput::Up => {
                self.needs_paint = true;
                handled = true;
            },
            KeyInput::Char(c) => {
                let mut one = String::new();
                one.push(c);
                proof {
                    lemma_one_char_bytes(c);
                    assert(one@ =~= seq![c]);
                }
                self.buffer.insert_at_cursor(one.as_str());
                self.needs_paint = true;
                handled = true;
            },
            KeyInput::Backspace => {
                self.buffer.delete_at_cursor(1);
                self.needs_paint = true;
                handled = true;
            },
            KeyInput::Esc => {
                events.push(Event::FileViewLostFocus);
                handled = true;
            },
            KeyInput::Ctrl(c) => {
                if c == 's' {
                    events.push(Event::FileSaved);
                    handled = true;
                } else {
                    handled = false;
                }
            },
        }
        proof {
            assert(Seq::<Event>::empty().push(Event::FileViewLostFocus) =~= seq![
                Event::FileViewLostFocus
            ]);
            assert(Seq::<Event>::empty().push(Event::FileSaved) =~= seq![Event::FileSaved]);
        }
        DispatchEventResult { handled, events }
    }
}

/// Builds the folder listing text: each child on its own line, behind `./`.
#[verifier::loop_isolation(false)]
fn build_folder_listing(children: &Vec<String>) -> (r: String)
    ensures
        r@ == folder_listing(children@.map_values(|c: String| c@)),
{
    let ghost cs = children@.map_values(|c: String| c@);
    let mut r = String::new();
    let mut i: usize = 0;
    proof {
        reveal_strlit("\n");
        reveal_strlit("./");
        assert("\n"@ =~= seq!['\n']);
        assert("./"@ =~= seq!['.', '/']);
        assert(cs.subrange(0, 0) =~= Seq::<Seq<char>>::empty());
    }
    while i < children.len()
        invariant
            0 <= i <= children@.len(),
            r@ == folder_listing(cs.subrange(0, i as int)),
        decreases children@.len() - i,
    {
        if i > 0 {
            r.append("\n");
        }
        r.append("./");
        r.append(children[i].as_str());
        proof {
            let pre = cs.subrange(0, i as int + 1);
            assert(pre.drop_last() =~= cs.subrange(0, i as int));
            assert(pre.last() == cs[i as int]);
            assert(children[i as int]@ == cs[i as int]);
            if i == 0 {
                assert(r@ =~= seq!['.', '/'] + cs[0]);
                assert(folder_listing(pre) == seq!['.', '/'] + pre[0]);
            } else {
                assert(r@ =~= folder_listing(cs.subrange(0, i as int)) + seq!['\n'] + (seq![
                    '.',
                    '/'
                ] + cs[i as int]));
            }
        }
        i = i + 1;
    }
    proof {
        assert(cs.subrange(0, children@.len() as int) =~= cs);
    }
    r
}

} // verus!
