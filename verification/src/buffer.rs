//! A gap buffer over a contiguous byte array.
//!
//! The array is split into three regions: a Left range `[0, left_end)`, an
//! unused gap `[left_end, right_start)`, and a Right range
//! `[right_start, store.len())`. The logical content is the UTF-8 decoding of
//! the Left bytes followed by the decoding of the Right bytes; the cursor is
//! the boundary between them. Bytes inside the gap are never read and may
//! hold anything. Inserting writes into the gap at `left_end`; moving the
//! cursor shifts bytes between the two ranges with in-place, overlap-safe
//! block moves; when an insertion does not fit, the store grows to the next
//! power of two that holds it.

use vstd::prelude::*;

verus! {

use vstd::string::StringSliceAdditionalSpecFns;
use vstd::utf8::{valid_utf8, decode_utf8, encode_utf8};
use vstd::utf8::{encode_utf8_valid_utf8, encode_utf8_decode_utf8, decode_utf8_encode_utf8};
use vstd::utf8::{is_char_boundary, valid_utf8_split, valid_utf8_concat};
use vstd::utf8::is_char_boundary_start_end_of_seq;
use vstd::slice::slice_subrange;
use vstd::seq_lib::*;
use vstd::string::StrSliceExecFns;
use crate::text::{bytes_to_str, lemma_encode_utf8_concat, lemma_char_boundary_at_encode};
use crate::text::{
    line_start,
    find_char_from,
    rfind_char,
    lemma_index_of_first_is,
    lemma_index_of_first_none,
    lemma_index_of_last_is,
    lemma_index_of_last_none,
};
use crate::graphemes::{
    grapheme_split,
    grapheme_tiling,
    grapheme_count,
    grapheme_prefix,
    grapheme_suffix,
    clusters_back,
    clusters_forward,
    grapheme_clusters,
    clusters_prefix_byte_len,
    clusters_prefix_char_len,
    lemma_grapheme_split_parts,
};

/// Clusters returned by the segmentation wrapper witness that their string
/// is tiled by its grapheme split.
proof fn lemma_tiling_from_clusters(cl: Seq<String>, s: Seq<char>)
    requires
        cl.map_values(|g: String| g@) == grapheme_split(s),
        cl.map_values(|g: String| g@).flatten() == s,
        forall|i: int| 0 <= i < cl.len() ==> (#[trigger] cl[i])@.len() > 0,
    ensures
        grapheme_tiling(s),
{
    assert forall|i: int| 0 <= i < grapheme_split(s).len() implies (#[trigger] grapheme_split(
        s,
    )[i]).len() > 0 by {
        assert(grapheme_split(s)[i] == cl.map_values(|g: String| g@)[i]);
        assert(cl.map_values(|g: String| g@)[i] == cl[i]@);
    }
}

/// The capacity, in bytes, that `Buffer::new` starts with.
pub const DEFAULT_INITIAL_CAPACITY: usize = 10 * 1024;

/// Where the cursor lands when it moves down one line, counted in characters
/// from the start of `right`: just past the first line break, plus the
/// characters of the target line up to the current grapheme-cluster column,
/// clamped to the start of the target line's last cluster when the line is
/// shorter. Meaningful when `right` holds a line break.
pub open spec fn down_move_len(left: Seq<char>, right: Seq<char>) -> int {
    match right.index_of_first('\n') {
        None => 0,
        Some(j) => {
            let line_begin = j + 1;
            let line_end = match right.subrange(line_begin, right.len() as int).index_of_first(
                '\n',
            ) {
                Some(d) => line_begin + d,
                None => right.len() as int,
            };
            let target_line = right.subrange(line_begin, line_end);
            let column = grapheme_count(left.subrange(line_start(left), left.len() as int)) as int;
            let target_count = grapheme_count(target_line) as int;
            let offset = if column < target_count {
                grapheme_prefix(target_line, column).len() as int
            } else if target_count > 0 {
                grapheme_prefix(target_line, target_count - 1).len() as int
            } else {
                0
            };
            line_begin + offset
        },
    }
}

/// Splitting a valid UTF-8 byte sequence at a cluster boundary of its
/// decoding splits it into the encodings of the cluster prefix and suffix,
/// and the split point is a character boundary.
proof fn lemma_split_bytes_at_cluster(bytes: Seq<u8>, k: int)
    requires
        valid_utf8(bytes),
        grapheme_tiling(decode_utf8(bytes)),
        0 <= k <= grapheme_count(decode_utf8(bytes)),
    ensures
        ({
            let s = decode_utf8(bytes);
            let t = encode_utf8(grapheme_prefix(s, k)).len() as int;
            &&& 0 <= t <= bytes.len()
            &&& is_char_boundary(bytes, t)
            &&& bytes.subrange(0, t) == encode_utf8(grapheme_prefix(s, k))
            &&& bytes.subrange(t, bytes.len() as int) == encode_utf8(grapheme_suffix(s, k))
        }),
{
    let s = decode_utf8(bytes);
    let p = grapheme_prefix(s, k);
    let q = grapheme_suffix(s, k);
    let t = encode_utf8(p).len() as int;
    lemma_grapheme_split_parts(s, k);
    decode_utf8_encode_utf8(bytes);
    lemma_encode_utf8_concat(p, q);
    assert(bytes == encode_utf8(p) + encode_utf8(q));
    lemma_char_boundary_at_encode(p, q);
    assert(bytes.subrange(0, t) =~= encode_utf8(p));
    assert(bytes.subrange(t, bytes.len() as int) =~= encode_utf8(q));
}

/// True when `n` is a power of two.
pub open spec fn is_pow2(n: int) -> bool
    decreases n,
{
    if n <= 0 {
        false
    } else if n == 1 {
        true
    } else {
        n % 2 == 0 && is_pow2(n / 2)
    }
}

/// The least power of two that is at least `x` (and at least 1).
pub open spec fn spec_next_pow2(x: int) -> int
    decreases x,
{
    if x <= 1 {
        1
    } else {
        2 * spec_next_pow2((x + 1) / 2)
    }
}

/// `spec_next_pow2(x)` is a power of two no smaller than `x`.
pub proof fn lemma_next_pow2_bounds(x: int)
    ensures
        spec_next_pow2(x) >= 1,
        spec_next_pow2(x) >= x,
        is_pow2(spec_next_pow2(x)),
    decreases x,
{
    if x <= 1 {
    } else {
        lemma_next_pow2_bounds((x + 1) / 2);
    }
}

/// Growth correctness, minimality: no smaller power of two reaches `x`, so
/// `spec_next_pow2(x)` is the least power of two accommodating `x`.
pub proof fn lemma_next_pow2_least(x: int, p: int)
    requires
        is_pow2(p),
        p >= x,
    ensures
        p >= spec_next_pow2(x),
    decreases x,
{
    if x <= 1 {
    } else {
        assert(p > 1);
        assert(p % 2 == 0 && is_pow2(p / 2));
        assert(p / 2 >= (x + 1) / 2);
        lemma_next_pow2_least((x + 1) / 2, p / 2);
    }
}

/// Two powers of two in strict order are at least a factor of two apart.
proof fn lemma_pow2_gap(p: int, q: int)
    requires
        is_pow2(p),
        is_pow2(q),
        q > p,
    ensures
        q >= 2 * p,
    decreases q,
{
    if p == 1 {
        assert(q % 2 == 0);
    } else {
        assert(q > 1);
        lemma_pow2_gap(p / 2, q / 2);
    }
}

/// The least power of two at least `x`, computed by doubling.
#[verifier::loop_isolation(false)]
fn next_pow2(x: usize) -> (r: usize)
    requires
        x as int <= usize::MAX as int / 2 + 1,
    ensures
        r as int == spec_next_pow2(x as int),
{
    let mut p: usize = 1;
    while p < x
        invariant
            1 <= p,
            is_pow2(p as int),
            forall|q: int| is_pow2(q) && q >= x as int ==> q >= p as int,
        decreases 2 * x as int - p as int,
    {
        proof {
            assert forall|q: int| is_pow2(q) && q >= x as int implies q >= 2 * p as int by {
                lemma_pow2_gap(p as int, q);
            }
        }
        p = p * 2;
    }
    proof {
        lemma_next_pow2_bounds(x as int);
        lemma_next_pow2_least(x as int, p as int);
    }
    p
}

/// The gap buffer: a byte store with the Left range `[0, left_end)`, the
/// gap `[left_end, right_start)`, and the Right range to the store's end.
pub struct Buffer {
    store: Vec<u8>,
    left_end: usize,
    right_start: usize,
}

impl Buffer {
    /// The bytes of the Left range.
    pub closed spec fn left_bytes(self) -> Seq<u8> {
        self.store@.subrange(0, self.left_end as int)
    }

    /// The bytes of the Right range.
    pub closed spec fn right_bytes(self) -> Seq<u8> {
        self.store@.subrange(self.right_start as int, self.store@.len() as int)
    }

    /// The ranges are ordered and inside the store, and each holds valid
    /// UTF-8. Every public operation preserves this.
    pub closed spec fn well_formed(self) -> bool {
        &&& self.left_end <= self.right_start <= self.store@.len()
        &&& valid_utf8(self.left_bytes())
        &&& valid_utf8(self.right_bytes())
    }

    /// The text before the cursor.
    pub open spec fn text_left(self) -> Seq<char> {
        decode_utf8(self.left_bytes())
    }

    /// The text after the cursor.
    pub open spec fn text_right(self) -> Seq<char> {
        decode_utf8(self.right_bytes())
    }

    /// The logical content: the Left text followed by the Right text.
    pub open spec fn text(self) -> Seq<char> {
        self.text_left() + self.text_right()
    }

    /// The total size of the store in bytes.
    pub closed spec fn capacity(self) -> int {
        self.store@.len() as int
    }

    /// The size of the gap in bytes.
    pub closed spec fn gap_len(self) -> int {
        self.right_start - self.left_end
    }

    /// The number of content bytes (Left and Right together).
    pub open spec fn byte_len(self) -> int {
        self.capacity() - self.gap_len()
    }

    /// A well-formed buffer's Left range holds exactly the encoding of its
    /// Left text, and likewise on the right; the content bytes are the
    /// encoding of the content.
    pub proof fn lemma_bytes_encode_text(self)
        requires
            self.well_formed(),
        ensures
            self.left_bytes() == encode_utf8(self.text_left()),
            self.right_bytes() == encode_utf8(self.text_right()),
            self.left_bytes().len() + self.right_bytes().len() == self.byte_len(),
    {
        decode_utf8_encode_utf8(self.left_bytes());
        decode_utf8_encode_utf8(self.right_bytes());
    }

    /// Creates a buffer with the default initial capacity.
    pub fn new() -> (r: Buffer)
        ensures
            r.well_formed(),
            r.text_left() == Seq::<char>::empty(),
            r.text_right() == Seq::<char>::empty(),
            r.capacity() == DEFAULT_INITIAL_CAPACITY,
            r.byte_len() == 0,
    {
        Buffer::with_initial_capacity(DEFAULT_INITIAL_CAPACITY)
    }

    /// Creates a buffer whose store holds `capacity` bytes, all of them gap:
    /// the Left and Right ranges are empty.
    pub fn with_initial_capacity(capacity: usize) -> (r: Buffer)
        ensures
            r.well_formed(),
            r.text_left() == Seq::<char>::empty(),
            r.text_right() == Seq::<char>::empty(),
            r.capacity() == capacity,
            r.byte_len() == 0,
    {
        let store: Vec<u8> = vec![0u8; capacity];
        let r = Buffer { store, left_end: 0, right_start: capacity };
        proof {
            assert(r.left_bytes() =~= Seq::<u8>::empty());
            assert(r.right_bytes() =~= Seq::<u8>::empty());
            assert(decode_utf8(Seq::<u8>::empty()) =~= Seq::<char>::empty());
        }
        r
    }

    /// Returns the Left and Right texts as two string slices, without copying
    /// the content.
    pub fn get(&self) -> (r: (&str, &str))
        requires
            self.well_formed(),
        ensures
            r.0@ == self.text_left(),
            r.1@ == self.text_right(),
    {
        let left = bytes_to_str(slice_subrange(self.store.as_slice(), 0, self.left_end));
        let right = bytes_to_str(
            slice_subrange(self.store.as_slice(), self.right_start, self.store.len()),
        );
        proof {
            encode_utf8_decode_utf8(left@);
            encode_utf8_decode_utf8(right@);
        }
        (left, right)
    }

    /// Clears the logical content in constant time: both ranges become empty
    /// and the whole store is gap. The capacity is retained.
    pub fn delete_all(&mut self)
        ensures
            final(self).well_formed(),
            final(self).text_left() == Seq::<char>::empty(),
            final(self).text_right() == Seq::<char>::empty(),
            final(self).capacity() == old(self).capacity(),
            final(self).byte_len() == 0,
    {
        self.left_end = 0;
        self.right_start = self.store.len();
        proof {
            assert(self.left_bytes() =~= Seq::<u8>::empty());
            assert(self.right_bytes() =~= Seq::<u8>::empty());
            assert(decode_utf8(Seq::<u8>::empty()) =~= Seq::<char>::empty());
        }
    }

    /// Moves the cursor left to the byte offset `target_cursor_buffer_index`
    /// of the store, which must be a character boundary inside the Left
    /// range. The bytes between the target and the cursor move to the front
    /// of the Right range with an overlap-safe block move.
    #[verifier::loop_isolation(false)]
    fn move_cursor_left_to(&mut self, target_cursor_buffer_index: usize)
        requires
            old(self).well_formed(),
            target_cursor_buffer_index <= old(self).left_end,
            is_char_boundary(old(self).left_bytes(), target_cursor_buffer_index as int),
        ensures
            final(self).well_formed(),
            final(self).capacity() == old(self).capacity(),
            final(self).left_bytes() == old(self).left_bytes().subrange(
                0,
                target_cursor_buffer_index as int,
            ),
            final(self).right_bytes() == old(self).left_bytes().subrange(
                target_cursor_buffer_index as int,
                old(self).left_bytes().len() as int,
            ) + old(self).right_bytes(),
    {
        let t = target_cursor_buffer_index;
        let cnt = self.left_end - t;
        let destination = self.right_start - cnt;
        let mut j: usize = 0;
        while j < cnt
            invariant
                0 <= j <= cnt,
                self.left_end == old(self).left_end,
                self.right_start == old(self).right_start,
                self.store@.len() == old(self).store@.len(),
                forall|p: int|
                    0 <= p < self.store@.len() && !(self.right_start - j <= p < self.right_start)
                        ==> self.store@[p] == old(self).store@[p],
                forall|p: int|
                    self.right_start - j <= p < self.right_start ==> #[trigger] self.store@[p]
                        == old(self).store@[p + self.left_end - self.right_start],
            decreases cnt - j,
        {
            let b = self.store[self.left_end - 1 - j];
            self.store[self.right_start - 1 - j] = b;
            j = j + 1;
        }
        self.left_end = t;
        self.right_start = destination;
        proof {
            let old_left = old(self).left_bytes();
            assert(self.left_bytes() =~= old_left.subrange(0, t as int));
            assert(self.right_bytes() =~= old_left.subrange(t as int, old_left.len() as int)
                + old(self).right_bytes());
            valid_utf8_split(old_left, t as int);
            valid_utf8_concat(
                old_left.subrange(t as int, old_left.len() as int),
                old(self).right_bytes(),
            );
        }
    }

    /// Moves the cursor right to the byte offset `target_cursor_buffer_index`
    /// of the store, which must be a character boundary inside the Right
    /// range. The bytes between the Right range's start and the target move
    /// to the end of the Left range with an overlap-safe block move.
    #[verifier::loop_isolation(false)]
    fn move_cursor_right_to(&mut self, target_cursor_buffer_index: usize)
        requires
            old(self).well_formed(),
            old(self).right_start <= target_cursor_buffer_index <= old(self).store@.len(),
            is_char_boundary(
                old(self).right_bytes(),
                target_cursor_buffer_index - old(self).right_start,
            ),
        ensures
            final(self).well_formed(),
            final(self).capacity() == old(self).capacity(),
            final(self).left_bytes() == old(self).left_bytes() + old(self).right_bytes().subrange(
                0,
                target_cursor_buffer_index - old(self).right_start,
            ),
            final(self).right_bytes() == old(self).right_bytes().subrange(
                target_cursor_buffer_index - old(self).right_start,
                old(self).right_bytes().len() as int,
            ),
    {
        let t = target_cursor_buffer_index;
        let cnt = t - self.right_start;
        let mut j: usize = 0;
        while j < cnt
            invariant
                0 <= j <= cnt,
                self.left_end == old(self).left_end,
                self.right_start == old(self).right_start,
                self.store@.len() == old(self).store@.len(),
                forall|p: int|
                    0 <= p < self.store@.len() && !(self.left_end <= p < self.left_end + j)
                        ==> self.store@[p] == old(self).store@[p],
                forall|p: int|
                    self.left_end <= p < self.left_end + j ==> #[trigger] self.store@[p] == old(
                        self,
                    ).store@[p - self.left_end + self.right_start],
            decreases cnt - j,
        {
            let b = self.store[self.right_start + j];
            self.store[self.left_end + j] = b;
            j = j + 1;
        }
        self.left_end = self.left_end + cnt;
        self.right_start = t;
        proof {
            let old_right = old(self).right_bytes();
            assert(self.left_bytes() =~= old(self).left_bytes() + old_right.subrange(
                0,
                cnt as int,
            ));
            assert(self.right_bytes() =~= old_right.subrange(cnt as int, old_right.len() as int));
            valid_utf8_split(old_right, cnt as int);
            valid_utf8_concat(old(self).left_bytes(), old_right.subrange(0, cnt as int));
        }
    }

    /// Round trip: inserting `s` into a buffer with empty content (as
    /// `insert_at_cursor` ensures) leaves exactly `s` before the cursor and
    /// nothing after it, so `get` returns `(s, "")`.
    pub proof fn lemma_insert_into_empty(pre: Buffer, post: Buffer, s: Seq<char>)
        requires
            pre.text().len() == 0,
            post.text_left() == pre.text_left() + s,
            post.text_right() == pre.text_right(),
        ensures
            post.text_left() == s,
            post.text_right() == Seq::<char>::empty(),
            post.text() == s,
    {
        assert(pre.text_left() =~= Seq::<char>::empty());
        assert(pre.text_right() =~= Seq::<char>::empty());
        assert(post.text_left() =~= s);
        assert(post.text_right() =~= Seq::<char>::empty());
        assert(post.text() =~= s);
    }

    fn gap_size(&self) -> (r: usize)
        requires
            self.well_formed(),
        ensures
            r == self.gap_len(),
    {
        self.right_start - self.left_end
    }

    /// Reallocates the store so that the gap holds at least
    /// `target_gap_size` bytes: the new capacity is the least power of two
    /// that holds the content plus the requested gap. The Left range stays at
    /// the front; the Right range moves to the very end of the new store.
    #[verifier::loop_isolation(false)]
    fn grow(&mut self, target_gap_size: usize)
        requires
            old(self).well_formed(),
            target_gap_size > old(self).gap_len(),
            old(self).byte_len() + target_gap_size <= usize::MAX as int / 2 + 1,
        ensures
            final(self).well_formed(),
            final(self).left_bytes() == old(self).left_bytes(),
            final(self).right_bytes() == old(self).right_bytes(),
            final(self).capacity() == spec_next_pow2(old(self).byte_len() + target_gap_size),
            final(self).gap_len() >= target_gap_size,
    {
        let needed = self.store.len() - self.gap_size() + target_gap_size;
        let new_length = next_pow2(needed);
        proof {
            lemma_next_pow2_bounds(needed as int);
        }
        let old_length = self.store.len();
        let num_right_bytes = old_length - self.right_start;
        let destination = new_length - num_right_bytes;
        self.store.resize(new_length, 0u8);
        let mut j: usize = num_right_bytes;
        while j > 0
            invariant
                0 <= j <= num_right_bytes,
                self.left_end == old(self).left_end,
                self.right_start == old(self).right_start,
                self.store@.len() == new_length,
                forall|p: int|
                    0 <= p < old_length && p < destination + j ==> #[trigger] self.store@[p]
                        == old(self).store@[p],
                forall|p: int|
                    destination + j <= p < new_length ==> #[trigger] self.store@[p] == old(
                        self,
                    ).store@[p - destination + self.right_start],
            decreases j,
        {
            j = j - 1;
            let b = self.store[self.right_start + j];
            self.store[destination + j] = b;
        }
        self.right_start = destination;
        proof {
            assert(self.left_bytes() =~= old(self).left_bytes());
            assert(self.right_bytes() =~= old(self).right_bytes());
        }
    }

    /// Moves the cursor left by `number_of_characters` grapheme clusters,
    /// saturating at the start of the content. The content itself does not
    /// change; the crossed clusters move whole from the Left text to the
    /// Right text.
    pub fn move_cursor_left(&mut self, number_of_characters: usize)
        requires
            old(self).well_formed(),
        ensures
            final(self).well_formed(),
            final(self).capacity() == old(self).capacity(),
            final(self).text() == old(self).text(),
            final(self).text_left() == grapheme_prefix(
                old(self).text_left(),
                clusters_back(old(self).text_left(), number_of_characters as int),
            ),
            final(self).text_right() == grapheme_suffix(
                old(self).text_left(),
                clusters_back(old(self).text_left(), number_of_characters as int),
            ) + old(self).text_right(),
    {
        let ghost left_text = old(self).text_left();
        let (left, _right) = self.get();
        let clusters = grapheme_clusters(left);
        proof {
            lemma_tiling_from_clusters(clusters@, left_text);
        }
        let k = clusters.len();
        let target_k = if number_of_characters <= k {
            k - number_of_characters
        } else {
            0
        };
        proof {
            assert(encode_utf8(clusters@.map_values(|g: String| g@).flatten()).len()
                == old(self).left_bytes().len()) by {
                old(self).lemma_bytes_encode_text();
            }
        }
        let t = clusters_prefix_byte_len(&clusters, target_k);
        proof {
            old(self).lemma_bytes_encode_text();
            lemma_split_bytes_at_cluster(old(self).left_bytes(), target_k as int);
        }
        self.move_cursor_left_to(t);
        proof {
            let p = grapheme_prefix(left_text, target_k as int);
            let q = grapheme_suffix(left_text, target_k as int);
            encode_utf8_decode_utf8(p);
            old(self).lemma_bytes_encode_text();
            lemma_encode_utf8_concat(q, old(self).text_right());
            encode_utf8_decode_utf8(q + old(self).text_right());
            lemma_grapheme_split_parts(left_text, target_k as int);
            assert((p + (q + old(self).text_right())) =~= ((p + q) + old(self).text_right()));
        }
    }

    /// Moves the cursor right by `number_of_characters` grapheme clusters,
    /// saturating at the end of the content. The content itself does not
    /// change; the crossed clusters move whole from the Right text to the
    /// Left text.
    pub fn move_cursor_right(&mut self, number_of_characters: usize)
        requires
            old(self).well_formed(),
        ensures
            final(self).well_formed(),
            final(self).capacity() == old(self).capacity(),
            final(self).text() == old(self).text(),
            final(self).text_left() == old(self).text_left() + grapheme_prefix(
                old(self).text_right(),
                clusters_forward(old(self).text_right(), number_of_characters as int),
            ),
            final(self).text_right() == grapheme_suffix(
                old(self).text_right(),
                clusters_forward(old(self).text_right(), number_of_characters as int),
            ),
    {
        let ghost right_text = old(self).text_right();
        let store_len = self.store.len();
        let (_left, right) = self.get();
        let clusters = grapheme_clusters(right);
        proof {
            lemma_tiling_from_clusters(clusters@, right_text);
        }
        let k = clusters.len();
        let target_k = if number_of_characters <= k {
            number_of_characters
        } else {
            k
        };
        proof {
            assert(encode_utf8(clusters@.map_values(|g: String| g@).flatten()).len()
                == old(self).right_bytes().len()) by {
                old(self).lemma_bytes_encode_text();
            }
        }
        let offset = clusters_prefix_byte_len(&clusters, target_k);
        proof {
            old(self).lemma_bytes_encode_text();
            lemma_split_bytes_at_cluster(old(self).right_bytes(), target_k as int);
        }
        let t = self.right_start + offset;
        self.move_cursor_right_to(t);
        proof {
            let p = grapheme_prefix(right_text, target_k as int);
            let q = grapheme_suffix(right_text, target_k as int);
            encode_utf8_decode_utf8(q);
            old(self).lemma_bytes_encode_text();
            lemma_encode_utf8_concat(old(self).text_left(), p);
            encode_utf8_decode_utf8(old(self).text_left() + p);
            lemma_grapheme_split_parts(right_text, target_k as int);
            assert(((old(self).text_left() + p) + q) =~= (old(self).text_left() + (p + q)));
        }
    }

    /// Moves the cursor by `offset` grapheme clusters: negative values move
    /// left, positive values move right, and zero changes nothing at all.
    pub fn move_cursor(&mut self, offset: isize)
        requires
            old(self).well_formed(),
            offset > isize::MIN,
        ensures
            final(self).well_formed(),
            final(self).capacity() == old(self).capacity(),
            final(self).text() == old(self).text(),
            offset == 0 ==> *final(self) == *old(self),
            offset < 0 ==> final(self).text_left() == grapheme_prefix(
                old(self).text_left(),
                clusters_back(old(self).text_left(), -offset as int),
            ) && final(self).text_right() == grapheme_suffix(
                old(self).text_left(),
                clusters_back(old(self).text_left(), -offset as int),
            ) + old(self).text_right(),
            offset > 0 ==> final(self).text_left() == old(self).text_left() + grapheme_prefix(
                old(self).text_right(),
                clusters_forward(old(self).text_right(), offset as int),
            ) && final(self).text_right() == grapheme_suffix(
                old(self).text_right(),
                clusters_forward(old(self).text_right(), offset as int),
            ),
    {
        if offset < 0 {
            self.move_cursor_left((-offset) as usize);
        } else if offset > 0 {
            self.move_cursor_right(offset as usize);
        }
    }

    /// Moves the cursor down one line, to the same grapheme-cluster column
    /// in the next line of the Right text. When the Right text holds no line
    /// break there is no next line and nothing changes. When the next line is
    /// shorter than the current column, the cursor lands on the start of that
    /// line's last grapheme cluster (or at the line's start when it is
    /// empty). The content itself does not change.
    #[verifier::rlimit(60)]
    pub fn move_cursor_down(&mut self)
        requires
            old(self).well_formed(),
        ensures
            final(self).well_formed(),
            final(self).capacity() == old(self).capacity(),
            final(self).text() == old(self).text(),
            old(self).text_right().index_of_first('\n') is None ==> *final(self) == *old(self),
            old(self).text_right().index_of_first('\n') is Some ==> ({
                let m = down_move_len(old(self).text_left(), old(self).text_right());
                &&& final(self).text_left() == old(self).text_left() + old(
                    self,
                ).text_right().subrange(0, m)
                &&& final(self).text_right() == old(self).text_right().subrange(
                    m,
                    old(self).text_right().len() as int,
                )
            }),
    {
        let ghost left_text = old(self).text_left();
        let ghost right_text = old(self).text_right();
        let store_len = self.store.len();
        let (left, right) = self.get();
        let right_char_len = right.unicode_len();
        let maybe_newline = find_char_from(right, 0, '\n');
        if maybe_newline.is_none() {
            proof {
                lemma_index_of_first_none(right_text, '\n');
            }
            return ;
        }
        let j = maybe_newline.unwrap();
        proof {
            lemma_index_of_first_is(right_text, '\n', j as int);
        }
        let line_begin = j + 1;
        let maybe_second = find_char_from(right, line_begin, '\n');
        let line_end = match maybe_second {
            Some(e) => e,
            None => right_char_len,
        };
        proof {
            let sub = right_text.subrange(line_begin as int, right_text.len() as int);
            match maybe_second {
                Some(e) => {
                    assert(sub[e - line_begin] == right_text[e as int]);
                    assert forall|k: int| 0 <= k < e - line_begin implies sub[k] != '\n' by {
                        assert(sub[k] == right_text[line_begin + k]);
                    }
                    lemma_index_of_first_is(sub, '\n', e - line_begin);
                },
                None => {
                    assert forall|k: int| 0 <= k < sub.len() implies sub[k] != '\n' by {
                        assert(sub[k] == right_text[line_begin + k]);
                    }
                    lemma_index_of_first_none(sub, '\n');
                },
            }
        }
        let left_char_len = left.unicode_len();
        let maybe_last = rfind_char(left, '\n');
        let current_line_start = match maybe_last {
            Some(i) => i + 1,
            None => 0,
        };
        proof {
            match maybe_last {
                Some(i) => {
                    lemma_index_of_last_is(left_text, '\n', i as int);
                },
                None => {
                    lemma_index_of_last_none(left_text, '\n');
                },
            }
            assert(line_start(left_text) == current_line_start);
        }
        let current_line = left.substring_char(current_line_start, left_char_len);
        let current_clusters = grapheme_clusters(current_line);
        let column = current_clusters.len();
        let target_line = right.substring_char(line_begin, line_end);
        let target_clusters = grapheme_clusters(target_line);
        proof {
            lemma_tiling_from_clusters(target_clusters@, target_line@);
        }
        let target_count = target_clusters.len();
        let cluster_cut = if column < target_count {
            column
        } else if target_count > 0 {
            target_count - 1
        } else {
            0
        };
        let offset = clusters_prefix_char_len(&target_clusters, cluster_cut);
        proof {
            lemma_grapheme_split_parts(target_line@, cluster_cut as int);
            assert(offset <= target_line@.len());
        }
        let moved_chars = line_begin + offset;
        proof {
            assert(moved_chars == down_move_len(left_text, right_text));
        }
        let moved = right.substring_char(0, moved_chars);
        let byte_count = moved.len();
        let ghost p = right_text.subrange(0, moved_chars as int);
        let ghost q = right_text.subrange(moved_chars as int, right_text.len() as int);
        proof {
            assert(moved@ == p);
            assert(p + q =~= right_text);
            old(self).lemma_bytes_encode_text();
            lemma_encode_utf8_concat(p, q);
            lemma_char_boundary_at_encode(p, q);
            assert(p + q == right_text);
            assert(old(self).right_bytes() == encode_utf8(p) + encode_utf8(q));
            assert(byte_count == encode_utf8(p).len());
            assert(is_char_boundary(old(self).right_bytes(), byte_count as int));
            assert(old(self).right_bytes().len() == store_len - old(self).gap_len()
                - old(self).left_bytes().len());
        }
        let t = self.right_start + byte_count;
        self.move_cursor_right_to(t);
        proof {
            assert(old(self).right_bytes().subrange(0, byte_count as int) =~= encode_utf8(p));
            assert(old(self).right_bytes().subrange(
                byte_count as int,
                old(self).right_bytes().len() as int,
            ) =~= encode_utf8(q));
            encode_utf8_decode_utf8(q);
            lemma_encode_utf8_concat(left_text, p);
            encode_utf8_decode_utf8(left_text + p);
            assert(((left_text + p) + q) =~= (left_text + (p + q)));
        }
    }

    /// Moves the cursor to the very beginning of the content: the whole
    /// content becomes the Right text.
    pub fn move_cursor_to_beginning(&mut self)
        requires
            old(self).well_formed(),
        ensures
            final(self).well_formed(),
            final(self).capacity() == old(self).capacity(),
            final(self).text() == old(self).text(),
            final(self).text_left() == Seq::<char>::empty(),
            final(self).text_right() == old(self).text(),
    {
        proof {
            is_char_boundary_start_end_of_seq(old(self).left_bytes());
        }
        self.move_cursor_left_to(0);
        proof {
            assert(self.left_bytes() =~= Seq::<u8>::empty());
            assert(decode_utf8(Seq::<u8>::empty()) =~= Seq::<char>::empty());
            assert(self.right_bytes() =~= old(self).left_bytes() + old(self).right_bytes());
            old(self).lemma_bytes_encode_text();
            lemma_encode_utf8_concat(old(self).text_left(), old(self).text_right());
            encode_utf8_decode_utf8(old(self).text_left() + old(self).text_right());
        }
    }

    /// Moves the cursor to the very end of the content: the whole content
    /// becomes the Left text.
    pub fn move_cursor_to_end(&mut self)
        requires
            old(self).well_formed(),
        ensures
            final(self).well_formed(),
            final(self).capacity() == old(self).capacity(),
            final(self).text() == old(self).text(),
            final(self).text_left() == old(self).text(),
            final(self).text_right() == Seq::<char>::empty(),
    {
        proof {
            is_char_boundary_start_end_of_seq(old(self).right_bytes());
        }
        let t = self.store.len();
        self.move_cursor_right_to(t);
        proof {
            assert(self.right_bytes() =~= Seq::<u8>::empty());
            assert(decode_utf8(Seq::<u8>::empty()) =~= Seq::<char>::empty());
            assert(self.left_bytes() =~= old(self).left_bytes() + old(self).right_bytes());
            old(self).lemma_bytes_encode_text();
            lemma_encode_utf8_concat(old(self).text_left(), old(self).text_right());
            encode_utf8_decode_utf8(old(self).text_left() + old(self).text_right());
        }
    }

    /// Removes the `number_of_characters` grapheme clusters immediately to
    /// the left of the cursor, saturating at the start of the content. No
    /// bytes move: the removed span simply becomes part of the gap.
    pub fn delete_at_cursor(&mut self, number_of_characters: usize)
        requires
            old(self).well_formed(),
        ensures
            final(self).well_formed(),
            final(self).capacity() == old(self).capacity(),
            final(self).text_left() == grapheme_prefix(
                old(self).text_left(),
                clusters_back(old(self).text_left(), number_of_characters as int),
            ),
            final(self).text_right() == old(self).text_right(),
    {
        let ghost left_text = old(self).text_left();
        let (left, _right) = self.get();
        let clusters = grapheme_clusters(left);
        proof {
            lemma_tiling_from_clusters(clusters@, left_text);
        }
        let k = clusters.len();
        let target_k = if number_of_characters <= k {
            k - number_of_characters
        } else {
            0
        };
        proof {
            assert(encode_utf8(clusters@.map_values(|g: String| g@).flatten()).len()
                == old(self).left_bytes().len()) by {
                old(self).lemma_bytes_encode_text();
            }
        }
        let t = clusters_prefix_byte_len(&clusters, target_k);
        proof {
            old(self).lemma_bytes_encode_text();
            lemma_split_bytes_at_cluster(old(self).left_bytes(), target_k as int);
        }
        self.left_end = t;
        proof {
            let p = grapheme_prefix(left_text, target_k as int);
            assert(self.left_bytes() =~= old(self).left_bytes().subrange(0, t as int));
            assert(self.right_bytes() =~= old(self).right_bytes());
            valid_utf8_split(old(self).left_bytes(), t as int);
            encode_utf8_decode_utf8(p);
        }
    }

    /// Inserts `characters` at the cursor: its bytes are written into the gap
    /// (growing the store first if they do not fit) and become the tail of
    /// the Left range, so the cursor ends immediately after them.
    #[verifier::loop_isolation(false)]
    pub fn insert_at_cursor(&mut self, characters: &str)
        requires
            old(self).well_formed(),
            old(self).byte_len() + characters.spec_bytes().len() <= usize::MAX as int / 2 + 1,
        ensures
            final(self).well_formed(),
            final(self).text_left() == old(self).text_left() + characters@,
            final(self).text_right() == old(self).text_right(),
            final(self).byte_len() == old(self).byte_len() + characters.spec_bytes().len(),
            final(self).capacity() == (if characters.spec_bytes().len() <= old(self).gap_len() {
                old(self).capacity()
            } else {
                spec_next_pow2(old(self).byte_len() + characters.spec_bytes().len())
            }),
    {
        let as_bytes = characters.as_bytes_vec();
        let num_bytes = as_bytes.len();
        if num_bytes > self.gap_size() {
            self.grow(num_bytes);
        }
        let ghost mid = self.store@;
        let ghost mid_left = self.left_bytes();
        let ghost mid_right = self.right_bytes();
        let ghost mid_le = self.left_end;
        let ghost mid_rs = self.right_start;
        let mut i: usize = 0;
        while i < num_bytes
            invariant
                0 <= i <= num_bytes,
                num_bytes == as_bytes@.len(),
                self.left_end == mid_le,
                self.right_start == mid_rs,
                self.right_start - self.left_end >= num_bytes,
                self.right_start <= self.store@.len(),
                self.store@.len() == mid.len(),
                forall|p: int|
                    0 <= p < self.store@.len() && !(self.left_end <= p < self.left_end + i)
                        ==> #[trigger] self.store@[p] == mid[p],
                forall|p: int|
                    self.left_end <= p < self.left_end + i ==> #[trigger] self.store@[p]
                        == as_bytes@[p - self.left_end],
            decreases num_bytes - i,
        {
            let b = as_bytes[i];
            self.store[self.left_end + i] = b;
            i = i + 1;
        }
        self.left_end = self.left_end + num_bytes;
        proof {
            assert(self.left_bytes() =~= mid_left + characters.spec_bytes());
            assert(self.right_bytes() =~= mid_right);
            let lt = decode_utf8(mid_left);
            assert(mid_left == encode_utf8(lt)) by {
                decode_utf8_encode_utf8(mid_left);
            }
            lemma_encode_utf8_concat(lt, characters@);
            encode_utf8_valid_utf8(lt + characters@);
            encode_utf8_decode_utf8(lt + characters@);
            assert(self.text_left() == lt + characters@);
        }
    }
}

} // verus!
