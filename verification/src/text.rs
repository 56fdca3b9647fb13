//! Small trusted bridges between byte sequences and string slices.

use vstd::prelude::*;

verus! {

use vstd::seq_lib::*;
use vstd::string::{StringSliceAdditionalSpecFns, StrSliceExecFns, StringExecFns};
use vstd::utf8::{valid_utf8, encode_utf8, encode_scalar, is_char_boundary};
use vstd::utf8::{encode_utf8_valid_utf8, encode_utf8_first_scalar};
use vstd::utf8::{length_of_first_scalar, pop_first_scalar};

/// UTF-8 encoding distributes over concatenation of character sequences.
pub proof fn lemma_encode_utf8_concat(a: Seq<char>, b: Seq<char>)
    ensures
        encode_utf8(a + b) == encode_utf8(a) + encode_utf8(b),
    decreases a.len(),
{
    if a.len() == 0 {
        assert(a + b =~= b);
        assert(encode_utf8(a) + encode_utf8(b) =~= encode_utf8(b));
    } else {
        lemma_encode_utf8_concat(a.drop_first(), b);
        assert((a + b).drop_first() =~= a.drop_first() + b);
        assert((a + b)[0] == a[0]);
        assert(encode_utf8(a + b) =~= encode_scalar(a[0] as u32) + (encode_utf8(a.drop_first())
            + encode_utf8(b)));
        assert(encode_utf8(a) + encode_utf8(b) =~= encode_scalar(a[0] as u32) + (encode_utf8(
            a.drop_first(),
        ) + encode_utf8(b)));
    }
}

/// The byte offset at which the encodings of two character sequences meet is
/// a character boundary of their concatenated encoding.
pub proof fn lemma_char_boundary_at_encode(p: Seq<char>, q: Seq<char>)
    ensures
        valid_utf8(encode_utf8(p) + encode_utf8(q)),
        is_char_boundary(encode_utf8(p) + encode_utf8(q), encode_utf8(p).len() as int),
    decreases p.len(),
{
    lemma_encode_utf8_concat(p, q);
    encode_utf8_valid_utf8(p + q);
    let bytes = encode_utf8(p) + encode_utf8(q);
    assert(bytes == encode_utf8(p + q));
    if p.len() == 0 {
        assert(encode_utf8(p).len() == 0);
        assert(is_char_boundary(bytes, 0));
    } else {
        let idx = encode_utf8(p).len() as int;
        if idx == 0 {
            assert(is_char_boundary(bytes, 0));
        } else {
            encode_utf8_first_scalar(p + q);
            assert((p + q)[0] == p[0]);
            assert(length_of_first_scalar(bytes) == encode_scalar(p[0] as u32).len());
            assert((p + q).drop_first() =~= p.drop_first() + q);
            lemma_encode_utf8_concat(p.drop_first(), q);
            assert(pop_first_scalar(bytes) =~= encode_utf8(p.drop_first()) + encode_utf8(q));
            assert(encode_utf8(p) =~= encode_scalar(p[0] as u32) + encode_utf8(p.drop_first()));
            lemma_char_boundary_at_encode(p.drop_first(), q);
            assert(idx - length_of_first_scalar(bytes) == encode_utf8(p.drop_first()).len());
            assert(is_char_boundary(bytes, idx));
        }
    }
}

/// A witness for the first occurrence of `c` pins down `index_of_first`.
pub proof fn lemma_index_of_first_is(s: Seq<char>, c: char, i: int)
    requires
        0 <= i < s.len(),
        s[i] == c,
        forall|k: int| 0 <= k < i ==> s[k] != c,
    ensures
        s.index_of_first(c) == Some(i),
{
    s.index_of_first_ensures(c);
    assert(s.contains(c)) by {
        assert(s[i] == c);
    }
}

/// A string without `c` has no first occurrence of it.
pub proof fn lemma_index_of_first_none(s: Seq<char>, c: char)
    requires
        forall|k: int| 0 <= k < s.len() ==> s[k] != c,
    ensures
        s.index_of_first(c) is None,
{
    s.index_of_first_ensures(c);
    if s.index_of_first(c) is Some {
        let idx = s.index_of_first(c)->0;
        assert(s[idx] != c);
    }
}

/// A witness for the last occurrence of `c` pins down `index_of_last`.
pub proof fn lemma_index_of_last_is(s: Seq<char>, c: char, i: int)
    requires
        0 <= i < s.len(),
        s[i] == c,
        forall|k: int| i < k < s.len() ==> s[k] != c,
    ensures
        s.index_of_last(c) == Some(i),
{
    s.index_of_last_ensures(c);
    assert(s.contains(c)) by {
        assert(s[i] == c);
    }
}

/// A string without `c` has no last occurrence of it.
pub proof fn lemma_index_of_last_none(s: Seq<char>, c: char)
    requires
        forall|k: int| 0 <= k < s.len() ==> s[k] != c,
    ensures
        s.index_of_last(c) is None,
{
    s.index_of_last_ensures(c);
    if s.index_of_last(c) is Some {
        let idx = s.index_of_last(c)->0;
        assert(s[idx] != c);
    }
}

/// The character position where the line holding the cursor starts: just
/// after the last line break of `left`, or the very start when `left` holds
/// no line break.
pub open spec fn line_start(left: Seq<char>) -> int {
    match left.index_of_last('\n') {
        Some(i) => i + 1,
        None => 0,
    }
}

/// The position of the first `needle` in `s` at or after `from`, as a
/// character index.
#[verifier::loop_isolation(false)]
pub(crate) fn find_char_from(s: &str, from: usize, needle: char) -> (r: Option<usize>)
    requires
        from <= s@.len(),
    ensures
        match r {
            Some(i) => from <= i < s@.len() && s@[i as int] == needle && (forall|k: int|
                from <= k < i ==> s@[k] != needle),
            None => forall|k: int| from <= k < s@.len() ==> s@[k] != needle,
        },
{
    let n = s.unicode_len();
    let mut i = from;
    while i < n
        invariant
            from <= i <= n,
            forall|k: int| from <= k < i ==> s@[k] != needle,
        decreases n - i,
    {
        let c = s.get_char(i);
        if c == needle {
            return Some(i);
        }
        i = i + 1;
    }
    None
}

/// The position of the last `needle` in `s`, as a character index.
#[verifier::loop_isolation(false)]
pub(crate) fn rfind_char(s: &str, needle: char) -> (r: Option<usize>)
    ensures
        match r {
            Some(i) => i < s@.len() && s@[i as int] == needle && (forall|k: int|
                i < k < s@.len() ==> s@[k] != needle),
            None => forall|k: int| 0 <= k < s@.len() ==> s@[k] != needle,
        },
{
    let n = s.unicode_len();
    let mut i = n;
    while i > 0
        invariant
            0 <= i <= n,
            forall|k: int| i <= k < s@.len() ==> s@[k] != needle,
        decreases i,
    {
        i = i - 1;
        let c = s.get_char(i);
        if c == needle {
            return Some(i);
        }
    }
    None
}

/// The case folding of `s` as `str::to_lowercase` computes it. This names
/// the folding; nothing in this crate defines its value on any particular
/// string.
pub uninterp spec fn lower_of(s: Seq<char>) -> Seq<char>;

/// Relies on `str::to_lowercase`: the result depends on the characters
/// alone, and an empty string stays empty.
#[verifier::external_body]
pub(crate) fn to_lowercase(s: &str) -> (r: String)
    ensures
        r@ == lower_of(s@),
        s@.len() == 0 ==> r@.len() == 0,
{
    s.to_lowercase()
}

/// Whether `q` is a character-for-character prefix of `s`.
#[verifier::loop_isolation(false)]
pub(crate) fn is_prefix(q: &str, s: &str) -> (r: bool)
    ensures
        r == q@.is_prefix_of(s@),
{
    let q_len = q.unicode_len();
    let s_len = s.unicode_len();
    if q_len > s_len {
        return false;
    }
    let mut i: usize = 0;
    while i < q_len
        invariant
            0 <= i <= q_len,
            q_len <= s_len,
            forall|k: int| 0 <= k < i ==> q@[k] == s@[k],
        decreases q_len - i,
    {
        if q.get_char(i) != s.get_char(i) {
            proof {
                assert(s@.subrange(0, q@.len() as int)[i as int] == s@[i as int]);
            }
            return false;
        }
        i = i + 1;
    }
    proof {
        assert(q@ =~= s@.subrange(0, q@.len() as int));
    }
    true
}

/// The file name of a path: what follows its last `/`, or the whole path
/// when it holds none. A path ending in `/` has an empty file name.
pub open spec fn path_file_name(s: Seq<char>) -> Seq<char> {
    match s.index_of_last('/') {
        Some(i) => s.subrange(i + 1, s.len() as int),
        None => s,
    }
}

/// The file name of `path`, as a string of its own.
pub(crate) fn path_file_name_str(path: &str) -> (r: String)
    ensures
        r@ == path_file_name(path@),
{
    let n = path.unicode_len();
    let maybe_slash = rfind_char(path, '/');
    match maybe_slash {
        Some(i) => {
            proof {
                lemma_index_of_last_is(path@, '/', i as int);
            }
            String::from_str(path.substring_char(i + 1, n))
        },
        None => {
            proof {
                lemma_index_of_last_none(path@, '/');
            }
            String::from_str(path)
        },
    }
}

/// Relies on `alloc::string::String::push`: it appends exactly the given
/// character.
pub assume_specification[ String::push ](s: &mut String, ch: char)
    ensures
        final(s)@ == old(s)@.push(ch),
;

/// Relies on `alloc::string::String::pop`: it removes and returns exactly
/// the last character, and leaves an empty string alone.
pub assume_specification[ String::pop ](s: &mut String) -> (r: Option<char>)
    ensures
        old(s)@.len() == 0 ==> final(s)@ == old(s)@ && r is None,
        old(s)@.len() > 0 ==> final(s)@ == old(s)@.drop_last() && r == Some(old(s)@.last()),
;

/// A scalar's UTF-8 encoding holds at least one byte.
proof fn lemma_encode_scalar_len(v: u32)
    ensures
        1 <= encode_scalar(v).len() <= 4,
{
}

/// A character sequence never holds more characters than its UTF-8 encoding
/// holds bytes.
pub proof fn lemma_chars_le_bytes(s: Seq<char>)
    ensures
        s.len() <= encode_utf8(s).len(),
    decreases s.len(),
{
    if s.len() > 0 {
        lemma_encode_scalar_len(s[0] as u32);
        lemma_chars_le_bytes(s.drop_first());
    }
}

/// A single character's UTF-8 encoding holds at most four bytes.
pub proof fn lemma_one_char_bytes(c: char)
    ensures
        1 <= encode_utf8(seq![c]).len() <= 4,
{
    lemma_encode_scalar_len(c as u32);
    assert(seq![c].drop_first() =~= Seq::<char>::empty());
    assert(encode_utf8(seq![c]) =~= encode_scalar(c as u32) + encode_utf8(Seq::<char>::empty()));
}

/// The number of line breaks in `s`.
pub open spec fn newline_count(s: Seq<char>) -> int
    decreases s.len(),
{
    if s.len() == 0 {
        0
    } else {
        (if s[0] == '\n' {
            1int
        } else {
            0int
        }) + newline_count(s.drop_first())
    }
}

/// The number of lines of `s`, counted the way `str::lines` does: one per
/// line break, plus a final line when the text does not end with one; an
/// empty text has no lines.
pub open spec fn line_count(s: Seq<char>) -> int {
    if s.len() == 0 {
        0
    } else if s.last() == '\n' {
        newline_count(s)
    } else {
        newline_count(s) + 1
    }
}

/// One more character extends the line-break count by at most one.
proof fn lemma_newline_count_extend(s: Seq<char>, i: int)
    requires
        0 <= i < s.len(),
    ensures
        newline_count(s.subrange(0, i + 1)) == newline_count(s.subrange(0, i)) + (if s[i] == '\n' {
            1int
        } else {
            0int
        }),
    decreases i,
{
    if i == 0 {
        assert(s.subrange(0, 1).drop_first() =~= s.subrange(0, 0));
        assert(s.subrange(0, 0) =~= Seq::<char>::empty());
    } else {
        let rest = s.drop_first();
        lemma_newline_count_extend(rest, i - 1);
        assert(s.subrange(0, i + 1).drop_first() =~= rest.subrange(0, i));
        assert(s.subrange(0, i).drop_first() =~= rest.subrange(0, i - 1));
        assert(s.subrange(0, i + 1)[0] == s[0]);
        assert(s.subrange(0, i)[0] == s[0]);
        assert(rest[i - 1] == s[i]);
    }
}

/// There are never more line breaks than characters.
proof fn lemma_newline_count_le_len(s: Seq<char>)
    ensures
        0 <= newline_count(s) <= s.len(),
    decreases s.len(),
{
    if s.len() > 0 {
        lemma_newline_count_le_len(s.drop_first());
    }
}

/// There are never more lines than characters.
pub proof fn lemma_line_count_le_len(s: Seq<char>)
    ensures
        0 <= line_count(s) <= s.len(),
{
    lemma_newline_count_le_len(s);
    if s.len() > 0 && s.last() != '\n' {
        lemma_newline_count_le_len(s.drop_last());
        lemma_newline_count_extend(s, s.len() - 1);
        assert(s.subrange(0, s.len() as int) =~= s);
        assert(s.subrange(0, s.len() - 1) =~= s.drop_last());
    }
}

/// The number of lines of `s`, counted the way `str::lines` does.
#[verifier::loop_isolation(false)]
pub fn count_lines(s: &str) -> (r: usize)
    ensures
        r == line_count(s@),
{
    let n = s.unicode_len();
    if n == 0 {
        proof {
            assert(s@.subrange(0, 0) =~= s@);
        }
        return 0;
    }
    let mut breaks: usize = 0;
    let mut i: usize = 0;
    proof {
        assert(s@.subrange(0, 0) =~= Seq::<char>::empty());
    }
    while i < n
        invariant
            0 <= i <= n,
            breaks == newline_count(s@.subrange(0, i as int)),
            breaks <= i,
        decreases n - i,
    {
        let c = s.get_char(i);
        proof {
            lemma_newline_count_extend(s@, i as int);
            lemma_newline_count_le_len(s@.subrange(0, i as int + 1));
        }
        if c == '\n' {
            breaks = breaks + 1;
        }
        i = i + 1;
    }
    proof {
        assert(s@.subrange(0, n as int) =~= s@);
        lemma_newline_count_le_len(s@);
        lemma_line_count_le_len(s@);
    }
    let last = s.get_char(n - 1);
    if last == '\n' {
        breaks
    } else {
        breaks + 1
    }
}

/// Relies on `std::str::from_utf8`: decoding a byte slice that holds valid
/// UTF-8 succeeds and yields the string slice backed by exactly those bytes.
#[verifier::external_body]
pub(crate) fn bytes_to_str(bytes: &[u8]) -> (r: &str)
    requires
        valid_utf8(bytes@),
    ensures
        r.spec_bytes() == bytes@,
{
    std::str::from_utf8(bytes).unwrap()
}

} // verus!
