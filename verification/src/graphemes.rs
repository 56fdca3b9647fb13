//! Grapheme-cluster segmentation of character sequences.
//!
//! The segmentation itself comes from the `unicode-segmentation` crate; its
//! result is named by the uninterpreted function [`grapheme_split`], and every
//! fact the rest of the crate uses about it (clusters are non-empty and tile
//! the input) is stated on the one trusted wrapper that calls it.

use unicode_segmentation::UnicodeSegmentation;
use vstd::prelude::*;

verus! {

use vstd::seq_lib::*;
use vstd::string::{StringSliceAdditionalSpecFns, StrSliceExecFns};
use vstd::utf8::encode_utf8;
use crate::text::lemma_encode_utf8_concat;

/// The sequence of grapheme clusters of `s`, in order. This names the result
/// of extended grapheme-cluster segmentation; nothing in this crate defines
/// its value on any particular string.
pub uninterp spec fn grapheme_split(s: Seq<char>) -> Seq<Seq<char>>;

/// True when the clusters of `s` are non-empty and concatenate back to `s`;
/// every value returned by the segmentation wrapper satisfies this.
pub open spec fn grapheme_tiling(s: Seq<char>) -> bool {
    &&& grapheme_split(s).flatten() == s
    &&& (forall|i: int|
        0 <= i < grapheme_split(s).len() ==> (#[trigger] grapheme_split(s)[i]).len() > 0)
}

/// The number of grapheme clusters in `s`.
pub open spec fn grapheme_count(s: Seq<char>) -> nat {
    grapheme_split(s).len()
}

/// The characters of the first `k` grapheme clusters of `s`.
pub open spec fn grapheme_prefix(s: Seq<char>, k: int) -> Seq<char>
    recommends
        0 <= k <= grapheme_count(s),
{
    grapheme_split(s).subrange(0, k).flatten()
}

/// The characters of `s` from its `k`-th grapheme cluster on.
pub open spec fn grapheme_suffix(s: Seq<char>, k: int) -> Seq<char>
    recommends
        0 <= k <= grapheme_count(s),
{
    grapheme_split(s).subrange(k, grapheme_count(s) as int).flatten()
}

/// The cluster index reached by moving `n` clusters back from the end of `s`,
/// saturating at the start.
pub open spec fn clusters_back(s: Seq<char>, n: int) -> int {
    if n <= grapheme_count(s) {
        grapheme_count(s) - n
    } else {
        0
    }
}

/// The cluster index reached by moving `n` clusters forward from the start of
/// `s`, saturating at the end.
pub open spec fn clusters_forward(s: Seq<char>, n: int) -> int {
    if n <= grapheme_count(s) {
        n
    } else {
        grapheme_count(s) as int
    }
}

/// Relies on `unicode_segmentation::UnicodeSegmentation::graphemes` with
/// extended cluster boundaries: the clusters depend on the characters alone,
/// are non-empty, and concatenate back to the input in order.
#[verifier::external_body]
pub(crate) fn grapheme_clusters(s: &str) -> (r: Vec<String>)
    ensures
        r@.map_values(|g: String| g@) == grapheme_split(s@),
        r@.map_values(|g: String| g@).flatten() == s@,
        forall|i: int| 0 <= i < r@.len() ==> (#[trigger] r@[i])@.len() > 0,
{
    s.graphemes(true).map(String::from).collect()
}

/// The number of bytes that the first `k` clusters of `clusters` occupy in
/// the UTF-8 encoding of the string they tile.
#[verifier::loop_isolation(false)]
pub(crate) fn clusters_prefix_byte_len(clusters: &Vec<String>, k: usize) -> (r: usize)
    requires
        k <= clusters@.len(),
        encode_utf8(clusters@.map_values(|g: String| g@).flatten()).len() <= usize::MAX,
    ensures
        r == encode_utf8(
            clusters@.map_values(|g: String| g@).subrange(0, k as int).flatten(),
        ).len(),
{
    let ghost cs = clusters@.map_values(|g: String| g@);
    let mut sum: usize = 0;
    let mut i: usize = 0;
    proof {
        assert(cs.subrange(0, 0).flatten() =~= Seq::<char>::empty());
    }
    while i < k
        invariant
            0 <= i <= k,
            sum == encode_utf8(cs.subrange(0, i as int).flatten()).len(),
        decreases k - i,
    {
        let len_i = clusters[i].as_str().len();
        proof {
            assert(clusters[i as int]@ == cs[i as int]);
            lemma_flatten_take_one_more(cs, i as int);
            lemma_encode_utf8_concat(cs.subrange(0, i as int).flatten(), cs[i as int]);
            lemma_flatten_split(cs, i as int + 1);
            lemma_encode_utf8_concat(
                cs.subrange(0, i as int + 1).flatten(),
                cs.subrange(i as int + 1, cs.len() as int).flatten(),
            );
        }
        sum = sum + len_i;
        i = i + 1;
    }
    sum
}

/// The number of characters in the first `k` clusters of `clusters`.
#[verifier::loop_isolation(false)]
pub(crate) fn clusters_prefix_char_len(clusters: &Vec<String>, k: usize) -> (r: usize)
    requires
        k <= clusters@.len(),
        clusters@.map_values(|g: String| g@).flatten().len() <= usize::MAX,
    ensures
        r == clusters@.map_values(|g: String| g@).subrange(0, k as int).flatten().len(),
{
    let ghost cs = clusters@.map_values(|g: String| g@);
    let mut sum: usize = 0;
    let mut i: usize = 0;
    proof {
        assert(cs.subrange(0, 0).flatten() =~= Seq::<char>::empty());
    }
    while i < k
        invariant
            0 <= i <= k,
            sum == cs.subrange(0, i as int).flatten().len(),
        decreases k - i,
    {
        let len_i = clusters[i].as_str().unicode_len();
        proof {
            assert(clusters[i as int]@ == cs[i as int]);
            lemma_flatten_take_one_more(cs, i as int);
            lemma_flatten_split(cs, i as int + 1);
        }
        sum = sum + len_i;
        i = i + 1;
    }
    sum
}

/// Taking one more cluster into a flattened prefix appends exactly that
/// cluster's characters.
pub proof fn lemma_flatten_take_one_more(cs: Seq<Seq<char>>, i: int)
    requires
        0 <= i < cs.len(),
    ensures
        cs.subrange(0, i + 1).flatten() == cs.subrange(0, i).flatten() + cs[i],
{
    let a = cs.subrange(0, i + 1);
    let b = cs.subrange(0, i);
    a.lemma_flatten_and_flatten_alt_are_equivalent();
    b.lemma_flatten_and_flatten_alt_are_equivalent();
    assert(a.drop_last() =~= b);
    assert(a.flatten_alt() == a.drop_last().flatten_alt().add(a.last()));
    assert(a.flatten() =~= b.flatten() + cs[i]);
}

/// A flattened sequence of clusters splits at any cluster index into the
/// flattened prefix and the flattened suffix.
pub proof fn lemma_flatten_split(cs: Seq<Seq<char>>, k: int)
    requires
        0 <= k <= cs.len(),
    ensures
        cs.subrange(0, k).flatten() + cs.subrange(k, cs.len() as int).flatten() == cs.flatten(),
    decreases cs.len() - k,
{
    if k == cs.len() {
        assert(cs.subrange(k, cs.len() as int).flatten() =~= Seq::<char>::empty());
        assert(cs.subrange(0, k) =~= cs);
        assert(cs.subrange(0, k).flatten() + cs.subrange(k, cs.len() as int).flatten() =~= cs
            .flatten());
    } else {
        lemma_flatten_split(cs, k + 1);
        lemma_flatten_take_one_more(cs, k);
        let tail = cs.subrange(k, cs.len() as int);
        assert(tail.drop_first() =~= cs.subrange(k + 1, cs.len() as int));
        assert(tail.flatten() == tail.first().add(tail.drop_first().flatten()));
        assert(tail.first() == cs[k]);
        assert(cs.subrange(0, k).flatten() + (cs[k] + cs.subrange(
            k + 1,
            cs.len() as int,
        ).flatten()) =~= (cs.subrange(0, k).flatten() + cs[k]) + cs.subrange(
            k + 1,
            cs.len() as int,
        ).flatten());
    }
}

/// The prefix and suffix at a cluster boundary of a tiled string concatenate
/// back to the string.
pub proof fn lemma_grapheme_split_parts(s: Seq<char>, k: int)
    requires
        grapheme_tiling(s),
        0 <= k <= grapheme_count(s),
    ensures
        grapheme_prefix(s, k) + grapheme_suffix(s, k) == s,
{
    lemma_flatten_split(grapheme_split(s), k);
}

/// Saturation at the start: moving back at least as many clusters as the
/// string holds lands exactly at its beginning.
pub proof fn lemma_clusters_back_saturates(s: Seq<char>, n: int)
    requires
        grapheme_tiling(s),
        n >= grapheme_count(s),
    ensures
        grapheme_prefix(s, clusters_back(s, n)) == Seq::<char>::empty(),
        grapheme_suffix(s, clusters_back(s, n)) == s,
{
    assert(clusters_back(s, n) == 0);
    assert(grapheme_split(s).subrange(0, 0) =~= Seq::<Seq<char>>::empty());
    assert(grapheme_prefix(s, 0) =~= Seq::<char>::empty());
    assert(grapheme_split(s).subrange(0, grapheme_count(s) as int) =~= grapheme_split(s));
}

/// Saturation at the end: moving forward at least as many clusters as the
/// string holds lands exactly at its end.
pub proof fn lemma_clusters_forward_saturates(s: Seq<char>, n: int)
    requires
        grapheme_tiling(s),
        n >= grapheme_count(s),
    ensures
        grapheme_prefix(s, clusters_forward(s, n)) == s,
        grapheme_suffix(s, clusters_forward(s, n)) == Seq::<char>::empty(),
{
    assert(clusters_forward(s, n) == grapheme_count(s));
    assert(grapheme_split(s).subrange(0, grapheme_count(s) as int) =~= grapheme_split(s));
    assert(grapheme_split(s).subrange(grapheme_count(s) as int, grapheme_count(s) as int)
        =~= Seq::<Seq<char>>::empty());
}

/// Grapheme atomicity, forward: crossing one cluster boundary takes exactly
/// the first cluster, whole, into the prefix.
pub proof fn lemma_one_cluster_forward(s: Seq<char>)
    requires
        grapheme_tiling(s),
        grapheme_count(s) >= 1,
    ensures
        grapheme_prefix(s, clusters_forward(s, 1)) == grapheme_split(s).first(),
        grapheme_split(s).first() + grapheme_suffix(s, clusters_forward(s, 1)) == s,
        grapheme_split(s).first().len() >= 1,
{
    let cs = grapheme_split(s);
    assert(clusters_forward(s, 1) == 1);
    lemma_grapheme_split_parts(s, 1);
    let one = cs.subrange(0, 1);
    assert(one.drop_first() =~= Seq::<Seq<char>>::empty());
    assert(one.flatten() == one.first().add(one.drop_first().flatten()));
    assert(grapheme_prefix(s, 1) =~= cs.first());
}

/// Grapheme atomicity: crossing one cluster boundary moves exactly the last
/// cluster, whole, from the prefix to the suffix.
pub proof fn lemma_one_cluster_back(s: Seq<char>)
    requires
        grapheme_tiling(s),
        grapheme_count(s) >= 1,
    ensures
        grapheme_suffix(s, clusters_back(s, 1)) == grapheme_split(s).last(),
        grapheme_prefix(s, clusters_back(s, 1)) + grapheme_split(s).last() == s,
        grapheme_split(s).last().len() >= 1,
{
    let cs = grapheme_split(s);
    let k = cs.len() - 1;
    assert(clusters_back(s, 1) == k);
    lemma_grapheme_split_parts(s, k);
    let tail = cs.subrange(k, cs.len() as int);
    assert(tail.drop_first() =~= Seq::<Seq<char>>::empty());
    assert(tail.flatten() == tail.first().add(tail.drop_first().flatten()));
    assert(grapheme_suffix(s, k) =~= cs.last());
}

} // verus!
