//! Quick open: matching indexed files against a typed query by name prefix,
//! case-insensitively.

use vstd::prelude::*;

verus! {

use vstd::seq_lib::*;
use crate::indexer::index::{FileIndexEntry, Index};
use crate::text::{lower_of, to_lowercase, is_prefix};

/// One quick-open hit: an indexed file.
pub type QuickOpenResult = FileIndexEntry;

/// The files whose lower-cased name begins with the lower-cased query, in
/// order; an empty query matches nothing.
pub open spec fn quick_open_matches(files: Seq<FileIndexEntry>, query: Seq<char>) -> Seq<
    FileIndexEntry,
> {
    if lower_of(query).len() == 0 {
        Seq::empty()
    } else {
        files.filter(|e: FileIndexEntry| lower_of(query).is_prefix_of(e.normalized_filename@))
    }
}

/// The files of `index` whose lower-cased name begins with the lower-cased
/// query, in index order; an empty query matches nothing.
#[verifier::loop_isolation(false)]
pub fn get_quick_open_results(index: &Index, query: &str) -> (r: Vec<QuickOpenResult>)
    ensures
        r@ == quick_open_matches(index.files@, query@),
{
    let normalized_query = to_lowercase(query);
    let mut result: Vec<QuickOpenResult> = Vec::new();
    if normalized_query.as_str().is_empty() {
        return result;
    }
    let ghost pred = (|e: FileIndexEntry| lower_of(query@).is_prefix_of(e.normalized_filename@));
    proof {
        reveal(Seq::filter);
        assert(index.files@.subrange(0, 0) =~= Seq::<FileIndexEntry>::empty());
        assert(index.files@.subrange(0, 0).filter(pred) =~= Seq::<FileIndexEntry>::empty());
    }
    let mut i: usize = 0;
    while i < index.files.len()
        invariant
            0 <= i <= index.files@.len(),
            result@ == index.files@.subrange(0, i as int).filter(pred),
            normalized_query@ == lower_of(query@),
        decreases index.files@.len() - i,
    {
        let entry = &index.files[i];
        if is_prefix(normalized_query.as_str(), entry.normalized_filename.as_str()) {
            result.push(entry.clone());
        }
        proof {
            let files = index.files@;
            assert(files.subrange(0, i as int + 1) =~= files.subrange(0, i as int).push(
                files[i as int],
            ));
            files.subrange(0, i as int).lemma_filter_push(files[i as int], pred);
        }
        i = i + 1;
    }
    proof {
        assert(index.files@.subrange(0, index.files@.len() as int) =~= index.files@);
    }
    result
}

} // verus!
