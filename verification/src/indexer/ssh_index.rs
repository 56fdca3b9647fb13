//! The parts of remote indexing that are computed from plain values: the
//! connection arguments and the parsing of `find -ls` output lines. Running
//! the remote command and walking its output stream stay with the caller.

use vstd::prelude::*;

verus! {

use vstd::seq_lib::*;
use vstd::slice::{slice_index_get, slice_subrange};
use vstd::string::{StringExecFns, StrSliceExecFns};
use crate::indexer::index::{FileIndexEntry, FileTreeFolder, FileTreeNode, IndexError};
use crate::text::{find_char_from, lemma_index_of_first_is, lemma_index_of_first_none};
use crate::text::{is_prefix, lower_of, path_file_name, path_file_name_str};

/// The characters that `split_ascii_whitespace` separates on.
pub open spec fn is_ascii_space(c: char) -> bool {
    c == ' ' || c == '\t' || c == '\n' || c == '\u{c}' || c == '\r'
}

/// The end of the whitespace-free run that starts at `i`: the first position
/// at or after `i` holding ascii whitespace, or the end of `s`.
pub open spec fn run_end(s: Seq<char>, i: int) -> int
    decreases s.len() - i
        when 0 <= i <= s.len()
{
    if i >= s.len() {
        s.len() as int
    } else if is_ascii_space(s[i]) {
        i
    } else {
        run_end(s, i + 1)
    }
}

/// The run end lies between `i` and the end of `s`, strictly after `i` when
/// a run starts there.
proof fn lemma_run_end_bounds(s: Seq<char>, i: int)
    requires
        0 <= i <= s.len(),
    ensures
        i <= run_end(s, i) <= s.len(),
        i < s.len() && !is_ascii_space(s[i]) ==> run_end(s, i) > i,
    decreases s.len() - i,
{
    if i < s.len() && !is_ascii_space(s[i]) {
        lemma_run_end_bounds(s, i + 1);
    }
}

/// A scan that stops at the first whitespace finds the run end.
proof fn lemma_run_end_is(s: Seq<char>, i: int, j: int)
    requires
        0 <= i <= j <= s.len(),
        forall|k: int| i <= k < j ==> !is_ascii_space(s[k]),
        j == s.len() || is_ascii_space(s[j]),
    ensures
        run_end(s, i) == j,
    decreases j - i,
{
    if i < j {
        lemma_run_end_is(s, i + 1, j);
    }
}

/// The ascii-whitespace-separated tokens of `s` from position `i` on.
pub open spec fn tokens_from(s: Seq<char>, i: int) -> Seq<Seq<char>>
    decreases s.len() - i
        when 0 <= i <= s.len()
        via tokens_from_decreases
{
    if i >= s.len() {
        Seq::empty()
    } else if is_ascii_space(s[i]) {
        tokens_from(s, i + 1)
    } else {
        seq![s.subrange(i, run_end(s, i))] + tokens_from(s, run_end(s, i))
    }
}

#[via_fn]
proof fn tokens_from_decreases(s: Seq<char>, i: int) {
    if 0 <= i && i < s.len() && !is_ascii_space(s[i]) {
        lemma_run_end_bounds(s, i);
    }
}

/// The ascii-whitespace-separated tokens of `s`, in order.
pub open spec fn tokens(s: Seq<char>) -> Seq<Seq<char>> {
    tokens_from(s, 0)
}

/// Every token holds at least one character.
proof fn lemma_tokens_from_nonempty(s: Seq<char>, i: int)
    requires
        0 <= i <= s.len(),
    ensures
        forall|k: int|
            0 <= k < tokens_from(s, i).len() ==> (#[trigger] tokens_from(s, i)[k]).len() > 0,
    decreases s.len() - i,
{
    if i >= s.len() {
    } else if is_ascii_space(s[i]) {
        lemma_tokens_from_nonempty(s, i + 1);
        assert(tokens_from(s, i) == tokens_from(s, i + 1));
    } else {
        lemma_run_end_bounds(s, i);
        lemma_tokens_from_nonempty(s, run_end(s, i));
        let e = run_end(s, i);
        let ts = tokens_from(s, i);
        assert(ts == seq![s.subrange(i, e)] + tokens_from(s, e));
        assert forall|k: int| 0 <= k < ts.len() implies (#[trigger] ts[k]).len() > 0 by {
            if k == 0 {
                assert(ts[0] == s.subrange(i, e));
            } else {
                assert(ts[k] == tokens_from(s, e)[k - 1]);
            }
        }
    }
}

/// Whether `c` is one of the characters that tokens split on.
fn is_space_char(c: char) -> (r: bool)
    ensures
        r == is_ascii_space(c),
{
    c == ' ' || c == '\t' || c == '\n' || c == '\u{c}' || c == '\r'
}

/// The end of the whitespace-free run of `s` that starts at `start`.
#[verifier::loop_isolation(false)]
fn run_end_scan(s: &str, start: usize) -> (e: usize)
    requires
        start <= s@.len(),
    ensures
        e == run_end(s@, start as int),
        start <= e <= s@.len(),
{
    let n = s.unicode_len();
    let mut j = start;
    while j < n
        invariant
            start <= j <= n,
            forall|k: int| start <= k < j ==> !is_ascii_space(s@[k]),
        decreases n - j,
    {
        if is_space_char(s.get_char(j)) {
            proof {
                lemma_run_end_is(s@, start as int, j as int);
            }
            return j;
        }
        j = j + 1;
    }
    proof {
        lemma_run_end_is(s@, start as int, n as int);
    }
    n
}

/// Splits `s` on ascii whitespace into its tokens, in order.
#[verifier::loop_isolation(false)]
pub(crate) fn split_ascii_tokens(s: &str) -> (r: Vec<String>)
    ensures
        r@.map_values(|t: String| t@) == tokens(s@),
{
    let n = s.unicode_len();
    let mut result: Vec<String> = Vec::new();
    let mut i: usize = 0;
    proof {
        assert(result@.map_values(|t: String| t@) =~= Seq::<Seq<char>>::empty());
        assert(tokens(s@) == result@.map_values(|t: String| t@) + tokens_from(s@, 0));
    }
    while i < n
        invariant
            0 <= i <= n,
            tokens(s@) == result@.map_values(|t: String| t@) + tokens_from(s@, i as int),
        decreases n - i,
    {
        let c = s.get_char(i);
        if is_space_char(c) {
            i = i + 1;
        } else {
            let e = run_end_scan(s, i);
            proof {
                lemma_run_end_bounds(s@, i as int);
            }
            let token = String::from_str(s.substring_char(i, e));
            let ghost before = result@.map_values(|t: String| t@);
            result.push(token);
            proof {
                assert(result@.map_values(|t: String| t@) =~= before.push(
                    s@.subrange(i as int, e as int),
                ));
                assert(before + (seq![s@.subrange(i as int, e as int)] + tokens_from(
                    s@,
                    e as int,
                )) =~= before.push(s@.subrange(i as int, e as int)) + tokens_from(s@, e as int));
            }
            i = e;
        }
    }
    proof {
        assert(tokens(s@) =~= result@.map_values(|t: String| t@));
    }
    result
}

/// One line of `find -ls` output: the path of a file or of a folder.
#[derive(Debug)]
pub enum FindOutput {
    File(String),
    Folder(String),
}

/// Reads one line of `find -ls` output: its third column tells files (`-`)
/// from folders (`d`), its last column is the path. Lines with fewer than
/// four columns, or another kind marker, give nothing.
pub fn parse_find_line(line: &str) -> (r: Option<FindOutput>)
    ensures
        tokens(line@).len() < 4 ==> r is None,
        tokens(line@).len() >= 4 ==> ({
            let kind = tokens(line@)[2];
            let path = tokens(line@).last();
            if kind[0] == 'd' {
                r matches Some(FindOutput::Folder(p)) && p@ == path
            } else if kind[0] == '-' {
                r matches Some(FindOutput::File(p)) && p@ == path
            } else {
                r is None
            }
        }),
{
    let columns = split_ascii_tokens(line);
    if columns.len() < 4 {
        return None;
    }
    proof {
        lemma_tokens_from_nonempty(line@, 0);
        assert(tokens(line@)[2] == columns@.map_values(|t: String| t@)[2]);
        assert(tokens(line@).last() == columns@.map_values(|t: String| t@)[columns@.len() - 1]);
    }
    let kind = columns[2].as_str().get_char(0);
    let path = &columns[columns.len() - 1];
    if kind == 'd' {
        Some(FindOutput::Folder(path.clone()))
    } else if kind == '-' {
        Some(FindOutput::File(path.clone()))
    } else {
        None
    }
}

/// `a` names an ancestor of the path `b`: they are equal, or `a` is a
/// proper prefix of `b` that ends at a `/` boundary.
pub open spec fn is_path_prefix(a: Seq<char>, b: Seq<char>) -> bool {
    a == b || (a.len() < b.len() && a.is_prefix_of(b) && b[a.len() as int] == '/')
}

/// Whether `a` names an ancestor of the path `b`.
fn is_path_prefix_check(a: &str, b: &str) -> (r: bool)
    ensures
        r == is_path_prefix(a@, b@),
{
    let a_len = a.unicode_len();
    let b_len = b.unicode_len();
    if a_len == b_len {
        if is_prefix(a, b) {
            proof {
                assert(b@.subrange(0, a@.len() as int) =~= b@);
            }
            return true;
        }
        proof {
            assert(a@ != b@ || a@ =~= b@.subrange(0, a@.len() as int));
        }
        return false;
    }
    if a_len < b_len {
        is_prefix(a, b) && b.get_char(a_len) == '/'
    } else {
        false
    }
}

/// `entry` is the index entry for the file at `path`.
pub open spec fn is_entry_for(entry: FileIndexEntry, path: Seq<char>) -> bool {
    &&& entry.path@ == path
    &&& entry.file_name@ == path_file_name(path)
    &&& entry.normalized_filename@ == lower_of(path_file_name(path))
    &&& path_file_name(path).len() > 0
}

/// Whether the next entry of `list` still belongs under the folder at
/// `folder_path`: files always do, folders only while their path lies under
/// it.
pub open spec fn continues_folder(folder_path: Seq<char>, list: Seq<FindOutput>) -> bool {
    list.len() >= 1 && match list[0] {
        FindOutput::File(p) => true,
        FindOutput::Folder(p) => is_path_prefix(folder_path, p@),
    }
}

/// How many entries of `list` the tree at its front spans: one for a file,
/// and for a folder its own entry plus those of its children.
pub open spec fn skip_tree(list: Seq<FindOutput>) -> int
    decreases list.len(), 0int,
{
    if list.len() == 0 {
        0
    } else {
        match list[0] {
            FindOutput::File(p) => 1,
            FindOutput::Folder(p) => 1 + skip_children(p@, list.drop_first()),
        }
    }
}

/// How many entries of `list` the children of a folder at `folder_path`
/// span: whole trees, as long as the entries continue the folder.
pub open spec fn skip_children(folder_path: Seq<char>, list: Seq<FindOutput>) -> int
    decreases list.len(), 1int,
{
    if !continues_folder(folder_path, list) {
        0
    } else {
        let c = skip_tree(list);
        if 1 <= c <= list.len() {
            c + skip_children(folder_path, list.skip(c))
        } else {
            0
        }
    }
}

/// A tree spans at least its own entry and no more than the whole list.
proof fn lemma_skip_tree_bounds(list: Seq<FindOutput>)
    ensures
        list.len() >= 1 ==> 1 <= skip_tree(list) <= list.len(),
        list.len() == 0 ==> skip_tree(list) == 0,
    decreases list.len(), 0int,
{
    if list.len() >= 1 {
        match list[0] {
            FindOutput::File(p) => {},
            FindOutput::Folder(p) => {
                lemma_skip_children_bounds(p@, list.drop_first());
            },
        }
    }
}

/// Children span at most the whole list.
proof fn lemma_skip_children_bounds(folder_path: Seq<char>, list: Seq<FindOutput>)
    ensures
        0 <= skip_children(folder_path, list) <= list.len(),
    decreases list.len(), 1int,
{
    if continues_folder(folder_path, list) {
        lemma_skip_tree_bounds(list);
        let c = skip_tree(list);
        if 1 <= c <= list.len() {
            lemma_skip_children_bounds(folder_path, list.skip(c));
        }
    }
}

/// Whether building a tree from the front of `list` succeeds: there is an
/// entry, its path has a file name, and, for a folder, every entry that
/// continues it builds in turn.
pub open spec fn node_ok(list: Seq<FindOutput>) -> bool
    decreases list.len(), 0int,
{
    if list.len() == 0 {
        false
    } else {
        match list[0] {
            FindOutput::File(p) => path_file_name(p@).len() > 0,
            FindOutput::Folder(p) => path_file_name(p@).len() > 0 && children_ok(
                p@,
                list.drop_first(),
            ),
        }
    }
}

/// Whether every tree that continues the folder at `folder_path` builds.
pub open spec fn children_ok(folder_path: Seq<char>, list: Seq<FindOutput>) -> bool
    decreases list.len(), 1int,
{
    if !continues_folder(folder_path, list) {
        true
    } else {
        &&& node_ok(list)
        &&& {
            let c = skip_tree(list);
            if 1 <= c <= list.len() {
                children_ok(folder_path, list.skip(c))
            } else {
                true
            }
        }
    }
}

/// `node` is the tree that the front of `list` describes: a file entry
/// gives a leaf, and a folder entry gives a folder holding, child by child,
/// the trees of the following entries for as long as they continue the
/// folder.
pub open spec fn parses_node(list: Seq<FindOutput>, node: FileTreeNode) -> bool
    decreases node,
{
    &&& list.len() >= 1
    &&& match node {
        FileTreeNode::File(entry) => list[0] matches FindOutput::File(p) && is_entry_for(
            entry,
            p@,
        ),
        FileTreeNode::Folder(folder) => list[0] matches FindOutput::Folder(p)
            && folder.folder_name@ == path_file_name(p@) && path_file_name(p@).len() > 0
            && parses_children(p@, folder.children@, list.drop_first()),
    }
}

/// The trees of `children` are described, one after the other, by the front
/// of `list`, and the entries after them no longer continue the folder at
/// `folder_path`.
pub open spec fn parses_children(
    folder_path: Seq<char>,
    children: Seq<FileTreeNode>,
    list: Seq<FindOutput>,
) -> bool
    decreases children,
{
    if children.len() == 0 {
        !continues_folder(folder_path, list)
    } else {
        &&& continues_folder(folder_path, list)
        &&& parses_node(list, children[0])
        &&& parses_children(folder_path, children.drop_first(), list.skip(skip_tree(list)))
    }
}

/// Whether the next entry of `slice` still belongs under the folder at
/// `folder_path`.
fn should_continue(folder_path: &str, slice: &[FindOutput]) -> (r: bool)
    ensures
        r == continues_folder(folder_path@, slice@),
{
    if slice.len() == 0 {
        return false;
    }
    let first = slice_index_get(slice, 0);
    match first {
        FindOutput::File(p) => true,
        FindOutput::Folder(p) => is_path_prefix_check(folder_path, p.as_str()),
    }
}

/// Builds the tree that the first entry of `find_output` describes and
/// returns it with the entries left over. A folder entry claims every
/// following entry until one names a folder outside its path. An empty
/// list, or an entry whose path has an empty file name, is an error.
#[verifier::loop_isolation(false)]
pub fn get_file_tree_node<'a>(find_output: &'a [FindOutput]) -> (r: Result<
    (&'a [FindOutput], FileTreeNode),
    IndexError,
>)
    ensures
        r is Ok <==> node_ok(find_output@),
        r matches Ok(pair) ==> parses_node(find_output@, pair.1) && pair.0@ == find_output@.skip(
            skip_tree(find_output@),
        ),
    decreases find_output@.len(),
{
    if find_output.len() == 0 {
        return Err(IndexError::new("No directory found"));
    }
    let current = slice_index_get(find_output, 0);
    match current {
        FindOutput::File(path) => {
            match FileIndexEntry::new(path.as_str()) {
                Some(file_index_entry) => {
                    let rest = slice_subrange(find_output, 1, find_output.len());
                    proof {
                        assert(rest@ =~= find_output@.skip(1));
                    }
                    Ok((rest, FileTreeNode::File(file_index_entry)))
                },
                None => Err(IndexError::new("Could not create FileIndexEntry")),
            }
        },
        FindOutput::Folder(path) => {
            let folder_name = path_file_name_str(path.as_str());
            if folder_name.as_str().is_empty() {
                return Err(IndexError::new("Could not get folder name"));
            }
            let ghost base = find_output@.drop_first();
            let mut children: Vec<FileTreeNode> = Vec::new();
            let mut next_slice = slice_subrange(find_output, 1, find_output.len());
            proof {
                assert(next_slice@ =~= base);
                assert(base.skip(0) =~= base);
                assert forall|tail: Seq<FileTreeNode>|
                    #[trigger] parses_children(path@, tail, next_slice@) implies parses_children(
                    path@,
                    children@ + tail,
                    base,
                ) by {
                    assert(children@ + tail =~= tail);
                }
            }
            while should_continue(path.as_str(), next_slice)
                invariant
                    next_slice@.len() < find_output@.len(),
                    next_slice@ == base.skip(base.len() - next_slice@.len()),
                    skip_children(path@, base) == (base.len() - next_slice@.len())
                        + skip_children(path@, next_slice@),
                    children_ok(path@, base) == children_ok(path@, next_slice@),
                    forall|tail: Seq<FileTreeNode>|
                        #[trigger] parses_children(path@, tail, next_slice@)
                            ==> parses_children(path@, children@ + tail, base),
                decreases next_slice@.len(),
            {
                let child_result = get_file_tree_node(next_slice);
                match child_result {
                    Ok((rest2, child_node)) => {
                        proof {
                            lemma_skip_tree_bounds(next_slice@);
                        }
                        let ghost old_children = children@;
                        let ghost old_slice = next_slice@;
                        let ghost st = skip_tree(next_slice@);
                        children.push(child_node);
                        proof {
                            assert(base.skip(base.len() - old_slice.len()).skip(st) =~= base.skip(
                                base.len() - old_slice.len() + st,
                            ));
                            assert forall|tail: Seq<FileTreeNode>|
                                #[trigger] parses_children(path@, tail, rest2@)
                                    implies parses_children(path@, children@ + tail, base) by {
                                let grown = seq![child_node] + tail;
                                assert(grown[0] == child_node);
                                assert(grown.drop_first() =~= tail);
                                assert(parses_children(path@, grown, old_slice));
                                assert(old_children + grown =~= children@ + tail);
                                assert(parses_children(path@, old_children + grown, base));
                            }
                        }
                        next_slice = rest2;
                    },
                    Err(e) => {
                        return Err(e);
                    },
                }
            }
            proof {
                assert(parses_children(path@, Seq::<FileTreeNode>::empty(), next_slice@));
                assert(children@ + Seq::<FileTreeNode>::empty() =~= children@);
                assert(parses_children(path@, children@, base));
                assert(skip_children(path@, next_slice@) == 0);
                assert(skip_tree(find_output@) == 1 + skip_children(path@, base));
                assert(find_output@.skip(1 + (base.len() - next_slice@.len())) =~= base.skip(
                    base.len() - next_slice@.len(),
                ));
            }
            let node = FileTreeNode::Folder(FileTreeFolder { children, folder_name });
            Ok((next_slice, node))
        },
    }
}

/// What part of the first connection argument names the user and host: all
/// of it up to the first `:`, or all of it.
pub open spec fn user_host_part(s: Seq<char>) -> Seq<char> {
    match s.index_of_first(':') {
        Some(i) => s.subrange(0, i),
        None => s,
    }
}

/// What part of the first connection argument names the directory: between
/// the first and second `:`, to the end when there is no second one, and `/`
/// when there is no `:` at all.
pub open spec fn path_part(s: Seq<char>) -> Seq<char> {
    match s.index_of_first(':') {
        None => seq!['/'],
        Some(i) => {
            let rest = s.subrange(i + 1, s.len() as int);
            match rest.index_of_first(':') {
                Some(j) => rest.subrange(0, j),
                None => rest,
            }
        },
    }
}

/// A remote connection: the arguments to connect with, and the directory to
/// index there.
pub struct SshConfig {
    ssh_args: Vec<String>,
    directory_path: String,
}

impl SshConfig {
    /// The connection arguments, with the directory split off the first one.
    pub closed spec fn spec_ssh_args(self) -> Seq<Seq<char>> {
        self.ssh_args@.map_values(|a: String| a@)
    }

    /// The directory to index.
    pub closed spec fn spec_directory_path(self) -> Seq<char> {
        self.directory_path@
    }

    /// Reads a connection target of the shape `user@host:path` out of the
    /// first argument: the part before the first `:` stays the first
    /// argument, the part after it (up to a second `:`) becomes the
    /// directory, `/` when none is given. The other arguments pass through.
    #[verifier::loop_isolation(false)]
    pub fn new(ssh_args: Vec<String>) -> (r: SshConfig)
        requires
            ssh_args@.len() >= 1,
        ensures
            r.spec_ssh_args().len() == ssh_args@.len(),
            r.spec_ssh_args()[0] == user_host_part(ssh_args@[0]@),
            forall|k: int| 1 <= k < ssh_args@.len() ==> r.spec_ssh_args()[k] == ssh_args@[k]@,
            r.spec_directory_path() == path_part(ssh_args@[0]@),
    {
        let first: &String = &ssh_args[0];
        let n = first.as_str().unicode_len();
        let maybe_colon = find_char_from(first.as_str(), 0, ':');
        let user_and_host: String;
        let directory_path: String;
        match maybe_colon {
            None => {
                proof {
                    lemma_index_of_first_none(first@, ':');
                    reveal_strlit("/");
                    assert("/"@ =~= seq!['/']);
                }
                user_and_host = first.clone();
                directory_path = String::from_str("/");
            },
            Some(i) => {
                proof {
                    lemma_index_of_first_is(first@, ':', i as int);
                }
                user_and_host = String::from_str(first.as_str().substring_char(0, i));
                let rest = first.as_str().substring_char(i + 1, n);
                let maybe_second = find_char_from(rest, 0, ':');
                match maybe_second {
                    None => {
                        proof {
                            lemma_index_of_first_none(rest@, ':');
                        }
                        directory_path = String::from_str(rest);
                    },
                    Some(j) => {
                        proof {
                            lemma_index_of_first_is(rest@, ':', j as int);
                        }
                        directory_path = String::from_str(rest.substring_char(0, j));
                    },
                }
            },
        }
        let mut munged_ssh_args: Vec<String> = Vec::new();
        munged_ssh_args.push(user_and_host);
        let mut k: usize = 1;
        while k < ssh_args.len()
            invariant
                1 <= k <= ssh_args@.len(),
                munged_ssh_args@.len() == k,
                munged_ssh_args@[0]@ == user_host_part(ssh_args@[0]@),
                forall|t: int| 1 <= t < k ==> munged_ssh_args@[t]@ == ssh_args@[t]@,
            decreases ssh_args@.len() - k,
        {
            munged_ssh_args.push(ssh_args[k].clone());
            k = k + 1;
        }
        let r = SshConfig { ssh_args: munged_ssh_args, directory_path };
        proof {
            assert forall|t: int| 1 <= t < ssh_args@.len() implies r.spec_ssh_args()[t]
                == ssh_args@[t]@ by {
                assert(r.spec_ssh_args()[t] == r.ssh_args@[t]@);
            }
            assert(r.spec_ssh_args()[0] == r.ssh_args@[0]@);
        }
        r
    }

    /// The connection arguments, for running the remote command.
    pub fn ssh_args(&self) -> (r: &Vec<String>)
        ensures
            r@.map_values(|a: String| a@) == self.spec_ssh_args(),
    {
        &self.ssh_args
    }

    /// The directory to index, for running the remote command.
    pub fn directory_path(&self) -> (r: &String)
        ensures
            r@ == self.spec_directory_path(),
    {
        &self.directory_path
    }
}

} // verus!
