//! What the version control system says, read: the list of tracked files
//! and the name of the repository that the remote address stands for.

use crate::text::{
    find, first_occurrence, lemma_split_at_feed, lemma_split_without_feed, line_texts,
    split_lines, to_chars, trim, trim_bounds,
};
use vstd::prelude::*;
use vstd::string::*;

verus! {

/// A line that names a file: any that is not empty.
pub open spec fn names_a_file() -> spec_fn(Seq<char>) -> bool {
    |line: Seq<char>| line.len() > 0
}

/// The paths that a listing of tracked files names, one to a line.
pub open spec fn tracked_paths(listing: Seq<char>) -> Seq<Seq<char>> {
    split_lines(listing).filter(names_a_file())
}

/// Reads the listing of tracked files: its lines, without the empty ones.
pub fn get_tracked_files(listing: &str) -> (files: Vec<String>)
    ensures
        line_texts(files@) == tracked_paths(listing@),
{
    let chars = to_chars(listing);
    let n: usize = chars.len();
    let mut files: Vec<String> = Vec::new();
    let mut start: usize = 0;
    let mut i: usize = 0;
    assert(line_texts(files@) =~= Seq::empty());
    assert(chars@.skip(0) =~= chars@);
    while i < n
        invariant
            start <= i <= n == chars@.len(),
            chars@ == listing@,
            forall|j: int| start <= j < i ==> chars@[j] != '\n',
            tracked_paths(chars@) == line_texts(files@) + tracked_paths(chars@.skip(start as int)),
        decreases n - i,
    {
        if chars[i] == '\n' {
            let ghost rest = chars@.skip(start as int);
            let ghost piece = rest.take(i - start);
            let ghost before = line_texts(files@);
            proof {
                lemma_split_at_feed(rest, i - start);
                assert(rest.skip(i - start + 1) =~= chars@.skip(i + 1));
                assert(piece =~= listing@.subrange(start as int, i as int));
                Seq::filter_distributes_over_add(
                    seq![piece],
                    split_lines(chars@.skip(i + 1)),
                    names_a_file(),
                );
                Seq::<Seq<char>>::empty().lemma_filter_push(piece, names_a_file());
                reveal(Seq::filter);
                assert(Seq::<Seq<char>>::empty().push(piece) =~= seq![piece]);
            }
            if i > start {
                files.push(listing.substring_char(start, i).to_owned());
                assert(line_texts(files@) =~= before.push(piece));
                assert(seq![piece].filter(names_a_file()) =~= seq![piece]);
            } else {
                assert(seq![piece].filter(names_a_file()) =~= Seq::empty());
            }
            start = i + 1;
        }
        i += 1;
    }
    let ghost rest = chars@.skip(start as int);
    let ghost before = line_texts(files@);
    proof {
        lemma_split_without_feed(rest);
        assert(rest =~= listing@.subrange(start as int, n as int));
        Seq::<Seq<char>>::empty().lemma_filter_push(rest, names_a_file());
        reveal(Seq::filter);
        assert(Seq::<Seq<char>>::empty().push(rest) =~= seq![rest]);
    }
    if n > start {
        files.push(listing.substring_char(start, n).to_owned());
        assert(line_texts(files@) =~= before.push(rest));
        assert(seq![rest].filter(names_a_file()) =~= seq![rest]);
    } else {
        assert(seq![rest].filter(names_a_file()) =~= Seq::empty());
    }
    files
}

/// The part of a remote address that introduces the repository's name.
pub open spec fn host_marker() -> Seq<char> {
    "github.com/"@
}

/// The ending that a remote address may carry after the name.
pub open spec fn git_suffix() -> Seq<char> {
    ".git"@
}

/// `s` without `suffix` at its end, where it ends with it.
pub open spec fn strip_suffix(s: Seq<char>, suffix: Seq<char>) -> Seq<char> {
    if suffix.len() <= s.len() && s.skip(s.len() - suffix.len()) == suffix {
        s.take(s.len() - suffix.len())
    } else {
        s
    }
}

/// The repository that a remote address stands for, as owner and name: what
/// follows the host, less the ending `.git`. The whitespace around the
/// address does not count. An address without the host stands for none.
pub open spec fn remote_name(address: Seq<char>) -> Option<Seq<char>> {
    let url = trim(address);
    match first_occurrence(url, host_marker()) {
        Some(at) => Some(strip_suffix(url.skip(at + host_marker().len()), git_suffix())),
        None => None,
    }
}

/// Whether `hay[from..to]` ends with `suffix`.
fn ends_with(hay: &[char], from: usize, to: usize, suffix: &[char]) -> (r: bool)
    requires
        from <= to <= hay@.len(),
    ensures
        r == (suffix@.len() <= to - from && hay@.subrange(from as int, to as int).skip(
            to - from - suffix@.len(),
        ) == suffix@),
{
    let m: usize = suffix.len();
    if m > to - from {
        return false;
    }
    let base: usize = to - m;
    let ghost tail = hay@.subrange(from as int, to as int).skip(to - from - m);
    let mut k: usize = 0;
    while k < m
        invariant
            k <= m == suffix@.len(),
            base + m == to <= hay@.len(),
            from <= base,
            tail == hay@.subrange(from as int, to as int).skip(to - from - m),
            forall|j: int| 0 <= j < k ==> hay@[base + j] == suffix@[j],
        decreases m - k,
    {
        if hay[base + k] != suffix[k] {
            assert(tail[k as int] == hay@[base + k]);
            return false;
        }
        k += 1;
    }
    assert(tail =~= suffix@);
    true
}

/// Reads the repository's name off the address of the remote.
pub fn get_remote_name(address: &str) -> (name: Option<String>)
    ensures
        match name {
            Some(n) => remote_name(address@) == Some(n@),
            None => remote_name(address@) is None,
        },
{
    let chars = to_chars(address);
    let marker = to_chars("github.com/");
    let suffix = to_chars(".git");
    let (a, b) = trim_bounds(chars.as_slice(), 0, chars.len());
    assert(chars@.subrange(0, chars@.len() as int) =~= address@);
    let url = address.substring_char(a, b);
    let url_chars = to_chars(url);
    match find(url_chars.as_slice(), marker.as_slice()) {
        None => None,
        Some(at) => {
            let from: usize = at + marker.len();
            let to: usize = url_chars.len();
            assert(url_chars@.subrange(from as int, to as int) =~= url@.skip(from as int));
            if ends_with(url_chars.as_slice(), from, to, suffix.as_slice()) {
                assert(url@.skip(from as int).take(to - from - suffix@.len()) =~= url@.subrange(
                    from as int,
                    to - suffix@.len(),
                ));
                Some(url.substring_char(from, to - suffix.len()).to_owned())
            } else {
                Some(url.substring_char(from, to).to_owned())
            }
        },
    }
}

} // verus!
