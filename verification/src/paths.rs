//! Path strings: absoluteness, joining, and playlist detection.
//!
//! Paths are plain Unix-style strings: `/`-separated components, absolute
//! exactly when they start with `/`.

use vstd::prelude::*;
use vstd::string::*;

verus! {

/// A path is absolute when it starts with the separator.
pub open spec fn is_absolute_spec(p: Seq<char>) -> bool {
    p.len() > 0 && p[0] == '/'
}

/// Whether `p` is an absolute path.
pub fn is_absolute(p: &str) -> (b: bool)
    ensures
        b == is_absolute_spec(p@),
{
    let n = p.unicode_len();
    n > 0 && p.get_char(0) == '/'
}

/// What joining a relative path onto a root yields: the root, a separator
/// unless the root already ends with one, then the relative path. An empty
/// root contributes nothing but the relative path itself.
pub open spec fn join_spec(root: Seq<char>, rel: Seq<char>) -> Seq<char> {
    if root.len() == 0 {
        rel
    } else if root.last() == '/' {
        root + rel
    } else {
        root + seq!['/'] + rel
    }
}

/// Join a relative path onto a root directory.
pub fn join(root: &str, rel: &str) -> (r: String)
    ensures
        r@ == join_spec(root@, rel@),
{
    let n = root.unicode_len();
    if n == 0 {
        String::from_str(rel)
    } else if root.get_char(n - 1) == '/' {
        let mut out = String::from_str(root);
        out.append(rel);
        proof {
            assert(out@ =~= join_spec(root@, rel@));
        }
        out
    } else {
        let mut out = String::from_str(root);
        out.append("/");
        out.append(rel);
        proof {
            reveal_strlit("/");
            assert(out@ =~= join_spec(root@, rel@));
        }
        out
    }
}

/// The final component of `p`: its longest suffix free of separators. Empty
/// when `p` is empty or ends with a separator.
pub open spec fn file_name_spec(p: Seq<char>) -> Seq<char>
    decreases p.len(),
{
    if p.len() == 0 {
        p
    } else if p.last() == '/' {
        Seq::empty()
    } else {
        file_name_spec(p.drop_last()).push(p.last())
    }
}

/// The final component is the suffix that starts right after the last
/// separator.
proof fn lemma_file_name_suffix(p: Seq<char>, i: int)
    requires
        0 <= i <= p.len(),
        forall|j: int| i <= j < p.len() ==> p[j] != '/',
        i == 0 || p[i - 1] == '/',
    ensures
        file_name_spec(p) == p.subrange(i, p.len() as int),
    decreases p.len(),
{
    if i == p.len() {
        assert(p.subrange(i, p.len() as int) =~= Seq::<char>::empty());
        if p.len() > 0 {
            assert(p.last() == '/');
        }
    } else {
        assert(p.last() != '/');
        let q = p.drop_last();
        lemma_file_name_suffix(q, i);
        assert(file_name_spec(p) =~= p.subrange(i, p.len() as int));
    }
}

/// The playlist suffix, as characters.
pub open spec fn playlist_suffix() -> Seq<char> {
    seq!['.', 'm', '3', 'u', '8']
}

/// A path names a playlist when its final component has the playlist
/// extension: it ends in `.m3u8` and holds at least one character before that
/// dot (a bare `.m3u8` is a hidden file with no extension, not a playlist).
pub open spec fn is_playlist_spec(p: Seq<char>) -> bool {
    let f = file_name_spec(p);
    f.len() > playlist_suffix().len() && f.subrange(
        f.len() - playlist_suffix().len(),
        f.len() as int,
    ) == playlist_suffix()
}

/// Whether `p` names a playlist file.
pub fn is_playlist(p: &str) -> (b: bool)
    ensures
        b == is_playlist_spec(p@),
{
    let n = p.unicode_len();
    let mut i = n;
    while i > 0 && p.get_char(i - 1) != '/'
        invariant
            0 <= i <= n,
            n == p@.len(),
            forall|j: int| i <= j < p@.len() ==> p@[j] != '/',
        decreases i,
    {
        i = i - 1;
    }
    proof {
        lemma_file_name_suffix(p@, i as int);
    }
    // The final component is p[i..n]; check it against the suffix.
    if n - i <= 5 {
        proof {
            assert(file_name_spec(p@).len() <= 5);
        }
        return false;
    }
    let b = p.get_char(n - 5) == '.' && p.get_char(n - 4) == 'm' && p.get_char(n - 3) == '3'
        && p.get_char(n - 2) == 'u' && p.get_char(n - 1) == '8';
    proof {
        let f = file_name_spec(p@);
        assert(f =~= p@.subrange(i as int, n as int));
        assert(f.len() == n - i);
        if b {
            assert(f.subrange(f.len() - 5, f.len() as int) =~= playlist_suffix());
        } else {
            if f.subrange(f.len() - 5, f.len() as int) == playlist_suffix() {
                assert(f[f.len() - 5] == '.' && f[f.len() - 4] == 'm' && f[f.len() - 3] == '3'
                    && f[f.len() - 2] == 'u' && f[f.len() - 1] == '8');
                assert(false);
            }
        }
    }
    b
}

} // verus!
