//! Absolute paths as text: the root `/`, or segments that each follow a `/`.

use crate::text::{
    find_last, last_position, lemma_last_position, lemma_last_position_is, same_text,
};
use vstd::prelude::*;
use vstd::std_specs::iter::IteratorSpec;
use vstd::string::*;

verus! {

broadcast use vstd::string::group_string_axioms;

/// A name that can stand for one child of a directory: not empty, without
/// a separator, and neither `.` nor `..`, which name no child.
pub open spec fn is_segment(name: Seq<char>) -> bool {
    &&& name.len() > 0
    &&& forall|i: int| 0 <= i < name.len() ==> name[i] != '/'
    &&& name != seq!['.']
    &&& name != seq!['.', '.']
}

/// The path of the filesystem root.
pub open spec fn is_root(path: Seq<char>) -> bool {
    path.len() == 1 && path[0] == '/'
}

/// A well-formed absolute path: it starts at the root, and every separator
/// but the root's own is followed by the first character of a segment.
pub open spec fn is_absolute(path: Seq<char>) -> bool {
    &&& path.len() > 0
    &&& path[0] == '/'
    &&& forall|i: int|
        0 < i < path.len() && #[trigger] path[i] == '/' ==> path[i - 1] != '/' && i + 1
            < path.len()
}

/// The path of the child `name` of the directory `dir`.
pub open spec fn joined(dir: Seq<char>, name: Seq<char>) -> Seq<char> {
    if is_root(dir) {
        dir + name
    } else {
        dir + seq!['/'] + name
    }
}

/// The index of the last separator of `path`, or -1 where it has none.
pub open spec fn last_separator(path: Seq<char>) -> int {
    last_position(path, '/')
}

/// The directory that holds `path`: what stands before its last separator,
/// or the root where that separator is the first character. The root has no
/// parent, nor has a text without a separator.
pub open spec fn parent(path: Seq<char>) -> Option<Seq<char>> {
    let cut = last_separator(path);
    if cut < 0 || is_root(path) {
        None
    } else if cut == 0 {
        Some(seq!['/'])
    } else {
        Some(path.take(cut))
    }
}

/// Joining a segment to a well-formed directory path gives a well-formed
/// path, and its parent is that directory.
pub proof fn lemma_parent_of_joined(dir: Seq<char>, name: Seq<char>)
    requires
        is_absolute(dir),
        is_segment(name),
    ensures
        is_absolute(joined(dir, name)),
        !is_root(joined(dir, name)),
        parent(joined(dir, name)) == Some(dir),
{
    let path = joined(dir, name);
    if is_root(dir) {
        lemma_last_position_is(path, '/', 0);
        assert(dir =~= seq!['/']);
    } else {
        let cut = dir.len() as int;
        assert(path[cut] == '/');
        assert forall|j: int| cut < j < path.len() implies path[j] != '/' by {
            assert(path[j] == name[j - cut - 1]);
        }
        lemma_last_position_is(path, '/', cut);
        assert(path.take(cut) =~= dir);
        assert forall|i: int| 0 < i < path.len() && #[trigger] path[i] == '/' implies path[i - 1]
            != '/' && i + 1 < path.len() by {
            if i < cut {
                assert(dir[i] == '/');
            } else if i > cut {
                assert(path[i] == name[i - cut - 1]);
            } else {
                if dir.len() > 1 {
                    assert(dir[cut - 1] != '/') by {
                        if dir[cut - 1] == '/' {
                            assert(cut - 1 + 1 < dir.len());
                        }
                    }
                }
            }
        }
    }
}

/// Two children of one directory with the same path have the same name.
pub proof fn lemma_joined_injective(dir: Seq<char>, a: Seq<char>, b: Seq<char>)
    requires
        joined(dir, a) == joined(dir, b),
    ensures
        a == b,
{
    let lead = (joined(dir, a).len() - a.len()) as int;
    assert(a =~= joined(dir, a).skip(lead));
    assert(b =~= joined(dir, b).skip(lead));
}

/// The parent of a well-formed path is well-formed, and every such path but
/// the root has one.
pub proof fn lemma_parent_is_absolute(path: Seq<char>)
    requires
        is_absolute(path),
    ensures
        parent(path) is Some <==> !is_root(path),
        parent(path) matches Some(up) ==> is_absolute(up) && up.len() < path.len(),
{
    lemma_last_position(path, '/');
    let cut = last_separator(path);
    if cut < 0 {
        assert(path[0] == '/');
    } else if !is_root(path) && cut > 0 {
        let up = path.take(cut);
        assert forall|i: int| 0 < i < up.len() && #[trigger] up[i] == '/' implies up[i - 1] != '/'
            && i + 1 < up.len() by {
            assert(path[i] == '/');
            if i + 1 == cut {
                assert(path[cut] == '/');
                assert(path[cut - 1] != '/');
            }
        }
    }
}

/// Whether `name` can stand for one child of a directory.
pub fn is_valid_segment(name: &str) -> (r: bool)
    ensures
        r == is_segment(name@),
{
    let mut rest = name.chars();
    let ghost mut k: int = 0;
    loop
        invariant
            0 <= k <= name@.len(),
            rest.remaining() == name@.skip(k),
            forall|i: int| 0 <= i < k ==> name@[i] != '/',
        decreases name@.len() - k,
    {
        match rest.next() {
            None => {
                proof {
                    reveal_strlit(".");
                    reveal_strlit("..");
                    assert("."@ =~= seq!['.']);
                    assert(".."@ =~= seq!['.', '.']);
                }
                return !name.is_empty() && !same_text(name, ".") && !same_text(name, "..");
            },
            Some(c) => {
                if c == '/' {
                    assert(name@[k] == '/');
                    return false;
                }
                proof {
                    assert(name@.skip(k).drop_first() =~= name@.skip(k + 1));
                    k = k + 1;
                }
            },
        }
    }
}

/// Whether `path` is the root.
pub fn is_root_path(path: &str) -> (r: bool)
    ensures
        r == is_root(path@),
{
    let mut rest = path.chars();
    match rest.next() {
        Some(c) => {
            let more = rest.next();
            assert(path@.skip(0).drop_first().len() == path@.len() - 1);
            c == '/' && more.is_none()
        },
        None => false,
    }
}

/// Whether `path` is a well-formed absolute path.
pub fn is_absolute_path(path: &str) -> (r: bool)
    ensures
        r == is_absolute(path@),
{
    let mut rest = path.chars();
    match rest.next() {
        None => {
            return false;
        },
        Some(c) => {
            if c != '/' {
                return false;
            }
        },
    }
    let ghost mut k: int = 1;
    let mut after_separator = true;
    proof {
        assert(path@.skip(0).drop_first() =~= path@.skip(1));
    }
    loop
        invariant
            1 <= k <= path@.len(),
            path@[0] == '/',
            rest.remaining() == path@.skip(k),
            after_separator == (path@[k - 1] == '/'),
            forall|i: int|
                0 < i < k && #[trigger] path@[i] == '/' ==> path@[i - 1] != '/' && i + 1 < k + 1,
            forall|i: int| 0 < i < k - 1 && #[trigger] path@[i] == '/' ==> i + 1 < k,
        decreases path@.len() - k,
    {
        match rest.next() {
            None => {
                let single = is_root_path(path);
                return single || !after_separator;
            },
            Some(c) => {
                if c == '/' && after_separator {
                    assert(path@[k] == '/');
                    return false;
                }
                after_separator = c == '/';
                proof {
                    assert(path@.skip(k).drop_first() =~= path@.skip(k + 1));
                    k = k + 1;
                }
            },
        }
    }
}

/// The path of the child `name` of `dir`.
pub fn join_path(dir: &str, name: &str) -> (path: String)
    ensures
        path@ == joined(dir@, name@),
{
    let mut path = dir.to_owned();
    if !is_root_path(dir) {
        proof {
            reveal_strlit("/");
        }
        path.append("/");
        assert(path@ =~= dir@ + seq!['/']);
    }
    path.append(name);
    path
}

/// The directory that holds `path`, if it has one.
pub fn parent_path(path: &str) -> (up: Option<String>)
    ensures
        up is Some <==> parent(path@) is Some,
        up matches Some(text) ==> parent(path@) == Some(text@),
{
    let (cut, length) = find_last(path, '/');
    proof {
        lemma_last_position(path@, '/');
    }
    match cut {
        None => None,
        Some(c) => {
            if length == 1 {
                None
            } else if c == 0 {
                proof {
                    reveal_strlit("/");
                }
                let root = "/".to_owned();
                assert(root@ =~= seq!['/']);
                Some(root)
            } else {
                let head = path.substring_char(0, c);
                assert(head@ =~= path@.take(c as int));
                Some(head.to_owned())
            }
        },
    }
}

} // verus!
