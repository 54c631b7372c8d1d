//! Comparisons on names, character by character.

use vstd::prelude::*;
use vstd::std_specs::iter::IteratorSpec;
use vstd::string::*;

verus! {

broadcast use vstd::string::group_string_axioms;

/// Lexicographic order on code points: `a` comes no later than `b`.
pub open spec fn name_le(a: Seq<char>, b: Seq<char>) -> bool
    decreases a.len(),
{
    if a.len() == 0 {
        true
    } else if b.len() == 0 {
        false
    } else if a[0] != b[0] {
        a[0] < b[0]
    } else {
        name_le(a.drop_first(), b.drop_first())
    }
}

/// Whether `a` comes no later than `b` in code point order.
pub fn name_precedes(a: &str, b: &str) -> (r: bool)
    ensures
        r == name_le(a@, b@),
{
    let mut left = a.chars();
    let mut right = b.chars();
    let ghost mut k: int = 0;
    loop
        invariant
            0 <= k <= a@.len(),
            k <= b@.len(),
            left.remaining() == a@.skip(k),
            right.remaining() == b@.skip(k),
            name_le(a@, b@) == name_le(a@.skip(k), b@.skip(k)),
        decreases a@.len() - k,
    {
        let x = left.next();
        let y = right.next();
        match (x, y) {
            (None, _) => {
                return true;
            },
            (Some(_), None) => {
                return false;
            },
            (Some(p), Some(q)) => {
                if p != q {
                    return p < q;
                }
                proof {
                    assert(a@.skip(k).drop_first() =~= a@.skip(k + 1));
                    assert(b@.skip(k).drop_first() =~= b@.skip(k + 1));
                    k = k + 1;
                }
            },
        }
    }
}

/// Of two names, one comes no later than the other.
pub proof fn lemma_name_le_total(a: Seq<char>, b: Seq<char>)
    ensures
        name_le(a, b) || name_le(b, a),
    decreases a.len(),
{
    if a.len() > 0 && b.len() > 0 && a[0] == b[0] {
        lemma_name_le_total(a.drop_first(), b.drop_first());
    }
}

/// The order on names is transitive.
pub proof fn lemma_name_le_transitive(a: Seq<char>, b: Seq<char>, c: Seq<char>)
    requires
        name_le(a, b),
        name_le(b, c),
    ensures
        name_le(a, c),
    decreases a.len(),
{
    if a.len() > 0 && a[0] == b[0] && b[0] == c[0] {
        lemma_name_le_transitive(a.drop_first(), b.drop_first(), c.drop_first());
    }
}

/// Whether `a` and `b` are the same text.
pub fn same_text(a: &str, b: &str) -> (r: bool)
    ensures
        r == (a@ == b@),
{
    let mut left = a.chars();
    let mut right = b.chars();
    let ghost mut k: int = 0;
    loop
        invariant
            0 <= k <= a@.len(),
            k <= b@.len(),
            left.remaining() == a@.skip(k),
            right.remaining() == b@.skip(k),
            forall|i: int| 0 <= i < k ==> a@[i] == b@[i],
        decreases a@.len() - k,
    {
        let x = left.next();
        let y = right.next();
        match (x, y) {
            (None, None) => {
                assert(a@ =~= b@);
                return true;
            },
            (None, Some(_)) => {
                return false;
            },
            (Some(_), None) => {
                return false;
            },
            (Some(p), Some(q)) => {
                if p != q {
                    assert(a@[k] == p && b@[k] == q);
                    return false;
                }
                proof {
                    assert(a@.skip(k).drop_first() =~= a@.skip(k + 1));
                    assert(b@.skip(k).drop_first() =~= b@.skip(k + 1));
                    k = k + 1;
                }
            },
        }
    }
}

/// A name that listings leave out unless hidden entries are shown.
pub open spec fn is_hidden_name(name: Seq<char>) -> bool {
    name.len() > 0 && name[0] == '.'
}

/// Whether `name` begins with a dot.
pub fn is_hidden(name: &str) -> (r: bool)
    ensures
        r == is_hidden_name(name@),
{
    let mut rest = name.chars();
    match rest.next() {
        Some(c) => c == '.',
        None => false,
    }
}

/// The lower-case form of an ASCII capital; any other character unchanged.
pub open spec fn ascii_lower(c: char) -> char {
    if 'A' <= c && c <= 'Z' {
        ((c as u8) + 32) as char
    } else {
        c
    }
}

/// Folds an ASCII capital to lower case.
pub fn to_ascii_lower(c: char) -> (r: char)
    ensures
        r == ascii_lower(c),
{
    if 'A' <= c && c <= 'Z' {
        ((c as u8) + 32u8) as char
    } else {
        c
    }
}

/// `a` and `b` are the same text once ASCII capitals are folded.
pub open spec fn same_ignoring_case(a: Seq<char>, b: Seq<char>) -> bool {
    &&& a.len() == b.len()
    &&& forall|i: int| 0 <= i < a.len() ==> ascii_lower(a[i]) == ascii_lower(b[i])
}

/// `name` begins with `prefix` once ASCII capitals are folded.
pub open spec fn begins_ignoring_case(name: Seq<char>, prefix: Seq<char>) -> bool {
    &&& prefix.len() <= name.len()
    &&& forall|i: int| 0 <= i < prefix.len() ==> ascii_lower(name[i]) == ascii_lower(prefix[i])
}

/// Whether `a` and `b` differ at most in the case of ASCII letters.
pub fn equals_ignoring_case(a: &str, b: &str) -> (r: bool)
    ensures
        r == same_ignoring_case(a@, b@),
{
    let mut left = a.chars();
    let mut right = b.chars();
    let ghost mut k: int = 0;
    loop
        invariant
            0 <= k <= a@.len(),
            k <= b@.len(),
            left.remaining() == a@.skip(k),
            right.remaining() == b@.skip(k),
            forall|i: int| 0 <= i < k ==> ascii_lower(a@[i]) == ascii_lower(b@[i]),
        decreases a@.len() - k,
    {
        let x = left.next();
        let y = right.next();
        match (x, y) {
            (None, None) => {
                return true;
            },
            (None, Some(_)) => {
                return false;
            },
            (Some(_), None) => {
                return false;
            },
            (Some(p), Some(q)) => {
                if to_ascii_lower(p) != to_ascii_lower(q) {
                    assert(a@[k] == p && b@[k] == q);
                    return false;
                }
                proof {
                    assert(a@.skip(k).drop_first() =~= a@.skip(k + 1));
                    assert(b@.skip(k).drop_first() =~= b@.skip(k + 1));
                    k = k + 1;
                }
            },
        }
    }
}

/// Whether `name` begins with `prefix`, the case of ASCII letters aside.
pub fn starts_with_ignoring_case(name: &str, prefix: &str) -> (r: bool)
    ensures
        r == begins_ignoring_case(name@, prefix@),
{
    let mut left = name.chars();
    let mut right = prefix.chars();
    let ghost mut k: int = 0;
    loop
        invariant
            0 <= k <= name@.len(),
            k <= prefix@.len(),
            left.remaining() == name@.skip(k),
            right.remaining() == prefix@.skip(k),
            forall|i: int| 0 <= i < k ==> ascii_lower(name@[i]) == ascii_lower(prefix@[i]),
        decreases prefix@.len() - k,
    {
        let y = right.next();
        match y {
            None => {
                return true;
            },
            Some(q) => {
                let x = left.next();
                match x {
                    None => {
                        return false;
                    },
                    Some(p) => {
                        if to_ascii_lower(p) != to_ascii_lower(q) {
                            assert(name@[k] == p && prefix@[k] == q);
                            return false;
                        }
                        proof {
                            assert(name@.skip(k).drop_first() =~= name@.skip(k + 1));
                            assert(prefix@.skip(k).drop_first() =~= prefix@.skip(k + 1));
                            k = k + 1;
                        }
                    },
                }
            },
        }
    }
}

/// The index of the last `wanted` in `text`, or -1 where it has none.
pub open spec fn last_position(text: Seq<char>, wanted: char) -> int
    decreases text.len(),
{
    if text.len() == 0 {
        -1
    } else if text.last() == wanted {
        text.len() - 1
    } else {
        last_position(text.drop_last(), wanted)
    }
}

/// `last_position` finds the character, and none like it stands behind.
pub proof fn lemma_last_position(text: Seq<char>, wanted: char)
    ensures
        -1 <= last_position(text, wanted) < text.len(),
        last_position(text, wanted) >= 0 ==> text[last_position(text, wanted)] == wanted,
        forall|j: int| last_position(text, wanted) < j < text.len() ==> text[j] != wanted,
    decreases text.len(),
{
    if text.len() > 0 && text.last() != wanted {
        let head = text.drop_last();
        lemma_last_position(head, wanted);
        assert forall|j: int| last_position(text, wanted) < j < text.len() implies text[j]
            != wanted by {
            if j < head.len() {
                assert(head[j] == text[j]);
            }
        }
    }
}

/// An occurrence with none behind it is the last one.
pub proof fn lemma_last_position_is(text: Seq<char>, wanted: char, at: int)
    requires
        0 <= at < text.len(),
        text[at] == wanted,
        forall|j: int| at < j < text.len() ==> text[j] != wanted,
    ensures
        last_position(text, wanted) == at,
    decreases text.len(),
{
    if text.last() != wanted {
        lemma_last_position_is(text.drop_last(), wanted, at);
    }
}

/// The index of the last `wanted` in `text`, counted in characters, and
/// the number of characters of `text`.
pub fn find_last(text: &str, wanted: char) -> (found: (Option<usize>, usize))
    ensures
        found.1 == text@.len(),
        match found.0 {
            Some(at) => at == last_position(text@, wanted),
            None => last_position(text@, wanted) == -1,
        },
{
    let length = text.unicode_len();
    let mut rest = text.chars();
    let mut last: Option<usize> = None;
    let mut at: usize = 0;
    assert(text@.take(0) =~= Seq::<char>::empty());
    while at < length
        invariant
            0 <= at <= length,
            length == text@.len(),
            rest.remaining() == text@.skip(at as int),
            match last {
                Some(found) => found == last_position(text@.take(at as int), wanted),
                None => last_position(text@.take(at as int), wanted) == -1,
            },
        decreases length - at,
    {
        let next = rest.next();
        proof {
            assert(text@.skip(at as int).drop_first() =~= text@.skip(at + 1));
            assert(text@.take(at + 1).drop_last() =~= text@.take(at as int));
            assert(text@.take(at + 1).last() == text@[at as int]);
        }
        match next {
            Some(c) => {
                if c == wanted {
                    last = Some(at);
                }
            },
            None => {},
        }
        at = at + 1;
    }
    assert(text@.take(length as int) =~= text@);
    (last, length)
}

} // verus!
