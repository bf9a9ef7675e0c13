use vstd::prelude::*;

verus! {

/// The needle occurs in the haystack starting at position `i`.
pub open spec fn substr_at(hay: Seq<char>, needle: Seq<char>, i: int) -> bool {
    0 <= i && i + needle.len() <= hay.len() && hay.subrange(i, i + needle.len()) == needle
}

/// The needle occurs somewhere in the haystack.
pub open spec fn has_substr(hay: Seq<char>, needle: Seq<char>) -> bool {
    exists|i: int| substr_at(hay, needle, i)
}

/// Checks whether the needle occurs at position `i` of the haystack,
/// comparing character by character.
fn matches_at(hay: &str, needle: &str, i: usize) -> (r: bool)
    requires
        i + needle@.len() <= hay@.len(),
    ensures
        r == substr_at(hay@, needle@, i as int),
{
    let nlen = needle.unicode_len();
    let hlen = hay.unicode_len();
    let mut j: usize = 0;
    while j < nlen
        invariant
            j <= nlen,
            nlen == needle@.len(),
            hlen == hay@.len(),
            i + nlen <= hlen,
            forall|m: int| 0 <= m < j ==> hay@[i + m] == needle@[m],
        decreases nlen - j,
    {
        let hc = hay.get_char(i + j);
        let nc = needle.get_char(j);
        if hc != nc {
            proof {
                assert(hay@.subrange(i as int, i + nlen)[j as int] == hay@[i + j]);
            }
            return false;
        }
        j = j + 1;
    }
    proof {
        assert(hay@.subrange(i as int, i + nlen) =~= needle@);
    }
    true
}

/// Checks whether `needle` occurs as a contiguous substring of `hay`.
pub fn contains_substr(hay: &str, needle: &str) -> (r: bool)
    ensures
        r == has_substr(hay@, needle@),
{
    let hlen = hay.unicode_len();
    let nlen = needle.unicode_len();
    if nlen > hlen {
        proof {
            assert(forall|i: int| !substr_at(hay@, needle@, i));
        }
        return false;
    }
    let mut i: usize = 0;
    loop
        invariant
            i <= hlen - nlen,
            nlen <= hlen,
            hlen == hay@.len(),
            nlen == needle@.len(),
            forall|k: int| 0 <= k < i ==> !substr_at(hay@, needle@, k),
        decreases hlen - nlen - i,
    {
        if matches_at(hay, needle, i) {
            return true;
        }
        if i == hlen - nlen {
            proof {
                assert forall|k: int| !substr_at(hay@, needle@, k) by {
                    if 0 <= k <= hlen - nlen {
                        assert(!substr_at(hay@, needle@, k));
                    }
                }
            }
            return false;
        }
        i = i + 1;
    }
}

/// The sequence of `n` space characters.
pub open spec fn spaces(n: nat) -> Seq<char> {
    Seq::new(n, |i: int| ' ')
}

/// `s` left-justified in a field of `width` characters: `s` itself when it
/// is already that wide, and `s` followed by spaces otherwise.
pub open spec fn padded(s: Seq<char>, width: nat) -> Seq<char> {
    if s.len() >= width {
        s
    } else {
        s + spaces((width - s.len()) as nat)
    }
}

/// Law: a padded name occupies exactly the field width whenever the field
/// is at least as wide as the name.
pub proof fn lemma_padded_len(s: Seq<char>, width: nat)
    requires
        s.len() <= width,
    ensures
        padded(s, width).len() == width,
{
}

/// Left-justifies `s` in a field of `width` characters, filling with spaces.
pub fn pad_right(s: &str, width: usize) -> (r: String)
    ensures
        r@ == padded(s@, width as nat),
{
    let len = s.unicode_len();
    let mut r = String::from_str(s);
    if len >= width {
        return r;
    }
    let mut k: usize = len;
    proof {
        assert(r@ =~= s@ + spaces(0));
    }
    while k < width
        invariant
            len <= k <= width,
            len == s@.len(),
            r@ == s@ + spaces((k - len) as nat),
        decreases width - k,
    {
        r.append(" ");
        proof {
            reveal_strlit(" ");
            assert(s@ + spaces((k - len) as nat) + " "@ =~= s@ + spaces((k + 1 - len) as nat));
        }
        k = k + 1;
    }
    r
}

} // verus!
