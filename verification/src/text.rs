//! Plain text helpers: choosing the first candidate of a
//! whitespace-separated responsive-image set, and absolutising links
//! against a site origin.

use vstd::prelude::*;

verus! {

/// A character that separates candidates in a responsive-image set.
pub open spec fn is_space_char(c: char) -> bool {
    c == ' ' || c == '\t' || c == '\n' || c == '\r'
}

/// The given sequence with its leading whitespace removed.
pub open spec fn skip_spaces(s: Seq<char>) -> Seq<char>
    decreases s.len(),
{
    if s.len() == 0 {
        s
    } else if is_space_char(s[0]) {
        skip_spaces(s.drop_first())
    } else {
        s
    }
}

/// The longest whitespace-free prefix of the given sequence.
pub open spec fn take_until_space(s: Seq<char>) -> Seq<char>
    decreases s.len(),
{
    if s.len() == 0 {
        s
    } else if is_space_char(s[0]) {
        Seq::empty()
    } else {
        seq![s[0]] + take_until_space(s.drop_first())
    }
}

/// The first whitespace-separated candidate of a responsive-image set:
/// empty exactly when the set holds no candidate at all.
pub open spec fn first_candidate(s: Seq<char>) -> Seq<char> {
    take_until_space(skip_spaces(s))
}

/// A link that already carries a scheme and is passed through unchanged
/// by absolutisation.
pub open spec fn is_absolute_link(s: Seq<char>) -> bool {
    "http://"@.is_prefix_of(s) || "https://"@.is_prefix_of(s)
}

/// A relative link gets the site's origin prepended; an absolute link
/// is passed through unchanged.
pub open spec fn absolutized(origin: Seq<char>, link: Seq<char>) -> Seq<char> {
    if is_absolute_link(link) {
        link
    } else {
        origin + link
    }
}

fn is_space(c: char) -> (r: bool)
    ensures
        r == is_space_char(c),
{
    c == ' ' || c == '\t' || c == '\n' || c == '\r'
}

proof fn lemma_skip_spaces_at(s: Seq<char>, i: int)
    requires
        0 <= i <= s.len(),
        forall|k: int| 0 <= k < i ==> is_space_char(s[k]),
        i < s.len() ==> !is_space_char(s[i]),
    ensures
        skip_spaces(s) =~= s.skip(i),
    decreases i,
{
    if i == 0 {
        assert(skip_spaces(s) =~= s.skip(0));
    } else {
        lemma_skip_spaces_at(s.drop_first(), i - 1);
        assert(s.drop_first().skip(i - 1) =~= s.skip(i));
    }
}

proof fn lemma_take_until_space_at(s: Seq<char>, j: int)
    requires
        0 <= j <= s.len(),
        forall|k: int| 0 <= k < j ==> !is_space_char(s[k]),
        j < s.len() ==> is_space_char(s[j]),
    ensures
        take_until_space(s) =~= s.take(j),
    decreases s.len(),
{
    if s.len() == 0 {
    } else if is_space_char(s[0]) {
        assert(j == 0);
    } else {
        lemma_take_until_space_at(s.drop_first(), j - 1);
        assert(seq![s[0]] + s.drop_first().take(j - 1) =~= s.take(j));
    }
}

/// The first whitespace-separated candidate of a responsive-image set
/// (empty when the set holds none); `"urlA 100w, urlB 200w"` yields
/// `"urlA"`.
pub fn first_srcset_candidate(s: &str) -> (r: String)
    ensures
        r@ == first_candidate(s@),
{
    let len = s.unicode_len();
    let mut i: usize = 0;
    while i < len && is_space(s.get_char(i))
        invariant
            0 <= i <= len,
            len == s@.len(),
            forall|k: int| 0 <= k < i ==> is_space_char(s@[k]),
        decreases len - i,
    {
        i = i + 1;
    }
    let mut j: usize = i;
    while j < len && !is_space(s.get_char(j))
        invariant
            i <= j <= len,
            len == s@.len(),
            forall|k: int| i <= k < j ==> !is_space_char(s@[k]),
        decreases len - j,
    {
        j = j + 1;
    }
    proof {
        lemma_skip_spaces_at(s@, i as int);
        lemma_take_until_space_at(s@.skip(i as int), j - i);
        assert(s@.skip(i as int).take(j - i) =~= s@.subrange(i as int, j as int));
    }
    let cand = s.substring_char(i, j);
    String::from_str(cand)
}

fn str_has_prefix(s: &str, p: &str) -> (r: bool)
    ensures
        r == p@.is_prefix_of(s@),
{
    let slen = s.unicode_len();
    let plen = p.unicode_len();
    if plen > slen {
        return false;
    }
    let mut i: usize = 0;
    while i < plen
        invariant
            0 <= i <= plen,
            plen <= slen,
            slen == s@.len(),
            plen == p@.len(),
            forall|k: int| 0 <= k < i ==> s@[k] == p@[k],
        decreases plen - i,
    {
        if s.get_char(i) != p.get_char(i) {
            assert(!p@.is_prefix_of(s@));
            return false;
        }
        i = i + 1;
    }
    assert(p@ =~= s@.subrange(0, plen as int));
    true
}

/// Whether a raw link already carries an `http` or `https` scheme.
pub fn is_absolute(link: &str) -> (r: bool)
    ensures
        r == is_absolute_link(link@),
{
    str_has_prefix(link, "http://") || str_has_prefix(link, "https://")
}

/// Absolutise a raw link: a relative link gets the origin prepended, an
/// absolute one is passed through unchanged.
pub fn absolutize(origin: &str, link: &str) -> (r: String)
    ensures
        r@ == absolutized(origin@, link@),
{
    if is_absolute(link) {
        String::from_str(link)
    } else {
        let mut out = String::from_str(origin);
        out.append(link);
        out
    }
}

} // verus!
