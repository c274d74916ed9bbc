//! Verified character-level utilities over `&str` and `String`.
//!
//! All matching, joining, and path derivation in the crate goes through
//! these helpers so their contracts pin the behaviour down exactly.

use vstd::prelude::*;
use vstd::string::*;

verus! {

/// `needle` occurs as a contiguous run of characters inside `hay`.
pub open spec fn seq_contains(hay: Seq<char>, needle: Seq<char>) -> bool {
    exists|i: int|
        0 <= i && i + needle.len() <= hay.len() && #[trigger] hay.subrange(i, i + needle.len())
            == needle
}

/// `s` starts with `prefix`.
pub open spec fn seq_starts_with(s: Seq<char>, prefix: Seq<char>) -> bool {
    prefix.len() <= s.len() && s.subrange(0, prefix.len() as int) == prefix
}

/// Character-wise equality of two string slices.
pub fn str_eq(a: &str, b: &str) -> (r: bool)
    ensures
        r == (a@ == b@),
{
    let alen = a.unicode_len();
    let blen = b.unicode_len();
    if alen != blen {
        return false;
    }
    let mut i: usize = 0;
    while i < alen
        invariant
            i <= alen,
            alen == a@.len(),
            alen == b@.len(),
            forall|j: int| 0 <= j < i ==> a@[j] == b@[j],
        decreases alen - i,
    {
        if a.get_char(i) != b.get_char(i) {
            return false;
        }
        i += 1;
    }
    proof {
        assert(a@ =~= b@);
    }
    true
}

/// Whether the characters of `hay` starting at `at` equal `needle`.
fn matches_at(hay: &str, needle: &str, at: usize) -> (r: bool)
    requires
        at + needle@.len() <= hay@.len(),
    ensures
        r == (hay@.subrange(at as int, at + needle@.len()) == needle@),
{
    let nlen = needle.unicode_len();
    let hlen = hay.unicode_len();
    let mut j: usize = 0;
    while j < nlen
        invariant
            j <= nlen,
            nlen == needle@.len(),
            hlen == hay@.len(),
            at + nlen <= hlen,
            forall|k: int| 0 <= k < j ==> hay@[at + k] == needle@[k],
        decreases nlen - j,
    {
        if hay.get_char(at + j) != needle.get_char(j) {
            proof {
                assert(hay@.subrange(at as int, at + needle@.len())[j as int] == hay@[at + j]);
            }
            return false;
        }
        j += 1;
    }
    proof {
        assert(hay@.subrange(at as int, at + needle@.len()) =~= needle@);
    }
    true
}

/// Substring containment: the policy used to recognise a process by its
/// command line.
pub fn contains_str(hay: &str, needle: &str) -> (r: bool)
    ensures
        r == seq_contains(hay@, needle@),
{
    let hlen = hay.unicode_len();
    let nlen = needle.unicode_len();
    if nlen > hlen {
        return false;
    }
    if nlen == 0 {
        proof {
            assert(hay@.subrange(0, 0 + needle@.len() as int) =~= needle@);
        }
        return true;
    }
    let mut i: usize = 0;
    while i <= hlen - nlen
        invariant
            0 < nlen <= hlen,
            i <= hlen - nlen + 1,
            hlen == hay@.len(),
            nlen == needle@.len(),
            forall|j: int|
                0 <= j < i ==> #[trigger] hay@.subrange(j, j + needle@.len()) != needle@,
        decreases hlen - i,
    {
        if matches_at(hay, needle, i) {
            return true;
        }
        i += 1;
    }
    false
}

/// Whether `s` begins with `prefix`.
pub fn starts_with_str(s: &str, prefix: &str) -> (r: bool)
    ensures
        r == seq_starts_with(s@, prefix@),
{
    let plen = prefix.unicode_len();
    let slen = s.unicode_len();
    if plen > slen {
        return false;
    }
    matches_at(s, prefix, 0)
}

/// ASCII whitespace, the only whitespace the record codecs tolerate.
pub open spec fn is_space(c: char) -> bool {
    c == ' ' || c == '\t' || c == '\n' || c == '\r'
}

/// `s` with leading and trailing whitespace removed.
pub open spec fn trim_spec(s: Seq<char>) -> Seq<char>
    decreases s.len(),
{
    if s.len() == 0 {
        s
    } else if is_space(s[0]) {
        trim_spec(s.drop_first())
    } else if is_space(s.last()) {
        trim_spec(s.drop_last())
    } else {
        s
    }
}

proof fn lemma_trim_all_space(s: Seq<char>)
    requires
        forall|i: int| 0 <= i < s.len() ==> is_space(#[trigger] s[i]),
    ensures
        trim_spec(s) =~= Seq::<char>::empty(),
    decreases s.len(),
{
    if s.len() > 0 {
        assert(forall|i: int|
            0 <= i < s.len() - 1 ==> is_space(#[trigger] s.drop_first()[i]));
        lemma_trim_all_space(s.drop_first());
    }
}

pub proof fn lemma_trim_subrange(s: Seq<char>, lo: int, hi: int)
    requires
        0 <= lo <= hi <= s.len(),
        forall|i: int| 0 <= i < lo ==> is_space(#[trigger] s[i]),
        forall|i: int| hi <= i < s.len() ==> is_space(#[trigger] s[i]),
        lo < hi ==> !is_space(s[lo]) && !is_space(s[hi - 1]),
    ensures
        trim_spec(s) == s.subrange(lo, hi),
    decreases s.len(),
{
    if lo == hi {
        lemma_trim_all_space(s);
        assert(s.subrange(lo, hi) =~= Seq::<char>::empty());
    } else if s.len() == 0 {
    } else if is_space(s[0]) {
        let t = s.drop_first();
        assert(forall|i: int| 0 <= i < lo - 1 ==> is_space(#[trigger] t[i]));
        assert(forall|i: int| hi - 1 <= i < t.len() ==> is_space(#[trigger] t[i]));
        lemma_trim_subrange(t, lo - 1, hi - 1);
        assert(t.subrange(lo - 1, hi - 1) =~= s.subrange(lo, hi));
    } else if is_space(s.last()) {
        let t = s.drop_last();
        assert(hi < s.len());
        assert(forall|i: int| 0 <= i < lo ==> is_space(#[trigger] t[i]));
        assert(forall|i: int| hi <= i < t.len() ==> is_space(#[trigger] t[i]));
        lemma_trim_subrange(t, lo, hi);
        assert(t.subrange(lo, hi) =~= s.subrange(lo, hi));
    } else {
        assert(lo == 0);
        assert(hi == s.len());
        assert(s.subrange(0, s.len() as int) =~= s);
    }
}

pub proof fn lemma_trim_len(s: Seq<char>)
    ensures
        trim_spec(s).len() <= s.len(),
    decreases s.len(),
{
    if s.len() > 0 {
        if is_space(s[0]) {
            lemma_trim_len(s.drop_first());
        } else if is_space(s.last()) {
            lemma_trim_len(s.drop_last());
        }
    }
}

fn is_space_char(c: char) -> (r: bool)
    ensures
        r == is_space(c),
{
    c == ' ' || c == '\t' || c == '\n' || c == '\r'
}

/// Remove leading and trailing ASCII whitespace.
pub fn trim_str(s: &str) -> (r: &str)
    ensures
        r@ == trim_spec(s@),
{
    let len = s.unicode_len();
    let mut lo: usize = 0;
    while lo < len && is_space_char(s.get_char(lo))
        invariant
            lo <= len,
            len == s@.len(),
            forall|i: int| 0 <= i < lo ==> is_space(#[trigger] s@[i]),
        decreases len - lo,
    {
        lo += 1;
    }
    let mut hi: usize = len;
    while hi > lo && is_space_char(s.get_char(hi - 1))
        invariant
            lo <= hi <= len,
            len == s@.len(),
            forall|i: int| 0 <= i < lo ==> is_space(#[trigger] s@[i]),
            forall|i: int| hi <= i < len ==> is_space(#[trigger] s@[i]),
        decreases hi,
    {
        hi -= 1;
    }
    proof {
        lemma_trim_subrange(s@, lo as int, hi as int);
    }
    s.substring_char(lo, hi)
}

/// Index of the first occurrence of `sep` in `s`, or `s.len()` if absent.
pub open spec fn first_index(s: Seq<char>, sep: char) -> int
    decreases s.len(),
{
    if s.len() == 0 {
        0
    } else if s[0] == sep {
        0
    } else {
        1 + first_index(s.drop_first(), sep)
    }
}

pub proof fn lemma_first_index_props(s: Seq<char>, sep: char)
    ensures
        0 <= first_index(s, sep) <= s.len(),
        first_index(s, sep) < s.len() ==> s[first_index(s, sep)] == sep,
        forall|j: int| 0 <= j < first_index(s, sep) ==> #[trigger] s[j] != sep,
    decreases s.len(),
{
    if s.len() > 0 && s[0] != sep {
        let t = s.drop_first();
        lemma_first_index_props(t, sep);
        if first_index(s, sep) < s.len() {
            assert(s[first_index(s, sep)] == t[first_index(t, sep)]);
        }
        assert forall|j: int| 0 <= j < first_index(s, sep) implies #[trigger] s[j] != sep by {
            if j > 0 {
                assert(s[j] == t[j - 1]);
            }
        }
    }
}

pub proof fn lemma_first_index_is(s: Seq<char>, sep: char, k: int)
    requires
        0 <= k <= s.len(),
        forall|j: int| 0 <= j < k ==> #[trigger] s[j] != sep,
        k < s.len() ==> s[k] == sep,
    ensures
        first_index(s, sep) == k,
    decreases s.len(),
{
    if s.len() > 0 && k > 0 {
        let t = s.drop_first();
        assert(forall|j: int| 0 <= j < k - 1 ==> #[trigger] t[j] != sep);
        lemma_first_index_is(t, sep, k - 1);
    }
}

/// Trimming is idempotent.
pub proof fn lemma_trim_idempotent(s: Seq<char>)
    ensures
        trim_spec(trim_spec(s)) == trim_spec(s),
    decreases s.len(),
{
    if s.len() > 0 {
        if is_space(s[0]) {
            lemma_trim_idempotent(s.drop_first());
        } else if is_space(s.last()) {
            lemma_trim_idempotent(s.drop_last());
        }
    }
}

/// Trimming never introduces a character.
pub proof fn lemma_trim_excludes(s: Seq<char>, c: char)
    requires
        forall|i: int| 0 <= i < s.len() ==> #[trigger] s[i] != c,
    ensures
        forall|i: int| 0 <= i < trim_spec(s).len() ==> #[trigger] trim_spec(s)[i] != c,
    decreases s.len(),
{
    if s.len() > 0 {
        if is_space(s[0]) {
            let t = s.drop_first();
            assert(forall|i: int| 0 <= i < s.len() - 1 ==> #[trigger] t[i] == s[i + 1]);
            lemma_trim_excludes(t, c);
            assert forall|i: int|
                0 <= i < trim_spec(s).len() implies #[trigger] trim_spec(s)[i] != c by {
                assert(trim_spec(s)[i] == trim_spec(t)[i]);
            }
        } else if is_space(s.last()) {
            let t = s.drop_last();
            assert(forall|i: int| 0 <= i < s.len() - 1 ==> #[trigger] t[i] == s[i]);
            lemma_trim_excludes(t, c);
            assert forall|i: int|
                0 <= i < trim_spec(s).len() implies #[trigger] trim_spec(s)[i] != c by {
                assert(trim_spec(s)[i] == trim_spec(t)[i]);
            }
        }
    }
}

/// Index of the first occurrence of `sep`, or the length if absent.
pub fn find_char(s: &str, sep: char) -> (r: usize)
    ensures
        r == first_index(s@, sep),
{
    let len = s.unicode_len();
    let mut i: usize = 0;
    while i < len
        invariant
            i <= len,
            len == s@.len(),
            forall|j: int| 0 <= j < i ==> #[trigger] s@[j] != sep,
        decreases len - i,
    {
        if s.get_char(i) == sep {
            proof {
                lemma_first_index_is(s@, sep, i as int);
            }
            return i;
        }
        i += 1;
    }
    proof {
        lemma_first_index_is(s@, sep, len as int);
    }
    len
}

/// `s` divided at every occurrence of `sep`; the separators are dropped
/// and empty segments are kept.
pub open spec fn split_char(s: Seq<char>, sep: char) -> Seq<Seq<char>>
    decreases s.len(),
{
    let i = first_index(s, sep);
    if !(0 <= i < s.len()) {
        seq![s]
    } else {
        seq![s.subrange(0, i)] + split_char(s.subrange(i + 1, s.len() as int), sep)
    }
}

/// No segment of a division contains the separator.
pub proof fn lemma_split_segment_clean(s: Seq<char>, sep: char, i: int, j: int)
    requires
        0 <= i < split_char(s, sep).len(),
        0 <= j < split_char(s, sep)[i].len(),
    ensures
        split_char(s, sep)[i][j] != sep,
    decreases s.len(),
{
    lemma_first_index_props(s, sep);
    let fi = first_index(s, sep);
    if !(0 <= fi < s.len()) {
        assert(split_char(s, sep)[i] == s);
    } else {
        if i == 0 {
            assert(split_char(s, sep)[i] == s.subrange(0, fi));
        } else {
            let rest = s.subrange(fi + 1, s.len() as int);
            assert(split_char(s, sep)[i] == split_char(rest, sep)[i - 1]);
            lemma_split_segment_clean(rest, sep, i - 1, j);
        }
    }
}

/// Divide `s` at every occurrence of `sep`.
pub fn split_str(s: &str, sep: char) -> (r: Vec<String>)
    ensures
        r.deep_view() == split_char(s@, sep),
{
    let len = s.unicode_len();
    let mut parts: Vec<String> = Vec::new();
    let mut seg_start: usize = 0;
    let mut i: usize = 0;
    proof {
        assert(s@.subrange(0, len as int) =~= s@);
        assert(parts.deep_view() =~= Seq::<Seq<char>>::empty());
        assert(parts.deep_view() + split_char(s@, sep) =~= split_char(s@, sep));
    }
    while i < len
        invariant
            seg_start <= i <= len,
            len == s@.len(),
            forall|j: int| seg_start <= j < i ==> #[trigger] s@[j] != sep,
            split_char(s@, sep) == parts.deep_view() + split_char(
                s@.subrange(seg_start as int, len as int),
                sep,
            ),
        decreases len - i,
    {
        if s.get_char(i) == sep {
            let ghost rem = s@.subrange(seg_start as int, len as int);
            proof {
                assert(forall|j: int|
                    0 <= j < i - seg_start ==> #[trigger] rem[j] != sep);
                lemma_first_index_is(rem, sep, i - seg_start);
                assert(rem.subrange(0, i - seg_start) =~= s@.subrange(
                    seg_start as int,
                    i as int,
                ));
                assert(rem.subrange(i - seg_start + 1, rem.len() as int) =~= s@.subrange(
                    i + 1,
                    len as int,
                ));
            }
            let seg = String::from_str(s.substring_char(seg_start, i));
            parts.push(seg);
            proof {
                assert(parts.deep_view() =~= parts.deep_view().subrange(
                    0,
                    parts.deep_view().len() - 1,
                ).push(s@.subrange(seg_start as int, i as int)));
                assert(split_char(s@, sep) =~= parts.deep_view() + split_char(
                    s@.subrange(i + 1, len as int),
                    sep,
                ));
            }
            seg_start = i + 1;
        }
        i += 1;
    }
    let ghost rem = s@.subrange(seg_start as int, len as int);
    proof {
        assert(forall|j: int| 0 <= j < rem.len() ==> #[trigger] rem[j] != sep);
        lemma_first_index_props(rem, sep);
        assert(split_char(rem, sep) =~= seq![rem]);
    }
    let seg = String::from_str(s.substring_char(seg_start, len));
    parts.push(seg);
    proof {
        assert(parts.deep_view() =~= parts.deep_view().subrange(
            0,
            parts.deep_view().len() - 1,
        ) + seq![rem]);
        assert(split_char(s@, sep) =~= parts.deep_view());
    }
    parts
}

/// Join a directory and a file name with a single separator.
pub fn join_path(dir: &str, name: &str) -> (r: String)
    ensures
        r@ == dir@ + seq!['/'] + name@,
{
    proof {
        reveal_strlit("/");
    }
    let joined = String::from_str(dir).concat("/").concat(name);
    proof {
        assert(joined@ =~= dir@ + seq!['/'] + name@);
    }
    joined
}

} // verus!
