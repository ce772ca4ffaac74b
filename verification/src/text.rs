//! Character-level primitives used to take a query apart.
//!
//! Strings are modelled as `Seq<char>`. The searches below are specified by
//! what makes an index the *first* of its kind, so that their results are
//! determined without reference to how the search is carried out.

use vstd::prelude::*;

verus! {

/// Whether `c` has the Unicode `White_Space` property.
pub open spec fn is_whitespace(c: char) -> bool {
    let u = c as u32;
    ||| 0x09 <= u <= 0x0D
    ||| u == 0x20
    ||| u == 0x85
    ||| u == 0xA0
    ||| u == 0x1680
    ||| 0x2000 <= u <= 0x200A
    ||| u == 0x2028
    ||| u == 0x2029
    ||| u == 0x202F
    ||| u == 0x205F
    ||| u == 0x3000
}

/// Whether every character of `s` is whitespace; the empty string is blank.
pub open spec fn is_blank(s: Seq<char>) -> bool {
    forall|i: int| 0 <= i < s.len() ==> is_whitespace(#[trigger] s[i])
}

/// Whether `i` is the position of the first whitespace character of `s`.
pub open spec fn is_first_whitespace(s: Seq<char>, i: int) -> bool {
    &&& 0 <= i < s.len()
    &&& is_whitespace(s[i])
    &&& forall|j: int| 0 <= j < i ==> !is_whitespace(#[trigger] s[j])
}

/// The position of the first whitespace character of `s`, if there is one.
pub open spec fn first_whitespace(s: Seq<char>) -> Option<int> {
    if exists|i: int| is_first_whitespace(s, i) {
        Some(choose|i: int| is_first_whitespace(s, i))
    } else {
        None
    }
}

/// Whether `needle` stands in `hay` at position `i`.
pub open spec fn occurs_at(hay: Seq<char>, needle: Seq<char>, i: int) -> bool {
    &&& 0 <= i
    &&& i + needle.len() <= hay.len()
    &&& forall|k: int| 0 <= k < needle.len() ==> #[trigger] hay[i + k] == needle[k]
}

/// Whether `i` is the leftmost position at which `needle` stands in `hay`.
pub open spec fn is_first_occurrence(hay: Seq<char>, needle: Seq<char>, i: int) -> bool {
    &&& occurs_at(hay, needle, i)
    &&& forall|j: int| 0 <= j < i ==> !occurs_at(hay, needle, j)
}

/// The leftmost position at which `needle` stands in `hay`, if it occurs at
/// all. The empty needle occurs at position 0 of every string.
pub open spec fn first_occurrence(hay: Seq<char>, needle: Seq<char>) -> Option<int> {
    if exists|i: int| is_first_occurrence(hay, needle, i) {
        Some(choose|i: int| is_first_occurrence(hay, needle, i))
    } else {
        None
    }
}

/// The first whitespace position is unique.
pub proof fn lemma_first_whitespace_is(s: Seq<char>, i: int)
    requires
        is_first_whitespace(s, i),
    ensures
        first_whitespace(s) == Some(i),
{
}

/// A string without whitespace has no first whitespace position.
pub proof fn lemma_first_whitespace_none(s: Seq<char>)
    requires
        forall|j: int| 0 <= j < s.len() ==> !is_whitespace(#[trigger] s[j]),
    ensures
        first_whitespace(s) is None,
{
}

/// The leftmost occurrence is unique.
pub proof fn lemma_first_occurrence_is(hay: Seq<char>, needle: Seq<char>, i: int)
    requires
        is_first_occurrence(hay, needle, i),
    ensures
        first_occurrence(hay, needle) == Some(i),
{
}

/// A string in which `needle` stands nowhere has no leftmost occurrence.
pub proof fn lemma_first_occurrence_none(hay: Seq<char>, needle: Seq<char>)
    requires
        forall|j: int| 0 <= j ==> !occurs_at(hay, needle, j),
    ensures
        first_occurrence(hay, needle) is None,
{
}

/// Executable form of [`is_whitespace`].
pub fn char_is_whitespace(c: char) -> (r: bool)
    ensures
        r == is_whitespace(c),
{
    let u: u32 = c as u32;
    (0x09 <= u && u <= 0x0D) || u == 0x20 || u == 0x85 || u == 0xA0 || u == 0x1680 || (0x2000 <= u
        && u <= 0x200A) || u == 0x2028 || u == 0x2029 || u == 0x202F || u == 0x205F || u == 0x3000
}

/// The characters of `s`, in order.
pub fn chars_of(s: &str) -> (v: Vec<char>)
    ensures
        v@ == s@,
{
    let mut v: Vec<char> = Vec::new();
    for c in it: s.chars()
        invariant
            v@ == it.seq().take(it.index()),
            it.seq() == s@,
    {
        v.push(c);
    }
    v
}

/// Whether `s` begins with `prefix`.
pub fn has_prefix(s: &Vec<char>, prefix: &Vec<char>) -> (r: bool)
    ensures
        r == prefix@.is_prefix_of(s@),
{
    if prefix.len() > s.len() {
        return false;
    }
    let mut i: usize = 0;
    while i < prefix.len()
        invariant
            i <= prefix.len() <= s.len(),
            forall|k: int| 0 <= k < i ==> s[k] == prefix[k],
        decreases prefix.len() - i,
    {
        if s[i] != prefix[i] {
            return false;
        }
        i += 1;
    }
    true
}

/// Whether `s[from..]` is blank.
pub fn is_blank_from(s: &Vec<char>, from: usize) -> (r: bool)
    requires
        from <= s.len(),
    ensures
        r == is_blank(s@.skip(from as int)),
{
    let mut i: usize = from;
    while i < s.len()
        invariant
            from <= i <= s.len(),
            forall|k: int| from <= k < i ==> is_whitespace(#[trigger] s[k]),
        decreases s.len() - i,
    {
        if !char_is_whitespace(s[i]) {
            assert(s@.skip(from as int)[i - from] == s[i as int]);
            return false;
        }
        i += 1;
    }
    true
}

/// The first whitespace position of `s[from..]`, counted from the start of
/// `s`.
pub fn find_whitespace(s: &Vec<char>, from: usize) -> (r: Option<usize>)
    requires
        from <= s.len(),
    ensures
        match r {
            Some(i) => from <= i < s.len() && first_whitespace(s@.skip(from as int)) == Some(
                i - from,
            ),
            None => first_whitespace(s@.skip(from as int)) is None,
        },
{
    let ghost rest = s@.skip(from as int);
    let mut i: usize = from;
    while i < s.len()
        invariant
            from <= i <= s.len(),
            rest == s@.skip(from as int),
            forall|k: int| 0 <= k < i - from ==> !is_whitespace(#[trigger] rest[k]),
        decreases s.len() - i,
    {
        if char_is_whitespace(s[i]) {
            proof {
                lemma_first_whitespace_is(rest, i - from);
            }
            return Some(i);
        }
        i += 1;
    }
    proof {
        lemma_first_whitespace_none(rest);
    }
    None
}

/// Whether `needle` stands in `s` at position `at`.
fn matches_at(s: &Vec<char>, at: usize, needle: &Vec<char>) -> (r: bool)
    requires
        at + needle.len() <= s.len(),
    ensures
        r == (forall|k: int| 0 <= k < needle.len() ==> #[trigger] s[at + k] == needle[k]),
{
    let mut k: usize = 0;
    while k < needle.len()
        invariant
            k <= needle.len(),
            at + needle.len() <= s.len(),
            forall|j: int| 0 <= j < k ==> #[trigger] s[at + j] == needle[j],
        decreases needle.len() - k,
    {
        if s[at + k] != needle[k] {
            return false;
        }
        k += 1;
    }
    true
}

/// The leftmost position at which `needle` stands in `s[lo..hi]`, counted
/// from the start of `s`.
pub fn find_occurrence(s: &Vec<char>, lo: usize, hi: usize, needle: &Vec<char>) -> (r: Option<
    usize,
>)
    requires
        lo <= hi <= s.len(),
    ensures
        match r {
            Some(i) => lo <= i && i + needle.len() <= hi && first_occurrence(
                s@.subrange(lo as int, hi as int),
                needle@,
            ) == Some(i - lo),
            None => first_occurrence(s@.subrange(lo as int, hi as int), needle@) is None,
        },
{
    let ghost hay = s@.subrange(lo as int, hi as int);
    if needle.len() > hi - lo {
        proof {
            lemma_first_occurrence_none(hay, needle@);
        }
        return None;
    }
    let last: usize = hi - needle.len();
    let mut i: usize = lo;
    while i <= last
        invariant
            lo <= i <= last + 1,
            last + needle.len() == hi,
            lo <= hi <= s.len(),
            hay == s@.subrange(lo as int, hi as int),
            forall|j: int| 0 <= j < i - lo ==> !occurs_at(hay, needle@, j),
        decreases last + 1 - i,
    {
        let found = matches_at(s, i, needle);
        proof {
            assert forall|k: int| 0 <= k < needle.len() implies #[trigger] hay[(i - lo) + k] == s[i
                + k] by {}
            if found {
                lemma_first_occurrence_is(hay, needle@, i - lo);
            } else {
                let k = choose|k: int| 0 <= k < needle.len() && #[trigger] s[i + k] != needle[k];
                assert(hay[(i - lo) + k] != needle@[k]);
            }
        }
        if found {
            return Some(i);
        }
        i += 1;
    }
    proof {
        lemma_first_occurrence_none(hay, needle@);
    }
    None
}

} // verus!
