//! Character-sequence helpers shared by the grammars and the rule engine:
//! line splitting, trailing-whitespace trimming, and the Unicode-dependent
//! judgments (case, whitespace, grapheme clusters) that outside code decides.

use vstd::prelude::*;
use vstd::std_specs::iter::IteratorSpec;

verus! {

broadcast use vstd::string::group_string_axioms;

/// Whether `c` has the Unicode White_Space property, as `char::is_whitespace`
/// decides it: a function of the character alone.
pub uninterp spec fn is_white(c: char) -> bool;

/// Whether `c` has the Unicode Uppercase property, as `char::is_uppercase`
/// decides it: a function of the character alone.
pub uninterp spec fn is_upper(c: char) -> bool;

/// The number of extended grapheme clusters (user-perceived characters) in
/// the text `s`, as unicode-segmentation's `graphemes` iterator counts them:
/// a function of the text alone.
pub uninterp spec fn grapheme_count(s: Seq<char>) -> nat;

/// Relies on `char::is_whitespace`: true exactly on characters with the
/// Unicode White_Space property.
#[verifier::external_body]
pub(crate) fn char_is_whitespace(c: char) -> (r: bool)
    ensures
        r == is_white(c),
{
    c.is_whitespace()
}

/// Relies on `char::is_uppercase`: true exactly on characters with the
/// Unicode Uppercase property.
#[verifier::external_body]
pub(crate) fn char_is_uppercase(c: char) -> (r: bool)
    ensures
        r == is_upper(c),
{
    c.is_uppercase()
}

/// Relies on `unicode_segmentation::UnicodeSegmentation::graphemes` in
/// extended-cluster mode: the count of the clusters it yields for this text.
#[verifier::external_body]
pub(crate) fn grapheme_len(chars: &Vec<char>) -> (r: usize)
    ensures
        r as nat == grapheme_count(chars@),
{
    let s: String = chars.iter().collect();
    unicode_segmentation::UnicodeSegmentation::graphemes(s.as_str(), true).count()
}

/// Relies on `String`'s `FromIterator<char>`: collecting yields exactly the
/// characters handed in, in order.
#[verifier::external_body]
pub(crate) fn string_from_chars(chars: &Vec<char>) -> (r: String)
    ensures
        r@ == chars@,
{
    chars.iter().collect()
}

/// The characters of `s`, in order, as a vector.
pub fn chars_of(s: &str) -> (r: Vec<char>)
    ensures
        r@ == s@,
{
    let mut it = s.chars();
    let mut v: Vec<char> = Vec::new();
    loop
        invariant
            v@ + it.remaining() == s@,
            it.decrease() is Some,
        ensures
            v@ == s@,
        decreases it.decrease()->0,
    {
        match it.next() {
            Some(c) => {
                v.push(c);
            },
            None => {
                proof {
                    assert(v@ + it.remaining() =~= v@);
                }
                break ;
            },
        }
    }
    v
}

/// Index of the first line break in `s`, or `s.len()` if there is none.
pub open spec fn first_nl(s: Seq<char>) -> nat
    decreases s.len(),
{
    if s.len() == 0 {
        0
    } else if s[0] == '\n' {
        0
    } else {
        1 + first_nl(s.drop_first())
    }
}

/// `first_nl(s)` is the unique index `k` before which no line break occurs
/// and at which one occurs unless `k` is the length.
pub proof fn lemma_first_nl_is(s: Seq<char>, k: int)
    requires
        0 <= k <= s.len(),
        forall|i: int| 0 <= i < k ==> s[i] != '\n',
        k < s.len() ==> s[k] == '\n',
    ensures
        first_nl(s) == k,
    decreases s.len(),
{
    if s.len() == 0 {
    } else if s[0] == '\n' {
        assert(k == 0);
    } else {
        assert(k > 0);
        lemma_first_nl_is(s.drop_first(), k - 1);
    }
}

/// The first line of `s`: everything before the first line break.
pub open spec fn first_line(s: Seq<char>) -> Seq<char> {
    s.take(first_nl(s) as int)
}

/// Everything from the first line break on (empty if there is none).
pub open spec fn after_first_line(s: Seq<char>) -> Seq<char> {
    s.skip(first_nl(s) as int)
}

/// Length of `s` once trailing whitespace is removed.
pub open spec fn trim_len(s: Seq<char>) -> nat
    decreases s.len(),
{
    if s.len() == 0 {
        0
    } else if is_white(s[s.len() - 1]) {
        trim_len(s.drop_last())
    } else {
        s.len()
    }
}

/// `s` with trailing whitespace removed.
pub open spec fn trim_end(s: Seq<char>) -> Seq<char> {
    s.take(trim_len(s) as int)
}

/// `trim_len(s)` is the unique cut `k` after which everything is whitespace
/// and before which the last character (if any) is not.
pub proof fn lemma_trim_len_is(s: Seq<char>, k: int)
    requires
        0 <= k <= s.len(),
        forall|i: int| k <= i < s.len() ==> is_white(s[i]),
        k > 0 ==> !is_white(s[k - 1]),
    ensures
        trim_len(s) == k,
    decreases s.len(),
{
    if s.len() == 0 {
    } else if is_white(s[s.len() - 1]) {
        assert(k < s.len());
        lemma_trim_len_is(s.drop_last(), k);
    } else {
        assert(k == s.len());
    }
}

/// The lines of `s`, split at each line break (a trailing line break yields a
/// final empty line, as splitting on the separator does).
pub open spec fn split_lines(s: Seq<char>) -> Seq<Seq<char>>
    decreases s.len(),
{
    let k = first_nl(s);
    if k >= s.len() {
        seq![s]
    } else {
        seq![s.take(k as int)] + split_lines(s.skip(k as int + 1))
    }
}

/// Index just past the leading run of line breaks in `s`.
pub open spec fn leading_nl(s: Seq<char>) -> nat
    decreases s.len(),
{
    if s.len() == 0 {
        0
    } else if s[0] != '\n' {
        0
    } else {
        1 + leading_nl(s.drop_first())
    }
}

pub proof fn lemma_leading_nl_is(s: Seq<char>, k: int)
    requires
        0 <= k <= s.len(),
        forall|i: int| 0 <= i < k ==> s[i] == '\n',
        k < s.len() ==> s[k] != '\n',
    ensures
        leading_nl(s) == k,
    decreases s.len(),
{
    if s.len() == 0 {
    } else if s[0] != '\n' {
        assert(k == 0);
    } else {
        assert(k > 0);
        lemma_leading_nl_is(s.drop_first(), k - 1);
    }
}

/// Index of the first line break in `chars` at or after `from`, or the
/// length if there is none.
pub fn find_newline(chars: &Vec<char>, from: usize) -> (r: usize)
    requires
        from <= chars.len(),
    ensures
        from <= r <= chars.len(),
        forall|i: int| from <= i < r ==> chars@[i] != '\n',
        r < chars.len() ==> chars@[r as int] == '\n',
{
    let mut i = from;
    while i < chars.len()
        invariant
            from <= i <= chars.len(),
            forall|j: int| from <= j < i ==> chars@[j] != '\n',
        decreases chars.len() - i,
    {
        if chars[i] == '\n' {
            return i;
        }
        i = i + 1;
    }
    i
}

/// The cut of `chars@.subrange(start, end)` past which everything is
/// whitespace, as an absolute index.
pub fn trimmed_end(chars: &Vec<char>, start: usize, end: usize) -> (r: usize)
    requires
        start <= end <= chars.len(),
    ensures
        start <= r <= end,
        trim_len(chars@.subrange(start as int, end as int)) == r - start,
{
    let mut i = end;
    while i > start && char_is_whitespace(chars[i - 1])
        invariant
            start <= i <= end <= chars.len(),
            forall|j: int| i <= j < end ==> is_white(chars@[j]),
        decreases i,
    {
        i = i - 1;
    }
    proof {
        let sub = chars@.subrange(start as int, end as int);
        lemma_trim_len_is(sub, i - start);
    }
    i
}

/// A copy of `chars[start..end]`.
pub fn copy_range(chars: &Vec<char>, start: usize, end: usize) -> (r: Vec<char>)
    requires
        start <= end <= chars.len(),
    ensures
        r@ == chars@.subrange(start as int, end as int),
{
    let mut v: Vec<char> = Vec::new();
    let mut i = start;
    while i < end
        invariant
            start <= i <= end <= chars.len(),
            v@ == chars@.subrange(start as int, i as int),
        decreases end - i,
    {
        v.push(chars[i]);
        proof {
            assert(v@ =~= chars@.subrange(start as int, i as int + 1));
        }
        i = i + 1;
    }
    v
}

} // verus!
