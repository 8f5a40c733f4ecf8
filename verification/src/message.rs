//! The two message grammars.
//!
//! Conventional: the first line must match `type[(scope)][!]: description`
//! with a lowercase alphanumeric type token and a nonempty description; a
//! blank line then separates the header from an optional free-form body.
//!
//! Plain: the first line, trimmed of trailing whitespace, is the subject;
//! everything after the first line break, minus leading line breaks, is the
//! body. Plain parsing fails only on an empty message.

use vstd::prelude::*;

use crate::error::CheckError;
use crate::text::chars_of;
use crate::text::copy_range;
use crate::text::find_newline;
use crate::text::first_line;
use crate::text::after_first_line;
use crate::text::first_nl;
use crate::text::lemma_first_nl_is;
use crate::text::lemma_leading_nl_is;
use crate::text::leading_nl;
use crate::text::string_from_chars;
use crate::text::trim_end;
use crate::text::trimmed_end;

verus! {

/// A structured reading of one raw message, by style.
#[derive(Debug, Clone, PartialEq, Eq)]
pub enum ParsedMessage {
    /// `type[(scope)][!]: description`, blank line, optional body.
    Conventional {
        ctype: String,
        scope: Option<String>,
        breaking: bool,
        description: String,
        body: Option<String>,
    },
    /// First line as subject (trailing whitespace trimmed), rest as body.
    Plain { subject: String, body: String },
}

impl ParsedMessage {
    /// The single-line summary the rules read, whichever the variant.
    pub open spec fn spec_subject(&self) -> Seq<char> {
        match self {
            ParsedMessage::Conventional { description, .. } => description@,
            ParsedMessage::Plain { subject, .. } => subject@,
        }
    }

    /// The single-line summary the rules read, whichever the variant.
    pub fn subject(&self) -> (r: &String)
        ensures
            r@ == self.spec_subject(),
    {
        match self {
            ParsedMessage::Conventional { description, .. } => description,
            ParsedMessage::Plain { subject, .. } => subject,
        }
    }
}

/// The mathematical content of a conventional header and body.
pub ghost struct ConvParts {
    pub ctype: Seq<char>,
    pub scope: Option<Seq<char>>,
    pub breaking: bool,
    pub description: Seq<char>,
    pub body: Option<Seq<char>>,
}

/// A character the type token may consist of: a lowercase ASCII letter or an
/// ASCII digit.
pub open spec fn is_type_char(c: char) -> bool {
    ('a' as u32 <= c as u32 && c as u32 <= 'z' as u32) || ('0' as u32 <= c as u32 && c as u32
        <= '9' as u32)
}

fn type_char(c: char) -> (r: bool)
    ensures
        r == is_type_char(c),
{
    let u = c as u32;
    ('a' as u32 <= u && u <= 'z' as u32) || ('0' as u32 <= u && u <= '9' as u32)
}

/// Length of the leading run of type-token characters in `s`.
pub open spec fn type_token_end(s: Seq<char>) -> nat
    decreases s.len(),
{
    if s.len() == 0 {
        0
    } else if !is_type_char(s[0]) {
        0
    } else {
        1 + type_token_end(s.drop_first())
    }
}

proof fn lemma_type_token_end_is(s: Seq<char>, k: int)
    requires
        0 <= k <= s.len(),
        forall|i: int| 0 <= i < k ==> is_type_char(s[i]),
        k < s.len() ==> !is_type_char(s[k]),
    ensures
        type_token_end(s) == k,
    decreases s.len(),
{
    if s.len() == 0 {
    } else if !is_type_char(s[0]) {
        assert(k == 0);
    } else {
        assert(k > 0);
        lemma_type_token_end_is(s.drop_first(), k - 1);
    }
}

/// Index of the first closing parenthesis in `s`, or `s.len()` if none.
pub open spec fn close_paren_end(s: Seq<char>) -> nat
    decreases s.len(),
{
    if s.len() == 0 {
        0
    } else if s[0] == ')' {
        0
    } else {
        1 + close_paren_end(s.drop_first())
    }
}

proof fn lemma_close_paren_end_is(s: Seq<char>, k: int)
    requires
        0 <= k <= s.len(),
        forall|i: int| 0 <= i < k ==> s[i] != ')',
        k < s.len() ==> s[k] == ')',
    ensures
        close_paren_end(s) == k,
    decreases s.len(),
{
    if s.len() == 0 {
    } else if s[0] == ')' {
        assert(k == 0);
    } else {
        assert(k > 0);
        lemma_close_paren_end_is(s.drop_first(), k - 1);
    }
}

/// The breaking-change marker and description, read from `line` at position
/// `p0` (just past the type token or the closed scope): an optional `!`,
/// then `: `, then a nonempty description running to the end of the line.
pub open spec fn header_tail(line: Seq<char>, p0: int) -> Option<(bool, Seq<char>)> {
    let breaking = p0 < line.len() && line[p0] == '!';
    let p = if breaking {
        p0 + 1
    } else {
        p0
    };
    if p + 2 < line.len() && line[p] == ':' && line[p + 1] == ' ' {
        Some((breaking, line.skip(p + 2)))
    } else {
        None
    }
}

/// The conventional header grammar over one line: type token, optional
/// parenthesized scope, optional `!`, `: `, nonempty description.
pub open spec fn parse_header(line: Seq<char>) -> Option<(Seq<char>, Option<Seq<char>>, bool, Seq<
    char,
>)> {
    let t = type_token_end(line) as int;
    if t == 0 {
        None
    } else if t < line.len() && line[t] == '(' {
        let c = t + 1 + close_paren_end(line.skip(t + 1)) as int;
        if c >= line.len() {
            None
        } else {
            match header_tail(line, c + 1) {
                Some((b, d)) => Some((line.take(t), Some(line.subrange(t + 1, c)), b, d)),
                None => None,
            }
        }
    } else {
        match header_tail(line, t) {
            Some((b, d)) => Some((line.take(t), None, b, d)),
            None => None,
        }
    }
}

/// What follows the header line: nothing, a lone line break, or a blank line
/// and then the body. Anything else breaks the grammar.
pub open spec fn parse_body(tail: Seq<char>) -> Option<Option<Seq<char>>> {
    if tail.len() == 0 {
        Some(None)
    } else if tail[0] != '\n' {
        None
    } else if tail.len() == 1 {
        Some(None)
    } else if tail[1] == '\n' {
        Some(Some(tail.skip(2)))
    } else {
        None
    }
}

/// The conventional grammar over a whole raw message.
pub open spec fn conv_parts(s: Seq<char>) -> Option<ConvParts> {
    match parse_header(first_line(s)) {
        Some((t, sc, b, d)) => match parse_body(after_first_line(s)) {
            Some(body) => Some(
                ConvParts { ctype: t, scope: sc, breaking: b, description: d, body },
            ),
            None => None,
        },
        None => None,
    }
}

/// The plain grammar's subject: the first line, trailing whitespace trimmed.
pub open spec fn plain_subject(s: Seq<char>) -> Seq<char> {
    trim_end(first_line(s))
}

/// The plain grammar's body: everything after the first line break, minus
/// leading line breaks.
pub open spec fn plain_body(s: Seq<char>) -> Seq<char> {
    let tail = after_first_line(s);
    tail.skip(leading_nl(tail) as int)
}

/// Whether the executable parse result carries exactly the parts the
/// conventional grammar assigns.
pub open spec fn matches_conv(m: ParsedMessage, p: ConvParts) -> bool {
    &&& m matches ParsedMessage::Conventional { ctype, scope, breaking, description, body }
        && ctype@ == p.ctype && breaking == p.breaking && description@ == p.description && (match (
        scope,
        p.scope,
    ) {
        (Some(a), Some(b)) => a@ == b,
        (None, None) => true,
        _ => false,
    }) && (match (body, p.body) {
        (Some(a), Some(b)) => a@ == b,
        (None, None) => true,
        _ => false,
    })
}

fn scan_type(chars: &Vec<char>, end: usize) -> (r: usize)
    requires
        end <= chars.len(),
    ensures
        r <= end,
        forall|i: int| 0 <= i < r ==> is_type_char(chars@[i]),
        r < end ==> !is_type_char(chars@[r as int]),
{
    let mut i: usize = 0;
    while i < end
        invariant
            0 <= i <= end <= chars.len(),
            forall|j: int| 0 <= j < i ==> is_type_char(chars@[j]),
        decreases end - i,
    {
        if !type_char(chars[i]) {
            return i;
        }
        i = i + 1;
    }
    i
}

fn scan_close(chars: &Vec<char>, from: usize, end: usize) -> (r: usize)
    requires
        from <= end <= chars.len(),
    ensures
        from <= r <= end,
        forall|i: int| from <= i < r ==> chars@[i] != ')',
        r < end ==> chars@[r as int] == ')',
{
    let mut i = from;
    while i < end
        invariant
            from <= i <= end <= chars.len(),
            forall|j: int| from <= j < i ==> chars@[j] != ')',
        decreases end - i,
    {
        if chars[i] == ')' {
            return i;
        }
        i = i + 1;
    }
    i
}

/// Parse one raw message under the conventional grammar, or report that the
/// message does not fit it.
#[verifier::rlimit(50)]
pub fn parse_conventional(raw: &str) -> (r: Result<ParsedMessage, CheckError>)
    ensures
        r is Ok <==> conv_parts(raw@) is Some,
        r matches Ok(m) ==> conv_parts(raw@) matches Some(p) && matches_conv(m, p),
        r matches Err(e) ==> e == CheckError::Grammar,
{
    let chars = chars_of(raw);
    let n = chars.len();
    let k = find_newline(&chars, 0);
    proof {
        lemma_first_nl_is(raw@, k as int);
    }
    let ghost line = first_line(raw@);
    proof {
        assert(line =~= chars@.subrange(0, k as int));
    }
    let t = scan_type(&chars, k);
    proof {
        lemma_type_token_end_is(line, t as int);
    }
    if t == 0 {
        return Err(CheckError::Grammar);
    }
    let mut scope: Option<String> = None;
    let mut p: usize = t;
    let ghost specline_after_scope: int = t as int;
    if t < k && chars[t] == '(' {
        let c = scan_close(&chars, t + 1, k);
        proof {
            lemma_close_paren_end_is(line.skip(t + 1), c - t - 1);
        }
        if c == k {
            return Err(CheckError::Grammar);
        }
        scope = Some(string_from_chars(&copy_range(&chars, t + 1, c)));
        proof {
            assert(line.subrange(t + 1, c as int) =~= chars@.subrange(t + 1, c as int));
        }
        p = c + 1;
    }
    let ghost p0: int = p as int;
    let mut breaking = false;
    if p < k && chars[p] == '!' {
        breaking = true;
        p = p + 1;
    }
    if !(k - p > 2 && chars[p] == ':' && chars[p + 1] == ' ') {
        return Err(CheckError::Grammar);
    }
    let description = string_from_chars(&copy_range(&chars, p + 2, k));
    proof {
        assert(line.skip(p + 2) =~= chars@.subrange(p + 2, k as int));
    }
    let body: Option<String>;
    if k == n {
        body = None;
    } else if k + 1 == n {
        body = None;
    } else if chars[k + 1] == '\n' {
        body = Some(string_from_chars(&copy_range(&chars, k + 2, n)));
        proof {
            assert(after_first_line(raw@).skip(2) =~= chars@.subrange(k + 2, n as int));
        }
    } else {
        proof {
            assert(after_first_line(raw@)[1] == chars@[k + 1]);
        }
        return Err(CheckError::Grammar);
    }
    let ctype = string_from_chars(&copy_range(&chars, 0, t));
    proof {
        assert(line.take(t as int) =~= chars@.subrange(0, t as int));
        assert(after_first_line(raw@).len() == n - k);
        if k < n {
            assert(after_first_line(raw@)[0] == chars@[k as int]);
        }
        if k + 1 < n {
            assert(after_first_line(raw@)[1] == chars@[k + 1]);
        }
    }
    Ok(ParsedMessage::Conventional { ctype, scope, breaking, description, body })
}

/// Parse one raw message under the plain grammar; only an empty message is
/// rejected.
pub fn parse_plain(raw: &str) -> (r: Result<ParsedMessage, CheckError>)
    ensures
        r is Ok <==> raw@.len() > 0,
        r matches Ok(m) ==> m matches ParsedMessage::Plain { subject, body } && subject@
            == plain_subject(raw@) && body@ == plain_body(raw@),
        r matches Err(e) ==> e == CheckError::EmptyMessage,
{
    let chars = chars_of(raw);
    let n = chars.len();
    if n == 0 {
        return Err(CheckError::EmptyMessage);
    }
    let k = find_newline(&chars, 0);
    proof {
        lemma_first_nl_is(raw@, k as int);
    }
    let te = trimmed_end(&chars, 0, k);
    let subject = string_from_chars(&copy_range(&chars, 0, te));
    proof {
        assert(first_line(raw@) =~= chars@.subrange(0, k as int));
        assert(trim_end(first_line(raw@)) =~= chars@.subrange(0, te as int));
    }
    let mut b = k;
    while b < n && chars[b] == '\n'
        invariant
            k <= b <= n,
            n == chars.len(),
            forall|j: int| k <= j < b ==> chars@[j] == '\n',
        decreases n - b,
    {
        b = b + 1;
    }
    proof {
        let tail = after_first_line(raw@);
        assert(tail =~= chars@.subrange(k as int, n as int));
        lemma_leading_nl_is(tail, b - k);
        assert(tail.skip(b - k) =~= chars@.subrange(b as int, n as int));
    }
    let body = string_from_chars(&copy_range(&chars, b, n));
    Ok(ParsedMessage::Plain { subject, body })
}

} // verus!
