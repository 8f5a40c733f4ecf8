//! The rule engine: independent, Unicode-aware checks over one parsed
//! message and its raw text, run in a fixed order, first failure wins.
//!
//! Order: grammar (parsing itself), capitalization, subject length, line
//! length. A length limit of zero disables that check; the capitalization
//! flag set to false disables that check.

use vstd::prelude::*;

use crate::config::Config;
use crate::config::Style;
use crate::error::CheckError;
use crate::message::conv_parts;
use crate::message::parse_conventional;
use crate::message::parse_plain;
use crate::message::plain_subject;
use crate::message::ParsedMessage;
use crate::text::chars_of;
use crate::text::copy_range;
use crate::text::find_newline;
use crate::text::first_line;
use crate::text::grapheme_count;
use crate::text::grapheme_len;
use crate::text::char_is_uppercase;
use crate::text::is_upper;
use crate::text::lemma_first_nl_is;
use crate::text::split_lines;
use crate::text::trim_end;
use crate::text::trimmed_end;

verus! {

/// The summary the capitalization rule reads: the conventional description,
/// or the plain subject. Empty when the conventional grammar does not match.
pub open spec fn spec_subject_of(raw: Seq<char>, style: Style) -> Seq<char> {
    match style {
        Style::Conventional => match conv_parts(raw) {
            Some(p) => p.description,
            None => Seq::empty(),
        },
        Style::Plain => plain_subject(raw),
    }
}

/// Whether the raw message parses under the selected grammar.
pub open spec fn parse_ok(raw: Seq<char>, style: Style) -> bool {
    match style {
        Style::Conventional => conv_parts(raw) is Some,
        Style::Plain => raw.len() > 0,
    }
}

/// Whether the subject begins with an uppercase letter. A subject with no
/// first character, or one whose first character has no case, fails.
pub open spec fn capitalization_ok(raw: Seq<char>, style: Style) -> bool {
    let subj = spec_subject_of(raw, style);
    subj.len() > 0 && is_upper(subj[0])
}

/// Whether the capitalization rule lets the message through: it is disabled,
/// or it holds.
pub open spec fn cap_pass(raw: Seq<char>, cfg: Config) -> bool {
    !cfg.spec_subject_capitalized() || capitalization_ok(raw, cfg.spec_style())
}

/// The grapheme count of the raw first line, trailing whitespace trimmed.
pub open spec fn subject_count(raw: Seq<char>) -> nat {
    grapheme_count(trim_end(first_line(raw)))
}

/// Whether the subject-length rule lets the message through: the limit is
/// zero (disabled), or the count is within it.
pub open spec fn subject_length_ok(raw: Seq<char>, limit: usize) -> bool {
    limit == 0 || subject_count(raw) <= limit
}

/// Whether one line, trailing whitespace trimmed, is within the limit.
pub open spec fn line_ok(line: Seq<char>, limit: usize) -> bool {
    grapheme_count(trim_end(line)) <= limit
}

/// Whether the line-length rule lets the message through: the limit is zero
/// (disabled), or every line is within it.
pub open spec fn line_length_ok(raw: Seq<char>, limit: usize) -> bool {
    limit == 0 || forall|i: int|
        0 <= i < split_lines(raw).len() ==> line_ok(#[trigger] split_lines(raw)[i], limit)
}

/// Whether the message passes every enabled rule under this configuration.
pub open spec fn message_passes(raw: Seq<char>, cfg: Config) -> bool {
    &&& parse_ok(raw, cfg.spec_style())
    &&& cap_pass(raw, cfg)
    &&& subject_length_ok(raw, cfg.spec_subject_length())
    &&& line_length_ok(raw, cfg.spec_line_length())
}

/// Check that the subject begins with an uppercase letter under Unicode case
/// rules; a first character with no case fails, and so does an empty subject.
pub fn check_capitalized_subject(subject: &str) -> (r: Result<(), CheckError>)
    ensures
        r is Ok <==> subject@.len() > 0 && is_upper(subject@[0]),
        r matches Err(e) ==> e matches CheckError::Capitalization { subject: s } && s@ == subject@,
{
    let chars = chars_of(subject);
    if chars.len() == 0 {
        return Err(CheckError::Capitalization { subject: subject.to_owned() });
    }
    if char_is_uppercase(chars[0]) {
        Ok(())
    } else {
        Err(CheckError::Capitalization { subject: subject.to_owned() })
    }
}

/// Check that the first line of the raw message, trailing whitespace
/// trimmed, holds at most `max_length` grapheme clusters.
pub fn check_subject_length(message: &str, max_length: usize) -> (r: Result<(), CheckError>)
    ensures
        r is Ok <==> subject_count(message@) <= max_length,
        r matches Err(e) ==> e matches CheckError::SubjectLength { actual, limit } && actual as nat
            == subject_count(message@) && limit == max_length,
{
    let chars = chars_of(message);
    let k = find_newline(&chars, 0);
    proof {
        lemma_first_nl_is(message@, k as int);
    }
    let te = trimmed_end(&chars, 0, k);
    proof {
        assert(first_line(message@) =~= chars@.subrange(0, k as int));
        assert(trim_end(first_line(message@)) =~= chars@.subrange(0, te as int));
    }
    let count = grapheme_len(&copy_range(&chars, 0, te));
    if max_length < count {
        Err(CheckError::SubjectLength { actual: count, limit: max_length })
    } else {
        Ok(())
    }
}

/// Check every line of the raw message (trailing whitespace trimmed per
/// line) against `max_length`, reporting the first line over it.
pub fn check_line_length(message: &str, max_length: usize) -> (r: Result<(), CheckError>)
    ensures
        r is Ok <==> (forall|i: int|
            0 <= i < split_lines(message@).len() ==> line_ok(
                #[trigger] split_lines(message@)[i],
                max_length,
            )),
        r matches Err(e) ==> e matches CheckError::LineLength { actual, limit } && limit
            == max_length && exists|i: int|
            0 <= i < split_lines(message@).len() && !line_ok(
                #[trigger] split_lines(message@)[i],
                max_length,
            ) && actual as nat == grapheme_count(trim_end(split_lines(message@)[i])) && (forall|
                m: int,
            |
                0 <= m < i ==> line_ok(#[trigger] split_lines(message@)[m], max_length)),
{
    let chars = chars_of(message);
    let n = chars.len();
    let ghost big = split_lines(message@);
    let mut pos: usize = 0;
    let ghost mut j: int = 0;
    proof {
        assert(message@.skip(0) =~= message@);
        assert(big.skip(0) =~= big);
    }
    loop
        invariant
            pos <= n,
            n == chars.len(),
            chars@ == message@,
            big == split_lines(message@),
            0 <= j <= big.len(),
            big.skip(j) == split_lines(message@.skip(pos as int)),
            forall|m: int| 0 <= m < j ==> line_ok(#[trigger] big[m], max_length),
        decreases n - pos,
    {
        let ghost suffix = message@.skip(pos as int);
        let k = find_newline(&chars, pos);
        proof {
            lemma_first_nl_is(suffix, k - pos);
            assert(suffix.take(k - pos) =~= chars@.subrange(pos as int, k as int));
            if k == n {
                assert(suffix =~= chars@.subrange(pos as int, k as int));
            }
            assert(big.skip(j).len() == big.len() - j);
            assert(big.skip(j)[0] == big[j]);
            assert(big[j] == chars@.subrange(pos as int, k as int));
        }
        let te = trimmed_end(&chars, pos, k);
        proof {
            assert(trim_end(big[j]) =~= chars@.subrange(pos as int, te as int));
        }
        let count = grapheme_len(&copy_range(&chars, pos, te));
        if max_length < count {
            return Err(CheckError::LineLength { actual: count, limit: max_length });
        }
        if k == n {
            proof {
                assert(big.len() == j + 1);
            }
            return Ok(());
        }
        proof {
            assert(split_lines(suffix) == seq![suffix.take(k - pos)] + split_lines(
                suffix.skip(k - pos + 1),
            ));
            assert(suffix.skip(k - pos + 1) =~= message@.skip(k + 1));
            assert(big.skip(j).drop_first() =~= big.skip(j + 1));
            assert(big.skip(j + 1) == split_lines(message@.skip(k + 1)));
            j = j + 1;
        }
        pos = k + 1;
    }
}

/// Whether `r` reports an uncapitalized subject.
pub open spec fn is_cap_err(r: Result<(), CheckError>) -> bool {
    match r {
        Err(CheckError::Capitalization { .. }) => true,
        _ => false,
    }
}

/// Whether `r` reports a subject over the length limit.
pub open spec fn is_subject_err(r: Result<(), CheckError>) -> bool {
    match r {
        Err(CheckError::SubjectLength { .. }) => true,
        _ => false,
    }
}

/// Whether `r` reports a line over the length limit.
pub open spec fn is_line_err(r: Result<(), CheckError>) -> bool {
    match r {
        Err(CheckError::LineLength { .. }) => true,
        _ => false,
    }
}

/// What a reported error says of the message it came from: each variant
/// occurs exactly when the corresponding rule is the first to fail, and its
/// fields name the offending subject, or the measured and allowed counts.
pub open spec fn error_reflects(raw: Seq<char>, cfg: Config, e: CheckError) -> bool {
    &&& ((e == CheckError::EmptyMessage) <==> (cfg.spec_style() == Style::Plain && raw.len() == 0))
    &&& ((e == CheckError::Grammar) <==> (cfg.spec_style() == Style::Conventional && conv_parts(
        raw,
    ) is None))
    &&& ((e matches CheckError::Capitalization { .. }) <==> (parse_ok(raw, cfg.spec_style())
        && !cap_pass(raw, cfg)))
    &&& (match e {
        CheckError::Capitalization { subject } => subject@ == spec_subject_of(
            raw,
            cfg.spec_style(),
        ),
        _ => true,
    })
    &&& ((e matches CheckError::SubjectLength { .. }) <==> (parse_ok(raw, cfg.spec_style())
        && cap_pass(raw, cfg) && !subject_length_ok(raw, cfg.spec_subject_length())))
    &&& (match e {
        CheckError::SubjectLength { actual, limit } => actual as nat == subject_count(raw) && limit
            == cfg.spec_subject_length(),
        _ => true,
    })
    &&& ((e matches CheckError::LineLength { .. }) <==> (parse_ok(raw, cfg.spec_style())
        && cap_pass(raw, cfg) && subject_length_ok(raw, cfg.spec_subject_length())
        && !line_length_ok(raw, cfg.spec_line_length())))
    &&& (match e {
        CheckError::LineLength { actual, limit } => limit == cfg.spec_line_length() && exists|
            i: int,
        |
            0 <= i < split_lines(raw).len() && !line_ok(
                #[trigger] split_lines(raw)[i],
                cfg.spec_line_length(),
            ) && actual as nat == grapheme_count(trim_end(split_lines(raw)[i])) && (forall|m: int|
                0 <= m < i ==> line_ok(#[trigger] split_lines(raw)[m], cfg.spec_line_length())),
        _ => true,
    })
}

/// Run every enabled rule against one raw message under the configuration:
/// parse by the selected grammar, then capitalization, then subject length,
/// then line length; the first failure is reported and ends the run.
///
/// A limit of zero, or the capitalization flag set to false, disables the
/// corresponding check, which then never fails, whatever the input.
pub fn check_message(message: &str, config: &Config) -> (r: Result<(), CheckError>)
    ensures
        r is Ok <==> message_passes(message@, *config),
        r matches Err(e) ==> error_reflects(message@, *config, e),
        config.spec_subject_length() == 0 ==> !is_subject_err(r),
        config.spec_line_length() == 0 ==> !is_line_err(r),
        !config.spec_subject_capitalized() ==> !is_cap_err(r),
{
    let style = config.style();
    let parse_result = match style {
        Style::Conventional => parse_conventional(message),
        Style::Plain => parse_plain(message),
    };
    let parsed = match parse_result {
        Ok(p) => p,
        Err(e) => {
            return Err(e);
        },
    };
    if config.subject_capitalized() {
        let subj = parsed.subject();
        match check_capitalized_subject(subj.as_str()) {
            Ok(()) => {},
            Err(e) => {
                return Err(e);
            },
        }
    }
    let subject_length = config.subject_length();
    if subject_length != 0 {
        match check_subject_length(message, subject_length) {
            Ok(()) => {},
            Err(e) => {
                return Err(e);
            },
        }
    }
    let line_length = config.line_length();
    if line_length != 0 {
        match check_line_length(message, line_length) {
            Ok(()) => {},
            Err(e) => {
                return Err(e);
            },
        }
    }
    Ok(())
}

/// The boundary law of the subject-length rule: a message whose trimmed
/// first line holds exactly `n` grapheme clusters is within a limit of `n`,
/// and over a limit of `n - 1`. The second part asks for `n` above one: at
/// `n` equal to one the lowered limit is zero, which disables the rule
/// instead of tightening it.
pub proof fn lemma_subject_boundary(raw: Seq<char>, n: usize)
    requires
        subject_count(raw) == n,
    ensures
        subject_length_ok(raw, n),
        n > 1 ==> !subject_length_ok(raw, (n - 1) as usize),
{
}

} // verus!
