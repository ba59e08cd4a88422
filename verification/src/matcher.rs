use crate::text::concat;
use regex::Regex;
use vstd::prelude::*;
use vstd::utf8::*;

verus! {

/// `regex::Regex`, a compiled regular expression. Nothing is known of a
/// value but the pattern it was made from.
#[verifier::external_type_specification]
#[verifier::external_body]
pub struct ExRegex(Regex);

/// `regex::Error`, the reason why a pattern did not compile. It is only
/// carried through.
#[verifier::external_type_specification]
#[verifier::external_body]
pub struct ExRegexError(regex::Error);

/// The pattern that a compiled expression was made from: what
/// `Regex::as_str` gives. Expressions made with different options can
/// have the same pattern.
pub uninterp spec fn regex_pattern(regex: Regex) -> Seq<char>;

/// The matches of an expression in a text as `Regex::find_iter` gives
/// them: for each match the byte offsets of its start and of its end.
pub uninterp spec fn regex_spans(regex: Regex, text: Seq<char>) -> Seq<(int, int)>;

/// Whether `Regex::new` makes an expression of a pattern, on the platform
/// that the crate is built for.
pub uninterp spec fn pattern_compiles(pattern: Seq<char>) -> bool;

/// The matches in a text of the expression that `Regex::new` makes of a
/// pattern.
pub uninterp spec fn pattern_spans(pattern: Seq<char>, text: Seq<char>) -> Seq<(int, int)>;

/// Spans that lie in a text from left to right without overlap, each
/// between two character boundaries of the text.
pub open spec fn spans_in_order(spans: Seq<(int, int)>, bytes: Seq<u8>) -> bool {
    &&& forall|i: int|
        0 <= i < spans.len() ==> 0 <= (#[trigger] spans[i]).0 <= spans[i].1 <= bytes.len()
            && is_char_boundary(bytes, spans[i].0) && is_char_boundary(bytes, spans[i].1)
    &&& forall|i: int, j: int|
        0 <= i < j < spans.len() ==> (#[trigger] spans[i]).1 <= (#[trigger] spans[j]).0
}

/// The spans of a list of pairs of offsets.
pub open spec fn spans_view(spans: Seq<(usize, usize)>) -> Seq<(int, int)> {
    spans.map_values(|s: (usize, usize)| (s.0 as int, s.1 as int))
}

/// `Regex::new`. It depends on the pattern alone whether an expression
/// comes back. One that does was made from the pattern with no option
/// set, and finds what expressions made in this way from the pattern find.
#[verifier::external_body]
fn compile(pattern: &str) -> (r: Result<Regex, regex::Error>)
    ensures
        r is Ok <==> pattern_compiles(pattern@),
        r matches Ok(regex) ==> regex_pattern(regex) == pattern@,
        r matches Ok(regex) ==> forall|text: Seq<char>| #[trigger]
            regex_spans(regex, text) == pattern_spans(pattern@, text),
{
    Regex::new(pattern)
}

/// `Regex::is_match`: whether the expression has a match anywhere in the
/// text, which is whether `find_iter` gives one.
#[verifier::external_body]
fn has_match(regex: &Regex, text: &str) -> (r: bool)
    ensures
        r == (regex_spans(*regex, text@).len() > 0),
{
    regex.is_match(text)
}

/// `Regex::find_iter`, each match given as its start and end. The matches
/// come from left to right and do not overlap, and each offset falls on a
/// character boundary of the text.
#[verifier::external_body]
fn find_spans(regex: &Regex, text: &str) -> (r: Vec<(usize, usize)>)
    ensures
        spans_view(r@) == regex_spans(*regex, text@),
        spans_in_order(spans_view(r@), encode_utf8(text@)),
{
    regex.find_iter(text).map(|m| (m.start(), m.end())).collect()
}

/// The pattern was refused as a regular expression.
#[derive(Clone, Copy, Debug, PartialEq, Eq, Structural)]
pub struct InvalidPattern;

/// The expression that is compiled for a pattern and two flags: for a
/// search without regard to case `(?i)` goes before the pattern, and for a
/// search for whole words `\b` goes before and after all of that.
pub open spec fn effective_pattern(pattern: Seq<char>, ignore_case: bool, word_regexp: bool) -> Seq<
    char,
> {
    let cased = if ignore_case {
        "(?i)"@ + pattern
    } else {
        pattern
    };
    if word_regexp {
        "\\b"@ + cased + "\\b"@
    } else {
        cased
    }
}

/// Builds the expression that is compiled for a pattern and two flags.
pub fn build_pattern(pattern: &str, ignore_case: bool, word_regexp: bool) -> (r: String)
    ensures
        r@ == effective_pattern(pattern@, ignore_case, word_regexp),
{
    let cased = if ignore_case {
        concat("(?i)", pattern)
    } else {
        concat("", pattern)
    };
    proof {
        reveal_strlit("");
        assert(""@ + pattern@ =~= pattern@);
    }
    if word_regexp {
        let front = concat("\\b", cased.as_str());
        concat(front.as_str(), "\\b")
    } else {
        cased
    }
}

/// A compiled search pattern.
pub struct Matcher {
    regex: Regex,
}

impl Matcher {
    /// The expression that the matcher was made from.
    pub closed spec fn pattern(&self) -> Seq<char> {
        regex_pattern(self.regex)
    }

    /// The matches of the matcher in a text.
    pub closed spec fn spans(&self, text: Seq<char>) -> Seq<(int, int)> {
        regex_spans(self.regex, text)
    }

    /// Whether the matcher searches for `pattern` as an expression that
    /// was compiled from it with no option set does.
    pub open spec fn searches_for(&self, pattern: Seq<char>) -> bool {
        &&& self.pattern() == pattern
        &&& forall|text: Seq<char>| #[trigger] self.spans(text) == pattern_spans(pattern, text)
    }

    /// Makes a matcher of what compiling an expression gave. The matcher
    /// finds what the expression finds.
    pub fn from_compiled(compiled: Result<Regex, regex::Error>) -> (r: Result<
        Matcher,
        InvalidPattern,
    >)
        ensures
            r is Ok == compiled is Ok,
            r matches Ok(m) ==> compiled matches Ok(regex) && m.pattern() == regex_pattern(regex)
                && forall|text: Seq<char>| #[trigger]
                m.spans(text) == regex_spans(regex, text),
    {
        match compiled {
            Ok(regex) => Ok(Matcher { regex }),
            Err(_) => Err(InvalidPattern),
        }
    }

    /// Compiles a pattern with its flags. There is a matcher if and only
    /// if the effective pattern compiles, and the matcher searches for the
    /// effective pattern.
    pub fn new(pattern: &str, ignore_case: bool, word_regexp: bool) -> (r: Result<
        Matcher,
        InvalidPattern,
    >)
        ensures
            r is Ok <==> pattern_compiles(effective_pattern(pattern@, ignore_case, word_regexp)),
            r matches Ok(m) ==> m.searches_for(
                effective_pattern(pattern@, ignore_case, word_regexp),
            ),
    {
        let effective = build_pattern(pattern, ignore_case, word_regexp);
        Matcher::from_compiled(compile(effective.as_str()))
    }

    /// Whether the text holds a match.
    pub fn is_match(&self, text: &str) -> (r: bool)
        ensures
            r == (self.spans(text@).len() > 0),
    {
        has_match(&self.regex, text)
    }

    /// The matches in the text, from left to right.
    pub fn find_all(&self, text: &str) -> (r: Vec<(usize, usize)>)
        ensures
            spans_view(r@) == self.spans(text@),
            spans_in_order(spans_view(r@), encode_utf8(text@)),
    {
        find_spans(&self.regex, text)
    }
}

} // verus!
