//! Name patterns: a literal name, or a shell wildcard pattern compiled once
//! into an anchored regular expression.
use regex::Regex;
use vstd::prelude::*;
use vstd::string::StringExecFns;

use crate::text::contains_shell_patterns;
use crate::text::has_wildcard;
use crate::text::same_text;
use crate::text::anchor;
use crate::text::substitute_wildcards;
use crate::text::translate;
use crate::text::wildcard_regex;

verus! {

#[verifier::external_type_specification]
#[verifier::external_body]
pub struct ExRegex(regex::Regex);

#[verifier::external_type_specification]
#[verifier::external_body]
pub struct ExRegexError(regex::Error);

/// The source text that an expression built by `compile_regex` keeps, as
/// `Regex::as_str` reports it.
pub uninterp spec fn regex_source(re: Regex) -> Seq<char>;

/// Whether `regex::Regex::new` accepts `src`: it is valid syntax and fits
/// the default size limit.
pub uninterp spec fn regex_valid(src: Seq<char>) -> bool;

/// Whether an expression that `Regex::new` built from `src`, with the default
/// options, matches somewhere in `text`.
pub uninterp spec fn regex_finds(src: Seq<char>, text: Seq<char>) -> bool;

/// Relies on `regex::Regex::new`: it succeeds exactly when `src` is a valid
/// expression (which depends on `src` alone), and on success the expression
/// keeps `src` as its source text (`Regex::as_str` hands it back).
#[verifier::external_body]
fn compile_regex(src: &str) -> (r: Result<Regex, regex::Error>)
    ensures
        r is Ok <==> regex_valid(src@),
        r is Ok ==> regex_source(r->Ok_0) == src@,
{
    Regex::new(src)
}

/// An expression compiled from a wildcard pattern. Only this module builds
/// one, always with `compile_regex`.
pub struct Compiled {
    re: Regex,
}

impl Compiled {
    /// The source text of the expression.
    pub closed spec fn source(self) -> Seq<char> {
        regex_source(self.re)
    }
}

/// Relies on `regex::Regex::is_match`, on an expression that `Regex::new`
/// built (`Compiled` holds no other): whether it matches somewhere in `text`,
/// which depends on its source and on `text` alone.
#[verifier::external_body]
fn regex_is_match(c: &Compiled, text: &str) -> (r: bool)
    ensures
        r == regex_finds(c.source(), text@),
{
    c.re.is_match(text)
}

/// The expression named in the error for the wildcard pattern `p`: the
/// substituted text when it is invalid by itself, else its anchored form.
pub open spec fn refused_regex(p: Seq<char>) -> Seq<char> {
    if regex_valid(translate(p)) {
        wildcard_regex(p)
    } else {
        translate(p)
    }
}

/// Why a pattern could not be compiled.
#[derive(Debug, PartialEq, Eq)]
pub enum PatternError {
    /// An expression made from a wildcard pattern is not a valid regular
    /// expression; `regex` holds that expression.
    InvalidWildcard { regex: String },
}

/// A compiled name pattern. The variant is fixed when the pattern is built.
pub enum Pattern {
    /// Matches exactly this name.
    Literal(String),
    /// Matches a name that the whole-name expression accepts.
    Wildcard(Compiled),
}

impl Pattern {
    /// Whether the pattern accepts the base name `name`.
    pub open spec fn accepts(self, name: Seq<char>) -> bool {
        match self {
            Pattern::Literal(p) => name == p@,
            Pattern::Wildcard(c) => regex_finds(c.source(), name),
        }
    }

    /// The pattern that `new` builds from `p`, when it succeeds: literal when
    /// `p` holds no wildcard, else an expression whose source is the anchored
    /// translation of `p`.
    pub open spec fn built_from(self, p: Seq<char>) -> bool {
        if has_wildcard(p) {
            self is Wildcard && self->Wildcard_0.source() == wildcard_regex(p)
        } else {
            self is Literal && self->Literal_0@ == p
        }
    }

    /// Compiles `pattern`. A pattern without `*` or `?` is literal and always
    /// compiles. A wildcard pattern fails exactly when the text with its
    /// wildcards substituted is not a valid regular expression by itself, or
    /// its anchored form is not; the error holds the first expression refused.
    pub fn new(pattern: &str) -> (r: Result<Pattern, PatternError>)
        ensures
            r is Ok <==> (!has_wildcard(pattern@) || (regex_valid(translate(pattern@))
                && regex_valid(wildcard_regex(pattern@)))),
            r is Ok ==> r->Ok_0.built_from(pattern@),
            r is Err ==> has_wildcard(pattern@) && r->Err_0->InvalidWildcard_regex@
                == refused_regex(pattern@),
    {
        if contains_shell_patterns(pattern) {
            let body = substitute_wildcards(pattern);
            match compile_regex(body.as_str()) {
                Ok(_) => {},
                Err(_) => return Err(PatternError::InvalidWildcard { regex: body }),
            }
            let src = anchor(body.as_str());
            match compile_regex(src.as_str()) {
                Ok(re) => Ok(Pattern::Wildcard(Compiled { re })),
                Err(_) => Err(PatternError::InvalidWildcard { regex: src }),
            }
        } else {
            Ok(Pattern::Literal(String::from_str(pattern)))
        }
    }

    /// Whether the pattern accepts the base name `name`.
    pub fn matches(&self, name: &str) -> (r: bool)
        ensures
            r == self.accepts(name@),
    {
        match self {
            Pattern::Literal(p) => same_text(p.as_str(), name),
            Pattern::Wildcard(c) => regex_is_match(c, name),
        }
    }
}

} // verus!
