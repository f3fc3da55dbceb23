//! Matching one character against a character class.

use crate::interior::{is_one_class, one_class};
use crate::parse::{consuming, fragments, Outcome, Parse};
use crate::state::State;
use regex::Regex;
use vstd::prelude::*;
use vstd::string::*;

verus! {

/// `regex::Regex`, a compiled regular expression. Nothing inside it is
/// visible to the proofs.
#[verifier::external_type_specification]
#[verifier::external_body]
pub struct ExRegex(regex::Regex);

/// `regex::Error`, the reason why a pattern was not compiled. Nothing inside
/// it is visible to the proofs.
#[verifier::external_type_specification]
#[verifier::external_body]
pub struct ExRegexError(regex::Error);

/// What `regex::Regex::new` returns for a pattern: the compiled expression,
/// or the error for a pattern that is not valid or compiles to more than the
/// default size limit.
pub uninterp spec fn regex_compile(pattern: Seq<char>) -> Result<regex::Regex, regex::Error>;

/// What `regex::Regex::is_match` returns: whether the expression matches
/// somewhere in the haystack.
pub uninterp spec fn regex_is_match(re: regex::Regex, haystack: Seq<char>) -> bool;

/// `Regex::new` compiles with the default options, so what it returns is
/// decided by the pattern alone. Not proved: that it returns at all and does
/// not panic is taken from its documentation.
pub assume_specification[ regex::Regex::new ](re: &str) -> (r: Result<regex::Regex, regex::Error>)
    ensures
        r == regex_compile(re@),
;

/// `Regex::is_match` searches the haystack and changes nothing that a later
/// search could see, so what it returns is decided by the expression and the
/// haystack. Not proved: that it does not panic is taken from its
/// documentation.
pub assume_specification[ regex::Regex::is_match ](re: &regex::Regex, haystack: &str) -> (b: bool)
    ensures
        b == regex_is_match(*re, haystack@),
;

/// The pattern that is compiled for a class: its interior between square
/// brackets.
pub open spec fn bracketed(interior: Seq<char>) -> Seq<char> {
    seq!['['] + interior + seq![']']
}

/// `reason`, written out, reads `text`.
pub open spec fn displays_as(reason: regex::Error, text: String) -> bool {
    to_string_from_display_ensures::<regex::Error>(&reason, text)
}

/// Why a class was not built.
#[derive(Debug, PartialEq)]
pub enum ClassError {
    /// The interior closes the class before its own end: it is not the
    /// interior of one class.
    NotOneClass,
    /// The class did not compile. The reason is the compiler's own.
    Rejected(regex::Error),
}

impl ClassError {
    /// The reason in words.
    pub fn message(&self) -> (text: String)
        ensures
            match *self {
                ClassError::NotOneClass => text@ == "the class is closed before its end"@,
                ClassError::Rejected(reason) => displays_as(reason, text),
            },
    {
        match self {
            ClassError::NotOneClass => String::from_str("the class is closed before its end"),
            ClassError::Rejected(reason) => reason.to_string(),
        }
    }
}

/// A matcher for one character out of a class.
pub struct Char {
    re: Regex,
}

impl Char {
    /// The compiled class.
    pub closed spec fn class(&self) -> Regex {
        self.re
    }

    /// Whether `c` is a character of the class.
    pub open spec fn accepts(&self, c: char) -> bool {
        regex_is_match(self.class(), seq![c])
    }

    /// The matcher for the class whose interior is `re`, such as `0-9`.
    /// The class is compiled here, once. An interior that is not the
    /// interior of one class, or that does not compile, is reported now and
    /// gives no matcher.
    pub fn new(re: &str) -> (r: Result<Self, ClassError>)
        ensures
            !one_class(re@) ==> (r matches Err(e) && e == ClassError::NotOneClass),
            one_class(re@) ==> match regex_compile(bracketed(re@)) {
                Ok(compiled) => r matches Ok(matcher) && matcher.class() == compiled,
                Err(reason) => r matches Err(e) && e == ClassError::Rejected(reason),
            },
    {
        if !is_one_class(re) {
            return Err(ClassError::NotOneClass);
        }
        let mut pattern = String::from_str("[");
        pattern.append(re);
        pattern.append("]");
        proof {
            reveal_strlit("[");
            reveal_strlit("]");
            assert(pattern@ =~= bracketed(re@));
        }
        match Regex::new(pattern.as_str()) {
            Ok(re) => Ok(Self { re }),
            Err(reason) => Err(ClassError::Rejected(reason)),
        }
    }

    /// Where no character is left, a class does not match.
    pub proof fn lemma_fails_at_end(&self, text: Seq<char>, offset: nat)
        requires
            offset >= text.len(),
        ensures
            self.matched(text, offset) is None,
    {
    }

    /// A class reads exactly one character wherever it matches.
    pub proof fn lemma_consuming(&self)
        ensures
            consuming(self),
    {
    }
}

impl Parse for Char {
    open spec fn wf(&self) -> bool {
        true
    }

    /// There is a next character and the class accepts it: it is the one
    /// fragment, and the match ends after it.
    open spec fn matched(&self, text: Seq<char>, offset: nat) -> Outcome {
        if offset < text.len() && self.accepts(text[offset as int]) {
            Some((seq![seq![text[offset as int]]], offset + 1))
        } else {
            None
        }
    }

    fn parse(&self, state: &State) -> (r: Option<(Vec<String>, State)>) {
        let peeked = state.peek(1);
        proof {
            if state.pos() < state.text().len() {
                assert(peeked@ =~= seq![state.text()[state.pos() as int]]);
            }
        }
        if !peeked.as_str().is_empty() && self.re.is_match(peeked.as_str()) {
            let ghost frag = peeked@;
            let mut out: Vec<String> = Vec::new();
            out.push(peeked);
            proof {
                assert(fragments(out@) =~= seq![frag]);
            }
            Some((out, state.read(1)))
        } else {
            None
        }
    }
}

} // verus!
