//! Compiled search patterns: the matching engine is the regex crate's,
//! behind trusted contracts; a compiled pattern is identified by its
//! pattern text.
use vstd::prelude::*;

verus! {

#[verifier::external_type_specification]
#[verifier::external_body]
pub struct ExRegex(regex::Regex);

/// Whether the regular expression written `pattern` matches somewhere in
/// `s`: a function of the two texts alone.
pub uninterp spec fn pattern_matches(pattern: Seq<char>, s: Seq<char>) -> bool;

/// A compiled regular expression together with the text it was compiled
/// from; the two never part.
pub struct CompiledPattern {
    pattern: String,
    re: regex::Regex,
}

impl View for CompiledPattern {
    type V = Seq<char>;

    closed spec fn view(&self) -> Seq<char> {
        self.pattern@
    }
}

impl CompiledPattern {
    /// Relies on `Regex::new`: compiles the pattern, refusing invalid
    /// pattern text.
    #[verifier::external_body]
    pub fn new(pattern: &str) -> (r: Option<CompiledPattern>)
        ensures
            match r {
                Option::Some(p) => p@ == pattern@,
                Option::None => true,
            },
    {
        match regex::Regex::new(pattern) {
            Result::Ok(re) => Option::Some(CompiledPattern { pattern: pattern.to_string(), re }),
            Result::Err(_) => Option::None,
        }
    }

    /// Relies on `Regex::is_match`: whether the pattern matches somewhere
    /// in `s`, a pure function of pattern text and `s`.
    #[verifier::external_body]
    pub fn is_match(&self, s: &str) -> (r: bool)
        ensures
            r == pattern_matches(self@, s@),
    {
        self.re.is_match(s)
    }
}

/// Whether any pattern of the list matches the string.
pub open spec fn any_matches(patterns: Seq<CompiledPattern>, s: Seq<char>) -> bool {
    exists|i: int| 0 <= i < patterns.len() && pattern_matches(#[trigger] patterns[i]@, s)
}

} // verus!
