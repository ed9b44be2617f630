//! Regular expressions, as far as the catalog needs them: a pattern is
//! compiled once, and its first match is then cut out of each text.

use crate::error::Failure;
use crate::text::texts;
use vstd::prelude::*;

verus! {

/// A compiled expression of the `regex` crate. Nothing inside it is read
/// here.
#[verifier::external_type_specification]
#[verifier::external_body]
pub struct ExRegex(regex::Regex);

/// The reason for which the `regex` crate turns a pattern down. Nothing
/// inside it is read here.
#[verifier::external_type_specification]
#[verifier::external_body]
pub struct ExRegexError(regex::Error);

/// Whether `regex::Regex::new` accepts `pattern` and compiles it.
pub uninterp spec fn accepted(pattern: Seq<char>) -> bool;

/// The pattern that `regex::Regex::new` compiled the expression from.
pub uninterp spec fn pattern_of(re: regex::Regex) -> Seq<char>;

/// The text that `regex::Regex::replace` returns: `haystack`, with the
/// first match of `pattern` in it replaced as `replacement` says.
pub uninterp spec fn replaced_first(
    pattern: Seq<char>,
    haystack: Seq<char>,
    replacement: Seq<char>,
) -> Seq<char>;

/// Each of the texts with the first match of `pattern` in it replaced.
pub open spec fn replaced_each(
    pattern: Seq<char>,
    haystacks: Seq<Seq<char>>,
    replacement: Seq<char>,
) -> Seq<Seq<char>> {
    Seq::new(haystacks.len(), |i: int| replaced_first(pattern, haystacks[i], replacement))
}

/// `regex::Regex::new`: compiles `pattern`. Whether a pattern is accepted
/// depends on the pattern alone, and an expression that comes back is the
/// one compiled from this pattern.
#[verifier::external_body]
fn compile(pattern: &str) -> (r: Result<regex::Regex, regex::Error>)
    ensures
        r is Ok <==> accepted(pattern@),
        r matches Ok(re) ==> pattern_of(re) == pattern@,
{
    regex::Regex::new(pattern)
}

/// `regex::Regex::replace` with a text as replacement: the leftmost-first
/// match in `haystack` is replaced, and without a match the text comes back
/// unchanged. For an expression that `compile` made, the result depends on
/// the pattern, the text and the replacement alone; no other expression
/// reaches this function.
#[verifier::external_body]
fn replace_first(re: &regex::Regex, haystack: &str, replacement: &str) -> (r: String)
    ensures
        r@ == replaced_first(pattern_of(*re), haystack@, replacement@),
{
    re.replace(haystack, replacement).into_owned()
}

/// Each of the texts with the first match of `pattern` cut out. This
/// succeeds exactly where the expression engine accepts the pattern,
/// whatever the texts are.
pub fn strip_each(pattern: &str, haystacks: &Vec<String>) -> (outcome: Result<Vec<String>, Failure>)
    ensures
        outcome is Ok <==> accepted(pattern@),
        match outcome {
            Ok(stripped) => texts(stripped@) == replaced_each(
                pattern@,
                texts(haystacks@),
                Seq::<char>::empty(),
            ),
            Err(failure) => failure is Pattern,
        },
{
    let re = match compile(pattern) {
        Ok(re) => re,
        Err(_) => {
            return Err(Failure::Pattern);
        },
    };
    proof {
        reveal_strlit("");
        assert(""@ =~= Seq::<char>::empty());
    }
    let mut stripped: Vec<String> = Vec::new();
    let mut at: usize = 0;
    while at < haystacks.len()
        invariant
            at <= haystacks.len(),
            stripped.len() == at,
            pattern_of(re) == pattern@,
            ""@ == Seq::<char>::empty(),
            forall|i: int|
                0 <= i < at ==> (#[trigger] stripped[i])@ == replaced_first(
                    pattern@,
                    haystacks[i]@,
                    Seq::<char>::empty(),
                ),
        decreases haystacks.len() - at,
    {
        stripped.push(replace_first(&re, haystacks[at].as_str(), ""));
        at += 1;
    }
    proof {
        assert(texts(stripped@) =~= replaced_each(
            pattern@,
            texts(haystacks@),
            Seq::<char>::empty(),
        ));
    }
    Ok(stripped)
}

} // verus!
