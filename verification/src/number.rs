//! How the text of a number token is read: which of its two parts stand for
//! zero or a unit, which are a ratio of two decimals, and where a ratio
//! splits. The arithmetic on what is read is not done here.
use vstd::prelude::*;
use vstd::string::StringSliceAdditionalSpecFns;
use regex::Regex;

verus! {

/// The error of the `regex` crate: a pattern that it does not accept.
#[verifier::external_type_specification]
#[verifier::external_body]
pub struct ExRegexError(regex::Error);

/// Whether the regular expression `pattern` matches anywhere in `text`, as
/// the `regex` crate decides it, and nothing where the crate does not accept
/// the pattern.
pub uninterp spec fn pattern_found(pattern: Seq<char>, text: Seq<char>) -> Option<bool>;

/// `Regex::new`, then `Regex::is_match`: an error where the pattern does not
/// compile, else whether it matches anywhere in `text`.
#[verifier::external_body]
fn find_pattern(pattern: &str, text: &str) -> (r: Result<bool, regex::Error>)
    ensures
        r is Ok <==> pattern_found(pattern@, text@) is Some,
        r matches Ok(found) ==> pattern_found(pattern@, text@) == Some(found),
{
    let re = Regex::new(pattern)?;
    Ok(re.is_match(text))
}

/// The pattern of a ratio: an optional sign, digits, a slash, digits.
pub open spec fn ratio_pattern() -> Seq<char> {
    "[+-]?\\d+/\\d+"@
}

/// Whether `text` holds a ratio.
pub fn is_ratio(text: &str) -> (found: bool)
    ensures
        found == (pattern_found(ratio_pattern(), text@) == Some(true)),
{
    match find_pattern("[+-]?\\d+/\\d+", text) {
        Ok(found) => found,
        Err(_) => false,
    }
}

/// How one part of a number token is read.
#[derive(Copy, Clone, Debug, PartialEq, Eq, Structural)]
pub enum Part {
    /// The part is missing: it stands for zero.
    Zero,
    /// A bare sign other than minus before the imaginary unit: one.
    One,
    /// A bare minus before the imaginary unit: minus one.
    MinusOne,
    /// A ratio, to be split at its slash and divided.
    Ratio,
    /// A literal, to be parsed as it stands.
    Literal,
}

/// The bytes of a part that is there.
pub open spec fn part_bytes(text: Option<&str>) -> Option<Seq<u8>> {
    match text {
        Some(t) => Some(t.spec_bytes()),
        None => None,
    }
}

/// How a part is read: `imaginary` says which part it is, `ratio` whether
/// it is to be taken as a ratio where it is not a bare sign.
pub open spec fn part_of(bytes: Option<Seq<u8>>, imaginary: bool, ratio: bool) -> Part {
    match bytes {
        None => Part::Zero,
        Some(b) => if imaginary && b.len() == 1 {
            if b[0] == 45 {
                Part::MinusOne
            } else {
                Part::One
            }
        } else if ratio {
            Part::Ratio
        } else {
            Part::Literal
        },
    }
}

/// How a part is read, where it is known whether it holds a ratio.
pub fn classify_part(text: Option<&str>, imaginary: bool, ratio: bool) -> (part: Part)
    ensures
        part == part_of(part_bytes(text), imaginary, ratio),
{
    match text {
        None => Part::Zero,
        Some(t) => {
            let b = t.as_bytes();
            if imaginary && b.len() == 1 {
                if b[0] == 45 {
                    Part::MinusOne
                } else {
                    Part::One
                }
            } else if ratio {
                Part::Ratio
            } else {
                Part::Literal
            }
        },
    }
}

/// How a part of a number token is read. In an exact number no part is
/// taken as a ratio; in a floating one a part is where it holds one.
pub fn read_part(text: Option<&str>, imaginary: bool, floating: bool) -> (part: Part)
    ensures
        part == part_of(
            part_bytes(text),
            imaginary,
            floating && (text matches Some(t) && pattern_found(ratio_pattern(), t@) == Some(true)),
        ),
{
    let ratio = match text {
        Some(t) => floating && is_ratio(t),
        None => false,
    };
    classify_part(text, imaginary, ratio)
}

/// Where a ratio splits: the numerator ends before the first slash, at the
/// first offset given, and the denominator begins behind the slashes that
/// follow, at the second. Nothing where the text holds no slash.
pub fn split_ratio(text: &str) -> (r: Option<(usize, usize)>)
    ensures
        match r {
            Some((i, j)) => {
                &&& i < text.spec_bytes().len()
                &&& text.spec_bytes()[i as int] == 47
                &&& forall|k: int| 0 <= k < i ==> text.spec_bytes()[k] != 47
                &&& i < j <= text.spec_bytes().len()
                &&& forall|k: int| i <= k < j ==> text.spec_bytes()[k] == 47
                &&& j < text.spec_bytes().len() ==> text.spec_bytes()[j as int] != 47
            },
            None => forall|k: int| 0 <= k < text.spec_bytes().len() ==> text.spec_bytes()[k] != 47,
        },
{
    let b = text.as_bytes();
    let mut i: usize = 0;
    while i < b.len() && b[i] != 47
        invariant
            i <= b@.len(),
            forall|k: int| 0 <= k < i ==> b@[k] != 47,
        decreases b@.len() - i,
    {
        i = i + 1;
    }
    if i == b.len() {
        return None;
    }
    let mut j: usize = i + 1;
    while j < b.len() && b[j] == 47
        invariant
            i < j <= b@.len(),
            forall|k: int| i <= k < j ==> b@[k] == 47,
        decreases b@.len() - j,
    {
        j = j + 1;
    }
    Some((i, j))
}

} // verus!
