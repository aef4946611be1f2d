//! Regular expressions, as far as this library uses them.

use vstd::prelude::*;
use regex::Regex;

verus! {

#[verifier::external_type_specification]
#[verifier::external_body]
pub struct ExRegexError(regex::Error);

/// What the first match of `pattern` in `text` holds in the group named
/// `group`. Nothing at all if `pattern` is no regular expression; no capture
/// if it does not match, or matches without that group.
pub uninterp spec fn regex_capture(pattern: Seq<char>, group: Seq<char>, text: Seq<char>) -> Option<
    Option<Seq<char>>,
>;

/// `Regex::new` on the pattern, `Regex::captures` on the text, and the text
/// of the named group of what was found. The answer depends on the three
/// arguments alone; this library names it and does not spell it out.
#[verifier::external_body]
pub(crate) fn capture_group(pattern: &str, group: &str, text: &str) -> (r: Result<
    Option<String>,
    regex::Error,
>)
    ensures
        match r {
            Ok(Some(captured)) => regex_capture(pattern@, group@, text@) == Some(Some(captured@)),
            Ok(None) => regex_capture(pattern@, group@, text@) == Some(None::<Seq<char>>),
            Err(_) => regex_capture(pattern@, group@, text@) is None,
        },
{
    match Regex::new(pattern) {
        Err(e) => Err(e),
        Ok(re) => Ok(
            match re.captures(text) {
                None => None,
                Some(found) => match found.name(group) {
                    None => None,
                    Some(m) => Some(m.as_str().to_string()),
                },
            },
        ),
    }
}

} // verus!
