use vstd::prelude::*;

verus! {

/// What `regex` answers when `pattern` is searched for in `text`: `None` when
/// the pattern does not compile.
pub uninterp spec fn regex_search(pattern: Seq<char>, text: Seq<char>) -> Option<bool>;

/// Relies on regex::Regex::new, which compiles the pattern or reports that it
/// is not valid, and Regex::is_match, which tells whether it matches anywhere
/// in the text. The answer depends on the two strings alone.
#[verifier::external_body]
fn regex_is_match(pattern: &String, text: &String) -> (r: Option<bool>)
    ensures
        r == regex_search(pattern@, text@),
{
    match regex::Regex::new(pattern) {
        Ok(re) => Some(re.is_match(text)),
        Err(_) => None,
    }
}

/// A subject is allowed to lack a private key when it equals an entry of the
/// allowlist, or when an entry, read as a regular expression, matches it.
pub open spec fn known_missing(allowlist: Seq<String>, subject: Seq<char>) -> bool {
    exists|i: int|
        0 <= i < allowlist.len() && (allowlist[i]@ == subject || regex_search(
            allowlist[i]@,
            subject,
        ) == Some(true))
}

pub fn is_known_missing(allowlist: &Vec<String>, subject: &String) -> (r: bool)
    ensures
        r == known_missing(allowlist@, subject@),
{
    let mut i: usize = 0;
    while i < allowlist.len()
        invariant
            i <= allowlist@.len(),
            forall|j: int| 0 <= j < i ==> allowlist@[j]@ != subject@,
        decreases allowlist@.len() - i,
    {
        if allowlist[i] == *subject {
            return true;
        }
        i = i + 1;
    }
    let mut i: usize = 0;
    while i < allowlist.len()
        invariant
            i <= allowlist@.len(),
            forall|j: int| 0 <= j < allowlist@.len() ==> allowlist@[j]@ != subject@,
            forall|j: int| 0 <= j < i ==> regex_search(allowlist@[j]@, subject@) != Some(true),
        decreases allowlist@.len() - i,
    {
        match regex_is_match(&allowlist[i], subject) {
            Some(true) => {
                return true;
            },
            _ => {},
        }
        i = i + 1;
    }
    false
}

} // verus!
