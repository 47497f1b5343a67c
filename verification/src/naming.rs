//! The name of the directory that an archive is unpacked into when none is
//! given.

use vstd::prelude::*;
use vstd::std_specs::iter::IteratorSpec;
use vstd::string::StringExecFns;

use crate::error::{Error, ErrorView};

verus! {

/// `text` without `suffix` at its end, as often as it stands there. An empty
/// suffix takes nothing away.
pub open spec fn trimmed_end(text: Seq<char>, suffix: Seq<char>) -> Seq<char>
    decreases text.len(),
{
    if suffix.len() > 0 && text.len() >= suffix.len() && text.skip(text.len() - suffix.len())
        == suffix {
        trimmed_end(text.take(text.len() - suffix.len()), suffix)
    } else {
        text
    }
}

/// The name that the archive named `file_name` is unpacked under: the name
/// without `.iro` at its end.
pub open spec fn unpack_name(file_name: Seq<char>) -> Seq<char> {
    trimmed_end(file_name, ".iro"@)
}

/// The characters of `text`.
fn chars_of(text: &str) -> (chars: Vec<char>)
    ensures
        chars@ == text@,
{
    broadcast use vstd::string::group_string_axioms;
    let mut chars: Vec<char> = Vec::new();
    let mut rest = text.chars();
    loop
        invariant
            rest.obeys_prophetic_iter_laws(),
            chars@.len() <= text@.len(),
            rest.remaining() == text@.skip(chars@.len() as int),
            chars@ == text@.take(chars@.len() as int),
        ensures
            chars@ == text@,
        decreases text@.len() - chars@.len(),
    {
        match rest.next() {
            Some(c) => {
                let ghost before = chars@;
                chars.push(c);
                assert(chars@ =~= text@.take(before.len() as int + 1));
            },
            None => {
                assert(text@.take(chars@.len() as int) =~= text@);
                break;
            },
        }
    }
    chars
}

/// Whether the first `end` characters of `text` end with `suffix`.
fn ends_with(text: &Vec<char>, end: usize, suffix: &Vec<char>) -> (found: bool)
    requires
        end <= text.len(),
        suffix.len() <= end,
    ensures
        found == (text@.take(end as int).skip(end - suffix.len()) == suffix@),
{
    let start = end - suffix.len();
    let ghost tail = text@.take(end as int).skip(start as int);
    let mut at: usize = 0;
    while at < suffix.len()
        invariant
            start == end - suffix.len(),
            end <= text.len(),
            at <= suffix.len(),
            tail == text@.take(end as int).skip(start as int),
            forall|i: int| 0 <= i < at ==> tail[i] == suffix@[i],
        decreases suffix.len() - at,
    {
        assert(tail[at as int] == text@[start + at]);
        if text[start + at] != suffix[at] {
            return false;
        }
        at = at + 1;
    }
    assert(tail =~= suffix@);
    true
}

/// `text` without `suffix` at its end, as often as it stands there.
pub fn trim_end_matches(text: &str, suffix: &str) -> (trimmed: String)
    ensures
        trimmed@ == trimmed_end(text@, suffix@),
{
    let chars = chars_of(text);
    let pattern = chars_of(suffix);
    let mut end = chars.len();
    assert(chars@.take(end as int) =~= chars@);
    while pattern.len() > 0 && end >= pattern.len() && ends_with(&chars, end, &pattern)
        invariant
            end <= chars.len(),
            trimmed_end(chars@, pattern@) == trimmed_end(chars@.take(end as int), pattern@),
        decreases end,
    {
        assert(chars@.take(end as int).take(end - pattern.len()) =~= chars@.take(
            end - pattern.len(),
        ));
        end = end - pattern.len();
    }
    let mut trimmed = String::new();
    let mut at: usize = 0;
    while at < end
        invariant
            end <= chars.len(),
            at <= end,
            trimmed@ == chars@.take(at as int),
        decreases end - at,
    {
        trimmed.push(chars[at]);
        at = at + 1;
        assert(trimmed@ =~= chars@.take(at as int));
    }
    trimmed
}

/// The name of the directory that an archive is unpacked into when none is
/// given. `file_name` is the last component of the path of the archive, if it
/// has one that is text; without one there is no name to go by, and the path,
/// as `iro_path` shows it, is handed back in the error.
pub fn default_unpack_name(file_name: Option<&str>, iro_path: &str) -> (r: Result<String, Error>)
    ensures
        file_name is Some ==> r is Ok && r->Ok_0@ == unpack_name(file_name->0@),
        file_name is None ==> r is Err && r->Err_0@ == ErrorView::CannotDetectDefaultName(
            iro_path@,
        ),
{
    match file_name {
        Some(file_name) => Ok(trim_end_matches(file_name, ".iro")),
        None => Err(Error::CannotDetectDefaultName(String::from_str(iro_path))),
    }
}

} // verus!
