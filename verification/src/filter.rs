//! Which entries the include and exclude patterns let through. The patterns
//! are shell globs and are matched by the `fast-glob` crate.

use vstd::prelude::*;
use vstd::utf8::encode_utf8;

verus! {

/// Whether `fast-glob` matches the pattern `glob` against `path`, both taken
/// as bytes. Which bytes of a path separate its components is decided by the
/// platform: `/` everywhere, and `\` too where the platform's paths use it.
pub uninterp spec fn glob_matched(glob: Seq<u8>, path: Seq<u8>) -> bool;

/// The matcher counts positions in 32 bits; patterns and paths are kept well
/// below that.
pub const GLOB_INPUT_LIMIT: usize = 0x7FFF_FFFF;

/// `glob_match` of `fast-glob`. It hands back whether the pattern matches the
/// path; on one platform that is a function of the two byte strings alone.
/// Inputs of 4 GiB overflow its counters and are left out.
#[verifier::external_body]
fn glob_match(glob: &[u8], path: &[u8]) -> (matched: bool)
    requires
        glob@.len() <= GLOB_INPUT_LIMIT,
        path@.len() <= GLOB_INPUT_LIMIT,
    ensures
        matched == glob_matched(glob@, path@),
{
    fast_glob::glob_match(glob, path)
}

/// Whether every pattern is short enough for the matcher.
pub open spec fn globs_within_limit(globs: Seq<Seq<char>>) -> bool {
    forall|i: int|
        0 <= i < globs.len() ==> (#[trigger] encode_utf8(globs[i])).len() <= GLOB_INPUT_LIMIT
}

/// Whether every pattern of a list, if there is a list, is short enough for
/// the matcher.
pub open spec fn filter_within_limit(globs: Option<Seq<Seq<char>>>) -> bool {
    globs matches Some(globs) ==> globs_within_limit(globs)
}

/// Whether the matcher is asked at all about a path of `path_len` bytes, and
/// if so, whether the path and every pattern are short enough for it.
pub open spec fn within_limit(
    path_len: nat,
    includes: Option<Seq<Seq<char>>>,
    excludes: Option<Seq<Seq<char>>>,
) -> bool {
    &&& filter_within_limit(includes)
    &&& filter_within_limit(excludes)
    &&& includes is Some || excludes is Some ==> path_len <= GLOB_INPUT_LIMIT
}

/// Whether one of `globs` matches `path`.
pub open spec fn any_glob_matches(globs: Seq<Seq<char>>, path: Seq<u8>) -> bool {
    exists|i: int| 0 <= i < globs.len() && glob_matched(#[trigger] encode_utf8(globs[i]), path)
}

/// Whether an entry passes once it is known whether an include pattern and
/// whether an exclude pattern matches it; `None` stands for a list that was
/// not given.
pub open spec fn passes(included: Option<bool>, excluded: Option<bool>) -> bool {
    included != Some(false) && excluded != Some(true)
}

/// Whether the lists let the entry at `path` through: with no list every
/// entry passes; an include list lets through what one of its patterns
/// matches; an exclude list holds back what one of its patterns matches.
pub open spec fn entry_selected(
    path: Seq<u8>,
    includes: Option<Seq<Seq<char>>>,
    excludes: Option<Seq<Seq<char>>>,
) -> bool {
    passes(
        match includes {
            Some(globs) => Some(any_glob_matches(globs, path)),
            None => None,
        },
        match excludes {
            Some(globs) => Some(any_glob_matches(globs, path)),
            None => None,
        },
    )
}

/// Tells whether one of the patterns matches `entry_path`. The patterns and
/// the path must be within the limit of the matcher.
pub fn glob_includes(files: &Vec<String>, entry_path: &[u8]) -> (found: bool)
    requires
        globs_within_limit(files.deep_view()),
        entry_path@.len() <= GLOB_INPUT_LIMIT,
    ensures
        found == any_glob_matches(files.deep_view(), entry_path@),
{
    let ghost globs = files.deep_view();
    let mut at: usize = 0;
    while at < files.len()
        invariant
            globs == files.deep_view(),
            globs_within_limit(globs),
            entry_path@.len() <= GLOB_INPUT_LIMIT,
            at <= files.len(),
            forall|i: int|
                0 <= i < at ==> !glob_matched(#[trigger] encode_utf8(globs[i]), entry_path@),
        decreases files.len() - at,
    {
        assert(globs[at as int] == files[at as int]@);
        assert(encode_utf8(globs[at as int]).len() <= GLOB_INPUT_LIMIT);
        if glob_match(files[at].as_str().as_bytes(), entry_path) {
            return true;
        }
        at = at + 1;
    }
    false
}

/// Decides from the two findings whether an entry passes.
pub fn filter_decision(included: Option<bool>, excluded: Option<bool>) -> (pass: bool)
    ensures
        pass == passes(included, excluded),
{
    let held_back = match excluded {
        Some(found) => found,
        None => false,
    };
    let let_in = match included {
        Some(found) => found,
        None => true,
    };
    let_in && !held_back
}

/// Tells whether the include and exclude lists let the entry at `entry_path`
/// through. Where a list is given, its patterns and the path must be within
/// the limit of the matcher.
pub fn match_entry_path(
    entry_path: &[u8],
    include_files: &Option<Vec<String>>,
    exclude_files: &Option<Vec<String>>,
) -> (pass: bool)
    requires
        within_limit(entry_path@.len(), include_files.deep_view(), exclude_files.deep_view()),
    ensures
        pass == entry_selected(entry_path@, include_files.deep_view(), exclude_files.deep_view()),
{
    let included = match include_files {
        Some(includes) => Some(glob_includes(includes, entry_path)),
        None => None,
    };
    let excluded = match exclude_files {
        Some(excludes) => Some(glob_includes(excludes, entry_path)),
        None => None,
    };
    filter_decision(included, excluded)
}

} // verus!
