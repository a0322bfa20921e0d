//! Choosing the files of a volume directory that are copied out of an
//! image, by a pattern for their names.

use vstd::prelude::*;
use crate::volhdr::{file_views, VolumeFile, VolumeFileView, VOLUME_BLOCK_SZ};

verus! {

/// glob's `Pattern`, carried as it is.
#[verifier::external_type_specification]
#[verifier::external_body]
pub struct ExPattern(glob::Pattern);

/// glob's `PatternError`, carried as it is.
#[verifier::external_type_specification]
#[verifier::external_body]
pub struct ExPatternError(glob::PatternError);

/// Why files could not be chosen.
#[derive(Debug, Clone, Copy, PartialEq, Eq)]
pub enum GlobError {
    /// The pattern is no glob pattern.
    BadPattern,
}

/// Names are matched with regard to case.
pub const GLOB_CASE_SENSITIVE: bool = true;

/// A separator of path components is matched by itself only.
pub const GLOB_LITERAL_SEPARATOR: bool = true;

/// A dot at the start of a name is matched by itself only.
pub const GLOB_LITERAL_LEADING_DOT: bool = true;

/// `glob::Pattern::new`: the compiled pattern, or glob's account of why
/// `source` is none. Whether a pattern comes back is a matter of the text
/// alone, by the path rules of the platform that the library is built for;
/// a pattern that comes back keeps `source` as the text that it was compiled
/// from.
#[verifier::external_body]
fn glob_compile(source: &str) -> (r: Result<glob::Pattern, glob::PatternError>)
    ensures
        r is Ok <==> glob_accepts(source@),
        r is Ok ==> pattern_source(r->Ok_0) == source@,
{
    glob::Pattern::new(source)
}

/// `glob::Pattern::matches_with`, with the settings of glob's `MatchOptions`
/// given one by one: whether `name` matches the pattern. glob matches by what
/// it made of the pattern's text when it compiled it, by the name and by the
/// settings, and by nothing else.
#[verifier::external_body]
fn glob_matches(
    pattern: &glob::Pattern,
    name: &str,
    case_sensitive: bool,
    require_literal_separator: bool,
    require_literal_leading_dot: bool,
) -> (r: bool)
    ensures
        r == glob_verdict(
            pattern_source(*pattern),
            name@,
            case_sensitive,
            require_literal_separator,
            require_literal_leading_dot,
        ),
{
    let options =
        glob::MatchOptions { case_sensitive, require_literal_separator, require_literal_leading_dot };
    pattern.matches_with(name, options)
}

/// Compiles a glob pattern: the pattern of `source` where glob takes
/// `source` for one, and else that it is none.
pub fn compile(source: &str) -> (r: Result<glob::Pattern, GlobError>)
    ensures
        r is Ok <==> glob_accepts(source@),
        r is Ok ==> pattern_source(r->Ok_0) == source@,
        r is Err ==> r->Err_0 == GlobError::BadPattern,
{
    compiled(glob_compile(source))
}

/// Whether glob takes `source` for a pattern: whether `glob::Pattern::new`
/// compiles it.
pub uninterp spec fn glob_accepts(source: Seq<char>) -> bool;

/// Whether `name` matches the pattern of the text `source` under the three
/// settings of glob's `MatchOptions`: what `glob::Pattern::matches_with`
/// answers.
pub uninterp spec fn glob_verdict(
    source: Seq<char>,
    name: Seq<char>,
    case_sensitive: bool,
    literal_separator: bool,
    literal_leading_dot: bool,
) -> bool;

/// The text that a pattern was compiled from: what glob's `Pattern::as_str`
/// hands out.
pub uninterp spec fn pattern_source(pattern: glob::Pattern) -> Seq<char>;

/// What compiling comes to for each outcome of glob: the pattern that glob
/// compiled, or, whatever glob's account of it, that the text is no pattern.
pub open spec fn spec_compiled(outcome: Result<glob::Pattern, glob::PatternError>) -> Result<
    glob::Pattern,
    GlobError,
> {
    match outcome {
        Ok(pattern) => Ok(pattern),
        Err(_) => Err(GlobError::BadPattern),
    }
}

/// Turns the outcome of glob into the outcome of compiling.
pub fn compiled(outcome: Result<glob::Pattern, glob::PatternError>) -> (r: Result<
    glob::Pattern,
    GlobError,
>)
    ensures
        r == spec_compiled(outcome),
{
    match outcome {
        Ok(pattern) => Ok(pattern),
        Err(_) => Err(GlobError::BadPattern),
    }
}

/// The indices of the first `n` files of `files` that are in use and that
/// `verdicts` marks, in ascending order.
pub open spec fn spec_select(files: Seq<VolumeFileView>, verdicts: Seq<bool>, n: nat) -> Seq<usize>
    decreases n,
{
    if n == 0 {
        Seq::empty()
    } else if files[n - 1].spec_in_use() && verdicts[n - 1] {
        spec_select(files, verdicts, (n - 1) as nat).push((n - 1) as usize)
    } else {
        spec_select(files, verdicts, (n - 1) as nat)
    }
}

/// What is selected from the first `n` files are indices below `n`, in
/// ascending order, of files that are in use and marked.
pub proof fn lemma_select(files: Seq<VolumeFileView>, verdicts: Seq<bool>, n: nat)
    requires
        n <= usize::MAX,
    ensures
        forall|k: int|
            0 <= k < spec_select(files, verdicts, n).len() ==> {
                let i = #[trigger] spec_select(files, verdicts, n)[k];
                i < n && files[i as int].spec_in_use() && verdicts[i as int]
            },
        forall|j: int, k: int|
            0 <= j < k < spec_select(files, verdicts, n).len() ==> spec_select(files, verdicts, n)[j]
                < spec_select(files, verdicts, n)[k],
    decreases n,
{
    if n > 0 {
        lemma_select(files, verdicts, (n - 1) as nat);
        let before = spec_select(files, verdicts, (n - 1) as nat);
        let all = spec_select(files, verdicts, n);
        assert forall|k: int| 0 <= k < all.len() implies {
            let i = #[trigger] all[k];
            i < n && files[i as int].spec_in_use() && verdicts[i as int]
        } by {
            if k < before.len() {
                assert(all[k] == before[k]);
            }
        }
        assert forall|j: int, k: int| 0 <= j < k < all.len() implies all[j] < all[k] by {
            assert(all[j] == before[j]);
            if k < before.len() {
                assert(all[k] == before[k]);
            }
        }
    }
}

/// Selects the files that are in use and that `verdicts` marks.
pub fn select_matching(files: &Vec<VolumeFile>, verdicts: &Vec<bool>) -> (r: Vec<usize>)
    requires
        verdicts@.len() == files@.len(),
    ensures
        r@ == spec_select(file_views(files@), verdicts@, files@.len()),
{
    let mut selected: Vec<usize> = Vec::new();
    let mut i: usize = 0;
    while i < files.len()
        invariant
            i <= files@.len(),
            verdicts@.len() == files@.len(),
            selected@ == spec_select(file_views(files@), verdicts@, i as nat),
        decreases files@.len() - i,
    {
        assert(file_views(files@)[i as int] == files@[i as int]@);
        if files[i].in_use() && verdicts[i] {
            selected.push(i);
        }
        i += 1;
    }
    selected
}

/// Whether the name of each file of `files` matches the pattern of the text
/// `source`: with regard to case, a separator and a leading dot matched by
/// themselves only. A file without a name matches nothing.
pub open spec fn spec_verdicts(files: Seq<VolumeFileView>, source: Seq<char>) -> Seq<bool> {
    Seq::new(
        files.len(),
        |i: int|
            match files[i].file_name {
                Some(name) => glob_verdict(
                    source,
                    name,
                    GLOB_CASE_SENSITIVE,
                    GLOB_LITERAL_SEPARATOR,
                    GLOB_LITERAL_LEADING_DOT,
                ),
                None => false,
            },
    )
}

/// The indices of the files of `files` that are in use and whose names match
/// the pattern of the text `source`, in ascending order.
pub open spec fn spec_matches(files: Seq<VolumeFileView>, source: Seq<char>) -> Seq<usize> {
    spec_select(files, spec_verdicts(files, source), files.len())
}

/// Finds the files of a volume directory that are in use and whose names
/// match the pattern: their indices, in ascending order. Only the names of
/// files in use are held against the pattern.
pub fn matches(files: &Vec<VolumeFile>, glob: &glob::Pattern) -> (r: Vec<usize>)
    ensures
        r@ == spec_matches(file_views(files@), pattern_source(*glob)),
        forall|k: int|
            0 <= k < r@.len() ==> (#[trigger] r@[k]) < files@.len() && files@[r@[k] as int]@.spec_in_use(),
        forall|j: int, k: int| 0 <= j < k < r@.len() ==> r@[j] < r@[k],
{
    let ghost expected = spec_verdicts(file_views(files@), pattern_source(*glob));
    let mut verdicts: Vec<bool> = Vec::with_capacity(files.len());
    let mut i: usize = 0;
    while i < files.len()
        invariant
            i <= files@.len(),
            verdicts@.len() == i,
            expected == spec_verdicts(file_views(files@), pattern_source(*glob)),
            forall|j: int| 0 <= j < i ==> verdicts@[j] == expected[j],
        decreases files@.len() - i,
    {
        assert(file_views(files@)[i as int] == files@[i as int]@);
        let verdict: bool = match &files[i].file_name {
            Some(name) => glob_matches(
                glob,
                name.as_str(),
                GLOB_CASE_SENSITIVE,
                GLOB_LITERAL_SEPARATOR,
                GLOB_LITERAL_LEADING_DOT,
            ),
            None => false,
        };
        verdicts.push(verdict);
        i += 1;
    }
    assert(verdicts@ =~= expected);
    let selected = select_matching(files, &verdicts);
    proof {
        lemma_select(file_views(files@), verdicts@, files@.len());
        assert forall|k: int| 0 <= k < selected@.len() implies (#[trigger] selected@[k])
            < files@.len() && files@[selected@[k] as int]@.spec_in_use() by {
            let i = selected@[k];
            assert(file_views(files@)[i as int] == files@[i as int]@);
        }
    }
    selected
}

/// Where the bytes of a file of the volume directory lie in the image: the
/// first of them, and how many there are.
pub fn source_range(file: &VolumeFile) -> (r: (u64, u64))
    requires
        file@.spec_fits(),
    ensures
        r.0 == file.block_start * VOLUME_BLOCK_SZ,
        r.1 == file.file_sz,
{
    (file.block_start * 512, file.file_sz)
}

/// Whether the files that were chosen can be copied to the destination:
/// more than one file needs a directory to go to.
pub fn destination_fits(num_matches: usize, dest_is_dir: bool) -> (r: bool)
    ensures
        r == !(num_matches > 1 && !dest_is_dir),
{
    !(num_matches > 1 && !dest_is_dir)
}

} // verus!
