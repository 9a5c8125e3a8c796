//! What a run is asked to do, and the decisions that follow from it alone.

use vstd::prelude::*;
use crate::path::{file_stem, stem_of};
use crate::text::{lowercase, lowercased, trim, trimmed};
use crate::types::{negated, DEFAULT_EXCLUDE};

verus! {

/// The options of one run.
#[derive(Debug)]
pub struct Cli {
    /// The directory to flatten.
    pub directory: String,
    /// The file to write; a name is made up where none is given.
    pub output: Option<String>,
    /// Paths to leave out.
    pub excludes: Vec<String>,
    /// Paths to take in.
    pub includes: Vec<String>,
    /// Whether hidden files are taken in.
    pub allow_hidden: bool,
}

/// The size, in bytes, above which a run asks before it writes: 10 MiB.
pub const SIZE_LIMIT: u64 = 10485760;

/// Whether a total of `size` bytes is large enough to ask before writing.
pub fn exceeds_size_limit(size: u64) -> (r: bool)
    ensures
        r == (size > SIZE_LIMIT),
{
    size > SIZE_LIMIT
}

/// How a made-up output name begins.
pub const OUTPUT_PREFIX: &'static str = "flatten-";

/// How a made-up output name ends.
pub const OUTPUT_SUFFIX: &'static str = ".txt";

/// The form in which the time of a run is written into a made-up file name:
/// year, month and day, then hour, minute and second.
pub const TIMESTAMP_FORMAT: &'static str = "%Y-%m-%d_%H-%M-%S";

/// The name that stands for a directory without a name of its own.
pub const NAMELESS: &'static str = "root";

/// The only answer that lets a large run go on.
pub const YES: &'static str = "y";

/// The file name that is made up for the output of a run on `directory` at
/// the time that `timestamp` gives: `flatten-`, the name of the directory
/// without its extension (`root` where it has no name), `-`, the time, and
/// `.txt`.
pub open spec fn default_output_name(directory: Seq<char>, timestamp: Seq<char>) -> Seq<char> {
    let stem = match stem_of(directory) {
        Some(s) => s,
        None => NAMELESS@,
    };
    OUTPUT_PREFIX@ + stem + "-"@ + timestamp + OUTPUT_SUFFIX@
}

/// Whether an answer to the question before a large run lets it go on:
/// without the white space at its ends, and in lower case, it is `y`.
pub open spec fn is_yes(answer: Seq<char>) -> bool {
    lowercased(trimmed(answer)) == YES@
}

impl Cli {
    /// The file that the run writes: the one that was asked for, or else a
    /// name made up from the directory, as it was resolved on disk, and the
    /// time of the run.
    pub fn output_file(&self, directory: &str, timestamp: &str) -> (name: String)
        ensures
            name@ == (match self.output {
                Some(given) => given@,
                None => default_output_name(directory@, timestamp@),
            }),
    {
        match &self.output {
            Some(given) => given.clone(),
            None => {
                let mut name = OUTPUT_PREFIX.to_string();
                match file_stem(directory) {
                    Some(stem) => name.append(stem.as_str()),
                    None => name.append(NAMELESS),
                }
                name.append("-");
                name.append(timestamp);
                name.append(OUTPUT_SUFFIX);
                name
            },
        }
    }
}

/// Whether an answer, already without the white space at its ends and in
/// lower case, lets a large run go on: it is `y` and nothing else.
pub fn is_affirmative(normalised: &str) -> (r: bool)
    ensures
        r == (normalised@ == YES@),
{
    normalised.to_owned() == YES.to_string()
}

/// Whether `answer`, a line that the user typed, lets a large run go on.
pub fn confirms(answer: &str) -> (r: bool)
    ensures
        r == is_yes(answer@),
{
    is_affirmative(lowercase(trim(answer)).as_str())
}

/// A made-up output name has the shape that the default exclude rule
/// removes: the rule is the beginning of such a name, `*` and its end,
/// negated, and the name has that beginning and that end.
pub proof fn lemma_default_output_has_excluded_shape(directory: Seq<char>, timestamp: Seq<char>)
    ensures
        DEFAULT_EXCLUDE@ == negated(OUTPUT_PREFIX@ + seq!['*'] + OUTPUT_SUFFIX@),
        exists|middle: Seq<char>|
            default_output_name(directory, timestamp) == OUTPUT_PREFIX@ + middle + OUTPUT_SUFFIX@,
{
    reveal_strlit("!flatten-*.txt");
    reveal_strlit("flatten-");
    reveal_strlit(".txt");
    let stem = match stem_of(directory) {
        Some(s) => s,
        None => NAMELESS@,
    };
    let middle = stem + "-"@ + timestamp;
    assert(default_output_name(directory, timestamp) =~= OUTPUT_PREFIX@ + middle
        + OUTPUT_SUFFIX@);
}

} // verus!
