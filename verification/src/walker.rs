//! The directory walker of the `ignore` crate, as far as this library sets it
//! up: a set of override globs, and the settings of the walker.
//!
//! Nothing in this file is proved. Each function hands one call on to the
//! `ignore` crate, and its contract says what that crate's source shows of
//! the call. The walk itself reads the disk and is not started here.

use vstd::prelude::*;
use ignore::overrides::{Override, OverrideBuilder};
use ignore::WalkBuilder;

verus! {

#[verifier::external_type_specification]
#[verifier::external_body]
pub struct ExOverrideBuilder(OverrideBuilder);

#[verifier::external_type_specification]
#[verifier::external_body]
pub struct ExOverride(Override);

#[verifier::external_type_specification]
#[verifier::external_body]
pub struct ExWalkBuilder(WalkBuilder);

#[verifier::external_type_specification]
#[verifier::external_body]
pub struct ExIgnoreError(ignore::Error);

/// A set of override globs: the directory against which they are matched,
/// and the globs in the order in which they were added. A glob takes what it
/// matches or, written behind `!`, skips it; a later glob outranks an earlier
/// one. Where at least one glob takes, a file that no glob matches is
/// skipped.
pub struct Globs {
    pub root: Seq<char>,
    pub lines: Seq<Seq<char>>,
}

/// What a builder of overrides holds: the globs added so far, and whether it
/// reads globs strictly, which is to say that it refuses a character class
/// that is not closed.
pub struct PendingGlobs {
    pub globs: Globs,
    pub strict: bool,
}

/// What a walker is set to do, as far as this library sets it.
pub struct WalkSettings {
    /// The directories to walk.
    pub paths: Seq<Seq<char>>,
    /// The override globs. A path that one of them matches is taken or
    /// skipped as that glob says, whatever ignore files and the rule on
    /// hidden files say.
    pub overrides: Globs,
    /// Whether hidden files and directories are skipped.
    pub skip_hidden: bool,
    /// Whether `.gitignore` files count only inside a git repository.
    pub require_git: bool,
    /// Whether symbolic links are followed.
    pub follow_links: bool,
}

/// No globs, matched against no directory.
pub open spec fn no_globs() -> Globs {
    Globs { root: Seq::<char>::empty(), lines: Seq::<Seq<char>>::empty() }
}

/// `root` without a leading `./`.
pub open spec fn without_dot_slash(root: Seq<char>) -> Seq<char> {
    if root.len() >= 2 && root[0] == '.' && root[1] == '/' {
        root.skip(2)
    } else {
        root
    }
}

/// What an `OverrideBuilder` holds.
pub uninterp spec fn pending(builder: OverrideBuilder) -> PendingGlobs;

/// What a strict `OverrideBuilder` makes of one line: `None` where it refuses
/// the line as a glob; else the globs that the line adds, which are none for
/// a blank line or a comment and one for any other line.
pub uninterp spec fn added_globs(line: Seq<char>) -> Option<Seq<Seq<char>>>;

/// Whether a strict `OverrideBuilder` that holds these globs can be built
/// into a matcher.
pub uninterp spec fn globs_compile(lines: Seq<Seq<char>>) -> bool;

/// The globs of an `Override`.
pub uninterp spec fn compiled(overrides: Override) -> Globs;

/// The settings of a `WalkBuilder`.
pub uninterp spec fn settings(walker: WalkBuilder) -> WalkSettings;

/// `OverrideBuilder::new`: a strict builder without globs, which matches
/// against `root`. The crate drops a leading `./` from the root (by bytes, on
/// Unix).
#[verifier::external_body]
pub(crate) fn new_overrides(root: &str) -> (builder: OverrideBuilder)
    ensures
        pending(builder) == (PendingGlobs {
            globs: Globs { root: without_dot_slash(root@), lines: Seq::<Seq<char>>::empty() },
            strict: true,
        }),
{
    OverrideBuilder::new(root)
}

/// `OverrideBuilder::add`: hands one line to the builder. The builder either
/// refuses the line and stays as it was, or appends what the line adds. A
/// line means what a line of a gitignore file means, but for `!`: with it the
/// glob skips what it matches, without it the glob takes what it matches.
#[verifier::external_body]
pub(crate) fn add_override(builder: &mut OverrideBuilder, line: &str) -> (r: Result<
    (),
    ignore::Error,
>)
    requires
        pending(*old(builder)).strict,
    ensures
        r is Ok <==> added_globs(line@) is Some,
        pending(*final(builder)) == (match added_globs(line@) {
            Some(added) => PendingGlobs {
                globs: Globs {
                    root: pending(*old(builder)).globs.root,
                    lines: pending(*old(builder)).globs.lines + added,
                },
                strict: true,
            },
            None => pending(*old(builder)),
        }),
{
    match builder.add(line) {
        Ok(_) => Ok(()),
        Err(error) => Err(error),
    }
}

/// `OverrideBuilder::build`: the matcher for the globs that the builder
/// holds, with the same root.
#[verifier::external_body]
pub(crate) fn compile_overrides(builder: &OverrideBuilder) -> (r: Result<Override, ignore::Error>)
    requires
        pending(*builder).strict,
    ensures
        r is Ok <==> globs_compile(pending(*builder).globs.lines),
        r is Ok ==> compiled(r->Ok_0) == pending(*builder).globs,
{
    builder.build()
}

/// `WalkBuilder::new`: a walker for one directory, as the crate sets it up by
/// default: without overrides, skipping hidden files, reading `.gitignore`
/// files only inside a git repository, and not following symbolic links.
#[verifier::external_body]
pub(crate) fn new_walker(path: &str) -> (walker: WalkBuilder)
    ensures
        settings(walker) == (WalkSettings {
            paths: seq![path@],
            overrides: no_globs(),
            skip_hidden: true,
            require_git: true,
            follow_links: false,
        }),
{
    WalkBuilder::new(path)
}

/// `WalkBuilder::overrides`: replaces the walker's override globs.
#[verifier::external_body]
pub(crate) fn set_overrides(walker: &mut WalkBuilder, overrides: Override)
    ensures
        settings(*final(walker)) == (WalkSettings {
            overrides: compiled(overrides),
            ..settings(*old(walker))
        }),
{
    walker.overrides(overrides);
}

/// `WalkBuilder::hidden`: sets whether hidden files are skipped.
#[verifier::external_body]
pub(crate) fn set_hidden(walker: &mut WalkBuilder, yes: bool)
    ensures
        settings(*final(walker)) == (WalkSettings { skip_hidden: yes, ..settings(*old(walker)) }),
{
    walker.hidden(yes);
}

/// `WalkBuilder::require_git`: sets whether `.gitignore` files count only
/// inside a git repository.
#[verifier::external_body]
pub(crate) fn set_require_git(walker: &mut WalkBuilder, yes: bool)
    ensures
        settings(*final(walker)) == (WalkSettings { require_git: yes, ..settings(*old(walker)) }),
{
    walker.require_git(yes);
}

/// The message of an error of the `ignore` crate, as its `Display` writes it.
/// Nothing is claimed of the text.
#[verifier::external_body]
pub(crate) fn error_text(error: &ignore::Error) -> (text: String) {
    error.to_string()
}

} // verus!
