//! What is done with the entries of a walk: adding up the sizes of the files
//! among them, and writing each file into the output document.

use vstd::prelude::*;
use vstd::utf8::{decode_utf8, valid_utf8};
use ignore::WalkBuilder;
use syntect::parsing::SyntaxSet;
use crate::path::{extension, extension_of, relative, relative_to, same_components, same_path};
use crate::syntax::{
    find_name_by_extension, find_plain_text_name, has_name, load_syntaxes, name_for, syntaxes,
    Syntax, PLAIN_TEXT,
};
use crate::text::{lowercase, lowercased, text_of, views};
use crate::types::{ExcludeList, FilterSet, IncludeList};
use crate::walker::{
    add_override, added_globs, compile_overrides, error_text, globs_compile, new_overrides,
    new_walker, pending, set_hidden, set_overrides, set_require_git, settings, without_dot_slash,
    Globs, WalkSettings,
};

verus! {

/// Why a walker could not be set up.
#[derive(Debug)]
pub enum WalkError {
    /// The rule at `index` is not a glob that the walker can read.
    BadRule { index: usize, message: String },
    /// Each rule is a glob, but together they could not be made into a
    /// matcher.
    BadRuleSet { message: String },
}

/// The globs that a walker holds once it has taken every one of `rules`, in
/// order.
pub open spec fn globs_of(rules: Seq<Seq<char>>) -> Seq<Seq<char>>
    decreases rules.len(),
{
    if rules.len() == 0 {
        Seq::<Seq<char>>::empty()
    } else {
        match added_globs(rules.last()) {
            Some(added) => globs_of(rules.drop_last()) + added,
            None => globs_of(rules.drop_last()),
        }
    }
}

/// Whether the walker can read every one of `rules` as a glob.
pub open spec fn all_accepted(rules: Seq<Seq<char>>) -> bool {
    forall|i: int| 0 <= i < rules.len() ==> added_globs(#[trigger] rules[i]) is Some
}

/// Whether the rule at `index` is the first that the walker cannot read.
pub open spec fn first_refused(rules: Seq<Seq<char>>, index: int) -> bool {
    &&& 0 <= index < rules.len()
    &&& added_globs(rules[index]) is None
    &&& all_accepted(rules.take(index))
}

/// What the walker for `directory` is set to do: walk that directory, with
/// `rules` as its overrides, skipping hidden files unless they are allowed,
/// reading ignore files whether or not the directory lies in a git
/// repository, and not following symbolic links.
pub open spec fn walk_plan(directory: Seq<char>, rules: Seq<Seq<char>>, allow_hidden: bool)
    -> WalkSettings {
    WalkSettings {
        paths: seq![directory],
        overrides: Globs { root: without_dot_slash(directory), lines: globs_of(rules) },
        skip_hidden: !allow_hidden,
        require_git: false,
        follow_links: false,
    }
}

/// Sets up the walker for `directory`: the rules of `exclude`, then those of
/// `includes`, become its overrides, so that an include outranks every
/// exclude. Hidden files are skipped unless `allow_hidden` is set; a rule that
/// takes a hidden file in still does so. Symbolic links are not followed.
/// Nothing is read from disk before the walker is started.
///
/// Fails on the first rule that is not a glob, and where the rules cannot be
/// made into a matcher.
pub fn build_walker(
    directory: &str,
    exclude: &ExcludeList,
    includes: &IncludeList,
    allow_hidden: bool,
) -> (r: Result<WalkBuilder, WalkError>)
    ensures
        match r {
            Ok(walker) => {
                &&& all_accepted(exclude@ + includes@)
                &&& globs_compile(globs_of(exclude@ + includes@))
                &&& settings(walker) == walk_plan(directory@, exclude@ + includes@, allow_hidden)
            },
            Err(WalkError::BadRule { index, .. }) => first_refused(
                exclude@ + includes@,
                index as int,
            ),
            Err(WalkError::BadRuleSet { .. }) => {
                &&& all_accepted(exclude@ + includes@)
                &&& !globs_compile(globs_of(exclude@ + includes@))
            },
        },
{
    let set = FilterSet::from_lists(exclude, includes);
    let ghost rules = exclude@ + includes@;
    let mut overrides = new_overrides(directory);
    let mut i: usize = 0;
    while i < set.rules.len()
        invariant
            i <= set.rules.len(),
            rules == exclude@ + includes@,
            views(set.rules@) == rules,
            all_accepted(rules.take(i as int)),
            pending(overrides).strict,
            pending(overrides).globs == (Globs {
                root: without_dot_slash(directory@),
                lines: globs_of(rules.take(i as int)),
            }),
        decreases set.rules.len() - i,
    {
        proof {
            assert(rules.take(i + 1).drop_last() =~= rules.take(i as int));
        }
        match add_override(&mut overrides, set.rules[i].as_str()) {
            Ok(()) => {},
            Err(error) => {
                return Err(WalkError::BadRule { index: i, message: error_text(&error) });
            },
        }
        proof {
            assert forall|j: int| 0 <= j < i + 1 implies added_globs(
                #[trigger] rules.take(i + 1)[j],
            ) is Some by {
                if j < i {
                    assert(rules.take(i + 1)[j] == rules.take(i as int)[j]);
                }
            }
        }
        i += 1;
    }
    proof {
        assert(rules.take(set.rules.len() as int) =~= rules);
    }
    let matcher = match compile_overrides(&overrides) {
        Ok(matcher) => matcher,
        Err(error) => {
            return Err(WalkError::BadRuleSet { message: error_text(&error) });
        },
    };
    let mut walker = new_walker(directory);
    set_overrides(&mut walker, matcher);
    set_hidden(&mut walker, !allow_hidden);
    set_require_git(&mut walker, false);
    Ok(walker)
}

/// What kind of node a walk came upon.
#[derive(Debug, Clone, Copy, PartialEq, Eq, Structural)]
pub enum EntryKind {
    /// A plain file.
    File,
    /// A directory: walked through, never written out.
    Directory,
    /// Anything else.
    Other,
}

impl EntryKind {
    /// The kind of a node, from what the file system says of it: a plain
    /// file, else a directory, else something other.
    pub fn of(is_file: bool, is_dir: bool) -> (kind: EntryKind)
        ensures
            kind == (if is_file {
                EntryKind::File
            } else if is_dir {
                EntryKind::Directory
            } else {
                EntryKind::Other
            }),
    {
        if is_file {
            EntryKind::File
        } else if is_dir {
            EntryKind::Directory
        } else {
            EntryKind::Other
        }
    }
}

/// One node that a walk came upon: where it is, what it is, and how many
/// bytes it holds.
#[derive(Debug)]
pub struct TraversalEntry {
    /// The path of the node, resolved on disk.
    pub path: String,
    /// What the node is.
    pub kind: EntryKind,
    /// The length of the node in bytes.
    pub size: u64,
}

/// The bytes that the files among `entries` hold together.
pub open spec fn total_size(entries: Seq<TraversalEntry>) -> nat
    decreases entries.len(),
{
    if entries.len() == 0 {
        0
    } else {
        let before = total_size(entries.drop_last());
        if entries.last().kind == EntryKind::File {
            before + entries.last().size as nat
        } else {
            before
        }
    }
}

/// The total grows with every entry that is taken in.
pub proof fn lemma_total_size_grows(entries: Seq<TraversalEntry>, n: int)
    requires
        0 <= n <= entries.len(),
    ensures
        total_size(entries.take(n)) <= total_size(entries),
    decreases entries.len() - n,
{
    if n < entries.len() {
        assert(entries.take(n + 1).drop_last() =~= entries.take(n));
        lemma_total_size_grows(entries, n + 1);
    } else {
        assert(entries.take(n) =~= entries);
    }
}

/// The bytes of all files among `entries`; directories and other nodes count
/// for nothing. `None` where the total does not fit in 64 bits.
pub fn calculate_directory_size(entries: &Vec<TraversalEntry>) -> (total: Option<u64>)
    ensures
        match total {
            Some(t) => t == total_size(entries@),
            None => total_size(entries@) > u64::MAX,
        },
{
    let mut size: u64 = 0;
    let mut i: usize = 0;
    while i < entries.len()
        invariant
            i <= entries.len(),
            size == total_size(entries@.take(i as int)),
        decreases entries.len() - i,
    {
        proof {
            assert(entries@.take(i + 1).drop_last() =~= entries@.take(i as int));
        }
        if entries[i].kind == EntryKind::File {
            match size.checked_add(entries[i].size) {
                Some(sum) => {
                    size = sum;
                },
                None => {
                    proof {
                        lemma_total_size_grows(entries@, i + 1);
                    }
                    return None;
                },
            }
        }
        i += 1;
    }
    proof {
        assert(entries@.take(entries.len() as int) =~= entries@);
    }
    Some(size)
}

/// What stands in a block in place of contents that are not text.
pub const PLACEHOLDER: &'static str = "<non-UTF-8 data>";

/// The extension under which a file without one is looked up.
pub const DEFAULT_EXTENSION: &'static str = "txt";

/// One file that a walk came upon, with the bytes it holds.
#[derive(Debug)]
pub struct SourceFile {
    /// The node.
    pub entry: TraversalEntry,
    /// The bytes of the file; of no account for a node that is not admitted.
    pub contents: Vec<u8>,
}

/// Whether a node is written into the document: it is a plain file, and it
/// is not the document itself.
pub open spec fn admitted(kind: EntryKind, path: Seq<char>, output_file: Seq<char>) -> bool {
    kind == EntryKind::File && !same_components(path, output_file)
}

/// The language tag of a file: the lower-case name of the syntax for its
/// extension, or of the syntax for plain text where there is none. A file
/// without an extension counts as a `txt` file.
pub open spec fn language_tag_of(table: Seq<Syntax>, path: Seq<char>) -> Seq<char> {
    let looked_up = match extension_of(path) {
        Some(e) => e,
        None => DEFAULT_EXTENSION@,
    };
    match name_for(table, looked_up) {
        Some(name) => lowercased(name),
        None => lowercased(PLAIN_TEXT@),
    }
}

/// What a block shows of a file: its contents where they are text, the
/// placeholder where they are not.
pub open spec fn shown(contents: Seq<u8>) -> Seq<char> {
    if valid_utf8(contents) {
        decode_utf8(contents)
    } else {
        PLACEHOLDER@
    }
}

/// What stands between the two fences of a block: the body and the end of
/// its line. An empty body leaves nothing there, so that the fence closes at
/// once.
pub open spec fn fenced(body: Seq<char>) -> Seq<char> {
    if body.len() == 0 {
        Seq::<char>::empty()
    } else {
        body + "\n"@
    }
}

/// One block of the document: a header line with the name of the file, a
/// fence opened with the language tag, what stands between the fences, the
/// closing fence, and an empty line.
pub open spec fn block(name: Seq<char>, tag: Seq<char>, body: Seq<char>) -> Seq<char> {
    "## "@ + name + "\n"@ + "```"@ + tag + "\n"@ + fenced(body) + "```\n"@ + "\n"@
}

/// The block for the file at `path` in a walk of `directory`.
pub open spec fn block_of(
    table: Seq<Syntax>,
    directory: Seq<char>,
    path: Seq<char>,
    contents: Seq<u8>,
) -> Seq<char> {
    block(relative(path, directory), language_tag_of(table, path), shown(contents))
}

/// The document for `files`: one block for each admitted file, in the order
/// of the walk.
pub open spec fn document_of(
    table: Seq<Syntax>,
    directory: Seq<char>,
    output_file: Seq<char>,
    files: Seq<SourceFile>,
) -> Seq<char>
    decreases files.len(),
{
    if files.len() == 0 {
        Seq::<char>::empty()
    } else {
        let before = document_of(table, directory, output_file, files.drop_last());
        let last = files.last();
        if admitted(last.entry.kind, last.entry.path@, output_file) {
            before + block_of(table, directory, last.entry.path@, last.contents@)
        } else {
            before
        }
    }
}

/// Whether an entry is written into the document at `output_file`: plain
/// files only, and never the document itself.
pub fn is_admitted(entry: &TraversalEntry, output_file: &str) -> (r: bool)
    ensures
        r == admitted(entry.kind, entry.path@, output_file@),
{
    entry.kind == EntryKind::File && !same_path(entry.path.as_str(), output_file)
}

/// Writes the files of one walk into blocks.
pub struct ContentWriter {
    directory: String,
    output_file: String,
    syntaxes: SyntaxSet,
}

impl ContentWriter {
    #[verifier::type_invariant]
    spec fn knows_plain_text(&self) -> bool {
        has_name(syntaxes(self.syntaxes), PLAIN_TEXT@)
    }

    /// The directory that is walked.
    pub closed spec fn directory(&self) -> Seq<char> {
        self.directory@
    }

    /// The path of the document that is written.
    pub closed spec fn output_file(&self) -> Seq<char> {
        self.output_file@
    }

    /// The syntax definitions that the writer holds, and in which it looks
    /// languages up.
    pub closed spec fn table(&self) -> Seq<Syntax> {
        syntaxes(self.syntaxes)
    }

    /// A writer for a walk of `directory` whose document is `output_file`,
    /// both as they were resolved on disk. It holds the syntax definitions
    /// that come with the `syntect` crate, the one for plain text among them.
    pub fn new(directory: &str, output_file: &str) -> (writer: Self)
        ensures
            writer.directory() == directory@,
            writer.output_file() == output_file@,
            has_name(writer.table(), PLAIN_TEXT@),
    {
        ContentWriter {
            directory: directory.to_string(),
            output_file: output_file.to_string(),
            syntaxes: load_syntaxes(),
        }
    }

    /// Whether the node at `path` is written into the document: plain files
    /// only, and never the document itself.
    pub fn admits(&self, path: &str, kind: EntryKind) -> (r: bool)
        ensures
            r == admitted(kind, path@, self.output_file()),
    {
        kind == EntryKind::File && !same_path(path, self.output_file.as_str())
    }

    /// The language tag for the file at `path`.
    pub fn language_tag(&self, path: &str) -> (tag: String)
        ensures
            tag@ == language_tag_of(self.table(), path@),
    {
        proof {
            use_type_invariant(self);
        }
        let found = match extension(path) {
            Some(e) => find_name_by_extension(&self.syntaxes, e.as_str()),
            None => find_name_by_extension(&self.syntaxes, DEFAULT_EXTENSION),
        };
        match found {
            Some(name) => lowercase(name.as_str()),
            None => lowercase(find_plain_text_name(&self.syntaxes).as_str()),
        }
    }

    /// The block for the file at `path` that holds `contents`. Where the
    /// contents are empty the fence closes at once.
    pub fn block(&self, path: &str, contents: &[u8]) -> (text: String)
        ensures
            text@ == block_of(self.table(), self.directory(), path@, contents@),
    {
        let mut text = "## ".to_string();
        text.append(relative_to(path, self.directory.as_str()).as_str());
        text.append("\n");
        text.append("```");
        text.append(self.language_tag(path).as_str());
        text.append("\n");
        match text_of(contents) {
            Some(body) => {
                proof {
                    vstd::utf8::encode_utf8_decode_utf8(body@);
                }
                if !body.is_empty() {
                    text.append(body);
                    text.append("\n");
                }
            },
            None => {
                proof {
                    reveal_strlit("<non-UTF-8 data>");
                }
                text.append(PLACEHOLDER);
                text.append("\n");
            },
        }
        text.append("```\n");
        text.append("\n");
        text
    }

    /// The document for `files`: the blocks of the admitted files, one after
    /// the other in the order of `files`.
    pub fn document(&self, files: &Vec<SourceFile>) -> (text: String)
        ensures
            text@ == document_of(self.table(), self.directory(), self.output_file(), files@),
    {
        let mut text = String::new();
        let mut i: usize = 0;
        while i < files.len()
            invariant
                i <= files.len(),
                text@ == document_of(
                    self.table(),
                    self.directory(),
                    self.output_file(),
                    files@.take(i as int),
                ),
            decreases files.len() - i,
        {
            proof {
                assert(files@.take(i + 1).drop_last() =~= files@.take(i as int));
            }
            if self.admits(files[i].entry.path.as_str(), files[i].entry.kind) {
                let next = self.block(files[i].entry.path.as_str(), files[i].contents.as_slice());
                text.append(next.as_str());
            }
            i += 1;
        }
        proof {
            assert(files@.take(files.len() as int) =~= files@);
        }
        text
    }
}

/// The document for the files of a walk of `directory`, where the document
/// itself is at `output_file`: one block for each plain file other than the
/// document, in the order of `files`. Languages are looked up in the syntax
/// definitions that come with the `syntect` crate, which hold the syntax for
/// plain text; the document is the one that those definitions give.
pub fn process_files(directory: &str, output_file: &str, files: &Vec<SourceFile>) -> (text: String)
    ensures
        exists|table: Seq<Syntax>|
            has_name(table, PLAIN_TEXT@) && text@ == #[trigger] document_of(
                table,
                directory@,
                output_file@,
                files@,
            ),
{
    let writer = ContentWriter::new(directory, output_file);
    let text = writer.document(files);
    proof {
        assert(text@ == document_of(writer.table(), directory@, output_file@, files@));
    }
    text
}

/// Whether a file lies elsewhere than the document.
pub open spec fn is_elsewhere(file: SourceFile, output_file: Seq<char>) -> bool {
    !same_components(file.entry.path@, output_file)
}

/// The files among `files` that lie elsewhere than the document.
pub open spec fn files_elsewhere(files: Seq<SourceFile>, output_file: Seq<char>) -> Seq<
    SourceFile,
> {
    files.filter(|f: SourceFile| is_elsewhere(f, output_file))
}

/// The document never holds itself: whether or not a walk comes upon the
/// document, what is written is the same.
pub proof fn lemma_document_leaves_itself_out(
    table: Seq<Syntax>,
    directory: Seq<char>,
    output_file: Seq<char>,
    files: Seq<SourceFile>,
)
    ensures
        document_of(table, directory, output_file, files) == document_of(
            table,
            directory,
            output_file,
            files_elsewhere(files, output_file),
        ),
    decreases files.len(),
{
    reveal(Seq::filter);
    if files.len() > 0 {
        lemma_document_leaves_itself_out(table, directory, output_file, files.drop_last());
        let kept = files_elsewhere(files.drop_last(), output_file);
        if is_elsewhere(files.last(), output_file) {
            assert(kept.push(files.last()).drop_last() =~= kept);
        }
    }
}

/// The plain files among `files`.
pub open spec fn plain_files(files: Seq<SourceFile>) -> Seq<SourceFile> {
    files.filter(|f: SourceFile| f.entry.kind == EntryKind::File)
}

/// Only plain files are written: the directories and other nodes that a walk
/// comes upon leave nothing in the document.
pub proof fn lemma_document_holds_files_only(
    table: Seq<Syntax>,
    directory: Seq<char>,
    output_file: Seq<char>,
    files: Seq<SourceFile>,
)
    ensures
        document_of(table, directory, output_file, files) == document_of(
            table,
            directory,
            output_file,
            plain_files(files),
        ),
    decreases files.len(),
{
    reveal(Seq::filter);
    if files.len() > 0 {
        lemma_document_holds_files_only(table, directory, output_file, files.drop_last());
        let kept = plain_files(files.drop_last());
        if files.last().entry.kind == EntryKind::File {
            assert(kept.push(files.last()).drop_last() =~= kept);
        }
    }
}

/// The plain files among `entries`.
pub open spec fn plain_entries(entries: Seq<TraversalEntry>) -> Seq<TraversalEntry> {
    entries.filter(|e: TraversalEntry| e.kind == EntryKind::File)
}

/// Only plain files are counted: the directories and other nodes that a walk
/// comes upon add nothing to the total.
pub proof fn lemma_size_counts_files_only(entries: Seq<TraversalEntry>)
    ensures
        total_size(entries) == total_size(plain_entries(entries)),
    decreases entries.len(),
{
    reveal(Seq::filter);
    if entries.len() > 0 {
        lemma_size_counts_files_only(entries.drop_last());
        let kept = plain_entries(entries.drop_last());
        if entries.last().kind == EntryKind::File {
            assert(kept.push(entries.last()).drop_last() =~= kept);
        }
    }
}

/// Whether two walks came upon the same files with the same contents, in the
/// same order.
pub open spec fn same_walk(a: Seq<SourceFile>, b: Seq<SourceFile>) -> bool {
    &&& a.len() == b.len()
    &&& forall|i: int|
        0 <= i < a.len() ==> {
            &&& (#[trigger] a[i]).entry.path@ == b[i].entry.path@
            &&& a[i].entry.kind == b[i].entry.kind
            &&& a[i].contents@ == b[i].contents@
        }
}

/// A second run on an unchanged tree writes the same document: the document
/// is decided by the paths, the kinds and the contents that the walk came
/// upon, and by nothing else.
pub proof fn lemma_same_walk_same_document(
    table: Seq<Syntax>,
    directory: Seq<char>,
    output_file: Seq<char>,
    a: Seq<SourceFile>,
    b: Seq<SourceFile>,
)
    requires
        same_walk(a, b),
    ensures
        document_of(table, directory, output_file, a) == document_of(
            table,
            directory,
            output_file,
            b,
        ),
    decreases a.len(),
{
    if a.len() > 0 {
        assert forall|i: int| 0 <= i < a.drop_last().len() implies {
            &&& (#[trigger] a.drop_last()[i]).entry.path@ == b.drop_last()[i].entry.path@
            &&& a.drop_last()[i].entry.kind == b.drop_last()[i].entry.kind
            &&& a.drop_last()[i].contents@ == b.drop_last()[i].contents@
        } by {
            assert(a.drop_last()[i] == a[i]);
        }
        lemma_same_walk_same_document(table, directory, output_file, a.drop_last(), b.drop_last());
    }
}

/// Whether two walks came upon nodes of the same kinds and sizes, in the same
/// order.
pub open spec fn same_sizes(a: Seq<TraversalEntry>, b: Seq<TraversalEntry>) -> bool {
    &&& a.len() == b.len()
    &&& forall|i: int|
        0 <= i < a.len() ==> (#[trigger] a[i]).kind == b[i].kind && a[i].size == b[i].size
}

/// A second run on an unchanged tree finds the same total size.
pub proof fn lemma_same_sizes_same_total(a: Seq<TraversalEntry>, b: Seq<TraversalEntry>)
    requires
        same_sizes(a, b),
    ensures
        total_size(a) == total_size(b),
    decreases a.len(),
{
    if a.len() > 0 {
        assert forall|i: int| 0 <= i < a.drop_last().len() implies (
        #[trigger] a.drop_last()[i]).kind == b.drop_last()[i].kind && a.drop_last()[i].size
            == b.drop_last()[i].size by {
            assert(a.drop_last()[i] == a[i]);
        }
        lemma_same_sizes_same_total(a.drop_last(), b.drop_last());
    }
}

} // verus!
