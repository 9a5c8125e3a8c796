//! The rules that decide which paths a walk takes in: exclude and include
//! patterns, each made from a path that was resolved on disk, and the ordered
//! set of rules that the two lists make together.
//!
//! A pattern is a path relative to the root of the walk. A pattern that begins
//! with `!` removes what it matches; any other pattern admits what it matches.
//! Where several rules match one path, the last of them decides.

use vstd::prelude::*;
use crate::path::{
    has_root, is_under, lemma_relative_has_no_root, lemma_spellings_leave_the_same, relative,
    relative_to, same_components, same_path,
};
use crate::text::views;

verus! {

/// The rule that keeps earlier output of this tool out of a walk. It is part
/// of every exclude list.
pub const DEFAULT_EXCLUDE: &'static str = "!flatten-*.txt";

/// The pattern that removes what `pattern` matches.
pub open spec fn negated(pattern: Seq<char>) -> Seq<char> {
    seq!['!'] + pattern
}

/// Whether a rule removes what it matches.
pub open spec fn is_negated(rule: Seq<char>) -> bool {
    rule.len() > 0 && rule[0] == '!'
}

/// The pattern that admits `resolved`, a path as it was resolved on disk, in
/// a walk of `base_dir`.
pub open spec fn include_pattern(base_dir: Seq<char>, resolved: Seq<char>) -> Seq<char> {
    relative(resolved, base_dir)
}

/// The pattern that removes `resolved` from a walk of `base_dir`.
pub open spec fn exclude_pattern(base_dir: Seq<char>, resolved: Seq<char>) -> Seq<char> {
    negated(relative(resolved, base_dir))
}

/// The include patterns of the paths that were resolved, in order. A path
/// that could not be resolved leaves no pattern.
pub open spec fn include_patterns(base_dir: Seq<char>, resolved: Seq<Option<String>>) -> Seq<
    Seq<char>,
>
    decreases resolved.len(),
{
    if resolved.len() == 0 {
        Seq::<Seq<char>>::empty()
    } else {
        let before = include_patterns(base_dir, resolved.drop_last());
        match resolved.last() {
            Some(p) => before.push(include_pattern(base_dir, p@)),
            None => before,
        }
    }
}

/// The exclude patterns of the paths that were resolved, in order.
pub open spec fn exclude_patterns(base_dir: Seq<char>, resolved: Seq<Option<String>>) -> Seq<
    Seq<char>,
>
    decreases resolved.len(),
{
    if resolved.len() == 0 {
        Seq::<Seq<char>>::empty()
    } else {
        let before = exclude_patterns(base_dir, resolved.drop_last());
        match resolved.last() {
            Some(p) => before.push(exclude_pattern(base_dir, p@)),
            None => before,
        }
    }
}

/// The rules of an exclude list: the default rule, then one for each
/// resolved path.
pub open spec fn exclude_rules(base_dir: Seq<char>, resolved: Seq<Option<String>>) -> Seq<
    Seq<char>,
> {
    seq![DEFAULT_EXCLUDE@] + exclude_patterns(base_dir, resolved)
}

/// Whether one of `rules` names the same path as `path`.
pub open spec fn lists_path(rules: Seq<Seq<char>>, path: Seq<char>) -> bool {
    exists|i: int| 0 <= i < rules.len() && same_components(#[trigger] rules[i], path)
}

/// A rule that removes one path from a walk.
#[derive(Debug)]
pub struct ExcludeItem(String);

impl ExcludeItem {
    /// The pattern of the rule.
    pub closed spec fn view(&self) -> Seq<char> {
        self.0@
    }

    /// The rule that removes a path from a walk of `base_dir`. `resolved` is
    /// the path as it was resolved on disk, or `None` where it could not be
    /// resolved; such a path makes no rule.
    pub fn new(base_dir: &str, resolved: Option<&str>) -> (item: Option<Self>)
        ensures
            match resolved {
                Some(p) => item is Some && item->0@ == exclude_pattern(base_dir@, p@),
                None => item is None,
            },
    {
        match resolved {
            Some(p) => {
                let mut pattern = "!".to_string();
                pattern.append(relative_to(p, base_dir).as_str());
                proof {
                    reveal_strlit("!");
                }
                Some(ExcludeItem(pattern))
            },
            None => None,
        }
    }

    /// The pattern of the rule.
    pub fn pattern(&self) -> (p: &String)
        ensures
            p@ == self@,
    {
        &self.0
    }
}

/// A rule that admits one path into a walk.
#[derive(Debug)]
pub struct IncludeItem(String);

impl IncludeItem {
    /// The pattern of the rule.
    pub closed spec fn view(&self) -> Seq<char> {
        self.0@
    }

    /// The rule that admits a path into a walk of `base_dir`. `resolved` is
    /// the path as it was resolved on disk, or `None` where it could not be
    /// resolved; such a path makes no rule.
    pub fn new(base_dir: &str, resolved: Option<&str>) -> (item: Option<Self>)
        ensures
            match resolved {
                Some(p) => item is Some && item->0@ == include_pattern(base_dir@, p@),
                None => item is None,
            },
    {
        match resolved {
            Some(p) => Some(IncludeItem(relative_to(p, base_dir))),
            None => None,
        }
    }

    /// The pattern of the rule.
    pub fn pattern(&self) -> (p: &String)
        ensures
            p@ == self@,
    {
        &self.0
    }
}

/// The items of a list as a text lists them: each followed by a comma and a
/// space.
pub open spec fn listed(items: Seq<Seq<char>>) -> Seq<char>
    decreases items.len(),
{
    if items.len() == 0 {
        Seq::<char>::empty()
    } else {
        listed(items.drop_last()) + items.last() + seq![',', ' ']
    }
}

/// A list under its name: the name, `: [`, the items and `]`.
pub open spec fn labelled(label: Seq<char>, items: Seq<Seq<char>>) -> Seq<char> {
    label + seq![':', ' ', '['] + listed(items) + seq![']']
}

fn label_list(label: &str, items: &Vec<String>) -> (text: String)
    ensures
        text@ == labelled(label@, views(items@)),
{
    let mut text = label.to_string();
    text.append(": [");
    proof {
        reveal_strlit(": [");
    }
    let mut i: usize = 0;
    while i < items.len()
        invariant
            i <= items.len(),
            text@ == label@ + seq![':', ' ', '['] + listed(views(items@).take(i as int)),
        decreases items.len() - i,
    {
        let ghost upto = views(items@).take(i + 1);
        proof {
            reveal_strlit(", ");
            assert(upto.drop_last() =~= views(items@).take(i as int));
        }
        text.append(items[i].as_str());
        text.append(", ");
        i += 1;
    }
    text.append("]");
    proof {
        reveal_strlit("]");
        assert(views(items@).take(items.len() as int) =~= views(items@));
    }
    text
}

fn lists(rules: &Vec<String>, path: &str) -> (r: bool)
    ensures
        r == lists_path(views(rules@), path@),
{
    let mut i: usize = 0;
    while i < rules.len()
        invariant
            i <= rules.len(),
            forall|j: int| 0 <= j < i ==> !same_components(#[trigger] views(rules@)[j], path@),
        decreases rules.len() - i,
    {
        if same_path(rules[i].as_str(), path) {
            proof {
                assert(same_components(views(rules@)[i as int], path@));
            }
            return true;
        }
        i += 1;
    }
    false
}

/// The rules that remove paths from a walk: the default rule, then one for
/// each path that the user excluded and that was found on disk.
#[derive(Debug)]
pub struct ExcludeList(pub Vec<String>);

impl ExcludeList {
    /// The patterns of the rules, in order.
    pub open spec fn view(&self) -> Seq<Seq<char>> {
        views(self.0@)
    }

    /// The exclude list for a walk of `base_dir`. `excludes` holds, for each
    /// path that the user excluded, the path as it was resolved on disk, or
    /// `None` where it could not be resolved; such a path is left out.
    pub fn new(base_dir: &str, excludes: Vec<Option<String>>) -> (list: Self)
        ensures
            list@ == exclude_rules(base_dir@, excludes@),
    {
        let mut rules: Vec<String> = Vec::new();
        rules.push(DEFAULT_EXCLUDE.to_string());
        let mut i: usize = 0;
        while i < excludes.len()
            invariant
                i <= excludes.len(),
                views(rules@) == seq![DEFAULT_EXCLUDE@] + exclude_patterns(
                    base_dir@,
                    excludes@.take(i as int),
                ),
            decreases excludes.len() - i,
        {
            let ghost before = views(rules@);
            proof {
                assert(excludes@.take(i + 1).drop_last() =~= excludes@.take(i as int));
            }
            let resolved: Option<&str> = match &excludes[i] {
                Some(p) => Some(p.as_str()),
                None => None,
            };
            match ExcludeItem::new(base_dir, resolved) {
                Some(item) => {
                    rules.push(item.0);
                    proof {
                        assert(views(rules@) =~= before.push(item@));
                    }
                },
                None => {},
            }
            i += 1;
        }
        proof {
            assert(excludes@.take(excludes.len() as int) =~= excludes@);
        }
        ExcludeList(rules)
    }

    /// Whether one of the rules is written exactly as `path` is, component by
    /// component.
    pub fn contains(&self, path: &str) -> (r: bool)
        ensures
            r == lists_path(self@, path@),
    {
        lists(&self.0, path)
    }

    /// The list as a text: `ExcludeList: [`, each pattern followed by a comma
    /// and a space, and `]`.
    pub fn to_string(&self) -> (text: String)
        ensures
            text@ == labelled("ExcludeList"@, self@),
    {
        label_list("ExcludeList", &self.0)
    }
}

/// The rules that admit paths into a walk: one for each path that the user
/// included and that was found on disk.
#[derive(Debug)]
pub struct IncludeList(pub Vec<String>);

impl IncludeList {
    /// The patterns of the rules, in order.
    pub open spec fn view(&self) -> Seq<Seq<char>> {
        views(self.0@)
    }

    /// The include list for a walk of `base_dir`. `includes` holds, for each
    /// path that the user included, the path as it was resolved on disk, or
    /// `None` where it could not be resolved; such a path is left out.
    pub fn new(base_dir: &str, includes: Vec<Option<String>>) -> (list: Self)
        ensures
            list@ == include_patterns(base_dir@, includes@),
    {
        let mut rules: Vec<String> = Vec::new();
        let mut i: usize = 0;
        while i < includes.len()
            invariant
                i <= includes.len(),
                views(rules@) == include_patterns(base_dir@, includes@.take(i as int)),
            decreases includes.len() - i,
        {
            let ghost before = views(rules@);
            proof {
                assert(includes@.take(i + 1).drop_last() =~= includes@.take(i as int));
            }
            let resolved: Option<&str> = match &includes[i] {
                Some(p) => Some(p.as_str()),
                None => None,
            };
            match IncludeItem::new(base_dir, resolved) {
                Some(item) => {
                    rules.push(item.0);
                },
                None => {},
            }
            i += 1;
        }
        proof {
            assert(includes@.take(includes.len() as int) =~= includes@);
        }
        IncludeList(rules)
    }

    /// Whether one of the rules is written exactly as `path` is, component by
    /// component.
    pub fn contains(&self, path: &str) -> (r: bool)
        ensures
            r == lists_path(self@, path@),
    {
        lists(&self.0, path)
    }

    /// The list as a text: `IncludeList: [`, each pattern followed by a comma
    /// and a space, and `]`.
    pub fn to_string(&self) -> (text: String)
        ensures
            text@ == labelled("IncludeList"@, self@),
    {
        label_list("IncludeList", &self.0)
    }
}

/// The rules of a walk of `root`, from the paths as they were resolved on
/// disk: the default rule, the rules of the excluded paths, then the rules
/// of the included paths.
pub open spec fn filter_rules(
    root: Seq<char>,
    excludes: Seq<Option<String>>,
    includes: Seq<Option<String>>,
) -> Seq<Seq<char>> {
    exclude_rules(root, excludes) + include_patterns(root, includes)
}

/// Whether, among the rules that speak of `pattern`, the last word is to take
/// it in: one of the rules is `pattern` itself, no rule after it is the
/// pattern negated, and the pattern does not itself read as a negated rule.
pub open spec fn include_decides(rules: Seq<Seq<char>>, pattern: Seq<char>) -> bool {
    &&& !is_negated(pattern)
    &&& exists|i: int|
        0 <= i < rules.len() && #[trigger] rules[i] == pattern && forall|j: int|
            i < j < rules.len() ==> #[trigger] rules[j] != negated(pattern)
}

/// All rules of one walk, in the order in which they apply: the rules that
/// remove paths first, the rules that admit paths after them. Where two rules
/// speak of one path, the later one decides.
#[derive(Debug)]
pub struct FilterSet {
    /// The patterns of the rules, in the order in which they apply.
    pub rules: Vec<String>,
}

impl FilterSet {
    /// The patterns of the rules, in order.
    pub open spec fn view(&self) -> Seq<Seq<char>> {
        views(self.rules@)
    }

    /// The rules of `exclude`, followed by those of `includes`.
    pub fn from_lists(exclude: &ExcludeList, includes: &IncludeList) -> (set: Self)
        ensures
            set@ == exclude@ + includes@,
    {
        let mut rules: Vec<String> = Vec::new();
        let mut i: usize = 0;
        while i < exclude.0.len()
            invariant
                i <= exclude.0.len(),
                views(rules@) == exclude@.take(i as int),
            decreases exclude.0.len() - i,
        {
            rules.push(exclude.0[i].clone());
            proof {
                assert(views(rules@) =~= exclude@.take(i as int).push(exclude.0@[i as int]@));
            }
            i += 1;
        }
        let mut k: usize = 0;
        while k < includes.0.len()
            invariant
                k <= includes.0.len(),
                views(rules@) == exclude@ + includes@.take(k as int),
            decreases includes.0.len() - k,
        {
            rules.push(includes.0[k].clone());
            proof {
                assert(views(rules@) =~= (exclude@ + includes@.take(k as int)).push(
                    includes.0@[k as int]@,
                ));
            }
            k += 1;
        }
        FilterSet { rules }
    }

    /// The rules of a walk of `root`. `excludes` and `includes` hold, for
    /// each path that the user gave, the path as it was resolved on disk, or
    /// `None` where it could not be resolved; such a path is left out.
    pub fn build(root: &str, excludes: Vec<Option<String>>, includes: Vec<Option<String>>) -> (set:
        Self)
        ensures
            set@ == filter_rules(root@, excludes@, includes@),
    {
        let exclude = ExcludeList::new(root, excludes);
        let taken = IncludeList::new(root, includes);
        FilterSet::from_lists(&exclude, &taken)
    }
}

/// Every rule of an exclude list removes what it matches.
pub proof fn lemma_exclude_rules_are_negated(base_dir: Seq<char>, resolved: Seq<Option<String>>)
    ensures
        forall|i: int|
            0 <= i < exclude_rules(base_dir, resolved).len() ==> is_negated(
                #[trigger] exclude_rules(base_dir, resolved)[i],
            ),
{
    reveal_strlit("!flatten-*.txt");
    lemma_exclude_patterns_are_negated(base_dir, resolved);
}

proof fn lemma_exclude_patterns_are_negated(base_dir: Seq<char>, resolved: Seq<Option<String>>)
    ensures
        forall|i: int|
            0 <= i < exclude_patterns(base_dir, resolved).len() ==> is_negated(
                #[trigger] exclude_patterns(base_dir, resolved)[i],
            ),
    decreases resolved.len(),
{
    if resolved.len() > 0 {
        lemma_exclude_patterns_are_negated(base_dir, resolved.drop_last());
        let all = exclude_patterns(base_dir, resolved);
        let before = exclude_patterns(base_dir, resolved.drop_last());
        assert forall|i: int| 0 <= i < all.len() implies is_negated(#[trigger] all[i]) by {
            if i < before.len() {
                assert(all[i] == before[i]);
            }
        }
    }
}

/// Each resolved path has its pattern in the include list.
pub proof fn lemma_include_patterns_hold(
    base_dir: Seq<char>,
    resolved: Seq<Option<String>>,
    k: int,
)
    requires
        0 <= k < resolved.len(),
        resolved[k] is Some,
    ensures
        include_patterns(base_dir, resolved).contains(include_pattern(base_dir, resolved[k]->0@)),
    decreases resolved.len(),
{
    let all = include_patterns(base_dir, resolved);
    if k == resolved.len() - 1 {
        assert(all.last() == include_pattern(base_dir, resolved[k]->0@));
    } else {
        lemma_include_patterns_hold(base_dir, resolved.drop_last(), k);
        let before = include_patterns(base_dir, resolved.drop_last());
        let i = choose|i: int|
            0 <= i < before.len() && before[i] == include_pattern(base_dir, resolved[k]->0@);
        assert(all[i] == before[i]);
    }
}

/// Each pattern of the include list is the pattern of a resolved path.
pub proof fn lemma_include_patterns_come_from_paths(
    base_dir: Seq<char>,
    resolved: Seq<Option<String>>,
    i: int,
) -> (k: int)
    requires
        0 <= i < include_patterns(base_dir, resolved).len(),
    ensures
        0 <= k < resolved.len(),
        resolved[k] is Some,
        include_patterns(base_dir, resolved)[i] == include_pattern(base_dir, resolved[k]->0@),
    decreases resolved.len(),
{
    let before = include_patterns(base_dir, resolved.drop_last());
    if i < before.len() {
        lemma_include_patterns_come_from_paths(base_dir, resolved.drop_last(), i)
    } else {
        resolved.len() - 1
    }
}

/// An include outranks every exclude. Where a path is among the included
/// paths, the last rule that speaks of its pattern is the include, whatever
/// the excluded paths are and wherever the path stands in its list.
///
/// This is stated of a pattern that does not begin with `!`, and of lists in
/// which no included path has that pattern with a `!` before it as its own
/// pattern: a rule that begins with `!` reads as one that removes. What a
/// walker makes of a rule is its own matter: one that is empty or begins with
/// `#` is no glob to it.
pub proof fn lemma_include_outranks_exclude(
    root: Seq<char>,
    excludes: Seq<Option<String>>,
    includes: Seq<Option<String>>,
    k: int,
)
    requires
        0 <= k < includes.len(),
        includes[k] is Some,
        !is_negated(include_pattern(root, includes[k]->0@)),
        forall|j: int|
            0 <= j < includes.len() && includes[j] is Some ==> include_pattern(
                root,
                #[trigger] includes[j]->0@,
            ) != negated(include_pattern(root, includes[k]->0@)),
    ensures
        include_decides(
            filter_rules(root, excludes, includes),
            include_pattern(root, includes[k]->0@),
        ),
{
    let rules = filter_rules(root, excludes, includes);
    let first = exclude_rules(root, excludes);
    let second = include_patterns(root, includes);
    let pattern = include_pattern(root, includes[k]->0@);
    lemma_include_patterns_hold(root, includes, k);
    let at = choose|i: int| 0 <= i < second.len() && second[i] == pattern;
    let i = first.len() + at;
    assert(rules[i] == pattern);
    assert forall|j: int| i < j < rules.len() implies #[trigger] rules[j] != negated(pattern) by {
        let from = lemma_include_patterns_come_from_paths(root, includes, j - first.len());
    }
}

/// Whether two lists of resolved paths hold the same texts at the same
/// places.
pub open spec fn same_paths(a: Seq<Option<String>>, b: Seq<Option<String>>) -> bool {
    &&& a.len() == b.len()
    &&& forall|i: int|
        0 <= i < a.len() ==> match (#[trigger] a[i], b[i]) {
            (Some(x), Some(y)) => x@ == y@,
            (None, None) => true,
            _ => false,
        }
}

proof fn lemma_same_paths_drop_last(a: Seq<Option<String>>, b: Seq<Option<String>>)
    requires
        same_paths(a, b),
        a.len() > 0,
    ensures
        same_paths(a.drop_last(), b.drop_last()),
        match (a.last(), b.last()) {
            (Some(x), Some(y)) => x@ == y@,
            (None, None) => true,
            _ => false,
        },
{
    assert forall|i: int| 0 <= i < a.drop_last().len() implies match (
        #[trigger] a.drop_last()[i],
        b.drop_last()[i],
    ) {
        (Some(x), Some(y)) => x@ == y@,
        (None, None) => true,
        _ => false,
    } by {
        assert(a.drop_last()[i] == a[i]);
    }
}

proof fn lemma_same_paths_same_patterns(
    root: Seq<char>,
    a: Seq<Option<String>>,
    b: Seq<Option<String>>,
)
    requires
        same_paths(a, b),
    ensures
        exclude_patterns(root, a) == exclude_patterns(root, b),
        include_patterns(root, a) == include_patterns(root, b),
    decreases a.len(),
{
    if a.len() > 0 {
        lemma_same_paths_drop_last(a, b);
        lemma_same_paths_same_patterns(root, a.drop_last(), b.drop_last());
    }
}

/// A second run on an unchanged tree has the same rules: the rules are
/// decided by the root and by what the given paths resolved to, and by
/// nothing else.
pub proof fn lemma_same_paths_same_rules(
    root: Seq<char>,
    excludes: Seq<Option<String>>,
    includes: Seq<Option<String>>,
    excludes_again: Seq<Option<String>>,
    includes_again: Seq<Option<String>>,
)
    requires
        same_paths(excludes, excludes_again),
        same_paths(includes, includes_again),
    ensures
        filter_rules(root, excludes, includes) == filter_rules(
            root,
            excludes_again,
            includes_again,
        ),
{
    lemma_same_paths_same_patterns(root, excludes, excludes_again);
    lemma_same_paths_same_patterns(root, includes, includes_again);
}


/// A pattern is relative to the root of the walk: the pattern of a path that
/// lies under a rooted base does not start at the root of the file system,
/// and two spellings of the path make the same pattern. A path that lies
/// elsewhere keeps its whole text as its pattern.
pub proof fn lemma_patterns_are_relative(
    base_dir: Seq<char>,
    resolved: Seq<char>,
    respelled: Seq<char>,
)
    requires
        has_root(base_dir),
        is_under(resolved, base_dir),
        same_components(resolved, respelled),
    ensures
        !has_root(include_pattern(base_dir, resolved)),
        include_pattern(base_dir, respelled) == include_pattern(base_dir, resolved),
        exclude_pattern(base_dir, respelled) == exclude_pattern(base_dir, resolved),
{
    lemma_relative_has_no_root(resolved, base_dir);
    lemma_spellings_leave_the_same(resolved, respelled, base_dir);
}

} // verus!
