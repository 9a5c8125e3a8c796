//! Paths as text: components, lexical normalisation, joining, and what is left
//! of a path below a base directory.
//!
//! A path is a string whose components are separated by `/`. Nothing here
//! looks at a file system: every function is a function of its text alone.
//! A name that is not valid text, and a separator other than `/`, lie outside
//! what this module describes.

use vstd::prelude::*;
use crate::text::{chars_of, extend_chars, same_chars, string_of};

verus! {

/// The text `.`, which names the current directory.
pub open spec fn dot() -> Seq<char> {
    seq!['.']
}

/// The text `..`, which names the parent directory.
pub open spec fn dot_dot() -> Seq<char> {
    seq!['.', '.']
}

/// Whether the path starts at the root of the file system.
pub open spec fn has_root(p: Seq<char>) -> bool {
    p.len() > 0 && p[0] == '/'
}

/// The pieces of `p` between its separators. A path without a separator is
/// one piece; `n` separators make `n + 1` pieces, some of which may be empty.
pub open spec fn segments(p: Seq<char>) -> Seq<Seq<char>>
    decreases p.len(),
{
    if p.len() == 0 {
        seq![Seq::<char>::empty()]
    } else {
        let before = segments(p.drop_last());
        if p.last() == '/' {
            before.push(Seq::<char>::empty())
        } else {
            before.drop_last().push(before.last().push(p.last()))
        }
    }
}

/// Whether a piece is a component in its own right: neither empty (two
/// separators in a row, or one at either end) nor `.`.
pub open spec fn is_name(segment: Seq<char>) -> bool {
    segment.len() > 0 && segment != dot()
}

/// The pieces among `pieces` that are components.
pub open spec fn names_among(pieces: Seq<Seq<char>>) -> Seq<Seq<char>> {
    pieces.filter(|s: Seq<char>| is_name(s))
}

/// The components of `p` in order, `..` included; the root and `.` are not
/// among them.
pub open spec fn names(p: Seq<char>) -> Seq<Seq<char>> {
    names_among(segments(p))
}

/// Whether the path begins with the component `.`.
pub open spec fn starts_at_current_dir(p: Seq<char>) -> bool {
    segments(p)[0] == dot()
}

/// All components of `p`, with the root written as `/` and a leading `.` kept.
/// Two paths name the same place lexically exactly when these agree.
pub open spec fn components(p: Seq<char>) -> Seq<Seq<char>> {
    if has_root(p) {
        seq![seq!['/']] + names(p)
    } else if starts_at_current_dir(p) {
        seq![dot()] + names(p)
    } else {
        names(p)
    }
}

/// The names that remain when each `..` has removed the name before it. A
/// `..` with no name before it is dropped.
pub open spec fn collapse(names: Seq<Seq<char>>) -> Seq<Seq<char>>
    decreases names.len(),
{
    if names.len() == 0 {
        Seq::<Seq<char>>::empty()
    } else {
        let before = collapse(names.drop_last());
        if names.last() == dot_dot() {
            if before.len() > 0 {
                before.drop_last()
            } else {
                before
            }
        } else {
            before.push(names.last())
        }
    }
}

/// The names written one after the other with a separator between each two.
pub open spec fn joined(names: Seq<Seq<char>>) -> Seq<char>
    decreases names.len(),
{
    if names.len() == 0 {
        Seq::<char>::empty()
    } else if names.len() == 1 {
        names[0]
    } else {
        joined(names.drop_last()) + seq!['/'] + names.last()
    }
}

/// The text of a path with the given components (in the form that
/// `components` gives them).
pub open spec fn rendered(components: Seq<Seq<char>>) -> Seq<char> {
    if components.len() > 0 && components[0] == seq!['/'] {
        seq!['/'] + joined(components.skip(1))
    } else {
        joined(components)
    }
}

/// The path with `.` and empty components removed and every `..` resolved
/// against the text alone: rooted if `p` is, and otherwise relative.
pub open spec fn normalized(p: Seq<char>) -> Seq<char> {
    if has_root(p) {
        seq!['/'] + joined(collapse(names(p)))
    } else {
        joined(collapse(names(p)))
    }
}

/// `path` placed below `base`: a rooted `path` stands for itself.
pub open spec fn joined_path(base: Seq<char>, path: Seq<char>) -> Seq<char> {
    if has_root(path) {
        path
    } else if base.len() == 0 || base.last() == '/' {
        base + path
    } else {
        base + seq!['/'] + path
    }
}

/// Whether `path` lies at or below `base`, component by component.
pub open spec fn is_under(path: Seq<char>, base: Seq<char>) -> bool {
    components(base).is_prefix_of(components(path))
}

/// What is left of `path` below `base`; `path` itself where it does not lie
/// under `base`.
pub open spec fn relative(path: Seq<char>, base: Seq<char>) -> Seq<char> {
    if is_under(path, base) {
        rendered(components(path).skip(components(base).len() as int))
    } else {
        path
    }
}

/// Whether two paths have the same components.
pub open spec fn same_components(a: Seq<char>, b: Seq<char>) -> bool {
    components(a) == components(b)
}

/// The last component of the path, unless the path ends in `..` or has no
/// name at all.
pub open spec fn name_of(p: Seq<char>) -> Option<Seq<char>> {
    let n = names(p);
    if n.len() > 0 && n.last() != dot_dot() {
        Some(n.last())
    } else {
        None
    }
}

/// The position of the last `.` in `name`, or -1 where it has none.
pub open spec fn last_dot(name: Seq<char>) -> int
    decreases name.len(),
{
    if name.len() == 0 {
        -1
    } else if name.last() == '.' {
        name.len() - 1
    } else {
        last_dot(name.drop_last())
    }
}

/// What follows the last `.` of the file name. A name without a `.`, or
/// whose only `.` is its first character, has no extension.
pub open spec fn extension_of(p: Seq<char>) -> Option<Seq<char>> {
    match name_of(p) {
        Some(name) => {
            let k = last_dot(name);
            if k > 0 {
                Some(name.skip(k + 1))
            } else {
                None
            }
        },
        None => None,
    }
}

/// The file name without its extension and the `.` before it.
pub open spec fn stem_of(p: Seq<char>) -> Option<Seq<char>> {
    match name_of(p) {
        Some(name) => {
            let k = last_dot(name);
            if k > 0 {
                Some(name.take(k))
            } else {
                Some(name)
            }
        },
        None => None,
    }
}

/// The texts held by a vector of character vectors.
pub open spec fn texts(v: Seq<Vec<char>>) -> Seq<Seq<char>> {
    v.map_values(|x: Vec<char>| x@)
}

fn is_dot(segment: &Vec<char>) -> (r: bool)
    ensures
        r == (segment@ == dot()),
{
    let r = segment.len() == 1 && segment[0] == '.';
    proof {
        if r {
            assert(segment@ =~= dot());
        }
    }
    r
}

fn is_dot_dot(segment: &Vec<char>) -> (r: bool)
    ensures
        r == (segment@ == dot_dot()),
{
    let r = segment.len() == 2 && segment[0] == '.' && segment[1] == '.';
    proof {
        if r {
            assert(segment@ =~= dot_dot());
        }
    }
    r
}

fn split_segments(p: &Vec<char>) -> (r: Vec<Vec<char>>)
    ensures
        texts(r@) == segments(p@),
{
    let mut done: Vec<Vec<char>> = Vec::new();
    let mut current: Vec<char> = Vec::new();
    let mut i: usize = 0;
    while i < p.len()
        invariant
            i <= p.len(),
            segments(p@.take(i as int)) == texts(done@).push(current@),
        decreases p.len() - i,
    {
        let c = p[i];
        proof {
            assert(p@.take(i + 1).drop_last() =~= p@.take(i as int));
        }
        if c == '/' {
            done.push(current);
            current = Vec::new();
        } else {
            current.push(c);
        }
        i += 1;
    }
    proof {
        assert(p@.take(p.len() as int) =~= p@);
    }
    done.push(current);
    done
}

fn names_in(p: &Vec<char>) -> (r: Vec<Vec<char>>)
    ensures
        texts(r@) == names(p@),
{
    let pieces = split_segments(p);
    let mut kept: Vec<Vec<char>> = Vec::new();
    let mut i: usize = 0;
    proof {
        reveal(Seq::filter);
    }
    while i < pieces.len()
        invariant
            i <= pieces.len(),
            texts(kept@) == names_among(texts(pieces@).take(i as int)),
        decreases pieces.len() - i,
    {
        proof {
            reveal(Seq::filter);
            assert(texts(pieces@).take(i + 1).drop_last() =~= texts(pieces@).take(i as int));
        }
        if pieces[i].len() > 0 && !is_dot(&pieces[i]) {
            kept.push(pieces[i].clone());
        }
        i += 1;
    }
    proof {
        assert(texts(pieces@).take(pieces.len() as int) =~= texts(pieces@));
    }
    kept
}

fn collapse_names(names: &Vec<Vec<char>>) -> (r: Vec<Vec<char>>)
    ensures
        texts(r@) == collapse(texts(names@)),
{
    let mut stack: Vec<Vec<char>> = Vec::new();
    let mut i: usize = 0;
    while i < names.len()
        invariant
            i <= names.len(),
            texts(stack@) == collapse(texts(names@).take(i as int)),
        decreases names.len() - i,
    {
        proof {
            assert(texts(names@).take(i + 1).drop_last() =~= texts(names@).take(i as int));
        }
        if is_dot_dot(&names[i]) {
            if stack.len() > 0 {
                stack.pop();
            }
        } else {
            stack.push(names[i].clone());
        }
        i += 1;
    }
    proof {
        assert(texts(names@).take(names.len() as int) =~= texts(names@));
    }
    stack
}

fn join_names(names: &Vec<Vec<char>>) -> (r: Vec<char>)
    ensures
        r@ == joined(texts(names@)),
{
    let mut out: Vec<char> = Vec::new();
    let mut i: usize = 0;
    while i < names.len()
        invariant
            i <= names.len(),
            out@ == joined(texts(names@).take(i as int)),
        decreases names.len() - i,
    {
        proof {
            assert(texts(names@).take(i + 1).drop_last() =~= texts(names@).take(i as int));
        }
        if i > 0 {
            out.push('/');
        }
        extend_chars(&mut out, &names[i]);
        i += 1;
    }
    proof {
        assert(texts(names@).take(names.len() as int) =~= texts(names@));
    }
    out
}

fn starts_with_separator(p: &Vec<char>) -> (r: bool)
    ensures
        r == has_root(p@),
{
    p.len() > 0 && p[0] == '/'
}

fn normalize_chars(p: &Vec<char>) -> (r: Vec<char>)
    ensures
        r@ == normalized(p@),
{
    let kept = collapse_names(&names_in(p));
    let body = join_names(&kept);
    if starts_with_separator(p) {
        let mut out: Vec<char> = Vec::new();
        out.push('/');
        extend_chars(&mut out, &body);
        out
    } else {
        body
    }
}

fn join_chars(base: &Vec<char>, path: &Vec<char>) -> (r: Vec<char>)
    ensures
        r@ == joined_path(base@, path@),
{
    if starts_with_separator(path) {
        return path.clone();
    }
    let mut out: Vec<char> = base.clone();
    if base.len() > 0 && base[base.len() - 1] != '/' {
        out.push('/');
    }
    extend_chars(&mut out, path);
    out
}

/// Removes `.` and empty components from `path` and resolves each `..`
/// against the component before it, by the text alone. The result is rooted
/// exactly when `path` is.
pub fn normalize(path: &str) -> (r: String)
    ensures
        r@ == normalized(path@),
{
    string_of(&normalize_chars(&chars_of(path)))
}

/// Places `path` below `base`. A rooted `path` replaces `base`; otherwise one
/// separator stands between the two unless `base` is empty or ends in one.
pub fn join(base: &str, path: &str) -> (r: String)
    ensures
        r@ == joined_path(base@, path@),
{
    string_of(&join_chars(&chars_of(base), &chars_of(path)))
}

/// The path that is looked up on disk for a path given by the user: `path`
/// below `base_dir`, normalised.
pub fn resolution_target(base_dir: &str, path: &str) -> (r: String)
    ensures
        r@ == normalized(joined_path(base_dir@, path@)),
{
    let full = join_chars(&chars_of(base_dir), &chars_of(path));
    string_of(&normalize_chars(&full))
}

/// Every path has at least one piece.
pub proof fn lemma_segments_nonempty(p: Seq<char>)
    ensures
        segments(p).len() >= 1,
    decreases p.len(),
{
    if p.len() > 0 {
        lemma_segments_nonempty(p.drop_last());
    }
}

fn components_in(p: &Vec<char>) -> (r: Vec<Vec<char>>)
    ensures
        texts(r@) == components(p@),
{
    let pieces = split_segments(p);
    let found = names_in(p);
    proof {
        lemma_segments_nonempty(p@);
    }
    let mut head: Vec<char> = Vec::new();
    if starts_with_separator(p) {
        head.push('/');
    } else if is_dot(&pieces[0]) {
        head.push('.');
    } else {
        return found;
    }
    let mut out: Vec<Vec<char>> = Vec::new();
    out.push(head);
    let mut i: usize = 0;
    while i < found.len()
        invariant
            i <= found.len(),
            texts(out@) == seq![head@] + texts(found@).take(i as int),
        decreases found.len() - i,
    {
        let ghost before = texts(out@);
        out.push(found[i].clone());
        proof {
            assert(texts(out@) =~= before.push(found@[i as int]@));
        }
        i += 1;
    }
    out
}

fn starts_with(whole: &Vec<Vec<char>>, head: &Vec<Vec<char>>) -> (r: bool)
    ensures
        r == texts(head@).is_prefix_of(texts(whole@)),
{
    if head.len() > whole.len() {
        return false;
    }
    let mut i: usize = 0;
    while i < head.len()
        invariant
            i <= head.len(),
            head.len() <= whole.len(),
            forall|j: int| 0 <= j < i ==> texts(head@)[j] == texts(whole@)[j],
        decreases head.len() - i,
    {
        if !same_chars(&head[i], &whole[i]) {
            proof {
                assert(texts(head@)[i as int] != texts(whole@)[i as int]);
            }
            return false;
        }
        i += 1;
    }
    true
}

fn render_from(parts: &Vec<Vec<char>>, from: usize) -> (r: Vec<char>)
    requires
        from <= parts.len(),
    ensures
        r@ == rendered(texts(parts@).skip(from as int)),
{
    let mut rest: Vec<Vec<char>> = Vec::new();
    let mut rooted = false;
    let mut i: usize = from;
    let ghost tail = texts(parts@).skip(from as int);
    if i < parts.len() && parts[i].len() == 1 && parts[i][0] == '/' {
        rooted = true;
        i += 1;
        proof {
            assert(parts@[from as int]@ =~= seq!['/']);
        }
    }
    let ghost start = i;
    while i < parts.len()
        invariant
            start <= i <= parts.len(),
            texts(rest@) == texts(parts@).subrange(start as int, i as int),
        decreases parts.len() - i,
    {
        let ghost before = texts(rest@);
        rest.push(parts[i].clone());
        proof {
            assert(texts(rest@) =~= before.push(parts@[i as int]@));
        }
        i += 1;
    }
    let body = join_names(&rest);
    if rooted {
        let mut out: Vec<char> = Vec::new();
        out.push('/');
        extend_chars(&mut out, &body);
        proof {
            assert(texts(rest@) =~= tail.skip(1));
        }
        out
    } else {
        body
    }
}

fn relative_chars(path: &Vec<char>, base: &Vec<char>) -> (r: Vec<char>)
    ensures
        r@ == relative(path@, base@),
{
    let whole = components_in(path);
    let head = components_in(base);
    if starts_with(&whole, &head) {
        render_from(&whole, head.len())
    } else {
        path.clone()
    }
}

/// What is left of `path` below `base`: the components of `path` after those
/// of `base`, joined by single separators. Where `path` does not lie under
/// `base`, the result is `path` unchanged.
pub fn relative_to(path: &str, base: &str) -> (r: String)
    ensures
        r@ == relative(path@, base@),
{
    string_of(&relative_chars(&chars_of(path), &chars_of(base)))
}

/// Whether `a` and `b` have the same components: separators in a row, a
/// separator at the end and `.` inside a path make no difference.
pub fn same_path(a: &str, b: &str) -> (r: bool)
    ensures
        r == same_components(a@, b@),
{
    let left = components_in(&chars_of(a));
    let right = components_in(&chars_of(b));
    let r = left.len() == right.len() && starts_with(&left, &right);
    proof {
        let l = texts(left@);
        let rt = texts(right@);
        if r {
            assert(l.subrange(0, l.len() as int) =~= l);
        } else if l == rt {
            assert(rt =~= l.subrange(0, rt.len() as int));
        }
    }
    r
}

fn name_in(p: &Vec<char>) -> (r: Option<Vec<char>>)
    ensures
        match r {
            Some(name) => name_of(p@) == Some(name@),
            None => name_of(p@) is None,
        },
{
    let found = names_in(p);
    if found.len() == 0 {
        return None;
    }
    let last = &found[found.len() - 1];
    if is_dot_dot(last) {
        None
    } else {
        Some(last.clone())
    }
}

fn last_dot_in(name: &Vec<char>) -> (r: Option<usize>)
    ensures
        match r {
            Some(k) => last_dot(name@) == k && k < name.len(),
            None => last_dot(name@) == -1,
        },
{
    let mut found: Option<usize> = None;
    let mut i: usize = 0;
    while i < name.len()
        invariant
            i <= name.len(),
            match found {
                Some(k) => last_dot(name@.take(i as int)) == k && k < i,
                None => last_dot(name@.take(i as int)) == -1,
            },
        decreases name.len() - i,
    {
        proof {
            assert(name@.take(i + 1).drop_last() =~= name@.take(i as int));
        }
        if name[i] == '.' {
            found = Some(i);
        }
        i += 1;
    }
    proof {
        assert(name@.take(name.len() as int) =~= name@);
    }
    found
}

fn slice_chars(v: &Vec<char>, from: usize, to: usize) -> (r: Vec<char>)
    requires
        from <= to <= v.len(),
    ensures
        r@ == v@.subrange(from as int, to as int),
{
    let mut out: Vec<char> = Vec::new();
    let mut i: usize = from;
    while i < to
        invariant
            from <= i <= to <= v.len(),
            out@ == v@.subrange(from as int, i as int),
        decreases to - i,
    {
        out.push(v[i]);
        i += 1;
    }
    out
}

/// The last component of `path`. A path that ends in `..`, and one without
/// any name (the root, `.`, the empty path), has none.
pub fn file_name(path: &str) -> (r: Option<String>)
    ensures
        match r {
            Some(name) => name_of(path@) == Some(name@),
            None => name_of(path@) is None,
        },
{
    match name_in(&chars_of(path)) {
        Some(name) => Some(string_of(&name)),
        None => None,
    }
}

/// The extension of the file name of `path`: what follows its last `.`. A
/// name without a `.`, or with none but a leading one, has no extension.
pub fn extension(path: &str) -> (r: Option<String>)
    ensures
        match r {
            Some(e) => extension_of(path@) == Some(e@),
            None => extension_of(path@) is None,
        },
{
    match name_in(&chars_of(path)) {
        Some(name) => match last_dot_in(&name) {
            Some(k) => if k > 0 {
                let tail = slice_chars(&name, k + 1, name.len());
                Some(string_of(&tail))
            } else {
                None
            },
            None => None,
        },
        None => None,
    }
}

/// The file name of `path` without its extension.
pub fn file_stem(path: &str) -> (r: Option<String>)
    ensures
        match r {
            Some(stem) => stem_of(path@) == Some(stem@),
            None => stem_of(path@) is None,
        },
{
    match name_in(&chars_of(path)) {
        Some(name) => match last_dot_in(&name) {
            Some(k) => if k > 0 {
                let head = slice_chars(&name, 0, k);
                Some(string_of(&head))
            } else {
                Some(string_of(&name))
            },
            None => Some(string_of(&name)),
        },
        None => None,
    }
}

/// Whether a text holds no separator.
pub open spec fn has_no_separator(text: Seq<char>) -> bool {
    forall|i: int| 0 <= i < text.len() ==> text[i] != '/'
}

/// Whether every one of `names` is a component: not empty, not `.`, and
/// without a separator.
pub open spec fn all_names(names: Seq<Seq<char>>) -> bool {
    forall|i: int|
        0 <= i < names.len() ==> is_name(#[trigger] names[i]) && has_no_separator(names[i])
}

/// Whether none of `names` is `..`.
pub open spec fn none_is_parent(names: Seq<Seq<char>>) -> bool {
    forall|i: int| 0 <= i < names.len() ==> #[trigger] names[i] != dot_dot()
}

/// No piece of a path holds a separator.
pub proof fn lemma_segments_hold_no_separator(p: Seq<char>)
    ensures
        forall|i: int| 0 <= i < segments(p).len() ==> has_no_separator(#[trigger] segments(p)[i]),
    decreases p.len(),
{
    if p.len() > 0 {
        lemma_segments_hold_no_separator(p.drop_last());
        lemma_segments_nonempty(p.drop_last());
        let before = segments(p.drop_last());
        assert forall|i: int| 0 <= i < segments(p).len() implies has_no_separator(
            #[trigger] segments(p)[i],
        ) by {
            if i < before.len() - 1 || p.last() == '/' {
                // an earlier piece, or the new empty one
            } else {
                assert(has_no_separator(before.last()));
            }
        }
    }
}

/// Text without a separator, written behind a path, lengthens its last piece.
pub proof fn lemma_segments_append_name(p: Seq<char>, name: Seq<char>)
    requires
        has_no_separator(name),
    ensures
        segments(p + name) == segments(p).drop_last().push(segments(p).last() + name),
    decreases name.len(),
{
    lemma_segments_nonempty(p);
    if name.len() > 0 {
        lemma_segments_append_name(p, name.drop_last());
        assert((p + name).drop_last() =~= p + name.drop_last());
        let before = segments(p + name.drop_last());
        assert(before.last().push(name.last()) =~= segments(p).last() + name);
    }
}

/// The pieces of names that were joined are the names; no names make the one
/// empty piece.
pub proof fn lemma_segments_of_joined(names: Seq<Seq<char>>)
    requires
        forall|i: int| 0 <= i < names.len() ==> has_no_separator(#[trigger] names[i]),
    ensures
        names.len() > 0 ==> segments(joined(names)) == names,
        names.len() == 0 ==> segments(joined(names)) == seq![Seq::<char>::empty()],
    decreases names.len(),
{
    let nothing = Seq::<char>::empty();
    if names.len() == 1 {
        lemma_segments_append_name(nothing, names[0]);
    } else if names.len() > 1 {
        let front = names.drop_last();
        lemma_segments_of_joined(front);
        let head = joined(front) + seq!['/'];
        assert(head.drop_last() =~= joined(front));
        lemma_segments_append_name(head, names.last());
    }
}

/// Among pieces that are all components, every piece is kept.
pub proof fn lemma_names_among_names(names: Seq<Seq<char>>)
    requires
        forall|i: int| 0 <= i < names.len() ==> is_name(#[trigger] names[i]),
    ensures
        names_among(names) == names,
    decreases names.len(),
{
    reveal(Seq::filter);
    if names.len() > 0 {
        lemma_names_among_names(names.drop_last());
    }
}

/// The components of names that were joined are the names.
pub proof fn lemma_names_of_joined(parts: Seq<Seq<char>>)
    requires
        all_names(parts),
    ensures
        names(joined(parts)) == parts,
{
    lemma_segments_of_joined(parts);
    if parts.len() > 0 {
        lemma_names_among_names(parts);
    } else {
        reveal_with_fuel(Seq::filter, 2);
    }
}

/// Names that were joined make a path that does not start at the root.
pub proof fn lemma_joined_has_no_root(names: Seq<Seq<char>>)
    requires
        all_names(names),
    ensures
        !has_root(joined(names)),
        names.len() > 0 ==> joined(names).len() > 0 && joined(names)[0] == names[0][0],
    decreases names.len(),
{
    if names.len() > 1 {
        lemma_joined_has_no_root(names.drop_last());
    }
}

proof fn lemma_names_among_are_names(pieces: Seq<Seq<char>>)
    requires
        forall|i: int| 0 <= i < pieces.len() ==> has_no_separator(#[trigger] pieces[i]),
    ensures
        all_names(names_among(pieces)),
    decreases pieces.len(),
{
    reveal(Seq::filter);
    if pieces.len() > 0 {
        lemma_names_among_are_names(pieces.drop_last());
        let before = names_among(pieces.drop_last());
        let all = names_among(pieces);
        assert forall|i: int| 0 <= i < all.len() implies is_name(#[trigger] all[i])
            && has_no_separator(all[i]) by {
            if i < before.len() {
                assert(all[i] == before[i]);
            }
        }
    }
}

/// Every component of a path is a name: not empty, not `.`, and without a
/// separator.
pub proof fn lemma_names_are_names(p: Seq<char>)
    ensures
        all_names(names(p)),
{
    lemma_segments_hold_no_separator(p);
    lemma_names_among_are_names(segments(p));
}

/// What is left after every `..` was resolved holds names only, and no `..`.
pub proof fn lemma_collapse_leaves_names(names: Seq<Seq<char>>)
    requires
        all_names(names),
    ensures
        all_names(collapse(names)),
        none_is_parent(collapse(names)),
    decreases names.len(),
{
    if names.len() > 0 {
        lemma_collapse_leaves_names(names.drop_last());
        let before = collapse(names.drop_last());
        let all = collapse(names);
        assert forall|i: int| 0 <= i < all.len() implies is_name(#[trigger] all[i])
            && has_no_separator(all[i]) && all[i] != dot_dot() by {
            if i < before.len() {
                assert(all[i] == before[i]);
            } else {
                assert(all[i] == names.last());
            }
        }
    }
}

/// Names without a `..` among them are left as they are.
pub proof fn lemma_collapse_without_parent(names: Seq<Seq<char>>)
    requires
        none_is_parent(names),
    ensures
        collapse(names) == names,
    decreases names.len(),
{
    if names.len() > 0 {
        lemma_collapse_without_parent(names.drop_last());
    }
}

proof fn lemma_segments_after_root(rest: Seq<char>)
    ensures
        segments(seq!['/'] + rest) == seq![Seq::<char>::empty()] + segments(rest),
    decreases rest.len(),
{
    let nothing = Seq::<char>::empty();
    let whole = seq!['/'] + rest;
    if rest.len() == 0 {
        assert(whole.drop_last() =~= nothing);
        assert(segments(nothing) =~= seq![nothing]);
    } else {
        lemma_segments_after_root(rest.drop_last());
        lemma_segments_nonempty(rest.drop_last());
        assert(whole.drop_last() =~= seq!['/'] + rest.drop_last());
    }
}

proof fn lemma_names_among_after_empty(pieces: Seq<Seq<char>>)
    ensures
        names_among(seq![Seq::<char>::empty()] + pieces) == names_among(pieces),
    decreases pieces.len(),
{
    reveal(Seq::filter);
    let nothing = Seq::<char>::empty();
    let whole = seq![nothing] + pieces;
    if pieces.len() == 0 {
        assert(whole.drop_last() =~= pieces);
    } else {
        lemma_names_among_after_empty(pieces.drop_last());
    }
}

/// A separator before a path adds no component.
pub proof fn lemma_names_after_root(rest: Seq<char>)
    ensures
        names(seq!['/'] + rest) == names(rest),
{
    lemma_segments_after_root(rest);
    lemma_names_among_after_empty(segments(rest));
}

/// What a normalised path consists of: it is rooted exactly when the path
/// was, its components are those of the path with every `..` resolved, and
/// among them is no `..`.
pub proof fn lemma_normalized_components(p: Seq<char>)
    ensures
        has_root(normalized(p)) == has_root(p),
        names(normalized(p)) == collapse(names(p)),
        all_names(names(normalized(p))),
        none_is_parent(names(normalized(p))),
{
    let kept = collapse(names(p));
    lemma_names_are_names(p);
    lemma_collapse_leaves_names(names(p));
    lemma_names_of_joined(kept);
    lemma_joined_has_no_root(kept);
    if has_root(p) {
        lemma_names_after_root(joined(kept));
    }
}

/// Normalising a normalised path changes nothing.
pub proof fn lemma_normalize_is_idempotent(p: Seq<char>)
    ensures
        normalized(normalized(p)) == normalized(p),
{
    lemma_normalized_components(p);
    lemma_collapse_without_parent(names(normalized(p)));
}

/// Two spellings of one path below a base leave the same text: what is
/// left depends on the components alone.
pub proof fn lemma_spellings_leave_the_same(a: Seq<char>, b: Seq<char>, base: Seq<char>)
    requires
        same_components(a, b),
        is_under(a, base),
    ensures
        is_under(b, base),
        relative(a, base) == relative(b, base),
{
}

/// What is left of a path below a rooted base does not start at the root.
pub proof fn lemma_relative_has_no_root(path: Seq<char>, base: Seq<char>)
    requires
        has_root(base),
        is_under(path, base),
    ensures
        !has_root(relative(path, base)),
{
    let whole = components(path);
    let head = components(base);
    lemma_names_are_names(path);
    // The base begins with the root, so the path does, and what is left of
    // it are names.
    assert(head[0] == seq!['/']);
    assert(whole[0] == head[0]);
    assert(has_root(path)) by {
        assert(seq!['/'][0] == '/');
        assert(dot()[0] == '.');
    }
    let rest = whole.skip(head.len() as int);
    assert forall|i: int| 0 <= i < rest.len() implies is_name(#[trigger] rest[i])
        && has_no_separator(rest[i]) by {
        assert(rest[i] == names(path)[i + head.len() - 1]);
    }
    assert(rest.len() > 0 ==> rest[0] != seq!['/']) by {
        assert(seq!['/'][0] == '/');
    }
    lemma_joined_has_no_root(rest);
}

} // verus!
