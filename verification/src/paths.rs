//! Paths as strings whose components are separated by `/`.
//!
//! The workspace hands paths around as text. What this crate needs to know of
//! a path (its last component, the directory it lies in, whether it lies below
//! another) is defined here on the characters, without asking the file system.
//!
//! The separator is `/` and nothing else: every contract of this module, and
//! of the modules built on it, holds of paths written that way. A path that
//! is written with another separator is one component to them.
//!
//! Two ways of looking at a path are used. Where a path was made by putting
//! a name behind the path of a directory, as the paths of the entries of a
//! directory are, the text is compared (`joined`, `lies_in`, `relative_to`).
//! Where two paths come from different hands, as the source and the
//! destination of a move do, their components are compared (`components`,
//! `same_place`, `is_under`): empty components and single dots say nothing.

use vstd::prelude::*;
use crate::text::{
    appended, chars_of, ends_with, first_index_of, has_prefix, has_suffix, last_index_of,
    lemma_first_index_is_first, lemma_first_index_of, lemma_last_index_of, rfind_char,
    row_views, same_chars, same_text, starts_with, string_of, string_of_range,
};

verus! {

/// The separator, as a one-character sequence.
pub open spec fn slash() -> Seq<char> {
    seq!['/']
}

/// The suffix by which a document is told.
pub open spec fn md_suffix() -> Seq<char> {
    seq!['.', 'm', 'd']
}

/// The last component of `path`: what follows its last `/`, or all of it.
pub open spec fn base_name(path: Seq<char>) -> Seq<char> {
    match last_index_of(path, '/') {
        Some(i) => path.skip(i + 1),
        None => path,
    }
}

/// The directory `path` lies in: what precedes its last `/`, or nothing.
pub open spec fn parent_dir(path: Seq<char>) -> Seq<char> {
    match last_index_of(path, '/') {
        Some(i) => path.take(i),
        None => Seq::empty(),
    }
}

/// The path of `name` inside `dir`. Inside the empty path it is `name` itself.
pub open spec fn joined(dir: Seq<char>, name: Seq<char>) -> Seq<char> {
    if dir.len() == 0 {
        name
    } else if ends_with(dir, slash()) {
        dir + name
    } else {
        dir + slash() + name
    }
}

/// `path` names an entry of the directory `dir`: it is the path of its own
/// last component inside `dir`. Whether `dir` is written with a separator at
/// its end makes no difference.
pub open spec fn lies_in(path: Seq<char>, dir: Seq<char>) -> bool {
    joined(dir, base_name(path)) == path
}

/// `path` names no directory: nothing stands before its last component but,
/// at most, one separator.
pub open spec fn names_no_directory(path: Seq<char>) -> bool {
    parent_dir(path).len() == 0
}

/// `path` without what says nothing at its end: separators, and components
/// that are a single dot and follow a separator.
pub open spec fn trimmed(path: Seq<char>) -> Seq<char>
    decreases path.len(),
{
    if path.len() > 0 && path.last() == '/' {
        trimmed(path.drop_last())
    } else if path.len() > 1 && path.last() == '.' && path[path.len() - 2] == '/' {
        trimmed(path.take(path.len() - 2))
    } else {
        path
    }
}

/// The directory in which the last component of `path` lies, written
/// without what says nothing at its end; the root where nothing but
/// separators stands before the last component, and nothing where the path
/// has no separator before it.
pub open spec fn parent_path(path: Seq<char>) -> Seq<char> {
    let source = trimmed(path);
    match last_index_of(source, '/') {
        Some(i) => {
            let up = trimmed(source.take(i));
            if up.len() == 0 {
                slash()
            } else {
                up
            }
        },
        None => Seq::empty(),
    }
}

/// A name that begins with a dot.
pub open spec fn is_hidden(name: Seq<char>) -> bool {
    name.len() > 0 && name[0] == '.'
}

/// A name with the document suffix and at least one character before it.
pub open spec fn is_document(name: Seq<char>) -> bool {
    name.len() > 3 && ends_with(name, md_suffix())
}

/// A name that can be the last component of a path to an entry.
pub open spec fn is_entry_name(name: Seq<char>) -> bool {
    name.len() > 0 && name != seq!['.'] && name != seq!['.', '.']
}

/// A piece of a path that is a component: it is not empty and no single dot.
pub open spec fn is_component(piece: Seq<char>) -> bool {
    piece.len() > 0 && piece != seq!['.']
}

/// The components of `path`: what stands between its separators, without the
/// pieces that are empty or a single dot.
pub open spec fn components(path: Seq<char>) -> Seq<Seq<char>>
    decreases path.len(),
{
    if path.len() == 0 {
        Seq::empty()
    } else {
        match first_index_of(path, '/') {
            Some(i) => if 0 <= i < path.len() {
                kept(path.take(i)) + components(path.skip(i + 1))
            } else {
                Seq::empty()
            },
            None => kept(path),
        }
    }
}

/// `piece` where it is a component, else nothing.
pub open spec fn kept(piece: Seq<char>) -> Seq<Seq<char>> {
    if is_component(piece) {
        seq![piece]
    } else {
        Seq::empty()
    }
}

/// `path` begins at the root of the file system.
pub open spec fn is_rooted(path: Seq<char>) -> bool {
    path.len() > 0 && path[0] == '/'
}

/// `path` begins with a single dot as its first piece: it is told from the
/// current directory.
pub open spec fn begins_with_dot(path: Seq<char>) -> bool {
    path.len() > 0 && path[0] == '.' && (path.len() == 1 || path[1] == '/')
}

/// `a` and `b` begin at the same place: both at the root, both with a single
/// dot, or both with neither.
pub open spec fn same_start(a: Seq<char>, b: Seq<char>) -> bool {
    is_rooted(a) == is_rooted(b) && begins_with_dot(a) == begins_with_dot(b)
}

/// `a` and `b` name the same place: they begin alike and have the same
/// components.
pub open spec fn same_place(a: Seq<char>, b: Seq<char>) -> bool {
    same_start(a, b) && components(a) == components(b)
}

/// `path` is the place `ancestor` or lies below it: they begin alike, and
/// the components of `ancestor` are the first components of `path`.
pub open spec fn is_under(path: Seq<char>, ancestor: Seq<char>) -> bool {
    &&& same_start(path, ancestor)
    &&& components(ancestor).len() <= components(path).len()
    &&& components(path).take(components(ancestor).len() as int) == components(ancestor)
}

/// A path without a separator has itself as its one component, where it is
/// one.
pub proof fn lemma_components_of_piece(piece: Seq<char>)
    requires
        forall|j: int| 0 <= j < piece.len() ==> piece[j] != '/',
    ensures
        components(piece) == kept(piece),
{
    lemma_first_index_of(piece, '/', piece.len() as int);
}

/// The components of two paths with a separator between them are those of
/// the first and then those of the second.
pub proof fn lemma_components_split(x: Seq<char>, y: Seq<char>)
    ensures
        components(x + slash() + y) == components(x) + components(y),
    decreases x.len(),
{
    let whole = x + slash() + y;
    lemma_first_index_is_first(x, '/');
    match first_index_of(x, '/') {
        Some(i) => {
            assert forall|j: int| 0 <= j < i implies whole[j] != '/' by {
                assert(whole[j] == x[j]);
            }
            assert(whole[i] == x[i]);
            lemma_first_index_of(whole, '/', i);
            assert(whole.take(i) == x.take(i));
            assert(whole.skip(i + 1) == x.skip(i + 1) + slash() + y);
            lemma_components_split(x.skip(i + 1), y);
            assert(kept(x.take(i)) + (components(x.skip(i + 1)) + components(y)) == kept(
                x.take(i),
            ) + components(x.skip(i + 1)) + components(y));
        },
        None => {
            assert forall|j: int| 0 <= j < x.len() implies whole[j] != '/' by {
                assert(whole[j] == x[j]);
            }
            assert(whole[x.len() as int] == '/');
            lemma_first_index_of(whole, '/', x.len() as int);
            assert(whole.take(x.len() as int) == x);
            assert(whole.skip(x.len() as int + 1) == y);
            if x.len() == 0 {
                assert(kept(x) == Seq::<Seq<char>>::empty());
            }
        },
    }
}

/// A name behind the path of a directory is one more component, and the
/// path begins as the directory's does.
pub proof fn lemma_components_joined(dir: Seq<char>, name: Seq<char>)
    requires
        dir.len() > 0,
        is_component(name),
        forall|j: int| 0 <= j < name.len() ==> name[j] != '/',
    ensures
        components(joined(dir, name)) == components(dir).push(name),
        same_start(joined(dir, name), dir),
{
    lemma_components_of_piece(name);
    if ends_with(dir, slash()) {
        let before = dir.drop_last();
        assert(dir.skip(dir.len() - 1)[0] == '/');
        assert(dir == before + slash() + Seq::<char>::empty());
        assert(dir + name == before + slash() + name);
        lemma_components_split(before, Seq::<char>::empty());
        lemma_components_split(before, name);
        assert(components(before) + Seq::<Seq<char>>::empty() == components(before));
        assert(components(before) + seq![name] == components(before).push(name));
    } else {
        lemma_components_split(dir, name);
        assert(components(dir) + seq![name] == components(dir).push(name));
    }
    assert(joined(dir, name)[0] == dir[0]);
    if dir.len() > 1 {
        assert(joined(dir, name)[1] == dir[1]);
    } else {
        assert(joined(dir, name)[1] == '/' || ends_with(dir, slash()));
    }
}

/// Each component is a name: it is not empty, no single dot, and holds no
/// separator.
pub proof fn lemma_components_are_names(path: Seq<char>, k: int)
    requires
        0 <= k < components(path).len(),
    ensures
        is_component(components(path)[k]),
        forall|j: int| 0 <= j < components(path)[k].len() ==> components(path)[k][j] != '/',
    decreases path.len(),
{
    lemma_first_index_is_first(path, '/');
    match first_index_of(path, '/') {
        Some(i) => {
            let head = kept(path.take(i));
            if k < head.len() {
                assert(components(path)[k] == path.take(i));
                assert forall|j: int| 0 <= j < path.take(i).len() implies path.take(i)[j]
                    != '/' by {
                    assert(path.take(i)[j] == path[j]);
                }
            } else {
                lemma_components_are_names(path.skip(i + 1), k - head.len());
                assert(components(path)[k] == components(path.skip(i + 1))[k - head.len()]);
            }
        },
        None => {},
    }
}

/// The last component of `path`, where it has one and that names an entry:
/// a path that ends in two dots names none.
pub open spec fn last_component(path: Seq<char>) -> Option<Seq<char>> {
    let all = components(path);
    if all.len() > 0 && is_entry_name(all.last()) {
        Some(all.last())
    } else {
        None
    }
}

/// `path` as seen from `root`: the part behind `root` and one separator, or
/// nothing where `path` does not lie below `root`.
pub open spec fn relative_to(path: Seq<char>, root: Seq<char>) -> Seq<char> {
    if ends_with(root, slash()) && starts_with(path, root) {
        path.skip(root.len() as int)
    } else if starts_with(path, root + slash()) {
        path.skip(root.len() as int + 1)
    } else {
        Seq::empty()
    }
}

/// The characters of the separator.
pub fn slash_chars() -> (r: Vec<char>)
    ensures
        r@ == slash(),
{
    vec!['/']
}

/// The characters of the document suffix.
pub fn md_suffix_chars() -> (r: Vec<char>)
    ensures
        r@ == md_suffix(),
{
    vec!['.', 'm', 'd']
}

/// The last component of `path`.
pub fn file_name(path: &str) -> (r: String)
    ensures
        r@ == base_name(path@),
{
    let p = chars_of(path);
    match rfind_char(&p, '/') {
        Some(i) => {
            proof {
                lemma_last_index_of(p@, '/');
                assert(p@.subrange(i + 1, p.len() as int) == p@.skip(i + 1));
            }
            string_of_range(&p, i + 1, p.len())
        },
        None => string_of(&p),
    }
}

/// The directory `path` lies in.
pub fn parent_of(path: &str) -> (r: String)
    ensures
        r@ == parent_dir(path@),
{
    let p = chars_of(path);
    match rfind_char(&p, '/') {
        Some(i) => {
            proof {
                lemma_last_index_of(p@, '/');
                assert(p@.subrange(0, i as int) == p@.take(i as int));
            }
            string_of_range(&p, 0, i)
        },
        None => String::new(),
    }
}

/// The path of `name` inside `dir`.
pub fn join(dir: &str, name: &str) -> (r: String)
    ensures
        r@ == joined(dir@, name@),
{
    let d = chars_of(dir);
    let sep = slash_chars();
    if d.len() == 0 {
        name.to_owned()
    } else if has_suffix(&d, &sep) {
        appended(dir, name)
    } else {
        let mut r = chars_of(dir);
        r.push('/');
        let mut n = chars_of(name);
        r.append(&mut n);
        proof {
            assert(dir@.push('/') == dir@ + slash());
        }
        string_of(&r)
    }
}

/// Does `path` name an entry of the directory `dir`?
pub fn inside(path: &str, dir: &str) -> (r: bool)
    ensures
        r == lies_in(path@, dir@),
{
    let name = file_name(path);
    let there = join(dir, name.as_str());
    same_text(there.as_str(), path)
}

/// Does `path` name no directory?
pub fn no_directory(path: &str) -> (r: bool)
    ensures
        r == names_no_directory(path@),
{
    parent_of(path).as_str().is_empty()
}

/// `path` without the separators and single dots at its end.
pub fn trim_end(path: &str) -> (r: String)
    ensures
        r@ == trimmed(path@),
{
    let p = chars_of(path);
    let mut end: usize = p.len();
    assert(p@.take(end as int) == p@);
    loop
        invariant
            end <= p.len(),
            trimmed(p@) == trimmed(p@.take(end as int)),
        ensures
            end <= p.len(),
            trimmed(p@) == p@.take(end as int),
        decreases end,
    {
        let ghost now = p@.take(end as int);
        if end > 0 && p[end - 1] == '/' {
            assert(now.drop_last() == p@.take(end - 1));
            end -= 1;
        } else if end > 1 && p[end - 1] == '.' && p[end - 2] == '/' {
            assert(now.take(now.len() - 2) == p@.take(end - 2));
            end -= 2;
        } else {
            break ;
        }
    }
    proof {
        assert(p@.subrange(0, end as int) == p@.take(end as int));
    }
    string_of_range(&p, 0, end)
}

/// The directory in which the last component of `path` lies.
pub fn parent_dir_of(path: &str) -> (r: String)
    ensures
        r@ == parent_path(path@),
{
    let source = trim_end(path);
    let chars = chars_of(source.as_str());
    match rfind_char(&chars, '/') {
        Some(i) => {
            proof {
                lemma_last_index_of(chars@, '/');
                assert(chars@.subrange(0, i as int) == chars@.take(i as int));
            }
            let before = string_of_range(&chars, 0, i);
            let up = trim_end(before.as_str());
            if up.as_str().is_empty() {
                let sep = slash_chars();
                string_of(&sep)
            } else {
                up
            }
        },
        None => String::new(),
    }
}

/// Does `name` begin with a dot?
pub fn hidden(name: &str) -> (r: bool)
    ensures
        r == is_hidden(name@),
{
    let n = chars_of(name);
    n.len() > 0 && n[0] == '.'
}

/// Does `name` name a document?
pub fn document(name: &str) -> (r: bool)
    ensures
        r == is_document(name@),
{
    let n = chars_of(name);
    let suffix = md_suffix_chars();
    n.len() > 3 && has_suffix(&n, &suffix)
}

/// Can `name` be the last component of a path to an entry?
pub fn entry_name(name: &str) -> (r: bool)
    ensures
        r == is_entry_name(name@),
{
    let n = chars_of(name);
    if n.len() == 0 {
        return false;
    }
    let one: Vec<char> = vec!['.'];
    let two: Vec<char> = vec!['.', '.'];
    assert(one@ == seq!['.']);
    assert(two@ == seq!['.', '.']);
    !same_chars(&n, &one) && !same_chars(&n, &two)
}

/// The components of `path`.
pub fn path_components(path: &str) -> (r: Vec<Vec<char>>)
    ensures
        row_views(r@) == components(path@),
{
    let p = chars_of(path);
    let mut out: Vec<Vec<char>> = Vec::new();
    let mut start: usize = 0;
    let mut i: usize = 0;
    proof {
        assert(p@.skip(0) == p@);
        assert(row_views(out@) == Seq::<Seq<char>>::empty());
        assert(Seq::<Seq<char>>::empty() + components(p@) == components(p@));
    }
    while i < p.len()
        invariant
            start <= i <= p.len(),
            p@ == path@,
            row_views(out@) + components(p@.skip(start as int)) == components(p@),
            forall|k: int| start <= k < i ==> p@[k] != '/',
        decreases p.len() - i,
    {
        if p[i] == '/' {
            let ghost before = row_views(out@);
            let ghost rest = p@.skip(start as int);
            proof {
                assert forall|j: int| 0 <= j < i - start implies rest[j] != '/' by {
                    assert(rest[j] == p@[start + j]);
                }
                lemma_first_index_of(rest, '/', i - start);
                assert(rest.take(i - start) == p@.subrange(start as int, i as int));
                assert(rest.skip(i - start + 1) == p@.skip(i + 1));
            }
            push_component(&mut out, &p, start, i);
            proof {
                let piece = p@.subrange(start as int, i as int);
                assert(before + (kept(piece) + components(p@.skip(i + 1))) == before + kept(piece)
                    + components(p@.skip(i + 1)));
            }
            start = i + 1;
        }
        i += 1;
    }
    let ghost before = row_views(out@);
    let ghost rest = p@.skip(start as int);
    proof {
        if rest.len() > 0 {
            assert forall|j: int| 0 <= j < rest.len() implies rest[j] != '/' by {
                assert(rest[j] == p@[start + j]);
            }
            lemma_first_index_of(rest, '/', rest.len() as int);
        }
        assert(rest == p@.subrange(start as int, p.len() as int));
        assert(components(rest) == kept(rest));
    }
    push_component(&mut out, &p, start, p.len());
    out
}

fn push_component(out: &mut Vec<Vec<char>>, p: &Vec<char>, from: usize, to: usize)
    requires
        from <= to <= p.len(),
    ensures
        row_views(final(out)@) == row_views(old(out)@) + kept(p@.subrange(from as int, to as int)),
{
    let ghost piece = p@.subrange(from as int, to as int);
    if to == from || (to - from == 1 && p[from] == '.') {
        proof {
            if to - from == 1 {
                assert(piece == seq!['.']);
            }
            assert(row_views(out@) + Seq::<Seq<char>>::empty() == row_views(out@));
        }
        return ;
    }
    let mut part: Vec<char> = Vec::new();
    let mut k: usize = from;
    while k < to
        invariant
            from <= k <= to <= p.len(),
            part@ == p@.subrange(from as int, k as int),
        decreases to - k,
    {
        part.push(p[k]);
        k += 1;
    }
    proof {
        if piece == seq!['.'] {
            assert(piece.len() == 1 && piece[0] == '.');
            assert(p@[from as int] == piece[0]);
        }
    }
    let ghost before = row_views(out@);
    out.push(part);
    proof {
        assert(row_views(out@) == before.push(piece));
        assert(before.push(piece) == before + seq![piece]);
    }
}

/// Does `path` begin at the root of the file system?
pub fn rooted(path: &Vec<char>) -> (r: bool)
    ensures
        r == is_rooted(path@),
{
    path.len() > 0 && path[0] == '/'
}

/// Does `path` begin with a single dot as its first piece?
pub fn dotted(path: &Vec<char>) -> (r: bool)
    ensures
        r == begins_with_dot(path@),
{
    path.len() > 0 && path[0] == '.' && (path.len() == 1 || path[1] == '/')
}

fn alike_at_start(a: &str, b: &str) -> (r: bool)
    ensures
        r == same_start(a@, b@),
{
    let x = chars_of(a);
    let y = chars_of(b);
    rooted(&x) == rooted(&y) && dotted(&x) == dotted(&y)
}

fn first_rows_equal(a: &Vec<Vec<char>>, b: &Vec<Vec<char>>) -> (r: bool)
    ensures
        r == (b@.len() <= a@.len() && row_views(a@).take(b@.len() as int) == row_views(b@)),
{
    if b.len() > a.len() {
        return false;
    }
    let mut i: usize = 0;
    while i < b.len()
        invariant
            i <= b.len() <= a.len(),
            forall|k: int| 0 <= k < i ==> a@[k]@ == b@[k]@,
        decreases b.len() - i,
    {
        if !same_chars(&a[i], &b[i]) {
            assert(row_views(a@).take(b@.len() as int)[i as int] != row_views(b@)[i as int]);
            return false;
        }
        i += 1;
    }
    assert(row_views(a@).take(b@.len() as int) == row_views(b@));
    true
}

/// Do `a` and `b` name the same place?
pub fn same_path(a: &str, b: &str) -> (r: bool)
    ensures
        r == same_place(a@, b@),
{
    if !alike_at_start(a, b) {
        return false;
    }
    let x = path_components(a);
    let y = path_components(b);
    proof {
        assert(row_views(x@).take(row_views(x@).len() as int) == row_views(x@));
    }
    x.len() == y.len() && first_rows_equal(&x, &y)
}

/// Is `path` the place `ancestor`, or does it lie below it?
pub fn under(path: &str, ancestor: &str) -> (r: bool)
    ensures
        r == is_under(path@, ancestor@),
{
    if !alike_at_start(path, ancestor) {
        return false;
    }
    let x = path_components(path);
    let y = path_components(ancestor);
    first_rows_equal(&x, &y)
}

/// The last component of `path`, where it has one and that names an entry.
pub fn last_name(path: &str) -> (r: Option<String>)
    ensures
        match r {
            Some(name) => last_component(path@) == Some(name@),
            None => last_component(path@) is None,
        },
{
    let all = path_components(path);
    if all.len() == 0 {
        return None;
    }
    let name = string_of(&all[all.len() - 1]);
    assert(row_views(all@).last() == all@[all.len() - 1]@);
    if entry_name(name.as_str()) {
        Some(name)
    } else {
        None
    }
}

/// `path` as seen from `root`.
pub fn relative(path: &str, root: &str) -> (r: String)
    ensures
        r@ == relative_to(path@, root@),
{
    let p = chars_of(path);
    let mut base = chars_of(root);
    let sep = slash_chars();
    if has_suffix(&base, &sep) && has_prefix(&p, &base) {
        proof {
            assert(p@.subrange(base.len() as int, p.len() as int) == p@.skip(base.len() as int));
        }
        return string_of_range(&p, base.len(), p.len());
    }
    base.push('/');
    proof {
        assert(root@.push('/') == root@ + slash());
    }
    if has_prefix(&p, &base) {
        proof {
            assert(p@.subrange(base.len() as int, p.len() as int) == p@.skip(base.len() as int));
        }
        string_of_range(&p, base.len(), p.len())
    } else {
        String::new()
    }
}

} // verus!
