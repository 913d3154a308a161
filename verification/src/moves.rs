//! Moving, renaming and creating entries without overwriting what is there.
//!
//! Nothing here touches the file system. Each function is given the names
//! that already stand in the destination folder and answers with the path the
//! entry is to get, or with the reason why the request is refused.

use vstd::prelude::*;
use vstd::set_lib::{lemma_int_range, lemma_len_subset, lemma_map_size, set_int_range};
use crate::error::Error;
use crate::listing::FileContent;
use crate::paths::{
    components, is_under, join, joined, last_component, last_name, lemma_components_are_names,
    lemma_components_joined, md_suffix, md_suffix_chars, parent_dir_of, parent_path,
    path_components, same_path, same_place, under,
};
use crate::text::{
    chars_of, decimal, decimal_chars, ends_with, has_suffix, lemma_decimal_injective, same_text,
    string_of, string_of_range,
};

verus! {

/// `stem`, the number `n` in decimal, then `ext`.
pub open spec fn numbered(stem: Seq<char>, n: nat, ext: Seq<char>) -> Seq<char> {
    stem + decimal(n) + ext
}

/// `n` is the least number from 1 on whose numbered name is not among `names`.
pub open spec fn is_least_free(
    names: Seq<Seq<char>>,
    stem: Seq<char>,
    ext: Seq<char>,
    n: nat,
) -> bool {
    &&& n >= 1
    &&& !names.contains(numbered(stem, n, ext))
    &&& forall|m: nat| 1 <= m < n ==> names.contains(#[trigger] numbered(stem, m, ext))
}

/// The least number from 1 on whose numbered name is not among `names`.
pub open spec fn least_free(names: Seq<Seq<char>>, stem: Seq<char>, ext: Seq<char>) -> nat {
    choose|n: nat| is_least_free(names, stem, ext, n)
}

/// The first numbered name that is not among `names`.
pub open spec fn first_free(names: Seq<Seq<char>>, stem: Seq<char>, ext: Seq<char>) -> Seq<char> {
    numbered(stem, least_free(names, stem, ext), ext)
}

/// Different numbers give different names.
pub proof fn lemma_numbered_injective(stem: Seq<char>, ext: Seq<char>, a: nat, b: nat)
    requires
        numbered(stem, a, ext) == numbered(stem, b, ext),
    ensures
        a == b,
{
    let x = numbered(stem, a, ext);
    let y = numbered(stem, b, ext);
    assert(x.len() == stem.len() + decimal(a).len() + ext.len());
    assert(y.len() == stem.len() + decimal(b).len() + ext.len());
    let from = stem.len() as int;
    let to = (stem.len() + decimal(a).len()) as int;
    assert(x.subrange(from, to) == decimal(a));
    assert(y.subrange(from, to) == decimal(b));
    lemma_decimal_injective(a, b);
}

/// There is only one least free number.
pub proof fn lemma_least_free_unique(
    names: Seq<Seq<char>>,
    stem: Seq<char>,
    ext: Seq<char>,
    n: nat,
)
    requires
        is_least_free(names, stem, ext, n),
    ensures
        least_free(names, stem, ext) == n,
{
    let k = least_free(names, stem, ext);
    assert(is_least_free(names, stem, ext, k));
    if k < n {
        assert(names.contains(numbered(stem, k, ext)));
    }
    if n < k {
        assert(names.contains(numbered(stem, n, ext)));
    }
}

/// Where the names numbered 1 to `n - 1` are all among `names`, there are at
/// least `n - 1` names.
pub proof fn lemma_numbered_names_fit(
    names: Seq<Seq<char>>,
    stem: Seq<char>,
    ext: Seq<char>,
    n: nat,
)
    requires
        n >= 1,
        forall|m: nat| 1 <= m < n ==> names.contains(#[trigger] numbered(stem, m, ext)),
    ensures
        n - 1 <= names.len(),
{
    let numbers = set_int_range(1, n as int);
    let name_of = |m: int| numbered(stem, m as nat, ext);
    let numbered_names = numbers.map(name_of);
    lemma_int_range(1, n as int);
    assert(vstd::relations::injective_on(name_of, numbers)) by {
        assert forall|a: int, b: int|
            numbers.contains(a) && numbers.contains(b) && #[trigger] name_of(a) == #[trigger] name_of(
                b,
            ) implies a == b by {
            lemma_numbered_injective(stem, ext, a as nat, b as nat);
        }
    }
    lemma_map_size(numbers, numbered_names, name_of);
    assert(numbered_names.subset_of(names.to_set())) by {
        assert forall|x: Seq<char>| numbered_names.contains(x) implies names.to_set().contains(
            x,
        ) by {
            let m = choose|m: int| numbers.contains(m) && name_of(m) == x;
            assert(names.contains(numbered(stem, m as nat, ext)));
        }
    }
    vstd::seq_lib::seq_to_set_is_finite(names);
    lemma_len_subset(numbered_names, names.to_set());
    names.lemma_cardinality_of_set();
}

/// A least free number exists, whatever the names: of the names numbered 1
/// to one more than there are names, not all can be among them.
pub proof fn lemma_least_free_exists(names: Seq<Seq<char>>, stem: Seq<char>, ext: Seq<char>)
    ensures
        is_least_free(names, stem, ext, least_free(names, stem, ext)),
        1 <= least_free(names, stem, ext) <= names.len() + 1,
{
    let n = lemma_find_least_free(names, stem, ext, 1);
    lemma_least_free_unique(names, stem, ext, n);
}

proof fn lemma_find_least_free(
    names: Seq<Seq<char>>,
    stem: Seq<char>,
    ext: Seq<char>,
    from: nat,
) -> (n: nat)
    requires
        1 <= from <= names.len() + 1,
        forall|m: nat| 1 <= m < from ==> names.contains(#[trigger] numbered(stem, m, ext)),
    ensures
        is_least_free(names, stem, ext, n),
        1 <= n <= names.len() + 1,
    decreases names.len() + 1 - from,
{
    if !names.contains(numbered(stem, from, ext)) {
        from
    } else {
        lemma_numbered_names_fit(names, stem, ext, from + 1);
        lemma_find_least_free(names, stem, ext, from + 1)
    }
}

/// Is `name` one of `names`?
pub fn name_taken(names: &Vec<String>, name: &str) -> (r: bool)
    ensures
        r == names.deep_view().contains(name@),
{
    let mut i: usize = 0;
    while i < names.len()
        invariant
            i <= names.len(),
            forall|k: int| 0 <= k < i ==> names.deep_view()[k] != name@,
        decreases names.len() - i,
    {
        if same_text(names[i].as_str(), name) {
            assert(names.deep_view()[i as int] == name@);
            return true;
        }
        i += 1;
    }
    false
}

/// The first of `stem1ext`, `stem2ext`, ... that is not among `names`.
pub fn first_free_name(names: &Vec<String>, stem: &str, ext: &str) -> (r: String)
    ensures
        r@ == first_free(names.deep_view(), stem@, ext@),
        !names.deep_view().contains(r@),
        is_least_free(
            names.deep_view(),
            stem@,
            ext@,
            least_free(names.deep_view(), stem@, ext@),
        ),
{
    let mut n: u128 = 1;
    loop
        invariant
            1 <= n <= names.len() + 1,
            names.deep_view().len() == names.len(),
            forall|m: nat|
                1 <= m < n ==> names.deep_view().contains(#[trigger] numbered(stem@, m, ext@)),
        decreases names.len() + 1 - n,
    {
        let mut candidate = chars_of(stem);
        let mut digits = decimal_chars(n);
        let mut tail = chars_of(ext);
        candidate.append(&mut digits);
        candidate.append(&mut tail);
        let name = string_of(&candidate);
        if !name_taken(names, name.as_str()) {
            proof {
                lemma_least_free_unique(names.deep_view(), stem@, ext@, n as nat);
            }
            return name;
        }
        proof {
            lemma_numbered_names_fit(names.deep_view(), stem@, ext@, (n + 1) as nat);
        }
        n += 1;
    }
}

/// A file name without the document suffix, where it has one.
pub open spec fn file_stem(name: Seq<char>) -> Seq<char> {
    if ends_with(name, md_suffix()) {
        name.take(name.len() - 3)
    } else {
        name
    }
}

/// The document suffix of a file name, where it has one.
pub open spec fn file_ext(name: Seq<char>) -> Seq<char> {
    if ends_with(name, md_suffix()) {
        md_suffix()
    } else {
        Seq::empty()
    }
}

/// The name a file called `name` gets among `names`: `name` where that is
/// free, else the first free one of `stem 1.md`, `stem 2.md`, ...
pub open spec fn free_file_name(names: Seq<Seq<char>>, name: Seq<char>) -> Seq<char> {
    if !names.contains(name) {
        name
    } else {
        first_free(names, file_stem(name).push(' '), file_ext(name))
    }
}

/// The name a folder called `name` gets among `names`: `name` where that is
/// free, else the first free one of `name1`, `name2`, ...
pub open spec fn free_folder_name(names: Seq<Seq<char>>, name: Seq<char>) -> Seq<char> {
    if !names.contains(name) {
        name
    } else {
        first_free(names, name, Seq::empty())
    }
}

/// Where the file at `from` goes when it is moved into `to_folder`, which
/// holds `names`; or why it cannot go there.
///
/// The file keeps its name, which is the last component of `from`. It cannot
/// go where it is: whether it would is told by the components of the paths,
/// so that separators in a row and single dots make no difference.
pub open spec fn moved_file(from: Seq<char>, to_folder: Seq<char>, names: Seq<Seq<char>>) -> Result<
    Seq<char>,
    Error,
> {
    if to_folder.len() == 0 {
        Err(Error::InvalidArgument)
    } else {
        match last_component(from) {
            None => Err(Error::InvalidArgument),
            Some(name) => if same_place(joined(to_folder, name), from) {
                Err(Error::SourceEqualsDestination)
            } else {
                Ok(joined(to_folder, free_file_name(names, name)))
            },
        }
    }
}

/// Where the folder at `from` goes when it is moved into `to_folder`, which
/// holds `names`; or why it cannot go there.
///
/// The folder keeps its name, which is the last component of `from`. It
/// cannot go where it is, nor into itself or below itself: whether it would
/// is told by the components of the paths, so that separators in a row and
/// single dots make no difference.
pub open spec fn moved_folder(
    from: Seq<char>,
    to_folder: Seq<char>,
    names: Seq<Seq<char>>,
) -> Result<Seq<char>, Error> {
    if to_folder.len() == 0 {
        Err(Error::InvalidArgument)
    } else {
        match last_component(from) {
            None => Err(Error::InvalidArgument),
            Some(name) => if same_place(joined(to_folder, name), from) {
                Err(Error::SourceEqualsDestination)
            } else if is_under(joined(to_folder, name), from) {
                Err(Error::SelfContainment)
            } else {
                Ok(joined(to_folder, free_folder_name(names, name)))
            },
        }
    }
}

/// Does the outcome `r` stand for `expected`?
pub open spec fn path_result_is(r: Result<String, Error>, expected: Result<Seq<char>, Error>) -> bool {
    match r {
        Ok(path) => expected == Ok::<Seq<char>, Error>(path@),
        Err(e) => expected == Err::<Seq<char>, Error>(e),
    }
}

/// The path under which the file at `from_path` is to be moved into
/// `to_folder`, given the names `existing` that stand in that folder.
///
/// A name that is taken is never reused: the file then gets a numbered name.
pub fn move_file(from_path: &str, to_folder: &str, existing: &Vec<String>) -> (r: Result<
    String,
    Error,
>)
    ensures
        path_result_is(r, moved_file(from_path@, to_folder@, existing.deep_view())),
        r matches Ok(path) ==> last_component(from_path@) is Some && path@ == joined(
            to_folder@,
            free_file_name(existing.deep_view(), last_component(from_path@)->0),
        ) && !existing.deep_view().contains(
            free_file_name(existing.deep_view(), last_component(from_path@)->0),
        ),
{
    if to_folder.is_empty() {
        return Err(Error::InvalidArgument);
    }
    let name = match last_name(from_path) {
        Some(name) => name,
        None => {
            return Err(Error::InvalidArgument);
        },
    };
    let candidate = join(to_folder, name.as_str());
    if same_path(candidate.as_str(), from_path) {
        return Err(Error::SourceEqualsDestination);
    }
    if !name_taken(existing, name.as_str()) {
        return Ok(candidate);
    }
    let chars = chars_of(name.as_str());
    let suffix = md_suffix_chars();
    let free = if has_suffix(&chars, &suffix) {
        let mut stem = string_of_range(&chars, 0, chars.len() - 3);
        stem.push(' ');
        proof {
            assert(chars@.subrange(0, chars.len() - 3) == chars@.take(chars.len() - 3));
        }
        let ext = string_of(&suffix);
        first_free_name(existing, stem.as_str(), ext.as_str())
    } else {
        let mut stem = name.clone();
        stem.push(' ');
        let ext = String::new();
        first_free_name(existing, stem.as_str(), ext.as_str())
    };
    Ok(join(to_folder, free.as_str()))
}

/// The path under which the folder at `from_path` is to be moved into
/// `to_folder`, given the names `existing` that stand in that folder.
///
/// A folder is never moved into itself or below itself, and a name that is
/// taken is never reused.
pub fn move_folder(from_path: &str, to_folder: &str, existing: &Vec<String>) -> (r: Result<
    String,
    Error,
>)
    ensures
        path_result_is(r, moved_folder(from_path@, to_folder@, existing.deep_view())),
        r matches Ok(path) ==> last_component(from_path@) is Some && path@ == joined(
            to_folder@,
            free_folder_name(existing.deep_view(), last_component(from_path@)->0),
        ) && !existing.deep_view().contains(
            free_folder_name(existing.deep_view(), last_component(from_path@)->0),
        ) && !is_under(joined(to_folder@, last_component(from_path@)->0), from_path@),
{
    if to_folder.is_empty() {
        return Err(Error::InvalidArgument);
    }
    let name = match last_name(from_path) {
        Some(name) => name,
        None => {
            return Err(Error::InvalidArgument);
        },
    };
    let candidate = join(to_folder, name.as_str());
    if same_path(candidate.as_str(), from_path) {
        return Err(Error::SourceEqualsDestination);
    }
    if under(candidate.as_str(), from_path) {
        return Err(Error::SelfContainment);
    }
    if !name_taken(existing, name.as_str()) {
        return Ok(candidate);
    }
    let ext = String::new();
    let free = first_free_name(existing, name.as_str(), ext.as_str());
    Ok(join(to_folder, free.as_str()))
}

/// A folder is never moved into itself or into a folder below it: whatever
/// the destination holds, and however the two paths are written, such a move
/// is refused as self-containment.
pub proof fn lemma_no_move_below_itself(
    from: Seq<char>,
    to_folder: Seq<char>,
    names: Seq<Seq<char>>,
)
    requires
        last_component(from) is Some,
        is_under(to_folder, from),
    ensures
        moved_folder(from, to_folder, names) == Err::<Seq<char>, Error>(Error::SelfContainment),
{
    let name = last_component(from)->0;
    let target = joined(to_folder, name);
    lemma_components_are_names(from, components(from).len() - 1);
    assert(to_folder.len() > 0) by {
        if to_folder.len() == 0 {
            assert(components(to_folder).len() == 0);
        }
    }
    lemma_components_joined(to_folder, name);
    let source = components(from);
    let parts = components(target);
    assert(parts.take(source.len() as int) == components(to_folder).take(source.len() as int));
}

/// The path an entry gets when its name is changed in place; or why it
/// cannot be renamed: a path without a component names no entry.
pub open spec fn renamed(old_path: Seq<char>, new_name: Seq<char>) -> Result<Seq<char>, Error> {
    if components(old_path).len() == 0 {
        Err(Error::InvalidArgument)
    } else {
        Ok(joined(parent_path(old_path), new_name))
    }
}

/// The path that the entry at `old_path` gets under the name `new_name`, in
/// the directory it lies in.
pub fn rename_file(old_path: &str, new_name: &str) -> (r: Result<String, Error>)
    ensures
        path_result_is(r, renamed(old_path@, new_name@)),
{
    let parts = path_components(old_path);
    if parts.len() == 0 {
        return Err(Error::InvalidArgument);
    }
    let parent = parent_dir_of(old_path);
    Ok(join(parent.as_str(), new_name))
}

/// The empty document that is to be created in `target_dir`, which holds
/// `existing`: the first free one of `Untitled-1.md`, `Untitled-2.md`, ...
pub fn create_file(target_dir: &str, existing: &Vec<String>) -> (r: FileContent)
    ensures
        r.content@.len() == 0,
        r.path@ == joined(target_dir@, first_free(existing.deep_view(), "Untitled-"@, ".md"@)),
        !existing.deep_view().contains(first_free(existing.deep_view(), "Untitled-"@, ".md"@)),
{
    let name = first_free_name(existing, "Untitled-", ".md");
    FileContent { content: String::new(), path: join(target_dir, name.as_str()) }
}

/// The path of the folder that is to be created in `target_dir`, which holds
/// `existing`: the first free one of `Untitled Folder 1`, `Untitled Folder 2`, ...
pub fn create_untitled_folder(target_dir: &str, existing: &Vec<String>) -> (r: String)
    ensures
        r@ == joined(
            target_dir@,
            first_free(existing.deep_view(), "Untitled Folder "@, Seq::empty()),
        ),
        !existing.deep_view().contains(
            first_free(existing.deep_view(), "Untitled Folder "@, Seq::empty()),
        ),
{
    let ext = String::new();
    let name = first_free_name(existing, "Untitled Folder ", ext.as_str());
    join(target_dir, name.as_str())
}

} // verus!
