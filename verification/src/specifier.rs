//! Path resolution: from a specifier as written in source to the path of the
//! file it names.
//!
//! Paths are strings whose components are separated by `/`.

use vstd::prelude::*;
use vstd::string::*;

verus! {

/// The extension a file name gets when it does not already end in it.
pub open spec fn default_extension() -> Seq<char> {
    seq!['.', 'j', 's']
}

/// A specifier is relative when it begins with a dot. Every other specifier
/// names a package and is never followed.
pub open spec fn is_relative(specifier: Seq<char>) -> bool {
    specifier.len() > 0 && specifier[0] == '.'
}

/// `s` without its first character, if that character is `c`.
pub open spec fn strip_leading(s: Seq<char>, c: char) -> Seq<char> {
    if s.len() > 0 && s[0] == c {
        s.skip(1)
    } else {
        s
    }
}

/// Whether `s` ends in the default extension.
pub open spec fn has_default_extension(s: Seq<char>) -> bool {
    s.len() >= 3 && s.skip(s.len() - 3) == default_extension()
}

/// The file name a specifier stands for: at most one leading dot and then at
/// most one leading separator are dropped, and the default extension is
/// appended unless it is already there.
pub open spec fn file_name_of(specifier: Seq<char>) -> Seq<char> {
    let stem = strip_leading(strip_leading(specifier, '.'), '/');
    if has_default_extension(stem) {
        stem
    } else {
        stem + default_extension()
    }
}

/// The directory that contains `path`: everything before the last separator.
/// A path without a separator lies in the empty (current) directory, and the
/// root is its own parent.
pub open spec fn parent_of(path: Seq<char>) -> Seq<char>
    decreases path.len(),
{
    if path.len() == 0 {
        path
    } else if path.last() == '/' {
        if path.len() == 1 {
            path
        } else {
            path.drop_last()
        }
    } else {
        parent_of(path.drop_last())
    }
}

/// `name` placed in directory `base`. An absolute `name` replaces `base`;
/// a separator is inserted unless `base` is empty or already ends in one.
pub open spec fn join_of(base: Seq<char>, name: Seq<char>) -> Seq<char> {
    if name.len() > 0 && name[0] == '/' {
        name
    } else if base.len() == 0 || base.last() == '/' {
        base + name
    } else {
        base + seq!['/'] + name
    }
}

/// What a specifier resolves to, seen from a base directory.
#[derive(Debug, Clone, PartialEq, Eq)]
pub enum PathName {
    /// A relative specifier: the path of the file, joined onto the base
    /// directory and not yet canonical.
    File(String),
    /// A package specifier, unchanged.
    Package(String),
}

pub enum PathNameView {
    File(Seq<char>),
    Package(Seq<char>),
}

impl View for PathName {
    type V = PathNameView;

    open spec fn view(&self) -> PathNameView {
        match self {
            PathName::File(path) => PathNameView::File(path@),
            PathName::Package(specifier) => PathNameView::Package(specifier@),
        }
    }
}

/// The resolution of `specifier` against `base`.
pub open spec fn path_name_of(base: Seq<char>, specifier: Seq<char>) -> PathNameView {
    if is_relative(specifier) {
        PathNameView::File(join_of(base, file_name_of(specifier)))
    } else {
        PathNameView::Package(specifier)
    }
}

/// Extension inference: a relative specifier written without the default
/// extension names the same file as the specifier written with it.
pub proof fn lemma_extension_inferred(specifier: Seq<char>)
    requires
        is_relative(specifier),
        !has_default_extension(specifier),
    ensures
        file_name_of(specifier + default_extension()) == file_name_of(specifier),
        forall|base: Seq<char>| #[trigger]
            path_name_of(base, specifier + default_extension()) == path_name_of(base, specifier),
{
    let extension = default_extension();
    let longer = specifier + extension;
    let rest = specifier.skip(1);
    assert(strip_leading(longer, '.') =~= rest + extension);
    let stem = strip_leading(rest, '/');
    assert(strip_leading(rest + extension, '/') =~= stem + extension);
    assert((stem + extension).skip((stem + extension).len() - 3) =~= extension);
    if has_default_extension(stem) {
        assert(specifier.skip(specifier.len() - 3) =~= stem.skip(stem.len() - 3));
    }
}

fn starts_with_char(s: &str, c: char) -> (found: bool)
    ensures
        found == (s@.len() > 0 && s@[0] == c),
{
    s.unicode_len() > 0 && s.get_char(0) == c
}

fn ends_with_char(s: &str, c: char) -> (found: bool)
    ensures
        found == (s@.len() > 0 && s@.last() == c),
{
    let len: usize = s.unicode_len();
    len > 0 && s.get_char(len - 1) == c
}

fn without_first(s: &str) -> (rest: String)
    requires
        s@.len() > 0,
    ensures
        rest@ == s@.skip(1),
{
    let len: usize = s.unicode_len();
    let rest = s.substring_char(1, len).to_owned();
    assert(s@.subrange(1, len as int) =~= s@.skip(1));
    rest
}

fn ends_with_default_extension(s: &str) -> (found: bool)
    ensures
        found == has_default_extension(s@),
{
    let len: usize = s.unicode_len();
    if len < 3 {
        return false;
    }
    let found = s.get_char(len - 3) == '.' && s.get_char(len - 2) == 'j' && s.get_char(len - 1)
        == 's';
    proof {
        let tail = s@.skip(len - 3);
        assert(tail.len() == 3);
        assert(tail[0] == s@[len - 3]);
        assert(tail[1] == s@[len - 2]);
        assert(tail[2] == s@[len - 1]);
        if found {
            assert(tail =~= default_extension());
        }
    }
    found
}

/// Whether a specifier names a package rather than a file.
pub fn is_node_module(file_name: &str) -> (bare: bool)
    ensures
        bare == !is_relative(file_name@),
{
    !starts_with_char(file_name, '.')
}

/// The file name that a specifier stands for.
pub fn get_file_name(file_name: String) -> (name: String)
    ensures
        name@ == file_name_of(file_name@),
{
    let mut name = file_name;
    if starts_with_char(name.as_str(), '.') {
        name = without_first(name.as_str());
    }
    if starts_with_char(name.as_str(), '/') {
        name = without_first(name.as_str());
    }
    if !ends_with_default_extension(name.as_str()) {
        proof {
            reveal_strlit(".js");
            assert(".js"@ =~= default_extension());
        }
        name.append(".js");
    }
    name
}

/// The directory that contains `path`.
pub fn parent_directory(path: &str) -> (parent: String)
    ensures
        parent@ == parent_of(path@),
{
    let mut end: usize = path.unicode_len();
    proof {
        assert(path@.take(end as int) =~= path@);
    }
    while end > 0 && path.get_char(end - 1) != '/'
        invariant
            end <= path@.len(),
            parent_of(path@) == parent_of(path@.take(end as int)),
        decreases end,
    {
        proof {
            assert(path@.take(end as int).drop_last() =~= path@.take(end - 1));
        }
        end = end - 1;
    }
    let keep: usize = if end > 1 {
        end - 1
    } else {
        end
    };
    proof {
        let prefix = path@.take(end as int);
        if end > 1 {
            assert(prefix.drop_last() =~= path@.subrange(0, keep as int));
        } else {
            assert(prefix =~= path@.subrange(0, keep as int));
        }
    }
    path.substring_char(0, keep).to_owned()
}

/// `name` placed in directory `base`.
pub fn join_path(base: &str, name: &str) -> (path: String)
    ensures
        path@ == join_of(base@, name@),
{
    if starts_with_char(name, '/') {
        return name.to_owned();
    }
    let mut path = base.to_owned();
    if base.unicode_len() > 0 && !ends_with_char(base, '/') {
        proof {
            reveal_strlit("/");
            assert("/"@ =~= seq!['/']);
        }
        path.append("/");
    }
    path.append(name);
    path
}

/// Resolves `file_name`, a specifier found in a module that lies in
/// directory `base_path`. A relative specifier gives the path of a file,
/// still to be canonicalized; any other specifier is handed back as it is.
pub fn get_path_name(base_path: String, file_name: String) -> (resolved: PathName)
    ensures
        resolved@ == path_name_of(base_path@, file_name@),
{
    if is_node_module(file_name.as_str()) {
        return PathName::Package(file_name);
    }
    let name = get_file_name(file_name);
    PathName::File(join_path(base_path.as_str(), name.as_str()))
}

} // verus!
