//! File names and extensions of slash-separated paths.

use vstd::prelude::*;
use vstd::slice::slice_subrange;

use crate::text;

verus! {

/// `path` up to the end of its last component: slashes and `.` components behind it do not
/// count, but a slash or `.` that starts the path does.
pub open spec fn shortened(path: Seq<char>) -> Seq<char>
    decreases path.len(),
{
    let at = text::after_last(path, '/') as int;
    if path.len() > 1 && path.last() == '/' {
        shortened(path.drop_last())
    } else if 0 < at < path.len() && path.skip(at) == "."@ {
        shortened(path.take(at))
    } else {
        path
    }
}

/// Where the last component of a path starts.
pub open spec fn name_start(path: Seq<char>) -> int {
    text::after_last(shortened(path), '/') as int
}

/// The last component of a path, when it names a file: `.` and `..` do not.
pub open spec fn file_name(path: Seq<char>) -> Option<Seq<char>> {
    let name = shortened(path).skip(name_start(path));
    if name.len() == 0 || name == "."@ || name == ".."@ {
        None
    } else {
        Some(name)
    }
}

/// What comes before the last component of a path.
pub open spec fn parent(path: Seq<char>) -> Seq<char> {
    shortened(shortened(path).take(name_start(path)))
}

/// Where the extension of a file name starts: after the last dot, unless that is its first
/// character. 0 when there is none.
pub open spec fn extension_start(name: Seq<char>) -> int {
    let at = text::after_last(name, '.') as int;
    if at > 1 {
        at
    } else {
        0
    }
}

/// The extension of a file name.
pub open spec fn extension(name: Seq<char>) -> Option<Seq<char>> {
    if extension_start(name) > 0 {
        Some(name.skip(extension_start(name)))
    } else {
        None
    }
}

/// A file name without its extension.
pub open spec fn stem(name: Seq<char>) -> Seq<char> {
    if extension_start(name) > 0 {
        name.take(extension_start(name) - 1)
    } else {
        name
    }
}

/// The extension of the file that a path names.
pub open spec fn path_extension(path: Seq<char>) -> Option<Seq<char>> {
    match file_name(path) {
        Some(name) => extension(name),
        None => None,
    }
}

/// A name inside a directory.
pub open spec fn joined(base: Seq<char>, name: Seq<char>) -> Seq<char> {
    if base.len() == 0 || base.last() == '/' {
        base + name
    } else {
        base + "/"@ + name
    }
}

/// A path with its file name replaced, or added where it names no file.
pub open spec fn with_file_name(path: Seq<char>, name: Seq<char>) -> Seq<char> {
    match file_name(path) {
        Some(_) => joined(parent(path), name),
        None => joined(path, name),
    }
}

/// `path` up to the end of its last component.
pub fn shorten(path: &[char]) -> (r: &[char])
    ensures
        r@ == shortened(path@),
        r@.len() <= path@.len(),
{
    let mut rest = path;
    loop
        invariant
            shortened(rest@) == shortened(path@),
            rest@.len() <= path@.len(),
        decreases rest@.len(),
    {
        let n: usize = rest.len();
        if n > 1 && rest[n - 1] == '/' {
            let next = slice_subrange(rest, 0, n - 1);
            assert(next@ =~= rest@.drop_last());
            rest = next;
            continue;
        }
        let at: usize = text::position_after_last(rest, '/');
        if at == 0 || at == n {
            return rest;
        }
        let last = slice_subrange(rest, at, n);
        assert(last@ =~= rest@.skip(at as int));
        if !text::is_text(last, ".") {
            return rest;
        }
        let next = slice_subrange(rest, 0, at);
        assert(next@ =~= rest@.take(at as int));
        rest = next;
    }
}

/// The file name of a path.
pub fn find_name(path: &[char]) -> (r: Option<&[char]>)
    ensures
        r is Some <==> file_name(path@) is Some,
        r is Some ==> r.unwrap()@ == file_name(path@).unwrap(),
{
    let short = shorten(path);
    let at: usize = text::position_after_last(short, '/');
    let name = slice_subrange(short, at, short.len());
    assert(name@ =~= short@.skip(at as int));
    if name.len() == 0 || text::is_text(name, ".") || text::is_text(name, "..") {
        None
    } else {
        Some(name)
    }
}

/// Where the extension of a file name starts, or 0.
pub fn find_extension(name: &[char]) -> (r: usize)
    ensures
        r == extension_start(name@),
        r <= name@.len(),
{
    let at: usize = text::position_after_last(name, '.');
    if at > 1 {
        at
    } else {
        0
    }
}

/// The extension of the file that a path names.
pub fn find_path_extension(path: &[char]) -> (r: Option<&[char]>)
    ensures
        r is Some <==> path_extension(path@) is Some,
        r is Some ==> r.unwrap()@ == path_extension(path@).unwrap(),
{
    match find_name(path) {
        Some(name) => {
            let at: usize = find_extension(name);
            if at == 0 {
                return None;
            }
            let ext = slice_subrange(name, at, name.len());
            assert(ext@ =~= name@.skip(at as int));
            Some(ext)
        },
        None => None,
    }
}

/// A name inside a directory.
pub fn join(base: &[char], name: &str) -> (r: String)
    ensures
        r@ == joined(base@, name@),
{
    let mut r = text::string(base);
    if base.len() > 0 && base[base.len() - 1] != '/' {
        r.append("/");
    }
    r.append(name);
    r
}

/// A path with its file name replaced.
pub fn replace_name(path: &[char], name: &str) -> (r: String)
    ensures
        r@ == with_file_name(path@, name@),
{
    if find_name(path).is_none() {
        return join(path, name);
    }
    let short = shorten(path);
    let at: usize = text::position_after_last(short, '/');
    let before = slice_subrange(short, 0, at);
    assert(before@ =~= short@.take(at as int));
    join(shorten(before), name)
}

} // verus!
