//! The local file that a download goes to.

use crate::split::{split_at, split_at_char};
use crate::text::{chars_of, copy_range, same_chars, string_of_range, views};
use vstd::prelude::*;

verus! {

/// Whether `part` is a component of a path that names something: neither
/// empty nor a single dot.
pub open spec fn names(part: Seq<char>) -> bool {
    part.len() > 0 && part != seq!['.']
}

/// The components of `path`: its pieces between slashes, but for the empty
/// ones and the single dots.
pub open spec fn components(path: Seq<char>) -> Seq<Seq<char>> {
    split_at(path, '/').filter(|part: Seq<char>| names(part))
}

/// The name of the file that `path` ends in: its last component, unless
/// there is none or it is a double dot.
pub open spec fn file_name(path: Seq<char>) -> Option<Seq<char>> {
    let c = components(path);
    if c.len() == 0 || c.last() == seq!['.', '.'] {
        None
    } else {
        Some(c.last())
    }
}

/// The position of the last dot in `name`, or `-1` where it has none.
pub open spec fn last_dot(name: Seq<char>) -> int
    decreases name.len(),
{
    if name.len() == 0 {
        -1
    } else if name.last() == '.' {
        name.len() - 1
    } else {
        last_dot(name.drop_last())
    }
}

/// The extension of the file that `path` ends in: what follows the last dot
/// of its name, where the name has a dot that is not its first character.
pub open spec fn extension(path: Seq<char>) -> Option<Seq<char>> {
    match file_name(path) {
        None => None,
        Some(name) => {
            let dot = last_dot(name);
            if dot <= 0 {
                None
            } else {
                Some(name.skip(dot + 1))
            }
        },
    }
}

/// How the local file is to be opened.
#[derive(Debug, Clone, Copy, PartialEq, Eq, Structural)]
pub enum FileAccess {
    /// The file does not exist yet and is created.
    Create,
    /// The file exists and is opened.
    Open,
}

/// Why a path cannot be the target of a download.
#[derive(Debug, Clone, Copy, PartialEq, Eq, Structural)]
pub enum FileError {
    /// The path names a file without an extension, or no file.
    NoExtension,
}

/// The last component of a path is the last of its pieces that names
/// something.
proof fn lemma_last_component(parts: Seq<Seq<char>>, n: int)
    requires
        0 <= n <= parts.len(),
        forall|k: int| n <= k < parts.len() ==> !names(#[trigger] parts[k]),
        n > 0 ==> names(parts[n - 1]),
    ensures
        n == 0 ==> parts.filter(|part: Seq<char>| names(part)).len() == 0,
        n > 0 ==> parts.filter(|part: Seq<char>| names(part)).len() > 0 && parts.filter(
            |part: Seq<char>| names(part),
        ).last() == parts[n - 1],
    decreases parts.len(),
{
    reveal(Seq::filter);
    if parts.len() > n {
        lemma_last_component(parts.drop_last(), n);
    }
}

/// The name of the file that `path` ends in.
pub fn final_name(path: &Vec<char>) -> (r: Option<Vec<char>>)
    ensures
        match r {
            Some(name) => file_name(path@) == Some(name@),
            None => file_name(path@) is None,
        },
{
    let parts = split_at_char(path, '/');
    let dot: Vec<char> = vec!['.'];
    let dots: Vec<char> = vec!['.', '.'];
    let mut n: usize = parts.len();
    while n > 0 && (parts[n - 1].len() == 0 || same_chars(&parts[n - 1], &dot))
        invariant
            n <= parts.len(),
            dot@ == seq!['.'],
            forall|k: int| n <= k < parts.len() ==> !names(#[trigger] views(parts@)[k]),
        decreases n,
    {
        n -= 1;
    }
    proof {
        lemma_last_component(views(parts@), n as int);
    }
    if n == 0 {
        return None;
    }
    if same_chars(&parts[n - 1], &dots) {
        return None;
    }
    Some(copy_range(&parts[n - 1], 0, parts[n - 1].len()))
}

/// The extension of the file that `path` ends in.
pub fn file_extension(path: &str) -> (r: Option<String>)
    ensures
        match r {
            Some(ext) => extension(path@) == Some(ext@),
            None => extension(path@) is None,
        },
{
    let chars = chars_of(path);
    let name = match final_name(&chars) {
        Some(name) => name,
        None => {
            return None;
        },
    };
    let mut i: usize = name.len();
    assert(name@.take(i as int) =~= name@);
    while i > 0 && name[i - 1] != '.'
        invariant
            i <= name.len(),
            last_dot(name@) == last_dot(name@.take(i as int)),
        decreases i,
    {
        assert(name@.take(i as int).drop_last() =~= name@.take(i - 1));
        i -= 1;
    }
    if i <= 1 {
        return None;
    }
    Some(string_of_range(&name, i, name.len()))
}

/// Decides how the target of a download at `filepath` is opened, given
/// whether the file exists. A path without an extension is refused.
pub fn get_file(filepath: &str, exists: bool) -> (r: Result<FileAccess, FileError>)
    ensures
        match r {
            Ok(access) => extension(filepath@) is Some && access == if exists {
                FileAccess::Open
            } else {
                FileAccess::Create
            },
            Err(e) => extension(filepath@) is None && e == FileError::NoExtension,
        },
{
    match file_extension(filepath) {
        None => Err(FileError::NoExtension),
        Some(_) => if exists {
            Ok(FileAccess::Open)
        } else {
            Ok(FileAccess::Create)
        },
    }
}

} // verus!
