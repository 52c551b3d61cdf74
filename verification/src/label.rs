//! Showing a path to a person in limited space, and telling a PDF by its name.
//!
//! A path is text here. Its parts are separated by `/` or `\`, so that a path written on
//! either kind of system is read the same way.

use vstd::prelude::*;
use vstd::string::*;

use crate::text;

verus! {

/// Whether `c` separates the parts of a path.
pub open spec fn is_separator(c: char) -> bool {
    c == '/' || c == '\\'
}

/// What follows the last separator of `path`.
pub open spec fn last_part(path: Seq<char>) -> Seq<char>
    decreases path.len(),
{
    if path.len() == 0 || is_separator(path.last()) {
        Seq::empty()
    } else {
        last_part(path.drop_last()).push(path.last())
    }
}

/// Whether `path` is a drive and nothing more: a letter and a colon.
pub open spec fn is_drive(path: Seq<char>) -> bool {
    path.len() == 2 && ('a' <= path[0] <= 'z' || 'A' <= path[0] <= 'Z') && path[1] == ':'
}

/// The file name in `path`: its last part, disregarding separators at the end and parts that
/// are a single dot. There is none where nothing is left, or only a drive, or where that part
/// is `..`.
pub open spec fn file_name_in(path: Seq<char>) -> Option<Seq<char>>
    decreases path.len(),
{
    if path.len() == 0 {
        None
    } else if is_separator(path.last()) || last_part(path) == seq!['.'] {
        file_name_in(path.drop_last())
    } else if last_part(path) == seq!['.', '.'] || is_drive(path) {
        None
    } else {
        Some(last_part(path))
    }
}

/// How `path` is shown: its file name, or all of it where it has none.
pub open spec fn label_of(path: Seq<char>) -> Seq<char> {
    match file_name_in(path) {
        Some(name) => name,
        None => path,
    }
}

/// What follows the last dot of a file name that does not start with that dot.
pub open spec fn extension_of(name: Seq<char>) -> Option<Seq<char>>
    decreases name.len(),
{
    if name.len() <= 1 {
        None
    } else if name.last() == '.' {
        Some(Seq::empty())
    } else {
        match extension_of(name.drop_last()) {
            Some(extension) => Some(extension.push(name.last())),
            None => None,
        }
    }
}

/// Whether `path` names a PDF, judged by its extension, in capitals or not.
pub open spec fn names_a_pdf(path: Seq<char>) -> bool {
    match file_name_in(path) {
        Some(name) => match extension_of(name) {
            Some(extension) => {
                &&& extension.len() == 3
                &&& (extension[0] == 'p' || extension[0] == 'P')
                &&& (extension[1] == 'd' || extension[1] == 'D')
                &&& (extension[2] == 'f' || extension[2] == 'F')
            },
            None => false,
        },
        None => false,
    }
}

/// Where the last part of `path` starts.
fn last_part_start(path: &[char]) -> (start: usize)
    ensures
        start <= path@.len(),
        last_part(path@) == path@.skip(start as int),
{
    let mut start: usize = path.len();
    let ghost all = path@;
    proof {
        assert(all.take(start as int) =~= all);
        assert(all.skip(start as int) =~= Seq::empty());
        assert(last_part(all.take(start as int)) + all.skip(start as int) =~= last_part(all));
    }
    while start > 0 && path[start - 1] != '/' && path[start - 1] != '\\'
        invariant
            start <= path@.len(),
            all == path@,
            last_part(all) == last_part(all.take(start as int)) + all.skip(start as int),
        decreases start,
    {
        proof {
            assert(all.take(start as int).drop_last() =~= all.take(start - 1));
            assert(last_part(all.take(start - 1)) + all.skip(start - 1) =~= last_part(
                all.take(start as int),
            ) + all.skip(start as int));
        }
        start -= 1;
    }
    proof {
        assert(last_part(all.take(start as int)) =~= Seq::empty());
        assert(Seq::<char>::empty() + all.skip(start as int) =~= all.skip(start as int));
    }
    start
}

/// The file name in `path`.
fn file_name(path: &[char]) -> (name: Option<Vec<char>>)
    ensures
        match name {
            Some(name) => file_name_in(path@) == Some(name@),
            None => file_name_in(path@) is None,
        },
{
    let mut end: usize = path.len();
    proof {
        assert(path@.take(end as int) =~= path@);
    }
    while end > 0
        invariant
            end <= path@.len(),
            file_name_in(path@) == file_name_in(path@.take(end as int)),
        decreases end,
    {
        let ghost whole = path@.take(end as int);
        let front = vstd::slice::slice_subrange(path, 0, end);
        proof {
            assert(front@ =~= whole);
            assert(whole.drop_last() =~= path@.take(end - 1));
        }
        if path[end - 1] == '/' || path[end - 1] == '\\' {
            end -= 1;
            continue;
        }
        let start = last_part_start(front);
        let mut part: Vec<char> = Vec::new();
        let mut i: usize = start;
        while i < end
            invariant
                start <= i <= end <= path@.len(),
                part@ == path@.subrange(start as int, i as int),
            decreases end - i,
        {
            part.push(path[i]);
            i += 1;
            proof {
                assert(part@ =~= path@.subrange(start as int, i as int));
            }
        }
        proof {
            assert(part@ =~= whole.skip(start as int));
        }
        if part.len() == 1 && part[0] == '.' {
            proof {
                assert(part@ =~= seq!['.']);
            }
            end -= 1;
            continue;
        }
        proof {
            assert(part@ != seq!['.']) by {
                if part@ == seq!['.'] {
                    assert(part@[0] == '.');
                }
            }
        }
        if part.len() == 2 && part[0] == '.' && part[1] == '.' {
            proof {
                assert(part@ =~= seq!['.', '.']);
            }
            return None;
        }
        proof {
            assert(part@ != seq!['.', '.']) by {
                if part@ == seq!['.', '.'] {
                    assert(part@[0] == '.' && part@[1] == '.');
                }
            }
        }
        if end == 2 && path[1] == ':' && (('a' <= path[0] && path[0] <= 'z') || ('A' <= path[0]
            && path[0] <= 'Z')) {
            return None;
        }
        return Some(part);
    }
    None
}

/// The file name, or the whole path where there is none to take: an empty label would read
/// as a bug in whatever produced the path.
pub fn file_label(path: &str) -> (label: String)
    ensures
        label@ == label_of(path@),
{
    let chars = text::chars_of(path);
    match file_name(chars.as_slice()) {
        Some(name) => text::text_of(name.as_slice()),
        None => String::from_str(path),
    }
}

/// Whether a path names a PDF, judged by its extension alone: the open itself reports the
/// real parse failure.
pub fn is_pdf(path: &str) -> (pdf: bool)
    ensures
        pdf == names_a_pdf(path@),
{
    let chars = text::chars_of(path);
    let name = match file_name(chars.as_slice()) {
        Some(name) => name,
        None => {
            return false;
        },
    };
    let n = name.len();
    let pdf = n >= 5 && name[n - 4] == '.' && (name[n - 3] == 'p' || name[n - 3] == 'P') && (name[n
        - 2] == 'd' || name[n - 2] == 'D') && (name[n - 1] == 'f' || name[n - 1] == 'F');
    proof {
        lemma_extension(name@);
    }
    pdf
}

/// A file name has the extension that follows its fourth character from the end exactly when
/// that is a dot, is not the first character, and no dot follows it.
proof fn lemma_extension(name: Seq<char>)
    ensures
        ({
            let n = name.len() as int;
            (extension_of(name) is Some && extension_of(name)->0.len() == 3) == (n >= 5 && name[n
                - 4] == '.' && name[n - 3] != '.' && name[n - 2] != '.' && name[n - 1] != '.')
        }),
        extension_of(name) is Some && extension_of(name)->0.len() == 3 ==> extension_of(name)->0
            == name.skip(name.len() - 3),
{
    let n = name.len() as int;
    reveal_with_fuel(extension_of, 5);
    if n >= 4 {
        let a = name.drop_last();
        let b = a.drop_last();
        let c = b.drop_last();
        assert(a.last() == name[n - 2]);
        assert(b.last() == name[n - 3]);
        assert(c.last() == name[n - 4]);
        if n >= 5 && name[n - 4] == '.' && name[n - 3] != '.' && name[n - 2] != '.' && name[n - 1]
            != '.' {
            assert(extension_of(name)->0 =~= name.skip(n - 3));
        }
        if extension_of(name) is Some && name[n - 1] != '.' && name[n - 2] != '.' && name[n - 3]
            != '.' && name[n - 4] != '.' {
            assert(extension_of(c) is Some);
            assert(extension_of(c)->0.len() >= 1);
        }
    }
}

} // verus!
