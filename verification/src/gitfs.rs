//! The storage engine that keeps each bundle in a file of its own under
//! version control: where a bundle's file lies, what a commit says, and
//! which key a file stands for.

use crate::config::{storage_dir, Config};
use crate::text::{chars_of, join, join_strings, lemma_split_join, slice_of, split, split_chars};
use vstd::prelude::*;
use vstd::string::*;

verus! {

/// The directory of this engine under the data directory.
pub const DIR: &'static str = "gitfs";

/// The extension of a bundle's file.
pub const EXT: &'static str = "baza";

/// The message of the first commit.
pub const INITIAL_COMMIT: &'static str = "Initial commit";

/// The engine itself; it holds no state of its own.
#[derive(Debug, Clone, Copy, PartialEq, Eq, Structural)]
pub struct GitFs;

/// What happened to a bundle.
#[derive(Debug, Clone, Copy, PartialEq, Eq, Structural)]
pub enum Change {
    Added,
    Updated,
    Deleted,
}

impl Change {
    /// The word a commit message ends in.
    pub open spec fn word(self) -> Seq<char> {
        match self {
            Change::Added => "added"@,
            Change::Updated => "updated"@,
            Change::Deleted => "deleted"@,
        }
    }
}

/// Whether a segment can name a directory or a file of the engine: it is
/// not empty, holds no separator, and does not start with a dot, as hidden
/// files and the steps `.` and `..` do.
pub open spec fn safe_segment(segment: Seq<char>) -> bool {
    segment.len() > 0 && segment[0] != '.' && !segment.contains('/')
}

/// Whether a pointer names a file under the engine's directory: it has a
/// bundle, and every segment is safe.
pub open spec fn safe_pointer(pointer: Seq<Seq<char>>) -> bool {
    &&& pointer.len() > 0
    &&& forall|i: int| 0 <= i < pointer.len() ==> safe_segment(#[trigger] pointer[i])
}

/// The path, under the engine's directory, of the file that holds the
/// bundle with the pointer given: the segments as directories, the last
/// with the extension.
pub open spec fn relative_path_spec(pointer: Seq<Seq<char>>) -> Seq<char> {
    join(pointer, "/"@) + "."@ + EXT@
}

/// The path of the file that holds the bundle with the pointer given, where
/// the engine's directory is `root`.
pub open spec fn bundle_path_spec(root: Seq<char>, pointer: Seq<Seq<char>>) -> Seq<char> {
    root + "/"@ + relative_path_spec(pointer)
}

/// The message of the commit that records `change` on the bundle `name`.
pub open spec fn commit_message_spec(name: Seq<char>, change: Change) -> Seq<char> {
    "Bundle "@ + name + " was "@ + change.word()
}

/// The position of the last `c` in `s`, or -1 where there is none.
pub open spec fn last_index_of(s: Seq<char>, c: char) -> int
    decreases s.len(),
{
    if s.len() == 0 {
        -1
    } else if s.last() == c {
        s.len() - 1
    } else {
        last_index_of(s.drop_last(), c)
    }
}

/// `path` without the extension of its file name: what follows the last
/// dot of the last component, unless that dot opens the component.
pub open spec fn without_extension(path: Seq<char>) -> Seq<char> {
    let dot = last_index_of(path, '.');
    let slash = last_index_of(path, '/');
    if dot > slash + 1 {
        path.take(dot)
    } else {
        path
    }
}

/// The key of the bundle whose file lies at `relative` under the engine's
/// directory: the path without its extension, with `delimiter` in place of
/// each separator.
pub open spec fn key_of_path_spec(relative: Seq<char>, delimiter: Seq<char>) -> Seq<char> {
    join(split(without_extension(relative), "/"@), delimiter)
}

proof fn lemma_last_index_of(s: Seq<char>, c: char, i: int)
    requires
        -1 <= i < s.len(),
        i >= 0 ==> s[i] == c,
        forall|j: int| i < j < s.len() ==> s[j] != c,
    ensures
        last_index_of(s, c) == i,
    decreases s.len(),
{
    if s.len() > 0 && i < s.len() - 1 {
        lemma_last_index_of(s.drop_last(), c, i);
    }
}

/// The position of the last `c` in `chars`, if there is one.
fn last_position(chars: &Vec<char>, c: char) -> (r: Option<usize>)
    ensures
        match r {
            Some(i) => i == last_index_of(chars@, c) && i < chars@.len(),
            None => last_index_of(chars@, c) == -1,
        },
{
    let mut i: usize = chars.len();
    while i > 0
        invariant
            i <= chars.len(),
            forall|j: int| i <= j < chars.len() ==> chars@[j] != c,
        decreases i,
    {
        if chars[i - 1] == c {
            proof {
                lemma_last_index_of(chars@, c, i - 1);
            }
            return Some(i - 1);
        }
        i -= 1;
    }
    proof {
        lemma_last_index_of(chars@, c, -1);
    }
    None
}

impl GitFs {
    /// The directory in which the engine keeps its files.
    pub fn root(config: &Config) -> (path: String)
        ensures
            path@ == config.main.datadir@ + "/data/"@ + DIR@,
    {
        storage_dir(config, DIR)
    }

    /// Whether a segment can name a directory or a file of the engine.
    pub fn is_safe_segment(segment: &str) -> (safe: bool)
        ensures
            safe == safe_segment(segment@),
    {
        let chars = chars_of(segment);
        if chars.len() == 0 || chars[0] == '.' {
            return false;
        }
        let mut i: usize = 0;
        while i < chars.len()
            invariant
                i <= chars.len(),
                chars@ == segment@,
                forall|j: int| 0 <= j < i ==> chars@[j] != '/',
            decreases chars.len() - i,
        {
            if chars[i] == '/' {
                proof {
                    assert(segment@[i as int] == '/');
                }
                return false;
            }
            i += 1;
        }
        true
    }

    /// Whether a pointer names a file under the engine's directory.
    pub fn is_safe_pointer(pointer: &Vec<String>) -> (safe: bool)
        ensures
            safe == safe_pointer(pointer.deep_view()),
    {
        let mut i: usize = 0;
        while i < pointer.len()
            invariant
                i <= pointer.len(),
                forall|j: int| 0 <= j < i ==> safe_segment(#[trigger] pointer.deep_view()[j]),
            decreases pointer.len() - i,
        {
            if !Self::is_safe_segment(pointer[i].as_str()) {
                proof {
                    assert(!safe_segment(pointer.deep_view()[i as int]));
                }
                return false;
            }
            i += 1;
        }
        pointer.len() > 0
    }

    /// The path of the file that holds the bundle with the pointer given,
    /// where the engine's directory is `root`. A pointer that is not safe
    /// names no file: it could leave the directory or hide from a search.
    pub fn bundle_path(root: &str, pointer: &Vec<String>) -> (r: Option<String>)
        ensures
            match r {
                Some(path) => {
                    &&& safe_pointer(pointer.deep_view())
                    &&& path@ == bundle_path_spec(root@, pointer.deep_view())
                },
                None => !safe_pointer(pointer.deep_view()),
            },
    {
        if !Self::is_safe_pointer(pointer) {
            return None;
        }
        let mut relative = join_strings(pointer, "/");
        relative.append(".");
        relative.append(EXT);
        let mut path = root.to_string();
        path.append("/");
        path.append(relative.as_str());
        Some(path)
    }

    /// The message of the commit that records `change` on the bundle `name`.
    pub fn commit_message(name: &str, change: Change) -> (message: String)
        ensures
            message@ == commit_message_spec(name@, change),
    {
        let mut message = "Bundle ".to_string();
        message.append(name);
        message.append(" was ");
        match change {
            Change::Added => message.append("added"),
            Change::Updated => message.append("updated"),
            Change::Deleted => message.append("deleted"),
        }
        message
    }

    /// Whether a file or directory of this name is passed over in a search:
    /// its name starts with a dot.
    pub fn is_hidden(file_name: &str) -> (hidden: bool)
        ensures
            hidden == (file_name@.len() > 0 && file_name@[0] == '.'),
    {
        let chars = chars_of(file_name);
        chars.len() > 0 && chars[0] == '.'
    }

    /// The key of the bundle whose file lies at `relative` under the
    /// engine's directory.
    pub fn key_of_path(relative: &str, delimiter: &str) -> (key: String)
        ensures
            key@ == key_of_path_spec(relative@, delimiter@),
    {
        let chars = chars_of(relative);
        let n: usize = chars.len();
        let dot = last_position(&chars, '.');
        let slash = last_position(&chars, '/');
        let end = match dot {
            Some(d) => match slash {
                Some(s) => if d > s + 1 {
                    d
                } else {
                    n
                },
                None => if d > 0 {
                    d
                } else {
                    n
                },
            },
            None => n,
        };
        let stem = slice_of(&chars, 0, end);
        proof {
            assert(chars@.subrange(0, end as int) == chars@.take(end as int));
            assert(chars@.take(chars.len() as int) == chars@);
            reveal_strlit("/");
        }
        let parts = split_chars(&stem, &chars_of("/"));
        join_strings(&parts, delimiter)
    }
}

/// The file of a bundle stands for the bundle's key: of the path that a
/// safe pointer gives, the key is the pointer joined by the delimiter.
pub proof fn lemma_key_of_relative_path(pointer: Seq<Seq<char>>, delimiter: Seq<char>)
    requires
        safe_pointer(pointer),
    ensures
        key_of_path_spec(relative_path_spec(pointer), delimiter) == join(pointer, delimiter),
{
    reveal_strlit("/");
    reveal_strlit(".");
    reveal_strlit("baza");
    let slash = "/"@;
    let body = join(pointer, slash);
    let path = relative_path_spec(pointer);
    let last = pointer.last();
    assert(slash == seq!['/']);
    assert(path == body + seq!['.'] + seq!['b', 'a', 'z', 'a']);
    let before: int = if pointer.len() == 1 {
        -1
    } else {
        join(pointer.drop_last(), slash).len() as int
    };
    assert(body.len() == before + 1 + last.len() && body.subrange(before + 1, body.len() as int)
        == last) by {
        if pointer.len() > 1 {
            assert(body == join(pointer.drop_last(), slash) + slash + last);
        }
    }
    assert(before >= 0 ==> body[before] == '/');
    assert forall|j: int| before < j < path.len() implies path[j] != '/' by {
        if j < body.len() {
            assert(path[j] == last[j - before - 1]);
            assert(last.contains(last[j - before - 1]));
        }
    }
    lemma_last_index_of(path, '/', before);
    lemma_last_index_of(path, '.', body.len() as int);
    assert(path.take(body.len() as int) == body);
    assert forall|i: int| 0 <= i < pointer.len() implies !(#[trigger] pointer[i]).contains('/') by {
        assert(safe_segment(pointer[i]));
    }
    lemma_split_join(pointer, '/');
}

} // verus!
