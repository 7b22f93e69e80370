//! Where a file is: the directory that holds it, and its name there.

use crate::text::{text_view, to_chars, to_text};
use vstd::prelude::*;
use vstd::slice::slice_subrange;

verus! {

/// A path without what adds nothing to its end: slashes, but for the one that
/// is the root, and `.` behind a slash.
pub open spec fn without_tail(s: Seq<char>) -> Seq<char>
    decreases s.len(),
{
    if s.len() > 1 && (s.last() == '/' || (s.last() == '.' && s[s.len() - 2] == '/')) {
        without_tail(s.drop_last())
    } else {
        s
    }
}

/// The index behind the last slash, zero without one.
pub open spec fn last_start(s: Seq<char>) -> int
    decreases s.len(),
{
    if s.len() == 0 || s.last() == '/' {
        s.len() as int
    } else {
        last_start(s.drop_last())
    }
}

/// The last component of a path: what stands behind its last slash. The root
/// and the empty path have none.
pub open spec fn last_component(path: Seq<char>) -> Seq<char> {
    let s = without_tail(path);
    s.skip(last_start(s))
}

/// The directory that holds what the path names: the path before its last
/// component, and `.` where nothing stands there or the path has no component.
pub open spec fn directory_of(path: Seq<char>) -> Seq<char> {
    let s = without_tail(path);
    let front = without_tail(s.take(last_start(s)));
    if last_component(path).len() == 0 || front.len() == 0 {
        "."@
    } else {
        front
    }
}

/// The name of the file in its directory. A path without a component has
/// none, nor has one that ends in `.` or `..`, which names a directory.
pub open spec fn name_of(path: Seq<char>) -> Option<Seq<char>> {
    let name = last_component(path);
    if name.len() == 0 || name == "."@ || name == ".."@ {
        None
    } else {
        Some(name)
    }
}

/// The directory to watch, and the name to look for in its notifications.
pub struct WatchPlace {
    pub directory: String,
    pub name: Option<String>,
}

/// A path without what adds nothing to its end.
fn cut_tail(s: &[char]) -> (r: &[char])
    ensures
        r@ == without_tail(s@),
{
    let mut n: usize = s.len();
    assert(s@.take(n as int) =~= s@);
    while n > 1 && (s[n - 1] == '/' || (s[n - 1] == '.' && s[n - 2] == '/'))
        invariant
            n <= s.len(),
            without_tail(s@.take(n as int)) == without_tail(s@),
        decreases n,
    {
        assert(s@.take(n as int).drop_last() =~= s@.take(n - 1));
        n = n - 1;
    }
    slice_subrange(s, 0, n)
}

/// The index behind the last slash, zero without one.
fn find_last_start(s: &[char]) -> (r: usize)
    ensures
        r == last_start(s@),
        r <= s@.len(),
{
    let mut n: usize = s.len();
    assert(s@.take(n as int) =~= s@);
    while n > 0 && s[n - 1] != '/'
        invariant
            n <= s.len(),
            last_start(s@.take(n as int)) == last_start(s@),
        decreases n,
    {
        assert(s@.take(n as int).drop_last() =~= s@.take(n - 1));
        n = n - 1;
    }
    n
}

/// Finds the directory to watch for a file, and the name to look for.
pub fn watch_place(path: &str) -> (r: WatchPlace)
    ensures
        r.directory@ == directory_of(path@),
        text_view(r.name) == name_of(path@),
{
    let chars = to_chars(path);
    let s = cut_tail(chars.as_slice());
    let k = find_last_start(s);
    let front = cut_tail(slice_subrange(s, 0, k));
    let name = slice_subrange(s, k, s.len());
    assert(name@ =~= last_component(path@));
    proof {
        reveal_strlit(".");
        reveal_strlit("..");
    }
    let directory = if name.len() == 0 || front.len() == 0 {
        ".".to_owned()
    } else {
        to_text(front)
    };
    let is_file = if name.len() == 1 {
        name[0] != '.'
    } else if name.len() == 2 {
        name[0] != '.' || name[1] != '.'
    } else {
        name.len() > 0
    };
    if is_file {
        assert(name@ != "."@ && name@ != ".."@);
        WatchPlace { directory, name: Some(to_text(name)) }
    } else {
        assert(name@.len() == 0 || name@ =~= "."@ || name@ =~= ".."@);
        WatchPlace { directory, name: None }
    }
}

// ---------------------------------------------------------------------------
// Laws
// ---------------------------------------------------------------------------

/// Whether the text is the name of a file in a directory.
pub open spec fn is_file_name(name: Seq<char>) -> bool {
    name.len() > 0 && !name.contains('/') && name != "."@ && name != ".."@
}

/// The end of a path that ends in the name of a file is that name.
proof fn lemma_ends_in_a_name(front: Seq<char>, name: Seq<char>)
    requires
        is_file_name(name),
        front.len() == 0 || front.last() == '/',
    ensures
        without_tail(front + name) == front + name,
        last_start(front + name) == front.len(),
    decreases name.len(),
{
    let s = front + name;
    assert(s.last() == name.last());
    assert(name.contains(name.last()));
    if name.len() == 1 {
        reveal_strlit(".");
        if name.last() == '.' {
            assert(name =~= "."@);
        }
    } else {
        assert(s[s.len() - 2] == name[name.len() - 2]);
        assert(name.contains(name[name.len() - 2]));
    }
    lemma_last_start(front, name);
}

/// The last slash is the one before a text without one.
pub proof fn lemma_last_start(front: Seq<char>, name: Seq<char>)
    requires
        !name.contains('/'),
        front.len() == 0 || front.last() == '/',
    ensures
        last_start(front + name) == front.len(),
    decreases name.len(),
{
    let s = front + name;
    if name.len() == 0 {
        assert(s =~= front);
    } else {
        let less = name.drop_last();
        assert(name.contains(name.last()));
        assert(!less.contains('/')) by {
            if less.contains('/') {
                let i = choose|i: int| 0 <= i < less.len() && less[i] == '/';
                assert(name[i] == '/');
            }
        }
        assert(s.last() == name.last());
        assert(s.drop_last() =~= front + less);
        lemma_last_start(front, less);
    }
}

/// A file is looked for under its name in the directory that its path gives,
/// and in the current one if the path is the name alone.
pub proof fn a_file_is_in_its_directory(directory: Seq<char>, name: Seq<char>)
    requires
        is_file_name(name),
    ensures
        name_of(directory + "/"@ + name) == Some(name),
        directory_of(directory + "/"@ + name) == without_tail(directory + "/"@),
        name_of(name) == Some(name),
        directory_of(name) == "."@,
{
    reveal_strlit("/");
    let front = directory + "/"@;
    let none = Seq::<char>::empty();
    lemma_ends_in_a_name(front, name);
    assert((front + name).skip(front.len() as int) =~= name);
    assert((front + name).take(front.len() as int) =~= front);
    lemma_tail_leaves_something(front);
    lemma_ends_in_a_name(none, name);
    assert(none + name =~= name);
    assert(name.skip(0) =~= name);
    assert(name.take(0) =~= none);
}

/// A path does not lose all of its characters at the end.
proof fn lemma_tail_leaves_something(s: Seq<char>)
    requires
        s.len() > 0,
    ensures
        without_tail(s).len() > 0,
    decreases s.len(),
{
    if s.len() > 1 {
        lemma_tail_leaves_something(s.drop_last());
    }
}

/// The directory is never the empty path: there is always one to watch.
pub proof fn there_is_a_directory_to_watch(path: Seq<char>)
    ensures
        directory_of(path).len() > 0,
{
    reveal_strlit(".");
}

} // verus!
