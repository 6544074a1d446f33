//! The traversal side of the tool, kept apart from the I/O that drives it:
//! the work-list of directories still to be scanned, the count of
//! directories read successfully (which decides the exit status), and the
//! decisions about each directory entry: whether to descend into it,
//! search it, or skip it.

use vstd::prelude::*;

verus! {

/// A name that starts with a dot; such directories are never descended into.
pub open spec fn dot_name(name: Seq<u8>) -> bool {
    name.len() > 0 && name[0] == 46u8
}

/// Whether `name` starts with a dot.
pub fn is_dot_name(name: &Vec<u8>) -> (r: bool)
    ensures
        r == dot_name(name@),
{
    name.len() > 0 && name[0] == 46u8
}

/// The built-in list of file extensions whose contents are never searched.
pub open spec fn ignored_extension(e: Seq<u8>) -> bool {
    ||| e == seq![98u8, 105u8, 110u8]  // bin
    ||| e == seq![101u8, 120u8, 101u8]  // exe
    ||| e == seq![111u8, 98u8, 106u8]  // obj
    ||| e == seq![111u8]  // o
    ||| e == seq![100u8, 108u8, 108u8]  // dll
}

/// Whether `e` is one of the built-in ignored extensions.
pub fn is_ignored_extension(e: &Vec<u8>) -> (r: bool)
    ensures
        r == ignored_extension(e@),
{
    let bin = e.len() == 3 && e[0] == 98 && e[1] == 105 && e[2] == 110;
    let exe = e.len() == 3 && e[0] == 101 && e[1] == 120 && e[2] == 101;
    let obj = e.len() == 3 && e[0] == 111 && e[1] == 98 && e[2] == 106;
    let o = e.len() == 1 && e[0] == 111;
    let dll = e.len() == 3 && e[0] == 100 && e[1] == 108 && e[2] == 108;
    proof {
        if bin {
            assert(e@ =~= seq![98u8, 105u8, 110u8]);
        }
        if exe {
            assert(e@ =~= seq![101u8, 120u8, 101u8]);
        }
        if obj {
            assert(e@ =~= seq![111u8, 98u8, 106u8]);
        }
        if o {
            assert(e@ =~= seq![111u8]);
        }
        if dll {
            assert(e@ =~= seq![100u8, 108u8, 108u8]);
        }
    }
    bin || exe || obj || o || dll
}

/// Whether the traversal descends into a directory entry: only directories,
/// never dot-named ones, and only when recursion was asked for.
pub open spec fn recurse_spec(is_dir: bool, name: Seq<u8>, recursive: bool) -> bool {
    is_dir && !dot_name(name) && recursive
}

/// The descend-or-not decision for one directory entry.
pub fn should_recurse(is_dir: bool, name: &Vec<u8>, recursive: bool) -> (r: bool)
    ensures
        r == recurse_spec(is_dir, name@, recursive),
{
    is_dir && !is_dot_name(name) && recursive
}

/// Whether a file is skipped in content search: exactly when its extension
/// is on the built-in ignore list.
pub open spec fn skip_file_spec(ext: Option<Seq<u8>>) -> bool {
    match ext {
        Option::Some(e) => ignored_extension(e),
        Option::None => false,
    }
}

/// The skip-or-search decision for a file in content search.
pub fn should_skip_file(ext: &Option<Vec<u8>>) -> (r: bool)
    ensures
        r == skip_file_spec(match *ext {
            Option::Some(ref e) => Option::Some(e@),
            Option::None => Option::None,
        }),
{
    match ext {
        Option::Some(e) => is_ignored_extension(e),
        Option::None => false,
    }
}

/// The traversal state: the directories still to be scanned, in order, and
/// how many were read successfully so far.  The run as a whole succeeds
/// exactly when at least one directory could be read.
pub struct Traversal {
    /// Directories waiting to be scanned, front first.
    pub pending: Vec<Vec<u8>>,
    /// Directories read successfully so far.
    pub read_dirs: usize,
}

impl Traversal {
    /// A traversal that starts at the single directory `start`.
    pub fn new(start: Vec<u8>) -> (t: Traversal)
        ensures
            t.pending@.len() == 1,
            t.pending@[0]@ == start@,
            t.read_dirs == 0,
    {
        let mut pending: Vec<Vec<u8>> = Vec::new();
        pending.push(start);
        Traversal { pending, read_dirs: 0 }
    }

    /// Whether any directory is still waiting.
    pub fn has_pending(&self) -> (r: bool)
        ensures
            r == (self.pending@.len() > 0),
    {
        self.pending.len() > 0
    }

    /// Takes the front directory off the work-list.
    pub fn take_next(&mut self) -> (r: Vec<u8>)
        requires
            old(self).pending@.len() > 0,
        ensures
            r == old(self).pending@[0],
            final(self).pending@ == old(self).pending@.subrange(
                1,
                old(self).pending@.len() as int,
            ),
            final(self).read_dirs == old(self).read_dirs,
    {
        let r = self.pending.remove(0);
        proof {
            assert(self.pending@ =~= old(self).pending@.subrange(
                1,
                old(self).pending@.len() as int,
            ));
        }
        r
    }

    /// Records that a directory was read successfully.
    pub fn record_read(&mut self)
        ensures
            final(self).read_dirs == if old(self).read_dirs < usize::MAX {
                old(self).read_dirs + 1
            } else {
                old(self).read_dirs as int
            },
            final(self).pending == old(self).pending,
    {
        if self.read_dirs < usize::MAX {
            self.read_dirs = self.read_dirs + 1;
        }
    }

    /// Adds the subdirectories found in one directory to the back of the
    /// work-list, in order.
    pub fn enqueue(&mut self, subdirs: Vec<Vec<u8>>)
        ensures
            final(self).pending@ == old(self).pending@ + subdirs@,
            final(self).read_dirs == old(self).read_dirs,
    {
        let mut s = subdirs;
        self.pending.append(&mut s);
    }

    /// Whether the run as a whole succeeded: at least one directory was
    /// read, whether or not anything matched.
    pub fn run_succeeded(&self) -> (r: bool)
        ensures
            r == (self.read_dirs > 0),
    {
        self.read_dirs > 0
    }
}

} // verus!
