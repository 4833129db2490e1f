//! Class path entries and class paths: where a class loader looks for class files.

use vstd::prelude::*;
use vstd::string::{StrSliceExecFns, StringExecFns};

verus! {

/// `s` begins with `p`.
pub open spec fn has_prefix(s: Seq<char>, p: Seq<char>) -> bool {
    p.len() <= s.len() && s.subrange(0, p.len() as int) == p
}

/// Whether `s` begins with `prefix`.
pub fn starts_with(s: &str, prefix: &str) -> (r: bool)
    ensures
        r == has_prefix(s@, prefix@),
{
    let n = prefix.unicode_len();
    if n > s.unicode_len() {
        return false;
    }
    let mut i: usize = 0;
    while i < n
        invariant
            n == prefix@.len(),
            n <= s@.len(),
            i <= n,
            forall|j: int| 0 <= j < i ==> s@[j] == prefix@[j],
        decreases n - i,
    {
        if s.get_char(i) != prefix.get_char(i) {
            assert(s@.subrange(0, n as int)[i as int] != prefix@[i as int]);
            return false;
        }
        i = i + 1;
    }
    assert(s@.subrange(0, n as int) =~= prefix@);
    true
}

/// A class path entry that names a resource on the network rather than on disk.
pub open spec fn is_url(path: Seq<char>) -> bool {
    has_prefix(path, "https://"@) || has_prefix(path, "http://"@)
}

/// Relies on std's `Path::is_file`: whether a regular file exists at `path` now. What
/// is on disk may change, so nothing is promised of the answer.
#[verifier::external_body]
fn path_is_file(path: &str) -> bool {
    std::path::Path::new(path).is_file()
}

/// A directory of class files, laid out by package.
#[derive(Debug, PartialEq)]
pub struct Directory {
    pub path: String,
}

/// A JAR archive of class files.
#[derive(Debug, PartialEq)]
pub struct Jar {
    pub path: String,
}

/// A JAR archive fetched over HTTP(S).
#[derive(Debug, PartialEq)]
pub struct Url {
    pub url: String,
}

/// One entry of a class path.
#[derive(Debug, PartialEq)]
pub enum ClassPathEntry {
    Directory(Directory),
    Jar(Jar),
    Url(Url),
}

impl ClassPathEntry {
    /// The path or URL the entry was made from.
    pub open spec fn spec_name(&self) -> Seq<char> {
        match self {
            ClassPathEntry::Directory(d) => d.path@,
            ClassPathEntry::Jar(j) => j.path@,
            ClassPathEntry::Url(u) => u.url@,
        }
    }

    /// The entry for `path`, given whether a regular file exists there: a URL where it
    /// starts with `https://` or `http://`, else a JAR where it is a file, else a directory.
    pub fn classify(path: &str, is_file: bool) -> (r: ClassPathEntry)
        ensures
            r.spec_name() == path@,
            is_url(path@) ==> r is Url,
            !is_url(path@) && is_file ==> r is Jar,
            !is_url(path@) && !is_file ==> r is Directory,
    {
        if starts_with(path, "https://") || starts_with(path, "http://") {
            ClassPathEntry::Url(Url { url: String::from_str(path) })
        } else if is_file {
            ClassPathEntry::Jar(Jar { path: String::from_str(path) })
        } else {
            ClassPathEntry::Directory(Directory { path: String::from_str(path) })
        }
    }

    /// The entry for `path`: a URL where it starts with `https://` or `http://`, else a
    /// JAR where a regular file exists at `path`, else a directory.
    pub fn new(path: &str) -> (r: ClassPathEntry)
        ensures
            r.spec_name() == path@,
            is_url(path@) ==> r is Url,
            !is_url(path@) ==> r is Jar || r is Directory,
    {
        let is_file = if starts_with(path, "https://") || starts_with(path, "http://") {
            false
        } else {
            path_is_file(path)
        };
        ClassPathEntry::classify(path, is_file)
    }

    /// The path or URL the entry was made from.
    pub fn name(&self) -> (r: String)
        ensures
            r@ == self.spec_name(),
    {
        match self {
            ClassPathEntry::Directory(d) => String::from_str(d.path.as_str()),
            ClassPathEntry::Jar(j) => String::from_str(j.path.as_str()),
            ClassPathEntry::Url(u) => String::from_str(u.url.as_str()),
        }
    }
}

impl Default for ClassPathEntry {
    /// The current directory.
    fn default() -> (r: ClassPathEntry)
        ensures
            r is Directory,
            r.spec_name() == "."@,
    {
        ClassPathEntry::Directory(Directory { path: String::from_str(".") })
    }
}

/// `parts` joined by `separator`.
pub open spec fn join(parts: Seq<Seq<char>>, separator: char) -> Seq<char>
    decreases parts.len(),
{
    if parts.len() == 0 {
        seq![]
    } else if parts.len() == 1 {
        parts[0]
    } else {
        join(parts.drop_last(), separator) + seq![separator] + parts.last()
    }
}

/// An ordered list of class path entries.
#[derive(Debug, PartialEq)]
pub struct ClassPath {
    pub entries: Vec<ClassPathEntry>,
}

/// The separator of class path entries.
pub const SEPARATOR: char = ':';

impl ClassPath {
    /// The names of the entries, in order.
    pub open spec fn names(&self) -> Seq<Seq<char>> {
        self.entries@.map_values(|e: ClassPathEntry| e.spec_name())
    }

    /// A class path with no entries.
    pub fn empty() -> (r: ClassPath)
        ensures
            r.names().len() == 0,
    {
        ClassPath { entries: Vec::new() }
    }

    /// The class path whose entries are the parts of `path` between `:` separators.
    pub fn parse(path: &str) -> (r: ClassPath)
        ensures
            join(r.names(), SEPARATOR) == path@,
            r.names().len() >= 1,
            forall|i: int, j: int|
                0 <= i < r.names().len() && 0 <= j < r.names()[i].len() ==> r.names()[i][j]
                    != SEPARATOR,
    {
        let n = path.unicode_len();
        let mut entries: Vec<ClassPathEntry> = Vec::new();
        let mut start: usize = 0;
        let mut i: usize = 0;
        while i < n
            invariant
                n == path@.len(),
                start <= i <= n,
                entries@.len() > 0 ==> join(
                    entries@.map_values(|e: ClassPathEntry| e.spec_name()),
                    SEPARATOR,
                ) + seq![SEPARATOR] == path@.subrange(0, start as int),
                entries@.len() == 0 ==> start == 0,
                forall|j: int| start <= j < i ==> path@[j] != SEPARATOR,
                forall|k: int, j: int|
                    0 <= k < entries@.len() && 0 <= j < entries@[k].spec_name().len()
                        ==> entries@[k].spec_name()[j] != SEPARATOR,
            decreases n - i,
        {
            if path.get_char(i) == SEPARATOR {
                let part = path.substring_char(start, i);
                let ghost prev = entries@.map_values(|e: ClassPathEntry| e.spec_name());
                let entry = ClassPathEntry::new(part);
                entries.push(entry);
                let ghost names = entries@.map_values(|e: ClassPathEntry| e.spec_name());
                assert(names.drop_last() =~= prev);
                assert(names.last() == path@.subrange(start as int, i as int));
                proof {
                    if prev.len() == 0 {
                        assert(path@.subrange(0, i + 1) =~= path@.subrange(start as int, i as int)
                            + seq![SEPARATOR]);
                    } else {
                        assert(path@.subrange(0, i + 1) =~= path@.subrange(0, start as int)
                            + path@.subrange(start as int, i as int) + seq![SEPARATOR]);
                    }
                }
                start = i + 1;
            }
            i = i + 1;
        }
        let part = path.substring_char(start, n);
        let ghost prev = entries@.map_values(|e: ClassPathEntry| e.spec_name());
        entries.push(ClassPathEntry::new(part));
        let ghost names = entries@.map_values(|e: ClassPathEntry| e.spec_name());
        assert(names.drop_last() =~= prev);
        proof {
            if prev.len() == 0 {
                assert(path@.subrange(start as int, n as int) =~= path@);
            } else {
                assert(path@ =~= path@.subrange(0, start as int) + path@.subrange(
                    start as int,
                    n as int,
                ));
            }
        }
        ClassPath { entries }
    }

    /// The number of entries.
    pub fn len(&self) -> (r: usize)
        ensures
            r == self.names().len(),
    {
        self.entries.len()
    }

    /// The entry at `index`.
    pub fn get(&self, index: usize) -> (r: &ClassPathEntry)
        requires
            index < self.names().len(),
        ensures
            r.spec_name() == self.names()[index as int],
    {
        &self.entries[index]
    }
}

impl Directory {
    /// The path of the class file of `class_name` in this directory: the directory, `/`,
    /// the name with each `.` replaced by `/`, and `.class`.
    pub fn class_file_path(&self, class_name: &str) -> (r: String)
        ensures
            r@ == self.path@ + "/"@ + crate::vm::slashed(class_name@) + ".class"@,
    {
        let mut path = String::from_str(self.path.as_str());
        path.append("/");
        let relative = crate::vm::internal_class_name(class_name);
        path.append(relative.as_str());
        path.append(".class");
        path
    }
}

} // verus!
