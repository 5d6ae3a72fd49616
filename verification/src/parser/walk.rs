//! Which entries of a workspace the walk over its directories leaves out.

use vstd::prelude::*;
use crate::paths::last_name;
use crate::text::{ends_with, has_prefix, has_suffix, same, split, split_on, starts_with, to_chars, views};
use crate::types::texts;

verus! {

/// The names that the walk leaves out wherever they occur.
pub open spec fn ignored_names() -> Seq<Seq<char>> {
    seq![
        ".git"@,
        "target"@,
        "node_modules"@,
        "__pycache__"@,
        ".venv"@,
        "venv"@,
        ".pytest_cache"@,
        ".mypy_cache"@,
        ".tox"@,
        "dist"@,
        "build"@,
        ".egg-info"@,
    ]
}

/// The endings of the files that the walk leaves out.
pub open spec fn ignored_endings() -> Seq<Seq<char>> {
    seq![".pyc"@, ".pyo"@, ".so"@, ".dylib"@, ".dll"@]
}

/// Whether some text of `list` begins `name`.
pub open spec fn begins_with_any(name: Seq<char>, list: Seq<Seq<char>>) -> bool {
    exists|i: int| 0 <= i < list.len() && has_prefix(name, #[trigger] list[i])
}

/// Whether some text of `list` ends `name`.
pub open spec fn ends_with_any(name: Seq<char>, list: Seq<Seq<char>>) -> bool {
    exists|i: int| 0 <= i < list.len() && has_suffix(name, #[trigger] list[i])
}

/// Whether the walk leaves out an entry with the file name `name`: a hidden
/// entry whose name begins with an ignored name, an entry whose name is an
/// ignored name, and a file with an ignored ending.
pub open spec fn ignored(name: Seq<char>, patterns: Seq<Seq<char>>, is_file: bool) -> bool {
    ||| has_prefix(name, "."@) && name != "."@ && name != ".."@ && begins_with_any(name, patterns)
    ||| patterns.contains(name)
    ||| is_file && ends_with_any(name, ignored_endings())
}

/// The file name of the path `path`: its last segment that is neither empty
/// nor `.`; a path without one, or one that ends in `..`, has the empty name.
pub open spec fn file_name_of(path: Seq<char>) -> Seq<char> {
    match last_name(split(path, "/"@)) {
        Some(name) => name,
        None => Seq::empty(),
    }
}

/// The walk over the directories of a workspace.
#[derive(Debug)]
pub struct DirectoryWalker {
    root_path: String,
    ignore_patterns: Vec<String>,
}

impl DirectoryWalker {
    /// The root of the walk.
    pub closed spec fn root(&self) -> Seq<char> {
        self.root_path@
    }

    /// The names that the walk leaves out.
    pub closed spec fn patterns(&self) -> Seq<Seq<char>> {
        texts(self.ignore_patterns@)
    }

    /// The walk over the workspace at `root_path`, which leaves out the
    /// usual directories of tools and builds.
    pub fn new(root_path: &str) -> (r: Self)
        ensures
            r.root() == root_path@,
            r.patterns() == ignored_names(),
    {
        let mut patterns: Vec<String> = Vec::new();
        patterns.push(".git".to_owned());
        patterns.push("target".to_owned());
        patterns.push("node_modules".to_owned());
        patterns.push("__pycache__".to_owned());
        patterns.push(".venv".to_owned());
        patterns.push("venv".to_owned());
        patterns.push(".pytest_cache".to_owned());
        patterns.push(".mypy_cache".to_owned());
        patterns.push(".tox".to_owned());
        patterns.push("dist".to_owned());
        patterns.push("build".to_owned());
        patterns.push(".egg-info".to_owned());
        assert(texts(patterns@) =~= ignored_names());
        DirectoryWalker { root_path: root_path.to_owned(), ignore_patterns: patterns }
    }

    /// The root of the walk.
    pub fn root_path(&self) -> (r: &str)
        ensures
            r@ == self.root(),
    {
        self.root_path.as_str()
    }

    /// Whether the walk leaves out the entry with the file name `file_name`.
    pub fn ignores_name(&self, file_name: &str, is_file: bool) -> (r: bool)
        ensures
            r == ignored(file_name@, self.patterns(), is_file),
    {
        let name = to_chars(file_name);
        let dot = to_chars(".");
        let dots = to_chars("..");
        let hidden = starts_with(&name, &dot) && !same(&name, &dot) && !same(&name, &dots);
        let mut begins = false;
        let mut equals = false;
        let mut i: usize = 0;
        while i < self.ignore_patterns.len()
            invariant
                i <= self.ignore_patterns.len(),
                begins == begins_with_any(name@, self.patterns().take(i as int)),
                equals == self.patterns().take(i as int).contains(name@),
            decreases self.ignore_patterns.len() - i,
        {
            let pattern = to_chars(self.ignore_patterns[i].as_str());
            let ghost before = self.patterns().take(i as int);
            let ghost after = self.patterns().take(i + 1);
            assert(after == before.push(pattern@));
            assert(begins_with_any(name@, after) == (begins_with_any(name@, before) || has_prefix(
                name@,
                pattern@,
            ))) by {
                if begins_with_any(name@, before) {
                    let j = choose|j: int| 0 <= j < before.len() && has_prefix(name@, #[trigger] before[j]);
                    assert(has_prefix(name@, after[j]));
                }
                if has_prefix(name@, pattern@) {
                    assert(has_prefix(name@, after[i as int]));
                }
            }
            assert(after.contains(name@) == (before.contains(name@) || name@ == pattern@)) by {
                if before.contains(name@) {
                    let j = choose|j: int| 0 <= j < before.len() && before[j] == name@;
                    assert(after[j] == name@);
                }
                if name@ == pattern@ {
                    assert(after[i as int] == name@);
                }
            }
            if starts_with(&name, &pattern) {
                begins = true;
            }
            if same(&name, &pattern) {
                equals = true;
            }
            i = i + 1;
        }
        assert(self.patterns().take(self.ignore_patterns.len() as int) == self.patterns());
        if hidden && begins {
            return true;
        }
        if equals {
            return true;
        }
        if !is_file {
            return false;
        }
        let pyc = to_chars(".pyc");
        let pyo = to_chars(".pyo");
        let so = to_chars(".so");
        let dylib = to_chars(".dylib");
        let dll = to_chars(".dll");
        let r = ends_with(&name, &pyc) || ends_with(&name, &pyo) || ends_with(&name, &so)
            || ends_with(&name, &dylib) || ends_with(&name, &dll);
        proof {
            let endings = ignored_endings();
            if r {
                if has_suffix(name@, ".pyc"@) {
                    assert(has_suffix(name@, endings[0]));
                } else if has_suffix(name@, ".pyo"@) {
                    assert(has_suffix(name@, endings[1]));
                } else if has_suffix(name@, ".so"@) {
                    assert(has_suffix(name@, endings[2]));
                } else if has_suffix(name@, ".dylib"@) {
                    assert(has_suffix(name@, endings[3]));
                } else {
                    assert(has_suffix(name@, endings[4]));
                }
            }
        }
        r
    }

    /// Whether the walk leaves out the entry at `path`, judged by its file
    /// name.
    pub fn should_ignore(&self, path: &str, is_file: bool) -> (r: bool)
        ensures
            r == ignored(file_name_of(path@), self.patterns(), is_file),
    {
        let chars = to_chars(path);
        let slash = to_chars("/");
        let dot = to_chars(".");
        let dots = to_chars("..");
        let segments = split_on(&chars, &slash);
        let ghost all = views(segments@);
        let mut i: usize = segments.len();
        assert(all.take(i as int) == all);
        while i > 0
            invariant
                i <= segments.len(),
                all == views(segments@),
                all == split(path@, "/"@),
                dot@ == "."@,
                dots@ == ".."@,
                last_name(all) == last_name(all.take(i as int)),
            decreases i,
        {
            let segment = &segments[i - 1];
            assert(all.take(i as int).last() == segment@);
            assert(all.take(i as int).drop_last() == all.take(i - 1));
            if segment.len() == 0 || same(segment, &dot) {
                i = i - 1;
            } else if same(segment, &dots) {
                let empty = String::new();
                return self.ignores_name(empty.as_str(), is_file);
            } else {
                let name = crate::text::from_chars(segment);
                return self.ignores_name(name.as_str(), is_file);
            }
        }
        let empty = String::new();
        self.ignores_name(empty.as_str(), is_file)
    }
}

} // verus!
