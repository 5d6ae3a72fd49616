//! What counts as a file path in the text that flows past the observer:
//! `file://` URIs, the lines that search tools print, and the targets of
//! shell redirections.

use vstd::prelude::*;
use crate::text::{
    find, find_in, first_token, first_word, from_chars, has_prefix, rfind, rfind_in, same, slice,
    split, split_on, starts_with, to_chars, trim, trimmed, views,
};

verus! {

/// The path that the URI `uri` names: what follows `file://`. A URI of
/// another scheme names no path.
pub open spec fn path_of_uri(uri: Seq<char>) -> Option<Seq<char>> {
    if has_prefix(uri, "file://"@) {
        Some(uri.skip("file://"@.len() as int))
    } else {
        None
    }
}

/// The path that a `file://` URI names; `None` for any other URI.
pub fn uri_to_path(uri: &str) -> (r: Option<String>)
    ensures
        match r {
            Some(path) => path_of_uri(uri@) == Some(path@),
            None => path_of_uri(uri@) is None,
        },
{
    let chars = to_chars(uri);
    let scheme = to_chars("file://");
    if starts_with(&chars, &scheme) {
        let rest = slice(&chars, scheme.len(), chars.len());
        Some(from_chars(&rest))
    } else {
        None
    }
}

/// The path at the start of a line of search output: the line has to begin
/// with `/`; the path ends before the first `:`, or with the line; white
/// space around it is set aside; and `/` alone is no path.
pub open spec fn line_path(line: Seq<char>) -> Option<Seq<char>> {
    if !has_prefix(line, "/"@) {
        None
    } else {
        let cut = match find(line, ":"@) {
            Some(i) => line.take(i),
            None => line,
        };
        if trim(cut).len() > 1 {
            Some(trim(cut))
        } else {
            None
        }
    }
}

/// The path at the start of a line of search output.
pub fn path_from_line(line: &Vec<char>) -> (r: Option<Vec<char>>)
    ensures
        match r {
            Some(path) => line_path(line@) == Some(path@),
            None => line_path(line@) is None,
        },
{
    let slash = to_chars("/");
    if !starts_with(line, &slash) {
        return None;
    }
    let colon = to_chars(":");
    let cut = match find_in(line, &colon, 0) {
        Some(i) => slice(line, 0, i),
        None => {
            let whole = slice(line, 0, line.len());
            assert(line@.subrange(0, line@.len() as int) == line@);
            whole
        },
    };
    let path = trimmed(&cut);
    if path.len() > 1 {
        Some(path)
    } else {
        None
    }
}

/// The path at the start of a line of search output, such as
/// `/path/to/file.rs` or `/path/to/file.rs:42:...`.
pub fn extract_path_from_line(line: &str) -> (r: Option<String>)
    ensures
        match r {
            Some(path) => line_path(line@) == Some(path@),
            None => line_path(line@) is None,
        },
{
    let chars = to_chars(line);
    match path_from_line(&chars) {
        Some(path) => Some(from_chars(&path)),
        None => None,
    }
}

/// The file name among the segments of a path: the last segment that is
/// neither empty nor `.`, unless that segment is `..`.
pub open spec fn last_name(segments: Seq<Seq<char>>) -> Option<Seq<char>>
    decreases segments.len(),
{
    if segments.len() == 0 {
        None
    } else if segments.last().len() == 0 || segments.last() == "."@ {
        last_name(segments.drop_last())
    } else if segments.last() == ".."@ {
        None
    } else {
        Some(segments.last())
    }
}

/// Whether the file name `name` has an extension: a `.` that is not its
/// first character.
pub open spec fn name_has_extension(name: Seq<char>) -> bool {
    match rfind(name, "."@) {
        Some(i) => i > 0,
        None => false,
    }
}

/// Whether the path `path` ends in a file name with an extension. The path
/// is cut at `/`; its file name is the last segment that is neither empty
/// nor `.`, and a path that ends in `..` has none.
pub open spec fn has_extension(path: Seq<char>) -> bool {
    match last_name(split(path, "/"@)) {
        Some(name) => name_has_extension(name),
        None => false,
    }
}

/// Whether the path `path` ends in a file name with an extension.
pub fn path_has_extension(path: &Vec<char>) -> (r: bool)
    ensures
        r == has_extension(path@),
{
    let slash = to_chars("/");
    let dot = to_chars(".");
    let dots = to_chars("..");
    let segments = split_on(path, &slash);
    let ghost all = views(segments@);
    let mut i: usize = segments.len();
    assert(all.take(i as int) == all);
    while i > 0
        invariant
            i <= segments.len(),
            all == views(segments@),
            all == split(path@, "/"@),
            dot@ == "."@,
            dots@ == ".."@,
            last_name(all) == last_name(all.take(i as int)),
        decreases i,
    {
        let segment = &segments[i - 1];
        assert(all.take(i as int).last() == segment@);
        assert(all.take(i as int).drop_last() == all.take(i - 1));
        if segment.len() == 0 || same(segment, &dot) {
            i = i - 1;
        } else if same(segment, &dots) {
            return false;
        } else {
            return match rfind_in(segment, &dot) {
                Some(at) => at > 0,
                None => false,
            };
        }
    }
    false
}

/// The target of the last redirection in the shell command `cmd`: the first
/// word behind the last `>>`, or, where there is no `>>`, behind the last
/// `>`.
pub open spec fn redirect_target(cmd: Seq<char>) -> Option<Seq<char>> {
    match rfind(cmd, ">>"@) {
        Some(i) => first_word(cmd.skip(i + ">>"@.len())),
        None => match rfind(cmd, ">"@) {
            Some(i) => first_word(cmd.skip(i + ">"@.len())),
            None => None,
        },
    }
}

/// The target of the last redirection in the shell command `cmd`.
pub fn redirect_target_of(cmd: &Vec<char>) -> (r: Option<Vec<char>>)
    ensures
        match r {
            Some(target) => redirect_target(cmd@) == Some(target@),
            None => redirect_target(cmd@) is None,
        },
{
    let double = to_chars(">>");
    let single = to_chars(">");
    let after = match rfind_in(cmd, &double) {
        Some(i) => slice(cmd, i + double.len(), cmd.len()),
        None => match rfind_in(cmd, &single) {
            Some(i) => slice(cmd, i + single.len(), cmd.len()),
            None => {
                return None;
            },
        },
    };
    first_token(&after)
}

/// The file that a shell redirection (`>` or `>>`) in `cmd` writes to.
pub fn extract_redirect_target(cmd: &str) -> (r: Option<String>)
    ensures
        match r {
            Some(target) => redirect_target(cmd@) == Some(target@),
            None => redirect_target(cmd@) is None,
        },
{
    let chars = to_chars(cmd);
    match redirect_target_of(&chars) {
        Some(target) => Some(from_chars(&target)),
        None => None,
    }
}

/// The file that a piece of search output names: the path at the start of
/// the piece, white space around the piece set aside, if it has an
/// extension.
pub open spec fn line_file(piece: Seq<char>) -> Option<Seq<char>> {
    match line_path(trim(piece)) {
        Some(path) => if has_extension(path) {
            Some(path)
        } else {
            None
        },
        None => None,
    }
}

/// The files that the pieces `pieces` name, in order.
pub open spec fn files_of(pieces: Seq<Seq<char>>) -> Seq<Seq<char>>
    decreases pieces.len(),
{
    if pieces.len() == 0 {
        Seq::empty()
    } else {
        match line_file(pieces.last()) {
            Some(path) => files_of(pieces.drop_last()).push(path),
            None => files_of(pieces.drop_last()),
        }
    }
}

/// The files that the lines of `text` name, in order.
pub open spec fn files_in_text(text: Seq<char>) -> Seq<Seq<char>> {
    files_of(split(text, "\n"@))
}

/// The files that the lines of `text` name, in order.
pub fn scan_text(text: &str) -> (r: Vec<String>)
    ensures
        crate::types::texts(r@) == files_in_text(text@),
{
    let chars = to_chars(text);
    let newline = to_chars("\n");
    let pieces = split_on(&chars, &newline);
    let ghost all = views(pieces@);
    let mut out: Vec<String> = Vec::new();
    let mut i: usize = 0;
    assert(crate::types::texts(out@) =~= files_of(all.take(0)));
    while i < pieces.len()
        invariant
            i <= pieces.len(),
            all == views(pieces@),
            crate::types::texts(out@) == files_of(all.take(i as int)),
        decreases pieces.len() - i,
    {
        let line = trimmed(&pieces[i]);
        assert(all.take(i + 1).last() == pieces@[i as int]@);
        assert(all.take(i + 1).drop_last() == all.take(i as int));
        match path_from_line(&line) {
            Some(path) => {
                if path_has_extension(&path) {
                    let ghost before = crate::types::texts(out@);
                    out.push(from_chars(&path));
                    assert(crate::types::texts(out@) =~= before.push(path@));
                }
            },
            None => {},
        }
        i = i + 1;
    }
    assert(all.take(pieces.len() as int) == all);
    out
}

/// The commands of the shell line `title`: its pieces between `&&`, and then
/// its pieces between `;`.
pub open spec fn commands_of(title: Seq<char>) -> Seq<Seq<char>> {
    split(title, "&&"@) + split(title, ";"@)
}

/// The targets of the commands `commands`, in order.
pub open spec fn targets_of(commands: Seq<Seq<char>>) -> Seq<Seq<char>>
    decreases commands.len(),
{
    if commands.len() == 0 {
        Seq::empty()
    } else {
        match redirect_target(trim(commands.last())) {
            Some(target) => targets_of(commands.drop_last()).push(target),
            None => targets_of(commands.drop_last()),
        }
    }
}

/// The files that the shell line `title` writes by redirection: the
/// target of each of its commands, in order.
pub open spec fn redirects_in(title: Seq<char>) -> Seq<Seq<char>> {
    targets_of(commands_of(title))
}

/// Adds the targets of the commands `commands` to `out`.
fn collect_targets(commands: &Vec<Vec<char>>, out: &mut Vec<String>, Ghost(done): Ghost<Seq<Seq<char>>>)
    requires
        crate::types::texts(old(out)@) == targets_of(done),
    ensures
        crate::types::texts(final(out)@) == targets_of(done + views(commands@)),
{
    let ghost all = views(commands@);
    let mut i: usize = 0;
    assert(done + all.take(0) == done);
    while i < commands.len()
        invariant
            i <= commands.len(),
            all == views(commands@),
            crate::types::texts(out@) == targets_of(done + all.take(i as int)),
        decreases commands.len() - i,
    {
        let command = trimmed(&commands[i]);
        assert((done + all.take(i + 1)).last() == commands@[i as int]@);
        assert((done + all.take(i + 1)).drop_last() == done + all.take(i as int));
        match redirect_target_of(&command) {
            Some(target) => {
                let ghost before = crate::types::texts(out@);
                out.push(from_chars(&target));
                assert(crate::types::texts(out@) =~= before.push(target@));
            },
            None => {},
        }
        i = i + 1;
    }
    assert(all.take(commands.len() as int) == all);
}

/// The files that the shell line `title` writes by redirection.
pub fn scan_title(title: &str) -> (r: Vec<String>)
    ensures
        crate::types::texts(r@) == redirects_in(title@),
{
    let chars = to_chars(title);
    let both = to_chars("&&");
    let semicolon = to_chars(";");
    let first = split_on(&chars, &both);
    let second = split_on(&chars, &semicolon);
    let mut out: Vec<String> = Vec::new();
    assert(crate::types::texts(out@) =~= targets_of(Seq::empty()));
    collect_targets(&first, &mut out, Ghost(Seq::empty()));
    assert(Seq::<Seq<char>>::empty() + views(first@) == views(first@));
    collect_targets(&second, &mut out, Ghost(views(first@)));
    out
}

} // verus!
