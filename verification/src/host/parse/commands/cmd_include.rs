//! `Include:` reads another configuration file in its place.

use vstd::prelude::*;
use crate::host::parse::parser::{ConfigError, ConfigErrorView, ParseContext};
use crate::text;
use crate::text::{concat2, concat3, decimal_text, sub_string, to_chars, trim_text};

verus! {

/// How many files may lead to another.
pub const MAX_INCLUDE_DEPTH: usize = 16;

/// Whether a character separates the parts of a path.
pub open spec fn is_separator(c: char) -> bool {
    c == '/' || c == '\\'
}

/// The length of the part of a path up to and with its last separator.
pub open spec fn directory_len(path: Seq<char>) -> int
    decreases path.len(),
{
    if path.len() == 0 {
        0
    } else if is_separator(path.last()) {
        path.len() as int
    } else {
        directory_len(path.drop_last())
    }
}

/// Whether a path begins with the letter of a drive.
pub open spec fn has_drive(path: Seq<char>) -> bool {
    path.len() >= 2 && path[1] == ':' && (('a' <= path[0] <= 'z') || ('A' <= path[0] <= 'Z'))
}

/// Where the part of a path ends that begins at a position: at the next separator, or
/// at the end of the path.
pub open spec fn part_end(path: Seq<char>, from: int) -> int
    decreases path.len() - from,
{
    if from < 0 || from >= path.len() || is_separator(path[from]) {
        from
    } else {
        part_end(path, from + 1)
    }
}

/// The length of the network share that a path begins with: two separators, a
/// server, a separator and a name; none without one.
pub open spec fn share_len(path: Seq<char>) -> int {
    let server = part_end(path, 2);
    let name = part_end(path, server + 1);
    if path.len() >= 2 && is_separator(path[0]) && is_separator(path[1]) && 2 < server
        < path.len() && name > server + 1 {
        name
    } else {
        0
    }
}

/// The length of the drive, with its colon, or of the network share that a path
/// begins with.
pub open spec fn prefix_len(path: Seq<char>) -> int {
    if has_drive(path) {
        2
    } else {
        share_len(path)
    }
}

/// A path as seen from the directory of a file: one with a drive or a network share
/// stands for itself, one that begins with a separator begins at the root of the
/// file's drive or share, and every other one in the directory.
pub open spec fn resolved_path(current_file: Seq<char>, relative: Seq<char>) -> Seq<char> {
    let rel = text::trim(relative);
    if prefix_len(rel) > 0 {
        rel
    } else if rel.len() > 0 && is_separator(rel[0]) {
        current_file.subrange(0, prefix_len(current_file)) + rel
    } else {
        current_file.subrange(0, directory_len(current_file)) + rel
    }
}

fn find_part_end(v: &[char], from: usize) -> (r: usize)
    requires
        from <= v@.len(),
    ensures
        r == part_end(v@, from as int),
        from <= r <= v@.len(),
{
    let mut i: usize = from;
    while i < v.len() && v[i] != '/' && v[i] != '\\'
        invariant
            from <= i <= v@.len(),
            part_end(v@, from as int) == part_end(v@, i as int),
        decreases v@.len() - i,
    {
        i += 1;
    }
    i
}

fn find_share(v: &[char]) -> (r: usize)
    ensures
        r == share_len(v@),
        r <= v@.len(),
{
    if v.len() < 2 || (v[0] != '/' && v[0] != '\\') || (v[1] != '/' && v[1] != '\\') {
        return 0;
    }
    let server = find_part_end(v, 2);
    if server == 2 || server == v.len() {
        return 0;
    }
    let name = find_part_end(v, server + 1);
    if name > server + 1 {
        name
    } else {
        0
    }
}

fn find_prefix(v: &[char]) -> (r: usize)
    ensures
        r == prefix_len(v@),
        r <= v@.len(),
{
    if starts_with_drive(v) {
        2
    } else {
        find_share(v)
    }
}

fn starts_with_drive(v: &[char]) -> (r: bool)
    ensures
        r == has_drive(v@),
{
    v.len() >= 2 && v[1] == ':' && (('a' <= v[0] && v[0] <= 'z') || ('A' <= v[0] && v[0] <= 'Z'))
}

fn find_directory(v: &[char]) -> (r: usize)
    ensures
        r == directory_len(v@),
        r <= v@.len(),
{
    let mut i: usize = v.len();
    assert(v@.take(i as int) =~= v@);
    while i > 0
        invariant
            i <= v@.len(),
            directory_len(v@) == directory_len(v@.take(i as int)),
        decreases i,
    {
        let ghost t = v@.take(i as int);
        assert(t.last() == v@[i - 1]);
        assert(t.drop_last() =~= v@.take(i - 1));
        if v[i - 1] == '/' || v[i - 1] == '\\' {
            return i;
        }
        i -= 1;
    }
    0
}

/// A path as seen from the directory of a file.
pub fn resolve_include_path(current_file: &str, relative: &str) -> (r: String)
    ensures
        r@ == resolved_path(current_file@, relative@),
{
    let rel = trim_text(relative);
    let rv = to_chars(rel.as_str());
    if find_prefix(rv.as_slice()) > 0 {
        return rel;
    }
    let cv = to_chars(current_file);
    let n: usize = if rv.len() > 0 && (rv[0] == '/' || rv[0] == '\\') {
        find_prefix(cv.as_slice())
    } else {
        find_directory(cv.as_slice())
    };
    let head = sub_string(cv.as_slice(), 0, n);
    concat2(head.as_str(), rel.as_str())
}

/// What is said when too many files lead to another.
pub open spec fn too_deep() -> Seq<char> {
    "include depth exceeded maximum ("@ + text::decimal(MAX_INCLUDE_DEPTH as nat) + ")"@
}

/// What an `Include:` line comes to: the path of the file to read.
pub open spec fn included(
    value: Seq<char>,
    depth: usize,
    file: Seq<char>,
    line: usize,
) -> Result<Seq<char>, ConfigErrorView> {
    if value.len() == 0 {
        Err(
            ConfigErrorView::SyntaxError { file, line, message: "Include: requires a file path"@ },
        )
    } else if depth >= MAX_INCLUDE_DEPTH {
        Err(ConfigErrorView::SyntaxError { file, line, message: too_deep() })
    } else {
        Ok(resolved_path(file, value))
    }
}

/// Handles an `Include:` line in a file that so many lead to: the path of the file
/// to read.
pub fn handle(value: &str, ctx: &ParseContext, depth: usize) -> (r: Result<String, ConfigError>)
    ensures
        match included(value@, depth, ctx.current_file@, ctx.line_number) {
            Ok(path) => r matches Ok(p) && p@ == path,
            Err(error) => r matches Err(e) && e@ == error,
        },
{
    if value.is_empty() {
        return Err(
            ConfigError::syntax(
                ctx.current_file.as_str(),
                ctx.line_number,
                "Include: requires a file path",
            ),
        );
    }
    if depth >= MAX_INCLUDE_DEPTH {
        let digits = decimal_text(MAX_INCLUDE_DEPTH as u64);
        let m = concat3("include depth exceeded maximum (", digits.as_str(), ")");
        return Err(ConfigError::syntax(ctx.current_file.as_str(), ctx.line_number, m.as_str()));
    }
    Ok(resolve_include_path(ctx.current_file.as_str(), value))
}

/// An error unless the file of an `Include:` line was found.
pub fn check_found(path: &str, found: bool) -> (r: Result<(), ConfigError>)
    ensures
        r is Ok == found,
        r matches Err(e) ==> e@ == (ConfigErrorView::IoError {
            path: path@,
            message: "included file not found"@,
        }),
{
    if found {
        Ok(())
    } else {
        Err(
            ConfigError::IoError {
                path: path.to_owned(),
                message: "included file not found".to_owned(),
            },
        )
    }
}

proof fn lemma_directory(path: Seq<char>)
    ensures
        0 <= directory_len(path) <= path.len(),
        directory_len(path) > 0 ==> is_separator(path[directory_len(path) - 1]),
        forall|i: int| directory_len(path) <= i < path.len() ==> !is_separator(#[trigger] path[i]),
    decreases path.len(),
{
    if path.len() > 0 && !is_separator(path.last()) {
        let t = path.drop_last();
        lemma_directory(t);
        assert forall|i: int| directory_len(path) <= i < path.len() implies !is_separator(
            #[trigger] path[i],
        ) by {
            if i < t.len() {
                assert(t[i] == path[i]);
            }
        }
    }
}

proof fn lemma_directory_of(dir: Seq<char>, name: Seq<char>)
    requires
        dir.len() > 0 ==> is_separator(dir.last()),
        forall|i: int| 0 <= i < name.len() ==> !is_separator(#[trigger] name[i]),
    ensures
        directory_len(dir + name) == dir.len(),
    decreases name.len(),
{
    let p = dir + name;
    if name.len() > 0 {
        assert(p.last() == name[name.len() - 1]);
        assert(p.drop_last() =~= dir + name.drop_last());
        lemma_directory_of(dir, name.drop_last());
    } else {
        assert(p =~= dir);
    }
}

/// A file named without a drive, a share or a separator at its start is looked for in the
/// directory of the file that names it.
pub proof fn law_relative_paths(dir: Seq<char>, file: Seq<char>, relative: Seq<char>)
    requires
        dir.len() > 0 ==> is_separator(dir.last()),
        forall|i: int| 0 <= i < file.len() ==> !is_separator(#[trigger] file[i]),
        ({
            let rel = text::trim(relative);
            &&& rel.len() > 0 ==> rel[0] != '/' && rel[0] != '\\'
            &&& rel.len() > 1 ==> rel[1] != ':'
        }),
    ensures
        resolved_path(dir + file, relative) == dir + text::trim(relative),
{
    lemma_directory_of(dir, file);
    assert((dir + file).subrange(0, dir.len() as int) =~= dir);
}

/// A path with a drive stands for itself, wherever it is named.
pub proof fn law_absolute_paths(a: Seq<char>, b: Seq<char>, path: Seq<char>)
    requires
        ({
            let p = text::trim(path);
            p.len() >= 2 && p[1] == ':' && (('a' <= p[0] <= 'z') || ('A' <= p[0] <= 'Z'))
        }),
    ensures
        resolved_path(a, path) == text::trim(path),
        resolved_path(a, path) == resolved_path(b, path),
{
}

/// A path that begins with one separator begins at the root of the drive of the file that
/// names it.
pub proof fn law_rooted_paths(file: Seq<char>, path: Seq<char>)
    requires
        has_drive(file),
        ({
            let p = text::trim(path);
            p.len() > 0 && is_separator(p[0]) && (p.len() > 1 ==> !is_separator(p[1]) && p[1] != ':')
        }),
    ensures
        resolved_path(file, path) == file.subrange(0, 2) + text::trim(path),
{
    let p = text::trim(path);
    assert(!has_drive(p));
    assert(share_len(p) == 0);
}

/// Files are read up to a depth of sixteen, and no deeper; a line that names none is an
/// error at any depth.
pub proof fn law_include(value: Seq<char>, depth: usize, file: Seq<char>, line: usize)
    ensures
        included(value, depth, file, line) is Ok <==> value.len() > 0 && depth < 16,
        included(value, depth, file, line) matches Ok(path) ==> path == resolved_path(file, value),
{
}

} // verus!
