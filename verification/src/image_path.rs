//! The name of a program, taken from the path of its image.
//!
//! Image paths are written in the syntax of Windows wherever this code runs, while
//! `std::path::Path` reads the syntax of the system that the code is built for.
use vstd::prelude::*;

verus! {

/// The character separates the components of a path. Verbatim paths know the backslash only.
pub open spec fn is_separator(c: char, verbatim: bool) -> bool {
    c == '\\' || (c == '/' && !verbatim)
}

/// The index of the first separator from index `from` on, or the length where there is none.
pub open spec fn component_end(path: Seq<char>, from: int, verbatim: bool) -> int
    decreases path.len() - from,
{
    if from < 0 || from >= path.len() {
        path.len() as int
    } else if is_separator(path[from], verbatim) {
        from
    } else {
        component_end(path, from + 1, verbatim)
    }
}

/// The path begins with `\\?\`.
pub open spec fn is_verbatim(path: Seq<char>) -> bool {
    path.len() >= 4 && path[0] == '\\' && path[1] == '\\' && path[2] == '?' && path[3] == '\\'
}

/// A drive letter and a colon stand at index `from`.
pub open spec fn has_drive(path: Seq<char>, from: int) -> bool {
    &&& path.len() >= from + 2
    &&& ('a' <= path[from] <= 'z' || 'A' <= path[from] <= 'Z')
    &&& path[from + 1] == ':'
}

/// Where a server and a share that begin at index `from` end: behind the share, or behind the
/// server where there is no share.
pub open spec fn share_end(path: Seq<char>, from: int, verbatim: bool) -> int {
    let server_end = component_end(path, from, verbatim);
    if server_end < path.len() {
        let end = component_end(path, server_end + 1, verbatim);
        if end > server_end + 1 {
            end
        } else {
            server_end
        }
    } else {
        server_end
    }
}

/// The length of what comes before the components of a path: `C:`, `\\server\share`,
/// `\\.\device`, `\\?\C:`, `\\?\UNC\server\share` or `\\?\anything`. Behind `UNC` a slash
/// will do for the backslash.
pub open spec fn prefix_len(path: Seq<char>) -> int {
    if is_verbatim(path) {
        if path.len() >= 8 && path[4] == 'U' && path[5] == 'N' && path[6] == 'C' && is_separator(
            path[7],
            false,
        ) {
            share_end(path, 8, true)
        } else if has_drive(path, 4) && (path.len() == 6 || is_separator(path[6], false)) {
            6
        } else {
            component_end(path, 4, true)
        }
    } else if path.len() >= 2 && is_separator(path[0], false) && is_separator(path[1], false) {
        let server_end = component_end(path, 2, false);
        if path.len() >= 4 && path[2] == '.' && is_separator(path[3], false) {
            component_end(path, 4, false)
        } else if server_end > 2 && share_end(path, 2, false) > server_end {
            share_end(path, 2, false)
        } else {
            0
        }
    } else if has_drive(path, 0) {
        2
    } else {
        0
    }
}

/// The index behind the last separator, or zero where there is none.
pub open spec fn last_start(body: Seq<char>, verbatim: bool) -> int
    decreases body.len(),
{
    if body.len() == 0 {
        0
    } else if is_separator(body.last(), verbatim) {
        body.len() as int
    } else {
        last_start(body.drop_last(), verbatim)
    }
}

/// The last component of a path without its prefix, where that is a name. Components that are
/// empty do not count, nor does `.` outside verbatim paths.
pub open spec fn last_name(body: Seq<char>, verbatim: bool) -> Option<Seq<char>>
    decreases body.len(),
{
    let start = last_start(body, verbatim);
    let tail = body.skip(start);
    if tail.len() == 0 || (tail == seq!['.'] && !verbatim) {
        if 0 < start <= body.len() {
            last_name(body.take(start - 1), verbatim)
        } else {
            None
        }
    } else if tail == seq!['.'] || tail == seq!['.', '.'] {
        None
    } else {
        Some(tail)
    }
}

/// Where the components of a path begin: behind its prefix and, in a verbatim path, behind a
/// separator of either kind that follows the prefix, which is the root and part of no name.
pub open spec fn body_start(path: Seq<char>) -> int {
    if is_verbatim(path) && prefix_len(path) < path.len() && is_separator(
        path[prefix_len(path)],
        false,
    ) {
        prefix_len(path) + 1
    } else {
        prefix_len(path)
    }
}

/// The name of the file that a path leads to.
pub open spec fn file_name_of(path: Seq<char>) -> Option<Seq<char>> {
    last_name(path.skip(body_start(path)), is_verbatim(path))
}

/// The index of the last dot, or -1 where there is none.
pub open spec fn last_dot(name: Seq<char>) -> int
    decreases name.len(),
{
    if name.len() == 0 {
        -1
    } else if name.last() == '.' {
        name.len() - 1
    } else {
        last_dot(name.drop_last())
    }
}

/// A file name without its extension: what stands before the last dot, unless that dot comes
/// first or there is none.
pub open spec fn stem_of_name(name: Seq<char>) -> Seq<char> {
    if last_dot(name) > 0 {
        name.take(last_dot(name))
    } else {
        name
    }
}

/// The name of the file that a path leads to, without its extension.
pub open spec fn stem_of(path: Seq<char>) -> Option<Seq<char>> {
    match file_name_of(path) {
        Some(name) => Some(stem_of_name(name)),
        None => None,
    }
}

proof fn lemma_component_end(path: Seq<char>, from: int, verbatim: bool)
    requires
        0 <= from <= path.len(),
    ensures
        from <= component_end(path, from, verbatim) <= path.len(),
    decreases path.len() - from,
{
    if from < path.len() && !is_separator(path[from], verbatim) {
        lemma_component_end(path, from + 1, verbatim);
    }
}

proof fn lemma_prefix_len(path: Seq<char>)
    ensures
        0 <= prefix_len(path) <= path.len(),
{
    if path.len() >= 2 {
        lemma_component_end(path, 2, false);
        if component_end(path, 2, false) < path.len() {
            lemma_component_end(path, component_end(path, 2, false) + 1, false);
        }
    }
    if path.len() >= 4 {
        lemma_component_end(path, 4, true);
        lemma_component_end(path, 4, false);
    }
    if path.len() >= 8 {
        lemma_component_end(path, 8, true);
        if component_end(path, 8, true) < path.len() {
            lemma_component_end(path, component_end(path, 8, true) + 1, true);
        }
    }
}

/// A name behind a separator starts behind that separator.
proof fn lemma_name_start(dir: Seq<char>, name: Seq<char>)
    requires
        forall|i: int| 0 <= i < name.len() ==> !is_separator(#[trigger] name[i], false),
    ensures
        last_start(dir + seq!['\\'] + name, false) == dir.len() + 1,
    decreases name.len(),
{
    let body = dir + seq!['\\'] + name;
    if name.len() > 0 {
        assert(!is_separator(name.last(), false));
        assert(body.drop_last() == dir + seq!['\\'] + name.drop_last());
        lemma_name_start(dir, name.drop_last());
    } else {
        assert(body.last() == '\\');
    }
}

/// An image on a drive has its stem from its file name alone, whatever its directory.
pub proof fn law_stem_of_drive_path(drive: char, dir: Seq<char>, name: Seq<char>)
    requires
        'a' <= drive <= 'z' || 'A' <= drive <= 'Z',
        name.len() > 0,
        name != seq!['.'],
        name != seq!['.', '.'],
        forall|i: int| 0 <= i < name.len() ==> !is_separator(#[trigger] name[i], false),
    ensures
        stem_of(seq![drive, ':'] + dir + seq!['\\'] + name) == Some(stem_of_name(name)),
{
    let path = seq![drive, ':'] + dir + seq!['\\'] + name;
    let body = dir + seq!['\\'] + name;
    assert(path[0] == drive && path[1] == ':');
    assert(prefix_len(path) == 2);
    assert(path.skip(2) == body);
    lemma_name_start(dir, name);
    assert(body.skip(dir.len() as int + 1) == name);
}

/// Where there is no path there is no stem.
pub proof fn law_no_path_no_stem()
    ensures
        stem_of(Seq::empty()) is None,
{
    let path = Seq::<char>::empty();
    assert(path.skip(0) == path);
    assert(last_start(path, false) == 0);
}

fn separates(c: char, verbatim: bool) -> (r: bool)
    ensures
        r == is_separator(c, verbatim),
{
    c == '\\' || (c == '/' && !verbatim)
}

fn find_component_end(path: &Vec<char>, from: usize, verbatim: bool) -> (end: usize)
    requires
        from <= path@.len(),
    ensures
        end == component_end(path@, from as int, verbatim),
        from <= end <= path@.len(),
{
    let mut end: usize = from;
    while end < path.len() && !separates(path[end], verbatim)
        invariant
            from <= end <= path@.len(),
            component_end(path@, end as int, verbatim) == component_end(
                path@,
                from as int,
                verbatim,
            ),
        decreases path@.len() - end,
    {
        end = end + 1;
    }
    end
}

fn find_share_end(path: &Vec<char>, from: usize, verbatim: bool) -> (end: usize)
    requires
        from <= path@.len(),
    ensures
        end == share_end(path@, from as int, verbatim),
{
    let server_end: usize = find_component_end(path, from, verbatim);
    if server_end < path.len() {
        let end: usize = find_component_end(path, server_end + 1, verbatim);
        if end > server_end + 1 {
            return end;
        }
    }
    server_end
}

fn drive_at(path: &Vec<char>, from: usize) -> (r: bool)
    requires
        from <= path@.len(),
    ensures
        r == has_drive(path@, from as int),
{
    path.len() - from >= 2 && (('a' <= path[from] && path[from] <= 'z') || ('A' <= path[from]
        && path[from] <= 'Z')) && path[from + 1] == ':'
}

fn verbatim_path(path: &Vec<char>) -> (r: bool)
    ensures
        r == is_verbatim(path@),
{
    path.len() >= 4 && path[0] == '\\' && path[1] == '\\' && path[2] == '?' && path[3] == '\\'
}

fn find_prefix_len(path: &Vec<char>) -> (len: usize)
    ensures
        len == prefix_len(path@),
{
    if verbatim_path(path) {
        if path.len() >= 8 && path[4] == 'U' && path[5] == 'N' && path[6] == 'C' && separates(
            path[7],
            false,
        ) {
            find_share_end(path, 8, true)
        } else if drive_at(path, 4) && (path.len() == 6 || separates(path[6], false)) {
            6
        } else {
            find_component_end(path, 4, true)
        }
    } else if path.len() >= 2 && separates(path[0], false) && separates(path[1], false) {
        let server_end: usize = find_component_end(path, 2, false);
        let end: usize = find_share_end(path, 2, false);
        if path.len() >= 4 && path[2] == '.' && separates(path[3], false) {
            find_component_end(path, 4, false)
        } else if server_end > 2 && end > server_end {
            end
        } else {
            0
        }
    } else if drive_at(path, 0) {
        2
    } else {
        0
    }
}

fn find_last_start(path: &Vec<char>, from: usize, end: usize, verbatim: bool) -> (start: usize)
    requires
        from <= end <= path@.len(),
    ensures
        start == from + last_start(path@.subrange(from as int, end as int), verbatim),
        from <= start <= end,
{
    let mut i: usize = end;
    while i > from && !separates(path[i - 1], verbatim)
        invariant
            from <= i <= end <= path@.len(),
            last_start(path@.subrange(from as int, i as int), verbatim) == last_start(
                path@.subrange(from as int, end as int),
                verbatim,
            ),
        decreases i,
    {
        assert(path@.subrange(from as int, i as int).drop_last() == path@.subrange(
            from as int,
            i - 1,
        ));
        i = i - 1;
    }
    i
}

/// The bounds of the last component of the path from index `from` on, where that is a name.
fn find_last_name(path: &Vec<char>, from: usize, verbatim: bool) -> (r: Option<(usize, usize)>)
    requires
        from <= path@.len(),
    ensures
        match last_name(path@.skip(from as int), verbatim) {
            Some(name) => r matches Some(range) && range.0 <= range.1 <= path@.len()
                && path@.subrange(range.0 as int, range.1 as int) == name,
            None => r is None,
        },
{
    let mut end: usize = path.len();
    assert(path@.skip(from as int) == path@.subrange(from as int, end as int));
    loop
        invariant
            from <= end <= path@.len(),
            last_name(path@.skip(from as int), verbatim) == last_name(
                path@.subrange(from as int, end as int),
                verbatim,
            ),
        decreases end,
    {
        let ghost body = path@.subrange(from as int, end as int);
        let start: usize = find_last_start(path, from, end, verbatim);
        let ghost tail = body.skip(start - from);
        assert(tail == path@.subrange(start as int, end as int));
        let dot: bool = end - start == 1 && path[start] == '.';
        let dots: bool = end - start == 2 && path[start] == '.' && path[start + 1] == '.';
        proof {
            if dot {
                assert(tail == seq!['.']);
            }
            if dots {
                assert(tail == seq!['.', '.']);
            }
            if tail == seq!['.'] {
                assert(tail[0] == '.');
            }
            if tail == seq!['.', '.'] {
                assert(tail[0] == '.' && tail[1] == '.');
            }
        }
        if start == end || (dot && !verbatim) {
            if start > from {
                assert(body.take(start - from - 1) == path@.subrange(from as int, start - 1));
                end = start - 1;
            } else {
                return None;
            }
        } else if dot || dots {
            return None;
        } else {
            return Some((start, end));
        }
    }
}

/// The characters from index `start` up to `end` as text.
fn text_between(chars: &Vec<char>, start: usize, end: usize) -> (text: String)
    requires
        start <= end <= chars@.len(),
    ensures
        text@ == chars@.subrange(start as int, end as int),
{
    let mut text = String::new();
    let mut i: usize = start;
    while i < end
        invariant
            start <= i <= end <= chars@.len(),
            text@ == chars@.subrange(start as int, i as int),
        decreases end - i,
    {
        text.push(chars[i]);
        i = i + 1;
        assert(text@ == chars@.subrange(start as int, i as int));
    }
    text
}

/// The name of the file that a path leads to, without its extension.
pub fn file_stem(path: &str) -> (stem: Option<String>)
    ensures
        crate::node::text_view(stem) == stem_of(path@),
{
    let chars: Vec<char> = crate::ident::chars_of(path);
    let verbatim: bool = verbatim_path(&chars);
    let mut from: usize = find_prefix_len(&chars);
    proof {
        lemma_prefix_len(path@);
    }
    if verbatim && from < chars.len() && separates(chars[from], false) {
        from = from + 1;
    }
    match find_last_name(&chars, from, verbatim) {
        Some((start, end)) => {
            let ghost name = chars@.subrange(start as int, end as int);
            let mut dot: usize = end;
            assert(name.take(end - start) == name);
            while dot > start && chars[dot - 1] != '.'
                invariant
                    start <= dot <= end <= chars@.len(),
                    name == chars@.subrange(start as int, end as int),
                    last_dot(name.take(dot - start)) == last_dot(name),
                decreases dot,
            {
                assert(name.take(dot - start).drop_last() == name.take(dot - 1 - start));
                dot = dot - 1;
            }
            // The last dot, where there is one, stands at index `dot - 1`.
            if dot - start > 1 {
                assert(name.take(dot - 1 - start) == chars@.subrange(start as int, dot - 1));
                Some(text_between(&chars, start, dot - 1))
            } else {
                Some(text_between(&chars, start, end))
            }
        },
        None => None,
    }
}

/// A name that ends in a dot and an extension has all before that dot for its stem, whatever
/// the extension and however it is written.
pub proof fn law_stem_drops_extension(stem: Seq<char>, extension: Seq<char>)
    requires
        stem.len() > 0,
        !extension.contains('.'),
    ensures
        stem_of_name(stem + seq!['.'] + extension) == stem,
{
    lemma_last_dot(stem, extension);
    assert((stem + seq!['.'] + extension).take(stem.len() as int) == stem);
}

/// A name without a dot, or with its only dot in front, is its own stem.
pub proof fn law_stem_without_extension(name: Seq<char>)
    requires
        !name.contains('.'),
    ensures
        stem_of_name(name) == name,
        stem_of_name(seq!['.'] + name) == seq!['.'] + name,
{
    lemma_no_dot(name);
    lemma_last_dot(Seq::empty(), name);
    assert(Seq::<char>::empty() + seq!['.'] + name == seq!['.'] + name);
}

proof fn lemma_no_dot(name: Seq<char>)
    requires
        !name.contains('.'),
    ensures
        last_dot(name) == -1,
    decreases name.len(),
{
    if name.len() > 0 {
        assert(name[name.len() - 1] != '.');
        assert forall|i: int| 0 <= i < name.drop_last().len() implies name.drop_last()[i]
            != '.' by {
            assert(name[i] != '.');
        }
        lemma_no_dot(name.drop_last());
    }
}

proof fn lemma_last_dot(stem: Seq<char>, extension: Seq<char>)
    requires
        !extension.contains('.'),
    ensures
        last_dot(stem + seq!['.'] + extension) == stem.len(),
    decreases extension.len(),
{
    let name = stem + seq!['.'] + extension;
    if extension.len() > 0 {
        let shorter = extension.drop_last();
        assert(extension[extension.len() - 1] != '.');
        assert forall|i: int| 0 <= i < shorter.len() implies shorter[i] != '.' by {
            assert(extension[i] != '.');
        }
        assert(name.last() == extension.last());
        assert(name.drop_last() == stem + seq!['.'] + shorter);
        lemma_last_dot(stem, shorter);
    } else {
        assert(name.last() == '.');
    }
}

/// The program of an image on a drive is called by its file name without the extension,
/// whatever its directory and however the extension is written.
pub proof fn law_program_on_drive(
    drive: char,
    dir: Seq<char>,
    stem: Seq<char>,
    extension: Seq<char>,
)
    requires
        'a' <= drive <= 'z' || 'A' <= drive <= 'Z',
        stem.len() > 0,
        stem != seq!['.'] || extension.len() > 0,
        forall|i: int| 0 <= i < stem.len() ==> #[trigger] stem[i] != '\\' && stem[i] != '/',
        forall|i: int|
            0 <= i < extension.len() ==> #[trigger] extension[i] != '\\' && extension[i] != '/'
                && extension[i] != '.',
    ensures
        stem_of(seq![drive, ':'] + dir + seq!['\\'] + (stem + seq!['.'] + extension)) == Some(stem),
{
    let name = stem + seq!['.'] + extension;
    assert(name.len() >= 2);
    assert forall|i: int| 0 <= i < name.len() implies !is_separator(#[trigger] name[i], false) by {
        if i < stem.len() {
            assert(name[i] == stem[i]);
        } else if i > stem.len() {
            assert(name[i] == extension[i - stem.len() - 1]);
        } else {
            assert(name[i] == '.');
        }
    }
    if name == seq!['.', '.'] {
        assert(name.len() == 2);
        assert(name[0] == stem[0]);
        assert(stem == seq!['.']);
    }
    law_stem_of_drive_path(drive, dir, name);
    law_stem_drops_extension(stem, extension);
}

/// The stem of a path is the stem of the name of its file: there is one just where there is
/// the other.
pub proof fn law_stem_from_file_name(path: Seq<char>)
    ensures
        stem_of(path) is Some <==> file_name_of(path) is Some,
        file_name_of(path) matches Some(name) ==> stem_of(path) == Some(stem_of_name(name)),
{
}

/// What stands behind the last separator starts behind it.
proof fn lemma_tail_start(dir: Seq<char>, sep: char, name: Seq<char>, verbatim: bool)
    requires
        is_separator(sep, verbatim),
        forall|i: int| 0 <= i < name.len() ==> !is_separator(#[trigger] name[i], verbatim),
    ensures
        last_start(dir + seq![sep] + name, verbatim) == dir.len() + 1,
        (dir + seq![sep] + name).skip(dir.len() as int + 1) == name,
    decreases name.len(),
{
    let body = dir + seq![sep] + name;
    assert(body.skip(dir.len() as int + 1) == name);
    if name.len() > 0 {
        assert(!is_separator(name.last(), verbatim));
        assert(body.drop_last() == dir + seq![sep] + name.drop_last());
        lemma_tail_start(dir, sep, name.drop_last(), verbatim);
    } else {
        assert(body.last() == sep);
    }
}

/// Where nothing separates, all is one component.
proof fn lemma_lone_start(name: Seq<char>, verbatim: bool)
    requires
        forall|i: int| 0 <= i < name.len() ==> !is_separator(#[trigger] name[i], verbatim),
    ensures
        last_start(name, verbatim) == 0,
        name.skip(0) == name,
    decreases name.len(),
{
    assert(name.skip(0) == name);
    if name.len() > 0 {
        assert(!is_separator(name.last(), verbatim));
        lemma_lone_start(name.drop_last(), verbatim);
    }
}

/// The last component of a path is the name of its file, behind whatever directories it stands
/// or behind none: separated by a backslash or, outside verbatim paths, by a slash.
pub proof fn law_last_component_is_the_name(
    dir: Seq<char>,
    sep: char,
    name: Seq<char>,
    verbatim: bool,
)
    requires
        sep == '\\' || (sep == '/' && !verbatim),
        name.len() > 0,
        name != seq!['.'],
        name != seq!['.', '.'],
        forall|i: int|
            0 <= i < name.len() ==> #[trigger] name[i] != '\\' && (name[i] != '/' || verbatim),
    ensures
        last_name(dir + seq![sep] + name, verbatim) == Some(name),
        last_name(name, verbatim) == Some(name),
{
    lemma_tail_start(dir, sep, name, verbatim);
    lemma_lone_start(name, verbatim);
}

/// Separators at the end of a path do not count, nor does, outside verbatim paths, a `.` there.
pub proof fn law_trailing_components_skipped(body: Seq<char>, sep: char, verbatim: bool)
    requires
        sep == '\\' || (sep == '/' && !verbatim),
    ensures
        last_name(body + seq![sep], verbatim) == last_name(body, verbatim),
        last_name(body + seq![sep] + seq!['.'], false) == last_name(body, false),
        last_name(Seq::empty(), verbatim) is None,
        last_name(seq!['.'], verbatim) is None,
{
    let none = Seq::<char>::empty();
    lemma_tail_start(body, sep, none, verbatim);
    lemma_tail_start(body, sep, seq!['.'], false);
    assert(body + seq![sep] + none == body + seq![sep]);
    assert((body + seq![sep]).take(body.len() as int) == body);
    assert((body + seq![sep] + seq!['.']).take(body.len() as int) == body);
    lemma_lone_start(none, verbatim);
    lemma_lone_start(seq!['.'], verbatim);
}

/// A path that leads to the directory above another, or in a verbatim path to `.`, has no name.
pub proof fn law_no_name_for_parents(dir: Seq<char>, sep: char, verbatim: bool)
    requires
        sep == '\\' || (sep == '/' && !verbatim),
    ensures
        last_name(dir + seq![sep] + seq!['.', '.'], verbatim) is None,
        last_name(seq!['.', '.'], verbatim) is None,
        verbatim ==> last_name(dir + seq![sep] + seq!['.'], verbatim) is None,
{
    let up = seq!['.', '.'];
    let dot = seq!['.'];
    assert(up.len() == 2 && dot.len() == 1);
    assert forall|i: int| 0 <= i < up.len() implies !is_separator(#[trigger] up[i], verbatim) by {
        assert(up[i] == '.');
    }
    assert forall|i: int| 0 <= i < dot.len() implies !is_separator(#[trigger] dot[i], verbatim) by {
        assert(dot[i] == '.');
    }
    let body = dir + seq![sep] + up;
    lemma_tail_start(dir, sep, up, verbatim);
    assert(body.skip(last_start(body, verbatim)) == up);
    assert(last_name(body, verbatim) is None);
    lemma_tail_start(dir, sep, dot, verbatim);
    lemma_lone_start(up, verbatim);
    assert(up.skip(last_start(up, verbatim)) == up);
    assert(last_name(up, verbatim) is None);
}

/// A component ends at the first separator behind it, or with the path.
proof fn lemma_component_ends(path: Seq<char>, from: int, end: int, verbatim: bool)
    requires
        0 <= from <= end <= path.len(),
        forall|i: int| from <= i < end ==> !is_separator(#[trigger] path[i], verbatim),
        end == path.len() || is_separator(path[end], verbatim),
    ensures
        component_end(path, from, verbatim) == end,
    decreases end - from,
{
    if from < end {
        assert(!is_separator(path[from], verbatim));
        lemma_component_ends(path, from + 1, end, verbatim);
    }
}

/// Behind a drive stand the components of the path.
pub proof fn law_drive_is_no_component(drive: char, body: Seq<char>)
    requires
        'a' <= drive <= 'z' || 'A' <= drive <= 'Z',
    ensures
        file_name_of(seq![drive, ':'] + body) == last_name(body, false),
{
    let path = seq![drive, ':'] + body;
    assert(path[0] == drive && path[1] == ':');
    assert(path.skip(2) == body);
}

/// A path that begins neither with a drive nor with two separators is components throughout.
pub proof fn law_plain_path(path: Seq<char>)
    requires
        path.len() < 2 || !((path[0] == '\\' || path[0] == '/') && (path[1] == '\\' || path[1]
            == '/')),
        path.len() < 2 || path[1] != ':' || !('a' <= path[0] <= 'z' || 'A' <= path[0] <= 'Z'),
    ensures
        file_name_of(path) == last_name(path, false),
{
    assert(path.skip(0) == path);
}

/// The server and the share that a path begins with are no components of it.
pub proof fn law_share_is_no_component(
    a: char,
    b: char,
    server: Seq<char>,
    c: char,
    share: Seq<char>,
    body: Seq<char>,
)
    requires
        a == '\\' || a == '/',
        b == '\\' || b == '/',
        c == '\\' || c == '/',
        server.len() > 0,
        server != seq!['.'],
        server != seq!['?'] || a == '/' || b == '/' || c == '/',
        share.len() > 0,
        forall|i: int| 0 <= i < server.len() ==> #[trigger] server[i] != '\\' && server[i] != '/',
        forall|i: int| 0 <= i < share.len() ==> #[trigger] share[i] != '\\' && share[i] != '/',
        body.len() == 0 || body[0] == '\\' || body[0] == '/',
    ensures
        file_name_of(seq![a, b] + server + seq![c] + share + body) == last_name(body, false),
{
    let path = seq![a, b] + server + seq![c] + share + body;
    let m = 2 + server.len() as int;
    let end = m + 1 + share.len() as int;
    assert(path[0] == a && path[1] == b && path[m] == c);
    assert forall|i: int| 2 <= i < m implies !is_separator(#[trigger] path[i], false) by {
        assert(path[i] == server[i - 2]);
    }
    assert forall|i: int| m + 1 <= i < end implies !is_separator(#[trigger] path[i], false) by {
        assert(path[i] == share[i - m - 1]);
    }
    if end < path.len() {
        assert(path[end] == body[0]);
    }
    lemma_component_ends(path, 2, m, false);
    lemma_component_ends(path, m + 1, end, false);
    assert(path[2] == server[0]);
    if server.len() > 1 {
        assert(path[3] == server[1]);
    } else {
        assert(server[0] != '.') by {
            if server[0] == '.' {
                assert(server == seq!['.']);
            }
        }
        assert(path[3] == c);
        if server[0] == '?' {
            assert(server == seq!['?']);
        }
    }
    assert(path.skip(end) == body);
}

/// Two separators before a server without a share are no more than separators.
pub proof fn law_server_alone(a: char, b: char, server: Seq<char>, tail: Seq<char>)
    requires
        a == '\\' || a == '/',
        b == '\\' || b == '/',
        tail.len() == 0 || server != seq!['.'],
        tail.len() == 0 || server != seq!['?'] || a == '/' || b == '/' || tail[0] == '/',
        forall|i: int| 0 <= i < server.len() ==> #[trigger] server[i] != '\\' && server[i] != '/',
        tail.len() == 0 || tail[0] == '\\' || tail[0] == '/',
        server.len() == 0 || tail.len() <= 1 || tail[1] == '\\' || tail[1] == '/',
    ensures
        file_name_of(seq![a, b] + server + tail) == last_name(seq![a, b] + server + tail, false),
{
    let path = seq![a, b] + server + tail;
    let m = 2 + server.len() as int;
    assert(path[0] == a && path[1] == b);
    assert forall|i: int| 2 <= i < m implies !is_separator(#[trigger] path[i], false) by {
        assert(path[i] == server[i - 2]);
    }
    if m < path.len() {
        assert(path[m] == tail[0]);
        if m + 1 < path.len() {
            assert(path[m + 1] == tail[1]);
        }
        if server.len() > 0 {
            lemma_component_ends(path, m + 1, m + 1, false);
        }
    }
    lemma_component_ends(path, 2, m, false);
    if server.len() > 0 {
        assert(path[2] == server[0]);
        if server.len() > 1 {
            assert(path[3] == server[1]);
        } else if tail.len() > 0 {
            assert(server[0] != '.') by {
                if server[0] == '.' {
                    assert(server == seq!['.']);
                }
            }
            assert(path[3] == tail[0]);
            if server[0] == '?' {
                assert(server == seq!['?']);
            }
        }
    }
    assert(path.skip(0) == path);
}

/// The device that a path begins with is no component of it.
pub proof fn law_device_is_no_component(
    a: char,
    b: char,
    c: char,
    device: Seq<char>,
    body: Seq<char>,
)
    requires
        a == '\\' || a == '/',
        b == '\\' || b == '/',
        c == '\\' || c == '/',
        forall|i: int| 0 <= i < device.len() ==> #[trigger] device[i] != '\\' && device[i] != '/',
        body.len() == 0 || body[0] == '\\' || body[0] == '/',
    ensures
        file_name_of(seq![a, b, '.', c] + device + body) == last_name(body, false),
{
    let path = seq![a, b, '.', c] + device + body;
    let end = 4 + device.len() as int;
    assert(path[0] == a && path[1] == b && path[2] == '.' && path[3] == c);
    assert forall|i: int| 4 <= i < end implies !is_separator(#[trigger] path[i], false) by {
        assert(path[i] == device[i - 4]);
    }
    if end < path.len() {
        assert(path[end] == body[0]);
    }
    lemma_component_ends(path, 4, end, false);
    assert(path.skip(end) == body);
}

/// What follows the first separator of a verbatim path behind its prefix.
pub open spec fn behind_root(body: Seq<char>) -> Seq<char> {
    if body.len() == 0 {
        body
    } else {
        body.skip(1)
    }
}

/// Behind a verbatim drive and its root stand the components, which only backslashes separate.
pub proof fn law_verbatim_drive(drive: char, body: Seq<char>)
    requires
        'a' <= drive <= 'z' || 'A' <= drive <= 'Z',
        body.len() == 0 || body[0] == '\\' || body[0] == '/',
    ensures
        file_name_of(seq!['\\', '\\', '?', '\\', drive, ':'] + body) == last_name(
            behind_root(body),
            true,
        ),
{
    let path = seq!['\\', '\\', '?', '\\', drive, ':'] + body;
    assert(path[0] == '\\' && path[1] == '\\' && path[2] == '?' && path[3] == '\\');
    assert(path[4] == drive && path[5] == ':');
    if body.len() > 0 {
        assert(path[6] == body[0]);
        assert(path.skip(7) == body.skip(1));
    } else {
        assert(path.skip(6) == body);
    }
}

/// Behind a verbatim server and share and their root stand the components.
pub proof fn law_verbatim_share(sep: char, server: Seq<char>, share: Seq<char>, body: Seq<char>)
    requires
        sep == '\\' || sep == '/',
        share.len() > 0,
        !server.contains('\\'),
        !share.contains('\\'),
        body.len() == 0 || body[0] == '\\',
    ensures
        file_name_of(
            seq!['\\', '\\', '?', '\\', 'U', 'N', 'C', sep] + server + seq!['\\'] + share + body,
        ) == last_name(behind_root(body), true),
{
    let path = seq!['\\', '\\', '?', '\\', 'U', 'N', 'C', sep] + server + seq!['\\'] + share + body;
    let m = 8 + server.len() as int;
    let end = m + 1 + share.len() as int;
    assert(path[0] == '\\' && path[1] == '\\' && path[2] == '?' && path[3] == '\\');
    assert(path[4] == 'U' && path[5] == 'N' && path[6] == 'C' && path[7] == sep);
    assert(path[m] == '\\');
    assert forall|i: int| 8 <= i < m implies !is_separator(#[trigger] path[i], true) by {
        assert(path[i] == server[i - 8]);
        assert(server[i - 8] != '\\');
    }
    assert forall|i: int| m + 1 <= i < end implies !is_separator(#[trigger] path[i], true) by {
        assert(path[i] == share[i - m - 1]);
        assert(share[i - m - 1] != '\\');
    }
    if end < path.len() {
        assert(path[end] == body[0]);
    }
    lemma_component_ends(path, 8, m, true);
    lemma_component_ends(path, m + 1, end, true);
    if body.len() > 0 {
        assert(path.skip(end + 1) == body.skip(1));
    } else {
        assert(path.skip(end) == body);
    }
}

/// Any other verbatim path begins with one component of its own, and behind it and its root
/// stand the others.
pub proof fn law_verbatim_other(first: Seq<char>, body: Seq<char>)
    requires
        !first.contains('\\'),
        body.len() == 0 || body[0] == '\\',
        ({
            let rest = first + body;
            &&& !(rest.len() >= 4 && rest[0] == 'U' && rest[1] == 'N' && rest[2] == 'C' && (rest[3]
                == '\\' || rest[3] == '/'))
            &&& !(rest.len() >= 2 && ('a' <= rest[0] <= 'z' || 'A' <= rest[0] <= 'Z') && rest[1]
                == ':' && (rest.len() == 2 || rest[2] == '\\' || rest[2] == '/'))
        }),
    ensures
        file_name_of(seq!['\\', '\\', '?', '\\'] + first + body) == last_name(
            behind_root(body),
            true,
        ),
{
    let rest = first + body;
    let path = seq!['\\', '\\', '?', '\\'] + first + body;
    let end = 4 + first.len() as int;
    assert(path[0] == '\\' && path[1] == '\\' && path[2] == '?' && path[3] == '\\');
    assert forall|i: int| 4 <= i < path.len() implies #[trigger] path[i] == rest[i - 4] by {
    }
    assert forall|i: int| 4 <= i < end implies !is_separator(#[trigger] path[i], true) by {
        assert(path[i] == first[i - 4]);
        assert(first[i - 4] != '\\');
    }
    if end < path.len() {
        assert(path[end] == body[0]);
    }
    lemma_component_ends(path, 4, end, true);
    assert(prefix_len(path) == end);
    if body.len() > 0 {
        assert(path.skip(end + 1) == body.skip(1));
    } else {
        assert(path.skip(end) == body);
    }
}

/// Behind a verbatim server without a share stand the components as well.
pub proof fn law_verbatim_server_alone(sep: char, server: Seq<char>, tail: Seq<char>)
    requires
        sep == '\\' || sep == '/',
        !server.contains('\\'),
        tail.len() == 0 || tail[0] == '\\',
        tail.len() <= 1 || tail[1] == '\\',
    ensures
        file_name_of(seq!['\\', '\\', '?', '\\', 'U', 'N', 'C', sep] + server + tail) == last_name(
            behind_root(tail),
            true,
        ),
{
    let path = seq!['\\', '\\', '?', '\\', 'U', 'N', 'C', sep] + server + tail;
    let end = 8 + server.len() as int;
    assert(path[0] == '\\' && path[1] == '\\' && path[2] == '?' && path[3] == '\\');
    assert(path[4] == 'U' && path[5] == 'N' && path[6] == 'C' && path[7] == sep);
    assert forall|i: int| 8 <= i < end implies !is_separator(#[trigger] path[i], true) by {
        assert(path[i] == server[i - 8]);
        assert(server[i - 8] != '\\');
    }
    if end < path.len() {
        assert(path[end] == tail[0]);
        if end + 1 < path.len() {
            assert(path[end + 1] == tail[1]);
        }
        lemma_component_ends(path, end + 1, end + 1, true);
    }
    lemma_component_ends(path, 8, end, true);
    assert(prefix_len(path) == end);
    if tail.len() > 0 {
        assert(path.skip(end + 1) == tail.skip(1));
    } else {
        assert(path.skip(end) == tail);
    }
}

} // verus!
