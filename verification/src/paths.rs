//! Where the files are. Paths are texts, read as Unix reads them.

use vstd::prelude::*;
use vstd::string::*;

use crate::text;

verus! {

/// A path that is more than white space.
pub open spec fn given_path(path: Option<Seq<char>>) -> Option<Seq<char>> {
    match path {
        Some(path) => if text::trimmed(path).len() == 0 {
            None
        } else {
            Some(path)
        },
        None => None,
    }
}

/// The path of the settings: that of the command line, that of the
/// environment, or the usual one.
pub open spec fn config_path(
    argument: Option<Seq<char>>,
    variable: Option<Seq<char>>,
) -> Seq<char> {
    match given_path(argument) {
        Some(path) => path,
        None => match given_path(variable) {
            Some(path) => path,
            None => "/opt/xray-sub-manager/config.json"@,
        },
    }
}

/// The path of the settings, of the command line's argument and the value of
/// `CONFIG_PATH`.
pub fn resolve_config_path(cli_arg: Option<String>, env_path: Option<String>) -> (path: String)
    ensures
        path@ == config_path(text::text_view(cli_arg), text::text_view(env_path)),
{
    match cli_arg {
        Some(path) => {
            let trimmed = text::trim(path.as_str());
            if !trimmed.as_str().is_empty() {
                return path;
            }
        },
        None => {},
    }
    match env_path {
        Some(path) => {
            let trimmed = text::trim(path.as_str());
            if !trimmed.as_str().is_empty() {
                return path;
            }
        },
        None => {},
    }
    "/opt/xray-sub-manager/config.json".to_string()
}

/// How much of a path is no name: a leading `/`, or a leading `.` that is a
/// whole part of the path.
pub open spec fn path_start(path: Seq<char>) -> int {
    if path.len() > 0 && path[0] == '/' {
        1
    } else if path.len() > 0 && path[0] == '.' && (path.len() == 1 || path[1] == '/') {
        1
    } else {
        0
    }
}

/// What stands behind the last `/` of a path, `start` characters left out.
pub open spec fn last_part(path: Seq<char>, start: int) -> Seq<char> {
    path.skip(start).skip(text::last_index_of(path.skip(start), '/') + 1)
}

/// A path without its last part and the `/` before it.
pub open spec fn without_last_part(path: Seq<char>, start: int) -> Seq<char> {
    let i = text::last_index_of(path.skip(start), '/');
    path.take(
        start + if i < 0 {
            0
        } else {
            i
        },
    )
}

/// A path without the parts at its end that say nothing: empty ones and `.`.
pub open spec fn without_empty_parts(path: Seq<char>, start: int) -> Seq<char>
    decreases path.len(),
    when 0 <= start
{
    if path.len() > start && (last_part(path, start).len() == 0 || last_part(path, start) == "."@) {
        if without_last_part(path, start).len() < path.len() {
            without_empty_parts(without_last_part(path, start), start)
        } else {
            path
        }
    } else {
        path
    }
}

/// The directory that a path is in: none where the path has no name.
pub open spec fn parent_path(path: Seq<char>) -> Option<Seq<char>> {
    let start = path_start(path);
    let named = without_empty_parts(path, start);
    if named.len() > start {
        Some(without_empty_parts(without_last_part(named, start), start))
    } else if path.len() > 0 && path[0] == '.' {
        Some(Seq::empty())
    } else {
        None
    }
}

/// A name in a directory.
pub open spec fn in_directory(directory: Seq<char>, name: Seq<char>) -> Seq<char> {
    if directory.len() == 0 {
        name
    } else if directory.last() == '/' {
        directory + name
    } else {
        directory + "/"@ + name
    }
}

/// The directory that a path is in, `.` where the path has no name.
pub open spec fn directory_of(path: Seq<char>) -> Seq<char> {
    match parent_path(path) {
        Some(parent) => parent,
        None => "."@,
    }
}

/// The length of a path without its last part.
proof fn lemma_shorter(path: Seq<char>, start: int)
    requires
        0 <= start < path.len(),
    ensures
        start <= without_last_part(path, start).len() < path.len(),
        without_last_part(path, start).take(start) == path.take(start),
{
    text::lemma_last_index_of(path.skip(start), '/');
    assert(without_last_part(path, start).take(start) =~= path.take(start));
}

/// Takes the parts that say nothing off the end of a path.
fn trim_path(path: &Vec<char>, start: usize, end: usize) -> (cut: usize)
    requires
        start <= 1,
        start <= end <= path@.len(),
    ensures
        start <= cut <= end,
        path@.take(cut as int) == without_empty_parts(path@.take(end as int), start as int),
    decreases end,
{
    if end == start {
        return end;
    }
    let ghost part = path@.take(end as int);
    let from = part_start(path, start, end);
    proof {
        lemma_shorter(part, start as int);
        reveal_strlit(".");
        assert(part.skip(start as int).skip(from - start) =~= path@.subrange(
            from as int,
            end as int,
        ));
    }
    let empty = from == end || (end - from == 1 && path[from] == '.');
    assert(empty <==> (last_part(part, start as int).len() == 0 || last_part(part, start as int)
        == "."@)) by {
        if end - from == 1 && path@[from as int] == '.' {
            assert(last_part(part, start as int) =~= "."@);
        }
        if last_part(part, start as int) == "."@ {
            assert(last_part(part, start as int)[0] == '.');
        }
    }
    if !empty {
        return end;
    }
    let cut = if from > start {
        from - 1
    } else {
        start
    };
    assert(path@.take(cut as int) =~= without_last_part(part, start as int));
    trim_path(path, start, cut)
}

/// Where the last part of a path starts.
fn part_start(path: &Vec<char>, start: usize, end: usize) -> (from: usize)
    requires
        start <= end <= path@.len(),
    ensures
        start <= from <= end,
        from - start == text::last_index_of(path@.take(end as int).skip(start as int), '/') + 1,
{
    let ghost body = path@.take(end as int).skip(start as int);
    let mut from: usize = end;
    while from > start && path[from - 1] != '/'
        invariant
            start <= from <= end <= path@.len(),
            body == path@.take(end as int).skip(start as int),
            forall|j: int| from - start <= j < body.len() ==> body[j] != '/',
        decreases from,
    {
        from = from - 1;
    }
    proof {
        if from > start {
            assert(body[from - start - 1] == path@[from - 1]);
        }
        text::lemma_last_index_of_is(body, '/', from - start - 1);
    }
    from
}

/// The directory that a path is in, `.` where the path has no name.
pub fn parent_directory(path: &str) -> (directory: String)
    ensures
        directory@ == directory_of(path@),
{
    let chars = text::chars_of(path);
    let count = chars.len();
    let start: usize = if count > 0 && chars[0] == '/' {
        1
    } else if count > 0 && chars[0] == '.' && (count == 1 || chars[1] == '/') {
        1
    } else {
        0
    };
    assert(start == path_start(path@));
    assert(chars@.take(count as int) =~= path@);
    let named = trim_path(&chars, start, count);
    if named > start {
        let from = part_start(&chars, start, named);
        let end = if from > start {
            from - 1
        } else {
            start
        };
        proof {
            lemma_shorter(chars@.take(named as int), start as int);
        }
        assert(chars@.take(end as int) =~= without_last_part(
            chars@.take(named as int),
            start as int,
        ));
        let cut = trim_path(&chars, start, end);
        let directory = text::text_between(&chars, 0, cut);
        assert(directory@ =~= chars@.take(cut as int));
        return directory;
    }
    if count > 0 && chars[0] == '.' {
        return String::new();
    }
    ".".to_string()
}

/// A name in a directory.
pub fn join_path(directory: &str, name: &str) -> (path: String)
    ensures
        path@ == in_directory(directory@, name@),
{
    let chars = text::chars_of(directory);
    let mut path = directory.to_string();
    if chars.len() == 0 {
        return name.to_string();
    }
    if chars[chars.len() - 1] != '/' {
        path.append("/");
    }
    path.append(name);
    path
}

/// The path of the cache: beside the settings.
pub open spec fn cache_path(config_path: Seq<char>) -> Seq<char> {
    in_directory(directory_of(config_path), "subscription.cache"@)
}

/// The path of the cache, beside the settings.
pub fn cache_path_for(config_path: &str) -> (path: String)
    ensures
        path@ == cache_path(config_path@),
{
    let directory = parent_directory(config_path);
    join_path(directory.as_str(), "subscription.cache")
}

/// The name of the file that is written before it takes the place of another.
pub open spec fn temp_name(file_name: Option<Seq<char>>, id: Seq<char>) -> Seq<char> {
    "."@ + match file_name {
        Some(name) => name,
        None => "config"@,
    } + ".tmp-"@ + id
}

/// The name of the file that is written before it takes the place of another.
pub fn temp_file_name(file_name: Option<String>, id: &str) -> (name: String)
    ensures
        name@ == temp_name(text::text_view(file_name), id@),
{
    let mut name = ".".to_string();
    match file_name {
        Some(file_name) => name.append(file_name.as_str()),
        None => name.append("config"),
    }
    name.append(".tmp-");
    name.append(id);
    name
}

/// The cache of settings in a directory is in that directory, if the directory
/// is written without parts at its end that say nothing.
pub proof fn law_cache_beside_config(directory: Seq<char>, name: Seq<char>)
    requires
        directory.len() > 0,
        directory.last() != '/',
        without_empty_parts(directory, path_start(directory)) == directory,
        name.len() > 0,
        !name.contains('/'),
        name != "."@,
    ensures
        cache_path(directory + "/"@ + name) == directory + "/"@ + "subscription.cache"@,
{
    let path = directory + "/"@ + name;
    let start = path_start(directory);
    reveal_strlit("/");
    assert(path_start(path) == start);
    let body = path.skip(start);
    assert(body =~= directory.skip(start) + "/"@ + name);
    let i = directory.len() - start;
    assert(body[i] == '/');
    assert forall|j: int| i < j < body.len() implies body[j] != '/' by {
        assert(body[j] == name[j - i - 1]);
    }
    text::lemma_last_index_of_is(body, '/', i);
    assert(last_part(path, start) =~= name);
    assert(without_last_part(path, start) =~= directory);
}

} // verus!
