//! Where the settings and what is kept are stored.

use vstd::prelude::*;
use vstd::string::*;

use crate::paths;
use crate::text;

verus! {

/// The settings are where the argument says, else where the variable says, else
/// at their usual place; one that is blank says nothing.
pub proof fn law_config_path(argument: Option<Seq<char>>, variable: Option<Seq<char>>)
    ensures
        ({
            let path = paths::config_path(argument, variable);
            let has_argument = argument is Some && text::trimmed(argument->0).len() > 0;
            let has_variable = variable is Some && text::trimmed(variable->0).len() > 0;
            &&& has_argument ==> path == argument->0
            &&& !has_argument && has_variable ==> path == variable->0
            &&& !has_argument && !has_variable ==> path == "/opt/xray-sub-manager/config.json"@
        }),
{
}

/// A file is written beside its place under a hidden name, which tells its own
/// name, or `config` where it has none, and one that is new each time.
pub proof fn law_temp_name(name: Seq<char>, id: Seq<char>)
    ensures
        paths::temp_name(Some(name), id) == seq!['.'] + name + ".tmp-"@ + id,
        paths::temp_name(None, id) == seq!['.'] + "config"@ + ".tmp-"@ + id,
{
    reveal_strlit(".");
    assert("."@ =~= seq!['.']);
}

/// What is kept is stored beside settings that are named alone.
pub proof fn law_cache_of_name(name: Seq<char>)
    requires
        name.len() > 0,
        !name.contains('/'),
        name != seq!['.'],
    ensures
        paths::cache_path(name) == "subscription.cache"@,
{
    reveal_strlit(".");
    assert("."@ =~= seq!['.']);
    assert(name.contains(name[0]));
    if name.len() > 1 {
        assert(name.contains(name[1]));
    }
    let start = paths::path_start(name);
    assert(start == 0) by {
        if name[0] == '.' && name.len() == 1 {
            assert(name =~= seq!['.']);
        }
    }
    text::lemma_last_index_of(name, '/');
    assert(name.skip(0) =~= name);
    let at = text::last_index_of(name, '/');
    assert(at == -1) by {
        if at >= 0 {
            assert(name[at] == '/');
        }
    }
    assert(paths::last_part(name, 0) =~= name);
    assert(paths::without_last_part(name, 0) =~= Seq::empty());
    assert(paths::without_empty_parts(name, 0) == name);
    assert(paths::without_empty_parts(Seq::empty(), 0) =~= Seq::empty());
}

/// What is kept is stored at the root beside settings that are stored there.
pub proof fn law_cache_at_root(name: Seq<char>)
    requires
        name.len() > 0,
        !name.contains('/'),
        name != seq!['.'],
    ensures
        paths::cache_path(seq!['/'] + name) == seq!['/'] + "subscription.cache"@,
{
    reveal_strlit(".");
    assert("."@ =~= seq!['.']);
    let path = seq!['/'] + name;
    assert(path.skip(1) =~= name);
    text::lemma_last_index_of(name, '/');
    let at = text::last_index_of(name, '/');
    assert(at == -1) by {
        if at >= 0 {
            assert(name[at] == '/');
        }
    }
    assert(paths::last_part(path, 1) =~= name);
    assert(paths::without_empty_parts(path, 1) == path);
    assert(paths::without_last_part(path, 1) =~= seq!['/']);
    assert(paths::without_empty_parts(seq!['/'], 1) =~= seq!['/']);
}

} // verus!
