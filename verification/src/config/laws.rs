//! What a configuration is read as, and what is accepted.
use crate::config::{
    default_name, dotenv_layer, last_wins, load_outcome, name_char, name_or_dash, template_view, valid_config, valid_env_key,
    valid_keys, valid_name, validation, ConfigError, ConfigView, DotenvItem, LoadedService,
};
use crate::paths::{absolute, base_name, home_layout, joined, last_name, ServedPaths};
use crate::text::{blank, split};
use vstd::prelude::*;

verus! {

/// The entry at `i` is the last one that sets the variable.
pub open spec fn last_set(items: Seq<DotenvItem>, key: Seq<char>, i: int) -> bool {
    &&& 0 <= i < items.len()
    &&& items[i] is Ok && items[i]->Ok_0.0@ == key
    &&& forall|j: int| i < j < items.len() ==> (#[trigger] items[j]) is Err || items[j]->Ok_0.0@ != key
}

proof fn lemma_layer(base: Map<Seq<char>, Seq<char>>, items: Seq<DotenvItem>, n: int, key: Seq<char>)
    requires
        0 <= n <= items.len(),
    ensures
        forall|i: int| #[trigger]
            last_set(items.take(n), key, i) ==> dotenv_layer(base, items, n).contains_key(key) && dotenv_layer(
                base,
                items,
                n,
            )[key] == items[i]->Ok_0.1@,
        (forall|i: int| 0 <= i < n ==> (#[trigger] items[i]) is Err || items[i]->Ok_0.0@ != key) ==> {
            &&& dotenv_layer(base, items, n).contains_key(key) == base.contains_key(key)
            &&& dotenv_layer(base, items, n)[key] == base[key]
        },
    decreases n,
{
    if n > 0 {
        lemma_layer(base, items, n - 1, key);
        let last = items[n - 1];
        assert forall|i: int| #[trigger] last_set(items.take(n), key, i) implies dotenv_layer(base, items, n).contains_key(
            key,
        ) && dotenv_layer(base, items, n)[key] == items[i]->Ok_0.1@ by {
            if i < n - 1 {
                assert(items.take(n)[n - 1] == last);
                assert forall|j: int| i < j < n - 1 implies (#[trigger] items.take(n - 1)[j]) is Err || items.take(
                    n - 1,
                )[j]->Ok_0.0@ != key by {
                    assert(items.take(n)[j] == items[j]);
                }
                assert(items.take(n)[i] == items[i]);
                assert(last_set(items.take(n - 1), key, i));
            }
        }
    }
}

/// The environment of a service is made of three layers: a variable of the configuration has its
/// value; any other that the dotenv file sets has the value set last; any other has the
/// manager's value. There are no further variables.
pub proof fn law_the_environment_has_three_layers(
    directory: Seq<char>,
    config_file: Option<Seq<char>>,
    config: ConfigView,
    config_env: Map<Seq<char>, Seq<char>>,
    manager: Map<Seq<char>, Seq<char>>,
    dotenv: Seq<DotenvItem>,
    service: LoadedService,
    key: Seq<char>,
)
    requires
        load_outcome(directory, config_file, config, config_env, manager, dotenv, Ok(service)),
    ensures
        ({
            let env = service.environment.map();
            let unset = forall|i: int| 0 <= i < dotenv.len() ==> (#[trigger] dotenv[i])->Ok_0.0@ != key;
            &&& config_env.contains_key(key) ==> env.contains_key(key) && env[key] == config_env[key]
            &&& forall|i: int|
                !config_env.contains_key(key) && #[trigger] last_set(dotenv, key, i) ==> env.contains_key(key)
                    && env[key] == dotenv[i]->Ok_0.1@
            &&& !config_env.contains_key(key) && unset ==> env.contains_key(key) == manager.contains_key(key)
            &&& !config_env.contains_key(key) && unset && manager.contains_key(key) ==> env[key] == manager[key]
        }),
        service.config@ == config,
        service.directory@ == directory,
{
    lemma_layer(manager, dotenv, dotenv.len() as int, key);
    assert(dotenv.take(dotenv.len() as int) =~= dotenv);
}

/// A service is loaded exactly where its configuration is valid and every entry of the dotenv
/// file can be used.
pub proof fn law_only_valid_services_are_loaded(
    directory: Seq<char>,
    config_file: Option<Seq<char>>,
    config: ConfigView,
    config_env: Map<Seq<char>, Seq<char>>,
    manager: Map<Seq<char>, Seq<char>>,
    dotenv: Seq<DotenvItem>,
    r: Result<LoadedService, ConfigError>,
)
    requires
        load_outcome(directory, config_file, config, config_env, manager, dotenv, r),
    ensures
        r is Ok <==> valid_config(config) && forall|i: int|
            0 <= i < dotenv.len() ==> {
                let item = #[trigger] dotenv[i];
                item is Ok && item->Ok_0.0@.len() > 0 && !item->Ok_0.0@.contains('=') && !item->Ok_0.0@.contains('\0')
            },
{
    if r is Err && valid_config(config) {
        let e = r->Err_0;
        let i = choose|i: int|
            {
                &&& 0 <= i < dotenv.len()
                &&& crate::config::item_error(#[trigger] dotenv[i], e)
                &&& forall|j: int| 0 <= j < i ==> crate::config::usable_item(#[trigger] dotenv[j])
            };
        assert(!crate::config::usable_item(dotenv[i]));
    }
    if r is Ok {
        assert forall|i: int| 0 <= i < dotenv.len() implies {
            let item = #[trigger] dotenv[i];
            item is Ok && item->Ok_0.0@.len() > 0 && !item->Ok_0.0@.contains('=') && !item->Ok_0.0@.contains('\0')
        } by {
            assert(crate::config::usable_item(dotenv[i]));
        }
    }
}

/// What `validate` accepts, rule by rule: the name is made of letters, digits, `.`, `_` and `-`
/// and is neither of the two directories that every directory has; something is run; both limits
/// are above zero; and every variable can be handed to a process.
pub proof fn law_what_is_valid(c: ConfigView, r: Result<(), ConfigError>)
    requires
        validation(c, r),
    ensures
        r is Ok <==> {
            &&& c.name.len() > 0 && c.name != "."@ && c.name != ".."@
            &&& forall|i: int|
                0 <= i < c.name.len() ==> {
                    let x = #[trigger] c.name[i];
                    'a' <= x <= 'z' || 'A' <= x <= 'Z' || '0' <= x <= '9' || x == '.' || x == '_' || x == '-'
                }
            &&& !blank(c.command)
            &&& c.log_max_bytes != 0
            &&& c.log_max_files != 0
            &&& forall|i: int|
                0 <= i < c.env.len() ==> {
                    let key = (#[trigger] c.env[i]).0;
                    key.len() > 0 && !key.contains('=') && !key.contains('\0')
                }
        },
{
    if valid_name(c.name) {
        assert forall|i: int| 0 <= i < c.name.len() implies {
            let x = #[trigger] c.name[i];
            'a' <= x <= 'z' || 'A' <= x <= 'Z' || '0' <= x <= '9' || x == '.' || x == '_' || x == '-'
        } by {
            assert(name_char(c.name[i]));
        }
    }
    if valid_keys(c.env) {
        assert forall|i: int| 0 <= i < c.env.len() implies {
            let key = (#[trigger] c.env[i]).0;
            key.len() > 0 && !key.contains('=') && !key.contains('\0')
        } by {
            assert(valid_env_key(c.env[i].0));
        }
    }
    match r {
        Err(ConfigError::InvalidEnvKey(k)) => {
            let i = choose|i: int|
                {
                    &&& 0 <= i < c.env.len()
                    &&& (#[trigger] c.env[i]).0 == k@
                    &&& !valid_env_key(k@)
                    &&& valid_keys(c.env.take(i))
                };
            assert(c.env[i].0 == k@);
        },
        _ => {},
    }
}

/// The name of a service stays within the directory that it is joined to: it is no way out of it,
/// and no path of its own.
pub proof fn law_names_stay_in_their_directory(directory: Seq<char>, name: Seq<char>)
    requires
        valid_name(name),
        directory.len() > 0,
    ensures
        !name.contains('/'),
        !name.contains('\0'),
        !absolute(name),
        joined(directory, name) == directory + name || joined(directory, name) == directory + "/"@ + name,
        joined(directory, name).last() == name.last(),
{
    assert forall|i: int| 0 <= i < name.len() implies name[i] != '/' && name[i] != '\0' by {
        assert(name_char(name[i]));
    }
    reveal_strlit("/");
}

/// A path below another one begins with it; an absolute path stands for itself.
pub proof fn law_paths_join(directory: Seq<char>, child: Seq<char>)
    ensures
        absolute(child) ==> joined(directory, child) == child,
        !absolute(child) && directory.len() > 0 ==> joined(directory, child).len() >= directory.len() + child.len(),
        !absolute(child) && directory.len() > 0 ==> joined(directory, child).take(directory.len() as int)
            == directory,
        !absolute(child) && directory.len() > 0 ==> joined(directory, child).skip(
            joined(directory, child).len() - child.len(),
        ) == child,
        !absolute(child) && directory.len() > 0 ==> joined(directory, child)[joined(directory, child).len()
            - child.len() - 1] == '/',
{
    reveal_strlit("/");
    if !absolute(child) && directory.len() > 0 {
        let j = joined(directory, child);
        assert(j.take(directory.len() as int) =~= directory);
        assert(j.skip(j.len() - child.len()) =~= child);
    }
}

proof fn lemma_last_name(pieces: Seq<Seq<char>>)
    ensures
        last_name(pieces) matches Some(n) ==> n.len() > 0 && n != "."@ && n != ".."@,
    decreases pieces.len(),
{
    reveal_strlit(".");
    reveal_strlit("..");
    if pieces.len() > 0 {
        lemma_last_name(pieces.drop_last());
    }
}

/// Whatever the directory is called, the configuration that it starts with is accepted.
pub proof fn law_the_template_is_valid(directory: Seq<char>)
    ensures
        valid_config(template_view(directory)),
        base_name(directory) matches Some(b) ==> template_view(directory).name.len() == b.len(),
        base_name(directory) matches Some(b) ==> (valid_name(b) ==> template_view(directory).name == b),
        base_name(directory) is None ==> template_view(directory).name == "service"@,
{
    reveal_strlit("service");
    reveal_strlit("./run.sh");
    reveal_strlit(".");
    reveal_strlit("..");
    lemma_last_name(split(directory, '/'));
    let name = default_name(directory);
    let base = match base_name(directory) {
        Some(b) => b,
        None => "service"@,
    };
    assert forall|i: int| 0 <= i < name.len() implies name_char(#[trigger] name[i]) by {
        assert(name[i] == name_or_dash(base[i]));
    }
    if name == "."@ {
        assert(name[0] == name_or_dash(base[0]));
        assert(base =~= "."@);
    }
    if name == ".."@ {
        assert(name.len() == base.len() && name.len() == 2);
        assert(name[0] == '.' && name[1] == '.');
        assert(name[0] == name_or_dash(base[0]) && name[1] == name_or_dash(base[1]));
        assert(base[0] == '.' && base[1] == '.');
        assert(base =~= ".."@);
    }
    let command = "./run.sh"@;
    assert(command[0] == '.');
    if valid_name(base) {
        assert forall|i: int| 0 <= i < base.len() implies name[i] == base[i] by {
            assert(name_char(base[i]));
        }
        assert(name =~= base);
    }
    if base_name(directory) is None {
        assert forall|i: int| 0 <= i < base.len() implies name_char(#[trigger] base[i]) by {}
        assert(name =~= base);
    }
}

/// Of a variable that the manager was given several times the last value counts, and every
/// variable that it was given is there.
pub proof fn law_the_last_value_counts(pairs: Seq<(String, String)>, n: int, i: int)
    requires
        0 <= i < n <= pairs.len(),
        forall|j: int| i < j < n ==> (#[trigger] pairs[j]).0@ != pairs[i].0@,
    ensures
        last_wins(pairs, n).contains_key(pairs[i].0@),
        last_wins(pairs, n)[pairs[i].0@] == pairs[i].1@,
    decreases n,
{
    if i < n - 1 {
        law_the_last_value_counts(pairs, n - 1, i);
        assert(pairs[n - 1].0@ != pairs[i].0@);
    }
}

/// A variable that the manager was not given is not there.
pub proof fn law_no_variable_is_made_up(pairs: Seq<(String, String)>, n: int, key: Seq<char>)
    requires
        0 <= n <= pairs.len(),
        forall|j: int| 0 <= j < n ==> (#[trigger] pairs[j]).0@ != key,
    ensures
        !last_wins(pairs, n).contains_key(key),
    decreases n,
{
    if n > 0 {
        law_no_variable_is_made_up(pairs, n - 1, key);
        assert(pairs[n - 1].0@ != key);
    }
}

/// All that is kept lies below the home directory: the configuration, what is kept for good, and
/// what is there while the manager runs.
pub proof fn law_everything_lies_below_the_home_directory(p: ServedPaths, home: Seq<char>)
    requires
        home_layout(p, home),
        home.len() > 0,
    ensures
        p.config_home@.take(home.len() as int) == home,
        p.state_home@.take(home.len() as int) == home,
        p.runtime_dir@.take(p.state_home@.len() as int) == p.state_home@,
        p.config_home@ != p.state_home@,
        p.runtime_dir@.len() > p.state_home@.len(),
{
    reveal_strlit(".config");
    reveal_strlit(".local");
    reveal_strlit("state");
    reveal_strlit("served");
    reveal_strlit("runtime");
    reveal_strlit("/");
    law_paths_join(home, ".config"@);
    law_paths_join(home, ".local"@);
    let local = joined(home, ".local"@);
    law_paths_join(local, "state"@);
    let state = joined(local, "state"@);
    assert(state.take(home.len() as int) =~= state.take(local.len() as int).take(home.len() as int));
    law_paths_join(state, "served"@);
    let served = joined(state, "served"@);
    law_paths_join(served, "runtime"@);
    let runtime = joined(served, "runtime"@);
    assert(runtime.take(state.len() as int) =~= runtime.take(served.len() as int).take(state.len() as int));
    assert(p.config_home@.last() == 'g');
    assert(state.last() == 'e');
}

} // verus!
