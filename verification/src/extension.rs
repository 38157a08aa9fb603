//! How the editor's extension starts the server.
use crate::config::{key_in, value_in, variables_of, Config, DEFAULT_MODEL};
use crate::number::{decimal, law_parse_inverts_decimal, to_decimal};
use vstd::prelude::*;
use vstd::string::StringExecFns;

verus! {

/// The name of the server's binary.
pub const SERVER_BIN_NAME: &'static str = "minimax-proxy-server";

/// The name under which the editor knows the server.
pub const SERVER_LANGUAGE_SERVER_NAME: &'static str = "minimax-proxy";

/// The limit on the output unless another is set.
pub const DEFAULT_MAX_TOKENS: u64 = 256;

/// What a user set in the editor. `N` is the type of the sampling numbers.
#[derive(Debug)]
pub struct UserSettings<N> {
    pub model: Option<String>,
    pub max_tokens: Option<u64>,
    pub api_token: Option<String>,
    pub temperature: Option<N>,
    pub top_p: Option<N>,
}

/// The settings that hold.
#[derive(Debug)]
pub struct MiniMaxProxySettings<N> {
    pub model: String,
    pub max_tokens: u64,
    pub api_token: String,
    pub temperature: N,
    pub top_p: N,
}

/// The model unless another is set.
pub fn default_model() -> (model: String)
    ensures
        model@ == DEFAULT_MODEL@,
{
    DEFAULT_MODEL.to_owned()
}

/// The limit on the output unless another is set.
pub fn default_max_tokens() -> (max_tokens: u64)
    ensures
        max_tokens == DEFAULT_MAX_TOKENS,
{
    DEFAULT_MAX_TOKENS
}

/// What a user sets who sets nothing.
pub open spec fn nothing_set<N>() -> UserSettings<N> {
    UserSettings { model: None, max_tokens: None, api_token: None, temperature: None, top_p: None }
}

/// `settings` are what a user set, and the defaults for the rest. There is no
/// default for the token.
pub open spec fn settings_follow<N>(
    settings: MiniMaxProxySettings<N>,
    user: UserSettings<N>,
    default_temperature: N,
    default_top_p: N,
) -> bool {
    &&& settings.model@ == (match user.model {
        Some(model) => model@,
        None => DEFAULT_MODEL@,
    })
    &&& settings.max_tokens == (match user.max_tokens {
        Some(n) => n,
        None => DEFAULT_MAX_TOKENS,
    })
    &&& settings.api_token@ == (match user.api_token {
        Some(token) => token@,
        None => Seq::empty(),
    })
    &&& settings.temperature == (match user.temperature {
        Some(n) => n,
        None => default_temperature,
    })
    &&& settings.top_p == (match user.top_p {
        Some(n) => n,
        None => default_top_p,
    })
}

/// Works out the settings that hold. Settings that cannot be read count as none.
pub fn resolve_settings<N>(
    user: Option<UserSettings<N>>,
    default_temperature: N,
    default_top_p: N,
) -> (settings: MiniMaxProxySettings<N>)
    ensures
        settings_follow(
            settings,
            match user {
                Some(user) => user,
                None => nothing_set(),
            },
            default_temperature,
            default_top_p,
        ),
        user matches Some(user) ==> {
            &&& user.model matches Some(model) ==> settings.model@ == model@
            &&& user.max_tokens matches Some(n) ==> settings.max_tokens == n
            &&& user.api_token matches Some(token) ==> settings.api_token@ == token@
            &&& user.temperature matches Some(n) ==> settings.temperature == n
            &&& user.top_p matches Some(n) ==> settings.top_p == n
        },
{
    match user {
        Some(user) => MiniMaxProxySettings {
            model: match user.model {
                Some(model) => model,
                None => default_model(),
            },
            max_tokens: match user.max_tokens {
                Some(n) => n,
                None => default_max_tokens(),
            },
            api_token: match user.api_token {
                Some(token) => token,
                None => String::new(),
            },
            temperature: match user.temperature {
                Some(n) => n,
                None => default_temperature,
            },
            top_p: match user.top_p {
                Some(n) => n,
                None => default_top_p,
            },
        },
        None => MiniMaxProxySettings {
            model: default_model(),
            max_tokens: default_max_tokens(),
            api_token: String::new(),
            temperature: default_temperature,
            top_p: default_top_p,
        },
    }
}

/// Where a build of the server leaves its binary.
pub open spec fn built_path(root: Seq<char>) -> Seq<char> {
    root + "/server/target/release/"@ + SERVER_BIN_NAME@
}

/// Where a binary can be put by hand.
pub open spec fn bin_path(root: Seq<char>) -> Seq<char> {
    root + "/bin/"@ + SERVER_BIN_NAME@
}

/// The places where the binary is looked for besides the search path, in their order.
pub fn server_candidates(root: &str) -> (candidates: (String, String))
    ensures
        candidates.0@ == built_path(root@),
        candidates.1@ == bin_path(root@),
{
    let mut built = root.to_owned();
    built.append("/server/target/release/");
    built.append(SERVER_BIN_NAME);
    let mut bin = root.to_owned();
    bin.append("/bin/");
    bin.append(SERVER_BIN_NAME);
    (built, bin)
}

/// What the extension says when it finds no binary.
pub const NO_BINARY: &'static str =
    "could not locate minimax-proxy-server. Build it with `cargo build --release --manifest-path server/Cargo.toml`, copy it to `bin/minimax-proxy-server`, or install it on PATH via `cargo install --path server`.";

/// Chooses the binary: the one on the search path, or else the one that a
/// build left, or else the one in `bin`.
pub fn locate_server_binary(
    on_path: Option<String>,
    root: &str,
    built_exists: bool,
    bin_exists: bool,
) -> (located: Result<String, String>)
    ensures
        match located {
            Ok(path) => path@ == (match on_path {
                Some(found) => found@,
                None => if built_exists {
                    built_path(root@)
                } else {
                    bin_path(root@)
                },
            }),
            Err(message) => message@ == NO_BINARY@,
        },
        located is Err <==> on_path is None && !built_exists && !bin_exists,
{
    if let Some(path) = on_path {
        return Ok(path);
    }
    let (built, bin) = server_candidates(root);
    if built_exists {
        return Ok(built);
    }
    if bin_exists {
        return Ok(bin);
    }
    Err(NO_BINARY.to_owned())
}

/// The environment of the server: that of the shell, and behind it what is
/// set. The model is told under the name that the server reads and under its
/// short name.
pub open spec fn launch_variables<N>(
    shell: Seq<(Seq<char>, Seq<char>)>,
    settings: MiniMaxProxySettings<N>,
    temperature: Seq<char>,
    top_p: Seq<char>,
) -> Seq<(Seq<char>, Seq<char>)> {
    shell + seq![
        ("MINIMAX_MODEL"@, settings.model@),
        ("MINIMAX_DEFAULT_MODEL"@, settings.model@),
        ("MINIMAX_MAX_TOKENS"@, decimal(settings.max_tokens as nat)),
        ("MINIMAX_TEMPERATURE"@, temperature),
        ("MINIMAX_TOP_P"@, top_p),
        ("MINIMAX_API_KEY"@, settings.api_token@),
    ]
}

/// Adds to the shell's environment what is set. The sampling numbers come as texts.
pub fn launch_environment<N>(
    shell_env: Vec<(String, String)>,
    settings: &MiniMaxProxySettings<N>,
    temperature: &str,
    top_p: &str,
) -> (env: Vec<(String, String)>)
    ensures
        variables_of(env@) == launch_variables(
            variables_of(shell_env@),
            *settings,
            temperature@,
            top_p@,
        ),
{
    let mut env = shell_env;
    env.push(("MINIMAX_MODEL".to_owned(), settings.model.clone()));
    env.push(("MINIMAX_DEFAULT_MODEL".to_owned(), settings.model.clone()));
    env.push(("MINIMAX_MAX_TOKENS".to_owned(), to_decimal(settings.max_tokens)));
    env.push(("MINIMAX_TEMPERATURE".to_owned(), temperature.to_owned()));
    env.push(("MINIMAX_TOP_P".to_owned(), top_p.to_owned()));
    env.push(("MINIMAX_API_KEY".to_owned(), settings.api_token.clone()));
    assert(variables_of(env@) =~= launch_variables(
        variables_of(shell_env@),
        *settings,
        temperature@,
        top_p@,
    ));
    env
}

/// How the server is started.
#[derive(Debug)]
pub struct LaunchCommand {
    pub command: String,
    pub args: Vec<String>,
    pub env: Vec<(String, String)>,
}

/// The command that starts the server, without arguments; no command where
/// there is no binary.
pub fn server_command<N>(
    located: Result<String, String>,
    shell_env: Vec<(String, String)>,
    settings: &MiniMaxProxySettings<N>,
    temperature: &str,
    top_p: &str,
) -> (command: Result<LaunchCommand, String>)
    ensures
        match (located, command) {
            (Ok(path), Ok(command)) => {
                &&& command.command == path
                &&& command.args@.len() == 0
                &&& variables_of(command.env@) == launch_variables(
                    variables_of(shell_env@),
                    *settings,
                    temperature@,
                    top_p@,
                )
            },
            (Err(message), Err(error)) => error == message,
            _ => false,
        },
{
    match located {
        Ok(path) => Ok(
            LaunchCommand {
                command: path,
                args: Vec::new(),
                env: launch_environment(shell_env, settings, temperature, top_p),
            },
        ),
        Err(message) => Err(message),
    }
}

/// What is set in the editor is what the server is configured with, whatever
/// the shell's environment holds: the model, the limit on the output and, as
/// the key, the token. The sampling numbers reach it as the texts that were
/// made of them.
pub proof fn law_settings_reach_the_server<N, M>(
    shell: Seq<(Seq<char>, Seq<char>)>,
    settings: MiniMaxProxySettings<N>,
    temperature: Seq<char>,
    top_p: Seq<char>,
    config: Config<M>,
)
    requires
        config.follows(launch_variables(shell, settings, temperature, top_p)),
    ensures
        config.default_model@ == settings.model@,
        config.default_max_tokens == settings.max_tokens,
        config.minimax_api_key@ == settings.api_token@,
        value_in(launch_variables(shell, settings, temperature, top_p), "MINIMAX_TEMPERATURE"@)
            == Some(temperature),
        value_in(launch_variables(shell, settings, temperature, top_p), "MINIMAX_TOP_P"@) == Some(
            top_p,
        ),
{
    lemma_launch_values(shell, settings, temperature, top_p);
    law_parse_inverts_decimal(settings.max_tokens as nat, u64::MAX as int);
}

/// Without a token the server has no key, whatever the shell's environment
/// holds: no placeholder is made up.
pub proof fn law_no_token_is_no_key<N>(
    shell: Seq<(Seq<char>, Seq<char>)>,
    settings: MiniMaxProxySettings<N>,
    temperature: Seq<char>,
    top_p: Seq<char>,
)
    ensures
        key_in(launch_variables(shell, settings, temperature, top_p)) is None
            <==> settings.api_token@.len() == 0,
{
    lemma_launch_values(shell, settings, temperature, top_p);
}

proof fn lemma_launch_values<N>(
    shell: Seq<(Seq<char>, Seq<char>)>,
    settings: MiniMaxProxySettings<N>,
    temperature: Seq<char>,
    top_p: Seq<char>,
)
    ensures
        ({
            let all = launch_variables(shell, settings, temperature, top_p);
            &&& value_in(all, "MINIMAX_MODEL"@) == Some(settings.model@)
            &&& value_in(all, "MINIMAX_DEFAULT_MODEL"@) == Some(settings.model@)
            &&& value_in(all, "MINIMAX_MAX_TOKENS"@) == Some(decimal(settings.max_tokens as nat))
            &&& value_in(all, "MINIMAX_TEMPERATURE"@) == Some(temperature)
            &&& value_in(all, "MINIMAX_TOP_P"@) == Some(top_p)
            &&& value_in(all, "MINIMAX_API_KEY"@) == Some(settings.api_token@)
        }),
{
    reveal_strlit("MINIMAX_MODEL");
    reveal_strlit("MINIMAX_DEFAULT_MODEL");
    reveal_strlit("MINIMAX_MAX_TOKENS");
    reveal_strlit("MINIMAX_TEMPERATURE");
    reveal_strlit("MINIMAX_TOP_P");
    reveal_strlit("MINIMAX_API_KEY");
    let all = launch_variables(shell, settings, temperature, top_p);
    let n = shell.len() as int;
    // Two of the names have the same length, and differ in a letter.
    assert("MINIMAX_MODEL"@[8] == 'M' && "MINIMAX_TOP_P"@[8] == 'T');
    assert("MINIMAX_MODEL"@.len() == 13);
    assert("MINIMAX_DEFAULT_MODEL"@.len() == 21);
    assert("MINIMAX_MAX_TOKENS"@.len() == 18);
    assert("MINIMAX_TEMPERATURE"@.len() == 19);
    assert("MINIMAX_TOP_P"@.len() == 13);
    assert("MINIMAX_API_KEY"@.len() == 15);
    assert(all.take(n + 6) =~= all);
    assert(all.take(n + 1).last() == all[n]);
    assert(all.take(n + 2).last() == all[n + 1]);
    assert(all.take(n + 3).last() == all[n + 2]);
    assert(all.take(n + 4).last() == all[n + 3]);
    assert(all.take(n + 5).last() == all[n + 4]);
    lemma_later_names_differ(all, n + 5, n + 6, "MINIMAX_TOP_P"@);
    lemma_later_names_differ(all, n + 4, n + 6, "MINIMAX_TEMPERATURE"@);
    lemma_later_names_differ(all, n + 3, n + 6, "MINIMAX_MAX_TOKENS"@);
    lemma_later_names_differ(all, n + 2, n + 6, "MINIMAX_DEFAULT_MODEL"@);
    lemma_later_names_differ(all, n + 1, n + 6, "MINIMAX_MODEL"@);
}

/// Variables with other names do not change the value of a variable.
proof fn lemma_later_names_differ(
    variables: Seq<(Seq<char>, Seq<char>)>,
    from: int,
    to: int,
    name: Seq<char>,
)
    requires
        0 <= from <= to <= variables.len(),
        forall|k: int| from <= k < to ==> (#[trigger] variables[k]).0 != name,
    ensures
        value_in(variables.take(to), name) == value_in(variables.take(from), name),
    decreases to - from,
{
    if from < to {
        lemma_later_names_differ(variables, from, to - 1, name);
        assert(variables.take(to).drop_last() =~= variables.take(to - 1));
        assert(variables.take(to).last() == variables[to - 1]);
    }
}

/// What a user sets is what holds, each setting for itself; what they leave
/// out has its default, and the token has none.
pub proof fn law_what_a_user_sets_holds<N>(
    settings: MiniMaxProxySettings<N>,
    user: UserSettings<N>,
    default_temperature: N,
    default_top_p: N,
)
    requires
        settings_follow(settings, user, default_temperature, default_top_p),
    ensures
        user.model matches Some(model) ==> settings.model@ == model@,
        user.max_tokens matches Some(n) ==> settings.max_tokens == n,
        user.api_token matches Some(token) ==> settings.api_token@ == token@,
        user.temperature matches Some(n) ==> settings.temperature == n,
        user.top_p matches Some(n) ==> settings.top_p == n,
        user.model is None ==> settings.model@ == "MiniMax-M3"@,
        user.max_tokens is None ==> settings.max_tokens == 256,
        user.api_token is None ==> settings.api_token@.len() == 0,
        user.temperature is None ==> settings.temperature == default_temperature,
        user.top_p is None ==> settings.top_p == default_top_p,
{
}

/// Nothing is set by a user whose settings cannot be read.
pub proof fn law_unread_settings_set_nothing<N>()
    ensures
        nothing_set::<N>().model is None,
        nothing_set::<N>().max_tokens is None,
        nothing_set::<N>().api_token is None,
        nothing_set::<N>().temperature is None,
        nothing_set::<N>().top_p is None,
{
}

/// A server that is started with what a user set is configured with it,
/// whatever the shell's environment holds: with their model, their limit on
/// the output and their token; and with the documented model and limit where
/// they set none. A user who sets no token has no such server.
pub proof fn law_what_a_user_sets_reaches_the_server<N, M>(
    user: UserSettings<N>,
    default_temperature: N,
    default_top_p: N,
    settings: MiniMaxProxySettings<N>,
    shell: Seq<(Seq<char>, Seq<char>)>,
    temperature: Seq<char>,
    top_p: Seq<char>,
    config: Config<M>,
)
    requires
        settings_follow(settings, user, default_temperature, default_top_p),
        config.follows(launch_variables(shell, settings, temperature, top_p)),
    ensures
        user.model matches Some(model) ==> config.default_model@ == model@,
        user.max_tokens matches Some(n) ==> config.default_max_tokens == n,
        user.api_token matches Some(token) ==> config.minimax_api_key@ == token@,
        user.model is None ==> config.default_model@ == "MiniMax-M3"@,
        user.max_tokens is None ==> config.default_max_tokens == 256,
        user.api_token is Some,
{
    law_what_a_user_sets_holds(settings, user, default_temperature, default_top_p);
    law_settings_reach_the_server(shell, settings, temperature, top_p, config);
    law_no_token_is_no_key(shell, settings, temperature, top_p);
}

/// The server has the shell's environment but for what is set: under the six
/// names stands what is set, and every other variable is the shell's.
pub proof fn law_other_variables_are_the_shells<N>(
    shell: Seq<(Seq<char>, Seq<char>)>,
    settings: MiniMaxProxySettings<N>,
    temperature: Seq<char>,
    top_p: Seq<char>,
    name: Seq<char>,
)
    ensures
        ({
            let all = launch_variables(shell, settings, temperature, top_p);
            &&& value_in(all, "MINIMAX_MODEL"@) == Some(settings.model@)
            &&& value_in(all, "MINIMAX_DEFAULT_MODEL"@) == Some(settings.model@)
            &&& value_in(all, "MINIMAX_MAX_TOKENS"@) == Some(decimal(settings.max_tokens as nat))
            &&& value_in(all, "MINIMAX_TEMPERATURE"@) == Some(temperature)
            &&& value_in(all, "MINIMAX_TOP_P"@) == Some(top_p)
            &&& value_in(all, "MINIMAX_API_KEY"@) == Some(settings.api_token@)
            &&& name != "MINIMAX_MODEL"@ && name != "MINIMAX_DEFAULT_MODEL"@ && name
                != "MINIMAX_MAX_TOKENS"@ && name != "MINIMAX_TEMPERATURE"@ && name
                != "MINIMAX_TOP_P"@ && name != "MINIMAX_API_KEY"@ ==> value_in(all, name)
                == value_in(shell, name)
        }),
{
    lemma_launch_values(shell, settings, temperature, top_p);
    let all = launch_variables(shell, settings, temperature, top_p);
    let n = shell.len() as int;
    if name != "MINIMAX_MODEL"@ && name != "MINIMAX_DEFAULT_MODEL"@ && name
        != "MINIMAX_MAX_TOKENS"@ && name != "MINIMAX_TEMPERATURE"@ && name != "MINIMAX_TOP_P"@
        && name != "MINIMAX_API_KEY"@ {
        lemma_later_names_differ(all, n, n + 6, name);
        assert(all.take(n) =~= shell);
        assert(all.take(n + 6) =~= all);
    }
}

/// The binary lies where a release build of the server leaves it, or in `bin`,
/// both below the root.
pub proof fn law_binary_lies_below_the_root(root: Seq<char>)
    ensures
        built_path(root) == root + "/server/target/release/minimax-proxy-server"@,
        bin_path(root) == root + "/bin/minimax-proxy-server"@,
{
    reveal_strlit("/server/target/release/");
    reveal_strlit("/bin/");
    reveal_strlit("minimax-proxy-server");
    reveal_strlit("/server/target/release/minimax-proxy-server");
    reveal_strlit("/bin/minimax-proxy-server");
    assert("/server/target/release/"@ + "minimax-proxy-server"@
        =~= "/server/target/release/minimax-proxy-server"@);
    assert("/bin/"@ + "minimax-proxy-server"@ =~= "/bin/minimax-proxy-server"@);
    assert(built_path(root) =~= root + "/server/target/release/minimax-proxy-server"@);
    assert(bin_path(root) =~= root + "/bin/minimax-proxy-server"@);
}

} // verus!
