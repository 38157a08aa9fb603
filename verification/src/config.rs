//! The settings of the server.
use crate::number::{
    decimal, law_parse_inverts_decimal, law_what_is_no_number_is_not_read, parse_unsigned, unsigned,
};
use crate::text::same_text;
use vstd::prelude::*;

verus! {

/// The port that the server listens on unless it is told another.
pub const DEFAULT_PORT: u16 = 8787;

/// The model that is asked unless another is named.
pub const DEFAULT_MODEL: &'static str = "MiniMax-M3";

/// What the server says when it has no key.
pub const MISSING_KEY: &'static str =
    "Missing MINIMAX_API_KEY\nRun: export MINIMAX_API_KEY='your_key'";

/// The variables of a process, in the order in which they were set.
#[derive(Debug)]
pub struct Environment {
    pub entries: Vec<(String, String)>,
}

/// The texts of some variables.
pub open spec fn variables_of(entries: Seq<(String, String)>) -> Seq<(Seq<char>, Seq<char>)> {
    entries.map_values(|entry: (String, String)| (entry.0@, entry.1@))
}

impl View for Environment {
    type V = Seq<(Seq<char>, Seq<char>)>;

    open spec fn view(&self) -> Seq<(Seq<char>, Seq<char>)> {
        variables_of(self.entries@)
    }
}

/// The value that a variable was last given.
pub open spec fn value_in(
    variables: Seq<(Seq<char>, Seq<char>)>,
    name: Seq<char>,
) -> Option<Seq<char>>
    decreases variables.len(),
{
    if variables.len() == 0 {
        None
    } else if variables.last().0 == name {
        Some(variables.last().1)
    } else {
        value_in(variables.drop_last(), name)
    }
}

impl Environment {
    /// The value of a variable.
    pub fn var(&self, name: &str) -> (value: Option<&str>)
        ensures
            crate::text::opt_view(value) == value_in(self@, name@),
    {
        let mut n: usize = self.entries.len();
        assert(self@.take(n as int) =~= self@);
        while n > 0
            invariant
                n <= self.entries@.len(),
                value_in(self@, name@) == value_in(self@.take(n as int), name@),
            decreases n,
        {
            assert(self@.take(n as int).last() == self@[n - 1]);
            assert(self@.take(n as int).drop_last() =~= self@.take(n - 1));
            let entry = &self.entries[n - 1];
            if same_text(entry.0.as_str(), name) {
                return Some(entry.1.as_str());
            }
            n -= 1;
        }
        None
    }
}

/// The number that a variable holds, or else `default`: a variable that is not
/// set, that holds no unsigned number, or one above `max`, counts for nothing.
pub open spec fn number_in(
    variables: Seq<(Seq<char>, Seq<char>)>,
    name: Seq<char>,
    max: int,
    default: int,
) -> int {
    match value_in(variables, name) {
        Some(value) => match unsigned(value, max) {
            Some(n) => n,
            None => default,
        },
        None => default,
    }
}

/// Reads a variable as a `u16`.
pub fn read_env_u16(env: &Environment, name: &str, default: u16) -> (number: u16)
    ensures
        number == number_in(env@, name@, u16::MAX as int, default as int),
{
    match env.var(name) {
        Some(value) => match parse_unsigned(value, u16::MAX as u64) {
            Some(n) => n as u16,
            None => default,
        },
        None => default,
    }
}

/// Reads a variable as a `u32`.
pub fn read_env_u32(env: &Environment, name: &str, default: u32) -> (number: u32)
    ensures
        number == number_in(env@, name@, u32::MAX as int, default as int),
{
    match env.var(name) {
        Some(value) => match parse_unsigned(value, u32::MAX as u64) {
            Some(n) => n as u32,
            None => default,
        },
        None => default,
    }
}

/// Reads a variable as a `u64`.
pub fn read_env_u64(env: &Environment, name: &str, default: u64) -> (number: u64)
    ensures
        number == number_in(env@, name@, u64::MAX as int, default as int),
{
    match env.var(name) {
        Some(value) => match parse_unsigned(value, u64::MAX) {
            Some(n) => n,
            None => default,
        },
        None => default,
    }
}

/// Reads a variable as a `usize`.
pub fn read_env_usize(env: &Environment, name: &str, default: usize) -> (number: usize)
    ensures
        number == number_in(env@, name@, usize::MAX as int, default as int),
{
    match env.var(name) {
        Some(value) => match parse_unsigned(value, usize::MAX as u64) {
            Some(n) => n as usize,
            None => default,
        },
        None => default,
    }
}

/// What the server was told at its start. `N` is the type of the sampling numbers.
#[derive(Debug, Clone)]
pub struct Config<N> {
    pub port: u16,
    pub minimax_api_key: String,
    pub default_model: String,
    pub default_max_tokens: u64,
    pub default_temperature: N,
    pub default_top_p: N,
    pub default_top_k: u32,
    pub request_timeout_ms: u64,
    pub timeout_base_ms: u64,
    pub timeout_per_k_tokens_ms: u64,
    pub max_input_chars: usize,
    pub large_log_threshold: usize,
    pub large_log_head: usize,
    pub large_log_tail: usize,
}

/// The key in an environment: a variable that holds nothing holds no key.
pub open spec fn key_in(variables: Seq<(Seq<char>, Seq<char>)>) -> Option<Seq<char>> {
    match value_in(variables, "MINIMAX_API_KEY"@) {
        Some(key) => if key.len() > 0 {
            Some(key)
        } else {
            None
        },
        None => None,
    }
}

/// The model in an environment.
pub open spec fn model_in(variables: Seq<(Seq<char>, Seq<char>)>) -> Seq<char> {
    match value_in(variables, "MINIMAX_DEFAULT_MODEL"@) {
        Some(model) => model,
        None => DEFAULT_MODEL@,
    }
}

impl<N> Config<N> {
    /// The configuration says what the environment says, apart from the port
    /// and the sampling numbers.
    pub open spec fn follows(self, variables: Seq<(Seq<char>, Seq<char>)>) -> bool {
        let u64_in = |name: Seq<char>, default: int|
            number_in(variables, name, u64::MAX as int, default);
        let usize_in = |name: Seq<char>, default: int|
            number_in(variables, name, usize::MAX as int, default);
        &&& key_in(variables) == Some(self.minimax_api_key@)
        &&& self.default_model@ == model_in(variables)
        &&& self.default_max_tokens == u64_in("MINIMAX_MAX_TOKENS"@, 256)
        &&& self.default_top_k == number_in(variables, "MINIMAX_TOP_K"@, u32::MAX as int, 40)
        &&& self.request_timeout_ms == u64_in("MINIMAX_TIMEOUT_MS"@, 60_000)
        &&& self.timeout_base_ms == u64_in("MINIMAX_TIMEOUT_BASE_MS"@, 10_000)
        &&& self.timeout_per_k_tokens_ms == u64_in("MINIMAX_TIMEOUT_PER_K_TOKENS_MS"@, 2_000)
        &&& self.max_input_chars == usize_in("MINIMAX_MAX_INPUT_CHARS"@, 1_000_000)
        &&& self.large_log_threshold == usize_in("MINIMAX_LARGE_LOG_THRESHOLD"@, 2_000)
        &&& self.large_log_head == usize_in("MINIMAX_LARGE_LOG_HEAD"@, 300)
        &&& self.large_log_tail == usize_in("MINIMAX_LARGE_LOG_TAIL"@, 300)
    }

    /// Reads the configuration from the environment. The port and the
    /// sampling numbers are read beforehand. Without a key there is none.
    pub fn from_env(
        port: u16,
        env: &Environment,
        default_temperature: N,
        default_top_p: N,
    ) -> (config: Result<Config<N>, String>)
        ensures
            match config {
                Ok(config) => {
                    &&& config.follows(env@)
                    &&& config.port == port
                    &&& config.default_temperature == default_temperature
                    &&& config.default_top_p == default_top_p
                },
                Err(message) => key_in(env@) is None && message@ == MISSING_KEY@,
            },
    {
        let minimax_api_key = match env.var("MINIMAX_API_KEY") {
            Some(key) => {
                if key.is_empty() {
                    return Err(MISSING_KEY.to_owned());
                }
                key.to_owned()
            },
            None => return Err(MISSING_KEY.to_owned()),
        };
        let default_model = match env.var("MINIMAX_DEFAULT_MODEL") {
            Some(model) => model.to_owned(),
            None => DEFAULT_MODEL.to_owned(),
        };
        Ok(
            Config {
                port,
                minimax_api_key,
                default_model,
                default_max_tokens: read_env_u64(env, "MINIMAX_MAX_TOKENS", 256),
                default_temperature,
                default_top_p,
                default_top_k: read_env_u32(env, "MINIMAX_TOP_K", 40),
                request_timeout_ms: read_env_u64(env, "MINIMAX_TIMEOUT_MS", 60_000),
                timeout_base_ms: read_env_u64(env, "MINIMAX_TIMEOUT_BASE_MS", 10_000),
                timeout_per_k_tokens_ms: read_env_u64(
                    env,
                    "MINIMAX_TIMEOUT_PER_K_TOKENS_MS",
                    2_000,
                ),
                max_input_chars: read_env_usize(env, "MINIMAX_MAX_INPUT_CHARS", 1_000_000),
                large_log_threshold: read_env_usize(env, "MINIMAX_LARGE_LOG_THRESHOLD", 2_000),
                large_log_head: read_env_usize(env, "MINIMAX_LARGE_LOG_HEAD", 300),
                large_log_tail: read_env_usize(env, "MINIMAX_LARGE_LOG_TAIL", 300),
            },
        )
    }

    /// The limits on the text before the cursor and on the text after it:
    /// together they are the limit on the input.
    pub fn input_limits(&self) -> (limits: (usize, usize))
        ensures
            limits.0 == self.max_input_chars / 2,
            limits.0 + limits.1 == self.max_input_chars,
    {
        let max_prefix_chars: usize = self.max_input_chars / 2;
        (max_prefix_chars, self.max_input_chars - max_prefix_chars)
    }
}

/// The thousands of tokens that a payload is taken to hold, at four characters
/// a token, a thousand that is begun counting in full.
pub open spec fn k_tokens(payload_chars: int) -> int {
    (payload_chars + 3999) / 4000
}

/// The time that a payload is given, before the cap.
pub open spec fn uncapped_timeout<N>(payload_chars: int, config: &Config<N>) -> int {
    config.timeout_base_ms + k_tokens(payload_chars) * config.timeout_per_k_tokens_ms
}

/// The time that a payload is given.
pub open spec fn timeout<N>(payload_chars: int, config: &Config<N>) -> int {
    if uncapped_timeout(payload_chars, config) < config.request_timeout_ms {
        uncapped_timeout(payload_chars, config)
    } else {
        config.request_timeout_ms as int
    }
}

fn count_k_tokens(payload_chars: usize) -> (k: u64)
    ensures
        k == k_tokens(payload_chars as int),
{
    let chars: u64 = payload_chars as u64;
    if chars % 4000 == 0 {
        chars / 4000
    } else {
        chars / 4000 + 1
    }
}

/// The time that a payload is given: a base and so much for each thousand
/// tokens, up to a cap, whatever the base and the rate are.
pub fn compute_timeout_ms<N>(payload_chars: usize, config: &Config<N>) -> (timeout_ms: u64)
    ensures
        timeout_ms == timeout(payload_chars as int, config),
{
    let extra: u128 = count_k_tokens(payload_chars) as u128;
    let per: u128 = config.timeout_per_k_tokens_ms as u128;
    assert(0 <= extra * per <= u64::MAX * u64::MAX) by (nonlinear_arith)
        requires
            0 <= extra <= u64::MAX,
            0 <= per <= u64::MAX,
    ;
    let adaptive: u128 = config.timeout_base_ms as u128 + extra * per;
    if adaptive < config.request_timeout_ms as u128 {
        adaptive as u64
    } else {
        config.request_timeout_ms
    }
}

/// No payload is given more time than the cap, a larger payload is given no
/// less time than a smaller one, and below the cap each gets at least the base.
pub proof fn law_timeout_is_clamped_and_grows<N>(small: int, large: int, config: &Config<N>)
    requires
        0 <= small <= large,
    ensures
        timeout(small, config) <= timeout(large, config) <= config.request_timeout_ms,
        timeout(small, config) >= config.timeout_base_ms || timeout(small, config)
            == config.request_timeout_ms,
{
    let per = config.timeout_per_k_tokens_ms as int;
    assert(k_tokens(small) <= k_tokens(large));
    assert(0 <= k_tokens(small) * per <= k_tokens(large) * per) by (nonlinear_arith)
        requires
            0 <= k_tokens(small) <= k_tokens(large),
            per >= 0,
    ;
}

/// A variable has the value that it was last given, whatever other variables
/// are given; one that was given none has none.
pub proof fn law_last_value_counts(
    variables: Seq<(Seq<char>, Seq<char>)>,
    name: Seq<char>,
    other: Seq<char>,
    value: Seq<char>,
)
    ensures
        value_in(Seq::empty(), name) is None,
        value_in(variables.push((name, value)), name) == Some(value),
        other != name ==> value_in(variables.push((other, value)), name) == value_in(
            variables,
            name,
        ),
{
    assert(variables.push((other, value)).drop_last() =~= variables);
}

/// A variable that holds a number within its limit counts, and nothing else
/// does: for one that is not set, holds no number or too large a one, the
/// default holds.
pub proof fn law_number_counts_or_the_default(
    variables: Seq<(Seq<char>, Seq<char>)>,
    name: Seq<char>,
    max: int,
    default: int,
    n: nat,
)
    ensures
        value_in(variables, name) == Some(decimal(n)) && n <= max ==> number_in(
            variables,
            name,
            max,
            default,
        ) == n,
        value_in(variables, name) == Some(decimal(n)) && n > max ==> number_in(
            variables,
            name,
            max,
            default,
        ) == default,
        value_in(variables, name) is None ==> number_in(variables, name, max, default) == default,
        value_in(variables, name) matches Some(value) ==> unsigned(value, max) is None
            ==> number_in(variables, name, max, default) == default,
{
    law_what_is_no_number_is_not_read(decimal(n), max, n);
    if n <= max {
        law_parse_inverts_decimal(n, max);
    }
}

/// A server is configured by its variables, each under its own name: the key
/// and the model are what they say, and a number that one of them holds is the
/// one that counts.
pub proof fn law_variables_configure_the_server<N>(
    variables: Seq<(Seq<char>, Seq<char>)>,
    config: Config<N>,
    n: nat,
)
    requires
        config.follows(variables),
    ensures
        value_in(variables, "MINIMAX_API_KEY"@) == Some(config.minimax_api_key@),
        config.minimax_api_key@.len() > 0,
        value_in(variables, "MINIMAX_DEFAULT_MODEL"@) matches Some(model)
            ==> config.default_model@ == model,
        n <= u64::MAX ==> {
            &&& value_in(variables, "MINIMAX_MAX_TOKENS"@) == Some(decimal(n))
                ==> config.default_max_tokens == n
            &&& value_in(variables, "MINIMAX_TIMEOUT_MS"@) == Some(decimal(n))
                ==> config.request_timeout_ms == n
            &&& value_in(variables, "MINIMAX_TIMEOUT_BASE_MS"@) == Some(decimal(n))
                ==> config.timeout_base_ms == n
            &&& value_in(variables, "MINIMAX_TIMEOUT_PER_K_TOKENS_MS"@) == Some(decimal(n))
                ==> config.timeout_per_k_tokens_ms == n
        },
        n <= u32::MAX && value_in(variables, "MINIMAX_TOP_K"@) == Some(decimal(n))
            ==> config.default_top_k == n,
        n <= usize::MAX ==> {
            &&& value_in(variables, "MINIMAX_MAX_INPUT_CHARS"@) == Some(decimal(n))
                ==> config.max_input_chars == n
            &&& value_in(variables, "MINIMAX_LARGE_LOG_THRESHOLD"@) == Some(decimal(n))
                ==> config.large_log_threshold == n
            &&& value_in(variables, "MINIMAX_LARGE_LOG_HEAD"@) == Some(decimal(n))
                ==> config.large_log_head == n
            &&& value_in(variables, "MINIMAX_LARGE_LOG_TAIL"@) == Some(decimal(n))
                ==> config.large_log_tail == n
        },
{
    if n <= u64::MAX {
        law_parse_inverts_decimal(n, u64::MAX as int);
    }
    if n <= u32::MAX {
        law_parse_inverts_decimal(n, u32::MAX as int);
    }
    if n <= usize::MAX {
        law_parse_inverts_decimal(n, usize::MAX as int);
    }
}

/// Without its variables a server has the documented values; it always needs a key.
pub proof fn law_defaults_hold_where_nothing_is_set<N>(
    variables: Seq<(Seq<char>, Seq<char>)>,
    config: Config<N>,
)
    requires
        config.follows(variables),
    ensures
        value_in(variables, "MINIMAX_DEFAULT_MODEL"@) is None ==> config.default_model@
            == "MiniMax-M3"@,
        value_in(variables, "MINIMAX_MAX_TOKENS"@) is None ==> config.default_max_tokens == 256,
        value_in(variables, "MINIMAX_TOP_K"@) is None ==> config.default_top_k == 40,
        value_in(variables, "MINIMAX_TIMEOUT_MS"@) is None ==> config.request_timeout_ms == 60_000,
        value_in(variables, "MINIMAX_TIMEOUT_BASE_MS"@) is None ==> config.timeout_base_ms
            == 10_000,
        value_in(variables, "MINIMAX_TIMEOUT_PER_K_TOKENS_MS"@) is None
            ==> config.timeout_per_k_tokens_ms == 2_000,
        value_in(variables, "MINIMAX_MAX_INPUT_CHARS"@) is None ==> config.max_input_chars
            == 1_000_000,
        value_in(variables, "MINIMAX_LARGE_LOG_THRESHOLD"@) is None ==> config.large_log_threshold
            == 2_000,
        value_in(variables, "MINIMAX_LARGE_LOG_HEAD"@) is None ==> config.large_log_head == 300,
        value_in(variables, "MINIMAX_LARGE_LOG_TAIL"@) is None ==> config.large_log_tail == 300,
{
}

/// There is a key exactly where its variable is set and not empty, and it is
/// what the variable holds.
pub proof fn law_key_is_what_its_variable_holds(variables: Seq<(Seq<char>, Seq<char>)>)
    ensures
        key_in(variables) is Some <==> (value_in(variables, "MINIMAX_API_KEY"@) matches Some(key)
            && key.len() > 0),
        key_in(variables) is Some ==> key_in(variables) == value_in(
            variables,
            "MINIMAX_API_KEY"@,
        ),
{
}

/// A payload of up to four thousand characters for each of `n` thousands of
/// tokens, and of more than for one less, is given the base and `n` times the
/// rate, or the cap where that is more than the cap.
pub proof fn law_time_is_given_by_begun_thousands<N>(
    payload_chars: int,
    n: int,
    config: &Config<N>,
)
    requires
        0 <= payload_chars,
        4000 * (n - 1) < payload_chars <= 4000 * n,
    ensures
        ({
            let asked = config.timeout_base_ms + n * config.timeout_per_k_tokens_ms;
            &&& asked <= config.request_timeout_ms ==> timeout(payload_chars, config) == asked
            &&& asked >= config.request_timeout_ms ==> timeout(payload_chars, config)
                == config.request_timeout_ms
        }),
{
    assert(k_tokens(payload_chars) == n);
}

/// A variable is not set, or holds no number of at most `max`.
pub open spec fn unreadable(
    variables: Seq<(Seq<char>, Seq<char>)>,
    name: Seq<char>,
    max: int,
) -> bool {
    value_in(variables, name) matches Some(value) ==> unsigned(value, max) is None
}

/// A variable that cannot be read as its number counts as one that is not set,
/// and any text that can be read counts as the number that it denotes.
pub proof fn law_what_cannot_be_read_is_not_set<N>(
    variables: Seq<(Seq<char>, Seq<char>)>,
    config: Config<N>,
    text: Seq<char>,
    n: int,
)
    requires
        config.follows(variables),
    ensures
        unreadable(variables, "MINIMAX_MAX_TOKENS"@, u64::MAX as int)
            ==> config.default_max_tokens == 256,
        unreadable(variables, "MINIMAX_TOP_K"@, u32::MAX as int) ==> config.default_top_k == 40,
        unreadable(variables, "MINIMAX_TIMEOUT_MS"@, u64::MAX as int)
            ==> config.request_timeout_ms == 60_000,
        unreadable(variables, "MINIMAX_TIMEOUT_BASE_MS"@, u64::MAX as int)
            ==> config.timeout_base_ms == 10_000,
        unreadable(variables, "MINIMAX_TIMEOUT_PER_K_TOKENS_MS"@, u64::MAX as int)
            ==> config.timeout_per_k_tokens_ms == 2_000,
        unreadable(variables, "MINIMAX_MAX_INPUT_CHARS"@, usize::MAX as int)
            ==> config.max_input_chars == 1_000_000,
        unreadable(variables, "MINIMAX_LARGE_LOG_THRESHOLD"@, usize::MAX as int)
            ==> config.large_log_threshold == 2_000,
        unreadable(variables, "MINIMAX_LARGE_LOG_HEAD"@, usize::MAX as int)
            ==> config.large_log_head == 300,
        unreadable(variables, "MINIMAX_LARGE_LOG_TAIL"@, usize::MAX as int)
            ==> config.large_log_tail == 300,
        unsigned(text, u64::MAX as int) == Some(n) ==> {
            &&& value_in(variables, "MINIMAX_MAX_TOKENS"@) == Some(text)
                ==> config.default_max_tokens == n
            &&& value_in(variables, "MINIMAX_TIMEOUT_MS"@) == Some(text)
                ==> config.request_timeout_ms == n
            &&& value_in(variables, "MINIMAX_TIMEOUT_BASE_MS"@) == Some(text)
                ==> config.timeout_base_ms == n
            &&& value_in(variables, "MINIMAX_TIMEOUT_PER_K_TOKENS_MS"@) == Some(text)
                ==> config.timeout_per_k_tokens_ms == n
        },
        unsigned(text, u32::MAX as int) == Some(n) && value_in(variables, "MINIMAX_TOP_K"@)
            == Some(text) ==> config.default_top_k == n,
        unsigned(text, usize::MAX as int) == Some(n) ==> {
            &&& value_in(variables, "MINIMAX_MAX_INPUT_CHARS"@) == Some(text)
                ==> config.max_input_chars == n
            &&& value_in(variables, "MINIMAX_LARGE_LOG_THRESHOLD"@) == Some(text)
                ==> config.large_log_threshold == n
            &&& value_in(variables, "MINIMAX_LARGE_LOG_HEAD"@) == Some(text)
                ==> config.large_log_head == n
            &&& value_in(variables, "MINIMAX_LARGE_LOG_TAIL"@) == Some(text)
                ==> config.large_log_tail == n
        },
{
}

/// The variables of an environment are its entries, each with its own name and
/// its own value, in their order.
pub proof fn law_variables_are_the_entries(env: Environment, k: int)
    requires
        0 <= k < env.entries@.len(),
    ensures
        env@.len() == env.entries@.len(),
        env@[k].0 == env.entries@[k].0@,
        env@[k].1 == env.entries@[k].1@,
{
}

} // verus!
