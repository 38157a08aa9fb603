use minimax_proxy::completion::{
    answer_completion, build_completion, build_upstream_payload, json_response, not_found,
    read_upstream_reply, reply_or_failure, resolve_request, timestamp_of, unix_timestamp_seconds,
    CompletionRequest, ReplyBody, ResolvedRequest, Role, UpstreamReply, Usage,
};
use minimax_proxy::config::{
    compute_timeout_ms, read_env_u16, read_env_u32, read_env_u64, read_env_usize, Config,
    Environment,
};
use minimax_proxy::number::{parse_unsigned, to_decimal};
use minimax_proxy::preview::{
    char_boundary_at, char_boundary_from_end, large_preview_fits, preview, preview_large,
};
use minimax_proxy::upstream::{
    after_attempt, content_type_or_json, is_success, AttemptOutcome, RetryStep, UpstreamResponse,
};

fn environment(entries: &[(&str, &str)]) -> Environment {
    Environment {
        entries: entries
            .iter()
            .map(|(name, value)| (name.to_string(), value.to_string()))
            .collect(),
    }
}

fn config(entries: &[(&str, &str)]) -> Config<f64> {
    let mut all = vec![("MINIMAX_API_KEY", "key")];
    all.extend_from_slice(entries);
    Config::from_env(8787, &environment(&all), 1.0, 0.95).unwrap()
}

fn upstream(status: u16, text: &str) -> UpstreamResponse {
    UpstreamResponse {
        status,
        content_type: b"text/plain".to_vec(),
        text: text.to_string(),
    }
}

fn request(prompt: &str) -> ResolvedRequest<f64> {
    ResolvedRequest {
        model: "m".to_string(),
        prompt: prompt.to_string(),
        max_tokens: 5,
        temperature: 0.5,
        top_p: 0.25,
        top_k: 7,
        stop: None,
    }
}

#[test]
fn configuration_has_the_documented_defaults() {
    let config = config(&[]);

    assert_eq!(config.port, 8787);
    assert_eq!(config.minimax_api_key, "key");
    assert_eq!(config.default_model, "MiniMax-M3");
    assert_eq!(config.default_max_tokens, 256);
    assert_eq!(config.default_temperature, 1.0);
    assert_eq!(config.default_top_p, 0.95);
    assert_eq!(config.default_top_k, 40);
    assert_eq!(config.request_timeout_ms, 60_000);
    assert_eq!(config.timeout_base_ms, 10_000);
    assert_eq!(config.timeout_per_k_tokens_ms, 2_000);
    assert_eq!(config.max_input_chars, 1_000_000);
    assert_eq!(config.large_log_threshold, 2_000);
    assert_eq!(config.large_log_head, 300);
    assert_eq!(config.large_log_tail, 300);
    assert_eq!(config.input_limits(), (500_000, 500_000));
}

#[test]
fn configuration_follows_the_environment() {
    let config = config(&[
        ("MINIMAX_DEFAULT_MODEL", "other"),
        ("MINIMAX_MAX_TOKENS", "+17"),
        ("MINIMAX_TOP_K", "4294967296"),
        ("MINIMAX_TIMEOUT_MS", "x"),
        ("MINIMAX_TIMEOUT_BASE_MS", "1"),
        ("MINIMAX_TIMEOUT_PER_K_TOKENS_MS", "2"),
        ("MINIMAX_MAX_INPUT_CHARS", "3"),
        ("MINIMAX_LARGE_LOG_THRESHOLD", "4"),
        ("MINIMAX_LARGE_LOG_HEAD", "5"),
        ("MINIMAX_LARGE_LOG_TAIL", "6"),
    ]);

    assert_eq!(config.default_model, "other");
    assert_eq!(config.default_max_tokens, 17);
    assert_eq!(config.default_top_k, 40);
    assert_eq!(config.request_timeout_ms, 60_000);
    assert_eq!(config.timeout_base_ms, 1);
    assert_eq!(config.timeout_per_k_tokens_ms, 2);
    assert_eq!(config.input_limits(), (1, 2));
    assert_eq!(config.large_log_threshold, 4);
    assert_eq!(config.large_log_head, 5);
    assert_eq!(config.large_log_tail, 6);
}

#[test]
fn no_key_is_an_error() {
    let message = "Missing MINIMAX_API_KEY\nRun: export MINIMAX_API_KEY='your_key'";

    assert_eq!(
        Config::from_env(1, &environment(&[]), 1.0, 1.0).unwrap_err(),
        message
    );
    assert_eq!(
        Config::from_env(1, &environment(&[("MINIMAX_API_KEY", "")]), 1.0, 1.0).unwrap_err(),
        message
    );
}

#[test]
fn variables_are_read_as_numbers() {
    let env = environment(&[
        ("A", "65535"),
        ("B", "65536"),
        ("C", " 1"),
        ("D", ""),
        ("E", "007"),
        ("F", "-1"),
        ("G", "18446744073709551615"),
        ("H", "18446744073709551616"),
        ("I", "+"),
        ("J", "1"),
        ("J", "2"),
    ]);

    assert_eq!(env.var("J"), Some("2"));
    assert_eq!(env.var("K"), None);
    assert_eq!(read_env_u16(&env, "A", 1), 65535);
    assert_eq!(read_env_u16(&env, "B", 1), 1);
    assert_eq!(read_env_u16(&env, "Z", 1), 1);
    assert_eq!(read_env_u32(&env, "B", 1), 65536);
    assert_eq!(read_env_u32(&env, "C", 3), 3);
    assert_eq!(read_env_u64(&env, "D", 3), 3);
    assert_eq!(read_env_u64(&env, "E", 3), 7);
    assert_eq!(read_env_u64(&env, "F", 3), 3);
    assert_eq!(read_env_u64(&env, "G", 3), u64::MAX);
    assert_eq!(read_env_u64(&env, "H", 3), 3);
    assert_eq!(read_env_usize(&env, "I", 3), 3);
    assert_eq!(read_env_usize(&env, "J", 3), 2);
}

#[test]
fn reading_gives_back_what_was_written() {
    for n in [0, 7, 10, 99, 100, 65_535, u64::MAX - 1, u64::MAX] {
        assert_eq!(to_decimal(n), n.to_string());
        assert_eq!(parse_unsigned(&to_decimal(n), u64::MAX), Some(n));
    }
    assert_eq!(parse_unsigned("10", 9), None);
    assert_eq!(parse_unsigned("1\u{661}", 99), None);
}

#[test]
fn timeout_grows_with_the_payload_up_to_the_cap() {
    let config = config(&[]);

    assert_eq!(compute_timeout_ms(0, &config), 10_000);
    assert_eq!(compute_timeout_ms(1, &config), 12_000);
    assert_eq!(compute_timeout_ms(4_000, &config), 12_000);
    assert_eq!(compute_timeout_ms(4_001, &config), 14_000);
    assert_eq!(compute_timeout_ms(100_000, &config), 60_000);
    assert_eq!(compute_timeout_ms(1_000_000, &config), 60_000);
    assert_eq!(compute_timeout_ms(usize::MAX, &config), 60_000);
}

#[test]
fn timeout_counts_as_floating_point_does() {
    let config = config(&[
        ("MINIMAX_TIMEOUT_MS", "18446744073709551615"),
        ("MINIMAX_TIMEOUT_BASE_MS", "0"),
        ("MINIMAX_TIMEOUT_PER_K_TOKENS_MS", "1"),
    ]);

    for chars in [0usize, 1, 3_999, 4_000, 4_001, 7_999_999, 8_000_000, 123_456_789_012] {
        let k_tokens = (chars as f64 / 4.0 / 1000.0).ceil() as u64;
        assert_eq!(compute_timeout_ms(chars, &config), k_tokens);
    }
}

#[test]
fn a_timeout_is_clamped_however_large_it_would_be() {
    let steep = config(&[("MINIMAX_TIMEOUT_PER_K_TOKENS_MS", "18446744073709551615")]);

    assert_eq!(compute_timeout_ms(0, &steep), 10_000);
    assert_eq!(compute_timeout_ms(1, &steep), 60_000);
    assert_eq!(compute_timeout_ms(usize::MAX, &steep), 60_000);

    let open = config(&[
        ("MINIMAX_TIMEOUT_MS", "18446744073709551615"),
        ("MINIMAX_TIMEOUT_BASE_MS", "18446744073709551614"),
        ("MINIMAX_TIMEOUT_PER_K_TOKENS_MS", "1"),
    ]);

    assert_eq!(compute_timeout_ms(0, &open), u64::MAX - 1);
    assert_eq!(compute_timeout_ms(1, &open), u64::MAX);
    assert_eq!(compute_timeout_ms(8_001, &open), u64::MAX);
}

#[test]
fn preview_is_cut_between_characters() {
    assert_eq!(preview("abc", 3), "abc");
    assert_eq!(preview("abcd", 3), "abc\n...[truncated 1 chars]");
    assert_eq!(preview("a\u{20ac}b", 3), "a\n...[truncated 4 chars]");
    assert_eq!(preview("\u{20ac}", 0), "\n...[truncated 3 chars]");
    assert_eq!(preview("", 0), "");
}

#[test]
fn boundaries_move_on_to_the_next_character() {
    let text = "a\u{20ac}b";

    assert_eq!(char_boundary_at(text, 0), 0);
    assert_eq!(char_boundary_at(text, 1), 1);
    assert_eq!(char_boundary_at(text, 2), 4);
    assert_eq!(char_boundary_at(text, 9), 5);
    assert_eq!(char_boundary_from_end(text, 0), 5);
    assert_eq!(char_boundary_from_end(text, 1), 4);
    assert_eq!(char_boundary_from_end(text, 2), 4);
    assert_eq!(char_boundary_from_end(text, 9), 0);
}

#[test]
fn large_preview_shows_the_front_and_the_end() {
    let config = config(&[
        ("MINIMAX_LARGE_LOG_THRESHOLD", "4"),
        ("MINIMAX_LARGE_LOG_HEAD", "2"),
        ("MINIMAX_LARGE_LOG_TAIL", "2"),
    ]);

    assert_eq!(preview_large("abcd", &config), "abcd");
    assert_eq!(
        preview_large("abcdefg", &config),
        "ab\n...[truncated 3 chars of 7 total]...\nfg"
    );
    assert_eq!(
        preview_large("a\u{20ac}bcdef", &config),
        "a\u{20ac}\n...[truncated 3 chars of 9 total]...\nef"
    );
}

#[test]
fn overlapping_previews_are_told() {
    let config = config(&[
        ("MINIMAX_LARGE_LOG_THRESHOLD", "4"),
        ("MINIMAX_LARGE_LOG_HEAD", "3"),
        ("MINIMAX_LARGE_LOG_TAIL", "3"),
    ]);

    assert!(large_preview_fits("abcd", &config));
    assert!(!large_preview_fits("abcde", &config));
    assert!(large_preview_fits("abcdef", &config));
}

#[test]
fn a_failed_try_is_repeated_once() {
    let first = after_attempt(0, AttemptOutcome::SendFailed("down".to_string()));
    assert!(matches!(first, RetryStep::Retry { attempt: 1, delay_ms: 150 }));

    let second = after_attempt(1, AttemptOutcome::SendFailed("down".to_string()));
    assert!(matches!(second, RetryStep::Failed(message) if message == "network: down"));

    let second = after_attempt(1, AttemptOutcome::BodyFailed("cut".to_string()));
    assert!(matches!(second, RetryStep::Failed(message) if message == "read body: cut"));
}

#[test]
fn an_answer_ends_the_tries() {
    for attempt in [0, 1] {
        match after_attempt(attempt, AttemptOutcome::Answered(upstream(503, "busy"))) {
            RetryStep::Done(response) => {
                assert_eq!(response.status, 503);
                assert_eq!(response.text, "busy");
            }
            _ => panic!("expected an answer"),
        }
    }
}

#[test]
fn an_answer_without_a_type_is_json() {
    assert_eq!(content_type_or_json(None), b"application/json".to_vec());
    assert_eq!(content_type_or_json(Some(vec![0xff])), vec![0xff]);
}

#[test]
fn success_is_two_hundred() {
    assert!(!is_success(199));
    assert!(is_success(200));
    assert!(is_success(299));
    assert!(!is_success(300));
}

#[test]
fn a_request_is_filled_in_from_the_configuration() {
    let config = config(&[]);
    let empty = CompletionRequest {
        model: None,
        prompt: None,
        max_tokens: None,
        max_output_tokens: None,
        temperature: None,
        top_p: None,
        top_k: None,
        stop: None,
    };

    let resolved = resolve_request(empty, &config);

    assert_eq!(resolved.model, "MiniMax-M3");
    assert_eq!(resolved.prompt, "");
    assert_eq!(resolved.max_tokens, 256);
    assert_eq!(resolved.temperature, 1.0);
    assert_eq!(resolved.top_p, 0.95);
    assert_eq!(resolved.top_k, 40);
    assert!(resolved.stop.is_none());
}

#[test]
fn what_a_request_says_counts() {
    let config = config(&[]);
    let full = CompletionRequest {
        model: Some("m".to_string()),
        prompt: Some("p".to_string()),
        max_tokens: None,
        max_output_tokens: Some(9),
        temperature: Some(0.5),
        top_p: Some(0.25),
        top_k: Some(3),
        stop: Some(minimax_proxy::clean::StopSequences::One("s".to_string())),
    };

    let resolved = resolve_request(full, &config);

    assert_eq!(resolved.model, "m");
    assert_eq!(resolved.prompt, "p");
    assert_eq!(resolved.max_tokens, 9);
    assert_eq!(resolved.temperature, 0.5);
    assert_eq!(resolved.top_p, 0.25);
    assert_eq!(resolved.top_k, 3);
    assert!(resolved.stop.is_some());
}

#[test]
fn the_model_is_sent_two_messages() {
    let config = config(&[("MINIMAX_MAX_INPUT_CHARS", "3")]);
    let payload = build_upstream_payload(&request("<|fim_prefix|>abc<|fim_suffix|>def<|fim_middle|>"), &config);

    assert_eq!(payload.model, "m");
    assert!(!payload.stream);
    assert!(!payload.thinking);
    assert_eq!(payload.max_tokens, 5);
    assert_eq!(payload.temperature, 0.5);
    assert_eq!(payload.top_p, 0.25);
    assert_eq!(payload.top_k, 7);
    assert_eq!(payload.messages.len(), 2);
    assert_eq!(payload.messages[0].role, Role::System);
    assert!(payload.messages[0].content.starts_with("You are a code completion engine."));
    assert_eq!(payload.messages[1].role, Role::User);
    assert_eq!(
        payload.messages[1].content,
        "# language: unknown\n<contextBeforeCursor>\nc<cursorPosition>\n<contextAfterCursor>\nde"
    );
}

#[test]
fn reads_the_answer_of_the_model() {
    let text = "{\"choices\":[{\"message\":{\"content\":\"a\\n\\u00e9\"}}],\"usage\":{\"prompt_tokens\":3,\"completion_tokens\":-4,\"total_tokens\":5.0}}";
    let reply = read_upstream_reply(text).unwrap();

    assert_eq!(reply.content, "a\n\u{e9}");
    assert_eq!(
        reply.usage,
        Usage { prompt_tokens: 3, completion_tokens: 0, total_tokens: 0 }
    );
}

#[test]
fn reads_the_largest_number_of_tokens() {
    let text = "{\"usage\":{\"prompt_tokens\":18446744073709551615,\"completion_tokens\":18446744073709551616,\"total_tokens\":\"7\"}}";
    let reply = read_upstream_reply(text).unwrap();

    assert_eq!(reply.content, "");
    assert_eq!(
        reply.usage,
        Usage { prompt_tokens: u64::MAX, completion_tokens: 0, total_tokens: 0 }
    );
}

#[test]
fn what_is_missing_in_an_answer_is_empty() {
    for text in ["{}", "[]", "null", "{\"choices\":[]}", "{\"choices\":[{\"message\":{\"content\":1}}],\"usage\":[1]}"] {
        let reply = read_upstream_reply(text).unwrap();

        assert_eq!(reply.content, "");
        assert_eq!(
            reply.usage,
            Usage { prompt_tokens: 0, completion_tokens: 0, total_tokens: 0 }
        );
    }
}

#[test]
fn an_answer_that_is_no_json_is_an_error() {
    let expected = serde_json::from_str::<serde_json::Value>("{\"a\":").unwrap_err().to_string();

    assert_eq!(read_upstream_reply("{\"a\":").unwrap_err(), expected);
    assert_eq!(
        read_upstream_reply("").unwrap_err(),
        "EOF while parsing a value at line 1 column 0"
    );
}

#[test]
fn an_error_of_the_model_is_passed_on() {
    let reply = answer_completion(upstream(429, "slow down"), &request("p"), 1).unwrap();

    assert_eq!(reply.status, 429);
    assert_eq!(reply.content_type, b"text/plain".to_vec());
    assert!(matches!(reply.body, ReplyBody::Raw(text) if text == "slow down"));
}

#[test]
fn an_answer_of_the_model_becomes_a_completion() {
    let text = "{\"choices\":[{\"message\":{\"content\":\"p = 1;\\n\\nrest\"}}],\"usage\":{\"total_tokens\":8}}";
    let reply = answer_completion(upstream(201, text), &request("p"), 12).unwrap();

    assert_eq!(reply.status, 200);
    assert_eq!(reply.content_type, b"application/json".to_vec());
    match reply.body {
        ReplyBody::Completion(body) => {
            assert_eq!(body.id, "cmpl-minimax-proxy");
            assert_eq!(body.object, "text_completion");
            assert_eq!(body.created, 12);
            assert_eq!(body.model, "m");
            assert_eq!(body.text, " = 1;");
            assert_eq!(body.index, 0);
            assert_eq!(body.finish_reason, "stop");
            assert_eq!(body.usage.total_tokens, 8);
        }
        _ => panic!("expected a completion"),
    }
}

#[test]
fn an_unreadable_answer_is_reported() {
    let result = answer_completion(upstream(200, "oops"), &request("p"), 12);
    let message = result.as_ref().unwrap_err().clone();
    let reply = reply_or_failure(result);

    assert_eq!(reply.status, 500);
    assert_eq!(reply.content_type, b"application/json".to_vec());
    match reply.body {
        ReplyBody::Failure { message: text, kind } => {
            assert_eq!(text, message);
            assert_eq!(kind, "proxy_error");
        }
        _ => panic!("expected a failure"),
    }
}

#[test]
fn what_was_worked_out_is_replied() {
    let reply = reply_or_failure(Ok(json_response(ReplyBody::Raw("x".to_string()), 218)));

    assert_eq!(reply.status, 218);
    assert!(matches!(reply.body, ReplyBody::Raw(text) if text == "x"));
}

#[test]
fn other_routes_are_not_found() {
    let reply = not_found();

    assert_eq!(reply.status, 404);
    assert!(matches!(reply.body, ReplyBody::Refusal(message) if message == "Not found"));
}

#[test]
fn completion_holds_the_usage_of_the_answer() {
    let usage = Usage { prompt_tokens: 1, completion_tokens: 2, total_tokens: 3 };
    let reply = UpstreamReply { content: "x<|im_end|>".to_string(), usage };
    let body = build_completion(reply, &request(""), 0);

    assert_eq!(body.text, "x");
    assert_eq!(body.usage, usage);
}

#[test]
fn time_stamps_count_from_the_epoch() {
    assert_eq!(timestamp_of(Some(5)), 5);
    assert_eq!(timestamp_of(None), 0);
    assert!(unix_timestamp_seconds() > 1_600_000_000);
}
