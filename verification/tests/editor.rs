use minimax_proxy::config::{Config, Environment};
use minimax_proxy::extension::{
    default_max_tokens, default_model, launch_environment, locate_server_binary, resolve_settings,
    server_candidates, server_command, MiniMaxProxySettings, UserSettings,
};
use minimax_proxy::lsp::{
    frame_header, handle_lsp_body, handle_lsp_message, lsp_result, read_header_line, HeaderStep,
    LspResult,
};

fn settings(api_token: &str) -> MiniMaxProxySettings<f64> {
    MiniMaxProxySettings {
        model: "m".to_string(),
        max_tokens: 64,
        api_token: api_token.to_string(),
        temperature: 0.2,
        top_p: 0.95,
    }
}

fn shell() -> Vec<(String, String)> {
    vec![
        ("PATH".to_string(), "/bin".to_string()),
        ("MINIMAX_API_KEY".to_string(), "old".to_string()),
        ("MINIMAX_DEFAULT_MODEL".to_string(), "old".to_string()),
    ]
}

#[test]
fn settings_have_the_documented_defaults() {
    let settings = resolve_settings(None, 0.2, 0.95);

    assert_eq!(settings.model, "MiniMax-M3");
    assert_eq!(settings.max_tokens, 256);
    assert_eq!(settings.api_token, "");
    assert_eq!(settings.temperature, 0.2);
    assert_eq!(settings.top_p, 0.95);
    assert_eq!(default_model(), "MiniMax-M3");
    assert_eq!(default_max_tokens(), 256);
}

#[test]
fn what_a_user_sets_counts() {
    let user = UserSettings {
        model: Some("m".to_string()),
        max_tokens: None,
        api_token: Some("t".to_string()),
        temperature: Some(1.5),
        top_p: None,
    };
    let settings = resolve_settings(Some(user), 0.2, 0.95);

    assert_eq!(settings.model, "m");
    assert_eq!(settings.max_tokens, 256);
    assert_eq!(settings.api_token, "t");
    assert_eq!(settings.temperature, 1.5);
    assert_eq!(settings.top_p, 0.95);
}

#[test]
fn binary_is_looked_for_in_order() {
    let built = "/w/server/target/release/minimax-proxy-server".to_string();
    let bin = "/w/bin/minimax-proxy-server".to_string();

    assert_eq!(server_candidates("/w"), (built.clone(), bin.clone()));
    assert_eq!(
        locate_server_binary(Some("/usr/x".to_string()), "/w", true, true),
        Ok("/usr/x".to_string())
    );
    assert_eq!(locate_server_binary(None, "/w", true, true), Ok(built));
    assert_eq!(locate_server_binary(None, "/w", false, true), Ok(bin));
}

#[test]
fn a_missing_binary_is_an_error() {
    let message = locate_server_binary(None, "/w", false, false).unwrap_err();

    assert_eq!(
        message,
        "could not locate minimax-proxy-server. Build it with `cargo build --release --manifest-path server/Cargo.toml`, copy it to `bin/minimax-proxy-server`, or install it on PATH via `cargo install --path server`."
    );
    let command = server_command(Err(message.clone()), shell(), &settings("t"), "0.2", "0.95");
    assert_eq!(command.unwrap_err(), message);
}

#[test]
fn settings_reach_the_server() {
    let command =
        server_command(Ok("/x".to_string()), shell(), &settings("t"), "0.2", "0.95").unwrap();

    assert_eq!(command.command, "/x");
    assert!(command.args.is_empty());
    let env = Environment { entries: command.env };
    assert_eq!(env.var("PATH"), Some("/bin"));
    assert_eq!(env.var("MINIMAX_MODEL"), Some("m"));
    assert_eq!(env.var("MINIMAX_TEMPERATURE"), Some("0.2"));
    assert_eq!(env.var("MINIMAX_TOP_P"), Some("0.95"));
    let config = Config::from_env(1, &env, 0.2, 0.95).unwrap();
    assert_eq!(config.default_model, "m");
    assert_eq!(config.default_max_tokens, 64);
    assert_eq!(config.minimax_api_key, "t");
}

#[test]
fn without_a_token_the_server_does_not_start() {
    let entries = launch_environment(shell(), &settings(""), "0.2", "0.95");

    assert!(Config::from_env(1, &Environment { entries }, 0.2, 0.95).is_err());
}

#[test]
fn a_written_header_is_read_back() {
    let header = frame_header("a\u{e9}");

    assert_eq!(header, "Content-Length: 3\r\n\r\n");
    assert_eq!(
        read_header_line(None, b"Content-Length: 3\r\n"),
        HeaderStep::More(Some(3))
    );
    assert_eq!(read_header_line(Some(3), b"\r\n"), HeaderStep::Body(3));
}

#[test]
fn header_lines_are_read_leniently() {
    assert_eq!(
        read_header_line(None, b"content-length:\t12 \r\r\n"),
        HeaderStep::More(Some(12))
    );
    assert_eq!(read_header_line(Some(1), b"Content-Length: 2\n"), HeaderStep::More(Some(2)));
    assert_eq!(read_header_line(Some(1), b"Content-Length: x\r\n"), HeaderStep::More(Some(1)));
    assert_eq!(read_header_line(Some(1), b"CONTENT-LENGTH: 2\r\n"), HeaderStep::More(Some(1)));
    assert_eq!(read_header_line(None, b"Content-Type: x\r\n"), HeaderStep::More(None));
    assert_eq!(read_header_line(None, b"\r\n"), HeaderStep::More(None));
    assert_eq!(read_header_line(Some(4), b"\xff\r\n"), HeaderStep::Body(4));
    assert_eq!(read_header_line(None, b"\xff\r\n"), HeaderStep::More(None));
    assert_eq!(read_header_line(Some(4), b" \r\n"), HeaderStep::More(Some(4)));
}

#[test]
fn initialize_and_shutdown_are_answered() {
    let reply = handle_lsp_body(b"{\"method\":\"initialize\",\"id\":[1,\"a\"]}").unwrap();
    assert_eq!(reply.id.to_string(), "[1,\"a\"]");
    assert_eq!(reply.result, LspResult::Initialized);

    let reply = handle_lsp_body(b"{\"id\":null,\"method\":\"shutdown\"}").unwrap();
    assert_eq!(reply.id, serde_json::Value::Null);
    assert_eq!(reply.result, LspResult::ShutDown);
}

#[test]
fn other_messages_are_not_answered() {
    assert!(handle_lsp_body(b"{\"method\":\"initialize\"}").is_none());
    assert!(handle_lsp_body(b"{\"method\":\"exit\",\"id\":1}").is_none());
    assert!(handle_lsp_body(b"{\"method\":1,\"id\":1}").is_none());
    assert!(handle_lsp_body(b"{\"id\":1}").is_none());
    assert!(handle_lsp_body(b"[]").is_none());
    assert!(handle_lsp_body(b"\xff").is_none());
    assert!(handle_lsp_message(&serde_json::Value::Null).is_none());
}

#[test]
fn methods_have_their_results() {
    assert_eq!(lsp_result("initialize"), Some(LspResult::Initialized));
    assert_eq!(lsp_result("shutdown"), Some(LspResult::ShutDown));
    assert_eq!(lsp_result("initialized"), None);
}
