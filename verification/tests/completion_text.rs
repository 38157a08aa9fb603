use minimax_proxy::clean::{
    apply_stop_sequences, clean_completion, cut_obvious_over_generation, remove_markdown_fences,
    remove_prompt_artifacts, strip_repeated_prompt, StopSequences,
};
use minimax_proxy::fim::parse_qwen_fim_prompt;
use minimax_proxy::prompt::{
    build_minuet_style_user_prompt, build_system_prompt, guess_language_from_prefix, head,
    language_of_lowercase, tail, write_prompt,
};

#[test]
fn parses_valid_qwen_fim_prompt() {
    let prompt = "<|fim_prefix|>const a = <|fim_suffix|>;\n<|fim_middle|>";

    let (prefix, suffix) = parse_qwen_fim_prompt(prompt).expect("expected FIM prompt");

    assert_eq!(prefix, "const a = ");
    assert_eq!(suffix, ";\n");
}

#[test]
fn rejects_invalid_qwen_fim_marker_order() {
    let prompt = "<|fim_suffix|>after<|fim_prefix|>before<|fim_middle|>";

    assert!(parse_qwen_fim_prompt(prompt).is_none());
}

#[test]
fn builds_fallback_prompt_without_fim() {
    let prompt = "function greet() {\n  const name = ";

    let result = build_minuet_style_user_prompt(prompt, 500_000, 500_000);

    assert!(result.contains("# language: javascript"));
    assert!(result.contains("<contextBeforeCursor>"));
    assert!(result.contains("function greet()"));
    assert!(result.contains("<cursorPosition>"));
    assert!(result.ends_with("<contextAfterCursor>\n"));
}

#[test]
fn builds_fim_prompt_with_suffix() {
    let prompt = "<|fim_prefix|>fn main() {\n<|fim_suffix|>}\n<|fim_middle|>";

    let result = build_minuet_style_user_prompt(prompt, 500_000, 500_000);

    assert!(result.contains("# language: rust"));
    assert!(result.contains("fn main() {\n<cursorPosition>"));
    assert!(result.ends_with("}\n"));
}

#[test]
fn strips_repeated_original_prompt() {
    let result = strip_repeated_prompt("abc completion", "abc ");

    assert_eq!(result, "completion");
}

#[test]
fn strips_repeated_fim_prefix() {
    let prompt = "<|fim_prefix|>let value = <|fim_suffix|>;\n<|fim_middle|>";
    let result = strip_repeated_prompt("let value = 42", prompt);

    assert_eq!(result, "42");
}

#[test]
fn removes_markdown_fences() {
    let result = remove_markdown_fences("```rust\nlet x = 1;\n```");

    assert_eq!(result, "let x = 1;");
}

#[test]
fn removes_prompt_artifacts() {
    let result = remove_prompt_artifacts("<cursor>abc</cursor><|fim_middle|>");

    assert_eq!(result, "abc");
}

#[test]
fn applies_single_stop_sequence() {
    let stop = StopSequences::One("END".to_string());
    let result = apply_stop_sequences("abcENDdef", Some(&stop));

    assert_eq!(result, "abc");
}

#[test]
fn applies_multiple_stop_sequences_in_order() {
    let stop = StopSequences::Many(vec!["DEF".to_string(), "BC".to_string()]);
    let result = apply_stop_sequences("ABCDEF", Some(&stop));

    assert_eq!(result, "A");
}

#[test]
fn applies_default_stop_sequences_when_user_omits_them() {
    let result = apply_stop_sequences("let x = 1;\n\nnext line", None);

    assert_eq!(result, "let x = 1;");
}

#[test]
fn user_stop_takes_priority_over_default() {
    let stop = StopSequences::One("|fim_".to_string());
    let result = apply_stop_sequences("abc<|fim_|xyz", Some(&stop));

    assert_eq!(result, "abc");
}

#[test]
fn cuts_obvious_over_generation() {
    let result = cut_obvious_over_generation("abc<contextAfterCursor>def");

    assert_eq!(result, "abc");
}

#[test]
fn cleans_completion_pipeline() {
    let stop = StopSequences::One("STOP".to_string());
    let result = clean_completion("```ts\nconst x = 1;STOP extra\n```", "", Some(&stop));

    assert_eq!(result, "const x = 1;");
}

#[test]
fn default_stops_cut_at_double_newline() {
    let result = clean_completion("let x = 1;\n\nfn next() {}", "", None);

    assert_eq!(result, "let x = 1;");
}

#[test]
fn parsing_gives_back_the_marked_parts() {
    let before = "<|fim_prefix|> again\n\u{e9}";
    let after = "<|fim_suffix|> again";
    let prompt = format!("<|fim_prefix|>{before}<|fim_suffix|>{after}<|fim_middle|>");

    assert_eq!(parse_qwen_fim_prompt(&prompt), Some((before, after)));
}

#[test]
fn text_outside_the_markers_is_not_part_of_the_prompt() {
    let prompt = "x<|fim_prefix|>a<|fim_suffix|>b<|fim_middle|>y";

    assert_eq!(parse_qwen_fim_prompt(prompt), Some(("a", "b")));
}

#[test]
fn each_marker_is_needed() {
    assert!(parse_qwen_fim_prompt("a<|fim_suffix|>b<|fim_middle|>").is_none());
    assert!(parse_qwen_fim_prompt("<|fim_prefix|>a<|fim_middle|>").is_none());
    assert!(parse_qwen_fim_prompt("<|fim_prefix|>a<|fim_suffix|>b").is_none());
    assert!(parse_qwen_fim_prompt("<|fim_prefix|>a<|fim_middle|>b<|fim_suffix|>").is_none());
    assert!(parse_qwen_fim_prompt("").is_none());
}

#[test]
fn head_and_tail_count_characters() {
    assert_eq!(head("\u{e9}t\u{e9}s", 3), "\u{e9}t\u{e9}");
    assert_eq!(tail("\u{e9}t\u{e9}s", 3), "t\u{e9}s");
    assert_eq!(head("abc", 0), "");
    assert_eq!(tail("abc", 0), "");
    assert_eq!(head("abc", 9), "abc");
    assert_eq!(tail("abc", 9), "abc");
}

#[test]
fn guesses_each_language() {
    assert_eq!(guess_language_from_prefix("EXPORT DEFAULT x"), "javascript");
    assert_eq!(guess_language_from_prefix("Function f"), "javascript");
    assert_eq!(guess_language_from_prefix("Const a"), "javascript");
    assert_eq!(guess_language_from_prefix("Interface A"), "typescript");
    assert_eq!(guess_language_from_prefix("a: String"), "typescript");
    assert_eq!(guess_language_from_prefix("a: Number"), "typescript");
    assert_eq!(guess_language_from_prefix("DEF f"), "python");
    assert_eq!(guess_language_from_prefix("IMPORT os"), "python");
    assert_eq!(guess_language_from_prefix("FN f"), "rust");
    assert_eq!(guess_language_from_prefix("LET MUT x"), "rust");
    assert_eq!(guess_language_from_prefix("PACKAGE MAIN"), "go");
    assert_eq!(guess_language_from_prefix("FUNC f"), "go");
    assert_eq!(guess_language_from_prefix("\u{3a3}"), "unknown");
    assert_eq!(language_of_lowercase("DEF f"), "unknown");
    assert_eq!(language_of_lowercase("import a: string"), "typescript");
}

#[test]
fn prompt_has_the_documented_form() {
    let prompt = "<|fim_prefix|>interface A { x<|fim_suffix|>}<|fim_middle|>";

    assert_eq!(
        build_minuet_style_user_prompt(prompt, 500_000, 500_000),
        "# language: typescript\n<contextBeforeCursor>\ninterface A { x<cursorPosition>\n<contextAfterCursor>\n}"
    );
    assert_eq!(
        write_prompt("go", "a", "b"),
        "# language: go\n<contextBeforeCursor>\na<cursorPosition>\n<contextAfterCursor>\nb"
    );
}

#[test]
fn prompt_keeps_what_is_next_to_the_cursor() {
    let prompt = "<|fim_prefix|>const abc<|fim_suffix|>def<|fim_middle|>";

    assert_eq!(
        build_minuet_style_user_prompt(prompt, 2, 1),
        "# language: unknown\n<contextBeforeCursor>\nbc<cursorPosition>\n<contextAfterCursor>\nd"
    );
    assert_eq!(
        build_minuet_style_user_prompt("abcdef", 3, 5),
        "# language: unknown\n<contextBeforeCursor>\ndef<cursorPosition>\n<contextAfterCursor>\n"
    );
    let longest = build_minuet_style_user_prompt("const x = y", 8, 0);
    assert_eq!(longest.chars().count(), 8 + 80);
    let javascript = build_minuet_style_user_prompt("const x", 7, 0);
    assert_eq!(javascript.chars().count(), 7 + 83);
}

#[test]
fn system_prompt_asks_for_the_text_alone() {
    let message = build_system_prompt();

    assert!(message.starts_with(
        "You are a code completion engine. Output only the text to insert at <cursorPosition>."
    ));
    assert!(message.ends_with("output only the comment."));
}

#[test]
fn strips_the_prompt_without_its_trailing_white_space() {
    assert_eq!(strip_repeated_prompt("abc\nd", "abc \u{3000}\n"), "\nd");
    assert_eq!(strip_repeated_prompt("xyz", "abc"), "xyz");
    assert_eq!(strip_repeated_prompt("abcabc", "abc"), "abc");
}

#[test]
fn white_space_is_what_unicode_says() {
    for code in 0..=0x10ffffu32 {
        if let Some(c) = char::from_u32(code) {
            let mut prompt = "x".to_string();
            prompt.push(c);
            let stripped = strip_repeated_prompt("x", &prompt).is_empty();
            assert_eq!(stripped, c.is_whitespace(), "{code:x}");
        }
    }
}

#[test]
fn fenced_block_gives_its_body() {
    assert_eq!(remove_markdown_fences("```c-2_x\na\n```b\n\n```"), "a\n```b\n");
    assert_eq!(remove_markdown_fences("```\na\n```"), "a");
    assert_eq!(remove_markdown_fences("```a b\nc```"), "a b\nc");
    assert_eq!(remove_markdown_fences("```abc"), "abc");
    assert_eq!(remove_markdown_fences("abc```"), "abc");
    assert_eq!(remove_markdown_fences("abc\n```"), "abc");
    assert_eq!(remove_markdown_fences("a```b"), "a```b");
    assert_eq!(remove_markdown_fences("```"), "");
}

#[test]
fn artifacts_are_taken_out_one_after_the_other() {
    assert_eq!(
        remove_prompt_artifacts("a<|fim_prefix|><|fim_prefix|>b<cursorPosition>c"),
        "abc"
    );
    assert_eq!(remove_prompt_artifacts("<cur<cursor>sor>"), "<cursor>");
    assert_eq!(remove_prompt_artifacts("<contextBeforeCursor><contextAfterCursor>"), "");
    assert_eq!(remove_prompt_artifacts("a < b > c"), "a < b > c");
}

#[test]
fn stops_of_a_request_cut_one_after_the_other() {
    let stop = StopSequences::Many(vec!["XY".to_string(), "aX".to_string()]);
    assert_eq!(apply_stop_sequences("aXY", Some(&stop)), "a");
    assert_eq!(clean_completion("aXY", "", Some(&stop)), "a");
    let stop = StopSequences::Many(vec!["aX".to_string(), "XY".to_string()]);
    assert_eq!(apply_stop_sequences("aXY", Some(&stop)), "");
    let stop = StopSequences::Many(vec!["zz".to_string(), "Y".to_string(), "X".to_string()]);
    assert_eq!(apply_stop_sequences("aXYzz", Some(&stop)), "a");
    let stop = StopSequences::Many(vec![]);
    assert_eq!(apply_stop_sequences("abc", Some(&stop)), "abc");
}

#[test]
fn own_and_default_stops_both_cut() {
    let stop = StopSequences::Many(vec!["b\n".to_string(), "zz".to_string()]);
    assert_eq!(apply_stop_sequences("ab\n\nc", Some(&stop)), "a");
    let stop = StopSequences::Many(vec!["zz".to_string(), "b\n".to_string()]);
    assert_eq!(apply_stop_sequences("ab\n\nc", Some(&stop)), "a");
    let stop = StopSequences::One("\nc".to_string());
    assert_eq!(apply_stop_sequences("ab\n\ncd", Some(&stop)), "ab");
    let stop = StopSequences::One("cd".to_string());
    assert_eq!(apply_stop_sequences("ab</context>cd", Some(&stop)), "ab");
    assert_eq!(apply_stop_sequences("abcd</context>", Some(&stop)), "ab");
}

#[test]
fn default_stops_cut_at_the_first() {
    assert_eq!(apply_stop_sequences("a</context>b\n\nc<|im_end|>", None), "a");
    assert_eq!(apply_stop_sequences("a\n\nb<|im_end|></context>", None), "a");
    assert_eq!(apply_stop_sequences("a<|im_end|>b<|endoftext|>\n\n", None), "a");
}

#[test]
fn an_empty_stop_sequence_cuts_nothing() {
    let stop = StopSequences::One(String::new());
    assert_eq!(apply_stop_sequences("abc", Some(&stop)), "abc");
}

#[test]
fn each_default_stop_sequence_cuts() {
    for stop in [
        "\n\n",
        "<|fim_",
        "<|endoftext|>",
        "<|im_end|>",
        "</context>",
        "<contextAfterCursor>",
    ] {
        assert_eq!(apply_stop_sequences(&format!("ab{stop}cd"), None), "ab");
    }
}

#[test]
fn each_boundary_cuts() {
    for boundary in [
        "```",
        "<|fim_prefix|>",
        "<|fim_suffix|>",
        "<|fim_middle|>",
        "<contextBeforeCursor>",
        "<contextAfterCursor>",
        "<cursorPosition>",
        "</context>",
    ] {
        assert_eq!(cut_obvious_over_generation(&format!("ab{boundary}cd")), "ab");
    }
    assert_eq!(cut_obvious_over_generation("ab"), "ab");
}

#[test]
fn boundaries_cut_at_the_first() {
    assert_eq!(cut_obvious_over_generation("a</context>b```c<|fim_prefix|>"), "a");
    assert_eq!(cut_obvious_over_generation("a<cursorPosition>b<|fim_suffix|>"), "a");
    assert_eq!(cut_obvious_over_generation("a<|fim_```b</context>"), "a<|fim_");
    assert_eq!(cut_obvious_over_generation("a</context```"), "a</context");
}

#[test]
fn cleaned_completion_is_clean() {
    let stop = StopSequences::Many(vec!["END".to_string(), String::new()]);
    let prompt = "<|fim_prefix|>let x<|fim_suffix|><|fim_middle|>";
    let result = clean_completion("let x = 1; \t<cursor>\nEND```", prompt, Some(&stop));

    assert_eq!(result, " = 1;");
}

#[test]
fn clean_completion_is_kept() {
    assert_eq!(clean_completion("  let y = x;\n  y", "let x", None), "  let y = x;\n  y");
}
