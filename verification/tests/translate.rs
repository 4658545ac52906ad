use kotoma::msg::UiMsg;
use kotoma::time::Timestamp;
use kotoma::transcribe::TranscriptLine;
use kotoma::translate::{
    after_first_reply, after_retry, chat_reply, chat_url, clean_reply, english_summary_request,
    finish_summary, gave_up_error, has_hangul, health_url, looks_off_target, max_tokens_for,
    server_args, spawn_error, summary_request, system_prompt, translation_request, wants_english,
    ContextWindow, FirstReply, HealthAnswer, HealthWait, OnFailure, Role, ServerState, Translation,
    Translator, TranslatorConfig, CONTEXT_PAIRS, MAX_SERVER_RESTARTS,
};

fn config() -> TranslatorConfig {
    TranslatorConfig {
        binary: "llama-server".to_string(),
        model_path: "models/m.gguf".to_string(),
        port: 18080,
        n_ctx: 4096,
        max_new_tokens: 512,
        startup_timeout_secs: 60,
        log_dir: "logs".to_string(),
    }
}

fn line(id: u64, text: &str, lang: &str) -> TranscriptLine {
    let t = Timestamp::new(1_700_000_000, 0, 0).unwrap();
    TranscriptLine {
        id,
        text: text.to_string(),
        translated: None,
        src_lang: lang.to_string(),
        started_at: t,
        ended_at: t,
    }
}

#[test]
fn max_tokens_has_floor_scale_and_cap() {
    assert_eq!(max_tokens_for("hi", 512), 48); // floor
    assert_eq!(max_tokens_for(&"あ".repeat(100), 512), 216); // 100*2+16
    assert_eq!(max_tokens_for(&"a".repeat(1000), 512), 512); // cap
}

#[test]
fn simplified_chars_flag_chinese_leak() {
    assert!(looks_off_target(true, "我们说这个"));
    assert!(!looks_off_target(true, "私たちはこれについて話します"));
}

#[test]
fn kana_free_long_han_run_is_suspicious() {
    assert!(looks_off_target(true, "今天天气很好我想去公园散步"));
}

#[test]
fn english_target_never_flags() {
    assert!(!looks_off_target(false, "我们说这个"));
}

#[test]
fn context_history_filters_by_direction() {
    let mut c = ContextWindow::new();
    c.push("en", "hello", "こんにちは");
    c.push("ja", "元気です", "I'm fine");
    c.push("en", "bye", "さようなら");
    assert_eq!(
        c.history_for("en"),
        vec![("hello", "こんにちは"), ("bye", "さようなら")]
    );
    assert_eq!(c.history_for("ja"), vec![("元気です", "I'm fine")]);
}

#[test]
fn context_window_keeps_only_recent_pairs() {
    let mut c = ContextWindow::new();
    for i in 0..10 {
        c.push("en", &format!("s{i}"), &format!("d{i}"));
    }
    assert_eq!(c.pairs.len(), CONTEXT_PAIRS);
    assert_eq!(c.pairs.front().unwrap().1, "s7");
}

#[test]
fn hangul_is_off_target_either_way() {
    assert!(has_hangul("네"));
    assert!(!has_hangul("はい"));
    assert!(looks_off_target(true, "네 알겠습니다"));
    assert!(looks_off_target(false, "yes 네"));
}

#[test]
fn prompts_name_their_target() {
    assert_ne!(system_prompt("en"), system_prompt("ja"));
    assert_eq!(system_prompt("en"), system_prompt("auto"));
}

#[test]
fn request_holds_prompt_examples_and_line() {
    let mut c = ContextWindow::new();
    c.push("en", "hello", "こんにちは");
    c.push("ja", "元気です", "I'm fine");
    let r = translation_request(&line(9, "bye", "en"), &c, 512);
    assert_eq!(r.messages.len(), 4);
    assert_eq!(r.messages[0].role, Role::System);
    assert_eq!(r.messages[0].content, system_prompt("en"));
    assert_eq!(r.messages[1].content, "hello");
    assert_eq!(r.messages[2].role, Role::Assistant);
    assert_eq!(r.messages[2].content, "こんにちは");
    assert_eq!(r.messages[3].role, Role::User);
    assert_eq!(r.messages[3].content, "bye");
    assert_eq!(r.max_tokens, 48);
    assert_eq!(r.messages[0].role.name(), "system");
}

#[test]
fn good_first_reply_is_accepted() {
    let r = translation_request(&line(9, "bye", "en"), &ContextWindow::new(), 512);
    match after_first_reply("en", r, "さようなら".to_string()) {
        FirstReply::Accept(t) => {
            assert_eq!(t.text, "さようなら");
            assert!(!t.off_target);
        }
        FirstReply::Retry { .. } => panic!("retried"),
    }
}

#[test]
fn leaked_reply_is_asked_again_behind_the_same_turns() {
    let r = translation_request(&line(9, "bye", "en"), &ContextWindow::new(), 512);
    match after_first_reply("en", r, "我们说这个".to_string()) {
        FirstReply::Accept(_) => panic!("accepted"),
        FirstReply::Retry { request, text } => {
            assert_eq!(text, "我们说这个");
            assert_eq!(request.messages.len(), 4);
            assert_eq!(request.messages[1].content, "bye");
            assert_eq!(request.messages[2].content, "我们说这个");
            assert_eq!(request.messages[3].role, Role::User);
            assert_eq!(request.temperature_tenths, 7);
        }
    }
}

#[test]
fn empty_retry_leaves_the_first_reply() {
    let t = after_retry("en", "我们说这个".to_string(), String::new());
    assert_eq!(t.text, "我们说这个");
    assert!(t.off_target);
    let t = after_retry("en", "我们说这个".to_string(), "これです".to_string());
    assert_eq!(t.text, "これです");
    assert!(!t.off_target);
}

#[test]
fn reply_is_read_out_of_the_document() {
    let body = "{\"choices\":[{\"message\":{\"content\":\" こんにちは \\n\"}}]}";
    assert_eq!(chat_reply(body).ok(), Some("こんにちは".to_string()));
    assert_eq!(chat_reply("{\"choices\":[]}").ok(), Some(String::new()));
    assert!(chat_reply("not json").is_err());
    assert_eq!(clean_reply(Some("\t x y ".to_string())), "x y");
    assert_eq!(clean_reply(None), "");
}

#[test]
fn addresses_of_the_server() {
    assert_eq!(health_url(18080), "http://127.0.0.1:18080/health");
    assert_eq!(chat_url(1), "http://127.0.0.1:1/v1/chat/completions");
}

#[test]
fn server_is_started_with_its_model_and_port() {
    assert_eq!(
        server_args(&config()),
        vec![
            "--model",
            "models/m.gguf",
            "--port",
            "18080",
            "--host",
            "127.0.0.1",
            "--ctx-size",
            "4096",
            "--n-gpu-layers",
            "999",
            "--threads",
            "4",
            "--jinja"
        ]
    );
    assert!(spawn_error("llama-server").starts_with("spawning llama-server (llama-server)."));
}

#[test]
fn wait_for_the_server() {
    let mut w = HealthWait::new();
    assert!(w.check(&config(), ServerState::Running).is_ok());
    assert_eq!(
        w.check(&config(), ServerState::TimedOut),
        Err("llama-server did not become ready within 60s (last: unknown)".to_string())
    );
    assert!(!w.answer(HealthAnswer::Status(503)));
    assert_eq!(
        w.check(&config(), ServerState::TimedOut),
        Err("llama-server did not become ready within 60s (last: status 503)".to_string())
    );
    assert!(!w.answer(HealthAnswer::Unreachable("refused".to_string())));
    assert_eq!(w.last_err, Some("refused".to_string()));
    assert!(w.answer(HealthAnswer::Status(200)));
    let e = w
        .check(&config(), ServerState::Exited("exit status: 1".to_string()))
        .unwrap_err();
    assert!(e.contains("(exit status: 1) — is port 18080 already in use"));
}

#[test]
fn translator_gives_up_after_its_restarts() {
    let mut t = Translator::new();
    for _ in 0..MAX_SERVER_RESTARTS {
        assert_eq!(t.not_ready(), OnFailure::Restart);
    }
    assert_eq!(t.not_ready(), OnFailure::GiveUp);
    assert_eq!(
        gave_up_error(),
        "llama-server keeps crashing (gave up after 5 restarts)"
    );
}

#[test]
fn a_line_waits_for_the_next_server() {
    let mut t = Translator::new();
    assert_eq!(t.failed(line(3, "hi", "en"), true), OnFailure::Restart);
    assert_eq!(t.restarts, 1);
    assert_eq!(t.take_pending().unwrap().id, 3);
    assert!(t.take_pending().is_none());
    assert_eq!(t.failed(line(4, "ho", "en"), false), OnFailure::DropLine);
    assert!(t.take_pending().is_none());
}

#[test]
fn leaks_do_not_become_examples() {
    let mut t = Translator::new();
    t.failed(line(1, "x", "en"), true);
    let bad = Translation {
        text: "我们说这个".to_string(),
        off_target: true,
    };
    match t.translated(&line(1, "x", "en"), bad) {
        Some(UiMsg::TranslationReady { id, translated }) => {
            assert_eq!(id, 1);
            assert_eq!(translated, "我们说这个");
        }
        _ => panic!("no translation"),
    }
    assert!(t.context.pairs.is_empty());
    assert_eq!(t.restarts, 0);
    let good = Translation {
        text: "はい".to_string(),
        off_target: false,
    };
    t.translated(&line(2, "yes", "en"), good);
    assert_eq!(t.context.history_for("en"), vec![("yes", "はい")]);
    let none = Translation {
        text: String::new(),
        off_target: false,
    };
    assert!(t.translated(&line(3, "no", "en"), none).is_none());
    assert_eq!(t.context.pairs.len(), 1);
}

#[test]
fn summary_is_asked_of_the_transcript() {
    let r = summary_request(&vec![line(0, "hello", "en"), line(1, "はい", "ja")]);
    assert_eq!(r.messages.len(), 2);
    assert_eq!(r.messages[1].content, "[22:13] hello\n[22:13] はい\n");
    assert_eq!(r.temperature_tenths, 3);
}

#[test]
fn summary_of_a_long_session_keeps_its_end() {
    let r = summary_request(&vec![line(0, &"a".repeat(9000), "en"), line(1, "end", "en")]);
    assert_eq!(r.messages[1].content.chars().count(), 8000);
    assert!(r.messages[1].content.ends_with("] end\n"));
}

#[test]
fn summary_in_english_follows() {
    assert!(wants_english("- 決定"));
    assert!(!wants_english(""));
    let r = english_summary_request("- 決定");
    assert_eq!(r.messages[1].content, "- 決定");
    assert_eq!(r.temperature_tenths, 2);
    let s = finish_summary("- 決定".to_string(), Some("- decision".to_string()));
    assert_eq!(s.ja, "- 決定");
    assert_eq!(s.en, Some("- decision".to_string()));
    assert_eq!(finish_summary("- 決定".to_string(), Some(String::new())).en, None);
    assert_eq!(finish_summary("- 決定".to_string(), None).en, None);
}

#[test]
fn longer_lines_get_no_smaller_cap() {
    let mut last = 0;
    for n in 0..400 {
        let cap = max_tokens_for(&"a".repeat(n), 512);
        assert!(cap >= last && cap >= 48 && cap <= 512);
        last = cap;
    }
    assert_eq!(max_tokens_for(&"a".repeat(400), 10), 48);
}

#[test]
fn short_han_runs_are_accepted() {
    assert!(!looks_off_target(true, "東京都庁前"));
    assert!(looks_off_target(true, "東京都庁前駅"));
    assert!(!looks_off_target(true, "東京都庁前駅です"));
    assert!(!looks_off_target(true, ""));
}
