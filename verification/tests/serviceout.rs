use dsh_desktop::serviceout::{
    classify, extract_lock_path, extract_url, plugin_candidates, FailureKind, ServiceCapture,
    DEFAULT_LIMIT,
};

const PLUGIN_ERR: &str = "Error: dsh: plugin tree failed to load\n  AggregateError: loader entries failed to apply\n    Error: failed to import loader entry dsh-web-ui-all (@linxin666/dsh-web-ui-all): The requested module '@deepseek-ai/dsh-settings' does not provide an export named 'settingsNamespace'\n    Error: failed to import loader entry dsh-web-ui-market (@linxin666/dsh-web-ui-all): The requested module '@deepseek-ai/dsh-settings' does not provide an export named 'installSettingsSection'";
const LOCK_ERR: &str = "task-board ledger lock is unreadable: C:\\Users\\18129\\.dsh\\task-board\\ledger-v2.lock; if this is a leftover from an unclean shutdown and no other DSH host is running, remove it manually and retry";

#[test]
fn extract_url_takes_token_line() {
    let text = "dsh web: http://127.0.0.1:3080/?token=abc123";
    assert_eq!(extract_url(text, 3080).as_deref(), Some("http://127.0.0.1:3080/?token=abc123"));
}

#[test]
fn extract_url_last_match_wins() {
    let text = "listening on http://127.0.0.1:3080\ndsh web: http://127.0.0.1:3080/?token=xyz";
    assert_eq!(extract_url(text, 3080).as_deref(), Some("http://127.0.0.1:3080/?token=xyz"));
}

#[test]
fn extract_url_bare_line_only() {
    let text = "ready at http://127.0.0.1:3080";
    assert_eq!(extract_url(text, 3080).as_deref(), Some("http://127.0.0.1:3080"));
}

#[test]
fn extract_url_ignores_other_port() {
    let text = "dsh web: http://127.0.0.1:9999/?token=abc http://127.0.0.1:3080/?token=ok";
    assert_eq!(extract_url(text, 3080).as_deref(), Some("http://127.0.0.1:3080/?token=ok"));
    assert_eq!(extract_url(text, 9999).as_deref(), Some("http://127.0.0.1:9999/?token=abc"));
}

#[test]
fn extract_url_rejects_bad_remainder() {
    let text = "ref http://127.0.0.1:3080foo";
    assert_eq!(extract_url(text, 3080), None);
}

#[test]
fn extract_url_trims_trailing_punct() {
    let text = "(visit http://127.0.0.1:3080/?token=abc), see docs";
    assert_eq!(extract_url(text, 3080).as_deref(), Some("http://127.0.0.1:3080/?token=abc"));
}

#[test]
fn extract_url_falls_back_to_earlier_acceptable_match() {
    let text = "http://127.0.0.1:3080/ok then http://127.0.0.1:30801";
    assert_eq!(extract_url(text, 3080).as_deref(), Some("http://127.0.0.1:3080/ok"));
}

#[test]
fn extract_url_strips_cjk_full_stop_and_quotes() {
    let text = "打开 \"http://127.0.0.1:3080/a\"。";
    assert_eq!(extract_url(text, 3080).as_deref(), Some("http://127.0.0.1:3080/a"));
    assert_eq!(extract_url("", 3080), None);
}

#[test]
fn classify_plugin_tree_fixture() {
    assert_eq!(classify(PLUGIN_ERR), FailureKind::PluginTree);
}

#[test]
fn plugin_candidates_dedupes_and_keeps_order() {
    let got = plugin_candidates(PLUGIN_ERR);
    assert_eq!(got, vec!["@linxin666/dsh-web-ui-all".to_string()]);
    assert!(plugin_candidates("just some log").is_empty());
}

#[test]
fn plugin_candidates_handles_missing_brackets() {
    let text = "failed to import loader entry a (pkg-a: no bracket\r\nfailed to import loader entry b\nfailed to import loader entry c ( )\nfailed to import loader entry d ( pkg-d )";
    assert_eq!(plugin_candidates(text), vec!["pkg-a".to_string(), "pkg-d".to_string()]);
}

#[test]
fn classify_stale_lock_fixture() {
    let kind = classify(LOCK_ERR);
    assert!(matches!(&kind, FailureKind::StaleLock { .. }));
    if let FailureKind::StaleLock { lock_path } = kind {
        assert_eq!(
            lock_path.as_deref(),
            Some(r"C:\Users\18129\.dsh\task-board\ledger-v2.lock")
        );
    }
}

#[test]
fn lock_path_is_found_among_words() {
    assert_eq!(
        extract_lock_path("see (/home/u/.dsh/x.lock), please").as_deref(),
        None
    );
    assert_eq!(
        extract_lock_path("see /home/u/.dsh/x.lock), please").as_deref(),
        Some("/home/u/.dsh/x.lock")
    );
    assert_eq!(extract_lock_path("unreadable: not-a-path; C:/a/b.lock;").as_deref(), Some("C:/a/b.lock"));
    assert_eq!(extract_lock_path("x.lock"), None);
}

#[test]
fn classify_plugin_precedes_lock() {
    let mixed = format!("{PLUGIN_ERR}\n{LOCK_ERR}");
    assert_eq!(classify(&mixed), FailureKind::PluginTree);
}

#[test]
fn classify_noise_is_unknown() {
    assert_eq!(classify("hello world\nok"), FailureKind::Unknown);
    assert_eq!(classify(""), FailureKind::Unknown);
}

#[test]
fn kind_names() {
    assert_eq!(FailureKind::PluginTree.kind_str(), "plugins");
    assert_eq!(FailureKind::StaleLock { lock_path: None }.kind_str(), "stale-lock");
    assert_eq!(FailureKind::Unknown.kind_str(), "unknown");
}

#[test]
fn capture_joins_chunks_split_mid_cjk_char() {
    let msg = "ledger lock is unreadable: C:\\Users\\李四\\.dsh\\task-board\\ledger-v2.lock; if this is a leftover from an unclean shutdown and no other DSH host is running, remove it manually and retry";
    let bytes = msg.as_bytes();
    for cut in [1usize, bytes.len() / 3, bytes.len() / 2, bytes.len() - 3] {
        let mut cap2 = ServiceCapture::new(DEFAULT_LIMIT);
        cap2.push_bytes(&bytes[..cut]);
        cap2.push_bytes(&bytes[cut..]);
        let text = cap2.text();
        assert!(text.contains("李四"), "cut {cut} corrupted text: {text}");
        assert!(matches!(cap2.classify(), FailureKind::StaleLock { .. }));
    }
}

#[test]
fn capture_bounded_and_reset() {
    let mut cap = ServiceCapture::new(16 * 1024);
    let chunk = vec![b'a'; 4096];
    for _ in 0..8 {
        cap.push_bytes(&chunk);
    }
    let text = cap.text();
    assert!(text.len() <= 16 * 1024 + 4096);
    assert!(text.contains("aaaa"));
}

#[test]
fn capture_keeps_the_last_bytes_whatever_the_chunks() {
    let mut one = ServiceCapture::new(5);
    one.push_bytes(b"abcdefgh");
    assert_eq!(one.text(), "defgh");
    let mut two = ServiceCapture::new(5);
    two.push_bytes(b"abc");
    two.push_bytes(b"defg");
    two.push_bytes(b"h");
    assert_eq!(two.text(), "defgh");
    let mut none = ServiceCapture::new(0);
    none.push_bytes(b"abc");
    assert_eq!(none.text(), "");
}

#[test]
fn capture_replaces_ill_formed_bytes() {
    let mut cap = ServiceCapture::new(16);
    cap.push_bytes(&[b'a', 0xff, b'b']);
    assert_eq!(cap.text(), "a\u{fffd}b");
}

#[test]
fn captured_url_needs_a_port() {
    let mut cap = ServiceCapture::new(DEFAULT_LIMIT);
    cap.push_bytes(b"http://127.0.0.1:3080/x");
    assert_eq!(cap.captured_url(3080).as_deref(), Some("http://127.0.0.1:3080/x"));
    assert_eq!(cap.captured_url(0), None);
    assert_eq!(cap.captured_url(1), None);
}

#[test]
fn classify_works_over_capture() {
    let mut cap = ServiceCapture::new(DEFAULT_LIMIT);
    cap.push_bytes(LOCK_ERR.as_bytes());
    assert_eq!(
        cap.classify(),
        FailureKind::StaleLock {
            lock_path: Some(r"C:\Users\18129\.dsh\task-board\ledger-v2.lock".into())
        }
    );
}

#[test]
fn output_printed_twice_blames_the_same() {
    for text in [
        "failed to import loader entry x (b)\r\nfailed to import loader entry (a\r",
        "failed to import loader entry x (b): no\n\n",
        "",
    ] {
        let twice = format!("{text}\n{text}");
        assert_eq!(plugin_candidates(&twice), plugin_candidates(text));
    }
    assert_eq!(
        plugin_candidates("failed to import loader entry x (b)\r\nfailed to import loader entry (a\r"),
        vec!["b", "a"]
    );
}
