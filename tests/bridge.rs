use analyzer_bridge::text::{push_int, push_quoted};
use analyzer_bridge::{respond, AnalyzeError, AnalyzeSuccess, Message, Verdict};

fn quoted(s: &str) -> String {
    let mut out = String::new();
    push_quoted(&mut out, s);
    out
}

#[test]
fn accepted_chain_gives_success_json() {
    let r = respond("a;b", Verdict::Accepted { semantics: String::from("list") });
    let expected = "{\"semantics\":\"list\",\"message\":{\"plain\":\"\\\"a;b\\\" is chain\",\
\"html\":\"<span class='right'>chain \\\"a;b\\\" belongs to the language</span>\"}}";
    assert_eq!(r, Ok(String::from(expected)));
}

#[test]
fn rejected_chain_gives_error_json() {
    let r = respond(
        "a;;b",
        Verdict::Rejected {
            index: 2,
            message: String::from("unexpected delimiter"),
            html: String::from("a;<b>;</b>b"),
        },
    );
    let expected = "{\"index\":2,\"message\":{\"plain\":\"unexpected delimiter\",\
\"html\":\"a;<b>;</b>b\"}}";
    assert_eq!(r, Err(String::from(expected)));
}

#[test]
fn success_record_banners() {
    let s = AnalyzeSuccess::accepted("x", String::from("sem"));
    assert_eq!(s.semantics, "sem");
    assert_eq!(s.message.plain, "\"x\" is chain");
    assert_eq!(s.message.html, "<span class='right'>chain \"x\" belongs to the language</span>");
}

#[test]
fn empty_chain_banners_are_not_empty() {
    let s = AnalyzeSuccess::accepted("", String::new());
    assert_eq!(s.message.plain, "\"\" is chain");
    assert!(!s.message.plain.is_empty());
    assert!(!s.message.html.is_empty());
    let r = respond("", Verdict::Accepted { semantics: String::new() });
    assert!(r.is_ok());
}

#[test]
fn error_record_keeps_index_and_html() {
    let html = String::from("<span class='wrong'>;</span>");
    let e = AnalyzeError::rejected(7, "bad", html.clone());
    assert_eq!(e.index, 7);
    assert_eq!(e.message.plain, "bad");
    assert_eq!(e.message.html, html);
}

#[test]
fn largest_index_is_kept() {
    let max = i32::MAX as usize;
    let e = AnalyzeError::rejected(max, "m", String::from("h"));
    assert_eq!(e.index, i32::MAX);
    let r = respond("c", Verdict::Rejected { index: max, message: String::from("m"), html: String::from("h") });
    let v: serde_json::Value = serde_json::from_str(&r.unwrap_err()).unwrap();
    assert_eq!(v.get("index").and_then(|i| i.as_i64()), Some(i32::MAX as i64));
}

#[test]
fn escaping_matches_serde_json() {
    let cases = [
        "",
        "plain text",
        "quote \" and backslash \\",
        "slash / stays",
        "line\nfeed\ttab\rreturn",
        "\u{8}\u{c}",
        "\u{0}\u{1}\u{1f}\u{7f}",
        "caf\u{e9} \u{1F600}",
    ];
    for s in cases.iter() {
        assert_eq!(quoted(s), serde_json::to_string(s).unwrap(), "on {:?}", s);
    }
}

#[test]
fn control_character_escape() {
    assert_eq!(quoted("\u{1}"), "\"\\u0001\"");
    assert_eq!(quoted("\u{1b}"), "\"\\u001b\"");
    assert_eq!(quoted("a\"b"), "\"a\\\"b\"");
}

#[test]
fn integers_match_display() {
    for i in [0i32, 1, 9, 10, 99, 100, -1, -10, 12345, i32::MAX, i32::MIN].iter() {
        let mut out = String::from("n=");
        push_int(&mut out, *i);
        assert_eq!(out, format!("n={}", i));
    }
}

#[test]
fn negative_index_json() {
    let e = AnalyzeError {
        index: -3,
        message: Message { plain: String::from("p"), html: String::from("h") },
    };
    assert_eq!(e.to_json(), "{\"index\":-3,\"message\":{\"plain\":\"p\",\"html\":\"h\"}}");
}

#[test]
fn message_json_alone() {
    let m = Message { plain: String::from("a\nb"), html: String::from("<i>\"</i>") };
    assert_eq!(m.to_json(), "{\"plain\":\"a\\nb\",\"html\":\"<i>\\\"</i>\"}");
}

#[test]
fn error_json_decodes_to_same_values() {
    let message = "expected \"x\" at\tend";
    let html = String::from("<span>\u{1}\\</span>");
    let r = respond("ab", Verdict::Rejected { index: 41, message: String::from(message), html: html.clone() });
    let v: serde_json::Value = serde_json::from_str(&r.unwrap_err()).unwrap();
    assert_eq!(v.get("index").and_then(|i| i.as_i64()), Some(41));
    let m = v.get("message").unwrap();
    assert_eq!(m.get("plain").and_then(|p| p.as_str()), Some(message));
    assert_eq!(m.get("html").and_then(|h| h.as_str()), Some(html.as_str()));
}

#[test]
fn success_json_decodes_to_same_values() {
    let chain = "a\"b;c";
    let r = respond(chain, Verdict::Accepted { semantics: String::from("s\u{2}") });
    let v: serde_json::Value = serde_json::from_str(&r.unwrap()).unwrap();
    assert_eq!(v.get("semantics").and_then(|s| s.as_str()), Some("s\u{2}"));
    let m = v.get("message").unwrap();
    assert_eq!(m.get("plain").and_then(|p| p.as_str()), Some("\"a\"b;c\" is chain"));
    let html = "<span class='right'>chain \"a\"b;c\" belongs to the language</span>";
    assert_eq!(m.get("html").and_then(|h| h.as_str()), Some(html));
}

