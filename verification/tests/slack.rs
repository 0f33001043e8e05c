use slack_bot::slack::{
    bearer, decode_reactions_reply, decode_send_reply, gather_reactions, interpret_reactions,
    interpret_send, post_message_url, reactions_url, MessageIdentifier, RawReply, Reaction,
    SlackError,
};

fn reply() -> RawReply {
    RawReply { ok: None, channel: None, ts: None, error: None, reactions: None }
}

fn thumbs() -> Reaction {
    Reaction::new("thumbsup".to_string(), vec!["U1".to_string(), "U2".to_string()])
}

#[test]
fn addresses_and_header() {
    assert_eq!(post_message_url(), "https://slack.com/api/chat.postMessage");
    let id = MessageIdentifier::new("C024BE91L".to_string(), "1401383885.000061".to_string());
    assert_eq!(
        reactions_url(&id),
        "https://slack.com/api/reactions.get?channel=C024BE91L&timestamp=1401383885.000061"
    );
    assert_eq!(bearer("xoxb-1"), "Bearer xoxb-1");
    assert_eq!(bearer(""), "Bearer ");
}

#[test]
fn identifier_and_reaction_hold_what_they_were_given() {
    let id = MessageIdentifier::new("C1".to_string(), "12.5".to_string());
    assert_eq!(id.channel(), "C1");
    assert_eq!(id.ts(), "12.5");
    let reaction = thumbs();
    assert_eq!(reaction.name(), "thumbsup");
    assert_eq!(reaction.user_count(), 2);
    assert_eq!(reaction.user(0), Some("U1"));
    assert_eq!(reaction.user(1), Some("U2"));
    assert_eq!(reaction.user(2), None);
}

#[test]
fn a_sent_message_is_named_by_channel_and_timestamp() {
    let out = decode_send_reply(r#"{"ok":true,"channel":"D1","ts":"17.25","message":{}}"#);
    match out {
        Some(Ok(id)) => {
            assert_eq!(id.channel(), "D1");
            assert_eq!(id.ts(), "17.25");
        }
        other => panic!("unexpected: {other:?}"),
    }
}

#[test]
fn a_refused_message_gives_the_error_of_the_reply() {
    let out = decode_send_reply(r#"{"ok":false,"error":"channel_not_found"}"#);
    assert!(matches!(out, Some(Err(SlackError::Request(e))) if e == "channel_not_found"));
    let out = decode_reactions_reply(r#"{"ok":false,"error":"message_not_found"}"#);
    assert!(matches!(out, Some(Err(SlackError::Request(e))) if e == "message_not_found"));
}

#[test]
fn a_reply_without_a_status_is_an_error() {
    for text in [r#"{}"#, r#"{"ok":"true","channel":"D1","ts":"1"}"#, r#"[true]"#, r#"null"#] {
        let out = decode_send_reply(text);
        assert!(matches!(out, Some(Err(SlackError::Other("response without status code")))));
        let out = decode_reactions_reply(text);
        assert!(matches!(out, Some(Err(SlackError::Other("response without status code")))));
    }
}

#[test]
fn a_reply_that_is_no_json_has_no_meaning() {
    for text in ["", "ok", r#"{"ok":true"#, r#"{"ok":true,}"#] {
        assert!(decode_send_reply(text).is_none());
        assert!(decode_reactions_reply(text).is_none());
    }
}

#[test]
fn a_broken_reply_has_no_meaning() {
    assert!(decode_send_reply(r#"{"ok":true,"ts":"1"}"#).is_none());
    assert!(decode_send_reply(r#"{"ok":true,"channel":"D1"}"#).is_none());
    assert!(decode_send_reply(r#"{"ok":true,"channel":"D1","ts":17}"#).is_none());
    assert!(decode_send_reply(r#"{"ok":false}"#).is_none());
    assert!(decode_reactions_reply(r#"{"ok":false,"error":404}"#).is_none());
}

#[test]
fn reactions_are_handed_on_item_by_item() {
    let text = r#"{"ok":true,"message":{"reactions":[{"name":"a","users":["U1"]},{"name":"b","users":[]}]}}"#;
    match decode_reactions_reply(text) {
        Some(Ok(items)) => {
            assert_eq!(items.len(), 2);
            let first: serde_json::Value = serde_json::from_str(&items[0]).unwrap();
            assert_eq!(first["name"].as_str(), Some("a"));
            assert_eq!(first["users"][0].as_str(), Some("U1"));
            let second: serde_json::Value = serde_json::from_str(&items[1]).unwrap();
            assert_eq!(second["name"].as_str(), Some("b"));
        }
        other => panic!("unexpected: {other:?}"),
    }
    let out = decode_reactions_reply(r#"{"ok":true,"message":{"reactions":[]}}"#);
    assert!(matches!(out, Some(Ok(items)) if items.is_empty()));
}

#[test]
fn a_message_without_reactions_is_an_error() {
    for text in [
        r#"{"ok":true,"message":{"text":"hello"}}"#,
        r#"{"ok":true}"#,
        r#"{"ok":true,"message":{"reactions":{"name":"a"}}}"#,
        r#"{"ok":true,"reactions":[]}"#,
    ] {
        let out = decode_reactions_reply(text);
        assert!(matches!(out, Some(Err(SlackError::Other("no reactions")))));
    }
}

#[test]
fn reading_goes_by_the_parts_alone() {
    let out = interpret_send(RawReply {
        ok: Some(true),
        channel: Some("D9".to_string()),
        ts: Some("3.5".to_string()),
        error: Some("ignored".to_string()),
        ..reply()
    });
    assert!(matches!(out, Some(Ok(id)) if id == MessageIdentifier::new("D9".to_string(), "3.5".to_string())));
    let out = interpret_send(RawReply { ok: Some(false), error: Some("nope".to_string()), ..reply() });
    assert!(matches!(out, Some(Err(SlackError::Request(e))) if e == "nope"));
    assert!(matches!(
        interpret_send(reply()),
        Some(Err(SlackError::Other("response without status code")))
    ));
    assert!(interpret_send(RawReply { ok: Some(true), ..reply() }).is_none());
    assert!(interpret_send(RawReply { ok: Some(false), ..reply() }).is_none());

    let out = interpret_reactions(RawReply {
        ok: Some(true),
        reactions: Some(vec!["{}".to_string()]),
        ..reply()
    });
    assert!(matches!(out, Some(Ok(items)) if items == vec!["{}".to_string()]));
    let out = interpret_reactions(RawReply { ok: Some(true), ..reply() });
    assert!(matches!(out, Some(Err(SlackError::Other("no reactions")))));
    assert!(interpret_reactions(RawReply { ok: Some(false), ..reply() }).is_none());
}

#[test]
fn decoded_reactions_are_gathered_in_order() {
    let other = Reaction::new("eyes".to_string(), Vec::new());
    let out = gather_reactions(vec![Some(thumbs()), Some(other.clone())]);
    assert!(matches!(out, Ok(all) if all == vec![thumbs(), other]));
    assert!(matches!(gather_reactions(Vec::new()), Ok(all) if all.is_empty()));
}

#[test]
fn one_reaction_that_cannot_be_decoded_spoils_the_reply() {
    for items in [vec![None], vec![Some(thumbs()), None], vec![None, Some(thumbs())]] {
        let out = gather_reactions(items);
        assert!(matches!(out, Err(SlackError::Other("reaction parsing error!"))));
    }
}

#[test]
fn transport_errors_carry_their_text() {
    let sent = SlackError::Send("connection refused".to_string());
    let decoded = SlackError::Decode("body is not text".to_string());
    assert_eq!(format!("{sent:?}"), r#"Send("connection refused")"#);
    assert_eq!(format!("{decoded:?}"), r#"Decode("body is not text")"#);
}

#[test]
fn the_parts_of_a_reply_go_by_slacks_names() {
    let keys = slack_bot::slack::slack_keys();
    assert_eq!(
        [keys.ok, keys.channel, keys.ts, keys.error, keys.message, keys.reactions],
        ["ok", "channel", "ts", "error", "message", "reactions"]
    );
    let swapped = r#"{"ok":true,"channel":"D1","ts":"9.5","error":"x","message":{"reactions":["r"]}}"#;
    assert!(matches!(decode_send_reply(swapped), Some(Ok(id)) if id.channel() == "D1" && id.ts() == "9.5"));
    assert!(matches!(decode_reactions_reply(swapped), Some(Ok(items)) if items == vec![r#""r""#.to_string()]));
}
