//! Answers that arrive in pieces.

use ds_free_api::call_ids::CallIds;
use ds_free_api::stream::{
    make_end_chunk, PollStart, StreamEnd, ToolCallStream, ToolParseState, MAX_XML_BUF_LEN,
};
use ds_free_api::tool_parser::{parse_tool_calls_with, TagConfig};
use ds_free_api::types::{ChatCompletionsResponseChunk, ChunkChoice, Delta};
use std::sync::Arc;

fn new_stream(names: &[&str]) -> ToolCallStream {
    let tool_names = names.iter().map(|s| s.to_string()).collect();
    ToolCallStream::new("m".to_string(), Arc::new(TagConfig { tool_names }))
}

fn chunk(content: Option<&str>, finish: Option<&'static str>) -> ChatCompletionsResponseChunk {
    ChatCompletionsResponseChunk {
        id: "id".to_string(),
        object: "chat.completion.chunk",
        created: 7,
        model: "m".to_string(),
        choices: vec![
            ChunkChoice {
                index: 0,
                delta: Delta {
                    role: Some("assistant".to_string()),
                    content: content.map(|s| s.to_string()),
                    tool_calls: None,
                },
                finish_reason: finish,
                logprobs: None,
            },
            ChunkChoice {
                index: 1,
                delta: Delta::default(),
                finish_reason: Some("length"),
                logprobs: None,
            },
        ],
        usage: None,
        service_tier: None,
        system_fingerprint: Some("f".to_string()),
    }
}

fn content(c: &ChatCompletionsResponseChunk) -> Option<&str> {
    c.choices[0].delta.content.as_deref()
}

fn calls(c: &ChatCompletionsResponseChunk) -> Vec<(String, String, u32)> {
    match &c.choices[0].delta.tool_calls {
        Some(list) => list
            .iter()
            .map(|t| {
                let f = t.function.as_ref().unwrap();
                (f.name.clone(), f.arguments.clone(), t.index)
            })
            .collect(),
        None => vec![],
    }
}

fn made(list: &[(&str, &str, u32)]) -> Vec<(String, String, u32)> {
    list.iter().map(|(n, a, i)| (n.to_string(), a.to_string(), *i)).collect()
}

fn held(s: &ToolCallStream) -> String {
    match &s.state {
        ToolParseState::Normal { buffer } => buffer.clone(),
        ToolParseState::Suppressing { body, tool_name: _, open_tag } => format!("{open_tag}{body}"),
    }
}

#[test]
fn plain_text_passes_through() {
    let mut ids = CallIds::new();
    let mut s = new_stream(&["get_weather"]);
    let out = s.on_chunk(chunk(Some("hello"), None), &mut ids).unwrap();
    assert_eq!(content(&out), Some("hello"));
    assert_eq!(out.id, "id");
    assert_eq!(out.created, 7);
    assert_eq!(out.choices.len(), 2);
    assert_eq!(out.choices[0].delta.role.as_deref(), Some("assistant"));
    assert_eq!(out.choices[1].finish_reason, Some("length"));
    assert_eq!(out.system_fingerprint.as_deref(), Some("f"));
    assert_eq!(held(&s), "");
}

#[test]
fn a_cut_tag_is_held_back() {
    let mut ids = CallIds::new();
    let mut s = new_stream(&["get_weather"]);
    let out = s.on_chunk(chunk(Some("你好 <get_"), None), &mut ids).unwrap();
    assert_eq!(content(&out), Some("你好 "));
    assert_eq!(held(&s), "<get_");
    assert!(s.on_chunk(chunk(Some("wea"), None), &mut ids).is_none());
    assert_eq!(held(&s), "<get_wea");
    let out = s.on_chunk(chunk(Some("ring"), None), &mut ids).unwrap();
    assert_eq!(content(&out), Some("<get_wearing"));
    assert_eq!(held(&s), "");
}

#[test]
fn an_element_in_pieces_gives_its_call() {
    let whole = "好的。<get_weather>{\"city\": \"北京\"}</get_weather>";
    for step in 1..whole.chars().count() + 1 {
        let mut ids = CallIds::new();
        let mut s = new_stream(&["get_weather"]);
        let mut made = vec![];
        let mut shown = String::new();
        let chars: Vec<char> = whole.chars().collect();
        for piece in chars.chunks(step) {
            let piece: String = piece.iter().collect();
            if let Some(out) = s.on_chunk(chunk(Some(&piece), None), &mut ids) {
                made.extend(calls(&out));
                shown.push_str(content(&out).unwrap_or(""));
            }
        }
        let out = s.on_chunk(chunk(None, Some("stop")), &mut ids).unwrap();
        made.extend(calls(&out));
        shown.push_str(content(&out).unwrap_or(""));
        assert_eq!(out.choices[0].finish_reason, Some("tool_calls"));
        assert_eq!(made, [("get_weather".to_string(), "{\"city\":\"北京\"}".to_string(), 0)]);
        assert_eq!(shown, "好的。");
        assert!(matches!(s.try_on_end(&mut ids), Some(StreamEnd::Done)));
    }
}

#[test]
fn no_text_is_lost() {
    let mut ids = CallIds::new();
    let mut s = new_stream(&["a", "bc"]);
    let mut seen = String::new();
    for piece in ["x <", "b", "c d", " <a ", "> <", "b>", " y <bc"] {
        if let Some(out) = s.on_chunk(chunk(Some(piece), None), &mut ids) {
            seen.push_str(content(&out).unwrap_or(""));
        }
    }
    assert_eq!(format!("{}{}", seen, held(&s)), "x <bc d <a > <b> y <bc");
}

#[test]
fn text_before_a_call_is_shown_and_text_after_it_is_kept() {
    let mut ids = CallIds::new();
    let mut s = new_stream(&["a"]);
    let out = s.on_chunk(chunk(Some("before<a>{\"x\""), None), &mut ids).unwrap();
    assert_eq!(content(&out), Some("before"));
    assert_eq!(held(&s), "<a>{\"x\"");
    let out = s.on_chunk(chunk(Some(":1}</a>after"), None), &mut ids).unwrap();
    assert_eq!(content(&out), None);
    assert_eq!(calls(&out), [("a".to_string(), "{\"x\":1}".to_string(), 0)]);
    assert_eq!(held(&s), "after");
    let out = s.on_chunk(chunk(Some("<a>"), None), &mut ids).unwrap();
    assert_eq!(content(&out), Some("after"));
    let out = s.on_chunk(chunk(Some("{}</a>"), None), &mut ids).unwrap();
    assert_eq!(calls(&out), [("a".to_string(), "{}".to_string(), 1)]);
    assert_eq!(out.choices[0].delta.tool_calls.as_ref().unwrap()[0].id, "call_0000000000000002");
    let out = s.on_chunk(chunk(None, Some("stop")), &mut ids).unwrap();
    assert_eq!(out.choices[0].finish_reason, Some("tool_calls"));
    assert!(matches!(s.try_on_end(&mut ids), Some(StreamEnd::Done)));
}

#[test]
fn an_unreadable_element_is_to_be_mended() {
    let mut ids = CallIds::new();
    let mut s = new_stream(&["a"]);
    s.on_chunk(chunk(Some("<a>"), None), &mut ids).unwrap();
    let out = s.on_chunk(chunk(Some("oops</ a>z"), None), &mut ids).unwrap();
    assert_eq!(content(&out), None);
    assert!(calls(&out).is_empty());
    assert_eq!(s.take_repair().as_deref(), Some("<a>oops</ a>"));
    assert!(s.take_repair().is_none());
    assert_eq!(held(&s), "z");
    assert_eq!(ids.next, 1);
}

#[test]
fn an_unreadable_element_at_the_finish_is_to_be_mended() {
    let mut ids = CallIds::new();
    let mut s = new_stream(&["a"]);
    s.on_chunk(chunk(Some("<a>oops"), None), &mut ids).unwrap();
    let out = s.on_chunk(chunk(None, Some("stop")), &mut ids).unwrap();
    assert_eq!(out.choices[0].finish_reason, Some("stop"));
    assert_eq!(s.take_repair().as_deref(), Some("<a>oops</a>"));
    assert!(!s.finish_emitted);
}

#[test]
fn too_long_an_element_is_text() {
    let mut ids = CallIds::new();
    let mut s = new_stream(&["a"]);
    s.on_chunk(chunk(Some("<a>"), None), &mut ids).unwrap();
    let fits = "x".repeat(MAX_XML_BUF_LEN);
    assert!(s.on_chunk(chunk(Some(&fits), None), &mut ids).is_none());
    let out = s.on_chunk(chunk(Some("y"), None), &mut ids).unwrap();
    assert_eq!(content(&out), Some(format!("<a>{fits}y").as_str()));
    assert_eq!(held(&s), "");
}

#[test]
fn chunks_without_text_pass_unchanged() {
    let mut ids = CallIds::new();
    let mut s = new_stream(&["a"]);
    let mut empty = chunk(None, None);
    empty.choices.clear();
    assert!(s.on_chunk(empty, &mut ids).unwrap().choices.is_empty());
    assert_eq!(content(&s.on_chunk(chunk(Some(""), None), &mut ids).unwrap()), Some(""));
    assert_eq!(content(&s.on_chunk(chunk(None, None), &mut ids).unwrap()), None);
    s.on_chunk(chunk(Some("<a>"), None), &mut ids).unwrap();
    assert_eq!(content(&s.on_chunk(chunk(None, None), &mut ids).unwrap()), None);
    assert_eq!(held(&s), "<a>");
}

#[test]
fn held_text_comes_with_the_finish() {
    let mut ids = CallIds::new();
    let mut s = new_stream(&["a"]);
    assert!(s.on_chunk(chunk(Some("<"), None), &mut ids).is_none());
    let out = s.on_chunk(chunk(None, Some("stop")), &mut ids).unwrap();
    assert_eq!(content(&out), Some("<"));
    assert_eq!(out.choices[0].finish_reason, Some("stop"));
    assert!(s.finish_emitted);
}

#[test]
fn an_end_without_a_finish_is_finished() {
    let mut ids = CallIds::new();
    let mut s = new_stream(&["a"]);
    match s.try_on_end(&mut ids) {
        Some(StreamEnd::Chunk(c)) => {
            assert_eq!(c.id, "chatcmpl-end");
            assert_eq!(c.model, "m");
            assert_eq!(c.choices[0].finish_reason, Some("stop"));
            assert_eq!(content(&c), None);
        }
        other => panic!("{:?}", other),
    }
    assert!(matches!(s.try_on_end(&mut ids), Some(StreamEnd::Done)));
}

#[test]
fn an_end_with_held_text_gives_the_text() {
    let mut ids = CallIds::new();
    let mut s = new_stream(&["a"]);
    assert!(s.on_chunk(chunk(Some("<a "), None), &mut ids).is_none());
    match s.try_on_end(&mut ids) {
        Some(StreamEnd::Chunk(c)) => {
            assert_eq!(content(&c), Some("<a "));
            assert_eq!(c.choices[0].finish_reason, Some("stop"));
        }
        other => panic!("{:?}", other),
    }
    assert!(matches!(s.try_on_end(&mut ids), Some(StreamEnd::Chunk(_))));
    assert!(matches!(s.try_on_end(&mut ids), Some(StreamEnd::Done)));
}

#[test]
fn an_end_with_a_held_element_gives_its_calls() {
    let mut ids = CallIds::new();
    let mut s = new_stream(&["a"]);
    s.on_chunk(chunk(Some("<a>"), None), &mut ids).unwrap();
    s.on_chunk(chunk(Some("{}</a><a>{\"x\":1}</a>"), None), &mut ids).unwrap();
    match s.try_on_end(&mut ids) {
        Some(StreamEnd::Chunk(c)) => {
            assert_eq!(calls(&c), [("a".to_string(), "{\"x\":1}".to_string(), 0)]);
            assert_eq!(content(&c), None);
            assert_eq!(c.choices[0].finish_reason, Some("tool_calls"));
        }
        other => panic!("{:?}", other),
    }
    assert!(matches!(s.try_on_end(&mut ids), Some(StreamEnd::Done)));
}

#[test]
fn an_end_within_an_element_gives_its_call_or_its_text() {
    let mut ids = CallIds::new();
    let mut s = new_stream(&["a"]);
    s.on_chunk(chunk(Some("<a>{\"x\":1}"), None), &mut ids).unwrap();
    match s.try_on_end(&mut ids) {
        Some(StreamEnd::Chunk(c)) => {
            assert_eq!(calls(&c), [("a".to_string(), "{\"x\":1}".to_string(), 0)])
        }
        other => panic!("{:?}", other),
    }
    let mut s = new_stream(&["a"]);
    s.on_chunk(chunk(Some("<a>oops"), None), &mut ids).unwrap();
    match s.try_on_end(&mut ids) {
        Some(StreamEnd::Repair(t)) => assert_eq!(t, "<a>oops</a>"),
        other => panic!("{:?}", other),
    }
}

#[test]
fn an_end_that_cannot_be_read_is_told() {
    let mut ids = CallIds::new();
    let mut s = new_stream(&["a"]);
    s.state = ToolParseState::Normal {
        buffer: "\u{130}<invoke name=\"t\">\u{4f60}</invoke>".to_string(),
    };
    assert!(!s.can_end());
    assert!(s.try_on_end(&mut ids).is_none());
    s.state = ToolParseState::Normal { buffer: String::new() };
    assert!(s.can_end());
}

#[test]
fn signs_of_life_come_within_an_element() {
    let mut ids = CallIds::new();
    let mut s = new_stream(&["a"]);
    assert!(!s.keepalive_due(5));
    s.on_chunk(chunk(Some("<a>"), None), &mut ids).unwrap();
    assert!(!s.keepalive_due(0));
    assert!(s.keepalive_due(1));
    let c = s.keepalive_chunk();
    assert_eq!(c.id, "chatcmpl-keepalive");
    assert_eq!(c.model, "m");
    assert_eq!(calls(&c), [(String::new(), String::new(), 0)]);
    assert_eq!(c.choices[0].finish_reason, None);
}

#[test]
fn closing_chunks_have_one_choice() {
    let c = make_end_chunk("x", Delta::default(), "length");
    assert_eq!((c.object, c.created, c.model.as_str()), ("chat.completion.chunk", 0, "x"));
    assert_eq!(c.choices.len(), 1);
    assert_eq!(c.choices[0].finish_reason, Some("length"));
}

#[test]
fn a_poll_begins_with_what_is_due() {
    let mut ids = CallIds::new();
    let mut s = new_stream(&["a"]);
    assert!(matches!(s.begin_poll(true, 9), PollStart::Next));
    s.on_chunk(chunk(Some("<a>"), None), &mut ids).unwrap();
    assert!(matches!(s.begin_poll(true, 0), PollStart::Next));
    match s.begin_poll(true, 1) {
        PollStart::Keepalive(c) => assert_eq!(c.id, "chatcmpl-keepalive"),
        other => panic!("{:?}", other),
    }
    s.on_chunk(chunk(Some("?</a><a>"), None), &mut ids).unwrap();
    assert!(matches!(s.begin_poll(false, 9), PollStart::Next));
    match s.begin_poll(true, 9) {
        PollStart::Repair(t) => assert_eq!(t, "<a>?</a>"),
        other => panic!("{:?}", other),
    }
    assert!(matches!(s.begin_poll(true, 9), PollStart::Next));
}

#[test]
fn two_calls_in_one_chunk_come_with_the_finish() {
    let mut ids = CallIds::new();
    let mut s = new_stream(&["a", "b"]);
    let mut all = vec![];
    let mut shown = String::new();
    for c in [chunk(Some("<a>{}</a><b>{}</b>"), None), chunk(None, Some("stop"))] {
        if let Some(out) = s.on_chunk(c, &mut ids) {
            all.extend(calls(&out));
            shown.push_str(content(&out).unwrap_or(""));
            if out.choices[0].finish_reason.is_some() {
                assert_eq!(out.choices[0].finish_reason, Some("tool_calls"));
            }
        }
    }
    assert_eq!(all, made(&[("a", "{}", 0), ("b", "{}", 1)]));
    assert_eq!(shown, "");
    assert!(s.finish_emitted);
    assert_eq!(held(&s), "");
    assert!(matches!(s.try_on_end(&mut ids), Some(StreamEnd::Done)));
}

#[test]
fn several_calls_cut_anyhow_are_all_made() {
    let whole = "先看<a>{\"x\":1}</a>, 再看<b>{}</b>\n<a>{\"y\":2}</a>完";
    let chars: Vec<char> = whole.chars().collect();
    let want = made(&[("a", "{\"x\":1}", 0), ("b", "{}", 1), ("a", "{\"y\":2}", 2)]);
    for step in 1..chars.len() + 1 {
        for finish in [true, false] {
            let mut ids = CallIds::new();
            let mut s = new_stream(&["a", "b"]);
            let mut all = vec![];
            let mut shown = String::new();
            let mut last = None;
            for piece in chars.chunks(step) {
                let piece: String = piece.iter().collect();
                if let Some(out) = s.on_chunk(chunk(Some(&piece), None), &mut ids) {
                    all.extend(calls(&out));
                    shown.push_str(content(&out).unwrap_or(""));
                }
            }
            if finish {
                let out = s.on_chunk(chunk(None, Some("stop")), &mut ids).unwrap();
                all.extend(calls(&out));
                shown.push_str(content(&out).unwrap_or(""));
                last = out.choices[0].finish_reason;
            }
            while let Some(StreamEnd::Chunk(out)) = s.try_on_end(&mut ids) {
                all.extend(calls(&out));
                shown.push_str(content(&out).unwrap_or(""));
                last = out.choices[0].finish_reason;
            }
            if finish {
                assert_eq!(all, want);
            } else {
                let unnumbered = |l: &Vec<(String, String, u32)>| -> Vec<(String, String)> {
                    l.iter().map(|c| (c.0.clone(), c.1.clone())).collect()
                };
                assert_eq!(unnumbered(&all), unnumbered(&want));
            }
            assert_eq!(shown, "先看, 再看\n完");
            assert_eq!(last, Some("tool_calls"));
            assert!(s.take_repair().is_none());
            assert_eq!(ids.next, 4);
        }
    }
}

#[test]
fn a_text_and_its_stream_are_read_alike() {
    let whole = "x<a>{\"x\":1}</a>, <b></b>y<a>{k: 2}";
    let config = TagConfig { tool_names: vec!["a".to_string(), "b".to_string()] };
    let (list, rest) = parse_tool_calls_with(whole, &config, &mut CallIds::new()).unwrap();
    let read: Vec<(String, String, u32)> = list
        .iter()
        .map(|t| {
            let f = t.function.as_ref().unwrap();
            (f.name.clone(), f.arguments.clone(), t.index)
        })
        .collect();
    assert_eq!(read, made(&[("a", "{\"x\":1}", 0), ("b", "{}", 1), ("a", "{\"k\":2}", 2)]));
    assert_eq!(rest, "x, y");
    let mut ids = CallIds::new();
    let mut s = new_stream(&["a", "b"]);
    let first = s.on_chunk(chunk(Some(whole), None), &mut ids).unwrap();
    let last = s.on_chunk(chunk(None, Some("stop")), &mut ids).unwrap();
    assert_eq!(content(&first), Some("x"));
    assert_eq!(content(&last), Some(", y"));
    assert_eq!(calls(&last), read);
}

#[test]
fn the_finish_reads_up_to_an_element_to_be_mended() {
    let mut ids = CallIds::new();
    let mut s = new_stream(&["a"]);
    s.on_chunk(chunk(Some("x<a>{}</a>y<a>oops</a>z<a>{}</a>"), None), &mut ids).unwrap();
    let out = s.on_chunk(chunk(None, Some("stop")), &mut ids).unwrap();
    assert_eq!(calls(&out), made(&[("a", "{}", 0)]));
    assert_eq!(content(&out), Some("y"));
    assert_eq!(out.choices[0].finish_reason, Some("tool_calls"));
    assert!(!s.finish_emitted);
    assert_eq!(held(&s), "z<a>{}</a>");
    match s.begin_poll(true, 0) {
        PollStart::Repair(t) => assert_eq!(t, "<a>oops</a>"),
        other => panic!("{:?}", other),
    }
    match s.try_on_end(&mut ids) {
        Some(StreamEnd::Chunk(c)) => {
            assert_eq!(calls(&c), made(&[("a", "{}", 0)]));
            assert_eq!(content(&c), Some("z"));
            assert_eq!(c.choices[0].finish_reason, Some("tool_calls"));
        }
        other => panic!("{:?}", other),
    }
    assert!(matches!(s.try_on_end(&mut ids), Some(StreamEnd::Done)));
}

#[test]
fn an_invocation_in_the_text_at_the_end_is_read() {
    let mut ids = CallIds::new();
    let mut s = new_stream(&["a"]);
    s.on_chunk(chunk(Some("<a>"), None), &mut ids).unwrap();
    s.on_chunk(
        chunk(
            Some("{}</a>note <invoke name=\"t\"><parameter name=\"k\">v</parameter></invoke>"),
            None,
        ),
        &mut ids,
    )
    .unwrap();
    match s.try_on_end(&mut ids) {
        Some(StreamEnd::Chunk(c)) => {
            assert_eq!(calls(&c), made(&[("t", "{\"k\":\"v\"}", 0)]));
            assert_eq!(content(&c), Some("note "));
            assert_eq!(c.choices[0].finish_reason, Some("tool_calls"));
        }
        other => panic!("{:?}", other),
    }
    assert!(matches!(s.try_on_end(&mut ids), Some(StreamEnd::Done)));
}

#[test]
fn an_answer_without_tags_is_only_delayed() {
    let whole = "1 < 2, <b>粗</b> <a";
    let chars: Vec<char> = whole.chars().collect();
    for step in 1..chars.len() + 1 {
        for finish in [true, false] {
            let mut ids = CallIds::new();
            let mut s = new_stream(&["abc"]);
            let mut shown = String::new();
            for piece in chars.chunks(step) {
                let piece: String = piece.iter().collect();
                if let Some(out) = s.on_chunk(chunk(Some(&piece), None), &mut ids) {
                    shown.push_str(content(&out).unwrap_or(""));
                }
            }
            if finish {
                let out = s.on_chunk(chunk(None, Some("stop")), &mut ids).unwrap();
                shown.push_str(content(&out).unwrap_or(""));
                assert_eq!(out.choices[0].finish_reason, Some("stop"));
            }
            while let Some(StreamEnd::Chunk(out)) = s.try_on_end(&mut ids) {
                assert!(calls(&out).is_empty());
                shown.push_str(content(&out).unwrap_or(""));
            }
            assert_eq!(shown, whole);
            assert!(!s.has_tool_calls);
            assert_eq!(ids.next, 1);
        }
    }
}

#[test]
fn text_at_the_end_is_parsed_like_a_whole_answer() {
    for kept in ["```<b>{}</b>```", "<b>oops</b>"] {
        let mut ids = CallIds::new();
        let mut s = new_stream(&["a", "b"]);
        s.on_chunk(chunk(Some("<a>"), None), &mut ids).unwrap();
        s.on_chunk(chunk(Some(&format!("{{}}</a>{kept}")), None), &mut ids).unwrap();
        match s.try_on_end(&mut ids) {
            Some(StreamEnd::Chunk(c)) => {
                assert!(calls(&c).is_empty());
                assert_eq!(content(&c), Some(kept));
                assert_eq!(c.choices[0].finish_reason, Some("tool_calls"));
            }
            other => panic!("{:?}", other),
        }
    }
}

#[test]
fn an_end_within_an_element_reads_what_follows_it() {
    let mut ids = CallIds::new();
    let mut s = new_stream(&["a", "b"]);
    s.on_chunk(chunk(Some("<a>{}</a>x<b>{}</b>y"), None), &mut ids).unwrap();
    match s.try_on_end(&mut ids) {
        Some(StreamEnd::Chunk(c)) => {
            assert_eq!(calls(&c), made(&[("a", "{}", 0), ("b", "{}", 1)]));
            assert_eq!(content(&c), Some("xy"));
            assert_eq!(c.choices[0].finish_reason, Some("tool_calls"));
        }
        other => panic!("{:?}", other),
    }
    assert!(matches!(s.try_on_end(&mut ids), Some(StreamEnd::Chunk(_))));
    assert!(matches!(s.try_on_end(&mut ids), Some(StreamEnd::Done)));
}
