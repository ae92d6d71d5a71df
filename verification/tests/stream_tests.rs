use hs_loop::json::Json;
use hs_loop::stream::{assemble_stream, stream_line, StreamAcc};

fn obj_keys(j: &Json) -> Vec<String> {
    match j {
        Json::Object(m) => m.iter().map(|(k, _)| k.clone()).collect(),
        _ => vec![],
    }
}

fn at<'a>(j: &'a Json, key: &str) -> &'a Json {
    match j {
        Json::Object(m) => &m.iter().find(|(k, _)| k == key).unwrap().1,
        _ => panic!("not an object"),
    }
}

fn text(j: &Json) -> String {
    match j {
        Json::Str(s) => s.clone(),
        _ => panic!("not text"),
    }
}

#[test]
fn stream_assembles_content_calls_and_usage() {
    let mut acc = StreamAcc::new();
    let lines = [
        "data: {\"choices\":[{\"delta\":{\"content\":\"Hel\",\"reasoning_content\":\"think \"}}]}",
        ": keep-alive",
        "data: {partial",
        "data: {\"choices\":[{\"delta\":{\"content\":\"lo\",\"tool_calls\":[{\"index\":1,\"id\":\"c1\",\"function\":{\"name\":\"term\",\"arguments\":\"{\\\"a\"}},{\"index\":0,\"id\":\"c0\",\"function\":{\"name\":\"x\",\"arguments\":\"\"}}]}}]}",
        "  data:  {\"choices\":[{\"delta\":{\"content\":\"\",\"tool_calls\":[{\"index\":1,\"function\":{\"arguments\":\"\\\":1}\"}}]},\"finish_reason\":\"tool_calls\"}],\"usage\":{\"prompt_tokens\":5}}",
        "data: [DONE]",
        "data: {\"choices\":[{\"delta\":{\"content\":\"late\"}}]}",
    ];
    let mut echoed: Vec<String> = vec![];
    for l in lines {
        echoed.extend(stream_line(&mut acc, l));
    }
    assert_eq!(echoed, vec!["Hel", "lo", "{\"a", "", "\":1}"]);
    assert!(acc.done);
    assert_eq!(acc.content, "Hello");
    assert_eq!(acc.reasoning, "think ");
    assert_eq!(acc.finish_reason, "tool_calls");
    assert!(acc.usage.is_some());
    let idx: Vec<u64> = acc.calls.iter().map(|c| c.index).collect();
    assert_eq!(idx, vec![0, 1]);
    assert_eq!(acc.calls[1].arguments, "{\"a\":1}");
    assert_eq!(acc.calls[1].id, "c1");
    let r = assemble_stream(&acc);
    assert_eq!(obj_keys(&r), vec!["choices"]);
    let ch = match at(&r, "choices") {
        Json::Array(a) => &a[0],
        _ => panic!("no choices"),
    };
    assert_eq!(text(at(ch, "finish_reason")), "tool_calls");
    let m = at(ch, "message");
    assert_eq!(obj_keys(m), vec!["content", "reasoning_content", "role", "tool_calls"]);
    assert_eq!(text(at(m, "content")), "Hello");
    assert_eq!(text(at(m, "role")), "assistant");
    match at(m, "tool_calls") {
        Json::Array(tcs) => {
            assert_eq!(tcs.len(), 2);
            assert_eq!(text(at(&tcs[1], "id")), "c1");
            assert_eq!(text(at(at(&tcs[1], "function"), "name")), "term");
            assert_eq!(text(at(at(&tcs[1], "function"), "arguments")), "{\"a\":1}");
            assert_eq!(text(at(&tcs[0], "type")), "function");
        }
        _ => panic!("no tool calls"),
    }
}

#[test]
fn an_empty_stream_assembles_an_empty_reply() {
    let acc = StreamAcc::new();
    let r = assemble_stream(&acc);
    let ch = match at(&r, "choices") {
        Json::Array(a) => &a[0],
        _ => panic!("no choices"),
    };
    assert_eq!(text(at(at(ch, "message"), "content")), "");
    assert_eq!(text(at(ch, "finish_reason")), "");
}
