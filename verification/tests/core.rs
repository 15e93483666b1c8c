use inlama::config::{apply_cli_overrides, CliOverrides, Config};
use inlama::parser::StreamParser;
use inlama::records::OllamaResponse;
use inlama::requests::{
    generate_first_request, generate_request, request_url, serialize_request, OllamaRequest,
};
use inlama::session::{InputAggregator, OutputTracker, SessionState};

fn test_config() -> Config {
    Config {
        stream: false,
        prompt: "sys".to_string(),
        buffer_time: 1,
        url: "http://localhost:11434".to_string(),
        model: "m1".to_string(),
        presets: vec![],
        debug: false,
    }
}

fn rec_eq(a: &OllamaResponse, b: &OllamaResponse) -> bool {
    a.model == b.model
        && a.created_at == b.created_at
        && a.response == b.response
        && a.done == b.done
        && a.context == b.context
}

fn feed_all(parser: &mut StreamParser, bytes: &[u8]) -> Vec<OllamaResponse> {
    parser.feed(&bytes.to_vec())
}

const REC1: &str = "{\"model\":\"m\",\"created_at\":\"t1\",\"response\":\"Hello \",\"done\":false}\n";
const REC2: &str =
    "{\"model\":\"m\",\"created_at\":\"t2\",\"response\":\"world\",\"done\":true,\"context\":[1,2,3]}\n";

#[test]
fn decodes_a_plain_record() {
    let mut p = StreamParser::new();
    let recs = feed_all(&mut p, REC1.as_bytes());
    assert_eq!(recs.len(), 1);
    assert_eq!(recs[0].model, "m");
    assert_eq!(recs[0].created_at, "t1");
    assert_eq!(recs[0].response, "Hello ");
    assert!(!recs[0].done);
    assert!(recs[0].context.is_empty());
}

#[test]
fn done_record_carries_context() {
    let mut p = StreamParser::new();
    let recs = feed_all(&mut p, REC2.as_bytes());
    assert_eq!(recs.len(), 1);
    assert!(recs[0].done);
    assert_eq!(recs[0].context, vec![1, 2, 3]);
    assert_eq!(p.finish(), vec![1, 2, 3]);
}

#[test]
fn fragmentation_invariance_at_every_boundary() {
    let stream = format!("{}{}", REC1, REC2);
    let bytes = stream.as_bytes();
    let mut whole = StreamParser::new();
    let expected = feed_all(&mut whole, bytes);
    let expected_ctx = whole.finish();
    for i in 0..=bytes.len() {
        let mut p = StreamParser::new();
        let mut got = feed_all(&mut p, &bytes[..i]);
        got.extend(feed_all(&mut p, &bytes[i..]));
        assert_eq!(got.len(), expected.len(), "split at {}", i);
        for (a, b) in got.iter().zip(expected.iter()) {
            assert!(rec_eq(a, b), "split at {}", i);
        }
        assert_eq!(p.finish(), expected_ctx, "split at {}", i);
    }
}

#[test]
fn garbage_line_between_records_is_skipped() {
    let stream = format!("{}not json at all{{{{\n{}", REC1, REC2);
    let mut p = StreamParser::new();
    let recs = feed_all(&mut p, stream.as_bytes());
    assert_eq!(recs.len(), 2);
    assert_eq!(recs[0].response, "Hello ");
    assert_eq!(recs[1].response, "world");
}

#[test]
fn invalid_utf8_line_is_skipped() {
    let mut bytes = REC1.as_bytes().to_vec();
    bytes.extend_from_slice(&[0xff, 0xfe, b'\n']);
    bytes.extend_from_slice(REC2.as_bytes());
    let mut p = StreamParser::new();
    let recs = p.feed(&bytes);
    assert_eq!(recs.len(), 2);
}

#[test]
fn truncated_final_record_is_dropped() {
    let stream = format!("{}{{\"model\":\"m\",\"created_at\":\"t3\",\"resp", REC2);
    let mut p = StreamParser::new();
    let recs = feed_all(&mut p, stream.as_bytes());
    assert_eq!(recs.len(), 1);
    assert_eq!(p.finish(), vec![1, 2, 3]);
}

#[test]
fn stream_without_done_yields_empty_context() {
    let mut p = StreamParser::new();
    let recs = feed_all(&mut p, REC1.as_bytes());
    assert_eq!(recs.len(), 1);
    assert_eq!(p.finish(), Vec::<i32>::new());
}

#[test]
fn later_done_record_wins() {
    let first = "{\"model\":\"m\",\"created_at\":\"t\",\"response\":\"a\",\"done\":true,\"context\":[7]}\n";
    let second = "{\"model\":\"m\",\"created_at\":\"t\",\"response\":\"b\",\"done\":true,\"context\":[8,9]}\n";
    let mut p = StreamParser::new();
    feed_all(&mut p, first.as_bytes());
    feed_all(&mut p, second.as_bytes());
    assert_eq!(p.finish(), vec![8, 9]);
}

#[test]
fn unknown_members_are_tolerated() {
    let line = "{\"model\":\"m\",\"created_at\":\"t\",\"response\":\"x\",\"done\":true,\
                \"context\":[4],\"done_reason\":\"stop\",\"total_duration\":123456,\
                \"eval_count\":null,\"load_duration\":1.5e3,\"tags\":[\"a\",-2,true]}\n";
    let mut p = StreamParser::new();
    let recs = feed_all(&mut p, line.as_bytes());
    assert_eq!(recs.len(), 1);
    assert_eq!(recs[0].context, vec![4]);
}

#[test]
fn string_escapes_are_decoded() {
    let line = "{\"model\":\"m\",\"created_at\":\"t\",\"response\":\"a\\n\\\"b\\\"\\t\\\\c\\u00e9\\ud83d\\ude00\",\"done\":false}\n";
    let mut p = StreamParser::new();
    let recs = feed_all(&mut p, line.as_bytes());
    assert_eq!(recs.len(), 1);
    assert_eq!(recs[0].response, "a\n\"b\"\t\\c\u{e9}\u{1f600}");
}

#[test]
fn lone_surrogate_rejects_the_line() {
    let line = "{\"model\":\"m\",\"created_at\":\"t\",\"response\":\"\\ud800\",\"done\":false}\n";
    let mut p = StreamParser::new();
    assert_eq!(feed_all(&mut p, line.as_bytes()).len(), 0);
}

#[test]
fn missing_required_member_rejects_the_line() {
    let line = "{\"model\":\"m\",\"created_at\":\"t\",\"done\":false}\n";
    let mut p = StreamParser::new();
    assert_eq!(feed_all(&mut p, line.as_bytes()).len(), 0);
}

#[test]
fn duplicate_member_rejects_the_line() {
    let line = "{\"model\":\"m\",\"model\":\"n\",\"created_at\":\"t\",\"response\":\"x\",\"done\":false}\n";
    let mut p = StreamParser::new();
    assert_eq!(feed_all(&mut p, line.as_bytes()).len(), 0);
}

#[test]
fn negative_and_bounded_context_values() {
    let line = "{\"model\":\"m\",\"created_at\":\"t\",\"response\":\"\",\"done\":true,\
                \"context\":[-2147483648,2147483647,0,-1]}\n";
    let mut p = StreamParser::new();
    let recs = feed_all(&mut p, line.as_bytes());
    assert_eq!(recs.len(), 1);
    assert_eq!(recs[0].context, vec![i32::MIN, i32::MAX, 0, -1]);
}

#[test]
fn out_of_range_context_value_rejects_the_line() {
    let line = "{\"model\":\"m\",\"created_at\":\"t\",\"response\":\"\",\"done\":true,\
                \"context\":[2147483648]}\n";
    let mut p = StreamParser::new();
    assert_eq!(feed_all(&mut p, line.as_bytes()).len(), 0);
}

#[test]
fn whitespace_between_tokens_is_tolerated() {
    let line = "  { \"model\" : \"m\" , \"created_at\" : \"t\" , \"response\" : \"x\" , \"done\" : true , \"context\" : [ 1 , 2 ] }  \n";
    let mut p = StreamParser::new();
    let recs = feed_all(&mut p, line.as_bytes());
    assert_eq!(recs.len(), 1);
    assert_eq!(recs[0].context, vec![1, 2]);
}

#[test]
fn serializes_a_first_request_exactly() {
    let config = test_config();
    let req = generate_first_request("hi", &config);
    let body = serialize_request(&req);
    assert_eq!(
        body,
        "{\"model\":\"m1\",\"prompt\":\"hi\",\"system\":\"sys\",\"stream\":true}"
    );
}

#[test]
fn serializes_a_continuation_request_exactly() {
    let config = test_config();
    let ctx = vec![5, -6, 7];
    let req = generate_request("hi", &config, &ctx);
    let body = serialize_request(&req);
    assert_eq!(
        body,
        "{\"model\":\"m1\",\"prompt\":\"hi\",\"system\":\"sys\",\"context\":[5,-6,7],\"stream\":true}"
    );
}

#[test]
fn absent_context_writes_no_context_member() {
    let config = test_config();
    let req = generate_first_request("p", &config);
    let body = serialize_request(&req);
    assert!(!body.contains("context"));
}

#[test]
fn absent_and_empty_context_differ_on_the_wire() {
    let config = test_config();
    let absent = serialize_request(&generate_first_request("p", &config));
    let empty_ctx: Vec<i32> = vec![];
    let empty = serialize_request(&generate_request("p", &config, &empty_ctx));
    assert_ne!(absent, empty);
    assert!(empty.contains("\"context\":[]"));
}

#[test]
fn request_escapes_its_strings() {
    let config = Config {
        prompt: "a\"b\\c\nd\u{7}".to_string(),
        ..test_config()
    };
    let req = generate_first_request("x\ny", &config);
    let body = serialize_request(&req);
    assert_eq!(
        body,
        "{\"model\":\"m1\",\"prompt\":\"x\\ny\",\"system\":\"a\\\"b\\\\c\\nd\\u0007\",\"stream\":true}"
    );
}

#[test]
fn request_url_is_the_generate_endpoint() {
    assert_eq!(request_url("http://h:1"), "http://h:1/api/generate");
}

#[test]
fn aggregator_joins_lines_in_order_without_trailing_separator() {
    let mut agg = InputAggregator::new();
    agg.push_line("one".to_string());
    agg.push_line("two".to_string());
    agg.push_line("three".to_string());
    let turn = agg.flush();
    assert_eq!(turn, Some("one\ntwo\nthree".to_string()));
}

#[test]
fn debounce_window_produces_exactly_one_turn() {
    // Three lines arrive inside one debounce window; the boundary that
    // follows the quiet gap flushes them as one turn, and the next empty
    // boundary produces none.
    let mut agg = InputAggregator::new();
    agg.push_line("l1".to_string());
    agg.push_line("l2".to_string());
    agg.push_line("l3".to_string());
    assert_eq!(agg.flush(), Some("l1\nl2\nl3".to_string()));
    assert_eq!(agg.flush(), None);
}

#[test]
fn single_line_turn_has_no_separator() {
    let mut agg = InputAggregator::new();
    agg.push_line("only".to_string());
    assert_eq!(agg.flush(), Some("only".to_string()));
}

#[test]
fn turn_prompt_is_the_joined_body() {
    let config = test_config();
    let mut agg = InputAggregator::new();
    agg.push_line("L1".to_string());
    agg.push_line("L2".to_string());
    agg.push_line("L3".to_string());
    let body = agg.flush().unwrap();
    let mut session = SessionState::new();
    assert!(session.is_idle());
    let req = session.begin_turn(&body, &config);
    assert_eq!(req.prompt, "L1\nL2\nL3");
    assert!(req.context.is_none());
}

#[test]
fn session_threads_context_between_turns() {
    let config = test_config();
    let mut session = SessionState::new();
    let first = session.begin_turn("a", &config);
    assert!(first.context.is_none());
    assert!(!session.is_idle());
    session.complete_turn(vec![1, 2]);
    assert!(session.is_idle());
    let second = session.begin_turn("b", &config);
    assert_eq!(second.context, Some(vec![1, 2]));
    session.complete_turn(vec![3]);
    let third = session.begin_turn("c", &config);
    assert_eq!(third.context, Some(vec![3]));
}

#[test]
fn failed_turn_keeps_the_old_context() {
    let config = test_config();
    let mut session = SessionState::new();
    session.begin_turn("a", &config);
    session.complete_turn(vec![9]);
    session.begin_turn("b", &config);
    session.fail_turn();
    assert!(session.is_idle());
    let req = session.begin_turn("c", &config);
    assert_eq!(req.context, Some(vec![9]));
}

#[test]
fn output_tracker_decides_the_final_newline() {
    let mut t = OutputTracker::new();
    assert!(!t.needs_final_newline());
    t.note("hello");
    assert!(t.needs_final_newline());
    t.note(" world\n");
    assert!(!t.needs_final_newline());
    let mut u = OutputTracker::new();
    u.note("");
    assert!(!u.needs_final_newline());
}

#[test]
fn default_config_values() {
    let c = Config::default();
    assert!(!c.stream);
    assert_eq!(c.prompt, "Generate a one line summary of the following text.");
    assert_eq!(c.buffer_time, 1);
    assert_eq!(c.url, "http://localhost:11434");
    assert_eq!(c.model, "llama3.2");
    assert_eq!(c.presets.len(), 1);
    assert!(!c.debug);
}

#[test]
fn cli_overrides_respect_their_sentinels() {
    let file = Config {
        stream: false,
        prompt: "file prompt".to_string(),
        buffer_time: 9,
        url: "http://file:1".to_string(),
        model: "file-model".to_string(),
        presets: vec![],
        debug: false,
    };
    let cli = CliOverrides {
        stream: true,
        prompt: "Generate a one line summary of the following text.".to_string(),
        buffer_time: 1,
        url: "http://localhost:11434".to_string(),
        model: "llama3".to_string(),
        debug: true,
    };
    let merged = apply_cli_overrides(file, cli);
    assert!(merged.stream);
    assert!(merged.debug);
    assert_eq!(merged.prompt, "file prompt");
    assert_eq!(merged.buffer_time, 9);
    assert_eq!(merged.url, "http://file:1");
    assert_eq!(merged.model, "file-model");
}

#[test]
fn cli_overrides_win_when_not_the_sentinel() {
    let file = Config::default();
    let cli = CliOverrides {
        stream: false,
        prompt: "custom".to_string(),
        buffer_time: 3,
        url: "http://other:2".to_string(),
        model: "mx".to_string(),
        debug: false,
    };
    let merged = apply_cli_overrides(file, cli);
    assert_eq!(merged.prompt, "custom");
    assert_eq!(merged.buffer_time, 3);
    assert_eq!(merged.url, "http://other:2");
    assert_eq!(merged.model, "mx");
}

#[test]
fn requests_always_stream_on_the_wire() {
    let config = test_config();
    let ctx = vec![1];
    assert!(generate_first_request("x", &config).stream);
    assert!(generate_request("x", &config, &ctx).stream);
    let r = OllamaRequest {
        model: "m".to_string(),
        prompt: "p".to_string(),
        system: "s".to_string(),
        context: None,
        stream: true,
    };
    assert!(serialize_request(&r).ends_with("\"stream\":true}"));
}
