use runtime::context::tool_results::{
    command_line_from_input, command_run_context_call_id, compact_json_for_context,
    compact_json_to_string, flattened_command_run_results, stable_context_cache_id,
    strip_command_run_context_noise, strip_tool_reporting_fields,
};
use runtime::json::{json_to_string, parse_json, JsonValue};

fn json(text: &str) -> JsonValue {
    parse_json(text).expect("test input is JSON")
}

#[test]
fn context_noise_is_dropped_at_every_depth() {
    let value = json(r#"{"summary":"s","keep":{"notes":1,"receipt":2,"x":[{"interface":3,"y":4}]},"ok":true}"#);
    assert_eq!(
        json_to_string(&strip_command_run_context_noise(value)),
        "{\"keep\":{\"x\":[{\"y\":4}]},\"ok\":true}"
    );
    let reporting = json(r#"{"summary":"s","notes":1,"inner":{"description":"d","step_summary":2}}"#);
    assert_eq!(json_to_string(&strip_tool_reporting_fields(reporting)), "{\"inner\":{},\"notes\":1}");
}

#[test]
fn batch_results_are_flattened_in_order() {
    let output = json(
        r#"{"results":[{"step":1},{"mode":"batch","results":[{"step":2},{"step":3}]},{"mode":"batch"},{"step":4}]}"#,
    );
    let flat = flattened_command_run_results(&output);
    let texts: Vec<String> = flat.iter().map(json_to_string).collect();
    assert_eq!(texts, vec!["{\"step\":1}", "{\"step\":2}", "{\"step\":3}", "{\"mode\":\"batch\"}", "{\"step\":4}"]);
    assert!(flattened_command_run_results(&json("{\"results\":{}}")).is_empty());
}

#[test]
fn command_run_context_uses_provider_tool_call_id() {
    let value = json(r#"{"tool_name":"command_run","provider_metadata":{"id":"call_provider_123"}}"#);
    assert_eq!(command_run_context_call_id(&value), "call_provider_123");
}

#[test]
fn call_ids_fall_back_to_the_cache_id() {
    let cached = json(r#"{"provider_metadata":{"id":"  "},"context_cache":{"cache_id":"ab-cd_0123456789abcdef0123456789"}}"#);
    assert_eq!(command_run_context_call_id(&cached), "call_abcd0123456789abcdef0123");
    assert_eq!(command_run_context_call_id(&json("{}")), "call_commandrun");
}

#[test]
fn cache_ids_hash_the_compact_json() {
    let a = stable_context_cache_id(&json("{\"b\":1,\"a\":2}"));
    let b = stable_context_cache_id(&json("{\"a\":2,\"b\":1}"));
    assert_eq!(a, b);
    assert_eq!(a.len(), 16);
    assert_eq!(stable_context_cache_id(&json("null")), "5b9bc4ba528108e4");
}

#[test]
fn context_values_keep_small_values_and_cut_large_ones() {
    assert_eq!(compact_json_to_string(&json("\"plain\"")), "plain");
    assert_eq!(compact_json_to_string(&json("{\"a\":1}")), "{\n  \"a\": 1\n}");
    let small = compact_json_for_context(json("[1,2]"));
    assert_eq!(json_to_string(&small), "[1,2]");
    let big = JsonValue::Str("x".repeat(20_000));
    match compact_json_for_context(big) {
        JsonValue::Str(text) => {
            assert!(text.starts_with("Total output lines: 1\n\n"));
            assert!(text.len() < 20_000);
        }
        _ => panic!("large values become text"),
    }
    let input = json("{\"command_line\":\"rg -n x\"}");
    assert_eq!(command_line_from_input(Some(&input)), Some("rg -n x"));
    assert_eq!(command_line_from_input(None), None);
}
