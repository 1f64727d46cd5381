use poster::environment::{Environment, EnvironmentEntry, EnvironmentLayer, EnvironmentValue};
use poster::functions::FunctionIdentifier::{Random, Timestamp, Uuid};
use poster::resolver::{
    chars_up_to, function_calls, key_of, placeholders, replace_variable, resolve_with,
};

fn layer(name: &str, entries: Vec<EnvironmentEntry>) -> EnvironmentLayer {
    let mut layer = EnvironmentLayer::new(name.to_string());
    for entry in entries {
        layer.insert(entry);
    }
    layer
}

fn literal(key: &str, value: &str) -> EnvironmentEntry {
    EnvironmentEntry::literal(key.to_string(), value.to_string())
}

fn function(key: &str, call: &str) -> EnvironmentEntry {
    EnvironmentEntry::function(key.to_string(), call.to_string())
}

fn environment(layers: Vec<EnvironmentLayer>) -> Environment {
    let mut environment = Environment::new();
    for layer in layers {
        environment.push_layer(layer);
    }
    environment
}

fn resolve(text: &str, envs: &Environment) -> String {
    replace_variable(text.to_string(), envs)
}

#[test]
fn text_without_placeholders_is_unchanged() {
    let envs = environment(vec![layer("global", vec![literal("host", "api.example.com")])]);
    for text in ["", "plain", "{host}", "{{host", "host}}", "{ {host} }", "{{a\nb}}", "}}{{"] {
        assert_eq!(resolve(text, &envs), text);
    }
}

#[test]
fn literal_replaces_placeholder() {
    let envs = environment(vec![layer("global", vec![literal("host", "api.example.com")])]);
    assert_eq!(resolve("https://{{host}}/v1", &envs), "https://api.example.com/v1");
    assert_eq!(resolve("{{host}}", &envs), "api.example.com");
    assert_eq!(resolve("{{host}}{{host}}", &envs), "api.example.comapi.example.com");
    assert_eq!(resolve("a{{host}}b{{host}}c", &envs), "aapi.example.combapi.example.comc");
}

#[test]
fn unknown_key_gives_marker() {
    let envs = environment(vec![layer("global", vec![literal("host", "api.example.com")])]);
    assert_eq!(resolve("x{{port}}y", &envs), "x{UNKNOWN}y");
    assert_eq!(resolve("{{}}", &envs), "{UNKNOWN}");
    assert_eq!(resolve("{{Host}}", &envs), "{UNKNOWN}");
    assert_eq!(resolve("{{ho st}}", &envs), "{UNKNOWN}");
    assert_eq!(resolve("{{host}}", &Environment::new()), "{UNKNOWN}");
}

#[test]
fn key_is_trimmed_before_the_lookup() {
    let envs = environment(vec![layer("global", vec![literal("host", "h"), literal("", "empty")])]);
    assert_eq!(resolve("{{ host }}", &envs), "h");
    assert_eq!(resolve("{{host }}", &envs), "h");
    assert_eq!(resolve("{{\t host\u{a0}\u{3000}}}", &envs), "h");
    assert_eq!(resolve("a{{  host}}b{{host  }}c", &envs), "ahbhc");
    assert_eq!(resolve("{{}}", &envs), "empty");
    assert_eq!(resolve("{{   }}", &envs), "empty");
    assert_eq!(resolve("{{ h ost }}", &envs), "{UNKNOWN}");
}

#[test]
fn padded_key_of_an_entry_is_not_reached() {
    let envs = environment(vec![layer("global", vec![literal(" a ", "padded")])]);
    assert_eq!(resolve("{{ a }}", &envs), "{UNKNOWN}");
    assert_eq!(resolve("{{a}}", &envs), "{UNKNOWN}");
    let envs = environment(vec![layer("global", vec![literal(" a ", "padded"), literal("a", "bare")])]);
    assert_eq!(resolve("{{ a }}", &envs), "bare");
}

#[test]
fn brace_pairs_go_before_the_white_space() {
    let envs = environment(vec![layer("global", vec![literal("a", "1"), literal("{{a", "2")])]);
    assert_eq!(resolve("{{{{ a }}", &envs), "1");
    assert_eq!(resolve("{{ {{a }}", &envs), "2");
}

#[test]
fn padded_function_key_is_called() {
    let envs = environment(vec![layer("global", vec![function("now", "timestamp()")])]);
    assert_eq!(function_calls("{{ now }}{{now}}", &envs), vec![Timestamp, Timestamp]);
    let outputs = vec!["1".to_string(), "2".to_string()];
    assert_eq!(resolve_with("{{ now }}-{{now\t}}", &envs, &outputs), "1-2");
}

#[test]
fn first_layer_wins() {
    let envs = environment(vec![
        layer("local", vec![literal("name", "A")]),
        layer("global", vec![literal("name", "B"), literal("other", "C")]),
    ]);
    assert_eq!(resolve("{{name}}", &envs), "A");
    assert_eq!(resolve("{{other}}", &envs), "C");
}

#[test]
fn disabled_entry_does_not_shadow() {
    let mut off = literal("name", "A");
    off.enabled = false;
    let envs = environment(vec![layer("local", vec![off]), layer("global", vec![literal("name", "B")])]);
    assert_eq!(resolve("{{name}}", &envs), "B");
    let mut only = literal("name", "A");
    only.enabled = false;
    let envs = environment(vec![layer("local", vec![only])]);
    assert_eq!(resolve("{{name}}", &envs), "{UNKNOWN}");
}

#[test]
fn substituted_text_is_not_scanned_again() {
    let envs = environment(vec![layer(
        "global",
        vec![literal("a", "{{b}}"), literal("b", "deep"), literal("self", "{{self}}")],
    )]);
    assert_eq!(resolve("{{a}}", &envs), "{{b}}");
    assert_eq!(resolve("{{a}}{{b}}", &envs), "{{b}}deep");
    assert_eq!(resolve("{{self}}", &envs), "{{self}}");
}

#[test]
fn unresolved_output_resolves_to_itself() {
    let envs = Environment::new();
    for text in ["a{{x}}b", "{{x}}{{y}}", "{{{x}}}}", "{{\n{{a}}}}", "{{{a}}{x}}", "{{a}}}}"] {
        let once = resolve(text, &envs);
        assert_eq!(resolve(&once, &envs), once);
    }
    assert_eq!(resolve("{{{x}}}}", &envs), "{UNKNOWN}}}");
    assert_eq!(resolve("{{\n{{a}}}}", &envs), "{{\n{UNKNOWN}}}");
}

#[test]
fn placeholder_ends_at_first_closing_braces() {
    assert_eq!(placeholders("{{a}}"), vec![(0, 5)]);
    assert_eq!(placeholders("x{{a}}}}"), vec![(1, 6)]);
    assert_eq!(placeholders("{{a}} {{b}}"), vec![(0, 5), (6, 11)]);
    assert_eq!(placeholders("{{{{a}}"), vec![(0, 7)]);
    assert_eq!(placeholders("{{}}"), vec![(0, 4)]);
    assert_eq!(placeholders("{{}"), vec![]);
    assert_eq!(placeholders("{{a}b}}"), vec![(0, 7)]);
}

#[test]
fn placeholder_stays_on_one_line() {
    assert_eq!(placeholders("{{a\n}}"), vec![]);
    assert_eq!(placeholders("{{a\n{{b}}"), vec![(4, 9)]);
    assert_eq!(placeholders("{{a\r}}"), vec![(0, 6)]);
}

#[test]
fn placeholder_positions_count_characters() {
    assert_eq!(placeholders("é{{ü}}ß{{x}}"), vec![(1, 6), (7, 12)]);
    let envs = environment(vec![layer("global", vec![literal("ü", "ö")])]);
    assert_eq!(resolve("é{{ü}}ß{{x}}", &envs), "éöß{UNKNOWN}");
}

#[test]
fn key_drops_leading_brace_pairs() {
    let envs = environment(vec![layer("global", vec![literal("a", "1"), literal("{a", "2")])]);
    assert_eq!(resolve("{{{{a}}", &envs), "1");
    assert_eq!(resolve("{{{a}}", &envs), "2");
}

#[test]
fn function_value_is_evaluated() {
    let envs = environment(vec![layer("global", vec![function("now", "timestamp()")])]);
    let out = resolve("{{now}}", &envs);
    assert_ne!(out, "timestamp()");
    assert!(!out.is_empty() && out.chars().all(|c| c.is_ascii_digit()));
    assert!(out.parse::<u64>().unwrap() > 1_600_000_000);
}

#[test]
fn function_value_that_does_not_parse_gives_marker() {
    let envs = environment(vec![layer(
        "global",
        vec![function("a", "nothing()"), function("b", "timestamp("), function("c", "")],
    )]);
    assert_eq!(resolve("{{a}}-{{b}}-{{c}}", &envs), "{UNKNOWN}-{UNKNOWN}-{UNKNOWN}");
}

#[test]
fn outputs_are_taken_in_order() {
    let envs = environment(vec![layer(
        "global",
        vec![function("now", "timestamp()"), function("id", "uuid"), literal("host", "h")],
    )]);
    let outputs = vec!["1".to_string(), "2".to_string(), "3".to_string()];
    assert_eq!(resolve_with("{{now}}/{{host}}/{{id}}/{{now}}", &envs, &outputs), "1/h/2/3");
    assert_eq!(resolve_with("{{now}}/{{id}}", &envs, &outputs[..1].to_vec()), "1/{UNKNOWN}");
    assert_eq!(resolve_with("{{now}}", &envs, &Vec::new()), "{UNKNOWN}");
}

#[test]
fn calls_are_listed_in_order() {
    let envs = environment(vec![layer(
        "global",
        vec![
            function("now", "timestamp()"),
            function("id", "uuid()"),
            function("n", "random(1,2)"),
            function("bad", "rand()"),
            literal("host", "h"),
        ],
    )]);
    assert_eq!(function_calls("{{n}}{{host}}{{id}}{{bad}}{{now}}{{n}}", &envs), vec![
        Random, Uuid, Timestamp, Random
    ]);
    assert_eq!(function_calls("no calls {{host}}", &envs), vec![]);
}

#[test]
fn value_type_decides() {
    let envs = environment(vec![layer("global", vec![literal("now", "timestamp()")])]);
    assert_eq!(resolve("{{now}}", &envs), "timestamp()");
    let value = EnvironmentValue::Literal("x".to_string());
    assert!(matches!(value, EnvironmentValue::Literal(_)));
}

#[test]
fn byte_offsets_become_character_positions() {
    let text = "aé●b";
    assert_eq!(chars_up_to(text, 0), 0);
    assert_eq!(chars_up_to(text, 1), 1);
    assert_eq!(chars_up_to(text, 3), 2);
    assert_eq!(chars_up_to(text, 6), 3);
    assert_eq!(chars_up_to(text, 7), 4);
    assert_eq!(chars_up_to("", 0), 0);
}

#[test]
fn key_of_a_placeholder() {
    let key = |text: &str| {
        let chars: Vec<char> = text.chars().collect();
        key_of(&chars, 0, chars.len())
    };
    assert_eq!(key("{{host}}"), "host");
    assert_eq!(key("{{ host }}"), "host");
    assert_eq!(key("{{}}"), "");
    assert_eq!(key("{{ \t }}"), "");
    assert_eq!(key("{{{{{{a}}"), "a");
    assert_eq!(key("{{{a}}"), "{a");
    assert_eq!(key("{{ a b }}"), "a b");
    assert_eq!(key("{{ {{a}}"), "{{a");
    assert_eq!(key("{{{{ a}}"), "a");
}
