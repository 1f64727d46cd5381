use egui::ahash::HashSet;
use poster::utils::{
    build_copy_name, build_rest_ui_header, build_with_count_ui_header, header_title, shorten,
    text_edit_singleline_filter, try_build_rest_ui_header, HeaderPiece, HttpRecord, Method,
    Request, Tone,
};

fn record(name: &str, method: Method, base_url: &str) -> HttpRecord {
    HttpRecord {
        name: name.to_string(),
        request: Request { method, base_url: base_url.to_string() },
    }
}

fn plain(pieces: &[HeaderPiece]) -> Vec<(String, Tone, bool)> {
    pieces.iter().map(|p| (p.text.clone(), p.tone, p.strong)).collect()
}

fn names(held: &[&str]) -> HashSet<String> {
    held.iter().map(|name| name.to_string()).collect()
}

fn filtered(text: &str) -> String {
    let mut text = text.to_string();
    text_edit_singleline_filter(&mut text);
    text
}

#[test]
fn header_shows_method_and_name() {
    let pieces = build_rest_ui_header(record("Users", Method::Get, "https://api.example.com"), None);
    assert_eq!(plain(&pieces), vec![
        ("GET ".to_string(), Tone::Warn, true),
        ("Users".to_string(), Tone::Text, false)
    ]);
}

#[test]
fn header_shows_address_without_scheme() {
    for (url, shown) in [
        ("https://api.example.com", "api.example.com"),
        ("  http://api.example.com/v1 \n", "api.example.com/v1"),
        ("http://http://https://https://x", "x"),
        ("https://http://x", "http://x"),
        ("ftp://x", "ftp://x"),
        ("HTTP://x", "HTTP://x"),
    ] {
        let pieces = build_rest_ui_header(record("", Method::Post, url), None);
        assert_eq!(plain(&pieces), vec![
            ("POST ".to_string(), Tone::Warn, true),
            (shown.to_string(), Tone::Text, false)
        ]);
    }
}

#[test]
fn header_without_address_is_untitled() {
    for url in ["", "   ", "http://", " https:// ", "http://https://"] {
        let pieces = build_rest_ui_header(record("Named", Method::Delete, url), Some(3));
        assert_eq!(plain(&pieces), vec![("Untitled Request".to_string(), Tone::Text, true)]);
    }
}

#[test]
fn header_title_is_cut_to_size() {
    let cut = |name: &str, size: usize| {
        build_rest_ui_header(record(name, Method::Put, "x"), Some(size))[1].text.clone()
    };
    assert_eq!(cut("abcdef", 6), "abcdef");
    assert_eq!(cut("abcdef", 7), "abcdef");
    assert_eq!(cut("abcdef", 5), "abcde...");
    assert_eq!(cut("abcdef", 0), "...");
    assert_eq!(cut("aé●b", 3), "aé...");
    assert_eq!(cut("aé●b", 6), "aé●...");
    assert_eq!(cut("aé●b", 7), "aé●b");
    let pieces = build_rest_ui_header(record("", Method::Patch, "http://example.com"), Some(7));
    assert_eq!(pieces[1].text, "example...");
    assert_eq!(shorten("abc".to_string(), 1), "a...");
}

#[test]
fn methods_have_their_names() {
    for (method, name) in [
        (Method::Get, "GET"),
        (Method::Post, "POST"),
        (Method::Put, "PUT"),
        (Method::Patch, "PATCH"),
        (Method::Delete, "DELETE"),
        (Method::Head, "HEAD"),
        (Method::Options, "OPTIONS"),
    ] {
        assert_eq!(method.as_str(), name);
    }
}

#[test]
fn count_header_shows_the_count() {
    assert_eq!(plain(&build_with_count_ui_header("Params".to_string(), 0)), vec![(
        "Params ".to_string(),
        Tone::Text,
        true
    )]);
    assert_eq!(plain(&build_with_count_ui_header("Params".to_string(), 12)), vec![
        ("Params ".to_string(), Tone::Text, true),
        ("(12)".to_string(), Tone::Warn, true)
    ]);
    assert_eq!(plain(&build_with_count_ui_header("Body".to_string(), usize::MAX)), vec![
        ("Body ".to_string(), Tone::Text, true),
        ("●".to_string(), Tone::Warn, true)
    ]);
    assert_eq!(build_with_count_ui_header(String::new(), usize::MAX - 1)[1].text, format!(
        "({})",
        usize::MAX - 1
    ));
}

#[test]
fn free_name_is_kept() {
    assert_eq!(build_copy_name("Users".to_string(), names(&[])), "Users");
    assert_eq!(build_copy_name("Users".to_string(), names(&["Other", "Users Copy 2"])), "Users");
    assert_eq!(build_copy_name("  Users ".to_string(), names(&[])), "Users");
    assert_eq!(build_copy_name("".to_string(), names(&[])), "");
}

#[test]
fn taken_name_is_numbered() {
    assert_eq!(build_copy_name("Users".to_string(), names(&["Users"])), "Users Copy 2");
    assert_eq!(
        build_copy_name("Users".to_string(), names(&["Users", "Users Copy 2", "Users Copy 3"])),
        "Users Copy 4"
    );
    assert_eq!(
        build_copy_name("Users".to_string(), names(&["Users", "Users Copy 3"])),
        "Users Copy 2"
    );
    let many: Vec<String> = (2..=11).map(|n| format!("U Copy {}", n)).collect();
    let mut held = names(&["U"]);
    held.extend(many);
    assert_eq!(build_copy_name("U".to_string(), held), "U Copy 12");
}

#[test]
fn copy_of_a_copy_is_numbered_from_the_base() {
    let held = names(&["Users", "Users Copy 2"]);
    assert_eq!(build_copy_name("Users Copy 2".to_string(), held.clone()), "Users Copy 3");
    assert_eq!(build_copy_name("Users Copy".to_string(), held.clone()), "Users Copy 3");
    assert_eq!(build_copy_name("UsersCopyCopy".to_string(), held), "Users Copy 3");
    assert_eq!(build_copy_name("Copy".to_string(), names(&[""])), " Copy 2");
    assert_eq!(build_copy_name("My Copybook".to_string(), names(&["My"])), "My Copy 2");
    assert_eq!(build_copy_name("copy".to_string(), names(&["copy"])), "copy Copy 2");
}

#[test]
fn filter_keeps_letters_numbers_underscores() {
    assert_eq!(filtered("abc_DEF_123"), "abc_DEF_123");
    assert_eq!(filtered("a/b c"), "a_b_c");
    assert_eq!(filtered("a-b.c!d"), "abcd");
    assert_eq!(filtered("  "), "__");
    assert_eq!(filtered(""), "");
    assert_eq!(filtered("名前 é ½ ٣ ●\t-"), "名前_é_½_٣_");
    assert_eq!(filtered("a\\b//c"), "ab__c");
}

#[test]
fn header_is_not_built_through_a_character() {
    assert!(try_build_rest_ui_header(record("aé", Method::Get, "x"), Some(2)).is_none());
    assert!(try_build_rest_ui_header(record("", Method::Get, "http://●"), Some(1)).is_none());
    let built = try_build_rest_ui_header(record("aé", Method::Get, "x"), Some(1)).unwrap();
    assert_eq!(built[1].text, "a...");
    let built = try_build_rest_ui_header(record("aé", Method::Get, "x"), Some(3)).unwrap();
    assert_eq!(built[1].text, "aé");
    let built = try_build_rest_ui_header(record("aé", Method::Get, ""), Some(2)).unwrap();
    assert_eq!(built[0].text, "Untitled Request");
    let built = try_build_rest_ui_header(record("aé", Method::Get, "x"), None).unwrap();
    assert_eq!(built[1].text, "aé");
}

#[test]
fn title_is_the_name_or_the_address() {
    assert_eq!(header_title(&record("Users", Method::Get, "http://x")), Some("Users".to_string()));
    assert_eq!(header_title(&record("", Method::Get, " http://x/y ")), Some("x/y".to_string()));
    assert_eq!(header_title(&record("Users", Method::Get, " http:// ")), None);
}
