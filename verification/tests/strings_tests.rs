use flowgraph::strutil::{
    is_upper, replace_all, str_contains, str_ends_with, str_index_of, str_rindex_of,
    str_starts_with, str_trim, usize_to_string, str_eq,
};

#[test]
fn eq_and_search() {
    assert!(str_eq("abc", "abc"));
    assert!(!str_eq("abc", "abd"));
    assert!(str_contains("nesteAktivitet(Foo())", "Aktivitet"));
    assert!(!str_contains("abc", "abcd"));
    assert_eq!(str_index_of("abcabc", "bc"), Some(1));
    assert_eq!(str_rindex_of("abcabc", "bc"), Some(4));
    assert_eq!(str_index_of("abc", "zz"), None);
    assert!(str_ends_with("handler.map", ".map"));
    assert!(!str_ends_with("map", "x.map"));
    assert!(str_starts_with("&& flag", "&&"));
}

#[test]
fn replace_and_trim() {
    assert_eq!(replace_all("aXbXc", "X", "-"), "a-b-c");
    assert_eq!(replace_all("behandling.krav", "behandling.", ""), "krav");
    assert_eq!(replace_all("aaa", "aa", "b"), "ba");
    assert_eq!(str_trim("  hei \n"), "hei");
    assert_eq!(str_trim("ingen"), "ingen");
}

#[test]
fn decimal_formatting() {
    assert_eq!(usize_to_string(0), "0");
    assert_eq!(usize_to_string(7), "7");
    assert_eq!(usize_to_string(210), "210");
}

#[test]
fn char_classes() {
    assert!(is_upper('A'));
    assert!(!is_upper('a'));
    assert!(!is_upper('\u{c5}'));
    // Unicode letters and digits count as identifier characters, other
    // symbols do not.
    assert!(flowgraph::textscan::is_likely_aktivitet_class("Bl\u{e5}b\u{e6}rAktivitet"));
    assert!(flowgraph::textscan::is_likely_aktivitet_class("Ab1Aktivitet"));
    assert!(!flowgraph::textscan::is_likely_aktivitet_class("Ab!Aktivitet"));
}

#[test]
fn escape_and_shorten() {
    assert_eq!(flowgraph::render::escape_label("a\"b\\c\nd"), "a\\\"b\\\\c\\nd");
    assert_eq!(
        flowgraph::render::shorten_aktivitet_name("FleksibelApSak1VurderKravAktivitet"),
        "1\nVurderKrav"
    );
    assert_eq!(flowgraph::render::shorten_aktivitet_name("VurderKrav"), "VurderKrav");
}

#[test]
fn condition_labels() {
    assert_eq!(flowgraph::render::format_condition_label("behandling.flagg"), "flagg");
    assert_eq!(
        flowgraph::render::format_condition_label(
            "unleashNextService.isEnabled(PenFeature.NyFlyt)"
        ),
        "\u{1F6A9} FEATURE: NyFlyt"
    );
    assert_eq!(
        flowgraph::render::format_condition_label(
            "unleashNextService.isEnabled(\"toggle\") && behandling.klar"
        ),
        "\u{1F6A9} FEATURE: toggle && klar"
    );
    let long = "x".repeat(100);
    let formatted = flowgraph::render::format_condition_label(&long);
    assert_eq!(formatted.chars().count(), 80);
    assert!(formatted.ends_with("..."));
}

#[test]
fn negation_marker() {
    assert_eq!(flowgraph::transitions::negate_condition("flag==true"), "NOT (flag==true)");
}
