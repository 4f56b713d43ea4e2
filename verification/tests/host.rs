use relay::host::normalize_host;
use relay::host::white_space;
use relay::text::append_decimal;
use relay::text::chars_of;
use relay::text::strip_prefix;
use std::borrow::Cow;

fn normalized(host: &str) -> Option<String> {
    normalize_host(host).map(Cow::into_owned)
}

fn some(host: &str) -> Option<String> {
    Some(host.to_string())
}

#[test]
fn white_space_is_that_of_unicode() {
    for code in 0..=0x10ffffu32 {
        if let Some(c) = char::from_u32(code) {
            assert_eq!(white_space(c), c.is_whitespace(), "{code:x}");
        }
    }
}

#[test]
fn case_is_folded() {
    assert_eq!(normalized("Example.COM"), some("example.com"));
    assert_eq!(normalized("EXAMPLE.com"), normalized("example.com"));
}

#[test]
fn only_ascii_letters_are_folded() {
    assert_eq!(normalized("\u{c4}B.de"), some("\u{c4}b.de"));
}

#[test]
fn text_is_borrowed_unless_letters_change() {
    assert!(matches!(normalize_host(" example.com.:80 "), Some(Cow::Borrowed("example.com"))));
    assert!(matches!(normalize_host("\u{c4}.de"), Some(Cow::Borrowed("\u{c4}.de"))));
    assert!(matches!(normalize_host("eXample.com"), Some(Cow::Owned(_))));
    assert!(matches!(normalize_host("[::1]X"), Some(Cow::Borrowed("::1"))));
}

#[test]
fn port_is_dropped() {
    assert_eq!(normalized("example.com:8080"), some("example.com"));
    assert_eq!(normalized("example.com:"), some("example.com"));
    assert_eq!(normalized("example.com:8080"), normalized("example.com"));
}

#[test]
fn only_a_last_port_of_digits_is_dropped() {
    assert_eq!(normalized("example.com:http"), some("example.com:http"));
    assert_eq!(normalized("a:1:2"), some("a:1"));
    assert_eq!(normalized("a:80."), some("a:80"));
    assert_eq!(normalized("a:\u{661}"), some("a:\u{661}"));
}

#[test]
fn white_space_around_a_host_is_dropped() {
    assert_eq!(normalized(" \t\u{a0}example.com\u{3000}\r\n"), some("example.com"));
    assert_eq!(normalized("exam ple"), some("exam ple"));
    assert_eq!(normalized("a ."), some("a "));
}

#[test]
fn final_dots_are_dropped() {
    assert_eq!(normalized("example.com."), some("example.com"));
    assert_eq!(normalized("example.com..."), some("example.com"));
    assert_eq!(normalized("example.com.:80"), some("example.com"));
    assert_eq!(normalized(".example"), some(".example"));
}

#[test]
fn brackets_are_opened() {
    assert_eq!(normalized("[::1]"), some("::1"));
    assert_eq!(normalized("[2001:DB8::1]:443"), some("2001:db8::1"));
    assert_eq!(normalized("[a.]]x"), some("a"));
}

#[test]
fn hosts_without_a_name_are_refused() {
    for host in ["", "  ", ".", "...", ":80", ".:80", "[]", "[.]:1", "[::1", "["] {
        assert_eq!(normalized(host), None, "{host}");
    }
}

#[test]
fn normal_hosts_stay_as_they_are() {
    for host in ["example.com", "a", "10.0.0.1", "x-y_z", "\u{e4}"] {
        assert_eq!(normalized(host), some(host));
    }
}

#[test]
fn normal_form_is_clean() {
    for host in ["A.b.C:1", " X..", "[F::]", "q:R", "\u{c4}."] {
        let name = normalized(host).unwrap();
        assert!(!name.is_empty());
        assert!(!name.ends_with('.'));
        assert_eq!(name.to_ascii_lowercase(), name);
    }
}

#[test]
fn numbers_are_written_in_decimal() {
    for number in [0, 7, 10, 99, 100, 431, 65535, 1234567890, u64::MAX] {
        let mut text = String::from("n=");
        append_decimal(&mut text, number);
        assert_eq!(text, format!("n={number}"));
    }
}

#[test]
fn characters_come_in_order() {
    assert_eq!(chars_of("a\u{e9}\u{1f600}"), vec!['a', '\u{e9}', '\u{1f600}']);
    assert_eq!(chars_of(""), Vec::<char>::new());
}

#[test]
fn prefixes_are_cut() {
    assert_eq!(strip_prefix("sha256:ab", "sha256:"), Some("ab"));
    assert_eq!(strip_prefix("sha256:", "sha256:"), Some(""));
    assert_eq!(strip_prefix("sha25", "sha256:"), None);
    assert_eq!(strip_prefix("\u{e9}\u{e8}", "\u{e9}"), Some("\u{e8}"));
    assert_eq!(strip_prefix("ab", "b"), None);
}
