// What a person types: trimming, tag lists, the network answer, audit lines.

use note_vault::audit::{audit_line, ONBOARDED, RECOVERED};
use note_vault::input::{is_white_space, network_enabled, parse_tags, trimmed};
use note_vault::timestamp::Timestamp;

#[test]
fn trimming_takes_white_space_from_both_ends_only() {
    assert_eq!(trimmed("  a b \t\n"), "a b");
    assert_eq!(trimmed("a"), "a");
    assert_eq!(trimmed(""), "");
    assert_eq!(trimmed(" \t\r\n"), "");
    assert_eq!(trimmed("\u{a0}é \u{3000}"), "é");
    assert_eq!(trimmed("x\u{200b}"), "x\u{200b}");
}

#[test]
fn trimming_agrees_with_std() {
    for text in ["", " ", "a", " a", "a ", "  a  b  ", "\n\ta\u{2003}", "\u{85}x\u{1680}"] {
        assert_eq!(trimmed(text), text.trim());
    }
}

#[test]
fn tags_are_the_trimmed_parts_between_commas() {
    assert_eq!(parse_tags("a,b,c"), vec!["a", "b", "c"]);
    assert_eq!(parse_tags(" home , work,urgent \n"), vec!["home", "work", "urgent"]);
    assert_eq!(parse_tags("two words, three more words"), vec!["two words", "three more words"]);
    assert_eq!(parse_tags("a,a"), vec!["a", "a"]);
}

#[test]
fn empty_parts_are_no_tags() {
    assert!(parse_tags("").is_empty());
    assert!(parse_tags("\n").is_empty());
    assert!(parse_tags(",").is_empty());
    assert!(parse_tags(" , ,, ").is_empty());
    assert_eq!(parse_tags(",a,,b,"), vec!["a", "b"]);
    assert_eq!(parse_tags("a,"), vec!["a"]);
}

#[test]
fn tags_agree_with_splitting_and_trimming_by_std() {
    for line in ["", "a", "a,b", " a , b ", ",,", "x,,y, ,z\n", "é, ü ,\u{a0}", "no commas at all"] {
        let expected: Vec<String> = line
            .trim()
            .split(',')
            .map(|s| s.trim().to_string())
            .filter(|s| !s.is_empty())
            .collect();
        assert_eq!(parse_tags(line), expected, "{:?}", line);
    }
}

#[test]
fn only_y_allows_the_network() {
    assert!(network_enabled("y"));
    assert!(network_enabled(" y\n"));
    assert!(!network_enabled("n"));
    assert!(!network_enabled(""));
    assert!(!network_enabled("Y"));
    assert!(!network_enabled("yes"));
    assert!(!network_enabled("y y"));
}

#[test]
fn an_audit_line_names_event_and_time() {
    let stamp = Timestamp::parse("2024-05-01T12:34:56Z").unwrap();
    assert_eq!(audit_line(ONBOARDED, &stamp), "onboarded user at 2024-05-01T12:34:56Z\n");
    assert_eq!(audit_line(RECOVERED, &stamp), "recovery performed at 2024-05-01T12:34:56Z\n");
    assert_eq!(audit_line("", &stamp), " at 2024-05-01T12:34:56Z\n");
}

#[test]
fn white_space_is_what_std_takes_for_it() {
    let mut count = 0;
    for code in 0..=0x10FFFFu32 {
        if let Some(c) = char::from_u32(code) {
            assert_eq!(is_white_space(c), c.is_whitespace(), "U+{:04X}", code);
            if is_white_space(c) {
                count += 1;
            }
        }
    }
    assert_eq!(count, 25);
}
