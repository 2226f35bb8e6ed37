use hosts_hook::address::Address;
use hosts_hook::hosts_file::{answer_of_line, find};

fn lines(text: &[&str]) -> Vec<String> {
    text.iter().map(|l| l.to_string()).collect()
}

fn answer(line: &str, hostname: &str) -> Option<Address> {
    let l: Vec<char> = line.chars().collect();
    let h: Vec<char> = hostname.chars().collect();
    answer_of_line(&l, &h)
}

#[test]
fn finds_the_address_of_a_host() {
    let file = lines(&["10.0.0.5 svc.local"]);
    assert_eq!(find(&file, "svc.local"), Some(Address::V4([10, 0, 0, 5])));
    assert_eq!(find(&file, "other.local"), None);
}

#[test]
fn first_matching_line_wins() {
    let file = lines(&["10.0.0.1 a.local", "10.0.0.2 b.local", "10.0.0.3 a.local", "::1 b.local"]);
    assert_eq!(find(&file, "a.local"), Some(Address::V4([10, 0, 0, 1])));
    assert_eq!(find(&file, "b.local"), Some(Address::V4([10, 0, 0, 2])));
}

#[test]
fn a_line_that_names_another_host_does_not_answer() {
    let file = lines(&["10.0.0.1 a.local", "10.0.0.2 b.local"]);
    assert_eq!(find(&file, "b.local"), Some(Address::V4([10, 0, 0, 2])));
    assert_eq!(find(&file, "c.local"), None);
}

#[test]
fn comments_and_blank_lines_are_ignored() {
    let file = lines(&["# 10.0.0.9 svc.local", "", "#", "   ", "10.0.0.5 svc.local"]);
    assert_eq!(find(&file, "svc.local"), Some(Address::V4([10, 0, 0, 5])));
    let only_comments = lines(&["# 10.0.0.9 svc.local", "", "#comment"]);
    assert_eq!(find(&only_comments, "svc.local"), None);
    assert_eq!(find(&[], "svc.local"), None);
}

#[test]
fn unreadable_address_skips_the_line() {
    let file = lines(&["10.0.0.300 svc.local", "not-an-address svc.local", "10.0.0.7 svc.local"]);
    assert_eq!(find(&file, "svc.local"), Some(Address::V4([10, 0, 0, 7])));
}

#[test]
fn only_the_first_name_of_a_line_matches() {
    let file = lines(&["10.0.0.5 svc.local alias.local other"]);
    assert_eq!(find(&file, "svc.local"), Some(Address::V4([10, 0, 0, 5])));
    assert_eq!(find(&file, "alias.local"), None);
    assert_eq!(find(&file, "other"), None);
}

#[test]
fn matching_is_exact() {
    let file = lines(&["10.0.0.5 svc.local"]);
    assert_eq!(find(&file, "SVC.local"), None);
    assert_eq!(find(&file, "svc.loca"), None);
    assert_eq!(find(&file, "svc.local."), None);
    assert_eq!(find(&file, "vc.local"), None);
    assert_eq!(find(&file, ""), None);
}

#[test]
fn address_ends_at_the_first_space() {
    assert_eq!(answer("10.0.0.5 svc", "svc"), Some(Address::V4([10, 0, 0, 5])));
    assert_eq!(answer("10.0.0.5    svc", "svc"), Some(Address::V4([10, 0, 0, 5])));
    assert_eq!(answer("10.0.0.5 \t svc\trest", "svc"), Some(Address::V4([10, 0, 0, 5])));
    assert_eq!(answer("10.0.0.5\tsvc", "svc"), None);
    assert_eq!(answer("10.0.0.5\tsvc more", "svc"), None);
    assert_eq!(answer(" 10.0.0.5 svc", "svc"), None);
    assert_eq!(answer("10.0.0.5svc", "svc"), None);
}

#[test]
fn a_line_without_a_name_does_not_answer() {
    assert_eq!(answer("10.0.0.5 ", ""), None);
    assert_eq!(answer("10.0.0.5    ", ""), None);
    assert_eq!(answer("10.0.0.5", "10.0.0.5"), None);
    assert_eq!(answer("", ""), None);
}

#[test]
fn names_end_at_any_word_separator() {
    assert_eq!(answer("::1 host\u{a0}tail", "host"), Some(Address::V6({
        let mut a = [0u8; 16];
        a[15] = 1;
        a
    })));
    assert_eq!(answer("::1 \u{3000}host", "host").is_some(), true);
    assert_eq!(answer("::1 host\u{200b}tail", "host"), None);
}

#[test]
fn ipv6_records_are_read() {
    let file = lines(&["fe80::1 svc.local", "2001:db8::2 other.local"]);
    let mut expected = [0u8; 16];
    expected[0] = 0x20;
    expected[1] = 0x01;
    expected[2] = 0x0d;
    expected[3] = 0xb8;
    expected[15] = 2;
    assert_eq!(find(&file, "other.local"), Some(Address::V6(expected)));
}
