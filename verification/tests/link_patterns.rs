use phrack_downloader::phrack::html_parser::issue_dir_prefix_chars;
use phrack_downloader::phrack::links::{
    classify_digits, classify_tokens, find_entry_ref, find_issue_ref, EntryKind,
};
use regex::Regex;

const PIECES: [&str; 16] = [
    "/issues/", "/", "5", "15", "0", "a", "Z", ".", "txt", "pdf", "phrack-", "_", "x y", "issues",
    "٣", "é",
];

fn texts(max_pieces: usize) -> Vec<String> {
    let mut all = vec![String::new()];
    let mut last = vec![String::new()];
    for _ in 0..max_pieces {
        let mut next = Vec::new();
        for text in &last {
            for piece in PIECES {
                next.push(format!("{}{}", text, piece));
            }
        }
        all.extend(next.iter().cloned());
        last = next;
    }
    all
}

fn our_issue(href: &str) -> Option<String> {
    let h: Vec<char> = href.chars().collect();
    let digits = classify_digits(href);
    find_issue_ref(&h, &digits).map(|(start, end)| h[start..end].iter().collect())
}

fn our_entry(href: &str, number: u32) -> Option<(String, String)> {
    let h: Vec<char> = href.chars().collect();
    let tokens = classify_tokens(href);
    find_entry_ref(&h, &tokens, &issue_dir_prefix_chars(number)).map(|m| {
        let kind = match m.kind {
            EntryKind::Text => "txt",
            EntryKind::Pdf => "pdf",
        };
        (h[m.start..m.end].iter().collect(), kind.to_string())
    })
}

fn their_issue(pattern: &Regex, href: &str) -> Option<String> {
    pattern.captures(href).map(|c| c[1].to_string())
}

fn their_entry(pattern: &Regex, href: &str) -> Option<(String, String)> {
    pattern.captures(href).map(|c| (c[1].to_string(), c[2].to_string()))
}

#[test]
fn issue_links_are_what_the_pattern_matches() {
    let pattern = Regex::new(r"/issues/(\d+)/").unwrap();
    for href in texts(2) {
        assert_eq!(our_issue(&href), their_issue(&pattern, &href), "on {:?}", href);
    }
}

#[test]
fn entry_links_are_what_the_pattern_matches() {
    for number in [5u32, 15] {
        let pattern = Regex::new(&format!(r"/issues/{}/([\w-]+)\.(txt|pdf)", number)).unwrap();
        for href in texts(2) {
            assert_eq!(
                our_entry(&href, number),
                their_entry(&pattern, &href),
                "on {:?} for issue {}",
                href,
                number
            );
        }
    }
}

#[test]
fn longer_links_are_what_the_patterns_match() {
    let issue = Regex::new(r"/issues/(\d+)/").unwrap();
    let entry = Regex::new(r"/issues/5/([\w-]+)\.(txt|pdf)").unwrap();
    let heads = ["", "/issues/x", "/issues/5/.", "/issues/5/a.tx"];
    let tails = ["", "/issues/7/", "/issues/5/9.txt", ".pdf", "?q=/issues/5/phrack-5.pdf"];
    for head in heads {
        for middle in texts(1) {
            for tail in tails {
                let href = format!("{}{}{}", head, middle, tail);
                assert_eq!(our_issue(&href), their_issue(&issue, &href), "on {:?}", href);
                assert_eq!(our_entry(&href, 5), their_entry(&entry, &href), "on {:?}", href);
            }
        }
    }
}

#[test]
fn links_of_three_pieces_are_what_the_patterns_match() {
    let issue = Regex::new(r"/issues/(\d+)/").unwrap();
    let entry = Regex::new(r"/issues/5/([\w-]+)\.(txt|pdf)").unwrap();
    let firsts = ["/issues/", "/issues/5/", "x/issues/5/"];
    for first in firsts {
        for rest in texts(2) {
            if rest.chars().count() > 6 {
                continue;
            }
            let href = format!("{}{}", first, rest);
            assert_eq!(our_issue(&href), their_issue(&issue, &href), "on {:?}", href);
            assert_eq!(our_entry(&href, 5), their_entry(&entry, &href), "on {:?}", href);
        }
    }
}

#[test]
fn a_dot_is_asked_for_where_the_dotless_pattern_takes_any_character() {
    let dotless = Regex::new(r"/issues/5/([\w-]+).(txt|pdf)").unwrap();
    assert_eq!(
        their_entry(&dotless, "/issues/5/12txt"),
        Some(("1".to_string(), "txt".to_string()))
    );
    assert_eq!(our_entry("/issues/5/12txt", 5), None);
    assert_eq!(
        our_entry("/issues/5/12.txt", 5),
        their_entry(&dotless, "/issues/5/12.txt")
    );
}

#[test]
fn digits_and_tokens_of_every_script_count() {
    assert_eq!(our_issue("/issues/٣/"), Some("٣".to_string()));
    assert_eq!(our_entry("/issues/5/é.txt", 5), Some(("é".to_string(), "txt".to_string())));
    assert_eq!(
        our_entry("/issues/5/phrack-é.pdf", 5),
        Some(("phrack-é".to_string(), "pdf".to_string()))
    );
}
