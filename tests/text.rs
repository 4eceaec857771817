use http_routing::text::{parse_usize, split_str, str_eq};
use http_routing::words::{exclude_first_word, first_word};

#[test]
fn usize_parsing_follows_from_str() {
    for s in ["0", "7", "+12", "007", "18446744073709551615", "", "+", "-1", " 1", "1 ", "1.0", "18446744073709551616"] {
        assert_eq!(parse_usize(s), s.parse::<u64>().ok().map(|n| n as usize), "{}", s);
    }
    assert_eq!(parse_usize("22"), Some(22));
}

#[test]
fn splitting_follows_str_split() {
    for s in ["", "a", "a\r\nb", "\r\n", "\r\r\n\n", "x\r\n\r\ny", "\r", "\n\r"] {
        let ours: Vec<&str> = split_str(s, b"\r\n");
        let std_split: Vec<&str> = s.split("\r\n").collect();
        assert_eq!(ours, std_split, "{:?}", s);
    }
    for s in ["/", "/a/b", "a//b/", ""] {
        let ours: Vec<&str> = split_str(s, b"/");
        let std_split: Vec<&str> = s.split('/').collect();
        assert_eq!(ours, std_split, "{:?}", s);
    }
}

#[test]
fn text_equality() {
    assert!(str_eq("abc", "abc"));
    assert!(!str_eq("abc", "abd"));
    assert!(!str_eq("abc", "ab"));
    assert!(str_eq("", ""));
}

#[test]
fn words_split_at_first_space() {
    assert_eq!(first_word("potato1 potato2"), "potato1");
    assert_eq!(exclude_first_word("potato1 potato2"), " potato2");
    assert_eq!(first_word("aojsdhfouanwsdf;kjl"), "aojsdhfouanwsdf;kjl");
    assert_eq!(exclude_first_word("aojsdhfouanwsdf;kjl"), "");
    assert_eq!(first_word("hi world today"), "hi");
    assert_eq!(exclude_first_word("hi world today"), " world today");
    assert_eq!(first_word(""), "");
}
