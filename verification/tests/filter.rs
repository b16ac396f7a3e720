use dns_forwarder::config::FilterConfig;
use dns_forwarder::filter::{parse_blocklist, DnsFilter, FilterError, FilterStats};

fn filter(config: &FilterConfig) -> DnsFilter {
    match DnsFilter::new(config) {
        Ok(filter) => filter,
        Err(error) => panic!("a filter can always be built: {}", error.message()),
    }
}

fn enabled(allowlist: &[&str]) -> FilterConfig {
    FilterConfig {
        blocklist_enabled: true,
        blocklist_files: vec![String::from("lists/ads.txt")],
        allowlist_enabled: true,
        allowlist_domains: allowlist.iter().map(|d| String::from(*d)).collect(),
    }
}

#[test]
fn a_blocklist_names_one_domain_per_line() {
    let content = "ads.example.com\nTracker.Example.NET\n\n# a comment\n  spaced.example.org \t\n";
    assert_eq!(
        parse_blocklist(content),
        vec!["ads.example.com", "tracker.example.net", "spaced.example.org"]
    );
}

#[test]
fn a_blocklist_may_end_without_a_line_feed_and_use_carriage_returns() {
    assert_eq!(parse_blocklist("one.example\r\ntwo.example\r\n"), vec!["one.example", "two.example"]);
    assert_eq!(parse_blocklist("one.example\ntwo.example"), vec!["one.example", "two.example"]);
    assert_eq!(parse_blocklist("one.example"), vec!["one.example"]);
    assert_eq!(parse_blocklist(""), Vec::<String>::new());
    assert_eq!(parse_blocklist("\n\n\n"), Vec::<String>::new());
    assert_eq!(parse_blocklist("   \n\t\n \r\n"), Vec::<String>::new());
}

#[test]
fn comments_start_with_a_hash_after_any_white_space() {
    assert_eq!(parse_blocklist("#one\n  # two\n\t#three\nfour # not a comment\n"), vec![
        "four # not a comment"
    ]);
    assert_eq!(parse_blocklist("a#b"), vec!["a#b"]);
}

#[test]
fn names_are_put_in_lower_case_beyond_ascii_too() {
    assert_eq!(parse_blocklist("ÄRGER.Example\nΣΟΦΟΣ.gr\n"), vec!["ärger.example", "σοφοσ.gr"]);
    // A capital sigma at the end of a word becomes a final sigma.
    assert_eq!(parse_blocklist("ΣΟΦΟΣ\n"), vec!["σοφος"]);
    // White space of any script is trimmed.
    assert_eq!(parse_blocklist("\u{3000}wide.example\u{2003}\n"), vec!["wide.example"]);
}

#[test]
fn the_same_lines_agree_with_the_standard_line_splitter() {
    let contents = [
        "a\nb\nc",
        "a\r\nb\r\n",
        "  x  \n\n#c\ny",
        "\n",
        "UPPER\n lower \n",
        "tab\tinside\nlast",
    ];
    for content in contents {
        let expected: Vec<String> = content
            .lines()
            .map(|line| line.trim())
            .filter(|line| !line.is_empty() && !line.starts_with('#'))
            .map(|line| line.to_lowercase())
            .collect();
        assert_eq!(parse_blocklist(content), expected);
    }
}

#[test]
fn loading_counts_the_lines_and_keeps_each_name_once() {
    let mut filter = filter(&enabled(&[]));
    assert_eq!(filter.load_blocklist("a.example\nB.example\nA.EXAMPLE\n# no\n"), 3);
    assert_eq!(filter.stats().blocked_domains_count, 2);
    assert_eq!(filter.load_blocklist("b.example\nc.example\n"), 2);
    assert_eq!(filter.stats().blocked_domains_count, 3);
    assert_eq!(filter.load_blocklist(""), 0);
    assert_eq!(filter.stats().blocked_domains_count, 3);
}

#[test]
fn the_allowlist_holds_the_configured_domains_in_lower_case() {
    let filter = filter(&enabled(&["Good.Example", "good.example", "Other.example"]));
    assert_eq!(
        filter.stats(),
        FilterStats {
            blocklist_enabled: true,
            allowlist_enabled: true,
            blocked_domains_count: 0,
            allowed_domains_count: 2,
        }
    );
}

#[test]
fn a_list_that_is_disabled_counts_as_empty() {
    let config = FilterConfig {
        blocklist_enabled: false,
        blocklist_files: vec![],
        allowlist_enabled: false,
        allowlist_domains: vec![String::from("good.example")],
    };
    let mut filter = filter(&config);
    assert_eq!(filter.load_blocklist("a.example\n"), 1);
    assert_eq!(
        filter.stats(),
        FilterStats {
            blocklist_enabled: false,
            allowlist_enabled: false,
            blocked_domains_count: 0,
            allowed_domains_count: 0,
        }
    );
}

#[test]
fn the_filter_blocks_nothing_yet() {
    let mut filter = filter(&enabled(&[]));
    filter.load_blocklist("ads.example.com\n");
    let query = vec![
        0x12u8, 0x34, 1, 0, 0, 1, 0, 0, 0, 0, 0, 0, 3, b'a', b'd', b's', 7, b'e', b'x', b'a',
        b'm', b'p', b'l', b'e', 3, b'c', b'o', b'm', 0, 0, 1, 0, 1,
    ];
    assert!(!filter.should_block(&query));
    assert!(!filter.should_block(&vec![]));
}

#[test]
fn filter_errors_say_what_happened() {
    assert_eq!(
        FilterError::FileError(String::from("No such file or directory")).message(),
        "文件错误: No such file or directory"
    );
}

#[test]
fn a_long_list_keeps_every_name_once() {
    let mut content = String::new();
    for i in 0..3000 {
        content.push_str(&format!("host{}.example\n", i % 2000));
    }
    let mut filter = filter(&enabled(&[]));
    assert_eq!(filter.load_blocklist(&content), 3000);
    assert_eq!(filter.stats().blocked_domains_count, 2000);
    assert_eq!(filter.load_blocklist("HOST7.example\nhost2000.example\n"), 2);
    assert_eq!(filter.stats().blocked_domains_count, 2001);
}
