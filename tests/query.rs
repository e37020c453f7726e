use wrapped::config::MailQuery;
use wrapped::error::WrError;
use wrapped::query::{build_imap_search_query, sequence_set};

fn query(patterns: &[&str], from: &str, to: &str, year: u32) -> MailQuery {
    MailQuery {
        wr_mailboxes: vec!["Sent".to_string()],
        re_mailboxes: vec!["INBOX".to_string()],
        pattern: patterns.iter().map(|p| p.to_string()).collect(),
        from: from.to_string(),
        to: to.to_string(),
        year,
    }
}

#[test]
fn search_query_with_one_pattern() {
    let q = query(&["Weekly Report"], "a@x.com", "b@x.com", 2023);
    let s = build_imap_search_query(&q).unwrap();
    assert_eq!(
        s,
        "SUBJECT \"Weekly Report\" FROM \"a@x.com\" TO \"b@x.com\" SINCE \"01-Jan-2023\" BEFORE \"01-Jan-2024\""
    );
}

#[test]
fn search_query_with_two_patterns() {
    let q = query(&["WR", "Weekly"], "me@x.org", "boss@x.org", 1999);
    let s = build_imap_search_query(&q).unwrap();
    assert_eq!(
        s,
        "SUBJECT \"WR\" OR SUBJECT \"Weekly\" FROM \"me@x.org\" TO \"boss@x.org\" SINCE \"01-Jan-1999\" BEFORE \"01-Jan-2000\""
    );
}

#[test]
fn search_query_names_sender_recipient_and_year() {
    for patterns in [vec!["a"], vec!["a", "b"]] {
        let q = query(&patterns, "from@h", "to@h", 9);
        let s = build_imap_search_query(&q).unwrap();
        assert!(s.contains("FROM \"from@h\""));
        assert!(s.contains("TO \"to@h\""));
        assert!(s.contains("SINCE \"01-Jan-9\""));
        assert!(s.contains("BEFORE \"01-Jan-10\""));
    }
}

#[test]
fn search_query_at_the_largest_year() {
    let q = query(&["WR"], "a", "b", u32::MAX);
    let s = build_imap_search_query(&q).unwrap();
    assert!(s.ends_with("SINCE \"01-Jan-4294967295\" BEFORE \"01-Jan-4294967296\""));
}

#[test]
fn search_query_without_pattern_fails() {
    let q = query(&[], "a", "b", 2023);
    assert!(matches!(build_imap_search_query(&q), Err(WrError::QueryError(_))));
}

#[test]
fn search_query_with_three_patterns_fails() {
    let q = query(&["a", "b", "c"], "a", "b", 2023);
    assert!(matches!(build_imap_search_query(&q), Err(WrError::QueryError(_))));
}

#[test]
fn reply_query_swaps_sender_and_recipient() {
    let q = query(&["WR"], "me@x", "boss@x", 2022);
    let r = q.reply_query();
    assert_eq!(r.from, "boss@x");
    assert_eq!(r.to, "me@x");
    assert_eq!(r.pattern, vec!["WR".to_string()]);
    assert_eq!(r.year, 2022);
    let s = build_imap_search_query(&r).unwrap();
    assert!(s.contains("FROM \"boss@x\" TO \"me@x\""));
}

#[test]
fn sequence_set_is_sorted_and_comma_separated() {
    assert_eq!(sequence_set(vec![12, 3, 7, 100]), "3,7,12,100");
    assert_eq!(sequence_set(vec![42]), "42");
    assert_eq!(sequence_set(vec![]), "");
    assert_eq!(sequence_set(vec![0, u32::MAX, 5]), "0,5,4294967295");
}

#[test]
fn error_messages_carry_their_label() {
    let e = WrError::QueryError("No pattern specified".to_string());
    assert_eq!(e.message(), "Query error: No pattern specified");
    let e = WrError::MailParseError("x".to_string());
    assert_eq!(e.message(), "Mail parse error: x");
    let io = std::io::Error::new(std::io::ErrorKind::Other, "disk full");
    let e = WrError::from(io);
    assert!(matches!(e, WrError::IoError(_)));
    assert!(e.message().starts_with("IO error: "));
    assert!(e.message().contains("disk full"));
}
