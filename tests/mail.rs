use wrapped::date::MailDate;
use wrapped::error::WrError;
use wrapped::mail::{Address, Envelope, RawAddress, RawEnvelope};

fn bytes(s: &str) -> Option<Vec<u8>> {
    Some(s.as_bytes().to_vec())
}

fn raw_envelope(date: Option<&str>, subject: Option<&str>) -> RawEnvelope {
    RawEnvelope {
        date: date.map(|d| d.as_bytes().to_vec()),
        subject: subject.map(|s| s.as_bytes().to_vec()),
        cc: None,
        in_reply_to: None,
        message_id: bytes("<m1@x>"),
    }
}

#[test]
fn address_with_user_and_host_has_full_email() {
    let raw = RawAddress { name: bytes("Ada"), mailbox: bytes("ada"), host: bytes("example.org") };
    let a = Address::from_imap_address(&raw);
    assert_eq!(a.name.as_deref(), Some("Ada"));
    assert_eq!(a.user.as_deref(), Some("ada"));
    assert_eq!(a.email.as_deref(), Some("ada@example.org"));
}

#[test]
fn address_without_host_has_no_email() {
    let raw = RawAddress { name: None, mailbox: bytes("bob"), host: None };
    let a = Address::from_imap_address(&raw);
    assert_eq!(a.name, None);
    assert_eq!(a.user.as_deref(), Some("bob"));
    assert_eq!(a.email, None);
}

#[test]
fn invalid_utf8_is_replaced() {
    let raw = RawAddress { name: Some(vec![b'a', 0xff, b'b']), mailbox: None, host: None };
    let a = Address::from_imap_address(&raw);
    assert_eq!(a.name.as_deref(), Some("a\u{FFFD}b"));
}

#[test]
fn envelope_is_read_with_its_date() {
    let mut raw = raw_envelope(Some("Fri, 05 Jan 2024 10:30:00 +0100"), Some("Weekly Report"));
    raw.in_reply_to = bytes("<x@y>");
    raw.cc = Some(vec![
        RawAddress { name: None, mailbox: bytes("carol"), host: bytes("x.org") },
        RawAddress { name: bytes("No User"), mailbox: None, host: None },
    ]);
    let e = Envelope::from_imap_envelope(&raw).unwrap();
    assert_eq!(e.date, MailDate { timestamp: 1704447000, offset: 3600 });
    assert_eq!(e.date.weekday(), 4);
    assert_eq!(e.date.hour(), 10);
    assert_eq!(e.subject, "Weekly Report");
    assert_eq!(e.in_reply_to.as_deref(), Some("<x@y>"));
    assert_eq!(e.message_id.as_deref(), Some("<m1@x>"));
    let cc = e.cc.unwrap();
    assert_eq!(cc.len(), 2);
    assert_eq!(cc[0].email.as_deref(), Some("carol@x.org"));
    assert_eq!(cc[1].user, None);
}

#[test]
fn envelope_without_date_is_rejected() {
    let raw = raw_envelope(None, Some("Weekly Report"));
    assert!(matches!(Envelope::from_imap_envelope(&raw), Err(WrError::MailParseError(_))));
}

#[test]
fn envelope_with_malformed_date_is_rejected() {
    let raw = raw_envelope(Some("yesterday at noon"), Some("Weekly Report"));
    assert!(matches!(Envelope::from_imap_envelope(&raw), Err(WrError::MailParseError(_))));
}

#[test]
fn envelope_without_subject_is_rejected() {
    let raw = raw_envelope(Some("Fri, 05 Jan 2024 10:30:00 +0000"), None);
    assert!(matches!(Envelope::from_imap_envelope(&raw), Err(WrError::MailParseError(_))));
}

#[test]
fn reply_messages_are_recognised_by_subject() {
    let mut raw = raw_envelope(Some("Fri, 05 Jan 2024 10:30:00 +0000"), Some("Re: Weekly Report"));
    let e = Envelope::from_imap_envelope(&raw).unwrap();
    assert!(!e.is_reply_message());
    raw.in_reply_to = bytes("<m0@x>");
    let e = Envelope::from_imap_envelope(&raw).unwrap();
    assert!(e.is_reply_message());
    for subject in ["AW: WR", "Aw: WR", "RE: WR", "Fwd Re: WR"] {
        raw.subject = bytes(subject);
        assert!(Envelope::from_imap_envelope(&raw).unwrap().is_reply_message());
    }
    raw.subject = bytes("re: lower case WR");
    assert!(!Envelope::from_imap_envelope(&raw).unwrap().is_reply_message());
}

#[test]
fn weekday_and_hour_follow_the_local_clock() {
    // 1970-01-01T00:00:00Z was a Thursday.
    let d = MailDate { timestamp: 0, offset: 0 };
    assert_eq!((d.weekday(), d.hour()), (3, 0));
    // One second earlier it was Wednesday, 23:00 hour.
    let d = MailDate { timestamp: -1, offset: 0 };
    assert_eq!((d.weekday(), d.hour()), (2, 23));
    // 2024-01-05T23:30:00Z seen from UTC+02:00 is Saturday 01:30.
    let d = MailDate { timestamp: 1704412800 + 23 * 3600 + 1800, offset: 7200 };
    assert_eq!((d.weekday(), d.hour()), (5, 1));
    // The same instant seen from UTC-10:00 is Friday 13:30.
    let d = MailDate { timestamp: 1704412800 + 23 * 3600 + 1800, offset: -36000 };
    assert_eq!((d.weekday(), d.hour()), (4, 13));
}

#[test]
fn days_until_truncates_toward_zero() {
    let a = MailDate { timestamp: 1000, offset: 0 };
    let b = MailDate { timestamp: 1000 + 2 * 86400 + 86399, offset: 3600 };
    assert_eq!(a.days_until(&b), 2);
    assert_eq!(b.days_until(&a), -2);
    let c = MailDate { timestamp: 1000 + 86399, offset: 0 };
    assert_eq!(a.days_until(&c), 0);
    assert_eq!(c.days_until(&a), 0);
}
