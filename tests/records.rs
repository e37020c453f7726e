use wrapped::date::MailDate;
use wrapped::mail::{Address, Envelope, Mail};
use wrapped::wr::{merge_wrs, WRs, WR};

// 2024-01-05T00:00:00Z, a Friday.
const FRIDAY: i64 = 1704412800;
const DAY: i64 = 86400;

fn mail(timestamp: i64, subject: &str, message_id: Option<&str>, in_reply_to: Option<&str>) -> Mail {
    Mail {
        env: Envelope {
            date: MailDate { timestamp, offset: 0 },
            subject: subject.to_string(),
            cc: None,
            in_reply_to: in_reply_to.map(|s| s.to_string()),
            message_id: message_id.map(|s| s.to_string()),
        },
        body: None,
    }
}

#[test]
fn first_matching_reply_wins() {
    let sent = vec![mail(FRIDAY, "WR", Some("m1"), None)];
    let replies = vec![
        mail(FRIDAY + DAY, "Re: WR", Some("e2"), Some("m1")),
        mail(FRIDAY + 2 * DAY, "Re: WR", Some("e3"), Some("m1")),
    ];
    let wrs = merge_wrs(&sent, &replies);
    assert_eq!(wrs.num_wrs(), 1);
    let reply = wrs.wrs[0].reply.as_ref().unwrap();
    assert_eq!(reply.env.message_id.as_deref(), Some("e2"));
}

#[test]
fn unmatched_reply_attaches_nowhere() {
    let sent = vec![
        mail(FRIDAY, "WR 1", Some("m1"), None),
        mail(FRIDAY + 7 * DAY, "WR 2", Some("m2"), None),
    ];
    let replies = vec![mail(FRIDAY + DAY, "Re: WR 1", Some("e1"), Some("m1"))];
    let with_stray = vec![
        mail(FRIDAY + DAY, "Re: other", Some("e9"), Some("m9")),
        mail(FRIDAY + DAY, "Re: WR 1", Some("e1"), Some("m1")),
        mail(FRIDAY + DAY, "no threading", Some("e8"), None),
    ];
    let a = merge_wrs(&sent, &replies);
    let b = merge_wrs(&sent, &with_stray);
    assert_eq!(a.num_replied_wrs(), 1);
    assert_eq!(b.num_replied_wrs(), 1);
    for wrs in [&a, &b] {
        assert_eq!(wrs.wrs[0].reply.as_ref().unwrap().env.message_id.as_deref(), Some("e1"));
        assert!(wrs.wrs[1].reply.is_none());
    }
}

#[test]
fn sent_replies_are_filtered_out() {
    let sent = vec![
        mail(FRIDAY, "WR 1", Some("m1"), None),
        mail(FRIDAY, "Re: WR 1", Some("m2"), Some("m0")),
        mail(FRIDAY, "AW: WR 1", Some("m3"), Some("m0")),
        mail(FRIDAY, "Re: WR without threading", Some("m4"), None),
        mail(FRIDAY, "WR 2 threaded", Some("m5"), Some("m0")),
    ];
    let wrs = merge_wrs(&sent, &[]);
    assert_eq!(wrs.num_wrs(), 3);
    let ids: Vec<_> = wrs.wrs.iter().map(|w| w.sent.env.message_id.clone().unwrap()).collect();
    assert_eq!(ids, vec!["m1", "m4", "m5"]);
    assert_eq!(wrs.num_replied_wrs(), 0);
}

#[test]
fn reports_without_message_id_get_no_reply() {
    let sent = vec![mail(FRIDAY, "WR", None, None)];
    let replies = vec![mail(FRIDAY + DAY, "Re: WR", Some("e1"), None)];
    let wrs = merge_wrs(&sent, &replies);
    assert!(wrs.wrs[0].reply.is_none());
}

#[test]
fn one_reply_may_answer_two_reports() {
    let sent = vec![mail(FRIDAY, "WR", Some("m1"), None), mail(FRIDAY, "WR", Some("m1"), None)];
    let replies = vec![mail(FRIDAY + DAY, "Re: WR", Some("e1"), Some("m1"))];
    let wrs = merge_wrs(&sent, &replies);
    assert_eq!(wrs.num_replied_wrs(), 2);
}

#[test]
fn merge_of_nothing_is_empty() {
    let wrs = merge_wrs(&[], &[]);
    assert!(wrs.is_empty());
    assert_eq!(wrs.len(), 0);
}

#[test]
fn wr_delay_counts_days_since_friday() {
    let friday = WR::new(mail(FRIDAY + 15 * 3600, "WR", None, None), None);
    let monday = WR::new(mail(FRIDAY + 3 * DAY, "WR", None, None), None);
    let thursday = WR::new(mail(FRIDAY + 6 * DAY, "WR", None, None), None);
    let saturday = WR::new(mail(FRIDAY + DAY, "WR", None, None), None);
    assert_eq!(friday.wr_delay(), 0);
    assert_eq!(monday.wr_delay(), 3);
    assert_eq!(thursday.wr_delay(), 6);
    assert_eq!(saturday.wr_delay(), 1);
}

#[test]
fn reply_delay_is_in_whole_days() {
    let wr = WR::new(
        mail(FRIDAY, "WR", Some("m1"), None),
        Some(mail(FRIDAY + 2 * DAY + 3600, "Re: WR", None, Some("m1"))),
    );
    assert_eq!(wr.reply_delay(), Some(2));
    let early = WR::new(
        mail(FRIDAY, "WR", Some("m1"), None),
        Some(mail(FRIDAY - DAY - 1, "Re: WR", None, Some("m1"))),
    );
    assert_eq!(early.reply_delay(), Some(-1));
    let none = WR::new(mail(FRIDAY, "WR", Some("m1"), None), None);
    assert_eq!(none.reply_delay(), None);
}

#[test]
fn records_can_be_pushed_and_popped() {
    let mut wrs = WRs::default();
    assert!(wrs.is_empty());
    wrs.push(WR::new(mail(FRIDAY, "A", Some("a"), None), None));
    wrs.push(WR::new(mail(FRIDAY, "B", Some("b"), None), None));
    assert_eq!(wrs.len(), 2);
    assert_eq!(wrs.num_wrs(), 2);
    let last = wrs.pop().unwrap();
    assert_eq!(last.sent.env.subject, "B");
    assert_eq!(wrs.len(), 1);
    assert!(wrs.pop().is_some());
    assert!(wrs.pop().is_none());
    assert!(WRs::new().is_empty());
}

#[test]
fn cloned_mail_keeps_every_field() {
    let mut m = mail(FRIDAY, "WR", Some("m1"), Some("m0"));
    m.env.cc = Some(vec![Address { name: None, user: Some("u".to_string()), email: None }]);
    m.body = Some("text".to_string());
    let c = m.clone();
    assert_eq!(c.env.subject, "WR");
    assert_eq!(c.env.date, m.env.date);
    assert_eq!(c.env.cc.unwrap()[0].user.as_deref(), Some("u"));
    assert_eq!(c.body.as_deref(), Some("text"));
    assert_eq!(c.env.in_reply_to.as_deref(), Some("m0"));
}
