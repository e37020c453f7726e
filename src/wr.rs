//! Report records: each sent report paired with the reply it received, and
//! the matching that builds them.

use vstd::prelude::*;

use crate::mail::{is_reply_message, EnvelopeView, Mail, MailView};

verus! {

/// A sent report and the reply it received, if any.
#[derive(Debug)]
pub struct WR {
    pub sent: Mail,
    pub reply: Option<Mail>,
}

/// A record as plain values.
pub struct ReportView {
    pub sent: MailView,
    pub reply: Option<MailView>,
}

/// The view of an optional mail.
pub open spec fn mail_opt_view(m: Option<Mail>) -> Option<MailView> {
    match m {
        Some(x) => Some(x@),
        None => None,
    }
}

impl View for WR {
    type V = ReportView;

    open spec fn view(&self) -> ReportView {
        ReportView { sent: self.sent@, reply: mail_opt_view(self.reply) }
    }
}

/// The report records of a run, in the order the reports were supplied.
#[derive(Debug)]
pub struct WRs {
    pub wrs: Vec<WR>,
}

/// The views of a list of records.
pub open spec fn reports_view(v: Seq<WR>) -> Seq<ReportView> {
    v.map_values(|w: WR| w@)
}

impl View for WRs {
    type V = Seq<ReportView>;

    open spec fn view(&self) -> Seq<ReportView> {
        reports_view(self.wrs@)
    }
}

/// The views of a list of mails.
pub open spec fn mails_view(v: Seq<Mail>) -> Seq<MailView> {
    v.map_values(|m: Mail| m@)
}

/// `reply` answers `sent`: its `In-Reply-To` is, character for character,
/// the `Message-ID` of `sent`. A message without either never matches.
pub open spec fn answers(reply: EnvelopeView, sent: EnvelopeView) -> bool {
    match (reply.in_reply_to, sent.message_id) {
        (Some(i), Some(m)) => i == m,
        _ => false,
    }
}

/// The first of `replies`, in list order, that answers `sent`.
pub open spec fn first_reply(sent: EnvelopeView, replies: Seq<MailView>) -> Option<MailView>
    decreases replies.len(),
{
    if replies.len() == 0 {
        None
    } else {
        match first_reply(sent, replies.drop_last()) {
            Some(m) => Some(m),
            None => if answers(replies.last().env, sent) {
                Some(replies.last())
            } else {
                None
            },
        }
    }
}

/// The sent reports that count: every one but those that are themselves
/// replies, in their order.
pub open spec fn kept_reports(sent: Seq<MailView>) -> Seq<MailView>
    decreases sent.len(),
{
    if sent.len() == 0 {
        Seq::empty()
    } else if is_reply_message(sent.last().env) {
        kept_reports(sent.drop_last())
    } else {
        kept_reports(sent.drop_last()).push(sent.last())
    }
}

/// The records of the kept reports, each with its first reply.
pub open spec fn merged(sent: Seq<MailView>, replies: Seq<MailView>) -> Seq<ReportView> {
    kept_reports(sent).map_values(
        |m: MailView| ReportView { sent: m, reply: first_reply(m.env, replies) },
    )
}

proof fn lemma_first_reply_found(sent: EnvelopeView, replies: Seq<MailView>, j: int)
    requires
        0 <= j <= replies.len(),
        first_reply(sent, replies.take(j)) is Some,
    ensures
        first_reply(sent, replies) == first_reply(sent, replies.take(j)),
    decreases replies.len() - j,
{
    if j < replies.len() {
        assert(replies.take(j + 1).drop_last() =~= replies.take(j));
        lemma_first_reply_found(sent, replies, j + 1);
    } else {
        assert(replies.take(j) =~= replies);
    }
}

impl WR {
    /// A record of `sent` and its `reply`.
    pub fn new(sent: Mail, reply: Option<Mail>) -> (r: WR)
        ensures
            r@ == (ReportView { sent: sent@, reply: mail_opt_view(reply) }),
    {
        WR { sent, reply }
    }
}

/// Finds the first of `replies` that answers `sent`.
fn find_reply(sent: &Mail, replies: &[Mail]) -> (r: Option<Mail>)
    ensures
        mail_opt_view(r) == first_reply(sent.env@, mails_view(replies@)),
{
    let ghost rs = mails_view(replies@);
    let mut j: usize = 0;
    while j < replies.len()
        invariant
            rs == mails_view(replies@),
            j <= replies@.len(),
            first_reply(sent.env@, rs.take(j as int)) is None,
        decreases replies@.len() - j,
    {
        assert(rs.take(j + 1).drop_last() =~= rs.take(j as int));
        let hit = match (&replies[j].env.in_reply_to, &sent.env.message_id) {
            (Some(i), Some(m)) => *i == *m,
            _ => false,
        };
        if hit {
            let m = replies[j].clone();
            proof {
                lemma_first_reply_found(sent.env@, rs, j + 1);
            }
            return Some(m);
        }
        j = j + 1;
    }
    assert(rs.take(j as int) =~= rs);
    None
}

/// Pairs every sent report with the first reply that answers it. Sent
/// messages that are themselves replies (an `In-Reply-To` and a reply prefix
/// in the subject) are left out; the order of `wrs` is kept. A reply may
/// answer several reports.
pub fn merge_wrs(wrs: &[Mail], wrs_re: &[Mail]) -> (r: WRs)
    ensures
        r@ == merged(mails_view(wrs@), mails_view(wrs_re@)),
{
    let ghost sent = mails_view(wrs@);
    let ghost replies = mails_view(wrs_re@);
    let mut merged_wrs = WRs::new();
    for i in 0..wrs.len()
        invariant
            sent == mails_view(wrs@),
            replies == mails_view(wrs_re@),
            merged_wrs@ == merged(sent.take(i as int), replies),
    {
        assert(sent.take(i + 1).drop_last() =~= sent.take(i as int));
        if !wrs[i].env.is_reply_message() {
            let reply = find_reply(&wrs[i], wrs_re);
            let wr = WR::new(wrs[i].clone(), reply);
            merged_wrs.push(wr);
            assert(merged_wrs@ =~= merged(sent.take(i + 1), replies));
        } else {
            assert(merged_wrs@ =~= merged(sent.take(i + 1), replies));
        }
    }
    assert(sent.take(wrs@.len() as int) =~= sent);
    merged_wrs
}

impl WRs {
    /// No records.
    pub fn new() -> (r: WRs)
        ensures
            r@ == Seq::<ReportView>::empty(),
    {
        let r = WRs { wrs: Vec::new() };
        assert(r@ =~= Seq::<ReportView>::empty());
        r
    }

    /// Appends a record.
    pub fn push(&mut self, wr: WR)
        ensures
            final(self)@ == old(self)@.push(wr@),
    {
        let ghost w = wr@;
        self.wrs.push(wr);
        assert(final(self)@ =~= old(self)@.push(w));
    }

    /// Removes the last record and hands it back.
    pub fn pop(&mut self) -> (r: Option<WR>)
        ensures
            old(self)@.len() == 0 ==> r is None && final(self)@ == old(self)@,
            old(self)@.len() > 0 ==> (r matches Some(w) && w@ == old(self)@.last())
                && final(self)@ == old(self)@.drop_last(),
    {
        let r = self.wrs.pop();
        assert(final(self)@ =~= if old(self)@.len() > 0 {
            old(self)@.drop_last()
        } else {
            old(self)@
        });
        r
    }

    /// The number of records.
    pub fn len(&self) -> (r: usize)
        ensures
            r == self@.len(),
    {
        self.wrs.len()
    }

    /// Whether there is no record.
    pub fn is_empty(&self) -> (r: bool)
        ensures
            r == (self@.len() == 0),
    {
        self.wrs.len() == 0
    }

    /// The number of report records.
    pub fn num_wrs(&self) -> (r: usize)
        ensures
            r == self@.len(),
    {
        self.wrs.len()
    }

    /// The number of records that have a reply.
    pub fn num_replied_wrs(&self) -> (r: usize)
        ensures
            r == replied_count(self@),
            r <= self@.len(),
    {
        let mut n: usize = 0;
        for i in 0..self.wrs.len()
            invariant
                n == replied_count(self@.take(i as int)),
                n <= i,
        {
            assert(self@.take(i + 1).drop_last() =~= self@.take(i as int));
            if self.wrs[i].reply.is_some() {
                n = n + 1;
            }
        }
        assert(self@.take(self@.len() as int) =~= self@);
        n
    }
}

/// The number of records that have a reply.
pub open spec fn replied_count(s: Seq<ReportView>) -> nat
    decreases s.len(),
{
    if s.len() == 0 {
        0
    } else {
        replied_count(s.drop_last()) + if s.last().reply is Some {
            1nat
        } else {
            0nat
        }
    }
}

impl Default for WRs {
    fn default() -> (r: WRs)
        ensures
            r@ == Seq::<ReportView>::empty(),
    {
        WRs::new()
    }
}

/// The sent reports that count are exactly those that are no reply, in
/// their order: the list filtered by the reply-prefix rule.
pub proof fn lemma_kept_is_filter(sent: Seq<MailView>)
    ensures
        kept_reports(sent) == sent.filter(|m: MailView| !is_reply_message(m.env)),
    decreases sent.len(),
{
    reveal(Seq::filter);
    if sent.len() > 0 {
        lemma_kept_is_filter(sent.drop_last());
    }
}

/// Merging yields one record per sent report that is no reply: the number
/// of records is the length of the sent list after the reply-prefix filter.
pub proof fn lemma_num_wrs_is_kept(sent: Seq<MailView>, replies: Seq<MailView>)
    ensures
        merged(sent, replies).len() == sent.filter(|m: MailView| !is_reply_message(m.env)).len(),
{
    lemma_kept_is_filter(sent);
}

/// No more records have a reply than there are records, so the share of
/// replied records lies between 0 and 1.
pub proof fn lemma_replied_at_most_all(s: Seq<ReportView>)
    ensures
        replied_count(s) <= s.len(),
    decreases s.len(),
{
    if s.len() > 0 {
        lemma_replied_at_most_all(s.drop_last());
    }
}

proof fn lemma_kept_from_sent(sent: Seq<MailView>)
    ensures
        forall|j: int| 0 <= j < kept_reports(sent).len() ==> sent.contains(
            #[trigger] kept_reports(sent)[j],
        ),
    decreases sent.len(),
{
    if sent.len() > 0 {
        let rest = sent.drop_last();
        lemma_kept_from_sent(rest);
        assert forall|j: int| 0 <= j < kept_reports(sent).len() implies sent.contains(
            #[trigger] kept_reports(sent)[j],
        ) by {
            if j < kept_reports(rest).len() {
                let k = choose|k: int| 0 <= k < rest.len() && rest[k] == kept_reports(rest)[j];
                assert(sent[k] == rest[k]);
            } else {
                assert(sent[sent.len() - 1] == sent.last());
            }
        }
    }
}

proof fn lemma_first_reply_insert(
    sent: EnvelopeView,
    replies: Seq<MailView>,
    k: int,
    extra: MailView,
)
    requires
        0 <= k <= replies.len(),
        !answers(extra.env, sent),
    ensures
        first_reply(sent, replies.insert(k, extra)) == first_reply(sent, replies),
    decreases replies.len(),
{
    let longer = replies.insert(k, extra);
    if k == replies.len() {
        assert(longer.drop_last() =~= replies);
    } else {
        assert(longer.drop_last() =~= replies.drop_last().insert(k, extra));
        assert(longer.last() == replies.last());
        lemma_first_reply_insert(sent, replies.drop_last(), k, extra);
    }
}

/// A reply that answers none of the sent reports attaches to no record:
/// adding it anywhere among the replies changes no record, so neither the
/// number of replied records.
pub proof fn lemma_unmatched_reply_ignored(
    sent: Seq<MailView>,
    replies: Seq<MailView>,
    k: int,
    extra: MailView,
)
    requires
        0 <= k <= replies.len(),
        forall|i: int| 0 <= i < sent.len() ==> !answers(extra.env, #[trigger] sent[i].env),
    ensures
        merged(sent, replies.insert(k, extra)) == merged(sent, replies),
        replied_count(merged(sent, replies.insert(k, extra))) == replied_count(
            merged(sent, replies),
        ),
{
    let kept = kept_reports(sent);
    lemma_kept_from_sent(sent);
    assert forall|j: int| 0 <= j < kept.len() implies first_reply(
        kept[j].env,
        replies.insert(k, extra),
    ) == first_reply(kept[j].env, replies) by {
        assert(sent.contains(kept[j]));
        let i = choose|i: int| 0 <= i < sent.len() && sent[i] == kept[j];
        assert(!answers(extra.env, sent[i].env));
        lemma_first_reply_insert(kept[j].env, replies, k, extra);
    }
    assert(merged(sent, replies.insert(k, extra)) =~= merged(sent, replies));
}

} // verus!
