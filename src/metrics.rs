//! The statistics computed over the report records.

use std::collections::HashMap;
use vstd::prelude::*;

use crate::mail::{addresses_view, AddressView};
use crate::text::{count_words, word_count};
use crate::wr::{replied_count, ReportView, WRs, WR};

verus! {

/// Weeks in a year, the number of reports a year asks for.
pub const WEEKS_PER_YEAR: i64 = 52;

/// Days from the latest Friday (on or before the sending day) to the day
/// the report was sent: 0 on a Friday, 1 on a Saturday, ..., 3 on a Monday,
/// 6 on a Thursday.
pub open spec fn wr_delay(r: ReportView) -> int {
    (r.sent.env.date.spec_weekday() + 3) % 7
}

/// Whole days from sending a report to its reply, when it has one.
pub open spec fn reply_delay(r: ReportView) -> Option<int> {
    match r.reply {
        Some(m) => Some(r.sent.env.date.spec_days_until(m.env.date)),
        None => None,
    }
}

/// The sum of `wr_delay` over all records.
pub open spec fn total_wr_delay(s: Seq<ReportView>) -> int
    decreases s.len(),
{
    if s.len() == 0 {
        0
    } else {
        total_wr_delay(s.drop_last()) + wr_delay(s.last())
    }
}

/// The sum of `reply_delay` over the records that have a reply.
pub open spec fn total_reply_delay(s: Seq<ReportView>) -> int
    decreases s.len(),
{
    if s.len() == 0 {
        0
    } else {
        total_reply_delay(s.drop_last()) + match reply_delay(s.last()) {
            Some(d) => d,
            None => 0,
        }
    }
}

/// The words of a record's report body; none without a body.
pub open spec fn words_of(r: ReportView) -> nat {
    match r.sent.body {
        Some(b) => word_count(b),
        None => 0,
    }
}

/// The words of all report bodies.
pub open spec fn total_words(s: Seq<ReportView>) -> nat
    decreases s.len(),
{
    if s.len() == 0 {
        0
    } else {
        total_words(s.drop_last()) + words_of(s.last())
    }
}

impl WR {
    /// Days from the latest Friday to the day this report was sent.
    pub fn wr_delay(&self) -> (r: i64)
        ensures
            r == wr_delay(self@),
            0 <= r < 7,
    {
        let weekday = self.sent.env.date.weekday();
        ((weekday + 3) % 7) as i64
    }

    /// Whole days from sending this report to its reply, truncated toward
    /// zero (negative when the reply is dated earlier); none without a reply.
    pub fn reply_delay(&self) -> (r: Option<i64>)
        ensures
            match r {
                Some(d) => reply_delay(self@) == Some(d as int),
                None => reply_delay(self@) is None,
            },
    {
        match &self.reply {
            Some(reply) => Some(self.sent.env.date.days_until(&reply.env.date)),
            None => None,
        }
    }

    /// The words of this report's body.
    pub fn num_words(&self) -> (r: usize)
        ensures
            r == words_of(self@),
    {
        match &self.sent.body {
            Some(body) => count_words(body.as_str()),
            None => 0,
        }
    }
}

impl WRs {
    /// The words of all report bodies.
    pub fn num_words(&self) -> (r: usize)
        requires
            total_words(self@) <= usize::MAX,
        ensures
            r == total_words(self@),
    {
        let mut n: usize = 0;
        for i in 0..self.wrs.len()
            invariant
                n == total_words(self@.take(i as int)),
                total_words(self@) <= usize::MAX,
        {
            assert(self@.take(i + 1).drop_last() =~= self@.take(i as int));
            proof {
                lemma_total_words_prefix(self@, i + 1);
            }
            let w = self.wrs[i].num_words();
            n = n + w;
        }
        assert(self@.take(self@.len() as int) =~= self@);
        n
    }

    /// Weeks of the year without a report: 52, less the holiday weeks, less
    /// the reports sent. Negative when more reports were sent than that.
    pub fn num_skipped_wrs(&self, num_holidays: u32) -> (r: i64)
        requires
            WEEKS_PER_YEAR - num_holidays - self@.len() >= i64::MIN,
        ensures
            r == WEEKS_PER_YEAR - num_holidays - self@.len(),
    {
        let n = self.wrs.len();
        let skipped: i128 = WEEKS_PER_YEAR as i128 - num_holidays as i128 - n as i128;
        skipped as i64
    }

    /// The sum of `wr_delay` over all records.
    pub fn total_wr_delay(&self) -> (r: i128)
        ensures
            r == total_wr_delay(self@),
    {
        let mut sum: i128 = 0;
        for i in 0..self.wrs.len()
            invariant
                sum == total_wr_delay(self@.take(i as int)),
                0 <= sum <= 6 * i,
        {
            assert(self@.take(i + 1).drop_last() =~= self@.take(i as int));
            sum = sum + self.wrs[i].wr_delay() as i128;
        }
        assert(self@.take(self@.len() as int) =~= self@);
        sum
    }

    /// The sum of `reply_delay` over the records that have a reply.
    pub fn total_reply_delay(&self) -> (r: i128)
        ensures
            r == total_reply_delay(self@),
    {
        let mut sum: i128 = 0;
        for i in 0..self.wrs.len()
            invariant
                sum == total_reply_delay(self@.take(i as int)),
                -0x1_0000_0000_0000 * i <= sum <= 0x1_0000_0000_0000 * i,
        {
            assert(self@.take(i + 1).drop_last() =~= self@.take(i as int));
            match self.wrs[i].reply_delay() {
                Some(d) => {
                    proof {
                        lemma_days_until_bounded(self@[i as int]);
                    }
                    sum = sum + d as i128;
                },
                None => {},
            }
        }
        assert(self@.take(self@.len() as int) =~= self@);
        sum
    }
}

proof fn lemma_total_words_prefix(s: Seq<ReportView>, i: int)
    requires
        0 <= i <= s.len(),
    ensures
        total_words(s.take(i)) <= total_words(s),
    decreases s.len() - i,
{
    if i < s.len() {
        assert(s.take(i + 1).drop_last() =~= s.take(i));
        lemma_total_words_prefix(s, i + 1);
    } else {
        assert(s.take(i) =~= s);
    }
}

proof fn lemma_days_until_bounded(r: ReportView)
    requires
        r.reply is Some,
    ensures
        -0x1_0000_0000_0000 <= reply_delay(r)->Some_0 <= 0x1_0000_0000_0000,
{
    let d = r.reply->Some_0.env.date.timestamp - r.sent.env.date.timestamp;
    if d >= 0 {
        assert(d / 86400 <= 0x1_0000_0000_0000) by (nonlinear_arith)
            requires 0 <= d < 0x1_0000_0000_0000_0000;
    } else {
        assert((-d) / 86400 <= 0x1_0000_0000_0000) by (nonlinear_arith)
            requires 0 < -d < 0x1_0000_0000_0000_0000;
    }
}

/// The bucket of a record: the hour (0 ... 23) or the weekday (Monday = 0
/// ... Sunday = 6) at which its report was sent, on the sender's clock.
pub open spec fn bucket(r: ReportView, by_hour: bool) -> int {
    if by_hour {
        r.sent.env.date.spec_hour()
    } else {
        r.sent.env.date.spec_weekday()
    }
}

/// The number of buckets: 24 hours or 7 weekdays.
pub open spec fn num_buckets(by_hour: bool) -> int {
    if by_hour {
        24
    } else {
        7
    }
}

/// Whether a histogram counts the record: all of them, or only those with a
/// reply.
pub open spec fn counted(r: ReportView, replied_only: bool) -> bool {
    !replied_only || r.reply is Some
}

/// The number of counted records that fall in bucket `b`.
pub open spec fn bucket_count(s: Seq<ReportView>, by_hour: bool, replied_only: bool, b: int) -> nat
    decreases s.len(),
{
    if s.len() == 0 {
        0
    } else {
        bucket_count(s.drop_last(), by_hour, replied_only, b) + if counted(s.last(), replied_only)
            && bucket(s.last(), by_hour) == b {
            1nat
        } else {
            0nat
        }
    }
}

/// The histogram: every bucket, those without records too, mapped to its
/// count.
pub open spec fn histogram(s: Seq<ReportView>, by_hour: bool, replied_only: bool) -> Map<u32, u32> {
    Map::new(
        |k: u32| k < num_buckets(by_hour),
        |k: u32| bucket_count(s, by_hour, replied_only, k as int) as u32,
    )
}

proof fn lemma_bucket_in_range(r: ReportView, by_hour: bool)
    ensures
        0 <= bucket(r, by_hour) < num_buckets(by_hour),
{
    let x = r.sent.env.date.local_seconds();
    if by_hour {
        let m = x % 86400;
        assert(0 <= m / 3600 < 24) by (nonlinear_arith)
            requires 0 <= m < 86400;
    }
}

impl WRs {
    fn histogram(&self, by_hour: bool, replied_only: bool) -> (r: HashMap<u32, u32>)
        requires
            self@.len() <= u32::MAX,
        ensures
            r@ == histogram(self@, by_hour, replied_only),
    {
        broadcast use vstd::std_specs::hash::group_hash_axioms;

        let n: usize = if by_hour {
            24
        } else {
            7
        };
        let mut counts: Vec<u32> = Vec::new();
        for k in 0..n
            invariant
                counts@.len() == k,
                forall|b: int| 0 <= b < k ==> counts@[b] == 0,
        {
            counts.push(0);
        }
        for i in 0..self.wrs.len()
            invariant
                n == num_buckets(by_hour),
                counts@.len() == n,
                self@.len() <= u32::MAX,
                forall|b: int|
                    0 <= b < n ==> counts@[b] == bucket_count(
                        #[trigger] self@.take(i as int),
                        by_hour,
                        replied_only,
                        b,
                    ) && counts@[b] <= i,
        {
            assert(self@.take(i + 1).drop_last() =~= self@.take(i as int));
            let wr = &self.wrs[i];
            if !replied_only || wr.reply.is_some() {
                let b: u32 = if by_hour {
                    wr.sent.env.date.hour()
                } else {
                    wr.sent.env.date.weekday()
                };
                let c = counts[b as usize];
                counts.set(b as usize, c + 1);
            }
            proof {
                lemma_bucket_in_range(self@[i as int], by_hour);
            }
        }
        assert(self@.take(self@.len() as int) =~= self@);
        let mut hist: HashMap<u32, u32> = HashMap::new();
        for k in 0..n
            invariant
                n == num_buckets(by_hour),
                counts@.len() == n,
                forall|b: int|
                    0 <= b < n ==> counts@[b] == bucket_count(self@, by_hour, replied_only, b),
                hist@ == Map::new(|x: u32| x < k, |x: u32| counts@[x as int]),
        {
            hist.insert(k as u32, counts[k]);
            assert(hist@ =~= Map::new(|x: u32| x < k + 1, |x: u32| counts@[x as int]));
        }
        assert(hist@ =~= histogram(self@, by_hour, replied_only));
        hist
    }

    /// The number of reports sent on each weekday (Monday = 0 ... Sunday = 6).
    pub fn weekday_wr_histogram(&self) -> (r: HashMap<u32, u32>)
        requires
            self@.len() <= u32::MAX,
        ensures
            r@ == histogram(self@, false, false),
    {
        self.histogram(false, false)
    }

    /// The number of replied reports sent on each weekday.
    pub fn weekday_reply_histogram(&self) -> (r: HashMap<u32, u32>)
        requires
            self@.len() <= u32::MAX,
        ensures
            r@ == histogram(self@, false, true),
    {
        self.histogram(false, true)
    }

    /// The number of reports sent in each hour of the day (0 ... 23).
    pub fn hour_wr_histogram(&self) -> (r: HashMap<u32, u32>)
        requires
            self@.len() <= u32::MAX,
        ensures
            r@ == histogram(self@, true, false),
    {
        self.histogram(true, false)
    }

    /// The number of replied reports sent in each hour of the day.
    pub fn hour_reply_histogram(&self) -> (r: HashMap<u32, u32>)
        requires
            self@.len() <= u32::MAX,
        ensures
            r@ == histogram(self@, true, true),
    {
        self.histogram(true, true)
    }
}

/// The user parts of the addresses that have one, in order.
pub open spec fn users_of(addrs: Seq<AddressView>) -> Seq<Seq<char>>
    decreases addrs.len(),
{
    if addrs.len() == 0 {
        Seq::empty()
    } else {
        match addrs.last().user {
            Some(u) => users_of(addrs.drop_last()).push(u),
            None => users_of(addrs.drop_last()),
        }
    }
}

/// The user parts of the CC addresses of a record's sent report.
pub open spec fn cc_of(r: ReportView) -> Seq<Seq<char>> {
    match r.sent.env.cc {
        Some(a) => users_of(a),
        None => Seq::empty(),
    }
}

/// The user parts of the CC addresses of all sent reports, in order.
pub open spec fn cc_users(s: Seq<ReportView>) -> Seq<Seq<char>>
    decreases s.len(),
{
    if s.len() == 0 {
        Seq::empty()
    } else {
        cc_users(s.drop_last()) + cc_of(s.last())
    }
}

/// How often `u` occurs in `s`.
pub open spec fn occurrences(s: Seq<Seq<char>>, u: Seq<char>) -> nat
    decreases s.len(),
{
    if s.len() == 0 {
        0
    } else {
        occurrences(s.drop_last(), u) + if s.last() == u {
            1nat
        } else {
            0nat
        }
    }
}

/// `h` counts the names in `names`: one entry per distinct name, each with
/// the number of times the name occurs.
pub open spec fn is_tally(h: Seq<(String, u32)>, names: Seq<Seq<char>>) -> bool {
    &&& forall|i: int, j: int| 0 <= i < j < h.len() ==> h[i].0@ != h[j].0@
    &&& forall|i: int|
        0 <= i < h.len() ==> h[i].1 == occurrences(names, h[i].0@) && names.contains(
            #[trigger] h[i].0@,
        )
    &&& forall|u: Seq<char>|
        names.contains(u) ==> exists|i: int| 0 <= i < h.len() && #[trigger] h[i].0@ == u
}

proof fn lemma_occurrences_bounded(s: Seq<Seq<char>>, u: Seq<char>)
    ensures
        occurrences(s, u) <= s.len(),
    decreases s.len(),
{
    if s.len() > 0 {
        lemma_occurrences_bounded(s.drop_last(), u);
    }
}

proof fn lemma_users_prefix(a: Seq<AddressView>, j: int)
    requires
        0 <= j <= a.len(),
    ensures
        users_of(a.take(j)).len() <= users_of(a).len(),
    decreases a.len() - j,
{
    if j < a.len() {
        assert(a.take(j + 1).drop_last() =~= a.take(j));
        lemma_users_prefix(a, j + 1);
    } else {
        assert(a.take(j) =~= a);
    }
}

proof fn lemma_cc_users_prefix(s: Seq<ReportView>, i: int)
    requires
        0 <= i <= s.len(),
    ensures
        cc_users(s.take(i)).len() <= cc_users(s).len(),
    decreases s.len() - i,
{
    if i < s.len() {
        assert(s.take(i + 1).drop_last() =~= s.take(i));
        lemma_cc_users_prefix(s, i + 1);
    } else {
        assert(s.take(i) =~= s);
    }
}

proof fn lemma_push_contains(names: Seq<Seq<char>>, name: Seq<char>)
    ensures
        forall|u: Seq<char>| #[trigger]
            names.push(name).contains(u) <==> names.contains(u) || u == name,
        forall|u: Seq<char>|
            #[trigger] occurrences(names.push(name), u) == occurrences(names, u) + if u == name {
                1nat
            } else {
                0nat
            },
{
    let next = names.push(name);
    assert(next.drop_last() =~= names);
    assert forall|u: Seq<char>| next.contains(u) implies names.contains(u) || u == name by {
        let k = choose|k: int| 0 <= k < next.len() && next[k] == u;
        if k < names.len() {
            assert(names[k] == u);
        }
    }
    assert(next[names.len() as int] == name);
    assert forall|u: Seq<char>| names.contains(u) implies next.contains(u) by {
        let k = choose|k: int| 0 <= k < names.len() && names[k] == u;
        assert(next[k] == u);
    }
}

/// Counts one more occurrence of `name`.
fn tally(hist: &mut Vec<(String, u32)>, name: &String, Ghost(names): Ghost<Seq<Seq<char>>>)
    requires
        is_tally(old(hist)@, names),
        names.len() < u32::MAX,
    ensures
        is_tally(final(hist)@, names.push(name@)),
{
    let ghost next = names.push(name@);
    proof {
        lemma_push_contains(names, name@);
    }
    let mut j: usize = 0;
    while j < hist.len()
        invariant
            hist@ == old(hist)@,
            is_tally(hist@, names),
            names.len() < u32::MAX,
            next == names.push(name@),
            j <= hist@.len(),
            forall|k: int| 0 <= k < j ==> hist@[k].0@ != name@,
        decreases hist@.len() - j,
    {
        if hist[j].0 == *name {
            let count = hist[j].1;
            proof {
                lemma_push_contains(names, name@);
                assert(hist@[j as int].0@ == name@);
                assert(names.contains(hist@[j as int].0@));
                assert(count == occurrences(names, name@));
                lemma_occurrences_bounded(names, name@);
            }
            let entry = (hist[j].0.clone(), count + 1);
            let ghost h = hist@;
            hist.set(j, entry);
            proof {
                let h2 = hist@;
                assert forall|k: int| 0 <= k < h2.len() implies h2[k].1 == occurrences(
                    next,
                    h2[k].0@,
                ) && next.contains(#[trigger] h2[k].0@) by {
                    if k != j {
                        assert(h2[k] == h[k]);
                        assert(h[k].0@ != h[j as int].0@);
                        assert(names.contains(h[k].0@));
                        assert(h[k].1 == occurrences(names, h[k].0@));
                    } else {
                        assert(h[j as int].1 == occurrences(names, h[j as int].0@));
                    }
                }
                assert forall|u: Seq<char>| next.contains(u) implies exists|i: int|
                    0 <= i < h2.len() && #[trigger] h2[i].0@ == u by {
                    if u == name@ {
                        assert(h2[j as int].0@ == u);
                    } else {
                        assert(names.contains(u));
                        let i = choose|i: int| 0 <= i < h.len() && #[trigger] h[i].0@ == u;
                        assert(h2[i].0@ == u);
                    }
                }
            }
            return;
        }
        j = j + 1;
    }
    proof {
        assert(!names.contains(name@));
        lemma_absent_occurrences(names, name@);
    }
    let ghost h = hist@;
    hist.push((name.clone(), 1));
    proof {
        let h2 = hist@;
        assert forall|k: int| 0 <= k < h2.len() implies h2[k].1 == occurrences(next, h2[k].0@)
            && next.contains(#[trigger] h2[k].0@) by {
            if k < h.len() {
                assert(names.contains(h[k].0@));
            }
        }
        assert forall|u: Seq<char>| next.contains(u) implies exists|i: int|
            0 <= i < h2.len() && #[trigger] h2[i].0@ == u by {
            if u == name@ {
                assert(h2[h.len() as int].0@ == u);
            } else {
                assert(names.contains(u));
                let i = choose|i: int| 0 <= i < h.len() && #[trigger] h[i].0@ == u;
                assert(h2[i].0@ == u);
            }
        }
    }
}

proof fn lemma_absent_occurrences(s: Seq<Seq<char>>, u: Seq<char>)
    requires
        !s.contains(u),
    ensures
        occurrences(s, u) == 0,
    decreases s.len(),
{
    if s.len() > 0 {
        assert(!s.drop_last().contains(u)) by {
            if s.drop_last().contains(u) {
                let k = choose|k: int| 0 <= k < s.len() - 1 && s.drop_last()[k] == u;
                assert(s[k] == u);
            }
        }
        lemma_absent_occurrences(s.drop_last(), u);
    }
}

impl WRs {
    /// How often each user part occurs among the CC addresses of the sent
    /// reports: one entry per distinct user, each with its count. Addresses
    /// without a user part are skipped; replies are not looked at.
    pub fn cc_histogram(&self) -> (r: Vec<(String, u32)>)
        requires
            cc_users(self@).len() <= u32::MAX,
        ensures
            is_tally(r@, cc_users(self@)),
    {
        let mut hist: Vec<(String, u32)> = Vec::new();
        for i in 0..self.wrs.len()
            invariant
                cc_users(self@).len() <= u32::MAX,
                is_tally(hist@, cc_users(self@.take(i as int))),
        {
            let ghost before = cc_users(self@.take(i as int));
            assert(self@.take(i + 1).drop_last() =~= self@.take(i as int));
            proof {
                lemma_cc_users_prefix(self@, i + 1);
            }
            match &self.wrs[i].sent.env.cc {
                Some(cc) => {
                    let ghost a = addresses_view(cc@);
                    assert(cc_of(self@[i as int]) == users_of(a));
                    for j in 0..cc.len()
                        invariant
                            a == addresses_view(cc@),
                            cc_users(self@.take(i + 1)) == before + users_of(a),
                            cc_users(self@.take(i + 1)).len() <= u32::MAX,
                            is_tally(hist@, before + users_of(a.take(j as int))),
                    {
                        assert(a.take(j + 1).drop_last() =~= a.take(j as int));
                        proof {
                            lemma_users_prefix(a, j + 1);
                        }
                        match &cc[j].user {
                            Some(u) => {
                                let ghost names = before + users_of(a.take(j as int));
                                tally(&mut hist, u, Ghost(names));
                                assert(names.push(u@) =~= before + users_of(a.take(j + 1)));
                            },
                            None => {},
                        }
                    }
                    assert(a.take(cc@.len() as int) =~= a);
                },
                None => {
                    assert(before + cc_of(self@[i as int]) =~= before);
                },
            }
        }
        assert(self@.take(self@.len() as int) =~= self@);
        hist
    }
}

/// The counts of buckets `0 .. n` added up.
pub open spec fn histogram_total(s: Seq<ReportView>, by_hour: bool, replied_only: bool, n: int) -> nat
    decreases n,
{
    if n <= 0 {
        0
    } else {
        histogram_total(s, by_hour, replied_only, n - 1) + bucket_count(
            s,
            by_hour,
            replied_only,
            n - 1,
        )
    }
}

proof fn lemma_total_step(s: Seq<ReportView>, by_hour: bool, replied_only: bool, n: int)
    requires
        s.len() > 0,
        n >= 0,
    ensures
        histogram_total(s, by_hour, replied_only, n) == histogram_total(
            s.drop_last(),
            by_hour,
            replied_only,
            n,
        ) + if counted(s.last(), replied_only) && 0 <= bucket(s.last(), by_hour) < n {
            1nat
        } else {
            0nat
        },
    decreases n,
{
    if n > 0 {
        lemma_total_step(s, by_hour, replied_only, n - 1);
    }
}

proof fn lemma_total_empty(s: Seq<ReportView>, by_hour: bool, replied_only: bool, n: int)
    requires
        s.len() == 0,
    ensures
        histogram_total(s, by_hour, replied_only, n) == 0,
    decreases n,
{
    if n > 0 {
        lemma_total_empty(s, by_hour, replied_only, n - 1);
    }
}

/// Every histogram adds up to the records it counts: all of them, or those
/// with a reply.
pub proof fn lemma_histogram_total(s: Seq<ReportView>, by_hour: bool, replied_only: bool)
    ensures
        histogram_total(s, by_hour, replied_only, num_buckets(by_hour)) == if replied_only {
            replied_count(s)
        } else {
            s.len()
        },
    decreases s.len(),
{
    if s.len() > 0 {
        lemma_histogram_total(s.drop_last(), by_hour, replied_only);
        lemma_total_step(s, by_hour, replied_only, num_buckets(by_hour));
        lemma_bucket_in_range(s.last(), by_hour);
    } else {
        lemma_total_empty(s, by_hour, replied_only, num_buckets(by_hour));
    }
}

} // verus!
