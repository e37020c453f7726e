//! The configuration that a run is given.

use vstd::prelude::*;

verus! {

/// Where to log in and what to look for.
#[derive(Debug)]
pub struct MailConfig {
    /// How to reach and log in to the mail server.
    pub server: MailLogin,
    /// Which messages count as reports and replies.
    pub query: MailQuery,
}

/// How to reach and log in to the mail server.
#[derive(Debug)]
pub struct MailLogin {
    /// Host name of the IMAP server.
    pub server: String,
    /// Port of the IMAP server.
    pub port: u16,
    /// User name; asked for when absent.
    pub username: Option<String>,
    /// Password; asked for when absent.
    pub password: Option<String>,
}

/// Which messages count as sent reports, and where to look for them and
/// for their replies.
#[derive(Debug)]
pub struct MailQuery {
    /// Mailboxes that hold the reports sent.
    pub wr_mailboxes: Vec<String>,
    /// Mailboxes that hold the replies received.
    pub re_mailboxes: Vec<String>,
    /// Subject patterns of a report (one or two).
    pub pattern: Vec<String>,
    /// Address the reports were sent from.
    pub from: String,
    /// Address the reports were sent to.
    pub to: String,
    /// Year whose reports are collected.
    pub year: u32,
}

/// The characters of each string, in order.
pub open spec fn texts(v: Seq<String>) -> Seq<Seq<char>> {
    v.map_values(|s: String| s@)
}

fn clone_strings(v: &Vec<String>) -> (r: Vec<String>)
    ensures
        r@ == v@,
{
    let r = v.clone();
    assert(r@ =~= v@);
    r
}

impl Clone for MailQuery {
    fn clone(&self) -> (r: Self)
        ensures
            r.wr_mailboxes@ == self.wr_mailboxes@,
            r.re_mailboxes@ == self.re_mailboxes@,
            r.pattern@ == self.pattern@,
            r.from == self.from,
            r.to == self.to,
            r.year == self.year,
    {
        MailQuery {
            wr_mailboxes: clone_strings(&self.wr_mailboxes),
            re_mailboxes: clone_strings(&self.re_mailboxes),
            pattern: clone_strings(&self.pattern),
            from: self.from.clone(),
            to: self.to.clone(),
            year: self.year,
        }
    }
}

impl MailQuery {
    /// The query for the replies: replies travel the other way, so sender
    /// and recipient trade places; everything else is kept.
    pub fn reply_query(&self) -> (r: MailQuery)
        ensures
            r.from == self.to,
            r.to == self.from,
            r.wr_mailboxes@ == self.wr_mailboxes@,
            r.re_mailboxes@ == self.re_mailboxes@,
            r.pattern@ == self.pattern@,
            r.year == self.year,
    {
        let mut r = self.clone();
        std::mem::swap(&mut r.from, &mut r.to);
        r
    }
}

} // verus!
