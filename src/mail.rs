//! Messages as the library sees them: addresses, envelopes and mails, and
//! how they are read from the raw header fields that the server sends.

use vstd::prelude::*;

use crate::date::{parse_rfc2822, rfc2822_instant, MailDate};
use crate::error::WrError;
use crate::text::{contains_text, occurs_in};

verus! {

/// The text that `String::from_utf8_lossy` makes of `bytes`.
pub uninterp spec fn utf8_lossy(bytes: Seq<u8>) -> Seq<char>;

/// Relies on `String::from_utf8_lossy`: the text depends on the bytes alone
/// (valid sequences decoded, each invalid one replaced by U+FFFD).
#[verifier::external_body]
fn decode_lossy(bytes: &[u8]) -> (r: String)
    ensures
        r@ == utf8_lossy(bytes@),
{
    String::from_utf8_lossy(bytes).into_owned()
}

/// An address of an envelope as the server sent it.
#[derive(Debug)]
pub struct RawAddress {
    pub name: Option<Vec<u8>>,
    pub mailbox: Option<Vec<u8>>,
    pub host: Option<Vec<u8>>,
}

/// The envelope fields of a fetched message as the server sent them.
#[derive(Debug)]
pub struct RawEnvelope {
    pub date: Option<Vec<u8>>,
    pub subject: Option<Vec<u8>>,
    pub cc: Option<Vec<RawAddress>>,
    pub in_reply_to: Option<Vec<u8>>,
    pub message_id: Option<Vec<u8>>,
}

/// An address: display name, the mailbox's local user part, and the full
/// address when both user and host are known.
#[derive(Debug)]
pub struct Address {
    pub name: Option<String>,
    pub user: Option<String>,
    pub email: Option<String>,
}

/// The normalised header fields of a message.
#[derive(Debug)]
pub struct Envelope {
    pub date: MailDate,
    pub subject: String,
    pub cc: Option<Vec<Address>>,
    pub in_reply_to: Option<String>,
    pub message_id: Option<String>,
}

/// A message: its envelope and, where it was fetched, its body.
#[derive(Debug)]
pub struct Mail {
    pub env: Envelope,
    pub body: Option<String>,
}

/// An address as plain text.
pub struct AddressView {
    pub name: Option<Seq<char>>,
    pub user: Option<Seq<char>>,
    pub email: Option<Seq<char>>,
}

/// An envelope as plain values.
pub struct EnvelopeView {
    pub date: MailDate,
    pub subject: Seq<char>,
    pub cc: Option<Seq<AddressView>>,
    pub in_reply_to: Option<Seq<char>>,
    pub message_id: Option<Seq<char>>,
}

/// A message as plain values.
pub struct MailView {
    pub env: EnvelopeView,
    pub body: Option<Seq<char>>,
}

/// The characters of an optional string.
pub open spec fn text_of(s: Option<String>) -> Option<Seq<char>> {
    match s {
        Some(t) => Some(t@),
        None => None,
    }
}

/// The lossy decoding of optional bytes.
pub open spec fn decoded(b: Option<Vec<u8>>) -> Option<Seq<char>> {
    match b {
        Some(v) => Some(utf8_lossy(v@)),
        None => None,
    }
}

impl View for Address {
    type V = AddressView;

    open spec fn view(&self) -> AddressView {
        AddressView { name: text_of(self.name), user: text_of(self.user), email: text_of(self.email) }
    }
}

/// The views of a list of addresses.
pub open spec fn addresses_view(v: Seq<Address>) -> Seq<AddressView> {
    v.map_values(|a: Address| a@)
}

impl View for Envelope {
    type V = EnvelopeView;

    open spec fn view(&self) -> EnvelopeView {
        EnvelopeView {
            date: self.date,
            subject: self.subject@,
            cc: match self.cc {
                Some(v) => Some(addresses_view(v@)),
                None => None,
            },
            in_reply_to: text_of(self.in_reply_to),
            message_id: text_of(self.message_id),
        }
    }
}

impl View for Mail {
    type V = MailView;

    open spec fn view(&self) -> MailView {
        MailView { env: self.env@, body: text_of(self.body) }
    }
}

/// The address read from `a`: every field decoded, and the full address
/// `user@host` where both parts are present.
pub open spec fn address_of(a: RawAddress) -> AddressView {
    AddressView {
        name: decoded(a.name),
        user: decoded(a.mailbox),
        email: match (a.mailbox, a.host) {
            (Some(m), Some(h)) => Some(utf8_lossy(m@) + seq!['@'] + utf8_lossy(h@)),
            _ => None,
        },
    }
}

/// The envelope read from `e`, or nothing where its date is absent or no
/// RFC 2822 date, or its subject is absent.
pub open spec fn envelope_of(e: RawEnvelope) -> Option<EnvelopeView> {
    match (e.date, e.subject) {
        (Some(d), Some(s)) => match rfc2822_instant(utf8_lossy(d@)) {
            Some((t, o)) => Some(
                EnvelopeView {
                    date: MailDate { timestamp: t, offset: o },
                    subject: utf8_lossy(s@),
                    cc: match e.cc {
                        Some(v) => Some(v@.map_values(|a: RawAddress| address_of(a))),
                        None => None,
                    },
                    in_reply_to: decoded(e.in_reply_to),
                    message_id: decoded(e.message_id),
                },
            ),
            None => None,
        },
        _ => None,
    }
}

/// A message that answers another one, judged by its subject: it has an
/// `In-Reply-To` field and its subject holds one of the usual reply prefixes.
pub open spec fn is_reply_message(e: EnvelopeView) -> bool {
    &&& e.in_reply_to is Some
    &&& {
        ||| occurs_in("Re:"@, e.subject)
        ||| occurs_in("RE:"@, e.subject)
        ||| occurs_in("Aw:"@, e.subject)
        ||| occurs_in("AW:"@, e.subject)
    }
}

fn decode_field(b: &Option<Vec<u8>>) -> (r: Option<String>)
    ensures
        text_of(r) == decoded(*b),
{
    match b {
        Some(v) => Some(decode_lossy(v.as_slice())),
        None => None,
    }
}

fn clone_text(s: &Option<String>) -> (r: Option<String>)
    ensures
        r == *s,
{
    match s {
        Some(t) => Some(t.clone()),
        None => None,
    }
}

impl Clone for Address {
    fn clone(&self) -> (r: Self)
        ensures
            r == *self,
    {
        Address {
            name: clone_text(&self.name),
            user: clone_text(&self.user),
            email: clone_text(&self.email),
        }
    }
}

impl Clone for Envelope {
    fn clone(&self) -> (r: Self)
        ensures
            r@ == self@,
    {
        let cc = match &self.cc {
            Some(v) => {
                let c = v.clone();
                assert(c@ =~= v@);
                Some(c)
            },
            None => None,
        };
        Envelope {
            date: self.date,
            subject: self.subject.clone(),
            cc,
            in_reply_to: clone_text(&self.in_reply_to),
            message_id: clone_text(&self.message_id),
        }
    }
}

impl Clone for Mail {
    fn clone(&self) -> (r: Self)
        ensures
            r@ == self@,
    {
        Mail { env: self.env.clone(), body: clone_text(&self.body) }
    }
}

impl Address {
    /// Reads an address from the raw fields the server sent.
    pub fn from_imap_address(addr: &RawAddress) -> (r: Address)
        ensures
            r@ == address_of(*addr),
    {
        let name = decode_field(&addr.name);
        let user = decode_field(&addr.mailbox);
        let email = match (&addr.mailbox, &addr.host) {
            (Some(m), Some(h)) => {
                let mut e = decode_lossy(m.as_slice());
                e.append("@");
                let host = decode_lossy(h.as_slice());
                e.append(host.as_str());
                proof {
                    reveal_strlit("@");
                    assert(e@ =~= utf8_lossy(m@) + seq!['@'] + utf8_lossy(h@));
                }
                Some(e)
            },
            _ => None,
        };
        Address { name, user, email }
    }
}

impl Envelope {
    /// Reads an envelope from the raw fields the server sent. Fails with
    /// `MailParseError` where the date is absent or malformed, or the
    /// subject is absent.
    pub fn from_imap_envelope(envelope: &RawEnvelope) -> (r: Result<Envelope, WrError>)
        ensures
            match r {
                Ok(e) => envelope_of(*envelope) == Some(e@),
                Err(err) => envelope_of(*envelope) is None && err is MailParseError,
            },
    {
        let date_text = match &envelope.date {
            Some(d) => decode_lossy(d.as_slice()),
            None => {
                return Err(WrError::MailParseError(String::from_str("no date in the envelope")));
            },
        };
        let date = match parse_rfc2822(date_text.as_str()) {
            Some(d) => d,
            None => {
                return Err(WrError::MailParseError(String::from_str("malformed date in the envelope")));
            },
        };
        let subject = match &envelope.subject {
            Some(s) => decode_lossy(s.as_slice()),
            None => {
                return Err(WrError::MailParseError(String::from_str("no subject in the envelope")));
            },
        };
        let cc = match &envelope.cc {
            Some(raw) => {
                let mut v: Vec<Address> = Vec::new();
                for i in 0..raw.len()
                    invariant
                        v@.len() == i,
                        addresses_view(v@) == raw@.take(i as int).map_values(
                            |a: RawAddress| address_of(a),
                        ),
                {
                    let a = Address::from_imap_address(&raw[i]);
                    let ghost prev = v@;
                    let ghost av = a@;
                    v.push(a);
                    assert(v@ == prev.push(v@.last()));
                    assert(addresses_view(v@)[i as int] == av);
                    assert forall|k: int| 0 <= k < i implies addresses_view(v@)[k]
                        == address_of(raw@[k]) by {
                        assert(v@[k] == prev[k]);
                        assert(addresses_view(prev)[k] == raw@.take(i as int).map_values(
                            |a: RawAddress| address_of(a),
                        )[k]);
                    }
                    assert(addresses_view(v@) =~= raw@.take(i + 1).map_values(
                        |a: RawAddress| address_of(a),
                    ));
                }
                assert(raw@.take(raw@.len() as int) =~= raw@);
                Some(v)
            },
            None => None,
        };
        let e = Envelope {
            date,
            subject,
            cc,
            in_reply_to: decode_field(&envelope.in_reply_to),
            message_id: decode_field(&envelope.message_id),
        };
        Ok(e)
    }

    /// Whether this message answers another one, judged by its subject.
    pub fn is_reply_message(&self) -> (r: bool)
        ensures
            r == is_reply_message(self@),
    {
        if self.in_reply_to.is_none() {
            return false;
        }
        let s = self.subject.as_str();
        contains_text(s, "Re:") || contains_text(s, "RE:") || contains_text(s, "Aw:")
            || contains_text(s, "AW:")
    }
}

} // verus!
