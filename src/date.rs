//! Instants of mail headers, with the UTC offset they were written in.

use vstd::prelude::*;

verus! {

/// An instant (seconds since 1970-01-01T00:00:00Z) together with the fixed
/// offset from UTC, in seconds, of the clock that wrote it.
#[derive(Clone, Copy, Debug, PartialEq, Eq, Structural)]
pub struct MailDate {
    pub timestamp: i64,
    pub offset: i32,
}

/// What chrono's RFC 2822 parser makes of `text`: the instant and the offset
/// it was written in, or nothing where `text` is no such date.
pub uninterp spec fn rfc2822_instant(text: Seq<char>) -> Option<(i64, i32)>;

/// Relies on chrono's `DateTime::parse_from_rfc2822`, read back through
/// `DateTime::timestamp` and `FixedOffset::local_minus_utc`; a `FixedOffset`
/// always lies strictly within one day of UTC (`FixedOffset::east_opt`).
#[verifier::external_body]
pub(crate) fn parse_rfc2822(text: &str) -> (r: Option<MailDate>)
    ensures
        r matches Some(d) ==> rfc2822_instant(text@) == Some((d.timestamp, d.offset)) && d.wf(),
        r is None ==> rfc2822_instant(text@) is None,
{
    match chrono::DateTime::parse_from_rfc2822(text) {
        Ok(d) => Some(MailDate { timestamp: d.timestamp(), offset: d.offset().local_minus_utc() }),
        Err(_) => None,
    }
}

impl MailDate {
    /// An offset is strictly less than one day in either direction.
    pub open spec fn wf(&self) -> bool {
        -86400 < self.offset < 86400
    }

    /// Seconds since 1970-01-01T00:00:00 on the writer's local clock.
    pub open spec fn local_seconds(&self) -> int {
        self.timestamp + self.offset
    }

    /// Day of the week on the writer's clock, Monday = 0 ... Sunday = 6
    /// (1970-01-01 was a Thursday).
    pub open spec fn spec_weekday(&self) -> int {
        (self.local_seconds() / 86400 + 3) % 7
    }

    /// Hour of the day on the writer's clock, 0 ... 23.
    pub open spec fn spec_hour(&self) -> int {
        (self.local_seconds() % 86400) / 3600
    }

    /// Whole days from `self` to `later`, truncated toward zero; negative
    /// when `later` is earlier.
    pub open spec fn spec_days_until(&self, later: MailDate) -> int {
        let d = later.timestamp - self.timestamp;
        if d >= 0 {
            d / 86400
        } else {
            -((-d) / 86400)
        }
    }

    /// Splits the local time into whole days since the epoch (rounded down)
    /// and the seconds into the day.
    fn local_day_and_second(&self) -> (r: (i64, i64))
        ensures
            r.0 == self.local_seconds() / 86400,
            r.1 == self.local_seconds() % 86400,
            -0x1_0000_0000_0000 < r.0 < 0x1_0000_0000_0000,
            0 <= r.1 < 86400,
    {
        let local: i128 = self.timestamp as i128 + self.offset as i128;
        if local >= 0 {
            let u: u128 = local as u128;
            let q: u128 = u / 86400;
            proof {
                assert(q * 86400 <= u) by (nonlinear_arith)
                    requires q == u / 86400;
            }
            (q as i64, (u % 86400) as i64)
        } else {
            let u: u128 = (-local - 1) as u128;
            let q: i128 = (u / 86400) as i128;
            let m: i128 = (u % 86400) as i128;
            proof {
                let x = self.local_seconds();
                assert(q * 86400 <= u) by (nonlinear_arith)
                    requires q == u / 86400;
                assert(x == (-q - 1) * 86400 + (86399 - m));
                vstd::arithmetic::div_mod::lemma_fundamental_div_mod_converse(
                    x,
                    86400,
                    -q - 1,
                    86399 - m,
                );
            }
            ((-q - 1) as i64, (86399 - m) as i64)
        }
    }

    /// Day of the week on the writer's clock, Monday = 0 ... Sunday = 6.
    pub fn weekday(&self) -> (r: u32)
        ensures
            r == self.spec_weekday(),
            r < 7,
    {
        let (day, _) = self.local_day_and_second();
        // A multiple of seven large enough to make the day number positive.
        let shifted: i64 = day + 3 + 7 * 0x4_0000_0000_0000;
        proof {
            vstd::arithmetic::div_mod::lemma_mod_multiples_vanish(
                0x4_0000_0000_0000,
                day + 3,
                7,
            );
        }
        (shifted % 7) as u32
    }

    /// Hour of the day on the writer's clock, 0 ... 23.
    pub fn hour(&self) -> (r: u32)
        ensures
            r == self.spec_hour(),
            r < 24,
    {
        let (_, second) = self.local_day_and_second();
        (second / 3600) as u32
    }

    /// Whole days from `self` to `later`, truncated toward zero.
    pub fn days_until(&self, later: &MailDate) -> (r: i64)
        ensures
            r == self.spec_days_until(*later),
    {
        let d: i128 = later.timestamp as i128 - self.timestamp as i128;
        if d >= 0 {
            ((d as u128) / 86400) as i64
        } else {
            let q: u128 = ((-d) as u128) / 86400;
            -(q as i64)
        }
    }
}

} // verus!
