//! The mailbox search expression, and the message-number list that a fetch
//! asks for.

use vstd::prelude::*;

use crate::config::{texts, MailQuery};
use crate::error::WrError;
use crate::text::{decimal, decimal_string, joined, occurs_in};

verus! {

/// The subject part of a search: one pattern, or either of two.
pub open spec fn subject_clause(patterns: Seq<Seq<char>>) -> Seq<char> {
    if patterns.len() == 1 {
        "SUBJECT \""@ + patterns[0] + "\""@
    } else {
        "SUBJECT \""@ + patterns[0] + "\" OR SUBJECT \""@ + patterns[1] + "\""@
    }
}

/// `key "value"`, the shape of every predicate of a search.
pub open spec fn predicate(key: Seq<char>, value: Seq<char>) -> Seq<char> {
    key + value + "\""@
}

/// The search expression for the reports of `year` sent from `from` to `to`
/// whose subject matches `patterns`: the dates run from January 1st of the
/// year up to, not including, January 1st of the next one.
pub open spec fn search_query(
    patterns: Seq<Seq<char>>,
    from: Seq<char>,
    to: Seq<char>,
    year: nat,
) -> Seq<char> {
    subject_clause(patterns) + " "@ + predicate("FROM \""@, from) + " "@ + predicate(
        "TO \""@,
        to,
    ) + " "@ + predicate("SINCE \"01-Jan-"@, decimal(year)) + " "@ + predicate(
        "BEFORE \"01-Jan-"@,
        decimal(year + 1),
    )
}

fn push_predicate(q: &mut String, key: &str, value: &str)
    ensures
        final(q)@ == old(q)@ + " "@ + predicate(key@, value@),
{
    q.append(" ");
    q.append(key);
    q.append(value);
    q.append("\"");
    assert(final(q)@ =~= old(q)@ + " "@ + predicate(key@, value@));
}

/// Builds the search expression for `fetch`. Fails with `QueryError` unless
/// there are one or two subject patterns.
pub fn build_imap_search_query(fetch: &MailQuery) -> (r: Result<String, WrError>)
    ensures
        match r {
            Ok(q) => 1 <= fetch.pattern@.len() <= 2 && q@ == search_query(
                texts(fetch.pattern@),
                fetch.from@,
                fetch.to@,
                fetch.year as nat,
            ),
            Err(e) => (fetch.pattern@.len() == 0 || fetch.pattern@.len() > 2) && e is QueryError,
        },
{
    if fetch.pattern.len() == 0 {
        return Err(WrError::QueryError(String::from_str("No pattern specified")));
    }
    if fetch.pattern.len() > 2 {
        return Err(
            WrError::QueryError(
                String::from_str("IMAP search query supports a maximum of two patterns"),
            ),
        );
    }
    let ghost p = texts(fetch.pattern@);
    let mut q = String::from_str("SUBJECT \"");
    q.append(fetch.pattern[0].as_str());
    if fetch.pattern.len() == 1 {
        q.append("\"");
    } else {
        q.append("\" OR SUBJECT \"");
        q.append(fetch.pattern[1].as_str());
        q.append("\"");
    }
    assert(q@ =~= subject_clause(p));
    push_predicate(&mut q, "FROM \"", fetch.from.as_str());
    push_predicate(&mut q, "TO \"", fetch.to.as_str());
    let year = decimal_string(fetch.year as u64);
    push_predicate(&mut q, "SINCE \"01-Jan-", year.as_str());
    let next = decimal_string(fetch.year as u64 + 1);
    push_predicate(&mut q, "BEFORE \"01-Jan-", next.as_str());
    Ok(q)
}

/// Every expression built for one or two patterns names the sender, the
/// recipient and both ends of the year verbatim.
pub proof fn lemma_query_mentions(
    patterns: Seq<Seq<char>>,
    from: Seq<char>,
    to: Seq<char>,
    year: nat,
)
    requires
        1 <= patterns.len() <= 2,
    ensures
        occurs_in(predicate("FROM \""@, from), search_query(patterns, from, to, year)),
        occurs_in(predicate("TO \""@, to), search_query(patterns, from, to, year)),
        occurs_in(
            predicate("SINCE \"01-Jan-"@, decimal(year)),
            search_query(patterns, from, to, year),
        ),
        occurs_in(
            predicate("BEFORE \"01-Jan-"@, decimal(year + 1)),
            search_query(patterns, from, to, year),
        ),
{
    let q = search_query(patterns, from, to, year);
    let a = subject_clause(patterns) + " "@;
    let pf = predicate("FROM \""@, from);
    let b = a + pf + " "@;
    let pt = predicate("TO \""@, to);
    let c = b + pt + " "@;
    let ps = predicate("SINCE \"01-Jan-"@, decimal(year));
    let d = c + ps + " "@;
    let pb = predicate("BEFORE \"01-Jan-"@, decimal(year + 1));
    assert(q =~= d + pb);
    assert(q.subrange(a.len() as int, (a.len() + pf.len()) as int) =~= pf);
    assert(q.subrange(b.len() as int, (b.len() + pt.len()) as int) =~= pt);
    assert(q.subrange(c.len() as int, (c.len() + ps.len()) as int) =~= ps);
    assert(q.subrange(d.len() as int, (d.len() + pb.len()) as int) =~= pb);
}

/// The numbers in ascending order.
pub open spec fn ascending(s: Seq<u32>) -> bool {
    forall|i: int, j: int| 0 <= i < j < s.len() ==> s[i] <= s[j]
}

/// The decimal numeral of each number.
pub open spec fn numerals(s: Seq<u32>) -> Seq<Seq<char>> {
    s.map_values(|n: u32| decimal(n as nat))
}

/// Relies on `slice::sort`: the elements end up in ascending order, the same
/// elements as before.
#[verifier::external_body]
fn sort_numbers(v: &mut Vec<u32>)
    ensures
        ascending(final(v)@),
        final(v)@.to_multiset() == old(v)@.to_multiset(),
{
    v.sort();
}

/// Relies on `itertools::join`: each part written out (`Display` of a
/// `String` is its text) with `sep` between neighbours.
#[verifier::external_body]
fn join_parts(parts: &Vec<String>, sep: &str) -> (r: String)
    ensures
        r@ == joined(texts(parts@), sep@),
{
    itertools::join(parts, sep)
}

/// The message-number list of a fetch: the numbers in ascending order,
/// written in decimal and separated by commas.
pub fn sequence_set(ids: Vec<u32>) -> (r: String)
    ensures
        exists|s: Seq<u32>|
            ascending(s) && s.to_multiset() == ids@.to_multiset() && r@ == joined(
                numerals(s),
                ","@,
            ),
{
    let mut ids = ids;
    sort_numbers(&mut ids);
    let mut parts: Vec<String> = Vec::new();
    for i in 0..ids.len()
        invariant
            texts(parts@) == numerals(ids@.take(i as int)),
            parts@.len() == i,
    {
        let n = decimal_string(ids[i] as u64);
        let ghost prev = parts@;
        parts.push(n);
        assert forall|k: int| 0 <= k < i implies texts(parts@)[k] == numerals(ids@)[k] by {
            assert(parts@[k] == prev[k]);
            assert(texts(prev)[k] == numerals(ids@.take(i as int))[k]);
        }
        assert(texts(parts@) =~= numerals(ids@.take(i + 1)));
    }
    assert(ids@.take(ids@.len() as int) =~= ids@);
    join_parts(&parts, ",")
}

} // verus!
