//! The statements and merging rules of the service that keeps ASNs in a D1
//! table named `ASNs`.
use vstd::prelude::*;

use crate::model::{asn_views, AsnView, ASN};

verus! {

/// Reads every AS, ordered by number.
pub const QUERY_ALL_SQL: &'static str = "SELECT * FROM ASNs ORDER BY number ASC;";

/// Inserts one AS; the parameters are its number and name.
pub const INSERT_SQL: &'static str = "INSERT INTO ASNs (number, name) VALUES (?, ?);";

/// Deletes every AS.
pub const DELETE_ALL_SQL: &'static str = "DELETE FROM ASNs;";

/// Seconds for which this service's cached AS list stays valid.
pub const CACHE_TTL: u64 = 600;

/// The database binding the service reads and writes.
pub const DB_NAMESPACE: &'static str = "DB";

/// The key-value binding the service caches in.
pub const KV_NAMESPACE: &'static str = "kv";

/// A statement and the values bound to its parameters, in order.
#[derive(Debug)]
pub struct Statement {
    pub sql: &'static str,
    pub params: Vec<String>,
}

/// The statement that inserts `a`.
pub open spec fn insert_statement_of(a: AsnView) -> (Seq<char>, Seq<Seq<char>>) {
    (INSERT_SQL@, seq![a.number, a.name])
}

/// The text and parameters of a statement.
pub open spec fn statement_view(s: Statement) -> (Seq<char>, Seq<Seq<char>>) {
    (s.sql@, s.params.deep_view())
}

/// One insert statement per AS, in order, binding its number and name.
pub fn insert_statements(asns: Vec<ASN>) -> (r: Vec<Statement>)
    ensures
        r.len() == asns.len(),
        forall|i: int|
            0 <= i < r.len() ==> statement_view(#[trigger] r@[i]) == insert_statement_of(asns@[i]@),
{
    let mut out: Vec<Statement> = Vec::new();
    let mut i: usize = 0;
    while i < asns.len()
        invariant
            i <= asns.len(),
            out.len() == i,
            forall|j: int|
                0 <= j < i ==> statement_view(#[trigger] out@[j]) == insert_statement_of(asns@[j]@),
        decreases asns.len() - i,
    {
        let mut params: Vec<String> = Vec::new();
        params.push(asns[i].number.clone());
        params.push(asns[i].name.clone());
        assert(params.deep_view() =~= seq![asns@[i as int].number@, asns@[i as int].name@]);
        out.push(Statement { sql: INSERT_SQL, params });
        i = i + 1;
    }
    out
}

/// The statement that deletes every AS: no parameters.
pub fn delete_all_statement() -> (r: Statement)
    ensures
        r.sql@ == DELETE_ALL_SQL@,
        r.params@.len() == 0,
{
    Statement { sql: DELETE_ALL_SQL, params: Vec::new() }
}

/// The statement that reads every AS: no parameters.
pub fn query_all_statement() -> (r: Statement)
    ensures
        r.sql@ == QUERY_ALL_SQL@,
        r.params@.len() == 0,
{
    Statement { sql: QUERY_ALL_SQL, params: Vec::new() }
}

/// Whether some AS of `s` has the given number.
pub open spec fn asn_has_number(s: Seq<AsnView>, number: Seq<char>) -> bool {
    exists|i: int| 0 <= i < s.len() && s[i].number == number
}

/// The ASes of `s`, each number once: the first AS with a number is kept
/// and later ones with that number are dropped.
pub open spec fn dedup_first(s: Seq<AsnView>) -> Seq<AsnView>
    decreases s.len(),
{
    if s.len() == 0 {
        Seq::empty()
    } else {
        let d = dedup_first(s.drop_last());
        if asn_has_number(d, s.last().number) {
            d
        } else {
            d.push(s.last())
        }
    }
}

/// Whether `x` is an AS of `s` before which no AS of `s` has its number.
pub open spec fn is_first_occurrence(s: Seq<AsnView>, x: AsnView) -> bool {
    exists|k: int| 0 <= k < s.len() && s[k] == x && forall|k2: int| 0 <= k2 < k ==> s[k2].number != x.number
}

/// `dedup_first(s)` holds each number of `s` once and nothing else, and each
/// of its ASes is the first AS of `s` with that number.
pub proof fn lemma_dedup_first(s: Seq<AsnView>)
    ensures
        forall|i: int, j: int|
            0 <= i < j < dedup_first(s).len() ==> dedup_first(s)[i].number != dedup_first(s)[j].number,
        forall|n: Seq<char>| asn_has_number(dedup_first(s), n) <==> asn_has_number(s, n),
        forall|i: int| 0 <= i < dedup_first(s).len() ==> is_first_occurrence(s, #[trigger] dedup_first(s)[i]),
    decreases s.len(),
{
    if s.len() > 0 {
        let p = s.drop_last();
        let d = dedup_first(p);
        let m = s.last();
        lemma_dedup_first(p);
        let r = dedup_first(s);
        assert forall|n: Seq<char>| asn_has_number(r, n) <==> asn_has_number(s, n) by {
            if asn_has_number(r, n) {
                let k = choose|k: int| 0 <= k < r.len() && r[k].number == n;
                if k < d.len() {
                    assert(r[k] == d[k]);
                    assert(d[k].number == n);
                    assert(asn_has_number(d, n));
                    let k2 = choose|k2: int| 0 <= k2 < p.len() && p[k2].number == n;
                    assert(s[k2].number == n);
                } else {
                    assert(s[s.len() - 1].number == n);
                }
            }
            if asn_has_number(s, n) {
                let k = choose|k: int| 0 <= k < s.len() && s[k].number == n;
                if k < p.len() {
                    assert(p[k].number == n);
                    assert(asn_has_number(p, n));
                    assert(asn_has_number(d, n));
                    let k2 = choose|k2: int| 0 <= k2 < d.len() && d[k2].number == n;
                    assert(r[k2].number == n);
                } else if asn_has_number(d, m.number) {
                    let k2 = choose|k2: int| 0 <= k2 < d.len() && d[k2].number == m.number;
                    assert(r[k2].number == n);
                } else {
                    assert(r[d.len() as int].number == n);
                }
            }
        }
        assert forall|i: int| 0 <= i < r.len() implies is_first_occurrence(s, #[trigger] r[i]) by {
            if i < d.len() {
                assert(r[i] == d[i]);
                assert(is_first_occurrence(p, d[i]));
                let k = choose|k: int|
                    0 <= k < p.len() && p[k] == d[i] && forall|k2: int|
                        0 <= k2 < k ==> p[k2].number != d[i].number;
                assert(s[k] == r[i]);
                assert forall|k2: int| 0 <= k2 < k implies s[k2].number != r[i].number by {
                    assert(s[k2] == p[k2]);
                }
            } else {
                assert(r[i] == m);
                assert forall|k2: int| 0 <= k2 < s.len() - 1 implies s[k2].number != m.number by {
                    if s[k2].number == m.number {
                        assert(p[k2].number == m.number);
                        assert(asn_has_number(p, m.number));
                    }
                }
                assert(s[s.len() - 1] == r[i]);
            }
        }
        assert forall|i: int, j: int| 0 <= i < j < r.len() implies r[i].number != r[j].number by {
            if j >= d.len() {
                assert(r[j] == m);
                assert(r[i] == d[i]);
                if d[i].number == m.number {
                    assert(asn_has_number(d, m.number));
                }
            }
        }
    }
}

/// Keeps the ASes of `asns`, each number once: the first AS with a number
/// wins. A vector merged by number, in the order numbers first occur, takes
/// the place of a hash set whose members compare by number.
pub fn dedup_first_wins(asns: Vec<ASN>) -> (r: Vec<ASN>)
    ensures
        asn_views(r@) == dedup_first(asn_views(asns@)),
{
    let mut out: Vec<ASN> = Vec::new();
    let mut i: usize = 0;
    while i < asns.len()
        invariant
            i <= asns.len(),
            asn_views(out@) == dedup_first(asn_views(asns@).take(i as int)),
        decreases asns.len() - i,
    {
        let ghost before = asn_views(out@);
        let mut j: usize = 0;
        let mut found = false;
        while j < out.len()
            invariant_except_break
                !found,
            invariant
                j <= out.len(),
                i < asns.len(),
                asn_views(out@) == before,
                forall|t: int| 0 <= t < j ==> out@[t].number@ != asns@[i as int].number@,
            ensures
                found ==> j < out.len() && out@[j as int].number@ == asns@[i as int].number@,
                !found ==> j == out.len(),
            decreases out.len() - j,
        {
            if out[j].number == asns[i].number {
                found = true;
                break;
            }
            j = j + 1;
        }
        let ghost a = asns@[i as int]@;
        assert(asn_views(asns@).take(i + 1).drop_last() =~= asn_views(asns@).take(i as int));
        assert(asn_views(asns@).take(i + 1).last() == a);
        if found {
            assert(before[j as int].number == a.number);
        } else {
            assert(!asn_has_number(before, a.number)) by {
                if asn_has_number(before, a.number) {
                    let t = choose|t: int| 0 <= t < before.len() && before[t].number == a.number;
                    assert(out@[t].number@ == before[t].number);
                }
            }
            out.push(asns[i].clone());
            assert(asn_views(out@) =~= before.push(a));
        }
        i = i + 1;
    }
    assert(asn_views(asns@).take(asns.len() as int) =~= asn_views(asns@));
    out
}

/// The union of two crawls, each number once: an AS from the first crawl
/// wins over one from the second with the same number.
pub fn merge_crawls(first: Vec<ASN>, second: Vec<ASN>) -> (r: Vec<ASN>)
    ensures
        asn_views(r@) == dedup_first(asn_views(first@) + asn_views(second@)),
{
    let mut all = first;
    let ghost a = asn_views(all@);
    let mut rest = second;
    let ghost b = asn_views(rest@);
    all.append(&mut rest);
    assert(asn_views(all@) =~= a + b);
    dedup_first_wins(all)
}

/// Merging two crawls keeps every number of either crawl once, and nothing
/// else; an AS whose number the first crawl has is the first crawl's first
/// AS with that number, any other AS the second crawl's first AS with its
/// number.
pub proof fn lemma_merge_crawls(a: Seq<AsnView>, b: Seq<AsnView>)
    ensures
        forall|n: Seq<char>|
            asn_has_number(dedup_first(a + b), n) <==> (asn_has_number(a, n) || asn_has_number(b, n)),
        forall|i: int|
            0 <= i < dedup_first(a + b).len() ==> {
                &&& asn_has_number(a, (#[trigger] dedup_first(a + b)[i]).number) ==> is_first_occurrence(
                    a,
                    dedup_first(a + b)[i],
                )
                &&& !asn_has_number(a, dedup_first(a + b)[i].number) ==> is_first_occurrence(
                    b,
                    dedup_first(a + b)[i],
                )
            },
{
    let s = a + b;
    let m = dedup_first(s);
    lemma_dedup_first(s);
    assert forall|n: Seq<char>| asn_has_number(s, n) <==> (asn_has_number(a, n) || asn_has_number(b, n)) by {
        if asn_has_number(s, n) {
            let k = choose|k: int| 0 <= k < s.len() && s[k].number == n;
            if k < a.len() {
                assert(a[k] == s[k]);
            } else {
                assert(b[k - a.len()] == s[k]);
            }
        }
        if asn_has_number(a, n) {
            let k = choose|k: int| 0 <= k < a.len() && a[k].number == n;
            assert(s[k] == a[k]);
        }
        if asn_has_number(b, n) {
            let k = choose|k: int| 0 <= k < b.len() && b[k].number == n;
            assert(s[a.len() + k] == b[k]);
        }
    }
    assert forall|i: int| 0 <= i < m.len() implies {
        &&& asn_has_number(a, (#[trigger] m[i]).number) ==> is_first_occurrence(a, m[i])
        &&& !asn_has_number(a, m[i].number) ==> is_first_occurrence(b, m[i])
    } by {
        assert(is_first_occurrence(s, m[i]));
        let k = choose|k: int|
            0 <= k < s.len() && s[k] == m[i] && forall|k2: int| 0 <= k2 < k ==> s[k2].number != m[i].number;
        if k < a.len() {
            assert(a[k] == m[i]);
            assert forall|k2: int| 0 <= k2 < k implies a[k2].number != m[i].number by {
                assert(s[k2] == a[k2]);
            }
            assert(asn_has_number(a, m[i].number));
        } else {
            let kb = k - a.len();
            assert(b[kb] == m[i]);
            assert forall|k2: int| 0 <= k2 < kb implies b[k2].number != m[i].number by {
                assert(s[a.len() + k2] == b[k2]);
            }
            assert(!asn_has_number(a, m[i].number)) by {
                if asn_has_number(a, m[i].number) {
                    let t = choose|t: int| 0 <= t < a.len() && a[t].number == m[i].number;
                    assert(s[t] == a[t]);
                }
            }
        }
    }
}

} // verus!
