//! Reading autonomous systems out of a country listing page.
use vstd::prelude::*;

use crate::isp::ISP;
use crate::d1::{asn_has_number, dedup_first, dedup_first_wins, is_first_occurrence, lemma_dedup_first};
use crate::model::{asn_views, default_model_view, model_views, AsnView, Model, ModelView, ASN};
use crate::pattern::{
    captures_all, compile, find_all, is_match, regex_captures_all, regex_compiles,
    regex_find_all, regex_is_match, Pattern,
};

verus! {

/// One table row of the listing, from `<tr>` to the nearest `</tr>`.
pub const ROW_PATTERN: &'static str = r"<tr>[\s\S]*?</tr>";

/// The cell that links an AS: group 1 is the title (the AS name), group 2
/// the digits of the AS number.
pub const ASN_PATTERN: &'static str = r#"<td> ?<a.*?title="(.*?)">AS([0-9]+)</a>\s?</td>"#;

/// Names of networks operated by China Telecom.
pub const CT_PATTERN: &'static str = r"CHINA ?TELECOM|CHINANET|CT (?:(?:SHANXI|JIANGXI|DONGGUAN|FOSHAN|ANQING|NEIMENGGU WULANCHABU|LIAONING SHENYANG|CHONGQING|HEFEI NANGANG|GUANGZHOU|HANGZHOU|HUNAN (?:HENGYANG|CHANGSHA)|CENTRALSOUTH CHINA) (?:MAN(?: ?2)?|IDC|IIP)|ESURFINGCLOUD CDN|CNGI)";

/// Names of networks operated by China Mobile (and China TieTong).
pub const CMCC_PATTERN: &'static str = r"China (?:Mobile(?: Communications Corporation)?|TieTong(?: Telecommunications Corporation| SHANGHAI)?)";

/// Names of networks operated by China Unicom.
pub const CU_PATTERN: &'static str = r"UNICOM";

/// Names of networks of the China Education and Research Network.
pub const CERNET_PATTERN: &'static str = r"CERNET";

/// Names of networks of the China Science and Technology Network.
pub const CSTNET_PATTERN: &'static str = r"CNIC-CAS";

/// Names of networks of the China Academy of Information and Communications Technology.
pub const CAICT_PATTERN: &'static str = r"Chinese Academy of Telecommunication Research";

/// The listing of Chinese autonomous systems on whois.ipip.net.
pub const IPIP_NET_URL: &'static str = "https://whois.ipip.net/iso/CN";

/// The listing of Chinese autonomous systems on bgp.he.net.
pub const HE_NET_URL: &'static str = "https://bgp.he.net/country/CN";

/// How many ISPs are recognised by name.
pub const ISP_COUNT: usize = 6;

/// The ISPs that are recognised by name, in the order in which their
/// patterns are tried; `OTHER` past the end.
pub open spec fn isp_rank(k: int) -> ISP {
    if k == 0 {
        ISP::CT
    } else if k == 1 {
        ISP::CMCC
    } else if k == 2 {
        ISP::CU
    } else if k == 3 {
        ISP::CERNET
    } else if k == 4 {
        ISP::CSTNET
    } else if k == 5 {
        ISP::CAICT
    } else {
        ISP::OTHER
    }
}

/// The pattern that recognises the names of an ISP's networks
/// (empty for `OTHER`, which is never tried).
pub open spec fn isp_pattern(isp: ISP) -> Seq<char> {
    match isp {
        ISP::CT => CT_PATTERN@,
        ISP::CMCC => CMCC_PATTERN@,
        ISP::CU => CU_PATTERN@,
        ISP::CERNET => CERNET_PATTERN@,
        ISP::CSTNET => CSTNET_PATTERN@,
        ISP::CAICT => CAICT_PATTERN@,
        ISP::OTHER => Seq::empty(),
    }
}

/// The ISP of rank `k`.
pub fn isp_at(k: usize) -> (r: ISP)
    ensures
        r == isp_rank(k as int),
{
    if k == 0 {
        ISP::CT
    } else if k == 1 {
        ISP::CMCC
    } else if k == 2 {
        ISP::CU
    } else if k == 3 {
        ISP::CERNET
    } else if k == 4 {
        ISP::CSTNET
    } else if k == 5 {
        ISP::CAICT
    } else {
        ISP::OTHER
    }
}

/// The pattern text for an ISP.
pub fn isp_pattern_text(isp: ISP) -> (r: &'static str)
    ensures
        r@ == isp_pattern(isp),
        isp == ISP::CT ==> r@ == CT_PATTERN@,
        isp == ISP::CMCC ==> r@ == CMCC_PATTERN@,
        isp == ISP::CU ==> r@ == CU_PATTERN@,
        isp == ISP::CERNET ==> r@ == CERNET_PATTERN@,
        isp == ISP::CSTNET ==> r@ == CSTNET_PATTERN@,
        isp == ISP::CAICT ==> r@ == CAICT_PATTERN@,
{
    match isp {
        ISP::CT => CT_PATTERN,
        ISP::CMCC => CMCC_PATTERN,
        ISP::CU => CU_PATTERN,
        ISP::CERNET => CERNET_PATTERN,
        ISP::CSTNET => CSTNET_PATTERN,
        ISP::CAICT => CAICT_PATTERN,
        ISP::OTHER => {
            proof {
                reveal_strlit("");
            }
            ""
        },
    }
}

/// The ISP picked from `matches`, where `matches[k]` tells whether the
/// pattern of rank `k` matched: the first ISP, from rank `k` on, whose
/// pattern matched, or `OTHER` when none did.
pub open spec fn first_match_from(matches: Seq<bool>, k: nat) -> ISP
    decreases matches.len() - k,
{
    if k >= matches.len() {
        ISP::OTHER
    } else if matches[k as int] {
        isp_rank(k as int)
    } else {
        first_match_from(matches, k + 1)
    }
}

/// The ISP picked from the answers of all the patterns, tried in rank order.
pub open spec fn isp_of_matches(matches: Seq<bool>) -> ISP {
    first_match_from(matches, 0)
}

/// Whether the pattern of each rank matches `name` (ignoring case).
pub open spec fn name_matches(name: Seq<char>) -> Seq<bool> {
    Seq::new(ISP_COUNT as nat, |k: int| regex_is_match(isp_pattern(isp_rank(k)), true, name))
}

/// The ISP that operates a network called `name`.
pub open spec fn isp_of_name(name: Seq<char>) -> ISP {
    isp_of_matches(name_matches(name))
}

proof fn lemma_first_match_at(matches: Seq<bool>, i: nat, k: nat)
    requires
        i <= k < matches.len(),
        matches[k as int],
        forall|j: int| i <= j < k ==> !matches[j],
    ensures
        first_match_from(matches, i) == isp_rank(k as int),
    decreases k - i,
{
    if i < k {
        lemma_first_match_at(matches, i + 1, k);
    }
}

proof fn lemma_first_match_none(matches: Seq<bool>, i: nat)
    requires
        forall|j: int| i <= j < matches.len() ==> !matches[j],
    ensures
        first_match_from(matches, i) == ISP::OTHER,
    decreases matches.len() - i,
{
    if i < matches.len() {
        lemma_first_match_none(matches, i + 1);
    }
}

/// The ISP picked from the answers of the patterns, in rank order: the
/// first whose pattern matched, or `OTHER`.
pub fn isp_from_matches(matches: &Vec<bool>) -> (r: ISP)
    ensures
        r == isp_of_matches(matches@),
{
    let mut k: usize = 0;
    while k < matches.len()
        invariant
            k <= matches.len(),
            forall|j: int| 0 <= j < k ==> !matches@[j],
        decreases matches.len() - k,
    {
        if matches[k] {
            proof {
                lemma_first_match_at(matches@, 0, k as nat);
            }
            return isp_at(k);
        }
        k = k + 1;
    }
    proof {
        lemma_first_match_none(matches@, 0);
    }
    ISP::OTHER
}

/// The ISP picked is `OTHER` exactly when no pattern matched; any other ISP
/// picked is one whose pattern matched, and every pattern tried before it
/// did not.
pub proof fn lemma_isp_of_matches(matches: Seq<bool>)
    requires
        matches.len() <= ISP_COUNT,
    ensures
        isp_of_matches(matches) == ISP::OTHER <==> forall|k: int|
            0 <= k < matches.len() ==> !matches[k],
        forall|k: int|
            0 <= k < matches.len() && isp_of_matches(matches) == isp_rank(k) ==> {
                &&& matches[k]
                &&& forall|j: int| 0 <= j < k ==> !matches[j]
            },
{
    if exists|k: int| 0 <= k < matches.len() && matches[k] {
        let first = choose|k: int|
            0 <= k < matches.len() && matches[k] && forall|j: int| 0 <= j < k ==> !matches[j];
        assert(exists|k: int|
            0 <= k < matches.len() && matches[k] && forall|j: int| 0 <= j < k ==> !matches[j]) by {
            lemma_least_true(matches, matches.len() as int);
        }
        lemma_first_match_at(matches, 0, first as nat);
        assert forall|k: int|
            0 <= k < matches.len() && isp_of_matches(matches) == isp_rank(k) implies {
                &&& matches[k]
                &&& forall|j: int| 0 <= j < k ==> !matches[j]
            } by {
            assert(k == first);
        }
    } else {
        lemma_first_match_none(matches, 0);
        assert forall|k: int|
            0 <= k < matches.len() && isp_of_matches(matches) == isp_rank(k) implies {
                &&& matches[k]
                &&& forall|j: int| 0 <= j < k ==> !matches[j]
            } by {
        }
    }
}

proof fn lemma_least_true(matches: Seq<bool>, n: int)
    requires
        0 <= n <= matches.len(),
        exists|k: int| 0 <= k < n && matches[k],
    ensures
        exists|k: int| 0 <= k < n && matches[k] && forall|j: int| 0 <= j < k ==> !matches[j],
    decreases n,
{
    if exists|k: int| 0 <= k < n - 1 && matches[k] {
        lemma_least_true(matches, n - 1);
    } else {
        assert(matches[n - 1]);
    }
}

/// Whether no two rows share a number.
pub open spec fn numbers_distinct(s: Seq<ModelView>) -> bool {
    forall|i: int, j: int| 0 <= i < j < s.len() ==> s[i].number != s[j].number
}

/// Whether some row of `s` has the given number.
pub open spec fn has_number(s: Seq<ModelView>, number: Seq<char>) -> bool {
    exists|i: int| 0 <= i < s.len() && s[i].number == number
}

/// Adds `m` to the rows `acc` keyed by number: a row with the same number
/// is replaced by `m` in its place, otherwise `m` goes at the end.
pub open spec fn upsert_by_number(acc: Seq<ModelView>, m: ModelView) -> Seq<ModelView> {
    if has_number(acc, m.number) {
        acc.update(choose|i: int| 0 <= i < acc.len() && acc[i].number == m.number, m)
    } else {
        acc.push(m)
    }
}

/// The rows of `s` keyed by number, each number once: where several rows
/// share a number the last of them is kept, at the place where the number
/// first occurred.
pub open spec fn dedup_last(s: Seq<ModelView>) -> Seq<ModelView>
    decreases s.len(),
{
    if s.len() == 0 {
        Seq::empty()
    } else {
        upsert_by_number(dedup_last(s.drop_last()), s.last())
    }
}

proof fn lemma_upsert_distinct(acc: Seq<ModelView>, m: ModelView)
    requires
        numbers_distinct(acc),
    ensures
        numbers_distinct(upsert_by_number(acc, m)),
        forall|n: Seq<char>| has_number(upsert_by_number(acc, m), n) <==> (has_number(acc, n) || n == m.number),
{
    let r = upsert_by_number(acc, m);
    if has_number(acc, m.number) {
        let i = choose|i: int| 0 <= i < acc.len() && acc[i].number == m.number;
        assert forall|n: Seq<char>| has_number(r, n) <==> (has_number(acc, n) || n == m.number) by {
            if has_number(acc, n) {
                let k = choose|k: int| 0 <= k < acc.len() && acc[k].number == n;
                if k == i {
                    assert(r[i].number == n);
                } else {
                    assert(r[k].number == n);
                }
            }
            if n == m.number {
                assert(r[i].number == n);
            }
            if has_number(r, n) {
                let k = choose|k: int| 0 <= k < r.len() && r[k].number == n;
                if k != i {
                    assert(acc[k].number == n);
                }
            }
        }
    } else {
        assert forall|n: Seq<char>| has_number(r, n) <==> (has_number(acc, n) || n == m.number) by {
            if has_number(acc, n) {
                let k = choose|k: int| 0 <= k < acc.len() && acc[k].number == n;
                assert(r[k].number == n);
            }
            if n == m.number {
                assert(r[acc.len() as int].number == n);
            }
            if has_number(r, n) {
                let k = choose|k: int| 0 <= k < r.len() && r[k].number == n;
                if k < acc.len() {
                    assert(acc[k].number == n);
                }
            }
        }
    }
}

/// No two rows of `dedup_last(s)` share a number, and its numbers are
/// exactly the numbers of `s`.
pub proof fn lemma_dedup_last_numbers(s: Seq<ModelView>)
    ensures
        numbers_distinct(dedup_last(s)),
        forall|n: Seq<char>| has_number(dedup_last(s), n) <==> has_number(s, n),
    decreases s.len(),
{
    if s.len() > 0 {
        lemma_dedup_last_numbers(s.drop_last());
        lemma_upsert_distinct(dedup_last(s.drop_last()), s.last());
        assert forall|n: Seq<char>| has_number(dedup_last(s), n) <==> has_number(s, n) by {
            if has_number(s.drop_last(), n) {
                let k = choose|k: int| 0 <= k < s.drop_last().len() && s.drop_last()[k].number == n;
                assert(s[k].number == n);
            }
            if n == s.last().number {
                assert(s[s.len() - 1].number == n);
            }
            if has_number(s, n) {
                let k = choose|k: int| 0 <= k < s.len() && s[k].number == n;
                if k < s.len() - 1 {
                    assert(s.drop_last()[k].number == n);
                }
            }
        }
    }
}

/// Whether `x` is a row of `s` after which no row of `s` has its number.
pub open spec fn is_last_occurrence(s: Seq<ModelView>, x: ModelView) -> bool {
    exists|k: int|
        0 <= k < s.len() && s[k] == x && forall|k2: int|
            k < k2 < s.len() ==> s[k2].number != x.number
}

/// Each row of `dedup_last(s)` is the last row of `s` with its number.
pub proof fn lemma_dedup_last_keeps_last(s: Seq<ModelView>)
    ensures
        forall|i: int| 0 <= i < dedup_last(s).len() ==> is_last_occurrence(s, #[trigger] dedup_last(s)[i]),
    decreases s.len(),
{
    if s.len() > 0 {
        let p = s.drop_last();
        let d = dedup_last(p);
        lemma_dedup_last_keeps_last(p);
        lemma_dedup_last_numbers(p);
        let r = dedup_last(s);
        let m = s.last();
        assert forall|i: int| 0 <= i < r.len() implies is_last_occurrence(s, #[trigger] r[i]) by {
            if r[i] == m && (i >= d.len() || d[i].number == m.number) {
                assert(s[s.len() - 1] == r[i]);
            } else {
                if has_number(d, m.number) {
                    let j = choose|j: int| 0 <= j < d.len() && d[j].number == m.number;
                    assert(i != j);
                    assert(r[i] == d[i]);
                } else {
                    assert(i < d.len());
                    assert(r[i] == d[i]);
                }
                assert(is_last_occurrence(p, d[i]));
                let k = choose|k: int|
                    0 <= k < p.len() && p[k] == d[i] && forall|k2: int|
                        k < k2 < p.len() ==> p[k2].number != d[i].number;
                assert(d[i].number != m.number) by {
                    if d[i].number == m.number {
                        assert(has_number(d, m.number));
                        let j = choose|j: int| 0 <= j < d.len() && d[j].number == m.number;
                        assert(j == i);
                    }
                }
                assert(s[k] == r[i]);
                assert forall|k2: int| k < k2 < s.len() implies s[k2].number != s[k].number by {
                    if k2 < p.len() {
                        assert(s[k2] == p[k2]);
                    }
                }
            }
        }
    }
}

/// Keeps one row per number: the last row with that number, at the place
/// where the number first occurred. The rows are kept in a vector merged by
/// number, in the order numbers first occur; collecting them into a hash
/// map keyed by number gives the same rows in an unspecified order.
pub fn dedup_last_wins(models: Vec<Model>) -> (r: Vec<Model>)
    ensures
        model_views(r@) == dedup_last(model_views(models@)),
{
    let mut out: Vec<Model> = Vec::new();
    let mut i: usize = 0;
    while i < models.len()
        invariant
            i <= models.len(),
            model_views(out@) == dedup_last(model_views(models@).take(i as int)),
        decreases models.len() - i,
    {
        let ghost before = model_views(out@);
        let ghost seen = model_views(models@).take(i as int);
        proof {
            lemma_dedup_last_numbers(seen);
        }
        let m = models[i].clone();
        let mut j: usize = 0;
        let mut found = false;
        while j < out.len()
            invariant_except_break
                !found,
            invariant
                j <= out.len(),
                model_views(out@) == before,
                forall|t: int| 0 <= t < j ==> out@[t].number@ != m.number@,
            ensures
                found ==> j < out.len() && out@[j as int].number@ == m.number@,
                !found ==> j == out.len(),
            decreases out.len() - j,
        {
            if out[j].number == m.number {
                found = true;
                break;
            }
            j = j + 1;
        }
        let ghost mv = m@;
        assert(model_views(models@).take(i + 1).drop_last() =~= seen);
        assert(model_views(models@).take(i + 1).last() == mv);
        if found {
            assert(before[j as int].number == mv.number);
            assert(has_number(before, mv.number));
            let ghost chosen = choose|t: int| 0 <= t < before.len() && before[t].number == mv.number;
            assert(chosen == j as int);
            out.set(j, m);
            assert(model_views(out@) =~= before.update(j as int, mv));
        } else {
            assert(!has_number(before, mv.number)) by {
                if has_number(before, mv.number) {
                    let t = choose|t: int| 0 <= t < before.len() && before[t].number == mv.number;
                    assert(out@[t].number@ == before[t].number);
                }
            }
            out.push(m);
            assert(model_views(out@) =~= before.push(mv));
        }
        i = i + 1;
    }
    assert(model_views(models@).take(models.len() as int) =~= model_views(models@));
    out
}

/// The AS name and AS number read from the groups of one match of
/// [`ASN_PATTERN`]: groups 1 and 2, when the match has exactly the three
/// groups of that pattern and both took part in it.
pub open spec fn capture_fields(groups: Seq<Option<Seq<char>>>) -> Option<(Seq<char>, Seq<char>)> {
    if groups.len() == 3 && groups[1] is Some && groups[2] is Some {
        Some((groups[1]->0, groups[2]->0))
    } else {
        None
    }
}

/// Reads the AS name and AS number from the groups of one match.
pub fn name_and_number(groups: &Vec<Option<String>>) -> (r: Option<(String, String)>)
    ensures
        r is Some <==> capture_fields(groups.deep_view()) is Some,
        r matches Some(p) ==> capture_fields(groups.deep_view()) == Some((p.0@, p.1@)),
{
    if groups.len() != 3 {
        return None;
    }
    let ghost g = groups.deep_view();
    assert(g[1] == groups@[1].deep_view());
    assert(g[2] == groups@[2].deep_view());
    match (&groups[1], &groups[2]) {
        (Some(name), Some(number)) => Some((name.clone(), number.clone())),
        _ => None,
    }
}

/// The row recorded for a network called `name` with AS number `number`.
pub open spec fn crawled_record(name: Seq<char>, number: Seq<char>) -> ModelView {
    ModelView { number, name, isp: isp_of_name(name), ..default_model_view() }
}

/// The (name, number) pairs read from a run of matches of
/// [`ASN_PATTERN`], in order; `None` if some match does not yield a name
/// and a number.
pub open spec fn link_fields(caps: Seq<Seq<Option<Seq<char>>>>) -> Option<Seq<(Seq<char>, Seq<char>)>>
    decreases caps.len(),
{
    if caps.len() == 0 {
        Some(Seq::empty())
    } else {
        match (link_fields(caps.drop_last()), capture_fields(caps.last())) {
            (Some(fs), Some(f)) => Some(fs.push(f)),
            _ => None,
        }
    }
}

/// The rows recorded for (name, number) pairs, in order.
pub open spec fn crawled_rows(fs: Seq<(Seq<char>, Seq<char>)>) -> Seq<ModelView> {
    fs.map_values(|f: (Seq<char>, Seq<char>)| crawled_record(f.0, f.1))
}

/// The rows for (name, number) pairs when the ISP of pair `i` is `isps[i]`.
pub open spec fn rows_of_fields(fs: Seq<(Seq<char>, Seq<char>)>, isps: Seq<ISP>) -> Seq<ModelView> {
    Seq::new(
        fs.len(),
        |i: int| ModelView { number: fs[i].1, name: fs[i].0, isp: isps[i], ..default_model_view() },
    )
}

/// The text of each (name, number) pair.
pub open spec fn fields_view(v: Seq<(String, String)>) -> Seq<(Seq<char>, Seq<char>)> {
    v.map_values(|p: (String, String)| (p.0@, p.1@))
}

/// The matches of [`ASN_PATTERN`] within each row, rows in order.
pub open spec fn all_captures(rows: Seq<Seq<char>>) -> Seq<Seq<Option<Seq<char>>>>
    decreases rows.len(),
{
    if rows.len() == 0 {
        Seq::empty()
    } else {
        all_captures(rows.drop_last()) + regex_captures_all(ASN_PATTERN@, false, rows.last())
    }
}

/// The rows of the AS links of every table row of a listing page `text`,
/// in document order; `None` if some link does not yield a name and a number.
pub open spec fn page_links(text: Seq<char>) -> Option<Seq<ModelView>> {
    match link_fields(all_captures(regex_find_all(ROW_PATTERN@, false, text))) {
        Some(fs) => Some(crawled_rows(fs)),
        None => None,
    }
}

/// The rows that a listing page `text` yields: the AS links of every table
/// row, read in order and keyed by AS number (the last link for a number
/// wins); `None` if some link does not yield a name and a number.
pub open spec fn extracted(text: Seq<char>) -> Option<Seq<ModelView>> {
    match page_links(text) {
        Some(rs) => Some(dedup_last(rs)),
        None => None,
    }
}

/// The ASes that a listing page `text` yields for the D1 service: the AS
/// links of every table row, read in order and keyed by AS number (the
/// first link for a number wins); `None` if some link does not yield a name
/// and a number.
pub open spec fn extracted_first(text: Seq<char>) -> Option<Seq<AsnView>> {
    match page_links(text) {
        Some(rs) => Some(dedup_first(asns_of_rows(rs))),
        None => None,
    }
}

proof fn lemma_link_fields_concat(a: Seq<Seq<Option<Seq<char>>>>, b: Seq<Seq<Option<Seq<char>>>>)
    ensures
        link_fields(a + b) == match (link_fields(a), link_fields(b)) {
            (Some(x), Some(y)) => Some(x + y),
            _ => None::<Seq<(Seq<char>, Seq<char>)>>,
        },
    decreases b.len(),
{
    if b.len() > 0 {
        lemma_link_fields_concat(a, b.drop_last());
        assert((a + b).drop_last() =~= a + b.drop_last());
        assert((a + b).last() == b.last());
        if let (Some(x), Some(y)) = (link_fields(a), link_fields(b.drop_last())) {
            if let Some(f) = capture_fields(b.last()) {
                assert((x + y).push(f) =~= x + y.push(f));
            }
        }
    } else {
        assert(a + b =~= a);
        if let Some(x) = link_fields(a) {
            assert(x + Seq::<(Seq<char>, Seq<char>)>::empty() =~= x);
        }
    }
}

/// The (name, number) pairs read from the matches of [`ASN_PATTERN`]
/// within one table row; `None` if some match does not yield both.
pub fn fields_of_links(caps: &Vec<Vec<Option<String>>>) -> (r: Option<Vec<(String, String)>>)
    ensures
        r is Some <==> link_fields(caps.deep_view()) is Some,
        r matches Some(v) ==> link_fields(caps.deep_view()) == Some(fields_view(v@)),
{
    let ghost cs = caps.deep_view();
    let mut out: Vec<(String, String)> = Vec::new();
    let mut j: usize = 0;
    assert(cs.take(0) =~= Seq::<Seq<Option<Seq<char>>>>::empty());
    assert(fields_view(out@) =~= Seq::<(Seq<char>, Seq<char>)>::empty());
    while j < caps.len()
        invariant
            j <= caps.len(),
            cs == caps.deep_view(),
            link_fields(cs.take(j as int)) == Some(fields_view(out@)),
        decreases caps.len() - j,
    {
        assert(cs.take(j + 1).drop_last() =~= cs.take(j as int));
        assert(cs.take(j + 1).last() == cs[j as int]);
        assert(cs[j as int] == caps@[j as int].deep_view());
        match name_and_number(&caps[j]) {
            None => {
                proof {
                    lemma_link_fields_concat(cs.take(j + 1), cs.skip(j + 1));
                    assert(cs.take(j + 1) + cs.skip(j + 1) =~= cs);
                }
                return None;
            },
            Some(pair) => {
                let ghost before = fields_view(out@);
                out.push(pair);
                assert(fields_view(out@) =~= before.push(fields_view(out@).last()));
            },
        }
        j = j + 1;
    }
    assert(cs.take(caps.len() as int) =~= cs);
    Some(out)
}

/// The rows for (name, number) pairs, the ISP of pair `i` being `isps[i]`:
/// each with that number, name and ISP, no id and no update time.
pub fn rows_of_links(fields: Vec<(String, String)>, isps: &Vec<ISP>) -> (r: Vec<Model>)
    requires
        fields.len() == isps.len(),
    ensures
        model_views(r@) == rows_of_fields(fields_view(fields@), isps@),
{
    let mut out: Vec<Model> = Vec::new();
    let mut i: usize = 0;
    while i < fields.len()
        invariant
            i <= fields.len(),
            fields.len() == isps.len(),
            out.len() == i,
            model_views(out@) =~= rows_of_fields(fields_view(fields@), isps@).take(i as int),
        decreases fields.len() - i,
    {
        let name = fields[i].0.clone();
        let number = fields[i].1.clone();
        out.push(Model::with_fields(number, name, isps[i]));
        assert(model_views(out@)[i as int] == rows_of_fields(fields_view(fields@), isps@)[i as int]);
        assert(model_views(out@) =~= rows_of_fields(fields_view(fields@), isps@).take(i + 1));
        i = i + 1;
    }
    out
}

proof fn lemma_all_captures_split(rows: Seq<Seq<char>>, i: int)
    requires
        0 <= i <= rows.len(),
    ensures
        all_captures(rows) == all_captures(rows.take(i)) + all_captures(rows.skip(i)),
    decreases rows.len(),
{
    if i == rows.len() {
        assert(rows.take(i) =~= rows);
        assert(rows.skip(i).len() == 0);
        assert(all_captures(rows) + Seq::<Seq<Option<Seq<char>>>>::empty() =~= all_captures(rows));
    } else {
        let p = rows.drop_last();
        lemma_all_captures_split(p, i);
        assert(p.take(i) =~= rows.take(i));
        assert(rows.skip(i).drop_last() =~= p.skip(i));
        assert(rows.skip(i).last() == rows.last());
        assert(all_captures(rows) =~= all_captures(rows.take(i)) + all_captures(rows.skip(i)));
    }
}

/// Compiled forms of the patterns that read a listing page. The ISP
/// patterns are kept in a vector in rank order, so a name that matches
/// several of them always gets the first in rank.
pub struct Crawler {
    rows: Pattern,
    asns: Pattern,
    isps: Vec<Pattern>,
}

/// Whether every pattern of a listing page compiles.
pub open spec fn patterns_compile() -> bool {
    &&& regex_compiles(ROW_PATTERN@, false)
    &&& regex_compiles(ASN_PATTERN@, false)
    &&& forall|k: int| 0 <= k < ISP_COUNT ==> regex_compiles(#[trigger] isp_pattern(isp_rank(k)), true)
}

impl Crawler {
    #[verifier::type_invariant]
    spec fn well_formed(&self) -> bool {
        &&& self.rows.source() == ROW_PATTERN@
        &&& !self.rows.ignores_case()
        &&& self.asns.source() == ASN_PATTERN@
        &&& !self.asns.ignores_case()
        &&& self.isps.len() == ISP_COUNT
        &&& forall|k: int|
            0 <= k < ISP_COUNT ==> {
                &&& (#[trigger] self.isps@[k]).source() == isp_pattern(isp_rank(k))
                &&& self.isps@[k].ignores_case()
            }
    }

    /// Compiles the patterns: rows and links match case-sensitively, ISP
    /// names ignoring case. `None` when some pattern does not compile.
    pub fn new() -> (r: Option<Crawler>)
        ensures
            r is Some <==> patterns_compile(),
    {
        let rows = match compile(ROW_PATTERN, false) {
            Some(p) => p,
            None => return None,
        };
        let asns = match compile(ASN_PATTERN, false) {
            Some(p) => p,
            None => return None,
        };
        let mut isps: Vec<Pattern> = Vec::new();
        let mut k: usize = 0;
        while k < ISP_COUNT
            invariant
                k <= ISP_COUNT,
                isps.len() == k,
                regex_compiles(ROW_PATTERN@, false),
                regex_compiles(ASN_PATTERN@, false),
                forall|j: int| 0 <= j < k ==> regex_compiles(#[trigger] isp_pattern(isp_rank(j)), true),
                forall|j: int|
                    0 <= j < k ==> {
                        &&& (#[trigger] isps@[j]).source() == isp_pattern(isp_rank(j))
                        &&& isps@[j].ignores_case()
                    },
            decreases ISP_COUNT - k,
        {
            let isp = isp_at(k);
            match compile(isp_pattern_text(isp), true) {
                Some(p) => isps.push(p),
                None => {
                    assert(!regex_compiles(isp_pattern(isp_rank(k as int)), true));
                    return None;
                },
            }
            k = k + 1;
        }
        Some(Crawler { rows, asns, isps })
    }

    /// The ISP that operates a network called `name`: the first ISP, in
    /// rank order, whose pattern matches the name ignoring case, or `OTHER`.
    pub fn determine_isp(&self, name: &str) -> (r: ISP)
        ensures
            r == isp_of_name(name@),
            r == if regex_is_match(CT_PATTERN@, true, name@) {
                ISP::CT
            } else if regex_is_match(CMCC_PATTERN@, true, name@) {
                ISP::CMCC
            } else if regex_is_match(CU_PATTERN@, true, name@) {
                ISP::CU
            } else if regex_is_match(CERNET_PATTERN@, true, name@) {
                ISP::CERNET
            } else if regex_is_match(CSTNET_PATTERN@, true, name@) {
                ISP::CSTNET
            } else if regex_is_match(CAICT_PATTERN@, true, name@) {
                ISP::CAICT
            } else {
                ISP::OTHER
            },
    {
        proof {
            use_type_invariant(self);
            lemma_isp_of_name_by_patterns(name@);
        }
        let mut matches: Vec<bool> = Vec::new();
        let mut k: usize = 0;
        while k < ISP_COUNT
            invariant
                k <= ISP_COUNT,
                self.isps.len() == ISP_COUNT,
                forall|j: int|
                    0 <= j < ISP_COUNT ==> {
                        &&& (#[trigger] self.isps@[j]).source() == isp_pattern(isp_rank(j))
                        &&& self.isps@[j].ignores_case()
                    },
                matches@ =~= name_matches(name@).take(k as int),
            decreases ISP_COUNT - k,
        {
            matches.push(is_match(&self.isps[k], name));
            k = k + 1;
        }
        assert(matches@ =~= name_matches(name@));
        isp_from_matches(&matches)
    }

    /// The rows of every AS link of a page, in document order, before any
    /// are merged; `None` if some link does not yield a name and a number.
    fn link_records(&self, text: &str) -> (r: Option<Vec<Model>>)
        ensures
            r is Some <==> page_links(text@) is Some,
            r matches Some(v) ==> page_links(text@) == Some(model_views(v@)),
    {
        proof {
            use_type_invariant(self);
        }
        let rows = find_all(&self.rows, text);
        let ghost all_rows = rows.deep_view();
        let mut fields: Vec<(String, String)> = Vec::new();
        let mut i: usize = 0;
        assert(all_rows.take(0) =~= Seq::<Seq<char>>::empty());
        assert(fields_view(fields@) =~= Seq::<(Seq<char>, Seq<char>)>::empty());
        while i < rows.len()
            invariant
                i <= rows.len(),
                all_rows == rows.deep_view(),
                all_rows == regex_find_all(ROW_PATTERN@, false, text@),
                self.asns.source() == ASN_PATTERN@,
                !self.asns.ignores_case(),
                link_fields(all_captures(all_rows.take(i as int))) == Some(fields_view(fields@)),
            decreases rows.len() - i,
        {
            let row = rows[i].as_str();
            let caps = captures_all(&self.asns, row);
            let ghost prefix = all_captures(all_rows.take(i as int));
            proof {
                assert(all_rows.take(i + 1).drop_last() =~= all_rows.take(i as int));
                assert(all_rows.take(i + 1).last() == all_rows[i as int]);
                assert(all_rows[i as int] == rows@[i as int]@);
                assert(all_captures(all_rows.take(i + 1)) == prefix + caps.deep_view());
                lemma_link_fields_concat(prefix, caps.deep_view());
            }
            match fields_of_links(&caps) {
                None => {
                    proof {
                        lemma_all_captures_split(all_rows, i + 1);
                        lemma_link_fields_concat(
                            all_captures(all_rows.take(i + 1)),
                            all_captures(all_rows.skip(i + 1)),
                        );
                    }
                    return None;
                },
                Some(mut more) => {
                    let ghost before = fields_view(fields@);
                    let ghost added = fields_view(more@);
                    fields.append(&mut more);
                    assert(fields_view(fields@) =~= before + added);
                },
            }
            i = i + 1;
        }
        assert(all_rows.take(rows.len() as int) =~= all_rows);
        let ghost fv = fields_view(fields@);
        let mut isps: Vec<ISP> = Vec::new();
        let mut k: usize = 0;
        while k < fields.len()
            invariant
                k <= fields.len(),
                fv == fields_view(fields@),
                isps.len() == k,
                forall|j: int| 0 <= j < k ==> isps@[j] == isp_of_name(#[trigger] fv[j].0),
            decreases fields.len() - k,
        {
            let isp = self.determine_isp(fields[k].0.as_str());
            isps.push(isp);
            k = k + 1;
        }
        let records = rows_of_links(fields, &isps);
        assert(rows_of_fields(fv, isps@) =~= crawled_rows(fv));
        Some(records)
    }

    /// The rows for the autonomous systems listed on a page: every link
    /// `<td> <a ... title="NAME">ASNUMBER</a></td>` inside a table row gives
    /// a row with that number and name and the ISP recognised from the name;
    /// rows are keyed by number, the last link for a number winning.
    /// `None` if some link does not yield a name and a number.
    pub fn extract_asn(&self, text: &str) -> (r: Option<Vec<Model>>)
        ensures
            r is Some <==> extracted(text@) is Some,
            r matches Some(v) ==> extracted(text@) == Some(model_views(v@)),
    {
        match self.link_records(text) {
            Some(records) => Some(dedup_last_wins(records)),
            None => None,
        }
    }

    /// The ASes listed on a page, as the D1 service keeps them: every link
    /// inside a table row gives an AS with that number and name and the ISP
    /// recognised from the name; each number once, the first link for a
    /// number winning. `None` if some link does not yield a name and a number.
    pub fn extract_asn_first_wins(&self, text: &str) -> (r: Option<Vec<ASN>>)
        ensures
            r is Some <==> extracted_first(text@) is Some,
            r matches Some(v) ==> extracted_first(text@) == Some(asn_views(v@)),
    {
        match self.link_records(text) {
            Some(records) => {
                let asns = records_to_asns(records);
                Some(dedup_first_wins(asns))
            },
            None => None,
        }
    }
}

/// The AS that a row describes: its number, name and ISP.
pub open spec fn asn_of_row(m: ModelView) -> AsnView {
    AsnView { number: m.number, name: m.name, isp: m.isp }
}

/// The AS of a row keeps the row's number, name and ISP; the ASes of rows
/// are those of each row in turn.
pub proof fn lemma_asn_of_row(rows: Seq<ModelView>)
    ensures
        asns_of_rows(rows).len() == rows.len(),
        forall|i: int|
            0 <= i < rows.len() ==> {
                &&& (#[trigger] asns_of_rows(rows)[i]).number == rows[i].number
                &&& asns_of_rows(rows)[i].name == rows[i].name
                &&& asns_of_rows(rows)[i].isp == rows[i].isp
            },
{
}

/// The ASes that rows describe, in order.
pub open spec fn asns_of_rows(s: Seq<ModelView>) -> Seq<AsnView> {
    s.map_values(|m: ModelView| asn_of_row(m))
}

/// The number, name and ISP of each row, as ASes, in order.
pub fn records_to_asns(records: Vec<Model>) -> (r: Vec<ASN>)
    ensures
        asn_views(r@) == asns_of_rows(model_views(records@)),
        r.len() == records.len(),
        forall|i: int|
            0 <= i < r.len() ==> {
                &&& (#[trigger] r@[i]).number@ == records@[i].number@
                &&& r@[i].name@ == records@[i].name@
                &&& r@[i].isp == records@[i].isp
            },
{
    let mut out: Vec<ASN> = Vec::new();
    let mut i: usize = 0;
    while i < records.len()
        invariant
            i <= records.len(),
            out.len() == i,
            asn_views(out@) =~= asns_of_rows(model_views(records@)).take(i as int),
        decreases records.len() - i,
    {
        let m = &records[i];
        out.push(ASN { number: m.number.clone(), name: m.name.clone(), isp: m.isp });
        assert(asn_views(out@)[i as int] == asn_of_row(records@[i as int]@));
        assert(asn_views(out@) =~= asns_of_rows(model_views(records@)).take(i + 1));
        i = i + 1;
    }
    assert forall|i: int| 0 <= i < out.len() implies {
        &&& (#[trigger] out@[i]).number@ == records@[i].number@
        &&& out@[i].name@ == records@[i].name@
        &&& out@[i].isp == records@[i].isp
    } by {
        assert(asn_views(out@)[i] == asns_of_rows(model_views(records@))[i]);
    }
    out
}

/// Whether `m` is a row as the crawler records it: no id, no update time,
/// and the ISP recognised from its name.
pub open spec fn is_crawled_row(m: ModelView) -> bool {
    &&& m.id == 0
    &&& m.updated_at == 0
    &&& m.isp == isp_of_name(m.name)
}

/// What a page yields: rows with distinct numbers; exactly the numbers of
/// the AS links on the page; for each number the row of the last link
/// with it; each row with no id, no update time and the ISP recognised
/// from its name.
pub proof fn lemma_extracted(text: Seq<char>)
    ensures
        extracted(text) matches Some(rs) ==> {
            let links = page_links(text)->0;
            &&& numbers_distinct(rs)
            &&& forall|n: Seq<char>| has_number(rs, n) <==> has_number(links, n)
            &&& forall|i: int| 0 <= i < rs.len() ==> is_last_occurrence(links, #[trigger] rs[i])
            &&& forall|i: int| 0 <= i < rs.len() ==> is_crawled_row(#[trigger] rs[i])
        },
{
    if let Some(links) = page_links(text) {
        lemma_dedup_last_numbers(links);
        lemma_dedup_last_keeps_last(links);
        let rs = dedup_last(links);
        assert forall|i: int| 0 <= i < rs.len() implies is_crawled_row(#[trigger] rs[i]) by {
            assert(is_last_occurrence(links, rs[i]));
            let k = choose|k: int|
                0 <= k < links.len() && links[k] == rs[i] && forall|k2: int|
                    k < k2 < links.len() ==> links[k2].number != rs[i].number;
            assert(is_crawled_row(links[k]));
        }
    }
}

/// What a page yields for the D1 service: ASes with distinct numbers;
/// exactly the numbers of the AS links on the page; for each number the AS
/// of the first link with it.
pub proof fn lemma_extracted_first(text: Seq<char>)
    ensures
        extracted_first(text) matches Some(asns) ==> {
            let links = asns_of_rows(page_links(text)->0);
            &&& forall|i: int, j: int| 0 <= i < j < asns.len() ==> asns[i].number != asns[j].number
            &&& forall|n: Seq<char>| asn_has_number(asns, n) <==> asn_has_number(links, n)
            &&& forall|i: int| 0 <= i < asns.len() ==> is_first_occurrence(links, #[trigger] asns[i])
        },
{
    if let Some(rs) = page_links(text) {
        lemma_dedup_first(asns_of_rows(rs));
    }
}


/// The `j`-th match of [`ASN_PATTERN`] within the `i`-th table row of `text`.
pub open spec fn link_at(text: Seq<char>, i: int, j: int) -> Seq<Option<Seq<char>>> {
    row_links(regex_find_all(ROW_PATTERN@, false, text), i)[j]
}

/// Whether `(i, j)` names a match of [`ASN_PATTERN`] in a table row of `text`:
/// `i` a table row, `j` a match within it.
pub open spec fn is_link_index(text: Seq<char>, i: int, j: int) -> bool {
    &&& 0 <= i < regex_find_all(ROW_PATTERN@, false, text).len()
    &&& 0 <= j < row_links(regex_find_all(ROW_PATTERN@, false, text), i).len()
}

/// Whether the link `(i, j)` comes before the link `(i2, j2)` in document
/// order: in an earlier table row, or earlier in the same row.
pub open spec fn link_precedes(i: int, j: int, i2: int, j2: int) -> bool {
    i < i2 || (i == i2 && j < j2)
}

/// Whether some AS link of a table row of `text` yields the name `name`
/// and the number `number`, and no AS link after it in the page yields
/// that number.
pub open spec fn comes_from_last_link(text: Seq<char>, name: Seq<char>, number: Seq<char>) -> bool {
    exists|i: int, j: int|
        {
            &&& is_link_index(text, i, j)
            &&& #[trigger] capture_fields(link_at(text, i, j)) == Some((name, number))
            &&& forall|i2: int, j2: int|
                is_link_index(text, i2, j2) && link_precedes(i, j, i2, j2) ==> !(capture_fields(
                    #[trigger] link_at(text, i2, j2),
                ) matches Some(f) && f.1 == number)
        }
}

/// Whether some AS link of a table row of `text` yields the name `name`
/// and the number `number`, and no AS link before it in the page yields
/// that number.
pub open spec fn comes_from_first_link(text: Seq<char>, name: Seq<char>, number: Seq<char>) -> bool {
    exists|i: int, j: int|
        {
            &&& is_link_index(text, i, j)
            &&& #[trigger] capture_fields(link_at(text, i, j)) == Some((name, number))
            &&& forall|i2: int, j2: int|
                is_link_index(text, i2, j2) && link_precedes(i2, j2, i, j) ==> !(capture_fields(
                    #[trigger] link_at(text, i2, j2),
                ) matches Some(f) && f.1 == number)
        }
}

proof fn lemma_link_fields_elements(c: Seq<Seq<Option<Seq<char>>>>)
    ensures
        link_fields(c) is Some <==> forall|j: int| 0 <= j < c.len() ==> (capture_fields(#[trigger] c[j]) is Some),
        link_fields(c) matches Some(fs) ==> {
            &&& fs.len() == c.len()
            &&& forall|j: int| 0 <= j < c.len() ==> capture_fields(#[trigger] c[j]) == Some(fs[j])
        },
    decreases c.len(),
{
    if c.len() > 0 {
        let p = c.drop_last();
        lemma_link_fields_elements(p);
        assert forall|j: int| 0 <= j < p.len() implies #[trigger] p[j] == c[j] by {}
        if link_fields(c) is Some {
            let fs = link_fields(c)->0;
            let ps = link_fields(p)->0;
            assert(fs == ps.push(capture_fields(c.last())->0));
            assert forall|j: int| 0 <= j < c.len() implies capture_fields(#[trigger] c[j]) == Some(fs[j]) by {
                if j < p.len() {
                    assert(p[j] == c[j]);
                }
            }
        } else {
            if link_fields(p) is Some {
                assert(capture_fields(c[c.len() - 1]) is None);
            } else {
                let j = choose|j: int| 0 <= j < p.len() && capture_fields(p[j]) is None;
                assert(capture_fields(c[j]) is None);
            }
        }
    }
}

/// The matches of [`ASN_PATTERN`] within the `i`-th of `rows`.
pub open spec fn row_links(rows: Seq<Seq<char>>, i: int) -> Seq<Seq<Option<Seq<char>>>> {
    regex_captures_all(ASN_PATTERN@, false, rows[i])
}

proof fn lemma_all_captures_at(rows: Seq<Seq<char>>, i: int, j: int)
    requires
        0 <= i < rows.len(),
        0 <= j < row_links(rows, i).len(),
    ensures
        all_captures(rows.take(i)).len() + j < all_captures(rows).len(),
        all_captures(rows)[all_captures(rows.take(i)).len() + j] == row_links(rows, i)[j],
{
    lemma_all_captures_split(rows, i);
    let rest = rows.skip(i);
    lemma_all_captures_split(rest, 1);
    let first = rest.take(1);
    assert(first.drop_last() =~= Seq::<Seq<char>>::empty());
    assert(first.len() == 1);
    assert(first.last() == rows[i]);
    assert(all_captures(first.drop_last()) =~= Seq::<Seq<Option<Seq<char>>>>::empty());
    assert(all_captures(first) =~= row_links(rows, i));
    let pre = all_captures(rows.take(i));
    assert(all_captures(rows) == pre + (row_links(rows, i) + all_captures(rest.skip(1))));
    assert(all_captures(rows)[pre.len() + j] == row_links(rows, i)[j]);
}

/// Where the link `(i, j)` stands among all the links of `rows`.
spec fn link_pos(rows: Seq<Seq<char>>, i: int, j: int) -> int {
    all_captures(rows.take(i)).len() + j
}

proof fn lemma_link_pos_step(rows: Seq<Seq<char>>, i: int)
    requires
        0 <= i < rows.len(),
    ensures
        all_captures(rows.take(i + 1)).len() == all_captures(rows.take(i)).len() + row_links(rows, i).len(),
{
    assert(rows.take(i + 1).drop_last() =~= rows.take(i));
    assert(rows.take(i + 1).last() == rows[i]);
}

proof fn lemma_link_pos_mono(rows: Seq<Seq<char>>, i: int, i2: int)
    requires
        0 <= i < i2 <= rows.len(),
    ensures
        all_captures(rows.take(i)).len() + row_links(rows, i).len() <= all_captures(rows.take(i2)).len(),
    decreases i2 - i,
{
    if i2 == i + 1 {
        lemma_link_pos_step(rows, i);
    } else {
        lemma_link_pos_mono(rows, i, i2 - 1);
        lemma_link_pos_step(rows, i2 - 1);
    }
}

proof fn lemma_link_pos_order(rows: Seq<Seq<char>>, i: int, j: int, i2: int, j2: int)
    requires
        0 <= i < rows.len(),
        0 <= j < row_links(rows, i).len(),
        0 <= i2 < rows.len(),
        link_precedes(i, j, i2, j2),
        0 <= j2,
    ensures
        link_pos(rows, i, j) < link_pos(rows, i2, j2),
{
    if i < i2 {
        lemma_link_pos_mono(rows, i, i2);
    }
}

proof fn lemma_all_captures_origin(rows: Seq<Seq<char>>, k: int) -> (ij: (int, int))
    requires
        0 <= k < all_captures(rows).len(),
    ensures
        0 <= ij.0 < rows.len(),
        0 <= ij.1 < row_links(rows, ij.0).len(),
        k == link_pos(rows, ij.0, ij.1),
        all_captures(rows)[k] == row_links(rows, ij.0)[ij.1],
    decreases rows.len(),
{
    let p = rows.drop_last();
    let a = all_captures(p);
    let last = regex_captures_all(ASN_PATTERN@, false, rows.last());
    assert(all_captures(rows) == a + last);
    if k < a.len() {
        let (i, j) = lemma_all_captures_origin(p, k);
        assert(rows[i] == p[i]);
        assert(row_links(rows, i) == row_links(p, i));
        assert(p.take(i) =~= rows.take(i));
        (i, j)
    } else {
        assert(row_links(rows, rows.len() - 1) == last);
        assert(rows.take(rows.len() - 1) =~= p);
        (rows.len() - 1, k - a.len())
    }
}

/// Every AS link of every table row of a page is read, the last link for a
/// number winning. A page is read exactly when every match of
/// [`ASN_PATTERN`] in every table row yields a name and a number; then the
/// page's rows hold the number of every such link, and every row comes from
/// the last link on the page with its number: its name and number are that
/// link's, its ISP the one recognised from the name, with no id and no
/// update time.
pub proof fn lemma_extract_reads_every_link(text: Seq<char>)
    ensures
        extracted(text) is Some <==> forall|i: int, j: int|
            is_link_index(text, i, j) ==> (capture_fields(#[trigger] link_at(text, i, j)) is Some),
        extracted(text) matches Some(rs) ==> forall|i: int, j: int|
            is_link_index(text, i, j) ==> (capture_fields(#[trigger] link_at(text, i, j)) matches Some(f)
                && has_number(rs, f.1)),
        extracted(text) matches Some(rs) ==> forall|t: int|
            0 <= t < rs.len() ==> comes_from_last_link(text, (#[trigger] rs[t]).name, rs[t].number)
                && is_crawled_row(rs[t]),
{
    lemma_page_links_reads_every_link(text);
    if let Some(links) = page_links(text) {
        let rows = regex_find_all(ROW_PATTERN@, false, text);
        let c = all_captures(rows);
        lemma_dedup_last_numbers(links);
        lemma_dedup_last_keeps_last(links);
        let rs = dedup_last(links);
        assert forall|i: int, j: int| is_link_index(text, i, j) implies (capture_fields(
            #[trigger] link_at(text, i, j),
        ) matches Some(f) && has_number(rs, f.1)) by {
            lemma_all_captures_at(rows, i, j);
            let k = link_pos(rows, i, j);
            assert(c[k] == link_at(text, i, j));
            assert(capture_fields(c[k]) == Some((links[k].name, links[k].number)));
            assert(has_number(links, links[k].number));
        }
        assert forall|t: int| 0 <= t < rs.len() implies comes_from_last_link(
            text,
            (#[trigger] rs[t]).name,
            rs[t].number,
        ) && is_crawled_row(rs[t]) by {
            assert(is_last_occurrence(links, rs[t]));
            let k = choose|k: int|
                0 <= k < links.len() && links[k] == rs[t] && forall|k2: int|
                    k < k2 < links.len() ==> links[k2].number != rs[t].number;
            let (i, j) = lemma_all_captures_origin(rows, k);
            assert(link_at(text, i, j) == c[k]);
            assert(is_link_index(text, i, j));
            assert forall|i2: int, j2: int|
                is_link_index(text, i2, j2) && link_precedes(i, j, i2, j2) implies !(capture_fields(
                #[trigger] link_at(text, i2, j2),
            ) matches Some(f) && f.1 == rs[t].number) by {
                lemma_all_captures_at(rows, i2, j2);
                lemma_link_pos_order(rows, i, j, i2, j2);
                let k2 = link_pos(rows, i2, j2);
                assert(c[k2] == link_at(text, i2, j2));
                assert(capture_fields(c[k2]) == Some((links[k2].name, links[k2].number)));
            }
        }
    }
}

/// Every AS link of every table row of a page is read for the D1 service
/// too, the first link for a number winning: the page is read exactly when
/// it is read into rows; then its ASes hold the number of every link, and
/// every AS comes from the first link on the page with its number: its name
/// and number are that link's and its ISP the one recognised from the name.
pub proof fn lemma_extract_first_reads_every_link(text: Seq<char>)
    ensures
        extracted_first(text) is Some <==> extracted(text) is Some,
        extracted_first(text) matches Some(asns) ==> forall|i: int, j: int|
            is_link_index(text, i, j) ==> (capture_fields(#[trigger] link_at(text, i, j)) matches Some(f)
                && asn_has_number(asns, f.1)),
        extracted_first(text) matches Some(asns) ==> forall|t: int|
            0 <= t < asns.len() ==> comes_from_first_link(text, (#[trigger] asns[t]).name, asns[t].number)
                && asns[t].isp == isp_of_name(asns[t].name),
{
    lemma_page_links_reads_every_link(text);
    if let Some(links) = page_links(text) {
        let rows = regex_find_all(ROW_PATTERN@, false, text);
        let c = all_captures(rows);
        let la = asns_of_rows(links);
        lemma_dedup_first(la);
        let asns = dedup_first(la);
        assert forall|i: int, j: int| is_link_index(text, i, j) implies (capture_fields(
            #[trigger] link_at(text, i, j),
        ) matches Some(f) && asn_has_number(asns, f.1)) by {
            lemma_all_captures_at(rows, i, j);
            let k = link_pos(rows, i, j);
            assert(c[k] == link_at(text, i, j));
            assert(capture_fields(c[k]) == Some((links[k].name, links[k].number)));
            assert(la[k].number == links[k].number);
            assert(asn_has_number(la, links[k].number));
        }
        assert forall|t: int| 0 <= t < asns.len() implies comes_from_first_link(
            text,
            (#[trigger] asns[t]).name,
            asns[t].number,
        ) && asns[t].isp == isp_of_name(asns[t].name) by {
            assert(is_first_occurrence(la, asns[t]));
            let k = choose|k: int|
                0 <= k < la.len() && la[k] == asns[t] && forall|k2: int|
                    0 <= k2 < k ==> la[k2].number != asns[t].number;
            assert(la[k] == asn_of_row(links[k]));
            assert(is_crawled_row(links[k]));
            let (i, j) = lemma_all_captures_origin(rows, k);
            assert(link_at(text, i, j) == c[k]);
            assert(is_link_index(text, i, j));
            assert forall|i2: int, j2: int|
                is_link_index(text, i2, j2) && link_precedes(i2, j2, i, j) implies !(capture_fields(
                #[trigger] link_at(text, i2, j2),
            ) matches Some(f) && f.1 == asns[t].number) by {
                lemma_all_captures_at(rows, i2, j2);
                lemma_link_pos_order(rows, i2, j2, i, j);
                let k2 = link_pos(rows, i2, j2);
                assert(c[k2] == link_at(text, i2, j2));
                assert(capture_fields(c[k2]) == Some((links[k2].name, links[k2].number)));
                assert(la[k2].number == links[k2].number);
            }
        }
    }
}

/// The links of a page, before any are merged: the page is read exactly
/// when every link yields a name and a number, and then there is one row
/// per link, in the order of the links, with that link's name and number.
proof fn lemma_page_links_reads_every_link(text: Seq<char>)
    ensures
        page_links(text) is Some <==> forall|i: int, j: int|
            is_link_index(text, i, j) ==> (capture_fields(#[trigger] link_at(text, i, j)) is Some),
        page_links(text) matches Some(links) ==> {
            let c = all_captures(regex_find_all(ROW_PATTERN@, false, text));
            &&& links.len() == c.len()
            &&& forall|k: int|
                0 <= k < links.len() ==> capture_fields(c[k]) == Some(
                    ((#[trigger] links[k]).name, links[k].number),
                ) && is_crawled_row(links[k])
        },
{
    let rows = regex_find_all(ROW_PATTERN@, false, text);
    let c = all_captures(rows);
    lemma_link_fields_elements(c);
    if link_fields(c) is Some {
        let fs = link_fields(c)->0;
        let links = crawled_rows(fs);
        assert(page_links(text) == Some(links));
        assert forall|i: int, j: int| is_link_index(text, i, j) implies (capture_fields(
            #[trigger] link_at(text, i, j),
        ) is Some) by {
            lemma_all_captures_at(rows, i, j);
            assert(c[link_pos(rows, i, j)] == link_at(text, i, j));
        }
        assert forall|k: int| 0 <= k < links.len() implies capture_fields(c[k]) == Some(
            ((#[trigger] links[k]).name, links[k].number),
        ) && is_crawled_row(links[k]) by {
            assert(capture_fields(c[k]) == Some(fs[k]));
            assert(links[k] == crawled_record(fs[k].0, fs[k].1));
        }
    } else {
        let k = choose|k: int| 0 <= k < c.len() && capture_fields(c[k]) is None;
        let (i, j) = lemma_all_captures_origin(rows, k);
        assert(link_at(text, i, j) == c[k]);
        assert(is_link_index(text, i, j));
    }
}

/// The ISP of a network is `OTHER` exactly when no ISP's pattern matches
/// its name; any other ISP given is one whose pattern matches the name,
/// and no ISP tried before it matches.
pub proof fn lemma_isp_of_name(name: Seq<char>)
    ensures
        isp_of_name(name) == ISP::OTHER <==> forall|k: int|
            0 <= k < ISP_COUNT ==> !regex_is_match(isp_pattern(isp_rank(k)), true, name),
        forall|k: int|
            0 <= k < ISP_COUNT && isp_of_name(name) == isp_rank(k) ==> {
                &&& regex_is_match(isp_pattern(isp_rank(k)), true, name)
                &&& forall|j: int|
                    0 <= j < k ==> !regex_is_match(isp_pattern(isp_rank(j)), true, name)
            },
{
    let m = name_matches(name);
    lemma_isp_of_matches(m);
    assert(m.len() == ISP_COUNT);
    if isp_of_name(name) == ISP::OTHER {
        assert forall|k: int| 0 <= k < ISP_COUNT implies !regex_is_match(
            isp_pattern(isp_rank(k)),
            true,
            name,
        ) by {
            assert(!m[k]);
        }
    } else {
        assert(!(forall|k: int| 0 <= k < m.len() ==> !m[k]));
        let k = choose|k: int| 0 <= k < m.len() && m[k];
        assert(regex_is_match(isp_pattern(isp_rank(k)), true, name));
    }
    assert forall|k: int|
        0 <= k < ISP_COUNT && isp_of_name(name) == isp_rank(k) implies {
            &&& regex_is_match(isp_pattern(isp_rank(k)), true, name)
            &&& forall|j: int|
                0 <= j < k ==> !regex_is_match(isp_pattern(isp_rank(j)), true, name)
        } by {
        assert(m[k]);
        assert forall|j: int| 0 <= j < k implies !regex_is_match(
            isp_pattern(isp_rank(j)),
            true,
            name,
        ) by {
            assert(!m[j]);
        }
    }
}

/// The pattern of each ISP is that ISP's named constant.
pub proof fn lemma_isp_patterns()
    ensures
        isp_pattern(ISP::CT) == CT_PATTERN@,
        isp_pattern(ISP::CMCC) == CMCC_PATTERN@,
        isp_pattern(ISP::CU) == CU_PATTERN@,
        isp_pattern(ISP::CERNET) == CERNET_PATTERN@,
        isp_pattern(ISP::CSTNET) == CSTNET_PATTERN@,
        isp_pattern(ISP::CAICT) == CAICT_PATTERN@,
{
}

/// The ISP that operates a network called `name`: CT when [`CT_PATTERN`]
/// matches the name ignoring case; else CMCC when [`CMCC_PATTERN`] does;
/// else CU, CERNET, CSTNET, CAICT by their patterns in that order; else
/// `OTHER`.
pub proof fn lemma_isp_of_name_by_patterns(name: Seq<char>)
    ensures
        isp_of_name(name) == if regex_is_match(CT_PATTERN@, true, name) {
            ISP::CT
        } else if regex_is_match(CMCC_PATTERN@, true, name) {
            ISP::CMCC
        } else if regex_is_match(CU_PATTERN@, true, name) {
            ISP::CU
        } else if regex_is_match(CERNET_PATTERN@, true, name) {
            ISP::CERNET
        } else if regex_is_match(CSTNET_PATTERN@, true, name) {
            ISP::CSTNET
        } else if regex_is_match(CAICT_PATTERN@, true, name) {
            ISP::CAICT
        } else {
            ISP::OTHER
        },
{
    let m = name_matches(name);
    assert(m.len() == 6);
    assert(m[0] == regex_is_match(CT_PATTERN@, true, name));
    assert(m[1] == regex_is_match(CMCC_PATTERN@, true, name));
    assert(m[2] == regex_is_match(CU_PATTERN@, true, name));
    assert(m[3] == regex_is_match(CERNET_PATTERN@, true, name));
    assert(m[4] == regex_is_match(CSTNET_PATTERN@, true, name));
    assert(m[5] == regex_is_match(CAICT_PATTERN@, true, name));
    reveal_with_fuel(first_match_from, 7);
}

} // verus!
