use asn_worker::crawler::{
    dedup_last_wins, fields_of_links, isp_at, records_to_asns, rows_of_links, isp_from_matches, isp_pattern_text, name_and_number, Crawler,
    ASN_PATTERN, CT_PATTERN, ISP_COUNT, ROW_PATTERN,
};
use asn_worker::isp::ISP;
use asn_worker::model::Model;

const PAGE: &str = r#"<html><body><table>
<tr><th>ASN</th><th>Name</th></tr>
<tr>
  <td> <a href="/AS4134" title="CHINANET-BACKBONE No.31,Jin-rong Street">AS4134</a></td>
  <td>120,000,000</td>
</tr>
<tr><td><a href="/AS9808" title="China Mobile Communications Corporation">AS9808</a> </td></tr>
<tr><td><a href="/AS4837" title="CHINA UNICOM China169 Backbone">AS4837</a></td></tr>
<tr><td><a href="/AS23910" title="China Next Generation Internet CERNET2">AS23910</a></td></tr>
<tr><td><a href="/AS7497" title="CNIC-CAS Computer Network Information Center">AS7497</a></td></tr>
<tr><td><a href="/AS37965" title="Chinese Academy of Telecommunication Research of MIIT">AS37965</a></td></tr>
<tr><td><a href="/AS45102" title="Alibaba US Technology Co., Ltd.">AS45102</a></td></tr>
<tr><td><a href="/AS4134" title="CHINANET backbone renamed">AS4134</a></td></tr>
</table></body></html>"#;

fn crawler() -> Crawler {
    Crawler::new().expect("the patterns compile")
}

fn entry(m: &Model) -> (String, String, ISP) {
    (m.number.clone(), m.name.clone(), m.isp)
}

#[test]
fn patterns_compile() {
    assert!(Crawler::new().is_some());
    assert!(ROW_PATTERN.starts_with("<tr>"));
    assert!(ASN_PATTERN.contains("AS([0-9]+)"));
}

#[test]
fn extract_reads_every_listed_asn() {
    let rows = crawler().extract_asn(PAGE).expect("every link yields a name and a number");
    let got: Vec<(String, String, ISP)> = rows.iter().map(entry).collect();
    assert_eq!(
        got,
        vec![
            ("4134".to_string(), "CHINANET backbone renamed".to_string(), ISP::CT),
            ("9808".to_string(), "China Mobile Communications Corporation".to_string(), ISP::CMCC),
            ("4837".to_string(), "CHINA UNICOM China169 Backbone".to_string(), ISP::CU),
            ("23910".to_string(), "China Next Generation Internet CERNET2".to_string(), ISP::CERNET),
            ("7497".to_string(), "CNIC-CAS Computer Network Information Center".to_string(), ISP::CSTNET),
            (
                "37965".to_string(),
                "Chinese Academy of Telecommunication Research of MIIT".to_string(),
                ISP::CAICT,
            ),
            ("45102".to_string(), "Alibaba US Technology Co., Ltd.".to_string(), ISP::OTHER),
        ]
    );
    for m in &rows {
        assert_eq!(m.id, 0);
        assert_eq!(m.updated_at, 0);
    }
}

#[test]
fn extract_keeps_one_row_per_number() {
    let rows = crawler().extract_asn(PAGE).unwrap();
    for (i, a) in rows.iter().enumerate() {
        for b in rows.iter().skip(i + 1) {
            assert_ne!(a.number, b.number);
        }
    }
    assert_eq!(rows.len(), 7);
}

#[test]
fn extract_ignores_links_outside_rows() {
    let text = r#"<td><a href="/AS1" title="CHINANET">AS1</a></td>
<tr><td><a href="/AS2" title="UNICOM">AS2</a></td></tr>"#;
    let rows = crawler().extract_asn(text).unwrap();
    let got: Vec<(String, String, ISP)> = rows.iter().map(entry).collect();
    assert_eq!(got, vec![("2".to_string(), "UNICOM".to_string(), ISP::CU)]);
}

#[test]
fn extract_of_empty_page_is_empty() {
    assert_eq!(crawler().extract_asn("").unwrap().len(), 0);
    assert_eq!(crawler().extract_asn("<tr><td>no links</td></tr>").unwrap().len(), 0);
}

#[test]
fn extract_reads_several_links_in_one_row() {
    let text = r#"<tr><td><a title="CERNET">AS10</a></td><td><a title="cernet backbone">AS11</a></td></tr>"#;
    let rows = crawler().extract_asn(text).unwrap();
    let got: Vec<(String, String, ISP)> = rows.iter().map(entry).collect();
    assert_eq!(
        got,
        vec![
            ("10".to_string(), "CERNET".to_string(), ISP::CERNET),
            ("11".to_string(), "cernet backbone".to_string(), ISP::CERNET),
        ]
    );
}

#[test]
fn determine_isp_by_name() {
    let c = crawler();
    assert_eq!(c.determine_isp("CHINA TELECOM Group"), ISP::CT);
    assert_eq!(c.determine_isp("china telecom"), ISP::CT);
    assert_eq!(c.determine_isp("CT GUANGZHOU IDC"), ISP::CT);
    assert_eq!(c.determine_isp("China TieTong Telecommunications Corporation"), ISP::CMCC);
    assert_eq!(c.determine_isp("China Unicom Beijing"), ISP::CU);
    assert_eq!(c.determine_isp("Some Company"), ISP::OTHER);
    assert_eq!(c.determine_isp(""), ISP::OTHER);
}

#[test]
fn determine_isp_prefers_earlier_rank() {
    let c = crawler();
    assert_eq!(c.determine_isp("CHINANET and UNICOM"), ISP::CT);
    assert_eq!(c.determine_isp("UNICOM CERNET"), ISP::CU);
}

#[test]
fn isp_rank_order() {
    let ranks: Vec<ISP> = (0..ISP_COUNT + 1).map(isp_at).collect();
    assert_eq!(
        ranks,
        vec![ISP::CT, ISP::CMCC, ISP::CU, ISP::CERNET, ISP::CSTNET, ISP::CAICT, ISP::OTHER]
    );
    assert_eq!(isp_pattern_text(ISP::CT), CT_PATTERN);
    assert_eq!(isp_pattern_text(ISP::CU), "UNICOM");
    assert_eq!(isp_pattern_text(ISP::OTHER), "");
}

#[test]
fn isp_from_matches_picks_first_true() {
    assert_eq!(isp_from_matches(&vec![false, false, true, true, false, false]), ISP::CU);
    assert_eq!(isp_from_matches(&vec![true, true, true, true, true, true]), ISP::CT);
    assert_eq!(isp_from_matches(&vec![false; 6]), ISP::OTHER);
    assert_eq!(isp_from_matches(&vec![false, false, false, false, false, true]), ISP::CAICT);
    assert_eq!(isp_from_matches(&vec![]), ISP::OTHER);
}

#[test]
fn name_and_number_from_groups() {
    let groups = vec![Some("whole".to_string()), Some("Name".to_string()), Some("42".to_string())];
    assert_eq!(name_and_number(&groups), Some(("Name".to_string(), "42".to_string())));
    let missing = vec![Some("whole".to_string()), None, Some("42".to_string())];
    assert_eq!(name_and_number(&missing), None);
    let short = vec![Some("whole".to_string()), Some("Name".to_string())];
    assert_eq!(name_and_number(&short), None);
}

#[test]
fn dedup_keeps_last_row_at_first_place() {
    let rows = vec![
        Model::with_fields("1".to_string(), "a".to_string(), ISP::CT),
        Model::with_fields("2".to_string(), "b".to_string(), ISP::CU),
        Model::with_fields("1".to_string(), "c".to_string(), ISP::OTHER),
        Model::with_fields("3".to_string(), "d".to_string(), ISP::CMCC),
        Model::with_fields("2".to_string(), "e".to_string(), ISP::CAICT),
    ];
    let out = dedup_last_wins(rows);
    let got: Vec<(String, String, ISP)> = out.iter().map(entry).collect();
    assert_eq!(
        got,
        vec![
            ("1".to_string(), "c".to_string(), ISP::OTHER),
            ("2".to_string(), "e".to_string(), ISP::CAICT),
            ("3".to_string(), "d".to_string(), ISP::CMCC),
        ]
    );
    assert_eq!(dedup_last_wins(vec![]).len(), 0);
}

#[test]
fn extract_first_wins_keeps_first_link() {
    let rows = crawler().extract_asn_first_wins(PAGE).expect("every link yields a name and a number");
    let got: Vec<(String, String, ISP)> =
        rows.iter().map(|a| (a.number.clone(), a.name.clone(), a.isp)).collect();
    assert_eq!(got.len(), 7);
    assert_eq!(
        got[0],
        ("4134".to_string(), "CHINANET-BACKBONE No.31,Jin-rong Street".to_string(), ISP::CT)
    );
    assert_eq!(got[6], ("45102".to_string(), "Alibaba US Technology Co., Ltd.".to_string(), ISP::OTHER));
    for (i, a) in rows.iter().enumerate() {
        for b in rows.iter().skip(i + 1) {
            assert_ne!(a.number, b.number);
        }
    }
    assert_eq!(crawler().extract_asn_first_wins("").unwrap().len(), 0);
}

#[test]
fn records_become_asns() {
    let asns = records_to_asns(vec![
        Model::with_fields("1".to_string(), "a".to_string(), ISP::CU),
        Model::with_fields("1".to_string(), "b".to_string(), ISP::CT),
    ]);
    let got: Vec<(String, String, ISP)> =
        asns.iter().map(|a| (a.number.clone(), a.name.clone(), a.isp)).collect();
    assert_eq!(
        got,
        vec![("1".to_string(), "a".to_string(), ISP::CU), ("1".to_string(), "b".to_string(), ISP::CT)]
    );
}

#[test]
fn fields_of_links_reads_every_match() {
    let caps = vec![
        vec![Some("<td>..</td>".to_string()), Some("CHINANET".to_string()), Some("4134".to_string())],
        vec![Some("<td>..</td>".to_string()), Some("UNICOM".to_string()), Some("4837".to_string())],
    ];
    assert_eq!(
        fields_of_links(&caps),
        Some(vec![
            ("CHINANET".to_string(), "4134".to_string()),
            ("UNICOM".to_string(), "4837".to_string()),
        ])
    );
    let broken = vec![
        vec![Some("a".to_string()), Some("x".to_string()), Some("1".to_string())],
        vec![Some("b".to_string()), None, Some("2".to_string())],
    ];
    assert_eq!(fields_of_links(&broken), None);
    assert_eq!(fields_of_links(&vec![]), Some(vec![]));
}

#[test]
fn rows_of_links_pairs_fields_with_isps() {
    let rows = rows_of_links(
        vec![("CHINANET".to_string(), "4134".to_string()), ("x".to_string(), "1".to_string())],
        &vec![ISP::CT, ISP::OTHER],
    );
    let got: Vec<(String, String, ISP, i64, i64)> =
        rows.iter().map(|m| (m.number.clone(), m.name.clone(), m.isp, m.id, m.updated_at)).collect();
    assert_eq!(
        got,
        vec![
            ("4134".to_string(), "CHINANET".to_string(), ISP::CT, 0, 0),
            ("1".to_string(), "x".to_string(), ISP::OTHER, 0, 0),
        ]
    );
}
