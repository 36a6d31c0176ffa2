use asn_worker::cache::{cache_step, CacheAction, CacheEvent, CacheStage, CACHE_KEY, KV_EXPIRATION_TTL};
use asn_worker::d1::{
    delete_all_statement, dedup_first_wins, insert_statements, merge_crawls, query_all_statement,
    CACHE_TTL, DELETE_ALL_SQL, INSERT_SQL, QUERY_ALL_SQL,
};
use asn_worker::isp::ISP;
use asn_worker::model::{Model, ASN};
use asn_worker::upsert::{
    chunk_rows, plan_delete_expired_at, plan_upsert_at, removed_by_cutoff, stamp_rows, UpsertRow,
    DB_CHUNK_SIZE,
};

fn asn(number: &str, name: &str) -> ASN {
    ASN { number: number.to_string(), name: name.to_string(), isp: ISP::OTHER }
}

fn models(n: usize) -> Vec<Model> {
    (0..n).map(|i| Model::with_fields(i.to_string(), format!("net {}", i), ISP::CU)).collect()
}

#[test]
fn cache_hit_answers_from_cache() {
    let (stage, action) = cache_step::<Vec<u32>>(CacheStage::Idle, CacheEvent::Begin, KV_EXPIRATION_TTL);
    assert!(matches!(stage, CacheStage::AwaitingCache));
    assert!(matches!(action, CacheAction::ReadCache { key } if key == CACHE_KEY));
    let (stage, action) =
        cache_step(stage, CacheEvent::CacheRead(Some(vec![1u32, 2])), KV_EXPIRATION_TTL);
    assert!(matches!(stage, CacheStage::Finished));
    assert!(matches!(action, CacheAction::Respond(v) if v == vec![1, 2]));
}

#[test]
fn cache_miss_loads_table_and_fills_cache() {
    let (stage, _) = cache_step::<Vec<u32>>(CacheStage::Idle, CacheEvent::Begin, 3600);
    let (stage, action) = cache_step::<Vec<u32>>(stage, CacheEvent::CacheRead(None), 3600);
    assert!(matches!(stage, CacheStage::AwaitingTable));
    assert!(matches!(action, CacheAction::LoadTable));
    assert!(stage.pending().is_none());
    let (stage, action) = cache_step(stage, CacheEvent::TableRows(vec![7u32]), 3600);
    assert_eq!(stage.pending(), Some(&vec![7u32]));
    match action {
        CacheAction::WriteCache { key, ttl } => {
            assert_eq!(key, "whole");
            assert_eq!(ttl, 3600);
        }
        other => panic!("unexpected action {:?}", other),
    }
    let (stage, action) = cache_step(stage, CacheEvent::Stored, 3600);
    assert!(matches!(stage, CacheStage::Finished));
    assert!(matches!(action, CacheAction::Respond(v) if v == vec![7]));
}

#[test]
fn cache_failure_aborts() {
    for stage in [
        CacheStage::Idle,
        CacheStage::AwaitingCache,
        CacheStage::AwaitingTable,
        CacheStage::AwaitingStore(3u8),
        CacheStage::Finished,
    ] {
        let (next, action) = cache_step::<u8>(stage, CacheEvent::Failed, 600);
        assert!(matches!(next, CacheStage::Finished));
        assert!(matches!(action, CacheAction::Abort));
    }
    let (next, action) = cache_step::<u8>(CacheStage::Finished, CacheEvent::Begin, 600);
    assert!(matches!(next, CacheStage::Finished));
    assert!(matches!(action, CacheAction::Abort));
    let (_, action) = cache_step::<u8>(CacheStage::Idle, CacheEvent::TableRows(1), 600);
    assert!(matches!(action, CacheAction::Abort));
    let (_, action) = cache_step::<u8>(CacheStage::AwaitingTable, CacheEvent::Stored, 600);
    assert!(matches!(action, CacheAction::Abort));
}

#[test]
fn stamp_rows_sets_update_time() {
    let rows = stamp_rows(models(3), 1_700_000_000_123);
    assert_eq!(rows.len(), 3);
    for (i, r) in rows.iter().enumerate() {
        assert_eq!(r.updated_at, 1_700_000_000_123);
        assert_eq!(r.number, i.to_string());
        assert_eq!(r.name, format!("net {}", i));
        assert_eq!(r.isp, ISP::CU);
    }
}

#[test]
fn chunks_have_at_most_sixteen_rows() {
    for n in [0usize, 1, 15, 16, 17, 32, 33, 100] {
        let plan = plan_upsert_at(models(n), 5);
        let sizes: Vec<usize> = plan.iter().map(|c| c.len()).collect();
        let expected_chunks = (n + DB_CHUNK_SIZE - 1) / DB_CHUNK_SIZE;
        assert_eq!(plan.len(), expected_chunks);
        for (k, s) in sizes.iter().enumerate() {
            if k + 1 < sizes.len() {
                assert_eq!(*s, 16);
            } else {
                assert!(*s >= 1 && *s <= 16);
            }
        }
        let joined: Vec<String> = plan.iter().flatten().map(|r| r.number.clone()).collect();
        let expected: Vec<String> = (0..n).map(|i| i.to_string()).collect();
        assert_eq!(joined, expected);
    }
}

#[test]
fn chunk_rows_of_other_sizes() {
    let rows: Vec<UpsertRow> = stamp_rows(models(5), 0);
    let chunks = chunk_rows(rows, 2);
    let numbers: Vec<Vec<String>> =
        chunks.iter().map(|c| c.iter().map(|r| r.number.clone()).collect()).collect();
    assert_eq!(numbers, vec![vec!["0", "1"], vec!["2", "3"], vec!["4"]]);
}

#[test]
fn plan_upsert_stamps_the_given_time() {
    let plan = plan_upsert_at(models(20), 1_700_000_000_000);
    assert_eq!(plan.len(), 2);
    assert!(plan.iter().flatten().all(|r| r.updated_at == 1_700_000_000_000));
}

#[test]
fn expiry_cutoff_and_filter() {
    assert_eq!(plan_delete_expired_at(10_000, 3_000), Some(7_000));
    assert_eq!(plan_delete_expired_at(0, -5), Some(5));
    assert_eq!(plan_delete_expired_at(1_700_000_000_000, 86_400_000), Some(1_699_913_600_000));
    assert_eq!(plan_delete_expired_at(0, i64::MIN), None);
    assert_eq!(plan_delete_expired_at(i64::MIN, 1), None);
    assert!(removed_by_cutoff(7_000, 7_000));
    assert!(removed_by_cutoff(9_000, 7_000));
    assert!(!removed_by_cutoff(6_999, 7_000));
}

#[test]
fn insert_statements_bind_number_and_name() {
    let stmts = insert_statements(vec![asn("1", "a"), asn("2", "b")]);
    assert_eq!(stmts.len(), 2);
    assert_eq!(stmts[0].sql, INSERT_SQL);
    assert_eq!(stmts[0].params, vec!["1".to_string(), "a".to_string()]);
    assert_eq!(stmts[1].params, vec!["2".to_string(), "b".to_string()]);
    assert_eq!(INSERT_SQL, "INSERT INTO ASNs (number, name) VALUES (?, ?);");
    assert!(insert_statements(vec![]).is_empty());
}

#[test]
fn fixed_statements() {
    let d = delete_all_statement();
    assert_eq!(d.sql, DELETE_ALL_SQL);
    assert!(d.params.is_empty());
    let q = query_all_statement();
    assert_eq!(q.sql, QUERY_ALL_SQL);
    assert_eq!(q.sql, "SELECT * FROM ASNs ORDER BY number ASC;");
    assert_eq!(CACHE_TTL, 600);
}

#[test]
fn merge_prefers_first_crawl() {
    let merged = merge_crawls(
        vec![asn("1", "ipip one"), asn("2", "ipip two")],
        vec![asn("2", "he two"), asn("3", "he three"), asn("3", "he three again")],
    );
    let got: Vec<(String, String)> = merged.iter().map(|a| (a.number.clone(), a.name.clone())).collect();
    assert_eq!(
        got,
        vec![
            ("1".to_string(), "ipip one".to_string()),
            ("2".to_string(), "ipip two".to_string()),
            ("3".to_string(), "he three".to_string()),
        ]
    );
}

#[test]
fn dedup_first_keeps_first() {
    let out = dedup_first_wins(vec![asn("9", "a"), asn("9", "b"), asn("8", "c")]);
    let got: Vec<(String, String)> = out.iter().map(|a| (a.number.clone(), a.name.clone())).collect();
    assert_eq!(got, vec![("9".to_string(), "a".to_string()), ("8".to_string(), "c".to_string())]);
}
