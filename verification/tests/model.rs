use asn_worker::isp::{same_text, ISP};
use std::hash::Hasher;
use asn_worker::model::{Model, ASN};

#[test]
fn isp_text_round_trip() {
    for isp in [ISP::OTHER, ISP::CT, ISP::CMCC, ISP::CU, ISP::CERNET, ISP::CSTNET, ISP::CAICT] {
        assert_eq!(ISP::from_text(isp.as_str()), Some(isp));
    }
    assert_eq!(ISP::CMCC.as_str(), "CMCC");
    assert_eq!(ISP::from_text("ct"), None);
    assert_eq!(ISP::from_text(""), None);
    assert_eq!(ISP::from_text("CTX"), None);
}

#[test]
fn isp_default_is_other() {
    assert_eq!(ISP::default(), ISP::OTHER);
}

#[test]
fn same_text_compares_characters() {
    assert!(same_text("网络", "网络"));
    assert!(!same_text("网络", "网"));
    assert!(!same_text("ab", "ba"));
    assert!(same_text("", ""));
}

#[test]
fn model_equality_compares_numbers_only() {
    let a = Model::with_fields("4134".to_string(), "a".to_string(), ISP::CT);
    let mut b = Model::with_fields("4134".to_string(), "b".to_string(), ISP::CU);
    b.updated_at = 17;
    b.id = 3;
    let c = Model::with_fields("4837".to_string(), "a".to_string(), ISP::CT);
    assert!(a == b);
    assert!(b == a);
    assert!(a == a);
    assert!(a != c);
}

#[test]
fn model_default_and_clone() {
    let d = Model::default();
    assert_eq!((d.updated_at, d.id, d.number.as_str(), d.name.as_str(), d.isp), (0, 0, "", "", ISP::OTHER));
    let mut m = Model::with_fields("1".to_string(), "n".to_string(), ISP::CERNET);
    m.updated_at = 5;
    let c = m.clone();
    assert_eq!((c.updated_at, c.id, c.number.as_str(), c.name.as_str(), c.isp), (5, 0, "1", "n", ISP::CERNET));
}

#[test]
fn asn_equality_compares_numbers_only() {
    let a = ASN { number: "1".to_string(), name: "x".to_string(), isp: ISP::CT };
    let b = ASN { number: "1".to_string(), name: "y".to_string(), isp: ISP::OTHER };
    let c = ASN { number: "2".to_string(), name: "x".to_string(), isp: ISP::CT };
    assert!(a == b);
    assert!(a != c);
    let d = a.clone();
    assert_eq!((d.number.as_str(), d.name.as_str(), d.isp), ("1", "x", ISP::CT));
}

fn hash_of<T: std::hash::Hash>(t: &T) -> u64 {
    let mut h = std::collections::hash_map::DefaultHasher::new();
    t.hash(&mut h);
    h.finish()
}

#[test]
fn equal_rows_hash_alike() {
    let a = Model::with_fields("4134".to_string(), "a".to_string(), ISP::CT);
    let mut b = Model::with_fields("4134".to_string(), "b".to_string(), ISP::CU);
    b.updated_at = 9;
    assert_eq!(hash_of(&a), hash_of(&b));
    assert_eq!(hash_of(&a), hash_of(&"4134".to_string()));
    let x = ASN { number: "7".to_string(), name: "x".to_string(), isp: ISP::CT };
    let y = ASN { number: "7".to_string(), name: "y".to_string(), isp: ISP::OTHER };
    assert_eq!(hash_of(&x), hash_of(&y));
    let mut set = std::collections::HashSet::new();
    set.insert(x);
    assert!(!set.insert(y));
}
