use spectra::entity::{
    insert_property, AdmiraltyCode, EntityKind, InformationCredibility, PropertyValue, SourceReliability,
};
use spectra::json::JsonValue;

#[test]
fn admiralty_codes_parse() {
    let c = AdmiraltyCode::from_str("B3").unwrap();
    assert_eq!(c.source_reliability, SourceReliability::B);
    assert_eq!(c.information_credibility, InformationCredibility::V3);
    assert!(AdmiraltyCode::from_str("G1").is_none());
    assert!(AdmiraltyCode::from_str("A7").is_none());
    assert!(AdmiraltyCode::from_str("A").is_none());
    assert!(AdmiraltyCode::from_str("A12").is_none());
    assert!(AdmiraltyCode::from_str("ÀÉ").is_none());
}

#[test]
fn credibility_ranks_roundtrip() {
    for c in [
        InformationCredibility::V1,
        InformationCredibility::V2,
        InformationCredibility::V3,
        InformationCredibility::V4,
        InformationCredibility::V5,
        InformationCredibility::V6,
    ] {
        assert_eq!(InformationCredibility::from_rank(c.rank()), c);
    }
    assert_eq!(InformationCredibility::V4.rank(), 4);
    assert_eq!(InformationCredibility::from_rank(99), InformationCredibility::V6);
}

#[test]
fn kind_names() {
    assert_eq!(EntityKind::EmailAddress.name(), "EmailAddress");
    assert_eq!(EntityKind::Vehicle.name(), "Vehicle");
}

#[test]
fn property_json() {
    assert_eq!(PropertyValue::String("a\"b".to_string()).to_json(), "\"a\\\"b\"");
    assert_eq!(PropertyValue::Integer(-7).to_json(), "-7");
    assert_eq!(PropertyValue::Integer(i64::MIN).to_json(), "-9223372036854775808");
    assert_eq!(PropertyValue::Boolean(false).to_json(), "false");
    assert_eq!(PropertyValue::Float("1.5".to_string()).to_json(), "1.5");
    assert_eq!(PropertyValue::Json(JsonValue::Null).to_json(), "null");
}

#[test]
fn properties_stay_sorted_and_unique() {
    let mut props = Vec::new();
    insert_property(&mut props, "b".to_string(), PropertyValue::Integer(1));
    insert_property(&mut props, "a".to_string(), PropertyValue::Integer(2));
    insert_property(&mut props, "b".to_string(), PropertyValue::Integer(3));
    let keys: Vec<&str> = props.iter().map(|(k, _)| k.as_str()).collect();
    assert_eq!(keys, vec!["a", "b"]);
    assert!(matches!(props[1].1, PropertyValue::Integer(3)));
}

#[test]
fn admiralty_codes_are_ordered_as_their_texts() {
    let codes = ["A1", "A6", "B2", "C3", "F1", "F6"];
    for a in codes {
        for b in codes {
            let (ca, cb) = (AdmiraltyCode::from_str(a).unwrap(), AdmiraltyCode::from_str(b).unwrap());
            assert_eq!(a < b, ca < cb);
            assert_eq!(a == b, ca == cb);
        }
    }
}
