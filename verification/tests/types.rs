use copilot_money_cli::types::{OwnedId, RecurringFrequency, TagId, TransactionId, TransactionType};

#[test]
fn owned_id_keeps_its_text() {
    let id: TransactionId = OwnedId::new("tx-1".to_string());
    assert_eq!(id.as_str(), "tx-1");
    let copy = id.clone();
    assert!(copy == id);
    let other: TransactionId = OwnedId::from("tx-2");
    assert!(other != id);
    let from_string: TagId = OwnedId::from("tag".to_string());
    assert_eq!(from_string.as_str(), "tag");
    let parsed: TagId = "tag".parse().unwrap();
    assert!(parsed == from_string);
}

#[test]
fn enum_names() {
    assert_eq!(TransactionType::Regular.to_string(), "REGULAR");
    assert_eq!(TransactionType::InternalTransfer.to_string(), "INTERNAL_TRANSFER");
    assert_eq!(TransactionType::Other.to_string(), "OTHER");
    assert_eq!(RecurringFrequency::Daily.to_string(), "DAILY");
    assert_eq!(RecurringFrequency::Weekly.to_string(), "WEEKLY");
    assert_eq!(RecurringFrequency::Biweekly.to_string(), "BIWEEKLY");
    assert_eq!(RecurringFrequency::Monthly.to_string(), "MONTHLY");
    assert_eq!(RecurringFrequency::Quarterly.to_string(), "QUARTERLY");
    assert_eq!(RecurringFrequency::Annually.to_string(), "ANNUALLY");
    assert_eq!(RecurringFrequency::Other.to_string(), "OTHER");
}
