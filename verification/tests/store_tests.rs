use receipts::receipt::{RawItem, Receipt};
use receipts::store::{ReceiptStore, StoreError};

fn sample(retailer: &str) -> Receipt {
    Receipt::from_parts(
        retailer.to_string(),
        "2022-01-01",
        "13:01",
        vec![RawItem { short_description: "Mountain Dew 12PK".to_string(), price: "6.49".to_string() }],
        "6.49",
    )
    .unwrap()
}

#[test]
fn submit_then_lookup_returns_the_submitted_receipt() {
    let mut store = ReceiptStore::new();
    let receipt = sample("Target");
    let id = store.submit(receipt.clone()).expect("the drawn id is fresh");
    let found = store.lookup(id);
    assert_eq!(found, Some(&receipt));
}

#[test]
fn lookup_of_an_unknown_id_finds_nothing() {
    let store = ReceiptStore::new();
    assert_eq!(store.lookup(12345), None);
    assert_eq!(store.points_for(12345), None);

    let mut store = ReceiptStore::new();
    let id = store.submit(sample("Target")).expect("the drawn id is fresh");
    assert_eq!(store.lookup(id.wrapping_add(1)), None);
    assert_eq!(store.points_for(id.wrapping_add(1)), None);
}

#[test]
fn points_for_scores_the_stored_receipt() {
    let mut store = ReceiptStore::new();
    let receipt = Receipt::from_parts(
        "Target".to_string(),
        "2022-01-01",
        "13:01",
        vec![
            RawItem { short_description: "Mountain Dew 12PK".to_string(), price: "6.49".to_string() },
            RawItem { short_description: "Emils Cheese Pizza".to_string(), price: "12.25".to_string() },
            RawItem { short_description: "Knorr Creamy Chicken".to_string(), price: "1.26".to_string() },
            RawItem { short_description: "Doritos Nacho Cheese".to_string(), price: "3.35".to_string() },
            RawItem {
                short_description: "   Klarbrunn 12-PK 12 FL OZ  ".to_string(),
                price: "12.00".to_string(),
            },
        ],
        "35.35",
    )
    .unwrap();
    let id = store.submit(receipt).expect("the drawn id is fresh");
    assert_eq!(store.points_for(id), Some(28));
}

#[test]
fn a_thousand_submissions_get_distinct_retrievable_ids() {
    let mut store = ReceiptStore::new();
    let mut ids: Vec<u128> = Vec::new();
    for i in 0..1000 {
        let retailer = format!("Shop{}", i);
        let id = store.submit(sample(&retailer)).expect("the drawn id is fresh");
        ids.push(id);
    }
    assert_eq!(store.len(), 1000);

    let mut sorted = ids.clone();
    sorted.sort();
    for w in sorted.windows(2) {
        assert_ne!(w[0], w[1]);
    }

    for (i, id) in ids.iter().enumerate() {
        let found = store.lookup(*id).expect("every submitted id is retrievable");
        assert_eq!(found.retailer, format!("Shop{}", i));
        assert!(store.points_for(*id).is_some());
    }
}

#[test]
fn inserting_under_a_stored_id_reports_the_collision() {
    let mut store = ReceiptStore::new();
    let first = sample("First");
    let id = store.insert_fresh(7, first.clone()).expect("the id is fresh");
    assert_eq!(id, 7);
    assert_eq!(
        store.insert_fresh(7, sample("Second")),
        Err(StoreError::IdCollision)
    );
    // the collision left the store untouched
    assert_eq!(store.len(), 1);
    assert_eq!(store.lookup(7), Some(&first));
}

#[test]
fn submissions_leave_existing_entries_alone() {
    let mut store = ReceiptStore::new();
    let first = sample("First");
    let id1 = store.submit(first.clone()).expect("the drawn id is fresh");
    let id2 = store.submit(sample("Second")).expect("the drawn id is fresh");
    assert_ne!(id1, id2);
    assert_eq!(store.lookup(id1), Some(&first));
    assert_eq!(store.len(), 2);
}
