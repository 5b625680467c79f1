//! The receipt data model, and the boundary validation that turns the
//! textual wire fields into it. Validation happens once, at submission
//! time; afterwards every stored receipt satisfies `Receipt::wf`, so the
//! scoring engine is total over stored data.

use crate::calendar::{date_of, date_str_ok, parse_date, parse_time, time_of, time_str_ok, Date,
    Time};
use crate::money::{money_cents, money_shape, parse_money};
use crate::text::chars_of;
use vstd::prelude::*;

verus! {

/// The largest accepted currency amount, in cents (ten billion dollars).
/// A machine limit: it keeps every sum the scoring rules form inside `u64`.
pub const MAX_CENTS: u64 = 1_000_000_000_000;

/// The largest accepted retailer name, in characters. A machine limit.
pub const MAX_TEXT: usize = 1_000_000;

/// The largest accepted number of items. A machine limit.
pub const MAX_ITEMS: usize = 1_000_000;

/// One line entry of a receipt; the price is in cents.
#[derive(Clone, Debug, PartialEq, Eq)]
pub struct Item {
    pub short_description: String,
    pub price: u64,
}

impl Item {
    /// A non-empty description and a bounded price.
    pub open spec fn wf(self) -> bool {
        &&& self.short_description@.len() >= 1
        &&& self.price <= MAX_CENTS
    }
}

/// A purchase receipt with its currency amounts already in cents and its
/// date and time already in numbers. Immutable once constructed.
#[derive(Clone, Debug, PartialEq, Eq)]
pub struct Receipt {
    pub retailer: String,
    pub purchase_date: Date,
    pub purchase_time: Time,
    pub items: Vec<Item>,
    pub total: u64,
}

impl Receipt {
    /// What validation guarantees of every receipt it lets through.
    pub open spec fn wf(self) -> bool {
        &&& 1 <= self.retailer@.len() <= MAX_TEXT
        &&& self.purchase_date.valid()
        &&& self.purchase_time.valid()
        &&& 1 <= self.items@.len() <= MAX_ITEMS
        &&& (forall|i: int| 0 <= i < self.items@.len() ==> (#[trigger] self.items@[i]).wf())
        &&& self.total <= MAX_CENTS
    }
}

/// One item as the wire carries it: description text and a price string.
#[derive(Clone, Debug, PartialEq, Eq)]
pub struct RawItem {
    pub short_description: String,
    pub price: String,
}

/// Why a submission was rejected. Each variant names the first field, in
/// checking order, that failed.
#[derive(Clone, Copy, Debug, PartialEq, Eq, Structural)]
pub enum ReceiptError {
    Retailer,
    Date,
    Time,
    Items,
    ItemDescription,
    ItemPrice,
    Total,
}

/// A retailer name is accepted when it is non-empty and within the size
/// limit.
pub open spec fn retailer_ok(s: Seq<char>) -> bool {
    1 <= s.len() <= MAX_TEXT
}

/// A currency string is accepted when it is well shaped and its amount is
/// within the size limit.
pub open spec fn amount_ok(s: Seq<char>) -> bool {
    money_shape(s) && money_cents(s) <= MAX_CENTS
}

/// An item is accepted when its description is non-empty and its price
/// string is accepted.
pub open spec fn raw_item_ok(it: RawItem) -> bool {
    it.short_description@.len() >= 1 && amount_ok(it.price@)
}

/// An item count is accepted when it is positive and within the size limit.
pub open spec fn items_count_ok(n: int) -> bool {
    1 <= n <= MAX_ITEMS
}

/// Whether a whole set of wire fields is accepted.
pub open spec fn parts_ok(
    retailer: Seq<char>,
    date: Seq<char>,
    time: Seq<char>,
    items: Seq<RawItem>,
    total: Seq<char>,
) -> bool {
    &&& retailer_ok(retailer)
    &&& date_str_ok(date)
    &&& time_str_ok(time)
    &&& items_count_ok(items.len() as int)
    &&& (forall|i: int| 0 <= i < items.len() ==> raw_item_ok(#[trigger] items[i]))
    &&& amount_ok(total)
}

impl Receipt {
    /// Validates the wire fields and builds the receipt. Succeeds exactly
    /// on accepted fields; otherwise reports the first failing field in
    /// checking order (retailer, date, time, item count, each item's
    /// description then price, total).
    pub fn from_parts(
        retailer: String,
        purchase_date: &str,
        purchase_time: &str,
        items: Vec<RawItem>,
        total: &str,
    ) -> (r: Result<Receipt, ReceiptError>)
        ensures
            match r {
                Ok(rec) => {
                    &&& parts_ok(retailer@, purchase_date@, purchase_time@, items@, total@)
                    &&& rec.wf()
                    &&& rec.retailer == retailer
                    &&& rec.purchase_date == date_of(purchase_date@)
                    &&& rec.purchase_time == time_of(purchase_time@)
                    &&& rec.total == money_cents(total@)
                    &&& rec.items@.len() == items@.len()
                    &&& (forall|i: int|
                        0 <= i < items@.len() ==> (#[trigger] rec.items@[i]).short_description
                            == items@[i].short_description && rec.items@[i].price == money_cents(
                            items@[i].price@,
                        ))
                },
                Err(e) => match e {
                    ReceiptError::Retailer => !retailer_ok(retailer@),
                    ReceiptError::Date => retailer_ok(retailer@) && !date_str_ok(purchase_date@),
                    ReceiptError::Time => retailer_ok(retailer@) && date_str_ok(purchase_date@)
                        && !time_str_ok(purchase_time@),
                    ReceiptError::Items => retailer_ok(retailer@) && date_str_ok(purchase_date@)
                        && time_str_ok(purchase_time@) && !items_count_ok(items@.len() as int),
                    ReceiptError::ItemDescription => retailer_ok(retailer@) && date_str_ok(
                        purchase_date@,
                    ) && time_str_ok(purchase_time@) && items_count_ok(items@.len() as int) && (
                    exists|i: int|
                        #![auto]
                        0 <= i < items@.len() && (forall|j: int|
                            0 <= j < i ==> raw_item_ok(#[trigger] items@[j]))
                            && items@[i].short_description@.len() == 0),
                    ReceiptError::ItemPrice => retailer_ok(retailer@) && date_str_ok(
                        purchase_date@,
                    ) && time_str_ok(purchase_time@) && items_count_ok(items@.len() as int) && (
                    exists|i: int|
                        #![auto]
                        0 <= i < items@.len() && (forall|j: int|
                            0 <= j < i ==> raw_item_ok(#[trigger] items@[j]))
                            && items@[i].short_description@.len() >= 1 && !amount_ok(
                            items@[i].price@,
                        )),
                    ReceiptError::Total => retailer_ok(retailer@) && date_str_ok(purchase_date@)
                        && time_str_ok(purchase_time@) && items_count_ok(items@.len() as int) && (
                    forall|i: int| 0 <= i < items@.len() ==> raw_item_ok(#[trigger] items@[i]))
                        && !amount_ok(total@),
                },
            },
    {
        let rv = chars_of(retailer.as_str());
        if rv.len() == 0 || rv.len() > MAX_TEXT {
            return Err(ReceiptError::Retailer);
        }
        let date = match parse_date(purchase_date) {
            Some(d) => d,
            None => {
                return Err(ReceiptError::Date);
            },
        };
        let time = match parse_time(purchase_time) {
            Some(t) => t,
            None => {
                return Err(ReceiptError::Time);
            },
        };
        if items.len() == 0 || items.len() > MAX_ITEMS {
            return Err(ReceiptError::Items);
        }
        let mut built: Vec<Item> = Vec::new();
        let mut i: usize = 0;
        while i < items.len()
            invariant
                0 <= i <= items@.len(),
                built@.len() == i,
                retailer_ok(retailer@),
                date_str_ok(purchase_date@),
                time_str_ok(purchase_time@),
                items_count_ok(items@.len() as int),
                date == date_of(purchase_date@),
                time == time_of(purchase_time@),
                forall|j: int| 0 <= j < i ==> raw_item_ok(#[trigger] items@[j]),
                forall|j: int|
                    0 <= j < i ==> (#[trigger] built@[j]).short_description
                        == items@[j].short_description && built@[j].price == money_cents(
                        items@[j].price@,
                    ),
                forall|j: int| 0 <= j < i ==> (#[trigger] built@[j]).wf(),
            decreases items@.len() - i,
        {
            let raw = &items[i];
            if raw.short_description.as_str().is_empty() {
                proof {
                    assert(exists|k: int|
                        #![auto]
                        0 <= k < items@.len() && (forall|j: int|
                            0 <= j < k ==> raw_item_ok(#[trigger] items@[j]))
                            && items@[k].short_description@.len() == 0) by {
                        assert(0 <= i < items@.len() && (forall|j: int|
                            0 <= j < i ==> raw_item_ok(#[trigger] items@[j]))
                            && items@[i as int].short_description@.len() == 0);
                    }
                }
                return Err(ReceiptError::ItemDescription);
            }
            let cents = match parse_money(raw.price.as_str()) {
                Some(c) => c,
                None => {
                    proof {
                        assert(exists|k: int|
                            #![auto]
                            0 <= k < items@.len() && (forall|j: int|
                                0 <= j < k ==> raw_item_ok(#[trigger] items@[j]))
                                && items@[k].short_description@.len() >= 1 && !amount_ok(
                                items@[k].price@,
                            )) by {
                            assert(0 <= i < items@.len() && (forall|j: int|
                                0 <= j < i ==> raw_item_ok(#[trigger] items@[j]))
                                && items@[i as int].short_description@.len() >= 1 && !amount_ok(
                                items@[i as int].price@,
                            ));
                        }
                    }
                    return Err(ReceiptError::ItemPrice);
                },
            };
            if cents > MAX_CENTS {
                proof {
                    assert(exists|k: int|
                        #![auto]
                        0 <= k < items@.len() && (forall|j: int|
                            0 <= j < k ==> raw_item_ok(#[trigger] items@[j]))
                            && items@[k].short_description@.len() >= 1 && !amount_ok(
                            items@[k].price@,
                        )) by {
                        assert(0 <= i < items@.len() && (forall|j: int|
                            0 <= j < i ==> raw_item_ok(#[trigger] items@[j]))
                            && items@[i as int].short_description@.len() >= 1 && !amount_ok(
                            items@[i as int].price@,
                        ));
                    }
                }
                return Err(ReceiptError::ItemPrice);
            }
            built.push(Item { short_description: raw.short_description.clone(), price: cents });
            i = i + 1;
        }
        let total_cents = match parse_money(total) {
            Some(c) => c,
            None => {
                return Err(ReceiptError::Total);
            },
        };
        if total_cents > MAX_CENTS {
            return Err(ReceiptError::Total);
        }
        Ok(
            Receipt {
                retailer,
                purchase_date: date,
                purchase_time: time,
                items: built,
                total: total_cents,
            },
        )
    }
}

} // verus!
