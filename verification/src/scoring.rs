//! The scoring engine: a pure, deterministic function from a receipt to a
//! non-negative number of points, the sum of seven independent rules.

use crate::calendar::{Date, Time};
use crate::receipt::{Item, Receipt, MAX_CENTS, MAX_ITEMS, MAX_TEXT};
use crate::text::{alnum_count, chars_of, count_alphanumeric, lemma_alnum_count_le, trimmed,
    trimmed_count};
use vstd::arithmetic::div_mod::lemma_div_is_ordered;
use vstd::prelude::*;

verus! {

/// Rule 1: one point per alphanumeric character of the retailer name.
pub open spec fn retailer_points(retailer: Seq<char>) -> nat {
    alnum_count(retailer)
}

/// Rule 2: fifty points when the total is a whole number of dollars.
pub open spec fn round_dollar_points(total_cents: u64) -> nat {
    if total_cents % 100 == 0 {
        50
    } else {
        0
    }
}

/// Rule 3: twenty-five points when the total is a multiple of a quarter
/// dollar. A whole-dollar total earns this bonus as well: the two stack.
pub open spec fn quarter_points(total_cents: u64) -> nat {
    if total_cents % 25 == 0 {
        25
    } else {
        0
    }
}

/// Rule 4: five points per full pair of items.
pub open spec fn pair_points(item_count: nat) -> nat {
    (item_count / 2) * 5
}

/// The points of one item under rule 5: when the trimmed description's
/// character count is a multiple of three (zero included), a fifth of the
/// price in dollars, rounded up to a whole point; otherwise nothing.
pub open spec fn item_points(it: Item) -> nat {
    if trimmed(it.short_description@).len() % 3 == 0 {
        (it.price + 499) as nat / 500
    } else {
        0
    }
}

/// Rule 5 summed over all items.
pub open spec fn items_points(items: Seq<Item>) -> nat
    decreases items.len(),
{
    if items.len() == 0 {
        0
    } else {
        items_points(items.drop_last()) + item_points(items.last())
    }
}

/// Rule 6: six points when the day of the month is odd.
pub open spec fn odd_day_points(d: Date) -> nat {
    if d.day % 2 == 1 {
        6
    } else {
        0
    }
}

/// Rule 7: ten points when the purchase time lies strictly between 14:00
/// and 16:00; the two boundary instants themselves earn nothing.
pub open spec fn afternoon_points(t: Time) -> nat {
    if 14 * 60 < t.hour * 60 + t.minute < 16 * 60 {
        10
    } else {
        0
    }
}

/// The score of a receipt: the sum of the seven rules.
pub open spec fn receipt_points(r: Receipt) -> nat {
    retailer_points(r.retailer@) + round_dollar_points(r.total) + quarter_points(r.total)
        + pair_points(r.items@.len()) + items_points(r.items@) + odd_day_points(r.purchase_date)
        + afternoon_points(r.purchase_time)
}

/// A well-formed item earns at most two billion points under rule 5.
proof fn lemma_item_points_bound(it: Item)
    requires
        it.wf(),
    ensures
        item_points(it) <= 2_000_000_000,
{
    lemma_div_is_ordered(it.price + 499, MAX_CENTS + 499, 500);
}

/// Rule 5 over well-formed items is bounded by two billion points each.
proof fn lemma_items_points_bound(items: Seq<Item>)
    requires
        forall|i: int| 0 <= i < items.len() ==> (#[trigger] items[i]).wf(),
    ensures
        items_points(items) <= items.len() * 2_000_000_000,
    decreases items.len(),
{
    if items.len() > 0 {
        assert(forall|i: int|
            0 <= i < items.drop_last().len() ==> #[trigger] items.drop_last()[i] == items[i]);
        lemma_items_points_bound(items.drop_last());
        lemma_item_points_bound(items.last());
    }
}

impl Item {
    /// This item's rule-5 points.
    pub fn points(&self) -> (p: u64)
        ensures
            p == item_points(*self),
    {
        let v = chars_of(self.short_description.as_str());
        let t = trimmed_count(&v);
        if t % 3 == 0 {
            let q = self.price / 500;
            let rem = self.price % 500;
            if rem == 0 {
                proof {
                    assert(q == (self.price + 499) as nat / 500) by (nonlinear_arith)
                        requires
                            q == self.price / 500,
                            self.price % 500 == 0,
                    ;
                }
                q
            } else {
                proof {
                    assert(q + 1 == (self.price + 499) as nat / 500) by (nonlinear_arith)
                        requires
                            q == self.price / 500,
                            rem == self.price % 500,
                            1 <= rem < 500,
                    ;
                }
                q + 1
            }
        } else {
            0
        }
    }
}

impl Receipt {
    /// The score of this receipt: exactly `receipt_points`, never failing
    /// for a well-formed receipt.
    pub fn points(&self) -> (p: u64)
        requires
            self.wf(),
        ensures
            p == receipt_points(*self),
    {
        let rv = chars_of(self.retailer.as_str());
        let c = count_alphanumeric(&rv);
        proof {
            lemma_alnum_count_le(rv@);
            assert(c <= MAX_TEXT);
        }
        let mut p: u64 = c as u64;
        if self.total % 100 == 0 {
            p = p + 50;
        }
        if self.total % 25 == 0 {
            p = p + 25;
        }
        let item_count = self.items.len();
        p = p + (item_count as u64 / 2) * 5;
        let ghost base = retailer_points(self.retailer@) + round_dollar_points(self.total)
            + quarter_points(self.total) + pair_points(self.items@.len());
        proof {
            assert(p == base);
            assert(base <= 4_000_000);
        }
        let mut i: usize = 0;
        while i < item_count
            invariant
                0 <= i <= item_count == self.items@.len(),
                self.wf(),
                base <= 4_000_000,
                p == base + items_points(self.items@.take(i as int)),
            decreases item_count - i,
        {
            proof {
                assert(self.items@.take(i as int + 1).drop_last() =~= self.items@.take(i as int));
                assert(self.items@.take(i as int + 1).last() == self.items@[i as int]);
                assert(forall|k: int|
                    0 <= k < i + 1 ==> #[trigger] self.items@.take(i as int + 1)[k]
                        == self.items@[k]);
                lemma_items_points_bound(self.items@.take(i as int + 1));
            }
            let ip = self.items[i].points();
            p = p + ip;
            i = i + 1;
        }
        proof {
            assert(self.items@.take(item_count as int) =~= self.items@);
            lemma_items_points_bound(self.items@);
            assert(items_points(self.items@) <= MAX_ITEMS * 2_000_000_000);
        }
        if self.purchase_date.day % 2 == 1 {
            p = p + 6;
        }
        let minutes = self.purchase_time.hour * 60 + self.purchase_time.minute;
        if 840 < minutes && minutes < 960 {
            p = p + 10;
        }
        p
    }
}

/// A score is a non-negative integer, whatever the receipt.
pub proof fn lemma_points_nonnegative(r: Receipt)
    ensures
        receipt_points(r) >= 0,
{
}

/// Scoring is pure: two evaluations of one receipt give one score.
pub proof fn lemma_points_deterministic(a: Receipt, b: Receipt)
    requires
        a == b,
    ensures
        receipt_points(a) == receipt_points(b),
{
}

/// A whole-dollar total is also a quarter-dollar multiple, so the
/// round-dollar and quarter bonuses stack to seventy-five points.
pub proof fn lemma_round_dollar_bonuses_stack(total_cents: u64)
    requires
        total_cents % 100 == 0,
    ensures
        round_dollar_points(total_cents) == 50,
        quarter_points(total_cents) == 25,
{
    assert(total_cents % 25 == 0) by (nonlinear_arith)
        requires
            total_cents % 100 == 0,
    ;
}

/// The retailer name enters the score only through its alphanumeric
/// character count: receipts that differ in the retailer alone differ by
/// exactly the difference of those counts.
pub proof fn lemma_retailer_rule(a: Receipt, b: Receipt)
    requires
        a.purchase_date == b.purchase_date,
        a.purchase_time == b.purchase_time,
        a.items == b.items,
        a.total == b.total,
    ensures
        receipt_points(a) + alnum_count(b.retailer@) == receipt_points(b) + alnum_count(
            a.retailer@,
        ),
{
}

} // verus!
