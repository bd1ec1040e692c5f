//! Sums and products of many elements.

use crate::field::{PlutoField, PLUTO_FIELD_PRIME};
use crate::modular::lemma_mul_mod;
use crate::ops::{field_add, field_add_fits, field_mul};
use vstd::prelude::*;

verus! {

/// The elements added up from the left, starting with the first; zero where
/// there is none.
pub open spec fn sum_spec(items: Seq<PlutoField>) -> PlutoField
    decreases items.len(),
{
    if items.len() == 0 {
        PlutoField::zero()
    } else if items.len() == 1 {
        items[0]
    } else {
        field_add(sum_spec(items.drop_last()), items.last())
    }
}

/// Whether every addition on the way to [`sum_spec`] meets what addition
/// requires.
pub open spec fn sum_req(items: Seq<PlutoField>) -> bool
    decreases items.len(),
{
    items.len() <= 1 || (sum_req(items.drop_last()) && field_add_fits(
        sum_spec(items.drop_last()),
        items.last(),
    ))
}

/// The elements multiplied from the left, starting with the first; one where
/// there is none.
pub open spec fn product_spec(items: Seq<PlutoField>) -> PlutoField
    decreases items.len(),
{
    if items.len() == 0 {
        PlutoField::one()
    } else if items.len() == 1 {
        items[0]
    } else {
        field_mul(product_spec(items.drop_last()), items.last())
    }
}

/// The representatives added up as natural numbers.
pub open spec fn total(items: Seq<PlutoField>) -> nat
    decreases items.len(),
{
    if items.len() == 0 {
        0
    } else {
        total(items.drop_last()) + items.last()@
    }
}

/// The representatives multiplied as natural numbers.
pub open spec fn total_product(items: Seq<PlutoField>) -> nat
    decreases items.len(),
{
    if items.len() == 0 {
        1
    } else {
        total_product(items.drop_last()) * items.last()@
    }
}

/// Whether every element is stored reduced.
pub open spec fn all_canonical(items: Seq<PlutoField>) -> bool {
    forall|i: int| 0 <= i < items.len() ==> (#[trigger] items[i]).is_canonical()
}

/// Reduced elements can always be added up, and their sum is the reduced sum
/// of their representatives.
pub proof fn lemma_sum_of_canonical(items: Seq<PlutoField>)
    requires
        all_canonical(items),
    ensures
        sum_req(items),
        sum_spec(items).is_canonical(),
        sum_spec(items)@ == total(items) % (PLUTO_FIELD_PRIME as nat),
    decreases items.len(),
{
    if items.len() == 1 {
        assert(items.drop_last().len() == 0);
        assert(total(items) == total(items.drop_last()) + items.last()@);
        assert(total(items.drop_last()) == 0);
    } else if items.len() > 1 {
        lemma_sum_of_canonical(items.drop_last());
    }
}

/// The product of the representatives of one element is its representative.
proof fn lemma_total_product_single(items: Seq<PlutoField>)
    requires
        items.len() == 1,
    ensures
        total_product(items) == items[0]@,
{
    assert(items.drop_last().len() == 0);
    assert(total_product(items.drop_last()) == 1);
    assert(total_product(items) == 1 * items.last()@);
}

/// The product of two or more elements, and of none, is the reduced product
/// of their representatives; so is the product of one reduced element.
pub proof fn lemma_product_is_reduced(items: Seq<PlutoField>)
    requires
        items.len() != 1 || items[0].is_canonical(),
    ensures
        product_spec(items).is_canonical(),
        product_spec(items)@ == total_product(items) % (PLUTO_FIELD_PRIME as nat),
    decreases items.len(),
{
    if items.len() == 1 {
        lemma_total_product_single(items);
    } else if items.len() > 1 {
        let front = items.drop_last();
        let last = items.last().value as int;
        let before = total_product(front) as int;
        let reduced = product_spec(front).value as int;
        assert(total_product(items) == before * last);
        assert(product_spec(items).value == (reduced * last) % (PLUTO_FIELD_PRIME as int));
        if front.len() == 1 {
            lemma_total_product_single(front);
        } else {
            lemma_product_is_reduced(front);
            lemma_mul_mod(before, last);
        }
    }
}

/// What can be added up can be added up as far as any element on the way.
pub proof fn lemma_sum_req_prefix(items: Seq<PlutoField>, n: int)
    requires
        sum_req(items),
        0 <= n <= items.len(),
    ensures
        sum_req(items.take(n)),
    decreases items.len(),
{
    if n == items.len() {
        assert(items.take(n) =~= items);
    } else {
        assert(items.drop_last().take(n) =~= items.take(n));
        if items.len() > 1 {
            lemma_sum_req_prefix(items.drop_last(), n);
        }
    }
}

impl PlutoField {
    /// The sum of the elements, added up in their order.
    pub fn sum(items: &[PlutoField]) -> (r: PlutoField)
        requires
            sum_req(items@),
        ensures
            r == sum_spec(items@),
    {
        if items.len() == 0 {
            return PlutoField::zero();
        }
        let mut acc = items[0];
        let mut i: usize = 1;
        assert(items@.take(1).len() == 1);
        while i < items.len()
            invariant
                1 <= i <= items.len(),
                sum_req(items@),
                acc == sum_spec(items@.take(i as int)),
            decreases items.len() - i,
        {
            proof {
                let next = items@.take(i + 1);
                lemma_sum_req_prefix(items@, i + 1);
                assert(next.drop_last() =~= items@.take(i as int));
                assert(next.last() == items@[i as int]);
            }
            acc = acc + items[i];
            i += 1;
        }
        assert(items@.take(i as int) =~= items@);
        acc
    }

    /// The product of the elements, multiplied in their order.
    pub fn product(items: &[PlutoField]) -> (r: PlutoField)
        ensures
            r == product_spec(items@),
    {
        if items.len() == 0 {
            return PlutoField::one();
        }
        let mut acc = items[0];
        let mut i: usize = 1;
        assert(items@.take(1).len() == 1);
        while i < items.len()
            invariant
                1 <= i <= items.len(),
                acc == product_spec(items@.take(i as int)),
            decreases items.len() - i,
        {
            proof {
                let next = items@.take(i + 1);
                assert(next.drop_last() =~= items@.take(i as int));
                assert(next.last() == items@[i as int]);
            }
            acc = acc * items[i];
            i += 1;
        }
        assert(items@.take(i as int) =~= items@);
        acc
    }
}

} // verus!
