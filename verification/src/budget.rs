//! Documents under a byte budget.
//!
//! A document that holds more entries never takes fewer bytes, so the longest
//! prefix of the entries whose document fits a budget can be found by
//! bisection.

use crate::json::{document, document_of, joined};
use crate::text::{byte_len, byte_length, lemma_byte_len_of_concat};
use vstd::prelude::*;

verus! {

/// Whether the document of the first `count` objects takes at most `max`
/// bytes.
pub open spec fn fits(objects: Seq<Seq<char>>, count: nat, max: nat) -> bool {
    byte_len(document(objects.take(count as int))) <= max
}

/// The largest count up to `upto` whose document fits `max`, found by
/// trying each count from `upto` downwards; zero where none fits.
pub open spec fn largest_fitting_prefix(objects: Seq<Seq<char>>, max: nat, upto: nat) -> nat
    decreases upto,
{
    if upto == 0 {
        0
    } else if fits(objects, upto, max) {
        upto
    } else {
        largest_fitting_prefix(objects, max, (upto - 1) as nat)
    }
}

/// The document written for `objects` under a budget of `max` bytes: that of
/// all objects where it fits, else that of the longest prefix that fits, and
/// the document without entries where not even that one fits.
pub open spec fn bounded_text(objects: Seq<Seq<char>>, max: nat) -> Seq<char> {
    document(objects.take(largest_fitting_prefix(objects, max, objects.len()) as int))
}

proof fn lemma_joined_grows(objects: Seq<Seq<char>>, shorter: nat, longer: nat)
    requires
        shorter <= longer <= objects.len(),
    ensures
        byte_len(joined(objects.take(shorter as int))) <= byte_len(
            joined(objects.take(longer as int)),
        ),
    decreases longer,
{
    if shorter < longer {
        let head = objects.take(longer - 1);
        let all = objects.take(longer as int);
        assert(all.drop_last() =~= head);
        lemma_joined_grows(objects, shorter, (longer - 1) as nat);
        if longer >= 2 {
            lemma_byte_len_of_concat(joined(head) + ","@, all.last());
            lemma_byte_len_of_concat(joined(head), ","@);
        } else {
            assert(joined(head) =~= Seq::<char>::empty());
            assert(vstd::utf8::encode_utf8(Seq::<char>::empty()).len() == 0);
        }
    }
}

/// The document of a longer prefix never takes fewer bytes than the document
/// of a shorter one.
pub proof fn lemma_document_grows(objects: Seq<Seq<char>>, shorter: nat, longer: nat)
    requires
        shorter <= longer <= objects.len(),
    ensures
        byte_len(document(objects.take(shorter as int))) <= byte_len(
            document(objects.take(longer as int)),
        ),
{
    let a = objects.take(shorter as int);
    let b = objects.take(longer as int);
    lemma_joined_grows(objects, shorter, longer);
    lemma_byte_len_of_concat("{\"entries\":["@ + joined(a), "]}"@);
    lemma_byte_len_of_concat("{\"entries\":["@, joined(a));
    lemma_byte_len_of_concat("{\"entries\":["@ + joined(b), "]}"@);
    lemma_byte_len_of_concat("{\"entries\":["@, joined(b));
}

/// A prefix that fits a budget makes every shorter prefix fit it too.
pub proof fn lemma_fits_downwards(objects: Seq<Seq<char>>, shorter: nat, longer: nat, max: nat)
    requires
        shorter <= longer <= objects.len(),
        fits(objects, longer, max),
    ensures
        fits(objects, shorter, max),
{
    lemma_document_grows(objects, shorter, longer);
}

/// The prefix that is searched for from `upto` downwards is the one that
/// fits while no longer one up to `upto` does.
pub proof fn lemma_largest_fitting_is(objects: Seq<Seq<char>>, max: nat, upto: nat, count: nat)
    requires
        count <= upto,
        count > 0 ==> fits(objects, count, max),
        forall|longer: nat| count < longer <= upto ==> !fits(objects, longer, max),
    ensures
        largest_fitting_prefix(objects, max, upto) == count,
    decreases upto,
{
    if upto > count {
        lemma_largest_fitting_is(objects, max, (upto - 1) as nat, count);
    }
}

/// The prefix that is chosen fits the budget whenever it holds an entry or
/// the document without entries fits, and no longer prefix fits.
pub proof fn lemma_largest_fitting_prefix(objects: Seq<Seq<char>>, max: nat, upto: nat)
    requires
        upto <= objects.len(),
    ensures
        largest_fitting_prefix(objects, max, upto) <= upto,
        largest_fitting_prefix(objects, max, upto) > 0 ==> fits(
            objects,
            largest_fitting_prefix(objects, max, upto),
            max,
        ),
        fits(objects, 0, max) ==> fits(objects, largest_fitting_prefix(objects, max, upto), max),
        forall|longer: nat|
            largest_fitting_prefix(objects, max, upto) < longer <= upto ==> !fits(
                objects,
                longer,
                max,
            ),
    decreases upto,
{
    if upto > 0 && !fits(objects, upto, max) {
        lemma_largest_fitting_prefix(objects, max, (upto - 1) as nat);
    }
}

/// Writes the document of `objects` under a budget of `max_body_size` bytes.
///
/// The document of all objects is returned where it fits. Otherwise the
/// result holds the longest prefix of the objects whose document fits, and
/// no entry at all where even the empty document is over the budget.
pub fn bounded_document(objects: &Vec<String>, max_body_size: usize) -> (out: String)
    ensures
        out@ == bounded_text(objects.deep_view(), max_body_size as nat),
        byte_len(document(objects.deep_view())) <= max_body_size ==> out@ == document(
            objects.deep_view(),
        ),
        byte_len(document(Seq::empty())) <= max_body_size ==> byte_len(out@) <= max_body_size,
{
    let ghost texts = objects.deep_view();
    let ghost max = max_body_size as nat;
    let total = objects.len();
    proof {
        assert(texts.take(total as int) =~= texts);
        assert(texts.take(0) =~= Seq::<Seq<char>>::empty());
        lemma_largest_fitting_prefix(texts, max, total as nat);
    }
    let full = document_of(objects, total);
    if byte_length(full.as_str()) <= max_body_size {
        return full;
    }
    let mut best: Option<String> = None;
    let mut left: usize = 0;
    let mut right: usize = total;
    while left < right
        invariant
            left <= right <= total,
            total == objects.len(),
            texts == objects.deep_view(),
            max == max_body_size as nat,
            forall|longer: nat| right <= longer <= total ==> !fits(texts, longer, max),
            left == 0 ==> best is None,
            left > 0 ==> fits(texts, (left - 1) as nat, max) && best is Some && best.unwrap()@
                == document(texts.take(left - 1)),
        decreases right - left,
    {
        let mid = left + (right - left) / 2;
        let candidate = document_of(objects, mid);
        if byte_length(candidate.as_str()) <= max_body_size {
            best = Some(candidate);
            left = mid + 1;
        } else {
            proof {
                assert forall|longer: nat| mid <= longer <= total implies !fits(
                    texts,
                    longer,
                    max,
                ) by {
                    if fits(texts, longer, max) {
                        lemma_fits_downwards(texts, mid as nat, longer, max);
                    }
                }
            }
            right = mid;
        }
    }
    match best {
        Some(text) => {
            proof {
                lemma_largest_fitting_is(texts, max, total as nat, (left - 1) as nat);
            }
            text
        },
        None => {
            proof {
                lemma_largest_fitting_is(texts, max, total as nat, 0);
            }
            document_of(objects, 0)
        },
    }
}

} // verus!
