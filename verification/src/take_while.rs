//! "Stop at the first failing item, but keep it" prefix helpers.
//!
//! The engine's rule for hooks and member fan-out is: consume results until
//! one is not a success (or the items run out) and report the last result
//! consumed. These helpers compute such a prefix of a vector: every item the
//! predicate accepts, plus the first item it refuses, which ends the prefix.

use vstd::prelude::*;

verus! {

/// The prefix of `items` up to and including the first item on which `pred`
/// returns false; all of `items` when `pred` accepts every item.
///
/// The result is always a prefix of `items`, it is empty only when `items`
/// is, every item before its last satisfied `pred`, and when it is a proper
/// prefix its last item refused `pred`.
pub fn take_while_last<T, F: Fn(&T) -> bool>(items: Vec<T>, pred: F) -> (r: Vec<T>)
    requires
        forall|x: &T| #[trigger] call_requires(pred, (x,)),
    ensures
        r@.len() <= items@.len(),
        r@ =~= items@.take(r@.len() as int),
        forall|i: int|
            0 <= i < r@.len() - 1 ==> call_ensures(pred, (&items@[i],), true),
        r@.len() < items@.len() ==> call_ensures(
            pred,
            (&items@[r@.len() - 1],),
            false,
        ),
        r@.len() == 0 <==> items@.len() == 0,
{
    let ghost orig = items@;
    let mut rest = items;
    let mut r: Vec<T> = Vec::new();
    let mut done = false;
    while !done && rest.len() > 0
        invariant
            r@ + rest@ =~= orig,
            forall|i: int|
                0 <= i < r@.len() - (if done { 1int } else { 0 }) ==> call_ensures(
                    pred,
                    (&orig[i],),
                    true,
                ),
            done ==> r@.len() >= 1 && call_ensures(pred, (&orig[r@.len() - 1],), false),
            forall|x: &T| #[trigger] call_requires(pred, (x,)),
        decreases rest@.len(),
    {
        let ghost pre_rest = rest@;
        let x = rest.remove(0);
        let keep_going = pred(&x);
        r.push(x);
        done = !keep_going;
        proof {
            assert(pre_rest =~= seq![x] + rest@);
            assert(r@ + rest@ =~= orig);
        }
    }
    proof {
        assert(orig =~= items@);
        assert(r@ =~= orig.take(r@.len() as int));
    }
    r
}

/// The prefix of `items` up to and including its first `Err`; all of `items`
/// when none is an `Err`.
pub fn take_while_ok<T, E>(items: Vec<Result<T, E>>) -> (r: Vec<Result<T, E>>)
    ensures
        r@.len() <= items@.len(),
        r@ =~= items@.take(r@.len() as int),
        forall|i: int| 0 <= i < r@.len() - 1 ==> items@[i] is Ok,
        r@.len() < items@.len() ==> items@[r@.len() - 1] is Err,
        r@.len() == 0 <==> items@.len() == 0,
{
    let ghost orig = items@;
    let mut rest = items;
    let mut r: Vec<Result<T, E>> = Vec::new();
    let mut done = false;
    while !done && rest.len() > 0
        invariant
            r@ + rest@ =~= orig,
            forall|i: int|
                0 <= i < r@.len() - (if done { 1int } else { 0 }) ==> orig[i] is Ok,
            done ==> r@.len() >= 1 && orig[r@.len() - 1] is Err,
        decreases rest@.len(),
    {
        let ghost pre_rest = rest@;
        let x = rest.remove(0);
        let keep_going = x.is_ok();
        r.push(x);
        done = !keep_going;
        proof {
            assert(pre_rest =~= seq![x] + rest@);
            assert(r@ + rest@ =~= orig);
        }
    }
    proof {
        assert(orig =~= items@);
        assert(r@ =~= orig.take(r@.len() as int));
    }
    r
}

} // verus!
