//! Folding a sequence of congruences into one, and what the fold gives when
//! all of them come from one integer.

use crate::congruence::{identity_spec, make_spec, merge_spec, Congruence};
use crate::coprimality::lemma_lcm;
use crate::crt::lemma_make_canonical;
use crate::divisibility::{
    divides, is_common_multiple, lcm, lemma_divides_bound, lemma_divides_transitive,
};
use crate::integer::int_of;
use crate::merging::lemma_merge_of_residues;
use crate::remainder::{CrtError, RemainderValue};
use num_bigint::BigInt;
use vstd::prelude::*;

verus! {

/// The left fold of `merge_spec` over a sequence of classes, from the class
/// of all integers.
pub open spec fn merge_all_spec(classes: Seq<Congruence>) -> Congruence
    decreases classes.len(),
{
    if classes.len() == 0 {
        identity_spec()
    } else {
        merge_spec(merge_all_spec(classes.drop_last()), classes.last())
    }
}

/// The classes of `n` modulo each of the moduli, in their order.
pub open spec fn residues_of(n: int, moduli: Seq<int>) -> Seq<Congruence> {
    Seq::new(moduli.len(), |i: int| make_spec(n, moduli[i]))
}

/// Every modulus is at least 1.
pub open spec fn all_positive(moduli: Seq<int>) -> bool {
    forall|i: int| 0 <= i < moduli.len() ==> #[trigger] moduli[i] >= 1
}

/// `x` is a multiple of each of the moduli.
pub open spec fn is_multiple_of_all(x: int, moduli: Seq<int>) -> bool {
    forall|i: int| 0 <= i < moduli.len() ==> divides(#[trigger] moduli[i], x)
}

/// `l` is the least positive integer that is a multiple of each of the
/// moduli.
pub open spec fn is_lcm_of(l: int, moduli: Seq<int>) -> bool {
    &&& l >= 1
    &&& is_multiple_of_all(l, moduli)
    &&& forall|x: int| x >= 1 && #[trigger] is_multiple_of_all(x, moduli) ==> l <= x
}

/// The least common multiple of a sequence of positive moduli; 1 for the
/// empty sequence.
pub open spec fn lcm_of(moduli: Seq<int>) -> int {
    choose|l: int| is_lcm_of(l, moduli)
}

/// A sequence of moduli has at most one least common multiple.
pub proof fn lemma_lcm_of_unique(l: int, moduli: Seq<int>)
    requires
        is_lcm_of(l, moduli),
    ensures
        l == lcm_of(moduli),
{
    let k = lcm_of(moduli);
    assert(is_lcm_of(k, moduli));
    assert(is_multiple_of_all(k, moduli));
    assert(is_multiple_of_all(l, moduli));
}

/// A sequence of positive moduli has a least common multiple, which divides
/// every common multiple; it is the least common multiple of the last
/// modulus and the least common multiple of those before it.
pub proof fn lemma_lcm_of(moduli: Seq<int>)
    requires
        all_positive(moduli),
    ensures
        is_lcm_of(lcm_of(moduli), moduli),
        forall|x: int| #[trigger] is_multiple_of_all(x, moduli) ==> divides(lcm_of(moduli), x),
        moduli.len() == 0 ==> lcm_of(moduli) == 1,
        moduli.len() > 0 ==> lcm_of(moduli) == lcm(lcm_of(moduli.drop_last()), moduli.last()),
    decreases moduli.len(),
{
    if moduli.len() == 0 {
        assert(is_multiple_of_all(1, moduli));
        assert(is_lcm_of(1, moduli));
        lemma_lcm_of_unique(1, moduli);
        assert forall|x: int| #[trigger] is_multiple_of_all(x, moduli) implies divides(1, x) by {
            assert(x % 1 == 0);
        }
    } else {
        let init = moduli.drop_last();
        let last = moduli.last();
        assert(last == moduli[moduli.len() - 1]);
        assert forall|i: int| 0 <= i < init.len() implies #[trigger] init[i] >= 1 by {
            assert(init[i] == moduli[i]);
        }
        lemma_lcm_of(init);
        let k = lcm_of(init);
        lemma_lcm(k, last);
        let l = lcm(k, last);
        assert forall|i: int| 0 <= i < moduli.len() implies divides(#[trigger] moduli[i], l) by {
            if i < init.len() {
                assert(moduli[i] == init[i]);
                lemma_divides_transitive(init[i], k, l);
            }
        }
        assert(is_multiple_of_all(l, moduli));
        assert forall|x: int| #[trigger] is_multiple_of_all(x, moduli) implies divides(l, x) by {
            assert forall|i: int| 0 <= i < init.len() implies divides(#[trigger] init[i], x) by {
                assert(init[i] == moduli[i]);
            }
            assert(is_multiple_of_all(x, init));
            assert(is_common_multiple(x, k, last));
        }
        assert forall|x: int| x >= 1 && #[trigger] is_multiple_of_all(x, moduli) implies l
            <= x by {
            lemma_divides_bound(l, x);
        }
        lemma_lcm_of_unique(l, moduli);
    }
}

/// The least common multiple of a sequence depends only on which moduli
/// occur in it, not on their order or on how often each occurs.
pub proof fn lemma_lcm_of_same_moduli(first: Seq<int>, second: Seq<int>)
    requires
        all_positive(first),
        forall|m: int| first.contains(m) <==> second.contains(m),
    ensures
        lcm_of(first) == lcm_of(second),
{
    lemma_lcm_of(first);
    let l = lcm_of(first);
    assert forall|x: int| is_multiple_of_all(x, first) <==> is_multiple_of_all(x, second) by {
        if is_multiple_of_all(x, first) {
            assert forall|i: int| 0 <= i < second.len() implies divides(
                #[trigger] second[i],
                x,
            ) by {
                assert(second.contains(second[i]));
                let j = choose|j: int| 0 <= j < first.len() && first[j] == second[i];
                assert(divides(first[j], x));
            }
        }
        if is_multiple_of_all(x, second) {
            assert forall|i: int| 0 <= i < first.len() implies divides(#[trigger] first[i], x) by {
                assert(first.contains(first[i]));
                let j = choose|j: int| 0 <= j < second.len() && second[j] == first[i];
                assert(divides(second[j], x));
            }
        }
    }
    assert(is_lcm_of(l, second));
    lemma_lcm_of_unique(l, second);
}

/// Folding the classes of one integer `n` modulo a sequence of positive
/// moduli gives the class of `n` modulo their least common multiple.
pub proof fn lemma_merge_all_of_residues(n: int, moduli: Seq<int>)
    requires
        all_positive(moduli),
    ensures
        merge_all_spec(residues_of(n, moduli)) == make_spec(n, lcm_of(moduli)),
    decreases moduli.len(),
{
    lemma_lcm_of(moduli);
    if moduli.len() == 0 {
        assert(n % 1 == 0);
    } else {
        let init = moduli.drop_last();
        let last = moduli.last();
        assert(last == moduli[moduli.len() - 1]);
        assert forall|i: int| 0 <= i < init.len() implies #[trigger] init[i] >= 1 by {
            assert(init[i] == moduli[i]);
        }
        lemma_merge_all_of_residues(n, init);
        lemma_lcm_of(init);
        assert(residues_of(n, moduli).drop_last() =~= residues_of(n, init));
        assert(residues_of(n, moduli).last() == make_spec(n, last));
        lemma_merge_of_residues(n, lcm_of(init), last);
    }
}

/// Folding the classes of one integer modulo a set of positive moduli gives
/// the same class in whatever order the moduli are taken: the class of the
/// integer modulo their least common multiple.
pub proof fn lemma_merge_all_any_order(n: int, first: Seq<int>, second: Seq<int>)
    requires
        all_positive(first),
        first.to_multiset() == second.to_multiset(),
    ensures
        merge_all_spec(residues_of(n, first)) == merge_all_spec(residues_of(n, second)),
        merge_all_spec(residues_of(n, first)) == make_spec(n, lcm_of(first)),
{
    first.to_multiset_ensures();
    second.to_multiset_ensures();
    assert forall|m: int| first.contains(m) <==> second.contains(m) by {
        assert(first.contains(m) <==> first.to_multiset().count(m) > 0);
        assert(second.contains(m) <==> second.to_multiset().count(m) > 0);
    }
    assert forall|i: int| 0 <= i < second.len() implies #[trigger] second[i] >= 1 by {
        assert(second.contains(second[i]));
        let j = choose|j: int| 0 <= j < first.len() && first[j] == second[i];
        assert(first[j] >= 1);
    }
    lemma_lcm_of_same_moduli(first, second);
    lemma_merge_all_of_residues(n, first);
    lemma_merge_all_of_residues(n, second);
}

/// The classes that a sequence of values stands for.
pub open spec fn classes_of(values: Seq<RemainderValue>) -> Seq<Congruence> {
    Seq::new(values.len(), |i: int| values[i]@)
}

/// The integers that a sequence of big integers holds.
pub open spec fn ints_of(numbers: Seq<BigInt>) -> Seq<int> {
    Seq::new(numbers.len(), |i: int| int_of(numbers[i]))
}

/// Merges all the values, from the left, starting from the neutral element.
pub fn merge_all(values: &Vec<RemainderValue>) -> (res: RemainderValue)
    ensures
        res@ == merge_all_spec(classes_of(values@)),
        res@.valid(),
{
    let mut acc = RemainderValue::new();
    let mut i: usize = 0;
    while i < values.len()
        invariant
            i <= values.len(),
            acc@ == merge_all_spec(classes_of(values@.take(i as int))),
            acc@.valid(),
        decreases values.len() - i,
    {
        proof {
            let next = classes_of(values@.take(i + 1));
            assert(next.drop_last() =~= classes_of(values@.take(i as int)));
            assert(next.last() == values@[i as int]@);
        }
        acc = acc.merge(&values[i]);
        i += 1;
    }
    proof {
        assert(values@.take(i as int) =~= values@);
    }
    acc
}

/// Reconstructs what is known of `num` from its residues modulo each of the
/// moduli: the class of `num` modulo their least common multiple. A modulus
/// below 1 is refused.
pub fn reconstruct(num: &BigInt, moduli: &Vec<BigInt>) -> (res: Result<RemainderValue, CrtError>)
    ensures
        (match res {
            Ok(v) => {
                &&& all_positive(ints_of(moduli@))
                &&& v@ == make_spec(int_of(*num), lcm_of(ints_of(moduli@)))
                &&& v@.valid()
                &&& v@ == merge_all_spec(residues_of(int_of(*num), ints_of(moduli@)))
            },
            Err(e) => !all_positive(ints_of(moduli@)) && e == CrtError::NonPositiveModulus,
        }),
{
    let mut acc = RemainderValue::new();
    let mut i: usize = 0;
    while i < moduli.len()
        invariant
            i <= moduli.len(),
            all_positive(ints_of(moduli@.take(i as int))),
            acc@ == merge_all_spec(residues_of(int_of(*num), ints_of(moduli@.take(i as int)))),
        decreases moduli.len() - i,
    {
        proof {
            let next = ints_of(moduli@.take(i + 1));
            let seen = ints_of(moduli@.take(i as int));
            assert(next.drop_last() =~= seen);
            assert(next.last() == int_of(moduli@[i as int]));
            assert(residues_of(int_of(*num), next).drop_last() =~= residues_of(
                int_of(*num),
                seen,
            ));
            assert(ints_of(moduli@)[i as int] == int_of(moduli@[i as int]));
        }
        match RemainderValue::try_make(num, &moduli[i]) {
            Ok(value) => {
                acc = acc.merge(&value);
            },
            Err(e) => {
                return Err(e);
            },
        }
        proof {
            let next = ints_of(moduli@.take(i + 1));
            assert forall|j: int| 0 <= j < next.len() implies #[trigger] next[j] >= 1 by {
                if j < i {
                    assert(next[j] == ints_of(moduli@.take(i as int))[j]);
                }
            }
        }
        i += 1;
    }
    proof {
        assert(moduli@.take(i as int) =~= moduli@);
        lemma_merge_all_of_residues(int_of(*num), ints_of(moduli@));
        lemma_lcm_of(ints_of(moduli@));
        lemma_make_canonical(int_of(*num), lcm_of(ints_of(moduli@)));
    }
    Ok(acc)
}

} // verus!
