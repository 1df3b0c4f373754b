//! Pairing of benchmark runs with their baseline by name.
use vstd::prelude::*;

verus! {

/// Index of the last name in `names` that equals `name`, or -1 where none
/// does. A baseline map keyed by name keeps the last entry of each name.
pub open spec fn last_match(names: Seq<String>, name: Seq<char>) -> int
    decreases names.len(),
{
    if names.len() == 0 {
        -1
    } else if names.last()@ == name {
        names.len() - 1
    } else {
        last_match(names.drop_last(), name)
    }
}

/// The pairs (current index, baseline index) that a comparison reports: one
/// for each current benchmark whose name occurs in the baseline, in the
/// order of the current run, with the last baseline entry of that name.
pub open spec fn benchmark_pairs(baseline: Seq<String>, current: Seq<String>) -> Seq<(int, int)>
    decreases current.len(),
{
    if current.len() == 0 {
        Seq::empty()
    } else {
        let earlier = benchmark_pairs(baseline, current.drop_last());
        let j: int = last_match(baseline, current.last()@);
        if j >= 0 {
            earlier.push((current.len() - 1, j))
        } else {
            earlier
        }
    }
}

proof fn lemma_last_match_range(names: Seq<String>, name: Seq<char>)
    ensures
        -1 <= last_match(names, name) < names.len(),
        last_match(names, name) >= 0 ==> names[last_match(names, name)]@ == name,
        last_match(names, name) >= 0 ==> forall|k: int|
            last_match(names, name) < k < names.len() ==> #[trigger] names[k]@ != name,
        last_match(names, name) < 0 ==> forall|k: int| 0 <= k < names.len() ==> #[trigger] names[k]@ != name,
    decreases names.len(),
{
    if names.len() > 0 {
        lemma_last_match_range(names.drop_last(), name);
        assert(forall|k: int| 0 <= k < names.len() - 1 ==> names.drop_last()[k] == names[k]);
    }
}

/// A comparison joins only benchmarks of the same name, each current
/// benchmark at most once and in the order of the current run, always with
/// the last baseline entry of that name; and every current benchmark whose
/// name occurs in the baseline is reported.
pub proof fn lemma_benchmark_pairs_sound(baseline: Seq<String>, current: Seq<String>)
    ensures
        forall|k: int|
            #![trigger benchmark_pairs(baseline, current)[k]]
            0 <= k < benchmark_pairs(baseline, current).len() ==> {
                let (i, j) = benchmark_pairs(baseline, current)[k];
                &&& 0 <= i < current.len()
                &&& 0 <= j < baseline.len()
                &&& baseline[j]@ == current[i]@
                &&& forall|m: int| j < m < baseline.len() ==> #[trigger] baseline[m]@ != current[i]@
            },
        forall|k1: int, k2: int|
            #![trigger benchmark_pairs(baseline, current)[k1], benchmark_pairs(baseline, current)[k2]]
            0 <= k1 < k2 < benchmark_pairs(baseline, current).len() ==> benchmark_pairs(
                baseline,
                current,
            )[k1].0 < benchmark_pairs(baseline, current)[k2].0,
        forall|i: int, j: int|
            0 <= i < current.len() && 0 <= j < baseline.len() && #[trigger] baseline[j]@
                == #[trigger] current[i]@ ==> exists|k: int|
                0 <= k < benchmark_pairs(baseline, current).len() && (#[trigger] benchmark_pairs(
                    baseline,
                    current,
                )[k]).0 == i,
    decreases current.len(),
{
    if current.len() > 0 {
        let rest = current.drop_last();
        lemma_benchmark_pairs_sound(baseline, rest);
        let last = current.last();
        lemma_last_match_range(baseline, last@);
        let earlier = benchmark_pairs(baseline, rest);
        let pairs = benchmark_pairs(baseline, current);
        assert(forall|i: int| 0 <= i < rest.len() ==> rest[i] == current[i]);
        assert forall|i: int, j: int|
            0 <= i < current.len() && 0 <= j < baseline.len() && #[trigger] baseline[j]@
                == #[trigger] current[i]@ implies exists|k: int|
                0 <= k < pairs.len() && (#[trigger] pairs[k]).0 == i by {
            if i < current.len() - 1 {
                assert(rest[i] == current[i]);
                let k = choose|k: int| 0 <= k < earlier.len() && (#[trigger] earlier[k]).0 == i;
                assert(pairs[k] == earlier[k]);
            } else {
                assert(last_match(baseline, last@) >= 0);
                assert(pairs[earlier.len() as int].0 == i);
            }
        }
    }
}

/// Finds the last entry of `names` equal to `name`.
pub fn last_index_of(names: &Vec<String>, name: &String) -> (r: Option<usize>)
    ensures
        match r {
            Some(j) => last_match(names@, name@) == j as int,
            None => last_match(names@, name@) == -1,
        },
{
    let mut k: usize = names.len();
    assert(names@.take(k as int) =~= names@);
    while k > 0
        invariant
            k <= names@.len(),
            last_match(names@, name@) == last_match(names@.take(k as int), name@),
        decreases k,
    {
        let ghost prefix = names@.take(k as int);
        assert(prefix.drop_last() =~= names@.take(k - 1));
        assert(prefix.last() == names@[k - 1]);
        if names[k - 1] == *name {
            return Some(k - 1);
        }
        k = k - 1;
    }
    assert(names@.take(0) =~= Seq::<String>::empty());
    None
}

/// Pairs each benchmark of the current run with the baseline benchmark of
/// the same name (the last one, where the baseline repeats a name), as
/// (current index, baseline index), in the order of the current run.
/// Benchmarks without a baseline are left out.
pub fn match_benchmarks(baseline_names: &Vec<String>, current_names: &Vec<String>) -> (r: Vec<(usize, usize)>)
    ensures
        r@.len() == benchmark_pairs(baseline_names@, current_names@).len(),
        forall|k: int|
            0 <= k < r@.len() ==> (#[trigger] r@[k]).0 as int == benchmark_pairs(
                baseline_names@,
                current_names@,
            )[k].0 && r@[k].1 as int == benchmark_pairs(baseline_names@, current_names@)[k].1,
{
    let mut pairs: Vec<(usize, usize)> = Vec::new();
    let n: usize = current_names.len();
    assert(current_names@.take(0) =~= Seq::<String>::empty());
    for i in 0..n
        invariant
            n == current_names@.len(),
            pairs@.len() == benchmark_pairs(baseline_names@, current_names@.take(i as int)).len(),
            forall|k: int|
                0 <= k < pairs@.len() ==> (#[trigger] pairs@[k]).0 as int == benchmark_pairs(
                    baseline_names@,
                    current_names@.take(i as int),
                )[k].0 && pairs@[k].1 as int == benchmark_pairs(
                    baseline_names@,
                    current_names@.take(i as int),
                )[k].1,
    {
        proof {
            assert(current_names@.take(i + 1).drop_last() =~= current_names@.take(i as int));
            assert(current_names@.take(i + 1).last() == current_names@[i as int]);
        }
        match last_index_of(baseline_names, &current_names[i]) {
            Some(j) => {
                pairs.push((i, j));
            },
            None => {},
        }
    }
    assert(current_names@.take(n as int) =~= current_names@);
    pairs
}

} // verus!
