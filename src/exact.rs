use vstd::prelude::*;

verus! {

/// The texts of the items, in order.
pub open spec fn texts(items: Seq<String>) -> Seq<Seq<char>> {
    items.map_values(|s: String| s@)
}

/// Number of distinct texts among the items.
pub open spec fn distinct_count(items: Seq<String>) -> nat {
    texts(items).to_set().len()
}

/// Whether no two items have the same text.
pub open spec fn all_distinct(items: Seq<String>) -> bool {
    forall|i: int, j: int|
        0 <= i < items.len() && 0 <= j < items.len() && i != j ==> items[i]@ != items[j]@
}

/// The texts of the items at the positions `idx`.
pub open spec fn texts_at(items: Seq<String>, idx: Seq<usize>) -> Seq<Seq<char>> {
    idx.map_values(|k: usize| items[k as int]@)
}

/// Exact number of distinct items, by content.
pub fn naive_cardinality(items: &Vec<String>) -> (r: usize)
    ensures
        r == distinct_count(items@),
{
    // positions of the first occurrence of each text seen so far
    let mut firsts: Vec<usize> = Vec::new();
    let mut i: usize = 0;
    while i < items.len()
        invariant
            i <= items@.len(),
            forall|t: int| 0 <= t < firsts@.len() ==> #[trigger] firsts@[t] < i,
            texts_at(items@, firsts@).no_duplicates(),
            texts_at(items@, firsts@).to_set() == texts(items@.subrange(0, i as int)).to_set(),
        decreases items@.len() - i,
    {
        let mut found = false;
        let mut t: usize = 0;
        while t < firsts.len()
            invariant
                i < items@.len(),
                t <= firsts@.len(),
                forall|u: int| 0 <= u < firsts@.len() ==> #[trigger] firsts@[u] < i,
                found <==> exists|u: int| 0 <= u < t && items@[firsts@[u] as int]@ == #[trigger] items@[i as int]@,
            decreases firsts@.len() - t,
        {
            if items[firsts[t]] == items[i] {
                found = true;
            }
            t += 1;
        }
        let ghost old_firsts = firsts@;
        let ghost prefix = items@.subrange(0, i as int);
        let ghost next = items@.subrange(0, i + 1);
        proof {
            assert(texts(next) =~= texts(prefix).push(items@[i as int]@));
        }
        if !found {
            firsts.push(i);
            proof {
                assert(texts_at(items@, firsts@) =~= texts_at(items@, old_firsts).push(items@[i as int]@));
                assert forall|a: int, c: int|
                    0 <= a < c < texts_at(items@, firsts@).len() implies texts_at(items@, firsts@)[a]
                    != texts_at(items@, firsts@)[c] by {
                    if c == old_firsts.len() {
                        assert(items@[old_firsts[a] as int]@ == texts_at(items@, old_firsts)[a]);
                    } else {
                        assert(texts_at(items@, old_firsts)[a] != texts_at(items@, old_firsts)[c]);
                    }
                }
                assert(texts_at(items@, firsts@).to_set() =~= texts(next).to_set()) by {
                    assert forall|x: Seq<char>| texts(next).to_set().contains(x) implies
                        texts_at(items@, firsts@).to_set().contains(x) by {
                        if x != items@[i as int]@ {
                            assert(texts(prefix).to_set().contains(x));
                            let k = choose|k: int| 0 <= k < texts_at(items@, old_firsts).len() && texts_at(items@, old_firsts)[k] == x;
                            assert(texts_at(items@, firsts@)[k] == x);
                        } else {
                            assert(texts_at(items@, firsts@)[old_firsts.len() as int] == x);
                        }
                    }
                    assert forall|x: Seq<char>| texts_at(items@, firsts@).to_set().contains(x) implies
                        texts(next).to_set().contains(x) by {
                        let k = choose|k: int| 0 <= k < texts_at(items@, firsts@).len() && texts_at(items@, firsts@)[k] == x;
                        if k < old_firsts.len() {
                            assert(texts_at(items@, old_firsts)[k] == x);
                            assert(texts(prefix).to_set().contains(x));
                            let p = choose|p: int| 0 <= p < texts(prefix).len() && texts(prefix)[p] == x;
                            assert(texts(next)[p] == x);
                        } else {
                            assert(texts(next)[i as int] == x);
                        }
                    }
                }
            }
        } else {
            proof {
                assert(texts_at(items@, firsts@).to_set() =~= texts(next).to_set()) by {
                    let u = choose|u: int| 0 <= u < firsts@.len() && items@[firsts@[u] as int]@ == #[trigger] items@[i as int]@;
                    assert(texts_at(items@, firsts@)[u] == items@[i as int]@);
                    assert forall|x: Seq<char>| texts(next).to_set().contains(x) implies
                        texts_at(items@, firsts@).to_set().contains(x) by {
                        if x != items@[i as int]@ {
                            let p = choose|p: int| 0 <= p < texts(next).len() && texts(next)[p] == x;
                            assert(texts(prefix)[p] == x);
                            assert(texts(prefix).to_set().contains(x));
                        }
                    }
                    assert forall|x: Seq<char>| texts_at(items@, firsts@).to_set().contains(x) implies
                        texts(next).to_set().contains(x) by {
                        assert(texts(prefix).to_set().contains(x));
                        let p = choose|p: int| 0 <= p < texts(prefix).len() && texts(prefix)[p] == x;
                        assert(texts(next)[p] == x);
                    }
                }
            }
        }
        i += 1;
    }
    proof {
        assert(items@.subrange(0, i as int) =~= items@);
        texts_at(items@, firsts@).unique_seq_to_set();
    }
    firsts.len()
}

/// The number of distinct items never exceeds the number of items, and
/// equals it exactly when no two items have the same text.
pub proof fn lemma_distinct_count_bounds(items: Seq<String>)
    requires
        items.len() > 0,
    ensures
        distinct_count(items) <= items.len(),
        distinct_count(items) == items.len() <==> all_distinct(items),
{
    texts(items).lemma_cardinality_of_set();
    if distinct_count(items) == items.len() {
        texts(items).lemma_no_dup_set_cardinality();
        assert forall|i: int, j: int|
            0 <= i < items.len() && 0 <= j < items.len() && i != j implies items[i]@ != items[j]@ by {
            assert(texts(items)[i] == items[i]@ && texts(items)[j] == items[j]@);
        }
    }
    if all_distinct(items) {
        assert(texts(items).no_duplicates());
        texts(items).unique_seq_to_set();
    }
}

} // verus!
