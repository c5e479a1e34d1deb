//! Sorting.
use crate::text::{characters, views};
use vstd::prelude::*;

verus! {

/// Whether `order` names every index below `count` once.
pub open spec fn indices(order: Seq<usize>, count: nat) -> bool {
    &&& order.len() == count
    &&& forall|i: int| 0 <= i < order.len() ==> (#[trigger] order[i]) < count
    &&& forall|i: int, j: int|
        0 <= i < j < order.len() ==> #[trigger] order[i] != #[trigger] order[j]
    &&& forall|k: usize| k < count ==> #[trigger] order.contains(k)
}

/// Whether the keys grow along `order`, and equal keys keep their places.
pub open spec fn ascending(keys: Seq<i64>, order: Seq<usize>) -> bool {
    forall|i: int, j: int|
        0 <= i < j < order.len() ==> keys[#[trigger] order[i] as int]
            < keys[#[trigger] order[j] as int] || keys[order[i] as int] == keys[order[j] as int]
            && order[i] < order[j]
}

/// The order in which the keys grow.
pub fn order_by(keys: &Vec<i64>) -> (order: Vec<usize>)
    ensures
        indices(order@, keys@.len()),
        ascending(keys@, order@),
{
    let mut order: Vec<usize> = Vec::new();
    let mut next: usize = 0;
    while next < keys.len()
        invariant
            next <= keys.len(),
            indices(order@, next as nat),
            ascending(keys@, order@),
        decreases keys.len() - next,
    {
        let mut place: usize = order.len();
        while place > 0 && keys[order[place - 1]] > keys[next]
            invariant
                next < keys.len(),
                place <= order.len(),
                indices(order@, next as nat),
                forall|i: int|
                    place <= i < order.len() ==> keys[#[trigger] order[i] as int] > keys[next as int],
            decreases place,
        {
            place -= 1;
        }
        let ghost before = order@;
        order.insert(place, next);
        proof {
            assert forall|k: usize| k < next + 1 implies #[trigger] order@.contains(k) by {
                if k == next {
                    assert(order@[place as int] == k);
                } else {
                    assert(before.contains(k));
                    let i = choose|i: int| 0 <= i < before.len() && before[i] == k;
                    if i < place {
                        assert(order@[i] == k);
                    } else {
                        assert(order@[i + 1] == k);
                    }
                }
            }
            assert forall|i: int, j: int| 0 <= i < j < order.len() implies keys[#[trigger] order[i]
                as int] < keys[#[trigger] order[j] as int] || keys[order[i] as int]
                == keys[order[j] as int] && order[i] < order[j] by {
                let x = if i < place {
                    i
                } else {
                    i - 1
                };
                let y = if j < place {
                    j
                } else {
                    j - 1
                };
                if i != place {
                    assert(order[i] == before[x]);
                }
                if j != place {
                    assert(order[j] == before[y]);
                }
                if j == place {
                    assert(before[place - 1] == order[place - 1]);
                    if i < place - 1 {
                        assert(before[i] == order[i]);
                    }
                }
            }
        }
        next += 1;
    }
    order
}

/// Whether numbers do not fall.
pub open spec fn sorted(numbers: Seq<i64>) -> bool {
    forall|i: int, j: int|
        0 <= i < j < numbers.len() ==> #[trigger] numbers[i] <= #[trigger] numbers[j]
}

/// The numbers from the smallest to the largest.
pub fn sort_ids(ids: &Vec<i64>) -> (result: Vec<i64>)
    ensures
        sorted(result@),
        result@.to_multiset() == ids@.to_multiset(),
{
    let mut result: Vec<i64> = Vec::new();
    let mut next: usize = 0;
    proof {
        assert(ids@.take(0) =~= result@);
    }
    while next < ids.len()
        invariant
            next <= ids.len(),
            sorted(result@),
            result@.to_multiset() == ids@.take(next as int).to_multiset(),
        decreases ids.len() - next,
    {
        let id = ids[next];
        let mut place: usize = result.len();
        while place > 0 && result[place - 1] > id
            invariant
                place <= result.len(),
                sorted(result@),
                forall|i: int| place <= i < result.len() ==> #[trigger] result[i] > id,
            decreases place,
        {
            place -= 1;
        }
        let ghost before = result@;
        result.insert(place, id);
        proof {
            before.to_multiset_ensures();
            ids@.take(next as int).to_multiset_ensures();
            assert(ids@.take(next + 1) =~= ids@.take(next as int).push(id));
            assert(result@.to_multiset() =~= before.to_multiset().insert(id)) by {
                vstd::seq_lib::to_multiset_insert(before, place as int, id);
            }
            assert forall|i: int, j: int| 0 <= i < j < result.len() implies #[trigger] result[i]
                <= #[trigger] result[j] by {
                if j == place {
                    assert(before[place - 1] == result[place - 1]);
                }
            }
        }
        next += 1;
    }
    assert(ids@.take(next as int) =~= ids@);
    result
}

/// The numbers from the largest to the smallest.
pub fn sort_ids_descending(ids: &Vec<i64>) -> (result: Vec<i64>)
    ensures
        sorted(result@.reverse()),
        result@.to_multiset() == ids@.to_multiset(),
{
    let ascending = sort_ids(ids);
    let mut result: Vec<i64> = Vec::new();
    let mut rest: usize = ascending.len();
    proof {
        assert(ascending@.skip(rest as int).reverse() =~= result@);
    }
    while rest > 0
        invariant
            rest <= ascending.len(),
            result@ == ascending@.skip(rest as int).reverse(),
        decreases rest,
    {
        result.push(ascending[rest - 1]);
        rest -= 1;
        assert(result@ =~= ascending@.skip(rest as int).reverse());
    }
    proof {
        assert(ascending@.skip(0) =~= ascending@);
        assert(result@.reverse() =~= ascending@);
        ascending@.lemma_reverse_to_multiset();
    }
    result
}

/// Whether one text comes before another: by the first character in which they
/// differ, else the shorter one.
pub open spec fn text_before(left: Seq<char>, right: Seq<char>) -> bool
    decreases left.len(),
{
    if right.len() == 0 {
        false
    } else if left.len() == 0 {
        true
    } else if left[0] != right[0] {
        left[0] < right[0]
    } else {
        text_before(left.skip(1), right.skip(1))
    }
}

/// Whether one text comes before another.
pub fn is_before(left: &str, right: &str) -> (before: bool)
    ensures
        before == text_before(left@, right@),
{
    let a = characters(left);
    let b = characters(right);
    let mut i: usize = 0;
    assert(a@.skip(0) =~= left@);
    assert(b@.skip(0) =~= right@);
    while i < a.len() && i < b.len()
        invariant
            i <= a.len(),
            i <= b.len(),
            text_before(left@, right@) == text_before(a@.skip(i as int), b@.skip(i as int)),
        decreases a.len() - i,
    {
        assert(a@.skip(i as int)[0] == a[i as int]);
        assert(b@.skip(i as int)[0] == b[i as int]);
        assert(a@.skip(i as int).skip(1) =~= a@.skip(i + 1));
        assert(b@.skip(i as int).skip(1) =~= b@.skip(i + 1));
        if a[i] != b[i] {
            return a[i] < b[i];
        }
        i += 1;
    }
    i < b.len()
}

/// Of two texts exactly one comes first, where they differ.
pub proof fn law_text_order_is_total(left: Seq<char>, right: Seq<char>)
    ensures
        left != right ==> text_before(left, right) != text_before(right, left),
        left == right ==> !text_before(left, right),
    decreases left.len(),
{
    if left.len() > 0 && right.len() > 0 && left[0] == right[0] {
        law_text_order_is_total(left.skip(1), right.skip(1));
        if left.skip(1) == right.skip(1) {
            assert(left =~= seq![left[0]] + left.skip(1));
            assert(right =~= seq![right[0]] + right.skip(1));
        }
    } else if left.len() == 0 && right.len() == 0 {
        assert(left =~= right);
    }
}

/// What comes before what comes before a text comes before it.
pub proof fn law_text_order_is_transitive(a: Seq<char>, b: Seq<char>, c: Seq<char>)
    requires
        text_before(a, b),
        text_before(b, c),
    ensures
        text_before(a, c),
    decreases a.len(),
{
    if a.len() > 0 && a[0] == b[0] && b[0] == c[0] {
        law_text_order_is_transitive(a.skip(1), b.skip(1), c.skip(1));
    }
}

/// Whether no text comes before the one that it follows.
pub open spec fn texts_sorted(texts: Seq<Seq<char>>) -> bool {
    forall|i: int, j: int|
        0 <= i < j < texts.len() ==> !text_before(#[trigger] texts[j], #[trigger] texts[i])
}

/// The keys along an order.
pub open spec fn along(texts: Seq<Seq<char>>, order: Seq<usize>) -> Seq<Seq<char>> {
    Seq::new(order.len(), |i: int| texts[order[i] as int])
}

/// Whether one pair comes before another: by its number, else by its text.
pub open spec fn pair_before(left: (i64, Seq<char>), right: (i64, Seq<char>)) -> bool {
    left.0 < right.0 || left.0 == right.0 && text_before(left.1, right.1)
}

/// Whether no pair comes before the one that it follows.
pub open spec fn pairs_sorted(pairs: Seq<(i64, Seq<char>)>) -> bool {
    forall|i: int, j: int|
        0 <= i < j < pairs.len() ==> !pair_before(#[trigger] pairs[j], #[trigger] pairs[i])
}

/// The pairs of numbers and texts along an order.
pub open spec fn pairs_along(numbers: Seq<i64>, texts: Seq<Seq<char>>, order: Seq<usize>) -> Seq<
    (i64, Seq<char>),
> {
    Seq::new(order.len(), |i: int| (numbers[order[i] as int], texts[order[i] as int]))
}

proof fn lemma_pair_total(left: (i64, Seq<char>), right: (i64, Seq<char>))
    ensures
        left != right ==> pair_before(left, right) != pair_before(right, left),
        left == right ==> !pair_before(left, right),
{
    law_text_order_is_total(left.1, right.1);
}

proof fn lemma_pair_transitive(
    a: (i64, Seq<char>),
    b: (i64, Seq<char>),
    c: (i64, Seq<char>),
)
    requires
        pair_before(a, b),
        pair_before(b, c),
    ensures
        pair_before(a, c),
{
    if a.0 == b.0 && b.0 == c.0 {
        law_text_order_is_transitive(a.1, b.1, c.1);
    }
}

fn is_pair_before(left: (i64, &str), right: (i64, &str)) -> (before: bool)
    ensures
        before == pair_before((left.0, left.1@), (right.0, right.1@)),
{
    left.0 < right.0 || left.0 == right.0 && is_before(left.1, right.1)
}

/// Putting one more place into an order where it belongs keeps the order sorted.
proof fn lemma_inserted(
    numbers: Seq<i64>,
    texts: Seq<Seq<char>>,
    before: Seq<usize>,
    place: int,
    next: usize,
)
    requires
        pairs_sorted(pairs_along(numbers, texts, before)),
        0 <= place <= before.len(),
        forall|i: int|
            place <= i < before.len() ==> pair_before(
                (numbers[next as int], texts[next as int]),
                (numbers[#[trigger] before[i] as int], texts[before[i] as int]),
            ),
        place > 0 ==> !pair_before(
            (numbers[next as int], texts[next as int]),
            (numbers[before[place - 1] as int], texts[before[place - 1] as int]),
        ),
    ensures
        pairs_sorted(pairs_along(numbers, texts, before.insert(place, next))),
{
    let after = before.insert(place, next);
    let old_keys = pairs_along(numbers, texts, before);
    let keys = pairs_along(numbers, texts, after);
    let own = (numbers[next as int], texts[next as int]);
    assert(keys[place] == own);
    assert forall|i: int, j: int| 0 <= i < j < keys.len() implies !pair_before(
        #[trigger] keys[j],
        #[trigger] keys[i],
    ) by {
        let x = if i < place {
            i
        } else {
            i - 1
        };
        let y = if j < place {
            j
        } else {
            j - 1
        };
        if i != place {
            assert(keys[i] == old_keys[x]);
        }
        if j != place {
            assert(keys[j] == old_keys[y]);
        }
        if i == place {
            assert(after[j] == before[y]);
            lemma_pair_total(keys[i], keys[j]);
        } else if j == place {
            assert(old_keys[place - 1] == (
                numbers[before[place - 1] as int],
                texts[before[place - 1] as int],
            ));
            if pair_before(keys[j], keys[i]) && i < place - 1 {
                assert(!pair_before(old_keys[place - 1], old_keys[i]));
                lemma_pair_total(old_keys[i], old_keys[place - 1]);
                if old_keys[i] != old_keys[place - 1] {
                    lemma_pair_transitive(own, old_keys[i], old_keys[place - 1]);
                }
            }
        }
    }
}

/// Putting one more place into an order keeps every place in it once.
proof fn lemma_indices_inserted(before: Seq<usize>, place: int, next: usize)
    requires
        indices(before, next as nat),
        0 <= place <= before.len(),
    ensures
        indices(before.insert(place, next), (next + 1) as nat),
{
    let after = before.insert(place, next);
    assert forall|k: usize| k < next + 1 implies #[trigger] after.contains(k) by {
        if k == next {
            assert(after[place] == k);
        } else {
            assert(before.contains(k));
            let i = choose|i: int| 0 <= i < before.len() && before[i] == k;
            if i < place {
                assert(after[i] == k);
            } else {
                assert(after[i + 1] == k);
            }
        }
    }
}

/// The order in which pairs of numbers and texts stand sorted.
pub fn order_pairs(numbers: &Vec<i64>, texts: &Vec<String>) -> (order: Vec<usize>)
    requires
        numbers.len() == texts.len(),
    ensures
        indices(order@, texts@.len()),
        pairs_sorted(pairs_along(numbers@, views(texts@), order@)),
{
    let mut order: Vec<usize> = Vec::new();
    let mut next: usize = 0;
    let ghost all = views(texts@);
    while next < texts.len()
        invariant
            next <= texts.len(),
            numbers.len() == texts.len(),
            all == views(texts@),
            indices(order@, next as nat),
            pairs_sorted(pairs_along(numbers@, all, order@)),
        decreases texts.len() - next,
    {
        let mut place: usize = order.len();
        let mut searching = true;
        while place > 0 && searching
            invariant
                next < texts.len(),
                numbers.len() == texts.len(),
                place <= order.len(),
                all == views(texts@),
                indices(order@, next as nat),
                forall|i: int|
                    place <= i < order.len() ==> pair_before(
                        (numbers[next as int], all[next as int]),
                        (numbers[#[trigger] order[i] as int], all[order[i] as int]),
                    ),
                !searching ==> place > 0 && !pair_before(
                    (numbers[next as int], all[next as int]),
                    (numbers[order[place - 1] as int], all[order[place - 1] as int]),
                ),
            decreases place, searching as int,
        {
            let other = order[place - 1];
            assert(other < next);
            if is_pair_before(
                (numbers[next], texts[next].as_str()),
                (numbers[other], texts[other].as_str()),
            ) {
                place -= 1;
            } else {
                searching = false;
            }
        }
        proof {
            lemma_inserted(numbers@, all, order@, place as int, next);
            lemma_indices_inserted(order@, place as int, next);
        }
        order.insert(place, next);
        next += 1;
    }
    order
}

/// The order in which texts stand sorted.
pub fn order_texts(texts: &Vec<String>) -> (order: Vec<usize>)
    ensures
        indices(order@, texts@.len()),
        texts_sorted(along(views(texts@), order@)),
{
    let mut numbers: Vec<i64> = Vec::new();
    while numbers.len() < texts.len()
        invariant
            numbers.len() <= texts.len(),
            forall|i: int| 0 <= i < numbers.len() ==> #[trigger] numbers[i] == 0,
        decreases texts.len() - numbers.len(),
    {
        numbers.push(0);
    }
    let order = order_pairs(&numbers, texts);
    proof {
        let pairs = pairs_along(numbers@, views(texts@), order@);
        let keys = along(views(texts@), order@);
        assert forall|i: int, j: int| 0 <= i < j < keys.len() implies !text_before(
            #[trigger] keys[j],
            #[trigger] keys[i],
        ) by {
            assert(!pair_before(pairs[j], pairs[i]));
            assert(numbers[order[i] as int] == 0 && numbers[order[j] as int] == 0);
        }
    }
    order
}

} // verus!
