//! The order in which interfaces are listed.

use vstd::prelude::*;
use vstd::utf8::is_ascii_chars;

use crate::table::NameTable;
use crate::text::{contains_text, no_later, occurs, same_text, text_le, texts};
use crate::text::{text_order_is_antisymmetric, text_order_is_total, text_order_is_transitive};

verus! {

/// What `str::to_lowercase` makes of a text.
pub uninterp spec fn lowercase(s: Seq<char>) -> Seq<char>;

/// An ASCII letter in lower case; any other character as it is.
pub open spec fn ascii_lowercase(c: char) -> char {
    if 'A' as u32 <= c as u32 <= 'Z' as u32 {
        (c as u32 + 32) as char
    } else {
        c
    }
}

/// Calls `str::to_lowercase`, which is locale-independent. Claimed: the result
/// depends on the text alone, and of an ASCII text it is the text with its
/// letters in lower case, one for one.
#[verifier::external_body]
pub(crate) fn to_lower(s: &str) -> (r: String)
    ensures
        r@ == lowercase(s@),
        is_ascii_chars(s@) ==> r@ == s@.map_values(|c: char| ascii_lowercase(c)),
{
    s.to_lowercase()
}

/// Where a name stands: its category, then its name in lower case.
pub ghost struct RankedView {
    pub category: u8,
    pub lower: Seq<char>,
    pub name: Seq<char>,
}

/// A name with what it is ordered by.
pub struct Ranked {
    pub category: u8,
    pub lower: String,
    pub name: String,
}

impl View for Ranked {
    type V = RankedView;

    open spec fn view(&self) -> RankedView {
        RankedView { category: self.category, lower: self.lower@, name: self.name@ }
    }
}

/// The views of some ranked names.
pub open spec fn ranked_views(items: Seq<Ranked>) -> Seq<RankedView> {
    items.map_values(|x: Ranked| x@)
}

/// Whether a ranked name comes no later than another.
pub open spec fn rank_le(a: RankedView, b: RankedView) -> bool {
    a.category < b.category || (a.category == b.category && text_le(a.lower, b.lower))
}

/// Whether ranked names follow each other in order.
pub open spec fn is_sorted(items: Seq<RankedView>) -> bool {
    forall|i: int, j: int|
        0 <= i < j < items.len() ==> rank_le(#[trigger] items[i], #[trigger] items[j])
}

/// The ranked names of one rank, in the order in which they stand.
pub open spec fn of_rank(items: Seq<RankedView>, category: u8, lower: Seq<char>) -> Seq<
    RankedView,
> {
    items.filter(|x: RankedView| x.category == category && x.lower == lower)
}

/// Whether a list is another one put in order, where names of one rank keep
/// the order that they had.
pub open spec fn is_stable_sort(items: Seq<RankedView>, output: Seq<RankedView>) -> bool {
    &&& is_sorted(output)
    &&& forall|category: u8, lower: Seq<char>| #[trigger]
        of_rank(output, category, lower) == of_rank(items, category, lower)
}

/// A list put in order, where names of one rank keep the order that they had.
pub open spec fn stable_sort(items: Seq<RankedView>) -> Seq<RankedView> {
    choose|output: Seq<RankedView>| is_stable_sort(items, output)
}

proof fn lemma_of_rank_push(items: Seq<RankedView>, x: RankedView, category: u8, lower: Seq<char>)
    ensures
        of_rank(items.push(x), category, lower) == if x.category == category && x.lower == lower {
            of_rank(items, category, lower).push(x)
        } else {
            of_rank(items, category, lower)
        },
{
    reveal(Seq::filter);
    assert(items.push(x).drop_last() =~= items);
}

proof fn lemma_of_rank_some(items: Seq<RankedView>, i: int)
    requires
        0 <= i < items.len(),
    ensures
        of_rank(items, items[i].category, items[i].lower).len() > 0,
{
    let pred = |x: RankedView| x.category == items[i].category && x.lower == items[i].lower;
    items.lemma_filter_contains(pred, i);
}

proof fn lemma_of_rank_back(items: Seq<RankedView>, category: u8, lower: Seq<char>) -> (i: int)
    requires
        of_rank(items, category, lower).len() > 0,
    ensures
        0 <= i < items.len(),
        items[i].category == category,
        items[i].lower == lower,
    decreases items.len(),
{
    reveal(Seq::filter);
    if items.last().category == category && items.last().lower == lower {
        items.len() - 1
    } else {
        lemma_of_rank_back(items.drop_last(), category, lower)
    }
}

/// There is at most one way to put a list in order so that names of one rank
/// keep the order that they had.
pub proof fn stable_sort_is_unique(
    items: Seq<RankedView>,
    one: Seq<RankedView>,
    other: Seq<RankedView>,
)
    requires
        is_stable_sort(items, one),
        is_stable_sort(items, other),
    ensures
        one == other,
{
    assert forall|category: u8, lower: Seq<char>| #[trigger]
        of_rank(one, category, lower) == of_rank(other, category, lower) by {
        assert(of_rank(one, category, lower) == of_rank(items, category, lower));
        assert(of_rank(other, category, lower) == of_rank(items, category, lower));
    }
    lemma_same_ranks_same_list(one, other);
}

proof fn lemma_same_ranks_same_list(one: Seq<RankedView>, other: Seq<RankedView>)
    requires
        is_sorted(one),
        is_sorted(other),
        forall|category: u8, lower: Seq<char>| #[trigger]
            of_rank(one, category, lower) == of_rank(other, category, lower),
    ensures
        one == other,
    decreases one.len(),
{
    if one.len() == 0 {
        if other.len() > 0 {
            lemma_of_rank_some(other, 0);
            let x = other[0];
            assert(of_rank(one, x.category, x.lower) == of_rank(other, x.category, x.lower));
            lemma_of_rank_back(one, x.category, x.lower);
        }
        assert(one =~= other);
    } else {
        let x = one.last();
        lemma_of_rank_some(one, one.len() - 1);
        assert(of_rank(one, x.category, x.lower) == of_rank(other, x.category, x.lower));
        let i = lemma_of_rank_back(other, x.category, x.lower);
        let y = other.last();
        lemma_of_rank_some(other, other.len() - 1);
        assert(of_rank(one, y.category, y.lower) == of_rank(other, y.category, y.lower));
        let j = lemma_of_rank_back(one, y.category, y.lower);
        assert(i == other.len() - 1 || rank_le(other[i], other[other.len() - 1]));
        assert(j == one.len() - 1 || rank_le(one[j], one[one.len() - 1]));
        assert(x.category == y.category);
        assert(x.lower == y.lower) by {
            if i != other.len() - 1 && j != one.len() - 1 {
                text_order_is_antisymmetric(x.lower, y.lower);
            }
        }
        assert(one.drop_last().push(x) =~= one);
        assert(other.drop_last().push(y) =~= other);
        lemma_of_rank_push(one.drop_last(), x, x.category, x.lower);
        lemma_of_rank_push(other.drop_last(), y, x.category, x.lower);
        assert(of_rank(one, x.category, x.lower).last() == x);
        assert(of_rank(other, x.category, x.lower).last() == y);
        assert(x == y);
        assert forall|category: u8, lower: Seq<char>| #[trigger]
            of_rank(one.drop_last(), category, lower) == of_rank(
                other.drop_last(),
                category,
                lower,
            ) by {
            lemma_of_rank_push(one.drop_last(), x, category, lower);
            lemma_of_rank_push(other.drop_last(), y, category, lower);
            assert(of_rank(one, category, lower) == of_rank(other, category, lower));
            assert(of_rank(one.drop_last(), category, lower) =~= if x.category == category
                && x.lower == lower {
                of_rank(one, category, lower).drop_last()
            } else {
                of_rank(one, category, lower)
            });
            assert(of_rank(other.drop_last(), category, lower) =~= if x.category == category
                && x.lower == lower {
                of_rank(other, category, lower).drop_last()
            } else {
                of_rank(other, category, lower)
            });
        }
        lemma_same_ranks_same_list(one.drop_last(), other.drop_last());
    }
}

/// A name put after those that come no later, and before the others, keeps a
/// list in order.
proof fn lemma_placed(items: Seq<RankedView>, output: Seq<RankedView>, x: RankedView, place: int)
    requires
        is_stable_sort(items, output),
        0 <= place <= output.len(),
        place > 0 ==> rank_le(output[place - 1], x),
        forall|k: int| place <= k < output.len() ==> !rank_le(#[trigger] output[k], x),
    ensures
        is_stable_sort(items.push(x), output.insert(place, x)),
{
    let result = output.insert(place, x);
    assert forall|i: int, j: int| 0 <= i < j < result.len() implies rank_le(
        #[trigger] result[i],
        #[trigger] result[j],
    ) by {
        let a = if i < place { i } else { i - 1 };
        let b = if j < place { j } else { j - 1 };
        if i == place {
            assert(result[j] == output[b]);
            assert(!rank_le(output[b], x));
            text_order_is_total(output[b].lower, x.lower);
        } else if j == place {
            assert(result[i] == output[i]);
            if i < place - 1 {
                assert(rank_le(output[i], output[place - 1]));
                lemma_rank_transitive(output[i], output[place - 1], x);
            }
        } else {
            assert(result[i] == output[a]);
            assert(result[j] == output[b]);
        }
    }
    let low = output.take(place);
    let high = output.skip(place);
    assert(output =~= low + high);
    assert(result =~= low.push(x) + high);
    assert forall|category: u8, lower: Seq<char>| #[trigger]
        of_rank(result, category, lower) == of_rank(items.push(x), category, lower) by {
        let pred = |y: RankedView| y.category == category && y.lower == lower;
        Seq::filter_distributes_over_add(low, high, pred);
        Seq::filter_distributes_over_add(low.push(x), high, pred);
        lemma_of_rank_push(low, x, category, lower);
        lemma_of_rank_push(items, x, category, lower);
        assert(of_rank(output, category, lower) == of_rank(items, category, lower));
        if x.category == category && x.lower == lower {
            assert(of_rank(high, category, lower).len() == 0) by {
                if of_rank(high, category, lower).len() > 0 {
                    let k = lemma_of_rank_back(high, category, lower);
                    assert(high[k] == output[place + k]);
                    text_order_is_total(x.lower, x.lower);
                }
            }
            assert(of_rank(high, category, lower) =~= Seq::<RankedView>::empty());
            assert(of_rank(result, category, lower) =~= of_rank(low, category, lower).push(x));
        }
    }
}

proof fn lemma_rank_transitive(a: RankedView, b: RankedView, c: RankedView)
    requires
        rank_le(a, b),
        rank_le(b, c),
    ensures
        rank_le(a, c),
{
    if a.category == b.category && b.category == c.category {
        text_order_is_transitive(a.lower, b.lower, c.lower);
    }
}

proof fn lemma_place(output: Seq<RankedView>, x: RankedView, from: int) -> (place: int)
    requires
        0 <= from <= output.len(),
        forall|k: int| from <= k < output.len() ==> !rank_le(#[trigger] output[k], x),
    ensures
        0 <= place <= output.len(),
        place > 0 ==> rank_le(output[place - 1], x),
        forall|k: int| place <= k < output.len() ==> !rank_le(#[trigger] output[k], x),
    decreases from,
{
    if from == 0 || rank_le(output[from - 1], x) {
        from
    } else {
        lemma_place(output, x, from - 1)
    }
}

proof fn lemma_stable_sort_exists(items: Seq<RankedView>) -> (output: Seq<RankedView>)
    ensures
        is_stable_sort(items, output),
    decreases items.len(),
{
    if items.len() == 0 {
        items
    } else {
        let before = lemma_stable_sort_exists(items.drop_last());
        let place = lemma_place(before, items.last(), before.len() as int);
        lemma_placed(items.drop_last(), before, items.last(), place);
        assert(items.drop_last().push(items.last()) =~= items);
        before.insert(place, items.last())
    }
}

/// Every list can be put in order so that names of one rank keep the order
/// that they had.
pub proof fn stable_sort_sorts(items: Seq<RankedView>)
    ensures
        is_stable_sort(items, stable_sort(items)),
{
    let output = lemma_stable_sort_exists(items);
    assert(is_stable_sort(items, output));
}

proof fn lemma_of_rank_count(items: Seq<RankedView>, x: RankedView)
    ensures
        of_rank(items, x.category, x.lower).to_multiset().count(x) == items.to_multiset().count(x),
    decreases items.len(),
{
    broadcast use vstd::seq_lib::group_to_multiset_ensures;

    if items.len() == 0 {
        assert(of_rank(items, x.category, x.lower) =~= items) by {
            reveal(Seq::filter);
        }
    } else {
        let rest = items.drop_last();
        let last = items.last();
        lemma_of_rank_count(rest, x);
        lemma_of_rank_push(rest, last, x.category, x.lower);
        assert(rest.push(last) =~= items);
    }
}

/// Putting a list in order drops nothing, adds nothing and repeats nothing.
pub proof fn stable_sort_is_permutation(items: Seq<RankedView>)
    ensures
        stable_sort(items).to_multiset() == items.to_multiset(),
{
    stable_sort_sorts(items);
    let output = stable_sort(items);
    assert forall|x: RankedView| #[trigger]
        output.to_multiset().count(x) == items.to_multiset().count(x) by {
        lemma_of_rank_count(items, x);
        lemma_of_rank_count(output, x);
        assert(of_rank(output, x.category, x.lower) == of_rank(items, x.category, x.lower));
    }
    assert(output.to_multiset() =~= items.to_multiset());
}

fn comes_no_later(a: &Ranked, b: &Ranked) -> (r: bool)
    ensures
        r == rank_le(a@, b@),
{
    a.category < b.category || (a.category == b.category && no_later(&a.lower, &b.lower))
}

/// Puts ranked names in order; names of one rank keep the order that they had.
pub fn sort_ranked(items: &Vec<Ranked>) -> (r: Vec<Ranked>)
    ensures
        ranked_views(r@) == stable_sort(ranked_views(items@)),
{
    let mut r: Vec<Ranked> = Vec::new();
    let mut i: usize = 0;
    let ghost all = ranked_views(items@);
    assert(ranked_views(r@) =~= all.take(0));
    assert(is_stable_sort(all.take(0), ranked_views(r@)));
    while i < items.len()
        invariant
            i <= items@.len(),
            all == ranked_views(items@),
            is_stable_sort(all.take(i as int), ranked_views(r@)),
        decreases items@.len() - i,
    {
        let item = &items[i];
        let x = Ranked {
            category: item.category,
            lower: item.lower.clone(),
            name: item.name.clone(),
        };
        let ghost before = ranked_views(r@);
        let mut place: usize = r.len();
        while place > 0 && !comes_no_later(&r[place - 1], &x)
            invariant
                place <= r@.len(),
                before == ranked_views(r@),
                forall|k: int| place <= k < r@.len() ==> !rank_le(#[trigger] before[k], x@),
            decreases place,
        {
            assert(before[place - 1] == r@[place - 1]@);
            place -= 1;
        }
        proof {
            assert(place > 0 ==> before[place - 1] == r@[place - 1]@);
            lemma_placed(all.take(i as int), before, x@, place as int);
            assert(all.take(i + 1) =~= all.take(i as int).push(x@));
        }
        let ghost view = x@;
        r.insert(place, x);
        assert(ranked_views(r@) =~= before.insert(place as int, view));
        i += 1;
    }
    proof {
        assert(all.take(i as int) =~= all);
        stable_sort_sorts(all);
        stable_sort_is_unique(all, ranked_views(r@), stable_sort(all));
    }
    r
}

/// The category that a name in lower case tells of: 0 for wired, 1 for
/// wireless, 2 for any other. A name that tells of both is wired.
pub open spec fn category_from_name(lower: Seq<char>) -> u8 {
    if occurs("ethernet"@, lower) || occurs("lan"@, lower) || occurs("gbe"@, lower) || occurs(
        "gigabit"@,
        lower,
    ) {
        0
    } else if occurs("wi-fi"@, lower) || occurs("wifi"@, lower) || occurs("wlan"@, lower)
        || occurs("wireless"@, lower) || occurs("802.11"@, lower) {
        1
    } else {
        2
    }
}

/// The category that a name in lower case tells of.
pub fn category_of_lowercase(lower: &str) -> (r: u8)
    ensures
        r == category_from_name(lower@),
{
    let is_wired = contains_text(lower, "ethernet") || contains_text(lower, "lan")
        || contains_text(lower, "gbe") || contains_text(lower, "gigabit");
    let is_wireless = contains_text(lower, "wi-fi") || contains_text(lower, "wifi")
        || contains_text(lower, "wlan") || contains_text(lower, "wireless")
        || contains_text(lower, "802.11");
    if is_wired {
        0
    } else if is_wireless {
        1
    } else {
        2
    }
}

/// What an interface is ordered by: the category that is known of it, or else
/// the one that its name tells of, and then its name in lower case.
pub open spec fn sort_key(categories: Map<Seq<char>, u8>, name: Seq<char>) -> (u8, Seq<char>) {
    let category = if categories.contains_key(name) {
        categories[name]
    } else {
        category_from_name(lowercase(name))
    };
    (category, lowercase(name))
}

/// What an interface is ordered by.
pub fn interface_sort_key_with_categories(categories: &NameTable<u8>, name: &str) -> (r: (
    u8,
    String,
))
    ensures
        (r.0, r.1@) == sort_key(categories@, name@),
        is_ascii_chars(name@) ==> r.1@ == name@.map_values(|c: char| ascii_lowercase(c)),
{
    let lower = to_lower(name);
    match categories.get(name) {
        Some(category) => (*category, lower),
        None => {
            let category: u8 = category_of_lowercase(&lower);
            (category, lower)
        },
    }
}

/// A name with what it is ordered by.
pub open spec fn ranked(categories: Map<Seq<char>, u8>, name: Seq<char>) -> RankedView {
    let key = sort_key(categories, name);
    RankedView { category: key.0, lower: key.1, name }
}

/// Interfaces in the order in which they are listed.
pub open spec fn sorted_interfaces(
    categories: Map<Seq<char>, u8>,
    names: Seq<Seq<char>>,
) -> Seq<Seq<char>> {
    stable_sort(names.map_values(|n: Seq<char>| ranked(categories, n))).map_values(
        |x: RankedView| x.name,
    )
}

/// Puts interfaces in the order in which they are listed.
pub fn sort_interfaces(names: &Vec<String>, categories: &NameTable<u8>) -> (r: Vec<String>)
    ensures
        texts(r@) == sorted_interfaces(categories@, texts(names@)),
{
    let mut items: Vec<Ranked> = Vec::new();
    let mut i: usize = 0;
    let ghost all = texts(names@).map_values(|n: Seq<char>| ranked(categories@, n));
    while i < names.len()
        invariant
            i <= names@.len(),
            all == texts(names@).map_values(|n: Seq<char>| ranked(categories@, n)),
            ranked_views(items@) =~= all.take(i as int),
        decreases names@.len() - i,
    {
        let key = interface_sort_key_with_categories(categories, &names[i]);
        let item = Ranked { category: key.0, lower: key.1, name: names[i].clone() };
        let ghost before = ranked_views(items@);
        let ghost view = item@;
        items.push(item);
        proof {
            assert(ranked_views(items@) =~= before.push(view));
            assert(all[i as int] == view);
        }
        i += 1;
    }
    assert(all.take(i as int) =~= all);
    let sorted = sort_ranked(&items);
    let mut r: Vec<String> = Vec::new();
    let mut k: usize = 0;
    let ghost named = ranked_views(sorted@).map_values(|x: RankedView| x.name);
    while k < sorted.len()
        invariant
            k <= sorted@.len(),
            named == ranked_views(sorted@).map_values(|x: RankedView| x.name),
            texts(r@) =~= named.take(k as int),
        decreases sorted@.len() - k,
    {
        let ghost before = texts(r@);
        r.push(sorted[k].name.clone());
        assert(texts(r@) =~= before.push(named[k as int]));
        k += 1;
    }
    assert(named.take(k as int) =~= named);
    r
}

proof fn lemma_sorted_interfaces_ranked(
    categories: Map<Seq<char>, u8>,
    names: Seq<Seq<char>>,
)
    ensures
        sorted_interfaces(categories, names).map_values(|n: Seq<char>| ranked(categories, n))
            == stable_sort(names.map_values(|n: Seq<char>| ranked(categories, n))),
{
    let items = names.map_values(|n: Seq<char>| ranked(categories, n));
    let output = stable_sort(items);
    stable_sort_is_permutation(items);
    assert forall|i: int| 0 <= i < output.len() implies #[trigger] output[i] == ranked(
        categories,
        output[i].name,
    ) by {
        broadcast use vstd::seq_lib::group_to_multiset_ensures;

        assert(output.contains(output[i]));
        assert(output.to_multiset().count(output[i]) > 0);
        assert(items.to_multiset().count(output[i]) > 0);
        assert(items.contains(output[i]));
    }
    assert(sorted_interfaces(categories, names).map_values(
        |n: Seq<char>| ranked(categories, n),
    ) =~= output);
}

/// Whether interfaces follow each other in order.
pub open spec fn in_order(categories: Map<Seq<char>, u8>, names: Seq<Seq<char>>) -> bool {
    forall|i: int, j: int|
        0 <= i < j < names.len() ==> rank_le(
            ranked(categories, #[trigger] names[i]),
            ranked(categories, #[trigger] names[j]),
        )
}

/// Interfaces that are listed follow each other in order: no later one has a
/// lower category, nor the same category and an earlier name.
pub proof fn listed_interfaces_are_sorted(
    categories: Map<Seq<char>, u8>,
    names: Seq<Seq<char>>,
)
    ensures
        in_order(categories, sorted_interfaces(categories, names)),
{
    let items = names.map_values(|n: Seq<char>| ranked(categories, n));
    let listed = sorted_interfaces(categories, names);
    let output = listed.map_values(|n: Seq<char>| ranked(categories, n));
    lemma_sorted_interfaces_ranked(categories, names);
    stable_sort_sorts(items);
    assert forall|i: int, j: int| 0 <= i < j < listed.len() implies rank_le(
        ranked(categories, #[trigger] listed[i]),
        ranked(categories, #[trigger] listed[j]),
    ) by {
        assert(rank_le(output[i], output[j]));
    }
}

/// The interfaces that are listed are those that were to be listed, each as
/// often as it was there.
pub proof fn listing_interfaces_only_reorders(
    categories: Map<Seq<char>, u8>,
    names: Seq<Seq<char>>,
)
    ensures
        sorted_interfaces(categories, names).len() == names.len(),
        sorted_interfaces(categories, names).to_multiset() == names.to_multiset(),
        forall|n: Seq<char>| #[trigger]
            sorted_interfaces(categories, names).contains(n) <==> names.contains(n),
        names.no_duplicates() ==> sorted_interfaces(categories, names).no_duplicates(),
{
    broadcast use vstd::seq_lib::group_to_multiset_ensures;

    let rank = |n: Seq<char>| ranked(categories, n);
    let items = names.map_values(rank);
    let listed = sorted_interfaces(categories, names);
    lemma_sorted_interfaces_ranked(categories, names);
    stable_sort_is_permutation(items);
    assert forall|n: Seq<char>| #[trigger]
        listed.to_multiset().count(n) == names.to_multiset().count(n) by {
        lemma_ranked_count(categories, names, n);
        lemma_ranked_count(categories, listed, n);
    }
    assert(listed.to_multiset() =~= names.to_multiset());
    assert(listed.len() == listed.to_multiset().len());
    assert(names.len() == names.to_multiset().len());
    assert forall|n: Seq<char>| #[trigger] listed.contains(n) <==> names.contains(n) by {
        assert(listed.to_multiset().count(n) == names.to_multiset().count(n));
    }
    if names.no_duplicates() {
        names.lemma_multiset_has_no_duplicates();
        listed.lemma_multiset_has_no_duplicates_conv();
    }
}

proof fn lemma_ranked_count(
    categories: Map<Seq<char>, u8>,
    names: Seq<Seq<char>>,
    n: Seq<char>,
)
    ensures
        names.map_values(|m: Seq<char>| ranked(categories, m)).to_multiset().count(
            ranked(categories, n),
        ) == names.to_multiset().count(n),
    decreases names.len(),
{
    broadcast use vstd::seq_lib::group_to_multiset_ensures;

    let rank = |m: Seq<char>| ranked(categories, m);
    if names.len() == 0 {
        assert(names.map_values(rank) =~= Seq::<RankedView>::empty());
    } else {
        let rest = names.drop_last();
        let last = names.last();
        lemma_ranked_count(categories, rest, n);
        assert(rest.push(last) =~= names);
        assert(rest.map_values(rank).push(rank(last)) =~= names.map_values(rank));
    }
}

/// A list with each run of one name cut to the first.
pub open spec fn without_repeats(names: Seq<Seq<char>>) -> Seq<Seq<char>>
    decreases names.len(),
{
    if names.len() < 2 {
        names
    } else if names.last() == names[names.len() - 2] {
        without_repeats(names.drop_last())
    } else {
        without_repeats(names.drop_last()).push(names.last())
    }
}

/// Cutting runs of one name drops no name altogether, and changes nothing in a
/// list where no name comes twice.
pub proof fn without_repeats_keeps_names(names: Seq<Seq<char>>)
    ensures
        forall|n: Seq<char>| #[trigger]
            without_repeats(names).contains(n) <==> names.contains(n),
        names.no_duplicates() ==> without_repeats(names) == names,
    decreases names.len(),
{
    if names.len() >= 2 {
        let rest = names.drop_last();
        let last = names.last();
        without_repeats_keeps_names(rest);
        assert(rest.push(last) =~= names);
        assert(rest[rest.len() - 1] == names[names.len() - 2]);
        assert forall|n: Seq<char>| #[trigger]
            without_repeats(names).contains(n) <==> names.contains(n) by {
            assert(rest.contains(rest[rest.len() - 1]));
            lemma_push_contains(rest, last, n);
            lemma_push_contains(without_repeats(rest), last, n);
            assert(without_repeats(rest).contains(n) <==> rest.contains(n));
        }
    }
}

/// Cutting runs of one name leaves no name next to itself, and what was in
/// order stays so.
pub proof fn without_repeats_separates(categories: Map<Seq<char>, u8>, names: Seq<Seq<char>>)
    ensures
        forall|i: int|
            0 < i < without_repeats(names).len() ==> #[trigger] without_repeats(names)[i]
                != without_repeats(names)[i - 1],
        in_order(categories, names) ==> in_order(categories, without_repeats(names)),
        names.len() > 0 ==> without_repeats(names).len() > 0 && without_repeats(names).last()
            == names.last(),
    decreases names.len(),
{
    if names.len() >= 2 {
        let rest = names.drop_last();
        let last = names.last();
        let cut = without_repeats(rest);
        without_repeats_separates(categories, rest);
        without_repeats_keeps_names(rest);
        assert(rest.last() == names[names.len() - 2]);
        if in_order(categories, names) {
            assert forall|i: int, j: int| 0 <= i < j < rest.len() implies rank_le(
                ranked(categories, #[trigger] rest[i]),
                ranked(categories, #[trigger] rest[j]),
            ) by {
                assert(rest[i] == names[i]);
                assert(rest[j] == names[j]);
            }
            let pushed = cut.push(last);
            assert forall|i: int, j: int| 0 <= i < j < pushed.len() implies rank_le(
                ranked(categories, #[trigger] pushed[i]),
                ranked(categories, #[trigger] pushed[j]),
            ) by {
                assert(cut.contains(cut[i]));
                assert(rest.contains(cut[i]));
                let k = choose|k: int| 0 <= k < rest.len() && rest[k] == cut[i];
                assert(names[k] == cut[i]);
                if j < cut.len() {
                    assert(pushed[j] == cut[j]);
                } else {
                    assert(rank_le(
                        ranked(categories, names[k]),
                        ranked(categories, names[names.len() - 1]),
                    ));
                }
            }
        }
    }
}

proof fn lemma_push_contains(names: Seq<Seq<char>>, last: Seq<char>, n: Seq<char>)
    ensures
        names.push(last).contains(n) <==> names.contains(n) || n == last,
{
    assert(names.push(last)[names.len() as int] == last);
    if names.contains(n) {
        let i = choose|i: int| 0 <= i < names.len() && names[i] == n;
        assert(names.push(last)[i] == n);
    }
}

/// The list with each run of one name cut to the first.
pub fn drop_repeats(names: &Vec<String>) -> (r: Vec<String>)
    ensures
        texts(r@) == without_repeats(texts(names@)),
{
    let mut r: Vec<String> = Vec::new();
    let mut i: usize = 0;
    let ghost all = texts(names@);
    assert(texts(r@) =~= all.take(0));
    while i < names.len()
        invariant
            i <= names@.len(),
            all == texts(names@),
            texts(r@) == without_repeats(all.take(i as int)),
        decreases names@.len() - i,
    {
        proof {
            assert(all.take(i + 1).drop_last() =~= all.take(i as int));
            assert(all.take(i + 1).last() == names@[i as int]@);
            assert(i > 0 ==> all.take(i + 1)[i - 1] == names@[i - 1]@);
        }
        let ghost before = texts(r@);
        if i == 0 || !same_text(&names[i], &names[i - 1]) {
            r.push(names[i].clone());
            assert(texts(r@) =~= before.push(names@[i as int]@));
            assert(i == 0 ==> texts(r@) =~= all.take(1));
        }
        i += 1;
    }
    assert(all.take(i as int) =~= all);
    r
}

/// An interface has the category that is known of it. Of one of which none is
/// known, the name tells: wired if one of the marks of that is in it, in lower
/// case, or else wireless if one of the marks of that is, or else another.
pub proof fn interfaces_are_told_by_category_or_name(
    categories: Map<Seq<char>, u8>,
    name: Seq<char>,
)
    ensures
        sort_key(categories, name).1 == lowercase(name),
        categories.contains_key(name) ==> sort_key(categories, name).0 == categories[name],
        !categories.contains_key(name) ==> ({
            let lower = lowercase(name);
            let wired = occurs("ethernet"@, lower) || occurs("lan"@, lower) || occurs("gbe"@, lower)
                || occurs("gigabit"@, lower);
            let wireless = occurs("wi-fi"@, lower) || occurs("wifi"@, lower) || occurs(
                "wlan"@,
                lower,
            ) || occurs("wireless"@, lower) || occurs("802.11"@, lower);
            let category = sort_key(categories, name).0;
            &&& wired ==> category == 0
            &&& !wired && wireless ==> category == 1
            &&& !wired && !wireless ==> category == 2
        }),
{
}

/// Of two interfaces in the list the earlier one has the lower category, or
/// the same category and a name that, in lower case, comes no later.
pub proof fn interfaces_are_listed_by_category_then_name(
    categories: Map<Seq<char>, u8>,
    names: Seq<Seq<char>>,
    i: int,
    j: int,
)
    requires
        0 <= i < j < sorted_interfaces(categories, names).len(),
    ensures
        ({
            let one = sort_key(categories, sorted_interfaces(categories, names)[i]);
            let other = sort_key(categories, sorted_interfaces(categories, names)[j]);
            one.0 < other.0 || (one.0 == other.0 && text_le(one.1, other.1))
        }),
{
    listed_interfaces_are_sorted(categories, names);
    let listed = sorted_interfaces(categories, names);
    assert(rank_le(ranked(categories, listed[i]), ranked(categories, listed[j])));
}

/// Interfaces that are ordered by the same keep the order that they had.
pub proof fn interfaces_of_one_rank_keep_their_order(
    categories: Map<Seq<char>, u8>,
    names: Seq<Seq<char>>,
    key: (u8, Seq<char>),
)
    ensures
        sorted_interfaces(categories, names).filter(
            |n: Seq<char>| sort_key(categories, n) == key,
        ) == names.filter(|n: Seq<char>| sort_key(categories, n) == key),
{
    let items = names.map_values(|n: Seq<char>| ranked(categories, n));
    let listed = sorted_interfaces(categories, names);
    lemma_sorted_interfaces_ranked(categories, names);
    stable_sort_sorts(items);
    assert(of_rank(stable_sort(items), key.0, key.1) == of_rank(items, key.0, key.1));
    lemma_names_of_rank(categories, names, key);
    lemma_names_of_rank(categories, listed, key);
}

proof fn lemma_names_of_rank(
    categories: Map<Seq<char>, u8>,
    names: Seq<Seq<char>>,
    key: (u8, Seq<char>),
)
    ensures
        names.filter(|n: Seq<char>| sort_key(categories, n) == key) == of_rank(
            names.map_values(|n: Seq<char>| ranked(categories, n)),
            key.0,
            key.1,
        ).map_values(|x: RankedView| x.name),
    decreases names.len(),
{
    reveal(Seq::filter);
    let pred = |n: Seq<char>| sort_key(categories, n) == key;
    let rank = |n: Seq<char>| ranked(categories, n);
    let name = |x: RankedView| x.name;
    if names.len() == 0 {
        assert(names.map_values(rank) =~= Seq::<RankedView>::empty());
        assert(names.filter(pred) =~= of_rank(names.map_values(rank), key.0, key.1).map_values(
            name,
        ));
    } else {
        let rest = names.drop_last();
        let last = names.last();
        lemma_names_of_rank(categories, rest, key);
        assert(names.map_values(rank) =~= rest.map_values(rank).push(rank(last)));
        lemma_of_rank_push(rest.map_values(rank), rank(last), key.0, key.1);
        let before = of_rank(rest.map_values(rank), key.0, key.1);
        assert(pred(last) <==> rank(last).category == key.0 && rank(last).lower == key.1);
        if pred(last) {
            assert(before.push(rank(last)).map_values(name) =~= before.map_values(name).push(last));
        }
    }
}

/// Runs of one name are cut one by one: where two lists meet in different
/// names, each is cut as if it stood alone, and a run of one name is cut to one.
pub proof fn runs_are_cut_one_by_one(
    one: Seq<Seq<char>>,
    other: Seq<Seq<char>>,
    name: Seq<char>,
    count: nat,
)
    ensures
        one.len() > 0 && other.len() > 0 && one.last() != other[0] ==> without_repeats(one + other)
            == without_repeats(one) + without_repeats(other),
        count > 0 ==> without_repeats(Seq::new(count, |i: int| name)) == seq![name],
    decreases other.len() + count,
{
    if one.len() > 0 && other.len() > 0 && one.last() != other[0] {
        let all = one + other;
        assert(all.last() == other.last());
        assert(all.drop_last() =~= one + other.drop_last());
        if other.len() == 1 {
            assert(all[all.len() - 2] == one.last());
            assert(one + other.drop_last() =~= one);
            assert(without_repeats(all) =~= without_repeats(one) + other);
        } else {
            assert(all[all.len() - 2] == other[other.len() - 2]);
            assert(other.drop_last()[0] == other[0]);
            runs_are_cut_one_by_one(one, other.drop_last(), name, 0);
            assert(without_repeats(all) =~= without_repeats(one) + without_repeats(other));
        }
    }
    if count > 0 {
        let run = Seq::new(count, |i: int| name);
        if count == 1 {
            assert(run =~= seq![name]);
        } else {
            let less = (count - 1) as nat;
            runs_are_cut_one_by_one(one, Seq::empty(), name, less);
            assert(run.drop_last() =~= Seq::new(less, |i: int| name));
        }
    }
}

} // verus!
