//! The sort engine: a stable ordering of the catalog by one field at a
//! time, ascending or descending.
//!
//! The executable sort is insertion sort, proved equal to the spec-level
//! `ssort`; stability is inherent in `sinsert`, which places a new element
//! after every element it does not strictly precede.

use vstd::prelude::*;
use vstd::multiset::Multiset;
use crate::picture::Picture;
use crate::text::{
    file_name_of, lex_le, lemma_lex_le_antisym, lemma_lex_le_total, lemma_lex_le_trans, str_le,
    str_eq,
};

verus! {

/// The field a sort compares.
#[derive(Debug, Clone, Copy, PartialEq, Eq, Structural, Default)]
pub enum SortType {
    #[default]
    Name,
    Weight,
    Created,
    Modified,
    Accessed,
}

/// Ascending or descending.
#[derive(Debug, Clone, Copy, PartialEq, Eq, Structural, Default)]
pub enum SortOrder {
    #[default]
    Asc,
    Desc,
}

/// The sort field a user's choice string selects; anything unknown
/// falls back to sorting by name.
pub open spec fn sort_type_of(s: Seq<char>) -> SortType {
    if s == "weight"@ {
        SortType::Weight
    } else if s == "created"@ {
        SortType::Created
    } else if s == "modified"@ {
        SortType::Modified
    } else if s == "accessed"@ {
        SortType::Accessed
    } else {
        SortType::Name
    }
}

impl From<String> for SortType {
    fn from(value: String) -> (r: Self) {
        if str_eq(value.as_str(), "weight") {
            SortType::Weight
        } else if str_eq(value.as_str(), "created") {
            SortType::Created
        } else if str_eq(value.as_str(), "modified") {
            SortType::Modified
        } else if str_eq(value.as_str(), "accessed") {
            SortType::Accessed
        } else {
            SortType::Name
        }
    }
}

impl vstd::std_specs::convert::FromSpecImpl<String> for SortType {
    open spec fn obeys_from_spec() -> bool {
        true
    }

    open spec fn from_spec(value: String) -> Self {
        sort_type_of(value@)
    }
}

/// The sort key taken from a picture for the Name field: its file name.
pub open spec fn pic_name(p: Picture) -> Seq<char> {
    file_name_of(p.path@)
}

/// Ordering of optional timestamps: missing sorts before present.
pub open spec fn opt_le(a: Option<u64>, b: Option<u64>) -> bool {
    match a {
        None => true,
        Some(x) => match b {
            None => false,
            Some(y) => x <= y,
        },
    }
}

/// The ascending comparator over one field.
pub open spec fn asc_le(f: SortType, a: Picture, b: Picture) -> bool {
    match f {
        SortType::Name => lex_le(pic_name(a), pic_name(b)),
        SortType::Weight => a.metadata.weight <= b.metadata.weight,
        SortType::Created => opt_le(a.metadata.created, b.metadata.created),
        SortType::Modified => opt_le(a.metadata.modified, b.metadata.modified),
        SortType::Accessed => opt_le(a.metadata.accessed, b.metadata.accessed),
    }
}

/// The comparator of a field and direction; descending mirrors ascending.
pub open spec fn le(f: SortType, o: SortOrder, a: Picture, b: Picture) -> bool {
    match o {
        SortOrder::Asc => asc_le(f, a, b),
        SortOrder::Desc => asc_le(f, b, a),
    }
}

/// Every comparator is total.
pub proof fn lemma_le_total(f: SortType, o: SortOrder, a: Picture, b: Picture)
    ensures
        le(f, o, a, b) || le(f, o, b, a),
{
    if f is Name {
        lemma_lex_le_total(pic_name(a), pic_name(b));
    }
}

/// Every comparator is transitive.
pub proof fn lemma_le_trans(f: SortType, o: SortOrder, a: Picture, b: Picture, c: Picture)
    requires
        le(f, o, a, b),
        le(f, o, b, c),
    ensures
        le(f, o, a, c),
{
    if f is Name {
        match o {
            SortOrder::Asc => lemma_lex_le_trans(pic_name(a), pic_name(b), pic_name(c)),
            SortOrder::Desc => lemma_lex_le_trans(pic_name(c), pic_name(b), pic_name(a)),
        }
    }
}

/// Ordering of optional timestamps, executably.
fn opt_le_exec(a: &Option<u64>, b: &Option<u64>) -> (r: bool)
    ensures
        r == opt_le(*a, *b),
{
    match a {
        None => true,
        Some(x) => match b {
            None => false,
            Some(y) => *x <= *y,
        },
    }
}

/// The ascending comparator, executably.
fn asc_le_exec(f: &SortType, a: &Picture, b: &Picture) -> (r: bool)
    ensures
        r == asc_le(*f, *a, *b),
{
    match f {
        SortType::Name => {
            let na = a.get_name();
            let nb = b.get_name();
            str_le(na.as_str(), nb.as_str())
        },
        SortType::Weight => a.metadata.weight <= b.metadata.weight,
        SortType::Created => opt_le_exec(&a.metadata.created, &b.metadata.created),
        SortType::Modified => opt_le_exec(&a.metadata.modified, &b.metadata.modified),
        SortType::Accessed => opt_le_exec(&a.metadata.accessed, &b.metadata.accessed),
    }
}

/// The chosen comparator, executably.
fn le_exec(f: &SortType, o: &SortOrder, a: &Picture, b: &Picture) -> (r: bool)
    ensures
        r == le(*f, *o, *a, *b),
{
    match o {
        SortOrder::Asc => asc_le_exec(f, a, b),
        SortOrder::Desc => asc_le_exec(f, b, a),
    }
}

/// `s` is sorted under the comparator of `f` and `o`.
pub open spec fn sorted_by(s: Seq<Picture>, f: SortType, o: SortOrder) -> bool {
    forall|i: int, j: int| 0 <= i < j < s.len() ==> le(f, o, s[i], s[j])
}

/// Stable insertion: `x` goes after every element that is `le` it, so a
/// newcomer lands after its ties.
pub open spec fn sinsert(s: Seq<Picture>, x: Picture, f: SortType, o: SortOrder) -> Seq<Picture>
    decreases s.len(),
{
    if s.len() == 0 {
        seq![x]
    } else if le(f, o, s.last(), x) {
        s.push(x)
    } else {
        sinsert(s.drop_last(), x, f, o).push(s.last())
    }
}

/// Stable insertion sort at the spec level: elements inserted in their
/// original order.
pub open spec fn ssort(s: Seq<Picture>, f: SortType, o: SortOrder) -> Seq<Picture>
    decreases s.len(),
{
    if s.len() == 0 {
        s
    } else {
        sinsert(ssort(s.drop_last(), f, o), s.last(), f, o)
    }
}

proof fn lemma_sinsert_len(s: Seq<Picture>, x: Picture, f: SortType, o: SortOrder)
    ensures
        sinsert(s, x, f, o).len() == s.len() + 1,
    decreases s.len(),
{
    if s.len() > 0 && !le(f, o, s.last(), x) {
        lemma_sinsert_len(s.drop_last(), x, f, o);
    }
}

/// Where the insertion lands: before the tail of elements that do not
/// precede `x`, after the last element that does.
proof fn lemma_sinsert_split(s: Seq<Picture>, x: Picture, f: SortType, o: SortOrder, i: int)
    requires
        0 <= i <= s.len(),
        forall|j: int| i <= j < s.len() ==> !le(f, o, s[j], x),
        i > 0 ==> le(f, o, s[i - 1], x),
    ensures
        sinsert(s, x, f, o) == s.take(i).push(x) + s.skip(i),
    decreases s.len(),
{
    if s.len() == 0 {
        assert(sinsert(s, x, f, o) =~= s.take(i).push(x) + s.skip(i));
    } else if i == s.len() {
        assert(le(f, o, s.last(), x));
        assert(sinsert(s, x, f, o) =~= s.take(i).push(x) + s.skip(i));
    } else {
        assert(!le(f, o, s.last(), x));
        lemma_sinsert_split(s.drop_last(), x, f, o, i);
        assert(sinsert(s, x, f, o) =~= s.take(i).push(x) + s.skip(i));
    }
}

/// An upper bound of `s` and of `x` bounds every element of the insertion.
proof fn lemma_sinsert_bound(
    s: Seq<Picture>,
    x: Picture,
    f: SortType,
    o: SortOrder,
    y: Picture,
)
    requires
        forall|k: int| 0 <= k < s.len() ==> le(f, o, #[trigger] s[k], y),
        le(f, o, x, y),
    ensures
        forall|k: int|
            0 <= k < sinsert(s, x, f, o).len() ==> le(f, o, #[trigger] sinsert(s, x, f, o)[k], y),
    decreases s.len(),
{
    let r = sinsert(s, x, f, o);
    if s.len() == 0 {
        assert forall|k: int| 0 <= k < r.len() implies le(f, o, r[k], y) by {
            assert(r[k] == x);
        }
    } else if le(f, o, s.last(), x) {
        assert forall|k: int| 0 <= k < r.len() implies le(f, o, r[k], y) by {
            if k < s.len() {
                assert(r[k] == s[k]);
            } else {
                assert(r[k] == x);
            }
        }
    } else {
        lemma_sinsert_bound(s.drop_last(), x, f, o, y);
        let r0 = sinsert(s.drop_last(), x, f, o);
        lemma_sinsert_len(s.drop_last(), x, f, o);
        assert forall|k: int| 0 <= k < r.len() implies le(f, o, r[k], y) by {
            if k < r0.len() {
                assert(r[k] == r0[k]);
            } else {
                assert(r[k] == s.last());
                assert(le(f, o, s[s.len() - 1], y));
            }
        }
    }
}

/// Insertion preserves sortedness.
proof fn lemma_sinsert_sorted(s: Seq<Picture>, x: Picture, f: SortType, o: SortOrder)
    requires
        sorted_by(s, f, o),
    ensures
        sorted_by(sinsert(s, x, f, o), f, o),
    decreases s.len(),
{
    if s.len() == 0 {
    } else if le(f, o, s.last(), x) {
        let r = s.push(x);
        assert forall|i: int, j: int| 0 <= i < j < r.len() implies le(f, o, r[i], r[j]) by {
            if j == r.len() - 1 {
                if i < s.len() - 1 {
                    lemma_le_trans(f, o, s[i], s.last(), x);
                }
            }
        }
    } else {
        assert(sorted_by(s.drop_last(), f, o));
        lemma_sinsert_sorted(s.drop_last(), x, f, o);
        lemma_le_total(f, o, s.last(), x);
        assert(le(f, o, x, s.last()));
        let r0 = sinsert(s.drop_last(), x, f, o);
        lemma_sinsert_bound(s.drop_last(), x, f, o, s.last());
        lemma_sinsert_len(s.drop_last(), x, f, o);
        let r = r0.push(s.last());
        assert forall|i: int, j: int| 0 <= i < j < r.len() implies le(f, o, r[i], r[j]) by {
            if j == r.len() - 1 {
                assert(le(f, o, r0[i], s.last()));
            }
        }
    }
}

/// The sort's result is sorted.
pub proof fn lemma_ssort_sorted(s: Seq<Picture>, f: SortType, o: SortOrder)
    ensures
        sorted_by(ssort(s, f, o), f, o),
    decreases s.len(),
{
    if s.len() > 0 {
        lemma_ssort_sorted(s.drop_last(), f, o);
        lemma_sinsert_sorted(ssort(s.drop_last(), f, o), s.last(), f, o);
    }
}

proof fn lemma_sinsert_multiset(s: Seq<Picture>, x: Picture, f: SortType, o: SortOrder)
    ensures
        sinsert(s, x, f, o).to_multiset() == s.to_multiset().insert(x),
    decreases s.len(),
{
    broadcast use vstd::seq_lib::group_to_multiset_ensures;

    if s.len() == 0 {
        assert(seq![x] =~= Seq::<Picture>::empty().push(x));
        assert(s.to_multiset() =~= Multiset::<Picture>::empty());
        assert(sinsert(s, x, f, o).to_multiset() =~= s.to_multiset().insert(x));
    } else if le(f, o, s.last(), x) {
    } else {
        lemma_sinsert_multiset(s.drop_last(), x, f, o);
        assert(s.drop_last().push(s.last()) =~= s);
        assert(sinsert(s.drop_last(), x, f, o).push(s.last()).to_multiset() =~= s.to_multiset()
            .insert(x));
    }
}

/// The sort permutes the catalog: same pictures, same multiplicities.
pub proof fn lemma_ssort_multiset(s: Seq<Picture>, f: SortType, o: SortOrder)
    ensures
        ssort(s, f, o).to_multiset() == s.to_multiset(),
    decreases s.len(),
{
    broadcast use vstd::seq_lib::group_to_multiset_ensures;

    if s.len() > 0 {
        lemma_ssort_multiset(s.drop_last(), f, o);
        lemma_sinsert_multiset(ssort(s.drop_last(), f, o), s.last(), f, o);
        assert(s.drop_last().push(s.last()) =~= s);
        assert(s.drop_last().to_multiset().insert(s.last()) =~= s.to_multiset());
    }
}

/// The sort neither adds nor loses pictures: membership is unchanged.
pub proof fn lemma_ssort_contains(s: Seq<Picture>, f: SortType, o: SortOrder)
    ensures
        forall|x: Picture| ssort(s, f, o).contains(x) <==> s.contains(x),
{
    broadcast use vstd::seq_lib::group_to_multiset_ensures;

    lemma_ssort_multiset(s, f, o);
    assert forall|x: Picture| ssort(s, f, o).contains(x) <==> s.contains(x) by {
        assert(ssort(s, f, o).contains(x) <==> ssort(s, f, o).to_multiset().count(x) > 0);
        assert(s.contains(x) <==> s.to_multiset().count(x) > 0);
    }
}

/// The sort does not move an already sorted catalog.
pub proof fn lemma_ssort_of_sorted(s: Seq<Picture>, f: SortType, o: SortOrder)
    requires
        sorted_by(s, f, o),
    ensures
        ssort(s, f, o) == s,
    decreases s.len(),
{
    if s.len() > 0 {
        assert(sorted_by(s.drop_last(), f, o));
        lemma_ssort_of_sorted(s.drop_last(), f, o);
        if s.len() > 1 {
            assert(le(f, o, s[s.len() - 2], s.last()));
        }
        assert(sinsert(s.drop_last(), s.last(), f, o) =~= s);
    }
}

/// Sorting twice by the same field and order equals sorting once.
pub proof fn lemma_sort_idempotent(s: Seq<Picture>, f: SortType, o: SortOrder)
    ensures
        ssort(ssort(s, f, o), f, o) == ssort(s, f, o),
{
    lemma_ssort_sorted(s, f, o);
    lemma_ssort_of_sorted(ssort(s, f, o), f, o);
}

/// No two pictures of `s` share a file name.
pub open spec fn distinct_names(s: Seq<Picture>) -> bool {
    forall|i: int, j: int| 0 <= i < j < s.len() ==> pic_name(s[i]) != pic_name(s[j])
}

/// Some picture of `s` has file name `n`.
pub open spec fn has_name(s: Seq<Picture>, n: Seq<char>) -> bool {
    exists|k: int| 0 <= k < s.len() && pic_name(s[k]) == n
}

proof fn lemma_sinsert_has_name(
    s: Seq<Picture>,
    x: Picture,
    f: SortType,
    o: SortOrder,
    n: Seq<char>,
)
    ensures
        has_name(sinsert(s, x, f, o), n) <==> (has_name(s, n) || pic_name(x) == n),
    decreases s.len(),
{
    let r = sinsert(s, x, f, o);
    lemma_sinsert_len(s, x, f, o);
    if s.len() == 0 {
        assert(r[0] == x);
        if has_name(r, n) {
            assert(pic_name(x) == n);
        }
    } else if le(f, o, s.last(), x) {
        if has_name(r, n) {
            let k = choose|k: int| 0 <= k < r.len() && pic_name(r[k]) == n;
            if k < s.len() {
                assert(r[k] == s[k]);
            } else {
                assert(r[k] == x);
            }
        }
        if has_name(s, n) {
            let k = choose|k: int| 0 <= k < s.len() && pic_name(s[k]) == n;
            assert(pic_name(r[k]) == n);
        }
        if pic_name(x) == n {
            assert(pic_name(r[s.len() as int]) == n);
        }
    } else {
        lemma_sinsert_has_name(s.drop_last(), x, f, o, n);
        let r0 = sinsert(s.drop_last(), x, f, o);
        lemma_sinsert_len(s.drop_last(), x, f, o);
        if has_name(r, n) {
            let k = choose|k: int| 0 <= k < r.len() && pic_name(r[k]) == n;
            if k < r0.len() {
                assert(r[k] == r0[k]);
                assert(has_name(r0, n));
            } else {
                assert(r[k] == s.last());
                assert(pic_name(s[s.len() - 1]) == n);
            }
        }
        if has_name(s, n) {
            let k = choose|k: int| 0 <= k < s.len() && pic_name(s[k]) == n;
            if k < s.len() - 1 {
                assert(pic_name(s.drop_last()[k]) == n);
                assert(has_name(r0, n));
                let m = choose|m: int| 0 <= m < r0.len() && pic_name(r0[m]) == n;
                assert(pic_name(r[m]) == n);
            } else {
                assert(pic_name(r[r.len() - 1]) == n);
            }
        }
        if pic_name(x) == n {
            assert(has_name(r0, n));
            let m = choose|m: int| 0 <= m < r0.len() && pic_name(r0[m]) == n;
            assert(pic_name(r[m]) == n);
        }
    }
}

proof fn lemma_sinsert_distinct(s: Seq<Picture>, x: Picture, f: SortType, o: SortOrder)
    requires
        distinct_names(s),
        !has_name(s, pic_name(x)),
    ensures
        distinct_names(sinsert(s, x, f, o)),
    decreases s.len(),
{
    let r = sinsert(s, x, f, o);
    lemma_sinsert_len(s, x, f, o);
    if s.len() == 0 {
    } else if le(f, o, s.last(), x) {
        assert forall|i: int, j: int| 0 <= i < j < r.len() implies pic_name(r[i]) != pic_name(
            r[j],
        ) by {
            if j == r.len() - 1 {
                assert(r[j] == x);
                assert(r[i] == s[i]);
                if pic_name(s[i]) == pic_name(x) {
                    assert(has_name(s, pic_name(x)));
                }
            } else {
                assert(r[i] == s[i] && r[j] == s[j]);
            }
        }
    } else {
        assert(distinct_names(s.drop_last()));
        assert forall|k: int| 0 <= k < s.drop_last().len() implies pic_name(s.drop_last()[k])
            != pic_name(x) by {
            if pic_name(s[k]) == pic_name(x) {
                assert(has_name(s, pic_name(x)));
            }
        }
        assert(!has_name(s.drop_last(), pic_name(x)));
        lemma_sinsert_distinct(s.drop_last(), x, f, o);
        let r0 = sinsert(s.drop_last(), x, f, o);
        lemma_sinsert_len(s.drop_last(), x, f, o);
        assert forall|i: int, j: int| 0 <= i < j < r.len() implies pic_name(r[i]) != pic_name(
            r[j],
        ) by {
            if j == r.len() - 1 {
                assert(r[j] == s.last());
                assert(r[i] == r0[i]);
                lemma_sinsert_has_name(s.drop_last(), x, f, o, pic_name(r0[i]));
                assert(has_name(r0, pic_name(r0[i])));
                if pic_name(r0[i]) == pic_name(s.last()) {
                    if has_name(s.drop_last(), pic_name(r0[i])) {
                        let m = choose|m: int|
                            0 <= m < s.drop_last().len() && pic_name(s.drop_last()[m])
                                == pic_name(r0[i]);
                        assert(pic_name(s[m]) == pic_name(s[s.len() - 1]));
                    } else {
                        assert(pic_name(x) == pic_name(s.last()));
                        assert(has_name(s, pic_name(x)));
                    }
                }
            } else {
                assert(r[i] == r0[i] && r[j] == r0[j]);
            }
        }
    }
}

proof fn lemma_ssort_has_name(s: Seq<Picture>, f: SortType, o: SortOrder, n: Seq<char>)
    ensures
        has_name(ssort(s, f, o), n) <==> has_name(s, n),
    decreases s.len(),
{
    if s.len() > 0 {
        lemma_ssort_has_name(s.drop_last(), f, o, n);
        lemma_sinsert_has_name(ssort(s.drop_last(), f, o), s.last(), f, o, n);
        if has_name(s.drop_last(), n) {
            let k = choose|k: int| 0 <= k < s.drop_last().len() && pic_name(s.drop_last()[k]) == n;
            assert(pic_name(s[k]) == n);
        }
        if pic_name(s.last()) == n {
            assert(pic_name(s[s.len() - 1]) == n);
        }
        if has_name(s, n) && !has_name(s.drop_last(), n) && pic_name(s.last()) != n {
            let k = choose|k: int| 0 <= k < s.len() && pic_name(s[k]) == n;
            assert(pic_name(s.drop_last()[k]) == n);
        }
    }
}

/// The sort keeps names pairwise distinct.
pub proof fn lemma_ssort_distinct(s: Seq<Picture>, f: SortType, o: SortOrder)
    requires
        distinct_names(s),
    ensures
        distinct_names(ssort(s, f, o)),
    decreases s.len(),
{
    if s.len() > 0 {
        assert(distinct_names(s.drop_last()));
        lemma_ssort_distinct(s.drop_last(), f, o);
        lemma_ssort_has_name(s.drop_last(), f, o, pic_name(s.last()));
        if has_name(s.drop_last(), pic_name(s.last())) {
            let k = choose|k: int|
                0 <= k < s.drop_last().len() && pic_name(s.drop_last()[k]) == pic_name(s.last());
            assert(pic_name(s[k]) == pic_name(s[s.len() - 1]));
        }
        lemma_sinsert_distinct(ssort(s.drop_last(), f, o), s.last(), f, o);
    }
}

/// When no element of `s` precedes `x`, the insertion puts `x` first.
proof fn lemma_sinsert_front(s: Seq<Picture>, x: Picture, f: SortType, o: SortOrder)
    requires
        forall|k: int| 0 <= k < s.len() ==> !le(f, o, #[trigger] s[k], x),
    ensures
        sinsert(s, x, f, o) == seq![x] + s,
    decreases s.len(),
{
    if s.len() == 0 {
        assert(sinsert(s, x, f, o) =~= seq![x] + s);
    } else {
        assert(!le(f, o, s[s.len() - 1], x));
        lemma_sinsert_front(s.drop_last(), x, f, o);
        assert(sinsert(s, x, f, o) =~= seq![x] + s);
    }
}

/// Sorting a strictly ascending catalog by name descending reverses it.
proof fn lemma_desc_of_strict(t: Seq<Picture>)
    requires
        sorted_by(t, SortType::Name, SortOrder::Asc),
        distinct_names(t),
    ensures
        ssort(t, SortType::Name, SortOrder::Desc) == t.reverse(),
    decreases t.len(),
{
    let f = SortType::Name;
    let o = SortOrder::Desc;
    if t.len() == 0 {
        assert(ssort(t, f, o) =~= t.reverse());
    } else {
        let dl = t.drop_last();
        assert(sorted_by(dl, SortType::Name, SortOrder::Asc));
        assert(distinct_names(dl));
        lemma_desc_of_strict(dl);
        assert forall|k: int| 0 <= k < dl.reverse().len() implies !le(
            f,
            o,
            #[trigger] dl.reverse()[k],
            t.last(),
        ) by {
            let e = dl.reverse()[k];
            let m = dl.len() - 1 - k;
            assert(e == dl[m]);
            assert(le(SortType::Name, SortOrder::Asc, t[m], t[t.len() - 1]));
            assert(pic_name(t[m]) != pic_name(t[t.len() - 1]));
            if le(f, o, e, t.last()) {
                lemma_lex_le_antisym(pic_name(t[m]), pic_name(t.last()));
            }
        }
        lemma_sinsert_front(dl.reverse(), t.last(), f, o);
        assert(ssort(t, f, o) =~= t.reverse());
    }
}

/// Sorting by name ascending and then descending reverses the ascending
/// order exactly, provided no two pictures share a name.
pub proof fn lemma_sort_name_asc_then_desc(s: Seq<Picture>)
    requires
        distinct_names(s),
    ensures
        ssort(ssort(s, SortType::Name, SortOrder::Asc), SortType::Name, SortOrder::Desc) == ssort(
            s,
            SortType::Name,
            SortOrder::Asc,
        ).reverse(),
{
    let t = ssort(s, SortType::Name, SortOrder::Asc);
    lemma_ssort_sorted(s, SortType::Name, SortOrder::Asc);
    lemma_ssort_distinct(s, SortType::Name, SortOrder::Asc);
    lemma_desc_of_strict(t);
}

/// Insert `x` into the sorted vector at its stable position.
fn insert_sorted(v: &mut Vec<Picture>, x: Picture, f: &SortType, o: &SortOrder)
    ensures
        final(v)@ == sinsert(old(v)@, x, *f, *o),
{
    let ghost s = v@;
    let mut i: usize = v.len();
    while i > 0 && !le_exec(f, o, &v[i - 1], &x)
        invariant
            v@ == s,
            i <= s.len(),
            forall|j: int| i <= j < s.len() ==> !le(*f, *o, #[trigger] s[j], x),
        decreases i,
    {
        i = i - 1;
    }
    proof {
        lemma_sinsert_split(s, x, *f, *o, i as int);
        assert(s.take(i as int).push(x) + s.skip(i as int) =~= s.insert(i as int, x));
    }
    v.insert(i, x);
}

/// The user's sort choice: one field, one direction.
#[derive(Debug, Clone, Copy, PartialEq, Eq, Structural)]
pub struct Sort {
    pub field: SortType,
    pub order: SortOrder,
}

impl Default for Sort {
    /// By name, ascending.
    fn default() -> (r: Self)
        ensures
            r.field == SortType::Name,
            r.order == SortOrder::Asc,
    {
        Sort { field: SortType::Name, order: SortOrder::Asc }
    }
}

impl Sort {
    /// Stable-sort the catalog by this field and direction.
    pub fn apply(&self, pictures: &mut Vec<Picture>)
        ensures
            final(pictures)@ == ssort(old(pictures)@, self.field, self.order),
    {
        let ghost orig = pictures@;
        let mut done: Vec<Picture> = Vec::new();
        proof {
            assert(orig.take(0) =~= ssort(orig.take(0), self.field, self.order));
        }
        while pictures.len() > 0
            invariant
                pictures@.len() <= orig.len(),
                pictures@ == orig.skip(orig.len() - pictures@.len()),
                done@ == ssort(
                    orig.take(orig.len() - pictures@.len()),
                    self.field,
                    self.order,
                ),
            decreases pictures@.len(),
        {
            let ghost k: int = orig.len() - pictures@.len();
            proof {
                assert(pictures@ == orig.skip(k));
                assert(orig.skip(k)[0] == orig[k]);
            }
            let p = pictures.remove(0);
            proof {
                assert(p == orig[k]);
                assert(orig.skip(k).remove(0) =~= orig.skip(k + 1));
            }
            insert_sorted(&mut done, p, &self.field, &self.order);
            proof {
                assert(orig.take(k + 1).drop_last() =~= orig.take(k));
                assert(orig.take(k + 1).last() == orig[k]);
            }
        }
        proof {
            assert(orig.take(orig.len() as int) =~= orig);
        }
        *pictures = done;
    }

    /// Choose the sort field from a user string.
    pub fn set_field(&mut self, value: String)
        ensures
            final(self).field == sort_type_of(value@),
            final(self).order == old(self).order,
    {
        self.field = SortType::from(value);
    }

    /// Flip the direction.
    pub fn set_order(&mut self)
        ensures
            final(self).field == old(self).field,
            final(self).order == (if old(self).order is Asc {
                SortOrder::Desc
            } else {
                SortOrder::Asc
            }),
    {
        self.order = if self.order == SortOrder::Asc {
            SortOrder::Desc
        } else {
            SortOrder::Asc
        };
    }
}

} // verus!
