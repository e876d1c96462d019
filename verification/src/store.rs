//! The ownership store and the merge producing the final view.
//!
//! The store is a persisted table of (identifier, owner) records, read
//! through one shared database connection. A lookup is a single batched
//! query over a set of identifiers; an empty input set returns an empty
//! result without touching the store at all.
//!
//! The rows the engine returns carry no order of their own. The verified
//! merge pairs every discovered identifier with the first row recorded for
//! it (or an absent marker) and sorts the result by the fixed rule: absent
//! owner first, then owners ascending, ties broken by identifier, all
//! lexicographically by code point.
use vstd::prelude::*;

verus! {

broadcast use {vstd::seq_lib::group_to_multiset_ensures, vstd::multiset::group_multiset_axioms};

/// One row of the merged view: a device identifier and the owner recorded
/// for it, if any.
#[derive(Debug, PartialEq)]
pub struct Item {
    pub mac: String,
    pub owner: Option<String>,
}

impl View for Item {
    type V = (Seq<char>, Option<Seq<char>>);

    open spec fn view(&self) -> (Seq<char>, Option<Seq<char>>) {
        (self.mac@, self.owner.deep_view())
    }
}

impl DeepView for Item {
    type V = (Seq<char>, Option<Seq<char>>);

    open spec fn deep_view(&self) -> (Seq<char>, Option<Seq<char>>) {
        self@
    }
}

/// Failure of the persistence engine during a lookup.
#[derive(Debug, PartialEq, Eq)]
pub struct StoreError;

/// Strict lexicographic order on character sequences, by code point.
pub open spec fn lex_lt(a: Seq<char>, b: Seq<char>) -> bool
    decreases a.len(),
{
    if b.len() == 0 {
        false
    } else if a.len() == 0 {
        true
    } else if a[0] == b[0] {
        lex_lt(a.drop_first(), b.drop_first())
    } else {
        (a[0] as int) < (b[0] as int)
    }
}

/// Lexicographic order, allowing equality.
pub open spec fn lex_le(a: Seq<char>, b: Seq<char>) -> bool {
    lex_lt(a, b) || a == b
}

/// Strict order on owner labels: an absent owner sorts before any named
/// owner; named owners sort lexicographically.
pub open spec fn owner_lt(a: Option<Seq<char>>, b: Option<Seq<char>>) -> bool {
    match (a, b) {
        (Option::None, Option::Some(_)) => true,
        (Option::Some(x), Option::Some(y)) => lex_lt(x, y),
        _ => false,
    }
}

/// The fixed result order: by owner label first (absent before named,
/// named ascending), ties broken by identifier ascending.
pub open spec fn item_le(
    a: (Seq<char>, Option<Seq<char>>),
    b: (Seq<char>, Option<Seq<char>>),
) -> bool {
    owner_lt(a.1, b.1) || (a.1 == b.1 && lex_le(a.0, b.0))
}

/// The sequence stands in the fixed result order.
pub open spec fn sorted_items(s: Seq<(Seq<char>, Option<Seq<char>>)>) -> bool {
    forall|i: int| 0 <= i && i + 1 < s.len() ==> item_le(#[trigger] s[i], s[i + 1])
}

/// Inserts `x` into the sorted sequence `s`, before the first element it
/// precedes or equals.
pub open spec fn insert_sorted(
    x: (Seq<char>, Option<Seq<char>>),
    s: Seq<(Seq<char>, Option<Seq<char>>)>,
) -> Seq<(Seq<char>, Option<Seq<char>>)>
    decreases s.len(),
{
    if s.len() == 0 {
        seq![x]
    } else if item_le(x, s[0]) {
        seq![x] + s
    } else {
        seq![s[0]] + insert_sorted(x, s.drop_first())
    }
}

/// The unique stable insertion sort of `s` under the fixed result order.
pub open spec fn sort_spec(s: Seq<(Seq<char>, Option<Seq<char>>)>) -> Seq<
    (Seq<char>, Option<Seq<char>>),
>
    decreases s.len(),
{
    if s.len() == 0 {
        Seq::empty()
    } else {
        insert_sorted(s[0], sort_spec(s.drop_first()))
    }
}

/// The owner of the first row recorded for `id`, or `None` when no row is.
pub open spec fn first_owner(
    rows: Seq<(Seq<char>, Option<Seq<char>>)>,
    id: Seq<char>,
) -> Option<Seq<char>>
    decreases rows.len(),
{
    if rows.len() == 0 {
        Option::None
    } else if rows[0].0 == id {
        rows[0].1
    } else {
        first_owner(rows.drop_first(), id)
    }
}

/// Pairs every identifier with the owner the rows record for it, in the
/// identifiers' own order.
pub open spec fn annotate_spec(
    ids: Seq<Seq<char>>,
    rows: Seq<(Seq<char>, Option<Seq<char>>)>,
) -> Seq<(Seq<char>, Option<Seq<char>>)> {
    Seq::new(ids.len(), |i: int| (ids[i], first_owner(rows, ids[i])))
}

/// The merged, owner-annotated view of the discovered identifiers, in the
/// fixed result order.
pub open spec fn discovery_of(
    ids: Seq<Seq<char>>,
    rows: Seq<(Seq<char>, Option<Seq<char>>)>,
) -> Seq<(Seq<char>, Option<Seq<char>>)> {
    sort_spec(annotate_spec(ids, rows))
}

/// The identifiers of the items, in order.
pub open spec fn macs_of(s: Seq<(Seq<char>, Option<Seq<char>>)>) -> Seq<Seq<char>> {
    Seq::new(s.len(), |i: int| s[i].0)
}

/// No identifier occurs twice among the rows.
pub open spec fn unique_macs(rows: Seq<(Seq<char>, Option<Seq<char>>)>) -> bool {
    forall|i: int, j: int| 0 <= i < j < rows.len() ==> rows[i].0 != rows[j].0
}

fn lex_lt_exec(a: &str, b: &str) -> (r: bool)
    ensures
        r == lex_lt(a@, b@),
{
    let na = a.unicode_len();
    let nb = b.unicode_len();
    proof {
        assert(a@.skip(0) =~= a@);
        assert(b@.skip(0) =~= b@);
    }
    let mut i: usize = 0;
    loop
        invariant
            i <= na,
            i <= nb,
            na == a@.len(),
            nb == b@.len(),
            lex_lt(a@, b@) == lex_lt(a@.skip(i as int), b@.skip(i as int)),
        decreases na - i,
    {
        if i == nb {
            return false;
        }
        if i == na {
            return true;
        }
        let ca = a.get_char(i);
        let cb = b.get_char(i);
        proof {
            assert(a@.skip(i as int)[0] == a@[i as int]);
            assert(b@.skip(i as int)[0] == b@[i as int]);
        }
        if ca != cb {
            return ca < cb;
        }
        proof {
            assert(a@.skip(i as int).drop_first() =~= a@.skip(i + 1));
            assert(b@.skip(i as int).drop_first() =~= b@.skip(i + 1));
        }
        i += 1;
    }
}

fn lex_le_exec(a: &str, b: &str) -> (r: bool)
    ensures
        r == lex_le(a@, b@),
{
    let na = a.unicode_len();
    let nb = b.unicode_len();
    proof {
        assert(a@.skip(0) =~= a@);
        assert(b@.skip(0) =~= b@);
    }
    let mut i: usize = 0;
    loop
        invariant
            i <= na,
            i <= nb,
            na == a@.len(),
            nb == b@.len(),
            forall|j: int| 0 <= j < i ==> a@[j] == b@[j],
            lex_lt(a@, b@) == lex_lt(a@.skip(i as int), b@.skip(i as int)),
        decreases na - i,
    {
        if i == na && i == nb {
            proof {
                assert(a@ =~= b@);
            }
            return true;
        }
        if i == nb {
            return false;
        }
        if i == na {
            return true;
        }
        let ca = a.get_char(i);
        let cb = b.get_char(i);
        proof {
            assert(a@.skip(i as int)[0] == a@[i as int]);
            assert(b@.skip(i as int)[0] == b@[i as int]);
        }
        if ca != cb {
            return ca < cb;
        }
        proof {
            assert(a@.skip(i as int).drop_first() =~= a@.skip(i + 1));
            assert(b@.skip(i as int).drop_first() =~= b@.skip(i + 1));
        }
        i += 1;
    }
}

fn item_le_exec(a: &Item, b: &Item) -> (r: bool)
    ensures
        r == item_le(a@, b@),
{
    match (&a.owner, &b.owner) {
        (Option::None, Option::None) => lex_le_exec(a.mac.as_str(), b.mac.as_str()),
        (Option::None, Option::Some(_)) => true,
        (Option::Some(_), Option::None) => false,
        (Option::Some(x), Option::Some(y)) => {
            if lex_lt_exec(x.as_str(), y.as_str()) {
                true
            } else if *x == *y {
                lex_le_exec(a.mac.as_str(), b.mac.as_str())
            } else {
                false
            }
        },
    }
}

fn clone_owner(o: &Option<String>) -> (r: Option<String>)
    ensures
        r.deep_view() == o.deep_view(),
{
    match o {
        Option::Some(s) => Option::Some(s.clone()),
        Option::None => Option::None,
    }
}

fn lookup_owner(rows: &Vec<Item>, id: &String) -> (o: Option<String>)
    ensures
        o.deep_view() == first_owner(rows.deep_view(), id@),
{
    let n = rows.len();
    proof {
        assert(rows.deep_view().skip(0) =~= rows.deep_view());
    }
    let mut j: usize = 0;
    loop
        invariant
            j <= n,
            n == rows@.len(),
            first_owner(rows.deep_view(), id@) == first_owner(
                rows.deep_view().skip(j as int),
                id@,
            ),
        decreases n - j,
    {
        if j == n {
            return Option::None;
        }
        proof {
            assert(rows.deep_view().skip(j as int)[0] == rows.deep_view()[j as int]);
            assert(rows.deep_view()[j as int] == rows@[j as int].deep_view());
        }
        if rows[j].mac == *id {
            return clone_owner(&rows[j].owner);
        }
        proof {
            assert(rows.deep_view().skip(j as int).drop_first() =~= rows.deep_view().skip(
                j + 1,
            ));
        }
        j += 1;
    }
}

fn annotate(ids: &[String], rows: &Vec<Item>) -> (r: Vec<Item>)
    ensures
        r.deep_view() == annotate_spec(ids.deep_view(), rows.deep_view()),
{
    let n = ids.len();
    let mut r: Vec<Item> = Vec::new();
    let mut i: usize = 0;
    while i < n
        invariant
            i <= n,
            n == ids@.len(),
            r@.len() == i,
            forall|k: int|
                0 <= k < i ==> r.deep_view()[k] == (
                    ids.deep_view()[k],
                    first_owner(rows.deep_view(), ids.deep_view()[k]),
                ),
        decreases n - i,
    {
        let owner = lookup_owner(rows, &ids[i]);
        let item = Item { mac: ids[i].clone(), owner };
        let ghost pre_vec = r@;
        let ghost pre_dv = r.deep_view();
        let ghost itemv = item@;
        r.push(item);
        proof {
            assert(itemv == (ids.deep_view()[i as int], first_owner(
                rows.deep_view(),
                ids.deep_view()[i as int],
            )));
            assert forall|k: int| 0 <= k < i + 1 implies r.deep_view()[k] == (
                ids.deep_view()[k],
                first_owner(rows.deep_view(), ids.deep_view()[k]),
            ) by {
                if k < i as int {
                    assert(r@[k] == pre_vec[k]);
                    assert(pre_dv[k] == pre_vec[k].deep_view());
                } else {
                    assert(r@[k].deep_view() == itemv);
                }
            }
        }
        i += 1;
    }
    proof {
        assert(r.deep_view() =~= annotate_spec(ids.deep_view(), rows.deep_view()));
    }
    r
}

proof fn lemma_insert_sorted_at(
    x: (Seq<char>, Option<Seq<char>>),
    s: Seq<(Seq<char>, Option<Seq<char>>)>,
    j: int,
)
    requires
        0 <= j <= s.len(),
        forall|k: int| 0 <= k < j ==> !item_le(x, s[k]),
        j < s.len() ==> item_le(x, s[j]),
    ensures
        insert_sorted(x, s) == s.insert(j, x),
    decreases j,
{
    if j == 0 {
        if s.len() == 0 {
            assert(insert_sorted(x, s) =~= s.insert(0, x));
        } else {
            assert(insert_sorted(x, s) =~= s.insert(0, x));
        }
    } else {
        assert(!item_le(x, s[0]));
        lemma_insert_sorted_at(x, s.drop_first(), j - 1);
        assert(seq![s[0]] + s.drop_first().insert(j - 1, x) =~= s.insert(j, x));
    }
}

fn insert_item(v: &mut Vec<Item>, x: Item)
    ensures
        final(v).deep_view() == insert_sorted(x@, old(v).deep_view()),
{
    let n = v.len();
    let mut j: usize = 0;
    while j < n && !item_le_exec(&x, &v[j])
        invariant
            j <= n,
            n == v@.len(),
            v@ == old(v)@,
            forall|k: int| 0 <= k < j ==> !item_le(x@, v.deep_view()[k]),
        decreases n - j,
    {
        j += 1;
    }
    proof {
        assert(j < n ==> item_le(x@, v.deep_view()[j as int]));
        lemma_insert_sorted_at(x@, v.deep_view(), j as int);
    }
    let ghost pre = v.deep_view();
    let ghost pre_vec = v@;
    let ghost xv = x@;
    v.insert(j, x);
    proof {
        assert forall|m: int| 0 <= m < v@.len() implies v.deep_view()[m] == pre.insert(
            j as int,
            xv,
        )[m] by {
            assert(v.deep_view()[m] == v@[m].deep_view());
            if m < j as int {
                assert(v@[m] == pre_vec[m]);
                assert(pre[m] == pre_vec[m].deep_view());
            } else if m == j as int {
                assert(v@[m].deep_view() == xv);
            } else {
                assert(v@[m] == pre_vec[m - 1]);
                assert(pre[m - 1] == pre_vec[m - 1].deep_view());
            }
        }
        assert(v.deep_view() =~= pre.insert(j as int, xv));
    }
}

fn sort_items(items: &mut Vec<Item>) -> (r: Vec<Item>)
    ensures
        r.deep_view() == sort_spec(old(items).deep_view()),
{
    let ghost s0 = old(items).deep_view();
    let mut r: Vec<Item> = Vec::new();
    loop
        invariant
            s0 == old(items).deep_view(),
            items@.len() <= s0.len(),
            items.deep_view() =~= s0.take(items@.len() as int),
            r.deep_view() =~= sort_spec(s0.skip(items@.len() as int)),
        decreases items@.len(),
    {
        let ghost k = items@.len() as int;
        if items.len() == 0 {
            proof {
                assert(s0.skip(0) =~= s0);
            }
            return r;
        }
        let ghost pre_vec = items@;
        let ghost pre_dv = items.deep_view();
        let x = match items.pop() {
            Option::Some(x) => x,
            Option::None => {
                return r;  // unreachable: the vector is non-empty
            },
        };
        proof {
            assert(x.deep_view() == pre_dv[k - 1]);
            assert(pre_dv[k - 1] == s0.take(k)[k - 1]);
            assert(s0.take(k)[k - 1] == s0[k - 1]);
            assert forall|m: int| 0 <= m < k - 1 implies items.deep_view()[m] == s0.take(k - 1)[m] by {
                assert(items@[m] == pre_vec[m]);
                assert(items.deep_view()[m] == items@[m].deep_view());
                assert(pre_dv[m] == pre_vec[m].deep_view());
                assert(pre_dv[m] == s0.take(k)[m]);
                assert(s0.take(k)[m] == s0[m]);
            }
            assert(items.deep_view() =~= s0.take(k - 1));
            assert(x.deep_view() == s0[k - 1]);
        }
        insert_item(&mut r, x);
        proof {
            assert(s0.skip(k - 1).drop_first() =~= s0.skip(k));
            assert(s0.skip(k - 1)[0] == s0[k - 1]);
            assert(r.deep_view() =~= sort_spec(s0.skip(k - 1)));
        }
    }
}

/// Joins every discovered identifier with the owner the given rows record
/// for it and returns the merged view in the fixed result order. Takes the
/// store's raw rows as an argument, so it holds for whatever the engine
/// returned.
pub fn annotate_and_sort(ids: &[String], rows: &Vec<Item>) -> (r: Vec<Item>)
    ensures
        r.deep_view() == discovery_of(ids.deep_view(), rows.deep_view()),
{
    let mut annotated = annotate(ids, rows);
    sort_items(&mut annotated)
}

/// Law: the lexicographic order is total.
pub proof fn lemma_lex_total(a: Seq<char>, b: Seq<char>)
    ensures
        lex_lt(a, b) || lex_lt(b, a) || a == b,
    decreases a.len(),
{
    if a.len() == 0 || b.len() == 0 {
        if a.len() == 0 && b.len() == 0 {
            assert(a =~= b);
        }
    } else if a[0] == b[0] {
        lemma_lex_total(a.drop_first(), b.drop_first());
        if a.drop_first() == b.drop_first() {
            assert(a.drop_first().len() == a.len() - 1);
            assert(b.drop_first().len() == b.len() - 1);
            assert forall|i: int| 0 <= i < a.len() implies a[i] == b[i] by {
                if i > 0 {
                    assert(a.drop_first()[i - 1] == a[i]);
                    assert(b.drop_first()[i - 1] == b[i]);
                }
            }
            assert(a =~= b);
        }
    }
}

/// Law: the fixed result order is total.
pub proof fn lemma_item_le_total(a: (Seq<char>, Option<Seq<char>>), b: (Seq<char>, Option<Seq<char>>))
    ensures
        item_le(a, b) || item_le(b, a),
{
    match (a.1, b.1) {
        (Option::Some(x), Option::Some(y)) => {
            lemma_lex_total(x, y);
            lemma_lex_total(a.0, b.0);
        },
        (Option::None, Option::None) => {
            lemma_lex_total(a.0, b.0);
        },
        _ => {},
    }
}

proof fn lemma_insert_sorted_head(x: (Seq<char>, Option<Seq<char>>), s: Seq<(Seq<char>, Option<Seq<char>>)>)
    ensures
        insert_sorted(x, s).len() == s.len() + 1,
        insert_sorted(x, s)[0] == x || (s.len() > 0 && insert_sorted(x, s)[0] == s[0]),
    decreases s.len(),
{
    if s.len() > 0 && !item_le(x, s[0]) {
        lemma_insert_sorted_head(x, s.drop_first());
    }
}

proof fn lemma_insert_sorted_sorted(x: (Seq<char>, Option<Seq<char>>), s: Seq<(Seq<char>, Option<Seq<char>>)>)
    requires
        sorted_items(s),
    ensures
        sorted_items(insert_sorted(x, s)),
    decreases s.len(),
{
    if s.len() == 0 {
    } else if item_le(x, s[0]) {
        let t = seq![x] + s;
        assert(seq![x].len() == 1);
        assert(t.len() == s.len() + 1);
        assert forall|i: int| 0 <= i && i + 1 < t.len() implies item_le(#[trigger] t[i], t[i + 1]) by {
            if i > 0 {
                assert(t[i] == s[i - 1]);
                assert(t[i + 1] == s[i]);
            }
        }
    } else {
        assert(s.drop_first().len() == s.len() - 1);
        assert(sorted_items(s.drop_first())) by {
            assert forall|i: int| 0 <= i && i + 1 < s.drop_first().len() implies item_le(
                #[trigger] s.drop_first()[i],
                s.drop_first()[i + 1],
            ) by {
                assert(s.drop_first()[i] == s[i + 1]);
                assert(s.drop_first()[i + 1] == s[i + 2]);
            }
        }
        lemma_insert_sorted_sorted(x, s.drop_first());
        lemma_insert_sorted_head(x, s.drop_first());
        lemma_item_le_total(x, s[0]);
        let rec = insert_sorted(x, s.drop_first());
        let t = seq![s[0]] + rec;
        assert(seq![s[0]].len() == 1);
        assert(rec.len() == s.len());
        assert(t.len() == s.len() + 1);
        assert forall|i: int| 0 <= i && i + 1 < t.len() implies item_le(#[trigger] t[i], t[i + 1]) by {
            if i == 0 {
                assert(t[1] == rec[0]);
                if rec[0] == x {
                } else {
                    assert(rec[0] == s.drop_first()[0]);
                    assert(s.drop_first()[0] == s[1]);
                }
            } else {
                assert(t[i] == rec[i - 1]);
                assert(t[i + 1] == rec[i]);
            }
        }
    }
}

proof fn lemma_insert_sorted_multiset(x: (Seq<char>, Option<Seq<char>>), s: Seq<(Seq<char>, Option<Seq<char>>)>)
    ensures
        insert_sorted(x, s).to_multiset() == s.to_multiset().insert(x),
    decreases s.len(),
{
    vstd::seq_lib::lemma_multiset_commutative(seq![x], s);
    if s.len() == 0 {
        assert(seq![x] =~= Seq::<(Seq<char>, Option<Seq<char>>)>::empty().push(x));
        assert(insert_sorted(x, s).to_multiset() =~= s.to_multiset().insert(x));
    } else if item_le(x, s[0]) {
        assert(seq![x] =~= Seq::<(Seq<char>, Option<Seq<char>>)>::empty().push(x));
        assert((seq![x] + s).to_multiset() =~= s.to_multiset().insert(x));
    } else {
        lemma_insert_sorted_multiset(x, s.drop_first());
        let rec = insert_sorted(x, s.drop_first());
        vstd::seq_lib::lemma_multiset_commutative(seq![s[0]], rec);
        vstd::seq_lib::lemma_multiset_commutative(seq![s[0]], s.drop_first());
        assert(s =~= seq![s[0]] + s.drop_first());
        assert((seq![s[0]] + rec).to_multiset() =~= s.to_multiset().insert(x));
    }
}

/// Law: sorting arranges the items in the fixed result order.
pub proof fn lemma_sort_sorted(s: Seq<(Seq<char>, Option<Seq<char>>)>)
    ensures
        sorted_items(sort_spec(s)),
    decreases s.len(),
{
    if s.len() > 0 {
        lemma_sort_sorted(s.drop_first());
        lemma_insert_sorted_sorted(s[0], sort_spec(s.drop_first()));
    }
}

/// Law: sorting keeps exactly the original items, as a multiset.
pub proof fn lemma_sort_multiset(s: Seq<(Seq<char>, Option<Seq<char>>)>)
    ensures
        sort_spec(s).to_multiset() == s.to_multiset(),
    decreases s.len(),
{
    if s.len() > 0 {
        lemma_sort_multiset(s.drop_first());
        lemma_insert_sorted_multiset(s[0], sort_spec(s.drop_first()));
        assert(s =~= seq![s[0]] + s.drop_first());
        vstd::seq_lib::lemma_multiset_commutative(seq![s[0]], s.drop_first());
        assert(seq![s[0]] =~= Seq::<(Seq<char>, Option<Seq<char>>)>::empty().push(s[0]));
        assert(sort_spec(s).to_multiset() =~= s.to_multiset());
    }
}

proof fn lemma_macs_of_permutation(
    s1: Seq<(Seq<char>, Option<Seq<char>>)>,
    s2: Seq<(Seq<char>, Option<Seq<char>>)>,
)
    requires
        s1.to_multiset() == s2.to_multiset(),
    ensures
        macs_of(s1).to_multiset() == macs_of(s2).to_multiset(),
    decreases s1.len(),
{
    if s1.len() == 0 {
        vstd::seq_lib::to_multiset_len(s1);
        vstd::seq_lib::to_multiset_len(s2);
        assert(s2.len() == 0);
        assert(macs_of(s1) =~= macs_of(s2));
    } else {
        let x = s1[0];
        assert(s1.contains(x));
        assert(s2.to_multiset().count(x) > 0);
        assert(s2.contains(x));
        let j = choose|j: int| 0 <= j < s2.len() && s2[j] == x;
        assert(s1.remove(0) =~= s1.drop_first());
        assert(s1.drop_first().to_multiset() == s1.to_multiset().remove(x));
        assert(s2.remove(j).to_multiset() == s2.to_multiset().remove(x));
        lemma_macs_of_permutation(s1.drop_first(), s2.remove(j));
        assert(macs_of(s1.drop_first()) =~= macs_of(s1).remove(0));
        assert(macs_of(s2.remove(j)) =~= macs_of(s2).remove(j));
        assert(macs_of(s1).remove(0).to_multiset() == macs_of(s1).to_multiset().remove(
            macs_of(s1)[0],
        ));
        assert(macs_of(s2).remove(j).to_multiset() == macs_of(s2).to_multiset().remove(
            macs_of(s2)[j],
        ));
        assert(macs_of(s1)[0] == x.0);
        assert(macs_of(s2)[j] == x.0);
        assert(macs_of(s1).to_multiset().count(x.0) > 0) by {
            assert(macs_of(s1).contains(macs_of(s1)[0]));
        }
        assert(macs_of(s2).to_multiset().count(x.0) > 0) by {
            assert(macs_of(s2).contains(macs_of(s2)[j]));
        }
        let m1 = macs_of(s1).to_multiset();
        let m2 = macs_of(s2).to_multiset();
        assert(m1.remove(x.0) == m2.remove(x.0));
        assert forall|e: Seq<char>| m1.count(e) == m2.count(e) by {
            assert(m1.remove(x.0).count(e) == m2.remove(x.0).count(e));
        }
        assert(m1 =~= m2);
    }
}

/// Law: the merged view holds exactly the discovered identifiers — one item
/// per identifier, counted with multiplicity — whatever rows the store
/// returned.
pub proof fn lemma_discovery_macs(
    ids: Seq<Seq<char>>,
    rows: Seq<(Seq<char>, Option<Seq<char>>)>,
)
    ensures
        macs_of(discovery_of(ids, rows)).to_multiset() == ids.to_multiset(),
{
    lemma_sort_multiset(annotate_spec(ids, rows));
    lemma_macs_of_permutation(discovery_of(ids, rows), annotate_spec(ids, rows));
    assert(macs_of(annotate_spec(ids, rows)) =~= ids);
}

/// Law: the merged view stands in the fixed result order.
pub proof fn lemma_discovery_sorted(
    ids: Seq<Seq<char>>,
    rows: Seq<(Seq<char>, Option<Seq<char>>)>,
)
    ensures
        sorted_items(discovery_of(ids, rows)),
{
    lemma_sort_sorted(annotate_spec(ids, rows));
}

proof fn lemma_first_owner_found(rows: Seq<(Seq<char>, Option<Seq<char>>)>, i: int)
    requires
        unique_macs(rows),
        0 <= i < rows.len(),
    ensures
        first_owner(rows, rows[i].0) == rows[i].1,
    decreases rows.len(),
{
    if i > 0 {
        assert(rows[0].0 != rows[i].0);
        assert(unique_macs(rows.drop_first())) by {
            assert forall|p: int, q: int|
                0 <= p < q < rows.drop_first().len() implies rows.drop_first()[p].0
                != rows.drop_first()[q].0 by {
                assert(rows.drop_first()[p] == rows[p + 1]);
                assert(rows.drop_first()[q] == rows[q + 1]);
            }
        }
        lemma_first_owner_found(rows.drop_first(), i - 1);
        assert(rows.drop_first()[i - 1] == rows[i]);
    }
}

proof fn lemma_first_owner_absent(rows: Seq<(Seq<char>, Option<Seq<char>>)>, id: Seq<char>)
    requires
        forall|k: int| 0 <= k < rows.len() ==> (#[trigger] rows[k]).0 != id,
    ensures
        first_owner(rows, id) is None,
    decreases rows.len(),
{
    if rows.len() > 0 {
        lemma_first_owner_absent(rows.drop_first(), id);
    }
}

/// Law: the merged view depends only on which ownership records exist, not
/// on the order the engine returns them in. Two row sequences holding the
/// same records — each identifier recorded at most once — give the very
/// same view, so repeating the merge over identical store contents yields
/// an identical result.
pub proof fn lemma_discovery_deterministic(
    ids: Seq<Seq<char>>,
    rows1: Seq<(Seq<char>, Option<Seq<char>>)>,
    rows2: Seq<(Seq<char>, Option<Seq<char>>)>,
)
    requires
        rows1.to_multiset() == rows2.to_multiset(),
        unique_macs(rows1),
        unique_macs(rows2),
    ensures
        discovery_of(ids, rows1) == discovery_of(ids, rows2),
{
    assert forall|id: Seq<char>|
        #[trigger] first_owner(rows1, id) == first_owner(rows2, id) by {
        lemma_first_owner_agree(rows1, rows2, id);
    }
    assert(annotate_spec(ids, rows1) =~= annotate_spec(ids, rows2));
}

proof fn lemma_first_owner_agree(
    rows1: Seq<(Seq<char>, Option<Seq<char>>)>,
    rows2: Seq<(Seq<char>, Option<Seq<char>>)>,
    id: Seq<char>,
)
    requires
        rows1.to_multiset() == rows2.to_multiset(),
        unique_macs(rows1),
        unique_macs(rows2),
    ensures
        first_owner(rows1, id) == first_owner(rows2, id),
{
    if exists|i: int| 0 <= i < rows1.len() && (#[trigger] rows1[i]).0 == id {
        let i = choose|i: int| 0 <= i < rows1.len() && (#[trigger] rows1[i]).0 == id;
        let r = rows1[i];
        assert(rows1.contains(r));
        assert(rows2.to_multiset().count(r) > 0);
        assert(rows2.contains(r));
        let j = choose|j: int| 0 <= j < rows2.len() && rows2[j] == r;
        lemma_first_owner_found(rows1, i);
        lemma_first_owner_found(rows2, j);
    } else {
        lemma_first_owner_absent(rows1, id);
        assert forall|k: int| 0 <= k < rows2.len() implies (#[trigger] rows2[k]).0 != id by {
            if rows2[k].0 == id {
                assert(rows2.contains(rows2[k]));
                assert(rows1.to_multiset().count(rows2[k]) > 0);
                assert(rows1.contains(rows2[k]));
                let m = choose|m: int| 0 <= m < rows1.len() && rows1[m] == rows2[k];
                assert(rows1[m].0 == id);
            }
        }
        lemma_first_owner_absent(rows2, id);
    }
}

#[verifier::external_type_specification]
#[verifier::external_body]
pub struct ExConnection(rusqlite::Connection);

/// Handle on the persisted ownership table: one connection to the backing
/// database, shared by the surrounding application and read-only here.
pub struct Db {
    conn: rusqlite::Connection,
}

/// Batched ownership lookup.
///
/// Relies on rusqlite's `Connection::prepare`, `Statement::query_map` and
/// `Row::get`: one SELECT pairs each supplied identifier with the owner the
/// `known` table records for it (absent where no record exists). Any engine
/// failure maps to `StoreError`. Nothing is assumed of the rows that come
/// back: the verified merge takes them as they are.
#[verifier::external_body]
fn lookup_rows(conn: &rusqlite::Connection, macs: &[String]) -> (r: Result<
    Vec<Item>,
    StoreError,
>) {
    let qmarks = vec!["(?)"; macs.len()].join(",");
    let sql = format!(
        "WITH visible (mac) AS (VALUES {}) SELECT visible.mac, known.owner FROM visible LEFT JOIN known ON visible.mac = known.mac",
        qmarks,
    );
    let mut statement = conn.prepare(&sql).map_err(|_| StoreError)?;
    let rows = statement.query_map(
        rusqlite::params_from_iter(macs.iter()),
        |row| Ok(Item { mac: row.get(0)?, owner: row.get(1)? }),
    ).map_err(|_| StoreError)?;
    let mut items = Vec::new();
    for row in rows {
        items.push(row.map_err(|_| StoreError)?);
    }
    Ok(items)
}

impl Db {
    /// Opens the backing database file and returns the store handle.
    ///
    /// Relies on rusqlite's `Connection::open`, which fails when the file
    /// cannot be opened or created; that failure maps to `StoreError`.
    #[verifier::external_body]
    pub fn new(db_file: &str) -> (db: Result<Db, StoreError>) {
        match rusqlite::Connection::open(db_file) {
            Ok(conn) => Ok(Db { conn }),
            Err(_) => Err(StoreError),
        }
    }

    /// Batched lookup: pairs every supplied identifier with the owner the
    /// store records for it (or an absent marker), in the fixed result
    /// order. An empty input returns an empty result without issuing any
    /// query. The owners come from whatever rows the engine returned; the
    /// identifiers, their multiplicity and the order are pinned here.
    pub fn query(&self, mac_addresses: &[String]) -> (r: Result<Vec<Item>, StoreError>)
        ensures
            mac_addresses@.len() == 0 ==> (r matches Ok(v) && v@.len() == 0),
            r matches Ok(v) ==> exists|rows: Seq<(Seq<char>, Option<Seq<char>>)>|
                v.deep_view() == discovery_of(mac_addresses.deep_view(), rows),
            r matches Ok(v) ==> sorted_items(v.deep_view()),
            r matches Ok(v) ==> macs_of(v.deep_view()).to_multiset()
                == mac_addresses.deep_view().to_multiset(),
    {
        if mac_addresses.len() == 0 {
            let empty: Vec<Item> = Vec::new();
            proof {
                let rows0 = Seq::<(Seq<char>, Option<Seq<char>>)>::empty();
                assert(annotate_spec(mac_addresses.deep_view(), rows0) =~= Seq::<
                    (Seq<char>, Option<Seq<char>>),
                >::empty());
                assert(empty.deep_view() =~= discovery_of(mac_addresses.deep_view(), rows0));
                assert(macs_of(empty.deep_view()) =~= mac_addresses.deep_view());
            }
            return Ok(empty);
        }
        match lookup_rows(&self.conn, mac_addresses) {
            Err(e) => Err(e),
            Ok(rows) => {
                let merged = annotate_and_sort(mac_addresses, &rows);
                proof {
                    lemma_discovery_sorted(mac_addresses.deep_view(), rows.deep_view());
                    lemma_discovery_macs(mac_addresses.deep_view(), rows.deep_view());
                }
                Ok(merged)
            },
        }
    }
}

} // verus!
