//! Which partners a listing shows, in what order, and which page of them.

use vstd::prelude::*;

use crate::lex::{
    byte_ints, bytes_eq, bytes_lt, lemma_lex_irreflexive, lemma_lex_total, lemma_lex_transitive,
    lex_lt,
};
use crate::text::{
    contains_seq, contains_str, eq_ignore_ascii_case, str_eq, str_eq_ignore_ascii_case,
};
use crate::tts::{fold_accents, remove_accents};
use vstd::utf8::encode_utf8;

verus! {

/// What the listing reads of one partner. `debt_rank` stands for the debt
/// balance: partners with equal balances share a rank, and a smaller balance
/// has a smaller rank.
pub struct PartnerListing {
    pub id: i64,
    pub name: String,
    pub is_customer: Option<bool>,
    pub is_supplier: Option<bool>,
    pub phone: Option<String>,
    pub debt_rank: u64,
}

/// The query of a partner listing.
pub struct ListingQuery {
    pub search: Option<String>,
    pub partner_type: Option<String>,
    pub sort_by: Option<String>,
    pub sort_order: Option<String>,
    pub page: Option<u32>,
    pub limit: Option<u32>,
}

/// The field a listing is sorted by.
#[derive(Clone, Copy, Debug, PartialEq, Eq, Structural)]
pub enum SortField {
    Id,
    DebtBalance,
    Phone,
    Name,
}

/// The sort field a `sort_by` value names (`name` when absent or unknown).
pub open spec fn sort_field_named(sort_by: Option<String>) -> SortField {
    match sort_by {
        Some(s) => if s@ == "id"@ {
            SortField::Id
        } else if s@ == "debt_balance"@ {
            SortField::DebtBalance
        } else if s@ == "phone"@ {
            SortField::Phone
        } else {
            SortField::Name
        },
        None => SortField::Name,
    }
}

/// Whether a `sort_order` value asks for descending order (`desc` in any
/// ASCII case); ascending when absent.
pub open spec fn descending(sort_order: Option<String>) -> bool {
    match sort_order {
        Some(s) => eq_ignore_ascii_case(s@, "desc"@),
        None => false,
    }
}

/// Reads the sort field of a query.
pub fn sort_field_of(sort_by: &Option<String>) -> (f: SortField)
    ensures
        f == sort_field_named(*sort_by),
{
    match sort_by {
        Some(s) => if str_eq(s.as_str(), "id") {
            SortField::Id
        } else if str_eq(s.as_str(), "debt_balance") {
            SortField::DebtBalance
        } else if str_eq(s.as_str(), "phone") {
            SortField::Phone
        } else {
            SortField::Name
        },
        None => SortField::Name,
    }
}

/// Reads the sort direction of a query.
pub fn is_descending(sort_order: &Option<String>) -> (d: bool)
    ensures
        d == descending(*sort_order),
{
    match sort_order {
        Some(s) => str_eq_ignore_ascii_case(s.as_str(), "desc"),
        None => false,
    }
}

/// The key a partner is ordered by: text keys are their UTF-8 bytes (as
/// strings order), and a missing phone comes before every phone.
pub open spec fn sort_key(p: PartnerListing, f: SortField) -> Seq<int> {
    match f {
        SortField::Id => seq![p.id as int],
        SortField::DebtBalance => seq![p.debt_rank as int],
        SortField::Phone => match p.phone {
            None => seq![0int],
            Some(s) => seq![1int] + byte_ints(encode_utf8(s@)),
        },
        SortField::Name => byte_ints(encode_utf8(p.name@)),
    }
}

/// Whether row `i` is listed before row `j`: by key in the asked direction,
/// and rows with equal keys keep the order they came in.
pub open spec fn precedes(
    rows: Seq<PartnerListing>,
    f: SortField,
    desc: bool,
    i: int,
    j: int,
) -> bool {
    let a = sort_key(rows[i], f);
    let b = sort_key(rows[j], f);
    if a == b {
        i < j
    } else if desc {
        lex_lt(b, a)
    } else {
        lex_lt(a, b)
    }
}

/// Whether a partner has the roles a type filter asks for (`Customer`,
/// `Supplier`, `Both`; anything else lets every partner through). A partner
/// is a customer unless it says otherwise, and not a supplier unless it says so.
pub open spec fn passes_type_filter(p_type: Seq<char>, p: PartnerListing) -> bool {
    let c = match p.is_customer {
        Some(b) => b,
        None => true,
    };
    let s = match p.is_supplier {
        Some(b) => b,
        None => false,
    };
    &&& !(p_type == "Customer"@ && !c)
    &&& !(p_type == "Supplier"@ && !s)
    &&& !(p_type == "Both"@ && (!c || !s))
}

/// Whether a partner matches an accent-folded search text: an empty search
/// matches all; otherwise the folded name or folded phone must contain it.
pub open spec fn passes_search(search: Seq<char>, p: PartnerListing) -> bool {
    let phone = match p.phone {
        Some(s) => s@,
        None => Seq::<char>::empty(),
    };
    ||| search.len() == 0
    ||| contains_seq(fold_accents(p.name@), search)
    ||| contains_seq(fold_accents(phone), search)
}

/// The folded search text of a query.
pub open spec fn search_text(q: ListingQuery) -> Seq<char> {
    match q.search {
        Some(s) => fold_accents(s@),
        None => Seq::<char>::empty(),
    }
}

/// The type filter of a query (`All` when absent).
pub open spec fn type_filter(q: ListingQuery) -> Seq<char> {
    match q.partner_type {
        Some(s) => s@,
        None => "All"@,
    }
}

/// Whether a query lists a partner.
pub open spec fn listed(q: ListingQuery, p: PartnerListing) -> bool {
    passes_type_filter(type_filter(q), p) && passes_search(search_text(q), p)
}

/// Whether `order` lists exactly the rows that `q` selects, each once, in
/// the order that `precedes` gives.
pub open spec fn is_listing_order(
    rows: Seq<PartnerListing>,
    q: ListingQuery,
    order: Seq<usize>,
) -> bool {
    let f = sort_field_named(q.sort_by);
    let d = descending(q.sort_order);
    &&& forall|a: int| 0 <= a < order.len() ==> #[trigger] order[a] < rows.len()
    &&& forall|a: int, b: int|
        0 <= a < b < order.len() ==> precedes(rows, f, d, #[trigger] order[a] as int, #[trigger] order[b] as int)
    &&& forall|i: int|
        0 <= i < rows.len() ==> (listed(q, rows[i]) <==> order.contains(i as usize))
}

impl ListingQuery {
    /// The page and page size asked for, when both are given; otherwise the
    /// whole listing is answered.
    pub fn page_request(&self) -> (r: Option<(u32, u32)>)
        ensures
            r == match (self.page, self.limit) {
                (Some(p), Some(l)) => Some((p, l)),
                _ => None::<(u32, u32)>,
            },
    {
        match (self.page, self.limit) {
            (Some(p), Some(l)) => Some((p, l)),
            _ => None,
        }
    }
}

/// Equal keys in `precedes` are equal sequences; the order never relates a
/// row to itself.
pub proof fn lemma_precedes_irreflexive(rows: Seq<PartnerListing>, f: SortField, d: bool, i: int)
    ensures
        !precedes(rows, f, d, i, i),
{
}

/// `precedes` is transitive.
pub proof fn lemma_precedes_transitive(
    rows: Seq<PartnerListing>,
    f: SortField,
    d: bool,
    i: int,
    j: int,
    k: int,
)
    requires
        precedes(rows, f, d, i, j),
        precedes(rows, f, d, j, k),
    ensures
        precedes(rows, f, d, i, k),
{
    let a = sort_key(rows[i], f);
    let b = sort_key(rows[j], f);
    let c = sort_key(rows[k], f);
    if a != b && b != c {
        if d {
            lemma_lex_transitive(c, b, a);
        } else {
            lemma_lex_transitive(a, b, c);
        }
        if a == c {
            lemma_lex_irreflexive(a);
        }
    }
}

/// Of two different rows, exactly one is listed before the other.
pub proof fn lemma_precedes_total(rows: Seq<PartnerListing>, f: SortField, d: bool, i: int, j: int)
    requires
        i != j,
    ensures
        precedes(rows, f, d, i, j) != precedes(rows, f, d, j, i),
{
    lemma_lex_total(sort_key(rows[i], f), sort_key(rows[j], f));
}

proof fn lemma_byte_ints_injective(a: Seq<u8>, b: Seq<u8>)
    ensures
        (byte_ints(a) == byte_ints(b)) == (a == b),
{
    if byte_ints(a) == byte_ints(b) {
        assert(a.len() == byte_ints(a).len());
        assert forall|k: int| 0 <= k < a.len() implies a[k] == b[k] by {
            assert(byte_ints(a)[k] == byte_ints(b)[k]);
        }
        assert(a =~= b);
    }
}

proof fn lemma_singleton_lex(x: int, y: int)
    ensures
        lex_lt(seq![x], seq![y]) == (x < y),
        (seq![x] == seq![y]) == (x == y),
{
    assert(seq![x][0] == x);
    assert(seq![y][0] == y);
    if x == y {
        lemma_lex_irreflexive(seq![x]);
    }
    if seq![x] == seq![y] {
        assert(seq![x][0] == seq![y][0]);
    }
}

proof fn lemma_tagged_lex(a: Seq<int>, b: Seq<int>)
    ensures
        lex_lt(seq![1int] + a, seq![1int] + b) == lex_lt(a, b),
        (seq![1int] + a == seq![1int] + b) == (a == b),
{
    assert((seq![1int] + a).drop_first() =~= a);
    assert((seq![1int] + b).drop_first() =~= b);
    if seq![1int] + a == seq![1int] + b {
        assert(a =~= (seq![1int] + a).drop_first());
    }
}

/// Compares the keys of two rows: whether the first is smaller and whether
/// they are equal.
fn compare_keys(x: &PartnerListing, y: &PartnerListing, f: SortField) -> (r: (bool, bool))
    ensures
        r.0 == lex_lt(sort_key(*x, f), sort_key(*y, f)),
        r.1 == (sort_key(*x, f) == sort_key(*y, f)),
{
    match f {
        SortField::Id => {
            proof {
                lemma_singleton_lex(x.id as int, y.id as int);
            }
            (x.id < y.id, x.id == y.id)
        },
        SortField::DebtBalance => {
            proof {
                lemma_singleton_lex(x.debt_rank as int, y.debt_rank as int);
            }
            (x.debt_rank < y.debt_rank, x.debt_rank == y.debt_rank)
        },
        SortField::Name => {
            let a = x.name.as_str().as_bytes();
            let b = y.name.as_str().as_bytes();
            proof {
                lemma_byte_ints_injective(a@, b@);
            }
            (bytes_lt(a, b), bytes_eq(a, b))
        },
        SortField::Phone => match (&x.phone, &y.phone) {
            (None, None) => {
                proof {
                    lemma_singleton_lex(0, 0);
                }
                (false, true)
            },
            (None, Some(_)) => {
                proof {
                    let t = sort_key(*y, f);
                    assert(t[0] == 1);
                    assert(seq![0int][0] == 0);
                }
                (true, false)
            },
            (Some(_), None) => {
                proof {
                    let t = sort_key(*x, f);
                    assert(t[0] == 1);
                    assert(seq![0int][0] == 0);
                }
                (false, false)
            },
            (Some(s), Some(t)) => {
                let a = s.as_str().as_bytes();
                let b = t.as_str().as_bytes();
                proof {
                    lemma_byte_ints_injective(a@, b@);
                    lemma_tagged_lex(byte_ints(a@), byte_ints(b@));
                }
                (bytes_lt(a, b), bytes_eq(a, b))
            },
        },
    }
}

/// Whether row `i` is listed before row `j`.
fn row_precedes(rows: &Vec<PartnerListing>, f: SortField, desc: bool, i: usize, j: usize) -> (r:
    bool)
    requires
        i < rows@.len(),
        j < rows@.len(),
    ensures
        r == precedes(rows@, f, desc, i as int, j as int),
{
    let (lt, eq) = compare_keys(&rows[i], &rows[j], f);
    if eq {
        i < j
    } else if desc {
        let (gt, _) = compare_keys(&rows[j], &rows[i], f);
        gt
    } else {
        lt
    }
}

/// Whether a query lists a partner.
fn partner_is_listed(p: &PartnerListing, p_type: &str, search: &str) -> (r: bool)
    ensures
        r == (passes_type_filter(p_type@, *p) && passes_search(search@, *p)),
{
    let c = match p.is_customer {
        Some(b) => b,
        None => true,
    };
    let s = match p.is_supplier {
        Some(b) => b,
        None => false,
    };
    if str_eq(p_type, "Customer") && !c {
        return false;
    }
    if str_eq(p_type, "Supplier") && !s {
        return false;
    }
    if str_eq(p_type, "Both") && (!c || !s) {
        return false;
    }
    if search.is_empty() {
        return true;
    }
    let name_norm = remove_accents(p.name.as_str());
    let phone_norm = match &p.phone {
        Some(ph) => remove_accents(ph.as_str()),
        None => String::new(),
    };
    assert(phone_norm@ == fold_accents(
        match p.phone {
            Some(s) => s@,
            None => Seq::<char>::empty(),
        },
    ));
    contains_str(name_norm.as_str(), search) || contains_str(phone_norm.as_str(), search)
}

/// The rows a query lists, as indices in listing order: filtered by type and
/// search text, then sorted stably by the asked field and direction.
pub fn listing_order(rows: &Vec<PartnerListing>, q: &ListingQuery) -> (order: Vec<usize>)
    ensures
        is_listing_order(rows@, *q, order@),
{
    let f = sort_field_of(&q.sort_by);
    let d = is_descending(&q.sort_order);
    let search = match &q.search {
        Some(s) => remove_accents(s.as_str()),
        None => String::new(),
    };
    let p_type = match &q.partner_type {
        Some(s) => s.clone(),
        None => "All".to_owned(),
    };
    let n = rows.len();
    let mut order: Vec<usize> = Vec::new();
    for i in 0..n
        invariant
            n == rows@.len(),
            f == sort_field_named(q.sort_by),
            d == descending(q.sort_order),
            search@ == search_text(*q),
            p_type@ == type_filter(*q),
            forall|a: int| 0 <= a < order@.len() ==> #[trigger] order@[a] < i,
            forall|a: int, b: int|
                0 <= a < b < order@.len() ==> precedes(
                    rows@,
                    f,
                    d,
                    #[trigger] order@[a] as int,
                    #[trigger] order@[b] as int,
                ),
            forall|k: int| 0 <= k < i ==> (listed(*q, rows@[k]) <==> order@.contains(k as usize)),
            forall|a: int| 0 <= a < order@.len() ==> listed(*q, rows@[#[trigger] order@[a] as int]),
    {
        if partner_is_listed(&rows[i], p_type.as_str(), search.as_str()) {
            let mut j = order.len();
            while j > 0 && row_precedes(rows, f, d, i, order[j - 1])
                invariant
                    n == rows@.len(),
                    i < n,
                    j <= order@.len(),
                    forall|a: int| 0 <= a < order@.len() ==> #[trigger] order@[a] < i,
                    forall|a: int| j <= a < order@.len() ==> precedes(rows@, f, d, i as int, #[trigger] order@[a] as int),
                decreases j,
            {
                j = j - 1;
            }
            let ghost old_order = order@;
            proof {
                if j > 0 {
                    let x = old_order[j - 1];
                    lemma_precedes_total(rows@, f, d, i as int, x as int);
                    assert forall|a: int| 0 <= a < j implies precedes(rows@, f, d, #[trigger] old_order[a] as int, i as int) by {
                        if a < j - 1 {
                            lemma_precedes_transitive(rows@, f, d, old_order[a] as int, x as int, i as int);
                        }
                    }
                }
            }
            order.insert(j, i);
            proof {
                assert forall|a: int, b: int|
                    0 <= a < b < order@.len() implies precedes(
                        rows@,
                        f,
                        d,
                        #[trigger] order@[a] as int,
                        #[trigger] order@[b] as int,
                    ) by {
                    if b < j {
                        assert(order@[a] == old_order[a] && order@[b] == old_order[b]);
                    } else if b == j {
                        assert(order@[a] == old_order[a]);
                    } else if a == j {
                        assert(order@[b] == old_order[b - 1]);
                    } else if a < j {
                        assert(order@[a] == old_order[a] && order@[b] == old_order[b - 1]);
                    } else {
                        assert(order@[a] == old_order[a - 1] && order@[b] == old_order[b - 1]);
                    }
                }
                assert forall|k: int| 0 <= k <= i implies (listed(*q, rows@[k]) <==> order@.contains(k as usize)) by {
                    if k < i {
                        if old_order.contains(k as usize) {
                            let a = choose|a: int| 0 <= a < old_order.len() && old_order[a] == k as usize;
                            if a < j {
                                assert(order@[a] == k as usize);
                            } else {
                                assert(order@[a + 1] == k as usize);
                            }
                        }
                        if order@.contains(k as usize) {
                            let a = choose|a: int| 0 <= a < order@.len() && order@[a] == k as usize;
                            if a < j {
                                assert(old_order[a] == k as usize);
                            } else if a > j {
                                assert(old_order[a - 1] == k as usize);
                            }
                        }
                    } else {
                        assert(order@[j as int] == i);
                    }
                }
                assert forall|a: int| 0 <= a < order@.len() implies #[trigger] order@[a] < i + 1 by {
                    if a < j {
                        assert(order@[a] == old_order[a]);
                    } else if a > j {
                        assert(order@[a] == old_order[a - 1]);
                    }
                }
                assert forall|a: int| 0 <= a < order@.len() implies listed(*q, rows@[#[trigger] order@[a] as int]) by {
                    if a < j {
                        assert(order@[a] == old_order[a]);
                    } else if a > j {
                        assert(order@[a] == old_order[a - 1]);
                    }
                }
            }
        } else {
            proof {
                assert(!order@.contains(i));
            }
        }
    }
    order
}

proof fn lemma_sorted_unique(
    rows: Seq<PartnerListing>,
    f: SortField,
    d: bool,
    o1: Seq<usize>,
    o2: Seq<usize>,
)
    requires
        forall|a: int, b: int|
            0 <= a < b < o1.len() ==> precedes(rows, f, d, #[trigger] o1[a] as int, #[trigger] o1[b] as int),
        forall|a: int, b: int|
            0 <= a < b < o2.len() ==> precedes(rows, f, d, #[trigger] o2[a] as int, #[trigger] o2[b] as int),
        forall|x: usize| o1.contains(x) <==> o2.contains(x),
    ensures
        o1 == o2,
    decreases o1.len(),
{
    if o1.len() == 0 {
        if o2.len() > 0 {
            assert(o2.contains(o2[0]));
        }
        assert(o1 =~= o2);
    } else if o2.len() == 0 {
        assert(o1.contains(o1[0]));
    } else {
        let x = o1[0];
        let y = o2[0];
        if x != y {
            assert(o1.contains(x));
            let p = choose|p: int| 0 <= p < o2.len() && o2[p] == x;
            assert(o2.contains(y));
            let q = choose|q: int| 0 <= q < o1.len() && o1[q] == y;
            assert(p > 0 && q > 0);
            assert(precedes(rows, f, d, y as int, x as int));
            assert(precedes(rows, f, d, x as int, y as int));
            lemma_precedes_transitive(rows, f, d, x as int, y as int, x as int);
        }
        let t1 = o1.drop_first();
        let t2 = o2.drop_first();
        assert forall|z: usize| t1.contains(z) <==> t2.contains(z) by {
            if t1.contains(z) {
                let k = choose|k: int| 0 <= k < t1.len() && t1[k] == z;
                assert(o1[k + 1] == z);
                assert(o1.contains(z));
                let m = choose|m: int| 0 <= m < o2.len() && o2[m] == z;
                if m == 0 {
                    assert(precedes(rows, f, d, o1[0] as int, o1[k + 1] as int));
                } else {
                    assert(t2[m - 1] == z);
                }
            }
            if t2.contains(z) {
                let k = choose|k: int| 0 <= k < t2.len() && t2[k] == z;
                assert(o2[k + 1] == z);
                assert(o2.contains(z));
                let m = choose|m: int| 0 <= m < o1.len() && o1[m] == z;
                if m == 0 {
                    assert(precedes(rows, f, d, o2[0] as int, o2[k + 1] as int));
                } else {
                    assert(t1[m - 1] == z);
                }
            }
        }
        assert forall|a: int, b: int| 0 <= a < b < t1.len() implies precedes(rows, f, d, #[trigger] t1[a] as int, #[trigger] t1[b] as int) by {
            assert(t1[a] == o1[a + 1] && t1[b] == o1[b + 1]);
        }
        assert forall|a: int, b: int| 0 <= a < b < t2.len() implies precedes(rows, f, d, #[trigger] t2[a] as int, #[trigger] t2[b] as int) by {
            assert(t2[a] == o2[a + 1] && t2[b] == o2[b + 1]);
        }
        lemma_sorted_unique(rows, f, d, t1, t2);
        assert(o1 =~= seq![x] + t1);
        assert(o2 =~= seq![y] + t2);
    }
}

/// A query lists the rows in one order only: any two orders that both list
/// exactly the selected rows, sorted as asked, are the same.
pub proof fn lemma_listing_unique(
    rows: Seq<PartnerListing>,
    q: ListingQuery,
    o1: Seq<usize>,
    o2: Seq<usize>,
)
    requires
        is_listing_order(rows, q, o1),
        is_listing_order(rows, q, o2),
    ensures
        o1 == o2,
{
    assert forall|x: usize| o1.contains(x) <==> o2.contains(x) by {
        if o1.contains(x) {
            let k = choose|k: int| 0 <= k < o1.len() && o1[k] == x;
            assert(o1[k] < rows.len());
            assert(listed(q, rows[x as int]) <==> o1.contains((x as int) as usize));
            assert(listed(q, rows[x as int]) <==> o2.contains((x as int) as usize));
        }
        if o2.contains(x) {
            let k = choose|k: int| 0 <= k < o2.len() && o2[k] == x;
            assert(o2[k] < rows.len());
            assert(listed(q, rows[x as int]) <==> o1.contains((x as int) as usize));
            assert(listed(q, rows[x as int]) <==> o2.contains((x as int) as usize));
        }
    }
    lemma_sorted_unique(rows, sort_field_named(q.sort_by), descending(q.sort_order), o1, o2);
}

/// Sorting in descending order reverses the ascending order of any two
/// listed rows whose keys differ (rows with equal keys keep their order in
/// both directions).
pub proof fn lemma_descending_reverses(
    rows: Seq<PartnerListing>,
    qa: ListingQuery,
    qd: ListingQuery,
    oa: Seq<usize>,
    od: Seq<usize>,
    a: int,
    b: int,
)
    requires
        is_listing_order(rows, qa, oa),
        is_listing_order(rows, qd, od),
        qa.search == qd.search,
        qa.partner_type == qd.partner_type,
        sort_field_named(qa.sort_by) == sort_field_named(qd.sort_by),
        !descending(qa.sort_order),
        descending(qd.sort_order),
        0 <= a < b < oa.len(),
        sort_key(rows[oa[a] as int], sort_field_named(qa.sort_by)) != sort_key(
            rows[oa[b] as int],
            sort_field_named(qa.sort_by),
        ),
    ensures
        exists|c: int, e: int| 0 <= c < e < od.len() && od[c] == oa[b] && od[e] == oa[a],
{
    let f = sort_field_named(qa.sort_by);
    let x = oa[a];
    let y = oa[b];
    assert(oa.contains(x));
    assert(oa.contains(y));
    assert(x < rows.len() && y < rows.len());
    assert(listed(qa, rows[x as int]) && listed(qa, rows[y as int]));
    assert(od.contains(x) && od.contains(y));
    let e = choose|e: int| 0 <= e < od.len() && od[e] == x;
    let c = choose|c: int| 0 <= c < od.len() && od[c] == y;
    assert(precedes(rows, f, false, x as int, y as int));
    lemma_lex_total(sort_key(rows[x as int], f), sort_key(rows[y as int], f));
    if e < c {
        assert(precedes(rows, f, true, x as int, y as int));
    }
    assert(c != e);
}

/// What the filters of a listing let through, on the rows' own fields: a
/// `Supplier` listing shows only partners marked as suppliers, a `Customer`
/// listing only partners not marked as non-customers (a customer unless it
/// says otherwise), a `Both` listing only partners that are both; a search
/// shows only partners whose folded name or folded phone contains the folded
/// search text; and with neither filter every partner is listed.
pub proof fn lemma_listing_filters(
    rows: Seq<PartnerListing>,
    q: ListingQuery,
    order: Seq<usize>,
    i: int,
)
    requires
        is_listing_order(rows, q, order),
        0 <= i < rows.len(),
    ensures
        q.partner_type matches Some(t) && t@ == "Supplier"@ && order.contains(i as usize)
            ==> rows[i].is_supplier == Some(true),
        q.partner_type matches Some(t) && t@ == "Customer"@ && order.contains(i as usize)
            ==> rows[i].is_customer != Some(false),
        q.partner_type matches Some(t) && t@ == "Both"@ && order.contains(i as usize)
            ==> rows[i].is_customer != Some(false) && rows[i].is_supplier == Some(true),
        q.search is Some && fold_accents(q.search.unwrap()@).len() > 0 && order.contains(
            i as usize,
        ) ==> contains_seq(fold_accents(rows[i].name@), fold_accents(q.search.unwrap()@)) || (
        rows[i].phone is Some && contains_seq(
            fold_accents(rows[i].phone.unwrap()@),
            fold_accents(q.search.unwrap()@),
        )),
        q.search is None && q.partner_type is None ==> order.contains(i as usize),
{
    reveal_strlit("All");
    reveal_strlit("Customer");
    reveal_strlit("Supplier");
    reveal_strlit("Both");
    assert(listed(q, rows[i]) <==> order.contains(i as usize));
    assert("All"@ != "Customer"@ && "All"@ != "Supplier"@ && "All"@ != "Both"@) by {
        assert("All"@.len() != "Customer"@.len() && "All"@.len() != "Both"@.len());
    }
    if q.search is Some && rows[i].phone is None {
        let e = Seq::<char>::empty();
        assert(fold_accents(e) =~= e);
    }
}

} // verus!
