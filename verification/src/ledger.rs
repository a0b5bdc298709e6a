//! The debt timeline of a partner, its debt cycles, and the lines of its ledger.

use vstd::prelude::*;

use crate::calendar::{format_moment, format_moment_day, moment_day_text, moment_text};
use crate::text::{decimal_int, format_i64, str_eq};
use vstd::string::StringExecFns;

verus! {

/// A point in time as the ledger orders it: whole seconds, then the
/// nanoseconds within them.
#[derive(Clone, Copy, Debug, PartialEq, Eq, Structural)]
pub struct Moment {
    pub secs: i64,
    pub nanos: u32,
}

/// Where a timeline item comes from.
#[derive(Clone, Copy, Debug, PartialEq, Eq, Structural)]
pub enum Source {
    Order,
    Voucher,
}

/// How an item moves what the partner owes.
#[derive(Clone, Copy, Debug, PartialEq, Eq, Structural)]
pub enum Effect {
    Increase,
    Decrease,
    Unchanged,
}

/// What the timeline reads of an order.
pub struct OrderEvent {
    pub date: Option<Moment>,
    pub o_type: String,
    pub payment_method: Option<String>,
}

/// What the timeline reads of a cash voucher.
pub struct VoucherEvent {
    pub date: Option<Moment>,
    pub v_type: String,
    pub source: Option<String>,
}

/// One dated item of the debt timeline.
#[derive(Clone, Copy, Debug, PartialEq, Eq, Structural)]
pub struct TimelineItem {
    pub source: Source,
    pub index: usize,
    pub moment: Moment,
    pub effect: Effect,
}

/// Whether an order enters the debt timeline: it was paid on debt and is dated.
pub open spec fn order_on_timeline(o: OrderEvent) -> bool {
    &&& o.date is Some
    &&& o.payment_method matches Some(pm) && pm@ == "Debt"@
}

/// Whether a voucher enters the debt timeline: it is dated and has a source
/// other than `auto` (vouchers made automatically, and those with no source,
/// stay out).
pub open spec fn voucher_on_timeline(v: VoucherEvent) -> bool {
    &&& v.date is Some
    &&& v.source matches Some(src) && src@ != "auto"@
}

/// How a debt order moves the balance: a sale raises it, anything else
/// lowers it.
pub open spec fn order_timeline_effect(o_type: Seq<char>) -> Effect {
    if o_type == "Sale"@ {
        Effect::Increase
    } else {
        Effect::Decrease
    }
}

/// How a voucher moves the balance: a receipt lowers it, anything else
/// raises it.
pub open spec fn voucher_timeline_effect(v_type: Seq<char>) -> Effect {
    if v_type == "Receipt"@ {
        Effect::Decrease
    } else {
        Effect::Increase
    }
}

/// The rank of a source when two items share a moment: orders first.
pub open spec fn source_rank(s: Source) -> int {
    match s {
        Source::Order => 0,
        Source::Voucher => 1,
    }
}

/// Whether item `a` comes before item `b`: earlier moment first; at the same
/// moment orders before vouchers, each in the order they were read.
pub open spec fn item_before(a: TimelineItem, b: TimelineItem) -> bool {
    ||| a.moment.secs < b.moment.secs
    ||| a.moment.secs == b.moment.secs && a.moment.nanos < b.moment.nanos
    ||| a.moment.secs == b.moment.secs && a.moment.nanos == b.moment.nanos && source_rank(
        a.source,
    ) < source_rank(b.source)
    ||| a.moment.secs == b.moment.secs && a.moment.nanos == b.moment.nanos && a.source == b.source
        && a.index < b.index
}

/// Whether `t` is a timeline item that the rows justify.
pub open spec fn item_of(orders: Seq<OrderEvent>, vouchers: Seq<VoucherEvent>, t: TimelineItem) -> bool {
    match t.source {
        Source::Order => {
            &&& t.index < orders.len()
            &&& order_on_timeline(orders[t.index as int])
            &&& orders[t.index as int].date == Some(t.moment)
            &&& t.effect == order_timeline_effect(orders[t.index as int].o_type@)
        },
        Source::Voucher => {
            &&& t.index < vouchers.len()
            &&& voucher_on_timeline(vouchers[t.index as int])
            &&& vouchers[t.index as int].date == Some(t.moment)
            &&& t.effect == voucher_timeline_effect(vouchers[t.index as int].v_type@)
        },
    }
}

/// Whether the items hold a row of this source and index.
pub open spec fn has_item(items: Seq<TimelineItem>, s: Source, i: int) -> bool {
    exists|a: int| 0 <= a < items.len() && #[trigger] items[a].source == s && items[a].index == i
}

/// Whether `items` is the debt timeline of these rows: every debt order and
/// every dated voucher once, in time order.
pub open spec fn is_timeline(
    orders: Seq<OrderEvent>,
    vouchers: Seq<VoucherEvent>,
    items: Seq<TimelineItem>,
) -> bool {
    &&& forall|a: int| 0 <= a < items.len() ==> item_of(orders, vouchers, #[trigger] items[a])
    &&& forall|a: int, b: int|
        0 <= a < b < items.len() ==> item_before(#[trigger] items[a], #[trigger] items[b])
    &&& forall|i: int|
        0 <= i < orders.len() ==> (order_on_timeline(orders[i]) <==> has_item(
            items,
            Source::Order,
            i,
        ))
    &&& forall|i: int|
        0 <= i < vouchers.len() ==> (voucher_on_timeline(vouchers[i]) <==> has_item(
            items,
            Source::Voucher,
            i,
        ))
}

fn before(a: &TimelineItem, b: &TimelineItem) -> (r: bool)
    ensures
        r == item_before(*a, *b),
{
    let ra: u8 = match a.source {
        Source::Order => 0,
        Source::Voucher => 1,
    };
    let rb: u8 = match b.source {
        Source::Order => 0,
        Source::Voucher => 1,
    };
    a.moment.secs < b.moment.secs || (a.moment.secs == b.moment.secs && a.moment.nanos
        < b.moment.nanos) || (a.moment.secs == b.moment.secs && a.moment.nanos == b.moment.nanos
        && ra < rb) || (a.moment.secs == b.moment.secs && a.moment.nanos == b.moment.nanos && ra
        == rb && a.index < b.index)
}

/// Inserts an item into a timeline kept in order.
fn insert_in_order(items: &mut Vec<TimelineItem>, x: TimelineItem)
    requires
        forall|a: int, b: int|
            0 <= a < b < old(items)@.len() ==> item_before(
                #[trigger] old(items)@[a],
                #[trigger] old(items)@[b],
            ),
        forall|a: int|
            0 <= a < old(items)@.len() ==> (#[trigger] old(items)@[a]).source != x.source
                || old(items)@[a].index != x.index,
    ensures
        forall|a: int, b: int|
            0 <= a < b < final(items)@.len() ==> item_before(
                #[trigger] final(items)@[a],
                #[trigger] final(items)@[b],
            ),
        exists|j: int| 0 <= j <= old(items)@.len() && final(items)@ == old(items)@.insert(j, x),
{
    let mut j = items.len();
    while j > 0 && before(&x, &items[j - 1])
        invariant
            j <= items@.len(),
            items@ == old(items)@,
            forall|a: int| j <= a < items@.len() ==> item_before(x, #[trigger] items@[a]),
        decreases j,
    {
        j = j - 1;
    }
    let ghost o = items@;
    proof {
        assert forall|a: int| 0 <= a < j implies item_before(#[trigger] o[a], x) by {
            assert(o[a].source != x.source || o[a].index != x.index);
            if a < j - 1 {
                assert(item_before(o[a], o[j - 1]));
            }
        }
    }
    items.insert(j, x);
    proof {
        assert forall|a: int, b: int|
            0 <= a < b < items@.len() implies item_before(
                #[trigger] items@[a],
                #[trigger] items@[b],
            ) by {
            if b < j {
                assert(items@[a] == o[a] && items@[b] == o[b]);
            } else if b == j {
                assert(items@[a] == o[a]);
            } else if a == j {
                assert(items@[b] == o[b - 1]);
            } else if a < j {
                assert(items@[a] == o[a] && items@[b] == o[b - 1]);
            } else {
                assert(items@[a] == o[a - 1] && items@[b] == o[b - 1]);
            }
        }
    }
}

/// The debt timeline of a partner: its dated debt orders and its dated
/// vouchers that were not made automatically, in time order (orders first at
/// the same moment, each kind in row order).
pub fn debt_timeline(orders: &Vec<OrderEvent>, vouchers: &Vec<VoucherEvent>) -> (items: Vec<
    TimelineItem,
>)
    ensures
        is_timeline(orders@, vouchers@, items@),
{
    let mut items: Vec<TimelineItem> = Vec::new();
    let n = orders.len();
    for i in 0..n
        invariant
            n == orders@.len(),
            forall|a: int| 0 <= a < items@.len() ==> item_of(orders@, vouchers@, #[trigger] items@[a]),
            forall|a: int| 0 <= a < items@.len() ==> (#[trigger] items@[a]).source == Source::Order && items@[a].index < i,
            forall|a: int, b: int|
                0 <= a < b < items@.len() ==> item_before(#[trigger] items@[a], #[trigger] items@[b]),
            forall|k: int| 0 <= k < i ==> (order_on_timeline(orders@[k]) <==> has_item(items@, Source::Order, k)),
    {
        let o = &orders[i];
        let on_debt = match &o.payment_method {
            Some(pm) => str_eq(pm.as_str(), "Debt"),
            None => false,
        };
        let dated = if on_debt {
            o.date
        } else {
            None
        };
        if let Some(m) = dated {
            {
                let effect = if str_eq(o.o_type.as_str(), "Sale") {
                    Effect::Increase
                } else {
                    Effect::Decrease
                };
                let x = TimelineItem { source: Source::Order, index: i, moment: m, effect };
                let ghost old_items = items@;
                insert_in_order(&mut items, x);
                proof {
                    let j = choose|j: int| 0 <= j <= old_items.len() && items@ == old_items.insert(j, x);
                    assert(items@[j] == x);
                    assert forall|a: int| 0 <= a < items@.len() implies (#[trigger] items@[a]).source == Source::Order && items@[a].index < i + 1 && item_of(orders@, vouchers@, items@[a]) by {
                        if a < j {
                            assert(items@[a] == old_items[a]);
                        } else if a > j {
                            assert(items@[a] == old_items[a - 1]);
                        }
                    }
                    assert forall|k: int| 0 <= k < i + 1 implies (order_on_timeline(orders@[k]) <==> has_item(items@, Source::Order, k)) by {
                        if k < i {
                            if has_item(old_items, Source::Order, k) {
                                let a = choose|a: int| 0 <= a < old_items.len() && #[trigger] old_items[a].source == Source::Order && old_items[a].index == k;
                                if a < j {
                                    assert(items@[a] == old_items[a]);
                                } else {
                                    assert(items@[a + 1] == old_items[a]);
                                }
                            }
                            if has_item(items@, Source::Order, k) {
                                let a = choose|a: int| 0 <= a < items@.len() && #[trigger] items@[a].source == Source::Order && items@[a].index == k;
                                if a < j {
                                    assert(items@[a] == old_items[a]);
                                } else if a > j {
                                    assert(items@[a] == old_items[a - 1]);
                                }
                            }
                        }
                    }
                }
            }
        } else {
            proof {
                assert(!has_item(items@, Source::Order, i as int));
            }
        }
    }
    let nv = vouchers.len();
    for i in 0..nv
        invariant
            n == orders@.len(),
            nv == vouchers@.len(),
            forall|a: int| 0 <= a < items@.len() ==> item_of(orders@, vouchers@, #[trigger] items@[a]),
            forall|a: int| (0 <= a < items@.len() && (#[trigger] items@[a]).source == Source::Voucher) ==> items@[a].index < i,
            forall|a: int, b: int|
                0 <= a < b < items@.len() ==> item_before(#[trigger] items@[a], #[trigger] items@[b]),
            forall|k: int| 0 <= k < n ==> (order_on_timeline(orders@[k]) <==> has_item(items@, Source::Order, k)),
            forall|k: int| 0 <= k < i ==> (voucher_on_timeline(vouchers@[k]) <==> has_item(items@, Source::Voucher, k)),
    {
        let v = &vouchers[i];
        let not_auto = match &v.source {
            Some(src) => !str_eq(src.as_str(), "auto"),
            None => false,
        };
        let dated = if not_auto {
            v.date
        } else {
            None
        };
        if let Some(m) = dated {
            let effect = if str_eq(v.v_type.as_str(), "Receipt") {
                Effect::Decrease
            } else {
                Effect::Increase
            };
            let x = TimelineItem { source: Source::Voucher, index: i, moment: m, effect };
            let ghost old_items = items@;
            insert_in_order(&mut items, x);
            proof {
                let j = choose|j: int| 0 <= j <= old_items.len() && items@ == old_items.insert(j, x);
                assert(items@[j] == x);
                assert forall|a: int| 0 <= a < items@.len() implies item_of(orders@, vouchers@, #[trigger] items@[a]) && (items@[a].source == Source::Voucher ==> items@[a].index < i + 1) by {
                    if a < j {
                        assert(items@[a] == old_items[a]);
                    } else if a > j {
                        assert(items@[a] == old_items[a - 1]);
                    }
                }
                assert forall|k: int| 0 <= k < n implies (order_on_timeline(orders@[k]) <==> has_item(items@, Source::Order, k)) by {
                    if has_item(old_items, Source::Order, k) {
                        let a = choose|a: int| 0 <= a < old_items.len() && #[trigger] old_items[a].source == Source::Order && old_items[a].index == k;
                        if a < j {
                            assert(items@[a] == old_items[a]);
                        } else {
                            assert(items@[a + 1] == old_items[a]);
                        }
                    }
                    if has_item(items@, Source::Order, k) {
                        let a = choose|a: int| 0 <= a < items@.len() && #[trigger] items@[a].source == Source::Order && items@[a].index == k;
                        if a < j {
                            assert(items@[a] == old_items[a]);
                        } else if a > j {
                            assert(items@[a] == old_items[a - 1]);
                        }
                    }
                }
                assert forall|k: int| 0 <= k < i + 1 implies (voucher_on_timeline(vouchers@[k]) <==> has_item(items@, Source::Voucher, k)) by {
                    if k < i {
                        if has_item(old_items, Source::Voucher, k) {
                            let a = choose|a: int| 0 <= a < old_items.len() && #[trigger] old_items[a].source == Source::Voucher && old_items[a].index == k;
                            if a < j {
                                assert(items@[a] == old_items[a]);
                            } else {
                                assert(items@[a + 1] == old_items[a]);
                            }
                        }
                        if has_item(items@, Source::Voucher, k) {
                            let a = choose|a: int| 0 <= a < items@.len() && #[trigger] items@[a].source == Source::Voucher && items@[a].index == k;
                            if a < j {
                                assert(items@[a] == old_items[a]);
                            } else if a > j {
                                assert(items@[a] == old_items[a - 1]);
                            }
                        }
                    }
                }
            }
        } else {
            proof {
                assert(!has_item(items@, Source::Voucher, i as int));
            }
        }
    }
    items
}

proof fn lemma_sorted_items_unique(a: Seq<TimelineItem>, b: Seq<TimelineItem>)
    requires
        forall|x: int, y: int| 0 <= x < y < a.len() ==> item_before(#[trigger] a[x], #[trigger] a[y]),
        forall|x: int, y: int| 0 <= x < y < b.len() ==> item_before(#[trigger] b[x], #[trigger] b[y]),
        forall|t: TimelineItem| a.contains(t) <==> b.contains(t),
    ensures
        a == b,
    decreases a.len(),
{
    if a.len() == 0 {
        if b.len() > 0 {
            assert(b.contains(b[0]));
        }
        assert(a =~= b);
    } else if b.len() == 0 {
        assert(a.contains(a[0]));
    } else {
        let x = a[0];
        let y = b[0];
        if x != y {
            assert(a.contains(x));
            let p = choose|p: int| 0 <= p < b.len() && b[p] == x;
            assert(b.contains(y));
            let q = choose|q: int| 0 <= q < a.len() && a[q] == y;
            assert(p > 0 && q > 0);
            assert(item_before(y, x));
            assert(item_before(x, y));
        }
        let ta = a.drop_first();
        let tb = b.drop_first();
        assert forall|z: TimelineItem| ta.contains(z) <==> tb.contains(z) by {
            if ta.contains(z) {
                let k = choose|k: int| 0 <= k < ta.len() && ta[k] == z;
                assert(a[k + 1] == z);
                assert(a.contains(z));
                let m = choose|m: int| 0 <= m < b.len() && b[m] == z;
                if m == 0 {
                    assert(item_before(a[0], a[k + 1]));
                } else {
                    assert(tb[m - 1] == z);
                }
            }
            if tb.contains(z) {
                let k = choose|k: int| 0 <= k < tb.len() && tb[k] == z;
                assert(b[k + 1] == z);
                assert(b.contains(z));
                let m = choose|m: int| 0 <= m < a.len() && a[m] == z;
                if m == 0 {
                    assert(item_before(b[0], b[k + 1]));
                } else {
                    assert(ta[m - 1] == z);
                }
            }
        }
        assert forall|i: int, j: int| 0 <= i < j < ta.len() implies item_before(
            #[trigger] ta[i],
            #[trigger] ta[j],
        ) by {
            assert(ta[i] == a[i + 1] && ta[j] == a[j + 1]);
        }
        assert forall|i: int, j: int| 0 <= i < j < tb.len() implies item_before(
            #[trigger] tb[i],
            #[trigger] tb[j],
        ) by {
            assert(tb[i] == b[i + 1] && tb[j] == b[j + 1]);
        }
        lemma_sorted_items_unique(ta, tb);
        assert(a =~= seq![x] + ta);
        assert(b =~= seq![y] + tb);
    }
}

proof fn lemma_timeline_member(
    orders: Seq<OrderEvent>,
    vouchers: Seq<VoucherEvent>,
    a: Seq<TimelineItem>,
    b: Seq<TimelineItem>,
    t: TimelineItem,
)
    requires
        is_timeline(orders, vouchers, a),
        is_timeline(orders, vouchers, b),
        a.contains(t),
    ensures
        b.contains(t),
{
    let i = choose|i: int| 0 <= i < a.len() && a[i] == t;
    assert(item_of(orders, vouchers, a[i]));
    let idx = t.index as int;
    assert(has_item(b, t.source, idx));
    let j = choose|j: int| 0 <= j < b.len() && #[trigger] b[j].source == t.source && b[j].index == idx;
    assert(item_of(orders, vouchers, b[j]));
    assert(b[j].moment == t.moment);
    assert(b[j].effect == t.effect);
    assert(b[j] == t);
}

/// A debt timeline is fixed by its rows: two timelines of the same rows are
/// the same.
pub proof fn lemma_timeline_unique(
    orders: Seq<OrderEvent>,
    vouchers: Seq<VoucherEvent>,
    a: Seq<TimelineItem>,
    b: Seq<TimelineItem>,
)
    requires
        is_timeline(orders, vouchers, a),
        is_timeline(orders, vouchers, b),
    ensures
        a == b,
{
    assert forall|t: TimelineItem| a.contains(t) <==> b.contains(t) by {
        if a.contains(t) {
            lemma_timeline_member(orders, vouchers, a, b, t);
        }
        if b.contains(t) {
            lemma_timeline_member(orders, vouchers, b, a, t);
        }
    }
    lemma_sorted_items_unique(a, b);
}

/// `t` with its row number moved up by one when it is of source `s` and at
/// or after row `k`: where its row stands once a row of that source is put
/// in at `k`.
pub open spec fn shift_item(t: TimelineItem, s: Source, k: int) -> TimelineItem {
    if t.source == s && t.index >= k {
        TimelineItem {
            source: t.source,
            index: (t.index + 1) as usize,
            moment: t.moment,
            effect: t.effect,
        }
    } else {
        t
    }
}

/// The items of a timeline, each with [`shift_item`].
pub open spec fn shift_from(items: Seq<TimelineItem>, s: Source, k: int) -> Seq<TimelineItem> {
    items.map_values(|t: TimelineItem| shift_item(t, s, k))
}

proof fn lemma_shift_sorted(items: Seq<TimelineItem>, s: Source, k: int)
    requires
        forall|x: int, y: int|
            0 <= x < y < items.len() ==> item_before(#[trigger] items[x], #[trigger] items[y]),
        forall|x: int| 0 <= x < items.len() ==> (#[trigger] items[x]).index < usize::MAX,
    ensures
        forall|x: int, y: int|
            0 <= x < y < items.len() ==> item_before(
                #[trigger] shift_from(items, s, k)[x],
                #[trigger] shift_from(items, s, k)[y],
            ),
{
    let sh = shift_from(items, s, k);
    assert forall|x: int, y: int| 0 <= x < y < items.len() implies item_before(
        #[trigger] sh[x],
        #[trigger] sh[y],
    ) by {
        assert(item_before(items[x], items[y]));
        assert(sh[x] == shift_item(items[x], s, k));
        assert(sh[y] == shift_item(items[y], s, k));
    }
}

proof fn lemma_shift_has_item(items: Seq<TimelineItem>, s: Source, k: int, src: Source, i: int)
    requires
        0 <= k,
        forall|x: int| 0 <= x < items.len() ==> (#[trigger] items[x]).index < usize::MAX,
    ensures
        src != s ==> (has_item(shift_from(items, s, k), src, i) == has_item(items, src, i)),
        src == s && i < k ==> (has_item(shift_from(items, s, k), src, i) == has_item(items, src, i)),
        src == s && i == k ==> !has_item(shift_from(items, s, k), src, i),
        src == s && i > k ==> (has_item(shift_from(items, s, k), src, i) == has_item(
            items,
            src,
            i - 1,
        )),
{
    let sh = shift_from(items, s, k);
    if has_item(sh, src, i) {
        let a = choose|a: int| 0 <= a < sh.len() && #[trigger] sh[a].source == src && sh[a].index == i;
        assert(sh[a] == shift_item(items[a], s, k));
        if src == s && i > k {
            assert(items[a].source == src && items[a].index == i - 1);
        } else {
            assert(items[a].source == src && items[a].index == i);
        }
    }
    if src != s || i < k {
        if has_item(items, src, i) {
            let a = choose|a: int| 0 <= a < items.len() && #[trigger] items[a].source == src && items[a].index == i;
            assert(sh[a] == shift_item(items[a], s, k));
            assert(sh[a].source == src && sh[a].index == i);
        }
    }
    if src == s && i > k {
        if has_item(items, src, i - 1) {
            let a = choose|a: int| 0 <= a < items.len() && #[trigger] items[a].source == src && items[a].index == i - 1;
            assert(sh[a] == shift_item(items[a], s, k));
            assert(sh[a].source == src && sh[a].index == i);
        }
    }
}

proof fn lemma_order_row_inserted(
    orders: Seq<OrderEvent>,
    vouchers: Seq<VoucherEvent>,
    items: Seq<TimelineItem>,
    k: int,
    r: OrderEvent,
)
    requires
        is_timeline(orders, vouchers, items),
        0 <= k <= orders.len(),
        orders.len() < usize::MAX,
        vouchers.len() < usize::MAX,
        !order_on_timeline(r),
    ensures
        is_timeline(orders.insert(k, r), vouchers, shift_from(items, Source::Order, k)),
{
    let o2 = orders.insert(k, r);
    let sh = shift_from(items, Source::Order, k);
    assert forall|x: int| 0 <= x < items.len() implies (#[trigger] items[x]).index < usize::MAX by {
        assert(item_of(orders, vouchers, items[x]));
    }
    assert forall|a: int| 0 <= a < sh.len() implies item_of(o2, vouchers, #[trigger] sh[a]) by {
        let t = items[a];
        assert(item_of(orders, vouchers, t));
        assert(sh[a] == shift_item(t, Source::Order, k));
        if t.source == Source::Order {
            if t.index >= k {
                assert(o2[t.index + 1] == orders[t.index as int]);
            } else {
                assert(o2[t.index as int] == orders[t.index as int]);
            }
        }
    }
    lemma_shift_sorted(items, Source::Order, k);
    assert forall|i: int| 0 <= i < o2.len() implies (order_on_timeline(o2[i]) <==> has_item(
        sh,
        Source::Order,
        i,
    )) by {
        lemma_shift_has_item(items, Source::Order, k, Source::Order, i);
        if i < k {
            assert(o2[i] == orders[i]);
        } else if i > k {
            assert(o2[i] == orders[i - 1]);
        }
    }
    assert forall|i: int| 0 <= i < vouchers.len() implies (voucher_on_timeline(vouchers[i])
        <==> has_item(sh, Source::Voucher, i)) by {
        lemma_shift_has_item(items, Source::Order, k, Source::Voucher, i);
    }
}

proof fn lemma_voucher_row_inserted(
    orders: Seq<OrderEvent>,
    vouchers: Seq<VoucherEvent>,
    items: Seq<TimelineItem>,
    k: int,
    r: VoucherEvent,
)
    requires
        is_timeline(orders, vouchers, items),
        0 <= k <= vouchers.len(),
        orders.len() < usize::MAX,
        vouchers.len() < usize::MAX,
        !voucher_on_timeline(r),
    ensures
        is_timeline(orders, vouchers.insert(k, r), shift_from(items, Source::Voucher, k)),
{
    let v2 = vouchers.insert(k, r);
    let sh = shift_from(items, Source::Voucher, k);
    assert forall|x: int| 0 <= x < items.len() implies (#[trigger] items[x]).index < usize::MAX by {
        assert(item_of(orders, vouchers, items[x]));
    }
    assert forall|a: int| 0 <= a < sh.len() implies item_of(orders, v2, #[trigger] sh[a]) by {
        let t = items[a];
        assert(item_of(orders, vouchers, t));
        assert(sh[a] == shift_item(t, Source::Voucher, k));
        if t.source == Source::Voucher {
            if t.index >= k {
                assert(v2[t.index + 1] == vouchers[t.index as int]);
            } else {
                assert(v2[t.index as int] == vouchers[t.index as int]);
            }
        }
    }
    lemma_shift_sorted(items, Source::Voucher, k);
    assert forall|i: int| 0 <= i < v2.len() implies (voucher_on_timeline(v2[i]) <==> has_item(
        sh,
        Source::Voucher,
        i,
    )) by {
        lemma_shift_has_item(items, Source::Voucher, k, Source::Voucher, i);
        if i < k {
            assert(v2[i] == vouchers[i]);
        } else if i > k {
            assert(v2[i] == vouchers[i - 1]);
        }
    }
    assert forall|i: int| 0 <= i < orders.len() implies (order_on_timeline(orders[i]) <==> has_item(
        sh,
        Source::Order,
        i,
    )) by {
        lemma_shift_has_item(items, Source::Voucher, k, Source::Order, i);
    }
}

/// An order that is not a dated debt order leaves the debt timeline as it
/// was, wherever it stands among the rows: the same items in the same order
/// (same source, moment and effect, hence the same debt cycles), with only
/// the row numbers of the orders after it moved up by one.
pub proof fn lemma_off_timeline_order_ignored(
    orders: Seq<OrderEvent>,
    vouchers: Seq<VoucherEvent>,
    k: int,
    r: OrderEvent,
    before: Seq<TimelineItem>,
    after: Seq<TimelineItem>,
)
    requires
        0 <= k <= orders.len(),
        orders.len() < usize::MAX,
        vouchers.len() < usize::MAX,
        !order_on_timeline(r),
        is_timeline(orders, vouchers, before),
        is_timeline(orders.insert(k, r), vouchers, after),
    ensures
        after == shift_from(before, Source::Order, k),
        after.len() == before.len(),
        forall|a: int|
            0 <= a < after.len() ==> (#[trigger] after[a]).source == before[a].source
                && after[a].moment == before[a].moment && after[a].effect == before[a].effect,
{
    lemma_order_row_inserted(orders, vouchers, before, k, r);
    lemma_timeline_unique(orders.insert(k, r), vouchers, after, shift_from(before, Source::Order, k));
    assert forall|a: int| 0 <= a < after.len() implies (#[trigger] after[a]).source
        == before[a].source && after[a].moment == before[a].moment && after[a].effect
        == before[a].effect by {
        assert(after[a] == shift_item(before[a], Source::Order, k));
    }
}

/// A voucher that is undated, made automatically or without a source leaves
/// the debt timeline as it was, wherever it stands among the rows: the same
/// items in the same order (same source, moment and effect, hence the same
/// debt cycles), with only the row numbers of the vouchers after it moved up
/// by one.
pub proof fn lemma_off_timeline_voucher_ignored(
    orders: Seq<OrderEvent>,
    vouchers: Seq<VoucherEvent>,
    k: int,
    r: VoucherEvent,
    before: Seq<TimelineItem>,
    after: Seq<TimelineItem>,
)
    requires
        0 <= k <= vouchers.len(),
        orders.len() < usize::MAX,
        vouchers.len() < usize::MAX,
        !voucher_on_timeline(r),
        is_timeline(orders, vouchers, before),
        is_timeline(orders, vouchers.insert(k, r), after),
    ensures
        after == shift_from(before, Source::Voucher, k),
        after.len() == before.len(),
        forall|a: int|
            0 <= a < after.len() ==> (#[trigger] after[a]).source == before[a].source
                && after[a].moment == before[a].moment && after[a].effect == before[a].effect,
{
    lemma_voucher_row_inserted(orders, vouchers, before, k, r);
    lemma_timeline_unique(orders, vouchers.insert(k, r), after, shift_from(before, Source::Voucher, k));
    assert forall|a: int| 0 <= a < after.len() implies (#[trigger] after[a]).source
        == before[a].source && after[a].moment == before[a].moment && after[a].effect
        == before[a].effect by {
        assert(after[a] == shift_item(before[a], Source::Voucher, k));
    }
}

/// Whether `pos` places `n` rows, in order, among `m` rows: row `i` stands
/// at position `pos[i]`, and the positions rise.
pub open spec fn places(pos: Seq<int>, n: nat, m: nat) -> bool {
    &&& pos.len() == n
    &&& forall|i: int| 0 <= i < n ==> 0 <= #[trigger] pos[i] < m
    &&& forall|i: int, j: int| 0 <= i < j < n ==> #[trigger] pos[i] < #[trigger] pos[j]
}

/// Whether some row is placed at position `j`.
pub open spec fn placed(pos: Seq<int>, j: int) -> bool {
    exists|i: int| 0 <= i < pos.len() && #[trigger] pos[i] == j
}

/// `t` with its row number moved to where `pos_o` (for orders) or `pos_v`
/// (for vouchers) places its row.
pub open spec fn relabel_item(t: TimelineItem, pos_o: Seq<int>, pos_v: Seq<int>) -> TimelineItem {
    let p = match t.source {
        Source::Order => pos_o[t.index as int],
        Source::Voucher => pos_v[t.index as int],
    };
    TimelineItem { source: t.source, index: p as usize, moment: t.moment, effect: t.effect }
}

/// The items of a timeline, each with [`relabel_item`].
pub open spec fn relabel(items: Seq<TimelineItem>, pos_o: Seq<int>, pos_v: Seq<int>) -> Seq<
    TimelineItem,
> {
    items.map_values(|t: TimelineItem| relabel_item(t, pos_o, pos_v))
}

proof fn lemma_relabel_has_item(
    items: Seq<TimelineItem>,
    pos_o: Seq<int>,
    pos_v: Seq<int>,
    src: Source,
    pos: Seq<int>,
    n: nat,
    m: nat,
    j: int,
)
    requires
        places(pos, n, m),
        m <= usize::MAX,
        pos == (match src {
            Source::Order => pos_o,
            Source::Voucher => pos_v,
        }),
        forall|a: int|
            0 <= a < items.len() && (#[trigger] items[a]).source == src ==> items[a].index < n,
    ensures
        has_item(relabel(items, pos_o, pos_v), src, j) ==> placed(pos, j),
        forall|i: int|
            0 <= i < n && pos[i] == j ==> (has_item(relabel(items, pos_o, pos_v), src, j)
                == has_item(items, src, i)),
{
    let r = relabel(items, pos_o, pos_v);
    if has_item(r, src, j) {
        let a = choose|a: int| 0 <= a < r.len() && #[trigger] r[a].source == src && r[a].index == j;
        assert(r[a] == relabel_item(items[a], pos_o, pos_v));
        let i0 = items[a].index as int;
        assert(items[a].source == src);
        assert(0 <= pos[i0] < m);
        assert(pos[i0] == j);
    }
    assert forall|i: int| 0 <= i < n && pos[i] == j implies (has_item(r, src, j) == has_item(
        items,
        src,
        i,
    )) by {
        if has_item(items, src, i) {
            let a = choose|a: int|
                0 <= a < items.len() && #[trigger] items[a].source == src && items[a].index == i;
            assert(r[a] == relabel_item(items[a], pos_o, pos_v));
            assert(0 <= pos[i] < m);
            assert(r[a].source == src && r[a].index == j);
        }
        if has_item(r, src, j) {
            let a = choose|a: int| 0 <= a < r.len() && #[trigger] r[a].source == src && r[a].index == j;
            assert(r[a] == relabel_item(items[a], pos_o, pos_v));
            let i0 = items[a].index as int;
            assert(items[a].source == src);
            assert(0 <= pos[i0] < m);
            if i0 < i {
                assert(pos[i0] < pos[i]);
            } else if i0 > i {
                assert(pos[i] < pos[i0]);
            }
        }
    }
}

/// Rows that stay off the debt timeline do not change it, however many and
/// wherever they stand: when `orders2` and `vouchers2` hold the rows of
/// `orders` and `vouchers` in order (at the positions `pos_o` and `pos_v`
/// give) and every other row is an order that is no dated debt order or a
/// voucher that is undated, made automatically or without a source, the
/// timeline of the larger rows is that of the smaller ones item for item
/// (same source, moment and effect, hence the same debt cycles), with only
/// the row numbers moved to the rows' new places.
pub proof fn lemma_off_timeline_rows_ignored(
    orders: Seq<OrderEvent>,
    vouchers: Seq<VoucherEvent>,
    orders2: Seq<OrderEvent>,
    vouchers2: Seq<VoucherEvent>,
    pos_o: Seq<int>,
    pos_v: Seq<int>,
    before: Seq<TimelineItem>,
    after: Seq<TimelineItem>,
)
    requires
        places(pos_o, orders.len(), orders2.len()),
        places(pos_v, vouchers.len(), vouchers2.len()),
        orders2.len() <= usize::MAX,
        vouchers2.len() <= usize::MAX,
        forall|i: int| 0 <= i < orders.len() ==> orders2[#[trigger] pos_o[i]] == orders[i],
        forall|i: int| 0 <= i < vouchers.len() ==> vouchers2[#[trigger] pos_v[i]] == vouchers[i],
        forall|j: int|
            0 <= j < orders2.len() && !placed(pos_o, j) ==> !order_on_timeline(
                #[trigger] orders2[j],
            ),
        forall|j: int|
            0 <= j < vouchers2.len() && !placed(pos_v, j) ==> !voucher_on_timeline(
                #[trigger] vouchers2[j],
            ),
        is_timeline(orders, vouchers, before),
        is_timeline(orders2, vouchers2, after),
    ensures
        after == relabel(before, pos_o, pos_v),
        after.len() == before.len(),
        forall|a: int|
            0 <= a < after.len() ==> (#[trigger] after[a]).source == before[a].source
                && after[a].moment == before[a].moment && after[a].effect == before[a].effect,
{
    let r = relabel(before, pos_o, pos_v);
    assert forall|a: int|
        0 <= a < before.len() && (#[trigger] before[a]).source == Source::Order implies before[a].index
        < orders.len() by {
        assert(item_of(orders, vouchers, before[a]));
    }
    assert forall|a: int|
        0 <= a < before.len() && (#[trigger] before[a]).source == Source::Voucher implies before[a].index
        < vouchers.len() by {
        assert(item_of(orders, vouchers, before[a]));
    }
    assert forall|a: int| 0 <= a < r.len() implies item_of(orders2, vouchers2, #[trigger] r[a]) by {
        let t = before[a];
        assert(item_of(orders, vouchers, t));
        assert(r[a] == relabel_item(t, pos_o, pos_v));
        let i = t.index as int;
        if t.source == Source::Order {
            assert(0 <= pos_o[i] < orders2.len());
            assert(orders2[pos_o[i]] == orders[i]);
        } else {
            assert(0 <= pos_v[i] < vouchers2.len());
            assert(vouchers2[pos_v[i]] == vouchers[i]);
        }
    }
    assert forall|x: int, y: int| 0 <= x < y < r.len() implies item_before(
        #[trigger] r[x],
        #[trigger] r[y],
    ) by {
        let tx = before[x];
        let ty = before[y];
        assert(item_before(tx, ty));
        assert(item_of(orders, vouchers, tx));
        assert(item_of(orders, vouchers, ty));
        assert(r[x] == relabel_item(tx, pos_o, pos_v));
        assert(r[y] == relabel_item(ty, pos_o, pos_v));
        let ix = tx.index as int;
        let iy = ty.index as int;
        if tx.source == ty.source && ix < iy {
            if tx.source == Source::Order {
                assert(pos_o[ix] < pos_o[iy]);
                assert(0 <= pos_o[ix] < orders2.len() && 0 <= pos_o[iy] < orders2.len());
            } else {
                assert(pos_v[ix] < pos_v[iy]);
                assert(0 <= pos_v[ix] < vouchers2.len() && 0 <= pos_v[iy] < vouchers2.len());
            }
        }
    }
    assert forall|j: int| 0 <= j < orders2.len() implies (order_on_timeline(orders2[j])
        <==> has_item(r, Source::Order, j)) by {
        lemma_relabel_has_item(
            before,
            pos_o,
            pos_v,
            Source::Order,
            pos_o,
            orders.len(),
            orders2.len(),
            j,
        );
        if placed(pos_o, j) {
            let i = choose|i: int| 0 <= i < pos_o.len() && #[trigger] pos_o[i] == j;
            assert(orders2[pos_o[i]] == orders[i]);
        }
    }
    assert forall|j: int| 0 <= j < vouchers2.len() implies (voucher_on_timeline(vouchers2[j])
        <==> has_item(r, Source::Voucher, j)) by {
        lemma_relabel_has_item(
            before,
            pos_o,
            pos_v,
            Source::Voucher,
            pos_v,
            vouchers.len(),
            vouchers2.len(),
            j,
        );
        if placed(pos_v, j) {
            let i = choose|i: int| 0 <= i < pos_v.len() && #[trigger] pos_v[i] == j;
            assert(vouchers2[pos_v[i]] == vouchers[i]);
        }
    }
    lemma_timeline_unique(orders2, vouchers2, after, r);
    assert forall|a: int| 0 <= a < after.len() implies (#[trigger] after[a]).source
        == before[a].source && after[a].moment == before[a].moment && after[a].effect
        == before[a].effect by {
        assert(after[a] == relabel_item(before[a], pos_o, pos_v));
    }
}

/// Which rows the debt timeline holds and how they move the balance, stated
/// on the rows' own fields: an order is on it exactly when it is dated and
/// paid on `Debt`, and a voucher exactly when it is dated and has a source
/// other than `auto` (manual entries, quick debt entries and any other
/// source count). A sale raises the balance and any other order lowers it; a
/// receipt lowers it and any other voucher raises it.
pub proof fn lemma_timeline_rows(
    orders: Seq<OrderEvent>,
    vouchers: Seq<VoucherEvent>,
    items: Seq<TimelineItem>,
    i: int,
)
    requires
        is_timeline(orders, vouchers, items),
    ensures
        0 <= i < orders.len() ==> (has_item(items, Source::Order, i) <==> (orders[i].date is Some
            && orders[i].payment_method is Some && orders[i].payment_method.unwrap()@ == "Debt"@)),
        0 <= i < vouchers.len() ==> (has_item(items, Source::Voucher, i) <==> (
        vouchers[i].date is Some && vouchers[i].source is Some && vouchers[i].source.unwrap()@
            != "auto"@)),
        0 <= i < items.len() && items[i].source == Source::Order ==> (items[i].effect
            == Effect::Increase <==> orders[items[i].index as int].o_type@ == "Sale"@)
            && items[i].effect != Effect::Unchanged,
        0 <= i < items.len() && items[i].source == Source::Voucher ==> (items[i].effect
            == Effect::Decrease <==> vouchers[items[i].index as int].v_type@ == "Receipt"@)
            && items[i].effect != Effect::Unchanged,
{
    if 0 <= i < items.len() {
        assert(item_of(orders, vouchers, items[i]));
    }
}

/// The debt timeline runs forward in time: a later item never has an
/// earlier moment; at the same moment orders come before vouchers; and rows
/// of one kind at the same moment keep the order they were read in.
pub proof fn lemma_timeline_in_time_order(
    orders: Seq<OrderEvent>,
    vouchers: Seq<VoucherEvent>,
    items: Seq<TimelineItem>,
    a: int,
    b: int,
)
    requires
        is_timeline(orders, vouchers, items),
        0 <= a < b < items.len(),
    ensures
        items[a].moment.secs < items[b].moment.secs || (items[a].moment.secs
            == items[b].moment.secs && items[a].moment.nanos <= items[b].moment.nanos),
        items[a].moment == items[b].moment && items[a].source == Source::Voucher ==> items[b].source
            == Source::Voucher,
        items[a].moment == items[b].moment && items[a].source == items[b].source ==> items[a].index
            < items[b].index,
{
    assert(item_before(items[a], items[b]));
}

/// Only orders paid on `Debt` move the ledger balance: an order paid any
/// other way (`Cash`, or with no method) neither raises nor lowers it; a
/// debt sale raises it and a debt purchase lowers it. Every voucher moves
/// it: a receipt lowers it, a payment or a debt increase raises it, and any
/// other voucher leaves it as it was.
pub proof fn lemma_ledger_moves(o: LedgerOrder, lo: LedgerLine, v: LedgerVoucher, lv: LedgerLine)
    requires
        is_order_line(o, lo),
        is_voucher_line(v, lv),
    ensures
        lo.moves_balance <==> (o.payment_method is Some && o.payment_method.unwrap()@ == "Debt"@),
        !lo.moves_balance ==> lo.effect == Effect::Unchanged,
        lo.moves_balance && o.o_type@ == "Sale"@ ==> lo.effect == Effect::Increase,
        lo.moves_balance && o.o_type@ == "Purchase"@ ==> lo.effect == Effect::Decrease,
        lv.moves_balance,
        v.v_type@ == "Receipt"@ ==> lv.effect == Effect::Decrease,
        v.v_type@ == "Payment"@ || v.v_type@ == "DebtIncrease"@ ==> lv.effect == Effect::Increase,
        v.v_type@ != "Receipt"@ && v.v_type@ != "Payment"@ && v.v_type@ != "DebtIncrease"@
            ==> lv.effect == Effect::Unchanged,
{
    reveal_strlit("Sale");
    reveal_strlit("Purchase");
    reveal_strlit("Receipt");
    reveal_strlit("Payment");
    reveal_strlit("DebtIncrease");
    assert("Sale"@ != "Purchase"@) by {
        assert("Sale"@.len() != "Purchase"@.len());
    }
    assert("Receipt"@ != "Payment"@) by {
        assert("Receipt"@[0] != "Payment"@[0]);
    }
    assert("Receipt"@ != "DebtIncrease"@) by {
        assert("Receipt"@.len() != "DebtIncrease"@.len());
    }
}

/// One debt cycle: numbered from one, from the timeline position where the
/// balance left zero to the one where it came back (none while still owed).
#[derive(Clone, Copy, Debug, PartialEq, Eq, Structural)]
pub struct DebtCycle {
    pub number: i32,
    pub start: usize,
    pub end: Option<usize>,
}

/// Whether the last cycle is still open.
pub open spec fn has_open_cycle(cycles: Seq<DebtCycle>) -> bool {
    cycles.len() > 0 && cycles.last().end is None
}

/// Whether a step at this position, from a settled or unsettled balance to a
/// settled or unsettled one, starts a cycle.
pub open spec fn starts_cycle(cycles: Seq<DebtCycle>, was_settled: bool, now_settled: bool) -> bool {
    was_settled && !now_settled && !has_open_cycle(cycles)
}

/// The cycles after one timeline step at position `pos`: a cycle starts
/// when a settled balance becomes unsettled and none is open; the open cycle
/// ends when the balance is settled again.
pub open spec fn cycle_step(
    pos: nat,
    cycles: Seq<DebtCycle>,
    was_settled: bool,
    now_settled: bool,
) -> Seq<DebtCycle> {
    let c1 = if starts_cycle(cycles, was_settled, now_settled) {
        cycles.push(DebtCycle { number: (cycles.len() + 1) as i32, start: pos as usize, end: None })
    } else {
        cycles
    };
    if has_open_cycle(c1) && now_settled {
        c1.update(
            c1.len() - 1,
            DebtCycle { number: c1.last().number, start: c1.last().start, end: Some(pos as usize) },
        )
    } else {
        c1
    }
}

/// Whether the cycles seen after `steps` timeline steps are consistent: they
/// are numbered 1, 2, ... in order, each starts before it ends, each ends
/// before the next starts, only the last may be open, and all lie in the
/// steps taken.
pub open spec fn cycles_wf(steps: nat, cycles: Seq<DebtCycle>) -> bool {
    &&& forall|k: int| 0 <= k < cycles.len() ==> (#[trigger] cycles[k]).number == k + 1
    &&& forall|k: int| 0 <= k < cycles.len() ==> (#[trigger] cycles[k]).start < steps
    &&& forall|k: int|
        0 <= k < cycles.len() ==> ((#[trigger] cycles[k]).end matches Some(e) ==> cycles[k].start
            < e && e < steps)
    &&& forall|k: int| 0 <= k < cycles.len() - 1 ==> (#[trigger] cycles[k]).end is Some
    &&& forall|k: int|
        0 <= k < cycles.len() - 1 ==> (#[trigger] cycles[k]).end.unwrap() < cycles[k + 1].start
}

/// Follows a partner's balance along its debt timeline and records its debt
/// cycles. It remembers whether the balance after the last step was settled
/// (below one in size), starting from a settled balance.
pub struct CycleTracker {
    steps: usize,
    cycles: Vec<DebtCycle>,
    settled: bool,
}

impl CycleTracker {
    /// The number of timeline steps taken.
    pub closed spec fn steps(&self) -> nat {
        self.steps as nat
    }

    /// The cycles seen so far, oldest first.
    pub closed spec fn cycles(&self) -> Seq<DebtCycle> {
        self.cycles@
    }

    /// Whether the balance after the last step is settled.
    pub closed spec fn settled(&self) -> bool {
        self.settled
    }

    /// Whether the tracker's state is consistent: its cycles are, and a
    /// cycle is open exactly when the balance is not settled.
    pub closed spec fn wf(&self) -> bool {
        &&& cycles_wf(self.steps as nat, self.cycles@)
        &&& has_open_cycle(self.cycles@) == !self.settled
    }

    /// A tracker before the first step, with a settled balance.
    pub fn new() -> (t: CycleTracker)
        ensures
            t.wf(),
            t.steps() == 0,
            t.cycles() == Seq::<DebtCycle>::empty(),
            t.settled(),
    {
        CycleTracker { steps: 0, cycles: Vec::new(), settled: true }
    }

    /// Takes the next timeline step: `now_settled` says whether the balance
    /// after the step is below one in size; the balance before it is the one
    /// the last step left.
    pub fn advance(&mut self, now_settled: bool)
        requires
            old(self).wf(),
            old(self).steps() < usize::MAX,
            starts_cycle(old(self).cycles(), old(self).settled(), now_settled) ==> old(
                self,
            ).cycles().len() < i32::MAX,
        ensures
            final(self).wf(),
            final(self).steps() == old(self).steps() + 1,
            final(self).settled() == now_settled,
            final(self).cycles() == cycle_step(
                old(self).steps(),
                old(self).cycles(),
                old(self).settled(),
                now_settled,
            ),
            has_open_cycle(final(self).cycles()) == !now_settled,
    {
        proof {
            lemma_open_cycle_iff_owed(
                self.steps as nat,
                self.cycles@,
                self.settled,
                now_settled,
            );
        }
        let was_settled = self.settled;
        let pos = self.steps;
        let n = self.cycles.len();
        let open = n > 0 && self.cycles[n - 1].end.is_none();
        if was_settled && !now_settled && !open {
            let number = (n + 1) as i32;
            self.cycles.push(DebtCycle { number, start: pos, end: None });
        }
        let n = self.cycles.len();
        if n > 0 && self.cycles[n - 1].end.is_none() && now_settled {
            let last = self.cycles[n - 1];
            self.cycles.set(n - 1, DebtCycle { number: last.number, start: last.start, end: Some(pos) });
        }
        self.steps = pos + 1;
        self.settled = now_settled;
    }

    /// Whether the next step can be taken without overflowing the step or
    /// cycle count.
    pub fn can_advance(&self, now_settled: bool) -> (r: bool)
        requires
            self.wf(),
        ensures
            r == (self.steps() < usize::MAX && (starts_cycle(self.cycles(), self.settled(), now_settled)
                ==> self.cycles().len() < i32::MAX)),
    {
        let n = self.cycles.len();
        let open = n > 0 && self.cycles[n - 1].end.is_none();
        let starts = self.settled && !now_settled && !open;
        self.steps < usize::MAX && (!starts || n < i32::MAX as usize)
    }

    /// The cycles, newest first.
    pub fn newest_first(&self) -> (r: Vec<DebtCycle>)
        ensures
            r@ == self.cycles().reverse(),
    {
        let n = self.cycles.len();
        let mut r: Vec<DebtCycle> = Vec::new();
        let mut k = n;
        while k > 0
            invariant
                n == self.cycles@.len(),
                k <= n,
                r@ == self.cycles@.subrange(k as int, n as int).reverse(),
            decreases k,
        {
            k = k - 1;
            r.push(self.cycles[k]);
            assert(r@ =~= self.cycles@.subrange(k as int, n as int).reverse());
        }
        assert(self.cycles@.subrange(0, n as int) =~= self.cycles@);
        r
    }
}

/// The status shown for a cycle: still owed, or settled.
pub open spec fn cycle_status_text(c: DebtCycle) -> Seq<char> {
    match c.end {
        None => "Đang nợ"@,
        Some(_) => "Đã tất toán"@,
    }
}

impl DebtCycle {
    /// The status shown for the cycle.
    pub fn status(&self) -> (s: &'static str)
        ensures
            s@ == cycle_status_text(*self),
    {
        match self.end {
            None => "Đang nợ",
            Some(_) => "Đã tất toán",
        }
    }

    /// `Chu kỳ <number> (Từ <start date>)`, the title shown for the cycle.
    pub fn label(&self, start_date: &str) -> (s: String)
        ensures
            s@ == cycle_label(*self, start_date@),
    {
        let mut s = "Chu kỳ ".to_owned();
        s.append(format_i64(self.number as i64).as_str());
        s.append(" (Từ ");
        s.append(start_date);
        s.append(")");
        s
    }
}

/// `Chu kỳ <number> (Từ <start date>)`, the title shown for a cycle.
pub open spec fn cycle_label(c: DebtCycle, start_date: Seq<char>) -> Seq<char> {
    "Chu kỳ "@ + decimal_int(c.number as int) + " (Từ "@ + start_date + ")"@
}

impl DebtCycle {
    /// The title shown for the cycle, with the day it started (at `start`)
    /// written as `dd/mm/yy`; `None` when `chrono` cannot place the moment.
    pub fn title(&self, start: Moment) -> (r: Option<String>)
        ensures
            match moment_day_text(start.secs, start.nanos) {
                Some(d) => r matches Some(s) && s@ == cycle_label(*self, d),
                None => r is None,
            },
    {
        match format_moment_day(start.secs, start.nanos) {
            Some(d) => Some(self.label(d.as_str())),
            None => None,
        }
    }
}

/// The text shown for a date: the date and time as `chrono` writes them,
/// or the empty text for a row without a date; `None` when `chrono` cannot
/// place the moment.
pub fn date_text(date: Option<Moment>) -> (r: Option<String>)
    ensures
        match date {
            None => r matches Some(s) && s@.len() == 0,
            Some(m) => match moment_text(m.secs, m.nanos) {
                Some(t) => r matches Some(s) && s@ == t,
                None => r is None,
            },
        },
{
    match date {
        None => Some(String::new()),
        Some(m) => format_moment(m.secs, m.nanos),
    }
}

/// Every step keeps the cycles consistent.
pub proof fn lemma_cycle_step_wf(pos: nat, cycles: Seq<DebtCycle>, was_settled: bool, now_settled: bool)
    requires
        cycles_wf(pos, cycles),
        pos < usize::MAX,
        cycles.len() < i32::MAX,
    ensures
        cycles_wf(pos + 1, cycle_step(pos, cycles, was_settled, now_settled)),
{
}

/// A debt cycle is open exactly when the last balance is owed: if that holds
/// before a step, it holds after it, for the balance the step leaves.
pub proof fn lemma_open_cycle_iff_owed(
    pos: nat,
    cycles: Seq<DebtCycle>,
    was_settled: bool,
    now_settled: bool,
)
    requires
        has_open_cycle(cycles) == !was_settled,
    ensures
        has_open_cycle(cycle_step(pos, cycles, was_settled, now_settled)) == !now_settled,
{
}

/// What the ledger shows for an order.
pub struct LedgerOrder {
    pub id: i64,
    pub display_id: Option<String>,
    pub o_type: String,
    pub payment_method: Option<String>,
}

/// What the ledger shows for a (non-automatic) cash voucher.
pub struct LedgerVoucher {
    pub id: i64,
    pub v_type: String,
    pub note: Option<String>,
}

/// A ledger line without its amounts: its id, reference, description,
/// source, payment method, how it moves the balance, and whether it enters
/// the running balance at all.
pub struct LedgerLine {
    pub id: i64,
    pub ref_id: String,
    pub desc: String,
    pub source: Source,
    pub payment_method: String,
    pub effect: Effect,
    pub moves_balance: bool,
}

/// Whether an order was paid on debt.
pub open spec fn paid_on_debt(pm: Option<String>) -> bool {
    pm matches Some(p) && p@ == "Debt"@
}

/// How an order moves the ledger balance: a sale on debt raises it, a
/// purchase on debt lowers it, anything else leaves it.
pub open spec fn order_ledger_effect(o: LedgerOrder) -> Effect {
    if paid_on_debt(o.payment_method) && o.o_type@ == "Sale"@ {
        Effect::Increase
    } else if paid_on_debt(o.payment_method) && o.o_type@ == "Purchase"@ {
        Effect::Decrease
    } else {
        Effect::Unchanged
    }
}

/// The reference of an order: its display id, or `ORD-<id>`.
pub open spec fn order_ref(o: LedgerOrder) -> Seq<char> {
    match o.display_id {
        Some(d) => d@,
        None => "ORD-"@ + decimal_int(o.id as int),
    }
}

/// Whether `l` is the ledger line of order `o`.
pub open spec fn is_order_line(o: LedgerOrder, l: LedgerLine) -> bool {
    &&& l.id == o.id
    &&& l.ref_id@ == order_ref(o)
    &&& l.desc@ == if o.o_type@ == "Sale"@ {
        "Bán hàng - #"@ + order_ref(o)
    } else {
        "Nhập hàng - #"@ + order_ref(o)
    }
    &&& l.source == Source::Order
    &&& l.payment_method@ == match o.payment_method {
        Some(p) => p@,
        None => "Cash"@,
    }
    &&& l.effect == order_ledger_effect(o)
    &&& l.moves_balance == paid_on_debt(o.payment_method)
}

/// How a voucher moves the ledger balance: a payment or a debt increase
/// raises it, a receipt lowers it, anything else leaves it.
pub open spec fn voucher_ledger_effect(v_type: Seq<char>) -> Effect {
    if v_type == "Payment"@ || v_type == "DebtIncrease"@ {
        Effect::Increase
    } else if v_type == "Receipt"@ {
        Effect::Decrease
    } else {
        Effect::Unchanged
    }
}

/// Whether `l` is the ledger line of voucher `v`.
pub open spec fn is_voucher_line(v: LedgerVoucher, l: LedgerLine) -> bool {
    &&& l.id == v.id
    &&& l.ref_id@ == "VOU-"@ + decimal_int(v.id as int)
    &&& l.desc@ == match v.note {
        Some(n) => n@,
        None => if v.v_type@ == "Receipt"@ {
            "Phiếu thu"@
        } else {
            "Phiếu chi"@
        },
    }
    &&& l.source == Source::Voucher
    &&& l.payment_method@ == "Cash"@
    &&& l.effect == voucher_ledger_effect(v.v_type@)
    &&& l.moves_balance
}

/// The ledger line of an order.
pub fn order_line(o: &LedgerOrder) -> (l: LedgerLine)
    ensures
        is_order_line(*o, l),
{
    let is_debt = match &o.payment_method {
        Some(p) => str_eq(p.as_str(), "Debt"),
        None => false,
    };
    let is_sale = str_eq(o.o_type.as_str(), "Sale");
    let effect = if is_debt && is_sale {
        Effect::Increase
    } else if is_debt && str_eq(o.o_type.as_str(), "Purchase") {
        Effect::Decrease
    } else {
        Effect::Unchanged
    };
    let ref_id = match &o.display_id {
        Some(d) => d.clone(),
        None => {
            let mut r = "ORD-".to_owned();
            r.append(format_i64(o.id).as_str());
            r
        },
    };
    let mut desc = if is_sale {
        "Bán hàng - #".to_owned()
    } else {
        "Nhập hàng - #".to_owned()
    };
    desc.append(ref_id.as_str());
    let payment_method = match &o.payment_method {
        Some(p) => p.clone(),
        None => "Cash".to_owned(),
    };
    LedgerLine {
        id: o.id,
        ref_id,
        desc,
        source: Source::Order,
        payment_method,
        effect,
        moves_balance: is_debt,
    }
}

/// The ledger line of a voucher.
pub fn voucher_line(v: &LedgerVoucher) -> (l: LedgerLine)
    ensures
        is_voucher_line(*v, l),
{
    let effect = if str_eq(v.v_type.as_str(), "Payment") || str_eq(v.v_type.as_str(), "DebtIncrease") {
        Effect::Increase
    } else if str_eq(v.v_type.as_str(), "Receipt") {
        Effect::Decrease
    } else {
        Effect::Unchanged
    };
    let mut ref_id = "VOU-".to_owned();
    ref_id.append(format_i64(v.id).as_str());
    let desc = match &v.note {
        Some(n) => n.clone(),
        None => if str_eq(v.v_type.as_str(), "Receipt") {
            "Phiếu thu".to_owned()
        } else {
            "Phiếu chi".to_owned()
        },
    };
    LedgerLine {
        id: v.id,
        ref_id,
        desc,
        source: Source::Voucher,
        payment_method: "Cash".to_owned(),
        effect,
        moves_balance: true,
    }
}

/// The lines of a partner's ledger in the order its running balance is
/// added up: the orders as given, then the vouchers as given. The ledger is
/// shown newest first, the reverse of this order.
pub fn ledger_lines(orders: &Vec<LedgerOrder>, vouchers: &Vec<LedgerVoucher>) -> (lines: Vec<
    LedgerLine,
>)
    ensures
        lines@.len() == orders@.len() + vouchers@.len(),
        forall|i: int| 0 <= i < orders@.len() ==> is_order_line(orders@[i], #[trigger] lines@[i]),
        forall|i: int|
            0 <= i < vouchers@.len() ==> is_voucher_line(
                vouchers@[i],
                #[trigger] lines@[orders@.len() + i],
            ),
{
    let mut lines: Vec<LedgerLine> = Vec::new();
    let n = orders.len();
    for i in 0..n
        invariant
            n == orders@.len(),
            lines@.len() == i,
            forall|k: int| 0 <= k < i ==> is_order_line(orders@[k], #[trigger] lines@[k]),
    {
        lines.push(order_line(&orders[i]));
    }
    let m = vouchers.len();
    for i in 0..m
        invariant
            n == orders@.len(),
            m == vouchers@.len(),
            lines@.len() == n + i,
            forall|k: int| 0 <= k < n ==> is_order_line(orders@[k], #[trigger] lines@[k]),
            forall|k: int| 0 <= k < i ==> is_voucher_line(vouchers@[k], #[trigger] lines@[n + k]),
    {
        lines.push(voucher_line(&vouchers[i]));
    }
    lines
}

/// For a sale or a purchase on debt, the ledger and the debt timeline move
/// the balance the same way.
pub proof fn lemma_order_effects_agree(o: LedgerOrder)
    requires
        paid_on_debt(o.payment_method),
        o.o_type@ == "Sale"@ || o.o_type@ == "Purchase"@,
    ensures
        order_ledger_effect(o) == order_timeline_effect(o.o_type@),
{
    reveal_strlit("Sale");
    reveal_strlit("Purchase");
    assert("Sale"@ != "Purchase"@) by {
        assert("Sale"@.len() != "Purchase"@.len());
    }
}

/// For a receipt, a payment or a debt increase, the ledger and the debt
/// timeline move the balance the same way.
pub proof fn lemma_voucher_effects_agree(v_type: Seq<char>)
    requires
        v_type == "Receipt"@ || v_type == "Payment"@ || v_type == "DebtIncrease"@,
    ensures
        voucher_ledger_effect(v_type) == voucher_timeline_effect(v_type),
{
    reveal_strlit("Receipt");
    reveal_strlit("Payment");
    reveal_strlit("DebtIncrease");
    assert("Receipt"@ != "Payment"@) by {
        assert("Receipt"@[0] != "Payment"@[0]);
    }
    assert("Receipt"@ != "DebtIncrease"@) by {
        assert("Receipt"@.len() != "DebtIncrease"@.len());
    }
}

} // verus!
