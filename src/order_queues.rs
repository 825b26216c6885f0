use std::collections::HashMap;
use vstd::prelude::*;

use crate::domain::{Order, OrderSide};

verus! {

broadcast use vstd::std_specs::hash::group_hash_axioms;

/// A read-only summary of one resting order.
#[derive(PartialEq, Eq, Structural, Clone, Copy, Debug)]
pub struct OrderIndex {
    pub id: u64,
    pub side: OrderSide,
    pub price: u64,
    pub qty: u128,
    pub timestamp: u64,
}

/// Whether price `p` is at least as good as price `q` for a resting order on
/// `side`: higher is better for bids, lower for asks.
pub open spec fn at_least_as_good(side: OrderSide, p: u64, q: u64) -> bool {
    match side {
        OrderSide::Bid => p >= q,
        OrderSide::Ask => p <= q,
    }
}

/// Whether price `p` is strictly better than price `q` on `side`.
pub open spec fn strictly_better(side: OrderSide, p: u64, q: u64) -> bool {
    !at_least_as_good(side, q, p)
}

/// Orders listed best price first; orders of equal price keep their order.
pub open spec fn sorted_by_priority<A>(side: OrderSide, s: Seq<Order<A>>) -> bool {
    forall|i: int, j: int|
        0 <= i < j < s.len() ==> at_least_as_good(side, #[trigger] s[i].price, #[trigger] s[j].price)
}

pub open spec fn ids_distinct<A>(s: Seq<Order<A>>) -> bool {
    forall|i: int, j: int|
        0 <= i < s.len() && 0 <= j < s.len() && i != j ==> #[trigger] s[i].order_id
            != #[trigger] s[j].order_id
}

/// A well-formed side of the book: priority order, positive quantities,
/// every order on this side, no id twice.
pub open spec fn queue_wf<A>(side: OrderSide, s: Seq<Order<A>>) -> bool {
    &&& sorted_by_priority(side, s)
    &&& forall|i: int| 0 <= i < s.len() ==> (#[trigger] s[i]).qty > 0 && s[i].side == side
    &&& ids_distinct(s)
}

/// `m` maps the id of every order on the side to its price, and holds no
/// other id.
pub open spec fn index_matches<A>(s: Seq<Order<A>>, m: Map<u64, u64>) -> bool {
    &&& forall|i: int|
        0 <= i < s.len() ==> m.contains_key((#[trigger] s[i]).order_id) && m[s[i].order_id]
            == s[i].price
    &&& forall|id: u64| #[trigger] m.contains_key(id) ==> has_id(s, id)
}

pub open spec fn has_id<A>(s: Seq<Order<A>>, id: u64) -> bool {
    exists|i: int| 0 <= i < s.len() && (#[trigger] s[i]).order_id == id
}

/// Where the order with `id` stands (meaningful when `has_id(s, id)`).
pub open spec fn pos_of<A>(s: Seq<Order<A>>, id: u64) -> int {
    choose|i: int| 0 <= i < s.len() && (#[trigger] s[i]).order_id == id
}

/// `k` is where a new order at `price` goes: behind every order at least as
/// good, ahead of every strictly worse one.
pub open spec fn is_insert_point<A>(side: OrderSide, s: Seq<Order<A>>, price: u64, k: int) -> bool {
    &&& 0 <= k <= s.len()
    &&& forall|i: int| 0 <= i < k ==> at_least_as_good(side, #[trigger] s[i].price, price)
    &&& forall|i: int| k <= i < s.len() ==> strictly_better(side, price, #[trigger] s[i].price)
}

pub open spec fn insert_point<A>(side: OrderSide, s: Seq<Order<A>>, price: u64) -> int {
    choose|k: int| is_insert_point(side, s, price, k)
}

/// The side after a new order joins it at the back of its price level.
pub open spec fn inserted<A>(side: OrderSide, s: Seq<Order<A>>, o: Order<A>) -> Seq<Order<A>> {
    s.insert(insert_point(side, s, o.price), o)
}

/// The side after the order with `id` leaves it (unchanged if it is absent).
pub open spec fn removed<A>(s: Seq<Order<A>>, id: u64) -> Seq<Order<A>> {
    if has_id(s, id) {
        s.remove(pos_of(s, id))
    } else {
        s
    }
}

pub open spec fn index_of<A>(o: Order<A>) -> OrderIndex {
    OrderIndex { id: o.order_id, side: o.side, price: o.price, qty: o.qty, timestamp: o.ts }
}

/// An insert point is unique on a sorted side.
pub proof fn lemma_insert_point_unique<A>(side: OrderSide, s: Seq<Order<A>>, price: u64, k: int)
    requires
        is_insert_point(side, s, price, k),
    ensures
        insert_point(side, s, price) == k,
{
    let j = insert_point(side, s, price);
    assert(is_insert_point(side, s, price, j));
    if j < k {
        assert(at_least_as_good(side, s[j].price, price));
        assert(strictly_better(side, price, s[j].price));
    } else if k < j {
        assert(at_least_as_good(side, s[k].price, price));
        assert(strictly_better(side, price, s[k].price));
    }
}

/// A sorted side has an insert point for every price.
pub proof fn lemma_insert_point_exists<A>(side: OrderSide, s: Seq<Order<A>>, price: u64)
    requires
        sorted_by_priority(side, s),
    ensures
        is_insert_point(side, s, price, insert_point(side, s, price)),
    decreases s.len(),
{
    if s.len() == 0 {
        assert(is_insert_point(side, s, price, 0));
    } else {
        let last = s.len() - 1;
        let init = s.subrange(0, last);
        assert(sorted_by_priority(side, init)) by {
            assert forall|i: int, j: int| 0 <= i < j < init.len() implies at_least_as_good(
                side,
                #[trigger] init[i].price,
                #[trigger] init[j].price,
            ) by {
                assert(init[i] == s[i] && init[j] == s[j]);
            }
        }
        lemma_insert_point_exists(side, init, price);
        let k = insert_point(side, init, price);
        if at_least_as_good(side, s[last].price, price) {
            assert(is_insert_point(side, s, price, s.len() as int)) by {
                assert forall|i: int| 0 <= i < s.len() implies at_least_as_good(
                    side,
                    #[trigger] s[i].price,
                    price,
                ) by {
                    if i < last {
                        assert(at_least_as_good(side, s[i].price, s[last].price));
                    }
                }
            }
        } else {
            assert(is_insert_point(side, s, price, k)) by {
                assert forall|i: int| 0 <= i < k implies at_least_as_good(
                    side,
                    #[trigger] s[i].price,
                    price,
                ) by {
                    assert(init[i] == s[i]);
                }
                assert forall|i: int| k <= i < s.len() implies strictly_better(
                    side,
                    price,
                    #[trigger] s[i].price,
                ) by {
                    if i < last {
                        assert(init[i] == s[i]);
                    }
                }
            }
        }
    }
}

/// Distinct ids pin down the position of an id.
pub proof fn lemma_pos_of_unique<A>(s: Seq<Order<A>>, id: u64, i: int)
    requires
        ids_distinct(s),
        0 <= i < s.len(),
        s[i].order_id == id,
    ensures
        has_id(s, id),
        pos_of(s, id) == i,
{
    assert(has_id(s, id));
    let j = pos_of(s, id);
    assert(s[j].order_id == id);
}

/// Inserting at the insert point keeps a side well formed.
pub proof fn lemma_inserted_wf<A>(side: OrderSide, s: Seq<Order<A>>, o: Order<A>, k: int)
    requires
        queue_wf(side, s),
        is_insert_point(side, s, o.price, k),
        o.qty > 0,
        o.side == side,
        !has_id(s, o.order_id),
    ensures
        queue_wf(side, s.insert(k, o)),
{
    let t = s.insert(k, o);
    assert forall|i: int, j: int| 0 <= i < j < t.len() implies at_least_as_good(
        side,
        #[trigger] t[i].price,
        #[trigger] t[j].price,
    ) by {
        if i < k && j == k {
        } else if i < k && j > k {
            assert(t[j] == s[j - 1]);
        } else if i == k {
            assert(t[j] == s[j - 1]);
        } else if j < k {
        } else {
            assert(t[i] == s[i - 1] && t[j] == s[j - 1]);
        }
    }
    assert forall|i: int| 0 <= i < t.len() implies (#[trigger] t[i]).qty > 0 && t[i].side
        == side by {
        if i > k {
            assert(t[i] == s[i - 1]);
        }
    }
    assert forall|i: int, j: int|
        0 <= i < t.len() && 0 <= j < t.len() && i != j implies #[trigger] t[i].order_id
            != #[trigger] t[j].order_id by {
        if i == k && j != k {
            let jj = if j < k { j } else { j - 1 };
            assert(t[j] == s[jj]);
        } else if j == k && i != k {
            let ii = if i < k { i } else { i - 1 };
            assert(t[i] == s[ii]);
        } else {
            let ii = if i < k { i } else { i - 1 };
            let jj = if j < k { j } else { j - 1 };
            assert(t[i] == s[ii] && t[j] == s[jj]);
        }
    }
}

/// Taking one order out keeps a side well formed.
pub proof fn lemma_remove_wf<A>(side: OrderSide, s: Seq<Order<A>>, k: int)
    requires
        queue_wf(side, s),
        0 <= k < s.len(),
    ensures
        queue_wf(side, s.remove(k)),
{
    let t = s.remove(k);
    assert forall|i: int, j: int| 0 <= i < j < t.len() implies at_least_as_good(
        side,
        #[trigger] t[i].price,
        #[trigger] t[j].price,
    ) by {
        let ii = if i < k { i } else { i + 1 };
        let jj = if j < k { j } else { j + 1 };
        assert(t[i] == s[ii] && t[j] == s[jj]);
    }
    assert forall|i: int| 0 <= i < t.len() implies (#[trigger] t[i]).qty > 0 && t[i].side
        == side by {
        let ii = if i < k { i } else { i + 1 };
        assert(t[i] == s[ii]);
    }
    assert forall|i: int, j: int|
        0 <= i < t.len() && 0 <= j < t.len() && i != j implies #[trigger] t[i].order_id
            != #[trigger] t[j].order_id by {
        let ii = if i < k { i } else { i + 1 };
        let jj = if j < k { j } else { j + 1 };
        assert(t[i] == s[ii] && t[j] == s[jj]);
    }
}

pub proof fn lemma_index_insert<A>(s: Seq<Order<A>>, m: Map<u64, u64>, k: int, o: Order<A>)
    requires
        index_matches(s, m),
        0 <= k <= s.len(),
        !has_id(s, o.order_id),
    ensures
        index_matches(s.insert(k, o), m.insert(o.order_id, o.price)),
{
    let t = s.insert(k, o);
    let m2 = m.insert(o.order_id, o.price);
    assert forall|i: int| 0 <= i < t.len() implies m2.contains_key((#[trigger] t[i]).order_id)
        && m2[t[i].order_id] == t[i].price by {
        if i != k {
            let ii = if i < k { i } else { i - 1 };
            assert(t[i] == s[ii]);
            assert(s[ii].order_id != o.order_id);
        }
    }
    assert forall|id: u64| #[trigger] m2.contains_key(id) implies has_id(t, id) by {
        if id == o.order_id {
            assert(t[k].order_id == id);
        } else {
            assert(m.contains_key(id));
            let j = choose|j: int| 0 <= j < s.len() && (#[trigger] s[j]).order_id == id;
            let jj = if j < k { j } else { j + 1 };
            assert(t[jj] == s[j]);
        }
    }
}

pub proof fn lemma_index_remove<A>(side: OrderSide, s: Seq<Order<A>>, m: Map<u64, u64>, k: int)
    requires
        index_matches(s, m),
        queue_wf(side, s),
        0 <= k < s.len(),
    ensures
        index_matches(s.remove(k), m.remove(s[k].order_id)),
{
    let t = s.remove(k);
    let id0 = s[k].order_id;
    let m2 = m.remove(id0);
    assert forall|i: int| 0 <= i < t.len() implies m2.contains_key((#[trigger] t[i]).order_id)
        && m2[t[i].order_id] == t[i].price by {
        let ii = if i < k { i } else { i + 1 };
        assert(t[i] == s[ii]);
        assert(s[ii].order_id != id0);
    }
    assert forall|id: u64| #[trigger] m2.contains_key(id) implies has_id(t, id) by {
        assert(m.contains_key(id));
        let j = choose|j: int| 0 <= j < s.len() && (#[trigger] s[j]).order_id == id;
        assert(j != k);
        let jj = if j < k { j } else { j - 1 };
        assert(t[jj] == s[j]);
    }
}

/// Every id on a side was handed out before `next_id`.
pub open spec fn ids_below<A>(s: Seq<Order<A>>, next_id: u64) -> bool {
    forall|i: int| 0 <= i < s.len() ==> 1 <= (#[trigger] s[i]).order_id < next_id
}

pub proof fn lemma_ids_below_insert<A>(s: Seq<Order<A>>, k: int, o: Order<A>, n: u64)
    requires
        ids_below(s, n),
        0 <= k <= s.len(),
        1 <= o.order_id < n,
    ensures
        ids_below(s.insert(k, o), n),
{
    let t = s.insert(k, o);
    assert forall|i: int| 0 <= i < t.len() implies 1 <= (#[trigger] t[i]).order_id < n by {
        if i < k {
            assert(t[i] == s[i]);
        } else if i > k {
            assert(t[i] == s[i - 1]);
        }
    }
}

pub proof fn lemma_ids_below_remove<A>(s: Seq<Order<A>>, k: int, n: u64)
    requires
        ids_below(s, n),
        0 <= k < s.len(),
    ensures
        ids_below(s.remove(k), n),
{
    let t = s.remove(k);
    assert forall|i: int| 0 <= i < t.len() implies 1 <= (#[trigger] t[i]).order_id < n by {
        if i < k {
            assert(t[i] == s[i]);
        } else {
            assert(t[i] == s[i + 1]);
        }
    }
}

/// Once taken out, an id is gone from a side with distinct ids.
pub proof fn lemma_removed_lacks_id<A>(s: Seq<Order<A>>, id: u64)
    requires
        ids_distinct(s),
        has_id(s, id),
    ensures
        !has_id(s.remove(pos_of(s, id)), id),
{
    let k = pos_of(s, id);
    let t = s.remove(k);
    assert forall|i: int| 0 <= i < t.len() implies (#[trigger] t[i]).order_id != id by {
        let ii = if i < k { i } else { i + 1 };
        assert(t[i] == s[ii]);
    }
}

/// One side of the book: resting limit orders, best price first and, within
/// a price, in order of arrival, with an index from id to price that finds an
/// order's price level without a scan.
#[derive(Debug)]
pub struct OrderQueue<A> {
    side: OrderSide,
    orders: Vec<Order<A>>,
    index: HashMap<u64, u64>,
}

impl<A> View for OrderQueue<A> {
    type V = Seq<Order<A>>;

    closed spec fn view(&self) -> Seq<Order<A>> {
        self.orders@
    }
}

impl<A> OrderQueue<A> {
    pub closed spec fn side_spec(&self) -> OrderSide {
        self.side
    }

    pub closed spec fn index_view(&self) -> Map<u64, u64> {
        self.index@
    }

    pub open spec fn wf(&self) -> bool {
        &&& queue_wf(self.side_spec(), self@)
        &&& index_matches(self@, self.index_view())
    }

    /// An empty side.
    pub fn new(side: OrderSide) -> (r: Self)
        ensures
            r@ == Seq::<Order<A>>::empty(),
            r.side_spec() == side,
            r.wf(),
    {
        OrderQueue { side, orders: Vec::new(), index: HashMap::new() }
    }

    pub fn side(&self) -> (r: OrderSide)
        ensures
            r == self.side_spec(),
    {
        self.side
    }

    pub fn len(&self) -> (r: usize)
        ensures
            r == self@.len(),
    {
        self.orders.len()
    }

    pub fn is_empty(&self) -> (r: bool)
        ensures
            r == (self@.len() == 0),
    {
        self.orders.len() == 0
    }

    /// The first order at the best price, if any.
    pub fn peek_best(&self) -> (r: Option<&Order<A>>)
        ensures
            r == (if self@.len() == 0 {
                None
            } else {
                Some(&self@[0])
            }),
    {
        if self.orders.len() == 0 {
            None
        } else {
            Some(&self.orders[0])
        }
    }

    /// Whether an order with this id rests here.
    pub fn contains(&self, id: u64) -> (r: bool)
        requires
            self.wf(),
        ensures
            r == has_id(self@, id),
    {
        proof {
            if has_id(self@, id) {
                let i = choose|i: int| 0 <= i < self@.len() && (#[trigger] self@[i]).order_id == id;
                assert(self.index@.contains_key(self@[i].order_id));
            }
        }
        self.index.contains_key(&id)
    }

    /// The position of the order with `id`: its price comes from the index,
    /// a binary search finds where that price level starts, and the level is
    /// walked from there.
    fn find(&self, id: u64) -> (r: Option<usize>)
        requires
            self.wf(),
        ensures
            match r {
                Some(i) => i < self@.len() && self@[i as int].order_id == id,
                None => !has_id(self@, id),
            },
    {
        let ghost s = self.orders@;
        let price = match self.index.get(&id) {
            None => {
                proof {
                    if has_id(s, id) {
                        let i = choose|i: int| 0 <= i < s.len() && (#[trigger] s[i]).order_id == id;
                        assert(self.index@.contains_key(s[i].order_id));
                    }
                }
                return None;
            },
            Some(p) => *p,
        };
        let ghost p = pos_of(s, id);
        proof {
            assert(self.index@.contains_key(id));
            assert(has_id(s, id));
            assert(s[p].order_id == id);
            assert(s[p].price == price);
        }
        let side = self.side;
        let mut lo: usize = 0;
        let mut hi: usize = self.orders.len();
        while lo < hi
            invariant
                self.orders@ == s,
                self.side == side,
                queue_wf(side, s),
                lo <= hi <= s.len(),
                forall|q: int| 0 <= q < lo ==> strictly_better(side, #[trigger] s[q].price, price),
                forall|q: int| hi <= q < s.len() ==> !strictly_better(side, #[trigger] s[q].price, price),
            decreases hi - lo,
        {
            let mid = lo + (hi - lo) / 2;
            if Self::better(side, self.orders[mid].price, price) {
                proof {
                    assert forall|q: int| 0 <= q <= mid implies strictly_better(
                        side,
                        #[trigger] s[q].price,
                        price,
                    ) by {
                        if q < mid {
                            assert(at_least_as_good(side, s[q].price, s[mid as int].price));
                        }
                    }
                }
                lo = mid + 1;
            } else {
                proof {
                    assert forall|q: int| mid <= q < s.len() implies !strictly_better(
                        side,
                        #[trigger] s[q].price,
                        price,
                    ) by {
                        if q > mid {
                            assert(at_least_as_good(side, s[mid as int].price, s[q].price));
                        }
                    }
                }
                hi = mid;
            }
        }
        assert(lo <= p) by {
            if p < lo {
                assert(strictly_better(side, s[p].price, price));
            }
        }
        let mut i: usize = lo;
        while self.orders[i].order_id != id
            invariant
                self.orders@ == s,
                lo <= i <= p < self.orders.len(),
                s[p].order_id == id,
            decreases p - i,
        {
            assert(i < p);
            i = i + 1;
        }
        Some(i)
    }

    /// Adds an order behind every order at an equal or better price.
    pub fn insert(&mut self, order: Order<A>)
        requires
            old(self).wf(),
            order.qty > 0,
            order.side == old(self).side_spec(),
            !has_id(old(self)@, order.order_id),
        ensures
            final(self)@ == inserted(old(self).side_spec(), old(self)@, order),
            final(self).side_spec() == old(self).side_spec(),
            final(self).wf(),
    {
        let side = self.side;
        let price = order.price;
        let ghost s = self.orders@;
        let mut k: usize = 0;
        while k < self.orders.len() && !Self::better(side, price, self.orders[k].price)
            invariant
                self.orders@ == s,
                self.side == side,
                queue_wf(side, s),
                k <= s.len(),
                forall|i: int| 0 <= i < k ==> at_least_as_good(side, #[trigger] s[i].price, price),
            decreases s.len() - k,
        {
            k = k + 1;
        }
        proof {
            assert forall|i: int| k <= i < s.len() implies strictly_better(
                side,
                price,
                #[trigger] s[i].price,
            ) by {
                assert(strictly_better(side, price, s[k as int].price));
                if i > k {
                    assert(at_least_as_good(side, s[k as int].price, s[i].price));
                }
            }
            lemma_insert_point_unique(side, s, price, k as int);
            lemma_inserted_wf(side, s, order, k as int);
            lemma_index_insert(s, self.index@, k as int, order);
        }
        let id = order.order_id;
        self.orders.insert(k, order);
        self.index.insert(id, price);
    }

    fn better(side: OrderSide, p: u64, q: u64) -> (r: bool)
        ensures
            r == strictly_better(side, p, q),
    {
        match side {
            OrderSide::Bid => p > q,
            OrderSide::Ask => p < q,
        }
    }

    /// Takes out the order with this id and hands it back; `None` if absent.
    pub fn remove(&mut self, id: u64) -> (r: Option<Order<A>>)
        requires
            old(self).wf(),
        ensures
            final(self)@ == removed(old(self)@, id),
            r == (if has_id(old(self)@, id) {
                Some(old(self)@[pos_of(old(self)@, id)])
            } else {
                None
            }),
            final(self).side_spec() == old(self).side_spec(),
            final(self).wf(),
    {
        match self.find(id) {
            None => None,
            Some(i) => {
                proof {
                    lemma_pos_of_unique(self@, id, i as int);
                    lemma_remove_wf(self.side, self@, i as int);
                    lemma_index_remove(self.side, self@, self.index@, i as int);
                }
                self.index.remove(&id);
                Some(self.orders.remove(i))
            },
        }
    }

    /// Gives the order with this id a new price, quantity and time stamp; it
    /// moves to the back of its new price level. Answers whether the id was
    /// found; if not, nothing changes.
    pub fn amend(&mut self, id: u64, price: u64, qty: u128, ts: u64) -> (r: bool)
        requires
            old(self).wf(),
            qty > 0,
        ensures
            r == has_id(old(self)@, id),
            final(self)@ == (if r {
                inserted(
                    old(self).side_spec(),
                    removed(old(self)@, id),
                    Order { price, qty, ts, ..old(self)@[pos_of(old(self)@, id)] },
                )
            } else {
                old(self)@
            }),
            final(self).side_spec() == old(self).side_spec(),
            final(self).wf(),
            forall|n: u64| ids_below(old(self)@, n) ==> ids_below(final(self)@, n),
    {
        let ghost s = self@;
        match self.remove(id) {
            None => false,
            Some(o) => {
                let ghost k = pos_of(s, id);
                let ghost s2 = s.remove(k);
                proof {
                    lemma_removed_lacks_id(s, id);
                }
                let o2 = Order { price, qty, ts, ..o };
                self.insert(o2);
                proof {
                    lemma_insert_point_exists(self.side, s2, price);
                    assert forall|n: u64| ids_below(s, n) implies ids_below(self@, n) by {
                        lemma_ids_below_remove(s, k, n);
                        lemma_ids_below_insert(s2, insert_point(self.side, s2, price), o2, n);
                    }
                }
                true
            },
        }
    }

    /// Lowers the quantity of the order with this id by `delta`; an order
    /// left with nothing is taken out.
    pub fn reduce_qty(&mut self, id: u64, delta: u128)
        requires
            old(self).wf(),
            has_id(old(self)@, id),
            delta <= old(self)@[pos_of(old(self)@, id)].qty,
        ensures
            final(self)@ == ({
                let s = old(self)@;
                let k = pos_of(s, id);
                if s[k].qty == delta {
                    s.remove(k)
                } else {
                    s.update(k, Order { qty: (s[k].qty - delta) as u128, ..s[k] })
                }
            }),
            final(self).side_spec() == old(self).side_spec(),
            final(self).wf(),
    {
        let ghost s = self@;
        let i = self.find(id).unwrap();
        proof {
            lemma_pos_of_unique(s, id, i as int);
            lemma_remove_wf(self.side, s, i as int);
        }
        let mut o = self.orders.remove(i);
        if o.qty == delta {
            proof {
                lemma_index_remove(self.side, s, self.index@, i as int);
            }
            self.index.remove(&id);
            return ;
        }
        o.qty = o.qty - delta;
        proof {
            let t = s.update(i as int, o);
            assert(t == s.remove(i as int).insert(i as int, o));
            assert forall|a: int, b: int| 0 <= a < b < t.len() implies at_least_as_good(
                self.side,
                #[trigger] t[a].price,
                #[trigger] t[b].price,
            ) by {
                assert(t[a].price == s[a].price && t[b].price == s[b].price);
            }
            assert forall|a: int| 0 <= a < t.len() implies (#[trigger] t[a]).qty > 0 && t[a].side
                == self.side by {
                assert(a != i ==> t[a] == s[a]);
            }
            assert forall|a: int, b: int|
                0 <= a < t.len() && 0 <= b < t.len() && a != b implies #[trigger] t[a].order_id
                    != #[trigger] t[b].order_id by {
                assert(t[a].order_id == s[a].order_id && t[b].order_id == s[b].order_id);
            }
            let m = self.index@;
            assert forall|a: int| 0 <= a < t.len() implies m.contains_key(
                (#[trigger] t[a]).order_id,
            ) && m[t[a].order_id] == t[a].price by {
                assert(t[a].order_id == s[a].order_id && t[a].price == s[a].price);
            }
            assert forall|x: u64| #[trigger] m.contains_key(x) implies has_id(t, x) by {
                let j = choose|j: int| 0 <= j < s.len() && (#[trigger] s[j]).order_id == x;
                assert(t[j].order_id == s[j].order_id);
            }
        }
        self.orders.insert(i, o);
    }

    /// The resting orders in priority order, as summaries.
    pub fn snapshot(&self) -> (r: Vec<OrderIndex>)
        ensures
            r@ == self@.map_values(|o: Order<A>| index_of(o)),
    {
        let mut r: Vec<OrderIndex> = Vec::new();
        let mut i: usize = 0;
        while i < self.orders.len()
            invariant
                i <= self.orders@.len(),
                r@ == self.orders@.subrange(0, i as int).map_values(|o: Order<A>| index_of(o)),
            decreases self.orders@.len() - i,
        {
            let o = &self.orders[i];
            r.push(
                OrderIndex {
                    id: o.order_id,
                    side: o.side,
                    price: o.price,
                    qty: o.qty,
                    timestamp: o.ts,
                },
            );
            i = i + 1;
            assert(self.orders@.subrange(0, i as int) == self.orders@.subrange(0, i - 1).push(
                self.orders@[i - 1],
            ));
        }
        assert(self.orders@.subrange(0, i as int) == self.orders@);
        r
    }
}

} // verus!
