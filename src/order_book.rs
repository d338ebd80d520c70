use vstd::prelude::*;

verus! {

/// Which kind of intent an order records.
#[derive(Clone, Copy, Debug, PartialEq, Eq, Structural)]
pub enum Side {
    Buy,
    Sell,
}

/// One submitted order. The amount and the price are whole numbers of the
/// smallest unit the caller trades in (lots, cents); they are not validated.
#[derive(Clone, Copy, Debug, PartialEq, Eq, Structural)]
pub struct Order {
    pub id: u64,
    pub side: Side,
    pub amount: i32,
    pub price: i32,
}

/// The value of one order: amount times price.
pub open spec fn order_value(o: Order) -> int {
    o.amount as int * o.price as int
}

/// The sum of the values of a sequence of orders.
pub open spec fn sum_value(s: Seq<Order>) -> int
    decreases s.len(),
{
    if s.len() == 0 {
        0
    } else {
        sum_value(s.drop_last()) + order_value(s.last())
    }
}

/// Whether some order of `s` carries the id `k`.
pub open spec fn has_id(s: Seq<Order>, k: int) -> bool {
    exists|i: int| 0 <= i < s.len() && #[trigger] s[i].id == k
}

/// An append-only registry of orders, one sequence per side.
pub struct OrderBook {
    buy_orders: Vec<Order>,
    sell_orders: Vec<Order>,
    next_id: u64,
}

impl OrderBook {
    /// The orders stored for `side`, in the order they were added.
    pub closed spec fn orders(&self, side: Side) -> Seq<Order> {
        match side {
            Side::Buy => self.buy_orders@,
            Side::Sell => self.sell_orders@,
        }
    }

    /// The id that the next added order receives.
    pub closed spec fn next_id(&self) -> nat {
        self.next_id as nat
    }

    /// The orders of one side all carry that side, with strictly increasing
    /// ids in `1 .. next_id`.
    pub open spec fn side_wf(&self, side: Side) -> bool {
        let s = self.orders(side);
        &&& forall|i: int| 0 <= i < s.len() ==> (#[trigger] s[i]).side == side
        &&& forall|i: int| 0 <= i < s.len() ==> 1 <= (#[trigger] s[i]).id < self.next_id()
        &&& forall|i: int, j: int| 0 <= i < j < s.len() ==> (#[trigger] s[i]).id < (#[trigger] s[j]).id
    }

    /// Well-formedness: both sides are well formed, no id is on both sides,
    /// and every id in `1 .. next_id` was given to some stored order.
    pub open spec fn wf(&self) -> bool {
        let b = self.orders(Side::Buy);
        let s = self.orders(Side::Sell);
        &&& 1 <= self.next_id()
        &&& self.side_wf(Side::Buy)
        &&& self.side_wf(Side::Sell)
        &&& forall|i: int, j: int|
            0 <= i < b.len() && 0 <= j < s.len() ==> (#[trigger] b[i]).id != (#[trigger] s[j]).id
        &&& forall|k: int| 1 <= k < self.next_id() ==> #[trigger] has_id(b, k) || has_id(s, k)
        &&& b.len() + s.len() == self.next_id() - 1
    }

    /// `post` is `pre` after one order of the given side, amount and price was
    /// added and received `id`.
    pub open spec fn added(pre: OrderBook, post: OrderBook, side: Side, amount: i32, price: i32, id: u64) -> bool {
        let other = match side {
            Side::Buy => Side::Sell,
            Side::Sell => Side::Buy,
        };
        &&& id == pre.next_id()
        &&& post.next_id() == pre.next_id() + 1
        &&& post.orders(side) == pre.orders(side).push(Order { id, side, amount, price })
        &&& post.orders(other) == pre.orders(other)
    }

    /// An empty book whose first order will receive id 1.
    pub fn new() -> (r: OrderBook)
        ensures
            r.wf(),
            r.orders(Side::Buy) == Seq::<Order>::empty(),
            r.orders(Side::Sell) == Seq::<Order>::empty(),
            r.next_id() == 1,
    {
        OrderBook { buy_orders: Vec::new(), sell_orders: Vec::new(), next_id: 1 }
    }

    /// Records an order of `side` under the next id, appends it to that side's
    /// sequence and returns the id. Amount and price are taken as given.
    pub fn add_order(&mut self, side: Side, amount: i32, price: i32) -> (id: u64)
        requires
            old(self).wf(),
            old(self).next_id() < u64::MAX,
        ensures
            final(self).wf(),
            Self::added(*old(self), *final(self), side, amount, price, id),
    {
        let id = self.next_id;
        let order = Order { id, side, amount, price };
        match side {
            Side::Buy => self.buy_orders.push(order),
            Side::Sell => self.sell_orders.push(order),
        }
        self.next_id = id + 1;
        proof {
            let pre = *old(self);
            let b = self.orders(Side::Buy);
            let s = self.orders(Side::Sell);
            assert forall|k: int| 1 <= k < self.next_id() implies #[trigger] has_id(b, k) || has_id(s, k) by {
                if k == id {
                    if side == Side::Buy {
                        assert(b[b.len() - 1].id == k);
                    } else {
                        assert(s[s.len() - 1].id == k);
                    }
                } else {
                    assert(has_id(pre.orders(Side::Buy), k) || has_id(pre.orders(Side::Sell), k));
                    if has_id(pre.orders(Side::Buy), k) {
                        let i = choose|i: int| 0 <= i < pre.orders(Side::Buy).len() && #[trigger] pre.orders(Side::Buy)[i].id == k;
                        assert(b[i].id == k);
                    } else {
                        let i = choose|i: int| 0 <= i < pre.orders(Side::Sell).len() && #[trigger] pre.orders(Side::Sell)[i].id == k;
                        assert(s[i].id == k);
                    }
                }
            }
        }
        id
    }

    /// The number of orders on both sides together.
    pub fn total_orders(&self) -> (r: u64)
        requires
            self.wf(),
        ensures
            r == self.orders(Side::Buy).len() + self.orders(Side::Sell).len(),
            r == self.next_id() - 1,
    {
        self.buy_orders.len() as u64 + self.sell_orders.len() as u64
    }

    /// A read-only view of the orders of `side`, in the order they were added.
    pub fn orders_by_side(&self, side: Side) -> (r: &Vec<Order>)
        ensures
            r@ == self.orders(side),
    {
        match side {
            Side::Buy => &self.buy_orders,
            Side::Sell => &self.sell_orders,
        }
    }

    /// The stored order with id `id`, searching the buy side, then the sell
    /// side; `None` exactly when no added order received that id.
    pub fn find_by_id(&self, id: u64) -> (r: Option<&Order>)
        requires
            self.wf(),
        ensures
            r.is_some() <==> 1 <= id < self.next_id(),
            r.is_some() <==> has_id(self.orders(Side::Buy), id as int) || has_id(self.orders(Side::Sell), id as int),
            match r {
                Some(o) => o.id == id && (self.orders(Side::Buy).contains(*o) || self.orders(Side::Sell).contains(*o)),
                None => true,
            },
    {
        let mut i: usize = 0;
        while i < self.buy_orders.len()
            invariant
                self.wf(),
                i <= self.buy_orders@.len(),
                forall|j: int| 0 <= j < i ==> (#[trigger] self.buy_orders@[j]).id != id,
            decreases self.buy_orders@.len() - i,
        {
            if self.buy_orders[i].id == id {
                proof {
                    assert(self.orders(Side::Buy)[i as int] == self.buy_orders@[i as int]);
                    assert(1 <= self.orders(Side::Buy)[i as int].id < self.next_id());
                    assert(has_id(self.orders(Side::Buy), id as int));
                }
                return Some(&self.buy_orders[i]);
            }
            i = i + 1;
        }
        let mut j: usize = 0;
        while j < self.sell_orders.len()
            invariant
                self.wf(),
                j <= self.sell_orders@.len(),
                forall|m: int| 0 <= m < self.buy_orders@.len() ==> (#[trigger] self.buy_orders@[m]).id != id,
                forall|m: int| 0 <= m < j ==> (#[trigger] self.sell_orders@[m]).id != id,
            decreases self.sell_orders@.len() - j,
        {
            if self.sell_orders[j].id == id {
                proof {
                    assert(self.orders(Side::Sell)[j as int] == self.sell_orders@[j as int]);
                    assert(1 <= self.orders(Side::Sell)[j as int].id < self.next_id());
                    assert(has_id(self.orders(Side::Sell), id as int));
                }
                return Some(&self.sell_orders[j]);
            }
            j = j + 1;
        }
        proof {
            if 1 <= id < self.next_id() {
                assert(has_id(self.orders(Side::Buy), id as int) || has_id(self.orders(Side::Sell), id as int));
            }
        }
        None
    }

    /// The sum of amount times price over the orders of `side`; 0 when that
    /// side holds no order.
    pub fn total_value(&self, side: Side) -> (r: i128)
        ensures
            r == sum_value(self.orders(side)),
            self.orders(side).len() == 0 ==> r == 0,
    {
        let orders = self.orders_by_side(side);
        let mut total: i128 = 0;
        let mut i: usize = 0;
        while i < orders.len()
            invariant
                i <= orders@.len(),
                orders@ == self.orders(side),
                total == sum_value(orders@.take(i as int)),
                -(i * 0x4000_0000_0000_0000) <= total <= i * 0x4000_0000_0000_0000,
            decreases orders@.len() - i,
        {
            let o = orders[i];
            proof {
                lemma_value_bound(o);
            }
            let value = o.amount as i64 * o.price as i64;
            proof {
                assert(orders@.take(i + 1).drop_last() == orders@.take(i as int));
            }
            total = total + value as i128;
            i = i + 1;
        }
        proof {
            assert(orders@.take(i as int) == orders@);
        }
        total
    }
}

/// Ids are 1, 2, ..., N in call order: when `books[0]` is a fresh book and
/// each `books[k + 1]` is `books[k]` after an `add_order` that returned
/// `ids[k]`, whatever the sides, amounts and prices, then `ids[k] == k + 1`
/// and the last book holds exactly N orders.
pub proof fn lemma_ids_count_from_one(
    books: Seq<OrderBook>,
    sides: Seq<Side>,
    amounts: Seq<i32>,
    prices: Seq<i32>,
    ids: Seq<u64>,
)
    requires
        books.len() == ids.len() + 1,
        sides.len() == ids.len(),
        amounts.len() == ids.len(),
        prices.len() == ids.len(),
        books[0].orders(Side::Buy) == Seq::<Order>::empty(),
        books[0].orders(Side::Sell) == Seq::<Order>::empty(),
        books[0].next_id() == 1,
        forall|k: int|
            0 <= k < ids.len() ==> #[trigger] OrderBook::added(
                books[k],
                books[k + 1],
                sides[k],
                amounts[k],
                prices[k],
                ids[k],
            ),
    ensures
        forall|k: int| 0 <= k < ids.len() ==> #[trigger] ids[k] == k + 1,
        books.last().orders(Side::Buy).len() + books.last().orders(Side::Sell).len() == ids.len(),
{
    assert forall|k: int| 0 <= k < ids.len() implies #[trigger] ids[k] == k + 1 by {
        lemma_book_at(books, sides, amounts, prices, ids, k);
        assert(OrderBook::added(books[k], books[k + 1], sides[k], amounts[k], prices[k], ids[k]));
    }
    lemma_book_at(books, sides, amounts, prices, ids, ids.len() as int);
}

/// Along such a run of additions, book `k` has next id `k + 1` and holds `k`
/// orders.
proof fn lemma_book_at(
    books: Seq<OrderBook>,
    sides: Seq<Side>,
    amounts: Seq<i32>,
    prices: Seq<i32>,
    ids: Seq<u64>,
    k: int,
)
    requires
        books.len() == ids.len() + 1,
        sides.len() == ids.len(),
        amounts.len() == ids.len(),
        prices.len() == ids.len(),
        books[0].orders(Side::Buy) == Seq::<Order>::empty(),
        books[0].orders(Side::Sell) == Seq::<Order>::empty(),
        books[0].next_id() == 1,
        forall|m: int|
            0 <= m < ids.len() ==> #[trigger] OrderBook::added(
                books[m],
                books[m + 1],
                sides[m],
                amounts[m],
                prices[m],
                ids[m],
            ),
        0 <= k < books.len(),
    ensures
        books[k].next_id() == k + 1,
        books[k].orders(Side::Buy).len() + books[k].orders(Side::Sell).len() == k,
    decreases k,
{
    if k > 0 {
        lemma_book_at(books, sides, amounts, prices, ids, k - 1);
        assert(OrderBook::added(books[k - 1], books[k], sides[k - 1], amounts[k - 1], prices[k - 1], ids[k - 1]));
    }
}

/// In a well-formed book every order stored under a side carries that side,
/// no id is stored under both sides, and the ids stored under either side are
/// exactly the ids handed out so far, `1 .. next_id`.
pub proof fn lemma_partition(book: OrderBook)
    requires
        book.wf(),
    ensures
        forall|i: int|
            0 <= i < book.orders(Side::Buy).len() ==> (#[trigger] book.orders(Side::Buy)[i]).side == Side::Buy,
        forall|i: int|
            0 <= i < book.orders(Side::Sell).len() ==> (#[trigger] book.orders(Side::Sell)[i]).side == Side::Sell,
        forall|i: int, j: int|
            0 <= i < book.orders(Side::Buy).len() && 0 <= j < book.orders(Side::Sell).len()
                ==> (#[trigger] book.orders(Side::Buy)[i]).id != (#[trigger] book.orders(Side::Sell)[j]).id,
        forall|k: int|
            #![trigger has_id(book.orders(Side::Buy), k)]
            #![trigger has_id(book.orders(Side::Sell), k)]
            (1 <= k < book.next_id()) <==> (has_id(book.orders(Side::Buy), k) || has_id(book.orders(Side::Sell), k)),
{
    let b = book.orders(Side::Buy);
    let s = book.orders(Side::Sell);
    assert(book.side_wf(Side::Buy));
    assert(book.side_wf(Side::Sell));
    assert forall|k: int| has_id(b, k) || has_id(s, k) implies 1 <= k < book.next_id() by {
        if has_id(b, k) {
            let i = choose|i: int| 0 <= i < b.len() && #[trigger] b[i].id == k;
            assert(1 <= b[i].id < book.next_id());
        } else {
            let i = choose|i: int| 0 <= i < s.len() && #[trigger] s[i].id == k;
            assert(1 <= s[i].id < book.next_id());
        }
    }
}

/// The value of one order lies within 2^62 of zero.
proof fn lemma_value_bound(o: Order)
    ensures
        -0x4000_0000_0000_0000 <= order_value(o) <= 0x4000_0000_0000_0000,
{
    let a = o.amount as int;
    let p = o.price as int;
    assert(-0x8000_0000 <= a <= 0x7fff_ffff);
    assert(-0x8000_0000 <= p <= 0x7fff_ffff);
    assert(-0x4000_0000_0000_0000 <= a * p <= 0x4000_0000_0000_0000) by (nonlinear_arith)
        requires
            -0x8000_0000 <= a <= 0x7fff_ffff,
            -0x8000_0000 <= p <= 0x7fff_ffff,
    ;
}

} // verus!
