use vstd::prelude::*;
use crate::ids::{new_id, uuid_version};
use crate::order::{
    BookStock, OrderError, OrderItem, OrderItemDto, demand, first_fault, lemma_lookup_push,
    line_fault, lookup,
    plan_order, plan_result, priced_items, total,
};

verus! {

/// One row of the inventory: a book's identity, current unit price, stock
/// and whether it was withdrawn from sale.
#[derive(Clone, Copy, Debug, PartialEq, Eq)]
pub struct StockRow {
    pub id: u128,
    pub price: i32,
    pub stock_quantity: i32,
    pub archived: bool,
}

/// A placed order as the ledger records it.
#[derive(Debug)]
pub struct Order {
    pub id: u128,
    pub created_at: i64,
    pub total_price: i32,
    pub items: Vec<OrderItem>,
}

/// The mathematical value of a recorded order.
pub struct OrderView {
    pub id: u128,
    pub created_at: i64,
    pub total_price: i32,
    pub items: Seq<OrderItem>,
}

impl View for Order {
    type V = OrderView;

    open spec fn view(&self) -> OrderView {
        OrderView {
            id: self.id,
            created_at: self.created_at,
            total_price: self.total_price,
            items: self.items@,
        }
    }
}

impl Order {
    /// A copy of the record.
    pub fn duplicate(&self) -> (r: Order)
        ensures
            r@ == self@,
    {
        let mut items: Vec<OrderItem> = Vec::new();
        let mut i: usize = 0;
        while i < self.items.len()
            invariant
                i <= self.items@.len(),
                items@ == self.items@.subrange(0, i as int),
            decreases self.items@.len() - i,
        {
            items.push(self.items[i]);
            proof {
                assert(items@ =~= self.items@.subrange(0, i + 1));
            }
            i = i + 1;
        }
        proof {
            assert(items@ =~= self.items@);
        }
        Order { id: self.id, created_at: self.created_at, total_price: self.total_price, items }
    }
}

/// The inventory and the order ledger of one shop. The ledger only grows;
/// stock only falls through placed orders.
pub struct Store {
    pub books: Vec<StockRow>,
    pub orders: Vec<Order>,
}

/// No two rows share an identity.
pub open spec fn unique_ids(rows: Seq<StockRow>) -> bool {
    forall|i: int, j: int|
        0 <= i < rows.len() && 0 <= j < rows.len() && i != j ==> rows[i].id != rows[j].id
}

/// No two orders share an identifier, and orders are recorded in the order
/// of their creation times.
pub open spec fn ledger_wf(orders: Seq<OrderView>) -> bool {
    &&& forall|i: int, j: int|
        0 <= i < orders.len() && 0 <= j < orders.len() && i != j ==> orders[i].id != orders[j].id
    &&& forall|i: int, j: int|
        0 <= i <= j < orders.len() ==> orders[i].created_at <= orders[j].created_at
}

/// Whether the ledger takes a new order under `order_id` dated `created_at`:
/// the identifier must be new and the date no earlier than the newest order.
pub open spec fn ledger_admits(orders: Seq<OrderView>, order_id: u128, created_at: i64) -> Result<
    (),
    OrderError,
> {
    if exists|i: int| 0 <= i < orders.len() && orders[i].id == order_id {
        Err(OrderError::DuplicateOrderId(order_id))
    } else if orders.len() > 0 && created_at < orders.last().created_at {
        Err(OrderError::EarlierThanLedger)
    } else {
        Ok(())
    }
}

/// The outcome of placing `lines` as order `order_id` at `created_at`: the
/// ledger's admission first, then the request's validation.
pub open spec fn order_outcome(
    rows: Seq<StockRow>,
    orders: Seq<OrderView>,
    lines: Seq<OrderItemDto>,
    order_id: u128,
    created_at: i64,
) -> Result<(), OrderError> {
    match ledger_admits(orders, order_id, created_at) {
        Err(e) => Err(e),
        Ok(()) => place_outcome(rows, lines),
    }
}

/// Rows are uniquely identified and no stock is negative.
pub open spec fn rows_wf(rows: Seq<StockRow>) -> bool {
    &&& unique_ids(rows)
    &&& forall|i: int| 0 <= i < rows.len() ==> rows[i].stock_quantity >= 0
}

/// What the inventory reports of `row` in a snapshot.
pub open spec fn stock_entry(row: StockRow) -> BookStock {
    BookStock { id: row.id, stock_quantity: row.stock_quantity, price: row.price }
}

/// The stock snapshot that the inventory gives for the requested ids: the
/// rows that are not archived and whose id was asked for, in row order.
pub open spec fn snapshot(rows: Seq<StockRow>, ids: Seq<u128>) -> Seq<BookStock>
    decreases rows.len(),
{
    if rows.len() == 0 {
        Seq::empty()
    } else {
        let prev = snapshot(rows.drop_last(), ids);
        let row = rows.last();
        if !row.archived && ids.contains(row.id) {
            prev.push(stock_entry(row))
        } else {
            prev
        }
    }
}

/// The books a request names, one id per line.
pub open spec fn line_ids(lines: Seq<OrderItemDto>) -> Seq<u128> {
    lines.map_values(|l: OrderItemDto| l.book_id)
}

/// The snapshot a request is validated against.
pub open spec fn request_snapshot(rows: Seq<StockRow>, lines: Seq<OrderItemDto>) -> Seq<BookStock> {
    snapshot(rows, line_ids(lines))
}

/// Whether placing `lines` against `rows` succeeds, or the error it fails with.
pub open spec fn place_outcome(rows: Seq<StockRow>, lines: Seq<OrderItemDto>) -> Result<(), OrderError> {
    plan_result(request_snapshot(rows, lines), lines)
}

/// The rows once every line's amount is taken from its book's stock.
pub open spec fn rows_after(rows: Seq<StockRow>, lines: Seq<OrderItemDto>) -> Seq<StockRow> {
    rows.map_values(
        |r: StockRow| StockRow { stock_quantity: (r.stock_quantity - demand(lines, r.id)) as i32, ..r },
    )
}

/// The record that placing `lines` as order `order_id` at `created_at` adds.
pub open spec fn placed_record(
    rows: Seq<StockRow>,
    lines: Seq<OrderItemDto>,
    order_id: u128,
    created_at: i64,
) -> OrderView {
    let snap = request_snapshot(rows, lines);
    OrderView {
        id: order_id,
        created_at,
        total_price: total(snap, lines) as i32,
        items: priced_items(snap, lines),
    }
}

/// The orderable entry for `id`: its row, unless archived or absent.
pub open spec fn orderable(rows: Seq<StockRow>, id: u128) -> Option<BookStock>
    decreases rows.len(),
{
    if rows.len() == 0 {
        None
    } else if rows.last().id == id {
        if rows.last().archived {
            None
        } else {
            Some(stock_entry(rows.last()))
        }
    } else {
        orderable(rows.drop_last(), id)
    }
}

proof fn lemma_orderable_absent(rows: Seq<StockRow>, id: u128)
    requires
        forall|i: int| 0 <= i < rows.len() ==> rows[i].id != id,
    ensures
        orderable(rows, id) is None,
    decreases rows.len(),
{
    if rows.len() > 0 {
        lemma_orderable_absent(rows.drop_last(), id);
    }
}

/// The orderable entry of a row is the one at its index.
pub(crate) proof fn lemma_orderable_at(rows: Seq<StockRow>, j: int)
    requires
        unique_ids(rows),
        0 <= j < rows.len(),
    ensures
        orderable(rows, rows[j].id) == if rows[j].archived {
            None
        } else {
            Some(stock_entry(rows[j]))
        },
    decreases rows.len(),
{
    if j < rows.len() - 1 {
        lemma_orderable_at(rows.drop_last(), j);
    }
}

/// A requested id finds in the snapshot exactly its orderable entry.
pub proof fn lemma_snapshot_lookup(rows: Seq<StockRow>, ids: Seq<u128>, id: u128)
    requires
        unique_ids(rows),
        ids.contains(id),
    ensures
        lookup(snapshot(rows, ids), id) == orderable(rows, id),
    decreases rows.len(),
{
    if rows.len() > 0 {
        let prev = snapshot(rows.drop_last(), ids);
        lemma_snapshot_lookup(rows.drop_last(), ids, id);
        if rows.last().id == id {
            assert forall|i: int| 0 <= i < rows.drop_last().len() implies rows.drop_last()[i].id
                != id by {
                assert(rows[i].id != rows[rows.len() - 1].id);
            }
            lemma_orderable_absent(rows.drop_last(), id);
        }
        lemma_lookup_push(prev, stock_entry(rows.last()), id);
    }
}

/// A request without faults has no faulty line.
pub(crate) proof fn lemma_no_fault_lines(books: Seq<BookStock>, lines: Seq<OrderItemDto>, k: int)
    requires
        first_fault(books, lines) is None,
        0 <= k < lines.len(),
    ensures
        line_fault(books, lines, k) is None,
    decreases lines.len(),
{
    if k < lines.len() - 1 {
        lemma_no_fault_lines(books, lines.drop_last(), k);
        assert(lines.drop_last().subrange(0, k + 1) =~= lines.subrange(0, k + 1));
    }
}

/// Demand grows by one line at a time.
proof fn lemma_demand_step(lines: Seq<OrderItemDto>, k: int, id: u128)
    requires
        0 <= k < lines.len(),
    ensures
        demand(lines.subrange(0, k + 1), id) == demand(lines.subrange(0, k), id) + if lines[k].book_id
            == id {
            lines[k].amount as int
        } else {
            0
        },
{
    assert(lines.subrange(0, k + 1).drop_last() =~= lines.subrange(0, k));
}


/// The rows once `amount` copies of `id` are taken from its stock.
pub open spec fn decremented(rows: Seq<StockRow>, id: u128, amount: int) -> Seq<StockRow> {
    rows.map_values(
        |r: StockRow|
            if r.id == id {
                StockRow { stock_quantity: (r.stock_quantity - amount) as i32, ..r }
            } else {
                r
            },
    )
}

/// A row for `id` holds at least `amount` copies, `amount` not negative.
pub open spec fn can_decrement(rows: Seq<StockRow>, id: u128, amount: int) -> bool {
    exists|j: int| 0 <= j < rows.len() && rows[j].id == id && 0 <= amount <= rows[j].stock_quantity
}

/// The rows once the catalog price of `id` is `price`.
pub open spec fn repriced(rows: Seq<StockRow>, id: u128, price: i32) -> Seq<StockRow> {
    rows.map_values(|r: StockRow| if r.id == id { StockRow { price, ..r } } else { r })
}

/// The rows once `id` is withdrawn from sale.
pub open spec fn withdrawn(rows: Seq<StockRow>, id: u128) -> Seq<StockRow> {
    rows.map_values(|r: StockRow| if r.id == id { StockRow { archived: true, ..r } } else { r })
}

/// Whether some row has identity `id`.
pub open spec fn has_row(rows: Seq<StockRow>, id: u128) -> bool {
    exists|j: int| 0 <= j < rows.len() && rows[j].id == id
}

/// How many orders a page of the ledger holds.
pub open spec fn page_len(n: int, offset: i64, limit: i64) -> int {
    let start = if offset < 0 { 0 } else { offset as int };
    let lim = if limit < 0 { 0 } else { limit as int };
    if n <= start {
        0
    } else if n - start < lim {
        n - start
    } else {
        lim
    }
}

/// The recorded orders as values.
pub open spec fn ledger_view(orders: Seq<Order>) -> Seq<OrderView> {
    orders.map_values(|o: Order| o@)
}

/// A page of the ledger, newest first.
pub open spec fn page(orders: Seq<OrderView>, offset: i64, limit: i64) -> Seq<OrderView> {
    Seq::new(
        page_len(orders.len() as int, offset, limit) as nat,
        |i: int| orders[page_position(orders.len() as int, offset, i)],
    )
}

/// The ledger position of the `i`-th order of a page, newest first.
pub open spec fn page_position(n: int, offset: i64, i: int) -> int {
    let start = if offset < 0 { 0 } else { offset as int };
    n - 1 - start - i
}

proof fn lemma_orderable_some(rows: Seq<StockRow>, id: u128)
    requires
        orderable(rows, id) is Some,
    ensures
        exists|j: int|
            0 <= j < rows.len() && rows[j].id == id && !rows[j].archived && orderable(rows, id)
                == Some(stock_entry(#[trigger] rows[j])),
    decreases rows.len(),
{
    if rows.last().id == id {
        assert(rows[rows.len() - 1] == rows.last());
    } else {
        lemma_orderable_some(rows.drop_last(), id);
        let j = choose|j: int|
            0 <= j < rows.drop_last().len() && rows.drop_last()[j].id == id
                && !rows.drop_last()[j].archived && orderable(rows.drop_last(), id) == Some(
                stock_entry(#[trigger] rows.drop_last()[j]),
            );
        assert(rows[j] == rows.drop_last()[j]);
    }
}

/// Finds `id` among the requested ids.
fn requested(ids: &Vec<u128>, id: u128) -> (r: bool)
    ensures
        r == ids@.contains(id),
{
    let mut i: usize = 0;
    while i < ids.len()
        invariant
            i <= ids@.len(),
            forall|k: int| 0 <= k < i ==> ids@[k] != id,
        decreases ids@.len() - i,
    {
        if ids[i] == id {
            assert(ids@[i as int] == id);
            return true;
        }
        i = i + 1;
    }
    false
}

/// What placing `lines` as order `order_id` at `created_at` does: on a
/// refusal nothing changes and the refusal is returned; otherwise the stock
/// falls by the order's demand and the ledger gains the priced record.
pub open spec fn placement(
    books: Seq<StockRow>,
    orders: Seq<Order>,
    books_after: Seq<StockRow>,
    orders_after: Seq<Order>,
    lines: Seq<OrderItemDto>,
    order_id: u128,
    created_at: i64,
    r: Result<u128, OrderError>,
) -> bool {
    match order_outcome(books, ledger_view(orders), lines, order_id, created_at) {
        Err(e) => r == Err::<u128, OrderError>(e) && books_after == books && orders_after == orders,
        Ok(()) => {
            &&& r == Ok::<u128, OrderError>(order_id)
            &&& books_after == rows_after(books, lines)
            &&& orders_after.len() == orders.len() + 1
            &&& orders_after.drop_last() == orders
            &&& orders_after.last()@ == placed_record(books, lines, order_id, created_at)
        },
    }
}

impl Store {
    pub open spec fn wf(&self) -> bool {
        rows_wf(self.books@) && ledger_wf(ledger_view(self.orders@))
    }

    /// An empty inventory and ledger.
    pub fn new() -> (r: Store)
        ensures
            r.wf(),
            r.books@.len() == 0,
            r.orders@.len() == 0,
    {
        Store { books: Vec::new(), orders: Vec::new() }
    }

    /// Index of the row with identity `id`.
    pub fn position(&self, id: u128) -> (r: Option<usize>)
        ensures
            match r {
                Some(j) => j < self.books@.len() && self.books@[j as int].id == id,
                None => forall|i: int| 0 <= i < self.books@.len() ==> self.books@[i].id != id,
            },
    {
        let mut i: usize = 0;
        while i < self.books.len()
            invariant
                i <= self.books@.len(),
                forall|k: int| 0 <= k < i ==> self.books@[k].id != id,
            decreases self.books@.len() - i,
        {
            if self.books[i].id == id {
                return Some(i);
            }
            i = i + 1;
        }
        None
    }

    /// Adds a book to the inventory. Refused (and nothing changes) when the
    /// id is taken or the stock is negative.
    pub fn add_book(&mut self, id: u128, price: i32, stock_quantity: i32) -> (r: bool)
        requires
            old(self).wf(),
        ensures
            final(self).wf(),
            final(self).orders@ == old(self).orders@,
            r == (stock_quantity >= 0 && forall|i: int|
                0 <= i < old(self).books@.len() ==> old(self).books@[i].id != id),
            r ==> final(self).books@ == old(self).books@.push(
                StockRow { id, price, stock_quantity, archived: false },
            ),
            !r ==> final(self).books@ == old(self).books@,
    {
        if stock_quantity < 0 {
            return false;
        }
        if let Some(_) = self.position(id) {
            return false;
        }
        self.books.push(StockRow { id, price, stock_quantity, archived: false });
        true
    }

    /// The stock snapshot for the requested ids: each orderable row whose id
    /// was asked for, with its stock and current price.
    pub fn stock_snapshot(&self, ids: &Vec<u128>) -> (r: Vec<BookStock>)
        ensures
            r@ == snapshot(self.books@, ids@),
    {
        let mut r: Vec<BookStock> = Vec::new();
        let mut i: usize = 0;
        while i < self.books.len()
            invariant
                i <= self.books@.len(),
                r@ == snapshot(self.books@.subrange(0, i as int), ids@),
            decreases self.books@.len() - i,
        {
            let row = self.books[i];
            proof {
                assert(self.books@.subrange(0, i + 1).drop_last() =~= self.books@.subrange(
                    0,
                    i as int,
                ));
            }
            if !row.archived && requested(ids, row.id) {
                r.push(BookStock { id: row.id, stock_quantity: row.stock_quantity, price: row.price });
            }
            i = i + 1;
        }
        proof {
            assert(self.books@.subrange(0, self.books@.len() as int) =~= self.books@);
        }
        r
    }

    /// Takes `amount` copies of `book_id` from stock when a row for it holds
    /// that many; returns the number of rows changed.
    pub fn decrement_stock(&mut self, book_id: u128, amount: i32) -> (r: u64)
        requires
            old(self).wf(),
        ensures
            final(self).wf(),
            final(self).orders@ == old(self).orders@,
            r == 1 <==> can_decrement(old(self).books@, book_id, amount as int),
            r == 1 ==> final(self).books@ == decremented(old(self).books@, book_id, amount as int),
            r != 1 ==> r == 0 && final(self).books@ == old(self).books@,
    {
        match self.position(book_id) {
            None => 0,
            Some(j) => {
                let row = self.books[j];
                if amount < 0 || amount > row.stock_quantity {
                    return 0;
                }
                let ghost before = self.books@;
                self.books.set(j, StockRow { stock_quantity: row.stock_quantity - amount, ..row });
                proof {
                    assert(self.books@ =~= decremented(before, book_id, amount as int));
                }
                1
            },
        }
    }

    /// Sets the catalog price of `id`; returns the number of rows changed.
    /// Recorded orders keep the prices they were placed at.
    pub fn set_price(&mut self, id: u128, price: i32) -> (r: u64)
        requires
            old(self).wf(),
        ensures
            final(self).wf(),
            final(self).orders@ == old(self).orders@,
            final(self).books@ == repriced(old(self).books@, id, price),
            r == if has_row(old(self).books@, id) {
                1u64
            } else {
                0u64
            },
    {
        match self.position(id) {
            None => {
                proof {
                    assert(self.books@ =~= repriced(self.books@, id, price));
                }
                0
            },
            Some(j) => {
                let row = self.books[j];
                let ghost before = self.books@;
                self.books.set(j, StockRow { price, ..row });
                proof {
                    assert(self.books@ =~= repriced(before, id, price));
                }
                1
            },
        }
    }

    /// Withdraws `id` from sale; returns the number of rows changed.
    pub fn archive(&mut self, id: u128) -> (r: u64)
        requires
            old(self).wf(),
        ensures
            final(self).wf(),
            final(self).orders@ == old(self).orders@,
            final(self).books@ == withdrawn(old(self).books@, id),
            r == if has_row(old(self).books@, id) {
                1u64
            } else {
                0u64
            },
    {
        match self.position(id) {
            None => {
                proof {
                    assert(self.books@ =~= withdrawn(self.books@, id));
                }
                0
            },
            Some(j) => {
                let row = self.books[j];
                let ghost before = self.books@;
                self.books.set(j, StockRow { archived: true, ..row });
                proof {
                    assert(self.books@ =~= withdrawn(before, id));
                }
                1
            },
        }
    }

    /// Places an order as one atomic step. The ledger must not hold
    /// `order_id` yet, nor an order dated after `created_at`. The request is
    /// validated against the snapshot of the books it names; if any check
    /// fails, nothing changes. Otherwise the order is recorded with the
    /// snapshot's prices and its total, and every line's amount is taken from
    /// its book's stock.
    pub fn place_order(&mut self, payload: &Vec<OrderItemDto>, order_id: u128, created_at: i64) -> (r:
        Result<u128, OrderError>)
        requires
            old(self).wf(),
        ensures
            final(self).wf(),
            placement(
                old(self).books@,
                old(self).orders@,
                final(self).books@,
                final(self).orders@,
                payload@,
                order_id,
                created_at,
                r,
            ),
    {
        let n = self.orders.len();
        let mut o: usize = 0;
        while o < n
            invariant
                n == self.orders@.len(),
                o <= n,
                self.wf(),
                *self == *old(self),
                forall|q: int| 0 <= q < o ==> self.orders@[q].id != order_id,
            decreases n - o,
        {
            if self.orders[o].id == order_id {
                proof {
                    assert(ledger_view(self.orders@)[o as int].id == order_id);
                }
                return Err(OrderError::DuplicateOrderId(order_id));
            }
            o = o + 1;
        }
        proof {
            assert forall|q: int| 0 <= q < n implies ledger_view(self.orders@)[q].id != order_id by {
                assert(self.orders@[q].id != order_id);
            }
        }
        if n > 0 && created_at < self.orders[n - 1].created_at {
            return Err(OrderError::EarlierThanLedger);
        }
        let mut ids: Vec<u128> = Vec::new();
        let mut i: usize = 0;
        while i < payload.len()
            invariant
                i <= payload@.len(),
                ids@ == line_ids(payload@).subrange(0, i as int),
            decreases payload@.len() - i,
        {
            ids.push(payload[i].book_id);
            proof {
                assert(ids@ =~= line_ids(payload@).subrange(0, i + 1));
            }
            i = i + 1;
        }
        proof {
            assert(ids@ =~= line_ids(payload@));
        }
        let snap = self.stock_snapshot(&ids);
        let plan = match plan_order(&snap, payload) {
            Ok(p) => p,
            Err(e) => {
                return Err(e);
            },
        };
        let ghost rows0 = self.books@;
        proof {
            assert(rows_after(rows0, payload@.subrange(0, 0)) =~= rows0);
        }
        let mut k: usize = 0;
        while k < payload.len()
            invariant
                k <= payload@.len(),
                rows_wf(rows0),
                rows_wf(self.books@),
                self.orders@ == old(self).orders@,
                ledger_admits(ledger_view(old(self).orders@), order_id, created_at) is Ok,
                ledger_wf(ledger_view(self.orders@)),
                snap@ == snapshot(rows0, ids@),
                ids@ == line_ids(payload@),
                first_fault(snap@, payload@) is None,
                self.books@ == rows_after(rows0, payload@.subrange(0, k as int)),
                forall|x: int|
                    0 <= x < rows0.len() ==> 0 <= #[trigger] demand(
                        payload@.subrange(0, k as int),
                        rows0[x].id,
                    ) <= rows0[x].stock_quantity,
            decreases payload@.len() - k,
        {
            let line = payload[k];
            let ghost id = line.book_id;
            let ghost cur = self.books@;
            proof {
                lemma_no_fault_lines(snap@, payload@, k as int);
                assert(ids@[k as int] == id);
                lemma_snapshot_lookup(rows0, ids@, id);
                lemma_orderable_some(rows0, id);
                let j = choose|j: int|
                    0 <= j < rows0.len() && rows0[j].id == id && !rows0[j].archived && orderable(
                        rows0,
                        id,
                    ) == Some(stock_entry(#[trigger] rows0[j]));
                assert(payload@.subrange(0, k + 1).subrange(0, k + 1) =~= payload@.subrange(
                    0,
                    k + 1,
                ));
                lemma_demand_step(payload@, k as int, id);
                assert(payload@.subrange(0, k + 1)[k as int] == line);
                assert(cur[j].id == id);
                assert(can_decrement(cur, id, line.amount as int));
            }
            let changed = self.decrement_stock(line.book_id, line.amount);
            proof {
                assert forall|x: int| 0 <= x < rows0.len() implies 0 <= #[trigger] demand(
                    payload@.subrange(0, k + 1),
                    rows0[x].id,
                ) <= rows0[x].stock_quantity by {
                    lemma_demand_step(payload@, k as int, rows0[x].id);
                    if rows0[x].id == id {
                        lemma_orderable_at(rows0, x);
                    }
                }
                assert forall|x: int| 0 <= x < rows0.len() implies #[trigger] self.books@[x]
                    == rows_after(rows0, payload@.subrange(0, k + 1))[x] by {
                    lemma_demand_step(payload@, k as int, rows0[x].id);
                }
                assert(self.books@ =~= rows_after(rows0, payload@.subrange(0, k + 1)));
            }
            k = k + 1;
        }
        proof {
            assert(payload@.subrange(0, payload@.len() as int) =~= payload@);
        }
        self.orders.push(
            Order { id: order_id, created_at, total_price: plan.total_price, items: plan.items },
        );
        proof {
            assert(self.orders@.drop_last() =~= old(self).orders@);
            let before = ledger_view(old(self).orders@);
            assert(ledger_view(self.orders@) =~= before.push(self.orders@.last()@));
            if before.len() > 0 {
                assert forall|q: int| 0 <= q < before.len() implies before[q].created_at
                    <= created_at by {
                    assert(before[q].created_at <= before[before.len() - 1].created_at);
                }
            }
        }
        Ok(order_id)
    }

    /// Places an order under a fresh random identifier; as `place_order`
    /// for whatever identifier was drawn.
    pub fn place_new_order(&mut self, payload: &Vec<OrderItemDto>, created_at: i64) -> (r: Result<
        u128,
        OrderError,
    >)
        requires
            old(self).wf(),
        ensures
            final(self).wf(),
            exists|order_id: u128|
                uuid_version(order_id) == 4 && placement(
                    old(self).books@,
                    old(self).orders@,
                    final(self).books@,
                    final(self).orders@,
                    payload@,
                    order_id,
                    created_at,
                    r,
                ),
    {
        let order_id = new_id();
        self.place_order(payload, order_id, created_at)
    }

    /// A page of the ledger, newest order first: by creation time, latest
    /// placed first among equal times; `offset` orders skipped, at most
    /// `limit` returned (a negative bound counts as zero).
    pub fn list_orders(&self, offset: i64, limit: i64) -> (r: Vec<Order>)
        requires
            self.wf(),
        ensures
            ledger_view(r@) == page(ledger_view(self.orders@), offset, limit),
            forall|i: int, k: int|
                0 <= i < k < r@.len() ==> (#[trigger] r@[i]).created_at >= (#[trigger] r@[k]).created_at,
    {
        let n = self.orders.len();
        let start: usize = if offset < 0 {
            0
        } else if offset as u64 > n as u64 {
            n
        } else {
            offset as usize
        };
        let count: usize = if limit < 0 {
            0
        } else if limit as u64 > (n - start) as u64 {
            n - start
        } else {
            limit as usize
        };
        let mut r: Vec<Order> = Vec::new();
        let mut i: usize = 0;
        while i < count
            invariant
                start <= n == self.orders@.len(),
                count <= n - start,
                count == page_len(n as int, offset, limit),
                count > 0 ==> start as int == n - 1 - page_position(n as int, offset, 0),
                i <= count,
                r@.len() == i,
                forall|k: int|
                    0 <= k < i ==> (#[trigger] r@[k])@ == self.orders@[page_position(
                        n as int,
                        offset,
                        k,
                    )]@,
            decreases count - i,
        {
            r.push(self.orders[n - 1 - start - i].duplicate());
            i = i + 1;
        }
        proof {
            let lv = ledger_view(self.orders@);
            assert(ledger_view(r@) =~= page(lv, offset, limit));
            assert forall|i: int, k: int| 0 <= i < k < r@.len() implies (#[trigger] r@[i]).created_at
                >= (#[trigger] r@[k]).created_at by {
                assert(ledger_view(r@)[i] == lv[page_position(n as int, offset, i)]);
                assert(ledger_view(r@)[k] == lv[page_position(n as int, offset, k)]);
            }
        }
        r
    }
}

} // verus!
