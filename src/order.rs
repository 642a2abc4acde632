use vstd::prelude::*;

verus! {

/// One requested line of an order: a book and how many copies of it.
#[derive(Clone, Copy, Debug, PartialEq, Eq)]
pub struct OrderItemDto {
    pub book_id: u128,
    pub amount: i32,
}

/// The same requested line, under the name the HTTP payloads use.
pub type OrderItemPayload = OrderItemDto;

/// What the inventory reports of one orderable book: its stock and the
/// price in effect when it was read.
#[derive(Clone, Copy, Debug, PartialEq, Eq)]
pub struct BookStock {
    pub id: u128,
    pub stock_quantity: i32,
    pub price: i32,
}

/// One line of a placed order, with the unit price frozen at placement.
#[derive(Clone, Copy, Debug, PartialEq, Eq)]
pub struct OrderItem {
    pub book_id: u128,
    pub price: i32,
    pub amount: i32,
}

/// Why an order request is refused.
#[derive(Clone, Copy, Debug, PartialEq, Eq)]
pub enum OrderError {
    /// The book is unknown or archived.
    NotFound(u128),
    /// The requested amount is zero or negative.
    InvalidAmount(u128),
    /// The request asks for more copies of the book than are in stock.
    InsufficientStock(u128),
    /// The order's total does not fit the ledger's 32-bit price column.
    TotalOutOfRange,
    /// The request names no book at all.
    EmptyOrder,
    /// The ledger already holds an order under this identifier.
    DuplicateOrderId(u128),
    /// The order is dated before the newest order in the ledger.
    EarlierThanLedger,
}

/// An order that passed validation: its frozen total and its lines.
#[derive(Debug)]
pub struct OrderPlan {
    pub total_price: i32,
    pub items: Vec<OrderItem>,
}

/// The first entry of `books` for `id`.
pub open spec fn lookup(books: Seq<BookStock>, id: u128) -> Option<BookStock>
    decreases books.len(),
{
    if books.len() == 0 {
        None
    } else if books[0].id == id {
        Some(books[0])
    } else {
        lookup(books.drop_first(), id)
    }
}

/// Looking up in a sequence with one more entry at its end.
pub proof fn lemma_lookup_push(books: Seq<BookStock>, entry: BookStock, id: u128)
    ensures
        lookup(books.push(entry), id) == match lookup(books, id) {
            Some(b) => Some(b),
            None => if entry.id == id {
                Some(entry)
            } else {
                None
            },
        },
    decreases books.len(),
{
    if books.len() > 0 {
        assert(books.push(entry)[0] == books[0]);
        assert(books.push(entry).drop_first() =~= books.drop_first().push(entry));
        lemma_lookup_push(books.drop_first(), entry, id);
    } else {
        assert(books.push(entry)[0] == entry);
        assert(books.push(entry).drop_first() =~= Seq::<BookStock>::empty());
        assert(lookup(Seq::<BookStock>::empty(), id) is None);
    }
}

/// The unit price of `id` in `books` (0 when it is absent).
pub open spec fn unit_price(books: Seq<BookStock>, id: u128) -> int {
    match lookup(books, id) {
        Some(b) => b.price as int,
        None => 0,
    }
}

/// How many copies of `id` the lines ask for, all lines together.
pub open spec fn demand(lines: Seq<OrderItemDto>, id: u128) -> int
    decreases lines.len(),
{
    if lines.len() == 0 {
        0
    } else {
        demand(lines.drop_last(), id) + if lines.last().book_id == id {
            lines.last().amount as int
        } else {
            0
        }
    }
}

/// What is wrong with line `k`, given the lines before it: its book must be
/// orderable, its amount positive, and the copies of that book asked for up
/// to and including this line must be in stock.
pub open spec fn line_fault(books: Seq<BookStock>, lines: Seq<OrderItemDto>, k: int) -> Option<
    OrderError,
> {
    let line = lines[k];
    match lookup(books, line.book_id) {
        None => Some(OrderError::NotFound(line.book_id)),
        Some(b) => if line.amount <= 0 {
            Some(OrderError::InvalidAmount(line.book_id))
        } else if demand(lines.subrange(0, k + 1), line.book_id) > b.stock_quantity {
            Some(OrderError::InsufficientStock(line.book_id))
        } else {
            None
        },
    }
}

/// The fault of the first faulty line, if any.
pub open spec fn first_fault(books: Seq<BookStock>, lines: Seq<OrderItemDto>) -> Option<OrderError>
    decreases lines.len(),
{
    if lines.len() == 0 {
        None
    } else {
        match first_fault(books, lines.drop_last()) {
            Some(e) => Some(e),
            None => line_fault(books, lines, lines.len() - 1),
        }
    }
}

/// The sum over all lines of amount times unit price.
pub open spec fn total(books: Seq<BookStock>, lines: Seq<OrderItemDto>) -> int
    decreases lines.len(),
{
    if lines.len() == 0 {
        0
    } else {
        total(books, lines.drop_last()) + lines.last().amount * unit_price(books, lines.last().book_id)
    }
}

pub open spec fn fits_i32(x: int) -> bool {
    i32::MIN <= x <= i32::MAX
}

/// The lines of the order as recorded, each with the price read from `books`.
pub open spec fn priced_items(books: Seq<BookStock>, lines: Seq<OrderItemDto>) -> Seq<OrderItem> {
    lines.map_values(
        |l: OrderItemDto|
            OrderItem { book_id: l.book_id, price: unit_price(books, l.book_id) as i32, amount: l.amount },
    )
}

/// The outcome of planning `lines` against the snapshot `books`.
pub open spec fn plan_result(books: Seq<BookStock>, lines: Seq<OrderItemDto>) -> Result<(), OrderError> {
    if lines.len() == 0 {
        Err(OrderError::EmptyOrder)
    } else {
        match first_fault(books, lines) {
        Some(e) => Err(e),
            None => if fits_i32(total(books, lines)) {
                Ok(())
            } else {
                Err(OrderError::TotalOutOfRange)
            },
        }
    }
}

/// A fault in a prefix of the lines is the first fault of all of them.
pub(crate) proof fn lemma_fault_extends(books: Seq<BookStock>, lines: Seq<OrderItemDto>, n: int)
    requires
        0 <= n <= lines.len(),
        first_fault(books, lines.subrange(0, n)) is Some,
    ensures
        first_fault(books, lines) == first_fault(books, lines.subrange(0, n)),
    decreases lines.len(),
{
    if n == lines.len() {
        assert(lines.subrange(0, n) =~= lines);
    } else {
        assert(lines.drop_last().subrange(0, n) =~= lines.subrange(0, n));
        lemma_fault_extends(books, lines.drop_last(), n);
    }
}

/// Index of the first entry of `books` for `id`.
pub fn find_stock(books: &Vec<BookStock>, id: u128) -> (r: Option<usize>)
    ensures
        match r {
            Some(j) => j < books@.len() && lookup(books@, id) == Some(books@[j as int]),
            None => lookup(books@, id) is None,
        },
{
    let mut i: usize = 0;
    proof {
        assert(books@.subrange(0, books@.len() as int) =~= books@);
    }
    while i < books.len()
        invariant
            i <= books@.len(),
            lookup(books@, id) == lookup(books@.subrange(i as int, books@.len() as int), id),
        decreases books@.len() - i,
    {
        proof {
            assert(books@.subrange(i as int, books@.len() as int).drop_first() =~= books@.subrange(
                i + 1,
                books@.len() as int,
            ));
        }
        if books[i].id == id {
            return Some(i);
        }
        i = i + 1;
    }
    None
}

/// Copies of `id` asked for by the first `n` lines.
fn demand_upto(lines: &Vec<OrderItemDto>, n: usize, id: u128) -> (r: i128)
    requires
        n <= lines@.len(),
    ensures
        r == demand(lines@.subrange(0, n as int), id),
{
    let mut acc: i128 = 0;
    let mut j: usize = 0;
    while j < n
        invariant
            j <= n <= lines@.len(),
            acc == demand(lines@.subrange(0, j as int), id),
            -(j as int) * 0x8000_0000 <= acc <= (j as int) * 0x8000_0000,
        decreases n - j,
    {
        proof {
            assert(lines@.subrange(0, j + 1).drop_last() =~= lines@.subrange(0, j as int));
        }
        if lines[j].book_id == id {
            acc = acc + lines[j].amount as i128;
        }
        j = j + 1;
    }
    acc
}

/// Checks every line against the snapshot, in order, and reports the first
/// that cannot be served.
pub fn validate_stock(books: &Vec<BookStock>, payload: &Vec<OrderItemDto>) -> (r: Result<
    (),
    OrderError,
>)
    ensures
        match r {
            Ok(()) => first_fault(books@, payload@) is None,
            Err(e) => first_fault(books@, payload@) == Some(e),
        },
{
    let mut i: usize = 0;
    while i < payload.len()
        invariant
            i <= payload@.len(),
            first_fault(books@, payload@.subrange(0, i as int)) is None,
        decreases payload@.len() - i,
    {
        let line = payload[i];
        let ghost prefix = payload@.subrange(0, i + 1);
        proof {
            assert(prefix.drop_last() =~= payload@.subrange(0, i as int));
            assert(prefix.subrange(0, i + 1) =~= prefix);
        }
        let fault = match find_stock(books, line.book_id) {
            None => Some(OrderError::NotFound(line.book_id)),
            Some(j) => {
                if line.amount <= 0 {
                    Some(OrderError::InvalidAmount(line.book_id))
                } else if demand_upto(payload, i + 1, line.book_id) > books[j].stock_quantity as i128 {
                    Some(OrderError::InsufficientStock(line.book_id))
                } else {
                    None
                }
            },
        };
        assert(fault == line_fault(books@, prefix, i as int));
        if let Some(e) = fault {
            proof {
                lemma_fault_extends(books@, payload@, i + 1);
            }
            return Err(e);
        }
        i = i + 1;
    }
    proof {
        assert(payload@.subrange(0, payload@.len() as int) =~= payload@);
    }
    Ok(())
}

/// The order's total at the snapshot's prices, computed without overflow.
pub fn order_total(books: &Vec<BookStock>, payload: &Vec<OrderItemDto>) -> (r: i128)
    ensures
        r == total(books@, payload@),
{
    let mut acc: i128 = 0;
    let mut i: usize = 0;
    while i < payload.len()
        invariant
            i <= payload@.len(),
            acc == total(books@, payload@.subrange(0, i as int)),
            -(i as int) * 0x4000_0000_0000_0000 <= acc <= (i as int) * 0x4000_0000_0000_0000,
        decreases payload@.len() - i,
    {
        proof {
            assert(payload@.subrange(0, i + 1).drop_last() =~= payload@.subrange(0, i as int));
        }
        let line = payload[i];
        let price: i32 = match find_stock(books, line.book_id) {
            Some(j) => books[j].price,
            None => 0,
        };
        let a = line.amount as i128;
        let p = price as i128;
        proof {
            assert(-0x4000_0000_0000_0000 <= a * p <= 0x4000_0000_0000_0000) by (nonlinear_arith)
                requires
                    -0x8000_0000 <= a <= 0x7fff_ffff,
                    -0x8000_0000 <= p <= 0x7fff_ffff,
            ;
        }
        acc = acc + a * p;
        i = i + 1;
    }
    proof {
        assert(payload@.subrange(0, payload@.len() as int) =~= payload@);
    }
    acc
}

/// Validates an order request against a stock snapshot and, when it names
/// at least one book and every line can be served, fixes its total and its
/// lines at the snapshot's prices.
pub fn plan_order(books: &Vec<BookStock>, payload: &Vec<OrderItemDto>) -> (r: Result<
    OrderPlan,
    OrderError,
>)
    ensures
        match (r, plan_result(books@, payload@)) {
            (Ok(plan), Ok(())) => plan.total_price == total(books@, payload@) && plan.items@
                == priced_items(books@, payload@),
            (Err(e), Err(f)) => e == f,
            _ => false,
        },
{
    if payload.len() == 0 {
        return Err(OrderError::EmptyOrder);
    }
    validate_stock(books, payload)?;
    let sum = order_total(books, payload);
    if sum < i32::MIN as i128 || sum > i32::MAX as i128 {
        return Err(OrderError::TotalOutOfRange);
    }
    let mut items: Vec<OrderItem> = Vec::new();
    let mut i: usize = 0;
    while i < payload.len()
        invariant
            i <= payload@.len(),
            items@ == priced_items(books@, payload@).subrange(0, i as int),
        decreases payload@.len() - i,
    {
        let line = payload[i];
        let price: i32 = match find_stock(books, line.book_id) {
            Some(j) => books[j].price,
            None => 0,
        };
        items.push(OrderItem { book_id: line.book_id, price, amount: line.amount });
        proof {
            assert(items@ =~= priced_items(books@, payload@).subrange(0, i + 1));
        }
        i = i + 1;
    }
    proof {
        assert(priced_items(books@, payload@).subrange(0, payload@.len() as int) =~= priced_items(
            books@,
            payload@,
        ));
    }
    Ok(OrderPlan { total_price: sum as i32, items })
}

} // verus!
