use vstd::prelude::*;
use crate::order::{
    BookStock, OrderError, OrderItem, OrderItemDto, demand, first_fault, fits_i32,
    lemma_fault_extends, line_fault, lookup, plan_result, priced_items, total, unit_price,
};
use crate::store::{
    OrderView, StockRow, lemma_no_fault_lines, lemma_orderable_at, lemma_snapshot_lookup, line_ids,
    orderable,
    page, page_position, place_outcome, placed_record, repriced, request_snapshot, rows_after,
    rows_wf, stock_entry, unique_ids, ledger_wf,
};

verus! {

/// A request for `amount` copies of one book.
pub open spec fn single_line(id: u128, amount: i32) -> Seq<OrderItemDto> {
    seq![OrderItemDto { book_id: id, amount }]
}

/// The rows after an attempt to place `lines`: changed only on success.
pub open spec fn rows_after_attempt(rows: Seq<StockRow>, lines: Seq<OrderItemDto>) -> Seq<StockRow> {
    match place_outcome(rows, lines) {
        Ok(()) => rows_after(rows, lines),
        Err(_) => rows,
    }
}

/// The rows after `m` requests for one copy of `id`, one after another.
pub open spec fn unit_run(rows: Seq<StockRow>, id: u128, m: nat) -> Seq<StockRow>
    decreases m,
{
    if m == 0 {
        rows
    } else {
        rows_after_attempt(unit_run(rows, id, (m - 1) as nat), single_line(id, 1))
    }
}

/// The outcome of the `i`-th of those requests.
pub open spec fn unit_outcome(rows: Seq<StockRow>, id: u128, i: nat) -> Result<(), OrderError> {
    place_outcome(unit_run(rows, id, i), single_line(id, 1))
}

/// The sum of amount times frozen unit price over recorded lines.
pub open spec fn items_total(items: Seq<OrderItem>) -> int
    decreases items.len(),
{
    if items.len() == 0 {
        0
    } else {
        items_total(items.drop_last()) + items.last().amount * items.last().price
    }
}

proof fn lemma_lookup_of_row(rows: Seq<StockRow>, j: int, amount: i32)
    requires
        unique_ids(rows),
        0 <= j < rows.len(),
        !rows[j].archived,
    ensures
        lookup(request_snapshot(rows, single_line(rows[j].id, amount)), rows[j].id) == Some(
            stock_entry(rows[j]),
        ),
{
    let lines = single_line(rows[j].id, amount);
    assert(line_ids(lines)[0] == rows[j].id);
    lemma_snapshot_lookup(rows, line_ids(lines), rows[j].id);
    lemma_orderable_at(rows, j);
}

/// A request for `amount` copies of one orderable book succeeds exactly when
/// the stock holds that many and the total fits; on success that book's stock
/// falls by `amount` and no other row changes.
pub proof fn lemma_single_line(rows: Seq<StockRow>, j: int, amount: i32)
    requires
        rows_wf(rows),
        0 <= j < rows.len(),
        !rows[j].archived,
        amount > 0,
    ensures
        ({
            let id = rows[j].id;
            let lines = single_line(id, amount);
            &&& place_outcome(rows, lines) == if amount > rows[j].stock_quantity {
                Err(OrderError::InsufficientStock(id))
            } else if !fits_i32(amount * rows[j].price) {
                Err(OrderError::TotalOutOfRange)
            } else {
                Ok(())
            }
            &&& place_outcome(rows, lines) is Ok ==> {
                &&& rows_wf(rows_after(rows, lines))
                &&& rows_after(rows, lines).len() == rows.len()
                &&& rows_after(rows, lines)[j] == StockRow {
                    stock_quantity: (rows[j].stock_quantity - amount) as i32,
                    ..rows[j]
                }
                &&& forall|x: int|
                    0 <= x < rows.len() && x != j ==> #[trigger] rows_after(rows, lines)[x]
                        == rows[x]
            }
        }),
{
    let id = rows[j].id;
    let lines = single_line(id, amount);
    let snap = request_snapshot(rows, lines);
    lemma_lookup_of_row(rows, j, amount);
    assert(lines.drop_last() =~= Seq::<OrderItemDto>::empty());
    assert(lines.subrange(0, 1) =~= lines);
    assert(lines.last() == OrderItemDto { book_id: id, amount });
    assert(demand(lines.drop_last(), id) == 0);
    assert(demand(lines, id) == amount);
    assert(first_fault(snap, lines.drop_last()) is None);
    assert(total(snap, lines.drop_last()) == 0);
    assert(unit_price(snap, id) == rows[j].price);
    assert(total(snap, lines) == amount * rows[j].price);
    let after = rows_after(rows, lines);
    assert forall|x: int| 0 <= x < rows.len() && x != j implies #[trigger] after[x] == rows[x] by {
        assert(rows[x].id != id);
        assert(demand(lines.drop_last(), rows[x].id) == 0);
        assert(demand(lines, rows[x].id) == 0);
    }
}

/// Requesting exactly the remaining stock of a book succeeds and leaves its
/// stock at zero (when that stock is positive and the order's total fits the
/// ledger); requesting one copy more fails with `InsufficientStock` and
/// changes nothing.
pub proof fn lemma_boundary(rows: Seq<StockRow>, j: int)
    requires
        rows_wf(rows),
        0 <= j < rows.len(),
        !rows[j].archived,
        rows[j].stock_quantity < i32::MAX,
    ensures
        ({
            let id = rows[j].id;
            let s = rows[j].stock_quantity;
            &&& s > 0 && fits_i32(s * rows[j].price) ==> {
                &&& place_outcome(rows, single_line(id, s)) is Ok
                &&& rows_after(rows, single_line(id, s))[j].stock_quantity == 0
            }
            &&& place_outcome(rows, single_line(id, (s + 1) as i32)) == Err::<(), OrderError>(
                OrderError::InsufficientStock(id),
            )
            &&& rows_after_attempt(rows, single_line(id, (s + 1) as i32)) == rows
        }),
{
    let s = rows[j].stock_quantity;
    if s > 0 {
        lemma_single_line(rows, j, s);
    }
    lemma_single_line(rows, j, (s + 1) as i32);
}

/// Of `m` successive requests for one copy of a book that starts with `s`
/// copies, exactly the first `min(s, m)` succeed and every later one fails
/// with `InsufficientStock`; the stock ends at `s - min(s, m)` and no stock
/// ever goes negative.
pub proof fn lemma_no_oversell(rows: Seq<StockRow>, j: int, m: nat)
    requires
        rows_wf(rows),
        0 <= j < rows.len(),
        !rows[j].archived,
    ensures
        ({
            let id = rows[j].id;
            let s = rows[j].stock_quantity as int;
            &&& rows_wf(unit_run(rows, id, m))
            &&& unit_run(rows, id, m).len() == rows.len()
            &&& unit_run(rows, id, m)[j].stock_quantity == if m <= s {
                s - m
            } else {
                0
            }
            &&& forall|i: nat|
                i < m ==> #[trigger] unit_outcome(rows, id, i) == if i < s {
                    Ok::<(), OrderError>(())
                } else {
                    Err(OrderError::InsufficientStock(id))
                }
        }),
    decreases m,
{
    let id = rows[j].id;
    let s = rows[j].stock_quantity as int;
    if m > 0 {
        let m1 = (m - 1) as nat;
        lemma_no_oversell(rows, j, m1);
        let prev = unit_run(rows, id, m1);
        assert(prev[j].id == id && !prev[j].archived) by {
            lemma_run_keeps_row(rows, j, m1);
        }
        lemma_single_line(prev, j, 1);
        assert forall|i: nat| i < m implies #[trigger] unit_outcome(rows, id, i) == if i < s {
            Ok::<(), OrderError>(())
        } else {
            Err(OrderError::InsufficientStock(id))
        } by {
            if i == m1 {
                assert(unit_outcome(rows, id, i) == place_outcome(prev, single_line(id, 1)));
            }
        }
    }
}


/// A request for one copy of each of the books `ids`.
pub open spec fn unit_lines(ids: Seq<u128>) -> Seq<OrderItemDto> {
    ids.map_values(|id: u128| OrderItemDto { book_id: id, amount: 1 })
}

/// The identities of the rows at positions `js`.
pub open spec fn ids_of(rows: Seq<StockRow>, js: Seq<int>) -> Seq<u128> {
    js.map_values(|j: int| rows[j].id)
}

/// Positions `js` name distinct rows, none of them withdrawn from sale.
pub open spec fn selection(rows: Seq<StockRow>, js: Seq<int>) -> bool {
    &&& forall|k: int| 0 <= k < js.len() ==> 0 <= #[trigger] js[k] < rows.len()
    &&& forall|k: int| 0 <= k < js.len() ==> !rows[#[trigger] js[k]].archived
    &&& forall|k: int, l: int| 0 <= k < js.len() && 0 <= l < js.len() && k != l ==> js[k] != js[l]
}

/// The sum of the current prices of the rows at positions `js`.
pub open spec fn price_sum(rows: Seq<StockRow>, js: Seq<int>) -> int
    decreases js.len(),
{
    if js.len() == 0 {
        0
    } else {
        price_sum(rows, js.drop_last()) + rows[js.last()].price
    }
}

/// The rows after `m` successive requests for one copy of each of `ids`.
pub open spec fn multi_run(rows: Seq<StockRow>, ids: Seq<u128>, m: nat) -> Seq<StockRow>
    decreases m,
{
    if m == 0 {
        rows
    } else {
        rows_after_attempt(multi_run(rows, ids, (m - 1) as nat), unit_lines(ids))
    }
}

/// The outcome of the `i`-th of those requests.
pub open spec fn multi_outcome(rows: Seq<StockRow>, ids: Seq<u128>, i: nat) -> Result<(), OrderError> {
    place_outcome(multi_run(rows, ids, i), unit_lines(ids))
}

pub open spec fn occurs(ids: Seq<u128>, n: int, x: u128) -> bool {
    exists|k: int| 0 <= k < n && ids[k] == x
}

proof fn lemma_unit_demand(ids: Seq<u128>, n: int, x: u128)
    requires
        0 <= n <= ids.len(),
        forall|k: int, l: int| 0 <= k < ids.len() && 0 <= l < ids.len() && k != l ==> ids[k] != ids[l],
    ensures
        demand(unit_lines(ids).subrange(0, n), x) == if occurs(ids, n, x) {
            1int
        } else {
            0int
        },
    decreases n,
{
    let lines = unit_lines(ids);
    if n == 0 {
        assert(lines.subrange(0, 0) =~= Seq::<OrderItemDto>::empty());
        assert(!occurs(ids, 0, x));
    } else {
        lemma_unit_demand(ids, n - 1, x);
        assert(lines.subrange(0, n).drop_last() =~= lines.subrange(0, n - 1));
        assert(lines.subrange(0, n).last() == lines[n - 1]);
        if ids[n - 1] == x {
            assert(occurs(ids, n, x));
            if occurs(ids, n - 1, x) {
                let k = choose|k: int| 0 <= k < n - 1 && ids[k] == x;
                assert(ids[k] != ids[n - 1]);
            }
        } else {
            if occurs(ids, n, x) {
                let k = choose|k: int| 0 <= k < n && ids[k] == x;
                assert(occurs(ids, n - 1, x));
            }
            if occurs(ids, n - 1, x) {
                let k = choose|k: int| 0 <= k < n - 1 && ids[k] == x;
                assert(occurs(ids, n, x));
            }
        }
    }
}

proof fn lemma_ids_distinct(rows: Seq<StockRow>, js: Seq<int>)
    requires
        unique_ids(rows),
        selection(rows, js),
    ensures
        forall|k: int, l: int|
            0 <= k < js.len() && 0 <= l < js.len() && k != l ==> ids_of(rows, js)[k] != ids_of(
                rows,
                js,
            )[l],
{
    assert forall|k: int, l: int| 0 <= k < js.len() && 0 <= l < js.len() && k != l implies ids_of(
        rows,
        js,
    )[k] != ids_of(rows, js)[l] by {
        assert(js[k] != js[l]);
        assert(0 <= js[k] < rows.len() && 0 <= js[l] < rows.len());
    }
}

proof fn lemma_unit_lookup(rows: Seq<StockRow>, js: Seq<int>, k: int)
    requires
        unique_ids(rows),
        selection(rows, js),
        0 <= k < js.len(),
    ensures
        lookup(request_snapshot(rows, unit_lines(ids_of(rows, js))), ids_of(rows, js)[k]) == Some(
            stock_entry(rows[js[k]]),
        ),
{
    let lines = unit_lines(ids_of(rows, js));
    assert(line_ids(lines)[k] == ids_of(rows, js)[k]);
    lemma_snapshot_lookup(rows, line_ids(lines), ids_of(rows, js)[k]);
    assert(0 <= js[k] < rows.len() && !rows[js[k]].archived);
    lemma_orderable_at(rows, js[k]);
}

/// With at least one copy of every selected book in stock, no line of the
/// request is faulty, and its total is the sum of the books' prices.
proof fn lemma_unit_prefix(rows: Seq<StockRow>, js: Seq<int>, n: int)
    requires
        unique_ids(rows),
        selection(rows, js),
        forall|k: int| 0 <= k < js.len() ==> rows[#[trigger] js[k]].stock_quantity >= 1,
        0 <= n <= js.len(),
    ensures
        first_fault(
            request_snapshot(rows, unit_lines(ids_of(rows, js))),
            unit_lines(ids_of(rows, js)).subrange(0, n),
        ) is None,
        total(
            request_snapshot(rows, unit_lines(ids_of(rows, js))),
            unit_lines(ids_of(rows, js)).subrange(0, n),
        ) == price_sum(rows, js.subrange(0, n)),
    decreases n,
{
    let ids = ids_of(rows, js);
    let lines = unit_lines(ids);
    let snap = request_snapshot(rows, lines);
    if n == 0 {
        assert(lines.subrange(0, 0) =~= Seq::<OrderItemDto>::empty());
        assert(js.subrange(0, 0) =~= Seq::<int>::empty());
    } else {
        lemma_unit_prefix(rows, js, n - 1);
        let prefix = lines.subrange(0, n);
        assert(prefix.drop_last() =~= lines.subrange(0, n - 1));
        assert(prefix.subrange(0, n) =~= prefix);
        assert(prefix[n - 1] == lines[n - 1]);
        lemma_unit_lookup(rows, js, n - 1);
        lemma_ids_distinct(rows, js);
        lemma_unit_demand(ids, n, ids[n - 1]);
        assert(occurs(ids, n, ids[n - 1]));
        assert(rows[js[n - 1]].stock_quantity >= 1);
        assert(js.subrange(0, n).drop_last() =~= js.subrange(0, n - 1));
        assert(js.subrange(0, n).last() == js[n - 1]);
    }
}

/// One request for a copy of each selected book, all of which hold `t`
/// copies: it succeeds when `t` is positive, taking one copy of each and
/// changing nothing else; with no copies left it fails with
/// `InsufficientStock` for the first book.
proof fn lemma_unit_lines_step(rows: Seq<StockRow>, js: Seq<int>, t: int)
    requires
        rows_wf(rows),
        selection(rows, js),
        js.len() > 0,
        forall|k: int| 0 <= k < js.len() ==> rows[#[trigger] js[k]].stock_quantity == t,
        fits_i32(price_sum(rows, js)),
    ensures
        place_outcome(rows, unit_lines(ids_of(rows, js))) == if t >= 1 {
            Ok::<(), OrderError>(())
        } else {
            Err(OrderError::InsufficientStock(rows[js[0]].id))
        },
        t >= 1 ==> forall|k: int|
            0 <= k < js.len() ==> (#[trigger] rows_after(rows, unit_lines(ids_of(rows, js)))[js[k]]).stock_quantity
                == t - 1,
        forall|x: int|
            0 <= x < rows.len() && (forall|k: int| 0 <= k < js.len() ==> js[k] != x) ==> (
            #[trigger] rows_after(rows, unit_lines(ids_of(rows, js)))[x]) == rows[x],
{
    let ids = ids_of(rows, js);
    let lines = unit_lines(ids);
    let snap = request_snapshot(rows, lines);
    lemma_ids_distinct(rows, js);
    assert(lines.subrange(0, lines.len() as int) =~= lines);
    assert(js.subrange(0, js.len() as int) =~= js);
    assert(lines.len() == js.len());
    if t >= 1 {
        lemma_unit_prefix(rows, js, js.len() as int);
        assert(first_fault(snap, lines) is None);
        assert(total(snap, lines) == price_sum(rows, js));
        assert(plan_result(snap, lines) == Ok::<(), OrderError>(()));
    } else {
        let first = lines.subrange(0, 1);
        assert(first.drop_last() =~= Seq::<OrderItemDto>::empty());
        assert(first.subrange(0, 1) =~= first);
        assert(first[0] == lines[0]);
        lemma_unit_lookup(rows, js, 0);
        lemma_unit_demand(ids, 1, ids[0]);
        assert(occurs(ids, 1, ids[0]));
        assert(rows[js[0]].stock_quantity == t);
        assert(line_fault(snap, first, 0) == Some(OrderError::InsufficientStock(ids[0])));
        assert(first_fault(snap, first.drop_last()) is None);
        assert(first_fault(snap, first) == Some(OrderError::InsufficientStock(ids[0])));
        lemma_fault_extends(snap, lines, 1);
        assert(ids[0] == rows[js[0]].id);
        assert(plan_result(snap, lines) == Err::<(), OrderError>(OrderError::InsufficientStock(ids[0])));
    }
    let after = rows_after(rows, lines);
    assert forall|k: int| 0 <= k < js.len() implies (#[trigger] after[js[k]]).stock_quantity == rows[js[
        k]].stock_quantity - 1 by {
        assert(0 <= js[k] < rows.len());
        lemma_unit_demand(ids, js.len() as int, rows[js[k]].id);
        assert(ids[k] == rows[js[k]].id);
        assert(occurs(ids, js.len() as int, rows[js[k]].id));
    }
    assert forall|x: int|
        0 <= x < rows.len() && (forall|k: int| 0 <= k < js.len() ==> js[k] != x) implies (
        #[trigger] after[x]) == rows[x] by {
        lemma_unit_demand(ids, js.len() as int, rows[x].id);
        if occurs(ids, js.len() as int, rows[x].id) {
            let k = choose|k: int| 0 <= k < js.len() && ids[k] == rows[x].id;
            assert(0 <= js[k] < rows.len());
            assert(js[k] != x);
            assert(ids[k] == rows[js[k]].id);
        }
    }
}


proof fn lemma_price_sum_same(a: Seq<StockRow>, b: Seq<StockRow>, js: Seq<int>)
    requires
        forall|k: int| 0 <= k < js.len() ==> a[#[trigger] js[k]].price == b[js[k]].price,
    ensures
        price_sum(a, js) == price_sum(b, js),
    decreases js.len(),
{
    if js.len() > 0 {
        assert forall|k: int| 0 <= k < js.drop_last().len() implies a[#[trigger] js.drop_last()[k]].price
            == b[js.drop_last()[k]].price by {
            assert(js.drop_last()[k] == js[k]);
        }
        lemma_price_sum_same(a, b, js.drop_last());
        assert(js.last() == js[js.len() - 1]);
    }
}

/// Of `m` successive requests, each for one copy of every selected book,
/// where every selected book starts with the same `s` copies: exactly the
/// first `min(s, m)` succeed and every later one fails with
/// `InsufficientStock` for the first book; each selected book ends with
/// `s - min(s, m)` copies, no other row changes, and no stock ever goes
/// negative.
pub proof fn lemma_no_oversell_books(rows: Seq<StockRow>, js: Seq<int>, m: nat)
    requires
        rows_wf(rows),
        selection(rows, js),
        js.len() > 0,
        forall|k: int|
            0 <= k < js.len() ==> rows[#[trigger] js[k]].stock_quantity == rows[js[0]].stock_quantity,
        fits_i32(price_sum(rows, js)),
    ensures
        ({
            let ids = ids_of(rows, js);
            let s = rows[js[0]].stock_quantity as int;
            let after = multi_run(rows, ids, m);
            &&& rows_wf(after)
            &&& after.len() == rows.len()
            &&& forall|k: int|
                0 <= k < js.len() ==> (#[trigger] after[js[k]]).stock_quantity == if m <= s {
                    s - m
                } else {
                    0
                }
            &&& forall|x: int|
                0 <= x < rows.len() && (forall|k: int| 0 <= k < js.len() ==> js[k] != x) ==> (
                #[trigger] after[x]) == rows[x]
            &&& forall|x: int|
                0 <= x < rows.len() ==> (#[trigger] after[x]).id == rows[x].id && after[x].price
                    == rows[x].price && after[x].archived == rows[x].archived
            &&& forall|i: nat|
                i < m ==> #[trigger] multi_outcome(rows, ids, i) == if i < s {
                    Ok::<(), OrderError>(())
                } else {
                    Err(OrderError::InsufficientStock(ids[0]))
                }
        }),
    decreases m,
{
    let ids = ids_of(rows, js);
    let s = rows[js[0]].stock_quantity as int;
    if m == 0 {
        return;
    }
    let m1 = (m - 1) as nat;
    lemma_no_oversell_books(rows, js, m1);
    let prev = multi_run(rows, ids, m1);
    let t: int = if m1 <= s {
        s - m1
    } else {
        0
    };
    assert forall|k: int| 0 <= k < js.len() implies !prev[#[trigger] js[k]].archived by {
        assert(0 <= js[k] < rows.len());
        assert(!rows[js[k]].archived);
    }
    assert(selection(prev, js));
    assert(ids_of(prev, js) =~= ids) by {
        assert forall|k: int| 0 <= k < js.len() implies ids_of(prev, js)[k] == ids[k] by {
            assert(0 <= js[k] < rows.len());
        }
    }
    assert forall|k: int| 0 <= k < js.len() implies prev[#[trigger] js[k]].price == rows[js[k]].price by {
        assert(0 <= js[k] < rows.len());
    }
    lemma_price_sum_same(prev, rows, js);
    assert forall|k: int| 0 <= k < js.len() implies prev[#[trigger] js[k]].stock_quantity == t by {}
    lemma_unit_lines_step(prev, js, t);
    let lines = unit_lines(ids);
    let after = multi_run(rows, ids, m);
    assert(after == rows_after_attempt(prev, lines));
    assert(multi_outcome(rows, ids, m1) == place_outcome(prev, lines));
    if t >= 1 {
        assert(after == rows_after(prev, lines));
        assert forall|x: int| 0 <= x < rows.len() implies (#[trigger] after[x]).id == rows[x].id
            && after[x].price == rows[x].price && after[x].archived == rows[x].archived by {
            assert(after[x].id == prev[x].id);
        }
        assert forall|k: int| 0 <= k < js.len() implies (#[trigger] after[js[k]]).stock_quantity == if m
            <= s {
            s - m
        } else {
            0
        } by {}
        assert forall|i: int| 0 <= i < after.len() implies after[i].stock_quantity >= 0 by {
            if exists|k: int| 0 <= k < js.len() && js[k] == i {
                let k = choose|k: int| 0 <= k < js.len() && js[k] == i;
                assert(after[js[k]].stock_quantity == t - 1);
            } else {
                assert(after[i] == prev[i]);
            }
        }
        assert(unique_ids(after)) by {
            assert forall|i: int, j: int|
                0 <= i < after.len() && 0 <= j < after.len() && i != j implies after[i].id
                != after[j].id by {
                assert(after[i].id == rows[i].id);
                assert(after[j].id == rows[j].id);
            }
        }
    } else {
        assert(after == prev);
    }
    assert forall|i: nat| i < m implies #[trigger] multi_outcome(rows, ids, i) == if i < s {
        Ok::<(), OrderError>(())
    } else {
        Err(OrderError::InsufficientStock(ids[0]))
    } by {
        if i == m1 {
            assert(ids[0] == prev[js[0]].id);
        }
    }
}

/// The requests of a run change only stock.
proof fn lemma_run_keeps_row(rows: Seq<StockRow>, j: int, m: nat)
    requires
        rows_wf(rows),
        0 <= j < rows.len(),
        !rows[j].archived,
    ensures
        unit_run(rows, rows[j].id, m).len() == rows.len(),
        unit_run(rows, rows[j].id, m)[j].id == rows[j].id,
        !unit_run(rows, rows[j].id, m)[j].archived,
        rows_wf(unit_run(rows, rows[j].id, m)),
    decreases m,
{
    if m > 0 {
        let m1 = (m - 1) as nat;
        lemma_run_keeps_row(rows, j, m1);
        let prev = unit_run(rows, rows[j].id, m1);
        lemma_single_line(prev, j, 1);
    }
}

/// The total recorded with a placed order is the sum over its recorded
/// lines of amount times the unit price frozen in that line.
pub proof fn lemma_total_matches_items(
    rows: Seq<StockRow>,
    lines: Seq<OrderItemDto>,
    order_id: u128,
    created_at: i64,
)
    requires
        place_outcome(rows, lines) is Ok,
    ensures
        placed_record(rows, lines, order_id, created_at).total_price as int == items_total(
            placed_record(rows, lines, order_id, created_at).items,
        ),
{
    let snap = request_snapshot(rows, lines);
    lemma_total_prefix(snap, lines);
}

proof fn lemma_total_prefix(books: Seq<BookStock>, lines: Seq<OrderItemDto>)
    ensures
        total(books, lines) == items_total(priced_items(books, lines)),
    decreases lines.len(),
{
    if lines.len() > 0 {
        lemma_total_prefix(books, lines.drop_last());
        assert(priced_items(books, lines).drop_last() =~= priced_items(books, lines.drop_last()));
        lemma_unit_price_fits(books, lines.last().book_id);
    }
}

/// Changing a book's catalog price after an order was placed leaves the
/// order's recorded unit price at the price in effect when it was placed,
/// while the catalog now quotes the new price.
pub proof fn lemma_price_freeze(
    rows: Seq<StockRow>,
    lines: Seq<OrderItemDto>,
    order_id: u128,
    created_at: i64,
    k: int,
    j: int,
    new_price: i32,
)
    requires
        rows_wf(rows),
        place_outcome(rows, lines) is Ok,
        0 <= k < lines.len(),
        0 <= j < rows.len(),
        lines[k].book_id == rows[j].id,
    ensures
        placed_record(rows, lines, order_id, created_at).items[k].price == rows[j].price,
        repriced(rows_after(rows, lines), rows[j].id, new_price)[j].price == new_price,
        placed_record(rows, lines, order_id, created_at).total_price as int == items_total(
            placed_record(rows, lines, order_id, created_at).items,
        ),
{
    let snap = request_snapshot(rows, lines);
    let id = rows[j].id;
    assert(line_ids(lines)[k] == id);
    lemma_snapshot_lookup(rows, line_ids(lines), id);
    lemma_no_fault_lines(snap, lines, k);
    lemma_orderable_at(rows, j);
    lemma_total_matches_items(rows, lines, order_id, created_at);
}

/// When the first faulty line of a request names a book that is unknown or
/// withdrawn from sale, the whole request fails with `NotFound` for that
/// book and no row changes, whatever valid lines come before it.
pub proof fn lemma_unknown_book_fails_all(rows: Seq<StockRow>, lines: Seq<OrderItemDto>, k: int)
    requires
        rows_wf(rows),
        0 <= k < lines.len(),
        first_fault(request_snapshot(rows, lines), lines.subrange(0, k)) is None,
        orderable(rows, lines[k].book_id) is None,
    ensures
        place_outcome(rows, lines) == Err::<(), OrderError>(OrderError::NotFound(lines[k].book_id)),
        rows_after_attempt(rows, lines) == rows,
{
    let snap = request_snapshot(rows, lines);
    let id = lines[k].book_id;
    assert(line_ids(lines)[k] == id);
    lemma_snapshot_lookup(rows, line_ids(lines), id);
    let prefix = lines.subrange(0, k + 1);
    assert(prefix.drop_last() =~= lines.subrange(0, k));
    lemma_fault_extends(snap, lines, k + 1);
}

/// Two listings of an unchanged ledger with the same offset and limit are
/// the same page, and within it an order never precedes an order created
/// after it.
pub proof fn lemma_listing_stable(
    orders: Seq<OrderView>,
    offset: i64,
    limit: i64,
    first: Seq<OrderView>,
    second: Seq<OrderView>,
)
    requires
        ledger_wf(orders),
        first == page(orders, offset, limit),
        second == page(orders, offset, limit),
    ensures
        first == second,
        forall|i: int, k: int|
            0 <= i < k < first.len() ==> (#[trigger] first[i]).created_at >= (#[trigger] first[
                k]).created_at,
        forall|i: int, k: int|
            #![trigger page_position(orders.len() as int, offset, i), page_position(orders.len() as int, offset, k)]
            0 <= i < k < first.len() ==> 0 <= page_position(orders.len() as int, offset, k)
                < page_position(orders.len() as int, offset, i) < orders.len(),
{
}

/// After an order is recorded, the first page of the ledger begins with it.
pub proof fn lemma_newest_first(orders: Seq<OrderView>, placed: OrderView, limit: i64)
    requires
        limit > 0,
    ensures
        page(orders.push(placed), 0, limit)[0] == placed,
        page(orders.push(placed), 0, limit).len() >= 1,
{
}

proof fn lemma_unit_price_fits(books: Seq<BookStock>, id: u128)
    ensures
        i32::MIN <= unit_price(books, id) <= i32::MAX,
{
}

} // verus!
