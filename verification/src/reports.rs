//! Reporting projections: read-only aggregations over the ledger.
//!
//! Every report is a pure function of the store and the caller-supplied
//! reference date; none of them mutates anything.  Sums are checked rational
//! arithmetic, so a report either returns figures that equal the spec-level
//! sums exactly, or refuses with `Overflow` when an amount would leave the
//! representable range.

use vstd::prelude::*;
use crate::models::{
    DashboardStats, Date, Order, OrderItem, Product, SalesReportItem, StoreError, clone_opt_string,
    date_le,
};
use crate::rational::{Rat, rat_add, rat_mul, rat_sub};
use crate::store::{Store, find_order, index_of_id, order_ids};

verus! {

/// The aggregation windows of the dashboard.
#[derive(Clone, Copy, Debug, PartialEq, Eq, Structural)]
pub enum StatWindow {
    All,
    Day,
    Month,
    Year,
}

/// Whether a row dated `d` falls into the window anchored at `today`.
/// An undated row falls only into the unbounded window.
pub open spec fn in_window(d: Option<Date>, w: StatWindow, today: Date) -> bool {
    match w {
        StatWindow::All => true,
        StatWindow::Day => d matches Some(x) && x == today,
        StatWindow::Month => d matches Some(x) && x.year == today.year && x.month == today.month,
        StatWindow::Year => d matches Some(x) && x.year == today.year,
    }
}

/// Executable twin of [`in_window`].
pub fn check_window(d: &Option<Date>, w: StatWindow, today: Date) -> (r: bool)
    ensures
        r == in_window(*d, w, today),
{
    match d {
        None => matches!(w, StatWindow::All),
        Some(x) => match w {
            StatWindow::All => true,
            StatWindow::Day => x.year == today.year && x.month == today.month && x.day
                == today.day,
            StatWindow::Month => x.year == today.year && x.month == today.month,
            StatWindow::Year => x.year == today.year,
        },
    }
}

/// The sum of `grand_total` over the first `n` orders in the window.
pub open spec fn sum_order_totals(s: Seq<Order>, n: int, w: StatWindow, today: Date) -> Option<Rat>
    decreases n,
{
    if n <= 0 {
        Some(Rat { num: 0, den: 1 })
    } else {
        match sum_order_totals(s, n - 1, w, today) {
            None => None,
            Some(acc) => if in_window(s[n - 1].order_date, w, today) {
                rat_add(acc, s[n - 1].grand_total)
            } else {
                Some(acc)
            },
        }
    }
}

/// The sum of `total_amount` over the first `n` purchases in the window.
pub open spec fn sum_purchase_totals(
    s: Seq<crate::models::Purchase>,
    n: int,
    w: StatWindow,
    today: Date,
) -> Option<Rat>
    decreases n,
{
    if n <= 0 {
        Some(Rat { num: 0, den: 1 })
    } else {
        match sum_purchase_totals(s, n - 1, w, today) {
            None => None,
            Some(acc) => if in_window(s[n - 1].purchase_date, w, today) {
                rat_add(acc, s[n - 1].total_amount)
            } else {
                Some(acc)
            },
        }
    }
}

/// Cost of goods sold: the sum of `quantity * buying_price_snapshot` over the
/// first `n` sale lines whose order falls in the window.  Lines without a
/// snapshot, or whose order no longer exists, contribute nothing.
pub open spec fn sum_cogs(
    orders: Seq<Order>,
    items: Seq<OrderItem>,
    n: int,
    w: StatWindow,
    today: Date,
) -> Option<Rat>
    decreases n,
{
    if n <= 0 {
        Some(Rat { num: 0, den: 1 })
    } else {
        match sum_cogs(orders, items, n - 1, w, today) {
            None => None,
            Some(acc) => {
                let it = items[n - 1];
                let oi = index_of_id(order_ids(orders), it.order_id);
                if oi >= 0 && in_window(orders[oi].order_date, w, today) && it
                    .buying_price_snapshot is Some {
                    match rat_mul(it.quantity, it.buying_price_snapshot->Some_0) {
                        None => None,
                        Some(v) => rat_add(acc, v),
                    }
                } else {
                    Some(acc)
                }
            },
        }
    }
}

/// The stock value of the first `n` catalog rows that are not soft-deleted:
/// the sum of `stock_quantity * buying_price`.
pub open spec fn sum_inventory_value(ps: Seq<Product>, n: int) -> Option<Rat>
    decreases n,
{
    if n <= 0 {
        Some(Rat { num: 0, den: 1 })
    } else {
        match sum_inventory_value(ps, n - 1) {
            None => None,
            Some(acc) => if ps[n - 1].is_deleted == 0 {
                match rat_mul(ps[n - 1].stock_quantity, ps[n - 1].buying_price) {
                    None => None,
                    Some(v) => rat_add(acc, v),
                }
            } else {
                Some(acc)
            },
        }
    }
}

/// How many of the first `n` catalog rows are live and at or under the
/// low-stock threshold of five units.
pub open spec fn count_low_stock(ps: Seq<Product>, n: int) -> int
    decreases n,
{
    if n <= 0 {
        0
    } else {
        count_low_stock(ps, n - 1) + if ps[n - 1].is_deleted == 0 && crate::rational::frac_le(
            ps[n - 1].stock_quantity.frac(),
            crate::rational::Frac { num: 5, den: 1 },
        ) {
            1int
        } else {
            0int
        }
    }
}

/// How many of the first `n` catalog rows are live.
pub open spec fn count_live(ps: Seq<Product>, n: int) -> int
    decreases n,
{
    if n <= 0 {
        0
    } else {
        count_live(ps, n - 1) + if ps[n - 1].is_deleted == 0 {
            1int
        } else {
            0int
        }
    }
}

/// What the dashboard shows, or `None` when a sum leaves the representable
/// range.  Profit in each window is the sales total minus the cost of goods
/// sold in that window; the counts and the inventory value range over live
/// products only.
pub open spec fn dashboard_spec(s: Store, today: Date) -> Option<DashboardStats> {
    let no = s.orders@.len() as int;
    let np = s.purchases@.len() as int;
    let ni = s.order_items@.len() as int;
    let nprod = s.products@.len() as int;
    match (
        sum_order_totals(s.orders@, no, StatWindow::All, today),
        sum_order_totals(s.orders@, no, StatWindow::Day, today),
        sum_order_totals(s.orders@, no, StatWindow::Month, today),
        sum_order_totals(s.orders@, no, StatWindow::Year, today),
    ) {
        (Some(sa), Some(sd), Some(sm), Some(sy)) => match (
            sum_purchase_totals(s.purchases@, np, StatWindow::All, today),
            sum_purchase_totals(s.purchases@, np, StatWindow::Day, today),
            sum_purchase_totals(s.purchases@, np, StatWindow::Month, today),
            sum_purchase_totals(s.purchases@, np, StatWindow::Year, today),
        ) {
            (Some(pa), Some(pd), Some(pm), Some(py)) => match (
                sum_cogs(s.orders@, s.order_items@, ni, StatWindow::All, today),
                sum_cogs(s.orders@, s.order_items@, ni, StatWindow::Day, today),
                sum_cogs(s.orders@, s.order_items@, ni, StatWindow::Month, today),
                sum_cogs(s.orders@, s.order_items@, ni, StatWindow::Year, today),
            ) {
                (Some(ca), Some(cd), Some(cm), Some(cy)) => match (
                    rat_sub(sa, ca),
                    rat_sub(sd, cd),
                    rat_sub(sm, cm),
                    rat_sub(sy, cy),
                ) {
                    (Some(fa), Some(fd), Some(fm), Some(fy)) => match sum_inventory_value(
                        s.products@,
                        nprod,
                    ) {
                        Some(inv) => Some(
                            DashboardStats {
                                sales_today: sd,
                                sales_month: sm,
                                sales_year: sy,
                                total_sales: sa,
                                purchases_today: pd,
                                purchases_month: pm,
                                purchases_year: py,
                                total_purchases: pa,
                                profit_today: fd,
                                profit_month: fm,
                                profit_year: fy,
                                total_profit: fa,
                                inventory_value: inv,
                                low_stock_count: count_low_stock(s.products@, nprod) as i64,
                                order_count: no as i64,
                                product_count: count_live(s.products@, nprod) as i64,
                            },
                        ),
                        None => None,
                    },
                    _ => None,
                },
                _ => None,
            },
            _ => None,
        },
        _ => None,
    }
}


pub proof fn lemma_sum_order_totals_stall(s: Seq<Order>, m: int, n: int, w: StatWindow, today: Date)
    requires
        0 <= m <= n,
        sum_order_totals(s, m, w, today) is None,
    ensures
        sum_order_totals(s, n, w, today) is None,
    decreases n - m,
{
    if m < n {
        lemma_sum_order_totals_stall(s, m + 1, n, w, today);
    }
}

pub proof fn lemma_sum_purchase_totals_stall(
    s: Seq<crate::models::Purchase>,
    m: int,
    n: int,
    w: StatWindow,
    today: Date,
)
    requires
        0 <= m <= n,
        sum_purchase_totals(s, m, w, today) is None,
    ensures
        sum_purchase_totals(s, n, w, today) is None,
    decreases n - m,
{
    if m < n {
        lemma_sum_purchase_totals_stall(s, m + 1, n, w, today);
    }
}

pub proof fn lemma_sum_cogs_stall(
    orders: Seq<Order>,
    items: Seq<OrderItem>,
    m: int,
    n: int,
    w: StatWindow,
    today: Date,
)
    requires
        0 <= m <= n,
        sum_cogs(orders, items, m, w, today) is None,
    ensures
        sum_cogs(orders, items, n, w, today) is None,
    decreases n - m,
{
    if m < n {
        lemma_sum_cogs_stall(orders, items, m + 1, n, w, today);
    }
}

pub proof fn lemma_sum_inventory_value_stall(ps: Seq<Product>, m: int, n: int)
    requires
        0 <= m <= n,
        sum_inventory_value(ps, m) is None,
    ensures
        sum_inventory_value(ps, n) is None,
    decreases n - m,
{
    if m < n {
        lemma_sum_inventory_value_stall(ps, m + 1, n);
    }
}

/// Compute the dashboard figures for the calendar date `today`: sales,
/// purchase and profit totals over the day, month, year and all time, the
/// inventory value and the low-stock and row counts.  Returns exactly
/// [`dashboard_spec`], refusing with `Overflow` precisely when that is
/// `None`.  The store is not changed.
#[verifier::loop_isolation(false)]
pub fn get_dashboard_stats(store: &Store, today: Date) -> (r: Result<DashboardStats, StoreError>)
    requires
        store.wf(),
        store.products@.len() < 0x7fff_ffff_ffff_ffff,
        store.orders@.len() < 0x7fff_ffff_ffff_ffff,
    ensures
        r is Ok <==> dashboard_spec(*store, today) is Some,
        r is Ok ==> r == Ok::<DashboardStats, StoreError>(dashboard_spec(*store, today)->Some_0),
        r is Err ==> r == Err::<DashboardStats, StoreError>(StoreError::Overflow),
{
    let no = store.orders.len();
    let mut sa = Rat::zero();
    let mut sd = Rat::zero();
    let mut sm = Rat::zero();
    let mut sy = Rat::zero();
    let mut k: usize = 0;
    while k < no
        invariant
            k <= no,
            sa.wf() && sd.wf() && sm.wf() && sy.wf(),
            Some(sa) == sum_order_totals(store.orders@, k as int, StatWindow::All, today),
            Some(sd) == sum_order_totals(store.orders@, k as int, StatWindow::Day, today),
            Some(sm) == sum_order_totals(store.orders@, k as int, StatWindow::Month, today),
            Some(sy) == sum_order_totals(store.orders@, k as int, StatWindow::Year, today),
        decreases no - k,
    {
        let o = &store.orders[k];
        if check_window(&o.order_date, StatWindow::All, today) {
            sa = match sa.add(o.grand_total) {
                Some(v) => v,
                None => {
                    proof {
                        lemma_sum_order_totals_stall(
                            store.orders@,
                            k as int + 1,
                            no as int,
                            StatWindow::All,
                            today,
                        );
                    }
                    return Err(StoreError::Overflow);
                },
            };
        }
        if check_window(&o.order_date, StatWindow::Day, today) {
            sd = match sd.add(o.grand_total) {
                Some(v) => v,
                None => {
                    proof {
                        lemma_sum_order_totals_stall(
                            store.orders@,
                            k as int + 1,
                            no as int,
                            StatWindow::Day,
                            today,
                        );
                    }
                    return Err(StoreError::Overflow);
                },
            };
        }
        if check_window(&o.order_date, StatWindow::Month, today) {
            sm = match sm.add(o.grand_total) {
                Some(v) => v,
                None => {
                    proof {
                        lemma_sum_order_totals_stall(
                            store.orders@,
                            k as int + 1,
                            no as int,
                            StatWindow::Month,
                            today,
                        );
                    }
                    return Err(StoreError::Overflow);
                },
            };
        }
        if check_window(&o.order_date, StatWindow::Year, today) {
            sy = match sy.add(o.grand_total) {
                Some(v) => v,
                None => {
                    proof {
                        lemma_sum_order_totals_stall(
                            store.orders@,
                            k as int + 1,
                            no as int,
                            StatWindow::Year,
                            today,
                        );
                    }
                    return Err(StoreError::Overflow);
                },
            };
        }
        k += 1;
    }

    let np = store.purchases.len();
    let mut pa = Rat::zero();
    let mut pd = Rat::zero();
    let mut pm = Rat::zero();
    let mut py = Rat::zero();
    let mut k: usize = 0;
    while k < np
        invariant
            k <= np,
            pa.wf() && pd.wf() && pm.wf() && py.wf(),
            Some(pa) == sum_purchase_totals(store.purchases@, k as int, StatWindow::All, today),
            Some(pd) == sum_purchase_totals(store.purchases@, k as int, StatWindow::Day, today),
            Some(pm) == sum_purchase_totals(store.purchases@, k as int, StatWindow::Month, today),
            Some(py) == sum_purchase_totals(store.purchases@, k as int, StatWindow::Year, today),
        decreases np - k,
    {
        let p = &store.purchases[k];
        if check_window(&p.purchase_date, StatWindow::All, today) {
            pa = match pa.add(p.total_amount) {
                Some(v) => v,
                None => {
                    proof {
                        lemma_sum_purchase_totals_stall(
                            store.purchases@,
                            k as int + 1,
                            np as int,
                            StatWindow::All,
                            today,
                        );
                    }
                    return Err(StoreError::Overflow);
                },
            };
        }
        if check_window(&p.purchase_date, StatWindow::Day, today) {
            pd = match pd.add(p.total_amount) {
                Some(v) => v,
                None => {
                    proof {
                        lemma_sum_purchase_totals_stall(
                            store.purchases@,
                            k as int + 1,
                            np as int,
                            StatWindow::Day,
                            today,
                        );
                    }
                    return Err(StoreError::Overflow);
                },
            };
        }
        if check_window(&p.purchase_date, StatWindow::Month, today) {
            pm = match pm.add(p.total_amount) {
                Some(v) => v,
                None => {
                    proof {
                        lemma_sum_purchase_totals_stall(
                            store.purchases@,
                            k as int + 1,
                            np as int,
                            StatWindow::Month,
                            today,
                        );
                    }
                    return Err(StoreError::Overflow);
                },
            };
        }
        if check_window(&p.purchase_date, StatWindow::Year, today) {
            py = match py.add(p.total_amount) {
                Some(v) => v,
                None => {
                    proof {
                        lemma_sum_purchase_totals_stall(
                            store.purchases@,
                            k as int + 1,
                            np as int,
                            StatWindow::Year,
                            today,
                        );
                    }
                    return Err(StoreError::Overflow);
                },
            };
        }
        k += 1;
    }

    let ni = store.order_items.len();
    let mut ca = Rat::zero();
    let mut cd = Rat::zero();
    let mut cm = Rat::zero();
    let mut cy = Rat::zero();
    let mut k: usize = 0;
    while k < ni
        invariant
            k <= ni,
            ca.wf() && cd.wf() && cm.wf() && cy.wf(),
            Some(ca) == sum_cogs(store.orders@, store.order_items@, k as int, StatWindow::All, today),
            Some(cd) == sum_cogs(store.orders@, store.order_items@, k as int, StatWindow::Day, today),
            Some(cm) == sum_cogs(store.orders@, store.order_items@, k as int, StatWindow::Month, today),
            Some(cy) == sum_cogs(store.orders@, store.order_items@, k as int, StatWindow::Year, today),
        decreases ni - k,
    {
        let it = store.order_items[k];
        let found = find_order(&store.orders, it.order_id);
        match (found, it.buying_price_snapshot) {
            (Some(oi), Some(sn)) => {
                let v = match it.quantity.mul(sn) {
                    Some(v) => v,
                    None => {
                        if check_window(&store.orders[oi].order_date, StatWindow::All, today) {
                            proof {
                                lemma_sum_cogs_stall(
                                    store.orders@,
                                    store.order_items@,
                                    k as int + 1,
                                    ni as int,
                                    StatWindow::All,
                                    today,
                                );
                            }
                            return Err(StoreError::Overflow);
                        }
                        proof {
                            assert(Some(ca) == sum_cogs(store.orders@, store.order_items@, k as int + 1, StatWindow::All, today));
                            assert(Some(cd) == sum_cogs(store.orders@, store.order_items@, k as int + 1, StatWindow::Day, today));
                            assert(Some(cm) == sum_cogs(store.orders@, store.order_items@, k as int + 1, StatWindow::Month, today));
                            assert(Some(cy) == sum_cogs(store.orders@, store.order_items@, k as int + 1, StatWindow::Year, today));
                        }
                        k += 1;
                        continue;
                    },
                };
                if check_window(&store.orders[oi].order_date, StatWindow::All, today) {
                    ca = match ca.add(v) {
                        Some(x) => x,
                        None => {
                            proof {
                                lemma_sum_cogs_stall(
                                    store.orders@,
                                    store.order_items@,
                                    k as int + 1,
                                    ni as int,
                                    StatWindow::All,
                                    today,
                                );
                            }
                            return Err(StoreError::Overflow);
                        },
                    };
                }
                if check_window(&store.orders[oi].order_date, StatWindow::Day, today) {
                    cd = match cd.add(v) {
                        Some(x) => x,
                        None => {
                            proof {
                                lemma_sum_cogs_stall(
                                    store.orders@,
                                    store.order_items@,
                                    k as int + 1,
                                    ni as int,
                                    StatWindow::Day,
                                    today,
                                );
                            }
                            return Err(StoreError::Overflow);
                        },
                    };
                }
                if check_window(&store.orders[oi].order_date, StatWindow::Month, today) {
                    cm = match cm.add(v) {
                        Some(x) => x,
                        None => {
                            proof {
                                lemma_sum_cogs_stall(
                                    store.orders@,
                                    store.order_items@,
                                    k as int + 1,
                                    ni as int,
                                    StatWindow::Month,
                                    today,
                                );
                            }
                            return Err(StoreError::Overflow);
                        },
                    };
                }
                if check_window(&store.orders[oi].order_date, StatWindow::Year, today) {
                    cy = match cy.add(v) {
                        Some(x) => x,
                        None => {
                            proof {
                                lemma_sum_cogs_stall(
                                    store.orders@,
                                    store.order_items@,
                                    k as int + 1,
                                    ni as int,
                                    StatWindow::Year,
                                    today,
                                );
                            }
                            return Err(StoreError::Overflow);
                        },
                    };
                }
            },
            _ => {},
        }
        k += 1;
    }

    let nprod = store.products.len();
    let mut inv = Rat::zero();
    let mut low: i64 = 0;
    let mut live: i64 = 0;
    let five = Rat { num: 5, den: 1 };
    let mut k: usize = 0;
    while k < nprod
        invariant
            k <= nprod,
            inv.wf(),
            Some(inv) == sum_inventory_value(store.products@, k as int),
            low == count_low_stock(store.products@, k as int),
            live == count_live(store.products@, k as int),
            0 <= low <= k,
            0 <= live <= k,
        decreases nprod - k,
    {
        let p = &store.products[k];
        if p.is_deleted == 0 {
            let v = match p.stock_quantity.mul(p.buying_price) {
                Some(v) => v,
                None => {
                    proof {
                        lemma_sum_inventory_value_stall(
                            store.products@,
                            k as int + 1,
                            nprod as int,
                        );
                    }
                    return Err(StoreError::Overflow);
                },
            };
            inv = match inv.add(v) {
                Some(x) => x,
                None => {
                    proof {
                        lemma_sum_inventory_value_stall(
                            store.products@,
                            k as int + 1,
                            nprod as int,
                        );
                    }
                    return Err(StoreError::Overflow);
                },
            };
            live = live + 1;
            if p.stock_quantity.le(five) {
                low = low + 1;
            }
        }
        k += 1;
    }

    let fa = match sa.sub(ca) {
        Some(v) => v,
        None => return Err(StoreError::Overflow),
    };
    let fd = match sd.sub(cd) {
        Some(v) => v,
        None => return Err(StoreError::Overflow),
    };
    let fm = match sm.sub(cm) {
        Some(v) => v,
        None => return Err(StoreError::Overflow),
    };
    let fy = match sy.sub(cy) {
        Some(v) => v,
        None => return Err(StoreError::Overflow),
    };
    Ok(
        DashboardStats {
            sales_today: sd,
            sales_month: sm,
            sales_year: sy,
            total_sales: sa,
            purchases_today: pd,
            purchases_month: pm,
            purchases_year: py,
            total_purchases: pa,
            profit_today: fd,
            profit_month: fm,
            profit_year: fy,
            total_profit: fa,
            inventory_value: inv,
            low_stock_count: low,
            order_count: no as i64,
            product_count: live,
        },
    )
}


/// The cost of goods sold of one order: the sum of
/// `quantity * buying_price_snapshot` over the first `n` sale lines carrying
/// its id and a snapshot.
pub open spec fn order_cogs(items: Seq<OrderItem>, oid: i64, n: int) -> Option<Rat>
    decreases n,
{
    if n <= 0 {
        Some(Rat { num: 0, den: 1 })
    } else {
        match order_cogs(items, oid, n - 1) {
            None => None,
            Some(acc) => {
                let it = items[n - 1];
                if it.order_id == oid && it.buying_price_snapshot is Some {
                    match rat_mul(it.quantity, it.buying_price_snapshot->Some_0) {
                        None => None,
                        Some(v) => rat_add(acc, v),
                    }
                } else {
                    Some(acc)
                }
            },
        }
    }
}

/// How many of the first `n` sale lines carry the order's id.
pub open spec fn order_line_count(items: Seq<OrderItem>, oid: i64, n: int) -> int
    decreases n,
{
    if n <= 0 {
        0
    } else {
        order_line_count(items, oid, n - 1) + if items[n - 1].order_id == oid {
            1int
        } else {
            0int
        }
    }
}

/// The sales report over the first `n` orders: one row per dated order whose
/// date lies in `[start, end]`, carrying its totals, line count, and profit
/// (`grand_total` minus its cost of goods sold).
pub open spec fn sales_report_spec(
    orders: Seq<Order>,
    items: Seq<OrderItem>,
    n: int,
    start: Date,
    end: Date,
) -> Option<Seq<SalesReportItem>>
    decreases n,
{
    if n <= 0 {
        Some(Seq::<SalesReportItem>::empty())
    } else {
        match sales_report_spec(orders, items, n - 1, start, end) {
            None => None,
            Some(rows) => {
                let o = orders[n - 1];
                if o.order_date matches Some(d) && date_le(start, d) && date_le(d, end) {
                    match order_cogs(items, o.order_id, items.len() as int) {
                        None => None,
                        Some(c) => match rat_sub(o.grand_total, c) {
                            None => None,
                            Some(profit) => Some(
                                rows.push(
                                    SalesReportItem {
                                        order_id: o.order_id,
                                        date: o.order_date,
                                        customer: o.customer_name,
                                        total: o.grand_total,
                                        discount: o.discount,
                                        items_count: order_line_count(
                                            items,
                                            o.order_id,
                                            items.len() as int,
                                        ) as i64,
                                        profit,
                                    },
                                ),
                            ),
                        },
                    }
                } else {
                    Some(rows)
                }
            },
        }
    }
}

pub proof fn lemma_sales_report_stall(
    orders: Seq<Order>,
    items: Seq<OrderItem>,
    m: int,
    n: int,
    start: Date,
    end: Date,
)
    requires
        0 <= m <= n,
        sales_report_spec(orders, items, m, start, end) is None,
    ensures
        sales_report_spec(orders, items, n, start, end) is None,
    decreases n - m,
{
    if m < n {
        lemma_sales_report_stall(orders, items, m + 1, n, start, end);
    }
}

/// Descending by order date.
pub open spec fn sales_rows_sorted(s: Seq<SalesReportItem>) -> bool {
    forall|i: int, j: int|
        0 <= i < j < s.len() ==> mdate_key((#[trigger] s[j]).date) <= mdate_key(
            (#[trigger] s[i]).date,
        )
}

/// Insert a report row at its place in the date-descending report.
#[verifier::loop_isolation(false)]
fn insert_sales_row(out: &mut Vec<SalesReportItem>, row: SalesReportItem)
    requires
        sales_rows_sorted(old(out)@),
    ensures
        final(out)@.to_multiset() == old(out)@.to_multiset().insert(row),
        sales_rows_sorted(final(out)@),
        final(out)@.len() == old(out)@.len() + 1,
{
    let rk = date_key(&row.date);
    let mut pos: usize = 0;
    while pos < out.len() && date_key(&out[pos].date) >= rk
        invariant
            pos <= out@.len(),
            out@ == old(out)@,
            forall|i: int| 0 <= i < pos ==> mdate_key(row.date) <= mdate_key((#[trigger] out@[i]).date),
        decreases out@.len() - pos,
    {
        pos += 1;
    }
    let ghost out0 = out@;
    out.insert(pos, row);
    proof {
        let p0 = pos as int;
        lemma_insert_multiset(out0, p0, row);
        assert forall|i: int, j: int| 0 <= i < j < out@.len() implies mdate_key(
            (#[trigger] out@[j]).date,
        ) <= mdate_key((#[trigger] out@[i]).date) by {
            if i < p0 && j == p0 {
            } else if i == p0 && j > p0 {
            }
        }
    }
}

/// The sales report for the date range `[start, end]`: per order in range,
/// its totals, discount, line count and profit, computed exactly as the
/// dashboard computes profit, scoped to the one order.  Rows come newest
/// first; rows of equal date are not ordered further.  The store is not
/// changed.
#[verifier::loop_isolation(false)]
pub fn get_sales_report(store: &Store, start: Date, end: Date) -> (r: Result<
    Vec<SalesReportItem>,
    StoreError,
>)
    requires
        store.wf(),
        store.order_items@.len() < 0x7fff_ffff_ffff_ffff,
    ensures
        r is Ok <==> sales_report_spec(
            store.orders@,
            store.order_items@,
            store.orders@.len() as int,
            start,
            end,
        ) is Some,
        r is Ok ==> (sales_report_spec(
            store.orders@,
            store.order_items@,
            store.orders@.len() as int,
            start,
            end,
        ) matches Some(rows) && (r->Ok_0)@.to_multiset() == rows.to_multiset()
            && sales_rows_sorted((r->Ok_0)@)),
        r is Err ==> r == Err::<Vec<SalesReportItem>, StoreError>(StoreError::Overflow),
{
    broadcast use vstd::seq_lib::group_to_multiset_ensures;

    let no = store.orders.len();
    let ni = store.order_items.len();
    let mut out: Vec<SalesReportItem> = Vec::new();
    let ghost mut rows: Seq<SalesReportItem> = Seq::empty();
    let mut k: usize = 0;
    while k < no
        invariant
            k <= no,
            Some(rows) == sales_report_spec(
                store.orders@,
                store.order_items@,
                k as int,
                start,
                end,
            ),
            out@.to_multiset() == rows.to_multiset(),
            sales_rows_sorted(out@),
        decreases no - k,
    {
        let o = &store.orders[k];
        let in_range = match &o.order_date {
            None => false,
            Some(d) => start.on_or_before(*d) && d.on_or_before(end),
        };
        if in_range {
            let oid = o.order_id;
            let mut cogs = Rat::zero();
            let mut cnt: i64 = 0;
            let mut j: usize = 0;
            while j < ni
                invariant
                    j <= ni,
                    cogs.wf(),
                    Some(cogs) == order_cogs(store.order_items@, oid, j as int),
                    cnt == order_line_count(store.order_items@, oid, j as int),
                    0 <= cnt <= j,
                decreases ni - j,
            {
                let it = store.order_items[j];
                if it.order_id == oid {
                    cnt = cnt + 1;
                    match it.buying_price_snapshot {
                        Some(sn) => {
                            let v = match it.quantity.mul(sn) {
                                Some(v) => v,
                                None => {
                                    proof {
                                        lemma_order_cogs_stall(
                                            store.order_items@,
                                            oid,
                                            j as int + 1,
                                            ni as int,
                                        );
                                        lemma_sales_report_stall(
                                            store.orders@,
                                            store.order_items@,
                                            k as int + 1,
                                            no as int,
                                            start,
                                            end,
                                        );
                                    }
                                    return Err(StoreError::Overflow);
                                },
                            };
                            cogs = match cogs.add(v) {
                                Some(x) => x,
                                None => {
                                    proof {
                                        lemma_order_cogs_stall(
                                            store.order_items@,
                                            oid,
                                            j as int + 1,
                                            ni as int,
                                        );
                                        lemma_sales_report_stall(
                                            store.orders@,
                                            store.order_items@,
                                            k as int + 1,
                                            no as int,
                                            start,
                                            end,
                                        );
                                    }
                                    return Err(StoreError::Overflow);
                                },
                            };
                        },
                        None => {},
                    }
                }
                j += 1;
            }
            let profit = match o.grand_total.sub(cogs) {
                Some(p) => p,
                None => {
                    proof {
                        lemma_sales_report_stall(
                            store.orders@,
                            store.order_items@,
                            k as int + 1,
                            no as int,
                            start,
                            end,
                        );
                    }
                    return Err(StoreError::Overflow);
                },
            };
            let row = SalesReportItem {
                order_id: oid,
                date: o.order_date,
                customer: clone_opt_string(&o.customer_name),
                total: o.grand_total,
                discount: o.discount,
                items_count: cnt,
                profit,
            };
            insert_sales_row(&mut out, row);
            proof {
                rows = rows.push(row);
            }
        }
        k += 1;
    }
    Ok(out)
}

pub proof fn lemma_order_cogs_stall(items: Seq<OrderItem>, oid: i64, m: int, n: int)
    requires
        0 <= m <= n,
        order_cogs(items, oid, m) is None,
    ensures
        order_cogs(items, oid, n) is None,
    decreases n - m,
{
    if m < n {
        lemma_order_cogs_stall(items, oid, m + 1, n);
    }
}


/// Inserting an element anywhere adds exactly it to the multiset.
pub proof fn lemma_insert_multiset<T>(s: Seq<T>, i: int, x: T)
    requires
        0 <= i <= s.len(),
    ensures
        s.insert(i, x).to_multiset() =~= s.to_multiset().insert(x),
{
    broadcast use vstd::seq_lib::group_to_multiset_ensures;

    let t = s.insert(i, x);
    assert(t.remove(i) =~= s);
    assert(t[i] == x);
    assert(t.remove(i).to_multiset() =~= t.to_multiset().remove(x));
    assert(t.contains(x));
    assert(t.to_multiset().count(x) > 0);
}

/// The inventory report rows, in catalog order: one row per live product,
/// with its stock value; `None` when a stock value leaves the range.
pub open spec fn inventory_rows(ps: Seq<Product>, n: int) -> Option<
    Seq<crate::models::InventoryReportItem>,
>
    decreases n,
{
    if n <= 0 {
        Some(Seq::<crate::models::InventoryReportItem>::empty())
    } else {
        match inventory_rows(ps, n - 1) {
            None => None,
            Some(rows) => {
                let p = ps[n - 1];
                if p.is_deleted == 0 {
                    match rat_mul(p.stock_quantity, p.buying_price) {
                        None => None,
                        Some(v) => Some(
                            rows.push(
                                crate::models::InventoryReportItem {
                                    id: p.id,
                                    name: p.product_name,
                                    category: p.category,
                                    stock: p.stock_quantity,
                                    unit: p.unit,
                                    cost_price: p.buying_price,
                                    selling_price: p.default_selling_price,
                                    stock_value: v,
                                },
                            ),
                        ),
                    }
                } else {
                    Some(rows)
                }
            },
        }
    }
}

pub proof fn lemma_inventory_rows_stall(ps: Seq<Product>, m: int, n: int)
    requires
        0 <= m <= n,
        inventory_rows(ps, m) is None,
    ensures
        inventory_rows(ps, n) is None,
    decreases n - m,
{
    if m < n {
        lemma_inventory_rows_stall(ps, m + 1, n);
    }
}

/// Ascending by stock on hand.
pub open spec fn inv_sorted(s: Seq<crate::models::InventoryReportItem>) -> bool {
    forall|i: int, j: int|
        0 <= i < j < s.len() ==> crate::rational::frac_le(
            (#[trigger] s[i]).stock.frac(),
            (#[trigger] s[j]).stock.frac(),
        )
}

pub open spec fn inv_rows_wf(s: Seq<crate::models::InventoryReportItem>) -> bool {
    forall|i: int| 0 <= i < s.len() ==> (#[trigger] s[i]).stock.wf()
}

/// The inventory report: per live product its stock, cost, selling price and
/// stock value, ascending by stock so that near-out-of-stock products come
/// first.  The rows are exactly [`inventory_rows`], reordered.  The store is
/// not changed.
#[verifier::loop_isolation(false)]
pub fn get_inventory_report(store: &Store) -> (r: Result<
    Vec<crate::models::InventoryReportItem>,
    StoreError,
>)
    requires
        store.wf(),
    ensures
        r is Ok <==> inventory_rows(store.products@, store.products@.len() as int) is Some,
        r is Ok ==> (inventory_rows(store.products@, store.products@.len() as int) matches Some(
            rows,
        ) && (r->Ok_0)@.to_multiset() == rows.to_multiset() && inv_sorted((r->Ok_0)@)),
        r is Err ==> r == Err::<Vec<crate::models::InventoryReportItem>, StoreError>(
            StoreError::Overflow,
        ),
{
    broadcast use vstd::seq_lib::group_to_multiset_ensures;

    let n = store.products.len();
    let mut out: Vec<crate::models::InventoryReportItem> = Vec::new();
    let ghost mut rows: Seq<crate::models::InventoryReportItem> = Seq::empty();
    let mut k: usize = 0;
    while k < n
        invariant
            k <= n,
            Some(rows) == inventory_rows(store.products@, k as int),
            out@.to_multiset() == rows.to_multiset(),
            inv_sorted(out@),
            inv_rows_wf(out@),
        decreases n - k,
    {
        let p = &store.products[k];
        if p.is_deleted == 0 {
            let v = match p.stock_quantity.mul(p.buying_price) {
                Some(v) => v,
                None => {
                    proof {
                        lemma_inventory_rows_stall(store.products@, k as int + 1, n as int);
                    }
                    return Err(StoreError::Overflow);
                },
            };
            let row = crate::models::InventoryReportItem {
                id: p.id,
                name: p.product_name.clone(),
                category: clone_opt_string(&p.category),
                stock: p.stock_quantity,
                unit: clone_opt_string(&p.unit),
                cost_price: p.buying_price,
                selling_price: p.default_selling_price,
                stock_value: v,
            };
            let mut pos: usize = 0;
            while pos < out.len() && out[pos].stock.le(row.stock)
                invariant
                    pos <= out@.len(),
                    forall|i: int|
                        0 <= i < pos ==> crate::rational::frac_le(
                            (#[trigger] out@[i]).stock.frac(),
                            row.stock.frac(),
                        ),
                decreases out@.len() - pos,
            {
                pos += 1;
            }
            let ghost out0 = out@;
            out.insert(pos, row);
            proof {
                lemma_insert_multiset(out0, pos as int, row);
                rows = rows.push(row);
                assert(out@ == out0.insert(pos as int, row));
                assert forall|i: int, j: int| 0 <= i < j < out@.len() implies crate::rational::frac_le(
                    (#[trigger] out@[i]).stock.frac(),
                    (#[trigger] out@[j]).stock.frac(),
                ) by {
                    let p0 = pos as int;
                    if i < p0 && j < p0 {
                    } else if i < p0 && j == p0 {
                    } else if i < p0 && j > p0 {
                    } else if i == p0 && j > p0 {
                        if !crate::rational::frac_le(out@[j].stock.frac(), row.stock.frac()) {
                        }
                        if p0 < out0.len() {
                            if p0 < j - 1 {
                                crate::rational::lemma_frac_le_trans(
                                    row.stock.frac(),
                                    out0[p0].stock.frac(),
                                    out0[j - 1].stock.frac(),
                                );
                            }
                        }
                    }
                }
            }
        }
        k += 1;
    }
    Ok(out)
}


/// A movement row with the tag projected to a flag: `inbound` holds exactly
/// when the tag reads `IN`.  Contracts compare timelines through this view,
/// since a tag string cannot be built in spec code.
pub struct MovementV {
    pub date: Option<Date>,
    pub inbound: bool,
    pub entity_name: Option<String>,
    pub reference: Option<String>,
    pub reference_id: Option<i64>,
    pub quantity: Rat,
    pub price: Rat,
}

pub open spec fn movement_view(m: crate::models::StockMovement) -> MovementV {
    MovementV {
        date: m.date,
        inbound: m.movement_type@ == "IN"@,
        entity_name: m.entity_name,
        reference: m.reference,
        reference_id: m.reference_id,
        quantity: m.quantity,
        price: m.price,
    }
}

/// The inbound movements of one product: its purchase lines joined with
/// their headers; lines whose header is gone are dropped, as a join would.
pub open spec fn in_movements(
    pitems: Seq<crate::models::PurchaseItem>,
    purchases: Seq<crate::models::Purchase>,
    pid: i64,
    n: int,
) -> Seq<MovementV>
    decreases n,
{
    if n <= 0 {
        Seq::<MovementV>::empty()
    } else {
        let rest = in_movements(pitems, purchases, pid, n - 1);
        let it = pitems[n - 1];
        let hi = index_of_id(crate::store::purchase_ids(purchases), it.purchase_id);
        if it.product_id == pid && hi >= 0 {
            rest.push(
                MovementV {
                    date: purchases[hi].purchase_date,
                    inbound: true,
                    entity_name: purchases[hi].supplier_name,
                    reference: purchases[hi].invoice_number,
                    reference_id: None,
                    quantity: it.quantity,
                    price: it.purchase_unit_cost,
                },
            )
        } else {
            rest
        }
    }
}

/// The outbound movements of one product: its sale lines joined with their
/// headers.
pub open spec fn out_movements(
    oitems: Seq<OrderItem>,
    orders: Seq<Order>,
    pid: i64,
    n: int,
) -> Seq<MovementV>
    decreases n,
{
    if n <= 0 {
        Seq::<MovementV>::empty()
    } else {
        let rest = out_movements(oitems, orders, pid, n - 1);
        let it = oitems[n - 1];
        let hi = index_of_id(order_ids(orders), it.order_id);
        if it.product_id == pid && hi >= 0 {
            rest.push(
                MovementV {
                    date: orders[hi].order_date,
                    inbound: false,
                    entity_name: orders[hi].customer_name,
                    reference: None,
                    reference_id: Some(orders[hi].order_id),
                    quantity: it.quantity,
                    price: it.selling_price,
                },
            )
        } else {
            rest
        }
    }
}

/// A date collapsed to one integer, ordered as the calendar; an absent date
/// sorts after every real one in the descending timeline.
pub open spec fn mdate_key(d: Option<Date>) -> int {
    match d {
        None => -1,
        Some(x) => ((x.year as int) * 256 + (x.month as int)) * 256 + (x.day as int),
    }
}

pub fn date_key(d: &Option<Date>) -> (r: i64)
    ensures
        r as int == mdate_key(*d),
{
    match d {
        None => -1,
        Some(x) => ((x.year as i64) * 256 + (x.month as i64)) * 256 + (x.day as i64),
    }
}

/// Descending by date.
pub open spec fn movements_sorted(s: Seq<crate::models::StockMovement>) -> bool {
    forall|i: int, j: int|
        0 <= i < j < s.len() ==> mdate_key((#[trigger] s[j]).date) <= mdate_key(
            (#[trigger] s[i]).date,
        )
}

/// The stock timeline of one product: its purchase lines (tagged `IN`) and
/// sale lines (tagged `OUT`) merged into one feed, descending by date; rows
/// of equal date are not ordered further.  Up to order, the rows are exactly
/// the two joins.  The store is not changed.
#[verifier::loop_isolation(false)]
pub fn get_product_stock_history(store: &Store, product_id: i64) -> (r: Vec<
    crate::models::StockMovement,
>)
    requires
        store.wf(),
    ensures
        r@.map_values(|m: crate::models::StockMovement| movement_view(m)).to_multiset() == (
        in_movements(
            store.purchase_items@,
            store.purchases@,
            product_id,
            store.purchase_items@.len() as int,
        ) + out_movements(
            store.order_items@,
            store.orders@,
            product_id,
            store.order_items@.len() as int,
        )).to_multiset(),
        movements_sorted(r@),
        forall|i: int|
            0 <= i < r@.len() ==> ((#[trigger] r@[i]).movement_type@ == "IN"@ || r@[i].movement_type@
                == "OUT"@),
{
    broadcast use vstd::seq_lib::group_to_multiset_ensures;

    let ghost proj = |m: crate::models::StockMovement| movement_view(m);
    let mut out: Vec<crate::models::StockMovement> = Vec::new();
    let ghost mut expected: Seq<MovementV> = Seq::empty();

    let np = store.purchase_items.len();
    let mut k: usize = 0;
    while k < np
        invariant
            k <= np,
            expected == in_movements(store.purchase_items@, store.purchases@, product_id, k as int),
            out@.map_values(proj).to_multiset() == expected.to_multiset(),
            movements_sorted(out@),
            forall|i: int|
                0 <= i < out@.len() ==> ((#[trigger] out@[i]).movement_type@ == "IN"@
                    || out@[i].movement_type@ == "OUT"@),
        decreases np - k,
    {
        let it = store.purchase_items[k];
        if it.product_id == product_id {
            match crate::store::find_purchase(&store.purchases, it.purchase_id) {
                None => {},
                Some(hi) => {
                    let h = &store.purchases[hi];
                    let row = crate::models::StockMovement {
                        date: h.purchase_date,
                        movement_type: "IN".to_owned(),
                        entity_name: clone_opt_string(&h.supplier_name),
                        reference: clone_opt_string(&h.invoice_number),
                        reference_id: None,
                        quantity: it.quantity,
                        price: it.purchase_unit_cost,
                    };
                    proof {
                        reveal_strlit("IN");
                        reveal_strlit("OUT");
                        assert(movement_view(row) == in_movements(
                            store.purchase_items@,
                            store.purchases@,
                            product_id,
                            k as int + 1,
                        ).last());
                    }
                    insert_movement(&mut out, row);
                    proof {
                        expected = expected.push(movement_view(row));
                    }
                },
            }
        }
        k += 1;
    }
    let ghost in_part = expected;

    let no = store.order_items.len();
    let mut k: usize = 0;
    while k < no
        invariant
            k <= no,
            in_part == in_movements(
                store.purchase_items@,
                store.purchases@,
                product_id,
                store.purchase_items@.len() as int,
            ),
            expected == in_part + out_movements(
                store.order_items@,
                store.orders@,
                product_id,
                k as int,
            ),
            out@.map_values(proj).to_multiset() == expected.to_multiset(),
            movements_sorted(out@),
            forall|i: int|
                0 <= i < out@.len() ==> ((#[trigger] out@[i]).movement_type@ == "IN"@
                    || out@[i].movement_type@ == "OUT"@),
        decreases no - k,
    {
        let it = store.order_items[k];
        if it.product_id == product_id {
            match find_order(&store.orders, it.order_id) {
                None => {},
                Some(hi) => {
                    let h = &store.orders[hi];
                    let row = crate::models::StockMovement {
                        date: h.order_date,
                        movement_type: "OUT".to_owned(),
                        entity_name: clone_opt_string(&h.customer_name),
                        reference: None,
                        reference_id: Some(h.order_id),
                        quantity: it.quantity,
                        price: it.selling_price,
                    };
                    proof {
                        reveal_strlit("IN");
                        reveal_strlit("OUT");
                        assert("OUT"@.len() == 3 && "IN"@.len() == 2);
                        assert(row.movement_type@ != "IN"@);
                        assert(movement_view(row) == out_movements(
                            store.order_items@,
                            store.orders@,
                            product_id,
                            k as int + 1,
                        ).last());
                        assert(in_part + out_movements(
                            store.order_items@,
                            store.orders@,
                            product_id,
                            k as int + 1,
                        ) =~= (in_part + out_movements(
                            store.order_items@,
                            store.orders@,
                            product_id,
                            k as int,
                        )).push(movement_view(row)));
                    }
                    insert_movement(&mut out, row);
                    proof {
                        expected = expected.push(movement_view(row));
                    }
                },
            }
        }
        k += 1;
    }
    proof {
        assert(in_part + out_movements(
            store.order_items@,
            store.orders@,
            product_id,
            store.order_items@.len() as int,
        ) =~= expected);
    }
    out
}

/// Insert a movement row at its place in the descending timeline.
#[verifier::loop_isolation(false)]
fn insert_movement(out: &mut Vec<crate::models::StockMovement>, row: crate::models::StockMovement)
    requires
        movements_sorted(old(out)@),
    ensures
        final(out)@ == old(out)@.insert(
            choose|p: int|
                0 <= p <= old(out)@.len() && final(out)@ == old(out)@.insert(p, row),
            row,
        ),
        movements_sorted(final(out)@),
        final(out)@.map_values(|m: crate::models::StockMovement| movement_view(m)).to_multiset()
            == old(out)@.map_values(
            |m: crate::models::StockMovement| movement_view(m),
        ).to_multiset().insert(movement_view(row)),
        final(out)@.len() == old(out)@.len() + 1,
        forall|i: int|
            0 <= i < final(out)@.len() ==> ((#[trigger] final(out)@[i]) == row || old(
                out,
            )@.contains(final(out)@[i])),
    decreases old(out)@.len(),
{
    let ghost proj = |m: crate::models::StockMovement| movement_view(m);
    let rk = date_key(&row.date);
    let mut pos: usize = 0;
    while pos < out.len() && date_key(&out[pos].date) >= rk
        invariant
            pos <= out@.len(),
            out@ == old(out)@,
            forall|i: int| 0 <= i < pos ==> mdate_key(row.date) <= mdate_key((#[trigger] out@[i]).date),
        decreases out@.len() - pos,
    {
        pos += 1;
    }
    let ghost out0 = out@;
    out.insert(pos, row);
    proof {
        let p0 = pos as int;
        assert(out@ == out0.insert(p0, row));
        assert(out@.map_values(proj) =~= out0.map_values(proj).insert(p0, movement_view(row)));
        lemma_insert_multiset(out0.map_values(proj), p0, movement_view(row));
        assert forall|i: int, j: int| 0 <= i < j < out@.len() implies mdate_key(
            (#[trigger] out@[j]).date,
        ) <= mdate_key((#[trigger] out@[i]).date) by {
            if i < p0 && j == p0 {
            } else if i == p0 && j > p0 {
            }
        }
        assert forall|i: int|
            0 <= i < out@.len() implies ((#[trigger] out@[i]) == row || out0.contains(out@[i])) by {
            if i < p0 {
                assert(out@[i] == out0[i]);
            } else if i > p0 {
                assert(out@[i] == out0[i - 1]);
            }
        }
    }
}

/// Descending by purchase date.
pub open spec fn history_sorted(s: Seq<crate::models::ProductPurchaseHistory>) -> bool {
    forall|i: int, j: int|
        0 <= i < j < s.len() ==> mdate_key((#[trigger] s[j]).date) <= mdate_key(
            (#[trigger] s[i]).date,
        )
}

/// Insert a history row at its place in the date-descending listing.
#[verifier::loop_isolation(false)]
fn insert_history_row(
    out: &mut Vec<crate::models::ProductPurchaseHistory>,
    row: crate::models::ProductPurchaseHistory,
)
    requires
        history_sorted(old(out)@),
    ensures
        final(out)@.to_multiset() == old(out)@.to_multiset().insert(row),
        history_sorted(final(out)@),
        final(out)@.len() == old(out)@.len() + 1,
{
    let rk = date_key(&row.date);
    let mut pos: usize = 0;
    while pos < out.len() && date_key(&out[pos].date) >= rk
        invariant
            pos <= out@.len(),
            out@ == old(out)@,
            forall|i: int| 0 <= i < pos ==> mdate_key(row.date) <= mdate_key((#[trigger] out@[i]).date),
        decreases out@.len() - pos,
    {
        pos += 1;
    }
    let ghost out0 = out@;
    out.insert(pos, row);
    proof {
        let p0 = pos as int;
        lemma_insert_multiset(out0, p0, row);
        assert forall|i: int, j: int| 0 <= i < j < out@.len() implies mdate_key(
            (#[trigger] out@[j]).date,
        ) <= mdate_key((#[trigger] out@[i]).date) by {
            if i < p0 && j == p0 {
            } else if i == p0 && j > p0 {
            }
        }
    }
}

/// The purchase history of one product: its purchase lines joined with their
/// headers, newest first; rows of equal date are not ordered further.  The
/// store is not changed.
#[verifier::loop_isolation(false)]
pub fn get_product_purchase_history(store: &Store, product_id: i64) -> (r: Vec<
    crate::models::ProductPurchaseHistory,
>)
    requires
        store.wf(),
    ensures
        r@.to_multiset() == purchase_history_rows(
            store.purchase_items@,
            store.purchases@,
            product_id,
            store.purchase_items@.len() as int,
        ).to_multiset(),
        history_sorted(r@),
{
    broadcast use vstd::seq_lib::group_to_multiset_ensures;

    let np = store.purchase_items.len();
    let mut out: Vec<crate::models::ProductPurchaseHistory> = Vec::new();
    let ghost mut rows: Seq<crate::models::ProductPurchaseHistory> = Seq::empty();
    let mut k: usize = 0;
    while k < np
        invariant
            k <= np,
            rows == purchase_history_rows(
                store.purchase_items@,
                store.purchases@,
                product_id,
                k as int,
            ),
            out@.to_multiset() == rows.to_multiset(),
            history_sorted(out@),
        decreases np - k,
    {
        let it = store.purchase_items[k];
        if it.product_id == product_id {
            match crate::store::find_purchase(&store.purchases, it.purchase_id) {
                None => {},
                Some(hi) => {
                    let h = &store.purchases[hi];
                    let row = crate::models::ProductPurchaseHistory {
                        date: h.purchase_date,
                        supplier_name: clone_opt_string(&h.supplier_name),
                        invoice_number: clone_opt_string(&h.invoice_number),
                        quantity: it.quantity,
                        buying_price: it.buying_price,
                        extra_charge: it.extra_charge,
                        subtotal: it.subtotal,
                        purchase_unit_cost: it.purchase_unit_cost,
                    };
                    insert_history_row(&mut out, row);
                    proof {
                        rows = rows.push(row);
                    }
                },
            }
        }
        k += 1;
    }
    out
}

/// The purchase-history rows of one product over the first `n` lines.
pub open spec fn purchase_history_rows(
    pitems: Seq<crate::models::PurchaseItem>,
    purchases: Seq<crate::models::Purchase>,
    pid: i64,
    n: int,
) -> Seq<crate::models::ProductPurchaseHistory>
    decreases n,
{
    if n <= 0 {
        Seq::<crate::models::ProductPurchaseHistory>::empty()
    } else {
        let rest = purchase_history_rows(pitems, purchases, pid, n - 1);
        let it = pitems[n - 1];
        let hi = index_of_id(crate::store::purchase_ids(purchases), it.purchase_id);
        if it.product_id == pid && hi >= 0 {
            rest.push(
                crate::models::ProductPurchaseHistory {
                    date: purchases[hi].purchase_date,
                    supplier_name: purchases[hi].supplier_name,
                    invoice_number: purchases[hi].invoice_number,
                    quantity: it.quantity,
                    buying_price: it.buying_price,
                    extra_charge: it.extra_charge,
                    subtotal: it.subtotal,
                    purchase_unit_cost: it.purchase_unit_cost,
                },
            )
        } else {
            rest
        }
    }
}

} // verus!
