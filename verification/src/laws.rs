//! Laws of the inventory accounting core, proved once and for all.
//!
//! These theorems relate the spec-level transitions that the ledger
//! operations are contracted against ([`crate::ledger`]), so everything
//! stated here carries over to the executable operations.

use vstd::prelude::*;
use crate::ledger::{
    apply_order_lines, apply_purchase_line, apply_purchase_lines, purchase_step,
    reverse_purchase_step, same_shape,
};
use crate::models::{OrderItem, Product, PurchaseItem, StoreError, order_item_wf, purchase_item_wf};
use crate::store::{ids_unique, index_of_id, product_ids, products_wf};
use crate::rational::{
    Frac, Rat, frac_add, frac_div, frac_eq, frac_mul, frac_pos, frac_sub, frac_wf,
    frac_zero, lemma_frac_add_cong, lemma_frac_add_pos, lemma_frac_add_sub,
    lemma_frac_add_zero_val, lemma_frac_cancel, lemma_frac_div_cong, lemma_frac_eq_sign,
    lemma_frac_eq_trans, lemma_frac_mul_div, lemma_frac_mul_zero,
    lemma_frac_ops_wf, lemma_frac_sub_cong, rat_sub,
};

verus! {

/// A sequence of purchase lines folded over one product's columns, in order.
pub open spec fn purchase_fold(stock: Rat, price: Rat, lines: Seq<PurchaseItem>, n: int) -> Option<
    (Rat, Rat),
>
    decreases n,
{
    if n <= 0 {
        Some((stock, price))
    } else {
        match purchase_fold(stock, price, lines, n - 1) {
            None => None,
            Some(sp) => purchase_step(sp.0, sp.1, lines[n - 1]),
        }
    }
}

/// The total quantity of the first `n` lines.
pub open spec fn sum_qty(lines: Seq<PurchaseItem>, n: int) -> Frac
    decreases n,
{
    if n <= 0 {
        frac_zero()
    } else {
        frac_add(sum_qty(lines, n - 1), lines[n - 1].quantity.frac())
    }
}

/// The total inbound value of the first `n` lines:
/// each line contributes `quantity * unit_price + extra_charge`.
pub open spec fn sum_value(lines: Seq<PurchaseItem>, n: int) -> Frac
    decreases n,
{
    if n <= 0 {
        frac_zero()
    } else {
        frac_add(
            sum_value(lines, n - 1),
            frac_add(
                frac_mul(lines[n - 1].quantity.frac(), lines[n - 1].buying_price.frac()),
                lines[n - 1].extra_charge.frac(),
            ),
        )
    }
}

/// The sums are well formed, and a sum of positive quantities is positive.
pub proof fn lemma_sums_wf(lines: Seq<PurchaseItem>, n: int)
    requires
        0 <= n <= lines.len(),
        forall|k: int| 0 <= k < n ==> purchase_item_wf(#[trigger] lines[k]),
    ensures
        frac_wf(sum_qty(lines, n)),
        frac_wf(sum_value(lines, n)),
        (n > 0 && forall|k: int| 0 <= k < n ==> frac_pos((#[trigger] lines[k]).quantity.frac()))
            ==> frac_pos(sum_qty(lines, n)),
    decreases n,
{
    if n > 0 {
        lemma_sums_wf(lines, n - 1);
        lemma_frac_ops_wf(sum_qty(lines, n - 1), lines[n - 1].quantity.frac());
        lemma_frac_ops_wf(lines[n - 1].quantity.frac(), lines[n - 1].buying_price.frac());
        lemma_frac_ops_wf(
            frac_mul(lines[n - 1].quantity.frac(), lines[n - 1].buying_price.frac()),
            lines[n - 1].extra_charge.frac(),
        );
        lemma_frac_ops_wf(
            sum_value(lines, n - 1),
            frac_add(
                frac_mul(lines[n - 1].quantity.frac(), lines[n - 1].buying_price.frac()),
                lines[n - 1].extra_charge.frac(),
            ),
        );
        if forall|k: int| 0 <= k < n ==> frac_pos((#[trigger] lines[k]).quantity.frac()) {
            if n == 1 {
                assert(frac_pos(lines[0].quantity.frac()));
                assert(sum_qty(lines, 0) == frac_zero());
                lemma_frac_add_pos_zero(lines[0].quantity.frac());
            } else {
                lemma_frac_add_pos(sum_qty(lines, n - 1), lines[n - 1].quantity.frac());
            }
        }
    }
}

proof fn lemma_frac_add_pos_zero(q: Frac)
    requires
        frac_wf(q),
        frac_pos(q),
    ensures
        frac_pos(frac_add(frac_zero(), q)),
{
    assert(0 * q.den + q.num * 1 > 0) by (nonlinear_arith)
        requires
            q.num > 0,
    ;
}

/// Weighted-average correctness: folding any sequence of purchase lines with
/// positive quantities over a product whose stock is zero-valued leaves the
/// stock at the total quantity and the average cost at
/// `total value / total quantity` — where each line's value is
/// `quantity * unit_price + extra_charge`.  The right-hand side depends only
/// on the sums, so the final cost does not depend on the order of the lines.
pub proof fn lemma_weighted_average(
    stock0: Rat,
    price0: Rat,
    lines: Seq<PurchaseItem>,
    n: int,
    result: (Rat, Rat),
)
    requires
        stock0.wf(),
        price0.wf(),
        stock0.num == 0,
        0 <= n <= lines.len(),
        forall|k: int|
            0 <= k < n ==> purchase_item_wf(#[trigger] lines[k]) && frac_pos(
                lines[k].quantity.frac(),
            ),
        purchase_fold(stock0, price0, lines, n) == Some(result),
    ensures
        result.0.wf(),
        result.1.wf(),
        frac_eq(result.0.frac(), sum_qty(lines, n)),
        n > 0 ==> frac_eq(
            result.1.frac(),
            frac_div(sum_value(lines, n), sum_qty(lines, n)),
        ),
        frac_eq(frac_mul(result.0.frac(), result.1.frac()), sum_value(lines, n)),
    decreases n,
{
    lemma_sums_wf(lines, n);
    if n <= 0 {
        assert(frac_eq(result.0.frac(), frac_zero()));
        lemma_frac_mul_zero(result.0.frac(), result.1.frac());
    } else {
        let sp = purchase_fold(stock0, price0, lines, n - 1)->Some_0;
        lemma_weighted_average(stock0, price0, lines, n - 1, sp);
        lemma_sums_wf(lines, n - 1);
        let line = lines[n - 1];
        let q = line.quantity.frac();
        let u = line.buying_price.frac();
        let e = line.extra_charge.frac();
        let sq1 = sum_qty(lines, n - 1);
        let sv1 = sum_value(lines, n - 1);
        let sq = sum_qty(lines, n);
        let sv = sum_value(lines, n);
        lemma_frac_ops_wf(q, u);
        lemma_frac_ops_wf(frac_mul(q, u), e);
        let lv = frac_add(frac_mul(q, u), e);
        // The step's intermediate values, by the contracts of the checked ops.
        let old_value = crate::rational::rat_mul(sp.0, sp.1)->Some_0;
        let line_cost = crate::rational::rat_mul(line.quantity, line.buying_price)->Some_0;
        let line_value = crate::rational::rat_add(line_cost, line.extra_charge)->Some_0;
        let new_stock = crate::rational::rat_add(sp.0, line.quantity)->Some_0;
        let total_value = crate::rational::rat_add(old_value, line_value)->Some_0;
        assert(old_value.frac() == frac_mul(sp.0.frac(), sp.1.frac()));
        assert(line_value.frac() == lv);
        assert(new_stock.frac() == frac_add(sp.0.frac(), q));
        lemma_frac_ops_wf(sp.0.frac(), sp.1.frac());
        lemma_frac_ops_wf(sp.0.frac(), q);
        lemma_frac_ops_wf(old_value.frac(), line_value.frac());
        // new_stock agrees with the quantity sum, hence is positive.
        lemma_frac_add_cong(sp.0.frac(), sq1, q, q);
        lemma_frac_eq_trans(new_stock.frac(), frac_add(sq1, q), sq);
        lemma_frac_eq_sign(new_stock.frac(), sq);
        assert(frac_pos(new_stock.frac()));
        // total_value agrees with the value sum.
        lemma_frac_add_cong(
            frac_mul(sp.0.frac(), sp.1.frac()),
            sv1,
            line_value.frac(),
            lv,
        );
        lemma_frac_eq_trans(total_value.frac(), frac_add(sv1, lv), sv);
        // The step divides, since the new stock is positive.
        let new_price = crate::rational::rat_div(total_value, new_stock)->Some_0;
        assert(result == (new_stock, new_price));
        assert(new_price.frac() == frac_div(total_value.frac(), new_stock.frac()));
        // price == total/stock agrees with sum_value / sum_qty.
        lemma_frac_div_cong(total_value.frac(), sv, new_stock.frac(), sq);
        lemma_frac_ops_wf(total_value.frac(), new_stock.frac());
        lemma_frac_ops_wf(sv, sq);
        lemma_frac_eq_trans(
            new_price.frac(),
            frac_div(total_value.frac(), new_stock.frac()),
            frac_div(sv, sq),
        );
        // stock * price recovers the value sum, for the next induction step.
        lemma_frac_mul_div(total_value.frac(), new_stock.frac());
        lemma_frac_ops_wf(new_stock.frac(), new_price.frac());
        lemma_frac_eq_trans(
            frac_mul(new_stock.frac(), new_price.frac()),
            total_value.frac(),
            sv,
        );
    }
}

/// Reversal restores the stock exactly: subtracting a line's quantity right
/// after folding that line in (as deletion does) brings the stock back to
/// its value before the purchase, whatever the costs involved.
pub proof fn lemma_delete_restores_stock(
    stock: Rat,
    price: Rat,
    line: PurchaseItem,
    applied: (Rat, Rat),
    restored: Rat,
)
    requires
        stock.wf(),
        price.wf(),
        purchase_item_wf(line),
        purchase_step(stock, price, line) == Some(applied),
        rat_sub(applied.0, line.quantity) == Some(restored),
    ensures
        frac_eq(restored.frac(), stock.frac()),
{
    assert(applied.0.frac() == frac_add(stock.frac(), line.quantity.frac()));
    assert(restored.frac() == frac_sub(applied.0.frac(), line.quantity.frac()));
    lemma_frac_add_sub(stock.frac(), line.quantity.frac());
}

/// Full reversal of a single purchase line: applying the line and then
/// reversing it (as revision does) restores both the stock and the average
/// cost, provided the product already held positive stock and the line
/// carried no extra charge.
///
/// The provisos are necessary: the reversal formula leaves a line's
/// `extra_charge` attributed, and a product whose stock was zero or negative
/// falls back to a fixed cost instead of dividing.
pub proof fn lemma_reversal_restores(
    stock: Rat,
    price: Rat,
    line: PurchaseItem,
    applied: (Rat, Rat),
    reversed: (Rat, Rat),
)
    requires
        stock.wf(),
        price.wf(),
        purchase_item_wf(line),
        frac_pos(stock.frac()),
        line.quantity.num >= 0,
        line.extra_charge.num == 0,
        purchase_step(stock, price, line) == Some(applied),
        reverse_purchase_step(applied.0, applied.1, line) == Some(reversed),
    ensures
        frac_eq(reversed.0.frac(), stock.frac()),
        frac_eq(reversed.1.frac(), price.frac()),
{
    let s = stock.frac();
    let p = price.frac();
    let q = line.quantity.frac();
    let u = line.buying_price.frac();
    let e = line.extra_charge.frac();
    lemma_frac_ops_wf(s, p);
    lemma_frac_ops_wf(s, q);
    lemma_frac_ops_wf(q, u);
    lemma_frac_ops_wf(frac_mul(q, u), e);
    let old_value = crate::rational::rat_mul(stock, price)->Some_0;
    let line_cost = crate::rational::rat_mul(line.quantity, line.buying_price)->Some_0;
    let line_value = crate::rational::rat_add(line_cost, line.extra_charge)->Some_0;
    let new_stock = crate::rational::rat_add(stock, line.quantity)->Some_0;
    let total_value = crate::rational::rat_add(old_value, line_value)->Some_0;
    assert(new_stock.frac() == frac_add(s, q));
    lemma_frac_add_pos(s, q);
    assert(frac_pos(new_stock.frac()));
    let new_price = crate::rational::rat_div(total_value, new_stock)->Some_0;
    assert(applied == (new_stock, new_price));
    // Reversal's intermediates.
    let r_old_value = crate::rational::rat_mul(applied.0, applied.1)->Some_0;
    let r_reverted = rat_sub(applied.0, line.quantity)->Some_0;
    let r_line_cost = crate::rational::rat_mul(line.quantity, line.buying_price)->Some_0;
    let r_new_value = rat_sub(r_old_value, r_line_cost)->Some_0;
    lemma_frac_ops_wf(old_value.frac(), line_value.frac());
    lemma_frac_ops_wf(applied.0.frac(), q);
    lemma_frac_ops_wf(total_value.frac(), applied.0.frac());
    lemma_frac_ops_wf(applied.0.frac(), applied.1.frac());
    lemma_frac_ops_wf(
        frac_mul(applied.0.frac(), applied.1.frac()),
        frac_mul(q, u),
    );
    // Reverted stock is the original stock.
    assert(r_reverted.frac() == frac_sub(applied.0.frac(), q));
    lemma_frac_add_sub(s, q);
    assert(frac_eq(r_reverted.frac(), s));
    lemma_frac_eq_sign(r_reverted.frac(), s);
    assert(frac_pos(r_reverted.frac()));
    // stock * price of the applied state is the total value.
    lemma_frac_ops_wf(old_value.frac(), line_value.frac());
    lemma_frac_mul_div(total_value.frac(), new_stock.frac());
    assert(r_old_value.frac() == frac_mul(new_stock.frac(), new_price.frac()));
    assert(frac_eq(r_old_value.frac(), total_value.frac()));
    // The line's value equals its cost, since the extra charge is zero-valued.
    lemma_frac_ops_wf(frac_mul(q, u), e);
    lemma_frac_add_zero_val(frac_mul(q, u), e);
    assert(line_value.frac() == frac_add(frac_mul(q, u), e));
    assert(frac_eq(line_value.frac(), frac_mul(q, u)));
    // total - line cost agrees with stock * price.
    assert(r_new_value.frac() == frac_sub(r_old_value.frac(), r_line_cost.frac()));
    assert(r_line_cost.frac() == frac_mul(q, u));
    lemma_frac_ops_wf(frac_mul(s, p), line_value.frac());
    lemma_frac_sub_cong(
        r_old_value.frac(),
        frac_add(frac_mul(s, p), line_value.frac()),
        r_line_cost.frac(),
        line_value.frac(),
    );
    lemma_frac_add_sub(frac_mul(s, p), line_value.frac());
    lemma_frac_ops_wf(frac_add(frac_mul(s, p), line_value.frac()), line_value.frac());
    lemma_frac_eq_trans(
        r_new_value.frac(),
        frac_sub(frac_add(frac_mul(s, p), line_value.frac()), line_value.frac()),
        frac_mul(s, p),
    );
    // Dividing by the reverted stock recovers the price.
    let r_price = crate::rational::rat_div(r_new_value, r_reverted)->Some_0;
    assert(reversed == (r_reverted, r_price));
    assert(r_price.frac() == frac_div(r_new_value.frac(), r_reverted.frac()));
    lemma_frac_div_cong(r_new_value.frac(), frac_mul(s, p), r_reverted.frac(), s);
    lemma_frac_cancel(s, p, frac_mul(s, p));
    lemma_frac_ops_wf(r_new_value.frac(), r_reverted.frac());
    lemma_frac_ops_wf(frac_mul(s, p), s);
    lemma_frac_eq_trans(
        r_price.frac(),
        frac_div(r_new_value.frac(), r_reverted.frac()),
        frac_div(frac_mul(s, p), s),
    );
    lemma_frac_eq_sym_div(p, frac_mul(s, p), s);
    lemma_frac_eq_trans(r_price.frac(), frac_div(frac_mul(s, p), s), p);
}

proof fn lemma_frac_eq_sym_div(p: Frac, v: Frac, x: Frac)
    requires
        frac_wf(p),
        frac_wf(v),
        frac_wf(x),
        x.num != 0,
        frac_eq(p, frac_div(v, x)),
    ensures
        frac_eq(frac_div(v, x), p),
{
}


/// A purchase whose lines all name one product acts on that product alone,
/// and acts on its columns exactly as the column-level fold does: the rest of
/// the table is untouched, and the only possible failure is an amount leaving
/// the representable range.
pub proof fn lemma_purchase_lines_on_one_product(
    ps: Seq<Product>,
    lines: Seq<PurchaseItem>,
    n: int,
    pid: i64,
)
    requires
        0 <= n <= lines.len(),
        products_wf(ps),
        forall|k: int| 0 <= k < n ==> (#[trigger] lines[k]).product_id == pid,
        forall|k: int| 0 <= k < n ==> purchase_item_wf(#[trigger] lines[k]),
        index_of_id(product_ids(ps), pid) >= 0,
    ensures
        ({
            let i = index_of_id(product_ids(ps), pid);
            match apply_purchase_lines(ps, lines, n) {
                Ok(ps2) => {
                    &&& purchase_fold(ps[i].stock_quantity, ps[i].buying_price, lines, n)
                        == Some((ps2[i].stock_quantity, ps2[i].buying_price))
                    &&& same_shape(ps, ps2)
                    &&& forall|j: int| 0 <= j < ps.len() && j != i ==> ps2[j] == #[trigger] ps[j]
                },
                Err(e) => e == StoreError::Overflow && purchase_fold(
                    ps[i].stock_quantity,
                    ps[i].buying_price,
                    lines,
                    n,
                ) is None,
            }
        }),
    decreases n,
{
    let i = index_of_id(product_ids(ps), pid);
    crate::store::lemma_index_of_id_found(product_ids(ps), pid);
    if n > 0 {
        lemma_purchase_lines_on_one_product(ps, lines, n - 1, pid);
        match apply_purchase_lines(ps, lines, n - 1) {
            Err(e) => {},
            Ok(ps1) => {
                assert(product_ids(ps1) =~= product_ids(ps));
                assert(apply_purchase_lines(ps, lines, n) == apply_purchase_line(
                    ps1,
                    lines[n - 1],
                ));
            },
        }
    }
}

/// Weighted-average correctness at the ledger level: when a purchase's lines
/// all name one product whose stock is zero-valued and carry positive
/// quantities, the transition that `create_purchase` is contracted against
/// leaves that product's cost at `total value / total quantity` and its stock
/// at the total quantity, and every other product untouched.
pub proof fn lemma_recorded_purchase_weighted_average(
    ps: Seq<Product>,
    lines: Seq<PurchaseItem>,
    pid: i64,
    ps2: Seq<Product>,
)
    requires
        products_wf(ps),
        forall|k: int| 0 <= k < lines.len() ==> (#[trigger] lines[k]).product_id == pid,
        forall|k: int|
            0 <= k < lines.len() ==> purchase_item_wf(#[trigger] lines[k]) && frac_pos(
                lines[k].quantity.frac(),
            ),
        index_of_id(product_ids(ps), pid) >= 0,
        ps[index_of_id(product_ids(ps), pid)].stock_quantity.num == 0,
        apply_purchase_lines(ps, lines, lines.len() as int) == Ok::<Seq<Product>, StoreError>(ps2),
    ensures
        ({
            let i = index_of_id(product_ids(ps), pid);
            let n = lines.len() as int;
            &&& frac_eq(ps2[i].stock_quantity.frac(), sum_qty(lines, n))
            &&& n > 0 ==> frac_eq(
                ps2[i].buying_price.frac(),
                frac_div(sum_value(lines, n), sum_qty(lines, n)),
            )
            &&& forall|j: int| 0 <= j < ps.len() && j != i ==> ps2[j] == #[trigger] ps[j]
        }),
{
    let i = index_of_id(product_ids(ps), pid);
    let n = lines.len() as int;
    crate::store::lemma_index_of_id_found(product_ids(ps), pid);
    assert(0 <= i < ps.len());
    assert(crate::models::product_wf(ps[i]));
    lemma_purchase_lines_on_one_product(ps, lines, n, pid);
    lemma_weighted_average(
        ps[i].stock_quantity,
        ps[i].buying_price,
        lines,
        n,
        (ps2[i].stock_quantity, ps2[i].buying_price),
    );
}


/// Two sums agree on a common prefix.
proof fn lemma_sum_prefix(s1: Seq<PurchaseItem>, s2: Seq<PurchaseItem>, n: int)
    requires
        0 <= n,
        n <= s1.len(),
        n <= s2.len(),
        forall|k: int| 0 <= k < n ==> s1[k] == s2[k],
    ensures
        sum_qty(s1, n) == sum_qty(s2, n),
        sum_value(s1, n) == sum_value(s2, n),
    decreases n,
{
    if n > 0 {
        lemma_sum_prefix(s1, s2, n - 1);
    }
}

/// Three summands shuffle freely under value equality.
proof fn lemma_frac_add_shuffle(q: Frac, a: Frac, b: Frac)
    requires
        frac_wf(q),
        frac_wf(a),
        frac_wf(b),
    ensures
        frac_eq(frac_add(frac_add(q, a), b), frac_add(frac_add(q, b), a)),
{
    assert((q.num * a.den + a.num * q.den) * b.den == q.num * a.den * b.den + a.num * q.den
        * b.den) by (nonlinear_arith);
    assert(b.num * (q.den * a.den) == b.num * q.den * a.den) by (nonlinear_arith);
    assert((q.num * b.den + b.num * q.den) * a.den == q.num * b.den * a.den + b.num * q.den
        * a.den) by (nonlinear_arith);
    assert(a.num * (q.den * b.den) == a.num * q.den * b.den) by (nonlinear_arith);
    assert(q.num * a.den * b.den == q.num * b.den * a.den) by (nonlinear_arith);
    assert((q.den * a.den) * b.den == (q.den * b.den) * a.den) by (nonlinear_arith);
}

/// Taking one line out of the sums leaves exactly its own contribution.
proof fn lemma_sum_remove(s: Seq<PurchaseItem>, j: int)
    requires
        0 <= j < s.len(),
        forall|k: int| 0 <= k < s.len() ==> purchase_item_wf(#[trigger] s[k]),
    ensures
        frac_eq(
            sum_qty(s, s.len() as int),
            frac_add(sum_qty(s.remove(j), s.len() - 1), s[j].quantity.frac()),
        ),
        frac_eq(
            sum_value(s, s.len() as int),
            frac_add(
                sum_value(s.remove(j), s.len() - 1),
                frac_add(
                    frac_mul(s[j].quantity.frac(), s[j].buying_price.frac()),
                    s[j].extra_charge.frac(),
                ),
            ),
        ),
    decreases s.len(),
{
    let n = s.len() as int;
    let xq = s[j].quantity.frac();
    let xv = frac_add(
        frac_mul(s[j].quantity.frac(), s[j].buying_price.frac()),
        s[j].extra_charge.frac(),
    );
    lemma_sums_wf(s, n);
    lemma_sums_wf(s, n - 1);
    lemma_frac_ops_wf(s[j].quantity.frac(), s[j].buying_price.frac());
    lemma_frac_ops_wf(
        frac_mul(s[j].quantity.frac(), s[j].buying_price.frac()),
        s[j].extra_charge.frac(),
    );
    if j == n - 1 {
        lemma_sum_prefix(s, s.remove(j), n - 1);
    } else {
        let dl = s.drop_last();
        let last = s.last();
        assert(forall|k: int| 0 <= k < n - 1 ==> dl[k] == #[trigger] s[k]);
        lemma_sum_prefix(s, dl, n - 1);
        lemma_sum_remove(dl, j);
        assert(s.remove(j) =~= dl.remove(j).push(last));
        assert(forall|k: int| 0 <= k < n - 2 ==> s.remove(j)[k] == #[trigger] dl.remove(j)[k]);
        lemma_sum_prefix(s.remove(j), dl.remove(j), n - 2);
        let lq = last.quantity.frac();
        let lv = frac_add(
            frac_mul(last.quantity.frac(), last.buying_price.frac()),
            last.extra_charge.frac(),
        );
        lemma_frac_ops_wf(last.quantity.frac(), last.buying_price.frac());
        lemma_frac_ops_wf(
            frac_mul(last.quantity.frac(), last.buying_price.frac()),
            last.extra_charge.frac(),
        );
        assert(forall|k: int| 0 <= k < n - 1 ==> purchase_item_wf(#[trigger] dl[k]));
        lemma_sums_wf(dl, n - 1);
        lemma_sums_wf(dl, n - 2);
        assert(forall|k: int|
            0 <= k < n - 2 ==> purchase_item_wf(#[trigger] dl.remove(j)[k]));
        lemma_sums_wf(dl.remove(j), n - 2);
        // quantity sum
        let q1 = sum_qty(dl.remove(j), n - 2);
        assert(sum_qty(s, n) == frac_add(sum_qty(dl, n - 1), lq));
        lemma_frac_ops_wf(q1, xq);
        lemma_frac_ops_wf(frac_add(q1, xq), lq);
        lemma_frac_add_cong(sum_qty(dl, n - 1), frac_add(q1, xq), lq, lq);
        lemma_frac_add_shuffle(q1, xq, lq);
        lemma_frac_ops_wf(q1, lq);
        lemma_frac_ops_wf(frac_add(q1, lq), xq);
        lemma_frac_eq_trans(
            sum_qty(s, n),
            frac_add(frac_add(q1, xq), lq),
            frac_add(frac_add(q1, lq), xq),
        );
        assert(sum_qty(s.remove(j), n - 1) == frac_add(sum_qty(s.remove(j), n - 2), lq));
        assert(sum_qty(s.remove(j), n - 2) == q1);
        lemma_frac_add_cong(frac_add(q1, lq), frac_add(q1, lq), xq, xq);
        // value sum
        let v1 = sum_value(dl.remove(j), n - 2);
        assert(sum_value(s, n) == frac_add(sum_value(dl, n - 1), lv));
        lemma_frac_ops_wf(v1, xv);
        lemma_frac_ops_wf(frac_add(v1, xv), lv);
        lemma_frac_add_cong(sum_value(dl, n - 1), frac_add(v1, xv), lv, lv);
        lemma_frac_add_shuffle(v1, xv, lv);
        lemma_frac_ops_wf(v1, lv);
        lemma_frac_ops_wf(frac_add(v1, lv), xv);
        lemma_frac_eq_trans(
            sum_value(s, n),
            frac_add(frac_add(v1, xv), lv),
            frac_add(frac_add(v1, lv), xv),
        );
        assert(sum_value(s.remove(j), n - 1) == frac_add(sum_value(s.remove(j), n - 2), lv));
        assert(sum_value(s.remove(j), n - 2) == v1);
    }
}

/// The sums depend only on which lines occur, not on their order.
pub proof fn lemma_sums_permutation(s1: Seq<PurchaseItem>, s2: Seq<PurchaseItem>)
    requires
        s1.to_multiset() == s2.to_multiset(),
        forall|k: int| 0 <= k < s1.len() ==> purchase_item_wf(#[trigger] s1[k]),
        forall|k: int| 0 <= k < s2.len() ==> purchase_item_wf(#[trigger] s2[k]),
    ensures
        frac_eq(sum_qty(s1, s1.len() as int), sum_qty(s2, s2.len() as int)),
        frac_eq(sum_value(s1, s1.len() as int), sum_value(s2, s2.len() as int)),
    decreases s1.len(),
{
    broadcast use vstd::seq_lib::group_to_multiset_ensures;

    let n1 = s1.len() as int;
    let n2 = s2.len() as int;
    assert(s1.len() == s1.to_multiset().len());
    assert(s2.len() == s2.to_multiset().len());
    assert(n1 == n2);
    lemma_sums_wf(s1, n1);
    lemma_sums_wf(s2, n2);
    if n1 == 0 {
    } else {
        let x = s1.last();
        assert(s1.contains(x));
        assert(s1.to_multiset().count(x) > 0);
        assert(s2.to_multiset().count(x) > 0);
        assert(s2.contains(x));
        let j = choose|j: int| 0 <= j < s2.len() && s2[j] == x;
        let t1 = s1.drop_last();
        let t2 = s2.remove(j);
        assert(t1 =~= s1.remove(n1 - 1));
        assert(s1.remove(n1 - 1).to_multiset() =~= s1.to_multiset().remove(x));
        assert(t2.to_multiset() =~= s2.to_multiset().remove(x));
        assert(t1.to_multiset() == t2.to_multiset());
        assert(forall|k: int| 0 <= k < t1.len() ==> t1[k] == #[trigger] s1[k]);
        assert(forall|k: int| 0 <= k < t2.len() ==> purchase_item_wf(#[trigger] t2[k])) by {
            assert(forall|k: int|
                0 <= k < t2.len() ==> t2[k] == (if k < j {
                    #[trigger] s2[k]
                } else {
                    s2[k + 1]
                }));
        }
        lemma_sums_permutation(t1, t2);
        lemma_sums_wf(t1, n1 - 1);
        lemma_sums_wf(t2, n1 - 1);
        let xq = x.quantity.frac();
        let xv = frac_add(
            frac_mul(x.quantity.frac(), x.buying_price.frac()),
            x.extra_charge.frac(),
        );
        lemma_frac_ops_wf(x.quantity.frac(), x.buying_price.frac());
        lemma_frac_ops_wf(frac_mul(x.quantity.frac(), x.buying_price.frac()), x.extra_charge.frac());
        // s1's sums end with x's contribution over t1.
        lemma_sum_prefix(s1, t1, n1 - 1);
        assert(sum_qty(s1, n1) == frac_add(sum_qty(t1, n1 - 1), xq));
        assert(sum_value(s1, n1) == frac_add(sum_value(t1, n1 - 1), xv));
        // s2's sums split the same way around position j.
        lemma_sum_remove(s2, j);
        lemma_frac_add_cong(sum_qty(t1, n1 - 1), sum_qty(t2, n1 - 1), xq, xq);
        lemma_frac_add_cong(sum_value(t1, n1 - 1), sum_value(t2, n1 - 1), xv, xv);
        lemma_frac_ops_wf(sum_qty(t1, n1 - 1), xq);
        lemma_frac_ops_wf(sum_qty(t2, n1 - 1), xq);
        lemma_frac_ops_wf(sum_value(t1, n1 - 1), xv);
        lemma_frac_ops_wf(sum_value(t2, n1 - 1), xv);
        lemma_frac_eq_trans(
            sum_qty(s1, n1),
            frac_add(sum_qty(t2, n1 - 1), xq),
            sum_qty(s2, n2),
        );
        lemma_frac_eq_trans(
            sum_value(s1, n1),
            frac_add(sum_value(t2, n1 - 1), xv),
            sum_value(s2, n2),
        );
    }
}

/// Weighted-average order independence: folding two reorderings of the same
/// purchase lines over a zero-stock product gives the same average cost and
/// the same stock.
pub proof fn lemma_weighted_average_order_independent(
    stock0: Rat,
    price0: Rat,
    l1: Seq<PurchaseItem>,
    l2: Seq<PurchaseItem>,
    r1: (Rat, Rat),
    r2: (Rat, Rat),
)
    requires
        stock0.wf(),
        price0.wf(),
        stock0.num == 0,
        l1.to_multiset() == l2.to_multiset(),
        l1.len() > 0,
        forall|k: int|
            0 <= k < l1.len() ==> purchase_item_wf(#[trigger] l1[k]) && frac_pos(
                l1[k].quantity.frac(),
            ),
        forall|k: int|
            0 <= k < l2.len() ==> purchase_item_wf(#[trigger] l2[k]) && frac_pos(
                l2[k].quantity.frac(),
            ),
        purchase_fold(stock0, price0, l1, l1.len() as int) == Some(r1),
        purchase_fold(stock0, price0, l2, l2.len() as int) == Some(r2),
    ensures
        frac_eq(r1.0.frac(), r2.0.frac()),
        frac_eq(r1.1.frac(), r2.1.frac()),
{
    broadcast use vstd::seq_lib::group_to_multiset_ensures;

    let n1 = l1.len() as int;
    let n2 = l2.len() as int;
    assert(l1.len() == l1.to_multiset().len());
    assert(l2.len() == l2.to_multiset().len());
    assert(n1 == n2);
    lemma_weighted_average(stock0, price0, l1, n1, r1);
    lemma_weighted_average(stock0, price0, l2, n2, r2);
    lemma_sums_permutation(l1, l2);
    lemma_sums_wf(l1, n1);
    lemma_sums_wf(l2, n2);
    lemma_frac_eq_trans(r1.0.frac(), sum_qty(l1, n1), sum_qty(l2, n2));
    lemma_frac_eq_sym_frac(sum_qty(l2, n2), r2.0.frac());
    lemma_frac_eq_trans(r1.0.frac(), sum_qty(l2, n2), r2.0.frac());
    lemma_frac_div_cong(sum_value(l1, n1), sum_value(l2, n2), sum_qty(l1, n1), sum_qty(l2, n2));
    lemma_frac_ops_wf(sum_value(l1, n1), sum_qty(l1, n1));
    lemma_frac_ops_wf(sum_value(l2, n2), sum_qty(l2, n2));
    lemma_frac_eq_trans(
        r1.1.frac(),
        frac_div(sum_value(l1, n1), sum_qty(l1, n1)),
        frac_div(sum_value(l2, n2), sum_qty(l2, n2)),
    );
    lemma_frac_eq_sym_frac(frac_div(sum_value(l2, n2), sum_qty(l2, n2)), r2.1.frac());
    lemma_frac_eq_trans(
        r1.1.frac(),
        frac_div(sum_value(l2, n2), sum_qty(l2, n2)),
        r2.1.frac(),
    );
}

proof fn lemma_frac_eq_sym_frac(a: Frac, b: Frac)
    requires
        frac_eq(b, a),
    ensures
        frac_eq(a, b),
{
}


/// The quantity the first `n` sale lines take from one product.
pub open spec fn sum_sale_qty(lines: Seq<OrderItem>, pid: i64, n: int) -> Frac
    decreases n,
{
    if n <= 0 {
        frac_zero()
    } else {
        let rest = sum_sale_qty(lines, pid, n - 1);
        if lines[n - 1].product_id == pid {
            frac_add(rest, lines[n - 1].quantity.frac())
        } else {
            rest
        }
    }
}

proof fn lemma_sum_sale_qty_wf(lines: Seq<OrderItem>, pid: i64, n: int)
    requires
        0 <= n <= lines.len(),
        forall|k: int| 0 <= k < n ==> order_item_wf(#[trigger] lines[k]),
    ensures
        frac_wf(sum_sale_qty(lines, pid, n)),
    decreases n,
{
    if n > 0 {
        lemma_sum_sale_qty_wf(lines, pid, n - 1);
        if lines[n - 1].product_id == pid {
            lemma_frac_ops_wf(sum_sale_qty(lines, pid, n - 1), lines[n - 1].quantity.frac());
        }
    }
}

/// Sale-stock accounting: recording sale lines moves every product's stock
/// down by exactly the quantities sold of it, and touches nothing else of
/// any product row.  Together with the cost-neutrality clauses of the sale
/// operations, this pins a sale's whole effect on the catalog.
pub proof fn lemma_sale_stock_accounting(ps: Seq<Product>, lines: Seq<OrderItem>, n: int)
    requires
        0 <= n <= lines.len(),
        products_wf(ps),
        ids_unique(product_ids(ps)),
        forall|k: int| 0 <= k < n ==> order_item_wf(#[trigger] lines[k]),
        apply_order_lines(ps, lines, n) is Ok,
    ensures
        ({
            let v = apply_order_lines(ps, lines, n)->Ok_0;
            &&& same_shape(ps, v.0)
            &&& products_wf(v.0)
            &&& forall|i: int|
                0 <= i < ps.len() ==> frac_eq(
                    (#[trigger] v.0[i]).stock_quantity.frac(),
                    frac_sub(ps[i].stock_quantity.frac(), sum_sale_qty(lines, ps[i].id, n)),
                )
        }),
    decreases n,
{
    if n == 0 {
        assert forall|i: int| 0 <= i < ps.len() implies frac_eq(
            (#[trigger] ps[i]).stock_quantity.frac(),
            frac_sub(ps[i].stock_quantity.frac(), sum_sale_qty(lines, ps[i].id, 0)),
        ) by {
            crate::rational::lemma_frac_sub_zero_val(ps[i].stock_quantity.frac(), frac_zero());
        }
    } else {
        lemma_sale_stock_accounting(ps, lines, n - 1);
        let v1 = apply_order_lines(ps, lines, n - 1)->Ok_0;
        assert(product_ids(v1.0) =~= product_ids(ps));
        let line = lines[n - 1];
        let j = index_of_id(product_ids(ps), line.product_id);
        crate::store::lemma_index_of_id_found(product_ids(ps), line.product_id);
        assert(0 <= j < ps.len() && ps[j].id == line.product_id);
        let prev = v1.0[j].stock_quantity;
        let ns = crate::rational::rat_sub(prev, line.quantity)->Some_0;
        let v = apply_order_lines(ps, lines, n)->Ok_0;
        assert(v.0 == v1.0.update(j, Product { stock_quantity: ns, ..v1.0[j] }));
        assert(ns.frac() == frac_sub(prev.frac(), line.quantity.frac()));
        lemma_sum_sale_qty_wf(lines, ps[j].id, n - 1);
        lemma_frac_ops_wf(ps[j].stock_quantity.frac(), sum_sale_qty(lines, ps[j].id, n - 1));
        lemma_frac_ops_wf(prev.frac(), line.quantity.frac());
        assert forall|i: int| 0 <= i < ps.len() implies frac_eq(
            (#[trigger] v.0[i]).stock_quantity.frac(),
            frac_sub(ps[i].stock_quantity.frac(), sum_sale_qty(lines, ps[i].id, n)),
        ) by {
            if i == j {
                crate::rational::lemma_frac_sub_cong(
                    prev.frac(),
                    frac_sub(ps[j].stock_quantity.frac(), sum_sale_qty(lines, ps[j].id, n - 1)),
                    line.quantity.frac(),
                    line.quantity.frac(),
                );
                crate::rational::lemma_frac_sub_sub(
                    ps[j].stock_quantity.frac(),
                    sum_sale_qty(lines, ps[j].id, n - 1),
                    line.quantity.frac(),
                );
                lemma_frac_ops_wf(
                    frac_sub(ps[j].stock_quantity.frac(), sum_sale_qty(lines, ps[j].id, n - 1)),
                    line.quantity.frac(),
                );
                lemma_frac_ops_wf(
                    sum_sale_qty(lines, ps[j].id, n - 1),
                    line.quantity.frac(),
                );
                lemma_frac_ops_wf(
                    ps[j].stock_quantity.frac(),
                    frac_add(sum_sale_qty(lines, ps[j].id, n - 1), line.quantity.frac()),
                );
                lemma_frac_eq_trans(
                    ns.frac(),
                    frac_sub(
                        frac_sub(ps[j].stock_quantity.frac(), sum_sale_qty(lines, ps[j].id, n - 1)),
                        line.quantity.frac(),
                    ),
                    frac_sub(
                        ps[j].stock_quantity.frac(),
                        frac_add(sum_sale_qty(lines, ps[j].id, n - 1), line.quantity.frac()),
                    ),
                );
            } else {
                assert(product_ids(ps)[i] != product_ids(ps)[j]);
                assert(ps[i].id != line.product_id);
                assert(v.0[i] == v1.0[i]);
                assert(sum_sale_qty(lines, ps[i].id, n) == sum_sale_qty(lines, ps[i].id, n - 1));
            }
        }
    }
}

} // verus!
