use vstd::prelude::*;

use crate::model::{
    unique_names,
    lemma_take_last, lemma_tally_fit_prefix,
    sum_of, sums_fit, tally_add_exec, tally_items, tally_items_fit, tally_units, Product, Sale,
    SaleItem, User,
};
use crate::program::ProgramApp;
use crate::text::{
    decimal, decimal_string, pad_left, pad_right, push_padded_left, push_padded_right, push_str,
    same_text,
};

verus! {


// ---------------------------------------------------------------------------
// Totals
// ---------------------------------------------------------------------------

/// The prices of the sales, in order.
pub open spec fn sale_prices(sales: Seq<Sale>) -> Seq<int> {
    sales.map_values(|s: Sale| s.price as int)
}

/// The number of lines of each sale, as the program counts them in `i32`.
pub open spec fn sale_line_counts(sales: Seq<Sale>) -> Seq<int> {
    sales.map_values(|s: Sale| (s.products@.len() as i32) as int)
}

/// Adds up `v` in an `i32` that starts at zero.
fn sum_i32(v: &Vec<i32>) -> (r: i32)
    requires
        sums_fit(0, v@.map_values(|x: i32| x as int)),
    ensures
        r == sum_of(v@.map_values(|x: i32| x as int)),
{
    let ghost s = v@.map_values(|x: i32| x as int);
    let mut total: i32 = 0;
    let mut i: usize = 0;
    while i < v.len()
        invariant
            s == v@.map_values(|x: i32| x as int),
            sums_fit(0, s),
            i <= v.len(),
            total == sum_of(s.take(i as int)),
        decreases v.len() - i,
    {
        proof {
            lemma_take_last(s, i as int);
            assert(i32::MIN <= 0 + sum_of(s.take(i + 1)) <= i32::MAX);
        }
        total = total + v[i];
        i += 1;
    }
    assert(s.take(i as int) =~= s);
    total
}

/// Whether `v` adds up within the range of `i32` from zero.
fn sum_i32_fits(v: &Vec<i32>) -> (r: bool)
    ensures
        r == sums_fit(0, v@.map_values(|x: i32| x as int)),
{
    let ghost s = v@.map_values(|x: i32| x as int);
    let mut total: i64 = 0;
    let mut i: usize = 0;
    while i < v.len()
        invariant
            s == v@.map_values(|x: i32| x as int),
            i <= v.len(),
            sums_fit(0, s.take(i as int)),
            total == sum_of(s.take(i as int)),
            i32::MIN <= total <= i32::MAX,
        decreases v.len() - i,
    {
        proof {
            lemma_take_last(s, i as int);
        }
        let t = total + v[i] as i64;
        if t < -2147483648 || t > 2147483647 {
            assert(!sums_fit(0, s)) by {
                assert(s.take(i + 1).take(i + 1) =~= s.take(i + 1));
                assert(s.take(i + 1) =~= s.take(i + 1));
                assert(0 + sum_of(s.take(i + 1)) == t);
            }
            return false;
        }
        total = t;
        i += 1;
        assert forall|k: int| 0 <= k <= i implies i32::MIN <= #[trigger] (0 + sum_of(
            s.take(i as int).take(k),
        )) <= i32::MAX by {
            if k < i {
                assert(s.take(i as int).take(k) =~= s.take(i - 1).take(k));
            } else {
                assert(s.take(i as int).take(k) =~= s.take(i as int));
            }
        }
    }
    assert(s.take(i as int) =~= s);
    true
}

fn prices_of(sales: &Vec<Sale>) -> (r: Vec<i32>)
    ensures
        r@.map_values(|x: i32| x as int) == sale_prices(sales@),
{
    let mut r: Vec<i32> = Vec::new();
    let mut i: usize = 0;
    while i < sales.len()
        invariant
            i <= sales.len(),
            r@.len() == i,
            forall|k: int| 0 <= k < i ==> r@[k] == sales@[k].price,
        decreases sales.len() - i,
    {
        r.push(sales[i].price);
        i += 1;
    }
    assert(r@.map_values(|x: i32| x as int) =~= sale_prices(sales@));
    r
}

fn line_counts_of(sales: &Vec<Sale>) -> (r: Vec<i32>)
    ensures
        r@.map_values(|x: i32| x as int) == sale_line_counts(sales@),
{
    let mut r: Vec<i32> = Vec::new();
    let mut i: usize = 0;
    while i < sales.len()
        invariant
            i <= sales.len(),
            r@.len() == i,
            forall|k: int| 0 <= k < i ==> r@[k] == sales@[k].products@.len() as i32,
        decreases sales.len() - i,
    {
        r.push(sales[i].products.len() as i32);
        i += 1;
    }
    assert(r@.map_values(|x: i32| x as int) =~= sale_line_counts(sales@));
    r
}

/// The units of `name` bought by a client, as the clients panel counts them:
/// for each product, in order, the client's tally for that product's name.
pub open spec fn purchase_units(client_tally: Seq<(String, i32)>, products: Seq<Product>) -> Seq<int> {
    products.map_values(|p: Product| tally_units(client_tally, p.name@))
}

fn purchase_units_of(t: &Vec<(String, i32)>, products: &Vec<Product>) -> (r: Vec<i32>)
    ensures
        r@.map_values(|x: i32| x as int) == purchase_units(t@, products@),
{
    let mut r: Vec<i32> = Vec::new();
    let mut i: usize = 0;
    while i < products.len()
        invariant
            i <= products.len(),
            r@.len() == i,
            forall|k: int| 0 <= k < i ==> r@[k] as int == tally_units(t@, products@[k].name@),
        decreases products.len() - i,
    {
        let j = crate::model::find_entry(t, &products[i].name);
        let v: i32 = if j < t.len() {
            t[j].1
        } else {
            0
        };
        r.push(v);
        i += 1;
    }
    assert(r@.map_values(|x: i32| x as int) =~= purchase_units(t@, products@));
    r
}

impl ProgramApp {
    /// Whether the day's sales add up within range.
    pub fn sales_total_fits(&self) -> (r: bool)
        ensures
            r == sums_fit(0, sale_prices(self.sales_history@)),
    {
        let v = prices_of(&self.sales_history);
        sum_i32_fits(&v)
    }

    /// The money taken in the day's sales: the sum of their prices.
    pub fn sales_total(&self) -> (r: i32)
        requires
            sums_fit(0, sale_prices(self.sales_history@)),
        ensures
            r == sum_of(sale_prices(self.sales_history@)),
    {
        let v = prices_of(&self.sales_history);
        sum_i32(&v)
    }

    /// Whether the purchases of client `idx` add up within range.
    pub fn purchase_count_fits(&self, idx: usize) -> (r: bool)
        requires
            idx < self.clients.len(),
        ensures
            r == sums_fit(0, purchase_units(self.clients@[idx as int].id_shoppings@, self.products@)),
    {
        let v = purchase_units_of(&self.clients[idx].id_shoppings, &self.products);
        sum_i32_fits(&v)
    }

    /// The number of purchases shown for client `idx` on the clients panel:
    /// the sum, over the products in stock order, of the units of that product
    /// in the client's tally.
    pub fn purchase_count(&self, idx: usize) -> (r: i32)
        requires
            idx < self.clients.len(),
            sums_fit(0, purchase_units(self.clients@[idx as int].id_shoppings@, self.products@)),
        ensures
            r == sum_of(purchase_units(self.clients@[idx as int].id_shoppings@, self.products@)),
    {
        let v = purchase_units_of(&self.clients[idx].id_shoppings, &self.products);
        sum_i32(&v)
    }
}

/// Whether a user is listed on the users screen: every user but `admin`.
pub fn is_listed_user(u: &User) -> (r: bool)
    ensures
        r == (u.name@ != "admin"@),
{
    !same_text(u.name.as_str(), "admin")
}

// ---------------------------------------------------------------------------
// The daily report text
// ---------------------------------------------------------------------------

/// The rule line of the report (42 `=`).
pub open spec fn rule() -> Seq<char> {
    "=========================================="@
}

/// The head of the report, dated `date`.
pub open spec fn report_head(date: Seq<char>) -> Seq<char> {
    rule() + "\n"@ + "       INFORME DIARIO DE VENTAS"@ + "\n"@ + "       Fecha: "@ + date + "\n"@
        + rule() + "\n\n"@
}

/// The report line of a cart line: name padded to 15, units padded to 2,
/// price padded to 7.
pub open spec fn item_line(it: SaleItem) -> Seq<char> {
    " - "@ + pad_right(it.name@, 15) + " x"@ + pad_left(decimal(it.stock as int), 2)
        + " | Subtotal: $"@ + pad_left(decimal(it.price as int), 7) + "\n"@
}

/// The report lines of a sale's lines.
pub open spec fn items_text(items: Seq<SaleItem>) -> Seq<char>
    decreases items.len(),
{
    if items.len() == 0 {
        Seq::empty()
    } else {
        items_text(items.drop_last()) + item_line(items.last())
    }
}

/// The report block of one sale.
pub open spec fn sale_block(s: Sale) -> Seq<char> {
    "Venta ID: "@ + decimal(s.id as int) + " | Cliente ID: "@ + decimal(s.id_client as int)
        + "\n"@ + "Hora: "@ + s.date@ + "\n"@ + "------------------------------------------"@
        + "\n"@ + items_text(s.products@) + "TOTAL VENTA: $"@ + decimal(s.price as int)
        + "\n\n"@
}

/// The report blocks of the sales, in order.
pub open spec fn sales_text(sales: Seq<Sale>) -> Seq<char>
    decreases sales.len(),
{
    if sales.len() == 0 {
        Seq::empty()
    } else {
        sales_text(sales.drop_last()) + sale_block(sales.last())
    }
}

/// The whole daily report of `sales`, dated `date`: the head, a block per
/// sale and the day's total between rules.
pub open spec fn report_text_spec(sales: Seq<Sale>, date: Seq<char>) -> Seq<char> {
    report_head(date) + sales_text(sales) + rule() + "\n"@ + "TOTAL RECAUDADO EN EL DÍA: $"@
        + decimal(sum_of(sale_prices(sales))) + "\n"@ + rule() + "\n"@
}

fn push_item_line(s: &mut String, it: &SaleItem)
    ensures
        final(s)@ == old(s)@ + item_line(*it),
{
    push_str(s, " - ");
    push_padded_right(s, it.name.as_str(), 15);
    push_str(s, " x");
    let q = decimal_string(it.stock as i64);
    push_padded_left(s, q.as_str(), 2);
    push_str(s, " | Subtotal: $");
    let p = decimal_string(it.price as i64);
    push_padded_left(s, p.as_str(), 7);
    push_str(s, "\n");
    assert(s@ =~= old(s)@ + item_line(*it));
}

fn push_sale_block(s: &mut String, sale: &Sale)
    ensures
        final(s)@ == old(s)@ + sale_block(*sale),
{
    push_str(s, "Venta ID: ");
    let id = decimal_string(sale.id as i64);
    push_str(s, id.as_str());
    push_str(s, " | Cliente ID: ");
    let c = decimal_string(sale.id_client as i64);
    push_str(s, c.as_str());
    push_str(s, "\n");
    push_str(s, "Hora: ");
    push_str(s, sale.date.as_str());
    push_str(s, "\n");
    push_str(s, "------------------------------------------");
    push_str(s, "\n");
    let ghost mid = s@;
    let items = &sale.products;
    let mut j: usize = 0;
    while j < items.len()
        invariant
            j <= items.len(),
            s@ == mid + items_text(items@.take(j as int)),
        decreases items.len() - j,
    {
        proof {
            lemma_take_last(items@, j as int);
        }
        push_item_line(s, &items[j]);
        j += 1;
        assert(s@ =~= mid + items_text(items@.take(j as int)));
    }
    assert(items@.take(j as int) =~= items@);
    push_str(s, "TOTAL VENTA: $");
    let p = decimal_string(sale.price as i64);
    push_str(s, p.as_str());
    push_str(s, "\n\n");
    assert(s@ =~= old(s)@ + sale_block(*sale));
}

impl ProgramApp {
    /// The daily report of the recorded sales, dated `date`
    /// (see `report_text_spec`).
    pub fn report_text(&self, date: &str) -> (r: String)
        requires
            sums_fit(0, sale_prices(self.sales_history@)),
        ensures
            r@ == report_text_spec(self.sales_history@, date@),
    {
        let mut s = String::new();
        push_str(&mut s, "==========================================");
        push_str(&mut s, "\n");
        push_str(&mut s, "       INFORME DIARIO DE VENTAS");
        push_str(&mut s, "\n");
        push_str(&mut s, "       Fecha: ");
        push_str(&mut s, date);
        push_str(&mut s, "\n");
        push_str(&mut s, "==========================================");
        push_str(&mut s, "\n\n");
        assert(s@ =~= report_head(date@));
        let sales = &self.sales_history;
        let mut i: usize = 0;
        while i < sales.len()
            invariant
                i <= sales.len(),
                s@ == report_head(date@) + sales_text(sales@.take(i as int)),
            decreases sales.len() - i,
        {
            proof {
                lemma_take_last(sales@, i as int);
            }
            push_sale_block(&mut s, &sales[i]);
            i += 1;
            assert(s@ =~= report_head(date@) + sales_text(sales@.take(i as int)));
        }
        assert(sales@.take(i as int) =~= sales@);
        let total = self.sales_total();
        push_str(&mut s, "==========================================");
        push_str(&mut s, "\n");
        push_str(&mut s, "TOTAL RECAUDADO EN EL DÍA: $");
        let t = decimal_string(total as i64);
        push_str(&mut s, t.as_str());
        push_str(&mut s, "\n");
        push_str(&mut s, "==========================================");
        push_str(&mut s, "\n");
        assert(s@ =~= report_text_spec(self.sales_history@, date@));
        s
    }

    /// The daily report, dated with the current local time. The date text is
    /// whatever the clock gives: some non-empty text on one line.
    pub fn generator_report(&self) -> (r: String)
        requires
            sums_fit(0, sale_prices(self.sales_history@)),
        ensures
            exists|date: Seq<char>|
                date.len() > 0 && !date.contains('\n') && r@ == report_text_spec(
                    self.sales_history@,
                    date,
                ),
    {
        let now = crate::clock::local_now_text();
        self.report_text(now.as_str())
    }
}

// ---------------------------------------------------------------------------
// The inventory movement chart
// ---------------------------------------------------------------------------

/// What the chart screen shows: the units sold per product name, most sold
/// first; the largest running tally; the money taken; the number of lines
/// sold; the number of sales.
pub struct GraphicReport {
    pub rows: Vec<(String, i32)>,
    pub max_sold: i32,
    pub total_money: i32,
    pub total_items: i32,
    pub invoices: usize,
}

/// Every line of every sale, sale after sale.
pub open spec fn sold_lines(sales: Seq<Sale>) -> Seq<SaleItem>
    decreases sales.len(),
{
    if sales.len() == 0 {
        Seq::empty()
    } else {
        sold_lines(sales.drop_last()) + sales.last().products@
    }
}

/// The units sold per product name, in the order the names first appear.
pub open spec fn units_per_name(sales: Seq<Sale>) -> Seq<(String, i32)> {
    tally_items(Seq::empty(), sold_lines(sales))
}

/// The largest value that the running tally of a line's name reaches while
/// the lines are added one by one, or 0 (the chart's scale).
pub open spec fn running_max(items: Seq<SaleItem>) -> int
    decreases items.len(),
{
    if items.len() == 0 {
        0
    } else {
        let m = running_max(items.drop_last());
        let t = tally_units(tally_items(Seq::empty(), items), items.last().name@);
        if t > m {
            t
        } else {
            m
        }
    }
}

/// Whether the chart computes within range: the running tallies, the money
/// and the line count.
pub open spec fn chart_fits(sales: Seq<Sale>) -> bool {
    &&& tally_items_fit(Seq::empty(), sold_lines(sales))
    &&& sums_fit(0, sale_prices(sales))
    &&& sums_fit(0, sale_line_counts(sales))
}

/// Whether `rows` runs from the largest count to the smallest.
pub open spec fn sorted_by_units(rows: Seq<(String, i32)>) -> bool {
    forall|i: int, j: int| 0 <= i < j < rows.len() ==> rows[i].1 >= rows[j].1
}

fn sold_lines_exec(sales: &Vec<Sale>) -> (r: Vec<SaleItem>)
    ensures
        r@ == sold_lines(sales@),
{
    let mut r: Vec<SaleItem> = Vec::new();
    let mut i: usize = 0;
    while i < sales.len()
        invariant
            i <= sales.len(),
            r@ == sold_lines(sales@.take(i as int)),
        decreases sales.len() - i,
    {
        proof {
            lemma_take_last(sales@, i as int);
        }
        let ghost before = r@;
        let items = &sales[i].products;
        let mut j: usize = 0;
        while j < items.len()
            invariant
                j <= items.len(),
                r@ == before + items@.take(j as int),
            decreases items.len() - j,
        {
            let it = &items[j];
            r.push(SaleItem { name: it.name.clone(), stock: it.stock, price: it.price });
            j += 1;
            assert(r@ =~= before + items@.take(j as int));
        }
        assert(items@.take(j as int) =~= items@);
        i += 1;
    }
    assert(sales@.take(i as int) =~= sales@);
    r
}


/// The position at which `row` joins `rows`, sorted by units, after every
/// row with at least as many units.
fn insert_position(rows: &Vec<(String, i32)>, units: i32) -> (p: usize)
    requires
        sorted_by_units(rows@),
    ensures
        p <= rows.len(),
        forall|i: int| 0 <= i < p ==> rows@[i].1 >= units,
        forall|i: int| p <= i < rows.len() ==> rows@[i].1 < units,
{
    let mut p: usize = 0;
    while p < rows.len() && rows[p].1 >= units
        invariant
            p <= rows.len(),
            forall|i: int| 0 <= i < p ==> rows@[i].1 >= units,
        decreases rows.len() - p,
    {
        p += 1;
    }
    p
}

/// `t` sorted from the largest count to the smallest, rows of equal count
/// in their order in `t`.
pub fn sort_by_units(t: &Vec<(String, i32)>) -> (r: Vec<(String, i32)>)
    ensures
        r@.to_multiset() == t@.to_multiset(),
        sorted_by_units(r@),
        unique_names(t@) ==> unique_names(r@),
{
    broadcast use vstd::seq_lib::group_to_multiset_ensures;

    let mut r: Vec<(String, i32)> = Vec::new();
    let mut i: usize = 0;
    while i < t.len()
        invariant
            i <= t.len(),
            r@.to_multiset() == t@.take(i as int).to_multiset(),
            sorted_by_units(r@),
            forall|a: int|
                #![trigger r@[a]]
                0 <= a < r@.len() ==> exists|j: int| #![trigger t@[j]] 0 <= j < i && r@[a] == t@[j],
            unique_names(t@) ==> unique_names(r@),
        decreases t.len() - i,
    {
        let row = (t[i].0.clone(), t[i].1);
        assert(row == t@[i as int]);
        let p = insert_position(&r, row.1);
        let ghost before = r@;
        r.insert(p, row);
        assert(t@.take(i + 1) =~= t@.take(i as int).push(t@[i as int]));
        proof {
            vstd::seq_lib::to_multiset_insert(before, p as int, row);
            vstd::seq_lib::to_multiset_build(t@.take(i as int), t@[i as int]);
        }
        assert(r@ == before.insert(p as int, row));
        assert forall|a: int| #![trigger r@[a]] 0 <= a < r@.len() implies exists|j: int|
            #![trigger t@[j]]
            0 <= j < i + 1 && r@[a] == t@[j] by {
            if a < p {
                assert(r@[a] == before[a]);
            } else if a > p {
                assert(r@[a] == before[a - 1]);
            } else {
                assert(r@[a] == t@[i as int]);
            }
        }
        assert(unique_names(t@) ==> unique_names(r@)) by {
            if unique_names(t@) {
                assert forall|a: int, b: int| 0 <= a < b < r@.len() implies r@[a].0@ != r@[b].0@ by {
                    if a != p && b != p {
                        let a0 = if a < p { a } else { a - 1 };
                        let b0 = if b < p { b } else { b - 1 };
                        assert(r@[a] == before[a0] && r@[b] == before[b0]);
                        assert(a0 < b0);
                    } else if a == p {
                        let b0 = b - 1;
                        assert(r@[b] == before[b0]);
                        let j = choose|j: int| 0 <= j < i && before[b0] == t@[j];
                        assert(t@[j].0@ != t@[i as int].0@);
                    } else {
                        assert(r@[a] == before[a]);
                        let j = choose|j: int| 0 <= j < i && before[a] == t@[j];
                        assert(t@[j].0@ != t@[i as int].0@);
                    }
                }
            }
        }
        assert(sorted_by_units(r@)) by {
            assert forall|a: int, b: int| 0 <= a < b < r@.len() implies r@[a].1 >= r@[b].1 by {
                if a < p && b < p {
                } else if a < p && b == p {
                } else if a < p {
                    assert(r@[b] == before[b - 1]);
                } else if a == p {
                    assert(r@[b] == before[b - 1]);
                } else {
                    assert(r@[a] == before[a - 1]);
                    assert(r@[b] == before[b - 1]);
                }
            }
        }
        i += 1;
    }
    assert(t@.take(i as int) =~= t@);
    r
}

impl ProgramApp {
    /// Whether the chart would compute within range.
    pub fn chart_fits_exec(&self) -> (r: bool)
        ensures
            r == chart_fits(self.sales_history@),
    {
        let lines = sold_lines_exec(&self.sales_history);
        let ghost empty = Seq::<(String, i32)>::empty();
        let mut t: Vec<(String, i32)> = Vec::new();
        let mut i: usize = 0;
        while i < lines.len()
            invariant
                i <= lines.len(),
                t@ == tally_items(empty, lines@.take(i as int)),
                tally_items_fit(empty, lines@.take(i as int)),
                empty == Seq::<(String, i32)>::empty(),
                lines@ == sold_lines(self.sales_history@),
            decreases lines.len() - i,
        {
            proof {
                lemma_take_last(lines@, i as int);
            }
            let it = &lines[i];
            let j = crate::model::find_entry(&t, &it.name);
            let cur: i64 = if j < t.len() {
                t[j].1 as i64
            } else {
                0
            };
            assert(cur == tally_units(t@, it.name@));
            let s = cur + it.stock as i64;
            if s < -2147483648 || s > 2147483647 {
                assert(!tally_items_fit(empty, lines@)) by {
                    if tally_items_fit(empty, lines@) {
                        lemma_tally_fit_prefix(empty, lines@, i + 1);
                        let pre_items = lines@.take(i + 1);
                        assert(pre_items.drop_last() == lines@.take(i as int));
                        assert(pre_items.last() == *it);
                        assert(tally_items_fit(empty, pre_items));
                    }
                }
                return false;
            }
            tally_add_exec(&mut t, it.name.clone(), it.stock);
            i += 1;
        }
        assert(lines@.take(i as int) =~= lines@);
        let prices = prices_of(&self.sales_history);
        let counts = line_counts_of(&self.sales_history);
        sum_i32_fits(&prices) && sum_i32_fits(&counts)
    }

    /// The figures of the inventory movement chart.
    pub fn graphic_report(&self) -> (r: GraphicReport)
        requires
            chart_fits(self.sales_history@),
        ensures
            r.rows@.to_multiset() == units_per_name(self.sales_history@).to_multiset(),
            sorted_by_units(r.rows@),
            r.max_sold == running_max(sold_lines(self.sales_history@)),
            r.total_money == sum_of(sale_prices(self.sales_history@)),
            r.total_items == sum_of(sale_line_counts(self.sales_history@)),
            r.invoices == self.sales_history@.len(),
            unique_names(r.rows@),
    {
        let lines = sold_lines_exec(&self.sales_history);
        let ghost empty = Seq::<(String, i32)>::empty();
        let mut t: Vec<(String, i32)> = Vec::new();
        let mut max_sold: i32 = 0;
        let mut i: usize = 0;
        while i < lines.len()
            invariant
                i <= lines.len(),
                t@ == tally_items(empty, lines@.take(i as int)),
                tally_items_fit(empty, lines@),
                max_sold == running_max(lines@.take(i as int)),
                empty == Seq::<(String, i32)>::empty(),
            decreases lines.len() - i,
        {
            proof {
                lemma_take_last(lines@, i as int);
                lemma_tally_fit_prefix(empty, lines@, i + 1);
            }
            let it = &lines[i];
            tally_add_exec(&mut t, it.name.clone(), it.stock);
            let j = crate::model::find_entry(&t, &it.name);
            proof {
                crate::model::lemma_entry_index_bounds(t@, it.name@, 0);
            }
            let total: i32 = if j < t.len() {
                t[j].1
            } else {
                0
            };
            if total > max_sold {
                max_sold = total;
            }
            i += 1;
        }
        assert(lines@.take(i as int) =~= lines@);
        proof {
            crate::model::lemma_tally_items_keeps_unique(empty, lines@);
        }
        let rows = sort_by_units(&t);
        let prices = prices_of(&self.sales_history);
        let counts = line_counts_of(&self.sales_history);
        GraphicReport {
            rows,
            max_sold,
            total_money: sum_i32(&prices),
            total_items: sum_i32(&counts),
            invoices: self.sales_history.len(),
        }
    }
}

/// The report depends on the recorded sales and the date alone: two programs
/// with the same sales give the same report for the same date.
pub proof fn lemma_report_depends_on_sales_and_date(a: ProgramApp, b: ProgramApp, date: Seq<char>)
    requires
        a.sales_history@ == b.sales_history@,
    ensures
        report_text_spec(a.sales_history@, date) == report_text_spec(b.sales_history@, date),
{
}

/// The purchase count adds up every product's tally: with no products it is
/// zero, and one more product at the end of the list adds that product's
/// units in the client's tally, whatever the products before it (a product
/// never bought hides none after it).
pub proof fn lemma_purchase_count_adds_each_product(
    t: Seq<(String, i32)>,
    ps: Seq<Product>,
    p: Product,
)
    ensures
        sum_of(purchase_units(t, Seq::<Product>::empty())) == 0,
        sum_of(purchase_units(t, ps.push(p))) == sum_of(purchase_units(t, ps)) + tally_units(
            t,
            p.name@,
        ),
{
    assert(purchase_units(t, Seq::<Product>::empty()) =~= Seq::<int>::empty());
    assert(purchase_units(t, ps.push(p)).drop_last() =~= purchase_units(t, ps));
}

} // verus!
