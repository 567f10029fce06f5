use vstd::prelude::*;

use crate::model::{
    lemma_tally_items_keeps_unique, tallies_unique, unique_names,
    lemma_take_last, lemma_tally_fit_prefix,
    client_index, find_client, sum_of, sums_fit, tally_add_exec, tally_items, tally_items_fit,
    Client, Product, Sale, SaleItem,
};
use crate::program::ProgramApp;
use crate::text::{
    chars_of, index_of, parse_i32, parse_i32_spec, push_str, split_once, string_of, trim,
    trim_string,
};

verus! {

// ---------------------------------------------------------------------------
// Reading a sale entry
// ---------------------------------------------------------------------------

/// The units and the product name that a sale entry asks for. `"3x Leche"`
/// asks for 3 of `Leche`: the text before the first `x` is read as the
/// quantity (1 when it is no `i32`) and the text after it, trimmed, is the
/// name. An entry without `x` asks for one unit of the whole entry.
pub open spec fn sale_entry(input: Seq<char>) -> (i32, Seq<char>) {
    match split_once(input, 'x') {
        Some((q, n)) => (
            match parse_i32_spec(q) {
                Some(v) => v,
                None => 1i32,
            },
            trim(n),
        ),
        None => (1i32, input),
    }
}

/// Reads a sale entry into units and product name.
pub fn parse_entry(input: &str) -> (r: (i32, String))
    ensures
        r.0 == sale_entry(input@).0,
        r.1@ == sale_entry(input@).1,
{
    let v = chars_of(input);
    let i = index_of(&v, 'x');
    if i < v.len() {
        let q = string_of(&v, 0, i);
        let n = string_of(&v, i + 1, v.len());
        assert(q@ =~= input@.take(i as int));
        assert(n@ =~= input@.skip(i + 1));
        let quantity = match parse_i32(q.as_str()) {
            Some(x) => x,
            None => 1,
        };
        (quantity, trim_string(n.as_str()))
    } else {
        (1, string_of(&v, 0, v.len()))
    }
}

// ---------------------------------------------------------------------------
// Putting units of a product into the cart
// ---------------------------------------------------------------------------

/// The message shown when a product cannot be sold.
pub open spec fn no_stock_message() -> Seq<char> {
    "Lo siento no hay de ese producto"@
}

/// Whether `p` is the product named `name` and has `q` units to sell: its
/// stock is positive and not below `q`.
pub open spec fn sells(p: Product, q: i32, name: Seq<char>) -> bool {
    p.name@ == name && !(p.stock <= 0 || q > p.stock)
}

/// `p` after an entry of `q` units of `name`: `q` units fewer when it sells
/// them, unchanged otherwise.
pub open spec fn after_entry(p: Product, q: i32, name: Seq<char>) -> Product {
    if sells(p, q, name) {
        Product { stock: (p.stock - q) as i32, ..p }
    } else {
        p
    }
}

/// The cart lines that an entry of `q` units of `name` adds: one for each
/// product of `ps` that sells them, in order, with that product's name, `q`
/// units and `q` times its price.
pub open spec fn entry_lines(ps: Seq<Product>, q: i32, name: Seq<char>) -> Seq<SaleItem>
    decreases ps.len(),
{
    if ps.len() == 0 {
        Seq::empty()
    } else {
        let prev = entry_lines(ps.drop_last(), q, name);
        let p = ps.last();
        if sells(p, q, name) {
            prev.push(SaleItem { name: p.name, stock: q, price: (p.price * q) as i32 })
        } else {
            prev
        }
    }
}

/// The prices of cart lines.
pub open spec fn line_prices(items: Seq<SaleItem>) -> Seq<int> {
    items.map_values(|it: SaleItem| it.price as int)
}

/// The units of cart lines.
pub open spec fn line_units(items: Seq<SaleItem>) -> Seq<int> {
    items.map_values(|it: SaleItem| it.stock as int)
}

/// The last product of `ps` named `name`, if any.
pub open spec fn last_named(ps: Seq<Product>, name: Seq<char>) -> Option<Product>
    decreases ps.len(),
{
    if ps.len() == 0 {
        None
    } else if ps.last().name@ == name {
        Some(ps.last())
    } else {
        last_named(ps.drop_last(), name)
    }
}

/// The stock message after an entry: set when the last product named `name`
/// cannot sell, cleared when it can, unchanged when no product has the name.
pub open spec fn message_after_entry(
    ps: Seq<Product>,
    q: i32,
    name: Seq<char>,
    before: Seq<char>,
) -> Seq<char> {
    match last_named(ps, name) {
        None => before,
        Some(p) => if sells(p, q, name) {
            Seq::empty()
        } else {
            no_stock_message()
        },
    }
}

/// Whether an entry of `q` units of `name` computes within the range of
/// `i32`: each product that sells keeps its new stock and line price in range,
/// and so does the running total of the cart.
pub open spec fn entry_fits(app: ProgramApp, q: i32, name: Seq<char>) -> bool {
    &&& forall|i: int|
        0 <= i < app.products@.len() && sells(#[trigger] app.products@[i], q, name) ==> {
            &&& i32::MIN <= app.products@[i].stock - q <= i32::MAX
            &&& i32::MIN <= app.products@[i].price * q <= i32::MAX
        }
    &&& sums_fit(app.price_all as int, line_prices(entry_lines(app.products@, q, name)))
}

/// What an entry of `q` units of `name` does: every product of that name
/// that has the units gives them up and adds a line to the cart and its price
/// to the total; the stock message reflects the last product of that name;
/// the entry field is emptied when there are products.
pub open spec fn entry_added(pre: ProgramApp, post: ProgramApp, q: i32, name: Seq<char>) -> bool {
    let lines = entry_lines(pre.products@, q, name);
    &&& post.products@ == pre.products@.map_values(|p: Product| after_entry(p, q, name))
    &&& post.cart@ == pre.cart@ + lines
    &&& post.price_all == pre.price_all + sum_of(line_prices(lines))
    &&& post.error_stock@ == message_after_entry(pre.products@, q, name, pre.error_stock@)
    &&& post.product@ == (if pre.products@.len() > 0 {
        Seq::<char>::empty()
    } else {
        pre.product@
    })
    &&& post == (ProgramApp {
        products: post.products,
        cart: post.cart,
        price_all: post.price_all,
        error_stock: post.error_stock,
        product: post.product,
        ..pre
    })
}


/// Whether an entry of `q` units of `name` would compute within range (see
/// `entry_fits`).
pub fn entry_fits_exec(app: &ProgramApp, q: i32, name: &String) -> (r: bool)
    ensures
        r == entry_fits(*app, q, name@),
{
    let ghost ps = app.products@;
    let mut total: i32 = app.price_all;
    let mut i: usize = 0;
    while i < app.products.len()
        invariant
            ps == app.products@,
            i <= ps.len(),
            forall|j: int|
                0 <= j < i && sells(#[trigger] ps[j], q, name@) ==> {
                    &&& i32::MIN <= ps[j].stock - q <= i32::MAX
                    &&& i32::MIN <= ps[j].price * q <= i32::MAX
                },
            sums_fit(app.price_all as int, line_prices(entry_lines(ps.take(i as int), q, name@))),
            total == app.price_all + sum_of(line_prices(entry_lines(ps.take(i as int), q, name@))),
        decreases ps.len() - i,
    {
        proof {
            lemma_take_last(ps, i as int);
        }
        let p = &app.products[i];
        let ghost before = line_prices(entry_lines(ps.take(i as int), q, name@));
        let ghost after = line_prices(entry_lines(ps.take(i + 1), q, name@));
        if p.name == *name && !(p.stock <= 0 || q > p.stock) {
            let s = (p.stock as i64) - (q as i64);
            let pp = p.price as i64;
            let qq = q as i64;
            assert(-0x4000_0000_0000_0000 <= pp * qq <= 0x4000_0000_0000_0000) by (nonlinear_arith)
                requires
                    -0x8000_0000 <= pp <= 0x7fff_ffff,
                    -0x8000_0000 <= qq <= 0x7fff_ffff,
            ;
            let m = pp * qq;
            if s < -2147483648 || s > 2147483647 || m < -2147483648 || m > 2147483647 {
                return false;
            }
            let t = (total as i64) + m;
            proof {
                assert(after =~= before.push(m as int));
                assert(after.drop_last() =~= before);
                assert(after.take(after.len() as int) =~= after);
            }
            if t < -2147483648 || t > 2147483647 {
                assert(!sums_fit(app.price_all as int, line_prices(entry_lines(ps, q, name@)))) by {
                    let full = line_prices(entry_lines(ps, q, name@));
                    lemma_lines_prefix(ps, q, name@, i + 1);
                    assert(full.take(after.len() as int) =~= after);
                    assert(sum_of(after) == sum_of(before) + m);
                    assert(!(i32::MIN <= app.price_all + sum_of(full.take(after.len() as int))
                        <= i32::MAX));
                }
                return false;
            }
            total = t as i32;
            proof {
                assert forall|k: int| 0 <= k <= after.len() implies i32::MIN <= #[trigger] (
                app.price_all + sum_of(after.take(k))) <= i32::MAX by {
                    if k < after.len() {
                        assert(after.take(k) =~= before.take(k));
                    } else {
                        assert(after.take(k) =~= after);
                    }
                }
            }
        } else {
            assert(after =~= before);
        }
        i += 1;
    }
    assert(ps.take(ps.len() as int) =~= ps);
    true
}

/// The lines of a prefix of the products are a prefix of the lines.
proof fn lemma_lines_prefix(ps: Seq<Product>, q: i32, name: Seq<char>, k: int)
    requires
        0 <= k <= ps.len(),
    ensures
        entry_lines(ps.take(k), q, name).len() <= entry_lines(ps, q, name).len(),
        line_prices(entry_lines(ps, q, name)).take(
            entry_lines(ps.take(k), q, name).len() as int,
        ) =~= line_prices(entry_lines(ps.take(k), q, name)),
    decreases ps.len() - k,
{
    if k < ps.len() {
        lemma_lines_prefix(ps, q, name, k + 1);
        lemma_take_last(ps, k);
    } else {
        assert(ps.take(k) =~= ps);
    }
}

impl ProgramApp {
    /// Enters `quantity` units of `name` into the cart (see `entry_added`).
    pub fn add_to_cart(&mut self, quantity: i32, name: &String)
        requires
            entry_fits(*old(self), quantity, name@),
        ensures
            entry_added(*old(self), *final(self), quantity, name@),
    {
        let ghost pre = *self;
        let ghost ps = self.products@;
        let mut products: Vec<Product> = Vec::new();
        std::mem::swap(&mut products, &mut self.products);
        let n = products.len();
        let mut i: usize = 0;
        while i < n
            invariant
                n == ps.len() == products.len(),
                i <= n,
                entry_fits(pre, quantity, name@),
                pre.products@ == ps,
                forall|j: int| 0 <= j < i ==> products@[j] == after_entry(ps[j], quantity, name@),
                forall|j: int| i <= j < n ==> products@[j] == ps[j],
                self.cart@ == pre.cart@ + entry_lines(ps.take(i as int), quantity, name@),
                self.price_all == pre.price_all + sum_of(
                    line_prices(entry_lines(ps.take(i as int), quantity, name@)),
                ),
                self.error_stock@ == message_after_entry(
                    ps.take(i as int),
                    quantity,
                    name@,
                    pre.error_stock@,
                ),
                self.product@ == (if i > 0 {
                    Seq::<char>::empty()
                } else {
                    pre.product@
                }),
                *self == (ProgramApp {
                    products: self.products,
                    cart: self.cart,
                    price_all: self.price_all,
                    error_stock: self.error_stock,
                    product: self.product,
                    ..pre
                }),
            decreases n - i,
        {
            proof {
                lemma_take_last(ps, i as int);
                lemma_lines_prefix(ps, quantity, name@, i + 1);
            }
            let ghost before = line_prices(entry_lines(ps.take(i as int), quantity, name@));
            let ghost after = line_prices(entry_lines(ps.take(i + 1), quantity, name@));
            if products[i].name == *name {
                if products[i].stock <= 0 || quantity > products[i].stock {
                    let mut msg = String::new();
                    push_str(&mut msg, "Lo siento no hay de ese producto");
                    self.error_stock = msg;
                    assert(after =~= before);
                } else {
                    let p = products.remove(i);
                    assert(sells(ps[i as int], quantity, name@));
                    let line_price = p.price * quantity;
                    proof {
                        assert(after =~= before.push(line_price as int));
                        let full = line_prices(entry_lines(ps, quantity, name@));
                        assert(full.take(after.len() as int) =~= after);
                        assert(after.take(after.len() as int) =~= after);
                        assert(full.take(after.len() as int) == after);
                        assert(i32::MIN <= pre.price_all + sum_of(full.take(after.len() as int))
                            <= i32::MAX);
                        assert(after.drop_last() =~= before);
                    }
                    let item = SaleItem { name: p.name.clone(), stock: quantity, price: line_price };
                    self.cart.push(item);
                    self.price_all = self.price_all + line_price;
                    products.insert(
                        i,
                        Product { id: p.id, price: p.price, name: p.name, stock: p.stock - quantity },
                    );
                    self.error_stock = String::new();
                    assert(self.cart@ =~= pre.cart@ + entry_lines(ps.take(i + 1), quantity, name@));
                }
            } else {
                assert(after =~= before);
            }
            self.product = String::new();
            i += 1;
        }
        self.products = products;
        assert(ps.take(n as int) =~= ps);
        assert(self.products@ =~= ps.map_values(|p: Product| after_entry(p, quantity, name@)));
    }
}

// ---------------------------------------------------------------------------
// The sale form
// ---------------------------------------------------------------------------

/// What the Enter key in the sale form asks for: when the trimmed entry and
/// the trimmed client field are both filled in and a client has that id, the
/// units and name that the trimmed entry reads as; otherwise nothing.
pub open spec fn entry_request(app: ProgramApp) -> Option<(i32, Seq<char>)> {
    let input = trim(app.product@);
    let sel = trim(app.client_selected@);
    if input.len() > 0 && sel.len() > 0 && client_index(app.clients@, sel) < app.clients@.len() {
        Some(sale_entry(input))
    } else {
        None
    }
}

/// Whether the Enter key in the sale form computes within range.
pub open spec fn entry_request_fits(app: ProgramApp) -> bool {
    match entry_request(app) {
        Some((q, n)) => entry_fits(app, q, n),
        None => true,
    }
}

/// What the cart holds in units.
pub open spec fn cart_units(cart: Seq<SaleItem>) -> int {
    sum_of(line_units(cart))
}

/// What cancelling the cart does: when it holds lines, every product gets
/// back the units of the whole cart, the total is reset (only when there are
/// products) and the cart is emptied; an empty cart changes nothing.
pub open spec fn cart_cancelled(pre: ProgramApp, post: ProgramApp) -> bool {
    if pre.cart@.len() == 0 {
        post == pre
    } else {
        &&& post.products@ == pre.products@.map_values(
            |p: Product| Product { stock: (p.stock + cart_units(pre.cart@)) as i32, ..p },
        )
        &&& post.price_all == (if pre.products@.len() > 0 {
            0
        } else {
            pre.price_all
        })
        &&& post.cart@.len() == 0
        &&& post == (ProgramApp {
            products: post.products,
            price_all: post.price_all,
            cart: post.cart,
            ..pre
        })
    }
}

/// Whether cancelling the cart computes within range: the running count of
/// its units, and each product's stock plus that count.
pub open spec fn cancel_fits(app: ProgramApp) -> bool {
    app.cart@.len() > 0 ==> {
        &&& sums_fit(0, line_units(app.cart@))
        &&& forall|i: int|
            0 <= i < app.products@.len() ==> i32::MIN <= #[trigger] app.products@[i].stock
                + cart_units(app.cart@) <= i32::MAX
    }
}

/// What confirming the cart with the time text `date` does. With an empty
/// cart nothing changes. Otherwise, when a client has the id written in
/// `client_selected`, the first such client's tallies grow by the cart's lines
/// and a sale is recorded with the next number, `date`, that client's id, the
/// cart's lines and its total; in any case the cart is emptied and the total
/// reset.
pub open spec fn sale_confirmed(pre: ProgramApp, post: ProgramApp, date: String) -> bool {
    if pre.cart@.len() == 0 {
        post == pre
    } else {
        let k = client_index(pre.clients@, pre.client_selected@);
        &&& post.price_all == 0
        &&& post.cart@.len() == 0
        &&& if k < pre.clients@.len() {
            let c = pre.clients@[k];
            &&& post.clients@.len() == pre.clients@.len()
            &&& forall|j: int|
                0 <= j < pre.clients@.len() && j != k ==> post.clients@[j] == pre.clients@[j]
            &&& post.clients@[k].id == c.id
            &&& post.clients@[k].name == c.name
            &&& post.clients@[k].age == c.age
            &&& post.clients@[k].id_shoppings@ == tally_items(c.id_shoppings@, pre.cart@)
            &&& post.sales_history@ == pre.sales_history@.push(
                Sale {
                    id: (pre.sales_history@.len() + 1) as u32,
                    date,
                    id_client: c.id,
                    products: pre.cart,
                    price: pre.price_all,
                },
            )
        } else {
            &&& post.clients == pre.clients
            &&& post.sales_history == pre.sales_history
        }
        &&& post == (ProgramApp {
            clients: post.clients,
            sales_history: post.sales_history,
            price_all: post.price_all,
            cart: post.cart,
            ..pre
        })
    }
}

/// Whether confirming the cart computes within range: the selected client's
/// tallies stay in range and the next sale number can be formed.
pub open spec fn confirm_fits(app: ProgramApp) -> bool {
    let k = client_index(app.clients@, app.client_selected@);
    app.cart@.len() > 0 && k < app.clients@.len() ==> {
        &&& tally_items_fit(app.clients@[k].id_shoppings@, app.cart@)
        &&& app.sales_history@.len() < usize::MAX
    }
}


impl ProgramApp {
    /// Whether the Enter key in the sale form would compute within range.
    pub fn entry_request_fits_exec(&self) -> (r: bool)
        ensures
            r == entry_request_fits(*self),
    {
        let input = trim_string(self.product.as_str());
        let sel = trim_string(self.client_selected.as_str());
        if input.as_str().is_empty() || sel.as_str().is_empty() {
            return true;
        }
        let k = find_client(&self.clients, sel.as_str());
        if k >= self.clients.len() {
            return true;
        }
        let (q, name) = parse_entry(input.as_str());
        entry_fits_exec(self, q, &name)
    }

    /// The Enter key in the sale form: enters the trimmed entry for the
    /// client whose id is the trimmed client field (see `entry_request`).
    pub fn enter_sale_item(&mut self)
        requires
            entry_request_fits(*old(self)),
        ensures
            match entry_request(*old(self)) {
                Some((q, n)) => entry_added(*old(self), *final(self), q, n),
                None => *final(self) == *old(self),
            },
    {
        let input = trim_string(self.product.as_str());
        let sel = trim_string(self.client_selected.as_str());
        if input.as_str().is_empty() || sel.as_str().is_empty() {
            return;
        }
        let k = find_client(&self.clients, sel.as_str());
        if k >= self.clients.len() {
            return;
        }
        let (q, name) = parse_entry(input.as_str());
        self.add_to_cart(q, &name);
    }

    /// Whether cancelling the cart would compute within range.
    pub fn cancel_fits_exec(&self) -> (r: bool)
        ensures
            r == cancel_fits(*self),
    {
        if self.cart.len() == 0 {
            return true;
        }
        let ghost units = line_units(self.cart@);
        let mut total: i64 = 0;
        let mut i: usize = 0;
        while i < self.cart.len()
            invariant
                units == line_units(self.cart@),
                i <= self.cart.len(),
                sums_fit(0, units.take(i as int)),
                total == sum_of(units.take(i as int)),
                i32::MIN <= total <= i32::MAX,
            decreases self.cart.len() - i,
        {
            proof {
                lemma_take_last(units, i as int);
            }
            let t = total + self.cart[i].stock as i64;
            if t < -2147483648 || t > 2147483647 {
                assert(!sums_fit(0, units)) by {
                    assert(units.take(i + 1).take(i + 1) =~= units.take(i + 1));
                    assert(0 + sum_of(units.take(i + 1)) == t);
                }
                return false;
            }
            total = t;
            i += 1;
            assert forall|k: int| 0 <= k <= i implies i32::MIN <= #[trigger] (0 + sum_of(
                units.take(i as int).take(k),
            )) <= i32::MAX by {
                if k < i {
                    assert(units.take(i as int).take(k) =~= units.take(i - 1).take(k));
                } else {
                    assert(units.take(i as int).take(k) =~= units.take(i as int));
                }
            }
        }
        assert(units.take(i as int) =~= units);
        assert(total == cart_units(self.cart@));
        let mut j: usize = 0;
        while j < self.products.len()
            invariant
                j <= self.products.len(),
                total == cart_units(self.cart@),
                i32::MIN <= total <= i32::MAX,
                forall|m: int|
                    0 <= m < j ==> i32::MIN <= #[trigger] self.products@[m].stock + cart_units(
                        self.cart@,
                    ) <= i32::MAX,
            decreases self.products.len() - j,
        {
            let s = self.products[j].stock as i64 + total;
            if s < -2147483648 || s > 2147483647 {
                return false;
            }
            j += 1;
        }
        true
    }

    /// The cancel button of the sale form (see `cart_cancelled`).
    pub fn cancel_cart(&mut self)
        requires
            cancel_fits(*old(self)),
        ensures
            cart_cancelled(*old(self), *final(self)),
    {
        if self.cart.len() == 0 {
            return;
        }
        let ghost units = line_units(self.cart@);
        let mut stock: i32 = 0;
        let mut i: usize = 0;
        while i < self.cart.len()
            invariant
                units == line_units(self.cart@),
                i <= self.cart.len(),
                sums_fit(0, units),
                stock == sum_of(units.take(i as int)),
            decreases self.cart.len() - i,
        {
            proof {
                lemma_take_last(units, i as int);
                assert(i32::MIN <= 0 + sum_of(units.take(i + 1)) <= i32::MAX);
            }
            stock = stock + self.cart[i].stock;
            i += 1;
        }
        assert(units.take(i as int) =~= units);
        let ghost pre = *self;
        let ghost ps = self.products@;
        let mut products: Vec<Product> = Vec::new();
        std::mem::swap(&mut products, &mut self.products);
        let n = products.len();
        let mut j: usize = 0;
        while j < n
            invariant
                n == ps.len() == products.len(),
                j <= n,
                stock == cart_units(pre.cart@),
                forall|m: int|
                    0 <= m < n ==> i32::MIN <= #[trigger] ps[m].stock + cart_units(pre.cart@)
                        <= i32::MAX,
                forall|m: int|
                    0 <= m < j ==> products@[m] == (Product {
                        stock: (ps[m].stock + cart_units(pre.cart@)) as i32,
                        ..ps[m]
                    }),
                forall|m: int| j <= m < n ==> products@[m] == ps[m],
                self.price_all == (if j > 0 {
                    0
                } else {
                    pre.price_all
                }),
                *self == (ProgramApp { price_all: self.price_all, products: self.products, ..pre }),
            decreases n - j,
        {
            let p = products.remove(j);
            assert(p == ps[j as int]);
            assert(i32::MIN <= ps[j as int].stock + cart_units(pre.cart@) <= i32::MAX);
            products.insert(
                j,
                Product { id: p.id, price: p.price, name: p.name, stock: p.stock + stock },
            );
            self.price_all = 0;
            j += 1;
        }
        self.products = products;
        self.cart = Vec::new();
        assert(self.products@ =~= ps.map_values(
            |p: Product| Product { stock: (p.stock + cart_units(pre.cart@)) as i32, ..p },
        ));
    }

    /// Whether confirming the cart would compute within range.
    pub fn confirm_fits_exec(&self) -> (r: bool)
        ensures
            r == confirm_fits(*self),
    {
        if self.cart.len() == 0 {
            return true;
        }
        let k = find_client(&self.clients, self.client_selected.as_str());
        if k >= self.clients.len() {
            return true;
        }
        if self.sales_history.len() == usize::MAX {
            return false;
        }
        let ghost t0 = self.clients@[k as int].id_shoppings@;
        let mut t = copy_tally(&self.clients[k].id_shoppings);
        let mut i: usize = 0;
        while i < self.cart.len()
            invariant
                i <= self.cart.len(),
                t@ == tally_items(t0, self.cart@.take(i as int)),
                tally_items_fit(t0, self.cart@.take(i as int)),
                k == client_index(self.clients@, self.client_selected@),
                k < self.clients@.len(),
                t0 == self.clients@[k as int].id_shoppings@,
                self.cart@.len() > 0,
                self.sales_history@.len() < usize::MAX,
            decreases self.cart.len() - i,
        {
            proof {
                lemma_take_last(self.cart@, i as int);
            }
            let item = &self.cart[i];
            let j = crate::model::find_entry(&t, &item.name);
            let cur: i64 = if j < t.len() {
                t[j].1 as i64
            } else {
                0
            };
            let s = cur + item.stock as i64;
            assert(cur == crate::model::tally_units(t@, item.name@));
            if s < -2147483648 || s > 2147483647 {
                assert(!tally_items_fit(t0, self.cart@)) by {
                    if tally_items_fit(t0, self.cart@) {
                        lemma_tally_fit_prefix(t0, self.cart@, i + 1);
                        let pre_items = self.cart@.take(i + 1);
                        assert(pre_items.drop_last() == self.cart@.take(i as int));
                        assert(pre_items.last() == *item);
                        assert(tally_items_fit(t0, pre_items));
                    }
                }
                return false;
            }
            tally_add_exec(&mut t, item.name.clone(), item.stock);
            i += 1;
        }
        assert(self.cart@.take(i as int) =~= self.cart@);
        true
    }

    /// Confirms the cart with the time text `date` (see `sale_confirmed`).
    pub fn confirm_sale_at(&mut self, date: String)
        requires
            confirm_fits(*old(self)),
        ensures
            sale_confirmed(*old(self), *final(self), date),
            tallies_unique(old(self).clients@) ==> tallies_unique(final(self).clients@),
    {
        if self.cart.len() == 0 {
            return;
        }
        let ghost pre = *self;
        let k = find_client(&self.clients, self.client_selected.as_str());
        if k < self.clients.len() {
            let c = self.clients.remove(k);
            let ghost t0 = c.id_shoppings@;
            let mut t = c.id_shoppings;
            let mut i: usize = 0;
            while i < self.cart.len()
                invariant
                    *self == (ProgramApp { clients: self.clients, ..pre }),
                    i <= self.cart.len(),
                    t@ == tally_items(t0, self.cart@.take(i as int)),
                    tally_items_fit(t0, self.cart@),
                decreases self.cart.len() - i,
            {
                proof {
                    lemma_take_last(self.cart@, i as int);
                    lemma_tally_fit_prefix(t0, self.cart@, i + 1);
                }
                tally_add_exec(&mut t, self.cart[i].name.clone(), self.cart[i].stock);
                i += 1;
            }
            assert(self.cart@.take(i as int) =~= self.cart@);
            self.clients.insert(k, Client { id: c.id, name: c.name, age: c.age, id_shoppings: t });
            let mut items: Vec<SaleItem> = Vec::new();
            std::mem::swap(&mut items, &mut self.cart);
            let number = (self.sales_history.len() + 1) as u32;
            self.sales_history.push(
                Sale { id: number, date, id_client: c.id, products: items, price: self.price_all },
            );
            proof {
                if tallies_unique(pre.clients@) {
                    assert(unique_names(pre.clients@[k as int].id_shoppings@));
                    lemma_tally_items_keeps_unique(pre.clients@[k as int].id_shoppings@, pre.cart@);
                    assert forall|j: int| 0 <= j < self.clients@.len() implies unique_names(
                        #[trigger] self.clients@[j].id_shoppings@,
                    ) by {
                        if j != k {
                            assert(self.clients@[j] == pre.clients@[j]);
                        }
                    }
                }
            }
        }
        self.price_all = 0;
        self.cart = Vec::new();
    }

    /// The confirm button of the sale form: confirms the cart at the current
    /// local time. The time text is whatever the clock gives: some non-empty
    /// text on one line.
    pub fn confirm_sale(&mut self)
        requires
            confirm_fits(*old(self)),
        ensures
            exists|date: String|
                date@.len() > 0 && !date@.contains('\n') && sale_confirmed(
                    *old(self),
                    *final(self),
                    date,
                ),
    {
        let date = crate::clock::local_now_text();
        self.confirm_sale_at(date);
    }
}

/// A copy of a tally, entry by entry.
fn copy_tally(t: &Vec<(String, i32)>) -> (r: Vec<(String, i32)>)
    ensures
        r@ == t@,
{
    let mut r: Vec<(String, i32)> = Vec::new();
    let mut i: usize = 0;
    while i < t.len()
        invariant
            i <= t.len(),
            r@ == t@.take(i as int),
        decreases t.len() - i,
    {
        r.push((t[i].0.clone(), t[i].1));
        i += 1;
        assert(r@ =~= t@.take(i as int));
    }
    assert(t@.take(i as int) =~= t@);
    r
}

// ---------------------------------------------------------------------------
// Laws of the cart
// ---------------------------------------------------------------------------

/// Whether the total shown equals the sum of the cart's line prices, and a
/// cart with lines comes with products.
pub open spec fn cart_consistent(app: ProgramApp) -> bool {
    &&& app.price_all == sum_of(line_prices(app.cart@))
    &&& app.cart@.len() > 0 ==> app.products@.len() > 0
}

/// The units in stock over all products.
pub open spec fn stock_total(ps: Seq<Product>) -> int
    decreases ps.len(),
{
    if ps.len() == 0 {
        0
    } else {
        stock_total(ps.drop_last()) + ps.last().stock
    }
}

pub proof fn lemma_sum_concat(a: Seq<int>, b: Seq<int>)
    ensures
        sum_of(a + b) == sum_of(a) + sum_of(b),
    decreases b.len(),
{
    if b.len() > 0 {
        lemma_sum_concat(a, b.drop_last());
        assert((a + b).drop_last() =~= a + b.drop_last());
    } else {
        assert(a + b =~= a);
    }
}

proof fn lemma_lines_empty(ps: Seq<Product>, q: i32, name: Seq<char>)
    ensures
        entry_lines(ps, q, name).len() <= ps.len(),
    decreases ps.len(),
{
    if ps.len() > 0 {
        lemma_lines_empty(ps.drop_last(), q, name);
    }
}

/// The program starts with a consistent cart.
pub proof fn lemma_new_cart_consistent(app: ProgramApp)
    requires
        app.cart@.len() == 0,
        app.price_all == 0,
    ensures
        cart_consistent(app),
{
    assert(line_prices(app.cart@) =~= Seq::<int>::empty());
}

/// Entering units keeps the total equal to the sum of the cart's lines.
pub proof fn lemma_entry_keeps_cart_consistent(
    pre: ProgramApp,
    post: ProgramApp,
    q: i32,
    name: Seq<char>,
)
    requires
        cart_consistent(pre),
        entry_added(pre, post, q, name),
    ensures
        cart_consistent(post),
{
    let lines = entry_lines(pre.products@, q, name);
    assert(line_prices(pre.cart@ + lines) =~= line_prices(pre.cart@) + line_prices(lines));
    lemma_sum_concat(line_prices(pre.cart@), line_prices(lines));
    lemma_lines_empty(pre.products@, q, name);
}

/// Cancelling the cart keeps it consistent (it ends empty with a zero total).
pub proof fn lemma_cancel_keeps_cart_consistent(pre: ProgramApp, post: ProgramApp)
    requires
        cart_consistent(pre),
        cart_cancelled(pre, post),
    ensures
        cart_consistent(post),
{
    if pre.cart@.len() > 0 {
        assert(line_prices(post.cart@) =~= Seq::<int>::empty());
    }
}

/// Confirming the cart keeps it consistent (it ends empty with a zero total).
pub proof fn lemma_confirm_keeps_cart_consistent(pre: ProgramApp, post: ProgramApp, date: String)
    requires
        cart_consistent(pre),
        sale_confirmed(pre, post, date),
    ensures
        cart_consistent(post),
{
    if pre.cart@.len() > 0 {
        assert(line_prices(post.cart@) =~= Seq::<int>::empty());
    }
}

proof fn lemma_entry_moves_units(ps: Seq<Product>, q: i32, name: Seq<char>)
    requires
        forall|i: int|
            0 <= i < ps.len() && sells(#[trigger] ps[i], q, name) ==> i32::MIN <= ps[i].stock - q
                <= i32::MAX,
    ensures
        stock_total(ps.map_values(|p: Product| after_entry(p, q, name))) + sum_of(
            line_units(entry_lines(ps, q, name)),
        ) == stock_total(ps),
    decreases ps.len(),
{
    if ps.len() > 0 {
        let f = |p: Product| after_entry(p, q, name);
        lemma_entry_moves_units(ps.drop_last(), q, name);
        assert(ps.map_values(f).drop_last() =~= ps.drop_last().map_values(f));
        let prev = entry_lines(ps.drop_last(), q, name);
        if sells(ps.last(), q, name) {
            let line = SaleItem { name: ps.last().name, stock: q, price: (ps.last().price * q) as i32 };
            assert(line_units(prev.push(line)).drop_last() =~= line_units(prev));
        } else {
        }
    }
}

/// An entry moves units from the stock into the cart: the units in stock plus
/// the units in the cart stay the same.
pub proof fn lemma_entry_conserves_units(pre: ProgramApp, post: ProgramApp, q: i32, name: Seq<char>)
    requires
        entry_fits(pre, q, name),
        entry_added(pre, post, q, name),
    ensures
        stock_total(post.products@) + cart_units(post.cart@) == stock_total(pre.products@)
            + cart_units(pre.cart@),
{
    let lines = entry_lines(pre.products@, q, name);
    lemma_entry_moves_units(pre.products@, q, name);
    assert(line_units(pre.cart@ + lines) =~= line_units(pre.cart@) + line_units(lines));
    lemma_sum_concat(line_units(pre.cart@), line_units(lines));
}

/// With a single product and an empty cart, entering units and then
/// cancelling the cart gives the product back its stock and leaves the cart
/// empty with a zero total.
pub proof fn lemma_cancel_undoes_entry(
    a: ProgramApp,
    b: ProgramApp,
    c: ProgramApp,
    q: i32,
    name: Seq<char>,
)
    requires
        a.products@.len() == 1,
        a.cart@.len() == 0,
        a.price_all == 0,
        entry_fits(a, q, name),
        entry_added(a, b, q, name),
        cart_cancelled(b, c),
    ensures
        c.products@ == a.products@,
        c.cart@.len() == 0,
        c.price_all == 0,
{
    let p = a.products@[0];
    assert(a.products@.drop_last() =~= Seq::<Product>::empty());
    let lines = entry_lines(a.products@, q, name);
    assert(entry_lines(a.products@.drop_last(), q, name) =~= Seq::<SaleItem>::empty());
    assert(a.products@.last() == p);
    if sells(p, q, name) {
        assert(lines =~= seq![SaleItem { name: p.name, stock: q, price: (p.price * q) as i32 }]);
        assert(b.cart@ =~= lines);
        assert(line_units(b.cart@).drop_last() =~= Seq::<int>::empty());
        assert(line_units(b.cart@).last() == q);
        assert(sum_of(Seq::<int>::empty()) == 0);
        assert(cart_units(b.cart@) == q);
        assert(line_prices(lines).drop_last() =~= Seq::<int>::empty());
        assert(c.products@ =~= a.products@);
    } else {
        assert(lines =~= Seq::<SaleItem>::empty());
        assert(b.cart@ =~= Seq::<SaleItem>::empty());
        assert(line_prices(lines) =~= Seq::<int>::empty());
        assert(c.products@ =~= a.products@);
    }
}

/// Confirming the cart for a client adds to that client's tally of each
/// product exactly the units of the cart's lines for it.
pub proof fn lemma_confirm_adds_units(
    pre: ProgramApp,
    post: ProgramApp,
    date: String,
    name: Seq<char>,
)
    requires
        confirm_fits(pre),
        sale_confirmed(pre, post, date),
        pre.cart@.len() > 0,
        client_index(pre.clients@, pre.client_selected@) < pre.clients@.len(),
    ensures
        ({
            let k = client_index(pre.clients@, pre.client_selected@);
            crate::model::tally_units(post.clients@[k].id_shoppings@, name)
                == crate::model::tally_units(pre.clients@[k].id_shoppings@, name)
                + crate::model::units_named(pre.cart@, name)
        }),
{
    let k = client_index(pre.clients@, pre.client_selected@);
    crate::model::lemma_tally_items_units(pre.clients@[k].id_shoppings@, pre.cart@, name);
}

/// Whether sale `i` carries the number `i + 1`.
pub open spec fn sales_numbered(sales: Seq<Sale>) -> bool {
    forall|i: int| 0 <= i < sales.len() ==> #[trigger] sales[i].id == i + 1
}

/// Confirming the cart keeps the sales numbered one after the other.
pub proof fn lemma_confirm_keeps_numbering(pre: ProgramApp, post: ProgramApp, date: String)
    requires
        sales_numbered(pre.sales_history@),
        pre.sales_history@.len() < u32::MAX,
        sale_confirmed(pre, post, date),
    ensures
        sales_numbered(post.sales_history@),
{
}

/// Whether each sale's price is the sum of its lines' prices.
pub open spec fn sales_priced(sales: Seq<Sale>) -> bool {
    forall|i: int|
        0 <= i < sales.len() ==> #[trigger] sales[i].price == sum_of(
            line_prices(sales[i].products@),
        )
}

/// A sale is recorded at the cart's total, so with a consistent cart each
/// recorded sale's price is the sum of its lines' prices.
pub proof fn lemma_confirm_keeps_sales_priced(pre: ProgramApp, post: ProgramApp, date: String)
    requires
        cart_consistent(pre),
        sales_priced(pre.sales_history@),
        sale_confirmed(pre, post, date),
    ensures
        sales_priced(post.sales_history@),
{
    let n = pre.sales_history@.len();
    assert forall|i: int| 0 <= i < post.sales_history@.len() implies #[trigger] post.sales_history@[i].price
        == sum_of(line_prices(post.sales_history@[i].products@)) by {
        if i < n {
            assert(post.sales_history@[i] == pre.sales_history@[i]);
        }
    }
}

/// A confirmed sale records the selected client: when the cart holds lines
/// and some client has the id written in `client_selected`, exactly one sale
/// is added, and its client id is an id of the clients list whose decimal
/// notation is `client_selected` (the client's id, whatever its position).
pub proof fn lemma_sale_records_selected_client(pre: ProgramApp, post: ProgramApp, date: String)
    requires
        sale_confirmed(pre, post, date),
        pre.cart@.len() > 0,
        exists|j: int|
            0 <= j < pre.clients@.len() && crate::text::decimal(pre.clients@[j].id as int)
                == pre.client_selected@,
    ensures
        post.sales_history@.len() == pre.sales_history@.len() + 1,
        crate::text::decimal(post.sales_history@.last().id_client as int) == pre.client_selected@,
        exists|j: int|
            0 <= j < pre.clients@.len() && post.sales_history@.last().id_client
                == pre.clients@[j].id,
        post.sales_history@.last().products == pre.cart,
        post.sales_history@.last().price == pre.price_all,
        post.sales_history@.last().date == date,
{
    let ids = crate::model::client_ids(pre.clients@);
    crate::model::lemma_id_index_bounds(ids, pre.client_selected@, 0);
    let j0 = choose|j: int|
        0 <= j < pre.clients@.len() && crate::text::decimal(pre.clients@[j].id as int)
            == pre.client_selected@;
    assert(ids[j0] == pre.clients@[j0].id);
    let k = client_index(pre.clients@, pre.client_selected@);
    assert(ids[k] == pre.clients@[k].id);
}

proof fn lemma_first_x_from(s: Seq<char>, q_len: int, i: int)
    requires
        0 <= i <= q_len < s.len(),
        s[q_len] == 'x',
        forall|j: int| 0 <= j < q_len ==> s[j] != 'x',
    ensures
        crate::text::index_of_from(s, 'x', i) == q_len,
    decreases q_len - i,
{
    if i < q_len {
        lemma_first_x_from(s, q_len, i + 1);
    }
}

/// A sale entry is split at its first `x`: for an entry `q + "x" + n` whose
/// `q` holds no `x`, the units are `q` read as an `i32` (1 when it is none)
/// and the name is `n` trimmed, whatever `n` holds (an `x` included).
pub proof fn lemma_entry_splits_at_first_x(q: Seq<char>, n: Seq<char>)
    requires
        !q.contains('x'),
    ensures
        sale_entry(q + seq!['x'] + n) == (
            match parse_i32_spec(q) {
                Some(v) => v,
                None => 1i32,
            },
            trim(n),
        ),
{
    let s = q + seq!['x'] + n;
    assert forall|j: int| 0 <= j < q.len() implies s[j] != 'x' by {
        assert(s[j] == q[j]);
        if q[j] == 'x' {
            assert(q.contains('x'));
        }
    }
    lemma_first_x_from(s, q.len() as int, 0);
    assert(s.take(q.len() as int) =~= q);
    assert(s.skip(q.len() + 1int) =~= n);
}

/// An entry without `x` asks for one unit of the whole entry.
pub proof fn lemma_entry_without_x(input: Seq<char>)
    requires
        !input.contains('x'),
    ensures
        sale_entry(input) == (1i32, input),
{
    lemma_no_x_from(input, 0);
}

proof fn lemma_no_x_from(s: Seq<char>, i: int)
    requires
        0 <= i <= s.len(),
        !s.contains('x'),
    ensures
        crate::text::index_of_from(s, 'x', i) == s.len(),
    decreases s.len() - i,
{
    if i < s.len() {
        assert(s[i] != 'x') by {
            if s[i] == 'x' {
                assert(s.contains('x'));
            }
        }
        lemma_no_x_from(s, i + 1);
    }
}

} // verus!
