use vstd::prelude::*;

use crate::text::{decimal, decimal_string, same_text};

verus! {

/// A person who may log in: an id, a name and a password.
#[derive(Clone, Debug)]
pub struct User {
    pub id: i32,
    pub name: String,
    pub pw: String,
}

/// An article for sale: its id, unit price, name and units in stock.
#[derive(Clone, Debug)]
pub struct Product {
    pub id: i32,
    pub price: i32,
    pub name: String,
    pub stock: i32,
}

/// A customer. `id_shoppings` tallies the units bought of each product,
/// keyed by the product's name; the first entry with a name holds its tally.
#[derive(Clone, Debug)]
pub struct Client {
    pub id: i32,
    pub name: String,
    pub age: i32,
    pub id_shoppings: Vec<(String, i32)>,
}

/// One line of a cart or a sale: product name, units and price of the line.
#[derive(Clone, Debug)]
pub struct SaleItem {
    pub name: String,
    pub stock: i32,
    pub price: i32,
}

/// A confirmed sale.
#[derive(Clone, Debug)]
pub struct Sale {
    pub id: u32,
    pub date: String,
    pub id_client: i32,
    pub products: Vec<SaleItem>,
    pub price: i32,
}

/// The screens of the program.
#[derive(PartialEq, Eq, Structural, Clone, Copy, Debug)]
pub enum Screen {
    Panel,
    Sell,
    Report,
    GraphicReport,
    Users,
}

// ---------------------------------------------------------------------------
// Sums of `i32` values as the program adds them up
// ---------------------------------------------------------------------------

/// The sum of a sequence of integers.
pub open spec fn sum_of(s: Seq<int>) -> int
    decreases s.len(),
{
    if s.len() == 0 {
        0
    } else {
        sum_of(s.drop_last()) + s.last()
    }
}

/// Whether adding up `s` from `start`, one value after the other, never leaves
/// the range of `i32` (an `i32` accumulator that starts at `start` does not
/// overflow).
pub open spec fn sums_fit(start: int, s: Seq<int>) -> bool {
    forall|k: int|
        0 <= k <= s.len() ==> i32::MIN <= #[trigger] (start + sum_of(s.take(k))) <= i32::MAX
}


pub proof fn lemma_take_last<A>(s: Seq<A>, i: int)
    requires
        0 <= i < s.len(),
    ensures
        s.take(i + 1).drop_last() == s.take(i),
        s.take(i + 1).last() == s[i],
{
    assert(s.take(i + 1).drop_last() =~= s.take(i));
}

// ---------------------------------------------------------------------------
// Selecting by id
// ---------------------------------------------------------------------------

/// The index of the first id at or after `i` whose decimal notation is `sel`
/// (the length of `ids` if there is none).
pub open spec fn id_index_from(ids: Seq<i32>, sel: Seq<char>, i: int) -> int
    decreases ids.len() - i,
{
    if i < 0 || i >= ids.len() || decimal(ids[i] as int) == sel {
        i
    } else {
        id_index_from(ids, sel, i + 1)
    }
}

pub open spec fn client_ids(clients: Seq<Client>) -> Seq<i32> {
    clients.map_values(|c: Client| c.id)
}

pub open spec fn user_ids(users: Seq<User>) -> Seq<i32> {
    users.map_values(|u: User| u.id)
}

/// The position of the first client whose id, written in decimal, is `sel`
/// (the number of clients if there is none).
pub open spec fn client_index(clients: Seq<Client>, sel: Seq<char>) -> int {
    id_index_from(client_ids(clients), sel, 0)
}

/// The position of the first user whose id, written in decimal, is `sel`
/// (the number of users if there is none).
pub open spec fn user_index(users: Seq<User>, sel: Seq<char>) -> int {
    id_index_from(user_ids(users), sel, 0)
}

pub proof fn lemma_id_index_bounds(ids: Seq<i32>, sel: Seq<char>, i: int)
    requires
        0 <= i <= ids.len(),
    ensures
        i <= id_index_from(ids, sel, i) <= ids.len(),
        id_index_from(ids, sel, i) < ids.len() ==> decimal(ids[id_index_from(ids, sel, i)] as int)
            == sel,
        forall|j: int| i <= j < id_index_from(ids, sel, i) ==> decimal(ids[j] as int) != sel,
    decreases ids.len() - i,
{
    if i < ids.len() && decimal(ids[i] as int) != sel {
        lemma_id_index_bounds(ids, sel, i + 1);
    }
}

/// The position of the first client whose id is written `sel`, or the number
/// of clients when none is.
pub fn find_client(clients: &Vec<Client>, sel: &str) -> (r: usize)
    ensures
        r == client_index(clients@, sel@),
        r <= clients.len(),
{
    let ghost ids = client_ids(clients@);
    let mut i: usize = 0;
    while i < clients.len()
        invariant
            ids == client_ids(clients@),
            i <= clients.len(),
            id_index_from(ids, sel@, 0) == id_index_from(ids, sel@, i as int),
        decreases clients.len() - i,
    {
        let d = decimal_string(clients[i].id as i64);
        if same_text(d.as_str(), sel) {
            return i;
        }
        i += 1;
    }
    i
}

/// The position of the first user whose id is written `sel`, or the number
/// of users when none is.
pub fn find_user(users: &Vec<User>, sel: &str) -> (r: usize)
    ensures
        r == user_index(users@, sel@),
        r <= users.len(),
{
    let ghost ids = user_ids(users@);
    let mut i: usize = 0;
    while i < users.len()
        invariant
            ids == user_ids(users@),
            i <= users.len(),
            id_index_from(ids, sel@, 0) == id_index_from(ids, sel@, i as int),
        decreases users.len() - i,
    {
        let d = decimal_string(users[i].id as i64);
        if same_text(d.as_str(), sel) {
            return i;
        }
        i += 1;
    }
    i
}

// ---------------------------------------------------------------------------
// Tallies of units per product name
// ---------------------------------------------------------------------------

/// The index of the first entry at or after `i` of the tally `t` for `name`
/// (the length of `t` if there is none).
pub open spec fn entry_index_from(t: Seq<(String, i32)>, name: Seq<char>, i: int) -> int
    decreases t.len() - i,
{
    if i < 0 || i >= t.len() || t[i].0@ == name {
        i
    } else {
        entry_index_from(t, name, i + 1)
    }
}

/// The units that the tally `t` holds for `name`, if it has an entry for it.
pub open spec fn tally_get(t: Seq<(String, i32)>, name: Seq<char>) -> Option<i32> {
    let i = entry_index_from(t, name, 0);
    if i < t.len() {
        Some(t[i].1)
    } else {
        None
    }
}

/// The units of `name` in `t`, zero when it has no entry (`or_insert(0)`).
pub open spec fn tally_units(t: Seq<(String, i32)>, name: Seq<char>) -> int {
    match tally_get(t, name) {
        Some(v) => v as int,
        None => 0,
    }
}

/// The tally after adding `units` to the entry for `name` (a new entry at the
/// end when there is none), as `*entry(name).or_insert(0) += units` does.
pub open spec fn tally_add(t: Seq<(String, i32)>, name: String, units: i32) -> Seq<(String, i32)> {
    let i = entry_index_from(t, name@, 0);
    if i < t.len() {
        t.update(i, (t[i].0, (t[i].1 + units) as i32))
    } else {
        t.push((name, units))
    }
}

/// The tally after adding every line of `items`, in order.
pub open spec fn tally_items(t: Seq<(String, i32)>, items: Seq<SaleItem>) -> Seq<(String, i32)>
    decreases items.len(),
{
    if items.len() == 0 {
        t
    } else {
        let prev = tally_items(t, items.drop_last());
        tally_add(prev, items.last().name, items.last().stock)
    }
}

/// Whether adding the lines of `items` to `t` one by one keeps every tally in
/// the range of `i32`.
pub open spec fn tally_items_fit(t: Seq<(String, i32)>, items: Seq<SaleItem>) -> bool
    decreases items.len(),
{
    if items.len() == 0 {
        true
    } else {
        let prev = tally_items(t, items.drop_last());
        &&& tally_items_fit(t, items.drop_last())
        &&& i32::MIN <= tally_units(prev, items.last().name@) + items.last().stock <= i32::MAX
    }
}

pub proof fn lemma_entry_index_bounds(t: Seq<(String, i32)>, name: Seq<char>, i: int)
    requires
        0 <= i <= t.len(),
    ensures
        i <= entry_index_from(t, name, i) <= t.len(),
        entry_index_from(t, name, i) < t.len() ==> t[entry_index_from(t, name, i)].0@ == name,
        forall|j: int| i <= j < entry_index_from(t, name, i) ==> t[j].0@ != name,
    decreases t.len() - i,
{
    if i < t.len() && t[i].0@ != name {
        lemma_entry_index_bounds(t, name, i + 1);
    }
}


/// The units of the lines of `items` that name `name`.
pub open spec fn units_named(items: Seq<SaleItem>, name: Seq<char>) -> int
    decreases items.len(),
{
    if items.len() == 0 {
        0
    } else {
        units_named(items.drop_last(), name) + if items.last().name@ == name {
            items.last().stock as int
        } else {
            0
        }
    }
}

proof fn lemma_entry_index_same_keys(
    t1: Seq<(String, i32)>,
    t2: Seq<(String, i32)>,
    name: Seq<char>,
    k: int,
)
    requires
        t1.len() == t2.len(),
        0 <= k <= t1.len(),
        forall|j: int| 0 <= j < t1.len() ==> t1[j].0@ == t2[j].0@,
    ensures
        entry_index_from(t1, name, k) == entry_index_from(t2, name, k),
    decreases t1.len() - k,
{
    if k < t1.len() {
        lemma_entry_index_same_keys(t1, t2, name, k + 1);
    }
}

proof fn lemma_entry_index_push(t: Seq<(String, i32)>, x: (String, i32), name: Seq<char>, k: int)
    requires
        0 <= k <= t.len(),
    ensures
        entry_index_from(t.push(x), name, k) == (if entry_index_from(t, name, k) < t.len() {
            entry_index_from(t, name, k)
        } else if x.0@ == name {
            t.len() as int
        } else {
            t.len() + 1int
        }),
    decreases t.len() - k,
{
    if k < t.len() {
        lemma_entry_index_push(t, x, name, k + 1);
    } else {
        if x.0@ != name {
            assert(entry_index_from(t.push(x), name, k + 1) == k + 1);
        }
    }
}

/// Adding `units` of `n` to a tally adds them to the units of `n` and leaves
/// every other name's units as they were.
pub proof fn lemma_tally_add_units(t: Seq<(String, i32)>, n: String, units: i32, name: Seq<char>)
    requires
        i32::MIN <= tally_units(t, n@) + units <= i32::MAX,
    ensures
        tally_units(tally_add(t, n, units), name) == tally_units(t, name) + if n@ == name {
            units as int
        } else {
            0
        },
{
    let i = entry_index_from(t, n@, 0);
    lemma_entry_index_bounds(t, n@, 0);
    lemma_entry_index_bounds(t, name, 0);
    let t2 = tally_add(t, n, units);
    if i < t.len() {
        lemma_entry_index_same_keys(t, t2, name, 0);
        lemma_entry_index_bounds(t2, name, 0);
    } else {
        lemma_entry_index_push(t, (n, units), name, 0);
    }
}

/// Adding the lines of `items` to a tally, in order, adds to each name the
/// units of the lines with that name.
pub proof fn lemma_tally_items_units(t: Seq<(String, i32)>, items: Seq<SaleItem>, name: Seq<char>)
    requires
        tally_items_fit(t, items),
    ensures
        tally_units(tally_items(t, items), name) == tally_units(t, name) + units_named(items, name),
    decreases items.len(),
{
    if items.len() > 0 {
        lemma_tally_items_units(t, items.drop_last(), name);
        lemma_tally_add_units(
            tally_items(t, items.drop_last()),
            items.last().name,
            items.last().stock,
            name,
        );
    }
}

pub proof fn lemma_tally_fit_prefix(t: Seq<(String, i32)>, items: Seq<SaleItem>, k: int)
    requires
        tally_items_fit(t, items),
        0 <= k <= items.len(),
    ensures
        tally_items_fit(t, items.take(k)),
    decreases items.len(),
{
    if k == items.len() {
        assert(items.take(k) =~= items);
    } else {
        assert(items.drop_last().take(k) =~= items.take(k));
        lemma_tally_fit_prefix(t, items.drop_last(), k);
    }
}


/// Whether no product name occurs twice in the tally `t`.
pub open spec fn unique_names(t: Seq<(String, i32)>) -> bool {
    forall|i: int, j: int| 0 <= i < j < t.len() ==> t[i].0@ != t[j].0@
}

/// Whether every client's tally has distinct names.
pub open spec fn tallies_unique(cs: Seq<Client>) -> bool {
    forall|i: int| 0 <= i < cs.len() ==> unique_names(#[trigger] cs[i].id_shoppings@)
}

/// Adding units keeps the names of a tally distinct.
pub proof fn lemma_tally_add_keeps_unique(t: Seq<(String, i32)>, n: String, units: i32)
    requires
        unique_names(t),
    ensures
        unique_names(tally_add(t, n, units)),
{
    lemma_entry_index_bounds(t, n@, 0);
    let t2 = tally_add(t, n, units);
    if entry_index_from(t, n@, 0) < t.len() {
        assert forall|i: int, j: int| 0 <= i < j < t2.len() implies t2[i].0@ != t2[j].0@ by {
            assert(t2[i].0 == t[i].0 && t2[j].0 == t[j].0);
        }
    }
}

/// Adding the lines of a cart keeps the names of a tally distinct.
pub proof fn lemma_tally_items_keeps_unique(t: Seq<(String, i32)>, items: Seq<SaleItem>)
    requires
        unique_names(t),
    ensures
        unique_names(tally_items(t, items)),
    decreases items.len(),
{
    if items.len() > 0 {
        lemma_tally_items_keeps_unique(t, items.drop_last());
        lemma_tally_add_keeps_unique(
            tally_items(t, items.drop_last()),
            items.last().name,
            items.last().stock,
        );
    }
}

/// Where `name` first occurs in `t`, or the length of `t`.
pub fn find_entry(t: &Vec<(String, i32)>, name: &String) -> (r: usize)
    ensures
        r == entry_index_from(t@, name@, 0),
        r <= t.len(),
{
    let mut i: usize = 0;
    while i < t.len()
        invariant
            i <= t.len(),
            entry_index_from(t@, name@, 0) == entry_index_from(t@, name@, i as int),
        decreases t.len() - i,
    {
        if t[i].0 == *name {
            return i;
        }
        i += 1;
    }
    i
}

/// Adds `units` to the entry of `t` for `name`, or appends a new entry.
pub fn tally_add_exec(t: &mut Vec<(String, i32)>, name: String, units: i32)
    requires
        i32::MIN <= tally_units(old(t)@, name@) + units <= i32::MAX,
    ensures
        final(t)@ == tally_add(old(t)@, name, units),
        unique_names(old(t)@) ==> unique_names(final(t)@),
{
    proof {
        if unique_names(t@) {
            lemma_tally_add_keeps_unique(t@, name, units);
        }
    }
    let i = find_entry(t, &name);
    if i < t.len() {
        let (k, v) = t.remove(i);
        t.insert(i, (k, v + units));
        assert(t@ =~= tally_add(old(t)@, name, units));
    } else {
        t.push((name, units));
    }
}

} // verus!
