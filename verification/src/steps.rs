use vstd::prelude::*;

use crate::model::{
    client_ids, lemma_tally_items_keeps_unique, tallies_unique, unique_names, user_ids, Client,
    Screen, User,
};
use crate::program::{
    client_added, client_deletion_done, client_edit_confirmed, clients_without,
    delete_client_requested, delete_user_requested, edit_client_requested, edit_user_requested,
    ids_increasing, lemma_delete_keeps_client_ids_increasing,
    lemma_delete_keeps_user_ids_increasing, lemma_new_client_keeps_ids_increasing,
    lemma_new_user_keeps_ids_increasing, login_attempted, new_client_requested,
    new_user_requested, next_user_id, screen_selected, user_added, user_deletion_done,
    user_edit_confirmed, users_without, ProgramApp,
};
use crate::sale::{
    cancel_fits, cart_cancelled, cart_consistent, confirm_fits, entry_added, entry_fits,
    lemma_cancel_keeps_cart_consistent, lemma_confirm_keeps_cart_consistent,
    lemma_confirm_keeps_numbering, lemma_confirm_keeps_sales_priced,
    lemma_entry_keeps_cart_consistent, sale_confirmed, sales_numbered, sales_priced,
};
use crate::text::parse_i32_spec;

verus! {

/// Whether one event of the program, as the library carries it out, leads
/// from `pre` to `post`, on an input where it computes within range. These
/// are the button, key and dialog handlers of every screen; a frame of the
/// window runs some of them in turn.
pub open spec fn program_step(pre: ProgramApp, post: ProgramApp) -> bool {
    ||| post == pre
    ||| client_edit_confirmed(pre, post)
    ||| (parse_i32_spec(pre.client_age@) is Some && client_added(pre, post))
    ||| client_deletion_done(pre, post)
    ||| user_edit_confirmed(pre, post)
    ||| (next_user_id(pre.users@) <= i32::MAX && user_added(pre, post))
    ||| user_deletion_done(pre, post)
    ||| login_attempted(pre, post)
    ||| (exists|s: Screen| screen_selected(pre, post, s))
    ||| (exists|i: usize| i < pre.clients@.len() && edit_client_requested(pre, post, i))
    ||| (exists|i: usize| i < pre.clients@.len() && delete_client_requested(pre, post, i))
    ||| new_client_requested(pre, post)
    ||| (exists|i: usize| i < pre.users@.len() && edit_user_requested(pre, post, i))
    ||| (exists|i: usize| i < pre.users@.len() && delete_user_requested(pre, post, i))
    ||| new_user_requested(pre, post)
    ||| (exists|q: i32, n: Seq<char>| entry_fits(pre, q, n) && entry_added(pre, post, q, n))
    ||| (cancel_fits(pre) && cart_cancelled(pre, post))
    ||| (exists|d: String| confirm_fits(pre) && sale_confirmed(pre, post, d))
}

/// Whether only `admin` reaches the users screen and the admin actions: the
/// users screen is open only after an `admin` login, and a pending client
/// edit or deletion, or a user dialog or deletion, was asked for by `admin`.
pub open spec fn admin_guarded(s: ProgramApp) -> bool {
    &&& s.current_screen == Screen::Users ==> s.access_login && s.user@ == "admin"@
    &&& (s.delete_client || s.edit_client || s.delete_user || s.edit_user || s.new_user)
        ==> s.user@ == "admin"@
}

/// What every state of the program keeps: client and user ids run upwards,
/// every client's tally has distinct names, the total is the sum of the
/// cart's lines (and a cart with lines comes with products), sales are
/// numbered 1, 2, ... and each one's price is the sum of its lines, and only
/// `admin` reaches the admin actions.
pub open spec fn program_invariant(s: ProgramApp) -> bool {
    &&& ids_increasing(client_ids(s.clients@))
    &&& ids_increasing(user_ids(s.users@))
    &&& tallies_unique(s.clients@)
    &&& cart_consistent(s)
    &&& sales_numbered(s.sales_history@)
    &&& sales_priced(s.sales_history@)
    &&& admin_guarded(s)
}

/// A program just made over records whose ids run upwards and whose tallies
/// have distinct names keeps the invariant.
pub proof fn lemma_fresh_program_invariant(s: ProgramApp)
    requires
        ids_increasing(client_ids(s.clients@)),
        ids_increasing(user_ids(s.users@)),
        tallies_unique(s.clients@),
        s.cart@.len() == 0,
        s.price_all == 0,
        s.sales_history@.len() == 0,
        !s.access_login,
        s.current_screen == Screen::Panel,
        !s.delete_client && !s.edit_client && !s.delete_user && !s.edit_user && !s.new_user,
    ensures
        program_invariant(s),
{
    crate::sale::lemma_new_cart_consistent(s);
}

proof fn lemma_same_ids_and_tallies(pre: Seq<Client>, post: Seq<Client>)
    requires
        pre.len() == post.len(),
        forall|j: int|
            0 <= j < pre.len() ==> post[j].id == pre[j].id && post[j].id_shoppings
                == pre[j].id_shoppings,
    ensures
        client_ids(post) == client_ids(pre),
        tallies_unique(pre) ==> tallies_unique(post),
{
    assert(client_ids(post) =~= client_ids(pre));
    if tallies_unique(pre) {
        assert forall|j: int| 0 <= j < post.len() implies unique_names(
            #[trigger] post[j].id_shoppings@,
        ) by {
            assert(unique_names(pre[j].id_shoppings@));
        }
    }
}

proof fn lemma_deletion_keeps_tallies(cs: Seq<Client>, sel: Seq<char>)
    requires
        tallies_unique(cs),
    ensures
        tallies_unique(clients_without(cs, sel)),
{
    let pred = |c: Client| crate::text::decimal(c.id as int) != sel;
    let f = clients_without(cs, sel);
    assert forall|j: int| 0 <= j < f.len() implies unique_names(#[trigger] f[j].id_shoppings@) by {
        assert(f.contains(f[j]));
        cs.lemma_filter_contains_rev(pred, f[j]);
        let m = choose|m: int| 0 <= m < cs.len() && cs[m] == f[j];
        assert(unique_names(cs[m].id_shoppings@));
    }
}

proof fn lemma_confirm_keeps_tallies(pre: ProgramApp, post: ProgramApp, d: String)
    requires
        tallies_unique(pre.clients@),
        sale_confirmed(pre, post, d),
    ensures
        tallies_unique(post.clients@),
{
    if pre.cart@.len() > 0 {
        let k = crate::model::client_index(pre.clients@, pre.client_selected@);
        crate::model::lemma_id_index_bounds(client_ids(pre.clients@), pre.client_selected@, 0);
        if k < pre.clients@.len() {
            assert(unique_names(pre.clients@[k].id_shoppings@));
            lemma_tally_items_keeps_unique(pre.clients@[k].id_shoppings@, pre.cart@);
            assert forall|j: int| 0 <= j < post.clients@.len() implies unique_names(
                #[trigger] post.clients@[j].id_shoppings@,
            ) by {
                if j != k {
                    assert(post.clients@[j] == pre.clients@[j]);
                }
            }
        }
    }
}

proof fn lemma_user_edit_keeps_ids(pre: ProgramApp, post: ProgramApp)
    requires
        user_edit_confirmed(pre, post),
    ensures
        user_ids(post.users@) == user_ids(pre.users@),
{
    crate::model::lemma_id_index_bounds(user_ids(pre.users@), pre.client_selected@, 0);
    assert(user_ids(post.users@) =~= user_ids(pre.users@));
}

/// Every event of the program keeps its invariant (on a day with fewer than
/// `u32::MAX` sales, so that the next sale number is one more than the last).
pub proof fn lemma_step_keeps_invariant(pre: ProgramApp, post: ProgramApp)
    requires
        program_invariant(pre),
        pre.sales_history@.len() < u32::MAX,
        program_step(pre, post),
    ensures
        program_invariant(post),
{
    if post == pre {
    } else if client_edit_confirmed(pre, post) {
        crate::model::lemma_id_index_bounds(client_ids(pre.clients@), pre.client_selected@, 0);
        lemma_same_ids_and_tallies(pre.clients@, post.clients@);
    } else if parse_i32_spec(pre.client_age@) is Some && client_added(pre, post) {
        lemma_new_client_keeps_ids_increasing(pre, post);
        let n = pre.clients@.len();
        assert forall|j: int| 0 <= j < post.clients@.len() implies unique_names(
            #[trigger] post.clients@[j].id_shoppings@,
        ) by {
            if j < n {
                assert(post.clients@.drop_last()[j] == post.clients@[j]);
                assert(unique_names(pre.clients@[j].id_shoppings@));
            }
        }
    } else if client_deletion_done(pre, post) {
        if pre.delete_client {
            lemma_delete_keeps_client_ids_increasing(pre.clients@, pre.client_selected@);
            lemma_deletion_keeps_tallies(pre.clients@, pre.client_selected@);
        }
    } else if user_edit_confirmed(pre, post) {
        lemma_user_edit_keeps_ids(pre, post);
    } else if next_user_id(pre.users@) <= i32::MAX && user_added(pre, post) {
        lemma_new_user_keeps_ids_increasing(pre, post);
    } else if user_deletion_done(pre, post) {
        if pre.delete_user {
            lemma_delete_keeps_user_ids_increasing(pre.users@, pre.client_selected@);
        }
    } else if login_attempted(pre, post) {
    } else if exists|s: Screen| screen_selected(pre, post, s) {
    } else if exists|i: usize| i < pre.clients@.len() && edit_client_requested(pre, post, i) {
    } else if exists|i: usize| i < pre.clients@.len() && delete_client_requested(pre, post, i) {
    } else if new_client_requested(pre, post) {
    } else if exists|i: usize| i < pre.users@.len() && edit_user_requested(pre, post, i) {
    } else if exists|i: usize| i < pre.users@.len() && delete_user_requested(pre, post, i) {
    } else if new_user_requested(pre, post) {
    } else if exists|q: i32, n: Seq<char>| entry_fits(pre, q, n) && entry_added(pre, post, q, n) {
        let (q, n) = choose|q: i32, n: Seq<char>|
            entry_fits(pre, q, n) && entry_added(pre, post, q, n);
        lemma_entry_keeps_cart_consistent(pre, post, q, n);
    } else if cancel_fits(pre) && cart_cancelled(pre, post) {
        lemma_cancel_keeps_cart_consistent(pre, post);
    } else {
        let d = choose|d: String| confirm_fits(pre) && sale_confirmed(pre, post, d);
        lemma_confirm_keeps_cart_consistent(pre, post, d);
        lemma_confirm_keeps_sales_priced(pre, post, d);
        lemma_confirm_keeps_numbering(pre, post, d);
        lemma_confirm_keeps_tallies(pre, post, d);
        crate::model::lemma_id_index_bounds(client_ids(pre.clients@), pre.client_selected@, 0);
        assert(client_ids(post.clients@) =~= client_ids(pre.clients@));
    }
}

/// What an event may change of the products and the sales: the products
/// keep their number, ids, names and prices (only stock moves), the recorded
/// sales stay as they were with at most one new sale after them, and access
/// once granted is kept.
pub proof fn lemma_step_frame(pre: ProgramApp, post: ProgramApp)
    requires
        program_step(pre, post),
    ensures
        post.products@.len() == pre.products@.len(),
        forall|i: int|
            0 <= i < pre.products@.len() ==> {
                &&& #[trigger] post.products@[i].id == pre.products@[i].id
                &&& post.products@[i].name == pre.products@[i].name
                &&& post.products@[i].price == pre.products@[i].price
            },
        pre.sales_history@.len() <= post.sales_history@.len() <= pre.sales_history@.len() + 1,
        post.sales_history@.take(pre.sales_history@.len() as int) == pre.sales_history@,
        pre.access_login ==> post.access_login,
{
    let n = pre.sales_history@.len() as int;
    if exists|d: String| confirm_fits(pre) && sale_confirmed(pre, post, d) {
        let d = choose|d: String| confirm_fits(pre) && sale_confirmed(pre, post, d);
        if pre.cart@.len() > 0
            && crate::model::client_index(pre.clients@, pre.client_selected@) < pre.clients@.len() {
            assert(post.sales_history@.take(n) =~= pre.sales_history@);
        }
    }
    assert(pre.sales_history@.take(n) =~= pre.sales_history@);
}

} // verus!
