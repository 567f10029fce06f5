use vstd::prelude::*;

use crate::model::{
    client_index, find_client, find_user, user_index, Client, Product, Sale, SaleItem, Screen,
    User,
};
use crate::text::{decimal, decimal_string, folded, latin1_lower, latin1_text, parse_i32, parse_i32_spec, same_text, to_lowercase};

verus! {

/// The state of the shop program: the records it keeps and what the screens
/// have been given.
///
/// `user` and `password` are the login fields; `client_selected`,
/// `client_name` and `client_age` are the fields of the dialogs (for a user,
/// `client_age` holds the password); `product` is the sale entry field.
pub struct ProgramApp {
    pub user: String,
    pub password: String,
    pub users: Vec<User>,
    pub clients: Vec<Client>,
    pub access_login: bool,
    pub current_screen: Screen,
    pub product: String,
    pub products: Vec<Product>,
    pub error_stock: String,
    pub cart: Vec<SaleItem>,
    pub price_all: i32,
    pub edit_user: bool,
    pub new_user: bool,
    pub delete_user: bool,
    pub client_selected: String,
    pub edit_client: bool,
    pub new_client: bool,
    pub client_name: String,
    pub client_age: String,
    pub delete_client: bool,
    pub sales_history: Vec<Sale>,
}

/// Moves the text out of `s`, leaving it empty.
fn take_string(s: &mut String) -> (r: String)
    ensures
        r == *old(s),
        final(s)@ == Seq::<char>::empty(),
{
    let mut r = String::new();
    std::mem::swap(&mut r, s);
    r
}

/// The id that a new client gets: one more than the last client's, or 0.
pub open spec fn next_client_id(clients: Seq<Client>) -> int {
    if clients.len() > 0 {
        clients.last().id + 1
    } else {
        0
    }
}

/// The id that a new user gets: one more than the last user's, or 1.
pub open spec fn next_user_id(users: Seq<User>) -> int {
    if users.len() > 0 {
        users.last().id + 1
    } else {
        1
    }
}

/// Whether some user has the name `user` (compared in lowercase) and the
/// password `pw`.
pub open spec fn login_matches(users: Seq<User>, user: Seq<char>, pw: Seq<char>) -> bool {
    exists|i: int|
        0 <= i < users.len() && folded(#[trigger] users[i].name@) == folded(user)
            && users[i].pw@ == pw
}

/// The clients whose id is not written `sel`, in their order.
pub open spec fn clients_without(clients: Seq<Client>, sel: Seq<char>) -> Seq<Client> {
    clients.filter(|c: Client| decimal(c.id as int) != sel)
}

/// The users whose id is not written `sel`, in their order.
pub open spec fn users_without(users: Seq<User>, sel: Seq<char>) -> Seq<User> {
    users.filter(|u: User| decimal(u.id as int) != sel)
}

fn retain_clients(clients: Vec<Client>, sel: &str) -> (r: Vec<Client>)
    ensures
        r@ == clients_without(clients@, sel@),
{
    let ghost pred = |c: Client| decimal(c.id as int) != sel@;
    let mut r: Vec<Client> = Vec::new();
    for c in it: clients.into_iter()
        invariant
            it.seq() == clients@,
            pred == (|c: Client| decimal(c.id as int) != sel@),
            r@ == it.seq().take(it.index() as int).filter(pred),
    {
        let ghost k = it.index();
        let ghost prev = it.seq().take(k);
        proof {
            assert(it.seq().take(k + 1) =~= prev.push(c));
            prev.lemma_filter_push(c, pred);
        }
        let d = decimal_string(c.id as i64);
        if !same_text(d.as_str(), sel) {
            r.push(c);
        }
    }
    assert(clients@.take(clients@.len() as int) =~= clients@);
    r
}

fn retain_users(users: Vec<User>, sel: &str) -> (r: Vec<User>)
    ensures
        r@ == users_without(users@, sel@),
{
    let ghost pred = |u: User| decimal(u.id as int) != sel@;
    let mut r: Vec<User> = Vec::new();
    for u in it: users.into_iter()
        invariant
            it.seq() == users@,
            pred == (|u: User| decimal(u.id as int) != sel@),
            r@ == it.seq().take(it.index() as int).filter(pred),
    {
        let ghost k = it.index();
        let ghost prev = it.seq().take(k);
        proof {
            assert(it.seq().take(k + 1) =~= prev.push(u));
            prev.lemma_filter_push(u, pred);
        }
        let d = decimal_string(u.id as i64);
        if !same_text(d.as_str(), sel) {
            r.push(u);
        }
    }
    assert(users@.take(users@.len() as int) =~= users@);
    r
}

/// What confirming the client dialog does (see `confirm_edit_client`).
pub open spec fn client_edit_confirmed(pre: ProgramApp, post: ProgramApp) -> bool {
    let k = client_index(pre.clients@, pre.client_selected@);
    if k < pre.clients.len() {
        &&& post.clients@ == pre.clients@.update(
            k,
            Client {
                name: pre.client_name,
                age: parse_i32_spec(pre.client_age@).unwrap(),
                ..pre.clients@[k]
            },
        )
        &&& post.client_name@ == Seq::<char>::empty()
        &&& post.client_age@ == Seq::<char>::empty()
        &&& post == (ProgramApp {
            clients: post.clients,
            edit_client: false,
            client_name: post.client_name,
            client_age: post.client_age,
            ..pre
        })
    } else {
        post == pre
    }
}

/// What confirming the new-client dialog does (see `confirm_new_client`).
pub open spec fn client_added(pre: ProgramApp, post: ProgramApp) -> bool {
    &&& post.clients@.len() == pre.clients@.len() + 1
    &&& post.clients@.drop_last() == pre.clients@
    &&& post.clients@.last().id == next_client_id(pre.clients@)
    &&& post.clients@.last().name == pre.client_name
    &&& post.clients@.last().age == parse_i32_spec(pre.client_age@).unwrap()
    &&& post.clients@.last().id_shoppings@.len() == 0
    &&& post.client_name@ == Seq::<char>::empty()
    &&& post.client_age@ == Seq::<char>::empty()
    &&& post == (ProgramApp {
        clients: post.clients,
        new_client: false,
        client_name: post.client_name,
        client_age: post.client_age,
        ..pre
    })
}

/// What confirming the user dialog does (see `confirm_edit_user`).
pub open spec fn user_edit_confirmed(pre: ProgramApp, post: ProgramApp) -> bool {
    let k = user_index(pre.users@, pre.client_selected@);
    if k < pre.users.len() {
        &&& post.users@ == pre.users@.update(
            k,
            User {
                name: pre.client_name,
                pw: pre.client_age,
                ..pre.users@[k]
            },
        )
        &&& post.client_name@ == Seq::<char>::empty()
        &&& post.client_age@ == Seq::<char>::empty()
        &&& post == (ProgramApp {
            users: post.users,
            edit_user: false,
            client_name: post.client_name,
            client_age: post.client_age,
            ..pre
        })
    } else {
        post == pre
    }
}

/// What confirming the new-user dialog does (see `confirm_new_user`).
pub open spec fn user_added(pre: ProgramApp, post: ProgramApp) -> bool {
    &&& post.users@ == pre.users@.push(
        User {
            id: next_user_id(pre.users@) as i32,
            name: pre.client_name,
            pw: pre.client_age,
        },
    )
    &&& post.client_name@ == Seq::<char>::empty()
    &&& post.client_age@ == Seq::<char>::empty()
    &&& post == (ProgramApp {
        users: post.users,
        new_user: false,
        client_name: post.client_name,
        client_age: post.client_age,
        ..pre
    })
}

/// Whether the clients panel is on screen with its admin buttons.
pub open spec fn admin_panel(app: ProgramApp) -> bool {
    app.access_login && app.current_screen == Screen::Panel && app.user@ == "admin"@
}

/// Whether the users screen is on screen.
pub open spec fn users_screen(app: ProgramApp) -> bool {
    app.access_login && app.current_screen == Screen::Users
}

/// What the edit button of client row `idx` does (see `request_edit_client`).
pub open spec fn edit_client_requested(pre: ProgramApp, post: ProgramApp, idx: usize) -> bool {
    if admin_panel(pre) {
        &&& post.client_selected@ == decimal(pre.clients@[idx as int].id as int)
        &&& post.client_age@ == decimal(pre.clients@[idx as int].age as int)
        &&& post == (ProgramApp {
            edit_client: true,
            client_selected: post.client_selected,
            client_name: pre.clients@[idx as int].name,
            client_age: post.client_age,
            ..pre
        })
    } else {
        post == pre
    }
}

/// What the edit button of user row `idx` does (see `request_edit_user`).
pub open spec fn edit_user_requested(pre: ProgramApp, post: ProgramApp, idx: usize) -> bool {
    if users_screen(pre) {
        &&& post.client_selected@ == decimal(pre.users@[idx as int].id as int)
        &&& post == (ProgramApp {
            edit_user: true,
            client_selected: post.client_selected,
            client_age: pre.users@[idx as int].pw,
            client_name: pre.users@[idx as int].name,
            ..pre
        })
    } else {
        post == pre
    }
}

/// What the delete button of client row `idx` does (see
/// `request_delete_client`).
pub open spec fn delete_client_requested(pre: ProgramApp, post: ProgramApp, idx: usize) -> bool {
    if admin_panel(pre) {
        &&& post.client_selected@ == decimal(pre.clients@[idx as int].id as int)
        &&& post == (ProgramApp {
            delete_client: true,
            client_selected: post.client_selected,
            ..pre
        })
    } else {
        post == pre
    }
}

/// What the delete button of user row `idx` does (see `request_delete_user`).
pub open spec fn delete_user_requested(pre: ProgramApp, post: ProgramApp, idx: usize) -> bool {
    if users_screen(pre) {
        &&& post.client_selected@ == decimal(pre.users@[idx as int].id as int)
        &&& post == (ProgramApp {
            delete_user: true,
            client_selected: post.client_selected,
            ..pre
        })
    } else {
        post == pre
    }
}

/// What the new-client button does (see `request_new_client`).
pub open spec fn new_client_requested(pre: ProgramApp, post: ProgramApp) -> bool {
    if pre.access_login && pre.current_screen == Screen::Panel {
        post == (ProgramApp { new_client: true, ..pre })
    } else {
        post == pre
    }
}

/// What the new-user button does (see `request_new_user`).
pub open spec fn new_user_requested(pre: ProgramApp, post: ProgramApp) -> bool {
    if users_screen(pre) {
        post == (ProgramApp { new_user: true, ..pre })
    } else {
        post == pre
    }
}

/// What a pending client deletion does (see `delete_client_if_requested`).
pub open spec fn client_deletion_done(pre: ProgramApp, post: ProgramApp) -> bool {
    if pre.delete_client {
        &&& post.clients@ == clients_without(pre.clients@, pre.client_selected@)
        &&& post == (ProgramApp { clients: post.clients, delete_client: false, ..pre })
    } else {
        post == pre
    }
}

/// What a pending user deletion does (see `delete_user_if_requested`).
pub open spec fn user_deletion_done(pre: ProgramApp, post: ProgramApp) -> bool {
    if pre.delete_user {
        &&& post.users@ == users_without(pre.users@, pre.client_selected@)
        &&& post == (ProgramApp { users: post.users, delete_user: false, ..pre })
    } else {
        post == pre
    }
}

/// What checking the login fields does (see `attempt_login`).
pub open spec fn login_attempted(pre: ProgramApp, post: ProgramApp) -> bool {
    post == (ProgramApp {
        access_login: pre.access_login || (pre.user@.len() > 0 && pre.password@.len() > 0
            && login_matches(pre.users@, pre.user@, pre.password@)),
        ..pre
    })
}

/// What choosing `screen` in the side panel does (see `select_screen`).
pub open spec fn screen_selected(pre: ProgramApp, post: ProgramApp, screen: Screen) -> bool {
    if pre.access_login && (screen != Screen::Users || pre.user@ == "admin"@) {
        post == (ProgramApp { current_screen: screen, ..pre })
    } else {
        post == pre
    }
}

impl ProgramApp {
    /// A fresh program over the given records: nobody logged in, the panel
    /// screen, every field empty, no cart and no sales.
    pub fn new(users: Vec<User>, clients: Vec<Client>, products: Vec<Product>) -> (r: Self)
        ensures
            r.users == users,
            r.clients == clients,
            r.products == products,
            r.user@ == Seq::<char>::empty(),
            r.password@ == Seq::<char>::empty(),
            !r.access_login,
            r.current_screen == Screen::Panel,
            r.product@ == Seq::<char>::empty(),
            r.error_stock@ == Seq::<char>::empty(),
            r.cart@.len() == 0,
            r.price_all == 0,
            !r.edit_user,
            !r.new_user,
            !r.delete_user,
            r.client_selected@ == Seq::<char>::empty(),
            !r.edit_client,
            !r.new_client,
            r.client_name@ == Seq::<char>::empty(),
            r.client_age@ == Seq::<char>::empty(),
            !r.delete_client,
            r.sales_history@.len() == 0,
    {
        ProgramApp {
            user: String::new(),
            password: String::new(),
            users,
            clients,
            access_login: false,
            current_screen: Screen::Panel,
            product: String::new(),
            products,
            error_stock: String::new(),
            cart: Vec::new(),
            price_all: 0,
            edit_user: false,
            new_user: false,
            delete_user: false,
            client_selected: String::new(),
            edit_client: false,
            new_client: false,
            client_name: String::new(),
            client_age: String::new(),
            delete_client: false,
            sales_history: Vec::new(),
        }
    }

    /// Confirms the client dialog: the first client whose id is written in
    /// `client_selected` takes the name in `client_name` and the age in
    /// `client_age`; the dialog closes and its fields are emptied. Without such
    /// a client nothing happens.
    pub fn confirm_edit_client(&mut self)
        requires
            client_index(old(self).clients@, old(self).client_selected@) < old(self).clients.len()
                ==> parse_i32_spec(old(self).client_age@) is Some,
        ensures
            client_edit_confirmed(*old(self), *final(self)),
    {
        let k = find_client(&self.clients, self.client_selected.as_str());
        if k < self.clients.len() {
            let age = parse_i32(self.client_age.as_str()).unwrap();
            let name = take_string(&mut self.client_name);
            let _ = take_string(&mut self.client_age);
            let c = self.clients.remove(k);
            self.clients.insert(k, Client { id: c.id, name, age, id_shoppings: c.id_shoppings });
            self.edit_client = false;
            assert(self.clients@ =~= old(self).clients@.update(
                k as int,
                Client {
                    name: old(self).client_name,
                    age: parse_i32_spec(old(self).client_age@).unwrap(),
                    ..old(self).clients@[k as int]
                },
            ));
        }
    }

    /// Confirms the new-client dialog: a client with the next id (one more
    /// than the last client's, or 0), the name in `client_name`, the age in
    /// `client_age` and no purchases joins the end of the list; the dialog
    /// closes and its fields are emptied.
    pub fn confirm_new_client(&mut self)
        requires
            parse_i32_spec(old(self).client_age@) is Some,
            next_client_id(old(self).clients@) <= i32::MAX,
        ensures
            client_added(*old(self), *final(self)),
    {
        let age = parse_i32(self.client_age.as_str()).unwrap();
        let n = self.clients.len();
        let id: i32 = if n > 0 {
            self.clients[n - 1].id + 1
        } else {
            0
        };
        let name = take_string(&mut self.client_name);
        let _ = take_string(&mut self.client_age);
        self.clients.push(Client { id, name, age, id_shoppings: Vec::new() });
        self.new_client = false;
        assert(self.clients@.drop_last() =~= old(self).clients@);
    }

    /// Removes, when a deletion was asked for, every client whose id is
    /// written in `client_selected`, keeping the others in order; the request
    /// is then cleared.
    pub fn delete_client_if_requested(&mut self)
        ensures
            client_deletion_done(*old(self), *final(self)),
    {
        if self.delete_client {
            self.delete_client = false;
            let mut all: Vec<Client> = Vec::new();
            std::mem::swap(&mut all, &mut self.clients);
            self.clients = retain_clients(all, self.client_selected.as_str());
        }
    }

    /// Confirms the user dialog: the first user whose id is written in
    /// `client_selected` takes the name in `client_name` and the password in
    /// `client_age`; the dialog closes and its fields are emptied. Without such
    /// a user nothing happens.
    pub fn confirm_edit_user(&mut self)
        ensures
            user_edit_confirmed(*old(self), *final(self)),
    {
        let k = find_user(&self.users, self.client_selected.as_str());
        if k < self.users.len() {
            let name = take_string(&mut self.client_name);
            let pw = take_string(&mut self.client_age);
            let u = self.users.remove(k);
            self.users.insert(k, User { id: u.id, name, pw });
            self.edit_user = false;
            assert(self.users@ =~= old(self).users@.update(
                k as int,
                User { name: old(self).client_name, pw: old(self).client_age, ..old(self).users@[k as int] },
            ));
        }
    }

    /// Confirms the new-user dialog: a user with the next id (one more than
    /// the last user's, or 1), the name in `client_name` and the password in
    /// `client_age` joins the end of the list; the dialog closes and its fields
    /// are emptied.
    pub fn confirm_new_user(&mut self)
        requires
            next_user_id(old(self).users@) <= i32::MAX,
        ensures
            user_added(*old(self), *final(self)),
    {
        let n = self.users.len();
        let id: i32 = if n > 0 {
            self.users[n - 1].id + 1
        } else {
            1
        };
        let name = take_string(&mut self.client_name);
        let pw = take_string(&mut self.client_age);
        self.users.push(User { id, name, pw });
        self.new_user = false;
    }

    /// Removes, when a deletion was asked for, every user whose id is written
    /// in `client_selected`, keeping the others in order; the request is then
    /// cleared.
    pub fn delete_user_if_requested(&mut self)
        ensures
            user_deletion_done(*old(self), *final(self)),
    {
        if self.delete_user {
            self.delete_user = false;
            let mut all: Vec<User> = Vec::new();
            std::mem::swap(&mut all, &mut self.users);
            self.users = retain_users(all, self.client_selected.as_str());
        }
    }

    /// Checks the login fields: when both are filled in and some user has that
    /// name (compared in lowercase) and that password, access is granted.
    /// Access once granted is kept.
    pub fn attempt_login(&mut self)
        ensures
            login_attempted(*old(self), *final(self)),
    {
        if self.user.as_str().is_empty() || self.password.as_str().is_empty() {
            return;
        }
        let wanted = to_lowercase(self.user.as_str());
        let mut found = false;
        let mut i: usize = 0;
        while i < self.users.len()
            invariant
                i <= self.users.len(),
                wanted@ == folded(self.user@),
                found <==> exists|j: int|
                    0 <= j < i && folded(#[trigger] self.users@[j].name@) == folded(self.user@)
                        && self.users@[j].pw@ == self.password@,
            decreases self.users.len() - i,
        {
            let name = to_lowercase(self.users[i].name.as_str());
            if name == wanted && self.users[i].pw == self.password {
                found = true;
            }
            i += 1;
        }
        if found {
            self.access_login = true;
        }
    }

    /// Whether the login field holds exactly `admin`.
    pub fn is_admin(&self) -> (r: bool)
        ensures
            r == (self.user@ == "admin"@),
    {
        same_text(self.user.as_str(), "admin")
    }

    /// Chooses a screen from the side panel, which exists only after login;
    /// the users screen is offered only when the login name is `admin`.
    pub fn select_screen(&mut self, screen: Screen)
        ensures
            screen_selected(*old(self), *final(self), screen),
    {
        if self.access_login && (screen != Screen::Users || self.is_admin()) {
            self.current_screen = screen;
        }
    }

    /// The edit button of a client row on the clients panel, offered to
    /// `admin` only: opens the client dialog on that client, filled with its
    /// name and age.
    pub fn request_edit_client(&mut self, idx: usize)
        requires
            idx < old(self).clients.len(),
        ensures
            edit_client_requested(*old(self), *final(self), idx),
    {
        if self.access_login && self.current_screen == Screen::Panel && self.is_admin() {
            self.edit_client = true;
            self.client_selected = decimal_string(self.clients[idx].id as i64);
            self.client_name = self.clients[idx].name.clone();
            self.client_age = decimal_string(self.clients[idx].age as i64);
        }
    }

    /// The delete button of a client row on the clients panel, offered to
    /// `admin` only: selects that client's id and asks for the deletion.
    pub fn request_delete_client(&mut self, idx: usize)
        requires
            idx < old(self).clients.len(),
        ensures
            delete_client_requested(*old(self), *final(self), idx),
    {
        if self.access_login && self.current_screen == Screen::Panel && self.is_admin() {
            self.client_selected = decimal_string(self.clients[idx].id as i64);
            self.delete_client = true;
        }
    }

    /// The new-client button of the clients panel: opens the new-client
    /// dialog.
    pub fn request_new_client(&mut self)
        ensures
            new_client_requested(*old(self), *final(self)),
    {
        if self.access_login && self.current_screen == Screen::Panel {
            self.new_client = true;
        }
    }

    /// The edit button of a user row on the users screen: opens the user
    /// dialog on that user, filled with its name and password.
    pub fn request_edit_user(&mut self, idx: usize)
        requires
            idx < old(self).users.len(),
        ensures
            edit_user_requested(*old(self), *final(self), idx),
    {
        if self.access_login && self.current_screen == Screen::Users {
            self.edit_user = true;
            self.client_selected = decimal_string(self.users[idx].id as i64);
            self.client_age = self.users[idx].pw.clone();
            self.client_name = self.users[idx].name.clone();
        }
    }

    /// The delete button of a user row on the users screen: selects that
    /// user's id and asks for the deletion.
    pub fn request_delete_user(&mut self, idx: usize)
        requires
            idx < old(self).users.len(),
        ensures
            delete_user_requested(*old(self), *final(self), idx),
    {
        if self.access_login && self.current_screen == Screen::Users {
            self.delete_user = true;
            self.client_selected = decimal_string(self.users[idx].id as i64);
        }
    }

    /// The new-user button of the users screen: opens the new-user dialog.
    pub fn request_new_user(&mut self)
        ensures
            new_user_requested(*old(self), *final(self)),
    {
        if self.access_login && self.current_screen == Screen::Users {
            self.new_user = true;
        }
    }
}

// ---------------------------------------------------------------------------
// Laws of the client and user records
// ---------------------------------------------------------------------------

/// Whether the ids run strictly upwards.
pub open spec fn ids_increasing(ids: Seq<i32>) -> bool {
    forall|i: int, j: int| 0 <= i < j < ids.len() ==> ids[i] < ids[j]
}

/// Opening the client dialog on row `idx` (as `admin` on the clients panel)
/// and confirming it without touching its fields leaves the clients as they
/// were, when that row is the first one with its id.
pub proof fn lemma_edit_client_untouched(a: ProgramApp, b: ProgramApp, c: ProgramApp, idx: usize)
    requires
        idx < a.clients@.len(),
        admin_panel(a),
        client_index(a.clients@, decimal(a.clients@[idx as int].id as int)) == idx,
        edit_client_requested(a, b, idx),
        client_edit_confirmed(b, c),
    ensures
        c.clients@ == a.clients@,
{
    crate::text::lemma_parse_decimal_roundtrip(a.clients@[idx as int].age);
    assert(c.clients@ =~= a.clients@);
}

/// Opening the user dialog on row `idx` of the users screen and confirming
/// it without touching its fields leaves the users as they were, when that
/// row is the first one with its id.
pub proof fn lemma_edit_user_untouched(a: ProgramApp, b: ProgramApp, c: ProgramApp, idx: usize)
    requires
        idx < a.users@.len(),
        users_screen(a),
        user_index(a.users@, decimal(a.users@[idx as int].id as int)) == idx,
        edit_user_requested(a, b, idx),
        user_edit_confirmed(b, c),
    ensures
        c.users@ == a.users@,
{
    assert(c.users@ =~= a.users@);
}

/// A new client's id is above every id before it, so ids that run upwards
/// keep doing so.
pub proof fn lemma_new_client_keeps_ids_increasing(pre: ProgramApp, post: ProgramApp)
    requires
        ids_increasing(crate::model::client_ids(pre.clients@)),
        client_added(pre, post),
    ensures
        ids_increasing(crate::model::client_ids(post.clients@)),
{
    let n = pre.clients@.len();
    let ids = crate::model::client_ids(post.clients@);
    let pre_ids = crate::model::client_ids(pre.clients@);
    assert(post.clients@.len() == n + 1);
    assert forall|i: int| 0 <= i < n implies ids[i] == pre_ids[i] by {
        assert(post.clients@.drop_last()[i] == post.clients@[i]);
    }
    assert forall|i: int, j: int| 0 <= i < j < ids.len() implies ids[i] < ids[j] by {
        if j == n && i < n - 1 {
            assert(pre_ids[i] < pre_ids[n - 1]);
        }
    }
}

/// A new user's id is above every id before it, so ids that run upwards
/// keep doing so.
pub proof fn lemma_new_user_keeps_ids_increasing(pre: ProgramApp, post: ProgramApp)
    requires
        ids_increasing(crate::model::user_ids(pre.users@)),
        next_user_id(pre.users@) <= i32::MAX,
        user_added(pre, post),
    ensures
        ids_increasing(crate::model::user_ids(post.users@)),
{
    let n = pre.users@.len();
    let ids = crate::model::user_ids(post.users@);
    let pre_ids = crate::model::user_ids(pre.users@);
    assert(post.users@.len() == n + 1);
    assert forall|i: int| 0 <= i < n implies ids[i] == pre_ids[i] by {
        assert(post.users@.drop_last()[i] == post.users@[i]);
    }
    assert forall|i: int, j: int| 0 <= i < j < ids.len() implies ids[i] < ids[j] by {
        if j == n && i < n - 1 {
            assert(pre_ids[i] < pre_ids[n - 1]);
        }
    }
}

/// After deleting the clients whose id is written `sel`, none is left to
/// select with `sel`, and every other client is still there.
pub proof fn lemma_deleted_client_gone(cs: Seq<Client>, sel: Seq<char>)
    ensures
        client_index(clients_without(cs, sel), sel) == clients_without(cs, sel).len(),
        forall|i: int|
            0 <= i < cs.len() && decimal(cs[i].id as int) != sel ==> clients_without(
                cs,
                sel,
            ).contains(#[trigger] cs[i]),
{
    let pred = |c: Client| decimal(c.id as int) != sel;
    let f = clients_without(cs, sel);
    let ids = crate::model::client_ids(f);
    crate::model::lemma_id_index_bounds(ids, sel, 0);
    let k = client_index(f, sel);
    if k < f.len() {
        cs.lemma_filter_pred(pred, k);
    }
    assert forall|i: int| 0 <= i < cs.len() && decimal(cs[i].id as int) != sel implies f.contains(
        #[trigger] cs[i],
    ) by {
        cs.lemma_filter_contains(pred, i);
    }
}

/// After deleting the users whose id is written `sel`, none is left to select
/// with `sel`, and every other user is still there.
pub proof fn lemma_deleted_user_gone(us: Seq<User>, sel: Seq<char>)
    ensures
        user_index(users_without(us, sel), sel) == users_without(us, sel).len(),
        forall|i: int|
            0 <= i < us.len() && decimal(us[i].id as int) != sel ==> users_without(
                us,
                sel,
            ).contains(#[trigger] us[i]),
{
    let pred = |u: User| decimal(u.id as int) != sel;
    let f = users_without(us, sel);
    let ids = crate::model::user_ids(f);
    crate::model::lemma_id_index_bounds(ids, sel, 0);
    let k = user_index(f, sel);
    if k < f.len() {
        us.lemma_filter_pred(pred, k);
    }
    assert forall|i: int| 0 <= i < us.len() && decimal(us[i].id as int) != sel implies f.contains(
        #[trigger] us[i],
    ) by {
        us.lemma_filter_contains(pred, i);
    }
}

proof fn lemma_filter_keeps_increasing<A>(s: Seq<A>, id: spec_fn(A) -> i32, pred: spec_fn(A) -> bool)
    requires
        forall|i: int, j: int| 0 <= i < j < s.len() ==> id(s[i]) < id(s[j]),
    ensures
        forall|i: int, j: int|
            0 <= i < j < s.filter(pred).len() ==> id(s.filter(pred)[i]) < id(s.filter(pred)[j]),
    decreases s.len(),
{
    if s.len() > 0 {
        let prev = s.drop_last();
        let x = s.last();
        lemma_filter_keeps_increasing(prev, id, pred);
        assert(s =~= prev.push(x));
        prev.lemma_filter_push(x, pred);
        let fp = prev.filter(pred);
        assert forall|k: int| 0 <= k < fp.len() implies id(fp[k]) < id(x) by {
            assert(fp.contains(fp[k]));
            prev.lemma_filter_contains_rev(pred, fp[k]);
            let m = choose|m: int| 0 <= m < prev.len() && prev[m] == fp[k];
            assert(prev[m] == s[m]);
        }
    }
}

/// Deleting clients keeps ids that run upwards running upwards.
pub proof fn lemma_delete_keeps_client_ids_increasing(cs: Seq<Client>, sel: Seq<char>)
    requires
        ids_increasing(crate::model::client_ids(cs)),
    ensures
        ids_increasing(crate::model::client_ids(clients_without(cs, sel))),
{
    let id = |c: Client| c.id;
    let pred = |c: Client| decimal(c.id as int) != sel;
    assert forall|i: int, j: int| 0 <= i < j < cs.len() implies id(cs[i]) < id(cs[j]) by {
        assert(crate::model::client_ids(cs)[i] == cs[i].id);
        assert(crate::model::client_ids(cs)[j] == cs[j].id);
    }
    lemma_filter_keeps_increasing(cs, id, pred);
}

/// Deleting users keeps ids that run upwards running upwards.
pub proof fn lemma_delete_keeps_user_ids_increasing(us: Seq<User>, sel: Seq<char>)
    requires
        ids_increasing(crate::model::user_ids(us)),
    ensures
        ids_increasing(crate::model::user_ids(users_without(us, sel))),
{
    let id = |u: User| u.id;
    let pred = |u: User| decimal(u.id as int) != sel;
    assert forall|i: int, j: int| 0 <= i < j < us.len() implies id(us[i]) < id(us[j]) by {
        assert(crate::model::user_ids(us)[i] == us[i].id);
        assert(crate::model::user_ids(us)[j] == us[j].id);
    }
    lemma_filter_keeps_increasing(us, id, pred);
}

/// Logging in ignores the case of the name: when a user's name and the typed
/// name are Latin-1 texts that differ only in the case of their letters
/// (accented capitals included) and the password is that user's, access is
/// granted.
pub proof fn lemma_login_ignores_case(pre: ProgramApp, post: ProgramApp, i: int)
    requires
        0 <= i < pre.users@.len(),
        pre.user@.len() > 0,
        pre.password@ == pre.users@[i].pw@,
        pre.password@.len() > 0,
        latin1_text(pre.users@[i].name@),
        latin1_text(pre.user@),
        pre.users@[i].name@.len() == pre.user@.len(),
        forall|j: int|
            0 <= j < pre.user@.len() ==> latin1_lower(#[trigger] pre.users@[i].name@[j])
                == latin1_lower(pre.user@[j]),
        login_attempted(pre, post),
    ensures
        post.access_login,
{
    crate::text::lemma_lowercase_ignores_latin1_case(pre.users@[i].name@, pre.user@);
    assert(login_matches(pre.users@, pre.user@, pre.password@));
}

/// Confirming the user dialog on an existing id gives the first user with
/// that id the dialog's name and password, keeps its id, and leaves every
/// other user as it was.
pub proof fn lemma_user_edit_takes_dialog(pre: ProgramApp, post: ProgramApp)
    requires
        user_edit_confirmed(pre, post),
        exists|j: int| 0 <= j < pre.users@.len() && decimal(pre.users@[j].id as int) == pre.client_selected@,
    ensures
        post.users@.len() == pre.users@.len(),
        exists|j: int|
            0 <= j < pre.users@.len() && decimal(pre.users@[j].id as int) == pre.client_selected@
                && (forall|m: int| 0 <= m < j ==> decimal(pre.users@[m].id as int) != pre.client_selected@)
                && post.users@[j].id == pre.users@[j].id
                && post.users@[j].name == pre.client_name
                && post.users@[j].pw == pre.client_age
                && (forall|m: int| 0 <= m < pre.users@.len() && m != j ==> post.users@[m] == pre.users@[m]),
{
    let ids = crate::model::user_ids(pre.users@);
    crate::model::lemma_id_index_bounds(ids, pre.client_selected@, 0);
    let j0 = choose|j: int| 0 <= j < pre.users@.len() && decimal(pre.users@[j].id as int) == pre.client_selected@;
    assert(ids[j0] == pre.users@[j0].id);
    let k = user_index(pre.users@, pre.client_selected@);
    assert(k < pre.users@.len());
    assert forall|m: int| 0 <= m < k implies decimal(pre.users@[m].id as int) != pre.client_selected@ by {
        assert(ids[m] == pre.users@[m].id);
    }
    assert(ids[k] == pre.users@[k].id);
}

/// Confirming the client dialog on an existing id gives the first client with
/// that id the dialog's name and the age read from the dialog, keeps its id
/// and tally, and leaves every other client as it was.
pub proof fn lemma_client_edit_takes_dialog(pre: ProgramApp, post: ProgramApp)
    requires
        client_edit_confirmed(pre, post),
        parse_i32_spec(pre.client_age@) is Some,
        exists|j: int| 0 <= j < pre.clients@.len() && decimal(pre.clients@[j].id as int) == pre.client_selected@,
    ensures
        post.clients@.len() == pre.clients@.len(),
        exists|j: int|
            0 <= j < pre.clients@.len() && decimal(pre.clients@[j].id as int) == pre.client_selected@
                && (forall|m: int| 0 <= m < j ==> decimal(pre.clients@[m].id as int) != pre.client_selected@)
                && post.clients@[j].id == pre.clients@[j].id
                && post.clients@[j].name == pre.client_name
                && Some(post.clients@[j].age) == parse_i32_spec(pre.client_age@)
                && post.clients@[j].id_shoppings == pre.clients@[j].id_shoppings
                && (forall|m: int| 0 <= m < pre.clients@.len() && m != j ==> post.clients@[m] == pre.clients@[m]),
{
    let ids = crate::model::client_ids(pre.clients@);
    crate::model::lemma_id_index_bounds(ids, pre.client_selected@, 0);
    let j0 = choose|j: int| 0 <= j < pre.clients@.len() && decimal(pre.clients@[j].id as int) == pre.client_selected@;
    assert(ids[j0] == pre.clients@[j0].id);
    let k = client_index(pre.clients@, pre.client_selected@);
    assert(k < pre.clients@.len());
    assert forall|m: int| 0 <= m < k implies decimal(pre.clients@[m].id as int) != pre.client_selected@ by {
        assert(ids[m] == pre.clients@[m].id);
    }
    assert(ids[k] == pre.clients@[k].id);
}

} // verus!
