use minimercado::model::{Client, Product, Screen, User};
use minimercado::program::ProgramApp;

fn user(id: i32, name: &str, pw: &str) -> User {
    User { id, name: name.to_string(), pw: pw.to_string() }
}

fn client(id: i32, name: &str, age: i32) -> Client {
    Client { id, name: name.to_string(), age, id_shoppings: Vec::new() }
}

fn product(id: i32, price: i32, name: &str, stock: i32) -> Product {
    Product { id, price, name: name.to_string(), stock }
}

fn sample() -> ProgramApp {
    ProgramApp::new(
        vec![user(1, "admin", "1234"), user(2, "Ana", "pw")],
        vec![client(0, "Luis", 30), client(1, "Marta", 41)],
        vec![product(1, 100, "Leche", 10), product(2, 50, "Pan", 0)],
    )
}

#[test]
fn new_program_is_empty() {
    let app = sample();
    assert!(!app.access_login);
    assert_eq!(app.current_screen, Screen::Panel);
    assert!(app.cart.is_empty());
    assert_eq!(app.price_all, 0);
    assert!(app.sales_history.is_empty());
    assert_eq!(app.users.len(), 2);
}

#[test]
fn login_needs_both_fields() {
    let mut app = sample();
    app.user = "admin".to_string();
    app.attempt_login();
    assert!(!app.access_login);
}

#[test]
fn login_rejects_wrong_password() {
    let mut app = sample();
    app.user = "admin".to_string();
    app.password = "nope".to_string();
    app.attempt_login();
    assert!(!app.access_login);
}

#[test]
fn login_ignores_case_of_name() {
    let mut app = sample();
    app.user = "ANA".to_string();
    app.password = "pw".to_string();
    app.attempt_login();
    assert!(app.access_login);
}

#[test]
fn users_screen_only_for_admin() {
    let mut app = sample();
    app.user = "Ana".to_string();
    app.password = "pw".to_string();
    app.attempt_login();
    app.select_screen(Screen::Users);
    assert_eq!(app.current_screen, Screen::Panel);
    app.select_screen(Screen::Sell);
    assert_eq!(app.current_screen, Screen::Sell);

    let mut admin = sample();
    admin.user = "admin".to_string();
    admin.password = "1234".to_string();
    admin.attempt_login();
    admin.select_screen(Screen::Users);
    assert_eq!(admin.current_screen, Screen::Users);
}

#[test]
fn screens_need_login() {
    let mut app = sample();
    app.select_screen(Screen::Report);
    assert_eq!(app.current_screen, Screen::Panel);
}

fn logged_in(name: &str, pw: &str, screen: Screen) -> ProgramApp {
    let mut app = sample();
    app.user = name.to_string();
    app.password = pw.to_string();
    app.attempt_login();
    assert!(app.access_login);
    app.select_screen(screen);
    assert_eq!(app.current_screen, screen);
    app
}

#[test]
fn edit_client_by_admin() {
    let mut app = logged_in("admin", "1234", Screen::Panel);
    app.request_edit_client(1);
    assert!(app.edit_client);
    assert_eq!(app.client_selected, "1");
    assert_eq!(app.client_name, "Marta");
    assert_eq!(app.client_age, "41");
    app.client_name = "Marta P".to_string();
    app.client_age = "42".to_string();
    app.confirm_edit_client();
    assert!(!app.edit_client);
    assert_eq!(app.clients[1].name, "Marta P");
    assert_eq!(app.clients[1].age, 42);
    assert!(app.client_name.is_empty());
    assert!(app.client_age.is_empty());
}

#[test]
fn edit_client_refused_to_others() {
    let mut app = logged_in("Ana", "pw", Screen::Panel);
    app.request_edit_client(1);
    assert!(!app.edit_client);
    app.request_delete_client(1);
    assert!(!app.delete_client);
}

#[test]
fn edit_client_untouched_keeps_client() {
    let mut app = logged_in("admin", "1234", Screen::Panel);
    app.request_edit_client(0);
    app.confirm_edit_client();
    assert_eq!(app.clients[0].name, "Luis");
    assert_eq!(app.clients[0].age, 30);
}

#[test]
fn delete_client_by_id() {
    let mut app = logged_in("admin", "1234", Screen::Panel);
    app.request_delete_client(0);
    assert!(app.delete_client);
    app.delete_client_if_requested();
    assert!(!app.delete_client);
    assert_eq!(app.clients.len(), 1);
    assert_eq!(app.clients[0].name, "Marta");
    app.delete_client_if_requested();
    assert_eq!(app.clients.len(), 1);
}

#[test]
fn new_client_gets_next_id() {
    let mut app = sample();
    app.new_client = true;
    app.client_name = "Pedro".to_string();
    app.client_age = "25".to_string();
    app.confirm_new_client();
    assert!(!app.new_client);
    assert_eq!(app.clients.len(), 3);
    assert_eq!(app.clients[2].id, 2);
    assert_eq!(app.clients[2].name, "Pedro");
    assert_eq!(app.clients[2].age, 25);
    assert!(app.clients[2].id_shoppings.is_empty());
}

#[test]
fn first_client_gets_id_zero() {
    let mut app = ProgramApp::new(Vec::new(), Vec::new(), Vec::new());
    app.client_name = "Pedro".to_string();
    app.client_age = "25".to_string();
    app.confirm_new_client();
    assert_eq!(app.clients[0].id, 0);
}

#[test]
fn users_edit_new_delete() {
    let mut app = logged_in("admin", "1234", Screen::Users);
    app.request_edit_user(1);
    assert!(app.edit_user);
    assert_eq!(app.client_selected, "2");
    assert_eq!(app.client_name, "Ana");
    assert_eq!(app.client_age, "pw");
    app.client_age = "secret".to_string();
    app.confirm_edit_user();
    assert_eq!(app.users[1].pw, "secret");
    assert!(!app.edit_user);

    app.request_new_user();
    assert!(app.new_user);
    app.client_name = "Juan".to_string();
    app.client_age = "clave".to_string();
    app.confirm_new_user();
    assert!(!app.new_user);
    assert_eq!(app.users[2].id, 3);
    assert_eq!(app.users[2].name, "Juan");
    assert_eq!(app.users[2].pw, "clave");

    app.request_delete_user(1);
    app.delete_user_if_requested();
    assert_eq!(app.users.len(), 2);
    assert_eq!(app.users[1].name, "Juan");
}

#[test]
fn first_user_gets_id_one() {
    let mut app = ProgramApp::new(Vec::new(), Vec::new(), Vec::new());
    app.client_name = "root".to_string();
    app.client_age = "x".to_string();
    app.confirm_new_user();
    assert_eq!(app.users[0].id, 1);
}

#[test]
fn edit_without_match_changes_nothing() {
    let mut app = sample();
    app.client_selected = "99".to_string();
    app.client_name = "Z".to_string();
    app.client_age = "not a number".to_string();
    app.confirm_edit_client();
    assert_eq!(app.client_name, "Z");
    app.confirm_edit_user();
    assert_eq!(app.users[0].name, "admin");
}

#[test]
fn listed_users_skip_admin() {
    let app = sample();
    assert!(!minimercado::report::is_listed_user(&app.users[0]));
    assert!(minimercado::report::is_listed_user(&app.users[1]));
}

#[test]
fn admin_requests_need_their_screen() {
    let mut app = logged_in("admin", "1234", Screen::Sell);
    app.request_edit_client(0);
    assert!(!app.edit_client);
    app.request_edit_user(0);
    assert!(!app.edit_user);
    app.request_delete_user(0);
    assert!(!app.delete_user);
    app.request_new_user();
    assert!(!app.new_user);
    app.request_new_client();
    assert!(!app.new_client);
    app.select_screen(Screen::Panel);
    app.request_new_client();
    assert!(app.new_client);
}

#[test]
fn requests_need_login() {
    let mut app = sample();
    app.user = "admin".to_string();
    app.request_edit_client(0);
    app.request_new_client();
    assert!(!app.edit_client);
    assert!(!app.new_client);
}

#[test]
fn deleting_keeps_ids_increasing() {
    let mut app = logged_in("admin", "1234", Screen::Panel);
    app.client_name = "Pedro".to_string();
    app.client_age = "25".to_string();
    app.confirm_new_client();
    app.request_delete_client(1);
    app.delete_client_if_requested();
    let ids: Vec<i32> = app.clients.iter().map(|c| c.id).collect();
    assert_eq!(ids, vec![0, 2]);
}
