use minimercado::model::{Client, Product, SaleItem, User};
use minimercado::program::ProgramApp;

fn shop() -> ProgramApp {
    ProgramApp::new(
        vec![User { id: 1, name: "admin".to_string(), pw: "1234".to_string() }],
        vec![
            Client { id: 0, name: "Luis".to_string(), age: 30, id_shoppings: Vec::new() },
            Client {
                id: 1,
                name: "Marta".to_string(),
                age: 41,
                id_shoppings: vec![("Pan".to_string(), 4)],
            },
        ],
        vec![
            Product { id: 1, price: 100, name: "Leche".to_string(), stock: 10 },
            Product { id: 2, price: 50, name: "Pan".to_string(), stock: 0 },
        ],
    )
}

fn enter(app: &mut ProgramApp, client: &str, entry: &str) {
    app.client_selected = client.to_string();
    app.product = entry.to_string();
    assert!(app.entry_request_fits_exec());
    app.enter_sale_item();
}

#[test]
fn entry_moves_units_to_cart() {
    let mut app = shop();
    enter(&mut app, "1", "3x Leche");
    assert_eq!(app.products[0].stock, 7);
    assert_eq!(app.cart.len(), 1);
    assert_eq!(app.cart[0].name, "Leche");
    assert_eq!(app.cart[0].stock, 3);
    assert_eq!(app.cart[0].price, 300);
    assert_eq!(app.price_all, 300);
    assert!(app.product.is_empty());
    assert!(app.error_stock.is_empty());
}

#[test]
fn entry_of_product_without_stock() {
    let mut app = shop();
    enter(&mut app, "1", "Pan");
    assert_eq!(app.error_stock, "Lo siento no hay de ese producto");
    assert!(app.cart.is_empty());
    assert_eq!(app.products[1].stock, 0);
}

#[test]
fn entry_beyond_stock_is_refused() {
    let mut app = shop();
    enter(&mut app, "1", "11x Leche");
    assert_eq!(app.error_stock, "Lo siento no hay de ese producto");
    assert_eq!(app.products[0].stock, 10);
    enter(&mut app, "1", "2x Leche");
    assert!(app.error_stock.is_empty());
}

#[test]
fn entry_for_unknown_client_is_ignored() {
    let mut app = shop();
    enter(&mut app, "7", "3x Leche");
    assert!(app.cart.is_empty());
    assert_eq!(app.product, "3x Leche");
    enter(&mut app, "  ", "3x Leche");
    assert!(app.cart.is_empty());
}

#[test]
fn entry_trims_fields() {
    let mut app = shop();
    enter(&mut app, " 0 ", "  2x Leche  ");
    assert_eq!(app.cart.len(), 1);
    assert_eq!(app.products[0].stock, 8);
}

#[test]
fn unknown_product_leaves_message() {
    let mut app = shop();
    app.error_stock = "old".to_string();
    enter(&mut app, "0", "Arroz");
    assert_eq!(app.error_stock, "old");
    assert!(app.product.is_empty());
}

#[test]
fn add_to_cart_direct() {
    let mut app = shop();
    let name = "Leche".to_string();
    assert!(minimercado::sale::entry_fits_exec(&app, 4, &name));
    app.add_to_cart(4, &name);
    assert_eq!(app.products[0].stock, 6);
    assert_eq!(app.price_all, 400);
}

#[test]
fn entry_overflow_is_detected() {
    let mut app = shop();
    app.products[0].price = i32::MAX;
    let name = "Leche".to_string();
    assert!(!minimercado::sale::entry_fits_exec(&app, 2, &name));
    assert!(minimercado::sale::entry_fits_exec(&app, 1, &name));
}

#[test]
fn confirm_records_sale_and_tallies() {
    let mut app = shop();
    enter(&mut app, "1", "3x Leche");
    enter(&mut app, "1", "2x Leche");
    assert_eq!(app.price_all, 500);
    assert!(app.confirm_fits_exec());
    app.confirm_sale_at("2024-05-01 10:00:00".to_string());
    assert!(app.cart.is_empty());
    assert_eq!(app.price_all, 0);
    assert_eq!(app.sales_history.len(), 1);
    let sale = &app.sales_history[0];
    assert_eq!(sale.id, 1);
    assert_eq!(sale.id_client, 1);
    assert_eq!(sale.price, 500);
    assert_eq!(sale.date, "2024-05-01 10:00:00");
    assert_eq!(sale.products.len(), 2);
    let tally = &app.clients[1].id_shoppings;
    assert_eq!(tally.len(), 2);
    assert_eq!(tally[0], ("Pan".to_string(), 4));
    assert_eq!(tally[1], ("Leche".to_string(), 5));
    assert_eq!(app.purchase_count(1), 9);
    assert_eq!(app.purchase_count(0), 0);
}

#[test]
fn confirm_without_client_drops_cart() {
    let mut app = shop();
    enter(&mut app, "1", "3x Leche");
    app.client_selected = "9".to_string();
    app.confirm_sale_at("d".to_string());
    assert!(app.cart.is_empty());
    assert_eq!(app.price_all, 0);
    assert!(app.sales_history.is_empty());
    assert_eq!(app.products[0].stock, 7);
}

#[test]
fn confirm_with_empty_cart_does_nothing() {
    let mut app = shop();
    app.client_selected = "1".to_string();
    app.confirm_sale();
    assert!(app.sales_history.is_empty());
}

#[test]
fn confirm_uses_the_clock() {
    let mut app = shop();
    enter(&mut app, "0", "Leche");
    app.confirm_sale();
    assert_eq!(app.sales_history.len(), 1);
    assert!(!app.sales_history[0].date.is_empty());
}

#[test]
fn cancel_gives_units_back_to_every_product() {
    let mut app = shop();
    enter(&mut app, "1", "3x Leche");
    assert!(app.cancel_fits_exec());
    app.cancel_cart();
    assert!(app.cart.is_empty());
    assert_eq!(app.price_all, 0);
    assert_eq!(app.products[0].stock, 10);
    assert_eq!(app.products[1].stock, 3);
}

#[test]
fn cancel_single_product_restores() {
    let mut app = ProgramApp::new(
        Vec::new(),
        vec![Client { id: 5, name: "A".to_string(), age: 1, id_shoppings: Vec::new() }],
        vec![Product { id: 1, price: 10, name: "Sal".to_string(), stock: 4 }],
    );
    enter(&mut app, "5", "4xSal");
    assert_eq!(app.products[0].stock, 0);
    app.cancel_cart();
    assert_eq!(app.products[0].stock, 4);
    assert!(app.cart.is_empty());
}

#[test]
fn cancel_overflow_is_detected() {
    let mut app = shop();
    app.cart.push(SaleItem { name: "X".to_string(), stock: i32::MAX, price: 0 });
    assert!(!app.cancel_fits_exec());
}

#[test]
fn confirm_overflow_is_detected() {
    let mut app = shop();
    app.clients[1].id_shoppings = vec![("Leche".to_string(), i32::MAX)];
    enter(&mut app, "1", "Leche");
    assert!(!app.confirm_fits_exec());
}

fn cart_sum(app: &ProgramApp) -> i32 {
    app.cart.iter().map(|i| i.price).sum()
}

fn units_everywhere(app: &ProgramApp) -> i32 {
    app.products.iter().map(|p| p.stock).sum::<i32>() + app.cart.iter().map(|i| i.stock).sum::<i32>()
}

#[test]
fn total_follows_cart_lines() {
    let mut app = shop();
    enter(&mut app, "1", "3x Leche");
    assert_eq!(app.price_all, cart_sum(&app));
    enter(&mut app, "1", "Pan");
    assert_eq!(app.price_all, cart_sum(&app));
    enter(&mut app, "1", "1x Leche");
    assert_eq!(app.price_all, cart_sum(&app));
    app.cancel_cart();
    assert_eq!(app.price_all, cart_sum(&app));
    enter(&mut app, "1", "2x Leche");
    app.confirm_sale_at("d".to_string());
    assert_eq!(app.price_all, cart_sum(&app));
}

#[test]
fn entries_conserve_units() {
    let mut app = shop();
    let before = units_everywhere(&app);
    enter(&mut app, "1", "3x Leche");
    enter(&mut app, "1", "4x Leche");
    enter(&mut app, "1", "9x Leche");
    assert_eq!(units_everywhere(&app), before);
}

#[test]
fn sales_are_numbered_in_order() {
    let mut app = shop();
    for k in 1..=3u32 {
        enter(&mut app, "0", "Leche");
        app.confirm_sale_at(format!("t{}", k));
        assert_eq!(app.sales_history[(k - 1) as usize].id, k);
    }
}

#[test]
fn recorded_sale_price_is_sum_of_lines() {
    let mut app = shop();
    enter(&mut app, "1", "3x Leche");
    enter(&mut app, "1", "2x Leche");
    app.confirm_sale_at("d".to_string());
    let sale = &app.sales_history[0];
    assert_eq!(sale.price, sale.products.iter().map(|i| i.price).sum::<i32>());
}

#[test]
fn confirmed_tally_names_stay_distinct() {
    let mut app = shop();
    enter(&mut app, "1", "1x Leche");
    enter(&mut app, "1", "1x Leche");
    app.confirm_sale_at("d".to_string());
    let names: Vec<&String> = app.clients[1].id_shoppings.iter().map(|(n, _)| n).collect();
    assert_eq!(names, vec!["Pan", "Leche"]);
}

#[test]
fn clock_date_is_one_line() {
    let mut app = shop();
    enter(&mut app, "0", "Leche");
    app.confirm_sale();
    let date = &app.sales_history[0].date;
    assert!(!date.is_empty());
    assert!(!date.contains('\n'));
}
