use minimercado::model::{Sale, SaleItem};
use minimercado::program::ProgramApp;
use minimercado::report::sort_by_units;

fn item(name: &str, stock: i32, price: i32) -> SaleItem {
    SaleItem { name: name.to_string(), stock, price }
}

fn with_sales() -> ProgramApp {
    let mut app = ProgramApp::new(Vec::new(), Vec::new(), Vec::new());
    app.sales_history.push(Sale {
        id: 1,
        date: "2024-05-01 10:00:00".to_string(),
        id_client: 3,
        products: vec![item("Leche", 2, 200), item("Pan", 1, 50)],
        price: 250,
    });
    app.sales_history.push(Sale {
        id: 2,
        date: "2024-05-01 11:00:00".to_string(),
        id_client: 4,
        products: vec![item("Pan", 5, 250)],
        price: 250,
    });
    app
}

#[test]
fn sales_total_sums_prices() {
    let app = with_sales();
    assert!(app.sales_total_fits());
    assert_eq!(app.sales_total(), 500);
}

#[test]
fn sales_total_overflow_is_detected() {
    let mut app = with_sales();
    app.sales_history[0].price = i32::MAX;
    assert!(!app.sales_total_fits());
}

#[test]
fn report_text_layout() {
    let app = with_sales();
    let text = app.report_text("HOY");
    let expected = format!(
        "{}\n       INFORME DIARIO DE VENTAS\n       Fecha: HOY\n{}\n\n\
Venta ID: 1 | Cliente ID: 3\nHora: 2024-05-01 10:00:00\n{}\n - {:<15} x{:>2} | Subtotal: ${:>7}\n - {:<15} x{:>2} | Subtotal: ${:>7}\n\
TOTAL VENTA: $250\n\n\
Venta ID: 2 | Cliente ID: 4\nHora: 2024-05-01 11:00:00\n{}\n - {:<15} x{:>2} | Subtotal: ${:>7}\n\
TOTAL VENTA: $250\n\n\
{}\nTOTAL RECAUDADO EN EL DÍA: $500\n{}\n",
        "=".repeat(42),
        "=".repeat(42),
        "-".repeat(42),
        "Leche", 2, 200, "Pan", 1, 50,
        "-".repeat(42),
        "Pan", 5, 250,
        "=".repeat(42),
        "=".repeat(42),
    );
    assert_eq!(text, expected);
    assert!(text.contains(" - Leche           x 2 | Subtotal: $    200\n"));
}

#[test]
fn report_of_no_sales() {
    let app = ProgramApp::new(Vec::new(), Vec::new(), Vec::new());
    let text = app.report_text("d");
    assert!(text.ends_with("TOTAL RECAUDADO EN EL DÍA: $0\n==========================================\n"));
}

#[test]
fn generated_report_is_dated() {
    let app = with_sales();
    let text = app.generator_report();
    assert!(text.starts_with("==========================================\n       INFORME DIARIO DE VENTAS\n       Fecha: "));
    assert!(text.contains("TOTAL RECAUDADO EN EL DÍA: $500"));
}

#[test]
fn long_names_are_not_cut() {
    let mut app = ProgramApp::new(Vec::new(), Vec::new(), Vec::new());
    app.sales_history.push(Sale {
        id: 1,
        date: "t".to_string(),
        id_client: -1,
        products: vec![item("Chocolate amargo 70%", 123, -12345678)],
        price: 0,
    });
    let text = app.report_text("d");
    assert!(text.contains(" - Chocolate amargo 70% x123 | Subtotal: $-12345678\n"));
    assert!(text.contains("Cliente ID: -1\n"));
}

#[test]
fn chart_figures() {
    let app = with_sales();
    assert!(app.chart_fits_exec());
    let chart = app.graphic_report();
    assert_eq!(chart.rows, vec![("Pan".to_string(), 6), ("Leche".to_string(), 2)]);
    assert_eq!(chart.max_sold, 6);
    assert_eq!(chart.total_money, 500);
    assert_eq!(chart.total_items, 3);
    assert_eq!(chart.invoices, 2);
}

#[test]
fn chart_scale_is_running_maximum() {
    let mut app = ProgramApp::new(Vec::new(), Vec::new(), Vec::new());
    app.sales_history.push(Sale {
        id: 1,
        date: "t".to_string(),
        id_client: 0,
        products: vec![item("A", 5, 0), item("A", -3, 0)],
        price: 0,
    });
    let chart = app.graphic_report();
    assert_eq!(chart.rows, vec![("A".to_string(), 2)]);
    assert_eq!(chart.max_sold, 5);
}

#[test]
fn empty_chart() {
    let app = ProgramApp::new(Vec::new(), Vec::new(), Vec::new());
    let chart = app.graphic_report();
    assert!(chart.rows.is_empty());
    assert_eq!(chart.max_sold, 0);
    assert_eq!(chart.invoices, 0);
}

#[test]
fn sort_keeps_equal_counts_in_order() {
    let t = vec![
        ("a".to_string(), 1),
        ("b".to_string(), 3),
        ("c".to_string(), 1),
        ("d".to_string(), 3),
    ];
    let r = sort_by_units(&t);
    assert_eq!(
        r,
        vec![
            ("b".to_string(), 3),
            ("d".to_string(), 3),
            ("a".to_string(), 1),
            ("c".to_string(), 1),
        ]
    );
}

#[test]
fn chart_overflow_is_detected() {
    let mut app = with_sales();
    app.sales_history[1].products[0].stock = i32::MAX;
    assert!(!app.chart_fits_exec());
}
