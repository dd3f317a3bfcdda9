use kakeibo::io::StoreError;
use kakeibo::io::read_data_or_create_new_data;
use kakeibo::io::read_data_or_panic;
use kakeibo::io::write_to_json;
use kakeibo::models::Category;
use kakeibo::models::Date;
use kakeibo::models::ExpenseCategory;
use kakeibo::models::IncomeCategory;
use kakeibo::models::Item;
use kakeibo::validate::InputValidator;

fn item(name: &str, category: Category, price: u32, y: i32, m: u32, d: u32) -> Item {
    Item::new(String::from(name), category, price, Date::new(y, m, d).unwrap())
}

#[test]
fn save_empty_writes_empty_snapshot() {
    let data: Vec<Item> = Vec::new();
    assert_eq!(write_to_json(&data), "[]\n");
}

#[test]
fn snapshot_text_is_exact() {
    let data = vec![item(
        "Lunch",
        Category::Expense(ExpenseCategory::Food),
        1200,
        2024,
        1,
        26,
    )];
    let expected = "[\n  {\n    \"name\": \"Lunch\",\n    \"category\": {\n      \"Expense\": \"Food\"\n    },\n    \"price\": 1200,\n    \"date\": \"2024-01-26\"\n  }\n]\n";
    assert_eq!(write_to_json(&data), expected);
}

#[test]
fn round_trip_preserves_items_and_order() {
    let data = vec![
        item("Paycheck", Category::Income(IncomeCategory::Salary), 300000, 2024, 1, 25),
        item("Lunch", Category::Expense(ExpenseCategory::Food), 1200, 2024, 1, 26),
        item("Lunch", Category::Expense(ExpenseCategory::Food), 1200, 2024, 1, 26),
        item("Bonus", Category::Income(IncomeCategory::Bonus), 50000, 2023, 12, 5),
        item("Books", Category::Expense(ExpenseCategory::Hobby), 0, 2023, 2, 28),
        item("Misc", Category::Income(IncomeCategory::Other), u32::MAX, 9999, 12, 31),
        item("Misc", Category::Expense(ExpenseCategory::Other), 7, 0, 1, 1),
    ];
    let text = write_to_json(&data);
    assert_eq!(read_data_or_create_new_data(Some(&text)).unwrap(), data);
    assert_eq!(read_data_or_panic(Some(&text)).unwrap(), data);
}

#[test]
fn round_trip_preserves_tricky_names() {
    let data = vec![
        item("say \"hi\"", Category::Income(IncomeCategory::Salary), 1, 2024, 5, 5),
        item("back\\slash", Category::Expense(ExpenseCategory::Food), 2, 2024, 5, 6),
        item("line\nbreak", Category::Expense(ExpenseCategory::Hobby), 3, 2024, 5, 7),
        item("", Category::Income(IncomeCategory::Other), 4, 2024, 5, 8),
        item("食費 🍜", Category::Expense(ExpenseCategory::Food), 5, 2024, 5, 9),
    ];
    let text = write_to_json(&data);
    assert_eq!(read_data_or_create_new_data(Some(&text)).unwrap(), data);
}

#[test]
fn load_or_create_missing_file_gives_empty() {
    let loaded = read_data_or_create_new_data(None).unwrap();
    assert!(loaded.is_empty());
}

#[test]
fn load_or_panic_missing_file_fails() {
    assert_eq!(read_data_or_panic(None), Err(StoreError::FileUnreadable));
}

#[test]
fn load_or_create_accepts_empty_snapshot() {
    let loaded = read_data_or_create_new_data(Some("[]\n")).unwrap();
    assert!(loaded.is_empty());
}

#[test]
fn load_or_panic_rejects_empty_snapshot() {
    assert_eq!(read_data_or_panic(Some("[]\n")), Err(StoreError::EmptyDataset));
}

#[test]
fn malformed_content_is_rejected() {
    for bad in [
        "",
        "garbage",
        "[",
        "[\n]",
        "[]",
        "{\"name\": \"x\"}",
        "[\n  {\n    \"name\": \"x\"\n  }\n]\n",
    ] {
        assert_eq!(
            read_data_or_create_new_data(Some(bad)),
            Err(StoreError::DeserializationFailed)
        );
        assert_eq!(read_data_or_panic(Some(bad)), Err(StoreError::DeserializationFailed));
    }
}

#[test]
fn unknown_category_name_is_rejected() {
    let text = "[\n  {\n    \"name\": \"x\",\n    \"category\": {\n      \"Expense\": \"Rent\"\n    },\n    \"price\": 1,\n    \"date\": \"2024-01-01\"\n  }\n]\n";
    assert_eq!(read_data_or_panic(Some(text)), Err(StoreError::DeserializationFailed));
}

#[test]
fn invalid_date_in_snapshot_is_rejected() {
    let text = "[\n  {\n    \"name\": \"x\",\n    \"category\": {\n      \"Expense\": \"Food\"\n    },\n    \"price\": 1,\n    \"date\": \"2023-02-29\"\n  }\n]\n";
    assert_eq!(read_data_or_panic(Some(text)), Err(StoreError::DeserializationFailed));
}

#[test]
fn oversized_price_in_snapshot_is_rejected() {
    let text = "[\n  {\n    \"name\": \"x\",\n    \"category\": {\n      \"Expense\": \"Food\"\n    },\n    \"price\": 4294967296,\n    \"date\": \"2024-01-01\"\n  }\n]\n";
    assert_eq!(read_data_or_panic(Some(text)), Err(StoreError::DeserializationFailed));
}

#[test]
fn end_to_end_monthly_summary() {
    // Start from an empty store, as with a file that does not exist yet.
    let mut data = read_data_or_create_new_data(None).unwrap();
    assert!(data.is_empty());

    assert!(InputValidator::validate_register_type(0).is_ok());
    assert!(InputValidator::validate_category_type(0, 0).is_ok());
    data.push(Item::new(
        String::from("Paycheck"),
        Item::get_category(0, 0),
        300000,
        Date::new(2024, 1, 25).unwrap(),
    ));
    assert!(InputValidator::validate_register_type(1).is_ok());
    assert!(InputValidator::validate_category_type(1, 0).is_ok());
    data.push(Item::new(
        String::from("Lunch"),
        Item::get_category(1, 0),
        1200,
        Date::new(2024, 1, 26).unwrap(),
    ));

    let text = write_to_json(&data);
    let reloaded = read_data_or_panic(Some(&text)).unwrap();
    assert_eq!(reloaded, data);

    let key = Date::new(2024, 1, 1).unwrap();
    let mut summary: i64 = 0;
    for it in &reloaded {
        if it.get_day() == key {
            summary += it.get_price_for_summary();
        }
    }
    assert_eq!(summary, 298800);
}

#[test]
fn invalid_category_code_is_not_persisted() {
    let mut data = read_data_or_create_new_data(None).unwrap();

    // The input layer must gate the raw codes; category type 3 under
    // register type 0 fails, so no item is built or appended.
    let register_type = 0u8;
    let category_type = 3u8;
    assert!(InputValidator::validate_register_type(register_type).is_ok());
    if InputValidator::validate_category_type(register_type, category_type).is_ok() {
        data.push(Item::new(
            String::from("Ghost"),
            Item::get_category(register_type, category_type),
            1,
            Date::new(2024, 1, 1).unwrap(),
        ));
    }

    let text = write_to_json(&data);
    assert_eq!(text, "[]\n");
    assert!(read_data_or_create_new_data(Some(&text)).unwrap().is_empty());
}
