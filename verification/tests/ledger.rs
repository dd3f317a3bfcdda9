use kakeibo::models::Category;
use kakeibo::models::Date;
use kakeibo::models::ExpenseCategory;
use kakeibo::models::IncomeCategory;
use kakeibo::models::Item;
use kakeibo::validate::InputValidator;
use kakeibo::validate::ValidationError;

fn date(y: i32, m: u32, d: u32) -> Date {
    Date::new(y, m, d).unwrap()
}

#[test]
fn category_table_income() {
    assert_eq!(Item::get_category(0, 0), Category::Income(IncomeCategory::Salary));
    assert_eq!(Item::get_category(0, 1), Category::Income(IncomeCategory::Bonus));
    assert_eq!(Item::get_category(0, 2), Category::Income(IncomeCategory::Other));
}

#[test]
fn category_table_expense() {
    assert_eq!(Item::get_category(1, 0), Category::Expense(ExpenseCategory::Food));
    assert_eq!(Item::get_category(1, 1), Category::Expense(ExpenseCategory::Hobby));
    assert_eq!(Item::get_category(1, 2), Category::Expense(ExpenseCategory::Other));
}

#[test]
fn validate_service_type_codes() {
    assert!(InputValidator::validate_service_type(0).is_ok());
    assert!(InputValidator::validate_service_type(1).is_ok());
    assert_eq!(
        InputValidator::validate_service_type(2),
        Err(ValidationError::InvalidServiceType)
    );
    assert_eq!(
        InputValidator::validate_service_type(255),
        Err(ValidationError::InvalidServiceType)
    );
}

#[test]
fn validate_register_type_codes() {
    assert!(InputValidator::validate_register_type(0).is_ok());
    assert!(InputValidator::validate_register_type(1).is_ok());
    assert_eq!(
        InputValidator::validate_register_type(2),
        Err(ValidationError::InvalidRegisterType)
    );
    assert_eq!(
        InputValidator::validate_register_type(255),
        Err(ValidationError::InvalidRegisterType)
    );
}

#[test]
fn validate_category_type_codes() {
    for register_type in [0u8, 1u8] {
        assert!(InputValidator::validate_category_type(register_type, 0).is_ok());
        assert!(InputValidator::validate_category_type(register_type, 1).is_ok());
        assert!(InputValidator::validate_category_type(register_type, 2).is_ok());
        assert_eq!(
            InputValidator::validate_category_type(register_type, 3),
            Err(ValidationError::InvalidCategoryType)
        );
        assert_eq!(
            InputValidator::validate_category_type(register_type, 255),
            Err(ValidationError::InvalidCategoryType)
        );
    }
}

#[test]
fn signed_amount_signs() {
    let income = Item::new(
        String::from("Paycheck"),
        Category::Income(IncomeCategory::Salary),
        300000,
        date(2024, 1, 25),
    );
    let expense = Item::new(
        String::from("Lunch"),
        Category::Expense(ExpenseCategory::Food),
        1200,
        date(2024, 1, 26),
    );
    assert_eq!(income.get_price_for_summary(), 300000);
    assert_eq!(expense.get_price_for_summary(), -1200);
}

#[test]
fn signed_amount_zero_and_extremes() {
    let zero_in = Item::new(
        String::from("n"),
        Category::Income(IncomeCategory::Other),
        0,
        date(2024, 6, 1),
    );
    let zero_ex = Item::new(
        String::from("n"),
        Category::Expense(ExpenseCategory::Other),
        0,
        date(2024, 6, 1),
    );
    let max_ex = Item::new(
        String::from("n"),
        Category::Expense(ExpenseCategory::Hobby),
        u32::MAX,
        date(2024, 6, 1),
    );
    assert_eq!(zero_in.get_price_for_summary(), 0);
    assert_eq!(zero_ex.get_price_for_summary(), 0);
    assert_eq!(max_ex.get_price_for_summary(), -(u32::MAX as i64));
}

#[test]
fn period_key_groups_by_month() {
    let a = Item::new(
        String::from("a"),
        Category::Expense(ExpenseCategory::Food),
        10,
        date(2024, 3, 5),
    );
    let b = Item::new(
        String::from("b"),
        Category::Income(IncomeCategory::Bonus),
        20,
        date(2024, 3, 28),
    );
    let c = Item::new(
        String::from("c"),
        Category::Expense(ExpenseCategory::Food),
        10,
        date(2024, 4, 1),
    );
    assert_eq!(a.get_day(), b.get_day());
    assert_ne!(a.get_day(), c.get_day());
    assert_eq!(a.get_day(), date(2024, 3, 1));
}

#[test]
fn getters_read_the_date() {
    let it = Item::new(
        String::from("x"),
        Category::Income(IncomeCategory::Salary),
        1,
        date(2021, 12, 31),
    );
    assert_eq!(it.get_year(), 2021);
    assert_eq!(it.get_month(), 12);
}

#[test]
fn date_validity_rules() {
    assert!(Date::new(2024, 2, 29).is_some());
    assert!(Date::new(2023, 2, 29).is_none());
    assert!(Date::new(2000, 2, 29).is_some());
    assert!(Date::new(1900, 2, 29).is_none());
    assert!(Date::new(2024, 4, 31).is_none());
    assert!(Date::new(2024, 13, 1).is_none());
    assert!(Date::new(2024, 0, 1).is_none());
    assert!(Date::new(2024, 1, 0).is_none());
    assert!(Date::new(-1, 1, 1).is_none());
    assert!(Date::new(10000, 1, 1).is_none());
    assert!(Date::new(0, 1, 1).is_some());
    assert!(Date::new(9999, 12, 31).is_some());
}
