//! The ledger entry model: categories, calendar dates, and items.
//!
//! A `Category` is a closed two-level taxonomy: income entries carry an
//! `IncomeCategory`, expense entries an `ExpenseCategory`.  An `Item` is
//! one immutable ledger entry; its price is always a magnitude, and the
//! sign is derived only at summary time from the category.

use vstd::prelude::*;

verus! {

/// Sub-categories of income entries.
#[derive(Debug, PartialEq, Eq, Clone, Copy, Structural)]
pub enum IncomeCategory {
    Salary,
    Bonus,
    Other,
}

/// Sub-categories of expense entries.
#[derive(Debug, PartialEq, Eq, Clone, Copy, Structural)]
pub enum ExpenseCategory {
    Food,
    Hobby,
    Other,
}

/// A ledger category: the tag selects income vs. expense, the payload
/// the sub-category within that branch.
#[derive(Debug, PartialEq, Eq, Clone, Copy, Structural)]
pub enum Category {
    Income(IncomeCategory),
    Expense(ExpenseCategory),
}

/// A calendar date (Gregorian, no time component, no timezone).
///
/// A date is well formed (`spec_date_wf`) when the year lies in the
/// four-digit range the storage format can carry and month and day
/// denote an existing calendar day.
#[derive(Debug, PartialEq, Eq, Clone, Copy, Structural)]
pub struct Date {
    pub year: i32,
    pub month: u32,
    pub day: u32,
}

/// A leap year: divisible by 4, except century years not divisible by 400.
pub open spec fn spec_is_leap_year(year: int) -> bool {
    year % 4 == 0 && (year % 100 != 0 || year % 400 == 0)
}

/// Number of days in the given month of the given year.
pub open spec fn spec_days_in_month(year: int, month: int) -> int {
    if month == 2 {
        if spec_is_leap_year(year) {
            29
        } else {
            28
        }
    } else if month == 4 || month == 6 || month == 9 || month == 11 {
        30
    } else {
        31
    }
}

/// Well-formedness of a date: four-digit year, existing calendar day.
pub open spec fn spec_date_wf(d: Date) -> bool {
    &&& 0 <= d.year <= 9999
    &&& 1 <= d.month <= 12
    &&& 1 <= d.day <= spec_days_in_month(d.year as int, d.month as int)
}

impl Date {
    /// Build a date, checking that it names an existing calendar day.
    pub fn new(year: i32, month: u32, day: u32) -> (r: Option<Date>)
        ensures
            r matches Some(d) ==> d == (Date { year, month, day }) && spec_date_wf(d),
            r is None ==> !spec_date_wf(Date { year, month, day }),
    {
        if 0 <= year && year <= 9999 && 1 <= month && month <= 12 {
            let leap: bool = year % 4 == 0 && (year % 100 != 0 || year % 400 == 0);
            let days: u32 = if month == 2 {
                if leap {
                    29
                } else {
                    28
                }
            } else if month == 4 || month == 6 || month == 9 || month == 11 {
                30
            } else {
                31
            };
            if 1 <= day && day <= days {
                Some(Date { year, month, day })
            } else {
                None
            }
        } else {
            None
        }
    }
}

/// One immutable ledger entry: a name, a category, a price magnitude in
/// the smallest currency unit (zero permitted), and a calendar date.
#[derive(Debug, PartialEq, Eq)]
pub struct Item {
    pub name: String,
    pub category: Category,
    pub price: u32,
    pub date: Date,
}

/// The mathematical value of an `Item`: the name as a character
/// sequence, the other fields as they stand.
#[verifier::ext_equal]
pub ghost struct ItemV {
    pub name: Seq<char>,
    pub category: Category,
    pub price: u32,
    pub date: Date,
}

impl View for Item {
    type V = ItemV;

    open spec fn view(&self) -> ItemV {
        ItemV { name: self.name@, category: self.category, price: self.price, date: self.date }
    }
}

impl DeepView for Item {
    type V = ItemV;

    open spec fn deep_view(&self) -> ItemV {
        self.view()
    }
}

/// Well-formedness of an entry value: its date names an existing
/// calendar day.  The name is free text and the price unconstrained.
pub open spec fn spec_item_wf(iv: ItemV) -> bool {
    spec_date_wf(iv.date)
}

/// The category selected by a pair of raw codes: register type 0 is
/// income, 1 is expense; the category type picks the sub-category.
pub open spec fn spec_category_of(register_type: u8, category_type: u8) -> Category {
    if register_type == 0 {
        if category_type == 0 {
            Category::Income(IncomeCategory::Salary)
        } else if category_type == 1 {
            Category::Income(IncomeCategory::Bonus)
        } else {
            Category::Income(IncomeCategory::Other)
        }
    } else {
        if category_type == 0 {
            Category::Expense(ExpenseCategory::Food)
        } else if category_type == 1 {
            Category::Expense(ExpenseCategory::Hobby)
        } else {
            Category::Expense(ExpenseCategory::Other)
        }
    }
}

/// The grouping key for monthly summaries: the first day of the item's
/// month and year.
pub open spec fn spec_period_key(iv: ItemV) -> Date {
    Date { year: iv.date.year, month: iv.date.month, day: 1 }
}

/// The item's contribution to a period summary: `+price` for income,
/// `-price` for expense.
pub open spec fn spec_signed_amount(iv: ItemV) -> int {
    match iv.category {
        Category::Income(_) => iv.price as int,
        Category::Expense(_) => -(iv.price as int),
    }
}

impl Item {
    /// Build an entry from its parts.
    pub fn new(name: String, category: Category, price: u32, date: Date) -> (r: Item)
        ensures
            r@ == (ItemV { name: name@, category, price, date }),
    {
        Item { name, category, price, date }
    }

    /// The category encoded by a validated pair of raw codes.
    ///
    /// Out-of-range codes are a contract violation: callers must have
    /// run the validator first, so they are excluded here rather than
    /// mapped to any default category.
    pub fn get_category(register_type: u8, category_type: u8) -> (c: Category)
        requires
            register_type <= 1,
            category_type <= 2,
        ensures
            c == spec_category_of(register_type, category_type),
            register_type == 0 <==> c is Income,
    {
        if register_type == 0 {
            if category_type == 0 {
                Category::Income(IncomeCategory::Salary)
            } else if category_type == 1 {
                Category::Income(IncomeCategory::Bonus)
            } else {
                Category::Income(IncomeCategory::Other)
            }
        } else {
            if category_type == 0 {
                Category::Expense(ExpenseCategory::Food)
            } else if category_type == 1 {
                Category::Expense(ExpenseCategory::Hobby)
            } else {
                Category::Expense(ExpenseCategory::Other)
            }
        }
    }

    /// The calendar year of the entry's date.
    pub fn get_year(&self) -> (y: i32)
        ensures
            y == self.date.year,
    {
        self.date.year
    }

    /// The calendar month of the entry's date (1–12 for a well-formed date).
    pub fn get_month(&self) -> (m: u32)
        ensures
            m == self.date.month,
    {
        self.date.month
    }

    /// The entry's period key: the first day of its month and year.
    /// Always an existing calendar day when the entry's own date is one.
    pub fn get_day(&self) -> (r: Date)
        ensures
            r == spec_period_key(self@),
            spec_date_wf(self.date) ==> spec_date_wf(r),
    {
        Date { year: self.date.year, month: self.date.month, day: 1 }
    }

    /// The entry's signed contribution to a summary: `+price` for an
    /// income entry, `-price` for an expense entry, for every price
    /// including zero.
    pub fn get_price_for_summary(&self) -> (r: i64)
        ensures
            r as int == spec_signed_amount(self@),
    {
        match self.category {
            Category::Income(_) => self.price as i64,
            Category::Expense(_) => -(self.price as i64),
        }
    }
}

/// Period keys group entries by year and month alone: two entries share
/// a period key exactly when their dates agree on year and month,
/// whatever their days.
pub proof fn lemma_period_key_groups_by_year_month(a: ItemV, b: ItemV)
    ensures
        spec_period_key(a) == spec_period_key(b) <==> (a.date.year == b.date.year
            && a.date.month == b.date.month),
{
}

} // verus!
