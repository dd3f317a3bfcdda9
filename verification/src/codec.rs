//! The storage format: a pretty-printed JSON snapshot of the dataset.
//!
//! `spec_ser` gives the canonical text written for a sequence of
//! entries, and `spec_parse` the strict reading of such a text; parsing
//! the serialization of any well-formed sequence is proved to give back
//! exactly that sequence (`lemma_parse_ser`).  The executable writer and
//! reader are verified against these two specifications.

use vstd::prelude::*;

use crate::models::Category;
use crate::models::Date;
use crate::models::ExpenseCategory;
use crate::models::IncomeCategory;
use crate::models::Item;
use crate::models::ItemV;
use crate::models::spec_date_wf;
use crate::models::spec_item_wf;

verus! {

// ---------------------------------------------------------------------
// Characters and digits
// ---------------------------------------------------------------------

/// The decimal digit character for a value below ten.
pub open spec fn spec_digit_char(d: int) -> char {
    if d == 0 {
        '0'
    } else if d == 1 {
        '1'
    } else if d == 2 {
        '2'
    } else if d == 3 {
        '3'
    } else if d == 4 {
        '4'
    } else if d == 5 {
        '5'
    } else if d == 6 {
        '6'
    } else if d == 7 {
        '7'
    } else if d == 8 {
        '8'
    } else {
        '9'
    }
}

/// Whether a character is a decimal digit.
pub open spec fn spec_is_digit(c: char) -> bool {
    '0' <= c && c <= '9'
}

/// The numeric value of a digit character.
pub open spec fn spec_digit_val(c: char) -> int {
    c as int - '0' as int
}

/// Every digit character is a digit with the value it was built from.
pub proof fn lemma_digit_char_val(d: int)
    requires
        0 <= d <= 9,
    ensures
        spec_is_digit(spec_digit_char(d)),
        spec_digit_val(spec_digit_char(d)) == d,
{
}

/// The decimal numeral of a natural number, most significant digit first.
pub open spec fn spec_dec(n: nat) -> Seq<char>
    decreases n,
{
    if n < 10 {
        seq![spec_digit_char(n as int)]
    } else {
        spec_dec(n / 10) + seq![spec_digit_char(n as int % 10)]
    }
}

/// A two-digit zero-padded numeral.
pub open spec fn spec_pad2(n: int) -> Seq<char> {
    seq![spec_digit_char(n / 10 % 10), spec_digit_char(n % 10)]
}

/// A four-digit zero-padded numeral.
pub open spec fn spec_pad4(n: int) -> Seq<char> {
    seq![
        spec_digit_char(n / 1000 % 10),
        spec_digit_char(n / 100 % 10),
        spec_digit_char(n / 10 % 10),
        spec_digit_char(n % 10),
    ]
}

// ---------------------------------------------------------------------
// Serialization
// ---------------------------------------------------------------------

/// A string character on the wire: quote and backslash are escaped with
/// a backslash, every other character stands for itself.
pub open spec fn spec_esc_char(c: char) -> Seq<char> {
    if c == '"' || c == '\\' {
        seq!['\\', c]
    } else {
        seq![c]
    }
}

/// The wire form of a name: each character escaped as needed.
pub open spec fn spec_esc(s: Seq<char>) -> Seq<char>
    decreases s.len(),
{
    if s.len() == 0 {
        Seq::empty()
    } else {
        spec_esc_char(s[0]) + spec_esc(s.skip(1))
    }
}

/// The date on the wire: `YYYY-MM-DD`, zero padded.
pub open spec fn spec_date_chars(d: Date) -> Seq<char> {
    spec_pad4(d.year as int) + seq!['-'] + spec_pad2(d.month as int) + seq!['-'] + spec_pad2(
        d.day as int,
    )
}

/// The category object's interior on the wire: the tag name, the
/// key/value separator, and the sub-category name.
pub open spec fn spec_cat_chars(c: Category) -> Seq<char> {
    match c {
        Category::Income(IncomeCategory::Salary) => "Income\": \"Salary"@,
        Category::Income(IncomeCategory::Bonus) => "Income\": \"Bonus"@,
        Category::Income(IncomeCategory::Other) => "Income\": \"Other"@,
        Category::Expense(ExpenseCategory::Food) => "Expense\": \"Food"@,
        Category::Expense(ExpenseCategory::Hobby) => "Expense\": \"Hobby"@,
        Category::Expense(ExpenseCategory::Other) => "Expense\": \"Other"@,
    }
}

/// The text up to and including the opening quote of the name.
pub open spec fn lit_item_head() -> Seq<char> {
    "  {\n    \"name\": \""@
}

/// The text between the name's closing quote and the category object's
/// opening quote.
pub open spec fn lit_after_name() -> Seq<char> {
    ",\n    \"category\": {\n      \""@
}

/// The text between the category object and the price value.
pub open spec fn lit_after_cat() -> Seq<char> {
    "\"\n    },\n    \"price\": "@
}

/// The text between the price value and the opening quote of the date.
pub open spec fn lit_after_price() -> Seq<char> {
    ",\n    \"date\": \""@
}

/// The text closing the date and the record.
pub open spec fn lit_item_tail() -> Seq<char> {
    "\"\n  }"@
}

/// The record separator.
pub open spec fn lit_sep() -> Seq<char> {
    ",\n"@
}

/// The text opening a non-empty snapshot.
pub open spec fn lit_open() -> Seq<char> {
    "[\n"@
}

/// The text closing a non-empty snapshot.
pub open spec fn lit_close() -> Seq<char> {
    "\n]\n"@
}

/// The snapshot of an empty dataset.
pub open spec fn lit_empty() -> Seq<char> {
    "[]\n"@
}

/// One record on the wire.
pub open spec fn spec_ser_item(iv: ItemV) -> Seq<char> {
    lit_item_head() + spec_esc(iv.name) + seq!['"'] + lit_after_name() + spec_cat_chars(iv.category)
        + lit_after_cat() + spec_dec(iv.price as nat) + lit_after_price() + spec_date_chars(iv.date)
        + lit_item_tail()
}

/// The records after the first: each preceded by the separator, then
/// the closing text.
pub open spec fn spec_ser_tail(d: Seq<ItemV>) -> Seq<char>
    decreases d.len(),
{
    if d.len() == 0 {
        lit_close()
    } else {
        lit_sep() + spec_ser_item(d[0]) + spec_ser_tail(d.skip(1))
    }
}

/// The canonical snapshot text for a dataset.
pub open spec fn spec_ser(d: Seq<ItemV>) -> Seq<char> {
    if d.len() == 0 {
        lit_empty()
    } else {
        lit_open() + spec_ser_item(d[0]) + spec_ser_tail(d.skip(1))
    }
}

// ---------------------------------------------------------------------
// Parsing
// ---------------------------------------------------------------------

/// Whether the text carries exactly `lit` at position `pos`.
pub open spec fn spec_match(s: Seq<char>, pos: int, lit: Seq<char>) -> bool {
    0 <= pos && pos + lit.len() <= s.len() && s.subrange(pos, pos + lit.len()) == lit
}

/// Read a string body up to and including its closing quote, undoing
/// the escapes; `None` when the text ends first or an unknown escape
/// appears.
pub open spec fn spec_p_str_body(s: Seq<char>, pos: int) -> Option<(Seq<char>, int)>
    decreases s.len() - pos,
{
    if pos < 0 || pos >= s.len() {
        None
    } else if s[pos] == '"' {
        Some((Seq::empty(), pos + 1))
    } else if s[pos] == '\\' {
        if pos + 1 < s.len() && (s[pos + 1] == '"' || s[pos + 1] == '\\') {
            match spec_p_str_body(s, pos + 2) {
                Some((t, e)) => Some((seq![s[pos + 1]] + t, e)),
                None => None,
            }
        } else {
            None
        }
    } else {
        match spec_p_str_body(s, pos + 1) {
            Some((t, e)) => Some((seq![s[pos]] + t, e)),
            None => None,
        }
    }
}

/// The maximal run of digit characters from `pos`, and where it ends.
pub open spec fn spec_p_digits(s: Seq<char>, pos: int) -> (Seq<char>, int)
    decreases s.len() - pos,
{
    if 0 <= pos < s.len() && spec_is_digit(s[pos]) {
        let (ds, e) = spec_p_digits(s, pos + 1);
        (seq![s[pos]] + ds, e)
    } else {
        (Seq::empty(), pos)
    }
}

/// The value of a digit run read left to right into an accumulator.
pub open spec fn spec_val_acc(ds: Seq<char>, acc: int) -> int
    decreases ds.len(),
{
    if ds.len() == 0 {
        acc
    } else {
        spec_val_acc(ds.skip(1), acc * 10 + spec_digit_val(ds[0]))
    }
}

/// The value of a digit run.
pub open spec fn spec_val(ds: Seq<char>) -> int {
    spec_val_acc(ds, 0)
}

/// Read an unsigned decimal number: a run of one to ten digits whose
/// value fits in a `u32`.
pub open spec fn spec_p_u32(s: Seq<char>, pos: int) -> Option<(u32, int)> {
    let (ds, e) = spec_p_digits(s, pos);
    if 1 <= ds.len() <= 10 && spec_val(ds) <= u32::MAX {
        Some((spec_val(ds) as u32, e))
    } else {
        None
    }
}

/// The value of a fixed-width numeral at `pos`, when all its characters
/// are digits.
pub open spec fn spec_fixed_val(s: Seq<char>, pos: int, width: int) -> int
    decreases width,
{
    if width <= 0 {
        0
    } else {
        spec_fixed_val(s, pos, width - 1) * 10 + spec_digit_val(s[pos + width - 1])
    }
}

/// Whether the `width` characters at `pos` are all digits.
pub open spec fn spec_all_digits(s: Seq<char>, pos: int, width: int) -> bool {
    0 <= pos && pos + width <= s.len() && forall|i: int|
        pos <= i < pos + width ==> spec_is_digit(s[i])
}

/// Read a `YYYY-MM-DD` date; `None` unless it names an existing
/// calendar day.
pub open spec fn spec_p_date(s: Seq<char>, pos: int) -> Option<(Date, int)> {
    if 0 <= pos && pos + 10 <= s.len() && spec_all_digits(s, pos, 4) && s[pos + 4] == '-'
        && spec_all_digits(s, pos + 5, 2) && s[pos + 7] == '-' && spec_all_digits(s, pos + 8, 2) {
        let d = Date {
            year: spec_fixed_val(s, pos, 4) as i32,
            month: spec_fixed_val(s, pos + 5, 2) as u32,
            day: spec_fixed_val(s, pos + 8, 2) as u32,
        };
        if spec_date_wf(d) {
            Some((d, pos + 10))
        } else {
            None
        }
    } else {
        None
    }
}

/// Read the interior of the category object: one of the six known
/// tag/sub-category pairs.
pub open spec fn spec_p_cat(s: Seq<char>, pos: int) -> Option<(Category, int)> {
    if spec_match(s, pos, spec_cat_chars(Category::Income(IncomeCategory::Salary))) {
        Some((Category::Income(IncomeCategory::Salary), pos + spec_cat_chars(Category::Income(IncomeCategory::Salary)).len()))
    } else if spec_match(s, pos, spec_cat_chars(Category::Income(IncomeCategory::Bonus))) {
        Some((Category::Income(IncomeCategory::Bonus), pos + spec_cat_chars(Category::Income(IncomeCategory::Bonus)).len()))
    } else if spec_match(s, pos, spec_cat_chars(Category::Income(IncomeCategory::Other))) {
        Some((Category::Income(IncomeCategory::Other), pos + spec_cat_chars(Category::Income(IncomeCategory::Other)).len()))
    } else if spec_match(s, pos, spec_cat_chars(Category::Expense(ExpenseCategory::Food))) {
        Some((Category::Expense(ExpenseCategory::Food), pos + spec_cat_chars(Category::Expense(ExpenseCategory::Food)).len()))
    } else if spec_match(s, pos, spec_cat_chars(Category::Expense(ExpenseCategory::Hobby))) {
        Some((Category::Expense(ExpenseCategory::Hobby), pos + spec_cat_chars(Category::Expense(ExpenseCategory::Hobby)).len()))
    } else if spec_match(s, pos, spec_cat_chars(Category::Expense(ExpenseCategory::Other))) {
        Some((Category::Expense(ExpenseCategory::Other), pos + spec_cat_chars(Category::Expense(ExpenseCategory::Other)).len()))
    } else {
        None
    }
}

/// Read one record.
#[verifier::opaque]
pub open spec fn spec_p_item(s: Seq<char>, pos: int) -> Option<(ItemV, int)> {
    if !spec_match(s, pos, lit_item_head()) {
        None
    } else {
        match spec_p_str_body(s, pos + lit_item_head().len()) {
            None => None,
            Some((name, p1)) => if !spec_match(s, p1, lit_after_name()) {
                None
            } else {
                match spec_p_cat(s, p1 + lit_after_name().len()) {
                    None => None,
                    Some((cat, p2)) => if !spec_match(s, p2, lit_after_cat()) {
                        None
                    } else {
                        match spec_p_u32(s, p2 + lit_after_cat().len()) {
                            None => None,
                            Some((price, p3)) => if !spec_match(s, p3, lit_after_price()) {
                                None
                            } else {
                                match spec_p_date(s, p3 + lit_after_price().len()) {
                                    None => None,
                                    Some((date, p4)) => if !spec_match(s, p4, lit_item_tail()) {
                                        None
                                    } else {
                                        Some(
                                            (
                                                ItemV { name, category: cat, price, date },
                                                p4 + lit_item_tail().len(),
                                            ),
                                        )
                                    },
                                }
                            },
                        }
                    },
                }
            },
        }
    }
}

/// Read the records of a non-empty snapshot from `pos`: one record,
/// then either a separator and more records, or the closing text.
pub open spec fn spec_p_rest(s: Seq<char>, pos: int) -> Option<(Seq<ItemV>, int)>
    decreases s.len() - pos,
{
    match spec_p_item(s, pos) {
        None => None,
        Some((iv, e)) => if spec_match(s, e, lit_sep()) && pos < e {
            match spec_p_rest(s, e + lit_sep().len()) {
                None => None,
                Some((d, e2)) => Some((seq![iv] + d, e2)),
            }
        } else if spec_match(s, e, lit_close()) {
            Some((seq![iv], e + lit_close().len()))
        } else {
            None
        },
    }
}

// ---------------------------------------------------------------------
// Matching helpers
// ---------------------------------------------------------------------

/// Inside a matched region the text carries the literal's characters.
pub proof fn lemma_match_index(s: Seq<char>, pos: int, lit: Seq<char>, i: int)
    requires
        spec_match(s, pos, lit),
        0 <= i < lit.len(),
    ensures
        s[pos + i] == lit[i],
{
    assert(s.subrange(pos, pos + lit.len())[i] == s[pos + i]);
}

/// A match of a concatenation splits into matches of its parts.
pub proof fn lemma_match_split(s: Seq<char>, pos: int, a: Seq<char>, b: Seq<char>)
    requires
        spec_match(s, pos, a + b),
    ensures
        spec_match(s, pos, a),
        spec_match(s, pos + a.len(), b),
{
    assert(s.subrange(pos, pos + a.len()) =~= a) by {
        assert forall|i: int| 0 <= i < a.len() implies s.subrange(pos, pos + a.len())[i] == a[i] by {
            lemma_match_index(s, pos, a + b, i);
        }
    }
    assert(s.subrange(pos + a.len(), pos + a.len() + b.len()) =~= b) by {
        assert forall|i: int| 0 <= i < b.len() implies s.subrange(
            pos + a.len(),
            pos + a.len() + b.len(),
        )[i] == b[i] by {
            lemma_match_index(s, pos, a + b, a.len() + i);
        }
    }
}

/// Matches of two adjacent parts join into a match of their
/// concatenation.
pub proof fn lemma_match_join(s: Seq<char>, pos: int, a: Seq<char>, b: Seq<char>)
    requires
        spec_match(s, pos, a),
        spec_match(s, pos + a.len(), b),
    ensures
        spec_match(s, pos, a + b),
{
    assert(s.subrange(pos, pos + (a + b).len()) =~= a + b) by {
        assert forall|i: int| 0 <= i < (a + b).len() implies s.subrange(
            pos,
            pos + (a + b).len(),
        )[i] == (a + b)[i] by {
            if i < a.len() {
                lemma_match_index(s, pos, a, i);
            } else {
                lemma_match_index(s, pos + a.len(), b, i - a.len());
            }
        }
    }
}

/// Two literals matched at the same position agree wherever both are
/// defined.
pub proof fn lemma_match_agree(s: Seq<char>, pos: int, a: Seq<char>, b: Seq<char>, i: int)
    requires
        spec_match(s, pos, a),
        spec_match(s, pos, b),
        0 <= i < a.len(),
        i < b.len(),
    ensures
        a[i] == b[i],
{
    lemma_match_index(s, pos, a, i);
    lemma_match_index(s, pos, b, i);
}

// ---------------------------------------------------------------------
// Round trip, piece by piece
// ---------------------------------------------------------------------

/// Reading an escaped name followed by its closing quote gives back the
/// name.
pub proof fn lemma_p_str_body_ser(s: Seq<char>, pos: int, name: Seq<char>)
    requires
        spec_match(s, pos, spec_esc(name) + seq!['"']),
    ensures
        spec_p_str_body(s, pos) == Some((name, pos + spec_esc(name).len() + 1)),
    decreases name.len(),
{
    if name.len() == 0 {
        assert(spec_esc(name) =~= Seq::<char>::empty());
        lemma_match_index(s, pos, spec_esc(name) + seq!['"'], 0);
        assert(s[pos] == '"');
        assert(spec_p_str_body(s, pos) == Some((Seq::<char>::empty(), pos + 1)));
        assert(Seq::<char>::empty() =~= name);
    } else {
        let c = name[0];
        let rest = name.skip(1);
        assert(spec_esc(name) == spec_esc_char(c) + spec_esc(rest));
        assert(spec_esc(name) + seq!['"'] =~= spec_esc_char(c) + (spec_esc(rest) + seq!['"']));
        lemma_match_split(s, pos, spec_esc_char(c), spec_esc(rest) + seq!['"']);
        if c == '"' || c == '\\' {
            lemma_match_index(s, pos, spec_esc_char(c), 0);
            lemma_match_index(s, pos, spec_esc_char(c), 1);
            assert(s[pos] == '\\' && s[pos + 1] == c);
            lemma_p_str_body_ser(s, pos + 2, rest);
            assert(seq![c] + rest =~= name);
        } else {
            lemma_match_index(s, pos, spec_esc_char(c), 0);
            assert(s[pos] == c);
            lemma_p_str_body_ser(s, pos + 1, rest);
            assert(seq![c] + rest =~= name);
        }
    }
}

/// Whether every character of a run is a digit.
pub open spec fn spec_all_digit_seq(ds: Seq<char>) -> bool {
    forall|i: int| 0 <= i < ds.len() ==> spec_is_digit(ds[i])
}

/// The digit scan consumes exactly a digit run that ends at a
/// non-digit or at the end of the text.
pub proof fn lemma_p_digits_run(s: Seq<char>, pos: int, ds: Seq<char>)
    requires
        spec_match(s, pos, ds),
        spec_all_digit_seq(ds),
        pos + ds.len() == s.len() || !spec_is_digit(s[pos + ds.len()]),
    ensures
        spec_p_digits(s, pos) == (ds, pos + ds.len()),
    decreases ds.len(),
{
    if ds.len() == 0 {
        assert(ds =~= Seq::<char>::empty());
    } else {
        lemma_match_index(s, pos, ds, 0);
        assert(s[pos] == ds[0]);
        assert(ds =~= seq![ds[0]] + ds.skip(1));
        lemma_match_split(s, pos, seq![ds[0]], ds.skip(1));
        lemma_p_digits_run(s, pos + 1, ds.skip(1));
        assert(seq![s[pos]] + ds.skip(1) =~= ds);
    }
}

/// Appending a digit multiplies the accumulated value by ten and adds
/// the digit.
pub proof fn lemma_val_snoc(ds: Seq<char>, c: char, acc: int)
    ensures
        spec_val_acc(ds + seq![c], acc) == spec_val_acc(ds, acc) * 10 + spec_digit_val(c),
    decreases ds.len(),
{
    if ds.len() == 0 {
        assert((ds + seq![c]).len() == 1);
        assert((ds + seq![c])[0] == c);
        assert((ds + seq![c]).skip(1) =~= Seq::<char>::empty());
        assert(spec_val_acc(Seq::<char>::empty(), acc * 10 + spec_digit_val(c)) == acc * 10
            + spec_digit_val(c));
        assert(spec_val_acc(ds, acc) == acc);
    } else {
        assert((ds + seq![c])[0] == ds[0]);
        assert((ds + seq![c]).skip(1) =~= ds.skip(1) + seq![c]);
        lemma_val_snoc(ds.skip(1), c, acc * 10 + spec_digit_val(ds[0]));
    }
}

/// Powers of ten.
pub open spec fn spec_pow10(k: nat) -> nat
    decreases k,
{
    if k == 0 {
        1
    } else {
        10 * spec_pow10((k - 1) as nat)
    }
}

/// A number below the `k`-th power of ten has at most `k` digits.
pub proof fn lemma_dec_len(n: nat, k: nat)
    requires
        k >= 1,
        n < spec_pow10(k),
    ensures
        spec_dec(n).len() <= k,
    decreases k,
{
    if n < 10 {
    } else {
        if k == 1 {
            assert(spec_pow10(0) == 1);
            assert(spec_pow10(1) == 10);
        }
        assert(spec_pow10(k) == 10 * spec_pow10((k - 1) as nat));
        assert(n / 10 < spec_pow10((k - 1) as nat)) by (nonlinear_arith)
            requires
                n < 10 * spec_pow10((k - 1) as nat),
        ;
        lemma_dec_len(n / 10, (k - 1) as nat);
    }
}

/// The numeral of a number is a non-empty digit run whose value is the
/// number itself.
pub proof fn lemma_dec_val(n: nat)
    ensures
        spec_dec(n).len() >= 1,
        spec_all_digit_seq(spec_dec(n)),
        spec_val(spec_dec(n)) == n,
    decreases n,
{
    if n < 10 {
        lemma_digit_char_val(n as int);
        let ds = spec_dec(n);
        assert(ds == seq![spec_digit_char(n as int)]);
        assert(ds[0] == spec_digit_char(n as int));
        assert(ds.skip(1) =~= Seq::<char>::empty());
        assert(spec_val_acc(ds.skip(1), 0 * 10 + spec_digit_val(ds[0])) == spec_digit_val(ds[0]));
        assert(spec_val(ds) == spec_digit_val(ds[0]));
    } else {
        lemma_dec_val(n / 10);
        lemma_digit_char_val((n % 10) as int);
        lemma_val_snoc(spec_dec(n / 10), spec_digit_char((n % 10) as int), 0);
        assert(spec_all_digit_seq(spec_dec(n))) by {
            assert forall|i: int| 0 <= i < spec_dec(n).len() implies spec_is_digit(
                spec_dec(n)[i],
            ) by {
                if i < spec_dec(n / 10).len() {
                    assert(spec_dec(n)[i] == spec_dec(n / 10)[i]);
                }
            }
        }
    }
}

/// Reading the numeral of a `u32` gives back that value.
pub proof fn lemma_p_u32_ser(s: Seq<char>, pos: int, n: u32)
    requires
        spec_match(s, pos, spec_dec(n as nat)),
        pos + spec_dec(n as nat).len() == s.len() || !spec_is_digit(s[pos + spec_dec(n as nat).len()]),
    ensures
        spec_p_u32(s, pos) == Some((n, pos + spec_dec(n as nat).len())),
{
    lemma_dec_val(n as nat);
    lemma_p_digits_run(s, pos, spec_dec(n as nat));
    reveal_with_fuel(spec_pow10, 11);
    assert(spec_pow10(10) == 10000000000);
    lemma_dec_len(n as nat, 10);
}

/// Reading a two-digit numeral gives back the value it was written
/// from.
pub proof fn lemma_pad2_val(s: Seq<char>, pos: int, v: int)
    requires
        0 <= v <= 99,
        spec_match(s, pos, spec_pad2(v)),
    ensures
        spec_all_digits(s, pos, 2),
        spec_fixed_val(s, pos, 2) == v,
{
    lemma_match_index(s, pos, spec_pad2(v), 0);
    lemma_match_index(s, pos, spec_pad2(v), 1);
    lemma_digit_char_val(v / 10 % 10);
    lemma_digit_char_val(v % 10);
    assert(spec_fixed_val(s, pos, 0) == 0);
    assert(spec_fixed_val(s, pos, 1) == spec_digit_val(s[pos]));
    assert(spec_fixed_val(s, pos, 2) == spec_fixed_val(s, pos, 1) * 10 + spec_digit_val(
        s[pos + 1],
    ));
    assert(v / 10 % 10 == v / 10);
}

/// Reading a four-digit numeral gives back the value it was written
/// from.
pub proof fn lemma_pad4_val(s: Seq<char>, pos: int, v: int)
    requires
        0 <= v <= 9999,
        spec_match(s, pos, spec_pad4(v)),
    ensures
        spec_all_digits(s, pos, 4),
        spec_fixed_val(s, pos, 4) == v,
{
    lemma_match_index(s, pos, spec_pad4(v), 0);
    lemma_match_index(s, pos, spec_pad4(v), 1);
    lemma_match_index(s, pos, spec_pad4(v), 2);
    lemma_match_index(s, pos, spec_pad4(v), 3);
    lemma_digit_char_val(v / 1000 % 10);
    lemma_digit_char_val(v / 100 % 10);
    lemma_digit_char_val(v / 10 % 10);
    lemma_digit_char_val(v % 10);
    assert(spec_fixed_val(s, pos, 0) == 0);
    assert(spec_fixed_val(s, pos, 1) == spec_digit_val(s[pos]));
    assert(spec_fixed_val(s, pos, 2) == spec_fixed_val(s, pos, 1) * 10 + spec_digit_val(
        s[pos + 1],
    ));
    assert(spec_fixed_val(s, pos, 3) == spec_fixed_val(s, pos, 2) * 10 + spec_digit_val(
        s[pos + 2],
    ));
    assert(spec_fixed_val(s, pos, 4) == spec_fixed_val(s, pos, 3) * 10 + spec_digit_val(
        s[pos + 3],
    ));
    assert(v / 1000 % 10 == v / 1000);
    assert(((v / 1000 * 10 + v / 100 % 10) * 10 + v / 10 % 10) * 10 + v % 10 == v) by {
        assert(v / 100 == v / 1000 * 10 + v / 100 % 10);
        assert(v / 10 == v / 100 * 10 + v / 10 % 10);
        assert(v == v / 10 * 10 + v % 10);
    }
}

/// Reading the written form of a well-formed date gives back that date.
pub proof fn lemma_p_date_ser(s: Seq<char>, pos: int, d: Date)
    requires
        spec_date_wf(d),
        spec_match(s, pos, spec_date_chars(d)),
    ensures
        spec_p_date(s, pos) == Some((d, pos + 10)),
{
    let p4 = spec_pad4(d.year as int);
    let m2 = spec_pad2(d.month as int);
    let d2 = spec_pad2(d.day as int);
    let dash = seq!['-'];
    lemma_match_split(s, pos, p4 + dash + m2 + dash, d2);
    lemma_match_split(s, pos, p4 + dash + m2, dash);
    lemma_match_split(s, pos, p4 + dash, m2);
    lemma_match_split(s, pos, p4, dash);
    lemma_pad4_val(s, pos, d.year as int);
    lemma_pad2_val(s, pos + 5, d.month as int);
    lemma_pad2_val(s, pos + 8, d.day as int);
    lemma_match_index(s, pos + 4, dash, 0);
    lemma_match_index(s, pos + 7, dash, 0);
    assert(spec_p_date(s, pos) == Some((d, pos + 10)));
}

/// Reading the written form of a category gives back that category.
pub proof fn lemma_p_cat_ser(s: Seq<char>, pos: int, c: Category)
    requires
        spec_match(s, pos, spec_cat_chars(c)),
    ensures
        spec_p_cat(s, pos) == Some((c, pos + spec_cat_chars(c).len())),
{
    reveal_strlit("Income\": \"Salary");
    reveal_strlit("Income\": \"Bonus");
    reveal_strlit("Income\": \"Other");
    reveal_strlit("Expense\": \"Food");
    reveal_strlit("Expense\": \"Hobby");
    reveal_strlit("Expense\": \"Other");
    let is = spec_cat_chars(Category::Income(IncomeCategory::Salary));
    let ib = spec_cat_chars(Category::Income(IncomeCategory::Bonus));
    let io = spec_cat_chars(Category::Income(IncomeCategory::Other));
    let ef = spec_cat_chars(Category::Expense(ExpenseCategory::Food));
    let eh = spec_cat_chars(Category::Expense(ExpenseCategory::Hobby));
    let eo = spec_cat_chars(Category::Expense(ExpenseCategory::Other));
    match c {
        Category::Income(IncomeCategory::Salary) => {},
        Category::Income(IncomeCategory::Bonus) => {
            if spec_match(s, pos, is) {
                lemma_match_agree(s, pos, ib, is, 10);
            }
        },
        Category::Income(IncomeCategory::Other) => {
            if spec_match(s, pos, is) {
                lemma_match_agree(s, pos, io, is, 10);
            }
            if spec_match(s, pos, ib) {
                lemma_match_agree(s, pos, io, ib, 10);
            }
        },
        Category::Expense(ExpenseCategory::Food) => {
            if spec_match(s, pos, is) {
                lemma_match_agree(s, pos, ef, is, 0);
            }
            if spec_match(s, pos, ib) {
                lemma_match_agree(s, pos, ef, ib, 0);
            }
            if spec_match(s, pos, io) {
                lemma_match_agree(s, pos, ef, io, 0);
            }
        },
        Category::Expense(ExpenseCategory::Hobby) => {
            if spec_match(s, pos, is) {
                lemma_match_agree(s, pos, eh, is, 0);
            }
            if spec_match(s, pos, ib) {
                lemma_match_agree(s, pos, eh, ib, 0);
            }
            if spec_match(s, pos, io) {
                lemma_match_agree(s, pos, eh, io, 0);
            }
            if spec_match(s, pos, ef) {
                lemma_match_agree(s, pos, eh, ef, 11);
            }
        },
        Category::Expense(ExpenseCategory::Other) => {
            if spec_match(s, pos, is) {
                lemma_match_agree(s, pos, eo, is, 0);
            }
            if spec_match(s, pos, ib) {
                lemma_match_agree(s, pos, eo, ib, 0);
            }
            if spec_match(s, pos, io) {
                lemma_match_agree(s, pos, eo, io, 0);
            }
            if spec_match(s, pos, ef) {
                lemma_match_agree(s, pos, eo, ef, 11);
            }
            if spec_match(s, pos, eh) {
                lemma_match_agree(s, pos, eo, eh, 11);
            }
        },
    }
}

/// Reading the written form of a well-formed record gives back that
/// record.
pub proof fn lemma_p_item_ser(s: Seq<char>, pos: int, iv: ItemV)
    requires
        spec_item_wf(iv),
        spec_match(s, pos, spec_ser_item(iv)),
    ensures
        spec_p_item(s, pos) == Some((iv, pos + spec_ser_item(iv).len())),
{
    reveal(spec_p_item);
    let a = lit_item_head();
    let e1 = spec_esc(iv.name);
    let q = seq!['"'];
    let b = lit_after_name();
    let cc = spec_cat_chars(iv.category);
    let c2 = lit_after_cat();
    let f = spec_dec(iv.price as nat);
    let g = lit_after_price();
    let h = spec_date_chars(iv.date);
    let t = lit_item_tail();
    lemma_match_split(s, pos, a + e1 + q + b + cc + c2 + f + g + h, t);
    lemma_match_split(s, pos, a + e1 + q + b + cc + c2 + f + g, h);
    lemma_match_split(s, pos, a + e1 + q + b + cc + c2 + f, g);
    lemma_match_split(s, pos, a + e1 + q + b + cc + c2, f);
    lemma_match_split(s, pos, a + e1 + q + b + cc, c2);
    lemma_match_split(s, pos, a + e1 + q + b, cc);
    lemma_match_split(s, pos, a + e1 + q, b);
    lemma_match_split(s, pos, a + e1, q);
    lemma_match_split(s, pos, a, e1);
    let la = a.len() as int;
    lemma_match_join(s, pos + la, e1, q);
    lemma_p_str_body_ser(s, pos + la, iv.name);
    let p1 = pos + la + e1.len() + 1;
    lemma_p_cat_ser(s, p1 + b.len(), iv.category);
    let p2 = p1 + b.len() + cc.len();
    reveal_strlit(",\n    \"date\": \"");
    lemma_match_index(s, p2 + c2.len() + f.len(), g, 0);
    assert(s[p2 + c2.len() + f.len()] == ',');
    assert(!spec_is_digit(','));
    lemma_p_u32_ser(s, p2 + c2.len(), iv.price);
    let p3 = p2 + c2.len() + f.len();
    lemma_p_date_ser(s, p3 + g.len(), iv.date);
    let p4 = p3 + g.len() + 10;
    assert(spec_date_chars(iv.date).len() == 10);
    assert(spec_p_item(s, pos) == Some((iv, pos + spec_ser_item(iv).len())));
}

/// Reading the records written for a non-empty dataset gives back
/// exactly those records, ending where the written text ends.
pub proof fn lemma_p_rest_ser(s: Seq<char>, pos: int, d: Seq<ItemV>)
    requires
        d.len() >= 1,
        forall|i: int| 0 <= i < d.len() ==> spec_item_wf(#[trigger] d[i]),
        spec_match(s, pos, spec_ser_item(d[0]) + spec_ser_tail(d.skip(1))),
    ensures
        spec_p_rest(s, pos) == Some(
            (d, pos + spec_ser_item(d[0]).len() + spec_ser_tail(d.skip(1)).len()),
        ),
    decreases d.len(),
{
    reveal_strlit("  {\n    \"name\": \"");
    reveal_strlit(",\n");
    reveal_strlit("\n]\n");
    let item = spec_ser_item(d[0]);
    let tail = spec_ser_tail(d.skip(1));
    lemma_match_split(s, pos, item, tail);
    lemma_p_item_ser(s, pos, d[0]);
    let e0 = pos + item.len();
    assert(item.len() >= lit_item_head().len());
    if d.len() == 1 {
        assert(d.skip(1).len() == 0);
        assert(tail == lit_close());
        if spec_match(s, e0, lit_sep()) {
            lemma_match_agree(s, e0, lit_close(), lit_sep(), 0);
        }
        assert(spec_p_rest(s, pos) == Some((seq![d[0]], e0 + lit_close().len())));
        assert(seq![d[0]] =~= d);
    } else {
        let d1 = d.skip(1);
        assert(d1.len() >= 1);
        assert(tail == lit_sep() + spec_ser_item(d1[0]) + spec_ser_tail(d1.skip(1)));
        let item1 = spec_ser_item(d1[0]);
        let tail1 = spec_ser_tail(d1.skip(1));
        lemma_match_split(s, e0, lit_sep() + item1, tail1);
        lemma_match_split(s, e0, lit_sep(), item1);
        lemma_match_join(s, e0 + lit_sep().len(), item1, tail1);
        assert(forall|i: int| 0 <= i < d1.len() ==> spec_item_wf(#[trigger] d1[i])) by {
            assert(forall|i: int| 0 <= i < d1.len() ==> d1[i] == d[i + 1]);
        }
        lemma_p_rest_ser(s, e0 + lit_sep().len(), d1);
        assert(seq![d[0]] + d1 =~= d);
    }
}

/// Reading the snapshot written for any well-formed dataset gives back
/// exactly that dataset: saving and then loading loses nothing.
pub proof fn lemma_parse_ser(d: Seq<ItemV>)
    requires
        forall|i: int| 0 <= i < d.len() ==> spec_item_wf(#[trigger] d[i]),
    ensures
        spec_parse(spec_ser(d)) == Some(d),
{
    reveal_strlit("[]\n");
    reveal_strlit("[\n");
    reveal_strlit("  {\n    \"name\": \"");
    let s = spec_ser(d);
    if d.len() == 0 {
        assert(s == lit_empty());
        assert(Seq::<ItemV>::empty() =~= d);
    } else {
        let item = spec_ser_item(d[0]);
        let tail = spec_ser_tail(d.skip(1));
        assert(s == lit_open() + item + tail);
        assert(item.len() >= lit_item_head().len());
        assert(s.len() >= lit_open().len() + lit_item_head().len());
        assert(s.len() > lit_empty().len());
        assert(s != lit_empty());
        assert(s.subrange(0, s.len() as int) =~= s);
        assert(spec_match(s, 0, (lit_open() + item) + tail));
        lemma_match_split(s, 0, lit_open() + item, tail);
        lemma_match_split(s, 0, lit_open(), item);
        lemma_match_join(s, lit_open().len() as int, item, tail);
        lemma_p_rest_ser(s, lit_open().len() as int, d);
        assert(spec_parse(s) == Some(d));
    }
}

/// The strict reading of a snapshot text: the empty snapshot, or the
/// opening text followed by records that consume the whole text.
pub open spec fn spec_parse(s: Seq<char>) -> Option<Seq<ItemV>> {
    if s == lit_empty() {
        Some(Seq::empty())
    } else if spec_match(s, 0, lit_open()) {
        match spec_p_rest(s, lit_open().len() as int) {
            None => None,
            Some((d, e)) => if e == s.len() {
                Some(d)
            } else {
                None
            },
        }
    } else {
        None
    }
}

// ---------------------------------------------------------------------
// Executable writer
// ---------------------------------------------------------------------

/// Append the characters of a string slice.
fn push_str_chars(out: &mut Vec<char>, s: &str)
    ensures
        final(out)@ == old(out)@ + s@,
{
    let n: usize = s.unicode_len();
    let mut i: usize = 0;
    while i < n
        invariant
            i <= n,
            n == s@.len(),
            out@ == old(out)@ + s@.subrange(0, i as int),
        decreases n - i,
    {
        let c: char = s.get_char(i);
        out.push(c);
        proof {
            assert(old(out)@ + s@.subrange(0, i + 1 as int) =~= (old(out)@ + s@.subrange(
                0,
                i as int,
            )).push(s@[i as int]));
        }
        i += 1;
    }
    proof {
        assert(s@.subrange(0, n as int) =~= s@);
    }
}

/// The character of a decimal digit value.
fn digit_char_of(d: u32) -> (c: char)
    requires
        d <= 9,
    ensures
        c == spec_digit_char(d as int),
{
    match d {
        0 => '0',
        1 => '1',
        2 => '2',
        3 => '3',
        4 => '4',
        5 => '5',
        6 => '6',
        7 => '7',
        8 => '8',
        _ => '9',
    }
}

/// Append the decimal numeral of a value.
fn push_dec(out: &mut Vec<char>, n: u32)
    ensures
        final(out)@ == old(out)@ + spec_dec(n as nat),
    decreases n,
{
    if n < 10 {
        let c: char = digit_char_of(n);
        out.push(c);
        proof {
            assert(old(out)@ + spec_dec(n as nat) =~= old(out)@.push(spec_digit_char(n as int)));
        }
    } else {
        push_dec(out, n / 10);
        let c: char = digit_char_of(n % 10);
        out.push(c);
        proof {
            assert(old(out)@ + spec_dec(n as nat) =~= (old(out)@ + spec_dec((n / 10) as nat)).push(
                spec_digit_char((n % 10) as int),
            ));
        }
    }
}

/// Append a two-digit zero-padded numeral.
fn push_pad2(out: &mut Vec<char>, n: u32)
    requires
        n <= 99,
    ensures
        final(out)@ == old(out)@ + spec_pad2(n as int),
{
    let c0: char = digit_char_of(n / 10 % 10);
    out.push(c0);
    let c1: char = digit_char_of(n % 10);
    out.push(c1);
    proof {
        assert(old(out)@ + spec_pad2(n as int) =~= old(out)@.push(
            spec_digit_char(n as int / 10 % 10),
        ).push(spec_digit_char(n as int % 10)));
    }
}

/// Append a four-digit zero-padded numeral.
fn push_pad4(out: &mut Vec<char>, n: u32)
    requires
        n <= 9999,
    ensures
        final(out)@ == old(out)@ + spec_pad4(n as int),
{
    let c0: char = digit_char_of(n / 1000 % 10);
    out.push(c0);
    let c1: char = digit_char_of(n / 100 % 10);
    out.push(c1);
    let c2: char = digit_char_of(n / 10 % 10);
    out.push(c2);
    let c3: char = digit_char_of(n % 10);
    out.push(c3);
    proof {
        assert(old(out)@ + spec_pad4(n as int) =~= old(out)@.push(
            spec_digit_char(n as int / 1000 % 10),
        ).push(spec_digit_char(n as int / 100 % 10)).push(spec_digit_char(n as int / 10 % 10)).push(
            spec_digit_char(n as int % 10),
        ));
    }
}

/// Append a date as `YYYY-MM-DD`.
fn push_date(out: &mut Vec<char>, d: Date)
    requires
        spec_date_wf(d),
    ensures
        final(out)@ == old(out)@ + spec_date_chars(d),
{
    push_pad4(out, d.year as u32);
    out.push('-');
    push_pad2(out, d.month);
    out.push('-');
    push_pad2(out, d.day);
    proof {
        assert(old(out)@ + spec_date_chars(d) =~= (((old(out)@ + spec_pad4(d.year as int)).push(
            '-',
        ) + spec_pad2(d.month as int)).push('-') + spec_pad2(d.day as int)));
    }
}

/// Append the interior of the category object.
fn push_cat(out: &mut Vec<char>, c: &Category)
    ensures
        final(out)@ == old(out)@ + spec_cat_chars(*c),
{
    match c {
        Category::Income(IncomeCategory::Salary) => push_str_chars(out, "Income\": \"Salary"),
        Category::Income(IncomeCategory::Bonus) => push_str_chars(out, "Income\": \"Bonus"),
        Category::Income(IncomeCategory::Other) => push_str_chars(out, "Income\": \"Other"),
        Category::Expense(ExpenseCategory::Food) => push_str_chars(out, "Expense\": \"Food"),
        Category::Expense(ExpenseCategory::Hobby) => push_str_chars(out, "Expense\": \"Hobby"),
        Category::Expense(ExpenseCategory::Other) => push_str_chars(out, "Expense\": \"Other"),
    }
}

/// Append the escaped form of a name.
fn push_esc(out: &mut Vec<char>, s: &str)
    ensures
        final(out)@ == old(out)@ + spec_esc(s@),
{
    let n: usize = s.unicode_len();
    let mut i: usize = 0;
    proof {
        assert(s@.skip(0) =~= s@);
    }
    while i < n
        invariant
            i <= n,
            n == s@.len(),
            out@ + spec_esc(s@.skip(i as int)) == old(out)@ + spec_esc(s@),
        decreases n - i,
    {
        let ghost pre = out@;
        let c: char = s.get_char(i);
        if c == '"' || c == '\\' {
            out.push('\\');
            out.push(c);
        } else {
            out.push(c);
        }
        proof {
            let tail = s@.skip(i as int);
            assert(tail.len() > 0);
            assert(tail[0] == c);
            assert(tail.skip(1) =~= s@.skip(i + 1 as int));
            assert(spec_esc(tail) == spec_esc_char(c) + spec_esc(s@.skip(i + 1 as int)));
            assert(out@ == pre + spec_esc_char(c));
            assert(out@ + spec_esc(s@.skip(i + 1 as int)) =~= pre + spec_esc(tail));
        }
        i += 1;
    }
    proof {
        assert(s@.skip(n as int) =~= Seq::<char>::empty());
        assert(spec_esc(Seq::<char>::empty()) =~= Seq::<char>::empty());
        assert(out@ + spec_esc(s@.skip(n as int)) =~= out@);
    }
}

/// Append one record.
fn push_item(out: &mut Vec<char>, it: &crate::models::Item)
    requires
        spec_item_wf(it@),
    ensures
        final(out)@ == old(out)@ + spec_ser_item(it@),
{
    push_str_chars(out, "  {\n    \"name\": \"");
    push_esc(out, it.name.as_str());
    out.push('"');
    push_str_chars(out, ",\n    \"category\": {\n      \"");
    push_cat(out, &it.category);
    push_str_chars(out, "\"\n    },\n    \"price\": ");
    push_dec(out, it.price);
    push_str_chars(out, ",\n    \"date\": \"");
    push_date(out, it.date);
    push_str_chars(out, "\"\n  }");
    proof {
        assert(out@ =~= old(out)@ + spec_ser_item(it@));
    }
}

/// The snapshot text of a dataset, as characters.
pub(crate) fn ser_items_chars(data: &Vec<crate::models::Item>) -> (out: Vec<char>)
    requires
        forall|i: int| 0 <= i < data@.len() ==> spec_item_wf(#[trigger] data.deep_view()[i]),
    ensures
        out@ == spec_ser(data.deep_view()),
{
    let ghost d = data.deep_view();
    let mut out: Vec<char> = Vec::new();
    if data.len() == 0 {
        push_str_chars(&mut out, "[]\n");
        proof {
            assert(out@ =~= spec_ser(d));
        }
        return out;
    }
    push_str_chars(&mut out, "[\n");
    proof {
        assert(d[0] == data@[0]@);
    }
    push_item(&mut out, &data[0]);
    let mut k: usize = 1;
    proof {
        assert(out@ + spec_ser_tail(d.skip(1)) =~= spec_ser(d));
    }
    while k < data.len()
        invariant
            1 <= k <= data@.len(),
            d == data.deep_view(),
            d.len() == data@.len(),
            forall|i: int| 0 <= i < data@.len() ==> spec_item_wf(#[trigger] d[i]),
            out@ + spec_ser_tail(d.skip(k as int)) == spec_ser(d),
        decreases data@.len() - k,
    {
        let ghost pre = out@;
        push_str_chars(&mut out, ",\n");
        proof {
            assert(d[k as int] == data@[k as int]@);
        }
        push_item(&mut out, &data[k]);
        proof {
            let tail = d.skip(k as int);
            assert(tail[0] == d[k as int]);
            assert(tail.skip(1) =~= d.skip(k + 1 as int));
            assert(spec_ser_tail(tail) == lit_sep() + spec_ser_item(d[k as int]) + spec_ser_tail(
                d.skip(k + 1 as int),
            ));
            assert(out@ + spec_ser_tail(d.skip(k + 1 as int)) =~= pre + spec_ser_tail(tail));
        }
        k += 1;
    }
    push_str_chars(&mut out, "\n]\n");
    proof {
        assert(d.skip(d.len() as int) =~= Seq::<ItemV>::empty());
        assert(spec_ser_tail(Seq::<ItemV>::empty()) == lit_close());
    }
    out
}

// ---------------------------------------------------------------------
// Executable reader
// ---------------------------------------------------------------------

/// Relies on `String`'s `FromIterator<char>` impl: collecting characters
/// yields the string of exactly those characters, in order.
#[verifier::external_body]
pub(crate) fn chars_to_string(v: &Vec<char>) -> (s: String)
    ensures
        s@ == v@,
{
    v.iter().collect()
}

/// The characters of a string slice, as a vector.
fn str_to_chars(s: &str) -> (v: Vec<char>)
    ensures
        v@ == s@,
{
    let n: usize = s.unicode_len();
    let mut v: Vec<char> = Vec::new();
    let mut i: usize = 0;
    while i < n
        invariant
            i <= n,
            n == s@.len(),
            v@ == s@.subrange(0, i as int),
        decreases n - i,
    {
        let c: char = s.get_char(i);
        v.push(c);
        proof {
            assert(s@.subrange(0, i + 1 as int) =~= s@.subrange(0, i as int).push(s@[i as int]));
        }
        i += 1;
    }
    proof {
        assert(s@.subrange(0, n as int) =~= s@);
    }
    v
}

/// Whether the text carries the literal at the given position.
fn ck_lit(s: &Vec<char>, pos: usize, lit: &str) -> (r: bool)
    ensures
        r == spec_match(s@, pos as int, lit@),
{
    let n: usize = lit.unicode_len();
    if pos > s.len() || n > s.len() - pos {
        return false;
    }
    let mut i: usize = 0;
    while i < n
        invariant
            i <= n,
            n == lit@.len(),
            pos + n <= s@.len(),
            pos + n <= usize::MAX,
            forall|j: int| 0 <= j < i ==> s@[pos + j] == lit@[j],
        decreases n - i,
    {
        let c: char = s[pos + i];
        let lc: char = lit.get_char(i);
        if c != lc {
            proof {
                if spec_match(s@, pos as int, lit@) {
                    lemma_match_index(s@, pos as int, lit@, i as int);
                }
            }
            return false;
        }
        i += 1;
    }
    proof {
        assert(s@.subrange(pos as int, pos as int + lit@.len()) =~= lit@);
    }
    true
}

/// Whether a character is a decimal digit.
fn is_digit_exec(c: char) -> (r: bool)
    ensures
        r == spec_is_digit(c),
{
    let u: u32 = c as u32;
    48 <= u && u <= 57
}

/// The value of a digit character.
fn digit_val_exec(c: char) -> (d: u32)
    requires
        spec_is_digit(c),
    ensures
        d as int == spec_digit_val(c),
        d <= 9,
{
    (c as u32) - 48
}

/// Read a string body, undoing the escapes.
fn parse_str_body(s: &Vec<char>, pos: usize) -> (r: Option<(Vec<char>, usize)>)
    ensures
        ({
            match spec_p_str_body(s@, pos as int) {
                Some((t, e)) => r matches Some(p) && p.0@ == t && p.1 as int == e,
                None => r is None,
            }
        }),
{
    let mut out: Vec<char> = Vec::new();
    let mut i: usize = pos;
    proof {
        assert(out@ =~= Seq::<char>::empty());
    }
    loop
        invariant
            pos <= i,
            ({
                match spec_p_str_body(s@, i as int) {
                    Some((t, e)) => spec_p_str_body(s@, pos as int) == Some((out@ + t, e)),
                    None => spec_p_str_body(s@, pos as int) is None,
                }
            }),
        decreases s@.len() - i,
    {
        if i >= s.len() {
            return None;
        }
        let c: char = s[i];
        if c == '"' {
            proof {
                assert(out@ + Seq::<char>::empty() =~= out@);
            }
            return Some((out, i + 1));
        } else if c == '\\' {
            if i + 1 < s.len() {
                let c2: char = s[i + 1];
                if c2 == '"' || c2 == '\\' {
                    let ghost pre = out@;
                    out.push(c2);
                    proof {
                        if let Some((t, e)) = spec_p_str_body(s@, i + 2 as int) {
                            assert(spec_p_str_body(s@, i as int) == Some((seq![c2] + t, e)));
                            assert(out@ + t =~= pre + (seq![c2] + t));
                        }
                    }
                    i = i + 2;
                } else {
                    return None;
                }
            } else {
                return None;
            }
        } else {
            let ghost pre = out@;
            out.push(c);
            proof {
                if let Some((t, e)) = spec_p_str_body(s@, i + 1 as int) {
                    assert(spec_p_str_body(s@, i as int) == Some((seq![c] + t, e)));
                    assert(out@ + t =~= pre + (seq![c] + t));
                }
            }
            i = i + 1;
        }
    }
}

/// Powers of ten never vanish.
proof fn lemma_pow10_pos(k: nat)
    ensures
        spec_pow10(k) >= 1,
    decreases k,
{
    if k > 0 {
        lemma_pow10_pos((k - 1) as nat);
    }
}

/// Powers of ten grow with the exponent.
proof fn lemma_pow10_mono(a: nat, b: nat)
    requires
        a <= b,
    ensures
        spec_pow10(a) <= spec_pow10(b),
    decreases b,
{
    if a < b {
        lemma_pow10_mono(a, (b - 1) as nat);
        lemma_pow10_pos((b - 1) as nat);
        assert(spec_pow10(b) == 10 * spec_pow10((b - 1) as nat));
    }
}

/// Read an unsigned decimal number that fits in a `u32`.
fn parse_u32(s: &Vec<char>, pos: usize) -> (r: Option<(u32, usize)>)
    ensures
        ({
            match spec_p_u32(s@, pos as int) {
                Some((v, e)) => r matches Some(p) && p.0 == v && p.1 as int == e,
                None => r is None,
            }
        }),
{
    if pos >= s.len() {
        return None;
    }
    let mut e: usize = pos;
    while e < s.len() && is_digit_exec(s[e])
        invariant
            pos <= e <= s@.len(),
            forall|j: int| pos <= j < e ==> spec_is_digit(s@[j]),
        decreases s@.len() - e,
    {
        e = e + 1;
    }
    let ghost ds = s@.subrange(pos as int, e as int);
    proof {
        assert(s@.subrange(pos as int, pos + ds.len()) == ds);
        assert(spec_all_digit_seq(ds)) by {
            assert(forall|j: int| 0 <= j < ds.len() ==> ds[j] == s@[pos + j]);
        }
        lemma_p_digits_run(s@, pos as int, ds);
    }
    let runlen: usize = e - pos;
    if runlen == 0 || runlen > 10 {
        return None;
    }
    let mut acc: u64 = 0;
    let mut j: usize = pos;
    proof {
        assert(ds.skip(0) =~= ds);
        assert(spec_pow10(0) == 1);
    }
    while j < e
        invariant
            pos <= j <= e,
            e <= s@.len(),
            e - pos <= 10,
            ds == s@.subrange(pos as int, e as int),
            forall|i: int| pos <= i < e ==> spec_is_digit(s@[i]),
            spec_val_acc(ds.skip(j - pos), acc as int) == spec_val(ds),
            acc < spec_pow10((j - pos) as nat),
        decreases e - j,
    {
        let c: char = s[j];
        let d: u32 = digit_val_exec(c);
        proof {
            let k = j - pos;
            assert(ds[k] == s@[j as int]);
            assert(ds.skip(k)[0] == ds[k]);
            assert(ds.skip(k).skip(1) =~= ds.skip(k + 1));
            assert(spec_val_acc(ds.skip(k), acc as int) == spec_val_acc(
                ds.skip(k + 1),
                acc as int * 10 + spec_digit_val(ds[k]),
            ));
            assert(spec_pow10((k + 1) as nat) == 10 * spec_pow10(k as nat));
            reveal_with_fuel(spec_pow10, 11);
            lemma_pow10_mono((k + 1) as nat, 10);
            assert(spec_pow10(10) == 10000000000);
        }
        acc = acc * 10 + (d as u64);
        j = j + 1;
    }
    proof {
        assert(ds.skip(e - pos) =~= Seq::<char>::empty());
        assert(spec_val(ds) == acc as int);
    }
    if acc > 0xFFFF_FFFFu64 {
        return None;
    }
    Some((acc as u32, e))
}

/// Read a `YYYY-MM-DD` date naming an existing calendar day.
fn parse_date(s: &Vec<char>, pos: usize) -> (r: Option<(Date, usize)>)
    ensures
        ({
            match spec_p_date(s@, pos as int) {
                Some((d, e)) => r matches Some(p) && p.0 == d && p.1 as int == e,
                None => r is None,
            }
        }),
{
    if pos > s.len() || s.len() - pos < 10 {
        return None;
    }
    if !is_digit_exec(s[pos]) || !is_digit_exec(s[pos + 1]) || !is_digit_exec(s[pos + 2])
        || !is_digit_exec(s[pos + 3]) {
        return None;
    }
    if s[pos + 4] != '-' {
        return None;
    }
    if !is_digit_exec(s[pos + 5]) || !is_digit_exec(s[pos + 6]) {
        return None;
    }
    if s[pos + 7] != '-' {
        return None;
    }
    if !is_digit_exec(s[pos + 8]) || !is_digit_exec(s[pos + 9]) {
        return None;
    }
    let y: u32 = ((digit_val_exec(s[pos]) * 10 + digit_val_exec(s[pos + 1])) * 10 + digit_val_exec(
        s[pos + 2],
    )) * 10 + digit_val_exec(s[pos + 3]);
    let m: u32 = digit_val_exec(s[pos + 5]) * 10 + digit_val_exec(s[pos + 6]);
    let day: u32 = digit_val_exec(s[pos + 8]) * 10 + digit_val_exec(s[pos + 9]);
    proof {
        assert(spec_all_digits(s@, pos as int, 4));
        assert(spec_all_digits(s@, pos + 5, 2));
        assert(spec_all_digits(s@, pos + 8, 2));
        assert(spec_fixed_val(s@, pos as int, 0) == 0);
        assert(spec_fixed_val(s@, pos as int, 1) == spec_digit_val(s@[pos as int]));
        assert(spec_fixed_val(s@, pos as int, 2) == spec_fixed_val(s@, pos as int, 1) * 10
            + spec_digit_val(s@[pos + 1]));
        assert(spec_fixed_val(s@, pos as int, 3) == spec_fixed_val(s@, pos as int, 2) * 10
            + spec_digit_val(s@[pos + 2]));
        assert(spec_fixed_val(s@, pos as int, 4) == spec_fixed_val(s@, pos as int, 3) * 10
            + spec_digit_val(s@[pos + 3]));
        assert(spec_fixed_val(s@, pos + 5, 0) == 0);
        assert(spec_fixed_val(s@, pos + 5, 1) == spec_digit_val(s@[pos + 5]));
        assert(spec_fixed_val(s@, pos + 5, 2) == spec_fixed_val(s@, pos + 5, 1) * 10
            + spec_digit_val(s@[pos + 6]));
        assert(spec_fixed_val(s@, pos + 8, 0) == 0);
        assert(spec_fixed_val(s@, pos + 8, 1) == spec_digit_val(s@[pos + 8]));
        assert(spec_fixed_val(s@, pos + 8, 2) == spec_fixed_val(s@, pos + 8, 1) * 10
            + spec_digit_val(s@[pos + 9]));
    }
    match Date::new(y as i32, m, day) {
        Some(d) => Some((d, pos + 10)),
        None => None,
    }
}

/// Read the interior of the category object.
fn parse_cat(s: &Vec<char>, pos: usize) -> (r: Option<(Category, usize)>)
    ensures
        ({
            match spec_p_cat(s@, pos as int) {
                Some((c, e)) => r matches Some(p) && p.0 == c && p.1 as int == e,
                None => r is None,
            }
        }),
{
    let total: usize = s.len();
    let l_is = "Income\": \"Salary";
    let l_ib = "Income\": \"Bonus";
    let l_io = "Income\": \"Other";
    let l_ef = "Expense\": \"Food";
    let l_eh = "Expense\": \"Hobby";
    let l_eo = "Expense\": \"Other";
    if ck_lit(s, pos, l_is) {
        Some((Category::Income(IncomeCategory::Salary), pos + l_is.unicode_len()))
    } else if ck_lit(s, pos, l_ib) {
        Some((Category::Income(IncomeCategory::Bonus), pos + l_ib.unicode_len()))
    } else if ck_lit(s, pos, l_io) {
        Some((Category::Income(IncomeCategory::Other), pos + l_io.unicode_len()))
    } else if ck_lit(s, pos, l_ef) {
        Some((Category::Expense(ExpenseCategory::Food), pos + l_ef.unicode_len()))
    } else if ck_lit(s, pos, l_eh) {
        Some((Category::Expense(ExpenseCategory::Hobby), pos + l_eh.unicode_len()))
    } else if ck_lit(s, pos, l_eo) {
        Some((Category::Expense(ExpenseCategory::Other), pos + l_eo.unicode_len()))
    } else {
        None
    }
}

/// Read one record.
fn parse_item(s: &Vec<char>, pos: usize) -> (r: Option<(Item, usize)>)
    ensures
        ({
            match spec_p_item(s@, pos as int) {
                Some((iv, e)) => r matches Some(p) && p.0@ == iv && p.1 as int == e,
                None => r is None,
            }
        }),
{
    proof {
        reveal(spec_p_item);
    }
    let total: usize = s.len();
    let l1 = "  {\n    \"name\": \"";
    if !ck_lit(s, pos, l1) {
        return None;
    }
    let p0: usize = pos + l1.unicode_len();
    let (namechars, p1) = match parse_str_body(s, p0) {
        None => {
            return None;
        },
        Some(x) => x,
    };
    let l2 = ",\n    \"category\": {\n      \"";
    if !ck_lit(s, p1, l2) {
        return None;
    }
    let p1b: usize = p1 + l2.unicode_len();
    let (cat, p2) = match parse_cat(s, p1b) {
        None => {
            return None;
        },
        Some(x) => x,
    };
    let l3 = "\"\n    },\n    \"price\": ";
    if !ck_lit(s, p2, l3) {
        return None;
    }
    let p2b: usize = p2 + l3.unicode_len();
    let (price, p3) = match parse_u32(s, p2b) {
        None => {
            return None;
        },
        Some(x) => x,
    };
    let l4 = ",\n    \"date\": \"";
    if !ck_lit(s, p3, l4) {
        return None;
    }
    let p3b: usize = p3 + l4.unicode_len();
    let (date, p4) = match parse_date(s, p3b) {
        None => {
            return None;
        },
        Some(x) => x,
    };
    let l5 = "\"\n  }";
    if !ck_lit(s, p4, l5) {
        return None;
    }
    let p5: usize = p4 + l5.unicode_len();
    let name: String = chars_to_string(&namechars);
    let item: Item = Item::new(name, cat, price, date);
    Some((item, p5))
}

/// Read a whole snapshot text; `None` when it is not the canonical
/// snapshot of any dataset.
#[verifier::rlimit(100)]
pub(crate) fn parse_snapshot(s: &str) -> (r: Option<Vec<Item>>)
    ensures
        ({
            match spec_parse(s@) {
                Some(d) => r matches Some(v) && v.deep_view() == d,
                None => r is None,
            }
        }),
{
    let chars: Vec<char> = str_to_chars(s);
    if chars.len() == 3 && ck_lit(&chars, 0, "[]\n") {
        proof {
            reveal_strlit("[]\n");
            assert(s@ =~= lit_empty());
        }
        let out: Vec<Item> = Vec::new();
        proof {
            assert(out.deep_view() =~= Seq::<ItemV>::empty());
        }
        return Some(out);
    }
    proof {
        reveal_strlit("[]\n");
        if s@ == lit_empty() {
            assert(s@.len() == 3);
            assert(s@.subrange(0, 3) =~= s@);
        }
    }
    if !ck_lit(&chars, 0, "[\n") {
        return None;
    }
    let mut items: Vec<Item> = Vec::new();
    let total: usize = chars.len();
    let mut pos: usize = 2;
    proof {
        reveal_strlit("[\n");
        assert(lit_open().len() == 2);
        assert(items.deep_view() =~= Seq::<ItemV>::empty());
        if let Some((d, e)) = spec_p_rest(s@, 2) {
            assert(items.deep_view() + d =~= d);
        }
    }
    loop
        invariant
            2 <= pos,
            s@ == chars@,
            s@.len() == total,
            lit_open().len() == 2,
            spec_match(s@, 0, lit_open()),
            s@ != lit_empty(),
            ({
                match spec_p_rest(s@, pos as int) {
                    Some((d, e)) => spec_p_rest(s@, 2) == Some((items.deep_view() + d, e)),
                    None => spec_p_rest(s@, 2) is None,
                }
            }),
        decreases s@.len() - pos,
    {
        let (it, e) = match parse_item(&chars, pos) {
            None => {
                return None;
            },
            Some(x) => x,
        };
        let ghost pre = items.deep_view();
        items.push(it);
        proof {
            assert(items.deep_view() =~= pre.push(it@));
        }
        if ck_lit(&chars, e, ",\n") && pos < e {
            proof {
                reveal_strlit(",\n");
                if let Some((d, e2)) = spec_p_rest(s@, e + 2 as int) {
                    assert(spec_p_rest(s@, pos as int) == Some((seq![it@] + d, e2)));
                    assert(items.deep_view() + d =~= pre + (seq![it@] + d));
                }
            }
            pos = e + 2;
        } else if ck_lit(&chars, e, "\n]\n") {
            proof {
                reveal_strlit(",\n");
                reveal_strlit("\n]\n");
                assert(spec_p_rest(s@, pos as int) == Some((seq![it@], e + 3 as int)));
                assert(items.deep_view() =~= pre + seq![it@]);
            }
            if e + 3 == chars.len() {
                return Some(items);
            } else {
                return None;
            }
        } else {
            proof {
                reveal_strlit(",\n");
                reveal_strlit("\n]\n");
            }
            return None;
        }
    }
}

} // verus!
