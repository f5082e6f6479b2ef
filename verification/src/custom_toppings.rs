//! The edit-toppings decisions: how the remove dialog's one answer — a row
//! number or a name — resolves against the loaded catalog text, how the add
//! dialog's answers are validated, and the read-only topping listing. The
//! prompting and the requests around them are the caller's.

use vstd::prelude::*;

use crate::strutil::{
    chars_eq_ignore_case, chars_to_string, dec_chars, dec_value, eq_ignore_case, find_char,
    find_char_at, is_uint_in_range, lemma_find_char, parse_uint, push_char, spec_trim,
    spec_uint_digits, split_lines, split_lines_chars, str_chars, trim_chars, u64_to_string,
    views_of,
};
use crate::table::{Align, CellModel, Table, TableCell, TableRow};
use crate::table_menu::TableMenu;

verus! {

/// The trimmed nonempty lines of a catalog text, in order.
pub open spec fn nonempty_lines(lines: Seq<Seq<char>>, i: int) -> Seq<Seq<char>>
    decreases lines.len() - i,
{
    if !(0 <= i < lines.len()) {
        Seq::<Seq<char>>::empty()
    } else if spec_trim(lines[i]).len() == 0 {
        nonempty_lines(lines, i + 1)
    } else {
        seq![spec_trim(lines[i])] + nonempty_lines(lines, i + 1)
    }
}

/// The name segment of a record line: what stands before its first `#`.
pub open spec fn name_segment(line: Seq<char>) -> Seq<char> {
    line.take(find_char(line, '#'))
}

/// The first record whose name segment matches the answer, ASCII
/// case-insensitively.
pub open spec fn find_named_line(lines: Seq<Seq<char>>, c: Seq<char>, i: int) -> Option<Seq<char>>
    decreases lines.len() - i,
{
    if !(0 <= i < lines.len()) {
        None
    } else if eq_ignore_case(name_segment(lines[i]), c) {
        Some(name_segment(lines[i]))
    } else {
        find_named_line(lines, c, i + 1)
    }
}

/// The mathematical value of a [`RemoveChoice`].
#[verifier::ext_equal]
pub ghost enum RemoveChoiceModel {
    Aborted,
    NoToppings,
    InvalidNumber,
    NotFound,
    Delete { name: Seq<char> },
}

/// How the remove dialog's answer resolves: abort, nothing to remove, a
/// row number out of range, no record of that name, or the name to delete.
#[derive(Debug, PartialEq, Eq)]
pub enum RemoveChoice {
    Aborted,
    NoToppings,
    InvalidNumber,
    NotFound,
    Delete { name: String },
}

impl View for RemoveChoice {
    type V = RemoveChoiceModel;

    open spec fn view(&self) -> RemoveChoiceModel {
        match self {
            RemoveChoice::Aborted => RemoveChoiceModel::Aborted,
            RemoveChoice::NoToppings => RemoveChoiceModel::NoToppings,
            RemoveChoice::InvalidNumber => RemoveChoiceModel::InvalidNumber,
            RemoveChoice::NotFound => RemoveChoiceModel::NotFound,
            RemoveChoice::Delete { name } => RemoveChoiceModel::Delete { name: name@ },
        }
    }
}

/// What the remove dialog decides for a catalog text and one answer:
/// `q` or nothing aborts; an empty catalog has nothing to remove; a number
/// picks the 1-based record whose name segment is then deleted, out of
/// range is refused; anything else must match a record's name segment,
/// ASCII case-insensitively.
pub open spec fn spec_remove_choice(body: Seq<char>, choice: Seq<char>) -> RemoveChoiceModel {
    let lines = nonempty_lines(split_lines(body), 0);
    let c = spec_trim(choice);
    if c.len() == 0 || eq_ignore_case(c, seq!['q']) {
        RemoveChoiceModel::Aborted
    } else if lines.len() == 0 {
        RemoveChoiceModel::NoToppings
    } else if is_uint_in_range(c, usize::MAX as nat) {
        let idx = dec_value(spec_uint_digits(c));
        if 1 <= idx <= lines.len() {
            RemoveChoiceModel::Delete { name: name_segment(lines[idx - 1]) }
        } else {
            RemoveChoiceModel::InvalidNumber
        }
    } else {
        match find_named_line(lines, c, 0) {
            Some(seg) => RemoveChoiceModel::Delete { name: seg },
            None => RemoveChoiceModel::NotFound,
        }
    }
}

/// The trimmed nonempty lines of the catalog text.
fn collect_nonempty_lines(body: &str) -> (r: Vec<Vec<char>>)
    ensures
        views_of(r@) == nonempty_lines(split_lines(body@), 0),
{
    let chars = str_chars(body);
    let raw = split_lines_chars(chars.as_slice());
    let ghost lv = views_of(raw@);
    let n: usize = raw.len();
    let mut r: Vec<Vec<char>> = Vec::new();
    let mut i: usize = 0;
    proof {
        assert(nonempty_lines(lv, 0) =~= views_of(r@) + nonempty_lines(lv, 0));
    }
    while i < n
        invariant
            i <= n,
            n == lv.len(),
            lv == views_of(raw@),
            nonempty_lines(lv, 0) == views_of(r@) + nonempty_lines(lv, i as int),
        decreases n - i,
    {
        let line = trim_chars(raw[i].as_slice());
        if line.len() > 0 {
            proof {
                assert(views_of(r@) + (seq![spec_trim(lv[i as int])] + nonempty_lines(lv, i + 1))
                    =~= views_of(r@.push(line)) + nonempty_lines(lv, i + 1));
            }
            r.push(line);
        }
        i = i + 1;
    }
    proof {
        assert(nonempty_lines(lv, n as int) =~= Seq::<Seq<char>>::empty());
        assert(views_of(r@) + Seq::<Seq<char>>::empty() =~= views_of(r@));
    }
    r
}

/// Resolves the remove dialog's answer against the catalog text.
pub fn remove_topping(body: &str, choice: &str) -> (r: RemoveChoice)
    ensures
        r@ == spec_remove_choice(body@, choice@),
{
    let ghost lines_m = nonempty_lines(split_lines(body@), 0);
    let choice_chars = str_chars(choice);
    let c = trim_chars(choice_chars.as_slice());
    let q_lit: [char; 1] = ['q'];
    proof {
        assert(q_lit@ =~= seq!['q']);
    }
    if c.len() == 0 || chars_eq_ignore_case(c.as_slice(), q_lit.as_slice()) {
        return RemoveChoice::Aborted;
    }
    let lines = collect_nonempty_lines(body);
    if lines.len() == 0 {
        return RemoveChoice::NoToppings;
    }
    match parse_uint(c.as_slice(), usize::MAX as u64) {
        Some(idx64) => {
            let idx = idx64 as usize;
            if 1 <= idx && idx <= lines.len() {
                let line = &lines[idx - 1];
                let h = find_char_at(line.as_slice(), '#');
                proof {
                    lemma_find_char(line@, '#');
                }
                let seg = vstd::slice::slice_subrange(line.as_slice(), 0, h);
                proof {
                    assert(seg@ =~= name_segment(lines_m[idx - 1]));
                }
                RemoveChoice::Delete { name: chars_to_string(seg) }
            } else {
                RemoveChoice::InvalidNumber
            }
        },
        None => {
            let n: usize = lines.len();
            let mut i: usize = 0;
            while i < n
                invariant
                    i <= n,
                    n == lines_m.len(),
                    n > 0,
                    lines_m == nonempty_lines(split_lines(body@), 0),
                    views_of(lines@) == lines_m,
                    c@ == spec_trim(choice@),
                    c@.len() > 0,
                    !eq_ignore_case(c@, seq!['q']),
                    !is_uint_in_range(c@, usize::MAX as nat),
                    find_named_line(lines_m, c@, 0) == find_named_line(lines_m, c@, i as int),
                decreases n - i,
            {
                let line = &lines[i];
                let h = find_char_at(line.as_slice(), '#');
                proof {
                    lemma_find_char(line@, '#');
                }
                let seg = vstd::slice::slice_subrange(line.as_slice(), 0, h);
                proof {
                    assert(seg@ =~= name_segment(lines_m[i as int]));
                }
                if chars_eq_ignore_case(seg, c.as_slice()) {
                    proof {
                        assert(find_named_line(lines_m, c@, i as int) == Some(
                            name_segment(lines_m[i as int]),
                        ));
                        assert(spec_remove_choice(body@, choice@) == RemoveChoiceModel::Delete {
                            name: seg@,
                        });
                    }
                    return RemoveChoice::Delete { name: chars_to_string(seg) };
                }
                i = i + 1;
            }
            RemoveChoice::NotFound
        },
    }
}

/// The mathematical value of an [`AddToppingStep`].
#[verifier::ext_equal]
pub ghost enum AddToppingStepModel {
    Aborted,
    InvalidPrice,
    Add { name: Seq<char>, price: u32 },
}

/// How one round of the add dialog's answers resolves: abort on an empty
/// name or `q` at either prompt, ask the price again when it does not
/// parse, or the validated record to send.
#[derive(Debug, PartialEq, Eq)]
pub enum AddToppingStep {
    Aborted,
    InvalidPrice,
    Add { name: String, price: u32 },
}

impl View for AddToppingStep {
    type V = AddToppingStepModel;

    open spec fn view(&self) -> AddToppingStepModel {
        match self {
            AddToppingStep::Aborted => AddToppingStepModel::Aborted,
            AddToppingStep::InvalidPrice => AddToppingStepModel::InvalidPrice,
            AddToppingStep::Add { name, price } => AddToppingStepModel::Add {
                name: name@,
                price: *price,
            },
        }
    }
}

/// What one round of the add dialog decides for the two answers.
pub open spec fn spec_add_toppings(name_input: Seq<char>, price_input: Seq<char>) -> AddToppingStepModel {
    let name = spec_trim(name_input);
    let price = spec_trim(price_input);
    if name.len() == 0 || eq_ignore_case(name, seq!['q']) {
        AddToppingStepModel::Aborted
    } else if price.len() == 0 || eq_ignore_case(price, seq!['q']) {
        AddToppingStepModel::Aborted
    } else if !is_uint_in_range(price, u32::MAX as nat) {
        AddToppingStepModel::InvalidPrice
    } else {
        AddToppingStepModel::Add {
            name,
            price: dec_value(spec_uint_digits(price)) as u32,
        }
    }
}

/// Validates one round of the add dialog's answers.
pub fn add_toppings(name_input: &str, price_input: &str) -> (r: AddToppingStep)
    ensures
        r@ == spec_add_toppings(name_input@, price_input@),
{
    let q_lit: [char; 1] = ['q'];
    proof {
        assert(q_lit@ =~= seq!['q']);
    }
    let name_chars = str_chars(name_input);
    let name = trim_chars(name_chars.as_slice());
    if name.len() == 0 || chars_eq_ignore_case(name.as_slice(), q_lit.as_slice()) {
        return AddToppingStep::Aborted;
    }
    let price_chars = str_chars(price_input);
    let price = trim_chars(price_chars.as_slice());
    if price.len() == 0 || chars_eq_ignore_case(price.as_slice(), q_lit.as_slice()) {
        return AddToppingStep::Aborted;
    }
    match crate::strutil::parse_u32_chars(price.as_slice()) {
        None => AddToppingStep::InvalidPrice,
        Some(p) => AddToppingStep::Add { name: chars_to_string(name.as_slice()), price: p },
    }
}

/// One listing row: the 1-based line number, the record's name, and its
/// price as `N.00$`, right-aligned.
pub open spec fn listing_row(line: Seq<char>, lineno: int) -> Seq<CellModel> {
    let h = find_char(line, '#');
    let name = spec_trim(line.take(h));
    let price = if h < line.len() {
        spec_trim(line.skip(h + 1).take(find_char(line.skip(h + 1), '#')))
    } else {
        Seq::<char>::empty()
    };
    seq![
        CellModel { text: dec_chars(lineno as nat) + seq!['.'], align: Align::Left },
        CellModel { text: name, align: Align::Left },
        CellModel { text: price + seq!['.', '0', '0', '$'], align: Align::Right },
    ]
}

/// The listing rows of a catalog text: one per nonempty line, numbered by
/// its position among all lines.
pub open spec fn listing_rows(lines: Seq<Seq<char>>, i: int) -> Seq<Seq<CellModel>>
    decreases lines.len() - i,
{
    if !(0 <= i < lines.len()) {
        Seq::<Seq<CellModel>>::empty()
    } else if spec_trim(lines[i]).len() == 0 {
        listing_rows(lines, i + 1)
    } else {
        seq![listing_row(spec_trim(lines[i]), i + 1)] + listing_rows(lines, i + 1)
    }
}

/// Builds the read-only topping listing from the catalog text: one numbered
/// row per record, or the placeholder row when the catalog is empty.
pub fn list_toppings_from_str(content: &str) -> (r: TableMenu)
    ensures
        r.title@ == ("Aktuelle Toppings")@,
        listing_rows(split_lines(content@), 0).len() > 0 ==> r.table@ == listing_rows(
            split_lines(content@),
            0,
        ),
        listing_rows(split_lines(content@), 0).len() == 0 ==> r.table@ == seq![
            seq![CellModel { text: ("Noch keine Toppings vorhanden!")@, align: Align::Left }],
        ],
{
    let chars = str_chars(content);
    let raw = split_lines_chars(chars.as_slice());
    let ghost lv = views_of(raw@);
    let n: usize = raw.len();
    let mut table = Table::new(Vec::new());
    let mut i: usize = 0;
    proof {
        assert(listing_rows(lv, 0) =~= table@ + listing_rows(lv, 0));
    }
    while i < n
        invariant
            i <= n,
            n == lv.len(),
            lv == views_of(raw@),
            listing_rows(lv, 0) == table@ + listing_rows(lv, i as int),
        decreases n - i,
    {
        let line = trim_chars(raw[i].as_slice());
        if line.len() > 0 {
            let ghost lm = spec_trim(lv[i as int]);
            let h = find_char_at(line.as_slice(), '#');
            proof {
                lemma_find_char(line@, '#');
            }
            let ghost spec_price: Seq<char> = if (h as int) < lm.len() {
                spec_trim(lm.skip(h + 1).take(find_char(lm.skip(h + 1), '#')))
            } else {
                Seq::<char>::empty()
            };
            let name_part = vstd::slice::slice_subrange(line.as_slice(), 0, h);
            let name = trim_chars(name_part);
            proof {
                assert(name_part@ =~= lm.take(h as int));
            }
            let price_part: Vec<char> = if h < line.len() {
                let rest = vstd::slice::slice_subrange(line.as_slice(), h + 1, line.len());
                let p2 = find_char_at(rest, '#');
                proof {
                    lemma_find_char(rest@, '#');
                }
                let seg = vstd::slice::slice_subrange(rest, 0, p2);
                let t = trim_chars(seg);
                proof {
                    assert(rest@ =~= lm.skip(h + 1));
                    assert(seg@ =~= lm.skip(h + 1).take(find_char(lm.skip(h + 1), '#')));
                    assert(t@ == spec_price);
                }
                t
            } else {
                let t: Vec<char> = Vec::new();
                proof {
                    assert(t@ =~= spec_price);
                }
                t
            };
            let mut idx_text = u64_to_string((i + 1) as u64);
            push_char(&mut idx_text, '.');
            let mut price_text = chars_to_string(price_part.as_slice());
            price_text.append(".00$");
            let mut cells: Vec<TableCell> = Vec::new();
            cells.push(TableCell::new(idx_text));
            cells.push(TableCell::new(chars_to_string(name.as_slice())));
            cells.push(TableCell::new_with_alignment(price_text, Align::Right));
            let row = TableRow::new(cells);
            proof {
                reveal_strlit(".00$");
                assert((".00$")@ =~= seq!['.', '0', '0', '$']);
                assert(row@ =~~= listing_row(lm, i + 1));
                assert(table@ + (seq![listing_row(lm, i + 1)] + listing_rows(lv, i + 1)) =~= table@.push(
                    row@,
                ) + listing_rows(lv, i + 1));
            }
            table.push(row);
        }
        i = i + 1;
    }
    if table.is_empty() {
        let mut cells: Vec<TableCell> = Vec::new();
        cells.push(TableCell::new(String::from_str("Noch keine Toppings vorhanden!")));
        let row = TableRow::new(cells);
        proof {
            assert(row@ =~~= seq![
                CellModel { text: ("Noch keine Toppings vorhanden!")@, align: Align::Left },
            ]);
        }
        table.push(row);
        proof {
            assert(table@ =~= seq![
                seq![CellModel { text: ("Noch keine Toppings vorhanden!")@, align: Align::Left }],
            ]);
        }
    }
    TableMenu::new(String::from_str("Aktuelle Toppings"), table)
}

} // verus!
