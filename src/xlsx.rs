//! The spreadsheet reader: shared strings and worksheet cells, already taken
//! out of their XML, turned into a sparse row/column table of texts.
use vstd::prelude::*;
use std::collections::HashMap;
use crate::cells::{cell_reference, column_of_reference, lemma_reference_round_trip, resolved_column, MAX_COLUMN};
use crate::dates::{digits_value, excel_date, excel_date_of, is_digit, all_digits};
use crate::text::{chars_of, decode_text, str_equal, join_text};
use crate::archive::{open_archive, archive_len, read_member, archive_members, zip_members_of, MemberRead};
use vstd::utf8::{valid_utf8, decode_utf8};

verus! {

broadcast use vstd::std_specs::hash::group_hash_axioms;

/// The path of the shared-string part inside a spreadsheet package.
pub const SHARED_STRINGS_PART: &'static str = "xl/sharedStrings.xml";

/// The path of the first worksheet inside a spreadsheet package.
pub const FIRST_SHEET_PART: &'static str = "xl/worksheets/sheet1.xml";

/// Day offset added for date cells of the styles that carry a time portion.
pub const TIME_STYLE_OFFSET: i64 = 1462;

/// One entry of the shared-string list: its plain text runs (`t`), or its
/// rich-text runs (`r`), each of which may hold a text run.
pub struct SharedString {
    pub t: Option<Vec<Option<String>>>,
    pub r: Option<Vec<Option<Option<String>>>>,
}

/// One worksheet cell: its reference (`r`), style (`s`), type (`t`) and
/// value element (`v`), which may be empty.
pub struct SheetCell {
    pub r: Option<String>,
    pub s: Option<String>,
    pub t: Option<String>,
    pub v: Option<Option<String>>,
}

/// The text of a run, empty where the run has none.
pub open spec fn run_text(v: Option<String>) -> Seq<char> {
    match v {
        Some(s) => s@,
        None => seq![],
    }
}

/// The text a shared-string entry stands for: its first plain run, or else
/// the text of its first rich run; `None` where it has neither.
pub open spec fn shared_text(si: SharedString) -> Option<Seq<char>> {
    match si.t {
        Some(ts) => if ts@.len() > 0 { Some(run_text(ts@[0])) } else { None },
        None => match si.r {
            Some(rs) => if rs@.len() > 0 {
                match rs@[0] {
                    Some(t) => Some(run_text(t)),
                    None => None,
                }
            } else {
                None
            },
            None => None,
        },
    }
}

/// The texts of a string-keyed map.
pub open spec fn text_map(m: Map<usize, String>) -> Map<usize, Seq<char>> {
    m.map_values(|s: String| s@)
}

/// The shared-string table: entry `i` of the list maps to its text, where it has one.
pub open spec fn strings_table(items: Seq<SharedString>) -> Map<usize, Seq<char>> {
    Map::new(
        |i: usize| 0 <= i < items.len() && shared_text(items[i as int]) is Some,
        |i: usize| shared_text(items[i as int])->Some_0,
    )
}

fn run_string(v: &Option<String>) -> (r: String)
    ensures
        r@ == run_text(*v),
{
    match v {
        Some(s) => s.clone(),
        None => String::new(),
    }
}

fn shared_entry_text(si: &SharedString) -> (r: Option<String>)
    ensures
        match r {
            Some(s) => shared_text(*si) == Some(s@),
            None => shared_text(*si) is None,
        },
{
    match &si.t {
        Some(ts) => if ts.len() > 0 { Some(run_string(&ts[0])) } else { None },
        None => match &si.r {
            Some(rs) => if rs.len() > 0 {
                match &rs[0] {
                    Some(t) => Some(run_string(t)),
                    None => None,
                }
            } else {
                None
            },
            None => None,
        },
    }
}

/// Builds the shared-string table: entries are numbered from zero by their
/// place in the list, and each maps to its first run's text.
pub fn get_strings_map(items: &Vec<SharedString>) -> (r: HashMap<usize, String>)
    ensures
        text_map(r@) == strings_table(items@),
{
    let mut map: HashMap<usize, String> = HashMap::new();
    let mut i: usize = 0;
    while i < items.len()
        invariant
            i <= items.len(),
            text_map(map@) == strings_table(items@.take(i as int)),
        decreases items.len() - i,
    {
        let ghost pre = map@;
        let entry = shared_entry_text(&items[i]);
        match entry {
            Some(s) => {
                map.insert(i, s);
            },
            None => {},
        }
        proof {
            let a = strings_table(items@.take(i + 1));
            let b = strings_table(items@.take(i as int));
            assert(items@.take(i + 1)[i as int] == items@[i as int]);
            assert forall|k: usize| #[trigger] a.contains_key(k) == text_map(map@).contains_key(k) by {
                if k < i {
                    assert(items@.take(i + 1)[k as int] == items@.take(i as int)[k as int]);
                    assert(b.contains_key(k) == text_map(pre).contains_key(k));
                }
                if k > i {
                    assert(!b.contains_key(k));
                    assert(!text_map(pre).contains_key(k));
                }
                if k == i {
                    assert(!b.contains_key(k));
                    assert(!text_map(pre).contains_key(k));
                }
            }
            assert forall|k: usize| #[trigger] a.contains_key(k) implies a[k] == text_map(map@)[k] by {
                if k < i {
                    assert(items@.take(i + 1)[k as int] == items@.take(i as int)[k as int]);
                    assert(b.contains_key(k));
                    assert(b[k] == text_map(pre)[k]);
                }
            }
            assert(a =~= text_map(map@));
        }
        i = i + 1;
    }
    assert(items@.take(i as int) =~= items@);
    map
}

/// The shared-string table of a package from the text of its shared-string
/// part and the entries read from that text: a package without the part
/// (empty text) has an empty table; otherwise the table of the entries, and
/// `None` where they could not be read.
pub fn strings_map_of_part(part: &str, items: Option<Vec<SharedString>>) -> (r: Option<HashMap<usize, String>>)
    ensures
        part@.len() == 0 ==> (r matches Some(m) && text_map(m@) == Map::<usize, Seq<char>>::empty()),
        part@.len() > 0 ==> (r is Some <==> items is Some),
        part@.len() > 0 ==> (r matches Some(m) ==> text_map(m@) == strings_table(items->Some_0@)),
{
    if part.unicode_len() == 0 {
        let empty: Vec<SharedString> = Vec::new();
        let m = get_strings_map(&empty);
        assert(strings_table(empty@) =~= Map::<usize, Seq<char>>::empty());
        return Some(m);
    }
    match items {
        Some(v) => Some(get_strings_map(&v)),
        None => None,
    }
}

/// What `usize`'s `from_str` reads: an optional `+`, then decimal digits,
/// with the value in range.
pub open spec fn index_of(s: Seq<char>) -> Option<nat> {
    let b = if s.len() > 0 && s[0] == '+' { s.drop_first() } else { s };
    if b.len() > 0 && all_digits(b) && digits_value(b) <= usize::MAX {
        Some(digits_value(b))
    } else {
        None
    }
}

fn parse_index(s: &str) -> (r: Option<usize>)
    ensures
        match r {
            Some(k) => index_of(s@) == Some(k as nat),
            None => index_of(s@) is None,
        },
{
    let c = chars_of(s);
    let start: usize = if c.len() > 0 && c[0] == '+' { 1 } else { 0 };
    let ghost b = c@.skip(start as int);
    assert(b =~= (if s@.len() > 0 && s@[0] == '+' { s@.drop_first() } else { s@ }));
    if start == c.len() {
        return None;
    }
    let mut p: usize = start;
    let mut v: usize = 0;
    let mut big = false;
    while p < c.len()
        invariant
            start <= p <= c@.len(),
            start < c@.len(),
            b == c@.skip(start as int),
            b == (if s@.len() > 0 && s@[0] == '+' { s@.drop_first() } else { s@ }),
            all_digits(b.take(p - start)),
            !big ==> v == digits_value(b.take(p - start)),
            big ==> digits_value(b.take(p - start)) > usize::MAX,
        decreases c.len() - p,
    {
        if c[p] < '0' || c[p] > '9' {
            assert(!is_digit(b[p - start]));
            assert(!all_digits(b));
            return None;
        }
        let ghost t = b.take(p - start);
        let ghost t2 = b.take(p - start + 1);
        assert(t2.drop_last() =~= t);
        assert(t2.last() == c@[p as int]);
        let d = (c[p] as u32 - 48) as usize;
        if !big {
            if v > (usize::MAX - d) / 10 {
                big = true;
            } else {
                v = v * 10 + d;
            }
        }
        p = p + 1;
    }
    assert(b.take(p - start) =~= b);
    if big {
        None
    } else {
        Some(v)
    }
}

/// Whether the style code is one of the date styles with a time portion.
pub open spec fn time_style(s: Option<String>) -> bool {
    match s {
        Some(code) => code@ == "10"@ || code@ == "14"@ || code@ == "15"@,
        None => false,
    }
}

/// The literal text of a cell, or the shared string it points to when its
/// type is `s` and its value is an index present in the table.
pub open spec fn typed_value(strings: Map<usize, Seq<char>>, value: Seq<char>, t: Option<String>) -> Seq<char> {
    let is_shared = match t {
        Some(x) => x@ == "s"@,
        None => false,
    };
    if is_shared {
        match index_of(value) {
            Some(k) => if k <= usize::MAX && strings.contains_key(k as usize) { strings[k as usize] } else { value },
            None => value,
        }
    } else {
        value
    }
}

/// The text of a cell value: a date column decodes it as a serial date
/// (with the time-style offset where the style asks for it) and, where that
/// gives no date, the value is resolved by its type.
pub open spec fn cell_text(
    strings: Map<usize, Seq<char>>,
    value: Seq<char>,
    t: Option<String>,
    s: Option<String>,
    is_date: bool,
) -> Seq<char> {
    let offset: int = if time_style(s) { TIME_STYLE_OFFSET as int } else { 0 };
    if is_date && excel_date_of(value, offset) is Some {
        excel_date_of(value, offset)->Some_0
    } else {
        typed_value(strings, value, t)
    }
}

fn is_time_style(s: &Option<String>) -> (r: bool)
    ensures
        r == time_style(*s),
{
    match s {
        Some(code) => str_equal(code.as_str(), "10") || str_equal(code.as_str(), "14") || str_equal(
            code.as_str(),
            "15",
        ),
        None => false,
    }
}

/// Resolves one cell value to its text, by the date columns and its type.
pub fn resolve_cell_value(
    strings: &HashMap<usize, String>,
    value: &str,
    t: &Option<String>,
    s: &Option<String>,
    is_date: bool,
) -> (r: String)
    ensures
        r@ == cell_text(text_map(strings@), value@, *t, *s, is_date),
{
    if is_date {
        let offset = if is_time_style(s) { Some(TIME_STYLE_OFFSET) } else { None };
        if let Some(dt) = excel_date(value, offset) {
            return dt;
        }
    }
    let is_shared = match t {
        Some(x) => str_equal(x.as_str(), "s"),
        None => false,
    };
    if is_shared {
        match parse_index(value) {
            Some(k) => match strings.get(&k) {
                Some(text) => text.clone(),
                None => value.to_owned(),
            },
            None => value.to_owned(),
        }
    } else {
        value.to_owned()
    }
}

/// The column of cell `k` of a row numbered `row_no` (from 1): one past the
/// previous cell's column (0 for the first cell), unless the cell declares a
/// reference, which is resolved against that.
pub open spec fn cell_column(row_no: nat, cells: Seq<SheetCell>, k: nat) -> nat
    decreases k,
{
    let prev: nat = if k == 0 { 0 } else { cell_column(row_no, cells, (k - 1) as nat) + 1 };
    match cells[k as int].r {
        Some(r) => resolved_column(row_no, r@, prev),
        None => prev,
    }
}

/// The texts of the first `n` cells of a row: each cell with a value is put at
/// its column, a later cell replacing an earlier one at the same column.
pub open spec fn row_texts(
    strings: Map<usize, Seq<char>>,
    row_no: nat,
    cells: Seq<SheetCell>,
    dates: Seq<usize>,
    n: nat,
) -> Map<usize, Seq<char>>
    decreases n,
{
    if n == 0 {
        Map::empty()
    } else {
        let m = row_texts(strings, row_no, cells, dates, (n - 1) as nat);
        let c = cells[n - 1];
        let col = cell_column(row_no, cells, (n - 1) as nat);
        match c.v {
            Some(Some(v)) => m.insert(
                col as usize,
                cell_text(strings, v@, c.t, c.s, dates.contains(col as usize)),
            ),
            _ => m,
        }
    }
}

/// How many of the first `n` rows hold cells.
pub open spec fn present_rows(rows: Seq<Option<Vec<SheetCell>>>, n: nat) -> nat
    decreases n,
{
    if n == 0 {
        0
    } else {
        present_rows(rows, (n - 1) as nat) + if rows[n - 1] is Some { 1nat } else { 0nat }
    }
}

/// The table of the first `n` rows: the rows that hold cells are numbered
/// from zero in document order, each mapped to its cell texts.
pub open spec fn sheet_table(
    strings: Map<usize, Seq<char>>,
    rows: Seq<Option<Vec<SheetCell>>>,
    dates: Seq<usize>,
    n: nat,
) -> Map<usize, Map<usize, Seq<char>>>
    decreases n,
{
    if n == 0 {
        Map::empty()
    } else {
        let t = sheet_table(strings, rows, dates, (n - 1) as nat);
        let ir = present_rows(rows, (n - 1) as nat);
        match rows[n - 1] {
            Some(cells) => t.insert(ir as usize, row_texts(strings, ir + 1, cells@, dates, cells@.len())),
            None => t,
        }
    }
}

/// The texts of a table of maps.
pub open spec fn table_view(t: Map<usize, HashMap<usize, String>>) -> Map<usize, Map<usize, Seq<char>>> {
    t.map_values(|m: HashMap<usize, String>| text_map(m@))
}

/// The date columns asked for, none when absent.
pub open spec fn date_list(date_columns: Option<Vec<usize>>) -> Seq<usize> {
    match date_columns {
        Some(v) => v@,
        None => seq![],
    }
}

fn contains_index(v: &Vec<usize>, x: usize) -> (r: bool)
    ensures
        r == v@.contains(x),
{
    let mut i: usize = 0;
    while i < v.len()
        invariant
            i <= v.len(),
            forall|k: int| 0 <= k < i ==> v@[k] != x,
        decreases v.len() - i,
    {
        if v[i] == x {
            return true;
        }
        i = i + 1;
    }
    false
}

/// Each row's cell count leaves room for the column arithmetic.
pub open spec fn rows_fit(rows: Seq<Option<Vec<SheetCell>>>) -> bool {
    forall|j: int| 0 <= j < rows.len() ==> (#[trigger] rows[j] matches Some(cells) ==> cells@.len() < usize::MAX - 20000)
}

fn parse_row(
    strings: &HashMap<usize, String>,
    cells: &Vec<SheetCell>,
    known: &Vec<usize>,
    ir: usize,
) -> (r: HashMap<usize, String>)
    requires
        ir < usize::MAX,
        cells.len() < usize::MAX - 20000,
    ensures
        text_map(r@) == row_texts(text_map(strings@), (ir + 1) as nat, cells@, known@, cells@.len()),
{
    let ghost st = text_map(strings@);
    let mut tr: HashMap<usize, String> = HashMap::new();
    let mut i: usize = 0;
    let mut idx: usize = 0;
    while idx < cells.len()
        invariant
            idx <= cells.len(),
            ir < usize::MAX,
            cells.len() < usize::MAX - 20000,
            st == text_map(strings@),
            i <= 16385 + idx,
            idx == 0 ==> i == 0,
            idx > 0 ==> i == cell_column((ir + 1) as nat, cells@, (idx - 1) as nat) + 1,
            text_map(tr@) == row_texts(st, (ir + 1) as nat, cells@, known@, idx as nat),
        decreases cells.len() - idx,
    {
        let cell = &cells[idx];
        let ghost prev = i as nat;
        if let Some(cell_r) = &cell.r {
            i = column_of_reference(ir + 1, cell_r.as_str(), i);
        }
        assert(i == cell_column((ir + 1) as nat, cells@, idx as nat));
        let ghost pre = tr@;
        if let Some(cv) = &cell.v {
            if let Some(value) = cv {
                let is_date = contains_index(known, i);
                let text = resolve_cell_value(strings, value.as_str(), &cell.t, &cell.s, is_date);
                tr.insert(i, text);
                assert(text_map(tr@) =~= text_map(pre).insert(i, text@));
            }
        }
        i = i + 1;
        idx = idx + 1;
    }
    tr
}

/// Parses the rows of the first sheet data into a table: rows that hold
/// cells are numbered from zero in document order, and each cell with a
/// value is resolved (dates, shared strings, literals) at its column.
/// An error where the worksheet has no sheet data.
pub fn get_parsed_xlsx(
    strings_map: &HashMap<usize, String>,
    sheets: &Vec<Vec<Option<Vec<SheetCell>>>>,
    date_columns: Option<Vec<usize>>,
) -> (r: Result<HashMap<usize, HashMap<usize, String>>, String>)
    requires
        forall|i: int| 0 <= i < sheets@.len() ==> (#[trigger] sheets@[i])@.len() < usize::MAX - 1,
        forall|i: int| 0 <= i < sheets@.len() ==> rows_fit((#[trigger] sheets@[i])@),
    ensures
        sheets@.len() == 0 <==> r is Err,
        r matches Ok(t) ==> table_view(t@) == sheet_table(
            text_map(strings_map@),
            sheets@[0]@,
            date_list(date_columns),
            sheets@[0]@.len(),
        ),
{
    if sheets.len() == 0 {
        return Err(String::from_str("XML parsing error: the worksheet has no sheet data"));
    }
    let known: Vec<usize> = match date_columns {
        Some(v) => v,
        None => Vec::new(),
    };
    let sd = &sheets[0];
    let ghost st = text_map(strings_map@);
    let mut table: HashMap<usize, HashMap<usize, String>> = HashMap::new();
    let mut ir: usize = 0;
    let mut n: usize = 0;
    while n < sd.len()
        invariant
            n <= sd.len(),
            sd.len() < usize::MAX - 1,
            rows_fit(sd@),
            st == text_map(strings_map@),
            known@ == date_list(date_columns),
            ir == present_rows(sd@, n as nat),
            ir <= n,
            table_view(table@) == sheet_table(st, sd@, known@, n as nat),
        decreases sd.len() - n,
    {
        let ghost pre = table@;
        if let Some(cells) = &sd[n] {
            assert(sd@[n as int] matches Some(c) && c@.len() < usize::MAX - 20000);
            let tr = parse_row(strings_map, cells, &known, ir);
            let ghost row_view = text_map(tr@);
            table.insert(ir, tr);
            assert(table_view(table@) =~= table_view(pre).insert(ir, row_view));
            ir = ir + 1;
        }
        n = n + 1;
    }
    Ok(table)
}

/// Relies on the `Debug` formatting of `zip::result::ZipError`.
#[verifier::external_body]
fn zip_error_text(e: &zip::result::ZipError) -> (r: String) {
    format!("{:?}", e)
}

/// Relies on the `Debug` formatting of `std::io::Error`.
#[verifier::external_body]
fn io_error_text(e: &std::io::Error) -> (r: String) {
    format!("{:?}", e)
}

/// The text of the members of a given name, read in order and joined;
/// `None` where one of them cannot be read or is not valid UTF-8.
pub open spec fn part_text(members: Seq<MemberRead>, name: Seq<char>) -> Option<Seq<char>>
    decreases members.len(),
{
    if members.len() == 0 {
        Some(seq![])
    } else {
        let prev = part_text(members.drop_last(), name);
        match members.last() {
            Some((n, c)) => if n == name {
                match (prev, c) {
                    (Some(t), Some(b)) => if valid_utf8(b) { Some(t + decode_utf8(b)) } else { None },
                    _ => None,
                }
            } else {
                prev
            },
            None => prev,
        }
    }
}

proof fn lemma_part_text_stays_none(members: Seq<MemberRead>, name: Seq<char>, k: int)
    requires
        0 <= k <= members.len(),
        part_text(members.take(k), name) is None,
    ensures
        part_text(members, name) is None,
    decreases members.len() - k,
{
    if k < members.len() {
        let m = members.take(k + 1);
        assert(m.drop_last() =~= members.take(k));
        lemma_part_text_stays_none(members, name, k + 1);
    } else {
        assert(members.take(k) =~= members);
    }
}

/// Appends the text of a part's bytes to `content`, or says why it cannot.
fn append_part(content: &mut String, bytes: Result<Vec<u8>, std::io::Error>, what: &str) -> (r: Result<(), String>)
    ensures
        r is Ok <==> (bytes matches Ok(b) && valid_utf8(b@)),
        r is Ok ==> (bytes matches Ok(b) && final(content)@ == old(content)@ + decode_utf8(b@)),
{
    match bytes {
        Ok(b) => match decode_text(&b) {
            Some(text) => {
                let joined = join_text(content.as_str(), text.as_str());
                *content = joined;
                Ok(())
            },
            None => Err(join_text(what, ": stream did not contain valid UTF-8")),
        },
        Err(e) => {
            let msg = io_error_text(&e);
            Err(join_text(what, msg.as_str()))
        },
    }
}

/// Takes the shared-string part and the first worksheet part out of a
/// spreadsheet package held in memory, as texts; a part that is missing
/// gives an empty text, and members that cannot be opened are skipped.
/// Fails where the package is no zip container, or a member of one of the two
/// names cannot be read as UTF-8 text.
pub fn parse_xlsx_file_to_parts(data: &Vec<u8>) -> (r: Result<(String, String), String>)
    ensures
        r is Ok <==> (zip_members_of(data@) matches Some(ms) && part_text(ms, SHARED_STRINGS_PART@) is Some
            && part_text(ms, FIRST_SHEET_PART@) is Some),
        r matches Ok((strings, sheet)) ==> Some(strings@) == part_text(
            zip_members_of(data@)->Some_0,
            SHARED_STRINGS_PART@,
        ) && Some(sheet@) == part_text(zip_members_of(data@)->Some_0, FIRST_SHEET_PART@),
{
    let copy = data.clone();
    assert(copy@ =~= data@);
    let mut zip = match open_archive(copy) {
        Ok(z) => z,
        Err(err) => {
            return Err(zip_error_text(&err));
        },
    };
    let ghost members = archive_members(zip);
    let ghost sp = SHARED_STRINGS_PART@;
    let ghost wp = FIRST_SHEET_PART@;
    let mut strings_content = String::new();
    let mut sheet_content = String::new();
    let n = archive_len(&zip);
    let mut i: usize = 0;
    assert(members.take(0) =~= Seq::<MemberRead>::empty());
    while i < n
        invariant
            i <= n,
            n == members.len(),
            archive_members(zip) == members,
            zip_members_of(data@) == Some(members),
            sp == SHARED_STRINGS_PART@,
            wp == FIRST_SHEET_PART@,
            part_text(members.take(i as int), sp) == Some(strings_content@),
            part_text(members.take(i as int), wp) == Some(sheet_content@),
        decreases n - i,
    {
        let ghost pre = members.take(i + 1);
        assert(pre.drop_last() =~= members.take(i as int));
        match read_member(&mut zip, i) {
            Ok((name, bytes)) => {
                assert(members[i as int] matches Some((nm, _)) && nm == name@);
                if str_equal(name.as_str(), SHARED_STRINGS_PART) {
                    assert(name@ != wp) by {
                        reveal_strlit("xl/sharedStrings.xml");
                        reveal_strlit("xl/worksheets/sheet1.xml");
                        assert(sp[3] != wp[3]);
                    }
                    let res = append_part(&mut strings_content, bytes, "Can't read strings file: ");
                    if res.is_err() {
                        proof {
                            lemma_part_text_stays_none(members, sp, i + 1);
                        }
                        return Err(res.unwrap_err());
                    }
                } else if str_equal(name.as_str(), FIRST_SHEET_PART) {
                    let res = append_part(&mut sheet_content, bytes, "Can't read sheet file: ");
                    if res.is_err() {
                        proof {
                            lemma_part_text_stays_none(members, wp, i + 1);
                        }
                        return Err(res.unwrap_err());
                    }
                }
            },
            Err(_) => {},
        }
        i = i + 1;
    }
    assert(members.take(i as int) =~= members);
    Ok((strings_content, sheet_content))
}

proof fn lemma_row_texts_at(
    strings: Map<usize, Seq<char>>,
    row_no: nat,
    cells: Seq<SheetCell>,
    dates: Seq<usize>,
    n: nat,
    k: nat,
    v: String,
)
    requires
        k < n <= cells.len(),
        cells[k as int].v == Some(Some(v)),
        forall|j: nat| j < n && j != k ==> (#[trigger] cell_column(row_no, cells, j)) as usize
            != cell_column(row_no, cells, k) as usize,
    ensures
        ({
            let c = cell_column(row_no, cells, k) as usize;
            row_texts(strings, row_no, cells, dates, n).contains_key(c) && row_texts(strings, row_no, cells, dates, n)[c]
                == cell_text(strings, v@, cells[k as int].t, cells[k as int].s, dates.contains(c))
        }),
    decreases n,
{
    if n - 1 != k {
        let m = (n - 1) as nat;
        assert(cell_column(row_no, cells, m) as usize != cell_column(row_no, cells, k) as usize);
        lemma_row_texts_at(strings, row_no, cells, dates, m, k, v);
    }
}

/// A cell whose declared reference is the coordinate of a column within the
/// search range lands in the table row at that column, with its resolved text,
/// when no other cell of the row lands there.
pub proof fn lemma_reference_cell_in_row(
    strings: Map<usize, Seq<char>>,
    row_no: nat,
    cells: Seq<SheetCell>,
    dates: Seq<usize>,
    k: nat,
    c: nat,
    v: String,
)
    requires
        k < cells.len(),
        c <= MAX_COLUMN,
        cells[k as int].r matches Some(reference) && reference@ == cell_reference(row_no, c),
        cells[k as int].v == Some(Some(v)),
        forall|j: nat| j < cells.len() && j != k ==> (#[trigger] cell_column(row_no, cells, j)) as usize != c as usize,
    ensures
        cell_column(row_no, cells, k) == c,
        row_texts(strings, row_no, cells, dates, cells.len()).contains_key(c as usize),
        row_texts(strings, row_no, cells, dates, cells.len())[c as usize] == cell_text(
            strings,
            v@,
            cells[k as int].t,
            cells[k as int].s,
            dates.contains(c as usize),
        ),
{
    let prev: nat = if k == 0 { 0 } else { cell_column(row_no, cells, (k - 1) as nat) + 1 };
    lemma_reference_round_trip(row_no, c, prev);
    assert(cell_column(row_no, cells, k) == c);
    lemma_row_texts_at(strings, row_no, cells, dates, cells.len(), k, v);
}

} // verus!
