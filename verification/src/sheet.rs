//! Exporting the registers of a unit as a workbook of one sheet.

use rust_xlsxwriter::{Color, Format, Workbook};
use vstd::prelude::*;
use vstd::string::*;
use crate::server::ImageSnapshot;
use crate::simreg::{def_models, DefModel, RegisterDef};
use crate::slave::ImageModel;
use crate::state::{configured, missing_text, target, target_of, unit_of, SimUnits};
use crate::text::{decimal, fixed_digits, push_decimal, push_fixed, same};

verus! {

/// A workbook of `rust_xlsxwriter`. What it holds has the names below.
#[verifier::external_type_specification]
#[verifier::external_body]
pub struct ExWorkbook(rust_xlsxwriter::Workbook);

/// The names of the sheets of a workbook.
pub uninterp spec fn sheet_names(wb: Workbook) -> Seq<Seq<char>>;

/// How many sheets a workbook has made by itself: the number that the name of the next
/// one counts on from, whatever has become of the sheets.
pub uninterp spec fn sheets_made(wb: Workbook) -> nat;

/// The texts in the cells of the first sheet of a workbook, by row and column.
pub uninterp spec fn sheet_texts(wb: Workbook) -> Map<(u32, u16), Seq<char>>;

/// The numbers in the cells of the first sheet of a workbook, by row and column.
pub uninterp spec fn sheet_numbers(wb: Workbook) -> Map<(u32, u16), int>;

/// The formats that cells of the first sheet of a workbook hold, by row and column:
/// whether they are bold, and the background and the font colour as RGB values. A cell
/// whose format is plain in all three has none.
pub uninterp spec fn sheet_formats(wb: Workbook) -> Map<(u32, u16), (bool, Option<int>, Option<int>)>;

/// The widths in pixels of the columns of the first sheet of a workbook that have been
/// set.
pub uninterp spec fn sheet_widths(wb: Workbook) -> Map<u16, int>;

/// The cells of the first sheet of a workbook, or of the one to be added first, that get
/// a format which is not plain when something is written to them without a format: all
/// where the workbook has such a format for its default, else those whose row and column
/// have formats.
pub uninterp spec fn tinted_cells(wb: Workbook) -> Set<(u32, u16)>;

/// By what the first sheet of a workbook, or the one to be added first, turns widths into
/// pixels: the width of a digit, the padding of a cell and the width of the widest
/// column.
pub uninterp spec fn digit_metrics(wb: Workbook) -> Seq<int>;

/// Whether a workbook has the usual look: no cell gets a format by itself, and widths go
/// by the usual font.
pub open spec fn looks_usual(wb: Workbook) -> bool {
    tinted_cells(wb).is_empty() && digit_metrics(wb) == seq![7int, 5int, 1790int]
}

/// The number of UTF-16 code units of a text.
pub open spec fn utf16_len(s: Seq<char>) -> nat
    decreases s.len(),
{
    if s.len() == 0 {
        0
    } else {
        utf16_len(s.drop_last()) + (if s.last() as u32 >= 0x10000 {
            2nat
        } else {
            1nat
        })
    }
}

/// A character that may not stand in the name of a sheet.
pub open spec fn is_barred(c: char) -> bool {
    c == '*' || c == '?' || c == ':' || c == '[' || c == ']' || c == '\\' || c == '/'
}

/// Whether a sheet may have a name.
pub open spec fn is_sheet_name(s: Seq<char>) -> bool {
    &&& 0 < s.len()
    &&& utf16_len(s) <= 31
    &&& forall|i: int| 0 <= i < s.len() ==> !is_barred(#[trigger] s[i])
    &&& s[0] != '\''
    &&& s.last() != '\''
}

/// Whether a sheet has a cell at a row and column.
pub open spec fn is_cell(row: u32, col: u16) -> bool {
    row < 1048576 && col < 16384
}

/// What the first sheet of a workbook holds.
pub struct SheetModel {
    pub texts: Map<(u32, u16), Seq<char>>,
    pub numbers: Map<(u32, u16), int>,
    pub formats: Map<(u32, u16), (bool, Option<int>, Option<int>)>,
    pub widths: Map<u16, int>,
}

/// What the first sheet of a workbook holds.
pub open spec fn sheet_of(wb: Workbook) -> SheetModel {
    SheetModel {
        texts: sheet_texts(wb),
        numbers: sheet_numbers(wb),
        formats: sheet_formats(wb),
        widths: sheet_widths(wb),
    }
}

/// A sheet without anything in its cells, and with columns of the default width.
pub open spec fn blank_sheet() -> SheetModel {
    SheetModel {
        texts: Map::empty(),
        numbers: Map::empty(),
        formats: Map::empty(),
        widths: Map::empty(),
    }
}

/// A sheet after a text was written to a cell: an empty text, one of more than 32767
/// UTF-16 code units and one beyond the last cell are not taken.
pub open spec fn with_text(s: SheetModel, row: u32, col: u16, text: Seq<char>) -> SheetModel {
    if text.len() > 0 && utf16_len(text) <= 32767 && is_cell(row, col) {
        SheetModel {
            texts: s.texts.insert((row, col), text),
            numbers: s.numbers.remove((row, col)),
            formats: s.formats.remove((row, col)),
            widths: s.widths,
        }
    } else {
        s
    }
}

/// A sheet after a text was written to a cell in bold, with a background and a font
/// colour.
pub open spec fn with_bold_text(
    s: SheetModel,
    row: u32,
    col: u16,
    text: Seq<char>,
    background: int,
    font: int,
) -> SheetModel {
    if text.len() > 0 && utf16_len(text) <= 32767 && is_cell(row, col) {
        SheetModel {
            formats: s.formats.insert((row, col), (true, Some(background), Some(font))),
            ..with_text(s, row, col, text)
        }
    } else {
        s
    }
}

/// A sheet after the width of a column was set to a number of digits.
pub open spec fn with_width(s: SheetModel, col: u16, width: u16) -> SheetModel {
    if col < 16384 {
        SheetModel { widths: s.widths.insert(col, 7 * width + 5), ..s }
    } else {
        s
    }
}

/// A sheet after a number was written to a cell: one beyond the last cell is not taken.
pub open spec fn with_number(s: SheetModel, row: u32, col: u16, n: int) -> SheetModel {
    if is_cell(row, col) {
        SheetModel {
            texts: s.texts.remove((row, col)),
            numbers: s.numbers.insert((row, col), n),
            formats: s.formats.remove((row, col)),
            widths: s.widths,
        }
    } else {
        s
    }
}

/// `Workbook::new`: a workbook without sheets that has made none, with the usual look.
#[verifier::external_body]
fn new_workbook() -> (r: Workbook)
    ensures
        sheet_names(r).len() == 0,
        sheets_made(r) == 0,
        sheet_of(r) == blank_sheet(),
        looks_usual(r),
{
    Workbook::new()
}

/// `Workbook::add_worksheet`, on a workbook without sheets that has made none: there is
/// one empty sheet then, called "Sheet1". The look stays.
#[verifier::external_body]
fn add_sheet(wb: &mut Workbook)
    requires
        sheet_names(*old(wb)).len() == 0,
        sheets_made(*old(wb)) == 0,
    ensures
        sheet_names(*final(wb)) == seq!["Sheet1"@],
        sheets_made(*final(wb)) == 1,
        sheet_of(*final(wb)) == blank_sheet(),
        looks_usual(*final(wb)) == looks_usual(*old(wb)),
{
    wb.add_worksheet();
}

/// `Worksheet::set_name`, on the first sheet of a workbook: the sheet gets the name if
/// it may have it, else nothing changes. Returns whether it got it. The cells,
/// the columns and the look stay.
#[verifier::external_body]
fn name_sheet(wb: &mut Workbook, name: &str) -> (r: bool)
    requires
        sheet_names(*old(wb)).len() > 0,
    ensures
        r == is_sheet_name(name@),
        sheet_names(*final(wb)) == (if r {
            sheet_names(*old(wb)).update(0, name@)
        } else {
            sheet_names(*old(wb))
        }),
        sheet_texts(*final(wb)) == sheet_texts(*old(wb)),
        sheet_numbers(*final(wb)) == sheet_numbers(*old(wb)),
        sheet_formats(*final(wb)) == sheet_formats(*old(wb)),
        sheet_widths(*final(wb)) == sheet_widths(*old(wb)),
        tinted_cells(*final(wb)) == tinted_cells(*old(wb)),
        digit_metrics(*final(wb)) == digit_metrics(*old(wb)),
{
    wb.worksheet_from_index(0).and_then(|s| s.set_name(name)).is_ok()
}

/// `Worksheet::write` of a text, on the first sheet of a workbook: the cell holds the
/// text then, in place of what it held, as far as the text is taken, and a plain format.
/// Names and look stay.
#[verifier::external_body]
fn put_text(wb: &mut Workbook, row: u32, col: u16, text: &str)
    requires
        sheet_names(*old(wb)).len() > 0,
        looks_usual(*old(wb)),
    ensures
        sheet_of(*final(wb)) == with_text(sheet_of(*old(wb)), row, col, text@),
        sheet_names(*final(wb)) == sheet_names(*old(wb)),
        looks_usual(*final(wb)),
{
    wb.worksheet_from_index(0).and_then(|s| s.write(row, col, text)).ok();
}

/// `Worksheet::write` of a number, on the first sheet of a workbook: the cell holds the
/// number then, in place of what it held, if there is such a cell, and a plain format.
/// Names and look stay.
#[verifier::external_body]
fn put_number(wb: &mut Workbook, row: u32, col: u16, n: u16)
    requires
        sheet_names(*old(wb)).len() > 0,
        looks_usual(*old(wb)),
    ensures
        sheet_of(*final(wb)) == with_number(sheet_of(*old(wb)), row, col, n as int),
        sheet_names(*final(wb)) == sheet_names(*old(wb)),
        looks_usual(*final(wb)),
{
    wb.worksheet_from_index(0).and_then(|s| s.write(row, col, n)).ok();
}

/// `Worksheet::write_with_format` of a text, on the first sheet of a workbook, with a
/// format that `Format::set_bold`, `Format::set_background_color` and
/// `Format::set_font_color` make of a plain one: as far as the text is taken, the cell
/// holds it then, in place of what it held, and that format. The colours are RGB values.
/// Names and look stay.
#[verifier::external_body]
fn put_bold_text(wb: &mut Workbook, row: u32, col: u16, text: &str, background: u32, font: u32)
    requires
        sheet_names(*old(wb)).len() > 0,
        text@.len() > 0,
        background <= 0xFFFFFF,
        font <= 0xFFFFFF,
    ensures
        sheet_of(*final(wb)) == with_bold_text(
            sheet_of(*old(wb)),
            row,
            col,
            text@,
            background as int,
            font as int,
        ),
        sheet_names(*final(wb)) == sheet_names(*old(wb)),
        looks_usual(*final(wb)) == looks_usual(*old(wb)),
{
    let format = Format::new()
        .set_bold()
        .set_background_color(Color::RGB(background))
        .set_font_color(Color::RGB(font));
    wb.worksheet_from_index(0).and_then(|s| s.write_with_format(row, col, text, &format)).ok();
}

/// `Worksheet::set_column_width`, on the first sheet of a workbook with the usual look:
/// the column has room for that many digits then, if there is such a column. Names and
/// look stay.
#[verifier::external_body]
fn set_width(wb: &mut Workbook, col: u16, width: u16)
    requires
        sheet_names(*old(wb)).len() > 0,
        looks_usual(*old(wb)),
        1 <= width <= 255,
    ensures
        sheet_of(*final(wb)) == with_width(sheet_of(*old(wb)), col, width),
        sheet_names(*final(wb)) == sheet_names(*old(wb)),
        looks_usual(*final(wb)),
{
    wb.worksheet_from_index(0).and_then(|s| s.set_column_width(col, width)).ok();
}

/// The background of the headings.
pub const HEADING_BACKGROUND: u32 = 0x1d1d1f;

/// The colour of the headings.
pub const HEADING_COLOR: u32 = 0xFFFFFF;

/// The widths of the columns.
pub open spec fn column_widths() -> Seq<u16> {
    seq![14u16, 10u16, 10u16, 20u16, 10u16, 8u16, 12u16, 12u16]
}

/// The headings of the columns.
pub open spec fn headings() -> Seq<Seq<char>> {
    seq![
        "区域"@,
        "地址(DEC)"@,
        "地址(HEX)"@,
        "名称"@,
        "数据类型"@,
        "访问"@,
        "自动变化"@,
        "当前值"@,
    ]
}

/// The value of a register as it is exported: nothing written counts as zero, and a bit
/// is a zero or a one.
pub open spec fn export_value(img: ImageModel, area: Seq<char>, addr: u16) -> u16 {
    if area == "holding"@ {
        if img.holding_registers.contains_key(addr) {
            img.holding_registers[addr]
        } else {
            0
        }
    } else if area == "input"@ {
        if img.input_registers.contains_key(addr) {
            img.input_registers[addr]
        } else {
            0
        }
    } else if area == "coil"@ {
        if img.coils.contains_key(addr) && img.coils[addr] {
            1
        } else {
            0
        }
    } else {
        if img.discrete_inputs.contains_key(addr) && img.discrete_inputs[addr] {
            1
        } else {
            0
        }
    }
}

/// An address in four hexadecimal digits.
pub open spec fn addr_text(addr: u16) -> Seq<char> {
    "0x"@ + fixed_digits(addr as nat, 16, 4, true)
}

/// A sheet with the first `n` headings, which stand out from the rest.
pub open spec fn headed(n: nat) -> SheetModel
    decreases n,
{
    if n == 0 {
        blank_sheet()
    } else {
        with_bold_text(
            headed((n - 1) as nat),
            0,
            (n - 1) as u16,
            headings()[n - 1],
            HEADING_BACKGROUND as int,
            HEADING_COLOR as int,
        )
    }
}

/// A sheet with all headings and the widths of the first `n` columns.
pub open spec fn widened(n: nat) -> SheetModel
    decreases n,
{
    if n == 0 {
        headed(8)
    } else {
        with_width(widened((n - 1) as nat), (n - 1) as u16, column_widths()[n - 1])
    }
}

/// A sheet with a row for one more register.
pub open spec fn with_row(s: SheetModel, row: u32, d: DefModel, img: ImageModel) -> SheetModel {
    let s0 = with_text(s, row, 0, d.area);
    let s1 = with_number(s0, row, 1, d.addr as int);
    let s2 = with_text(s1, row, 2, addr_text(d.addr));
    let s3 = with_text(s2, row, 3, d.name);
    let s4 = with_text(s3, row, 4, d.dtype);
    let s5 = with_text(s4, row, 5, d.access);
    let s6 = with_text(s5, row, 6, d.vary);
    with_number(s6, row, 7, export_value(img, d.area, d.addr) as int)
}

/// The sheet of the first `n` registers: a row of headings, then a row for each.
pub open spec fn filled(defs: Seq<DefModel>, img: ImageModel, n: nat) -> SheetModel
    decreases n,
{
    if n == 0 {
        widened(8)
    } else {
        with_row(filled(defs, img, (n - 1) as nat), n as u32, defs[n - 1], img)
    }
}

/// The value of a register as it is exported.
pub fn export_value_of(snap: &ImageSnapshot, area: &str, addr: u16) -> (r: u16)
    ensures
        r == export_value(snap@, area@, addr),
{
    if same(area, "holding") {
        match snap.holding_registers.get(&addr) {
            Some(v) => *v,
            None => 0,
        }
    } else if same(area, "input") {
        match snap.input_registers.get(&addr) {
            Some(v) => *v,
            None => 0,
        }
    } else if same(area, "coil") {
        match snap.coils.get(&addr) {
            Some(v) => if *v {
                1
            } else {
                0
            },
            None => 0,
        }
    } else {
        match snap.discrete_inputs.get(&addr) {
            Some(v) => if *v {
                1
            } else {
                0
            },
            None => 0,
        }
    }
}

proof fn lemma_utf16_bound(s: Seq<char>)
    ensures
        utf16_len(s) <= 2 * s.len(),
    decreases s.len(),
{
    if s.len() > 0 {
        lemma_utf16_bound(s.drop_last());
    }
}

fn put_row(wb: &mut Workbook, row: u32, def: &RegisterDef, snap: &ImageSnapshot)
    requires
        sheet_names(*old(wb)).len() > 0,
        looks_usual(*old(wb)),
    ensures
        sheet_of(*final(wb)) == with_row(sheet_of(*old(wb)), row, def@, snap@),
        sheet_names(*final(wb)) == sheet_names(*old(wb)),
        looks_usual(*final(wb)),
{
    let mut hex = "0x".to_owned();
    push_fixed(&mut hex, def.addr as u64, 16, 4, true);
    let value: u16 = export_value_of(snap, def.area.as_str(), def.addr);
    put_text(wb, row, 0, def.area.as_str());
    put_number(wb, row, 1, def.addr);
    put_text(wb, row, 2, hex.as_str());
    put_text(wb, row, 3, def.name.as_str());
    put_text(wb, row, 4, def.dtype.as_str());
    put_text(wb, row, 5, def.access.as_str());
    put_text(wb, row, 6, def.vary.as_str());
    put_number(wb, row, 7, value);
}

fn put_heading(wb: &mut Workbook, col: u16, text: &str)
    requires
        sheet_names(*old(wb)).len() > 0,
        text@.len() > 0,
    ensures
        sheet_of(*final(wb)) == with_bold_text(
            sheet_of(*old(wb)),
            0,
            col,
            text@,
            HEADING_BACKGROUND as int,
            HEADING_COLOR as int,
        ),
        sheet_names(*final(wb)) == sheet_names(*old(wb)),
        looks_usual(*final(wb)) == looks_usual(*old(wb)),
{
    put_bold_text(wb, 0, col, text, HEADING_BACKGROUND, HEADING_COLOR);
}

/// Builds the workbook of registers: one sheet with a row of headings that stand out and
/// a row for each register, its current value in the last column.
pub fn build_workbook(defs: &Vec<RegisterDef>, snap: &ImageSnapshot) -> (r: Workbook)
    requires
        defs@.len() < u32::MAX,
    ensures
        sheet_names(r) == seq!["寄存器列表"@],
        sheet_of(r) == filled(def_models(defs@), snap@, defs@.len()),
{
    let mut wb = new_workbook();
    add_sheet(&mut wb);
    proof {
        reveal_strlit("寄存器列表");
        lemma_utf16_bound("寄存器列表"@);
        assert(is_sheet_name("寄存器列表"@));
    }
    name_sheet(&mut wb, "寄存器列表");
    assert(sheet_names(wb) =~= seq!["寄存器列表"@]);
    assert(sheet_of(wb) == headed(0));
    proof {
        reveal_strlit("区域");
        reveal_strlit("地址(DEC)");
        reveal_strlit("地址(HEX)");
        reveal_strlit("名称");
        reveal_strlit("数据类型");
        reveal_strlit("访问");
        reveal_strlit("自动变化");
        reveal_strlit("当前值");
    }
    put_heading(&mut wb, 0, "区域");
    assert(sheet_of(wb) == headed(1));
    put_heading(&mut wb, 1, "地址(DEC)");
    assert(sheet_of(wb) == headed(2));
    put_heading(&mut wb, 2, "地址(HEX)");
    assert(sheet_of(wb) == headed(3));
    put_heading(&mut wb, 3, "名称");
    assert(sheet_of(wb) == headed(4));
    put_heading(&mut wb, 4, "数据类型");
    assert(sheet_of(wb) == headed(5));
    put_heading(&mut wb, 5, "访问");
    assert(sheet_of(wb) == headed(6));
    put_heading(&mut wb, 6, "自动变化");
    assert(sheet_of(wb) == headed(7));
    put_heading(&mut wb, 7, "当前值");
    assert(sheet_of(wb) == widened(0));
    set_width(&mut wb, 0, 14);
    assert(sheet_of(wb) == widened(1));
    set_width(&mut wb, 1, 10);
    assert(sheet_of(wb) == widened(2));
    set_width(&mut wb, 2, 10);
    assert(sheet_of(wb) == widened(3));
    set_width(&mut wb, 3, 20);
    assert(sheet_of(wb) == widened(4));
    set_width(&mut wb, 4, 10);
    assert(sheet_of(wb) == widened(5));
    set_width(&mut wb, 5, 8);
    assert(sheet_of(wb) == widened(6));
    set_width(&mut wb, 6, 12);
    assert(sheet_of(wb) == widened(7));
    set_width(&mut wb, 7, 12);
    assert(sheet_of(wb) == widened(8));
    let ghost m = def_models(defs@);
    let mut i: usize = 0;
    while i < defs.len()
        invariant
            i <= defs@.len(),
            defs@.len() < u32::MAX,
            m == def_models(defs@),
            sheet_names(wb) == seq!["寄存器列表"@],
            looks_usual(wb),
            sheet_of(wb) == filled(m, snap@, i as nat),
        decreases defs@.len() - i,
    {
        put_row(&mut wb, (i + 1) as u32, &defs[i], snap);
        i += 1;
    }
    wb
}

/// The name under which the workbook of a unit is offered.
pub fn export_file_name(unit_id: u8) -> (r: String)
    ensures
        r@ == "modbus_unit"@ + decimal(unit_id as nat) + "_regs.xlsx"@,
{
    let mut out = "modbus_unit".to_owned();
    push_decimal(&mut out, unit_id as u64);
    out.append("_regs.xlsx");
    out
}

/// Builds the workbook of the registers of a unit.
pub fn sim_reg_export(units: &SimUnits, unit_id: Option<u8>) -> (r: Result<Workbook, String>)
    requires
        units.wf(),
        configured(units@, target(unit_id)) ==> unit_of(units@, unit_id).regs.len() < u32::MAX,
    ensures
        match r {
            Ok(wb) => {
                let u = unit_of(units@, unit_id);
                &&& configured(units@, target(unit_id))
                &&& sheet_names(wb) == seq!["寄存器列表"@]
                &&& sheet_of(wb) == filled(u.regs, u.image, u.regs.len())
            },
            Err(m) => !configured(units@, target(unit_id)) && m@ == missing_text(target(unit_id)),
        },
{
    match units.unit_regs(target_of(unit_id)) {
        Err(m) => Err(m),
        Ok(list) => {
            assert(def_models(list.defs@).len() == list.defs@.len());
            Ok(build_workbook(&list.defs, &list.snapshot))
        },
    }
}

/// The rows of the registers above `n` are empty in the sheet of the first `n`.
proof fn lemma_rows_above_empty(defs: Seq<DefModel>, img: ImageModel, n: nat, row: u32, col: u16)
    requires
        n <= defs.len() < u32::MAX,
        row > n,
    ensures
        !filled(defs, img, n).texts.contains_key((row, col)),
        !filled(defs, img, n).numbers.contains_key((row, col)),
    decreases n,
{
    if n == 0 {
        reveal_with_fuel(headed, 9);
        reveal_with_fuel(widened, 9);
    } else {
        lemma_rows_above_empty(defs, img, (n - 1) as nat, row, col);
    }
}

/// The exported sheet tells of every register, as far as the sheet has rows: its address
/// as a number and in hexadecimal, its value, and each text about it that a cell can
/// hold.
pub proof fn law_registers_are_exported(defs: Seq<DefModel>, img: ImageModel, n: nat, i: int)
    requires
        0 <= i < n <= defs.len() < u32::MAX,
        i + 1 < 1048576,
    ensures
        ({
            let s = filled(defs, img, n);
            let row = (i + 1) as u32;
            let d = defs[i];
            &&& s.numbers.contains_pair((row, 1), d.addr as int)
            &&& s.numbers.contains_pair((row, 7), export_value(img, d.area, d.addr) as int)
            &&& s.texts.contains_pair((row, 2), addr_text(d.addr))
            &&& holds_text(s, row, 0, d.area)
            &&& holds_text(s, row, 3, d.name)
            &&& holds_text(s, row, 4, d.dtype)
            &&& holds_text(s, row, 5, d.access)
            &&& holds_text(s, row, 6, d.vary)
        }),
    decreases n,
{
    let row = (i + 1) as u32;
    let d = defs[i];
    let before = filled(defs, img, (n - 1) as nat);
    if i + 1 < n {
        law_registers_are_exported(defs, img, (n - 1) as nat, i);
    } else {
        reveal_strlit("0x");
        lemma_utf16_bound(addr_text(d.addr));
        reveal_with_fuel(fixed_digits, 5);
        assert(addr_text(d.addr).len() == 6);
        lemma_rows_above_empty(defs, img, (n - 1) as nat, row, 0);
        lemma_rows_above_empty(defs, img, (n - 1) as nat, row, 3);
        lemma_rows_above_empty(defs, img, (n - 1) as nat, row, 4);
        lemma_rows_above_empty(defs, img, (n - 1) as nat, row, 5);
        lemma_rows_above_empty(defs, img, (n - 1) as nat, row, 6);
    }
}

/// The exported sheet has a row of headings in bold, white on a dark ground, above the
/// registers, which are plain, and columns of set widths.
pub proof fn law_headings_stand_out(defs: Seq<DefModel>, img: ImageModel, n: nat, row: u32, col: u16)
    requires
        n <= defs.len() < u32::MAX,
        col < 8,
    ensures
        ({
            let s = filled(defs, img, n);
            &&& s.texts.contains_pair((0, col), headings()[col as int])
            &&& s.formats.contains_pair((0, col), (true, Some(0x1d1d1fint), Some(0xFFFFFFint)))
            &&& s.widths.contains_pair(col, 7 * column_widths()[col as int] + 5)
            &&& row > 0 ==> !s.formats.contains_key((row, col))
        }),
    decreases n,
{
    if n == 0 {
        reveal_with_fuel(headed, 9);
        reveal_with_fuel(widened, 9);
        lemma_headings_fit();
    } else {
        law_headings_stand_out(defs, img, (n - 1) as nat, row, col);
    }
}

proof fn lemma_headings_fit()
    ensures
        forall|i: int|
            0 <= i < 8 ==> 0 < (#[trigger] headings()[i]).len() && utf16_len(headings()[i]) <= 32767,
{
    reveal_strlit("区域");
    reveal_strlit("地址(DEC)");
    reveal_strlit("地址(HEX)");
    reveal_strlit("名称");
    reveal_strlit("数据类型");
    reveal_strlit("访问");
    reveal_strlit("自动变化");
    reveal_strlit("当前值");
    assert forall|i: int| 0 <= i < 8 implies 0 < (#[trigger] headings()[i]).len() && utf16_len(
        headings()[i],
    ) <= 32767 by {
        lemma_utf16_bound(headings()[i]);
    }
}

/// Whether a cell holds a text, or nothing where the text does not fit into a cell.
pub open spec fn holds_text(s: SheetModel, row: u32, col: u16, text: Seq<char>) -> bool {
    if text.len() > 0 && utf16_len(text) <= 32767 {
        s.texts.contains_pair((row, col), text)
    } else {
        !s.texts.contains_key((row, col))
    }
}

/// The value that is exported of a slot is what it holds, a set bit as one and a clear bit
/// as zero; what was never written counts as zero.
pub proof fn law_exported_values(img: ImageModel, area: Seq<char>, addr: u16)
    ensures
        export_value(img, "holding"@, addr) == (if img.holding_registers.contains_key(addr) {
            img.holding_registers[addr]
        } else {
            0
        }),
        export_value(img, "input"@, addr) == (if img.input_registers.contains_key(addr) {
            img.input_registers[addr]
        } else {
            0
        }),
        export_value(img, "coil"@, addr) == (if img.coils.contains_key(addr) && img.coils[addr] {
            1u16
        } else {
            0
        }),
        area != "holding"@ && area != "input"@ && area != "coil"@ ==> export_value(img, area, addr)
            == (if img.discrete_inputs.contains_key(addr) && img.discrete_inputs[addr] {
            1u16
        } else {
            0
        }),
{
    crate::slave::lemma_area_names();
}

/// An address is exported as "0x" and four capital hexadecimal digits.
pub proof fn law_exported_addresses(addr: u16, i: int)
    requires
        0 <= i < 4,
    ensures
        addr_text(addr).len() == 6,
        addr_text(addr)[0] == '0',
        addr_text(addr)[1] == 'x',
        addr_text(addr)[2 + i] == crate::text::digit_char(
            (addr as int / vstd::arithmetic::power::pow(16, (3 - i) as nat)) % 16,
            true,
        ),
{
    reveal_strlit("0x");
    crate::text::law_fixed_places(addr as nat, 16, 4, true, i);
}

/// A text of one to 32767 UTF-16 code units stands in its cell as it is.
pub proof fn law_held_texts(s: SheetModel, row: u32, col: u16, text: Seq<char>)
    requires
        holds_text(s, row, col, text),
        text.len() > 0,
        utf16_len(text) <= 32767,
    ensures
        s.texts.contains_key((row, col)),
        s.texts[(row, col)] == text,
{
}

/// The eight headings, one for each column.
pub proof fn law_headings()
    ensures
        headings().len() == 8,
        column_widths().len() == 8,
        headings() == seq![
            "区域"@,
            "地址(DEC)"@,
            "地址(HEX)"@,
            "名称"@,
            "数据类型"@,
            "访问"@,
            "自动变化"@,
            "当前值"@,
        ],
{
}

/// Nothing is exported outside the row of headings, the rows of the registers and the
/// eight columns.
pub proof fn law_nothing_else_is_exported(
    defs: Seq<DefModel>,
    img: ImageModel,
    n: nat,
    row: u32,
    col: u16,
)
    requires
        n <= defs.len() < u32::MAX,
        row > n || col >= 8,
    ensures
        !filled(defs, img, n).texts.contains_key((row, col)),
        !filled(defs, img, n).numbers.contains_key((row, col)),
        !filled(defs, img, n).formats.contains_key((row, col)),
        col >= 8 ==> !filled(defs, img, n).widths.contains_key(col),
    decreases n,
{
    if n == 0 {
        reveal_with_fuel(headed, 9);
        reveal_with_fuel(widened, 9);
    } else {
        law_nothing_else_is_exported(defs, img, (n - 1) as nat, row, col);
    }
}

/// A text goes into its cell, in place of a number, where there is such a cell and the text
/// has one to 32767 UTF-16 code units; no other cell changes.
pub proof fn law_written_cells(
    s: SheetModel,
    row: u32,
    col: u16,
    text: Seq<char>,
    n: int,
    other: (u32, u16),
)
    requires
        row < 1048576,
        col < 16384,
    ensures
        0 < text.len() && utf16_len(text) <= 32767 ==> with_text(
            s,
            row,
            col,
            text,
        ).texts.contains_pair((row, col), text) && !with_text(
            s,
            row,
            col,
            text,
        ).numbers.contains_key((row, col)),
        with_number(s, row, col, n).numbers.contains_pair((row, col), n),
        !with_number(s, row, col, n).texts.contains_key((row, col)),
        other != (row, col) ==> with_text(s, row, col, text).texts.contains_key(other)
            == s.texts.contains_key(other) && with_number(s, row, col, n).numbers.contains_key(other)
            == s.numbers.contains_key(other),
{
}

} // verus!
