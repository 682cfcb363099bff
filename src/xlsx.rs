//! Loaded tables: field descriptors with their compiled checks, rows of
//! values, and the dataset of all tables that the global pass reads.

use vstd::prelude::*;
use crate::compiler::{CheckObj, CompileError, compile_expr, generate_checker};
use crate::predicate::{Pred, TableView, dataset_has_value, set_global, set_needs, set_test, table_has_value};
use crate::text::{contains, eq_trimmed, occurs_in, same_text, trimmed};

verus! {

/// A field descriptor as a value.
pub struct FieldView {
    pub name: Seq<char>,
    pub field_type: Seq<char>,
    pub field_index: nat,
    pub row_index: nat,
    pub checks: Seq<Pred>,
    pub condition: Seq<char>,
    pub client_server: Seq<char>,
    pub cn_name: Seq<char>,
}

/// A field of a table: its name and type, its column, its constraint text
/// and the checks compiled from it.
#[derive(Debug)]
pub struct XlsTabField {
    field_name: String,
    field_type: String,
    field_index: usize,
    row_index: usize,
    checker: CheckObj,
    condition: String,
    client_server: String,
    field_cn_name: String,
}

impl View for XlsTabField {
    type V = FieldView;

    closed spec fn view(&self) -> FieldView {
        FieldView {
            name: self.field_name@,
            field_type: self.field_type@,
            field_index: self.field_index as nat,
            row_index: self.row_index as nat,
            checks: self.checker@,
            condition: self.condition@,
            client_server: self.client_server@,
            cn_name: self.field_cn_name@,
        }
    }
}

/// Names that mark a key field.
pub open spec fn is_key_name(n: Seq<char>) -> bool {
    has_key_marker(n) || n == "id"@ || n == "Id"@ || n == "ID"@
}

/// The name holds `KEY`, `Keys` or `KeyId`.
pub open spec fn has_key_marker(n: Seq<char>) -> bool {
    occurs_in("KEY"@, n) || occurs_in("Keys"@, n) || occurs_in("KeyId"@, n)
}

/// A descriptor with every text empty, no checks and both indices zero.
pub open spec fn blank_field() -> FieldView {
    FieldView {
        name: Seq::empty(),
        field_type: Seq::empty(),
        field_index: 0,
        row_index: 0,
        checks: Seq::empty(),
        condition: Seq::empty(),
        client_server: Seq::empty(),
        cn_name: Seq::empty(),
    }
}

impl XlsTabField {
    pub fn new() -> (r: XlsTabField)
        ensures
            r@ == blank_field(),
    {
        let r = XlsTabField {
            field_name: String::new(),
            field_type: String::new(),
            field_index: 0,
            row_index: 0,
            checker: CheckObj::new(),
            condition: String::new(),
            client_server: String::new(),
            field_cn_name: String::new(),
        };
        assert(r@ =~= blank_field());
        r
    }

    /// Whether the name marks a key: it holds `KEY`, `Keys` or `KeyId`, or is
    /// `id`, `Id` or `ID`.
    pub fn is_key_field(&self) -> (r: bool)
        ensures
            r == is_key_name(self@.name),
    {
        let n = self.field_name.as_str();
        contains(n, "KEY") || contains(n, "Keys") || contains(n, "KeyId") || same_text(n, "id")
            || same_text(n, "Id") || same_text(n, "ID")
    }

    /// Whether the field is a remark column (its side is `none`), left out
    /// of every output target.
    pub fn is_remark_field(&self, _target: &String) -> (r: bool)
        ensures
            r == (self@.client_server == "none"@),
    {
        same_text(self.client_server.as_str(), "none")
    }

    /// Whether the field lacks a name or a type.
    pub fn is_invalid_field(&self) -> (r: bool)
        ensures
            r == (self@.name.len() == 0 || self@.field_type.len() == 0),
    {
        self.field_name.as_str().is_empty() || self.field_type.as_str().is_empty()
    }

    pub fn set_field_name(&mut self, name: String)
        ensures
            final(self)@ == (FieldView { name: name@, ..old(self)@ }),
    {
        self.field_name = name;
    }

    pub fn get_field_name(&self) -> (r: &String)
        ensures
            r@ == self@.name,
    {
        &self.field_name
    }

    pub fn set_field_type(&mut self, t: String)
        ensures
            final(self)@ == (FieldView { field_type: t@, ..old(self)@ }),
    {
        self.field_type = t;
    }

    pub fn get_field_type(&self) -> (r: &String)
        ensures
            r@ == self@.field_type,
    {
        &self.field_type
    }

    pub fn set_field_index(&mut self, i: usize)
        ensures
            final(self)@ == (FieldView { field_index: i as nat, ..old(self)@ }),
    {
        self.field_index = i;
    }

    pub fn set_row_index(&mut self, i: usize)
        ensures
            final(self)@ == (FieldView { row_index: i as nat, ..old(self)@ }),
    {
        self.row_index = i;
    }

    /// The position of the field among the kept fields, cut to 32 bits.
    pub fn as_index(&self) -> (r: u32)
        ensures
            r == self@.field_index as u32,
    {
        self.field_index as u32
    }

    /// The sheet column the field was read from, cut to 32 bits.
    pub fn get_row_index(&self) -> (r: u32)
        ensures
            r == self@.row_index as u32,
    {
        self.row_index as u32
    }

    pub fn set_condition(&mut self, c: &String)
        ensures
            final(self)@ == (FieldView { condition: c@, ..old(self)@ }),
    {
        self.condition = c.clone();
    }

    pub fn get_condition(&self) -> (r: &String)
        ensures
            r@ == self@.condition,
    {
        &self.condition
    }

    pub fn set_client_or_server(&mut self, c: &String)
        ensures
            final(self)@ == (FieldView { client_server: c@, ..old(self)@ }),
    {
        self.client_server = c.clone();
    }

    pub fn set_checkers(&mut self, checkers: CheckObj)
        ensures
            final(self)@ == (FieldView { checks: checkers@, ..old(self)@ }),
    {
        self.checker = checkers;
    }

    /// The local pass on one value of this field.
    pub fn is_valid(&self, value: &String) -> (r: bool)
        ensures
            r == set_test(self@.checks, value@),
    {
        self.checker.test(value)
    }

    /// Whether the field's checks need the whole dataset.
    pub fn need_full_load(&self) -> (r: bool)
        ensures
            r == set_needs(self@.checks),
    {
        self.checker.need_full_load()
    }

    /// The global pass on one value of this field.
    pub fn is_valid_on_all_load(&self, value: &String, all: &ALLXLSX) -> (r: bool)
        ensures
            r == set_global(self@.checks, value@, all@),
    {
        self.checker.test_on_all_load(value, all)
    }

    pub fn set_field_cn_name(&mut self, name: &String)
        ensures
            final(self)@ == (FieldView { cn_name: name@, ..old(self)@ }),
    {
        self.field_cn_name = name.clone();
    }
}

/// The text of a cell, where the sheet has it.
pub open spec fn cell_at(cells: Seq<Seq<Seq<char>>>, r: int, c: int) -> Option<Seq<char>> {
    if 0 <= r < cells.len() && 0 <= c < cells[r].len() {
        Some(cells[r][c])
    } else {
        None
    }
}

pub open spec fn or_empty(o: Option<Seq<char>>) -> Seq<char> {
    match o {
        Some(s) => s,
        None => Seq::empty(),
    }
}

/// The checks a condition cell compiles to on a field of type `t`; none
/// where it is missing or malformed.
pub open spec fn checks_of(cond: Option<Seq<char>>, t: Seq<char>) -> Seq<Pred> {
    match cond {
        Some(e) => match compile_expr(e, t) {
            Some(ps) => ps,
            None => Seq::empty(),
        },
        None => Seq::empty(),
    }
}

/// The descriptor that column `c` of a sheet's header declares. Row 0 holds
/// the display name, row 1 the name, row 2 the constraint, row 3 the side
/// (`none` for a remark column), row 4 the type. A special sheet declares
/// only names, and every field is a `string`.
pub open spec fn header_field(cells: Seq<Seq<Seq<char>>>, c: int, special: bool) -> FieldView {
    let name = or_empty(cell_at(cells, 1, c));
    if special {
        FieldView { name, field_type: "string"@, row_index: c as nat, ..blank_field() }
    } else {
        match cell_at(cells, 4, c) {
            Some(t) => FieldView {
                name,
                field_type: t,
                field_index: 0,
                row_index: c as nat,
                checks: checks_of(cell_at(cells, 2, c), t),
                condition: or_empty(cell_at(cells, 2, c)),
                client_server: or_empty(cell_at(cells, 3, c)),
                cn_name: or_empty(cell_at(cells, 0, c)),
            },
            None => FieldView { name, row_index: c as nat, ..blank_field() },
        }
    }
}

/// A column is kept when it has a name and a type and is no remark.
pub open spec fn is_kept(f: FieldView) -> bool {
    f.name.len() > 0 && f.field_type.len() > 0 && f.client_server != "none"@
}

/// The fields declared by the first `width` columns, numbered in order.
pub open spec fn header_fields(cells: Seq<Seq<Seq<char>>>, width: nat, special: bool) -> Seq<FieldView>
    decreases width,
{
    if width == 0 {
        Seq::empty()
    } else {
        let prev = header_fields(cells, (width - 1) as nat, special);
        let f = header_field(cells, width - 1, special);
        if is_kept(f) {
            prev.push(FieldView { field_index: prev.len(), ..f })
        } else {
            prev
        }
    }
}

/// The constraints among the first `width` columns that do not compile.
pub open spec fn header_errors(cells: Seq<Seq<Seq<char>>>, width: nat, special: bool) -> Seq<Seq<char>>
    decreases width,
{
    if width == 0 {
        Seq::empty()
    } else {
        let prev = header_errors(cells, (width - 1) as nat, special);
        let c = width - 1;
        if !special && cell_at(cells, 4, c) is Some && cell_at(cells, 2, c) is Some && compile_expr(
            cell_at(cells, 2, c)->0,
            cell_at(cells, 4, c)->0,
        ) is None {
            prev.push(cell_at(cells, 2, c)->0)
        } else {
            prev
        }
    }
}

/// The row of values that sheet row `r` gives the fields: the cell under
/// each field's column, empty where there is none.
pub open spec fn data_row(cells: Seq<Seq<Seq<char>>>, fields: Seq<FieldView>, r: int) -> Seq<Seq<char>> {
    Seq::new(fields.len(), |j: int| or_empty(cell_at(cells, r, fields[j].row_index as int)))
}

/// The data rows of a sheet from row `start` on.
pub open spec fn data_rows(cells: Seq<Seq<Seq<char>>>, fields: Seq<FieldView>, start: int) -> Seq<Seq<Seq<char>>> {
    Seq::new(
        if start < cells.len() {
            (cells.len() - start) as nat
        } else {
            0
        },
        |k: int| data_row(cells, fields, start + k),
    )
}

/// The constraint of column `c` is present on a typed column and does not compile.
pub open spec fn header_error_at(cells: Seq<Seq<Seq<char>>>, c: int, special: bool) -> bool {
    !special && cell_at(cells, 4, c) is Some && cell_at(cells, 2, c) is Some && compile_expr(
        cell_at(cells, 2, c)->0,
        cell_at(cells, 4, c)->0,
    ) is None
}

fn cell<'a>(cells: &'a Vec<Vec<String>>, r: usize, c: usize) -> (o: Option<&'a String>)
    ensures
        match o {
            Some(s) => cell_at(rows_view(cells@), r as int, c as int) == Some(s@),
            None => cell_at(rows_view(cells@), r as int, c as int) is None,
        },
{
    if r < cells.len() && c < cells[r].len() {
        assert(rows_view(cells@)[r as int] == cells@[r as int]@.map_values(|s: String| s@));
        Some(&cells[r][c])
    } else {
        None
    }
}

/// The descriptor column `c` declares, and the error of its constraint.
fn read_header_field(cells: &Vec<Vec<String>>, c: usize, fname: &String, special: bool) -> (r: (
    XlsTabField,
    Option<CompileError>,
))
    ensures
        r.0@ == header_field(rows_view(cells@), c as int, special),
        match r.1 {
            Some(e) => header_error_at(rows_view(cells@), c as int, special) && e.expr@ == cell_at(
                rows_view(cells@),
                2,
                c as int,
            )->0 && e.context@ == fname@,
            None => !header_error_at(rows_view(cells@), c as int, special),
        },
{
    let ghost cv = rows_view(cells@);
    let mut f = XlsTabField::new();
    let mut err: Option<CompileError> = None;
    match cell(cells, 1, c) {
        Some(n) => f.set_field_name(n.clone()),
        None => {},
    }
    if special {
        f.set_field_type(String::from_str("string"));
    } else {
        match cell(cells, 4, c) {
            Some(t) => {
                f.set_field_type(t.clone());
                match cell(cells, 2, c) {
                    Some(e) => {
                        f.set_condition(e);
                        match generate_checker(e.clone(), t.clone(), fname) {
                            Ok(cs) => f.set_checkers(cs),
                            Err(x) => {
                                err = Some(x);
                            },
                        }
                    },
                    None => {},
                }
                match cell(cells, 3, c) {
                    Some(v) => f.set_client_or_server(v),
                    None => {},
                }
                match cell(cells, 0, c) {
                    Some(v) => f.set_field_cn_name(v),
                    None => {},
                }
            },
            None => {},
        }
    }
    f.set_row_index(c);
    (f, err)
}

/// A table as a value: its fields, and its rows of values in field order.
pub struct SheetView {
    pub fields: Seq<FieldView>,
    pub rows: Seq<Seq<Seq<char>>>,
}

pub open spec fn table_of(s: SheetView) -> TableView {
    TableView { fields: s.fields.map_values(|f: FieldView| f.name), rows: s.rows }
}

pub open spec fn rows_view(v: Seq<Vec<String>>) -> Seq<Seq<Seq<char>>> {
    v.map_values(|r: Vec<String>| r@.map_values(|s: String| s@))
}

/// One loaded table.
pub struct XLSX {
    fields: Vec<XlsTabField>,
    values: Vec<Vec<String>>,
}

impl View for XLSX {
    type V = SheetView;

    closed spec fn view(&self) -> SheetView {
        SheetView {
            fields: self.fields@.map_values(|f: XlsTabField| f@),
            rows: rows_view(self.values@),
        }
    }
}

impl XLSX {
    pub fn new() -> (r: XLSX)
        ensures
            r@.fields.len() == 0,
            r@.rows.len() == 0,
    {
        XLSX { fields: Vec::new(), values: Vec::new() }
    }

    pub fn add_field(&mut self, field: XlsTabField)
        ensures
            final(self)@ == (SheetView { fields: old(self)@.fields.push(field@), ..old(self)@ }),
    {
        self.fields.push(field);
        assert(self@.fields =~= old(self)@.fields.push(field@));
    }

    pub fn add_row(&mut self, row: Vec<String>)
        ensures
            final(self)@ == (SheetView {
                rows: old(self)@.rows.push(row@.map_values(|s: String| s@)),
                ..old(self)@
            }),
    {
        let ghost r = row@;
        self.values.push(row);
        assert(self@.rows =~= old(self)@.rows.push(r.map_values(|s: String| s@)));
    }

    pub fn field_num(&self) -> (r: usize)
        ensures
            r == self@.fields.len(),
    {
        self.fields.len()
    }

    pub fn fields_list(&self) -> (r: &Vec<XlsTabField>)
        ensures
            r@.map_values(|f: XlsTabField| f@) == self@.fields,
    {
        &self.fields
    }

    pub fn value_list(&self) -> (r: &Vec<Vec<String>>)
        ensures
            rows_view(r@) == self@.rows,
    {
        &self.values
    }

    /// Reads one sheet of a workbook, given as rows of cell texts, `width`
    /// columns wide. The first sheet read declares the fields (see
    /// `header_field`); every sheet adds its data rows, from row 5 on (row 1
    /// on a special sheet). Returns the constraints that did not compile:
    /// their fields are kept with no checks.
    pub fn load_sheet(
        &mut self,
        cells: &Vec<Vec<String>>,
        width: usize,
        fname: &String,
        is_special: bool,
        target: &String,
    ) -> (errors: Vec<CompileError>)
        ensures
            ({
                let cv = rows_view(cells@);
                let fields = if old(self)@.fields.len() == 0 {
                    header_fields(cv, width as nat, is_special)
                } else {
                    old(self)@.fields
                };
                &&& final(self)@.fields == fields
                &&& final(self)@.rows == old(self)@.rows + data_rows(
                    cv,
                    fields,
                    if is_special {
                        1int
                    } else {
                        5int
                    },
                )
                &&& errors@.map_values(|e: CompileError| e.expr@) == if old(self)@.fields.len()
                    == 0 {
                    header_errors(cv, width as nat, is_special)
                } else {
                    Seq::empty()
                }
                &&& forall|i: int| 0 <= i < errors@.len() ==> (#[trigger] errors@[i]).context@ == fname@
            }),
    {
        let ghost cv = rows_view(cells@);
        let mut errors: Vec<CompileError> = Vec::new();
        if self.fields.len() == 0 {
            let mut c: usize = 0;
            let mut field_index: usize = 0;
            proof {
                assert(self@.fields =~= header_fields(cv, 0, is_special));
                assert(errors@.map_values(|e: CompileError| e.expr@) =~= header_errors(cv, 0, is_special));
            }
            while c < width
                invariant
                    c <= width,
                    cv == rows_view(cells@),
                    self@.fields == header_fields(cv, c as nat, is_special),
                    self@.rows == old(self)@.rows,
                    field_index == self@.fields.len(),
                    field_index <= c,
                    errors@.map_values(|e: CompileError| e.expr@) == header_errors(cv, c as nat, is_special),
                    forall|i: int| 0 <= i < errors@.len() ==> (#[trigger] errors@[i]).context@ == fname@,
                decreases width - c,
            {
                let (mut f, err) = read_header_field(cells, c, fname, is_special);
                let ghost before = errors@;
                match err {
                    Some(e) => {
                        errors.push(e);
                    },
                    None => {},
                }
                proof {
                    assert(errors@.map_values(|e: CompileError| e.expr@) =~= header_errors(cv, (c + 1) as nat, is_special)) by {
                        if header_error_at(cv, c as int, is_special) {
                            assert(errors@ == before.push(err->0));
                            assert(errors@.map_values(|e: CompileError| e.expr@) =~= before.map_values(|e: CompileError| e.expr@).push(err->0.expr@));
                        } else {
                            assert(errors@ == before);
                        }
                    }
                }
                f.set_field_index(field_index);
                if !f.is_invalid_field() && !f.is_remark_field(target) {
                    self.add_field(f);
                    field_index = field_index + 1;
                }
                c = c + 1;
            }
        }
        let ghost fields = self@.fields;
        let start: usize = if is_special {
            1
        } else {
            5
        };
        let ghost rows0 = self@.rows;
        let ghost all_rows = data_rows(cv, fields, start as int);
        let mut i: usize = start;
        proof {
            assert(rows0 + all_rows.take(0) =~= rows0);
        }
        while i < cells.len()
            invariant
                cv == rows_view(cells@),
                start <= i,
                i <= cells@.len() || i == start,
                self@.fields == fields,
                all_rows == data_rows(cv, fields, start as int),
                self@.rows == rows0 + all_rows.take(i - start),
            decreases cells.len() - i,
        {
            let mut row_data: Vec<String> = Vec::new();
            let mut j: usize = 0;
            let ghost target_row = data_row(cv, fields, i as int);
            proof {
                assert(row_data@.map_values(|s: String| s@) =~= target_row.take(0));
            }
            while j < self.fields.len()
                invariant
                    j <= self.fields@.len(),
                    self@.fields == fields,
                    fields.len() == self.fields@.len(),
                    cv == rows_view(cells@),
                    target_row == data_row(cv, fields, i as int),
                    row_data@.map_values(|s: String| s@) == target_row.take(j as int),
                    row_data@.len() == j,
                    target_row.len() == fields.len(),
                decreases self.fields.len() - j,
            {
                let ri = self.fields[j].row_index;
                assert(fields[j as int].row_index == ri as nat);
                let ghost before = row_data@;
                let v = match cell(cells, i, ri) {
                    Some(v) => v.clone(),
                    None => String::new(),
                };
                assert(v@ == or_empty(cell_at(cv, i as int, ri as int)));
                row_data.push(v);
                proof {
                    assert(target_row[j as int] == or_empty(cell_at(cv, i as int, ri as int)));
                    assert(row_data@ == before.push(v));
                    assert forall|k: int| 0 <= k < j implies #[trigger] row_data@[k]@ == target_row[k] by {
                        assert(before.map_values(|s: String| s@)[k] == target_row.take(j as int)[k]);
                    }
                    assert(row_data@.map_values(|s: String| s@) =~= target_row.take(j + 1));
                }
                j = j + 1;
            }
            proof {
                assert(target_row.take(j as int) =~= target_row);
                assert(all_rows[i - start] == target_row);
                assert(all_rows.take(i - start + 1) =~= all_rows.take(i - start).push(target_row));
            }
            self.add_row(row_data);
            i = i + 1;
        }
        proof {
            assert(all_rows.take(i - start) =~= all_rows);
        }
        errors
    }

    /// The local pass over this table, named `name`: every field must accept
    /// its value in every row.
    pub fn check_local(&self, name: &String) -> (r: Result<(), ValidationError>)
        ensures
            match r {
                Ok(()) => sheet_locally_valid(self@),
                Err(e) => e.table@ == name@ && reports_local(self@, e),
            },
    {
        let mut i: usize = 0;
        while i < self.fields.len()
            invariant
                i <= self.fields@.len(),
                self@.fields.len() == self.fields@.len(),
                self@.rows.len() == self.values@.len(),
                forall|a: int, b: int|
                    0 <= a < i && 0 <= b < self@.rows.len() ==> #[trigger] cell_passes_locally(self@, a, b),
            decreases self.fields.len() - i,
        {
            let field = &self.fields[i];
            assert(self@.fields[i as int] == field@);
            let mut r: usize = 0;
            while r < self.values.len()
                invariant
                    i < self.fields@.len(),
                    r <= self.values@.len(),
                    self@.fields.len() == self.fields@.len(),
                    self@.rows.len() == self.values@.len(),
                    self@.fields[i as int] == field@,
                    forall|a: int, b: int|
                        0 <= a < i && 0 <= b < self@.rows.len() ==> #[trigger] cell_passes_locally(self@, a, b),
                    forall|b: int| 0 <= b < r ==> #[trigger] cell_passes_locally(self@, i as int, b),
                decreases self.values.len() - r,
            {
                let row = &self.values[r];
                assert(self@.rows[r as int] == row@.map_values(|x: String| x@));
                if i < row.len() {
                    if field.is_valid(&row[i]) {
                        r = r + 1;
                        continue;
                    }
                }
                let value = if i < row.len() {
                    Some(row[i].clone())
                } else {
                    None
                };
                let e = ValidationError {
                    table: name.clone(),
                    field: field.get_field_name().clone(),
                    value,
                    row: r,
                    condition: field.get_condition().clone(),
                };
                assert(!cell_passes_locally(self@, i as int, e.row as int));
                assert(e.field@ == self@.fields[i as int].name);
                assert(e.condition@ == self@.fields[i as int].condition);
                assert(i < row@.len() ==> self@.rows[r as int][i as int] == row@[i as int]@);
                assert(crate::checker::opt_text(e.value) == (if i < self@.rows[e.row as int].len() {
                    Some(self@.rows[e.row as int][i as int])
                } else {
                    None::<Seq<char>>
                }));
                assert(reports_local(self@, e));
                return Err(e);
            }
            i = i + 1;
        }
        Ok(())
    }

    /// The global pass over this table, named `name`.
    pub fn check_valid(&self, name: &String, all: &ALLXLSX) -> (r: Result<(), ValidationError>)
        ensures
            match r {
                Ok(()) => sheet_valid(self@, all@),
                Err(e) => e.table@ == name@ && reports(self@, e, all@),
            },
    {
        let mut i: usize = 0;
        while i < self.fields.len()
            invariant
                i <= self.fields@.len(),
                self@.fields.len() == self.fields@.len(),
                self@.rows.len() == self.values@.len(),
                forall|a: int, b: int|
                    0 <= a < i && 0 <= b < self@.rows.len() && set_needs(self@.fields[a].checks) ==> #[trigger] cell_passes(self@, a, b, all@),
            decreases self.fields.len() - i,
        {
            let field = &self.fields[i];
            assert(self@.fields[i as int] == field@);
            if field.need_full_load() {
                let mut r: usize = 0;
                while r < self.values.len()
                    invariant
                        i < self.fields@.len(),
                        r <= self.values@.len(),
                        self@.fields.len() == self.fields@.len(),
                        self@.rows.len() == self.values@.len(),
                        self@.fields[i as int] == field@,
                        set_needs(field@.checks),
                        forall|a: int, b: int|
                            0 <= a < i && 0 <= b < self@.rows.len() && set_needs(self@.fields[a].checks) ==> #[trigger] cell_passes(self@, a, b, all@),
                        forall|b: int| 0 <= b < r ==> #[trigger] cell_passes(self@, i as int, b, all@),
                    decreases self.values.len() - r,
                {
                    let row = &self.values[r];
                    assert(self@.rows[r as int] == row@.map_values(|x: String| x@));
                    if i < row.len() {
                        if field.is_valid_on_all_load(&row[i], all) {
                            r = r + 1;
                            continue;
                        }
                    }
                    let value = if i < row.len() {
                        Some(row[i].clone())
                    } else {
                        None
                    };
                    let e = ValidationError {
                        table: name.clone(),
                        field: field.get_field_name().clone(),
                        value,
                        row: r,
                        condition: field.get_condition().clone(),
                    };
                    assert(!cell_passes(self@, i as int, r as int, all@));
                    assert(e.field@ == self@.fields[i as int].name);
                    assert(e.condition@ == self@.fields[i as int].condition);
                    assert(i < row@.len() ==> self@.rows[r as int][i as int] == row@[i as int]@);
                    assert(!cell_passes(self@, i as int, e.row as int, all@));
                    assert(crate::checker::opt_text(e.value) == (if i < self@.rows[e.row as int].len() {
                        Some(self@.rows[e.row as int][i as int])
                    } else {
                        None::<Seq<char>>
                    }));
                    assert(reports(self@, e, all@));
                    return Err(e);
                }
            }
            i = i + 1;
        }
        Ok(())
    }

    /// Whether some row has, in column `i`, a value equal to `value` once
    /// both are trimmed.
    fn column_has(&self, i: usize, value: &String) -> (r: bool)
        ensures
            r == exists|k: int|
                0 <= k < self@.rows.len() && i < self@.rows[k].len() && #[trigger] trimmed(
                    self@.rows[k][i as int],
                ) == trimmed(value@),
    {
        let mut k: usize = 0;
        while k < self.values.len()
            invariant
                k <= self.values@.len(),
                self@.rows.len() == self.values@.len(),
                forall|j: int|
                    0 <= j < k ==> !(i < self@.rows[j].len() && #[trigger] trimmed(
                        self@.rows[j][i as int],
                    ) == trimmed(value@)),
            decreases self.values.len() - k,
        {
            let row = &self.values[k];
            assert(self@.rows[k as int] == row@.map_values(|s: String| s@));
            if i < row.len() {
                if eq_trimmed(row[i].as_str(), value.as_str()) {
                    assert(self@.rows[k as int][i as int] == row@[i as int]@);
                    assert(trimmed(self@.rows[k as int][i as int]) == trimmed(value@));
                    return true;
                }
            }
            k = k + 1;
        }
        false
    }

    /// Whether the table holds `value` under a field named `field`.
    fn has_value(&self, field: &String, value: &String) -> (r: bool)
        ensures
            r == table_has_value(table_of(self@), field@, value@),
    {
        let ghost t = table_of(self@);
        let mut i: usize = 0;
        while i < self.fields.len()
            invariant
                i <= self.fields@.len(),
                t == table_of(self@),
                t.fields.len() == self.fields@.len(),
                t.rows == self@.rows,
                forall|j: int, k: int|
                    0 <= j < i && t.fields[j] == field@ && 0 <= k < t.rows.len() ==> !(j
                        < t.rows[k].len() && #[trigger] trimmed(t.rows[k][j]) == trimmed(value@)),
            decreases self.fields.len() - i,
        {
            assert(t.fields[i as int] == self.fields@[i as int].field_name@);
            if self.fields[i].field_name == *field {
                if self.column_has(i, value) {
                    return true;
                }
            }
            i = i + 1;
        }
        false
    }
}

/// All loaded tables, each under its name; a name stands once.
pub struct ALLXLSX {
    all: Vec<(String, XLSX)>,
}

impl View for ALLXLSX {
    type V = Seq<(Seq<char>, TableView)>;

    closed spec fn view(&self) -> Seq<(Seq<char>, TableView)> {
        self.all@.map_values(|e: (String, XLSX)| (e.0@, table_of(e.1@)))
    }
}

/// The dataset after `add(name, t)`: the table under that name is replaced,
/// or, where the name is new, appended.
pub open spec fn with_sheet(
    s: Seq<(Seq<char>, SheetView)>,
    name: Seq<char>,
    t: SheetView,
) -> Seq<(Seq<char>, SheetView)> {
    if exists|k: int| 0 <= k < s.len() && #[trigger] s[k].0 == name {
        s.update(choose|k: int| 0 <= k < s.len() && #[trigger] s[k].0 == name, (name, t))
    } else {
        s.push((name, t))
    }
}

/// Every name stands once.
pub open spec fn names_unique(s: Seq<(Seq<char>, SheetView)>) -> bool {
    forall|a: int, b: int| 0 <= a < s.len() && 0 <= b < s.len() && #[trigger] s[a].0 == #[trigger] s[b].0 ==> a == b
}

/// A value that fails the global pass: in which table, under which field,
/// in which row (counted from zero among the data rows), and the field's
/// constraint text.
#[derive(Debug)]
pub struct ValidationError {
    pub table: String,
    pub field: String,
    pub value: Option<String>,
    pub row: usize,
    pub condition: String,
}

/// Every field whose checks need the dataset accepts, in the global pass,
/// its value in every row of table `k`.
pub open spec fn sheet_valid(s: SheetView, ds: Seq<(Seq<char>, TableView)>) -> bool {
    forall|i: int, r: int|
        0 <= i < s.fields.len() && 0 <= r < s.rows.len() && set_needs(s.fields[i].checks) ==> cell_passes(s, i, r, ds)
}

/// Every field accepts, in the local pass, its value in every row.
pub open spec fn sheet_locally_valid(s: SheetView) -> bool {
    forall|i: int, r: int|
        0 <= i < s.fields.len() && 0 <= r < s.rows.len() ==> cell_passes_locally(s, i, r)
}

pub open spec fn cell_passes_locally(s: SheetView, i: int, r: int) -> bool {
    i < s.rows[r].len() && set_test(s.fields[i].checks, s.rows[r][i])
}

/// `e` names a value of `s` that fails the local pass.
pub open spec fn reports_local(s: SheetView, e: ValidationError) -> bool {
    exists|i: int|
        0 <= i < s.fields.len() && 0 <= e.row < s.rows.len()
            && !#[trigger] cell_passes_locally(s, i, e.row as int) && e.field@ == s.fields[i].name
            && e.condition@ == s.fields[i].condition && crate::checker::opt_text(e.value) == (if i
            < s.rows[e.row as int].len() {
            Some(s.rows[e.row as int][i])
        } else {
            None::<Seq<char>>
        })
}

/// `e` names a failing value of `s`.
pub open spec fn reports(s: SheetView, e: ValidationError, ds: Seq<(Seq<char>, TableView)>) -> bool {
    exists|i: int|
        0 <= i < s.fields.len() && 0 <= e.row < s.rows.len() && set_needs(s.fields[i].checks)
            && !#[trigger] cell_passes(s, i, e.row as int, ds) && e.field@ == s.fields[i].name
            && e.condition@ == s.fields[i].condition && crate::checker::opt_text(e.value) == (if i
            < s.rows[e.row as int].len() {
            Some(s.rows[e.row as int][i])
        } else {
            None::<Seq<char>>
        })
}

pub open spec fn cell_passes(s: SheetView, i: int, r: int, ds: Seq<(Seq<char>, TableView)>) -> bool {
    i < s.rows[r].len() && set_global(s.fields[i].checks, s.rows[r][i], ds)
}

impl ALLXLSX {
    #[verifier::type_invariant]
    spec fn inv(&self) -> bool {
        names_unique(self.all@.map_values(|e: (String, XLSX)| (e.0@, e.1@)))
    }

    pub fn new() -> (r: ALLXLSX)
        ensures
            r.sheets().len() == 0,
    {
        let r = ALLXLSX { all: Vec::new() };
        assert(r.all@.map_values(|e: (String, XLSX)| (e.0@, e.1@)) =~= Seq::empty());
        r
    }

    /// The tables with their names, in the order they were added.
    pub closed spec fn sheets(&self) -> Seq<(Seq<char>, SheetView)> {
        self.all@.map_values(|e: (String, XLSX)| (e.0@, e.1@))
    }

    /// Adds a table under a name, replacing the table that had that name.
    pub fn add(&mut self, name: &str, file: XLSX)
        ensures
            final(self).sheets() == with_sheet(old(self).sheets(), name@, file@),
    {
        proof {
            use_type_invariant(&*self);
        }
        let ghost s = self.sheets();
        let ghost t = file@;
        let mut taken = ALLXLSX::new();
        std::mem::swap(self, &mut taken);
        let mut all = taken.all;
        assert(all@.map_values(|e: (String, XLSX)| (e.0@, e.1@)) == s);
        let mut k: usize = 0;
        while k < all.len()
            invariant
                k <= all@.len(),
                s == all@.map_values(|e: (String, XLSX)| (e.0@, e.1@)),
                s == old(self).sheets(),
                names_unique(s),
                t == file@,
                s.len() == all@.len(),
                forall|j: int| 0 <= j < k ==> #[trigger] s[j].0 != name@,
            decreases all.len() - k,
        {
            assert(s[k as int].0 == all@[k as int].0@);
            if same_text(all[k].0.as_str(), name) {
                let key = String::from_str(name);
                let entry = (key, file);
                let ghost ge = entry;
                let ghost before = all@;
                all.set(k, entry);
                let ghost ns = all@.map_values(|e: (String, XLSX)| (e.0@, e.1@));
                proof {
                    assert(all@ == before.update(k as int, ge));
                    assert(ge.0@ == name@ && ge.1@ == t);
                    assert(s[k as int].0 == name@);
                    let c = choose|c: int| 0 <= c < s.len() && #[trigger] s[c].0 == name@;
                    assert(c == k);
                    assert(ns =~= s.update(k as int, (name@, t)));
                    assert(names_unique(ns)) by {
                        assert forall|a: int, b: int|
                            0 <= a < ns.len() && 0 <= b < ns.len() && #[trigger] ns[a].0
                                == #[trigger] ns[b].0 implies a == b by {
                            assert(ns[a].0 == s[a].0);
                            assert(ns[b].0 == s[b].0);
                        }
                    }
                }
                assert(with_sheet(s, name@, t) == ns);
                *self = ALLXLSX { all };
                assert(self.sheets() =~= ns);
                return;
            }
            k = k + 1;
        }
        let key = String::from_str(name);
        let entry = (key, file);
        let ghost ge = entry;
        all.push(entry);
        proof {
            assert(ge.0@ == name@ && ge.1@ == t);
            assert(all@.map_values(|e: (String, XLSX)| (e.0@, e.1@)) =~= s.push((name@, t)));
        }
        *self = ALLXLSX { all };
        assert(self.sheets() =~= s.push((name@, t)));
    }

    /// The local pass over every table. It needs no other table, and runs
    /// as each table is loaded or once all are.
    pub fn check_local(&self) -> (r: Result<(), ValidationError>)
        ensures
            match r {
                Ok(()) => forall|k: int| 0 <= k < self.sheets().len() ==> #[trigger] sheet_locally_valid(self.sheets()[k].1),
                Err(e) => exists|k: int| 0 <= k < self.sheets().len() && self.sheets()[k].0 == e.table@ && #[trigger] reports_local(self.sheets()[k].1, e),
            },
    {
        let mut k: usize = 0;
        while k < self.all.len()
            invariant
                k <= self.all@.len(),
                self.sheets().len() == self.all@.len(),
                forall|j: int| 0 <= j < k ==> #[trigger] sheet_locally_valid(self.sheets()[j].1),
            decreases self.all.len() - k,
        {
            let entry = &self.all[k];
            assert(self.sheets()[k as int] == (entry.0@, entry.1@));
            match entry.1.check_local(&entry.0) {
                Ok(()) => {},
                Err(e) => {
                    assert(reports_local(self.sheets()[k as int].1, e));
                    return Err(e);
                },
            }
            k = k + 1;
        }
        Ok(())
    }

    /// The global pass over every table: each field whose checks need the
    /// dataset must accept its value in every row. The error names a value
    /// that fails.
    pub fn check_xlsx_valid(&self) -> (r: Result<(), ValidationError>)
        ensures
            match r {
                Ok(()) => forall|k: int| 0 <= k < self.sheets().len() ==> #[trigger] sheet_valid(self.sheets()[k].1, self@),
                Err(e) => exists|k: int| 0 <= k < self.sheets().len() && self.sheets()[k].0 == e.table@ && #[trigger] reports(self.sheets()[k].1, e, self@),
            },
    {
        let mut k: usize = 0;
        while k < self.all.len()
            invariant
                k <= self.all@.len(),
                self.sheets().len() == self.all@.len(),
                forall|j: int| 0 <= j < k ==> #[trigger] sheet_valid(self.sheets()[j].1, self@),
            decreases self.all.len() - k,
        {
            let entry = &self.all[k];
            assert(self.sheets()[k as int] == (entry.0@, entry.1@));
            match entry.1.check_valid(&entry.0, self) {
                Ok(()) => {},
                Err(e) => {
                    assert(reports(self.sheets()[k as int].1, e, self@));
                    return Err(e);
                },
            }
            k = k + 1;
        }
        Ok(())
    }

    /// Whether the table named `file` holds `value` under the field named `field`.
    pub fn has_field(&self, file: &String, field: &String, value: &String) -> (r: bool)
        ensures
            r == dataset_has_value(self@, file@, field@, value@),
    {
        let mut k: usize = 0;
        while k < self.all.len()
            invariant
                k <= self.all@.len(),
                self@.len() == self.all@.len(),
                forall|j: int|
                    0 <= j < k ==> !(self@[j].0 == file@ && #[trigger] table_has_value(
                        self@[j].1,
                        field@,
                        value@,
                    )),
            decreases self.all.len() - k,
        {
            let entry = &self.all[k];
            if entry.0 == *file {
                if entry.1.has_value(field, value) {
                    assert(self@[k as int] == (entry.0@, table_of(entry.1@)));
                    assert(table_has_value(self@[k as int].1, field@, value@));
                    return true;
                }
            }
            k = k + 1;
        }
        false
    }
}

} // verus!
