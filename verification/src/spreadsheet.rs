use vstd::prelude::*;

use crate::cell_value::CellValue;
use crate::formula::RewriteEdit;
use crate::formula::insert_edit;
use crate::formula::remove_edit;
use crate::formula::rewrite_from;
use crate::relationships::Relationship;
use crate::shared_string_table::SharedStringTable;
use crate::shared_string_table::wf;
use crate::worksheet::Cell;
use crate::worksheet::Sheet;
use crate::worksheet::SheetBody;
use crate::worksheet::Worksheet;

verus! {

// ---------------------------------------------------------------------------
// The workbook aggregate: the ordered sheets, the shared once-per-workbook
// resources (theme, stylesheet, shared string table), and the resolved root
// relationship table. Shared resources are owned here and passed by
// reference into each materialization; the single owning context is the one
// writer, so exclusive mutation is enforced by ownership.
// ---------------------------------------------------------------------------

/// The theme part, carried as raw text: its internals are per-element
/// field-mapping outside this core.
pub struct Theme {
    pub raw: Option<String>,
}

/// The styles part, carried as raw text: its internals are per-element
/// field-mapping outside this core.
pub struct Stylesheet {
    pub raw: Option<String>,
}

/// The workbook: root aggregate of the container model.
pub struct Spreadsheet {
    pub sheets: Vec<Sheet>,
    pub theme: Theme,
    pub stylesheet: Stylesheet,
    pub shared_string_table: SharedStringTable,
    pub workbook_relationships: Vec<Relationship>,
}

/// How one structural edit rewrites one sheet's cells: every formula is
/// rewritten for the edit, with the sheet's own name deciding whether
/// unqualified references apply; everything else about the cell is kept.
/// How one structural edit rewrites one cell: the formula (if any) is
/// rewritten for the edit and everything else is kept.
pub open spec fn rewritten_cell(
    o: Cell,
    n: Cell,
    e: RewriteEdit,
    sheet: Seq<char>,
    self_sheet: Seq<char>,
) -> bool {
    n@.coord == o@.coord && n@.value == o@.value && n@.raw == o@.raw && n@.rich == o@.rich && (
    match o@.formula {
        Some(f) => n@.formula == Some(rewrite_from(f, 0, e, sheet, self_sheet)),
        None => n@.formula is None,
    })
}

pub open spec fn cells_rewritten(
    oldc: Seq<Cell>,
    newc: Seq<Cell>,
    e: RewriteEdit,
    sheet: Seq<char>,
    self_sheet: Seq<char>,
) -> bool {
    newc.len() == oldc.len() && forall|j: int|
        0 <= j < oldc.len() ==> rewritten_cell(#[trigger] oldc[j], newc[j], e, sheet, self_sheet)
}

/// How one structural edit acts on one sheet: a materialized sheet has its
/// cells rewritten, an unmaterialized or missing body is left alone.
pub open spec fn sheet_rewritten(olds: Sheet, news: Sheet, e: RewriteEdit, sheet: Seq<char>) -> bool {
    news.name@ == olds.name@ && news.r_id@ == olds.r_id@ && news.sheet_state@ == olds.sheet_state@
        && (match olds.body {
        Some(SheetBody::Ready(w)) => news.body matches Some(SheetBody::Ready(w2))
            && w2.drawing_raw == w.drawing_raw && w2.comments_raw == w.comments_raw
            && w2.vml_raw == w.vml_raw && cells_rewritten(w.cells@, w2.cells@, e, sheet, olds.name@),
        _ => news.body == olds.body,
    })
}

impl Spreadsheet {
    pub fn new() -> (r: Spreadsheet)
        ensures
            r.sheets@.len() == 0,
            wf(r.shared_string_table),
            r.shared_string_table.shared_string_item@.len() == 0,
            r.shared_string_table.regist_count == 0,
            r.workbook_relationships@.len() == 0,
            r.theme.raw is None,
            r.stylesheet.raw is None,
    {
        Spreadsheet {
            sheets: Vec::new(),
            theme: Theme { raw: None },
            stylesheet: Stylesheet { raw: None },
            shared_string_table: SharedStringTable::new(),
            workbook_relationships: Vec::new(),
        }
    }

    pub fn get_sheet_collection(&self) -> (r: &Vec<Sheet>)
        ensures
            r == self.sheets,
    {
        &self.sheets
    }

    pub fn sheet_count(&self) -> (r: usize)
        ensures
            r == self.sheets@.len(),
    {
        self.sheets.len()
    }

    pub fn get_sheet(&self, index: usize) -> (r: Option<&Sheet>)
        ensures
            match r {
                Some(s) => index < self.sheets@.len() && s == self.sheets@[index as int],
                None => index >= self.sheets@.len(),
            },
    {
        if index < self.sheets.len() {
            Some(&self.sheets[index])
        } else {
            None
        }
    }

    /// Add a fresh, already-materialized empty sheet.
    pub fn add_empty_sheet(&mut self, name: &str)
        ensures
            final(self).sheets@.len() == old(self).sheets@.len() + 1,
            forall|k: int|
                0 <= k < old(self).sheets@.len() ==> final(self).sheets@[k]
                    == old(self).sheets@[k],
            ({
                let s = final(self).sheets@.last();
                s.name@ == name@ && (s.body matches Some(SheetBody::Ready(w)) && w.cells@.len()
                    == 0)
            }),
            final(self).shared_string_table == old(self).shared_string_table,
            final(self).theme == old(self).theme,
            final(self).stylesheet == old(self).stylesheet,
            final(self).workbook_relationships == old(self).workbook_relationships,
    {
        let sheet = Sheet {
            name: name.to_owned(),
            r_id: String::new(),
            sheet_state: String::new(),
            body: Some(
                SheetBody::Ready(
                    Worksheet {
                        cells: Vec::new(),
                        drawing_raw: None,
                        comments_raw: None,
                        vml_raw: None,
                    },
                ),
            ),
        };
        self.sheets.push(sheet);
    }

    /// Put a cell into a materialized sheet, appending it to the sheet's
    /// cell list.
    pub fn push_cell(&mut self, sheet_index: usize, cell: Cell) -> (r: Result<(), crate::XlsxError>)
        ensures
            final(self).shared_string_table == old(self).shared_string_table,
            final(self).theme == old(self).theme,
            final(self).stylesheet == old(self).stylesheet,
            final(self).workbook_relationships == old(self).workbook_relationships,
            final(self).sheets@.len() == old(self).sheets@.len(),
            match r {
                Ok(_) => {
                    &&& sheet_index < old(self).sheets@.len()
                    &&& (old(self).sheets@[sheet_index as int].body matches Some(
                        SheetBody::Ready(w),
                    ) && (final(self).sheets@[sheet_index as int].body matches Some(
                        SheetBody::Ready(w2),
                    ) && w2.cells@ == w.cells@.push(cell)))
                    &&& forall|k: int|
                        0 <= k < old(self).sheets@.len() && k != sheet_index
                            ==> final(self).sheets@[k] == old(self).sheets@[k]
                },
                Err(e) => {
                    &&& e == crate::XlsxError::Format
                    &&& final(self).sheets@ == old(self).sheets@
                    &&& (sheet_index >= old(self).sheets@.len()
                        || !(old(self).sheets@[sheet_index as int].body matches Some(
                        SheetBody::Ready(_),
                    )))
                },
            },
    {
        if sheet_index >= self.sheets.len() {
            return Err(crate::XlsxError::Format);
        }
        let sheet = &mut self.sheets[sheet_index];
        match &mut sheet.body {
            Some(SheetBody::Ready(w)) => {
                w.cells.push(cell);
                Ok(())
            },
            _ => Err(crate::XlsxError::Format),
        }
    }

    /// Insert rows on the named sheet: every formula in the workbook is
    /// rewritten for the edit, on every materialized sheet.
    pub fn insert_new_row(&mut self, sheet_name: &str, row_index: &u32, num_rows: &u32)
        ensures
            final(self).shared_string_table == old(self).shared_string_table,
            final(self).theme == old(self).theme,
            final(self).stylesheet == old(self).stylesheet,
            final(self).workbook_relationships == old(self).workbook_relationships,
            final(self).sheets@.len() == old(self).sheets@.len(),
            forall|k: int|
                0 <= k < old(self).sheets@.len() ==> sheet_rewritten(
                    #[trigger] old(self).sheets@[k],
                    final(self).sheets@[k],
                    insert_edit(0, 0, *row_index, *num_rows),
                    sheet_name@,
                ),
    {
        self.adjust_all(sheet_name, true, 0, 0, *row_index, *num_rows);
    }

    /// Remove rows on the named sheet: references into the removed band are
    /// invalidated, later ones shifted back, workbook-wide.
    pub fn remove_row(&mut self, sheet_name: &str, row_index: &u32, num_rows: &u32)
        ensures
            final(self).shared_string_table == old(self).shared_string_table,
            final(self).theme == old(self).theme,
            final(self).stylesheet == old(self).stylesheet,
            final(self).workbook_relationships == old(self).workbook_relationships,
            final(self).sheets@.len() == old(self).sheets@.len(),
            forall|k: int|
                0 <= k < old(self).sheets@.len() ==> sheet_rewritten(
                    #[trigger] old(self).sheets@[k],
                    final(self).sheets@[k],
                    remove_edit(0, 0, *row_index, *num_rows),
                    sheet_name@,
                ),
    {
        self.adjust_all(sheet_name, false, 0, 0, *row_index, *num_rows);
    }

    /// Insert columns on the named sheet, workbook-wide.
    pub fn insert_new_column(&mut self, sheet_name: &str, column_index: &u32, num_columns: &u32)
        ensures
            final(self).shared_string_table == old(self).shared_string_table,
            final(self).theme == old(self).theme,
            final(self).stylesheet == old(self).stylesheet,
            final(self).workbook_relationships == old(self).workbook_relationships,
            final(self).sheets@.len() == old(self).sheets@.len(),
            forall|k: int|
                0 <= k < old(self).sheets@.len() ==> sheet_rewritten(
                    #[trigger] old(self).sheets@[k],
                    final(self).sheets@[k],
                    insert_edit(*column_index, *num_columns, 0, 0),
                    sheet_name@,
                ),
    {
        self.adjust_all(sheet_name, true, *column_index, *num_columns, 0, 0);
    }

    /// Remove columns on the named sheet, workbook-wide.
    pub fn remove_column(&mut self, sheet_name: &str, column_index: &u32, num_columns: &u32)
        ensures
            final(self).shared_string_table == old(self).shared_string_table,
            final(self).theme == old(self).theme,
            final(self).stylesheet == old(self).stylesheet,
            final(self).workbook_relationships == old(self).workbook_relationships,
            final(self).sheets@.len() == old(self).sheets@.len(),
            forall|k: int|
                0 <= k < old(self).sheets@.len() ==> sheet_rewritten(
                    #[trigger] old(self).sheets@[k],
                    final(self).sheets@[k],
                    remove_edit(*column_index, *num_columns, 0, 0),
                    sheet_name@,
                ),
    {
        self.adjust_all(sheet_name, false, *column_index, *num_columns, 0, 0);
    }

    /// One structural edit applied to every materialized sheet.
    fn adjust_all(&mut self, sheet_name: &str, insert: bool, root_col: u32, off_col: u32, root_row: u32, off_row: u32)
        ensures
            final(self).shared_string_table == old(self).shared_string_table,
            final(self).theme == old(self).theme,
            final(self).stylesheet == old(self).stylesheet,
            final(self).workbook_relationships == old(self).workbook_relationships,
            final(self).sheets@.len() == old(self).sheets@.len(),
            forall|k: int|
                0 <= k < old(self).sheets@.len() ==> sheet_rewritten(
                    #[trigger] old(self).sheets@[k],
                    final(self).sheets@[k],
                    RewriteEdit { root_col, off_col, root_row, off_row, insert },
                    sheet_name@,
                ),
    {
        let ghost e = RewriteEdit { root_col, off_col, root_row, off_row, insert };
        let n = self.sheets.len();
        let mut k: usize = 0;
        while k < n
            invariant
                e == (RewriteEdit { root_col, off_col, root_row, off_row, insert }),
                k <= n,
                n == self.sheets@.len(),
                self.sheets@.len() == old(self).sheets@.len(),
                self.shared_string_table == old(self).shared_string_table,
                self.theme == old(self).theme,
                self.stylesheet == old(self).stylesheet,
                self.workbook_relationships == old(self).workbook_relationships,
                forall|j: int|
                    0 <= j < k ==> sheet_rewritten(
                        #[trigger] old(self).sheets@[j],
                        self.sheets@[j],
                        e,
                        sheet_name@,
                    ),
                forall|j: int| k <= j < n ==> self.sheets@[j] == old(self).sheets@[j],
            decreases n - k,
        {
            let ghost pre = self.sheets@;
            let mut sheet = self.sheets.remove(k);
            let ghost olds = sheet;
            let self_name = sheet.name.clone();
            let body = sheet.body;
            let newbody: Option<SheetBody> = match body {
                Some(SheetBody::Ready(mut w)) => {
                    let ghost ow = w;
                    let m = w.cells.len();
                    let mut j: usize = 0;
                    while j < m
                        invariant
                            e == (RewriteEdit { root_col, off_col, root_row, off_row, insert }),
                            j <= m,
                            m == w.cells@.len(),
                            w.cells@.len() == ow.cells@.len(),
                            w.drawing_raw == ow.drawing_raw,
                            w.comments_raw == ow.comments_raw,
                            w.vml_raw == ow.vml_raw,
                            self_name@ == olds.name@,
                            forall|t: int|
                                0 <= t < j ==> rewritten_cell(
                                    #[trigger] ow.cells@[t],
                                    w.cells@[t],
                                    e,
                                    sheet_name@,
                                    olds.name@,
                                ),
                            forall|t: int| j <= t < m ==> w.cells@[t] == ow.cells@[t],
                        decreases m - j,
                    {
                        let cell = &mut w.cells[j];
                        if insert {
                            cell.cell_value.adjustment_insert_formula_coordinate(
                                self_name.as_str(),
                                sheet_name,
                                &root_col,
                                &off_col,
                                &root_row,
                                &off_row,
                            );
                        } else {
                            cell.cell_value.adjustment_remove_formula_coordinate(
                                self_name.as_str(),
                                sheet_name,
                                &root_col,
                                &off_col,
                                &root_row,
                                &off_row,
                            );
                        }
                        proof {
                            if insert {
                                assert(e == insert_edit(root_col, off_col, root_row, off_row));
                            } else {
                                assert(e == remove_edit(root_col, off_col, root_row, off_row));
                            }
                            assert(rewritten_cell(
                                ow.cells@[j as int],
                                w.cells@[j as int],
                                e,
                                sheet_name@,
                                olds.name@,
                            ));
                        }
                        j += 1;
                    }
                    Some(SheetBody::Ready(w))
                },
                other => other,
            };
            sheet.body = newbody;
            proof {
                assert(sheet_rewritten(olds, sheet, e, sheet_name@));
            }
            self.sheets.insert(k, sheet);
            proof {
                assert(self.sheets@ =~= pre.update(k as int, sheet));
                assert(self.sheets@[k as int] == sheet);
                assert forall|j: int| 0 <= j < k + 1 implies sheet_rewritten(
                    #[trigger] old(self).sheets@[j],
                    self.sheets@[j],
                    e,
                    sheet_name@,
                ) by {
                    if j < k {
                        assert(self.sheets@[j] == pre[j]);
                    } else {
                        assert(olds == pre[k as int]);
                        assert(pre[k as int] == old(self).sheets@[k as int]);
                    }
                }
                assert forall|j: int| k + 1 <= j < n implies self.sheets@[j] == old(
                    self,
                ).sheets@[j] by {
                    assert(self.sheets@[j] == pre[j]);
                }
            }
            k += 1;
        }
    }
}

} // verus!
