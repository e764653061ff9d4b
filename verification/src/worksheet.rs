use vstd::prelude::*;

use crate::XlsxError;
use crate::cell_value::CellValue;
use crate::cell_value::Value;
use crate::cell_value::ValueModel;
use crate::formula::next_pos;
use crate::relationships::Relationship;
use crate::rich_text::RichText;
use crate::rich_text::runs_view;
use crate::shared_string_table::SharedStringItem;
use crate::shared_string_table::SsiModel;
use crate::util::chars_vec;
use crate::util::string_from_chars;
use crate::xml::XmlTok;
use crate::xml::attr_val;
use crate::xml::next_tok;
use crate::xml::scan_tok;
use crate::xml::unescape;

verus! {

// ---------------------------------------------------------------------------
// The worksheet model and its materialization from a raw body.
//
// A sheet's raw body is parsed into the cell model on first materialization,
// consulting the shared string table for `t="s"` cells. Row grouping and
// style bookkeeping are collaborator concerns: a cell is its coordinate and
// its value. A body that ends before the closing `sheetData` element is a
// markup fault, never a hang.
// ---------------------------------------------------------------------------

/// One cell: its `A1`-style coordinate and its value.
pub struct Cell {
    pub coordinate: String,
    pub cell_value: CellValue,
}

/// The mathematical model of a cell.
pub struct CellModel {
    pub coord: Seq<char>,
    pub value: Option<ValueModel>,
    pub raw: Option<Seq<char>>,
    pub rich: Option<Seq<Seq<char>>>,
    pub formula: Option<Seq<char>>,
}

impl View for Cell {
    type V = CellModel;

    open spec fn view(&self) -> CellModel {
        CellModel {
            coord: self.coordinate@,
            value: match self.cell_value.value {
                Some(v) => Some(v@),
                None => None,
            },
            raw: match self.cell_value.raw_value {
                Some(rv) => Some(rv@),
                None => None,
            },
            rich: match self.cell_value.rich_text {
                Some(rt) => Some(runs_view(rt)),
                None => None,
            },
            formula: match self.cell_value.formula {
                Some(f) => Some(f@),
                None => None,
            },
        }
    }
}

pub open spec fn cells_view(cells: Seq<Cell>) -> Seq<CellModel> {
    cells.map_values(|c: Cell| c@)
}

/// The queryable worksheet model: the parsed cells, plus the raw text of the
/// collaborator parts the sheet's own relationships linked (drawing/chart,
/// comments, legacy vector markup) — empty when the relationship is absent.
pub struct Worksheet {
    pub cells: Vec<Cell>,
    pub drawing_raw: Option<String>,
    pub comments_raw: Option<String>,
    pub vml_raw: Option<String>,
}

/// The unparsed sheet kept until materialization: the body text, the sheet's
/// own relationship table, and the raw text of referenced auxiliary parts,
/// keyed by target path.
pub struct RawWorksheet {
    pub body: String,
    pub worksheet_relationships: Option<Vec<Relationship>>,
    pub aux_parts: Vec<(String, String)>,
}

/// A sheet's body is in exactly one state: still raw, or materialized.
pub enum SheetBody {
    Raw(RawWorksheet),
    Ready(Worksheet),
}

/// One sheet entry of the workbook skeleton: its display name, its
/// relationship id, its visibility state, and its body — `None` only when
/// the sheet's relationship id matched nothing, so no raw body was linked.
pub struct Sheet {
    pub name: String,
    pub r_id: String,
    pub sheet_state: String,
    pub body: Option<SheetBody>,
}

impl Sheet {
    pub fn get_name(&self) -> (r: &str)
        ensures
            r@ == self.name@,
    {
        self.name.as_str()
    }

    pub fn get_r_id(&self) -> (r: &str)
        ensures
            r@ == self.r_id@,
    {
        self.r_id.as_str()
    }

    /// Whether the sheet has been materialized.
    pub fn is_serialized(&self) -> (r: bool)
        ensures
            r == (self.body matches Some(SheetBody::Ready(_))),
    {
        match &self.body {
            Some(SheetBody::Ready(_)) => true,
            _ => false,
        }
    }
}

// ---------------------------------------------------------------------------
// Parsing the sheet body into cells
// ---------------------------------------------------------------------------

/// The parser's in-progress cell: its attributes and collected child text.
/// `sub` tracks which child element text belongs to: 1 in a formula, 2 in a
/// value, 3 in inline text, 4 in the text node of inline text.
pub struct CurCell {
    pub coord: Seq<char>,
    pub typ: Seq<char>,
    pub formula: Option<Seq<char>>,
    pub vtext: Option<Seq<char>>,
    pub itext: Option<Seq<char>>,
    pub sub: int,
}

pub open spec fn attr_or_empty(s: Seq<char>, b: int, g: int, name: Seq<char>) -> Seq<char> {
    match attr_val(s, b, g, name) {
        Some(p) => unescape(s.subrange(p.0, p.1)),
        None => Seq::empty(),
    }
}

/// The cell a finished parse state denotes, resolving a shared-string index
/// against the table; a malformed or out-of-range index is a fault.
pub open spec fn build_cell(cur: CurCell, sst: Seq<SsiModel>) -> Option<CellModel> {
    if cur.typ == "s"@ {
        match cur.vtext {
            Some(t) => {
                if 1 <= t.len() <= 7 && (forall|j: int|
                    0 <= j < t.len() ==> crate::cell_value::is_ascii_digit(#[trigger] t[j])) {
                    let idx = crate::formula::digits_val(t);
                    if idx < sst.len() {
                        Some(
                            CellModel {
                                coord: cur.coord,
                                value: match sst[idx].text {
                                    Some(x) => Some(ValueModel::VString(x)),
                                    None => None,
                                },
                                raw: None,
                                rich: sst[idx].rich,
                                formula: cur.formula,
                            },
                        )
                    } else {
                        None
                    }
                } else {
                    None
                }
            },
            None => Some(
                CellModel {
                    coord: cur.coord,
                    value: None,
                    raw: None,
                    rich: None,
                    formula: cur.formula,
                },
            ),
        }
    } else if cur.typ == "inlineStr"@ {
        Some(
            CellModel {
                coord: cur.coord,
                value: Some(
                    ValueModel::VString(
                        match cur.itext {
                            Some(t) => t,
                            None => Seq::empty(),
                        },
                    ),
                ),
                raw: None,
                rich: None,
                formula: cur.formula,
            },
        )
    } else {
        Some(
            CellModel {
                coord: cur.coord,
                value: None,
                raw: cur.vtext,
                rich: None,
                formula: cur.formula,
            },
        )
    }
}

/// A fresh parse state for a `c` tag with attribute span `[b, g)`.
pub open spec fn fresh_cur(s: Seq<char>, b: int, g: int) -> CurCell {
    CurCell {
        coord: attr_or_empty(s, b, g, "r"@),
        typ: attr_or_empty(s, b, g, "t"@),
        formula: None,
        vtext: None,
        itext: None,
        sub: 0,
    }
}

/// Parse cells from position `i`. Row grouping and unknown elements are
/// skipped; the closing (or self-closing) `sheetData` element ends the scan;
/// an end of input before it is a fault.
pub open spec fn parse_cells_from(
    s: Seq<char>,
    i: int,
    sst: Seq<SsiModel>,
    cur: Option<CurCell>,
    acc: Seq<CellModel>,
) -> Option<Seq<CellModel>>
    decreases s.len() - i,
{
    if i < 0 || i >= s.len() {
        None
    } else {
        let n = s.len() as int;
        match scan_tok(s, i) {
            XmlTok::Eof => None,
            XmlTok::Bad => None,
            XmlTok::Decl(e) => parse_cells_from(s, next_pos(i, e as int, n), sst, cur, acc),
            XmlTok::Text(a, b) => {
                let t = unescape(s.subrange(a as int, b as int));
                let cur2 = match cur {
                    Some(c) => Some(
                        if c.sub == 1 {
                            CurCell { formula: Some(t), ..c }
                        } else if c.sub == 2 {
                            CurCell { vtext: Some(t), ..c }
                        } else if c.sub == 4 {
                            CurCell { itext: Some(t), ..c }
                        } else {
                            c
                        },
                    ),
                    None => None,
                };
                parse_cells_from(s, next_pos(i, b as int, n), sst, cur2, acc)
            },
            XmlTok::Open(a, b, g, e) => {
                let name = s.subrange(a as int, b as int);
                if name == "c"@ {
                    parse_cells_from(
                        s,
                        next_pos(i, e as int, n),
                        sst,
                        Some(fresh_cur(s, b as int, g as int)),
                        acc,
                    )
                } else if name == "f"@ && cur is Some {
                    parse_cells_from(
                        s,
                        next_pos(i, e as int, n),
                        sst,
                        Some(CurCell { sub: 1, ..cur->Some_0 }),
                        acc,
                    )
                } else if name == "v"@ && cur is Some {
                    parse_cells_from(
                        s,
                        next_pos(i, e as int, n),
                        sst,
                        Some(CurCell { sub: 2, ..cur->Some_0 }),
                        acc,
                    )
                } else if name == "is"@ && cur is Some {
                    parse_cells_from(
                        s,
                        next_pos(i, e as int, n),
                        sst,
                        Some(CurCell { sub: 3, ..cur->Some_0 }),
                        acc,
                    )
                } else if name == "t"@ && (cur matches Some(c) && c.sub == 3) {
                    parse_cells_from(
                        s,
                        next_pos(i, e as int, n),
                        sst,
                        Some(CurCell { sub: 4, ..cur->Some_0 }),
                        acc,
                    )
                } else {
                    parse_cells_from(s, next_pos(i, e as int, n), sst, cur, acc)
                }
            },
            XmlTok::OpenEmpty(a, b, g, e) => {
                let name = s.subrange(a as int, b as int);
                if name == "sheetData"@ {
                    Some(acc)
                } else if name == "c"@ {
                    match build_cell(fresh_cur(s, b as int, g as int), sst) {
                        Some(cm) => parse_cells_from(
                            s,
                            next_pos(i, e as int, n),
                            sst,
                            None,
                            acc.push(cm),
                        ),
                        None => None,
                    }
                } else {
                    parse_cells_from(s, next_pos(i, e as int, n), sst, cur, acc)
                }
            },
            XmlTok::Close(a, b, e) => {
                let name = s.subrange(a as int, b as int);
                if name == "sheetData"@ {
                    Some(acc)
                } else if name == "c"@ {
                    match cur {
                        Some(c) => match build_cell(c, sst) {
                            Some(cm) => parse_cells_from(
                                s,
                                next_pos(i, e as int, n),
                                sst,
                                None,
                                acc.push(cm),
                            ),
                            None => None,
                        },
                        None => None,
                    }
                } else if name == "f"@ || name == "v"@ {
                    let cur2 = match cur {
                        Some(c) => Some(CurCell { sub: 0, ..c }),
                        None => None,
                    };
                    parse_cells_from(s, next_pos(i, e as int, n), sst, cur2, acc)
                } else if name == "t"@ {
                    let cur2 = match cur {
                        Some(c) => Some(if c.sub == 4 {
                            CurCell { sub: 3, ..c }
                        } else {
                            c
                        }),
                        None => None,
                    };
                    parse_cells_from(s, next_pos(i, e as int, n), sst, cur2, acc)
                } else if name == "is"@ {
                    let cur2 = match cur {
                        Some(c) => Some(CurCell { sub: 0, ..c }),
                        None => None,
                    };
                    parse_cells_from(s, next_pos(i, e as int, n), sst, cur2, acc)
                } else {
                    parse_cells_from(s, next_pos(i, e as int, n), sst, cur, acc)
                }
            },
        }
    }
}

// ---------------------------------------------------------------------------
// Executable parsing
// ---------------------------------------------------------------------------

/// The executable twin of the in-progress parse state.
struct CurExec {
    coord: String,
    typ: String,
    formula: Option<String>,
    vtext: Option<String>,
    itext: Option<String>,
    sub: usize,
}

pub open spec fn opt_seq(o: Option<String>) -> Option<Seq<char>> {
    match o {
        Some(s) => Some(s@),
        None => None,
    }
}

spec fn cur_view(c: CurExec) -> CurCell {
    CurCell {
        coord: c.coord@,
        typ: c.typ@,
        formula: opt_seq(c.formula),
        vtext: opt_seq(c.vtext),
        itext: opt_seq(c.itext),
        sub: c.sub as int,
    }
}

spec fn opt_cur_view(c: Option<CurExec>) -> Option<CurCell> {
    match c {
        Some(x) => Some(cur_view(x)),
        None => None,
    }
}

/// Read an attribute as decoded text, empty when absent.
pub(crate) fn read_attr_or_empty_pub(v: &Vec<char>, b: usize, g: usize, name: &Vec<char>) -> (r: String)
    requires
        b <= g <= v@.len(),
    ensures
        r@ == attr_or_empty(v@, b as int, g as int, name@),
{
    match crate::relationships::read_attr(v, b, g, name) {
        Some(t) => t,
        None => String::new(),
    }
}

/// Build the finished cell, resolving a shared-string index.
fn build_cell_exec(cur: CurExec, sst: &Vec<SharedStringItem>) -> (r: Option<Cell>)
    ensures
        match r {
            Some(c) => build_cell(
                cur_view(cur),
                crate::shared_string_table::items_view(sst@),
            ) == Some(c@),
            None => build_cell(cur_view(cur), crate::shared_string_table::items_view(sst@))
                is None,
        },
{
    let ghost sstv = crate::shared_string_table::items_view(sst@);
    let is_s = crate::util::str_eq(cur.typ.as_str(), "s");
    let is_inline = crate::util::str_eq(cur.typ.as_str(), "inlineStr");
    if is_s {
        match &cur.vtext {
            Some(t) => {
                let tv = chars_vec(t.as_str());
                let n = tv.len();
                proof {
                    assert(tv@.subrange(0, n as int) =~= tv@);
                }
                if 1 <= n && n <= 7 && crate::cell_value::all_digits_range(&tv, 0, n) {
                    let idx64 = crate::formula::digits_val_exec(&tv, 0, n);
                    let idx = idx64 as usize;
                    if idx < sst.len() {
                        let item = &sst[idx];
                        let value: Option<Value> = match &item.text {
                            Some(x) => Some(Value::String(x.value.clone())),
                            None => None,
                        };
                        let rich: Option<RichText> = match &item.rich_text {
                            Some(rt) => Some(rt.clone_rich_text()),
                            None => None,
                        };
                        let c = Cell {
                            coordinate: cur.coord,
                            cell_value: CellValue {
                                value,
                                raw_value: None,
                                rich_text: rich,
                                formula: cur.formula,
                                formula_attributes: Vec::new(),
                            },
                        };
                        proof {
                            assert(sstv[idx as int] == sst@[idx as int]@);
                        }
                        Some(c)
                    } else {
                        None
                    }
                } else {
                    None
                }
            },
            None => Some(
                Cell {
                    coordinate: cur.coord,
                    cell_value: CellValue {
                        value: None,
                        raw_value: None,
                        rich_text: None,
                        formula: cur.formula,
                        formula_attributes: Vec::new(),
                    },
                },
            ),
        }
    } else if is_inline {
        let text: String = match &cur.itext {
            Some(t) => t.clone(),
            None => String::new(),
        };
        Some(
            Cell {
                coordinate: cur.coord,
                cell_value: CellValue {
                    value: Some(Value::String(text)),
                    raw_value: None,
                    rich_text: None,
                    formula: cur.formula,
                    formula_attributes: Vec::new(),
                },
            },
        )
    } else {
        Some(
            Cell {
                coordinate: cur.coord,
                cell_value: CellValue {
                    value: None,
                    raw_value: cur.vtext,
                    rich_text: None,
                    formula: cur.formula,
                    formula_attributes: Vec::new(),
                },
            },
        )
    }
}

/// Parse a sheet body into its cells, consulting the shared string items.
#[verifier::rlimit(100)]
#[verifier::spinoff_prover]
pub fn parse_worksheet_cells(body: &str, sst: &Vec<SharedStringItem>) -> (r: Result<
    Vec<Cell>,
    XlsxError,
>)
    ensures
        match r {
            Ok(cells) => parse_cells_from(
                body@,
                0,
                crate::shared_string_table::items_view(sst@),
                None,
                Seq::empty(),
            ) == Some(cells_view(cells@)),
            Err(e) => parse_cells_from(
                body@,
                0,
                crate::shared_string_table::items_view(sst@),
                None,
                Seq::empty(),
            ) is None && e == XlsxError::Xml,
        },
{
    let ghost sstv = crate::shared_string_table::items_view(sst@);
    let v = chars_vec(body);
    let n = v.len();
    let name_c = chars_vec("c");
    let name_f = chars_vec("f");
    let name_v = chars_vec("v");
    let name_is = chars_vec("is");
    let name_t = chars_vec("t");
    let name_sd = chars_vec("sheetData");
    let name_r = chars_vec("r");
    let name_ty = chars_vec("t");
    let mut acc: Vec<Cell> = Vec::new();
    let mut cur: Option<CurExec> = None;
    let mut i: usize = 0;
    proof {
        assert(cells_view(acc@) =~= Seq::<CellModel>::empty());
    }
    while i < n
        invariant
            i <= n,
            n == v@.len(),
            v@ == body@,
            name_c@ == "c"@,
            name_f@ == "f"@,
            name_v@ == "v"@,
            name_is@ == "is"@,
            name_t@ == "t"@,
            name_sd@ == "sheetData"@,
            name_r@ == "r"@,
            name_ty@ == "t"@,
            sstv == crate::shared_string_table::items_view(sst@),
            parse_cells_from(body@, 0, sstv, None, Seq::empty()) == parse_cells_from(
                body@,
                i as int,
                sstv,
                opt_cur_view(cur),
                cells_view(acc@),
            ),
        decreases n - i,
    {
        let ghost acc0 = cells_view(acc@);
        let ghost cur0 = opt_cur_view(cur);
        let tok = next_tok(&v, i);
        match tok {
            XmlTok::Eof => {
                return Err(XlsxError::Xml);
            },
            XmlTok::Bad => {
                return Err(XlsxError::Xml);
            },
            XmlTok::Decl(e) => {
                proof {
                    assert(next_pos(i as int, e as int, n as int) == e);
                }
                i = e;
            },
            XmlTok::Text(a, b) => {
                let sub: usize = match &cur {
                    Some(c) => c.sub,
                    None => 0,
                };
                if sub == 1 || sub == 2 || sub == 4 {
                    let mut buf: Vec<char> = Vec::new();
                    crate::xml::push_unescaped(&mut buf, &v, a, b);
                    proof {
                        assert(buf@ =~= unescape(v@.subrange(a as int, b as int)));
                    }
                    let t = string_from_chars(&buf);
                    match cur {
                        Some(c) => {
                            if sub == 1 {
                                cur = Some(CurExec { formula: Some(t), ..c });
                            } else if sub == 2 {
                                cur = Some(CurExec { vtext: Some(t), ..c });
                            } else {
                                cur = Some(CurExec { itext: Some(t), ..c });
                            }
                        },
                        None => {},
                    }
                }
                proof {
                    assert(next_pos(i as int, b as int, n as int) == b);
                }
                i = b;
            },
            XmlTok::Open(a, b, g, e) => {
                let name_is_c = crate::formula::seq_eq_range(&v, a, b, &name_c);
                if name_is_c {
                    let coord = read_attr_or_empty_pub(&v, b, g, &name_r);
                    let typ = read_attr_or_empty_pub(&v, b, g, &name_ty);
                    cur = Some(
                        CurExec { coord, typ, formula: None, vtext: None, itext: None, sub: 0 },
                    );
                } else if crate::formula::seq_eq_range(&v, a, b, &name_f) && cur.is_some() {
                    match cur {
                        Some(c) => {
                            cur = Some(CurExec { sub: 1, ..c });
                        },
                        None => {},
                    }
                } else if crate::formula::seq_eq_range(&v, a, b, &name_v) && cur.is_some() {
                    match cur {
                        Some(c) => {
                            cur = Some(CurExec { sub: 2, ..c });
                        },
                        None => {},
                    }
                } else if crate::formula::seq_eq_range(&v, a, b, &name_is) && cur.is_some() {
                    match cur {
                        Some(c) => {
                            cur = Some(CurExec { sub: 3, ..c });
                        },
                        None => {},
                    }
                } else if crate::formula::seq_eq_range(&v, a, b, &name_t) && ({
                    let issub3 = match &cur {
                        Some(c) => c.sub == 3,
                        None => false,
                    };
                    issub3
                }) {
                    match cur {
                        Some(c) => {
                            cur = Some(CurExec { sub: 4, ..c });
                        },
                        None => {},
                    }
                }
                proof {
                    assert(next_pos(i as int, e as int, n as int) == e);
                }
                i = e;
            },
            XmlTok::OpenEmpty(a, b, g, e) => {
                if crate::formula::seq_eq_range(&v, a, b, &name_sd) {
                    return Ok(acc);
                } else if crate::formula::seq_eq_range(&v, a, b, &name_c) {
                    let coord = read_attr_or_empty_pub(&v, b, g, &name_r);
                    let typ = read_attr_or_empty_pub(&v, b, g, &name_ty);
                    let fresh = CurExec {
                        coord,
                        typ,
                        formula: None,
                        vtext: None,
                        itext: None,
                        sub: 0,
                    };
                    proof {
                        assert(cur_view(fresh) == fresh_cur(v@, b as int, g as int));
                    }
                    match build_cell_exec(fresh, sst) {
                        Some(cell) => {
                            acc.push(cell);
                            cur = None;
                            proof {
                                assert(cells_view(acc@) =~= acc0.push(acc@.last()@));
                            }
                        },
                        None => {
                            return Err(XlsxError::Xml);
                        },
                    }
                }
                proof {
                    assert(next_pos(i as int, e as int, n as int) == e);
                }
                i = e;
            },
            XmlTok::Close(a, b, e) => {
                if crate::formula::seq_eq_range(&v, a, b, &name_sd) {
                    return Ok(acc);
                } else if crate::formula::seq_eq_range(&v, a, b, &name_c) {
                    match cur {
                        Some(c) => {
                            match build_cell_exec(c, sst) {
                                Some(cell) => {
                                    acc.push(cell);
                                    cur = None;
                                    proof {
                                        assert(cells_view(acc@) =~= acc0.push(acc@.last()@));
                                    }
                                },
                                None => {
                                    return Err(XlsxError::Xml);
                                },
                            }
                        },
                        None => {
                            return Err(XlsxError::Xml);
                        },
                    }
                } else if crate::formula::seq_eq_range(&v, a, b, &name_f) || crate::formula::seq_eq_range(
                    &v,
                    a,
                    b,
                    &name_v,
                ) {
                    match cur {
                        Some(c) => {
                            cur = Some(CurExec { sub: 0, ..c });
                        },
                        None => {},
                    }
                } else if crate::formula::seq_eq_range(&v, a, b, &name_t) {
                    match cur {
                        Some(c) => {
                            if c.sub == 4 {
                                cur = Some(CurExec { sub: 3, ..c });
                            } else {
                                cur = Some(c);
                            }
                        },
                        None => {},
                    }
                } else if crate::formula::seq_eq_range(&v, a, b, &name_is) {
                    match cur {
                        Some(c) => {
                            cur = Some(CurExec { sub: 0, ..c });
                        },
                        None => {},
                    }
                }
                proof {
                    assert(next_pos(i as int, e as int, n as int) == e);
                }
                i = e;
            },
        }
    }
    Err(XlsxError::Xml)
}

} // verus!
