use vstd::prelude::*;

use crate::XlsxError;
use crate::formula::next_pos;
use crate::relationships::RelModel;
use crate::relationships::Relationship;
use crate::relationships::parse_rels_from;
use crate::relationships::parse_relationships;
use crate::relationships::rels_view;
use crate::shared_string_table::SharedStringItem;
use crate::shared_string_table::SharedStringTable;
use crate::shared_string_table::SsiModel;
use crate::shared_string_table::items_view;
use crate::spreadsheet::Spreadsheet;
use crate::spreadsheet::Stylesheet;
use crate::spreadsheet::Theme;
use crate::util::chars_vec;
use crate::util::string_from_chars;
use crate::worksheet::RawWorksheet;
use crate::worksheet::Sheet;
use crate::worksheet::SheetBody;
use crate::worksheet::Worksheet;
use crate::worksheet::cells_view;
use crate::worksheet::parse_cells_from;
use crate::worksheet::parse_worksheet_cells;
use crate::xml::XmlTok;
use crate::xml::next_tok;
use crate::xml::scan_tok;
use crate::xml::attr_val;
use crate::xml::unescape;

verus! {

// ---------------------------------------------------------------------------
// The read path: locate parts, resolve relationships, build the workbook
// skeleton, cache raw sheets, and materialize them eagerly or on demand.
// ---------------------------------------------------------------------------

/// The first relationship of the given type, by exact type-URI comparison.
pub open spec fn first_target_of_type(rels: Seq<RelModel>, typ: Seq<char>) -> Option<Seq<char>>
    decreases rels.len(),
{
    if rels.len() == 0 {
        None
    } else if rels[0].rel_type == typ {
        Some(rels[0].target)
    } else {
        first_target_of_type(rels.drop_first(), typ)
    }
}

/// Lookup in a name-to-text list, first match.
pub open spec fn assoc_lookup(list: Seq<(Seq<char>, Seq<char>)>, key: Seq<char>) -> Option<
    Seq<char>,
>
    decreases list.len(),
{
    if list.len() == 0 {
        None
    } else if list[0].0 == key {
        Some(list[0].1)
    } else {
        assoc_lookup(list.drop_first(), key)
    }
}

/// The collaborator part a sheet relationship of the given type links, if
/// both the relationship and the cached part exist.
pub open spec fn linked_part(
    rels: Option<Seq<RelModel>>,
    aux: Seq<(Seq<char>, Seq<char>)>,
    typ: Seq<char>,
) -> Option<Seq<char>> {
    match rels {
        Some(rs) => match first_target_of_type(rs, typ) {
            Some(t) => assoc_lookup(aux, t),
            None => None,
        },
        None => None,
    }
}

/// The model of a materialized worksheet.
pub struct WorksheetModel {
    pub cells: Seq<crate::worksheet::CellModel>,
    pub drawing: Option<Seq<char>>,
    pub comments: Option<Seq<char>>,
    pub vml: Option<Seq<char>>,
}

pub open spec fn ws_view(w: Worksheet) -> WorksheetModel {
    WorksheetModel {
        cells: cells_view(w.cells@),
        drawing: crate::worksheet::opt_seq(w.drawing_raw),
        comments: crate::worksheet::opt_seq(w.comments_raw),
        vml: crate::worksheet::opt_seq(w.vml_raw),
    }
}

/// The model of a raw, unmaterialized sheet.
pub struct RawModel {
    pub body: Seq<char>,
    pub rels: Option<Seq<RelModel>>,
    pub aux: Seq<(Seq<char>, Seq<char>)>,
}

pub open spec fn aux_view(aux: Seq<(String, String)>) -> Seq<(Seq<char>, Seq<char>)> {
    aux.map_values(|p: (String, String)| (p.0@, p.1@))
}

pub open spec fn raw_view(r: RawWorksheet) -> RawModel {
    RawModel {
        body: r.body@,
        rels: match r.worksheet_relationships {
            Some(rs) => Some(rels_view(rs@)),
            None => None,
        },
        aux: aux_view(r.aux_parts@),
    }
}

/// What materialization produces from a raw sheet: the parsed cells, then
/// the linked collaborator parts — drawing/chart and comments in the first
/// pass, legacy vector markup in the second. A missing optional link is
/// absence; a malformed body is a fault.
pub open spec fn materialize_spec(raw: RawModel, sst: Seq<SsiModel>) -> Option<WorksheetModel> {
    match parse_cells_from(raw.body, 0, sst, None, Seq::empty()) {
        Some(cells) => Some(
            WorksheetModel {
                cells,
                drawing: linked_part(
                    raw.rels,
                    raw.aux,
                    "http://schemas.openxmlformats.org/officeDocument/2006/relationships/drawing"@,
                ),
                comments: linked_part(
                    raw.rels,
                    raw.aux,
                    "http://schemas.openxmlformats.org/officeDocument/2006/relationships/comments"@,
                ),
                vml: linked_part(
                    raw.rels,
                    raw.aux,
                    "http://schemas.openxmlformats.org/officeDocument/2006/relationships/vmlDrawing"@,
                ),
            },
        ),
        None => None,
    }
}

/// The cached auxiliary parts a sheet's relationship rows link, in row
/// order: each target that names a present part, with that part's text.
pub open spec fn aux_of(ps: Seq<(Seq<char>, Seq<char>)>, srs: Seq<RelModel>) -> Seq<
    (Seq<char>, Seq<char>),
>
    decreases srs.len(),
{
    if srs.len() == 0 {
        Seq::empty()
    } else {
        aux_of(ps, srs.drop_last()) + (match assoc_lookup(
            ps,
            resolve_sheet_target(srs.last().target),
        ) {
            Some(t) => seq![(srs.last().target, t)],
            None => Seq::empty(),
        })
    }
}

/// What one sheet's relationship id yields from the parts: no matching
/// relationship is simple absence, a matching one whose target part is
/// missing is a format fault, a sheet relationship part that refuses to
/// parse is a markup fault, and otherwise the raw body with its own
/// relationship table and cached auxiliary parts.
pub open spec fn raw_model_of(
    ps: Seq<(Seq<char>, Seq<char>)>,
    rels: Seq<RelModel>,
    rid: Seq<char>,
) -> Result<Option<RawModel>, crate::XlsxError> {
    match crate::relationships::find_rel(rels, rid) {
        None => Ok(None),
        Some(rel) => match assoc_lookup(ps, "xl/"@ + rel.target) {
            None => Err(crate::XlsxError::Format),
            Some(body) => {
                let relspath = "xl/worksheets/_rels/"@ + after_slash(rel.target) + ".rels"@;
                match assoc_lookup(ps, relspath) {
                    None => Ok(Some(RawModel { body, rels: None, aux: Seq::empty() })),
                    Some(srt) => match parse_rels_from(srt, 0, Seq::empty()) {
                        None => Err(crate::XlsxError::Xml),
                        Some(srs) => Ok(
                            Some(RawModel { body, rels: Some(srs), aux: aux_of(ps, srs) }),
                        ),
                    },
                }
            },
        },
    }
}

/// The raw bodies of the skeleton's sheets in order; the first fault wins.
pub open spec fn sheets_read_fold(
    ps: Seq<(Seq<char>, Seq<char>)>,
    rels: Seq<RelModel>,
    sk: Seq<(Seq<char>, Seq<char>)>,
) -> Result<Seq<Option<RawModel>>, crate::XlsxError>
    decreases sk.len(),
{
    if sk.len() == 0 {
        Ok(Seq::empty())
    } else {
        match sheets_read_fold(ps, rels, sk.drop_last()) {
            Err(e) => Err(e),
            Ok(bs) => match raw_model_of(ps, rels, sk.last().1) {
                Err(e) => Err(e),
                Ok(b) => Ok(bs.push(b)),
            },
        }
    }
}

proof fn lemma_sheets_read_fold_prefix_err(
    ps: Seq<(Seq<char>, Seq<char>)>,
    rels: Seq<RelModel>,
    sk: Seq<(Seq<char>, Seq<char>)>,
    m: int,
    e: crate::XlsxError,
)
    requires
        0 <= m <= sk.len(),
        sheets_read_fold(ps, rels, sk.take(m)) == Err::<Seq<Option<RawModel>>, crate::XlsxError>(
            e,
        ),
    ensures
        sheets_read_fold(ps, rels, sk) == Err::<Seq<Option<RawModel>>, crate::XlsxError>(e),
    decreases sk.len() - m,
{
    if m < sk.len() {
        assert(sk.take(m + 1).drop_last() =~= sk.take(m));
        lemma_sheets_read_fold_prefix_err(ps, rels, sk, m + 1, e);
    } else {
        assert(sk.take(m) =~= sk);
    }
}

/// How one built sheet relates to its raw model: absence stays absence, and
/// a raw body is either kept raw (lazy mode) or replaced by exactly its
/// materialized model (eager mode).
pub open spec fn body_matches(
    b: Option<RawModel>,
    s: Sheet,
    eager: bool,
    items: Seq<SsiModel>,
) -> bool {
    match b {
        None => s.body is None,
        Some(rm) => if eager {
            materialize_spec(rm, items) matches Some(wm) && (s.body matches Some(
                SheetBody::Ready(w),
            ) && ws_view(w) == wm)
        } else {
            s.body matches Some(SheetBody::Raw(raw)) && raw_view(raw) == rm
        },
    }
}

/// Lookup a cached part's text by its target path.
fn assoc_lookup_exec(aux: &Vec<(String, String)>, key: &str) -> (r: Option<String>)
    ensures
        crate::worksheet::opt_seq(r) == assoc_lookup(aux_view(aux@), key@),
{
    let ghost av = aux_view(aux@);
    proof {
        assert(av.skip(0) =~= av);
    }
    let mut j: usize = 0;
    while j < aux.len()
        invariant
            j <= aux@.len(),
            av == aux_view(aux@),
            assoc_lookup(av, key@) == assoc_lookup(av.skip(j as int), key@),
        decreases aux@.len() - j,
    {
        proof {
            assert(av.skip(j as int)[0] == av[j as int]);
            assert(av.skip(j as int).drop_first() =~= av.skip(j as int + 1));
            assert(av[j as int] == (aux@[j as int].0@, aux@[j as int].1@));
        }
        if crate::util::str_eq(aux[j].0.as_str(), key) {
            proof {
                assert(assoc_lookup(av.skip(j as int), key@) == Some(av[j as int].1));
            }
            return Some(aux[j].1.clone());
        }
        j += 1;
    }
    proof {
        assert(av.skip(av.len() as int) =~= Seq::<(Seq<char>, Seq<char>)>::empty());
    }
    None
}

/// The first relationship target of the given type, if any.
pub(crate) fn first_target_exec_pub(rs: &Vec<Relationship>, typ: &str) -> (r: Option<String>)
    ensures
        crate::worksheet::opt_seq(r) == first_target_of_type(rels_view(rs@), typ@),
{
    let ghost rv = rels_view(rs@);
    proof {
        assert(rv.skip(0) =~= rv);
    }
    let mut k: usize = 0;
    while k < rs.len()
        invariant
            k <= rs@.len(),
            rv == rels_view(rs@),
            first_target_of_type(rv, typ@) == first_target_of_type(rv.skip(k as int), typ@),
        decreases rs@.len() - k,
    {
        proof {
            assert(rv.skip(k as int)[0] == rv[k as int]);
            assert(rv.skip(k as int).drop_first() =~= rv.skip(k as int + 1));
            assert(rv[k as int] == rs@[k as int]@);
        }
        if crate::util::str_eq(rs[k].rel_type.as_str(), typ) {
            proof {
                assert(first_target_of_type(rv.skip(k as int), typ@) == Some(rv[k as int].target));
            }
            return Some(rs[k].target.clone());
        }
        k += 1;
    }
    proof {
        assert(rv.skip(rv.len() as int) =~= Seq::<RelModel>::empty());
    }
    None
}

/// Find the first relationship of a type and fetch its cached part text.
fn linked_part_exec(rels: &Option<Vec<Relationship>>, aux: &Vec<(String, String)>, typ: &str) -> (r:
    Option<String>)
    ensures
        crate::worksheet::opt_seq(r) == linked_part(
            match *rels {
                Some(rs) => Some(rels_view(rs@)),
                None => None,
            },
            aux_view(aux@),
            typ@,
        ),
{
    match rels {
        Some(rs) => match first_target_exec_pub(rs, typ) {
            Some(target) => assoc_lookup_exec(aux, target.as_str()),
            None => None,
        },
        None => None,
    }
}

/// Materialize one sheet in place: parse the raw body into the worksheet
/// model using the shared resources, link the collaborator parts in two
/// ordered passes, then drop the raw cache. Re-invoking on an already
/// materialized (or bodiless) sheet is a no-op; a parse fault aborts the
/// materialization and leaves the sheet as it was.
pub fn raw_to_serialize_by_worksheet(
    sheet: &mut Sheet,
    theme: &Theme,
    shared_string_table: &SharedStringTable,
    stylesheet: &Stylesheet,
) -> (r: Result<(), XlsxError>)
    ensures
        final(sheet).name == old(sheet).name,
        final(sheet).r_id == old(sheet).r_id,
        final(sheet).sheet_state == old(sheet).sheet_state,
        match old(sheet).body {
            Some(SheetBody::Raw(raw)) => {
                match materialize_spec(
                    raw_view(raw),
                    items_view(shared_string_table.shared_string_item@),
                ) {
                    Some(wm) => r is Ok && (final(sheet).body matches Some(SheetBody::Ready(w))
                        && ws_view(w) == wm),
                    None => r == Err::<(), XlsxError>(XlsxError::Xml) && final(sheet).body == old(
                        sheet,
                    ).body,
                }
            },
            _ => r is Ok && final(sheet).body == old(sheet).body,
        },
{
    let is_raw = match &sheet.body {
        Some(SheetBody::Raw(_)) => true,
        _ => false,
    };
    if !is_raw {
        return Ok(());
    }
    let body = sheet.body.take();
    match body {
        Some(SheetBody::Raw(raw)) => {
            match parse_worksheet_cells(
                raw.body.as_str(),
                shared_string_table.get_shared_string_item(),
            ) {
                Ok(cells) => {
                    let drawing = linked_part_exec(
                        &raw.worksheet_relationships,
                        &raw.aux_parts,
                        "http://schemas.openxmlformats.org/officeDocument/2006/relationships/drawing",
                    );
                    let comments = linked_part_exec(
                        &raw.worksheet_relationships,
                        &raw.aux_parts,
                        "http://schemas.openxmlformats.org/officeDocument/2006/relationships/comments",
                    );
                    let vml = linked_part_exec(
                        &raw.worksheet_relationships,
                        &raw.aux_parts,
                        "http://schemas.openxmlformats.org/officeDocument/2006/relationships/vmlDrawing",
                    );
                    let w = Worksheet {
                        cells,
                        drawing_raw: drawing,
                        comments_raw: comments,
                        vml_raw: vml,
                    };
                    sheet.body = Some(SheetBody::Ready(w));
                    Ok(())
                },
                Err(e) => {
                    sheet.body = Some(SheetBody::Raw(raw));
                    Err(e)
                },
            }
        },
        other => {
            sheet.body = other;
            Ok(())
        },
    }
}

/// Whether a sheet's raw body refuses to materialize against the given
/// string table.
pub open spec fn sheet_fails(s: Sheet, items: Seq<SsiModel>) -> bool {
    s.body matches Some(SheetBody::Raw(raw)) && materialize_spec(raw_view(raw), items) is None
}

/// How one materialization pass leaves a sheet: a raw body becomes exactly
/// its materialized model, anything else stays as it was.
pub open spec fn sheet_done(os: Sheet, ns: Sheet, items: Seq<SsiModel>) -> bool {
    match os.body {
        Some(SheetBody::Raw(raw)) => materialize_spec(raw_view(raw), items) matches Some(wm)
            && (ns.body matches Some(SheetBody::Ready(w)) && ws_view(w) == wm),
        _ => ns.body == os.body,
    }
}

impl Spreadsheet {
    /// Materialize every sheet now (the eager read mode): each raw body
    /// becomes exactly its materialized model. The first fault aborts and
    /// is surfaced, with the sheets before it materialized and the failing
    /// sheet and those after it untouched.
    pub fn read_sheet_collection(&mut self) -> (r: Result<(), XlsxError>)
        ensures
            final(self).shared_string_table == old(self).shared_string_table,
            final(self).theme == old(self).theme,
            final(self).stylesheet == old(self).stylesheet,
            final(self).workbook_relationships == old(self).workbook_relationships,
            final(self).sheets@.len() == old(self).sheets@.len(),
            forall|k: int|
                0 <= k < old(self).sheets@.len() ==> {
                    let os = #[trigger] old(self).sheets@[k];
                    let ns = final(self).sheets@[k];
                    ns.name == os.name && ns.r_id == os.r_id && ns.sheet_state == os.sheet_state
                },
            match r {
                Ok(_) => forall|k: int|
                    0 <= k < old(self).sheets@.len() ==> sheet_done(
                        #[trigger] old(self).sheets@[k],
                        final(self).sheets@[k],
                        items_view(old(self).shared_string_table.shared_string_item@),
                    ),
                Err(e) => e == XlsxError::Xml && exists|k: int|
                    0 <= k < old(self).sheets@.len() && #[trigger] sheet_fails(
                        old(self).sheets@[k],
                        items_view(old(self).shared_string_table.shared_string_item@),
                    ) && (forall|j: int|
                        0 <= j < k ==> sheet_done(
                            #[trigger] old(self).sheets@[j],
                            final(self).sheets@[j],
                            items_view(old(self).shared_string_table.shared_string_item@),
                        )) && (forall|j: int|
                        k <= j < old(self).sheets@.len() ==> final(self).sheets@[j].body == (
                        #[trigger] old(self).sheets@[j]).body),
            },
    {
        let n = self.sheets.len();
        let ghost items = items_view(old(self).shared_string_table.shared_string_item@);
        let mut k: usize = 0;
        while k < n
            invariant
                k <= n,
                n == self.sheets@.len(),
                self.sheets@.len() == old(self).sheets@.len(),
                self.shared_string_table == old(self).shared_string_table,
                items == items_view(self.shared_string_table.shared_string_item@),
                self.theme == old(self).theme,
                self.stylesheet == old(self).stylesheet,
                self.workbook_relationships == old(self).workbook_relationships,
                forall|j: int|
                    0 <= j < n ==> {
                        let os = #[trigger] old(self).sheets@[j];
                        let ns = self.sheets@[j];
                        ns.name == os.name && ns.r_id == os.r_id && ns.sheet_state
                            == os.sheet_state
                    },
                forall|j: int|
                    0 <= j < k ==> sheet_done(
                        #[trigger] old(self).sheets@[j],
                        self.sheets@[j],
                        items,
                    ),
                forall|j: int| k <= j < n ==> self.sheets@[j] == old(self).sheets@[j],
            decreases n - k,
        {
            let ghost pre = self.sheets@;
            let mut sheet = self.sheets.remove(k);
            let ghost olds = sheet;
            proof {
                assert(olds == old(self).sheets@[k as int]);
            }
            let res = raw_to_serialize_by_worksheet(
                &mut sheet,
                &self.theme,
                &self.shared_string_table,
                &self.stylesheet,
            );
            match res {
                Ok(_) => {
                    self.sheets.insert(k, sheet);
                    proof {
                        assert(self.sheets@ =~= pre.update(k as int, sheet));
                        assert(sheet_done(old(self).sheets@[k as int], sheet, items));
                    }
                    k += 1;
                },
                Err(e) => {
                    self.sheets.insert(k, sheet);
                    proof {
                        assert(self.sheets@ =~= pre.update(k as int, sheet));
                        assert(sheet.name == olds.name && sheet.r_id == olds.r_id
                            && sheet.sheet_state == olds.sheet_state && sheet.body == olds.body);
                        assert(sheet == olds);
                        assert(self.sheets@ =~= pre);
                        assert(sheet_fails(old(self).sheets@[k as int], items));
                    }
                    return Err(e);
                },
            }
        }
        Ok(())
    }
}

// ---------------------------------------------------------------------------
// The shared-strings part
// ---------------------------------------------------------------------------

/// The shared-strings parser's in-progress item. `sub` tracks where text
/// belongs: 1 inside a plain text node, 2 inside a run, 3 inside a run's
/// text node.
pub struct CurSi {
    pub text: Option<Seq<char>>,
    pub pend: Option<Seq<char>>,
    pub runs: Option<Seq<Seq<char>>>,
    pub sub: int,
}

/// Parse the shared-strings body from `i`: each `si` element contributes one
/// interned item (plain text, or a run sequence), and the closing `sst`
/// element ends the list.
pub open spec fn parse_sst_from(
    s: Seq<char>,
    i: int,
    cur: Option<CurSi>,
    acc: Seq<SsiModel>,
) -> Option<Seq<SsiModel>>
    decreases s.len() - i,
{
    if i < 0 || i >= s.len() {
        None
    } else {
        let n = s.len() as int;
        match scan_tok(s, i) {
            XmlTok::Eof => None,
            XmlTok::Bad => None,
            XmlTok::Decl(e) => parse_sst_from(s, next_pos(i, e as int, n), cur, acc),
            XmlTok::Text(a, b) => {
                let t = unescape(s.subrange(a as int, b as int));
                let cur2 = match cur {
                    Some(c) => Some(
                        if c.sub == 1 {
                            CurSi { text: Some(t), ..c }
                        } else if c.sub == 3 {
                            CurSi { pend: Some(t), ..c }
                        } else {
                            c
                        },
                    ),
                    None => None,
                };
                parse_sst_from(s, next_pos(i, b as int, n), cur2, acc)
            },
            XmlTok::Open(a, b, g, e) => {
                let name = s.subrange(a as int, b as int);
                let cur2 = if name == "si"@ {
                    Some(CurSi { text: None, pend: None, runs: None, sub: 0 })
                } else {
                    match cur {
                        Some(c) => Some(
                            if name == "t"@ && c.sub == 2 {
                                CurSi { sub: 3, ..c }
                            } else if name == "t"@ && c.sub == 0 {
                                CurSi { sub: 1, text: Some(Seq::empty()), ..c }
                            } else if name == "r"@ {
                                CurSi {
                                    sub: 2,
                                    runs: match c.runs {
                                        Some(rs) => Some(rs),
                                        None => Some(Seq::empty()),
                                    },
                                    ..c
                                }
                            } else {
                                c
                            },
                        ),
                        None => None,
                    }
                };
                parse_sst_from(s, next_pos(i, e as int, n), cur2, acc)
            },
            XmlTok::OpenEmpty(a, b, g, e) => {
                let name = s.subrange(a as int, b as int);
                if name == "sst"@ {
                    Some(acc)
                } else if name == "si"@ {
                    parse_sst_from(
                        s,
                        next_pos(i, e as int, n),
                        None,
                        acc.push(SsiModel { text: None, rich: None }),
                    )
                } else {
                    parse_sst_from(s, next_pos(i, e as int, n), cur, acc)
                }
            },
            XmlTok::Close(a, b, e) => {
                let name = s.subrange(a as int, b as int);
                if name == "sst"@ {
                    Some(acc)
                } else if name == "si"@ {
                    match cur {
                        Some(c) => parse_sst_from(
                            s,
                            next_pos(i, e as int, n),
                            None,
                            acc.push(SsiModel { text: c.text, rich: c.runs }),
                        ),
                        None => None,
                    }
                } else if name == "t"@ {
                    let cur2 = match cur {
                        Some(c) => Some(
                            if c.sub == 3 {
                                CurSi {
                                    sub: 2,
                                    pend: None,
                                    runs: Some(
                                        match c.runs {
                                            Some(rs) => rs,
                                            None => Seq::empty(),
                                        }.push(
                                            match c.pend {
                                                Some(p) => p,
                                                None => Seq::empty(),
                                            },
                                        ),
                                    ),
                                    ..c
                                }
                            } else if c.sub == 1 {
                                CurSi { sub: 0, ..c }
                            } else {
                                c
                            },
                        ),
                        None => None,
                    };
                    parse_sst_from(s, next_pos(i, e as int, n), cur2, acc)
                } else if name == "r"@ {
                    let cur2 = match cur {
                        Some(c) => Some(CurSi { sub: 0, ..c }),
                        None => None,
                    };
                    parse_sst_from(s, next_pos(i, e as int, n), cur2, acc)
                } else {
                    parse_sst_from(s, next_pos(i, e as int, n), cur, acc)
                }
            },
        }
    }
}

/// The views of a list of strings.
pub open spec fn strs_view(rs: Seq<String>) -> Seq<Seq<char>> {
    rs.map_values(|t: String| t@)
}

/// The executable twin of the in-progress item.
struct CurSiExec {
    text: Option<String>,
    pend: Option<String>,
    runs: Option<Vec<String>>,
    sub: usize,
}

spec fn cursi_view(c: CurSiExec) -> CurSi {
    CurSi {
        text: crate::worksheet::opt_seq(c.text),
        pend: crate::worksheet::opt_seq(c.pend),
        runs: match c.runs {
            Some(rs) => Some(strs_view(rs@)),
            None => None,
        },
        sub: c.sub as int,
    }
}

spec fn opt_cursi_view(c: Option<CurSiExec>) -> Option<CurSi> {
    match c {
        Some(x) => Some(cursi_view(x)),
        None => None,
    }
}

/// Build the interned item an `si` element collected.
fn finish_si(c: CurSiExec) -> (r: SharedStringItem)
    ensures
        r@ == (SsiModel { text: cursi_view(c).text, rich: cursi_view(c).runs }),
{
    let text = match c.text {
        Some(t) => Some(crate::rich_text::Text { value: t }),
        None => None,
    };
    let rich = match c.runs {
        Some(rs) => {
            let mut rt = crate::rich_text::RichText::new();
            let mut k: usize = 0;
            while k < rs.len()
                invariant
                    k <= rs@.len(),
                    crate::rich_text::runs_view(rt) == strs_view(rs@.take(k as int)),
                decreases rs@.len() - k,
            {
                rt.add_run(crate::rich_text::Text { value: rs[k].clone() });
                proof {
                    assert(strs_view(rs@.take(k as int + 1)) =~= strs_view(rs@.take(k as int)).push(
                        rs@[k as int]@,
                    ));
                }
                k += 1;
            }
            proof {
                assert(rs@.take(rs@.len() as int) =~= rs@);
            }
            Some(rt)
        },
        None => None,
    };
    proof {
    }
    SharedStringItem { text, rich_text: rich }
}

impl SharedStringTable {
    /// Append already-built items to the list, leaving the lookup untouched.
    fn append_items(&mut self, items: Vec<SharedStringItem>)
        ensures
            final(self).map == old(self).map,
            final(self).regist_count == old(self).regist_count,
            items_view(final(self).shared_string_item@) == items_view(
                old(self).shared_string_item@,
            ) + items_view(items@),
            final(self).shared_string_item@.len() == old(self).shared_string_item@.len()
                + items@.len(),
    {
        let ghost itemsv = items_view(items@);
        let mut rest = items;
        proof {
            assert(itemsv.take(0) =~= Seq::<SsiModel>::empty());
            assert(items_view(self.shared_string_item@) =~= items_view(
                old(self).shared_string_item@,
            ) + itemsv.take(0));
            assert(items_view(rest@) =~= itemsv.skip(0));
        }
        while rest.len() > 0
            invariant
                self.map == old(self).map,
                self.regist_count == old(self).regist_count,
                rest@.len() <= itemsv.len(),
                items_view(self.shared_string_item@) == items_view(old(self).shared_string_item@)
                    + itemsv.take(itemsv.len() - rest@.len()),
                items_view(rest@) == itemsv.skip(itemsv.len() - rest@.len()),
                self.shared_string_item@.len() == old(self).shared_string_item@.len()
                    + itemsv.len() - rest@.len(),
            decreases rest@.len(),
        {
            let ghost p = itemsv.len() - rest@.len();
            let it = rest.remove(0);
            self.shared_string_item.push(it);
            proof {
                assert(itemsv.skip(p as int)[0] == itemsv[p as int]);
                assert(itemsv.take(p as int + 1) =~= itemsv.take(p as int).push(itemsv[p as int]));
                assert(items_view(self.shared_string_item@) =~= items_view(
                    old(self).shared_string_item@,
                ) + itemsv.take(p as int) + seq![self.shared_string_item@.last()@]);
                assert(self.shared_string_item@.last()@ == itemsv[p as int]);
                assert(items_view(self.shared_string_item@) =~= items_view(
                    old(self).shared_string_item@,
                ) + itemsv.take(p as int + 1));
                assert(items_view(rest@) =~= itemsv.skip(p as int).drop_first());
                assert(itemsv.skip(p as int).drop_first() =~= itemsv.skip(p as int + 1));
            }
        }
        proof {
            assert(itemsv.take(itemsv.len() as int) =~= itemsv);
        }
    }

    /// Parse a shared-strings part body, appending each interned item to the
    /// list in order; the lookup structure is left unbuilt, as the read path
    /// populates the list without registering.
    #[verifier::rlimit(100)]
    #[verifier::spinoff_prover]
    pub fn set_attributes(&mut self, text: &str) -> (r: Result<(), XlsxError>)
        ensures
            final(self).map == old(self).map,
            final(self).regist_count == old(self).regist_count,
            match r {
                Ok(_) => parse_sst_from(text@, 0, None, Seq::empty()) == Some(
                    items_view(final(self).shared_string_item@).skip(
                        old(self).shared_string_item@.len() as int,
                    ),
                ) && items_view(final(self).shared_string_item@).take(
                    old(self).shared_string_item@.len() as int,
                ) == items_view(old(self).shared_string_item@),
                Err(e) => parse_sst_from(text@, 0, None, Seq::empty()) is None && e
                    == XlsxError::Xml && final(self).shared_string_item@ == old(
                    self,
                ).shared_string_item@,
            },
    {
        let v = chars_vec(text);
        let n = v.len();
        let name_si = chars_vec("si");
        let name_t = chars_vec("t");
        let name_r = chars_vec("r");
        let name_sst = chars_vec("sst");
        let mut items: Vec<SharedStringItem> = Vec::new();
        let mut cur: Option<CurSiExec> = None;
        let mut i: usize = 0;
        proof {
            assert(items_view(items@) =~= Seq::<SsiModel>::empty());
        }
        while i < n
            invariant
                i <= n,
                n == v@.len(),
                v@ == text@,
                name_si@ == "si"@,
                name_t@ == "t"@,
                name_r@ == "r"@,
                name_sst@ == "sst"@,
                self.map == old(self).map,
                self.regist_count == old(self).regist_count,
                self.shared_string_item@ == old(self).shared_string_item@,
                parse_sst_from(text@, 0, None, Seq::empty()) == parse_sst_from(
                    text@,
                    i as int,
                    opt_cursi_view(cur),
                    items_view(items@),
                ),
            decreases n - i,
        {
            let ghost acc0 = items_view(items@);
            let ghost cur0 = opt_cursi_view(cur);
            let ghost ii = i as int;
            let tok = next_tok(&v, i);
            match tok {
                XmlTok::Eof => {
                    return Err(XlsxError::Xml);
                },
                XmlTok::Bad => {
                    return Err(XlsxError::Xml);
                },
                XmlTok::Decl(e) => {
                    proof {
                        assert(next_pos(i as int, e as int, n as int) == e);
                    }
                    i = e;
                },
                XmlTok::Text(a, b) => {
                    let sub: usize = match &cur {
                        Some(c) => c.sub,
                        None => 0,
                    };
                    if sub == 1 || sub == 3 {
                        let mut buf: Vec<char> = Vec::new();
                        crate::xml::push_unescaped(&mut buf, &v, a, b);
                        proof {
                            assert(buf@ =~= unescape(v@.subrange(a as int, b as int)));
                        }
                        let t = string_from_chars(&buf);
                        match cur {
                            Some(c) => {
                                if sub == 1 {
                                    cur = Some(CurSiExec { text: Some(t), ..c });
                                } else {
                                    cur = Some(CurSiExec { pend: Some(t), ..c });
                                }
                            },
                            None => {},
                        }
                    }
                    proof {
                        assert(next_pos(i as int, b as int, n as int) == b);
                        assert(parse_sst_from(text@, ii, cur0, acc0) == parse_sst_from(
                            text@,
                            b as int,
                            opt_cursi_view(cur),
                            items_view(items@),
                        ));
                    }
                    i = b;
                },
                XmlTok::Open(a, b, g, e) => {
                    let is_si = crate::formula::seq_eq_range(&v, a, b, &name_si);
                    let is_t = crate::formula::seq_eq_range(&v, a, b, &name_t);
                    let is_r = crate::formula::seq_eq_range(&v, a, b, &name_r);
                    if is_si {
                        cur = Some(CurSiExec { text: None, pend: None, runs: None, sub: 0 });
                    } else {
                        match cur {
                            Some(c) => {
                                if is_t && c.sub == 2 {
                                    cur = Some(CurSiExec { sub: 3, ..c });
                                } else if is_t && c.sub == 0 {
                                    cur = Some(CurSiExec { sub: 1, text: Some(String::new()), ..c });
                                } else if is_r {
                                    let rs2: Vec<String> = match c.runs {
                                        Some(rs) => rs,
                                        None => Vec::new(),
                                    };
                                    proof {
                                        if rs2@.len() == 0 {
                                            assert(strs_view(rs2@)
                                                =~= Seq::<Seq<char>>::empty());
                                        }
                                    }
                                    cur = Some(
                                        CurSiExec {
                                            text: c.text,
                                            pend: c.pend,
                                            runs: Some(rs2),
                                            sub: 2,
                                        },
                                    );
                                } else {
                                    cur = Some(c);
                                }
                            },
                            None => {},
                        }
                    }
                    proof {
                        assert(next_pos(i as int, e as int, n as int) == e);
                    }
                    i = e;
                },
                XmlTok::OpenEmpty(a, b, g, e) => {
                    if crate::formula::seq_eq_range(&v, a, b, &name_sst) {
                        let ghost accv = items_view(items@);
                        let ghost oldlen = old(self).shared_string_item@.len() as int;
                        self.append_items(items);
                        proof {
                            assert(items_view(self.shared_string_item@).skip(oldlen) =~= accv);
                            assert(items_view(self.shared_string_item@).take(oldlen)
                                =~= items_view(old(self).shared_string_item@));
                        }
                        return Ok(());
                    } else if crate::formula::seq_eq_range(&v, a, b, &name_si) {
                        items.push(SharedStringItem { text: None, rich_text: None });
                        cur = None;
                        proof {
                            assert(items_view(items@) =~= acc0.push(items@.last()@));
                        }
                    }
                    proof {
                        assert(next_pos(i as int, e as int, n as int) == e);
                    }
                    i = e;
                },
                XmlTok::Close(a, b, e) => {
                    if crate::formula::seq_eq_range(&v, a, b, &name_sst) {
                        let ghost accv = items_view(items@);
                        let ghost oldlen = old(self).shared_string_item@.len() as int;
                        self.append_items(items);
                        proof {
                            assert(items_view(self.shared_string_item@).skip(oldlen) =~= accv);
                            assert(items_view(self.shared_string_item@).take(oldlen)
                                =~= items_view(old(self).shared_string_item@));
                        }
                        return Ok(());
                    } else if crate::formula::seq_eq_range(&v, a, b, &name_si) {
                        match cur {
                            Some(c) => {
                                let item = finish_si(c);
                                items.push(item);
                                cur = None;
                                proof {
                                    assert(items_view(items@) =~= acc0.push(items@.last()@));
                                }
                            },
                            None => {
                                return Err(XlsxError::Xml);
                            },
                        }
                    } else if crate::formula::seq_eq_range(&v, a, b, &name_t) {
                        match cur {
                            Some(c) => {
                                if c.sub == 3 {
                                    let ghost oldrunsv = match c.runs {
                                        Some(ref rs0) => strs_view(rs0@),
                                        None => Seq::<Seq<char>>::empty(),
                                    };
                                    let ghost pendv = match c.pend {
                                        Some(ref p0) => p0@,
                                        None => Seq::<char>::empty(),
                                    };
                                    let mut rs = match c.runs {
                                        Some(rs) => rs,
                                        None => Vec::new(),
                                    };
                                    proof {
                                        assert(strs_view(rs@) =~= oldrunsv);
                                    }
                                    let p = match c.pend {
                                        Some(p) => p,
                                        None => String::new(),
                                    };
                                    rs.push(p);
                                    proof {
                                        assert(strs_view(rs@) =~= oldrunsv.push(pendv));
                                    }
                                    cur = Some(
                                        CurSiExec {
                                            sub: 2,
                                            pend: None,
                                            runs: Some(rs),
                                            text: c.text,
                                        },
                                    );
                                } else if c.sub == 1 {
                                    cur = Some(CurSiExec { sub: 0, ..c });
                                } else {
                                    cur = Some(c);
                                }
                            },
                            None => {},
                        }
                    } else if crate::formula::seq_eq_range(&v, a, b, &name_r) {
                        match cur {
                            Some(c) => {
                                cur = Some(CurSiExec { sub: 0, ..c });
                            },
                            None => {},
                        }
                    }
                    proof {
                        assert(next_pos(i as int, e as int, n as int) == e);
                    }
                    i = e;
                },
            }
        }
        Err(XlsxError::Xml)
    }
}

// ---------------------------------------------------------------------------
// The workbook skeleton and the parts-level read entry point
// ---------------------------------------------------------------------------

/// Parse the workbook skeleton from `i`: each `sheet` element contributes a
/// `(name, relationship id)` pair; the closing `workbook` element ends the
/// list.
pub open spec fn parse_wb_from(s: Seq<char>, i: int, acc: Seq<(Seq<char>, Seq<char>)>) -> Option<
    Seq<(Seq<char>, Seq<char>)>,
>
    decreases s.len() - i,
{
    if i < 0 || i >= s.len() {
        None
    } else {
        let n = s.len() as int;
        match scan_tok(s, i) {
            XmlTok::Eof => None,
            XmlTok::Bad => None,
            XmlTok::Decl(e) => parse_wb_from(s, next_pos(i, e as int, n), acc),
            XmlTok::Text(a, b) => parse_wb_from(s, next_pos(i, b as int, n), acc),
            XmlTok::Open(a, b, g, e) => {
                let name = s.subrange(a as int, b as int);
                if name == "sheet"@ {
                    parse_wb_from(
                        s,
                        next_pos(i, e as int, n),
                        acc.push(
                            (
                                crate::worksheet::attr_or_empty(s, b as int, g as int, "name"@),
                                crate::worksheet::attr_or_empty(s, b as int, g as int, "r:id"@),
                            ),
                        ),
                    )
                } else {
                    parse_wb_from(s, next_pos(i, e as int, n), acc)
                }
            },
            XmlTok::OpenEmpty(a, b, g, e) => {
                let name = s.subrange(a as int, b as int);
                if name == "sheet"@ {
                    parse_wb_from(
                        s,
                        next_pos(i, e as int, n),
                        acc.push(
                            (
                                crate::worksheet::attr_or_empty(s, b as int, g as int, "name"@),
                                crate::worksheet::attr_or_empty(s, b as int, g as int, "r:id"@),
                            ),
                        ),
                    )
                } else {
                    parse_wb_from(s, next_pos(i, e as int, n), acc)
                }
            },
            XmlTok::Close(a, b, e) => {
                if s.subrange(a as int, b as int) == "workbook"@ {
                    Some(acc)
                } else {
                    parse_wb_from(s, next_pos(i, e as int, n), acc)
                }
            },
        }
    }
}

pub open spec fn pairs_view(v: Seq<(String, String)>) -> Seq<(Seq<char>, Seq<char>)> {
    v.map_values(|p: (String, String)| (p.0@, p.1@))
}

/// Parse the workbook skeleton part into its `(name, relationship id)` list.
pub fn parse_workbook(text: &str) -> (r: Result<Vec<(String, String)>, XlsxError>)
    ensures
        match r {
            Ok(entries) => parse_wb_from(text@, 0, Seq::empty()) == Some(pairs_view(entries@)),
            Err(e) => parse_wb_from(text@, 0, Seq::empty()) is None && e == XlsxError::Xml,
        },
{
    let v = chars_vec(text);
    let n = v.len();
    let name_sheet = chars_vec("sheet");
    let name_wb = chars_vec("workbook");
    let name_name = chars_vec("name");
    let name_rid = chars_vec("r:id");
    let mut acc: Vec<(String, String)> = Vec::new();
    let mut i: usize = 0;
    proof {
        assert(pairs_view(acc@) =~= Seq::<(Seq<char>, Seq<char>)>::empty());
    }
    while i < n
        invariant
            i <= n,
            n == v@.len(),
            v@ == text@,
            name_sheet@ == "sheet"@,
            name_wb@ == "workbook"@,
            name_name@ == "name"@,
            name_rid@ == "r:id"@,
            parse_wb_from(text@, 0, Seq::empty()) == parse_wb_from(
                text@,
                i as int,
                pairs_view(acc@),
            ),
        decreases n - i,
    {
        let ghost acc0 = pairs_view(acc@);
        let tok = next_tok(&v, i);
        match tok {
            XmlTok::Eof => {
                return Err(XlsxError::Xml);
            },
            XmlTok::Bad => {
                return Err(XlsxError::Xml);
            },
            XmlTok::Decl(e) => {
                proof {
                    assert(next_pos(i as int, e as int, n as int) == e);
                }
                i = e;
            },
            XmlTok::Text(a, b) => {
                proof {
                    assert(next_pos(i as int, b as int, n as int) == b);
                }
                i = b;
            },
            XmlTok::Open(a, b, g, e) => {
                if crate::formula::seq_eq_range(&v, a, b, &name_sheet) {
                    let nm = crate::worksheet::read_attr_or_empty_pub(&v, b, g, &name_name);
                    let rid = crate::worksheet::read_attr_or_empty_pub(&v, b, g, &name_rid);
                    acc.push((nm, rid));
                    proof {
                        assert(pairs_view(acc@) =~= acc0.push(
                            (acc@.last().0@, acc@.last().1@),
                        ));
                    }
                }
                proof {
                    assert(next_pos(i as int, e as int, n as int) == e);
                }
                i = e;
            },
            XmlTok::OpenEmpty(a, b, g, e) => {
                if crate::formula::seq_eq_range(&v, a, b, &name_sheet) {
                    let nm = crate::worksheet::read_attr_or_empty_pub(&v, b, g, &name_name);
                    let rid = crate::worksheet::read_attr_or_empty_pub(&v, b, g, &name_rid);
                    acc.push((nm, rid));
                    proof {
                        assert(pairs_view(acc@) =~= acc0.push(
                            (acc@.last().0@, acc@.last().1@),
                        ));
                    }
                }
                proof {
                    assert(next_pos(i as int, e as int, n as int) == e);
                }
                i = e;
            },
            XmlTok::Close(a, b, e) => {
                if crate::formula::seq_eq_range(&v, a, b, &name_wb) {
                    return Ok(acc);
                }
                proof {
                    assert(next_pos(i as int, e as int, n as int) == e);
                }
                i = e;
            },
        }
    }
    Err(XlsxError::Xml)
}

/// The resolved path of a root-scope relationship target.
pub open spec fn resolve_root_target(t: Seq<char>) -> Seq<char> {
    "xl/"@ + t
}

/// The resolved path of a sheet-scope relationship target: `../` climbs out
/// of the worksheets directory.
pub open spec fn resolve_sheet_target(t: Seq<char>) -> Seq<char> {
    if t.len() >= 3 && t.subrange(0, 3) == "../"@ {
        "xl/"@ + t.skip(3)
    } else {
        "xl/worksheets/"@ + t
    }
}

fn concat_str(a: &str, b: &str) -> (r: String)
    ensures
        r@ == a@ + b@,
{
    let mut buf: Vec<char> = Vec::new();
    crate::xml::push_str_chars(&mut buf, a);
    crate::xml::push_str_chars(&mut buf, b);
    string_from_chars(&buf)
}

fn resolve_sheet_target_exec(t: &str) -> (r: String)
    ensures
        r@ == resolve_sheet_target(t@),
{
    let tv = chars_vec(t);
    if tv.len() >= 3 && tv[0] == '.' && tv[1] == '.' && tv[2] == '/' {
        proof {
            assert(t@.subrange(0, 3) =~= "../"@) by {
                reveal_strlit("../");
            }
        }
        let mut buf: Vec<char> = Vec::new();
        crate::xml::push_str_chars(&mut buf, "xl/");
        let mut k: usize = 3;
        while k < tv.len()
            invariant
                3 <= k <= tv@.len(),
                tv@ == t@,
                buf@ == "xl/"@ + t@.subrange(3, k as int),
            decreases tv@.len() - k,
        {
            proof {
                assert(t@.subrange(3, k as int + 1) =~= t@.subrange(3, k as int) + seq![
                    t@[k as int]
                ]);
            }
            buf.push(tv[k]);
            k += 1;
        }
        proof {
            assert(t@.subrange(3, t@.len() as int) =~= t@.skip(3));
        }
        string_from_chars(&buf)
    } else {
        proof {
            if t@.len() >= 3 && t@.subrange(0, 3) == "../"@ {
                reveal_strlit("../");
                assert(t@.subrange(0, 3)[0] == '.');
                assert(t@.subrange(0, 3)[1] == '.');
                assert(t@.subrange(0, 3)[2] == '/');
                assert(t@[0] == '.' && t@[1] == '.' && t@[2] == '/');
                assert(false);
            }
        }
        concat_str("xl/worksheets/", t)
    }
}

/// The file name portion of a target path: what follows the last slash.
pub open spec fn after_slash(t: Seq<char>) -> Seq<char>
    decreases t.len(),
{
    if t.len() == 0 {
        Seq::empty()
    } else if t.last() == '/' {
        Seq::empty()
    } else {
        after_slash(t.drop_last()).push(t.last())
    }
}

proof fn lemma_after_slash_from(t: Seq<char>, m: int)
    requires
        0 <= m <= t.len(),
        m == 0 || t[m - 1] == '/',
        forall|j: int| m <= j < t.len() ==> t[j] != '/',
    ensures
        after_slash(t) == t.skip(m),
    decreases t.len() - m,
{
    if m == t.len() {
        if m == 0 {
            assert(t.skip(0) =~= t);
            assert(after_slash(t) =~= t);
        } else {
            assert(t.last() == '/');
            assert(t.skip(m) =~= Seq::<char>::empty());
        }
    } else {
        assert(t.last() != '/');
        lemma_after_slash_from(t.drop_last(), m);
        assert(after_slash(t) == t.drop_last().skip(m).push(t.last()));
        assert(t.drop_last().skip(m).push(t.last()) =~= t.skip(m));
    }
}

/// The file name portion of a target path (after the last slash).
fn after_last_slash(t: &str) -> (r: String)
    ensures
        r@ == after_slash(t@),
{
    let tv = chars_vec(t);
    let mut last: usize = 0;
    let mut k: usize = 0;
    while k < tv.len()
        invariant
            k <= tv@.len(),
            tv@ == t@,
            last <= k,
            last == 0 || t@[last - 1] == '/',
            forall|j: int| last <= j < k ==> t@[j] != '/',
        decreases tv@.len() - k,
    {
        if tv[k] == '/' {
            last = k + 1;
        }
        k += 1;
    }
    proof {
        lemma_after_slash_from(t@, last as int);
        assert(t@.skip(last as int) =~= t@.subrange(last as int, t@.len() as int));
    }
    let sub = crate::xml::copy_range(&tv, last, tv.len());
    string_from_chars(&sub)
}

/// The interned items the parts hold: the shared-strings part parsed, or
/// the empty list when that part is absent.
pub open spec fn sst_items_of(ps: Seq<(Seq<char>, Seq<char>)>) -> Option<Seq<SsiModel>> {
    match assoc_lookup(ps, "xl/sharedStrings.xml"@) {
        Some(st) => parse_sst_from(st, 0, None, Seq::empty()),
        None => Some(Seq::empty()),
    }
}

/// The parts that must be present and parse before any sheet is read.
pub open spec fn front_ok(ps: Seq<(Seq<char>, Seq<char>)>) -> bool {
    &&& assoc_lookup(ps, "xl/workbook.xml"@) matches Some(wt) && parse_wb_from(
        wt,
        0,
        Seq::empty(),
    ) is Some
    &&& assoc_lookup(ps, "xl/_rels/workbook.xml.rels"@) matches Some(rt) && parse_rels_from(
        rt,
        0,
        Seq::empty(),
    ) is Some
    &&& sst_items_of(ps) is Some
}

pub open spec fn skeleton_of(ps: Seq<(Seq<char>, Seq<char>)>) -> Seq<(Seq<char>, Seq<char>)> {
    parse_wb_from(assoc_lookup(ps, "xl/workbook.xml"@)->Some_0, 0, Seq::empty())->Some_0
}

pub open spec fn root_rels_model(ps: Seq<(Seq<char>, Seq<char>)>) -> Seq<RelModel> {
    parse_rels_from(assoc_lookup(ps, "xl/_rels/workbook.xml.rels"@)->Some_0, 0, Seq::empty())->Some_0
}

/// Everything the parts-level read promises, over the parts alone: what an
/// `Ok` workbook holds, which fault each missing or malformed part raises,
/// and — once the front matter parses — exactly which result the sheet
/// table forces, success owed when nothing faults.
pub open spec fn read_post(
    ps: Seq<(Seq<char>, Seq<char>)>,
    with_sheet_read: bool,
    r: Result<Spreadsheet, XlsxError>,
) -> bool {
    &&& match r {
        Ok(book) => {
            &&& crate::shared_string_table::wf(book.shared_string_table)
            &&& (assoc_lookup(ps, "xl/workbook.xml"@) matches Some(wt) && parse_wb_from(
                wt,
                0,
                Seq::empty(),
            ) matches Some(sk) && book.sheets@.len() == sk.len() && (forall|k: int|
                0 <= k < sk.len() ==> (#[trigger] book.sheets@[k]).name@ == sk[k].0
                    && book.sheets@[k].r_id@ == sk[k].1))
            &&& (assoc_lookup(ps, "xl/_rels/workbook.xml.rels"@) matches Some(rt)
                && parse_rels_from(rt, 0, Seq::empty()) == Some(
                rels_view(book.workbook_relationships@),
            ))
            &&& (match assoc_lookup(ps, "xl/sharedStrings.xml"@) {
                Some(st) => parse_sst_from(st, 0, None, Seq::empty()) == Some(
                    items_view(book.shared_string_table.shared_string_item@),
                ),
                None => book.shared_string_table.shared_string_item@.len() == 0,
            })
            &&& book.shared_string_table.regist_count == 0
            &&& (with_sheet_read ==> forall|k: int|
                0 <= k < book.sheets@.len() ==> !((#[trigger] book.sheets@[k]).body matches Some(
                    crate::worksheet::SheetBody::Raw(_),
                )))
        },
        Err(_) => true,
    }
    &&& (assoc_lookup(ps, "xl/workbook.xml"@) is None ==> r == Err::<Spreadsheet, XlsxError>(
        XlsxError::Format,
    ))
    &&& ((assoc_lookup(ps, "xl/workbook.xml"@) matches Some(wt) && parse_wb_from(
        wt,
        0,
        Seq::empty(),
    ) is None) ==> r == Err::<Spreadsheet, XlsxError>(XlsxError::Xml))
    &&& ((assoc_lookup(ps, "xl/workbook.xml"@) matches Some(wt) && parse_wb_from(
        wt,
        0,
        Seq::empty(),
    ) is Some && assoc_lookup(ps, "xl/_rels/workbook.xml.rels"@) is None) ==> r == Err::<
        Spreadsheet,
        XlsxError,
    >(XlsxError::Format))
    &&& ((assoc_lookup(ps, "xl/workbook.xml"@) matches Some(wt) && parse_wb_from(
        wt,
        0,
        Seq::empty(),
    ) is Some && (assoc_lookup(ps, "xl/_rels/workbook.xml.rels"@) matches Some(rt)
        && parse_rels_from(rt, 0, Seq::empty()) is None)) ==> r == Err::<Spreadsheet, XlsxError>(
        XlsxError::Xml,
    ))
    &&& ((assoc_lookup(ps, "xl/workbook.xml"@) matches Some(wt) && parse_wb_from(
        wt,
        0,
        Seq::empty(),
    ) is Some && (assoc_lookup(ps, "xl/_rels/workbook.xml.rels"@) matches Some(rt)
        && parse_rels_from(rt, 0, Seq::empty()) is Some) && (assoc_lookup(
        ps,
        "xl/sharedStrings.xml"@,
    ) matches Some(st) && parse_sst_from(st, 0, None, Seq::empty()) is None)) ==> r == Err::<
        Spreadsheet,
        XlsxError,
    >(XlsxError::Xml))
    &&& (front_ok(ps) ==> {
        let sk = skeleton_of(ps);
        let rl = root_rels_model(ps);
        let items = sst_items_of(ps)->Some_0;
        match sheets_read_fold(ps, rl, sk) {
            Err(e) => r == Err::<Spreadsheet, XlsxError>(e),
            Ok(bs) => if with_sheet_read && (exists|k: int|
                0 <= k < bs.len() && ((#[trigger] bs[k]) matches Some(rm) && materialize_spec(
                    rm,
                    items,
                ) is None)) {
                r == Err::<Spreadsheet, XlsxError>(XlsxError::Xml)
            } else {
                r matches Ok(book) && book.sheets@.len() == sk.len() && (forall|k: int|
                    0 <= k < sk.len() ==> body_matches(
                        bs[k],
                        #[trigger] book.sheets@[k],
                        with_sheet_read,
                        items,
                    ))
            },
        }
    })
}

/// Read a workbook from its container parts. The workbook skeleton and root
/// relationship parts are required; the shared-strings part is optional; a
/// sheet whose relationship id resolves to no cached part is a format
/// fault, while a sheet whose id matches no relationship simply has no
/// linked body. Eager mode materializes every sheet before returning; lazy
/// mode leaves every raw body attached, untouched.
#[verifier::rlimit(100)]
#[verifier::spinoff_prover]
pub fn read_parts(parts: &Vec<(String, String)>, with_sheet_read: bool) -> (r: Result<
    Spreadsheet,
    XlsxError,
>)
    ensures
        read_post(pairs_view(parts@), with_sheet_read, r),
{
    let wt = match assoc_lookup_exec(parts, "xl/workbook.xml") {
        Some(t) => t,
        None => {
            return Err(XlsxError::Format);
        },
    };
    let skeleton = match parse_workbook(wt.as_str()) {
        Ok(sk) => sk,
        Err(e) => {
            return Err(e);
        },
    };
    let rt = match assoc_lookup_exec(parts, "xl/_rels/workbook.xml.rels") {
        Some(t) => t,
        None => {
            return Err(XlsxError::Format);
        },
    };
    let rels = match parse_relationships(rt.as_str()) {
        Ok(rs) => rs,
        Err(e) => {
            return Err(e);
        },
    };
    let mut sst = crate::shared_string_table::SharedStringTable::new();
    match assoc_lookup_exec(parts, "xl/sharedStrings.xml") {
        Some(st) => {
            match sst.set_attributes(st.as_str()) {
                Ok(_) => {
                    proof {
                        assert(items_view(sst.shared_string_item@).skip(0) =~= items_view(
                            sst.shared_string_item@,
                        ));
                    }
                },
                Err(e) => {
                    return Err(e);
                },
            }
        },
        None => {},
    }
    let stylesheet = Stylesheet { raw: assoc_lookup_exec(parts, "xl/styles.xml") };
    let theme_raw: Option<String> = {
        let tgt = crate::reader::first_target_exec_pub(
            &rels,
            "http://schemas.openxmlformats.org/officeDocument/2006/relationships/theme",
        );
        match tgt {
            Some(t) => {
                let path = concat_str("xl/", t.as_str());
                assoc_lookup_exec(parts, path.as_str())
            },
            None => None,
        }
    };
    let theme = Theme { raw: theme_raw };

    let mut sheets: Vec<Sheet> = Vec::new();
    let ghost skv = pairs_view(skeleton@);
    let ghost psv = pairs_view(parts@);
    let ghost rl = rels_view(rels@);
    let ghost items = items_view(sst.shared_string_item@);
    let ghost mut bsg: Seq<Option<RawModel>> = Seq::empty();
    let mut k: usize = 0;
    proof {
        assert(skv.len() == skeleton@.len());
        if sst.shared_string_item@.len() == 0 {
            assert(items =~= Seq::<SsiModel>::empty());
        }
        assert(front_ok(psv));
        assert(skeleton_of(psv) == skv);
        assert(root_rels_model(psv) == rl);
        assert(sst_items_of(psv) == Some(items));
        assert(skv.take(0) =~= Seq::<(Seq<char>, Seq<char>)>::empty());
    }
    while k < skeleton.len()
        invariant
            k <= skeleton@.len(),
            skv == pairs_view(skeleton@),
            skv.len() == skeleton@.len(),
            sheets@.len() == k,
            psv == pairs_view(parts@),
            rl == rels_view(rels@),
            items == items_view(sst.shared_string_item@),
            front_ok(psv),
            skeleton_of(psv) == skv,
            root_rels_model(psv) == rl,
            sst_items_of(psv) == Some(items),
            assoc_lookup(pairs_view(parts@), "xl/workbook.xml"@) is Some,
            assoc_lookup(pairs_view(parts@), "xl/workbook.xml"@) matches Some(wtv)
                && parse_wb_from(wtv, 0, Seq::empty()) is Some,
            assoc_lookup(pairs_view(parts@), "xl/_rels/workbook.xml.rels"@) is Some,
            bsg.len() == k,
            sheets_read_fold(psv, rl, skv.take(k as int)) == Ok::<
                Seq<Option<RawModel>>,
                XlsxError,
            >(bsg),
            forall|j: int|
                0 <= j < k ==> (#[trigger] sheets@[j]).name@ == skv[j].0 && sheets@[j].r_id@
                    == skv[j].1,
            forall|j: int|
                0 <= j < k ==> body_matches(bsg[j], #[trigger] sheets@[j], false, items),
        decreases skeleton@.len() - k,
    {
        proof {
            assert(skv.take(k as int + 1).drop_last() =~= skv.take(k as int));
            assert(skv.take(k as int + 1).last() == skv[k as int]);
            assert(skv[k as int] == (skeleton@[k as int].0@, skeleton@[k as int].1@));
        }
        let name = skeleton[k].0.clone();
        let rid = skeleton[k].1.clone();
        let ghost mut bk: Option<RawModel> = None;
        let body: Option<crate::worksheet::SheetBody> = match crate::relationships::find_relationship_by_id(
            &rels,
            rid.as_str(),
        ) {
            Some(rel) => {
                let path = concat_str("xl/", rel.target.as_str());
                let bodytext = match assoc_lookup_exec(parts, path.as_str()) {
                    Some(t) => t,
                    None => {
                        proof {
                            assert(raw_model_of(psv, rl, skv[k as int].1) == Err::<
                                Option<RawModel>,
                                XlsxError,
                            >(XlsxError::Format));
                            assert(sheets_read_fold(psv, rl, skv.take(k as int + 1)) == Err::<
                                Seq<Option<RawModel>>,
                                XlsxError,
                            >(XlsxError::Format));
                            lemma_sheets_read_fold_prefix_err(
                                psv,
                                rl,
                                skv,
                                k as int + 1,
                                XlsxError::Format,
                            );
                        }
                        return Err(XlsxError::Format);
                    },
                };
                let ghost bodyv = bodytext@;
                let fname = after_last_slash(rel.target.as_str());
                let relspath = {
                    let p1 = concat_str("xl/worksheets/_rels/", fname.as_str());
                    concat_str(p1.as_str(), ".rels")
                };
                proof {
                    assert(relspath@ == "xl/worksheets/_rels/"@ + after_slash(rel@.target)
                        + ".rels"@);
                }
                let sheet_rels: Option<Vec<Relationship>> = match assoc_lookup_exec(
                    parts,
                    relspath.as_str(),
                ) {
                    Some(srt) => match parse_relationships(srt.as_str()) {
                        Ok(srs) => Some(srs),
                        Err(e) => {
                            proof {
                                assert(raw_model_of(psv, rl, skv[k as int].1) == Err::<
                                    Option<RawModel>,
                                    XlsxError,
                                >(XlsxError::Xml));
                                assert(sheets_read_fold(psv, rl, skv.take(k as int + 1)) == Err::<
                                    Seq<Option<RawModel>>,
                                    XlsxError,
                                >(XlsxError::Xml));
                                lemma_sheets_read_fold_prefix_err(
                                    psv,
                                    rl,
                                    skv,
                                    k as int + 1,
                                    XlsxError::Xml,
                                );
                            }
                            return Err(e);
                        },
                    },
                    None => None,
                };
                let mut aux: Vec<(String, String)> = Vec::new();
                proof {
                    assert(aux_view(aux@) =~= Seq::<(Seq<char>, Seq<char>)>::empty());
                }
                match &sheet_rels {
                    Some(srs) => {
                        let ghost srsv = rels_view(srs@);
                        let mut j: usize = 0;
                        proof {
                            assert(srsv.take(0) =~= Seq::<RelModel>::empty());
                        }
                        while j < srs.len()
                            invariant
                                j <= srs@.len(),
                                psv == pairs_view(parts@),
                                srsv == rels_view(srs@),
                                srsv.len() == srs@.len(),
                                aux_view(aux@) == aux_of(psv, srsv.take(j as int)),
                            decreases srs@.len() - j,
                        {
                            proof {
                                assert(srsv.take(j as int + 1).drop_last() =~= srsv.take(
                                    j as int,
                                ));
                                assert(srsv.take(j as int + 1).last() == srsv[j as int]);
                                assert(srsv[j as int] == srs@[j as int]@);
                            }
                            let resolved = resolve_sheet_target_exec(srs[j].target.as_str());
                            let ghost auxpre = aux_view(aux@);
                            match assoc_lookup_exec(parts, resolved.as_str()) {
                                Some(t) => {
                                    aux.push((srs[j].target.clone(), t));
                                    proof {
                                        assert(aux_view(aux@) =~= auxpre + seq![
                                            (srsv[j as int].target, aux@.last().1@),
                                        ]);
                                    }
                                },
                                None => {
                                    proof {
                                        assert(aux_view(aux@) =~= auxpre
                                            + Seq::<(Seq<char>, Seq<char>)>::empty());
                                    }
                                },
                            }
                            j += 1;
                        }
                        proof {
                            assert(srsv.take(srsv.len() as int) =~= srsv);
                        }
                    },
                    None => {},
                }
                let rawws = crate::worksheet::RawWorksheet {
                    body: bodytext,
                    worksheet_relationships: sheet_rels,
                    aux_parts: aux,
                };
                proof {
                    bk = Some(raw_view(rawws));
                    assert(raw_view(rawws).body == bodyv);
                    assert(raw_model_of(psv, rl, skv[k as int].1) == Ok::<
                        Option<RawModel>,
                        XlsxError,
                    >(Some(raw_view(rawws))));
                }
                Some(crate::worksheet::SheetBody::Raw(rawws))
            },
            None => {
                proof {
                    assert(raw_model_of(psv, rl, skv[k as int].1) == Ok::<
                        Option<RawModel>,
                        XlsxError,
                    >(None));
                }
                None
            },
        };
        let sheet = Sheet { name, r_id: rid, sheet_state: String::new(), body };
        sheets.push(sheet);
        proof {
            bsg = bsg.push(bk);
            assert(sheets_read_fold(psv, rl, skv.take(k as int + 1)) == Ok::<
                Seq<Option<RawModel>>,
                XlsxError,
            >(bsg));
            assert(body_matches(bsg[k as int], sheets@[k as int], false, items));
        }
        k += 1;
    }
    proof {
        assert(skv.take(skv.len() as int) =~= skv);
    }
    let mut book = Spreadsheet {
        sheets,
        theme,
        stylesheet,
        shared_string_table: sst,
        workbook_relationships: rels,
    };
    let ghost prebook = book;
    if with_sheet_read {
        match book.read_sheet_collection() {
            Ok(_) => {},
            Err(e) => {
                proof {
                    assert(exists|k0: int|
                        0 <= k0 < prebook.sheets@.len() && #[trigger] sheet_fails(
                            prebook.sheets@[k0],
                            items,
                        ));
                    let k0 = choose|k0: int|
                        0 <= k0 < prebook.sheets@.len() && #[trigger] sheet_fails(
                            prebook.sheets@[k0],
                            items,
                        );
                    assert(body_matches(bsg[k0], prebook.sheets@[k0], false, items));
                    assert(bsg[k0] matches Some(rm) && materialize_spec(rm, items) is None);
                    assert(e == XlsxError::Xml);
                }
                return Err(e);
            },
        }
    }
    proof {
        assert(crate::shared_string_table::wf(book.shared_string_table));
        assert(book.sheets@.len() == skv.len());
        assert forall|j: int|
            0 <= j < skv.len() implies (#[trigger] book.sheets@[j]).name@ == skv[j].0
            && book.sheets@[j].r_id@ == skv[j].1 by {
            assert(prebook.sheets@[j].name@ == skv[j].0);
            assert(prebook.sheets@[j].r_id@ == skv[j].1);
        }
        if with_sheet_read {
            assert forall|j: int|
                0 <= j < book.sheets@.len() implies !((#[trigger] book.sheets@[j]).body
                matches Some(crate::worksheet::SheetBody::Raw(_))) by {
                assert(sheet_done(
                    prebook.sheets@[j],
                    book.sheets@[j],
                    items_view(prebook.shared_string_table.shared_string_item@),
                ));
            }
            assert forall|j: int|
                0 <= j < skv.len() implies body_matches(
                bsg[j],
                #[trigger] book.sheets@[j],
                true,
                items,
            ) by {
                assert(body_matches(bsg[j], prebook.sheets@[j], false, items));
                assert(sheet_done(prebook.sheets@[j], book.sheets@[j], items));
            }
            assert forall|j: int|
                0 <= j < bsg.len() implies !((#[trigger] bsg[j]) matches Some(rm)
                && materialize_spec(rm, items) is None) by {
                assert(body_matches(bsg[j], prebook.sheets@[j], false, items));
                assert(sheet_done(prebook.sheets@[j], book.sheets@[j], items));
            }
        }
    }
    Ok(book)
}

} // verus!
