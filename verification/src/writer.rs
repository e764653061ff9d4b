use vstd::prelude::*;

use crate::XlsxError;
use crate::cell_value::ValueModel;
use crate::formula::num_str;
use crate::formula::num_str_exec;
use crate::shared_string_table::SharedStringTable;
use crate::shared_string_table::SsiModel;
use crate::shared_string_table::cell_item;
use crate::shared_string_table::items_view;
use crate::shared_string_table::register_spec;
use crate::shared_string_table::wf;
use crate::spreadsheet::Spreadsheet;
use crate::util::string_from_chars;
use crate::worksheet::Cell;
use crate::worksheet::CellModel;
use crate::xml::end_tag_text;
use crate::xml::escape;
use crate::xml::start_tag_text;
use crate::xml::write_end_tag;
use crate::xml::write_start_tag;
use crate::xml::write_text_node;

verus! {

// ---------------------------------------------------------------------------
// The write path: serialize the in-memory model back into container parts.
// Shared resources are written once per workbook; each sheet body references
// interned strings by index, registering its content at write time.
// ---------------------------------------------------------------------------

pub open spec fn no_attrs() -> Seq<(Seq<char>, Seq<char>)> {
    Seq::empty()
}

/// The markup of one interned item.
pub open spec fn si_xml(m: SsiModel) -> Seq<char> {
    start_tag_text("si"@, no_attrs(), false) + (match m.text {
        Some(t) => start_tag_text("t"@, no_attrs(), false) + escape(t) + end_tag_text("t"@),
        None => Seq::<char>::empty(),
    }) + (match m.rich {
        Some(rs) => runs_xml(rs),
        None => Seq::<char>::empty(),
    }) + end_tag_text("si"@)
}

pub open spec fn runs_xml(rs: Seq<Seq<char>>) -> Seq<char>
    decreases rs.len(),
{
    if rs.len() == 0 {
        Seq::empty()
    } else {
        run_xml(rs[0]) + runs_xml(rs.drop_first())
    }
}

pub open spec fn run_xml(r: Seq<char>) -> Seq<char> {
    start_tag_text("r"@, no_attrs(), false) + start_tag_text("t"@, no_attrs(), false) + escape(r)
        + end_tag_text("t"@) + end_tag_text("r"@)
}

pub open spec fn items_xml(items: Seq<SsiModel>) -> Seq<char>
    decreases items.len(),
{
    if items.len() == 0 {
        Seq::empty()
    } else {
        si_xml(items[0]) + items_xml(items.drop_first())
    }
}

/// The markup of the whole shared-strings part body: the declared total
/// registration count and unique item count, then each item in insertion
/// order.
pub open spec fn sst_xml(items: Seq<SsiModel>, count: int, unique: int) -> Seq<char> {
    start_tag_text(
        "sst"@,
        seq![
            ("xmlns"@, "http://schemas.openxmlformats.org/spreadsheetml/2006/main"@),
            ("count"@, num_str(count)),
            ("uniqueCount"@, num_str(unique)),
        ],
        false,
    ) + items_xml(items) + end_tag_text("sst"@)
}

proof fn lemma_runs_xml_take(rs: Seq<Seq<char>>, i: int)
    requires
        0 <= i < rs.len(),
    ensures
        runs_xml(rs.take(i + 1)) == runs_xml(rs.take(i)) + run_xml(rs[i]),
    decreases i,
{
    if i == 0 {
        assert(rs.take(1).drop_first() =~= Seq::<Seq<char>>::empty());
        assert(rs.take(0) =~= Seq::<Seq<char>>::empty());
        assert(rs.take(1)[0] == rs[0]);
        assert(runs_xml(rs.take(1)) == run_xml(rs[0]) + runs_xml(Seq::<Seq<char>>::empty()));
        assert(runs_xml(rs.take(1)) =~= runs_xml(rs.take(0)) + run_xml(rs[0]));
    } else {
        lemma_runs_xml_take(rs.drop_first(), i - 1);
        assert(rs.take(i + 1).drop_first() =~= rs.drop_first().take(i));
        assert(rs.take(i).drop_first() =~= rs.drop_first().take(i - 1));
        assert(rs.take(i + 1)[0] == rs[0]);
        assert(rs.take(i)[0] == rs[0]);
        assert(rs.drop_first()[i - 1] == rs[i]);
        assert(run_xml(rs[0]) + (runs_xml(rs.drop_first().take(i - 1)) + run_xml(rs[i])) =~= (
        run_xml(rs[0]) + runs_xml(rs.drop_first().take(i - 1))) + run_xml(rs[i]));
    }
}

proof fn lemma_items_xml_take(items: Seq<SsiModel>, i: int)
    requires
        0 <= i < items.len(),
    ensures
        items_xml(items.take(i + 1)) == items_xml(items.take(i)) + si_xml(items[i]),
    decreases i,
{
    if i == 0 {
        assert(items.take(1).drop_first() =~= Seq::<SsiModel>::empty());
        assert(items.take(0) =~= Seq::<SsiModel>::empty());
        assert(items.take(1)[0] == items[0]);
        assert(items_xml(items.take(1)) == si_xml(items[0]) + items_xml(Seq::<SsiModel>::empty()));
        assert(items_xml(items.take(1)) =~= items_xml(items.take(0)) + si_xml(items[0]));
    } else {
        lemma_items_xml_take(items.drop_first(), i - 1);
        assert(items.take(i + 1).drop_first() =~= items.drop_first().take(i));
        assert(items.take(i).drop_first() =~= items.drop_first().take(i - 1));
        assert(items.take(i + 1)[0] == items[0]);
        assert(items.take(i)[0] == items[0]);
        assert(items.drop_first()[i - 1] == items[i]);
        assert(si_xml(items[0]) + (items_xml(items.drop_first().take(i - 1)) + si_xml(items[i]))
            =~= (si_xml(items[0]) + items_xml(items.drop_first().take(i - 1))) + si_xml(items[i]));
    }
}

/// What a run list holds once the parser has walked it: the runs already
/// collected, extended by every run the segment spells.
pub open spec fn runs_base(ro: Option<Seq<Seq<char>>>) -> Seq<Seq<char>> {
    match ro {
        Some(rs) => rs,
        None => Seq::empty(),
    }
}

#[verifier::rlimit(100)]
#[verifier::spinoff_prover]
proof fn lemma_runs_segment(
    s: Seq<char>,
    i: int,
    rrest: Seq<Seq<char>>,
    tx: Option<Seq<char>>,
    ro: Option<Seq<Seq<char>>>,
    acc: Seq<SsiModel>,
)
    requires
        0 <= i,
        i + runs_xml(rrest).len() < s.len(),
        s.len() <= usize::MAX,
        s.subrange(i, i + runs_xml(rrest).len()) == runs_xml(rrest),
    ensures
        crate::reader::parse_sst_from(
            s,
            i,
            Some(crate::reader::CurSi { text: tx, pend: None, runs: ro, sub: 0 }),
            acc,
        ) == crate::reader::parse_sst_from(
            s,
            i + runs_xml(rrest).len(),
            Some(
                crate::reader::CurSi {
                    text: tx,
                    pend: None,
                    runs: if rrest.len() == 0 {
                        ro
                    } else {
                        Some(runs_base(ro) + rrest)
                    },
                    sub: 0,
                },
            ),
            acc,
        ),
    decreases rrest.len(),
{
    reveal_strlit("r");
    reveal_strlit("t");
    reveal_strlit("si");
    reveal_strlit("sst");
    let n = s.len() as int;
    if rrest.len() == 0 {
        assert(runs_xml(rrest) =~= Seq::<char>::empty());
    } else {
        let r0 = rrest[0];
        let e = escape(r0);
        let rx = run_xml(r0);
        let rest1 = runs_xml(rrest.drop_first());
        assert(runs_xml(rrest) == rx + rest1);
        let tr = start_tag_text("r"@, no_attrs(), false);
        let tt = start_tag_text("t"@, no_attrs(), false);
        let ct = end_tag_text("t"@);
        let cr = end_tag_text("r"@);
        assert(crate::xml::attrs_text(no_attrs()) =~= Seq::<char>::empty());
        assert(tr.len() == 3 && tt.len() == 3 && ct.len() == 4 && cr.len() == 4);
        assert(rx == tr + tt + escape(r0) + ct + cr);
        let el = rx.len();
        assert(el == 14 + e.len());
        assert(s.subrange(i, i + runs_xml(rrest).len()).len() == runs_xml(rrest).len());
        assert(crate::xml::is_name_char('r') && crate::xml::is_name_char('t'));
        assert forall|x: int| 0 <= x < el implies s[i + x] == rx[x] by {
            assert(s.subrange(i, i + runs_xml(rrest).len())[x] == s[i + x]);
            assert((rx + rest1)[x] == rx[x]);
        }
        assert(s.subrange(i, i + 3) =~= tr) by {
            assert forall|x: int| 0 <= x < 3 implies s.subrange(i, i + 3)[x] == tr[x] by {
                assert(s[i + x] == rx[x]);
                assert(rx[x] == tr[x]);
            }
        }
        crate::xml::lemma_scan_tag_open_plain(s, i, "r"@);
        assert("r"@[0] == 'r' && "t"@[0] == 't');
        assert("r"@ != "si"@ && "r"@ != "t"@ && "r"@ != "sst"@);
        assert(s.subrange(i + 3, i + 6) =~= tt) by {
            assert forall|x: int| 0 <= x < 3 implies s.subrange(i + 3, i + 6)[x] == tt[x] by {
                assert(s[i + 3 + x] == rx[3 + x]);
                assert(rx[3 + x] == tt[x]);
            }
        }
        crate::xml::lemma_scan_tag_open_plain(s, i + 3, "t"@);
        assert("t"@ != "si"@ && "t"@ != "r"@ && "t"@ != "sst"@);
        assert(crate::reader::parse_sst_from(
            s,
            i,
            Some(crate::reader::CurSi { text: tx, pend: None, runs: ro, sub: 0 }),
            acc,
        ) == crate::reader::parse_sst_from(
            s,
            i + 3,
            Some(crate::reader::CurSi { text: tx, pend: None, runs: Some(runs_base(ro)), sub: 2 }),
            acc,
        ));
        crate::xml::lemma_escape_len(r0);
        if e.len() > 0 {
            assert(s.subrange(i + 6, i + 6 + e.len()) =~= e) by {
                assert forall|x: int| 0 <= x < e.len() implies s.subrange(
                    i + 6,
                    i + 6 + e.len(),
                )[x] == e[x] by {
                    assert(s[i + 6 + x] == rx[6 + x]);
                    assert(rx[6 + x] == e[x]);
                }
            }
            assert(s[i + 6 + e.len()] == '<') by {
                assert(s[i + 6 + e.len()] == rx[6 + e.len() as int]);
                assert(rx[6 + e.len() as int] == ct[0]);
            }
            crate::xml::lemma_scan_text(s, i + 6, r0);
        } else {
            assert(r0 =~= Seq::<char>::empty());
        }
        assert(s.subrange(i + 6 + e.len(), i + 10 + e.len()) =~= ct) by {
            assert forall|x: int| 0 <= x < 4 implies s.subrange(
                i + 6 + e.len(),
                i + 10 + e.len(),
            )[x] == ct[x] by {
                assert(s[i + 6 + e.len() + x] == rx[6 + e.len() + x]);
                assert(rx[6 + e.len() + x] == ct[x]);
            }
        }
        crate::xml::lemma_scan_tag_close(s, i + 6 + e.len(), "t"@);
        assert(s.subrange(i + 10 + e.len(), i + 14 + e.len()) =~= cr) by {
            assert forall|x: int| 0 <= x < 4 implies s.subrange(
                i + 10 + e.len(),
                i + 14 + e.len(),
            )[x] == cr[x] by {
                assert(s[i + 10 + e.len() + x] == rx[10 + e.len() + x]);
                assert(rx[10 + e.len() + x] == cr[x]);
            }
        }
        crate::xml::lemma_scan_tag_close(s, i + 10 + e.len(), "r"@);
        assert(s.subrange(i + el, i + runs_xml(rrest).len()) =~= rest1) by {
            assert forall|x: int| 0 <= x < rest1.len() implies s.subrange(
                i + el,
                i + runs_xml(rrest).len(),
            )[x] == rest1[x] by {
                assert(s.subrange(i, i + runs_xml(rrest).len())[el + x] == s[i + el + x]);
                assert((rx + rest1)[el + x] == rest1[x]);
            }
        }
        let base = runs_base(ro);
        let cs2 = crate::reader::CurSi { text: tx, pend: None, runs: Some(base), sub: 2 };
        let cs3 = crate::reader::CurSi { text: tx, pend: None, runs: Some(base), sub: 3 };
        let cst = crate::reader::CurSi { text: tx, pend: Some(r0), runs: Some(base), sub: 3 };
        let cs2b = crate::reader::CurSi {
            text: tx,
            pend: None,
            runs: Some(base.push(r0)),
            sub: 2,
        };
        let cs0b = crate::reader::CurSi {
            text: tx,
            pend: None,
            runs: Some(base.push(r0)),
            sub: 0,
        };
        assert(crate::reader::parse_sst_from(s, i + 3, Some(cs2), acc)
            == crate::reader::parse_sst_from(s, i + 6, Some(cs3), acc));
        if e.len() > 0 {
            assert(crate::reader::parse_sst_from(s, i + 6, Some(cs3), acc)
                == crate::reader::parse_sst_from(s, i + 6 + e.len(), Some(cst), acc));
            assert(crate::reader::parse_sst_from(s, i + 6 + e.len(), Some(cst), acc)
                == crate::reader::parse_sst_from(s, i + 10 + e.len(), Some(cs2b), acc));
        } else {
            assert(base.push(Seq::empty()) =~= base.push(r0));
            assert(crate::reader::parse_sst_from(s, i + 6, Some(cs3), acc)
                == crate::reader::parse_sst_from(s, i + 10, Some(cs2b), acc));
        }
        assert(crate::reader::parse_sst_from(s, i + 10 + e.len(), Some(cs2b), acc)
            == crate::reader::parse_sst_from(s, i + 14 + e.len(), Some(cs0b), acc));
        lemma_runs_segment(
            s,
            i + el,
            rrest.drop_first(),
            tx,
            Some(runs_base(ro).push(r0)),
            acc,
        );
        assert(runs_base(Some(base.push(r0))) == base.push(r0));
        assert(runs_base(ro).push(r0) + rrest.drop_first() =~= runs_base(ro) + rrest);
        if rrest.drop_first().len() == 0 {
            assert(runs_base(ro).push(r0) =~= runs_base(ro) + rrest);
        }
    }
}

#[verifier::rlimit(100)]
#[verifier::spinoff_prover]
proof fn lemma_text_segment(s: Seq<char>, p1: int, t: Seq<char>, acc: Seq<SsiModel>)
    requires
        0 <= p1,
        p1 + 7 + escape(t).len() < s.len(),
        s.len() <= usize::MAX,
        s.subrange(p1, p1 + 7 + escape(t).len()) == start_tag_text("t"@, no_attrs(), false)
            + escape(t) + end_tag_text("t"@),
    ensures
        crate::reader::parse_sst_from(
            s,
            p1,
            Some(crate::reader::CurSi { text: None, pend: None, runs: None, sub: 0 }),
            acc,
        ) == crate::reader::parse_sst_from(
            s,
            p1 + 7 + escape(t).len(),
            Some(crate::reader::CurSi { text: Some(t), pend: None, runs: None, sub: 0 }),
            acc,
        ),
{
    reveal_strlit("si");
    reveal_strlit("t");
    reveal_strlit("r");
    reveal_strlit("sst");
    let tt = start_tag_text("t"@, no_attrs(), false);
    let ct = end_tag_text("t"@);
    let e = escape(t);
    let seg = tt + e + ct;
    assert(crate::xml::attrs_text(no_attrs()) =~= Seq::<char>::empty());
    assert(tt.len() == 3 && ct.len() == 4);
    assert(crate::xml::is_name_char('t'));
    let c0 = crate::reader::CurSi { text: None, pend: None, runs: None, sub: 0 };
    assert(s.subrange(p1, p1 + 3) =~= tt) by {
        assert forall|x: int| 0 <= x < 3 implies s.subrange(p1, p1 + 3)[x] == tt[x] by {
            assert(s.subrange(p1, p1 + 7 + e.len())[x] == s[p1 + x]);
            assert(seg[x] == tt[x]);
        }
    }
    crate::xml::lemma_scan_tag_open_plain(s, p1, "t"@);
    assert("t"@ != "si"@ && "t"@ != "r"@ && "t"@ != "sst"@) by {
        assert("t"@[0] == 't' && "r"@[0] == 'r');
    }
    let cs1 = crate::reader::CurSi { text: Some(Seq::empty()), pend: None, runs: None, sub: 1 };
    let cs1t = crate::reader::CurSi { text: Some(t), pend: None, runs: None, sub: 1 };
    assert(crate::reader::parse_sst_from(s, p1, Some(c0), acc) == crate::reader::parse_sst_from(
        s,
        p1 + 3,
        Some(cs1),
        acc,
    ));
    crate::xml::lemma_escape_len(t);
    if e.len() > 0 {
        assert(s.subrange(p1 + 3, p1 + 3 + e.len()) =~= e) by {
            assert forall|x: int| 0 <= x < e.len() implies s.subrange(
                p1 + 3,
                p1 + 3 + e.len(),
            )[x] == e[x] by {
                assert(s.subrange(p1, p1 + 7 + e.len())[3 + x] == s[p1 + 3 + x]);
                assert(seg[3 + x] == e[x]);
            }
        }
        assert(s[p1 + 3 + e.len()] == '<') by {
            assert(s.subrange(p1, p1 + 7 + e.len())[3 + e.len() as int] == s[p1 + 3 + e.len()]);
            assert(seg[3 + e.len() as int] == ct[0]);
        }
        crate::xml::lemma_scan_text(s, p1 + 3, t);
        assert(crate::reader::parse_sst_from(s, p1 + 3, Some(cs1), acc)
            == crate::reader::parse_sst_from(s, p1 + 3 + e.len(), Some(cs1t), acc));
    } else {
        assert(t =~= Seq::<char>::empty());
        assert(cs1 == cs1t);
    }
    assert(s.subrange(p1 + 3 + e.len(), p1 + 7 + e.len()) =~= ct) by {
        assert forall|x: int| 0 <= x < 4 implies s.subrange(
            p1 + 3 + e.len(),
            p1 + 7 + e.len(),
        )[x] == ct[x] by {
            assert(s.subrange(p1, p1 + 7 + e.len())[3 + e.len() + x] == s[p1 + 3 + e.len() + x]);
            assert(seg[3 + e.len() + x] == ct[x]);
        }
    }
    crate::xml::lemma_scan_tag_close(s, p1 + 3 + e.len(), "t"@);
    assert(crate::reader::parse_sst_from(s, p1 + 3 + e.len(), Some(cs1t), acc)
        == crate::reader::parse_sst_from(
        s,
        p1 + 7 + e.len(),
        Some(crate::reader::CurSi { text: Some(t), pend: None, runs: None, sub: 0 }),
        acc,
    ));
}

#[verifier::rlimit(100)]
#[verifier::spinoff_prover]
proof fn lemma_si_segment(s: Seq<char>, i: int, m: SsiModel, acc: Seq<SsiModel>)
    requires
        0 <= i,
        i + si_xml(m).len() < s.len(),
        s.len() <= usize::MAX,
        s.subrange(i, i + si_xml(m).len()) == si_xml(m),
        m.rich matches Some(rs) ==> rs.len() > 0,
    ensures
        crate::reader::parse_sst_from(s, i, None, acc) == crate::reader::parse_sst_from(
            s,
            i + si_xml(m).len(),
            None,
            acc.push(m),
        ),
{
    reveal_strlit("si");
    reveal_strlit("t");
    reveal_strlit("r");
    reveal_strlit("sst");
    let tsi = start_tag_text("si"@, no_attrs(), false);
    let csi = end_tag_text("si"@);
    let tt = start_tag_text("t"@, no_attrs(), false);
    let ct = end_tag_text("t"@);
    let tp = match m.text {
        Some(t) => tt + escape(t) + ct,
        None => Seq::<char>::empty(),
    };
    let rp = match m.rich {
        Some(rs) => runs_xml(rs),
        None => Seq::<char>::empty(),
    };
    assert(crate::xml::attrs_text(no_attrs()) =~= Seq::<char>::empty());
    assert(tsi.len() == 4 && csi.len() == 5 && tt.len() == 3 && ct.len() == 4);
    assert(si_xml(m) == tsi + tp + rp + csi);
    let sl = si_xml(m).len() as int;
    let tpl = tp.len() as int;
    let rpl = rp.len() as int;
    assert(sl == 9 + tpl + rpl);
    assert forall|j: int| 0 <= j < 2 implies crate::xml::is_name_char("si"@[j]) by {
        if j == 0 {
        } else {
            assert(j == 1);
        }
    }
    assert(crate::xml::is_name_char('t'));
    assert forall|x: int| 0 <= x < sl implies s[i + x] == si_xml(m)[x] by {
        assert(s.subrange(i, i + sl)[x] == s[i + x]);
    }
    assert(s.subrange(i, i + 4) =~= tsi) by {
        assert forall|x: int| 0 <= x < 4 implies s.subrange(i, i + 4)[x] == tsi[x] by {
            assert(s.subrange(i, i + sl)[x] == s[i + x]);
            assert(si_xml(m)[x] == tsi[x]);
        }
    }
    crate::xml::lemma_scan_tag_open_plain(s, i, "si"@);
    let c0 = crate::reader::CurSi { text: None, pend: None, runs: None, sub: 0 };
    assert(crate::reader::parse_sst_from(s, i, None, acc) == crate::reader::parse_sst_from(
        s,
        i + 4,
        Some(c0),
        acc,
    ));
    let p1 = i + 4;
    let c1 = match m.text {
        Some(t) => crate::reader::CurSi { text: Some(t), pend: None, runs: None, sub: 0 },
        None => c0,
    };
    match m.text {
        Some(t) => {
            let e = escape(t);
            assert(tpl == 7 + e.len());
            assert(s.subrange(p1, p1 + tpl) =~= tp) by {
                assert forall|x: int| 0 <= x < tpl implies s.subrange(p1, p1 + tpl)[x]
                    == tp[x] by {
                    assert(s[p1 + x] == si_xml(m)[4 + x]);
                    assert(si_xml(m)[4 + x] == tp[x]);
                }
            }
            lemma_text_segment(s, p1, t, acc);
        },
        None => {
            assert(tp =~= Seq::<char>::empty());
        },
    }
    let p2 = p1 + tpl;
    let c2 = match m.rich {
        Some(rs) => crate::reader::CurSi { text: c1.text, pend: None, runs: Some(rs), sub: 0 },
        None => c1,
    };
    match m.rich {
        Some(rs) => {
            assert(s.subrange(p2, p2 + rpl) =~= rp) by {
                assert forall|x: int| 0 <= x < rpl implies s.subrange(p2, p2 + rpl)[x]
                    == rp[x] by {
                    assert(s[p2 + x] == si_xml(m)[4 + tpl + x]);
                    assert(si_xml(m)[4 + tpl + x] == rp[x]);
                }
            }
            lemma_runs_segment(s, p2, rs, c1.text, None, acc);
            assert(runs_base(None) + rs =~= rs);
            assert(crate::reader::parse_sst_from(s, p2, Some(c1), acc)
                == crate::reader::parse_sst_from(s, p2 + rpl, Some(c2), acc));
        },
        None => {
            assert(rp =~= Seq::<char>::empty());
        },
    }
    let p3 = p2 + rpl;
    assert(s.subrange(p3, p3 + 5) =~= csi) by {
        assert forall|x: int| 0 <= x < 5 implies s.subrange(p3, p3 + 5)[x] == csi[x] by {
            assert(s[p3 + x] == si_xml(m)[4 + tpl + rpl + x]);
            assert(si_xml(m)[4 + tpl + rpl + x] == csi[x]);
        }
    }
    crate::xml::lemma_scan_tag_close(s, p3, "si"@);
    assert("si"@ != "sst"@ && "si"@ != "t"@ && "si"@ != "r"@);
    assert((SsiModel { text: c2.text, rich: c2.runs }) == m);
    assert(crate::reader::parse_sst_from(s, p3, Some(c2), acc) == crate::reader::parse_sst_from(
        s,
        p3 + 5,
        None,
        acc.push(m),
    ));
}

#[verifier::rlimit(100)]
#[verifier::spinoff_prover]
proof fn lemma_parse_sst_items(s: Seq<char>, i: int, rest: Seq<SsiModel>, acc: Seq<SsiModel>)
    requires
        0 <= i <= s.len(),
        s.len() <= usize::MAX,
        s.subrange(i, s.len() as int) == items_xml(rest) + end_tag_text("sst"@),
        forall|k: int|
            0 <= k < rest.len() ==> ((#[trigger] rest[k]).rich matches Some(rs) ==> rs.len() > 0),
    ensures
        crate::reader::parse_sst_from(s, i, None, acc) == Some(acc + rest),
    decreases rest.len(),
{
    reveal_strlit("sst");
    reveal_strlit("si");
    let cc = end_tag_text("sst"@);
    let n = s.len() as int;
    assert("sst"@.len() == 3);
    assert(cc.len() == 6);
    assert forall|j: int| 0 <= j < 3 implies crate::xml::is_name_char("sst"@[j]) by {
        if j == 0 {
        } else if j == 1 {
        } else {
            assert(j == 2);
        }
    }
    if rest.len() == 0 {
        assert(items_xml(rest) =~= Seq::<char>::empty());
        assert(s.subrange(i, n).len() == n - i);
        assert(s.subrange(i, n) == items_xml(rest) + end_tag_text("sst"@));
        assert(n - i == 6);
        assert(s.subrange(i, i + 6) =~= cc) by {
            assert forall|x: int| 0 <= x < 6 implies s.subrange(i, i + 6)[x] == cc[x] by {
                assert(s.subrange(i, n)[x] == s[i + x]);
                assert((items_xml(rest) + cc)[x] == cc[x]);
            }
        }
        crate::xml::lemma_scan_tag_close(s, i, "sst"@);
        assert(acc + rest =~= acc);
    } else {
        let m = rest[0];
        let tag = si_xml(m);
        let rest1 = items_xml(rest.drop_first());
        assert(items_xml(rest) == tag + rest1);
        let el = tag.len() as int;
        assert(s.subrange(i, n).len() == n - i);
        assert(s.subrange(i, n) == items_xml(rest) + end_tag_text("sst"@));
        assert((items_xml(rest) + end_tag_text("sst"@)).len() == el + rest1.len() + cc.len());
        assert(n - i == el + rest1.len() + 6);
        assert(i + el < n);
        assert(s.subrange(i, n) =~= tag + (rest1 + cc)) by {
            assert forall|x: int| 0 <= x < n - i implies s.subrange(i, n)[x] == (tag + (rest1
                + cc))[x] by {
                assert(s.subrange(i, n)[x] == ((tag + rest1) + cc)[x]);
                if x < el {
                    assert(((tag + rest1) + cc)[x] == (tag + rest1)[x]);
                    assert((tag + rest1)[x] == tag[x]);
                } else if x < el + rest1.len() {
                    assert(((tag + rest1) + cc)[x] == (tag + rest1)[x]);
                    assert((tag + rest1)[x] == rest1[x - el]);
                    assert((rest1 + cc)[x - el] == rest1[x - el]);
                } else {
                    assert(((tag + rest1) + cc)[x] == cc[x - el - rest1.len()]);
                    assert((rest1 + cc)[x - el] == cc[x - el - rest1.len()]);
                }
            }
        }
        assert(s.subrange(i, i + el) =~= tag) by {
            assert forall|x: int| 0 <= x < el implies s.subrange(i, i + el)[x] == tag[x] by {
                assert(s.subrange(i, n)[x] == s[i + x]);
                assert((tag + (rest1 + cc))[x] == tag[x]);
            }
        }
        assert(m.rich matches Some(rs) ==> rs.len() > 0);
        lemma_si_segment(s, i, m, acc);
        assert(s.subrange(i + el, n) =~= rest1 + cc) by {
            assert forall|x: int| 0 <= x < n - i - el implies s.subrange(i + el, n)[x] == (rest1
                + cc)[x] by {
                assert(s.subrange(i, n)[el + x] == s[i + el + x]);
                assert((tag + (rest1 + cc))[el + x] == (rest1 + cc)[x]);
            }
        }
        lemma_parse_sst_items(s, i + el, rest.drop_first(), acc.push(m));
        assert(acc.push(m) + rest.drop_first() =~= acc + rest);
    }
}

/// Law: the shared-strings part — the declaration, the counted `sst`
/// element and each interned item — reads back as exactly the items it was
/// written from, for every item whose run list, if present, is non-empty.
#[verifier::rlimit(100)]
#[verifier::spinoff_prover]
pub proof fn lemma_sst_part_round_trip(items: Seq<SsiModel>, count: int, unique: int)
    requires
        decl_text().len() + sst_xml(items, count, unique).len() <= usize::MAX,
        forall|k: int|
            0 <= k < items.len() ==> ((#[trigger] items[k]).rich matches Some(rs) ==> rs.len()
                > 0),
    ensures
        crate::reader::parse_sst_from(
            decl_text() + sst_xml(items, count, unique),
            0,
            None,
            Seq::empty(),
        ) == Some(items),
{
    let s = decl_text() + sst_xml(items, count, unique);
    let d = decl_text();
    reveal_strlit("<?xml version=\"1.0\" encoding=\"UTF-8\" standalone=\"yes\"?>\n");
    reveal_strlit("sst");
    reveal_strlit("si");
    reveal_strlit("xmlns");
    reveal_strlit("count");
    reveal_strlit("uniqueCount");
    assert(d.len() == 56);
    let attrs = seq![
        ("xmlns"@, "http://schemas.openxmlformats.org/spreadsheetml/2006/main"@),
        ("count"@, num_str(count)),
        ("uniqueCount"@, num_str(unique)),
    ];
    let w1 = start_tag_text("sst"@, attrs, false);
    let at = crate::xml::attrs_text(attrs);
    let ix = items_xml(items);
    let cc = end_tag_text("sst"@);
    let n = s.len() as int;
    assert("sst"@.len() == 3);
    assert(w1.len() == 5 + at.len());
    assert(sst_xml(items, count, unique) == w1 + ix + cc);
    assert forall|j: int| 0 <= j < 3 implies crate::xml::is_name_char("sst"@[j]) by {
        if j == 0 {
        } else if j == 1 {
        } else {
            assert(j == 2);
        }
    }
    assert forall|j: int| 0 <= j < 5 implies crate::xml::is_name_char("xmlns"@[j])
        && crate::xml::is_name_char("count"@[j]) by {
        if j == 0 {
        } else if j == 1 {
        } else if j == 2 {
        } else if j == 3 {
        } else {
            assert(j == 4);
        }
    }
    assert forall|j: int| 0 <= j < 11 implies crate::xml::is_name_char("uniqueCount"@[j]) by {
        if j == 0 {
        } else if j == 1 {
        } else if j == 2 {
        } else if j == 3 {
        } else if j == 4 {
        } else if j == 5 {
        } else if j == 6 {
        } else if j == 7 {
        } else if j == 8 {
        } else if j == 9 {
        } else {
            assert(j == 10);
        }
    }
    crate::xml::lemma_attrs_text_three_safe(
        "xmlns"@,
        "http://schemas.openxmlformats.org/spreadsheetml/2006/main"@,
        "count"@,
        num_str(count),
        "uniqueCount"@,
        num_str(unique),
    );
    assert forall|j: int| 0 <= j < 54 implies #[trigger] s[j] != '>' by {
        assert(s[j] == d[j]);
        assert(d[54] == '>' && d[55] == '\n');
        if j < 54 {
            assert(d[j] != '>') by {
                assert(forall|k: int| 0 <= k < 56 ==> d[k] == decl_text()[k]);
            }
        }
    }
    assert(s[54] == '>');
    crate::xml::lemma_quote_end_is(s, 0, 54, '>');
    assert(s[0] == '<' && s[1] == '?');
    assert(crate::xml::scan_tok(s, 0) == crate::xml::XmlTok::Decl(55usize));
    assert(crate::formula::next_pos(0, 55, n) == 55);
    assert(s[55] == '\n');
    assert(s[56] == w1[0]);
    assert(s[56] == '<');
    crate::xml::lemma_quote_end_is(s, 55, 56, '<');
    assert(crate::xml::scan_tok(s, 55) == crate::xml::XmlTok::Text(55usize, 56usize));
    assert(crate::formula::next_pos(55, 56, n) == 56);
    let wl = w1.len() as int;
    assert(s.subrange(56, 56 + wl) =~= w1) by {
        assert forall|x: int| 0 <= x < wl implies s.subrange(56, 56 + wl)[x] == w1[x] by {
            assert(s[56 + x] == sst_xml(items, count, unique)[x]);
            assert(sst_xml(items, count, unique)[x] == w1[x]);
        }
    }
    crate::xml::lemma_scan_tag_open_attrs(s, 56, "sst"@, attrs);
    assert("sst"@ != "si"@ && "sst"@ != "t"@ && "sst"@ != "r"@) by {
        reveal_strlit("t");
        reveal_strlit("r");
    }
    let p = 56 + wl;
    assert(crate::formula::next_pos(56, p, n) == p);
    assert(s.subrange(p, n) =~= ix + cc) by {
        assert forall|x: int| 0 <= x < n - p implies s.subrange(p, n)[x] == (ix + cc)[x] by {
            assert(s[p + x] == sst_xml(items, count, unique)[wl + x]);
            assert(sst_xml(items, count, unique)[wl + x] == (ix + cc)[x]);
        }
    }
    lemma_parse_sst_items(s, p, items, Seq::empty());
    assert(Seq::<SsiModel>::empty() + items =~= items);
    let nc: Option<crate::reader::CurSi> = None;
    assert(crate::reader::parse_sst_from(s, 0, nc, Seq::empty())
        == crate::reader::parse_sst_from(s, 55, nc, Seq::empty()));
    assert(crate::reader::parse_sst_from(s, 55, nc, Seq::empty())
        == crate::reader::parse_sst_from(s, 56, nc, Seq::empty()));
    assert(crate::reader::parse_sst_from(s, 56, nc, Seq::empty())
        == crate::reader::parse_sst_from(s, p, nc, Seq::empty()));
}

fn write_empty_tag_pair(out: &mut Vec<char>, name: &str, text: &str)
    ensures
        final(out)@ == old(out)@ + start_tag_text(name@, no_attrs(), false) + escape(text@)
            + end_tag_text(name@),
{
    let attrs: Vec<(&str, &str)> = Vec::new();
    proof {
        assert(crate::xml::attrs_view(attrs@) =~= no_attrs());
    }
    write_start_tag(out, name, &attrs, false);
    write_text_node(out, text);
    write_end_tag(out, name);
}

impl SharedStringTable {
    /// Serialize the table: the `sst` element with its declared counts, then
    /// every interned item in insertion order.
    #[verifier::rlimit(100)]
    #[verifier::spinoff_prover]
    pub fn write_to(&self, out: &mut Vec<char>)
        requires
            self.regist_count <= usize::MAX,
        ensures
            final(out)@ == old(out)@ + sst_xml(
                items_view(self.shared_string_item@),
                self.regist_count as int,
                self.shared_string_item@.len() as int,
            ),
    {
        let ghost iv = items_view(self.shared_string_item@);
        let count_s = string_from_chars(&num_str_exec(self.regist_count as u64));
        let unique_s = string_from_chars(&num_str_exec(self.shared_string_item.len() as u64));
        let mut attrs: Vec<(&str, &str)> = Vec::new();
        attrs.push(("xmlns", "http://schemas.openxmlformats.org/spreadsheetml/2006/main"));
        attrs.push(("count", count_s.as_str()));
        attrs.push(("uniqueCount", unique_s.as_str()));
        proof {
            assert(crate::xml::attrs_view(attrs@) =~= seq![
                ("xmlns"@, "http://schemas.openxmlformats.org/spreadsheetml/2006/main"@),
                ("count"@, num_str(self.regist_count as int)),
                ("uniqueCount"@, num_str(self.shared_string_item@.len() as int)),
            ]);
        }
        write_start_tag(out, "sst", &attrs, false);
        let ghost head = out@;
        let mut i: usize = 0;
        proof {
            assert(iv.take(0) =~= Seq::<SsiModel>::empty());
            assert(out@ =~= head + items_xml(iv.take(0)));
        }
        while i < self.shared_string_item.len()
            invariant
                i <= self.shared_string_item@.len(),
                iv == items_view(self.shared_string_item@),
                iv.len() == self.shared_string_item@.len(),
                out@ == head + items_xml(iv.take(i as int)),
            decreases self.shared_string_item@.len() - i,
        {
            let item = &self.shared_string_item[i];
            let ghost pre = out@;
            let attrs0: Vec<(&str, &str)> = Vec::new();
            proof {
                assert(crate::xml::attrs_view(attrs0@) =~= no_attrs());
            }
            write_start_tag(out, "si", &attrs0, false);
            match &item.text {
                Some(t) => {
                    write_empty_tag_pair(out, "t", t.value.as_str());
                },
                None => {},
            }
            match &item.rich_text {
                Some(rt) => {
                    let ghost rv = crate::rich_text::runs_view(*rt);
                    let ghost mid = out@;
                    let mut k: usize = 0;
                    proof {
                        assert(rv.take(0) =~= Seq::<Seq<char>>::empty());
                        assert(out@ =~= mid + runs_xml(rv.take(0)));
                    }
                    while k < rt.runs.len()
                        invariant
                            k <= rt.runs@.len(),
                            rv == crate::rich_text::runs_view(*rt),
                            rv.len() == rt.runs@.len(),
                            out@ == mid + runs_xml(rv.take(k as int)),
                        decreases rt.runs@.len() - k,
                    {
                        let attrs1: Vec<(&str, &str)> = Vec::new();
                        proof {
                            assert(crate::xml::attrs_view(attrs1@) =~= no_attrs());
                        }
                        write_start_tag(out, "r", &attrs1, false);
                        write_empty_tag_pair(out, "t", rt.runs[k].value.as_str());
                        write_end_tag(out, "r");
                        proof {
                            assert(rv[k as int] == rt.runs@[k as int].value@);
                            lemma_runs_xml_take(rv, k as int);
                            assert(out@ =~= mid + (runs_xml(rv.take(k as int)) + run_xml(
                                rv[k as int],
                            )));
                            assert(out@ =~= mid + runs_xml(rv.take(k as int + 1)));
                        }
                        k += 1;
                    }
                    proof {
                        assert(rv.take(rv.len() as int) =~= rv);
                    }
                },
                None => {},
            }
            write_end_tag(out, "si");
            proof {
                assert(iv[i as int] == self.shared_string_item@[i as int]@);
                lemma_items_xml_take(iv, i as int);
                assert(out@ =~= pre + si_xml(iv[i as int]));
                assert(out@ =~= head + (items_xml(iv.take(i as int)) + si_xml(iv[i as int])));
                assert(out@ =~= head + items_xml(iv.take(i as int + 1)));
            }
            i += 1;
        }
        proof {
            assert(iv.take(iv.len() as int) =~= iv);
        }
        write_end_tag(out, "sst");
        proof {
            assert(out@ =~= old(out)@ + sst_xml(
                iv,
                self.regist_count as int,
                self.shared_string_item@.len() as int,
            ));
        }
    }
}

// ---------------------------------------------------------------------------
// Cell and sheet serialization
// ---------------------------------------------------------------------------

/// The typed value a cell model resolves to, mirroring the cache-then-raw
/// discipline.
pub open spec fn typed_cm(c: CellModel) -> Option<ValueModel> {
    match c.value {
        Some(v) => Some(v),
        None => match c.raw {
            Some(r) => Some(crate::cell_value::guess_spec(r)),
            None => None,
        },
    }
}

/// Whether a cell's content goes through the shared string table.
pub open spec fn needs_shared(c: CellModel) -> bool {
    (typed_cm(c) matches Some(v) && v is VString) || c.rich is Some
}

/// The interned item a cell registers, at the model level.
pub open spec fn cm_item(c: CellModel) -> SsiModel {
    SsiModel {
        text: match typed_cm(c) {
            Some(ValueModel::VString(s)) => Some(s),
            _ => None,
        },
        rich: c.rich,
    }
}

/// The textual value piece a non-shared cell writes.
pub open spec fn plain_value_text(c: CellModel) -> Option<Seq<char>> {
    match typed_cm(c) {
        Some(ValueModel::VNumeric(s)) => Some(s),
        Some(ValueModel::VBool(b)) => Some(
            if b {
                "true"@
            } else {
                "false"@
            },
        ),
        Some(ValueModel::VNull) => Some("NULL"@),
        _ => None,
    }
}

/// The markup one cell writes, given the shared index it used (if any).
pub open spec fn cell_xml_text(c: CellModel, si: Option<int>) -> Seq<char> {
    let attrs = match si {
        Some(_) => seq![("r"@, c.coord), ("t"@, "s"@)],
        None => seq![("r"@, c.coord)],
    };
    let fpiece = match c.formula {
        Some(f) => start_tag_text("f"@, no_attrs(), false) + escape(f) + end_tag_text("f"@),
        None => Seq::<char>::empty(),
    };
    let vpiece = match si {
        Some(idx) => start_tag_text("v"@, no_attrs(), false) + num_str(idx) + end_tag_text("v"@),
        None => match plain_value_text(c) {
            Some(t) => start_tag_text("v"@, no_attrs(), false) + escape(t) + end_tag_text("v"@),
            None => Seq::<char>::empty(),
        },
    };
    start_tag_text("c"@, attrs, false) + fpiece + vpiece + end_tag_text("c"@)
}

/// What one cell contributes: its markup, the table contents after it, and
/// whether it registered.
pub open spec fn cell_step(c: CellModel, items: Seq<SsiModel>) -> (Seq<char>, Seq<SsiModel>, int) {
    if needs_shared(c) {
        let (items2, idx) = register_spec(items, cm_item(c));
        (cell_xml_text(c, Some(idx as int)), items2, 1)
    } else {
        (cell_xml_text(c, None), items, 0)
    }
}

/// The markup of a cell run, threading the shared string table through each
/// registration left to right, with the registration count it adds.
pub open spec fn cells_fold(cells: Seq<CellModel>, items: Seq<SsiModel>) -> (
    Seq<char>,
    Seq<SsiModel>,
    int,
)
    decreases cells.len(),
{
    if cells.len() == 0 {
        (Seq::empty(), items, 0)
    } else {
        let (m0, it0, d0) = cells_fold(cells.drop_last(), items);
        let (mc, itc, dc) = cell_step(cells.last(), it0);
        (m0 + mc, itc, d0 + dc)
    }
}

/// Write one cell, registering shared content in the table. The markup and
/// the table's evolution are pinned exactly: shared content registers via
/// the dedup rule, anything else leaves the table untouched.
#[verifier::rlimit(100)]
#[verifier::spinoff_prover]
pub fn write_cell(cell: &Cell, sst: &mut SharedStringTable, out: &mut Vec<char>)
    requires
        wf(*old(sst)),
        old(sst).regist_count < usize::MAX,
    ensures
        wf(*final(sst)),
        final(sst).regist_count <= old(sst).regist_count + 1,
        final(sst).regist_count >= old(sst).regist_count,
        if needs_shared(cell@) {
            let (items2, idx) = register_spec(
                items_view(old(sst).shared_string_item@),
                cm_item(cell@),
            );
            items_view(final(sst).shared_string_item@) == items2 && final(out)@ == old(out)@
                + cell_xml_text(cell@, Some(idx as int)) && final(sst).regist_count == old(
                sst,
            ).regist_count + 1
        } else {
            final(sst).shared_string_item@ == old(sst).shared_string_item@ && final(out)@ == old(
                out,
            )@ + cell_xml_text(cell@, None) && final(sst).regist_count == old(sst).regist_count
        },
{
    let tv = cell.cell_value.resolve_typed();
    let is_string = match &tv {
        Some(crate::cell_value::Value::String(_)) => true,
        _ => false,
    };
    let shared = is_string || cell.cell_value.rich_text.is_some();
    proof {
        assert(shared == needs_shared(cell@));
    }
    if shared {
        let idx = sst.set_cell(&cell.cell_value);
        proof {
            assert(cell_item(cell.cell_value) == cm_item(cell@));
        }
        let mut attrs: Vec<(&str, &str)> = Vec::new();
        attrs.push(("r", cell.coordinate.as_str()));
        attrs.push(("t", "s"));
        proof {
            assert(crate::xml::attrs_view(attrs@) =~= seq![("r"@, cell@.coord), ("t"@, "s"@)]);
        }
        write_start_tag(out, "c", &attrs, false);
        match &cell.cell_value.formula {
            Some(f) => {
                write_empty_tag_pair(out, "f", f.as_str());
            },
            None => {},
        }
        let idx_s = string_from_chars(&num_str_exec(idx as u64));
        let attrs0: Vec<(&str, &str)> = Vec::new();
        proof {
            assert(crate::xml::attrs_view(attrs0@) =~= no_attrs());
        }
        write_start_tag(out, "v", &attrs0, false);
        crate::xml::push_str_chars(out, idx_s.as_str());
        write_end_tag(out, "v");
        write_end_tag(out, "c");
        proof {
            assert(out@ =~= old(out)@ + cell_xml_text(cell@, Some(idx as int)));
        }
    } else {
        let mut attrs: Vec<(&str, &str)> = Vec::new();
        attrs.push(("r", cell.coordinate.as_str()));
        proof {
            assert(crate::xml::attrs_view(attrs@) =~= seq![("r"@, cell@.coord)]);
        }
        write_start_tag(out, "c", &attrs, false);
        match &cell.cell_value.formula {
            Some(f) => {
                write_empty_tag_pair(out, "f", f.as_str());
            },
            None => {},
        }
        let vtext: Option<String> = match tv {
            Some(crate::cell_value::Value::Numeric(s)) => Some(s),
            Some(crate::cell_value::Value::Bool(b)) => Some(
                if b {
                    "true".to_owned()
                } else {
                    "false".to_owned()
                },
            ),
            Some(crate::cell_value::Value::Null) => Some("NULL".to_owned()),
            _ => None,
        };
        match &vtext {
            Some(t) => {
                write_empty_tag_pair(out, "v", t.as_str());
                proof {
                    assert(plain_value_text(cell@) == Some(t@));
                }
            },
            None => {
                proof {
                    assert(plain_value_text(cell@) is None);
                }
            },
        }
        write_end_tag(out, "c");
        proof {
            assert(out@ =~= old(out)@ + cell_xml_text(cell@, None));
        }
    }
}

/// The markup of a whole sheet body part around its cell run.
pub open spec fn worksheet_xml_text(cells_markup: Seq<char>) -> Seq<char> {
    start_tag_text(
        "worksheet"@,
        seq![("xmlns"@, "http://schemas.openxmlformats.org/spreadsheetml/2006/main"@)],
        false,
    ) + start_tag_text("sheetData"@, no_attrs(), false) + start_tag_text("row"@, no_attrs(), false)
        + cells_markup + end_tag_text("row"@) + end_tag_text("sheetData"@) + end_tag_text(
        "worksheet"@,
    )
}

/// Write a sheet body part: the worksheet element holding every cell in one
/// row container, with exactly the cell run's markup. The shared string
/// table evolves by the registration fold, so it only ever grows at the end
/// and indices already handed out stay stable.
#[verifier::rlimit(100)]
#[verifier::spinoff_prover]
pub fn write_worksheet_part(cells: &Vec<Cell>, sst: &mut SharedStringTable, out: &mut Vec<char>)
    requires
        wf(*old(sst)),
        old(sst).regist_count + cells@.len() <= usize::MAX,
    ensures
        wf(*final(sst)),
        old(sst).regist_count <= final(sst).regist_count <= old(sst).regist_count
            + cells@.len(),
        items_view(final(sst).shared_string_item@).take(
            old(sst).shared_string_item@.len() as int,
        ) == items_view(old(sst).shared_string_item@),
        final(sst).shared_string_item@.len() >= old(sst).shared_string_item@.len(),
        ({
            let (m, items2, d) = cells_fold(
                crate::worksheet::cells_view(cells@),
                items_view(old(sst).shared_string_item@),
            );
            final(out)@ == old(out)@ + worksheet_xml_text(m) && items_view(
                final(sst).shared_string_item@,
            ) == items2 && final(sst).regist_count == old(sst).regist_count + d
        }),
{
    let ghost cv = crate::worksheet::cells_view(cells@);
    let ghost itemsb = items_view(old(sst).shared_string_item@);
    let mut attrs: Vec<(&str, &str)> = Vec::new();
    attrs.push(("xmlns", "http://schemas.openxmlformats.org/spreadsheetml/2006/main"));
    proof {
        assert(crate::xml::attrs_view(attrs@) =~= seq![
            ("xmlns"@, "http://schemas.openxmlformats.org/spreadsheetml/2006/main"@),
        ]);
    }
    write_start_tag(out, "worksheet", &attrs, false);
    let attrs0: Vec<(&str, &str)> = Vec::new();
    proof {
        assert(crate::xml::attrs_view(attrs0@) =~= no_attrs());
    }
    write_start_tag(out, "sheetData", &attrs0, false);
    let attrs1: Vec<(&str, &str)> = Vec::new();
    proof {
        assert(crate::xml::attrs_view(attrs1@) =~= no_attrs());
    }
    write_start_tag(out, "row", &attrs1, false);
    let ghost head = out@;
    let mut i: usize = 0;
    proof {
        assert(cv.take(0) =~= Seq::<CellModel>::empty());
        assert(out@ =~= head + cells_fold(cv.take(0), itemsb).0);
    }
    while i < cells.len()
        invariant
            i <= cells@.len(),
            cv == crate::worksheet::cells_view(cells@),
            cv.len() == cells@.len(),
            itemsb == items_view(old(sst).shared_string_item@),
            wf(*sst),
            old(sst).regist_count <= sst.regist_count <= old(sst).regist_count + i,
            sst.regist_count + (cells@.len() - i) <= usize::MAX,
            items_view(sst.shared_string_item@).take(old(sst).shared_string_item@.len() as int)
                == items_view(old(sst).shared_string_item@),
            sst.shared_string_item@.len() >= old(sst).shared_string_item@.len(),
            ({
                let (m, it, d) = cells_fold(cv.take(i as int), itemsb);
                out@ == head + m && items_view(sst.shared_string_item@) == it && sst.regist_count
                    == old(sst).regist_count + d
            }),
        decreases cells@.len() - i,
    {
        let ghost items0 = items_view(sst.shared_string_item@);
        let ghost pre = out@;
        write_cell(&cells[i], sst, out);
        proof {
            let itemsn = items_view(sst.shared_string_item@);
            if needs_shared(cells@[i as int]@) {
                let (items2, idx) = register_spec(items0, cm_item(cells@[i as int]@));
                assert(itemsn == items2);
                if !crate::shared_string_table::built_map(items0).contains_key(
                    crate::shared_string_table::item_hash(cm_item(cells@[i as int]@)),
                ) {
                    assert(itemsn =~= items0.push(cm_item(cells@[i as int]@)));
                    assert(itemsn.take(items0.len() as int) =~= items0);
                }
            }
            assert(itemsn.take(old(sst).shared_string_item@.len() as int) =~= items_view(
                old(sst).shared_string_item@,
            ));
            assert(cv.take(i as int + 1).drop_last() =~= cv.take(i as int));
            assert(cv.take(i as int + 1).last() == cv[i as int]);
            assert(cv[i as int] == cells@[i as int]@);
            let (m0, it0, d0) = cells_fold(cv.take(i as int), itemsb);
            let (mc, itc, dc) = cell_step(cv[i as int], it0);
            assert(out@ =~= head + (m0 + mc));
        }
        i += 1;
    }
    proof {
        assert(cv.take(cv.len() as int) =~= cv);
    }
    write_end_tag(out, "row");
    write_end_tag(out, "sheetData");
    write_end_tag(out, "worksheet");
}

// ---------------------------------------------------------------------------
// Workbook skeleton and relationship parts
// ---------------------------------------------------------------------------

/// The markup of the sheet list entries.
pub open spec fn sheets_xml(entries: Seq<(Seq<char>, Seq<char>)>) -> Seq<char>
    decreases entries.len(),
{
    if entries.len() == 0 {
        Seq::empty()
    } else {
        sheet_entry_xml(entries[0]) + sheets_xml(entries.drop_first())
    }
}

pub open spec fn sheet_entry_xml(e: (Seq<char>, Seq<char>)) -> Seq<char> {
    start_tag_text("sheet"@, seq![("name"@, e.0), ("r:id"@, e.1)], true)
}

/// The markup of the workbook skeleton part body.
pub open spec fn workbook_xml(entries: Seq<(Seq<char>, Seq<char>)>) -> Seq<char> {
    start_tag_text("workbook"@, no_attrs(), false) + start_tag_text("sheets"@, no_attrs(), false)
        + sheets_xml(entries) + end_tag_text("sheets"@) + end_tag_text("workbook"@)
}

proof fn lemma_sheets_xml_take(entries: Seq<(Seq<char>, Seq<char>)>, i: int)
    requires
        0 <= i < entries.len(),
    ensures
        sheets_xml(entries.take(i + 1)) == sheets_xml(entries.take(i)) + sheet_entry_xml(
            entries[i],
        ),
    decreases i,
{
    if i == 0 {
        assert(entries.take(1).drop_first() =~= Seq::<(Seq<char>, Seq<char>)>::empty());
        assert(entries.take(0) =~= Seq::<(Seq<char>, Seq<char>)>::empty());
        assert(entries.take(1)[0] == entries[0]);
        assert(sheets_xml(entries.take(1)) == sheet_entry_xml(entries[0]) + sheets_xml(
            Seq::<(Seq<char>, Seq<char>)>::empty(),
        ));
        assert(sheets_xml(entries.take(1)) =~= sheets_xml(entries.take(0)) + sheet_entry_xml(
            entries[0],
        ));
    } else {
        lemma_sheets_xml_take(entries.drop_first(), i - 1);
        assert(entries.take(i + 1).drop_first() =~= entries.drop_first().take(i));
        assert(entries.take(i).drop_first() =~= entries.drop_first().take(i - 1));
        assert(entries.take(i + 1)[0] == entries[0]);
        assert(entries.take(i)[0] == entries[0]);
        assert(entries.drop_first()[i - 1] == entries[i]);
        assert(sheet_entry_xml(entries[0]) + (sheets_xml(entries.drop_first().take(i - 1))
            + sheet_entry_xml(entries[i])) =~= (sheet_entry_xml(entries[0]) + sheets_xml(
            entries.drop_first().take(i - 1),
        )) + sheet_entry_xml(entries[i]));
    }
}

/// The sheet-list view of a workbook: each sheet's display name and
/// relationship id, in order.
pub open spec fn sheet_entries(sheets: Seq<crate::worksheet::Sheet>) -> Seq<
    (Seq<char>, Seq<char>),
> {
    sheets.map_values(|s: crate::worksheet::Sheet| (s.name@, s.r_id@))
}

/// Write the workbook skeleton part body.
pub fn write_workbook_part(sheets: &Vec<crate::worksheet::Sheet>, out: &mut Vec<char>)
    ensures
        final(out)@ == old(out)@ + workbook_xml(sheet_entries(sheets@)),
{
    let ghost entries = sheet_entries(sheets@);
    let attrs0: Vec<(&str, &str)> = Vec::new();
    proof {
        assert(crate::xml::attrs_view(attrs0@) =~= no_attrs());
    }
    write_start_tag(out, "workbook", &attrs0, false);
    let attrs1: Vec<(&str, &str)> = Vec::new();
    proof {
        assert(crate::xml::attrs_view(attrs1@) =~= no_attrs());
    }
    write_start_tag(out, "sheets", &attrs1, false);
    let ghost head = out@;
    let mut i: usize = 0;
    proof {
        assert(entries.take(0) =~= Seq::<(Seq<char>, Seq<char>)>::empty());
        assert(out@ =~= head + sheets_xml(entries.take(0)));
    }
    while i < sheets.len()
        invariant
            i <= sheets@.len(),
            entries == sheet_entries(sheets@),
            entries.len() == sheets@.len(),
            out@ == head + sheets_xml(entries.take(i as int)),
        decreases sheets@.len() - i,
    {
        let mut attrs: Vec<(&str, &str)> = Vec::new();
        attrs.push(("name", sheets[i].name.as_str()));
        attrs.push(("r:id", sheets[i].r_id.as_str()));
        proof {
            assert(entries[i as int] == (sheets@[i as int].name@, sheets@[i as int].r_id@));
            assert(crate::xml::attrs_view(attrs@) =~= seq![
                ("name"@, entries[i as int].0),
                ("r:id"@, entries[i as int].1),
            ]);
        }
        let ghost pre = out@;
        write_start_tag(out, "sheet", &attrs, true);
        proof {
            lemma_sheets_xml_take(entries, i as int);
            assert(out@ =~= head + (sheets_xml(entries.take(i as int)) + sheet_entry_xml(
                entries[i as int],
            )));
            assert(out@ =~= head + sheets_xml(entries.take(i as int + 1)));
        }
        i += 1;
    }
    proof {
        assert(entries.take(entries.len() as int) =~= entries);
    }
    write_end_tag(out, "sheets");
    write_end_tag(out, "workbook");
    proof {
        assert(out@ =~= old(out)@ + workbook_xml(entries));
    }
}

#[verifier::rlimit(100)]
#[verifier::spinoff_prover]
proof fn lemma_parse_wb_entries(
    s: Seq<char>,
    i: int,
    rest: Seq<(Seq<char>, Seq<char>)>,
    acc: Seq<(Seq<char>, Seq<char>)>,
)
    requires
        0 <= i <= s.len(),
        s.len() <= usize::MAX,
        s.subrange(i, s.len() as int) == sheets_xml(rest) + end_tag_text("sheets"@)
            + end_tag_text("workbook"@),
    ensures
        crate::reader::parse_wb_from(s, i, acc) == Some(acc + rest),
    decreases rest.len(),
{
    reveal_strlit("sheets");
    reveal_strlit("workbook");
    reveal_strlit("sheet");
    reveal_strlit("name");
    reveal_strlit("r:id");
    let c2 = end_tag_text("sheets"@);
    let c1 = end_tag_text("workbook"@);
    let n = s.len() as int;
    assert("sheets"@.len() == 6);
    assert("workbook"@.len() == 8);
    assert(c2.len() == 9);
    assert(c1.len() == 11);
    assert forall|j: int| 0 <= j < 6 implies crate::xml::is_name_char("sheets"@[j]) by {
        if j == 0 {
        } else if j == 1 {
        } else if j == 2 {
        } else if j == 3 {
        } else if j == 4 {
        } else {
            assert(j == 5);
        }
    }
    assert forall|j: int| 0 <= j < 8 implies crate::xml::is_name_char("workbook"@[j]) by {
        if j == 0 {
        } else if j == 1 {
        } else if j == 2 {
        } else if j == 3 {
        } else if j == 4 {
        } else if j == 5 {
        } else if j == 6 {
        } else {
            assert(j == 7);
        }
    }
    if rest.len() == 0 {
        assert(sheets_xml(rest) =~= Seq::<char>::empty());
        assert(s.subrange(i, n).len() == n - i);
        assert(s.subrange(i, n) == sheets_xml(rest) + end_tag_text("sheets"@) + end_tag_text(
            "workbook"@,
        ));
        assert((sheets_xml(rest) + end_tag_text("sheets"@) + end_tag_text("workbook"@)).len()
            == sheets_xml(rest).len() + c2.len() + c1.len());
        assert(n - i == 20);
        assert(s.subrange(i, i + 9) =~= c2) by {
            assert forall|x: int| 0 <= x < 9 implies s.subrange(i, i + 9)[x] == c2[x] by {
                assert(s.subrange(i, n)[x] == s[i + x]);
                assert((sheets_xml(rest) + c2 + c1)[x] == c2[x]);
            }
        }
        crate::xml::lemma_scan_tag_close(s, i, "sheets"@);
        assert(s.subrange(i + 9, i + 20) =~= c1) by {
            assert forall|x: int| 0 <= x < 11 implies s.subrange(i + 9, i + 20)[x] == c1[x] by {
                assert(s.subrange(i, n)[9 + x] == s[i + 9 + x]);
                assert((sheets_xml(rest) + c2 + c1)[9 + x] == c1[x]);
            }
        }
        crate::xml::lemma_scan_tag_close(s, i + 9, "workbook"@);
        assert("sheets"@ != "workbook"@);
        assert(crate::formula::next_pos(i, i + 9, n) == i + 9);
        assert(crate::reader::parse_wb_from(s, i + 9, acc) == Some(acc));
        assert(acc + rest =~= acc);
    } else {
        let e0 = rest[0];
        let attrs = seq![("name"@, e0.0), ("r:id"@, e0.1)];
        let tag = start_tag_text("sheet"@, attrs, true);
        let at = crate::xml::attrs_text(attrs);
        assert forall|j: int| 0 <= j < 5 implies crate::xml::is_name_char("sheet"@[j]) by {
            if j == 0 {
            } else if j == 1 {
            } else if j == 2 {
            } else if j == 3 {
            } else {
                assert(j == 4);
            }
        }
        assert forall|j: int| 0 <= j < 4 implies crate::xml::is_name_char("name"@[j]) && crate::xml::is_name_char(
            "r:id"@[j],
        ) by {
            if j == 0 {
            } else if j == 1 {
            } else if j == 2 {
            } else {
                assert(j == 3);
            }
        }
        crate::xml::lemma_attrs_text_two_safe("name"@, e0.0, "r:id"@, e0.1);
        let rest1 = sheets_xml(rest.drop_first());
        assert(sheets_xml(rest) == sheet_entry_xml(e0) + rest1);
        assert(sheet_entry_xml(e0) == tag);
        let el = tag.len();
        assert(el == 8 + at.len());
        assert(s.subrange(i, n).len() == n - i);
        assert(s.subrange(i, n) == sheets_xml(rest) + end_tag_text("sheets"@) + end_tag_text(
            "workbook"@,
        ));
        assert((sheets_xml(rest) + end_tag_text("sheets"@) + end_tag_text("workbook"@)).len()
            == el + rest1.len() + c2.len() + c1.len());
        assert(n - i == el + rest1.len() + 20);
        assert(i + el <= n);
        assert(s.subrange(i, n) =~= tag + (rest1 + c2 + c1)) by {
            assert forall|x: int| 0 <= x < n - i implies s.subrange(i, n)[x] == (tag + (rest1
                + c2 + c1))[x] by {
                assert(s.subrange(i, n)[x] == ((tag + rest1) + c2 + c1)[x]);
                if x < el {
                    assert(((tag + rest1) + c2 + c1)[x] == (tag + rest1)[x]);
                    assert((tag + rest1)[x] == tag[x]);
                } else if x < el + rest1.len() {
                    assert(((tag + rest1) + c2 + c1)[x] == (tag + rest1)[x]);
                    assert((tag + rest1)[x] == rest1[x - el]);
                    assert((rest1 + c2 + c1)[x - el] == rest1[x - el]);
                } else if x < el + rest1.len() + 9 {
                    assert(((tag + rest1) + c2 + c1)[x] == c2[x - el - rest1.len()]);
                    assert((rest1 + c2 + c1)[x - el] == c2[x - el - rest1.len()]);
                } else {
                    assert(((tag + rest1) + c2 + c1)[x] == c1[x - el - rest1.len() - 9]);
                    assert((rest1 + c2 + c1)[x - el] == c1[x - el - rest1.len() - 9]);
                }
            }
        }
        assert(s.subrange(i, i + el) =~= tag) by {
            assert forall|x: int| 0 <= x < el implies s.subrange(i, i + el)[x] == tag[x] by {
                assert(s.subrange(i, n)[x] == s[i + x]);
                assert((tag + (rest1 + c2 + c1))[x] == tag[x]);
            }
        }
        crate::xml::lemma_scan_tag_empty(s, i, "sheet"@, attrs);
        let b = i + 6;
        let g = b + at.len();
        assert("name"@[0] == 'n' && "r:id"@[0] == 'r');
        assert("name"@ != "r:id"@);
        crate::xml::lemma_attr_val_two(s, b, g, "name"@, e0.0, "r:id"@, e0.1);
        crate::xml::lemma_escape_unescape(e0.0);
        crate::xml::lemma_escape_unescape(e0.1);
        assert(crate::worksheet::attr_or_empty(s, b, g, "name"@) == e0.0);
        assert(crate::worksheet::attr_or_empty(s, b, g, "r:id"@) == e0.1);
        assert(g + 2 == i + el);
        assert(s.subrange(g + 2, n) =~= rest1 + c2 + c1) by {
            assert forall|x: int| 0 <= x < n - g - 2 implies s.subrange(g + 2, n)[x] == (rest1
                + c2 + c1)[x] by {
                assert(s.subrange(i, n)[el + x] == s[i + el + x]);
                assert((tag + (rest1 + c2 + c1))[el + x] == (rest1 + c2 + c1)[x]);
            }
        }
        lemma_parse_wb_entries(s, g + 2, rest.drop_first(), acc.push((e0.0, e0.1)));
        assert(crate::formula::next_pos(i, g + 2, n) == g + 2);
        assert(crate::reader::parse_wb_from(s, i, acc) == crate::reader::parse_wb_from(
            s,
            g + 2,
            acc.push((e0.0, e0.1)),
        ));
        assert((e0.0, e0.1) == e0);
        assert(acc.push(e0) + rest.drop_first() =~= acc + rest);
    }
}

/// Law: the workbook skeleton part — the declaration line and the sheet
/// list — reads back as exactly the entries it was written from.
#[verifier::rlimit(100)]
#[verifier::spinoff_prover]
pub proof fn lemma_workbook_part_round_trip(entries: Seq<(Seq<char>, Seq<char>)>)
    requires
        decl_text().len() + workbook_xml(entries).len() <= usize::MAX,
    ensures
        crate::reader::parse_wb_from(decl_text() + workbook_xml(entries), 0, Seq::empty())
            == Some(entries),
{
    let s = decl_text() + workbook_xml(entries);
    let d = decl_text();
    reveal_strlit("<?xml version=\"1.0\" encoding=\"UTF-8\" standalone=\"yes\"?>\n");
    reveal_strlit("workbook");
    reveal_strlit("sheets");
    reveal_strlit("sheet");
    assert(d.len() == 56);
    let w1 = start_tag_text("workbook"@, no_attrs(), false);
    let w2 = start_tag_text("sheets"@, no_attrs(), false);
    let sx = sheets_xml(entries);
    let c2 = end_tag_text("sheets"@);
    let c1 = end_tag_text("workbook"@);
    let n = s.len() as int;
    assert(crate::xml::attrs_text(no_attrs()) =~= Seq::<char>::empty());
    assert(w1.len() == 10 && w2.len() == 8 && c2.len() == 9 && c1.len() == 11);
    assert(workbook_xml(entries) == w1 + w2 + sx + c2 + c1);
    assert forall|j: int| 0 <= j < 6 implies crate::xml::is_name_char("sheets"@[j]) by {
        if j == 0 {
        } else if j == 1 {
        } else if j == 2 {
        } else if j == 3 {
        } else if j == 4 {
        } else {
            assert(j == 5);
        }
    }
    assert forall|j: int| 0 <= j < 8 implies crate::xml::is_name_char("workbook"@[j]) by {
        if j == 0 {
        } else if j == 1 {
        } else if j == 2 {
        } else if j == 3 {
        } else if j == 4 {
        } else if j == 5 {
        } else if j == 6 {
        } else {
            assert(j == 7);
        }
    }
    assert forall|j: int| 0 <= j < 54 implies #[trigger] s[j] != '>' by {
        assert(s[j] == d[j]);
        assert(d[54] == '>' && d[55] == '\n');
        if j < 54 {
            assert(d[j] != '>') by {
                assert(forall|k: int| 0 <= k < 56 ==> d[k] == decl_text()[k]);
            }
        }
    }
    assert(s[54] == '>');
    crate::xml::lemma_quote_end_is(s, 0, 54, '>');
    assert(s[0] == '<' && s[1] == '?');
    assert(crate::xml::scan_tok(s, 0) == crate::xml::XmlTok::Decl(55usize));
    assert(crate::formula::next_pos(0, 55, n) == 55);
    assert(s[55] == '\n');
    assert(s[56] == w1[0]);
    assert(s[56] == '<');
    crate::xml::lemma_quote_end_is(s, 55, 56, '<');
    assert(crate::xml::scan_tok(s, 55) == crate::xml::XmlTok::Text(55usize, 56usize));
    assert(crate::formula::next_pos(55, 56, n) == 56);
    assert(s.subrange(56, 66) =~= w1) by {
        assert forall|x: int| 0 <= x < 10 implies s.subrange(56, 66)[x] == w1[x] by {
            assert(s[56 + x] == workbook_xml(entries)[x]);
            assert(workbook_xml(entries)[x] == w1[x]);
        }
    }
    crate::xml::lemma_scan_tag_open_plain(s, 56, "workbook"@);
    assert("workbook"@ != "sheet"@);
    assert(crate::formula::next_pos(56, 66, n) == 66);
    assert(s.subrange(66, 74) =~= w2) by {
        assert forall|x: int| 0 <= x < 8 implies s.subrange(66, 74)[x] == w2[x] by {
            assert(s[66 + x] == workbook_xml(entries)[10 + x]);
            assert(workbook_xml(entries)[10 + x] == w2[x]);
        }
    }
    crate::xml::lemma_scan_tag_open_plain(s, 66, "sheets"@);
    assert("sheets"@ != "sheet"@);
    assert(crate::formula::next_pos(66, 74, n) == 74);
    assert(s.subrange(74, n) =~= sx + c2 + c1) by {
        assert forall|x: int| 0 <= x < n - 74 implies s.subrange(74, n)[x] == (sx + c2 + c1)[x] by {
            assert(s[74 + x] == workbook_xml(entries)[18 + x]);
            assert(workbook_xml(entries)[18 + x] == (sx + c2 + c1)[x]);
        }
    }
    lemma_parse_wb_entries(s, 74, entries, Seq::empty());
    assert(Seq::<(Seq<char>, Seq<char>)>::empty() + entries =~= entries);
    let acc0 = Seq::<(Seq<char>, Seq<char>)>::empty();
    assert(crate::reader::parse_wb_from(s, 0, acc0) == crate::reader::parse_wb_from(s, 55, acc0));
    assert(crate::reader::parse_wb_from(s, 55, acc0) == crate::reader::parse_wb_from(s, 56, acc0));
    assert(crate::reader::parse_wb_from(s, 56, acc0) == crate::reader::parse_wb_from(s, 66, acc0));
    assert(crate::reader::parse_wb_from(s, 66, acc0) == crate::reader::parse_wb_from(s, 74, acc0));
}

/// The markup of one relationship row.
pub open spec fn rel_entry_xml(e: (Seq<char>, Seq<char>, Seq<char>)) -> Seq<char> {
    start_tag_text(
        "Relationship"@,
        seq![("Id"@, e.0), ("Type"@, e.1), ("Target"@, e.2)],
        true,
    )
}

pub open spec fn rel_rows_xml(entries: Seq<(Seq<char>, Seq<char>, Seq<char>)>) -> Seq<char>
    decreases entries.len(),
{
    if entries.len() == 0 {
        Seq::empty()
    } else {
        rel_entry_xml(entries[0]) + rel_rows_xml(entries.drop_first())
    }
}

/// The markup of a whole `.rels` part body.
pub open spec fn rels_xml(entries: Seq<(Seq<char>, Seq<char>, Seq<char>)>) -> Seq<char> {
    start_tag_text("Relationships"@, no_attrs(), false) + rel_rows_xml(entries) + end_tag_text(
        "Relationships"@,
    )
}

/// The relationship-table model a row list denotes.
pub open spec fn rel_rows_model(entries: Seq<(Seq<char>, Seq<char>, Seq<char>)>) -> Seq<
    crate::relationships::RelModel,
> {
    entries.map_values(
        |e: (Seq<char>, Seq<char>, Seq<char>)|
            crate::relationships::RelModel { id: e.0, rel_type: e.1, target: e.2 },
    )
}

#[verifier::rlimit(100)]
#[verifier::spinoff_prover]
proof fn lemma_parse_rels_rows(
    s: Seq<char>,
    i: int,
    rest: Seq<(Seq<char>, Seq<char>, Seq<char>)>,
    acc: Seq<crate::relationships::RelModel>,
)
    requires
        0 <= i <= s.len(),
        s.len() <= usize::MAX,
        s.subrange(i, s.len() as int) == rel_rows_xml(rest) + end_tag_text("Relationships"@),
    ensures
        crate::relationships::parse_rels_from(s, i, acc) == Some(acc + rel_rows_model(rest)),
    decreases rest.len(),
{
    reveal_strlit("Relationships");
    reveal_strlit("Relationship");
    reveal_strlit("Id");
    reveal_strlit("Type");
    reveal_strlit("Target");
    let cc = end_tag_text("Relationships"@);
    let n = s.len() as int;
    assert("Relationships"@.len() == 13);
    assert("Relationship"@.len() == 12);
    assert(cc.len() == 16);
    assert forall|j: int| 0 <= j < 13 implies crate::xml::is_name_char("Relationships"@[j]) by {
        if j == 0 {
        } else if j == 1 {
        } else if j == 2 {
        } else if j == 3 {
        } else if j == 4 {
        } else if j == 5 {
        } else if j == 6 {
        } else if j == 7 {
        } else if j == 8 {
        } else if j == 9 {
        } else if j == 10 {
        } else if j == 11 {
        } else {
            assert(j == 12);
        }
    }
    assert forall|j: int| 0 <= j < 12 implies crate::xml::is_name_char("Relationship"@[j]) by {
        assert(crate::xml::is_name_char("Relationships"@[j]));
        assert("Relationship"@[j] == "Relationships"@[j]);
    }
    if rest.len() == 0 {
        assert(rel_rows_xml(rest) =~= Seq::<char>::empty());
        assert(s.subrange(i, n).len() == n - i);
        assert(s.subrange(i, n) == rel_rows_xml(rest) + end_tag_text("Relationships"@));
        assert(n - i == 16);
        assert(s.subrange(i, i + 16) =~= cc) by {
            assert forall|x: int| 0 <= x < 16 implies s.subrange(i, i + 16)[x] == cc[x] by {
                assert(s.subrange(i, n)[x] == s[i + x]);
                assert((rel_rows_xml(rest) + cc)[x] == cc[x]);
            }
        }
        crate::xml::lemma_scan_tag_close(s, i, "Relationships"@);
        assert(rel_rows_model(rest) =~= Seq::<crate::relationships::RelModel>::empty());
        assert(acc + rel_rows_model(rest) =~= acc);
    } else {
        let e0 = rest[0];
        let attrs = seq![("Id"@, e0.0), ("Type"@, e0.1), ("Target"@, e0.2)];
        let tag = start_tag_text("Relationship"@, attrs, true);
        let at = crate::xml::attrs_text(attrs);
        assert forall|j: int| 0 <= j < 2 implies crate::xml::is_name_char("Id"@[j]) by {
            if j == 0 {
            } else {
                assert(j == 1);
            }
        }
        assert forall|j: int| 0 <= j < 4 implies crate::xml::is_name_char("Type"@[j]) by {
            if j == 0 {
            } else if j == 1 {
            } else if j == 2 {
            } else {
                assert(j == 3);
            }
        }
        assert forall|j: int| 0 <= j < 6 implies crate::xml::is_name_char("Target"@[j]) by {
            if j == 0 {
            } else if j == 1 {
            } else if j == 2 {
            } else if j == 3 {
            } else if j == 4 {
            } else {
                assert(j == 5);
            }
        }
        crate::xml::lemma_attrs_text_three_safe("Id"@, e0.0, "Type"@, e0.1, "Target"@, e0.2);
        let rest1 = rel_rows_xml(rest.drop_first());
        assert(rel_rows_xml(rest) == rel_entry_xml(e0) + rest1);
        assert(rel_entry_xml(e0) == tag);
        let el = tag.len();
        assert(el == 15 + at.len());
        assert(s.subrange(i, n).len() == n - i);
        assert(s.subrange(i, n) == rel_rows_xml(rest) + end_tag_text("Relationships"@));
        assert((rel_rows_xml(rest) + end_tag_text("Relationships"@)).len() == el + rest1.len()
            + cc.len());
        assert(n - i == el + rest1.len() + 16);
        assert(i + el <= n);
        assert(s.subrange(i, n) =~= tag + (rest1 + cc)) by {
            assert forall|x: int| 0 <= x < n - i implies s.subrange(i, n)[x] == (tag + (rest1
                + cc))[x] by {
                assert(s.subrange(i, n)[x] == ((tag + rest1) + cc)[x]);
                if x < el {
                    assert(((tag + rest1) + cc)[x] == (tag + rest1)[x]);
                    assert((tag + rest1)[x] == tag[x]);
                } else if x < el + rest1.len() {
                    assert(((tag + rest1) + cc)[x] == (tag + rest1)[x]);
                    assert((tag + rest1)[x] == rest1[x - el]);
                    assert((rest1 + cc)[x - el] == rest1[x - el]);
                } else {
                    assert(((tag + rest1) + cc)[x] == cc[x - el - rest1.len()]);
                    assert((rest1 + cc)[x - el] == cc[x - el - rest1.len()]);
                }
            }
        }
        assert(s.subrange(i, i + el) =~= tag) by {
            assert forall|x: int| 0 <= x < el implies s.subrange(i, i + el)[x] == tag[x] by {
                assert(s.subrange(i, n)[x] == s[i + x]);
                assert((tag + (rest1 + cc))[x] == tag[x]);
            }
        }
        crate::xml::lemma_scan_tag_empty(s, i, "Relationship"@, attrs);
        let b = i + 13;
        let g = b + at.len();
        assert("Id"@ != "Type"@ && "Id"@ != "Target"@ && "Type"@ != "Target"@);
        crate::xml::lemma_attr_val_three(s, b, g, "Id"@, e0.0, "Type"@, e0.1, "Target"@, e0.2);
        crate::xml::lemma_escape_unescape(e0.0);
        crate::xml::lemma_escape_unescape(e0.1);
        crate::xml::lemma_escape_unescape(e0.2);
        let m0 = crate::relationships::RelModel { id: e0.0, rel_type: e0.1, target: e0.2 };
        assert(crate::relationships::rel_of_tag(s, b, g) == Some(m0));
        assert("Relationship"@ != "Relationships"@);
        assert(g + 2 == i + el);
        assert(s.subrange(g + 2, n) =~= rest1 + cc) by {
            assert forall|x: int| 0 <= x < n - g - 2 implies s.subrange(g + 2, n)[x] == (rest1
                + cc)[x] by {
                assert(s.subrange(i, n)[el + x] == s[i + el + x]);
                assert((tag + (rest1 + cc))[el + x] == (rest1 + cc)[x]);
            }
        }
        lemma_parse_rels_rows(s, g + 2, rest.drop_first(), acc.push(m0));
        assert(crate::formula::next_pos(i, g + 2, n) == g + 2);
        assert(crate::relationships::parse_rels_from(s, i, acc)
            == crate::relationships::parse_rels_from(s, g + 2, acc.push(m0)));
        assert(acc.push(m0) + rel_rows_model(rest.drop_first()) =~= acc + rel_rows_model(rest));
    }
}

/// Law: the relationship part — the declaration line and the row table —
/// reads back as exactly the rows it was written from.
#[verifier::rlimit(100)]
#[verifier::spinoff_prover]
pub proof fn lemma_rels_part_round_trip(entries: Seq<(Seq<char>, Seq<char>, Seq<char>)>)
    requires
        decl_text().len() + rels_xml(entries).len() <= usize::MAX,
    ensures
        crate::relationships::parse_rels_from(decl_text() + rels_xml(entries), 0, Seq::empty())
            == Some(rel_rows_model(entries)),
{
    let s = decl_text() + rels_xml(entries);
    let d = decl_text();
    reveal_strlit("<?xml version=\"1.0\" encoding=\"UTF-8\" standalone=\"yes\"?>\n");
    reveal_strlit("Relationships");
    reveal_strlit("Relationship");
    assert(d.len() == 56);
    let w1 = start_tag_text("Relationships"@, no_attrs(), false);
    let rx = rel_rows_xml(entries);
    let cc = end_tag_text("Relationships"@);
    let n = s.len() as int;
    assert(crate::xml::attrs_text(no_attrs()) =~= Seq::<char>::empty());
    assert(w1.len() == 15 && cc.len() == 16);
    assert(rels_xml(entries) == w1 + rx + cc);
    assert forall|j: int| 0 <= j < 13 implies crate::xml::is_name_char("Relationships"@[j]) by {
        if j == 0 {
        } else if j == 1 {
        } else if j == 2 {
        } else if j == 3 {
        } else if j == 4 {
        } else if j == 5 {
        } else if j == 6 {
        } else if j == 7 {
        } else if j == 8 {
        } else if j == 9 {
        } else if j == 10 {
        } else if j == 11 {
        } else {
            assert(j == 12);
        }
    }
    assert forall|j: int| 0 <= j < 54 implies #[trigger] s[j] != '>' by {
        assert(s[j] == d[j]);
        assert(d[54] == '>' && d[55] == '\n');
        if j < 54 {
            assert(d[j] != '>') by {
                assert(forall|k: int| 0 <= k < 56 ==> d[k] == decl_text()[k]);
            }
        }
    }
    assert(s[54] == '>');
    crate::xml::lemma_quote_end_is(s, 0, 54, '>');
    assert(s[0] == '<' && s[1] == '?');
    assert(crate::xml::scan_tok(s, 0) == crate::xml::XmlTok::Decl(55usize));
    assert(crate::formula::next_pos(0, 55, n) == 55);
    assert(s[55] == '\n');
    assert(s[56] == w1[0]);
    assert(s[56] == '<');
    crate::xml::lemma_quote_end_is(s, 55, 56, '<');
    assert(crate::xml::scan_tok(s, 55) == crate::xml::XmlTok::Text(55usize, 56usize));
    assert(crate::formula::next_pos(55, 56, n) == 56);
    assert(s.subrange(56, 71) =~= w1) by {
        assert forall|x: int| 0 <= x < 15 implies s.subrange(56, 71)[x] == w1[x] by {
            assert(s[56 + x] == rels_xml(entries)[x]);
            assert(rels_xml(entries)[x] == w1[x]);
        }
    }
    crate::xml::lemma_scan_tag_open_plain(s, 56, "Relationships"@);
    assert("Relationships"@ != "Relationship"@);
    assert(crate::formula::next_pos(56, 71, n) == 71);
    assert(s.subrange(71, n) =~= rx + cc) by {
        assert forall|x: int| 0 <= x < n - 71 implies s.subrange(71, n)[x] == (rx + cc)[x] by {
            assert(s[71 + x] == rels_xml(entries)[15 + x]);
            assert(rels_xml(entries)[15 + x] == (rx + cc)[x]);
        }
    }
    lemma_parse_rels_rows(s, 71, entries, Seq::empty());
    assert(Seq::<crate::relationships::RelModel>::empty() + rel_rows_model(entries)
        =~= rel_rows_model(entries));
    let acc0 = Seq::<crate::relationships::RelModel>::empty();
    assert(crate::relationships::parse_rels_from(s, 0, acc0)
        == crate::relationships::parse_rels_from(s, 55, acc0));
    assert(crate::relationships::parse_rels_from(s, 55, acc0)
        == crate::relationships::parse_rels_from(s, 56, acc0));
    assert(crate::relationships::parse_rels_from(s, 56, acc0)
        == crate::relationships::parse_rels_from(s, 71, acc0));
}

proof fn lemma_rel_rows_xml_take(entries: Seq<(Seq<char>, Seq<char>, Seq<char>)>, i: int)
    requires
        0 <= i < entries.len(),
    ensures
        rel_rows_xml(entries.take(i + 1)) == rel_rows_xml(entries.take(i)) + rel_entry_xml(
            entries[i],
        ),
    decreases i,
{
    if i == 0 {
        assert(entries.take(1).drop_first() =~= Seq::<(Seq<char>, Seq<char>, Seq<char>)>::empty());
        assert(entries.take(0) =~= Seq::<(Seq<char>, Seq<char>, Seq<char>)>::empty());
        assert(entries.take(1)[0] == entries[0]);
        assert(rel_rows_xml(entries.take(1)) == rel_entry_xml(entries[0]) + rel_rows_xml(
            Seq::<(Seq<char>, Seq<char>, Seq<char>)>::empty(),
        ));
        assert(rel_rows_xml(entries.take(1)) =~= rel_rows_xml(entries.take(0)) + rel_entry_xml(
            entries[0],
        ));
    } else {
        lemma_rel_rows_xml_take(entries.drop_first(), i - 1);
        assert(entries.take(i + 1).drop_first() =~= entries.drop_first().take(i));
        assert(entries.take(i).drop_first() =~= entries.drop_first().take(i - 1));
        assert(entries.take(i + 1)[0] == entries[0]);
        assert(entries.take(i)[0] == entries[0]);
        assert(entries.drop_first()[i - 1] == entries[i]);
        assert(rel_entry_xml(entries[0]) + (rel_rows_xml(entries.drop_first().take(i - 1))
            + rel_entry_xml(entries[i])) =~= (rel_entry_xml(entries[0]) + rel_rows_xml(
            entries.drop_first().take(i - 1),
        )) + rel_entry_xml(entries[i]));
    }
}

/// Write a `.rels` part body from `(id, type, target)` rows.
pub fn write_rels_part(entries: &Vec<(String, String, String)>, out: &mut Vec<char>)
    ensures
        final(out)@ == old(out)@ + rels_xml(
            entries@.map_values(|e: (String, String, String)| (e.0@, e.1@, e.2@)),
        ),
{
    let ghost ev = entries@.map_values(|e: (String, String, String)| (e.0@, e.1@, e.2@));
    let attrs0: Vec<(&str, &str)> = Vec::new();
    proof {
        assert(crate::xml::attrs_view(attrs0@) =~= no_attrs());
    }
    write_start_tag(out, "Relationships", &attrs0, false);
    let ghost head = out@;
    let mut i: usize = 0;
    proof {
        assert(ev.take(0) =~= Seq::<(Seq<char>, Seq<char>, Seq<char>)>::empty());
        assert(out@ =~= head + rel_rows_xml(ev.take(0)));
    }
    while i < entries.len()
        invariant
            i <= entries@.len(),
            ev == entries@.map_values(|e: (String, String, String)| (e.0@, e.1@, e.2@)),
            ev.len() == entries@.len(),
            out@ == head + rel_rows_xml(ev.take(i as int)),
        decreases entries@.len() - i,
    {
        let mut attrs: Vec<(&str, &str)> = Vec::new();
        attrs.push(("Id", entries[i].0.as_str()));
        attrs.push(("Type", entries[i].1.as_str()));
        attrs.push(("Target", entries[i].2.as_str()));
        proof {
            assert(ev[i as int] == (entries@[i as int].0@, entries@[i as int].1@, entries@[
                i as int
            ].2@));
            assert(crate::xml::attrs_view(attrs@) =~= seq![
                ("Id"@, ev[i as int].0),
                ("Type"@, ev[i as int].1),
                ("Target"@, ev[i as int].2),
            ]);
        }
        write_start_tag(out, "Relationship", &attrs, true);
        proof {
            lemma_rel_rows_xml_take(ev, i as int);
            assert(out@ =~= head + (rel_rows_xml(ev.take(i as int)) + rel_entry_xml(
                ev[i as int],
            )));
            assert(out@ =~= head + rel_rows_xml(ev.take(i as int + 1)));
        }
        i += 1;
    }
    proof {
        assert(ev.take(ev.len() as int) =~= ev);
    }
    write_end_tag(out, "Relationships");
    proof {
        assert(out@ =~= old(out)@ + rels_xml(ev));
    }
}

// ---------------------------------------------------------------------------
// Assembling the container parts
// ---------------------------------------------------------------------------

/// The declaration line every part begins with.
pub open spec fn decl_text() -> Seq<char> {
    "<?xml version=\"1.0\" encoding=\"UTF-8\" standalone=\"yes\"?>\n"@
}

/// Collects the named parts the writer produces.
pub struct WriterManager {
    pub parts: Vec<(String, String)>,
}

impl WriterManager {
    pub fn new() -> (r: WriterManager)
        ensures
            r.parts@.len() == 0,
    {
        WriterManager { parts: Vec::new() }
    }

    /// Record one finished part under its target path.
    pub fn add_writer(&mut self, target: &str, content: String) -> (r: Result<(), XlsxError>)
        ensures
            r is Ok,
            final(self).parts@.len() == old(self).parts@.len() + 1,
            final(self).parts@.last().0@ == target@,
            final(self).parts@.last().1 == content,
            forall|j: int|
                0 <= j < old(self).parts@.len() ==> final(self).parts@[j] == old(self).parts@[j],
    {
        self.parts.push((target.to_owned(), content));
        Ok(())
    }
}

/// The content-types manifest part.
pub open spec fn ct_text() -> Seq<char> {
    decl_text() + start_tag_text("Types"@, no_attrs(), true)
}

/// The relationship id the writer assigns to the one-based `i`-th sheet.
pub open spec fn rid_text(i: int) -> Seq<char> {
    "rId"@ + num_str(i)
}

/// The worksheet part target the writer assigns, relative to the workbook.
pub open spec fn sheet_target_text(i: int) -> Seq<char> {
    "worksheets/sheet"@ + num_str(i) + ".xml"@
}

/// The worksheet part's path in the container.
pub open spec fn sheet_part_path(i: int) -> Seq<char> {
    "xl/worksheets/sheet"@ + num_str(i) + ".xml"@
}

pub open spec fn worksheet_rel_type() -> Seq<char> {
    "http://schemas.openxmlformats.org/officeDocument/2006/relationships/worksheet"@
}

/// The sheet-list entries the writer renumbers: kept names, fresh ids.
pub open spec fn wb_entries_of(sheets: Seq<crate::worksheet::Sheet>) -> Seq<
    (Seq<char>, Seq<char>),
> {
    Seq::new(sheets.len(), |i: int| (sheets[i].name@, rid_text(i + 1)))
}

/// The root relationship rows the writer emits, one per sheet.
pub open spec fn root_rels_of(n: nat) -> Seq<(Seq<char>, Seq<char>, Seq<char>)> {
    Seq::new(n, |i: int| (rid_text(i + 1), worksheet_rel_type(), sheet_target_text(i + 1)))
}

/// The body part of a sheet with no body of its own.
pub open spec fn empty_sheet_text() -> Seq<char> {
    start_tag_text("worksheet"@, no_attrs(), false) + start_tag_text("sheetData"@, no_attrs(), true)
        + end_tag_text("worksheet"@)
}

/// What one sheet's body part holds and how it moves the table: a
/// materialized sheet serializes its cell run and registers as it goes, a
/// raw sheet is copied through, an absent body becomes the empty part.
/// Nothing when registering the cells would overflow the counter.
pub open spec fn sheet_step(s: crate::worksheet::Sheet, items: Seq<SsiModel>, count: int) -> Option<
    (Seq<char>, Seq<SsiModel>, int),
> {
    match s.body {
        Some(crate::worksheet::SheetBody::Ready(w)) => {
            if count > usize::MAX - w.cells@.len() {
                None
            } else {
                let (m, it2, d) = cells_fold(crate::worksheet::cells_view(w.cells@), items);
                Some((decl_text() + worksheet_xml_text(m), it2, count + d))
            }
        },
        Some(crate::worksheet::SheetBody::Raw(raw)) => Some((raw.body@, items, count)),
        None => Some((decl_text() + empty_sheet_text(), items, count)),
    }
}

/// The sheet body parts in order, threading the shared string table left to
/// right.
pub open spec fn sheets_fold(
    sheets: Seq<crate::worksheet::Sheet>,
    items: Seq<SsiModel>,
    count: int,
) -> Option<(Seq<Seq<char>>, Seq<SsiModel>, int)>
    decreases sheets.len(),
{
    if sheets.len() == 0 {
        Some((Seq::empty(), items, count))
    } else {
        match sheets_fold(sheets.drop_last(), items, count) {
            None => None,
            Some((cs, it1, n1)) => match sheet_step(sheets.last(), it1, n1) {
                None => None,
                Some((c0, it2, n2)) => Some((cs.push(c0), it2, n2)),
            },
        }
    }
}

proof fn lemma_sheets_fold_prefix_none(
    sheets: Seq<crate::worksheet::Sheet>,
    items: Seq<SsiModel>,
    count: int,
    m: int,
)
    requires
        0 <= m <= sheets.len(),
        sheets_fold(sheets.take(m), items, count) is None,
    ensures
        sheets_fold(sheets, items, count) is None,
    decreases sheets.len() - m,
{
    if m < sheets.len() {
        assert(sheets.take(m + 1).drop_last() =~= sheets.take(m));
        lemma_sheets_fold_prefix_none(sheets, items, count, m + 1);
    } else {
        assert(sheets.take(m) =~= sheets);
    }
}

/// The container parts the write path produces from a workbook: the
/// content-types manifest, the renumbered workbook skeleton, the root
/// relationship table, one body part per sheet, then the shared-strings
/// part (omitted when the table ends empty), the styles part and the theme
/// part when present. Nothing when the registration counter would overflow.
pub open spec fn parts_model(book: Spreadsheet) -> Option<Seq<(Seq<char>, Seq<char>)>> {
    match sheets_fold(
        book.sheets@,
        items_view(book.shared_string_table.shared_string_item@),
        book.shared_string_table.regist_count as int,
    ) {
        None => None,
        Some((cs, items2, count2)) => Some(
            seq![
                ("[Content_Types].xml"@, ct_text()),
                ("xl/workbook.xml"@, decl_text() + workbook_xml(wb_entries_of(book.sheets@))),
                (
                    "xl/_rels/workbook.xml.rels"@,
                    decl_text() + rels_xml(root_rels_of(book.sheets@.len())),
                ),
            ] + Seq::new(book.sheets@.len(), |i: int| (sheet_part_path(i + 1), cs[i])) + (
            if items2.len() > 0 {
                seq![
                    (
                        "xl/sharedStrings.xml"@,
                        decl_text() + sst_xml(items2, count2, items2.len() as int),
                    ),
                ]
            } else {
                Seq::empty()
            }) + (match book.stylesheet.raw {
                Some(s) => seq![("xl/styles.xml"@, s@)],
                None => Seq::empty(),
            }) + (match book.theme.raw {
                Some(s) => seq![("xl/theme/theme1.xml"@, s@)],
                None => Seq::empty(),
            }),
        ),
    }
}

/// Write the shared-strings part, or omit it entirely when the table holds
/// zero items; the part's declared counts reflect the registration counter
/// and the unique item list length.
pub fn write_shared_strings(
    shared_string_table: &SharedStringTable,
    writer_mng: &mut WriterManager,
) -> (r: Result<(), XlsxError>)
    requires
        shared_string_table.regist_count <= usize::MAX,
    ensures
        r is Ok,
        shared_string_table.shared_string_item@.len() == 0 ==> *final(writer_mng) == *old(
            writer_mng,
        ),
        shared_string_table.shared_string_item@.len() > 0 ==> {
            &&& final(writer_mng).parts@.len() == old(writer_mng).parts@.len() + 1
            &&& final(writer_mng).parts@.last().0@ == "xl/sharedStrings.xml"@
            &&& final(writer_mng).parts@.last().1@ == decl_text() + sst_xml(
                items_view(shared_string_table.shared_string_item@),
                shared_string_table.regist_count as int,
                shared_string_table.shared_string_item@.len() as int,
            )
            &&& forall|j: int|
                0 <= j < old(writer_mng).parts@.len() ==> final(writer_mng).parts@[j] == old(
                    writer_mng,
                ).parts@[j]
        },
{
    if shared_string_table.get_shared_string_item().len() == 0 {
        return Ok(());
    }
    let mut out: Vec<char> = Vec::new();
    crate::xml::push_str_chars(
        &mut out,
        "<?xml version=\"1.0\" encoding=\"UTF-8\" standalone=\"yes\"?>\n",
    );
    shared_string_table.write_to(&mut out);
    let content = string_from_chars(&out);
    writer_mng.add_writer("xl/sharedStrings.xml", content)
}

/// Serialize the whole workbook into its container parts: the content-types
/// manifest, the root relationship table, the workbook skeleton, one body
/// part per sheet (registering shared strings as it goes), then the
/// shared-strings part (omitted when empty), the styles part and the theme
/// part when present. Interned indices already handed out stay stable.
#[verifier::rlimit(100)]
#[verifier::spinoff_prover]
pub fn write_parts(book: &mut Spreadsheet) -> (r: Result<Vec<(String, String)>, XlsxError>)
    requires
        wf(old(book).shared_string_table),
    ensures
        final(book).sheets == old(book).sheets,
        final(book).theme == old(book).theme,
        final(book).stylesheet == old(book).stylesheet,
        final(book).workbook_relationships == old(book).workbook_relationships,
        wf(final(book).shared_string_table),
        final(book).shared_string_table.regist_count >= old(book).shared_string_table.regist_count,
        items_view(final(book).shared_string_table.shared_string_item@).take(
            old(book).shared_string_table.shared_string_item@.len() as int,
        ) == items_view(old(book).shared_string_table.shared_string_item@),
        match r {
            Ok(parts) => {
                &&& parts_model(*old(book)) matches Some(ps) && crate::reader::pairs_view(parts@)
                    == ps
                &&& sheets_fold(
                    old(book).sheets@,
                    items_view(old(book).shared_string_table.shared_string_item@),
                    old(book).shared_string_table.regist_count as int,
                ) matches Some((cs, items2, count2)) && items_view(
                    final(book).shared_string_table.shared_string_item@,
                ) == items2 && final(book).shared_string_table.regist_count as int == count2
            },
            Err(e) => e == XlsxError::Format && parts_model(*old(book)) is None,
        },
{
    let mut mng = WriterManager::new();

    let mut ct: Vec<char> = Vec::new();
    crate::xml::push_str_chars(
        &mut ct,
        "<?xml version=\"1.0\" encoding=\"UTF-8\" standalone=\"yes\"?>\n",
    );
    let cta: Vec<(&str, &str)> = Vec::new();
    proof {
        assert(crate::xml::attrs_view(cta@) =~= no_attrs());
    }
    write_start_tag(&mut ct, "Types", &cta, true);
    proof {
        assert(ct@ =~= ct_text());
    }
    match mng.add_writer("[Content_Types].xml", string_from_chars(&ct)) {
        Ok(_) => {},
        Err(e) => {
            return Err(e);
        },
    }

    let n = book.sheets.len();
    let mut rels: Vec<(String, String, String)> = Vec::new();
    let mut k: usize = 0;
    while k < n
        invariant
            k <= n,
            n == book.sheets@.len(),
            rels@.len() == k,
            forall|j: int|
                0 <= j < k ==> (#[trigger] rels@[j]).0@ == rid_text(j + 1) && rels@[j].1@
                    == worksheet_rel_type() && rels@[j].2@ == sheet_target_text(j + 1),
        decreases n - k,
    {
        let rid = {
            let num = string_from_chars(&num_str_exec((k as u64) + 1));
            let mut buf: Vec<char> = Vec::new();
            crate::xml::push_str_chars(&mut buf, "rId");
            crate::xml::push_str_chars(&mut buf, num.as_str());
            string_from_chars(&buf)
        };
        let target = {
            let num = string_from_chars(&num_str_exec((k as u64) + 1));
            let mut buf: Vec<char> = Vec::new();
            crate::xml::push_str_chars(&mut buf, "worksheets/sheet");
            crate::xml::push_str_chars(&mut buf, num.as_str());
            crate::xml::push_str_chars(&mut buf, ".xml");
            string_from_chars(&buf)
        };
        rels.push(
            (
                rid,
                "http://schemas.openxmlformats.org/officeDocument/2006/relationships/worksheet".to_owned(),
                target,
            ),
        );
        proof {
            assert(rels@.last().0@ == rid_text(k as int + 1));
            assert(rels@.last().1@ == worksheet_rel_type());
            assert(rels@.last().2@ == sheet_target_text(k as int + 1));
        }
        k += 1;
    }

    let mut wb_sheets: Vec<crate::worksheet::Sheet> = Vec::new();
    let mut k2: usize = 0;
    while k2 < n
        invariant
            k2 <= n,
            n == book.sheets@.len(),
            book.sheets == old(book).sheets,
            wb_sheets@.len() == k2,
            forall|j: int|
                0 <= j < k2 ==> (#[trigger] wb_sheets@[j]).name@ == book.sheets@[j].name@
                    && wb_sheets@[j].r_id@ == rid_text(j + 1),
        decreases n - k2,
    {
        let rid = {
            let num = string_from_chars(&num_str_exec((k2 as u64) + 1));
            let mut buf: Vec<char> = Vec::new();
            crate::xml::push_str_chars(&mut buf, "rId");
            crate::xml::push_str_chars(&mut buf, num.as_str());
            string_from_chars(&buf)
        };
        wb_sheets.push(
            crate::worksheet::Sheet {
                name: book.sheets[k2].name.clone(),
                r_id: rid,
                sheet_state: String::new(),
                body: None,
            },
        );
        k2 += 1;
    }
    let mut wbout: Vec<char> = Vec::new();
    crate::xml::push_str_chars(
        &mut wbout,
        "<?xml version=\"1.0\" encoding=\"UTF-8\" standalone=\"yes\"?>\n",
    );
    write_workbook_part(&wb_sheets, &mut wbout);
    proof {
        assert(sheet_entries(wb_sheets@) =~= wb_entries_of(old(book).sheets@));
        assert(wbout@ =~= decl_text() + workbook_xml(wb_entries_of(old(book).sheets@)));
    }
    match mng.add_writer("xl/workbook.xml", string_from_chars(&wbout)) {
        Ok(_) => {},
        Err(e) => {
            return Err(e);
        },
    }

    let mut relout: Vec<char> = Vec::new();
    crate::xml::push_str_chars(
        &mut relout,
        "<?xml version=\"1.0\" encoding=\"UTF-8\" standalone=\"yes\"?>\n",
    );
    write_rels_part(&rels, &mut relout);
    proof {
        assert(rels@.map_values(|e: (String, String, String)| (e.0@, e.1@, e.2@)) =~= root_rels_of(
            old(book).sheets@.len(),
        ));
        assert(relout@ =~= decl_text() + rels_xml(root_rels_of(old(book).sheets@.len())));
    }
    match mng.add_writer("xl/_rels/workbook.xml.rels", string_from_chars(&relout)) {
        Ok(_) => {},
        Err(e) => {
            return Err(e);
        },
    }
    let ghost head3 = seq![
        ("[Content_Types].xml"@, ct_text()),
        ("xl/workbook.xml"@, decl_text() + workbook_xml(wb_entries_of(old(book).sheets@))),
        (
            "xl/_rels/workbook.xml.rels"@,
            decl_text() + rels_xml(root_rels_of(old(book).sheets@.len())),
        ),
    ];
    proof {
        assert(crate::reader::pairs_view(mng.parts@) =~= head3);
    }

    let ghost items00 = items_view(old(book).shared_string_table.shared_string_item@);
    let ghost count0 = old(book).shared_string_table.regist_count as int;
    let ghost mut csg: Seq<Seq<char>> = Seq::empty();
    proof {
        assert(old(book).sheets@.take(0) =~= Seq::<crate::worksheet::Sheet>::empty());
        assert(Seq::new(0, |i: int| (sheet_part_path(i + 1), csg[i]))
            =~= Seq::<(Seq<char>, Seq<char>)>::empty());
        assert(crate::reader::pairs_view(mng.parts@) =~= head3 + Seq::new(
            0,
            |i: int| (sheet_part_path(i + 1), csg[i]),
        ));
    }
    let mut k3: usize = 0;
    while k3 < n
        invariant
            k3 <= n,
            n == book.sheets@.len(),
            book.sheets == old(book).sheets,
            book.theme == old(book).theme,
            book.stylesheet == old(book).stylesheet,
            book.workbook_relationships == old(book).workbook_relationships,
            wf(book.shared_string_table),
            book.shared_string_table.regist_count >= old(
                book,
            ).shared_string_table.regist_count,
            items00 == items_view(old(book).shared_string_table.shared_string_item@),
            count0 == old(book).shared_string_table.regist_count as int,
            items00.len() == old(book).shared_string_table.shared_string_item@.len(),
            items_view(book.shared_string_table.shared_string_item@).take(items00.len() as int)
                == items00,
            book.shared_string_table.shared_string_item@.len() >= items00.len(),
            csg.len() == k3,
            sheets_fold(old(book).sheets@.take(k3 as int), items00, count0) == Some(
                (
                    csg,
                    items_view(book.shared_string_table.shared_string_item@),
                    book.shared_string_table.regist_count as int,
                ),
            ),
            crate::reader::pairs_view(mng.parts@) == head3 + Seq::new(
                k3 as nat,
                |i: int| (sheet_part_path(i + 1), csg[i]),
            ),
        decreases n - k3,
    {
        let ghost prefix = old(book).sheets@.take(k3 as int);
        proof {
            assert(old(book).sheets@.take(k3 as int + 1).drop_last() =~= prefix);
            assert(old(book).sheets@.take(k3 as int + 1).last() == old(book).sheets@[k3 as int]);
        }
        let mut wsout: Vec<char> = Vec::new();
        crate::xml::push_str_chars(
            &mut wsout,
            "<?xml version=\"1.0\" encoding=\"UTF-8\" standalone=\"yes\"?>\n",
        );
        let ghost items_a = items_view(book.shared_string_table.shared_string_item@);
        let ghost count_a = book.shared_string_table.regist_count as int;
        let produced: String = match &book.sheets[k3].body {
            Some(crate::worksheet::SheetBody::Ready(w)) => {
                if book.shared_string_table.regist_count > usize::MAX - w.cells.len() {
                    proof {
                        assert(sheet_step(old(book).sheets@[k3 as int], items_a, count_a)
                            is None);
                        assert(sheets_fold(
                            old(book).sheets@.take(k3 as int + 1),
                            items00,
                            count0,
                        ) is None);
                        lemma_sheets_fold_prefix_none(
                            old(book).sheets@,
                            items00,
                            count0,
                            k3 as int + 1,
                        );
                    }
                    return Err(XlsxError::Format);
                }
                write_worksheet_part(&w.cells, &mut book.shared_string_table, &mut wsout);
                string_from_chars(&wsout)
            },
            Some(crate::worksheet::SheetBody::Raw(raw)) => raw.body.clone(),
            None => {
                let a0: Vec<(&str, &str)> = Vec::new();
                proof {
                    assert(crate::xml::attrs_view(a0@) =~= no_attrs());
                }
                write_start_tag(&mut wsout, "worksheet", &a0, false);
                let a1: Vec<(&str, &str)> = Vec::new();
                proof {
                    assert(crate::xml::attrs_view(a1@) =~= no_attrs());
                }
                write_start_tag(&mut wsout, "sheetData", &a1, true);
                write_end_tag(&mut wsout, "worksheet");
                string_from_chars(&wsout)
            },
        };
        proof {
            let items_b = items_view(book.shared_string_table.shared_string_item@);
            assert(items_b.take(items_a.len() as int) == items_a);
            assert(items_b.len() >= items_a.len() >= items00.len());
            assert(items_b.take(items00.len() as int) =~= items_b.take(
                items_a.len() as int,
            ).take(items00.len() as int));
            assert(items_a.take(items00.len() as int) == items00);
            assert(items_b.take(items00.len() as int) =~= items00);
            assert(sheet_step(old(book).sheets@[k3 as int], items_a, count_a) == Some(
                (
                    produced@,
                    items_b,
                    book.shared_string_table.regist_count as int,
                ),
            ));
        }
        let target = {
            let num = string_from_chars(&num_str_exec((k3 as u64) + 1));
            let mut buf: Vec<char> = Vec::new();
            crate::xml::push_str_chars(&mut buf, "xl/worksheets/sheet");
            crate::xml::push_str_chars(&mut buf, num.as_str());
            crate::xml::push_str_chars(&mut buf, ".xml");
            string_from_chars(&buf)
        };
        let ghost partsb = crate::reader::pairs_view(mng.parts@);
        match mng.add_writer(target.as_str(), produced) {
            Ok(_) => {},
            Err(e) => {
                return Err(e);
            },
        }
        proof {
            let oldcs = csg;
            csg = csg.push(sheet_step(old(book).sheets@[k3 as int], items_a, count_a)->Some_0.0);
            assert(target@ == sheet_part_path(k3 as int + 1));
            assert(crate::reader::pairs_view(mng.parts@) =~= partsb + seq![
                (sheet_part_path(k3 as int + 1), csg.last()),
            ]);
            assert(Seq::new(k3 as nat + 1, |i: int| (sheet_part_path(i + 1), csg[i])) =~= Seq::new(
                k3 as nat,
                |i: int| (sheet_part_path(i + 1), oldcs[i]),
            ) + seq![(sheet_part_path(k3 as int + 1), csg.last())]);
            assert(crate::reader::pairs_view(mng.parts@) =~= head3 + Seq::new(
                k3 as nat + 1,
                |i: int| (sheet_part_path(i + 1), csg[i]),
            ));
        }
        k3 += 1;
    }
    proof {
        assert(old(book).sheets@.take(n as int) =~= old(book).sheets@);
    }

    let ghost items_f = items_view(book.shared_string_table.shared_string_item@);
    let ghost count_f = book.shared_string_table.regist_count as int;
    let ghost parts_s = crate::reader::pairs_view(mng.parts@);
    match write_shared_strings(&book.shared_string_table, &mut mng) {
        Ok(_) => {},
        Err(e) => {
            return Err(e);
        },
    }
    proof {
        if items_f.len() > 0 {
            assert(crate::reader::pairs_view(mng.parts@) =~= parts_s + seq![
                (
                    "xl/sharedStrings.xml"@,
                    decl_text() + sst_xml(items_f, count_f, items_f.len() as int),
                ),
            ]);
        } else {
            assert(crate::reader::pairs_view(mng.parts@) =~= parts_s
                + Seq::<(Seq<char>, Seq<char>)>::empty());
        }
    }

    let ghost parts_t = crate::reader::pairs_view(mng.parts@);
    match &book.stylesheet.raw {
        Some(s) => {
            match mng.add_writer("xl/styles.xml", s.clone()) {
                Ok(_) => {},
                Err(e) => {
                    return Err(e);
                },
            }
            proof {
                assert(crate::reader::pairs_view(mng.parts@) =~= parts_t + seq![
                    ("xl/styles.xml"@, s@),
                ]);
            }
        },
        None => {
            proof {
                assert(crate::reader::pairs_view(mng.parts@) =~= parts_t
                    + Seq::<(Seq<char>, Seq<char>)>::empty());
            }
        },
    }
    let ghost parts_u = crate::reader::pairs_view(mng.parts@);
    match &book.theme.raw {
        Some(s) => {
            match mng.add_writer("xl/theme/theme1.xml", s.clone()) {
                Ok(_) => {},
                Err(e) => {
                    return Err(e);
                },
            }
            proof {
                assert(crate::reader::pairs_view(mng.parts@) =~= parts_u + seq![
                    ("xl/theme/theme1.xml"@, s@),
                ]);
            }
        },
        None => {
            proof {
                assert(crate::reader::pairs_view(mng.parts@) =~= parts_u
                    + Seq::<(Seq<char>, Seq<char>)>::empty());
            }
        },
    }
    proof {
        assert(parts_model(*old(book)) matches Some(ps) && crate::reader::pairs_view(mng.parts@)
            =~= ps);
    }
    Ok(mng.parts)
}

} // verus!
