use vstd::prelude::*;

use crate::XlsxError;
use crate::formula::next_pos;
use crate::util::chars_vec;
use crate::util::string_from_chars;
use crate::xml::XmlTok;
use crate::xml::attr_val;
use crate::xml::next_tok;
use crate::xml::scan_tok;
use crate::xml::unescape;
use crate::xml::find_attr;
use crate::xml::push_unescaped;

verus! {

// ---------------------------------------------------------------------------
// Relationship resolution: a `.rels` part is parsed into a table of
// `(id, type URI, target path)` triples, one table per container scope.
// Type matching downstream is exact string comparison; unrecognized types
// are retained here and simply ignored by consumers. A part that ends
// before its closing tag is a markup fault, never a hang.
// ---------------------------------------------------------------------------

/// One relationship: a logical id, a namespace-qualified type URI, and the
/// target path it points at.
pub struct Relationship {
    pub id: String,
    pub rel_type: String,
    pub target: String,
}

/// The mathematical model of a relationship.
pub struct RelModel {
    pub id: Seq<char>,
    pub rel_type: Seq<char>,
    pub target: Seq<char>,
}

impl View for Relationship {
    type V = RelModel;

    open spec fn view(&self) -> RelModel {
        RelModel { id: self.id@, rel_type: self.rel_type@, target: self.target@ }
    }
}

impl Relationship {
    pub fn get_id(&self) -> (r: &str)
        ensures
            r@ == self.id@,
    {
        self.id.as_str()
    }

    pub fn get_type(&self) -> (r: &str)
        ensures
            r@ == self.rel_type@,
    {
        self.rel_type.as_str()
    }

    pub fn get_target(&self) -> (r: &str)
        ensures
            r@ == self.target@,
    {
        self.target.as_str()
    }
}

/// The views of a relationship list, in order.
pub open spec fn rels_view(rels: Seq<Relationship>) -> Seq<RelModel> {
    rels.map_values(|r: Relationship| r@)
}

/// The relationship an empty or open `Relationship` tag with attribute span
/// `[b, g)` declares, if its three attributes are all present.
pub open spec fn rel_of_tag(s: Seq<char>, b: int, g: int) -> Option<RelModel> {
    match attr_val(s, b, g, "Id"@) {
        Some(idr) => match attr_val(s, b, g, "Type"@) {
            Some(tyr) => match attr_val(s, b, g, "Target"@) {
                Some(tgr) => Some(
                    RelModel {
                        id: unescape(s.subrange(idr.0, idr.1)),
                        rel_type: unescape(s.subrange(tyr.0, tyr.1)),
                        target: unescape(s.subrange(tgr.0, tgr.1)),
                    },
                ),
                None => None,
            },
            None => None,
        },
        None => None,
    }
}

/// Parse the `.rels` body from position `i` with the rows collected so far:
/// every `Relationship` tag contributes a row, the closing `Relationships`
/// tag ends the table, and malformed markup or an early end is a fault.
pub open spec fn parse_rels_from(s: Seq<char>, i: int, acc: Seq<RelModel>) -> Option<
    Seq<RelModel>,
>
    decreases s.len() - i,
{
    if i < 0 || i >= s.len() {
        None
    } else {
        match scan_tok(s, i) {
            XmlTok::Eof => None,
            XmlTok::Bad => None,
            XmlTok::Decl(e) => parse_rels_from(s, next_pos(i, e as int, s.len() as int), acc),
            XmlTok::Text(a, b) => parse_rels_from(s, next_pos(i, b as int, s.len() as int), acc),
            XmlTok::Open(a, b, g, e) => {
                if s.subrange(a as int, b as int) == "Relationship"@ {
                    match rel_of_tag(s, b as int, g as int) {
                        Some(m) => parse_rels_from(
                            s,
                            next_pos(i, e as int, s.len() as int),
                            acc.push(m),
                        ),
                        None => None,
                    }
                } else {
                    parse_rels_from(s, next_pos(i, e as int, s.len() as int), acc)
                }
            },
            XmlTok::OpenEmpty(a, b, g, e) => {
                if s.subrange(a as int, b as int) == "Relationship"@ {
                    match rel_of_tag(s, b as int, g as int) {
                        Some(m) => parse_rels_from(
                            s,
                            next_pos(i, e as int, s.len() as int),
                            acc.push(m),
                        ),
                        None => None,
                    }
                } else {
                    parse_rels_from(s, next_pos(i, e as int, s.len() as int), acc)
                }
            },
            XmlTok::Close(a, b, e) => {
                if s.subrange(a as int, b as int) == "Relationships"@ {
                    Some(acc)
                } else {
                    parse_rels_from(s, next_pos(i, e as int, s.len() as int), acc)
                }
            },
        }
    }
}

/// Read one attribute of a tag as decoded text.
pub(crate) fn read_attr(v: &Vec<char>, b: usize, g: usize, name: &Vec<char>) -> (r: Option<String>)
    requires
        b <= g <= v@.len(),
    ensures
        match r {
            Some(t) => attr_val(v@, b as int, g as int, name@) matches Some(p) && t@ == unescape(
                v@.subrange(p.0, p.1),
            ),
            None => attr_val(v@, b as int, g as int, name@) is None,
        },
{
    match find_attr(v, b, g, name) {
        Some((s, e)) => {
            let mut buf: Vec<char> = Vec::new();
            push_unescaped(&mut buf, v, s, e);
            proof {
                assert(buf@ =~= unescape(v@.subrange(s as int, e as int)));
            }
            Some(string_from_chars(&buf))
        },
        None => None,
    }
}

/// Parse a `.rels` part into its relationship table. A body without a
/// well-formed `Relationships` element, or a `Relationship` row missing one
/// of its three attributes, is a markup fault.
pub fn parse_relationships(text: &str) -> (r: Result<Vec<Relationship>, XlsxError>)
    ensures
        match r {
            Ok(rels) => parse_rels_from(text@, 0, Seq::empty()) == Some(rels_view(rels@)),
            Err(e) => parse_rels_from(text@, 0, Seq::empty()) is None && e == XlsxError::Xml,
        },
{
    let v = chars_vec(text);
    let n = v.len();
    let name_rel = chars_vec("Relationship");
    let name_rels = chars_vec("Relationships");
    let name_id = chars_vec("Id");
    let name_type = chars_vec("Type");
    let name_target = chars_vec("Target");
    let mut acc: Vec<Relationship> = Vec::new();
    let mut i: usize = 0;
    proof {
        assert(rels_view(acc@) =~= Seq::<RelModel>::empty());
    }
    while i < n
        invariant
            i <= n,
            n == v@.len(),
            v@ == text@,
            name_rel@ == "Relationship"@,
            name_rels@ == "Relationships"@,
            name_id@ == "Id"@,
            name_type@ == "Type"@,
            name_target@ == "Target"@,
            parse_rels_from(text@, 0, Seq::empty()) == parse_rels_from(
                text@,
                i as int,
                rels_view(acc@),
            ),
        decreases n - i,
    {
        let ghost acc0 = rels_view(acc@);
        let tok = next_tok(&v, i);
        match tok {
            XmlTok::Eof => {
                return Err(XlsxError::Xml);
            },
            XmlTok::Bad => {
                return Err(XlsxError::Xml);
            },
            XmlTok::Decl(e) => {
                proof {
                    assert(next_pos(i as int, e as int, n as int) == e);
                }
                i = e;
            },
            XmlTok::Text(a, b) => {
                proof {
                    assert(next_pos(i as int, b as int, n as int) == b);
                }
                i = b;
            },
            XmlTok::Open(a, b, g, e) => {
                if crate::formula::seq_eq_range(&v, a, b, &name_rel) {
                    let rid = read_attr(&v, b, g, &name_id);
                    let rty = read_attr(&v, b, g, &name_type);
                    let rtg = read_attr(&v, b, g, &name_target);
                    match (rid, rty, rtg) {
                        (Some(id), Some(ty), Some(tg)) => {
                            let rel = Relationship { id, rel_type: ty, target: tg };
                            proof {
                                assert(rel_of_tag(v@, b as int, g as int) == Some(rel@));
                            }
                            acc.push(rel);
                            proof {
                                assert(rels_view(acc@) =~= acc0.push(acc@.last()@));
                                assert(next_pos(i as int, e as int, n as int) == e);
                            }
                            i = e;
                        },
                        _ => {
                            return Err(XlsxError::Xml);
                        },
                    }
                } else {
                    proof {
                        assert(next_pos(i as int, e as int, n as int) == e);
                    }
                    i = e;
                }
            },
            XmlTok::OpenEmpty(a, b, g, e) => {
                if crate::formula::seq_eq_range(&v, a, b, &name_rel) {
                    let rid = read_attr(&v, b, g, &name_id);
                    let rty = read_attr(&v, b, g, &name_type);
                    let rtg = read_attr(&v, b, g, &name_target);
                    match (rid, rty, rtg) {
                        (Some(id), Some(ty), Some(tg)) => {
                            let rel = Relationship { id, rel_type: ty, target: tg };
                            proof {
                                assert(rel_of_tag(v@, b as int, g as int) == Some(rel@));
                            }
                            acc.push(rel);
                            proof {
                                assert(rels_view(acc@) =~= acc0.push(acc@.last()@));
                                assert(next_pos(i as int, e as int, n as int) == e);
                            }
                            i = e;
                        },
                        _ => {
                            return Err(XlsxError::Xml);
                        },
                    }
                } else {
                    proof {
                        assert(next_pos(i as int, e as int, n as int) == e);
                    }
                    i = e;
                }
            },
            XmlTok::Close(a, b, e) => {
                if crate::formula::seq_eq_range(&v, a, b, &name_rels) {
                    return Ok(acc);
                } else {
                    proof {
                        assert(next_pos(i as int, e as int, n as int) == e);
                    }
                    i = e;
                }
            },
        }
    }
    Err(XlsxError::Xml)
}

/// The first relationship bearing the given id, if any.
pub open spec fn find_rel(rels: Seq<RelModel>, id: Seq<char>) -> Option<RelModel>
    decreases rels.len(),
{
    if rels.len() == 0 {
        None
    } else if rels[0].id == id {
        Some(rels[0])
    } else {
        find_rel(rels.drop_first(), id)
    }
}

/// The first relationship bearing the given id, if any.
pub fn find_relationship_by_id<'a>(rels: &'a Vec<Relationship>, id: &str) -> (r: Option<
    &'a Relationship,
>)
    ensures
        match r {
            Some(rel) => find_rel(rels_view(rels@), id@) == Some(rel@),
            None => find_rel(rels_view(rels@), id@) is None,
        },
{
    let ghost rv = rels_view(rels@);
    proof {
        assert(rv.skip(0) =~= rv);
    }
    let mut k: usize = 0;
    while k < rels.len()
        invariant
            k <= rels@.len(),
            rv == rels_view(rels@),
            find_rel(rv, id@) == find_rel(rv.skip(k as int), id@),
        decreases rels@.len() - k,
    {
        proof {
            assert(rv.skip(k as int)[0] == rv[k as int]);
            assert(rv.skip(k as int).drop_first() =~= rv.skip(k as int + 1));
            assert(rv[k as int] == rels@[k as int]@);
        }
        if crate::util::str_eq(rels[k].id.as_str(), id) {
            proof {
                assert(find_rel(rv.skip(k as int), id@) == Some(rv[k as int]));
            }
            return Some(&rels[k]);
        }
        k += 1;
    }
    proof {
        assert(rv.skip(rv.len() as int) =~= Seq::<RelModel>::empty());
    }
    None
}

} // verus!
