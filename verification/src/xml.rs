use vstd::prelude::*;

use crate::cell_value::is_ascii_digit;
use crate::formula::is_ref_letter;
use crate::formula::quote_end;
use crate::formula::scan_quote;

verus! {

// ---------------------------------------------------------------------------
// A small markup layer for the container's parts: a tag tokenizer over
// characters, attribute lookup inside a tag, entity escaping with its
// inverse, and tag writers. Tag and attribute names are identifier-like
// runs; attribute values are quoted either way, with the five standard
// entities escaped; comment sections are skipped whole. Other exotic
// markup is outside the accepted subset and surfaces as a markup fault.
// ---------------------------------------------------------------------------

pub open spec fn is_name_char(c: char) -> bool {
    is_ref_letter(c) || is_ascii_digit(c) || c == '_' || c == ':' || c == '-' || c == '.'
}

/// First position at or after `i` that is not a name character.
pub open spec fn name_end(s: Seq<char>, i: int) -> int
    decreases s.len() - i,
{
    if i < s.len() && is_name_char(s[i]) {
        name_end(s, i + 1)
    } else {
        i
    }
}

pub open spec fn is_ws(c: char) -> bool {
    c == ' ' || c == '\t' || c == '\n' || c == '\r'
}

/// First position at or after `i` that is not whitespace.
pub open spec fn ws_end(s: Seq<char>, i: int) -> int
    decreases s.len() - i,
{
    if i < s.len() && is_ws(s[i]) {
        ws_end(s, i + 1)
    } else {
        i
    }
}

fn is_name_char_exec(c: char) -> (r: bool)
    ensures
        r == is_name_char(c),
{
    (c >= 'A' && c <= 'Z') || (c >= 'a' && c <= 'z') || (c >= '0' && c <= '9') || c == '_' || c
        == ':' || c == '-' || c == '.'
}

pub(crate) fn scan_name(v: &Vec<char>, i: usize) -> (r: usize)
    requires
        i <= v@.len(),
    ensures
        r == name_end(v@, i as int),
        i <= r <= v@.len(),
{
    let mut j = i;
    while j < v.len() && is_name_char_exec(v[j])
        invariant
            i <= j <= v@.len(),
            name_end(v@, i as int) == name_end(v@, j as int),
        decreases v@.len() - j,
    {
        j += 1;
    }
    j
}

pub(crate) fn scan_ws(v: &Vec<char>, i: usize) -> (r: usize)
    requires
        i <= v@.len(),
    ensures
        r == ws_end(v@, i as int),
        i <= r <= v@.len(),
{
    let mut j = i;
    while j < v.len() && (v[j] == ' ' || v[j] == '\t' || v[j] == '\n' || v[j] == '\r')
        invariant
            i <= j <= v@.len(),
            ws_end(v@, i as int) == ws_end(v@, j as int),
        decreases v@.len() - j,
    {
        j += 1;
    }
    j
}

// ---------------------------------------------------------------------------
// Tokenizer
// ---------------------------------------------------------------------------

/// One markup token, with character positions into the scanned text.
/// `Open(a, b, g, e)` is `<name ...>` with the name at `[a, b)`, the attribute
/// span at `[b, g)` and `e` just past the closing `>`; `OpenEmpty` is the
/// self-closing form. `Close(a, b, e)` is `</name>`. `Text(a, b)` is a raw
/// (still escaped) character run. `Decl(e)` is a declaration or a comment,
/// skipped whole. `Bad` is malformed markup, `Eof` the end.
pub enum XmlTok {
    Decl(usize),
    Open(usize, usize, usize, usize),
    OpenEmpty(usize, usize, usize, usize),
    Close(usize, usize, usize),
    Text(usize, usize),
    Eof,
    Bad,
}

/// The position just past the first `-->` at or after `i`; past the end of
/// the text when no terminator follows.
pub open spec fn comment_close(s: Seq<char>, i: int) -> int
    decreases s.len() - i,
{
    if i < 0 || i + 3 > s.len() {
        s.len() as int + 1
    } else if s[i] == '-' && s[i + 1] == '-' && s[i + 2] == '>' {
        i + 3
    } else {
        comment_close(s, i + 1)
    }
}

/// The token starting at position `i`.
pub open spec fn scan_tok(s: Seq<char>, i: int) -> XmlTok {
    if i >= s.len() {
        XmlTok::Eof
    } else if s[i] == '<' {
        if i + 1 < s.len() && s[i + 1] == '?' {
            let g = quote_end(s, i, '>');
            if g < s.len() {
                XmlTok::Decl((g + 1) as usize)
            } else {
                XmlTok::Bad
            }
        } else if i + 3 < s.len() && s[i + 1] == '!' && s[i + 2] == '-' && s[i + 3] == '-' {
            let e = comment_close(s, i + 4);
            if e <= s.len() {
                XmlTok::Decl(e as usize)
            } else {
                XmlTok::Bad
            }
        } else if i + 1 < s.len() && s[i + 1] == '/' {
            let a = i + 2;
            let b = name_end(s, a);
            let g = quote_end(s, b, '>');
            if b > a && g < s.len() && ws_end(s, b) == g {
                XmlTok::Close(a as usize, b as usize, (g + 1) as usize)
            } else {
                XmlTok::Bad
            }
        } else {
            let a = i + 1;
            let b = name_end(s, a);
            let g = quote_end(s, b, '>');
            if b > a && g < s.len() {
                if g > b && s[g - 1] == '/' {
                    XmlTok::OpenEmpty(a as usize, b as usize, (g - 1) as usize, (g + 1) as usize)
                } else {
                    XmlTok::Open(a as usize, b as usize, g as usize, (g + 1) as usize)
                }
            } else {
                XmlTok::Bad
            }
        }
    } else {
        let t = quote_end(s, i, '<');
        XmlTok::Text(i as usize, t as usize)
    }
}

/// Character runs scanned by `quote_end` hold no stop character.
pub proof fn lemma_quote_run(s: Seq<char>, i: int, q: char)
    requires
        0 <= i <= s.len(),
    ensures
        i <= quote_end(s, i, q) <= s.len(),
        forall|j: int| i <= j < quote_end(s, i, q) ==> s[j] != q,
        quote_end(s, i, q) < s.len() ==> s[quote_end(s, i, q)] == q,
    decreases s.len() - i,
{
    if i < s.len() && s[i] != q {
        lemma_quote_run(s, i + 1, q);
    }
}


/// Find the end of a comment section: just past its `-->` terminator.
fn scan_comment(v: &Vec<char>, i: usize) -> (r: Option<usize>)
    requires
        i <= v@.len(),
    ensures
        match r {
            Some(e) => comment_close(v@, i as int) == e && i < e <= v@.len(),
            None => comment_close(v@, i as int) > v@.len(),
        },
{
    let n = v.len();
    if n < 3 || i > n - 3 {
        return None;
    }
    let mut j = i;
    while j <= n - 3
        invariant
            i <= j <= n,
            n == v@.len(),
            n >= 3,
            comment_close(v@, i as int) == comment_close(v@, j as int),
        decreases n - j,
    {
        if v[j] == '-' && v[j + 1] == '-' && v[j + 2] == '>' {
            return Some(j + 3);
        }
        j += 1;
    }
    None
}

/// A run of name characters followed by something else scans to its end.
pub proof fn lemma_name_end_is(s: Seq<char>, a: int, b: int)
    requires
        0 <= a <= b <= s.len(),
        forall|j: int| a <= j < b ==> is_name_char(#[trigger] s[j]),
        b == s.len() || !is_name_char(s[b]),
    ensures
        name_end(s, a) == b,
    decreases b - a,
{
    if a < b {
        lemma_name_end_is(s, a + 1, b);
    }
}

/// A run without the stop character, then the stop character, scans to it.
pub proof fn lemma_quote_end_is(s: Seq<char>, i: int, g: int, q: char)
    requires
        0 <= i <= g < s.len(),
        forall|j: int| i <= j < g ==> #[trigger] s[j] != q,
        s[g] == q,
    ensures
        quote_end(s, i, q) == g,
    decreases g - i,
{
    if i < g {
        lemma_quote_end_is(s, i + 1, g, q);
    }
}

/// Escaped text holds none of the characters that end a value or a tag.
pub proof fn lemma_escape_safe(v: Seq<char>)
    ensures
        forall|j: int|
            0 <= j < escape(v).len() ==> #[trigger] escape(v)[j] != '<' && escape(v)[j] != '>'
                && escape(v)[j] != '"' && escape(v)[j] != '\'',
    decreases v.len(),
{
    if v.len() > 0 {
        lemma_escape_safe(v.drop_first());
        assert forall|j: int|
            0 <= j < escape(v).len() implies #[trigger] escape(v)[j] != '<' && escape(v)[j] != '>'
            && escape(v)[j] != '"' && escape(v)[j] != '\'' by {
            assert(escape(v) == esc_char(v[0]) + escape(v.drop_first()));
            if j < esc_char(v[0]).len() {
                assert(escape(v)[j] == esc_char(v[0])[j]);
            } else {
                assert(escape(v)[j] == escape(v.drop_first())[j - esc_char(v[0]).len()]);
            }
        }
    }
}

/// Escaping never shortens text away entirely.
pub proof fn lemma_escape_len(t: Seq<char>)
    ensures
        escape(t).len() >= t.len(),
        (escape(t).len() == 0) == (t.len() == 0),
    decreases t.len(),
{
    if t.len() > 0 {
        lemma_escape_len(t.drop_first());
    }
}

/// An escaped text run before a tag reads back as the text it encodes.
pub proof fn lemma_scan_text(s: Seq<char>, p: int, t: Seq<char>)
    requires
        0 <= p,
        escape(t).len() > 0,
        p + escape(t).len() < s.len(),
        s.subrange(p, p + escape(t).len()) == escape(t),
        s[p + escape(t).len()] == '<',
    ensures
        scan_tok(s, p) == (XmlTok::Text(p as usize, (p + escape(t).len()) as usize)),
        unescape(s.subrange(p, p + escape(t).len())) == t,
{
    let e = escape(t);
    lemma_escape_safe(t);
    assert forall|j: int| p <= j < p + e.len() implies #[trigger] s[j] != '<' by {
        assert(s.subrange(p, p + e.len())[j - p] == s[j]);
    }
    assert(s[p] != '<') by {
        assert(s.subrange(p, p + e.len())[0] == s[p]);
    }
    lemma_quote_end_is(s, p, p + e.len(), '<');
    lemma_escape_unescape(t);
}

/// A generated start tag with attributes reads back as exactly that tag,
/// with its attribute span intact.
#[verifier::rlimit(100)]
#[verifier::spinoff_prover]
pub proof fn lemma_scan_tag_open_attrs(
    s: Seq<char>,
    p: int,
    name: Seq<char>,
    attrs: Seq<(Seq<char>, Seq<char>)>,
)
    requires
        0 <= p,
        p + start_tag_text(name, attrs, false).len() <= s.len(),
        s.subrange(p, p + start_tag_text(name, attrs, false).len()) == start_tag_text(
            name,
            attrs,
            false,
        ),
        name.len() > 0,
        forall|j: int| 0 <= j < name.len() ==> is_name_char(#[trigger] name[j]),
        attrs_text(attrs).len() > 0,
        forall|j: int|
            0 <= j < attrs_text(attrs).len() ==> #[trigger] attrs_text(attrs)[j] != '>',
        attrs_text(attrs)[0] == ' ',
        attrs_text(attrs)[attrs_text(attrs).len() - 1] != '/',
    ensures
        ({
            let at = attrs_text(attrs);
            let b = p + 1 + name.len();
            let g = b + at.len();
            scan_tok(s, p) == (XmlTok::Open(
                (p + 1) as usize,
                b as usize,
                g as usize,
                (g + 1) as usize,
            )) && s.subrange(b, g) == at && s.subrange(p + 1, b) == name
        }),
{
    let at = attrs_text(attrs);
    let tag = start_tag_text(name, attrs, false);
    let b = p + 1 + name.len();
    let g = b + at.len();
    assert(s[p] == '<') by {
        assert(s.subrange(p, p + tag.len())[0] == s[p]);
    }
    assert(s[p + 1] == name[0]) by {
        assert(s.subrange(p, p + tag.len())[1] == s[p + 1]);
        assert(tag[1] == name[0]);
    }
    assert forall|j: int| p + 1 <= j < b implies is_name_char(#[trigger] s[j]) by {
        assert(s.subrange(p, p + tag.len())[j - p] == s[j]);
        assert(tag[j - p] == name[j - p - 1]);
    }
    assert(s[b] == at[0]) by {
        assert(s.subrange(p, p + tag.len())[b - p] == s[b]);
        assert(tag[b - p] == at[0]);
    }
    assert(!is_name_char(' '));
    lemma_name_end_is(s, p + 1, b);
    assert forall|j: int| b <= j < g implies #[trigger] s[j] != '>' by {
        assert(s.subrange(p, p + tag.len())[j - p] == s[j]);
        assert(tag[j - p] == at[j - b]);
    }
    assert(s[g] == '>') by {
        assert(s.subrange(p, p + tag.len())[g - p] == s[g]);
        assert(tag[g - p] == '>');
    }
    lemma_quote_end_is(s, b, g, '>');
    assert(s[g - 1] == at[at.len() - 1]) by {
        assert(s.subrange(p, p + tag.len())[g - 1 - p] == s[g - 1]);
        assert(tag[g - 1 - p] == at[at.len() - 1]);
    }
    assert(is_name_char(name[0]));
    assert(name[0] != '?' && name[0] != '!' && name[0] != '/');
    assert(name_end(s, p + 1) == b);
    assert(quote_end(s, b, '>') == g);
    assert(g < s.len());
    assert(s[g - 1] != '/');
    assert(scan_tok(s, p) == (XmlTok::Open(
        (p + 1) as usize,
        b as usize,
        g as usize,
        (g + 1) as usize,
    )));
    assert(s.subrange(b, g) =~= at) by {
        assert forall|x: int| 0 <= x < at.len() implies s.subrange(b, g)[x] == at[x] by {
            assert(s.subrange(p, p + tag.len())[b - p + x] == s[b + x]);
            assert(tag[b - p + x] == at[x]);
        }
    }
    assert(s.subrange(p + 1, b) =~= name) by {
        assert forall|x: int| 0 <= x < name.len() implies s.subrange(p + 1, b)[x] == name[x] by {
            assert(s.subrange(p, p + tag.len())[1 + x] == s[p + 1 + x]);
            assert(tag[1 + x] == name[x]);
        }
    }
}

/// A generated self-closing tag reads back as exactly that tag, with its
/// attribute span intact.
#[verifier::rlimit(100)]
#[verifier::spinoff_prover]
pub proof fn lemma_scan_tag_empty(
    s: Seq<char>,
    p: int,
    name: Seq<char>,
    attrs: Seq<(Seq<char>, Seq<char>)>,
)
    requires
        0 <= p,
        p + start_tag_text(name, attrs, true).len() <= s.len(),
        s.subrange(p, p + start_tag_text(name, attrs, true).len()) == start_tag_text(
            name,
            attrs,
            true,
        ),
        name.len() > 0,
        forall|j: int| 0 <= j < name.len() ==> is_name_char(#[trigger] name[j]),
        forall|j: int|
            0 <= j < attrs_text(attrs).len() ==> #[trigger] attrs_text(attrs)[j] != '>',
        attrs.len() > 0 ==> attrs_text(attrs)[0] == ' ',
    ensures
        ({
            let at = attrs_text(attrs);
            let b = p + 1 + name.len();
            let g = b + at.len();
            scan_tok(s, p) == (XmlTok::OpenEmpty(
                (p + 1) as usize,
                b as usize,
                g as usize,
                (g + 2) as usize,
            )) && s.subrange(b, g) == at && s.subrange(p + 1, b) == name
        }),
{
    let at = attrs_text(attrs);
    let tag = start_tag_text(name, attrs, true);
    let b = p + 1 + name.len();
    let g = b + at.len();
    assert(s[p] == '<') by {
        assert(s.subrange(p, p + tag.len())[0] == s[p]);
    }
    assert(s[p + 1] == name[0]) by {
        assert(s.subrange(p, p + tag.len())[1] == s[p + 1]);
        assert(tag[1] == name[0]);
    }
    assert forall|j: int| p + 1 <= j < b implies is_name_char(#[trigger] s[j]) by {
        assert(s.subrange(p, p + tag.len())[j - p] == s[j]);
        assert(tag[j - p] == name[j - p - 1]);
    }
    if attrs.len() > 0 {
        assert(s[b] == at[0]) by {
            assert(s.subrange(p, p + tag.len())[b - p] == s[b]);
            assert(tag[b - p] == at[0]);
        }
        assert(!is_name_char(' '));
    } else {
        assert(at =~= Seq::<char>::empty());
        assert(s[b] == '/') by {
            assert(s.subrange(p, p + tag.len())[b - p] == s[b]);
            assert(tag[b - p] == '/');
        }
    }
    lemma_name_end_is(s, p + 1, b);
    assert forall|j: int| b <= j < g + 1 implies #[trigger] s[j] != '>' by {
        assert(s.subrange(p, p + tag.len())[j - p] == s[j]);
        if j < g {
            assert(tag[j - p] == at[j - b]);
        } else {
            assert(tag[j - p] == '/');
        }
    }
    assert(s[g + 1] == '>') by {
        assert(s.subrange(p, p + tag.len())[g + 1 - p] == s[g + 1]);
        assert(tag[g + 1 - p] == '>');
    }
    lemma_quote_end_is(s, b, g + 1, '>');
    assert(is_name_char(name[0]));
    assert(name[0] != '?' && name[0] != '!' && name[0] != '/');
    assert(name_end(s, p + 1) == b);
    assert(quote_end(s, b, '>') == g + 1);
    assert(g + 1 < s.len());
    assert(s[g] == '/') by {
        assert(s.subrange(p, p + tag.len())[g - p] == s[g]);
        assert(tag[g - p] == '/');
    }
    assert(scan_tok(s, p) == (XmlTok::OpenEmpty(
        (p + 1) as usize,
        b as usize,
        g as usize,
        (g + 2) as usize,
    )));
    assert(s.subrange(b, g) =~= at) by {
        assert forall|x: int| 0 <= x < at.len() implies s.subrange(b, g)[x] == at[x] by {
            assert(s.subrange(p, p + tag.len())[b - p + x] == s[b + x]);
            assert(tag[b - p + x] == at[x]);
        }
    }
    assert(s.subrange(p + 1, b) =~= name) by {
        assert forall|x: int| 0 <= x < name.len() implies s.subrange(p + 1, b)[x] == name[x] by {
            assert(s.subrange(p, p + tag.len())[1 + x] == s[p + 1 + x]);
            assert(tag[1 + x] == name[x]);
        }
    }
}

/// A generated attribute-free start tag reads back as exactly that tag.
pub proof fn lemma_scan_tag_open_plain(s: Seq<char>, p: int, name: Seq<char>)
    requires
        0 <= p,
        p + name.len() + 2 <= s.len(),
        s.subrange(p, p + name.len() + 2) == start_tag_text(name, Seq::empty(), false),
        name.len() > 0,
        forall|j: int| 0 <= j < name.len() ==> is_name_char(#[trigger] name[j]),
    ensures
        scan_tok(s, p) == (XmlTok::Open(
            (p + 1) as usize,
            (p + 1 + name.len()) as usize,
            (p + 1 + name.len()) as usize,
            (p + 2 + name.len()) as usize,
        )),
        s.subrange(p + 1, p + 1 + name.len()) == name,
{
    let tag = start_tag_text(name, Seq::empty(), false);
    let b = p + 1 + name.len();
    assert(attrs_text(Seq::empty()) =~= Seq::<char>::empty());
    assert(tag.len() == name.len() + 2);
    assert(s[p] == '<') by {
        assert(s.subrange(p, p + tag.len())[0] == s[p]);
    }
    assert(s[p + 1] == name[0]) by {
        assert(s.subrange(p, p + tag.len())[1] == s[p + 1]);
        assert(tag[1] == name[0]);
    }
    assert forall|j: int| p + 1 <= j < b implies is_name_char(#[trigger] s[j]) by {
        assert(s.subrange(p, p + tag.len())[j - p] == s[j]);
        assert(tag[j - p] == name[j - p - 1]);
    }
    assert(s[b] == '>') by {
        assert(s.subrange(p, p + tag.len())[b - p] == s[b]);
        assert(tag[b - p] == '>');
    }
    assert(!is_name_char('>'));
    lemma_name_end_is(s, p + 1, b);
    lemma_quote_end_is(s, b, b, '>');
    assert(s.subrange(p + 1, b) =~= name) by {
        assert forall|x: int| 0 <= x < name.len() implies s.subrange(p + 1, b)[x] == name[x] by {
            assert(s.subrange(p, p + tag.len())[1 + x] == s[p + 1 + x]);
            assert(tag[1 + x] == name[x]);
        }
    }
}

/// A generated end tag reads back as exactly that tag.
pub proof fn lemma_scan_tag_close(s: Seq<char>, p: int, name: Seq<char>)
    requires
        0 <= p,
        p + name.len() + 3 <= s.len(),
        s.subrange(p, p + name.len() + 3) == end_tag_text(name),
        name.len() > 0,
        forall|j: int| 0 <= j < name.len() ==> is_name_char(#[trigger] name[j]),
    ensures
        scan_tok(s, p) == (XmlTok::Close(
            (p + 2) as usize,
            (p + 2 + name.len()) as usize,
            (p + 3 + name.len()) as usize,
        )),
        s.subrange(p + 2, p + 2 + name.len()) == name,
{
    let tag = end_tag_text(name);
    let b = p + 2 + name.len();
    assert(tag.len() == name.len() + 3);
    assert(s[p] == '<') by {
        assert(s.subrange(p, p + tag.len())[0] == s[p]);
    }
    assert(s[p + 1] == '/') by {
        assert(s.subrange(p, p + tag.len())[1] == s[p + 1]);
        assert(tag[1] == '/');
    }
    assert forall|j: int| p + 2 <= j < b implies is_name_char(#[trigger] s[j]) by {
        assert(s.subrange(p, p + tag.len())[j - p] == s[j]);
        assert(tag[j - p] == name[j - p - 2]);
    }
    assert(s[b] == '>') by {
        assert(s.subrange(p, p + tag.len())[b - p] == s[b]);
        assert(tag[b - p] == '>');
    }
    assert(!is_name_char('>'));
    assert(!is_ws('>'));
    lemma_name_end_is(s, p + 2, b);
    lemma_quote_end_is(s, b, b, '>');
    assert(ws_end(s, b) == b);
    assert(s.subrange(p + 2, b) =~= name) by {
        assert forall|x: int| 0 <= x < name.len() implies s.subrange(p + 2, b)[x] == name[x] by {
            assert(s.subrange(p, p + tag.len())[2 + x] == s[p + 2 + x]);
            assert(tag[2 + x] == name[x]);
        }
    }
}

/// Read the token at `i`, with the positions the token spec gives.
pub(crate) fn next_tok(v: &Vec<char>, i: usize) -> (r: XmlTok)
    requires
        i <= v@.len(),
    ensures
        r == scan_tok(v@, i as int),
        match r {
            XmlTok::Decl(e) => i < e <= v@.len(),
            XmlTok::Open(a, b, g, e) => i < a <= b <= g < e && e <= v@.len(),
            XmlTok::OpenEmpty(a, b, g, e) => i < a <= b <= g < e && e <= v@.len(),
            XmlTok::Close(a, b, e) => i < a <= b < e && e <= v@.len(),
            XmlTok::Text(a, b) => i == a && a < b <= v@.len(),
            XmlTok::Eof => i == v@.len(),
            XmlTok::Bad => true,
        },
{
    let n = v.len();
    if i >= n {
        XmlTok::Eof
    } else if v[i] == '<' {
        if i + 1 < n && v[i + 1] == '?' {
            let g = scan_quote(v, i, '>');
            if g < n {
                XmlTok::Decl(g + 1)
            } else {
                XmlTok::Bad
            }
        } else if n - i > 3 && v[i + 1] == '!' && v[i + 2] == '-' && v[i + 3] == '-' {
            match scan_comment(v, i + 4) {
                Some(e) => XmlTok::Decl(e),
                None => XmlTok::Bad,
            }
        } else if i + 1 < n && v[i + 1] == '/' {
            let a = i + 2;
            let b = scan_name(v, a);
            let g = scan_quote(v, b, '>');
            let w = scan_ws(v, b);
            if b > a && g < n && w == g {
                XmlTok::Close(a, b, g + 1)
            } else {
                XmlTok::Bad
            }
        } else {
            let a = i + 1;
            let b = scan_name(v, a);
            let g = scan_quote(v, b, '>');
            if b > a && g < n {
                if g > b && v[g - 1] == '/' {
                    XmlTok::OpenEmpty(a, b, g - 1, g + 1)
                } else {
                    XmlTok::Open(a, b, g, g + 1)
                }
            } else {
                XmlTok::Bad
            }
        }
    } else {
        let t = scan_quote(v, i, '<');
        proof {
            assert(quote_end(v@, i as int, '<') == quote_end(v@, i as int + 1, '<'));
            lemma_quote_run(v@, i as int + 1, '<');
        }
        XmlTok::Text(i, t)
    }
}

/// The position just past the token at `i`; always past `i` except at the
/// end or on malformed markup.
pub open spec fn tok_end(s: Seq<char>, i: int) -> int {
    match scan_tok(s, i) {
        XmlTok::Decl(e) => e as int,
        XmlTok::Open(a, b, g, e) => e as int,
        XmlTok::OpenEmpty(a, b, g, e) => e as int,
        XmlTok::Close(a, b, e) => e as int,
        XmlTok::Text(a, b) => b as int,
        XmlTok::Eof => i,
        XmlTok::Bad => i,
    }
}

// ---------------------------------------------------------------------------
// Attribute lookup inside a tag's attribute span
// ---------------------------------------------------------------------------

/// The raw (still escaped) value range of the named attribute inside
/// `[i, to)`, scanning `name="value"` (or single-quoted `name='value'`)
/// pairs in order.
pub open spec fn attr_val(s: Seq<char>, i: int, to: int, name: Seq<char>) -> Option<(int, int)>
    decreases to - i,
{
    if i < 0 || i >= to || to > s.len() {
        None
    } else {
        let w = ws_end(s, i);
        if w >= to {
            None
        } else {
            let ne = name_end(s, w);
            if ne <= w || ne + 1 >= to || s[ne] != '=' || (s[ne + 1] != '"' && s[ne + 1]
                != '\'') {
                None
            } else {
                let q = quote_end(s, ne + 2, s[ne + 1]);
                if q >= to {
                    None
                } else if s.subrange(w, ne) == name {
                    Some((ne + 2, q))
                } else {
                    if q + 1 > i {
                        attr_val(s, q + 1, to, name)
                    } else {
                        None
                    }
                }
            }
        }
    }
}

/// One generated attribute at the head of a span scans into its parts.
#[verifier::rlimit(100)]
#[verifier::spinoff_prover]
proof fn lemma_attr_region(s: Seq<char>, b: int, g: int, n: Seq<char>, v: Seq<char>, rest: Seq<
    char,
>)
    requires
        0 <= b,
        b + 1 + n.len() + 2 + escape(v).len() + 1 + rest.len() == g,
        g <= s.len(),
        s.subrange(b, g) == seq![' '] + n + seq!['=', '"'] + escape(v) + seq!['"'] + rest,
        n.len() > 0,
        forall|j: int| 0 <= j < n.len() ==> is_name_char(#[trigger] n[j]),
    ensures
        ws_end(s, b) == b + 1,
        name_end(s, b + 1) == b + 1 + n.len(),
        s.subrange(b + 1, b + 1 + n.len()) == n,
        s[b + 1 + n.len()] == '=',
        s[b + 2 + n.len()] == '"',
        quote_end(s, b + 3 + n.len(), '"') == b + 3 + n.len() + escape(v).len(),
        s.subrange(b + 3 + n.len(), b + 3 + n.len() + escape(v).len()) == escape(v),
        s[b + 3 + n.len() + escape(v).len()] == '"',
{
    let at = seq![' '] + n + seq!['=', '"'] + escape(v) + seq!['"'] + rest;
    let ne = b + 1 + n.len();
    let vs = ne + 2;
    let ve = vs + escape(v).len();
    assert(s[b] == ' ') by {
        assert(s.subrange(b, g)[0] == s[b]);
    }
    assert(s[b + 1] == n[0]) by {
        assert(s.subrange(b, g)[1] == s[b + 1]);
        assert(at[1] == n[0]);
    }
    assert(ws_end(s, b + 1) == b + 1);
    assert(ws_end(s, b) == b + 1);
    assert forall|j: int| b + 1 <= j < ne implies is_name_char(#[trigger] s[j]) by {
        assert(s.subrange(b, g)[j - b] == s[j]);
        assert(at[j - b] == n[j - b - 1]);
    }
    assert(s[ne] == '=') by {
        assert(s.subrange(b, g)[ne - b] == s[ne]);
        assert(at[ne - b] == '=');
    }
    lemma_name_end_is(s, b + 1, ne);
    assert(s[ne + 1] == '"') by {
        assert(s.subrange(b, g)[ne + 1 - b] == s[ne + 1]);
        assert(at[ne + 1 - b] == '"');
    }
    lemma_escape_safe(v);
    assert forall|j: int| vs <= j < ve implies #[trigger] s[j] != '"' by {
        assert(s.subrange(b, g)[j - b] == s[j]);
        assert(at[j - b] == escape(v)[j - vs]);
    }
    assert(s[ve] == '"') by {
        assert(s.subrange(b, g)[ve - b] == s[ve]);
        assert(at[ve - b] == '"');
    }
    lemma_quote_end_is(s, vs, ve, '"');
    assert(s.subrange(b + 1, ne) =~= n) by {
        assert forall|x: int| 0 <= x < n.len() implies s.subrange(b + 1, ne)[x] == n[x] by {
            assert(s.subrange(b, g)[1 + x] == s[b + 1 + x]);
            assert(at[1 + x] == n[x]);
        }
    }
    assert(s.subrange(vs, ve) =~= escape(v)) by {
        assert forall|x: int| 0 <= x < escape(v).len() implies s.subrange(vs, ve)[x] == escape(
            v,
        )[x] by {
            assert(s.subrange(b, g)[vs - b + x] == s[vs + x]);
            assert(at[vs - b + x] == escape(v)[x]);
        }
    }
}

/// In a generated two-attribute span, each attribute reads back as its own
/// escaped value.
#[verifier::rlimit(100)]
#[verifier::spinoff_prover]
pub proof fn lemma_attr_val_two(
    s: Seq<char>,
    b: int,
    g: int,
    n0: Seq<char>,
    v0: Seq<char>,
    n1: Seq<char>,
    v1: Seq<char>,
)
    requires
        0 <= b <= g <= s.len(),
        s.subrange(b, g) == attrs_text(seq![(n0, v0), (n1, v1)]),
        n0.len() > 0,
        n1.len() > 0,
        forall|j: int| 0 <= j < n0.len() ==> is_name_char(#[trigger] n0[j]),
        forall|j: int| 0 <= j < n1.len() ==> is_name_char(#[trigger] n1[j]),
        n0 != n1,
    ensures
        ({
            let vs0 = b + 3 + n0.len();
            let ve0 = vs0 + escape(v0).len();
            let vs1 = ve0 + 4 + n1.len();
            let ve1 = vs1 + escape(v1).len();
            &&& attr_val(s, b, g, n0) == Some((vs0, ve0))
            &&& s.subrange(vs0, ve0) == escape(v0)
            &&& attr_val(s, b, g, n1) == Some((vs1, ve1))
            &&& s.subrange(vs1, ve1) == escape(v1)
        }),
{
    let attrs = seq![(n0, v0), (n1, v1)];
    let at1 = seq![' '] + n1 + seq!['=', '"'] + escape(v1) + seq!['"'];
    let a1 = attrs.drop_first();
    assert(a1 =~= seq![(n1, v1)]);
    assert(a1[0] == (n1, v1));
    assert(a1.drop_first() =~= Seq::<(Seq<char>, Seq<char>)>::empty());
    assert(attrs_text(a1.drop_first()) == Seq::<char>::empty());
    assert(attrs_text(a1) == seq![' '] + a1[0].0 + seq!['=', '"'] + escape(a1[0].1) + seq!['"']
        + attrs_text(a1.drop_first()));
    assert(attrs_text(a1) =~= at1);
    assert(attrs_text(attrs) =~= seq![' '] + n0 + seq!['=', '"'] + escape(v0) + seq!['"'] + at1);
    assert(s.subrange(b, g).len() == g - b);
    assert(at1.len() == 4 + n1.len() + escape(v1).len());
    assert(attrs_text(attrs).len() == 4 + n0.len() + escape(v0).len() + at1.len());
    assert(g - b == 4 + n0.len() + escape(v0).len() + at1.len());
    let vs0 = b + 3 + n0.len();
    let ve0 = vs0 + escape(v0).len();
    let b1 = ve0 + 1;
    let vs1 = b1 + 3 + n1.len();
    let ve1 = vs1 + escape(v1).len();
    lemma_attr_region(s, b, g, n0, v0, at1);
    assert(s.subrange(b1, g) =~= at1 + Seq::<char>::empty()) by {
        assert forall|x: int| 0 <= x < at1.len() implies s.subrange(b1, g)[x] == at1[x] by {
            assert(s.subrange(b, g)[b1 - b + x] == s[b1 + x]);
            assert(attrs_text(attrs)[b1 - b + x] == at1[x]);
        }
    }
    assert(s.subrange(b1, g) == seq![' '] + n1 + seq!['=', '"'] + escape(v1) + seq!['"']
        + Seq::<char>::empty()) by {
        assert(at1 + Seq::<char>::empty() =~= seq![' '] + n1 + seq!['=', '"'] + escape(v1)
            + seq!['"'] + Seq::<char>::empty());
    }
    lemma_attr_region(s, b1, g, n1, v1, Seq::empty());
    assert(attr_val(s, b, g, n0) == Some((vs0, ve0)));
    assert(s.subrange(b + 1, b + 1 + n0.len()) != n1);
    assert(attr_val(s, b1, g, n1) == Some((vs1, ve1)));
    assert(attr_val(s, b, g, n1) == attr_val(s, b1, g, n1));
}

/// In a generated three-attribute span, each attribute reads back as its
/// own escaped value.
#[verifier::rlimit(100)]
#[verifier::spinoff_prover]
pub proof fn lemma_attr_val_three(
    s: Seq<char>,
    b: int,
    g: int,
    n0: Seq<char>,
    v0: Seq<char>,
    n1: Seq<char>,
    v1: Seq<char>,
    n2: Seq<char>,
    v2: Seq<char>,
)
    requires
        0 <= b <= g <= s.len(),
        s.subrange(b, g) == attrs_text(seq![(n0, v0), (n1, v1), (n2, v2)]),
        n0.len() > 0,
        n1.len() > 0,
        n2.len() > 0,
        forall|j: int| 0 <= j < n0.len() ==> is_name_char(#[trigger] n0[j]),
        forall|j: int| 0 <= j < n1.len() ==> is_name_char(#[trigger] n1[j]),
        forall|j: int| 0 <= j < n2.len() ==> is_name_char(#[trigger] n2[j]),
        n0 != n1,
        n0 != n2,
        n1 != n2,
    ensures
        ({
            let vs0 = b + 3 + n0.len();
            let ve0 = vs0 + escape(v0).len();
            let vs1 = ve0 + 4 + n1.len();
            let ve1 = vs1 + escape(v1).len();
            let vs2 = ve1 + 4 + n2.len();
            let ve2 = vs2 + escape(v2).len();
            &&& attr_val(s, b, g, n0) == Some((vs0, ve0))
            &&& s.subrange(vs0, ve0) == escape(v0)
            &&& attr_val(s, b, g, n1) == Some((vs1, ve1))
            &&& s.subrange(vs1, ve1) == escape(v1)
            &&& attr_val(s, b, g, n2) == Some((vs2, ve2))
            &&& s.subrange(vs2, ve2) == escape(v2)
        }),
{
    let attrs = seq![(n0, v0), (n1, v1), (n2, v2)];
    let a12 = attrs.drop_first();
    assert(a12 =~= seq![(n1, v1), (n2, v2)]);
    let at12 = attrs_text(seq![(n1, v1), (n2, v2)]);
    assert(attrs_text(a12) == at12);
    assert(attrs_text(attrs) == seq![' '] + attrs[0].0 + seq!['=', '"'] + escape(attrs[0].1)
        + seq!['"'] + attrs_text(a12));
    assert(attrs_text(attrs) =~= seq![' '] + n0 + seq!['=', '"'] + escape(v0) + seq!['"'] + at12);
    lemma_attrs_text_two_safe(n1, v1, n2, v2);
    assert(s.subrange(b, g).len() == g - b);
    assert(attrs_text(attrs).len() == 4 + n0.len() + escape(v0).len() + at12.len());
    assert(g - b == 4 + n0.len() + escape(v0).len() + at12.len());
    let vs0 = b + 3 + n0.len();
    let ve0 = vs0 + escape(v0).len();
    let b1 = ve0 + 1;
    lemma_attr_region(s, b, g, n0, v0, at12);
    assert(s.subrange(b1, g) =~= at12) by {
        assert forall|x: int| 0 <= x < at12.len() implies s.subrange(b1, g)[x] == at12[x] by {
            assert(s.subrange(b, g)[b1 - b + x] == s[b1 + x]);
            assert(attrs_text(attrs)[b1 - b + x] == at12[x]);
        }
    }
    lemma_attr_val_two(s, b1, g, n1, v1, n2, v2);
    assert(attr_val(s, b, g, n0) == Some((vs0, ve0)));
    assert(s.subrange(b + 1, b + 1 + n0.len()) != n1);
    assert(s.subrange(b + 1, b + 1 + n0.len()) != n2);
    assert(attr_val(s, b, g, n1) == attr_val(s, b1, g, n1));
    assert(attr_val(s, b, g, n2) == attr_val(s, b1, g, n2));
}

/// A generated two-attribute span starts with a space and never holds the
/// character that would end its tag early.
#[verifier::rlimit(100)]
#[verifier::spinoff_prover]
pub proof fn lemma_attrs_text_two_safe(n0: Seq<char>, v0: Seq<char>, n1: Seq<char>, v1: Seq<char>)
    requires
        n0.len() > 0,
        n1.len() > 0,
        forall|j: int| 0 <= j < n0.len() ==> is_name_char(#[trigger] n0[j]),
        forall|j: int| 0 <= j < n1.len() ==> is_name_char(#[trigger] n1[j]),
    ensures
        ({
            let at = attrs_text(seq![(n0, v0), (n1, v1)]);
            at[0] == ' ' && at.len() == 8 + n0.len() + escape(v0).len() + n1.len() + escape(
                v1,
            ).len() && at[at.len() - 1] == '"' && (forall|j: int|
                0 <= j < at.len() ==> #[trigger] at[j] != '>')
        }),
{
    let attrs = seq![(n0, v0), (n1, v1)];
    let at1 = seq![' '] + n1 + seq!['=', '"'] + escape(v1) + seq!['"'];
    let a1 = attrs.drop_first();
    assert(a1 =~= seq![(n1, v1)]);
    assert(a1[0] == (n1, v1));
    assert(a1.drop_first() =~= Seq::<(Seq<char>, Seq<char>)>::empty());
    assert(attrs_text(a1.drop_first()) == Seq::<char>::empty());
    assert(attrs_text(a1) == seq![' '] + a1[0].0 + seq!['=', '"'] + escape(a1[0].1) + seq!['"']
        + attrs_text(a1.drop_first()));
    assert(attrs_text(a1) =~= at1);
    let at = seq![' '] + n0 + seq!['=', '"'] + escape(v0) + seq!['"'] + at1;
    assert(attrs_text(attrs) =~= at);
    lemma_escape_safe(v0);
    lemma_escape_safe(v1);
    assert forall|j: int| 0 <= j < at.len() implies #[trigger] at[j] != '>' by {
        let p0 = 1 + n0.len();
        let q0 = p0 + 2 + escape(v0).len();
        let b1 = q0 + 1;
        let p1 = b1 + 1 + n1.len();
        if 1 <= j < p0 {
            assert(at[j] == n0[j - 1]);
            assert(is_name_char(n0[j - 1]));
        } else if p0 + 2 <= j < q0 {
            assert(at[j] == escape(v0)[j - p0 - 2]);
        } else if b1 + 1 <= j < p1 {
            assert(at[j] == at1[j - b1]);
            assert(at1[j - b1] == n1[j - b1 - 1]);
            assert(is_name_char(n1[j - b1 - 1]));
        } else if p1 + 2 <= j < p1 + 2 + escape(v1).len() {
            assert(at[j] == at1[j - b1]);
            assert(at1[j - b1] == escape(v1)[j - p1 - 2]);
        } else {
            assert(at[j] == ' ' || at[j] == '=' || at[j] == '"');
        }
    }
}

/// A generated three-attribute span starts with a space and never holds
/// the character that would end its tag early.
#[verifier::rlimit(100)]
#[verifier::spinoff_prover]
pub proof fn lemma_attrs_text_three_safe(
    n0: Seq<char>,
    v0: Seq<char>,
    n1: Seq<char>,
    v1: Seq<char>,
    n2: Seq<char>,
    v2: Seq<char>,
)
    requires
        n0.len() > 0,
        n1.len() > 0,
        n2.len() > 0,
        forall|j: int| 0 <= j < n0.len() ==> is_name_char(#[trigger] n0[j]),
        forall|j: int| 0 <= j < n1.len() ==> is_name_char(#[trigger] n1[j]),
        forall|j: int| 0 <= j < n2.len() ==> is_name_char(#[trigger] n2[j]),
    ensures
        ({
            let at = attrs_text(seq![(n0, v0), (n1, v1), (n2, v2)]);
            at[0] == ' ' && at.len() == 12 + n0.len() + escape(v0).len() + n1.len() + escape(
                v1,
            ).len() + n2.len() + escape(v2).len() && at[at.len() - 1] == '"' && (forall|j: int|
                0 <= j < at.len() ==> #[trigger] at[j] != '>')
        }),
{
    let attrs = seq![(n0, v0), (n1, v1), (n2, v2)];
    let a12 = attrs.drop_first();
    assert(a12 =~= seq![(n1, v1), (n2, v2)]);
    let at12 = attrs_text(seq![(n1, v1), (n2, v2)]);
    assert(attrs_text(a12) == at12);
    assert(attrs_text(attrs) == seq![' '] + attrs[0].0 + seq!['=', '"'] + escape(attrs[0].1)
        + seq!['"'] + attrs_text(a12));
    let at = seq![' '] + n0 + seq!['=', '"'] + escape(v0) + seq!['"'] + at12;
    assert(attrs_text(attrs) =~= at);
    lemma_attrs_text_two_safe(n1, v1, n2, v2);
    lemma_escape_safe(v0);
    assert forall|j: int| 0 <= j < at.len() implies #[trigger] at[j] != '>' by {
        let p0 = 1 + n0.len();
        let q0 = p0 + 2 + escape(v0).len();
        let b1 = q0 + 1;
        if 1 <= j < p0 {
            assert(at[j] == n0[j - 1]);
            assert(is_name_char(n0[j - 1]));
        } else if p0 + 2 <= j < q0 {
            assert(at[j] == escape(v0)[j - p0 - 2]);
        } else if b1 <= j {
            assert(at[j] == at12[j - b1]);
        } else {
            assert(at[j] == ' ' || at[j] == '=' || at[j] == '"');
        }
    }
}

/// Look the named attribute up inside a tag's attribute span.
pub(crate) fn find_attr(v: &Vec<char>, from: usize, to: usize, name: &Vec<char>) -> (r: Option<
    (usize, usize),
>)
    requires
        from <= to <= v@.len(),
    ensures
        match r {
            Some(p) => attr_val(v@, from as int, to as int, name@) == Some((p.0 as int, p.1 as int))
                && from < p.0 <= p.1 <= to,
            None => attr_val(v@, from as int, to as int, name@) is None,
        },
{
    let mut i = from;
    while i < to
        invariant
            from <= i <= to <= v@.len(),
            attr_val(v@, from as int, to as int, name@) == attr_val(
                v@,
                i as int,
                to as int,
                name@,
            ),
        decreases to - i,
    {
        let w = scan_ws(v, i);
        if w >= to {
            return None;
        }
        let ne = scan_name(v, w);
        if ne <= w || ne >= to || v[ne] != '=' || ne + 1 >= to || (v[ne + 1] != '"' && v[ne + 1]
            != '\'') {
            return None;
        }
        let q = scan_quote(v, ne + 2, v[ne + 1]);
        if q >= to {
            return None;
        }
        let matched = crate::formula::seq_eq_range(v, w, ne, name);
        if matched {
            return Some((ne + 2, q));
        }
        proof {
            assert(attr_val(v@, i as int, to as int, name@) == attr_val(
                v@,
                q as int + 1,
                to as int,
                name@,
            ));
        }
        i = q + 1;
    }
    None
}

// ---------------------------------------------------------------------------
// Entity escaping
// ---------------------------------------------------------------------------

/// The escaped form of one character.
pub open spec fn esc_char(c: char) -> Seq<char> {
    if c == '&' {
        seq!['&', 'a', 'm', 'p', ';']
    } else if c == '<' {
        seq!['&', 'l', 't', ';']
    } else if c == '>' {
        seq!['&', 'g', 't', ';']
    } else if c == '"' {
        seq!['&', 'q', 'u', 'o', 't', ';']
    } else if c == '\'' {
        seq!['&', 'a', 'p', 'o', 's', ';']
    } else {
        seq![c]
    }
}

/// Text with every markup-significant character escaped.
pub open spec fn escape(s: Seq<char>) -> Seq<char>
    decreases s.len(),
{
    if s.len() == 0 {
        Seq::empty()
    } else {
        esc_char(s[0]) + escape(s.drop_first())
    }
}

/// The character a recognized entity name denotes.
pub open spec fn entity_char(name: Seq<char>) -> Option<char> {
    if name == seq!['a', 'm', 'p'] {
        Some('&')
    } else if name == seq!['l', 't'] {
        Some('<')
    } else if name == seq!['g', 't'] {
        Some('>')
    } else if name == seq!['q', 'u', 'o', 't'] {
        Some('"')
    } else if name == seq!['a', 'p', 'o', 's'] {
        Some('\'')
    } else {
        None
    }
}

/// Escaped text decoded: recognized entities become their characters, and
/// anything else is copied through unchanged.
pub open spec fn unescape_from(s: Seq<char>, i: int) -> Seq<char>
    decreases s.len() - i,
{
    if i < 0 || i >= s.len() {
        Seq::empty()
    } else if s[i] == '&' {
        let k = quote_end(s, i + 1, ';');
        if k < s.len() {
            match entity_char(s.subrange(i + 1, k)) {
                Some(c) => seq![c] + (if k + 1 > i {
                    unescape_from(s, k + 1)
                } else {
                    Seq::empty()
                }),
                None => seq!['&'] + unescape_from(s, i + 1),
            }
        } else {
            seq!['&'] + unescape_from(s, i + 1)
        }
    } else {
        seq![s[i]] + unescape_from(s, i + 1)
    }
}

pub open spec fn unescape(s: Seq<char>) -> Seq<char> {
    unescape_from(s, 0)
}

/// Escape text while appending to an output buffer.
pub(crate) fn push_escaped(out: &mut Vec<char>, v: &Vec<char>, from: usize, to: usize)
    requires
        from <= to <= v@.len(),
    ensures
        final(out)@ == old(out)@ + escape(v@.subrange(from as int, to as int)),
{
    let ghost sub = v@.subrange(from as int, to as int);
    let mut k = from;
    proof {
        assert(sub.take(0) =~= Seq::<char>::empty());
        assert(escape(Seq::<char>::empty()) == Seq::<char>::empty());
        assert(out@ =~= out@ + escape(sub.take(0)));
    }
    while k < to
        invariant
            from <= k <= to <= v@.len(),
            sub == v@.subrange(from as int, to as int),
            out@ == old(out)@ + escape(sub.take(k - from)),
        decreases to - k,
    {
        let c = v[k];
        proof {
            assert(sub[k - from] == v@[k as int]);
            lemma_escape_take(sub, k - from);
        }
        if c == '&' {
            out.push('&');
            out.push('a');
            out.push('m');
            out.push('p');
            out.push(';');
        } else if c == '<' {
            out.push('&');
            out.push('l');
            out.push('t');
            out.push(';');
        } else if c == '>' {
            out.push('&');
            out.push('g');
            out.push('t');
            out.push(';');
        } else if c == '"' {
            out.push('&');
            out.push('q');
            out.push('u');
            out.push('o');
            out.push('t');
            out.push(';');
        } else if c == '\'' {
            out.push('&');
            out.push('a');
            out.push('p');
            out.push('o');
            out.push('s');
            out.push(';');
        } else {
            out.push(c);
        }
        proof {
            assert(out@ =~= old(out)@ + (escape(sub.take(k - from)) + esc_char(sub[k - from])));
        }
        k += 1;
    }
    proof {
        assert(sub.take(to - from) =~= sub);
    }
}

/// Escaping one more character appends exactly its escaped form.
pub proof fn lemma_escape_take(s: Seq<char>, i: int)
    requires
        0 <= i < s.len(),
    ensures
        escape(s.take(i + 1)) == escape(s.take(i)) + esc_char(s[i]),
    decreases i,
{
    if i == 0 {
        assert(s.take(1).drop_first() =~= Seq::<char>::empty());
        assert(s.take(1)[0] == s[0]);
        assert(escape(s.take(1)) == esc_char(s[0]) + escape(Seq::<char>::empty()));
        assert(escape(s.take(0)) == Seq::<char>::empty());
        assert(esc_char(s[0]) + Seq::<char>::empty() =~= Seq::<char>::empty() + esc_char(s[0]));
    } else {
        lemma_escape_take(s.drop_first(), i - 1);
        assert(s.take(i + 1).drop_first() =~= s.drop_first().take(i));
        assert(s.take(i).drop_first() =~= s.drop_first().take(i - 1));
        assert(s.take(i + 1)[0] == s[0]);
        assert(s.take(i)[0] == s[0]);
        assert(escape(s.take(i + 1)) == esc_char(s[0]) + escape(s.drop_first().take(i)));
        assert(escape(s.take(i)) == esc_char(s[0]) + escape(s.drop_first().take(i - 1)));
        assert(s.drop_first()[i - 1] == s[i]);
        assert(esc_char(s[0]) + (escape(s.drop_first().take(i - 1)) + esc_char(s[i])) =~= (esc_char(
            s[0],
        ) + escape(s.drop_first().take(i - 1))) + esc_char(s[i]));
    }
}

/// Decode escaped text while appending to an output buffer.
pub(crate) fn push_unescaped(out: &mut Vec<char>, v: &Vec<char>, from: usize, to: usize)
    requires
        from <= to <= v@.len(),
    ensures
        final(out)@ == old(out)@ + unescape(v@.subrange(from as int, to as int)),
{
    let sub = copy_range(v, from, to);
    let dec = unescape_exec(&sub);
    crate::formula::push_all(out, &dec);
}

pub(crate) fn copy_range(v: &Vec<char>, from: usize, to: usize) -> (r: Vec<char>)
    requires
        from <= to <= v@.len(),
    ensures
        r@ == v@.subrange(from as int, to as int),
{
    let mut out: Vec<char> = Vec::new();
    let mut k = from;
    while k < to
        invariant
            from <= k <= to <= v@.len(),
            out@ == v@.subrange(from as int, k as int),
        decreases to - k,
    {
        proof {
            assert(v@.subrange(from as int, k as int + 1) =~= v@.subrange(from as int, k as int)
                + seq![v@[k as int]]);
        }
        out.push(v[k]);
        k += 1;
    }
    proof {
        if from == to {
            assert(v@.subrange(from as int, to as int) =~= Seq::<char>::empty());
        }
    }
    out
}

/// Decode a whole escaped text.
pub(crate) fn unescape_exec(v: &Vec<char>) -> (r: Vec<char>)
    ensures
        r@ == unescape(v@),
{
    let n = v.len();
    let mut out: Vec<char> = Vec::new();
    let mut i: usize = 0;
    while i < n
        invariant
            i <= n,
            n == v@.len(),
            unescape(v@) == out@ + unescape_from(v@, i as int),
        decreases n - i,
    {
        let ghost pre = out@;
        let ghost rest = unescape_from(v@, i as int);
        let c = v[i];
        let nx: usize;
        if c == '&' {
            let k = scan_quote(v, i + 1, ';');
            if k < n {
                match is_entity(v, i + 1, k) {
                    Some(ch) => {
                        out.push(ch);
                        nx = k + 1;
                        proof {
                            assert(rest == seq![ch] + unescape_from(v@, k as int + 1));
                            assert(out@ =~= pre + seq![ch]);
                        }
                    },
                    None => {
                        out.push('&');
                        nx = i + 1;
                        proof {
                            assert(rest == seq!['&'] + unescape_from(v@, i as int + 1));
                            assert(out@ =~= pre + seq!['&']);
                        }
                    },
                }
            } else {
                out.push('&');
                nx = i + 1;
                proof {
                    assert(rest == seq!['&'] + unescape_from(v@, i as int + 1));
                    assert(out@ =~= pre + seq!['&']);
                }
            }
        } else {
            out.push(c);
            nx = i + 1;
            proof {
                assert(rest == seq![c] + unescape_from(v@, i as int + 1));
                assert(out@ =~= pre + seq![c]);
            }
        }
        proof {
            let after = unescape_from(v@, nx as int);
            assert(pre + rest =~= out@ + after);
        }
        i = nx;
    }
    proof {
        assert(unescape_from(v@, n as int) =~= Seq::<char>::empty());
        assert(out@ + Seq::<char>::empty() =~= out@);
    }
    out
}

/// Decide whether `[from, to)` is a recognized entity name.
fn is_entity(v: &Vec<char>, from: usize, to: usize) -> (r: Option<char>)
    requires
        from <= to <= v@.len(),
    ensures
        r == entity_char(v@.subrange(from as int, to as int)),
{
    let ghost sub = v@.subrange(from as int, to as int);
    proof {
        assert(sub.len() == to - from);
        assert forall|j: int| 0 <= j < sub.len() implies sub[j] == v@[from + j] by {}
    }
    let n = to - from;
    if n == 3 && v[from] == 'a' && v[from + 1] == 'm' && v[from + 2] == 'p' {
        proof {
            assert(sub =~= seq!['a', 'm', 'p']);
        }
        Some('&')
    } else if n == 2 && v[from] == 'l' && v[from + 1] == 't' {
        proof {
            assert(sub =~= seq!['l', 't']);
        }
        Some('<')
    } else if n == 2 && v[from] == 'g' && v[from + 1] == 't' {
        proof {
            assert(sub =~= seq!['g', 't']);
        }
        Some('>')
    } else if n == 4 && v[from] == 'q' && v[from + 1] == 'u' && v[from + 2] == 'o' && v[from + 3]
        == 't' {
        proof {
            assert(sub =~= seq!['q', 'u', 'o', 't']);
        }
        Some('"')
    } else if n == 4 && v[from] == 'a' && v[from + 1] == 'p' && v[from + 2] == 'o' && v[from + 3]
        == 's' {
        proof {
            assert(sub =~= seq!['a', 'p', 'o', 's']);
        }
        Some('\'')
    } else {
        proof {
            if sub == seq!['a', 'm', 'p'] {
                assert(sub[0] == 'a' && sub[1] == 'm' && sub[2] == 'p' && sub.len() == 3);
            }
            if sub == seq!['l', 't'] {
                assert(sub[0] == 'l' && sub[1] == 't' && sub.len() == 2);
            }
            if sub == seq!['g', 't'] {
                assert(sub[0] == 'g' && sub[1] == 't' && sub.len() == 2);
            }
            if sub == seq!['q', 'u', 'o', 't'] {
                assert(sub[0] == 'q' && sub[1] == 'u' && sub[2] == 'o' && sub[3] == 't'
                    && sub.len() == 4);
            }
            if sub == seq!['a', 'p', 'o', 's'] {
                assert(sub[0] == 'a' && sub[1] == 'p' && sub[2] == 'o' && sub[3] == 's'
                    && sub.len() == 4);
            }
            assert(entity_char(sub) is None);
        }
        None
    }
}

// ---------------------------------------------------------------------------
// Escaping round trip
// ---------------------------------------------------------------------------

/// The stop-character scan finds the first stop character.
proof fn lemma_quote_first(s: Seq<char>, i: int, k: int, q: char)
    requires
        0 <= i <= k < s.len(),
        forall|j: int| i <= j < k ==> s[j] != q,
        s[k] == q,
    ensures
        quote_end(s, i, q) == k,
    decreases k - i,
{
    if i < k {
        lemma_quote_first(s, i + 1, k, q);
    }
}

/// Decoding from an offset equals decoding the suffix on its own.
proof fn lemma_unescape_tail(s: Seq<char>, m: int)
    requires
        0 <= m <= s.len(),
    ensures
        unescape_from(s, m) == unescape_from(s.skip(m), 0),
    decreases s.len() - m,
{
    let rest = s.skip(m);
    if m < s.len() {
        assert(rest[0] == s[m]);
        assert(rest.len() == s.len() - m);
        if s[m] == '&' {
            let k = quote_end(s, m + 1, ';');
            lemma_quote_run(s, m + 1, ';');
            let kr = quote_end(rest, 1, ';');
            lemma_quote_run(rest, 1, ';');
            if k < s.len() {
                assert forall|j: int| 1 <= j < k - m implies rest[j] != ';' by {
                    assert(rest[j] == s[m + j]);
                }
                assert(rest[k - m] == s[k as int]);
                lemma_quote_first(rest, 1, k - m, ';');
                assert(kr == k - m);
                assert(s.subrange(m + 1, k) =~= rest.subrange(1, k - m));
                match entity_char(rest.subrange(1, kr)) {
                    Some(c) => {
                        lemma_unescape_tail(s, k + 1);
                        lemma_unescape_tail(rest, k - m + 1);
                        assert(s.skip(k + 1) =~= rest.skip(k - m + 1));
                    },
                    None => {
                        lemma_unescape_tail(s, m + 1);
                        lemma_unescape_tail(rest, 1);
                        assert(s.skip(m + 1) =~= rest.skip(1));
                    },
                }
            } else {
                assert forall|j: int| 1 <= j < rest.len() implies rest[j] != ';' by {
                    assert(rest[j] == s[m + j]);
                }
                assert(kr == rest.len()) by {
                    if kr < rest.len() {
                        assert(rest[kr] == ';');
                    }
                }
                lemma_unescape_tail(s, m + 1);
                lemma_unescape_tail(rest, 1);
                assert(s.skip(m + 1) =~= rest.skip(1));
            }
        } else {
            lemma_unescape_tail(s, m + 1);
            lemma_unescape_tail(rest, 1);
            assert(s.skip(m + 1) =~= rest.skip(1));
        }
    }
}

/// Decoding starts over after an escaped character: the escaped character
/// decodes to itself and the rest continues.
proof fn lemma_unescape_esc_char(c: char, rest: Seq<char>)
    ensures
        unescape(esc_char(c) + rest) == seq![c] + unescape(rest),
{
    let s = esc_char(c) + rest;
    if c == '&' || c == '<' || c == '>' || c == '"' || c == '\'' {
        let m = esc_char(c).len() as int;
        assert(s[0] == '&');
        assert forall|j: int| 1 <= j < m - 1 implies s[j] != ';' by {
            assert(s[j] == esc_char(c)[j]);
        }
        assert(s[m - 1] == esc_char(c)[m - 1]);
        assert(s[m - 1] == ';');
        lemma_quote_first(s, 1, m - 1, ';');
        assert(quote_end(s, 1, ';') == m - 1);
        if c == '&' {
            assert(s.subrange(1, m - 1) =~= seq!['a', 'm', 'p']);
        } else if c == '<' {
            assert(s.subrange(1, m - 1) =~= seq!['l', 't']);
        } else if c == '>' {
            assert(s.subrange(1, m - 1) =~= seq!['g', 't']);
        } else if c == '"' {
            assert(s.subrange(1, m - 1) =~= seq!['q', 'u', 'o', 't']);
        } else {
            assert(s.subrange(1, m - 1) =~= seq!['a', 'p', 'o', 's']);
        }
        assert(entity_char(s.subrange(1, m - 1)) == Some(c));
        assert(unescape_from(s, 0) == seq![c] + unescape_from(s, m));
        lemma_unescape_tail(s, m);
        assert(s.skip(m) =~= rest);
    } else {
        assert(s[0] == c);
        assert(unescape_from(s, 0) == seq![c] + unescape_from(s, 1));
        lemma_unescape_tail(s, 1);
        assert(s.skip(1) =~= rest);
    }
}

/// Escaping then decoding gives the original text back, for every text.
pub proof fn lemma_escape_unescape(s: Seq<char>)
    ensures
        unescape(escape(s)) == s,
    decreases s.len(),
{
    if s.len() == 0 {
        assert(escape(s) == Seq::<char>::empty());
        assert(unescape_from(escape(s), 0) == Seq::<char>::empty());
        assert(unescape(escape(s)) =~= s);
    } else {
        lemma_escape_unescape(s.drop_first());
        assert(escape(s) == esc_char(s[0]) + escape(s.drop_first()));
        lemma_unescape_esc_char(s[0], escape(s.drop_first()));
        assert(unescape(escape(s)) == seq![s[0]] + s.drop_first());
        assert(seq![s[0]] + s.drop_first() =~= s);
    }
}

// ---------------------------------------------------------------------------
// Tag writers
// ---------------------------------------------------------------------------

/// The views of an attribute list.
pub open spec fn attrs_view(attrs: Seq<(&str, &str)>) -> Seq<(Seq<char>, Seq<char>)> {
    attrs.map_values(|p: (&str, &str)| (p.0@, p.1@))
}

/// The text of an attribute list: each pair as ` name="escaped value"`.
pub open spec fn attrs_text(attrs: Seq<(Seq<char>, Seq<char>)>) -> Seq<char>
    decreases attrs.len(),
{
    if attrs.len() == 0 {
        Seq::empty()
    } else {
        seq![' '] + attrs[0].0 + seq!['=', '"'] + escape(attrs[0].1) + seq!['"'] + attrs_text(
            attrs.drop_first(),
        )
    }
}

/// The text of a start tag, self-closing if `empty`.
pub open spec fn start_tag_text(
    name: Seq<char>,
    attrs: Seq<(Seq<char>, Seq<char>)>,
    empty: bool,
) -> Seq<char> {
    seq!['<'] + name + attrs_text(attrs) + (if empty {
        seq!['/', '>']
    } else {
        seq!['>']
    })
}

/// The text of an end tag.
pub open spec fn end_tag_text(name: Seq<char>) -> Seq<char> {
    seq!['<', '/'] + name + seq!['>']
}

/// One more attribute appends exactly its own text.
proof fn lemma_attrs_text_take(attrs: Seq<(Seq<char>, Seq<char>)>, i: int)
    requires
        0 <= i < attrs.len(),
    ensures
        attrs_text(attrs.take(i + 1)) == attrs_text(attrs.take(i)) + (seq![' '] + attrs[i].0
            + seq!['=', '"'] + escape(attrs[i].1) + seq!['"']),
    decreases i,
{
    let one = seq![' '] + attrs[i].0 + seq!['=', '"'] + escape(attrs[i].1) + seq!['"'];
    if i == 0 {
        assert(attrs.take(1).drop_first() =~= Seq::<(Seq<char>, Seq<char>)>::empty());
        assert(attrs.take(0) =~= Seq::<(Seq<char>, Seq<char>)>::empty());
        assert(attrs.take(1)[0] == attrs[0]);
        assert(attrs_text(Seq::<(Seq<char>, Seq<char>)>::empty()) == Seq::<char>::empty());
        assert(attrs_text(attrs.take(1)) == seq![' '] + attrs.take(1)[0].0 + seq!['=', '"']
            + escape(attrs.take(1)[0].1) + seq!['"'] + attrs_text(attrs.take(1).drop_first()));
        assert(attrs_text(attrs.take(1)) =~= one);
        assert(attrs_text(attrs.take(0)) + one =~= one);
    } else {
        lemma_attrs_text_take(attrs.drop_first(), i - 1);
        assert(attrs.take(i + 1).drop_first() =~= attrs.drop_first().take(i));
        assert(attrs.take(i).drop_first() =~= attrs.drop_first().take(i - 1));
        assert(attrs.take(i + 1)[0] == attrs[0]);
        assert(attrs.take(i)[0] == attrs[0]);
        let head = seq![' '] + attrs[0].0 + seq!['=', '"'] + escape(attrs[0].1) + seq!['"'];
        assert(attrs_text(attrs.take(i + 1)) == head + attrs_text(attrs.drop_first().take(i)));
        assert(attrs_text(attrs.take(i)) == head + attrs_text(attrs.drop_first().take(i - 1)));
        assert(attrs.drop_first()[i - 1] == attrs[i]);
        assert(head + (attrs_text(attrs.drop_first().take(i - 1)) + one) =~= (head + attrs_text(
            attrs.drop_first().take(i - 1),
        )) + one);
    }
}

/// Append a string's characters to the buffer.
pub(crate) fn push_str_chars(out: &mut Vec<char>, s: &str)
    ensures
        final(out)@ == old(out)@ + s@,
{
    let cv = crate::util::chars_vec(s);
    crate::formula::push_all(out, &cv);
}

/// Append a string's characters, escaped.
pub(crate) fn push_str_escaped(out: &mut Vec<char>, s: &str)
    ensures
        final(out)@ == old(out)@ + escape(s@),
{
    let cv = crate::util::chars_vec(s);
    proof {
        assert(cv@.subrange(0, cv@.len() as int) =~= cv@);
    }
    push_escaped(out, &cv, 0, cv.len());
}

/// Write a start tag with its attribute list, self-closing if `empty`.
pub fn write_start_tag(out: &mut Vec<char>, name: &str, attrs: &Vec<(&str, &str)>, empty: bool)
    ensures
        final(out)@ == old(out)@ + start_tag_text(name@, attrs_view(attrs@), empty),
{
    let ghost av = attrs_view(attrs@);
    out.push('<');
    push_str_chars(out, name);
    proof {
        assert(av.take(0) =~= Seq::<(Seq<char>, Seq<char>)>::empty());
        assert(out@ =~= old(out)@ + seq!['<'] + name@ + attrs_text(av.take(0)));
    }
    let mut i: usize = 0;
    while i < attrs.len()
        invariant
            i <= attrs@.len(),
            av == attrs_view(attrs@),
            av.len() == attrs@.len(),
            out@ == old(out)@ + seq!['<'] + name@ + attrs_text(av.take(i as int)),
        decreases attrs@.len() - i,
    {
        let pair = attrs[i];
        out.push(' ');
        push_str_chars(out, pair.0);
        out.push('=');
        out.push('"');
        push_str_escaped(out, pair.1);
        out.push('"');
        proof {
            assert(av[i as int] == (pair.0@, pair.1@));
            lemma_attrs_text_take(av, i as int);
            assert(out@ =~= old(out)@ + seq!['<'] + name@ + (attrs_text(av.take(i as int)) + (
            seq![' '] + av[i as int].0 + seq!['=', '"'] + escape(av[i as int].1) + seq!['"'])));
            assert(out@ =~= old(out)@ + seq!['<'] + name@ + attrs_text(av.take(i as int + 1)));
        }
        i += 1;
    }
    proof {
        assert(av.take(av.len() as int) =~= av);
    }
    if empty {
        out.push('/');
        out.push('>');
        proof {
            assert(out@ =~= old(out)@ + start_tag_text(name@, av, true));
        }
    } else {
        out.push('>');
        proof {
            assert(out@ =~= old(out)@ + start_tag_text(name@, av, false));
        }
    }
}

/// Write an end tag.
pub fn write_end_tag(out: &mut Vec<char>, name: &str)
    ensures
        final(out)@ == old(out)@ + end_tag_text(name@),
{
    out.push('<');
    out.push('/');
    push_str_chars(out, name);
    out.push('>');
    proof {
        assert(out@ =~= old(out)@ + end_tag_text(name@));
    }
}

/// Write a text node, escaped.
pub fn write_text_node(out: &mut Vec<char>, text: &str)
    ensures
        final(out)@ == old(out)@ + escape(text@),
{
    push_str_escaped(out, text);
}

} // verus!
