use vstd::prelude::*;

use crate::cell_value::is_ascii_digit;
use crate::util::chars_vec;
use crate::util::string_from_chars;

verus! {

// ---------------------------------------------------------------------------
// Coordinate-aware formula rewriting.
//
// On a structural edit (rows or columns inserted or removed), every formula
// in the workbook is rewritten: cell references qualified to the edited sheet
// are rewritten wherever they stand, and unqualified references are rewritten
// only in formulas living on the edited sheet. An inserted band shifts every
// reference at or past the edit point; a removed band invalidates references
// inside it and shifts the ones past it back. Anchored (`$`) references are
// shifted exactly like relative ones, with their anchors kept; a rewritten
// reference is re-rendered canonically (upper-case column letters, no leading
// zeros).
// ---------------------------------------------------------------------------

pub open spec fn is_ref_letter(c: char) -> bool {
    ('A' <= c && c <= 'Z') || ('a' <= c && c <= 'z')
}

pub open spec fn is_ident_char(c: char) -> bool {
    is_ref_letter(c) || is_ascii_digit(c) || c == '_' || c == '.'
}

pub open spec fn is_token_char(c: char) -> bool {
    is_ident_char(c) || c == '$'
}

// --- run ends ---------------------------------------------------------------

/// First position at or after `i` that is not a letter.
pub open spec fn letters_end(s: Seq<char>, i: int) -> int
    decreases s.len() - i,
{
    if i < s.len() && is_ref_letter(s[i]) {
        letters_end(s, i + 1)
    } else {
        i
    }
}

/// First position at or after `i` that is not a digit.
pub open spec fn digits_end(s: Seq<char>, i: int) -> int
    decreases s.len() - i,
{
    if i < s.len() && is_ascii_digit(s[i]) {
        digits_end(s, i + 1)
    } else {
        i
    }
}

/// First position at or after `i` that is not an identifier character.
pub open spec fn ident_end(s: Seq<char>, i: int) -> int
    decreases s.len() - i,
{
    if i < s.len() && is_ident_char(s[i]) {
        ident_end(s, i + 1)
    } else {
        i
    }
}

/// First position at or after `i` that is not a token character.
pub open spec fn token_end(s: Seq<char>, i: int) -> int
    decreases s.len() - i,
{
    if i < s.len() && is_token_char(s[i]) {
        token_end(s, i + 1)
    } else {
        i
    }
}

/// First position at or after `i` holding the given quote, or the length.
pub open spec fn quote_end(s: Seq<char>, i: int, q: char) -> int
    decreases s.len() - i,
{
    if i < s.len() && s[i] != q {
        quote_end(s, i + 1, q)
    } else {
        i
    }
}

fn scan_letters(v: &Vec<char>, i: usize) -> (r: usize)
    requires
        i <= v@.len(),
    ensures
        r == letters_end(v@, i as int),
        i <= r <= v@.len(),
{
    let mut j = i;
    while j < v.len() && v[j] >= 'A' && (v[j] <= 'Z' || (v[j] >= 'a' && v[j] <= 'z'))
        invariant
            i <= j <= v@.len(),
            letters_end(v@, i as int) == letters_end(v@, j as int),
        decreases v@.len() - j,
    {
        j += 1;
    }
    j
}

fn scan_digits(v: &Vec<char>, i: usize) -> (r: usize)
    requires
        i <= v@.len(),
    ensures
        r == digits_end(v@, i as int),
        i <= r <= v@.len(),
{
    let mut j = i;
    while j < v.len() && v[j] >= '0' && v[j] <= '9'
        invariant
            i <= j <= v@.len(),
            digits_end(v@, i as int) == digits_end(v@, j as int),
        decreases v@.len() - j,
    {
        j += 1;
    }
    j
}

fn is_ident_char_exec(c: char) -> (r: bool)
    ensures
        r == is_ident_char(c),
{
    (c >= 'A' && c <= 'Z') || (c >= 'a' && c <= 'z') || (c >= '0' && c <= '9') || c == '_' || c
        == '.'
}

fn scan_ident(v: &Vec<char>, i: usize) -> (r: usize)
    requires
        i <= v@.len(),
    ensures
        r == ident_end(v@, i as int),
        i <= r <= v@.len(),
{
    let mut j = i;
    while j < v.len() && is_ident_char_exec(v[j])
        invariant
            i <= j <= v@.len(),
            ident_end(v@, i as int) == ident_end(v@, j as int),
        decreases v@.len() - j,
    {
        j += 1;
    }
    j
}

fn scan_token(v: &Vec<char>, i: usize) -> (r: usize)
    requires
        i <= v@.len(),
    ensures
        r == token_end(v@, i as int),
        i <= r <= v@.len(),
{
    let mut j = i;
    while j < v.len() && (is_ident_char_exec(v[j]) || v[j] == '$')
        invariant
            i <= j <= v@.len(),
            token_end(v@, i as int) == token_end(v@, j as int),
        decreases v@.len() - j,
    {
        j += 1;
    }
    j
}

pub(crate) fn scan_quote(v: &Vec<char>, i: usize, q: char) -> (r: usize)
    requires
        i <= v@.len(),
    ensures
        r == quote_end(v@, i as int, q),
        i <= r <= v@.len(),
{
    let mut j = i;
    while j < v.len() && v[j] != q
        invariant
            i <= j <= v@.len(),
            quote_end(v@, i as int, q) == quote_end(v@, j as int, q),
        decreases v@.len() - j,
    {
        j += 1;
    }
    j
}

// --- numeric values of letter and digit runs --------------------------------

/// 1-based value of a column letter (`A` or `a` is 1).
pub open spec fn letter_val(c: char) -> int {
    if 'a' <= c && c <= 'z' {
        c as int - 'a' as int + 1
    } else {
        c as int - 'A' as int + 1
    }
}

/// Base-26 bijective value of a column letter run (`A` = 1, `AA` = 27).
pub open spec fn col_num(s: Seq<char>) -> int
    decreases s.len(),
{
    if s.len() == 0 {
        0
    } else {
        col_num(s.drop_last()) * 26 + letter_val(s.last())
    }
}

/// Decimal value of a digit run.
pub open spec fn digits_val(s: Seq<char>) -> int
    decreases s.len(),
{
    if s.len() == 0 {
        0
    } else {
        digits_val(s.drop_last()) * 10 + (s.last() as int - '0' as int)
    }
}

proof fn lemma_col_num_bound1(s: Seq<char>)
    requires
        forall|j: int| 0 <= j < s.len() ==> is_ref_letter(#[trigger] s[j]),
        s.len() <= 1,
    ensures
        0 <= col_num(s) <= 26,
{
    if s.len() > 0 {
        assert(s.drop_last().len() == 0);
        assert(col_num(s.drop_last()) == 0);
        assert(is_ref_letter(s[s.len() - 1]));
        assert(1 <= letter_val(s.last()) <= 26);
    }
}

proof fn lemma_col_num_bound2(s: Seq<char>)
    requires
        forall|j: int| 0 <= j < s.len() ==> is_ref_letter(#[trigger] s[j]),
        s.len() <= 2,
    ensures
        0 <= col_num(s) <= 702,
{
    if s.len() > 0 {
        lemma_col_num_bound1(s.drop_last());
        assert(is_ref_letter(s[s.len() - 1]));
        assert(1 <= letter_val(s.last()) <= 26);
    }
}

pub proof fn lemma_col_num_bound(s: Seq<char>)
    requires
        forall|j: int| 0 <= j < s.len() ==> is_ref_letter(#[trigger] s[j]),
        s.len() <= 3,
    ensures
        0 <= col_num(s) <= 18278,
        s.len() >= 1 ==> col_num(s) >= 1,
{
    if s.len() > 0 {
        lemma_col_num_bound2(s.drop_last());
        assert(is_ref_letter(s[s.len() - 1]));
        assert(1 <= letter_val(s.last()) <= 26);
    }
}


/// General bound: at most `k` digits give a value under ten to the `k`.
pub proof fn lemma_digits_val_pow(s: Seq<char>, k: nat)
    requires
        forall|j: int| 0 <= j < s.len() ==> is_ascii_digit(#[trigger] s[j]),
        s.len() <= k,
    ensures
        0 <= digits_val(s) < pow10(k),
    decreases k,
{
    if s.len() == 0 {
        lemma_pow10_pos(k);
    } else {
        lemma_digits_val_pow(s.drop_last(), (k - 1) as nat);
        assert(0 <= s.last() as int - '0' as int <= 9);
        assert(digits_val(s.drop_last()) <= pow10((k - 1) as nat) - 1);
        assert(digits_val(s) <= (pow10((k - 1) as nat) - 1) * 10 + 9) by (nonlinear_arith)
            requires
                digits_val(s) == digits_val(s.drop_last()) * 10 + (s.last() as int - '0' as int),
                digits_val(s.drop_last()) <= pow10((k - 1) as nat) - 1,
                0 <= s.last() as int - '0' as int <= 9,
        ;
    }
}

pub open spec fn pow10(k: nat) -> int
    decreases k,
{
    if k == 0 {
        1
    } else {
        10 * pow10((k - 1) as nat)
    }
}

pub proof fn lemma_pow10_pos(k: nat)
    ensures
        pow10(k) >= 1,
    decreases k,
{
    if k > 0 {
        lemma_pow10_pos((k - 1) as nat);
    }
}

fn col_num_exec(v: &Vec<char>, from: usize, to: usize) -> (r: u64)
    requires
        from <= to <= v@.len(),
        to - from <= 3,
        forall|j: int| from <= j < to ==> is_ref_letter(#[trigger] v@[j]),
    ensures
        r == col_num(v@.subrange(from as int, to as int)),
        r <= 18278,
{
    let ghost sub = v@.subrange(from as int, to as int);
    proof {
        assert forall|j: int| 0 <= j < sub.len() implies is_ref_letter(#[trigger] sub[j]) by {
            assert(sub[j] == v@[from + j]);
        }
    }
    let mut acc: u64 = 0;
    let mut k = from;
    proof {
        assert(sub.take(0) =~= Seq::<char>::empty());
    }
    while k < to
        invariant
            from <= k <= to <= v@.len(),
            to - from <= 3,
            sub == v@.subrange(from as int, to as int),
            forall|j: int| 0 <= j < sub.len() ==> is_ref_letter(#[trigger] sub[j]),
            forall|j: int| from <= j < to ==> is_ref_letter(#[trigger] v@[j]),
            acc == col_num(sub.take(k - from)),
            acc <= 18278,
        decreases to - k,
    {
        let c = v[k];
        proof {
            assert(v@[k as int] == sub[k - from]);
            assert(is_ref_letter(sub[k - from]));
            assert(is_ref_letter(c));
        }
        let lv: u64 = if c >= 'a' && c <= 'z' {
            (c as u64) - ('a' as u64) + 1
        } else {
            (c as u64) - ('A' as u64) + 1
        };
        proof {
            assert(lv == letter_val(sub[k - from]));
            assert(1 <= lv <= 26);
            assert(sub.take(k - from + 1).drop_last() =~= sub.take(k - from));
            assert(sub.take(k - from + 1).last() == sub[k - from]);
            lemma_col_num_bound(sub.take(k - from + 1));
        }
        acc = acc * 26 + lv;
        k += 1;
    }
    proof {
        assert(sub.take(to - from) =~= sub);
    }
    acc
}

pub(crate) fn digits_val_exec(v: &Vec<char>, from: usize, to: usize) -> (r: u64)
    requires
        from <= to <= v@.len(),
        to - from <= 7,
        forall|j: int| from <= j < to ==> is_ascii_digit(#[trigger] v@[j]),
    ensures
        r == digits_val(v@.subrange(from as int, to as int)),
        r < 10000000,
{
    let ghost sub = v@.subrange(from as int, to as int);
    proof {
        assert forall|j: int| 0 <= j < sub.len() implies is_ascii_digit(#[trigger] sub[j]) by {
            assert(sub[j] == v@[from + j]);
        }
    }
    let mut acc: u64 = 0;
    let mut k = from;
    proof {
        assert(sub.take(0) =~= Seq::<char>::empty());
    }
    while k < to
        invariant
            from <= k <= to <= v@.len(),
            to - from <= 7,
            sub == v@.subrange(from as int, to as int),
            forall|j: int| 0 <= j < sub.len() ==> is_ascii_digit(#[trigger] sub[j]),
            acc == digits_val(sub.take(k - from)),
            acc < 10000000,
        decreases to - k,
    {
        let c = v[k];
        proof {
            assert(v@[k as int] == sub[k - from]);
            assert(is_ascii_digit(sub[k - from]));
            assert(is_ascii_digit(c));
        }
        let dv: u64 = (c as u64) - ('0' as u64);
        proof {
            assert(dv == sub[k - from] as int - '0' as int);
            assert(0 <= dv <= 9);
            assert(sub.take(k - from + 1).drop_last() =~= sub.take(k - from));
            assert(sub.take(k - from + 1).last() == sub[k - from]);
            lemma_digits_val_pow(sub.take(k - from + 1), 7);
            lemma_pow10_unfold();
        }
        acc = acc * 10 + dv;
        k += 1;
    }
    proof {
        assert(sub.take(to - from) =~= sub);
    }
    acc
}

/// The first seven powers of ten, spelled out.
proof fn lemma_pow10_unfold()
    ensures
        pow10(7) == 10000000,
{
    assert(pow10(0) == 1);
    assert(pow10(1) == 10);
    assert(pow10(2) == 100);
    assert(pow10(3) == 1000);
    assert(pow10(4) == 10000);
    assert(pow10(5) == 100000);
    assert(pow10(6) == 1000000);
    assert(pow10(7) == 10000000);
}

// --- rendering numbers back to text -----------------------------------------

/// The decimal rendering of a non-negative number.
pub open spec fn num_str(n: int) -> Seq<char>
    decreases n,
{
    if n < 10 {
        seq![(('0' as int + n) as char)]
    } else {
        num_str(n / 10).push((('0' as int + n % 10) as char))
    }
}

/// A number below the `k`-th power of ten renders in at most `k` digits.
pub proof fn lemma_num_str_len(n: int, k: nat)
    requires
        0 <= n < pow10(k),
        1 <= k,
    ensures
        num_str(n).len() <= k,
    decreases k,
{
    if n >= 10 {
        assert(pow10(k) == 10 * pow10((k - 1) as nat));
        lemma_pow10_pos((k - 1) as nat);
        if k == 1 {
            assert(pow10(1) == 10 * pow10(0));
            assert(false);
        }
        assert(n / 10 < pow10((k - 1) as nat)) by {
            if n / 10 >= pow10((k - 1) as nat) {
                assert(n >= 10 * (n / 10)) by (nonlinear_arith)
                    requires
                        n >= 0,
                ;
                assert(10 * (n / 10) >= 10 * pow10((k - 1) as nat)) by (nonlinear_arith)
                    requires
                        n / 10 >= pow10((k - 1) as nat),
                ;
            }
        }
        lemma_num_str_len(n / 10, (k - 1) as nat);
    }
}

/// Twenty is digits enough for any machine-word count.
pub proof fn lemma_pow10_20()
    ensures
        pow10(20) == 100000000000000000000,
        pow10(20) > usize::MAX,
{
    assert(pow10(0) == 1);
    assert(pow10(1) == 10);
    assert(pow10(2) == 100);
    assert(pow10(3) == 1000);
    assert(pow10(4) == 10000);
    assert(pow10(5) == 100000);
    assert(pow10(6) == 1000000);
    assert(pow10(7) == 10000000);
    assert(pow10(8) == 100000000);
    assert(pow10(9) == 1000000000);
    assert(pow10(10) == 10000000000);
    assert(pow10(11) == 100000000000);
    assert(pow10(12) == 1000000000000);
    assert(pow10(13) == 10000000000000);
    assert(pow10(14) == 100000000000000);
    assert(pow10(15) == 1000000000000000);
    assert(pow10(16) == 10000000000000000);
    assert(pow10(17) == 100000000000000000);
    assert(pow10(18) == 1000000000000000000);
    assert(pow10(19) == 10000000000000000000);
    assert(pow10(20) == 100000000000000000000);
}

/// The bijective base-26 letter rendering of a column number.
pub open spec fn letters_of(n: int) -> Seq<char>
    decreases n,
{
    if n <= 0 {
        Seq::empty()
    } else {
        letters_of((n - 1) / 26).push((('A' as int + (n - 1) % 26) as char))
    }
}

pub(crate) fn num_str_exec(n: u64) -> (r: Vec<char>)
    ensures
        r@ == num_str(n as int),
    decreases n,
{
    if n < 10 {
        let c = (48u8 + (n as u8)) as char;
        let mut v: Vec<char> = Vec::new();
        v.push(c);
        proof {
            assert(v@ =~= num_str(n as int));
        }
        v
    } else {
        let mut v = num_str_exec(n / 10);
        let c = (48u8 + ((n % 10) as u8)) as char;
        v.push(c);
        v
    }
}

fn letters_of_exec(n: u64) -> (r: Vec<char>)
    ensures
        r@ == letters_of(n as int),
    decreases n,
{
    if n == 0 {
        let v: Vec<char> = Vec::new();
        proof {
            assert(v@ =~= letters_of(0));
        }
        v
    } else {
        let mut v = letters_of_exec((n - 1) / 26);
        let c = (65u8 + (((n - 1) % 26) as u8)) as char;
        v.push(c);
        v
    }
}

// --- reference parsing -------------------------------------------------------

/// No token may continue directly after a cell reference, and a following
/// opening parenthesis marks a function name instead.
pub open spec fn boundary_ok(s: Seq<char>, j: int) -> bool {
    j >= s.len() || !(is_token_char(s[j]) || s[j] == '(')
}

/// A cell coordinate at `i`: an optional anchor, one to three column
/// letters, an optional anchor, one to seven row digits, then a boundary.
/// Yields (column anchored, column number, row anchored, row number, end).
pub open spec fn parse_cell_at(s: Seq<char>, i: int) -> Option<(bool, int, bool, int, int)> {
    let ls = if i < s.len() && s[i] == '$' {
        i + 1
    } else {
        i
    };
    let le = letters_end(s, ls);
    let ds = if le < s.len() && s[le] == '$' {
        le + 1
    } else {
        le
    };
    let de = digits_end(s, ds);
    if 1 <= le - ls && le - ls <= 3 && 1 <= de - ds && de - ds <= 7 && boundary_ok(s, de) {
        Some(
            (ls > i, col_num(s.subrange(ls, le)), ds > le, digits_val(s.subrange(ds, de)), de),
        )
    } else {
        None
    }
}

/// A parsed cell reference: where its coordinate part starts (`pre_end`,
/// everything before it is the verbatim qualifier), its optional sheet
/// qualifier name, its coordinate values and anchors, and its end.
pub struct RefShape {
    pub pre_end: int,
    pub qual: Option<Seq<char>>,
    pub col_abs: bool,
    pub col: int,
    pub row_abs: bool,
    pub row: int,
    pub end: int,
}

/// A reference candidate at `i`: a quoted sheet qualifier, a plain sheet
/// qualifier, or a bare coordinate.
pub open spec fn parse_ref_at(s: Seq<char>, i: int) -> Option<RefShape> {
    if i < s.len() && s[i] == '\'' {
        let qe = quote_end(s, i + 1, '\'');
        if qe < s.len() && qe + 1 < s.len() && s[qe + 1] == '!' {
            match parse_cell_at(s, qe + 2) {
                Some((ca, c, ra, rw, e)) => Some(
                    RefShape {
                        pre_end: qe + 2,
                        qual: Some(s.subrange(i + 1, qe)),
                        col_abs: ca,
                        col: c,
                        row_abs: ra,
                        row: rw,
                        end: e,
                    },
                ),
                None => None,
            }
        } else {
            None
        }
    } else {
        let ie = ident_end(s, i);
        if ie > i && ie < s.len() && s[ie] == '!' {
            match parse_cell_at(s, ie + 1) {
                Some((ca, c, ra, rw, e)) => Some(
                    RefShape {
                        pre_end: ie + 1,
                        qual: Some(s.subrange(i, ie)),
                        col_abs: ca,
                        col: c,
                        row_abs: ra,
                        row: rw,
                        end: e,
                    },
                ),
                None => None,
            }
        } else {
            match parse_cell_at(s, i) {
                Some((ca, c, ra, rw, e)) => Some(
                    RefShape {
                        pre_end: i,
                        qual: None,
                        col_abs: ca,
                        col: c,
                        row_abs: ra,
                        row: rw,
                        end: e,
                    },
                ),
                None => None,
            }
        }
    }
}

// --- the edit and its effect on one reference --------------------------------

/// One structural edit: a band of rows and/or columns inserted or removed at
/// a 1-based root position.
#[derive(Clone, Copy)]
pub struct RewriteEdit {
    pub root_col: u32,
    pub off_col: u32,
    pub root_row: u32,
    pub off_row: u32,
    pub insert: bool,
}

pub open spec fn insert_edit(rc: u32, oc: u32, rr: u32, ro: u32) -> RewriteEdit {
    RewriteEdit { root_col: rc, off_col: oc, root_row: rr, off_row: ro, insert: true }
}

pub open spec fn remove_edit(rc: u32, oc: u32, rr: u32, ro: u32) -> RewriteEdit {
    RewriteEdit { root_col: rc, off_col: oc, root_row: rr, off_row: ro, insert: false }
}

/// A reference is rewritten only when it explicitly names the edited sheet,
/// or is unqualified and lives on the edited sheet.
pub open spec fn ref_applies(qual: Option<Seq<char>>, sheet: Seq<char>, self_sheet: Seq<char>) -> bool {
    match qual {
        Some(q) => q == sheet,
        None => self_sheet == sheet,
    }
}

/// A removed band invalidates every reference inside it.
pub open spec fn ref_invalidated(e: RewriteEdit, col: int, row: int) -> bool {
    !e.insert && ((e.off_col > 0 && e.root_col <= col < e.root_col + e.off_col) || (e.off_row > 0
        && e.root_row <= row < e.root_row + e.off_row))
}

/// How one coordinate shifts: insertion moves everything at or past the root
/// forward, removal moves everything past the removed band back.
pub open spec fn shift_coord(insert: bool, root: u32, off: u32, x: int) -> int {
    if insert {
        if x >= root {
            x + off
        } else {
            x
        }
    } else {
        if x >= root + off {
            x - off
        } else {
            x
        }
    }
}

/// The text a parsed reference is rewritten to.
pub open spec fn emit_ref(
    s: Seq<char>,
    i: int,
    r: RefShape,
    e: RewriteEdit,
    sheet: Seq<char>,
    self_sheet: Seq<char>,
) -> Seq<char> {
    if !ref_applies(r.qual, sheet, self_sheet) {
        s.subrange(i, r.end)
    } else if ref_invalidated(e, r.col, r.row) {
        s.subrange(i, r.pre_end) + seq!['#', 'R', 'E', 'F', '!']
    } else {
        s.subrange(i, r.pre_end) + (if r.col_abs {
            seq!['$']
        } else {
            Seq::<char>::empty()
        }) + letters_of(shift_coord(e.insert, e.root_col, e.off_col, r.col)) + (if r.row_abs {
            seq!['$']
        } else {
            Seq::<char>::empty()
        }) + num_str(shift_coord(e.insert, e.root_row, e.off_row, r.row))
    }
}

/// The next scan position: always past `i`, never past the end.
pub open spec fn next_pos(i: int, j: int, n: int) -> int {
    if j <= i {
        i + 1
    } else if j > n {
        n
    } else {
        j
    }
}

/// The whole formula text from `i` on, with every applicable reference
/// rewritten for the edit; string literals are copied verbatim, and any
/// non-reference token is copied unchanged.
pub open spec fn rewrite_from(
    s: Seq<char>,
    i: int,
    e: RewriteEdit,
    sheet: Seq<char>,
    self_sheet: Seq<char>,
) -> Seq<char>
    decreases s.len() - i,
{
    if i < 0 || i >= s.len() {
        Seq::empty()
    } else {
        let c = s[i];
        if c == '"' {
            let q = quote_end(s, i + 1, '"');
            if q < s.len() {
                let nx = next_pos(i, q + 1, s.len() as int);
                s.subrange(i, nx) + rewrite_from(s, nx, e, sheet, self_sheet)
            } else {
                s.subrange(i, s.len() as int)
            }
        } else if c == '\'' || c == '$' || is_ref_letter(c) {
            match parse_ref_at(s, i) {
                Some(r) => {
                    let nx = next_pos(i, r.end, s.len() as int);
                    emit_ref(s, i, r, e, sheet, self_sheet) + rewrite_from(s, nx, e, sheet, self_sheet)
                },
                None => {
                    if c == '\'' {
                        seq![c] + rewrite_from(s, i + 1, e, sheet, self_sheet)
                    } else {
                        let nx = next_pos(i, token_end(s, i), s.len() as int);
                        s.subrange(i, nx) + rewrite_from(s, nx, e, sheet, self_sheet)
                    }
                },
            }
        } else {
            seq![c] + rewrite_from(s, i + 1, e, sheet, self_sheet)
        }
    }
}

// --- executable parsing, proved against the spec -----------------------------

/// Letter runs are made of letters.
proof fn lemma_letters_run(s: Seq<char>, i: int)
    requires
        0 <= i <= s.len(),
    ensures
        i <= letters_end(s, i) <= s.len(),
        forall|j: int| i <= j < letters_end(s, i) ==> is_ref_letter(#[trigger] s[j]),
    decreases s.len() - i,
{
    if i < s.len() && is_ref_letter(s[i]) {
        lemma_letters_run(s, i + 1);
    }
}

/// Digit runs are made of digits.
proof fn lemma_digits_run(s: Seq<char>, i: int)
    requires
        0 <= i <= s.len(),
    ensures
        i <= digits_end(s, i) <= s.len(),
        forall|j: int| i <= j < digits_end(s, i) ==> is_ascii_digit(#[trigger] s[j]),
    decreases s.len() - i,
{
    if i < s.len() && is_ascii_digit(s[i]) {
        lemma_digits_run(s, i + 1);
    }
}

fn parse_cell_exec(v: &Vec<char>, i: usize) -> (r: Option<(bool, u64, bool, u64, usize)>)
    requires
        i <= v@.len(),
    ensures
        ({
            let sr = parse_cell_at(v@, i as int);
            match r {
                Some(p) => sr matches Some(q) && q.0 == p.0 && q.1 == p.1 && q.2 == p.2 && q.3
                    == p.3 && q.4 == p.4 && i < p.4 <= v@.len() && p.1 <= 18278 && p.3 < 10000000,
                None => sr is None,
            }
        }),
{
    let n = v.len();
    let ls = if i < n && v[i] == '$' {
        i + 1
    } else {
        i
    };
    let le = scan_letters(v, ls);
    let ds = if le < n && v[le] == '$' {
        le + 1
    } else {
        le
    };
    let de = scan_digits(v, ds);
    let bnd = de >= n || !(is_ident_char_exec(v[de]) || v[de] == '$' || v[de] == '(');
    if le - ls >= 1 && le - ls <= 3 && de - ds >= 1 && de - ds <= 7 && bnd {
        proof {
            lemma_letters_run(v@, ls as int);
            lemma_digits_run(v@, ds as int);
        }
        let col = col_num_exec(v, ls, le);
        let row = digits_val_exec(v, ds, de);
        Some((ls > i, col, ds > le, row, de))
    } else {
        None
    }
}

/// A parsed reference with executable positions: the verbatim qualifier
/// prefix ends at `pre_end`, the qualifier name (if any) spans
/// `[q_start, q_end)`.
struct RefParts {
    pre_end: usize,
    has_qual: bool,
    q_start: usize,
    q_end: usize,
    col_abs: bool,
    col: u64,
    row_abs: bool,
    row: u64,
    end: usize,
}

fn parse_ref_exec(v: &Vec<char>, i: usize) -> (r: Option<RefParts>)
    requires
        i < v@.len(),
    ensures
        ({
            let sr = parse_ref_at(v@, i as int);
            match r {
                Some(p) => {
                    &&& sr matches Some(q)
                    &&& q.pre_end == p.pre_end
                    &&& (match q.qual {
                        Some(qn) => p.has_qual && p.q_start <= p.q_end <= v@.len() && qn
                            == v@.subrange(p.q_start as int, p.q_end as int),
                        None => !p.has_qual,
                    })
                    &&& q.col_abs == p.col_abs && q.col == p.col && q.row_abs == p.row_abs
                        && q.row == p.row && q.end == p.end
                    &&& i <= p.pre_end <= v@.len() && i < p.end <= v@.len()
                    &&& p.col <= 18278 && p.row < 10000000
                },
                None => sr is None,
            }
        }),
{
    let n = v.len();
    if v[i] == '\'' {
        let qe = scan_quote(v, i + 1, '\'');
        if qe < n && qe + 1 < n && v[qe + 1] == '!' {
            match parse_cell_exec(v, qe + 2) {
                Some((ca, c, ra, rw, e)) => Some(
                    RefParts {
                        pre_end: qe + 2,
                        has_qual: true,
                        q_start: i + 1,
                        q_end: qe,
                        col_abs: ca,
                        col: c,
                        row_abs: ra,
                        row: rw,
                        end: e,
                    },
                ),
                None => None,
            }
        } else {
            None
        }
    } else {
        let ie = scan_ident(v, i);
        if ie > i && ie < n && v[ie] == '!' {
            match parse_cell_exec(v, ie + 1) {
                Some((ca, c, ra, rw, e)) => Some(
                    RefParts {
                        pre_end: ie + 1,
                        has_qual: true,
                        q_start: i,
                        q_end: ie,
                        col_abs: ca,
                        col: c,
                        row_abs: ra,
                        row: rw,
                        end: e,
                    },
                ),
                None => None,
            }
        } else {
            match parse_cell_exec(v, i) {
                Some((ca, c, ra, rw, e)) => Some(
                    RefParts {
                        pre_end: i,
                        has_qual: false,
                        q_start: 0,
                        q_end: 0,
                        col_abs: ca,
                        col: c,
                        row_abs: ra,
                        row: rw,
                        end: e,
                    },
                ),
                None => None,
            }
        }
    }
}

pub(crate) fn push_range(out: &mut Vec<char>, v: &Vec<char>, from: usize, to: usize)
    requires
        from <= to <= v@.len(),
    ensures
        final(out)@ == old(out)@ + v@.subrange(from as int, to as int),
{
    let mut k = from;
    while k < to
        invariant
            from <= k <= to <= v@.len(),
            out@ == old(out)@ + v@.subrange(from as int, k as int),
        decreases to - k,
    {
        proof {
            assert(v@.subrange(from as int, k as int + 1) =~= v@.subrange(from as int, k as int)
                + seq![v@[k as int]]);
        }
        out.push(v[k]);
        k += 1;
    }
    proof {
        if from == to {
            assert(v@.subrange(from as int, to as int) =~= Seq::<char>::empty());
            assert(out@ =~= old(out)@ + v@.subrange(from as int, to as int));
        }
    }
}

pub(crate) fn push_all(out: &mut Vec<char>, w: &Vec<char>)
    ensures
        final(out)@ == old(out)@ + w@,
{
    let mut k: usize = 0;
    while k < w.len()
        invariant
            k <= w@.len(),
            out@ == old(out)@ + w@.take(k as int),
        decreases w@.len() - k,
    {
        proof {
            assert(w@.take(k as int + 1) =~= w@.take(k as int) + seq![w@[k as int]]);
        }
        out.push(w[k]);
        k += 1;
    }
    proof {
        assert(w@.take(w@.len() as int) =~= w@);
        if w@.len() == 0 {
            assert(out@ =~= old(out)@ + w@);
        }
    }
}

pub(crate) fn seq_eq_range(v: &Vec<char>, from: usize, to: usize, w: &Vec<char>) -> (r: bool)
    requires
        from <= to <= v@.len(),
    ensures
        r == (v@.subrange(from as int, to as int) == w@),
{
    if to - from != w.len() {
        return false;
    }
    let mut k: usize = 0;
    while k < w.len()
        invariant
            k <= w@.len(),
            from + w@.len() == to <= v@.len(),
            forall|j: int| 0 <= j < k ==> v@[from + j] == w@[j],
        decreases w@.len() - k,
    {
        if v[from + k] != w[k] {
            proof {
                assert(v@.subrange(from as int, to as int)[k as int] == v@[from + k]);
            }
            return false;
        }
        k += 1;
    }
    proof {
        assert(v@.subrange(from as int, to as int) =~= w@);
    }
    true
}

/// Rewrite a whole formula for one edit.
#[verifier::rlimit(100)]
#[verifier::spinoff_prover]
fn rewrite_formula(v: &Vec<char>, edit: RewriteEdit, sheet: &Vec<char>, self_sheet: &Vec<char>) -> (r: Vec<char>)
    ensures
        r@ == rewrite_from(v@, 0, edit, sheet@, self_sheet@),
{
    let n = v.len();
    let mut out: Vec<char> = Vec::new();
    let mut i: usize = 0;
    while i < n
        invariant
            i <= n,
            n == v@.len(),
            rewrite_from(v@, 0, edit, sheet@, self_sheet@) == out@ + rewrite_from(
                v@,
                i as int,
                edit,
                sheet@,
                self_sheet@,
            ),
        decreases n - i,
    {
        let ghost pre = out@;
        let ghost rest = rewrite_from(v@, i as int, edit, sheet@, self_sheet@);
        let c = v[i];
        let nx: usize;
        if c == '"' {
            let q = scan_quote(v, i + 1, '"');
            if q < n {
                push_range(&mut out, v, i, q + 1);
                nx = q + 1;
                proof {
                    assert(next_pos(i as int, q as int + 1, n as int) == nx);
                    assert(rest == v@.subrange(i as int, nx as int) + rewrite_from(
                        v@,
                        nx as int,
                        edit,
                        sheet@,
                        self_sheet@,
                    ));
                }
            } else {
                push_range(&mut out, v, i, n);
                nx = n;
                proof {
                    assert(rest == v@.subrange(i as int, n as int));
                    assert(rewrite_from(v@, n as int, edit, sheet@, self_sheet@)
                        =~= Seq::<char>::empty());
                    assert(rest + rewrite_from(v@, n as int, edit, sheet@, self_sheet@) =~= rest);
                }
            }
        } else if c == '\'' || c == '$' || (c >= 'A' && c <= 'Z') || (c >= 'a' && c <= 'z') {
            match parse_ref_exec(v, i) {
                Some(p) => {
                    let ghost rs = parse_ref_at(v@, i as int)->Some_0;
                    let applies: bool = if p.has_qual {
                        seq_eq_range(v, p.q_start, p.q_end, sheet)
                    } else {
                        proof {
                            assert(self_sheet@.subrange(0, self_sheet@.len() as int)
                                =~= self_sheet@);
                        }
                        seq_eq_range(self_sheet, 0, self_sheet.len(), sheet)
                    };
                    proof {
                        assert(applies == ref_applies(rs.qual, sheet@, self_sheet@));
                    }
                    if !applies {
                        push_range(&mut out, v, i, p.end);
                        proof {
                            assert(emit_ref(v@, i as int, rs, edit, sheet@, self_sheet@)
                                == v@.subrange(i as int, p.end as int));
                        }
                    } else {
                        push_range(&mut out, v, i, p.pre_end);
                        let rc = edit.root_col as u64;
                        let oc = edit.off_col as u64;
                        let rr = edit.root_row as u64;
                        let orr = edit.off_row as u64;
                        let inv: bool = !edit.insert && ((oc > 0 && rc <= p.col && p.col < rc + oc)
                            || (orr > 0 && rr <= p.row && p.row < rr + orr));
                        proof {
                            assert(inv == ref_invalidated(edit, rs.col, rs.row));
                        }
                        if inv {
                            out.push('#');
                            out.push('R');
                            out.push('E');
                            out.push('F');
                            out.push('!');
                            proof {
                                assert(out@ =~= pre + (v@.subrange(i as int, p.pre_end as int)
                                    + seq!['#', 'R', 'E', 'F', '!']));
                                assert(out@ =~= pre + emit_ref(v@, i as int, rs, edit, sheet@, self_sheet@));
                            }
                        } else {
                            if p.col_abs {
                                out.push('$');
                            }
                            let newcol: u64 = if edit.insert {
                                if p.col >= rc {
                                    p.col + oc
                                } else {
                                    p.col
                                }
                            } else {
                                if p.col >= rc + oc {
                                    p.col - oc
                                } else {
                                    p.col
                                }
                            };
                            proof {
                                assert(newcol == shift_coord(edit.insert, edit.root_col, edit.off_col, rs.col));
                            }
                            let letters = letters_of_exec(newcol);
                            push_all(&mut out, &letters);
                            if p.row_abs {
                                out.push('$');
                            }
                            let newrow: u64 = if edit.insert {
                                if p.row >= rr {
                                    p.row + orr
                                } else {
                                    p.row
                                }
                            } else {
                                if p.row >= rr + orr {
                                    p.row - orr
                                } else {
                                    p.row
                                }
                            };
                            proof {
                                assert(newrow == shift_coord(edit.insert, edit.root_row, edit.off_row, rs.row));
                            }
                            let digits = num_str_exec(newrow);
                            push_all(&mut out, &digits);
                            proof {
                                assert(out@ =~= pre + (v@.subrange(i as int, p.pre_end as int)
                                    + (if rs.col_abs { seq!['$'] } else { Seq::<char>::empty() })
                                    + letters_of(shift_coord(edit.insert, edit.root_col, edit.off_col, rs.col))
                                    + (if rs.row_abs { seq!['$'] } else { Seq::<char>::empty() })
                                    + num_str(shift_coord(edit.insert, edit.root_row, edit.off_row, rs.row))));
                                assert(out@ =~= pre + emit_ref(v@, i as int, rs, edit, sheet@, self_sheet@));
                            }
                        }
                    }
                    nx = p.end;
                    proof {
                        assert(next_pos(i as int, p.end as int, n as int) == nx);
                        assert(rest == emit_ref(v@, i as int, rs, edit, sheet@, self_sheet@)
                            + rewrite_from(v@, nx as int, edit, sheet@, self_sheet@));
                    }
                },
                None => {
                    if c == '\'' {
                        out.push(c);
                        nx = i + 1;
                        proof {
                            assert(out@ =~= pre + seq![c]);
                            assert(rest == seq![c] + rewrite_from(v@, nx as int, edit, sheet@, self_sheet@));
                        }
                    } else {
                        let t = scan_token(v, i);
                        let t2 = if t > i {
                            t
                        } else {
                            i + 1
                        };
                        push_range(&mut out, v, i, t2);
                        nx = t2;
                        proof {
                            assert(next_pos(i as int, token_end(v@, i as int), n as int) == t2);
                            assert(rest == v@.subrange(i as int, t2 as int) + rewrite_from(
                                v@,
                                t2 as int,
                                edit,
                                sheet@,
                                self_sheet@,
                            ));
                        }
                    }
                },
            }
        } else {
            out.push(c);
            nx = i + 1;
            proof {
                assert(out@ =~= pre + seq![c]);
                assert(rest == seq![c] + rewrite_from(v@, nx as int, edit, sheet@, self_sheet@));
            }
        }
        proof {
            let after = rewrite_from(v@, nx as int, edit, sheet@, self_sheet@);
            assert(pre + rest =~= out@ + after);
        }
        i = nx;
    }
    proof {
        assert(rewrite_from(v@, n as int, edit, sheet@, self_sheet@) =~= Seq::<char>::empty());
        assert(out@ + Seq::<char>::empty() =~= out@);
    }
    out
}

// --- public entry points ------------------------------------------------------

/// Rewrite every applicable reference in a formula for an insertion of
/// `offset` columns/rows at the given root coordinates on the named sheet.
pub fn adjustment_insert_formula_coordinate(
    v: &str,
    root_col_num: &u32,
    offset_col_num: &u32,
    root_row_num: &u32,
    offset_row_num: &u32,
    sheet_name: &str,
    self_sheet_name: &str,
) -> (r: String)
    ensures
        r@ == rewrite_from(
            v@,
            0,
            insert_edit(*root_col_num, *offset_col_num, *root_row_num, *offset_row_num),
            sheet_name@,
            self_sheet_name@,
        ),
{
    let vv = chars_vec(v);
    let sh = chars_vec(sheet_name);
    let ss = chars_vec(self_sheet_name);
    let edit = RewriteEdit {
        root_col: *root_col_num,
        off_col: *offset_col_num,
        root_row: *root_row_num,
        off_row: *offset_row_num,
        insert: true,
    };
    let out = rewrite_formula(&vv, edit, &sh, &ss);
    string_from_chars(&out)
}

/// Rewrite every applicable reference in a formula for a removal of
/// `offset` columns/rows at the given root coordinates on the named sheet:
/// references inside the removed band become `#REF!`.
pub fn adjustment_remove_formula_coordinate(
    v: &str,
    root_col_num: &u32,
    offset_col_num: &u32,
    root_row_num: &u32,
    offset_row_num: &u32,
    sheet_name: &str,
    self_sheet_name: &str,
) -> (r: String)
    ensures
        r@ == rewrite_from(
            v@,
            0,
            remove_edit(*root_col_num, *offset_col_num, *root_row_num, *offset_row_num),
            sheet_name@,
            self_sheet_name@,
        ),
{
    let vv = chars_vec(v);
    let sh = chars_vec(sheet_name);
    let ss = chars_vec(self_sheet_name);
    let edit = RewriteEdit {
        root_col: *root_col_num,
        off_col: *offset_col_num,
        root_row: *root_row_num,
        off_row: *offset_row_num,
        insert: false,
    };
    let out = rewrite_formula(&vv, edit, &sh, &ss);
    string_from_chars(&out)
}

impl crate::cell_value::CellValue {
    /// Rewrite this cell's formula, if any, for an insertion edit.
    pub fn adjustment_insert_formula_coordinate(
        &mut self,
        self_sheet_name: &str,
        sheet_name: &str,
        root_col_num: &u32,
        offset_col_num: &u32,
        root_row_num: &u32,
        offset_row_num: &u32,
    )
        ensures
            match old(self).formula {
                Some(f) => final(self).formula matches Some(g) && g@ == rewrite_from(
                    f@,
                    0,
                    insert_edit(*root_col_num, *offset_col_num, *root_row_num, *offset_row_num),
                    sheet_name@,
                    self_sheet_name@,
                ),
                None => final(self).formula is None,
            },
            final(self).value == old(self).value,
            final(self).raw_value == old(self).raw_value,
            final(self).rich_text == old(self).rich_text,
            final(self).formula_attributes == old(self).formula_attributes,
    {
        let nf = match &self.formula {
            Some(f) => Some(
                adjustment_insert_formula_coordinate(
                    f.as_str(),
                    root_col_num,
                    offset_col_num,
                    root_row_num,
                    offset_row_num,
                    sheet_name,
                    self_sheet_name,
                ),
            ),
            None => None,
        };
        match nf {
            Some(g) => {
                self.formula = Some(g);
            },
            None => {},
        }
    }

    /// Rewrite this cell's formula, if any, for a removal edit.
    pub fn adjustment_remove_formula_coordinate(
        &mut self,
        self_sheet_name: &str,
        sheet_name: &str,
        root_col_num: &u32,
        offset_col_num: &u32,
        root_row_num: &u32,
        offset_row_num: &u32,
    )
        ensures
            match old(self).formula {
                Some(f) => final(self).formula matches Some(g) && g@ == rewrite_from(
                    f@,
                    0,
                    remove_edit(*root_col_num, *offset_col_num, *root_row_num, *offset_row_num),
                    sheet_name@,
                    self_sheet_name@,
                ),
                None => final(self).formula is None,
            },
            final(self).value == old(self).value,
            final(self).raw_value == old(self).raw_value,
            final(self).rich_text == old(self).rich_text,
            final(self).formula_attributes == old(self).formula_attributes,
    {
        let nf = match &self.formula {
            Some(f) => Some(
                adjustment_remove_formula_coordinate(
                    f.as_str(),
                    root_col_num,
                    offset_col_num,
                    root_row_num,
                    offset_row_num,
                    sheet_name,
                    self_sheet_name,
                ),
            ),
            None => None,
        };
        match nf {
            Some(g) => {
                self.formula = Some(g);
            },
            None => {},
        }
    }
}

} // verus!

