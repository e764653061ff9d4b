use vstd::prelude::*;

use crate::rich_text::RichText;
use crate::rich_text::concat_runs;
use crate::rich_text::runs_view;
use crate::util::chars_vec;
use crate::util::str_eq;

verus! {

// ---------------------------------------------------------------------------
// Literal classification
//
// A raw cell string is classified, in this order, as the null literal, a
// numeric literal (the acceptance grammar of standard floating-point
// literals: optional sign, then digits with an optional fraction dot, an
// optional exponent, or one of the special words), a boolean literal, or
// plain text. The numeric value itself is kept as its exact source text:
// numeric display formatting is outside this core's scope.
// ---------------------------------------------------------------------------

pub open spec fn is_ascii_digit(c: char) -> bool {
    '0' <= c && c <= '9'
}

pub open spec fn all_digits(s: Seq<char>) -> bool {
    forall|i: int| 0 <= i < s.len() ==> is_ascii_digit(#[trigger] s[i])
}

/// Case-insensitive match of one character against a letter.
pub open spec fn ci_eq(c: char, lower: char, upper: char) -> bool {
    c == lower || c == upper
}

pub open spec fn is_null_lit(s: Seq<char>) -> bool {
    s.len() == 4 && ci_eq(s[0], 'n', 'N') && ci_eq(s[1], 'u', 'U') && ci_eq(s[2], 'l', 'L')
        && ci_eq(s[3], 'l', 'L')
}

pub open spec fn is_true_lit(s: Seq<char>) -> bool {
    s.len() == 4 && ci_eq(s[0], 't', 'T') && ci_eq(s[1], 'r', 'R') && ci_eq(s[2], 'u', 'U')
        && ci_eq(s[3], 'e', 'E')
}

pub open spec fn is_false_lit(s: Seq<char>) -> bool {
    s.len() == 5 && ci_eq(s[0], 'f', 'F') && ci_eq(s[1], 'a', 'A') && ci_eq(s[2], 'l', 'L')
        && ci_eq(s[3], 's', 'S') && ci_eq(s[4], 'e', 'E')
}

pub open spec fn is_inf_lit(s: Seq<char>) -> bool {
    s.len() == 3 && ci_eq(s[0], 'i', 'I') && ci_eq(s[1], 'n', 'N') && ci_eq(s[2], 'f', 'F')
}

pub open spec fn is_infinity_lit(s: Seq<char>) -> bool {
    s.len() == 8 && ci_eq(s[0], 'i', 'I') && ci_eq(s[1], 'n', 'N') && ci_eq(s[2], 'f', 'F')
        && ci_eq(s[3], 'i', 'I') && ci_eq(s[4], 'n', 'N') && ci_eq(s[5], 'i', 'I')
        && ci_eq(s[6], 't', 'T') && ci_eq(s[7], 'y', 'Y')
}

pub open spec fn is_nan_lit(s: Seq<char>) -> bool {
    s.len() == 3 && ci_eq(s[0], 'n', 'N') && ci_eq(s[1], 'a', 'A') && ci_eq(s[2], 'n', 'N')
}

/// The string with a single leading sign removed, if any.
pub open spec fn strip_sign(s: Seq<char>) -> Seq<char> {
    if s.len() > 0 && (s[0] == '+' || s[0] == '-') {
        s.drop_first()
    } else {
        s
    }
}

/// A fraction dot at `i` splits the string into two all-digit halves.
pub open spec fn dot_split_ok(s: Seq<char>, i: int) -> bool {
    0 <= i < s.len() && s[i] == '.' && all_digits(s.take(i)) && all_digits(s.skip(i + 1))
}

/// Digits, or digits with one dot and at least one digit somewhere.
pub open spec fn is_mantissa(s: Seq<char>) -> bool {
    (s.len() >= 1 && all_digits(s)) || (s.len() >= 2 && exists|i: int| dot_split_ok(s, i))
}

/// An exponent tail: an optional sign, then at least one digit.
pub open spec fn is_exponent_tail(s: Seq<char>) -> bool {
    strip_sign(s).len() >= 1 && all_digits(strip_sign(s))
}

/// An exponent marker at `i` splits the string into mantissa and tail.
pub open spec fn e_split_ok(s: Seq<char>, i: int) -> bool {
    0 <= i < s.len() && (s[i] == 'e' || s[i] == 'E') && is_mantissa(s.take(i))
        && is_exponent_tail(s.skip(i + 1))
}

pub open spec fn is_number_lit(s: Seq<char>) -> bool {
    is_mantissa(s) || exists|i: int| e_split_ok(s, i)
}

/// Acceptance of a standard floating-point literal, sign included.
pub open spec fn is_float_literal(s: Seq<char>) -> bool {
    is_number_lit(strip_sign(s)) || is_inf_lit(strip_sign(s)) || is_infinity_lit(strip_sign(s))
        || is_nan_lit(strip_sign(s))
}

// ---------------------------------------------------------------------------
// The typed value and its spec-level model
// ---------------------------------------------------------------------------

/// A typed cell value. A numeric value carries its exact source text.
#[derive(Debug)]
pub enum Value {
    String(String),
    Numeric(String),
    Bool(bool),
    Null,
    Inline,
    Error,
}

/// The mathematical model of a typed cell value.
pub enum ValueModel {
    VString(Seq<char>),
    VNumeric(Seq<char>),
    VBool(bool),
    VNull,
    VInline,
    VError,
}

impl View for Value {
    type V = ValueModel;

    open spec fn view(&self) -> ValueModel {
        match self {
            Value::String(s) => ValueModel::VString(s@),
            Value::Numeric(s) => ValueModel::VNumeric(s@),
            Value::Bool(b) => ValueModel::VBool(*b),
            Value::Null => ValueModel::VNull,
            Value::Inline => ValueModel::VInline,
            Value::Error => ValueModel::VError,
        }
    }
}

/// What classification assigns to a raw string.
pub open spec fn guess_spec(s: Seq<char>) -> ValueModel {
    if is_null_lit(s) {
        ValueModel::VNull
    } else if is_float_literal(s) {
        ValueModel::VNumeric(s)
    } else if is_true_lit(s) {
        ValueModel::VBool(true)
    } else if is_false_lit(s) {
        ValueModel::VBool(false)
    } else {
        ValueModel::VString(s)
    }
}

/// The textual form of a typed value.
pub open spec fn display_of(v: ValueModel) -> Seq<char> {
    match v {
        ValueModel::VString(s) => s,
        ValueModel::VNumeric(s) => s,
        ValueModel::VBool(b) => if b {
            "true"@
        } else {
            "false"@
        },
        ValueModel::VNull => Seq::empty(),
        ValueModel::VInline => Seq::empty(),
        ValueModel::VError => Seq::empty(),
    }
}

/// The data-type code of a typed value.
pub open spec fn type_code_of(v: ValueModel) -> Seq<char> {
    match v {
        ValueModel::VString(_) => "s"@,
        ValueModel::VNumeric(_) => "n"@,
        ValueModel::VBool(_) => "b"@,
        ValueModel::VNull => "null"@,
        ValueModel::VInline => "inlineStr"@,
        ValueModel::VError => "e"@,
    }
}

pub fn clone_value(v: &Value) -> (r: Value)
    ensures
        r@ == v@,
{
    match v {
        Value::String(s) => Value::String(s.clone()),
        Value::Numeric(s) => Value::Numeric(s.clone()),
        Value::Bool(b) => Value::Bool(*b),
        Value::Null => Value::Null,
        Value::Inline => Value::Inline,
        Value::Error => Value::Error,
    }
}

// ---------------------------------------------------------------------------
// Executable classification, proved equal to the spec predicates
// ---------------------------------------------------------------------------

pub(crate) fn all_digits_range(v: &Vec<char>, from: usize, to: usize) -> (r: bool)
    requires
        from <= to && to <= v@.len(),
    ensures
        r == all_digits(v@.subrange(from as int, to as int)),
{
    let ghost sub = v@.subrange(from as int, to as int);
    let mut i: usize = from;
    while i < to
        invariant
            from <= i <= to <= v@.len(),
            sub == v@.subrange(from as int, to as int),
            forall|j: int| 0 <= j < i - from ==> is_ascii_digit(#[trigger] sub[j]),
        decreases to - i,
    {
        let c = v[i];
        if !(c >= '0' && c <= '9') {
            proof {
                assert(sub[i - from] == v@[i as int]);
                assert(!is_ascii_digit(sub[i - from]));
            }
            return false;
        }
        proof {
            assert(sub[i - from] == v@[i as int]);
        }
        i += 1;
    }
    true
}

/// First position of the fraction dot in the range, if any.
fn first_dot(v: &Vec<char>, from: usize, to: usize) -> (r: Option<usize>)
    requires
        from <= to && to <= v@.len(),
    ensures
        match r {
            Some(d) => from <= d < to && v@[d as int] == '.' && forall|j: int|
                from <= j < d ==> v@[j] != '.',
            None => forall|j: int| from <= j < to ==> v@[j] != '.',
        },
{
    let mut i: usize = from;
    while i < to
        invariant
            from <= i <= to <= v@.len(),
            forall|j: int| from <= j < i ==> v@[j] != '.',
        decreases to - i,
    {
        if v[i] == '.' {
            return Some(i);
        }
        i += 1;
    }
    None
}

/// First position of an exponent marker in the range, if any.
fn first_exp(v: &Vec<char>, from: usize, to: usize) -> (r: Option<usize>)
    requires
        from <= to && to <= v@.len(),
    ensures
        match r {
            Some(d) => from <= d < to && (v@[d as int] == 'e' || v@[d as int] == 'E') && forall|
                j: int,
            |
                from <= j < d ==> !(v@[j] == 'e' || v@[j] == 'E'),
            None => forall|j: int| from <= j < to ==> !(v@[j] == 'e' || v@[j] == 'E'),
        },
{
    let mut i: usize = from;
    while i < to
        invariant
            from <= i <= to <= v@.len(),
            forall|j: int| from <= j < i ==> !(v@[j] == 'e' || v@[j] == 'E'),
        decreases to - i,
    {
        let c = v[i];
        if c == 'e' || c == 'E' {
            return Some(i);
        }
        i += 1;
    }
    None
}

/// An exponent marker makes a string no mantissa.
proof fn lemma_exp_kills_mantissa(s: Seq<char>, k: int)
    requires
        0 <= k < s.len(),
        s[k] == 'e' || s[k] == 'E',
    ensures
        !is_mantissa(s),
{
    assert(!is_ascii_digit(s[k]));
    assert(!all_digits(s));
    assert forall|i: int| !#[trigger] dot_split_ok(s, i) by {
        if 0 <= i < s.len() && s[i] == '.' {
            if k < i {
                assert(s.take(i)[k] == s[k]);
                assert(!all_digits(s.take(i)));
            } else if k > i {
                assert(s.skip(i + 1)[k - i - 1] == s[k]);
                assert(!all_digits(s.skip(i + 1)));
            }
        }
    }
}

fn check_mantissa_range(v: &Vec<char>, from: usize, to: usize) -> (r: bool)
    requires
        from <= to && to <= v@.len(),
    ensures
        r == is_mantissa(v@.subrange(from as int, to as int)),
{
    let ghost sub = v@.subrange(from as int, to as int);
    match first_dot(v, from, to) {
        None => {
            let d = all_digits_range(v, from, to);
            let ok = d && to > from;
            proof {
                assert(sub.len() == to - from);
                assert forall|i: int| !#[trigger] dot_split_ok(sub, i) by {
                    if 0 <= i < sub.len() {
                        let j: int = from + i;
                        assert(from <= j < to);
                        assert(v@[j] != '.');
                        assert(sub[i] == v@[j]);
                        assert(sub[i] != '.');
                    }
                }
            }
            ok
        },
        Some(d) => {
            let left = all_digits_range(v, from, d);
            let right = all_digits_range(v, d + 1, to);
            let ok = left && right && to - from >= 2;
            proof {
                let di = d - from;
                assert(sub[di] == v@[d as int]);
                assert(v@.subrange(from as int, d as int) =~= sub.take(di));
                assert(v@.subrange(d as int + 1, to as int) =~= sub.skip(di + 1));
                if ok {
                    assert(dot_split_ok(sub, di));
                } else {
                    assert(!is_ascii_digit(sub[di]));
                    assert(!all_digits(sub));
                    if sub.len() >= 2 {
                        assert forall|i: int| !#[trigger] dot_split_ok(sub, i) by {
                            if 0 <= i < sub.len() && sub[i] == '.' {
                                if i < di {
                                    assert(sub[i] == v@[from + i]);
                                    assert(v@[from + i] != '.');
                                } else if i > di {
                                    assert(sub.take(i)[di] == sub[di]);
                                    assert(!all_digits(sub.take(i)));
                                } else {
                                    assert(!(all_digits(sub.take(i)) && all_digits(
                                        sub.skip(i + 1),
                                    )));
                                }
                            }
                        }
                    }
                    assert(!is_mantissa(sub));
                }
            }
            ok
        },
    }
}

fn check_exp_tail_range(v: &Vec<char>, from: usize, to: usize) -> (r: bool)
    requires
        from <= to && to <= v@.len(),
    ensures
        r == is_exponent_tail(v@.subrange(from as int, to as int)),
{
    let ghost sub = v@.subrange(from as int, to as int);
    let start: usize = if from < to && (v[from] == '+' || v[from] == '-') {
        from + 1
    } else {
        from
    };
    proof {
        assert(strip_sign(sub) =~= v@.subrange(start as int, to as int));
    }
    let d = all_digits_range(v, start, to);
    d && to > start
}

fn check_number_range(v: &Vec<char>, from: usize, to: usize) -> (r: bool)
    requires
        from <= to && to <= v@.len(),
    ensures
        r == is_number_lit(v@.subrange(from as int, to as int)),
{
    let ghost sub = v@.subrange(from as int, to as int);
    match first_exp(v, from, to) {
        None => {
            let m = check_mantissa_range(v, from, to);
            proof {
                assert forall|i: int| !#[trigger] e_split_ok(sub, i) by {
                    if 0 <= i < sub.len() {
                        assert(sub[i] == v@[from + i]);
                        assert(!(v@[from + i] == 'e' || v@[from + i] == 'E'));
                    }
                }
            }
            m
        },
        Some(k) => {
            let m = check_mantissa_range(v, from, k);
            let t = check_exp_tail_range(v, k + 1, to);
            let ok = m && t;
            proof {
                let ki = k - from;
                assert(sub[ki] == v@[k as int]);
                assert(v@.subrange(from as int, k as int) =~= sub.take(ki));
                assert(v@.subrange(k as int + 1, to as int) =~= sub.skip(ki + 1));
                lemma_exp_kills_mantissa(sub, ki);
                if ok {
                    assert(e_split_ok(sub, ki));
                } else {
                    assert forall|i: int| !#[trigger] e_split_ok(sub, i) by {
                        if 0 <= i < sub.len() && (sub[i] == 'e' || sub[i] == 'E') {
                            if i < ki {
                                assert(sub[i] == v@[from + i]);
                                assert(!(v@[from + i] == 'e' || v@[from + i] == 'E'));
                            } else if i > ki {
                                assert(sub.take(i)[ki] == sub[ki]);
                                lemma_exp_kills_mantissa(sub.take(i), ki);
                            }
                        }
                    }
                }
            }
            ok
        },
    }
}

fn check_special(v: &Vec<char>, from: usize) -> (r: bool)
    requires
        from <= v@.len(),
    ensures
        r == {
            let sub = v@.subrange(from as int, v@.len() as int);
            is_inf_lit(sub) || is_infinity_lit(sub) || is_nan_lit(sub)
        },
{
    let ghost sub = v@.subrange(from as int, v@.len() as int);
    let n = v.len() - from;
    proof {
        assert forall|j: int| 0 <= j < sub.len() implies sub[j] == v@[from + j] by {}
    }
    if n == 3 {
        let c0 = v[from];
        let c1 = v[from + 1];
        let c2 = v[from + 2];
        ((c0 == 'i' || c0 == 'I') && (c1 == 'n' || c1 == 'N') && (c2 == 'f' || c2 == 'F')) || ((c0
            == 'n' || c0 == 'N') && (c1 == 'a' || c1 == 'A') && (c2 == 'n' || c2 == 'N'))
    } else if n == 8 {
        let c0 = v[from];
        let c1 = v[from + 1];
        let c2 = v[from + 2];
        let c3 = v[from + 3];
        let c4 = v[from + 4];
        let c5 = v[from + 5];
        let c6 = v[from + 6];
        let c7 = v[from + 7];
        (c0 == 'i' || c0 == 'I') && (c1 == 'n' || c1 == 'N') && (c2 == 'f' || c2 == 'F') && (c3
            == 'i' || c3 == 'I') && (c4 == 'n' || c4 == 'N') && (c5 == 'i' || c5 == 'I') && (c6
            == 't' || c6 == 'T') && (c7 == 'y' || c7 == 'Y')
    } else {
        false
    }
}

/// Whether the characters form a standard floating-point literal.
pub fn check_float_literal(v: &Vec<char>) -> (r: bool)
    ensures
        r == is_float_literal(v@),
{
    let n = v.len();
    let start: usize = if n > 0 && (v[0] == '+' || v[0] == '-') {
        1
    } else {
        0
    };
    proof {
        assert(strip_sign(v@) =~= v@.subrange(start as int, n as int));
    }
    if check_special(v, start) {
        return true;
    }
    check_number_range(v, start, n)
}

fn check_lit4(v: &Vec<char>, l0: char, u0: char, l1: char, u1: char, l2: char, u2: char, l3: char, u3: char) -> (r: bool)
    ensures
        r == (v@.len() == 4 && ci_eq(v@[0], l0, u0) && ci_eq(v@[1], l1, u1) && ci_eq(v@[2], l2, u2)
            && ci_eq(v@[3], l3, u3)),
{
    if v.len() != 4 {
        return false;
    }
    (v[0] == l0 || v[0] == u0) && (v[1] == l1 || v[1] == u1) && (v[2] == l2 || v[2] == u2) && (v[3]
        == l3 || v[3] == u3)
}

fn check_false_lit(v: &Vec<char>) -> (r: bool)
    ensures
        r == is_false_lit(v@),
{
    if v.len() != 5 {
        return false;
    }
    (v[0] == 'f' || v[0] == 'F') && (v[1] == 'a' || v[1] == 'A') && (v[2] == 'l' || v[2] == 'L')
        && (v[3] == 's' || v[3] == 'S') && (v[4] == 'e' || v[4] == 'E')
}

/// Classify a raw string as null, numeric, boolean or plain text.
pub fn guess_typed_data(value: &str) -> (r: Value)
    ensures
        r@ == guess_spec(value@),
{
    let v = chars_vec(value);
    if check_lit4(&v, 'n', 'N', 'u', 'U', 'l', 'L', 'l', 'L') {
        Value::Null
    } else if check_float_literal(&v) {
        Value::Numeric(value.to_owned())
    } else if check_lit4(&v, 't', 'T', 'r', 'R', 'u', 'U', 'e', 'E') {
        Value::Bool(true)
    } else if check_false_lit(&v) {
        Value::Bool(false)
    } else {
        Value::String(value.to_owned())
    }
}

/// The data-type code classification assigns to a raw string.
pub fn data_type_for_value(value: &str) -> (r: &'static str)
    ensures
        r@ == type_code_of(guess_spec(value@)),
{
    let guessed = guess_typed_data(value);
    match guessed {
        Value::String(_) => "s",
        Value::Numeric(_) => "n",
        Value::Bool(_) => "b",
        Value::Null => "null",
        Value::Inline => "inlineStr",
        Value::Error => "e",
    }
}

// ---------------------------------------------------------------------------
// The cell value aggregate
// ---------------------------------------------------------------------------

/// A cell's content: an optional resolved typed value (a cache, lazily
/// computed from the raw string), the unvalidated raw source string, optional
/// rich text, and an optional formula with its ordered attribute pairs.
/// Rich text and a formula are mutually exclusive with a plain value: the
/// setters clear the other slots.
pub struct CellValue {
    pub value: Option<Value>,
    pub raw_value: Option<String>,
    pub rich_text: Option<RichText>,
    pub formula: Option<String>,
    pub formula_attributes: Vec<(String, String)>,
}

/// The typed value this cell resolves to: the cache if populated, else the
/// classification of the raw string. The cache, once populated, is never
/// recomputed, and the raw string is immutable input to classification.
pub open spec fn typed_view(c: CellValue) -> Option<ValueModel> {
    match c.value {
        Some(v) => Some(v@),
        None => match c.raw_value {
            Some(r) => Some(guess_spec(r@)),
            None => None,
        },
    }
}

/// The textual form a cell displays: its typed value's text if present, else
/// the concatenated rich text, else empty.
pub open spec fn display_view(c: CellValue) -> Seq<char> {
    match typed_view(c) {
        Some(v) => display_of(v),
        None => match c.rich_text {
            Some(rt) => concat_runs(runs_view(rt)),
            None => Seq::empty(),
        },
    }
}

/// A cell is empty when it has no resolved or raw value, no rich text and no
/// formula.
pub open spec fn is_empty_view(c: CellValue) -> bool {
    c.value is None && c.raw_value is None && c.rich_text is None && c.formula is None
}

impl CellValue {
    pub fn new() -> (r: CellValue)
        ensures
            r.value is None,
            r.raw_value is None,
            r.rich_text is None,
            r.formula is None,
            r.formula_attributes@.len() == 0,
    {
        CellValue {
            value: None,
            raw_value: None,
            rich_text: None,
            formula: None,
            formula_attributes: Vec::new(),
        }
    }

    pub fn set_formula_attributes(&mut self, formula_attributes: Vec<(String, String)>)
        ensures
            final(self).formula_attributes == formula_attributes,
            final(self).value == old(self).value,
            final(self).raw_value == old(self).raw_value,
            final(self).rich_text == old(self).rich_text,
            final(self).formula == old(self).formula,
    {
        self.formula_attributes = formula_attributes;
    }

    pub fn get_formula_attributes(&self) -> (r: Vec<(&str, &str)>)
        ensures
            r@.len() == self.formula_attributes@.len(),
            forall|i: int|
                0 <= i < r@.len() ==> (#[trigger] r@[i]).0@ == self.formula_attributes@[i].0@
                    && r@[i].1@ == self.formula_attributes@[i].1@,
    {
        let mut out: Vec<(&str, &str)> = Vec::new();
        let mut i: usize = 0;
        while i < self.formula_attributes.len()
            invariant
                i <= self.formula_attributes@.len(),
                out@.len() == i,
                forall|j: int|
                    0 <= j < i ==> (#[trigger] out@[j]).0@ == self.formula_attributes@[j].0@
                        && out@[j].1@ == self.formula_attributes@[j].1@,
            decreases self.formula_attributes@.len() - i,
        {
            let pair = &self.formula_attributes[i];
            out.push((pair.0.as_str(), pair.1.as_str()));
            i += 1;
        }
        out
    }

    /// Resolve the typed value, populating the cache from the raw string on
    /// first use; the cache is never recomputed once populated.
    pub fn get_typed_value(&mut self) -> (r: Option<Value>)
        ensures
            final(self).raw_value == old(self).raw_value,
            final(self).rich_text == old(self).rich_text,
            final(self).formula == old(self).formula,
            final(self).formula_attributes == old(self).formula_attributes,
            typed_view(*final(self)) == typed_view(*old(self)),
            match final(self).value {
                Some(v) => typed_view(*old(self)) == Some(v@),
                None => typed_view(*old(self)) is None,
            },
            match r {
                Some(v) => typed_view(*old(self)) == Some(v@),
                None => typed_view(*old(self)) is None,
            },
    {
        if self.value.is_none() {
            let tv = match &self.raw_value {
                Some(rv) => Some(guess_typed_data(rv.as_str())),
                None => None,
            };
            self.value = tv;
        }
        match &self.value {
            Some(v) => Some(clone_value(v)),
            None => None,
        }
    }

    /// Resolve the typed value without touching the cache: the cached value
    /// if present, else the classification of the raw string.
    pub fn resolve_typed(&self) -> (r: Option<Value>)
        ensures
            match r {
                Some(v) => typed_view(*self) == Some(v@),
                None => typed_view(*self) is None,
            },
    {
        match &self.value {
            Some(v) => Some(clone_value(v)),
            None => match &self.raw_value {
                Some(rv) => Some(guess_typed_data(rv.as_str())),
                None => None,
            },
        }
    }

    /// The cell's display text.
    pub fn get_value(&mut self) -> (r: String)
        ensures
            r@ == display_view(*old(self)),
            final(self).raw_value == old(self).raw_value,
            final(self).rich_text == old(self).rich_text,
            final(self).formula == old(self).formula,
            final(self).formula_attributes == old(self).formula_attributes,
            typed_view(*final(self)) == typed_view(*old(self)),
    {
        match self.get_typed_value() {
            Some(v) => match v {
                Value::String(s) => s,
                Value::Numeric(s) => s,
                Value::Bool(b) => if b {
                    "true".to_owned()
                } else {
                    "false".to_owned()
                },
                Value::Null => String::new(),
                Value::Inline => String::new(),
                Value::Error => String::new(),
            },
            None => match &self.rich_text {
                Some(rt) => rt.get_text(),
                None => String::new(),
            },
        }
    }

    pub fn get_rich_text(&self) -> (r: &Option<RichText>)
        ensures
            r == self.rich_text,
    {
        &self.rich_text
    }

    /// Classify the given text and store it as the resolved value, clearing
    /// rich text and formula.
    pub fn set_value(&mut self, value: &str)
        ensures
            final(self).value matches Some(v) && v@ == guess_spec(value@),
            final(self).rich_text is None,
            final(self).formula is None,
            final(self).raw_value == old(self).raw_value,
            final(self).formula_attributes == old(self).formula_attributes,
    {
        let tv = guess_typed_data(value);
        self.value = Some(tv);
        self.rich_text = None;
        self.formula = None;
    }

    /// Store the unvalidated raw source string.
    pub fn set_value_raw(&mut self, value: &str)
        ensures
            final(self).raw_value matches Some(s) && s@ == value@,
            final(self).value == old(self).value,
            final(self).rich_text == old(self).rich_text,
            final(self).formula == old(self).formula,
            final(self).formula_attributes == old(self).formula_attributes,
    {
        self.raw_value = Some(value.to_owned());
    }

    pub fn set_value_from_string(&mut self, value: &str)
        ensures
            final(self).value matches Some(v) && v@ == ValueModel::VString(value@),
            final(self).rich_text is None,
            final(self).formula is None,
            final(self).raw_value == old(self).raw_value,
            final(self).formula_attributes == old(self).formula_attributes,
    {
        self.value = Some(Value::String(value.to_owned()));
        self.rich_text = None;
        self.formula = None;
    }

    pub fn set_value_from_bool(&mut self, value: bool)
        ensures
            final(self).value matches Some(v) && v@ == ValueModel::VBool(value),
            final(self).rich_text is None,
            final(self).formula is None,
            final(self).raw_value == old(self).raw_value,
            final(self).formula_attributes == old(self).formula_attributes,
    {
        self.value = Some(Value::Bool(value));
        self.rich_text = None;
        self.formula = None;
    }

    pub fn set_value_from_bool_ref(&mut self, value: &bool)
        ensures
            final(self).value matches Some(v) && v@ == ValueModel::VBool(*value),
            final(self).rich_text is None,
            final(self).formula is None,
            final(self).raw_value == old(self).raw_value,
            final(self).formula_attributes == old(self).formula_attributes,
    {
        self.set_value_from_bool(*value);
    }

    /// Store a numeric value by its textual form.
    pub fn set_value_from_numberic(&mut self, value: &str)
        ensures
            final(self).value matches Some(v) && v@ == ValueModel::VNumeric(value@),
            final(self).rich_text is None,
            final(self).formula is None,
            final(self).raw_value == old(self).raw_value,
            final(self).formula_attributes == old(self).formula_attributes,
    {
        self.value = Some(Value::Numeric(value.to_owned()));
        self.rich_text = None;
        self.formula = None;
    }

    pub fn set_rich_text(&mut self, value: RichText)
        ensures
            final(self).rich_text matches Some(rt) && runs_view(rt) == runs_view(value),
            final(self).value is None,
            final(self).formula is None,
            final(self).raw_value == old(self).raw_value,
            final(self).formula_attributes == old(self).formula_attributes,
    {
        self.value = None;
        self.rich_text = Some(value);
        self.formula = None;
    }

    pub fn set_rich_text_ref(&mut self, value: &RichText)
        ensures
            final(self).rich_text matches Some(rt) && runs_view(rt) == runs_view(*value),
            final(self).value is None,
            final(self).formula is None,
            final(self).raw_value == old(self).raw_value,
            final(self).formula_attributes == old(self).formula_attributes,
    {
        let cloned = value.clone_rich_text();
        self.value = None;
        self.rich_text = Some(cloned);
        self.formula = None;
    }

    pub fn set_formula(&mut self, value: &str)
        ensures
            final(self).formula matches Some(f) && f@ == value@,
            final(self).value is None,
            final(self).rich_text is None,
            final(self).raw_value == old(self).raw_value,
            final(self).formula_attributes == old(self).formula_attributes,
    {
        self.value = None;
        self.rich_text = None;
        self.formula = Some(value.to_owned());
    }

    /// The data-type code of the resolved value; a cell with no resolvable
    /// value (formula, rich text or nothing) reports the string code.
    pub fn get_data_type(&mut self) -> (r: &'static str)
        ensures
            r@ == match typed_view(*old(self)) {
                Some(v) => type_code_of(v),
                None => "s"@,
            },
            final(self).raw_value == old(self).raw_value,
            final(self).rich_text == old(self).rich_text,
            final(self).formula == old(self).formula,
            final(self).formula_attributes == old(self).formula_attributes,
            typed_view(*final(self)) == typed_view(*old(self)),
    {
        match self.get_typed_value() {
            Some(v) => match v {
                Value::String(_) => "s",
                Value::Numeric(_) => "n",
                Value::Bool(_) => "b",
                Value::Null => "null",
                Value::Inline => "inlineStr",
                Value::Error => "e",
            },
            None => "s",
        }
    }

    /// Validate a value against a declared data-type code: numeric content
    /// must be a floating-point literal, boolean content one of the boolean
    /// words; the plain string, formula and null codes accept anything, and
    /// any other code is itself invalid.
    pub fn check_data_type(value: &str, data_type: &str) -> (r: Result<(), &'static str>)
        ensures
            r is Ok <==> (data_type@ == "str"@ || data_type@ == "s"@ || data_type@ == "f"@
                || data_type@ == "null"@ || (data_type@ == "n"@ && is_float_literal(value@)) || (
            data_type@ == "b"@ && (is_true_lit(value@) || is_false_lit(value@)))),
            r matches Err(e) ==> e@ == (if data_type@ == "n"@ {
                "Invalid numeric value for datatype Numeric"@
            } else if data_type@ == "b"@ {
                "Invalid value for datatype Bool"@
            } else {
                "Invalid datatype"@
            }),
    {
        if str_eq(data_type, "str") || str_eq(data_type, "s") || str_eq(data_type, "f") || str_eq(
            data_type,
            "null",
        ) {
            Ok(())
        } else if str_eq(data_type, "n") {
            let v = chars_vec(value);
            if check_float_literal(&v) {
                Ok(())
            } else {
                proof {
                    reveal_strlit("n");
                    reveal_strlit("b");
                    assert(("n"@)[0] != ("b"@)[0]);
                    assert("n"@ != "b"@);
                }
                Err("Invalid numeric value for datatype Numeric")
            }
        } else if str_eq(data_type, "b") {
            let v = chars_vec(value);
            if check_lit4(&v, 't', 'T', 'r', 'R', 'u', 'U', 'e', 'E') || check_false_lit(&v) {
                Ok(())
            } else {
                Err("Invalid value for datatype Bool")
            }
        } else {
            Err("Invalid datatype")
        }
    }

    pub fn is_formula(&self) -> (r: bool)
        ensures
            r == (self.formula is Some),
    {
        self.formula.is_some()
    }

    pub fn get_formula(&self) -> (r: &str)
        ensures
            match self.formula {
                Some(f) => r@ == f@,
                None => r@ == Seq::<char>::empty(),
            },
    {
        match &self.formula {
            Some(v) => v.as_str(),
            None => {
                proof {
                    reveal_strlit("");
                    assert(""@ =~= Seq::<char>::empty());
                }
                ""
            },
        }
    }

    /// Empty means: no resolved or raw value, no rich text, no formula.
    pub fn is_empty(&self) -> (r: bool)
        ensures
            r == is_empty_view(*self),
    {
        self.value.is_none() && self.raw_value.is_none() && self.rich_text.is_none()
            && self.formula.is_none()
    }
}

// ---------------------------------------------------------------------------
// Classification round trip
// ---------------------------------------------------------------------------

/// The value text a numeric, boolean or null value is written as.
pub open spec fn written_value_text(v: ValueModel) -> Seq<char> {
    match v {
        ValueModel::VNumeric(s) => s,
        ValueModel::VBool(b) => if b {
            "true"@
        } else {
            "false"@
        },
        ValueModel::VNull => "NULL"@,
        _ => Seq::empty(),
    }
}

/// Writing a numeric, boolean or null value as its value text and
/// classifying that text again yields the value back: the boolean and null
/// words classify to themselves, and a numeric literal classifies as
/// numeric. So reading a written cell reproduces its typed value.
pub proof fn lemma_written_value_round_trip(v: ValueModel)
    requires
        v is VNumeric || v is VBool || v is VNull,
        v matches ValueModel::VNumeric(s) ==> is_float_literal(s),
    ensures
        guess_spec(written_value_text(v)) == v,
{
    reveal_strlit("true");
    reveal_strlit("false");
    reveal_strlit("NULL");
    match v {
        ValueModel::VNumeric(s) => {
            if is_null_lit(s) {
                assert(s.len() == 4);
                assert(ci_eq(s[0], 'n', 'N') && ci_eq(s[1], 'u', 'U') && ci_eq(s[2], 'l', 'L')
                    && ci_eq(s[3], 'l', 'L'));
                let b = strip_sign(s);
                assert(b == s);
                assert(!is_ascii_digit(s[0]));
                assert(!all_digits(s));
                assert(forall|i: int| 0 <= i < s.len() ==> #[trigger] s[i] != '.');
                assert(forall|i: int| !#[trigger] dot_split_ok(s, i));
                assert(!is_mantissa(s));
                assert(forall|i: int|
                    0 <= i < s.len() ==> !(#[trigger] s[i] == 'e' || s[i] == 'E'));
                assert(forall|i: int| !#[trigger] e_split_ok(s, i));
                assert(!is_number_lit(s));
                assert(!is_inf_lit(s) && !is_infinity_lit(s) && !is_nan_lit(s));
                assert(!is_float_literal(s));
                assert(false);
            }
            assert(guess_spec(s) == ValueModel::VNumeric(s));
        },
        ValueModel::VBool(bv) => {
            let s = written_value_text(v);
            if bv {
                assert(s == "true"@);
                assert(s.len() == 4);
                assert(s[0] == 't' && s[1] == 'r' && s[2] == 'u' && s[3] == 'e');
            } else {
                assert(s == "false"@);
                assert(s.len() == 5);
                assert(s[0] == 'f' && s[1] == 'a' && s[2] == 'l' && s[3] == 's' && s[4] == 'e');
            }
            assert(!is_null_lit(s));
            let b = strip_sign(s);
            assert(b == s);
            assert(!is_ascii_digit(s[0]));
            assert(!all_digits(s));
            assert(forall|i: int| 0 <= i < s.len() ==> #[trigger] s[i] != '.');
            assert(forall|i: int| !#[trigger] dot_split_ok(s, i));
            assert(!is_mantissa(s));
            assert forall|i: int| !#[trigger] e_split_ok(s, i) by {
                if 0 <= i < s.len() && (s[i] == 'e' || s[i] == 'E') {
                    assert(i == s.len() - 1);
                    assert(s.take(i)[0] == s[0]);
                    assert(!is_ascii_digit(s.take(i)[0]));
                    assert(!all_digits(s.take(i)));
                    assert(forall|j: int| 0 <= j < i ==> #[trigger] s.take(i)[j] != '.');
                    assert(forall|j: int| !#[trigger] dot_split_ok(s.take(i), j));
                    assert(!is_mantissa(s.take(i)));
                }
            }
            assert(!is_number_lit(s));
            assert(!is_inf_lit(s) && !is_infinity_lit(s) && !is_nan_lit(s));
            assert(!is_float_literal(s));
            if bv {
                assert(is_true_lit(s));
            } else {
                assert(!is_true_lit(s));
                assert(is_false_lit(s));
            }
            assert(guess_spec(s) == v);
        },
        ValueModel::VNull => {
            let s = written_value_text(v);
            assert(s == "NULL"@);
            assert(s.len() == 4);
            assert(s[0] == 'N' && s[1] == 'U' && s[2] == 'L' && s[3] == 'L');
            assert(is_null_lit(s));
            assert(guess_spec(s) == v);
        },
        _ => {},
    }
}

} // verus!
