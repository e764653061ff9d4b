use vstd::prelude::*;

use std::collections::HashMap;
use crate::cell_value::CellValue;
use crate::cell_value::Value;
use crate::cell_value::ValueModel;
use crate::cell_value::clone_value;
use crate::cell_value::typed_view;
use crate::rich_text::RichText;
use crate::rich_text::Text;
use crate::rich_text::runs_view;
use crate::util::chars_vec;

verus! {

broadcast use vstd::std_specs::hash::group_hash_axioms;

// ---------------------------------------------------------------------------
// Shared string items and their content hash
//
// The table interns string and rich-text cell content: each distinct content
// is stored once, and cells reference it by index. Deduplication goes through
// a content hash; equal hashes are treated as equal content (a documented
// approximation of content equality).
// ---------------------------------------------------------------------------

/// Canonical interned content: plain text, a rich-text run sequence, or both
/// slots empty.
pub struct SharedStringItem {
    pub text: Option<Text>,
    pub rich_text: Option<RichText>,
}

/// The mathematical model of a shared string item.
pub struct SsiModel {
    pub text: Option<Seq<char>>,
    pub rich: Option<Seq<Seq<char>>>,
}

impl View for SharedStringItem {
    type V = SsiModel;

    open spec fn view(&self) -> SsiModel {
        SsiModel {
            text: match self.text {
                Some(t) => Some(t.value@),
                None => None,
            },
            rich: match self.rich_text {
                Some(rt) => Some(runs_view(rt)),
                None => None,
            },
        }
    }
}

pub const FNV_OFFSET: u64 = 0xcbf29ce484222325;

pub const FNV_PRIME: u64 = 0x100000001b3;

/// One step of the rolling content hash.
pub open spec fn hash_step(h: u64, x: u64) -> u64 {
    vstd::wrapping::u64_specs::wrapping_mul(h ^ x, FNV_PRIME)
}

/// The hash after absorbing each character in turn.
pub open spec fn hash_chars(h: u64, s: Seq<char>) -> u64
    decreases s.len(),
{
    if s.len() == 0 {
        h
    } else {
        hash_chars(hash_step(h, s[0] as u64), s.drop_first())
    }
}

/// The hash after absorbing each run in turn, with a separator step.
pub open spec fn hash_runs(h: u64, rs: Seq<Seq<char>>) -> u64
    decreases rs.len(),
{
    if rs.len() == 0 {
        h
    } else {
        hash_runs(hash_chars(hash_step(h, 2), rs[0]), rs.drop_first())
    }
}

/// The content hash of a shared string item: a deterministic function of its
/// model, so equal content always hashes equally.
pub open spec fn item_hash(m: SsiModel) -> u64 {
    let h1 = match m.text {
        Some(t) => hash_chars(hash_step(FNV_OFFSET, 1), t),
        None => hash_step(FNV_OFFSET, 0),
    };
    match m.rich {
        Some(rs) => hash_runs(hash_step(h1, 3), rs),
        None => hash_step(h1, 0),
    }
}

fn hash_chars_exec(h0: u64, s: &str) -> (r: u64)
    ensures
        r == hash_chars(h0, s@),
{
    let v = chars_vec(s);
    let mut h = h0;
    let mut i: usize = 0;
    proof {
        assert(s@.skip(0) =~= s@);
    }
    while i < v.len()
        invariant
            i <= v@.len(),
            v@ == s@,
            hash_chars(h0, s@) == hash_chars(h, s@.skip(i as int)),
        decreases v@.len() - i,
    {
        proof {
            let rest = s@.skip(i as int);
            assert(rest[0] == s@[i as int]);
            assert(rest.drop_first() =~= s@.skip(i as int + 1));
        }
        h = (h ^ (v[i] as u64)).wrapping_mul(FNV_PRIME);
        i += 1;
    }
    proof {
        assert(s@.skip(i as int) =~= Seq::<char>::empty());
    }
    h
}

impl SharedStringItem {
    pub fn new() -> (r: SharedStringItem)
        ensures
            r@.text is None,
            r@.rich is None,
    {
        SharedStringItem { text: None, rich_text: None }
    }

    pub fn get_text(&self) -> (r: &Option<Text>)
        ensures
            r == self.text,
    {
        &self.text
    }

    pub fn set_text(&mut self, value: Text)
        ensures
            final(self).text == Some(value),
            final(self).rich_text == old(self).rich_text,
    {
        self.text = Some(value);
    }

    pub fn get_rich_text(&self) -> (r: &Option<RichText>)
        ensures
            r == self.rich_text,
    {
        &self.rich_text
    }

    pub fn set_rich_text(&mut self, value: RichText)
        ensures
            final(self).rich_text matches Some(rt) && runs_view(rt) == runs_view(value),
            final(self).text == old(self).text,
    {
        self.rich_text = Some(value);
    }

    /// The content hash used for deduplication.
    pub fn get_hash_u64(&self) -> (r: u64)
        ensures
            r == item_hash(self@),
    {
        let h1 = match &self.text {
            Some(t) => hash_chars_exec((FNV_OFFSET ^ 1).wrapping_mul(FNV_PRIME), t.value.as_str()),
            None => (FNV_OFFSET ^ 0).wrapping_mul(FNV_PRIME),
        };
        match &self.rich_text {
            Some(rt) => {
                let mut h = (h1 ^ 3).wrapping_mul(FNV_PRIME);
                let ghost rs = runs_view(*rt);
                let mut i: usize = 0;
                proof {
                    assert(rs.skip(0) =~= rs);
                }
                while i < rt.runs.len()
                    invariant
                        i <= rt.runs@.len(),
                        rs == runs_view(*rt),
                        rs.len() == rt.runs@.len(),
                        hash_runs((h1 ^ 3).wrapping_mul(FNV_PRIME), rs) == hash_runs(h, rs.skip(i as int)),
                    decreases rt.runs@.len() - i,
                {
                    proof {
                        let rest = rs.skip(i as int);
                        assert(rest[0] == rs[i as int]);
                        assert(rest.drop_first() =~= rs.skip(i as int + 1));
                    }
                    h = hash_chars_exec((h ^ 2).wrapping_mul(FNV_PRIME), rt.runs[i].value.as_str());
                    i += 1;
                }
                proof {
                    assert(rs.skip(i as int) =~= Seq::<Seq<char>>::empty());
                }
                h
            },
            None => (h1 ^ 0).wrapping_mul(FNV_PRIME),
        }
    }
}

// ---------------------------------------------------------------------------
// The shared string table
// ---------------------------------------------------------------------------

/// The interned item a cell's content registers as: its plain string value if
/// it resolves to one, and its rich-text runs if it carries any.
pub open spec fn cell_item(c: CellValue) -> SsiModel {
    SsiModel {
        text: match typed_view(c) {
            Some(ValueModel::VString(s)) => Some(s),
            _ => None,
        },
        rich: match c.rich_text {
            Some(rt) => Some(runs_view(rt)),
            None => None,
        },
    }
}

/// The views of the interned items, in insertion order.
pub open spec fn items_view(items: Seq<SharedStringItem>) -> Seq<SsiModel> {
    items.map_values(|it: SharedStringItem| it@)
}

/// The hash-to-index lookup the item list induces: each hash maps to the last
/// index bearing it.
pub open spec fn built_map(items: Seq<SsiModel>) -> Map<u64, usize>
    decreases items.len(),
{
    if items.len() == 0 {
        Map::empty()
    } else {
        built_map(items.drop_last()).insert(item_hash(items.last()), (items.len() - 1) as usize)
    }
}

/// One registration: an existing index for known content, else an append.
pub open spec fn register_spec(items: Seq<SsiModel>, c: SsiModel) -> (Seq<SsiModel>, usize) {
    let h = item_hash(c);
    if built_map(items).contains_key(h) {
        (items, built_map(items)[h])
    } else {
        (items.push(c), items.len() as usize)
    }
}

/// Every index in the lookup is a valid item index.
pub proof fn lemma_built_map_range(items: Seq<SsiModel>)
    ensures
        forall|k: u64|
            built_map(items).contains_key(k) ==> 0 <= #[trigger] built_map(items)[k]
                < items.len(),
    decreases items.len(),
{
    if items.len() > 0 {
        lemma_built_map_range(items.drop_last());
        let h = item_hash(items.last());
        let v = (items.len() - 1) as usize;
        if items.len() - 1 <= usize::MAX {
            assert(v == items.len() - 1);
        }
        assert(v < items.len());
        assert forall|k: u64|
            built_map(items).contains_key(k) implies 0 <= #[trigger] built_map(items)[k]
            < items.len() by {
            if k != h {
                assert(built_map(items.drop_last()).contains_key(k));
                assert(built_map(items)[k] == built_map(items.drop_last())[k]);
            }
        }
    }
}

/// Workbook-wide interning store for string content: the ordered unique item
/// list (insertion order is the serialization index), the content-hash lookup
/// structure, and the total registration counter.
pub struct SharedStringTable {
    pub shared_string_item: Vec<SharedStringItem>,
    pub map: HashMap<u64, usize>,
    pub regist_count: usize,
}

/// Well-formedness: the lookup structure is either still unbuilt (empty) or
/// exactly the one the item list induces.
pub open spec fn wf(t: SharedStringTable) -> bool {
    t.map@ =~= Map::<u64, usize>::empty() || t.map@ == built_map(items_view(t.shared_string_item@))
}

impl SharedStringTable {
    pub fn new() -> (r: SharedStringTable)
        ensures
            wf(r),
            r.shared_string_item@.len() == 0,
            r.map@ =~= Map::<u64, usize>::empty(),
            r.regist_count == 0,
    {
        SharedStringTable { shared_string_item: Vec::new(), map: HashMap::new(), regist_count: 0 }
    }

    pub fn get_shared_string_item(&self) -> (r: &Vec<SharedStringItem>)
        ensures
            r == self.shared_string_item,
    {
        &self.shared_string_item
    }

    /// Append an item read directly from the container, before the lookup
    /// structure exists; deduplication happens on the first registration.
    pub fn set_shared_string_item(&mut self, value: SharedStringItem)
        ensures
            final(self).shared_string_item@ == old(self).shared_string_item@.push(value),
            final(self).map == old(self).map,
            final(self).regist_count == old(self).regist_count,
    {
        self.shared_string_item.push(value);
    }

    pub fn has_value(&self) -> (r: bool)
        ensures
            r == (self.shared_string_item@.len() > 0),
    {
        self.shared_string_item.len() > 0
    }

    pub fn get_regist_count(&self) -> (r: usize)
        ensures
            r == self.regist_count,
    {
        self.regist_count
    }

    /// Build the hash lookup lazily, exactly when it is empty but the item
    /// list is not (the read path fills the list without registering).
    pub fn ensure_map(&mut self) -> (r: bool)
        requires
            wf(*old(self)),
        ensures
            r == true,
            final(self).shared_string_item == old(self).shared_string_item,
            final(self).regist_count == old(self).regist_count,
            final(self).map@ == built_map(items_view(final(self).shared_string_item@)),
            wf(*final(self)),
    {
        let ghost iv = items_view(self.shared_string_item@);
        if self.shared_string_item.len() > 0 && self.map.is_empty() {
            let mut h: HashMap<u64, usize> = HashMap::new();
            let mut i: usize = 0;
            proof {
                assert(iv.take(0) =~= Seq::<SsiModel>::empty());
                assert(h@ =~= built_map(iv.take(0)));
            }
            while i < self.shared_string_item.len()
                invariant
                    i <= self.shared_string_item@.len(),
                    iv == items_view(self.shared_string_item@),
                    iv.len() == self.shared_string_item@.len(),
                    h@ == built_map(iv.take(i as int)),
                decreases self.shared_string_item@.len() - i,
            {
                let hash = self.shared_string_item[i].get_hash_u64();
                h.insert(hash, i);
                proof {
                    assert(iv.take(i as int + 1).drop_last() =~= iv.take(i as int));
                    assert(iv.take(i as int + 1).last() == iv[i as int]);
                    assert(h@ == built_map(iv.take(i as int + 1)));
                }
                i += 1;
            }
            proof {
                assert(iv.take(iv.len() as int) =~= iv);
            }
            self.map = h;
        } else {
            proof {
                if self.map@ =~= Map::<u64, usize>::empty() {
                    assert(self.shared_string_item@.len() == 0);
                    assert(iv =~= Seq::<SsiModel>::empty());
                    assert(self.map@ =~= built_map(iv));
                }
            }
        }
        true
    }

    /// Register a cell's content: always count the registration, then return
    /// the index of an existing item with equal content hash, or append a new
    /// item at the next index and record its hash.
    pub fn set_cell(&mut self, value: &CellValue) -> (r: usize)
        requires
            wf(*old(self)),
            old(self).regist_count < usize::MAX,
        ensures
            wf(*final(self)),
            final(self).regist_count == old(self).regist_count + 1,
            items_view(final(self).shared_string_item@) == register_spec(
                items_view(old(self).shared_string_item@),
                cell_item(*value),
            ).0,
            r == register_spec(items_view(old(self).shared_string_item@), cell_item(*value)).1,
            r < final(self).shared_string_item@.len(),
    {
        self.regist_count = self.regist_count + 1;

        let mut shared_string_item = SharedStringItem::new();
        let tv = value.resolve_typed();
        match tv {
            Some(v) => match v {
                Value::String(s) => {
                    shared_string_item.set_text(Text::new_with(s));
                },
                _ => {},
            },
            None => {},
        }
        match value.get_rich_text() {
            Some(v) => {
                shared_string_item.set_rich_text(v.clone_rich_text());
            },
            None => {},
        }
        proof {
            assert(shared_string_item@.text == cell_item(*value).text);
            assert(shared_string_item@.rich == cell_item(*value).rich);
            assert(shared_string_item@ == cell_item(*value));
        }

        let hash_code = shared_string_item.get_hash_u64();
        self.ensure_map();
        let ghost iv = items_view(self.shared_string_item@);

        proof {
            lemma_built_map_range(iv);
        }
        let found: Option<usize> = match self.map.get(&hash_code) {
            Some(n) => Some(*n),
            None => None,
        };
        match found {
            Some(n) => {
                proof {
                    assert(built_map(iv).contains_key(item_hash(cell_item(*value))));
                }
                n
            },
            None => {
                let n = self.shared_string_item.len();
                self.map.insert(hash_code, n);
                self.shared_string_item.push(shared_string_item);
                proof {
                    let iv2 = items_view(self.shared_string_item@);
                    assert(iv2.drop_last() =~= iv);
                    assert(iv2.last() == cell_item(*value));
                    assert(iv2 =~= iv.push(cell_item(*value)));
                    assert(self.map@ == built_map(iv2));
                }
                n
            },
        }
    }
}

// ---------------------------------------------------------------------------
// Deduplication laws
// ---------------------------------------------------------------------------

/// Registering content that was just registered returns the same index and
/// leaves the item list unchanged.
pub proof fn lemma_register_dedup(items: Seq<SsiModel>, c: SsiModel)
    ensures
        ({
            let (items1, i1) = register_spec(items, c);
            let (items2, i2) = register_spec(items1, c);
            items2 == items1 && i2 == i1
        }),
{
    let h = item_hash(c);
    let (items1, i1) = register_spec(items, c);
    if !built_map(items).contains_key(h) {
        assert(items1.drop_last() =~= items);
        assert(items1.last() == c);
        assert(built_map(items1) == built_map(items).insert(h, items.len() as usize));
    }
}

/// The item list after registering one and the same content n times from an
/// empty table.
pub open spec fn register_n(c: SsiModel, n: nat) -> Seq<SsiModel>
    decreases n,
{
    if n == 0 {
        Seq::empty()
    } else {
        register_spec(register_n(c, (n - 1) as nat), c).0
    }
}

/// Registering identical content any number of times from an empty table
/// keeps exactly one interned item, and every registration after the first
/// returns index 0 — the index first handed out stays stable.
pub proof fn lemma_register_n_dedup(c: SsiModel, n: nat)
    ensures
        n >= 1 ==> register_n(c, n) =~= seq![c],
        register_spec(register_n(c, n), c).1 == 0,
    decreases n,
{
    if n == 0 {
        assert(register_n(c, 0) =~= Seq::<SsiModel>::empty());
        assert(!built_map(Seq::<SsiModel>::empty()).contains_key(item_hash(c)));
        assert(register_spec(Seq::<SsiModel>::empty(), c).1 == 0);
    } else {
        lemma_register_n_dedup(c, (n - 1) as nat);
        let prev = register_n(c, (n - 1) as nat);
        if n == 1 {
            assert(prev =~= Seq::<SsiModel>::empty());
            assert(register_n(c, 1) == register_spec(prev, c).0);
            assert(register_spec(prev, c).0 =~= seq![c]);
            let one = register_n(c, 1);
            assert(one.drop_last() =~= Seq::<SsiModel>::empty());
            assert(built_map(one) == Map::<u64, usize>::empty().insert(item_hash(c), 0usize));
            assert(register_spec(one, c).1 == 0);
        } else {
            assert(prev =~= seq![c]);
            assert(register_spec(prev, c).1 == 0);
            assert(register_spec(prev, c).0 == prev);
            assert(register_n(c, n) =~= seq![c]);
        }
    }
}

impl CellValue {
    /// Take over interned content: the item's plain text becomes the cell's
    /// string value (an item without one leaves the cached value alone),
    /// its rich text is carried over, and any formula is cleared.
    pub(crate) fn set_shared_string_item(&mut self, value: SharedStringItem)
        ensures
            match value.text {
                Some(t) => final(self).value matches Some(v) && v@ == ValueModel::VString(
                    t.value@,
                ),
                None => final(self).value == old(self).value,
            },
            final(self).rich_text == value.rich_text,
            final(self).formula is None,
            final(self).raw_value == old(self).raw_value,
            final(self).formula_attributes == old(self).formula_attributes,
    {
        let SharedStringItem { text, rich_text } = value;
        match text {
            Some(t) => {
                self.value = Some(Value::String(t.value));
            },
            None => {},
        }
        self.rich_text = rich_text;
        self.formula = None;
    }
}

} // verus!
