//! The record that describes one container file.
use vstd::prelude::*;

use safetensors::SafeTensorError;

use crate::container::{lists_shapes, lists_table, offsets_fit_exec, parsed_header, read_container};
use crate::model_type::{classified, classify, rank_sorted, ModelType};
use crate::text::{lemma_lex_asymmetric, lemma_lex_le_transitive, lemma_lex_total, lex_lt, str_lt};

verus! {

broadcast use vstd::seq_lib::group_to_multiset_ensures;

/// Names in strictly increasing lexicographic order.
pub open spec fn names_sorted(s: Seq<(String, Vec<usize>)>) -> bool {
    forall|i: int, j: int| 0 <= i < j < s.len() ==> lex_lt((#[trigger] s[i]).0@, (#[trigger] s[j]).0@)
}

/// Names in non-decreasing lexicographic order.
pub open spec fn names_nondecreasing(s: Seq<(String, Vec<usize>)>) -> bool {
    forall|i: int, j: int|
        0 <= i < j < s.len() ==> !lex_lt((#[trigger] s[j]).0@, (#[trigger] s[i]).0@)
}

/// Orders tensor entries by name (insertion sort).
fn sort_by_name(entries: Vec<(String, Vec<usize>)>) -> (r: Vec<(String, Vec<usize>)>)
    ensures
        r@.to_multiset() == entries@.to_multiset(),
        names_nondecreasing(r@),
{
    let ghost orig = entries@;
    let mut rest = entries;
    let mut out: Vec<(String, Vec<usize>)> = Vec::new();
    while rest.len() > 0
        invariant
            out@.to_multiset().add(rest@.to_multiset()) == orig.to_multiset(),
            names_nondecreasing(out@),
        decreases rest@.len(),
    {
        let ghost before_rest = rest@;
        let e = rest.pop().unwrap();
        proof {
            assert(before_rest =~= rest@.push(e));
        }
        let mut p: usize = 0;
        while p < out.len() && str_lt(out[p].0.as_str(), e.0.as_str())
            invariant
                p <= out@.len(),
                forall|j: int| 0 <= j < p ==> lex_lt((#[trigger] out@[j]).0@, e.0@),
            decreases out@.len() - p,
        {
            p += 1;
        }
        let ghost before = out@;
        out.insert(p, e);
        proof {
            assert(out@.remove(p as int) =~= before);
            assert(out@.to_multiset() =~= before.to_multiset().insert(e));
            assert forall|i: int, j: int| 0 <= i < j < out@.len() implies !lex_lt(
                (#[trigger] out@[j]).0@,
                (#[trigger] out@[i]).0@,
            ) by {
                if j < p {
                    assert(out@[i] == before[i] && out@[j] == before[j]);
                } else if j == p {
                    assert(out@[i] == before[i]);
                    lemma_lex_asymmetric(before[i].0@, e.0@);
                } else if i < p {
                    assert(out@[i] == before[i] && out@[j] == before[j - 1]);
                } else if i == p {
                    assert(out@[j] == before[j - 1]);
                    lemma_lex_le_transitive(before[p as int].0@, before[j - 1].0@, e.0@);
                    lemma_lex_total(before[p as int].0@, e.0@);
                    lemma_lex_le_transitive(e.0@, before[p as int].0@, before[j - 1].0@);
                } else {
                    assert(out@[i] == before[i - 1] && out@[j] == before[j - 1]);
                }
            }
        }
    }
    assert(rest@ =~= Seq::<(String, Vec<usize>)>::empty());
    assert(out@.to_multiset() =~= orig.to_multiset());
    out
}


/// Sorting keeps the listing of a tensor table, and makes the order strict.
proof fn lemma_sorted_listing(
    orig: Seq<(String, Vec<usize>)>,
    r: Seq<(String, Vec<usize>)>,
    m: Map<Seq<char>, Seq<usize>>,
)
    requires
        lists_shapes(orig, m),
        r.to_multiset() == orig.to_multiset(),
        names_nondecreasing(r),
    ensures
        lists_shapes(r, m),
        names_sorted(r),
{
    assert forall|i: int, j: int| 0 <= i < orig.len() && 0 <= j < orig.len() && i != j implies orig[i]
        != orig[j] by {
        if i < j {
            assert(orig[i].0@ != orig[j].0@);
        } else {
            assert(orig[j].0@ != orig[i].0@);
        }
    }
    assert(orig.no_duplicates());
    orig.lemma_multiset_has_no_duplicates();
    r.lemma_multiset_has_no_duplicates_conv();
    assert forall|i: int| 0 <= i < r.len() implies exists|a: int|
        0 <= a < orig.len() && orig[a] == #[trigger] r[i] by {
        assert(r.contains(r[i]));
        assert(orig.to_multiset().count(r[i]) > 0);
        assert(orig.contains(r[i]));
    }
    assert forall|i: int, j: int| 0 <= i < j < r.len() implies lex_lt(
        (#[trigger] r[i]).0@,
        (#[trigger] r[j]).0@,
    ) by {
        let a = choose|a: int| 0 <= a < orig.len() && orig[a] == r[i];
        let b = choose|b: int| 0 <= b < orig.len() && orig[b] == r[j];
        assert(r[i] != r[j]);
        assert(a != b);
        if a < b {
            assert(orig[a].0@ != orig[b].0@);
        } else {
            assert(orig[b].0@ != orig[a].0@);
        }
        lemma_lex_total(r[i].0@, r[j].0@);
    }
    assert forall|i: int, j: int| 0 <= i < j < r.len() implies (#[trigger] r[i]).0@ != (
    #[trigger] r[j]).0@ by {
        crate::text::lemma_lex_irreflexive(r[i].0@);
    }
    assert forall|i: int| 0 <= i < r.len() implies m.contains_key((#[trigger] r[i]).0@) && m[r[i].0@]
        == r[i].1@ by {
        let a = choose|a: int| 0 <= a < orig.len() && orig[a] == r[i];
        assert(m.contains_key(orig[a].0@));
    }
    assert forall|k: Seq<char>| #[trigger] m.contains_key(k) implies exists|i: int|
        0 <= i < r.len() && (#[trigger] r[i]).0@ == k by {
        let a = choose|a: int| 0 <= a < orig.len() && (#[trigger] orig[a]).0@ == k;
        assert(orig.contains(orig[a]));
        assert(r.to_multiset().count(orig[a]) > 0);
        assert(r.contains(orig[a]));
        let i = choose|i: int| 0 <= i < r.len() && r[i] == orig[a];
        assert(r[i].0@ == k);
    }
}

/// The value of the first entry under `key`, if any.
pub open spec fn entry_value(entries: Seq<(String, String)>, key: Seq<char>) -> Option<Seq<char>>
    decreases entries.len(),
{
    if entries.len() == 0 {
        None
    } else if entries[0].0@ == key {
        Some(entries[0].1@)
    } else {
        entry_value(entries.drop_first(), key)
    }
}

/// The value that a metadata table holds under `key`, if any.
pub open spec fn table_value(m: Map<Seq<char>, Seq<char>>, key: Seq<char>) -> Option<Seq<char>> {
    if m.contains_key(key) {
        Some(m[key])
    } else {
        None
    }
}

pub open spec fn opt_view(o: Option<String>) -> Option<Seq<char>> {
    match o {
        Some(s) => Some(s@),
        None => None,
    }
}

proof fn lemma_entry_value_at(entries: Seq<(String, String)>, key: Seq<char>, i: int)
    requires
        0 <= i < entries.len(),
        entries[i].0@ == key,
        forall|j: int| 0 <= j < i ==> (#[trigger] entries[j]).0@ != key,
    ensures
        entry_value(entries, key) == Some(entries[i].1@),
    decreases i,
{
    if i > 0 {
        let rest = entries.drop_first();
        assert forall|j: int| 0 <= j < i - 1 implies (#[trigger] rest[j]).0@ != key by {
            assert(rest[j] == entries[j + 1]);
        }
        lemma_entry_value_at(rest, key, i - 1);
    }
}

proof fn lemma_entry_value_absent(entries: Seq<(String, String)>, key: Seq<char>)
    requires
        forall|j: int| 0 <= j < entries.len() ==> (#[trigger] entries[j]).0@ != key,
    ensures
        entry_value(entries, key) is None,
    decreases entries.len(),
{
    if entries.len() > 0 {
        let rest = entries.drop_first();
        assert forall|j: int| 0 <= j < rest.len() implies (#[trigger] rest[j]).0@ != key by {
            assert(rest[j] == entries[j + 1]);
        }
        lemma_entry_value_absent(rest, key);
    }
}

proof fn lemma_entry_value_of_table(
    entries: Seq<(String, String)>,
    m: Map<Seq<char>, Seq<char>>,
    key: Seq<char>,
)
    requires
        lists_table(entries, m),
    ensures
        entry_value(entries, key) == table_value(m, key),
{
    if m.contains_key(key) {
        let i = choose|i: int| 0 <= i < entries.len() && (#[trigger] entries[i]).0@ == key;
        assert forall|j: int| 0 <= j < i implies (#[trigger] entries[j]).0@ != key by {
            assert(entries[j].0@ != entries[i].0@);
        }
        lemma_entry_value_at(entries, key, i);
    } else {
        lemma_entry_value_absent(entries, key);
    }
}

/// What is known of one container file: its free-form metadata table, its base
/// checkpoint, its tensors sorted by name, and the tags that classify it.
pub struct LoraData {
    pub raw_metadata: Vec<(String, String)>,
    pub base_model: Option<String>,
    pub tensors: Vec<(String, Vec<usize>)>,
    pub model_types: Vec<ModelType>,
}

/// Why a buffer yields no record.
#[derive(Debug)]
pub enum LoadError {
    /// A tensor's data would end past `usize::MAX` once the header is counted:
    /// no buffer can hold it, and the container parser would overflow on it.
    OffsetOverflow,
    /// The container parser refused the buffer.
    InvalidContainer(SafeTensorError),
}

/// `d` is the record of the container file held in `buffer`.
pub open spec fn describes(d: LoraData, buffer: Seq<u8>) -> bool {
    match parsed_header(buffer) {
        None => false,
        Some((t, s)) => {
            let table = match t {
                Some(m) => m,
                None => Map::empty(),
            };
            &&& lists_table(d.raw_metadata@, table)
            &&& opt_view(d.base_model) == table_value(table, "ss_sd_model_name"@)
            &&& names_sorted(d.tensors@)
            &&& lists_shapes(d.tensors@, s)
            &&& d.model_types@.to_set() == classified(d.tensors@)
            &&& rank_sorted(d.model_types@)
        },
    }
}

/// `d` is the record with every field at its empty default.
pub open spec fn is_blank(d: LoraData) -> bool {
    &&& d.raw_metadata@.len() == 0
    &&& d.base_model is None
    &&& d.tensors@.len() == 0
    &&& d.model_types@.len() == 0
}

impl Default for LoraData {
    fn default() -> (r: LoraData)
        ensures
            is_blank(r),
    {
        LoraData {
            raw_metadata: Vec::new(),
            base_model: None,
            tensors: Vec::new(),
            model_types: Vec::new(),
        }
    }
}

impl LoraData {
    /// The value of the first metadata entry under `key`, if any.
    pub fn metadata_value(&self, key: &str) -> (r: Option<String>)
        ensures
            opt_view(r) == entry_value(self.raw_metadata@, key@),
    {
        let k: String = key.to_owned();
        let mut i: usize = 0;
        assert(self.raw_metadata@.skip(0) =~= self.raw_metadata@);
        while i < self.raw_metadata.len()
            invariant
                i <= self.raw_metadata@.len(),
                k@ == key@,
                entry_value(self.raw_metadata@, key@) == entry_value(
                    self.raw_metadata@.skip(i as int),
                    key@,
                ),
            decreases self.raw_metadata@.len() - i,
        {
            let entry = &self.raw_metadata[i];
            if entry.0 == k {
                return Some(entry.1.clone());
            }
            assert(self.raw_metadata@.skip(i as int).drop_first() =~= self.raw_metadata@.skip(
                i + 1,
            ));
            i += 1;
        }
        None
    }

    /// Reads the record of a container file from a buffer that has the file's
    /// full length. Fails exactly where the container format refuses the buffer.
    pub fn from_buffer(buffer: &[u8]) -> (r: Result<LoraData, LoadError>)
        ensures
            r is Ok <==> parsed_header(buffer@) is Some,
            r matches Ok(d) ==> describes(d, buffer@),
            r matches Err(LoadError::OffsetOverflow) ==> !crate::container::offsets_fit(buffer@),
    {
        if !offsets_fit_exec(buffer) {
            return Err(LoadError::OffsetOverflow);
        }
        let (table, shapes) = match read_container(buffer) {
            Ok(parts) => parts,
            Err(e) => return Err(LoadError::InvalidContainer(e)),
        };
        let raw_metadata = match table {
            Some(entries) => entries,
            None => Vec::new(),
        };
        let ghost unsorted = shapes@;
        let tensors = sort_by_name(shapes);
        let model_types = classify(&tensors);
        let data = LoraData { raw_metadata, base_model: None, tensors, model_types };
        let base_model = data.metadata_value("ss_sd_model_name");
        let data = LoraData { base_model, ..data };
        proof {
            let (t, s) = parsed_header(buffer@)->Some_0;
            let m = match t {
                Some(m) => m,
                None => Map::empty(),
            };
            assert(lists_table(data.raw_metadata@, m));
            lemma_entry_value_of_table(data.raw_metadata@, m, "ss_sd_model_name"@);
            lemma_sorted_listing(unsorted, data.tensors@, s);
        }
        Ok(data)
    }

    /// The record of a container file, with every field empty where none can
    /// be read. Never fails.
    pub fn build(buffer: &[u8]) -> (r: LoraData)
        ensures
            parsed_header(buffer@) is Some ==> describes(r, buffer@),
            parsed_header(buffer@) is None ==> is_blank(r),
    {
        match LoraData::from_buffer(buffer) {
            Ok(d) => d,
            Err(_) => LoraData::default(),
        }
    }
}

} // verus!
