//! The named collection of model weights.
use vstd::prelude::*;

use crate::error::{dims_text, push_dims, Result, TinyError};
use crate::text::{chars_of, compare_chars, decimal, lemma_seq_lt_order, push_decimal, push_str, seq_lt};

verus! {

/// Element storage of one weight tensor. `F32` holds IEEE-754 single
/// precision bit patterns and `F16` half precision bit patterns.
#[derive(Debug, Clone)]
pub enum WeightData {
    F32(Vec<u32>),
    F16(Vec<u16>),
    I8(Vec<i8>),
}

/// The mathematical contents of a [`WeightData`].
pub enum WeightValues {
    F32(Seq<u32>),
    F16(Seq<u16>),
    I8(Seq<i8>),
}

impl WeightValues {
    /// Number of stored elements.
    pub open spec fn len(self) -> nat {
        match self {
            WeightValues::F32(v) => v.len(),
            WeightValues::F16(v) => v.len(),
            WeightValues::I8(v) => v.len(),
        }
    }
}

impl View for WeightData {
    type V = WeightValues;

    open spec fn view(&self) -> WeightValues {
        match self {
            WeightData::F32(v) => WeightValues::F32(v@),
            WeightData::F16(v) => WeightValues::F16(v@),
            WeightData::I8(v) => WeightValues::I8(v@),
        }
    }
}

impl WeightData {
    /// Number of stored elements.
    pub fn len(&self) -> (n: usize)
        ensures
            n == self@.len(),
    {
        match self {
            WeightData::F32(v) => v.len(),
            WeightData::F16(v) => v.len(),
            WeightData::I8(v) => v.len(),
        }
    }
}

/// The mathematical contents of a [`WeightTensor`].
pub struct WeightView {
    pub shape: Seq<usize>,
    pub values: WeightValues,
}

/// A weight tensor: its shape and row-major element storage.
#[derive(Debug, Clone)]
pub struct WeightTensor {
    pub shape: Vec<usize>,
    pub data: WeightData,
}

impl View for WeightTensor {
    type V = WeightView;

    open spec fn view(&self) -> WeightView {
        WeightView { shape: self.shape@, values: self.data@ }
    }
}

/// Named weights by their views.
pub type WeightMap = Map<Seq<char>, WeightView>;

/// The number of elements of a tensor of shape `s`.
pub open spec fn shape_numel(s: Seq<usize>) -> int
    decreases s.len(),
{
    if s.len() == 0 {
        1
    } else {
        shape_numel(s.drop_last()) * s.last()
    }
}

/// Whether every prefix product of `s` fits in `usize`, which is when a
/// running checked multiplication over `s` succeeds.
pub open spec fn numel_fits(s: Seq<usize>) -> bool {
    forall|k: int| 0 <= k <= s.len() ==> #[trigger] shape_numel(s.take(k)) <= usize::MAX
}

/// Whether `name` is not empty and `shape` has dimensions, none of them zero.
pub open spec fn name_and_shape_ok(name: Seq<char>, shape: Seq<usize>) -> bool {
    &&& name.len() > 0
    &&& shape.len() > 0
    &&& forall|i: int| 0 <= i < shape.len() ==> #[trigger] shape[i] > 0
}

/// The message refusing an element count that overflows.
pub open spec fn overflow_text(shape: Seq<usize>) -> Seq<char> {
    "shape element count overflow: "@ + dims_text(shape)
}

/// The message refusing to store `w` under `name`, checked in order: name
/// and shape, element count overflow, element count, then a duplicate name.
/// An INT8 weight reports the last two with one message.
pub open spec fn insert_error_text(name: Seq<char>, w: WeightView) -> Seq<char> {
    if !name_and_shape_ok(name, w.shape) {
        match w.values {
            WeightValues::F32(_) => "invalid shape or name for weight "@ + name,
            WeightValues::F16(_) => "invalid shape or name for F16 weight "@ + name,
            WeightValues::I8(_) => "invalid or duplicate INT8 weight: "@ + name,
        }
    } else if !numel_fits(w.shape) {
        overflow_text(w.shape)
    } else if w.values is I8 {
        "invalid or duplicate INT8 weight: "@ + name
    } else if w.values.len() != shape_numel(w.shape) {
        "weight "@ + name + " has "@ + decimal(w.values.len()) + " values, but shape "@ + dims_text(w.shape)
            + " requires "@ + decimal(shape_numel(w.shape) as nat)
    } else {
        "duplicate weight: "@ + name
    }
}

/// Whether `name` and `w` may be stored in a [`ModelWeights`].
pub open spec fn valid_weight(name: Seq<char>, w: WeightView) -> bool {
    &&& name.len() > 0
    &&& w.shape.len() > 0
    &&& forall|i: int| 0 <= i < w.shape.len() ==> #[trigger] w.shape[i] > 0
    &&& w.values.len() == shape_numel(w.shape)
}

impl WeightTensor {
    /// The tensor's shape.
    pub fn shape(&self) -> (s: &[usize])
        ensures
            s@ == self.shape@,
    {
        self.shape.as_slice()
    }

    /// The F32 elements (as bit patterns) of an F32 tensor.
    pub fn data(&self) -> (d: &[u32])
        requires
            self.data is F32,
        ensures
            WeightValues::F32(d@) == self.data@,
    {
        match &self.data {
            WeightData::F32(v) => v.as_slice(),
            _ => {
                assert(false);
                unreached()
            },
        }
    }

    /// Splits an F32 tensor into its shape and element bit patterns.
    pub fn into_parts(self) -> (r: (Vec<usize>, Vec<u32>))
        requires
            self.data is F32,
        ensures
            r.0@ == self.shape@,
            WeightValues::F32(r.1@) == self.data@,
    {
        match self.data {
            WeightData::F32(v) => (self.shape, v),
            _ => {
                assert(false);
                unreached()
            },
        }
    }

    /// Splits the tensor into its shape and storage.
    pub fn into_storage_parts(self) -> (r: (Vec<usize>, WeightData))
        ensures
            r.0@ == self.shape@,
            r.1@ == self.data@,
    {
        (self.shape, self.data)
    }
}

/// The map that a sequence of named entries describes; later entries win.
pub open spec fn seq_to_map<V>(s: Seq<(Seq<char>, V)>) -> Map<Seq<char>, V>
    decreases s.len(),
{
    if s.len() == 0 {
        Map::empty()
    } else {
        seq_to_map(s.drop_last()).insert(s.last().0, s.last().1)
    }
}

/// Whether the names of `s` are strictly increasing.
pub open spec fn names_sorted<V>(s: Seq<(Seq<char>, V)>) -> bool {
    forall|i: int, j: int| 0 <= i < j < s.len() ==> seq_lt(#[trigger] s[i].0, #[trigger] s[j].0)
}

/// Whether no two entries of `s` share a name.
pub open spec fn names_distinct<V>(s: Seq<(Seq<char>, V)>) -> bool {
    forall|i: int, j: int| 0 <= i < s.len() && 0 <= j < s.len() && i != j ==> #[trigger] s[i].0 != #[trigger] s[j].0
}

pub proof fn lemma_sorted_distinct<V>(s: Seq<(Seq<char>, V)>)
    requires
        names_sorted(s),
    ensures
        names_distinct(s),
{
    assert forall|i: int, j: int| 0 <= i < s.len() && 0 <= j < s.len() && i != j implies #[trigger] s[i].0 != #[trigger] s[j].0 by {
        if i < j {
            lemma_seq_lt_order(s[i].0, s[j].0, s[i].0);
        } else {
            lemma_seq_lt_order(s[j].0, s[i].0, s[j].0);
        }
    }
}

/// The keys of `seq_to_map(s)` are exactly the names of `s`.
pub proof fn lemma_seq_to_map_dom<V>(s: Seq<(Seq<char>, V)>, k: Seq<char>)
    ensures
        seq_to_map(s).dom().contains(k) <==> exists|i: int| 0 <= i < s.len() && #[trigger] s[i].0 == k,
    decreases s.len(),
{
    if s.len() > 0 {
        lemma_seq_to_map_dom(s.drop_last(), k);
        if seq_to_map(s).dom().contains(k) && k != s.last().0 {
            let i = choose|i: int| 0 <= i < s.drop_last().len() && #[trigger] s.drop_last()[i].0 == k;
            assert(s[i].0 == k);
        }
        if exists|i: int| 0 <= i < s.len() && #[trigger] s[i].0 == k {
            let i = choose|i: int| 0 <= i < s.len() && #[trigger] s[i].0 == k;
            if i < s.len() - 1 {
                assert(s.drop_last()[i].0 == k);
            }
        }
    }
}

/// With distinct names, each entry's value is what the map holds for its name.
pub proof fn lemma_seq_to_map_value<V>(s: Seq<(Seq<char>, V)>, i: int)
    requires
        names_distinct(s),
        0 <= i < s.len(),
    ensures
        seq_to_map(s).dom().contains(s[i].0),
        seq_to_map(s)[s[i].0] == s[i].1,
    decreases s.len(),
{
    lemma_seq_to_map_dom(s, s[i].0);
    if i < s.len() - 1 {
        let t = s.drop_last();
        assert(names_distinct(t)) by {
            assert forall|a: int, b: int| 0 <= a < t.len() && 0 <= b < t.len() && a != b implies #[trigger] t[a].0 != #[trigger] t[b].0 by {
                assert(t[a] == s[a] && t[b] == s[b]);
            }
        }
        assert(t[i] == s[i]);
        lemma_seq_to_map_value(t, i);
        assert(s[i].0 != s[s.len() - 1].0);
    }
}

/// Inserting a new name into a duplicate-free entry sequence inserts it into the map.
pub proof fn lemma_seq_to_map_insert<V>(s: Seq<(Seq<char>, V)>, p: int, e: (Seq<char>, V))
    requires
        names_distinct(s),
        0 <= p <= s.len(),
        forall|i: int| 0 <= i < s.len() ==> #[trigger] s[i].0 != e.0,
    ensures
        names_distinct(s.insert(p, e)),
        seq_to_map(s.insert(p, e)) == seq_to_map(s).insert(e.0, e.1),
{
    let t = s.insert(p, e);
    assert forall|i: int, j: int| 0 <= i < t.len() && 0 <= j < t.len() && i != j implies #[trigger] t[i].0 != #[trigger] t[j].0 by {
        if i != p && j != p {
            let si = if i < p { i } else { i - 1 };
            let sj = if j < p { j } else { j - 1 };
            assert(t[i] == s[si] && t[j] == s[sj]);
        } else if i == p {
            let sj = if j < p { j } else { j - 1 };
            assert(t[j] == s[sj]);
        } else {
            let si = if i < p { i } else { i - 1 };
            assert(t[i] == s[si]);
        }
    }
    let m = seq_to_map(s).insert(e.0, e.1);
    assert forall|k: Seq<char>| #[trigger] seq_to_map(t).dom().contains(k) == m.dom().contains(k) by {
        lemma_seq_to_map_dom(s, k);
        lemma_seq_to_map_dom(t, k);
        if seq_to_map(t).dom().contains(k) {
            let i = choose|i: int| 0 <= i < t.len() && #[trigger] t[i].0 == k;
            if i < p {
                assert(t[i] == s[i]);
            } else if i > p {
                assert(t[i] == s[i - 1]);
            }
        }
        if seq_to_map(s).dom().contains(k) {
            let i = choose|i: int| 0 <= i < s.len() && #[trigger] s[i].0 == k;
            if i < p {
                assert(t[i] == s[i]);
            } else {
                assert(t[i + 1] == s[i]);
            }
        }
        assert(t[p] == e);
    }
    assert forall|k: Seq<char>| #[trigger] seq_to_map(t).dom().contains(k) implies seq_to_map(t)[k] == m[k] by {
        lemma_seq_to_map_dom(t, k);
        let i = choose|i: int| 0 <= i < t.len() && #[trigger] t[i].0 == k;
        lemma_seq_to_map_value(t, i);
        if i < p {
            assert(t[i] == s[i]);
            lemma_seq_to_map_value(s, i);
        } else if i > p {
            assert(t[i] == s[i - 1]);
            lemma_seq_to_map_value(s, i - 1);
        }
    }
    assert(seq_to_map(t) =~= m);
}

/// Removing an entry of a duplicate-free entry sequence removes its name from the map.
pub proof fn lemma_seq_to_map_remove<V>(s: Seq<(Seq<char>, V)>, p: int)
    requires
        names_distinct(s),
        0 <= p < s.len(),
    ensures
        names_distinct(s.remove(p)),
        seq_to_map(s.remove(p)) == seq_to_map(s).remove(s[p].0),
{
    let t = s.remove(p);
    assert forall|i: int, j: int| 0 <= i < t.len() && 0 <= j < t.len() && i != j implies #[trigger] t[i].0 != #[trigger] t[j].0 by {
        let si = if i < p { i } else { i + 1 };
        let sj = if j < p { j } else { j + 1 };
        assert(t[i] == s[si] && t[j] == s[sj]);
    }
    let m = seq_to_map(s).remove(s[p].0);
    assert forall|k: Seq<char>| #[trigger] seq_to_map(t).dom().contains(k) == m.dom().contains(k) by {
        lemma_seq_to_map_dom(s, k);
        lemma_seq_to_map_dom(t, k);
        if seq_to_map(t).dom().contains(k) {
            let i = choose|i: int| 0 <= i < t.len() && #[trigger] t[i].0 == k;
            let si = if i < p { i } else { i + 1 };
            assert(t[i] == s[si]);
        }
        if m.dom().contains(k) {
            let i = choose|i: int| 0 <= i < s.len() && #[trigger] s[i].0 == k;
            assert(i != p);
            if i < p {
                assert(t[i] == s[i]);
            } else {
                assert(t[i - 1] == s[i]);
            }
        }
    }
    assert forall|k: Seq<char>| #[trigger] seq_to_map(t).dom().contains(k) implies seq_to_map(t)[k] == m[k] by {
        lemma_seq_to_map_dom(t, k);
        let i = choose|i: int| 0 <= i < t.len() && #[trigger] t[i].0 == k;
        lemma_seq_to_map_value(t, i);
        let si = if i < p { i } else { i + 1 };
        assert(t[i] == s[si]);
        lemma_seq_to_map_value(s, si);
    }
    assert(seq_to_map(t) =~= m);
}

/// Checked product of the dimensions of `shape`.
pub fn checked_numel(shape: &[usize]) -> (r: Result<usize>)
    ensures
        r is Ok <==> numel_fits(shape@),
        r matches Ok(n) ==> n == shape_numel(shape@),
        r matches Err(e) ==> e matches TinyError::ModelFormat(m) && m@ == overflow_text(shape@),
{
    let mut n: usize = 1;
    let mut i: usize = 0;
    assert(shape@.take(0) =~= Seq::<usize>::empty());
    while i < shape.len()
        invariant
            0 <= i <= shape.len(),
            n == shape_numel(shape@.take(i as int)),
            forall|k: int| 0 <= k <= i ==> #[trigger] shape_numel(shape@.take(k)) <= usize::MAX,
        decreases shape.len() - i,
    {
        assert(shape@.take(i + 1).drop_last() =~= shape@.take(i as int));
        match n.checked_mul(shape[i]) {
            Some(m) => {
                n = m;
                i = i + 1;
            },
            None => {
                assert(shape_numel(shape@.take(i + 1)) > usize::MAX);
                let mut m = "shape element count overflow: ".to_string();
                let dims = vstd::slice::slice_to_vec(shape);
                push_dims(&mut m, &dims);
                return Err(TinyError::ModelFormat(m));
            },
        }
    }
    assert(shape@.take(i as int) =~= shape@);
    Ok(n)
}

/// The message refusing the name or shape of a weight of storage `data`.
fn invalid_weight_message(name: &str, data: &WeightData) -> (m: String)
    ensures
        m@ == match data@ {
            WeightValues::F32(_) => "invalid shape or name for weight "@ + name@,
            WeightValues::F16(_) => "invalid shape or name for F16 weight "@ + name@,
            WeightValues::I8(_) => "invalid or duplicate INT8 weight: "@ + name@,
        },
{
    let mut m = match data {
        WeightData::F32(_) => "invalid shape or name for weight ".to_string(),
        WeightData::F16(_) => "invalid shape or name for F16 weight ".to_string(),
        WeightData::I8(_) => "invalid or duplicate INT8 weight: ".to_string(),
    };
    push_str(&mut m, name);
    m
}

/// A named collection of weight tensors, kept in increasing name order.
#[derive(Debug)]
pub struct ModelWeights {
    pub(crate) entries: Vec<(String, WeightTensor)>,
}

impl ModelWeights {
    /// The entries, in stored order, by their views.
    pub(crate) open spec fn entry_seq(&self) -> Seq<(Seq<char>, WeightView)> {
        self.entries@.map_values(|e: (String, WeightTensor)| (e.0@, e.1@))
    }

    /// The collection's invariant: names strictly increase and every entry is valid.
    pub closed spec fn wf(&self) -> bool {
        self.wf_entries()
    }

    pub(crate) open spec fn wf_entries(&self) -> bool {
        &&& names_sorted(self.entry_seq())
        &&& forall|i: int| 0 <= i < self.entries@.len() ==> valid_weight(#[trigger] self.entry_seq()[i].0, self.entry_seq()[i].1)
    }
}

/// Inserting a name at its search position keeps the names sorted.
pub proof fn lemma_sorted_insert<V>(before: Seq<(Seq<char>, V)>, p: int, e: (Seq<char>, V))
    requires
        names_sorted(before),
        search_result(before, e.0, p, false),
    ensures
        names_sorted(before.insert(p, e)),
{
    let key = e.0;
    let t = before.insert(p, e);
    assert forall|a: int, b: int| 0 <= a < b < t.len() implies seq_lt(#[trigger] t[a].0, #[trigger] t[b].0) by {
        if a < p && b < p {
            assert(t[a] == before[a] && t[b] == before[b]);
        } else if a < p && b == p {
            assert(t[a] == before[a]);
        } else if a < p {
            assert(t[a] == before[a] && t[b] == before[b - 1]);
            lemma_seq_lt_order(before[a].0, key, before[p].0);
            lemma_seq_lt_order(before[a].0, before[p].0, before[b - 1].0);
        } else if a == p {
            assert(t[b] == before[b - 1]);
            if b - 1 > p {
                lemma_seq_lt_order(key, before[p].0, before[b - 1].0);
            }
        } else {
            assert(t[a] == before[a - 1] && t[b] == before[b - 1]);
        }
    }
}

/// Where `key` stands among the sorted names of `s`.
pub open spec fn search_result<V>(s: Seq<(Seq<char>, V)>, key: Seq<char>, p: int, found: bool) -> bool {
    &&& 0 <= p <= s.len()
    &&& forall|i: int| 0 <= i < p ==> seq_lt(#[trigger] s[i].0, key)
    &&& found ==> p < s.len() && s[p].0 == key
    &&& !found ==> p == s.len() || seq_lt(key, s[p].0)
}

/// In a sorted sequence, a search result decides membership of `key`.
pub proof fn lemma_search_membership<V>(s: Seq<(Seq<char>, V)>, key: Seq<char>, p: int, found: bool)
    requires
        names_sorted(s),
        search_result(s, key, p, found),
    ensures
        found <==> seq_to_map(s).dom().contains(key),
        !found ==> forall|i: int| 0 <= i < s.len() ==> #[trigger] s[i].0 != key,
{
    lemma_seq_to_map_dom(s, key);
    if !found {
        assert forall|i: int| 0 <= i < s.len() implies #[trigger] s[i].0 != key by {
            lemma_seq_lt_order(s[i].0, key, s[i].0);
            if i >= p {
                lemma_seq_lt_order(key, s[p].0, s[i].0);
                if i > p {
                    assert(seq_lt(s[p].0, s[i].0));
                }
                lemma_seq_lt_order(key, key, key);
            }
        }
    }
}

impl ModelWeights {
    /// Searches the sorted names for `key`.
    fn find(&self, key: &Vec<char>) -> (r: (usize, bool))
        ensures
            search_result(self.entry_seq(), key@, r.0 as int, r.1),
    {
        let mut i: usize = 0;
        while i < self.entries.len()
            invariant
                0 <= i <= self.entries@.len(),
                forall|j: int| 0 <= j < i ==> seq_lt(#[trigger] self.entry_seq()[j].0, key@),
            decreases self.entries.len() - i,
        {
            let name = chars_of(self.entries[i].0.as_str());
            let c = compare_chars(&name, key);
            assert(self.entry_seq()[i as int].0 == name@);
            if c == 0 {
                return (i, true);
            } else if c == 1 {
                return (i, false);
            }
            i = i + 1;
        }
        (i, false)
    }

    /// An empty collection.
    pub fn new() -> (w: Self)
        ensures
            w.wf(),
            w@ == Map::<Seq<char>, WeightView>::empty(),
    {
        let w = ModelWeights { entries: Vec::new() };
        assert(w.entry_seq() =~= Seq::<(Seq<char>, WeightView)>::empty());
        w
    }

    /// Number of stored tensors.
    pub fn len(&self) -> (n: usize)
        requires
            self.wf(),
        ensures
            n == self@.len(),
    {
        proof {
            self.lemma_len();
        }
        self.entries.len()
    }

    proof fn lemma_len(&self)
        requires
            self.wf(),
        ensures
            self@.len() == self.entries@.len(),
            self@.dom().finite(),
        decreases self.entries@.len(),
    {
        lemma_sorted_distinct(self.entry_seq());
        lemma_seq_to_map_len(self.entry_seq());
    }

    /// Whether no tensor is stored.
    pub fn is_empty(&self) -> (b: bool)
        requires
            self.wf(),
        ensures
            b == (self@.len() == 0),
    {
        self.len() == 0
    }

    /// Whether a tensor named `name` is stored.
    pub fn contains(&self, name: &str) -> (b: bool)
        requires
            self.wf(),
        ensures
            b == self@.dom().contains(name@),
    {
        let key = chars_of(name);
        let (p, found) = self.find(&key);
        proof {
            lemma_search_membership(self.entry_seq(), key@, p as int, found);
        }
        found
    }

    /// Whether some stored tensor holds INT8 elements.
    pub fn contains_i8(&self) -> (b: bool)
        requires
            self.wf(),
        ensures
            b == exists|k: Seq<char>| #[trigger] self@.dom().contains(k) && self@[k].values is I8,
    {
        proof {
            lemma_sorted_distinct(self.entry_seq());
        }
        let mut i: usize = 0;
        while i < self.entries.len()
            invariant
                0 <= i <= self.entries@.len(),
                names_distinct(self.entry_seq()),
                forall|j: int| 0 <= j < i ==> !(#[trigger] self.entry_seq()[j].1.values is I8),
            decreases self.entries.len() - i,
        {
            if let WeightData::I8(_) = &self.entries[i].1.data {
                proof {
                    lemma_seq_to_map_value(self.entry_seq(), i as int);
                }
                return true;
            }
            i = i + 1;
        }
        proof {
            assert forall|k: Seq<char>| #[trigger] self@.dom().contains(k) implies !(self@[k].values is I8) by {
                lemma_seq_to_map_dom(self.entry_seq(), k);
                let j = choose|j: int| 0 <= j < self.entry_seq().len() && #[trigger] self.entry_seq()[j].0 == k;
                lemma_seq_to_map_value(self.entry_seq(), j);
            }
        }
        false
    }

    /// Whether every stored tensor holds F32 elements.
    pub fn all_f32(&self) -> (b: bool)
        requires
            self.wf(),
        ensures
            b == forall|k: Seq<char>| #[trigger] self@.dom().contains(k) ==> self@[k].values is F32,
    {
        proof {
            lemma_sorted_distinct(self.entry_seq());
        }
        let mut i: usize = 0;
        while i < self.entries.len()
            invariant
                0 <= i <= self.entries@.len(),
                names_distinct(self.entry_seq()),
                forall|j: int| 0 <= j < i ==> (#[trigger] self.entry_seq()[j].1.values is F32),
            decreases self.entries.len() - i,
        {
            match &self.entries[i].1.data {
                WeightData::F32(_) => {},
                _ => {
                    proof {
                        lemma_seq_to_map_value(self.entry_seq(), i as int);
                    }
                    return false;
                },
            }
            i = i + 1;
        }
        proof {
            assert forall|k: Seq<char>| #[trigger] self@.dom().contains(k) implies self@[k].values is F32 by {
                lemma_seq_to_map_dom(self.entry_seq(), k);
                let j = choose|j: int| 0 <= j < self.entry_seq().len() && #[trigger] self.entry_seq()[j].0 == k;
                lemma_seq_to_map_value(self.entry_seq(), j);
            }
        }
        true
    }

    /// The names of the stored tensors, in increasing order.
    pub fn names(&self) -> (r: Vec<String>)
        ensures
            r@.len() == self.sorted_entries().len(),
            forall|i: int| 0 <= i < r@.len() ==> (#[trigger] r@[i])@ == self.sorted_entries()[i].0,
    {
        let mut out: Vec<String> = Vec::new();
        let mut i: usize = 0;
        while i < self.entries.len()
            invariant
                0 <= i <= self.entries@.len(),
                out@.len() == i,
                forall|j: int| 0 <= j < i ==> (#[trigger] out@[j])@ == self.entry_seq()[j].0,
            decreases self.entries.len() - i,
        {
            out.push(self.entries[i].0.clone());
            i = i + 1;
        }
        out
    }

    /// The tensor named `name`.
    pub fn get(&self, name: &str) -> (r: Result<&WeightTensor>)
        requires
            self.wf(),
        ensures
            r is Ok <==> self@.dom().contains(name@),
            r matches Ok(t) ==> t@ == self@[name@],
            r matches Err(e) ==> e matches TinyError::MissingWeight(m) && m@ == name@,
    {
        let key = chars_of(name);
        let (p, found) = self.find(&key);
        proof {
            lemma_search_membership(self.entry_seq(), key@, p as int, found);
            lemma_sorted_distinct(self.entry_seq());
        }
        if found {
            proof {
                lemma_seq_to_map_value(self.entry_seq(), p as int);
            }
            Ok(&self.entries[p].1)
        } else {
            Err(TinyError::MissingWeight(name.to_string()))
        }
    }

    /// Removes and returns the tensor named `name`.
    pub fn take(&mut self, name: &str) -> (r: Result<WeightTensor>)
        requires
            old(self).wf(),
        ensures
            final(self).wf(),
            r is Ok <==> old(self)@.dom().contains(name@),
            r matches Ok(t) ==> t@ == old(self)@[name@] && final(self)@ == old(self)@.remove(name@),
            r matches Err(e) ==> final(self)@ == old(self)@ && (e matches TinyError::MissingWeight(m)
                && m@ == name@),
    {
        let key = chars_of(name);
        let (p, found) = self.find(&key);
        proof {
            lemma_search_membership(self.entry_seq(), key@, p as int, found);
            lemma_sorted_distinct(self.entry_seq());
        }
        if found {
            proof {
                lemma_seq_to_map_value(self.entry_seq(), p as int);
                lemma_seq_to_map_remove(self.entry_seq(), p as int);
            }
            let ghost before = self.entry_seq();
            let (_, t) = self.entries.remove(p);
            assert(self.entry_seq() =~= before.remove(p as int));
            assert(names_sorted(self.entry_seq())) by {
                assert forall|i: int, j: int| 0 <= i < j < self.entry_seq().len() implies seq_lt(#[trigger] self.entry_seq()[i].0, #[trigger] self.entry_seq()[j].0) by {
                    let si = if i < p { i } else { i + 1 };
                    let sj = if j < p { j } else { j + 1 };
                    assert(self.entry_seq()[i] == before[si]);
                    assert(self.entry_seq()[j] == before[sj]);
                }
            }
            assert forall|i: int| 0 <= i < self.entries@.len() implies valid_weight(#[trigger] self.entry_seq()[i].0, self.entry_seq()[i].1) by {
                let si = if i < p { i } else { i + 1 };
                assert(self.entry_seq()[i] == before[si]);
            }
            Ok(t)
        } else {
            Err(TinyError::MissingWeight(name.to_string()))
        }
    }

    /// Stores `data` under `name` with the given shape, checking the shape and
    /// that the name is new.
    pub(crate) fn insert_data(&mut self, name: &str, shape: &[usize], data: WeightData) -> (r: Result<()>)
        requires
            old(self).wf(),
        ensures
            final(self).wf(),
            r is Ok <==> valid_weight(name@, WeightView { shape: shape@, values: data@ })
                && !old(self)@.dom().contains(name@),
            r is Ok ==> final(self)@ == old(self)@.insert(
                name@,
                WeightView { shape: shape@, values: data@ },
            ),
            r matches Err(e) ==> e matches TinyError::ModelFormat(m) && m@ == insert_error_text(
                name@,
                WeightView { shape: shape@, values: data@ },
            ) && final(self)@ == old(self)@,
    {
        let ghost view = WeightView { shape: shape@, values: data@ };
        let key = chars_of(name);
        let data_len = data.len();
        if key.len() == 0 || shape.len() == 0 {
            return Err(TinyError::ModelFormat(invalid_weight_message(name, &data)));
        }
        let mut i: usize = 0;
        while i < shape.len()
            invariant
                0 <= i <= shape.len(),
                self.wf(),
                self@ == old(self)@,
                forall|j: int| 0 <= j < i ==> #[trigger] shape@[j] > 0,
            decreases shape.len() - i,
        {
            if shape[i] == 0 {
                return Err(TinyError::ModelFormat(invalid_weight_message(name, &data)));
            }
            i = i + 1;
        }
        let numel = match checked_numel(shape) {
            Ok(n) => n,
            Err(e) => {
                proof {
                    let k = choose|k: int| 0 <= k <= shape@.len() && !(#[trigger] shape_numel(shape@.take(k)) <= usize::MAX);
                    lemma_numel_prefix(shape@, k);
                }
                return Err(e);
            },
        };
        let is_i8 = match &data {
            WeightData::I8(_) => true,
            _ => false,
        };
        if data_len != numel {
            if is_i8 {
                return Err(TinyError::ModelFormat(invalid_weight_message(name, &data)));
            }
            let mut m = "weight ".to_string();
            push_str(&mut m, name);
            push_str(&mut m, " has ");
            push_decimal(&mut m, data_len);
            push_str(&mut m, " values, but shape ");
            let dims = vstd::slice::slice_to_vec(shape);
            push_dims(&mut m, &dims);
            push_str(&mut m, " requires ");
            push_decimal(&mut m, numel);
            return Err(TinyError::ModelFormat(m));
        }
        let (p, found) = self.find(&key);
        proof {
            lemma_search_membership(self.entry_seq(), key@, p as int, found);
            lemma_sorted_distinct(self.entry_seq());
        }
        if found {
            if is_i8 {
                return Err(TinyError::ModelFormat(invalid_weight_message(name, &data)));
            }
            let mut m = "duplicate weight: ".to_string();
            push_str(&mut m, name);
            return Err(TinyError::ModelFormat(m));
        }
        let ghost before = self.entry_seq();
        let tensor = WeightTensor { shape: vstd::slice::slice_to_vec(shape), data };
        let owned = name.to_string();
        proof {
            lemma_seq_to_map_insert(before, p as int, (key@, view));
        }
        self.entries.insert(p, (owned, tensor));
        assert(self.entry_seq() =~= before.insert(p as int, (key@, view)));
        proof {
            lemma_sorted_insert(before, p as int, (key@, view));
        }
        assert forall|j: int| 0 <= j < self.entries@.len() implies valid_weight(#[trigger] self.entry_seq()[j].0, self.entry_seq()[j].1) by {
            if j < p {
                assert(self.entry_seq()[j] == before[j]);
            } else if j > p {
                assert(self.entry_seq()[j] == before[j - 1]);
            }
        }
        Ok(())
    }

    /// Stores an F32 tensor (elements given as bit patterns) under `name`.
    pub fn insert_f32(&mut self, name: &str, shape: &[usize], data: Vec<u32>) -> (r: Result<()>)
        requires
            old(self).wf(),
        ensures
            final(self).wf(),
            r is Ok <==> valid_weight(name@, WeightView { shape: shape@, values: WeightValues::F32(data@) })
                && !old(self)@.dom().contains(name@),
            r is Ok ==> final(self)@ == old(self)@.insert(
                name@,
                WeightView { shape: shape@, values: WeightValues::F32(data@) },
            ),
            r matches Err(e) ==> e matches TinyError::ModelFormat(m) && m@ == insert_error_text(
                name@,
                WeightView { shape: shape@, values: WeightValues::F32(data@) },
            ) && final(self)@ == old(self)@,
    {
        self.insert_data(name, shape, WeightData::F32(data))
    }

    /// Stores an F16 tensor (elements given as bit patterns) under `name`.
    pub fn insert_f16(&mut self, name: &str, shape: &[usize], data: Vec<u16>) -> (r: Result<()>)
        requires
            old(self).wf(),
        ensures
            final(self).wf(),
            r is Ok <==> valid_weight(name@, WeightView { shape: shape@, values: WeightValues::F16(data@) })
                && !old(self)@.dom().contains(name@),
            r is Ok ==> final(self)@ == old(self)@.insert(
                name@,
                WeightView { shape: shape@, values: WeightValues::F16(data@) },
            ),
            r matches Err(e) ==> e matches TinyError::ModelFormat(m) && m@ == insert_error_text(
                name@,
                WeightView { shape: shape@, values: WeightValues::F16(data@) },
            ) && final(self)@ == old(self)@,
    {
        self.insert_data(name, shape, WeightData::F16(data))
    }

    /// Stores an INT8 tensor under `name`.
    pub fn insert_i8(&mut self, name: &str, shape: &[usize], data: Vec<i8>) -> (r: Result<()>)
        requires
            old(self).wf(),
        ensures
            final(self).wf(),
            r is Ok <==> valid_weight(name@, WeightView { shape: shape@, values: WeightValues::I8(data@) })
                && !old(self)@.dom().contains(name@),
            r is Ok ==> final(self)@ == old(self)@.insert(
                name@,
                WeightView { shape: shape@, values: WeightValues::I8(data@) },
            ),
            r matches Err(e) ==> e matches TinyError::ModelFormat(m) && m@ == insert_error_text(
                name@,
                WeightView { shape: shape@, values: WeightValues::I8(data@) },
            ) && final(self)@ == old(self)@,
    {
        self.insert_data(name, shape, WeightData::I8(data))
    }
}

/// With no zero dimension, every prefix product is at most the full product.
pub proof fn lemma_numel_prefix(s: Seq<usize>, k: int)
    requires
        0 <= k <= s.len(),
        forall|i: int| 0 <= i < s.len() ==> #[trigger] s[i] > 0,
    ensures
        1 <= shape_numel(s.take(k)) <= shape_numel(s),
    decreases s.len(),
{
    if s.len() > 0 {
        let t = s.drop_last();
        if k == s.len() {
            assert(s.take(k) =~= s);
            assert(t.take(t.len() as int) =~= t);
            lemma_numel_prefix(t, t.len() as int);
        } else {
            assert(s.take(k) =~= t.take(k));
            lemma_numel_prefix(t, k);
        }
        assert(shape_numel(t) >= 1);
        assert(shape_numel(s) == shape_numel(t) * s.last());
        assert(shape_numel(t) * s.last() >= shape_numel(t)) by (nonlinear_arith)
            requires
                shape_numel(t) >= 1,
                s.last() >= 1,
        ;
    } else {
        assert(s.take(k) =~= s);
    }
}

/// With distinct names, the map has one key per entry.
pub proof fn lemma_seq_to_map_len<V>(s: Seq<(Seq<char>, V)>)
    requires
        names_distinct(s),
    ensures
        seq_to_map(s).dom().finite(),
        seq_to_map(s).len() == s.len(),
    decreases s.len(),
{
    if s.len() > 0 {
        let t = s.drop_last();
        assert(names_distinct(t)) by {
            assert forall|a: int, b: int| 0 <= a < t.len() && 0 <= b < t.len() && a != b implies #[trigger] t[a].0 != #[trigger] t[b].0 by {
                assert(t[a] == s[a] && t[b] == s[b]);
            }
        }
        lemma_seq_to_map_len(t);
        lemma_seq_to_map_dom(t, s.last().0);
        if seq_to_map(t).dom().contains(s.last().0) {
            let i = choose|i: int| 0 <= i < t.len() && #[trigger] t[i].0 == s.last().0;
            assert(s[i].0 == s[s.len() - 1].0);
        }
    }
}

impl ModelWeights {
    /// The stored entries, in increasing name order.
    pub closed spec fn sorted_entries(&self) -> Seq<(Seq<char>, WeightView)> {
        self.entry_seq()
    }

    pub(crate) proof fn lemma_sorted_entries_def(&self)
        ensures
            self.sorted_entries() == self.entry_seq(),
    {
    }

    /// The sorted entries describe the collection: names strictly increase,
    /// every entry is valid, and together they are the map view.
    pub proof fn lemma_sorted_entries(&self)
        requires
            self.wf(),
        ensures
            names_sorted(self.sorted_entries()),
            names_distinct(self.sorted_entries()),
            forall|i: int| 0 <= i < self.sorted_entries().len() ==> valid_weight(#[trigger] self.sorted_entries()[i].0, self.sorted_entries()[i].1),
            seq_to_map(self.sorted_entries()) == self@,
    {
        lemma_sorted_distinct(self.entry_seq());
    }
}

impl ModelWeights {
    /// Every stored tensor is valid under its name.
    pub proof fn lemma_valid_entries(&self)
        requires
            self.wf(),
        ensures
            forall|k: Seq<char>| #[trigger] self@.dom().contains(k) ==> valid_weight(k, self@[k]),
    {
        lemma_sorted_distinct(self.entry_seq());
        assert forall|k: Seq<char>| #[trigger] self@.dom().contains(k) implies valid_weight(k, self@[k]) by {
            lemma_seq_to_map_dom(self.entry_seq(), k);
            let j = choose|j: int| 0 <= j < self.entry_seq().len() && #[trigger] self.entry_seq()[j].0 == k;
            lemma_seq_to_map_value(self.entry_seq(), j);
        }
    }
}

impl View for ModelWeights {
    type V = Map<Seq<char>, WeightView>;

    closed spec fn view(&self) -> Map<Seq<char>, WeightView> {
        seq_to_map(self.entry_seq())
    }
}

} // verus!
