//! The header map: a case-insensitive association of header names to values
//! with last-writer-wins semantics, and its serialization into wire form.

use vstd::prelude::*;
use vstd::string::StringSliceAdditionalSpecFns;

use crate::codec::{chars_bytes, crlf_bytes, lower, CR, LF};
use crate::split::{delim_at, spec_split_multi_byte, split_mb_from};

verus! {

/// The ASCII-case-insensitive image of a byte sequence.
pub open spec fn lower_seq(s: Seq<u8>) -> Seq<u8> {
    s.map_values(|b: u8| lower(b))
}

/// Two names are equivalent when their UTF-8 bytes agree after ASCII
/// lowercasing.
pub open spec fn name_eq(a: Seq<char>, b: Seq<char>) -> bool {
    lower_seq(chars_bytes(a)) == lower_seq(chars_bytes(b))
}

/// One header entry at the specification level: name and value.
pub type SpecEntry = (Seq<char>, Seq<char>);

/// The first index of `m` whose name is equivalent to `k`.
pub open spec fn find_key(m: Seq<SpecEntry>, k: Seq<char>) -> Option<int>
    decreases m.len()
{
    if m.len() == 0 {
        None
    } else if name_eq(m[0].0, k) {
        Some(0)
    } else {
        match find_key(m.drop_first(), k) {
            Some(i) => Some(i + 1),
            None => None,
        }
    }
}

/// The value stored under a name, if any.
pub open spec fn spec_get(m: Seq<SpecEntry>, k: Seq<char>) -> Option<Seq<char>> {
    match find_key(m, k) {
        Some(i) => Some(m[i].1),
        None => None,
    }
}

/// The effect of one store: replace the first entry holding an equivalent
/// name, or append a fresh one.
pub open spec fn insert_entry(m: Seq<SpecEntry>, k: Seq<char>, v: Seq<char>) -> Seq<SpecEntry> {
    match find_key(m, k) {
        Some(i) => m.update(i, (k, v)),
        None => m.push((k, v)),
    }
}

/// No two entries carry equivalent names.
pub open spec fn map_wf(m: Seq<SpecEntry>) -> bool {
    forall|i: int, j: int| 0 <= i < j < m.len() ==> !name_eq(#[trigger] m[i].0, #[trigger] m[j].0)
}

/// Characterization of `find_key`: the returned index holds the first
/// equivalent name, and absence means no entry matches.
pub proof fn lemma_find_key_char(m: Seq<SpecEntry>, k: Seq<char>)
    ensures
        match find_key(m, k) {
            Some(i) => 0 <= i < m.len() && name_eq(m[i].0, k) && forall|j: int|
                0 <= j < i ==> !name_eq(#[trigger] m[j].0, k),
            None => forall|j: int| 0 <= j < m.len() ==> !name_eq(#[trigger] m[j].0, k),
        },
    decreases m.len(),
{
    if m.len() > 0 && !name_eq(m[0].0, k) {
        let md = m.drop_first();
        lemma_find_key_char(md, k);
        match find_key(md, k) {
            Some(i) => {
                assert(md[i] == m[i + 1]);
                assert forall|j: int| 0 <= j < i + 1 implies !name_eq(#[trigger] m[j].0, k) by {
                    if j > 0 {
                        assert(md[j - 1] == m[j]);
                        assert(!name_eq(md[j - 1].0, k));
                    }
                }
            },
            None => {
                assert forall|j: int| 0 <= j < m.len() implies !name_eq(#[trigger] m[j].0, k) by {
                    if j > 0 {
                        assert(md[j - 1] == m[j]);
                        assert(!name_eq(md[j - 1].0, k));
                    }
                }
            },
        }
    }
}

/// A case-insensitive map from header names to header values, keeping one
/// entry per name; a later writer replaces the value stored under an
/// equivalent name.
pub struct HeaderMap {
    entries: Vec<(String, String)>,
}

impl View for HeaderMap {
    type V = Seq<SpecEntry>;

    closed spec fn view(&self) -> Seq<SpecEntry> {
        Seq::new(self.entries@.len(), |i: int| (self.entries@[i].0@, self.entries@[i].1@))
    }
}

impl HeaderMap {
    /// Entries carry pairwise non-equivalent names.
    pub open spec fn wf(&self) -> bool {
        map_wf(self@)
    }

    /// An empty map.
    pub fn new() -> (r: HeaderMap)
        ensures
            r@ == Seq::<SpecEntry>::empty(),
            r.wf(),
    {
        let r = HeaderMap { entries: Vec::new() };
        proof {
            assert(r@ =~= Seq::<SpecEntry>::empty());
        }
        r
    }

    /// The number of entries held.
    pub fn len(&self) -> (r: usize)
        ensures
            r == self@.len(),
    {
        self.entries.len()
    }

    /// The name and value at position `i`.
    pub fn entry_at(&self, i: usize) -> (r: (String, String))
        requires
            i < self@.len(),
        ensures
            r.0@ == self@[i as int].0,
            r.1@ == self@[i as int].1,
    {
        let pair: &(String, String) = &self.entries[i];
        (pair.0.clone(), pair.1.clone())
    }

    /// Stores `value` under `key`: the first entry with an equivalent name is
    /// replaced in place, and a fresh name is appended.
    pub fn insert(&mut self, key: String, value: String)
        requires
            old(self).wf(),
        ensures
            final(self).wf(),
            final(self)@ == insert_entry(old(self)@, key@, value@),
            spec_get(final(self)@, key@) == Some(value@),
            forall|k: Seq<char>| !name_eq(k, key@) ==> spec_get(final(self)@, k) == spec_get(
                old(self)@,
                k,
            ),
    {
        let ghost m0 = old(self)@;
        proof {
            lemma_find_key_char(m0, key@);
        }
        let n: usize = self.entries.len();
        let mut i: usize = 0;
        while i < n
            invariant
                m0 == old(self)@,
                m0 == self@,
                map_wf(m0),
                n == self@.len(),
                0 <= i <= n,
                forall|j: int| 0 <= j < i ==> !name_eq(#[trigger] m0[j].0, key@),
            decreases n - i,
        {
            let same: bool = names_equivalent(self.entries[i].0.as_str(), key.as_str());
            if same {
                self.entries.set(i, (key, value));
                proof {
                    assert(self@ =~= m0.update(i as int, (key@, value@)));
                    assert(find_key(m0, key@) == Some(i as int)) by {
                        lemma_find_key_char(m0, key@);
                        lemma_find_key_first(m0, key@, i as int);
                    }
                    lemma_update_preserves(m0, i as int, key@, value@);
                }
                return ;
            }
            i = i + 1;
        }
        self.entries.push((key, value));
        proof {
            assert(self@ =~= m0.push((key@, value@)));
            assert(find_key(m0, key@) is None) by {
                lemma_find_key_char(m0, key@);
            }
            lemma_push_preserves(m0, key@, value@);
        }
    }

    /// The value stored under a name equivalent to `key`, if any.
    pub fn get(&self, key: &str) -> (r: Option<String>)
        ensures
            match spec_get(self@, key@) {
                Some(v) => match r {
                    Some(s) => s@ == v,
                    None => false,
                },
                None => r is None,
            },
    {
        let n: usize = self.entries.len();
        let mut i: usize = 0;
        while i < n
            invariant
                n == self@.len(),
                0 <= i <= n,
                forall|j: int| 0 <= j < i ==> !name_eq(#[trigger] self@[j].0, key@),
            decreases n - i,
        {
            let same: bool = names_equivalent(self.entries[i].0.as_str(), key);
            if same {
                proof {
                    lemma_find_key_char(self@, key@);
                    lemma_find_key_first(self@, key@, i as int);
                }
                return Some(self.entries[i].1.clone());
            }
            i = i + 1;
        }
        proof {
            lemma_find_key_char(self@, key@);
        }
        None
    }

    /// Whether some entry's name is equivalent to `key`.
    pub fn contains_key(&self, key: &str) -> (r: bool)
        ensures
            r == (spec_get(self@, key@) is Some),
    {
        let got: Option<String> = self.get(key);
        match got {
            Some(_) => true,
            None => false,
        }
    }

    /// Removes the entry whose name is equivalent to `key`, if one is held.
    pub fn remove(&mut self, key: &str)
        requires
            old(self).wf(),
        ensures
            final(self).wf(),
            final(self)@ == (match find_key(old(self)@, key@) {
                Some(i) => old(self)@.remove(i),
                None => old(self)@,
            }),
            spec_get(final(self)@, key@) is None,
            forall|k: Seq<char>| !name_eq(k, key@) ==> spec_get(final(self)@, k) == spec_get(
                old(self)@,
                k,
            ),
    {
        let ghost m0 = old(self)@;
        let n: usize = self.entries.len();
        let mut i: usize = 0;
        while i < n
            invariant
                m0 == old(self)@,
                m0 == self@,
                map_wf(m0),
                n == self@.len(),
                0 <= i <= n,
                forall|j: int| 0 <= j < i ==> !name_eq(#[trigger] m0[j].0, key@),
            decreases n - i,
        {
            let same: bool = names_equivalent(self.entries[i].0.as_str(), key);
            if same {
                self.entries.remove(i);
                proof {
                    assert(self@ =~~= m0.remove(i as int));
                    lemma_find_key_char(m0, key@);
                    lemma_find_key_first(m0, key@, i as int);
                    lemma_remove_preserves(m0, i as int, key@);
                }
                return ;
            }
            i = i + 1;
        }
        proof {
            lemma_find_key_char(m0, key@);
        }
    }

    /// Writes every entry of `other` into `self`, in order: afterwards every
    /// name of `other` holds `other`'s value, every other name is untouched,
    /// and each name still appears at most once.
    pub fn merge(&mut self, other: &HeaderMap)
        requires
            old(self).wf(),
            other.wf(),
        ensures
            final(self).wf(),
            forall|k: Seq<char>| spec_get(other@, k) is Some ==> spec_get(final(self)@, k)
                == spec_get(other@, k),
            forall|k: Seq<char>| spec_get(other@, k) is None ==> spec_get(final(self)@, k)
                == spec_get(old(self)@, k),
    {
        let ghost m0 = old(self)@;
        let ghost om = other@;
        let n: usize = other.len();
        let mut t: usize = 0;
        while t < n
            invariant
                m0 == old(self)@,
                om == other@,
                n == om.len(),
                other.wf(),
                0 <= t <= n,
                self.wf(),
                forall|k: Seq<char>| spec_get(om.take(t as int), k) is Some ==> spec_get(
                    self@,
                    k,
                ) == spec_get(om.take(t as int), k),
                forall|k: Seq<char>| spec_get(om.take(t as int), k) is None ==> spec_get(
                    self@,
                    k,
                ) == spec_get(m0, k),
            decreases n - t,
        {
            let ghost before = self@;
            let pair: (String, String) = other.entry_at(t);
            let ghost kk = pair.0@;
            let ghost vv = pair.1@;
            self.insert(pair.0, pair.1);
            proof {
                lemma_take_push(om, t as int);
                lemma_get_after_step(om, t as int, m0, before, self@);
            }
            t = t + 1;
        }
        proof {
            assert(om.take(n as int) =~= om);
        }
    }
}

/// The wire form of a header list: `Name: Value CRLF` for each entry, in
/// order.
pub open spec fn wire_of(m: Seq<SpecEntry>) -> Seq<u8>
    decreases m.len()
{
    if m.len() == 0 {
        Seq::empty()
    } else {
        wire_of(m.drop_last()) + chars_bytes(m.last().0) + seq![58u8, 32u8] + chars_bytes(
            m.last().1,
        ) + crlf_bytes()
    }
}

impl Clone for HeaderMap {
    /// An entry-for-entry copy.
    fn clone(&self) -> (r: Self)
        ensures
            r@ == self@,
    {
        let n: usize = self.entries.len();
        let mut entries: Vec<(String, String)> = Vec::new();
        let mut i: usize = 0;
        while i < n
            invariant
                n == self@.len(),
                n == self.entries@.len(),
                entries@.len() == i,
                0 <= i <= n,
                forall|j: int| 0 <= j < i ==> (#[trigger] entries@[j]).0@ == self@[j].0
                    && entries@[j].1@ == self@[j].1,
            decreases n - i,
        {
            let pair: &(String, String) = &self.entries[i];
            entries.push((pair.0.clone(), pair.1.clone()));
            i = i + 1;
        }
        let r = HeaderMap { entries };
        proof {
            assert(r@ =~~= self@);
        }
        r
    }
}

impl HeaderMap {
    /// Serializes the entries into `Name: Value CRLF` lines, in order.
    pub fn to_wire_bytes(&self) -> (r: Vec<u8>)
        ensures
            r@ == wire_of(self@),
    {
        let n: usize = self.entries.len();
        let mut out: Vec<u8> = Vec::new();
        let mut i: usize = 0;
        while i < n
            invariant
                n == self@.len(),
                n == self.entries@.len(),
                0 <= i <= n,
                out@ == wire_of(self@.take(i as int)),
            decreases n - i,
        {
            let ghost before = out@;
            let pair: &(String, String) = &self.entries[i];
            out.extend_from_slice(pair.0.as_str().as_bytes());
            out.push(58);
            out.push(32);
            out.extend_from_slice(pair.1.as_str().as_bytes());
            out.push(CR);
            out.push(LF);
            proof {
                let t1 = self@.take(i + 1);
                assert(t1.drop_last() =~= self@.take(i as int));
                assert(t1.last() == self@[i as int]);
                assert(out@ =~= wire_of(t1));
            }
            i = i + 1;
        }
        proof {
            assert(self@.take(n as int) =~= self@);
        }
        out
    }
}

/// Replacing the entry that holds a name keeps well-formedness and acts as
/// last-writer-wins on lookups.
proof fn lemma_update_preserves(m: Seq<SpecEntry>, i: int, k: Seq<char>, v: Seq<char>)
    requires
        map_wf(m),
        0 <= i < m.len(),
        find_key(m, k) == Some(i),
        name_eq(m[i].0, k),
    ensures
        map_wf(m.update(i, (k, v))),
        spec_get(m.update(i, (k, v)), k) == Some(v),
        forall|k2: Seq<char>| !name_eq(k2, k) ==> spec_get(m.update(i, (k, v)), k2) == spec_get(
            m,
            k2,
        ),
{
    let m2 = m.update(i, (k, v));
    lemma_name_eq_equiv();
    assert forall|a: int, b: int| 0 <= a < b < m2.len() implies !name_eq(
        #[trigger] m2[a].0,
        #[trigger] m2[b].0,
    ) by {
        if a != i && b != i {
            assert(!name_eq(m[a].0, m[b].0));
        }
    }
    lemma_find_key_char(m2, k);
    lemma_find_key_char(m, k);
    lemma_find_key_first(m2, k, i);
    assert forall|k2: Seq<char>| !name_eq(k2, k) implies spec_get(m2, k2) == spec_get(m, k2) by {
        lemma_find_key_char(m, k2);
        lemma_find_key_char(m2, k2);
        match find_key(m, k2) {
            Some(j) => {
                assert(j != i);
                lemma_find_key_first(m2, k2, j);
            },
            None => {
                if find_key(m2, k2) is Some {
                    let j = find_key(m2, k2)->Some_0;
                    assert(name_eq(m2[j].0, k2));
                    assert(j == i || m2[j] == m[j]);
                }
            },
        }
    }
}

/// Appending a fresh name keeps well-formedness and acts as last-writer-wins
/// on lookups.
proof fn lemma_push_preserves(m: Seq<SpecEntry>, k: Seq<char>, v: Seq<char>)
    requires
        map_wf(m),
        find_key(m, k) is None,
    ensures
        map_wf(m.push((k, v))),
        spec_get(m.push((k, v)), k) == Some(v),
        forall|k2: Seq<char>| !name_eq(k2, k) ==> spec_get(m.push((k, v)), k2) == spec_get(m, k2),
{
    let m2 = m.push((k, v));
    lemma_name_eq_equiv();
    lemma_find_key_char(m, k);
    assert forall|a: int, b: int| 0 <= a < b < m2.len() implies !name_eq(
        #[trigger] m2[a].0,
        #[trigger] m2[b].0,
    ) by {
        if b < m.len() {
            assert(!name_eq(m[a].0, m[b].0));
        } else {
            assert(m2[b].0 == k);
            assert(!name_eq(m[a].0, k));
        }
    }
    lemma_find_key_char(m2, k);
    lemma_find_key_first(m2, k, m.len() as int);
    assert forall|k2: Seq<char>| !name_eq(k2, k) implies spec_get(m2, k2) == spec_get(m, k2) by {
        lemma_find_key_char(m, k2);
        lemma_find_key_char(m2, k2);
        match find_key(m, k2) {
            Some(j) => {
                lemma_find_key_first(m2, k2, j);
            },
            None => {
                if find_key(m2, k2) is Some {
                    let j = find_key(m2, k2)->Some_0;
                    assert(name_eq(m2[j].0, k2));
                    assert(j < m.len() || m2[j].0 == k);
                }
            },
        }
    }
}

/// Lookup respects name equivalence: equivalent names resolve to the same
/// entry.
proof fn lemma_get_respects_eq(m: Seq<SpecEntry>, k: Seq<char>, k2: Seq<char>)
    requires
        name_eq(k, k2),
    ensures
        find_key(m, k) == find_key(m, k2),
        spec_get(m, k) == spec_get(m, k2),
    decreases m.len(),
{
    lemma_name_eq_equiv();
    if m.len() > 0 && !name_eq(m[0].0, k) {
        lemma_get_respects_eq(m.drop_first(), k, k2);
    }
}

/// Removing the entry that holds a name keeps well-formedness, makes the
/// name absent, and leaves every other name's lookup unchanged.
proof fn lemma_remove_preserves(m: Seq<SpecEntry>, i: int, k: Seq<char>)
    requires
        map_wf(m),
        0 <= i < m.len(),
        find_key(m, k) == Some(i),
        name_eq(m[i].0, k),
    ensures
        map_wf(m.remove(i)),
        spec_get(m.remove(i), k) is None,
        forall|k2: Seq<char>| !name_eq(k2, k) ==> spec_get(m.remove(i), k2) == spec_get(m, k2),
{
    lemma_name_eq_equiv();
    lemma_find_key_char(m, k);
    let m2 = m.remove(i);
    assert forall|a: int, b: int| 0 <= a < b < m2.len() implies !name_eq(
        #[trigger] m2[a].0,
        #[trigger] m2[b].0,
    ) by {
        let a0 = if a < i { a } else { a + 1 };
        let b0 = if b < i { b } else { b + 1 };
        assert(m2[a] == m[a0] && m2[b] == m[b0]);
        assert(!name_eq(m[a0].0, m[b0].0));
    }
    lemma_find_key_char(m2, k);
    if find_key(m2, k) is Some {
        let j = find_key(m2, k)->Some_0;
        let j0 = if j < i { j } else { j + 1 };
        assert(m2[j] == m[j0]);
        assert(name_eq(m[j0].0, m[i].0));
    }
    assert forall|k2: Seq<char>| !name_eq(k2, k) implies spec_get(m2, k2) == spec_get(m, k2) by {
        lemma_find_key_char(m, k2);
        lemma_find_key_char(m2, k2);
        match find_key(m, k2) {
            Some(j) => {
                assert(j != i);
                let j2 = if j < i { j } else { j - 1 };
                assert(m2[j2] == m[j]);
                assert forall|l: int| 0 <= l < j2 implies !name_eq(#[trigger] m2[l].0, k2) by {
                    let l0 = if l < i { l } else { l + 1 };
                    assert(m2[l] == m[l0]);
                }
                lemma_find_key_first(m2, k2, j2);
            },
            None => {
                if find_key(m2, k2) is Some {
                    let j = find_key(m2, k2)->Some_0;
                    let j0 = if j < i { j } else { j + 1 };
                    assert(m2[j] == m[j0]);
                    assert(name_eq(m[j0].0, k2));
                }
            },
        }
    }
}

/// Name equivalence is reflexive, symmetric and transitive.
proof fn lemma_name_eq_equiv()
    ensures
        forall|a: Seq<char>| #[trigger] name_eq(a, a),
        forall|a: Seq<char>, b: Seq<char>| #[trigger] name_eq(a, b) ==> name_eq(b, a),
        forall|a: Seq<char>, b: Seq<char>, c: Seq<char>|
            name_eq(a, b) && name_eq(b, c) ==> name_eq(a, c),
{
}

/// When an index holds an equivalent name and nothing before it does, that
/// index is what `find_key` returns.
proof fn lemma_find_key_first(m: Seq<SpecEntry>, k: Seq<char>, i: int)
    requires
        0 <= i < m.len(),
        name_eq(m[i].0, k),
        forall|j: int| 0 <= j < i ==> !name_eq(#[trigger] m[j].0, k),
    ensures
        find_key(m, k) == Some(i),
    decreases m.len(),
{
    if i > 0 {
        let md = m.drop_first();
        assert(md[i - 1] == m[i]);
        assert forall|j: int| 0 <= j < i - 1 implies !name_eq(#[trigger] md[j].0, k) by {
            assert(md[j] == m[j + 1]);
            assert(!name_eq(m[j + 1].0, k));
        }
        lemma_find_key_first(md, k, i - 1);
    }
}

/// Taking one more element appends it.
proof fn lemma_take_push(m: Seq<SpecEntry>, t: int)
    requires
        0 <= t < m.len(),
    ensures
        m.take(t + 1) == m.take(t).push(m[t]),
{
    assert(m.take(t + 1) =~= m.take(t).push(m[t]));
}

/// One merge step extends the processed prefix by one writer.
proof fn lemma_get_after_step(
    om: Seq<SpecEntry>,
    t: int,
    m0: Seq<SpecEntry>,
    before: Seq<SpecEntry>,
    after: Seq<SpecEntry>,
)
    requires
        0 <= t < om.len(),
        map_wf(om),
        forall|k: Seq<char>| spec_get(om.take(t), k) is Some ==> spec_get(before, k) == spec_get(
            om.take(t),
            k,
        ),
        forall|k: Seq<char>| spec_get(om.take(t), k) is None ==> spec_get(before, k) == spec_get(
            m0,
            k,
        ),
        spec_get(after, om[t].0) == Some(om[t].1),
        forall|k: Seq<char>| !name_eq(k, om[t].0) ==> spec_get(after, k) == spec_get(before, k),
    ensures
        forall|k: Seq<char>| spec_get(om.take(t + 1), k) is Some ==> spec_get(after, k) == spec_get(
            om.take(t + 1),
            k,
        ),
        forall|k: Seq<char>| spec_get(om.take(t + 1), k) is None ==> spec_get(after, k)
            == spec_get(m0, k),
{
    lemma_name_eq_equiv();
    lemma_take_push(om, t);
    let p = om.take(t);
    let p2 = om.take(t + 1);
    assert forall|j: int| 0 <= j < t implies !name_eq(#[trigger] p[j].0, om[t].0) by {
        assert(p[j].0 == om[j].0);
    }
    lemma_push_find(p, om[t].0, om[t].1);
    assert forall|k: Seq<char>| spec_get(p2, k) is Some implies spec_get(after, k) == spec_get(
        p2,
        k,
    ) by {
        lemma_find_key_char(p2, k);
        if name_eq(k, om[t].0) {
            lemma_get_push_eq(p, om[t].0, om[t].1, k);
            lemma_get_respects_eq(after, k, om[t].0);
        } else {
            lemma_get_push_ne(p, om[t].0, om[t].1, k);
        }
    }
    assert forall|k: Seq<char>| spec_get(p2, k) is None implies spec_get(after, k) == spec_get(
        m0,
        k,
    ) by {
        lemma_find_key_char(p2, k);
        if name_eq(k, om[t].0) {
            lemma_get_push_eq(p, om[t].0, om[t].1, k);
            assert(spec_get(p2, k) is Some);
        } else {
            lemma_get_push_ne(p, om[t].0, om[t].1, k);
        }
    }
}

/// A name not present in a prefix stays resolvable after pushing it.
proof fn lemma_push_find(p: Seq<SpecEntry>, k: Seq<char>, v: Seq<char>)
    requires
        forall|j: int| 0 <= j < p.len() ==> !name_eq(#[trigger] p[j].0, k),
    ensures
        find_key(p.push((k, v)), k) == Some(p.len() as int),
{
    lemma_name_eq_equiv();
    lemma_find_key_first(p.push((k, v)), k, p.len() as int);
}

/// Lookup of an equivalent name after a push yields the pushed value.
proof fn lemma_get_push_eq(p: Seq<SpecEntry>, k: Seq<char>, v: Seq<char>, k2: Seq<char>)
    requires
        forall|j: int| 0 <= j < p.len() ==> !name_eq(#[trigger] p[j].0, k),
        name_eq(k2, k),
    ensures
        spec_get(p.push((k, v)), k2) == Some(v),
{
    lemma_name_eq_equiv();
    assert forall|j: int| 0 <= j < p.len() implies !name_eq(#[trigger] p.push((k, v))[j].0, k2) by {
        assert(p.push((k, v))[j].0 == p[j].0);
    }
    lemma_find_key_first(p.push((k, v)), k2, p.len() as int);
}

/// Lookup of a different name is unchanged by a push.
proof fn lemma_get_push_ne(p: Seq<SpecEntry>, k: Seq<char>, v: Seq<char>, k2: Seq<char>)
    requires
        !name_eq(k2, k),
    ensures
        spec_get(p.push((k, v)), k2) == spec_get(p, k2),
{
    lemma_name_eq_equiv();
    let m2 = p.push((k, v));
    lemma_find_key_char(p, k2);
    lemma_find_key_char(m2, k2);
    match find_key(p, k2) {
        Some(j) => {
            lemma_find_key_first(m2, k2, j);
        },
        None => {
            if find_key(m2, k2) is Some {
                let j = find_key(m2, k2)->Some_0;
                assert(name_eq(m2[j].0, k2));
                assert(j < p.len() || m2[j].0 == k);
            }
        },
    }
}

/// Whether two names agree after ASCII lowercasing of their UTF-8 bytes.
pub fn names_equivalent(a: &str, b: &str) -> (r: bool)
    ensures
        r == name_eq(a@, b@),
{
    let ab: &[u8] = a.as_bytes();
    let bb: &[u8] = b.as_bytes();
    if ab.len() != bb.len() {
        proof {
            assert(lower_seq(ab@).len() != lower_seq(bb@).len());
        }
        return false;
    }
    let n: usize = ab.len();
    let mut i: usize = 0;
    while i < n
        invariant
            n == ab@.len(),
            n == bb@.len(),
            ab@ == chars_bytes(a@),
            bb@ == chars_bytes(b@),
            0 <= i <= n,
            forall|k: int| 0 <= k < i ==> lower(ab@[k]) == lower(bb@[k]),
        decreases n - i,
    {
        if crate::codec::byte_lower(ab[i]) != crate::codec::byte_lower(bb[i]) {
            proof {
                assert(lower_seq(ab@)[i as int] != lower_seq(bb@)[i as int]);
            }
            return false;
        }
        i = i + 1;
    }
    proof {
        assert(lower_seq(ab@) =~= lower_seq(bb@));
    }
    true
}


/// One serialized header line, without its terminating CRLF.
pub open spec fn entry_line(e: SpecEntry) -> Seq<u8> {
    chars_bytes(e.0) + seq![58u8, 32u8] + chars_bytes(e.1)
}

/// A header name fit for the wire: non-empty, and free of CR, LF and the
/// colon.
pub open spec fn clean_header_name(n: Seq<char>) -> bool {
    &&& chars_bytes(n).len() > 0
    &&& forall|k: int| 0 <= k < chars_bytes(n).len() ==> #[trigger] chars_bytes(n)[k] != CR
        && chars_bytes(n)[k] != LF && chars_bytes(n)[k] != 58
}

/// A header value fit for the wire: free of CR and LF.
pub open spec fn clean_header_value(v: Seq<char>) -> bool {
    forall|k: int| 0 <= k < chars_bytes(v).len() ==> #[trigger] chars_bytes(v)[k] != CR
        && chars_bytes(v)[k] != LF
}

/// The serialized lines of a map, in order.
pub open spec fn lines_of(m: Seq<SpecEntry>) -> Seq<Seq<u8>> {
    Seq::new(m.len(), |i: int| entry_line(m[i]))
}

/// Serialization reads the same from the front: the first entry's line,
/// then the rest.
proof fn lemma_wire_of_front(m: Seq<SpecEntry>)
    requires
        m.len() > 0,
    ensures
        wire_of(m) == entry_line(m[0]) + crlf_bytes() + wire_of(m.drop_first()),
    decreases m.len(),
{
    if m.len() == 1 {
        assert(m.drop_last() =~= Seq::<SpecEntry>::empty());
        assert(m.drop_first() =~= Seq::<SpecEntry>::empty());
        assert(m.last() == m[0]);
        assert(wire_of(m) =~= entry_line(m[0]) + crlf_bytes() + wire_of(m.drop_first()));
    } else {
        let ml = m.drop_last();
        lemma_wire_of_front(ml);
        assert(ml[0] == m[0]);
        assert(ml.drop_first() =~= m.drop_first().drop_last());
        assert(m.drop_first().last() == m.last());
        assert(wire_of(m.drop_first()) == wire_of(m.drop_first().drop_last()) + chars_bytes(
            m.last().0,
        ) + seq![58u8, 32u8] + chars_bytes(m.last().1) + crlf_bytes());
        assert(wire_of(m) =~= entry_line(m[0]) + crlf_bytes() + wire_of(m.drop_first()));
    }
}

/// Scanning from `i` with the current part starting at `start`, a first
/// delimiter at `e` emits the bytes from `start` to `e` and continues after
/// the delimiter.
proof fn lemma_split_scan(d: Seq<u8>, delim: Seq<u8>, i: int, start: int, e: int)
    requires
        delim.len() > 0,
        0 <= start <= i <= e,
        e + delim.len() <= d.len(),
        delim_at(d, delim, e),
        forall|k: int| i <= k < e ==> !delim_at(d, delim, k),
    ensures
        split_mb_from(d, delim, i, start) == seq![d.subrange(start, e)] + split_mb_from(
            d,
            delim,
            e + delim.len(),
            e + delim.len(),
        ),
    decreases e - i,
{
    if i == e {
    } else {
        lemma_split_scan(d, delim, i + 1, start, e);
    }
}

/// Splitting a suffix is splitting after dropping the prefix.
proof fn lemma_split_skip(d: Seq<u8>, delim: Seq<u8>, k: int, i: int, start: int)
    requires
        delim.len() > 0,
        0 <= k <= start <= i <= d.len(),
    ensures
        split_mb_from(d, delim, i, start) == split_mb_from(d.skip(k), delim, i - k, start - k),
    decreases d.len() - i,
{
    let t = d.skip(k);
    if i >= d.len() {
        if start < d.len() {
            assert(d.subrange(start, d.len() as int) =~= t.subrange(start - k, t.len() as int));
        }
    } else if delim_at(d, delim, i) {
        assert(d.subrange(i, i + delim.len()) =~= t.subrange(i - k, i - k + delim.len()));
        assert(delim_at(t, delim, i - k));
        assert(d.subrange(start, i) =~= t.subrange(start - k, i - k));
        lemma_split_skip(d, delim, k, i + delim.len(), i + delim.len());
    } else {
        if i + delim.len() <= d.len() {
            assert(t.subrange(i - k, i - k + delim.len()) =~= d.subrange(i, i + delim.len()));
        }
        assert(!delim_at(t, delim, i - k));
        lemma_split_skip(d, delim, k, i + 1, start);
    }
}

/// The serialized lines of a map split back into one part per entry.
pub proof fn lemma_split_lines(m: Seq<SpecEntry>)
    requires
        forall|i: int| 0 <= i < m.len() ==> clean_header_name(#[trigger] m[i].0)
            && clean_header_value(m[i].1),
    ensures
        spec_split_multi_byte(wire_of(m), crlf_bytes()) == lines_of(m),
    decreases m.len(),
{
    let d = wire_of(m);
    let delim = crlf_bytes();
    if m.len() == 0 {
        assert(lines_of(m) =~= Seq::<Seq<u8>>::empty());
    } else {
        lemma_wire_of_front(m);
        let line = entry_line(m[0]);
        let ln = line.len() as int;
        let rest = wire_of(m.drop_first());
        assert(d == line + delim + rest);
        // No CR occurs inside the line, so the first CRLF sits right after it.
        assert forall|k: int| 0 <= k < ln implies !delim_at(d, delim, k) by {
            assert(d[k] == line[k]);
            if k < chars_bytes(m[0].0).len() {
                assert(line[k] == chars_bytes(m[0].0)[k]);
            } else if k == chars_bytes(m[0].0).len() {
                assert(line[k] == 58);
            } else if k == chars_bytes(m[0].0).len() + 1 {
                assert(line[k] == 32);
            } else {
                assert(line[k] == chars_bytes(m[0].1)[k - chars_bytes(m[0].0).len() - 2]);
            }
            if delim_at(d, delim, k) {
                assert(d.subrange(k, k + 2)[0] == CR);
                assert(d[k] == CR);
            }
        }
        assert(delim_at(d, delim, ln)) by {
            assert(d[ln] == CR && d[ln + 1] == LF);
            assert(d.subrange(ln, ln + 2) =~= crlf_bytes());
        }
        lemma_split_scan(d, delim, 0, 0, ln);
        lemma_split_skip(d, delim, ln + 2, ln + 2, ln + 2);
        assert(d.skip(ln + 2) =~= rest);
        lemma_split_lines(m.drop_first());
        assert(d.subrange(0, ln) =~= line);
        assert(lines_of(m) =~= seq![line] + lines_of(m.drop_first()));
    }
}

/// A well-formed map serializes into a header block fit for a request
/// message: it never starts with CR, ends with a CRLF, and holds no blank
/// line.
pub proof fn lemma_wire_headers_ok(m: Seq<SpecEntry>)
    requires
        forall|i: int| 0 <= i < m.len() ==> clean_header_name(#[trigger] m[i].0)
            && clean_header_value(m[i].1),
    ensures
        crate::codec::wire_headers_ok(wire_of(m)),
    decreases m.len(),
{
    let d = wire_of(m);
    if m.len() == 0 {
        assert(d =~= Seq::<u8>::empty());
        assert forall|i: int| !crate::codec::double_crlf_at(d, i) by {}
    } else {
        lemma_wire_of_front(m);
        lemma_wire_headers_ok(m.drop_first());
        let line = entry_line(m[0]);
        let ln = line.len() as int;
        let rest = wire_of(m.drop_first());
        assert(d == line + crlf_bytes() + rest);
        assert(line[0] == chars_bytes(m[0].0)[0]);
        assert(d[0] != CR);
        // The block ends with the last line's CRLF.
        assert(d.len() >= 2);
        if rest.len() == 0 {
            assert(d[d.len() - 2] == CR && d[d.len() - 1] == LF);
        } else {
            assert(d[d.len() - 2] == rest[rest.len() - 2] && d[d.len() - 1] == rest[
                rest.len() - 1
            ]);
        }
        // Line bytes are never CR, so no blank line can form around them.
        assert forall|k: int| 0 <= k < ln implies line[k] != CR by {
            if k < chars_bytes(m[0].0).len() {
                assert(line[k] == chars_bytes(m[0].0)[k]);
            } else if k == chars_bytes(m[0].0).len() {
                assert(line[k] == 58);
            } else if k == chars_bytes(m[0].0).len() + 1 {
                assert(line[k] == 32);
            } else {
                assert(line[k] == chars_bytes(m[0].1)[k - chars_bytes(m[0].0).len() - 2]);
            }
        }
        assert forall|k: int| !crate::codec::double_crlf_at(d, k) by {
            if 0 <= k && k + 4 <= d.len() {
                if k < ln {
                    assert(d[k] == line[k]);
                } else if k == ln {
                    if rest.len() == 0 {
                    } else {
                        assert(d[k + 2] == rest[0]);
                        assert(rest[0] == entry_line(m.drop_first()[0])[0]) by {
                            lemma_wire_of_front(m.drop_first());
                        }
                        assert(rest[0] == chars_bytes(m.drop_first()[0].0)[0]);
                        assert(clean_header_name(m.drop_first()[0].0));
                    }
                } else if k == ln + 1 {
                    assert(d[k] == LF);
                } else {
                    let j = k - ln - 2;
                    assert(!crate::codec::double_crlf_at(rest, j));
                    assert(d[k] == rest[j] && d[k + 1] == rest[j + 1] && d[k + 2] == rest[j + 2]
                        && d[k + 3] == rest[j + 3]);
                }
            }
        }
    }
}

} // verus!
