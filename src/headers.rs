//! The header map and the parsing of one header line.
use vstd::prelude::*;
use crate::bytes::{
    append_bytes, ascii_lower, bytes_eq, copy_range, find, find_byte, lemma_ascii_lower_idempotent,
    lemma_find_byte_bounds, to_ascii_lower, trim_bounds, trim_ows, COLON, COMMA, SP,
};
use crate::error::ParserError;

verus! {

/// Header entries as (name, value) pairs, in the order in which the names first came.
pub type HeaderSeq = Seq<(Seq<u8>, Seq<u8>)>;

/// The index of the first entry named `name` at or after `i`, or `v.len()`.
pub open spec fn find_name(v: HeaderSeq, name: Seq<u8>, i: int) -> int
    decreases v.len() - i,
{
    if i >= v.len() {
        v.len() as int
    } else if v[i].0 == name {
        i
    } else {
        find_name(v, name, i + 1)
    }
}

/// The value stored under `name`, matched without regard to ASCII case.
pub open spec fn spec_lookup(v: HeaderSeq, name: Seq<u8>) -> Option<Seq<u8>> {
    let i = find_name(v, ascii_lower(name), 0);
    if 0 <= i < v.len() {
        Some(v[i].1)
    } else {
        None
    }
}

/// `v` with `value` added under the (already lower-cased) `name`. A repeated
/// name keeps its place and its values are joined with `", "`.
pub open spec fn merged(v: HeaderSeq, name: Seq<u8>, value: Seq<u8>) -> HeaderSeq {
    let i = find_name(v, name, 0);
    if 0 <= i < v.len() {
        v.update(i, (name, v[i].1 + seq![COMMA, SP] + value))
    } else {
        v.push((name, value))
    }
}

/// Names are lower-case and each occurs once.
pub open spec fn headers_wf(v: HeaderSeq) -> bool {
    &&& forall|i: int| 0 <= i < v.len() ==> ascii_lower(#[trigger] v[i].0) == v[i].0
    &&& forall|i: int, j: int| 0 <= i < j < v.len() ==> #[trigger] v[i].0 != #[trigger] v[j].0
}

pub proof fn lemma_find_name_bounds(v: HeaderSeq, name: Seq<u8>, i: int)
    requires
        0 <= i <= v.len(),
    ensures
        i <= find_name(v, name, i) <= v.len(),
        find_name(v, name, i) < v.len() ==> v[find_name(v, name, i)].0 == name,
        forall|k: int| i <= k < find_name(v, name, i) ==> v[k].0 != name,
    decreases v.len() - i,
{
    if i < v.len() && v[i].0 != name {
        lemma_find_name_bounds(v, name, i + 1);
    }
}

/// Merging a lower-case name keeps the map well formed.
pub proof fn lemma_merged_wf(v: HeaderSeq, name: Seq<u8>, value: Seq<u8>)
    requires
        headers_wf(v),
        ascii_lower(name) == name,
    ensures
        headers_wf(merged(v, name, value)),
{
    lemma_find_name_bounds(v, name, 0);
    let w = merged(v, name, value);
    assert forall|i: int, j: int| 0 <= i < j < w.len() implies #[trigger] w[i].0 != #[trigger] w[j].0 by {
        if j == v.len() {
            assert(v[i].0 != name);
        }
    }
}

/// Lookup does not depend on the ASCII case of the name asked for.
pub proof fn lemma_lookup_case_insensitive(v: HeaderSeq, a: Seq<u8>, b: Seq<u8>)
    requires
        ascii_lower(a) == ascii_lower(b),
    ensures
        spec_lookup(v, a) == spec_lookup(v, b),
{
}

/// After merging, the name maps to the new value, or to the old one joined with it.
pub proof fn lemma_lookup_after_merge(v: HeaderSeq, name: Seq<u8>, value: Seq<u8>)
    requires
        headers_wf(v),
    ensures
        spec_lookup(merged(v, ascii_lower(name), value), name) == match spec_lookup(v, name) {
            Some(old) => Some(old + seq![COMMA, SP] + value),
            None => Some(value),
        },
{
    let k = ascii_lower(name);
    lemma_ascii_lower_idempotent(name);
    lemma_find_name_bounds(v, k, 0);
    let w = merged(v, k, value);
    let i = find_name(v, k, 0);
    lemma_find_name_bounds(w, k, 0);
    if i < v.len() {
        assert(w[i].0 == k);
        assert forall|m: int| 0 <= m < i implies w[m].0 != k by {
            assert(w[m] == v[m]);
        }
        if find_name(w, k, 0) < i {
            assert(w[find_name(w, k, 0)].0 == k);
        }
        assert(find_name(w, k, 0) == i);
    } else {
        assert(w[v.len() as int].0 == k);
        assert forall|m: int| 0 <= m < v.len() implies w[m].0 != k by {
            assert(w[m] == v[m]);
        }
        if find_name(w, k, 0) < v.len() {
            assert(w[find_name(w, k, 0)].0 == k);
        }
        assert(find_name(w, k, 0) == v.len());
    }
}

/// Header fields, keyed by lower-case name.
#[derive(Debug, Clone, PartialEq, Eq)]
pub struct HeaderMap {
    entries: Vec<(Vec<u8>, Vec<u8>)>,
}

impl View for HeaderMap {
    type V = HeaderSeq;

    closed spec fn view(&self) -> HeaderSeq {
        self.entries@.map_values(|e: (Vec<u8>, Vec<u8>)| (e.0@, e.1@))
    }
}

impl HeaderMap {
    pub open spec fn wf(&self) -> bool {
        headers_wf(self@)
    }

    /// An empty map.
    pub fn new() -> (r: HeaderMap)
        ensures
            r@ == Seq::<(Seq<u8>, Seq<u8>)>::empty(),
            r.wf(),
    {
        let r = HeaderMap { entries: Vec::new() };
        assert(r@ =~= Seq::<(Seq<u8>, Seq<u8>)>::empty());
        r
    }

    /// The number of distinct names.
    pub fn len(&self) -> (r: usize)
        ensures
            r == self@.len(),
    {
        self.entries.len()
    }

    pub fn is_empty(&self) -> (r: bool)
        ensures
            r == (self@.len() == 0),
    {
        self.entries.len() == 0
    }

    /// The name of the `i`-th entry.
    pub fn name_at(&self, i: usize) -> (r: &[u8])
        requires
            i < self@.len(),
        ensures
            r@ == self@[i as int].0,
    {
        self.entries[i].0.as_slice()
    }

    /// The value of the `i`-th entry.
    pub fn value_at(&self, i: usize) -> (r: &[u8])
        requires
            i < self@.len(),
        ensures
            r@ == self@[i as int].1,
    {
        self.entries[i].1.as_slice()
    }

    /// The index of the entry named exactly `key`, or the length.
    fn position(&self, key: &[u8]) -> (r: usize)
        ensures
            r as int == find_name(self@, key@, 0),
    {
        let mut i: usize = 0;
        while i < self.entries.len()
            invariant
                0 <= i <= self@.len(),
                find_name(self@, key@, 0) == find_name(self@, key@, i as int),
            decreases self@.len() - i,
        {
            if bytes_eq(self.entries[i].0.as_slice(), key) {
                return i;
            }
            i = i + 1;
        }
        i
    }

    /// The value stored under `name`, which is matched without regard to ASCII case.
    pub fn get(&self, name: &[u8]) -> (r: Option<&[u8]>)
        ensures
            match r {
                Some(x) => spec_lookup(self@, name@) == Some(x@),
                None => spec_lookup(self@, name@) is None,
            },
    {
        let key = to_ascii_lower(name);
        let i = self.position(key.as_slice());
        if i < self.entries.len() {
            Some(self.entries[i].1.as_slice())
        } else {
            None
        }
    }

    /// Adds `value` under `name`, lower-cased. A name already present keeps its
    /// place and gets the new value joined to the old one with `", "`.
    pub fn append(&mut self, name: &[u8], value: &[u8])
        requires
            old(self).wf(),
        ensures
            final(self).wf(),
            final(self)@ == merged(old(self)@, ascii_lower(name@), value@),
    {
        let key = to_ascii_lower(name);
        proof {
            lemma_ascii_lower_idempotent(name@);
            lemma_merged_wf(self@, key@, value@);
        }
        let i = self.position(key.as_slice());
        proof {
            lemma_find_name_bounds(self@, key@, 0);
        }
        let ghost before = self@;
        if i < self.entries.len() {
            let mut joined = copy_range(self.entries[i].1.as_slice(), 0, self.entries[i].1.len());
            assert(joined@ =~= before[i as int].1);
            joined.push(COMMA);
            joined.push(SP);
            append_bytes(&mut joined, value);
            assert(joined@ =~= before[i as int].1 + seq![COMMA, SP] + value@);
            let ghost k = key@;
            self.entries.set(i, (key, joined));
            assert(self@[i as int].0 == k);
            assert(self@ =~= merged(before, k, value@));
        } else {
            self.entries.push((key, copy_range(value, 0, value.len())));
            assert(value@.subrange(0, value@.len() as int) =~= value@);
            assert(self@ =~= merged(before, key@, value@));
        }
    }
}

/// What one header line gives: its lower-cased, trimmed name and its trimmed
/// value, split at the first colon.
pub open spec fn spec_header_line(line: Seq<u8>) -> Result<(Seq<u8>, Seq<u8>), ParserError> {
    let c = find_byte(line, COLON, 0);
    if c >= line.len() {
        Err(ParserError::MalformedHeader)
    } else {
        Ok(
            (
                ascii_lower(trim_ows(line.subrange(0, c))),
                trim_ows(line.subrange(c + 1, line.len() as int)),
            ),
        )
    }
}

/// Parses one header line, given without its terminator.
pub fn parse_header_line(line: &[u8]) -> (r: Result<(Vec<u8>, Vec<u8>), ParserError>)
    ensures
        match r {
            Ok((n, v)) => spec_header_line(line@) == Ok::<(Seq<u8>, Seq<u8>), ParserError>(
                (n@, v@),
            ),
            Err(e) => spec_header_line(line@) == Err::<(Seq<u8>, Seq<u8>), ParserError>(e),
        },
        r matches Ok((n, _)) ==> ascii_lower(n@) == n@,
{
    let c = find(line, COLON, 0);
    proof {
        lemma_find_byte_bounds(line@, COLON, 0);
    }
    if c >= line.len() {
        return Err(ParserError::MalformedHeader);
    }
    let (na, nb) = trim_bounds(line, 0, c);
    let name = to_ascii_lower(&line[na..nb]);
    proof {
        lemma_ascii_lower_idempotent(line@.subrange(na as int, nb as int));
    }
    let (va, vb) = trim_bounds(line, c + 1, line.len());
    let value = copy_range(line, va, vb);
    Ok((name, value))
}

} // verus!
