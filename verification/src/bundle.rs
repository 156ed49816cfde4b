//! The in-memory workbook: a mapping from part path to part bytes, built
//! at unpack, mutated throughout the render, and repacked at the end.

use vstd::prelude::*;

verus! {

use crate::scan::{append_bytes, bytes_eq};

/// One part of the container.
pub struct Part {
    pub name: Vec<u8>,
    pub data: Vec<u8>,
}

/// The part bundle, keyed by part path. Paths are unique.
pub struct PartBundle {
    pub parts: Vec<Part>,
}

impl View for PartBundle {
    type V = Seq<(Seq<u8>, Seq<u8>)>;

    open spec fn view(&self) -> Seq<(Seq<u8>, Seq<u8>)> {
        Seq::new(self.parts@.len(), |i: int| (self.parts@[i].name@, self.parts@[i].data@))
    }
}

/// The index of the first entry named `name`.
pub open spec fn spec_part_index(v: Seq<(Seq<u8>, Seq<u8>)>, name: Seq<u8>, k: int) -> Option<
    int,
>
    decreases v.len() - k,
{
    if k < 0 || k >= v.len() {
        None
    } else if v[k].0 == name {
        Some(k)
    } else {
        spec_part_index(v, name, k + 1)
    }
}

/// The bytes of the first entry named `name`.
pub open spec fn spec_get_part(v: Seq<(Seq<u8>, Seq<u8>)>, name: Seq<u8>) -> Option<Seq<u8>> {
    match spec_part_index(v, name, 0) {
        Some(i) => Some(v[i].1),
        None => None,
    }
}

/// `name` is among the part paths.
pub open spec fn spec_has_part(v: Seq<(Seq<u8>, Seq<u8>)>, name: Seq<u8>) -> bool {
    spec_part_index(v, name, 0) is Some
}

/// Setting a part: the first entry of that name is replaced, or a new
/// entry appended.
pub open spec fn spec_set_part(
    v: Seq<(Seq<u8>, Seq<u8>)>,
    name: Seq<u8>,
    data: Seq<u8>,
) -> Seq<(Seq<u8>, Seq<u8>)> {
    match spec_part_index(v, name, 0) {
        Some(i) => v.update(i, (name, data)),
        None => v.push((name, data)),
    }
}

/// Removing a part: the first entry of that name disappears.
pub open spec fn spec_remove_part(v: Seq<(Seq<u8>, Seq<u8>)>, name: Seq<u8>) -> Seq<
    (Seq<u8>, Seq<u8>),
> {
    match spec_part_index(v, name, 0) {
        Some(i) => v.remove(i),
        None => v,
    }
}

impl PartBundle {
    /// An empty bundle.
    pub fn new() -> (r: PartBundle)
        ensures
            r@ == Seq::<(Seq<u8>, Seq<u8>)>::empty(),
    {
        let b = PartBundle { parts: Vec::new() };
        proof {
            assert(b@ =~= Seq::<(Seq<u8>, Seq<u8>)>::empty());
        }
        b
    }

    /// The number of parts.
    pub fn len(&self) -> (r: usize)
        ensures
            r == self@.len(),
    {
        self.parts.len()
    }

    /// The index of the part named `name`, if any.
    pub fn index_of(&self, name: &[u8]) -> (r: Option<usize>)
        ensures
            r matches Some(i) ==> spec_part_index(self@, name@, 0) == Some(i as int),
            r is None ==> spec_part_index(self@, name@, 0) is None,
    {
        let n = self.parts.len();
        let mut k: usize = 0;
        while k < n
            invariant
                n == self.parts@.len(),
                0 <= k <= n,
                spec_part_index(self@, name@, 0) == spec_part_index(self@, name@, k as int),
            decreases n - k,
        {
            if bytes_eq(self.parts[k].name.as_slice(), name) {
                proof {
                    assert(self@[k as int].0 == name@);
                }
                return Some(k);
            }
            proof {
                assert(self@[k as int].0 != name@);
            }
            k = k + 1;
        }
        None
    }

    /// Whether a part of that path exists.
    pub fn has_part(&self, name: &[u8]) -> (r: bool)
        ensures
            r == spec_has_part(self@, name@),
    {
        self.index_of(name).is_some()
    }

    /// A copy of the bytes of the part named `name`.
    pub fn get_copy(&self, name: &[u8]) -> (r: Option<Vec<u8>>)
        ensures
            match r {
                Some(d) => spec_part_index(self@, name@, 0) matches Some(i) && d@ == self@[
                    spec_part_index(self@, name@, 0).unwrap()].1,
                None => spec_part_index(self@, name@, 0) is None,
            },
    {
        match self.index_of(name) {
            Some(i) => {
                proof {
                    lemma_part_index_in_range(self@, name@, 0);
                }
                let mut d: Vec<u8> = Vec::new();
                append_bytes(&mut d, self.parts[i].data.as_slice());
                proof {
                    assert(d@ =~= self@[i as int].1);
                }
                Some(d)
            },
            None => None,
        }
    }

    /// Stores `data` under `name`, replacing an existing part of that
    /// path.
    pub fn set(&mut self, name: Vec<u8>, data: Vec<u8>)
        ensures
            final(self)@ == spec_set_part(old(self)@, name@, data@),
    {
        match self.index_of(name.as_slice()) {
            Some(i) => {
                proof {
                    lemma_part_index_in_range(old(self)@, name@, 0);
                }
                let _ = self.parts.remove(i);
                self.parts.insert(i, Part { name, data });
                proof {
                    assert(self@ =~= spec_set_part(old(self)@, name@, data@));
                }
            },
            None => {
                self.parts.push(Part { name, data });
                proof {
                    assert(self@ =~= spec_set_part(old(self)@, name@, data@));
                }
            },
        }
    }

    /// Removes the part named `name`, if present.
    pub fn remove(&mut self, name: &[u8])
        ensures
            final(self)@ == spec_remove_part(old(self)@, name@),
    {
        match self.index_of(name) {
            Some(i) => {
                proof {
                    lemma_part_index_in_range(old(self)@, name@, 0);
                }
                let _ = self.parts.remove(i);
                proof {
                    assert(self@ =~= spec_remove_part(old(self)@, name@));
                }
            },
            None => {},
        }
    }
}

pub proof fn lemma_part_index_in_range(v: Seq<(Seq<u8>, Seq<u8>)>, name: Seq<u8>, k: int)
    requires
        0 <= k,
    ensures
        spec_part_index(v, name, k) matches Some(i) ==> k <= i < v.len() && v[i].0 == name,
    decreases v.len() - k,
{
    if k < v.len() && v[k].0 != name {
        lemma_part_index_in_range(v, name, k + 1);
    }
}


/// A part is present exactly when some entry carries its name.
pub proof fn lemma_part_index_exists(v: Seq<(Seq<u8>, Seq<u8>)>, name: Seq<u8>, k: int)
    requires
        0 <= k,
    ensures
        spec_part_index(v, name, k) is Some <==> exists|i: int|
            k <= i < v.len() && (#[trigger] v[i]).0 == name,
    decreases v.len() - k,
{
    if k < v.len() {
        lemma_part_index_exists(v, name, k + 1);
        if v[k].0 == name {
        } else {
            if exists|i: int| k <= i < v.len() && (#[trigger] v[i]).0 == name {
                let w = choose|i: int| k <= i < v.len() && (#[trigger] v[i]).0 == name;
                assert(k + 1 <= w < v.len() && v[w].0 == name);
            }
        }
    }
}

/// Storing one part never removes another: a part that was present is
/// still present after any `set`.
pub proof fn lemma_set_preserves_part(
    v: Seq<(Seq<u8>, Seq<u8>)>,
    present: Seq<u8>,
    name: Seq<u8>,
    data: Seq<u8>,
)
    requires
        spec_get_part(v, present) is Some,
    ensures
        spec_get_part(spec_set_part(v, name, data), present) is Some,
{
    lemma_part_index_exists(v, present, 0);
    lemma_part_index_exists(v, name, 0);
    let v2 = spec_set_part(v, name, data);
    lemma_part_index_exists(v2, present, 0);
    let w = choose|i: int| 0 <= i < v.len() && (#[trigger] v[i]).0 == present;
    match spec_part_index(v, name, 0) {
        Some(u) => {
            lemma_part_index_in_range(v, name, 0);
            if u == w {
                assert(present == name);
                assert(v2[u].0 == present);
            } else {
                assert(v2[w].0 == present);
            }
        },
        None => {
            assert(v2[w].0 == present);
        },
    }
}

/// The part just stored is present.
pub proof fn lemma_set_makes_part(v: Seq<(Seq<u8>, Seq<u8>)>, name: Seq<u8>, data: Seq<u8>)
    ensures
        spec_get_part(spec_set_part(v, name, data), name) is Some,
{
    lemma_part_index_exists(v, name, 0);
    let v2 = spec_set_part(v, name, data);
    lemma_part_index_exists(v2, name, 0);
    match spec_part_index(v, name, 0) {
        Some(u) => {
            lemma_part_index_in_range(v, name, 0);
            assert(v2[u].0 == name);
        },
        None => {
            assert(v2[v.len() as int].0 == name);
        },
    }
}

} // verus!
