//! The mapping cache: which placeholder address stands for which domain.
//!
//! Pairs are kept in the order in which they were registered. A pair is
//! never changed and never removed. Addresses are looked up in a hash map.
//! Domains are looked up in a hash map too, one that is keyed by a number
//! computed from the name: it holds, for each such number, the places of
//! the pairs whose names give that number.

use vstd::prelude::*;
use vstd::utf8::encode_utf8;
use std::collections::HashMap;
use crate::text::same_text;

verus! {

broadcast use vstd::std_specs::hash::group_hash_axioms;

/// One pair of the cache.
#[derive(Debug)]
struct Entry {
    name: String,
    addr: u32,
}

/// A two-way store of domain names and IPv4 addresses.
#[derive(Debug)]
pub struct Ipv4Mapping {
    addr_to_name: HashMap<u32, String>,
    name_index: HashMap<u64, Vec<usize>>,
    entries: Vec<Entry>,
}

/// The modulus of the numbers that names are filed under, a prime.
const HASH_MODULUS: u64 = 4294967291;

/// The number that a name of these bytes is filed under.
spec fn text_hash(bytes: Seq<u8>) -> u64
    decreases bytes.len(),
{
    if bytes.len() == 0 {
        0
    } else {
        ((text_hash(bytes.drop_last()) * 31 + bytes.last()) % (HASH_MODULUS as int)) as u64
    }
}

/// The number that the name `name` is filed under.
fn hash_of(name: &str) -> (hash: u64)
    ensures
        hash == text_hash(encode_utf8(name@)),
{
    let bytes = name.as_bytes();
    let mut hash: u64 = 0;
    let mut i: usize = 0;
    assert(bytes@.take(0) =~= Seq::empty());
    while i < bytes.len()
        invariant
            i <= bytes@.len(),
            hash == text_hash(bytes@.take(i as int)),
            hash < HASH_MODULUS,
        decreases bytes@.len() - i,
    {
        proof {
            let next = bytes@.take(i + 1);
            assert(next.drop_last() =~= bytes@.take(i as int));
            assert(next.last() == bytes@[i as int]);
        }
        hash = (hash * 31 + bytes[i] as u64) % HASH_MODULUS;
        i += 1;
    }
    assert(bytes@.take(i as int) =~= bytes@);
    hash
}

/// The address registered for `name`, if any.
pub open spec fn forward(pairs: Seq<(Seq<char>, u32)>, name: Seq<char>) -> Option<u32> {
    if exists|i: int| 0 <= i < pairs.len() && pairs[i].0 == name {
        Some(pairs[choose|i: int| 0 <= i < pairs.len() && pairs[i].0 == name].1)
    } else {
        None
    }
}

/// The domain registered for `addr`, if any.
pub open spec fn backward(pairs: Seq<(Seq<char>, u32)>, addr: u32) -> Option<Seq<char>> {
    if exists|i: int| 0 <= i < pairs.len() && pairs[i].1 == addr {
        Some(pairs[choose|i: int| 0 <= i < pairs.len() && pairs[i].1 == addr].0)
    } else {
        None
    }
}

/// No domain and no address occurs in two pairs.
pub open spec fn injective(pairs: Seq<(Seq<char>, u32)>) -> bool {
    forall|i: int, j: int|
        0 <= i < j < pairs.len() ==> pairs[i].0 != pairs[j].0 && pairs[i].1 != pairs[j].1
}

impl View for Ipv4Mapping {
    type V = Seq<(Seq<char>, u32)>;

    /// The pairs, oldest first.
    closed spec fn view(&self) -> Seq<(Seq<char>, u32)> {
        Seq::new(self.entries@.len(), |i: int| (self.entries@[i].name@, self.entries@[i].addr))
    }
}

impl Ipv4Mapping {
    /// Each domain has one address and each address one domain, the first
    /// hash map holds the addresses of the pairs with their domains, and
    /// the second files the place of each pair under the number of its
    /// name, and nothing but places of pairs.
    pub closed spec fn wf(&self) -> bool {
        &&& injective(self@)
        &&& forall|addr: u32|
            self.addr_to_name@.contains_key(addr) <==> exists|i: int|
                0 <= i < self@.len() && self@[i].1 == addr
        &&& forall|i: int|
            0 <= i < self@.len() ==> self.addr_to_name@[(#[trigger] self@[i]).1]@ == self@[i].0
        &&& forall|i: int|
            0 <= i < self@.len() ==> self.filed(#[trigger] self.hash_at(i), i)
        &&& forall|hash: u64, j: int|
            self.name_index@.contains_key(hash) && 0 <= j < self.name_index@[hash]@.len()
                ==> (#[trigger] self.name_index@[hash]@[j]) < self@.len()
    }

    /// The number that the name of the pair at `i` is filed under.
    closed spec fn hash_at(&self, i: int) -> u64 {
        text_hash(encode_utf8(self@[i].0))
    }

    /// The place `i` is filed under `hash`.
    closed spec fn filed(&self, hash: u64, i: int) -> bool {
        self.name_index@.contains_key(hash) && exists|j: int|
            0 <= j < self.name_index@[hash]@.len() && self.name_index@[hash]@[j] == i
    }

    /// A cache in good order maps one to one.
    pub proof fn lemma_wf_injective(&self)
        requires
            self.wf(),
        ensures
            injective(self@),
    {
    }

    /// The domains and their addresses, as a map.
    pub open spec fn name_to_addr(&self) -> Map<Seq<char>, u32> {
        Map::new(
            |name: Seq<char>| forward(self@, name) is Some,
            |name: Seq<char>| forward(self@, name).unwrap(),
        )
    }

    /// The addresses and their domains, as a map.
    pub open spec fn addr_to_name(&self) -> Map<u32, Seq<char>> {
        Map::new(
            |addr: u32| backward(self@, addr) is Some,
            |addr: u32| backward(self@, addr).unwrap(),
        )
    }

    /// The two maps of a cache in good order are inverse to each other.
    pub proof fn lemma_maps_are_inverse(&self, name: Seq<char>, addr: u32)
        requires
            self.wf(),
        ensures
            self.name_to_addr().contains_pair(name, addr) <==> self.addr_to_name().contains_pair(
                addr,
                name,
            ),
    {
        lemma_backward_inverts_forward(self@, name, addr);
    }

    /// An empty cache.
    pub fn new() -> (mapping: Ipv4Mapping)
        ensures
            mapping@ == Seq::<(Seq<char>, u32)>::empty(),
            mapping.wf(),
    {
        let mapping = Ipv4Mapping {
            addr_to_name: HashMap::new(),
            name_index: HashMap::new(),
            entries: Vec::new(),
        };
        assert(mapping@ =~= Seq::<(Seq<char>, u32)>::empty());
        mapping
    }

    /// The number of pairs.
    pub fn len(&self) -> (n: usize)
        ensures
            n == self@.len(),
    {
        self.entries.len()
    }

    /// The address registered for `name`.
    pub fn get_addr(&self, name: &str) -> (found: Option<u32>)
        requires
            self.wf(),
        ensures
            found == forward(self@, name@),
    {
        let hash = hash_of(name);
        let places = match self.name_index.get(&hash) {
            Some(places) => places,
            None => {
                proof {
                    if exists|i: int| 0 <= i < self@.len() && self@[i].0 == name@ {
                        let i = choose|i: int| 0 <= i < self@.len() && self@[i].0 == name@;
                        assert(self.filed(self.hash_at(i), i));
                    }
                }
                return None;
            },
        };
        let mut j: usize = 0;
        while j < places.len()
            invariant
                self.wf(),
                hash == text_hash(encode_utf8(name@)),
                self.name_index@.contains_key(hash),
                *places == self.name_index@[hash],
                j <= places@.len(),
                forall|k: int| 0 <= k < j ==> self@[places@[k] as int].0 != name@,
            decreases places@.len() - j,
        {
            let place = places[j];
            assert(place == self.name_index@[hash]@[j as int]);
            if same_text(self.entries[place].name.as_str(), name) {
                assert(self@[place as int].0 == name@);
                return Some(self.entries[place].addr);
            }
            j += 1;
        }
        proof {
            if exists|i: int| 0 <= i < self@.len() && self@[i].0 == name@ {
                let i = choose|i: int| 0 <= i < self@.len() && self@[i].0 == name@;
                assert(self.filed(self.hash_at(i), i));
                let k = choose|k: int|
                    0 <= k < self.name_index@[hash]@.len() && self.name_index@[hash]@[k] == i;
                assert(self@[places@[k] as int].0 != name@);
            }
        }
        None
    }

    /// The domain registered for `addr`.
    pub fn get_name(&self, addr: u32) -> (found: Option<&String>)
        requires
            self.wf(),
        ensures
            match found {
                Some(name) => backward(self@, addr) == Some(name@),
                None => backward(self@, addr) is None,
            },
    {
        let found = self.addr_to_name.get(&addr);
        proof {
            if found is Some {
                let i = choose|i: int| 0 <= i < self@.len() && self@[i].1 == addr;
                assert(self.addr_to_name@[self@[i].1]@ == self@[i].0);
            }
        }
        found
    }

    /// Registers the pair unless the domain or the address is already
    /// there, and says whether it did.
    pub fn insert(&mut self, name: String, addr: u32) -> (added: bool)
        requires
            old(self).wf(),
        ensures
            final(self).wf(),
            added == (forward(old(self)@, name@) is None && backward(old(self)@, addr) is None),
            added ==> final(self)@ == old(self)@.push((name@, addr)),
            !added ==> final(self)@ == old(self)@,
    {
        if self.get_addr(name.as_str()).is_some() || self.get_name(addr).is_some() {
            return false;
        }
        let hash = hash_of(name.as_str());
        let place = self.entries.len();
        let mut places = match self.name_index.remove(&hash) {
            Some(places) => places,
            None => Vec::new(),
        };
        let ghost filed_before = places@;
        places.push(place);
        self.name_index.insert(hash, places);
        self.addr_to_name.insert(addr, name.clone());
        self.entries.push(Entry { name, addr });
        proof {
            let before = old(self)@;
            let after = self@;
            assert(after =~= before.push((name@, addr)));
            assert forall|a: u32| self.addr_to_name@.contains_key(a) implies exists|i: int|
                0 <= i < after.len() && after[i].1 == a by {
                if a == addr {
                    assert(after[before.len() as int].1 == a);
                } else {
                    let i = choose|i: int| 0 <= i < before.len() && before[i].1 == a;
                    assert(after[i].1 == a);
                }
            }
            assert forall|i: int| 0 <= i < after.len() implies self.addr_to_name@[(
                #[trigger] after[i]).1]@ == after[i].0 by {
                if i < before.len() {
                    assert(before[i] == after[i]);
                    assert(before[i].1 != addr);
                }
            }
            let index = self.name_index@;
            assert(index[hash]@ == filed_before.push(place));
            assert forall|i: int| 0 <= i < after.len() implies self.filed(
                #[trigger] self.hash_at(i),
                i,
            ) by {
                if i < before.len() {
                    assert(before[i] == after[i]);
                    assert(old(self).filed(old(self).hash_at(i), i));
                    let h = self.hash_at(i);
                    assert(h == old(self).hash_at(i));
                    let j = choose|j: int|
                        0 <= j < old(self).name_index@[h]@.len() && old(self).name_index@[h]@[j]
                            == i;
                    if h == hash {
                        assert(index[h]@[j] == i);
                    } else {
                        assert(index[h]@[j] == i);
                    }
                } else {
                    assert(self.hash_at(i) == hash);
                    assert(index[hash]@[filed_before.len() as int] == i);
                }
            }
            assert forall|h: u64, j: int|
                index.contains_key(h) && 0 <= j < index[h]@.len() implies (#[trigger] index[h]@[j])
                < after.len() by {
                if h == hash {
                    if j < filed_before.len() {
                        assert(old(self).name_index@[h]@[j] < before.len());
                    }
                } else {
                    assert(old(self).name_index@[h]@[j] < before.len());
                }
            }
        }
        true
    }
}

impl Default for Ipv4Mapping {
    fn default() -> (mapping: Ipv4Mapping)
        ensures
            mapping@ == Seq::<(Seq<char>, u32)>::empty(),
            mapping.wf(),
    {
        Ipv4Mapping::new()
    }
}

/// In a cache that maps one to one, the lookup by address undoes the lookup
/// by domain, and the other way round.
pub proof fn lemma_backward_inverts_forward(pairs: Seq<(Seq<char>, u32)>, name: Seq<char>, addr: u32)
    requires
        injective(pairs),
    ensures
        forward(pairs, name) == Some(addr) <==> backward(pairs, addr) == Some(name),
        forward(pairs, name) == Some(addr) <==> pairs.contains((name, addr)),
{
    if pairs.contains((name, addr)) {
        let i = choose|i: int| 0 <= i < pairs.len() && pairs[i] == (name, addr);
        assert(pairs[i].0 == name && pairs[i].1 == addr);
    }
    if forward(pairs, name) == Some(addr) {
        let i = choose|i: int| 0 <= i < pairs.len() && pairs[i].0 == name;
        assert(pairs[i] == (name, addr));
    }
    if backward(pairs, addr) == Some(name) {
        let i = choose|i: int| 0 <= i < pairs.len() && pairs[i].1 == addr;
        assert(pairs[i] == (name, addr));
    }
}

} // verus!
