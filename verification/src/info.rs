//! Key/value blocks as the adapter reports them.

use vstd::prelude::*;
use crate::number::{parse_u32, parse_u32_radix};
use crate::text::{
    copy_range, find_byte, first_index, same_bytes, trim, trim_bounds, trim_trailing_nuls, LF,
};

verus! {

/// One line of a block: a key and the value behind its first space.
#[derive(Debug)]
pub struct Entry {
    pub key: Vec<u8>,
    pub value: Vec<u8>,
}

/// The keys and values of one reply. No key occurs twice.
#[derive(Debug)]
pub struct InfoMap {
    entries: Vec<Entry>,
}

/// The entry of `entries` at `at` has the key `key`.
pub open spec fn holds_key(entries: Seq<Entry>, at: int, key: Seq<u8>) -> bool {
    0 <= at < entries.len() && entries[at].key@ == key
}

/// No two entries share a key.
pub open spec fn distinct_keys(entries: Seq<Entry>) -> bool {
    forall|i: int, j: int|
        0 <= i < entries.len() && 0 <= j < entries.len() && #[trigger] entries[i].key@
            == #[trigger] entries[j].key@ ==> i == j
}

/// The map that a list of entries with distinct keys stands for.
pub open spec fn entries_map(entries: Seq<Entry>) -> Map<Seq<u8>, Seq<u8>> {
    Map::new(
        |key: Seq<u8>| exists|at: int| holds_key(entries, at, key),
        |key: Seq<u8>| entries[choose|at: int| holds_key(entries, at, key)].value@,
    )
}

/// The key and the value that one line of a block gives: the line without
/// white space at either end and without NUL bytes at its end, cut at its
/// first space. A line without a space gives nothing.
pub open spec fn pair_of(line: Seq<u8>) -> Option<(Seq<u8>, Seq<u8>)> {
    let text = trim_trailing_nuls(trim(line));
    let at = first_index(text, 0x20);
    if 0 <= at < text.len() {
        Some((text.subrange(0, at), text.subrange(at + 1, text.len() as int)))
    } else {
        None
    }
}

/// `map` with the pair of `line`, if it gives one.
pub open spec fn with_line(map: Map<Seq<u8>, Seq<u8>>, line: Seq<u8>) -> Map<Seq<u8>, Seq<u8>> {
    match pair_of(line) {
        Some((key, value)) => map.insert(key, value),
        None => map,
    }
}

/// `map` with the pairs of the lines of `text`, a later line replacing an
/// earlier one with the same key.
pub open spec fn chop_into(map: Map<Seq<u8>, Seq<u8>>, text: Seq<u8>) -> Map<Seq<u8>, Seq<u8>>
    decreases text.len(),
{
    let end = first_index(text, LF);
    let next = with_line(map, text.subrange(0, end));
    if 0 <= end < text.len() {
        chop_into(next, text.subrange(end + 1, text.len() as int))
    } else {
        next
    }
}

/// The block that `text` holds, line by line.
pub open spec fn chopped(text: Seq<u8>) -> Map<Seq<u8>, Seq<u8>> {
    chop_into(Map::empty(), text)
}

impl View for InfoMap {
    type V = Map<Seq<u8>, Seq<u8>>;

    closed spec fn view(&self) -> Map<Seq<u8>, Seq<u8>> {
        entries_map(self.entries@)
    }
}

impl InfoMap {
    #[verifier::type_invariant]
    spec fn well_formed(self) -> bool {
        distinct_keys(self.entries@)
    }

    /// The number of entries.
    pub closed spec fn count(&self) -> nat {
        self.entries@.len()
    }

    /// The key of the entry at `at`.
    pub closed spec fn key_at(&self, at: int) -> Seq<u8> {
        self.entries@[at].key@
    }

    /// Every entry is a pair of the map, and every pair of the map is an entry.
    pub proof fn lemma_entries(&self)
        ensures
            forall|at: int|
                0 <= at < self.count() ==> self@.contains_key(#[trigger] self.key_at(at)),
            forall|key: Seq<u8>|
                self@.contains_key(key) ==> exists|at: int|
                    0 <= at < self.count() && #[trigger] self.key_at(at) == key,
    {
        assert forall|at: int| 0 <= at < self.count() implies self@.contains_key(
            #[trigger] self.key_at(at),
        ) by {
            assert(holds_key(self.entries@, at, self.key_at(at)));
        }
        assert forall|key: Seq<u8>| self@.contains_key(key) implies exists|at: int|
            0 <= at < self.count() && #[trigger] self.key_at(at) == key by {
            let at = choose|at: int| holds_key(self.entries@, at, key);
            assert(self.key_at(at) == key);
        }
    }

    /// A block without entries.
    pub fn new() -> (map: InfoMap)
        ensures
            map@ == Map::<Seq<u8>, Seq<u8>>::empty(),
            map.count() == 0,
    {
        let map = InfoMap { entries: Vec::new() };
        assert(map@ =~= Map::<Seq<u8>, Seq<u8>>::empty());
        map
    }

    /// The number of entries, each with a key of its own.
    pub fn len(&self) -> (n: usize)
        ensures
            n == self.count(),
            forall|i: int, j: int|
                0 <= i < n && 0 <= j < n && #[trigger] self.key_at(i) == #[trigger] self.key_at(j)
                    ==> i == j,
    {
        proof {
            use_type_invariant(self);
        }
        self.entries.len()
    }

    /// The entry at `at`, in the order in which the keys first came.
    pub fn entry(&self, at: usize) -> (entry: &Entry)
        requires
            at < self.count(),
        ensures
            entry.key@ == self.key_at(at as int),
            self@.contains_key(entry.key@),
            self@[entry.key@] == entry.value@,
    {
        proof {
            use_type_invariant(self);
            assert(holds_key(self.entries@, at as int, self.entries@[at as int].key@));
        }
        &self.entries[at]
    }

    fn position(&self, key: &[u8]) -> (at: Option<usize>)
        ensures
            at matches Some(i) ==> holds_key(self.entries@, i as int, key@),
            at is None ==> forall|i: int| !holds_key(self.entries@, i, key@),
    {
        let mut i: usize = 0;
        while i < self.entries.len()
            invariant
                i <= self.entries@.len(),
                forall|k: int| 0 <= k < i ==> !holds_key(self.entries@, k, key@),
            decreases self.entries@.len() - i,
        {
            if same_bytes(self.entries[i].key.as_slice(), key) {
                return Some(i);
            }
            i += 1;
        }
        None
    }

    /// The value of `key`, if the block has that key.
    pub fn get(&self, key: &[u8]) -> (value: Option<&Vec<u8>>)
        ensures
            value is Some <==> self@.contains_key(key@),
            value matches Some(v) ==> v@ == self@[key@],
    {
        proof {
            use_type_invariant(self);
        }
        match self.position(key) {
            Some(at) => Some(&self.entries[at].value),
            None => None,
        }
    }

    /// Whether the block has `key`.
    pub fn contains_key(&self, key: &[u8]) -> (found: bool)
        ensures
            found == self@.contains_key(key@),
    {
        self.position(key).is_some()
    }

    /// The value of `key` read as a decimal number.
    pub fn number(&self, key: &[u8]) -> (number: Option<u32>)
        ensures
            number == if self@.contains_key(key@) {
                parse_u32(self@[key@], 10)
            } else {
                None
            },
    {
        match self.get(key) {
            Some(value) => parse_u32_radix(value.as_slice(), 10),
            None => None,
        }
    }

    /// Sets the value of `key`, replacing the one it had.
    pub fn insert(&mut self, key: Vec<u8>, value: Vec<u8>)
        ensures
            final(self)@ == old(self)@.insert(key@, value@),
    {
        proof {
            use_type_invariant(&*self);
        }
        let ghost before = self.entries@;
        let ghost k = key@;
        let ghost v = value@;
        let found = self.position(key.as_slice());
        let mut taken = InfoMap::new();
        core::mem::swap(self, &mut taken);
        let mut entries = taken.entries;
        match found {
            Some(at) => {
                entries.set(at, Entry { key, value });
                proof {
                    let after = entries@;
                    assert forall|i: int, key2: Seq<u8>|
                        holds_key(after, i, key2) <==> holds_key(before, i, key2) by {}
                    assert(distinct_keys(after));
                    assert forall|key2: Seq<u8>| #[trigger]
                        entries_map(before).insert(k, v).contains_key(key2) implies entries_map(
                        after,
                    )[key2] == entries_map(before).insert(k, v)[key2] by {
                        let i = choose|i: int| holds_key(after, i, key2);
                        if key2 == k {
                            assert(holds_key(after, at as int, key2));
                        } else {
                            let j = choose|j: int| holds_key(before, j, key2);
                            assert(holds_key(after, j, key2));
                        }
                    }
                    assert(entries_map(after) =~= entries_map(before).insert(k, v));
                }
            },
            None => {
                entries.push(Entry { key, value });
                proof {
                    let after = entries@;
                    let last = before.len() as int;
                    assert(holds_key(after, last, k));
                    assert forall|i: int, key2: Seq<u8>| holds_key(before, i, key2) implies holds_key(
                        after,
                        i,
                        key2,
                    ) by {}
                    assert forall|i: int, key2: Seq<u8>| holds_key(after, i, key2) implies (i
                        == last && key2 == k) || holds_key(before, i, key2) by {}
                    assert(distinct_keys(after)) by {
                        assert forall|i: int, j: int|
                            0 <= i < after.len() && 0 <= j < after.len() && #[trigger] after[i].key@
                                == #[trigger] after[j].key@ implies i == j by {
                            if i < last {
                                assert(holds_key(before, i, after[i].key@));
                            }
                            if j < last {
                                assert(holds_key(before, j, after[j].key@));
                            }
                        }
                    }
                    assert forall|key2: Seq<u8>| #[trigger]
                        entries_map(before).insert(k, v).contains_key(key2) implies entries_map(
                        after,
                    )[key2] == entries_map(before).insert(k, v)[key2] by {
                        if key2 == k {
                            assert(holds_key(after, last, key2));
                        } else {
                            let j = choose|j: int| holds_key(before, j, key2);
                            assert(holds_key(after, j, key2));
                        }
                        let i = choose|i: int| holds_key(after, i, key2);
                    }
                    assert(entries_map(after) =~= entries_map(before).insert(k, v));
                }
            },
        }
        *self = InfoMap { entries };
    }
}

/// Reads a key/value block: one pair from each line that holds a space.
pub fn chop(input: &[u8]) -> (map: InfoMap)
    ensures
        map@ == chopped(input@),
{
    let mut map = InfoMap::new();
    let mut pos: usize = 0;
    assert(input@.subrange(0, input@.len() as int) == input@);
    loop
        invariant
            pos <= input.len(),
            chopped(input@) == chop_into(map@, input@.subrange(pos as int, input@.len() as int)),
        decreases input.len() - pos,
    {
        let ghost rest = input@.subrange(pos as int, input@.len() as int);
        let ghost before = map@;
        let end = find_byte(input, pos, LF);
        let (from, to) = trim_bounds(input, pos, end, true);
        let text = vstd::slice::slice_subrange(input, from, to);
        let space = find_byte(text, 0, 0x20);
        proof {
            assert(rest.subrange(0, end - pos) == input@.subrange(pos as int, end as int));
            assert(text@.subrange(0, text@.len() as int) == text@);
        }
        if space < text.len() {
            let key = copy_range(text, 0, space);
            let value = copy_range(text, space + 1, text.len());
            map.insert(key, value);
        }
        assert(map@ == with_line(before, rest.subrange(0, end - pos)));
        if end >= input.len() {
            return map;
        }
        proof {
            assert(rest.subrange(end - pos + 1, rest.len() as int) == input@.subrange(
                end + 1,
                input@.len() as int,
            ));
        }
        pos = end + 1;
    }
}

} // verus!
