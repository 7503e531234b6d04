//! Byte strings: literals, searching, trimming and copying.

use vstd::prelude::*;

verus! {

/// The line feed that ends a line and frames a request.
pub const LF: u8 = 10;

/// The bytes of an ASCII text.
pub open spec fn ascii(text: Seq<char>) -> Seq<u8> {
    Seq::new(text.len(), |i: int| text[i] as u8)
}

/// The bytes of an ASCII string literal.
pub fn literal(text: &str) -> (bytes: &[u8])
    requires
        vstd::string::is_ascii(text),
    ensures
        bytes@ == ascii(text@),
{
    broadcast use vstd::string::is_ascii_spec_bytes;

    text.as_bytes()
}

/// `needle` stands in `hay` at index `at`.
pub open spec fn occurs_at(hay: Seq<u8>, needle: Seq<u8>, at: int) -> bool {
    &&& 0 <= at
    &&& at + needle.len() <= hay.len()
    &&& hay.subrange(at, at + needle.len()) == needle
}

/// `needle` stands somewhere in `hay`.
pub open spec fn contains(hay: Seq<u8>, needle: Seq<u8>) -> bool {
    exists|at: int| occurs_at(hay, needle, at)
}

/// `text` begins with `prefix`.
pub open spec fn starts_with(text: Seq<u8>, prefix: Seq<u8>) -> bool {
    occurs_at(text, prefix, 0)
}

/// The index of the first `byte` in `text`, or the length of `text` if there is none.
pub open spec fn first_index(text: Seq<u8>, byte: u8) -> int
    decreases text.len(),
{
    if text.len() == 0 || text[0] == byte {
        0
    } else {
        1 + first_index(text.drop_first(), byte)
    }
}

/// `first_index` is the least index that holds `byte`.
pub proof fn lemma_first_index(text: Seq<u8>, byte: u8)
    ensures
        0 <= first_index(text, byte) <= text.len(),
        first_index(text, byte) < text.len() ==> text[first_index(text, byte)] == byte,
        forall|i: int| 0 <= i < first_index(text, byte) ==> text[i] != byte,
    decreases text.len(),
{
    if text.len() == 0 || text[0] == byte {
    } else {
        let rest = text.drop_first();
        lemma_first_index(rest, byte);
        assert forall|i: int| 0 <= i < first_index(text, byte) implies text[i] != byte by {
            if i > 0 {
                assert(rest[i - 1] == text[i]);
            }
        }
    }
}

/// An index that holds `byte` and has none before it is the first index.
pub proof fn lemma_first_index_is(text: Seq<u8>, byte: u8, at: int)
    requires
        0 <= at <= text.len(),
        at < text.len() ==> text[at] == byte,
        forall|i: int| 0 <= i < at ==> text[i] != byte,
    ensures
        first_index(text, byte) == at,
{
    lemma_first_index(text, byte);
    let first = first_index(text, byte);
    if first < at {
        assert(text[first] != byte);
    }
}

/// White space as `str::trim` sees it within ASCII: space, tab, line feed,
/// vertical tab, form feed and carriage return.
pub open spec fn is_space(byte: u8) -> bool {
    byte == 0x20 || (0x09 <= byte && byte <= 0x0d)
}

/// `text` without the leading bytes that satisfy `drop`.
pub open spec fn trim_start_by(text: Seq<u8>, drop: spec_fn(u8) -> bool) -> Seq<u8>
    decreases text.len(),
{
    if text.len() > 0 && drop(text[0]) {
        trim_start_by(text.drop_first(), drop)
    } else {
        text
    }
}

/// `text` without the trailing bytes that satisfy `drop`.
pub open spec fn trim_end_by(text: Seq<u8>, drop: spec_fn(u8) -> bool) -> Seq<u8>
    decreases text.len(),
{
    if text.len() > 0 && drop(text.last()) {
        trim_end_by(text.drop_last(), drop)
    } else {
        text
    }
}

/// `text` without white space at either end.
pub open spec fn trim(text: Seq<u8>) -> Seq<u8> {
    trim_end_by(trim_start_by(text, |b: u8| is_space(b)), |b: u8| is_space(b))
}

/// `text` without NUL bytes at its end.
pub open spec fn trim_trailing_nuls(text: Seq<u8>) -> Seq<u8> {
    trim_end_by(text, |b: u8| b == 0)
}

/// Trimming at the front leaves the suffix that starts at the first byte to keep.
pub proof fn lemma_trim_start_by(text: Seq<u8>, drop: spec_fn(u8) -> bool, from: int)
    requires
        0 <= from <= text.len(),
        forall|i: int| 0 <= i < from ==> drop(#[trigger] text[i]),
        from < text.len() ==> !drop(text[from]),
    ensures
        trim_start_by(text, drop) == text.subrange(from, text.len() as int),
    decreases text.len(),
{
    if from == 0 {
        assert(text.subrange(0, text.len() as int) == text);
    } else {
        assert(drop(text[0]));
        let rest = text.drop_first();
        assert forall|i: int| 0 <= i < from - 1 implies drop(#[trigger] rest[i]) by {
            assert(rest[i] == text[i + 1]);
        }
        lemma_trim_start_by(rest, drop, from - 1);
        assert(rest.subrange(from - 1, rest.len() as int) == text.subrange(
            from,
            text.len() as int,
        ));
    }
}

/// Trimming at the end leaves the prefix that ends behind the last byte to keep.
pub proof fn lemma_trim_end_by(text: Seq<u8>, drop: spec_fn(u8) -> bool, to: int)
    requires
        0 <= to <= text.len(),
        forall|i: int| to <= i < text.len() ==> drop(#[trigger] text[i]),
        to > 0 ==> !drop(text[to - 1]),
    ensures
        trim_end_by(text, drop) == text.subrange(0, to),
    decreases text.len(),
{
    if to == text.len() {
        assert(text.subrange(0, to) == text);
    } else {
        assert(drop(text[text.len() - 1]));
        let rest = text.drop_last();
        assert forall|i: int| to <= i < rest.len() implies drop(#[trigger] rest[i]) by {
            assert(rest[i] == text[i]);
        }
        lemma_trim_end_by(rest, drop, to);
        assert(rest.subrange(0, to) == text.subrange(0, to));
    }
}

/// Whether `needle` stands in `hay` at `at`.
pub fn matches_at(hay: &[u8], needle: &[u8], at: usize) -> (found: bool)
    ensures
        found == occurs_at(hay@, needle@, at as int),
{
    if needle.len() > hay.len() || at > hay.len() - needle.len() {
        return false;
    }
    let mut i: usize = 0;
    while i < needle.len()
        invariant
            i <= needle.len(),
            at + needle.len() <= hay.len(),
            hay@.subrange(at as int, at + i) == needle@.subrange(0, i as int),
        decreases needle.len() - i,
    {
        if hay[at + i] != needle[i] {
            proof {
                let window = hay@.subrange(at as int, at + needle.len());
                assert(window[i as int] != needle@[i as int]);
            }
            return false;
        }
        proof {
            assert(hay@.subrange(at as int, at + i + 1) == hay@.subrange(at as int, at + i).push(
                hay@[at + i],
            ));
            assert(needle@.subrange(0, i + 1) == needle@.subrange(0, i as int).push(
                needle@[i as int],
            ));
        }
        i += 1;
    }
    assert(needle@.subrange(0, i as int) == needle@);
    true
}

/// Whether `needle` stands somewhere in `hay`.
pub fn contains_subslice(hay: &[u8], needle: &[u8]) -> (found: bool)
    ensures
        found == contains(hay@, needle@),
{
    if needle.len() > hay.len() {
        return false;
    }
    let last: usize = hay.len() - needle.len();
    let mut at: usize = 0;
    loop
        invariant
            at <= last,
            last == hay.len() - needle.len(),
            forall|k: int| 0 <= k < at ==> !occurs_at(hay@, needle@, k),
        decreases last - at,
    {
        if matches_at(hay, needle, at) {
            return true;
        }
        if at == last {
            return false;
        }
        at += 1;
    }
}

/// Whether `text` begins with `prefix`.
pub fn has_prefix(text: &[u8], prefix: &[u8]) -> (found: bool)
    ensures
        found == starts_with(text@, prefix@),
{
    matches_at(text, prefix, 0)
}

/// Whether two byte strings are equal.
pub fn same_bytes(left: &[u8], right: &[u8]) -> (same: bool)
    ensures
        same == (left@ == right@),
{
    if left.len() != right.len() {
        return false;
    }
    let found = matches_at(left, right, 0);
    assert(left@.subrange(0, left@.len() as int) == left@);
    found
}

/// Appends `tail` to `out`.
pub fn append(out: &mut Vec<u8>, tail: &[u8])
    ensures
        final(out)@ == old(out)@ + tail@,
{
    let mut i: usize = 0;
    while i < tail.len()
        invariant
            i <= tail.len(),
            out@ == old(out)@ + tail@.subrange(0, i as int),
        decreases tail.len() - i,
    {
        out.push(tail[i]);
        i += 1;
    }
    assert(tail@.subrange(0, i as int) == tail@);
}

/// A copy of `text[from..to]`.
pub fn copy_range(text: &[u8], from: usize, to: usize) -> (out: Vec<u8>)
    requires
        from <= to <= text.len(),
    ensures
        out@ == text@.subrange(from as int, to as int),
{
    let mut out: Vec<u8> = Vec::new();
    let mut i: usize = from;
    while i < to
        invariant
            from <= i <= to <= text.len(),
            out@ == text@.subrange(from as int, i as int),
        decreases to - i,
    {
        out.push(text[i]);
        i += 1;
    }
    out
}

/// The index of the first `byte` at or behind `from`, or the length of `text`.
pub fn find_byte(text: &[u8], from: usize, byte: u8) -> (at: usize)
    requires
        from <= text.len(),
    ensures
        at == from + first_index(text@.subrange(from as int, text@.len() as int), byte),
        from <= at <= text.len(),
{
    let mut at: usize = from;
    while at < text.len() && text[at] != byte
        invariant
            from <= at <= text.len(),
            forall|i: int| from <= i < at ==> text@[i] != byte,
        decreases text.len() - at,
    {
        at += 1;
    }
    proof {
        let rest = text@.subrange(from as int, text@.len() as int);
        lemma_first_index_is(rest, byte, at - from);
    }
    at
}

/// The bounds of `text[from..to]` without white space at either end and then
/// without NUL bytes at its end.
pub fn trim_bounds(text: &[u8], from: usize, to: usize, nuls: bool) -> (bounds: (usize, usize))
    requires
        from <= to <= text.len(),
    ensures
        from <= bounds.0 <= bounds.1 <= to,
        text@.subrange(bounds.0 as int, bounds.1 as int) == if nuls {
            trim_trailing_nuls(trim(text@.subrange(from as int, to as int)))
        } else {
            trim(text@.subrange(from as int, to as int))
        },
{
    let ghost line = text@.subrange(from as int, to as int);
    let mut start: usize = from;
    while start < to && is_space_byte(text[start])
        invariant
            from <= start <= to <= text.len(),
            forall|i: int| from <= i < start ==> is_space(text@[i]),
        decreases to - start,
    {
        start += 1;
    }
    let mut end: usize = to;
    while end > start && is_space_byte(text[end - 1])
        invariant
            start <= end <= to <= text.len(),
            forall|i: int| end <= i < to ==> is_space(text@[i]),
        decreases end,
    {
        end -= 1;
    }
    let ghost mid = text@.subrange(start as int, to as int);
    proof {
        lemma_trim_start_by(line, |b: u8| is_space(b), start - from);
        assert(line.subrange(start - from, line.len() as int) == mid);
        lemma_trim_end_by(mid, |b: u8| is_space(b), end - start);
        assert(mid.subrange(0, end - start) == text@.subrange(start as int, end as int));
    }
    if !nuls {
        return (start, end);
    }
    let ghost trimmed = text@.subrange(start as int, end as int);
    let mut stop: usize = end;
    while stop > start && text[stop - 1] == 0
        invariant
            start <= stop <= end <= text.len(),
            forall|i: int| stop <= i < end ==> text@[i] == 0,
        decreases stop,
    {
        stop -= 1;
    }
    proof {
        lemma_trim_end_by(trimmed, |b: u8| b == 0, stop - start);
        assert(trimmed.subrange(0, stop - start) == text@.subrange(start as int, stop as int));
    }
    (start, stop)
}

/// Whether `byte` is white space.
pub fn is_space_byte(byte: u8) -> (space: bool)
    ensures
        space == is_space(byte),
{
    byte == 0x20 || (0x09 <= byte && byte <= 0x0d)
}

} // verus!
