//! Names and prefixes: the 256-bit address space and the bit strings that cut it into sections.

use vstd::prelude::*;
use crate::bls::bytes_eq;

verus! {

/// Number of bits in a name.
pub const NAME_BITS: usize = 256;

/// A 256-bit address. Bit 0 is the most significant bit of the first byte.
#[derive(Clone, Copy, Debug, PartialEq, Eq)]
pub struct Name {
    pub bytes: [u8; 32],
}

/// A section prefix: the first `bit_count` bits of `name`. The bits after them are zero, so
/// that two prefixes of the same bits are the same value.
#[derive(Clone, Copy, Debug, PartialEq, Eq)]
pub struct Prefix {
    bit_count: u16,
    name: Name,
}

proof fn lemma_set_bit(b: u8, k: u8, q: u8)
    requires
        k < 8,
        q < 8,
    ensures
        ((b | (1u8 << k)) >> q) & 1 == (if q == k { 1u8 } else { (b >> q) & 1 }),
        ((b & !(1u8 << k)) >> q) & 1 == (if q == k { 0u8 } else { (b >> q) & 1 }),
{
    assert(((b | (1u8 << k)) >> q) & 1 == (if q == k { 1u8 } else { (b >> q) & 1 })) by (bit_vector)
        requires
            k < 8,
            q < 8,
    ;
    assert(((b & !(1u8 << k)) >> q) & 1 == (if q == k { 0u8 } else { (b >> q) & 1 })) by (bit_vector)
        requires
            k < 8,
            q < 8,
    ;
}

proof fn lemma_byte_by_bits(x: u8, y: u8)
    requires
        forall|q: u8| q < 8 ==> (x >> q) & 1 == (y >> q) & 1,
    ensures
        x == y,
{
    assert((x >> 0u8) & 1 == (y >> 0u8) & 1);
    assert((x >> 1u8) & 1 == (y >> 1u8) & 1);
    assert((x >> 2u8) & 1 == (y >> 2u8) & 1);
    assert((x >> 3u8) & 1 == (y >> 3u8) & 1);
    assert((x >> 4u8) & 1 == (y >> 4u8) & 1);
    assert((x >> 5u8) & 1 == (y >> 5u8) & 1);
    assert((x >> 6u8) & 1 == (y >> 6u8) & 1);
    assert((x >> 7u8) & 1 == (y >> 7u8) & 1);
    assert(x == y) by (bit_vector)
        requires
            (x >> 0u8) & 1 == (y >> 0u8) & 1,
            (x >> 1u8) & 1 == (y >> 1u8) & 1,
            (x >> 2u8) & 1 == (y >> 2u8) & 1,
            (x >> 3u8) & 1 == (y >> 3u8) & 1,
            (x >> 4u8) & 1 == (y >> 4u8) & 1,
            (x >> 5u8) & 1 == (y >> 5u8) & 1,
            (x >> 6u8) & 1 == (y >> 6u8) & 1,
            (x >> 7u8) & 1 == (y >> 7u8) & 1,
    ;
}

proof fn lemma_zero_byte_bits(q: u8)
    requires
        q < 8,
    ensures
        (0u8 >> q) & 1 == 0,
{
    assert((0u8 >> q) & 1 == 0) by (bit_vector)
        requires
            q < 8,
    ;
}

impl Name {
    /// Bit `i` of the name, for `0 <= i < 256`.
    pub open spec fn spec_bit(&self, i: int) -> bool {
        (self.bytes[i / 8] >> ((7 - i % 8) as u8)) & 1 == 1
    }

    /// The name's first `n` bits.
    pub open spec fn bits(&self, n: int) -> Seq<bool> {
        Seq::new(n as nat, |j: int| self.spec_bit(j))
    }

    /// The number of leading bits that two names share, counted from bit `from`.
    pub open spec fn spec_common_from(&self, other: &Name, from: int) -> int
        decreases 256 - from,
    {
        if from < 0 || from >= 256 {
            256
        } else if self.spec_bit(from) != other.spec_bit(from) {
            from
        } else {
            self.spec_common_from(other, from + 1)
        }
    }

    /// The number of leading bits that two names share.
    pub open spec fn spec_common_prefix(&self, other: &Name) -> int {
        self.spec_common_from(other, 0)
    }

    /// The name whose bytes are all zero.
    pub fn zero() -> (name: Name)
        ensures
            forall|j: int| 0 <= j < 256 ==> !name.spec_bit(j),
    {
        let name = Name { bytes: [0u8; 32] };
        proof {
            assert forall|j: int| 0 <= j < 256 implies !name.spec_bit(j) by {
                lemma_zero_byte_bits((7 - j % 8) as u8);
            }
        }
        name
    }

    /// Bit `i` of the name, counted from the most significant.
    pub fn bit(&self, i: u8) -> (b: bool)
        ensures
            b == self.spec_bit(i as int),
    {
        let byte: u8 = self.bytes[(i / 8) as usize];
        let shift: u8 = 7 - i % 8;
        (byte >> shift) & 1 == 1
    }

    /// The name with bit `i` set to `bit` and every other bit kept.
    pub fn with_bit(&self, i: u8, bit: bool) -> (name: Name)
        ensures
            forall|j: int|
                0 <= j < 256 ==> name.spec_bit(j) == (if j == i {
                    bit
                } else {
                    self.spec_bit(j)
                }),
    {
        let index: usize = (i / 8) as usize;
        let shift: u8 = 7 - i % 8;
        let old_byte: u8 = self.bytes[index];
        let new_byte: u8 = if bit {
            old_byte | (1u8 << shift)
        } else {
            old_byte & !(1u8 << shift)
        };
        let mut bytes: [u8; 32] = self.bytes;
        bytes[index] = new_byte;
        let name = Name { bytes };
        proof {
            assert forall|j: int| 0 <= j < 256 implies name.spec_bit(j) == (if j == i {
                bit
            } else {
                self.spec_bit(j)
            }) by {
                if j / 8 == index {
                    lemma_set_bit(old_byte, shift, (7 - j % 8) as u8);
                }
            }
        }
        name
    }

    /// The age that a name carries: its last byte.
    pub fn age(&self) -> (age: u8)
        ensures
            age == self.bytes[31],
    {
        self.bytes[31]
    }

    /// Whether the two are the same.
    pub fn same(&self, other: &Name) -> (r: bool)
        ensures
            r == (*self == *other),
    {
        bytes_eq(&self.bytes, &other.bytes)
    }

    /// The first index at or after `from` at which the two names' bytes differ, or 32.
    pub open spec fn spec_first_diff(&self, other: &Name, from: int) -> int
        decreases 32 - from,
    {
        if from < 0 || from >= 32 {
            32
        } else if self.bytes[from] != other.bytes[from] {
            from
        } else {
            self.spec_first_diff(other, from + 1)
        }
    }

    /// Whether `self` comes before `other` when both are read as big-endian numbers.
    pub open spec fn spec_lt(&self, other: &Name) -> bool {
        let d = self.spec_first_diff(other, 0);
        d < 32 && self.bytes[d] < other.bytes[d]
    }

    /// Whether `self` comes before `other` when both are read as big-endian numbers.
    pub fn lt(&self, other: &Name) -> (r: bool)
        ensures
            r == self.spec_lt(other),
    {
        let mut i: usize = 0;
        while i < 32
            invariant
                i <= 32,
                self.spec_first_diff(other, 0) == self.spec_first_diff(other, i as int),
            decreases 32 - i,
        {
            if self.bytes[i] != other.bytes[i] {
                return self.bytes[i] < other.bytes[i];
            }
            i += 1;
        }
        false
    }

    /// The number of leading bits that the two names share.
    pub fn common_prefix(&self, other: &Name) -> (n: usize)
        ensures
            n == self.spec_common_prefix(other),
            n <= 256,
            forall|j: int| 0 <= j < n ==> self.spec_bit(j) == other.spec_bit(j),
            n < 256 ==> self.spec_bit(n as int) != other.spec_bit(n as int),
    {
        let mut i: usize = 0;
        while i < 256
            invariant
                i <= 256,
                forall|j: int| 0 <= j < i ==> self.spec_bit(j) == other.spec_bit(j),
                self.spec_common_prefix(other) == self.spec_common_from(other, i as int),
            decreases 256 - i,
        {
            if self.bit(i as u8) != other.bit(i as u8) {
                return i;
            }
            i += 1;
        }
        i
    }
}

/// Where the first difference lies: the names agree before it and differ at it.
pub proof fn lemma_first_diff(a: Name, b: Name, from: int)
    requires
        0 <= from <= 32,
    ensures
        from <= a.spec_first_diff(&b, from) <= 32,
        forall|j: int| from <= j < a.spec_first_diff(&b, from) ==> a.bytes[j] == b.bytes[j],
        a.spec_first_diff(&b, from) < 32 ==> a.bytes[a.spec_first_diff(&b, from)]
            != b.bytes[a.spec_first_diff(&b, from)],
    decreases 32 - from,
{
    if from < 32 && a.bytes[from] == b.bytes[from] {
        lemma_first_diff(a, b, from + 1);
    }
}

/// An index before which two names agree and at which they differ is their first difference.
pub proof fn lemma_first_diff_is(a: Name, b: Name, from: int, d: int)
    requires
        0 <= from <= d <= 32,
        forall|j: int| from <= j < d ==> a.bytes[j] == b.bytes[j],
        d < 32 ==> a.bytes[d] != b.bytes[d],
    ensures
        a.spec_first_diff(&b, from) == d,
    decreases d - from,
{
    if from < d {
        lemma_first_diff_is(a, b, from + 1, d);
    }
}

/// The order of names is transitive.
pub proof fn lemma_lt_transitive(a: Name, b: Name, c: Name)
    requires
        a.spec_lt(&b),
        b.spec_lt(&c),
    ensures
        a.spec_lt(&c),
{
    lemma_first_diff(a, b, 0);
    lemma_first_diff(b, c, 0);
    let i = a.spec_first_diff(&b, 0);
    let j = b.spec_first_diff(&c, 0);
    let k = if i <= j { i } else { j };
    lemma_first_diff_is(a, c, 0, k);
}

/// Of two names, one comes before the other or they are the same; never both ways.
pub proof fn lemma_lt_total(a: Name, b: Name)
    ensures
        a.spec_lt(&b) || a == b || b.spec_lt(&a),
        !(a.spec_lt(&b) && b.spec_lt(&a)),
        !a.spec_lt(&a),
{
    lemma_first_diff(a, b, 0);
    lemma_first_diff(b, a, 0);
    lemma_first_diff(a, a, 0);
    let d = a.spec_first_diff(&b, 0);
    lemma_first_diff_is(b, a, 0, d);
    if d == 32 {
        assert(a.bytes =~= b.bytes);
    }
}

/// Two names of the same 256 bits are the same name.
pub proof fn lemma_name_by_bits(a: Name, b: Name)
    requires
        forall|j: int| 0 <= j < 256 ==> a.spec_bit(j) == b.spec_bit(j),
    ensures
        a == b,
{
    assert forall|k: int| 0 <= k < 32 implies a.bytes[k] == b.bytes[k] by {
        let x = a.bytes[k];
        let y = b.bytes[k];
        assert forall|q: u8| q < 8 implies (x >> q) & 1 == (y >> q) & 1 by {
            let j = 8 * k + (7 - q);
            assert(j / 8 == k && (7 - j % 8) as u8 == q);
            assert(a.spec_bit(j) == b.spec_bit(j));
            assert((x >> q) & 1 == 0 || (x >> q) & 1 == 1) by (bit_vector);
            assert((y >> q) & 1 == 0 || (y >> q) & 1 == 1) by (bit_vector);
        }
        lemma_byte_by_bits(x, y);
    }
    assert(a.bytes =~= b.bytes);
}

/// The bits with the last one flipped.
pub open spec fn spec_flip_last(bits: Seq<bool>) -> Seq<bool> {
    if bits.len() > 0 {
        bits.drop_last().push(!bits.last())
    } else {
        bits
    }
}

impl View for Prefix {
    type V = Seq<bool>;

    /// The prefix as its bits.
    closed spec fn view(&self) -> Seq<bool> {
        self.name.bits(self.bit_count as int)
    }
}

impl Prefix {
    /// At most 256 bits, and nothing but zeros after them. Every prefix that the program
    /// holds is of this form.
    #[verifier::type_invariant]
    pub closed spec fn wf(&self) -> bool {
        &&& self.bit_count <= 256
        &&& forall|j: int| self.bit_count <= j < 256 ==> !self.name.spec_bit(j)
    }

    /// The number of bits of the prefix.
    pub closed spec fn spec_bit_count(&self) -> int {
        self.bit_count as int
    }

    /// The prefix's bits followed by zeros.
    pub closed spec fn spec_name(&self) -> Name {
        self.name
    }

    /// Whether the name starts with the prefix's bits.
    pub open spec fn spec_matches(&self, name: &Name) -> bool {
        name.bits(self@.len() as int) == self@
    }

    /// Whether one of the two prefixes starts with the other.
    pub open spec fn spec_compatible(&self, other: &Prefix) -> bool {
        self@.is_prefix_of(other@) || other@.is_prefix_of(self@)
    }

    /// Whether `self` starts with `other` and is longer.
    pub open spec fn spec_extension_of(&self, other: &Prefix) -> bool {
        other@.is_prefix_of(self@) && other@.len() < self@.len()
    }

    /// The prefix of the given length whose bits, followed by zeros, make up the name; none
    /// where the length is over 256 or the name goes on after it.
    pub closed spec fn spec_from_parts(bit_count: u16, name: Name) -> Option<Prefix> {
        if bit_count <= 256 && forall|j: int| bit_count <= j < 256 ==> !name.spec_bit(j) {
            Some(Prefix { bit_count, name })
        } else {
            None
        }
    }

    /// A prefix is made up again of its length and its name.
    pub proof fn lemma_from_parts(&self)
        requires
            self.wf(),
        ensures
            Prefix::spec_from_parts(self.spec_bit_count() as u16, self.spec_name()) == Some(*self),
            0 <= self.spec_bit_count() <= 256,
    {
    }

    /// What is made up of a length and a name has that length and that name.
    pub proof fn lemma_parts(bit_count: u16, name: Name)
        ensures
            Prefix::spec_from_parts(bit_count, name) matches Some(p) ==> p.wf() && p.spec_bit_count()
                == bit_count && p.spec_name() == name,
    {
    }

    /// The prefix of the given length whose bits, followed by zeros, make up the name; none
    /// where the length is over 256 or the name goes on after it.
    pub fn from_parts(bit_count: u16, name: Name) -> (r: Option<Prefix>)
        ensures
            r == Prefix::spec_from_parts(bit_count, name),
            r matches Some(p) ==> p.wf(),
    {
        if bit_count > 256 {
            return None;
        }
        let mut i: usize = bit_count as usize;
        while i < 256
            invariant
                bit_count <= i <= 256,
                forall|j: int| bit_count <= j < i ==> !name.spec_bit(j),
            decreases 256 - i,
        {
            if name.bit(i as u8) {
                return None;
            }
            i += 1;
        }
        Some(Prefix { bit_count, name })
    }

    /// The empty prefix, which every name matches.
    pub closed spec fn spec_empty() -> Prefix {
        choose|p: Prefix| p.wf() && p@ == Seq::<bool>::empty()
    }

    /// The empty prefix, which every name matches.
    pub fn empty() -> (p: Prefix)
        ensures
            p.wf(),
            p@ == Seq::<bool>::empty(),
            p == Prefix::spec_empty(),
    {
        let p = Prefix { bit_count: 0, name: Name::zero() };
        proof {
            assert(p@ =~= Seq::<bool>::empty());
            lemma_prefix_by_bits(p, Prefix::spec_empty());
        }
        p
    }

    /// The first `bit_count` bits of `name` (all of them where `bit_count` is over 256).
    pub fn new(bit_count: usize, name: Name) -> (p: Prefix)
        ensures
            p.wf(),
            p@ == name.bits(if bit_count <= 256 { bit_count as int } else { 256 }),
    {
        let count: usize = if bit_count <= 256 {
            bit_count
        } else {
            256
        };
        let mut masked: Name = name;
        let mut i: usize = count;
        while i < 256
            invariant
                count <= i <= 256,
                forall|j: int| 0 <= j < count ==> masked.spec_bit(j) == name.spec_bit(j),
                forall|j: int| count <= j < i ==> !masked.spec_bit(j),
            decreases 256 - i,
        {
            masked = masked.with_bit(i as u8, false);
            i += 1;
        }
        let p = Prefix { bit_count: count as u16, name: masked };
        assert(p@ =~= name.bits(count as int));
        p
    }

    /// The number of bits of the prefix.
    pub fn bit_count(&self) -> (n: usize)
        ensures
            n == self@.len(),
            n == self.spec_bit_count(),
    {
        self.bit_count as usize
    }

    /// The prefix's bits followed by zeros.
    pub fn name(&self) -> (name: Name)
        ensures
            name == self.spec_name(),
    {
        self.name
    }

    /// Whether the prefix has no bits.
    pub fn is_empty(&self) -> (r: bool)
        ensures
            r == (self@.len() == 0),
    {
        self.bit_count == 0
    }

    /// The prefix with one more bit; a prefix of 256 bits stays as it is.
    pub fn pushed(&self, bit: bool) -> (p: Prefix)
        ensures
            p.wf(),
            p@ == (if self@.len() < 256 { self@.push(bit) } else { self@ }),
    {
        proof {
            use_type_invariant(self);
        }
        if self.bit_count < 256 {
            let p = Prefix {
                bit_count: self.bit_count + 1,
                name: self.name.with_bit(self.bit_count as u8, bit),
            };
            assert(p@ =~= self@.push(bit));
            p
        } else {
            *self
        }
    }

    /// The prefix without its last bit; the empty prefix stays as it is.
    pub fn popped(&self) -> (p: Prefix)
        ensures
            p.wf(),
            p@ == (if self@.len() > 0 { self@.drop_last() } else { self@ }),
    {
        proof {
            use_type_invariant(self);
        }
        if self.bit_count > 0 {
            let p = Prefix {
                bit_count: self.bit_count - 1,
                name: self.name.with_bit((self.bit_count - 1) as u8, false),
            };
            assert(p@ =~= self@.drop_last());
            p
        } else {
            *self
        }
    }

    /// The prefix with its last bit flipped; the empty prefix stays as it is.
    pub closed spec fn spec_sibling(&self) -> Prefix {
        choose|q: Prefix| q.wf() && q@ == spec_flip_last(self@)
    }

    /// The prefix with its last bit flipped; the empty prefix stays as it is.
    pub fn sibling(&self) -> (p: Prefix)
        ensures
            p.wf(),
            p@ == spec_flip_last(self@),
            p == self.spec_sibling(),
    {
        proof {
            use_type_invariant(self);
        }
        let p = if self.bit_count > 0 {
            let last: u8 = (self.bit_count - 1) as u8;
            let p = Prefix {
                bit_count: self.bit_count,
                name: self.name.with_bit(last, !self.name.bit(last)),
            };
            assert(p@ =~= self@.drop_last().push(!self@.last()));
            p
        } else {
            *self
        };
        proof {
            lemma_prefix_by_bits(p, self.spec_sibling());
        }
        p
    }

    /// The number of leading bits that the prefix and the name share, at most the prefix's
    /// length.
    pub fn common_prefix(&self, name: &Name) -> (n: usize)
        ensures
            n == self.spec_common_prefix(name),
    {
        proof {
            use_type_invariant(self);
        }
        let shared: usize = self.name.common_prefix(name);
        if shared < self.bit_count as usize {
            shared
        } else {
            self.bit_count as usize
        }
    }

    /// The number of leading bits that the prefix and the name share, at most the prefix's
    /// length.
    pub open spec fn spec_common_prefix(&self, name: &Name) -> int {
        let shared = self.spec_name().spec_common_prefix(name);
        if shared < self.spec_bit_count() {
            shared
        } else {
            self.spec_bit_count()
        }
    }

    /// Whether the name starts with the prefix's bits.
    pub fn matches(&self, name: &Name) -> (r: bool)
        ensures
            r == self.spec_matches(name),
    {
        proof {
            use_type_invariant(self);
        }
        let shared: usize = self.name.common_prefix(name);
        let r = shared >= self.bit_count as usize;
        proof {
            if r {
                assert(name.bits(self@.len() as int) =~= self@);
            } else {
                assert(self@[shared as int] == self.name.spec_bit(shared as int));
                assert(name.bits(self@.len() as int)[shared as int] == name.spec_bit(
                    shared as int,
                ));
                assert(name.bits(self@.len() as int)[shared as int] != self@[shared as int]);
            }
        }
        r
    }

    /// Whether one of the two prefixes starts with the other.
    pub fn is_compatible(&self, other: &Prefix) -> (r: bool)
        ensures
            r == self.spec_compatible(other),
    {
        proof {
            use_type_invariant(self);
            use_type_invariant(other);
        }
        let shared: usize = self.name.common_prefix(&other.name);
        let r = shared >= self.bit_count as usize || shared >= other.bit_count as usize;
        proof {
            if shared >= self.bit_count {
                if self.bit_count <= other.bit_count {
                    assert(self@.is_prefix_of(other@)) by {
                        assert(self@ =~= other@.subrange(0, self@.len() as int));
                    }
                } else {
                    assert(other@.is_prefix_of(self@)) by {
                        assert(other@ =~= self@.subrange(0, other@.len() as int));
                    }
                }
            } else if shared >= other.bit_count {
                assert(other@.is_prefix_of(self@)) by {
                    assert(other@ =~= self@.subrange(0, other@.len() as int));
                }
            } else {
                assert(self@[shared as int] == self.name.spec_bit(shared as int));
                assert(other@[shared as int] == other.name.spec_bit(shared as int));
                assert(self@[shared as int] != other@[shared as int]);
                if self@.is_prefix_of(other@) {
                    assert(self@ == other@.subrange(0, self@.len() as int));
                    assert(other@.subrange(0, self@.len() as int)[shared as int] == other@[shared as int]);
                }
                if other@.is_prefix_of(self@) {
                    assert(other@ == self@.subrange(0, other@.len() as int));
                    assert(self@.subrange(0, other@.len() as int)[shared as int] == self@[shared as int]);
                }
            }
        }
        r
    }

    /// Whether `self` starts with `other` and is longer.
    pub fn is_extension_of(&self, other: &Prefix) -> (r: bool)
        ensures
            r == self.spec_extension_of(other),
    {
        proof {
            use_type_invariant(self);
            use_type_invariant(other);
        }
        let shared: usize = self.name.common_prefix(&other.name);
        let r = shared >= other.bit_count as usize && self.bit_count > other.bit_count;
        proof {
            if self.bit_count > other.bit_count {
                if shared >= other.bit_count {
                    assert(other@ =~= self@.subrange(0, other@.len() as int));
                } else {
                    assert(self@[shared as int] == self.name.spec_bit(shared as int));
                    assert(other@[shared as int] == other.name.spec_bit(shared as int));
                    assert(self@[shared as int] != other@[shared as int]);
                    if other@.is_prefix_of(self@) {
                        assert(other@ == self@.subrange(0, other@.len() as int));
                        assert(self@.subrange(0, other@.len() as int)[shared as int]
                            == self@[shared as int]);
                    }
                }
            }
        }
        r
    }

    /// Whether the two are the same.
    pub fn same(&self, other: &Prefix) -> (r: bool)
        ensures
            r == (*self == *other),
    {
        self.bit_count == other.bit_count && self.name.same(&other.name)
    }
}

/// Two well-formed prefixes of the same bits are the same value.
pub proof fn lemma_prefix_by_bits(p: Prefix, q: Prefix)
    requires
        p.wf(),
        q.wf(),
        p@ == q@,
    ensures
        p == q,
{
    assert(p@.len() == p.bit_count as nat);
    assert(q@.len() == q.bit_count as nat);
    assert(p.bit_count == q.bit_count);
    assert forall|j: int| 0 <= j < 256 implies p.name.spec_bit(j) == q.name.spec_bit(j) by {
        if j < p.bit_count {
            assert(p@[j] == p.name.spec_bit(j));
            assert(q@[j] == q.name.spec_bit(j));
        }
    }
    lemma_name_by_bits(p.name, q.name);
}

} // verus!
