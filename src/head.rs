use vstd::prelude::*;

verus! {

/// The major type of an initial byte, as a number in `0..8`.
pub open spec fn major_type_of(b: u8) -> u8 {
    (b / 32) as u8
}

/// The additional information of an initial byte, in `0..32`.
pub open spec fn ai_of(b: u8) -> u8 {
    b % 32
}

/// How many bytes follow the initial byte for a given additional information.
/// Values 28..=30 are reserved; they are given 0 here and rejected elsewhere.
pub open spec fn following_len(ai: u8) -> nat {
    if ai == 24 {
        1
    } else if ai == 25 {
        2
    } else if ai == 26 {
        4
    } else if ai == 27 {
        8
    } else {
        0
    }
}

/// Additional information 28, 29 and 30 is reserved in every major type.
pub open spec fn is_reserved_ai(ai: u8) -> bool {
    28 <= ai <= 30
}

/// The indefinite-length marker is allowed for strings, arrays, maps and
/// the break code, never for integers or tags.
pub open spec fn indefinite_allowed(major: u8) -> bool {
    major == 2 || major == 3 || major == 4 || major == 5 || major == 7
}

/// The unsigned big-endian number that a byte sequence spells.
pub open spec fn be_value(s: Seq<u8>) -> nat
    decreases s.len(),
{
    if s.len() == 0 {
        0
    } else {
        (be_value(s.drop_last()) * 256 + s.last()) as nat
    }
}

/// `256` to the power `n`.
pub open spec fn pow256(n: nat) -> nat
    decreases n,
{
    if n == 0 {
        1
    } else {
        256 * pow256((n - 1) as nat)
    }
}

/// Whether an initial byte and its following bytes form a well-formed header.
pub open spec fn header_sound(ib: u8, following: Seq<u8>) -> bool {
    let ai = ai_of(ib);
    if is_reserved_ai(ai) {
        false
    } else if ai == 31 {
        following.len() == 0 && indefinite_allowed(major_type_of(ib))
    } else {
        following.len() == following_len(ai)
    }
}

/// The numeric argument of a header: none for an unsound header or for the
/// indefinite-length marker.
pub open spec fn header_argument(ib: u8, following: Seq<u8>) -> Option<u64> {
    if !header_sound(ib, following) || ai_of(ib) == 31 {
        None
    } else if ai_of(ib) < 24 {
        Some(ai_of(ib) as u64)
    } else {
        Some(be_value(following) as u64)
    }
}

/// Masking the top three bits keeps the major type in place.
pub proof fn lemma_mask_major(b: u8)
    ensures
        b & 0xE0 == major_type_of(b) * 32,
{
    assert(b & 0xE0 == (b / 32) * 32) by (bit_vector);
}

/// Masking the low five bits gives the additional information.
pub proof fn lemma_mask_ai(b: u8)
    ensures
        b & 0x1F == ai_of(b),
{
    assert(b & 0x1F == b % 32) by (bit_vector);
}

/// The powers of 256 that fit in 64 bits and the first that does not.
pub proof fn lemma_pow256_values()
    ensures
        pow256(0) == 1,
        pow256(1) == 0x100,
        pow256(2) == 0x1_0000,
        pow256(3) == 0x100_0000,
        pow256(4) == 0x1_0000_0000,
        pow256(5) == 0x100_0000_0000,
        pow256(6) == 0x1_0000_0000_0000,
        pow256(7) == 0x100_0000_0000_0000,
        pow256(8) == 0x1_0000_0000_0000_0000,
{
    reveal_with_fuel(pow256, 9);
}

/// Powers of 256 grow with the exponent.
pub proof fn lemma_pow256_monotone(a: nat, b: nat)
    requires
        a <= b,
    ensures
        pow256(a) <= pow256(b),
    decreases b,
{
    if a < b {
        lemma_pow256_monotone(a, (b - 1) as nat);
    }
}

/// Appending one byte multiplies the big-endian value by 256 and adds it.
pub proof fn lemma_be_value_push(s: Seq<u8>, b: u8)
    ensures
        be_value(s.push(b)) == be_value(s) * 256 + b,
{
    assert(s.push(b).drop_last() =~= s);
}

/// A sequence of `n` bytes spells a value below `256^n`.
pub proof fn lemma_be_value_bound(s: Seq<u8>)
    ensures
        be_value(s) < pow256(s.len()),
    decreases s.len(),
{
    if s.len() > 0 {
        let t = s.drop_last();
        lemma_be_value_bound(t);
        let v = be_value(t);
        let p = pow256(t.len());
        let b = s.last();
        assert(v * 256 + b < 256 * p) by (nonlinear_arith)
            requires
                v < p,
                b < 256,
        ;
    }
}

/// The header of one item: its initial byte and the bytes that follow it.
#[derive(Clone, Copy, PartialEq, Debug)]
pub struct Head<'a> {
    pub initial_byte: u8,
    pub following_bytes: &'a [u8],
}

impl<'a> Head<'a> {
    pub const MAJOR_TYPE_MASK: u8 = 0xE0;

    pub const ADDITIONAL_INFORMATION_MASK: u8 = 0x1F;

    /// See `header_sound`.
    pub open spec fn is_sound_spec(&self) -> bool {
        header_sound(self.initial_byte, self.following_bytes@)
    }

    /// See `header_argument`.
    pub open spec fn argument_spec(&self) -> Option<u64> {
        header_argument(self.initial_byte, self.following_bytes@)
    }

    /// A header from its parts, taken as they are.
    pub fn new(initial_byte: u8, following_bytes: &'a [u8]) -> (r: Head<'a>)
        ensures
            r.initial_byte == initial_byte,
            r.following_bytes == following_bytes,
    {
        Head { initial_byte, following_bytes }
    }

    /// The major type, left in place in the top three bits.
    pub fn major_type(&self) -> (r: u8)
        ensures
            r == major_type_of(self.initial_byte) * 32,
    {
        proof {
            lemma_mask_major(self.initial_byte);
        }
        self.initial_byte & Self::MAJOR_TYPE_MASK
    }

    /// The additional information, in the low five bits.
    pub fn additional_information(&self) -> (r: u8)
        ensures
            r == ai_of(self.initial_byte),
    {
        proof {
            lemma_mask_ai(self.initial_byte);
        }
        self.initial_byte & Self::ADDITIONAL_INFORMATION_MASK
    }

    /// The argument that the header carries, if it is sound and not the
    /// indefinite-length marker.
    pub fn argument(&self) -> (r: Option<u64>)
        ensures
            r == self.argument_spec(),
    {
        if !self.is_sound() {
            return None;
        }
        let ai = self.additional_information();
        if ai < 24 {
            Some(ai as u64)
        } else if ai == 31 {
            None
        } else {
            let bytes = self.following_bytes;
            let mut arg: u64 = 0;
            let mut i: usize = 0;
            while i < bytes.len()
                invariant
                    bytes@.len() <= 8,
                    0 <= i <= bytes@.len(),
                    arg == be_value(bytes@.take(i as int)),
                decreases bytes@.len() - i,
            {
                let b = bytes[i];
                proof {
                    lemma_be_value_bound(bytes@.take(i as int));
                    lemma_pow256_monotone(i as nat, 7);
                    lemma_pow256_values();
                    lemma_be_value_push(bytes@.take(i as int), b);
                    assert(bytes@.take(i as int).push(b) =~= bytes@.take(i + 1));
                    assert(arg < 0x100_0000_0000_0000);
                    assert((arg << 8) | (b as u64) == arg * 256 + b) by (bit_vector)
                        requires
                            arg < 0x100_0000_0000_0000,
                    ;
                }
                arg = (arg << 8) | (b as u64);
                i += 1;
            }
            proof {
                assert(bytes@.take(i as int) =~= bytes@);
            }
            Some(arg)
        }
    }

    /// Whether the number of following bytes is the one that the additional
    /// information prescribes, and the indefinite-length marker stands only
    /// where it is allowed.
    pub fn is_sound(&self) -> (r: bool)
        ensures
            r == self.is_sound_spec(),
    {
        let len = self.following_bytes.len();
        let ai = self.additional_information();
        if ai < 24 {
            len == 0
        } else if ai == 24 {
            len == 1
        } else if ai == 25 {
            len == 2
        } else if ai == 26 {
            len == 4
        } else if ai == 27 {
            len == 8
        } else if ai == 31 {
            let major = self.major_type();
            len == 0 && (major == 0x40 || major == 0x60 || major == 0x80 || major == 0xA0
                || major == 0xE0)
        } else {
            false
        }
    }
}

} // verus!
