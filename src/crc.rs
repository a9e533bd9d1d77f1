//! Table-driven CRC-32 (reflected, polynomial 0xEDB88320), as used for the
//! integrity check of every chunk.
use vstd::prelude::*;

verus! {

/// The reflected CRC-32 generator polynomial.
pub const CRC_POLY: u32 = 0xedb8_8320;

/// The register value a checksum starts from; also the final XOR mask.
pub const CRC_INIT: u32 = 0xffff_ffff;

/// One step of bitwise polynomial division on the reflected register.
pub open spec fn crc_bit_step(c: u32) -> u32 {
    if c & 1 == 1 {
        CRC_POLY ^ (c >> 1)
    } else {
        c >> 1
    }
}

/// `k` successive division steps on the register `c`.
pub open spec fn crc_bit_steps(c: u32, k: nat) -> u32
    decreases k,
{
    if k == 0 {
        c
    } else {
        crc_bit_step(crc_bit_steps(c, (k - 1) as nat))
    }
}

/// Entry `n` of the 256-entry lookup table.
pub open spec fn crc_table_entry(n: u32) -> u32 {
    crc_bit_steps(n, 8)
}

/// The register after feeding one byte through the table.
pub open spec fn crc_byte_spec(state: u32, b: u8) -> u32 {
    crc_table_entry((state ^ (b as u32)) & 0xff) ^ (state >> 8)
}

/// The register after feeding one byte bit by bit, without the table.
pub open spec fn crc_byte_bitwise(state: u32, b: u8) -> u32 {
    crc_bit_steps(state ^ (b as u32), 8)
}

/// The register after feeding all of `s`, in order, starting from `state`.
pub open spec fn crc_update_spec(state: u32, s: Seq<u8>) -> u32
    decreases s.len(),
{
    if s.len() == 0 {
        state
    } else {
        crc_byte_spec(crc_update_spec(state, s.drop_last()), s.last())
    }
}

/// The finished CRC-32 of a message.
pub open spec fn crc32_spec(s: Seq<u8>) -> u32 {
    crc_update_spec(CRC_INIT, s) ^ CRC_INIT
}

/// The table-driven update agrees with bitwise polynomial division: feeding a
/// byte through the lookup table gives the same register as eight division
/// steps on the register XORed with that byte.
pub proof fn lemma_table_matches_bitwise(state: u32, b: u8)
    ensures
        crc_byte_spec(state, b) == crc_byte_bitwise(state, b),
{
    reveal_with_fuel(crc_bit_steps, 9);
    let x: u32 = state ^ (b as u32);
    assert(crc_bit_steps(x & 0xff, 8) ^ (x >> 8) == crc_bit_steps(x, 8)) by (bit_vector);
    assert(crc_byte_spec(state, b) == crc_bit_steps(x & 0xff, 8) ^ (state >> 8));
    assert(x >> 8 == state >> 8) by (bit_vector)
        requires
            x == state ^ (b as u32),
    ;
}

/// Feeding `a` and then `b` is feeding `a + b`.
pub proof fn lemma_crc_update_concat(state: u32, a: Seq<u8>, b: Seq<u8>)
    ensures
        crc_update_spec(state, a + b) == crc_update_spec(crc_update_spec(state, a), b),
    decreases b.len(),
{
    if b.len() == 0 {
        assert(a + b =~= a);
    } else {
        assert((a + b).drop_last() =~= a + b.drop_last());
        lemma_crc_update_concat(state, a, b.drop_last());
    }
}

/// Eight division steps never map two registers to one.
proof fn lemma_steps_injective(x: u32, y: u32)
    requires
        x != y,
    ensures
        crc_bit_steps(x, 8) != crc_bit_steps(y, 8),
{
    reveal_with_fuel(crc_bit_steps, 9);
    assert(x != y ==> crc_bit_steps(x, 8) != crc_bit_steps(y, 8)) by (bit_vector);
}

/// Feeding one byte keeps two different registers apart, and splits one
/// register fed with two different bytes.
proof fn lemma_byte_separates(s1: u32, b1: u8, s2: u32, b2: u8)
    requires
        s1 != s2 && b1 == b2 || s1 == s2 && b1 != b2,
    ensures
        crc_byte_spec(s1, b1) != crc_byte_spec(s2, b2),
{
    lemma_table_matches_bitwise(s1, b1);
    lemma_table_matches_bitwise(s2, b2);
    assert(s1 ^ (b1 as u32) != s2 ^ (b2 as u32)) by (bit_vector)
        requires
            s1 != s2 && b1 == b2 || s1 == s2 && b1 != b2,
    ;
    lemma_steps_injective(s1 ^ (b1 as u32), s2 ^ (b2 as u32));
}

/// Two messages of one length that differ in exactly one byte get
/// different registers: every single-byte error, and so every single-bit
/// error, is detected.
pub proof fn lemma_crc_detects_one_byte(state: u32, m1: Seq<u8>, m2: Seq<u8>, i: int)
    requires
        m1.len() == m2.len(),
        0 <= i < m1.len(),
        m1[i] != m2[i],
        forall|j: int| 0 <= j < m1.len() && j != i ==> m1[j] == m2[j],
    ensures
        crc_update_spec(state, m1) != crc_update_spec(state, m2),
    decreases m1.len(),
{
    let n = m1.len() - 1;
    if i == n {
        assert(m1.drop_last() =~= m2.drop_last());
        lemma_byte_separates(
            crc_update_spec(state, m1.drop_last()),
            m1.last(),
            crc_update_spec(state, m2.drop_last()),
            m2.last(),
        );
    } else {
        lemma_crc_detects_one_byte(state, m1.drop_last(), m2.drop_last(), i);
        lemma_byte_separates(
            crc_update_spec(state, m1.drop_last()),
            m1.last(),
            crc_update_spec(state, m2.drop_last()),
            m2.last(),
        );
    }
}

/// Computes the 256-entry lookup table.
pub fn make_crc_table() -> (r: Vec<u32>)
    ensures
        r@.len() == 256,
        forall|i: int| 0 <= i < 256 ==> r@[i] == crc_table_entry(i as u32),
{
    let mut table: Vec<u32> = Vec::new();
    let mut n: u32 = 0;
    while n < 256
        invariant
            n <= 256,
            table@.len() == n,
            forall|i: int| 0 <= i < n ==> table@[i] == crc_table_entry(i as u32),
        decreases 256 - n,
    {
        let mut c: u32 = n;
        let mut k: u32 = 0;
        while k < 8
            invariant
                k <= 8,
                c == crc_bit_steps(n, k as nat),
            decreases 8 - k,
        {
            if c & 1 == 1 {
                c = CRC_POLY ^ (c >> 1);
            } else {
                c = c >> 1;
            }
            k = k + 1;
        }
        table.push(c);
        n = n + 1;
    }
    table
}

/// A CRC-32 engine holding its lookup table.
pub struct Crc32 {
    table: Vec<u32>,
}

impl Crc32 {
    /// The table holds exactly the entries of `crc_table_entry`.
    pub closed spec fn wf(&self) -> bool {
        &&& self.table@.len() == 256
        &&& forall|i: int| 0 <= i < 256 ==> self.table@[i] == crc_table_entry(i as u32)
    }

    pub fn new() -> (r: Self)
        ensures
            r.wf(),
    {
        Crc32 { table: make_crc_table() }
    }

    /// Feeds one byte into the register `state`.
    pub fn update(&self, state: u32, b: u8) -> (r: u32)
        requires
            self.wf(),
        ensures
            r == crc_byte_spec(state, b),
    {
        let x: u32 = state ^ (b as u32);
        assert(x & 0xff < 256) by (bit_vector);
        let idx: usize = (x & 0xff) as usize;
        self.table[idx] ^ (state >> 8)
    }

    /// Feeds every byte of `s`, in order, into the register `state`.
    pub fn update_all(&self, state: u32, s: &[u8]) -> (r: u32)
        requires
            self.wf(),
        ensures
            r == crc_update_spec(state, s@),
    {
        let mut c: u32 = state;
        let mut i: usize = 0;
        while i < s.len()
            invariant
                self.wf(),
                i <= s@.len(),
                c == crc_update_spec(state, s@.take(i as int)),
            decreases s@.len() - i,
        {
            proof {
                assert(s@.take(i + 1).drop_last() =~= s@.take(i as int));
            }
            c = self.update(c, s[i]);
            i = i + 1;
        }
        assert(s@.take(i as int) =~= s@);
        c
    }

    /// Feeds the four bytes of `k`, in order, into the register `state`.
    pub fn update4(&self, state: u32, k: &[u8; 4]) -> (r: u32)
        requires
            self.wf(),
        ensures
            r == crc_update_spec(state, k@),
    {
        let mut c: u32 = state;
        c = self.update(c, k[0]);
        c = self.update(c, k[1]);
        c = self.update(c, k[2]);
        c = self.update(c, k[3]);
        proof {
            let s = k@;
            reveal_with_fuel(crc_update_spec, 5);
            assert(s.take(1).drop_last() =~= Seq::<u8>::empty());
            assert(s.take(2).drop_last() =~= s.take(1));
            assert(s.take(3).drop_last() =~= s.take(2));
            assert(s.take(4).drop_last() =~= s.take(3));
            assert(s.take(4) =~= s);
        }
        c
    }

    /// The finished CRC-32 of `s`.
    pub fn checksum(&self, s: &[u8]) -> (r: u32)
        requires
            self.wf(),
        ensures
            r == crc32_spec(s@),
    {
        self.update_all(CRC_INIT, s) ^ CRC_INIT
    }
}

} // verus!
