//! Sequential byte cursor over an LSDA buffer.
//!
//! The cursor produces fixed-width little-endian integers and variable-length
//! (LEB128) integers; it advances monotonically and never backtracks.  The
//! buffer is paired with the absolute address at which it lives, so that the
//! cursor's absolute position (needed for pc-relative and aligned decoding)
//! is always available.

use vstd::prelude::*;

verus! {

/// Little-endian value of the two bytes at `pos`.
pub open spec fn le_u16_at(s: Seq<u8>, pos: int) -> nat {
    s[pos] as nat + 0x100 * (s[pos + 1] as nat)
}

/// Little-endian value of the four bytes at `pos`.
pub open spec fn le_u32_at(s: Seq<u8>, pos: int) -> nat {
    le_u16_at(s, pos) + 0x1_0000 * le_u16_at(s, pos + 2)
}

/// Little-endian value of the eight bytes at `pos`.
pub open spec fn le_u64_at(s: Seq<u8>, pos: int) -> nat {
    le_u32_at(s, pos) + 0x1_0000_0000 * le_u32_at(s, pos + 4)
}

/// Unsigned LEB128 value starting at `pos`: the decoded value and the position
/// one past its last byte.  `None` when no terminating byte (high bit clear)
/// lies within the buffer.
pub open spec fn uleb_at(s: Seq<u8>, pos: int) -> Option<(nat, int)>
    decreases s.len() - pos,
{
    if pos < 0 || pos >= s.len() {
        None
    } else if s[pos] < 0x80 {
        Some((s[pos] as nat, pos + 1))
    } else {
        match uleb_at(s, pos + 1) {
            None => None,
            Some((v, end)) => Some(((s[pos] - 0x80) as nat + 0x80 * v, end)),
        }
    }
}

/// Signed LEB128 value starting at `pos`: the last payload chunk is
/// sign-extended, so a final byte with bit 6 set makes the value negative.
pub open spec fn sleb_at(s: Seq<u8>, pos: int) -> Option<(int, int)>
    decreases s.len() - pos,
{
    if pos < 0 || pos >= s.len() {
        None
    } else if s[pos] < 0x40 {
        Some((s[pos] as int, pos + 1))
    } else if s[pos] < 0x80 {
        Some((s[pos] - 0x80, pos + 1))
    } else {
        match sleb_at(s, pos + 1) {
            None => None,
            Some((v, end)) => Some(((s[pos] - 0x80) + 0x80 * v, end)),
        }
    }
}

/// An unsigned LEB128 encoding starts at `pos`, terminates inside the buffer
/// within ten bytes, and its value fits in 64 bits, so that the cursor can
/// return it as a `u64`.
pub open spec fn uleb_ok(s: Seq<u8>, pos: int) -> bool {
    match uleb_at(s, pos) {
        Some((v, end)) => v < 0x1_0000_0000_0000_0000 && end - pos <= 10,
        None => false,
    }
}

pub open spec fn uleb_val(s: Seq<u8>, pos: int) -> nat {
    match uleb_at(s, pos) {
        Some((v, end)) => v,
        None => 0,
    }
}

pub open spec fn uleb_end(s: Seq<u8>, pos: int) -> int {
    match uleb_at(s, pos) {
        Some((v, end)) => end,
        None => pos,
    }
}

/// A signed LEB128 encoding starts at `pos`, terminates inside the buffer
/// within ten bytes, and its value fits in an `i64`.
pub open spec fn sleb_ok(s: Seq<u8>, pos: int) -> bool {
    match sleb_at(s, pos) {
        Some((v, end)) => -0x8000_0000_0000_0000 <= v < 0x8000_0000_0000_0000 && end - pos <= 10,
        None => false,
    }
}

pub open spec fn sleb_val(s: Seq<u8>, pos: int) -> int {
    match sleb_at(s, pos) {
        Some((v, end)) => v,
        None => 0,
    }
}

pub open spec fn sleb_end(s: Seq<u8>, pos: int) -> int {
    match sleb_at(s, pos) {
        Some((v, end)) => end,
        None => pos,
    }
}

/// 128 to the power `k`: the weight of the `k`-th LEB128 payload chunk.
pub open spec fn chunk_weight(k: nat) -> nat
    decreases k,
{
    if k == 0 {
        1
    } else {
        0x80 * chunk_weight((k - 1) as nat)
    }
}

/// A decodable LEB128 encoding lies inside the buffer, strictly after its
/// starting position.
pub proof fn lemma_uleb_bounds(s: Seq<u8>, pos: int)
    requires
        uleb_at(s, pos) is Some,
    ensures
        0 <= pos < s.len(),
        pos < uleb_end(s, pos) <= s.len(),
    decreases s.len() - pos,
{
    if s[pos] >= 0x80 {
        lemma_uleb_bounds(s, pos + 1);
    }
}

/// Unfolding one continuation byte of an unsigned LEB128 encoding.
pub proof fn lemma_uleb_step(s: Seq<u8>, pos: int)
    requires
        uleb_at(s, pos) is Some,
        s[pos] >= 0x80,
    ensures
        uleb_at(s, pos + 1) is Some,
        uleb_val(s, pos) == (s[pos] - 0x80) as nat + 0x80 * uleb_val(s, pos + 1),
        uleb_end(s, pos) == uleb_end(s, pos + 1),
        uleb_val(s, pos + 1) <= uleb_val(s, pos),
{
}

/// The value of an unsigned LEB128 encoding is below the weight of the chunk
/// one past its last.
pub proof fn lemma_uleb_val_bound(s: Seq<u8>, pos: int)
    requires
        uleb_at(s, pos) is Some,
    ensures
        uleb_val(s, pos) < chunk_weight((uleb_end(s, pos) - pos) as nat),
    decreases s.len() - pos,
{
    lemma_uleb_bounds(s, pos);
    if s[pos] < 0x80 {
        assert(chunk_weight(1) == 0x80 * chunk_weight(0));
    } else {
        lemma_uleb_step(s, pos);
        lemma_uleb_val_bound(s, pos + 1);
        let k = (uleb_end(s, pos) - pos - 1) as nat;
        assert(uleb_end(s, pos) == uleb_end(s, pos + 1));
        assert(chunk_weight((k + 1) as nat) == 0x80 * chunk_weight(k));
        assert(uleb_val(s, pos + 1) + 1 <= chunk_weight(k));
        assert(0x80 * uleb_val(s, pos + 1) + 0x80 <= 0x80 * chunk_weight(k));
    }
}

/// Chunk weights grow with the chunk index.
pub proof fn lemma_chunk_weight_mono(a: nat, b: nat)
    requires
        a <= b,
    ensures
        chunk_weight(a) <= chunk_weight(b),
    decreases b,
{
    if a < b {
        lemma_chunk_weight_mono(a, (b - 1) as nat);
        assert(chunk_weight(b) == 0x80 * chunk_weight((b - 1) as nat));
    }
}

/// Numeric bound on the chunk weights a ten-byte encoding can reach.
pub proof fn lemma_chunk_weight_small(k: nat)
    requires
        k <= 10,
    ensures
        chunk_weight(k) <= 0x40_0000_0000_0000_0000,
        k <= 9 ==> chunk_weight(k) <= 0x8000_0000_0000_0000,
{
    lemma_chunk_weight_mono(k, 10);
    if k <= 9 {
        lemma_chunk_weight_mono(k, 9);
    }
    assert(chunk_weight(10) == 0x40_0000_0000_0000_0000 && chunk_weight(9)
        == 0x8000_0000_0000_0000) by {
        reveal_with_fuel(chunk_weight, 11);
    };
}

/// The unsigned and the signed decoder consume the same bytes.
pub proof fn lemma_leb_same_shape(s: Seq<u8>, pos: int)
    ensures
        uleb_at(s, pos) is Some <==> sleb_at(s, pos) is Some,
    decreases s.len() - pos,
{
    if 0 <= pos < s.len() && s[pos] >= 0x80 {
        lemma_leb_same_shape(s, pos + 1);
    }
}

/// A signed LEB128 encoding has the same shape as the unsigned one; its value
/// is the unsigned value minus one full weight when the last payload chunk has
/// its sign bit set.
pub proof fn lemma_sleb_from_uleb(s: Seq<u8>, pos: int)
    requires
        uleb_at(s, pos) is Some,
    ensures
        sleb_at(s, pos) is Some,
        sleb_end(s, pos) == uleb_end(s, pos),
        sleb_val(s, pos) == uleb_val(s, pos) - (if s[uleb_end(s, pos) - 1] >= 0x40 {
            chunk_weight((uleb_end(s, pos) - pos) as nat) as int
        } else {
            0
        }),
    decreases s.len() - pos,
{
    lemma_uleb_bounds(s, pos);
    if s[pos] < 0x80 {
        assert(chunk_weight(1) == 0x80 * chunk_weight(0));
    } else {
        lemma_uleb_step(s, pos);
        lemma_sleb_from_uleb(s, pos + 1);
        let e = uleb_end(s, pos);
        let k = (e - pos - 1) as nat;
        assert(chunk_weight((k + 1) as nat) == 0x80 * chunk_weight(k));
        if s[e - 1] >= 0x40 {
            assert(0x80 * (uleb_val(s, pos + 1) - chunk_weight(k)) == 0x80 * uleb_val(s, pos + 1)
                - 0x80 * chunk_weight(k)) by (nonlinear_arith);
        }
    }
}

/// A cursor over the LSDA bytes.  `base` is the absolute address of the first
/// byte of `bytes`; the cursor's absolute position is `base + pos`.
pub struct DwarfReader<'a> {
    pub bytes: &'a [u8],
    pub base: u64,
    pub pos: usize,
}

impl<'a> DwarfReader<'a> {
    /// The cursor stays inside the buffer, and every absolute position inside
    /// the buffer (with room for one aligned read past a rounded-up cursor)
    /// fits in an address.
    pub open spec fn wf(self) -> bool {
        self.pos <= self.bytes@.len() && self.base as int + self.bytes@.len() + 8 <= u64::MAX as int
    }

    pub fn new(bytes: &'a [u8], base: u64) -> (r: Self)
        requires
            base as int + bytes@.len() + 8 <= u64::MAX as int,
        ensures
            r.wf(),
            r.bytes@ == bytes@,
            r.base == base,
            r.pos == 0,
    {
        DwarfReader { bytes, base, pos: 0 }
    }

    pub fn read_u8(&mut self) -> (r: u8)
        requires
            old(self).wf(),
            old(self).pos + 1 <= old(self).bytes@.len(),
        ensures
            final(self).wf(),
            final(self).bytes@ == old(self).bytes@,
            final(self).base == old(self).base,
            final(self).pos == old(self).pos + 1,
            r == old(self).bytes@[old(self).pos as int],
    {
        let r = self.bytes[self.pos];
        self.pos = self.pos + 1;
        r
    }

    pub fn read_u16(&mut self) -> (r: u16)
        requires
            old(self).wf(),
            old(self).pos + 2 <= old(self).bytes@.len(),
        ensures
            final(self).wf(),
            final(self).bytes@ == old(self).bytes@,
            final(self).base == old(self).base,
            final(self).pos == old(self).pos + 2,
            r as nat == le_u16_at(old(self).bytes@, old(self).pos as int),
    {
        let b0 = self.read_u8();
        let b1 = self.read_u8();
        b0 as u16 + (b1 as u16) * 0x100
    }

    pub fn read_u32(&mut self) -> (r: u32)
        requires
            old(self).wf(),
            old(self).pos + 4 <= old(self).bytes@.len(),
        ensures
            final(self).wf(),
            final(self).bytes@ == old(self).bytes@,
            final(self).base == old(self).base,
            final(self).pos == old(self).pos + 4,
            r as nat == le_u32_at(old(self).bytes@, old(self).pos as int),
    {
        let h0 = self.read_u16();
        let h1 = self.read_u16();
        h0 as u32 + (h1 as u32) * 0x1_0000
    }

    pub fn read_u64(&mut self) -> (r: u64)
        requires
            old(self).wf(),
            old(self).pos + 8 <= old(self).bytes@.len(),
        ensures
            final(self).wf(),
            final(self).bytes@ == old(self).bytes@,
            final(self).base == old(self).base,
            final(self).pos == old(self).pos + 8,
            r as nat == le_u64_at(old(self).bytes@, old(self).pos as int),
    {
        let w0 = self.read_u32();
        let w1 = self.read_u32();
        w0 as u64 + (w1 as u64) * 0x1_0000_0000
    }

    /// Reads one unsigned LEB128 value: seven payload bits per byte, least
    /// significant chunk first, the high bit of each byte flagging a
    /// continuation.
    pub fn read_uleb128(&mut self) -> (r: u64)
        requires
            old(self).wf(),
            uleb_ok(old(self).bytes@, old(self).pos as int),
        ensures
            final(self).wf(),
            final(self).bytes@ == old(self).bytes@,
            final(self).base == old(self).base,
            final(self).pos == uleb_end(old(self).bytes@, old(self).pos as int),
            r as nat == uleb_val(old(self).bytes@, old(self).pos as int),
    {
        let ghost s = self.bytes@;
        let ghost pos0 = self.pos as int;
        let ghost base0 = self.base;
        proof {
            lemma_uleb_bounds(s, pos0);
        }
        let mut acc: u128 = 0;
        let mut mult: u128 = 1;
        loop
            invariant_except_break
                self.wf(),
                self.bytes@ == s,
                self.base == base0,
                pos0 <= self.pos as int,
                uleb_ok(s, pos0),
                uleb_at(s, self.pos as int) is Some,
                uleb_end(s, self.pos as int) == uleb_end(s, pos0),
                mult == chunk_weight((self.pos as int - pos0) as nat),
                acc + mult * uleb_val(s, self.pos as int) == uleb_val(s, pos0),
            ensures
                self.wf(),
                self.bytes@ == s,
                self.base == base0,
                self.pos as int == uleb_end(s, pos0),
                acc == uleb_val(s, pos0),
            decreases s.len() - self.pos as int,
        {
            let ghost p = self.pos as int;
            proof {
                lemma_uleb_bounds(s, p);
                lemma_chunk_weight_small((p - pos0) as nat);
            }
            let byte = self.read_u8();
            if byte >= 0x80 {
                let ghost pl = (byte - 0x80) as nat;
                let ghost vrest = uleb_val(s, p + 1);
                let ghost m = mult as nat;
                proof {
                    lemma_uleb_step(s, p);
                    lemma_uleb_bounds(s, p + 1);
                    assert(m * (pl + 0x80 * vrest) == m * pl + (m * 0x80) * vrest)
                        by (nonlinear_arith);
                    assert(pl * m == m * pl) by (nonlinear_arith);
                    assert(chunk_weight(((p + 1) - pos0) as nat) == 0x80 * chunk_weight((p
                        - pos0) as nat));
                    assert(((byte - 0x80) as u128) * mult <= 0x7f * 0x8000_0000_0000_0000)
                        by (nonlinear_arith)
                        requires
                            byte >= 0x80,
                            mult <= 0x8000_0000_0000_0000,
                    ;
                }
                acc = acc + (byte - 0x80) as u128 * mult;
                mult = mult * 0x80;
            } else {
                proof {
                    assert(uleb_val(s, p) == byte as nat);
                    assert(uleb_end(s, p) == p + 1);
                    assert((byte as u128) * mult <= 0x7f * 0x8000_0000_0000_0000)
                        by (nonlinear_arith)
                        requires
                            byte < 0x80,
                            mult <= 0x8000_0000_0000_0000,
                    ;
                    assert((byte as nat) * (mult as nat) == (mult as nat) * (byte as nat))
                        by (nonlinear_arith);
                }
                acc = acc + (byte as u128) * mult;
                break ;
            }
        }
        acc as u64
    }

    /// Reads one signed LEB128 value: same byte shape as the unsigned form,
    /// sign-extended from the last payload chunk.
    pub fn read_sleb128(&mut self) -> (r: i64)
        requires
            old(self).wf(),
            sleb_ok(old(self).bytes@, old(self).pos as int),
        ensures
            final(self).wf(),
            final(self).bytes@ == old(self).bytes@,
            final(self).base == old(self).base,
            final(self).pos == sleb_end(old(self).bytes@, old(self).pos as int),
            r as int == sleb_val(old(self).bytes@, old(self).pos as int),
    {
        let ghost s = self.bytes@;
        let ghost pos0 = self.pos as int;
        let ghost base0 = self.base;
        proof {
            lemma_leb_same_shape(s, pos0);
            lemma_uleb_bounds(s, pos0);
            lemma_uleb_val_bound(s, pos0);
            lemma_sleb_from_uleb(s, pos0);
            lemma_chunk_weight_small((uleb_end(s, pos0) - pos0) as nat);
        }
        let mut acc: u128 = 0;
        let mut mult: u128 = 1;
        let mut last: u8 = 0;
        loop
            invariant_except_break
                self.wf(),
                self.bytes@ == s,
                self.base == base0,
                pos0 <= self.pos as int,
                sleb_ok(s, pos0),
                uleb_at(s, pos0) is Some,
                uleb_val(s, pos0) < 0x80_0000_0000_0000_0000,
                uleb_at(s, self.pos as int) is Some,
                uleb_end(s, self.pos as int) == uleb_end(s, pos0),
                uleb_end(s, pos0) - pos0 <= 10,
                mult == chunk_weight((self.pos as int - pos0) as nat),
                acc + mult * uleb_val(s, self.pos as int) == uleb_val(s, pos0),
            ensures
                self.wf(),
                self.bytes@ == s,
                self.base == base0,
                self.pos as int == uleb_end(s, pos0),
                acc == uleb_val(s, pos0),
                mult == chunk_weight((uleb_end(s, pos0) - pos0 - 1) as nat),
                last == s[uleb_end(s, pos0) - 1],
            decreases s.len() - self.pos as int,
        {
            let ghost p = self.pos as int;
            proof {
                lemma_uleb_bounds(s, p);
                lemma_chunk_weight_small((p - pos0) as nat);
            }
            let byte = self.read_u8();
            if byte >= 0x80 {
                let ghost pl = (byte - 0x80) as nat;
                let ghost vrest = uleb_val(s, p + 1);
                let ghost m = mult as nat;
                proof {
                    lemma_uleb_step(s, p);
                    lemma_uleb_bounds(s, p + 1);
                    assert(m * (pl + 0x80 * vrest) == m * pl + (m * 0x80) * vrest)
                        by (nonlinear_arith);
                    assert(pl * m == m * pl) by (nonlinear_arith);
                    assert(chunk_weight(((p + 1) - pos0) as nat) == 0x80 * chunk_weight((p
                        - pos0) as nat));
                    assert(((byte - 0x80) as u128) * mult <= 0x7f * 0x8000_0000_0000_0000)
                        by (nonlinear_arith)
                        requires
                            byte >= 0x80,
                            mult <= 0x8000_0000_0000_0000,
                    ;
                }
                acc = acc + (byte - 0x80) as u128 * mult;
                mult = mult * 0x80;
            } else {
                proof {
                    assert(uleb_val(s, p) == byte as nat);
                    assert(uleb_end(s, p) == p + 1);
                    assert((byte as u128) * mult <= 0x7f * 0x8000_0000_0000_0000)
                        by (nonlinear_arith)
                        requires
                            byte < 0x80,
                            mult <= 0x8000_0000_0000_0000,
                    ;
                    assert((byte as nat) * (mult as nat) == (mult as nat) * (byte as nat))
                        by (nonlinear_arith);
                }
                acc = acc + (byte as u128) * mult;
                last = byte;
                break ;
            }
        }
        let ghost end0 = uleb_end(s, pos0);
        proof {
            lemma_sleb_from_uleb(s, pos0);
            assert(chunk_weight((end0 - pos0) as nat) == 0x80 * chunk_weight((end0 - pos0
                - 1) as nat));
            lemma_chunk_weight_small((end0 - pos0) as nat);
        }
        if last >= 0x40 {
            let weight = mult * 0x80;
            let signed = acc as i128 - weight as i128;
            signed as i64
        } else {
            acc as i64
        }
    }

    /// One address-width load at the absolute address `addr`, without moving
    /// the cursor: the extra load performed for indirect encodings.
    pub fn load_address(&self, addr: u64) -> (r: u64)
        requires
            self.wf(),
            self.base <= addr,
            addr - self.base + 8 <= self.bytes@.len(),
        ensures
            r as nat == le_u64_at(self.bytes@, addr - self.base),
    {
        let i = (addr - self.base) as usize;
        let b0 = self.bytes[i];
        let b1 = self.bytes[i + 1];
        let b2 = self.bytes[i + 2];
        let b3 = self.bytes[i + 3];
        let b4 = self.bytes[i + 4];
        let b5 = self.bytes[i + 5];
        let b6 = self.bytes[i + 6];
        let b7 = self.bytes[i + 7];
        let lo = b0 as u32 + (b1 as u32) * 0x100 + (b2 as u32) * 0x1_0000 + (b3 as u32)
            * 0x100_0000;
        let hi = b4 as u32 + (b5 as u32) * 0x100 + (b6 as u32) * 0x1_0000 + (b7 as u32)
            * 0x100_0000;
        lo as u64 + (hi as u64) * 0x1_0000_0000
    }
}

} // verus!
