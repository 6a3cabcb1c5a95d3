//! The paletted block store: block-state ids bit-packed into 64-bit words.

use vstd::prelude::*;

verus! {

/// The mask of the low `bits` bits.
pub open spec fn entry_mask(bits: u64) -> u64 {
    ((1u64 << bits) - 1) as u64
}

/// The `bits`-wide field of `word` that starts at bit `shift`.
pub open spec fn field(word: u64, shift: u64, bits: u64) -> u32 {
    ((word >> shift) & entry_mask(bits)) as u32
}

/// A fixed-capacity array of block-state ids, packed into 64-bit words:
/// every cell takes the same number of bits, as many as the largest id
/// written so far needs, and no cell straddles two words.
pub struct PalettedBitBuffer {
    data: Vec<u64>,
    bits_per_entry: u64,
    entries_per_long: u64,
    entries: usize,
}

impl PalettedBitBuffer {
    /// The packing is consistent: a width of 1 to 32 bits, as many cells
    /// per word as fit, and a word for every cell.
    pub closed spec fn wf(&self) -> bool {
        &&& 1 <= self.bits_per_entry <= 32
        &&& self.entries_per_long == 64int / (self.bits_per_entry as int)
        &&& self.entries < u32::MAX
        &&& self.data@.len() == (self.entries as int) / (self.entries_per_long as int) + 1
    }

    /// The number of bits each cell takes.
    pub closed spec fn width(&self) -> u64 {
        self.bits_per_entry
    }

    closed spec fn slot(&self, i: int) -> (int, u64) {
        (i / (self.entries_per_long as int), ((i % (self.entries_per_long as int)) * (self.bits_per_entry as int)) as u64)
    }
}

impl View for PalettedBitBuffer {
    type V = Seq<u32>;

    closed spec fn view(&self) -> Seq<u32> {
        Seq::new(
            self.entries as nat,
            |i: int| field(self.data@[self.slot(i).0], self.slot(i).1, self.bits_per_entry),
        )
    }
}

proof fn lemma_width_facts(bits: u64)
    requires
        1 <= bits <= 32,
    ensures
        2 <= 64int / (bits as int) <= 64,
        (1u64 << bits) >= 2,
{
    vstd::arithmetic::div_mod::lemma_div_is_ordered_by_denominator(64, bits as int, 32);
    vstd::arithmetic::div_mod::lemma_div_is_ordered_by_denominator(64, 1, bits as int);
    assert((1u64 << bits) >= 2) by (bit_vector)
        requires
            1 <= bits <= 32,
    ;
}

proof fn lemma_slot_bounds(i: int, epl: int, bits: int, entries: int)
    requires
        1 <= bits <= 32,
        epl == 64int / bits,
        0 <= i < entries,
    ensures
        epl >= 2,
        0 <= i / epl <= entries / epl,
        0 <= (i % epl) * bits,
        (i % epl) * bits + bits <= 64,
{
    assert(epl >= 2) by {
        vstd::arithmetic::div_mod::lemma_div_is_ordered(64, 64, bits);
        vstd::arithmetic::div_mod::lemma_div_is_ordered_by_denominator(64, bits, 32);
    }
    vstd::arithmetic::div_mod::lemma_div_is_ordered(i, entries, epl);
    vstd::arithmetic::div_mod::lemma_div_pos_is_pos(i, epl);
    vstd::arithmetic::div_mod::lemma_mod_pos_bound(i, epl);
    vstd::arithmetic::div_mod::lemma_fundamental_div_mod(64, bits);
    let r = i % epl;
    assert(r * bits + bits <= 64) by (nonlinear_arith)
        requires
            0 <= r < epl,
            64 == bits * epl + 64int % bits,
            0 <= 64int % bits,
            bits >= 1,
    ;
    assert(0 <= r * bits) by (nonlinear_arith)
        requires
            0 <= r,
            bits >= 1,
    ;
}

proof fn lemma_slots_disjoint(i: int, j: int, epl: int, bits: int)
    requires
        1 <= bits,
        epl >= 1,
        0 <= i,
        0 <= j,
        i != j,
        i / epl == j / epl,
    ensures
        (i % epl) * bits + bits <= (j % epl) * bits || (j % epl) * bits + bits <= (i % epl) * bits,
{
    vstd::arithmetic::div_mod::lemma_fundamental_div_mod(i, epl);
    vstd::arithmetic::div_mod::lemma_fundamental_div_mod(j, epl);
    let a = i % epl;
    let c = j % epl;
    assert(a != c);
    if a < c {
        assert(a * bits + bits <= c * bits) by (nonlinear_arith)
            requires
                a + 1 <= c,
                bits >= 1,
        ;
    } else {
        assert(c * bits + bits <= a * bits) by (nonlinear_arith)
            requires
                c + 1 <= a,
                bits >= 1,
        ;
    }
}

proof fn lemma_field_update(w: u64, v: u64, s: u64, s2: u64, b: u64)
    requires
        1 <= b <= 32,
        s + b <= 64,
        s2 + b <= 64,
        v <= entry_mask(b),
    ensures
        s2 == s ==> field((w & !(entry_mask(b) << s)) | (v << s), s2, b) == v as u32,
        (s2 + b <= s || s + b <= s2) ==> field((w & !(entry_mask(b) << s)) | (v << s), s2, b)
            == field(w, s2, b),
{
    let m = entry_mask(b);
    let w2 = (w & !(m << s)) | (v << s);
    if s2 == s {
        assert(((w2 >> s2) & m) == v) by (bit_vector)
            requires
                w2 == (w & !(m << s)) | (v << s),
                m == ((1u64 << b) - 1) as u64,
                1 <= b <= 32,
                s + b <= 64,
                s2 == s,
                v <= m,
        ;
    }
    if s2 + b <= s || s + b <= s2 {
        assert(((w2 >> s2) & m) == ((w >> s2) & m)) by (bit_vector)
            requires
                w2 == (w & !(m << s)) | (v << s),
                m == ((1u64 << b) - 1) as u64,
                1 <= b <= 32,
                s + b <= 64,
                s2 + b <= 64,
                s2 + b <= s || s + b <= s2,
                v <= m,
        ;
    }
}

proof fn lemma_zero_field(s: u64, b: u64)
    requires
        1 <= b <= 32,
    ensures
        field(0, s, b) == 0,
{
    let m = entry_mask(b);
    assert(((0u64 >> s) & m) == 0) by (bit_vector);
}

proof fn lemma_mask_grows(b1: u64, b2: u64, v: u32)
    requires
        1 <= b1 <= b2 <= 32,
        v as u64 <= entry_mask(b1),
    ensures
        v as u64 <= entry_mask(b2),
{
    let v64 = v as u64;
    assert(v64 <= ((1u64 << b2) - 1) as u64) by (bit_vector)
        requires
            v64 <= ((1u64 << b1) - 1) as u64,
            1 <= b1 <= b2 <= 32,
    ;
}

proof fn lemma_field_fits(w: u64, s: u64, b: u64)
    requires
        1 <= b <= 32,
    ensures
        field(w, s, b) as u64 == ((w >> s) & entry_mask(b)),
        field(w, s, b) as u64 <= entry_mask(b),
{
    let m = entry_mask(b);
    assert(((w >> s) & m) <= m && m <= 0xFFFF_FFFFu64) by (bit_vector)
        requires
            m == ((1u64 << b) - 1) as u64,
            1 <= b <= 32,
    ;
}

impl PalettedBitBuffer {
    fn with_bits(n: usize, bits: u64) -> (r: PalettedBitBuffer)
        requires
            n < u32::MAX,
            1 <= bits <= 32,
        ensures
            r.wf(),
            r@ == Seq::new(n as nat, |i: int| 0u32),
            r.width() == bits,
    {
        proof {
            lemma_width_facts(bits);
        }
        let epl = 64 / bits;
        let q = n / (epl as usize);
        proof {
            vstd::arithmetic::div_mod::lemma_div_is_ordered_by_denominator(n as int, 1, epl as int);
            vstd::arithmetic::div_mod::lemma_div_by_self(1);
            vstd::arithmetic::div_mod::lemma_fundamental_div_mod(n as int, 1);
            assert(q <= n);
        }
        let words = q + 1;
        let mut data: Vec<u64> = Vec::new();
        let mut k: usize = 0;
        while k < words
            invariant
                k <= words,
                data@ == Seq::new(k as nat, |j: int| 0u64),
            decreases words - k,
        {
            data.push(0);
            k = k + 1;
            proof {
                assert(data@ =~= Seq::new(k as nat, |j: int| 0u64));
            }
        }
        let r = PalettedBitBuffer { data, bits_per_entry: bits, entries_per_long: epl, entries: n };
        proof {
            assert forall|i: int| 0 <= i < n implies #[trigger] r@[i] == 0u32 by {
                lemma_slot_bounds(i, epl as int, bits as int, n as int);
                lemma_zero_field(r.slot(i).1, bits);
            }
            assert(r@ =~= Seq::new(n as nat, |i: int| 0u32));
        }
        r
    }

    /// A buffer of `n` cells, all holding id 0, one bit per cell to start.
    pub fn with_entries(n: usize) -> (r: PalettedBitBuffer)
        requires
            n < u32::MAX,
        ensures
            r.wf(),
            r@ == Seq::new(n as nat, |i: int| 0u32),
    {
        PalettedBitBuffer::with_bits(n, 1)
    }

    /// The number of cells.
    pub fn entries(&self) -> (r: usize)
        requires
            self.wf(),
        ensures
            r == self@.len(),
    {
        self.entries
    }

    pub fn get_entry(&self, index: usize) -> (r: u32)
        requires
            self.wf(),
            index < self@.len(),
        ensures
            r == self@[index as int],
    {
        proof {
            assert(self.wf());
            lemma_slot_bounds(index as int, self.entries_per_long as int, self.bits_per_entry as int, self.entries as int);
        }
        proof {
            lemma_width_facts(self.bits_per_entry);
        }
        let word = self.data[index / (self.entries_per_long as usize)];
        let shift = ((index as u64) % self.entries_per_long) * self.bits_per_entry;
        let mask = (1u64 << self.bits_per_entry) - 1;
        proof {
            lemma_field_fits(word, shift, self.bits_per_entry);
        }
        ((word >> shift) & mask) as u32
    }

    /// Writes a cell whose value fits the current width.
    fn put(&mut self, index: usize, value: u32)
        requires
            old(self).wf(),
            index < old(self)@.len(),
            value as u64 <= entry_mask(old(self).width()),
        ensures
            final(self).wf(),
            final(self)@ == old(self)@.update(index as int, value),
            final(self).width() == old(self).width(),
    {
        proof {
            assert(self.wf());
            lemma_slot_bounds(index as int, self.entries_per_long as int, self.bits_per_entry as int, self.entries as int);
        }
        let ghost before = self@;
        proof {
            lemma_width_facts(self.bits_per_entry);
        }
        let bits = self.bits_per_entry;
        let epl = self.entries_per_long;
        let w_index = index / (epl as usize);
        let shift = ((index as u64) % epl) * bits;
        let mask = (1u64 << bits) - 1;
        let word = self.data[w_index];
        let updated = (word & !(mask << shift)) | ((value as u64) << shift);
        let ghost old_data = self.data@;
        self.data.set(w_index, updated);
        proof {
            assert forall|j: int| 0 <= j < self.entries implies #[trigger] self@[j] == before.update(index as int, value)[j] by {
                lemma_slot_bounds(j, epl as int, bits as int, self.entries as int);
                if j == index {
                    lemma_field_update(word, value as u64, shift, shift, bits);
                } else if j / (epl as int) == w_index {
                    lemma_slots_disjoint(j, index as int, epl as int, bits as int);
                    lemma_field_update(word, value as u64, shift, self.slot(j).1, bits);
                } else {
                    assert(self.data@[j / (epl as int)] == old_data[j / (epl as int)]);
                }
            }
            assert(self@ =~= before.update(index as int, value));
        }
    }

    /// The same cells in a buffer `bits` wide.
    fn widen(&self, bits: u64) -> (r: PalettedBitBuffer)
        requires
            self.wf(),
            self.width() <= bits <= 32,
        ensures
            r.wf(),
            r@ == self@,
            r.width() == bits,
    {
        proof {
            assert(self.wf());
        }
        let mut r = PalettedBitBuffer::with_bits(self.entries, bits);
        let mut k: usize = 0;
        while k < self.entries
            invariant
                r.wf(),
                self.wf(),
                r.width() == bits,
                self.width() <= bits <= 32,
                1 <= self.width(),
                k <= self@.len(),
                self@.len() == self.entries,
                r@.len() == self@.len(),
                forall|j: int| 0 <= j < k ==> #[trigger] r@[j] == self@[j],
            decreases self.entries - k,
        {
            let v = self.get_entry(k);
            proof {
                assert(self.wf());
                lemma_slot_bounds(k as int, self.entries_per_long as int, self.bits_per_entry as int, self.entries as int);
                lemma_field_fits(self.data@[self.slot(k as int).0], self.slot(k as int).1, self.bits_per_entry);
                lemma_mask_grows(self.bits_per_entry, bits, v);
            }
            r.put(k, v);
            k = k + 1;
        }
        proof {
            assert(r@ =~= self@);
        }
        r
    }

    pub fn set_entry(&mut self, index: usize, value: u32)
        requires
            old(self).wf(),
            index < old(self)@.len(),
        ensures
            final(self).wf(),
            final(self)@ == old(self)@.update(index as int, value),
    {
        proof {
            assert(self.wf());
        }
        let mut bits = self.bits_per_entry;
        while bits < 32 && ((value as u64) >> bits) != 0
            invariant
                self.wf(),
                self.width() <= bits <= 32,
            decreases 32 - bits,
        {
            bits = bits + 1;
        }
        proof {
            let v = value as u64;
            assert(v <= ((1u64 << bits) - 1) as u64) by (bit_vector)
                requires
                    bits == 32 || (v >> bits) == 0,
                    1 <= bits <= 32,
                    v <= 0xFFFF_FFFFu64,
            ;
        }
        if bits > self.bits_per_entry {
            let widened = self.widen(bits);
            *self = widened;
        }
        self.put(index, value);
    }

    /// An independent buffer with the same cells.
    pub fn duplicate(&self) -> (r: PalettedBitBuffer)
        requires
            self.wf(),
        ensures
            r.wf(),
            r@ == self@,
    {
        proof {
            assert(self.wf());
        }
        self.widen(self.bits_per_entry)
    }
}

} // verus!
