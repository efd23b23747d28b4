use vstd::prelude::*;

verus! {

/// The `b` lowest bits set, as an `i64`.
pub open spec fn mask64(b: u64) -> i64 {
    ((1i64 << b) - 1) as i64
}

/// Index of the word that holds the first bit of entry `idx` when entries are `bits` wide.
pub open spec fn entry_word(bits: nat, idx: nat) -> int {
    (idx * bits) as int / 64
}

/// Position, inside its word, of the first bit of entry `idx`.
pub open spec fn entry_offset(bits: nat, idx: nat) -> int {
    (idx * bits) as int % 64
}

/// Entry `idx` runs past the end of its word into the next one.
pub open spec fn entry_spans(bits: nat, idx: nat) -> bool {
    entry_offset(bits, idx) + bits > 64
}

/// The words that reading or writing entry `idx` touches all exist in a buffer of `len` words.
pub open spec fn entry_in_bounds(len: nat, bits: nat, idx: nat) -> bool {
    bits == 0 || (idx * bits + bits - 1) / 64 < len
}

/// What a read of entry `idx` gives back: the `bits` bits at the entry's position
/// in the word, shifted down arithmetically, and, when the entry runs into the next
/// word, the remaining bits of that word or-ed in above them.
pub open spec fn packed_read(data: Seq<i64>, bits: nat, idx: nat) -> u16 {
    if bits == 0 {
        0
    } else {
        let w = entry_word(bits, idx);
        let off = entry_offset(bits, idx) as u64;
        let b = bits as u64;
        let low = (data[w] >> off) & mask64(b);
        if entry_spans(bits, idx) {
            let extra = (off + b - 64) as u64;
            (low | ((data[w + 1] & mask64(extra)) << ((b - extra) as u64))) as u16
        } else {
            low as u16
        }
    }
}

/// The buffer after entry `idx` is set to `v`: the entry's bits in its word are
/// cleared and replaced by the low bits of `v`, and, when the entry runs into the next
/// word, the low bits of that word take the rest of `v`.
pub open spec fn packed_write(data: Seq<i64>, bits: nat, idx: nat, v: u16) -> Seq<i64> {
    if bits == 0 {
        data
    } else {
        let w = entry_word(bits, idx);
        let off = entry_offset(bits, idx) as u64;
        let b = bits as u64;
        let first = (data[w] & !(mask64(b) << off)) | (((v as i64) & mask64(b)) << off);
        let d1 = data.update(w, first);
        if entry_spans(bits, idx) {
            let extra = (off + b - 64) as u64;
            d1.update(
                w + 1,
                (d1[w + 1] & !mask64(extra)) | (((v as i64) >> ((b - extra) as u64)) & mask64(
                    extra,
                )),
            )
        } else {
            d1
        }
    }
}

/// A write of `v` to entry `idx` whose word gets the entry's top bit as its sign bit,
/// with that bit set: the arithmetic shift of a read then fills the entry's upper
/// bits with ones.
pub open spec fn write_hazard(bits: nat, idx: nat, v: u16) -> bool {
    &&& entry_spans(bits, idx)
    &&& ((v as i64) >> ((63 - entry_offset(bits, idx)) as u64)) & 1 == 1
}

proof fn lemma_word_write_read(x: i64, v: i64, b: u64, off: u64)
    requires
        1 <= b <= 62,
        off < 64,
        off + b <= 64,
    ensures
        ((((x & !(mask64(b) << off)) | ((v & mask64(b)) << off)) >> off) & mask64(b)) == v
            & mask64(b),
{
    assert(((((x & !(mask64(b) << off)) | ((v & mask64(b)) << off)) >> off) & mask64(b)) == v
        & mask64(b)) by (bit_vector)
        requires
            1 <= b <= 62,
            off < 64,
            off + b <= 64,
    ;
}

proof fn lemma_word_write_read_span(x: i64, y: i64, v: i64, b: u64, off: u64, e: u64)
    requires
        1 <= b <= 62,
        off < 64,
        off + b > 64,
        e == off + b - 64,
        0 <= v < 0x10000,
        (v >> ((63 - off) as u64)) & 1 == 0,
    ensures
        ((((x & !(mask64(b) << off)) | ((v & mask64(b)) << off)) >> off) & mask64(b)) | (((y
            & !mask64(e)) | ((v >> ((b - e) as u64)) & mask64(e))) & mask64(e)) << ((b
            - e) as u64) == v & mask64(b),
{
    assert(((((x & !(mask64(b) << off)) | ((v & mask64(b)) << off)) >> off) & mask64(b)) | (((y
        & !mask64(e)) | ((v >> ((b - e) as u64)) & mask64(e))) & mask64(e)) << ((b - e) as u64)
        == v & mask64(b)) by (bit_vector)
        requires
            1 <= b <= 62,
            off < 64,
            off + b > 64,
            e == off + b - 64,
            0 <= v < 0x10000,
            (v >> ((63 - off) as u64)) & 1 == 0,
    ;
}

proof fn lemma_word_field_frame(x: i64, v: i64, b: u64, oi: u64, oj: u64)
    requires
        1 <= b <= 62,
        oi < 64,
        oj < 64,
        oi + b <= oj || oj + b <= oi,
    ensures
        ((((x & !(mask64(b) << oi)) | ((v & mask64(b)) << oi)) >> oj) & mask64(b)) == (x >> oj)
            & mask64(b),
{
    assert(((((x & !(mask64(b) << oi)) | ((v & mask64(b)) << oi)) >> oj) & mask64(b)) == (x
        >> oj) & mask64(b)) by (bit_vector)
        requires
            1 <= b <= 62,
            oi < 64,
            oj < 64,
            oi + b <= oj || oj + b <= oi,
    ;
}

proof fn lemma_word_low_frame(x: i64, u: i64, b: u64, e: u64, oj: u64)
    requires
        1 <= b <= 62,
        1 <= e <= 62,
        e <= oj < 64,
    ensures
        ((((x & !mask64(e)) | (u & mask64(e))) >> oj) & mask64(b)) == (x >> oj) & mask64(b),
{
    assert(((((x & !mask64(e)) | (u & mask64(e))) >> oj) & mask64(b)) == (x >> oj) & mask64(b))
        by (bit_vector)
        requires
            1 <= b <= 62,
            1 <= e <= 62,
            e <= oj < 64,
    ;
}

proof fn lemma_word_field_low_frame(x: i64, v: i64, b: u64, oi: u64, e: u64)
    requires
        1 <= b <= 62,
        1 <= e <= 62,
        e <= oi < 64,
    ensures
        ((x & !(mask64(b) << oi)) | ((v & mask64(b)) << oi)) & mask64(e) == x & mask64(e),
{
    assert(((x & !(mask64(b) << oi)) | ((v & mask64(b)) << oi)) & mask64(e) == x & mask64(e))
        by (bit_vector)
        requires
            1 <= b <= 62,
            1 <= e <= 62,
            e <= oi < 64,
    ;
}

proof fn lemma_entries_disjoint(bits: nat, i: nat, j: nat)
    requires
        bits >= 1,
        i != j,
    ensures
        i * bits + bits <= j * bits || j * bits + bits <= i * bits,
{
    if i < j {
        assert(i * bits + bits <= j * bits) by (nonlinear_arith)
            requires
                i < j,
                bits >= 1,
        ;
    } else {
        assert(j * bits + bits <= i * bits) by (nonlinear_arith)
            requires
                j < i,
                bits >= 1,
        ;
    }
}

/// Writing an entry leaves the buffer's length as it was.
pub proof fn lemma_write_len(data: Seq<i64>, bits: nat, idx: nat, v: u16)
    requires
        bits < 63,
        entry_in_bounds(data.len(), bits, idx),
    ensures
        packed_write(data, bits, idx, v).len() == data.len(),
{
}

/// A read of the entry just written gives back the value written, cut to the entry's
/// width, unless the write runs into the sign-bit hazard.
pub proof fn lemma_read_after_write(data: Seq<i64>, bits: nat, idx: nat, v: u16)
    requires
        1 <= bits < 63,
        entry_in_bounds(data.len(), bits, idx),
        !write_hazard(bits, idx, v),
    ensures
        packed_read(packed_write(data, bits, idx, v), bits, idx) == (((v as i64) & mask64(
            bits as u64,
        )) as u16),
{
    let w = entry_word(bits, idx);
    let off = entry_offset(bits, idx) as u64;
    let b = bits as u64;
    assert(0 <= w < data.len()) by {
        assert((idx * bits) as int / 64 <= (idx * bits + bits - 1) / 64);
    }
    let nd = packed_write(data, bits, idx, v);
    if entry_spans(bits, idx) {
        let extra = (off + b - 64) as u64;
        assert(w + 1 < data.len()) by {
            assert((idx * bits + bits - 1) / 64 >= w + 1);
        }
        let vi = v as i64;
        let sh = (63 - off) as u64;
        assert((vi >> sh) & 1 == 0) by (bit_vector)
            requires
                (vi >> sh) & 1 != 1,
        ;
        lemma_word_write_read_span(data[w], data[w + 1], vi, b, off, extra);
        assert(nd[w] == (data[w] & !(mask64(b) << off)) | (((v as i64) & mask64(b)) << off));
    } else {
        lemma_word_write_read(data[w], v as i64, b, off);
    }
}

/// Writing one entry leaves every other entry's read as it was.
pub proof fn lemma_write_frame(data: Seq<i64>, bits: nat, i: nat, j: nat, v: u16)
    requires
        1 <= bits < 63,
        i != j,
        entry_in_bounds(data.len(), bits, i),
        entry_in_bounds(data.len(), bits, j),
    ensures
        packed_read(packed_write(data, bits, i, v), bits, j) == packed_read(data, bits, j),
{
    let b = bits as u64;
    let si = i * bits;
    let sj = j * bits;
    lemma_entries_disjoint(bits, i, j);
    let wi = entry_word(bits, i);
    let wj = entry_word(bits, j);
    let oi = entry_offset(bits, i) as u64;
    let oj = entry_offset(bits, j) as u64;
    assert(0 <= wi < data.len()) by {
        assert(si as int / 64 <= (si + bits - 1) / 64);
    }
    assert(0 <= wj < data.len()) by {
        assert(sj as int / 64 <= (sj + bits - 1) / 64);
    }
    let vi = v as i64;
    let nd = packed_write(data, bits, i, v);
    let si_span = entry_spans(bits, i);
    let sj_span = entry_spans(bits, j);
    if si_span {
        assert(wi + 1 < data.len()) by {
            assert((si + bits - 1) / 64 >= wi + 1);
        }
    }
    if sj_span {
        assert(wj + 1 < data.len()) by {
            assert((sj + bits - 1) / 64 >= wj + 1);
        }
    }
    let ei = (oi + b - 64) as u64;
    let ej = (oj + b - 64) as u64;
    // The first word that the read of j looks at.
    assert((nd[wj] >> oj) & mask64(b) == (data[wj] >> oj) & mask64(b)) by {
        if wj == wi {
            lemma_word_field_frame(data[wi], vi, b, oi, oj);
        } else if si_span && wj == wi + 1 {
            lemma_word_low_frame(data[wj], vi >> ((b - ei) as u64), b, ei, oj);
        } else {
        }
    }
    if sj_span {
        // The second word that the read of j looks at.
        assert(nd[wj + 1] & mask64(ej) == data[wj + 1] & mask64(ej)) by {
            if wj + 1 == wi {
                lemma_word_field_low_frame(data[wi], vi, b, oi, ej);
            } else if si_span && wj + 1 == wi + 1 {
                assert(false);
            } else {
            }
        }
    }
}

proof fn lemma_word_read_range(x: i64, y: i64, b: u64, off: u64, e: u64)
    requires
        1 <= b <= 15,
        off < 64,
        off + b > 64 ==> e == off + b - 64,
    ensures
        (((x >> off) & mask64(b)) as u16) as i64 <= mask64(b),
        off + b > 64 ==> ((((x >> off) & mask64(b)) | ((y & mask64(e)) << ((b - e) as u64)))
            as u16) as i64 <= mask64(b),
{
    assert((((x >> off) & mask64(b)) as u16) as i64 <= mask64(b)) by (bit_vector)
        requires
            1 <= b <= 15,
            off < 64,
    ;
    assert(off + b > 64 ==> ((((x >> off) & mask64(b)) | ((y & mask64(e)) << ((b - e) as u64)))
        as u16) as i64 <= mask64(b)) by (bit_vector)
        requires
            1 <= b <= 15,
            off < 64,
            off + b > 64 ==> e == off + b - 64,
    ;
}

/// An entry at most 15 bits wide reads as a value that fits in its width.
pub proof fn lemma_read_range(data: Seq<i64>, bits: nat, idx: nat)
    requires
        1 <= bits <= 15,
        entry_in_bounds(data.len(), bits, idx),
    ensures
        (packed_read(data, bits, idx) as i64) <= mask64(bits as u64),
{
    let w = entry_word(bits, idx);
    assert(0 <= w < data.len()) by {
        assert((idx * bits) as int / 64 <= (idx * bits + bits - 1) / 64);
    }
    let off = entry_offset(bits, idx) as u64;
    let b = bits as u64;
    if entry_spans(bits, idx) {
        assert(w + 1 < data.len()) by {
            assert((idx * bits + bits - 1) / 64 >= w + 1);
        }
        lemma_word_read_range(data[w], data[w + 1], b, off, (off + b - 64) as u64);
    } else {
        lemma_word_read_range(data[w], data[w], b, off, 0);
    }
}

/// A value that fits in `b` bits is left as it is by the `b`-bit mask, and a wider
/// mask lets through everything a narrower one does.
pub proof fn lemma_mask_facts(v: i64, b1: u64, b2: u64)
    requires
        b1 <= b2 < 63,
    ensures
        mask64(b1) <= mask64(b2),
        0 <= v <= mask64(b2) ==> v & mask64(b2) == v,
{
    assert(mask64(b1) <= mask64(b2)) by (bit_vector)
        requires
            b1 <= b2 < 63,
    ;
    assert(0 <= v <= mask64(b2) ==> v & mask64(b2) == v) by (bit_vector)
        requires
            b2 < 63,
    ;
}

} // verus!
