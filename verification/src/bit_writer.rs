use vstd::prelude::*;

use crate::decimal::{dec_chars, push_decimal};

verus! {

/// `std::io::Error`, carried through unopened.
#[verifier::external_type_specification]
#[verifier::external_body]
pub struct ExIoError(std::io::Error);

/// Why a write was refused.
#[derive(Debug)]
pub enum WriterError {
    InvalidBitCount(u8),
    Io(std::io::Error),
}

/// The `Display` text of an `std::io::Error`; what the text says is the
/// error's own and is not stated.
#[verifier::external_body]
fn io_error_text(e: &std::io::Error) -> String {
    format!("{}", e)
}

impl WriterError {
    /// The human-readable text of the error.
    pub fn message(&self) -> (s: String)
        ensures
            match self {
                WriterError::InvalidBitCount(n) => s@ == "Invalid bit count: "@ + dec_chars(n as nat),
                WriterError::Io(_) => s@.len() >= 10 && s@.subrange(0, 10) == "IO Error: "@,
            },
    {
        proof {
            reveal_strlit("Invalid bit count: ");
            reveal_strlit("IO Error: ");
        }
        let mut s = String::new();
        match self {
            WriterError::InvalidBitCount(bit_count) => {
                s.append("Invalid bit count: ");
                push_decimal(&mut s, *bit_count as u64);
            },
            WriterError::Io(io_error) => {
                s.append("IO Error: ");
                let t = io_error_text(io_error);
                s.append(t.as_str());
                assert(s@.subrange(0, 10) =~= "IO Error: "@);
            },
        }
        s
    }

    /// The underlying error, for an I/O failure.
    pub fn source(&self) -> (src: Option<&std::io::Error>)
        ensures
            match self {
                WriterError::Io(e) => src == Some(e),
                _ => src is None,
            },
    {
        match self {
            WriterError::Io(io_error) => Some(io_error),
            _ => None,
        }
    }
}

/// Packs values of a few bits each into bytes, most significant bit first.
#[derive(Debug)]
pub struct Writer {
    /// The completed bytes.
    pub packed: Vec<u8>,
    /// The byte being filled, from its top bit down.
    pub current_byte: u8,
    /// How many top bits of `current_byte` are filled, 0 to 8.
    pub num_bits_filled: u8,
}

/// The low `bit_count` bits of `value`.
pub open spec fn low_bits(value: u64, bit_count: u8) -> u64 {
    value & (((1u64 << bit_count) - 1) as u64)
}

/// `current | (bits << shift)`, cut to a byte.
pub open spec fn merge_into_byte(current: u8, bits: u64, shift: u8) -> u8 {
    current | ((bits << shift) as u8)
}

/// Whether the bits of `byte` below the top `filled` ones are all zero.
pub open spec fn unfilled_bits_clear(byte: u8, filled: u8) -> bool {
    (byte as u64) & (((1u64 << ((8 - filled) as u8)) - 1) as u64) == 0
}

/// Law (bit placement): when the free bits of the current byte are clear and
/// the value fits in them, writing keeps the bits already filled, puts the low
/// `bit_count` bits of the value right below them, and leaves the bits below
/// those clear.
pub proof fn lemma_write_places_bits(current: u8, filled: u8, value: u64, bit_count: u8)
    requires
        filled < 8,
        bit_count <= 8 - filled,
        unfilled_bits_clear(current, filled),
    ensures
        ({
            let shift = (8 - filled - bit_count) as u8;
            let byte = merge_into_byte(current, low_bits(value, bit_count), shift) as u64;
            &&& byte >> ((8 - filled) as u8) == (current as u64) >> ((8 - filled) as u8)
            &&& (byte >> shift) & (((1u64 << bit_count) - 1) as u64) == low_bits(value, bit_count)
            &&& unfilled_bits_clear(byte as u8, (filled + bit_count) as u8)
        }),
{
    let free = (8 - filled) as u8;
    let shift = (8 - filled - bit_count) as u8;
    assert(free == shift + bit_count);
    let cur = current as u64;
    let bits = low_bits(value, bit_count);
    assert(bits < (1u64 << bit_count)) by (bit_vector)
        requires
            bits == value & (((1u64 << bit_count) - 1) as u64),
            bit_count <= 8,
    ;
    let byte = merge_into_byte(current, bits, shift) as u64;
    assert(byte == cur | (bits << shift)) by (bit_vector)
        requires
            byte == (current | ((bits << shift) as u8)) as u64,
            cur == current as u64,
            bits < (1u64 << bit_count),
            free == shift + bit_count,
            free <= 8,
    ;
    assert(byte >> free == cur >> free && (byte >> shift) & (((1u64 << bit_count) - 1) as u64)
        == bits && byte & (((1u64 << shift) - 1) as u64) == 0) by (bit_vector)
        requires
            byte == cur | (bits << shift),
            cur < 256,
            cur & (((1u64 << free) - 1) as u64) == 0,
            bits < (1u64 << bit_count),
            free == shift + bit_count,
            free <= 8,
    ;
    assert((8 - ((filled + bit_count) as u8)) as u8 == shift);
}

/// Whether bit `s` of `x` (counting from the least significant) is set.
pub open spec fn bit_at(x: u64, s: u64) -> bool {
    (x >> s) & 1u64 == 1u64
}

/// Bit `j` of byte `b`, counting from the most significant (`j` = 0).
pub open spec fn byte_bit(b: u8, j: int) -> bool {
    bit_at(b as u64, (7 - j) as u64)
}

/// The eight bits of `b`, most significant first.
pub open spec fn byte_bits(b: u8) -> Seq<bool> {
    Seq::new(8, |j: int| byte_bit(b, j))
}

/// The bits of the bytes `p`, each byte most significant bit first.
pub open spec fn bytes_bits(p: Seq<u8>) -> Seq<bool>
    decreases p.len(),
{
    if p.len() == 0 {
        Seq::empty()
    } else {
        bytes_bits(p.drop_last()) + byte_bits(p.last())
    }
}

/// The low `n` bits of `v`, most significant first.
pub open spec fn value_bits(v: u64, n: nat) -> Seq<bool> {
    Seq::new(n, |i: int| bit_at(v, (n - 1 - i) as u64))
}

/// The first byte completed by a write that spills over: the current byte
/// with the top bits of the value below its filled bits.
pub open spec fn spill_first(current: u8, bits: u64, rest: u8) -> u8 {
    current | ((bits >> rest) as u8)
}

/// The whole bytes of a spilled write, from the low `rest` bits of `bits`.
pub open spec fn spill_middle(bits: u64, rest: u8) -> Seq<u8> {
    Seq::new((rest / 8) as nat, |k: int| (bits >> ((rest - 8 * (k + 1)) as u8)) as u8)
}

/// The new current byte of a spilled write: the low `r` bits of `bits` at
/// its top.
pub open spec fn spill_last(bits: u64, r: u8) -> u8 {
    ((bits & (((1u64 << r) - 1) as u64)) << ((8 - r) as u8)) as u8
}

proof fn bv_low(v: u64, c: u8, s: u64)
    by (bit_vector)
    requires
        s < c as u64,
        c < 64,
    ensures
        bit_at(low_bits(v, c), s) == bit_at(v, s),
        low_bits(v, c) < (1u64 << c),
{
}

proof fn bv_mid(m: u64, t: u8, j: u64)
    by (bit_vector)
    requires
        j < 8,
        t <= 56,
    ensures
        bit_at(((m >> t) as u8) as u64, (7 - j) as u64) == bit_at(m, (t + 7 - j) as u64),
{
}

proof fn bv_first(cur: u8, m: u64, filled: u8, rest: u8, j: u64)
    by (bit_vector)
    requires
        filled <= 8,
        j < 8,
        rest + 8 - filled < 64,
        m < (1u64 << ((rest + 8 - filled) as u8)),
        unfilled_bits_clear(cur, filled),
    ensures
        j < filled ==> bit_at((cur | ((m >> rest) as u8)) as u64, (7 - j) as u64) == bit_at(
            cur as u64,
            (7 - j) as u64,
        ),
        j >= filled ==> bit_at((cur | ((m >> rest) as u8)) as u64, (7 - j) as u64) == bit_at(
            m,
            (rest + 7 - j) as u64,
        ),
{
}

proof fn bv_within(cur: u8, m: u64, filled: u8, count: u8, j: u64)
    by (bit_vector)
    requires
        filled <= 8,
        count <= 8 - filled,
        j < 8,
        m < (1u64 << count),
        unfilled_bits_clear(cur, filled),
    ensures
        j < filled ==> bit_at(
            (cur | ((m << ((8 - filled - count) as u8)) as u8)) as u64,
            (7 - j) as u64,
        ) == bit_at(cur as u64, (7 - j) as u64),
        filled <= j < filled + count ==> bit_at(
            (cur | ((m << ((8 - filled - count) as u8)) as u8)) as u64,
            (7 - j) as u64,
        ) == bit_at(m, (filled + count - 1 - j) as u64),
        unfilled_bits_clear(
            (cur | ((m << ((8 - filled - count) as u8)) as u8)),
            (filled + count) as u8,
        ),
{
}

proof fn bv_low_lt(v: u64, c: u8)
    by (bit_vector)
    requires
        c < 64,
    ensures
        low_bits(v, c) < (1u64 << c),
{
}

proof fn bv_last(m: u64, r: u8, j: u64)
    by (bit_vector)
    requires
        r < 8,
        j < r,
    ensures
        bit_at(spill_last(m, r) as u64, (7 - j) as u64) == bit_at(m, (r - 1 - j) as u64),
{
}

proof fn bv_last_clear(m: u64, r: u8)
    by (bit_vector)
    requires
        r < 8,
    ensures
        unfilled_bits_clear(spill_last(m, r), r),
{
}

impl Writer {
    /// An empty writer.
    pub fn new() -> (w: Writer)
        ensures
            w.packed@ == Seq::<u8>::empty(),
            w.current_byte == 0,
            w.num_bits_filled == 0,
    {
        let packed: Vec<u8> = Vec::new();
        Writer { packed, current_byte: 0, num_bits_filled: 0 }
    }
}

/// Appending a byte appends its eight bits.
proof fn lemma_bytes_bits_push(p: Seq<u8>, b: u8)
    ensures
        bytes_bits(p.push(b)) == bytes_bits(p) + byte_bits(b),
{
    assert(p.push(b).drop_last() =~= p);
}

/// A write that fits in the current byte puts the value's bits right after
/// the filled ones.
proof fn lemma_within_bits(cur: u8, filled: u8, value: u64, count: u8)
    requires
        filled <= 8,
        count <= 8 - filled,
        unfilled_bits_clear(cur, filled),
    ensures
        byte_bits(merge_into_byte(cur, low_bits(value, count), (8 - filled - count) as u8)).take(
            filled + count,
        ) == byte_bits(cur).take(filled as int) + value_bits(value, count as nat),
        unfilled_bits_clear(
            merge_into_byte(cur, low_bits(value, count), (8 - filled - count) as u8),
            (filled + count) as u8,
        ),
{
    let m = low_bits(value, count);
    let nb = merge_into_byte(cur, m, (8 - filled - count) as u8);
    bv_low_lt(value, count);
    bv_within(cur, m, filled, count, 0);
    let lhs = byte_bits(nb).take(filled + count);
    let rhs = byte_bits(cur).take(filled as int) + value_bits(value, count as nat);
    assert forall|j: int| 0 <= j < filled + count implies lhs[j] == rhs[j] by {
        bv_within(cur, m, filled, count, j as u64);
        if j >= filled {
            bv_low(value, count, (filled + count - 1 - j) as u64);
        }
    }
    assert(lhs =~= rhs);
}

/// The first byte of a write that spills over holds the filled bits and then
/// the value's top bits.
proof fn lemma_first_bits(cur: u8, filled: u8, value: u64, count: u8)
    requires
        filled <= 8,
        count < 64,
        count > 8 - filled,
        unfilled_bits_clear(cur, filled),
    ensures
        byte_bits(spill_first(cur, low_bits(value, count), (count - (8 - filled)) as u8))
            == byte_bits(cur).take(filled as int) + value_bits(value, count as nat).take(
            8 - filled,
        ),
{
    let m = low_bits(value, count);
    let rest = (count - (8 - filled)) as u8;
    bv_low_lt(value, count);
    let lhs = byte_bits(spill_first(cur, m, rest));
    let rhs = byte_bits(cur).take(filled as int) + value_bits(value, count as nat).take(8 - filled);
    assert forall|j: int| 0 <= j < 8 implies lhs[j] == rhs[j] by {
        bv_first(cur, m, filled, rest, j as u64);
        if j >= filled {
            bv_low(value, count, (rest + 7 - j) as u64);
        }
    }
    assert(lhs =~= rhs);
}

/// A whole byte of a spilled write holds the next eight bits of the value.
proof fn lemma_mid_bits(value: u64, count: u8, r: u8)
    requires
        count < 64,
        8 <= r <= count,
    ensures
        byte_bits(((low_bits(value, count) >> ((r - 8) as u8)) as u8)) == value_bits(
            value,
            count as nat,
        ).subrange(count - r, count - r + 8),
{
    let m = low_bits(value, count);
    let t = (r - 8) as u8;
    let lhs = byte_bits(((m >> t) as u8));
    let rhs = value_bits(value, count as nat).subrange(count - r, count - r + 8);
    assert forall|j: int| 0 <= j < 8 implies lhs[j] == rhs[j] by {
        bv_mid(m, t, j as u64);
        bv_low(value, count, (t + 7 - j) as u64);
    }
    assert(lhs =~= rhs);
}

/// The new current byte of a spilled write holds the value's last bits.
proof fn lemma_last_bits(value: u64, count: u8, r: u8)
    requires
        count < 64,
        r < 8,
        r <= count,
    ensures
        byte_bits(spill_last(low_bits(value, count), r)).take(r as int) == value_bits(
            value,
            count as nat,
        ).subrange(count - r, count as int),
        unfilled_bits_clear(spill_last(low_bits(value, count), r), r),
{
    let m = low_bits(value, count);
    bv_last_clear(m, r);
    let lhs = byte_bits(spill_last(m, r)).take(r as int);
    let rhs = value_bits(value, count as nat).subrange(count - r, count as int);
    assert forall|j: int| 0 <= j < r implies lhs[j] == rhs[j] by {
        bv_last(m, r, j as u64);
        bv_low(value, count, (r - 1 - j) as u64);
    }
    assert(lhs =~= rhs);
}

impl Writer {
    /// The bits written so far, in order: those of the packed bytes, then the
    /// filled top bits of the current byte.
    pub open spec fn bit_stream(&self) -> Seq<bool> {
        bytes_bits(self.packed@) + byte_bits(self.current_byte).take(self.num_bits_filled as int)
    }

    /// Writes the low `bit_count` bits of `value`, most significant first,
    /// after the bits already written: into the free bits of the current byte,
    /// then, when they do not fit, into whole bytes and the top of a new
    /// current byte. Every full byte moves to `packed`.
    pub fn write(&mut self, value: u64, bit_count: u8) -> (result: Result<(), WriterError>)
        requires
            old(self).num_bits_filled <= 8,
            bit_count != 64,
        ensures
            bit_count > 64 ==> result == Err::<(), WriterError>(WriterError::InvalidBitCount(bit_count))
                && *final(self) == *old(self),
            bit_count < 64 ==> result is Ok,
            bit_count <= 8 - old(self).num_bits_filled ==> {
                let free = (8 - old(self).num_bits_filled) as u8;
                let byte = merge_into_byte(
                    old(self).current_byte,
                    low_bits(value, bit_count),
                    (free - bit_count) as u8,
                );
                if old(self).num_bits_filled + bit_count == 8 {
                    &&& final(self).packed@ == old(self).packed@.push(byte)
                    &&& final(self).current_byte == 0
                    &&& final(self).num_bits_filled == 0
                } else {
                    &&& final(self).packed@ == old(self).packed@
                    &&& final(self).current_byte == byte
                    &&& final(self).num_bits_filled == old(self).num_bits_filled + bit_count
                }
            },
            bit_count < 64 && bit_count > 8 - old(self).num_bits_filled ==> {
                let rest = (bit_count - (8 - old(self).num_bits_filled)) as u8;
                let bits = low_bits(value, bit_count);
                &&& final(self).packed@ == old(self).packed@.push(
                    spill_first(old(self).current_byte, bits, rest),
                ) + spill_middle(bits, rest)
                &&& final(self).current_byte == spill_last(bits, rest % 8)
                &&& final(self).num_bits_filled == rest % 8
            },
            bit_count < 64 && unfilled_bits_clear(old(self).current_byte, old(self).num_bits_filled)
                ==> {
                &&& final(self).bit_stream() == old(self).bit_stream() + value_bits(
                    value,
                    bit_count as nat,
                )
                &&& final(self).num_bits_filled < 8
                &&& unfilled_bits_clear(final(self).current_byte, final(self).num_bits_filled)
            },
    {
        if bit_count > 64 {
            return Err(WriterError::InvalidBitCount(bit_count));
        }
        let ghost old_packed = self.packed@;
        let ghost old_cur = self.current_byte;
        let ghost old_filled = self.num_bits_filled;
        let ghost vb = value_bits(value, bit_count as nat);
        let ghost clear = unfilled_bits_clear(old_cur, old_filled);
        let free_bit_left_in_current_byte = 8 - self.num_bits_filled;
        assert(1u64 << bit_count >= 1) by (bit_vector)
            requires
                bit_count < 64,
        ;
        let value_mask: u64 = (1u64 << bit_count) - 1;
        let masked_value = value & value_mask;
        assert(masked_value == low_bits(value, bit_count));
        if free_bit_left_in_current_byte >= bit_count {
            let shift = free_bit_left_in_current_byte - bit_count;
            let mask = #[verifier::truncate] ((masked_value << shift) as u8);
            self.current_byte |= mask;
            self.num_bits_filled += bit_count;
            proof {
                if clear {
                    lemma_within_bits(old_cur, old_filled, value, bit_count);
                }
            }
            if self.num_bits_filled == 8 {
                let ghost nb = self.current_byte;
                self.packed.push(self.current_byte);
                self.current_byte = 0;
                self.num_bits_filled = 0;
                proof {
                    if clear {
                        lemma_bytes_bits_push(old_packed, nb);
                        assert(byte_bits(nb).take(8) =~= byte_bits(nb));
                        assert(byte_bits(0u8).take(0) =~= Seq::<bool>::empty());
                        assert(self.bit_stream() =~= bytes_bits(old_packed) + byte_bits(
                            old_cur,
                        ).take(old_filled as int) + vb);
                        assert(unfilled_bits_clear(0u8, 0u8)) by (bit_vector);
                    }
                }
            } else {
                proof {
                    if clear {
                        assert(self.bit_stream() =~= bytes_bits(old_packed) + byte_bits(
                            old_cur,
                        ).take(old_filled as int) + vb);
                    }
                }
            }
        } else {
            let rest: u8 = bit_count - free_bit_left_in_current_byte;
            let first = self.current_byte | (#[verifier::truncate] ((masked_value >> rest) as u8));
            self.packed.push(first);
            proof {
                if clear {
                    lemma_first_bits(old_cur, old_filled, value, bit_count);
                    lemma_bytes_bits_push(old_packed, first);
                    assert(vb.take(bit_count - rest) =~= vb.take(8 - old_filled));
                }
                assert(spill_middle(masked_value, rest).take(0) =~= Seq::<u8>::empty());
                assert(self.packed@ =~= old_packed.push(spill_first(old_cur, masked_value, rest))
                    + spill_middle(masked_value, rest).take(0));
            }
            let mut r: u8 = rest;
            let ghost mut k: int = 0;
            while r >= 8
                invariant
                    bit_count < 64,
                    rest <= bit_count,
                    rest == r + 8 * k,
                    0 <= k,
                    masked_value == low_bits(value, bit_count),
                    vb == value_bits(value, bit_count as nat),
                    self.packed@ == old_packed.push(spill_first(old_cur, masked_value, rest))
                        + spill_middle(masked_value, rest).take(k),
                    clear ==> bytes_bits(self.packed@) == bytes_bits(old_packed) + byte_bits(
                        old_cur,
                    ).take(old_filled as int) + vb.take(bit_count - r),
                decreases r,
            {
                let b = #[verifier::truncate] ((masked_value >> (r - 8)) as u8);
                let ghost before = self.packed@;
                self.packed.push(b);
                proof {
                    let sm = spill_middle(masked_value, rest);
                    assert(k + 1 <= rest / 8);
                    assert(sm[k] == b);
                    assert(sm.take(k + 1) =~= sm.take(k).push(b));
                    if clear {
                        lemma_mid_bits(value, bit_count, r);
                        lemma_bytes_bits_push(before, b);
                        assert(vb.take(bit_count - r) + vb.subrange(
                            bit_count - r,
                            bit_count - r + 8,
                        ) =~= vb.take(bit_count - r + 8));
                    }
                }
                r = r - 8;
                proof {
                    k = k + 1;
                }
            }
            assert(1u64 << r >= 1) by (bit_vector)
                requires
                    r < 8,
            ;
            let last = #[verifier::truncate] (((masked_value & ((1u64 << r) - 1)) << (8 - r)) as u8);
            self.current_byte = last;
            self.num_bits_filled = r;
            proof {
                assert(rest / 8 == k && rest % 8 == r);
                assert(spill_middle(masked_value, rest).take(k) =~= spill_middle(masked_value, rest));
                if clear {
                    lemma_last_bits(value, bit_count, r);
                    assert(vb.take(bit_count - r) + vb.subrange(bit_count - r, bit_count as int)
                        =~= vb);
                    assert(self.bit_stream() =~= bytes_bits(old_packed) + byte_bits(old_cur).take(
                        old_filled as int,
                    ) + vb);
                }
            }
        }
        Ok(())
    }
}

} // verus!
