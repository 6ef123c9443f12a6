//! The registers of a HyperLogLog sketch. Turning registers into an
//! estimate is floating-point work and happens outside the library.

use vstd::prelude::*;

use vstd::std_specs::bits::u64_leading_zeros;

verus! {

#[derive(Debug, Clone)]
pub struct HyperLogLog {
    precision: u8,
    registers: Vec<u8>,
}

/// The finalizer that spreads a hash's bits before it is split into a
/// register index and a rank.
pub open spec fn mix64_spec(value: u64) -> u64 {
    let a = value ^ (value >> 33u64);
    let b = a.wrapping_mul(0xff51_afd7_ed55_8ccdu64);
    let c = b ^ (b >> 33u64);
    let d = c.wrapping_mul(0xc4ce_b9fe_1a85_ec53u64);
    d ^ (d >> 33u64)
}

/// The register a hash goes to: the top `precision` bits of its mix.
pub open spec fn register_index(hash: u64, precision: u8) -> u64 {
    mix64_spec(hash) >> ((64 - precision) as u64)
}

/// The rank a hash gives its register: one more than the number of leading
/// zeros of the mix's remaining bits, at most `65 - precision`.
pub open spec fn register_rank(hash: u64, precision: u8) -> int {
    let zeros = u64_leading_zeros(mix64_spec(hash) << (precision as u64));
    if zeros + 1 <= 65 - precision {
        zeros + 1
    } else {
        65 - precision
    }
}

/// The number of registers at a precision.
pub open spec fn register_count(precision: u8) -> u64 {
    1u64 << (precision as u64)
}

/// The registers after one hash: its register keeps the larger of its value
/// and the hash's rank, every other register is unchanged.
pub open spec fn registers_after(registers: Seq<u8>, hash: u64, precision: u8) -> Seq<u8> {
    let index = register_index(hash, precision) as int;
    let rank = register_rank(hash, precision);
    let previous = registers[index];
    registers.update(index, if previous >= rank { previous } else { rank as u8 })
}

proof fn lemma_register_index_in_range(hash: u64, precision: u8)
    requires
        1 <= precision <= 31,
    ensures
        register_index(hash, precision) < register_count(precision),
{
    let mixed = mix64_spec(hash);
    let index = register_index(hash, precision);
    let count = register_count(precision);
    assert(index < count) by (bit_vector)
        requires
            1 <= precision <= 31,
            index == mixed >> ((64 - precision) as u64),
            count == 1u64 << (precision as u64),
    ;
}

/// A hash never lowers a register, and the registers it gives are the same
/// whether it was seen once or twice.
pub proof fn lemma_registers_monotone_idempotent(registers: Seq<u8>, hash: u64, precision: u8)
    requires
        1 <= precision <= 31,
        registers.len() == register_count(precision),
    ensures
        registers_after(registers, hash, precision).len() == registers.len(),
        forall|i: int| 0 <= i < registers.len() ==> registers[i] <= #[trigger] registers_after(registers, hash, precision)[i],
        registers_after(registers_after(registers, hash, precision), hash, precision) == registers_after(
            registers,
            hash,
            precision,
        ),
{
    lemma_register_index_in_range(hash, precision);
    let once = registers_after(registers, hash, precision);
    assert(registers_after(once, hash, precision) =~= once);
}

/// The registers do not depend on the order in which two hashes arrive, so
/// the estimate of a stream does not depend on its order.
pub proof fn lemma_registers_order_independent(registers: Seq<u8>, first: u64, second: u64, precision: u8)
    requires
        1 <= precision <= 31,
        registers.len() == register_count(precision),
    ensures
        registers_after(registers_after(registers, first, precision), second, precision) == registers_after(
            registers_after(registers, second, precision),
            first,
            precision,
        ),
{
    lemma_register_index_in_range(first, precision);
    lemma_register_index_in_range(second, precision);
    assert(registers_after(registers_after(registers, first, precision), second, precision) =~= registers_after(
        registers_after(registers, second, precision),
        first,
        precision,
    ));
}

/// Inserting a hash sets its register (the top `precision` bits of the
/// hash's mix) to at least 1 and to at most `65 - precision` (or leaves a
/// larger value there): the rank is one more than the number of leading
/// zeros of the mix's remaining bits, so it is 1 when the first of those
/// bits is set, at least 2 otherwise, and `65 - precision` when they are all
/// zero. Every
/// other register keeps its value.
pub proof fn lemma_insert_sets_rank(registers: Seq<u8>, hash: u64, precision: u8)
    requires
        1 <= precision <= 31,
        registers.len() == register_count(precision),
    ensures
        ({
            let index = register_index(hash, precision) as int;
            let after = registers_after(registers, hash, precision);
            let rest = mix64_spec(hash) << (precision as u64);
            &&& 0 <= index < registers.len()
            &&& after.len() == registers.len()
            &&& after[index] >= 1
            &&& after[index] >= registers[index]
            &&& after[index] == registers[index] || after[index] <= 65 - precision
            &&& (rest >> 63u64) == 1 ==> after[index] == (if registers[index] >= 1 { registers[index] } else { 1u8 })
            &&& (rest >> 63u64) == 0 ==> after[index] >= 2
            &&& rest == 0 ==> after[index] == (if registers[index] >= 65 - precision {
                registers[index]
            } else {
                (65 - precision) as u8
            })
            &&& forall|i: int| 0 <= i < registers.len() && i != index ==> #[trigger] after[i] == registers[i]
        }),
{
    lemma_register_index_in_range(hash, precision);
    let rest = mix64_spec(hash) << (precision as u64);
    vstd::std_specs::bits::axiom_u64_leading_zeros(rest);
    let zeros = u64_leading_zeros(rest);
    if (rest >> 63u64) == 1 {
        if zeros > 0 {
            assert((rest >> 63u64) & 1u64 == 0u64);
            assert((rest >> 63u64) & 1u64 == 1u64) by (bit_vector)
                requires
                    (rest >> 63u64) == 1,
            ;
        }
    }
    if (rest >> 63u64) == 0 && rest != 0 {
        if zeros == 0 {
            assert((rest >> 63u64) & 1u64 != 0u64);
            assert((rest >> 63u64) & 1u64 == 0u64) by (bit_vector)
                requires
                    (rest >> 63u64) == 0,
            ;
        }
    }
}

fn mix64(value: u64) -> (mixed: u64)
    ensures
        mixed == mix64_spec(value),
{
    let mut value = value;
    value = value ^ (value >> 33u64);
    value = value.wrapping_mul(0xff51_afd7_ed55_8ccdu64);
    value = value ^ (value >> 33u64);
    value = value.wrapping_mul(0xc4ce_b9fe_1a85_ec53u64);
    value ^ (value >> 33u64)
}

impl HyperLogLog {
    pub closed spec fn precision_spec(&self) -> u8 {
        self.precision
    }

    /// The registers, one per index.
    pub closed spec fn register_values(&self) -> Seq<u8> {
        self.registers@
    }

    /// The precision is one the sketch supports and there is one register
    /// per index.
    pub open spec fn wf(&self) -> bool {
        &&& 1 <= self.precision_spec() <= 31
        &&& self.register_values().len() == register_count(self.precision_spec())
    }

    /// A sketch with `2^precision` empty registers. The precision must leave
    /// at least one bit for the rank and keep the register count within a
    /// 32-bit index.
    pub fn new(precision: u8) -> (sketch: Self)
        requires
            1 <= precision <= 31,
        ensures
            sketch.wf(),
            sketch.precision_spec() == precision,
            forall|i: int| 0 <= i < sketch.register_values().len() ==> #[trigger] sketch.register_values()[i] == 0,
    {
        let count: u64 = 1u64 << (precision as u64);
        assert(count <= 0x8000_0000u64) by (bit_vector)
            requires
                1 <= precision <= 31,
                count == 1u64 << (precision as u64),
        ;
        let mut registers: Vec<u8> = Vec::new();
        let mut filled: u64 = 0;
        while filled < count
            invariant
                filled <= count,
                count <= 0x8000_0000u64,
                registers@.len() == filled,
                forall|i: int| 0 <= i < registers@.len() ==> #[trigger] registers@[i] == 0,
            decreases count - filled,
        {
            registers.push(0u8);
            filled = filled + 1;
        }
        HyperLogLog { precision, registers }
    }

    /// Records a hash: its register keeps the larger of its value and the
    /// hash's rank.
    pub fn insert_hash(&mut self, hash: u64)
        requires
            old(self).wf(),
        ensures
            final(self).wf(),
            final(self).precision_spec() == old(self).precision_spec(),
            final(self).register_values() == registers_after(old(self).register_values(), hash, old(self).precision_spec()),
    {
        let precision = self.precision;
        let mixed = mix64(hash);
        let index = mixed >> ((64 - precision) as u64);
        let count = 1u64 << (precision as u64);
        assert(index < count) by (bit_vector)
            requires
                1 <= precision <= 31,
                index == mixed >> ((64 - precision) as u64),
                count == 1u64 << (precision as u64),
        ;
        assert(count <= 0x8000_0000u64) by (bit_vector)
            requires
                1 <= precision <= 31,
                count == 1u64 << (precision as u64),
        ;
        let shifted = mixed << (precision as u64);
        let zeros = shifted.leading_zeros();
        proof {
            vstd::std_specs::bits::axiom_u64_leading_zeros(shifted);
        }
        let max_rank: u32 = 64 - (precision as u32) + 1;
        let rank: u32 = if zeros + 1 <= max_rank { zeros + 1 } else { max_rank };
        let slot = index as usize;
        let previous = self.registers[slot];
        let next = if (previous as u32) >= rank { previous } else { rank as u8 };
        self.registers.set(slot, next);
    }

    /// The precision the sketch was made with.
    pub fn precision(&self) -> (precision: u8)
        ensures
            precision == self.precision_spec(),
    {
        self.precision
    }

    /// The registers, one per index, for the estimate.
    pub fn registers(&self) -> (registers: &Vec<u8>)
        ensures
            registers@ == self.register_values(),
    {
        &self.registers
    }
}

} // verus!
