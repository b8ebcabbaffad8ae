use vstd::prelude::*;
use vstd::array::array_as_slice;
use vstd::bytes::{
    lemma_auto_spec_u32_to_from_le_bytes, lemma_auto_spec_u64_to_from_le_bytes, spec_u32_from_le_bytes,
    spec_u32_to_le_bytes, spec_u64_from_le_bytes, spec_u64_to_le_bytes,
};
use vstd::endian::{endianness, Endian};
use vstd::slice::slice_subrange;

verus! {

broadcast use vstd::layout::layout_of_primitives;

/// Size in bytes of the host's per-instance state block.
pub const STATE_BLOCK_SIZE: usize = 80;

/// Width in bytes of a pointer on the running machine.
pub open spec fn pointer_width() -> int {
    usize::BITS as int / 8
}

/// The bytes of a number in the machine's byte order, given its bytes from
/// least to most significant (and the other way round).
pub open spec fn native_order(bytes: Seq<u8>) -> Seq<u8> {
    match endianness() {
        Endian::Little => bytes,
        Endian::Big => bytes.reverse(),
    }
}

/// Unsigned 32-bit value stored in the machine's byte order at `off`.
pub open spec fn u32_at(b: Seq<u8>, off: int) -> u32 {
    spec_u32_from_le_bytes(native_order(b.subrange(off, off + 4)))
}

/// Unsigned 64-bit value stored in the machine's byte order at `off`.
pub open spec fn u64_at(b: Seq<u8>, off: int) -> u64 {
    spec_u64_from_le_bytes(native_order(b.subrange(off, off + 8)))
}

/// Pointer-sized value (an address) stored in the machine's byte order at `off`.
pub open spec fn word_at(b: Seq<u8>, off: int) -> usize {
    if pointer_width() == 8 {
        u64_at(b, off) as usize
    } else {
        u32_at(b, off) as usize
    }
}

/// Bytes of a pointer-sized value in the machine's byte order.
pub open spec fn word_bytes(addr: usize) -> Seq<u8> {
    if pointer_width() == 8 {
        native_order(spec_u64_to_le_bytes(addr as u64))
    } else {
        native_order(spec_u32_to_le_bytes(addr as u32))
    }
}

proof fn lemma_native_order(bytes: Seq<u8>)
    ensures
        native_order(bytes).len() == bytes.len(),
        native_order(native_order(bytes)) == bytes,
{
    if bytes.len() > 0 {
        assert(bytes.reverse().reverse() =~= bytes);
    } else {
        assert(bytes.reverse() =~= bytes);
    }
}

/// `u32::from_ne_bytes`: the number whose bytes, in the machine's byte
/// order, are `bytes`.
#[verifier::external_body]
fn u32_from_native_bytes(bytes: &[u8]) -> (v: u32)
    requires
        bytes@.len() == 4,
    ensures
        v == spec_u32_from_le_bytes(native_order(bytes@)),
{
    u32::from_ne_bytes(bytes.try_into().unwrap())
}

/// `u64::from_ne_bytes`: the number whose bytes, in the machine's byte
/// order, are `bytes`.
#[verifier::external_body]
fn u64_from_native_bytes(bytes: &[u8]) -> (v: u64)
    requires
        bytes@.len() == 8,
    ensures
        v == spec_u64_from_le_bytes(native_order(bytes@)),
{
    u64::from_ne_bytes(bytes.try_into().unwrap())
}

/// `u32::to_ne_bytes`: the bytes of `x` in the machine's byte order.
#[verifier::external_body]
fn u32_to_native_bytes(x: u32) -> (bytes: Vec<u8>)
    ensures
        bytes@ == native_order(spec_u32_to_le_bytes(x)),
{
    x.to_ne_bytes().to_vec()
}

/// `u64::to_ne_bytes`: the bytes of `x` in the machine's byte order.
#[verifier::external_body]
fn u64_to_native_bytes(x: u64) -> (bytes: Vec<u8>)
    ensures
        bytes@ == native_order(spec_u64_to_le_bytes(x)),
{
    x.to_ne_bytes().to_vec()
}

/// Offset of the side-chain buffer address.
pub open spec fn sidechainbuffer_offset() -> int {
    24
}

/// Offset of the effect's own data address.
pub open spec fn effectdata_offset() -> int {
    24 + pointer_width()
}

/// Offset of the host flags.
pub open spec fn flags_offset() -> int {
    24 + 2 * pointer_width()
}

/// Offset of the host's internal address: the word after the flags, aligned
/// to the pointer width (on 64-bit machines, four bytes of padding follow
/// the flags).
pub open spec fn internal_offset() -> int {
    24 + 3 * pointer_width()
}

/// Offset of the spatializer data address, the word after the host's
/// internal address.
pub open spec fn spatializerdata_offset() -> int {
    24 + 4 * pointer_width()
}

/// Offset of the DSP buffer size.
pub open spec fn dspbuffersize_offset() -> int {
    24 + 5 * pointer_width()
}

/// Offset of the host's API version.
pub open spec fn hostapiversion_offset() -> int {
    28 + 5 * pointer_width()
}

/// Offset of the ambisonic data address.
pub open spec fn ambisonicdata_offset() -> int {
    32 + 5 * pointer_width()
}

/// Size of the state structure, as the host filled it in.
pub open spec fn structsize_of(b: Seq<u8>) -> u32 {
    u32_at(b, 0)
}

/// System sample rate.
pub open spec fn samplerate_of(b: Seq<u8>) -> u32 {
    u32_at(b, 4)
}

/// Sample counter at the start of the block being processed.
pub open spec fn currdsptick_of(b: Seq<u8>) -> u64 {
    u64_at(b, 8)
}

/// Sample counter of the previous block.
pub open spec fn prevdsptick_of(b: Seq<u8>) -> u64 {
    u64_at(b, 16)
}

/// Address of the side-chain buffer.
pub open spec fn sidechainbuffer_of(b: Seq<u8>) -> usize {
    word_at(b, sidechainbuffer_offset())
}

/// Address of the effect's own data.
pub open spec fn effectdata_of(b: Seq<u8>) -> usize {
    word_at(b, effectdata_offset())
}

/// Flags that the host sets.
pub open spec fn flags_of(b: Seq<u8>) -> u32 {
    u32_at(b, flags_offset())
}

/// Address of the spatializer data.
pub open spec fn spatializerdata_of(b: Seq<u8>) -> usize {
    word_at(b, spatializerdata_offset())
}

/// Number of frames per processing block.
pub open spec fn dspbuffersize_of(b: Seq<u8>) -> u32 {
    u32_at(b, dspbuffersize_offset())
}

/// Plugin API version of the host.
pub open spec fn hostapiversion_of(b: Seq<u8>) -> u32 {
    u32_at(b, hostapiversion_offset())
}

/// Address of the ambisonic data.
pub open spec fn ambisonicdata_of(b: Seq<u8>) -> usize {
    word_at(b, ambisonicdata_offset())
}

/// The block with the effect's data address replaced by `addr`.
pub open spec fn with_effect_data(b: Seq<u8>, addr: usize) -> Seq<u8> {
    b.take(effectdata_offset()) + word_bytes(addr) + b.skip(effectdata_offset() + pointer_width())
}

/// The host's per-instance state block: 80 bytes holding the host's C
/// structure, whose fields lie at their C offsets with pointers the machine's
/// word width and aligned to it, each stored in the machine's byte order.
pub struct UnityAudioEffectState {
    bytes: [u8; 80],
}

impl View for UnityAudioEffectState {
    type V = Seq<u8>;

    closed spec fn view(&self) -> Seq<u8> {
        self.bytes@
    }
}

fn pointer_bytes() -> (w: usize)
    ensures
        w == pointer_width(),
        w == 4 || w == 8,
{
    core::mem::size_of::<usize>()
}

fn read_u32(bytes: &[u8; 80], off: usize) -> (v: u32)
    requires
        off + 4 <= 80,
    ensures
        v == u32_at(bytes@, off as int),
{
    let s = array_as_slice(bytes);
    u32_from_native_bytes(slice_subrange(s, off, off + 4))
}

fn read_u64(bytes: &[u8; 80], off: usize) -> (v: u64)
    requires
        off + 8 <= 80,
    ensures
        v == u64_at(bytes@, off as int),
{
    let s = array_as_slice(bytes);
    u64_from_native_bytes(slice_subrange(s, off, off + 8))
}

fn read_word(bytes: &[u8; 80], off: usize) -> (v: usize)
    requires
        off + pointer_width() <= 80,
    ensures
        v == word_at(bytes@, off as int),
{
    if pointer_bytes() == 8 {
        read_u64(bytes, off) as usize
    } else {
        read_u32(bytes, off) as usize
    }
}

impl UnityAudioEffectState {
    /// The state block holding exactly `bytes`.
    pub fn from_bytes(bytes: [u8; 80]) -> (s: Self)
        ensures
            s@ == bytes@,
    {
        UnityAudioEffectState { bytes }
    }

    /// The bytes of the state block.
    pub fn to_bytes(&self) -> (b: [u8; 80])
        ensures
            b@ == self@,
    {
        self.bytes
    }

    /// Size of this struct.
    pub fn structsize(&self) -> (v: u32)
        ensures
            v == structsize_of(self@),
            v == u32_at(self@, 0),
    {
        read_u32(&self.bytes, 0)
    }

    /// System sample rate.
    pub fn samplerate(&self) -> (v: u32)
        ensures
            v == samplerate_of(self@),
            v == u32_at(self@, 4),
    {
        read_u32(&self.bytes, 4)
    }

    /// Sample counter marking the start of the current block being processed.
    pub fn currdsptick(&self) -> (v: u64)
        ensures
            v == currdsptick_of(self@),
            v == u64_at(self@, 8),
    {
        read_u64(&self.bytes, 8)
    }

    /// Used for determining when DSPs are bypassed and so sidechain info becomes invalid.
    pub fn prevdsptick(&self) -> (v: u64)
        ensures
            v == prevdsptick_of(self@),
            v == u64_at(self@, 16),
    {
        read_u64(&self.bytes, 16)
    }

    /// Address of the side-chain buffers to read from.
    pub fn sidechainbuffer(&self) -> (v: usize)
        ensures
            v == sidechainbuffer_of(self@),
            v == word_at(self@, 24),
    {
        read_word(&self.bytes, 24)
    }

    /// Address of the internal data of the effect.
    pub fn effectdata(&self) -> (v: usize)
        ensures
            v == effectdata_of(self@),
            v == word_at(self@, 24 + pointer_width()),
    {
        let w = pointer_bytes();
        read_word(&self.bytes, 24 + w)
    }

    /// Various flags through which information can be queried from the host.
    pub fn flags(&self) -> (v: u32)
        ensures
            v == flags_of(self@),
            v == u32_at(self@, 24 + 2 * pointer_width()),
    {
        let w = pointer_bytes();
        read_u32(&self.bytes, 24 + 2 * w)
    }

    /// Address of the data for spatializers.
    pub fn spatializerdata(&self) -> (v: usize)
        ensures
            v == spatializerdata_of(self@),
            v == word_at(self@, 24 + 4 * pointer_width()),
    {
        let w = pointer_bytes();
        read_word(&self.bytes, 24 + 4 * w)
    }

    /// Number of frames being processed per process callback.
    pub fn dspbuffersize(&self) -> (v: u32)
        ensures
            v == dspbuffersize_of(self@),
            v == u32_at(self@, 24 + 5 * pointer_width()),
    {
        let w = pointer_bytes();
        read_u32(&self.bytes, 24 + 5 * w)
    }

    /// Version of plugin API used by host.
    pub fn hostapiversion(&self) -> (v: u32)
        ensures
            v == hostapiversion_of(self@),
            v == u32_at(self@, 28 + 5 * pointer_width()),
    {
        let w = pointer_bytes();
        read_u32(&self.bytes, 28 + 5 * w)
    }

    /// Address of the data for ambisonic plugins.
    pub fn ambisonicdata(&self) -> (v: usize)
        ensures
            v == ambisonicdata_of(self@),
            v == word_at(self@, 32 + 5 * pointer_width()),
    {
        let w = pointer_bytes();
        read_word(&self.bytes, 32 + 5 * w)
    }

    /// Whether the effect's data address has been set (is not null).
    pub fn has_effect_data(&self) -> (b: bool)
        ensures
            b == (effectdata_of(self@) != 0),
    {
        self.effectdata() != 0
    }

    /// Stores `addr` as the address of the effect's data.
    pub fn write_effect_data(&mut self, addr: usize)
        ensures
            final(self)@ == with_effect_data(old(self)@, addr),
            effectdata_of(final(self)@) == addr,
            word_at(final(self)@, 24 + pointer_width()) == addr,
            forall|i: int|
                0 <= i < STATE_BLOCK_SIZE && !(24 + pointer_width() <= i < 24 + 2 * pointer_width())
                    ==> #[trigger] final(self)@[i] == old(self)@[i],
    {
        let w = pointer_bytes();
        let off: usize = 24 + w;
        let enc: Vec<u8> = if w == 8 {
            u64_to_native_bytes(addr as u64)
        } else {
            u32_to_native_bytes(addr as u32)
        };
        proof {
            lemma_auto_spec_u32_to_from_le_bytes();
            lemma_auto_spec_u64_to_from_le_bytes();
            lemma_native_order(spec_u64_to_le_bytes(addr as u64));
            lemma_native_order(spec_u32_to_le_bytes(addr as u32));
        }
        assert(enc@ == word_bytes(addr));
        let ghost start = self.bytes@;
        let mut i: usize = 0;
        while i < w
            invariant
                w == pointer_width(),
                w == 4 || w == 8,
                off == 24 + w,
                enc@ == word_bytes(addr),
                enc@.len() == w,
                0 <= i <= w,
                self.bytes@.len() == 80,
                start.len() == 80,
                forall|j: int|
                    0 <= j < 80 ==> #[trigger] self.bytes@[j] == if off <= j < off + i {
                        enc@[j - off]
                    } else {
                        start[j]
                    },
            decreases w - i,
        {
            let ghost prev = self.bytes@;
            self.bytes[off + i] = enc[i];
            assert(self.bytes@ == prev.update(off + i, enc@[i as int]));
            i = i + 1;
        }
        assert(self.bytes@ =~= with_effect_data(start, addr));
        proof {
            lemma_effect_data_write_read(start, addr);
        }
    }
}

/// The fields lie where the host's C structure puts them, for either pointer
/// width: the two ticks after the two 32-bit sizes, then the side-chain and
/// effect-data pointers, the 32-bit flags, the host's internal pointer
/// aligned to the pointer width, the spatializer pointer, the two 32-bit
/// buffer size and API version, and the ambisonic pointer, all within the
/// 80-byte block and none overlapping the next.
pub proof fn lemma_state_layout()
    ensures
        pointer_width() == 4 || pointer_width() == 8,
        sidechainbuffer_offset() == 24,
        effectdata_offset() == sidechainbuffer_offset() + pointer_width(),
        flags_offset() == effectdata_offset() + pointer_width(),
        internal_offset() == flags_offset() + pointer_width(),
        internal_offset() % pointer_width() == 0,
        spatializerdata_offset() == internal_offset() + pointer_width(),
        dspbuffersize_offset() == spatializerdata_offset() + pointer_width(),
        hostapiversion_offset() == dspbuffersize_offset() + 4,
        ambisonicdata_offset() == hostapiversion_offset() + 4,
        ambisonicdata_offset() % pointer_width() == 0,
        ambisonicdata_offset() + pointer_width() <= STATE_BLOCK_SIZE,
        pointer_width() == 8 ==> {
            &&& effectdata_offset() == 32
            &&& flags_offset() == 40
            &&& spatializerdata_offset() == 56
            &&& dspbuffersize_offset() == 64
            &&& hostapiversion_offset() == 68
            &&& ambisonicdata_offset() == 72
        },
        pointer_width() == 4 ==> {
            &&& effectdata_offset() == 28
            &&& flags_offset() == 32
            &&& spatializerdata_offset() == 40
            &&& dspbuffersize_offset() == 44
            &&& hostapiversion_offset() == 48
            &&& ambisonicdata_offset() == 52
        },
{
}

/// What a write of the effect's data address stores is what a later read of
/// that address gives back, and every other field of the state keeps its value.
pub proof fn lemma_effect_data_write_read(b: Seq<u8>, addr: usize)
    requires
        b.len() == STATE_BLOCK_SIZE,
    ensures
        with_effect_data(b, addr).len() == STATE_BLOCK_SIZE,
        effectdata_of(with_effect_data(b, addr)) == addr,
        structsize_of(with_effect_data(b, addr)) == structsize_of(b),
        samplerate_of(with_effect_data(b, addr)) == samplerate_of(b),
        currdsptick_of(with_effect_data(b, addr)) == currdsptick_of(b),
        prevdsptick_of(with_effect_data(b, addr)) == prevdsptick_of(b),
        sidechainbuffer_of(with_effect_data(b, addr)) == sidechainbuffer_of(b),
        flags_of(with_effect_data(b, addr)) == flags_of(b),
        spatializerdata_of(with_effect_data(b, addr)) == spatializerdata_of(b),
        dspbuffersize_of(with_effect_data(b, addr)) == dspbuffersize_of(b),
        hostapiversion_of(with_effect_data(b, addr)) == hostapiversion_of(b),
        ambisonicdata_of(with_effect_data(b, addr)) == ambisonicdata_of(b),
{
    lemma_auto_spec_u32_to_from_le_bytes();
    lemma_auto_spec_u64_to_from_le_bytes();
    let w = pointer_width();
    let off = effectdata_offset();
    let nb = with_effect_data(b, addr);
    lemma_native_order(spec_u64_to_le_bytes(addr as u64));
    lemma_native_order(spec_u32_to_le_bytes(addr as u32));
    assert(w == 4 || w == 8);
    assert(word_bytes(addr).len() == w);
    assert(nb.len() == 80);
    assert(nb.subrange(off, off + w) =~= word_bytes(addr));
    if w == 8 {
        assert((addr as u64) as usize == addr);
    } else {
        assert((addr as u32) as usize == addr);
    }
    assert(nb.subrange(0, 4) =~= b.subrange(0, 4));
    assert(nb.subrange(4, 8) =~= b.subrange(4, 8));
    assert(nb.subrange(8, 16) =~= b.subrange(8, 16));
    assert(nb.subrange(16, 24) =~= b.subrange(16, 24));
    assert(nb.subrange(24, 24 + w) =~= b.subrange(24, 24 + w));
    assert(nb.subrange(24 + 2 * w, 28 + 2 * w) =~= b.subrange(24 + 2 * w, 28 + 2 * w));
    assert(nb.subrange(24 + 4 * w, 24 + 5 * w) =~= b.subrange(24 + 4 * w, 24 + 5 * w));
    assert(nb.subrange(24 + 5 * w, 28 + 5 * w) =~= b.subrange(24 + 5 * w, 28 + 5 * w));
    assert(nb.subrange(28 + 5 * w, 32 + 5 * w) =~= b.subrange(28 + 5 * w, 32 + 5 * w));
    assert(nb.subrange(32 + 5 * w, 32 + 6 * w) =~= b.subrange(32 + 5 * w, 32 + 6 * w));
}

/// Storing back the address that was read before a write restores the whole
/// block: an effect that stores its data address on creation and clears it
/// on release leaves the host's block as it found it, when the address was
/// null before creation.
pub proof fn lemma_effect_data_restore(b: Seq<u8>, addr: usize)
    requires
        b.len() == STATE_BLOCK_SIZE,
    ensures
        with_effect_data(with_effect_data(b, addr), effectdata_of(b)) == b,
{
    lemma_auto_spec_u32_to_from_le_bytes();
    lemma_auto_spec_u64_to_from_le_bytes();
    let w = pointer_width();
    let off = effectdata_offset();
    let old_word = b.subrange(off, off + w);
    lemma_native_order(old_word);
    assert(w == 4 || w == 8);
    if w == 8 {
        assert((u64_at(b, off) as usize) as u64 == u64_at(b, off));
    } else {
        assert((u32_at(b, off) as usize) as u32 == u32_at(b, off));
    }
    assert(word_bytes(effectdata_of(b)) =~= old_word);
    assert(with_effect_data(with_effect_data(b, addr), effectdata_of(b)) =~= b);
}

} // verus!
