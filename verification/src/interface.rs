use vstd::prelude::*;
use libc::{c_int, c_uint};

verus! {

/// Version of the native audio plugin API this library is written against.
pub const UNITY_AUDIO_PLUGIN_API_VERSION: usize = 0x010401;

/// Result code that a callback hands back to the host.
pub type UnityAudioDSPResult = c_int;

/// Result code that a callback reports when it handled the request.
pub const UNITY_AUDIODSP_OK: UnityAudioDSPResult = 0;

/// Result code that a callback reports when it does not support the request.
pub const UNITY_AUDIODSP_ERR_UNSUPPORTED: UnityAudioDSPResult = 1;

/// Outcome of a plugin callback.
#[derive(Clone, Copy, Debug, PartialEq, Eq, Structural)]
pub enum CallbackResult {
    Success,
    Unsupported,
}

/// The host-facing result code of each outcome.
pub open spec fn spec_result_code(r: CallbackResult) -> UnityAudioDSPResult {
    match r {
        CallbackResult::Success => UNITY_AUDIODSP_OK,
        CallbackResult::Unsupported => UNITY_AUDIODSP_ERR_UNSUPPORTED,
    }
}

impl CallbackResult {
    /// The result code handed back to the host for this outcome.
    pub fn code(self) -> (c: UnityAudioDSPResult)
        ensures
            c == spec_result_code(self),
    {
        match self {
            CallbackResult::Success => UNITY_AUDIODSP_OK,
            CallbackResult::Unsupported => UNITY_AUDIODSP_ERR_UNSUPPORTED,
        }
    }
}

/// Two different outcomes are never reported with the same code, and success
/// is reported as `UNITY_AUDIODSP_OK`.
pub proof fn lemma_result_codes_distinct(a: CallbackResult, b: CallbackResult)
    ensures
        spec_result_code(a) == spec_result_code(b) <==> a == b,
        spec_result_code(a) == UNITY_AUDIODSP_OK <==> a == CallbackResult::Success,
{
}

/// Sizes of a processing request that the host's arguments describe.
#[derive(Clone, Copy, Debug, PartialEq, Eq, Structural)]
pub struct ProcessShape {
    /// Number of frames in the block.
    pub frames: usize,
    /// Number of interleaved channels per frame.
    pub channels: usize,
    /// Number of samples in each of the input and output buffers.
    pub samples: usize,
}

/// The host's channel counts describe a block the effect processes: input and
/// output have the same number of channels, and it is not negative.
pub open spec fn process_request_accepted(inchannels: c_int, outchannels: c_int) -> bool {
    inchannels == outchannels && inchannels >= 0
}

/// Exactly the requests whose two channel counts agree and are not negative
/// are accepted: any number of channels is processed, and only a mismatch or
/// a negative count is refused.
pub proof fn lemma_process_request_accepted(inchannels: c_int, outchannels: c_int)
    ensures
        process_request_accepted(inchannels, outchannels) <==> (inchannels == outchannels && inchannels >= 0),
        forall|n: c_int| n >= 0 ==> #[trigger] process_request_accepted(n, n),
        inchannels != outchannels ==> !process_request_accepted(inchannels, outchannels),
        inchannels < 0 ==> !process_request_accepted(inchannels, outchannels),
{
}

/// Checks the arguments of a processing request and works out the block's
/// shape; a request with mismatched or negative channel counts is refused.
pub fn check_process_args(length: c_uint, inchannels: c_int, outchannels: c_int) -> (r: Result<ProcessShape, CallbackResult>)
    requires
        process_request_accepted(inchannels, outchannels) ==> length * inchannels <= c_uint::MAX,
    ensures
        r is Err <==> !process_request_accepted(inchannels, outchannels),
        r is Err <==> (inchannels != outchannels || inchannels < 0),
        r matches Err(e) ==> e == CallbackResult::Unsupported,
        r matches Ok(shape) ==> {
            &&& shape.frames == length
            &&& shape.channels == inchannels
            &&& shape.samples == length * inchannels
        },
{
    if inchannels != outchannels {
        return Err(CallbackResult::Unsupported);
    }
    if inchannels < 0 {
        return Err(CallbackResult::Unsupported);
    }
    let channels: c_uint = inchannels as c_uint;
    let samples: c_uint = length * channels;
    Ok(ProcessShape { frames: length as usize, channels: channels as usize, samples: samples as usize })
}

/// Checks the parameter index of a request to read or change a parameter; a
/// negative index is refused.
pub fn check_parameter_index(index: c_int) -> (r: Result<usize, CallbackResult>)
    ensures
        r is Err <==> index < 0,
        r matches Err(e) ==> e == CallbackResult::Unsupported,
        r matches Ok(i) ==> i == index,
{
    if index < 0 {
        return Err(CallbackResult::Unsupported);
    }
    Ok(index as usize)
}

/// Width in bytes of a parameter's name field.
pub const PARAMETER_NAME_WIDTH: usize = 16;

/// Width in bytes of an effect's name field.
pub const EFFECT_NAME_WIDTH: usize = 32;

/// A name field of `width` bytes: the name's bytes, then zeros.
pub open spec fn padded(name: Seq<u8>, width: int) -> Seq<u8> {
    name + Seq::new((width - name.len()) as nat, |_i: int| 0u8)
}

/// A name field holds the whole name, however long, followed by zeros up to
/// the field's width.
pub proof fn lemma_padded_holds_whole_name(name: Seq<u8>, width: int)
    requires
        name.len() <= width,
    ensures
        padded(name, width).len() == width,
        padded(name, width).take(name.len() as int) == name,
        forall|i: int| name.len() <= i < width ==> #[trigger] padded(name, width)[i] == 0u8,
{
    assert(padded(name, width).take(name.len() as int) =~= name);
}

/// Lays the bytes of `name` out in a zero-filled field of `width` bytes, as
/// the host expects the name of an effect or of a parameter.
pub fn padded_name(name: &[u8], width: usize) -> (field: Vec<u8>)
    requires
        name@.len() <= width,
    ensures
        field@ == padded(name@, width as int),
        field@.len() == width,
        forall|i: int| 0 <= i < name@.len() ==> #[trigger] field@[i] == name@[i],
        forall|i: int| name@.len() <= i < width ==> #[trigger] field@[i] == 0u8,
{
    let mut field: Vec<u8> = Vec::new();
    let n = name.len();
    let mut i: usize = 0;
    while i < width
        invariant
            n == name@.len(),
            n <= width,
            0 <= i <= width,
            field@.len() == i,
            forall|j: int| 0 <= j < i ==> #[trigger] field@[j] == padded(name@, width as int)[j],
        decreases width - i,
    {
        if i < n {
            field.push(name[i]);
        } else {
            field.push(0u8);
        }
        i = i + 1;
    }
    assert(field@ =~= padded(name@, width as int));
    field
}

/// Capabilities and requirements that an effect declares to the host.
#[derive(Clone, Copy, Debug, PartialEq, Eq, Structural)]
pub enum UnityAudioEffectDefinitionFlags {
    /// Does this effect need a side chain buffer and can it be targeted by a Send?
    IsSideChainTarget,
    /// Should this plugin be inserted at sources and take over panning?
    IsSpatializer,
    /// Should this plugin be used for ambisonic decoding?
    IsAmbisonicDecoder,
    /// Spatializers only: does this spatializer apply distance-based attenuation?
    AppliesDistanceAttenuation,
}

/// Bit of each definition flag in the definition's flag word.
pub open spec fn definition_flag_bit(f: UnityAudioEffectDefinitionFlags) -> u64 {
    match f {
        UnityAudioEffectDefinitionFlags::IsSideChainTarget => 1,
        UnityAudioEffectDefinitionFlags::IsSpatializer => 2,
        UnityAudioEffectDefinitionFlags::IsAmbisonicDecoder => 4,
        UnityAudioEffectDefinitionFlags::AppliesDistanceAttenuation => 8,
    }
}

impl UnityAudioEffectDefinitionFlags {
    /// The flag's bit in the definition's flag word.
    pub fn bit(self) -> (b: u64)
        ensures
            b == definition_flag_bit(self),
    {
        match self {
            UnityAudioEffectDefinitionFlags::IsSideChainTarget => 1,
            UnityAudioEffectDefinitionFlags::IsSpatializer => 2,
            UnityAudioEffectDefinitionFlags::IsAmbisonicDecoder => 4,
            UnityAudioEffectDefinitionFlags::AppliesDistanceAttenuation => 8,
        }
    }
}

/// Conditions that the host reports in an effect's state.
#[derive(Clone, Copy, Debug, PartialEq, Eq, Structural)]
pub enum UnityAudioEffectStateFlags {
    /// Set when engine is in play mode. Also true while paused.
    IsPlaying,
    /// Set when engine is paused mode.
    IsPaused,
    /// Set when effect is being muted (only available in the editor).
    IsMuted,
    /// Does this effect need a side chain buffer and can it be targeted by a Send?
    IsSideChainTargeted,
}

/// Bit of each state flag in the state's flag word.
pub open spec fn state_flag_bit(f: UnityAudioEffectStateFlags) -> u32 {
    match f {
        UnityAudioEffectStateFlags::IsPlaying => 1,
        UnityAudioEffectStateFlags::IsPaused => 2,
        UnityAudioEffectStateFlags::IsMuted => 4,
        UnityAudioEffectStateFlags::IsSideChainTargeted => 8,
    }
}

impl UnityAudioEffectStateFlags {
    /// The flag's bit in the state's flag word.
    pub fn bit(self) -> (b: u32)
        ensures
            b == state_flag_bit(self),
    {
        match self {
            UnityAudioEffectStateFlags::IsPlaying => 1,
            UnityAudioEffectStateFlags::IsPaused => 2,
            UnityAudioEffectStateFlags::IsMuted => 4,
            UnityAudioEffectStateFlags::IsSideChainTargeted => 8,
        }
    }
}

} // verus!
