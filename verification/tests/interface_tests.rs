use unidecim::interface::{
    check_parameter_index, check_process_args, padded_name, CallbackResult, ProcessShape,
    UnityAudioEffectDefinitionFlags, UnityAudioEffectStateFlags, EFFECT_NAME_WIDTH,
    PARAMETER_NAME_WIDTH, UNITY_AUDIODSP_ERR_UNSUPPORTED, UNITY_AUDIODSP_OK,
    UNITY_AUDIO_PLUGIN_API_VERSION,
};

#[test]
fn result_codes() {
    assert_eq!(CallbackResult::Success.code(), 0);
    assert_eq!(CallbackResult::Unsupported.code(), 1);
    assert_eq!(CallbackResult::Success.code(), UNITY_AUDIODSP_OK);
    assert_eq!(CallbackResult::Unsupported.code(), UNITY_AUDIODSP_ERR_UNSUPPORTED);
    assert_ne!(CallbackResult::Success.code(), CallbackResult::Unsupported.code());
}

#[test]
fn api_version() {
    assert_eq!(UNITY_AUDIO_PLUGIN_API_VERSION, 0x010401);
}

#[test]
fn process_args_stereo_block() {
    let shape = check_process_args(512, 2, 2);
    assert_eq!(shape, Ok(ProcessShape { frames: 512, channels: 2, samples: 1024 }));
}

#[test]
fn process_args_zero_channels() {
    let shape = check_process_args(256, 0, 0);
    assert_eq!(shape, Ok(ProcessShape { frames: 256, channels: 0, samples: 0 }));
}

#[test]
fn process_args_empty_block() {
    let shape = check_process_args(0, 6, 6);
    assert_eq!(shape, Ok(ProcessShape { frames: 0, channels: 6, samples: 0 }));
}

#[test]
fn process_args_mismatched_channels() {
    assert_eq!(check_process_args(512, 2, 1), Err(CallbackResult::Unsupported));
    assert_eq!(check_process_args(512, 1, 2), Err(CallbackResult::Unsupported));
}

#[test]
fn process_args_negative_channels() {
    assert_eq!(check_process_args(512, -2, -2), Err(CallbackResult::Unsupported));
    assert_eq!(check_process_args(0, -1, -1), Err(CallbackResult::Unsupported));
}

#[test]
fn process_args_largest_block() {
    let shape = check_process_args(u32::MAX, 1, 1);
    assert_eq!(
        shape,
        Ok(ProcessShape { frames: u32::MAX as usize, channels: 1, samples: u32::MAX as usize })
    );
}

#[test]
fn parameter_index_checks() {
    assert_eq!(check_parameter_index(0), Ok(0));
    assert_eq!(check_parameter_index(7), Ok(7));
    assert_eq!(check_parameter_index(i32::MAX), Ok(i32::MAX as usize));
    assert_eq!(check_parameter_index(-1), Err(CallbackResult::Unsupported));
    assert_eq!(check_parameter_index(i32::MIN), Err(CallbackResult::Unsupported));
}

#[test]
fn padded_parameter_name() {
    let field = padded_name("Division Rate".as_bytes(), PARAMETER_NAME_WIDTH);
    assert_eq!(field.len(), 16);
    assert_eq!(&field[..13], "Division Rate".as_bytes());
    assert_eq!(&field[13..], &[0u8, 0, 0]);
}

#[test]
fn padded_effect_name() {
    let field = padded_name("Decimator".as_bytes(), EFFECT_NAME_WIDTH);
    assert_eq!(field.len(), 32);
    assert_eq!(&field[..9], "Decimator".as_bytes());
    assert!(field[9..].iter().all(|&b| b == 0));
}

#[test]
fn padded_name_filling_the_field() {
    let name = b"0123456789abcdef";
    let field = padded_name(name, 16);
    assert_eq!(field, name.to_vec());
}

#[test]
fn padded_empty_name() {
    assert_eq!(padded_name(b"", 4), vec![0u8, 0, 0, 0]);
    assert_eq!(padded_name(b"", 0), Vec::<u8>::new());
}

#[test]
fn definition_flag_bits() {
    assert_eq!(UnityAudioEffectDefinitionFlags::IsSideChainTarget.bit(), 1);
    assert_eq!(UnityAudioEffectDefinitionFlags::IsSpatializer.bit(), 2);
    assert_eq!(UnityAudioEffectDefinitionFlags::IsAmbisonicDecoder.bit(), 4);
    assert_eq!(UnityAudioEffectDefinitionFlags::AppliesDistanceAttenuation.bit(), 8);
}

#[test]
fn state_flag_bits() {
    assert_eq!(UnityAudioEffectStateFlags::IsPlaying.bit(), 1);
    assert_eq!(UnityAudioEffectStateFlags::IsPaused.bit(), 2);
    assert_eq!(UnityAudioEffectStateFlags::IsMuted.bit(), 4);
    assert_eq!(UnityAudioEffectStateFlags::IsSideChainTargeted.bit(), 8);
}
