use voice_capture::audio_manager::{
    normalize_i16, normalize_u16, AudioManager, CaptureError, DeviceFault, DeviceFormat,
    DeviceQuery, SampleFormat, StreamCommand, StreamOutcome, StreamRequest, STOP_GRACE_MILLIS,
    TARGET_SAMPLE_RATE,
};
use voice_capture::resampler::{sinc_request, SincInterpolation, SincWindow};

fn bits(values: &[f32]) -> Vec<u32> {
    values.iter().map(|v| v.to_bits()).collect()
}

fn ready(sample_rate: u32, channels: u16, format: SampleFormat) -> AudioManager {
    let mut m = AudioManager::new().unwrap();
    let request = m
        .initialize(DeviceQuery::Config {
            sample_rate,
            channels,
            format: DeviceFormat::Supported(format),
        })
        .unwrap();
    assert_eq!(request, StreamRequest { sample_rate, channels, format });
    m.stream_opened(StreamOutcome::Ready).unwrap();
    m
}

#[test]
fn new_engine_is_idle_at_48_khz() {
    let m = AudioManager::new().unwrap();
    assert!(!m.is_recording());
    assert_eq!(m.sample_rate(), 48000);
    assert_eq!(m.channels(), 1);
    assert!(m.samples().is_empty());
    assert_eq!(TARGET_SAMPLE_RATE, 16000);
    assert_eq!(STOP_GRACE_MILLIS, 100);
}

#[test]
fn initialize_fails_without_a_device() {
    let mut m = AudioManager::new().unwrap();
    let e = m.initialize(DeviceQuery::NoDevice).unwrap_err();
    assert_eq!(e, CaptureError::Device(DeviceFault::NoInputDevice));
    assert_eq!(e.message(), "未找到音频输入设备");
    assert_eq!(m.sample_rate(), 48000);
}

#[test]
fn initialize_fails_when_the_configuration_cannot_be_queried() {
    let mut m = AudioManager::new().unwrap();
    let e = m.initialize(DeviceQuery::ConfigUnavailable("device busy".to_string())).unwrap_err();
    assert_eq!(e, CaptureError::Device(DeviceFault::ConfigUnavailable("device busy".to_string())));
    assert_eq!(e.message(), "获取音频配置失败: device busy");
    assert_eq!(m.sample_rate(), 48000);
}

#[test]
fn initialize_refuses_an_unsupported_format_but_records_the_rate() {
    let mut m = AudioManager::new().unwrap();
    let e = m
        .initialize(DeviceQuery::Config {
            sample_rate: 44100,
            channels: 2,
            format: DeviceFormat::Other("I8".to_string()),
        })
        .unwrap_err();
    assert_eq!(e, CaptureError::Device(DeviceFault::UnsupportedFormat("I8".to_string())));
    assert_eq!(e.message(), "不支持的音频格式: I8");
    assert_eq!(m.sample_rate(), 44100);
    assert_eq!(m.channels(), 2);
}

#[test]
fn initialize_asks_for_a_stream_in_the_device_configuration() {
    for format in [SampleFormat::I16, SampleFormat::U16, SampleFormat::F32] {
        let mut m = AudioManager::new().unwrap();
        let request = m
            .initialize(DeviceQuery::Config {
                sample_rate: 44100,
                channels: 2,
                format: DeviceFormat::Supported(format),
            })
            .unwrap();
        assert_eq!(request, StreamRequest { sample_rate: 44100, channels: 2, format });
        assert_eq!(m.sample_rate(), 44100);
    }
}

#[test]
fn a_stream_that_failed_to_open_is_a_device_error() {
    let mut m = AudioManager::new().unwrap();
    let e = m.stream_opened(StreamOutcome::BuildFailed("no backend".to_string())).unwrap_err();
    assert_eq!(e, CaptureError::Device(DeviceFault::StreamBuild("no backend".to_string())));
    assert_eq!(e.message(), "创建音频流失败: no backend");
    let e = m.stream_opened(StreamOutcome::PauseFailed("stuck".to_string())).unwrap_err();
    assert_eq!(e, CaptureError::Device(DeviceFault::InitialPause("stuck".to_string())));
    assert_eq!(e.message(), "暂停流失败: stuck");
    // no stream is open: starting commands nothing
    assert_eq!(m.start_recording(), Ok(StreamCommand::Nothing));
    assert_eq!(m.stop_recording(), Ok(StreamCommand::Nothing));
}

#[test]
fn start_and_stop_command_the_open_stream() {
    let mut m = ready(48000, 1, SampleFormat::F32);
    assert_eq!(m.start_recording(), Ok(StreamCommand::Play));
    assert!(m.is_recording());
    assert_eq!(m.stop_recording(), Ok(StreamCommand::Pause));
    assert!(!m.is_recording());
}

#[test]
fn second_start_fails_as_already_recording() {
    let mut m = ready(48000, 1, SampleFormat::F32);
    m.start_recording().unwrap();
    m.capture_f32(&bits(&[0.5]));
    let e = m.start_recording().unwrap_err();
    assert_eq!(e, CaptureError::AlreadyRecording);
    assert_eq!(e.message(), "Already recording");
    // nothing changed
    assert!(m.is_recording());
    assert_eq!(m.samples(), &bits(&[0.5]));
}

#[test]
fn stop_without_start_fails_as_not_recording() {
    let mut m = ready(48000, 1, SampleFormat::F32);
    let e = m.stop_recording().unwrap_err();
    assert_eq!(e, CaptureError::NotRecording);
    assert_eq!(e.message(), "Not recording");
    m.start_recording().unwrap();
    m.stop_recording().unwrap();
    assert_eq!(m.stop_recording(), Err(CaptureError::NotRecording));
}

#[test]
fn a_failed_stream_command_is_a_device_error() {
    let m = AudioManager::new().unwrap();
    assert_eq!(m.stream_commanded(StreamCommand::Play, Ok(())), Ok(()));
    assert_eq!(m.stream_commanded(StreamCommand::Pause, Ok(())), Ok(()));
    let e = m.stream_commanded(StreamCommand::Play, Err("lost".to_string())).unwrap_err();
    assert_eq!(e, CaptureError::Device(DeviceFault::StreamPlay("lost".to_string())));
    assert_eq!(e.message(), "启动音频流失败: lost");
    let e = m.stream_commanded(StreamCommand::Pause, Err("lost".to_string())).unwrap_err();
    assert_eq!(e, CaptureError::Device(DeviceFault::StreamPause("lost".to_string())));
    assert_eq!(e.message(), "暂停音频流失败: lost");
}

#[test]
fn samples_delivered_while_idle_are_dropped() {
    let mut m = ready(16000, 1, SampleFormat::F32);
    m.capture_f32(&bits(&[0.1, 0.2, 0.3]));
    m.capture_i16(&[1, 2, 3]);
    m.capture_u16(&[1, 2, 3]);
    assert!(m.samples().is_empty());
    m.start_recording().unwrap();
    m.capture_f32(&bits(&[0.5, -0.5]));
    m.stop_recording().unwrap();
    m.capture_f32(&bits(&[0.9]));
    assert_eq!(m.samples(), &bits(&[0.5, -0.5]));
    let pcm = m.finish_recording(None).unwrap();
    assert_eq!(pcm, vec![0xff, 0x3f, 0x01, 0xc0]);
}

#[test]
fn a_new_recording_starts_from_an_empty_buffer() {
    let mut m = ready(16000, 1, SampleFormat::F32);
    m.start_recording().unwrap();
    m.capture_f32(&bits(&[0.25, 0.5]));
    m.stop_recording().unwrap();
    // the buffer stays until the next start
    assert_eq!(m.samples().len(), 2);
    m.start_recording().unwrap();
    assert!(m.samples().is_empty());
    m.capture_f32(&bits(&[1.0]));
    m.stop_recording().unwrap();
    assert_eq!(m.finish_recording(None).unwrap(), vec![0xff, 0x7f]);
}

fn set_channels(m: &mut AudioManager, channels: u16) {
    m.initialize(DeviceQuery::Config {
        sample_rate: 16000,
        channels,
        format: DeviceFormat::Supported(SampleFormat::F32),
    })
    .unwrap();
    assert_eq!(m.channels(), channels);
}

#[test]
fn only_the_first_channel_of_each_frame_is_kept() {
    let mut m = ready(16000, 2, SampleFormat::F32);
    assert_eq!(m.channels(), 2);
    m.start_recording().unwrap();
    m.capture_f32(&bits(&[0.1, 9.0, 0.2, 9.0, 0.3, 9.0]));
    assert_eq!(m.samples(), &bits(&[0.1, 0.2, 0.3]));
    // a trailing partial frame still gives its first sample
    set_channels(&mut m, 3);
    m.capture_f32(&bits(&[0.4, 9.0, 9.0, 0.5]));
    assert_eq!(m.samples(), &bits(&[0.1, 0.2, 0.3, 0.4, 0.5]));
    m.capture_f32(&[]);
    set_channels(&mut m, 4);
    m.capture_f32(&bits(&[0.6]));
    assert_eq!(m.samples(), &bits(&[0.1, 0.2, 0.3, 0.4, 0.5, 0.6]));
    set_channels(&mut m, 2);
    m.capture_i16(&[32767, 5, -32767, 5]);
    m.capture_u16(&[0, 5, 65535]);
    assert_eq!(
        &m.samples()[6..],
        &bits(&[1.0, -1.0, -1.0, (65535.0 - 32768.0) / 32768.0])[..]
    );
    // one channel keeps everything
    set_channels(&mut m, 1);
    m.capture_f32(&bits(&[0.7, 0.8]));
    assert_eq!(&m.samples()[10..], &bits(&[0.7, 0.8])[..]);
}

#[test]
fn signed_samples_are_divided_by_the_signed_maximum() {
    assert_eq!(normalize_i16(0), 0.0f32.to_bits());
    assert_eq!(normalize_i16(32767), 1.0f32.to_bits());
    assert_eq!(normalize_i16(-32767), (-1.0f32).to_bits());
    assert_eq!(normalize_i16(-32768), (-32768.0f32 / 32767.0).to_bits());
    for s in i16::MIN..=i16::MAX {
        assert_eq!(normalize_i16(s), (s as f32 / i16::MAX as f32).to_bits(), "sample {s}");
    }
}

#[test]
fn unsigned_samples_are_centred_on_the_midpoint() {
    assert_eq!(normalize_u16(32768), 0.0f32.to_bits());
    assert_eq!(normalize_u16(0), (-1.0f32).to_bits());
    assert_eq!(normalize_u16(49152), 0.5f32.to_bits());
    for s in u16::MIN..=u16::MAX {
        assert_eq!(normalize_u16(s), ((s as f32 - 32768.0) / 32768.0).to_bits(), "sample {s}");
    }
}

#[test]
fn finishing_an_empty_recording_fails() {
    let mut m = ready(48000, 1, SampleFormat::F32);
    m.start_recording().unwrap();
    m.stop_recording().unwrap();
    assert_eq!(m.sinc_request(), None);
    let e = m.finish_recording(None).unwrap_err();
    assert_eq!(e, CaptureError::EmptyCapture);
    assert_eq!(e.message(), "没有录制到音频数据");
    // also where a conversion was handed in
    assert_eq!(m.finish_recording(Some(bits(&[0.5]))), Err(CaptureError::EmptyCapture));
}

#[test]
fn a_recording_at_the_target_rate_is_encoded_as_it_is() {
    let mut m = ready(16000, 1, SampleFormat::I16);
    m.start_recording().unwrap();
    m.capture_i16(&[0, 32767, -32767, 16384, -1]);
    m.stop_recording().unwrap();
    assert_eq!(m.sinc_request(), None);
    let pcm = m.finish_recording(None).unwrap();
    let decoded: Vec<i16> =
        pcm.chunks(2).map(|pair| i16::from_le_bytes([pair[0], pair[1]])).collect();
    let expected: Vec<i16> = [0i16, 32767, -32767, 16384, -1]
        .iter()
        .map(|&s| ((s as f32 / i16::MAX as f32).clamp(-1.0, 1.0) * i16::MAX as f32) as i16)
        .collect();
    assert_eq!(decoded, expected);
    // a conversion handed in all the same is ignored
    assert_eq!(m.finish_recording(Some(bits(&[0.0]))).unwrap(), pcm);
}

#[test]
fn a_recording_at_another_rate_asks_for_the_band_limited_conversion() {
    let mut m = ready(48000, 1, SampleFormat::F32);
    m.start_recording().unwrap();
    m.capture_f32(&bits(&[0.0; 480]));
    m.stop_recording().unwrap();
    let request = m.sinc_request().unwrap();
    assert_eq!(Some(request), sinc_request(480, 48000, 16000));
    assert_eq!(request.from_rate, 48000);
    assert_eq!(request.to_rate, 16000);
    assert_eq!(request.max_relative_ratio, 2);
    assert_eq!(request.sinc_len, 256);
    assert_eq!(request.cutoff_percent, 95);
    assert_eq!(request.oversampling_factor, 256);
    assert_eq!(request.interpolation, SincInterpolation::Linear);
    assert_eq!(request.window, SincWindow::BlackmanHarris2);
    assert_eq!(request.chunk_size, 480);
    assert_eq!(request.channels, 1);
    // its outcome is what gets encoded
    let pcm = m.finish_recording(Some(bits(&[1.0, -1.0]))).unwrap();
    assert_eq!(pcm, vec![0xff, 0x7f, 0x01, 0x80]);
    // without one, linear interpolation takes over
    assert_eq!(m.finish_recording(None).unwrap().len(), 2 * 160);
}

#[test]
fn finishing_is_possible_once_the_recording_stopped() {
    let mut m = ready(48000, 1, SampleFormat::F32);
    assert!(m.can_finish(&None));
    m.start_recording().unwrap();
    m.capture_f32(&bits(&[0.5; 30]));
    assert!(!m.can_finish(&None));
    assert!(!m.can_finish(&Some(bits(&[0.5]))));
    m.stop_recording().unwrap();
    assert!(m.can_finish(&None));
    assert!(m.can_finish(&Some(bits(&[0.5]))));
    assert_eq!(m.finish_recording(None).unwrap().len(), 20);
}

#[test]
fn a_device_rate_of_zero_cannot_fall_back() {
    let mut m = ready(0, 1, SampleFormat::F32);
    m.start_recording().unwrap();
    m.stop_recording().unwrap();
    // nothing captured: finishing fails as empty, whatever the rate
    assert!(m.can_finish(&None));
    assert_eq!(m.finish_recording(None), Err(CaptureError::EmptyCapture));
    m.start_recording().unwrap();
    m.capture_f32(&bits(&[0.5]));
    m.stop_recording().unwrap();
    assert!(!m.can_finish(&None));
    assert!(m.can_finish(&Some(bits(&[0.25]))));
    assert_eq!(m.finish_recording(Some(bits(&[0.25]))).unwrap(), vec![0xff, 0x1f]);
}

#[test]
fn an_idle_engine_takes_deliveries_whatever_the_channel_count() {
    let mut m = ready(16000, 0, SampleFormat::F32);
    assert_eq!(m.channels(), 0);
    m.capture_f32(&bits(&[0.1, 0.2]));
    m.capture_i16(&[1, 2]);
    m.capture_u16(&[1, 2]);
    assert!(m.samples().is_empty());
    assert!(!m.is_recording());
}
