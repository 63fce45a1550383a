//! The capture engine: collects the first channel of what the input device
//! delivers while a recording is active.
//!
//! Samples are carried as IEEE 754 binary32 bit patterns.

use crate::binary32::{apply_sign, quotient, ratio, with_sign};
use crate::pcm::{create_pcm, pcm_bytes};
use crate::resampler::{
    law_linear_length,
    linear_len,
    linear_len_fits,
    resample,
    resampled,
    sinc_profile,
    sinc_request,
    SincRequest,
};
use vstd::arithmetic::div_mod::lemma_fundamental_div_mod_converse;
use vstd::prelude::*;

verus! {

/// The sample rate of the produced PCM, in hertz.
pub const TARGET_SAMPLE_RATE: u32 = 16000;

/// Milliseconds to wait between pausing the stream and reading the buffer.
pub const STOP_GRACE_MILLIS: u64 = 100;

/// A sample format the engine can capture.
#[derive(Clone, Copy, Debug, PartialEq, Eq, Structural)]
pub enum SampleFormat {
    /// Signed 16-bit integers.
    I16,
    /// Unsigned 16-bit integers.
    U16,
    /// 32-bit floating point.
    F32,
}

/// The sample format a device reports.
#[derive(Debug, PartialEq, Eq)]
pub enum DeviceFormat {
    /// One of the formats the engine captures.
    Supported(SampleFormat),
    /// Any other format; carries its name.
    Other(String),
}

/// What the host reported about the default input device.
#[derive(Debug, PartialEq, Eq)]
pub enum DeviceQuery {
    /// There is no input device.
    NoDevice,
    /// The device's configuration could not be queried; carries the reason.
    ConfigUnavailable(String),
    /// The device's native configuration.
    Config { sample_rate: u32, channels: u16, format: DeviceFormat },
}

/// The stream the caller is asked to open, paused.
#[derive(Clone, Copy, Debug, PartialEq, Eq, Structural)]
pub struct StreamRequest {
    pub sample_rate: u32,
    pub channels: u16,
    pub format: SampleFormat,
}

/// How opening the requested stream went.
#[derive(Debug, PartialEq, Eq)]
pub enum StreamOutcome {
    /// The stream was built and paused.
    Ready,
    /// The stream could not be built; carries the reason.
    BuildFailed(String),
    /// The stream was built but could not be paused; carries the reason.
    PauseFailed(String),
}

/// What the caller is asked to do with the device stream.
#[derive(Clone, Copy, Debug, PartialEq, Eq, Structural)]
pub enum StreamCommand {
    /// Nothing: no stream is open.
    Nothing,
    /// Activate the stream.
    Play,
    /// Pause the stream.
    Pause,
}

/// What went wrong with the input device.
#[derive(Debug, PartialEq, Eq)]
pub enum DeviceFault {
    /// There is no input device.
    NoInputDevice,
    /// The device's configuration could not be queried; carries the reason.
    ConfigUnavailable(String),
    /// The device's sample format is not supported; carries its name.
    UnsupportedFormat(String),
    /// The stream could not be built; carries the reason.
    StreamBuild(String),
    /// The newly built stream could not be paused; carries the reason.
    InitialPause(String),
    /// The stream could not be activated; carries the reason.
    StreamPlay(String),
    /// The stream could not be paused; carries the reason.
    StreamPause(String),
}

/// The mathematical content of a [`DeviceFault`].
pub enum DeviceFaultView {
    NoInputDevice,
    ConfigUnavailable(Seq<char>),
    UnsupportedFormat(Seq<char>),
    StreamBuild(Seq<char>),
    InitialPause(Seq<char>),
    StreamPlay(Seq<char>),
    StreamPause(Seq<char>),
}

impl View for DeviceFault {
    type V = DeviceFaultView;

    open spec fn view(&self) -> DeviceFaultView {
        match self {
            DeviceFault::NoInputDevice => DeviceFaultView::NoInputDevice,
            DeviceFault::ConfigUnavailable(reason) => DeviceFaultView::ConfigUnavailable(reason@),
            DeviceFault::UnsupportedFormat(name) => DeviceFaultView::UnsupportedFormat(name@),
            DeviceFault::StreamBuild(reason) => DeviceFaultView::StreamBuild(reason@),
            DeviceFault::InitialPause(reason) => DeviceFaultView::InitialPause(reason@),
            DeviceFault::StreamPlay(reason) => DeviceFaultView::StreamPlay(reason@),
            DeviceFault::StreamPause(reason) => DeviceFaultView::StreamPause(reason@),
        }
    }
}

/// Why a capture operation failed.
#[derive(Debug, PartialEq, Eq)]
pub enum CaptureError {
    /// The input device could not be used.
    Device(DeviceFault),
    /// A recording is already in progress.
    AlreadyRecording,
    /// No recording is in progress.
    NotRecording,
    /// The recording holds no samples.
    EmptyCapture,
}

/// The mathematical content of a [`CaptureError`].
pub enum CaptureErrorView {
    Device(DeviceFaultView),
    AlreadyRecording,
    NotRecording,
    EmptyCapture,
}

impl View for CaptureError {
    type V = CaptureErrorView;

    open spec fn view(&self) -> CaptureErrorView {
        match self {
            CaptureError::Device(fault) => CaptureErrorView::Device(fault@),
            CaptureError::AlreadyRecording => CaptureErrorView::AlreadyRecording,
            CaptureError::NotRecording => CaptureErrorView::NotRecording,
            CaptureError::EmptyCapture => CaptureErrorView::EmptyCapture,
        }
    }
}

impl CaptureErrorView {
    /// The text shown to the user for this error.
    pub open spec fn message(self) -> Seq<char> {
        match self {
            CaptureErrorView::Device(DeviceFaultView::NoInputDevice) => "未找到音频输入设备"@,
            CaptureErrorView::Device(DeviceFaultView::ConfigUnavailable(reason)) => "获取音频配置失败: "@
                + reason,
            CaptureErrorView::Device(DeviceFaultView::UnsupportedFormat(name)) => "不支持的音频格式: "@
                + name,
            CaptureErrorView::Device(DeviceFaultView::StreamBuild(reason)) => "创建音频流失败: "@
                + reason,
            CaptureErrorView::Device(DeviceFaultView::InitialPause(reason)) => "暂停流失败: "@
                + reason,
            CaptureErrorView::Device(DeviceFaultView::StreamPlay(reason)) => "启动音频流失败: "@
                + reason,
            CaptureErrorView::Device(DeviceFaultView::StreamPause(reason)) => "暂停音频流失败: "@
                + reason,
            CaptureErrorView::AlreadyRecording => "Already recording"@,
            CaptureErrorView::NotRecording => "Not recording"@,
            CaptureErrorView::EmptyCapture => "没有录制到音频数据"@,
        }
    }
}

impl CaptureError {
    /// The text shown to the user for this error.
    pub fn message(&self) -> (text: String)
        ensures
            text@ == self@.message(),
    {
        match self {
            CaptureError::Device(DeviceFault::NoInputDevice) => String::from_str("未找到音频输入设备"),
            CaptureError::Device(DeviceFault::ConfigUnavailable(reason)) => {
                String::from_str("获取音频配置失败: ").concat(reason.as_str())
            },
            CaptureError::Device(DeviceFault::UnsupportedFormat(name)) => {
                String::from_str("不支持的音频格式: ").concat(name.as_str())
            },
            CaptureError::Device(DeviceFault::StreamBuild(reason)) => {
                String::from_str("创建音频流失败: ").concat(reason.as_str())
            },
            CaptureError::Device(DeviceFault::InitialPause(reason)) => {
                String::from_str("暂停流失败: ").concat(reason.as_str())
            },
            CaptureError::Device(DeviceFault::StreamPlay(reason)) => {
                String::from_str("启动音频流失败: ").concat(reason.as_str())
            },
            CaptureError::Device(DeviceFault::StreamPause(reason)) => {
                String::from_str("暂停音频流失败: ").concat(reason.as_str())
            },
            CaptureError::AlreadyRecording => String::from_str("Already recording"),
            CaptureError::NotRecording => String::from_str("Not recording"),
            CaptureError::EmptyCapture => String::from_str("没有录制到音频数据"),
        }
    }
}

/// The normalized value of a signed 16-bit sample: the sample divided by
/// 32767, in binary32.
pub open spec fn normalized_i16(sample: i16) -> u32 {
    if sample < 0 {
        with_sign(true, quotient((-sample) as nat, 32767))
    } else {
        quotient(sample as nat, 32767)
    }
}

/// The normalized value of an unsigned 16-bit sample: its distance from the
/// midpoint 32768, divided by 32768, in binary32.
pub open spec fn normalized_u16(sample: u16) -> u32 {
    if sample < 32768 {
        with_sign(true, quotient((32768 - sample) as nat, 32768))
    } else {
        quotient((sample - 32768) as nat, 32768)
    }
}

/// Normalizes a signed 16-bit sample.
pub fn normalize_i16(sample: i16) -> (bits: u32)
    ensures
        bits == normalized_i16(sample),
{
    if sample < 0 {
        apply_sign(true, ratio((-(sample as i32)) as u32, 32767))
    } else {
        ratio(sample as u32, 32767)
    }
}

/// Normalizes an unsigned 16-bit sample.
pub fn normalize_u16(sample: u16) -> (bits: u32)
    ensures
        bits == normalized_u16(sample),
{
    if sample < 32768 {
        apply_sign(true, ratio((32768 - sample) as u32, 32768))
    } else {
        ratio((sample - 32768) as u32, 32768)
    }
}

/// A sample as a device delivers it, with its normalized value.
trait DeviceSample: Copy {
    /// The normalized value of the sample, as a binary32 pattern.
    spec fn normalized(self) -> u32;

    /// Normalizes the sample.
    fn normalize(self) -> (bits: u32)
        ensures
            bits == self.normalized(),
    ;
}

impl DeviceSample for i16 {
    spec fn normalized(self) -> u32 {
        normalized_i16(self)
    }

    fn normalize(self) -> (bits: u32) {
        normalize_i16(self)
    }
}

impl DeviceSample for u16 {
    spec fn normalized(self) -> u32 {
        normalized_u16(self)
    }

    fn normalize(self) -> (bits: u32) {
        normalize_u16(self)
    }
}

/// A 32-bit floating-point sample, given as its bit pattern, is normalized
/// as it is.
impl DeviceSample for u32 {
    spec fn normalized(self) -> u32 {
        self
    }

    fn normalize(self) -> (bits: u32) {
        self
    }
}

/// The number of frames in `len` interleaved samples, a trailing partial
/// frame counted.
pub open spec fn frame_count(len: nat, channels: nat) -> nat
    recommends
        channels >= 1,
{
    ((len + channels - 1) / channels as int) as nat
}

/// The first sample of every frame of `channels` interleaved samples. A
/// trailing partial frame counts as a frame.
pub open spec fn first_channel<T>(data: Seq<T>, channels: nat) -> Seq<T>
    recommends
        channels >= 1,
{
    Seq::new(frame_count(data.len(), channels), |k: int| data[k * channels])
}

/// When `done` whole frames lie before the last started one, the last
/// started frame is frame number `done`.
proof fn lemma_last_frame(len: nat, channels: nat, done: nat)
    requires
        channels >= 1,
        done * channels < len,
        len <= (done + 1) * channels,
    ensures
        frame_count(len, channels) == done + 1,
{
    let rest = len - 1 - done * channels;
    assert(len + channels - 1 == (done + 1) * channels + rest) by (nonlinear_arith)
        requires
            rest == len - 1 - done * channels,
    ;
    assert(rest < channels) by (nonlinear_arith)
        requires
            rest == len - 1 - done * channels,
            len <= (done + 1) * channels,
    ;
    lemma_fundamental_div_mod_converse(
        (len + channels - 1) as int,
        channels as int,
        (done + 1) as int,
        rest as int,
    );
}

/// Empty data has no frames.
proof fn lemma_no_frames(channels: nat)
    requires
        channels >= 1,
    ensures
        frame_count(0, channels) == 0,
{
    lemma_fundamental_div_mod_converse(channels - 1, channels as int, 0, channels - 1);
}

/// A frame that starts before the end of the data is one of its frames.
proof fn lemma_frames_below(len: nat, channels: nat, k: nat)
    requires
        channels >= 1,
        k * channels < len,
    ensures
        k < frame_count(len, channels),
{
    let total: int = len + channels - 1;
    let count: int = total / channels as int;
    vstd::arithmetic::div_mod::lemma_fundamental_div_mod(total, channels as int);
    let rest: int = total % channels as int;
    assert(k < count) by (nonlinear_arith)
        requires
            total == channels * count + rest,
            0 <= rest < channels,
            total == len + channels - 1,
            k * channels < len,
            channels >= 1,
    ;
}

/// The capture engine's state.
pub struct CaptureView {
    /// Whether a device stream is open.
    pub stream_open: bool,
    /// Whether a recording is in progress.
    pub is_recording: bool,
    /// The samples of the current or last recording, oldest first.
    pub buffer: Seq<u32>,
    /// The device's sample rate in hertz.
    pub sample_rate: u32,
    /// The number of interleaved channels the device delivers.
    pub channels: u16,
}

impl CaptureView {
    /// The state of a new engine: no stream, idle, nothing captured, and
    /// 48 kHz mono assumed until a device says otherwise.
    pub open spec fn initial() -> CaptureView {
        CaptureView {
            stream_open: false,
            is_recording: false,
            buffer: Seq::empty(),
            sample_rate: 48000,
            channels: 1,
        }
    }

    /// What the caller does with the stream when a recording starts or
    /// stops.
    pub open spec fn stream_command(self, command: StreamCommand) -> StreamCommand {
        if self.stream_open {
            command
        } else {
            StreamCommand::Nothing
        }
    }

    /// The answer to a start request.
    pub open spec fn start_step(self) -> Result<StreamCommand, CaptureErrorView> {
        if self.is_recording {
            Err(CaptureErrorView::AlreadyRecording)
        } else {
            Ok(self.stream_command(StreamCommand::Play))
        }
    }

    /// The state after a start request: a fresh, empty recording unless one
    /// was in progress.
    pub open spec fn after_start(self) -> CaptureView {
        if self.is_recording {
            self
        } else {
            CaptureView { is_recording: true, buffer: Seq::empty(), ..self }
        }
    }

    /// The state after the device delivered `samples` on the first channel:
    /// they are kept only while recording.
    pub open spec fn after_capture(self, samples: Seq<u32>) -> CaptureView {
        if self.is_recording {
            CaptureView { buffer: self.buffer + samples, ..self }
        } else {
            self
        }
    }

    /// The answer to a stop request.
    pub open spec fn stop_step(self) -> Result<StreamCommand, CaptureErrorView> {
        if self.is_recording {
            Ok(self.stream_command(StreamCommand::Pause))
        } else {
            Err(CaptureErrorView::NotRecording)
        }
    }

    /// The state after a stop request: idle, with the buffer kept.
    pub open spec fn after_stop(self) -> CaptureView {
        CaptureView { is_recording: false, ..self }
    }

    /// The band-limited conversion to compute before the recording is
    /// finished: none for an empty recording or one at the target rate.
    pub open spec fn conversion(self) -> Option<SincRequest> {
        if self.buffer.len() == 0 || self.sample_rate == TARGET_SAMPLE_RATE {
            None
        } else {
            Some(sinc_profile(self.buffer.len() as usize, self.sample_rate, TARGET_SAMPLE_RATE))
        }
    }

    /// Whether the recording would be converted by linear interpolation.
    pub open spec fn falls_back(self, primary: Option<Seq<u32>>) -> bool {
        self.buffer.len() > 0 && self.sample_rate != TARGET_SAMPLE_RATE && primary is None
    }

    /// Whether the recording can be finished with this outcome of the
    /// band-limited conversion: it must have been stopped, and where linear
    /// interpolation takes over, the device's rate must not be zero and,
    /// if it lies below the target rate, the interpolated length must fit a
    /// machine word.
    pub open spec fn can_finish(self, primary: Option<Seq<u32>>) -> bool {
        &&& !self.is_recording
        &&& self.falls_back(primary) ==> {
            &&& self.sample_rate > 0
            &&& self.sample_rate < TARGET_SAMPLE_RATE ==> linear_len(
                self.buffer.len(),
                self.sample_rate as nat,
                TARGET_SAMPLE_RATE as nat,
            ) <= usize::MAX
        }
    }

    /// The finished recording: the buffer brought to the target rate and
    /// encoded as PCM, or the failure of a recording without samples.
    pub open spec fn finish_step(self, primary: Option<Seq<u32>>) -> Result<
        Seq<u8>,
        CaptureErrorView,
    > {
        if self.buffer.len() == 0 {
            Err(CaptureErrorView::EmptyCapture)
        } else {
            Ok(pcm_bytes(resampled(self.buffer, self.sample_rate, TARGET_SAMPLE_RATE, primary)))
        }
    }
}

/// The capture engine. The device stream itself stays with the caller.
pub struct AudioManager {
    stream_open: bool,
    is_recording: bool,
    audio_buffer: Vec<u32>,
    actual_sample_rate: u32,
    channels: u16,
}

impl View for AudioManager {
    type V = CaptureView;

    closed spec fn view(&self) -> CaptureView {
        CaptureView {
            stream_open: self.stream_open,
            is_recording: self.is_recording,
            buffer: self.audio_buffer@,
            sample_rate: self.actual_sample_rate,
            channels: self.channels,
        }
    }
}

impl AudioManager {
    /// Creates an idle engine without a stream.
    pub fn new() -> (made: Result<AudioManager, CaptureError>)
        ensures
            made is Ok,
            made->Ok_0@ == CaptureView::initial(),
    {
        Ok(
            AudioManager {
                stream_open: false,
                is_recording: false,
                audio_buffer: Vec::new(),
                actual_sample_rate: 48000,
                channels: 1,
            },
        )
    }

    /// Takes note of the default input device and says which stream to open.
    /// Fails when there is no device, when its configuration could not be
    /// queried, or when its sample format is not one of the three supported.
    /// A reported sample rate and channel count are recorded even when the
    /// format is refused.
    pub fn initialize(&mut self, query: DeviceQuery) -> (request: Result<
        StreamRequest,
        CaptureError,
    >)
        ensures
            match query {
                DeviceQuery::NoDevice => {
                    &&& final(self)@ == old(self)@
                    &&& request is Err
                    &&& request->Err_0@ == CaptureErrorView::Device(DeviceFaultView::NoInputDevice)
                },
                DeviceQuery::ConfigUnavailable(reason) => {
                    &&& final(self)@ == old(self)@
                    &&& request is Err
                    &&& request->Err_0@ == CaptureErrorView::Device(
                        DeviceFaultView::ConfigUnavailable(reason@),
                    )
                },
                DeviceQuery::Config { sample_rate, channels, format } => {
                    &&& final(self)@ == (CaptureView { sample_rate, channels, ..old(self)@ })
                    &&& match format {
                        DeviceFormat::Supported(supported) => request == Ok::<
                            StreamRequest,
                            CaptureError,
                        >(StreamRequest { sample_rate, channels, format: supported }),
                        DeviceFormat::Other(name) => request is Err && request->Err_0@
                            == CaptureErrorView::Device(DeviceFaultView::UnsupportedFormat(name@)),
                    }
                },
            },
    {
        match query {
            DeviceQuery::NoDevice => Err(CaptureError::Device(DeviceFault::NoInputDevice)),
            DeviceQuery::ConfigUnavailable(reason) => Err(
                CaptureError::Device(DeviceFault::ConfigUnavailable(reason)),
            ),
            DeviceQuery::Config { sample_rate, channels, format } => {
                self.actual_sample_rate = sample_rate;
                self.channels = channels;
                match format {
                    DeviceFormat::Supported(supported) => Ok(
                        StreamRequest { sample_rate, channels, format: supported },
                    ),
                    DeviceFormat::Other(name) => Err(
                        CaptureError::Device(DeviceFault::UnsupportedFormat(name)),
                    ),
                }
            },
        }
    }

    /// Records how opening the requested stream went. A stream that is
    /// ready is from now on commanded by start and stop; a failure leaves
    /// the engine as it was.
    pub fn stream_opened(&mut self, outcome: StreamOutcome) -> (done: Result<(), CaptureError>)
        ensures
            match outcome {
                StreamOutcome::Ready => {
                    &&& done is Ok
                    &&& final(self)@ == (CaptureView { stream_open: true, ..old(self)@ })
                },
                StreamOutcome::BuildFailed(reason) => {
                    &&& final(self)@ == old(self)@
                    &&& done is Err
                    &&& done->Err_0@ == CaptureErrorView::Device(
                        DeviceFaultView::StreamBuild(reason@),
                    )
                },
                StreamOutcome::PauseFailed(reason) => {
                    &&& final(self)@ == old(self)@
                    &&& done is Err
                    &&& done->Err_0@ == CaptureErrorView::Device(
                        DeviceFaultView::InitialPause(reason@),
                    )
                },
            },
    {
        match outcome {
            StreamOutcome::Ready => {
                self.stream_open = true;
                Ok(())
            },
            StreamOutcome::BuildFailed(reason) => Err(
                CaptureError::Device(DeviceFault::StreamBuild(reason)),
            ),
            StreamOutcome::PauseFailed(reason) => Err(
                CaptureError::Device(DeviceFault::InitialPause(reason)),
            ),
        }
    }

    /// Starts a recording: the buffer is emptied and the caller is asked to
    /// activate the stream. Fails, changing nothing, while a recording is in
    /// progress.
    pub fn start_recording(&mut self) -> (command: Result<StreamCommand, CaptureError>)
        ensures
            final(self)@ == old(self)@.after_start(),
            match command {
                Ok(c) => old(self)@.start_step() == Ok::<StreamCommand, CaptureErrorView>(c),
                Err(e) => old(self)@.start_step() == Err::<StreamCommand, CaptureErrorView>(e@),
            },
    {
        if self.is_recording {
            return Err(CaptureError::AlreadyRecording);
        }
        self.audio_buffer.clear();
        self.is_recording = true;
        if self.stream_open {
            Ok(StreamCommand::Play)
        } else {
            Ok(StreamCommand::Nothing)
        }
    }

    /// Stops the recording: the caller is asked to pause the stream. Fails,
    /// changing nothing, when no recording is in progress.
    pub fn stop_recording(&mut self) -> (command: Result<StreamCommand, CaptureError>)
        ensures
            final(self)@ == old(self)@.after_stop(),
            match command {
                Ok(c) => old(self)@.stop_step() == Ok::<StreamCommand, CaptureErrorView>(c),
                Err(e) => old(self)@.stop_step() == Err::<StreamCommand, CaptureErrorView>(e@),
            },
    {
        if !self.is_recording {
            return Err(CaptureError::NotRecording);
        }
        self.is_recording = false;
        if self.stream_open {
            Ok(StreamCommand::Pause)
        } else {
            Ok(StreamCommand::Nothing)
        }
    }

    /// Turns the outcome of a stream command into the answer to the request
    /// that asked for it.
    pub fn stream_commanded(&self, command: StreamCommand, outcome: Result<(), String>) -> (done:
        Result<(), CaptureError>)
        ensures
            match outcome {
                Ok(_) => done is Ok,
                Err(reason) => done is Err && done->Err_0@ == CaptureErrorView::Device(
                    if command == StreamCommand::Play {
                        DeviceFaultView::StreamPlay(reason@)
                    } else {
                        DeviceFaultView::StreamPause(reason@)
                    },
                ),
            },
    {
        match outcome {
            Ok(_) => Ok(()),
            Err(reason) => match command {
                StreamCommand::Play => Err(CaptureError::Device(DeviceFault::StreamPlay(reason))),
                _ => Err(CaptureError::Device(DeviceFault::StreamPause(reason))),
            },
        }
    }

    /// Takes what the device delivered as signed 16-bit integers: while
    /// recording, the first channel is normalized and appended to the
    /// buffer; otherwise nothing happens.
    pub fn capture_i16(&mut self, data: &[i16])
        requires
            old(self)@.is_recording ==> old(self)@.channels >= 1,
        ensures
            final(self)@ == old(self)@.after_capture(
                first_channel(data@, old(self)@.channels as nat).map_values(
                    |s: i16| normalized_i16(s),
                ),
            ),
    {
        let ghost firsts = first_channel(data@, self@.channels as nat);
        self.capture(data);
        assert(firsts.map_values(|s: i16| s.normalized()) =~= firsts.map_values(
            |s: i16| normalized_i16(s),
        ));
    }

    /// Takes what the device delivered as unsigned 16-bit integers: while
    /// recording, the first channel is normalized and appended to the
    /// buffer; otherwise nothing happens.
    pub fn capture_u16(&mut self, data: &[u16])
        requires
            old(self)@.is_recording ==> old(self)@.channels >= 1,
        ensures
            final(self)@ == old(self)@.after_capture(
                first_channel(data@, old(self)@.channels as nat).map_values(
                    |s: u16| normalized_u16(s),
                ),
            ),
    {
        let ghost firsts = first_channel(data@, self@.channels as nat);
        self.capture(data);
        assert(firsts.map_values(|s: u16| s.normalized()) =~= firsts.map_values(
            |s: u16| normalized_u16(s),
        ));
    }

    /// Takes what the device delivered in 32-bit floating point, given as
    /// bit patterns: while recording, the first channel is appended to the
    /// buffer as it is; otherwise nothing happens.
    pub fn capture_f32(&mut self, data: &[u32])
        requires
            old(self)@.is_recording ==> old(self)@.channels >= 1,
        ensures
            final(self)@ == old(self)@.after_capture(
                first_channel(data@, old(self)@.channels as nat),
            ),
    {
        let ghost firsts = first_channel(data@, self@.channels as nat);
        self.capture(data);
        assert(firsts.map_values(|s: u32| s.normalized()) =~= firsts);
    }

    /// Takes what the device delivered: while recording, the first
    /// channel is normalized and appended to the buffer; otherwise nothing
    /// happens.
    fn capture<T: DeviceSample>(&mut self, data: &[T])
        requires
            old(self)@.is_recording ==> old(self)@.channels >= 1,
        ensures
            final(self)@ == old(self)@.after_capture(
                first_channel(data@, old(self)@.channels as nat).map_values(
                    |s: T| s.normalized(),
                ),
            ),
    {
        if !self.is_recording {
            return ;
        }
        let len: usize = data.len();
        let channels: u16 = self.channels;
        let step: usize = channels as usize;
        let ghost base = self.audio_buffer@;
        let ghost firsts = first_channel(data@, channels as nat);
        let ghost wanted = firsts.map_values(|s: T| s.normalized());
        let mut i: usize = 0;
        let mut done: Ghost<nat> = Ghost(0);
        proof {
            lemma_no_frames(step as nat);
            assert(wanted.take(0) =~= Seq::<u32>::empty());
        }
        while i < len
            invariant
                len == data@.len(),
                step == channels,
                step >= 1,
                i <= len,
                i < len ==> i == done@ * step,
                i == len ==> done@ == frame_count(len as nat, step as nat),
                done@ <= frame_count(len as nat, step as nat),
                firsts == first_channel(data@, channels as nat),
                wanted == firsts.map_values(|s: T| s.normalized()),
                self.audio_buffer@ == base + wanted.take(done@ as int),
                self.is_recording == old(self).is_recording,
                self.stream_open == old(self).stream_open,
                self.actual_sample_rate == old(self).actual_sample_rate,
                self.channels == old(self).channels,
            decreases len - i,
        {
            let sample: u32 = data[i].normalize();
            self.audio_buffer.push(sample);
            proof {
                if len - i <= step {
                    assert((done@ + 1) * step == done@ * step + step) by (nonlinear_arith);
                    lemma_last_frame(len as nat, step as nat, done@);
                } else {
                    assert((done@ + 1) * step == done@ * step + step) by (nonlinear_arith);
                    assert((done@ + 1) * step < len);
                    lemma_frames_below(len as nat, step as nat, done@ + 1);
                }
                assert(wanted.take(done@ as int + 1) =~= wanted.take(done@ as int).push(sample));
                done@ = done@ + 1;
            }
            if len - i <= step {
                i = len;
            } else {
                i = i + step;
            }
        }
        assert(wanted.take(done@ as int) =~= wanted);
    }

    /// The band-limited conversion to compute, on [`Self::samples`], before
    /// [`Self::finish_recording`] is called.
    pub fn sinc_request(&self) -> (request: Option<SincRequest>)
        ensures
            request == self@.conversion(),
    {
        if self.audio_buffer.len() == 0 {
            None
        } else {
            sinc_request(self.audio_buffer.len(), self.actual_sample_rate, TARGET_SAMPLE_RATE)
        }
    }

    /// Whether [`Self::finish_recording`] may be called with this outcome
    /// of the band-limited conversion.
    pub fn can_finish(&self, primary: &Option<Vec<u32>>) -> (ok: bool)
        ensures
            ok == self@.can_finish(
                match primary {
                    Some(converted) => Some(converted@),
                    None => None,
                },
            ),
    {
        if self.is_recording {
            return false;
        }
        let falls_back: bool = self.audio_buffer.len() > 0 && self.actual_sample_rate
            != TARGET_SAMPLE_RATE && primary.is_none();
        if !falls_back {
            return true;
        }
        self.actual_sample_rate > 0 && (self.actual_sample_rate >= TARGET_SAMPLE_RATE
            || linear_len_fits(
            self.audio_buffer.len(),
            self.actual_sample_rate,
            TARGET_SAMPLE_RATE,
        ))
    }

    /// Finishes a stopped recording: the samples are brought to 16 kHz and
    /// encoded as PCM. `primary` is the outcome of the band-limited
    /// conversion, `None` where none was asked for or where it failed. Fails
    /// when nothing was captured.
    pub fn finish_recording(&self, primary: Option<Vec<u32>>) -> (pcm: Result<Vec<u8>, CaptureError>)
        requires
            self@.can_finish(
                match primary {
                    Some(converted) => Some(converted@),
                    None => None,
                },
            ),
        ensures
            match pcm {
                Ok(bytes) => self@.finish_step(
                    match primary {
                        Some(converted) => Some(converted@),
                        None => None,
                    },
                ) == Ok::<Seq<u8>, CaptureErrorView>(bytes@),
                Err(e) => self@.finish_step(
                    match primary {
                        Some(converted) => Some(converted@),
                        None => None,
                    },
                ) == Err::<Seq<u8>, CaptureErrorView>(e@),
            },
    {
        if self.audio_buffer.len() == 0 {
            return Err(CaptureError::EmptyCapture);
        }
        let at_target: Vec<u32> = resample(
            &self.audio_buffer,
            self.actual_sample_rate,
            TARGET_SAMPLE_RATE,
            primary,
        );
        Ok(create_pcm(&at_target))
    }

    /// Whether a recording is in progress.
    pub fn is_recording(&self) -> (recording: bool)
        ensures
            recording == self@.is_recording,
    {
        self.is_recording
    }

    /// The device's sample rate in hertz.
    pub fn sample_rate(&self) -> (rate: u32)
        ensures
            rate == self@.sample_rate,
    {
        self.actual_sample_rate
    }

    /// The number of interleaved channels the device delivers.
    pub fn channels(&self) -> (channels: u16)
        ensures
            channels == self@.channels,
    {
        self.channels
    }

    /// The samples of the current or last recording.
    pub fn samples(&self) -> (samples: &Vec<u32>)
        ensures
            samples@ == self@.buffer,
    {
        &self.audio_buffer
    }
}

/// A start request while a recording is in progress fails as already
/// recording, whatever the device delivered since; a stop request while none
/// is in progress fails as not recording. Both leave the state as it is.
pub proof fn law_start_and_stop_alternate(state: CaptureView, delivered: Seq<u32>)
    ensures
        state.after_start().after_capture(delivered).start_step() == Err::<
            StreamCommand,
            CaptureErrorView,
        >(CaptureErrorView::AlreadyRecording),
        state.after_start().after_capture(delivered).after_start() == state.after_start().after_capture(
            delivered,
        ),
        state.after_stop().after_capture(delivered).stop_step() == Err::<
            StreamCommand,
            CaptureErrorView,
        >(CaptureErrorView::NotRecording),
        state.after_stop().after_stop() == state.after_stop(),
        CaptureView::initial().stop_step() == Err::<StreamCommand, CaptureErrorView>(
            CaptureErrorView::NotRecording,
        ),
{
}

/// What the device delivers while no recording is in progress is dropped:
/// the state stays as it is, and the next recording holds exactly what was
/// delivered between its start and its stop.
pub proof fn law_idle_samples_dropped(state: CaptureView, before: Seq<u32>, during: Seq<u32>)
    requires
        !state.is_recording,
    ensures
        state.after_capture(before) == state,
        state.after_capture(before).after_start().after_capture(during).after_stop().buffer
            == during,
        state.after_stop().after_capture(before) == state.after_stop(),
{
    assert(Seq::<u32>::empty() + during =~= during);
}

/// A stopped recording that holds samples is always finished, whatever
/// became of the band-limited conversion, and its PCM has two bytes for each
/// sample at the target rate. Where linear interpolation takes over, the
/// number of those samples is that of the recording, scaled by the target
/// rate over the device's rate, to within one sample: one second of
/// recording gives one second of PCM.
pub proof fn law_finished_length(state: CaptureView, primary: Option<Seq<u32>>)
    requires
        state.buffer.len() > 0,
        state.sample_rate > 0,
    ensures
        state.finish_step(primary) is Ok,
        state.finish_step(primary)->Ok_0.len() == 2 * resampled(
            state.buffer,
            state.sample_rate,
            TARGET_SAMPLE_RATE,
            primary,
        ).len(),
        state.sample_rate == TARGET_SAMPLE_RATE ==> state.finish_step(primary)->Ok_0.len() == 2
            * state.buffer.len(),
        state.falls_back(primary) ==> {
            let bytes = state.finish_step(primary)->Ok_0.len();
            &&& bytes >= 2
            &&& (bytes / 2 - 1) * state.sample_rate <= state.buffer.len() * TARGET_SAMPLE_RATE
            &&& state.buffer.len() * TARGET_SAMPLE_RATE < (bytes / 2 + 1) * state.sample_rate
        },
{
    if state.falls_back(primary) {
        law_linear_length(state.buffer, state.sample_rate as nat, TARGET_SAMPLE_RATE as nat);
    }
}

} // verus!
