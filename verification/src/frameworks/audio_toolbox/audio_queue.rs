//! Audio queues: creation, buffers, the running state, parameters and
//! properties.
//!
//! Guest pointers are 32-bit addresses into [`Mem`]; a queue is known by
//! the address of its opaque guest object.  Floating-point values (sample
//! rate, volume, pan, level meters) are carried as their IEEE-754 bit
//! patterns, which is all these functions need of them.
#![allow(non_snake_case)]
#![allow(non_upper_case_globals)]
use std::collections::HashMap;
use std::collections::VecDeque;
use vstd::prelude::*;
use crate::environment::Environment;
use crate::frameworks::FrameworkState;
use crate::frameworks::audio_toolbox::paramErr;
use crate::mem::{Mem, block_size, le_u32, mapped, put_u32, put_words, words_at, lemma_put_words};

verus! {

pub type OSStatus = i32;

pub type AudioQueuePropertyID = u32;

pub type AudioQueueParamID = u32;

pub const kAudioQueueErr_InvalidProperty: OSStatus = -66673;

pub const kAudioQueueErr_BufferEmpty: OSStatus = -66674;

pub const kAudioQueueErr_DisposalPending: OSStatus = -66675;

pub const kAudioQueueErr_InvalidPath: OSStatus = -66676;

pub const kAudioQueueErr_InvalidPropertyValue: OSStatus = -66677;

pub const kAudioQueueParam_Volume: AudioQueueParamID = 1;

pub const kAudioQueueParam_Pan: AudioQueueParamID = 2;

/// `'aqrn'`
pub const kAudioQueueProperty_IsRunning: AudioQueuePropertyID = 0x6171726e;

/// `'aqmc'`
pub const kAudioQueueProperty_MagicCookie: AudioQueuePropertyID = 0x61716d63;

/// `'aqft'`
pub const kAudioQueueProperty_StreamDescription: AudioQueuePropertyID = 0x61716674;

/// `'xops'`
pub const kAudioQueueProperty_MaximumOutputPacketSize: AudioQueuePropertyID = 0x786f7073;

/// `'aqme'`
pub const kAudioQueueProperty_EnableLevelMetering: AudioQueuePropertyID = 0x61716d65;

/// `'aqlm'`
pub const kAudioQueueProperty_CurrentLevelMeter: AudioQueuePropertyID = 0x61716c6d;

/// `'aqcp'`
pub const kAudioQueueProperty_HardwareCodecPolicy: AudioQueuePropertyID = 0x61716370;

/// `'lpcm'`: linear PCM, the one format whose samples need no decoding.
pub const kAudioFormatLinearPCM: u32 = 0x6c70636d;

/// Hardware codec policies.
pub const CODEC_POLICY_DEFAULT: u32 = 0;

pub const CODEC_POLICY_HARDWARE_ONLY: u32 = 1;

pub const CODEC_POLICY_SOFTWARE_ONLY: u32 = 2;

pub const CODEC_POLICY_HARDWARE_PREFERRED: u32 = 3;

/// The bit pattern of the `f32` 1.0 (the initial volume).
pub const VOLUME_FULL_BITS: u32 = 0x3f800000;

/// The bit pattern of the `f32` 0.6 (the reported average level).
pub const LEVEL_AVERAGE_BITS: u32 = 0x3f19999a;

/// The bit pattern of the `f32` 0.85 (the reported peak level).
pub const LEVEL_PEAK_BITS: u32 = 0x3f59999a;

/// The guest size of an `AudioStreamBasicDescription`.
pub const ASBD_SIZE: u32 = 40;

/// The guest size of an `AudioQueueBuffer`.
pub const AUDIO_QUEUE_BUFFER_SIZE: u32 = 28;

/// The guest size of an `AudioStreamPacketDescription`.
pub const PACKET_DESCRIPTION_SIZE: u32 = 16;

/// The guest size of an `AudioQueueLevelMeterState`.
pub const LEVEL_METER_STATE_SIZE: u32 = 8;

/// The guest size of an `OpaqueAudioQueue`.
pub const OPAQUE_AUDIO_QUEUE_SIZE: u32 = 4;

/// The guest object that stands for an audio queue.
#[derive(Debug, Clone, Copy, PartialEq, Eq)]
pub struct OpaqueAudioQueue {
    pub _filler: u32,
}

/// `AudioStreamBasicDescription`, with the sample rate as the bits of its
/// `f64`.
#[derive(Debug, Clone, Copy, PartialEq, Eq)]
pub struct AudioStreamBasicDescription {
    pub sample_rate_bits: u64,
    pub format_id: u32,
    pub format_flags: u32,
    pub bytes_per_packet: u32,
    pub frames_per_packet: u32,
    pub bytes_per_frame: u32,
    pub channels_per_frame: u32,
    pub bits_per_channel: u32,
    pub reserved: u32,
}

/// The guest's `AudioQueueBuffer` (pointers are guest addresses).
#[derive(Debug, Clone, Copy, PartialEq, Eq)]
pub struct AudioQueueBuffer {
    pub audio_data_bytes_capacity: u32,
    pub audio_data: u32,
    pub audio_data_byte_size: u32,
    pub user_data: u32,
    pub packet_description_capacity: u32,
    pub packet_descriptions: u32,
    pub packet_description_count: u32,
}

/// `AudioQueueLevelMeterState`, with the levels as the bits of their `f32`s.
#[derive(Debug, Clone, Copy, PartialEq, Eq)]
pub struct AudioQueueLevelMeterState {
    pub average_power_bits: u32,
    pub peak_power_bits: u32,
}

#[derive(Debug, PartialEq, Eq, Clone, Copy)]
pub enum AudioQueueIsRunning {
    Stopped,
    Running,
    Stopping,
}

/// The words of a stream description as the guest lays it out.
pub open spec fn asbd_words(f: AudioStreamBasicDescription) -> Seq<u32> {
    seq![
        (f.sample_rate_bits & 0xffff_ffff) as u32,
        (f.sample_rate_bits >> 32) as u32,
        f.format_id,
        f.format_flags,
        f.bytes_per_packet,
        f.frames_per_packet,
        f.bytes_per_frame,
        f.channels_per_frame,
        f.bits_per_channel,
        f.reserved,
    ]
}

/// The stream description that ten guest words hold.
pub open spec fn asbd_of_words(w: Seq<u32>) -> AudioStreamBasicDescription {
    AudioStreamBasicDescription {
        sample_rate_bits: (w[0] as u64) | ((w[1] as u64) << 32),
        format_id: w[2],
        format_flags: w[3],
        bytes_per_packet: w[4],
        frames_per_packet: w[5],
        bytes_per_frame: w[6],
        channels_per_frame: w[7],
        bits_per_channel: w[8],
        reserved: w[9],
    }
}

/// The stream description stored at `a`.
pub open spec fn asbd_at(s: Seq<u8>, a: int) -> AudioStreamBasicDescription {
    asbd_of_words(words_at(s, a, 10))
}

/// The words of a buffer header as the guest lays it out.
pub open spec fn buffer_words(b: AudioQueueBuffer) -> Seq<u32> {
    seq![
        b.audio_data_bytes_capacity,
        b.audio_data,
        b.audio_data_byte_size,
        b.user_data,
        b.packet_description_capacity,
        b.packet_descriptions,
        b.packet_description_count,
    ]
}

/// The buffer header stored at `a`.
pub open spec fn buffer_at(s: Seq<u8>, a: int) -> AudioQueueBuffer {
    let w = words_at(s, a, 7);
    AudioQueueBuffer {
        audio_data_bytes_capacity: w[0],
        audio_data: w[1],
        audio_data_byte_size: w[2],
        user_data: w[3],
        packet_description_capacity: w[4],
        packet_descriptions: w[5],
        packet_description_count: w[6],
    }
}

/// The words of a level meter state as the guest lays it out.
pub open spec fn meter_words(m: AudioQueueLevelMeterState) -> Seq<u32> {
    seq![m.average_power_bits, m.peak_power_bits]
}

/// A stream description read back from its words is the same.
proof fn lemma_asbd_words(f: AudioStreamBasicDescription)
    ensures
        asbd_of_words(asbd_words(f)) == f,
{
    let sr = f.sample_rate_bits;
    assert(((sr & 0xffff_ffff) as u32 as u64) | ((((sr >> 32) as u32) as u64) << 32) == sr)
        by (bit_vector);
}

/// Reads the stream description at `addr`.
pub fn read_asbd(mem: &Mem, addr: u32) -> (f: AudioStreamBasicDescription)
    requires
        mem.valid(addr as int, ASBD_SIZE as int),
    ensures
        f == asbd_at(mem@, addr as int),
{
    let w = mem.read_words(addr, 10);
    AudioStreamBasicDescription {
        sample_rate_bits: (w[0] as u64) | ((w[1] as u64) << 32),
        format_id: w[2],
        format_flags: w[3],
        bytes_per_packet: w[4],
        frames_per_packet: w[5],
        bytes_per_frame: w[6],
        channels_per_frame: w[7],
        bits_per_channel: w[8],
        reserved: w[9],
    }
}

/// Stores the stream description `f` at `addr`.
fn write_asbd(mem: &mut Mem, addr: u32, f: AudioStreamBasicDescription)
    requires
        old(mem).valid(addr as int, ASBD_SIZE as int),
    ensures
        final(mem)@ == put_words(old(mem)@, addr as int, asbd_words(f)),
        final(mem)@.len() == old(mem)@.len(),
{
    let w: [u32; 10] = [
        (f.sample_rate_bits & 0xffff_ffff) as u32,
        (f.sample_rate_bits >> 32) as u32,
        f.format_id,
        f.format_flags,
        f.bytes_per_packet,
        f.frames_per_packet,
        f.bytes_per_frame,
        f.channels_per_frame,
        f.bits_per_channel,
        f.reserved,
    ];
    assert(w@ =~= asbd_words(f));
    mem.write_words(addr, &w);
}

/// Reads the buffer header at `addr`.
pub fn read_buffer(mem: &Mem, addr: u32) -> (b: AudioQueueBuffer)
    requires
        mem.valid(addr as int, AUDIO_QUEUE_BUFFER_SIZE as int),
    ensures
        b == buffer_at(mem@, addr as int),
{
    let w = mem.read_words(addr, 7);
    AudioQueueBuffer {
        audio_data_bytes_capacity: w[0],
        audio_data: w[1],
        audio_data_byte_size: w[2],
        user_data: w[3],
        packet_description_capacity: w[4],
        packet_descriptions: w[5],
        packet_description_count: w[6],
    }
}

/// Stores the buffer header `b` at `addr`.
fn write_buffer(mem: &mut Mem, addr: u32, b: AudioQueueBuffer)
    requires
        old(mem).valid(addr as int, AUDIO_QUEUE_BUFFER_SIZE as int),
    ensures
        final(mem)@ == put_words(old(mem)@, addr as int, buffer_words(b)),
        final(mem)@.len() == old(mem)@.len(),
{
    let w: [u32; 7] = [
        b.audio_data_bytes_capacity,
        b.audio_data,
        b.audio_data_byte_size,
        b.user_data,
        b.packet_description_capacity,
        b.packet_descriptions,
        b.packet_description_count,
    ];
    assert(w@ =~= buffer_words(b));
    mem.write_words(addr, &w);
}

/// The host side of an audio queue.
pub struct AudioQueueHostObject {
    pub format: AudioStreamBasicDescription,
    pub callback_proc: u32,
    pub callback_user_data: u32,
    pub run_loop: u32,
    /// The bits of the `f32` volume.
    pub volume: u32,
    /// The bits of the `f32` pan.
    pub pan: u32,
    /// Every buffer allocated for the queue.
    pub buffers: Vec<u32>,
    /// Buffers waiting to be played (or filled), oldest first.
    pub buffer_queue: VecDeque<u32>,
    pub is_running: AudioQueueIsRunning,
    pub al_source: Option<u32>,
    pub al_unused_buffers: Vec<u32>,
    pub aq_is_running_proc: Option<u32>,
    pub aq_is_running_user_data: Option<u32>,
    pub is_running_handler: bool,
    pub is_input: bool,
    pub input_delay: u64,
    pub hardware_codec_policy: u32,
    pub offline_render_format: Option<AudioStreamBasicDescription>,
}

/// [`AudioQueueHostObject`] as mathematical values.
pub struct HostObjectView {
    pub format: AudioStreamBasicDescription,
    pub callback_proc: u32,
    pub callback_user_data: u32,
    pub run_loop: u32,
    pub volume: u32,
    pub pan: u32,
    pub buffers: Seq<u32>,
    pub buffer_queue: Seq<u32>,
    pub is_running: AudioQueueIsRunning,
    pub al_source: Option<u32>,
    pub al_unused_buffers: Seq<u32>,
    pub aq_is_running_proc: Option<u32>,
    pub aq_is_running_user_data: Option<u32>,
    pub is_running_handler: bool,
    pub is_input: bool,
    pub input_delay: u64,
    pub hardware_codec_policy: u32,
    pub offline_render_format: Option<AudioStreamBasicDescription>,
}

impl View for AudioQueueHostObject {
    type V = HostObjectView;

    open spec fn view(&self) -> HostObjectView {
        HostObjectView {
            format: self.format,
            callback_proc: self.callback_proc,
            callback_user_data: self.callback_user_data,
            run_loop: self.run_loop,
            volume: self.volume,
            pan: self.pan,
            buffers: self.buffers@,
            buffer_queue: self.buffer_queue@,
            is_running: self.is_running,
            al_source: self.al_source,
            al_unused_buffers: self.al_unused_buffers@,
            aq_is_running_proc: self.aq_is_running_proc,
            aq_is_running_user_data: self.aq_is_running_user_data,
            is_running_handler: self.is_running_handler,
            is_input: self.is_input,
            input_delay: self.input_delay,
            hardware_codec_policy: self.hardware_codec_policy,
            offline_render_format: self.offline_render_format,
        }
    }
}

/// A queue as it is created: full volume, centred, stopped, no buffers,
/// the default codec policy.
pub open spec fn new_host_object(
    format: AudioStreamBasicDescription,
    callback_proc: u32,
    callback_user_data: u32,
    run_loop: u32,
    is_input: bool,
) -> HostObjectView {
    HostObjectView {
        format,
        callback_proc,
        callback_user_data,
        run_loop,
        volume: VOLUME_FULL_BITS,
        pan: 0,
        buffers: Seq::empty(),
        buffer_queue: Seq::empty(),
        is_running: AudioQueueIsRunning::Stopped,
        al_source: None,
        al_unused_buffers: Seq::empty(),
        aq_is_running_proc: None,
        aq_is_running_user_data: None,
        is_running_handler: false,
        is_input,
        input_delay: 0,
        hardware_codec_policy: CODEC_POLICY_DEFAULT,
        offline_render_format: None,
    }
}

/// The audio-queue state of AudioToolbox.
pub struct State {
    pub audio_queues: HashMap<u32, AudioQueueHostObject>,
}

impl View for State {
    type V = Map<u32, HostObjectView>;

    open spec fn view(&self) -> Map<u32, HostObjectView> {
        self.audio_queues@.map_values(|h: AudioQueueHostObject| h@)
    }
}

/// The audio queues of the environment, by the address of their guest
/// object (none before the state exists).
pub open spec fn queues(fs: FrameworkState) -> Map<u32, HostObjectView> {
    match fs.audio_toolbox {
        Some(s) => s@,
        None => Map::empty(),
    }
}

impl State {
    /// The state, created (with no queues) if it does not exist yet.
    pub fn get(framework_state: &mut FrameworkState) -> (s: &mut State)
        ensures
            s@ == queues(*old(framework_state)),
            final(framework_state).audio_toolbox == Some(*final(s)),
    {
        let fresh = State { audio_queues: HashMap::new() };
        proof {
            broadcast use vstd::std_specs::hash::group_hash_axioms;
            broadcast use vstd::map_lib::group_map_properties;

            assert(fresh@ =~= Map::empty());
        }
        framework_state.audio_toolbox.get_or_insert(fresh)
    }
}

/// Takes the queue `aq` out of the state, if it is there.
fn take_queue(state: &mut State, aq: u32) -> (h: Option<AudioQueueHostObject>)
    ensures
        match h {
            Some(x) => old(state)@.contains_key(aq) && x@ == old(state)@[aq] && final(state)@
                == old(state)@.remove(aq),
            None => !old(state)@.contains_key(aq) && final(state)@ == old(state)@,
        },
{
    proof {
        broadcast use vstd::std_specs::hash::group_hash_axioms;
        broadcast use vstd::map_lib::group_map_properties;
    }
    let ghost before = state.audio_queues@;
    let h = state.audio_queues.remove(&aq);
    proof {
        assert(state@ =~= old(state)@.remove(aq));
    }
    h
}

/// Puts the queue `aq` into the state.
fn put_queue(state: &mut State, aq: u32, h: AudioQueueHostObject)
    ensures
        final(state)@ == old(state)@.insert(aq, h@),
{
    proof {
        broadcast use vstd::std_specs::hash::group_hash_axioms;
        broadcast use vstd::map_lib::group_map_properties;
    }
    let ghost hv = h@;
    state.audio_queues.insert(aq, h);
    proof {
        assert(state@ =~= old(state)@.insert(aq, hv));
    }
}

/// Removes the queue `aq` from the state, if it is there.
fn remove_queue(state: &mut State, aq: u32)
    ensures
        final(state)@ == old(state)@.remove(aq),
{
    let h = take_queue(state, aq);
    proof {
        if h is None {
            assert(old(state)@.remove(aq) =~= old(state)@);
        }
    }
}

/// Every queue is known by the address of its guest object, which lies in
/// allocated memory above the null page (so no allocation to come can
/// hand out the address of a queue that exists).
pub open spec fn queues_well_formed(env: Environment) -> bool {
    &&& crate::mem::NULL_PAGE_SIZE <= env@.mem.len()
    &&& forall|aq: u32|
        #[trigger] env@.queues.contains_key(aq) ==> crate::mem::NULL_PAGE_SIZE <= aq
            < env@.mem.len()
}

/// The bytes that an allocation of `size` bytes adds: zeros.
pub open spec fn zeros(size: nat) -> Seq<u8> {
    Seq::new(block_size(size), |i: int| 0u8)
}

/// The parts of the environment that the audio functions change are as
/// they were.
pub open spec fn unchanged(a: Environment, b: Environment) -> bool {
    &&& a@.mem == b@.mem
    &&& a@.queues == b@.queues
    &&& a@.run_loop_audio_queues == b@.run_loop_audio_queues
    &&& a@.main_run_loop == b@.main_run_loop
}

/// The status of a call that needs the queue `aq`: `paramErr` for null,
/// an invalid-property error for an unknown queue, else success.
pub open spec fn queue_status(env: Environment, aq: u32) -> OSStatus {
    if aq == 0 {
        paramErr
    } else if !env@.queues.contains_key(aq) {
        kAudioQueueErr_InvalidProperty
    } else {
        0
    }
}

/// The run loop that a new queue's callbacks go to: the given one, or the
/// main run loop for null.
pub open spec fn callback_run_loop(env: Environment, run_loop: u32) -> u32 {
    if run_loop == 0 {
        env@.main_run_loop
    } else {
        run_loop
    }
}

/// Guest memory after a new queue is created: its guest object (a zero
/// word) is allocated, and its address is stored at `out_aq`.
pub open spec fn memory_after_new_queue(mem: Seq<u8>, out_aq: u32) -> Seq<u8> {
    let aq = mem.len();
    put_u32(put_u32(mem + zeros(OPAQUE_AUDIO_QUEUE_SIZE as nat), aq as int, 0), out_aq as int, aq as u32)
}

/// What creating a queue does.
pub open spec fn creates_queue(
    old_env: Environment,
    new_env: Environment,
    in_format: u32,
    in_callback_proc: u32,
    in_user_data: u32,
    in_callback_run_loop: u32,
    out_aq: u32,
    is_input: bool,
) -> bool {
    let aq = old_env@.mem.len() as u32;
    let run_loop = callback_run_loop(old_env, in_callback_run_loop);
    &&& !old_env@.queues.contains_key(aq)
    &&& new_env@.mem == memory_after_new_queue(old_env@.mem, out_aq)
    &&& new_env@.mem.len() == old_env@.mem.len() + block_size(OPAQUE_AUDIO_QUEUE_SIZE as nat)
    &&& new_env@.queues == old_env@.queues.insert(
        aq,
        new_host_object(
            asbd_at(old_env@.mem, in_format as int),
            in_callback_proc,
            in_user_data,
            run_loop,
            is_input,
        ),
    )
    &&& new_env@.run_loop_audio_queues == old_env@.run_loop_audio_queues.push((run_loop, aq))
    &&& new_env@.main_run_loop == old_env@.main_run_loop
}

/// The creation work shared by output and input queues.
fn new_queue(
    env: &mut Environment,
    in_format: u32,
    in_callback_proc: u32,
    in_user_data: u32,
    in_callback_run_loop: u32,
    out_aq: u32,
    is_input: bool,
)
    requires
        queues_well_formed(*old(env)),
        mapped(old(env)@.mem, in_format as int, ASBD_SIZE as int),
        mapped(old(env)@.mem, out_aq as int, 4),
        old(env)@.mem.len() + block_size(OPAQUE_AUDIO_QUEUE_SIZE as nat) <= u32::MAX,
    ensures
        queues_well_formed(*old(env)) ==> queues_well_formed(*final(env)),
        creates_queue(
            *old(env),
            *final(env),
            in_format,
            in_callback_proc,
            in_user_data,
            in_callback_run_loop,
            out_aq,
            is_input,
        ),
{
    let run_loop = if in_callback_run_loop == 0 {
        env.main_run_loop
    } else {
        in_callback_run_loop
    };
    let format = read_asbd(&env.mem, in_format);
    let host_object = AudioQueueHostObject {
        format,
        callback_proc: in_callback_proc,
        callback_user_data: in_user_data,
        run_loop,
        volume: VOLUME_FULL_BITS,
        pan: 0,
        buffers: Vec::new(),
        buffer_queue: VecDeque::new(),
        is_running: AudioQueueIsRunning::Stopped,
        al_source: None,
        al_unused_buffers: Vec::new(),
        aq_is_running_proc: None,
        aq_is_running_user_data: None,
        is_running_handler: false,
        is_input,
        input_delay: 0,
        hardware_codec_policy: CODEC_POLICY_DEFAULT,
        offline_render_format: None,
    };
    assert(host_object@ =~= new_host_object(format, in_callback_proc, in_user_data, run_loop, is_input));
    let aq_ref = env.mem.allocate(OPAQUE_AUDIO_QUEUE_SIZE);
    env.mem.write_u32(aq_ref, 0);
    let state = State::get(&mut env.framework_state);
    put_queue(state, aq_ref, host_object);
    env.mem.write_u32(out_aq, aq_ref);
    env.run_loop_audio_queues.push((run_loop, aq_ref));
    proof {
        assert forall|k: u32| #[trigger] env@.queues.contains_key(k) implies
            crate::mem::NULL_PAGE_SIZE <= k < env@.mem.len() by {
            if k != aq_ref {
                assert(old(env)@.queues.contains_key(k));
            }
        }
    }
}

/// `AudioQueueNewOutput`: creates a playback queue for the stream
/// description at `in_format`, stores its address at `out_aq` and attaches
/// it to the callback run loop (the main one when null). The flags and
/// the run loop mode are ignored.
pub fn AudioQueueNewOutput(
    env: &mut Environment,
    in_format: u32,
    in_callback_proc: u32,
    in_user_data: u32,
    in_callback_run_loop: u32,
    in_callback_run_loop_mode: u32,
    in_flags: u32,
    out_aq: u32,
) -> (status: OSStatus)
    requires
        queues_well_formed(*old(env)),
        mapped(old(env)@.mem, in_format as int, ASBD_SIZE as int),
        mapped(old(env)@.mem, out_aq as int, 4),
        old(env)@.mem.len() + block_size(OPAQUE_AUDIO_QUEUE_SIZE as nat) <= u32::MAX,
    ensures
        status == 0,
        queues_well_formed(*old(env)) ==> queues_well_formed(*final(env)),
        creates_queue(
            *old(env),
            *final(env),
            in_format,
            in_callback_proc,
            in_user_data,
            in_callback_run_loop,
            out_aq,
            false,
        ),
{
    new_queue(env, in_format, in_callback_proc, in_user_data, in_callback_run_loop, out_aq, false);
    0
}

/// `AudioQueueNewInput`: like [`AudioQueueNewOutput`], for a recording
/// queue.
pub fn AudioQueueNewInput(
    env: &mut Environment,
    in_format: u32,
    in_callback_proc: u32,
    in_user_data: u32,
    in_callback_run_loop: u32,
    _in_callback_run_loop_mode: u32,
    in_flags: u32,
    out_aq: u32,
) -> (status: OSStatus)
    requires
        queues_well_formed(*old(env)),
        mapped(old(env)@.mem, in_format as int, ASBD_SIZE as int),
        mapped(old(env)@.mem, out_aq as int, 4),
        old(env)@.mem.len() + block_size(OPAQUE_AUDIO_QUEUE_SIZE as nat) <= u32::MAX,
    ensures
        status == 0,
        queues_well_formed(*old(env)) ==> queues_well_formed(*final(env)),
        creates_queue(
            *old(env),
            *final(env),
            in_format,
            in_callback_proc,
            in_user_data,
            in_callback_run_loop,
            out_aq,
            true,
        ),
{
    new_queue(env, in_format, in_callback_proc, in_user_data, in_callback_run_loop, out_aq, true);
    0
}

/// The header of a freshly allocated buffer of `capacity` bytes at
/// `data`, with room for `descriptions` packet descriptions at
/// `descriptions_ptr`.
pub open spec fn new_buffer(capacity: u32, data: u32, descriptions: u32, descriptions_ptr: u32) -> AudioQueueBuffer {
    AudioQueueBuffer {
        audio_data_bytes_capacity: capacity,
        audio_data: data,
        audio_data_byte_size: 0,
        user_data: 0,
        packet_description_capacity: descriptions,
        packet_descriptions: descriptions_ptr,
        packet_description_count: 0,
    }
}

/// The queue `h` with one more buffer.
pub open spec fn with_buffer(h: HostObjectView, buffer: u32) -> HostObjectView {
    HostObjectView { buffers: h.buffers.push(buffer), ..h }
}

/// Allocates a block and stores a buffer header in it.
fn allocate_buffer_header(mem: &mut Mem, header: AudioQueueBuffer) -> (addr: u32)
    requires
        old(mem)@.len() + block_size(AUDIO_QUEUE_BUFFER_SIZE as nat) <= u32::MAX,
        crate::mem::NULL_PAGE_SIZE <= old(mem)@.len(),
    ensures
        addr == old(mem)@.len(),
        final(mem)@ == put_words(
            old(mem)@ + zeros(AUDIO_QUEUE_BUFFER_SIZE as nat),
            addr as int,
            buffer_words(header),
        ),
        final(mem)@.len() == old(mem)@.len() + block_size(AUDIO_QUEUE_BUFFER_SIZE as nat),
{
    let addr = mem.allocate(AUDIO_QUEUE_BUFFER_SIZE);
    write_buffer(mem, addr, header);
    addr
}

/// What allocating a buffer does: on success, the data block and then the
/// header block are allocated, the header (empty, pointing at the data)
/// stored, the header's address stored at `out`, and the queue gets the
/// buffer; nothing else changes.
pub open spec fn allocates_buffer(
    old_env: Environment,
    new_env: Environment,
    aq: u32,
    size: u32,
    out: u32,
    status: OSStatus,
) -> bool {
    &&& status == queue_status(old_env, aq)
    &&& status != 0 ==> unchanged(old_env, new_env)
    &&& status == 0 ==> {
        let data = old_env@.mem.len();
        let header = data + block_size(size as nat);
        &&& new_env@.mem == put_u32(
            put_words(
                old_env@.mem + zeros(size as nat) + zeros(AUDIO_QUEUE_BUFFER_SIZE as nat),
                header as int,
                buffer_words(new_buffer(size, data as u32, 0, 0)),
            ),
            out as int,
            header as u32,
        )
        &&& new_env@.mem.len() == header + block_size(AUDIO_QUEUE_BUFFER_SIZE as nat)
        &&& new_env@.queues == old_env@.queues.insert(
            aq,
            with_buffer(old_env@.queues[aq], header as u32),
        )
        &&& new_env@.run_loop_audio_queues == old_env@.run_loop_audio_queues
        &&& new_env@.main_run_loop == old_env@.main_run_loop
    }
}

/// `AudioQueueAllocateBuffer`: gives the queue a new buffer of
/// `in_buffer_byte_size` bytes (data and header freshly allocated, the
/// header empty) and stores the header's address at `out_buffer`.
pub fn AudioQueueAllocateBuffer(
    env: &mut Environment,
    in_aq: u32,
    in_buffer_byte_size: u32,
    out_buffer: u32,
) -> (status: OSStatus)
    requires
        queue_status(*old(env), in_aq) == 0 ==> {
            &&& mapped(old(env)@.mem, out_buffer as int, 4)
            &&& old(env)@.mem.len() + block_size(in_buffer_byte_size as nat) + block_size(
                AUDIO_QUEUE_BUFFER_SIZE as nat,
            ) <= u32::MAX
        },
    ensures
        allocates_buffer(*old(env), *final(env), in_aq, in_buffer_byte_size, out_buffer, status),
        queues_well_formed(*old(env)) ==> queues_well_formed(*final(env)),
{
    if in_aq == 0 {
        return paramErr;
    }
    let state = State::get(&mut env.framework_state);
    let mut host_object = match take_queue(state, in_aq) {
        None => return kAudioQueueErr_InvalidProperty,
        Some(h) => h,
    };
    let data_ptr = env.mem.allocate(in_buffer_byte_size);
    let header = new_buffer_exec(in_buffer_byte_size, data_ptr, 0, 0);
    let buf_ref = allocate_buffer_header(&mut env.mem, header);
    host_object.buffers.push(buf_ref);
    put_queue(state, in_aq, host_object);
    proof {
        assert(env@.queues =~= old(env)@.queues.insert(
            in_aq,
            with_buffer(old(env)@.queues[in_aq], buf_ref),
        ));
        assert(old(env)@.mem + zeros(in_buffer_byte_size as nat) + zeros(AUDIO_QUEUE_BUFFER_SIZE as nat)
            =~= (old(env)@.mem + zeros(in_buffer_byte_size as nat)) + zeros(AUDIO_QUEUE_BUFFER_SIZE as nat));
    }
    env.mem.write_u32(out_buffer, buf_ref);
    0
}

fn new_buffer_exec(capacity: u32, data: u32, descriptions: u32, descriptions_ptr: u32) -> (b: AudioQueueBuffer)
    ensures
        b == new_buffer(capacity, data, descriptions, descriptions_ptr),
{
    AudioQueueBuffer {
        audio_data_bytes_capacity: capacity,
        audio_data: data,
        audio_data_byte_size: 0,
        user_data: 0,
        packet_description_capacity: descriptions,
        packet_descriptions: descriptions_ptr,
        packet_description_count: 0,
    }
}

/// What allocating a buffer with room for `descriptions` packet
/// descriptions does: as [`allocates_buffer`], with a block for the
/// descriptions between the data and the header, which points to it.
pub open spec fn allocates_buffer_with_descriptions(
    old_env: Environment,
    new_env: Environment,
    aq: u32,
    size: u32,
    descriptions: u32,
    out: u32,
    status: OSStatus,
) -> bool {
    &&& status == queue_status(old_env, aq)
    &&& status != 0 ==> unchanged(old_env, new_env)
    &&& status == 0 ==> {
        let descriptions_size = descriptions as nat * PACKET_DESCRIPTION_SIZE as nat;
        let data = old_env@.mem.len();
        let descriptions_ptr = data + block_size(size as nat);
        let header = descriptions_ptr + block_size(descriptions_size);
        &&& new_env@.mem == put_u32(
            put_words(
                old_env@.mem + zeros(size as nat) + zeros(descriptions_size) + zeros(
                    AUDIO_QUEUE_BUFFER_SIZE as nat,
                ),
                header as int,
                buffer_words(new_buffer(size, data as u32, descriptions, descriptions_ptr as u32)),
            ),
            out as int,
            header as u32,
        )
        &&& new_env@.mem.len() == header + block_size(AUDIO_QUEUE_BUFFER_SIZE as nat)
        &&& new_env@.queues == old_env@.queues.insert(
            aq,
            with_buffer(old_env@.queues[aq], header as u32),
        )
        &&& new_env@.run_loop_audio_queues == old_env@.run_loop_audio_queues
        &&& new_env@.main_run_loop == old_env@.main_run_loop
    }
}

/// `AudioQueueAllocateBufferWithPacketDescriptions`: like
/// [`AudioQueueAllocateBuffer`], and also allocates room for
/// `in_number_packet_descriptions` packet descriptions, which the header
/// points to.
pub fn AudioQueueAllocateBufferWithPacketDescriptions(
    env: &mut Environment,
    in_aq: u32,
    in_buffer_byte_size: u32,
    in_number_packet_descriptions: u32,
    out_buffer: u32,
) -> (status: OSStatus)
    requires
        queue_status(*old(env), in_aq) == 0 ==> {
            &&& mapped(old(env)@.mem, out_buffer as int, 4)
            &&& old(env)@.mem.len() + block_size(in_buffer_byte_size as nat) + block_size(
                in_number_packet_descriptions as nat * PACKET_DESCRIPTION_SIZE as nat,
            ) + block_size(AUDIO_QUEUE_BUFFER_SIZE as nat) <= u32::MAX
        },
    ensures
        allocates_buffer_with_descriptions(
            *old(env),
            *final(env),
            in_aq,
            in_buffer_byte_size,
            in_number_packet_descriptions,
            out_buffer,
            status,
        ),
        queues_well_formed(*old(env)) ==> queues_well_formed(*final(env)),
{
    if in_aq == 0 {
        return paramErr;
    }
    let state = State::get(&mut env.framework_state);
    let mut host_object = match take_queue(state, in_aq) {
        None => return kAudioQueueErr_InvalidProperty,
        Some(h) => h,
    };
    let data_ptr = env.mem.allocate(in_buffer_byte_size);
    let packet_descs_ptr = env.mem.allocate(in_number_packet_descriptions * PACKET_DESCRIPTION_SIZE);
    let header = new_buffer_exec(
        in_buffer_byte_size,
        data_ptr,
        in_number_packet_descriptions,
        packet_descs_ptr,
    );
    let buf_ref = allocate_buffer_header(&mut env.mem, header);
    host_object.buffers.push(buf_ref);
    put_queue(state, in_aq, host_object);
    proof {
        assert(env@.queues =~= old(env)@.queues.insert(
            in_aq,
            with_buffer(old(env)@.queues[in_aq], buf_ref),
        ));
    }
    env.mem.write_u32(out_buffer, buf_ref);
    0
}

/// The status of a call that needs the queue `aq` and the buffer `buffer`:
/// `paramErr` if either is null (the queue checked first), an
/// invalid-property error for an unknown queue, else success.
pub open spec fn queue_buffer_status(env: Environment, aq: u32, buffer: u32) -> OSStatus {
    if aq == 0 || buffer == 0 {
        paramErr
    } else {
        queue_status(env, aq)
    }
}

/// The queue `h` with `buffer` waiting at the back.
pub open spec fn with_queued_buffer(h: HostObjectView, buffer: u32) -> HostObjectView {
    HostObjectView { buffer_queue: h.buffer_queue.push(buffer), ..h }
}

/// The header `b` recording `count` packet descriptions.
pub open spec fn with_description_count(b: AudioQueueBuffer, count: u32) -> AudioQueueBuffer {
    AudioQueueBuffer { packet_description_count: count, ..b }
}

/// What enqueueing a buffer does: on success the buffer's header records
/// `count` packet descriptions, the buffer waits at the back of the queue,
/// and nothing else changes.
pub open spec fn enqueues(
    old_env: Environment,
    new_env: Environment,
    aq: u32,
    buffer: u32,
    count: u32,
    status: OSStatus,
) -> bool {
    &&& status == queue_buffer_status(old_env, aq, buffer)
    &&& status != 0 ==> unchanged(old_env, new_env)
    &&& status == 0 ==> {
        &&& new_env@.mem == put_words(
            old_env@.mem,
            buffer as int,
            buffer_words(with_description_count(buffer_at(old_env@.mem, buffer as int), count)),
        )
        &&& new_env@.mem.len() == old_env@.mem.len()
        &&& new_env@.queues == old_env@.queues.insert(
            aq,
            with_queued_buffer(old_env@.queues[aq], buffer),
        )
        &&& new_env@.run_loop_audio_queues == old_env@.run_loop_audio_queues
        &&& new_env@.main_run_loop == old_env@.main_run_loop
    }
}

/// `AudioQueueEnqueueBuffer`: records in the buffer's header how many
/// packet descriptions come with it and puts the buffer at the back of
/// the queue.
pub fn AudioQueueEnqueueBuffer(
    env: &mut Environment,
    in_aq: u32,
    in_buffer: u32,
    in_num_packet_descs: u32,
    _in_packet_descs: u32,
) -> (status: OSStatus)
    requires
        queue_buffer_status(*old(env), in_aq, in_buffer) == 0 ==> mapped(old(env)@.mem, 
            in_buffer as int,
            AUDIO_QUEUE_BUFFER_SIZE as int,
        ),
    ensures
        enqueues(*old(env), *final(env), in_aq, in_buffer, in_num_packet_descs, status),
        queues_well_formed(*old(env)) ==> queues_well_formed(*final(env)),
{
    if in_aq == 0 {
        return paramErr;
    }
    if in_buffer == 0 {
        return paramErr;
    }
    let state = State::get(&mut env.framework_state);
    let mut host_object = match take_queue(state, in_aq) {
        None => return kAudioQueueErr_InvalidProperty,
        Some(h) => h,
    };
    let mut buf = read_buffer(&env.mem, in_buffer);
    buf.packet_description_count = in_num_packet_descs;
    write_buffer(&mut env.mem, in_buffer, buf);
    host_object.buffer_queue.push_back(in_buffer);
    put_queue(state, in_aq, host_object);
    proof {
        assert(env@.queues =~= old(env)@.queues.insert(
            in_aq,
            with_queued_buffer(old(env)@.queues[in_aq], in_buffer),
        ));
    }
    0
}

/// `AudioQueueEnqueueBufferWithParameters`: the same as
/// [`AudioQueueEnqueueBuffer`]; trimming, parameters and start times are
/// ignored.
pub fn AudioQueueEnqueueBufferWithParameters(
    env: &mut Environment,
    in_aq: u32,
    in_buffer: u32,
    in_num_packet_descs: u32,
    in_packet_descs: u32,
    _in_trim_frames_at_start: u32,
    _in_trim_frames_at_end: u32,
    _in_num_param_values: u32,
    _in_param_values: u32,
    _in_start_time: u32,
    _out_actual_start_time: u32,
) -> (status: OSStatus)
    requires
        queue_buffer_status(*old(env), in_aq, in_buffer) == 0 ==> mapped(old(env)@.mem, 
            in_buffer as int,
            AUDIO_QUEUE_BUFFER_SIZE as int,
        ),
    ensures
        enqueues(*old(env), *final(env), in_aq, in_buffer, in_num_packet_descs, status),
        queues_well_formed(*old(env)) ==> queues_well_formed(*final(env)),
{
    AudioQueueEnqueueBuffer(env, in_aq, in_buffer, in_num_packet_descs, in_packet_descs)
}

/// The queue `h` in the running state `r`.
pub open spec fn with_running(h: HostObjectView, r: AudioQueueIsRunning) -> HostObjectView {
    HostObjectView { is_running: r, ..h }
}

/// What setting a queue's running state does.
pub open spec fn sets_running(
    old_env: Environment,
    new_env: Environment,
    aq: u32,
    status: OSStatus,
    r: AudioQueueIsRunning,
) -> bool {
    &&& status == queue_status(old_env, aq)
    &&& status != 0 ==> unchanged(old_env, new_env)
    &&& status == 0 ==> {
        &&& new_env@.mem == old_env@.mem
        &&& new_env@.queues == old_env@.queues.insert(
            aq,
            with_running(old_env@.queues[aq], r),
        )
        &&& new_env@.run_loop_audio_queues == old_env@.run_loop_audio_queues
        &&& new_env@.main_run_loop == old_env@.main_run_loop
    }
}

fn set_running(env: &mut Environment, in_aq: u32, r: AudioQueueIsRunning) -> (status: OSStatus)
    ensures
        sets_running(*old(env), *final(env), in_aq, status, r),
        queues_well_formed(*old(env)) ==> queues_well_formed(*final(env)),
{
    if in_aq == 0 {
        return paramErr;
    }
    let state = State::get(&mut env.framework_state);
    let mut host_object = match take_queue(state, in_aq) {
        None => return kAudioQueueErr_InvalidProperty,
        Some(h) => h,
    };
    host_object.is_running = r;
    put_queue(state, in_aq, host_object);
    proof {
        assert(env@.queues =~= old(env)@.queues.insert(
            in_aq,
            with_running(old(env)@.queues[in_aq], r),
        ));
    }
    0
}

/// `AudioQueueStart`: the queue runs.
pub fn AudioQueueStart(env: &mut Environment, in_aq: u32, _in_start_time: u32) -> (status: OSStatus)
    ensures
        sets_running(*old(env), *final(env), in_aq, status, AudioQueueIsRunning::Running),
        queues_well_formed(*old(env)) ==> queues_well_formed(*final(env)),
{
    set_running(env, in_aq, AudioQueueIsRunning::Running)
}

/// `AudioQueuePause`: the queue stops.
pub fn AudioQueuePause(env: &mut Environment, in_aq: u32) -> (status: OSStatus)
    ensures
        sets_running(*old(env), *final(env), in_aq, status, AudioQueueIsRunning::Stopped),
        queues_well_formed(*old(env)) ==> queues_well_formed(*final(env)),
{
    set_running(env, in_aq, AudioQueueIsRunning::Stopped)
}

/// `AudioQueueStop`: the queue stops.
pub fn AudioQueueStop(env: &mut Environment, in_aq: u32, _in_immediate: u8) -> (status: OSStatus)
    ensures
        sets_running(*old(env), *final(env), in_aq, status, AudioQueueIsRunning::Stopped),
        queues_well_formed(*old(env)) ==> queues_well_formed(*final(env)),
{
    set_running(env, in_aq, AudioQueueIsRunning::Stopped)
}

/// What disposing of a queue does: for a non-null queue, forgets it
/// (whether or not it was known) and succeeds.
pub open spec fn disposes(old_env: Environment, new_env: Environment, aq: u32, status: OSStatus) -> bool {
    &&& aq == 0 ==> status == paramErr && unchanged(old_env, new_env)
    &&& aq != 0 ==> {
        &&& status == 0
        &&& new_env@.mem == old_env@.mem
        &&& new_env@.queues == old_env@.queues.remove(aq)
        &&& new_env@.run_loop_audio_queues == old_env@.run_loop_audio_queues
        &&& new_env@.main_run_loop == old_env@.main_run_loop
    }
}

/// `AudioQueueDispose`: forgets the queue (known or not).
pub fn AudioQueueDispose(env: &mut Environment, in_aq: u32, _in_immediate: u8) -> (status: OSStatus)
    ensures
        disposes(*old(env), *final(env), in_aq, status),
        queues_well_formed(*old(env)) ==> queues_well_formed(*final(env)),
{
    if in_aq == 0 {
        return paramErr;
    }
    let state = State::get(&mut env.framework_state);
    remove_queue(state, in_aq);
    0
}

/// Looks up the queue `aq`.
pub(crate) fn queue_ref(state: &State, aq: u32) -> (r: Option<&AudioQueueHostObject>)
    ensures
        match r {
            Some(h) => state@.contains_key(aq) && h@ == state@[aq],
            None => !state@.contains_key(aq),
        },
{
    proof {
        broadcast use vstd::std_specs::hash::group_hash_axioms;
    }
    state.audio_queues.get(&aq)
}

/// Whether a parameter can be read and set: volume and pan.
pub open spec fn known_parameter(param: u32) -> bool {
    param == kAudioQueueParam_Volume || param == kAudioQueueParam_Pan
}

/// The status of a parameter call: that of the queue, then an
/// invalid-property error for a parameter other than volume and pan.
pub open spec fn parameter_status(env: Environment, aq: u32, param: u32) -> OSStatus {
    if queue_status(env, aq) != 0 {
        queue_status(env, aq)
    } else if !known_parameter(param) {
        kAudioQueueErr_InvalidProperty
    } else {
        0
    }
}

/// The bits of a queue's parameter (volume or pan).
pub open spec fn parameter_value(h: HostObjectView, param: u32) -> u32 {
    if param == kAudioQueueParam_Volume {
        h.volume
    } else {
        h.pan
    }
}

/// The queue `h` with the parameter (volume or pan) set to `value`.
pub open spec fn with_parameter(h: HostObjectView, param: u32, value: u32) -> HostObjectView {
    if param == kAudioQueueParam_Volume {
        HostObjectView { volume: value, ..h }
    } else {
        HostObjectView { pan: value, ..h }
    }
}

/// What reading a parameter does: on success the parameter's bits are
/// stored at `out`, and nothing else changes.
pub open spec fn gets_parameter(
    old_env: Environment,
    new_env: Environment,
    aq: u32,
    param: u32,
    out: u32,
    status: OSStatus,
) -> bool {
    &&& status == parameter_status(old_env, aq, param)
    &&& status != 0 ==> unchanged(old_env, new_env)
    &&& status == 0 ==> {
        &&& new_env@.mem == put_u32(
            old_env@.mem,
            out as int,
            parameter_value(old_env@.queues[aq], param),
        )
        &&& new_env@.mem.len() == old_env@.mem.len()
        &&& new_env@.queues == old_env@.queues
        &&& new_env@.run_loop_audio_queues == old_env@.run_loop_audio_queues
        &&& new_env@.main_run_loop == old_env@.main_run_loop
    }
}

/// What setting a parameter does: on success the queue's parameter takes
/// the new bits, and nothing else changes.
pub open spec fn sets_parameter(
    old_env: Environment,
    new_env: Environment,
    aq: u32,
    param: u32,
    value: u32,
    status: OSStatus,
) -> bool {
    &&& status == parameter_status(old_env, aq, param)
    &&& status != 0 ==> unchanged(old_env, new_env)
    &&& status == 0 ==> {
        &&& new_env@.mem == old_env@.mem
        &&& new_env@.queues == old_env@.queues.insert(
            aq,
            with_parameter(old_env@.queues[aq], param, value),
        )
        &&& new_env@.run_loop_audio_queues == old_env@.run_loop_audio_queues
        &&& new_env@.main_run_loop == old_env@.main_run_loop
    }
}

/// `AudioQueueGetParameter`: stores the queue's volume or pan (the bits of
/// an `f32`) at `out_value`.
pub fn AudioQueueGetParameter(env: &mut Environment, in_aq: u32, in_param_id: u32, out_value: u32) -> (status: OSStatus)
    requires
        parameter_status(*old(env), in_aq, in_param_id) == 0 ==> mapped(old(env)@.mem, out_value as int, 4),
    ensures
        gets_parameter(*old(env), *final(env), in_aq, in_param_id, out_value, status),
        queues_well_formed(*old(env)) ==> queues_well_formed(*final(env)),
{
    if in_aq == 0 {
        return paramErr;
    }
    let state = State::get(&mut env.framework_state);
    let value = match queue_ref(state, in_aq) {
        None => return kAudioQueueErr_InvalidProperty,
        Some(h) => {
            if in_param_id == kAudioQueueParam_Volume {
                h.volume
            } else if in_param_id == kAudioQueueParam_Pan {
                h.pan
            } else {
                return kAudioQueueErr_InvalidProperty;
            }
        },
    };
    env.mem.write_u32(out_value, value);
    0
}

/// `AudioQueueSetParameter`: sets the queue's volume or pan (`in_value` is
/// the bits of an `f32`).
pub fn AudioQueueSetParameter(env: &mut Environment, in_aq: u32, in_param_id: u32, in_value: u32) -> (status: OSStatus)
    ensures
        sets_parameter(*old(env), *final(env), in_aq, in_param_id, in_value, status),
        queues_well_formed(*old(env)) ==> queues_well_formed(*final(env)),
{
    if in_aq == 0 {
        return paramErr;
    }
    let state = State::get(&mut env.framework_state);
    let mut host_object = match take_queue(state, in_aq) {
        None => return kAudioQueueErr_InvalidProperty,
        Some(h) => h,
    };
    if in_param_id == kAudioQueueParam_Volume {
        host_object.volume = in_value;
    } else if in_param_id == kAudioQueueParam_Pan {
        host_object.pan = in_value;
    } else {
        put_queue(state, in_aq, host_object);
        proof {
            assert(env@.queues =~= old(env)@.queues);
        }
        return kAudioQueueErr_InvalidProperty;
    }
    put_queue(state, in_aq, host_object);
    proof {
        assert(env@.queues =~= old(env)@.queues.insert(
            in_aq,
            with_parameter(old(env)@.queues[in_aq], in_param_id, in_value),
        ));
    }
    0
}

/// The guest size of a property's value, for the properties that are
/// implemented.
pub open spec fn property_size(prop: u32) -> Option<u32> {
    if prop == kAudioQueueProperty_IsRunning {
        Some(4)
    } else if prop == kAudioQueueProperty_StreamDescription {
        Some(ASBD_SIZE)
    } else if prop == kAudioQueueProperty_CurrentLevelMeter {
        Some(LEVEL_METER_STATE_SIZE)
    } else {
        None
    }
}

/// Whether a queue counts as running: started, or still stopping.
pub open spec fn running_flag(r: AudioQueueIsRunning) -> u32 {
    match r {
        AudioQueueIsRunning::Running => 1,
        AudioQueueIsRunning::Stopping => 1,
        AudioQueueIsRunning::Stopped => 0,
    }
}

/// The words of a property's value for the queue `h`: whether it runs,
/// its stream description, or a fixed level meter reading (0.6 average,
/// 0.85 peak).
pub open spec fn property_words(prop: u32, h: HostObjectView) -> Seq<u32> {
    if prop == kAudioQueueProperty_IsRunning {
        seq![running_flag(h.is_running)]
    } else if prop == kAudioQueueProperty_StreamDescription {
        asbd_words(h.format)
    } else {
        meter_words(AudioQueueLevelMeterState { average_power_bits: LEVEL_AVERAGE_BITS, peak_power_bits: LEVEL_PEAK_BITS })
    }
}

/// The status of a property read: that of the queue, then an
/// invalid-property error for a property that is not implemented.
pub open spec fn property_status(env: Environment, aq: u32, prop: u32) -> OSStatus {
    if queue_status(env, aq) != 0 {
        queue_status(env, aq)
    } else if property_size(prop) is None {
        kAudioQueueErr_InvalidProperty
    } else {
        0
    }
}

/// What reading a property does: on success its value is stored at
/// `out`, then its size at `io_size`, and nothing else changes.
pub open spec fn gets_property(
    old_env: Environment,
    new_env: Environment,
    aq: u32,
    prop: u32,
    out: u32,
    io_size: u32,
    status: OSStatus,
) -> bool {
    &&& status == property_status(old_env, aq, prop)
    &&& status != 0 ==> unchanged(old_env, new_env)
    &&& status == 0 ==> {
        &&& new_env@.mem == put_u32(
            put_words(old_env@.mem, out as int, property_words(prop, old_env@.queues[aq])),
            io_size as int,
            property_size(prop).unwrap(),
        )
        &&& new_env@.mem.len() == old_env@.mem.len()
        &&& new_env@.queues == old_env@.queues
        &&& new_env@.run_loop_audio_queues == old_env@.run_loop_audio_queues
        &&& new_env@.main_run_loop == old_env@.main_run_loop
    }
}

/// `AudioQueueGetProperty`: stores the value of a property (whether the
/// queue runs, its stream description, or the current level meter) at
/// `out_property_data`, then its size at `io_data_size`.
pub fn AudioQueueGetProperty(
    env: &mut Environment,
    in_aq: u32,
    in_property_id: u32,
    out_property_data: u32,
    io_data_size: u32,
) -> (status: OSStatus)
    requires
        property_status(*old(env), in_aq, in_property_id) == 0 ==> {
            &&& mapped(old(env)@.mem, out_property_data as int, property_size(in_property_id).unwrap() as int)
            &&& mapped(old(env)@.mem, io_data_size as int, 4)
        },
    ensures
        gets_property(*old(env), *final(env), in_aq, in_property_id, out_property_data, io_data_size, status),
        queues_well_formed(*old(env)) ==> queues_well_formed(*final(env)),
{
    if in_aq == 0 {
        return paramErr;
    }
    let state = State::get(&mut env.framework_state);
    let (flag, format) = match queue_ref(state, in_aq) {
        None => return kAudioQueueErr_InvalidProperty,
        Some(h) => {
            let flag: u32 = match h.is_running {
                AudioQueueIsRunning::Running => 1,
                AudioQueueIsRunning::Stopping => 1,
                AudioQueueIsRunning::Stopped => 0,
            };
            (flag, h.format)
        },
    };
    if in_property_id == kAudioQueueProperty_CurrentLevelMeter {
        let w: [u32; 2] = [LEVEL_AVERAGE_BITS, LEVEL_PEAK_BITS];
        env.mem.write_words(out_property_data, &w);
        env.mem.write_u32(io_data_size, LEVEL_METER_STATE_SIZE);
        assert(w@ =~= property_words(in_property_id, old(env)@.queues[in_aq]));
        0
    } else if in_property_id == kAudioQueueProperty_IsRunning {
        let w: [u32; 1] = [flag];
        env.mem.write_words(out_property_data, &w);
        env.mem.write_u32(io_data_size, 4);
        assert(w@ =~= property_words(in_property_id, old(env)@.queues[in_aq]));
        0
    } else if in_property_id == kAudioQueueProperty_StreamDescription {
        write_asbd(&mut env.mem, out_property_data, format);
        env.mem.write_u32(io_data_size, ASBD_SIZE);
        0
    } else {
        kAudioQueueErr_InvalidProperty
    }
}

/// `AudioQueueSetProperty`: accepted and ignored.
pub fn AudioQueueSetProperty(
    _env: &mut Environment,
    _in_aq: u32,
    _in_property_id: u32,
    _in_property_data: u32,
    _in_property_data_size: u32,
) -> (status: OSStatus)
    ensures
        status == 0,
        *final(_env) == *old(_env),
{
    0
}

/// What asking for a property's size does: for an implemented property
/// its size is stored at `out` and nothing else changes; for another one
/// the call fails and changes nothing.
pub open spec fn gets_property_size(
    old_env: Environment,
    new_env: Environment,
    prop: u32,
    out: u32,
    status: OSStatus,
) -> bool {
    &&& property_size(prop) is None ==> status == kAudioQueueErr_InvalidProperty && new_env == old_env
    &&& property_size(prop) is Some ==> {
        &&& status == 0
        &&& new_env@.mem == put_u32(old_env@.mem, out as int, property_size(prop).unwrap())
        &&& new_env@.mem.len() == old_env@.mem.len()
        &&& new_env@.queues == old_env@.queues
        &&& new_env@.run_loop_audio_queues == old_env@.run_loop_audio_queues
        &&& new_env@.main_run_loop == old_env@.main_run_loop
    }
}

/// `AudioQueueGetPropertySize`: stores the size of a property's value at
/// `out_property_data_size` (for any queue), or fails for a property that
/// is not implemented.
pub fn AudioQueueGetPropertySize(
    env: &mut Environment,
    _in_aq: u32,
    in_property_id: u32,
    out_property_data_size: u32,
) -> (status: OSStatus)
    requires
        property_size(in_property_id) is Some ==> mapped(old(env)@.mem, out_property_data_size as int, 4),
    ensures
        gets_property_size(*old(env), *final(env), in_property_id, out_property_data_size, status),
        queues_well_formed(*old(env)) ==> queues_well_formed(*final(env)),
{
    let size: u32 = if in_property_id == kAudioQueueProperty_IsRunning {
        4
    } else if in_property_id == kAudioQueueProperty_StreamDescription {
        ASBD_SIZE
    } else if in_property_id == kAudioQueueProperty_CurrentLevelMeter {
        LEVEL_METER_STATE_SIZE
    } else {
        return kAudioQueueErr_InvalidProperty;
    };
    env.mem.write_u32(out_property_data_size, size);
    assert(env@.queues == old(env)@.queues && env@.mem.len() == old(env)@.mem.len());
    0
}

/// `AudioQueueAddPropertyListener`: accepted and ignored.
pub fn AudioQueueAddPropertyListener(
    _env: &mut Environment,
    _in_aq: u32,
    _in_property_id: u32,
    _in_proc: u32,
    _in_user_data: u32,
) -> (status: OSStatus)
    ensures
        status == 0,
        *final(_env) == *old(_env),
{
    0
}

/// `AudioQueueRemovePropertyListener`: accepted and ignored.
pub fn AudioQueueRemovePropertyListener(
    _env: &mut Environment,
    _in_aq: u32,
    _in_property_id: u32,
    _in_proc: u32,
    _in_user_data: u32,
) -> (status: OSStatus)
    ensures
        status == 0,
        *final(_env) == *old(_env),
{
    0
}

/// `AudioQueueSetOfflineRenderFormat`: accepted and ignored.
pub fn AudioQueueSetOfflineRenderFormat(
    _env: &mut Environment,
    _in_aq: u32,
    _in_format: u32,
    _in_layout: u32,
) -> (status: OSStatus)
    ensures
        status == 0,
        *final(_env) == *old(_env),
{
    0
}

/// The samples that playing the buffer whose header is at `buffer` hands
/// to the audio backend: for linear PCM, the `audio_data_byte_size` bytes
/// of audio data as they are; nothing for a compressed format, which has no
/// decoder.
pub open spec fn decoded_samples(mem: Seq<u8>, format: AudioStreamBasicDescription, buffer: u32) -> Seq<u8> {
    if format.format_id == kAudioFormatLinearPCM {
        let b = buffer_at(mem, buffer as int);
        mem.subrange(b.audio_data as int, b.audio_data + b.audio_data_byte_size)
    } else {
        Seq::empty()
    }
}

/// Decodes the queue buffer whose header is at `buffer`, in the stream
/// format `format`, for playback (see [`decoded_samples`]).
pub fn decode_buffer(env: &Environment, format: &AudioStreamBasicDescription, buffer: u32) -> (samples: Vec<u8>)
    requires
        format.format_id == kAudioFormatLinearPCM ==> {
            &&& mapped(env@.mem, buffer as int, AUDIO_QUEUE_BUFFER_SIZE as int)
            &&& mapped(env@.mem, 
                buffer_at(env@.mem, buffer as int).audio_data as int,
                buffer_at(env@.mem, buffer as int).audio_data_byte_size as int,
            )
        },
    ensures
        samples@ == decoded_samples(env@.mem, *format, buffer),
{
    if format.format_id == kAudioFormatLinearPCM {
        let header = read_buffer(&env.mem, buffer);
        env.mem.read_bytes(header.audio_data, header.audio_data_byte_size)
    } else {
        Vec::new()
    }
}

/// Whether the `f64` with bits `bits` is `<= 0.0`: not a NaN, and negative
/// (sign bit set, which covers -0.0) or +0.0.
pub open spec fn f64_at_most_zero(bits: u64) -> bool {
    let exponent = (bits >> 52) & 0x7ff;
    let mantissa = bits & 0xf_ffff_ffff_ffff;
    let nan = exponent == 0x7ff && mantissa != 0;
    !nan && ((bits >> 63) == 1 || bits == 0)
}

/// Whether a stream description is broken: a sample rate that is not
/// positive, or no channels (such formats are reported).
pub open spec fn broken_format(format: AudioStreamBasicDescription) -> bool {
    f64_at_most_zero(format.sample_rate_bits) || format.channels_per_frame == 0
}

/// Whether a stream description should be reported as broken or
/// unsupported (see [`broken_format`]).
pub fn is_broken_audio_format(format: &AudioStreamBasicDescription) -> (broken: bool)
    ensures
        broken == broken_format(*format),
{
    let bits = format.sample_rate_bits;
    let exponent = (bits >> 52) & 0x7ff;
    let mantissa = bits & 0xf_ffff_ffff_ffff;
    let nan = exponent == 0x7ff && mantissa != 0;
    let at_most_zero = !nan && ((bits >> 63) == 1 || bits == 0);
    at_most_zero || format.channels_per_frame == 0
}

/// The host functions of the audio queue API, each standing for the
/// function `AudioQueue<variant>` of this module.
#[derive(Debug, Clone, Copy, PartialEq, Eq)]
pub enum AudioQueueFunction {
    NewOutput,
    NewInput,
    Start,
    Pause,
    Stop,
    Dispose,
    GetProperty,
    SetProperty,
    GetPropertySize,
    AllocateBuffer,
    AllocateBufferWithPacketDescriptions,
    EnqueueBuffer,
    EnqueueBufferWithParameters,
    GetParameter,
    SetParameter,
    AddPropertyListener,
    RemovePropertyListener,
    SetOfflineRenderFormat,
}

/// The C functions of the audio queue API that the framework exports, in
/// the order they are registered, each with the host function it is bound
/// to.
pub open spec fn exported_functions() -> Seq<(Seq<char>, AudioQueueFunction)> {
    seq![
        ("AudioQueueNewOutput"@, AudioQueueFunction::NewOutput),
        ("AudioQueueNewInput"@, AudioQueueFunction::NewInput),
        ("AudioQueueStart"@, AudioQueueFunction::Start),
        ("AudioQueuePause"@, AudioQueueFunction::Pause),
        ("AudioQueueStop"@, AudioQueueFunction::Stop),
        ("AudioQueueDispose"@, AudioQueueFunction::Dispose),
        ("AudioQueueGetProperty"@, AudioQueueFunction::GetProperty),
        ("AudioQueueSetProperty"@, AudioQueueFunction::SetProperty),
        ("AudioQueueGetPropertySize"@, AudioQueueFunction::GetPropertySize),
        ("AudioQueueAllocateBuffer"@, AudioQueueFunction::AllocateBuffer),
        ("AudioQueueAllocateBufferWithPacketDescriptions"@, AudioQueueFunction::AllocateBufferWithPacketDescriptions),
        ("AudioQueueEnqueueBuffer"@, AudioQueueFunction::EnqueueBuffer),
        ("AudioQueueEnqueueBufferWithParameters"@, AudioQueueFunction::EnqueueBufferWithParameters),
        ("AudioQueueGetParameter"@, AudioQueueFunction::GetParameter),
        ("AudioQueueSetParameter"@, AudioQueueFunction::SetParameter),
        ("AudioQueueAddPropertyListener"@, AudioQueueFunction::AddPropertyListener),
        ("AudioQueueRemovePropertyListener"@, AudioQueueFunction::RemovePropertyListener),
        ("AudioQueueSetOfflineRenderFormat"@, AudioQueueFunction::SetOfflineRenderFormat),
    ]
}

/// Registers the exported audio queue functions, each name bound to its
/// host function.
pub fn register_functions(exports: &mut Vec<(&'static str, AudioQueueFunction)>)
    ensures
        final(exports)@.map_values(|e: (&'static str, AudioQueueFunction)| (e.0@, e.1)) == old(exports)@.map_values(
            |e: (&'static str, AudioQueueFunction)| (e.0@, e.1),
        ) + exported_functions(),
{
    let ghost start = exports@;
    exports.push(("AudioQueueNewOutput", AudioQueueFunction::NewOutput));
    exports.push(("AudioQueueNewInput", AudioQueueFunction::NewInput));
    exports.push(("AudioQueueStart", AudioQueueFunction::Start));
    exports.push(("AudioQueuePause", AudioQueueFunction::Pause));
    exports.push(("AudioQueueStop", AudioQueueFunction::Stop));
    exports.push(("AudioQueueDispose", AudioQueueFunction::Dispose));
    exports.push(("AudioQueueGetProperty", AudioQueueFunction::GetProperty));
    exports.push(("AudioQueueSetProperty", AudioQueueFunction::SetProperty));
    exports.push(("AudioQueueGetPropertySize", AudioQueueFunction::GetPropertySize));
    exports.push(("AudioQueueAllocateBuffer", AudioQueueFunction::AllocateBuffer));
    exports.push(("AudioQueueAllocateBufferWithPacketDescriptions", AudioQueueFunction::AllocateBufferWithPacketDescriptions));
    exports.push(("AudioQueueEnqueueBuffer", AudioQueueFunction::EnqueueBuffer));
    exports.push(("AudioQueueEnqueueBufferWithParameters", AudioQueueFunction::EnqueueBufferWithParameters));
    exports.push(("AudioQueueGetParameter", AudioQueueFunction::GetParameter));
    exports.push(("AudioQueueSetParameter", AudioQueueFunction::SetParameter));
    exports.push(("AudioQueueAddPropertyListener", AudioQueueFunction::AddPropertyListener));
    exports.push(("AudioQueueRemovePropertyListener", AudioQueueFunction::RemovePropertyListener));
    exports.push(("AudioQueueSetOfflineRenderFormat", AudioQueueFunction::SetOfflineRenderFormat));
    assert(exports@.map_values(|e: (&'static str, AudioQueueFunction)| (e.0@, e.1)) =~= start.map_values(
        |e: (&'static str, AudioQueueFunction)| (e.0@, e.1),
    ) + exported_functions());
}

/// The running state that starting, pausing or stopping sets is what the
/// `IsRunning` property then reports: 1 after a start, 0 after a pause or
/// a stop.
pub proof fn lemma_running_state_reported(
    e0: Environment,
    e1: Environment,
    e2: Environment,
    aq: u32,
    r: AudioQueueIsRunning,
    out: u32,
    io_size: u32,
    set_status: OSStatus,
    get_status: OSStatus,
)
    requires
        sets_running(e0, e1, aq, set_status, r),
        set_status == 0,
        gets_property(e1, e2, aq, kAudioQueueProperty_IsRunning, out, io_size, get_status),
        mapped(e1@.mem, out as int, 4),
        mapped(e1@.mem, io_size as int, 4),
        io_size + 4 <= out || out + 4 <= io_size,
    ensures
        get_status == 0,
        le_u32(e2@.mem, out as int) == running_flag(r),
        le_u32(e2@.mem, io_size as int) == 4,
{
    let w = seq![running_flag(r)];
    assert(property_words(kAudioQueueProperty_IsRunning, e1@.queues[aq]) == w);
    lemma_put_words(e1@.mem, out as int, w);
    let m = put_words(e1@.mem, out as int, w);
    assert(le_u32(m, out as int + 4 * 0) == w[0]);
    crate::mem::lemma_put_u32_frame(m, io_size as int, 4, out as int);
    crate::mem::lemma_put_u32_get(m, io_size as int, 4);
}

/// The address of a new queue's guest object is stored at `out_aq`.
proof fn lemma_new_queue_address(mem: Seq<u8>, out_aq: u32)
    requires
        crate::mem::NULL_PAGE_SIZE <= out_aq,
        out_aq + 4 <= mem.len(),
        mem.len() + block_size(OPAQUE_AUDIO_QUEUE_SIZE as nat) <= u32::MAX,
    ensures
        le_u32(memory_after_new_queue(mem, out_aq), out_aq as int) == mem.len(),
        memory_after_new_queue(mem, out_aq).len() == mem.len() + block_size(OPAQUE_AUDIO_QUEUE_SIZE as nat),
{
    let aq = mem.len() as u32;
    let grown = mem + zeros(OPAQUE_AUDIO_QUEUE_SIZE as nat);
    let m1 = put_u32(grown, aq as int, 0);
    crate::mem::lemma_put_u32_get(grown, aq as int, 0);
    crate::mem::lemma_put_u32_get(m1, out_aq as int, aq);
}

/// A disposed queue is unknown afterwards: calls that need it fail with an
/// invalid-property error.
pub proof fn lemma_disposed_queue_unknown(e0: Environment, e1: Environment, aq: u32, status: OSStatus)
    requires
        disposes(e0, e1, aq, status),
        aq != 0,
    ensures
        queue_status(e1, aq) == kAudioQueueErr_InvalidProperty,
{
}

/// An allocated buffer is handed out by its header's address, and the
/// header there describes an empty buffer of the requested capacity whose
/// data lies just before it; the queue lists the buffer last.
pub proof fn lemma_allocated_buffer_header(
    e0: Environment,
    e1: Environment,
    aq: u32,
    size: u32,
    out: u32,
    status: OSStatus,
)
    requires
        allocates_buffer(e0, e1, aq, size, out, status),
        status == 0,
        mapped(e0@.mem, out as int, 4),
        e0@.mem.len() + block_size(size as nat) + block_size(AUDIO_QUEUE_BUFFER_SIZE as nat) <= u32::MAX,
    ensures
        le_u32(e1@.mem, out as int) == e0@.mem.len() + block_size(size as nat),
        buffer_at(e1@.mem, le_u32(e1@.mem, out as int) as int) == new_buffer(size, e0@.mem.len() as u32, 0, 0),
        e1@.queues[aq].buffers.last() == le_u32(e1@.mem, out as int),
{
    let data = e0@.mem.len();
    let header = data + block_size(size as nat);
    let grown = e0@.mem + zeros(size as nat) + zeros(AUDIO_QUEUE_BUFFER_SIZE as nat);
    let w = buffer_words(new_buffer(size, data as u32, 0, 0));
    assert(block_size(AUDIO_QUEUE_BUFFER_SIZE as nat) >= 28);
    lemma_put_words(grown, header as int, w);
    let m = put_words(grown, header as int, w);
    crate::mem::lemma_put_u32_get(m, out as int, header as u32);
    assert forall|i: int| 0 <= i < 7 implies #[trigger] le_u32(e1@.mem, header + 4 * i) == w[i] by {
        assert(le_u32(m, header + 4 * i) == w[i]);
        crate::mem::lemma_put_u32_frame(m, out as int, header as u32, header + 4 * i);
    }
    assert(words_at(e1@.mem, header as int, 7) =~= w);
}


/// A call of the audio queue API as the laws below see it: its arguments
/// (guest pointers as addresses, parameter values as bits) and the status
/// it returned. `NewQueue` stands for `AudioQueueNewOutput` and
/// `AudioQueueNewInput`, `SetRunning` for `AudioQueueStart`, `Pause` and
/// `Stop`, `Ignored` for the calls that change nothing.
pub enum QueueCall {
    NewQueue { format: u32, callback_proc: u32, user_data: u32, run_loop: u32, out_aq: u32, is_input: bool },
    AllocateBuffer { aq: u32, size: u32, out: u32, status: OSStatus },
    AllocateBufferWithPacketDescriptions {
        aq: u32,
        size: u32,
        descriptions: u32,
        out: u32,
        status: OSStatus,
    },
    EnqueueBuffer { aq: u32, buffer: u32, count: u32, status: OSStatus },
    SetRunning { aq: u32, running: AudioQueueIsRunning, status: OSStatus },
    Dispose { aq: u32, status: OSStatus },
    GetParameter { aq: u32, param: u32, out: u32, status: OSStatus },
    SetParameter { aq: u32, param: u32, value: u32, status: OSStatus },
    GetProperty { aq: u32, prop: u32, out: u32, io_size: u32, status: OSStatus },
    GetPropertySize { prop: u32, out: u32, status: OSStatus },
    Ignored,
}

/// Whether `call` took the environment from `e0` to `e1`, by the contract
/// of the function it stands for.
pub open spec fn performs(e0: Environment, e1: Environment, call: QueueCall) -> bool {
    match call {
        QueueCall::NewQueue { format, callback_proc, user_data, run_loop, out_aq, is_input } => creates_queue(
            e0,
            e1,
            format,
            callback_proc,
            user_data,
            run_loop,
            out_aq,
            is_input,
        ),
        QueueCall::AllocateBuffer { aq, size, out, status } => allocates_buffer(e0, e1, aq, size, out, status),
        QueueCall::AllocateBufferWithPacketDescriptions { aq, size, descriptions, out, status } =>
            allocates_buffer_with_descriptions(e0, e1, aq, size, descriptions, out, status),
        QueueCall::EnqueueBuffer { aq, buffer, count, status } => enqueues(e0, e1, aq, buffer, count, status),
        QueueCall::SetRunning { aq, running, status } => sets_running(e0, e1, aq, status, running),
        QueueCall::Dispose { aq, status } => disposes(e0, e1, aq, status),
        QueueCall::GetParameter { aq, param, out, status } => gets_parameter(e0, e1, aq, param, out, status),
        QueueCall::SetParameter { aq, param, value, status } => sets_parameter(e0, e1, aq, param, value, status),
        QueueCall::GetProperty { aq, prop, out, io_size, status } => gets_property(
            e0,
            e1,
            aq,
            prop,
            out,
            io_size,
            status,
        ),
        QueueCall::GetPropertySize { prop, out, status } => gets_property_size(e0, e1, prop, out, status),
        QueueCall::Ignored => e1 == e0,
    }
}

/// Whether `calls` took the environment through `envs`, one call after the
/// other.
pub open spec fn runs(envs: Seq<Environment>, calls: Seq<QueueCall>) -> bool {
    &&& envs.len() == calls.len() + 1
    &&& forall|i: int|
        #![trigger calls[i]]
        0 <= i < calls.len() ==> performs(envs[i], envs[i + 1], calls[i])
}

/// Whether `call` disposes of the queue `aq`.
pub open spec fn disposes_of(call: QueueCall, aq: u32) -> bool {
    call matches QueueCall::Dispose { aq: a, .. } && a == aq
}

/// Whether `call` sets the parameter `param` of the queue `aq`.
pub open spec fn sets_parameter_of(call: QueueCall, aq: u32, param: u32) -> bool {
    call matches QueueCall::SetParameter { aq: a, param: p, .. } && a == aq && p == param
}

/// One call keeps a queue that it does not dispose of, with its stream
/// description, and each parameter that it does not set.
proof fn lemma_call_keeps_queue(e0: Environment, e1: Environment, call: QueueCall, aq: u32)
    requires
        performs(e0, e1, call),
        e0@.queues.contains_key(aq),
        !disposes_of(call, aq),
    ensures
        e1@.queues.contains_key(aq),
        e1@.queues[aq].format == e0@.queues[aq].format,
        forall|p: u32|
            known_parameter(p) && !sets_parameter_of(call, aq, p) ==> #[trigger] parameter_value(
                e1@.queues[aq],
                p,
            ) == parameter_value(e0@.queues[aq], p),
{
}

/// Every call keeps the queues well formed.
pub proof fn lemma_call_keeps_well_formed(e0: Environment, e1: Environment, call: QueueCall)
    requires
        performs(e0, e1, call),
        queues_well_formed(e0),
        e1@.mem.len() <= u32::MAX,
    ensures
        queues_well_formed(e1),
{
    match call {
        QueueCall::NewQueue { .. } => { assert(e0@.mem.len() <= e1@.mem.len()); },
        QueueCall::AllocateBuffer { .. } => { assert(e0@.mem.len() <= e1@.mem.len()); },
        QueueCall::AllocateBufferWithPacketDescriptions { .. } => { assert(e0@.mem.len() <= e1@.mem.len()); },
        QueueCall::EnqueueBuffer { .. } => { assert(e0@.mem.len() <= e1@.mem.len()); },
        QueueCall::SetRunning { .. } => { assert(e0@.mem.len() <= e1@.mem.len()); },
        QueueCall::Dispose { .. } => { assert(e0@.mem.len() <= e1@.mem.len()); },
        QueueCall::GetParameter { .. } => { assert(e0@.mem.len() <= e1@.mem.len()); },
        QueueCall::SetParameter { .. } => { assert(e0@.mem.len() <= e1@.mem.len()); },
        QueueCall::GetProperty { .. } => { assert(e0@.mem.len() <= e1@.mem.len()); },
        QueueCall::GetPropertySize { prop, out, status } => {
            if property_size(prop) is None {
                assert(e1 == e0);
            }
            assert(e0@.mem.len() <= e1@.mem.len());
        },
        QueueCall::Ignored => { assert(e0@.mem.len() <= e1@.mem.len()); },
    }
    assert(e0@.mem.len() <= e1@.mem.len());
    assert forall|k: u32| #[trigger] e1@.queues.contains_key(k) implies
        crate::mem::NULL_PAGE_SIZE <= k < e1@.mem.len() by {
        match call {
            QueueCall::NewQueue { .. } => {
                if k != e0@.mem.len() as u32 {
                    assert(e0@.queues.contains_key(k));
                }
            },
            QueueCall::GetPropertySize { prop, .. } => {
                if property_size(prop) is None {
                    assert(e1 == e0);
                }
            },
            _ => {
                assert(e0@.queues.contains_key(k));
            },
        }
    }
}

/// However many calls are made, the queues stay well formed.
pub proof fn lemma_calls_keep_well_formed(envs: Seq<Environment>, calls: Seq<QueueCall>)
    requires
        runs(envs, calls),
        queues_well_formed(envs[0]),
        forall|i: int| 0 <= i < envs.len() ==> (#[trigger] envs[i])@.mem.len() <= u32::MAX,
    ensures
        queues_well_formed(envs.last()),
{
    lemma_well_formed_until(envs, calls, calls.len() as int);
}

proof fn lemma_well_formed_until(envs: Seq<Environment>, calls: Seq<QueueCall>, k: int)
    requires
        runs(envs, calls),
        queues_well_formed(envs[0]),
        forall|i: int| 0 <= i < envs.len() ==> (#[trigger] envs[i])@.mem.len() <= u32::MAX,
        0 <= k <= calls.len(),
    ensures
        queues_well_formed(envs[k]),
    decreases k,
{
    if k > 0 {
        lemma_well_formed_until(envs, calls, k - 1);
        assert(performs(envs[k - 1], envs[k], calls[k - 1]));
        lemma_call_keeps_well_formed(envs[k - 1], envs[k], calls[k - 1]);
    }
}

proof fn lemma_queue_kept_until(envs: Seq<Environment>, calls: Seq<QueueCall>, aq: u32, j: int, k: int)
    requires
        runs(envs, calls),
        0 <= j <= k <= calls.len(),
        envs[j]@.queues.contains_key(aq),
        forall|i: int| j <= i < calls.len() ==> !disposes_of(#[trigger] calls[i], aq),
    ensures
        envs[k]@.queues.contains_key(aq),
        envs[k]@.queues[aq].format == envs[j]@.queues[aq].format,
    decreases k,
{
    if k > j {
        lemma_queue_kept_until(envs, calls, aq, j, k - 1);
        assert(performs(envs[k - 1], envs[k], calls[k - 1]));
        lemma_call_keeps_queue(envs[k - 1], envs[k], calls[k - 1], aq);
    }
}

proof fn lemma_parameter_kept_until(
    envs: Seq<Environment>,
    calls: Seq<QueueCall>,
    aq: u32,
    param: u32,
    j: int,
    k: int,
)
    requires
        runs(envs, calls),
        0 <= j <= k <= calls.len(),
        envs[j]@.queues.contains_key(aq),
        known_parameter(param),
        forall|i: int|
            j <= i < calls.len() ==> !disposes_of(#[trigger] calls[i], aq) && !sets_parameter_of(
                calls[i],
                aq,
                param,
            ),
    ensures
        envs[k]@.queues.contains_key(aq),
        parameter_value(envs[k]@.queues[aq], param) == parameter_value(
            envs[j]@.queues[aq],
            param,
        ),
    decreases k,
{
    if k > j {
        lemma_parameter_kept_until(envs, calls, aq, param, j, k - 1);
        assert(performs(envs[k - 1], envs[k], calls[k - 1]));
        assert(!disposes_of(calls[k - 1], aq) && !sets_parameter_of(calls[k - 1], aq, param));
        lemma_call_keeps_queue(envs[k - 1], envs[k], calls[k - 1], aq);
    }
}

/// A queue stays, with the stream description it was created with,
/// through any calls that do not dispose of it.
pub proof fn lemma_queue_outlives_calls(envs: Seq<Environment>, calls: Seq<QueueCall>, aq: u32)
    requires
        runs(envs, calls),
        envs[0]@.queues.contains_key(aq),
        forall|i: int| 0 <= i < calls.len() ==> !disposes_of(#[trigger] calls[i], aq),
    ensures
        envs.last()@.queues.contains_key(aq),
        envs.last()@.queues[aq].format == envs[0]@.queues[aq].format,
{
    lemma_queue_kept_until(envs, calls, aq, 0, calls.len() as int);
}

/// A queue's volume (or pan) stays through any calls that neither dispose
/// of the queue nor set that parameter.
pub proof fn lemma_parameter_outlives_calls(envs: Seq<Environment>, calls: Seq<QueueCall>, aq: u32, param: u32)
    requires
        runs(envs, calls),
        envs[0]@.queues.contains_key(aq),
        known_parameter(param),
        forall|i: int|
            0 <= i < calls.len() ==> !disposes_of(#[trigger] calls[i], aq) && !sets_parameter_of(
                calls[i],
                aq,
                param,
            ),
    ensures
        envs.last()@.queues.contains_key(aq),
        parameter_value(envs.last()@.queues[aq], param) == parameter_value(
            envs[0]@.queues[aq],
            param,
        ),
{
    lemma_parameter_kept_until(envs, calls, aq, param, 0, calls.len() as int);
}


/// Reading a parameter gives back what setting it stored: after the volume
/// (or pan) of a queue is set to some bits, reading it stores those bits,
/// whatever calls come between that neither dispose of the queue nor set
/// that parameter again.
pub proof fn lemma_set_then_get_parameter(
    envs: Seq<Environment>,
    calls: Seq<QueueCall>,
    e_end: Environment,
    aq: u32,
    param: u32,
    value: u32,
    out: u32,
    status: OSStatus,
)
    requires
        runs(envs, calls),
        calls.len() >= 1,
        calls[0] == (QueueCall::SetParameter { aq, param, value, status: 0 }),
        forall|i: int|
            1 <= i < calls.len() ==> !disposes_of(#[trigger] calls[i], aq) && !sets_parameter_of(
                calls[i],
                aq,
                param,
            ),
        gets_parameter(envs.last(), e_end, aq, param, out, status),
        mapped(envs.last()@.mem, out as int, 4),
    ensures
        status == 0,
        le_u32(e_end@.mem, out as int) == value,
{
    assert(performs(envs[0], envs[1], calls[0]));
    lemma_parameter_kept_until(envs, calls, aq, param, 1, calls.len() as int);
    crate::mem::lemma_put_u32_get(envs.last()@.mem, out as int, value);
}

/// The address of a new queue: where its guest object was allocated, and
/// what was stored at `out_aq`.
proof fn lemma_new_queue_key(
    e0: Environment,
    e1: Environment,
    format: u32,
    callback_proc: u32,
    user_data: u32,
    run_loop: u32,
    out_aq: u32,
    is_input: bool,
)
    requires
        creates_queue(e0, e1, format, callback_proc, user_data, run_loop, out_aq, is_input),
        mapped(e0@.mem, out_aq as int, 4),
        e0@.mem.len() + block_size(OPAQUE_AUDIO_QUEUE_SIZE as nat) <= u32::MAX,
    ensures
        le_u32(e1@.mem, out_aq as int) == e0@.mem.len(),
        crate::mem::NULL_PAGE_SIZE <= e0@.mem.len(),
        e1@.queues.contains_key(e0@.mem.len() as u32),
        e1@.queues[e0@.mem.len() as u32] == new_host_object(
            asbd_at(e0@.mem, format as int),
            callback_proc,
            user_data,
            callback_run_loop(e0, run_loop),
            is_input,
        ),
{
    lemma_new_queue_address(e0@.mem, out_aq);
}

/// A new queue is known by the address stored at `out_aq`, and as long as
/// it is not disposed of, its `StreamDescription` property gives back the
/// stream description it was created with, whatever calls come between.
pub proof fn lemma_new_queue_reports_format(
    envs: Seq<Environment>,
    calls: Seq<QueueCall>,
    e_end: Environment,
    format: u32,
    callback_proc: u32,
    user_data: u32,
    run_loop: u32,
    out_aq: u32,
    is_input: bool,
    out: u32,
    io_size: u32,
    status: OSStatus,
)
    requires
        runs(envs, calls),
        calls.len() >= 1,
        calls[0] == (QueueCall::NewQueue { format, callback_proc, user_data, run_loop, out_aq, is_input }),
        mapped(envs[0]@.mem, out_aq as int, 4),
        envs[0]@.mem.len() + block_size(OPAQUE_AUDIO_QUEUE_SIZE as nat) <= u32::MAX,
        forall|i: int|
            1 <= i < calls.len() ==> !disposes_of(#[trigger] calls[i], le_u32(envs[1]@.mem, out_aq as int)),
        gets_property(
            envs.last(),
            e_end,
            le_u32(envs[1]@.mem, out_aq as int),
            kAudioQueueProperty_StreamDescription,
            out,
            io_size,
            status,
        ),
        mapped(envs.last()@.mem, out as int, ASBD_SIZE as int),
        mapped(envs.last()@.mem, io_size as int, 4),
        io_size + 4 <= out || out + ASBD_SIZE <= io_size,
    ensures
        le_u32(envs[1]@.mem, out_aq as int) == envs[0]@.mem.len(),
        status == 0,
        asbd_at(e_end@.mem, out as int) == asbd_at(envs[0]@.mem, format as int),
{
    assert(performs(envs[0], envs[1], calls[0]));
    lemma_new_queue_key(envs[0], envs[1], format, callback_proc, user_data, run_loop, out_aq, is_input);
    let aq = envs[0]@.mem.len() as u32;
    lemma_queue_kept_until(envs, calls, aq, 1, calls.len() as int);
    let last = envs.last();
    let f = asbd_at(envs[0]@.mem, format as int);
    assert(last@.queues[aq].format == f);
    let w = asbd_words(f);
    assert(property_words(kAudioQueueProperty_StreamDescription, last@.queues[aq]) == w);
    crate::mem::lemma_words_then_word(last@.mem, out as int, w, io_size as int, ASBD_SIZE);
    assert(words_at(e_end@.mem, out as int, 10) == w);
    lemma_asbd_words(f);
}

/// A new queue plays at full volume and centred: until the parameter is
/// set (or the queue disposed of), reading the volume stores the bits of
/// 1.0 and reading the pan stores those of 0.0.
pub proof fn lemma_new_queue_parameters(
    envs: Seq<Environment>,
    calls: Seq<QueueCall>,
    e_end: Environment,
    format: u32,
    callback_proc: u32,
    user_data: u32,
    run_loop: u32,
    out_aq: u32,
    is_input: bool,
    param: u32,
    out: u32,
    status: OSStatus,
)
    requires
        runs(envs, calls),
        calls.len() >= 1,
        calls[0] == (QueueCall::NewQueue { format, callback_proc, user_data, run_loop, out_aq, is_input }),
        mapped(envs[0]@.mem, out_aq as int, 4),
        envs[0]@.mem.len() + block_size(OPAQUE_AUDIO_QUEUE_SIZE as nat) <= u32::MAX,
        known_parameter(param),
        forall|i: int|
            1 <= i < calls.len() ==> !disposes_of(#[trigger] calls[i], le_u32(envs[1]@.mem, out_aq as int))
                && !sets_parameter_of(calls[i], le_u32(envs[1]@.mem, out_aq as int), param),
        gets_parameter(envs.last(), e_end, le_u32(envs[1]@.mem, out_aq as int), param, out, status),
        mapped(envs.last()@.mem, out as int, 4),
    ensures
        status == 0,
        le_u32(e_end@.mem, out as int) == (if param == kAudioQueueParam_Volume {
            VOLUME_FULL_BITS
        } else {
            0
        }),
{
    assert(performs(envs[0], envs[1], calls[0]));
    lemma_new_queue_key(envs[0], envs[1], format, callback_proc, user_data, run_loop, out_aq, is_input);
    let aq = envs[0]@.mem.len() as u32;
    lemma_parameter_kept_until(envs, calls, aq, param, 1, calls.len() as int);
    let v = parameter_value(envs[1]@.queues[aq], param);
    crate::mem::lemma_put_u32_get(envs.last()@.mem, out as int, v);
}

/// Two queues created one after the other are known by different
/// addresses; the second creation keeps every queue that existed, the
/// first one included, as it was.
pub proof fn lemma_successive_queues_distinct(
    e0: Environment,
    e1: Environment,
    e2: Environment,
    format1: u32,
    callback_proc1: u32,
    user_data1: u32,
    run_loop1: u32,
    out_aq1: u32,
    is_input1: bool,
    format2: u32,
    callback_proc2: u32,
    user_data2: u32,
    run_loop2: u32,
    out_aq2: u32,
    is_input2: bool,
)
    requires
        creates_queue(e0, e1, format1, callback_proc1, user_data1, run_loop1, out_aq1, is_input1),
        creates_queue(e1, e2, format2, callback_proc2, user_data2, run_loop2, out_aq2, is_input2),
        mapped(e0@.mem, out_aq1 as int, 4),
        mapped(e1@.mem, out_aq2 as int, 4),
        e1@.mem.len() + block_size(OPAQUE_AUDIO_QUEUE_SIZE as nat) <= u32::MAX,
    ensures
        le_u32(e1@.mem, out_aq1 as int) != le_u32(e2@.mem, out_aq2 as int),
        e2@.queues.contains_key(le_u32(e1@.mem, out_aq1 as int)),
        e2@.queues.contains_key(le_u32(e2@.mem, out_aq2 as int)),
        forall|aq: u32|
            #[trigger] e1@.queues.contains_key(aq) ==> e2@.queues.contains_key(aq) && e2@.queues[aq]
                == e1@.queues[aq],
{
    lemma_new_queue_key(e0, e1, format1, callback_proc1, user_data1, run_loop1, out_aq1, is_input1);
    lemma_new_queue_key(e1, e2, format2, callback_proc2, user_data2, run_loop2, out_aq2, is_input2);
}

/// Creating an input queue does what creating an output queue with the
/// same arguments does, but for the queue's input flag.
pub proof fn lemma_input_queue_like_output(
    e0: Environment,
    e_out: Environment,
    e_in: Environment,
    format: u32,
    callback_proc: u32,
    user_data: u32,
    run_loop: u32,
    out_aq: u32,
)
    requires
        creates_queue(e0, e_out, format, callback_proc, user_data, run_loop, out_aq, false),
        creates_queue(e0, e_in, format, callback_proc, user_data, run_loop, out_aq, true),
    ensures
        e_in@.mem == e_out@.mem,
        e_in@.run_loop_audio_queues == e_out@.run_loop_audio_queues,
        e_in@.main_run_loop == e_out@.main_run_loop,
        e_in@.queues == e_out@.queues.insert(
            e0@.mem.len() as u32,
            HostObjectView { is_input: true, ..e_out@.queues[e0@.mem.len() as u32] },
        ),
        !e_out@.queues[e0@.mem.len() as u32].is_input,
{
    let aq = e0@.mem.len() as u32;
    assert(e_in@.queues =~= e_out@.queues.insert(
        aq,
        HostObjectView { is_input: true, ..e_out@.queues[aq] },
    ));
}

/// The size that reading a property stores is the size that
/// `AudioQueueGetPropertySize` gives for it.
pub proof fn lemma_property_sizes_agree(
    e0: Environment,
    e1: Environment,
    e2: Environment,
    e3: Environment,
    aq: u32,
    prop: u32,
    out: u32,
    io_size: u32,
    get_status: OSStatus,
    size_out: u32,
    size_status: OSStatus,
)
    requires
        gets_property(e0, e1, aq, prop, out, io_size, get_status),
        get_status == 0,
        mapped(e0@.mem, out as int, property_size(prop).unwrap() as int),
        mapped(e0@.mem, io_size as int, 4),
        gets_property_size(e2, e3, prop, size_out, size_status),
        mapped(e2@.mem, size_out as int, 4),
    ensures
        size_status == 0,
        le_u32(e3@.mem, size_out as int) == le_u32(e1@.mem, io_size as int),
{
    let w = property_words(prop, e0@.queues[aq]);
    assert(4 * w.len() == property_size(prop).unwrap());
    crate::mem::lemma_put_words(e0@.mem, out as int, w);
    crate::mem::lemma_put_u32_get(put_words(e0@.mem, out as int, w), io_size as int, property_size(prop).unwrap());
    crate::mem::lemma_put_u32_get(e2@.mem, size_out as int, property_size(prop).unwrap());
}


/// For a live queue, reading a property fails exactly when asking for its
/// size does, and with the same error: both go by the same table of
/// implemented properties.
pub proof fn lemma_property_errors_agree(
    e0: Environment,
    e1: Environment,
    e2: Environment,
    e3: Environment,
    aq: u32,
    prop: u32,
    out: u32,
    io_size: u32,
    get_status: OSStatus,
    size_out: u32,
    size_status: OSStatus,
)
    requires
        queue_status(e0, aq) == 0,
        gets_property(e0, e1, aq, prop, out, io_size, get_status),
        gets_property_size(e2, e3, prop, size_out, size_status),
    ensures
        get_status == size_status,
        get_status == 0 || get_status == kAudioQueueErr_InvalidProperty,
{
}


/// A new queue records what it was created with: it is known by the
/// address where its guest object was allocated, it holds the stream
/// description read at `format`, the callback procedure and the user data
/// each in its own field, the run loop (the main one for null) and the
/// input flag; it starts stopped, at full volume, centred, with no buffers;
/// and it is attached to its run loop after the queues attached before.
pub proof fn lemma_new_queue_records_arguments(
    e0: Environment,
    e1: Environment,
    format: u32,
    callback_proc: u32,
    user_data: u32,
    run_loop: u32,
    out_aq: u32,
    is_input: bool,
)
    requires
        creates_queue(e0, e1, format, callback_proc, user_data, run_loop, out_aq, is_input),
    ensures
        ({
            let aq = e0@.mem.len() as u32;
            let h = e1@.queues[aq];
            let rl = if run_loop == 0 { e0@.main_run_loop } else { run_loop };
            &&& !e0@.queues.contains_key(aq)
            &&& e1@.queues.contains_key(aq)
            &&& h.format == asbd_at(e0@.mem, format as int)
            &&& h.callback_proc == callback_proc
            &&& h.callback_user_data == user_data
            &&& h.run_loop == rl
            &&& h.is_input == is_input
            &&& h.is_running == AudioQueueIsRunning::Stopped
            &&& h.volume == VOLUME_FULL_BITS
            &&& h.pan == 0
            &&& h.buffers.len() == 0
            &&& h.buffer_queue.len() == 0
            &&& e1@.run_loop_audio_queues == e0@.run_loop_audio_queues.push((rl, aq))
            &&& forall|k: u32|
                k != aq ==> (#[trigger] e1@.queues.contains_key(k) == e0@.queues.contains_key(k))
                    && e1@.queues[k] == e0@.queues[k]
        }),
{
}

/// Buffers play in the order they were enqueued: a successful enqueue puts
/// the buffer behind those already waiting, which stay in their order; the
/// queue is otherwise unchanged, and so are the other queues.
pub proof fn lemma_enqueue_appends(
    e0: Environment,
    e1: Environment,
    aq: u32,
    buffer: u32,
    count: u32,
)
    requires
        enqueues(e0, e1, aq, buffer, count, 0),
    ensures
        e1@.queues.contains_key(aq),
        e1@.queues[aq].buffer_queue.len() == e0@.queues[aq].buffer_queue.len() + 1,
        e1@.queues[aq].buffer_queue.last() == buffer,
        forall|i: int|
            0 <= i < e0@.queues[aq].buffer_queue.len() ==> #[trigger] e1@.queues[aq].buffer_queue[i]
                == e0@.queues[aq].buffer_queue[i],
        e1@.queues[aq] == (HostObjectView {
            buffer_queue: e1@.queues[aq].buffer_queue,
            ..e0@.queues[aq]
        }),
        forall|k: u32|
            k != aq ==> (#[trigger] e1@.queues.contains_key(k) == e0@.queues.contains_key(k))
                && e1@.queues[k] == e0@.queues[k],
{
}


/// What the `IsRunning` and `CurrentLevelMeter` properties read: 1 while
/// the queue is running or still stopping and 0 once it is stopped, with
/// the size 4; a fixed meter reading of 0.6 average and 0.85 peak power,
/// with the size 8.
pub proof fn lemma_property_values(
    e0: Environment,
    e1: Environment,
    aq: u32,
    prop: u32,
    out: u32,
    io_size: u32,
    status: OSStatus,
)
    requires
        e0@.queues.contains_key(aq),
        aq != 0,
        prop == kAudioQueueProperty_IsRunning || prop == kAudioQueueProperty_CurrentLevelMeter,
        gets_property(e0, e1, aq, prop, out, io_size, status),
        mapped(e0@.mem, out as int, 8),
        mapped(e0@.mem, io_size as int, 4),
        io_size + 4 <= out || out + 8 <= io_size,
    ensures
        status == 0,
        prop == kAudioQueueProperty_IsRunning ==> {
            &&& le_u32(e1@.mem, out as int) == (if e0@.queues[aq].is_running == AudioQueueIsRunning::Stopped {
                0u32
            } else {
                1u32
            })
            &&& le_u32(e1@.mem, io_size as int) == 4
        },
        prop == kAudioQueueProperty_CurrentLevelMeter ==> {
            &&& le_u32(e1@.mem, out as int) == 0x3f19999a
            &&& le_u32(e1@.mem, out + 4) == 0x3f59999a
            &&& le_u32(e1@.mem, io_size as int) == 8
        },
{
    let w = property_words(prop, e0@.queues[aq]);
    crate::mem::lemma_words_then_word(e0@.mem, out as int, w, io_size as int, property_size(prop).unwrap());
    let m = put_u32(put_words(e0@.mem, out as int, w), io_size as int, property_size(prop).unwrap());
    assert(words_at(m, out as int, w.len())[0] == w[0]);
    if prop == kAudioQueueProperty_CurrentLevelMeter {
        assert(words_at(m, out as int, w.len())[1] == w[1]);
        assert(out + 4 * 1 == out + 4);
    }
}

/// Decoding linear PCM hands over the buffer's audio data as it is: as
/// many bytes as the header says it holds, each the byte at the same
/// offset from the header's data address; any other format gives nothing.
pub proof fn lemma_decoded_samples(mem: Seq<u8>, format: AudioStreamBasicDescription, buffer: u32)
    requires
        format.format_id == kAudioFormatLinearPCM ==> mapped(
            mem,
            buffer_at(mem, buffer as int).audio_data as int,
            buffer_at(mem, buffer as int).audio_data_byte_size as int,
        ),
    ensures
        format.format_id == kAudioFormatLinearPCM ==> {
            &&& decoded_samples(mem, format, buffer).len() == le_u32(mem, buffer + 8)
            &&& forall|i: int|
                0 <= i < le_u32(mem, buffer + 8) ==> #[trigger] decoded_samples(mem, format, buffer)[i]
                    == mem[le_u32(mem, buffer + 4) + i]
        },
        format.format_id != kAudioFormatLinearPCM ==> decoded_samples(mem, format, buffer).len() == 0,
{
    assert(buffer as int + 4 * 1 == buffer + 4);
    assert(buffer as int + 4 * 2 == buffer + 8);
}

} // verus!
