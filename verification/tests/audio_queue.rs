use lib::environment::Environment;
use lib::frameworks::audio_toolbox::audio_queue::{
    decode_buffer, is_broken_audio_format, kAudioFormatLinearPCM, AudioQueueFunction, kAudioQueueErr_InvalidProperty, kAudioQueueParam_Pan,
    kAudioQueueParam_Volume, kAudioQueueProperty_CurrentLevelMeter, kAudioQueueProperty_HardwareCodecPolicy,
    kAudioQueueProperty_IsRunning, kAudioQueueProperty_MagicCookie, kAudioQueueProperty_StreamDescription,
    register_functions, AudioQueueAddPropertyListener, AudioQueueAllocateBuffer,
    AudioQueueAllocateBufferWithPacketDescriptions, AudioQueueDispose, AudioQueueEnqueueBuffer,
    AudioQueueEnqueueBufferWithParameters, AudioQueueGetParameter, AudioQueueGetProperty,
    AudioQueueGetPropertySize, AudioQueueNewInput, AudioQueueNewOutput, AudioQueuePause,
    AudioQueueRemovePropertyListener, AudioQueueSetOfflineRenderFormat, AudioQueueSetParameter,
    AudioQueueSetProperty, AudioQueueStart, AudioQueueStop, AudioStreamBasicDescription, ASBD_SIZE,
};
use lib::frameworks::audio_toolbox::paramErr;
use std::collections::VecDeque;

const MAIN_RUN_LOOP: u32 = 0x7777;

fn asbd(sample_rate: f64, channels: u32) -> AudioStreamBasicDescription {
    AudioStreamBasicDescription {
        sample_rate_bits: sample_rate.to_bits(),
        format_id: u32::from_be_bytes(*b"lpcm"),
        format_flags: 12,
        bytes_per_packet: 4,
        frames_per_packet: 1,
        bytes_per_frame: 4,
        channels_per_frame: channels,
        bits_per_channel: 16,
        reserved: 0,
    }
}

fn store_asbd(env: &mut Environment, f: &AudioStreamBasicDescription) -> u32 {
    let addr = env.allocate(ASBD_SIZE);
    let words = [
        f.sample_rate_bits as u32,
        (f.sample_rate_bits >> 32) as u32,
        f.format_id,
        f.format_flags,
        f.bytes_per_packet,
        f.frames_per_packet,
        f.bytes_per_frame,
        f.channels_per_frame,
        f.bits_per_channel,
        f.reserved,
    ];
    env.write_words(addr, &words);
    addr
}

fn load_asbd(env: &Environment, addr: u32) -> AudioStreamBasicDescription {
    let w = env.mem().read_words(addr, 10);
    AudioStreamBasicDescription {
        sample_rate_bits: w[0] as u64 | ((w[1] as u64) << 32),
        format_id: w[2],
        format_flags: w[3],
        bytes_per_packet: w[4],
        frames_per_packet: w[5],
        bytes_per_frame: w[6],
        channels_per_frame: w[7],
        bits_per_channel: w[8],
        reserved: w[9],
    }
}

/// An environment with one output queue; returns it and the queue.
fn with_queue(run_loop: u32) -> (Environment, u32) {
    let mut env = Environment::new(MAIN_RUN_LOOP);
    let fmt = store_asbd(&mut env, &asbd(44100.0, 2));
    let out_aq = env.allocate(4);
    let status = AudioQueueNewOutput(&mut env, fmt, 0x4001, 0x5000, run_loop, 0, 0, out_aq);
    assert_eq!(status, 0);
    let aq = env.mem().read_u32(out_aq);
    (env, aq)
}

fn is_running(env: &mut Environment, aq: u32) -> u32 {
    let out = env.allocate(4);
    let size = env.allocate(4);
    assert_eq!(AudioQueueGetProperty(env, aq, kAudioQueueProperty_IsRunning, out, size), 0);
    assert_eq!(env.mem().read_u32(size), 4);
    env.mem().read_u32(out)
}

#[test]
fn guest_memory_reads_back_writes() {
    let mut env = Environment::new(MAIN_RUN_LOOP);
    assert_eq!(env.mem().len(), 4096);
    let a = env.allocate(5);
    assert_eq!(a, 4096);
    assert_eq!(env.mem().len(), 4096 + 16);
    let b = env.allocate(0);
    assert_eq!(b, 4096 + 16);
    assert_eq!(env.mem().read_u32(a), 0);
    env.write_u32(a, 0xdead_beef);
    env.write_u32(a + 4, 7);
    assert_eq!(env.mem().read_u32(a), 0xdead_beef);
    assert_eq!(env.mem().read_u32(a + 4), 7);
    assert_eq!(env.mem().read_u32(a + 1), 0x07de_adbe);
    env.write_words(b, &[1, 2, 3]);
    assert_eq!(env.mem().read_words(b, 3), vec![1, 2, 3]);
}

#[test]
fn new_output_queue() {
    let (mut env, aq) = with_queue(0);
    assert_eq!(aq, 4096 + 48 + 16);
    assert_eq!(*env.run_loop_audio_queues(), vec![(MAIN_RUN_LOOP, aq)]);
    assert_eq!(env.mem().read_u32(aq), 0);
    assert_eq!(is_running(&mut env, aq), 0);
    let (env, aq) = with_queue(0x9999);
    assert_eq!(*env.run_loop_audio_queues(), vec![(0x9999, aq)]);
}

#[test]
fn new_input_queue_records_its_format() {
    let mut env = Environment::new(MAIN_RUN_LOOP);
    let f = asbd(8000.0, 1);
    let fmt = store_asbd(&mut env, &f);
    let out_aq = env.allocate(4);
    assert_eq!(AudioQueueNewInput(&mut env, fmt, 1, 2, 0, 0, 3, out_aq), 0);
    let aq = env.mem().read_u32(out_aq);
    let out = env.allocate(ASBD_SIZE);
    let size = env.allocate(4);
    assert_eq!(AudioQueueGetProperty(&mut env, aq, kAudioQueueProperty_StreamDescription, out, size), 0);
    assert_eq!(load_asbd(&env, out), f);
    assert_eq!(env.mem().read_u32(size), 40);
}

#[test]
fn start_pause_stop_and_is_running() {
    let (mut env, aq) = with_queue(0);
    assert_eq!(AudioQueueStart(&mut env, aq, 0), 0);
    assert_eq!(is_running(&mut env, aq), 1);
    assert_eq!(AudioQueuePause(&mut env, aq), 0);
    assert_eq!(is_running(&mut env, aq), 0);
    assert_eq!(AudioQueueStart(&mut env, aq, 0), 0);
    assert_eq!(AudioQueueStop(&mut env, aq, 1), 0);
    assert_eq!(is_running(&mut env, aq), 0);
    assert_eq!(AudioQueueStart(&mut env, 0, 0), paramErr);
    assert_eq!(AudioQueueStart(&mut env, 0x1234, 0), kAudioQueueErr_InvalidProperty);
}

#[test]
fn buffers_are_allocated_and_enqueued() {
    let (mut env, aq) = with_queue(0);
    let out = env.allocate(4);
    assert_eq!(AudioQueueAllocateBuffer(&mut env, 0, 100, out), paramErr);
    assert_eq!(AudioQueueAllocateBuffer(&mut env, aq + 16, 100, out), kAudioQueueErr_InvalidProperty);
    assert_eq!(env.mem().read_u32(out), 0);
    let before = env.mem().len() as u32;
    assert_eq!(AudioQueueAllocateBuffer(&mut env, aq, 100, out), 0);
    let header = env.mem().read_u32(out);
    assert_eq!(header, before + 112);
    assert_eq!(env.mem().read_words(header, 7), vec![100, before, 0, 0, 0, 0, 0]);
    assert_eq!(AudioQueueEnqueueBuffer(&mut env, aq, 0, 3, 0), paramErr);
    assert_eq!(AudioQueueEnqueueBuffer(&mut env, 0, header, 3, 0), paramErr);
    assert_eq!(AudioQueueEnqueueBuffer(&mut env, aq, header, 3, 0), 0);
    assert_eq!(env.mem().read_words(header, 7), vec![100, before, 0, 0, 0, 0, 3]);
    assert_eq!(
        AudioQueueEnqueueBufferWithParameters(&mut env, aq, header, 5, 0, 0, 0, 0, 0, 0, 0),
        0
    );
    assert_eq!(env.mem().read_u32(header + 24), 5);
    let queue = env.audio_queue(aq).unwrap();
    assert_eq!(queue.buffers, vec![header]);
    assert_eq!(queue.buffer_queue, VecDeque::from(vec![header, header]));
}

#[test]
fn buffers_with_packet_descriptions() {
    let (mut env, aq) = with_queue(0);
    let out = env.allocate(4);
    let before = env.mem().len() as u32;
    assert_eq!(AudioQueueAllocateBufferWithPacketDescriptions(&mut env, aq, 32, 3, out), 0);
    let header = env.mem().read_u32(out);
    assert_eq!(header, before + 32 + 48);
    assert_eq!(env.mem().read_words(header, 7), vec![32, before, 0, 0, 3, before + 32, 0]);
    assert_eq!(AudioQueueAllocateBufferWithPacketDescriptions(&mut env, 0, 32, 3, out), paramErr);
}

#[test]
fn parameters_read_back_what_was_set() {
    let (mut env, aq) = with_queue(0);
    let out = env.allocate(4);
    assert_eq!(AudioQueueGetParameter(&mut env, aq, kAudioQueueParam_Volume, out), 0);
    assert_eq!(f32::from_bits(env.mem().read_u32(out)), 1.0);
    assert_eq!(AudioQueueGetParameter(&mut env, aq, kAudioQueueParam_Pan, out), 0);
    assert_eq!(f32::from_bits(env.mem().read_u32(out)), 0.0);
    assert_eq!(AudioQueueSetParameter(&mut env, aq, kAudioQueueParam_Pan, (-0.5f32).to_bits()), 0);
    assert_eq!(AudioQueueGetParameter(&mut env, aq, kAudioQueueParam_Pan, out), 0);
    assert_eq!(f32::from_bits(env.mem().read_u32(out)), -0.5);
    assert_eq!(AudioQueueSetParameter(&mut env, aq, 3, 0), kAudioQueueErr_InvalidProperty);
    assert_eq!(AudioQueueGetParameter(&mut env, aq, 3, out), kAudioQueueErr_InvalidProperty);
    assert_eq!(AudioQueueSetParameter(&mut env, 0, kAudioQueueParam_Volume, 0), paramErr);
    assert_eq!(AudioQueueGetParameter(&mut env, 8, kAudioQueueParam_Volume, out), kAudioQueueErr_InvalidProperty);
}

#[test]
fn properties() {
    let (mut env, aq) = with_queue(0);
    let out = env.allocate(8);
    let size = env.allocate(4);
    assert_eq!(AudioQueueGetProperty(&mut env, aq, kAudioQueueProperty_CurrentLevelMeter, out, size), 0);
    assert_eq!(f32::from_bits(env.mem().read_u32(out)), 0.6);
    assert_eq!(f32::from_bits(env.mem().read_u32(out + 4)), 0.85);
    assert_eq!(env.mem().read_u32(size), 8);
    env.write_u32(size, 77);
    assert_eq!(
        AudioQueueGetProperty(&mut env, aq, kAudioQueueProperty_MagicCookie, out, size),
        kAudioQueueErr_InvalidProperty
    );
    assert_eq!(env.mem().read_u32(size), 77);
    assert_eq!(AudioQueueGetProperty(&mut env, 0, kAudioQueueProperty_IsRunning, out, size), paramErr);
    for (prop, expected) in [
        (kAudioQueueProperty_IsRunning, 4),
        (kAudioQueueProperty_StreamDescription, 40),
        (kAudioQueueProperty_CurrentLevelMeter, 8),
    ] {
        assert_eq!(AudioQueueGetPropertySize(&mut env, 0, prop, size), 0);
        assert_eq!(env.mem().read_u32(size), expected);
    }
    assert_eq!(
        AudioQueueGetPropertySize(&mut env, aq, kAudioQueueProperty_HardwareCodecPolicy, size),
        kAudioQueueErr_InvalidProperty
    );
    assert_eq!(AudioQueueSetProperty(&mut env, aq, kAudioQueueProperty_HardwareCodecPolicy, 0, 4), 0);
    assert_eq!(AudioQueueAddPropertyListener(&mut env, aq, kAudioQueueProperty_IsRunning, 1, 2), 0);
    assert_eq!(AudioQueueRemovePropertyListener(&mut env, aq, kAudioQueueProperty_IsRunning, 1, 2), 0);
    assert_eq!(AudioQueueSetOfflineRenderFormat(&mut env, aq, 0, 0), 0);
}

#[test]
fn disposed_queue_is_unknown() {
    let (mut env, aq) = with_queue(0);
    assert_eq!(AudioQueueDispose(&mut env, 0, 0), paramErr);
    assert_eq!(AudioQueueDispose(&mut env, aq, 1), 0);
    assert_eq!(AudioQueueStart(&mut env, aq, 0), kAudioQueueErr_InvalidProperty);
    assert_eq!(AudioQueueDispose(&mut env, aq, 1), 0);
}

#[test]
fn broken_formats() {
    assert!(!is_broken_audio_format(&asbd(44100.0, 2)));
    assert!(is_broken_audio_format(&asbd(0.0, 2)));
    assert!(is_broken_audio_format(&asbd(-0.0, 2)));
    assert!(is_broken_audio_format(&asbd(-1.0, 2)));
    assert!(is_broken_audio_format(&asbd(f64::NEG_INFINITY, 2)));
    assert!(!is_broken_audio_format(&asbd(f64::NAN, 2)));
    assert!(!is_broken_audio_format(&asbd(f64::INFINITY, 2)));
    assert!(is_broken_audio_format(&asbd(44100.0, 0)));
    for x in [1.5f64, 0.0, -0.0, -2.0, f64::NAN, f64::MIN_POSITIVE, -f64::MIN_POSITIVE] {
        assert_eq!(is_broken_audio_format(&asbd(x, 1)), x <= 0.0, "{x}");
    }
}

#[test]
fn exported_functions_and_decoding() {
    let mut exports = vec![("AudioQueueStart", AudioQueueFunction::Start)];
    register_functions(&mut exports);
    assert_eq!(exports.len(), 19);
    assert_eq!(exports[1], ("AudioQueueNewOutput", AudioQueueFunction::NewOutput));
    assert_eq!(exports[2], ("AudioQueueNewInput", AudioQueueFunction::NewInput));
    assert_eq!(
        exports[18],
        ("AudioQueueSetOfflineRenderFormat", AudioQueueFunction::SetOfflineRenderFormat)
    );
    for (name, f) in &exports[1..] {
        assert_eq!(*name, format!("AudioQueue{:?}", f));
    }
    let env = Environment::new(MAIN_RUN_LOOP);
    let mut compressed = asbd(44100.0, 2);
    compressed.format_id = u32::from_be_bytes(*b"ima4");
    assert!(decode_buffer(&env, &compressed, 0x5000).is_empty());
}

#[test]
fn linear_pcm_buffers_decode_to_their_bytes() {
    let (mut env, aq) = with_queue(0);
    let out = env.allocate(4);
    assert_eq!(AudioQueueAllocateBuffer(&mut env, aq, 16, out), 0);
    let header = env.mem().read_u32(out);
    let data = env.mem().read_u32(header + 4);
    env.write_words(data, &[0x0403_0201, 0x0807_0605]);
    let f = asbd(44100.0, 2);
    assert!(decode_buffer(&env, &f, header).is_empty());
    env.write_u32(header + 8, 6);
    assert_eq!(decode_buffer(&env, &f, header), vec![1, 2, 3, 4, 5, 6]);
    assert_eq!(kAudioFormatLinearPCM, f.format_id);
}

#[test]
fn successive_queues_are_distinct() {
    let (mut env, first) = with_queue(0);
    let fmt = store_asbd(&mut env, &asbd(22050.0, 1));
    let out_aq = env.allocate(4);
    assert_eq!(AudioQueueNewOutput(&mut env, fmt, 1, 2, 0, 0, 0x10, out_aq), 0);
    let second = env.mem().read_u32(out_aq);
    assert_ne!(first, second);
    assert_eq!(env.audio_queue(first).unwrap().format, asbd(44100.0, 2));
    assert_eq!(env.audio_queue(second).unwrap().format, asbd(22050.0, 1));
    assert_eq!(*env.run_loop_audio_queues(), vec![(MAIN_RUN_LOOP, first), (MAIN_RUN_LOOP, second)]);
}

#[test]
fn input_queue_differs_from_output_only_in_its_flag() {
    let make = |input: bool| {
        let mut env = Environment::new(MAIN_RUN_LOOP);
        let fmt = store_asbd(&mut env, &asbd(8000.0, 1));
        let out_aq = env.allocate(4);
        let status = if input {
            AudioQueueNewInput(&mut env, fmt, 5, 6, 0, 0, 0, out_aq)
        } else {
            AudioQueueNewOutput(&mut env, fmt, 5, 6, 0, 0, 0, out_aq)
        };
        assert_eq!(status, 0);
        let aq = env.mem().read_u32(out_aq);
        (env, aq)
    };
    let (out_env, out_aq) = make(false);
    let (in_env, in_aq) = make(true);
    assert_eq!(out_aq, in_aq);
    assert_eq!(out_env.mem().read_words(4096, 20), in_env.mem().read_words(4096, 20));
    assert_eq!(*out_env.run_loop_audio_queues(), *in_env.run_loop_audio_queues());
    let o = out_env.audio_queue(out_aq).unwrap();
    let i = in_env.audio_queue(in_aq).unwrap();
    assert!(!o.is_input && i.is_input);
    assert_eq!((o.format, o.callback_proc, o.callback_user_data, o.run_loop), (i.format, i.callback_proc, i.callback_user_data, i.run_loop));
    assert_eq!((o.volume, o.pan, o.is_running), (i.volume, i.pan, i.is_running));
}

#[test]
fn queue_state_survives_other_calls() {
    let (mut env, aq) = with_queue(0);
    assert_eq!(AudioQueueSetParameter(&mut env, aq, kAudioQueueParam_Volume, 0.25f32.to_bits()), 0);
    let (other_fmt, other_out) = (store_asbd(&mut env, &asbd(11025.0, 1)), env.allocate(4));
    assert_eq!(AudioQueueNewOutput(&mut env, other_fmt, 0, 0, 0, 0, 0, other_out), 0);
    let other = env.mem().read_u32(other_out);
    assert_eq!(AudioQueueSetParameter(&mut env, other, kAudioQueueParam_Volume, 0.75f32.to_bits()), 0);
    assert_eq!(AudioQueueSetParameter(&mut env, aq, kAudioQueueParam_Pan, 0.5f32.to_bits()), 0);
    assert_eq!(AudioQueueStart(&mut env, aq, 0), 0);
    let buf = env.allocate(4);
    assert_eq!(AudioQueueAllocateBuffer(&mut env, aq, 64, buf), 0);
    assert_eq!(AudioQueueDispose(&mut env, other, 0), 0);
    let out = env.allocate(ASBD_SIZE);
    let size = env.allocate(4);
    assert_eq!(AudioQueueGetParameter(&mut env, aq, kAudioQueueParam_Volume, out), 0);
    assert_eq!(f32::from_bits(env.mem().read_u32(out)), 0.25);
    assert_eq!(AudioQueueGetProperty(&mut env, aq, kAudioQueueProperty_StreamDescription, out, size), 0);
    assert_eq!(load_asbd(&env, out), asbd(44100.0, 2));
}

#[test]
fn property_sizes_agree() {
    let (mut env, aq) = with_queue(0);
    let out = env.allocate(ASBD_SIZE);
    let size = env.allocate(4);
    let size2 = env.allocate(4);
    for prop in [
        kAudioQueueProperty_IsRunning,
        kAudioQueueProperty_StreamDescription,
        kAudioQueueProperty_CurrentLevelMeter,
    ] {
        assert_eq!(AudioQueueGetProperty(&mut env, aq, prop, out, size), 0);
        assert_eq!(AudioQueueGetPropertySize(&mut env, aq, prop, size2), 0);
        assert_eq!(env.mem().read_u32(size), env.mem().read_u32(size2));
    }
}
