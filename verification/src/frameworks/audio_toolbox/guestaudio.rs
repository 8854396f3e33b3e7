//! Microphone support through audio queues, currently disabled: the calls
//! that would need a capture backend fail, the others succeed without doing
//! anything.
use vstd::prelude::*;
use crate::environment::Environment;

verus! {

/// The status that the calls needing the microphone return while it is
/// unavailable.
pub const MICROPHONE_UNAVAILABLE: i32 = -1;

/// `AudioQueueNewInput`: fails; no queue is created.
pub fn audio_queue_new_input(
    _env: &mut Environment,
    _format: u32,
    _callback: u32,
    _user_data: u32,
    _run_loop: u32,
    _run_loop_mode: u32,
    _flags: u32,
    _out_aq: u32,
) -> (status: i32)
    ensures
        status == MICROPHONE_UNAVAILABLE,
        *final(_env) == *old(_env),
{
    MICROPHONE_UNAVAILABLE
}

/// `AudioQueueStart`: fails.
pub fn audio_queue_start(
    _env: &mut Environment,
    _aq: u32,
    _start_time: u32,
) -> (status: i32)
    ensures
        status == MICROPHONE_UNAVAILABLE,
        *final(_env) == *old(_env),
{
    MICROPHONE_UNAVAILABLE
}

/// `AudioQueueStop`: succeeds without effect.
pub fn audio_queue_stop(
    _env: &mut Environment,
    _aq: u32,
    _immediate: bool,
) -> (status: i32)
    ensures
        status == 0,
        *final(_env) == *old(_env),
{
    0
}

/// `AudioQueueDispose`: succeeds without effect.
pub fn audio_queue_dispose(
    _env: &mut Environment,
    _aq: u32,
    _immediate: bool,
) -> (status: i32)
    ensures
        status == 0,
        *final(_env) == *old(_env),
{
    0
}

/// `AudioQueueAllocateBuffer`: fails; no buffer is allocated.
pub fn audio_queue_allocate_buffer(
    _env: &mut Environment,
    _aq: u32,
    _buffer_size: u32,
    _out_buffer: u32,
) -> (status: i32)
    ensures
        status == MICROPHONE_UNAVAILABLE,
        *final(_env) == *old(_env),
{
    MICROPHONE_UNAVAILABLE
}

/// `AudioQueueFreeBuffer`: succeeds without effect.
pub fn audio_queue_free_buffer(
    _env: &mut Environment,
    _aq: u32,
    _buffer: u32,
) -> (status: i32)
    ensures
        status == 0,
        *final(_env) == *old(_env),
{
    0
}

/// `AudioQueueEnqueueBuffer`: fails.
pub fn audio_queue_enqueue_buffer(
    _env: &mut Environment,
    _aq: u32,
    _buffer: u32,
    _num_packets: u32,
    _packet_descs: u32,
) -> (status: i32)
    ensures
        status == MICROPHONE_UNAVAILABLE,
        *final(_env) == *old(_env),
{
    MICROPHONE_UNAVAILABLE
}

/// `AudioServicesPlaySystemSound`: no system sounds are played.
pub fn audio_services_play_system_sound(
    _env: &mut Environment,
    _sound_id: u32,
)
    ensures
        *final(_env) == *old(_env),
{
}

/// `AudioServicesCreateSystemSoundID`: reports success without creating a sound.
pub fn audio_services_create_system_sound_id(
    _env: &mut Environment,
    _file_url: u32,
    _out_sound_id: u32,
) -> (status: i32)
    ensures
        status == 0,
        *final(_env) == *old(_env),
{
    0
}

/// `AudioServicesDisposeSystemSoundID`: reports success.
pub fn audio_services_dispose_system_sound_id(
    _env: &mut Environment,
    _sound_id: u32,
) -> (status: i32)
    ensures
        status == 0,
        *final(_env) == *old(_env),
{
    0
}

/// `AudioSessionInitialize`: reports success.
pub fn audio_session_initialize(
    _env: &mut Environment,
    _run_loop: u32,
    _run_loop_mode: u32,
    _interruption_listener: u32,
    _user_data: u32,
) -> (status: i32)
    ensures
        status == 0,
        *final(_env) == *old(_env),
{
    0
}

/// `AudioSessionSetActive`: reports success.
pub fn audio_session_set_active(
    _env: &mut Environment,
    _active: bool,
) -> (status: i32)
    ensures
        status == 0,
        *final(_env) == *old(_env),
{
    0
}

/// `AudioSessionSetProperty`: reports success and ignores the value.
pub fn audio_session_set_property(
    _env: &mut Environment,
    _property_id: u32,
    _data_size: u32,
    _property_data: u32,
) -> (status: i32)
    ensures
        status == 0,
        *final(_env) == *old(_env),
{
    0
}

/// `AudioSessionGetProperty`: reports success without storing a value.
pub fn audio_session_get_property(
    _env: &mut Environment,
    _property_id: u32,
    _io_data_size: u32,
    _out_property_data: u32,
) -> (status: i32)
    ensures
        status == 0,
        *final(_env) == *old(_env),
{
    0
}

} // verus!
