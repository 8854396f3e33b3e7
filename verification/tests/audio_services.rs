use lib::environment::Environment;
use lib::frameworks::audio_toolbox::{exports, guestaudio, LazyALContext};

#[test]
fn microphone_calls_fail_while_unavailable() {
    let mut env = Environment::new(1);
    assert_eq!(guestaudio::MICROPHONE_UNAVAILABLE, -1);
    assert_eq!(guestaudio::audio_queue_new_input(&mut env, 1, 2, 3, 4, 5, 6, 7), -1);
    assert_eq!(guestaudio::audio_queue_start(&mut env, 1, 0), -1);
    assert_eq!(guestaudio::audio_queue_stop(&mut env, 1, true), 0);
    assert_eq!(guestaudio::audio_queue_dispose(&mut env, 1, false), 0);
    assert_eq!(guestaudio::audio_queue_allocate_buffer(&mut env, 1, 1024, 8), -1);
    assert_eq!(guestaudio::audio_queue_free_buffer(&mut env, 1, 8), 0);
    assert_eq!(guestaudio::audio_queue_enqueue_buffer(&mut env, 1, 8, 0, 0), -1);
    guestaudio::audio_services_play_system_sound(&mut env, 1104);
    assert_eq!(guestaudio::audio_services_create_system_sound_id(&mut env, 0, 0), 0);
    assert_eq!(guestaudio::audio_services_dispose_system_sound_id(&mut env, 5), 0);
    assert_eq!(guestaudio::audio_session_initialize(&mut env, 0, 0, 0, 0), 0);
    assert_eq!(guestaudio::audio_session_set_active(&mut env, true), 0);
    assert_eq!(guestaudio::audio_session_set_property(&mut env, 1, 4, 0), 0);
    assert_eq!(guestaudio::audio_session_get_property(&mut env, 1, 0, 0), 0);
    assert_eq!(env.mem().len(), 4096);
}

#[test]
fn exported_stubs_do_nothing() {
    let mut env = Environment::new(1);
    assert_eq!(exports::audio_queue_new_output(&mut env, 1, 2, 3, 4, 5, 6, 7), 0);
    assert_eq!(exports::audio_queue_new_input(&mut env, 1, 2, 3, 4, 5, 6, 7), -1);
    assert_eq!(exports::audio_queue_start(&mut env, 1, 0), 0);
    assert_eq!(exports::audio_queue_stop(&mut env, 1, true), 0);
    assert_eq!(exports::audio_queue_dispose(&mut env, 1, false), 0);
    assert_eq!(exports::audio_queue_allocate_buffer(&mut env, 1, 1024, 8), 0);
    assert_eq!(exports::audio_queue_free_buffer(&mut env, 1, 8), 0);
    assert_eq!(exports::audio_queue_enqueue_buffer(&mut env, 1, 8, 0, 0), 0);
    exports::audio_services_play_system_sound(&mut env, 1104);
    assert_eq!(exports::audio_services_create_system_sound_id(&mut env, 0, 0), 0);
    assert_eq!(exports::audio_services_dispose_system_sound_id(&mut env, 5), 0);
    assert_eq!(exports::audio_session_initialize(&mut env, 0, 0, 0, 0), 0);
    assert_eq!(exports::audio_session_set_active(&mut env, false), 0);
    assert_eq!(exports::audio_session_set_property(&mut env, 1, 4, 0), 0);
    assert_eq!(exports::audio_session_get_property(&mut env, 1, 0, 0), 0);
    assert!(env.run_loop_audio_queues().is_empty());
}

#[test]
fn context_is_created_once() {
    let mut lazy: LazyALContext<u32> = LazyALContext::new();
    let failed: Option<&mut u32> = lazy.try_get_context(|| Err::<u32, &str>("no backend"));
    assert!(failed.is_none());
    assert!(lazy.0.is_none());
    let created = lazy.try_get_context(|| Ok::<u32, &str>(7)).map(|c| *c);
    assert_eq!(created, Some(7));
    let mut calls = 0;
    let again = lazy
        .try_get_context(|| {
            calls += 1;
            Ok::<u32, &str>(9)
        })
        .map(|c| *c);
    assert_eq!(again, Some(7));
    assert_eq!(calls, 0);
    if let Some(c) = lazy.try_get_context(|| Err::<u32, &str>("unused")) {
        *c = 11;
    }
    assert_eq!(lazy.0, Some(11));
}
