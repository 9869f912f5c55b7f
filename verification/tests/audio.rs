use velocity::audio::{accepts_frames, seek_generation};
use velocity::audio::{decoder_action, DecoderAction};
use velocity::audio::{
    attach_plan, backend_available, check_track, frames_to_skip, memory_frame_limit, refill_count,
    reserved_frames, seek_timestamp, stream_capacity, streams_after_packet, streams_up_front, track_frames,
    wakes_decoder, AttachPlan, AudioBackend, AudioLoadMode, TrackFormat,
};

fn format(rate: u32, numer: u32, denom: u32) -> TrackFormat {
    TrackFormat { rate, channels: 2, numer, denom }
}

#[test]
fn auto_mode_streams_what_does_not_fit_in_memory() {
    let limit = memory_frame_limit(2);
    assert_eq!(limit, 4 * 1024 * 1024);
    assert_eq!(memory_frame_limit(1), 8 * 1024 * 1024);
    assert!(streams_up_front(AudioLoadMode::Stream, Some(10), limit));
    assert!(!streams_up_front(AudioLoadMode::Memory, Some(u64::MAX), limit));
    assert!(streams_up_front(AudioLoadMode::Auto, Some(limit as u64 + 1), limit));
    assert!(!streams_up_front(AudioLoadMode::Auto, Some(limit as u64), limit));
    assert!(!streams_up_front(AudioLoadMode::Auto, None, limit));
    assert!(streams_after_packet(AudioLoadMode::Auto, limit - 10, 11, limit));
    assert!(!streams_after_packet(AudioLoadMode::Auto, limit - 10, 10, limit));
    assert!(!streams_after_packet(AudioLoadMode::Memory, limit, 10, limit));
    assert_eq!(reserved_frames(Some(48000), limit), 48000);
    assert_eq!(reserved_frames(Some(u64::MAX), limit), limit);
    assert_eq!(reserved_frames(None, limit), 0);
    assert_eq!(AudioLoadMode::default(), AudioLoadMode::Auto);
}

#[test]
fn track_checks_come_in_order() {
    assert_eq!(check_track(None, Some(0), None).unwrap_err(), "audio sample rate is unknown");
    assert_eq!(check_track(Some(0), Some(2), None).unwrap_err(), "unsupported audio sample rate");
    assert_eq!(check_track(Some(384001), Some(2), None).unwrap_err(), "unsupported audio sample rate");
    assert_eq!(check_track(Some(44100), Some(0), None).unwrap_err(), "audio has no channels");
    assert_eq!(check_track(Some(44100), Some(2), Some((0, 1))).unwrap_err(), "invalid audio time base");
    assert_eq!(check_track(Some(44100), None, None).unwrap(), TrackFormat { rate: 44100, channels: 2, numer: 1, denom: 44100 });
    assert_eq!(check_track(Some(8000), Some(1), Some((1, 1000))).unwrap(), TrackFormat { rate: 8000, channels: 1, numer: 1, denom: 1000 });
}

#[test]
fn timestamps_convert_between_time_bases() {
    assert_eq!(track_frames(1000, format(8000, 1, 1000)), 8000);
    assert_eq!(track_frames(u64::MAX, format(384000, u32::MAX, 1)), u64::MAX);
    assert_eq!(seek_timestamp(1_500_000_000, format(8000, 1, 1000), 0), 1500);
    assert_eq!(seek_timestamp(1_000_000, format(48000, 1, 48000), 10), 58);
    assert_eq!(seek_timestamp(1_000_000_000, format(48000, 1, 48000), u64::MAX), u64::MAX);
    assert_eq!(frames_to_skip(1500, 1000, format(8000, 1, 1000)), 4000);
    assert_eq!(frames_to_skip(900, 1000, format(8000, 1, 1000)), 0);
}

#[test]
fn streaming_buffer_is_bounded() {
    let capacity = stream_capacity(1000);
    assert_eq!(capacity, 3000);
    assert_eq!(refill_count(capacity, 0, 5000, 0), 1024);
    assert_eq!(refill_count(capacity, 2500, 5000, 0), 500);
    assert_eq!(refill_count(capacity, 0, 300, 100), 200);
    assert_eq!(refill_count(capacity, capacity, 300, 0), 0);
    assert!(wakes_decoder(1600, 1500, capacity));
    assert!(!wakes_decoder(1500, 1000, capacity));
    assert!(!wakes_decoder(2000, 1501, capacity));
}

#[test]
fn players_attach_to_one_engine_up_to_the_limit() {
    assert!(matches!(attach_plan(Some(true), 128), Ok(AttachPlan::Attached)));
    assert_eq!(attach_plan(Some(false), 0).err().unwrap(), "player is attached to another audio engine");
    assert_eq!(attach_plan(None, 128).err().unwrap(), "audio engine player limit (128) reached");
    assert!(matches!(attach_plan(None, 127), Ok(AttachPlan::Register)));
    assert!(backend_available(AudioBackend::Wasapi).is_ok());
    assert_eq!(backend_available(AudioBackend::Asio).unwrap_err(), "ASIO is reserved but not implemented");
    assert_eq!(AudioBackend::default(), AudioBackend::Wasapi);
}

#[test]
fn decoder_stops_then_seeks_then_waits() {
    assert_eq!(decoder_action(true, true, true, 0, 10), DecoderAction::Exit);
    assert_eq!(decoder_action(false, true, true, 10, 10), DecoderAction::Seek);
    assert_eq!(decoder_action(false, false, true, 0, 10), DecoderAction::Wait);
    assert_eq!(decoder_action(false, false, false, 10, 10), DecoderAction::Wait);
    assert_eq!(decoder_action(false, false, false, 9, 10), DecoderAction::Work);
}

#[test]
fn stream_buffer_refills_within_capacity_and_wakes_to_work() {
    // A refill fills at most the room left, the frames left and one chunk.
    assert_eq!(refill_count(100, 90, 50, 0), 10);
    assert_eq!(refill_count(10_000, 0, 50, 20), 30);
    assert_eq!(refill_count(10_000, 0, 5_000, 0), 1024);
    // A full buffer makes the decoder wait; the mixer's take past half
    // capacity wakes it, and it then works.
    assert_eq!(decoder_action(false, false, false, 100, 100), DecoderAction::Wait);
    assert!(wakes_decoder(60, 50, 100));
    assert!(!wakes_decoder(50, 40, 100));
    assert_eq!(decoder_action(false, false, false, 50, 100), DecoderAction::Work);
}

#[test]
fn a_seek_refuses_frames_of_the_generation_before_it() {
    assert_eq!(seek_generation(0), 1);
    assert_eq!(seek_generation(u64::MAX), 0);
    let decoder = 7;
    let buffer = seek_generation(decoder);
    assert!(!accepts_frames(buffer, decoder));
    assert!(accepts_frames(buffer, buffer));
}

#[test]
fn a_player_keeps_its_engine() {
    assert!(matches!(attach_plan(Some(true), 128), Ok(AttachPlan::Attached)));
    assert_eq!(
        attach_plan(Some(false), 0).err().unwrap(),
        "player is attached to another audio engine"
    );
    assert!(matches!(attach_plan(None, 3), Ok(AttachPlan::Register)));
    assert_eq!(attach_plan(None, 128).err().unwrap(), "audio engine player limit (128) reached");
}
