use std::sync::Arc;

use media_dispatch::buffer::{Buffer, MediaData, MediaType};
use media_dispatch::dispatcher::{DispatchError, Dispatcher};
use media_dispatch::receiver::Receiver;
use media_dispatch::ring::INVALID_INDEX;

fn frame(media_type: MediaType, pts: u64, key_frame: bool) -> Arc<MediaData> {
    Arc::new(MediaData { key_frame, pts, media_type, buff: Buffer::new(0, 0) })
}

/// Runs one pass of the dispatch loop and lets every signalled consumer
/// finish its pending request of `kinds[i]`, collecting what it received.
fn pump(d: &mut Dispatcher, rs: &mut [Receiver], kinds: &[MediaType], got: &mut [Vec<u64>]) {
    loop {
        let notes = d.collect_notifications();
        let mut progressed = false;
        for (id, kind) in notes {
            for r in rs.iter_mut() {
                if r.id() == id {
                    r.on_data(kind);
                }
            }
        }
        for (i, r) in rs.iter_mut().enumerate() {
            if r.is_requesting(kinds[i]) {
                let (ok, f) = r.complete_read(d, kinds[i]);
                if ok {
                    got[i].push(f.unwrap().pts);
                    progressed = true;
                }
                r.prepare_read(d, kinds[i]);
            }
        }
        if !progressed {
            break;
        }
    }
}

#[test]
fn first_frame_audio_is_dropped() {
    let mut d = Dispatcher::new(400, 50);
    d.input_data(frame(MediaType::AUDIO, 0, false));
    assert_eq!(d.ring_len(), 0);
    assert!(d.is_waiting_key_frame());
    d.input_data(frame(MediaType::VIDEO, 1, false));
    assert_eq!(d.ring_len(), 0);
    d.input_data(frame(MediaType::VIDEO, 2, true));
    assert_eq!(d.ring_len(), 1);
    assert!(!d.is_waiting_key_frame());
    assert_eq!(d.ring_pts(), vec![2]);
}

#[test]
fn audio_key_flag_does_not_start_the_stream() {
    let mut d = Dispatcher::new(400, 50);
    d.input_data(frame(MediaType::AUDIO, 0, true));
    assert_eq!(d.ring_len(), 0);
    assert!(d.is_waiting_key_frame());
}

#[test]
fn attach_after_sixteen_is_refused() {
    let mut d = Dispatcher::new(400, 50);
    let mut rs: Vec<Receiver> = (1..=17).map(Receiver::with_id).collect();
    for (k, r) in rs.iter_mut().take(16).enumerate() {
        assert_eq!(d.attach_receiver(r), Ok(k as u32));
        assert_eq!(r.get_read_index(), k as u32);
    }
    assert_eq!(d.read_flag(), 0xffff);
    assert_eq!(d.attach_receiver(&mut rs[16]), Err(DispatchError::CapacityExceeded));
    assert_eq!(d.read_flag(), 0xffff);
    assert!(d.notifier(17).is_none());
}

#[test]
fn freed_slot_is_reused_lowest_first() {
    let mut d = Dispatcher::new(400, 50);
    let mut a = Receiver::with_id(1);
    let mut b = Receiver::with_id(2);
    let mut c = Receiver::with_id(3);
    assert_eq!(d.attach_receiver(&mut a), Ok(0));
    assert_eq!(d.attach_receiver(&mut b), Ok(1));
    assert_eq!(d.detach_receiver(1), Ok(()));
    assert_eq!(d.read_flag(), 0b10);
    assert_eq!(d.attach_receiver(&mut c), Ok(0));
    assert_eq!(d.read_flag(), 0b11);
}

#[test]
fn slot_map_counts_attached_consumers() {
    let mut d = Dispatcher::new(400, 50);
    let mut rs: Vec<Receiver> = (10..15).map(Receiver::with_id).collect();
    for r in rs.iter_mut() {
        d.attach_receiver(r).unwrap();
    }
    assert_eq!(d.read_flag().count_ones(), 5);
    d.detach_receiver(12).unwrap();
    d.detach_receiver(10).unwrap();
    assert_eq!(d.read_flag().count_ones(), 3);
    assert_eq!(d.read_flag(), 0b11010);
}

#[test]
fn detach_unknown_is_not_attached() {
    let mut d = Dispatcher::new(400, 50);
    assert_eq!(d.detach_receiver(9), Err(DispatchError::NotAttached));
}

#[test]
fn detach_mid_wait_then_read_is_refused() {
    let mut d = Dispatcher::new(400, 50);
    let mut r = Receiver::with_id(5);
    let k = d.attach_receiver(&mut r).unwrap();
    d.input_data(frame(MediaType::VIDEO, 0, true));
    d.input_data(frame(MediaType::AUDIO, 1, false));
    r.prepare_read(&mut d, MediaType::AUDIO);
    r.prepare_read(&mut d, MediaType::VIDEO);
    assert_ne!(d.recv_ref() & (0b11 << (2 * k)), 0);
    assert_eq!(r.detach_from(&mut d), Ok(()));
    assert!(r.is_requesting(MediaType::VIDEO));
    assert_eq!(d.read_buffer_data(5, MediaType::VIDEO).0, false);
    assert!(d.read_buffer_data(5, MediaType::AUDIO).1.is_none());
    assert!(!d.notify_read_ready(5, MediaType::AUDIO));
    assert_eq!(d.data_ref() & (0b11 << (2 * k)), 0);
    assert_eq!(d.recv_ref() & (0b11 << (2 * k)), 0);
    assert_eq!(d.read_flag(), 0);
    let (ok, f) = r.complete_read(&mut d, MediaType::VIDEO);
    assert!(!ok && f.is_none());
}

#[test]
fn key_only_video_consumer_gets_key_frames() {
    let mut d = Dispatcher::new(400, 50);
    let mut rs = vec![Receiver::with_id(1)];
    d.attach_receiver(&mut rs[0]).unwrap();
    rs[0].set_key_mode(&mut d, true);
    let kinds = [MediaType::VIDEO];
    let mut got = vec![Vec::new()];
    rs[0].prepare_read(&mut d, MediaType::VIDEO);
    let mut video_count: u64 = 0;
    for i in 0..100u64 {
        if i % 3 == 0 {
            let key = video_count % 30 == 0;
            video_count += 1;
            d.input_data(frame(MediaType::VIDEO, i, key));
        } else {
            d.input_data(frame(MediaType::AUDIO, i, false));
        }
        pump(&mut d, &mut rs, &kinds, &mut got);
    }
    assert_eq!(got[0], vec![0, 90]);
    for p in &got[0] {
        assert!([0, 90, 180, 270].contains(p));
    }
}

#[test]
fn two_mixed_consumers_see_the_same_sequence() {
    let mut d = Dispatcher::new(400, 50);
    let mut rs = vec![Receiver::with_id(1), Receiver::with_id(2)];
    d.attach_receiver(&mut rs[0]).unwrap();
    d.attach_receiver(&mut rs[1]).unwrap();
    let kinds = [MediaType::AV, MediaType::AV];
    let mut got = vec![Vec::new(), Vec::new()];
    rs[0].prepare_read(&mut d, MediaType::AV);
    rs[1].prepare_read(&mut d, MediaType::AV);
    assert!(rs[0].is_mix_read());
    for i in 0..40u64 {
        if i % 2 == 0 {
            d.input_data(frame(MediaType::VIDEO, i, i % 10 == 0));
        } else {
            d.input_data(frame(MediaType::AUDIO, i, false));
        }
        pump(&mut d, &mut rs, &kinds, &mut got);
    }
    let expected: Vec<u64> = (0..40).collect();
    assert_eq!(got[0], expected);
    assert_eq!(got[1], expected);
}

#[test]
fn reads_of_one_kind_come_in_insertion_order() {
    let mut d = Dispatcher::new(400, 50);
    let mut r = Receiver::with_id(3);
    d.attach_receiver(&mut r).unwrap();
    d.input_data(frame(MediaType::VIDEO, 10, true));
    for p in 11..20 {
        d.input_data(frame(if p % 2 == 0 { MediaType::VIDEO } else { MediaType::AUDIO }, p, false));
    }
    d.notify_read_ready(3, MediaType::AUDIO);
    let mut seen = Vec::new();
    loop {
        let (ok, f) = d.read_buffer_data(3, MediaType::AUDIO);
        if !ok {
            break;
        }
        seen.push(f.unwrap().pts);
    }
    assert_eq!(seen, vec![11, 13, 15, 17, 19]);
}

#[test]
fn idle_consumer_blocks_eviction_until_detached() {
    let mut d = Dispatcher::new(400, 50);
    let mut idle = Receiver::with_id(7);
    d.attach_receiver(&mut idle).unwrap();
    let mut written: usize = 0;
    for i in 0..400u64 {
        let key = i % 30 == 0;
        d.input_data(frame(if i % 3 == 0 { MediaType::VIDEO } else { MediaType::AUDIO }, i, key));
        written += 1;
        assert_eq!(d.ring_len(), written);
    }
    let keys: Vec<u32> = (0..400).filter(|i| i % 30 == 0).collect();
    assert_eq!(d.key_indices().clone(), keys);
    idle.detach_from(&mut d).unwrap();
    d.input_data(frame(MediaType::VIDEO, 400, true));
    assert_eq!(d.ring_len(), 1);
    assert_eq!(d.key_indices().clone(), vec![0]);
}

#[test]
fn stop_releases_a_waiting_consumer() {
    let mut d = Dispatcher::new(400, 50);
    d.start_dispatch();
    assert!(d.is_running());
    let mut r = Receiver::with_id(4);
    d.attach_receiver(&mut r).unwrap();
    r.prepare_read(&mut d, MediaType::VIDEO);
    assert!(!r.is_requesting(MediaType::VIDEO));
    d.stop_dispatch();
    assert!(!d.is_running());
    assert!(d.continue_notify());
    r.notify_read_stop();
    assert!(r.is_requesting(MediaType::VIDEO));
    let (ok, f) = r.complete_read(&mut d, MediaType::VIDEO);
    assert!(!ok);
    assert!(f.is_none());
    assert!(!r.is_requesting(MediaType::VIDEO));
}

#[test]
fn cancelled_request_returns_nothing_even_with_data() {
    let mut d = Dispatcher::new(400, 50);
    let mut r = Receiver::with_id(4);
    d.attach_receiver(&mut r).unwrap();
    d.input_data(frame(MediaType::VIDEO, 0, true));
    r.prepare_read(&mut d, MediaType::VIDEO);
    r.notify_read_stop();
    let (ok, f) = r.complete_read(&mut d, MediaType::VIDEO);
    assert!(!ok && f.is_none());
    assert!(r.on_video_data());
    let (ok, f) = r.complete_read(&mut d, MediaType::VIDEO);
    assert!(ok);
    assert_eq!(f.unwrap().pts, 0);
}

#[test]
fn key_mode_off_delivers_the_stuck_frame() {
    let mut d = Dispatcher::new(400, 50);
    let mut r = Receiver::with_id(8);
    d.attach_receiver(&mut r).unwrap();
    d.input_data(frame(MediaType::VIDEO, 0, true));
    d.input_data(frame(MediaType::VIDEO, 1, false));
    d.input_data(frame(MediaType::VIDEO, 2, false));
    d.notify_read_ready(8, MediaType::VIDEO);
    let (ok, f) = d.read_buffer_data(8, MediaType::VIDEO);
    assert!(ok);
    assert_eq!(f.unwrap().pts, 0);
    assert_eq!(d.notifier(8).unwrap().video_index, 1);
    r.set_key_mode(&mut d, true);
    assert!(r.is_key_read());
    assert!(!d.notify_read_ready(8, MediaType::VIDEO));
    assert_eq!(d.data_ref() & 0b10, 0);
    r.set_key_mode(&mut d, false);
    assert!(d.notify_read_ready(8, MediaType::VIDEO));
    let (ok, f) = d.read_buffer_data(8, MediaType::VIDEO);
    assert!(ok);
    assert_eq!(f.unwrap().pts, 1);
}

#[test]
fn key_only_read_skips_and_marks_non_key_video() {
    let mut d = Dispatcher::new(400, 50);
    let mut r = Receiver::with_id(8);
    d.attach_receiver(&mut r).unwrap();
    r.set_key_mode(&mut d, true);
    d.input_data(frame(MediaType::VIDEO, 0, true));
    d.input_data(frame(MediaType::VIDEO, 1, false));
    d.input_data(frame(MediaType::AUDIO, 2, false));
    d.input_data(frame(MediaType::VIDEO, 3, false));
    d.input_data(frame(MediaType::VIDEO, 4, true));
    d.notify_read_ready(8, MediaType::VIDEO);
    assert_eq!(d.read_buffer_data(8, MediaType::VIDEO).1.unwrap().pts, 0);
    assert_eq!(d.read_buffer_data(8, MediaType::VIDEO).1.unwrap().pts, 4);
    assert!(!d.read_buffer_data(8, MediaType::VIDEO).0);
}

#[test]
fn eviction_drops_the_consumed_gop() {
    let mut d = Dispatcher::new(400, 50);
    let mut r = Receiver::with_id(2);
    d.attach_receiver(&mut r).unwrap();
    d.input_data(frame(MediaType::VIDEO, 0, true));
    d.input_data(frame(MediaType::AUDIO, 1, false));
    d.input_data(frame(MediaType::VIDEO, 2, false));
    d.input_data(frame(MediaType::AUDIO, 3, false));
    d.input_data(frame(MediaType::VIDEO, 4, false));
    d.input_data(frame(MediaType::AUDIO, 5, false));
    d.notify_read_ready(2, MediaType::VIDEO);
    assert!(d.read_buffer_data(2, MediaType::VIDEO).0);
    assert!(d.read_buffer_data(2, MediaType::VIDEO).0);
    let before = d.notifier(2).unwrap();
    assert_eq!((before.audio_index, before.video_index), (1, 4));
    assert_eq!((d.last_audio_index(), d.last_video_index()), (5, 4));
    assert_eq!(d.ring_len(), 6);
    d.input_data(frame(MediaType::VIDEO, 6, true));
    // the old GOP is six slots long: everything shifts down by six
    assert_eq!(d.ring_len(), 1);
    assert_eq!(d.ring_pts(), vec![6]);
    assert_eq!(d.key_indices().clone(), vec![0]);
    let after = d.notifier(2).unwrap();
    assert_eq!(after.audio_index, 0);
    assert_eq!(after.video_index, 0);
    assert_eq!(d.last_audio_index(), INVALID_INDEX);
    assert_eq!(d.last_video_index(), 0);
}

#[test]
fn eviction_keeps_an_unread_gop_and_shifts_positions() {
    let mut d = Dispatcher::new(400, 50);
    let mut r = Receiver::with_id(2);
    d.attach_receiver(&mut r).unwrap();
    for (i, (t, k)) in [
        (MediaType::VIDEO, true),
        (MediaType::AUDIO, false),
        (MediaType::VIDEO, true),
        (MediaType::AUDIO, false),
        (MediaType::VIDEO, false),
    ]
    .iter()
    .enumerate()
    {
        d.input_data(frame(*t, i as u64, *k));
    }
    d.notify_read_ready(2, MediaType::VIDEO);
    assert_eq!(d.read_buffer_data(2, MediaType::VIDEO).1.unwrap().pts, 0);
    let before = d.notifier(2).unwrap();
    assert_eq!((before.audio_index, before.video_index), (1, 2));
    d.input_data(frame(MediaType::VIDEO, 5, true));
    // the first GOP (two slots) was read by everyone; the second was not
    assert_eq!(d.ring_pts(), vec![2, 3, 4, 5]);
    assert_eq!(d.key_indices().clone(), vec![0, 3]);
    let after = d.notifier(2).unwrap();
    assert_eq!(after.video_index, 0);
    assert_eq!(after.audio_index, 0);
    assert_eq!(d.last_audio_index(), 1);
    assert_eq!(d.last_video_index(), 3);
    assert_eq!(d.read_buffer_data(2, MediaType::VIDEO).1.unwrap().pts, 2);
}

#[test]
fn attach_seeds_at_latest_key_frame() {
    let mut d = Dispatcher::new(400, 50);
    let mut first = Receiver::with_id(1);
    d.attach_receiver(&mut first).unwrap();
    d.input_data(frame(MediaType::VIDEO, 0, true));
    d.input_data(frame(MediaType::AUDIO, 1, false));
    d.input_data(frame(MediaType::VIDEO, 2, true));
    d.input_data(frame(MediaType::VIDEO, 3, false));
    d.input_data(frame(MediaType::AUDIO, 4, false));
    let mut late = Receiver::with_id(9);
    let k = d.attach_receiver(&mut late).unwrap();
    assert_eq!(k, 1);
    let c = d.notifier(9).unwrap();
    assert_eq!(c.video_index, 2);
    assert_eq!(c.audio_index, 4);
    assert_eq!(d.data_ref() & (0b11 << 2), 0b11 << 2);
}

#[test]
fn attach_to_empty_ring_waits_for_seed() {
    let mut d = Dispatcher::new(400, 50);
    let mut r = Receiver::with_id(1);
    d.attach_receiver(&mut r).unwrap();
    let c = d.notifier(1).unwrap();
    assert_eq!((c.audio_index, c.video_index), (INVALID_INDEX, INVALID_INDEX));
    assert_eq!(d.data_ref(), 0);
    d.input_data(frame(MediaType::VIDEO, 0, true));
    d.input_data(frame(MediaType::AUDIO, 1, false));
    let c = d.notifier(1).unwrap();
    assert_eq!((c.audio_index, c.video_index), (1, 0));
}

#[test]
fn audio_only_mode_seeds_at_newest_slot() {
    let mut d = Dispatcher::with_mode(400, 50, MediaType::AUDIO);
    d.input_data(frame(MediaType::VIDEO, 0, true));
    d.input_data(frame(MediaType::AUDIO, 1, false));
    d.input_data(frame(MediaType::AUDIO, 2, false));
    let mut r = Receiver::with_id(1);
    d.attach_receiver(&mut r).unwrap();
    let c = d.notifier(1).unwrap();
    assert_eq!((c.audio_index, c.video_index), (2, INVALID_INDEX));
}

#[test]
fn dispatch_pass_wakes_ready_consumers() {
    let mut d = Dispatcher::new(400, 50);
    let mut a = Receiver::with_id(1);
    let mut m = Receiver::with_id(2);
    d.attach_receiver(&mut a).unwrap();
    d.attach_receiver(&mut m).unwrap();
    d.input_data(frame(MediaType::VIDEO, 0, true));
    d.input_data(frame(MediaType::AUDIO, 1, false));
    assert!(d.collect_notifications().is_empty());
    a.prepare_read(&mut d, MediaType::AUDIO);
    a.prepare_read(&mut d, MediaType::VIDEO);
    m.prepare_read(&mut d, MediaType::AV);
    let notes = d.collect_notifications();
    assert_eq!(notes, vec![(1, MediaType::AUDIO), (1, MediaType::VIDEO), (2, MediaType::AV)]);
    let both = d.data_ref() & d.recv_ref();
    assert_eq!(both, 0b1111);
}

#[test]
fn notify_ready_twice_is_like_once() {
    let mut d = Dispatcher::new(400, 50);
    let mut r = Receiver::with_id(1);
    d.attach_receiver(&mut r).unwrap();
    d.input_data(frame(MediaType::VIDEO, 0, true));
    d.input_data(frame(MediaType::AUDIO, 1, false));
    let first = d.notify_read_ready(1, MediaType::AUDIO);
    let (dr, rr, c) = (d.data_ref(), d.recv_ref(), d.notifier(1).unwrap());
    let second = d.notify_read_ready(1, MediaType::AUDIO);
    assert_eq!(first, second);
    assert_eq!((dr, rr), (d.data_ref(), d.recv_ref()));
    let c2 = d.notifier(1).unwrap();
    assert_eq!((c.audio_index, c.video_index), (c2.audio_index, c2.video_index));
}

#[test]
fn callbacks_signal_once_until_drained() {
    let mut r = Receiver::new();
    assert_eq!(r.id(), 0);
    assert!(r.on_audio_data());
    assert!(!r.on_audio_data());
    assert!(r.on_media_data());
    assert!(!r.is_requesting(MediaType::VIDEO));
    assert!(r.on_video_data());
    assert!(r.is_requesting(MediaType::VIDEO));
}

#[test]
fn read_position_takes_the_lesser_index() {
    let mut d = Dispatcher::new(400, 50);
    let mut r = Receiver::with_id(1);
    d.attach_receiver(&mut r).unwrap();
    d.input_data(frame(MediaType::VIDEO, 0, true));
    d.input_data(frame(MediaType::AUDIO, 1, false));
    let c = d.notifier(1).unwrap();
    assert_eq!(c.get_receiver_read_index(MediaType::AV), 0);
    assert_eq!(c.get_receiver_read_index(MediaType::AUDIO), 1);
    assert_eq!(c.get_receiver_read_index(MediaType::VIDEO), 0);
}

#[test]
fn reused_slot_starts_with_nothing_read() {
    let mut d = Dispatcher::new(400, 50);
    let mut first = Receiver::with_id(1);
    assert_eq!(d.attach_receiver(&mut first), Ok(0));
    d.input_data(frame(MediaType::VIDEO, 0, true));
    d.notify_read_ready(1, MediaType::VIDEO);
    assert_eq!(d.read_buffer_data(1, MediaType::VIDEO).1.unwrap().pts, 0);
    first.detach_from(&mut d).unwrap();
    let mut second = Receiver::with_id(2);
    assert_eq!(d.attach_receiver(&mut second), Ok(0));
    assert_eq!(d.notifier(2).unwrap().video_index, 0);
    let (ok, f) = d.read_buffer_data(2, MediaType::VIDEO);
    assert!(ok);
    assert_eq!(f.unwrap().pts, 0);
}

#[test]
fn reused_slot_does_not_let_unread_frames_go() {
    let mut d = Dispatcher::new(400, 50);
    let mut first = Receiver::with_id(1);
    d.attach_receiver(&mut first).unwrap();
    d.input_data(frame(MediaType::VIDEO, 0, true));
    d.notify_read_ready(1, MediaType::VIDEO);
    assert!(d.read_buffer_data(1, MediaType::VIDEO).0);
    first.detach_from(&mut d).unwrap();
    let mut idle = Receiver::with_id(2);
    d.attach_receiver(&mut idle).unwrap();
    d.input_data(frame(MediaType::AUDIO, 1, false));
    d.input_data(frame(MediaType::VIDEO, 2, true));
    assert_eq!(d.ring_pts(), vec![0, 1, 2]);
    assert_eq!(d.key_indices().clone(), vec![0, 2]);
}

#[test]
fn clearing_bits_of_no_slot_changes_nothing() {
    let mut d = Dispatcher::new(400, 50);
    let mut r = Receiver::with_id(1);
    d.attach_receiver(&mut r).unwrap();
    d.input_data(frame(MediaType::VIDEO, 0, true));
    d.notify_read_ready(1, MediaType::VIDEO);
    let (dr, rr) = (d.data_ref(), d.recv_ref());
    assert_ne!(dr & rr, 0);
    d.clear_data_bit(INVALID_INDEX, MediaType::VIDEO);
    d.clear_read_bit(INVALID_INDEX, MediaType::AV);
    d.clear_data_bit(16, MediaType::AUDIO);
    assert_eq!((d.data_ref(), d.recv_ref()), (dr, rr));
    d.clear_data_bit(0, MediaType::VIDEO);
    assert_eq!(d.data_ref() & 0b10, 0);
    d.clear_read_bit(0, MediaType::VIDEO);
    assert_eq!(d.recv_ref() & 0b10, 0);
}

#[test]
fn wakeup_kind_follows_the_kind_asked() {
    let mut d = Dispatcher::new(400, 50);
    let mut r = Receiver::with_id(6);
    d.attach_receiver(&mut r).unwrap();
    r.prepare_read(&mut d, MediaType::AV);
    let c = d.notifier(6).unwrap();
    assert!(c.is_mix_receiver());
    assert_eq!(c.notify_data_receiver(MediaType::AUDIO), (6, MediaType::AUDIO));
    assert_eq!(c.notify_data_receiver(MediaType::VIDEO), (6, MediaType::VIDEO));
    assert_eq!(c.notify_data_receiver(MediaType::AV), (6, MediaType::AV));
}

#[test]
fn key_flag_before_attach_carries_into_the_cursor() {
    let mut d = Dispatcher::new(400, 50);
    let mut r = Receiver::with_id(3);
    r.set_key_only(true);
    assert!(r.is_key_read());
    d.attach_receiver(&mut r).unwrap();
    assert!(d.notifier(3).unwrap().is_key_receiver());
}

#[test]
fn new_key_frame_does_not_skip_a_lagging_consumer() {
    let mut d = Dispatcher::new(400, 50);
    let mut c = Receiver::with_id(1);
    let mut idle = Receiver::with_id(2);
    d.attach_receiver(&mut c).unwrap();
    d.attach_receiver(&mut idle).unwrap();
    d.input_data(frame(MediaType::VIDEO, 0, true));
    d.notify_read_ready(1, MediaType::VIDEO);
    assert_eq!(d.read_buffer_data(1, MediaType::VIDEO).1.unwrap().pts, 0);
    d.input_data(frame(MediaType::VIDEO, 1, false));
    d.input_data(frame(MediaType::VIDEO, 2, false));
    d.input_data(frame(MediaType::VIDEO, 3, true));
    assert_eq!(d.notifier(1).unwrap().video_index, 0);
    assert!(d.notify_read_ready(1, MediaType::VIDEO));
    let mut seen = Vec::new();
    loop {
        let (ok, f) = d.read_buffer_data(1, MediaType::VIDEO);
        if !ok {
            break;
        }
        seen.push(f.unwrap().pts);
    }
    assert_eq!(seen, vec![1, 2, 3]);
}

#[test]
fn read_test_for_no_slot_is_false() {
    let mut d = Dispatcher::new(400, 50);
    let mut c = Receiver::with_id(1);
    d.attach_receiver(&mut c).unwrap();
    d.input_data(frame(MediaType::VIDEO, 0, true));
    d.notify_read_ready(1, MediaType::VIDEO);
    d.read_buffer_data(1, MediaType::VIDEO);
    assert!(d.is_read(0, 0));
    assert!(!d.is_read(INVALID_INDEX, 0));
    assert!(!d.is_read(1, 0));
    assert!(d.is_read(INVALID_INDEX, 5));
}
