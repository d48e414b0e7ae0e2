use opuscast::pages::{OggPage, OggSegment};
use opuscast::player::{
    OpusPlayer, OpusPlayerEvent, PacketPlan, MAX_HEADSTART_BUFFER_SIZE,
};

fn simple_page(flags: u8, granule: u64, segments: Vec<&[u8]>) -> OggPage {
    OggPage {
        signature: "OggS".to_string(),
        version: 0,
        flags,
        granule_position: granule,
        serial_number: 61,
        sequence_number: 0,
        checksum: 0,
        total_segments: segments.len() as u8,
        segments: segments
            .into_iter()
            .map(|s| OggSegment { size: s.len() as u8, data: s.to_vec() })
            .collect(),
    }
}

fn headstart_samples(player: &OpusPlayer) -> usize {
    2 * player.headstart_buffer.iter().map(|f| f.samples).sum::<usize>()
}

#[test]
fn cold_start_headstart_is_empty() {
    // A listener registered before any playback sees no headstart at all.
    let mut player = OpusPlayer::new();
    let (tx, _rx) = tokio::sync::mpsc::channel::<OpusPlayerEvent>(16);
    player.add_listener(tx);
    assert_eq!(player.get_headstart_data().len(), 0);
    let t = player.get_stream_time_data();
    assert_eq!(t.start_time_ms, 0);
    assert_eq!(t.current_time_ms, 0);
}

#[test]
fn headstart_fills_then_saturates() {
    // 20 ms frames: after 150 of them the window holds exactly its cap;
    // one more slides the window instead of growing it.
    let mut player = OpusPlayer::new();
    let pages: Vec<OggPage> = Vec::new();
    let _state = player.start_playback("a.opus", &pages).expect("start should succeed");
    for _ in 0..150 {
        player.process_decoded_frame(960, vec![1, 2, 3]);
    }
    assert_eq!(headstart_samples(&player), 960 * 2 * 150);
    assert_eq!(headstart_samples(&player), MAX_HEADSTART_BUFFER_SIZE);
    assert_eq!(player.headstart_granule_position, 0);
    assert_eq!(player.granule_position, 960 * 150);

    player.process_decoded_frame(960, vec![4, 5, 6]);
    assert_eq!(headstart_samples(&player), MAX_HEADSTART_BUFFER_SIZE);
    assert_eq!(player.headstart_granule_position, 960);
    assert_eq!(player.granule_position, 960 * 151);
}

#[test]
fn pacing_is_skipped_until_the_window_fills() {
    let mut player = OpusPlayer::new();
    let pages: Vec<OggPage> = Vec::new();
    let _state = player.start_playback("a.opus", &pages).expect("start should succeed");
    for _ in 0..150 {
        let outcome = player.process_decoded_frame(960, vec![0]);
        assert_eq!(outcome.sleep_ms, 0);
    }
}

#[test]
fn headstart_frames_carry_contiguous_granules() {
    let mut player = OpusPlayer::new();
    let pages: Vec<OggPage> = Vec::new();
    let _state = player.start_playback("a.opus", &pages).expect("start should succeed");
    for i in 0..3 {
        player.process_decoded_frame(960, vec![i as u8]);
    }
    let events = player.get_headstart_data();
    assert_eq!(events.len(), 3);
    let mut expected_granule = 960u64;
    for (i, ev) in events.iter().enumerate() {
        let OpusPlayerEvent::AudioData { raw_opus_data, granule_position } = ev;
        assert_eq!(raw_opus_data, &vec![i as u8]);
        assert_eq!(*granule_position, expected_granule);
        expected_granule += 960;
    }
}

#[test]
fn interrupt_hands_the_engine_to_the_newer_track() {
    // Two playbacks: the older one's packets are refused once the newer one
    // owns the engine, and the timeline keeps counting across both.
    let mut player = OpusPlayer::new();
    let pages_a = vec![
        simple_page(2, 0, vec![b"OpusHead"]),
        simple_page(0, 960, vec![b"audio-a1", b"audio-a2"]),
    ];
    let mut state_a = player.start_playback("a.opus", &pages_a).expect("start a");
    assert_eq!(state_a.file_id, 1);
    let meta_a = player.get_metadata().expect("metadata after start");
    assert_eq!(meta_a.id, 1);
    assert_eq!(meta_a.start_granule_position, 0);

    // The first packet is the identity header: skipped, not re-broadcast.
    assert!(matches!(player.plan_next_packet(&mut state_a), PacketPlan::Skip));
    // The next is audio.
    match player.plan_next_packet(&mut state_a) {
        PacketPlan::Decode(p) => assert_eq!(p, b"audio-a1".to_vec()),
        _ => panic!("expected an audio packet"),
    }
    player.process_decoded_frame(960, vec![1]);

    // A newer track arrives before the first finishes.
    let pages_b = vec![simple_page(2, 0, vec![b"OpusHead"])];
    let mut state_b = player.start_playback("b.opus", &pages_b).expect("start b");
    assert_eq!(state_b.file_id, 2);

    // The old track's next packet is refused.
    assert!(matches!(player.plan_next_packet(&mut state_a), PacketPlan::Interrupted));
    // The new track's metadata is what a reader now sees, started at the
    // granule the old track reached.
    let meta_b = player.get_metadata().expect("metadata after interrupt");
    assert_eq!(meta_b.id, 2);
    assert_eq!(meta_b.start_granule_position, 960);

    // The new track plays on the same timeline.
    assert!(matches!(player.plan_next_packet(&mut state_b), PacketPlan::Skip));
    assert!(matches!(player.plan_next_packet(&mut state_b), PacketPlan::Eof));
    player.process_decoded_frame(960, vec![2]);
    assert_eq!(player.granule_position, 1920);
}

#[test]
fn slow_listener_is_evicted_and_fast_ones_keep_every_frame() {
    let mut player = OpusPlayer::new();
    let pages: Vec<OggPage> = Vec::new();
    let _state = player.start_playback("a.opus", &pages).expect("start");

    let (slow_tx, _slow_rx) = tokio::sync::mpsc::channel::<OpusPlayerEvent>(2);
    let (fast_tx, mut fast_rx) = tokio::sync::mpsc::channel::<OpusPlayerEvent>(64);
    player.add_listener(slow_tx);
    player.add_listener(fast_tx);
    assert_eq!(player.listener_count(), 2);

    // The slow listener's channel holds two frames; the third send fails and
    // evicts it before anything further is published.
    player.process_decoded_frame(960, vec![1]);
    player.process_decoded_frame(960, vec![2]);
    assert_eq!(player.listener_count(), 2);
    player.process_decoded_frame(960, vec![3]);
    assert_eq!(player.listener_count(), 1);
    player.process_decoded_frame(960, vec![4]);
    assert_eq!(player.listener_count(), 1);

    // The fast listener received all four frames, in granule order.
    let mut granules = Vec::new();
    let mut payloads = Vec::new();
    while let Ok(ev) = fast_rx.try_recv() {
        let OpusPlayerEvent::AudioData { raw_opus_data, granule_position } = ev;
        granules.push(granule_position);
        payloads.push(raw_opus_data);
    }
    assert_eq!(payloads, vec![vec![1], vec![2], vec![3], vec![4]]);
    assert_eq!(granules, vec![960, 1920, 2880, 3840]);
    // Published granule positions strictly increase.
    for w in granules.windows(2) {
        assert!(w[1] > w[0]);
    }
}

#[test]
fn late_joiners_see_coherent_timelines() {
    // Two listeners joining at different granules each get a headstart whose
    // last granule is their join granule, then live frames continuing right
    // after it; where their live tails overlap, the frames agree.
    let mut player = OpusPlayer::new();
    let pages: Vec<OggPage> = Vec::new();
    let _state = player.start_playback("a.opus", &pages).expect("start");

    for i in 0..200u64 {
        player.process_decoded_frame(960, vec![i as u8]);
    }
    let join_a = player.granule_position;
    let (tx_a, mut rx_a) = tokio::sync::mpsc::channel::<OpusPlayerEvent>(1024);
    let head_a = player.get_headstart_data();
    player.add_listener(tx_a);
    let OpusPlayerEvent::AudioData { granule_position: last_a, .. } =
        head_a.last().expect("headstart should not be empty");
    assert_eq!(*last_a, join_a);

    for i in 200..300u64 {
        player.process_decoded_frame(960, vec![i as u8]);
    }
    let join_b = player.granule_position;
    let (tx_b, mut rx_b) = tokio::sync::mpsc::channel::<OpusPlayerEvent>(1024);
    let head_b = player.get_headstart_data();
    player.add_listener(tx_b);
    let OpusPlayerEvent::AudioData { granule_position: last_b, .. } =
        head_b.last().expect("headstart should not be empty");
    assert_eq!(*last_b, join_b);

    for i in 300..320u64 {
        player.process_decoded_frame(960, vec![i as u8]);
    }

    // Listener A's live tail starts right after its join granule.
    let mut tail_a = Vec::new();
    while let Ok(OpusPlayerEvent::AudioData { raw_opus_data, granule_position }) = rx_a.try_recv()
    {
        tail_a.push((granule_position, raw_opus_data));
    }
    assert_eq!(tail_a[0].0, join_a + 960);
    let mut tail_b = Vec::new();
    while let Ok(OpusPlayerEvent::AudioData { raw_opus_data, granule_position }) = rx_b.try_recv()
    {
        tail_b.push((granule_position, raw_opus_data));
    }
    assert_eq!(tail_b[0].0, join_b + 960);

    // Where both were listening, they saw the same frames.
    for (g, data) in &tail_b {
        let matching = tail_a.iter().find(|(ga, _)| ga == g).expect("overlap frame");
        assert_eq!(&matching.1, data);
    }
}

#[test]
fn current_time_is_non_decreasing() {
    let mut player = OpusPlayer::new();
    let pages: Vec<OggPage> = Vec::new();
    let _state = player.start_playback("a.opus", &pages).expect("start");
    let mut last = player.get_stream_time_data().current_time_ms;
    for _ in 0..200 {
        player.process_decoded_frame(960, vec![0]);
        let now = player.get_stream_time_data().current_time_ms;
        assert!(now >= last);
        last = now;
    }
    // 200 frames of 20 ms is 4000 ms produced; a listener hears that less
    // the 3000 ms lead.
    assert_eq!(last, 1000);
}

#[test]
fn metadata_comes_from_the_stream_tags() {
    let mut tag_packet = Vec::new();
    tag_packet.extend_from_slice(b"OpusTags");
    tag_packet.extend_from_slice(&1u32.to_le_bytes());
    tag_packet.extend_from_slice(b"v");
    tag_packet.extend_from_slice(&2u32.to_le_bytes());
    for e in ["TITLE=Night Air", "ARTIST=Someone"] {
        tag_packet.extend_from_slice(&(e.len() as u32).to_le_bytes());
        tag_packet.extend_from_slice(e.as_bytes());
    }
    let pages = vec![
        simple_page(2, 0, vec![b"OpusHead"]),
        simple_page(0, 0, vec![&tag_packet]),
        simple_page(0, 96000, vec![b"audio"]),
    ];
    let mut player = OpusPlayer::new();
    let _state = player.start_playback("/music/list/a.opus", &pages).expect("start");
    let meta = player.get_metadata().expect("metadata");
    assert_eq!(meta.title, "Night Air");
    assert_eq!(meta.author, "Someone");
    assert_eq!(meta.duration_ms, 2000);
    assert_eq!(meta.image, Some("/playlist-image".to_string()));
    assert_eq!(player.get_playlist_path(), Some("/music/list".to_string()));
}

#[test]
fn unreadable_tags_fall_back_to_unknown() {
    let pages = vec![simple_page(2, 0, vec![b"OpusHead"])];
    let mut player = OpusPlayer::new();
    let _state = player.start_playback("a.opus", &pages).expect("start");
    let meta = player.get_metadata().expect("metadata");
    assert_eq!(meta.title, "Unknown Title");
    assert_eq!(meta.author, "Unknown Author");
}

#[test]
fn start_playback_never_rewinds_the_timeline() {
    let mut player = OpusPlayer::new();
    let pages: Vec<OggPage> = Vec::new();
    let _s1 = player.start_playback("a.opus", &pages).expect("start");
    for _ in 0..10 {
        player.process_decoded_frame(960, vec![0]);
    }
    let buffered = headstart_samples(&player);
    let _s2 = player.start_playback("b.opus", &pages).expect("start");
    assert_eq!(player.granule_position, 9600);
    assert_eq!(headstart_samples(&player), buffered);
    // The first frame of the new track continues right after granule 9600.
    player.process_decoded_frame(960, vec![1]);
    assert_eq!(player.granule_position, 9600 + 960);
}
