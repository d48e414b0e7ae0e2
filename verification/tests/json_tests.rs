use opuscast::json::{get_metadata_json, u64_to_dec};
use opuscast::pages::OggPage;
use opuscast::player::{ActiveFileMetadata, OpusPlayer, TimeData};

#[test]
fn decimal_formatting_is_exact() {
    assert_eq!(u64_to_dec(0), "0");
    assert_eq!(u64_to_dec(7), "7");
    assert_eq!(u64_to_dec(10), "10");
    assert_eq!(u64_to_dec(48000), "48000");
    assert_eq!(u64_to_dec(u64::MAX), "18446744073709551615");
}

#[test]
fn metadata_json_is_exact() {
    let m = ActiveFileMetadata {
        id: 3,
        start_granule_position: 0,
        title: "Night Air".to_string(),
        author: "Someone".to_string(),
        image: Some("/playlist-image".to_string()),
        duration_ms: 2000,
    };
    let t = TimeData { start_time_ms: 150, current_time_ms: 420 };
    let json = get_metadata_json(&m, &t);
    assert_eq!(
        json,
        "{\"id\":\"3\",\"title\":\"Night Air\",\"author\":\"Someone\",\
         \"active_file_duration_ms\":2000,\"active_file_start_time_ms\":150,\
         \"active_file_current_time_ms\":420,\"buffer_size_ms\":3000,\
         \"image\":\"/playlist-image\"}"
    );
}

#[test]
fn metadata_json_without_image_is_null() {
    let m = ActiveFileMetadata {
        id: 1,
        start_granule_position: 0,
        title: "T".to_string(),
        author: "A".to_string(),
        image: None,
        duration_ms: 0,
    };
    let t = TimeData { start_time_ms: 0, current_time_ms: 0 };
    let json = get_metadata_json(&m, &t);
    assert_eq!(
        json,
        "{\"id\":\"1\",\"title\":\"T\",\"author\":\"A\",\"active_file_duration_ms\":0,\
         \"active_file_start_time_ms\":0,\"active_file_current_time_ms\":0,\
         \"buffer_size_ms\":3000,\"image\":null}"
    );
}

#[test]
fn interrupt_bumps_the_id_seen_by_metadata_clients() {
    // After a newer track pre-empts, the JSON broadcast carries the new
    // track's id: one past the old.
    let mut player = OpusPlayer::new();
    let pages: Vec<OggPage> = Vec::new();
    let _a = player.start_playback("a.opus", &pages).expect("start");
    let _b = player.start_playback("b.opus", &pages).expect("start");
    let m = player.get_metadata().expect("metadata");
    assert_eq!(m.id, 2);
    let t = player.get_stream_time_data();
    let json = get_metadata_json(&m, &t);
    assert!(json.starts_with("{\"id\":\"2\","));
}
