use z_play::file_kind::FileKind;
use z_play::queue_stats::QueueStats;
use z_play::request::after_precache;
use z_play::request::check_decoded;
use z_play::request::triage;
use z_play::request::validate_path;
use z_play::request::Disposition;
use z_play::request::PathCheck;
use z_play::request::Precache;
use z_play::request::Precached;
use z_play::request::PRECACHE_CHUNK_BYTES;
use z_play::request::PRECACHE_READ_BYTES;
use z_play::roots::RootSet;

#[test]
fn kinds_by_extension() {
    assert_eq!(FileKind::from_extension("jpg"), Some(FileKind::Image));
    assert_eq!(FileKind::from_extension("tiff"), Some(FileKind::Image));
    assert_eq!(FileKind::from_extension("mp4"), Some(FileKind::Video));
    assert_eq!(FileKind::from_extension("mpeg"), Some(FileKind::Video));
    assert_eq!(FileKind::from_extension("mp3"), Some(FileKind::Audio));
    assert_eq!(FileKind::from_extension("aac"), Some(FileKind::Audio));
    assert_eq!(FileKind::from_extension("txt"), None);
    assert_eq!(FileKind::from_extension(""), None);
}

#[test]
fn every_listed_extension_has_its_kind() {
    for ext in ["jpg", "jpeg", "png", "gif", "bmp", "webp", "svg", "tiff"] {
        assert_eq!(FileKind::from_lowercase(ext), Some(FileKind::Image));
    }
    for ext in ["mp4", "mkv", "webm", "avi", "mov", "wmv", "flv", "mpeg"] {
        assert_eq!(FileKind::from_lowercase(ext), Some(FileKind::Video));
    }
    for ext in ["mp3", "wav", "ogg", "m4a", "flac", "aac"] {
        assert_eq!(FileKind::from_lowercase(ext), Some(FileKind::Audio));
    }
}

#[test]
fn extension_case_does_not_matter() {
    assert_eq!(FileKind::from_extension("JPG"), Some(FileKind::Image));
    assert_eq!(FileKind::from_extension("Mp4"), Some(FileKind::Video));
    assert_eq!(FileKind::from_lowercase("JPG"), None);
    assert_eq!(FileKind::from_path("/m/Song.FLAC"), Some(FileKind::Audio));
}

#[test]
fn kind_by_path() {
    assert_eq!(FileKind::from_path("/m/a/clip.mkv"), Some(FileKind::Video));
    assert_eq!(FileKind::from_path("/m/a.b/pic.archive.png"), Some(FileKind::Image));
    assert_eq!(FileKind::from_path("/m/a.mp4/readme"), None);
    assert_eq!(FileKind::from_path("/m/.mp4"), None);
    assert_eq!(FileKind::from_path("/m/notes.txt"), None);
    assert_eq!(FileKind::from_path("mp4"), None);
}

#[test]
fn stats_count_by_kind() {
    let mut stats = QueueStats::new();
    stats.push_path("/a.mp4");
    stats.push_path("/b.mkv");
    stats.push_path("/c.png");
    stats.push_path("/d.ogg");
    stats.push_path("/e.txt");
    assert_eq!(stats, QueueStats { video_count: 2, image_count: 1, audio_count: 1 });
    stats.remove_path("/a.mp4");
    stats.remove_path("/e.txt");
    assert_eq!(stats, QueueStats { video_count: 1, image_count: 1, audio_count: 1 });
    stats.push_kind(Some(FileKind::Audio));
    stats.remove_kind(Some(FileKind::Image));
    stats.push_kind(None);
    assert_eq!(stats, QueueStats { video_count: 1, image_count: 0, audio_count: 2 });
    stats.reset();
    assert_eq!(stats, QueueStats::new());
}

#[test]
fn stats_wrap_around() {
    let mut stats = QueueStats::new();
    stats.remove_path("/a.mp4");
    assert_eq!(stats.video_count, usize::MAX);
    stats.push_path("/a.mp4");
    assert_eq!(stats.video_count, 0);
}

#[test]
fn triage_by_roots_and_kinds() {
    let none: Vec<String> = Vec::new();
    let any: Vec<FileKind> = Vec::new();
    let music = vec!["/music".to_string(), "/more".to_string()];
    let audio = vec![FileKind::Audio];
    assert_eq!(triage("/music/a.mp3", &none, &any), Disposition::Serve);
    assert_eq!(triage("/music/a.mp3", &music, &any), Disposition::Serve);
    assert_eq!(triage("/more/a.mp3", &music, &audio), Disposition::Serve);
    assert_eq!(triage("/video/a.mp4", &music, &any), Disposition::Discard);
    assert_eq!(triage("/video/a.mp3", &music, &audio), Disposition::Discard);
    assert_eq!(triage("/music/a.mp4", &music, &audio), Disposition::Requeue);
    assert_eq!(triage("/music/a.mp4", &none, &audio), Disposition::Requeue);
    // A file of no known kind is served whatever kinds were asked for.
    assert_eq!(triage("/music/a.txt", &music, &audio), Disposition::Serve);
    assert_eq!(
        triage("/music/a.png", &none, &vec![FileKind::Video, FileKind::Image]),
        Disposition::Serve
    );
}

#[test]
fn after_reading_ahead() {
    assert_eq!(after_precache(Precached::Done), Some(Disposition::Serve));
    assert_eq!(after_precache(Precached::Failed), None);
    assert_eq!(after_precache(Precached::TimedOut), Some(Disposition::Requeue));
}

#[test]
fn reading_ahead_stops_at_eight_mebibytes() {
    assert_eq!(PRECACHE_READ_BYTES, 8_388_608);
    assert_eq!(PRECACHE_CHUNK_BYTES, 1_048_576);
    let mut precache = Precache::new();
    assert!(precache.wants_more());
    for _ in 0..7 {
        assert!(precache.on_read(PRECACHE_CHUNK_BYTES));
    }
    assert_eq!(precache.remaining, 1_048_576);
    assert!(!precache.on_read(PRECACHE_CHUNK_BYTES));
    assert_eq!(precache.remaining, 0);
    assert!(!precache.wants_more());
}

#[test]
fn reading_ahead_stops_at_the_end_of_the_file() {
    let mut precache = Precache::new();
    assert!(precache.on_read(10));
    assert_eq!(precache.remaining, 8_388_598);
    assert!(!precache.on_read(0));
    assert_eq!(precache.remaining, 8_388_598);
    let mut short = Precache { remaining: 5 };
    assert!(!short.on_read(9));
    assert_eq!(short.remaining, 0);
}

#[test]
fn request_paths_are_decoded_and_checked() {
    let roots = RootSet::new(vec!["/my media".to_string()]);
    assert_eq!(validate_path("/my%20media/a.mp4", &roots), PathCheck::Allowed);
    assert_eq!(validate_path("%2Fmy%20media%2Fa.mp4", &roots), PathCheck::Allowed);
    assert_eq!(validate_path("/my media/a.mp4", &roots), PathCheck::Allowed);
    assert_eq!(validate_path("/my%20medias/a.mp4", &roots), PathCheck::NotFound);
    assert_eq!(validate_path("/my+media/a.mp4", &roots), PathCheck::NotFound);
    assert_eq!(validate_path("/etc/passwd", &roots), PathCheck::NotFound);
    // Bytes that are no UTF-8 cannot be decoded.
    assert_eq!(validate_path("/my%20media/%FF", &roots), PathCheck::BadRequest);
}

#[test]
fn decoded_paths_are_checked_against_the_roots_in_use() {
    let mut roots = RootSet::new(vec!["/a".to_string(), "/b".to_string()]);
    roots.set_enabled("/b", false);
    assert_eq!(check_decoded(&Some("/a/x".to_string()), &roots), PathCheck::Allowed);
    assert_eq!(check_decoded(&Some("/b/x".to_string()), &roots), PathCheck::NotFound);
    assert_eq!(check_decoded(&None, &roots), PathCheck::BadRequest);
}
