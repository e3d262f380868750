use espectro::scan::{FileScanner, ScanProgress};
use espectro::security::SecurityValidator;

#[test]
fn test_sanitize_metadata() {
    assert_eq!(
        SecurityValidator::sanitize_metadata("Artist <script>alert('xss')</script>"),
        "Artist scriptalert'xss'script"
    );
    assert_eq!(
        SecurityValidator::sanitize_metadata("Normal Artist Name"),
        "Normal Artist Name"
    );
}

#[test]
fn test_path_traversal_detection() {
    let bad_path = "../../../etc/passwd";
    assert!(SecurityValidator::validate_path_safety(bad_path).is_err());
}

#[test]
fn test_path_safety_accepts_absolute() {
    assert!(SecurityValidator::validate_path_safety("/music/album").is_ok());
    assert!(SecurityValidator::validate_path_safety("music/album").is_err());
}

#[test]
fn test_cover_art_validation() {
    let jpeg = [0xFFu8, 0xD8, 0x00, 0x00];
    assert!(SecurityValidator::validate_cover_art(&jpeg).is_ok());
    let png = [0x89u8, 0x50, 0x4E, 0x47];
    assert!(SecurityValidator::validate_cover_art(&png).is_ok());
    let gif = [0x47u8, 0x49, 0x46, 0x38];
    assert!(SecurityValidator::validate_cover_art(&gif).is_ok());
    let webp = [0x52u8, 0x49, 0x46, 0x46];
    assert!(SecurityValidator::validate_cover_art(&webp).is_ok());
    let junk = [0x00u8, 0x01, 0x02, 0x03];
    assert!(SecurityValidator::validate_cover_art(&junk).is_err());
    let short = [0xFFu8, 0xD8];
    assert!(SecurityValidator::validate_cover_art(&short).is_err());
    let huge = vec![0xFFu8; 10485761];
    assert!(SecurityValidator::validate_cover_art(&huge).is_err());
}

#[test]
fn test_is_audio_file() {
    let scanner = FileScanner::new();
    assert!(scanner.is_audio_file("/music/song.mp3"));
    assert!(scanner.is_audio_file("/music/SONG.FLAC"));
    assert!(scanner.is_audio_file("/music/a.b.opus"));
    assert!(!scanner.is_audio_file("/music/readme.txt"));
    assert!(!scanner.is_audio_file("/music/.mp3"));
    assert!(!scanner.is_audio_file("/music/song"));
    assert!(!scanner.is_audio_file("song.mp3x"));
}

#[test]
fn test_scan_progress() {
    let p = ScanProgress::new(10, 0, "/music/a.mp3".to_string());
    assert_eq!(p.current, 10);
    assert_eq!(p.total, 0);
    assert_eq!(p.current_file, "/music/a.mp3");
    let done = ScanProgress::completed(42);
    assert_eq!(done.current, 42);
    assert_eq!(done.total, 42);
    assert!(done.current_file.is_empty());
}
