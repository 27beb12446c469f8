use subsforge::naming::{file_title, srt_path};

#[test]
fn test_srt_path() {
    let p = srt_path("/media/Movie (2024).mkv", "fr");
    assert_eq!(p, "/media/Movie (2024).fr.srt");
}

#[test]
fn test_srt_path_series() {
    let p = srt_path("/tv/Show S01E01.mkv", "en");
    assert_eq!(p, "/tv/Show S01E01.en.srt");
}

#[test]
fn srt_path_of_relative_file() {
    assert_eq!(srt_path("clip.mp4", "de"), "clip.de.srt");
    assert_eq!(srt_path("/a/b.c.mkv", "ja"), "/a/b.c.ja.srt");
}

#[test]
fn file_title_is_the_stem() {
    assert_eq!(file_title("/media/Movie (2024).mkv"), "Movie (2024)");
    assert_eq!(file_title("/media/"), "media");
    assert_eq!(file_title("/"), "");
}
