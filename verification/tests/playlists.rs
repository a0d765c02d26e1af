use gravity_engine::playlist::{
    kept_tracks, parse_u32, path_is_absolute, playlist_dir, playlist_order, pls_candidates,
};

fn chars(s: &str) -> Vec<char> {
    s.chars().collect()
}

#[test]
fn parse_u32_like_std() {
    for s in ["0", "42", "+7", "4294967295", "4294967296", "", "+", "-1", "1 ", "00012", "1a"] {
        assert_eq!(parse_u32(&chars(s)), s.parse::<u32>().ok(), "{}", s);
    }
}

#[test]
fn candidates_of_a_playlist() {
    let content = "[playlist]\r\nFile1=song.mp3\r\n  file2 = http://radio/stream \nFILE3=/abs/x.ogg\nFile4\nFileX=bad.mp3\nTitle1=t\nFile+5=rtspish.mp3\n";
    let c = pls_candidates(content, "/music");
    let got: Vec<(u32, String, bool)> = c.into_iter().map(|c| (c.index, c.entry, c.is_url)).collect();
    assert_eq!(
        got,
        vec![
            (1, "/music/song.mp3".to_string(), false),
            (2, "http://radio/stream".to_string(), true),
            (3, "/abs/x.ogg".to_string(), false),
            (5, "/music/rtspish.mp3".to_string(), true),
        ]
    );
}

#[test]
fn candidates_with_empty_dir() {
    let c = pls_candidates("File1=a.mp3", "");
    assert_eq!(c.len(), 1);
    assert_eq!(c[0].entry, "a.mp3");
    assert!(pls_candidates("", "/d").is_empty());
}

#[test]
fn order_by_number_last_wins() {
    let entries = vec![
        (3, "c".to_string()),
        (1, "a".to_string()),
        (3, "c2".to_string()),
        (2, "b".to_string()),
        (10, "j".to_string()),
    ];
    assert_eq!(playlist_order(&entries), vec!["a", "b", "c2", "j"]);
    assert_eq!(playlist_order(&vec![]), Vec::<String>::new());
}

#[test]
fn dir_of_playlist() {
    assert_eq!(playlist_dir("/a/b/list.pls"), "/a/b");
    assert_eq!(playlist_dir("list.pls"), "");
    assert_eq!(playlist_dir("/"), "");
}

#[test]
fn urls_kept_local_files_only_when_present() {
    let content = "File1=a.mp3\nFile2=http://radio/x\nFile3=b.mp3\nFile1=c.mp3\n";
    let c = pls_candidates(content, "/m");
    assert_eq!(c.len(), 4);
    let kept = kept_tracks(c, &vec![false, false, true, true]);
    assert_eq!(
        kept,
        vec![(2, "http://radio/x".to_string()), (3, "/m/b.mp3".to_string()), (1, "/m/c.mp3".to_string())]
    );
    assert_eq!(playlist_order(&kept), vec!["/m/c.mp3", "http://radio/x", "/m/b.mp3"]);
}

#[test]
fn relative_targets_join_the_folder() {
    let c = pls_candidates("File1=sub/a.mp3\nFile2=/abs.mp3\n", "/m/");
    assert_eq!(c[0].entry, "/m/sub/a.mp3");
    assert_eq!(c[1].entry, "/abs.mp3");
    let d = pls_candidates("File1=b.ogg\n", "music");
    assert_eq!(d[0].entry, "music/b.ogg");
}

#[test]
fn absolute_paths_start_at_the_root() {
    assert!(path_is_absolute(&chars("/music/a.mp3")));
    assert!(path_is_absolute(&chars("/")));
    assert!(!path_is_absolute(&chars("music/a.mp3")));
    assert!(!path_is_absolute(&chars("")));
    assert!(!path_is_absolute(&chars("./a")));
}
