use gravity_engine::buttons::{button_file_name, download_plan, extract_image_urls, merge_galleries};
use gravity_engine::shuffle::shuffle_indices;

fn strings(v: &[&str]) -> Vec<String> {
    v.iter().map(|s| s.to_string()).collect()
}

fn is_perm(v: &[usize], n: usize) -> bool {
    let mut seen = vec![false; n];
    if v.len() != n {
        return false;
    }
    for &x in v {
        if x >= n || seen[x] {
            return false;
        }
        seen[x] = true;
    }
    true
}

#[test]
fn shuffle_matches_generator() {
    assert_eq!(shuffle_indices(2, 0), vec![0, 1]);
    assert_eq!(shuffle_indices(5, 0), vec![4, 3, 1, 0, 2]);
    assert_eq!(shuffle_indices(5, 123456789), vec![0, 2, 1, 3, 4]);
    assert_eq!(shuffle_indices(8, 42), vec![0, 5, 1, 7, 3, 4, 2, 6]);
}

#[test]
fn shuffle_edge_sizes() {
    assert_eq!(shuffle_indices(0, 99), Vec::<usize>::new());
    assert_eq!(shuffle_indices(1, 99), vec![0]);
}

#[test]
fn shuffle_is_permutation_law() {
    for n in 0..40usize {
        for seed in [0u64, 1, 7, 1_000_003, u64::MAX] {
            assert!(is_perm(&shuffle_indices(n, seed), n));
        }
    }
}

#[test]
fn scrape_resolves_and_dedups() {
    let html = "<p><img src=\"./a.gif\"><img src=\"/b.png\"> <img src=\"http://x.org/c.jpg\">\
                <img src=\"a.gif\"><img src=\"d.bmp\"><img src=\"././//e.gif\"></p>";
    let urls = extract_image_urls(html, "https://site/88/");
    assert_eq!(
        urls,
        strings(&[
            "https://site/88/a.gif",
            "https://site/88/b.png",
            "http://x.org/c.jpg",
            "https://site/88/e.gif",
        ])
    );
}

#[test]
fn scrape_first_piece_and_unclosed() {
    // the text before the first marker is examined too
    let urls = extract_image_urls("x.png\" src=\"y.gif", "B/");
    assert_eq!(urls, strings(&["B/x.png"]));
    assert_eq!(extract_image_urls("", "B/"), Vec::<String>::new());
    // case matters for the extension
    assert_eq!(extract_image_urls("src=\"A.GIF\"", "B/"), Vec::<String>::new());
    // "http" prefix keeps the source verbatim, even without "://"
    assert_eq!(extract_image_urls("src=\"httpish.png\"", "B/"), strings(&["httpish.png"]));
}

#[test]
fn merge_collapses_adjacent_repeats_only() {
    let a = strings(&["u1", "u2", "u2"]);
    let b = strings(&["u2", "u3", "u1"]);
    assert_eq!(merge_galleries(a, b), strings(&["u1", "u2", "u3", "u1"]));
    assert_eq!(merge_galleries(vec![], vec![]), Vec::<String>::new());
}

#[test]
fn plan_takes_count_distinct_positions() {
    let urls = strings(&["a", "b", "c", "d", "e"]);
    let plan = download_plan(&urls, 0, 3);
    // shuffled order for 5 and seed 0 is [4, 3, 1, 0, 2]
    assert_eq!(plan, strings(&["e", "d", "b"]));
    let all = download_plan(&urls, 0, 20);
    assert_eq!(all.len(), 5);
    let mut sorted = all.clone();
    sorted.sort();
    assert_eq!(sorted, urls);
    assert_eq!(download_plan(&vec![], 5, 20), Vec::<String>::new());
}

#[test]
fn file_names_of_buttons() {
    assert_eq!(button_file_name("https://h/88x31/cool.gif"), "cool.gif");
    assert_eq!(button_file_name("plain"), "plain");
    assert_eq!(button_file_name("https://h/dir/"), "");
}

#[test]
fn merge_keeps_every_url() {
    let a = strings(&["x", "y", "y", "z"]);
    let b = strings(&["z", "w"]);
    let m = merge_galleries(a.clone(), b.clone());
    for u in a.iter().chain(b.iter()) {
        assert!(m.contains(u));
    }
    for u in &m {
        assert!(a.contains(u) || b.contains(u));
    }
    assert_eq!(m, strings(&["x", "y", "z", "w"]));
}
