use tokenicode_core::decode::{decode_project_name, encode_project_path, Fs};

fn snapshot(paths: &[&str]) -> Fs {
    let mut fs = Fs::new();
    for p in paths {
        fs.add(p);
    }
    fs
}

#[test]
fn test_simple_path() {
    let fs = snapshot(&[
        "/Users",
        "/Users/tinyzhuang",
        "/Users/tinyzhuang/Documents",
        "/Users/tinyzhuang/Documents/FocusZone",
    ]);
    let result = decode_project_name("-Users-tinyzhuang-Documents-FocusZone", &fs);
    assert_eq!(result, "/Users/tinyzhuang/Documents/FocusZone");
}

#[test]
fn test_hyphenated_dir() {
    // ppt-maker exists as a directory with a hyphen in its name
    let fs = snapshot(&[
        "/Users",
        "/Users/tinyzhuang",
        "/Users/tinyzhuang/Desktop",
        "/Users/tinyzhuang/Desktop/ppt-maker",
    ]);
    let result = decode_project_name("-Users-tinyzhuang-Desktop-ppt-maker", &fs);
    assert_eq!(result, "/Users/tinyzhuang/Desktop/ppt-maker");
}

#[test]
fn test_hidden_dir_double_dash() {
    // FocusZone/.cli-worktrees/condescending-brown
    // "/" becomes "-", "." becomes an empty token making "--"
    let fs = snapshot(&[
        "/Users",
        "/Users/tinyzhuang",
        "/Users/tinyzhuang/Documents",
        "/Users/tinyzhuang/Documents/FocusZone",
        "/Users/tinyzhuang/Documents/FocusZone/.cli-worktrees",
        "/Users/tinyzhuang/Documents/FocusZone/.cli-worktrees/condescending-brown",
    ]);
    let result = decode_project_name(
        "-Users-tinyzhuang-Documents-FocusZone--cli-worktrees-condescending-brown",
        &fs,
    );
    println!("Result: {}", result);
    assert!(result.contains(".cli"), "Expected .cli in path, got: {}", result);
}

#[test]
fn test_nested_subdir() {
    let fs = snapshot(&[
        "/Users",
        "/Users/tinyzhuang",
        "/Users/tinyzhuang/Desktop",
        "/Users/tinyzhuang/Desktop/test",
        "/Users/tinyzhuang/Desktop/test/NiCode",
    ]);
    let result = decode_project_name("-Users-tinyzhuang-Desktop-test-NiCode", &fs);
    println!("Result: {}", result);
    assert!(result.starts_with("/Users/tinyzhuang/Desktop/test"));
}

#[test]
fn test_space_in_dir_name() {
    // "jd 设计" exists under Desktop
    let fs = snapshot(&[
        "/Users",
        "/Users/tinyzhuang",
        "/Users/tinyzhuang/Desktop",
        "/Users/tinyzhuang/Desktop/jd 设计",
    ]);
    let result = decode_project_name("-Users-tinyzhuang-Desktop-jd-设计", &fs);
    println!("Result: {}", result);
    assert_eq!(result, "/Users/tinyzhuang/Desktop/jd 设计");
}

#[test]
fn test_round_trip_clean_path() {
    // Encoding a real path whose every prefix exists, then decoding over a
    // snapshot free of ambiguous characters, restores the path exactly.
    let path = "/home/dev/projects/zone";
    let fs = snapshot(&["/home", "/home/dev", "/home/dev/projects", "/home/dev/projects/zone"]);
    let encoded = encode_project_path(path);
    assert_eq!(encoded, "-home-dev-projects-zone");
    assert_eq!(decode_project_name(&encoded, &fs), path);
}

#[test]
fn test_encode_collapses_all_three() {
    assert_eq!(encode_project_path("/a/b c/d.e"), "-a-b-c-d-e");
}

#[test]
fn test_longest_match_wins_over_split() {
    // Both the merged and the split directory exist: the widest window is
    // preferred, so the merged name wins.
    let fs = snapshot(&["/srv", "/srv/a-b", "/srv/a", "/srv/a/b"]);
    assert_eq!(decode_project_name("-srv-a-b", &fs), "/srv/a-b");
}

#[test]
fn test_fallback_without_filesystem() {
    // With nothing on the oracle every token falls back to one segment.
    let fs = Fs::new();
    assert_eq!(decode_project_name("-opt-data-cache", &fs), "/opt/data/cache");
}

#[test]
fn test_drive_letter_root() {
    let fs = snapshot(&["C:\\Users", "C:\\Users\\dev"]);
    assert_eq!(decode_project_name("C-Users-dev", &fs), "C:\\Users\\dev");
}

#[test]
fn test_trailing_dots_glued_to_last_segment() {
    // Trailing empty tokens append their dots to the last decoded segment.
    let fs = Fs::new();
    assert_eq!(decode_project_name("-tmp-work--", &fs), "/tmp/work..");
}

#[test]
fn test_dot_separator_inside_segment() {
    // A dot inside a directory name is recovered through the dot-join
    // candidate when the filesystem confirms it.
    let fs = snapshot(&["/srv", "/srv/app.conf"]);
    assert_eq!(decode_project_name("-srv-app-conf", &fs), "/srv/app.conf");
}
