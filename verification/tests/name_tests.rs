use memscan::process::{entry_name_matches, wide_name};

fn field(name: &str, len: usize) -> Vec<u16> {
    let mut f: Vec<u16> = name.encode_utf16().collect();
    f.resize(len, 0);
    f
}

#[test]
fn wide_name_is_utf16_with_terminator() {
    let w = wide_name("RobloxPlayerBeta.exe");
    let mut expected: Vec<u16> = "RobloxPlayerBeta.exe".encode_utf16().collect();
    expected.push(0);
    assert_eq!(w, expected);
    assert_eq!(wide_name(""), vec![0]);
}

#[test]
fn wide_name_uses_surrogate_pairs() {
    assert_eq!(wide_name("a\u{1F600}é"), vec![0x61, 0xD83D, 0xDE00, 0xE9, 0]);
}

#[test]
fn entry_with_same_name_matches() {
    let target = wide_name("RobloxPlayerBeta.exe");
    assert!(entry_name_matches(&target, &field("RobloxPlayerBeta.exe", 260)));
}

#[test]
fn entry_with_longer_name_does_not_match() {
    let target = wide_name("Roblox.exe");
    assert!(!entry_name_matches(&target, &field("Roblox.exe.bak", 260)));
    assert!(!entry_name_matches(&target, &field("explorer.exe", 260)));
}

#[test]
fn matching_is_case_sensitive() {
    let target = wide_name("roblox.exe");
    assert!(!entry_name_matches(&target, &field("Roblox.exe", 256)));
}
