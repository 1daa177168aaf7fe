use agent_desktop_windows::ident::{parse_window_id, window_id};
use agent_desktop_windows::image_path::file_stem;
use agent_desktop_windows::utf16::{decode_utf16_lossy, encode_utf16};

#[test]
fn decoding_replaces_unpaired_surrogates() {
    let rows: Vec<Vec<u16>> = vec![
        vec![],
        vec![0x41],
        vec![0xD83D, 0xDE00],
        vec![0xD83D],
        vec![0xDE00],
        vec![0xDE00, 0xD83D],
        vec![0xD83D, 0x41],
        vec![0xD83D, 0xD83D, 0xDE00],
        vec![0xD800, 0xDC00],
        vec![0xDBFF, 0xDFFF],
        vec![0xD7FF, 0xE000, 0xFFFF],
        vec![0x41, 0, 0x42],
    ];
    for units in &rows {
        assert_eq!(decode_utf16_lossy(units), String::from_utf16_lossy(units));
    }
    assert_eq!(decode_utf16_lossy(&[0xD83D, 0x41]), "\u{FFFD}A");
    assert_eq!(decode_utf16_lossy(&[0xD83D, 0xDE00]), "\u{1F600}");
}

#[test]
fn encoding_agrees_with_the_standard_library() {
    for text in ["", "plain", "\u{7FF}\u{800}\u{FFFF}", "\u{10000}\u{10FFFF}", "a\0b", "naïve 😀"] {
        let expected: Vec<u16> = text.encode_utf16().collect();
        assert_eq!(encode_utf16(text), expected);
    }
    assert_eq!(encode_utf16("\u{1F600}"), vec![0xD83D, 0xDE00]);
}

#[test]
fn encoded_text_decodes_to_itself() {
    for text in ["", "x", "Grüße, 世界 😀", "\u{10FFFF}", "\0"] {
        assert_eq!(decode_utf16_lossy(&encode_utf16(text)), text);
    }
}

#[test]
fn window_ids_are_decimal() {
    assert_eq!(window_id(0), "w-0");
    assert_eq!(window_id(7), "w-7");
    assert_eq!(window_id(10), "w-10");
    assert_eq!(window_id(132456), "w-132456");
    assert_eq!(window_id(usize::MAX), format!("w-{}", usize::MAX));
}

#[test]
fn window_ids_lead_back_to_handles() {
    for handle in [0usize, 1, 9, 10, 99, 100, 65536, usize::MAX] {
        assert_eq!(parse_window_id(&window_id(handle)), Some(handle));
    }
    assert_ne!(window_id(12), window_id(21));
}

#[test]
fn numbers_in_ids_follow_the_standard_library() {
    let too_large = format!("{}0", usize::MAX);
    let just_too_large = format!("{}", usize::MAX as u128 + 1);
    for text in [
        "", "0", "007", "+5", "+", "++5", "-5", "-0", "5 ", " 5", "5x", "12a", "0x10", "٣", "1_000",
        too_large.as_str(), just_too_large.as_str(), "000000000000000000000000000000000000042",
    ] {
        let id = format!("w-{}", text);
        assert_eq!(parse_window_id(&id), text.parse::<usize>().ok(), "{}", text);
    }
    for id in ["", "w", "w-", "W-1", "x-1", "1", "w_1", "ww-1", " w-1"] {
        assert_eq!(parse_window_id(id), None);
    }
}

fn stem(path: &str) -> Option<String> {
    file_stem(path)
}

#[test]
fn stems_of_image_paths() {
    assert_eq!(stem(r"C:\Windows\explorer.exe"), Some("explorer".to_string()));
    assert_eq!(stem(r"C:\Program Files\App\app.test.exe"), Some("app.test".to_string()));
    assert_eq!(stem(r"c:/tools/notepad.exe"), Some("notepad".to_string()));
    assert_eq!(stem(r"\\server\share\dir\tool.exe"), Some("tool".to_string()));
    assert_eq!(stem(r"\\?\C:\dir\long.exe"), Some("long".to_string()));
    assert_eq!(stem(r"\\?\UNC\server\share\far.exe"), Some("far".to_string()));
    assert_eq!(stem(r"\\?\Volume{1}\x\y.exe"), Some("y".to_string()));
    assert_eq!(stem(r"\\.\device\z.exe"), Some("z".to_string()));
    assert_eq!(stem("tool"), Some("tool".to_string()));
    assert_eq!(stem(".profile"), Some(".profile".to_string()));
    assert_eq!(stem("archive."), Some("archive".to_string()));
}

#[test]
fn stems_of_odd_paths() {
    assert_eq!(stem(""), None);
    assert_eq!(stem(r"C:"), None);
    assert_eq!(stem(r"C:\"), None);
    assert_eq!(stem(r"\\server\share"), None);
    assert_eq!(stem(r"\\server\share\"), None);
    assert_eq!(stem(r"\\?\C:"), None);
    assert_eq!(stem(r"\\?\UNC\server\share"), None);
    assert_eq!(stem(r"\\.\NUL"), None);
    assert_eq!(stem(r"C:\dir\.."), None);
    assert_eq!(stem("."), None);
    assert_eq!(stem(r"C:\dir\."), Some("dir".to_string()));
    assert_eq!(stem(r"C:\dir\\"), Some("dir".to_string()));
    assert_eq!(stem(r"C:tool.exe"), Some("tool".to_string()));
    assert_eq!(stem(r"\\?\C:\a/b.exe"), Some("a/b".to_string()));
    assert_eq!(stem(r"\\?\C:/foo/bar"), Some("foo/bar".to_string()));
    assert_eq!(stem(r"\\?\C:/"), None);
    assert_eq!(stem(r"\\?\UNC/a\b"), None);
    assert_eq!(stem(r"\\?\UNC/a\b\c.exe"), Some("c".to_string()));
    assert_eq!(stem(r"\\?\UNC\a\b/c.exe"), None);
    assert_eq!(stem(r"\\?\C:\dir\."), None);
    assert_eq!(stem(r"\\only"), Some("only".to_string()));
}

#[test]
fn stems_without_directories_follow_the_standard_library() {
    for name in ["a", "a.b", "a.b.c", ".a", "..a", "a.", "a..", "...", ".a.b", "..", "."] {
        let expected = std::path::Path::new(name).file_stem().map(|s| s.to_string_lossy().into_owned());
        assert_eq!(stem(name), expected, "{}", name);
    }
}
