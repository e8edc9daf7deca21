use rkbx_link::identity::{decode_anlz_file, decode_track_info, is_trimmed_char};

fn buffer(text: &[u8]) -> Vec<u8> {
    let mut b = text.to_vec();
    b.resize(200, 0);
    b
}

#[test]
fn identity_lines() {
    let t = decode_track_info(&buffer(b"Title: Song\nArtist: Someone\nAlbum: Record"));
    assert_eq!(t.title, "Song");
    assert_eq!(t.artist, "Someone");
    assert_eq!(t.album, "Record");
}

#[test]
fn identity_stops_at_nul() {
    let mut b = buffer(b"Title: A\nArtist: B\n");
    b[20] = b'x';
    b[21] = b':';
    let t = decode_track_info(&b);
    assert_eq!(t.title, "A");
    assert_eq!(t.artist, "B");
    assert_eq!(t.album, "");
}

#[test]
fn identity_with_crlf_and_colons() {
    let t = decode_track_info(&buffer(b"Title: a: b\r\nArtist:none\r\nAlbum: \xc3\xa9t\xc3\xa9"));
    assert_eq!(t.title, "a: b");
    assert_eq!(t.artist, "");
    assert_eq!(t.album, "\u{e9}t\u{e9}");
}

#[test]
fn identity_not_utf8_is_empty() {
    let t = decode_track_info(&buffer(b"Title: \xff\nArtist: B"));
    assert_eq!(t.title, "");
    assert_eq!(t.artist, "");
    assert_eq!(t.album, "");
}

#[test]
fn identity_of_empty_buffer() {
    let t = decode_track_info(&buffer(b""));
    assert_eq!(t.title, "");
    assert_eq!(t.album, "");
}

#[test]
fn analysis_path_is_trimmed() {
    let f = decode_anlz_file(&buffer(b"C:\\rb\\ANLZ0000.DAT \t\r\n\x01"));
    assert_eq!(f.path, "C:\\rb\\ANLZ0000.DAT");
    let f = decode_anlz_file(&buffer("D:/a b/x.DAT\u{3000}".as_bytes()));
    assert_eq!(f.path, "D:/a b/x.DAT");
    let f = decode_anlz_file(&buffer(b""));
    assert_eq!(f.path, "");
}

#[test]
fn analysis_path_not_utf8() {
    let f = decode_anlz_file(&buffer(b"C:\\\xfe"));
    assert_eq!(f.path, "ERR");
}

#[test]
fn trimmed_characters() {
    assert!(is_trimmed_char(' '));
    assert!(is_trimmed_char('\u{7f}'));
    assert!(is_trimmed_char('\u{a0}'));
    assert!(is_trimmed_char('\u{2009}'));
    assert!(!is_trimmed_char('a'));
    assert!(!is_trimmed_char('\u{200b}'));
    for c in ['\u{0}', '\n', '\u{85}', '\u{1680}', '\u{2028}', '\u{3000}', 'x', '\u{e9}'] {
        assert_eq!(is_trimmed_char(c), c.is_whitespace() || c.is_ascii_control());
    }
}
