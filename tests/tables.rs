use rkbx_link::offsets::{hexparse, Pointer, RekordboxOffsets};
use rkbx_link::phrase::{Mood, Phrase, PhraseParser};
use rkbx_link::source::TrackInfo;

fn lines(text: &[&str]) -> Vec<String> {
    text.iter().map(|s| s.to_string()).collect()
}

#[test]
fn hex_values() {
    assert_eq!(hexparse("1F"), Ok(0x1f));
    assert_eq!(hexparse("+ff"), Ok(0xff));
    assert_eq!(hexparse("0"), Ok(0));
    assert_eq!(hexparse("ffffffffffffffff"), Ok(usize::MAX));
    assert_eq!(
        hexparse("10000000000000000"),
        Err("Failed to parse hex value: 10000000000000000".to_string())
    );
    assert_eq!(hexparse(""), Err("Failed to parse hex value: ".to_string()));
    assert_eq!(hexparse("+"), Err("Failed to parse hex value: +".to_string()));
    assert_eq!(hexparse("-1"), Err("Failed to parse hex value: -1".to_string()));
    assert_eq!(hexparse("0x10"), Err("Failed to parse hex value: 0x10".to_string()));
}

#[test]
fn pointer_from_text() {
    let p = Pointer::from_string("4A0 10 8").unwrap();
    assert_eq!(p, Pointer::new(vec![0x4a0, 0x10], 0x8));
    let p = Pointer::from_string("20").unwrap();
    assert_eq!(p.offsets, Vec::<usize>::new());
    assert_eq!(p.final_offset, 0x20);
    assert_eq!(
        Pointer::from_string("10 zz 8"),
        Err("Failed to parse hex value: zz".to_string())
    );
    assert_eq!(
        Pointer::from_string("10  8"),
        Err("Failed to parse hex value: ".to_string())
    );
    assert_eq!(Pointer::from_string(""), Err("Failed to parse hex value: ".to_string()));
}

#[test]
fn offsets_table() {
    let o = RekordboxOffsets::from_lines(&lines(&[
        "7.0.0", "10 20", "1 2", "3 4", "5 6", "7 8", "9 A", "B C", "D E", "F 10",
    ]))
    .unwrap();
    assert_eq!(o.rbversion, "7.0.0");
    assert_eq!(o.masterdeck_index, Pointer::new(vec![0x10], 0x20));
    assert_eq!(o.current_bpm, vec![Pointer::new(vec![1], 2), Pointer::new(vec![9], 0xa)]);
    assert_eq!(o.sample_position, vec![Pointer::new(vec![3], 4), Pointer::new(vec![0xb], 0xc)]);
    assert_eq!(o.track_info, vec![Pointer::new(vec![5], 6), Pointer::new(vec![0xd], 0xe)]);
    assert_eq!(o.anlz_path, vec![Pointer::new(vec![7], 8), Pointer::new(vec![0xf], 0x10)]);
}

#[test]
fn offsets_table_without_decks() {
    let o = RekordboxOffsets::from_lines(&lines(&["6.8", "10"])).unwrap();
    assert_eq!(o.rbversion, "6.8");
    assert!(o.current_bpm.is_empty());
    assert!(o.anlz_path.is_empty());
}

#[test]
fn offsets_table_errors() {
    assert_eq!(RekordboxOffsets::from_lines(&[]).err(), Some("No lines left".to_string()));
    assert_eq!(
        RekordboxOffsets::from_lines(&lines(&["7"])).err(),
        Some("Missing masterdeck index pointer".to_string())
    );
    assert_eq!(
        RekordboxOffsets::from_lines(&lines(&["7", "10", "1"])).err(),
        Some("Missing sample position pointer".to_string())
    );
    assert_eq!(
        RekordboxOffsets::from_lines(&lines(&["7", "10", "1", "2"])).err(),
        Some("Missing track info pointer".to_string())
    );
    assert_eq!(
        RekordboxOffsets::from_lines(&lines(&["7", "10", "1", "2", "3"])).err(),
        Some("Missing ANLZ path pointer".to_string())
    );
    assert_eq!(
        RekordboxOffsets::from_lines(&lines(&["7", "10", "1", "q", "3"])).err(),
        Some("Failed to parse hex value: q".to_string())
    );
    assert_eq!(
        RekordboxOffsets::from_lines(&lines(&["7", "g"])).err(),
        Some("Failed to parse hex value: g".to_string())
    );
}

#[test]
fn phrase_names_by_mood() {
    let p = PhraseParser::new();
    let ph = |kind: u16, k1: u8, k2: u8, k3: u8| Phrase { kind, k1, k2, k3 };
    assert_eq!(p.get_phrase_name(&Mood::Low, &ph(3, 0, 0, 0)), "Verse 1");
    assert_eq!(p.get_phrase_name(&Mood::Mid, &ph(4, 0, 0, 0)), "Verse 3");
    assert_eq!(p.get_phrase_name(&Mood::Mid, &ph(10, 0, 0, 0)), "Outro");
    assert_eq!(p.get_phrase_name(&Mood::High, &ph(1, 1, 0, 0)), "Intro 1");
    assert_eq!(p.get_phrase_name(&Mood::High, &ph(2, 0, 1, 0)), "Up 3");
    assert_eq!(p.get_phrase_name(&Mood::High, &ph(3, 0, 0, 0)), "Down");
    assert!(!p.has_phrase_name(&Mood::High, &ph(4, 0, 0, 0)));
    assert!(!p.has_phrase_name(&Mood::High, &ph(3, 1, 0, 0)));
    assert!(!p.has_phrase_name(&Mood::Low, &ph(0, 0, 0, 0)));
    assert!(!p.has_phrase_name(&Mood::Low, &ph(11, 0, 0, 0)));
    assert!(p.has_phrase_name(&Mood::Low, &ph(1, 0, 0, 0)));
}

#[test]
fn phrase_categories() {
    assert_eq!(PhraseParser::phrase_name_to_index("Intro 2"), 1);
    assert_eq!(PhraseParser::phrase_name_to_index("Up 2"), 2);
    assert_eq!(PhraseParser::phrase_name_to_index("Verse 6"), 2);
    assert_eq!(PhraseParser::phrase_name_to_index("Chorus"), 3);
    assert_eq!(PhraseParser::phrase_name_to_index("Down"), 4);
    assert_eq!(PhraseParser::phrase_name_to_index("Outro 1"), 5);
    assert_eq!(PhraseParser::phrase_name_to_index("Verse 7"), 0);
    assert_eq!(PhraseParser::phrase_name_to_index(""), 0);
}

#[test]
fn empty_track_info() {
    let t = TrackInfo::default();
    assert_eq!(t.title, "");
    assert_eq!(t.artist, "");
    assert_eq!(t.album, "");
}

#[test]
fn offsets_file_blocks() {
    let text = "# offsets\n7.0.0\n10 20\n1\n2\n3\n4\n\n\n6.8\n# old\n30\n\n\n5.0\n40\n";
    let tables = RekordboxOffsets::from_text(text).unwrap();
    assert_eq!(tables.len(), 2);
    assert_eq!(tables[0].rbversion, "7.0.0");
    assert_eq!(tables[0].masterdeck_index, Pointer::new(vec![0x10], 0x20));
    assert_eq!(tables[0].anlz_path, vec![Pointer::new(vec![], 4)]);
    assert_eq!(tables[1].rbversion, "6.8");
    assert_eq!(tables[1].masterdeck_index, Pointer::new(vec![], 0x30));
}

#[test]
fn offsets_file_with_crlf() {
    let text = "7\r\n10\r\n\r\n\r\n";
    let tables = RekordboxOffsets::from_text(text).unwrap();
    assert_eq!(tables.len(), 1);
    assert_eq!(tables[0].rbversion, "7");
}

#[test]
fn offsets_file_error_in_a_block() {
    let text = "7\n10\n\n\n6\nxyz\n\n\n";
    assert_eq!(
        RekordboxOffsets::from_text(text).err(),
        Some("Failed to parse hex value: xyz".to_string())
    );
    assert_eq!(RekordboxOffsets::from_text("").unwrap().len(), 0);
}
