use lib::toc::{image_header_ranges, ImageRecord, Toc, MAX_TOC_ENTRIES};

fn record(id: u32, name: &[u8]) -> ImageRecord {
    let mut filename = [0u8; 64];
    filename[..name.len()].copy_from_slice(name);
    ImageRecord { identifier: id, filename, size: 10 * id, image_checksum: id }
}

#[test]
fn add_and_find() {
    let mut toc = Toc::new();
    assert_eq!(toc.count(), 0);
    assert!(toc.add(2, b"mcu_rt.bin", 4096, 0xabcd));
    assert!(toc.add(1, b"soc_manifest.bin", 512, 1));
    assert_eq!(toc.count(), 2);
    let e = toc.find(2).unwrap();
    assert_eq!(e.image_size, 4096);
    assert_eq!(e.image_checksum, 0xabcd);
    assert_eq!(e.filename_len, 10);
    assert_eq!(&e.filename[..11], b"mcu_rt.bin\0");
    assert!(toc.find(3).is_none());
}

#[test]
fn find_returns_first_match() {
    let mut toc = Toc::new();
    assert!(toc.add(5, b"first", 1, 1));
    assert!(toc.add(5, b"second", 2, 2));
    assert_eq!(toc.find(5).unwrap().image_size, 1);
}

#[test]
fn add_refuses_empty_names_and_full_table() {
    let mut toc = Toc::new();
    assert!(!toc.add(1, b"", 1, 1));
    for i in 0..MAX_TOC_ENTRIES {
        assert!(toc.add(i as u8, b"x", 1, 1));
    }
    assert!(!toc.add(99, b"y", 1, 1));
    assert_eq!(toc.count(), MAX_TOC_ENTRIES);
}

#[test]
fn long_names_are_cut_to_63_bytes() {
    let mut toc = Toc::new();
    let name = [b'a'; 100];
    assert!(toc.add(1, &name, 1, 1));
    let e = toc.find(1).unwrap();
    assert_eq!(e.filename_len, 63);
    assert_eq!(e.filename[63], 0);
}

#[test]
fn clear_empties_table() {
    let mut toc = Toc::new();
    assert!(toc.add(1, b"a", 1, 1));
    toc.clear();
    assert_eq!(toc.count(), 0);
    assert!(toc.find(1).is_none());
}

#[test]
fn parse_records_loads_in_order() {
    let mut toc = Toc::new();
    let recs = [Some(record(0, b"fmc.bin")), Some(record(2, b"rt.bin"))];
    assert!(toc.parse_records(&recs));
    assert_eq!(toc.count(), 2);
    assert_eq!(toc.find(2).unwrap().image_size, 20);
    assert_eq!(toc.find(0).unwrap().filename_len, 7);
}

#[test]
fn parse_records_stops_at_bad_record() {
    let mut toc = Toc::new();
    assert!(toc.add(7, b"old", 1, 1));
    let recs = [Some(record(1, b"a")), None, Some(record(2, b"b"))];
    assert!(!toc.parse_records(&recs));
    assert_eq!(toc.count(), 1);
    assert!(toc.find(1).is_some());
    assert!(toc.find(2).is_none());
    assert!(toc.find(7).is_none());
}

#[test]
fn parse_records_ignores_extra_records() {
    let mut toc = Toc::new();
    let recs: Vec<Option<ImageRecord>> = (0..10).map(|i| Some(record(i, b"f"))).collect();
    assert!(toc.parse_records(&recs));
    assert_eq!(toc.count(), MAX_TOC_ENTRIES);
    assert!(toc.find(9).is_none());
}

#[test]
fn full_width_names_keep_all_bytes() {
    let mut toc = Toc::new();
    let mut rec = record(4, b"");
    rec.filename = [b'z'; 64];
    assert!(toc.parse_records(&[Some(rec)]));
    assert_eq!(toc.find(4).unwrap().filename_len, 64);
}

#[test]
fn image_header_ranges_stop_at_the_file_and_the_table() {
    let r = image_header_ranges(3, 16, 32, 90);
    assert_eq!(r, vec![Some((16, 48)), Some((48, 80)), None]);
    let r = image_header_ranges(20, 0, 4, 1000);
    assert_eq!(r.len(), 8);
    assert_eq!(r[7], Some((28, 32)));
    assert_eq!(image_header_ranges(0, 0, 4, 100), vec![]);
    assert_eq!(image_header_ranges(2, u32::MAX, 4, 100), vec![None, None]);
}

