use forge_coverage::item::SourceRange;
use forge_coverage::source_map::{Jump, SourceElement, SourceMap, SourceMapEntry};

fn entry(first: usize, count: usize, start: usize) -> SourceMapEntry {
    SourceMapEntry::new(first, count, SourceRange::new(start, 1), Jump::Regular, true)
}

#[test]
fn an_entry_holds_the_offsets_of_its_run() {
    let e = entry(3, 2, 0);
    assert_eq!(e, SourceMapEntry {
        first: 3,
        count: 2,
        range: SourceRange { start: 0, length: 1 },
        jump: Jump::Regular,
        valid: true,
    });
    assert!(!e.includes(2));
    assert!(e.includes(3));
    assert!(e.includes(4));
    assert!(!e.includes(5));
    assert!(!entry(3, 0, 0).includes(3));
    let last = entry(usize::MAX, usize::MAX, 0);
    assert!(last.includes(usize::MAX));
    assert!(!last.includes(usize::MAX - 1));
}

#[test]
fn ordered_entries_make_a_map() {
    let map = SourceMap::from_entries(vec![entry(0, 5, 1), entry(5, 1, 2), entry(10, 3, 3)]);
    let map = map.unwrap();
    assert_eq!(map.len(), 3);
    assert_eq!(map.entry(1), Some(entry(5, 1, 2)));
    assert_eq!(map.entry(3), None);
    assert!(SourceMap::from_entries(vec![]).is_some());
    assert!(SourceMap::from_entries(vec![entry(7, 0, 1), entry(7, 0, 2), entry(7, 1, 3)]).is_some());
}

#[test]
fn overlapping_or_unordered_entries_make_no_map() {
    assert!(SourceMap::from_entries(vec![entry(0, 5, 1), entry(4, 1, 2)]).is_none());
    assert!(SourceMap::from_entries(vec![entry(5, 1, 1), entry(0, 5, 2)]).is_none());
    assert!(SourceMap::from_entries(vec![entry(0, 1, 1), entry(1, 1, 2), entry(1, 1, 3)]).is_none());
    assert!(SourceMap::from_entries(vec![entry(1, usize::MAX, 1), entry(2, 1, 2)]).is_none());
}

#[test]
fn lookup_finds_the_entry_that_holds_the_offset() {
    let map = SourceMap::from_entries(vec![
        entry(2, 3, 1),
        entry(5, 1, 2),
        entry(6, 0, 3),
        entry(10, 3, 4),
        entry(13, 1, 5),
    ]).unwrap();
    assert_eq!(map.lookup(0), None);
    assert_eq!(map.lookup(1), None);
    assert_eq!(map.lookup(2), Some(entry(2, 3, 1)));
    assert_eq!(map.lookup(4), Some(entry(2, 3, 1)));
    assert_eq!(map.lookup(5), Some(entry(5, 1, 2)));
    assert_eq!(map.lookup(6), None);
    assert_eq!(map.lookup(9), None);
    assert_eq!(map.lookup(10), Some(entry(10, 3, 4)));
    assert_eq!(map.lookup(12), Some(entry(10, 3, 4)));
    assert_eq!(map.lookup(13), Some(entry(13, 1, 5)));
    assert_eq!(map.lookup(14), None);
    assert_eq!(map.lookup(usize::MAX), None);
    assert_eq!(SourceMap::new().lookup(0), None);
}

#[test]
fn lookup_agrees_with_a_scan() {
    let entries: Vec<SourceMapEntry> =
        (0..40).map(|i| entry(4 * i + (i % 2), 1 + (i % 3), i)).collect();
    let map = SourceMap::from_entries(entries.clone()).unwrap();
    for offset in 0..170 {
        let scanned = entries.iter().find(|e| e.includes(offset)).copied();
        assert_eq!(map.lookup(offset), scanned);
    }
}

#[test]
fn decoded_elements_map_one_instruction_each() {
    let elements = vec![
        SourceElement { offset: 10, length: 10, index: Some(0), jump: Jump::In, modifier_depth: 0 },
        SourceElement { offset: 3, length: 4, index: None, jump: Jump::Out, modifier_depth: 2 },
        SourceElement { offset: 10, length: 10, index: Some(7), jump: Jump::Regular, modifier_depth: 0 },
    ];
    let map = SourceMap::from_elements(&elements);
    assert_eq!(map.len(), 3);
    assert_eq!(map.entry(0), Some(SourceMapEntry {
        first: 0,
        count: 1,
        range: SourceRange { start: 10, length: 10 },
        jump: Jump::In,
        valid: true,
    }));
    assert_eq!(map.entry(1), Some(SourceMapEntry {
        first: 1,
        count: 1,
        range: SourceRange { start: 3, length: 4 },
        jump: Jump::Out,
        valid: false,
    }));
    assert_eq!(map.lookup(2).unwrap().range, SourceRange { start: 10, length: 10 });
    assert_eq!(map.lookup(3), None);
    assert_eq!(SourceMap::from_elements(&vec![]).len(), 0);
}

#[test]
fn a_source_map_is_decoded_from_its_text() {
    let map = SourceMap::decode("10:10:0:-:0;20:5:1:i:0;:7::o;30:2:-1:-:1").unwrap();
    assert_eq!(map.len(), 4);
    assert_eq!(map.entry(0), Some(SourceMapEntry {
        first: 0,
        count: 1,
        range: SourceRange { start: 10, length: 10 },
        jump: Jump::Regular,
        valid: true,
    }));
    assert_eq!(map.entry(1), Some(SourceMapEntry {
        first: 1,
        count: 1,
        range: SourceRange { start: 20, length: 5 },
        jump: Jump::In,
        valid: true,
    }));
    assert_eq!(map.entry(2), Some(SourceMapEntry {
        first: 2,
        count: 1,
        range: SourceRange { start: 20, length: 7 },
        jump: Jump::Out,
        valid: true,
    }));
    let last = map.entry(3).unwrap();
    assert!(!last.valid);
    assert_eq!(last.first, 3);
    assert_eq!(last.jump, Jump::Regular);
}

#[test]
fn an_empty_element_repeats_the_one_before() {
    let map = SourceMap::decode("4:2:0:-:0;;").unwrap();
    assert_eq!(map.len(), 3);
    for i in 0..3 {
        let e = map.entry(i).unwrap();
        assert_eq!(e.first, i);
        assert_eq!(e.range, SourceRange { start: 4, length: 2 });
    }
}

#[test]
fn text_that_is_no_source_map_is_not_decoded() {
    assert!(SourceMap::decode("").is_none());
    assert!(SourceMap::decode("no source map").is_none());
    assert!(SourceMap::decode("1:2:3:x").is_none());
    assert!(SourceMap::decode("1:2:3:-:4:5").is_none());
    assert!(SourceMap::decode("1:2:-7:-").is_none());
}
