use tci::util::{align_u32, align_usize, l, l_from, u32_to_u32_tup, CodeLoc};

#[test]
fn align_rounds_up_to_multiple() {
    assert_eq!(align_usize(0, 8), 0);
    assert_eq!(align_usize(1, 8), 8);
    assert_eq!(align_usize(8, 8), 8);
    assert_eq!(align_usize(9, 8), 16);
    assert_eq!(align_u32(13, 4), 16);
}

#[test]
fn locations_are_built_from_parts() {
    let a = l(2, 5, 1);
    let b = l(7, 9, 1);
    assert_eq!(a, CodeLoc { start: 2, end: 5, file: 1 });
    assert_eq!(l_from(a, b), CodeLoc { start: 2, end: 9, file: 1 });
}

#[test]
fn tuple_holds_upper_half_and_word() {
    assert_eq!(u32_to_u32_tup(0x0012_0034), (0x12, 0x0012_0034));
}

use tci::filedb::FileDb;
use tci::util::{fold_binary, n32, no_file, Cursor, RecordingWriter, ShortSlice, StringArray, Void};

#[test]
fn the_empty_location_belongs_to_no_file() {
    assert_eq!(no_file(), CodeLoc { start: 0, end: 0, file: u32::MAX });
}

#[test]
fn align_handles_the_largest_sizes() {
    assert_eq!(align_usize(usize::MAX, 1), usize::MAX);
    assert_eq!(align_u32(u32::MAX - 3, 4), u32::MAX - 3);
    assert_eq!(align_u32(u32::MAX - 4, 4), u32::MAX - 3);
    assert_eq!(align_u32(7, 7), 7);
    assert_eq!(align_u32(8, 7), 14);
}

#[test]
fn a_fold_reduces_neighbours_level_by_level() {
    assert_eq!(fold_binary(Vec::<u32>::new(), |a, b| a + b), None);
    assert_eq!(fold_binary(vec![7], |a, b| a + b), Some(7));
    assert_eq!(fold_binary(vec![1, 2, 3, 4, 5], |a, b| a + b), Some(15));
    let text = |items: &[&str]| {
        let items = items.iter().map(|s| s.to_string()).collect();
        fold_binary(items, |a: String, b: String| format!("({}{})", a, b)).unwrap()
    };
    assert_eq!(text(&["a", "b"]), "(ab)");
    assert_eq!(text(&["a", "b", "c"]), "((ab)c)");
    assert_eq!(text(&["a", "b", "c", "d"]), "((ab)(cd))");
    assert_eq!(text(&["a", "b", "c", "d", "e"]), "(((ab)(cd))e)");
    assert_eq!(text(&["a", "b", "c", "d", "e", "f", "g"]), "(((ab)(cd))((ef)g))");
}

#[test]
fn every_number_but_the_largest_is_not_null() {
    assert_eq!(n32::new(5).into_u32(), 5);
    assert_eq!(n32::new(5).plus(6), n32::new(11));
    assert!(!n32::new(0).is_null());
    assert!(n32::null().is_null());
    assert_eq!(n32::null().data, u32::MAX);
    assert_eq!(n32::new(u32::MAX - 2).plus(1).data, u32::MAX - 1);
}

#[test]
fn a_string_array_keeps_its_strings_in_order() {
    let mut array = StringArray::new();
    assert_eq!(array.len(), 0);
    array.push("one");
    array.push("");
    array.push("dré");
    assert_eq!(array.len(), 3);
    assert_eq!(array.get(0), &b"one".to_vec());
    assert_eq!(array.get(1), &Vec::<u8>::new());
    assert_eq!(array.get(2), &"dré".as_bytes().to_vec());
}

#[test]
fn small_writers_do_what_they_say() {
    let mut void = Void::new();
    assert_eq!(void.write(b"abc"), 3);
    assert_eq!(void.write(b""), 0);
    let cursor = Cursor::new(7u8);
    assert_eq!((cursor.io, cursor.len), (7, 0));
    let mut recording = RecordingWriter::new(9u8);
    assert_eq!(recording.record(b"ab").unwrap(), 2);
    assert_eq!(recording.record(b"\xFF").unwrap_err().short_name, "WriteFailed");
    assert_eq!(recording.record("é".as_bytes()).unwrap(), 2);
    assert_eq!(recording.string.to_string(), "abé");
    assert_eq!(recording.writer, 9);
}

#[test]
fn a_short_slice_knows_its_length() {
    let data = [4u16, 5, 6];
    let slice = ShortSlice::new(&data, 77);
    assert_eq!((slice.len, slice.meta), (3, 77));
    assert_eq!(slice.as_slice(), &data);
    assert_eq!(ShortSlice::<u8>::new(&[], 0).len, 0);
}

#[test]
fn files_get_ids_in_order() {
    let mut files = FileDb::new();
    assert_eq!(files.len(), 0);
    assert_eq!(files.add("a.c".to_string(), "x".to_string()), Some(0));
    assert_eq!(files.add("b.c".to_string(), "y".to_string()), Some(1));
    assert_eq!(files.len(), 2);
    assert_eq!(files.get(1).unwrap().name, "b.c");
    assert_eq!(files.get(1).unwrap().source, "y");
    assert!(files.get(2).is_none());
}
