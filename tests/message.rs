use protobuf::error::ProtobufError;
use protobuf::message::{
    parse_from, parse_from_bytes, parse_length_delimited_from, parse_length_delimited_from_bytes,
    Message, ProtobufEnum,
};
use protobuf::point::{Axis, Point};
use protobuf::stream::{CodedInputStream, CodedOutputStream};
use protobuf::varint::{read_varint, varint_prefix_complete, varint_size, write_varint};

fn point(x: Option<i32>, y: Option<i32>) -> Point {
    let mut p = Point::new();
    if let Some(x) = x {
        p.set_x(x);
    }
    if let Some(y) = y {
        p.set_y(y);
    }
    p
}

#[test]
fn point_without_required_field_is_not_written() {
    let mut only_y = point(None, Some(5));
    assert_eq!(only_y.check_initialized(), Err(ProtobufError::MessageNotInitialized(1)));
    assert_eq!(only_y.write_to_bytes(), Err(ProtobufError::MessageNotInitialized(1)));
    let mut os = CodedOutputStream::new();
    assert_eq!(only_y.write_to(&mut os), Err(ProtobufError::MessageNotInitialized(1)));
    assert_eq!(os.into_bytes(), Vec::<u8>::new());
    let mut only_x = point(Some(1), None);
    assert_eq!(only_x.write_to_bytes(), Err(ProtobufError::MessageNotInitialized(2)));
    let mut empty = Point::new();
    assert_eq!(empty.write_to_bytes(), Err(ProtobufError::MessageNotInitialized(1)));
    let mut both = point(Some(1), Some(5));
    assert_eq!(both.check_initialized(), Ok(()));
    assert!(both.is_initialized());
}

#[test]
fn length_delimited_write_refuses_missing_field() {
    let mut only_y = point(None, Some(5));
    assert_eq!(
        only_y.write_length_delimited_to_bytes(),
        Err(ProtobufError::MessageNotInitialized(1))
    );
    let mut os = CodedOutputStream::new();
    assert_eq!(
        only_y.write_length_delimited_to(&mut os),
        Err(ProtobufError::MessageNotInitialized(1))
    );
    assert_eq!(os.into_bytes(), Vec::<u8>::new());
}

#[test]
fn point_writes_fixed_bytes_and_parses_back() {
    let mut p = point(Some(1), Some(5));
    let bytes = p.write_to_bytes().unwrap();
    assert_eq!(bytes, vec![0x08, 0x01, 0x10, 0x05]);
    let q: Point = parse_from_bytes(&bytes).unwrap();
    assert_eq!(q, p);
    assert_eq!(q.get_x(), 1);
    assert_eq!(q.get_y(), 5);
    assert!(q.get_unknown_fields().is_empty());
}

#[test]
fn negative_value_round_trips_through_ten_byte_varint() {
    let mut p = point(Some(-1), Some(i32::MIN));
    let bytes = p.write_to_bytes().unwrap();
    assert_eq!(bytes.len(), 22);
    assert_eq!(&bytes[0..11], &[0x08, 0xff, 0xff, 0xff, 0xff, 0xff, 0xff, 0xff, 0xff, 0xff, 0x01]);
    let q: Point = parse_from_bytes(&bytes).unwrap();
    assert_eq!(q.get_x(), -1);
    assert_eq!(q.get_y(), i32::MIN);
    assert_eq!(q, p);
}

#[test]
fn computed_size_matches_written_length() {
    for (x, y) in [(None, Some(0)), (Some(300), Some(-7)), (Some(i32::MAX), Some(1))] {
        let mut p = point(x, y);
        let size = p.compute_size();
        assert_eq!(p.get_cached_size(), size);
        let mut os = CodedOutputStream::new();
        assert_eq!(p.write_to_with_cached_sizes(&mut os), Ok(()));
        assert_eq!(os.into_bytes().len() as u32, size);
    }
    let mut p = point(Some(300), Some(2));
    assert_eq!(p.compute_size(), 5);
}

#[test]
fn length_delimited_frame_round_trips() {
    let mut p = point(Some(1), Some(5));
    let frame = p.write_length_delimited_to_bytes().unwrap();
    assert_eq!(frame, vec![0x04, 0x08, 0x01, 0x10, 0x05]);
    let q: Point = parse_length_delimited_from_bytes(&frame).unwrap();
    assert_eq!(q, p);
}

#[test]
fn length_delimited_frame_stops_at_its_length() {
    let mut first = point(Some(1), Some(5));
    let mut second = point(Some(4), Some(9));
    let mut os = CodedOutputStream::new();
    first.write_length_delimited_to(&mut os).unwrap();
    second.write_length_delimited_to(&mut os).unwrap();
    let bytes = os.into_bytes();
    let mut is = CodedInputStream::from_bytes(&bytes);
    let a: Point = parse_length_delimited_from(&mut is).unwrap();
    assert_eq!(is.pos(), 5);
    assert_eq!(bytes.len(), 10);
    let b: Point = parse_length_delimited_from(&mut is).unwrap();
    assert_eq!(is.pos(), bytes.len());
    assert!(is.eof());
    assert_eq!(a, first);
    assert_eq!(b, second);
}

#[test]
fn truncated_length_delimited_frame_is_refused() {
    let r: Result<Point, ProtobufError> = parse_length_delimited_from_bytes(&[0x05, 0x10, 0x05]);
    assert_eq!(r, Err(ProtobufError::WireError));
    let r: Result<Point, ProtobufError> = parse_length_delimited_from_bytes(&[0x02, 0x08, 0x01]);
    assert_eq!(r, Err(ProtobufError::MessageNotInitialized(2)));
    let r: Result<Point, ProtobufError> = parse_length_delimited_from_bytes(&[0x02, 0x10, 0x05]);
    assert_eq!(r, Err(ProtobufError::MessageNotInitialized(1)));
}

#[test]
fn unknown_fields_are_written_back_verbatim() {
    let input = vec![0x08, 0x03, 0x10, 0x05, 0x18, 0x07, 0x22, 0x02, 0xaa, 0xbb, 0x2d, 1, 2, 3, 4];
    let mut p: Point = parse_from_bytes(&input).unwrap();
    assert_eq!(p.get_x(), 3);
    assert_eq!(p.get_y(), 5);
    assert_eq!(p.get_unknown_fields().len(), 3);
    assert_eq!(p.get_unknown_fields().get(0), &[0x18, 0x07]);
    assert_eq!(p.get_unknown_fields().get(1), &[0x22, 0x02, 0xaa, 0xbb]);
    assert_eq!(p.get_unknown_fields().get(2), &[0x2d, 1, 2, 3, 4]);
    assert_eq!(p.write_to_bytes().unwrap(), input);
}

#[test]
fn unknown_field_in_non_canonical_form_is_kept() {
    let input = vec![0x98, 0x00, 0x87, 0x80, 0x00, 0x10, 0x05, 0x08, 0x00, 0x09, 1, 2, 3, 4, 5, 6, 7, 8];
    let mut p: Point = parse_from_bytes(&input).unwrap();
    assert_eq!(p.get_unknown_fields().len(), 2);
    assert_eq!(
        p.write_to_bytes().unwrap(),
        vec![0x08, 0x00, 0x10, 0x05, 0x98, 0x00, 0x87, 0x80, 0x00, 0x09, 1, 2, 3, 4, 5, 6, 7, 8]
    );
}

#[test]
fn known_number_with_other_wire_type_is_kept_as_unknown() {
    let input = vec![0x0a, 0x01, 0x00, 0x10, 0x05];
    let mut p = Point::new();
    assert_eq!(p.merge_from_bytes(&input), Ok(()));
    assert!(!p.has_x());
    assert_eq!(p.get_y(), 5);
    assert_eq!(p.get_unknown_fields().get(0), &[0x0a, 0x01, 0x00]);
}

#[test]
fn parse_without_required_field_fails() {
    let r: Result<Point, ProtobufError> = parse_from_bytes(&[0x08, 0x01]);
    assert_eq!(r, Err(ProtobufError::MessageNotInitialized(2)));
    let r: Result<Point, ProtobufError> = parse_from_bytes(&[0x10, 0x05]);
    assert_eq!(r, Err(ProtobufError::MessageNotInitialized(1)));
    let r: Result<Point, ProtobufError> = parse_from_bytes(&[]);
    assert_eq!(r, Err(ProtobufError::MessageNotInitialized(1)));
}

#[test]
fn malformed_input_is_a_wire_error() {
    let cases: Vec<Vec<u8>> = vec![
        vec![0x08],
        vec![0x08, 0x80],
        vec![0x00, 0x01],
        vec![0x0b, 0x10, 0x05],
        vec![0x22, 0x05, 0x01],
        vec![0x29, 1, 2, 3],
        vec![0x10, 0x05, 0x0d, 1, 2],
        vec![0x10, 0xff, 0xff, 0xff, 0xff, 0xff, 0xff, 0xff, 0xff, 0xff, 0x02],
        vec![0x10, 0x80, 0x80, 0x80, 0x80, 0x80, 0x80, 0x80, 0x80, 0x80, 0x80, 0x00],
    ];
    for c in cases {
        let r: Result<Point, ProtobufError> = parse_from_bytes(&c);
        assert_eq!(r, Err(ProtobufError::WireError), "input {:?}", c);
    }
}

#[test]
fn merge_overwrites_scalars_and_appends_unknown() {
    let mut p = point(Some(1), Some(5));
    assert_eq!(p.merge_from_bytes(&[0x08, 0x02, 0x18, 0x01]), Ok(()));
    assert_eq!(p.get_x(), 2);
    assert_eq!(p.get_y(), 5);
    assert_eq!(p.merge_from_bytes(&[0x18, 0x02]), Ok(()));
    assert_eq!(p.get_unknown_fields().len(), 2);
    assert_eq!(p.merge_from_bytes(&[0x18]), Err(ProtobufError::WireError));
}

#[test]
fn clear_resets_to_empty() {
    let mut p: Point = parse_from_bytes(&[0x08, 0x03, 0x10, 0x04, 0x18, 0x01]).unwrap();
    p.clear();
    assert_eq!(p, Point::new());
    assert!(!p.has_x());
    assert!(!p.has_y());
    assert!(!p.is_initialized());
    assert_eq!(p.check_initialized(), Err(ProtobufError::MessageNotInitialized(1)));
}

#[test]
fn unknown_store_can_be_edited() {
    let mut p = point(Some(2), Some(1));
    p.mut_unknown_fields().add_entry(vec![0x18, 0x07]);
    assert_eq!(p.write_to_bytes().unwrap(), vec![0x08, 0x02, 0x10, 0x01, 0x18, 0x07]);
    p.mut_unknown_fields().clear();
    assert_eq!(p.write_to_bytes().unwrap(), vec![0x08, 0x02, 0x10, 0x01]);
}

#[test]
fn write_to_vec_appends() {
    let mut p = point(Some(2), Some(3));
    let mut v = vec![0xee];
    assert_eq!(p.write_to_vec(&mut v), Ok(()));
    assert_eq!(v, vec![0xee, 0x08, 0x02, 0x10, 0x03]);
}

#[test]
fn parse_from_stream_reads_to_its_limit() {
    let bytes = vec![0x08, 0x01, 0x10, 0x07];
    let mut is = CodedInputStream::from_bytes(&bytes);
    let p: Point = parse_from(&mut is).unwrap();
    assert_eq!(p.get_x(), 1);
    assert_eq!(p.get_y(), 7);
    assert!(is.eof());
}

#[test]
fn enum_from_i32_is_total() {
    assert_eq!(Axis::from_i32(1), Some(Axis::Horizontal));
    assert_eq!(Axis::from_i32(2), Some(Axis::Vertical));
    assert_eq!(Axis::from_i32(1).unwrap().value(), 1);
    assert_eq!(Axis::Vertical.value(), 2);
    for v in [0, 3, -1, i32::MIN, i32::MAX] {
        assert_eq!(Axis::from_i32(v), None);
    }
    for v in -5..10 {
        if let Some(e) = Axis::from_i32(v) {
            assert_eq!(e.value(), v);
        }
    }
}

#[test]
fn varint_encoding_and_decoding() {
    let mut out = Vec::new();
    write_varint(&mut out, 300);
    assert_eq!(out, vec![0xac, 0x02]);
    assert_eq!(read_varint(&out, 0, 2), Some((300, 2)));
    assert_eq!(read_varint(&out, 0, 1), None);
    assert_eq!(varint_size(0), 1);
    assert_eq!(varint_size(127), 1);
    assert_eq!(varint_size(128), 2);
    assert_eq!(varint_size(u64::MAX), 10);
    let mut big = Vec::new();
    write_varint(&mut big, u64::MAX);
    assert_eq!(big.len(), 10);
    assert_eq!(read_varint(&big, 0, 10), Some((u64::MAX, 10)));
}

#[test]
fn default_point_is_empty() {
    let p = Point::default();
    assert_eq!(p, Point::new());
    assert!(!p.has_x());
    assert_eq!(p.get_x(), 0);
    assert_eq!(p.get_y(), 0);
    assert!(p.get_unknown_fields().is_empty());
}

#[test]
fn cached_size_survives_writes() {
    let mut p = point(Some(300), Some(2));
    let mut os = CodedOutputStream::new();
    p.write_to(&mut os).unwrap();
    assert_eq!(p.get_cached_size(), 5);
    let mut os = CodedOutputStream::new();
    p.write_length_delimited_to(&mut os).unwrap();
    assert_eq!(p.get_cached_size(), 5);
    assert_eq!(os.into_bytes().len(), 6);
}

#[test]
fn size_fits_for_ordinary_messages() {
    let mut p = point(Some(-1), Some(1));
    assert!(p.size_fits());
    p.mut_unknown_fields().add_entry(vec![0x22, 0x03, 1, 2, 3]);
    assert!(p.size_fits());
}

#[test]
fn unknown_entries_survive_a_round_trip_through_parse() {
    let input = vec![0x18, 0x07, 0x08, 0x01, 0x22, 0x01, 0x09, 0x10, 0x02];
    let mut p: Point = parse_from_bytes(&input).unwrap();
    let out = p.write_to_bytes().unwrap();
    assert_eq!(out, vec![0x08, 0x01, 0x10, 0x02, 0x18, 0x07, 0x22, 0x01, 0x09]);
    let q: Point = parse_from_bytes(&out).unwrap();
    assert_eq!(q, p);
}

#[test]
fn varint_prefix_end_is_detected() {
    assert!(!varint_prefix_complete(&vec![]));
    assert!(!varint_prefix_complete(&vec![0x80]));
    assert!(varint_prefix_complete(&vec![0x80, 0x01]));
    assert!(varint_prefix_complete(&vec![0x05]));
    assert!(varint_prefix_complete(&vec![0xff; 10]));
    assert!(!varint_prefix_complete(&vec![0xff; 9]));
}
