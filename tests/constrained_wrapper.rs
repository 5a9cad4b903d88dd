use hiex::constrained_wrapper::{sort_range, ConstrainedWrapper, IntoOffsetError, ViewRange};
use hiex::store::{ByteStore, MemoryStore, SeekFrom, StoreError};

#[test]
fn test_sort_range() {
    let range: ViewRange<u32> = 0..5;
    assert_eq!(range, sort_range(range.clone()));

    let range: ViewRange<u32> = 0..u32::MAX;
    assert_eq!(range, sort_range(range.clone()));

    let range: ViewRange<i32> = -100..500;
    assert_eq!(range, sort_range(range.clone()));

    #[allow(clippy::reversed_empty_ranges)]
    let range: ViewRange<i32> = 100..5;
    assert_eq!(5..100, sort_range(range));

    let range: ViewRange<i32> = (i32::MIN)..i32::MAX;
    assert_eq!(range, sort_range(range.clone()));
}

#[test]
fn test_reader() {
    let data = vec![0u8, 1, 2, 3, 4, 5, 6, 7, 8, 9, 10];
    let cursor = MemoryStore::new(data);
    // [0, 5), {0, 1, 2, 3, 4}
    let mut cons = ConstrainedWrapper::new(cursor, 0..5).unwrap();

    assert_eq!(cons.stream_position().unwrap(), 0);
    assert_eq!(cons.stream_len().unwrap(), 5);

    assert_eq!(cons.seek(SeekFrom::Start(0)).unwrap(), 0);
    assert_eq!(cons.stream_position().unwrap(), 0);

    assert_eq!(cons.seek(SeekFrom::Start(1)).unwrap(), 1);
    assert_eq!(cons.stream_position().unwrap(), 1);

    assert_eq!(cons.seek(SeekFrom::Start(2)).unwrap(), 2);
    assert_eq!(cons.stream_position().unwrap(), 2);

    assert_eq!(cons.seek(SeekFrom::Start(5)).unwrap(), 5);
    assert_eq!(cons.stream_position().unwrap(), 5);

    let mut buf = vec![99u8; 1];
    assert!(cons.read_exact(&mut buf).is_err());
    assert_eq!(cons.stream_position().unwrap(), 5);
    assert_eq!(cons.stream_len().unwrap(), 5);

    assert_eq!(cons.seek(SeekFrom::Start(0)).unwrap(), 0);

    for expected in 0u8..5 {
        let mut buf = vec![99u8; 1];
        cons.read_exact(&mut buf).unwrap();
        assert_eq!(buf[0], expected);
        assert_eq!(cons.stream_position().unwrap(), expected as u64 + 1);
        assert_eq!(cons.stream_len().unwrap(), 5);
    }

    let mut buf = vec![99u8; 1];
    assert!(cons.read_exact(&mut buf).is_err());
    assert_eq!(cons.stream_position().unwrap(), 5);
    assert_eq!(cons.stream_len().unwrap(), 5);

    cons.seek(SeekFrom::Start(0)).unwrap();
    let cursor = cons.into_inner();
    let mut cons = ConstrainedWrapper::new(cursor, 3..7).unwrap();
    // Since the store was outside of the window it was moved to `range.start`
    assert_eq!(cons.stream_position().unwrap(), 0);
    assert_eq!(cons.position_from_offset(0), 3);

    assert_eq!(cons.stream_len().unwrap(), 4);
    let mut buf = vec![99u8; 3];
    cons.read_exact(&mut buf).unwrap();
    assert_eq!(buf, [3u8, 4, 5]);
    assert_eq!(cons.stream_position().unwrap(), 3);

    // == Writing ==

    assert_eq!(cons.seek(SeekFrom::Start(0)).unwrap(), 0);

    let buf = [5u8, 9u8];
    cons.write_all(&buf).unwrap();
    assert_eq!(cons.stream_position().unwrap(), 2);
    assert_eq!(cons.seek(SeekFrom::Start(0)).unwrap(), 0);
    let mut buf = vec![99u8; 2];
    cons.read_exact(&mut buf).unwrap();
    assert_eq!(buf, [5u8, 9u8]);

    assert_eq!(cons.seek(SeekFrom::Start(0)).unwrap(), 0);
    let buf = [9, 4, 5, 6];
    cons.write_all(&buf).unwrap();
    assert_eq!(cons.stream_position().unwrap(), 4);
    assert_eq!(cons.seek(SeekFrom::Start(0)).unwrap(), 0);
    let mut buf = vec![99u8; 4];
    cons.read_exact(&mut buf).unwrap();
    assert_eq!(buf, [9, 4, 5, 6]);

    // Writing too much data.
    assert_eq!(cons.seek(SeekFrom::Start(0)).unwrap(), 0);
    let buf = [9, 4, 5, 6, 8];
    assert!(cons.write_all(&buf).is_err());
}

fn alphabet_view(start: u64, end: u64) -> ConstrainedWrapper<MemoryStore> {
    let store = MemoryStore::new(b"ABCDEFGHIJKLMNOPQRSTUVWXYZ".to_vec());
    ConstrainedWrapper::new(store, start..end).unwrap()
}

#[test]
fn read_past_window_returns_fewer_bytes() {
    let mut view = alphabet_view(2, 6);
    let first = view.read(10).unwrap();
    assert_eq!(first, b"CDEF".to_vec());
    let second = view.read(10).unwrap();
    assert!(second.is_empty());
    assert_eq!(view.stream_position().unwrap(), 4);
}

#[test]
fn write_past_window_is_short_and_stays_inside() {
    let mut view = alphabet_view(2, 6);
    assert_eq!(view.seek(SeekFrom::Start(2)).unwrap(), 2);
    let written = view.write(b"wxyz").unwrap();
    assert_eq!(written, 2);
    assert_eq!(view.write(b"q").unwrap(), 0);
    let store = view.into_inner();
    assert_eq!(store.into_inner(), b"ABCDwxGHIJKLMNOPQRSTUVWXYZ".to_vec());
}

#[test]
fn seek_end_zero_lands_on_window_length() {
    let mut view = alphabet_view(5, 12);
    assert_eq!(view.seek(SeekFrom::End(0)).unwrap(), 7);
    assert_eq!(view.limit(), 7);
    assert_eq!(view.seek(SeekFrom::End(-3)).unwrap(), 4);
    assert_eq!(view.seek(SeekFrom::Current(-4)).unwrap(), 0);
}

#[test]
fn seek_beyond_window_is_rejected() {
    let mut view = alphabet_view(5, 12);
    assert_eq!(view.seek(SeekFrom::Start(8)), Err(StoreError::InvalidInput));
    assert_eq!(view.seek(SeekFrom::End(1)), Err(StoreError::InvalidInput));
    assert_eq!(view.seek(SeekFrom::Start(7)).unwrap(), 7);
}

#[test]
fn seek_is_clamped_to_store_length() {
    // The window reaches past the 26 bytes of the store.
    let mut view = alphabet_view(20, 40);
    assert_eq!(view.seek(SeekFrom::End(0)).unwrap(), 6);
    assert_eq!(view.stream_len().unwrap(), 6);
}

#[test]
fn seek_with_negative_result_fails() {
    let mut view = alphabet_view(5, 12);
    assert_eq!(view.seek(SeekFrom::Current(-1)), Err(StoreError::InvalidInput));
    assert_eq!(view.seek(SeekFrom::Start(1)).unwrap(), 1);
    assert_eq!(view.seek(SeekFrom::Current(i64::MIN)), Err(StoreError::InvalidInput));
    assert_eq!(view.seek(SeekFrom::Start(u64::MAX)), Err(StoreError::InvalidInput));
}

#[test]
fn position_offset_conversions() {
    let view = alphabet_view(12, 5);
    assert_eq!(view.range().start, 5);
    assert_eq!(view.range().end, 12);
    assert_eq!(view.position_from_offset(3), 8);
    assert_eq!(view.position_into_offset(8), Ok(3));
    assert_eq!(view.position_into_offset(12), Ok(7));
    assert_eq!(view.position_into_offset(4), Err(IntoOffsetError::OutOfLowerBounds));
    assert_eq!(view.position_into_offset(13), Err(IntoOffsetError::OutOfUpperBounds));
}

#[test]
fn new_keeps_position_inside_window() {
    let mut store = MemoryStore::new(b"ABCDEFGHIJKLMNOPQRSTUVWXYZ".to_vec());
    store.seek(SeekFrom::Start(7)).unwrap();
    let mut view = ConstrainedWrapper::new(store, 5..12).unwrap();
    assert_eq!(view.stream_position().unwrap(), 2);
    let unchecked = ConstrainedWrapper::new_unchecked(view.into_inner(), 5..12);
    assert_eq!(unchecked.into_inner().position(), 7);
}

#[test]
fn window_end_gives_eof_and_write_zero() {
    let mut view = alphabet_view(0, 4);
    let mut buf = vec![0u8; 5];
    assert_eq!(view.read_exact(&mut buf), Err(StoreError::UnexpectedEof));
    assert_eq!(view.seek(SeekFrom::Start(1)).unwrap(), 1);
    assert_eq!(view.write_all(b"wxyz"), Err(StoreError::WriteZero));
    let store = view.into_inner();
    assert_eq!(store.get_ref()[..5].to_vec(), b"AwxyE".to_vec());
}

#[test]
fn refused_seek_keeps_position() {
    let mut view = alphabet_view(5, 12);
    assert_eq!(view.seek(SeekFrom::Start(3)).unwrap(), 3);
    assert_eq!(view.seek(SeekFrom::Start(u64::MAX)), Err(StoreError::InvalidInput));
    assert_eq!(view.seek(SeekFrom::End(i64::MIN)), Err(StoreError::InvalidInput));
    assert_eq!(view.seek(SeekFrom::Current(-10)), Err(StoreError::InvalidInput));
    assert_eq!(view.stream_position().unwrap(), 3);
}
