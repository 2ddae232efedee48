use srf05_imu_station::flash_store::{overlay_chunk, CalibrationBytes, PageChunk, PageWritePlan, RecordError, RECORD_LEN};
use srf05_imu_station::{Calibration, RawSample3};

fn sample_calibration() -> Calibration {
    Calibration {
        gyro_bias: RawSample3 { x: 12, y: -8, z: 0x1234 },
        accel_offset: RawSample3 { x: -1, y: i16::MIN, z: i16::MAX },
    }
}

#[test]
fn calibration_encodes_big_endian() {
    let b = CalibrationBytes::from(&sample_calibration());
    assert_eq!(
        b.0,
        [0x00, 0x0c, 0xff, 0xf8, 0x12, 0x34, 0xff, 0xff, 0x80, 0x00, 0x7f, 0xff]
    );
}

#[test]
fn calibration_round_trips_through_bytes() {
    let cal = sample_calibration();
    let back: Calibration = CalibrationBytes::from(&cal).into();
    assert_eq!(back, cal);
}

#[test]
fn record_serializes_into_buffer() {
    let b = CalibrationBytes::from(&sample_calibration());
    let mut buf = [0xaau8; 32];
    assert_eq!(b.serialize_into(&mut buf), Ok(RECORD_LEN));
    assert_eq!(&buf[..12], &b.0[..]);
    assert!(buf[12..].iter().all(|&x| x == 0xaa));
    let mut small = [0u8; 11];
    assert_eq!(b.serialize_into(&mut small), Err(RecordError::BufferTooSmall));
    assert_eq!(small, [0u8; 11]);
}

#[test]
fn record_deserializes_from_buffer() {
    let cal = sample_calibration();
    let mut buf = [0u8; 20];
    CalibrationBytes::from(&cal).serialize_into(&mut buf).unwrap();
    let (rec, n) = CalibrationBytes::deserialize_from(&buf).unwrap();
    assert_eq!(n, 12);
    assert_eq!(Calibration::from(rec), cal);
    assert!(matches!(
        CalibrationBytes::deserialize_from(&buf[..11]),
        Err(RecordError::InvalidFormat)
    ));
}

fn chunks(offset: u32, len: usize) -> Vec<PageChunk> {
    let mut plan = PageWritePlan::new(offset, len);
    let mut out = Vec::new();
    while let Some(c) = plan.next_chunk() {
        out.push(c);
    }
    out
}

#[test]
fn write_within_one_page_is_one_chunk() {
    assert_eq!(
        chunks(0x110, 12),
        vec![PageChunk { page_start: 0x100, page_offset: 0x10, data_start: 0, len: 12 }]
    );
}

#[test]
fn write_across_pages_is_split_at_page_boundaries() {
    assert_eq!(
        chunks(250, 300),
        vec![
            PageChunk { page_start: 0, page_offset: 250, data_start: 0, len: 6 },
            PageChunk { page_start: 256, page_offset: 0, data_start: 6, len: 256 },
            PageChunk { page_start: 512, page_offset: 0, data_start: 262, len: 38 },
        ]
    );
    assert!(chunks(1000, 0).is_empty());
}

#[test]
fn overlay_keeps_the_rest_of_the_page() {
    let mut page = [0x11u8; 256];
    let data = [1u8, 2, 3, 4, 5, 6];
    let c = PageChunk { page_start: 0, page_offset: 254, data_start: 4, len: 2 };
    overlay_chunk(&mut page, &c, &data);
    assert_eq!(page[254], 5);
    assert_eq!(page[255], 6);
    assert!(page[..254].iter().all(|&x| x == 0x11));
}

#[test]
fn chunks_cover_each_write_exactly_once_per_page() {
    for &(offset, len) in &[(0u32, 1usize), (255, 2), (256, 256), (100, 1000), (8000, 192)] {
        let cs = chunks(offset, len);
        assert_eq!(cs[0].data_start, 0);
        assert_eq!(cs.last().map(|c| c.data_start + c.len), Some(len));
        for w in cs.windows(2) {
            assert_eq!(w[1].data_start, w[0].data_start + w[0].len);
            assert_eq!(w[1].page_start, w[0].page_start + 256);
            assert_eq!(w[1].page_offset, 0);
        }
        for c in &cs {
            assert!(c.len >= 1 && c.page_offset + c.len <= 256);
            assert_eq!(c.page_start as usize + c.page_offset, offset as usize + c.data_start);
        }
    }
}
