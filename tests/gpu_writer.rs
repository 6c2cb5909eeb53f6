use gpu_writer::{append_gpu_data, ByteSink, EmptyGpuTable, GpuData, GpuTable, SliceBlock, WriteError};

fn words(bytes: &[u8]) -> Vec<u32> {
    bytes
        .chunks(4)
        .map(|c| u32::from_ne_bytes([c[0], c[1], c[2], c[3]]))
        .collect()
}

fn floats(bytes: &[u8]) -> Vec<f32> {
    bytes
        .chunks(4)
        .map(|c| f32::from_ne_bytes([c[0], c[1], c[2], c[3]]))
        .collect()
}

#[test]
#[allow(clippy::float_cmp)]
fn test_gpu_writer() {
    let x: [u32; 3] = [1, 2, 3];
    let y: [f32; 4] = [4.0, 5.0, 6.0, 7.0];
    let z_count: usize = 2;
    let z: Vec<f64> = (0..z_count).map(|_| Default::default()).collect();
    let gpu_table = EmptyGpuTable;
    let gpu_table = append_gpu_data(gpu_table, SliceBlock::new(&x[..]));
    let gpu_table = append_gpu_data(gpu_table, SliceBlock::new(&y[..]));
    let gpu_table = append_gpu_data(gpu_table, SliceBlock::new(&z[..]));
    let data_count = gpu_table.data_count();
    assert_eq!(data_count, 3);
    assert_eq!(gpu_table.data_size(), 4 * (x.len() + y.len() + 2 * z_count));
    assert_eq!(gpu_table.size(), 4 * (data_count + x.len() + y.len() + 2 * z_count));
    let mut writer = ByteSink::new(gpu_table.size());
    gpu_table.write_into(&mut writer).unwrap();
    let v = writer.into_bytes();
    let slice_u32 = words(&v);
    let slice_f32 = floats(&v);
    let mut header = [0; 3];
    header[0] = data_count as u32;
    header[1] = header[0] + x.len() as u32;
    header[2] = header[1] + y.len() as u32;
    assert_eq!(slice_u32[0..3], header);
    assert_eq!(slice_u32[3..6], x);
    assert_eq!(slice_f32[6..10], y);
    assert_eq!(slice_u32[10..], [0; 4]);
}

#[test]
fn concrete_scenario_three_blocks() {
    let x: [u32; 3] = [1, 2, 3];
    let y: [f32; 4] = [4.0, 5.0, 6.0, 7.0];
    let z: Vec<f64> = vec![1.5, -2.25];
    let t = append_gpu_data(EmptyGpuTable, SliceBlock::new(&x[..]));
    let t = append_gpu_data(t, SliceBlock::new(&y[..]));
    let t = append_gpu_data(t, SliceBlock::new(&z[..]));
    assert_eq!(t.data_count(), 3);
    assert_eq!(t.data_size(), 4 * (3 + 4 + 2 * 2));
    assert_eq!(t.size(), 4 * (3 + 3 + 4 + 4));
    let mut sink = ByteSink::new(t.size());
    assert_eq!(t.write_into(&mut sink), Ok(()));
    let v = sink.into_bytes();
    assert_eq!(v.len(), 56);
    assert_eq!(words(&v[0..12]), vec![3, 6, 10]);
    let mut f = [0u8; 8];
    f.copy_from_slice(&v[40..48]);
    assert_eq!(f64::from_ne_bytes(f), 1.5);
    f.copy_from_slice(&v[48..56]);
    assert_eq!(f64::from_ne_bytes(f), -2.25);
}

#[test]
fn round_trip_through_header_offsets() {
    let x: [u32; 3] = [1, 2, 3];
    let y: [f32; 4] = [4.0, 5.0, 6.0, 7.0];
    let t = append_gpu_data(EmptyGpuTable, SliceBlock::new(&x[..]));
    let t = append_gpu_data(t, SliceBlock::new(&y[..]));
    let mut sink = ByteSink::new(t.size());
    t.write_into(&mut sink).unwrap();
    let v = sink.into_bytes();
    let header = words(&v[0..8]);
    let x_start = 4 * header[0] as usize;
    let y_start = 4 * header[1] as usize;
    assert_eq!(words(&v[x_start..x_start + 12]), x.to_vec());
    assert_eq!(floats(&v[y_start..y_start + 16]), y.to_vec());
}

#[test]
fn empty_table_writes_nothing() {
    let t = EmptyGpuTable;
    assert_eq!(t.data_count(), 0);
    assert_eq!(t.data_size(), 0);
    assert_eq!(t.size(), 0);
    let mut sink = ByteSink::new(0);
    assert_eq!(t.write_into(&mut sink), Ok(()));
    assert!(sink.as_bytes().is_empty());
}

#[test]
fn count_grows_by_one_per_append() {
    let a: [u8; 4] = [1, 2, 3, 4];
    let t = append_gpu_data(EmptyGpuTable, SliceBlock::from_bytes(&a));
    assert_eq!(t.data_count(), 1);
    let t = append_gpu_data(t, SliceBlock::from_bytes(&a));
    assert_eq!(t.data_count(), 2);
    let t = append_gpu_data(t, SliceBlock::from_bytes(&[]));
    assert_eq!(t.data_count(), 3);
    assert_eq!(t.data_size(), 8);
    assert_eq!(t.size(), 20);
}

#[test]
fn exact_room_succeeds_and_one_byte_short_fails() {
    let a: [u32; 2] = [7, 8];
    let t = append_gpu_data(EmptyGpuTable, SliceBlock::new(&a[..]));
    let size = t.size();
    assert_eq!(size, 12);
    let mut sink = ByteSink::new(size);
    assert_eq!(t.write_into(&mut sink), Ok(()));
    assert_eq!(sink.as_bytes().len(), 12);
    assert_eq!(sink.remaining(), 0);

    let t = append_gpu_data(EmptyGpuTable, SliceBlock::new(&a[..]));
    let mut short = ByteSink::new(size - 1);
    assert_eq!(t.write_into(&mut short), Err(WriteError::Full));
    // The header went in; the data did not.
    assert_eq!(words(short.as_bytes()), vec![1]);
}

#[test]
fn header_entries_follow_append_order() {
    let a: [u8; 8] = [0; 8];
    let b: [u8; 4] = [0; 4];
    let c: [u8; 12] = [0; 12];
    let t = append_gpu_data(EmptyGpuTable, SliceBlock::from_bytes(&a));
    let t = append_gpu_data(t, SliceBlock::from_bytes(&b));
    let t = append_gpu_data(t, SliceBlock::from_bytes(&c));
    let mut sink = ByteSink::new(t.size());
    t.write_into(&mut sink).unwrap();
    assert_eq!(words(&sink.as_bytes()[0..12]), vec![3, 5, 6]);
}

#[test]
fn data_follows_append_order() {
    let a: [u8; 3] = [1, 2, 3];
    let b: [u8; 2] = [4, 5];
    let c: [u8; 1] = [6];
    let t = append_gpu_data(EmptyGpuTable, SliceBlock::from_bytes(&a));
    let t = append_gpu_data(t, SliceBlock::from_bytes(&b));
    let t = append_gpu_data(t, SliceBlock::from_bytes(&c));
    let mut sink = ByteSink::new(t.size());
    t.write_into(&mut sink).unwrap();
    assert_eq!(&sink.as_bytes()[12..], &[1, 2, 3, 4, 5, 6]);
}

#[test]
fn unaligned_block_offsets_round_down() {
    let a: [u8; 3] = [9, 9, 9];
    let b: [u8; 4] = [1, 1, 1, 1];
    let c: [u8; 2] = [2, 2];
    let t = append_gpu_data(EmptyGpuTable, SliceBlock::from_bytes(&a));
    let t = append_gpu_data(t, SliceBlock::from_bytes(&b));
    let t = append_gpu_data(t, SliceBlock::from_bytes(&c));
    assert_eq!(t.size(), 12 + 9);
    let mut sink = ByteSink::new(t.size());
    t.write_into(&mut sink).unwrap();
    // Blocks start at bytes 12, 15 and 19: words 3, 3 (15 / 4) and 4 (19 / 4).
    assert_eq!(words(&sink.as_bytes()[0..12]), vec![3, 3, 4]);
}

#[test]
fn slice_block_writes_native_element_bytes() {
    let a: [u32; 2] = [0x0102_0304, 0x0a0b_0c0d];
    let block = SliceBlock::new(&a[..]);
    assert_eq!(block.size(), 8);
    let mut sink = ByteSink::new(8);
    block.write_into(&mut sink).unwrap();
    let mut expected = a[0].to_ne_bytes().to_vec();
    expected.extend_from_slice(&a[1].to_ne_bytes());
    assert_eq!(sink.into_bytes(), expected);
}

#[test]
fn sink_write_word_uses_native_order() {
    let mut sink = ByteSink::new(4);
    assert_eq!(sink.write_word(0x1122_3344), Ok(()));
    assert_eq!(sink.as_bytes(), &0x1122_3344u32.to_ne_bytes());
    assert_eq!(sink.write_word(1), Err(WriteError::Full));
}

#[test]
fn sink_refuses_bytes_that_do_not_fit() {
    let mut sink = ByteSink::new(5);
    assert_eq!(sink.write_all(&[1, 2, 3]), Ok(()));
    assert_eq!(sink.remaining(), 2);
    assert_eq!(sink.write_all(&[4, 5, 6]), Err(WriteError::Full));
    assert_eq!(sink.as_bytes(), &[1, 2, 3]);
    assert_eq!(sink.write_all(&[4, 5]), Ok(()));
    assert_eq!(sink.into_bytes(), vec![1, 2, 3, 4, 5]);
}
