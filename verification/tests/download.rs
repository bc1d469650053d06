use spotdl::download::{
    append_samples, sample_le_bytes, samples_to_le_bytes, DownloadSink, MemoryDownloadSink, NullDownloadSink, WriterDownloadSink,
};

#[test]
fn memory_sink_keeps_samples() {
    let mut sink = MemoryDownloadSink::default();
    sink.start().unwrap();
    sink.write_samples(&[1, -2, 3]).unwrap();
    sink.write_samples(&[]).unwrap();
    sink.write_samples(&[i16::MIN, i16::MAX]).unwrap();
    sink.finish().unwrap();
    assert_eq!(sink.take_buffer(), vec![1, -2, 3, i16::MIN, i16::MAX]);
    assert_eq!(sink.take_buffer(), Vec::<i16>::new());
}

#[test]
fn memory_sink_clones_share_one_buffer() {
    let sink = MemoryDownloadSink::default();
    let mut clone = sink.clone();
    clone.write_samples(&[7, 8]).unwrap();
    clone.write_samples(&[-9]).unwrap();
    assert_eq!(sink.sample_count(), 3);
    assert_eq!(sink.take_buffer(), vec![7, 8, -9]);
    assert_eq!(sink.take_buffer(), Vec::<i16>::new());
    assert_eq!(clone.take_buffer(), Vec::<i16>::new());
    let other = MemoryDownloadSink::default();
    clone.write_samples(&[1]).unwrap();
    assert_eq!(other.take_buffer(), Vec::<i16>::new());
    assert_eq!(sink.take_buffer(), vec![1]);
}

#[test]
fn append_samples_keeps_order() {
    let mut buffer = vec![1i16];
    append_samples(&mut buffer, &[2, 3]);
    append_samples(&mut buffer, &[]);
    assert_eq!(buffer, vec![1, 2, 3]);
}

#[test]
fn null_sink_accepts_everything() {
    let mut sink = NullDownloadSink;
    assert!(sink.start().is_ok());
    assert!(sink.write_samples(&[1, 2, 3]).is_ok());
    assert!(sink.finish().is_ok());
}

#[test]
fn samples_are_little_endian() {
    assert_eq!(sample_le_bytes(0x1234), [0x34, 0x12]);
    assert_eq!(sample_le_bytes(-1), [0xff, 0xff]);
    assert_eq!(sample_le_bytes(i16::MIN), [0x00, 0x80]);
    assert_eq!(samples_to_le_bytes(&[1, -2]), vec![1, 0, 0xfe, 0xff]);
    let expected: Vec<u8> = [5i16, -300, 7].iter().flat_map(|s| s.to_le_bytes()).collect();
    assert_eq!(samples_to_le_bytes(&[5, -300, 7]), expected);
}

#[test]
fn writer_sink_writes_bytes() {
    let mut sink = WriterDownloadSink::new(Vec::<u8>::new());
    sink.write_samples(&[1, 256]).unwrap();
    sink.write_samples(&[-1]).unwrap();
    sink.finish().unwrap();
    assert_eq!(sink.into_inner(), vec![1, 0, 0, 1, 0xff, 0xff]);
}

struct CountingSink(usize);

impl DownloadSink for CountingSink {
    fn write_samples(&mut self, samples: &[i16]) -> std::io::Result<()> {
        self.0 += samples.len();
        Ok(())
    }
}

#[test]
fn default_start_and_finish_succeed() {
    let mut sink = CountingSink(0);
    assert!(sink.start().is_ok());
    sink.write_samples(&[4, 5]).unwrap();
    assert!(sink.finish().is_ok());
    assert_eq!(sink.0, 2);
}

#[test]
fn writer_sink_empty_block_writes_nothing() {
    let mut sink = WriterDownloadSink::new(Vec::<u8>::new());
    assert!(sink.start().is_ok());
    assert!(sink.write_samples(&[]).is_ok());
    assert!(sink.finish().is_ok());
    assert_eq!(sink.into_inner(), Vec::<u8>::new());
}
