//! Where the decoded samples of a downloading track go: 16-bit signed stereo
//! samples, handed to a sink in order.

use vstd::prelude::*;
use vstd::rwlock::{RwLock, RwLockPredicate};
use std::sync::Arc;

verus! {

/// `std::io::Error`, the error a sink reports.
#[verifier::external_type_specification]
#[verifier::external_body]
pub struct ExIoError(std::io::Error);

/// Receives the samples of a track as it is decoded.
pub trait DownloadSink: Send + 'static {
    /// Called once before the first samples; unless a sink says otherwise,
    /// this does nothing and succeeds.
    fn start(&mut self) -> (r: Result<(), std::io::Error>)
        default_ensures
            r is Ok,
    {
        Ok(())
    }

    /// Called with each block of samples, in order.
    fn write_samples(&mut self, samples: &[i16]) -> Result<(), std::io::Error>;

    /// Called once after the last samples; unless a sink says otherwise,
    /// this does nothing and succeeds.
    fn finish(&mut self) -> (r: Result<(), std::io::Error>)
        default_ensures
            r is Ok,
    {
        Ok(())
    }
}

/// A sink that drops every sample.
#[derive(Debug, Clone, Copy, Default)]
pub struct NullDownloadSink;

impl DownloadSink for NullDownloadSink {
    fn start(&mut self) -> (r: Result<(), std::io::Error>)
        ensures
            r is Ok,
    {
        Ok(())
    }

    fn write_samples(&mut self, samples: &[i16]) -> (r: Result<(), std::io::Error>)
        ensures
            r is Ok,
    {
        Ok(())
    }

    fn finish(&mut self) -> (r: Result<(), std::io::Error>)
        ensures
            r is Ok,
    {
        Ok(())
    }
}

/// What the shared buffer of a `MemoryDownloadSink` may hold: any samples.
pub struct AnySamples;

impl RwLockPredicate<Vec<i16>> for AnySamples {
    open spec fn inv(self, v: Vec<i16>) -> bool {
        true
    }
}

/// Appends `samples` to `buffer`, in order.
pub fn append_samples(buffer: &mut Vec<i16>, samples: &[i16])
    ensures
        final(buffer)@ == old(buffer)@ + samples@,
{
    let ghost start = buffer@;
    let mut i: usize = 0;
    while i < samples.len()
        invariant
            i <= samples@.len(),
            buffer@ == start + samples@.take(i as int),
        decreases samples@.len() - i,
    {
        buffer.push(samples[i]);
        assert(start + samples@.take(i + 1) =~= (start + samples@.take(i as int)).push(samples@[i as int]));
        i = i + 1;
    }
    assert(samples@.take(samples@.len() as int) =~= samples@);
}

/// A sink that keeps every sample in memory. Its clones share one buffer:
/// samples written through any of them are taken out through any of them.
///
/// The buffer sits behind a lock shared by the clones, so what it holds at a
/// given moment depends on what every clone has done; the contracts below do
/// not speak of it.
#[derive(Clone)]
pub struct MemoryDownloadSink {
    shared: Arc<RwLock<Vec<i16>, AnySamples>>,
}

impl Default for MemoryDownloadSink {
    /// A sink with an empty buffer of its own.
    fn default() -> (s: Self) {
        MemoryDownloadSink { shared: Arc::new(RwLock::new(Vec::new(), Ghost(AnySamples))) }
    }
}

impl MemoryDownloadSink {
    /// How many samples the shared buffer holds.
    pub fn sample_count(&self) -> (n: usize) {
        let handle = self.shared.acquire_read();
        let n = handle.borrow().len();
        handle.release_read();
        n
    }

    /// Takes the samples written so far through this sink or any of its
    /// clones, in order, leaving the shared buffer empty.
    pub fn take_buffer(&self) -> (b: Vec<i16>) {
        let (b, handle) = self.shared.acquire_write();
        handle.release_write(Vec::new());
        b
    }
}

impl DownloadSink for MemoryDownloadSink {
    fn start(&mut self) -> (r: Result<(), std::io::Error>)
        ensures
            r is Ok,
    {
        Ok(())
    }

    /// Appends the samples to the shared buffer.
    fn write_samples(&mut self, samples: &[i16]) -> (r: Result<(), std::io::Error>)
        ensures
            r is Ok,
    {
        let (mut buffer, handle) = self.shared.acquire_write();
        append_samples(&mut buffer, samples);
        handle.release_write(buffer);
        Ok(())
    }

    fn finish(&mut self) -> (r: Result<(), std::io::Error>)
        ensures
            r is Ok,
    {
        Ok(())
    }
}

/// The two bytes of a sample, least significant first.
pub open spec fn le_bytes(s: i16) -> (u8, u8) {
    let u = s as u16;
    ((u % 256) as u8, (u / 256) as u8)
}

/// The bytes of samples as a writer receives them: each sample's two bytes,
/// least significant first.
pub open spec fn samples_bytes(samples: Seq<i16>) -> Seq<u8>
    decreases samples.len(),
{
    if samples.len() == 0 {
        seq![]
    } else {
        let (lo, hi) = le_bytes(samples.last());
        samples_bytes(samples.drop_last()) + seq![lo, hi]
    }
}

/// The little-endian bytes of a sample.
pub fn sample_le_bytes(s: i16) -> (b: [u8; 2])
    ensures
        b@ == seq![le_bytes(s).0, le_bytes(s).1],
{
    let u: u16 = s as u16;
    let b = [(u % 256) as u8, (u / 256) as u8];
    assert(b@ =~= seq![le_bytes(s).0, le_bytes(s).1]);
    b
}

/// The bytes of samples, each sample little-endian.
pub fn samples_to_le_bytes(samples: &[i16]) -> (bytes: Vec<u8>)
    ensures
        bytes@ == samples_bytes(samples@),
{
    let mut bytes: Vec<u8> = Vec::new();
    let mut i: usize = 0;
    assert(samples@.take(0) =~= Seq::<i16>::empty());
    while i < samples.len()
        invariant
            i <= samples@.len(),
            bytes@ == samples_bytes(samples@.take(i as int)),
        decreases samples@.len() - i,
    {
        let b = sample_le_bytes(samples[i]);
        bytes.push(b[0]);
        bytes.push(b[1]);
        assert(samples@.take(i + 1).drop_last() =~= samples@.take(i as int));
        i = i + 1;
    }
    assert(samples@.take(samples@.len() as int) =~= samples@);
    bytes
}

/// Where a `WriterDownloadSink` puts bytes, as `std::io::Write` does.
pub trait ByteWriter {
    /// The bytes written so far, in order.
    spec fn written(&self) -> Seq<u8>;

    /// Whether every write and flush of this writer succeeds.
    spec fn never_fails(&self) -> bool;

    /// Writes all of `bytes`, or fails.
    fn write_all(&mut self, bytes: &[u8]) -> (r: Result<(), std::io::Error>)
        ensures
            r is Ok ==> final(self).written() == old(self).written() + bytes@,
            old(self).never_fails() ==> r is Ok,
            final(self).never_fails() == old(self).never_fails(),
    ;

    /// Pushes out whatever is buffered.
    fn flush(&mut self) -> (r: Result<(), std::io::Error>)
        ensures
            final(self).written() == old(self).written(),
            old(self).never_fails() ==> r is Ok,
            final(self).never_fails() == old(self).never_fails(),
    ;
}

/// A byte vector takes every byte written, in order.
impl ByteWriter for Vec<u8> {
    open spec fn written(&self) -> Seq<u8> {
        self@
    }

    open spec fn never_fails(&self) -> bool {
        true
    }

    fn write_all(&mut self, bytes: &[u8]) -> (r: Result<(), std::io::Error>)
        ensures
            r is Ok,
    {
        let ghost start = self@;
        let mut i: usize = 0;
        while i < bytes.len()
            invariant
                i <= bytes@.len(),
                self@ == start + bytes@.take(i as int),
            decreases bytes@.len() - i,
        {
            self.push(bytes[i]);
            assert(start + bytes@.take(i + 1) =~= (start + bytes@.take(i as int)).push(bytes@[i as int]));
            i = i + 1;
        }
        assert(bytes@.take(bytes@.len() as int) =~= bytes@);
        Ok(())
    }

    fn flush(&mut self) -> (r: Result<(), std::io::Error>)
        ensures
            r is Ok,
    {
        Ok(())
    }
}

/// A sink that writes the samples to a writer as little-endian signed 16-bit
/// integers. The writer is not buffered by the sink.
#[derive(Debug)]
pub struct WriterDownloadSink<W> {
    writer: W,
}

impl<W> WriterDownloadSink<W> {
    pub fn new(writer: W) -> (s: Self)
        ensures
            s.writer() == writer,
    {
        WriterDownloadSink { writer }
    }

    pub closed spec fn writer(&self) -> W {
        self.writer
    }

    /// The writer, given back.
    pub fn into_inner(self) -> (w: W)
        ensures
            w == self.writer(),
    {
        self.writer
    }
}

impl<W: ByteWriter + Send + 'static> DownloadSink for WriterDownloadSink<W> {
    /// Writes each sample's two bytes in turn; the first failure stops the writing.
    /// With no samples nothing is written and the call succeeds.
    fn write_samples(&mut self, samples: &[i16]) -> (r: Result<(), std::io::Error>)
        ensures
            r is Ok ==> final(self).writer().written() == old(self).writer().written() + samples_bytes(samples@),
            samples@.len() == 0 ==> r is Ok,
            old(self).writer().never_fails() ==> r is Ok,
            final(self).writer().never_fails() == old(self).writer().never_fails(),
    {
        let ghost start = self.writer.written();
        let ghost reliable = self.writer.never_fails();
        let mut i: usize = 0;
        assert(samples@.take(0) =~= Seq::<i16>::empty());
        while i < samples.len()
            invariant
                i <= samples@.len(),
                self.writer.written() == start + samples_bytes(samples@.take(i as int)),
                self.writer.never_fails() == reliable,
                reliable == old(self).writer().never_fails(),
            decreases samples@.len() - i,
        {
            let b = sample_le_bytes(samples[i]);
            match self.writer.write_all(&b) {
                Ok(()) => {},
                Err(e) => return Err(e),
            }
            assert(samples@.take(i + 1).drop_last() =~= samples@.take(i as int));
            i = i + 1;
        }
        assert(samples@.take(samples@.len() as int) =~= samples@);
        Ok(())
    }

    /// Flushes the writer.
    fn finish(&mut self) -> (r: Result<(), std::io::Error>)
        ensures
            final(self).writer().written() == old(self).writer().written(),
            old(self).writer().never_fails() ==> r is Ok,
            final(self).writer().never_fails() == old(self).writer().never_fails(),
    {
        self.writer.flush()
    }
}

} // verus!
