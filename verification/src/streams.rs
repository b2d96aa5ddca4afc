//! The byte-stream collaborators an execution engine runs against: a source
//! of single bytes and a sink for single bytes, together with in-memory
//! implementations and the trailing-newline decorator.

use vstd::prelude::*;

verus! {

/// A byte source: "read exactly one byte, or fail".
///
/// Callers outside the library may implement this for real input streams;
/// such implementations are not checked against these contracts.
pub trait ByteSource {
    /// The bytes this source still holds, in the order reads return them.
    /// An implementation outside the library may leave this default, which
    /// promises its callers nothing.
    open spec fn bytes(&self) -> Seq<u8> {
        Seq::empty()
    }

    /// Read exactly one byte, or fail with the cause. A successful read
    /// returns the first byte the source held and consumes it; a failed
    /// read consumes nothing.
    fn read_byte(&mut self) -> (r: Result<u8, String>)
        ensures
            r matches Ok(b) ==> old(self).bytes().len() > 0 && b == old(self).bytes()[0]
                && final(self).bytes() == old(self).bytes().drop_first(),
            r is Err ==> final(self).bytes() == old(self).bytes(),
    ;
}

/// A byte sink: "write exactly one byte, or fail", plus an explicit flush.
///
/// Callers outside the library may implement this for real output streams;
/// such implementations are not checked against these contracts.
pub trait ByteSink {
    /// The bytes successfully written so far. An implementation outside the
    /// library may leave this default, which promises its callers nothing.
    open spec fn bytes(&self) -> Seq<u8> {
        Seq::empty()
    }

    /// Write exactly one byte, or fail with the cause. A successful write
    /// appends the byte; a failed write appends nothing.
    fn write_byte(&mut self, value: u8) -> (r: Result<(), String>)
        ensures
            r is Ok ==> final(self).bytes() == old(self).bytes().push(value),
            r is Err ==> final(self).bytes() == old(self).bytes(),
    ;

    /// Push written bytes through; the bytes written do not change.
    fn flush_sink(&mut self) -> (r: Result<(), String>)
        ensures
            final(self).bytes() == old(self).bytes(),
    ;
}

/// An in-memory byte source: reads walk a vector front to back and fail
/// once nothing is left.
pub struct VecSource {
    /// All the bytes, read and unread.
    pub data: Vec<u8>,
    /// How many bytes have been read.
    pub pos: usize,
}

impl VecSource {
    /// A source that will yield the bytes of `data`, in order.
    pub fn new(data: Vec<u8>) -> (r: VecSource)
        ensures
            r.bytes() == data@,
    {
        let r = VecSource { data, pos: 0 };
        proof {
            assert(r.data@.skip(0) =~= r.data@);
        }
        r
    }
}

impl ByteSource for VecSource {
    open spec fn bytes(&self) -> Seq<u8> {
        if self.pos <= self.data@.len() {
            self.data@.skip(self.pos as int)
        } else {
            Seq::empty()
        }
    }

    fn read_byte(&mut self) -> (r: Result<u8, String>)
        ensures
            r is Ok <==> old(self).bytes().len() > 0,
    {
        if self.pos < self.data.len() {
            let b = self.data[self.pos];
            self.pos = self.pos + 1;
            proof {
                assert(self.bytes() =~= old(self).bytes().drop_first());
            }
            Ok(b)
        } else {
            Err("no byte left to read".to_owned())
        }
    }
}

/// An in-memory byte sink: writes append to a vector, up to an optional
/// capacity; a write past the capacity fails and appends nothing.
pub struct VecSink {
    /// The bytes written so far.
    pub data: Vec<u8>,
    /// The number of bytes this sink accepts in all, if bounded.
    pub capacity: Option<usize>,
}

impl VecSink {
    /// A sink that accepts any number of bytes.
    pub fn new() -> (r: VecSink)
        ensures
            r.bytes() == Seq::<u8>::empty(),
            r.capacity is None,
    {
        VecSink { data: Vec::new(), capacity: None }
    }

    /// A sink that accepts at most `capacity` bytes.
    pub fn with_capacity(capacity: usize) -> (r: VecSink)
        ensures
            r.bytes() == Seq::<u8>::empty(),
            r.capacity == Some(capacity),
    {
        VecSink { data: Vec::new(), capacity: Some(capacity) }
    }
}

impl ByteSink for VecSink {
    open spec fn bytes(&self) -> Seq<u8> {
        self.data@
    }

    fn write_byte(&mut self, value: u8) -> (r: Result<(), String>)
        ensures
            r is Ok <==> (old(self).capacity matches Some(cap) ==> old(self).bytes().len() < cap),
            final(self).capacity == old(self).capacity,
    {
        let full = match self.capacity {
            Some(cap) => self.data.len() >= cap,
            None => false,
        };
        if full {
            Err("sink accepts no further byte".to_owned())
        } else {
            self.data.push(value);
            Ok(())
        }
    }

    fn flush_sink(&mut self) -> (r: Result<(), String>)
        ensures
            r is Ok,
    {
        Ok(())
    }
}

/// A decorator that remembers the last byte handed to the wrapped sink, so
/// that [`WriterWithTrailingNewline::finish`] can close the output with a
/// newline when the program did not produce one itself.
pub struct WriterWithTrailingNewline<S> {
    /// The wrapped sink; every written byte is passed on to it.
    pub inner_writer: S,
    /// The last byte handed to a write, or zero before the first write.
    pub last_byte: u8,
}

impl<S: ByteSink> WriterWithTrailingNewline<S> {
    /// Wrap `inner_writer`.
    pub fn new(inner_writer: S) -> (r: WriterWithTrailingNewline<S>)
        ensures
            r.inner_writer == inner_writer,
            r.last_byte == 0,
    {
        WriterWithTrailingNewline { inner_writer, last_byte: 0 }
    }

    /// Append the closing newline, unless the last byte written was one.
    pub fn finish(&mut self) -> (r: Result<(), String>)
        ensures
            old(self).last_byte == 10 ==> r is Ok && final(self).inner_writer.bytes()
                == old(self).inner_writer.bytes(),
            old(self).last_byte != 10 && r is Ok ==> final(self).inner_writer.bytes()
                == old(self).inner_writer.bytes().push(10),
            r is Err ==> final(self).inner_writer.bytes() == old(self).inner_writer.bytes(),
    {
        if self.last_byte != 10 {
            self.write_byte(10)
        } else {
            Ok(())
        }
    }
}

impl<S: ByteSink> ByteSink for WriterWithTrailingNewline<S> {
    open spec fn bytes(&self) -> Seq<u8> {
        self.inner_writer.bytes()
    }

    fn write_byte(&mut self, value: u8) -> (r: Result<(), String>)
        ensures
            final(self).last_byte == value,
    {
        self.last_byte = value;
        self.inner_writer.write_byte(value)
    }

    fn flush_sink(&mut self) -> (r: Result<(), String>) {
        self.inner_writer.flush_sink()
    }
}

} // verus!
