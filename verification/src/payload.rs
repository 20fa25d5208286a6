//! The byte window: bytes that have arrived and have not been consumed yet,
//! with the mark that the source has ended.

use vstd::prelude::*;
use actix_web::error::PayloadError;
use vstd::slice::{slice_subrange, slice_to_vec};
use crate::bytes::{lemma_position_none, lemma_position_some, position, push_all, LF};
use crate::error::MultipartError;
use crate::trusted::find;

verus! {

/// What a window holds, as a value.
pub struct Window {
    /// The bytes not consumed yet, oldest first.
    pub buf: Seq<u8>,
    /// Whether the source has ended.
    pub eof: bool,
}

/// What the byte source did since it was last asked.
pub enum StreamEvent {
    /// It delivered these bytes.
    Data(Vec<u8>),
    /// It ended.
    End,
    /// It failed with this error.
    Failed(PayloadError),
}

/// Payload buffer. The bytes consumed last still stand at the front of
/// its storage, up to `pos`, and are dropped from it now and then, so that
/// taking bytes from the front costs no more than the bytes taken.
pub struct PayloadBuffer {
    eof: bool,
    buf: Vec<u8>,
    pos: usize,
}

impl View for PayloadBuffer {
    type V = Window;

    closed spec fn view(&self) -> Window {
        Window { buf: self.buf@.subrange(self.start(), self.buf@.len() as int), eof: self.eof }
    }
}

/// The window after its first `n` bytes have been consumed.
pub open spec fn drop_front(w: Window, n: int) -> Window {
    Window { buf: w.buf.subrange(n, w.buf.len() as int), eof: w.eof }
}

/// The single line feed that ends a line.
pub open spec fn newline() -> Seq<u8> {
    seq![LF]
}

impl PayloadBuffer {
    /// An empty window on a source that has not ended.
    pub fn new() -> (r: Self)
        ensures
            r@ == (Window { buf: Seq::<u8>::empty(), eof: false }),
    {
        let r = PayloadBuffer { eof: false, buf: Vec::new(), pos: 0 };
        assert(r@.buf =~= Seq::<u8>::empty());
        r
    }

    /// Where the window begins in the storage.
    closed spec fn start(&self) -> int {
        if self.pos <= self.buf@.len() {
            self.pos as int
        } else {
            self.buf@.len() as int
        }
    }

    /// Where the window begins in the storage.
    fn offset(&self) -> (r: usize)
        ensures
            r == self.start(),
            r <= self.buf@.len(),
    {
        if self.pos <= self.buf.len() {
            self.pos
        } else {
            self.buf.len()
        }
    }

    /// Drops the consumed bytes from the storage once they are the greater
    /// part of it.
    fn compact(&mut self)
        ensures
            final(self)@ == old(self)@,
            final(self).pos <= final(self).buf@.len(),
    {
        let start = self.offset();
        if start > 0 && start >= self.buf.len() - start {
            let mut rest = self.buf.split_off(start);
            core::mem::swap(&mut self.buf, &mut rest);
            self.pos = 0;
            assert(self@.buf =~= old(self)@.buf);
        } else {
            self.pos = start;
        }
    }

    /// Takes the first `n` bytes of the window.
    fn take(&mut self, n: usize) -> (head: Vec<u8>)
        requires
            n <= old(self)@.buf.len(),
        ensures
            head@ == old(self)@.buf.subrange(0, n as int),
            final(self)@ == drop_front(old(self)@, n as int),
    {
        let start = self.offset();
        let total = self.buf.len();
        assert(self@.buf.len() == total - start);
        let head = slice_to_vec(slice_subrange(self.buf.as_slice(), start, start + n));
        assert(head@ =~= old(self)@.buf.subrange(0, n as int));
        if start + n == self.buf.len() {
            self.buf.clear();
            self.pos = 0;
        } else {
            self.pos = start + n;
        }
        assert(self@.buf =~= old(self)@.buf.subrange(n as int, old(self)@.buf.len() as int));
        head
    }

    /// Whether the source has ended.
    pub fn is_eof(&self) -> (r: bool)
        ensures
            r == self@.eof,
    {
        self.eof
    }

    /// The bytes not consumed yet.
    pub fn buffered(&self) -> (r: &[u8])
        ensures
            r@ == self@.buf,
    {
        slice_subrange(self.buf.as_slice(), self.offset(), self.buf.len())
    }

    /// Appends bytes that arrived from the source. After the source has
    /// ended nothing more is taken in.
    pub fn extend(&mut self, chunk: &[u8])
        ensures
            final(self)@.eof == old(self)@.eof,
            final(self)@.buf == if old(self)@.eof {
                old(self)@.buf
            } else {
                old(self)@.buf + chunk@
            },
    {
        if !self.eof {
            self.compact();
            let ghost before = self.buf@;
            let ghost start = self.start();
            push_all(&mut self.buf, chunk);
            assert(self.start() == start);
            assert(before.subrange(start, before.len() as int) == old(self)@.buf);
            assert(self@.buf =~= before.subrange(start, before.len() as int) + chunk@);
        }
    }

    /// Takes in what the source did: bytes are appended, the end is
    /// recorded, a failure is answered with `TransportError` and leaves the
    /// window as it was; the error of the source stays with the event.
    pub fn poll_stream(&mut self, event: &StreamEvent) -> (r: Result<(), MultipartError>)
        ensures
            match *event {
                StreamEvent::Data(data) => r.is_ok() && final(self)@.eof == old(self)@.eof
                    && final(self)@.buf == if old(self)@.eof {
                    old(self)@.buf
                } else {
                    old(self)@.buf + data@
                },
                StreamEvent::End => r.is_ok() && final(self)@.eof && final(self)@.buf == old(self)@.buf,
                StreamEvent::Failed(_) => r == Err::<(), MultipartError>(
                    MultipartError::TransportError,
                ) && final(self)@ == old(self)@,
            },
    {
        match event {
            StreamEvent::Data(data) => {
                self.extend(data.as_slice());
                Ok(())
            },
            StreamEvent::End => {
                self.eof = true;
                Ok(())
            },
            StreamEvent::Failed(_) => Err(MultipartError::TransportError),
        }
    }

    /// Takes up to `size` bytes from the front. With nothing buffered it is
    /// `Incomplete` after the end of the source and pending before.
    pub fn read_max(&mut self, size: u64) -> (r: Result<Option<Vec<u8>>, MultipartError>)
        ensures
            old(self)@.buf.len() > 0 ==> ({
                let n = if old(self)@.buf.len() <= size {
                    old(self)@.buf.len() as int
                } else {
                    size as int
                };
                &&& r matches Ok(Some(chunk))
                &&& chunk@ == old(self)@.buf.subrange(0, n)
                &&& final(self)@ == drop_front(old(self)@, n)
            }),
            old(self)@.buf.len() == 0 ==> final(self)@ == old(self)@ && r == (if old(self)@.eof {
                Err::<Option<Vec<u8>>, MultipartError>(MultipartError::Incomplete)
            } else {
                Ok::<Option<Vec<u8>>, MultipartError>(None)
            }),
    {
        let len = self.buffered().len();
        if len > 0 {
            let n: usize = if len as u64 <= size {
                len
            } else {
                size as usize
            };
            Ok(Some(self.take(n)))
        } else if self.eof {
            Err(MultipartError::Incomplete)
        } else {
            Ok(None)
        }
    }

    /// Takes all bytes up to and including the first occurrence of `line`.
    /// Where `line` does not occur, nothing is taken: the result is
    /// `Incomplete` after the end of the source and pending before.
    pub fn read_until(&mut self, line: &[u8]) -> (r: Result<Option<Vec<u8>>, MultipartError>)
        ensures
            match position(old(self)@.buf, line@) {
                Some(i) => {
                    &&& r matches Ok(Some(chunk))
                    &&& chunk@ == old(self)@.buf.subrange(0, i + line@.len())
                    &&& final(self)@ == drop_front(old(self)@, i + line@.len())
                },
                None => final(self)@ == old(self)@ && r == (if old(self)@.eof {
                    Err::<Option<Vec<u8>>, MultipartError>(MultipartError::Incomplete)
                } else {
                    Ok::<Option<Vec<u8>>, MultipartError>(None)
                }),
            },
    {
        match find(self.buffered(), line) {
            Some(idx) => {
                proof {
                    lemma_position_some(self@.buf, line@, idx as int);
                }
                let total = self.buffered().len();
                assert(idx + line@.len() <= total);
                let chunk = self.take(idx + line.len());
                Ok(Some(chunk))
            },
            None => {
                proof {
                    lemma_position_none(self@.buf, line@);
                }
                if self.eof {
                    Err(MultipartError::Incomplete)
                } else {
                    Ok(None)
                }
            },
        }
    }

    /// Takes one line, together with its line feed.
    pub fn readline(&mut self) -> (r: Result<Option<Vec<u8>>, MultipartError>)
        ensures
            match position(old(self)@.buf, newline()) {
                Some(i) => {
                    &&& r matches Ok(Some(chunk))
                    &&& chunk@ == old(self)@.buf.subrange(0, i + 1)
                    &&& final(self)@ == drop_front(old(self)@, i + 1)
                },
                None => final(self)@ == old(self)@ && r == (if old(self)@.eof {
                    Err::<Option<Vec<u8>>, MultipartError>(MultipartError::Incomplete)
                } else {
                    Ok::<Option<Vec<u8>>, MultipartError>(None)
                }),
            },
    {
        let nl: [u8; 1] = [LF];
        assert(nl@ =~= newline());
        self.read_until(nl.as_slice())
    }

    /// Takes one line, or all that is left where the source ended inside
    /// the last line.
    pub fn readline_or_eof(&mut self) -> (r: Option<Vec<u8>>)
        ensures
            match position(old(self)@.buf, newline()) {
                Some(i) => {
                    &&& r matches Some(chunk)
                    &&& chunk@ == old(self)@.buf.subrange(0, i + 1)
                    &&& final(self)@ == drop_front(old(self)@, i + 1)
                },
                None => if old(self)@.eof {
                    &&& r matches Some(chunk)
                    &&& chunk@ == old(self)@.buf
                    &&& final(self)@ == drop_front(old(self)@, old(self)@.buf.len() as int)
                } else {
                    r.is_none() && final(self)@ == old(self)@
                },
            },
    {
        match self.readline() {
            Ok(line) => line,
            Err(_) => {
                let n = self.buffered().len();
                let rest = self.take(n);
                assert(rest@ =~= old(self)@.buf);
                Some(rest)
            },
        }
    }

    /// Puts bytes that were taken too early back in front of the window.
    pub fn unprocessed(&mut self, data: Vec<u8>)
        ensures
            final(self)@.eof == old(self)@.eof,
            final(self)@.buf == data@ + old(self)@.buf,
    {
        let mut front = data;
        push_all(&mut front, self.buffered());
        self.buf = front;
        self.pos = 0;
        assert(self@.buf =~= data@ + old(self)@.buf);
    }
}

} // verus!
