use vstd::prelude::*;

verus! {

/// A failure reported by a byte sink while accepting or flushing bytes.
#[derive(Debug, PartialEq, Eq)]
pub struct SinkError {
    pub message: String,
}

/// A destination for bytes that can be flushed.
pub trait Sink: Sized {
    /// Every byte the sink has accepted so far, in order.
    spec fn contents(&self) -> Seq<u8>;

    /// Whether the sink never fails (an in-memory buffer, say).
    spec fn reliable(&self) -> bool;

    /// Accepts all of `bytes`, or fails.
    fn write_all(&mut self, bytes: &[u8]) -> (r: Result<(), SinkError>)
        ensures
            r is Ok ==> final(self).contents() == old(self).contents() + bytes@,
            final(self).reliable() == old(self).reliable(),
            old(self).reliable() ==> r is Ok,
    ;

    /// Pushes accepted bytes on to their destination, or fails.
    fn flush(&mut self) -> (r: Result<(), SinkError>)
        ensures
            r is Ok ==> final(self).contents() == old(self).contents(),
            final(self).reliable() == old(self).reliable(),
            old(self).reliable() ==> r is Ok,
    ;
}

impl Sink for Vec<u8> {
    open spec fn contents(&self) -> Seq<u8> {
        self@
    }

    open spec fn reliable(&self) -> bool {
        true
    }

    fn write_all(&mut self, bytes: &[u8]) -> (r: Result<(), SinkError>) {
        let mut i: usize = 0;
        while i < bytes.len()
            invariant
                i <= bytes@.len(),
                self@ == old(self)@ + bytes@.subrange(0, i as int),
            decreases bytes@.len() - i,
        {
            self.push(bytes[i]);
            i += 1;
            assert(self@ =~= old(self)@ + bytes@.subrange(0, i as int));
        }
        assert(bytes@.subrange(0, i as int) =~= bytes@);
        Ok(())
    }

    fn flush(&mut self) -> (r: Result<(), SinkError>) {
        Ok(())
    }
}

/// An in-memory sink of fixed size: it refuses, whole, any write that would
/// take it past its limit.
pub struct BoundedSink {
    data: Vec<u8>,
    limit: usize,
}

impl BoundedSink {
    /// The most bytes the sink holds.
    pub closed spec fn limit(&self) -> nat {
        self.limit as nat
    }

    /// Makes an empty sink that holds at most `limit` bytes.
    pub fn new(limit: usize) -> (r: Self)
        ensures
            r.contents() == Seq::<u8>::empty(),
            r.limit() == limit,
    {
        BoundedSink { data: Vec::new(), limit }
    }

    /// The bytes accepted so far.
    pub fn data(&self) -> (r: &Vec<u8>)
        ensures
            r@ == self.contents(),
    {
        &self.data
    }
}

impl Sink for BoundedSink {
    closed spec fn contents(&self) -> Seq<u8> {
        self.data@
    }

    open spec fn reliable(&self) -> bool {
        false
    }

    fn write_all(&mut self, bytes: &[u8]) -> (r: Result<(), SinkError>)
        ensures
            r is Ok <==> old(self).contents().len() + bytes@.len() <= old(self).limit(),
            r is Err ==> final(self).contents() == old(self).contents(),
            final(self).limit() == old(self).limit(),
    {
        if self.data.len() > self.limit || bytes.len() > self.limit - self.data.len() {
            return Err(SinkError { message: "the sink is full".to_string() });
        }
        self.data.write_all(bytes)
    }

    fn flush(&mut self) -> (r: Result<(), SinkError>)
        ensures
            r is Ok,
            final(self).contents() == old(self).contents(),
            final(self).limit() == old(self).limit(),
    {
        Ok(())
    }
}

/// How many bytes a line writer holds back before it hands them on, when no
/// linefeed comes.
pub const CAPACITY: usize = 1024;

/// Whether a byte string holds a linefeed.
pub open spec fn has_linefeed(s: Seq<u8>) -> bool {
    exists|i: int| 0 <= i < s.len() && s[i] == crate::dispatch::LINEFEED
}

/// Holds bytes back until a linefeed comes, then hands them on to the inner
/// sink and flushes it. Bytes that a failed hand-off could not deliver stay
/// held back, so that the next hand-off tries them again.
pub struct LineWriter<W: Sink> {
    inner: W,
    buf: Vec<u8>,
    origin: Ghost<Seq<u8>>,
    taken: Ghost<Seq<u8>>,
    written: Ghost<Seq<u8>>,
    faults: Ghost<Seq<SinkError>>,
}

/// What a failed release hands back: the error, and the writer that still
/// holds the sink and the bytes that it could not deliver.
pub struct IntoInnerError<W: Sink> {
    pub error: SinkError,
    pub writer: LineWriter<W>,
}

impl<W: Sink> LineWriter<W> {
    /// What the inner sink held when the writer was made.
    pub closed spec fn origin(&self) -> Seq<u8> {
        self.origin@
    }

    /// The bytes taken out of the inner sink while the writer held it.
    pub closed spec fn taken(&self) -> Seq<u8> {
        self.taken@
    }

    /// Every byte the inner sink has accepted, those taken out of it first.
    pub open spec fn delivered(&self) -> Seq<u8> {
        self.taken() + self.sink().contents()
    }

    /// Every byte that has been written to this writer, in order.
    pub closed spec fn written(&self) -> Seq<u8> {
        self.written@
    }

    /// The bytes held back, not yet handed on.
    pub closed spec fn pending(&self) -> Seq<u8> {
        self.buf@
    }

    /// The inner sink.
    pub closed spec fn sink(&self) -> W {
        self.inner
    }

    /// Every failure of the inner sink met so far, in order.
    pub closed spec fn faults(&self) -> Seq<SinkError> {
        self.faults@
    }

    /// The sink and the buffer account for everything written, while nothing
    /// failed, and a reliable sink has never failed.
    closed spec fn accounted(&self) -> bool {
        &&& self.faults@.len() == 0 ==> self.taken@ + self.inner.contents() + self.buf@
            == self.origin@ + self.written@
        &&& self.inner.reliable() ==> self.faults@.len() == 0
    }

    pub closed spec fn wf(&self) -> bool {
        &&& self.accounted()
        &&& self.faults@.len() == 0 ==> !has_linefeed(self.buf@)
    }

    pub proof fn lemma_wf(&self)
        requires
            self.wf(),
        ensures
            self.faults().len() == 0 ==> self.delivered() + self.pending() == self.origin()
                + self.written(),
            self.sink().reliable() ==> self.faults().len() == 0,
            self.faults().len() == 0 ==> !has_linefeed(self.pending()),
    {
    }

    /// Makes a line writer that hands its bytes on to `inner`.
    pub fn new(inner: W) -> (r: Self)
        ensures
            r.wf(),
            r.sink() == inner,
            r.origin() == inner.contents(),
            r.taken() == Seq::<u8>::empty(),
            r.written() == Seq::<u8>::empty(),
            r.pending() == Seq::<u8>::empty(),
            r.faults() == Seq::<SinkError>::empty(),
    {
        let ghost origin = inner.contents();
        let r = LineWriter {
            inner,
            buf: Vec::new(),
            origin: Ghost(origin),
            taken: Ghost(Seq::empty()),
            written: Ghost(Seq::empty()),
            faults: Ghost(Seq::empty()),
        };
        assert(r.taken@ + r.inner.contents() + r.buf@ =~= r.origin@ + r.written@);
        r
    }

    /// Hands every held-back byte on to the inner sink, then flushes it when
    /// `then_flush` is set. On failure the bytes stay held back.
    fn hand_off(&mut self, then_flush: bool) -> (r: Result<(), SinkError>)
        requires
            old(self).accounted(),
        ensures
            final(self).wf(),
            final(self).origin() == old(self).origin(),
            final(self).taken() == old(self).taken(),
            final(self).written() == old(self).written(),
            final(self).sink().reliable() == old(self).sink().reliable(),
            r is Ok ==> final(self).pending() == Seq::<u8>::empty(),
            r is Ok ==> final(self).faults() == old(self).faults(),
            r is Ok ==> final(self).sink().contents() == old(self).sink().contents() + old(
                self,
            ).pending(),
            r is Err && !then_flush ==> final(self).pending() == old(self).pending(),
            r is Err ==> final(self).pending() == old(self).pending() || final(self).pending()
                == Seq::<u8>::empty(),
            r is Err ==> final(self).faults() == old(self).faults().push(r->Err_0),
            old(self).sink().reliable() ==> r is Ok,
    {
        match self.inner.write_all(self.buf.as_slice()) {
            Ok(()) => {},
            Err(e) => {
                self.faults = Ghost(self.faults@.push(e));
                return Err(e);
            },
        }
        self.buf.clear();
        assert(self.faults@.len() == 0 ==> self.taken@ + self.inner.contents() + self.buf@
            =~= self.origin@ + self.written@);
        if then_flush {
            match self.inner.flush() {
                Ok(()) => {},
                Err(e) => {
                    self.faults = Ghost(self.faults@.push(e));
                    return Err(e);
                },
            }
        }
        Ok(())
    }

    /// Takes `bytes` in. Hands everything held back on to the inner sink and
    /// flushes it when `bytes` holds a linefeed, and hands it on without a
    /// flush when the held-back bytes reach the capacity.
    pub fn write(&mut self, bytes: &[u8]) -> (r: Result<(), SinkError>)
        requires
            old(self).wf(),
        ensures
            final(self).wf(),
            final(self).origin() == old(self).origin(),
            final(self).taken() == old(self).taken(),
            final(self).written() == old(self).written() + bytes@,
            final(self).sink().reliable() == old(self).sink().reliable(),
            r is Ok ==> final(self).faults() == old(self).faults(),
            r is Err ==> final(self).faults() == old(self).faults().push(r->Err_0),
            r is Ok && has_linefeed(bytes@) ==> final(self).pending() == Seq::<u8>::empty(),
            old(self).sink().reliable() ==> r is Ok,
    {
        let mut linefeed = false;
        let mut i: usize = 0;
        while i < bytes.len()
            invariant
                i <= bytes@.len(),
                self.buf@ == old(self).buf@ + bytes@.subrange(0, i as int),
                self.inner == old(self).inner,
                self.origin == old(self).origin,
                self.taken == old(self).taken,
                self.written == old(self).written,
                self.faults == old(self).faults,
                linefeed <==> exists|k: int| 0 <= k < i && bytes@[k] == crate::dispatch::LINEFEED,
            decreases bytes@.len() - i,
        {
            if bytes[i] == crate::dispatch::LINEFEED {
                linefeed = true;
            }
            self.buf.push(bytes[i]);
            i += 1;
            assert(self.buf@ =~= old(self).buf@ + bytes@.subrange(0, i as int));
        }
        assert(bytes@.subrange(0, i as int) =~= bytes@);
        let ghost old_written = self.written@;
        self.written = Ghost(self.written@ + bytes@);
        proof {
            if self.faults@.len() == 0 {
                let c = self.taken@ + self.inner.contents();
                assert(c + old(self).buf@ == self.origin@ + old_written);
                assert(c + self.buf@ =~= (c + old(self).buf@) + bytes@);
                assert(self.origin@ + self.written@ =~= (self.origin@ + old_written) + bytes@);
            }
        }
        proof {
            if !linefeed && self.faults@.len() == 0 {
                assert forall|k: int| 0 <= k < self.buf@.len() implies self.buf@[k]
                    != crate::dispatch::LINEFEED by {
                    if k >= old(self).buf@.len() {
                        assert(self.buf@[k] == bytes@[k - old(self).buf@.len()]);
                    } else {
                        assert(self.buf@[k] == old(self).buf@[k]);
                    }
                }
            }
        }
        if linefeed {
            self.hand_off(true)
        } else if self.buf.len() >= CAPACITY {
            self.hand_off(false)
        } else {
            Ok(())
        }
    }

    /// Hands every held-back byte on to the inner sink and flushes it. When
    /// handing the bytes on fails they stay held back, in order; they leave
    /// the buffer only once the sink has taken them.
    pub fn flush(&mut self) -> (r: Result<(), SinkError>)
        requires
            old(self).wf(),
        ensures
            final(self).wf(),
            final(self).origin() == old(self).origin(),
            final(self).taken() == old(self).taken(),
            final(self).written() == old(self).written(),
            final(self).sink().reliable() == old(self).sink().reliable(),
            r is Ok ==> final(self).pending() == Seq::<u8>::empty(),
            r is Ok ==> final(self).faults() == old(self).faults(),
            r is Err ==> final(self).faults() == old(self).faults().push(r->Err_0),
            r is Err ==> final(self).pending() == old(self).pending() || final(self).pending()
                == Seq::<u8>::empty(),
            old(self).sink().reliable() ==> r is Ok,
    {
        self.hand_off(true)
    }

    /// Hands every held-back byte on to the inner sink and gives the sink
    /// back; on failure gives the error back with this writer.
    pub fn into_inner(self) -> (r: Result<W, IntoInnerError<W>>)
        requires
            self.wf(),
        ensures
            r is Ok ==> r->Ok_0.contents() == self.sink().contents() + self.pending(),
            r is Ok && self.faults().len() == 0 ==> self.taken() + r->Ok_0.contents()
                == self.origin() + self.written(),
            r is Err ==> r->Err_0.writer.wf(),
            r is Err ==> r->Err_0.writer.written() == self.written(),
            r is Err ==> r->Err_0.writer.origin() == self.origin(),
            r is Err ==> r->Err_0.writer.taken() == self.taken(),
            r is Err ==> r->Err_0.writer.pending() == self.pending(),
            r is Err ==> r->Err_0.writer.faults() == self.faults().push(r->Err_0.error),
            self.sink().reliable() ==> r is Ok,
    {
        let mut w = self;
        match w.hand_off(false) {
            Ok(()) => {
                assert(self.faults@.len() == 0 ==> self.taken@ + self.inner.contents() + self.buf@
                    =~= self.origin@ + self.written@);
                Ok(w.inner)
            },
            Err(e) => Err(IntoInnerError { error: e, writer: w }),
        }
    }
}

impl LineWriter<Vec<u8>> {
    /// Takes out of the in-memory sink every byte handed on to it so far,
    /// leaving it empty; the bytes held back stay.
    pub fn take_delivered(&mut self) -> (r: Vec<u8>)
        requires
            old(self).wf(),
        ensures
            final(self).wf(),
            r@ == old(self).sink()@,
            final(self).sink()@ == Seq::<u8>::empty(),
            final(self).taken() == old(self).taken() + r@,
            final(self).origin() == old(self).origin(),
            final(self).written() == old(self).written(),
            final(self).pending() == old(self).pending(),
            final(self).faults() == old(self).faults(),
    {
        let mut r: Vec<u8> = Vec::new();
        std::mem::swap(&mut self.inner, &mut r);
        self.taken = Ghost(self.taken@ + r@);
        assert(self.faults@.len() == 0 ==> self.taken@ + self.inner.contents() + self.buf@
            =~= old(self).taken@ + old(self).inner.contents() + self.buf@);
        r
    }
}

} // verus!
