use vstd::prelude::*;

use crate::dispatch::encode_utf8;
use crate::dispatch::forwarded;
use crate::dispatch::lemma_visible_push;
use crate::dispatch::stripped;
use crate::dispatch::utf8;
use crate::dispatch::visible;
use crate::dispatch::LINEFEED;
use crate::scan::tokens_of;
use crate::scan::Scanner;
use crate::scan::Token;
use crate::sink::has_linefeed;
use crate::sink::IntoInnerError;
use crate::sink::LineWriter;
use crate::sink::Sink;
use crate::sink::SinkError;

verus! {

/// Receives the tokens of the escape-sequence parser and passes the visible
/// ones on to a line-buffered sink, keeping the last failure for its caller.
pub struct Performer<W: Sink> {
    writer: LineWriter<W>,
    err: Option<SinkError>,
}

/// Whether a performer went from `a` to `b` by one forwarding attempt: either
/// nothing failed and the pending error stayed, or one failure was met and it
/// became the pending error.
pub open spec fn one_attempt<W: Sink>(a: &Performer<W>, b: &Performer<W>) -> bool {
    ||| b.faults() == a.faults() && b.pending_error() == a.pending_error()
    ||| b.faults().len() == a.faults().len() + 1 && b.faults().drop_last() == a.faults()
        && b.pending_error() == Some(b.faults().last())
}

impl<W: Sink> Performer<W> {
    /// The line-buffered sink that visible bytes go to.
    pub closed spec fn line_writer(&self) -> LineWriter<W> {
        self.writer
    }

    /// The failure recorded and not yet reported, if any.
    pub closed spec fn pending_error(&self) -> Option<SinkError> {
        self.err
    }

    pub open spec fn faults(&self) -> Seq<SinkError> {
        self.line_writer().faults()
    }

    pub open spec fn wf(&self) -> bool {
        self.line_writer().wf()
    }

    /// Makes a performer that passes visible bytes on to `inner` through a
    /// line buffer.
    pub fn new(inner: W) -> (r: Self)
        ensures
            r.wf(),
            r.pending_error() is None,
            r.line_writer().sink() == inner,
            r.line_writer().origin() == inner.contents(),
            r.line_writer().taken() == Seq::<u8>::empty(),
            r.line_writer().written() == Seq::<u8>::empty(),
            r.line_writer().pending() == Seq::<u8>::empty(),
            r.faults() == Seq::<SinkError>::empty(),
    {
        Performer { writer: LineWriter::new(inner), err: None }
    }

    /// Passes a sequence of bytes on, recording a failure.
    fn forward(&mut self, bytes: &[u8])
        requires
            old(self).wf(),
        ensures
            final(self).wf(),
            final(self).line_writer().written() == old(self).line_writer().written() + bytes@,
            final(self).line_writer().origin() == old(self).line_writer().origin(),
            final(self).line_writer().taken() == old(self).line_writer().taken(),
            final(self).line_writer().sink().reliable() == old(
                self,
            ).line_writer().sink().reliable(),
            one_attempt(&*old(self), &*final(self)),
            has_linefeed(bytes@) && final(self).faults() == old(self).faults() 
                ==> final(self).line_writer().pending() == Seq::<u8>::empty(),
    {
        match self.writer.write(bytes) {
            Ok(()) => {},
            Err(e) => {
                self.err = Some(e);
                assert(self.faults().drop_last() =~= old(self).faults());
            },
        }
    }

    /// A printable character: its UTF-8 encoding is passed on.
    pub fn print(&mut self, c: char)
        requires
            old(self).wf(),
        ensures
            final(self).wf(),
            final(self).line_writer().written() == old(self).line_writer().written() + utf8(c),
            final(self).line_writer().origin() == old(self).line_writer().origin(),
            final(self).line_writer().taken() == old(self).line_writer().taken(),
            final(self).line_writer().sink().reliable() == old(
                self,
            ).line_writer().sink().reliable(),
            one_attempt(&*old(self), &*final(self)),
    {
        let bytes = encode_utf8(c);
        self.forward(bytes.as_slice());
    }

    /// A control byte: a linefeed is passed on, any other is dropped.
    pub fn execute(&mut self, byte: u8)
        requires
            old(self).wf(),
        ensures
            final(self).wf(),
            final(self).line_writer().written() == old(self).line_writer().written() + forwarded(
                Token::Execute(byte),
            ),
            final(self).line_writer().origin() == old(self).line_writer().origin(),
            final(self).line_writer().taken() == old(self).line_writer().taken(),
            final(self).line_writer().sink().reliable() == old(
                self,
            ).line_writer().sink().reliable(),
            one_attempt(&*old(self), &*final(self)),
            byte != LINEFEED ==> *final(self) == *old(self),
            byte == LINEFEED && final(self).faults() == old(self).faults() 
                ==> final(self).line_writer().pending() == Seq::<u8>::empty(),
    {
        if byte == LINEFEED {
            let bytes: [u8; 1] = [LINEFEED];
            assert(bytes@ =~= seq![LINEFEED]);
            assert(bytes@[0] == LINEFEED);
            self.forward(&bytes);
        } else {
            assert(old(self).line_writer().written() + forwarded(Token::Execute(byte))
                =~= old(self).line_writer().written());
        }
    }

    /// Acts on one token of the parser: characters and linefeeds are passed
    /// on, every other token is dropped.
    pub fn perform(&mut self, t: Token)
        requires
            old(self).wf(),
        ensures
            final(self).wf(),
            final(self).line_writer().written() == old(self).line_writer().written()
                + forwarded(t),
            final(self).line_writer().origin() == old(self).line_writer().origin(),
            final(self).line_writer().taken() == old(self).line_writer().taken(),
            final(self).line_writer().sink().reliable() == old(
                self,
            ).line_writer().sink().reliable(),
            one_attempt(&*old(self), &*final(self)),
            forwarded(t) == Seq::<u8>::empty() ==> *final(self) == *old(self),
            t == Token::Execute(LINEFEED) && final(self).faults() == old(self).faults() 
                ==> final(self).line_writer().pending() == Seq::<u8>::empty(),
    {
        match t {
            Token::Print(c) => {
                assert(utf8(c).len() > 0);
                self.print(c)
            },
            Token::Execute(b) => self.execute(b),
            _ => {
                assert(old(self).line_writer().written() + forwarded(t) =~= old(
                    self,
                ).line_writer().written());
            },
        }
    }

    /// Hands every held-back byte on to the sink and flushes it.
    pub fn flush(&mut self) -> (r: Result<(), SinkError>)
        requires
            old(self).wf(),
        ensures
            final(self).wf(),
            final(self).pending_error() == old(self).pending_error(),
            final(self).line_writer().written() == old(self).line_writer().written(),
            final(self).line_writer().origin() == old(self).line_writer().origin(),
            final(self).line_writer().taken() == old(self).line_writer().taken(),
            final(self).line_writer().sink().reliable() == old(
                self,
            ).line_writer().sink().reliable(),
            r is Ok ==> final(self).line_writer().pending() == Seq::<u8>::empty(),
            r is Ok ==> final(self).faults() == old(self).faults(),
            r is Err ==> final(self).faults() == old(self).faults().push(r->Err_0),
            r is Err ==> final(self).line_writer().pending() == old(self).line_writer().pending()
                || final(self).line_writer().pending() == Seq::<u8>::empty(),
            old(self).line_writer().sink().reliable() ==> r is Ok,
    {
        self.writer.flush()
    }

    /// Hands every held-back byte on to the sink and gives the sink back.
    pub fn into_inner(self) -> (r: Result<W, IntoInnerError<W>>)
        requires
            self.wf(),
        ensures
            r is Ok ==> r->Ok_0.contents() == self.line_writer().sink().contents()
                + self.line_writer().pending(),
            r is Ok && self.faults().len() == 0 ==> self.line_writer().taken() + r->Ok_0.contents()
                == self.line_writer().origin() + self.line_writer().written(),
            r is Err ==> r->Err_0.writer.wf(),
            r is Err ==> r->Err_0.writer.written() == self.line_writer().written(),
            r is Err ==> r->Err_0.writer.pending() == self.line_writer().pending(),
            r is Err ==> r->Err_0.writer.faults() == self.faults().push(r->Err_0.error),
            self.line_writer().sink().reliable() ==> r is Ok,
    {
        self.writer.into_inner()
    }
}

/// Wraps a sink and passes on to it only the visible part of what is written:
/// printable characters and linefeeds, with every escape and control sequence
/// taken out.
pub struct Writer<W: Sink> {
    performer: Performer<W>,
    parser: Scanner,
}

impl<W: Sink> Writer<W> {
    /// Every byte written so far, in order.
    pub closed spec fn fed(&self) -> Seq<u8> {
        self.parser.fed()
    }

    /// Every byte passed on to the line-buffered sink so far, in order.
    pub closed spec fn forwarded(&self) -> Seq<u8> {
        self.performer.writer.written()
    }

    /// What the sink held when the writer was made.
    pub closed spec fn origin(&self) -> Seq<u8> {
        self.performer.writer.origin()
    }

    /// The bytes taken out of the sink while the writer held it.
    pub closed spec fn taken(&self) -> Seq<u8> {
        self.performer.writer.taken()
    }

    /// Every byte the sink has accepted, those taken out of it first.
    pub open spec fn delivered(&self) -> Seq<u8> {
        self.taken() + self.sink().contents()
    }

    /// The bytes held back by the line buffer.
    pub closed spec fn pending(&self) -> Seq<u8> {
        self.performer.writer.pending()
    }

    /// The sink.
    pub closed spec fn sink(&self) -> W {
        self.performer.writer.sink()
    }

    /// Every failure of the sink met so far, in order.
    pub closed spec fn faults(&self) -> Seq<SinkError> {
        self.performer.writer.faults()
    }

    pub closed spec fn wf(&self) -> bool {
        &&& self.performer.wf()
        &&& self.performer.err is None
        &&& self.forwarded() == stripped(self.fed())
    }

    /// What the writer stands for: all it passed on is the visible part of all
    /// it was fed; while the sink has never failed, the sink and the line buffer
    /// hold, after what the sink held at first, exactly that, and no linefeed
    /// is held back; a reliable sink never fails.
    pub open spec fn consistent(&self) -> bool {
        &&& self.forwarded() == stripped(self.fed())
        &&& self.faults().len() == 0 ==> self.delivered() + self.pending() == self.origin()
            + self.forwarded()
        &&& self.sink().reliable() ==> self.faults().len() == 0
        &&& self.faults().len() == 0 ==> !has_linefeed(self.pending())
    }

    proof fn lemma_consistent(&self)
        requires
            self.wf(),
        ensures
            self.consistent(),
    {
        self.performer.writer.lemma_wf();
    }

    /// Makes a writer that passes the visible part of its input on to `inner`.
    pub fn new(inner: W) -> (r: Self)
        ensures
            r.wf(),
            r.consistent(),
            r.sink() == inner,
            r.origin() == inner.contents(),
            r.taken() == Seq::<u8>::empty(),
            r.fed() == Seq::<u8>::empty(),
            r.pending() == Seq::<u8>::empty(),
            r.faults() == Seq::<SinkError>::empty(),
    {
        let parser = Scanner::new();
        assert(visible(Seq::<Token>::empty()) == Seq::<u8>::empty());
        let r = Writer { performer: Performer::new(inner), parser };
        proof {
            r.lemma_consistent();
        }
        r
    }

    /// Feeds every byte of `buf` to the parser, in order, passing the visible
    /// bytes on. When the sink failed during the call, reports the last such
    /// failure; otherwise reports that all of `buf` was taken.
    pub fn write(&mut self, buf: &[u8]) -> (r: Result<usize, SinkError>)
        requires
            old(self).wf(),
        ensures
            final(self).wf(),
            final(self).consistent(),
            final(self).fed() == old(self).fed() + buf@,
            final(self).origin() == old(self).origin(),
            final(self).taken() == old(self).taken(),
            final(self).sink().reliable() == old(self).sink().reliable(),
            final(self).faults().len() >= old(self).faults().len(),
            final(self).faults().subrange(0, old(self).faults().len() as int) == old(
                self,
            ).faults(),
            r is Ok <==> final(self).faults() == old(self).faults(),
            r is Ok ==> r->Ok_0 == buf.len(),
            r is Err ==> r->Err_0 == final(self).faults().last(),
            old(self).sink().reliable() ==> r == Ok::<usize, SinkError>(buf.len()),
            final(self).forwarded() == old(self).forwarded() ==> r == Ok::<usize, SinkError>(
                buf.len(),
            ) && final(self).sink() == old(self).sink() && final(self).pending() == old(
                self,
            ).pending(),
    {
        let ghost start = self.faults();
        let mut i: usize = 0;
        while i < buf.len()
            invariant
                i <= buf@.len(),
                self.performer.wf(),
                self.fed() == old(self).fed() + buf@.subrange(0, i as int),
                self.forwarded() == stripped(self.fed()),
                self.origin() == old(self).origin(),
                self.taken() == old(self).taken(),
                self.sink().reliable() == old(self).sink().reliable(),
                start == old(self).faults(),
                self.faults().len() >= start.len(),
                self.faults().subrange(0, start.len() as int) == start,
                self.performer.err is None <==> self.faults().len() == start.len(),
                self.forwarded().len() >= old(self).forwarded().len(),
                self.forwarded().len() == old(self).forwarded().len() ==> self.faults() == start
                    && self.sink() == old(self).sink() && self.pending() == old(self).pending()
                    && self.performer.err is None,
                self.performer.err is Some ==> self.performer.err == Some(self.faults().last()),
            decreases buf@.len() - i,
        {
            let ghost before = self.fed();
            let tokens = self.parser.advance(buf[i]);
            let mut j: usize = 0;
            while j < tokens.len()
                invariant
                    j <= tokens@.len(),
                    tokens_of(self.fed()) == tokens_of(before) + tokens@,
                    i < buf@.len(),
                    self.fed() == before.push(buf@[i as int]),
                    self.performer.wf(),
                    self.forwarded() == visible(tokens_of(before) + tokens@.subrange(0, j as int)),
                    self.origin() == old(self).origin(),
                    self.taken() == old(self).taken(),
                self.taken() == old(self).taken(),
                    self.sink().reliable() == old(self).sink().reliable(),
                    self.faults().len() >= start.len(),
                    self.faults().subrange(0, start.len() as int) == start,
                    self.performer.err is None <==> self.faults().len() == start.len(),
                    self.forwarded().len() >= old(self).forwarded().len(),
                    self.forwarded().len() == old(self).forwarded().len() ==> self.faults() == start
                        && self.sink() == old(self).sink() && self.pending() == old(self).pending()
                        && self.performer.err is None,
                    self.performer.err is Some ==> self.performer.err == Some(self.faults().last()),
                decreases tokens@.len() - j,
            {
                let ghost p0 = self.performer;
                self.performer.perform(tokens[j]);
                proof {
                    let pre = tokens_of(before) + tokens@.subrange(0, j as int);
                    assert(tokens_of(before) + tokens@.subrange(0, j + 1) =~= pre.push(tokens@[j as int]));
                    lemma_visible_push(pre, tokens@[j as int]);
                    if self.faults().len() > p0.faults().len() {
                        assert(self.faults().subrange(0, start.len() as int) =~= p0.faults().subrange(0, start.len() as int));
                    }
                }
                j += 1;
            }
            assert(tokens_of(before) + tokens@.subrange(0, j as int) =~= tokens_of(self.fed()));
            i += 1;
            assert(self.fed() =~= old(self).fed() + buf@.subrange(0, i as int));
        }
        assert(buf@.subrange(0, i as int) =~= buf@);
        let pending = self.performer.err.take();
        proof {
            self.lemma_consistent();
            if self.faults().len() == start.len() {
                assert(self.faults() =~= start);
            }
        }
        match pending {
            Some(e) => Err(e),
            None => Ok(buf.len()),
        }
    }

    /// Hands every held-back byte on to the sink and flushes it.
    pub fn flush(&mut self) -> (r: Result<(), SinkError>)
        requires
            old(self).wf(),
        ensures
            final(self).wf(),
            final(self).consistent(),
            final(self).fed() == old(self).fed(),
            final(self).forwarded() == old(self).forwarded(),
            final(self).origin() == old(self).origin(),
            final(self).taken() == old(self).taken(),
            final(self).sink().reliable() == old(self).sink().reliable(),
            r is Ok ==> final(self).pending() == Seq::<u8>::empty(),
            r is Ok ==> final(self).faults() == old(self).faults(),
            r is Err ==> final(self).faults() == old(self).faults().push(r->Err_0),
            r is Err ==> final(self).pending() == old(self).pending() || final(self).pending()
                == Seq::<u8>::empty(),
            old(self).sink().reliable() ==> r is Ok,
    {
        let r = self.performer.flush();
        proof {
            self.lemma_consistent();
        }
        r
    }

    /// Hands every held-back byte on to the sink and gives the sink back. On
    /// failure the error comes back with the line writer, which still holds
    /// the sink and the bytes it could not deliver.
    pub fn into_inner(self) -> (r: Result<W, IntoInnerError<W>>)
        requires
            self.wf(),
        ensures
            r is Ok ==> r->Ok_0.contents() == self.sink().contents() + self.pending(),
            r is Ok && self.faults().len() == 0 ==> self.taken() + r->Ok_0.contents()
                == self.origin() + stripped(self.fed()),
            r is Err ==> r->Err_0.writer.wf(),
            r is Err ==> r->Err_0.writer.written() == stripped(self.fed()),
            r is Err ==> r->Err_0.writer.pending() == self.pending(),
            r is Err ==> r->Err_0.writer.faults() == self.faults().push(r->Err_0.error),
            self.sink().reliable() ==> r is Ok,
    {
        proof {
            self.lemma_consistent();
        }
        self.performer.into_inner()
    }
}

impl Writer<Vec<u8>> {
    /// Takes out of the in-memory sink every byte handed on to it so far, so
    /// that a caller can pass finished lines on as they come; the bytes held
    /// back stay in the line buffer.
    pub fn take_delivered(&mut self) -> (r: Vec<u8>)
        requires
            old(self).wf(),
        ensures
            final(self).wf(),
            final(self).consistent(),
            r@ == old(self).sink()@,
            final(self).sink()@ == Seq::<u8>::empty(),
            final(self).taken() == old(self).taken() + r@,
            final(self).fed() == old(self).fed(),
            final(self).forwarded() == old(self).forwarded(),
            final(self).origin() == old(self).origin(),
            final(self).pending() == old(self).pending(),
            final(self).faults() == old(self).faults(),
    {
        let r = self.performer.writer.take_delivered();
        proof {
            self.lemma_consistent();
        }
        r
    }
}

/// Takes every escape and control sequence out of `data`, keeping printable
/// characters and linefeeds in order.
pub fn strip(data: &[u8]) -> (r: Result<Vec<u8>, SinkError>)
    ensures
        r is Ok,
        r->Ok_0@ == stripped(data@),
{
    let mut writer = Writer::new(Vec::<u8>::new());
    match writer.write(data) {
        Ok(_) => {},
        Err(e) => {
            return Err(e);
        },
    }
    match writer.into_inner() {
        Ok(v) => {
            assert(v@ =~= stripped(data@));
            Ok(v)
        },
        Err(e) => Err(e.error),
    }
}

/// The chunks of an input joined back together, in order.
pub open spec fn joined(chunks: Seq<Seq<u8>>) -> Seq<u8>
    decreases chunks.len(),
{
    if chunks.len() == 0 {
        Seq::empty()
    } else {
        joined(chunks.drop_last()) + chunks.last()
    }
}

/// The output does not depend on where the input was split. Let `steps` be a
/// fresh writer followed by the states it goes through as the `chunks` are
/// written to it one after the other (each write feeds one chunk), and let
/// `whole` be a writer over the same sink contents that was fed all of the
/// input at once. Then both have passed on the same bytes; and while neither
/// sink has failed, the sink and line buffer of each hold the same bytes.
pub proof fn lemma_chunking<W: Sink>(chunks: Seq<Seq<u8>>, steps: Seq<Writer<W>>, whole: Writer<W>)
    requires
        steps.len() == chunks.len() + 1,
        forall|k: int| 0 <= k < steps.len() ==> #[trigger] steps[k].consistent(),
        steps[0].fed() == Seq::<u8>::empty(),
        forall|k: int|
            0 <= k < chunks.len() ==> #[trigger] steps[k + 1].fed() == steps[k].fed() + chunks[k],
        whole.consistent(),
        whole.fed() == joined(chunks),
    ensures
        steps.last().forwarded() == whole.forwarded(),
        steps.last().faults().len() == 0 && whole.faults().len() == 0 && steps.last().origin()
            == whole.origin() ==> steps.last().delivered() + steps.last().pending()
            == whole.delivered() + whole.pending(),
{
    lemma_fed_joined(chunks, steps);
    assert(steps[steps.len() - 1].consistent());
}

proof fn lemma_fed_joined<W: Sink>(chunks: Seq<Seq<u8>>, steps: Seq<Writer<W>>)
    requires
        steps.len() == chunks.len() + 1,
        steps[0].fed() == Seq::<u8>::empty(),
        forall|k: int|
            0 <= k < chunks.len() ==> #[trigger] steps[k + 1].fed() == steps[k].fed() + chunks[k],
    ensures
        steps.last().fed() == joined(chunks),
    decreases chunks.len(),
{
    if chunks.len() > 0 {
        let n = chunks.len() - 1;
        let c = chunks.drop_last();
        let s = steps.drop_last();
        assert forall|k: int| 0 <= k < c.len() implies #[trigger] s[k + 1].fed() == s[k].fed()
            + c[k] by {
            assert(steps[k + 1].fed() == steps[k].fed() + chunks[k]);
        }
        lemma_fed_joined(c, s);
        assert(steps[n + 1].fed() == steps[n].fed() + chunks[n]);
    }
}

/// Writing `data` through a writer over an empty in-memory buffer and then
/// releasing the buffer gives what `strip` gives: such a writer, once fed
/// `data`, holds in its buffer and its line buffer together exactly the
/// visible part of `data`, which is what the release hands back when nothing
/// was taken out of the buffer on the way.
pub proof fn lemma_writer_matches_strip(w: Writer<Vec<u8>>, data: Seq<u8>)
    requires
        w.consistent(),
        w.origin() == Seq::<u8>::empty(),
        w.fed() == data,
    ensures
        w.delivered() + w.pending() == stripped(data),
{
    assert(w.sink().reliable());
    assert(w.origin() + w.forwarded() =~= w.forwarded());
}

} // verus!
