//! The chapter pipeline: unpack an entry, strip it, pass the text on.
//!
//! [`EntryStream`] holds the buffers and takes the decisions. Its owner asks for the
//! next [`Step`], does what it says (reads the store, calls the text stripper,
//! writes the text), and reports what came of it.
use crate::cache::inflate::{InflateStatus, FLAG_HAS_MORE_INPUT, WINDOW_SIZE};
use crate::cache::progress::{
    After, Event, Progress, Step, FLUSH_THRESHOLD, READ_BUF_SIZE, STRIP_BUF_SIZE,
};
use crate::zip::{ZipEntry, LOCAL_HEADER_SIZE, METHOD_DEFLATE, METHOD_STORED};
use vstd::prelude::*;

verus! {

/// What follows once the text stripper has taken all unpacked data.
#[derive(Clone, Copy, Debug)]
enum Next {
    Refill,
    Drain,
    Finish,
    Fail(&'static str),
}

impl Next {
    /// As it stands in the model.
    spec fn model(self) -> After {
        match self {
            Next::Refill => After::Refill,
            Next::Drain => After::Drain,
            Next::Finish => After::Finish,
            Next::Fail(message) => After::Fail(message@),
        }
    }
}

/// The outcome as it stands in the model.
pub open spec fn outcome_model(outcome: Result<u32, &'static str>) -> Result<nat, Seq<char>> {
    match outcome {
        Ok(total) => Ok(total as nat),
        Err(message) => Err(message@),
    }
}

/// Remove the first `n` bytes.
fn drop_prefix(bytes: &mut Vec<u8>, n: usize)
    requires
        n <= old(bytes)@.len(),
    ensures
        final(bytes)@ == old(bytes)@.skip(n as int),
{
    let kept: usize = bytes.len() - n;
    let mut i: usize = 0;
    while i < kept
        invariant
            i <= kept,
            kept + n == bytes@.len(),
            bytes@.len() == old(bytes)@.len(),
            forall|j: int| 0 <= j < i ==> bytes@[j] == old(bytes)@[j + n],
            forall|j: int| i <= j < bytes@.len() ==> bytes@[j] == old(bytes)@[j],
        decreases kept - i,
    {
        assert(kept + n <= usize::MAX) by {
            assert(bytes.len() <= usize::MAX);
        }
        let byte: u8 = bytes[i + n];
        bytes[i] = byte;
        i = i + 1;
    }
    bytes.truncate(kept);
    assert(bytes@ =~= old(bytes)@.skip(n as int));
}

/// Write `data` to the buffer from `at` on.
fn put(buf: &mut [u8; 4096], at: usize, data: &[u8])
    requires
        at + data@.len() <= 4096,
    ensures
        final(buf)@ == crate::cache::meta::overwritten(old(buf)@, at as int, data@),
{
    let mut i: usize = 0;
    while i < data.len()
        invariant
            i <= data@.len(),
            at + data@.len() <= 4096,
            buf@ == crate::cache::meta::overwritten(old(buf)@, at as int, data@.take(i as int)),
        decreases data@.len() - i,
    {
        buf[at + i] = data[i];
        i = i + 1;
        assert(buf@ =~= crate::cache::meta::overwritten(
            old(buf)@,
            at as int,
            data@.take(i as int),
        ));
    }
    assert(data@.take(i as int) =~= data@);
}

/// A decompressor with its window and its read buffer.
pub struct Buffers {
    decomp: Vec<miniz_oxide::inflate::core::DecompressorOxide>,
    window: Vec<u8>,
    packed: Vec<u8>,
}

/// What the three allocations came to: success, or the message of the first that failed.
pub fn allocation_outcome(decomp: bool, window: bool, packed: bool) -> (r: Result<
    (),
    &'static str,
>)
    ensures
        match r {
            Ok(_) => decomp && window && packed,
            Err(message) => {
                &&& !(decomp && window && packed)
                &&& message@ == if !decomp {
                    "cache: OOM for decompressor"@
                } else if !window {
                    "cache: OOM for window"@
                } else {
                    "cache: OOM for read buffer"@
                }
            },
        },
{
    if !decomp {
        Err("cache: OOM for decompressor")
    } else if !window {
        Err("cache: OOM for window")
    } else if !packed {
        Err("cache: OOM for read buffer")
    } else {
        Ok(())
    }
}

impl Buffers {
    /// Ready for the start of a stream: an unused decompressor, a zeroed window and
    /// an empty read buffer.
    pub closed spec fn fresh(&self) -> bool {
        &&& self.decomp@.len() == 1
        &&& crate::cache::inflate::calls(self.decomp@[0]).len() == 0
        &&& self.window@ == Seq::new(WINDOW_SIZE as nat, |i: int| 0u8)
        &&& self.packed@.len() == 0
    }

    /// Allocate the buffers, one after the other until one fails, which
    /// [`allocation_outcome`] reports. Whether there is memory for them is up to the
    /// machine.
    pub fn allocate() -> (r: Result<Buffers, &'static str>)
        ensures
            match r {
                Ok(buffers) => buffers.fresh(),
                Err(message) => crate::cache::progress::out_of_memory(message@),
            },
    {
        let mut decomp: Vec<miniz_oxide::inflate::core::DecompressorOxide> = Vec::new();
        let mut window: Vec<u8> = Vec::new();
        let mut packed: Vec<u8> = Vec::new();
        let has_decomp: bool = decomp.try_reserve(1).is_ok();
        let has_window: bool = has_decomp && window.try_reserve(WINDOW_SIZE).is_ok();
        let has_packed: bool = has_window && packed.try_reserve(READ_BUF_SIZE).is_ok();
        if let Err(message) = allocation_outcome(has_decomp, has_window, has_packed) {
            return Err(message);
        }
        decomp.push(crate::cache::inflate::new_decompressor());
        window.resize(WINDOW_SIZE, 0);
        assert(window@ =~= Seq::new(WINDOW_SIZE as nat, |i: int| 0u8));
        Ok(Buffers { decomp, window, packed })
    }
}

/// One entry on its way from the archive to plain text.
pub struct EntryStream {
    entry: ZipEntry,
    step: Step,
    deflate: bool,
    offset: u32,
    left: u32,
    packed: Vec<u8>,
    window: Vec<u8>,
    out_pos: usize,
    decomp: Vec<miniz_oxide::inflate::core::DecompressorOxide>,
    chunk: [u8; 4096],
    from: usize,
    to: usize,
    next: Next,
    closing: bool,
    text: [u8; 4096],
    text_len: usize,
    total: u32,
    outcome: Result<u32, &'static str>,
}

impl View for EntryStream {
    type V = Progress;

    closed spec fn view(&self) -> Progress {
        Progress {
            entry: self.entry,
            step: self.step,
            deflate: self.deflate,
            offset: self.offset as nat,
            left: self.left as nat,
            packed: self.packed@,
            window: self.window@,
            out_pos: self.out_pos as nat,
            calls: if self.decomp@.len() > 0 {
                crate::cache::inflate::calls(self.decomp@[0])
            } else {
                Seq::empty()
            },
            input: self.source().subrange(self.from as int, self.to as int),
            after: self.next.model(),
            closing: self.closing,
            pending: self.text@.take(self.text_len as int),
            total: self.total as nat,
            outcome: outcome_model(self.outcome),
        }
    }
}

impl EntryStream {
    /// Where unpacked data lie.
    spec fn source(&self) -> Seq<u8> {
        if self.deflate {
            self.window@
        } else {
            self.chunk@
        }
    }

    /// The unpacked data and the text lie in their buffers, and a window has its
    /// decompressor.
    pub closed spec fn coherent(&self) -> bool {
        &&& self.from <= self.to <= self.source().len()
        &&& self.text_len <= STRIP_BUF_SIZE
        &&& self.window@.len() > 0 ==> self.decomp@.len() == 1
    }

    /// The stream is in a state that it can reach.
    pub open spec fn wf(&self) -> bool {
        self@.sound() && self.coherent()
    }

    fn fail(&mut self, message: &'static str)
        requires
            old(self).coherent(),
        ensures
            final(self).coherent(),
            final(self)@ == old(self)@.fail(message@),
    {
        self.step = Step::Done;
        self.outcome = Err(message);
    }

    fn succeed(&mut self)
        requires
            old(self).coherent(),
        ensures
            final(self).coherent(),
            final(self)@ == old(self)@.succeed(),
    {
        self.step = Step::Done;
        self.outcome = Ok(self.total);
    }

    fn unpack(&mut self)
        requires
            old(self).coherent(),
        ensures
            final(self).coherent(),
            final(self)@ == old(self)@.unpack(),
    {
        let drain: bool = match self.next {
            Next::Drain => true,
            _ => false,
        };
        if self.packed.len() == 0 && self.out_pos == 0 && !drain {
            self.fail("cache: empty deflate stream");
        } else {
            self.step = Step::Inflate;
        }
    }

    fn refill(&mut self)
        requires
            old(self).coherent(),
        ensures
            final(self).coherent(),
            final(self)@ == old(self)@.refill(),
    {
        if self.deflate {
            if self.packed.len() < READ_BUF_SIZE && self.left > 0 {
                self.step = Step::Read;
            } else {
                self.unpack();
            }
        } else if self.left > 0 {
            self.step = Step::Read;
        } else {
            self.step = Step::Finish;
        }
    }

    fn resume(&mut self)
        requires
            old(self).coherent(),
        ensures
            final(self).coherent(),
            final(self)@ == old(self)@.resume(),
    {
        if self.from < self.to {
            self.step = Step::Feed;
        } else {
            match self.next {
                Next::Refill | Next::Drain => self.refill(),
                Next::Finish => {
                    self.step = Step::Finish;
                },
                Next::Fail(message) => self.fail(message),
            }
        }
    }
}

/// Begin to stream an entry whose local file header lies at `local_offset`.
pub fn stream_strip_entry(entry: &ZipEntry, local_offset: u32) -> (stream: EntryStream)
    ensures
        stream.wf(),
        stream@ == Progress::start(*entry, local_offset),
{
    EntryStream {
        entry: *entry,
        step: Step::ReadHeader,
        deflate: false,
        offset: local_offset,
        left: 0,
        packed: Vec::new(),
        window: Vec::new(),
        out_pos: 0,
        decomp: Vec::new(),
        chunk: [0; 4096],
        from: 0,
        to: 0,
        next: Next::Refill,
        closing: false,
        text: [0; 4096],
        text_len: 0,
        total: 0,
        outcome: Ok(0),
    }
}

impl EntryStream {
    /// What has to be done next.
    pub fn step(&self) -> (step: Step)
        ensures
            step == self@.step,
    {
        self.step
    }

    /// Offset of the next read.
    pub fn read_offset(&self) -> (offset: u32)
        ensures
            offset == self@.offset,
    {
        self.offset
    }

    /// How much the next read may give: the whole header, or as much of the entry
    /// as is left and fits the read buffer.
    pub fn read_len(&self) -> (len: usize)
        requires
            self.wf(),
        ensures
            len == self@.read_len(),
    {
        if self.step == Step::ReadHeader {
            LOCAL_HEADER_SIZE
        } else {
            let space: usize = READ_BUF_SIZE - self.packed.len();
            if (self.left as u64) < space as u64 {
                self.left as usize
            } else {
                space
            }
        }
    }

    /// Unpacked data for the text stripper.
    pub fn input(&self) -> (data: &[u8])
        requires
            self.wf(),
        ensures
            data@ == self@.input,
    {
        if self.deflate {
            vstd::slice::slice_subrange(self.window.as_slice(), self.from, self.to)
        } else {
            vstd::slice::slice_subrange(self.chunk.as_slice(), self.from, self.to)
        }
    }

    /// How much text may come from the text stripper at once.
    pub fn room(&self) -> (room: usize)
        requires
            self.wf(),
        ensures
            room == self@.room(),
    {
        STRIP_BUF_SIZE - self.text_len
    }

    /// The text that waits to be written.
    pub fn pending(&self) -> (text: &[u8])
        requires
            self.wf(),
        ensures
            text@ == self@.pending,
    {
        vstd::slice::slice_subrange(self.text.as_slice(), 0, self.text_len)
    }

    /// Number of bytes of text written so far.
    pub fn total_written(&self) -> (total: u32)
        ensures
            total == self@.total,
    {
        self.total
    }

    /// What the stream came to: the number of bytes written, or the reason of a failure.
    pub fn outcome(&self) -> (outcome: Result<u32, &'static str>)
        requires
            self@.step == Step::Done,
        ensures
            outcome_model(outcome) == self@.outcome,
    {
        self.outcome
    }

    /// The local file header was read into `header`.
    pub fn header_read(&mut self, header: &[u8; 30])
        requires
            old(self).wf(),
            old(self)@.accepts(Event::HeaderRead(header@)),
        ensures
            final(self).wf(),
            final(self)@ == old(self)@.header_read(header@),
    {
        proof {
            reveal(Progress::next);
            crate::cache::progress::law_next_is_sound(self@, Event::HeaderRead(header@));
        }
        match crate::zip::local_header_data_skip(header) {
            Err(message) => {
                self.fail(message);
            },
            Ok(skip) => {
                self.offset = self.offset + skip;
                if self.entry.method == METHOD_STORED {
                    self.left = self.entry.uncomp_size;
                    self.refill();
                } else if self.entry.method == METHOD_DEFLATE {
                    self.step = Step::Allocate;
                    self.left = self.entry.comp_size;
                    self.deflate = true;
                    self.from = 0;
                    self.to = 0;
                } else {
                    self.fail("cache: unsupported compression method");
                }
            },
        }
    }

    /// A read failed.
    pub fn read_failed(&mut self)
        requires
            old(self).wf(),
            old(self)@.accepts(Event::ReadFailed),
        ensures
            final(self).wf(),
            final(self)@ == old(self)@.read_failed(),
    {
        if self.step == Step::ReadHeader {
            self.fail("cache: read local header failed");
        } else if self.deflate {
            self.fail("cache: read failed during deflate");
        } else {
            self.fail("cache: read failed (stored)");
        }
    }

    /// `data` were read; they are empty at the end of the store.
    pub fn data_read(&mut self, data: &[u8])
        requires
            old(self).wf(),
            old(self)@.accepts(Event::DataRead(data@)),
        ensures
            final(self).wf(),
            final(self)@ == old(self)@.data_read(data@),
    {
        proof {
            reveal(Progress::next);
            crate::cache::progress::law_next_is_sound(self@, Event::DataRead(data@));
        }
        let n: usize = data.len();
        if self.deflate {
            if n > 0 {
                self.offset = self.offset + n as u32;
                self.left = self.left - n as u32;
                self.packed.extend_from_slice(data);
                assert(self.packed@ =~= old(self).packed@ + data@);
            } else {
                self.left = 0;
            }
            self.unpack();
        } else if n == 0 {
            self.fail("cache: unexpected EOF in stored entry");
        } else {
            self.offset = self.offset + n as u32;
            self.left = self.left - n as u32;
            put(&mut self.chunk, 0, data);
            self.from = 0;
            self.to = n;
            self.next = Next::Refill;
            assert(self@.input =~= data@);
            self.resume();
        }
    }

    /// The buffers were allocated, or there was no memory for them.
    pub fn allocated(&mut self, buffers: Result<Buffers, &'static str>)
        requires
            old(self).wf(),
            old(self)@.step == Step::Allocate,
            buffers matches Ok(b) ==> b.fresh(),
            buffers matches Err(message) ==> crate::cache::progress::out_of_memory(message@),
        ensures
            final(self).wf(),
            buffers is Ok ==> final(self)@ == old(self)@.allocated(Ok(())),
            buffers matches Err(message) ==> final(self)@ == old(self)@.allocated(Err(message@)),
    {
        match buffers {
            Ok(b) => {
                proof {
                    reveal(Progress::next);
                    crate::cache::progress::law_next_is_sound(self@, Event::Allocated(Ok(())));
                }
                let Buffers { decomp, window, packed } = b;
                self.decomp = decomp;
                self.window = window;
                self.packed = packed;
                assert(self@.packed =~= old(self)@.packed);
                assert(self@.calls =~= old(self)@.calls);
                assert(self@.input =~= old(self)@.input);
                self.refill();
            },
            Err(message) => {
                self.fail(message);
            },
        }
    }

    /// Allocate the buffers of a compressed entry.
    pub fn allocate(&mut self)
        requires
            old(self).wf(),
            old(self)@.step == Step::Allocate,
        ensures
            final(self).wf(),
            final(self)@ == old(self)@.allocated(Ok(())) || exists|message: Seq<char>|
                crate::cache::progress::out_of_memory(message) && final(self)@ == old(
                    self,
                )@.allocated(Err(message)),
    {
        let buffers = Buffers::allocate();
        self.allocated(buffers);
    }

    /// The decompressor took `consumed` bytes of the read buffer and wrote `produced`
    /// bytes to the window.
    pub fn inflated(&mut self, status: InflateStatus, consumed: usize, produced: usize)
        requires
            old(self).wf(),
            old(self)@.step == Step::Inflate,
            consumed <= old(self)@.packed.len(),
            old(self)@.out_pos + produced <= WINDOW_SIZE,
        ensures
            final(self).wf(),
            final(self)@ == old(self)@.inflated(
                status,
                consumed as nat,
                produced as nat,
                old(self)@.window,
            ),
    {
        proof {
            reveal(Progress::next);
            crate::cache::progress::law_next_is_sound(
                self@,
                Event::Inflated(
                    self@.calls,
                    status,
                    consumed as nat,
                    produced as nat,
                    self@.window,
                ),
            );
        }
        let starved: bool = self.packed.len() == 0 && self.out_pos == 0;
        self.from = self.out_pos;
        self.to = self.out_pos + produced;
        drop_prefix(&mut self.packed, consumed);
        self.next = if status == InflateStatus::Done {
            Next::Finish
        } else if status == InflateStatus::HasMoreOutput {
            Next::Drain
        } else if starved {
            Next::Fail("cache: empty deflate stream")
        } else if status != InflateStatus::NeedsMoreInput {
            Next::Fail("cache: deflate decompression error")
        } else if self.left == 0 && self.packed.len() == 0 {
            Next::Fail("cache: truncated deflate stream")
        } else if consumed == 0 && produced == 0 && self.packed.len() >= READ_BUF_SIZE {
            Next::Fail("cache: deflate stream stuck")
        } else {
            Next::Refill
        };
        if status == InflateStatus::HasMoreOutput {
            self.out_pos = 0;
        } else {
            self.out_pos = self.out_pos + produced;
        }
        self.resume();
    }

    /// Run the decompressor on the read buffer.
    pub fn inflate(&mut self)
        requires
            old(self).wf(),
            old(self)@.step == Step::Inflate,
        ensures
            final(self).wf(),
            ({
                let s = old(self)@;
                let calls = s.calls.push((s.packed, s.window, s.out_pos, s.flags()));
                let (status, consumed, produced, window) = crate::cache::inflate::answer(calls);
                &&& s.accepts(Event::Inflated(calls, status, consumed, produced, window))
                &&& crate::cache::inflate::consistent(calls)
                &&& crate::cache::inflate::gets_on(calls)
                &&& final(self)@ == Progress { calls, ..s }.inflated(
                    status,
                    consumed,
                    produced,
                    window,
                )
            }),
    {
        let flags: u32 = if self.left > 0 {
            FLAG_HAS_MORE_INPUT
        } else {
            0
        };
        let (status, consumed, produced) = crate::cache::inflate::inflate(
            &mut self.decomp[0],
            self.packed.as_slice(),
            &mut self.window,
            self.out_pos,
            flags,
        );
        self.inflated(status, consumed, produced);
    }

    /// The text stripper took `consumed` bytes of the input and gave `text`.
    pub fn fed(&mut self, consumed: usize, text: &[u8])
        requires
            old(self).wf(),
            old(self)@.accepts(Event::Fed(consumed as nat, text@)),
        ensures
            final(self).wf(),
            final(self)@ == old(self)@.fed(consumed as nat, text@),
    {
        proof {
            reveal(Progress::next);
            crate::cache::progress::law_next_is_sound(self@, Event::Fed(consumed as nat, text@));
        }
        self.from = self.from + consumed;
        put(&mut self.text, self.text_len, text);
        self.text_len = self.text_len + text.len();
        assert(self@.pending =~= old(self)@.pending + text@);
        assert(self@.input =~= old(self)@.input.skip(consumed as int));
        if consumed == 0 && text.len() == 0 {
            if self.text_len > 0 {
                self.step = Step::Flush;
            } else {
                self.from = self.from + 1;
                assert(self@.input =~= old(self)@.input.skip(1));
                self.resume();
            }
        } else if self.text_len >= FLUSH_THRESHOLD {
            self.step = Step::Flush;
        } else {
            self.resume();
        }
    }

    /// The text stripper has given its last text.
    pub fn finished(&mut self, text: &[u8])
        requires
            old(self).wf(),
            old(self)@.accepts(Event::Finished(text@)),
        ensures
            final(self).wf(),
            final(self)@ == old(self)@.finished(text@),
    {
        put(&mut self.text, self.text_len, text);
        self.text_len = self.text_len + text.len();
        assert(self@.pending =~= old(self)@.pending + text@);
        if self.text_len > 0 {
            self.step = Step::Flush;
            self.closing = true;
        } else {
            self.succeed();
        }
    }

    /// The pending text was written.
    pub fn written(&mut self)
        requires
            old(self).wf(),
            old(self)@.accepts(Event::Written),
        ensures
            final(self).wf(),
            final(self)@ == old(self)@.written(),
    {
        proof {
            reveal(Progress::next);
            crate::cache::progress::law_next_is_sound(self@, Event::Written);
        }
        self.total = self.total + self.text_len as u32;
        self.text_len = 0;
        assert(self@.pending =~= Seq::empty());
        if self.closing {
            self.succeed();
        } else {
            self.resume();
        }
    }

    /// The pending text could not be written.
    pub fn write_failed(&mut self, message: &'static str)
        requires
            old(self).wf(),
            old(self)@.step == Step::Flush,
        ensures
            final(self).wf(),
            final(self)@ == old(self)@.fail(message@),
    {
        self.fail(message);
    }
}

} // verus!
