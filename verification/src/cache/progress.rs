//! The chapter pipeline as a mathematical state machine.
//!
//! [`Progress`] is the state of one entry on its way from the archive to plain text.
//! Everything that happens outside (a read, a call of the text stripper, a write) is
//! an [`Event`]; [`Progress::next`] says what follows.
use crate::cache::inflate::{InflateStatus, WINDOW_SIZE};
use crate::zip::{ZipEntry, LOCAL_HEADER_SIZE, METHOD_DEFLATE, METHOD_STORED};
use vstd::prelude::*;

verus! {

/// Most bytes that are read from the store at once, or held compressed.
pub const READ_BUF_SIZE: usize = 4096;

/// Most bytes of text that are held back before they are written.
pub const STRIP_BUF_SIZE: usize = 4096;

/// Amount of held-back text from which on it is written.
pub const FLUSH_THRESHOLD: usize = STRIP_BUF_SIZE - 128;

/// What has to be done next.
#[derive(Clone, Copy, PartialEq, Eq, Structural, Debug)]
pub enum Step {
    /// Read the local file header.
    ReadHeader,
    /// Allocate the decompressor and its buffers.
    Allocate,
    /// Read entry data.
    Read,
    /// Run the decompressor.
    Inflate,
    /// Hand unpacked data to the text stripper.
    Feed,
    /// Write the text that is held back.
    Flush,
    /// Ask the text stripper for what it still holds.
    Finish,
    /// Nothing: the outcome is known.
    Done,
}

/// What follows once the text stripper has taken all unpacked data.
pub enum After {
    /// Get more data.
    Refill,
    /// Get more data, or go without: the decompressor has more to write.
    Drain,
    /// Finish the text.
    Finish,
    /// Fail with a message.
    Fail(Seq<char>),
}

/// The state of one entry in the pipeline.
#[verifier::ext_equal]
pub struct Progress {
    /// The entry.
    pub entry: ZipEntry,
    /// What has to be done next.
    pub step: Step,
    /// The data are compressed.
    pub deflate: bool,
    /// Offset of the next read.
    pub offset: nat,
    /// Entry data not read yet.
    pub left: nat,
    /// Compressed data that were read and not yet taken by the decompressor.
    pub packed: Seq<u8>,
    /// The decompressor's window.
    pub window: Seq<u8>,
    /// Where the decompressor writes next.
    pub out_pos: nat,
    /// The calls that the decompressor has answered.
    pub calls: Seq<(Seq<u8>, Seq<u8>, nat, u32)>,
    /// Unpacked data not yet taken by the text stripper.
    pub input: Seq<u8>,
    /// What follows once they are taken.
    pub after: After,
    /// The text is complete with the next write.
    pub closing: bool,
    /// Text not written yet.
    pub pending: Seq<u8>,
    /// Number of bytes of text written.
    pub total: nat,
    /// What the pipeline came to, once nothing is left to be done.
    pub outcome: Result<nat, Seq<char>>,
}

/// The messages of an allocation that failed.
pub open spec fn out_of_memory(e: Seq<char>) -> bool {
    e == "cache: OOM for decompressor"@ || e == "cache: OOM for window"@ || e
        == "cache: OOM for read buffer"@
}

/// Something that happened outside.
pub enum Event {
    /// The local file header was read.
    HeaderRead(Seq<u8>),
    /// A read failed.
    ReadFailed,
    /// Entry data were read; none if the store has no more.
    DataRead(Seq<u8>),
    /// The buffers were allocated, or not.
    Allocated(Result<(), Seq<char>>),
    /// The decompressor was called: its calls, the status, the bytes it took, the
    /// bytes it wrote, and the window afterwards.
    Inflated(
        Seq<(Seq<u8>, Seq<u8>, nat, u32)>,
        InflateStatus,
        nat,
        nat,
        Seq<u8>,
    ),
    /// The text stripper took some bytes and gave some text.
    Fed(nat, Seq<u8>),
    /// The text stripper gave the rest of its text.
    Finished(Seq<u8>),
    /// The pending text was written.
    Written,
    /// The write failed with a message.
    WriteFailed(Seq<char>),
}

impl Progress {
    /// An entry whose local file header lies at `local_offset`.
    pub open spec fn start(entry: ZipEntry, local_offset: u32) -> Progress {
        Progress {
            entry,
            step: Step::ReadHeader,
            deflate: false,
            offset: local_offset as nat,
            left: 0,
            packed: Seq::empty(),
            window: Seq::empty(),
            out_pos: 0,
            calls: Seq::empty(),
            input: Seq::empty(),
            after: After::Refill,
            closing: false,
            pending: Seq::empty(),
            total: 0,
            outcome: Ok(0),
        }
    }

    /// How much may be read next.
    pub open spec fn read_len(self) -> nat {
        if self.step == Step::ReadHeader {
            LOCAL_HEADER_SIZE as nat
        } else if self.packed.len() + self.left < READ_BUF_SIZE {
            self.left
        } else {
            (READ_BUF_SIZE - self.packed.len()) as nat
        }
    }

    /// How much text still fits.
    pub open spec fn room(self) -> nat {
        (STRIP_BUF_SIZE - self.pending.len()) as nat
    }

    /// The pipeline has failed.
    pub open spec fn fail(self, message: Seq<char>) -> Progress {
        Progress { step: Step::Done, outcome: Err(message), ..self }
    }

    /// The text is complete.
    pub open spec fn succeed(self) -> Progress {
        Progress { step: Step::Done, outcome: Ok(self.total), ..self }
    }

    /// Run the decompressor, unless it has neither input nor output left to handle.
    pub open spec fn unpack(self) -> Progress {
        if self.starved() && !(self.after is Drain) {
            self.fail("cache: empty deflate stream"@)
        } else {
            Progress { step: Step::Inflate, ..self }
        }
    }

    /// Get more unpacked data, or finish if a stored entry has been read to its end.
    pub open spec fn refill(self) -> Progress {
        if self.deflate {
            if self.packed.len() < READ_BUF_SIZE && self.left > 0 {
                Progress { step: Step::Read, ..self }
            } else {
                self.unpack()
            }
        } else if self.left > 0 {
            Progress { step: Step::Read, ..self }
        } else {
            Progress { step: Step::Finish, ..self }
        }
    }

    /// Go on with the unpacked data, and with what follows when there are none.
    pub open spec fn resume(self) -> Progress {
        if self.input.len() > 0 {
            Progress { step: Step::Feed, ..self }
        } else {
            match self.after {
                After::Refill | After::Drain => self.refill(),
                After::Finish => Progress { step: Step::Finish, ..self },
                After::Fail(message) => self.fail(message),
            }
        }
    }

    /// The local file header says where the data start; the method says what they are.
    pub open spec fn header_read(self, header: Seq<u8>) -> Progress {
        match crate::zip::data_skip(header) {
            Err(message) => self.fail(message),
            Ok(skip) => {
                let at = Progress { offset: self.offset + skip, ..self };
                if self.entry.method == METHOD_STORED {
                    Progress { left: self.entry.uncomp_size as nat, ..at }.refill()
                } else if self.entry.method == METHOD_DEFLATE {
                    Progress {
                        step: Step::Allocate,
                        deflate: true,
                        left: self.entry.comp_size as nat,
                        ..at
                    }
                } else {
                    at.fail("cache: unsupported compression method"@)
                }
            },
        }
    }

    /// A failed read ends the pipeline.
    pub open spec fn read_failed(self) -> Progress {
        if self.step == Step::ReadHeader {
            self.fail("cache: read local header failed"@)
        } else if self.deflate {
            self.fail("cache: read failed during deflate"@)
        } else {
            self.fail("cache: read failed (stored)"@)
        }
    }

    /// Stored data go to the text stripper, compressed data to the decompressor.
    /// A compressed entry may be shorter than announced, a stored one may not.
    pub open spec fn data_read(self, data: Seq<u8>) -> Progress {
        let rest = Progress {
            offset: self.offset + data.len(),
            left: (self.left - data.len()) as nat,
            ..self
        };
        if self.deflate {
            if data.len() == 0 {
                Progress { left: 0, ..self }.unpack()
            } else {
                Progress { packed: self.packed + data, ..rest }.unpack()
            }
        } else if data.len() == 0 {
            self.fail("cache: unexpected EOF in stored entry"@)
        } else {
            Progress { input: data, after: After::Refill, ..rest }.resume()
        }
    }

    /// With its buffers the decompressor can start.
    pub open spec fn allocated(self, result: Result<(), Seq<char>>) -> Progress {
        match result {
            Ok(_) => Progress {
                window: Seq::new(WINDOW_SIZE as nat, |i: int| 0u8),
                ..self
            }.refill(),
            Err(message) => self.fail(message),
        }
    }

    /// The flags of the next call of the decompressor.
    pub open spec fn flags(self) -> u32 {
        if self.left > 0 {
            crate::cache::inflate::FLAG_HAS_MORE_INPUT
        } else {
            0
        }
    }

    /// The decompressor has nothing to go by but what it holds itself.
    pub open spec fn starved(self) -> bool {
        self.packed.len() == 0 && self.out_pos == 0
    }

    /// What follows a call of the decompressor, once its output has been taken:
    /// `packed` is what it left, `idle` says that it neither took nor wrote anything.
    pub open spec fn verdict(self, status: InflateStatus, packed: nat, idle: bool) -> After {
        if status == InflateStatus::Done {
            After::Finish
        } else if status == InflateStatus::HasMoreOutput {
            After::Drain
        } else if self.starved() {
            After::Fail("cache: empty deflate stream"@)
        } else if status != InflateStatus::NeedsMoreInput {
            After::Fail("cache: deflate decompression error"@)
        } else if self.left == 0 && packed == 0 {
            After::Fail("cache: truncated deflate stream"@)
        } else if idle && packed >= READ_BUF_SIZE {
            After::Fail("cache: deflate stream stuck"@)
        } else {
            After::Refill
        }
    }

    /// The decompressor took `consumed` bytes and wrote `produced` bytes to the
    /// window, which now holds `window`. A full window is written from its start again.
    pub open spec fn inflated(
        self,
        status: InflateStatus,
        consumed: nat,
        produced: nat,
        window: Seq<u8>,
    ) -> Progress {
        let packed = self.packed.skip(consumed as int);
        Progress {
            packed,
            window,
            out_pos: if status == InflateStatus::HasMoreOutput {
                0
            } else {
                self.out_pos + produced
            },
            input: window.subrange(self.out_pos as int, self.out_pos + produced as int),
            after: self.verdict(status, packed.len(), consumed == 0 && produced == 0),
            ..self
        }.resume()
    }

    /// The text stripper took `consumed` bytes and gave `text`. Without either, the
    /// held-back text is written to make room, or, if there is none, a byte is skipped.
    pub open spec fn fed(self, consumed: nat, text: Seq<u8>) -> Progress {
        let state = Progress {
            input: self.input.skip(consumed as int),
            pending: self.pending + text,
            ..self
        };
        if consumed == 0 && text.len() == 0 {
            if self.pending.len() > 0 {
                Progress { step: Step::Flush, ..state }
            } else {
                Progress { input: self.input.skip(1), ..state }.resume()
            }
        } else if state.pending.len() >= FLUSH_THRESHOLD {
            Progress { step: Step::Flush, ..state }
        } else {
            state.resume()
        }
    }

    /// The text stripper gave its last text.
    pub open spec fn finished(self, text: Seq<u8>) -> Progress {
        let state = Progress { pending: self.pending + text, ..self };
        if state.pending.len() > 0 {
            Progress { step: Step::Flush, closing: true, ..state }
        } else {
            state.succeed()
        }
    }

    /// The held-back text was written.
    pub open spec fn written(self) -> Progress {
        let state = Progress {
            pending: Seq::empty(),
            total: self.total + self.pending.len(),
            ..self
        };
        if self.closing {
            state.succeed()
        } else {
            state.resume()
        }
    }

    /// The event can happen in this state.
    pub open spec fn accepts(self, event: Event) -> bool {
        match event {
            Event::HeaderRead(header) => {
                &&& self.step == Step::ReadHeader
                &&& header.len() == LOCAL_HEADER_SIZE
                &&& crate::zip::data_skip(header) matches Ok(skip) ==> self.offset + skip
                    <= u32::MAX
            },
            Event::ReadFailed => self.step == Step::ReadHeader || self.step == Step::Read,
            Event::DataRead(data) => {
                &&& self.step == Step::Read
                &&& data.len() <= self.read_len()
                &&& self.offset + data.len() <= u32::MAX
            },
            Event::Allocated(result) => {
                &&& self.step == Step::Allocate
                &&& result matches Err(message) ==> out_of_memory(message)
            },
            Event::Inflated(calls, status, consumed, produced, window) => {
                &&& self.step == Step::Inflate
                &&& consumed <= self.packed.len()
                &&& self.out_pos + produced <= WINDOW_SIZE
                &&& window.len() == WINDOW_SIZE
            },
            Event::Fed(consumed, text) => {
                &&& self.step == Step::Feed
                &&& consumed <= self.input.len()
                &&& text.len() <= self.room()
            },
            Event::Finished(text) => self.step == Step::Finish && text.len() <= self.room(),
            Event::Written => self.step == Step::Flush && self.total + self.pending.len()
                <= u32::MAX,
            Event::WriteFailed(_) => self.step == Step::Flush,
        }
    }

    /// The state after the event.
    #[verifier::opaque]
    pub open spec fn next(self, event: Event) -> Progress {
        match event {
            Event::HeaderRead(header) => self.header_read(header),
            Event::ReadFailed => self.read_failed(),
            Event::DataRead(data) => self.data_read(data),
            Event::Allocated(result) => self.allocated(result),
            Event::Inflated(calls, status, consumed, produced, window) => Progress {
                calls,
                ..self
            }.inflated(status, consumed, produced, window),
            Event::Fed(consumed, text) => self.fed(consumed, text),
            Event::Finished(text) => self.finished(text),
            Event::Written => self.written(),
            Event::WriteFailed(message) => self.fail(message),
        }
    }

    /// What holds of every state that the pipeline can reach.
    pub open spec fn sound(self) -> bool {
        &&& self.offset <= u32::MAX
        &&& self.left <= u32::MAX
        &&& self.total <= u32::MAX
        &&& self.packed.len() <= READ_BUF_SIZE
        &&& self.pending.len() <= STRIP_BUF_SIZE
        &&& self.out_pos <= WINDOW_SIZE
        &&& self.input.len() <= WINDOW_SIZE
        &&& self.window.len() == 0 || self.window.len() == WINDOW_SIZE
        &&& !self.deflate ==> {
            &&& self.packed.len() == 0
            &&& self.window.len() == 0
            &&& self.input.len() <= READ_BUF_SIZE
            &&& self.after is Refill
        }
        &&& match self.step {
            Step::ReadHeader => {
                &&& !self.deflate
                &&& self.left == 0
                &&& self.out_pos == 0
                &&& self.calls.len() == 0
                &&& self.input.len() == 0
                &&& self.pending.len() == 0
                &&& !self.closing
            },
            Step::Allocate => {
                &&& self.deflate
                &&& self.packed.len() == 0
                &&& self.out_pos == 0
                &&& self.calls.len() == 0
                &&& self.input.len() == 0
                &&& self.pending.len() == 0
                &&& !self.closing
            },
            Step::Read => {
                &&& self.left > 0
                &&& self.packed.len() < READ_BUF_SIZE
                &&& self.input.len() == 0
                &&& self.pending.len() < FLUSH_THRESHOLD
                &&& !self.closing
                &&& self.deflate ==> self.window.len() == WINDOW_SIZE
            },
            Step::Inflate => {
                &&& self.deflate
                &&& self.window.len() == WINDOW_SIZE
                &&& !self.starved() || self.after is Drain
                &&& self.packed.len() > 0 || self.left == 0
                &&& self.input.len() == 0
                &&& self.pending.len() < FLUSH_THRESHOLD
                &&& !self.closing
            },
            Step::Feed => {
                &&& self.input.len() > 0
                &&& self.pending.len() < FLUSH_THRESHOLD
                &&& !self.closing
                &&& self.deflate ==> self.window.len() == WINDOW_SIZE
            },
            Step::Flush => {
                &&& self.pending.len() > 0
                &&& self.closing ==> self.input.len() == 0 && (self.deflate || self.left == 0)
                &&& self.deflate ==> self.window.len() == WINDOW_SIZE
            },
            Step::Finish => {
                &&& self.input.len() == 0
                &&& self.deflate || self.left == 0
                &&& self.pending.len() < FLUSH_THRESHOLD
                &&& !self.closing
                &&& self.deflate ==> self.window.len() == WINDOW_SIZE
            },
            Step::Done => self.outcome is Ok ==> {
                &&& self.outcome == Ok::<nat, Seq<char>>(self.total)
                &&& self.input.len() == 0
                &&& self.pending.len() == 0
                &&& self.deflate || self.left == 0
            },
        }
    }
}

/// Whatever can happen in a sound state leads to a sound state of the same entry.
pub proof fn law_next_is_sound(s: Progress, event: Event)
    requires
        s.sound(),
        s.accepts(event),
    ensures
        s.next(event).sound(),
        s.next(event).entry == s.entry,
{
    reveal(Progress::next);
}

} // verus!
