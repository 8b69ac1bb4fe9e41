//! What each step of the chapter pipeline does with the data and the text, and when.
//!
//! The numbers of the formats and the sizes of the buffers stand here as such.
use crate::cache::inflate::InflateStatus;
use crate::cache::progress::{After, Event, Progress, Step};
use crate::zip::ZipEntry;
use vstd::prelude::*;

verus! {

/// The sizes of the buffers, and the flag that announces more input.
pub proof fn law_buffer_sizes()
    ensures
        crate::cache::progress::READ_BUF_SIZE == 4096,
        crate::cache::progress::STRIP_BUF_SIZE == 4096,
        crate::cache::progress::FLUSH_THRESHOLD == 3968,
        crate::cache::inflate::WINDOW_SIZE == 32768,
        crate::cache::inflate::FLAG_HAS_MORE_INPUT == 2,
{
}

/// An entry starts with a read of the header at its offset, and with nothing else.
pub proof fn law_start_is_at_the_header(entry: ZipEntry, local_offset: u32)
    ensures
        ({
            let s = Progress::start(entry, local_offset);
            &&& s.entry == entry
            &&& s.step == Step::ReadHeader
            &&& s.offset == local_offset
            &&& s.read_len() == 30
            &&& !s.deflate
            &&& s.left == 0
            &&& s.packed.len() == 0
            &&& s.window.len() == 0
            &&& s.out_pos == 0
            &&& s.calls.len() == 0
            &&& s.input.len() == 0
            &&& s.after is Refill
            &&& !s.closing
            &&& s.pending.len() == 0
            &&& s.total == 0
        }),
{
}

/// As much is read as is left of the entry and fits the read buffer, wherever it lies: a
/// read that is due asks for at least one byte. Text and room for text fill the text
/// buffer.
pub proof fn law_reads_are_as_long_as_they_can_be(s: Progress)
    requires
        s.packed.len() <= 4096,
        s.pending.len() <= 4096,
    ensures
        s.step == Step::ReadHeader ==> s.read_len() == 30,
        s.step != Step::ReadHeader ==> {
            &&& s.read_len() <= s.left
            &&& s.read_len() + s.packed.len() <= 4096
            &&& s.read_len() == s.left || s.read_len() + s.packed.len() == 4096
        },
        s.sound() && s.step == Step::Read ==> s.read_len() > 0,
        s.room() + s.pending.len() == 4096,
{
}

/// What has to be done next: unpacked data go to the text stripper first; a stored entry
/// is read until nothing is left of it; a compressed one is read while there is space,
/// else decompressed, until the decompressor has reported the end or a failure. It is
/// empty if neither data nor output are at hand before the first call.
pub proof fn law_what_comes_next(s: Progress)
    ensures
        ({
            let t = s.resume();
            let goes_to = |step: Step| t == (Progress { step, ..s });
            let more = s.after is Refill || s.after is Drain;
            let nothing = s.packed.len() == 0 && s.out_pos == 0 && s.after is Refill;
            &&& s.input.len() > 0 ==> goes_to(Step::Feed)
            &&& s.input.len() == 0 && s.after is Finish ==> goes_to(Step::Finish)
            &&& s.input.len() == 0 && more && !s.deflate && s.left > 0 ==> goes_to(Step::Read)
            &&& s.input.len() == 0 && more && !s.deflate && s.left == 0 ==> goes_to(Step::Finish)
            &&& s.input.len() == 0 && more && s.deflate && s.left > 0 && s.packed.len() < 4096
                ==> goes_to(Step::Read)
            &&& s.input.len() == 0 && more && s.deflate && (s.left == 0 || s.packed.len() >= 4096)
                && !nothing ==> goes_to(Step::Inflate)
            &&& s.input.len() == 0 && more && s.deflate && (s.left == 0 || s.packed.len() >= 4096)
                && nothing ==> t == (Progress {
                step: Step::Done,
                outcome: Err("cache: empty deflate stream"@),
                ..s
            })
            &&& s.input.len() == 0 ==> (s.after matches After::Fail(message) ==> t == (Progress {
                step: Step::Done,
                outcome: Err(message),
                ..s
            }))
        }),
{
}

/// The header says where the data are, behind itself, the file name and the extra field;
/// the method, 0 or 8, says what they are and how many.
pub proof fn law_header_says_where_the_data_are(s: Progress, header: Seq<u8>)
    requires
        s.step == Step::ReadHeader,
        !s.deflate,
        header.len() == 30,
    ensures
        ({
            let t = s.header_read(header);
            let signed = header[0] == 'P' as u8 && header[1] == 'K' as u8 && header[2] == 3
                && header[3] == 4;
            let name_len = header[26] + 256 * header[27];
            let extra_len = header[28] + 256 * header[29];
            let at = (s.offset + 30 + name_len + extra_len) as nat;
            &&& !signed ==> t == (Progress {
                step: Step::Done,
                outcome: Err("zip: bad local header signature"@),
                ..s
            })
            &&& signed && s.entry.method == 0 ==> t == (Progress {
                step: if s.entry.uncomp_size > 0 {
                    Step::Read
                } else {
                    Step::Finish
                },
                offset: at,
                left: s.entry.uncomp_size as nat,
                ..s
            })
            &&& signed && s.entry.method == 8 ==> t == (Progress {
                step: Step::Allocate,
                deflate: true,
                offset: at,
                left: s.entry.comp_size as nat,
                ..s
            })
            &&& signed && s.entry.method != 0 && s.entry.method != 8 ==> t == (Progress {
                step: Step::Done,
                outcome: Err("cache: unsupported compression method"@),
                offset: at,
                ..s
            })
        }),
{
    crate::zip::law_data_lie_behind_the_header(header);
}

/// A failed read ends the pipeline, with a message that tells what was read.
pub proof fn law_failed_read_is_the_end(s: Progress)
    ensures
        s.step == Step::ReadHeader ==> s.read_failed() == (Progress {
            step: Step::Done,
            outcome: Err("cache: read local header failed"@),
            ..s
        }),
        s.step != Step::ReadHeader && s.deflate ==> s.read_failed() == (Progress {
            step: Step::Done,
            outcome: Err("cache: read failed during deflate"@),
            ..s
        }),
        s.step != Step::ReadHeader && !s.deflate ==> s.read_failed() == (Progress {
            step: Step::Done,
            outcome: Err("cache: read failed (stored)"@),
            ..s
        }),
{
}

/// What was read of a stored entry goes to the text stripper as it is, what was read of a
/// compressed one is added to what the decompressor has not taken yet. The next read
/// starts behind it. A read that gives nothing ends a stored entry with a failure, and the
/// reading of a compressed one.
pub proof fn law_read_data_are_taken_whole(s: Progress, data: Seq<u8>)
    requires
        data.len() <= s.left,
    ensures
        ({
            let t = s.data_read(data);
            let starved = s.packed.len() == 0 && s.out_pos == 0 && !(s.after is Drain);
            &&& !s.deflate && data.len() > 0 ==> t == (Progress {
                step: Step::Feed,
                offset: s.offset + data.len(),
                left: (s.left - data.len()) as nat,
                input: data,
                after: After::Refill,
                ..s
            })
            &&& !s.deflate && data.len() == 0 ==> t == (Progress {
                step: Step::Done,
                outcome: Err("cache: unexpected EOF in stored entry"@),
                ..s
            })
            &&& s.deflate && data.len() > 0 ==> t == (Progress {
                step: Step::Inflate,
                offset: s.offset + data.len(),
                left: (s.left - data.len()) as nat,
                packed: s.packed + data,
                ..s
            })
            &&& s.deflate && data.len() == 0 && !starved ==> t == (Progress {
                step: Step::Inflate,
                left: 0,
                ..s
            })
            &&& s.deflate && data.len() == 0 && starved ==> t == (Progress {
                step: Step::Done,
                left: 0,
                outcome: Err("cache: empty deflate stream"@),
                ..s
            })
        }),
{
}

/// With its buffers, and a window of zeros, a compressed entry is read, unless there is
/// nothing of it. Without them the pipeline ends with the message of the allocation.
pub proof fn law_buffers_come_first(s: Progress, message: Seq<char>)
    requires
        s.deflate,
        s.packed.len() == 0,
        s.out_pos == 0,
        s.after is Refill,
    ensures
        ({
            let t = s.allocated(Ok(()));
            let zeros = Seq::new(32768, |i: int| 0u8);
            &&& s.left > 0 ==> t == (Progress { step: Step::Read, window: zeros, ..s })
            &&& s.left == 0 ==> t == (Progress {
                step: Step::Done,
                window: zeros,
                outcome: Err("cache: empty deflate stream"@),
                ..s
            })
        }),
        s.allocated(Err(message)) == (Progress { step: Step::Done, outcome: Err(message), ..s }),
        crate::cache::progress::out_of_memory(message) <==> message
            == "cache: OOM for decompressor"@ || message == "cache: OOM for window"@ || message
            == "cache: OOM for read buffer"@,
{
}

/// A call of the decompressor announces more input exactly if more will be read.
pub proof fn law_more_input_is_announced(s: Progress)
    ensures
        s.left > 0 ==> s.flags() == 2,
        s.left == 0 ==> s.flags() == 0,
{
}

/// What the decompressor took is gone, what it left is kept, and what it wrote goes to the
/// text stripper. It writes on behind that, or at the start of a window that is full.
/// When the output has been taken, the text is finished if the stream was at its end; the
/// decompressor is called again if the window was full, or if more input can be had; and
/// else the pipeline fails.
pub proof fn law_output_is_taken_whole(
    s: Progress,
    status: InflateStatus,
    consumed: nat,
    produced: nat,
    window: Seq<u8>,
)
    requires
        consumed <= s.packed.len(),
    ensures
        ({
            let rest = s.packed.skip(consumed as int);
            let starved = s.packed.len() == 0 && s.out_pos == 0;
            let stuck = consumed == 0 && produced == 0 && s.packed.len() >= 4096;
            let leads_to = |after: After, out_pos: nat|
                s.inflated(status, consumed, produced, window) == (Progress {
                    packed: rest,
                    window,
                    out_pos,
                    input: window.subrange(s.out_pos as int, s.out_pos + produced as int),
                    after,
                    ..s
                }).resume();
            match status {
                InflateStatus::Done => leads_to(After::Finish, s.out_pos + produced),
                InflateStatus::HasMoreOutput => leads_to(After::Drain, 0),
                InflateStatus::NeedsMoreInput => leads_to(
                    if starved {
                        After::Fail("cache: empty deflate stream"@)
                    } else if s.left == 0 && consumed == s.packed.len() {
                        After::Fail("cache: truncated deflate stream"@)
                    } else if stuck {
                        After::Fail("cache: deflate stream stuck"@)
                    } else {
                        After::Refill
                    },
                    s.out_pos + produced,
                ),
                _ => leads_to(
                    After::Fail(
                        if starved {
                            "cache: empty deflate stream"@
                        } else {
                            "cache: deflate decompression error"@
                        },
                    ),
                    s.out_pos + produced,
                ),
            }
        }),
{
}

/// What the text stripper took is gone, or one byte if it neither took nor gave anything
/// and no text is held back. What it gave is held back behind what was held back before.
/// Text is written from 3968 bytes on, or if the text stripper does not get on.
pub proof fn law_stripped_text_is_held_back(s: Progress, consumed: nat, text: Seq<u8>)
    requires
        consumed <= s.input.len(),
    ensures
        ({
            let t = s.fed(consumed, text);
            let held = s.pending.len() + text.len();
            let idle = consumed == 0 && text.len() == 0;
            &&& !idle && held >= 3968 ==> t == (Progress {
                step: Step::Flush,
                input: s.input.skip(consumed as int),
                pending: s.pending + text,
                ..s
            })
            &&& !idle && held < 3968 ==> t == (Progress {
                input: s.input.skip(consumed as int),
                pending: s.pending + text,
                ..s
            }).resume()
            &&& idle && held > 0 ==> t == (Progress { step: Step::Flush, ..s })
            &&& idle && held == 0 ==> t == (Progress { input: s.input.skip(1), ..s }).resume()
        }),
{
    assert(s.input.skip(0) =~= s.input);
    if text.len() == 0 {
        assert(s.pending + text =~= s.pending);
    }
}

/// The last text is written with what is held back, if there is any, and the pipeline then
/// returns how much was written in all.
pub proof fn law_last_text_is_written(s: Progress, text: Seq<u8>)
    ensures
        s.pending.len() + text.len() > 0 ==> s.finished(text) == (Progress {
            step: Step::Flush,
            closing: true,
            pending: s.pending + text,
            ..s
        }),
        s.pending.len() + text.len() == 0 ==> s.finished(text) == (Progress {
            step: Step::Done,
            outcome: Ok(s.total),
            ..s
        }),
        s.closing ==> s.written() == (Progress {
            step: Step::Done,
            total: s.total + s.pending.len(),
            pending: Seq::empty(),
            outcome: Ok(s.total + s.pending.len()),
            ..s
        }),
        !s.closing ==> s.written() == (Progress {
            total: s.total + s.pending.len(),
            pending: Seq::empty(),
            ..s
        }).resume(),
{
    if s.pending.len() + text.len() == 0 {
        assert(s.pending + text =~= s.pending);
    }
}

/// A failed write ends the pipeline with its own message.
pub proof fn law_failed_write_is_the_end(s: Progress, message: Seq<char>)
    ensures
        s.fail(message) == (Progress { step: Step::Done, outcome: Err(message), ..s }),
{
}

/// The model of an outcome is the outcome.
pub proof fn law_outcome_is_told_as_it_is(total: u32, message: &'static str)
    ensures
        crate::cache::stream::outcome_model(Ok(total)) == Ok::<nat, Seq<char>>(total as nat),
        crate::cache::stream::outcome_model(Err(message)) == Err::<nat, Seq<char>>(message@),
{
}

/// Every event has the effect of its name.
pub proof fn law_events_have_their_effects(
    s: Progress,
    bytes: Seq<u8>,
    n: nat,
    message: Seq<char>,
    result: Result<(), Seq<char>>,
    calls: Seq<(Seq<u8>, Seq<u8>, nat, u32)>,
    status: InflateStatus,
    produced: nat,
)
    ensures
        s.next(Event::HeaderRead(bytes)) == s.header_read(bytes),
        s.next(Event::ReadFailed) == s.read_failed(),
        s.next(Event::DataRead(bytes)) == s.data_read(bytes),
        s.next(Event::Allocated(result)) == s.allocated(result),
        s.next(Event::Inflated(calls, status, n, produced, bytes)) == (Progress {
            calls,
            ..s
        }).inflated(status, n, produced, bytes),
        s.next(Event::Fed(n, bytes)) == s.fed(n, bytes),
        s.next(Event::Finished(bytes)) == s.finished(bytes),
        s.next(Event::Written) == s.written(),
        s.next(Event::WriteFailed(message)) == s.fail(message),
{
    reveal(Progress::next);
}

/// What can happen in a state: what the step asks for, with as many bytes as it asked for
/// at most, as long as offsets and lengths can be counted in 32 bits. Nothing else
/// matters: not where the entry lies, nor what the bytes are.
pub proof fn law_what_can_happen(s: Progress, event: Event)
    requires
        s.packed.len() <= 4096,
        s.pending.len() <= 4096,
    ensures
        s.accepts(event) <==> match event {
            Event::HeaderRead(header) => {
                &&& s.step == Step::ReadHeader
                &&& header.len() == 30
                &&& header[0] == 'P' as u8 && header[1] == 'K' as u8 && header[2] == 3
                    && header[3] == 4 ==> s.offset + 30 + (header[26] + 256 * header[27]) + (
                header[28] + 256 * header[29]) <= 0xFFFF_FFFF
            },
            Event::ReadFailed => s.step == Step::ReadHeader || s.step == Step::Read,
            Event::DataRead(data) => {
                &&& s.step == Step::Read
                &&& data.len() <= s.left
                &&& s.packed.len() + data.len() <= 4096
                &&& s.offset + data.len() <= 0xFFFF_FFFF
            },
            Event::Allocated(result) => {
                &&& s.step == Step::Allocate
                &&& result matches Err(message) ==> message == "cache: OOM for decompressor"@
                    || message == "cache: OOM for window"@ || message
                    == "cache: OOM for read buffer"@
            },
            Event::Inflated(_, _, consumed, produced, window) => {
                &&& s.step == Step::Inflate
                &&& consumed <= s.packed.len()
                &&& s.out_pos + produced <= 32768
                &&& window.len() == 32768
            },
            Event::Fed(consumed, text) => {
                &&& s.step == Step::Feed
                &&& consumed <= s.input.len()
                &&& s.pending.len() + text.len() <= 4096
            },
            Event::Finished(text) => s.step == Step::Finish && s.pending.len() + text.len() <= 4096,
            Event::Written => s.step == Step::Flush && s.total + s.pending.len() <= 0xFFFF_FFFF,
            Event::WriteFailed(_) => s.step == Step::Flush,
        },
{
    if let Event::HeaderRead(header) = event {
        if header.len() == 30 {
            crate::zip::law_data_lie_behind_the_header(header);
        }
    }
}

/// What a sequence of events means: one more event takes the state where it leads, if it
/// can happen there, and adds what it brings to what came before.
pub proof fn law_traces_grow_with_each_event(start: Progress, events: Seq<Event>, event: Event)
    ensures
        ({
            let before = crate::cache::stream_laws::run(start, events);
            let more = events.push(event);
            let none = Seq::<u8>::empty();
            &&& crate::cache::stream_laws::run(start, Seq::empty()) == start
            &&& crate::cache::stream_laws::possible(start, Seq::empty())
            &&& crate::cache::stream_laws::run(start, more) == before.next(event)
            &&& crate::cache::stream_laws::possible(start, more) == (
            crate::cache::stream_laws::possible(start, events) && before.accepts(event))
            &&& crate::cache::stream_laws::text(Seq::empty()).len() == 0
            &&& crate::cache::stream_laws::text(more) == crate::cache::stream_laws::text(events)
                + match event {
                Event::Fed(_, text) => text,
                Event::Finished(text) => text,
                _ => none,
            }
            &&& crate::cache::stream_laws::chunks(start, Seq::empty()).len() == 0
            &&& crate::cache::stream_laws::chunks(start, more) == if event is Written {
                crate::cache::stream_laws::chunks(start, events).push(before.pending)
            } else {
                crate::cache::stream_laws::chunks(start, events)
            }
            &&& crate::cache::stream_laws::read(Seq::empty()).len() == 0
            &&& crate::cache::stream_laws::read(more) == crate::cache::stream_laws::read(events)
                + match event {
                Event::DataRead(data) => data,
                _ => none,
            }
            &&& crate::cache::stream_laws::unpacked(start, Seq::empty()).len() == 0
            &&& crate::cache::stream_laws::unpacked(start, more)
                == crate::cache::stream_laws::unpacked(start, events) + match event {
                Event::DataRead(data) => if before.deflate {
                    none
                } else {
                    data
                },
                Event::Inflated(_, _, _, produced, window) => window.subrange(
                    before.out_pos as int,
                    before.out_pos + produced as int,
                ),
                _ => none,
            }
            &&& crate::cache::stream_laws::taken(start, Seq::empty()).len() == 0
            &&& crate::cache::stream_laws::taken(start, more) == crate::cache::stream_laws::taken(
                start,
                events,
            ) + match event {
                Event::Fed(consumed, text) => if consumed == 0 && text.len() == 0
                    && before.pending.len() == 0 {
                    before.input.take(1)
                } else {
                    before.input.take(consumed as int)
                },
                _ => none,
            }
        }),
{
    assert(events.push(event).drop_last() =~= events);
}

/// What it means that everything was read from a store, that nothing outside failed, and
/// that the text stripper was asked for the rest of its text.
pub proof fn law_conditions_on_traces(
    store: Seq<u8>,
    start: Progress,
    events: Seq<Event>,
    event: Event,
)
    ensures
        ({
            let before = crate::cache::stream_laws::run(start, events);
            let more = events.push(event);
            let lies = |data: Seq<u8>|
                data.len() == 0 || before.offset + data.len() <= store.len() && data
                    == store.subrange(before.offset as int, before.offset + data.len() as int);
            &&& crate::cache::text_laws::served(store, start, Seq::empty())
            &&& crate::cache::text_laws::served(store, start, more) == (
            crate::cache::text_laws::served(store, start, events) && match event {
                Event::HeaderRead(header) => lies(header),
                Event::DataRead(data) => lies(data),
                _ => true,
            })
            &&& crate::cache::text_laws::undisturbed(Seq::empty())
            &&& crate::cache::text_laws::undisturbed(more) == (
            crate::cache::text_laws::undisturbed(events) && match event {
                Event::ReadFailed => false,
                Event::WriteFailed(_) => false,
                Event::Allocated(result) => result is Ok,
                Event::DataRead(data) => data.len() > 0,
                _ => true,
            })
            &&& !crate::cache::text_laws::finished(Seq::empty())
            &&& crate::cache::text_laws::finished(more) == (crate::cache::text_laws::finished(
                events,
            ) || event is Finished)
        }),
{
    assert(events.push(event).drop_last() =~= events);
}

} // verus!
