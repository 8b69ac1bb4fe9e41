//! What holds of every run of the chapter pipeline.
//!
//! A run is a sequence of events, each of which can happen where the ones before it
//! have led. The laws relate what went in (data read, data unpacked, text stripped)
//! to what came out.
use crate::cache::inflate::{InflateStatus, WINDOW_SIZE};
use crate::cache::progress::{Event, Progress, Step, READ_BUF_SIZE, STRIP_BUF_SIZE};
use crate::zip::{ZipEntry, METHOD_DEFLATE, METHOD_STORED};
use vstd::prelude::*;

verus! {

/// The state to which the events lead.
pub open spec fn run(start: Progress, events: Seq<Event>) -> Progress
    decreases events.len(),
{
    if events.len() == 0 {
        start
    } else {
        run(start, events.drop_last()).next(events.last())
    }
}

/// Each event can happen where the ones before it have led.
pub open spec fn possible(start: Progress, events: Seq<Event>) -> bool
    decreases events.len(),
{
    events.len() == 0 || {
        &&& possible(start, events.drop_last())
        &&& run(start, events.drop_last()).accepts(events.last())
    }
}

/// All text that the text stripper gave.
pub open spec fn text(events: Seq<Event>) -> Seq<u8>
    decreases events.len(),
{
    if events.len() == 0 {
        Seq::empty()
    } else {
        text(events.drop_last()) + match events.last() {
            Event::Fed(_, t) => t,
            Event::Finished(t) => t,
            _ => Seq::empty(),
        }
    }
}

/// The pieces of text that were written.
pub open spec fn chunks(start: Progress, events: Seq<Event>) -> Seq<Seq<u8>>
    decreases events.len(),
{
    if events.len() == 0 {
        Seq::empty()
    } else {
        let earlier = chunks(start, events.drop_last());
        if events.last() is Written {
            earlier.push(run(start, events.drop_last()).pending)
        } else {
            earlier
        }
    }
}

/// All entry data that were read.
pub open spec fn read(events: Seq<Event>) -> Seq<u8>
    decreases events.len(),
{
    if events.len() == 0 {
        Seq::empty()
    } else {
        read(events.drop_last()) + match events.last() {
            Event::DataRead(data) => data,
            _ => Seq::empty(),
        }
    }
}

/// All compressed data that the decompressor took.
pub open spec fn decoded(start: Progress, events: Seq<Event>) -> Seq<u8>
    decreases events.len(),
{
    if events.len() == 0 {
        Seq::empty()
    } else {
        decoded(start, events.drop_last()) + match events.last() {
            Event::Inflated(_, _, consumed, _, _) => run(
                start,
                events.drop_last(),
            ).packed.take(consumed as int),
            _ => Seq::empty(),
        }
    }
}

/// All unpacked data: what was read of a stored entry, what the decompressor wrote
/// of a compressed one.
pub open spec fn unpacked(start: Progress, events: Seq<Event>) -> Seq<u8>
    decreases events.len(),
{
    if events.len() == 0 {
        Seq::empty()
    } else {
        let before = run(start, events.drop_last());
        unpacked(start, events.drop_last()) + match events.last() {
            Event::DataRead(data) => if before.deflate {
                Seq::empty()
            } else {
                data
            },
            Event::Inflated(_, _, _, produced, window) => window.subrange(
                before.out_pos as int,
                before.out_pos + produced as int,
            ),
            _ => Seq::empty(),
        }
    }
}

/// All unpacked data that the text stripper took, or that were skipped because it
/// neither took nor gave anything.
pub open spec fn taken(start: Progress, events: Seq<Event>) -> Seq<u8>
    decreases events.len(),
{
    if events.len() == 0 {
        Seq::empty()
    } else {
        let before = run(start, events.drop_last());
        taken(start, events.drop_last()) + match events.last() {
            Event::Fed(consumed, t) => if consumed == 0 && t.len() == 0 && before.pending.len()
                == 0 {
                before.input.take(1)
            } else {
                before.input.take(consumed as int)
            },
            _ => Seq::empty(),
        }
    }
}

/// The status of the last call of the decompressor, if there was one.
pub open spec fn last_status(events: Seq<Event>) -> Option<InflateStatus>
    decreases events.len(),
{
    if events.len() == 0 {
        None
    } else {
        match events.last() {
            Event::Inflated(_, status, _, _, _) => Some(status),
            _ => last_status(events.drop_last()),
        }
    }
}

/// Every state that an entry can reach is sound.
pub proof fn law_runs_are_sound(entry: ZipEntry, local_offset: u32, events: Seq<Event>)
    requires
        possible(Progress::start(entry, local_offset), events),
    ensures
        run(Progress::start(entry, local_offset), events).sound(),
        run(Progress::start(entry, local_offset), events).entry == entry,
    decreases events.len(),
{
    let start = Progress::start(entry, local_offset);
    if events.len() > 0 {
        law_runs_are_sound(entry, local_offset, events.drop_last());
        crate::cache::progress::law_next_is_sound(
            run(start, events.drop_last()),
            events.last(),
        );
    }
}

/// Nothing happens any more once the outcome is known.
pub proof fn law_done_is_final(s: Progress, event: Event)
    requires
        s.step == Step::Done,
    ensures
        !s.accepts(event),
{
}

/// No text is lost, doubled or reordered: what was written, followed by what is held
/// back, is what the text stripper gave. The total counts what was written.
pub proof fn law_text_is_passed_on(entry: ZipEntry, local_offset: u32, events: Seq<Event>)
    requires
        possible(Progress::start(entry, local_offset), events),
    ensures
        ({
            let start = Progress::start(entry, local_offset);
            let written = chunks(start, events).flatten();
            &&& written + run(start, events).pending == text(events)
            &&& run(start, events).total == written.len()
        }),
    decreases events.len(),
{
    reveal(Progress::next);
    let start = Progress::start(entry, local_offset);
    if events.len() > 0 {
        let earlier = events.drop_last();
        law_text_is_passed_on(entry, local_offset, earlier);
        law_runs_are_sound(entry, local_offset, earlier);
        let before = run(start, earlier);
        let w = chunks(start, earlier);
        if events.last() is Written {
            w.lemma_flatten_push(before.pending);
            assert(w.push(before.pending).flatten() + Seq::<u8>::empty() =~= w.flatten()
                + before.pending);
        }
        assert(w.flatten() + run(start, events).pending =~= text(events) || events.last()
            is Written);
    } else {
        assert(chunks(start, events).flatten() =~= Seq::<u8>::empty());
    }
}

/// No unpacked data are lost, doubled or reordered on their way to the text stripper.
pub proof fn law_input_is_passed_on(entry: ZipEntry, local_offset: u32, events: Seq<Event>)
    requires
        possible(Progress::start(entry, local_offset), events),
    ensures
        ({
            let start = Progress::start(entry, local_offset);
            taken(start, events) + run(start, events).input == unpacked(start, events)
        }),
    decreases events.len(),
{
    reveal(Progress::next);
    let start = Progress::start(entry, local_offset);
    if events.len() > 0 {
        let earlier = events.drop_last();
        law_input_is_passed_on(entry, local_offset, earlier);
        law_runs_are_sound(entry, local_offset, earlier);
        let before = run(start, earlier);
        match events.last() {
            Event::Fed(consumed, t) => {
                let n = if consumed == 0 && t.len() == 0 && before.pending.len() == 0 {
                    1
                } else {
                    consumed as int
                };
                assert(run(start, events).input =~= before.input.skip(n));
                assert(before.input.take(n) + before.input.skip(n) =~= before.input);
                assert(taken(start, events) + run(start, events).input =~= taken(start, earlier)
                    + before.input);
            },
            _ => {
                assert(taken(start, events) =~= taken(start, earlier));
            },
        }
    }
}

/// A successful run has written all text, and its result counts it; the text stripper
/// was given all unpacked data.
pub proof fn law_success_is_complete(entry: ZipEntry, local_offset: u32, events: Seq<Event>)
    requires
        possible(Progress::start(entry, local_offset), events),
        run(Progress::start(entry, local_offset), events).step == Step::Done,
        run(Progress::start(entry, local_offset), events).outcome is Ok,
    ensures
        ({
            let start = Progress::start(entry, local_offset);
            let written = chunks(start, events).flatten();
            &&& written == text(events)
            &&& run(start, events).outcome == Ok::<nat, Seq<char>>(written.len())
            &&& taken(start, events) == unpacked(start, events)
        }),
{
    let start = Progress::start(entry, local_offset);
    law_runs_are_sound(entry, local_offset, events);
    law_text_is_passed_on(entry, local_offset, events);
    law_input_is_passed_on(entry, local_offset, events);
    let s = run(start, events);
    assert(chunks(start, events).flatten() + s.pending =~= chunks(start, events).flatten());
    assert(taken(start, events) + s.input =~= taken(start, events));
}

/// Every piece of text that is written has at least one byte and fits the text buffer.
pub proof fn law_chunks_fit(entry: ZipEntry, local_offset: u32, events: Seq<Event>)
    requires
        possible(Progress::start(entry, local_offset), events),
    ensures
        forall|i: int|
            0 <= i < chunks(Progress::start(entry, local_offset), events).len() ==> 0 < (
            #[trigger] chunks(Progress::start(entry, local_offset), events)[i]).len()
                <= STRIP_BUF_SIZE,
    decreases events.len(),
{
    let start = Progress::start(entry, local_offset);
    if events.len() > 0 {
        let earlier = chunks(start, events.drop_last());
        law_chunks_fit(entry, local_offset, events.drop_last());
        law_runs_are_sound(entry, local_offset, events.drop_last());
        assert forall|i: int| 0 <= i < chunks(start, events).len() implies 0 < (
        #[trigger] chunks(start, events)[i]).len() <= STRIP_BUF_SIZE by {
            if i < earlier.len() {
                assert(chunks(start, events)[i] == earlier[i]);
            }
        }
    }
}

/// However large an entry is, its buffers are not: besides the decompressor itself, a
/// compressed entry holds the window, compressed data and text, a stored one holds
/// unpacked data and text, and each of them has a fixed limit.
pub proof fn law_memory_is_bounded(entry: ZipEntry, local_offset: u32, events: Seq<Event>)
    requires
        possible(Progress::start(entry, local_offset), events),
    ensures
        ({
            let s = run(Progress::start(entry, local_offset), events);
            &&& s.window.len() <= WINDOW_SIZE
            &&& s.packed.len() <= READ_BUF_SIZE
            &&& s.pending.len() <= STRIP_BUF_SIZE
            &&& !s.deflate ==> s.window.len() == 0 && s.packed.len() == 0 && s.input.len()
                <= READ_BUF_SIZE
        }),
{
    law_runs_are_sound(entry, local_offset, events);
}

/// The text stripper always gets room for more than 128 bytes.
pub proof fn law_stripper_has_room(s: Progress)
    requires
        s.sound(),
        s.step == Step::Feed || s.step == Step::Finish,
    ensures
        s.room() > 128,
{
}

/// A text stripper that neither takes nor gives anything cannot hold up the pipeline:
/// the held-back text is written and it gets another try with the whole buffer, and
/// if there is none, one byte is skipped.
pub proof fn law_idle_stripper_is_passed(s: Progress)
    requires
        s.sound(),
        s.step == Step::Feed,
    ensures
        s.pending.len() == 0 ==> s.fed(0, Seq::empty()).input == s.input.skip(1),
        s.pending.len() > 0 ==> {
            let flush = s.fed(0, Seq::empty());
            let retry = flush.written();
            &&& flush.step == Step::Flush
            &&& flush.pending == s.pending
            &&& retry.step == Step::Feed
            &&& retry.input == s.input
            &&& retry.room() == STRIP_BUF_SIZE
        },
{
    assert(s.pending + Seq::<u8>::empty() =~= s.pending);
    assert(s.input.skip(0) =~= s.input);
}

/// A stored entry is read front to back, from behind its header and not beyond its
/// end, and what was read is what the text stripper is given. Success takes all of it.
pub proof fn law_stored_entry_is_read_in_order(
    entry: ZipEntry,
    local_offset: u32,
    header: Seq<u8>,
    skip: nat,
    events: Seq<Event>,
)
    requires
        entry.method == METHOD_STORED,
        crate::zip::data_skip(header) == Ok::<nat, Seq<char>>(skip),
        events.len() > 0,
        events[0] == Event::HeaderRead(header),
        possible(Progress::start(entry, local_offset), events),
    ensures
        ({
            let start = Progress::start(entry, local_offset);
            let s = run(start, events);
            &&& !s.deflate
            &&& s.offset == local_offset + skip + read(events).len()
            &&& s.left + read(events).len() == entry.uncomp_size
            &&& s.step == Step::Read ==> s.read_len() <= s.left
            &&& unpacked(start, events) == read(events)
            &&& s.step == Step::Done && s.outcome is Ok ==> read(events).len() == entry.uncomp_size
        }),
    decreases events.len(),
{
    reveal(Progress::next);
    let start = Progress::start(entry, local_offset);
    let earlier = events.drop_last();
    law_runs_are_sound(entry, local_offset, earlier);
    law_runs_are_sound(entry, local_offset, events);
    if events.len() == 1 {
        assert(earlier =~= Seq::<Event>::empty());
        assert(run(start, earlier) == start);
        assert(read(earlier) =~= Seq::<u8>::empty());
        assert(unpacked(start, earlier) =~= Seq::<u8>::empty());
    } else {
        law_stored_entry_is_read_in_order(entry, local_offset, header, skip, earlier);
        assert(!(events.last() is HeaderRead)) by {
            lemma_header_once(entry, local_offset, earlier);
        }
    }
}

/// The header is read first, and once.
pub(crate) proof fn lemma_header_once(entry: ZipEntry, local_offset: u32, events: Seq<Event>)
    requires
        events.len() > 0,
        possible(Progress::start(entry, local_offset), events),
    ensures
        run(Progress::start(entry, local_offset), events).step != Step::ReadHeader,
{
    reveal(Progress::next);
}

/// What an event does to the compressed data of an entry.
pub(crate) proof fn lemma_deflate_step(s: Progress, event: Event)
    requires
        s.sound(),
        s.deflate,
        s.accepts(event),
    ensures
        s.next(event).deflate,
        match event {
            Event::DataRead(data) => {
                &&& s.next(event).packed == s.packed + data
                &&& s.next(event).offset == s.offset + data.len()
                &&& s.next(event).left == if data.len() == 0 {
                    0
                } else {
                    s.left - data.len()
                }
            },
            Event::Inflated(_, _, consumed, _, _) => {
                &&& s.next(event).packed == s.packed.skip(consumed as int)
                &&& s.next(event).offset == s.offset
                &&& s.next(event).left == s.left
            },
            _ => {
                &&& s.next(event).packed == s.packed
                &&& s.next(event).offset == s.offset
                &&& s.next(event).left == s.left
            },
        },
{
    reveal(Progress::next);
    if let Event::DataRead(data) = event {
        if data.len() == 0 {
            assert(s.packed + data =~= s.packed);
        }
    }
}

/// A compressed entry is read front to back, from behind its header and not beyond its
/// end, and the decompressor is given what was read, without gaps.
pub proof fn law_deflate_entry_is_read_in_order(
    entry: ZipEntry,
    local_offset: u32,
    header: Seq<u8>,
    skip: nat,
    events: Seq<Event>,
)
    requires
        entry.method == METHOD_DEFLATE,
        crate::zip::data_skip(header) == Ok::<nat, Seq<char>>(skip),
        events.len() > 0,
        events[0] == Event::HeaderRead(header),
        possible(Progress::start(entry, local_offset), events),
    ensures
        ({
            let start = Progress::start(entry, local_offset);
            let s = run(start, events);
            &&& s.deflate
            &&& s.offset == local_offset + skip + read(events).len()
            &&& s.left + read(events).len() <= entry.comp_size
            &&& s.left > 0 ==> s.left + read(events).len() == entry.comp_size
            &&& s.step == Step::Read ==> s.read_len() <= s.left
            &&& decoded(start, events) + s.packed == read(events)
        }),
    decreases events.len(),
{
    let start = Progress::start(entry, local_offset);
    let earlier = events.drop_last();
    law_runs_are_sound(entry, local_offset, earlier);
    law_runs_are_sound(entry, local_offset, events);
    if events.len() == 1 {
        reveal(Progress::next);
        assert(earlier =~= Seq::<Event>::empty());
        assert(run(start, earlier) == start);
        assert(read(earlier) =~= Seq::<u8>::empty());
        assert(decoded(start, earlier) =~= Seq::<u8>::empty());
        assert(decoded(start, events) + run(start, events).packed =~= read(events));
    } else {
        law_deflate_entry_is_read_in_order(entry, local_offset, header, skip, earlier);
        let before = run(start, earlier);
        lemma_deflate_step(before, events.last());
        match events.last() {
            Event::Inflated(_, _, consumed, _, _) => {
                assert(before.packed.take(consumed as int) + before.packed.skip(consumed as int)
                    =~= before.packed);
            },
            _ => {},
        }
        assert(decoded(start, events) + run(start, events).packed =~= read(events));
    }
}

/// The text of a compressed entry is finished exactly after the decompressor has
/// reported the end of the stream.
proof fn lemma_end_of_stream(entry: ZipEntry, local_offset: u32, events: Seq<Event>)
    requires
        possible(Progress::start(entry, local_offset), events),
    ensures
        ({
            let s = run(Progress::start(entry, local_offset), events);
            &&& !s.deflate ==> last_status(events) is None
            &&& s.after is Finish <==> last_status(events) == Some(InflateStatus::Done)
            &&& s.deflate && (s.step == Step::Finish || s.closing || s.step == Step::Done
                && s.outcome is Ok) ==> s.after is Finish
        }),
    decreases events.len(),
{
    if events.len() > 0 {
        reveal(Progress::next);
        lemma_end_of_stream(entry, local_offset, events.drop_last());
        law_runs_are_sound(entry, local_offset, events.drop_last());
        law_runs_are_sound(entry, local_offset, events);
    }
}

/// A compressed entry succeeds only if the last answer of the decompressor was that the
/// stream is at its end: one that is cut short or broken never does.
pub proof fn law_deflate_success_is_at_the_end(
    entry: ZipEntry,
    local_offset: u32,
    events: Seq<Event>,
)
    requires
        possible(Progress::start(entry, local_offset), events),
        run(Progress::start(entry, local_offset), events).deflate,
        run(Progress::start(entry, local_offset), events).step == Step::Done,
        run(Progress::start(entry, local_offset), events).outcome is Ok,
    ensures
        last_status(events) == Some(InflateStatus::Done),
{
    lemma_end_of_stream(entry, local_offset, events);
}

/// What happens can make the pipeline fail: something outside failed, the header or the
/// method is not one that can be dealt with, the entry is empty where it must not be or
/// ends early, or the decompressor has met the end of its input or an error.
pub open spec fn is_fault(before: Progress, event: Event) -> bool {
    match event {
        Event::HeaderRead(header) => {
            ||| crate::zip::data_skip(header) is Err
            ||| before.entry.method != METHOD_STORED && before.entry.method != METHOD_DEFLATE
        },
        Event::ReadFailed => true,
        Event::DataRead(data) => data.len() == 0,
        Event::Allocated(result) => result is Err || before.entry.comp_size == 0,
        Event::Inflated(_, status, consumed, produced, _) => match status {
            InflateStatus::Done => false,
            InflateStatus::HasMoreOutput => false,
            InflateStatus::NeedsMoreInput => {
                ||| before.left == 0 && consumed == before.packed.len()
                ||| consumed == 0 && produced == 0 && before.packed.len() >= READ_BUF_SIZE
            },
            _ => true,
        },
        Event::Fed(_, _) => false,
        Event::Finished(_) => false,
        Event::Written => false,
        Event::WriteFailed(_) => true,
    }
}

/// One of the events could make the pipeline fail.
pub open spec fn faulty(start: Progress, events: Seq<Event>) -> bool
    decreases events.len(),
{
    events.len() > 0 && {
        ||| faulty(start, events.drop_last())
        ||| is_fault(run(start, events.drop_last()), events.last())
    }
}

/// Without a fault the pipeline neither fails nor is about to.
proof fn lemma_faults(entry: ZipEntry, local_offset: u32, events: Seq<Event>)
    requires
        possible(Progress::start(entry, local_offset), events),
    ensures
        ({
            let start = Progress::start(entry, local_offset);
            let s = run(start, events);
            &&& s.step == Step::Done && s.outcome is Err ==> faulty(start, events)
            &&& s.after is Fail ==> faulty(start, events)
            &&& s.step == Step::Allocate ==> s.left == entry.comp_size
            &&& s.deflate && s.after is Refill && (s.step == Step::Feed || s.step == Step::Flush)
                ==> s.packed.len() > 0 || s.left > 0
        }),
    decreases events.len(),
{
    if events.len() > 0 {
        reveal(Progress::next);
        lemma_faults(entry, local_offset, events.drop_last());
        law_runs_are_sound(entry, local_offset, events.drop_last());
        law_runs_are_sound(entry, local_offset, events);
    }
}

/// A failure has a cause: unless something outside failed, the header or the method
/// cannot be dealt with, a compressed entry is empty, an entry ends early, or the
/// decompressor reports that the stream is broken or cut short, the pipeline succeeds.
pub proof fn law_failure_has_a_cause(entry: ZipEntry, local_offset: u32, events: Seq<Event>)
    requires
        possible(Progress::start(entry, local_offset), events),
        run(Progress::start(entry, local_offset), events).step == Step::Done,
        run(Progress::start(entry, local_offset), events).outcome is Err,
    ensures
        faulty(Progress::start(entry, local_offset), events),
{
    lemma_faults(entry, local_offset, events);
}

} // verus!
