//! What text an entry gives, whatever pieces it is read and stripped in.
//!
//! The laws are about a text stripper whose text depends on nothing but the data it is
//! handed, and about a decompressor that answers as `EntryStream::inflate` promises.
use crate::cache::inflate::{InflateStatus, WINDOW_SIZE};
use crate::cache::progress::{Event, Progress, Step};
use crate::zip::{ZipEntry, LOCAL_HEADER_SIZE, METHOD_DEFLATE, METHOD_STORED};
use vstd::prelude::*;

verus! {

/// The data lie in the store at `at`.
pub open spec fn holds(store: Seq<u8>, at: int, data: Seq<u8>) -> bool {
    data.len() == 0 || {
        &&& 0 <= at
        &&& at + data.len() <= store.len()
        &&& data == store.subrange(at, at + data.len())
    }
}

/// Everything was read from the store.
pub open spec fn served(store: Seq<u8>, start: Progress, events: Seq<Event>) -> bool
    decreases events.len(),
{
    events.len() == 0 || {
        let before = crate::cache::stream_laws::run(start, events.drop_last());
        &&& served(store, start, events.drop_last())
        &&& match events.last() {
            Event::HeaderRead(header) => holds(store, before.offset as int, header),
            Event::DataRead(data) => holds(store, before.offset as int, data),
            _ => true,
        }
    }
}

/// The store has an entry with the data, its local file header at `local_offset`.
pub open spec fn has_entry(store: Seq<u8>, local_offset: u32, data: Seq<u8>) -> bool {
    let header = store.subrange(local_offset as int, local_offset + LOCAL_HEADER_SIZE);
    &&& local_offset + LOCAL_HEADER_SIZE <= store.len()
    &&& crate::zip::data_skip(header) matches Ok(skip) && holds(store, local_offset + skip, data)
}

/// The store has the whole entry: data of the announced size, which are the content if
/// they are stored, and unpack to it if they are compressed.
pub open spec fn whole(
    store: Seq<u8>,
    entry: ZipEntry,
    local_offset: u32,
    data: Seq<u8>,
    content: Seq<u8>,
) -> bool {
    &&& has_entry(store, local_offset, data)
    &&& entry.method == METHOD_STORED || entry.method == METHOD_DEFLATE
    &&& entry.method == METHOD_STORED ==> entry.uncomp_size == data.len() && content == data
    &&& entry.method == METHOD_DEFLATE ==> entry.comp_size == data.len()
        && crate::cache::inflate::unpacks_to(data, content)
}

/// The decompressor was called on what the pipeline held, and answered as it does.
pub open spec fn answered(start: Progress, events: Seq<Event>) -> bool
    decreases events.len(),
{
    events.len() == 0 || {
        let before = crate::cache::stream_laws::run(start, events.drop_last());
        &&& answered(start, events.drop_last())
        &&& events.last() matches Event::Inflated(calls, status, consumed, produced, window) ==> {
            &&& calls == before.calls.push(
                (before.packed, before.window, before.out_pos, before.flags()),
            )
            &&& crate::cache::inflate::answer(calls) == (status, consumed, produced, window)
            &&& crate::cache::inflate::consistent(calls)
            &&& crate::cache::inflate::gets_on(calls)
        }
    }
}

/// The stream is not at its end.
pub open spec fn goes_on(s: Progress) -> bool {
    s.after is Refill || s.after is Drain
}

/// The text stripper was asked for the rest of its text.
pub open spec fn finished(events: Seq<Event>) -> bool
    decreases events.len(),
{
    events.len() > 0 && (events.last() is Finished || finished(events.drop_last()))
}

/// The text of the text stripper, once complete, depends on nothing but the data that it
/// took or that were skipped: `strip` says how.
pub open spec fn stripped_by(
    strip: spec_fn(Seq<u8>) -> Seq<u8>,
    start: Progress,
    events: Seq<Event>,
) -> bool {
    finished(events) ==> crate::cache::stream_laws::text(events) == strip(
        crate::cache::stream_laws::taken(start, events),
    )
}

/// The run has come to its end.
pub open spec fn ended(start: Progress, events: Seq<Event>) -> bool {
    &&& crate::cache::stream_laws::possible(start, events)
    &&& crate::cache::stream_laws::run(start, events).step == Step::Done
}

/// The run has come to a successful end.
pub open spec fn succeeded(start: Progress, events: Seq<Event>) -> bool {
    &&& ended(start, events)
    &&& crate::cache::stream_laws::run(start, events).outcome is Ok
}

/// Every read gave something, and nothing outside failed.
pub open spec fn undisturbed(events: Seq<Event>) -> bool
    decreases events.len(),
{
    events.len() == 0 || {
        &&& undisturbed(events.drop_last())
        &&& match events.last() {
            Event::ReadFailed => false,
            Event::WriteFailed(_) => false,
            Event::Allocated(result) => result is Ok,
            Event::DataRead(data) => data.len() > 0,
            _ => true,
        }
    }
}

/// All text that was written.
pub open spec fn written(start: Progress, events: Seq<Event>) -> Seq<u8> {
    crate::cache::stream_laws::chunks(start, events).flatten()
}

/// Success comes only after the text stripper has finished.
proof fn lemma_success_is_finished(entry: ZipEntry, local_offset: u32, events: Seq<Event>)
    requires
        crate::cache::stream_laws::possible(Progress::start(entry, local_offset), events),
    ensures
        ({
            let s = crate::cache::stream_laws::run(Progress::start(entry, local_offset), events);
            s.closing || s.step == Step::Done && s.outcome is Ok ==> finished(events)
        }),
    decreases events.len(),
{
    if events.len() > 0 {
        reveal(Progress::next);
        lemma_success_is_finished(entry, local_offset, events.drop_last());
    }
}

/// A successful run has written what the text stripper makes of the unpacked data, and
/// returns how much that is.
pub proof fn law_text_is_that_of_the_data(
    strip: spec_fn(Seq<u8>) -> Seq<u8>,
    entry: ZipEntry,
    local_offset: u32,
    events: Seq<Event>,
)
    requires
        succeeded(Progress::start(entry, local_offset), events),
        stripped_by(strip, Progress::start(entry, local_offset), events),
    ensures
        ({
            let start = Progress::start(entry, local_offset);
            let text = strip(crate::cache::stream_laws::unpacked(start, events));
            &&& written(start, events) == text
            &&& crate::cache::stream_laws::run(start, events).outcome == Ok::<nat, Seq<char>>(
                text.len(),
            )
        }),
{
    lemma_success_is_finished(entry, local_offset, events);
    crate::cache::stream_laws::law_success_is_complete(entry, local_offset, events);
}

/// A run that has not failed began with a header that can be dealt with, and the method
/// says whether the data are compressed.
pub(crate) proof fn lemma_opened(entry: ZipEntry, local_offset: u32, events: Seq<Event>)
    requires
        crate::cache::stream_laws::possible(Progress::start(entry, local_offset), events),
        events.len() > 0,
        ({
            let s = crate::cache::stream_laws::run(Progress::start(entry, local_offset), events);
            !(s.step == Step::Done && s.outcome is Err)
        }),
    ensures
        events[0] matches Event::HeaderRead(header) && header.len() == LOCAL_HEADER_SIZE
            && crate::zip::data_skip(header) is Ok,
        entry.method == METHOD_STORED || entry.method == METHOD_DEFLATE,
        crate::cache::stream_laws::run(Progress::start(entry, local_offset), events).deflate == (
        entry.method == METHOD_DEFLATE),
    decreases events.len(),
{
    reveal(Progress::next);
    let start = Progress::start(entry, local_offset);
    let earlier = events.drop_last();
    if events.len() == 1 {
        assert(crate::cache::stream_laws::run(start, earlier) == start);
    } else {
        lemma_opened(entry, local_offset, earlier);
        crate::cache::stream_laws::law_runs_are_sound(entry, local_offset, earlier);
        crate::cache::stream_laws::lemma_header_once(entry, local_offset, earlier);
    }
}

/// The header was read from the store.
pub(crate) proof fn lemma_header_is_served(
    store: Seq<u8>,
    entry: ZipEntry,
    local_offset: u32,
    header: Seq<u8>,
    events: Seq<Event>,
)
    requires
        served(store, Progress::start(entry, local_offset), events),
        events.len() > 0,
        events[0] == Event::HeaderRead(header),
        header.len() == LOCAL_HEADER_SIZE,
    ensures
        local_offset + LOCAL_HEADER_SIZE <= store.len(),
        header == store.subrange(local_offset as int, local_offset + LOCAL_HEADER_SIZE),
    decreases events.len(),
{
    let start = Progress::start(entry, local_offset);
    let earlier = events.drop_last();
    if events.len() == 1 {
        assert(crate::cache::stream_laws::run(start, earlier) == start);
        assert(events.last() == events[0]);
    } else {
        lemma_header_is_served(store, entry, local_offset, header, earlier);
    }
}

/// What was read lies in the store, behind the header.
proof fn lemma_read_is_served(
    store: Seq<u8>,
    entry: ZipEntry,
    local_offset: u32,
    header: Seq<u8>,
    skip: nat,
    events: Seq<Event>,
)
    requires
        entry.method == METHOD_STORED || entry.method == METHOD_DEFLATE,
        crate::zip::data_skip(header) == Ok::<nat, Seq<char>>(skip),
        events.len() > 0,
        events[0] == Event::HeaderRead(header),
        crate::cache::stream_laws::possible(Progress::start(entry, local_offset), events),
        served(store, Progress::start(entry, local_offset), events),
    ensures
        holds(store, local_offset + skip, crate::cache::stream_laws::read(events)),
    decreases events.len(),
{
    let start = Progress::start(entry, local_offset);
    let earlier = events.drop_last();
    if events.len() == 1 {
        assert(events.last() == events[0]);
        assert(crate::cache::stream_laws::read(earlier).len() == 0);
        assert(crate::cache::stream_laws::read(events).len() == 0);
    } else {
        lemma_read_is_served(store, entry, local_offset, header, skip, earlier);
        if entry.method == METHOD_STORED {
            crate::cache::stream_laws::law_stored_entry_is_read_in_order(
                entry,
                local_offset,
                header,
                skip,
                earlier,
            );
        } else {
            crate::cache::stream_laws::law_deflate_entry_is_read_in_order(
                entry,
                local_offset,
                header,
                skip,
                earlier,
            );
        }
        if let Event::DataRead(data) = events.last() {
            let so_far = crate::cache::stream_laws::read(earlier);
            let all = crate::cache::stream_laws::read(events);
            let at = local_offset + skip;
            assert(all =~= so_far + data);
            if all.len() > 0 {
                assert(all =~= store.subrange(at, at + all.len()));
            }
            assert(holds(store, at, all));
        } else {
            assert(crate::cache::stream_laws::read(events) =~= crate::cache::stream_laws::read(
                earlier,
            ));
            assert(holds(store, local_offset + skip, crate::cache::stream_laws::read(events)));
        }
    }
}

/// What lies in the store at the same place is the same as far as both go.
proof fn lemma_held_alike(store: Seq<u8>, at: int, a: Seq<u8>, b: Seq<u8>)
    requires
        holds(store, at, a),
        holds(store, at, b),
    ensures
        a.len() <= b.len() ==> a.is_prefix_of(b),
        a.len() == b.len() ==> a == b,
{
    if a.len() <= b.len() {
        assert(a =~= b.subrange(0, a.len() as int));
    }
    if a.len() == b.len() {
        assert(a =~= b);
    }
}

/// Parts of the same data agree.
proof fn lemma_prefixes_agree(a: Seq<u8>, b: Seq<u8>, data: Seq<u8>)
    requires
        a.is_prefix_of(data),
        b.is_prefix_of(data),
    ensures
        crate::cache::inflate::agree(a, b),
{
    if a.len() <= b.len() {
        assert(a =~= b.subrange(0, a.len() as int));
    } else {
        assert(b =~= a.subrange(0, b.len() as int));
    }
}

/// What an event does to the decompressor's side of the pipeline.
proof fn lemma_decompressor_step(s: Progress, event: Event)
    requires
        s.sound(),
        s.accepts(event),
        s.step == Step::ReadHeader || s.step == Step::Allocate || s.step == Step::Read || s.step
            == Step::Inflate ==> goes_on(s),
    ensures
        ({
            let t = s.next(event);
            &&& !(event is HeaderRead) ==> t.deflate == s.deflate
            &&& t.step == Step::ReadHeader || t.step == Step::Allocate || t.step == Step::Read
                || t.step == Step::Inflate ==> goes_on(t)
            &&& match event {
                Event::Inflated(calls, status, consumed, produced, window) => {
                    &&& s.deflate
                    &&& t.calls == calls
                    &&& t.window == window
                    &&& t.out_pos == if status == InflateStatus::HasMoreOutput {
                        0
                    } else {
                        s.out_pos + produced
                    }
                    &&& goes_on(t) ==> status == InflateStatus::NeedsMoreInput || status
                        == InflateStatus::HasMoreOutput
                },
                _ => {
                    &&& t.calls == s.calls
                    &&& t.out_pos == s.out_pos
                    &&& s.deflate ==> t.after == s.after
                    &&& t.window == s.window || {
                        &&& s.calls.len() == 0
                        &&& t.window == Seq::new(WINDOW_SIZE as nat, |i: int| 0u8)
                    }
                },
            }
        }),
{
    reveal(Progress::next);
}

/// The calls of the decompressor unpack one stream: they took what was decoded, and
/// wrote what was unpacked.
pub(crate) proof fn lemma_calls_are_chained(entry: ZipEntry, local_offset: u32, events: Seq<Event>)
    requires
        crate::cache::stream_laws::possible(Progress::start(entry, local_offset), events),
        answered(Progress::start(entry, local_offset), events),
    ensures
        ({
            let start = Progress::start(entry, local_offset);
            let s = crate::cache::stream_laws::run(start, events);
            let last_status = crate::cache::stream_laws::last_status(events);
            &&& crate::cache::inflate::chained(s.calls)
            &&& crate::cache::inflate::took(s.calls) == crate::cache::stream_laws::decoded(
                start,
                events,
            )
            &&& s.deflate ==> crate::cache::inflate::wrote(s.calls)
                == crate::cache::stream_laws::unpacked(start, events)
            &&& !s.deflate ==> s.calls.len() == 0
            &&& s.window.len() > 0 ==> s.window == crate::cache::inflate::window_after(s.calls)
            &&& s.out_pos == crate::cache::inflate::position_after(s.calls)
            &&& goes_on(s) ==> s.out_pos < WINDOW_SIZE
            &&& s.calls.len() == 0 ==> last_status is None
            &&& s.calls.len() > 0 ==> {
                &&& last_status == Some(crate::cache::inflate::answer(s.calls).0)
                &&& crate::cache::inflate::consistent(s.calls)
                &&& goes_on(s) ==> last_status == Some(InflateStatus::NeedsMoreInput) || last_status == Some(InflateStatus::HasMoreOutput)
            }
            &&& s.step == Step::ReadHeader || s.step == Step::Allocate || s.step == Step::Read
                || s.step == Step::Inflate ==> goes_on(s)
        }),
    decreases events.len(),
{
    let start = Progress::start(entry, local_offset);
    if events.len() > 0 {
        let earlier = events.drop_last();
        let before = crate::cache::stream_laws::run(start, earlier);
        let s = crate::cache::stream_laws::run(start, events);
        lemma_calls_are_chained(entry, local_offset, earlier);
        crate::cache::stream_laws::law_runs_are_sound(entry, local_offset, earlier);
        lemma_decompressor_step(before, events.last());
        if let Event::Inflated(calls, status, consumed, produced, window) = events.last() {
            assert(s.calls == calls);
            assert(calls.drop_last() =~= before.calls);
        } else {
            if events.last() is HeaderRead && earlier.len() > 0 {
                crate::cache::stream_laws::lemma_header_once(entry, local_offset, earlier);
            }
            assert(s.calls == before.calls);
            assert(crate::cache::stream_laws::decoded(start, events)
                =~= crate::cache::stream_laws::decoded(start, earlier));
            if s.deflate {
                assert(crate::cache::stream_laws::unpacked(start, events)
                    =~= crate::cache::stream_laws::unpacked(start, earlier));
            }
        }
    } else {
        assert(crate::cache::stream_laws::decoded(start, events) =~= Seq::<u8>::empty());
    }
}

/// The decompressor was given nothing but what was read, in order.
proof fn lemma_offered_is_read(
    entry: ZipEntry,
    local_offset: u32,
    header: Seq<u8>,
    skip: nat,
    events: Seq<Event>,
)
    requires
        entry.method == METHOD_DEFLATE,
        crate::zip::data_skip(header) == Ok::<nat, Seq<char>>(skip),
        events.len() > 0,
        events[0] == Event::HeaderRead(header),
        crate::cache::stream_laws::possible(Progress::start(entry, local_offset), events),
        answered(Progress::start(entry, local_offset), events),
    ensures
        crate::cache::inflate::offered(
            crate::cache::stream_laws::run(Progress::start(entry, local_offset), events).calls,
        ).is_prefix_of(crate::cache::stream_laws::read(events)),
    decreases events.len(),
{
    let start = Progress::start(entry, local_offset);
    let earlier = events.drop_last();
    let before = crate::cache::stream_laws::run(start, earlier);
    let s = crate::cache::stream_laws::run(start, events);
    let so_far = crate::cache::stream_laws::read(earlier);
    crate::cache::stream_laws::law_runs_are_sound(entry, local_offset, earlier);
    lemma_calls_are_chained(entry, local_offset, earlier);
    lemma_decompressor_step(before, events.last());
    if events.len() == 1 {
        assert(events.last() == events[0]);
        assert(before == start);
    } else {
        lemma_offered_is_read(entry, local_offset, header, skip, earlier);
        if let Event::Inflated(calls, _, _, _, _) = events.last() {
            crate::cache::stream_laws::law_deflate_entry_is_read_in_order(
                entry,
                local_offset,
                header,
                skip,
                earlier,
            );
            assert(calls.drop_last() =~= before.calls);
            assert(crate::cache::inflate::offered(calls) =~= so_far);
        } else {
            assert(so_far =~= crate::cache::stream_laws::read(events).subrange(
                0,
                so_far.len() as int,
            ));
            let given = crate::cache::inflate::offered(before.calls);
            assert(given =~= crate::cache::stream_laws::read(events).subrange(
                0,
                given.len() as int,
            ));
        }
    }
}

/// A stored entry that succeeds has been unpacked to its data.
pub proof fn law_stored_entry_is_its_data(
    store: Seq<u8>,
    entry: ZipEntry,
    local_offset: u32,
    data: Seq<u8>,
    events: Seq<Event>,
)
    requires
        entry.method == METHOD_STORED,
        entry.uncomp_size == data.len(),
        has_entry(store, local_offset, data),
        succeeded(Progress::start(entry, local_offset), events),
        served(store, Progress::start(entry, local_offset), events),
    ensures
        crate::cache::stream_laws::unpacked(Progress::start(entry, local_offset), events) == data,
{
    lemma_opened(entry, local_offset, events);
    let header = events[0]->HeaderRead_0;
    lemma_header_is_served(store, entry, local_offset, header, events);
    let skip = crate::zip::data_skip(header)->Ok_0;
    crate::cache::stream_laws::law_stored_entry_is_read_in_order(
        entry,
        local_offset,
        header,
        skip,
        events,
    );
    lemma_read_is_served(store, entry, local_offset, header, skip, events);
    lemma_held_alike(store, local_offset + skip, crate::cache::stream_laws::read(events), data);
}

/// Success takes a whole stream: after it, the calls of the decompressor have reached the
/// end of the stream, they took nothing but what was read, from its start on, and what
/// they wrote is what was unpacked.
pub proof fn law_success_takes_a_whole_stream(
    entry: ZipEntry,
    local_offset: u32,
    events: Seq<Event>,
)
    requires
        entry.method == METHOD_DEFLATE,
        succeeded(Progress::start(entry, local_offset), events),
        answered(Progress::start(entry, local_offset), events),
    ensures
        ({
            let start = Progress::start(entry, local_offset);
            let calls = crate::cache::stream_laws::run(start, events).calls;
            let read = crate::cache::stream_laws::read(events);
            &&& read.len() <= entry.comp_size
            &&& crate::cache::inflate::complete(calls)
            &&& crate::cache::inflate::consistent(calls)
            &&& crate::cache::inflate::took(calls).is_prefix_of(read)
            &&& crate::cache::inflate::offered(calls).is_prefix_of(read)
            &&& crate::cache::inflate::wrote(calls) == crate::cache::stream_laws::unpacked(
                start,
                events,
            )
        }),
{
    let start = Progress::start(entry, local_offset);
    lemma_opened(entry, local_offset, events);
    let header = events[0]->HeaderRead_0;
    let skip = crate::zip::data_skip(header)->Ok_0;
    lemma_calls_are_chained(entry, local_offset, events);
    lemma_offered_is_read(entry, local_offset, header, skip, events);
    crate::cache::stream_laws::law_deflate_success_is_at_the_end(entry, local_offset, events);
    crate::cache::stream_laws::law_deflate_entry_is_read_in_order(
        entry,
        local_offset,
        header,
        skip,
        events,
    );
    let decoded = crate::cache::stream_laws::decoded(start, events);
    assert(decoded =~= crate::cache::stream_laws::read(events).subrange(0, decoded.len() as int));
}

/// A stream that is cut short never succeeds: where what was read does not start with a
/// whole stream, a run that comes to its end fails.
pub proof fn law_cut_stream_fails(entry: ZipEntry, local_offset: u32, events: Seq<Event>)
    requires
        entry.method == METHOD_DEFLATE,
        ended(Progress::start(entry, local_offset), events),
        answered(Progress::start(entry, local_offset), events),
        !crate::cache::inflate::starts_with_stream(crate::cache::stream_laws::read(events)),
    ensures
        crate::cache::stream_laws::run(Progress::start(entry, local_offset), events).outcome is Err,
{
    let start = Progress::start(entry, local_offset);
    if crate::cache::stream_laws::run(start, events).outcome is Ok {
        law_success_takes_a_whole_stream(entry, local_offset, events);
        let calls = crate::cache::stream_laws::run(start, events).calls;
        assert(crate::cache::inflate::complete(calls));
    }
}

/// A compressed entry that succeeds has been unpacked to its content.
pub proof fn law_compressed_entry_is_its_content(
    store: Seq<u8>,
    entry: ZipEntry,
    local_offset: u32,
    data: Seq<u8>,
    content: Seq<u8>,
    events: Seq<Event>,
)
    requires
        entry.method == METHOD_DEFLATE,
        entry.comp_size == data.len(),
        has_entry(store, local_offset, data),
        crate::cache::inflate::unpacks_to(data, content),
        succeeded(Progress::start(entry, local_offset), events),
        served(store, Progress::start(entry, local_offset), events),
        answered(Progress::start(entry, local_offset), events),
    ensures
        crate::cache::stream_laws::unpacked(Progress::start(entry, local_offset), events)
            == content,
{
    lemma_opened(entry, local_offset, events);
    let header = events[0]->HeaderRead_0;
    let skip = crate::zip::data_skip(header)->Ok_0;
    lemma_header_is_served(store, entry, local_offset, header, events);
    lemma_read_is_served(store, entry, local_offset, header, skip, events);
    law_success_takes_a_whole_stream(entry, local_offset, events);
    let calls = crate::cache::stream_laws::run(
        Progress::start(entry, local_offset),
        events,
    ).calls;
    let other = choose|other: Seq<(Seq<u8>, Seq<u8>, nat, u32)>| #[trigger]
        crate::cache::inflate::complete(other) && crate::cache::inflate::took(other).is_prefix_of(
            data,
        ) && crate::cache::inflate::wrote(other) == content;
    let read = crate::cache::stream_laws::read(events);
    let given = crate::cache::inflate::offered(calls);
    lemma_held_alike(store, local_offset + skip, read, data);
    assert(given =~= data.subrange(0, given.len() as int));
    lemma_prefixes_agree(given, crate::cache::inflate::took(other), data);
}

/// What was read of a compressed entry, if every read gave something, and what is left,
/// make up the entry.
pub(crate) proof fn lemma_undisturbed_reads(
    entry: ZipEntry,
    local_offset: u32,
    header: Seq<u8>,
    skip: nat,
    events: Seq<Event>,
)
    requires
        entry.method == METHOD_DEFLATE,
        crate::zip::data_skip(header) == Ok::<nat, Seq<char>>(skip),
        events.len() > 0,
        events[0] == Event::HeaderRead(header),
        crate::cache::stream_laws::possible(Progress::start(entry, local_offset), events),
        undisturbed(events),
    ensures
        crate::cache::stream_laws::run(Progress::start(entry, local_offset), events).left
            + crate::cache::stream_laws::read(events).len() == entry.comp_size,
    decreases events.len(),
{
    let start = Progress::start(entry, local_offset);
    let earlier = events.drop_last();
    if events.len() == 1 {
        reveal(Progress::next);
        assert(events.last() == events[0]);
        assert(crate::cache::stream_laws::run(start, earlier) == start);
        assert(crate::cache::stream_laws::read(earlier).len() == 0);
    } else {
        lemma_undisturbed_reads(entry, local_offset, header, skip, earlier);
        crate::cache::stream_laws::law_runs_are_sound(entry, local_offset, earlier);
        crate::cache::stream_laws::law_deflate_entry_is_read_in_order(
            entry,
            local_offset,
            header,
            skip,
            earlier,
        );
        crate::cache::stream_laws::lemma_deflate_step(
            crate::cache::stream_laws::run(start, earlier),
            events.last(),
        );
    }
}

/// An undisturbed run over an entry with a stream that can be unpacked meets no fault.
proof fn lemma_whole_stream_has_no_fault(
    store: Seq<u8>,
    entry: ZipEntry,
    local_offset: u32,
    data: Seq<u8>,
    content: Seq<u8>,
    events: Seq<Event>,
)
    requires
        entry.method == METHOD_DEFLATE,
        entry.comp_size == data.len(),
        has_entry(store, local_offset, data),
        crate::cache::inflate::unpacks_to(data, content),
        crate::cache::stream_laws::possible(Progress::start(entry, local_offset), events),
        served(store, Progress::start(entry, local_offset), events),
        answered(Progress::start(entry, local_offset), events),
        undisturbed(events),
    ensures
        !crate::cache::stream_laws::faulty(Progress::start(entry, local_offset), events),
    decreases events.len(),
{
    let start = Progress::start(entry, local_offset);
    if events.len() > 0 {
        let earlier = events.drop_last();
        let before = crate::cache::stream_laws::run(start, earlier);
        lemma_whole_stream_has_no_fault(
            store,
            entry,
            local_offset,
            data,
            content,
            earlier,
        );
        crate::cache::stream_laws::law_runs_are_sound(entry, local_offset, earlier);
        match events.last() {
            Event::HeaderRead(header) => {
                if earlier.len() > 0 {
                    crate::cache::stream_laws::lemma_header_once(entry, local_offset, earlier);
                }
                assert(header =~= store.subrange(
                    local_offset as int,
                    local_offset + LOCAL_HEADER_SIZE,
                ));
            },
            Event::Inflated(calls, status, consumed, produced, window) => {
                assert(earlier.len() > 0);
                lemma_opened(entry, local_offset, earlier);
                let header = earlier[0]->HeaderRead_0;
                lemma_header_is_served(store, entry, local_offset, header, earlier);
                let skip = crate::zip::data_skip(header)->Ok_0;
                lemma_read_is_served(store, entry, local_offset, header, skip, earlier);
                lemma_calls_are_chained(entry, local_offset, earlier);
                lemma_undisturbed_reads(entry, local_offset, header, skip, earlier);
                crate::cache::stream_laws::law_deflate_entry_is_read_in_order(
                    entry,
                    local_offset,
                    header,
                    skip,
                    earlier,
                );
                let read = crate::cache::stream_laws::read(earlier);
                let given = crate::cache::inflate::offered(calls);
                assert(calls.drop_last() =~= before.calls);
                assert(given =~= read);
                assert(crate::cache::inflate::chained(calls));
                let other = choose|other: Seq<(Seq<u8>, Seq<u8>, nat, u32)>| #[trigger]
                    crate::cache::inflate::complete(other) && crate::cache::inflate::took(
                        other,
                    ).is_prefix_of(data) && crate::cache::inflate::wrote(other) == content;
                lemma_held_alike(store, local_offset + skip, read, data);
                lemma_prefixes_agree(given, crate::cache::inflate::took(other), data);
            },
            _ => {},
        }
    }
}

/// An undisturbed run over a stored entry meets no fault.
proof fn lemma_whole_data_have_no_fault(
    store: Seq<u8>,
    entry: ZipEntry,
    local_offset: u32,
    data: Seq<u8>,
    events: Seq<Event>,
)
    requires
        entry.method == METHOD_STORED,
        has_entry(store, local_offset, data),
        crate::cache::stream_laws::possible(Progress::start(entry, local_offset), events),
        served(store, Progress::start(entry, local_offset), events),
        undisturbed(events),
    ensures
        !crate::cache::stream_laws::faulty(Progress::start(entry, local_offset), events),
        !crate::cache::stream_laws::run(Progress::start(entry, local_offset), events).deflate,
    decreases events.len(),
{
    if events.len() > 0 {
        let earlier = events.drop_last();
        reveal(Progress::next);
        lemma_whole_data_have_no_fault(store, entry, local_offset, data, earlier);
        crate::cache::stream_laws::law_runs_are_sound(entry, local_offset, earlier);
        if let Event::HeaderRead(header) = events.last() {
            if earlier.len() > 0 {
                crate::cache::stream_laws::lemma_header_once(entry, local_offset, earlier);
            }
            assert(header =~= store.subrange(
                local_offset as int,
                local_offset + LOCAL_HEADER_SIZE,
            ));
        }
    }
}

/// An entry of the store whose data are there gives its text: unless something outside
/// fails or a read gives nothing, a run that comes to its end succeeds, has written what
/// the text stripper makes of the content, and returns how much that is. The content of
/// a stored entry is its data, that of a compressed one is what they unpack to, however
/// long it is.
pub proof fn law_entry_gives_its_text(
    strip: spec_fn(Seq<u8>) -> Seq<u8>,
    store: Seq<u8>,
    entry: ZipEntry,
    local_offset: u32,
    data: Seq<u8>,
    content: Seq<u8>,
    events: Seq<Event>,
)
    requires
        whole(store, entry, local_offset, data, content),
        ended(Progress::start(entry, local_offset), events),
        served(store, Progress::start(entry, local_offset), events),
        answered(Progress::start(entry, local_offset), events),
        stripped_by(strip, Progress::start(entry, local_offset), events),
        undisturbed(events),
    ensures
        ({
            let start = Progress::start(entry, local_offset);
            &&& written(start, events) == strip(content)
            &&& crate::cache::stream_laws::run(start, events).outcome == Ok::<nat, Seq<char>>(
                strip(content).len(),
            )
        }),
{
    let start = Progress::start(entry, local_offset);
    if entry.method == METHOD_DEFLATE {
        lemma_whole_stream_has_no_fault(store, entry, local_offset, data, content, events);
    } else {
        lemma_whole_data_have_no_fault(store, entry, local_offset, data, events);
    }
    if crate::cache::stream_laws::run(start, events).outcome is Err {
        crate::cache::stream_laws::law_failure_has_a_cause(entry, local_offset, events);
    }
    if entry.method == METHOD_DEFLATE {
        law_compressed_entry_is_its_content(store, entry, local_offset, data, content, events);
    } else {
        law_stored_entry_is_its_data(store, entry, local_offset, data, events);
    }
    law_text_is_that_of_the_data(strip, entry, local_offset, events);
}

/// The lengths of the reads do not matter: two successful runs over the same entry of
/// the same store write the same text and return the same.
pub proof fn law_short_reads_do_not_matter(
    strip: spec_fn(Seq<u8>) -> Seq<u8>,
    store: Seq<u8>,
    entry: ZipEntry,
    local_offset: u32,
    a: Seq<Event>,
    b: Seq<Event>,
)
    requires
        succeeded(Progress::start(entry, local_offset), a),
        served(store, Progress::start(entry, local_offset), a),
        answered(Progress::start(entry, local_offset), a),
        stripped_by(strip, Progress::start(entry, local_offset), a),
        succeeded(Progress::start(entry, local_offset), b),
        served(store, Progress::start(entry, local_offset), b),
        answered(Progress::start(entry, local_offset), b),
        stripped_by(strip, Progress::start(entry, local_offset), b),
    ensures
        ({
            let start = Progress::start(entry, local_offset);
            &&& written(start, a) == written(start, b)
            &&& crate::cache::stream_laws::run(start, a).outcome
                == crate::cache::stream_laws::run(start, b).outcome
        }),
{
    let start = Progress::start(entry, local_offset);
    let read_a = crate::cache::stream_laws::read(a);
    let read_b = crate::cache::stream_laws::read(b);
    lemma_opened(entry, local_offset, a);
    lemma_opened(entry, local_offset, b);
    let header = a[0]->HeaderRead_0;
    lemma_header_is_served(store, entry, local_offset, header, a);
    lemma_header_is_served(store, entry, local_offset, b[0]->HeaderRead_0, b);
    let skip = crate::zip::data_skip(header)->Ok_0;
    lemma_read_is_served(store, entry, local_offset, header, skip, a);
    lemma_read_is_served(store, entry, local_offset, header, skip, b);
    if entry.method == METHOD_DEFLATE {
        law_success_takes_a_whole_stream(entry, local_offset, a);
        law_success_takes_a_whole_stream(entry, local_offset, b);
        let calls_a = crate::cache::stream_laws::run(start, a).calls;
        let calls_b = crate::cache::stream_laws::run(start, b).calls;
        let given = crate::cache::inflate::offered(calls_a);
        let taken = crate::cache::inflate::took(calls_b);
        lemma_held_alike(store, local_offset + skip, read_a, read_b);
        lemma_held_alike(store, local_offset + skip, read_b, read_a);
        if read_a.len() <= read_b.len() {
            assert(given =~= read_b.subrange(0, given.len() as int));
            lemma_prefixes_agree(given, taken, read_b);
        } else {
            assert(taken =~= read_a.subrange(0, taken.len() as int));
            lemma_prefixes_agree(given, taken, read_a);
        }
    } else {
        crate::cache::stream_laws::law_stored_entry_is_read_in_order(
            entry,
            local_offset,
            header,
            skip,
            a,
        );
        crate::cache::stream_laws::law_stored_entry_is_read_in_order(
            entry,
            local_offset,
            header,
            skip,
            b,
        );
        lemma_held_alike(store, local_offset + skip, read_a, read_b);
    }
    law_text_is_that_of_the_data(strip, entry, local_offset, a);
    law_text_is_that_of_the_data(strip, entry, local_offset, b);
}

/// Compression does not matter: undisturbed runs over two entries with the same content,
/// one stored and one compressed, both succeed, write the same text and return the same.
pub proof fn law_stored_and_compressed_agree(
    strip: spec_fn(Seq<u8>) -> Seq<u8>,
    content: Seq<u8>,
    store_a: Seq<u8>,
    stored: ZipEntry,
    offset_a: u32,
    a: Seq<Event>,
    store_b: Seq<u8>,
    compressed: ZipEntry,
    offset_b: u32,
    data: Seq<u8>,
    b: Seq<Event>,
)
    requires
        stored.method == METHOD_STORED,
        whole(store_a, stored, offset_a, content, content),
        ended(Progress::start(stored, offset_a), a),
        served(store_a, Progress::start(stored, offset_a), a),
        answered(Progress::start(stored, offset_a), a),
        stripped_by(strip, Progress::start(stored, offset_a), a),
        undisturbed(a),
        compressed.method == METHOD_DEFLATE,
        whole(store_b, compressed, offset_b, data, content),
        ended(Progress::start(compressed, offset_b), b),
        served(store_b, Progress::start(compressed, offset_b), b),
        answered(Progress::start(compressed, offset_b), b),
        stripped_by(strip, Progress::start(compressed, offset_b), b),
        undisturbed(b),
    ensures
        ({
            let start_a = Progress::start(stored, offset_a);
            let start_b = Progress::start(compressed, offset_b);
            &&& written(start_a, a) == written(start_b, b)
            &&& crate::cache::stream_laws::run(start_a, a).outcome is Ok
            &&& crate::cache::stream_laws::run(start_a, a).outcome
                == crate::cache::stream_laws::run(start_b, b).outcome
        }),
{
    law_entry_gives_its_text(strip, store_a, stored, offset_a, content, content, a);
    law_entry_gives_its_text(strip, store_b, compressed, offset_b, data, content, b);
}

/// An archive in which a local file header is followed by the file name, the extra field
/// and the data, the first two as long as the header says, has the data as those of the
/// entry, whatever lies before and behind.
pub proof fn law_archived_data_are_found(
    before: Seq<u8>,
    header: Seq<u8>,
    name: Seq<u8>,
    extra: Seq<u8>,
    data: Seq<u8>,
    tail: Seq<u8>,
    local_offset: u32,
)
    requires
        before.len() == local_offset,
        header.len() == 30,
        header[0] == 'P' as u8 && header[1] == 'K' as u8 && header[2] == 3 && header[3] == 4,
        name.len() == header[26] + 256 * header[27],
        extra.len() == header[28] + 256 * header[29],
    ensures
        has_entry(before + header + name + extra + data + tail, local_offset, data),
{
    let store = before + header + name + extra + data + tail;
    crate::zip::law_data_lie_behind_the_header(header);
    assert(store.subrange(local_offset as int, local_offset + 30) =~= header);
    let at = local_offset + 30 + name.len() + extra.len();
    assert(store.subrange(at, at + data.len()) =~= data);
}

/// An entry of such an archive gives the text of its data: those of a stored entry
/// (method 0) as they are, those of a compressed one (method 8) unpacked.
pub proof fn law_archived_entry_gives_its_text(
    strip: spec_fn(Seq<u8>) -> Seq<u8>,
    before: Seq<u8>,
    header: Seq<u8>,
    name: Seq<u8>,
    extra: Seq<u8>,
    data: Seq<u8>,
    tail: Seq<u8>,
    content: Seq<u8>,
    entry: ZipEntry,
    local_offset: u32,
    events: Seq<Event>,
)
    requires
        before.len() == local_offset,
        header.len() == 30,
        header[0] == 'P' as u8 && header[1] == 'K' as u8 && header[2] == 3 && header[3] == 4,
        name.len() == header[26] + 256 * header[27],
        extra.len() == header[28] + 256 * header[29],
        entry.method == 0 && entry.uncomp_size == data.len() && content == data || entry.method == 8
            && entry.comp_size == data.len() && crate::cache::inflate::unpacks_to(data, content),
        ended(Progress::start(entry, local_offset), events),
        served(
            before + header + name + extra + data + tail,
            Progress::start(entry, local_offset),
            events,
        ),
        answered(Progress::start(entry, local_offset), events),
        stripped_by(strip, Progress::start(entry, local_offset), events),
        undisturbed(events),
    ensures
        ({
            let start = Progress::start(entry, local_offset);
            &&& crate::cache::stream_laws::chunks(start, events).flatten() == strip(content)
            &&& crate::cache::stream_laws::run(start, events).outcome == Ok::<nat, Seq<char>>(
                strip(content).len(),
            )
        }),
{
    law_archived_data_are_found(before, header, name, extra, data, tail, local_offset);
    law_entry_gives_its_text(
        strip,
        before + header + name + extra + data + tail,
        entry,
        local_offset,
        data,
        content,
        events,
    );
}

/// Calls that unpack a stream show what the stream unpacks to.
pub proof fn law_unpacked_streams_are_streams(
    calls: Seq<(Seq<u8>, Seq<u8>, nat, u32)>,
    tail: Seq<u8>,
)
    requires
        crate::cache::inflate::complete(calls),
        crate::cache::inflate::took(calls).len() > 0,
    ensures
        crate::cache::inflate::unpacks_to(
            crate::cache::inflate::took(calls) + tail,
            crate::cache::inflate::wrote(calls),
        ),
        crate::cache::inflate::starts_with_stream(crate::cache::inflate::took(calls) + tail),
{
    let data = crate::cache::inflate::took(calls) + tail;
    let taken = crate::cache::inflate::took(calls);
    assert(taken =~= data.subrange(0, taken.len() as int));
    assert(crate::cache::inflate::complete(calls));
}

} // verus!
