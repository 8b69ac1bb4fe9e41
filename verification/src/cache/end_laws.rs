//! Every run of the chapter pipeline comes to an end.
use crate::cache::inflate::InflateStatus;
use crate::cache::progress::{Event, Progress, Step, STRIP_BUF_SIZE};
use crate::zip::{ZipEntry, METHOD_DEFLATE};
use vstd::prelude::*;

verus! {

/// A bound on what can still happen. Every event makes it smaller: it takes data a step
/// further, adds to the text, whose length is limited, writes the text, or ends
/// something that does not begin again. What data count for shrinks on their way: a byte
/// to be read counts for more than a byte to be decompressed, and that for more than a
/// full window of bytes to be stripped.
pub open spec fn work(s: Progress) -> int {
    let unread = if s.step == Step::ReadHeader {
        s.entry.comp_size + s.entry.uncomp_size
    } else {
        s.left as int
    };
    let open_stream = if s.after is Refill || s.after is Drain {
        200_000int
    } else {
        0
    };
    let begun_window = if s.out_pos > 0 {
        100_000int
    } else {
        0
    };
    let held_text = if s.pending.len() > 0 {
        3int
    } else {
        0
    };
    let step = match s.step {
        Step::ReadHeader => 4int,
        Step::Allocate => 3,
        Step::Flush => 1,
        Step::Done => 0,
        _ => 2,
    };
    400_000 * unread + 300_000 * s.packed.len() + open_stream + begun_window + 3 * s.input.len()
        + 8 * (u32::MAX + STRIP_BUF_SIZE - s.total - s.pending.len()) + held_text + step
}

/// The most events that an entry can take.
pub open spec fn most_events(entry: ZipEntry) -> int {
    400_000 * (entry.comp_size + entry.uncomp_size) + 8 * (u32::MAX + STRIP_BUF_SIZE) + 200_004
}

/// A call of the decompressor leaves less to be done.
proof fn lemma_call_is_work_done(
    s: Progress,
    calls: Seq<(Seq<u8>, Seq<u8>, nat, u32)>,
    status: InflateStatus,
    consumed: nat,
    produced: nat,
    window: Seq<u8>,
)
    requires
        s.sound(),
        s.accepts(Event::Inflated(calls, status, consumed, produced, window)),
        s.after is Refill || s.after is Drain,
        calls.len() > 0,
        calls.last() == (s.packed, s.window, s.out_pos, s.flags()),
        crate::cache::inflate::answer(calls) == (status, consumed, produced, window),
        crate::cache::inflate::gets_on(calls),
    ensures
        work(s.next(Event::Inflated(calls, status, consumed, produced, window))) < work(s),
{
    let t = s.next(Event::Inflated(calls, status, consumed, produced, window));
    assert({
        &&& t.left == s.left
        &&& t.packed.len() == s.packed.len() - consumed
        &&& t.input.len() == produced
        &&& t.total == s.total
        &&& t.pending == s.pending
        &&& t.step != Step::ReadHeader
        &&& t.step != Step::Allocate
        &&& status == InflateStatus::HasMoreOutput ==> t.out_pos == 0
        &&& status != InflateStatus::HasMoreOutput && status != InflateStatus::NeedsMoreInput ==> !(
        t.after is Refill || t.after is Drain)
    }) by {
        reveal(Progress::next);
    }
}

/// Every other event leaves less to be done, too.
proof fn lemma_event_is_work_done(s: Progress, event: Event)
    requires
        s.sound(),
        s.accepts(event),
        !(event is Inflated),
    ensures
        work(s.next(event)) < work(s),
{
    let t = s.next(event);
    match event {
        Event::Fed(consumed, text) => {
            let n = if consumed == 0 && text.len() == 0 && s.pending.len() == 0 {
                1
            } else {
                consumed as int
            };
            assert({
                &&& t.left == s.left
                &&& t.packed == s.packed
                &&& t.out_pos == s.out_pos
                &&& t.after == s.after
                &&& t.input.len() == s.input.len() - n
                &&& t.total == s.total
                &&& t.pending.len() == s.pending.len() + text.len()
                &&& t.step != Step::ReadHeader
                &&& t.step != Step::Allocate
                &&& n == 0 && text.len() == 0 ==> t.step == Step::Flush
            }) by {
                reveal(Progress::next);
            }
        },
        _ => {
            reveal(Progress::next);
        },
    }
}

/// Every call of the decompressor that does not end the stream takes input or writes
/// output.
pub proof fn law_every_call_gets_on(
    entry: ZipEntry,
    local_offset: u32,
    events: Seq<Event>,
    calls: Seq<(Seq<u8>, Seq<u8>, nat, u32)>,
    status: InflateStatus,
    consumed: nat,
    produced: nat,
    window: Seq<u8>,
)
    requires
        crate::cache::stream_laws::possible(Progress::start(entry, local_offset), events),
        crate::cache::text_laws::answered(Progress::start(entry, local_offset), events),
        events.len() > 0,
        events.last() == Event::Inflated(calls, status, consumed, produced, window),
        status == InflateStatus::NeedsMoreInput || status == InflateStatus::HasMoreOutput,
    ensures
        consumed > 0 || produced > 0,
{
    let earlier = events.drop_last();
    crate::cache::stream_laws::law_runs_are_sound(entry, local_offset, earlier);
    crate::cache::text_laws::lemma_calls_are_chained(entry, local_offset, earlier);
}

/// What has happened and what is left to be done do not exceed what was to be done.
proof fn lemma_work(entry: ZipEntry, local_offset: u32, events: Seq<Event>)
    requires
        crate::cache::stream_laws::possible(Progress::start(entry, local_offset), events),
        crate::cache::text_laws::answered(Progress::start(entry, local_offset), events),
    ensures
        events.len() + work(
            crate::cache::stream_laws::run(Progress::start(entry, local_offset), events),
        ) <= most_events(entry),
    decreases events.len(),
{
    if events.len() > 0 {
        let earlier = events.drop_last();
        let before = crate::cache::stream_laws::run(
            Progress::start(entry, local_offset),
            earlier,
        );
        lemma_work(entry, local_offset, earlier);
        crate::cache::stream_laws::law_runs_are_sound(entry, local_offset, earlier);
        if let Event::Inflated(calls, status, consumed, produced, window) = events.last() {
            crate::cache::text_laws::lemma_calls_are_chained(entry, local_offset, earlier);
            lemma_call_is_work_done(before, calls, status, consumed, produced, window);
        } else {
            lemma_event_is_work_done(before, events.last());
        }
    }
}

/// No run goes on for ever, whatever the store and the text stripper give: the number of
/// events is limited by the size of the entry and the most text that can be counted.
pub proof fn law_every_run_ends(entry: ZipEntry, local_offset: u32, events: Seq<Event>)
    requires
        crate::cache::stream_laws::possible(Progress::start(entry, local_offset), events),
        crate::cache::text_laws::answered(Progress::start(entry, local_offset), events),
    ensures
        events.len() <= most_events(entry),
{
    lemma_work(entry, local_offset, events);
    crate::cache::stream_laws::law_runs_are_sound(entry, local_offset, events);
}

/// The decompressor answers every call that continues a stream: within the bounds of its
/// input and its window, and as `EntryStream::inflate` promises.
pub open spec fn answers_every_call() -> bool {
    forall|calls: Seq<(Seq<u8>, Seq<u8>, nat, u32)>| #[trigger]
        crate::cache::inflate::chained(calls) && calls.len() > 0 ==> {
            let (_, consumed, produced, window) = crate::cache::inflate::answer(calls);
            &&& consumed <= calls.last().0.len()
            &&& calls.last().2 + produced <= 32768
            &&& window.len() == 32768
            &&& crate::cache::inflate::consistent(calls)
            &&& crate::cache::inflate::gets_on(calls)
        }
}

/// Unless the pipeline is done, something can happen in which nothing fails: what is due
/// can be read, allocated, unpacked, stripped or written, and a read can give something.
pub proof fn law_something_good_can_happen(s: Progress)
    requires
        s.sound(),
        s.step != Step::Done,
        s.step == Step::ReadHeader ==> s.offset + 30 <= 0xFFFF_FFFF,
        s.step == Step::Read ==> s.offset < 0xFFFF_FFFF,
        s.step == Step::Flush ==> s.total + s.pending.len() <= 0xFFFF_FFFF,
    ensures
        exists|event: Event| #[trigger]
            s.accepts(event) && match event {
                Event::HeaderRead(header) => crate::zip::data_skip(header) is Ok,
                Event::ReadFailed => false,
                Event::DataRead(data) => data.len() > 0,
                Event::Allocated(result) => result is Ok,
                Event::WriteFailed(_) => false,
                _ => true,
            },
{
    let none = Seq::<u8>::empty();
    let header = seq![0x50u8, 0x4B, 3, 4] + Seq::new(26, |i: int| 0u8);
    let event = match s.step {
        Step::ReadHeader => Event::HeaderRead(header),
        Step::Allocate => Event::Allocated(Ok(())),
        Step::Read => Event::DataRead(seq![0u8]),
        Step::Inflate => Event::Inflated(s.calls, InflateStatus::Done, 0, 0, s.window),
        Step::Feed => Event::Fed(0, none),
        Step::Flush => Event::Written,
        _ => Event::Finished(none),
    };
    if s.step == Step::ReadHeader {
        crate::zip::law_data_lie_behind_the_header(header);
    }
    assert(s.accepts(event));
}

/// Everything is as it should be so far, and no text has come.
spec fn on_course(store: Seq<u8>, entry: ZipEntry, local_offset: u32, events: Seq<Event>) -> bool {
    let start = Progress::start(entry, local_offset);
    &&& crate::cache::stream_laws::possible(start, events)
    &&& crate::cache::text_laws::served(store, start, events)
    &&& crate::cache::text_laws::answered(start, events)
    &&& crate::cache::text_laws::undisturbed(events)
    &&& crate::cache::stream_laws::run(start, events).pending.len() == 0
    &&& crate::cache::stream_laws::run(start, events).total == 0
}

/// The next read of a whole entry can give all that it asks for.
proof fn lemma_read_can_be_served(
    store: Seq<u8>,
    entry: ZipEntry,
    local_offset: u32,
    data: Seq<u8>,
    content: Seq<u8>,
    skip: nat,
    events: Seq<Event>,
) -> (chunk: Seq<u8>)
    requires
        crate::cache::text_laws::whole(store, entry, local_offset, data, content),
        crate::zip::data_skip(store.subrange(local_offset as int, local_offset + 30)) == Ok::<
            nat,
            Seq<char>,
        >(skip),
        local_offset + skip + data.len() <= 0xFFFF_FFFF,
        on_course(store, entry, local_offset, events),
        crate::cache::stream_laws::run(Progress::start(entry, local_offset), events).step
            == Step::Read,
    ensures
        ({
            let s = crate::cache::stream_laws::run(Progress::start(entry, local_offset), events);
            &&& chunk.len() == s.read_len()
            &&& chunk.len() > 0
            &&& s.offset + chunk.len() <= 0xFFFF_FFFF
            &&& crate::cache::text_laws::holds(store, s.offset as int, chunk)
        }),
{
    let start = Progress::start(entry, local_offset);
    let s = crate::cache::stream_laws::run(start, events);
    crate::cache::stream_laws::law_runs_are_sound(entry, local_offset, events);
    crate::cache::text_laws::lemma_opened(entry, local_offset, events);
    let header = events[0]->HeaderRead_0;
    crate::cache::text_laws::lemma_header_is_served(store, entry, local_offset, header, events);
    if s.deflate {
        crate::cache::stream_laws::law_deflate_entry_is_read_in_order(
            entry,
            local_offset,
            header,
            skip,
            events,
        );
        crate::cache::text_laws::lemma_undisturbed_reads(
            entry,
            local_offset,
            header,
            skip,
            events,
        );
    } else {
        crate::cache::stream_laws::law_stored_entry_is_read_in_order(
            entry,
            local_offset,
            header,
            skip,
            events,
        );
    }
    store.subrange(s.offset as int, s.offset + s.read_len() as int)
}

/// As long as no text comes, there is none.
proof fn lemma_silence_goes_on(s: Progress, event: Event)
    requires
        s.pending.len() == 0,
        s.total == 0,
        match event {
            Event::Fed(_, text) => text.len() == 0,
            Event::Finished(text) => text.len() == 0,
            _ => true,
        },
    ensures
        s.next(event).pending.len() == 0,
        s.next(event).total == 0,
{
    reveal(Progress::next);
}

/// A run that is on its course and not done can go on.
proof fn lemma_run_can_go_on(
    store: Seq<u8>,
    entry: ZipEntry,
    local_offset: u32,
    data: Seq<u8>,
    content: Seq<u8>,
    skip: nat,
    events: Seq<Event>,
) -> (event: Event)
    requires
        crate::cache::text_laws::whole(store, entry, local_offset, data, content),
        crate::zip::data_skip(store.subrange(local_offset as int, local_offset + 30)) == Ok::<
            nat,
            Seq<char>,
        >(skip),
        local_offset + skip + data.len() <= 0xFFFF_FFFF,
        answers_every_call(),
        on_course(store, entry, local_offset, events),
        crate::cache::stream_laws::run(Progress::start(entry, local_offset), events).step
            != Step::Done,
    ensures
        on_course(store, entry, local_offset, events.push(event)),
{
    let start = Progress::start(entry, local_offset);
    let s = crate::cache::stream_laws::run(start, events);
    let none = Seq::<u8>::empty();
    crate::cache::stream_laws::law_runs_are_sound(entry, local_offset, events);
    let event = match s.step {
        Step::ReadHeader => {
            if events.len() > 0 {
                crate::cache::stream_laws::lemma_header_once(entry, local_offset, events);
            }
            Event::HeaderRead(store.subrange(local_offset as int, local_offset + 30))
        },
        Step::Allocate => Event::Allocated(Ok(())),
        Step::Read => Event::DataRead(
            lemma_read_can_be_served(store, entry, local_offset, data, content, skip, events),
        ),
        Step::Inflate => {
            let calls = s.calls.push((s.packed, s.window, s.out_pos, s.flags()));
            let (status, consumed, produced, window) = crate::cache::inflate::answer(calls);
            crate::cache::text_laws::lemma_calls_are_chained(entry, local_offset, events);
            assert(calls.drop_last() =~= s.calls);
            assert(crate::cache::inflate::chained(calls));
            Event::Inflated(calls, status, consumed, produced, window)
        },
        Step::Feed => Event::Fed(s.input.len(), none),
        _ => Event::Finished(none),
    };
    assert(events.push(event).drop_last() =~= events);
    lemma_silence_goes_on(s, event);
    event
}

/// A run that is on its course can be carried on to its end.
proof fn lemma_run_can_be_completed(
    store: Seq<u8>,
    entry: ZipEntry,
    local_offset: u32,
    data: Seq<u8>,
    content: Seq<u8>,
    skip: nat,
    events: Seq<Event>,
) -> (all: Seq<Event>)
    requires
        crate::cache::text_laws::whole(store, entry, local_offset, data, content),
        crate::zip::data_skip(store.subrange(local_offset as int, local_offset + 30)) == Ok::<
            nat,
            Seq<char>,
        >(skip),
        local_offset + skip + data.len() <= 0xFFFF_FFFF,
        answers_every_call(),
        on_course(store, entry, local_offset, events),
    ensures
        on_course(store, entry, local_offset, all),
        crate::cache::stream_laws::run(Progress::start(entry, local_offset), all).step
            == Step::Done,
    decreases most_events(entry) - events.len(),
{
    let start = Progress::start(entry, local_offset);
    if crate::cache::stream_laws::run(start, events).step == Step::Done {
        events
    } else {
        let event = lemma_run_can_go_on(
            store,
            entry,
            local_offset,
            data,
            content,
            skip,
            events,
        );
        law_every_run_ends(entry, local_offset, events.push(event));
        lemma_run_can_be_completed(
            store,
            entry,
            local_offset,
            data,
            content,
            skip,
            events.push(event),
        )
    }
}

/// Every entry that a store holds as a whole, wherever it lies below 4 GiB, can be streamed:
/// there is a run over it in which nothing fails and every read gives something, and it
/// succeeds, having unpacked the content.
pub proof fn law_whole_entry_can_be_streamed(
    store: Seq<u8>,
    entry: ZipEntry,
    local_offset: u32,
    data: Seq<u8>,
    content: Seq<u8>,
    skip: nat,
)
    requires
        crate::cache::text_laws::whole(store, entry, local_offset, data, content),
        crate::zip::data_skip(store.subrange(local_offset as int, local_offset + 30)) == Ok::<
            nat,
            Seq<char>,
        >(skip),
        local_offset + skip + data.len() <= 0xFFFF_FFFF,
        answers_every_call(),
    ensures
        exists|events: Seq<Event>| #[trigger]
            crate::cache::text_laws::succeeded(Progress::start(entry, local_offset), events)
                && crate::cache::text_laws::served(
                store,
                Progress::start(entry, local_offset),
                events,
            ) && crate::cache::text_laws::undisturbed(events)
                && crate::cache::stream_laws::unpacked(
                Progress::start(entry, local_offset),
                events,
            ) == content,
{
    let start = Progress::start(entry, local_offset);
    let strip = |d: Seq<u8>| Seq::<u8>::empty();
    let events = lemma_run_can_be_completed(
        store,
        entry,
        local_offset,
        data,
        content,
        skip,
        Seq::empty(),
    );
    crate::cache::stream_laws::law_text_is_passed_on(entry, local_offset, events);
    let written = crate::cache::stream_laws::chunks(start, events).flatten();
    assert(crate::cache::stream_laws::text(events) =~= Seq::<u8>::empty());
    crate::cache::text_laws::law_entry_gives_its_text(
        strip,
        store,
        entry,
        local_offset,
        data,
        content,
        events,
    );
    if entry.method == METHOD_DEFLATE {
        crate::cache::text_laws::law_compressed_entry_is_its_content(
            store,
            entry,
            local_offset,
            data,
            content,
            events,
        );
    } else {
        crate::cache::text_laws::law_stored_entry_is_its_data(
            store,
            entry,
            local_offset,
            data,
            events,
        );
    }
    assert(crate::cache::text_laws::succeeded(start, events));
}

} // verus!
