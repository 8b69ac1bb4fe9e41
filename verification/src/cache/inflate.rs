//! The DEFLATE decompressor of `miniz_oxide`.
use miniz_oxide::inflate::TINFLStatus;
use vstd::prelude::*;

verus! {

/// Size of the circular window that holds the last output of the decompressor.
pub const WINDOW_SIZE: usize = 32768;

/// Flag of a call that will be followed by more input.
pub const FLAG_HAS_MORE_INPUT: u32 = 2;

/// What a call of the decompressor came to.
#[derive(Clone, Copy, PartialEq, Eq, Structural, Debug)]
pub enum InflateStatus {
    /// The input ended before the stream did, and no more was announced.
    FailedCannotMakeProgress,
    /// The window has no admissible size, or the position lies outside it.
    BadParam,
    /// A checksum did not match.
    Adler32Mismatch,
    /// The input is not a DEFLATE stream.
    Failed,
    /// The end of the stream was reached.
    Done,
    /// All input was used up before the end of the stream.
    NeedsMoreInput,
    /// The window is full and there is more to write.
    HasMoreOutput,
}

/// The decompressor's state, opaque.
#[verifier::external_type_specification]
#[verifier::external_body]
pub struct ExDecompressorOxide(miniz_oxide::inflate::core::DecompressorOxide);

/// The calls that a decompressor has answered so far, oldest first: the input, the
/// window before the call, the position in it, and the flags. They determine its state.
pub uninterp spec fn calls(d: miniz_oxide::inflate::core::DecompressorOxide) -> Seq<(Seq<u8>, Seq<u8>, nat, u32)>;

/// What `decompress` answers to the last of a sequence of calls on a fresh
/// decompressor: the status, the input bytes it took, the bytes it wrote, and the
/// window afterwards.
pub uninterp spec fn answer(calls: Seq<(Seq<u8>, Seq<u8>, nat, u32)>) -> (
    InflateStatus,
    nat,
    nat,
    Seq<u8>,
);

/// The window after the calls: zeroed before the first one.
pub open spec fn window_after(calls: Seq<(Seq<u8>, Seq<u8>, nat, u32)>) -> Seq<u8> {
    if calls.len() == 0 {
        Seq::new(WINDOW_SIZE as nat, |i: int| 0u8)
    } else {
        answer(calls).3
    }
}

/// Where in the window the output goes on after the calls: at its start if it is full.
pub open spec fn position_after(calls: Seq<(Seq<u8>, Seq<u8>, nat, u32)>) -> nat {
    if calls.len() == 0 || answer(calls).0 == InflateStatus::HasMoreOutput {
        0
    } else {
        calls.last().2 + answer(calls).2
    }
}

/// The calls unpack one stream piece by piece: each of them continues where the one
/// before it stopped, and only the last one may have ended the stream or failed.
pub open spec fn chained(calls: Seq<(Seq<u8>, Seq<u8>, nat, u32)>) -> bool
    decreases calls.len(),
{
    calls.len() == 0 || {
        let earlier = calls.drop_last();
        let (input, window, out_pos, flags) = calls.last();
        &&& chained(earlier)
        &&& earlier.len() > 0 ==> answer(earlier).0 == InflateStatus::NeedsMoreInput || answer(
            earlier,
        ).0 == InflateStatus::HasMoreOutput
        &&& input.len() <= u32::MAX
        &&& window == window_after(earlier)
        &&& out_pos == position_after(earlier)
        &&& flags == 0 || flags == FLAG_HAS_MORE_INPUT
    }
}

/// All input that the calls took.
pub open spec fn took(calls: Seq<(Seq<u8>, Seq<u8>, nat, u32)>) -> Seq<u8>
    decreases calls.len(),
{
    if calls.len() == 0 {
        Seq::empty()
    } else {
        took(calls.drop_last()) + calls.last().0.take(answer(calls).1 as int)
    }
}

/// All input that the calls were given: what was taken, and what the last one left.
pub open spec fn offered(calls: Seq<(Seq<u8>, Seq<u8>, nat, u32)>) -> Seq<u8> {
    if calls.len() == 0 {
        Seq::empty()
    } else {
        took(calls.drop_last()) + calls.last().0
    }
}

/// All output that the calls wrote.
pub open spec fn wrote(calls: Seq<(Seq<u8>, Seq<u8>, nat, u32)>) -> Seq<u8>
    decreases calls.len(),
{
    if calls.len() == 0 {
        Seq::empty()
    } else {
        let out_pos = calls.last().2 as int;
        wrote(calls.drop_last()) + answer(calls).3.subrange(out_pos, out_pos + answer(calls).2)
    }
}

/// The calls unpack a stream to its end.
pub open spec fn complete(calls: Seq<(Seq<u8>, Seq<u8>, nat, u32)>) -> bool {
    &&& chained(calls)
    &&& calls.len() > 0
    &&& answer(calls).0 == InflateStatus::Done
}

/// As far as both go, the data are the same.
pub open spec fn agree(a: Seq<u8>, b: Seq<u8>) -> bool {
    a.is_prefix_of(b) || b.is_prefix_of(a)
}

/// The pieces do not matter. Where the calls are given a stream that some calls unpack
/// to its end, they write the same once they reach the end, and do not fail before,
/// unless the stream is cut short.
pub open spec fn consistent(calls: Seq<(Seq<u8>, Seq<u8>, nat, u32)>) -> bool {
    forall|other: Seq<(Seq<u8>, Seq<u8>, nat, u32)>| #[trigger]
        complete(other) && chained(calls) && calls.len() > 0 && agree(
            offered(calls),
            took(other),
        ) ==> match answer(calls).0 {
            InflateStatus::Done => wrote(calls) == wrote(other),
            InflateStatus::HasMoreOutput => true,
            InflateStatus::NeedsMoreInput => true,
            _ => calls.last().3 == 0 && offered(calls).len() < took(other).len(),
        }
}

/// The last of the calls stopped for a reason. It asks for more input only if more was
/// announced, all of its own is used up and the window is not full; it has more output
/// only if the window is full; and it does not fill a window without taking input.
pub open spec fn gets_on(calls: Seq<(Seq<u8>, Seq<u8>, nat, u32)>) -> bool {
    let (input, _, out_pos, flags) = calls.last();
    let (status, consumed, produced, _) = answer(calls);
    &&& status == InflateStatus::NeedsMoreInput ==> {
        &&& flags == FLAG_HAS_MORE_INPUT
        &&& consumed == input.len()
        &&& out_pos + produced < WINDOW_SIZE
    }
    &&& status == InflateStatus::HasMoreOutput ==> out_pos + produced == WINDOW_SIZE
    &&& consumed == 0 ==> produced < WINDOW_SIZE
}

/// The data start with a whole DEFLATE stream: there are calls that unpack it.
pub open spec fn starts_with_stream(data: Seq<u8>) -> bool {
    exists|calls: Seq<(Seq<u8>, Seq<u8>, nat, u32)>| #[trigger]
        complete(calls) && took(calls).is_prefix_of(data)
}

/// The data start with a DEFLATE stream of the content: there are calls that unpack it.
pub open spec fn unpacks_to(data: Seq<u8>, content: Seq<u8>) -> bool {
    &&& data.len() > 0
    &&& exists|calls: Seq<(Seq<u8>, Seq<u8>, nat, u32)>| #[trigger]
        complete(calls) && took(calls).is_prefix_of(data) && wrote(calls) == content
}

/// `DecompressorOxide::new`: a decompressor at the start of a stream.
#[verifier::external_body]
pub(crate) fn new_decompressor() -> (d: miniz_oxide::inflate::core::DecompressorOxide)
    ensures
        calls(d) == Seq::<(Seq<u8>, Seq<u8>, nat, u32)>::empty(),
{
    miniz_oxide::inflate::core::DecompressorOxide::new()
}

/// `miniz_oxide::inflate::core::decompress` on a window that it uses in a circle.
///
/// What it returns and writes depends on nothing but the arguments of this call
/// and of the earlier ones on the same decompressor. It takes no more input than
/// it is given, and writes from `out_pos` on no further than the end of the window.
/// It asks for more input only once its own is used up and more was announced, and has
/// more output only where the window is full. Between calls it keeps less than sixteen
/// bits of input, which cannot fill the window: for that it has to take some.
/// A stream may be handed over in pieces of any length: what they unpack to, and that
/// they do, depends on the stream alone ([`consistent`]).
#[verifier::external_body]
pub(crate) fn inflate(
    decomp: &mut miniz_oxide::inflate::core::DecompressorOxide,
    input: &[u8],
    window: &mut Vec<u8>,
    out_pos: usize,
    flags: u32,
) -> (r: (InflateStatus, usize, usize))
    requires
        old(window)@.len() == WINDOW_SIZE,
        out_pos <= WINDOW_SIZE,
        input@.len() <= u32::MAX,
        flags == 0 || flags == FLAG_HAS_MORE_INPUT,
    ensures
        calls(*final(decomp)) == calls(*old(decomp)).push(
            (input@, old(window)@, out_pos as nat, flags),
        ),
        answer(calls(*final(decomp))) == (r.0, r.1 as nat, r.2 as nat, final(window)@),
        r.1 <= input@.len(),
        out_pos + r.2 <= WINDOW_SIZE,
        final(window)@.len() == WINDOW_SIZE,
        r.0 == InflateStatus::NeedsMoreInput ==> flags == FLAG_HAS_MORE_INPUT && r.1
            == input@.len() && out_pos + r.2 < WINDOW_SIZE,
        r.0 == InflateStatus::HasMoreOutput ==> out_pos + r.2 == WINDOW_SIZE,
        r.1 == 0 ==> r.2 < WINDOW_SIZE,
        consistent(calls(*final(decomp))),
{
    let (status, consumed, produced) =
        miniz_oxide::inflate::core::decompress(decomp, input, window, out_pos, flags);
    let status = match status {
        TINFLStatus::FailedCannotMakeProgress => InflateStatus::FailedCannotMakeProgress,
        TINFLStatus::BadParam => InflateStatus::BadParam,
        TINFLStatus::Adler32Mismatch => InflateStatus::Adler32Mismatch,
        TINFLStatus::Failed => InflateStatus::Failed,
        TINFLStatus::Done => InflateStatus::Done,
        TINFLStatus::NeedsMoreInput => InflateStatus::NeedsMoreInput,
        TINFLStatus::HasMoreOutput => InflateStatus::HasMoreOutput,
    };
    (status, consumed, produced)
}

} // verus!
