//! The VideoCore mailbox: the 36-word message buffer shared with the GPU,
//! the addresses of the mailbox registers, and the handshake that posts a
//! message and waits for the GPU's answer.

use vstd::prelude::*;

verus! {

/// The Raspberry Pi models the mailbox driver supports.
#[derive(Clone, Copy, Debug, PartialEq, Eq, Structural)]
pub enum Board {
    Rpi4,
    Rpi5,
}

/// Bus address of the VideoCore mailbox registers.
pub open spec fn videocore_mbox_base(board: Board) -> u64 {
    match board {
        Board::Rpi4 => 0xFE00_B880,
        Board::Rpi5 => 0x10_7C01_3880,
    }
}

pub fn videocore_mbox(board: Board) -> (addr: u64)
    ensures
        addr == videocore_mbox_base(board),
{
    match board {
        Board::Rpi4 => 0xFE00_B880,
        Board::Rpi5 => 0x10_7C01_3880,
    }
}

/// Set in mailbox word 1 when the GPU has answered a request successfully.
pub const MBOX_RESPONSE: u32 = 0x8000_0000;

/// Set in the status register while the mailbox cannot take a request.
pub const MBOX_FULL: u32 = 0x8000_0000;

/// Set in the status register while there is no answer to read.
pub const MBOX_EMPTY: u32 = 0x4000_0000;

/// The addresses of the mailbox registers.
pub struct Flags;

impl Flags {
    /// The register that answers are read from.
    pub fn read(board: Board) -> (addr: u64)
        ensures
            addr == videocore_mbox_base(board),
    {
        videocore_mbox(board)
    }

    /// The status register.
    pub fn status(board: Board) -> (addr: u64)
        ensures
            addr == videocore_mbox_base(board) + 0x18,
    {
        videocore_mbox(board) + 0x18
    }

    /// The register that requests are written to.
    pub fn write(board: Board) -> (addr: u64)
        ensures
            addr == videocore_mbox_base(board) + 0x20,
    {
        videocore_mbox(board) + 0x20
    }
}

/// Number of words in the message buffer.
pub const MBOX_WORDS: usize = 36;

/// The message buffer of a mailbox request-response exchange. The mailbox
/// interface is the recommended way to talk to the VideoCore; the buffer
/// must sit at a 16-byte aligned address when it is handed to the GPU.
pub struct Mailbox {
    words: [u32; 36],
}

impl View for Mailbox {
    type V = Seq<u32>;

    closed spec fn view(&self) -> Seq<u32> {
        self.words@
    }
}

impl Mailbox {
    /// A buffer of zeros.
    pub fn new() -> (m: Mailbox)
        ensures
            m@ == Seq::new(36, |i: int| 0u32),
    {
        let m = Mailbox { words: [0u32; 36] };
        assert(m@ =~= Seq::new(36, |i: int| 0u32));
        m
    }

    /// A buffer holding the given words.
    pub fn from_words(words: [u32; 36]) -> (m: Mailbox)
        ensures
            m@ == words@,
    {
        Mailbox { words }
    }

    /// The words of the buffer.
    pub fn to_words(&self) -> (words: [u32; 36])
        ensures
            words@ == self@,
    {
        self.words
    }

    pub proof fn lemma_len(&self)
        ensures
            self@.len() == 36,
    {
    }
}

/// Sets word `i` of the message buffer.
pub fn mbox_set(mbox: &mut Mailbox, i: usize, v: u32)
    requires
        i < 36,
    ensures
        final(mbox)@ == old(mbox)@.update(i as int, v),
{
    mbox.words[i] = v;
}

/// Word `i` of the message buffer.
pub fn mbox_get(mbox: &Mailbox, i: usize) -> (v: u32)
    requires
        i < 36,
    ensures
        v == mbox@[i as int],
{
    mbox.words[i]
}

/// What a read of word `j` gives after word `i` was set to `v`: `v` at `i`
/// and the earlier word everywhere else.
pub proof fn lemma_get_after_set(m: Seq<u32>, i: int, j: int, v: u32)
    requires
        0 <= i < m.len(),
        0 <= j < m.len(),
    ensures
        m.update(i, v)[j] == if i == j {
            v
        } else {
            m[j]
        },
{
}

/// The word written to the mailbox to post a request: the buffer address
/// with its low four bits replaced by the channel number.
pub open spec fn request_word(addr: u32, channel: u32) -> u32 {
    (addr & !0xFu32) | (channel & 0xFu32)
}

/// The channel number and the buffer address can both be read back from a
/// request word, the address without its low four bits.
pub proof fn lemma_request_word_fields(addr: u32, channel: u32)
    ensures
        request_word(addr, channel) & 0xF == channel & 0xF,
        request_word(addr, channel) & !0xFu32 == addr & !0xFu32,
{
    assert(((addr & !0xFu32) | (channel & 0xFu32)) & 0xF == channel & 0xF) by (bit_vector);
    assert(((addr & !0xFu32) | (channel & 0xFu32)) & !0xFu32 == addr & !0xFu32) by (bit_vector);
}

pub fn is_mbox_full(status: u32) -> (full: bool)
    ensures
        full == (status & MBOX_FULL != 0),
{
    (status & MBOX_FULL) != 0
}

pub fn is_mbox_empty(status: u32) -> (empty: bool)
    ensures
        empty == (status & MBOX_EMPTY != 0),
{
    (status & MBOX_EMPTY) != 0
}

pub fn does_mbox_response_match(read: u32, request: u32) -> (matched: bool)
    ensures
        matched == (read == request),
{
    read == request
}

/// Where a mailbox call stands.
#[derive(Clone, Copy, Debug, PartialEq, Eq, Structural)]
pub enum MboxPhase {
    /// Waiting for the mailbox to have room for the request.
    AwaitNotFull,
    /// The request is being written.
    Writing,
    /// Waiting for an answer to arrive.
    AwaitNotEmpty,
    /// An answer is being read.
    AwaitResponse,
    /// Our answer arrived; word 1 of the buffer is being read.
    AwaitStatusWord,
    /// Finished; whether the GPU reported success.
    Done(bool),
}

/// What the hardware reported for the previous action.
#[derive(Clone, Copy, Debug, PartialEq, Eq, Structural)]
pub enum MboxEvent {
    /// The value of the status register.
    Status(u32),
    /// The request word has been written.
    Written,
    /// The value read from the answer register.
    Response(u32),
    /// Word 1 of the message buffer.
    StatusWord(u32),
}

/// What the caller must do next.
#[derive(Clone, Copy, Debug, PartialEq, Eq, Structural)]
pub enum MboxAction {
    /// Read the status register (spinning while waiting).
    ReadStatus,
    /// Write this word to the request register.
    WriteRequest(u32),
    /// Read the answer register.
    ReadResponse,
    /// Read this word of the message buffer.
    ReadMailboxWord(usize),
    /// The call is over: whether the GPU answered with success.
    Complete(bool),
}

/// A mailbox call in progress: the request word it posts and where it
/// stands.
pub struct MboxCall {
    pub request: u32,
    pub phase: MboxPhase,
}

/// The action that a call in `phase` is waiting to have done.
pub open spec fn pending_action(request: u32, phase: MboxPhase) -> MboxAction {
    match phase {
        MboxPhase::AwaitNotFull => MboxAction::ReadStatus,
        MboxPhase::Writing => MboxAction::WriteRequest(request),
        MboxPhase::AwaitNotEmpty => MboxAction::ReadStatus,
        MboxPhase::AwaitResponse => MboxAction::ReadResponse,
        MboxPhase::AwaitStatusWord => MboxAction::ReadMailboxWord(1),
        MboxPhase::Done(ok) => MboxAction::Complete(ok),
    }
}

/// The phase a call moves to on `ev`. It spins on the status register until
/// the mailbox is not full, writes the request, spins until it is not empty,
/// reads an answer, goes back to waiting when the answer is for someone
/// else, and for its own answer reads word 1 of the buffer, which says
/// whether the request succeeded. An event that does not fit the phase
/// changes nothing.
pub open spec fn next_phase(request: u32, phase: MboxPhase, ev: MboxEvent) -> MboxPhase {
    match (phase, ev) {
        (MboxPhase::AwaitNotFull, MboxEvent::Status(s)) => if s & MBOX_FULL != 0 {
            MboxPhase::AwaitNotFull
        } else {
            MboxPhase::Writing
        },
        (MboxPhase::Writing, MboxEvent::Written) => MboxPhase::AwaitNotEmpty,
        (MboxPhase::AwaitNotEmpty, MboxEvent::Status(s)) => if s & MBOX_EMPTY != 0 {
            MboxPhase::AwaitNotEmpty
        } else {
            MboxPhase::AwaitResponse
        },
        (MboxPhase::AwaitResponse, MboxEvent::Response(r)) => if r == request {
            MboxPhase::AwaitStatusWord
        } else {
            MboxPhase::AwaitNotEmpty
        },
        (MboxPhase::AwaitStatusWord, MboxEvent::StatusWord(v)) => MboxPhase::Done(
            v == MBOX_RESPONSE,
        ),
        _ => phase,
    }
}

/// Starts the call that sends the message buffer at `addr` on `channel` and
/// waits for the answer; the first action is a read of the status register.
pub fn mbox_call(addr: u32, channel: u32) -> (res: (MboxCall, MboxAction))
    ensures
        res.0.request == request_word(addr, channel),
        res.0.phase == MboxPhase::AwaitNotFull,
        res.1 == pending_action(res.0.request, res.0.phase),
{
    let request = (addr & !0xF) | (channel & 0xF);
    (MboxCall { request, phase: MboxPhase::AwaitNotFull }, MboxAction::ReadStatus)
}

impl MboxCall {
    /// Advances the call on what the hardware reported and returns the next
    /// action.
    pub fn step(&mut self, ev: MboxEvent) -> (action: MboxAction)
        ensures
            final(self).request == old(self).request,
            final(self).phase == next_phase(old(self).request, old(self).phase, ev),
            action == pending_action(final(self).request, final(self).phase),
    {
        let next = match (self.phase, ev) {
            (MboxPhase::AwaitNotFull, MboxEvent::Status(s)) => {
                if is_mbox_full(s) {
                    MboxPhase::AwaitNotFull
                } else {
                    MboxPhase::Writing
                }
            },
            (MboxPhase::Writing, MboxEvent::Written) => MboxPhase::AwaitNotEmpty,
            (MboxPhase::AwaitNotEmpty, MboxEvent::Status(s)) => {
                if is_mbox_empty(s) {
                    MboxPhase::AwaitNotEmpty
                } else {
                    MboxPhase::AwaitResponse
                }
            },
            (MboxPhase::AwaitResponse, MboxEvent::Response(r)) => {
                if does_mbox_response_match(r, self.request) {
                    MboxPhase::AwaitStatusWord
                } else {
                    MboxPhase::AwaitNotEmpty
                }
            },
            (MboxPhase::AwaitStatusWord, MboxEvent::StatusWord(v)) => MboxPhase::Done(
                v == MBOX_RESPONSE,
            ),
            (phase, _) => phase,
        };
        self.phase = next;
        match next {
            MboxPhase::AwaitNotFull => MboxAction::ReadStatus,
            MboxPhase::Writing => MboxAction::WriteRequest(self.request),
            MboxPhase::AwaitNotEmpty => MboxAction::ReadStatus,
            MboxPhase::AwaitResponse => MboxAction::ReadResponse,
            MboxPhase::AwaitStatusWord => MboxAction::ReadMailboxWord(1),
            MboxPhase::Done(ok) => MboxAction::Complete(ok),
        }
    }
}

/// The phase reached from `phase` after the events `evs`, in order.
pub open spec fn run(request: u32, phase: MboxPhase, evs: Seq<MboxEvent>) -> MboxPhase
    decreases evs.len(),
{
    if evs.len() == 0 {
        phase
    } else {
        next_phase(request, run(request, phase, evs.drop_last()), evs.last())
    }
}

/// A call started in `AwaitNotFull` only reaches its last read, or its end,
/// after the answer register has returned its own request word.
pub proof fn lemma_finish_needs_own_answer(request: u32, evs: Seq<MboxEvent>)
    requires
        run(request, MboxPhase::AwaitNotFull, evs) is AwaitStatusWord
            || run(request, MboxPhase::AwaitNotFull, evs) is Done,
    ensures
        exists|i: int| 0 <= i < evs.len() && evs[i] == MboxEvent::Response(request),
    decreases evs.len(),
{
    if evs.len() == 0 {
    } else {
        let prefix = evs.drop_last();
        let before = run(request, MboxPhase::AwaitNotFull, prefix);
        if before is AwaitStatusWord || before is Done {
            lemma_finish_needs_own_answer(request, prefix);
            let i = choose|i: int| 0 <= i < prefix.len() && prefix[i] == MboxEvent::Response(request);
            assert(evs[i] == MboxEvent::Response(request));
        } else {
            assert(evs[evs.len() - 1] == MboxEvent::Response(request));
        }
    }
}

/// A call that ends reports success exactly when word 1 of the buffer, as
/// read in its last step, equals `MBOX_RESPONSE`.
pub proof fn lemma_done_reports_status_word(request: u32, evs: Seq<MboxEvent>, ok: bool)
    requires
        evs.len() > 0,
        run(request, MboxPhase::AwaitNotFull, evs.drop_last()) != MboxPhase::Done(ok),
        run(request, MboxPhase::AwaitNotFull, evs) == MboxPhase::Done(ok),
    ensures
        exists|v: u32| evs.last() == MboxEvent::StatusWord(v) && ok == (v == MBOX_RESPONSE),
{
    let v = evs.last()->StatusWord_0;
    assert(evs.last() == MboxEvent::StatusWord(v));
}

/// How far a call has got: waiting for room, writing, then past the write.
pub open spec fn phase_rank(phase: MboxPhase) -> int {
    match phase {
        MboxPhase::AwaitNotFull => 0,
        MboxPhase::Writing => 1,
        MboxPhase::AwaitNotEmpty => 2,
        MboxPhase::AwaitResponse => 3,
        MboxPhase::AwaitStatusWord => 4,
        MboxPhase::Done(_) => 5,
    }
}

/// How many times the request word was written in a run from `phase`:
/// the `Written` events received while the call was writing.
pub open spec fn requests_written(request: u32, phase: MboxPhase, evs: Seq<MboxEvent>) -> nat
    decreases evs.len(),
{
    if evs.len() == 0 {
        0
    } else {
        let before = run(request, phase, evs.drop_last());
        requests_written(request, phase, evs.drop_last()) + if before == MboxPhase::Writing
            && evs.last() == MboxEvent::Written {
            1nat
        } else {
            0nat
        }
    }
}

/// A call writes its request at most once: it has written it exactly when
/// it has got past the write, and never goes back to writing.
pub proof fn lemma_request_written_once(request: u32, evs: Seq<MboxEvent>)
    ensures
        requests_written(request, MboxPhase::AwaitNotFull, evs) <= 1,
        requests_written(request, MboxPhase::AwaitNotFull, evs) == 1 <==> phase_rank(
            run(request, MboxPhase::AwaitNotFull, evs),
        ) >= 2,
    decreases evs.len(),
{
    if evs.len() > 0 {
        lemma_request_written_once(request, evs.drop_last());
    }
}

/// The call waits for room only while the full bit (bit 31) of the status
/// register is set, and for an answer only while the empty bit (bit 30) is
/// set; no other bit of the status matters. As soon as the full bit is
/// clear the request is written.
pub proof fn lemma_status_bits(request: u32, s: u32)
    ensures
        next_phase(request, MboxPhase::AwaitNotFull, MboxEvent::Status(s)) == MboxPhase::Writing
            <==> s & 0x8000_0000u32 == 0,
        next_phase(request, MboxPhase::AwaitNotFull, MboxEvent::Status(s))
            == MboxPhase::AwaitNotFull <==> s & 0x8000_0000u32 != 0,
        s & 0x8000_0000u32 == 0 ==> pending_action(
            request,
            next_phase(request, MboxPhase::AwaitNotFull, MboxEvent::Status(s)),
        ) == MboxAction::WriteRequest(request),
        next_phase(request, MboxPhase::AwaitNotFull, MboxEvent::Status(s)) == next_phase(
            request,
            MboxPhase::AwaitNotFull,
            MboxEvent::Status(s & 0x8000_0000u32),
        ),
        next_phase(request, MboxPhase::AwaitNotEmpty, MboxEvent::Status(s))
            == MboxPhase::AwaitResponse <==> s & 0x4000_0000u32 == 0,
        next_phase(request, MboxPhase::AwaitNotEmpty, MboxEvent::Status(s))
            == MboxPhase::AwaitNotEmpty <==> s & 0x4000_0000u32 != 0,
        next_phase(request, MboxPhase::AwaitNotEmpty, MboxEvent::Status(s)) == next_phase(
            request,
            MboxPhase::AwaitNotEmpty,
            MboxEvent::Status(s & 0x4000_0000u32),
        ),
{
    assert((s & 0x8000_0000u32) & 0x8000_0000u32 == s & 0x8000_0000u32) by (bit_vector);
    assert((s & 0x4000_0000u32) & 0x4000_0000u32 == s & 0x4000_0000u32) by (bit_vector);
}

/// The rest of the handshake: once the request is written the call waits
/// for an answer; an answer other than its own request word sends it back
/// to waiting; its own answer leads to reading word 1 of the buffer, and
/// the call succeeds exactly when that word has bit 31 set and nothing
/// else.
pub proof fn lemma_handshake_steps(request: u32, x: u32)
    ensures
        next_phase(request, MboxPhase::Writing, MboxEvent::Written) == MboxPhase::AwaitNotEmpty,
        pending_action(request, MboxPhase::Writing) == MboxAction::WriteRequest(request),
        next_phase(request, MboxPhase::AwaitResponse, MboxEvent::Response(x))
            == MboxPhase::AwaitStatusWord <==> x == request,
        x != request ==> next_phase(request, MboxPhase::AwaitResponse, MboxEvent::Response(x))
            == MboxPhase::AwaitNotEmpty,
        pending_action(request, MboxPhase::AwaitStatusWord) == MboxAction::ReadMailboxWord(1),
        next_phase(request, MboxPhase::AwaitStatusWord, MboxEvent::StatusWord(x))
            == MboxPhase::Done(x == 0x8000_0000u32),
{
}

} // verus!
