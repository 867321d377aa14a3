use crate::error::Ssm2Error;
use crate::packet::{
    checksum, first_packet, is_candidate, is_write_command, lemma_first_packet_exists,
    lemma_frame_layout, request_packet, response_packet, CMD_INIT, ECU_BYTE,
    FRAMING_LEN, HEADER_BYTE, MAX_PAYLOAD, NUM_I, TOOL_BYTE,
};
use crate::param::{
    addr_of_bytes, lemma_read_payload_shape, EcuParam, CMD_READ_BLOCK, CMD_READ_SINGLE,
};
use vstd::prelude::*;
use vstd::slice::{slice_subrange, slice_to_vec};

verus! {

/// Speed of the serial link, in bits per second.
pub const BAUD_RATE: u32 = 4800;

/// How long one read from the transport may wait for bytes, in milliseconds.
pub const READ_TIMEOUT_MS: u64 = 100;

/// How many reads one exchange may spend on waiting for its response.
pub const MAX_READS: usize = 20;

/// How many bytes one read takes from the transport at most.
pub const READ_CHUNK: usize = 64;

/// What the driver of the transport has to do next.
#[derive(Debug, PartialEq, Eq)]
pub enum Action {
    /// Nothing.
    Idle,
    /// Acquire the transport of the client's port with these settings, then
    /// report the outcome with [`Ssm2::acquired`].
    Acquire { baud_rate: u32, timeout_ms: u64 },
    /// Write all of these bytes to the transport, then report it with
    /// [`Ssm2::sent`].
    Write(Vec<u8>),
    /// Read once from the transport, at most `max_len` bytes and no longer than
    /// the timeout, then report the bytes with [`Ssm2::received`]: none, where
    /// the read timed out or failed.
    Read { max_len: usize },
    /// Nothing more: the exchange has ended with this response packet.
    Done(Vec<u8>),
}

/// An [`Action`], as contracts see it.
pub enum Step {
    Idle,
    Acquire { baud_rate: u32, timeout_ms: u64 },
    Write(Seq<u8>),
    Read { max_len: usize },
    Done(Seq<u8>),
}

impl View for Action {
    type V = Step;

    open spec fn view(&self) -> Step {
        match *self {
            Action::Idle => Step::Idle,
            Action::Acquire { baud_rate, timeout_ms } => Step::Acquire { baud_rate, timeout_ms },
            Action::Write(bytes) => Step::Write(bytes@),
            Action::Read { max_len } => Step::Read { max_len },
            Action::Done(packet) => Step::Done(packet@),
        }
    }
}

/// What a call of the client answers, as contracts see it.
pub open spec fn reply(res: Result<Action, Ssm2Error>) -> Result<Step, Ssm2Error> {
    match res {
        Ok(action) => Ok(action@),
        Err(e) => Err(e),
    }
}

/// Whether `request` is a request packet that does not write to the control
/// unit.
pub open spec fn is_safe_request(request: Seq<u8>) -> bool {
    &&& FRAMING_LEN < request.len() <= MAX_PAYLOAD + FRAMING_LEN
    &&& request == request_packet(request.subrange(4, request.len() - 1))
    &&& !is_write_command(request[4])
}

/// The part of a chunk that one read takes in.
pub open spec fn capped(chunk: Seq<u8>) -> Seq<u8> {
    if chunk.len() <= READ_CHUNK {
        chunk
    } else {
        chunk.subrange(0, READ_CHUNK as int)
    }
}

/// The response that a run of received bytes holds: the first response packet
/// among them, framing included, or a failure where there is none.
pub open spec fn response_in(buffer: Seq<u8>) -> Result<Seq<u8>, Ssm2Error> {
    match first_packet(buffer) {
        Some((start, len)) => Ok(buffer.subrange(start, start + len)),
        None => Err(Ssm2Error::MalformedResponse),
    }
}

/// How an exchange ends on the bytes that it has taken in.
pub open spec fn verdict(buffer: Seq<u8>) -> Result<Step, Ssm2Error> {
    match response_in(buffer) {
        Ok(packet) => Ok(Step::Done(packet)),
        Err(e) => Err(e),
    }
}

/// The state of a client.
pub enum State {
    /// No transport is bound.
    Closed,
    /// A transport is bound and no exchange is under way.
    Ready,
    /// An exchange is under way: this request is to be written.
    Sending(Seq<u8>),
    /// An exchange is under way: the request is written, these bytes have come
    /// back so far, in this many reads.
    Receiving(Seq<u8>, nat),
}

impl State {
    /// Whether a transport is bound.
    pub open spec fn is_open(self) -> bool {
        !(self is Closed)
    }

    /// What every state that a client can reach is like.
    pub open spec fn wf(self) -> bool {
        match self {
            State::Closed | State::Ready => true,
            State::Sending(request) => is_safe_request(request),
            State::Receiving(buffer, reads) => reads < MAX_READS && buffer.len() <= reads
                * READ_CHUNK,
        }
    }

    /// What the driver owes the client in this state.
    pub open spec fn owed(self) -> Result<Step, Ssm2Error> {
        match self {
            State::Closed => Err(Ssm2Error::NotOpen),
            State::Ready => Ok(Step::Idle),
            State::Sending(request) => Ok(Step::Write(request)),
            State::Receiving(_, _) => Ok(Step::Read { max_len: READ_CHUNK }),
        }
    }

    /// What `open` asks of the driver: to acquire the transport, unless one
    /// is bound.
    pub open spec fn open_step(self) -> Step {
        if self is Closed {
            Step::Acquire { baud_rate: BAUD_RATE, timeout_ms: READ_TIMEOUT_MS }
        } else {
            Step::Idle
        }
    }

    /// The state after the driver has tried to acquire the transport.
    pub open spec fn after_acquired(self, ok: bool) -> State {
        if self is Closed && ok {
            State::Ready
        } else {
            self
        }
    }

    /// What `acquired` answers.
    pub open spec fn acquired_reply(self, ok: bool) -> Result<(), Ssm2Error> {
        if self is Closed && !ok {
            Err(Ssm2Error::PortUnavailable)
        } else {
            Ok(())
        }
    }

    /// What `close` answers.
    pub open spec fn close_reply(self) -> Result<(), Ssm2Error> {
        if self is Closed {
            Err(Ssm2Error::NotOpen)
        } else {
            Ok(())
        }
    }

    /// The state after a request with this payload was asked for. An exchange
    /// that was under way is given up for the new one.
    pub open spec fn after_request(self, payload: Seq<u8>) -> State {
        if self is Closed {
            self
        } else {
            State::Sending(request_packet(payload))
        }
    }

    /// What asking for a request with this payload answers: on an open client,
    /// the request packet to write.
    pub open spec fn request_reply(self, payload: Seq<u8>) -> Result<Step, Ssm2Error> {
        if self is Closed {
            Err(Ssm2Error::NotOpen)
        } else {
            Ok(Step::Write(request_packet(payload)))
        }
    }

    /// The state after the driver has written the request.
    pub open spec fn after_sent(self) -> State {
        match self {
            State::Sending(_) => State::Receiving(Seq::empty(), 0),
            _ => self,
        }
    }

    /// Whether the exchange goes on reading after a read that brought `chunk`
    /// as its read number `reads + 1`: the read brought something, and the
    /// budget is not spent.
    pub open spec fn reads_on(reads: nat, chunk: Seq<u8>) -> bool {
        chunk.len() > 0 && reads + 1 < MAX_READS
    }

    /// The state after one read of the driver has brought `chunk`.
    pub open spec fn after_received(self, chunk: Seq<u8>) -> State {
        match self {
            State::Receiving(buffer, reads) => if Self::reads_on(reads, chunk) {
                State::Receiving(buffer + capped(chunk), reads + 1)
            } else {
                State::Ready
            },
            _ => self,
        }
    }

    /// What `received` answers: in an exchange that is reading, the next read
    /// or, after the last one, the verdict on all the bytes taken in; else what
    /// the driver owes.
    pub open spec fn received_reply(self, chunk: Seq<u8>) -> Result<Step, Ssm2Error> {
        match self {
            State::Receiving(buffer, reads) => if Self::reads_on(reads, chunk) {
                Ok(Step::Read { max_len: READ_CHUNK })
            } else {
                verdict(buffer + capped(chunk))
            },
            _ => self.owed(),
        }
    }
}

/// The state of a client, as it is held.
enum Exchange {
    Closed,
    Ready,
    Sending(Vec<u8>),
    Receiving(Vec<u8>, usize),
}

/// A client of the control unit's diagnostic protocol on one serial port.
///
/// The client is a state machine. It is created closed, is opened once the
/// driver has acquired the transport, and then runs one exchange at a time.
pub struct Ssm2 {
    port_name: String,
    exchange: Exchange,
}

impl View for Ssm2 {
    type V = State;

    closed spec fn view(&self) -> State {
        match self.exchange {
            Exchange::Closed => State::Closed,
            Exchange::Ready => State::Ready,
            Exchange::Sending(request) => State::Sending(request@),
            Exchange::Receiving(buffer, reads) => State::Receiving(buffer@, reads as nat),
        }
    }
}

impl Ssm2 {
    #[verifier::type_invariant]
    spec fn inv(self) -> bool {
        self@.wf()
    }

    /// The name of the port that the client was made for.
    pub closed spec fn name(&self) -> Seq<char> {
        self.port_name@
    }

    /// Makes a closed client for the port of this name.
    pub fn new(port_name: &String) -> (client: Self)
        ensures
            client@ == State::Closed,
            client.name() == port_name@,
    {
        Ssm2 { port_name: port_name.clone(), exchange: Exchange::Closed }
    }

    /// The name of the client's port.
    pub fn port_name(&self) -> (name: &String)
        ensures
            name@ == self.name(),
    {
        &self.port_name
    }

    /// Whether a transport is bound.
    pub fn is_open(&self) -> (open: bool)
        ensures
            open == self@.is_open(),
    {
        match self.exchange {
            Exchange::Closed => false,
            _ => true,
        }
    }

    /// Asks for the client to be opened. On a closed client the driver is told
    /// to acquire the transport; on an open one nothing is asked of it.
    pub fn open(&self) -> (action: Action)
        ensures
            action@ == self@.open_step(),
    {
        match self.exchange {
            Exchange::Closed => Action::Acquire {
                baud_rate: BAUD_RATE,
                timeout_ms: READ_TIMEOUT_MS,
            },
            _ => Action::Idle,
        }
    }

    /// Takes in the outcome of the driver's attempt to acquire the transport.
    pub fn acquired(&mut self, ok: bool) -> (res: Result<(), Ssm2Error>)
        ensures
            final(self)@ == old(self)@.after_acquired(ok),
            res == old(self)@.acquired_reply(ok),
            final(self).name() == old(self).name(),
            final(self)@.wf(),
    {
        proof {
            use_type_invariant(&*self);
        }
        match self.exchange {
            Exchange::Closed => {
                if ok {
                    self.exchange = Exchange::Ready;
                    Ok(())
                } else {
                    Err(Ssm2Error::PortUnavailable)
                }
            },
            _ => Ok(()),
        }
    }

    /// Closes the client. Where this succeeds the driver releases the
    /// transport.
    pub fn close(&mut self) -> (res: Result<(), Ssm2Error>)
        ensures
            final(self)@ == State::Closed,
            res == old(self)@.close_reply(),
            final(self).name() == old(self).name(),
    {
        let was_open = self.is_open();
        self.exchange = Exchange::Closed;
        if was_open {
            Ok(())
        } else {
            Err(Ssm2Error::NotOpen)
        }
    }

    /// What the driver owes the client now. Nothing changes by asking.
    pub fn pending(&self) -> (res: Result<Action, Ssm2Error>)
        ensures
            reply(res) == self@.owed(),
            self@.wf(),
    {
        proof {
            use_type_invariant(self);
        }
        match &self.exchange {
            Exchange::Closed => Err(Ssm2Error::NotOpen),
            Exchange::Ready => Ok(Action::Idle),
            Exchange::Sending(request) => Ok(Action::Write(slice_to_vec(request.as_slice()))),
            Exchange::Receiving(_, _) => Ok(Action::Read { max_len: READ_CHUNK }),
        }
    }

    /// Starts the exchange that primes the control unit, once after the client
    /// was opened: the init command, with nothing after it.
    pub fn ecu_init(&mut self) -> (res: Result<Action, Ssm2Error>)
        ensures
            final(self)@ == old(self)@.after_request(seq![CMD_INIT]),
            reply(res) == old(self)@.request_reply(seq![CMD_INIT]),
            final(self).name() == old(self).name(),
            final(self)@.wf(),
    {
        let extra: Vec<u8> = Vec::new();
        assert(seq![CMD_INIT] + extra@ =~= seq![CMD_INIT]);
        self.send_read_packet(CMD_INIT, extra.as_slice())
    }

    /// Starts the exchange that reads `value_type`.
    pub fn ecu_read(&mut self, value_type: EcuParam) -> (res: Result<Action, Ssm2Error>)
        ensures
            final(self)@ == old(self)@.after_request(value_type.read_payload()),
            reply(res) == old(self)@.request_reply(value_type.read_payload()),
            final(self).name() == old(self).name(),
            final(self)@.wf(),
    {
        let (command, extra) = value_type.read_request();
        self.send_read_packet(command, extra.as_slice())
    }

    /// Starts the exchange that sends `command` with the bytes of `extra` after
    /// it and reads the response.
    fn send_read_packet(&mut self, command: u8, extra: &[u8]) -> (res: Result<Action, Ssm2Error>)
        requires
            !is_write_command(command),
            1 + extra@.len() <= MAX_PAYLOAD,
        ensures
            final(self)@ == old(self)@.after_request(seq![command] + extra@),
            reply(res) == old(self)@.request_reply(seq![command] + extra@),
            final(self).name() == old(self).name(),
            final(self)@.wf(),
    {
        proof {
            use_type_invariant(&*self);
        }
        if !self.is_open() {
            return Err(Ssm2Error::NotOpen);
        }
        match Ssm2::encode_request(command, extra) {
            Ok(request) => {
                proof {
                    lemma_request_is_safe(seq![command] + extra@);
                }
                let bytes = slice_to_vec(request.as_slice());
                self.exchange = Exchange::Sending(request);
                Ok(Action::Write(bytes))
            },
            Err(e) => Err(e),
        }
    }

    /// Takes in that the driver has written the request. The exchange goes on
    /// to read, with nothing read yet.
    pub fn sent(&mut self) -> (res: Result<Action, Ssm2Error>)
        ensures
            final(self)@ == old(self)@.after_sent(),
            reply(res) == old(self)@.after_sent().owed(),
            final(self).name() == old(self).name(),
            final(self)@.wf(),
    {
        proof {
            use_type_invariant(&*self);
        }
        let sending = match self.exchange {
            Exchange::Sending(_) => true,
            _ => false,
        };
        if sending {
            self.exchange = Exchange::Receiving(Vec::new(), 0);
        }
        self.pending()
    }

    /// Takes in the bytes that one read of the driver has brought, of which at
    /// most a chunk's worth count. A read that brought nothing ends the
    /// exchange, and so does the last read of the budget; the first response
    /// packet among all the bytes taken in is then the answer.
    pub fn received(&mut self, chunk: &[u8]) -> (res: Result<Action, Ssm2Error>)
        ensures
            final(self)@ == old(self)@.after_received(chunk@),
            reply(res) == old(self)@.received_reply(chunk@),
            final(self).name() == old(self).name(),
            final(self)@.wf(),
    {
        proof {
            use_type_invariant(&*self);
        }
        let mut taken = Exchange::Ready;
        core::mem::swap(&mut self.exchange, &mut taken);
        match taken {
            Exchange::Receiving(mut buffer, reads) => {
                let ghost before = buffer@;
                let take = if chunk.len() <= READ_CHUNK {
                    chunk.len()
                } else {
                    READ_CHUNK
                };
                let mut i: usize = 0;
                while i < take
                    invariant
                        i <= take <= chunk@.len(),
                        buffer@ == before + chunk@.subrange(0, i as int),
                    decreases take - i,
                {
                    buffer.push(chunk[i]);
                    i += 1;
                }
                assert(chunk@.subrange(0, take as int) =~= capped(chunk@));
                if take > 0 && reads + 1 < MAX_READS {
                    self.exchange = Exchange::Receiving(buffer, reads + 1);
                    Ok(Action::Read { max_len: READ_CHUNK })
                } else {
                    match Ssm2::read_packet(buffer.as_slice()) {
                        Ok(packet) => Ok(Action::Done(packet)),
                        Err(e) => Err(e),
                    }
                }
            },
            other => {
                self.exchange = other;
                self.pending()
            },
        }
    }

    /// Reads the response out of the bytes that an exchange has taken in: the
    /// first response packet among them, framing included.
    pub fn read_packet(buffer: &[u8]) -> (res: Result<Vec<u8>, Ssm2Error>)
        ensures
            res matches Ok(packet) ==> response_in(buffer@) == Ok::<Seq<u8>, Ssm2Error>(packet@),
            res matches Err(e) ==> response_in(buffer@) == Err::<Seq<u8>, Ssm2Error>(e),
    {
        match Ssm2::find_valid_packet(buffer) {
            Some((start, len)) => {
                assert(start + len <= buffer.len());
                Ok(slice_to_vec(slice_subrange(buffer, start, start + len)))
            },
            None => Err(Ssm2Error::MalformedResponse),
        }
    }
}

/// The request packet for a payload that fits a packet and does not begin with
/// a write command is a safe request.
pub proof fn lemma_request_is_safe(payload: Seq<u8>)
    requires
        1 <= payload.len() <= MAX_PAYLOAD,
        !is_write_command(payload[0]),
    ensures
        is_safe_request(request_packet(payload)),
{
    let request = request_packet(payload);
    lemma_frame_layout(ECU_BYTE, TOOL_BYTE, payload);
    assert(request.subrange(4, request.len() - 1) =~= payload);
}

/// The response that an exchange ends with is a well-formed response packet:
/// the packet that carries its payload from the control unit to the tool, as
/// long as its length byte says, and closed by its checksum.
pub proof fn lemma_response_is_well_formed(buffer: Seq<u8>)
    ensures
        response_in(buffer) matches Ok(packet) ==> {
            &&& FRAMING_LEN <= packet.len() <= MAX_PAYLOAD + FRAMING_LEN
            &&& packet.len() == packet[NUM_I as int] + FRAMING_LEN
            &&& packet == response_packet(packet.subrange(4, packet.len() - 1))
            &&& packet.last() == checksum(packet.drop_last())
        },
{
    if let Some((start, len)) = first_packet(buffer) {
        if exists|i: int| is_candidate(buffer, i) {
            let witness = choose|i: int| is_candidate(buffer, i);
            lemma_first_packet_exists(buffer, witness);
        }
        assert(is_candidate(buffer, start));
        let packet = buffer.subrange(start, start + len);
        let payload = packet.subrange(4, packet.len() - 1);
        assert(packet.drop_last() =~= buffer.subrange(start, start + len - 1));
        assert(packet.drop_last() =~= seq![HEADER_BYTE, TOOL_BYTE, ECU_BYTE, payload.len() as u8]
            + payload);
        assert(packet =~= packet.drop_last().push(packet.last()));
    }
}

/// The request that reads a parameter, as it goes over the line. For a single
/// address it carries the single-read command and five payload bytes: the
/// command, a zero and the three bytes of the address. For a block it carries
/// the block-read command and a sixth payload byte, the distance from the first
/// address to the last.
pub proof fn lemma_read_request_packet(param: EcuParam)
    ensures
        is_safe_request(request_packet(param.read_payload())),
        request_packet(param.read_payload()).subrange(4, 4 + param.read_payload().len() as int)
            == param.read_payload(),
        request_packet(param.read_payload())[5] == 0,
        addr_of_bytes(request_packet(param.read_payload()).subrange(6, 9))
            == param.table().addr,
        param.table().addr_end is None ==> {
            &&& request_packet(param.read_payload()).len() == 5 + FRAMING_LEN
            &&& request_packet(param.read_payload())[NUM_I as int] == 5
            &&& request_packet(param.read_payload())[4] == CMD_READ_SINGLE
        },
        param.table().addr_end matches Some(end) ==> {
            &&& request_packet(param.read_payload()).len() == 6 + FRAMING_LEN
            &&& request_packet(param.read_payload())[NUM_I as int] == 6
            &&& request_packet(param.read_payload())[4] == CMD_READ_BLOCK
            &&& request_packet(param.read_payload())[9] == end - param.table().addr
        },
{
    let payload = param.read_payload();
    let request = request_packet(payload);
    lemma_read_payload_shape(param);
    lemma_frame_layout(ECU_BYTE, TOOL_BYTE, payload);
    lemma_request_is_safe(payload);
    assert(request.subrange(6, 9) =~= payload.subrange(2, 5));
}

/// Every step leads from a state that a client can reach to another such
/// state.
pub proof fn lemma_steps_keep_wf(s: State, ok: bool, payload: Seq<u8>, chunk: Seq<u8>)
    requires
        s.wf(),
    ensures
        s.after_acquired(ok).wf(),
        s.after_sent().wf(),
        s.after_received(chunk).wf(),
        1 <= payload.len() <= MAX_PAYLOAD && !is_write_command(payload[0]) ==> s.after_request(
            payload,
        ).wf(),
{
    if 1 <= payload.len() <= MAX_PAYLOAD && !is_write_command(payload[0]) {
        lemma_request_is_safe(payload);
    }
}

/// Whatever a reachable state has the driver write is a request that does not
/// write to the control unit.
pub proof fn lemma_writes_are_safe(s: State, bytes: Seq<u8>)
    requires
        s.wf(),
        s.owed() == Ok::<Step, Ssm2Error>(Step::Write(bytes)),
    ensures
        is_safe_request(bytes),
        !is_write_command(bytes[4]),
{
}

/// A closed client refuses every request: the answer is that it is not open,
/// nothing is to be written, and it stays closed.
pub proof fn lemma_closed_refuses(payload: Seq<u8>)
    ensures
        State::Closed.request_reply(payload) == Err::<Step, Ssm2Error>(Ssm2Error::NotOpen),
        State::Closed.after_request(payload) == State::Closed,
        State::Closed.owed() == Err::<Step, Ssm2Error>(Ssm2Error::NotOpen),
{
}

/// Opening an open client succeeds and asks for no second transport: once the
/// transport is acquired, `open` has nothing for the driver to do, and a
/// further report of an acquisition, whatever its outcome, succeeds and changes
/// nothing.
pub proof fn lemma_reopen_acquires_nothing(s: State, ok: bool)
    ensures
        s.after_acquired(true).is_open(),
        s.after_acquired(true).open_step() == Step::Idle,
        s.is_open() ==> s.open_step() == Step::Idle && s.after_acquired(ok) == s
            && s.acquired_reply(ok) == Ok::<(), Ssm2Error>(()),
{
}

/// The state of an exchange that begins to read and is then brought these
/// chunks, one read after the other.
pub open spec fn after_reads(chunks: Seq<Seq<u8>>) -> State
    decreases chunks.len(),
{
    if chunks.len() == 0 {
        State::Receiving(Seq::empty(), 0)
    } else {
        after_reads(chunks.drop_last()).after_received(chunks.last())
    }
}

/// An exchange begins to read once its request is written, whatever the open
/// client was doing when the request was asked for.
pub proof fn lemma_exchange_begins(s: State, payload: Seq<u8>)
    requires
        s.is_open(),
    ensures
        s.after_request(payload).owed() == Ok::<Step, Ssm2Error>(
            Step::Write(request_packet(payload)),
        ),
        s.after_request(payload).after_sent() == after_reads(Seq::empty()),
{
}

/// The bytes that an exchange takes in from these chunks: of each chunk what
/// one read takes, in order.
pub open spec fn taken_in(chunks: Seq<Seq<u8>>) -> Seq<u8>
    decreases chunks.len(),
{
    if chunks.len() == 0 {
        Seq::empty()
    } else {
        taken_in(chunks.drop_last()) + capped(chunks.last())
    }
}

/// Whether every one of these reads brought at least one byte.
pub open spec fn all_bring_bytes(chunks: Seq<Seq<u8>>) -> bool {
    forall|i: int| 0 <= i < chunks.len() ==> (#[trigger] chunks[i]).len() > 0
}

/// An exchange reads for as long as its reads bring bytes, and for fewer
/// reads than the budget allows. While it reads it holds what the reads
/// brought, a chunk's worth of each at most; after a read that brought nothing,
/// or after the last read of the budget, it is over, and stays so whatever is
/// brought then.
pub proof fn lemma_read_budget(chunks: Seq<Seq<u8>>)
    ensures
        after_reads(chunks) == if chunks.len() < MAX_READS && all_bring_bytes(chunks) {
            State::Receiving(taken_in(chunks), chunks.len())
        } else {
            State::Ready
        },
        taken_in(chunks).len() <= chunks.len() * READ_CHUNK,
    decreases chunks.len(),
{
    if chunks.len() > 0 {
        let head = chunks.drop_last();
        lemma_read_budget(head);
        assert forall|i: int| 0 <= i < head.len() implies head[i] == chunks[i] by {}
        if all_bring_bytes(chunks) {
            assert(all_bring_bytes(head));
            assert(chunks[chunks.len() - 1].len() > 0);
        }
        if all_bring_bytes(head) && chunks.last().len() > 0 {
            assert(all_bring_bytes(chunks));
        }
    }
}

/// The read that ends an exchange is answered with the verdict on all that the
/// exchange has taken in: the first response packet among those bytes, or the
/// one failure that stands for every way in which none was found.
pub proof fn lemma_last_read_gives_verdict(chunks: Seq<Seq<u8>>, last: Seq<u8>)
    requires
        chunks.len() < MAX_READS,
        all_bring_bytes(chunks),
        last.len() == 0 || chunks.len() + 1 == MAX_READS,
    ensures
        after_reads(chunks).received_reply(last) == verdict(taken_in(chunks.push(last))),
        after_reads(chunks.push(last)) == State::Ready,
{
    lemma_read_budget(chunks);
    assert(chunks.push(last).drop_last() =~= chunks);
}

} // verus!
