//! The protocol between a pigeon and a roost: the preface that opens a stream, and
//! what a roost does with an incoming connection.
use vstd::prelude::*;

use crate::text;
use crate::text_laws;

verus! {

/// The protocol name that endpoints agree on: `/pigeons/1`.
pub const ALPN: [u8; 10] = [47, 112, 105, 103, 101, 111, 110, 115, 47, 49];

/// The bytes that open every stream.
pub const STREAM_PREFACE: [u8; 1] = [0];

/// The number of bytes that open every stream.
pub const STREAM_PREFACE_LEN: usize = 1;

/// Why a stream is not one of pigeons.
#[derive(Debug, Clone, Copy, PartialEq, Eq, Structural)]
pub enum PrefaceError {
    /// The stream ended before the preface did.
    UnexpectedEof,
    /// The stream does not begin with the preface.
    InvalidData,
}

impl PrefaceError {
    /// The error in words.
    pub open spec fn words(self) -> Seq<char> {
        match self {
            PrefaceError::UnexpectedEof => "early eof"@,
            PrefaceError::InvalidData => "invalid pigeons stream preface"@,
        }
    }

    /// The error in words.
    pub fn message(&self) -> (r: String)
        ensures
            r@ == self.words(),
    {
        match self {
            PrefaceError::UnexpectedEof => "early eof".to_owned(),
            PrefaceError::InvalidData => "invalid pigeons stream preface".to_owned(),
        }
    }
}

/// The preface of every stream: one zero byte.
pub open spec fn preface() -> Seq<u8> {
    seq![0u8]
}

/// Whether the bytes of a stream begin with the preface, and why not if they do
/// not.
pub open spec fn preface_of(stream: Seq<u8>) -> Result<nat, PrefaceError> {
    if stream.len() < preface().len() {
        Err(PrefaceError::UnexpectedEof)
    } else if stream.take(preface().len() as int) != preface() {
        Err(PrefaceError::InvalidData)
    } else {
        Ok(preface().len())
    }
}

/// Reads the preface off the bytes of a stream: the number of bytes that it takes
/// up, after which the payload begins.
pub fn read_stream_preface(stream: &[u8]) -> (r: Result<usize, PrefaceError>)
    ensures
        match preface_of(stream@) {
            Ok(n) => r matches Ok(m) && m == n,
            Err(e) => r == Err::<usize, PrefaceError>(e),
        },
{
    if stream.len() < STREAM_PREFACE_LEN {
        return Err(PrefaceError::UnexpectedEof);
    }
    if stream[0] != STREAM_PREFACE[0] {
        assert(stream@.take(1)[0] != preface()[0]);
        return Err(PrefaceError::InvalidData);
    }
    assert(stream@.take(1) =~= preface());
    Ok(STREAM_PREFACE_LEN)
}

/// The address of the local ssh server.
pub open spec fn ssh_addr(port: u16) -> Seq<char> {
    "127.0.0.1:"@ + text::decimal(port as nat)
}

/// The address of the local ssh server on a port.
pub fn local_ssh_addr(port: u16) -> (r: String)
    ensures
        r@ == ssh_addr(port),
{
    let mut r: String = "127.0.0.1:".to_owned();
    text::push_decimal(&mut r, port as u64);
    r
}

/// Why a roost cannot be built: nothing listens on the port of the ssh server.
pub fn no_ssh_server(port: u16) -> (r: String)
    ensures
        r@ == "no sshd detected on port "@ + text::decimal(port as nat)
            + ". Make sure sshd is running before sending pigeons to this roost"@,
{
    let mut r: String = "no sshd detected on port ".to_owned();
    text::push_decimal(&mut r, port as u64);
    r.concat(". Make sure sshd is running before sending pigeons to this roost")
}

// ---------------------------------------------------------------------------
// An incoming connection
// ---------------------------------------------------------------------------

/// A roost, which forwards incoming connections to a local ssh server.
#[derive(Debug)]
pub struct PigeonsProtocol {
    pub ssh_port: u16,
}

/// What has happened to an incoming connection.
#[derive(Debug)]
pub enum AcceptEvent {
    /// Whether the pigeon has opened a stream.
    StreamOpened(bool),
    /// The bytes that were read for the preface, if reading did not fail.
    PrefaceRead(Option<Vec<u8>>),
    /// Whether the local ssh server was reached.
    SshConnected(bool),
    /// Whether both directions were copied to their ends without an error.
    CopyEnded(bool),
    /// Whether the pigeon has acknowledged the end of the stream.
    StreamStopped(bool),
}

/// What a roost does next with an incoming connection.
#[derive(Debug)]
pub enum AcceptAction {
    /// Read this many bytes of the stream.
    ReadPreface(usize),
    /// Connect to the ssh server at this address.
    ConnectSsh(String),
    /// Copy both directions to their ends.
    CopyBoth,
    /// Wait until the pigeon acknowledges the end of the stream.
    AwaitStop,
    /// Be done with the connection.
    Finish,
}

impl PigeonsProtocol {
    /// A roost that forwards incoming connections to the ssh server on a port.
    pub fn new(ssh_port: u16) -> (r: PigeonsProtocol)
        ensures
            r.ssh_port == ssh_port,
    {
        PigeonsProtocol { ssh_port }
    }

    /// The address of the ssh server that the roost delivers to.
    pub open spec fn target(&self) -> Seq<char> {
        ssh_addr(self.ssh_port)
    }

    /// What the roost does next with an incoming connection: it reads the preface,
    /// and only where that is the right one it reaches for the ssh server, copies
    /// until both directions have ended, and waits for the acknowledgement. After
    /// any failure but one of copying it is done; a failure is never an error of
    /// the roost.
    pub fn accept(&self, event: AcceptEvent) -> (r: AcceptAction)
        ensures
            match event {
                AcceptEvent::StreamOpened(true) => r == AcceptAction::ReadPreface(
                    STREAM_PREFACE_LEN,
                ),
                AcceptEvent::PrefaceRead(Some(bytes)) => if preface_of(bytes@) is Ok {
                    r matches AcceptAction::ConnectSsh(addr) && addr@ == ssh_addr(self.ssh_port)
                } else {
                    r == AcceptAction::Finish
                },
                AcceptEvent::SshConnected(true) => r == AcceptAction::CopyBoth,
                AcceptEvent::CopyEnded(_) => r == AcceptAction::AwaitStop,
                _ => r == AcceptAction::Finish,
            },
            self.called_for(event) == r.kind(),
            r matches AcceptAction::ConnectSsh(addr) ==> addr@ == self.target(),
    {
        match event {
            AcceptEvent::StreamOpened(opened) => {
                if opened {
                    AcceptAction::ReadPreface(STREAM_PREFACE_LEN)
                } else {
                    AcceptAction::Finish
                }
            },
            AcceptEvent::PrefaceRead(Some(bytes)) => {
                match read_stream_preface(bytes.as_slice()) {
                    Ok(_) => AcceptAction::ConnectSsh(local_ssh_addr(self.ssh_port)),
                    Err(_) => AcceptAction::Finish,
                }
            },
            AcceptEvent::PrefaceRead(None) => AcceptAction::Finish,
            AcceptEvent::SshConnected(connected) => {
                if connected {
                    AcceptAction::CopyBoth
                } else {
                    AcceptAction::Finish
                }
            },
            AcceptEvent::CopyEnded(_) => AcceptAction::AwaitStop,
            AcceptEvent::StreamStopped(_) => AcceptAction::Finish,
        }
    }

    /// The kind of action that an event calls for.
    pub open spec fn called_for(&self, event: AcceptEvent) -> AcceptStage {
        match event {
            AcceptEvent::StreamOpened(true) => AcceptStage::Preface,
            AcceptEvent::PrefaceRead(Some(bytes)) => if preface_of(bytes@) is Ok {
                AcceptStage::Ssh
            } else {
                AcceptStage::Done
            },
            AcceptEvent::SshConnected(true) => AcceptStage::Copy,
            AcceptEvent::CopyEnded(_) => AcceptStage::Stop,
            _ => AcceptStage::Done,
        }
    }

    /// Whether event `i` answers the action that the one before it called for.
    pub open spec fn is_answer(&self, events: Seq<AcceptEvent>, i: int) -> bool {
        answers(
            if i == 0 {
                AcceptStage::Opening
            } else {
                self.called_for(events[i - 1])
            },
            events[i],
        )
    }

    /// Whether the events are those of one connection: each answers the action
    /// that the one before called for.
    pub open spec fn is_session(&self, events: Seq<AcceptEvent>) -> bool {
        forall|i: int| 0 <= i < events.len() ==> #[trigger] self.is_answer(events, i)
    }

    /// The ssh server is reached for, and bytes are copied, only after the pigeon
    /// has sent the preface. A connection takes at most five events.
    pub proof fn only_pigeons_reach_ssh(&self, events: Seq<AcceptEvent>, i: int)
        requires
            self.is_session(events),
            0 <= i < events.len(),
        ensures
            events.len() <= 5,
            events[i] is SshConnected || events[i] is CopyEnded ==> {
                &&& i >= 2
                &&& events[1] matches AcceptEvent::PrefaceRead(Some(bytes))
                &&& preface_of(bytes@) is Ok
            },
            events[i] is CopyEnded ==> i == 3 && events[2] == AcceptEvent::SshConnected(true),
    {
        assert(self.is_answer(events, 0));
        if events.len() > 1 {
            assert(self.is_answer(events, 1));
        }
        if events.len() > 2 {
            assert(self.is_answer(events, 2));
        }
        if events.len() > 3 {
            assert(self.is_answer(events, 3));
        }
        if events.len() > 4 {
            assert(self.is_answer(events, 4));
        }
        if events.len() > 5 {
            assert(self.is_answer(events, 5));
        }
    }
}

/// The kinds of action, and the opening of a connection before the first one.
pub enum AcceptStage {
    Opening,
    Preface,
    Ssh,
    Copy,
    Stop,
    Done,
}

impl AcceptAction {
    /// The kind of an action.
    pub open spec fn kind(self) -> AcceptStage {
        match self {
            AcceptAction::ReadPreface(_) => AcceptStage::Preface,
            AcceptAction::ConnectSsh(_) => AcceptStage::Ssh,
            AcceptAction::CopyBoth => AcceptStage::Copy,
            AcceptAction::AwaitStop => AcceptStage::Stop,
            AcceptAction::Finish => AcceptStage::Done,
        }
    }
}

/// Whether an event is an answer to a kind of action.
pub open spec fn answers(stage: AcceptStage, event: AcceptEvent) -> bool {
    match stage {
        AcceptStage::Opening => event is StreamOpened,
        AcceptStage::Preface => event is PrefaceRead,
        AcceptStage::Ssh => event is SshConnected,
        AcceptStage::Copy => event is CopyEnded,
        AcceptStage::Stop => event is StreamStopped,
        AcceptStage::Done => false,
    }
}

/// A stream that begins with the preface is accepted whatever follows, and what
/// follows is its payload.
pub proof fn preface_is_consumed(payload: Seq<u8>)
    ensures
        preface_of(preface() + payload) == Ok::<nat, PrefaceError>(preface().len()),
        (preface() + payload).skip(preface().len() as int) == payload,
{
    let stream = preface() + payload;
    assert(stream.take(1) =~= preface());
    assert(stream.skip(1) =~= payload);
}

/// A stream is one of pigeons exactly where its first byte is there and is zero,
/// and just that byte is taken off it. Any other first byte is no preface, and a
/// stream without one has ended too early.
pub proof fn streams_of_pigeons_begin_with_a_zero(stream: Seq<u8>)
    ensures
        preface_of(stream) is Ok <==> stream.len() > 0 && stream[0] == 0,
        preface_of(stream) is Ok ==> preface_of(stream)->Ok_0 == 1,
        preface_of(stream) == Err::<nat, PrefaceError>(PrefaceError::UnexpectedEof)
            <==> stream.len() == 0,
        preface_of(stream) == Err::<nat, PrefaceError>(PrefaceError::InvalidData) <==> stream.len()
            > 0 && stream[0] != 0,
        STREAM_PREFACE@ == preface(),
        STREAM_PREFACE_LEN == preface().len(),
{
    assert(STREAM_PREFACE@ =~= preface());
    if stream.len() > 0 {
        assert(stream.take(1)[0] == stream[0]);
        if stream[0] == 0 {
            assert(stream.take(1) =~= preface());
        }
    }
}

/// The ssh server is reached on this machine, on its own port: the port can be read
/// off the address.
pub proof fn the_address_names_the_port(port: u16)
    ensures
        text::starts_with(ssh_addr(port), "127.0.0.1:"@),
        text_laws::value(ssh_addr(port).skip("127.0.0.1:"@.len() as int)) == port,
{
    let head = "127.0.0.1:"@;
    text_laws::prefixes_come_first(head, head, text::decimal(port as nat));
    text_laws::decimal_notation_reads_back(port as nat);
    assert(ssh_addr(port).skip(head.len() as int) =~= text::decimal(port as nat));
}

impl PigeonsProtocol {
    /// A pigeon is delivered: once it has opened a stream, its preface is read; a
    /// preface that begins with a zero leads to the ssh server, that to copying, and
    /// the end of copying to the wait for the acknowledgement.
    pub proof fn pigeons_are_delivered(&self, first: u8, rest: Seq<u8>, bytes: Vec<u8>, clean: bool)
        requires
            bytes@ == seq![first] + rest,
        ensures
            self.called_for(AcceptEvent::StreamOpened(true)) is Preface,
            first == 0 ==> self.called_for(AcceptEvent::PrefaceRead(Some(bytes))) is Ssh,
            first != 0 ==> self.called_for(AcceptEvent::PrefaceRead(Some(bytes))) is Done,
            self.called_for(AcceptEvent::SshConnected(true)) is Copy,
            self.called_for(AcceptEvent::CopyEnded(clean)) is Stop,
    {
        streams_of_pigeons_begin_with_a_zero(bytes@);
    }

    /// A roost delivers to the ssh server on its own port, on this machine.
    pub proof fn pigeons_go_to_the_port_of_the_roost(&self)
        ensures
            text::starts_with(self.target(), "127.0.0.1:"@),
            text_laws::value(self.target().skip("127.0.0.1:"@.len() as int)) == self.ssh_port,
    {
        the_address_names_the_port(self.ssh_port);
    }

    /// Whatever fails before the copying, the roost is done with the connection, and
    /// so it is once the acknowledgement came or failed.
    pub proof fn failures_end_a_connection(&self, acknowledged: bool)
        ensures
            self.called_for(AcceptEvent::StreamOpened(false)) is Done,
            self.called_for(AcceptEvent::PrefaceRead(None)) is Done,
            self.called_for(AcceptEvent::SshConnected(false)) is Done,
            self.called_for(AcceptEvent::StreamStopped(acknowledged)) is Done,
    {
    }
}

} // verus!
