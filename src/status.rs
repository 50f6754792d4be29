//! The status response: its JSON schema as plain data, the framing around
//! the JSON text, and the incremental reader that a probe feeds with each
//! chunk read from the socket.

use vstd::prelude::*;
use vstd::string::StringSliceAdditionalSpecFns;
use vstd::utf8::encode_utf8;

use crate::codec::{
    lemma_read_packet_extend, read_packet, read_packet_spec, read_string, read_string_spec,
    ParseError, STATUS_PACKET_ID,
};

verus! {

/// `version` of the status document.
#[derive(Debug, Clone)]
pub struct JsonVersion {
    pub name: String,
    pub protocol: i32,
}

/// One entry of `players.sample`.
#[derive(Debug, Clone)]
pub struct JsonPlayer {
    pub name: String,
    pub id: String,
}

/// `players` of the status document.
#[derive(Debug, Clone)]
pub struct JsonPlayers {
    pub max: u32,
    pub online: u32,
    pub sample: Option<Vec<JsonPlayer>>,
}

/// `description` of the status document.
#[derive(Debug, Clone)]
pub struct JsonDescription {
    pub text: String,
}

/// The status document a server answers with.
#[derive(Debug, Clone)]
pub struct JsonStatusResponse {
    pub version: JsonVersion,
    pub players: JsonPlayers,
    pub description: JsonDescription,
    pub favicon: Option<String>,
    pub enforces_secure_chat: bool,
    pub previews_chat: bool,
}

/// A decoded status response.
#[derive(Debug, Clone)]
pub struct StatusResponse {
    pub json_response: JsonStatusResponse,
}

/// Parsing a status response at the start of `s`: the bytes consumed and the
/// UTF-8 bytes of the JSON text. The packet must carry id 0 and a string; as
/// the packet is then complete, a string that does not decode inside it is
/// malformed.
pub open spec fn parse_status_spec(s: Seq<u8>) -> Result<(nat, Seq<u8>), ParseError> {
    match read_packet_spec(s) {
        Err(e) => Err(e),
        Ok((n, (id, data))) => {
            if id != STATUS_PACKET_ID {
                Err(ParseError::Malformed)
            } else {
                match read_string_spec(data) {
                    Err(_) => Err(ParseError::Malformed),
                    Ok((_, text)) => Ok((n, text)),
                }
            }
        },
    }
}

/// Parses the status response at the start of `buf`: the bytes it took and
/// its JSON text. `Incomplete` asks for more bytes.
pub fn parse_status_response(buf: &[u8]) -> (r: Result<(usize, &str), ParseError>)
    ensures
        match r {
            Ok((n, t)) => parse_status_spec(buf@) == Ok::<(nat, Seq<u8>), ParseError>(
                (n as nat, t.spec_bytes()),
            ),
            Err(e) => parse_status_spec(buf@) == Err::<(nat, Seq<u8>), ParseError>(e),
        },
{
    let (consumed, (id, data)) = match read_packet(buf) {
        Ok(x) => x,
        Err(e) => return Err(e),
    };
    if id != STATUS_PACKET_ID {
        return Err(ParseError::Malformed);
    }
    match read_string(data) {
        Ok((_, text)) => Ok((consumed, text)),
        Err(_) => Err(ParseError::Malformed),
    }
}

/// Parsing a growing buffer: once a prefix parses to a response or is
/// malformed, every longer buffer parses the same way. So across the
/// accumulated prefixes of a stream at most one response is ever reported,
/// and it is the one that the whole stream gives.
pub proof fn lemma_parse_status_prefix(prefix: Seq<u8>, more: Seq<u8>)
    ensures
        parse_status_spec(prefix) != Err::<(nat, Seq<u8>), ParseError>(ParseError::Incomplete)
            ==> parse_status_spec(prefix + more) == parse_status_spec(prefix),
{
    if parse_status_spec(prefix) != Err::<(nat, Seq<u8>), ParseError>(ParseError::Incomplete) {
        lemma_read_packet_extend(prefix, more);
    }
}

/// Room for the bytes of one status response.
pub const STATUS_BUFFER_CAPACITY: usize = 32768;

/// Why a status probe failed.
#[derive(Debug, Clone, Copy, PartialEq, Eq, Structural)]
pub enum PingError {
    /// The connection was not made within the deadline.
    ConnectTimeout,
    /// The connection was refused or failed.
    ConnectRefused,
    /// The server closed the connection before a full response.
    PrematureClose,
    /// The response bytes are malformed, or do not fit the buffer.
    Protocol,
    /// The JSON text does not fit the status schema.
    JsonInvalid,
}

/// What a probe does after handing the reader one chunk.
#[derive(Debug, Clone)]
pub enum ReadProgress {
    /// Read more bytes and feed them.
    NeedMore,
    /// The full response arrived: its JSON text.
    Done(String),
    /// The probe failed.
    Failed(PingError),
}

/// The bytes received so far of one status response.
pub struct StatusReader {
    buf: Vec<u8>,
}

impl View for StatusReader {
    type V = Seq<u8>;

    closed spec fn view(&self) -> Seq<u8> {
        self.buf@
    }
}

impl StatusReader {
    /// A reader that has received nothing.
    pub fn new() -> (r: Self)
        ensures
            r@ == Seq::<u8>::empty(),
    {
        StatusReader { buf: Vec::new() }
    }

    /// How many more bytes fit.
    pub fn remaining(&self) -> (r: usize)
        ensures
            r == if self@.len() >= STATUS_BUFFER_CAPACITY {
                0
            } else {
                STATUS_BUFFER_CAPACITY - self@.len()
            },
    {
        if self.buf.len() >= STATUS_BUFFER_CAPACITY {
            0
        } else {
            STATUS_BUFFER_CAPACITY - self.buf.len()
        }
    }

    /// Takes the next chunk read from the socket; an empty chunk means the
    /// server closed the connection. A chunk that does not fit is refused.
    /// Otherwise it is appended and the whole buffer is parsed again.
    pub fn feed(&mut self, chunk: &[u8]) -> (r: ReadProgress)
        ensures
            chunk@.len() == 0 ==> final(self)@ == old(self)@ && r == ReadProgress::Failed(
                PingError::PrematureClose,
            ),
            chunk@.len() > 0 && old(self)@.len() + chunk@.len() > STATUS_BUFFER_CAPACITY
                ==> final(self)@ == old(self)@ && r == ReadProgress::Failed(PingError::Protocol),
            chunk@.len() > 0 && old(self)@.len() + chunk@.len() <= STATUS_BUFFER_CAPACITY
                ==> final(self)@ == old(self)@ + chunk@ && match parse_status_spec(final(self)@) {
                Ok((_, text)) => r matches ReadProgress::Done(t) && encode_utf8(t@) == text,
                Err(ParseError::Malformed) => r == ReadProgress::Failed(PingError::Protocol),
                Err(ParseError::Incomplete) => r == if final(self)@.len()
                    == STATUS_BUFFER_CAPACITY {
                    ReadProgress::Failed(PingError::Protocol)
                } else {
                    ReadProgress::NeedMore
                },
            },
    {
        if chunk.len() == 0 {
            return ReadProgress::Failed(PingError::PrematureClose);
        }
        if self.buf.len() > STATUS_BUFFER_CAPACITY || chunk.len() > STATUS_BUFFER_CAPACITY
            - self.buf.len() {
            return ReadProgress::Failed(PingError::Protocol);
        }
        let mut i: usize = 0;
        while i < chunk.len()
            invariant
                i <= chunk@.len(),
                self.buf@ == old(self).buf@ + chunk@.take(i as int),
            decreases chunk@.len() - i,
        {
            self.buf.push(chunk[i]);
            assert(chunk@.take(i + 1) =~= chunk@.take(i as int).push(chunk@[i as int]));
            i = i + 1;
        }
        assert(chunk@.take(i as int) =~= chunk@);
        match parse_status_response(self.buf.as_slice()) {
            Ok((_, text)) => ReadProgress::Done(text.to_owned()),
            Err(ParseError::Malformed) => ReadProgress::Failed(PingError::Protocol),
            Err(ParseError::Incomplete) => {
                if self.buf.len() == STATUS_BUFFER_CAPACITY {
                    ReadProgress::Failed(PingError::Protocol)
                } else {
                    ReadProgress::NeedMore
                }
            },
        }
    }
}

} // verus!
