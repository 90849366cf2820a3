//! The wire format of block exchange.
//!
//! A request is the binary form of a CID, and a response a tag, followed by the block where
//! there is one. Byte strings carry their length in front, in four bytes, the highest first.

use crate::util::{decimal, u64_to_text};
use vstd::prelude::*;
use vstd::string::*;

verus! {

/// The protocol of block exchange.
#[derive(Debug, Clone, Copy)]
pub struct BlockExchangeProtocol;

impl BlockExchangeProtocol {
    /// The name under which peers agree on the protocol.
    pub fn as_ref(&self) -> (res: &'static str)
        ensures
            res@ == "/deilephila/block-exchange/1.0.0"@,
    {
        "/deilephila/block-exchange/1.0.0"
    }
}

/// A request for a block.
#[derive(Debug, Clone)]
pub struct WantBlock {
    /// The binary form of the block's CID.
    pub cid_bytes: Vec<u8>,
}

/// The answer to a request for a block.
#[derive(Debug, Clone)]
pub enum BlockResponse {
    Found { data: Vec<u8> },
    NotFound,
}

/// The longest CID that a request may hold.
pub const MAX_REQUEST_LEN: u32 = 256;

/// The longest block that a response may hold.
pub const MAX_RESPONSE_LEN: u32 = 1_048_576;

/// The codec of block exchange.
#[derive(Debug, Clone, Copy)]
pub struct BlockExchangeCodec;

impl Default for BlockExchangeCodec {
    fn default() -> (res: Self)
        ensures
            res == BlockExchangeCodec,
    {
        BlockExchangeCodec
    }
}

/// Why a message could not be read.
#[derive(Debug, Clone, Copy, PartialEq, Eq, Structural)]
pub enum FrameError {
    /// The bytes end before the message does.
    UnexpectedEof,
    /// The length in front is more than is accepted.
    LengthExceeded { len: u32, max: u32 },
    /// The response has a tag that means nothing.
    UnknownTag,
}

impl FrameError {
    /// The message of the error.
    pub fn to_string(&self) -> (res: String)
        ensures
            res@ == match *self {
                FrameError::UnexpectedEof => "unexpected end of file"@,
                FrameError::LengthExceeded { len, max } => "length prefix "@ + decimal(len as nat)
                    + " exceeds limit "@ + decimal(max as nat),
                FrameError::UnknownTag => "unknown tag"@,
            },
    {
        match self {
            FrameError::UnexpectedEof => "unexpected end of file".to_owned(),
            FrameError::LengthExceeded { len, max } => {
                let s = "length prefix ".to_owned();
                let s = s.concat(u64_to_text(*len as u64).as_str());
                let s = s.concat(" exceeds limit ");
                s.concat(u64_to_text(*max as u64).as_str())
            },
            FrameError::UnknownTag => "unknown tag".to_owned(),
        }
    }
}

// ---------------------------------------------------------------------------
// Lengths
// ---------------------------------------------------------------------------

/// The number that four bytes stand for, the highest first.
pub open spec fn be_number(bytes: Seq<u8>) -> int {
    bytes[0] * 0x100_0000 + bytes[1] * 0x1_0000 + bytes[2] * 0x100 + bytes[3]
}

/// The four bytes of a number, the highest first.
pub open spec fn be_bytes(n: u32) -> Seq<u8> {
    seq![
        (n / 0x100_0000) as u8,
        ((n / 0x1_0000) % 0x100) as u8,
        ((n / 0x100) % 0x100) as u8,
        (n % 0x100) as u8,
    ]
}

/// Four bytes written for a number are read as that number.
pub proof fn be_roundtrip(n: u32)
    ensures
        be_number(be_bytes(n)) == n,
        be_bytes(n).len() == 4,
{
    let a = n / 0x100_0000;
    let b = (n / 0x1_0000) % 0x100;
    let c = (n / 0x100) % 0x100;
    let d = n % 0x100;
    assert(a < 0x100 && b < 0x100 && c < 0x100 && d < 0x100);
    assert(n / 0x1_0000 == a * 0x100 + b);
    assert(n / 0x100 == (n / 0x1_0000) * 0x100 + c);
    assert(n == (n / 0x100) * 0x100 + d);
}

/// Reads the length in front of a byte string; one above `max` is refused before anything
/// more is read.
pub fn decode_length(prefix: &[u8; 4], max: u32) -> (res: Result<u32, FrameError>)
    ensures
        match res {
            Ok(len) => len == be_number(prefix@) && len <= max,
            Err(FrameError::LengthExceeded { len, max: m }) => len == be_number(prefix@) && m == max
                && len > max,
            Err(_) => false,
        },
{
    let len: u32 = prefix[0] as u32 * 0x100_0000 + prefix[1] as u32 * 0x1_0000 + prefix[2] as u32
        * 0x100 + prefix[3] as u32;
    if len > max {
        Err(FrameError::LengthExceeded { len, max })
    } else {
        Ok(len)
    }
}

/// Writes the length in front of a byte string.
pub fn encode_length(len: u32) -> (res: [u8; 4])
    ensures
        res@ == be_bytes(len),
{
    let res = [
        (len / 0x100_0000) as u8,
        ((len / 0x1_0000) % 0x100) as u8,
        ((len / 0x100) % 0x100) as u8,
        (len % 0x100) as u8,
    ];
    assert(res@ =~= be_bytes(len));
    res
}

// ---------------------------------------------------------------------------
// Messages
// ---------------------------------------------------------------------------

/// A byte string with its length in front.
pub open spec fn framed(bytes: Seq<u8>) -> Seq<u8> {
    be_bytes(bytes.len() as u32) + bytes
}

/// The byte string at the front of `bytes` that carries its length; what stands behind it is
/// left alone.
pub open spec fn unframed(bytes: Seq<u8>, max: u32) -> Result<Seq<u8>, FrameError> {
    if bytes.len() < 4 {
        Err(FrameError::UnexpectedEof)
    } else {
        let len = be_number(bytes.take(4));
        if len > max {
            Err(FrameError::LengthExceeded { len: len as u32, max })
        } else if bytes.len() < 4 + len {
            Err(FrameError::UnexpectedEof)
        } else {
            Ok(bytes.subrange(4, 4 + len))
        }
    }
}

/// A byte string within the limit that is written with its length is read back.
pub proof fn framed_roundtrip(bytes: Seq<u8>, max: u32)
    requires
        bytes.len() <= max,
    ensures
        unframed(framed(bytes), max) == Ok::<Seq<u8>, FrameError>(bytes),
{
    be_roundtrip(bytes.len() as u32);
    assert(framed(bytes).take(4) =~= be_bytes(bytes.len() as u32));
    assert(framed(bytes).subrange(4, 4 + bytes.len() as int) =~= bytes);
}

/// The model of a response.
pub open spec fn response_data(resp: BlockResponse) -> Option<Seq<u8>> {
    match resp {
        BlockResponse::Found { data } => Some(data@),
        BlockResponse::NotFound => None,
    }
}

/// The bytes of a response.
pub open spec fn response_bytes(data: Option<Seq<u8>>) -> Seq<u8> {
    match data {
        Some(d) => seq![1u8] + framed(d),
        None => seq![0u8],
    }
}

/// The response at the front of `bytes`.
pub open spec fn response_of_bytes(bytes: Seq<u8>) -> Result<Option<Seq<u8>>, FrameError> {
    if bytes.len() == 0 {
        Err(FrameError::UnexpectedEof)
    } else if bytes[0] == 0 {
        Ok(None)
    } else if bytes[0] == 1 {
        match unframed(bytes.skip(1), MAX_RESPONSE_LEN) {
            Ok(d) => Ok(Some(d)),
            Err(e) => Err(e),
        }
    } else {
        Err(FrameError::UnknownTag)
    }
}

/// A response within the limit that is written is read back.
pub proof fn response_roundtrip(data: Option<Seq<u8>>)
    requires
        data matches Some(d) ==> d.len() <= MAX_RESPONSE_LEN,
    ensures
        response_of_bytes(response_bytes(data)) == Ok::<Option<Seq<u8>>, FrameError>(data),
{
    if let Some(d) = data {
        framed_roundtrip(d, MAX_RESPONSE_LEN);
        assert(response_bytes(data).skip(1) =~= framed(d));
    }
}

fn append_framed(out: &mut Vec<u8>, bytes: &[u8])
    requires
        bytes@.len() <= u32::MAX,
    ensures
        final(out)@ == old(out)@ + framed(bytes@),
{
    let ghost start = out@;
    let prefix = encode_length(bytes.len() as u32);
    out.extend_from_slice(prefix.as_slice());
    out.extend_from_slice(bytes);
    assert(out@ =~= start + framed(bytes@));
}

fn read_framed(bytes: &[u8], start: usize, max: u32) -> (res: Result<Vec<u8>, FrameError>)
    requires
        start <= bytes@.len(),
    ensures
        match res {
            Ok(d) => unframed(bytes@.skip(start as int), max) == Ok::<Seq<u8>, FrameError>(d@),
            Err(e) => unframed(bytes@.skip(start as int), max) == Err::<Seq<u8>, FrameError>(e),
        },
{
    let ghost rest = bytes@.skip(start as int);
    if bytes.len() - start < 4 {
        return Err(FrameError::UnexpectedEof);
    }
    let prefix: [u8; 4] = [bytes[start], bytes[start + 1], bytes[start + 2], bytes[start + 3]];
    assert(prefix@ =~= rest.take(4));
    let len = match decode_length(&prefix, max) {
        Ok(len) => len,
        Err(e) => return Err(e),
    };
    if ((bytes.len() - start - 4) as u64) < len as u64 {
        return Err(FrameError::UnexpectedEof);
    }
    let from: usize = start + 4;
    let n: usize = len as usize;
    let mut out: Vec<u8> = Vec::new();
    let mut i: usize = 0;
    while i < n
        invariant
            i <= n,
            from + n <= bytes@.len(),
            bytes@.len() <= usize::MAX,
            out@ =~= bytes@.subrange(from as int, from + i),
        decreases n - i,
    {
        out.push(bytes[from + i]);
        i += 1;
    }
    assert(out@ =~= rest.subrange(4, 4 + len as int));
    Ok(out)
}

impl BlockExchangeCodec {
    /// Writes a request.
    pub fn write_request(&self, req: &WantBlock) -> (res: Vec<u8>)
        requires
            req.cid_bytes@.len() <= u32::MAX,
        ensures
            res@ == framed(req.cid_bytes@),
    {
        let mut out: Vec<u8> = Vec::new();
        append_framed(&mut out, req.cid_bytes.as_slice());
        assert(out@ =~= framed(req.cid_bytes@));
        out
    }

    /// Reads a request.
    pub fn read_request(&self, bytes: &[u8]) -> (res: Result<WantBlock, FrameError>)
        ensures
            match res {
                Ok(req) => unframed(bytes@, MAX_REQUEST_LEN) == Ok::<Seq<u8>, FrameError>(
                    req.cid_bytes@,
                ),
                Err(e) => unframed(bytes@, MAX_REQUEST_LEN) == Err::<Seq<u8>, FrameError>(e),
            },
    {
        assert(bytes@.skip(0) =~= bytes@);
        match read_framed(bytes, 0, MAX_REQUEST_LEN) {
            Ok(cid_bytes) => Ok(WantBlock { cid_bytes }),
            Err(e) => Err(e),
        }
    }

    /// Writes a response.
    pub fn write_response(&self, resp: &BlockResponse) -> (res: Vec<u8>)
        requires
            response_data(*resp) matches Some(d) ==> d.len() <= u32::MAX,
        ensures
            res@ == response_bytes(response_data(*resp)),
    {
        let mut out: Vec<u8> = Vec::new();
        match resp {
            BlockResponse::NotFound => {
                out.push(0);
            },
            BlockResponse::Found { data } => {
                out.push(1);
                append_framed(&mut out, data.as_slice());
            },
        }
        assert(out@ =~= response_bytes(response_data(*resp)));
        out
    }

    /// Reads a response.
    pub fn read_response(&self, bytes: &[u8]) -> (res: Result<BlockResponse, FrameError>)
        ensures
            match res {
                Ok(resp) => response_of_bytes(bytes@) == Ok::<Option<Seq<u8>>, FrameError>(
                    response_data(resp),
                ),
                Err(e) => response_of_bytes(bytes@) == Err::<Option<Seq<u8>>, FrameError>(e),
            },
    {
        if bytes.len() == 0 {
            return Err(FrameError::UnexpectedEof);
        }
        if bytes[0] == 0 {
            Ok(BlockResponse::NotFound)
        } else if bytes[0] == 1 {
            match read_framed(bytes, 1, MAX_RESPONSE_LEN) {
                Ok(data) => Ok(BlockResponse::Found { data }),
                Err(e) => Err(e),
            }
        } else {
            Err(FrameError::UnknownTag)
        }
    }
}

/// The limits of the protocol: a request holds at most 256 bytes, a response at most a mebibyte.
pub proof fn protocol_limits()
    ensures
        MAX_REQUEST_LEN == 256,
        MAX_RESPONSE_LEN == 1024 * 1024,
{
}

/// A byte string goes out behind its length in four bytes, the highest first.
pub proof fn frame_is_length_and_bytes(bytes: Seq<u8>)
    requires
        bytes.len() <= u32::MAX,
    ensures
        framed(bytes).len() == bytes.len() + 4,
        framed(bytes).skip(4) == bytes,
        bytes.len() == framed(bytes)[0] * 0x100_0000 + framed(bytes)[1] * 0x1_0000
            + framed(bytes)[2] * 0x100 + framed(bytes)[3],
{
    be_roundtrip(bytes.len() as u32);
    assert(framed(bytes).skip(4) =~= bytes);
}

/// What is read from a frame: exactly as many bytes as its length says, if that is within the
/// limit and they are there. A length above the limit is refused whatever follows it.
pub proof fn frame_is_read_by_its_length(bytes: Seq<u8>, max: u32)
    ensures
        bytes.len() < 4 ==> unframed(bytes, max) == Err::<Seq<u8>, FrameError>(
            FrameError::UnexpectedEof,
        ),
        bytes.len() >= 4 ==> {
            let len = bytes[0] * 0x100_0000 + bytes[1] * 0x1_0000 + bytes[2] * 0x100 + bytes[3];
            &&& len > max ==> unframed(bytes, max) == Err::<Seq<u8>, FrameError>(
                FrameError::LengthExceeded { len: len as u32, max },
            )
            &&& len <= max && bytes.len() < 4 + len ==> unframed(bytes, max) == Err::<
                Seq<u8>,
                FrameError,
            >(FrameError::UnexpectedEof)
            &&& len <= max && bytes.len() >= 4 + len ==> (unframed(bytes, max) matches Ok(d)
                && d.len() == len && forall|i: int| 0 <= i < len ==> #[trigger] d[i] == bytes[4 + i])
        },
{
}

/// A response begins with a 1 and then the block in a frame, or is a 0 alone.
pub proof fn response_begins_with_its_tag(data: Option<Seq<u8>>)
    ensures
        data is None ==> response_bytes(data) == seq![0u8],
        data matches Some(d) ==> response_bytes(data).len() > 0 && response_bytes(data)[0] == 1
            && response_bytes(data).skip(1) == framed(d),
{
    if let Some(d) = data {
        assert(response_bytes(data).skip(1) =~= framed(d));
    }
}

} // verus!
