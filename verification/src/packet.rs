//! Wire codec: message classes, frame header and the two message directions.
//!
//! A frame is one class byte, the payload length as eight big-endian bytes,
//! and the payload. Every payload starts with the eight bytes of the request
//! id that the message belongs to.
use vstd::prelude::*;
use vstd::slice::slice_subrange;
use crate::bytes::{be_bytes, be_value, lemma_be_value_of_bytes};
use crate::bytes::{push_u64_be, read_u64_be};
use crate::error::ParseError;
use crate::text::{append_bytes, decode_text, lemma_decode_text_bytes, lossy_text, text_bytes};
use crate::{BE_BYTE, LC_READ_BYTE, LC_WRITE_BYTE, LEN_LENGTH, NONE_BYTE, SOME_BYTE};

verus! {

/// Length of the frame header: the class byte and the payload length.
pub const HEADER_LEN: usize = 9;

/// Payload length of the classes whose payload is a request id and one
/// integer.
pub const FIXED_PAYLOAD_LEN: usize = 16;

/// A closed set of message classes, each with its byte on the wire.
pub trait MessageType: Sized {
    /// The byte that stands for this class on the wire.
    spec fn tag(&self) -> u8;

    /// The class that a wire byte stands for, if any.
    spec fn of_tag(value: u8) -> Option<Self>;

    /// The payload length, where the class fixes it.
    spec fn fixed_len(&self) -> Option<usize>;

    /// A class is found again from its byte.
    proof fn lemma_of_tag(t: Self)
        ensures
            Self::of_tag(t.tag()) == Some(t),
    ;

    fn value(&self) -> (v: u8)
        ensures
            v == self.tag(),
    ;

    fn from_value(value: u8) -> (r: Result<Self, ParseError>)
        ensures
            match Self::of_tag(value) {
                Some(t) => r == Ok::<Self, ParseError>(t),
                None => r == Err::<Self, ParseError>(ParseError::InvalidMessageType(value)),
            },
    ;

    fn expected_len(&self) -> (n: Option<usize>)
        ensures
            n == self.fixed_len(),
    ;

    /// Every class, once.
    fn iterator() -> (all: Vec<Self>)
        ensures
            all@.no_duplicates(),
            forall|t: Self| all@.contains(t),
    ;
}

/// A message of one direction: it has a class and a frame.
pub trait Message: Sized {
    type Tag: MessageType;

    /// The class of the message.
    spec fn class(&self) -> Self::Tag;

    /// The complete frame of the message.
    spec fn frame(&self) -> Seq<u8>;

    /// Whether `r` is what decoding `packet` gives.
    spec fn decoded(packet: Seq<u8>, r: Result<Self, ParseError>) -> bool;

    fn kind(&self) -> (k: Self::Tag)
        ensures
            k == self.class(),
    ;

    fn serialize(&self) -> (packet: Vec<u8>)
        ensures
            packet@ == self.frame(),
    ;

    fn deserialize(packet: &[u8]) -> (r: Result<Self, ParseError>)
        ensures
            Self::decoded(packet@, r),
    ;
}

/// Class of a request.
#[derive(Clone, Copy, Debug, PartialEq, Eq, Hash, Structural)]
pub enum RequestType {
    BeRead,
    LcRead,
    LcWrite,
}

impl MessageType for RequestType {
    open spec fn tag(&self) -> u8 {
        match self {
            RequestType::BeRead => BE_BYTE,
            RequestType::LcRead => LC_READ_BYTE,
            RequestType::LcWrite => LC_WRITE_BYTE,
        }
    }

    open spec fn of_tag(value: u8) -> Option<RequestType> {
        if value == BE_BYTE {
            Some(RequestType::BeRead)
        } else if value == LC_READ_BYTE {
            Some(RequestType::LcRead)
        } else if value == LC_WRITE_BYTE {
            Some(RequestType::LcWrite)
        } else {
            None
        }
    }

    open spec fn fixed_len(&self) -> Option<usize> {
        match self {
            RequestType::BeRead => None,
            RequestType::LcRead => Some(FIXED_PAYLOAD_LEN),
            RequestType::LcWrite => None,
        }
    }

    proof fn lemma_of_tag(t: RequestType) {
    }

    fn value(&self) -> (v: u8) {
        match self {
            RequestType::BeRead => BE_BYTE,
            RequestType::LcRead => LC_READ_BYTE,
            RequestType::LcWrite => LC_WRITE_BYTE,
        }
    }

    fn from_value(value: u8) -> (r: Result<RequestType, ParseError>) {
        if value == BE_BYTE {
            Ok(RequestType::BeRead)
        } else if value == LC_READ_BYTE {
            Ok(RequestType::LcRead)
        } else if value == LC_WRITE_BYTE {
            Ok(RequestType::LcWrite)
        } else {
            Err(ParseError::InvalidMessageType(value))
        }
    }

    fn expected_len(&self) -> (n: Option<usize>) {
        match self {
            RequestType::BeRead => None,
            RequestType::LcRead => Some(FIXED_PAYLOAD_LEN),
            RequestType::LcWrite => None,
        }
    }

    fn iterator() -> (all: Vec<RequestType>)
        ensures
            all@ == seq![RequestType::BeRead, RequestType::LcRead, RequestType::LcWrite],
    {
        let mut all: Vec<RequestType> = Vec::new();
        all.push(RequestType::BeRead);
        all.push(RequestType::LcRead);
        all.push(RequestType::LcWrite);
        proof {
            let s = seq![RequestType::BeRead, RequestType::LcRead, RequestType::LcWrite];
            assert(all@ =~= s);
            assert(s[0] == RequestType::BeRead && s[1] == RequestType::LcRead && s[2]
                == RequestType::LcWrite);
            assert forall|t: RequestType| s.contains(t) by {
                match t {
                    RequestType::BeRead => assert(s[0] == t),
                    RequestType::LcRead => assert(s[1] == t),
                    RequestType::LcWrite => assert(s[2] == t),
                }
            }
        }
        all
    }
}

/// Class of a response.
#[derive(Clone, Copy, Debug, PartialEq, Eq, Hash, Structural)]
pub enum ResponseType {
    BeRead,
    LcRead,
    LcWrite,
}

impl MessageType for ResponseType {
    open spec fn tag(&self) -> u8 {
        match self {
            ResponseType::BeRead => BE_BYTE,
            ResponseType::LcRead => LC_READ_BYTE,
            ResponseType::LcWrite => LC_WRITE_BYTE,
        }
    }

    open spec fn of_tag(value: u8) -> Option<ResponseType> {
        if value == BE_BYTE {
            Some(ResponseType::BeRead)
        } else if value == LC_READ_BYTE {
            Some(ResponseType::LcRead)
        } else if value == LC_WRITE_BYTE {
            Some(ResponseType::LcWrite)
        } else {
            None
        }
    }

    open spec fn fixed_len(&self) -> Option<usize> {
        match self {
            ResponseType::BeRead => Some(FIXED_PAYLOAD_LEN),
            ResponseType::LcRead => None,
            ResponseType::LcWrite => None,
        }
    }

    proof fn lemma_of_tag(t: ResponseType) {
    }

    fn value(&self) -> (v: u8) {
        match self {
            ResponseType::BeRead => BE_BYTE,
            ResponseType::LcRead => LC_READ_BYTE,
            ResponseType::LcWrite => LC_WRITE_BYTE,
        }
    }

    fn from_value(value: u8) -> (r: Result<ResponseType, ParseError>) {
        if value == BE_BYTE {
            Ok(ResponseType::BeRead)
        } else if value == LC_READ_BYTE {
            Ok(ResponseType::LcRead)
        } else if value == LC_WRITE_BYTE {
            Ok(ResponseType::LcWrite)
        } else {
            Err(ParseError::InvalidMessageType(value))
        }
    }

    fn expected_len(&self) -> (n: Option<usize>) {
        match self {
            ResponseType::BeRead => Some(FIXED_PAYLOAD_LEN),
            ResponseType::LcRead => None,
            ResponseType::LcWrite => None,
        }
    }

    fn iterator() -> (all: Vec<ResponseType>)
        ensures
            all@ == seq![ResponseType::BeRead, ResponseType::LcRead, ResponseType::LcWrite],
    {
        let mut all: Vec<ResponseType> = Vec::new();
        all.push(ResponseType::BeRead);
        all.push(ResponseType::LcRead);
        all.push(ResponseType::LcWrite);
        proof {
            let s = seq![ResponseType::BeRead, ResponseType::LcRead, ResponseType::LcWrite];
            assert(all@ =~= s);
            assert(s[0] == ResponseType::BeRead && s[1] == ResponseType::LcRead && s[2]
                == ResponseType::LcWrite);
            assert forall|t: ResponseType| s.contains(t) by {
                match t {
                    ResponseType::BeRead => assert(s[0] == t),
                    ResponseType::LcRead => assert(s[1] == t),
                    ResponseType::LcWrite => assert(s[2] == t),
                }
            }
        }
        all
    }
}

impl ResponseType {
    /// The class of the response that answers a request of class `req`.
    pub open spec fn answering(req: RequestType) -> ResponseType {
        match req {
            RequestType::BeRead => ResponseType::BeRead,
            RequestType::LcRead => ResponseType::LcRead,
            RequestType::LcWrite => ResponseType::LcWrite,
        }
    }

    /// The class of the response that answers a request of class `req`:
    /// the one with the same wire byte.
    pub fn from_request(req: RequestType) -> (res: ResponseType)
        ensures
            res == ResponseType::answering(req),
            res.tag() == req.tag(),
    {
        match req {
            RequestType::BeRead => ResponseType::BeRead,
            RequestType::LcRead => ResponseType::LcRead,
            RequestType::LcWrite => ResponseType::LcWrite,
        }
    }
}

/// `Ok` when `len` reaches `exp`, and `PacketTooShort` otherwise.
pub fn check_length(len: usize, exp: usize) -> (r: Result<(), ParseError>)
    ensures
        len >= exp ==> r == Ok::<(), ParseError>(()),
        len < exp ==> r == Err::<(), ParseError>(ParseError::PacketTooShort),
{
    if len < exp {
        return Err(ParseError::PacketTooShort);
    }
    Ok(())
}

/// The decoded frame header.
pub struct MessageHeader<T: MessageType> {
    pub kind: T,
    pub payload_len: usize,
}

impl<T: MessageType> MessageHeader<T> {
    /// What the first nine bytes of `packet` say. The checks come in this
    /// order: enough bytes for a header, a known class, a payload length
    /// that a frame in memory can have, and the length that the class fixes.
    pub open spec fn parse(packet: Seq<u8>) -> Result<MessageHeader<T>, ParseError> {
        if packet.len() < HEADER_LEN {
            Err(ParseError::PacketTooShort)
        } else {
            match T::of_tag(packet[0]) {
                None => Err(ParseError::InvalidMessageType(packet[0])),
                Some(kind) => {
                    let declared = be_value(packet.subrange(1, HEADER_LEN as int));
                    if declared > usize::MAX {
                        Err(ParseError::PacketTooShort)
                    } else {
                        match kind.fixed_len() {
                            Some(exp_len) if exp_len != declared => Err(
                                ParseError::UnexpectedLength {
                                    payload_len: declared as usize,
                                    exp_len,
                                },
                            ),
                            _ => Ok(MessageHeader { kind, payload_len: declared as usize }),
                        }
                    }
                },
            }
        }
    }

    /// The bytes of a header for a payload of `payload_len` bytes.
    pub open spec fn bytes(kind: T, payload_len: nat) -> Seq<u8> {
        seq![kind.tag()] + be_bytes(payload_len as u64)
    }

    /// The length of every header.
    pub fn expected_len() -> (n: usize)
        ensures
            n == HEADER_LEN,
    {
        1 + LEN_LENGTH
    }

    /// The length of this header.
    pub fn len(&self) -> (n: usize)
        ensures
            n == HEADER_LEN,
    {
        1 + LEN_LENGTH
    }

    /// Decodes the header at the start of `packet`.
    pub fn deserialize(packet: &[u8]) -> (r: Result<MessageHeader<T>, ParseError>)
        ensures
            r == Self::parse(packet@),
    {
        if packet.len() < 1 + LEN_LENGTH {
            return Err(ParseError::PacketTooShort);
        }
        let kind: T = match T::from_value(packet[0]) {
            Ok(kind) => kind,
            Err(e) => {
                return Err(e);
            },
        };
        let declared: u64 = read_u64_be(packet, 1);
        if declared > usize::MAX as u64 {
            return Err(ParseError::PacketTooShort);
        }
        let payload_len: usize = declared as usize;
        if let Some(exp_len) = kind.expected_len() {
            if exp_len != payload_len {
                return Err(ParseError::UnexpectedLength { payload_len, exp_len });
            }
        }
        Ok(MessageHeader { kind, payload_len })
    }
}

/// The start of every payload: the id of the request it belongs to.
pub struct PayloadHeader {
    pub req_id: u64,
}

impl PayloadHeader {
    /// What the first eight bytes of `payload` say.
    pub open spec fn parse(payload: Seq<u8>) -> Result<PayloadHeader, ParseError> {
        if payload.len() < LEN_LENGTH {
            Err(ParseError::PacketTooShort)
        } else {
            Ok(PayloadHeader { req_id: be_value(payload.subrange(0, LEN_LENGTH as int)) })
        }
    }

    /// The length of every payload header.
    pub fn expected_len() -> (n: usize)
        ensures
            n == LEN_LENGTH,
    {
        LEN_LENGTH
    }

    /// The length of this payload header.
    pub fn len(&self) -> (n: usize)
        ensures
            n == LEN_LENGTH,
    {
        LEN_LENGTH
    }

    /// Decodes the request id at the start of `payload`.
    pub fn deserialize(payload: &[u8]) -> (r: Result<PayloadHeader, ParseError>)
        ensures
            r == PayloadHeader::parse(payload@),
    {
        if payload.len() < LEN_LENGTH {
            return Err(ParseError::PacketTooShort);
        }
        let req_id: u64 = read_u64_be(payload, 0);
        Ok(PayloadHeader { req_id })
    }
}

/// A request, as the codec and the contracts see it: strings are their
/// characters.
pub enum RequestModel {
    BeRead { req_id: u64, substring: Seq<char> },
    LcRead { req_id: u64, id: u64 },
    LcWrite { req_id: u64, id: u64, username: Seq<char> },
}

impl RequestModel {
    /// The class of the request.
    pub open spec fn kind(self) -> RequestType {
        match self {
            RequestModel::BeRead { .. } => RequestType::BeRead,
            RequestModel::LcRead { .. } => RequestType::LcRead,
            RequestModel::LcWrite { .. } => RequestType::LcWrite,
        }
    }

    /// The id that the request carries.
    pub open spec fn req_id(self) -> u64 {
        match self {
            RequestModel::BeRead { req_id, .. } => req_id,
            RequestModel::LcRead { req_id, .. } => req_id,
            RequestModel::LcWrite { req_id, .. } => req_id,
        }
    }

    /// The payload: the request id, then the fields of the class.
    pub open spec fn payload(self) -> Seq<u8> {
        match self {
            RequestModel::BeRead { req_id, substring } => be_bytes(req_id) + text_bytes(
                substring,
            ),
            RequestModel::LcRead { req_id, id } => be_bytes(req_id) + be_bytes(id),
            RequestModel::LcWrite { req_id, id, username } => be_bytes(req_id) + be_bytes(id)
                + text_bytes(username),
        }
    }

    /// The complete frame.
    pub open spec fn frame(self) -> Seq<u8> {
        MessageHeader::<RequestType>::bytes(self.kind(), self.payload().len()) + self.payload()
    }

    /// What decoding `packet` as a request gives. After the header, the
    /// declared payload must be present and must hold a request id; a write
    /// must also hold its key. Bytes behind the declared payload are ignored.
    pub open spec fn parse(packet: Seq<u8>) -> Result<RequestModel, ParseError> {
        match MessageHeader::<RequestType>::parse(packet) {
            Err(e) => Err(e),
            Ok(header) => {
                if packet.len() < HEADER_LEN + header.payload_len {
                    Err(ParseError::PacketTooShort)
                } else {
                    let payload = packet.subrange(
                        HEADER_LEN as int,
                        HEADER_LEN + header.payload_len,
                    );
                    match PayloadHeader::parse(payload) {
                        Err(e) => Err(e),
                        Ok(payload_header) => {
                            let req_id = payload_header.req_id;
                            let rest = payload.subrange(LEN_LENGTH as int, payload.len() as int);
                            match header.kind {
                                RequestType::BeRead => Ok(
                                    RequestModel::BeRead { req_id, substring: decode_text(rest) },
                                ),
                                RequestType::LcRead => Ok(
                                    RequestModel::LcRead { req_id, id: be_value(rest) },
                                ),
                                RequestType::LcWrite => {
                                    if rest.len() < LEN_LENGTH {
                                        Err(ParseError::PacketTooShort)
                                    } else {
                                        Ok(
                                            RequestModel::LcWrite {
                                                req_id,
                                                id: be_value(rest),
                                                username: decode_text(
                                                    rest.subrange(
                                                        LEN_LENGTH as int,
                                                        rest.len() as int,
                                                    ),
                                                ),
                                            },
                                        )
                                    }
                                },
                            }
                        },
                    }
                }
            },
        }
    }
}

/// What a client asks of the server.
#[derive(Clone, Debug, PartialEq, Eq)]
pub enum Request {
    /// Count the stored values that contain `substring`.
    BeRead { req_id: u64, substring: String },
    /// Read the value at key `id`.
    LcRead { req_id: u64, id: u64 },
    /// Store `username` at key `id`.
    LcWrite { req_id: u64, id: u64, username: String },
}

impl View for Request {
    type V = RequestModel;

    open spec fn view(&self) -> RequestModel {
        match self {
            Request::BeRead { req_id, substring } => RequestModel::BeRead {
                req_id: *req_id,
                substring: substring@,
            },
            Request::LcRead { req_id, id } => RequestModel::LcRead { req_id: *req_id, id: *id },
            Request::LcWrite { req_id, id, username } => RequestModel::LcWrite {
                req_id: *req_id,
                id: *id,
                username: username@,
            },
        }
    }
}

impl Message for Request {
    type Tag = RequestType;

    open spec fn class(&self) -> RequestType {
        self@.kind()
    }

    open spec fn frame(&self) -> Seq<u8> {
        self@.frame()
    }

    open spec fn decoded(packet: Seq<u8>, r: Result<Request, ParseError>) -> bool {
        match r {
            Ok(m) => RequestModel::parse(packet) == Ok::<RequestModel, ParseError>(m@),
            Err(e) => RequestModel::parse(packet) == Err::<RequestModel, ParseError>(e),
        }
    }

    fn kind(&self) -> (k: RequestType) {
        match self {
            Request::BeRead { .. } => RequestType::BeRead,
            Request::LcRead { .. } => RequestType::LcRead,
            Request::LcWrite { .. } => RequestType::LcWrite,
        }
    }

    fn serialize(&self) -> (packet: Vec<u8>) {
        let mut payload: Vec<u8> = Vec::new();
        match self {
            Request::BeRead { req_id, substring } => {
                push_u64_be(&mut payload, *req_id);
                append_bytes(&mut payload, substring.as_str().as_bytes());
            },
            Request::LcRead { req_id, id } => {
                push_u64_be(&mut payload, *req_id);
                push_u64_be(&mut payload, *id);
            },
            Request::LcWrite { req_id, id, username } => {
                push_u64_be(&mut payload, *req_id);
                push_u64_be(&mut payload, *id);
                append_bytes(&mut payload, username.as_str().as_bytes());
            },
        }
        assert(payload@ =~= self@.payload());
        let mut packet: Vec<u8> = Vec::new();
        packet.push(self.kind().value());
        push_u64_be(&mut packet, payload.len() as u64);
        append_bytes(&mut packet, payload.as_slice());
        assert(packet@ =~= self@.frame());
        packet
    }

    fn deserialize(packet: &[u8]) -> (r: Result<Request, ParseError>) {
        let header: MessageHeader<RequestType> = match MessageHeader::<RequestType>::deserialize(
            packet,
        ) {
            Ok(header) => header,
            Err(e) => {
                return Err(e);
            },
        };
        if header.payload_len > packet.len() - header.len() {
            return Err(ParseError::PacketTooShort);
        }
        let payload: &[u8] = slice_subrange(
            packet,
            header.len(),
            header.len() + header.payload_len,
        );
        let payload_header: PayloadHeader = match PayloadHeader::deserialize(payload) {
            Ok(payload_header) => payload_header,
            Err(e) => {
                return Err(e);
            },
        };
        let req_id: u64 = payload_header.req_id;
        let rest: &[u8] = slice_subrange(payload, payload_header.len(), payload.len());
        match header.kind {
            RequestType::BeRead => {
                let substring: String = lossy_text(rest);
                Ok(Request::BeRead { req_id, substring })
            },
            RequestType::LcRead => {
                assert(rest@.subrange(0, 8) =~= rest@);
                let id: u64 = read_u64_be(rest, 0);
                Ok(Request::LcRead { req_id, id })
            },
            RequestType::LcWrite => {
                if rest.len() < LEN_LENGTH {
                    return Err(ParseError::PacketTooShort);
                }
                let id: u64 = read_u64_be(rest, 0);
                let username: String = lossy_text(slice_subrange(rest, LEN_LENGTH, rest.len()));
                Ok(Request::LcWrite { req_id, id, username })
            },
        }
    }
}

/// Decoding the frame of a request gives the request back, whatever its
/// class and fields, as long as the frame fits in memory.
pub proof fn lemma_request_round_trip(m: RequestModel)
    requires
        m.frame().len() <= usize::MAX,
    ensures
        RequestModel::parse(m.frame()) == Ok::<RequestModel, ParseError>(m),
{
    let payload = m.payload();
    let packet = m.frame();
    let plen = payload.len();
    lemma_be_value_of_bytes(plen as u64);
    lemma_be_value_of_bytes(m.req_id());
    assert(packet.subrange(1, HEADER_LEN as int) =~= be_bytes(plen as u64));
    assert(packet.subrange(HEADER_LEN as int, HEADER_LEN + plen) =~= payload);
    assert(payload.subrange(0, LEN_LENGTH as int) =~= be_bytes(m.req_id()));
    let rest = payload.subrange(LEN_LENGTH as int, plen as int);
    match m {
        RequestModel::BeRead { req_id, substring } => {
            assert(rest =~= text_bytes(substring));
            lemma_decode_text_bytes(substring);
        },
        RequestModel::LcRead { req_id, id } => {
            lemma_be_value_of_bytes(id);
            assert(rest =~= be_bytes(id));
        },
        RequestModel::LcWrite { req_id, id, username } => {
            lemma_be_value_of_bytes(id);
            assert(rest.subrange(0, 8) =~= be_bytes(id));
            assert(be_value(rest) == be_value(rest.subrange(0, 8)));
            assert(rest.subrange(LEN_LENGTH as int, rest.len() as int) =~= text_bytes(username));
            lemma_decode_text_bytes(username);
        },
    }
}

/// The characters of an optional string.
pub open spec fn optional_text(value: Option<String>) -> Option<Seq<char>> {
    match value {
        Some(text) => Some(text@),
        None => None,
    }
}

/// The wire form of an optional string: the tag, then the bytes if present.
pub open spec fn optional_text_bytes(value: Option<Seq<char>>) -> Seq<u8> {
    match value {
        Some(text) => seq![SOME_BYTE] + text_bytes(text),
        None => seq![NONE_BYTE],
    }
}

/// What a tagged optional string decodes to. An absent value ignores what
/// follows the tag.
pub open spec fn parse_optional_text(field: Seq<u8>) -> Result<Option<Seq<char>>, ParseError> {
    if field.len() < 1 {
        Err(ParseError::PacketTooShort)
    } else if field[0] == NONE_BYTE {
        Ok(None)
    } else if field[0] == SOME_BYTE {
        Ok(Some(decode_text(field.subrange(1, field.len() as int))))
    } else {
        Err(ParseError::UnexpectedOptionType(field[0]))
    }
}

/// A response, as the codec and the contracts see it.
pub enum ResponseModel {
    BeRead { req_id: u64, freq: u64 },
    LcRead { req_id: u64, username: Option<Seq<char>> },
    LcWrite { req_id: u64, username: Option<Seq<char>> },
}

impl ResponseModel {
    /// The class of the response.
    pub open spec fn kind(self) -> ResponseType {
        match self {
            ResponseModel::BeRead { .. } => ResponseType::BeRead,
            ResponseModel::LcRead { .. } => ResponseType::LcRead,
            ResponseModel::LcWrite { .. } => ResponseType::LcWrite,
        }
    }

    /// The id of the request that the response answers.
    pub open spec fn req_id(self) -> u64 {
        match self {
            ResponseModel::BeRead { req_id, .. } => req_id,
            ResponseModel::LcRead { req_id, .. } => req_id,
            ResponseModel::LcWrite { req_id, .. } => req_id,
        }
    }

    /// The payload: the request id, then the fields of the class.
    pub open spec fn payload(self) -> Seq<u8> {
        match self {
            ResponseModel::BeRead { req_id, freq } => be_bytes(req_id) + be_bytes(freq),
            ResponseModel::LcRead { req_id, username } => be_bytes(req_id) + optional_text_bytes(
                username,
            ),
            ResponseModel::LcWrite { req_id, username } => be_bytes(req_id) + optional_text_bytes(
                username,
            ),
        }
    }

    /// The complete frame.
    pub open spec fn frame(self) -> Seq<u8> {
        MessageHeader::<ResponseType>::bytes(self.kind(), self.payload().len()) + self.payload()
    }

    /// What decoding `packet` as a response gives. After the header, the
    /// declared payload must be present and must hold a request id; a read
    /// or write response must also hold the tag of its optional value.
    pub open spec fn parse(packet: Seq<u8>) -> Result<ResponseModel, ParseError> {
        match MessageHeader::<ResponseType>::parse(packet) {
            Err(e) => Err(e),
            Ok(header) => {
                if packet.len() < HEADER_LEN + header.payload_len {
                    Err(ParseError::PacketTooShort)
                } else {
                    let payload = packet.subrange(
                        HEADER_LEN as int,
                        HEADER_LEN + header.payload_len,
                    );
                    match PayloadHeader::parse(payload) {
                        Err(e) => Err(e),
                        Ok(payload_header) => {
                            let req_id = payload_header.req_id;
                            let rest = payload.subrange(LEN_LENGTH as int, payload.len() as int);
                            match header.kind {
                                ResponseType::BeRead => Ok(
                                    ResponseModel::BeRead { req_id, freq: be_value(rest) },
                                ),
                                ResponseType::LcRead => match parse_optional_text(rest) {
                                    Err(e) => Err(e),
                                    Ok(username) => Ok(ResponseModel::LcRead { req_id, username }),
                                },
                                ResponseType::LcWrite => match parse_optional_text(rest) {
                                    Err(e) => Err(e),
                                    Ok(username) => Ok(
                                        ResponseModel::LcWrite { req_id, username },
                                    ),
                                },
                            }
                        },
                    }
                }
            },
        }
    }
}

/// What the server answers.
#[derive(Clone, Debug, PartialEq, Eq)]
pub enum Response {
    /// The number of stored values that contain the pattern.
    BeRead { req_id: u64, freq: u64 },
    /// The value at the key, if there is one.
    LcRead { req_id: u64, username: Option<String> },
    /// The value that the write replaced, if there was one.
    LcWrite { req_id: u64, username: Option<String> },
}

impl View for Response {
    type V = ResponseModel;

    open spec fn view(&self) -> ResponseModel {
        match self {
            Response::BeRead { req_id, freq } => ResponseModel::BeRead {
                req_id: *req_id,
                freq: *freq,
            },
            Response::LcRead { req_id, username } => ResponseModel::LcRead {
                req_id: *req_id,
                username: optional_text(*username),
            },
            Response::LcWrite { req_id, username } => ResponseModel::LcWrite {
                req_id: *req_id,
                username: optional_text(*username),
            },
        }
    }
}

/// Appends the wire form of an optional string to `out`.
fn push_optional_text(out: &mut Vec<u8>, value: &Option<String>)
    ensures
        final(out)@ == old(out)@ + optional_text_bytes(optional_text(*value)),
{
    match value {
        Some(text) => {
            out.push(SOME_BYTE);
            append_bytes(out, text.as_str().as_bytes());
            assert(out@ =~= old(out)@ + optional_text_bytes(optional_text(*value)));
        },
        None => {
            out.push(NONE_BYTE);
            assert(out@ =~= old(out)@ + optional_text_bytes(optional_text(*value)));
        },
    }
}

/// Decodes a tagged optional string.
fn read_optional_text(field: &[u8]) -> (r: Result<Option<String>, ParseError>)
    ensures
        match r {
            Ok(value) => parse_optional_text(field@) == Ok::<Option<Seq<char>>, ParseError>(
                optional_text(value),
            ),
            Err(e) => parse_optional_text(field@) == Err::<Option<Seq<char>>, ParseError>(e),
        },
{
    if field.len() < 1 {
        return Err(ParseError::PacketTooShort);
    }
    let tag: u8 = field[0];
    if tag == NONE_BYTE {
        Ok(None)
    } else if tag == SOME_BYTE {
        Ok(Some(lossy_text(slice_subrange(field, 1, field.len()))))
    } else {
        Err(ParseError::UnexpectedOptionType(tag))
    }
}

impl Message for Response {
    type Tag = ResponseType;

    open spec fn class(&self) -> ResponseType {
        self@.kind()
    }

    open spec fn frame(&self) -> Seq<u8> {
        self@.frame()
    }

    open spec fn decoded(packet: Seq<u8>, r: Result<Response, ParseError>) -> bool {
        match r {
            Ok(m) => ResponseModel::parse(packet) == Ok::<ResponseModel, ParseError>(m@),
            Err(e) => ResponseModel::parse(packet) == Err::<ResponseModel, ParseError>(e),
        }
    }

    fn kind(&self) -> (k: ResponseType) {
        match self {
            Response::BeRead { .. } => ResponseType::BeRead,
            Response::LcRead { .. } => ResponseType::LcRead,
            Response::LcWrite { .. } => ResponseType::LcWrite,
        }
    }

    fn serialize(&self) -> (packet: Vec<u8>) {
        let mut payload: Vec<u8> = Vec::new();
        match self {
            Response::BeRead { req_id, freq } => {
                push_u64_be(&mut payload, *req_id);
                push_u64_be(&mut payload, *freq);
            },
            Response::LcRead { req_id, username } => {
                push_u64_be(&mut payload, *req_id);
                push_optional_text(&mut payload, username);
            },
            Response::LcWrite { req_id, username } => {
                push_u64_be(&mut payload, *req_id);
                push_optional_text(&mut payload, username);
            },
        }
        assert(payload@ =~= self@.payload());
        let mut packet: Vec<u8> = Vec::new();
        packet.push(self.kind().value());
        push_u64_be(&mut packet, payload.len() as u64);
        append_bytes(&mut packet, payload.as_slice());
        assert(packet@ =~= self@.frame());
        packet
    }

    fn deserialize(packet: &[u8]) -> (r: Result<Response, ParseError>) {
        let header: MessageHeader<ResponseType> = match MessageHeader::<
            ResponseType,
        >::deserialize(packet) {
            Ok(header) => header,
            Err(e) => {
                return Err(e);
            },
        };
        if header.payload_len > packet.len() - header.len() {
            return Err(ParseError::PacketTooShort);
        }
        let payload: &[u8] = slice_subrange(
            packet,
            header.len(),
            header.len() + header.payload_len,
        );
        let payload_header: PayloadHeader = match PayloadHeader::deserialize(payload) {
            Ok(payload_header) => payload_header,
            Err(e) => {
                return Err(e);
            },
        };
        let req_id: u64 = payload_header.req_id;
        let rest: &[u8] = slice_subrange(payload, payload_header.len(), payload.len());
        match header.kind {
            ResponseType::BeRead => {
                assert(rest@.subrange(0, 8) =~= rest@);
                let freq: u64 = read_u64_be(rest, 0);
                Ok(Response::BeRead { req_id, freq })
            },
            ResponseType::LcRead => match read_optional_text(rest) {
                Ok(username) => Ok(Response::LcRead { req_id, username }),
                Err(e) => Err(e),
            },
            ResponseType::LcWrite => match read_optional_text(rest) {
                Ok(username) => Ok(Response::LcWrite { req_id, username }),
                Err(e) => Err(e),
            },
        }
    }
}

/// Decoding the wire form of an optional string gives it back.
pub proof fn lemma_optional_text_round_trip(value: Option<Seq<char>>)
    ensures
        parse_optional_text(optional_text_bytes(value)) == Ok::<Option<Seq<char>>, ParseError>(
            value,
        ),
{
    match value {
        Some(text) => {
            let field = optional_text_bytes(value);
            assert(field.subrange(1, field.len() as int) =~= text_bytes(text));
            lemma_decode_text_bytes(text);
        },
        None => {},
    }
}

/// Decoding the frame of a response gives the response back, whatever its
/// class and fields, as long as the frame fits in memory.
pub proof fn lemma_response_round_trip(m: ResponseModel)
    requires
        m.frame().len() <= usize::MAX,
    ensures
        ResponseModel::parse(m.frame()) == Ok::<ResponseModel, ParseError>(m),
{
    let payload = m.payload();
    let packet = m.frame();
    let plen = payload.len();
    lemma_be_value_of_bytes(plen as u64);
    lemma_be_value_of_bytes(m.req_id());
    assert(packet.subrange(1, HEADER_LEN as int) =~= be_bytes(plen as u64));
    assert(packet.subrange(HEADER_LEN as int, HEADER_LEN + plen) =~= payload);
    assert(payload.subrange(0, LEN_LENGTH as int) =~= be_bytes(m.req_id()));
    let rest = payload.subrange(LEN_LENGTH as int, plen as int);
    match m {
        ResponseModel::BeRead { req_id, freq } => {
            lemma_be_value_of_bytes(freq);
            assert(rest =~= be_bytes(freq));
        },
        ResponseModel::LcRead { req_id, username } => {
            assert(rest =~= optional_text_bytes(username));
            lemma_optional_text_round_trip(username);
        },
        ResponseModel::LcWrite { req_id, username } => {
            assert(rest =~= optional_text_bytes(username));
            lemma_optional_text_round_trip(username);
        },
    }
}

/// A packet shorter than a header is too short, whatever its bytes, in
/// both directions.
pub proof fn lemma_short_header_rejected(packet: Seq<u8>)
    requires
        packet.len() < HEADER_LEN,
    ensures
        RequestModel::parse(packet) == Err::<RequestModel, ParseError>(
            ParseError::PacketTooShort,
        ),
        ResponseModel::parse(packet) == Err::<ResponseModel, ParseError>(
            ParseError::PacketTooShort,
        ),
{
}

/// The payload length that the header of `packet` declares.
pub open spec fn declared_payload_len(packet: Seq<u8>) -> nat
    recommends
        packet.len() >= HEADER_LEN,
{
    be_value(packet.subrange(1, HEADER_LEN as int)) as nat
}

/// A request whose header is accepted, but which ends before its declared
/// payload does, is too short.
pub proof fn lemma_short_request_rejected(packet: Seq<u8>)
    requires
        packet.len() >= HEADER_LEN,
        RequestType::of_tag(packet[0]) matches Some(kind) && (kind.fixed_len() matches Some(n)
            ==> n == declared_payload_len(packet)),
        packet.len() < HEADER_LEN + declared_payload_len(packet),
    ensures
        RequestModel::parse(packet) == Err::<RequestModel, ParseError>(
            ParseError::PacketTooShort,
        ),
{
}

/// A response whose header is accepted, but which ends before its declared
/// payload does, is too short.
pub proof fn lemma_short_response_rejected(packet: Seq<u8>)
    requires
        packet.len() >= HEADER_LEN,
        ResponseType::of_tag(packet[0]) matches Some(kind) && (kind.fixed_len() matches Some(n)
            ==> n == declared_payload_len(packet)),
        packet.len() < HEADER_LEN + declared_payload_len(packet),
    ensures
        ResponseModel::parse(packet) == Err::<ResponseModel, ParseError>(
            ParseError::PacketTooShort,
        ),
{
}

/// A packet that holds a whole header and starts with a byte that names no
/// class is rejected with that byte, in both directions.
pub proof fn lemma_unknown_type_rejected(packet: Seq<u8>)
    requires
        packet.len() >= HEADER_LEN,
        packet[0] != BE_BYTE,
        packet[0] != LC_READ_BYTE,
        packet[0] != LC_WRITE_BYTE,
    ensures
        RequestModel::parse(packet) == Err::<RequestModel, ParseError>(
            ParseError::InvalidMessageType(packet[0]),
        ),
        ResponseModel::parse(packet) == Err::<ResponseModel, ParseError>(
            ParseError::InvalidMessageType(packet[0]),
        ),
{
}

} // verus!
