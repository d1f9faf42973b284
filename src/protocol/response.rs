//! Response builder: an append-only byte buffer with protocol-shaped writes.
use crate::error::{ProtocolError, StorageError};
use crate::text::{ascii, ascii_lit, decimal_digits, format_decimal};
use vstd::prelude::*;
use vstd::string::StringSliceAdditionalSpecFns;

verus! {

#[verifier::external_type_specification]
#[verifier::external_body]
pub struct ExBytesMut(bytes::BytesMut);

/// The bytes that a `BytesMut` holds.
pub uninterp spec fn buffered(b: bytes::BytesMut) -> Seq<u8>;

/// Relies on BytesMut::with_capacity: a buffer holding no bytes.
#[verifier::external_body]
pub(crate) fn bytes_with_capacity(capacity: usize) -> (r: bytes::BytesMut)
    requires
        capacity <= isize::MAX,
    ensures
        buffered(r) == Seq::<u8>::empty(),
{
    bytes::BytesMut::with_capacity(capacity)
}

/// Relies on BytesMut::extend_from_slice: appends the bytes; it panics when
/// the new length passes what can be allocated.
#[verifier::external_body]
pub(crate) fn bytes_extend(b: &mut bytes::BytesMut, s: &[u8])
    requires
        buffered(*old(b)).len() + s@.len() <= isize::MAX,
    ensures
        buffered(*final(b)) == buffered(*old(b)) + s@,
{
    b.extend_from_slice(s)
}

/// Relies on BytesMut::clear: removes every byte.
#[verifier::external_body]
pub(crate) fn bytes_clear(b: &mut bytes::BytesMut)
    ensures
        buffered(*final(b)) == Seq::<u8>::empty(),
{
    b.clear()
}

/// Relies on BytesMut's Deref to `[u8]`: the bytes held.
#[verifier::external_body]
pub(crate) fn bytes_slice(b: &bytes::BytesMut) -> (r: &[u8])
    ensures
        r@ == buffered(*b),
{
    b
}

/// Relies on std::mem::take, with BytesMut::default holding no bytes.
#[verifier::external_body]
pub(crate) fn bytes_take(b: &mut bytes::BytesMut) -> (r: bytes::BytesMut)
    ensures
        buffered(r) == buffered(*old(b)),
        buffered(*final(b)) == Seq::<u8>::empty(),
{
    std::mem::take(b)
}

/// Relies on BytesMut::is_empty: whether no byte is held.
#[verifier::external_body]
pub(crate) fn bytes_is_empty(b: &bytes::BytesMut) -> (r: bool)
    ensures
        r == (buffered(*b).len() == 0),
{
    b.is_empty()
}

/// Relies on BytesMut::split_to: hands out the first `at` bytes and keeps
/// the rest; it panics when `at` passes the length.
#[verifier::external_body]
pub(crate) fn bytes_split_to(b: &mut bytes::BytesMut, at: usize) -> (r: bytes::BytesMut)
    requires
        at <= buffered(*old(b)).len(),
    ensures
        buffered(r) == buffered(*old(b)).take(at as int),
        buffered(*final(b)) == buffered(*old(b)).skip(at as int),
{
    b.split_to(at)
}

pub open spec fn crlf() -> Seq<u8> {
    seq![13u8, 10u8]
}

/// `VALUE <key> <flags> <bytes>\r\n<data>\r\n`
pub open spec fn value_line(key: Seq<u8>, flags: u32, data: Seq<u8>) -> Seq<u8> {
    ascii("VALUE "@) + key + ascii(" "@) + decimal_digits(flags as nat) + ascii(" "@)
        + decimal_digits(data.len()) + crlf() + data + crlf()
}

pub open spec fn end_line() -> Seq<u8> {
    ascii("END\r\n"@)
}

pub open spec fn stored_line() -> Seq<u8> {
    ascii("STORED\r\n"@)
}

pub open spec fn not_found_line() -> Seq<u8> {
    ascii("NOT_FOUND\r\n"@)
}

pub open spec fn deleted_line() -> Seq<u8> {
    ascii("DELETED\r\n"@)
}

/// `VERSION <text>\r\n`
pub open spec fn version_line(text: Seq<u8>) -> Seq<u8> {
    ascii("VERSION "@) + text + crlf()
}

/// `CLIENT_ERROR <message>\r\n`
pub open spec fn client_error_line(msg: Seq<u8>) -> Seq<u8> {
    ascii("CLIENT_ERROR "@) + msg + crlf()
}

/// `SERVER_ERROR <message>\r\n`
pub open spec fn server_error_line(msg: Seq<u8>) -> Seq<u8> {
    ascii("SERVER_ERROR "@) + msg + crlf()
}

/// Room left for one response line after `len` buffered bytes and a payload
/// of `payload` bytes (64 covers the fixed text and two decimal numbers).
pub open spec fn has_room(len: int, payload: int) -> bool {
    len + payload + 64 <= isize::MAX
}

spec fn ten_pow(k: nat) -> nat
    decreases k,
{
    if k == 0 {
        1
    } else {
        10 * ten_pow((k - 1) as nat)
    }
}

proof fn lemma_decimal_digits_len(n: nat, k: nat)
    requires
        1 <= k,
        n < ten_pow(k),
    ensures
        1 <= decimal_digits(n).len() <= k,
    decreases n,
{
    if n >= 10 {
        let t = ten_pow((k - 1) as nat);
        if k == 1 {
            assert(t == 1);
        }
        assert(n / 10 < t) by (nonlinear_arith)
            requires
                n < 10 * t,
        ;
        lemma_decimal_digits_len(n / 10, (k - 1) as nat);
    }
}

/// A decimal number below 2^64 has at most twenty digits.
proof fn lemma_u64_digits(n: nat)
    requires
        n <= u64::MAX,
    ensures
        1 <= decimal_digits(n).len() <= 20,
{
    reveal_with_fuel(ten_pow, 21);
    assert(ten_pow(20) == 100000000000000000000);
    lemma_decimal_digits_len(n, 20);
}

/// The response buffer of one connection.
pub struct ResponseWriter {
    buf: bytes::BytesMut,
}

impl View for ResponseWriter {
    type V = Seq<u8>;

    closed spec fn view(&self) -> Seq<u8> {
        buffered(self.buf)
    }
}

impl ResponseWriter {
    /// An empty writer that reserves `capacity` bytes.
    pub fn new(capacity: usize) -> (r: Self)
        requires
            capacity <= isize::MAX,
        ensures
            r@ == Seq::<u8>::empty(),
    {
        Self { buf: bytes_with_capacity(capacity) }
    }

    /// The bytes written so far.
    pub fn buffer(&self) -> (r: &[u8])
        ensures
            r@ == self@,
    {
        bytes_slice(&self.buf)
    }

    /// Hands out the bytes written so far and leaves the writer empty.
    pub fn take(&mut self) -> (r: bytes::BytesMut)
        ensures
            buffered(r) == old(self)@,
            final(self)@ == Seq::<u8>::empty(),
    {
        bytes_take(&mut self.buf)
    }

    /// Drops the bytes written so far.
    pub fn clear(&mut self)
        ensures
            final(self)@ == Seq::<u8>::empty(),
    {
        bytes_clear(&mut self.buf)
    }

    /// Whether nothing has been written.
    pub fn is_empty(&self) -> (r: bool)
        ensures
            r == (self@.len() == 0),
    {
        bytes_is_empty(&self.buf)
    }

    fn put(&mut self, s: &[u8])
        requires
            old(self)@.len() + s@.len() <= isize::MAX,
        ensures
            final(self)@ == old(self)@ + s@,
    {
        bytes_extend(&mut self.buf, s)
    }

    /// Writes a `VALUE` line and its data block, for a `get` hit.
    pub fn value(&mut self, key: &[u8], flags: u32, data: &[u8])
        requires
            has_room(old(self)@.len() as int, key@.len() + data@.len() as int),
        ensures
            final(self)@ == old(self)@ + value_line(key@, flags, data@),
    {
        let flags_text = format_decimal(flags as u64);
        let len_text = format_decimal(data.len() as u64);
        proof {
            lemma_u64_digits(flags as nat);
            lemma_u64_digits(data@.len());
            reveal_strlit("VALUE ");
            reveal_strlit(" ");
            reveal_strlit("\r\n");
        }
        let ghost start = self@;
        self.put(ascii_lit("VALUE "));
        self.put(key);
        self.put(ascii_lit(" "));
        self.put(flags_text.as_slice());
        self.put(ascii_lit(" "));
        self.put(len_text.as_slice());
        self.put(ascii_lit("\r\n"));
        self.put(data);
        self.put(ascii_lit("\r\n"));
        proof {
            assert(ascii("\r\n"@) =~= crlf());
            assert(self@ =~= start + value_line(key@, flags, data@));
        }
    }

    /// Writes `END`, closing a `get` response.
    pub fn end(&mut self)
        requires
            has_room(old(self)@.len() as int, 0),
        ensures
            final(self)@ == old(self)@ + end_line(),
    {
        proof {
            reveal_strlit("END\r\n");
        }
        self.put(ascii_lit("END\r\n"))
    }

    /// Writes `STORED`.
    pub fn stored(&mut self)
        requires
            has_room(old(self)@.len() as int, 0),
        ensures
            final(self)@ == old(self)@ + stored_line(),
    {
        proof {
            reveal_strlit("STORED\r\n");
        }
        self.put(ascii_lit("STORED\r\n"))
    }

    /// Writes `NOT_FOUND`.
    pub fn not_found(&mut self)
        requires
            has_room(old(self)@.len() as int, 0),
        ensures
            final(self)@ == old(self)@ + not_found_line(),
    {
        proof {
            reveal_strlit("NOT_FOUND\r\n");
        }
        self.put(ascii_lit("NOT_FOUND\r\n"))
    }

    /// Writes `DELETED`.
    pub fn deleted(&mut self)
        requires
            has_room(old(self)@.len() as int, 0),
        ensures
            final(self)@ == old(self)@ + deleted_line(),
    {
        proof {
            reveal_strlit("DELETED\r\n");
        }
        self.put(ascii_lit("DELETED\r\n"))
    }

    fn line(&mut self, prefix: &[u8], body: &[u8])
        requires
            prefix@.len() <= 16,
            has_room(old(self)@.len() as int, body@.len() as int),
        ensures
            final(self)@ == old(self)@ + prefix@ + body@ + crlf(),
    {
        proof {
            reveal_strlit("\r\n");
        }
        let ghost start = self@;
        self.put(prefix);
        self.put(body);
        self.put(ascii_lit("\r\n"));
        proof {
            assert(ascii("\r\n"@) =~= crlf());
            assert(self@ =~= start + prefix@ + body@ + crlf());
        }
    }

    /// Writes `VERSION <version>`.
    pub fn version(&mut self, version: &str)
        requires
            has_room(old(self)@.len() as int, version.spec_bytes().len() as int),
        ensures
            final(self)@ == old(self)@ + version_line(version.spec_bytes()),
    {
        proof {
            reveal_strlit("VERSION ");
        }
        self.line(ascii_lit("VERSION "), version.as_bytes())
    }

    /// Writes `CLIENT_ERROR <message>`.
    pub fn client_error(&mut self, message: &str)
        requires
            has_room(old(self)@.len() as int, message.spec_bytes().len() as int),
        ensures
            final(self)@ == old(self)@ + client_error_line(message.spec_bytes()),
    {
        self.client_error_bytes(message.as_bytes())
    }

    /// Writes `CLIENT_ERROR <message>` for a message given as bytes.
    pub fn client_error_bytes(&mut self, message: &[u8])
        requires
            has_room(old(self)@.len() as int, message@.len() as int),
        ensures
            final(self)@ == old(self)@ + client_error_line(message@),
    {
        proof {
            reveal_strlit("CLIENT_ERROR ");
        }
        self.line(ascii_lit("CLIENT_ERROR "), message)
    }

    /// Writes `SERVER_ERROR <message>`.
    pub fn server_error(&mut self, message: &str)
        requires
            has_room(old(self)@.len() as int, message.spec_bytes().len() as int),
        ensures
            final(self)@ == old(self)@ + server_error_line(message.spec_bytes()),
    {
        self.server_error_bytes(message.as_bytes())
    }

    /// Writes `SERVER_ERROR <message>` for a message given as bytes.
    pub fn server_error_bytes(&mut self, message: &[u8])
        requires
            has_room(old(self)@.len() as int, message@.len() as int),
        ensures
            final(self)@ == old(self)@ + server_error_line(message@),
    {
        proof {
            reveal_strlit("SERVER_ERROR ");
        }
        self.line(ascii_lit("SERVER_ERROR "), message)
    }

    /// Writes the `CLIENT_ERROR` line of a protocol error.
    pub fn protocol_error(&mut self, e: &ProtocolError)
        requires
            has_room(old(self)@.len() as int, e@.message().len() as int),
        ensures
            final(self)@ == old(self)@ + client_error_line(e@.message()),
    {
        let msg = e.message();
        self.client_error_bytes(msg.as_slice())
    }

    /// Writes the `SERVER_ERROR` line of a storage error.
    pub fn storage_error(&mut self, e: &StorageError)
        requires
            has_room(old(self)@.len() as int, e@.message().len() as int),
        ensures
            final(self)@ == old(self)@ + server_error_line(e@.message()),
    {
        let msg = e.message();
        self.server_error_bytes(msg.as_slice())
    }
}

impl Default for ResponseWriter {
    fn default() -> (r: Self)
        ensures
            r@ == Seq::<u8>::empty(),
    {
        Self::new(4096)
    }
}

} // verus!
