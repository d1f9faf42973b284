//! Incremental parser for the memcached text protocol.
//!
//! A command line ends at the first CRLF. `set` is read in two phases: the
//! header line, then a data block of the declared length and a CRLF.
use crate::error::{ProtocolError, ProtocolErrorModel};
use crate::protocol::command::{valid_key, views, Command, CommandModel, MAX_KEY_LENGTH, is_valid_key};
use crate::storage::value::slice_range;
use crate::text::{ascii, ascii_lit, bytes_eq, decimal_spec, lossy_string, owned_text, parse_decimal, utf8_lossy};
use vstd::prelude::*;

verus! {

/// Outcome of offering a buffer to the parser.
#[derive(Debug)]
pub enum ParseResult {
    /// A whole command and the number of bytes it took.
    Complete(Command, usize),
    /// The buffer holds no whole command yet.
    NeedMoreData,
    /// The buffer starts with a malformed command.
    Error(ProtocolError),
}

/// A parse outcome over models.
pub enum ParseOutcome {
    Complete(CommandModel, nat),
    NeedMoreData,
    Error(ProtocolErrorModel),
}

impl View for ParseResult {
    type V = ParseOutcome;

    open spec fn view(&self) -> ParseOutcome {
        match self {
            ParseResult::Complete(c, n) => ParseOutcome::Complete(c@, *n as nat),
            ParseResult::NeedMoreData => ParseOutcome::NeedMoreData,
            ParseResult::Error(e) => ParseOutcome::Error(e@),
        }
    }
}

/// A `set` header that has been read while its data block has not arrived.
#[derive(Debug, Clone)]
pub struct PendingStorageCommand {
    pub key: Vec<u8>,
    pub flags: u32,
    pub exptime: u64,
    pub bytes: usize,
    pub noreply: bool,
    /// Offset of the CRLF that ends the header line.
    pub command_line_end: usize,
}

/// What a `set` header holds: key, flags, exptime, data length, noreply.
pub type Header = (Seq<u8>, u32, u64, nat, bool);

// ---------------------------------------------------------------- framing

pub open spec fn crlf_at(buf: Seq<u8>, i: int) -> bool {
    0 <= i && i + 1 < buf.len() && buf[i] == 13 && buf[i + 1] == 10
}

/// The first CRLF at or after `i`.
pub open spec fn find_crlf_from(buf: Seq<u8>, i: int) -> Option<int>
    decreases buf.len() - i,
{
    if i < 0 || i + 1 >= buf.len() {
        None
    } else if crlf_at(buf, i) {
        Some(i)
    } else {
        find_crlf_from(buf, i + 1)
    }
}

/// The CRLF found is there, and none comes before it.
pub proof fn lemma_find_crlf_from(buf: Seq<u8>, i: int)
    requires
        0 <= i,
    ensures
        find_crlf_from(buf, i) matches Some(e) ==> i <= e && crlf_at(buf, e) && forall|j: int|
            i <= j < e ==> !#[trigger] crlf_at(buf, j),
        find_crlf_from(buf, i) is None ==> forall|j: int| i <= j ==> !#[trigger] crlf_at(buf, j),
    decreases buf.len() - i,
{
    if i >= 0 && i + 1 < buf.len() && !crlf_at(buf, i) {
        lemma_find_crlf_from(buf, i + 1);
    }
}

/// Where the first line ends: the offset of its CRLF.
pub open spec fn line_end(buf: Seq<u8>) -> Option<int> {
    find_crlf_from(buf, 0)
}

/// The line split at every space, empty tokens kept, read left to right.
pub open spec fn split_spaces(line: Seq<u8>) -> Seq<Seq<u8>>
    decreases line.len(),
{
    if line.len() == 0 {
        seq![Seq::empty()]
    } else {
        let toks = split_spaces(line.drop_last());
        if line.last() == 32 {
            toks.push(Seq::empty())
        } else {
            toks.update(toks.len() - 1, toks.last().push(line.last()))
        }
    }
}

pub open spec fn lower(b: u8) -> u8 {
    if 65 <= b <= 90 {
        (b + 32) as u8
    } else {
        b
    }
}

/// ASCII case-insensitive match of a token against a lower-case name.
pub open spec fn names(tok: Seq<u8>, name: Seq<u8>) -> bool {
    tok.len() == name.len() && forall|i: int| 0 <= i < tok.len() ==> lower(#[trigger] tok[i]) == name[i]
}

pub open spec fn key_error(t: Seq<u8>) -> ProtocolErrorModel {
    if t.len() > MAX_KEY_LENGTH {
        ProtocolErrorModel::KeyTooLong
    } else {
        ProtocolErrorModel::InvalidKey(utf8_lossy(t))
    }
}

// ---------------------------------------------------------------- grammar

/// The keys of a `get`, empty tokens skipped, or the first bad key's error.
pub open spec fn get_keys(args: Seq<Seq<u8>>) -> Result<Seq<Seq<u8>>, ProtocolErrorModel>
    decreases args.len(),
{
    if args.len() == 0 {
        Ok(Seq::empty())
    } else {
        match get_keys(args.drop_last()) {
            Err(e) => Err(e),
            Ok(ks) => {
                let t = args.last();
                if t.len() == 0 {
                    Ok(ks)
                } else if !valid_key(t) {
                    Err(key_error(t))
                } else {
                    Ok(ks.push(t))
                }
            },
        }
    }
}

pub open spec fn get_spec(args: Seq<Seq<u8>>, consumed: nat) -> ParseOutcome {
    match get_keys(args) {
        Err(e) => ParseOutcome::Error(e),
        Ok(ks) => if ks.len() == 0 {
            ParseOutcome::Error(ProtocolErrorModel::InvalidCommand("get requires at least one key"@))
        } else {
            ParseOutcome::Complete(CommandModel::Get { keys: ks }, consumed)
        },
    }
}

/// The fields of a `set` header line, after the command name.
pub open spec fn set_header(args: Seq<Seq<u8>>) -> Result<Header, ProtocolErrorModel> {
    if args.len() < 1 || args[0].len() == 0 {
        Err(ProtocolErrorModel::InvalidCommand("missing key"@))
    } else if !valid_key(args[0]) {
        Err(key_error(args[0]))
    } else if args.len() < 2 || decimal_spec(args[1], u32::MAX as nat) is None {
        Err(ProtocolErrorModel::InvalidFlags)
    } else if args.len() < 3 || decimal_spec(args[2], u64::MAX as nat) is None {
        Err(ProtocolErrorModel::InvalidExptime)
    } else if args.len() < 4 || decimal_spec(args[3], usize::MAX as nat) is None {
        Err(ProtocolErrorModel::InvalidBytesLength)
    } else {
        Ok(
            (
                args[0],
                decimal_spec(args[1], u32::MAX as nat)->Some_0 as u32,
                decimal_spec(args[2], u64::MAX as nat)->Some_0 as u64,
                decimal_spec(args[3], usize::MAX as nat)->Some_0,
                args.len() >= 5 && args[4] == ascii("noreply"@),
            ),
        )
    }
}

/// The data phase of a `set` whose header line ends at `line_end`.
pub open spec fn body_spec(buf: Seq<u8>, h: Header, line_end: int) -> ParseOutcome {
    let start = line_end + 2;
    let end = start + h.3;
    if buf.len() < end + 2 {
        ParseOutcome::NeedMoreData
    } else if buf[end] != 13 || buf[end + 1] != 10 {
        ParseOutcome::Error(ProtocolErrorModel::UnexpectedData)
    } else {
        ParseOutcome::Complete(
            CommandModel::Store {
                key: h.0,
                flags: h.1,
                exptime: h.2,
                data: buf.subrange(start, end),
                noreply: h.4,
            },
            (end + 2) as nat,
        )
    }
}

pub open spec fn delete_spec(args: Seq<Seq<u8>>, consumed: nat) -> ParseOutcome {
    if args.len() < 1 || args[0].len() == 0 {
        ParseOutcome::Error(ProtocolErrorModel::InvalidCommand("delete requires a key"@))
    } else if !valid_key(args[0]) {
        ParseOutcome::Error(key_error(args[0]))
    } else {
        ParseOutcome::Complete(
            CommandModel::Delete {
                key: args[0],
                noreply: exists|j: int| 1 <= j < args.len() && args[j] == ascii("noreply"@),
            },
            consumed,
        )
    }
}

/// What the parser makes of a buffer.
pub open spec fn parse_spec(buf: Seq<u8>) -> ParseOutcome {
    match line_end(buf) {
        None => ParseOutcome::NeedMoreData,
        Some(e) => {
            let toks = split_spaces(buf.take(e));
            let name = toks[0];
            let args = toks.skip(1);
            let consumed = (e + 2) as nat;
            if name.len() == 0 {
                ParseOutcome::Error(ProtocolErrorModel::InvalidCommand("empty command"@))
            } else if names(name, ascii("get"@)) {
                get_spec(args, consumed)
            } else if names(name, ascii("set"@)) {
                match set_header(args) {
                    Err(er) => ParseOutcome::Error(er),
                    Ok(h) => body_spec(buf, h, e),
                }
            } else if names(name, ascii("delete"@)) {
                delete_spec(args, consumed)
            } else if names(name, ascii("version"@)) {
                ParseOutcome::Complete(CommandModel::Version, consumed)
            } else if names(name, ascii("quit"@)) {
                ParseOutcome::Complete(CommandModel::Quit, consumed)
            } else {
                ParseOutcome::Error(ProtocolErrorModel::InvalidCommand(utf8_lossy(name)))
            }
        },
    }
}

/// What the header-only entry point makes of a buffer: nothing until a whole
/// line is there, nothing for a line that is not `set`.
pub open spec fn header_spec(buf: Seq<u8>) -> Result<Option<(Header, int)>, ProtocolErrorModel> {
    match line_end(buf) {
        None => Ok(None),
        Some(e) => {
            let toks = split_spaces(buf.take(e));
            if toks[0].len() == 0 {
                Err(ProtocolErrorModel::InvalidCommand("empty command"@))
            } else if !names(toks[0], ascii("set"@)) {
                Ok(None)
            } else {
                match set_header(toks.skip(1)) {
                    Err(er) => Err(er),
                    Ok(h) => Ok(Some((h, e))),
                }
            }
        },
    }
}

impl PendingStorageCommand {
    pub open spec fn header(&self) -> Header {
        (self.key@, self.flags, self.exptime, self.bytes as nat, self.noreply)
    }
}

// ---------------------------------------------------------------- code

pub open spec fn tokens_of(buf: Seq<u8>, spans: Seq<(usize, usize)>) -> Seq<Seq<u8>> {
    Seq::new(spans.len(), |k: int| buf.subrange(spans[k].0 as int, spans[k].1 as int))
}

pub open spec fn spans_within(spans: Seq<(usize, usize)>, bound: int) -> bool {
    forall|k: int| 0 <= k < spans.len() ==> #[trigger] spans[k].0 <= spans[k].1 && spans[k].1 <= bound
}

/// Finds the first CRLF.
fn find_crlf(buf: &[u8]) -> (r: Option<usize>)
    ensures
        r matches Some(i) ==> line_end(buf@) == Some(i as int) && i + 2 <= buf@.len() <= usize::MAX,
        r is None ==> line_end(buf@) is None,
{
    let mut i: usize = 0;
    while buf.len() > 1 && i < buf.len() - 1
        invariant
            i <= buf@.len(),
            line_end(buf@) == find_crlf_from(buf@, i as int),
        decreases buf@.len() - i,
    {
        if buf[i] == 13 && buf[i + 1] == 10 {
            return Some(i);
        }
        i = i + 1;
    }
    None
}

/// Splits `buf[..end]` at every space into token spans.
fn split_spans(buf: &[u8], end: usize) -> (spans: Vec<(usize, usize)>)
    requires
        end <= buf@.len(),
    ensures
        spans_within(spans@, end as int),
        spans_within(spans@, buf@.len() as int),
        tokens_of(buf@, spans@) == split_spaces(buf@.take(end as int)),
        spans@.len() >= 1,
{
    let mut spans: Vec<(usize, usize)> = Vec::new();
    let mut start: usize = 0;
    let mut i: usize = 0;
    proof {
        assert(buf@.take(0) =~= Seq::<u8>::empty());
        assert(tokens_of(buf@, spans@).push(buf@.subrange(0, 0)) =~= seq![Seq::<u8>::empty()]);
    }
    while i < end
        invariant
            start <= i <= end <= buf@.len(),
            spans_within(spans@, start as int),
            split_spaces(buf@.take(i as int)) == tokens_of(buf@, spans@).push(
                buf@.subrange(start as int, i as int),
            ),
        decreases end - i,
    {
        let ghost old_spans = spans@;
        proof {
            assert(buf@.take(i + 1).drop_last() =~= buf@.take(i as int));
            assert(buf@.take(i + 1).last() == buf@[i as int]);
        }
        if buf[i] == 32 {
            spans.push((start, i));
            proof {
                assert(tokens_of(buf@, spans@) =~= tokens_of(buf@, old_spans).push(
                    buf@.subrange(start as int, i as int),
                ));
                assert(buf@.subrange(i + 1, i + 1) =~= Seq::<u8>::empty());
                assert forall|k: int| 0 <= k < spans@.len() implies #[trigger] spans@[k].0
                    <= spans@[k].1 && spans@[k].1 <= i + 1 by {
                    if k < old_spans.len() {
                        assert(spans@[k] == old_spans[k]);
                    }
                }
            }
            start = i + 1;
        } else {
            proof {
                assert(buf@.subrange(start as int, i as int).push(buf@[i as int]) =~= buf@.subrange(
                    start as int,
                    i + 1,
                ));
                let t = tokens_of(buf@, spans@).push(buf@.subrange(start as int, i as int));
                assert(t.update(t.len() - 1, t.last().push(buf@[i as int])) =~= tokens_of(
                    buf@,
                    spans@,
                ).push(buf@.subrange(start as int, i + 1)));
            }
        }
        i = i + 1;
    }
    let ghost before = spans@;
    spans.push((start, end));
    proof {
        assert forall|k: int| 0 <= k < spans@.len() implies #[trigger] spans@[k].0
            <= spans@[k].1 && spans@[k].1 <= end by {
            if k < before.len() {
                assert(spans@[k] == before[k]);
            }
        }
        assert(tokens_of(buf@, spans@) =~= tokens_of(buf@, before).push(
            buf@.subrange(start as int, end as int),
        ));
    }
    spans
}

/// ASCII case-insensitive comparison with a lower-case name, without
/// allocating.
fn cmd_eq(cmd: &[u8], expected: &[u8]) -> (r: bool)
    ensures
        r == names(cmd@, expected@),
{
    if cmd.len() != expected.len() {
        return false;
    }
    let mut i: usize = 0;
    while i < cmd.len()
        invariant
            cmd@.len() == expected@.len(),
            i <= cmd@.len(),
            forall|j: int| 0 <= j < i ==> lower(#[trigger] cmd@[j]) == expected@[j],
        decreases cmd@.len() - i,
    {
        let b = cmd[i];
        let l = if 65 <= b && b <= 90 {
            b + 32
        } else {
            b
        };
        if l != expected[i] {
            return false;
        }
        i = i + 1;
    }
    true
}

/// The error for a key that fails the key rules.
fn key_error_of(key: &[u8]) -> (r: ProtocolError)
    ensures
        r@ == key_error(key@),
{
    if key.len() > MAX_KEY_LENGTH {
        ProtocolError::KeyTooLong
    } else {
        ProtocolError::InvalidKey(lossy_string(key))
    }
}

proof fn lemma_get_keys_err_sticky(args: Seq<Seq<u8>>, j: int, e: ProtocolErrorModel)
    requires
        0 <= j <= args.len(),
        get_keys(args.take(j)) == Err::<Seq<Seq<u8>>, ProtocolErrorModel>(e),
    ensures
        get_keys(args) == Err::<Seq<Seq<u8>>, ProtocolErrorModel>(e),
    decreases args.len() - j,
{
    if j == args.len() {
        assert(args.take(j) =~= args);
    } else {
        assert(args.take(j + 1).drop_last() =~= args.take(j));
        lemma_get_keys_err_sticky(args, j + 1, e);
    }
}

fn parse_get(buf: &[u8], spans: &Vec<(usize, usize)>, consumed: usize) -> (r: ParseResult)
    requires
        spans_within(spans@, buf@.len() as int),
        spans@.len() >= 1,
    ensures
        r@ == get_spec(tokens_of(buf@, spans@).skip(1), consumed as nat),
{
    let ghost args = tokens_of(buf@, spans@).skip(1);
    let mut keys: Vec<Vec<u8>> = Vec::new();
    let mut k: usize = 1;
    proof {
        assert(args.take(0) =~= Seq::<Seq<u8>>::empty());
        assert(views(keys@) =~= Seq::<Seq<u8>>::empty());
    }
    while k < spans.len()
        invariant
            1 <= k <= spans@.len(),
            spans_within(spans@, buf@.len() as int),
            args == tokens_of(buf@, spans@).skip(1),
            get_keys(args.take(k - 1)) == Ok::<Seq<Seq<u8>>, ProtocolErrorModel>(views(keys@)),
        decreases spans@.len() - k,
    {
        let (s, e) = spans[k];
        let part = slice_range(buf, s, e);
        proof {
            assert(args.take(k as int).drop_last() =~= args.take(k - 1));
            assert(args.take(k as int).last() == part@);
        }
        if part.len() == 0 {
            k = k + 1;
        } else if !is_valid_key(part) {
            let err = key_error_of(part);
            proof {
                lemma_get_keys_err_sticky(args, k as int, err@);
            }
            return ParseResult::Error(err);
        } else {
            let ghost before = keys@;
            keys.push(vstd::slice::slice_to_vec(part));
            proof {
                assert(views(keys@) =~= views(before).push(part@));
            }
            k = k + 1;
        }
    }
    proof {
        assert(args.take(k - 1) =~= args);
    }
    if keys.len() == 0 {
        return ParseResult::Error(
            ProtocolError::InvalidCommand(owned_text("get requires at least one key")),
        );
    }
    ParseResult::Complete(Command::Get { keys }, consumed)
}

/// Reads the header fields of a `set` line from its token spans.
fn read_header(buf: &[u8], spans: &Vec<(usize, usize)>) -> (r: Result<
    PendingStorageCommand,
    ProtocolError,
>)
    requires
        spans_within(spans@, buf@.len() as int),
        spans@.len() >= 1,
    ensures
        match r {
            Ok(p) => set_header(tokens_of(buf@, spans@).skip(1)) == Ok::<
                Header,
                ProtocolErrorModel,
            >(p.header()),
            Err(e) => set_header(tokens_of(buf@, spans@).skip(1)) == Err::<
                Header,
                ProtocolErrorModel,
            >(e@),
        },
{
    let ghost args = tokens_of(buf@, spans@).skip(1);
    let n = spans.len();
    if n < 2 || spans[1].0 == spans[1].1 {
        return Err(ProtocolError::InvalidCommand(owned_text("missing key")));
    }
    let key = slice_range(buf, spans[1].0, spans[1].1);
    assert(key@ == args[0]);
    if !is_valid_key(key) {
        return Err(key_error_of(key));
    }
    if n < 3 {
        return Err(ProtocolError::InvalidFlags);
    }
    let flags = match parse_decimal(slice_range(buf, spans[2].0, spans[2].1), u32::MAX as u64) {
        Some(f) => f as u32,
        None => {
            return Err(ProtocolError::InvalidFlags);
        },
    };
    if n < 4 {
        return Err(ProtocolError::InvalidExptime);
    }
    let exptime = match parse_decimal(slice_range(buf, spans[3].0, spans[3].1), u64::MAX) {
        Some(x) => x,
        None => {
            return Err(ProtocolError::InvalidExptime);
        },
    };
    if n < 5 {
        return Err(ProtocolError::InvalidBytesLength);
    }
    let bytes = match parse_decimal(slice_range(buf, spans[4].0, spans[4].1), usize::MAX as u64) {
        Some(b) => b as usize,
        None => {
            return Err(ProtocolError::InvalidBytesLength);
        },
    };
    proof {
        reveal_strlit("noreply");
    }
    let noreply = n >= 6 && bytes_eq(slice_range(buf, spans[5].0, spans[5].1), ascii_lit("noreply"));
    Ok(
        PendingStorageCommand {
            key: vstd::slice::slice_to_vec(key),
            flags,
            exptime,
            bytes,
            noreply,
            command_line_end: 0,
        },
    )
}

/// The data phase of a `set`, given its header and where its line ends.
fn complete_set(buf: &[u8], p: &PendingStorageCommand, line_end: usize) -> (r: ParseResult)
    ensures
        r@ == body_spec(buf@, p.header(), line_end as int),
{
    let len = buf.len();
    if line_end > len || len - line_end < 2 {
        return ParseResult::NeedMoreData;
    }
    let start = line_end + 2;
    if len - start < p.bytes || len - start - p.bytes < 2 {
        return ParseResult::NeedMoreData;
    }
    let end = start + p.bytes;
    if buf[end] != 13 || buf[end + 1] != 10 {
        return ParseResult::Error(ProtocolError::UnexpectedData);
    }
    let data = vstd::slice::slice_to_vec(slice_range(buf, start, end));
    let cmd = Command::Store {
        key: p.key.clone(),
        flags: p.flags,
        exptime: p.exptime,
        data,
        noreply: p.noreply,
    };
    proof {
        assert(cmd@ == (CommandModel::Store {
            key: p.key@,
            flags: p.flags,
            exptime: p.exptime,
            data: buf@.subrange(start as int, end as int),
            noreply: p.noreply,
        }));
    }
    ParseResult::Complete(cmd, end + 2)
}

fn parse_delete(buf: &[u8], spans: &Vec<(usize, usize)>, consumed: usize) -> (r: ParseResult)
    requires
        spans_within(spans@, buf@.len() as int),
        spans@.len() >= 1,
    ensures
        r@ == delete_spec(tokens_of(buf@, spans@).skip(1), consumed as nat),
{
    let ghost args = tokens_of(buf@, spans@).skip(1);
    let n = spans.len();
    if n < 2 || spans[1].0 == spans[1].1 {
        return ParseResult::Error(
            ProtocolError::InvalidCommand(owned_text("delete requires a key")),
        );
    }
    let key = slice_range(buf, spans[1].0, spans[1].1);
    assert(key@ == args[0]);
    if !is_valid_key(key) {
        return ParseResult::Error(key_error_of(key));
    }
    proof {
        reveal_strlit("noreply");
    }
    let word = ascii_lit("noreply");
    let mut noreply = false;
    let mut k: usize = 2;
    while k < n
        invariant
            2 <= k <= n,
            n == spans@.len(),
            spans_within(spans@, buf@.len() as int),
            args == tokens_of(buf@, spans@).skip(1),
            word@ == ascii("noreply"@),
            noreply == exists|j: int| 1 <= j < k - 1 && args[j] == ascii("noreply"@),
        decreases n - k,
    {
        let tok = slice_range(buf, spans[k].0, spans[k].1);
        assert(tok@ == args[k - 1]);
        if bytes_eq(tok, word) {
            noreply = true;
        }
        k = k + 1;
    }
    let cmd = Command::Delete { key: vstd::slice::slice_to_vec(key), noreply };
    ParseResult::Complete(cmd, consumed)
}

/// Parses one command from the start of `buf`, consuming nothing: the
/// caller advances its buffer by the count in `Complete`.
pub fn parse(buf: &[u8]) -> (r: ParseResult)
    ensures
        r@ == parse_spec(buf@),
{
    let line_end = match find_crlf(buf) {
        Some(pos) => pos,
        None => {
            return ParseResult::NeedMoreData;
        },
    };
    proof {
        lemma_find_crlf_from(buf@, 0);
    }
    let spans = split_spans(buf, line_end);
    let ghost toks = split_spaces(buf@.take(line_end as int));
    let name = slice_range(buf, spans[0].0, spans[0].1);
    assert(name@ == toks[0]);
    if name.len() == 0 {
        return ParseResult::Error(ProtocolError::InvalidCommand(owned_text("empty command")));
    }
    proof {
        reveal_strlit("get");
        reveal_strlit("set");
        reveal_strlit("delete");
        reveal_strlit("version");
        reveal_strlit("quit");
    }
    if cmd_eq(name, ascii_lit("get")) {
        parse_get(buf, &spans, line_end + 2)
    } else if cmd_eq(name, ascii_lit("set")) {
        match read_header(buf, &spans) {
            Ok(p) => complete_set(buf, &p, line_end),
            Err(e) => ParseResult::Error(e),
        }
    } else if cmd_eq(name, ascii_lit("delete")) {
        parse_delete(buf, &spans, line_end + 2)
    } else if cmd_eq(name, ascii_lit("version")) {
        ParseResult::Complete(Command::Version, line_end + 2)
    } else if cmd_eq(name, ascii_lit("quit")) {
        ParseResult::Complete(Command::Quit, line_end + 2)
    } else {
        ParseResult::Error(ProtocolError::InvalidCommand(lossy_string(name)))
    }
}

/// Continues a `set` whose header was read before: waits for, checks and
/// takes its data block.
pub fn parse_storage_data(buf: &[u8], pending: &PendingStorageCommand) -> (r: ParseResult)
    ensures
        r@ == body_spec(buf@, pending.header(), pending.command_line_end as int),
{
    complete_set(buf, pending, pending.command_line_end)
}

/// Reads only the header line of a `set`, for a buffer whose data block may
/// not have arrived.
pub fn parse_storage_command_line(buf: &[u8]) -> (r: Result<
    Option<PendingStorageCommand>,
    ProtocolError,
>)
    ensures
        match r {
            Ok(None) => header_spec(buf@) == Ok::<Option<(Header, int)>, ProtocolErrorModel>(None),
            Ok(Some(p)) => header_spec(buf@) == Ok::<Option<(Header, int)>, ProtocolErrorModel>(
                Some((p.header(), p.command_line_end as int)),
            ),
            Err(e) => header_spec(buf@) == Err::<Option<(Header, int)>, ProtocolErrorModel>(e@),
        },
{
    let line_end = match find_crlf(buf) {
        Some(pos) => pos,
        None => {
            return Ok(None);
        },
    };
    proof {
        lemma_find_crlf_from(buf@, 0);
    }
    let spans = split_spans(buf, line_end);
    let ghost toks = split_spaces(buf@.take(line_end as int));
    let name = slice_range(buf, spans[0].0, spans[0].1);
    assert(name@ == toks[0]);
    if name.len() == 0 {
        return Err(ProtocolError::InvalidCommand(owned_text("empty command")));
    }
    proof {
        reveal_strlit("set");
    }
    if !cmd_eq(name, ascii_lit("set")) {
        return Ok(None);
    }
    match read_header(buf, &spans) {
        Ok(p) => {
            let mut p = p;
            p.command_line_end = line_end;
            Ok(Some(p))
        },
        Err(e) => Err(e),
    }
}


proof fn lemma_find_crlf_is(buf: Seq<u8>, i: int, e: int)
    requires
        0 <= i <= e,
        crlf_at(buf, e),
        forall|j: int| i <= j < e ==> !#[trigger] crlf_at(buf, j),
    ensures
        find_crlf_from(buf, i) == Some(e),
    decreases e - i,
{
    if i < e {
        assert(!crlf_at(buf, i));
        lemma_find_crlf_is(buf, i + 1, e);
    }
}

/// A command that parses whole is delimited by its own bytes: the first `n`
/// bytes that it consumed parse to the same command whatever follows them,
/// so none of the bytes of a following command belong to it.
pub proof fn lemma_complete_is_self_delimiting(buf: Seq<u8>, rest: Seq<u8>)
    requires
        parse_spec(buf) is Complete,
    ensures
        parse_spec(buf) matches ParseOutcome::Complete(_, n) ==> n <= buf.len() && parse_spec(
            buf.take(n as int) + rest,
        ) == parse_spec(buf),
{
    lemma_find_crlf_from(buf, 0);
    let e = line_end(buf)->Some_0;
    let n = parse_spec(buf)->Complete_1 as int;
    let toks = split_spaces(buf.take(e));
    let h = set_header(toks.skip(1));
    reveal_strlit("get");
    reveal_strlit("set");
    if names(toks[0], ascii("set"@)) && toks[0].len() != 0 && h is Ok {
        assert(lower(toks[0][0]) == 115);
        assert(!names(toks[0], ascii("get"@)));
        assert(n == e + 2 + h->Ok_0.3 + 2);
    } else {
        assert(n == e + 2);
    }
    let buf2 = buf.take(n) + rest;
    assert forall|j: int| 0 <= j < n implies #[trigger] buf2[j] == buf[j] by {}
    assert(crlf_at(buf2, e));
    assert forall|j: int| 0 <= j < e implies !#[trigger] crlf_at(buf2, j) by {
        assert(!crlf_at(buf, j));
    }
    lemma_find_crlf_is(buf2, 0, e);
    assert(buf2.take(e) =~= buf.take(e));
    if names(toks[0], ascii("set"@)) && toks[0].len() != 0 && h is Ok {
        let start = e + 2;
        let end = start + h->Ok_0.3;
        assert(buf2.subrange(start, end) =~= buf.subrange(start, end));
    }
}


/// A `set` header read on its own agrees with the whole parser: once the
/// header entry point has read a header from a buffer, parsing the buffer is
/// the data phase of that header.
pub proof fn lemma_header_agrees(buf: Seq<u8>, h: Header, e: int)
    requires
        header_spec(buf) == Ok::<Option<(Header, int)>, ProtocolErrorModel>(Some((h, e))),
    ensures
        parse_spec(buf) == body_spec(buf, h, e),
{
    let toks = split_spaces(buf.take(e));
    reveal_strlit("get");
    reveal_strlit("set");
    assert(lower(toks[0][0]) == 115);
    assert(!names(toks[0], ascii("get"@)));
}

/// The header read from a buffer stays the header when more bytes arrive.
pub proof fn lemma_header_extends(buf: Seq<u8>, more: Seq<u8>)
    requires
        header_spec(buf) is Ok,
        header_spec(buf)->Ok_0 is Some,
    ensures
        header_spec(buf + more) == header_spec(buf),
{
    lemma_find_crlf_from(buf, 0);
    let e = line_end(buf)->Some_0;
    let buf2 = buf + more;
    assert forall|j: int| 0 <= j < buf.len() implies #[trigger] buf2[j] == buf[j] by {}
    assert(crlf_at(buf2, e));
    assert forall|j: int| 0 <= j < e implies !#[trigger] crlf_at(buf2, j) by {
        assert(!crlf_at(buf, j));
    }
    lemma_find_crlf_is(buf2, 0, e);
    assert(buf2.take(e) =~= buf.take(e));
}

/// Skipping bytes that start no CRLF does not change where the next one is.
pub proof fn lemma_find_crlf_skip(buf: Seq<u8>, from: int, to: int)
    requires
        0 <= from <= to,
        forall|j: int| from <= j < to ==> !#[trigger] crlf_at(buf, j),
    ensures
        find_crlf_from(buf, from) == find_crlf_from(buf, to),
    decreases to - from,
{
    if from < to {
        assert(!crlf_at(buf, from));
        lemma_find_crlf_skip(buf, from + 1, to);
    }
}

} // verus!
