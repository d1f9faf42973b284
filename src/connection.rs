//! The decisions of one connection: what its buffered bytes mean, what to
//! do next, and how the buffer moves on. The I/O loop around it feeds bytes
//! in and carries the steps out.
use crate::error::{ProtocolError, ProtocolErrorModel};
use crate::protocol::command::{Command, CommandModel};
use crate::protocol::parser::{
    crlf_at, find_crlf_from, header_spec, lemma_find_crlf_from, lemma_find_crlf_skip,
    lemma_header_agrees, lemma_header_extends, line_end, parse, parse_spec,
    parse_storage_command_line, parse_storage_data, Header, ParseOutcome, ParseResult,
    PendingStorageCommand,
};
use crate::protocol::response::{
    buffered, bytes_clear, bytes_extend, bytes_slice, bytes_split_to, bytes_with_capacity,
};
use vstd::prelude::*;

verus! {

/// Relies on memchr::memchr: the index of the first occurrence of the byte.
#[verifier::external_body]
fn find_byte(needle: u8, haystack: &[u8]) -> (r: Option<usize>)
    ensures
        r matches Some(i) ==> i < haystack@.len() && haystack@[i as int] == needle && forall|j: int|
            0 <= j < i ==> haystack@[j] != needle,
        r is None ==> forall|j: int| 0 <= j < haystack@.len() ==> haystack@[j] != needle,
{
    memchr::memchr(needle, haystack)
}

/// How many bytes to drop after a malformed command: through the next CRLF,
/// or everything when there is none.
pub open spec fn resync_len(buf: Seq<u8>) -> nat {
    match line_end(buf) {
        Some(e) => (e + 2) as nat,
        None => buf.len(),
    }
}

/// Finds the first CRLF by jumping from one CR to the next.
pub fn find_line_end(buf: &[u8]) -> (r: Option<usize>)
    ensures
        r matches Some(i) ==> line_end(buf@) == Some(i as int) && i + 2 <= buf@.len() <= usize::MAX,
        r is None ==> line_end(buf@) is None,
{
    let len = buf.len();
    let mut from: usize = 0;
    while from < len
        invariant
            len == buf@.len(),
            from <= len,
            line_end(buf@) == find_crlf_from(buf@, from as int),
        decreases len - from,
    {
        let rest = crate::storage::value::slice_range(buf, from, len);
        match find_byte(13, rest) {
            None => {
                proof {
                    assert forall|j: int| from <= j implies !#[trigger] crlf_at(buf@, j) by {
                        if crlf_at(buf@, j) {
                            assert(rest@[j - from] == 13);
                        }
                    }
                    lemma_find_crlf_from(buf@, from as int);
                }
                return None;
            },
            Some(off) => {
                let i = from + off;
                proof {
                    assert forall|j: int| from <= j < i implies !#[trigger] crlf_at(buf@, j) by {
                        assert(rest@[j - from] != 13);
                    }
                    lemma_find_crlf_skip(buf@, from as int, i as int);
                }
                if i + 1 < len && buf[i + 1] == 10 {
                    return Some(i);
                }
                proof {
                    assert(!crlf_at(buf@, i as int));
                    lemma_find_crlf_skip(buf@, i as int, i + 1);
                }
                from = i + 1;
            },
        }
    }
    proof {
        lemma_find_crlf_from(buf@, from as int);
    }
    None
}

/// What the engine does next with a connection's buffered bytes.
#[derive(Debug)]
pub enum Step {
    /// Execute the command; send its response unless `reply` is false.
    Execute { cmd: Command, reply: bool },
    /// The buffer holds no whole command: read more bytes.
    Wait,
    /// The buffer started with a malformed command, now dropped through the
    /// next CRLF: answer `CLIENT_ERROR` and go on.
    Reject(ProtocolError),
}

/// A step over models.
pub enum StepModel {
    Execute(CommandModel, bool),
    Wait,
    Reject(ProtocolErrorModel),
}

impl View for Step {
    type V = StepModel;

    open spec fn view(&self) -> StepModel {
        match self {
            Step::Execute { cmd, reply } => StepModel::Execute(cmd@, *reply),
            Step::Reject(e) => StepModel::Reject(e@),
            Step::Wait => StepModel::Wait,
        }
    }
}

/// The steps that a stream of bytes gives, in order: one per whole command,
/// carrying whether it is answered, one per rejected line; they stop before
/// the first incomplete command and after `quit`.
pub open spec fn stream_steps(buf: Seq<u8>) -> Seq<StepModel>
    decreases buf.len(),
    via stream_steps_decreases
{
    match parse_spec(buf) {
        ParseOutcome::NeedMoreData => Seq::empty(),
        ParseOutcome::Complete(c, n) => {
            let first = StepModel::Execute(c, !c.noreply());
            if c is Quit {
                seq![first]
            } else {
                seq![first] + stream_steps(buf.skip(n as int))
            }
        },
        ParseOutcome::Error(e) => seq![StepModel::Reject(e)] + stream_steps(
            buf.skip(resync_len(buf) as int),
        ),
    }
}

/// What is left of a stream after its steps.
pub open spec fn stream_rest(buf: Seq<u8>) -> Seq<u8>
    decreases buf.len(),
    via stream_rest_decreases
{
    match parse_spec(buf) {
        ParseOutcome::NeedMoreData => buf,
        ParseOutcome::Complete(c, n) => if c is Quit {
            buf.skip(n as int)
        } else {
            stream_rest(buf.skip(n as int))
        },
        ParseOutcome::Error(e) => stream_rest(buf.skip(resync_len(buf) as int)),
    }
}

#[via_fn]
proof fn stream_steps_decreases(buf: Seq<u8>) {
    lemma_consumed_fits(buf);
}

#[via_fn]
proof fn stream_rest_decreases(buf: Seq<u8>) {
    lemma_consumed_fits(buf);
}

/// Commands are stepped in the order they arrive: the steps of a stream
/// that starts with a whole command other than `quit` are that command's
/// step, answered exactly when it did not ask for `noreply`, then the steps
/// of what follows it.
pub proof fn lemma_stream_order(first: Seq<u8>, rest: Seq<u8>)
    requires
        parse_spec(first) matches ParseOutcome::Complete(c, n) && n == first.len() && !(c is Quit),
    ensures
        parse_spec(first) matches ParseOutcome::Complete(c, n) ==> stream_steps(first + rest) == seq![
            StepModel::Execute(c, !c.noreply())
        ] + stream_steps(rest),
{
    let n = parse_spec(first)->Complete_1;
    crate::protocol::parser::lemma_complete_is_self_delimiting(first, rest);
    assert(first.take(n as int) =~= first);
    lemma_consumed_fits(first + rest);
    assert((first + rest).skip(n as int) =~= rest);
}

/// The parse state of one connection: its read buffer, and the header of a
/// `set` whose data block has not arrived yet.
pub struct Connection {
    read_buf: bytes::BytesMut,
    pending: Option<PendingStorageCommand>,
}

impl View for Connection {
    type V = Seq<u8>;

    closed spec fn view(&self) -> Seq<u8> {
        buffered(self.read_buf)
    }
}

impl Connection {
    /// The remembered header, when there is one, is the header of the
    /// buffered bytes.
    pub closed spec fn wf(&self) -> bool {
        self.pending matches Some(p) ==> header_spec(buffered(self.read_buf)) == Ok::<
            Option<(Header, int)>,
            ProtocolErrorModel,
        >(Some((p.header(), p.command_line_end as int)))
    }

    /// A connection with an empty read buffer of the given capacity.
    pub fn new(capacity: usize) -> (r: Self)
        requires
            capacity <= isize::MAX,
        ensures
            r@ == Seq::<u8>::empty(),
            r.wf(),
    {
        Connection { read_buf: bytes_with_capacity(capacity), pending: None }
    }

    /// The bytes buffered and not yet consumed.
    pub fn buffered(&self) -> (r: &[u8])
        ensures
            r@ == self@,
    {
        bytes_slice(&self.read_buf)
    }

    /// Appends bytes read from the peer.
    pub fn receive(&mut self, bytes: &[u8])
        requires
            old(self).wf(),
            old(self)@.len() + bytes@.len() <= isize::MAX,
        ensures
            final(self).wf(),
            final(self)@ == old(self)@ + bytes@,
    {
        proof {
            if self.pending is Some {
                lemma_header_extends(buffered(self.read_buf), bytes@);
            }
        }
        bytes_extend(&mut self.read_buf, bytes);
    }

    /// Decides the next step from the buffered bytes, and consumes what that
    /// step accounts for. The outcome is the parse of the whole buffer,
    /// whether or not a remembered `set` header spared reading its line again.
    pub fn next_step(&mut self) -> (r: Step)
        requires
            old(self).wf(),
        ensures
            final(self).wf(),
            match parse_spec(old(self)@) {
                ParseOutcome::Complete(c, n) => r matches Step::Execute { cmd, reply } && cmd@ == c
                    && reply == !c.noreply() && final(self)@ == old(self)@.skip(n as int),
                ParseOutcome::NeedMoreData => r is Wait && final(self)@ == old(self)@,
                ParseOutcome::Error(e) => r matches Step::Reject(x) && x@ == e && final(self)@
                    == old(self)@.skip(resync_len(old(self)@) as int),
            },
    {
        let ghost buf = self@;
        let result = match &self.pending {
            Some(p) => {
                proof {
                    lemma_header_agrees(buf, p.header(), p.command_line_end as int);
                }
                parse_storage_data(bytes_slice(&self.read_buf), p)
            },
            None => parse(bytes_slice(&self.read_buf)),
        };
        match result {
            ParseResult::Complete(cmd, consumed) => {
                self.pending = None;
                proof {
                    lemma_consumed_fits(buf);
                }
                let _ = bytes_split_to(&mut self.read_buf, consumed);
                let reply = !cmd.is_noreply();
                Step::Execute { cmd, reply }
            },
            ParseResult::NeedMoreData => {
                if self.pending.is_none() {
                    match parse_storage_command_line(bytes_slice(&self.read_buf)) {
                        Ok(Some(p)) => {
                            self.pending = Some(p);
                        },
                        _ => {},
                    }
                }
                Step::Wait
            },
            ParseResult::Error(e) => {
                self.pending = None;
                match find_line_end(bytes_slice(&self.read_buf)) {
                    Some(pos) => {
                        let _ = bytes_split_to(&mut self.read_buf, pos + 2);
                    },
                    None => {
                        bytes_clear(&mut self.read_buf);
                        proof {
                            assert(buf.skip(buf.len() as int) =~= Seq::<u8>::empty());
                        }
                    },
                }
                Step::Reject(e)
            },
        }
    }
}

impl Connection {
    /// Takes every step that the buffered bytes allow, in order, stopping
    /// at the first incomplete command or after `quit`.
    pub fn drain(&mut self) -> (steps: Vec<Step>)
        requires
            old(self).wf(),
        ensures
            final(self).wf(),
            steps@.map_values(|s: Step| s@) == stream_steps(old(self)@),
            final(self)@ == stream_rest(old(self)@),
    {
        let ghost start = self@;
        let mut steps: Vec<Step> = Vec::new();
        proof {
            assert(steps@.map_values(|s: Step| s@) + stream_steps(self@) =~= stream_steps(start));
        }
        loop
            invariant
                start == old(self)@,
                self.wf(),
                steps@.map_values(|s: Step| s@) + stream_steps(self@) == stream_steps(start),
                stream_rest(self@) == stream_rest(start),
            decreases self@.len(),
        {
            let ghost before = self@;
            let ghost old_steps = steps@;
            proof {
                lemma_consumed_fits(before);
            }
            let step = self.next_step();
            match step {
                Step::Wait => {
                    proof {
                        assert(stream_rest(before) == before);
                        assert(steps@.map_values(|s: Step| s@) =~= stream_steps(start));
                    }
                    return steps;
                },
                Step::Execute { cmd, reply } => {
                    let quit = match &cmd {
                        Command::Quit => true,
                        _ => false,
                    };
                    steps.push(Step::Execute { cmd, reply });
                    proof {
                        assert(steps@.map_values(|s: Step| s@) =~= old_steps.map_values(|s: Step| s@).push(
                            steps@.last()@,
                        ));
                    }
                    if quit {
                        proof {
                            assert(steps@.map_values(|s: Step| s@) =~= stream_steps(start));
                        }
                        return steps;
                    }
                },
                Step::Reject(e) => {
                    steps.push(Step::Reject(e));
                    proof {
                        assert(steps@.map_values(|s: Step| s@) =~= old_steps.map_values(|s: Step| s@).push(
                            steps@.last()@,
                        ));
                    }
                },
            }
        }
    }
}

/// A whole command takes at least its CRLF and no more bytes than the
/// buffer holds; a rejected line is dropped through its CRLF.
proof fn lemma_consumed_fits(buf: Seq<u8>)
    ensures
        parse_spec(buf) matches ParseOutcome::Complete(_, n) ==> 2 <= n <= buf.len(),
        parse_spec(buf) is Error ==> 2 <= resync_len(buf) <= buf.len(),
{
    lemma_find_crlf_from(buf, 0);
    if parse_spec(buf) is Complete {
        crate::protocol::parser::lemma_complete_is_self_delimiting(buf, Seq::empty());
    }
}

} // verus!
