//! The shell session: owns the duplex byte channel, synchronizes with the
//! remote shell by hammering the interrupt byte until the prompt echoes the
//! acknowledgement token, and then executes commands reliably against that
//! captured prompt prefix. Also the memory-load entry point that hands the
//! channel to the transfer protocol engine.

use vstd::prelude::*;
use vstd::string::StringSliceAdditionalSpecFns;

use crate::channel::{ProgressSink, RxChannel, TransportError, TxChannel};
use crate::error::{transport_err, UbootError};
use crate::text::{
    byte_vec, bytes_to_string, concat_bytes, contains_seq, copy_range, ends_with,
    spec_ends_with, spec_trim, spec_trim_end, spec_trim_end_matches, spec_trim_start,
    spec_trim_start_matches, trim, trim_end, trim_end_matches, trim_start_matches,
};
use crate::num::{hex_bytes, parse_int};

verus! {

/// Milliseconds a single byte may stay unanswered before the read fails.
pub const BYTE_DEADLINE_MS: u64 = 5000;

/// How many times a full command round trip is attempted.
pub const CMD_ATTEMPTS: usize = 3;

/// The byte that asks the remote shell to interrupt whatever runs.
pub const INTERRUPT_BYTE: u8 = 0x03;

/// The literal token the remote shell echoes when it acknowledges the
/// interrupt; the text before it is the prompt prefix.
pub open spec fn spec_int_token() -> Seq<u8> {
    seq![0x3cu8, 0x49, 0x4e, 0x54, 0x45, 0x52, 0x52, 0x55, 0x50, 0x54, 0x3e]
}

fn int_token() -> (r: Vec<u8>)
    ensures
        r@ == spec_int_token(),
{
    let mut v: Vec<u8> = Vec::new();
    v.push(0x3c);
    v.push(0x49);
    v.push(0x4e);
    v.push(0x54);
    v.push(0x45);
    v.push(0x52);
    v.push(0x52);
    v.push(0x55);
    v.push(0x50);
    v.push(0x54);
    v.push(0x3e);
    proof {
        assert(v@ =~= spec_int_token());
    }
    v
}

/// The marker a successful command echoes last.
pub open spec fn spec_ok_marker() -> Seq<u8> {
    seq![0x63u8, 0x6d, 0x64, 0x2d, 0x6f, 0x6b]
}

fn ok_marker() -> (r: Vec<u8>)
    ensures
        r@ == spec_ok_marker(),
{
    let mut v: Vec<u8> = Vec::new();
    v.push(0x63);
    v.push(0x6d);
    v.push(0x64);
    v.push(0x2d);
    v.push(0x6f);
    v.push(0x6b);
    proof {
        assert(v@ =~= spec_ok_marker());
    }
    v
}

/// What is appended to a command so that success shows: the shell
/// conjunction that echoes the marker.
pub open spec fn spec_marker_suffix() -> Seq<u8> {
    seq![0x26u8, 0x26, 0x20, 0x65, 0x63, 0x68, 0x6f, 0x20] + spec_ok_marker()
}

fn marker_suffix() -> (r: Vec<u8>)
    ensures
        r@ == spec_marker_suffix(),
{
    let mut v: Vec<u8> = Vec::new();
    v.push(0x26);
    v.push(0x26);
    v.push(0x20);
    v.push(0x65);
    v.push(0x63);
    v.push(0x68);
    v.push(0x6f);
    v.push(0x20);
    v.push(0x63);
    v.push(0x6d);
    v.push(0x64);
    v.push(0x2d);
    v.push(0x6f);
    v.push(0x6b);
    proof {
        assert(v@ =~= spec_marker_suffix());
    }
    v
}

/// The transmitted line of a command: the command text with the success
/// marking suffix appended.
pub open spec fn spec_cmd_line(cmd: Seq<u8>) -> Seq<u8> {
    cmd + spec_marker_suffix()
}

/// What a command's reply reduces to once the prompt text is stripped:
/// first the reply is cleaned against the trimmed prompt, then the success
/// marker decides. With the marker present, the echoed command line and the
/// marker are stripped and the surrounded output remains; without it, the
/// command failed and there is no output.
pub open spec fn spec_extract_cmd_output(w: Seq<u8>, perfix: Seq<u8>, cmd_line: Seq<u8>) -> Option<
    Seq<u8>,
> {
    let res = spec_trim_end(spec_trim_end_matches(spec_trim_end(w), spec_trim(perfix)));
    if spec_ends_with(res, spec_ok_marker()) {
        Some(
            spec_trim(
                spec_trim_start_matches(
                    spec_trim_end(spec_trim_end_matches(spec_trim(res), spec_ok_marker())),
                    cmd_line,
                ),
            ),
        )
    } else {
        None
    }
}

/// The reply `raw`, delimited by the prompt `perfix`, reduces for the
/// command `cmd` to the output `out`.
pub open spec fn spec_cmd_reply(raw: Seq<u8>, perfix: Seq<u8>, cmd: Seq<u8>, out: Seq<u8>) -> bool {
    spec_extract_cmd_output(
        spec_trim_end_matches(spec_trim(raw), perfix),
        perfix,
        spec_cmd_line(cmd),
    ) == Some(out)
}

/// The reply `raw`, delimited by the prompt `perfix`, shows no success
/// marker for the command `cmd`.
pub open spec fn spec_cmd_reply_failed(raw: Seq<u8>, perfix: Seq<u8>, cmd: Seq<u8>) -> bool {
    spec_extract_cmd_output(
        spec_trim_end_matches(spec_trim(raw), perfix),
        perfix,
        spec_cmd_line(cmd),
    ) == None::<Seq<u8>>
}

/// Some reply delimited by the prompt `perfix` reduced for the command
/// `cmd` to the output `out`.
pub open spec fn spec_some_cmd_reply(perfix: Seq<u8>, cmd: Seq<u8>, out: Seq<u8>) -> bool {
    exists|raw: Seq<u8>| #[trigger] spec_cmd_reply(raw, perfix, cmd, out)
}

/// Some reply delimited by the prompt `perfix` showed no success marker
/// for the command `cmd`, and `d` is its text where it decodes.
pub open spec fn spec_some_cmd_rejection(perfix: Seq<u8>, cmd: Seq<u8>, d: Seq<char>) -> bool {
    exists|raw: Seq<u8>|
        #[trigger] spec_cmd_reply_failed(raw, perfix, cmd) && (vstd::utf8::valid_utf8(raw) ==> d
            == vstd::utf8::decode_utf8(raw))
}

/// The command that reads an environment variable: `echo $` and the name.
pub open spec fn spec_echo_cmd(name: Seq<u8>) -> Seq<u8> {
    seq![0x65u8, 0x63, 0x68, 0x6f, 0x20, 0x24] + name
}

/// The command that sets an environment variable: `setenv`, the name and
/// the value, space-separated.
pub open spec fn spec_setenv_cmd(name: Seq<u8>, value: Seq<u8>) -> Seq<u8> {
    seq![0x73u8, 0x65, 0x74, 0x65, 0x6e, 0x76, 0x20] + name + seq![0x20u8] + value
}

/// The failure text whose appearance shows that the memory-load command is
/// not understood by the remote shell.
pub open spec fn spec_load_fail_text() -> Seq<u8> {
    seq![0x74u8, 0x72, 0x79, 0x20, 0x27, 0x68, 0x65, 0x6c, 0x70, 0x27]
}

/// A well-formed command reply reduces to exactly the command's output.
///
/// When the remote answers with the output, the success marker and the
/// prompt prefix on lines of their own, what command execution hands back
/// is precisely that output: neither the marker, nor the prompt, nor any
/// padding survives. The output and the prompt must not touch white space
/// at their ends, the prompt may not be a suffix of the output lines, and
/// the output may not begin with the echoed command line; a remote shell
/// honouring ordinary echo conventions satisfies all of that.
pub proof fn lemma_extract_clean_reply(out: Seq<u8>, pfx: Seq<u8>, cmd_line: Seq<u8>)
    requires
        out.len() > 0,
        !crate::text::is_ws(out[0]),
        !crate::text::is_ws(out.last()),
        pfx.len() > 0,
        !crate::text::is_ws(pfx[0]),
        !crate::text::is_ws(pfx.last()),
        !spec_ends_with(out + seq![0x0au8] + spec_ok_marker(), pfx),
        !crate::text::spec_starts_with(out, cmd_line),
    ensures
        spec_extract_cmd_output(
            spec_trim_end_matches(
                spec_trim(out + seq![0x0au8] + spec_ok_marker() + seq![0x0au8] + pfx),
                pfx,
            ),
            pfx,
            cmd_line,
        ) == Some(out),
{
    let nl: Seq<u8> = seq![0x0au8];
    let mk = spec_ok_marker();
    let raw = out + nl + mk + nl + pfx;
    let body = out + nl + mk + nl;
    let res0 = out + nl + mk;

    // the raw reply has no white space at either end, so trimming keeps it
    assert(raw[0] == out[0]);
    assert(raw.last() == pfx.last());
    assert(spec_trim_end(raw) == raw);
    assert(spec_trim_start(raw) == raw);
    assert(spec_trim(raw) == raw);

    // exactly one trailing prompt is stripped
    assert(raw.skip(raw.len() - pfx.len()) =~= pfx);
    assert(spec_ends_with(raw, pfx));
    assert(raw.take(raw.len() - pfx.len()) =~= body);
    assert(spec_trim_end_matches(raw, pfx) == spec_trim_end_matches(body, pfx));
    assert(!spec_ends_with(body, pfx)) by {
        if spec_ends_with(body, pfx) {
            assert(body.skip(body.len() - pfx.len())[pfx.len() - 1] == pfx.last());
            assert(body.last() == pfx.last());
            assert(body.last() == 0x0a);
        }
    };
    assert(spec_trim_end_matches(body, pfx) == body);

    // the reply ends in a line break, which the first cleaning step drops
    assert(body.last() == 0x0a);
    assert(body.take(body.len() - 1) =~= res0);
    assert(spec_trim_end(body) == spec_trim_end(res0));
    assert(res0.last() == 0x6b);
    assert(spec_trim_end(res0) == res0);

    // the trimmed prompt strips nothing further
    assert(spec_trim_end(pfx) == pfx);
    assert(spec_trim_start(pfx) == pfx);
    assert(spec_trim(pfx) == pfx);
    assert(spec_trim_end_matches(res0, pfx) == res0);
    assert(spec_trim_end(spec_trim_end_matches(spec_trim_end(body), spec_trim(pfx))) == res0);

    // the marker is present, so the reply counts as success
    assert(res0.skip(res0.len() - mk.len()) =~= mk);
    assert(spec_ends_with(res0, mk));

    // the marker goes, its line break goes, and the output remains
    assert(res0[0] == out[0]);
    assert(spec_trim_start(res0) == res0);
    assert(spec_trim(res0) == res0);
    assert(res0.take(res0.len() - mk.len()) =~= out + nl);
    assert(spec_trim_end_matches(res0, mk) == spec_trim_end_matches(out + nl, mk));
    assert(!spec_ends_with(out + nl, mk)) by {
        if spec_ends_with(out + nl, mk) {
            assert((out + nl).skip((out + nl).len() - mk.len())[mk.len() - 1] == mk.last());
            assert((out + nl).last() == mk.last());
        }
    };
    assert(spec_trim_end_matches(out + nl, mk) == out + nl);
    assert((out + nl).take((out + nl).len() - 1) =~= out);
    assert(spec_trim_end(out + nl) == spec_trim_end(out));
    assert(spec_trim_end(out) == out);

    // the output does not begin with the echoed command line
    assert(crate::text::spec_trim_start_matches(out, cmd_line) == out);
    assert(spec_trim_start(out) == out);
    assert(spec_trim(out) == out);
}

/// The pure half of command execution: given the text that arrived for a
/// command (already delimited by the prompt), the prompt prefix and the
/// transmitted command line, computes the command's output, or nothing when
/// the success marker is absent.
pub fn extract_cmd_output(w: &[u8], perfix: &[u8], cmd_line: &[u8]) -> (r: Option<Vec<u8>>)
    ensures
        match r {
            Some(v) => spec_extract_cmd_output(w@, perfix@, cmd_line@) == Some(v@),
            None => spec_extract_cmd_output(w@, perfix@, cmd_line@) == None::<Seq<u8>>,
        },
{
    let perfix_trimmed = trim(perfix);
    let step1 = trim_end(w);
    let step2 = trim_end_matches(step1.as_slice(), perfix_trimmed.as_slice());
    let res = trim_end(step2.as_slice());
    let marker = ok_marker();
    if ends_with(res.as_slice(), marker.as_slice()) {
        let s1 = trim(res.as_slice());
        let s2 = trim_end_matches(s1.as_slice(), marker.as_slice());
        let s3 = trim_end(s2.as_slice());
        let s4 = trim_start_matches(s3.as_slice(), cmd_line);
        Some(trim(s4.as_slice()))
    } else {
        None
    }
}

/// A synchronized shell session over a duplex byte channel. Created once
/// the remote prompt has been captured; the prompt prefix is immutable
/// thereafter and delimits every subsequent command's output.
pub struct UbootShell<T: TxChannel, R: RxChannel> {
    /// Transmit half of the channel.
    pub tx: T,
    /// Receive half of the channel.
    pub rx: R,
    /// Shell prompt prefix captured during synchronization.
    perfix: Vec<u8>,
}

impl<T: TxChannel, R: RxChannel> UbootShell<T, R> {
    /// The captured prompt prefix, as contracts speak of it.
    pub closed spec fn spec_perfix(&self) -> Seq<u8> {
        self.perfix@
    }

    /// The captured prompt prefix.
    pub fn prompt_perfix(&self) -> (r: &Vec<u8>)
        ensures
            r@ == self.spec_perfix(),
    {
        &self.perfix
    }

    /// Creates a session and blocks until the remote shell is synchronized:
    /// the interrupt byte is sent again and again while arriving lines are
    /// watched for the acknowledgement token, and the text before the token
    /// becomes the prompt prefix.
    pub fn new(tx: T, rx: R) -> (r: Result<Self, UbootError>)
        ensures
            r matches Ok(s) ==> exists|line: Seq<u8>|
                spec_ends_with(line, spec_int_token()) && s.spec_perfix() == line.take(
                    line.len() - spec_int_token().len(),
                ),
            r matches Err(e) ==> (e matches UbootError::Timeout || e matches UbootError::Broken(_)),
    {
        let mut s = UbootShell { tx, rx, perfix: Vec::new() };
        match s.wait_for_shell() {
            Ok(()) => Ok(s),
            Err(e) => Err(e),
        }
    }

    /// One byte from the remote side, waiting at most the per-byte
    /// deadline: short poll windows are retried until the deadline has
    /// passed in whole.
    fn read_byte(&mut self) -> (r: Result<u8, UbootError>)
        ensures
            final(self).spec_perfix() == old(self).spec_perfix(),
            r matches Err(e) ==> (e matches UbootError::Timeout || e matches UbootError::Broken(_)),
    {
        let start = self.rx.now_millis();
        let mut budget: usize = usize::MAX;
        while budget > 0
            invariant
                self.spec_perfix() == old(self).spec_perfix(),
            decreases budget,
        {
            budget = budget - 1;
            match self.rx.poll_byte() {
                Ok(b) => {
                    return Ok(b);
                },
                Err(TransportError::TimedOut) => {
                    let now = self.rx.now_millis();
                    if now >= start && now - start > BYTE_DEADLINE_MS {
                        return Err(UbootError::Timeout);
                    }
                },
                Err(TransportError::Broken(s)) => {
                    return Err(UbootError::Broken(s));
                },
            }
        }
        Err(UbootError::Timeout)
    }

    /// Hammers the interrupt byte at the poll interval while accumulating
    /// arriving lines, until one line ends with the acknowledgement token;
    /// that trimmed line is returned.
    fn wait_for_interrupt(&mut self) -> (r: Result<Vec<u8>, UbootError>)
        ensures
            final(self).spec_perfix() == old(self).spec_perfix(),
            r matches Ok(line) ==> spec_ends_with(line@, spec_int_token()),
            r matches Err(e) ==> (e matches UbootError::Timeout || e matches UbootError::Broken(_)),
    {
        let token = int_token();
        let nudge = byte_vec(INTERRUPT_BYTE);
        let _ = self.tx.send_bytes(nudge.as_slice());
        let mut history: Vec<u8> = Vec::new();
        let mut budget: usize = usize::MAX;
        while budget > 0
            invariant
                self.spec_perfix() == old(self).spec_perfix(),
                token@ == spec_int_token(),
                nudge@ == seq![INTERRUPT_BYTE],
            decreases budget,
        {
            budget = budget - 1;
            match self.rx.poll_byte() {
                Ok(ch) => {
                    history.push(ch);
                    if ch == 0x0a {
                        let line = trim_end(history.as_slice());
                        if ends_with(line.as_slice(), token.as_slice()) {
                            return Ok(line);
                        }
                        history.clear();
                    }
                },
                Err(TransportError::TimedOut) => {
                    // no data yet: nudge the remote shell once more
                    let _ = self.tx.send_bytes(nudge.as_slice());
                },
                Err(TransportError::Broken(s)) => {
                    return Err(UbootError::Broken(s));
                },
            }
        }
        Err(UbootError::Timeout)
    }

    /// Discards whatever the read half still buffers, best effort.
    fn clear_shell(&mut self)
        ensures
            final(self).spec_perfix() == old(self).spec_perfix(),
    {
        self.rx.drain();
    }

    /// Runs synchronization and captures the prompt prefix: the text of the
    /// acknowledged line that precedes the token.
    fn wait_for_shell(&mut self) -> (r: Result<(), UbootError>)
        ensures
            r matches Err(e) ==> (e matches UbootError::Timeout || e matches UbootError::Broken(_)),
            r matches Ok(()) ==> exists|line: Seq<u8>|
                spec_ends_with(line, spec_int_token()) && final(self).spec_perfix() == line.take(
                    line.len() - spec_int_token().len(),
                ),
    {
        let line = match self.wait_for_interrupt() {
            Ok(l) => l,
            Err(e) => {
                return Err(e);
            },
        };
        let token = int_token();
        let keep = line.len() - token.len();
        let p = copy_range(line.as_slice(), 0, keep);
        self.perfix = p;
        self.clear_shell();
        proof {
            assert(self.spec_perfix() =~= line@.take(line@.len() - spec_int_token().len()));
        }
        Ok(())
    }

    /// Sends a command line and does not wait for any reply.
    pub fn cmd_without_reply(&mut self, cmd: &str) -> (r: Result<(), UbootError>)
        ensures
            final(self).spec_perfix() == old(self).spec_perfix(),
            r matches Err(e) ==> (e matches UbootError::Timeout || e matches UbootError::Broken(_)),
    {
        let bytes = cmd.as_bytes();
        self.cmd_without_reply_bytes(bytes)
    }

    /// Sends a command line given as bytes, then the line terminator.
    fn cmd_without_reply_bytes(&mut self, cmd: &[u8]) -> (r: Result<(), UbootError>)
        ensures
            final(self).spec_perfix() == old(self).spec_perfix(),
            r matches Err(e) ==> (e matches UbootError::Timeout || e matches UbootError::Broken(_)),
    {
        match self.tx.send_bytes(cmd) {
            Ok(()) => {},
            Err(e) => {
                return Err(transport_err(e));
            },
        }
        let nl = byte_vec(0x0a);
        match self.tx.send_bytes(nl.as_slice()) {
            Ok(()) => {},
            Err(e) => {
                return Err(transport_err(e));
            },
        }
        Ok(())
    }

    /// Reads until the accumulated reply ends with `val`, then returns the
    /// raw accumulated reply together with its cleaned form: trimmed, with
    /// trailing repetitions of the prompt prefix stripped.
    fn wait_for_reply_raw(&mut self, val: &[u8]) -> (r: Result<(Vec<u8>, Vec<u8>), UbootError>)
        ensures
            final(self).spec_perfix() == old(self).spec_perfix(),
            r matches Ok(p) ==> spec_ends_with(p.0@, val@) && p.1@ == spec_trim_end_matches(
                spec_trim(p.0@),
                old(self).spec_perfix(),
            ),
            r matches Err(e) ==> (e matches UbootError::Timeout || e matches UbootError::Broken(_)),
    {
        let mut reply: Vec<u8> = Vec::new();
        let mut budget: usize = usize::MAX;
        while budget > 0
            invariant
                self.spec_perfix() == old(self).spec_perfix(),
            decreases budget,
        {
            budget = budget - 1;
            let byte = match self.read_byte() {
                Ok(b) => b,
                Err(e) => {
                    return Err(e);
                },
            };
            reply.push(byte);
            if ends_with(reply.as_slice(), val) {
                let t = trim(reply.as_slice());
                let out = trim_end_matches(t.as_slice(), self.perfix.as_slice());
                return Ok((reply, out));
            }
        }
        Err(UbootError::Timeout)
    }

    /// Reads until the accumulated reply ends with `val`, then returns the
    /// reply trimmed and with trailing repetitions of the prompt prefix
    /// stripped, as text.
    pub fn wait_for_reply(&mut self, val: &str) -> (r: Result<String, UbootError>)
        ensures
            final(self).spec_perfix() == old(self).spec_perfix(),
            r matches Ok(v) ==> exists|raw: Seq<u8>, b: Seq<u8>|
                spec_ends_with(raw, val.spec_bytes()) && b == spec_trim_end_matches(
                    spec_trim(raw),
                    old(self).spec_perfix(),
                ) && (vstd::utf8::valid_utf8(b) ==> v@ == vstd::utf8::decode_utf8(b)),
            r matches Err(e) ==> (e matches UbootError::Timeout || e matches UbootError::Broken(_)),
    {
        let vb = val.as_bytes();
        match self.wait_for_reply_raw(vb) {
            Ok(p) => {
                let s = bytes_to_string(p.1.as_slice());
                proof {
                    assert(spec_ends_with(p.0@, val.spec_bytes()) && p.1@
                        == spec_trim_end_matches(spec_trim(p.0@), old(self).spec_perfix()) && (
                    vstd::utf8::valid_utf8(p.1@) ==> s@ == vstd::utf8::decode_utf8(p.1@)));
                }
                Ok(s)
            },
            Err(e) => Err(e),
        }
    }

    /// One full command round trip: discard stale input, transmit the
    /// command with its success marking suffix, wait for the prompt to
    /// return, and reduce the reply to the command's output. A reply
    /// without the success marker fails, carrying the raw reply.
    #[verifier::spinoff_prover]
    #[verifier::rlimit(30)]
    fn cmd_once(&mut self, cmd: &[u8]) -> (r: Result<Vec<u8>, UbootError>)
        ensures
            final(self).spec_perfix() == old(self).spec_perfix(),
            r matches Ok(v) ==> spec_some_cmd_reply(old(self).spec_perfix(), cmd@, v@),
            r matches Err(UbootError::Rejected(d)) ==> spec_some_cmd_rejection(
                old(self).spec_perfix(),
                cmd@,
                d@,
            ),
            r matches Err(e) ==> (e matches UbootError::Timeout || e matches UbootError::Broken(_) || e matches UbootError::Rejected(_)),
    {
        self.rx.drain();
        let suffix = marker_suffix();
        let cmd_line = concat_bytes(cmd, suffix.as_slice());
        proof {
            assert(cmd_line@ == spec_cmd_line(cmd@));
        }
        match self.cmd_without_reply_bytes(cmd_line.as_slice()) {
            Ok(()) => {},
            Err(e) => {
                return Err(e);
            },
        }
        let perfix = copy_range(self.perfix.as_slice(), 0, self.perfix.len());
        proof {
            assert(perfix@ =~= self.spec_perfix());
        }
        let pair = match self.wait_for_reply_raw(perfix.as_slice()) {
            Ok(p) => p,
            Err(e) => {
                return Err(e);
            },
        };
        let raw_reply = pair.0;
        let w = pair.1;
        match extract_cmd_output(w.as_slice(), perfix.as_slice(), cmd_line.as_slice()) {
            Some(v) => {
                proof {
                    assert(spec_cmd_reply(raw_reply@, old(self).spec_perfix(), cmd@, v@));
                    assert(spec_some_cmd_reply(old(self).spec_perfix(), cmd@, v@));
                }
                Ok(v)
            },
            None => {
                let d = bytes_to_string(raw_reply.as_slice());
                proof {
                    assert(spec_cmd_reply_failed(raw_reply@, old(self).spec_perfix(), cmd@));
                    assert(spec_some_cmd_rejection(old(self).spec_perfix(), cmd@, d@));
                }
                Err(UbootError::Rejected(d))
            },
        }
    }

    /// Command execution at the byte level, with the full round trip
    /// retried up to the attempt bound; the last failure is surfaced.
    fn cmd_bytes(&mut self, cmd: &[u8]) -> (r: Result<Vec<u8>, UbootError>)
        ensures
            final(self).spec_perfix() == old(self).spec_perfix(),
            r matches Ok(v) ==> spec_some_cmd_reply(old(self).spec_perfix(), cmd@, v@),
            r matches Err(UbootError::Rejected(d)) ==> spec_some_cmd_rejection(
                old(self).spec_perfix(),
                cmd@,
                d@,
            ),
            r matches Err(e) ==> (e matches UbootError::Timeout || e matches UbootError::Broken(_) || e matches UbootError::Rejected(_)),
    {
        let mut attempts: usize = 0;
        loop
            invariant
                self.spec_perfix() == old(self).spec_perfix(),
                attempts < CMD_ATTEMPTS,
            decreases CMD_ATTEMPTS - attempts,
        {
            match self.cmd_once(cmd) {
                Ok(v) => {
                    return Ok(v);
                },
                Err(e) => {
                    attempts = attempts + 1;
                    if attempts == CMD_ATTEMPTS {
                        return Err(e);
                    }
                    self.rx.backoff();
                },
            }
        }
    }

    /// Executes a command and returns its output, retrying the whole round
    /// trip a fixed small number of times before the failure is surfaced.
    pub fn cmd(&mut self, cmd: &str) -> (r: Result<String, UbootError>)
        ensures
            final(self).spec_perfix() == old(self).spec_perfix(),
            r matches Ok(out) ==> exists|v: Seq<u8>|
                #[trigger] spec_some_cmd_reply(old(self).spec_perfix(), cmd.spec_bytes(), v) && (
                vstd::utf8::valid_utf8(v) ==> out@ == vstd::utf8::decode_utf8(v)),
            r matches Err(UbootError::Rejected(d)) ==> spec_some_cmd_rejection(
                old(self).spec_perfix(),
                cmd.spec_bytes(),
                d@,
            ),
            r matches Err(e) ==> (e matches UbootError::Timeout || e matches UbootError::Broken(_) || e matches UbootError::Rejected(_)),
    {
        let bytes = cmd.as_bytes();
        match self.cmd_bytes(bytes) {
            Ok(v) => {
                let out = bytes_to_string(v.as_slice());
                proof {
                    assert(spec_some_cmd_reply(old(self).spec_perfix(), cmd.spec_bytes(), v@) && (
                    vstd::utf8::valid_utf8(v@) ==> out@ == vstd::utf8::decode_utf8(v@)));
                }
                Ok(out)
            },
            Err(e) => Err(e),
        }
    }

    /// Sets an environment variable on the remote shell: issues the
    /// `setenv` command and discards its output.
    pub fn set_env(&mut self, name: &str, value: &str) -> (r: Result<(), UbootError>)
        ensures
            final(self).spec_perfix() == old(self).spec_perfix(),
            r matches Ok(()) ==> exists|out: Seq<u8>|
                #[trigger] spec_some_cmd_reply(
                    old(self).spec_perfix(),
                    spec_setenv_cmd(name.spec_bytes(), value.spec_bytes()),
                    out,
                ),
            r matches Err(UbootError::Rejected(d)) ==> spec_some_cmd_rejection(
                old(self).spec_perfix(),
                spec_setenv_cmd(name.spec_bytes(), value.spec_bytes()),
                d@,
            ),
            r matches Err(e) ==> (e matches UbootError::Timeout || e matches UbootError::Broken(_) || e matches UbootError::Rejected(_)),
    {
        // "setenv " name " " value
        let mut line: Vec<u8> = Vec::new();
        line.push(0x73);
        line.push(0x65);
        line.push(0x74);
        line.push(0x65);
        line.push(0x6e);
        line.push(0x76);
        line.push(0x20);
        line.extend_from_slice(name.as_bytes());
        line.push(0x20);
        line.extend_from_slice(value.as_bytes());
        proof {
            assert(line@ =~= spec_setenv_cmd(name.spec_bytes(), value.spec_bytes()));
        }
        match self.cmd_bytes(line.as_slice()) {
            Ok(_) => Ok(()),
            Err(e) => Err(e),
        }
    }

    /// Reads an environment variable: echoes it, splits the output into
    /// lines and takes the last non-blank one, so that banner or echo noise
    /// on earlier lines does not spoil the value.
    pub fn env(&mut self, name: &str) -> (r: Result<String, UbootError>)
        ensures
            final(self).spec_perfix() == old(self).spec_perfix(),
            r matches Ok(v) ==> exists|out: Seq<u8>|
                #[trigger] spec_some_cmd_reply(
                    old(self).spec_perfix(),
                    spec_echo_cmd(name.spec_bytes()),
                    out,
                ) && (crate::text::spec_last_nonblank_line(out) matches Some(l) && (
                vstd::utf8::valid_utf8(l) ==> v@ == vstd::utf8::decode_utf8(l))),
            r matches Err(UbootError::NotFound(n)) ==> n@ == name@ && exists|out: Seq<u8>|
                #[trigger] spec_some_cmd_reply(
                    old(self).spec_perfix(),
                    spec_echo_cmd(name.spec_bytes()),
                    out,
                ) && crate::text::spec_last_nonblank_line(out) == None::<Seq<u8>>,
            r matches Err(e) ==> !(e matches UbootError::InvalidData(_)),
    {
        // "echo $" name
        let mut line: Vec<u8> = Vec::new();
        line.push(0x65);
        line.push(0x63);
        line.push(0x68);
        line.push(0x6f);
        line.push(0x20);
        line.push(0x24);
        line.extend_from_slice(name.as_bytes());
        proof {
            assert(line@ =~= spec_echo_cmd(name.spec_bytes()));
        }
        let out = match self.cmd_bytes(line.as_slice()) {
            Ok(v) => v,
            Err(e) => {
                return Err(e);
            },
        };
        match crate::text::last_nonblank_line(out.as_slice()) {
            Some(v) => {
                let s = bytes_to_string(v.as_slice());
                proof {
                    assert(spec_some_cmd_reply(
                        old(self).spec_perfix(),
                        spec_echo_cmd(name.spec_bytes()),
                        out@,
                    ) && (crate::text::spec_last_nonblank_line(out@) matches Some(l) && (
                    vstd::utf8::valid_utf8(l) ==> s@ == vstd::utf8::decode_utf8(l))));
                }
                Ok(s)
            },
            None => {
                proof {
                    vstd::utf8::encode_utf8_valid_utf8(name@);
                    vstd::utf8::encode_utf8_decode_utf8(name@);
                    assert(spec_some_cmd_reply(
                        old(self).spec_perfix(),
                        spec_echo_cmd(name.spec_bytes()),
                        out@,
                    ) && crate::text::spec_last_nonblank_line(out@) == None::<Seq<u8>>);
                }
                Err(UbootError::NotFound(bytes_to_string(name.as_bytes())))
            },
        }
    }

    /// Reads an environment variable and parses it as a number, decimal or
    /// `0x`-prefixed hexadecimal; a value that is no number is invalid
    /// data, carrying that value.
    pub fn env_int(&mut self, name: &str) -> (r: Result<usize, UbootError>)
        ensures
            final(self).spec_perfix() == old(self).spec_perfix(),
            r matches Ok(v) ==> exists|out: Seq<u8>|
                #[trigger] spec_some_cmd_reply(
                    old(self).spec_perfix(),
                    spec_echo_cmd(name.spec_bytes()),
                    out,
                ) && (crate::text::spec_last_nonblank_line(out) matches Some(l) && (
                vstd::utf8::valid_utf8(l) ==> crate::num::spec_parse_int(l) == Some(v as int))),
            r matches Err(UbootError::InvalidData(l)) ==> crate::num::spec_parse_int(
                vstd::utf8::encode_utf8(l@),
            ) == None::<int>,
    {
        let line = match self.env(name) {
            Ok(v) => v,
            Err(e) => {
                return Err(e);
            },
        };
        match parse_int(line.as_str()) {
            Some(v) => {
                proof {
                    let out = choose|out: Seq<u8>|
                        #[trigger] spec_some_cmd_reply(
                            old(self).spec_perfix(),
                            spec_echo_cmd(name.spec_bytes()),
                            out,
                        ) && (crate::text::spec_last_nonblank_line(out) matches Some(l) && (
                        vstd::utf8::valid_utf8(l) ==> line@ == vstd::utf8::decode_utf8(l)));
                    let l = crate::text::spec_last_nonblank_line(out)->Some_0;
                    if vstd::utf8::valid_utf8(l) {
                        vstd::utf8::decode_utf8_encode_utf8(l);
                        assert(vstd::utf8::encode_utf8(line@) == l);
                    }
                    assert(spec_some_cmd_reply(
                        old(self).spec_perfix(),
                        spec_echo_cmd(name.spec_bytes()),
                        out,
                    ) && (crate::text::spec_last_nonblank_line(out) matches Some(ll) && (
                    vstd::utf8::valid_utf8(ll) ==> crate::num::spec_parse_int(ll) == Some(
                        v as int,
                    ))));
                }
                Ok(v)
            },
            None => Err(UbootError::InvalidData(line)),
        }
    }

    /// Reads until either the checksum-mode request byte arrives, fixing
    /// the transfer mode, or the remote's failure text shows that the load
    /// command is not understood; that failure carries the reply seen.
    fn wait_for_load_crc(&mut self) -> (r: Result<bool, UbootError>)
        ensures
            final(self).spec_perfix() == old(self).spec_perfix(),
            r matches Ok(b) ==> b,
            r matches Err(UbootError::InvalidData(d)) ==> exists|reply: Seq<u8>|
                crate::text::spec_contains_seq(reply, spec_load_fail_text()) && (
                vstd::utf8::valid_utf8(reply) ==> d@ == vstd::utf8::decode_utf8(reply)),
            r matches Err(e) ==> (e matches UbootError::Timeout || e matches UbootError::Broken(_)
                || e matches UbootError::InvalidData(_)),
    {
        // "try 'help'"
        let mut fail: Vec<u8> = Vec::new();
        fail.push(0x74);
        fail.push(0x72);
        fail.push(0x79);
        fail.push(0x20);
        fail.push(0x27);
        fail.push(0x68);
        fail.push(0x65);
        fail.push(0x6c);
        fail.push(0x70);
        fail.push(0x27);
        proof {
            assert(fail@ =~= spec_load_fail_text());
        }
        let mut reply: Vec<u8> = Vec::new();
        let mut budget: usize = usize::MAX;
        while budget > 0
            invariant
                self.spec_perfix() == old(self).spec_perfix(),
                fail@ == spec_load_fail_text(),
            decreases budget,
        {
            budget = budget - 1;
            let byte = match self.read_byte() {
                Ok(b) => b,
                Err(e) => {
                    return Err(e);
                },
            };
            reply.push(byte);
            if byte == 0x43 {
                return Ok(true);
            }
            if contains_seq(reply.as_slice(), fail.as_slice()) {
                let d = bytes_to_string(reply.as_slice());
                proof {
                    assert(crate::text::spec_contains_seq(reply@, spec_load_fail_text()) && (
                    vstd::utf8::valid_utf8(reply@) ==> d@ == vstd::utf8::decode_utf8(reply@)));
                }
                return Err(UbootError::InvalidData(d));
            }
        }
        Err(UbootError::Timeout)
    }

    /// Loads `data` into target memory at `addr` under the name `name`:
    /// issues the memory-load command, waits for the receiver to announce
    /// its mode, drives the whole block transfer over the session's two
    /// channel halves, and finally returns the trailing shell text once the
    /// prompt is back.
    pub fn loady<P: ProgressSink>(
        &mut self,
        addr: usize,
        name: &str,
        data: &[u8],
        on_progress: &mut P,
    ) -> (r: Result<String, UbootError>)
        ensures
            final(self).spec_perfix() == old(self).spec_perfix(),
            r matches Ok(v) ==> exists|raw: Seq<u8>, b: Seq<u8>|
                spec_ends_with(raw, old(self).spec_perfix()) && b == spec_trim_end_matches(
                    spec_trim(raw),
                    old(self).spec_perfix(),
                ) && (vstd::utf8::valid_utf8(b) ==> v@ == vstd::utf8::decode_utf8(b)),
            r matches Err(UbootError::InvalidData(d)) ==> (exists|reply: Seq<u8>|
                crate::text::spec_contains_seq(reply, spec_load_fail_text()) && (
                vstd::utf8::valid_utf8(reply) ==> d@ == vstd::utf8::decode_utf8(reply)))
                || name.spec_bytes().len() + crate::num::spec_dec_bytes(data@.len() as int).len()
                + 2 > 1024,
            r matches Err(e) ==> !(e matches UbootError::NotFound(_)),
    {
        // "loady 0x" addr
        let mut line: Vec<u8> = Vec::new();
        line.push(0x6c);
        line.push(0x6f);
        line.push(0x61);
        line.push(0x64);
        line.push(0x79);
        line.push(0x20);
        line.push(0x30);
        line.push(0x78);
        let hx = hex_bytes(addr);
        line.extend_from_slice(hx.as_slice());
        match self.cmd_without_reply_bytes(line.as_slice()) {
            Ok(()) => {},
            Err(e) => {
                return Err(e);
            },
        }
        let crc = match self.wait_for_load_crc() {
            Ok(b) => b,
            Err(e) => {
                return Err(e);
            },
        };
        let mut p = crate::ymodem::Ymodem::new(crc);
        match p.send(&mut self.tx, &mut self.rx, data, name, on_progress) {
            Ok(()) => {},
            Err(e) => {
                return Err(e);
            },
        }
        let perfix = copy_range(self.perfix.as_slice(), 0, self.perfix.len());
        proof {
            assert(perfix@ =~= self.spec_perfix());
        }
        match self.wait_for_reply_raw(perfix.as_slice()) {
            Ok(pr) => {
                let s = bytes_to_string(pr.1.as_slice());
                proof {
                    assert(spec_ends_with(pr.0@, old(self).spec_perfix()) && pr.1@
                        == spec_trim_end_matches(spec_trim(pr.0@), old(self).spec_perfix()) && (
                    vstd::utf8::valid_utf8(pr.1@) ==> s@ == vstd::utf8::decode_utf8(pr.1@)));
                }
                Ok(s)
            },
            Err(e) => Err(e),
        }
    }
}

impl<T: TxChannel, R: RxChannel> TxChannel for UbootShell<T, R> {
    fn send_bytes(&mut self, data: &[u8]) -> Result<(), TransportError> {
        self.tx.send_bytes(data)
    }

    fn flush(&mut self) -> Result<(), TransportError> {
        self.tx.flush()
    }
}

impl<T: TxChannel, R: RxChannel> RxChannel for UbootShell<T, R> {
    fn poll_byte(&mut self) -> Result<u8, TransportError> {
        self.rx.poll_byte()
    }

    fn drain(&mut self) {
        self.rx.drain()
    }

    fn now_millis(&mut self) -> u64 {
        self.rx.now_millis()
    }

    fn backoff(&mut self) {
        self.rx.backoff()
    }
}

} // verus!
