//! The block-oriented, stop-and-wait file transfer protocol: a header block
//! naming the file and its size, data blocks of 128 or 1024 bytes padded
//! with a fixed byte, an end-of-transmission byte, and a terminating empty
//! block, each block acknowledged one at a time and resent as an identical
//! byte image while the retry budget lasts. In checksum mode every block
//! carries the two-byte checksum of its padded payload, most significant
//! byte first.

use vstd::prelude::*;

use crate::channel::{ProgressSink, RxChannel, TxChannel};
use crate::crc::{crc16_ccitt, spec_crc16};
use crate::error::{transport_err, UbootError};
use crate::num::{dec_bytes, spec_dec_bytes};
use crate::text::byte_vec;
use vstd::string::{StringExecFns, StringSliceAdditionalSpecFns};

verus! {

/// Start of header: a 128-byte block follows.
pub const SOH: u8 = 0x01;

/// Start of text: a 1024-byte block follows.
pub const STX: u8 = 0x02;

/// End of transmission.
pub const EOT: u8 = 0x04;

/// The receiver accepted the block.
pub const ACK: u8 = 0x06;

/// The receiver rejected the block, plain mode.
pub const NAK: u8 = 0x15;

/// Fills the unused tail of a data block.
pub const PAD_EOF: u8 = 0x1a;

/// The receiver asks for checksum mode.
pub const CRC_REQ: u8 = 0x43;

/// How many rejected transmissions one transfer tolerates in all.
pub const BLOCK_RETRIES: usize = 10;

/// The block sequence number after a successful transmission: one more,
/// wrapping around.
pub open spec fn spec_wrap_inc(b: u8) -> u8 {
    if b == 0xff {
        0
    } else {
        (b + 1) as u8
    }
}

/// How many data blocks a payload of `n` bytes takes: chunks of the large
/// block size, the last one partial.
pub open spec fn spec_chunk_count(n: int) -> int {
    (n + 1023) / 1024
}

/// `k` successful transmissions move the sequence number `k` on, modulo
/// the byte.
pub open spec fn spec_wrap_add(b: u8, k: int) -> u8 {
    ((b + k) % 256) as u8
}

/// Moving on once more is one more modulo the byte.
proof fn lemma_wrap_add_inc(b: u8, k: int)
    requires
        k >= 0,
    ensures
        spec_wrap_inc(spec_wrap_add(b, k)) == spec_wrap_add(b, k + 1),
{
    let m = (b + k) % 256;
    assert(0 <= m < 256);
    if m == 255 {
        assert((b + k + 1) % 256 == 0) by (nonlinear_arith)
            requires
                (b + k) % 256 == 255,
                k >= 0,
                0 <= b < 256,
        ;
    } else {
        assert((b + k + 1) % 256 == m + 1) by (nonlinear_arith)
            requires
                (b + k) % 256 == m,
                0 <= m < 255,
                k >= 0,
                0 <= b < 256,
        ;
    }
}

/// The payload size class a chunk takes: the large class only past the
/// small class's capacity.
pub open spec fn spec_class_len(n: int) -> int {
    if n > 128 {
        1024
    } else {
        128
    }
}

/// The payload padded to its size class with the pad byte.
pub open spec fn spec_padded(data: Seq<u8>, pad: u8) -> Seq<u8> {
    data + Seq::new((spec_class_len(data.len() as int) - data.len()) as nat, |i: int| pad)
}

/// The exact byte image of one block: the size-class marker, the sequence
/// number and its complement, the padded payload, and in checksum mode the
/// two trailer bytes over the padded payload, most significant first.
pub open spec fn spec_block_image(blk: u8, data: Seq<u8>, pad: u8, crc_mode: bool) -> Seq<u8> {
    let payload = spec_padded(data, pad);
    let head = seq![spec_head_byte(data.len() as int), blk, !blk];
    if crc_mode {
        let c = spec_crc16(0, payload);
        head + payload + seq![(c >> 8) as u8, (c & 0xff) as u8]
    } else {
        head + payload
    }
}

pub open spec fn spec_head_byte(n: int) -> u8 {
    if n > 128 {
        STX
    } else {
        SOH
    }
}

/// Builds the byte image of one block.
pub fn block_image(blk: u8, data: &[u8], pad: u8, crc_mode: bool) -> (r: Vec<u8>)
    requires
        data@.len() <= 1024,
    ensures
        r@ == spec_block_image(blk, data@, pad, crc_mode),
{
    let len: usize = if data.len() > 128 {
        1024
    } else {
        128
    };
    let head: u8 = if data.len() > 128 {
        STX
    } else {
        SOH
    };
    let mut payload: Vec<u8> = Vec::new();
    payload.extend_from_slice(data);
    while payload.len() < len
        invariant
            data@.len() <= len <= 1024,
            len == spec_class_len(data@.len() as int),
            data@.len() <= payload@.len() <= len,
            payload@.take(data@.len() as int) == data@,
            forall|j: int| data@.len() <= j < payload@.len() ==> payload@[j] == pad,
        decreases len - payload@.len(),
    {
        payload.push(pad);
        proof {
            assert(payload@.take(data@.len() as int) =~= data@);
        }
    }
    proof {
        assert(payload@ =~= spec_padded(data@, pad));
    }
    let mut image: Vec<u8> = Vec::new();
    image.push(head);
    image.push(blk);
    image.push(!blk);
    image.extend_from_slice(payload.as_slice());
    if crc_mode {
        let c = crc16_ccitt(0, payload.as_slice());
        image.push((c >> 8) as u8);
        image.push((c & 0xff) as u8);
    }
    proof {
        assert(image@ =~= spec_block_image(blk, data@, pad, crc_mode));
    }
    image
}

/// The transfer protocol engine for one file transfer: the negotiated
/// checksum mode, the running block sequence number, the remaining retry
/// budget, and the stray diagnostic bytes observed while waiting for
/// acknowledgements.
pub struct Ymodem {
    /// Checksum-trailer mode (true) or plain mode (false).
    crc_mode: bool,
    /// Current block sequence number.
    blk: u8,
    /// Remaining retry budget.
    retries: usize,
    /// Stray bytes the receiver emitted while an acknowledgement was
    /// awaited; surfaced, never fatal.
    diag: Vec<u8>,
}

impl Ymodem {
    pub closed spec fn spec_crc_mode(&self) -> bool {
        self.crc_mode
    }

    pub closed spec fn spec_blk(&self) -> u8 {
        self.blk
    }

    pub closed spec fn spec_retries(&self) -> int {
        self.retries as int
    }

    pub closed spec fn spec_diag(&self) -> Seq<u8> {
        self.diag@
    }

    /// A fresh engine for one transfer, with the negotiated mode, the
    /// sequence number at the header block and a full retry budget.
    pub fn new(crc_mode: bool) -> (r: Self)
        ensures
            r.spec_crc_mode() == crc_mode,
            r.spec_blk() == 0,
            r.spec_retries() == BLOCK_RETRIES,
            r.spec_diag().len() == 0,
    {
        Ymodem { crc_mode, blk: 0, retries: BLOCK_RETRIES, diag: Vec::new() }
    }

    /// The stray diagnostic bytes observed so far.
    pub fn diagnostics(&self) -> (r: &Vec<u8>)
        ensures
            r@ == self.spec_diag(),
    {
        &self.diag
    }

    /// The byte that means rejection in the current mode.
    fn nak(&self) -> (r: u8)
        ensures
            r == if self.spec_crc_mode() {
                CRC_REQ
            } else {
                NAK
            },
    {
        if self.crc_mode {
            CRC_REQ
        } else {
            NAK
        }
    }

    /// One byte from the receiver, waiting as long as it takes.
    fn getc<R: RxChannel>(&mut self, rx: &mut R) -> (r: Result<u8, UbootError>)
        ensures
            *final(self) == *old(self),
            r matches Err(e) ==> (e matches UbootError::Timeout || e matches UbootError::Broken(_)),
    {
        let mut budget: usize = usize::MAX;
        while budget > 0
            invariant
                *self == *old(self),
            decreases budget,
        {
            budget = budget - 1;
            match rx.poll_byte() {
                Ok(b) => {
                    return Ok(b);
                },
                Err(crate::channel::TransportError::TimedOut) => {},
                Err(crate::channel::TransportError::Broken(s)) => {
                    return Err(UbootError::Broken(s));
                },
            }
        }
        Err(UbootError::Timeout)
    }

    /// Waits for the receiver's start byte; whichever of the two request
    /// bytes arrives fixes the mode for what follows.
    fn wait_for_start<R: RxChannel>(&mut self, rx: &mut R) -> (r: Result<(), UbootError>)
        ensures
            final(self).spec_blk() == old(self).spec_blk(),
            final(self).spec_retries() == old(self).spec_retries(),
            final(self).spec_diag() == old(self).spec_diag(),
            r matches Err(e) ==> (e matches UbootError::Timeout || e matches UbootError::Broken(_)),
    {
        let mut budget: usize = usize::MAX;
        while budget > 0
            invariant
                self.spec_blk() == old(self).spec_blk(),
                self.spec_retries() == old(self).spec_retries(),
                self.spec_diag() == old(self).spec_diag(),
            decreases budget,
        {
            budget = budget - 1;
            let c = match self.getc(rx) {
                Ok(b) => b,
                Err(e) => {
                    return Err(e);
                },
            };
            if c == NAK {
                self.crc_mode = false;
                return Ok(());
            }
            if c == CRC_REQ {
                self.crc_mode = true;
                return Ok(());
            }
        }
        Err(UbootError::Timeout)
    }

    /// Waits for the block's acknowledgement: acceptance proceeds, the
    /// mode's rejection byte fails the attempt, and any other byte is
    /// collected as diagnostic output.
    fn wait_ack<R: RxChannel>(&mut self, rx: &mut R) -> (r: Result<(), UbootError>)
        ensures
            final(self).spec_crc_mode() == old(self).spec_crc_mode(),
            final(self).spec_blk() == old(self).spec_blk(),
            final(self).spec_retries() == old(self).spec_retries(),
            old(self).spec_diag().is_prefix_of(final(self).spec_diag()),
            r matches Err(e) ==> (e matches UbootError::Timeout || e matches UbootError::Broken(_) || e matches UbootError::Rejected(_)),
    {
        let nak = self.nak();
        let mut budget: usize = usize::MAX;
        while budget > 0
            invariant
                self.spec_crc_mode() == old(self).spec_crc_mode(),
                self.spec_blk() == old(self).spec_blk(),
                self.spec_retries() == old(self).spec_retries(),
                old(self).spec_diag().is_prefix_of(self.spec_diag()),
            decreases budget,
        {
            budget = budget - 1;
            let c = match self.getc(rx) {
                Ok(b) => b,
                Err(e) => {
                    return Err(e);
                },
            };
            if c == ACK {
                return Ok(());
            }
            if c == nak {
                return Err(UbootError::Rejected(String::from_str("NAK")));
            }
            self.diag.push(c);
        }
        Err(UbootError::Timeout)
    }

    /// Sends one block and waits for its acceptance, resending the
    /// identical byte image on rejection while the retry budget lasts; a
    /// terminating block goes out under sequence number zero. After
    /// acceptance the sequence number moves on, wrapping around.
    fn send_blk<T: TxChannel, R: RxChannel>(
        &mut self,
        tx: &mut T,
        rx: &mut R,
        data: &[u8],
        pad: u8,
        last: bool,
    ) -> (r: Result<(), UbootError>)
        requires
            data@.len() <= 1024,
        ensures
            final(self).spec_crc_mode() == old(self).spec_crc_mode(),
            final(self).spec_retries() <= old(self).spec_retries(),
            old(self).spec_diag().is_prefix_of(final(self).spec_diag()),
            r matches Ok(()) ==> final(self).spec_blk() == spec_wrap_inc(old(self).spec_blk()),
            r matches Err(_) ==> final(self).spec_blk() == old(self).spec_blk(),
            r matches Err(e) ==> (e matches UbootError::Timeout || e matches UbootError::Broken(_) || e matches UbootError::Rejected(_)),
    {
        let seqno = if last {
            0
        } else {
            self.blk
        };
        let image = block_image(seqno, data, pad, self.crc_mode);
        let mut last_err: Option<UbootError> = None;
        loop
            invariant
                self.spec_crc_mode() == old(self).spec_crc_mode(),
                self.spec_blk() == old(self).spec_blk(),
                self.spec_retries() <= old(self).spec_retries(),
                old(self).spec_diag().is_prefix_of(self.spec_diag()),
                last_err matches Some(e) ==> (e matches UbootError::Timeout
                    || e matches UbootError::Broken(_) || e matches UbootError::Rejected(_)),
            decreases self.spec_retries(),
        {
            if self.retries == 0 {
                return Err(
                    match last_err {
                        Some(e) => e,
                        None => UbootError::Rejected(String::from_str("retry too much")),
                    },
                );
            }
            match tx.send_bytes(image.as_slice()) {
                Ok(()) => {},
                Err(e) => {
                    return Err(transport_err(e));
                },
            }
            match tx.flush() {
                Ok(()) => {},
                Err(e) => {
                    return Err(transport_err(e));
                },
            }
            match self.wait_ack(rx) {
                Ok(()) => {
                    break;
                },
                Err(e) => {
                    last_err = Some(e);
                    self.retries = self.retries - 1;
                },
            }
        }
        if self.blk == 0xff {
            self.blk = 0;
        } else {
            self.blk = self.blk + 1;
        }
        Ok(())
    }

    /// Sends the header block: the file name, then its size in decimal,
    /// each terminated by a zero byte. A name too long for even the large
    /// block class is invalid data.
    fn send_header<T: TxChannel, R: RxChannel>(
        &mut self,
        tx: &mut T,
        rx: &mut R,
        name: &[u8],
        size: usize,
    ) -> (r: Result<(), UbootError>)
        ensures
            final(self).spec_crc_mode() == old(self).spec_crc_mode(),
            final(self).spec_retries() <= old(self).spec_retries(),
            old(self).spec_diag().is_prefix_of(final(self).spec_diag()),
            r matches Ok(()) ==> final(self).spec_blk() == spec_wrap_inc(old(self).spec_blk()),
            r matches Err(_) ==> final(self).spec_blk() == old(self).spec_blk(),
            r matches Err(e) ==> (e matches UbootError::Timeout || e matches UbootError::Broken(_)
                || e matches UbootError::Rejected(_) || e matches UbootError::InvalidData(_)),
            r matches Err(UbootError::InvalidData(_)) <==> name@.len() + spec_dec_bytes(
                size as int,
            ).len() + 2 > 1024,
    {
        let mut buff: Vec<u8> = Vec::new();
        buff.extend_from_slice(name);
        buff.push(0);
        let ds = dec_bytes(size);
        buff.extend_from_slice(ds.as_slice());
        buff.push(0);
        if buff.len() > 1024 {
            return Err(UbootError::InvalidData(crate::text::bytes_to_string(name)));
        }
        self.send_blk(tx, rx, buff.as_slice(), 0, false)
    }

    /// Sends one whole file: the header block, the data in chunks of up to
    /// the large block size, the end-of-transmission byte, and the
    /// terminating block; then waits for the receiver to announce
    /// readiness for a next batch. The progress listener hears the
    /// cumulative byte count after every data block.
    pub fn send<T: TxChannel, R: RxChannel, P: ProgressSink>(
        &mut self,
        tx: &mut T,
        rx: &mut R,
        data: &[u8],
        name: &str,
        on_progress: &mut P,
    ) -> (r: Result<(), UbootError>)
        ensures
            final(self).spec_retries() <= old(self).spec_retries(),
            old(self).spec_diag().is_prefix_of(final(self).spec_diag()),
            r matches Err(e) ==> (e matches UbootError::Timeout || e matches UbootError::Broken(_)
                || e matches UbootError::Rejected(_) || e matches UbootError::InvalidData(_)),
            r matches Err(UbootError::InvalidData(_)) <==> name.spec_bytes().len()
                + spec_dec_bytes(data@.len() as int).len() + 2 > 1024,
            r matches Ok(()) ==> final(self).spec_blk() == spec_wrap_add(
                old(self).spec_blk(),
                2 + spec_chunk_count(data@.len() as int),
            ),
    {
        let ghost b0 = self.spec_blk();
        let nb = name.as_bytes();
        match self.send_header(tx, rx, nb, data.len()) {
            Ok(()) => {},
            Err(e) => {
                return Err(e);
            },
        }
        proof {
            lemma_wrap_add_inc(b0, 0);
            assert(spec_wrap_add(b0, 0) == b0) by (nonlinear_arith)
                requires
                    0 <= b0 < 256,
            ;
        }
        let mut sent: usize = 0;
        proof {
            vstd::slice::axiom_spec_len(data);
        }
        while sent < data.len()
            invariant
                sent <= data@.len(),
                data@.len() <= usize::MAX,
                sent % 1024 == 0 || sent == data@.len(),
                self.spec_blk() == spec_wrap_add(b0, 1 + spec_chunk_count(sent as int)),
                self.spec_retries() <= old(self).spec_retries(),
                old(self).spec_diag().is_prefix_of(self.spec_diag()),
                name.spec_bytes().len() + spec_dec_bytes(data@.len() as int).len() + 2 <= 1024,
            decreases data@.len() - sent,
        {
            let n = if data.len() - sent > 1024 {
                1024
            } else {
                data.len() - sent
            };
            match self.send_blk(tx, rx, &data[sent..sent + n], PAD_EOF, false) {
                Ok(()) => {},
                Err(e) => {
                    return Err(e);
                },
            }
            proof {
                lemma_wrap_add_inc(b0, 1 + spec_chunk_count(sent as int));
                assert(spec_chunk_count(sent + n) == spec_chunk_count(sent as int) + 1)
                    by (nonlinear_arith)
                    requires
                        sent % 1024 == 0,
                        1 <= n <= 1024,
                        spec_chunk_count(sent as int) == (sent + 1023) / 1024,
                        spec_chunk_count(sent + n) == (sent + n + 1023) / 1024,
                ;
                if n == 1024 {
                    assert((sent + 1024) % 1024 == 0) by (nonlinear_arith)
                        requires
                            sent % 1024 == 0,
                    ;
                }
            }
            sent = sent + n;
            on_progress.on_progress(sent);
        }
        proof {
            lemma_wrap_add_inc(b0, 1 + spec_chunk_count(data@.len() as int));
        }
        let eot = byte_vec(EOT);
        match tx.send_bytes(eot.as_slice()) {
            Ok(()) => {},
            Err(e) => {
                return Err(transport_err(e));
            },
        }
        match tx.flush() {
            Ok(()) => {},
            Err(e) => {
                return Err(transport_err(e));
            },
        }
        match self.wait_ack(rx) {
            Ok(()) => {},
            Err(e) => {
                return Err(e);
            },
        }
        let zero = byte_vec(0);
        match self.send_blk(tx, rx, zero.as_slice(), 0, true) {
            Ok(()) => {},
            Err(e) => {
                return Err(e);
            },
        }
        match self.wait_for_start(rx) {
            Ok(()) => {},
            Err(e) => {
                return Err(e);
            },
        }
        Ok(())
    }
}

} // verus!
