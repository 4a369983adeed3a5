//! Transfer protocol scenarios over a loopback device: block counts, wire
//! sequence numbers, progress reporting, block image layout, and the retry
//! budget.

use uboot_shell::channel::{ProgressSink, RxChannel, TransportError, TxChannel};
use uboot_shell::crc::crc16_ccitt;
use uboot_shell::error::UbootError;
use uboot_shell::ymodem::{block_image, Ymodem};

use std::cell::RefCell;
use std::collections::VecDeque;
use std::rc::Rc;

/// A loopback device that records every block image and answers as the
/// script says; its two halves share this state.
struct LoopState {
    incoming: VecDeque<u8>,
    blocks: Vec<Vec<u8>>,
    eots: usize,
    /// How many rejections to serve before accepting each block.
    nak_first: usize,
    naks_served: usize,
    nak_byte: u8,
}

struct LoopTx(Rc<RefCell<LoopState>>);
struct LoopRx(Rc<RefCell<LoopState>>);

fn loop_dev(nak_first: usize, nak_byte: u8) -> (LoopTx, LoopRx, Rc<RefCell<LoopState>>) {
    let st = Rc::new(RefCell::new(LoopState {
        incoming: VecDeque::new(),
        blocks: Vec::new(),
        eots: 0,
        nak_first,
        naks_served: 0,
        nak_byte,
    }));
    (LoopTx(st.clone()), LoopRx(st.clone()), st)
}

impl TxChannel for LoopTx {
    fn send_bytes(&mut self, data: &[u8]) -> Result<(), TransportError> {
        let mut st = self.0.borrow_mut();
        if data.len() == 1 && data[0] == 0x04 {
            // end of transmission: acknowledge
            st.eots += 1;
            st.incoming.push_back(0x06);
            return Ok(());
        }
        if !data.is_empty() && (data[0] == 0x01 || data[0] == 0x02) {
            let is_trailer = !st.blocks.is_empty() && data[1] == 0;
            st.blocks.push(data.to_vec());
            if st.naks_served < st.nak_first {
                st.naks_served += 1;
                let nak = st.nak_byte;
                st.incoming.push_back(nak);
            } else {
                st.incoming.push_back(0x06);
                if is_trailer {
                    // ready for the next batch
                    st.incoming.push_back(0x43);
                }
            }
        }
        Ok(())
    }

    fn flush(&mut self) -> Result<(), TransportError> {
        Ok(())
    }
}

impl RxChannel for LoopRx {
    fn poll_byte(&mut self) -> Result<u8, TransportError> {
        match self.0.borrow_mut().incoming.pop_front() {
            Some(b) => Ok(b),
            None => Err(TransportError::TimedOut),
        }
    }

    fn drain(&mut self) {
        self.0.borrow_mut().incoming.clear();
    }

    fn now_millis(&mut self) -> u64 {
        0
    }
}

struct RecProgress(Vec<usize>);

impl ProgressSink for RecProgress {
    fn on_progress(&mut self, sent: usize) {
        self.0.push(sent);
    }
}

#[test]
fn five_byte_transfer_sends_three_blocks_and_reports_five() {
    let (mut tx, mut rx, st) = loop_dev(0, 0x15);
    let mut p = Ymodem::new(true);
    let mut progress = RecProgress(Vec::new());
    p.send(&mut tx, &mut rx, b"hello", "f.bin", &mut progress)
        .expect("transfer must succeed");
    assert_eq!(st.borrow().blocks.len(), 3);
    assert_eq!(progress.0.last().copied(), Some(5));
}

#[test]
fn wire_sequence_numbers_for_three_data_blocks() {
    let (mut tx, mut rx, st) = loop_dev(0, 0x15);
    let mut p = Ymodem::new(true);
    let mut progress = RecProgress(Vec::new());
    let data = vec![0xabu8; 2100];
    p.send(&mut tx, &mut rx, data.as_slice(), "k.img", &mut progress)
        .expect("transfer must succeed");
    let seqs: Vec<u8> = st.borrow().blocks.iter().map(|b| b[1]).collect();
    assert_eq!(seqs, vec![0, 1, 2, 3, 0]);
    // each sequence byte travels with its complement
    for b in &st.borrow().blocks {
        assert_eq!(b[2], !b[1]);
    }
    assert_eq!(progress.0, vec![1024, 2048, 2100]);
}

#[test]
fn header_block_carries_name_and_decimal_size() {
    let (mut tx, mut rx, st) = loop_dev(0, 0x15);
    let mut p = Ymodem::new(true);
    let mut progress = RecProgress(Vec::new());
    p.send(&mut tx, &mut rx, b"hello", "f.bin", &mut progress)
        .expect("transfer must succeed");
    let guard = st.borrow();
    let header = &guard.blocks[0];
    assert_eq!(header[0], 0x01); // small class
    let mut expected = Vec::new();
    expected.extend_from_slice(b"f.bin");
    expected.push(0);
    expected.extend_from_slice(b"5");
    expected.push(0);
    assert_eq!(&header[3..3 + expected.len()], expected.as_slice());
}

#[test]
fn block_image_layout_small_class_with_checksum() {
    let img = block_image(1, b"ab", 0x1a, true);
    assert_eq!(img.len(), 3 + 128 + 2);
    assert_eq!(img[0], 0x01);
    assert_eq!(img[1], 1);
    assert_eq!(img[2], 0xfe);
    assert_eq!(&img[3..5], b"ab");
    assert!(img[5..131].iter().all(|&b| b == 0x1a));
    let payload: Vec<u8> = img[3..131].to_vec();
    let c = crc16_ccitt(0, payload.as_slice());
    assert_eq!(img[131], (c >> 8) as u8);
    assert_eq!(img[132], (c & 0xff) as u8);
}

#[test]
fn block_image_large_class_without_checksum() {
    let data = vec![7u8; 200];
    let img = block_image(3, data.as_slice(), 0x1a, false);
    assert_eq!(img.len(), 3 + 1024);
    assert_eq!(img[0], 0x02);
    assert_eq!(img[1], 3);
    assert_eq!(img[2], 0xfc);
    assert!(img[3..203].iter().all(|&b| b == 7));
    assert!(img[203..].iter().all(|&b| b == 0x1a));
}

#[test]
fn rejected_blocks_are_resent_as_identical_bytes() {
    let (mut tx, mut rx, st) = loop_dev(2, 0x15);
    let mut p = Ymodem::new(false);
    let mut progress = RecProgress(Vec::new());
    p.send(&mut tx, &mut rx, b"hi", "a", &mut progress)
        .expect("transfer must succeed despite two rejections");
    // the header went out three times, byte for byte the same
    assert_eq!(st.borrow().blocks[0], st.borrow().blocks[1]);
    assert_eq!(st.borrow().blocks[1], st.borrow().blocks[2]);
    assert_eq!(st.borrow().blocks[2][1], 0);
}

#[test]
fn exhausted_retry_budget_fails_the_transfer() {
    let (mut tx, mut rx, st) = loop_dev(1000, 0x15);
    let mut p = Ymodem::new(false);
    let mut progress = RecProgress(Vec::new());
    match p.send(&mut tx, &mut rx, b"hi", "a", &mut progress) {
        Err(UbootError::Rejected(_)) => {}
        other => panic!("expected rejection, got {:?}", other),
    }
    // the identical header image went out once per unit of retry budget
    assert_eq!(st.borrow().blocks.len(), 10);
    for b in &st.borrow().blocks {
        assert_eq!(b, &st.borrow().blocks[0]);
    }
}

#[test]
fn empty_transfer_sends_header_and_trailer_only() {
    let (mut tx, mut rx, st) = loop_dev(0, 0x15);
    let mut p = Ymodem::new(true);
    let mut progress = RecProgress(Vec::new());
    p.send(&mut tx, &mut rx, b"", "empty", &mut progress)
        .expect("transfer must succeed");
    assert_eq!(st.borrow().blocks.len(), 2);
    assert_eq!(st.borrow().eots, 1);
    assert!(progress.0.is_empty());
}

#[test]
fn overlong_file_name_is_invalid_data() {
    let (mut tx, mut rx, st) = loop_dev(0, 0x15);
    let mut p = Ymodem::new(true);
    let mut progress = RecProgress(Vec::new());
    let name = "x".repeat(1100);
    match p.send(&mut tx, &mut rx, b"hi", name.as_str(), &mut progress) {
        Err(UbootError::InvalidData(_)) => {}
        other => panic!("expected invalid data, got {:?}", other),
    }
    assert!(st.borrow().blocks.is_empty());
}

#[test]
fn plain_mode_blocks_carry_no_checksum_trailer() {
    let (mut tx, mut rx, st) = loop_dev(0, 0x15);
    let mut p = Ymodem::new(false);
    let mut progress = RecProgress(Vec::new());
    p.send(&mut tx, &mut rx, b"hello", "f", &mut progress)
        .expect("transfer must succeed");
    for b in &st.borrow().blocks {
        assert_eq!(b.len(), 3 + 128);
    }
}
