//! Session scenarios over a simulated duplex channel: synchronization,
//! command execution, retries, and environment access.

use std::cell::RefCell;
use std::collections::VecDeque;
use std::rc::Rc;

use uboot_shell::channel::{RxChannel, TransportError, TxChannel};
use uboot_shell::error::UbootError;
use uboot_shell::session::{extract_cmd_output, UbootShell};

type OnWrite = Box<dyn FnMut(&mut VecDeque<u8>, &[u8], &[u8])>;

struct State {
    incoming: VecDeque<u8>,
    written: Vec<u8>,
    on_write: Option<OnWrite>,
    clock: u64,
}

struct SimTx(Rc<RefCell<State>>);
struct SimRx(Rc<RefCell<State>>);

impl TxChannel for SimTx {
    fn send_bytes(&mut self, data: &[u8]) -> Result<(), TransportError> {
        let mut st = self.0.borrow_mut();
        st.written.extend_from_slice(data);
        let mut f = st.on_write.take();
        if let Some(ref mut cb) = f {
            let written = st.written.clone();
            cb(&mut st.incoming, data, &written);
        }
        st.on_write = f;
        Ok(())
    }

    fn flush(&mut self) -> Result<(), TransportError> {
        Ok(())
    }
}

impl RxChannel for SimRx {
    fn poll_byte(&mut self) -> Result<u8, TransportError> {
        let mut st = self.0.borrow_mut();
        st.clock += 1;
        match st.incoming.pop_front() {
            Some(b) => Ok(b),
            None => Err(TransportError::TimedOut),
        }
    }

    fn drain(&mut self) {
        self.0.borrow_mut().incoming.clear();
    }

    fn now_millis(&mut self) -> u64 {
        let mut st = self.0.borrow_mut();
        st.clock += 1;
        st.clock
    }
}

fn new_state() -> Rc<RefCell<State>> {
    Rc::new(RefCell::new(State {
        incoming: VecDeque::new(),
        written: Vec::new(),
        on_write: None,
        clock: 0,
    }))
}

fn count_interrupt_bytes(w: &[u8]) -> usize {
    w.iter().filter(|&&b| b == 0x03).count()
}

/// Builds a synchronized session whose prompt is `myprompt> `, echoing the
/// acknowledgement line only after three interrupt bytes have arrived.
fn synchronized_session() -> (UbootShell<SimTx, SimRx>, Rc<RefCell<State>>) {
    let st = new_state();
    {
        let mut s = st.borrow_mut();
        s.on_write = Some(Box::new(|incoming, _data, written| {
            if count_interrupt_bytes(written) == 3 && incoming.is_empty() {
                incoming.extend(b"myprompt> <INTERRUPT>\n".iter().copied());
            }
        }));
    }
    let shell = UbootShell::new(SimTx(st.clone()), SimRx(st.clone())).expect("sync must succeed");
    {
        let mut s = st.borrow_mut();
        s.on_write = None;
        s.written.clear();
        s.incoming.clear();
    }
    (shell, st)
}

fn set_reply_on(st: &Rc<RefCell<State>>, trigger: &'static [u8], reply: &'static [u8]) {
    st.borrow_mut().on_write = Some(Box::new(move |incoming, _data, written| {
        if written.ends_with(trigger) {
            incoming.extend(reply.iter().copied());
        }
    }));
}

#[test]
fn sync_captures_prompt_after_three_interrupts() {
    let (shell, st) = synchronized_session();
    assert_eq!(shell.prompt_perfix().as_slice(), b"myprompt> ");
    // the channel saw at least the three interrupt bytes that released it
    drop(st);
}

#[test]
fn cmd_returns_trimmed_output() {
    let (mut shell, st) = synchronized_session();
    set_reply_on(&st, b"echo hi&& echo cmd-ok\n", b"hi\ncmd-ok\nmyprompt> ");
    let out = shell.cmd("echo hi").expect("command must succeed");
    assert_eq!(out, "hi");
}

#[test]
fn cmd_without_marker_fails_after_three_attempts() {
    let (mut shell, st) = synchronized_session();
    set_reply_on(&st, b"echo x&& echo cmd-ok\n", b"nope\nmyprompt> ");
    let r = shell.cmd("echo x");
    assert!(r.is_err());
    match r {
        Err(UbootError::Rejected(_)) => {}
        other => panic!("expected a rejection, got {:?}", other),
    }
    // exactly three full round trips were attempted
    let written = st.borrow().written.clone();
    let needle = b"echo x&& echo cmd-ok\n";
    let count = (0..written.len())
        .filter(|&i| written[i..].starts_with(needle))
        .count();
    assert_eq!(count, 3);
}

#[test]
fn cmd_succeeds_even_with_echoed_command_noise() {
    let (mut shell, st) = synchronized_session();
    set_reply_on(
        &st,
        b"version&& echo cmd-ok\n",
        b"version&& echo cmd-ok\nU-Boot 2024.01\ncmd-ok\nmyprompt> ",
    );
    let out = shell.cmd("version").expect("command must succeed");
    assert_eq!(out, "U-Boot 2024.01");
}

#[test]
fn env_takes_last_nonblank_line() {
    let (mut shell, st) = synchronized_session();
    set_reply_on(
        &st,
        b"echo $bootargs&& echo cmd-ok\n",
        b"\nbanner noise\nconsole=ttyS0\ncmd-ok\nmyprompt> ",
    );
    let v = shell.env("bootargs").expect("env must succeed");
    assert_eq!(v, "console=ttyS0");
}

#[test]
fn env_on_blank_reply_is_not_found() {
    let (mut shell, st) = synchronized_session();
    set_reply_on(&st, b"echo $missing&& echo cmd-ok\n", b"\n \ncmd-ok\nmyprompt> ");
    match shell.env("missing") {
        Err(UbootError::NotFound(name)) => assert_eq!(name, "missing"),
        other => panic!("expected not-found, got {:?}", other),
    }
}

#[test]
fn env_int_parses_decimal_and_hex() {
    let (mut shell, st) = synchronized_session();
    set_reply_on(&st, b"echo $filesize&& echo cmd-ok\n", b"0x200\ncmd-ok\nmyprompt> ");
    assert_eq!(shell.env_int("filesize").expect("must parse"), 0x200);
    set_reply_on(&st, b"echo $count&& echo cmd-ok\n", b"4096\ncmd-ok\nmyprompt> ");
    assert_eq!(shell.env_int("count").expect("must parse"), 4096);
}

#[test]
fn env_int_rejects_non_numeric_value() {
    let (mut shell, st) = synchronized_session();
    set_reply_on(&st, b"echo $board&& echo cmd-ok\n", b"venus\ncmd-ok\nmyprompt> ");
    match shell.env_int("board") {
        Err(UbootError::InvalidData(v)) => assert_eq!(v, "venus"),
        other => panic!("expected invalid data, got {:?}", other),
    }
}

#[test]
fn set_env_round_trip_succeeds() {
    let (mut shell, st) = synchronized_session();
    set_reply_on(
        &st,
        b"setenv bootargs console=ttyS0&& echo cmd-ok\n",
        b"cmd-ok\nmyprompt> ",
    );
    shell
        .set_env("bootargs", "console=ttyS0")
        .expect("set_env must succeed");
}

#[test]
fn dead_channel_times_out() {
    let (mut shell, st) = synchronized_session();
    st.borrow_mut().on_write = None;
    match shell.cmd("anything") {
        Err(UbootError::Timeout) => {}
        other => panic!("expected a timeout, got {:?}", other),
    }
}

#[test]
fn wait_for_reply_strips_prompt() {
    let (mut shell, st) = synchronized_session();
    st.borrow_mut()
        .incoming
        .extend(b"some text\nmyprompt> ".iter().copied());
    let out = shell.wait_for_reply("myprompt> ").expect("reply must arrive");
    assert_eq!(out, "some text\nmyprompt>");
}

struct RecProgress(Vec<usize>);

impl uboot_shell::channel::ProgressSink for RecProgress {
    fn on_progress(&mut self, sent: usize) {
        self.0.push(sent);
    }
}

#[test]
fn loady_drives_a_full_transfer() {
    let (mut shell, st) = synchronized_session();
    let blocks_seen = Rc::new(RefCell::new(Vec::<Vec<u8>>::new()));
    let blocks_rec = blocks_seen.clone();
    st.borrow_mut().on_write = Some(Box::new(move |incoming, data, written| {
        if written.ends_with(b"loady 0x80000000\n") {
            // the receiver announces checksum mode
            incoming.push_back(0x43);
            return;
        }
        if data.len() == 1 && data[0] == 0x04 {
            incoming.push_back(0x06);
            return;
        }
        if data.len() >= 3 && (data[0] == 0x01 || data[0] == 0x02) {
            let trailer = !blocks_rec.borrow().is_empty() && data[1] == 0;
            blocks_rec.borrow_mut().push(data.to_vec());
            incoming.push_back(0x06);
            if trailer {
                incoming.push_back(0x43);
                incoming.extend(b"done\nmyprompt> ".iter().copied());
            }
        }
    }));
    let mut progress = RecProgress(Vec::new());
    let out = shell
        .loady(0x80000000, "kernel.bin", b"hello", &mut progress)
        .expect("load must succeed");
    assert!(out.contains("done"));
    let blocks = blocks_seen.borrow();
    assert_eq!(blocks.len(), 3);
    assert_eq!(blocks[0][1], 0);
    assert_eq!(blocks[1][1], 1);
    assert_eq!(blocks[2][1], 0);
    assert_eq!(progress.0, vec![5]);
}

#[test]
fn extract_finds_output_between_echo_and_marker() {
    let w = b"echo hi&& echo cmd-ok\nhi\ncmd-ok\nmyprompt>";
    let out = extract_cmd_output(w, b"myprompt> ", b"echo hi&& echo cmd-ok");
    assert_eq!(out.as_deref(), Some(b"hi".as_slice()));
}

#[test]
fn extract_without_marker_is_failure() {
    let w = b"some noise\nmyprompt>";
    let out = extract_cmd_output(w, b"myprompt> ", b"cmd&& echo cmd-ok");
    assert_eq!(out, None);
}

#[test]
fn extract_handles_empty_output() {
    let w = b"cmd-ok\nmyprompt>";
    let out = extract_cmd_output(w, b"myprompt> ", b"true&& echo cmd-ok");
    assert_eq!(out.as_deref(), Some(b"".as_slice()));
}
