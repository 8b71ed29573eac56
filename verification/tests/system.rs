use std::collections::VecDeque;
use swagos::net::e1000::{
    ctrl_after_reset, eeprom_done, eeprom_read_command, eeprom_word, fill_tx_descriptor, is_tx_ring_full,
    mac_from_eeprom, next_rx, next_tx_tail, receive_address, rx_ready, tx_descriptor, CMD_EOP_IFCS_RS, RCTL_VALUE,
    TCTL_VALUE,
};
use swagos::net::virtio::{
    accepted_features, queue_layout, queue_size_supported, VirtioNet, Virtqueue, VirtqUsedElem, QUEUE_SIZE,
    VIRTQ_DESC_F_WRITE,
};
use swagos::shell::parser::parser;
use swagos::shell::shell::Shell;
use swagos::task::task::{Registers, State, Task};
use swagos::task::task_manager::TaskManager;
use swagos::text::{text_eq, trim};
use swagos::timer::tsc::{is_calibrated, now_us, set_calibration, TscCalibration};
use swagos::vgadriver::keymap::{Keymap, LEFT_SHIFT_PRESS, LEFT_SHIFT_RELEASE};
use swagos::vgadriver::writer::{ScreenChar, Writer};

#[test]
fn parser_splits_at_first_space() {
    assert_eq!(parser("  echo hello world \n"), Some(("echo", "hello world")));
    assert_eq!(parser("help"), None);
    assert_eq!(parser("   "), None);
    assert_eq!(parser("a b"), Some(("a", "b")));
    assert_eq!(parser("\u{3000}cmd  x\u{a0}"), Some(("cmd", " x")));
}

#[test]
fn trim_matches_std() {
    for s in ["", " ", " a ", "\t\r\n x y \u{2028}", "\u{85}z\u{2000}", "abc"] {
        assert_eq!(trim(s), s.trim());
    }
    assert!(text_eq("abc", "abc"));
    assert!(!text_eq("abc", "abd"));
    assert!(!text_eq("abc", "ab"));
}

#[test]
fn shell_editing() {
    let mut sh = Shell::new();
    sh.add_char('a');
    sh.add_char('c');
    sh.move_index_left();
    sh.add_char('b');
    assert_eq!(sh.buffer, "abc");
    assert_eq!(sh.index, 2);
    sh.move_index_right();
    assert_eq!(sh.index, 3);
    sh.move_index_right();
    assert_eq!(sh.index, 3);
    sh.delete_char();
    assert_eq!(sh.buffer, "ab");
    sh.move_index_left();
    sh.move_index_left();
    sh.move_index_left();
    assert_eq!(sh.index, 0);
    sh.delete_char();
    assert_eq!(sh.buffer, "ab");
    let line = sh.send_buffer();
    assert_eq!(line, "ab");
    assert_eq!(sh.buffer, "");
    assert_eq!(sh.index, 0);
}

#[test]
fn shell_line_is_limited() {
    let mut sh = Shell::new();
    for _ in 0..100 {
        sh.add_char('x');
    }
    assert_eq!(sh.buffer.len(), 79);
    assert_eq!(sh.index, 79);
}

#[test]
fn keymap_shift() {
    let mut k = Keymap::new();
    assert_eq!(k.convert(0x1E), 'a');
    assert_eq!(k.convert(0x02), '1');
    assert_eq!(k.convert(LEFT_SHIFT_PRESS), '\0');
    assert_eq!(k.convert(0x1E), 'A');
    assert_eq!(k.convert(0x02), '!');
    assert_eq!(k.convert(LEFT_SHIFT_RELEASE), '\0');
    assert_eq!(k.convert(0x1E), 'a');
    assert_eq!(k.convert(0x9E), '\0');
}

#[test]
fn tsc_conversion() {
    let mut cal = TscCalibration::new();
    assert!(!is_calibrated(&cal));
    assert_eq!(now_us(&cal, 12345), 0);
    set_calibration(&mut cal, 2000, 1000);
    assert!(is_calibrated(&cal));
    assert_eq!(now_us(&cal, 1000 + 2000 * 7), 7);
    set_calibration(&mut cal, 0, 5);
    assert_eq!(now_us(&cal, 15), 10);
}

fn task(id: u8, state: State, sp: usize, wake: u64) -> Box<Task> {
    Box::new(Task { id, state, saved_stack_pointer: sp, stack: Vec::new(), wake_on_tick: wake })
}

#[test]
fn rotate_round_robin() {
    let mut tm = TaskManager::new(20);
    assert_eq!(tm.rotate(99, 0), 0);
    tm.current_task = Some(task(1, State::Running, 0, 0));
    tm.task_list = VecDeque::from(vec![task(0, State::Ready, 100, 0), task(2, State::Ready, 200, 0), task(3, State::Ready, 300, 0)]);
    assert_eq!(tm.rotate(111, 0), 200);
    let cur = tm.current_task.as_ref().unwrap();
    assert_eq!(cur.id, 2);
    assert_eq!(cur.state, State::Running);
    let ids: Vec<u8> = tm.task_list.iter().map(|t| t.id).collect();
    assert_eq!(ids, vec![3, 0, 1]);
    let back = tm.task_list.back().unwrap();
    assert_eq!(back.saved_stack_pointer, 111);
    assert_eq!(back.state, State::Ready);
}

#[test]
fn rotate_wakes_and_falls_back_to_idle() {
    let mut tm = TaskManager::new(20);
    tm.current_task = Some(task(1, State::Running, 0, 0));
    tm.task_list = VecDeque::from(vec![task(2, State::Waiting, 200, 50), task(0, State::Ready, 100, 0)]);
    assert_eq!(tm.rotate(7, 10), 100);
    assert_eq!(tm.current_task.as_ref().unwrap().id, 0);
    let ids: Vec<u8> = tm.task_list.iter().map(|t| t.id).collect();
    assert_eq!(ids, vec![2, 1]);
    assert_eq!(tm.rotate(8, 60), 200);
    let cur = tm.current_task.as_ref().unwrap();
    assert_eq!(cur.id, 2);
    assert_eq!(cur.wake_on_tick, 0);
}

#[test]
fn rotate_stays_on_idle_or_alone() {
    let mut tm = TaskManager::new(20);
    tm.current_task = Some(task(0, State::Running, 0, 0));
    assert_eq!(tm.rotate(5, 0), 5);
    tm.task_list = VecDeque::from(vec![task(4, State::Waiting, 400, 0)]);
    assert_eq!(tm.rotate(6, 0), 6);
    assert_eq!(tm.current_task.as_ref().unwrap().id, 0);
    tm.block_current(90);
    let cur = tm.current_task.as_ref().unwrap();
    assert_eq!(cur.state, State::Waiting);
    assert_eq!(cur.wake_on_tick, 90);
}

#[test]
fn initial_registers() {
    let r = Registers::initial(0x1000, 0x8000);
    assert_eq!(r.rip, 0x1000);
    assert_eq!(r.rsp, 0x8000);
    assert_eq!(r.cs, 8);
    assert_eq!(r.rflags, 0x202);
    assert_eq!(r.rax, 0);
}

#[test]
fn e1000_values() {
    assert_eq!(mac_from_eeprom([0x5452, 0x1200, 0x5634]), [0x52, 0x54, 0x00, 0x12, 0x34, 0x56]);
    assert_eq!(receive_address([0x52, 0x54, 0x00, 0x12, 0x34, 0x56]), (0x1200_5452, 0x8000_5634));
    assert_eq!(eeprom_read_command(2), 0x201);
    assert_eq!(eeprom_word(0xABCD_0010), 0xABCD);
    assert!(eeprom_done(0x10));
    assert!(!eeprom_done(0x0F));
    assert_eq!(ctrl_after_reset(0x1), 0x61);
    assert_eq!(RCTL_VALUE, 0x801E);
    assert_eq!(TCTL_VALUE, 0xA);
    assert!(is_tx_ring_full(5, 4));
    assert!(is_tx_ring_full(0, 31));
    assert!(!is_tx_ring_full(0, 4));
    assert_eq!(next_tx_tail(31), 0);
    assert_eq!(next_rx(31), 0);
    assert_eq!(next_rx(3), 4);
    assert!(rx_ready(0x3));
    assert!(!rx_ready(0x2));
    let d = fill_tx_descriptor(tx_descriptor(0x5000), 60);
    assert_eq!(d.addr, 0x5000);
    assert_eq!(d.length, 60);
    assert_eq!(d.cmd, CMD_EOP_IFCS_RS);
    assert_eq!(d.status, 0);
}

#[test]
fn virtio_layout_and_features() {
    assert_eq!(queue_layout(256), (8192, 8));
    assert_eq!(queue_layout(1024), (20480, 8));
    assert_eq!(accepted_features(0xFFFF_FFFF), 0x20);
    assert_eq!(accepted_features(0x1), 0);
    assert!(queue_size_supported(256));
    assert!(!queue_size_supported(0));
    assert!(!queue_size_supported(300));
    assert!(!queue_size_supported(2048));
}

fn queue(n: u16) -> Virtqueue {
    let addrs: Vec<u64> = (0..n as u64).map(|i| 0x10_0000 + i * 4096).collect();
    Virtqueue::new(n, 0x8000, &addrs)
}

#[test]
fn virtqueue_free_chain() {
    let mut q = queue(4);
    assert_eq!(q.alloc_desc(), Some(0));
    assert_eq!(q.alloc_desc(), Some(1));
    q.free_desc(0);
    assert_eq!(q.alloc_desc(), Some(0));
    assert_eq!(q.alloc_desc(), Some(2));
    assert_eq!(q.alloc_desc(), Some(3));
    assert_eq!(q.alloc_desc(), None);
    q.free_desc(2);
    q.free_desc(3);
    assert_eq!(q.alloc_desc(), Some(3));
    assert_eq!(q.alloc_desc(), Some(2));
}

#[test]
fn virtqueue_rings() {
    let mut q = queue(4);
    q.push_avail(2);
    q.push_avail(3);
    assert_eq!(q.avail.idx, 2);
    assert_eq!(q.avail.ring[0], 2);
    assert_eq!(q.avail.ring[1], 3);
    assert_eq!(q.pop_used(), None);
    q.used.ring[0] = VirtqUsedElem { id: 3, len: 70 };
    q.used.idx = 1;
    assert_eq!(q.pop_used(), Some((3, 70)));
    assert_eq!(q.pop_used(), None);
}

#[test]
fn virtio_send_reclaims_and_receive_reoffers() {
    let mut dev = VirtioNet { iobase: 0xc000, mac: [0; 6], rx: queue(4), tx: queue(2) };
    dev.fill_rx();
    assert_eq!(dev.rx.avail.idx, 4);
    assert_eq!(dev.rx.avail.ring[3], 3);
    assert_eq!(dev.rx.desc[1].flags, VIRTQ_DESC_F_WRITE);
    assert_eq!(dev.prepare_send(3000), None);
    assert_eq!(dev.prepare_send(60), Some(0));
    assert_eq!(dev.tx.desc[0].len, 70);
    assert_eq!(dev.tx.desc[0].flags, 0);
    assert_eq!(dev.prepare_send(60), Some(1));
    assert_eq!(dev.prepare_send(60), None);
    dev.tx.used.ring[0] = VirtqUsedElem { id: 1, len: 0 };
    dev.tx.used.ring[1] = VirtqUsedElem { id: 0, len: 0 };
    dev.tx.used.idx = 2;
    assert_eq!(dev.prepare_send(10), Some(0));
    assert_eq!(dev.tx.last_used_idx, 2);
    assert_eq!(dev.receive(), None);
    dev.rx.used.ring[0] = VirtqUsedElem { id: 2, len: 74 };
    dev.rx.used.idx = 1;
    assert_eq!(dev.receive(), Some((2, 74)));
    assert_eq!(dev.rx.avail.ring[0], 2);
    assert_eq!(dev.rx.avail.idx, 5);
    assert!(QUEUE_SIZE >= 4);
}

fn cell(w: &Writer, row: usize, col: usize) -> u8 {
    w.screen[row * 80 + col].ascii_character
}

#[test]
fn writer_writes_and_wraps() {
    let mut w = Writer::new();
    w.write_string("ab\ncd\u{e9}");
    assert_eq!(cell(&w, 0, 0), b'a');
    assert_eq!(cell(&w, 0, 1), b'b');
    assert_eq!(cell(&w, 1, 0), b'c');
    assert_eq!(cell(&w, 1, 1), b'd');
    assert_eq!(cell(&w, 1, 2), 0xfe);
    assert_eq!(cell(&w, 1, 3), 0xfe);
    assert_eq!((w.row_position, w.column_position), (1, 4));
    assert_eq!(w.cursor_position(), 84);
    w.backspace();
    assert_eq!(cell(&w, 1, 3), b' ');
    assert_eq!(w.column_position, 3);
    let long: String = std::iter::repeat('x').take(81).collect();
    w.write_string(&long);
    assert_eq!(w.row_position, 2);
    assert_eq!(w.column_position, 4);
    assert_eq!(w.screen[2 * 80], ScreenChar { ascii_character: b'x', color_code: 0x07 });
}

#[test]
fn writer_scrolls_at_bottom() {
    let mut w = Writer::new();
    w.write_string("top");
    for _ in 0..24 {
        w.write_string("\n");
    }
    assert_eq!(w.row_position, 24);
    w.write_string("z\n");
    assert_eq!(w.row_position, 24);
    assert_eq!(cell(&w, 0, 0), b' ');
    assert_eq!(cell(&w, 23, 0), b'z');
    assert_eq!(cell(&w, 24, 0), b' ');
    w.clear();
    assert_eq!((w.row_position, w.column_position), (0, 0));
    assert_eq!(cell(&w, 23, 0), b' ');
}

#[test]
fn writer_redraws_shell_line() {
    let mut w = Writer::new();
    w.write_string("old text");
    w.redraw_shell_line(b"ls -l", 2, true);
    assert_eq!(cell(&w, 0, 0), b'>');
    assert_eq!(cell(&w, 0, 1), b'l');
    assert_eq!(cell(&w, 0, 5), b'l');
    assert_eq!(cell(&w, 0, 6), b' ');
    assert_eq!(w.column_position, 3);
    w.redraw_shell_line(b"abc", 1, false);
    assert_eq!(cell(&w, 0, 0), b'a');
    assert_eq!(w.column_position, 1);
    w.move_cursor_left();
    w.move_cursor_left();
    assert_eq!(w.column_position, 0);
    w.move_cursor_right();
    assert_eq!(w.column_position, 1);
}

#[test]
fn virtqueue_device_check() {
    let mut q = queue(4);
    assert!(q.returns_ok());
    q.used.ring[0] = VirtqUsedElem { id: 1, len: 0 };
    q.used.idx = 1;
    assert!(!q.returns_ok());
    q.alloc_desc();
    q.alloc_desc();
    assert!(q.returns_ok());
    q.used.ring[1] = VirtqUsedElem { id: 1, len: 0 };
    q.used.idx = 2;
    assert!(!q.returns_ok());
    q.used.ring[1] = VirtqUsedElem { id: 9, len: 0 };
    assert!(!q.returns_ok());
}
