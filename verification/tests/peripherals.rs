//! Keyboard, screen, queues, logging, tasks and shell behaviour.

use cruzos::apps::{parse_cmd, run_command, Crash, Gash, ShellError};
use cruzos::interrupts::{PICInterrupt, INTERRUPT_CONTEXT_SIZE, PIC_1_OFFSET};
use cruzos::keyboard::layout::{
    moonlander_to_ascii, moonlander_to_keytype, KeyType, Layout, Layoutable, UNDEFINED_KEY,
};
use cruzos::keyboard::buffer::PopBufferStream;
use cruzos::keyboard::{is_letter_scancode, Keyboard};
use cruzos::logging::{enabled, get_logging_level, set_logging_level, Level, Logger};
use cruzos::process::{context_addr, schedule_next, Context, Process};
use cruzos::task::{SimpleExecutor, Task};
use cruzos::util::{ConcurrentDeque, DequeError};
use cruzos::vga::{Color, Letter, Position, Vga, BUFFER_HEIGHT, BUFFER_WIDTH};
use cruzos::QemuExitCode;

#[test]
fn moonlander_decodes_letters_digits_and_controls() {
    assert_eq!(moonlander_to_ascii(30), b'a');
    assert_eq!(moonlander_to_ascii(44), b'z');
    assert_eq!(moonlander_to_ascii(2), b'1');
    assert_eq!(moonlander_to_ascii(11), b'0');
    assert_eq!(moonlander_to_ascii(57), b' ');
    assert_eq!(moonlander_to_ascii(28), b'\n');
    assert_eq!(moonlander_to_ascii(14), 8);
    assert_eq!(moonlander_to_ascii(200), UNDEFINED_KEY);
}

#[test]
fn moonlander_classifies_keys() {
    assert!(matches!(moonlander_to_keytype(30), KeyType::Ascii));
    assert!(matches!(moonlander_to_keytype(1), KeyType::ESC));
    assert!(matches!(moonlander_to_keytype(42), KeyType::Shift));
    assert!(matches!(moonlander_to_keytype(170), KeyType::ShiftReleased));
    assert!(matches!(moonlander_to_keytype(58), KeyType::CapsLock));
    assert!(matches!(moonlander_to_keytype(72), KeyType::ArrowUp));
    assert!(matches!(moonlander_to_keytype(250), KeyType::Unknown));
}

#[test]
fn layout_trait_dispatches_to_moonlander() {
    let layout = Layout::Moonlander;
    assert_eq!(layout.to_ascii(30), b'a');
    assert!(matches!(layout.to_keytype(29), KeyType::Ctrl));
}

#[test]
fn letter_scancodes_cover_space_and_newline() {
    assert!(is_letter_scancode(30));
    assert!(is_letter_scancode(57));
    assert!(is_letter_scancode(28));
    assert!(!is_letter_scancode(2));
    assert!(!is_letter_scancode(42));
}

#[test]
fn shift_and_caps_cancel_each_other() {
    let mut kb = Keyboard::new();
    assert_eq!(kb.to_ascii(30), b'a');
    kb.shift();
    assert_eq!(kb.to_ascii(30), b'A');
    kb.caps_lock();
    // both active: lowercase again
    assert_eq!(kb.to_ascii(30), b'a');
    kb.shift_released();
    assert_eq!(kb.to_ascii(30), b'A');
    kb.caps_lock();
    assert_eq!(kb.to_ascii(30), b'a');
}

#[test]
fn handle_scancode_updates_state_and_yields_bytes() {
    let mut kb = Keyboard::new();
    assert_eq!(kb.handle_scancode(30), Some(b'a'));
    assert_eq!(kb.handle_scancode(42), None);  // shift pressed
    assert_eq!(kb.handle_scancode(30), Some(b'A'));
    assert_eq!(kb.handle_scancode(170), None);  // shift released
    assert_eq!(kb.handle_scancode(30), Some(b'a'));
    assert_eq!(kb.handle_scancode(1), None);  // escape does nothing
}

#[test]
fn deque_is_first_in_first_out() {
    let mut q: ConcurrentDeque<u8> = ConcurrentDeque::new(0);
    assert!(q.is_empty());
    q.push(1).unwrap();
    q.push(2).unwrap();
    q.push(3).unwrap();
    assert_eq!(q.pop(), Some(1));
    assert_eq!(q.pop(), Some(2));
    q.push(4).unwrap();
    assert_eq!(q.pop(), Some(3));
    assert_eq!(q.pop(), Some(4));
    assert_eq!(q.pop(), None);
}

#[test]
fn deque_pop_end_takes_the_newest() {
    let mut q: ConcurrentDeque<u8> = ConcurrentDeque::new(0);
    q.push(1).unwrap();
    q.push(2).unwrap();
    assert_eq!(q.pop_end(), Some(2));
    assert_eq!(q.pop_end(), Some(1));
    assert_eq!(q.pop_end(), None);
}

#[test]
fn deque_refuses_pushes_when_full() {
    let mut q: ConcurrentDeque<u8> = ConcurrentDeque::new(0);
    for i in 0..511 {
        q.push((i % 256) as u8).unwrap();
    }
    assert!(q.is_full());
    assert_eq!(q.push(42), Err(DequeError::Full));
    assert_eq!(q.pop(), Some(0));
    q.push(42).unwrap();
}

#[test]
fn deque_wraps_around() {
    let mut q: ConcurrentDeque<u8> = ConcurrentDeque::new(0);
    for round in 0..600u32 {
        q.push((round % 200) as u8).unwrap();
        assert_eq!(q.pop(), Some((round % 200) as u8));
    }
    assert!(q.is_empty());
}

#[test]
fn sync_carries_pushed_bytes_to_the_reader() {
    let mut push_q: ConcurrentDeque<u8> = ConcurrentDeque::new(0);
    let mut pop_q: ConcurrentDeque<u8> = ConcurrentDeque::new(0);
    push_q.push(7).unwrap();
    push_q.push(8).unwrap();
    ConcurrentDeque::sync(&mut push_q, &mut pop_q);
    let mut stream = PopBufferStream::new();
    assert_eq!(stream.poll_next(&mut pop_q), Some(7));
    assert_eq!(stream.poll_next(&mut pop_q), Some(8));
    assert_eq!(stream.poll_next(&mut pop_q), None);
}

#[test]
fn vga_writes_letters_and_advances() {
    let mut vga = Vga::new(Color::White, Color::Black);
    vga.write_byte(b'h');
    vga.write_byte(b'i');
    assert_eq!(vga.letter_at(0, 0).byte, b'h');
    assert_eq!(vga.letter_at(0, 1).byte, b'i');
    assert_eq!(vga.cursor(), Position { row: 0, col: 2 });
    vga.write_byte(b'\n');
    assert_eq!(vga.cursor(), Position { row: 1, col: 0 });
    vga.write_bytes(&vec![b'o', b'k']);
    assert_eq!(vga.letter_at(1, 0).byte, b'o');
    assert_eq!(vga.letter_at(1, 1).byte, b'k');
}

#[test]
fn vga_color_attribute_packs_both_colors() {
    let vga = Vga::new(Color::White, Color::Black);
    assert_eq!(vga.color(), 0x0f);
    let vga2 = Vga::new(Color::Yellow, Color::Blue);
    assert_eq!(vga2.color(), 0x1e);
    assert_eq!(Color::LightGray.code(), 0x7);
}

#[test]
fn vga_scrolls_when_writing_past_the_bottom() {
    let mut vga = Vga::new(Color::White, Color::Black);
    vga.write_byte(b'x');
    for _ in 0..BUFFER_HEIGHT {
        vga.write_byte(b'\n');
    }
    // cursor now rests past the bottom; the next letter scrolls
    vga.write_byte(b'y');
    assert_eq!(vga.letter_at(BUFFER_HEIGHT - 1, 0).byte, b'y');
    // the 'x' of the first row scrolled away
    assert_eq!(vga.letter_at(0, 0).byte, 0);
}

#[test]
fn vga_backspace_erases_the_previous_letter() {
    let mut vga = Vga::new(Color::White, Color::Black);
    vga.write_byte(b'a');
    vga.write_byte(b'b');
    vga.backspace();
    assert_eq!(vga.letter_at(0, 1).byte, b' ');
    assert_eq!(vga.cursor(), Position { row: 0, col: 1 });
    assert_eq!(vga.letter_at(0, 0).byte, b'a');
}

#[test]
fn vga_clear_blanks_the_screen() {
    let mut vga = Vga::new(Color::White, Color::Black);
    vga.write_bytes(&vec![b'a', b'b', b'c']);
    vga.clear();
    assert_eq!(vga.letter_at(0, 0), Letter { byte: 0, color: 0 });
    assert_eq!(vga.cursor(), Position { row: 0, col: 0 });
}

#[test]
fn position_back_stops_at_the_corner() {
    let mut p = Position::new(0, 0);
    p.back();
    assert_eq!(p, Position { row: 0, col: 0 });
    let mut p2 = Position::new(2, 0);
    p2.back();
    assert_eq!(p2, Position { row: 1, col: BUFFER_WIDTH - 1 });
    let mut p3 = Position::new(2, 5);
    p3.back();
    assert_eq!(p3, Position { row: 2, col: 4 });
}

#[test]
fn logging_level_gates_lines() {
    let mut logger = Logger::new(Level::Debug);
    assert_eq!(get_logging_level(&logger), Level::Debug);
    assert!(enabled(Level::Error, &logger));
    assert!(enabled(Level::Debug, &logger));
    set_logging_level(&mut logger, Level::Info);
    assert_eq!(get_logging_level(&logger), Level::Info);
    assert!(enabled(Level::Error, &logger));
    assert!(!enabled(Level::Warning, &logger));
    assert!(!enabled(Level::Debug, &logger));
}

#[test]
fn pic_vectors_follow_the_offset() {
    assert_eq!(PICInterrupt::Timer.vector(), PIC_1_OFFSET);
    assert_eq!(PICInterrupt::Keyboard.vector(), PIC_1_OFFSET + 1);
}

#[test]
fn context_sits_at_the_top_of_the_kernel_stack() {
    assert_eq!(INTERRUPT_CONTEXT_SIZE, 160);
    assert_eq!(context_addr(0x2000), 0x2000 - 160);
    let ctx = Context::init(0x1234, 0x8000, 8, 16);
    assert_eq!(ctx.rip, 0x1234);
    assert_eq!(ctx.rsp, 0x8000);
    assert_eq!(ctx.cs, 8);
    assert_eq!(ctx.ss, 16);
    assert_eq!(ctx.rflags, 0x200);
    assert_eq!(ctx.rax, 0);
}

#[test]
fn executor_merges_polls_and_retires() {
    let mut ex = SimpleExecutor::new(50);
    ex.spawn(Task::new(String::from("one"), 0));
    ex.spawn(Task::new(String::from("two"), 1));
    assert_eq!(ex.task_count(), 0);
    ex.update_tasks();
    assert_eq!(ex.task_count(), 2);
    // first task finishes, second is pending
    ex.record_poll(0, true);
    ex.record_poll(1, false);
    assert!(ex.task_blocked(1));
    ex.retire_ready();
    assert_eq!(ex.task_count(), 1);
}

#[test]
fn task_state_follows_poll_outcomes() {
    let mut t = Task::new(String::from("job"), 7);
    assert_eq!(t.id(), 7);
    assert!(!t.is_ready());
    assert!(!t.is_blocked());
    t.poll(false);
    assert!(t.is_blocked());
    t.wake();
    assert!(!t.is_blocked());
    t.poll(true);
    assert!(t.is_ready());
}

#[test]
fn parse_cmd_splits_command_and_arguments() {
    let (cmd, args) = parse_cmd(&b"  echo hello   world \n".to_vec());
    assert_eq!(cmd, b"echo".to_vec());
    assert_eq!(args, vec![b"hello".to_vec(), b"world".to_vec()]);
    let (cmd2, args2) = parse_cmd(&b"   \t \n".to_vec());
    assert_eq!(cmd2, Vec::<u8>::new());
    assert!(args2.is_empty());
    let (cmd3, args3) = parse_cmd(&b"ps".to_vec());
    assert_eq!(cmd3, b"ps".to_vec());
    assert!(args3.is_empty());
}

#[test]
fn shell_dispatches_commands() {
    let args = vec![b"hello".to_vec(), b"world".to_vec()];
    let out = run_command(&b"echo".to_vec(), &args).unwrap();
    assert_eq!(out, b"hello world".to_vec());
    let ps_out = run_command(&b"ps".to_vec(), &Vec::new()).unwrap();
    assert!(ps_out.is_empty());
    let err = run_command(&b"nope".to_vec(), &Vec::new());
    assert_eq!(err, Err(ShellError::CommandNotFound));
}

#[test]
fn shells_construct() {
    let _gash = Gash::new();
    let _crash = Crash::new();
}

#[test]
fn qemu_exit_codes() {
    assert_eq!(QemuExitCode::Success.code(), 0x10);
    assert_eq!(QemuExitCode::Failed.code(), 0x11);
    assert_eq!(QemuExitCode::NotExit.code(), 0x12);
}

#[test]
fn scheduler_round_robins_processes() {
    let (p1, c1) = Process::new(1, true, 0x2000, 0x9000, 0x1111, 8, 16);
    assert_eq!(c1.rip, 0x1111);
    assert_eq!(c1.rsp, 0x9000);
    let (p2, _c2) = Process::new(2, true, 0x4000, 0xa000, 0x2222, 8, 16);
    let mut queue: ConcurrentDeque<Process> = ConcurrentDeque::new(p1);
    queue.push(p1).unwrap();
    queue.push(p2).unwrap();
    let mut current: Option<Process> = None;
    let r1 = schedule_next(&mut queue, &mut current, 0);
    assert_eq!(r1, 0x2000 - INTERRUPT_CONTEXT_SIZE);
    assert_eq!(current.unwrap().id, 1);
    let r2 = schedule_next(&mut queue, &mut current, 0x7777);
    assert_eq!(r2, 0x4000 - INTERRUPT_CONTEXT_SIZE);
    assert_eq!(current.unwrap().id, 2);
    // the interrupted first process rejoined at the back with its saved
    // context address
    let r3 = schedule_next(&mut queue, &mut current, 0x8888);
    assert_eq!(r3, 0x7777);
    assert_eq!(current.unwrap().id, 1);
}

#[test]
fn fresh_screen_is_blank() {
    let vga = Vga::new(Color::White, Color::Black);
    for i in 0..BUFFER_HEIGHT {
        for j in 0..BUFFER_WIDTH {
            assert_eq!(vga.letter_at(i, j), Letter { byte: 0, color: 0 });
        }
    }
    assert_eq!(vga.cursor(), Position { row: 0, col: 0 });
}

#[test]
fn backspace_keeps_the_cell_color() {
    let mut vga = Vga::new(Color::Yellow, Color::Blue);
    vga.write_byte(b'q');
    let written = vga.letter_at(0, 0);
    assert_eq!(written.color, vga.color());
    vga.backspace();
    let erased = vga.letter_at(0, 0);
    assert_eq!(erased.byte, b' ');
    assert_eq!(erased.color, written.color);
}
