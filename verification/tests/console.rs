use device_network::console::{Console, Packet};
use device_network::device::DevicePath;
use device_network::message::DeviceMessage;
use std::sync::mpsc;

fn push_all(console: &mut Console, text: &str) {
    for c in text.chars() {
        console.push_char(c);
    }
}

#[test]
fn new_console_is_blank() {
    let console = Console::new(10);
    assert_eq!(console.previous_lines, Vec::<String>::new());
    assert_eq!(console.current_line(), "");
    assert_eq!(console.cursor_position(), 0);
    assert_eq!(console.view(5), "\n");
}

#[test]
fn console_wraps_at_the_width() {
    let mut console = Console::new(5);
    push_all(&mut console, "helloworld");
    assert_eq!(console.previous_lines, vec!["hello"]);
    assert_eq!(console.current_line(), "world");
    assert_eq!(console.cursor_position(), 5);
}

#[test]
fn console_newline_forces_a_wrap() {
    let mut console = Console::new(10);
    for c in ['a', 'b', '\n', 'c'] {
        console.push_char(c);
    }
    assert_eq!(console.previous_lines, vec!["ab"]);
    assert_eq!(console.current_line(), "c");
    assert_eq!(console.cursor_position(), 1);
}

#[test]
fn newline_on_a_full_line_wraps_once() {
    let mut console = Console::new(3);
    push_all(&mut console, "abc\ndef\n\ng");
    assert_eq!(console.previous_lines, vec!["abc", "def", ""]);
    assert_eq!(console.current_line(), "g");
}

#[test]
fn width_counts_characters() {
    let mut console = Console::new(2);
    push_all(&mut console, "\u{e9}\u{e8}\u{ea}");
    assert_eq!(console.previous_lines, vec!["\u{e9}\u{e8}"]);
    assert_eq!(console.current_line(), "\u{ea}");
}

#[test]
fn console_of_width_zero_keeps_every_character() {
    let mut console = Console::new(0);
    push_all(&mut console, "ab");
    assert_eq!(console.previous_lines, vec!["", "a"]);
    assert_eq!(console.current_line(), "b");
    assert_eq!(console.cursor_position(), 1);
}

#[test]
fn explicit_newline_completes_the_line() {
    let mut console = Console::new(8);
    push_all(&mut console, "abc");
    console.newline();
    assert_eq!(console.previous_lines, vec!["abc"]);
    assert_eq!(console.previous_lines(), &vec!["abc".to_string()]);
    assert_eq!(console.current_line(), "");
    assert_eq!(console.cursor_position(), 0);
}

#[test]
fn packet_puts_all_eight_characters() {
    let mut console = Console::new(5);
    console.push(Packet::Chars(['h', 'e', 'l', 'l', 'o', 'w', 'o', 'r']));
    assert_eq!(console.previous_lines, vec!["hello"]);
    assert_eq!(console.current_line(), "wor");
    console.push(Packet::End);
    assert_eq!(console.previous_lines, vec!["hello"]);
    assert_eq!(console.current_line(), "wor");
    console.push(Packet::Chars(['l', 'd', '\n', 'a', '\n', '\n', 'b', 'c']));
    assert_eq!(console.previous_lines, vec!["hello", "world", "a", ""]);
    assert_eq!(console.current_line(), "bc");
}

#[test]
fn view_shows_the_last_lines_oldest_first() {
    let mut console = Console::new(10);
    push_all(&mut console, "one\ntwo\nthree\nfour");
    assert_eq!(console.view(0), "\nfour");
    assert_eq!(console.view(1), "\nthree\nfour");
    assert_eq!(console.view(2), "\ntwo\nthree\nfour");
    assert_eq!(console.view(3), "\none\ntwo\nthree\nfour");
    assert_eq!(console.view(4), "\none\ntwo\nthree\nfour");
    assert_eq!(console.view(u32::MAX), "\none\ntwo\nthree\nfour");
}

#[test]
fn receive_without_channel_changes_nothing() {
    let mut console = Console::new(4);
    push_all(&mut console, "ab");
    console.receive();
    assert_eq!(console.previous_lines, Vec::<String>::new());
    assert_eq!(console.current_line(), "ab");
}

#[test]
fn receive_takes_one_packet_at_a_time() {
    let (sender, receiver) = mpsc::channel();
    let mut console = Console::new(5);
    console.give_receiver(receiver);

    // nothing is waiting
    console.receive();
    assert_eq!(console.view(3), "\n");

    sender
        .send(Packet::Chars(['h', 'e', 'l', 'l', 'o', 'w', 'o', 'r']))
        .unwrap();
    sender
        .send(Packet::Chars(['l', 'd', '\n', '!', '\n', '\n', '\n', '\n']))
        .unwrap();
    sender.send(Packet::End).unwrap();

    console.receive();
    assert_eq!(console.previous_lines, vec!["hello"]);
    assert_eq!(console.current_line(), "wor");

    console.receive();
    assert_eq!(
        console.previous_lines,
        vec!["hello", "world", "!", "", "", ""]
    );
    assert_eq!(console.current_line(), "");

    // the end mark
    console.receive();
    assert_eq!(console.previous_lines.len(), 6);
    assert_eq!(console.current_line(), "");

    // the channel is empty, then closed
    console.receive();
    drop(sender);
    console.receive();
    assert_eq!(console.previous_lines.len(), 6);
    assert_eq!(console.view(2), "\n\n\n");
}

#[test]
fn give_receiver_keeps_the_screen() {
    let (sender, receiver) = mpsc::channel();
    let mut console = Console::new(5);
    push_all(&mut console, "abcdefg");
    console.give_receiver(receiver);
    assert_eq!(console.previous_lines, vec!["abcde"]);
    assert_eq!(console.current_line(), "fg");
    sender.send(Packet::End).unwrap();
    console.receive();
    assert_eq!(console.current_line(), "fg");
}

#[test]
fn message_keeps_what_it_was_made_with() {
    let message = DeviceMessage::new(
        DevicePath::from("main/net3/term1"),
        DevicePath::from("/main"),
        vec![Packet::Chars(['a'; 8]), Packet::End],
    );
    assert_eq!(message.to().to_string(), "main/net3/term1");
    assert_eq!(message.from().path, vec!["main"]);
    assert_eq!(message.contents().len(), 2);
    assert!(matches!(message.contents()[0], Packet::Chars(t) if t == ['a'; 8]));
    assert!(matches!(message.contents()[1], Packet::End));
}
