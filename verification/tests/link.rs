use vesper::button_array::KeyEvent;
use vesper::command::{Command, SlaveEvent, STX};
use vesper::link::{frame, LinkInput, LinkWait, SlaveLink};
use vesper::time::Instant;

fn at(ticks: u64) -> Instant {
    Instant { ticks }
}

/// Lets `link` receive `stream`, all of it in time, and returns the payloads.
fn receive_all(link: &mut SlaveLink, stream: &[u8]) -> Vec<Vec<u8>> {
    let mut payloads: Vec<Vec<u8>> = Vec::new();
    let mut i = 0;
    loop {
        match link.wait {
            LinkWait::Length => {
                if i == stream.len() {
                    return payloads;
                }
                assert!(link.receive(LinkInput::Length(stream[i])).is_none());
                i += 1;
            }
            LinkWait::Payload(n) => {
                let bytes = stream[i..i + n].to_vec();
                i += n;
                payloads.push(link.receive(LinkInput::Payload(bytes)).unwrap());
            }
        }
    }
}

#[test]
fn frames_start_with_their_length() {
    assert_eq!(frame(&[]), vec![0]);
    assert_eq!(frame(&[9, 8, 7]), vec![3, 9, 8, 7]);
    assert_eq!(frame(&[1; 255])[0], 255);
    assert_eq!(frame(&[1; 256])[0], 0);
    assert_eq!(frame(&[1; 511]).len(), 512);
}

#[test]
fn what_is_sent_arrives() {
    let payloads = vec![vec![1], vec![], vec![5; 32], vec![0, 1, 2]];
    let mut stream: Vec<u8> = Vec::new();
    for payload in &payloads {
        stream.extend(frame(payload));
    }
    let mut link = SlaveLink::new(at(0));
    assert_eq!(receive_all(&mut link, &stream), payloads);
}

#[test]
fn late_frame_is_forgotten() {
    let mut link = SlaveLink::new(at(0));
    link.receive(LinkInput::Length(3));
    assert_eq!(link.wait, LinkWait::Payload(3));
    assert!(link.receive(LinkInput::TimedOut).is_none());
    assert_eq!(link.wait, LinkWait::Length);
    assert_eq!(receive_all(&mut link, &[2, 7, 7]), vec![vec![7, 7]]);
}

#[test]
fn signs_of_life_move_the_deadline() {
    let mut link = SlaveLink::new(at(10));
    assert_eq!(link.watchdog_deadline, at(500_010));
    assert_eq!(link.handle_slave_event(at(1000), SlaveEvent::Watchdog), None);
    assert_eq!(link.watchdog_deadline, at(501_000));
    link.handle_slave_event(at(9000), SlaveEvent::KeyEvent(KeyEvent::KeyHeld(0)));
    assert_eq!(link.watchdog_deadline, at(501_000));
}

#[test]
fn keys_of_the_second_board_come_behind() {
    let mut link = SlaveLink::new(at(0));
    let event = SlaveEvent::KeyEvent(KeyEvent::KeyPressed(0));
    assert_eq!(link.handle_slave_event(at(0), event), Some(KeyEvent::KeyPressed(28)));
    let event = SlaveEvent::KeyEvent(KeyEvent::KeyReleased(27));
    assert_eq!(link.handle_slave_event(at(0), event), Some(KeyEvent::KeyReleased(55)));
}

#[test]
fn commands_are_told_apart() {
    assert!(Command::Handshake != Command::Reset);
    assert_eq!(STX, 2);
}
