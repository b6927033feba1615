use vtui::keys::{
    decode_read, find_possible_key, process_single_key, read1, read2, read3, read4, read5, Key,
    ReadOutcome, MAX_KEY_LEN,
};

fn buf_with(bytes: &[u8]) -> ([u8; MAX_KEY_LEN], usize) {
    let mut b = [0u8; MAX_KEY_LEN];
    for (i, v) in bytes.iter().enumerate() {
        b[i] = *v;
    }
    (b, bytes.len())
}

#[test]
fn up_arrow_decodes_in_one_call() {
    // The exact three-byte CSI sequence, fully available, yields Up and
    // leaves the residue buffer empty.
    let (b, n) = buf_with(&[0x1B, 0x5B, 0x41]);
    let (k, rest, fill) = find_possible_key(&b, n).unwrap();
    assert_eq!(k, Key::Up);
    assert_eq!(fill, 0);
    assert!(rest.iter().all(|v| *v == 0));
}

#[test]
fn lone_escape_resolves_once_idle() {
    // A lone escape byte with nothing more pending resolves to Escape.
    let (b, n) = buf_with(&[0x1B]);
    let (k, _, fill) = find_possible_key(&b, n).unwrap();
    assert_eq!(k, Key::ESC);
    assert_eq!(fill, 0);
}

#[test]
fn split_escape_sequence_still_yields_up() {
    // One byte arrives first and stays in the residue buffer; the next
    // read appends the remaining two bytes, and the same Up key comes out
    // as in the single-call case.
    let (b, _) = buf_with(&[0x1B, 0x5B, 0x41]);
    let (k, rest, fill) = decode_read(b, 1, ReadOutcome::Data(2));
    assert_eq!(k, Key::Up);
    assert_eq!(fill, 0);
    assert!(rest.iter().all(|v| *v == 0));
}

#[test]
fn utf8_two_byte_char_decodes_once() {
    // The two-byte encoding of a Latin-1 letter is one literal key, not
    // two unknown bytes.
    let (b, n) = buf_with(&[0xC3, 0xA9]);
    let (k, _, fill) = find_possible_key(&b, n).unwrap();
    assert_eq!(k, Key::Char('\u{e9}'));
    assert_eq!(fill, 0);
}

#[test]
fn longest_prefix_wins_over_escape() {
    // A five-byte function-key sequence is never mis-decoded as Escape
    // followed by garbage.
    let (b, n) = buf_with(&[0x1B, 0x5B, 0x32, 0x30, 0x7E]);
    let (k, _, fill) = find_possible_key(&b, n).unwrap();
    assert_eq!(k, Key::F9);
    assert_eq!(fill, 0);
}

#[test]
fn trailing_bytes_become_residue() {
    // A recognized three-byte prefix leaves the rest shifted to the
    // front of the buffer.
    let (b, n) = buf_with(&[0x1B, 0x5B, 0x41, 0x61, 0x62]);
    let (k, rest, fill) = find_possible_key(&b, n).unwrap();
    assert_eq!(k, Key::Up);
    assert_eq!(fill, 2);
    assert_eq!(rest[0], 0x61);
    assert_eq!(rest[1], 0x62);
    assert_eq!(rest[2], 0);
}

#[test]
fn single_control_bytes() {
    assert_eq!(read1(&[0x00]), Key::Null);
    assert_eq!(read1(&[0x09]), Key::Tab);
    assert_eq!(read1(&[0x0A]), Key::Enter);
    assert_eq!(read1(&[0x1B]), Key::ESC);
    assert_eq!(read1(&[0x7F]), Key::Backspace);
    assert_eq!(read1(&[0x03]), Key::Ctrl('C'));
    assert_eq!(read1(&[b'q']), Key::Char('q'));
    assert_eq!(read1(&[0xFF]), Key::Unknown);
}

#[test]
fn alt_modified_character() {
    assert_eq!(read2(&[0x1B, b'a']), Key::Alt('a'));
    assert_eq!(read2(&[0x1B, 0x5B]), Key::Unknown);
    assert_eq!(read2(&[b'a', b'b']), Key::Unknown);
}

#[test]
fn three_byte_sequences() {
    assert_eq!(read3(&[0x1B, 0x5B, 0x48]), Key::Home);
    assert_eq!(read3(&[0x1B, 0x5B, 0x46]), Key::End);
    assert_eq!(read3(&[0x1B, 0x5B, 0x42]), Key::Down);
    assert_eq!(read3(&[0x1B, 0x5B, 0x43]), Key::Right);
    assert_eq!(read3(&[0x1B, 0x5B, 0x44]), Key::Left);
    assert_eq!(read3(&[0x1B, 0x5B, 0x50]), Key::Pause);
    assert_eq!(read3(&[0x1B, 0x4F, 0x50]), Key::F1);
    assert_eq!(read3(&[0x1B, 0x4F, 0x53]), Key::F4);
    assert_eq!(read3(&[0x61, 0x62, 0x63]), Key::Unknown);
}

#[test]
fn four_byte_sequences() {
    assert_eq!(read4(&[0x1B, 0x5B, 0x5B, 0x41]), Key::F1);
    assert_eq!(read4(&[0x1B, 0x5B, 0x5B, 0x45]), Key::F5);
    assert_eq!(read4(&[0x1B, 0x5B, 0x32, 0x7E]), Key::Paste);
    assert_eq!(read4(&[0x1B, 0x5B, 0x33, 0x7E]), Key::Delete);
    assert_eq!(read4(&[0x1B, 0x5B, 0x35, 0x7E]), Key::PageUp);
    assert_eq!(read4(&[0x1B, 0x5B, 0x36, 0x7E]), Key::PageDown);
    assert_eq!(read4(&[0x1B, 0x5B, 0x31, 0x7E]), Key::Home);
    assert_eq!(read4(&[0x1B, 0x5B, 0x34, 0x7E]), Key::End);
}

#[test]
fn five_byte_sequences() {
    assert_eq!(read5(&[0x1B, 0x5B, 0x31, 0x35, 0x7E]), Key::F5);
    assert_eq!(read5(&[0x1B, 0x5B, 0x31, 0x37, 0x7E]), Key::F6);
    assert_eq!(read5(&[0x1B, 0x5B, 0x31, 0x38, 0x7E]), Key::F7);
    assert_eq!(read5(&[0x1B, 0x5B, 0x31, 0x39, 0x7E]), Key::F8);
    assert_eq!(read5(&[0x1B, 0x5B, 0x32, 0x30, 0x7E]), Key::F9);
    assert_eq!(read5(&[0x1B, 0x5B, 0x32, 0x31, 0x7E]), Key::F10);
    assert_eq!(read5(&[0x1B, 0x5B, 0x32, 0x33, 0x7E]), Key::F11);
    assert_eq!(read5(&[0x1B, 0x5B, 0x32, 0x34, 0x7E]), Key::F12);
}

#[test]
fn process_dispatches_on_length() {
    assert_eq!(process_single_key(&[]), Key::EOF);
    assert_eq!(process_single_key(&[b'x']), Key::Char('x'));
    assert_eq!(process_single_key(&[0x1B, 0x5B, 0x41]), Key::Up);
    assert_eq!(process_single_key(&[1, 2, 3, 4, 5, 6]), Key::Unknown);
}

#[test]
fn unrecognized_buffer_is_discarded() {
    // A corrupt sequence has no recognized prefix; the decoder reports
    // the unrecognized sentinel and clears the whole buffer.
    let (b, _) = buf_with(&[0xFF, 0xFE]);
    assert!(find_possible_key(&b, 2).is_none());
    let (k, rest, fill) = decode_read(b, 0, ReadOutcome::Data(2));
    assert_eq!(k, Key::Unknown);
    assert_eq!(fill, 0);
    assert!(rest.iter().all(|v| *v == 0));
}

#[test]
fn end_of_input_clears_state() {
    let (b, n) = buf_with(&[0x1B]);
    let (k, rest, fill) = decode_read(b, n, ReadOutcome::EndOfInput);
    assert_eq!(k, Key::EOF);
    assert_eq!(fill, 0);
    assert!(rest.iter().all(|v| *v == 0));
}

#[test]
fn interruption_preserves_buffer() {
    let (b, n) = buf_with(&[0x1B, 0x5B]);
    let (k, rest, fill) = decode_read(b, n, ReadOutcome::Interrupted);
    assert_eq!(k, Key::Interupt);
    assert_eq!(fill, 2);
    assert_eq!(rest[0], 0x1B);
    assert_eq!(rest[1], 0x5B);
}

#[test]
fn failed_read_discards_buffer() {
    let (b, n) = buf_with(&[0x61]);
    let (k, _, fill) = decode_read(b, n, ReadOutcome::Failed);
    assert_eq!(k, Key::Unknown);
    assert_eq!(fill, 0);
}

#[test]
fn empty_buffer_resolves_to_nothing() {
    let b = [0u8; MAX_KEY_LEN];
    assert!(find_possible_key(&b, 0).is_none());
}
