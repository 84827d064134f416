use vstd::prelude::*;
use pc_keyboard::{Keyboard, ScancodeSet1};
use pc_keyboard::layouts::Us104Key;
use crate::shell::{KeyBuffer, handle_input, key_buffer_capacity};

verus! {

/// A PS/2 keyboard decoder (`pc_keyboard::Keyboard`) for the US 104-key layout and scancode
/// set 1, with Ctrl+letter mapped to control characters. The decoder is held in a private field
/// and reached only through the functions below, which feed it one scancode at a time.
#[verifier::external_body]
pub struct KeyDecoder {
    keyboard: Keyboard<Us104Key, ScancodeSet1>,
}

/// The scancodes a decoder has been fed since it was made, oldest first.
pub uninterp spec fn fed_bytes(decoder: KeyDecoder) -> Seq<u8>;

/// The character that the last scancode of `bytes` completes when a new decoder is fed all of
/// `bytes` in order (`None` when it completes no key, a key without a character, or a key
/// release). The decoder's state after a sequence of scancodes (pending prefix codes, modifier
/// keys held, lock keys) is a function of that sequence, so this is too.
pub uninterp spec fn decoded_char(bytes: Seq<u8>) -> Option<char>;

/// `Keyboard::new` with scancode set 1, the US 104-key layout and
/// `HandleControl::MapLettersToUnicode`: a decoder that has been fed nothing.
#[verifier::external_body]
fn new_key_decoder() -> (d: KeyDecoder)
    ensures
        fed_bytes(d) == Seq::<u8>::empty(),
{
    KeyDecoder {
        keyboard: Keyboard::new(
            ScancodeSet1::new(),
            Us104Key,
            pc_keyboard::HandleControl::MapLettersToUnicode,
        ),
    }
}

/// One decoding step of `pc_keyboard::Keyboard`: `add_byte` with the scancode, and, when that
/// completes a key event, `process_keyevent` with it; the character of a decoded Unicode key,
/// else `None` (a decoding error, no completed event, a raw key, or a key release). The decoder
/// has then been fed the scancode, and the result is the one that name `decoded_char` gives for
/// all scancodes fed so far.
#[verifier::external_body]
fn decode_scancode(decoder: &mut KeyDecoder, scancode: u8) -> (r: Option<char>)
    ensures
        fed_bytes(*final(decoder)) == fed_bytes(*old(decoder)).push(scancode),
        r == decoded_char(fed_bytes(*final(decoder))),
{
    match decoder.keyboard.add_byte(scancode) {
        Ok(Some(ev)) => match decoder.keyboard.process_keyevent(ev) {
            Some(pc_keyboard::DecodedKey::Unicode(c)) => Some(c),
            Some(pc_keyboard::DecodedKey::RawKey(_)) => None,
            None => None,
        },
        Ok(None) => None,
        Err(_) => None,
    }
}

impl KeyDecoder {
    /// A decoder in its initial state: fed nothing yet.
    pub fn new() -> (d: KeyDecoder)
        ensures
            fed_bytes(d) == Seq::<u8>::empty(),
    {
        new_key_decoder()
    }
}

/// The key queue after a decoded key is handed to it: a character is added at the end while
/// the queue has room, anything else leaves it as it was.
pub open spec fn queue_after_key(q: Seq<char>, key: Option<char>) -> Seq<char> {
    match key {
        Some(c) => if q.len() < key_buffer_capacity() {
            q.push(c)
        } else {
            q
        },
        None => q,
    }
}

/// Hands a decoded key to the shell's queue: a character is queued (dropped when the queue is
/// full), anything else is ignored.
pub fn deliver_key(queue: &mut KeyBuffer, key: Option<char>)
    ensures
        final(queue)@ == queue_after_key(old(queue)@, key),
{
    match key {
        Some(c) => handle_input(queue, c),
        None => {},
    }
}

/// Handles one scancode from the keyboard controller: feeds it to the decoder and queues the
/// character it completes, if any.
pub fn keyboard_interrupt(
    decoder: &mut KeyDecoder,
    queue: &mut KeyBuffer,
    scancode: u8,
)
    ensures
        fed_bytes(*final(decoder)) == fed_bytes(*old(decoder)).push(scancode),
        final(queue)@ == queue_after_key(old(queue)@, decoded_char(fed_bytes(*final(decoder)))),
{
    let key = decode_scancode(decoder, scancode);
    deliver_key(queue, key);
}

/// Every decoded character reaches the queue, control characters (backspace, Ctrl+S, Ctrl+Q,
/// tab) as much as printable ones: delivering `Some(c)` to a queue with room appends exactly
/// `c`; only a full queue, or no character, leaves the queue as it was.
pub proof fn lemma_delivered_char_appended(q: Seq<char>, c: char)
    ensures
        q.len() < 63 ==> queue_after_key(q, Some(c)) == q.push(c),
        q.len() >= 63 ==> queue_after_key(q, Some(c)) == q,
        queue_after_key(q, None) == q,
{
}

} // verus!
