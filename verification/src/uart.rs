//! Decoder for the frames of a serial line. A signal is text with one
//! character for each sampled bit: the line idles at `1`, a frame opens with
//! a start bit, carries its data bits least significant first, then an
//! optional parity bit, and closes with a stop bit.
use vstd::prelude::*;
use vstd::string::StringExecFns;
use vstd::string::StringSliceAdditionalSpecFns;
use vstd::utf8::{
    decode_utf8, encode_utf8, encode_utf8_decode_utf8, encode_utf8_valid_utf8, is_ascii_chars,
    is_ascii_chars_encode_utf8, is_char_boundary, is_char_boundary_iff_not_is_continuation_byte,
    is_char_boundary_start_end_of_seq, is_continuation_byte, valid_utf8_split,
};
use crate::text::{chars_of, decimal, push_decimal};

verus! {

/// Why a configuration was refused.
#[derive(Debug)]
pub struct UartError {
    pub details: String,
}

/// The shape of a frame: the number of data bits, whether a parity bit
/// follows them, and the length of the whole frame.
pub struct UartConfig {
    pub data_len: usize,
    pub parity: bool,
    pub frame_len: usize,
}

/// A decoded frame: the data bits, most significant first, and whether the
/// parity check passed.
pub struct UartFrame {
    pub data: String,
    pub parity: bool,
}

/// The message of the error for a refused data length.
pub open spec fn config_error_details(len: usize) -> Seq<char> {
    "Invalid invalid config value : data_len "@ + decimal(len as nat)
        + " should be usize between 5 and 9 included."@
}

/// The length of a frame with `data_len` data bits: the start bit, the data
/// bits, the parity bit if there is one, and the stop bit.
pub open spec fn framed_len(data_len: usize, parity: bool) -> int {
    if parity {
        data_len + 3
    } else {
        data_len + 2
    }
}

impl UartConfig {
    /// A configuration for frames of `len` data bits. The number of data
    /// bits must be between 5 and 9; any other is refused with a message
    /// that names it.
    pub fn new(len: usize, parity: bool) -> (r: Result<Self, UartError>)
        ensures
            r is Ok <==> 5 <= len <= 9,
            r matches Ok(config) ==> config.data_len == len && config.parity == parity
                && config.frame_len == framed_len(len, parity),
            r matches Err(e) ==> e.details@ == config_error_details(len),
    {
        if len >= 5 && len <= 9 {
            Ok(
                UartConfig {
                    data_len: len,
                    parity: parity,
                    frame_len: if parity {
                        len + 3
                    } else {
                        len + 2
                    },
                },
            )
        } else {
            let mut details = String::from_str("Invalid invalid config value : data_len ");
            push_decimal(&mut details, len);
            details.append(" should be usize between 5 and 9 included.");
            Err(UartError { details })
        }
    }
}

/// Whether the byte range `from..to` of `s` can be cut out: it lies within
/// `s` and both ends fall between characters.
pub open spec fn can_slice(s: &str, from: int, to: int) -> bool {
    &&& 0 <= from <= to <= s.spec_bytes().len()
    &&& is_char_boundary(s.spec_bytes(), from)
    &&& is_char_boundary(s.spec_bytes(), to)
}

/// The characters of the byte range `from..to` of `s`.
pub open spec fn slice_chars(s: &str, from: int, to: int) -> Seq<char>
    recommends
        can_slice(s, from, to),
{
    decode_utf8(s.spec_bytes().subrange(from, to))
}

/// In ASCII text every range within the text can be cut out, and byte
/// positions are character positions.
pub proof fn lemma_slice_ascii(s: &str, from: int, to: int)
    requires
        is_ascii_chars(s@),
        0 <= from <= to <= s@.len(),
    ensures
        can_slice(s, from, to),
        slice_chars(s, from, to) == s@.subrange(from, to),
{
    let bytes = s.spec_bytes();
    is_ascii_chars_encode_utf8(s@);
    encode_utf8_valid_utf8(s@);
    lemma_ascii_boundary(s, from);
    lemma_ascii_boundary(s, to);
    let part = s@.subrange(from, to);
    is_ascii_chars_encode_utf8(part);
    assert(encode_utf8(part) == bytes.subrange(from, to));
    encode_utf8_decode_utf8(part);
}

proof fn lemma_ascii_boundary(s: &str, at: int)
    requires
        is_ascii_chars(s@),
        0 <= at <= s@.len(),
    ensures
        s.spec_bytes().len() == s@.len(),
        is_char_boundary(s.spec_bytes(), at),
{
    let bytes = s.spec_bytes();
    is_ascii_chars_encode_utf8(s@);
    encode_utf8_valid_utf8(s@);
    if at < bytes.len() {
        let b = bytes[at];
        let c = s@[at];
        assert(b == c as u8);
        assert('\0' <= c <= '\u{7f}');
        assert(b < 128);
        assert(!is_continuation_byte(b)) by (bit_vector)
            requires
                b < 128,
        ;
        is_char_boundary_iff_not_is_continuation_byte(bytes, at);
    } else {
        is_char_boundary_start_end_of_seq(bytes);
    }
}

/// Cuts the byte range `from..to` out of `s`.
fn slice<'a>(s: &'a str, from: usize, to: usize) -> (part: &'a str)
    requires
        can_slice(s, from as int, to as int),
    ensures
        part@ == slice_chars(s, from as int, to as int),
{
    let ghost bytes = s.spec_bytes();
    proof {
        encode_utf8_valid_utf8(s@);
    }
    let (head, _) = s.split_at(to);
    proof {
        valid_utf8_split(bytes, to as int);
        assert(head.spec_bytes() == bytes.subrange(0, to as int));
        if from < to {
            is_char_boundary_iff_not_is_continuation_byte(bytes, from as int);
            is_char_boundary_iff_not_is_continuation_byte(head.spec_bytes(), from as int);
        } else {
            is_char_boundary_start_end_of_seq(head.spec_bytes());
        }
    }
    let (_, part) = head.split_at(from);
    proof {
        assert(part.spec_bytes() == bytes.subrange(from as int, to as int));
        encode_utf8_decode_utf8(part@);
    }
    part
}

/// The byte position at which the data bits of a frame end.
pub open spec fn data_end(config: &UartConfig) -> int {
    if config.parity {
        config.frame_len - 2
    } else {
        config.frame_len - 1
    }
}

/// Whether `frame` holds what `config` needs to decode it: the data bits can
/// be cut out after the start bit, and with parity so can the data bits
/// together with the parity bit.
pub open spec fn frame_fits(config: &UartConfig, frame: &str) -> bool {
    &&& can_slice(frame, 1, data_end(config))
    &&& config.parity ==> can_slice(frame, 1, config.frame_len - 1)
}

/// The number of `1` characters in `bits`.
pub open spec fn count_ones(bits: Seq<char>) -> nat
    decreases bits.len(),
{
    if bits.len() == 0 {
        0
    } else {
        count_ones(bits.drop_last()) + if bits.last() == '1' {
            1nat
        } else {
            0nat
        }
    }
}

/// The data of a frame: its data bits in reverse order, so that the most
/// significant bit comes first.
pub open spec fn frame_data(config: &UartConfig, frame: &str) -> Seq<char> {
    slice_chars(frame, 1, data_end(config)).reverse()
}

/// The parity verdict of a frame: without a parity bit every frame passes;
/// with one, a frame passes when the data bits and the parity bit together
/// hold an even number of `1`s.
pub open spec fn frame_parity(config: &UartConfig, frame: &str) -> bool {
    config.parity ==> count_ones(slice_chars(frame, 1, config.frame_len - 1)) % 2 == 0
}

/// The length of `s` in bytes.
fn byte_len(s: &str) -> (n: usize)
    ensures
        n == s.spec_bytes().len(),
{
    broadcast use vstd::slice::axiom_spec_len;

    s.as_bytes().len()
}

/// With a frame length that counts the start bit, the data bits, the
/// parity bit if there is one and the stop bit, an ASCII frame that holds
/// everything up to the stop bit fits; its data are the characters behind
/// the start bit, as many as there are data bits, in reverse order, and its
/// parity is taken over these and the one that follows them.
pub proof fn lemma_ascii_frame(config: &UartConfig, frame: &str)
    requires
        is_ascii_chars(frame@),
        config.frame_len == framed_len(config.data_len, config.parity),
        frame@.len() >= config.frame_len - 1,
    ensures
        frame_fits(config, frame),
        frame_data(config, frame) == frame@.subrange(1, 1 + config.data_len).reverse(),
        frame_data(config, frame).len() == config.data_len,
        config.parity ==> frame_parity(config, frame) == (count_ones(
            frame@.subrange(1, 2 + config.data_len),
        ) % 2 == 0),
{
    lemma_slice_ascii(frame, 1, data_end(config));
    if config.parity {
        lemma_slice_ascii(frame, 1, config.frame_len - 1);
    }
}

/// Whether `from..to` can be cut out of `s`.
fn sliceable(s: &str, from: usize, to: usize) -> (r: bool)
    ensures
        r == can_slice(s, from as int, to as int),
{
    from <= to && to <= byte_len(s) && s.is_char_boundary(from) && s.is_char_boundary(to)
}

fn reversed(s: &str) -> (r: String)
    ensures
        r@ == s@.reverse(),
{
    let chars = chars_of(s);
    let mut r = String::new();
    let mut i: usize = chars.len();
    while i > 0
        invariant
            i <= chars.len(),
            r@.len() == chars.len() - i,
            forall|j: int| 0 <= j < r@.len() ==> r@[j] == chars[chars.len() - 1 - j],
        decreases i,
    {
        i -= 1;
        r.push(chars[i]);
    }
    assert(r@ =~= chars@.reverse());
    r
}

fn even_ones(s: &str) -> (r: bool)
    ensures
        r == (count_ones(s@) % 2 == 0),
{
    let mut even = true;
    for c in it: s.chars()
        invariant
            it.seq() == s@,
            even == (count_ones(s@.take(it.index())) % 2 == 0),
    {
        proof {
            let k = it.index();
            assert(s@.take(k + 1).drop_last() == s@.take(k));
        }
        if c == '1' {
            even = !even;
        }
    }
    assert(s@.take(s@.len() as int) == s@);
    even
}

impl UartConfig {
    /// Decides whether `frame` can be decoded with this configuration.
    pub fn accepts_frame(&self, frame: &str) -> (r: bool)
        ensures
            r == frame_fits(self, frame),
    {
        if self.parity {
            self.frame_len >= 2 && sliceable(frame, 1, self.frame_len - 2) && sliceable(
                frame,
                1,
                self.frame_len - 1,
            )
        } else {
            self.frame_len >= 1 && sliceable(frame, 1, self.frame_len - 1)
        }
    }
}

/// Decodes one frame.
pub fn parse_frame(config: &UartConfig, frame: &str) -> (decoded: UartFrame)
    requires
        frame_fits(config, frame),
    ensures
        decoded.data@ == frame_data(config, frame),
        decoded.parity == frame_parity(config, frame),
{
    if config.parity {
        UartFrame {
            data: reversed(slice(frame, 1, config.frame_len - 2)),
            parity: even_ones(slice(frame, 1, config.frame_len - 1)),
        }
    } else {
        UartFrame { data: reversed(slice(frame, 1, config.frame_len - 1)), parity: true }
    }
}

/// The byte positions at which the frames of a signal start, from position
/// `from` on. A `1` where a frame could start is idle line and is passed
/// over; any other character opens a frame of `frame_len` bytes, and the
/// search goes on behind it. `chars` are the characters of the signal and
/// `size` is its length in bytes.
pub open spec fn frame_starts(chars: Seq<char>, size: int, frame_len: int, from: int) -> Seq<int>
    decreases
        if from < size {
            size - from
        } else {
            0
        },
    when frame_len > 0
{
    if from >= size {
        Seq::empty()
    } else if 0 <= from < chars.len() && chars[from] == '1' {
        frame_starts(chars, size, frame_len, from + 1)
    } else {
        seq![from] + frame_starts(chars, size, frame_len, from + frame_len)
    }
}

/// The frame starts of a whole signal.
pub open spec fn signal_starts(config: &UartConfig, signal: &str) -> Seq<int> {
    frame_starts(signal@, signal.spec_bytes().len() as int, config.frame_len as int, 0)
}

/// Whether `signal` can be cut into frames: frames have a length, and every
/// frame that starts in the signal can be cut out of it whole.
pub open spec fn signal_fits(config: &UartConfig, signal: &str) -> bool {
    &&& config.frame_len > 0
    &&& forall|k: int|
        0 <= k < signal_starts(config, signal).len() ==> can_slice(
            signal,
            #[trigger] signal_starts(config, signal)[k],
            signal_starts(config, signal)[k] + config.frame_len,
        )
}

impl UartConfig {
    /// Decides whether `signal` can be cut into frames of this
    /// configuration.
    pub fn accepts_signal(&self, signal: &str) -> (r: bool)
        ensures
            r == signal_fits(self, signal),
    {
        if self.frame_len == 0 {
            return false;
        }
        let chars = chars_of(signal);
        let size = byte_len(signal);
        let ghost all = signal_starts(self, signal);
        let ghost done = Seq::<int>::empty();
        let mut i: usize = 0;
        assert(done + all == all);
        while i < size
            invariant
                self.frame_len > 0,
                chars@ == signal@,
                size == signal.spec_bytes().len(),
                all == signal_starts(self, signal),
                all == done + frame_starts(chars@, size as int, self.frame_len as int, i as int),
                forall|k: int|
                    0 <= k < done.len() ==> can_slice(
                        signal,
                        #[trigger] done[k],
                        done[k] + self.frame_len,
                    ),
            decreases size - i,
        {
            if i < chars.len() && chars[i] == '1' {
                i += 1;
            } else {
                let ghost rest = frame_starts(
                    chars@,
                    size as int,
                    self.frame_len as int,
                    i + self.frame_len,
                );
                assert(all == done.push(i as int) + rest);
                assert(all[done.len() as int] == i);
                if self.frame_len > size - i || !sliceable(signal, i, i + self.frame_len) {
                    return false;
                }
                proof {
                    done = done.push(i as int);
                }
                i += self.frame_len;
            }
        }
        assert(all == done);
        true
    }
}

/// Cuts a signal into its frames.
pub fn parse_signal<'a>(config: &'a UartConfig, signal: &'a str) -> (frames: Vec<&'a str>)
    requires
        signal_fits(config, signal),
    ensures
        frames.len() == signal_starts(config, signal).len(),
        forall|k: int|
            0 <= k < frames.len() ==> (#[trigger] frames[k])@ == slice_chars(
                signal,
                signal_starts(config, signal)[k],
                signal_starts(config, signal)[k] + config.frame_len,
            ),
{
    let chars = chars_of(signal);
    let size = byte_len(signal);
    let ghost all = signal_starts(config, signal);
    let mut frames: Vec<&str> = Vec::new();
    let mut i: usize = 0;
    assert(Seq::<int>::empty() + all == all);
    while i < size
        invariant
            signal_fits(config, signal),
            chars@ == signal@,
            size == signal.spec_bytes().len(),
            all == signal_starts(config, signal),
            frames.len() <= all.len(),
            all == all.take(frames.len() as int) + frame_starts(
                chars@,
                size as int,
                config.frame_len as int,
                i as int,
            ),
            forall|k: int|
                0 <= k < frames.len() ==> (#[trigger] frames[k])@ == slice_chars(
                    signal,
                    all[k],
                    all[k] + config.frame_len,
                ),
        decreases size - i,
    {
        if i < chars.len() && chars[i] == '1' {
            i += 1;
        } else {
            let ghost n = frames.len() as int;
            let ghost rest = frame_starts(
                chars@,
                size as int,
                config.frame_len as int,
                i + config.frame_len,
            );
            assert(all == all.take(n).push(i as int) + rest);
            assert(all[n] == i);
            assert(all.take(n + 1) == all.take(n).push(i as int));
            frames.push(slice(signal, i, i + config.frame_len));
            i += config.frame_len;
        }
    }
    assert(all.take(frames.len() as int) + Seq::<int>::empty() == all.take(frames.len() as int));
    frames
}

} // verus!
