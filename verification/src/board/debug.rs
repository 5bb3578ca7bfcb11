//! On-screen debug logging: numbers as decimal and hexadecimal text, and
//! the key/value lines that are drawn down the right edge of the screen.

use vstd::prelude::*;

use crate::board::screen::{draw_str, lemma_str_on_rows, str_addressable, str_writes};
use crate::framebuffer::{on_rows, FrameConfig, FramebufferWrite};

verus! {

/// The decimal digits of `n`, most significant first, as ASCII.
pub open spec fn dec_digits(n: nat) -> Seq<u8>
    decreases n,
{
    if n < 10 {
        seq![(48 + n) as u8]
    } else {
        dec_digits(n / 10).push((48 + n % 10) as u8)
    }
}

/// The number that a string of ASCII decimal digits denotes.
pub open spec fn dec_value(s: Seq<u8>) -> int
    decreases s.len(),
{
    if s.len() == 0 {
        0
    } else {
        dec_value(s.drop_last()) * 10 + (s.last() - 48)
    }
}

/// Ten to the power `k`.
pub open spec fn pow10(k: nat) -> nat
    decreases k,
{
    if k == 0 {
        1
    } else {
        10 * pow10((k - 1) as nat)
    }
}

/// Reading back the decimal digits of a number gives the number, and every
/// digit is an ASCII digit.
pub proof fn lemma_dec_digits_round_trip(n: nat)
    ensures
        dec_value(dec_digits(n)) == n,
        dec_digits(n).len() >= 1,
        forall|i: int| 0 <= i < dec_digits(n).len() ==> 48 <= #[trigger] dec_digits(n)[i] <= 57,
    decreases n,
{
    let s = dec_digits(n);
    if n < 10 {
        assert(s.drop_last() =~= Seq::<u8>::empty());
        assert(dec_value(s.drop_last()) == 0);
    } else {
        lemma_dec_digits_round_trip(n / 10);
        assert(s.drop_last() =~= dec_digits(n / 10));
    }
}

/// A number below `10^k` has at most `k` decimal digits.
pub proof fn lemma_dec_digits_len(n: nat, k: nat)
    requires
        n < pow10(k),
        k >= 1,
    ensures
        dec_digits(n).len() <= k,
    decreases k,
{
    if n >= 10 {
        assert(pow10(0) == 1);
        assert(k >= 2);
        lemma_dec_digits_len(n / 10, (k - 1) as nat);
    }
}

/// A `u32` has at most ten decimal digits.
pub proof fn lemma_u32_dec_len(n: u32)
    ensures
        1 <= dec_digits(n as nat).len() <= 10,
{
    reveal_with_fuel(pow10, 11);
    assert(pow10(10) == 10_000_000_000);
    lemma_dec_digits_len(n as nat, 10);
    lemma_dec_digits_round_trip(n as nat);
}

/// What `number_to_char_array` leaves in an `N`-byte buffer for `num`: the
/// decimal digits left-aligned and zero-padded, except for 0, whose single
/// digit ends up in the last byte while the reported length is 1.
pub open spec fn char_array_of(num: nat, n: nat) -> Seq<u8> {
    if num == 0 {
        Seq::new((n - 1) as nat, |i: int| 0u8).push(48u8)
    } else {
        dec_digits(num) + Seq::new((n - dec_digits(num).len()) as nat, |i: int| 0u8)
    }
}

/// Writes the decimal digits of `num` into an `N`-byte buffer and returns
/// the buffer with the number of digits.
pub fn number_to_char_array<const N: usize>(num: u32) -> (res: ([u8; N], usize))
    requires
        dec_digits(num as nat).len() <= N,
    ensures
        res.1 == dec_digits(num as nat).len(),
        res.0@ == char_array_of(num as nat, N as nat),
{
    let ghost orig = num as nat;
    let mut num = num;
    let mut buffer = [0u8; N];
    let mut index = N;
    proof {
        lemma_dec_digits_round_trip(orig);
    }

    if num == 0 {
        index -= 1;
        buffer[index] = 48;  // '0'
        assert(buffer@ =~= char_array_of(orig, N as nat));
        return (buffer, N - index);
    }

    while num != 0
        invariant
            index <= N,
            dec_digits(orig).len() <= N,
            orig > 0,
            buffer@.len() == N,
            forall|i: int| 0 <= i < index ==> buffer@[i] == 0,
            num != 0 ==> dec_digits(orig) == dec_digits(num as nat) + buffer@.subrange(index as int, N as int),
            num == 0 ==> dec_digits(orig) == buffer@.subrange(index as int, N as int),
        decreases num,
    {
        let ghost suffix = buffer@.subrange(index as int, N as int);
        let remainder = num % 10;
        assert(dec_digits(num as nat).len() >= 1) by {
            lemma_dec_digits_round_trip(num as nat);
        }
        index -= 1;
        buffer[index] = 48 + remainder as u8;
        assert(buffer@.subrange(index as int, N as int) =~= seq![(48 + num % 10) as u8] + suffix);
        if num >= 10 {
            assert(dec_digits(num as nat) =~= dec_digits((num / 10) as nat).push((48 + num % 10) as u8));
            assert(dec_digits(orig) =~= dec_digits((num / 10) as nat) + buffer@.subrange(index as int, N as int));
        } else {
            assert(dec_digits(orig) =~= buffer@.subrange(index as int, N as int));
        }
        num /= 10;
    }

    let mut result = [0u8; N];
    let len = N - index;
    let mut i: usize = 0;
    while i < len
        invariant
            len == N - index,
            index <= N,
            i <= len,
            buffer@.len() == N,
            result@.len() == N,
            dec_digits(orig) == buffer@.subrange(index as int, N as int),
            forall|j: int| 0 <= j < i ==> result@[j] == buffer@[index + j],
            forall|j: int| i <= j < N ==> result@[j] == 0,
        decreases len - i,
    {
        result[i] = buffer[index + i];
        i += 1;
    }
    assert(result@ =~= char_array_of(orig, N as nat));
    (result, len)
}

/// The ASCII hexadecimal digit for `n < 16`, upper case.
pub open spec fn hex_char(n: int) -> u8 {
    if n < 10 {
        (48 + n) as u8
    } else {
        (65 + n - 10) as u8
    }
}

/// The value of an ASCII hexadecimal digit, upper case.
pub open spec fn hex_char_value(c: u8) -> int {
    if c <= 57 {
        c - 48
    } else {
        c - 55
    }
}

/// The 4-bit group `k` of `v`, counting from the least significant.
pub open spec fn nibble(v: u32, k: int) -> int {
    ((v >> ((k * 4) as u32)) & 0xF) as int
}

/// The eight hexadecimal digits of `v`, most significant first.
pub open spec fn hex_digits(v: u32) -> Seq<u8> {
    Seq::new(8, |i: int| hex_char(nibble(v, 7 - i)))
}

/// The number that a string of upper-case hexadecimal digits denotes.
pub open spec fn hex_value(s: Seq<u8>) -> int
    decreases s.len(),
{
    if s.len() == 0 {
        0
    } else {
        hex_value(s.drop_last()) * 16 + hex_char_value(s.last())
    }
}

proof fn lemma_nibble_bound(v: u32, s: u32)
    ensures
        (v >> s) & 0xF < 16,
{
    assert((v >> s) & 0xF < 16) by (bit_vector);
}

/// Reading back the eight hexadecimal digits of `v` gives `v`.
pub proof fn lemma_hex_digits_round_trip(v: u32)
    ensures
        hex_value(hex_digits(v)) == v,
{
    assert(v == ((v >> 28u32) & 0xF) * 0x1000_0000 + ((v >> 24u32) & 0xF) * 0x100_0000 + ((v
        >> 20u32) & 0xF) * 0x10_0000 + ((v >> 16u32) & 0xF) * 0x1_0000 + ((v >> 12u32) & 0xF)
        * 0x1000 + ((v >> 8u32) & 0xF) * 0x100 + ((v >> 4u32) & 0xF) * 0x10 + ((v >> 0u32)
        & 0xF)) by (bit_vector);
    let h = hex_digits(v);
    assert forall|k: int| 0 <= k < 8 implies hex_char_value(#[trigger] hex_char(nibble(v, k)))
        == nibble(v, k) by {
        lemma_nibble_bound(v, (k * 4) as u32);
    }
    assert(h.drop_last() =~= h.subrange(0, 7));
    assert(h.subrange(0, 7).drop_last() =~= h.subrange(0, 6));
    assert(h.subrange(0, 6).drop_last() =~= h.subrange(0, 5));
    assert(h.subrange(0, 5).drop_last() =~= h.subrange(0, 4));
    assert(h.subrange(0, 4).drop_last() =~= h.subrange(0, 3));
    assert(h.subrange(0, 3).drop_last() =~= h.subrange(0, 2));
    assert(h.subrange(0, 2).drop_last() =~= h.subrange(0, 1));
    assert(h.subrange(0, 1).drop_last() =~= Seq::<u8>::empty());
    assert(hex_value(Seq::<u8>::empty()) == 0);
    assert(hex_value(h.subrange(0, 1)) == nibble(v, 7));
    assert(hex_value(h.subrange(0, 2)) == nibble(v, 7) * 16 + nibble(v, 6));
    assert(hex_value(h.subrange(0, 3)) == (nibble(v, 7) * 16 + nibble(v, 6)) * 16 + nibble(v, 5));
    assert(hex_value(h.subrange(0, 4)) == ((nibble(v, 7) * 16 + nibble(v, 6)) * 16 + nibble(v, 5))
        * 16 + nibble(v, 4));
    assert(hex_value(h.subrange(0, 5)) == (((nibble(v, 7) * 16 + nibble(v, 6)) * 16 + nibble(v, 5))
        * 16 + nibble(v, 4)) * 16 + nibble(v, 3));
    assert(hex_value(h.subrange(0, 6)) == ((((nibble(v, 7) * 16 + nibble(v, 6)) * 16 + nibble(
        v,
        5,
    )) * 16 + nibble(v, 4)) * 16 + nibble(v, 3)) * 16 + nibble(v, 2));
    assert(hex_value(h.subrange(0, 7)) == (((((nibble(v, 7) * 16 + nibble(v, 6)) * 16 + nibble(
        v,
        5,
    )) * 16 + nibble(v, 4)) * 16 + nibble(v, 3)) * 16 + nibble(v, 2)) * 16 + nibble(v, 1));
}

/// The digits that a debug line shows for `value`: its decimal digits, or
/// for 0 the single byte that `number_to_char_array` leaves first in its
/// buffer, which is 0.
pub open spec fn shown_digits(value: u32) -> Seq<u8> {
    char_array_of(value as nat, 12).subrange(0, dec_digits(value as nat).len() as int)
}

/// The text of a debug line: the key, a colon, the value in eight
/// hexadecimal digits, " OR " and the value in decimal.
pub open spec fn log_text(key: Seq<u8>, value: u32) -> Seq<u8> {
    key + seq![58u8] + hex_digits(value) + seq![32u8, 79u8, 82u8, 32u8] + shown_digits(value)
}

/// Builds the text of a debug line in a 50-byte buffer, as `log_u32` draws
/// it.
pub fn log_line(key: &[u8], value: u32) -> (line: Vec<u8>)
    requires
        key@.len() + dec_digits(value as nat).len() <= 37,
    ensures
        line@ == log_text(key@, value),
{
    let mut buf = [32u8; 50];
    let mut n: usize = 0;
    while n < key.len()
        invariant
            n <= key@.len(),
            key@.len() <= 37,
            buf@.len() == 50,
            buf@.subrange(0, n as int) == key@.subrange(0, n as int),
            forall|j: int| n <= j < 50 ==> buf@[j] == 32,
        decreases key@.len() - n,
    {
        buf[n] = key[n];
        n += 1;
        assert(buf@.subrange(0, n as int) =~= key@.subrange(0, n as int));
    }
    assert(key@.subrange(0, n as int) =~= key@);
    buf[n] = 58;  // ':'
    n += 1;
    assert(buf@.subrange(0, n as int) =~= key@ + seq![58u8]);
    let ghost head = key@ + seq![58u8];
    let mut shift: u32 = 8;
    while shift > 0
        invariant
            shift <= 8,
            n == key@.len() + 1 + (8 - shift),
            key@.len() <= 37,
            buf@.len() == 50,
            head == key@ + seq![58u8],
            buf@.subrange(0, n as int) == head + hex_digits(value).subrange(0, 8 - shift),
            forall|j: int| n <= j < 50 ==> buf@[j] == 32,
        decreases shift,
    {
        shift -= 1;
        proof {
            lemma_nibble_bound(value, (shift * 4) as u32);
        }
        let nib = ((value >> (shift * 4)) & 0xF) as u8;
        assert(hex_digits(value)[7 - shift] == hex_char(nibble(value, shift as int)));
        buf[n] = if nib < 10 {
            48 + nib
        } else {
            65 + nib - 10
        };
        assert(buf@[n as int] == hex_char(nibble(value, shift as int)));
        assert(buf@.subrange(0, n as int) =~= head + hex_digits(value).subrange(0, 7 - shift));
        n += 1;
        assert(buf@.subrange(0, n as int) =~= head + hex_digits(value).subrange(0, 8 - shift));
    }
    assert(hex_digits(value).subrange(0, 8) =~= hex_digits(value));
    n += 1;
    buf[n] = 79;  // 'O'
    n += 1;
    buf[n] = 82;  // 'R'
    n += 2;
    let ghost mid = head + hex_digits(value) + seq![32u8, 79u8, 82u8, 32u8];
    assert(buf@.subrange(0, n as int) =~= mid);

    proof {
        lemma_u32_dec_len(value);
    }
    let (digits, len) = number_to_char_array::<12>(value);
    assert(digits@.len() == 12);
    let mut i: usize = 0;
    while i < len
        invariant
            i <= len,
            len == dec_digits(value as nat).len(),
            len <= 10,
            n == mid.len() + i,
            key@.len() + len <= 37,
            mid.len() == key@.len() + 13,
            buf@.len() == 50,
            digits@ == char_array_of(value as nat, 12),
            digits@.len() == 12,
            buf@.subrange(0, n as int) == mid + digits@.subrange(0, i as int),
        decreases len - i,
    {
        buf[n] = digits[i];
        assert(buf@[n as int] == digits@[i as int]);
        assert(buf@.subrange(0, n as int) =~= mid + digits@.subrange(0, i as int));
        n += 1;
        i += 1;
        assert(buf@.subrange(0, n as int) =~= mid + digits@.subrange(0, i as int));
    }
    assert(buf@.subrange(0, n as int) =~= log_text(key@, value));

    let mut line: Vec<u8> = Vec::new();
    let mut j: usize = 0;
    while j < n
        invariant
            j <= n,
            n <= 50,
            buf@.len() == 50,
            line@ == buf@.subrange(0, j as int),
        decreases n - j,
    {
        line.push(buf[j]);
        j += 1;
        assert(line@ =~= buf@.subrange(0, j as int));
    }
    line
}

/// The text of a debug line is the key, 13 bytes of punctuation and
/// hexadecimal, and the decimal digits.
pub proof fn lemma_log_text_len(key: Seq<u8>, value: u32)
    ensures
        log_text(key, value).len() == key.len() + 13 + dec_digits(value as nat).len(),
{
    lemma_u32_dec_len(value);
}

/// The column where debug lines start: 28 character cells left of the
/// right edge, or the left edge on a narrower screen.
pub open spec fn log_x(cfg: FrameConfig) -> int {
    if cfg.width > 224 {
        cfg.width - 224
    } else {
        0
    }
}

/// Whether a debug line for `key` and `value` drawn at row `y` fits its
/// buffer, keeps every coordinate within `u32` and draws only pixels whose
/// address can be computed.
pub open spec fn log_fits(cfg: FrameConfig, y: int, key_len: int, value: u32) -> bool {
    &&& key_len + dec_digits(value as nat).len() <= 37
    &&& log_x(cfg) + (key_len + 13 + dec_digits(value as nat).len()) * 8 <= u32::MAX
    &&& y + 12 <= u32::MAX
    &&& str_addressable(cfg, log_x(cfg), y, 1, key_len + 13 + dec_digits(value as nat).len())
}

/// The stores that draw the debug line for `key` and `value` at row `y`.
pub open spec fn log_writes(cfg: FrameConfig, y: int, key: Seq<u8>, value: u32) -> Seq<
    FramebufferWrite,
> {
    let text = log_text(key, value);
    str_writes(cfg, text, log_x(cfg), y, 1, text.len() as int)
}

/// Where the next debug line goes: lines are drawn down the right edge of
/// the screen, 12 pixels apart, starting at row 8.
pub struct DebugLog {
    log_y: u32,
}

impl View for DebugLog {
    type V = u32;

    closed spec fn view(&self) -> u32 {
        self.log_y
    }
}

impl DebugLog {
    pub fn new() -> (log: Self)
        ensures
            log@ == 8,
    {
        DebugLog { log_y: 8 }
    }
}

/// Draws `key`, its value in hexadecimal and in decimal on the next
/// line, and moves down a line.
pub fn log_u32(log: &mut DebugLog, cfg: &FrameConfig, key: &[u8], value: u32) -> (out: Vec<
    FramebufferWrite,
>)
    requires
        log_fits(*cfg, old(log)@ as int, key@.len() as int, value),
    ensures
        out@ == log_writes(*cfg, old(log)@ as int, key@, value),
        final(log)@ == old(log)@ + 12,
{
    let scale = 1u32;
    let line = log_line(key, value);
    proof {
        lemma_log_text_len(key@, value);
    }
    let width_px = 27 * 8 * scale;
    let x = if cfg.width > width_px + 8 {
        cfg.width - (width_px + 8)
    } else {
        0
    };
    let y = log.log_y;
    let out = draw_str(cfg, line.as_slice(), x, y, scale);
    log.log_y += 8 * scale + 4;
    out
}

/// Logs the framebuffer geometry the firmware returned: width, height,
/// pitch, size, depth and buffer address.
pub fn debug_dump(log: &mut DebugLog, cfg: &FrameConfig) -> (out: Vec<FramebufferWrite>)
    requires
        dump_fits(*cfg, old(log)@ as int),
    ensures
        out@ == dump_writes(*cfg, old(log)@ as int),
        final(log)@ == old(log)@ + 72,
{
    let key_w: [u8; 1] = [87];  // "W"
    let key_h: [u8; 1] = [72];  // "H"
    let key_p: [u8; 1] = [80];  // "P"
    let key_s: [u8; 1] = [83];  // "S"
    let key_depth: [u8; 5] = [68, 69, 80, 84, 72];  // "DEPTH"
    let key_fb: [u8; 2] = [70, 66];  // "FB"
    assert(key_w@ =~= seq![87u8]);
    assert(key_h@ =~= seq![72u8]);
    assert(key_p@ =~= seq![80u8]);
    assert(key_s@ =~= seq![83u8]);
    assert(key_depth@ =~= seq![68u8, 69, 80, 84, 72]);
    assert(key_fb@ =~= seq![70u8, 66]);
    let mut out = log_u32(log, cfg, &key_w, cfg.width);
    let mut more = log_u32(log, cfg, &key_h, cfg.height);
    out.append(&mut more);
    let mut more = log_u32(log, cfg, &key_p, cfg.pitch);
    out.append(&mut more);
    let mut more = log_u32(log, cfg, &key_s, cfg.size as u32);
    out.append(&mut more);
    let mut more = log_u32(log, cfg, &key_depth, cfg.depth);
    out.append(&mut more);
    let mut more = log_u32(log, cfg, &key_fb, cfg.buffer as u32);
    out.append(&mut more);
    out
}

/// Whether all six lines of a geometry dump starting at row `y` fit.
pub open spec fn dump_fits(cfg: FrameConfig, y: int) -> bool {
    &&& log_fits(cfg, y, 1, cfg.width)
    &&& log_fits(cfg, y + 12, 1, cfg.height)
    &&& log_fits(cfg, y + 24, 1, cfg.pitch)
    &&& log_fits(cfg, y + 36, 1, cfg.size as u32)
    &&& log_fits(cfg, y + 48, 5, cfg.depth)
    &&& log_fits(cfg, y + 60, 2, cfg.buffer as u32)
}

/// The stores of a geometry dump starting at row `y`.
pub open spec fn dump_writes(cfg: FrameConfig, y: int) -> Seq<FramebufferWrite> {
    log_writes(cfg, y, seq![87u8], cfg.width) + log_writes(cfg, y + 12, seq![72u8], cfg.height)
        + log_writes(cfg, y + 24, seq![80u8], cfg.pitch) + log_writes(
        cfg,
        y + 36,
        seq![83u8],
        cfg.size as u32,
    ) + log_writes(cfg, y + 48, seq![68u8, 69, 80, 84, 72], cfg.depth) + log_writes(
        cfg,
        y + 60,
        seq![70u8, 66],
        cfg.buffer as u32,
    )
}

/// A debug line reads back as its key, a colon, the value in eight
/// hexadecimal digits, " OR " and, for a value other than 0, the value in
/// decimal.
pub proof fn lemma_log_text_reads_back(key: Seq<u8>, value: u32)
    ensures
        log_text(key, value).subrange(0, key.len() as int) == key,
        log_text(key, value)[key.len() as int] == (':' as u8),
        hex_value(log_text(key, value).subrange(key.len() + 1int, key.len() + 9int)) == value,
        log_text(key, value).subrange(key.len() + 9int, key.len() + 13int) == seq![
            (' ' as u8),
            ('O' as u8),
            ('R' as u8),
            (' ' as u8),
        ],
        value != 0 ==> dec_value(
            log_text(key, value).subrange(key.len() + 13int, log_text(key, value).len() as int),
        ) == value,
{
    let t = log_text(key, value);
    let k = key.len() as int;
    lemma_log_text_len(key, value);
    lemma_hex_digits_round_trip(value);
    lemma_dec_digits_round_trip(value as nat);
    assert(t.subrange(0, k) =~= key);
    assert(t.subrange(k + 1, k + 9) =~= hex_digits(value));
    assert(t.subrange(k + 9, k + 13) =~= seq![32u8, 79u8, 82u8, 32u8]);
    if value != 0 {
        let d = dec_digits(value as nat);
        assert(shown_digits(value) =~= d);
        assert(t.subrange(k + 13, t.len() as int) =~= d);
    }
}

/// A geometry dump draws six debug lines, 12 rows apart, in this order:
/// the width keyed "W", the height "H", the pitch "P", the size "S", the
/// depth "DEPTH" and the buffer address "FB".
pub proof fn lemma_dump_lines(cfg: FrameConfig, y: int)
    ensures
        dump_writes(cfg, y) == log_writes(cfg, y, seq![('W' as u8)], cfg.width) + log_writes(
            cfg,
            y + 12,
            seq![('H' as u8)],
            cfg.height,
        ) + log_writes(cfg, y + 24, seq![('P' as u8)], cfg.pitch) + log_writes(
            cfg,
            y + 36,
            seq![('S' as u8)],
            cfg.size as u32,
        ) + log_writes(
            cfg,
            y + 48,
            seq![('D' as u8), ('E' as u8), ('P' as u8), ('T' as u8), ('H' as u8)],
            cfg.depth,
        ) + log_writes(cfg, y + 60, seq![('F' as u8), ('B' as u8)], cfg.buffer as u32),
{
    assert(seq![('W' as u8)] =~= seq![87u8]);
    assert(seq![('H' as u8)] =~= seq![72u8]);
    assert(seq![('P' as u8)] =~= seq![80u8]);
    assert(seq![('S' as u8)] =~= seq![83u8]);
    assert(seq![('D' as u8), ('E' as u8), ('P' as u8), ('T' as u8), ('H' as u8)] =~= seq![
        68u8,
        69,
        80,
        84,
        72,
    ]);
    assert(seq![('F' as u8), ('B' as u8)] =~= seq![70u8, 66]);
}

/// The row of the debug log after `n` lines have been logged from a new
/// log: each call of `log_u32` moves it down by 12 (a geometry dump counts
/// six lines).
pub open spec fn log_y_after(n: nat) -> int
    decreases n,
{
    if n == 0 {
        8
    } else {
        log_y_after((n - 1) as nat) + 12
    }
}

/// The `n`-th line (from 0) of a new log is drawn at row `8 + 12 * n`.
pub proof fn lemma_log_y_after(n: nat)
    ensures
        log_y_after(n) == 8 + 12 * n,
    decreases n,
{
    if n > 0 {
        lemma_log_y_after((n - 1) as nat);
    }
}

/// A debug line drawn at row `y` only stores to pixels of the rows
/// `y..y + 8`.
pub proof fn lemma_log_line_on_rows(cfg: FrameConfig, y: int, key: Seq<u8>, value: u32)
    ensures
        on_rows(cfg, log_writes(cfg, y, key, value), y, y + 7),
{
    let text = log_text(key, value);
    lemma_str_on_rows(cfg, text, log_x(cfg), y, 1, text.len() as int);
}

/// Successive debug lines of a new log never overlap: line `i` is drawn at
/// row `8 + 12 * i` and only on rows up to 7 below it, all starting at the
/// same column, so it ends above the start of any later line `j`.
pub proof fn lemma_log_lines_never_overlap(
    cfg: FrameConfig,
    i: nat,
    j: nat,
    key_i: Seq<u8>,
    value_i: u32,
    key_j: Seq<u8>,
    value_j: u32,
)
    requires
        i < j,
    ensures
        on_rows(cfg, log_writes(cfg, log_y_after(i), key_i, value_i), 8 + 12 * i as int, 8 + 12 * i as int + 7),
        on_rows(cfg, log_writes(cfg, log_y_after(j), key_j, value_j), 8 + 12 * j as int, 8 + 12 * j as int + 7),
        8 + 12 * i + 7 < 8 + 12 * j,
{
    lemma_log_y_after(i);
    lemma_log_y_after(j);
    lemma_log_line_on_rows(cfg, log_y_after(i), key_i, value_i);
    lemma_log_line_on_rows(cfg, log_y_after(j), key_j, value_j);
}

/// Appends the decimal digits of `n`.
pub fn push_decimal(out: &mut Vec<u8>, n: u64)
    ensures
        final(out)@ == old(out)@ + dec_digits(n as nat),
    decreases n,
{
    let ghost start = out@;
    if n >= 10 {
        push_decimal(out, n / 10);
    }
    out.push(48 + (n % 10) as u8);
    proof {
        if n >= 10 {
            assert(dec_digits(n as nat) == dec_digits((n / 10) as nat).push((48 + n % 10) as u8));
        }
        assert(out@ =~= start + dec_digits(n as nat));
    }
}

/// A label followed by the decimal digits of `value`.
pub fn text_line(label: &[u8], value: u64) -> (line: Vec<u8>)
    ensures
        line@ == label@ + dec_digits(value as nat),
{
    let mut line: Vec<u8> = Vec::new();
    let mut i: usize = 0;
    while i < label.len()
        invariant
            i <= label@.len(),
            line@ == label@.subrange(0, i as int),
        decreases label@.len() - i,
    {
        line.push(label[i]);
        i += 1;
        assert(line@ =~= label@.subrange(0, i as int));
    }
    assert(label@.subrange(0, label@.len() as int) =~= label@);
    push_decimal(&mut line, value);
    line
}

/// Hexadecimal digits are written in ASCII, with upper-case letters for
/// ten to fifteen.
pub proof fn lemma_hex_char_ascii(n: int)
    requires
        0 <= n < 16,
    ensures
        n < 10 ==> hex_char(n) == ('0' as u8) + n,
        n >= 10 ==> hex_char(n) == ('A' as u8) + (n - 10),
        hex_char_value(hex_char(n)) == n,
{
}

} // verus!
