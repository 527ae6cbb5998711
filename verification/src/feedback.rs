use vstd::prelude::*;
use crate::source::MIN_BLINK_INTERVAL_MS;

verus! {

/// Mackie Control Universal SysEx header.
pub open spec fn mcu_sysex_header() -> Seq<u8> {
    seq![0xF0u8, 0x00u8, 0x00u8, 0x66u8, 0x14u8]
}

pub const MCU_SCRIBBLE_STRIP_CMD: u8 = 0x12;
pub const MCU_LED_RING_CMD: u8 = 0x20;
pub const SYSEX_TERMINATOR: u8 = 0xF7;

/// Appends the MCU SysEx header to `data`.
fn push_header(data: &mut Vec<u8>)
    ensures
        final(data)@ == old(data)@ + mcu_sysex_header(),
{
    data.push(0xF0);
    data.push(0x00);
    data.push(0x00);
    data.push(0x66);
    data.push(0x14);
    proof {
        assert(data@ =~= old(data)@ + mcu_sysex_header());
    }
}

/// Whether a source result reads as "on": `true` or `1`.
pub open spec fn spec_is_true(text: Seq<char>) -> bool {
    text == seq!['t', 'r', 'u', 'e'] || text == seq!['1']
}

pub fn is_true(text: &str) -> (r: bool)
    ensures
        r == spec_is_true(text@),
{
    proof {
        reveal_strlit("true");
        reveal_strlit("1");
        assert("true"@ =~= seq!['t', 'r', 'u', 'e']);
        assert("1"@ =~= seq!['1']);
    }
    crate::text::str_eq(text, "true") || crate::text::str_eq(text, "1")
}

/// One scribble-strip line as sent: the first seven characters, each
/// non-ASCII character replaced by a space, padded with spaces to seven.
pub open spec fn scribble_line(s: Seq<char>) -> Seq<u8> {
    Seq::new(7, |i: int| if i < s.len() && (s[i] as u32) < 128 { s[i] as u8 } else { 0x20u8 })
}

/// Appends the scribble-strip bytes of `line` to `data`.
fn push_scribble_line(data: &mut Vec<u8>, line: &str)
    ensures
        final(data)@ == old(data)@ + scribble_line(line@),
{
    let n = line.unicode_len();
    let mut i: usize = 0;
    while i < 7
        invariant
            n == line@.len(),
            i <= 7,
            data@ == old(data)@ + scribble_line(line@).take(i as int),
        decreases 7 - i,
    {
        let b: u8 = if i < n {
            let c = line.get_char(i);
            if (c as u32) < 128 {
                c as u8
            } else {
                0x20
            }
        } else {
            0x20
        };
        data.push(b);
        i = i + 1;
        proof {
            assert(data@ =~= old(data)@ + scribble_line(line@).take(i as int));
        }
    }
    proof {
        assert(scribble_line(line@).take(7) =~= scribble_line(line@));
    }
}

/// Build an MCU scribble strip SysEx message: header, command, strip index
/// (low three bits), two padded 7-character lines, and the terminator.
pub fn build_scribble_sysex(line1: &str, line2: &str, strip: u8) -> (data: Vec<u8>)
    ensures
        data@ == mcu_sysex_header() + seq![MCU_SCRIBBLE_STRIP_CMD, strip & 0x07] + scribble_line(line1@)
            + scribble_line(line2@) + seq![SYSEX_TERMINATOR],
{
    let mut data: Vec<u8> = Vec::new();
    push_header(&mut data);
    data.push(MCU_SCRIBBLE_STRIP_CMD);
    data.push(strip & 0x07);
    push_scribble_line(&mut data, line1);
    push_scribble_line(&mut data, line2);
    data.push(SYSEX_TERMINATOR);
    proof {
        assert(data@ =~= mcu_sysex_header() + seq![MCU_SCRIBBLE_STRIP_CMD, strip & 0x07] + scribble_line(
            line1@,
        ) + scribble_line(line2@) + seq![SYSEX_TERMINATOR]);
    }
    data
}

/// Build an MCU LED ring SysEx message (Single mode): header, command, ring
/// index (low three bits), mode, ring value, and terminator.
pub fn build_led_ring_sysex(value: u8, ring: u8) -> (data: Vec<u8>)
    ensures
        data@ == mcu_sysex_header() + seq![MCU_LED_RING_CMD, ring & 0x07, 0x00u8, value, SYSEX_TERMINATOR],
{
    let mut data: Vec<u8> = Vec::new();
    push_header(&mut data);
    data.push(MCU_LED_RING_CMD);
    data.push(ring & 0x07);
    data.push(0x00);
    data.push(value);
    data.push(SYSEX_TERMINATOR);
    proof {
        assert(data@ =~= mcu_sysex_header() + seq![MCU_LED_RING_CMD, ring & 0x07, 0x00u8, value, SYSEX_TERMINATOR]);
    }
    data
}

/// The blink half-period actually used: the configured one, but at least
/// `MIN_BLINK_INTERVAL_MS`.
pub open spec fn effective_blink_interval(interval_ms: u64) -> int {
    if interval_ms < MIN_BLINK_INTERVAL_MS {
        MIN_BLINK_INTERVAL_MS as int
    } else {
        interval_ms as int
    }
}

/// Whether a `Blink` source shows its first source at the wall-clock time
/// `now_ms` (milliseconds since the epoch): it alternates between its two
/// sources every half-period, starting with the first.
pub fn blink_shows_first(now_ms: u64, interval_ms: u64) -> (r: bool)
    requires
        interval_ms <= u64::MAX / 2,
    ensures
        r == ((now_ms as int) % (2 * effective_blink_interval(interval_ms)) < effective_blink_interval(interval_ms)),
{
    let interval = if interval_ms < MIN_BLINK_INTERVAL_MS { MIN_BLINK_INTERVAL_MS } else { interval_ms };
    let phase = now_ms % (2 * interval);
    phase < interval
}

} // verus!
