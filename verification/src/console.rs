//! Diagnostic console output, modelled as a byte sink.
//!
//! On the target machine each character goes out through a privileged
//! console call that takes a single byte: a character is truncated to the
//! low byte of its code point. Here the sink is an explicit buffer, so
//! that exactly the bytes handed to the device are stated. The unverified
//! shell drains the buffer to the real console.
use vstd::prelude::*;

verus! {

/// The byte the console device receives for `ch`: the low byte of its
/// code point.
pub open spec fn console_byte(ch: char) -> u8 {
    (ch as u32 % 256) as u8
}

/// Writes one character to the console sink, truncated to the low byte of
/// its code point.
pub fn putchar(out: &mut Vec<u8>, ch: char)
    ensures
        final(out)@ == old(out)@.push(console_byte(ch)),
{
    let w: u32 = ch as u32;
    let b: u8 = (w % 256) as u8;
    out.push(b);
}

/// Writes every character of `s` to the console sink, in order, each
/// truncated as [`putchar`] truncates.
pub fn puts(out: &mut Vec<u8>, s: &str)
    ensures
        final(out)@ == old(out)@ + s@.map_values(|c: char| console_byte(c)),
{
    let len = s.unicode_len();
    let mut i: usize = 0;
    while i < len
        invariant
            i <= len,
            len == s@.len(),
            out@ == old(out)@ + s@.subrange(0, i as int).map_values(|c: char| console_byte(c)),
        decreases len - i,
    {
        let ch = s.get_char(i);
        putchar(out, ch);
        i = i + 1;
        proof {
            assert(out@ =~= old(out)@ + s@.subrange(0, i as int).map_values(
                |c: char| console_byte(c),
            ));
        }
    }
    proof {
        assert(s@.subrange(0, len as int) =~= s@);
        assert(out@ =~= old(out)@ + s@.map_values(|c: char| console_byte(c)));
    }
}

} // verus!
