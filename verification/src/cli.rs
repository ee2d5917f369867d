//! Terminal presentation, written into a caller-supplied byte sink: the
//! host layer flushes the sink to its output device.

use vstd::prelude::*;
use vstd::string::StringSliceAdditionalSpecFns;

verus! {

/// Appends `val` to the sink.
pub fn print_bytes(out: &mut Vec<u8>, val: &[u8])
    ensures
        final(out)@ == old(out)@ + val@,
{
    let mut i: usize = 0;
    proof {
        assert(old(out)@ + val@.take(0) =~= old(out)@);
    }
    while i < val.len()
        invariant
            i <= val@.len(),
            out@ == old(out)@ + val@.take(i as int),
        decreases val@.len() - i,
    {
        proof {
            assert(old(out)@ + val@.take(i + 1) =~= (old(out)@ + val@.take(i as int)).push(
                val@[i as int],
            ));
        }
        out.push(val[i]);
        i = i + 1;
    }
    proof {
        assert(old(out)@ + val@.take(val@.len() as int) =~= old(out)@ + val@);
    }
}

/// Appends `val` and a newline.
pub fn print(out: &mut Vec<u8>, val: &str)
    ensures
        final(out)@ == old(out)@ + val.spec_bytes() + seq![10u8],
{
    print_bytes(out, val.as_bytes());
    out.push(10);
    proof {
        assert((old(out)@ + val.spec_bytes()).push(10u8) =~= old(out)@ + val.spec_bytes() + seq![
            10u8,
        ]);
    }
}

/// Appends `val` without a newline.
pub fn print_no_ln(out: &mut Vec<u8>, val: &str)
    ensures
        final(out)@ == old(out)@ + val.spec_bytes(),
{
    print_bytes(out, val.as_bytes());
}

/// The digit pair of `spec_byte_to_hex`.
pub open spec fn spec_hex_digit(v: u8) -> u8 {
    if v < 10 {
        (48 + v) as u8
    } else {
        (55 + v) as u8
    }
}

/// A byte shown as two upper-case hex digits and a trailing space.
pub open spec fn spec_byte_to_hex(byte: u8) -> Seq<u8> {
    seq![spec_hex_digit(byte / 16), spec_hex_digit(byte % 16), 32u8]
}

/// Renders a byte as two upper-case hex digits and a trailing space.
pub fn byte_to_hex(byte: u8) -> (r: [u8; 3])
    ensures
        r@ == spec_byte_to_hex(byte),
{
    let hi = byte / 16;
    let lo = byte % 16;
    let d0 = if hi < 10 {
        48 + hi
    } else {
        55 + hi
    };
    let d1 = if lo < 10 {
        48 + lo
    } else {
        55 + lo
    };
    let r: [u8; 3] = [d0, d1, 32];
    proof {
        assert(r@ =~= spec_byte_to_hex(byte));
    }
    r
}

/// Appends one byte in hex.
pub fn print_hex(out: &mut Vec<u8>, byte: u8)
    ensures
        final(out)@ == old(out)@ + spec_byte_to_hex(byte),
{
    let buf = byte_to_hex(byte);
    print_bytes(out, buf.as_slice());
}

/// The hex rendering of a whole byte sequence.
pub open spec fn spec_hex_bytes(bs: Seq<u8>) -> Seq<u8>
    decreases bs.len(),
{
    if bs.len() == 0 {
        Seq::empty()
    } else {
        spec_hex_bytes(bs.drop_last()) + spec_byte_to_hex(bs.last())
    }
}

/// Appends every byte of `bytes` in hex, then a newline.
pub fn print_bytes_hex(out: &mut Vec<u8>, bytes: &[u8])
    ensures
        final(out)@ == old(out)@ + spec_hex_bytes(bytes@) + seq![10u8],
{
    let mut i: usize = 0;
    proof {
        assert(old(out)@ + spec_hex_bytes(bytes@.take(0)) =~= old(out)@);
    }
    while i < bytes.len()
        invariant
            i <= bytes@.len(),
            out@ == old(out)@ + spec_hex_bytes(bytes@.take(i as int)),
        decreases bytes@.len() - i,
    {
        proof {
            assert(bytes@.take(i + 1).drop_last() =~= bytes@.take(i as int));
            assert(spec_hex_bytes(bytes@.take(i + 1)) == spec_hex_bytes(bytes@.take(i as int))
                + spec_byte_to_hex(bytes@[i as int]));
            assert(old(out)@ + spec_hex_bytes(bytes@.take(i + 1)) =~= (old(out)@ + spec_hex_bytes(
                bytes@.take(i as int),
            )) + spec_byte_to_hex(bytes@[i as int]));
        }
        print_hex(out, bytes[i]);
        i = i + 1;
    }
    proof {
        assert(bytes@.take(bytes@.len() as int) =~= bytes@);
    }
    out.push(10);
    proof {
        assert((old(out)@ + spec_hex_bytes(bytes@)).push(10u8) =~= old(out)@ + spec_hex_bytes(
            bytes@,
        ) + seq![10u8]);
    }
}

/// The escape sequence that homes the cursor and clears the screen,
/// scrollback and attributes.
pub open spec fn spec_clear_sequence() -> Seq<u8> {
    "\x1B[H\x1B[2J\x1B[3J\x1B[0m".spec_bytes()
}

/// Clears the terminal.
pub fn clear_cli(out: &mut Vec<u8>)
    ensures
        final(out)@ == old(out)@ + spec_clear_sequence(),
{
    print_no_ln(out, "\x1B[H\x1B[2J\x1B[3J\x1B[0m");
}

/// The banner text shown after every clear.
pub open spec fn spec_banner_text() -> Seq<u8> {
    r"
          __       _   _________                _      _
         / _| __ _| |_|___ /___ \            __| |_ __(_)_   _____ _ __
        | |_ / _` | __| |_ \ __) |  _____   / _` | '__| \ \ / / _ \ '__|
        |  _| (_| | |_ ___) / __/  |_____| | (_| | |  | |\ V /  __/ |
        |_|  \__,_|\__|____/_____|          \__,_|_|  |_| \_/ \___|_|
        ".spec_bytes()
}

/// Everything `print_ascii` appends.
pub open spec fn spec_banner_output() -> Seq<u8> {
    spec_banner_text() + seq![10u8] + "\n".spec_bytes() + seq![10u8]
}

/// Shows the banner.
pub fn print_ascii(out: &mut Vec<u8>)
    ensures
        final(out)@ == old(out)@ + spec_banner_output(),
{
    print(
        out,
        r"
          __       _   _________                _      _
         / _| __ _| |_|___ /___ \            __| |_ __(_)_   _____ _ __
        | |_ / _` | __| |_ \ __) |  _____   / _` | '__| \ \ / / _ \ '__|
        |  _| (_| | |_ ___) / __/  |_____| | (_| | |  | |\ V /  __/ |
        |_|  \__,_|\__|____/_____|          \__,_|_|  |_| \_/ \___|_|
        ",
    );
    print(out, "\n");
    proof {
        assert(old(out)@ + spec_banner_text() + seq![10u8] + "\n".spec_bytes() + seq![10u8]
            =~= old(out)@ + spec_banner_output());
    }
}

/// The separator line under a directory listing.
pub open spec fn spec_line_output() -> Seq<u8> {
    "_______________________________________________________________________________".spec_bytes()
        + seq![10u8]
}

/// Appends the separator line.
pub fn print_line(out: &mut Vec<u8>)
    ensures
        final(out)@ == old(out)@ + spec_line_output(),
{
    print(
        out,
        "_______________________________________________________________________________",
    );
}

/// `"|   "` repeated once per nesting level.
pub open spec fn spec_indent(n: int) -> Seq<u8>
    decreases n,
{
    if n <= 0 {
        Seq::empty()
    } else {
        spec_indent(n - 1) + seq![124u8, 32, 32, 32]
    }
}

/// The tree branch glyph before a listed entry.
pub open spec fn spec_branch_glyph(last: bool) -> Seq<u8> {
    if last {
        seq![0xE2u8, 0x94, 0x94, 0xE2, 0x94, 0x80, 32]
    } else {
        seq![0xE2u8, 0x94, 0x9C, 0xE2, 0x94, 0x80, 32]
    }
}

/// The folder or document glyph before a listed entry.
pub open spec fn spec_kind_glyph(is_dir: bool) -> Seq<u8> {
    if is_dir {
        seq![0xF0u8, 0x9F, 0x93, 0x81, 32]
    } else {
        seq![0xF0u8, 0x9F, 0x93, 0x84, 32]
    }
}

/// One line of a directory listing.
pub open spec fn spec_ls_line(entry: Seq<u8>, is_dir: bool, last: bool, indent: int) -> Seq<u8> {
    spec_indent(indent) + spec_branch_glyph(last) + spec_kind_glyph(is_dir) + entry + seq![10u8]
}

/// Appends one listing line: indentation, a branch glyph, a kind glyph,
/// the entry's name and a newline.
pub fn print_ls(out: &mut Vec<u8>, entry: &[u8], is_dir: bool, last: bool, indent_level: usize)
    ensures
        final(out)@ == old(out)@ + spec_ls_line(entry@, is_dir, last, indent_level as int),
{
    let mut lvl: usize = 0;
    proof {
        assert(old(out)@ + spec_indent(0) =~= old(out)@);
    }
    while lvl < indent_level
        invariant
            lvl <= indent_level,
            out@ == old(out)@ + spec_indent(lvl as int),
        decreases indent_level - lvl,
    {
        out.push(124);
        out.push(32);
        out.push(32);
        out.push(32);
        lvl = lvl + 1;
        proof {
            assert(out@ =~= old(out)@ + spec_indent(lvl as int));
        }
    }
    if last {
        out.push(0xE2);
        out.push(0x94);
        out.push(0x94);
        out.push(0xE2);
        out.push(0x94);
        out.push(0x80);
        out.push(32);
    } else {
        out.push(0xE2);
        out.push(0x94);
        out.push(0x9C);
        out.push(0xE2);
        out.push(0x94);
        out.push(0x80);
        out.push(32);
    }
    proof {
        assert(out@ =~= old(out)@ + spec_indent(indent_level as int) + spec_branch_glyph(last));
    }
    if is_dir {
        out.push(0xF0);
        out.push(0x9F);
        out.push(0x93);
        out.push(0x81);
        out.push(32);
    } else {
        out.push(0xF0);
        out.push(0x9F);
        out.push(0x93);
        out.push(0x84);
        out.push(32);
    }
    proof {
        assert(out@ =~= old(out)@ + spec_indent(indent_level as int) + spec_branch_glyph(last)
            + spec_kind_glyph(is_dir));
    }
    print_bytes(out, entry);
    out.push(10);
    proof {
        assert(out@ =~= old(out)@ + spec_ls_line(entry@, is_dir, last, indent_level as int));
    }
}

/// Everything `reset_cli` appends: a clear followed by the banner.
pub open spec fn spec_reset_output() -> Seq<u8> {
    spec_clear_sequence() + spec_banner_output()
}

/// Clears the terminal and shows the banner.
pub fn reset_cli(out: &mut Vec<u8>)
    ensures
        final(out)@ == old(out)@ + spec_reset_output(),
{
    clear_cli(out);
    print_ascii(out);
    proof {
        assert(old(out)@ + spec_clear_sequence() + spec_banner_output() =~= old(out)@
            + spec_reset_output());
    }
}

} // verus!
