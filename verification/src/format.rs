//! Human-readable rendering of sizes, speeds and durations.

use vstd::prelude::*;

use crate::text::{chars_of, decimal_of, digit_char, push_chars, push_decimal, string_from_chars};

verus! {

/// One kibibyte.
pub const KB: u64 = 1024;

/// One mebibyte.
pub const MB: u64 = 1048576;

/// One gibibyte.
pub const GB: u64 = 1073741824;

/// What humansize renders a byte count as, with binary units; the
/// rendering depends on the count alone.
pub uninterp spec fn binary_size_of(n: u64) -> Seq<char>;

/// Relies on humansize::format_size with the binary options: a
/// human-readable size such as `1.00 MiB`, a function of the count alone.
#[verifier::external_body]
pub(crate) fn format_size_binary(n: u64) -> (r: String)
    ensures
        r@ == binary_size_of(n),
{
    humansize::format_size(n, humansize::BINARY)
}

/// A count scaled by `unit` to one decimal place, rounding half up.
pub open spec fn scaled_text(bytes: u64, unit: u64) -> Seq<char> {
    let tenths: int = (bytes * 10 + unit / 2) / (unit as int);
    decimal_of((tenths / 10) as nat) + seq!['.'] + seq![digit_char(tenths % 10)]
}

/// The rendering of a byte count: whole bytes below a kibibyte, otherwise
/// one decimal place in the largest unit reached.
pub open spec fn format_bytes_spec(bytes: u64) -> Seq<char> {
    if bytes >= GB {
        scaled_text(bytes, GB) + " GB"@
    } else if bytes >= MB {
        scaled_text(bytes, MB) + " MB"@
    } else if bytes >= KB {
        scaled_text(bytes, KB) + " KB"@
    } else {
        decimal_of(bytes as nat) + " B"@
    }
}

/// Appends the one-decimal rendering of `bytes` in `unit`s.
fn push_scaled(bytes: u64, unit: u64, out: &mut Vec<char>)
    requires
        unit >= 1,
    ensures
        final(out)@ == old(out)@ + scaled_text(bytes, unit),
{
    let tenths: u128 = ((bytes as u128) * 10 + (unit / 2) as u128) / (unit as u128);
    let whole: u128 = tenths / 10;
    let frac: u128 = tenths % 10;
    proof {
        assert((bytes as u128) * 10 + ((unit / 2) as u128) <= u64::MAX as u128 * 10 + u64::MAX
            as u128) by (nonlinear_arith)
            requires
                bytes <= u64::MAX,
                unit / 2 <= u64::MAX,
        ;
        assert(tenths == (bytes * 10 + unit / 2) as int / unit as int);
        assert(whole <= tenths);
        assert(tenths / 10 <= tenths);
        vstd::arithmetic::div_mod::lemma_div_nonincreasing(tenths as int, 10);
        assert(whole * 10 + frac == tenths) by {
            vstd::arithmetic::div_mod::lemma_fundamental_div_mod(tenths as int, 10);
        }
        assert((bytes * 10 + unit / 2) as int / unit as int <= bytes * 10 + unit / 2) by {
            vstd::arithmetic::div_mod::lemma_div_nonincreasing(
                (bytes * 10 + unit / 2) as int,
                unit as int,
            );
        }
    }
    let whole64: u64 = if whole > u64::MAX as u128 {
        u64::MAX
    } else {
        whole as u64
    };
    proof {
        let x: int = bytes * 10 + unit / 2;
        let d: int = 10 * unit;
        vstd::arithmetic::div_mod::lemma_div_denominator(x, unit as int, 10);
        assert(unit as int * 10 == d);
        assert(whole == x / d);
        assert(x <= d * (bytes as int) + (d - 1)) by (nonlinear_arith)
            requires
                unit >= 1,
                x == bytes * 10 + unit / 2,
                d == 10 * unit,
                unit / 2 < unit,
        ;
        vstd::arithmetic::div_mod::lemma_div_is_ordered(x, d * (bytes as int) + (d - 1), d);
        vstd::arithmetic::div_mod::lemma_div_multiples_vanish_fancy(bytes as int, d - 1, d);
        assert((d * (bytes as int) + (d - 1)) / d == bytes);
        assert(whole <= bytes);
        assert(whole64 == whole);
    }
    push_decimal(whole64, out);
    out.push('.');
    let d: u64 = frac as u64;
    let ch: char = if d == 0 {
        '0'
    } else if d == 1 {
        '1'
    } else if d == 2 {
        '2'
    } else if d == 3 {
        '3'
    } else if d == 4 {
        '4'
    } else if d == 5 {
        '5'
    } else if d == 6 {
        '6'
    } else if d == 7 {
        '7'
    } else if d == 8 {
        '8'
    } else {
        '9'
    };
    proof {
        assert(frac < 10);
        assert(d == frac);
        assert(ch == digit_char(frac as int));
        assert(digit_char(tenths as int % 10) == ch);
    }
    out.push(ch);
    proof {
        assert(out@ =~= old(out)@ + scaled_text(bytes, unit));
    }
}

/// Formats a byte count as a short human-readable string.
pub fn format_bytes(bytes: u64) -> (r: String)
    ensures
        r@ == format_bytes_spec(bytes),
{
    let mut out: Vec<char> = Vec::new();
    if bytes >= GB {
        push_scaled(bytes, GB, &mut out);
        let suffix = chars_of(" GB");
        push_chars(&mut out, &suffix);
    } else if bytes >= MB {
        push_scaled(bytes, MB, &mut out);
        let suffix = chars_of(" MB");
        push_chars(&mut out, &suffix);
    } else if bytes >= KB {
        push_scaled(bytes, KB, &mut out);
        let suffix = chars_of(" KB");
        push_chars(&mut out, &suffix);
    } else {
        push_decimal(bytes, &mut out);
        let suffix = chars_of(" B");
        push_chars(&mut out, &suffix);
    }
    proof {
        assert(out@ =~= format_bytes_spec(bytes));
    }
    string_from_chars(&out)
}

/// A number under 100 as exactly two digits.
pub open spec fn two_digits(n: nat) -> Seq<char> {
    if n < 10 {
        seq!['0', digit_char(n as int)]
    } else {
        decimal_of(n)
    }
}

/// The rendering of a duration: `M:SS` under an hour, else `H:MM:SS`.
pub open spec fn format_eta_spec(seconds: u64) -> Seq<char> {
    if seconds >= 3600 {
        decimal_of((seconds / 3600) as nat) + seq![':'] + two_digits(
            ((seconds % 3600) / 60) as nat,
        ) + seq![':'] + two_digits((seconds % 60) as nat)
    } else {
        decimal_of((seconds / 60) as nat) + seq![':'] + two_digits((seconds % 60) as nat)
    }
}

/// Appends a number under 100 as exactly two digits.
fn push_two_digits(n: u64, out: &mut Vec<char>)
    requires
        n < 100,
    ensures
        final(out)@ == old(out)@ + two_digits(n as nat),
{
    if n < 10 {
        out.push('0');
    }
    push_decimal(n, out);
    proof {
        if n < 10 {
            assert(decimal_of(n as nat) == seq![digit_char(n as int)]);
            assert(out@ =~= old(out)@ + two_digits(n as nat));
        }
    }
}

/// Formats a number of seconds as `M:SS`, or `H:MM:SS` from an hour up.
pub fn format_eta(seconds: u64) -> (r: String)
    ensures
        r@ == format_eta_spec(seconds),
{
    let mut out: Vec<char> = Vec::new();
    if seconds >= 3600 {
        push_decimal(seconds / 3600, &mut out);
        out.push(':');
        push_two_digits((seconds % 3600) / 60, &mut out);
        out.push(':');
        push_two_digits(seconds % 60, &mut out);
    } else {
        push_decimal(seconds / 60, &mut out);
        out.push(':');
        push_two_digits(seconds % 60, &mut out);
    }
    proof {
        assert(out@ =~= format_eta_spec(seconds));
    }
    string_from_chars(&out)
}

/// The rendering of a speed: zero is `0 B/s`, anything else the
/// human-readable size per second.
pub open spec fn format_speed_spec(bps: u64) -> Seq<char> {
    if bps == 0 {
        "0 B/s"@
    } else {
        binary_size_of(bps) + "/s"@
    }
}

/// Formats a speed in bytes per second.
pub fn format_speed(bps: u64) -> (r: String)
    ensures
        r@ == format_speed_spec(bps),
{
    if bps == 0 {
        let z = chars_of("0 B/s");
        return string_from_chars(&z);
    }
    let size = format_size_binary(bps);
    let mut out = chars_of(size.as_str());
    let suffix = chars_of("/s");
    push_chars(&mut out, &suffix);
    string_from_chars(&out)
}

/// The rendering of a possibly shortened text: unchanged when it fits,
/// else its first `max - 1` characters and an ellipsis.
pub open spec fn truncate_spec(s: Seq<char>, max: nat) -> Seq<char> {
    if s.len() <= max {
        s
    } else {
        s.take(max as int - 1) + seq!['…']
    }
}

/// Shortens a text to at most `max` characters, ending a shortened text
/// with an ellipsis.
pub fn truncate(s: &str, max: usize) -> (r: String)
    requires
        max >= 1,
    ensures
        r@ == truncate_spec(s@, max as nat),
{
    let chars = chars_of(s);
    if chars.len() <= max {
        return s.to_owned();
    }
    let mut out = crate::text::sub_vec(&chars, 0, max - 1);
    out.push('…');
    proof {
        assert(out@ =~= truncate_spec(s@, max as nat));
    }
    string_from_chars(&out)
}

/// The base64 alphabet, in value order.
pub open spec fn b64_alphabet() -> Seq<char> {
    "ABCDEFGHIJKLMNOPQRSTUVWXYZabcdefghijklmnopqrstuvwxyz0123456789+/"@
}

/// The base64 text of a byte sequence: four characters per three bytes,
/// with `=` padding for a short final group.
pub open spec fn base64_spec(data: Seq<u8>) -> Seq<char>
    decreases data.len(),
{
    if data.len() == 0 {
        Seq::<char>::empty()
    } else {
        let b0 = data[0];
        let b1: u8 = if data.len() > 1 {
            data[1]
        } else {
            0
        };
        let b2: u8 = if data.len() > 2 {
            data[2]
        } else {
            0
        };
        let c0 = b64_alphabet()[(b0 >> 2) as int];
        let c1 = b64_alphabet()[(((b0 & 0x03) << 4) | (b1 >> 4)) as int];
        let c2 = if data.len() > 1 {
            b64_alphabet()[(((b1 & 0x0f) << 2) | (b2 >> 6)) as int]
        } else {
            '='
        };
        let c3 = if data.len() > 2 {
            b64_alphabet()[(b2 & 0x3f) as int]
        } else {
            '='
        };
        seq![c0, c1, c2, c3] + (if data.len() >= 3 {
            base64_spec(data.skip(3))
        } else {
            Seq::<char>::empty()
        })
    }
}

/// Encodes bytes as base64 with padding, as the escape sequence for a
/// terminal clipboard expects.
pub fn base64_encode(data: &[u8]) -> (r: String)
    ensures
        r@ == base64_spec(data@),
{
    let alphabet = chars_of("ABCDEFGHIJKLMNOPQRSTUVWXYZabcdefghijklmnopqrstuvwxyz0123456789+/");
    proof {
        reveal_strlit("ABCDEFGHIJKLMNOPQRSTUVWXYZabcdefghijklmnopqrstuvwxyz0123456789+/");
        assert(alphabet@.len() == 64);
    }
    let mut out: Vec<char> = Vec::new();
    let mut i: usize = 0;
    proof {
        assert(data@.skip(0) =~= data@);
    }
    while i < data.len()
        invariant
            alphabet@ == b64_alphabet(),
            alphabet@.len() == 64,
            i <= data@.len() + 2,
            base64_spec(data@) == out@ + (if i < data@.len() {
                base64_spec(data@.skip(i as int))
            } else {
                Seq::<char>::empty()
            }),
        decreases data@.len() + 3 - i,
    {
        let ghost rest = data@.skip(i as int);
        proof {
            assert(rest.len() == data@.len() - i);
            assert(rest[0] == data@[i as int]);
            if i + 1 < data@.len() {
                assert(rest[1] == data@[i as int + 1]);
            }
            if i + 2 < data@.len() {
                assert(rest[2] == data@[i as int + 2]);
            }
        }
        let n = data.len();
        let b0 = data[i];
        let b1: u8 = if n - i > 1 {
            data[i + 1]
        } else {
            0
        };
        let b2: u8 = if n - i > 2 {
            data[i + 2]
        } else {
            0
        };
        proof {
            assert(b0 >> 2 < 64 && ((b0 & 0x03) << 4 | (b1 >> 4)) < 64 && ((b1 & 0x0f) << 2 | (b2
                >> 6)) < 64 && (b2 & 0x3f) < 64) by (bit_vector);
        }
        let ghost out0 = out@;
        out.push(alphabet[(b0 >> 2) as usize]);
        out.push(alphabet[(((b0 & 0x03) << 4) | (b1 >> 4)) as usize]);
        if n - i > 1 {
            out.push(alphabet[(((b1 & 0x0f) << 2) | (b2 >> 6)) as usize]);
        } else {
            out.push('=');
        }
        if n - i > 2 {
            out.push(alphabet[(b2 & 0x3f) as usize]);
        } else {
            out.push('=');
        }
        proof {
            let c0 = b64_alphabet()[(b0 >> 2) as int];
            let c1 = b64_alphabet()[(((b0 & 0x03) << 4) | (b1 >> 4)) as int];
            let c2 = if rest.len() > 1 {
                b64_alphabet()[(((b1 & 0x0f) << 2) | (b2 >> 6)) as int]
            } else {
                '='
            };
            let c3 = if rest.len() > 2 {
                b64_alphabet()[(b2 & 0x3f) as int]
            } else {
                '='
            };
            assert(out@ =~= out0 + seq![c0, c1, c2, c3]);
            if rest.len() >= 3 {
                assert(rest.skip(3) =~= data@.skip(i as int + 3));
                assert(base64_spec(rest) == seq![c0, c1, c2, c3] + base64_spec(
                    data@.skip(i as int + 3),
                ));
            } else {
                assert(base64_spec(rest) == seq![c0, c1, c2, c3] + Seq::<char>::empty());
                assert(base64_spec(rest) =~= seq![c0, c1, c2, c3]);
            }
        }
        i = if n - i >= 3 {
            i + 3
        } else {
            n
        };
        proof {
            if i < data@.len() {
                assert(base64_spec(data@) =~= out@ + base64_spec(data@.skip(i as int)));
            } else {
                assert(base64_spec(data@) =~= out@);
            }
        }
    }
    string_from_chars(&out)
}

/// A run of spaces.
pub open spec fn spaces(n: nat) -> Seq<char>
    decreases n,
{
    if n == 0 {
        Seq::<char>::empty()
    } else {
        spaces((n - 1) as nat).push(' ')
    }
}

/// The rendering of a text in a fixed-width cell: padded with spaces to
/// the width when it fits, else its first `max - 1` characters and an
/// ellipsis.
pub open spec fn truncate_padded_spec(s: Seq<char>, max: nat) -> Seq<char> {
    if s.len() <= max {
        s + spaces((max - s.len()) as nat)
    } else {
        s.take(max as int - 1) + seq!['…']
    }
}

/// Fits a text into a cell of `max` characters: pads a short text with
/// spaces, and shortens a long one with a trailing ellipsis.
pub fn truncate_padded(s: &str, max: usize) -> (r: String)
    requires
        max >= 1,
    ensures
        r@ == truncate_padded_spec(s@, max as nat),
{
    let chars = chars_of(s);
    if chars.len() <= max {
        let mut out = chars;
        proof {
            assert(out@ =~= s@ + spaces(0));
        }
        while out.len() < max
            invariant
                s@.len() <= out@.len() <= max,
                out@ == s@ + spaces((out@.len() - s@.len()) as nat),
            decreases max - out@.len(),
        {
            let ghost k = (out@.len() - s@.len()) as nat;
            out.push(' ');
            proof {
                assert(spaces(k + 1) == spaces(k).push(' '));
                assert(out@ =~= s@ + spaces(k + 1));
            }
        }
        return string_from_chars(&out);
    }
    let mut out = crate::text::sub_vec(&chars, 0, max - 1);
    out.push('…');
    proof {
        assert(out@ =~= truncate_padded_spec(s@, max as nat));
    }
    string_from_chars(&out)
}

} // verus!
