//! Small shared utilities: file-format detection from a path's extension and
//! human-readable file sizes.

use vstd::prelude::*;
use vstd::string::StringExecFns;
use vstd::string::StringSliceAdditionalSpecFns;
use vstd::arithmetic::div_mod::lemma_fundamental_div_mod;

verus! {

/// The image formats the compressor handles.
#[derive(Clone, Copy, PartialEq, Eq, Structural, Debug)]
pub enum ImageFormat {
    Jpeg,
    Png,
    Gif,
}

/// The highest index at which byte b occurs in s, or -1.
pub open spec fn last_index_of(s: Seq<u8>, b: u8) -> int
    decreases s.len(),
{
    if s.len() == 0 {
        -1
    } else if s[s.len() - 1] == b {
        s.len() - 1
    } else {
        last_index_of(s.drop_last(), b)
    }
}

/// ASCII lower-casing of one byte.
pub open spec fn lower(b: u8) -> u8 {
    if 65 <= b <= 90 {
        (b + 32) as u8
    } else {
        b
    }
}

/// The bytes after position dot, lower-cased, spell exactly lit.
pub open spec fn ext_matches(s: Seq<u8>, dot: int, lit: Seq<u8>) -> bool {
    &&& s.len() - dot - 1 == lit.len()
    &&& forall|k: int| 0 <= k < lit.len() ==> lower(s[dot + 1 + k]) == lit[k]
}

/// A path's bytes with trailing slashes and trailing lone-dot components
/// removed: path inspection ignores them, so what remains ends with the
/// last real component.
pub open spec fn trim_trailing(s: Seq<u8>) -> Seq<u8>
    decreases s.len(),
{
    if s.len() > 0 && s[s.len() - 1] == 47 {
        trim_trailing(s.drop_last())
    } else if s.len() > 0 && s[s.len() - 1] == 46 && (s.len() == 1 || s[s.len() - 2] == 47) {
        trim_trailing(s.drop_last())
    } else {
        s
    }
}

/// Detection on the trimmed bytes: the extension is what follows the last
/// dot of the final component (the part after the last slash), provided
/// that dot is not the component's first byte; it is matched
/// case-insensitively against jpg, jpeg, png and gif.
pub open spec fn detect_in(t: Seq<u8>) -> Option<ImageFormat> {
    let slash = last_index_of(t, 47);
    let dot = last_index_of(t, 46);
    if dot < slash + 2 {
        None
    } else if ext_matches(t, dot, seq![106u8, 112u8, 103u8])
        || ext_matches(t, dot, seq![106u8, 112u8, 101u8, 103u8]) {
        Some(ImageFormat::Jpeg)
    } else if ext_matches(t, dot, seq![112u8, 110u8, 103u8]) {
        Some(ImageFormat::Png)
    } else if ext_matches(t, dot, seq![103u8, 105u8, 102u8]) {
        Some(ImageFormat::Gif)
    } else {
        None
    }
}

/// Format detection on a path's bytes: the extension of the last non-empty
/// path component, trailing separators ignored.
pub open spec fn spec_detect_format(s: Seq<u8>) -> Option<ImageFormat> {
    detect_in(trim_trailing(s))
}

/// The highest occurrence of target below position end, found by a
/// backward scan.
fn rfind_before(bytes: &[u8], end: usize, target: u8) -> (r: Option<usize>)
    requires
        end <= bytes@.len(),
    ensures
        (match r {
            Some(i) => i < end && bytes@[i as int] == target
                && (forall|j: int| i < j < end ==> bytes@[j] != target),
            None => forall|j: int| 0 <= j < end ==> bytes@[j] != target,
        }),
{
    let mut i: usize = end;
    while i > 0
        invariant
            i <= end <= bytes@.len(),
            forall|j: int| i <= j < end ==> bytes@[j] != target,
        decreases i,
    {
        i = i - 1;
        if bytes[i] == target {
            return Some(i);
        }
    }
    None
}

/// A backward scan's answer is exactly `last_index_of`.
proof fn lemma_last_index_of_char(s: Seq<u8>, b: u8, i: int)
    requires
        0 <= i < s.len(),
        s[i] == b,
        forall|j: int| i < j < s.len() ==> s[j] != b,
    ensures
        last_index_of(s, b) == i,
    decreases s.len(),
{
    if i == s.len() - 1 {
    } else {
        assert(s.drop_last() =~= s.subrange(0, s.len() - 1));
        lemma_last_index_of_char(s.drop_last(), b, i);
    }
}

/// When a byte occurs nowhere, `last_index_of` is -1.
proof fn lemma_last_index_of_none(s: Seq<u8>, b: u8)
    requires
        forall|j: int| 0 <= j < s.len() ==> s[j] != b,
    ensures
        last_index_of(s, b) == -1,
    decreases s.len(),
{
    if s.len() > 0 {
        assert(s.drop_last() =~= s.subrange(0, s.len() - 1));
        lemma_last_index_of_none(s.drop_last(), b);
    }
}

/// ASCII lower-casing of one byte.
fn lower_byte(b: u8) -> (r: u8)
    ensures
        r == lower(b),
{
    if 65 <= b && b <= 90 {
        b + 32
    } else {
        b
    }
}

/// Detects an image format from the path's extension (case-insensitive
/// jpg / jpeg / png / gif, trailing separators ignored), `None` for
/// anything else.
pub fn detect_format(path: &str) -> (r: Option<ImageFormat>)
    ensures
        r == spec_detect_format(path.spec_bytes()),
{
    let bytes = path.as_bytes();
    let ghost s = path.spec_bytes();
    let mut e: usize = bytes.len();
    proof {
        assert(s.subrange(0, s.len() as int) =~= s);
    }
    let mut trimming = true;
    while trimming
        invariant
            bytes@ == s,
            e <= s.len(),
            trim_trailing(s) == trim_trailing(s.subrange(0, e as int)),
            !trimming ==> trim_trailing(s.subrange(0, e as int)) == s.subrange(0, e as int),
        decreases e + (if trimming { 1int } else { 0int }),
    {
        if e > 0 && bytes[e - 1] == 47 {
            proof {
                assert(s.subrange(0, e as int).drop_last() =~= s.subrange(0, e - 1 as int));
            }
            e = e - 1;
        } else if e > 0 && bytes[e - 1] == 46 && (e == 1 || bytes[e - 2] == 47) {
            proof {
                assert(s.subrange(0, e as int).drop_last() =~= s.subrange(0, e - 1 as int));
            }
            e = e - 1;
        } else {
            trimming = false;
        }
    }
    let ghost t = s.subrange(0, e as int);
    let slash = rfind_before(bytes, e, 47);
    let dot = rfind_before(bytes, e, 46);
    proof {
        match slash {
            Some(i) => lemma_last_index_of_char(t, 47, i as int),
            None => lemma_last_index_of_none(t, 47),
        }
        match dot {
            Some(i) => lemma_last_index_of_char(t, 46, i as int),
            None => lemma_last_index_of_none(t, 46),
        }
    }
    let d: usize = match dot {
        Some(d) => d,
        None => {
            return None;
        }
    };
    let far_enough = match slash {
        Some(sl) => d > sl && d - sl >= 2,
        None => d >= 1,
    };
    if !far_enough {
        return None;
    }
    let elen = e - 1 - d;
    if elen == 3 {
        let c0 = lower_byte(bytes[d + 1]);
        let c1 = lower_byte(bytes[d + 2]);
        let c2 = lower_byte(bytes[d + 3]);
        if c0 == 106 && c1 == 112 && c2 == 103 {
            return Some(ImageFormat::Jpeg);
        }
        if c0 == 112 && c1 == 110 && c2 == 103 {
            return Some(ImageFormat::Png);
        }
        if c0 == 103 && c1 == 105 && c2 == 102 {
            return Some(ImageFormat::Gif);
        }
        proof {
            assert(!ext_matches(t, d as int, seq![106u8, 112u8, 103u8]));
            assert(!ext_matches(t, d as int, seq![106u8, 112u8, 101u8, 103u8]));
            assert(!ext_matches(t, d as int, seq![112u8, 110u8, 103u8]));
            assert(!ext_matches(t, d as int, seq![103u8, 105u8, 102u8]));
        }
        return None;
    }
    if elen == 4 {
        let c0 = lower_byte(bytes[d + 1]);
        let c1 = lower_byte(bytes[d + 2]);
        let c2 = lower_byte(bytes[d + 3]);
        let c3 = lower_byte(bytes[d + 4]);
        if c0 == 106 && c1 == 112 && c2 == 101 && c3 == 103 {
            return Some(ImageFormat::Jpeg);
        }
        proof {
            assert(!ext_matches(t, d as int, seq![106u8, 112u8, 103u8]));
            assert(!ext_matches(t, d as int, seq![106u8, 112u8, 101u8, 103u8]));
            assert(!ext_matches(t, d as int, seq![112u8, 110u8, 103u8]));
            assert(!ext_matches(t, d as int, seq![103u8, 105u8, 102u8]));
        }
        return None;
    }
    proof {
        assert(!ext_matches(t, d as int, seq![106u8, 112u8, 103u8]));
        assert(!ext_matches(t, d as int, seq![106u8, 112u8, 101u8, 103u8]));
        assert(!ext_matches(t, d as int, seq![112u8, 110u8, 103u8]));
        assert(!ext_matches(t, d as int, seq![103u8, 105u8, 102u8]));
    }
    None
}

/// The decimal digits of n, most significant first.
pub open spec fn dec_digits(n: nat) -> Seq<char>
    decreases n,
{
    if n < 10 {
        seq![digit_char(n)]
    } else {
        dec_digits(n / 10).push(digit_char(n % 10))
    }
}

/// The character for one decimal digit.
pub open spec fn digit_char(d: nat) -> char {
    ((d + 48) as u8) as char
}

/// num / den rounded to the nearest integer, ties to the even neighbor —
/// the rounding a one-decimal float display performs.
pub open spec fn round_half_even(num: int, den: int) -> int {
    let q = num / den;
    let r = num % den;
    if 2 * r > den {
        q + 1
    } else if 2 * r == den {
        if q % 2 == 0 {
            q
        } else {
            q + 1
        }
    } else {
        q
    }
}

/// A tenths count rendered with one decimal place.
pub open spec fn tenths_chars(t: int) -> Seq<char> {
    dec_digits((t / 10) as nat) + seq!['.'] + seq![digit_char((t % 10) as nat)]
}

/// The human-readable size: bytes below 1 KiB, otherwise KiB or MiB with
/// one decimal place, rounded ties-to-even.
pub open spec fn spec_format_file_size(bytes: nat) -> Seq<char> {
    if bytes < 1024 {
        dec_digits(bytes) + seq![' ', 'B']
    } else if bytes < 1048576 {
        tenths_chars(round_half_even(bytes as int * 10, 1024)) + seq![' ', 'K', 'B']
    } else {
        tenths_chars(round_half_even(bytes as int * 10, 1048576)) + seq![' ', 'M', 'B']
    }
}

/// Appends one decimal digit.
fn push_digit(s: &mut String, d: u8)
    requires
        d < 10,
    ensures
        final(s)@ == old(s)@ + seq![digit_char(d as nat)],
{
    match d {
        0 => {
            s.append("0");
            proof { reveal_strlit("0"); }
        }
        1 => {
            s.append("1");
            proof { reveal_strlit("1"); }
        }
        2 => {
            s.append("2");
            proof { reveal_strlit("2"); }
        }
        3 => {
            s.append("3");
            proof { reveal_strlit("3"); }
        }
        4 => {
            s.append("4");
            proof { reveal_strlit("4"); }
        }
        5 => {
            s.append("5");
            proof { reveal_strlit("5"); }
        }
        6 => {
            s.append("6");
            proof { reveal_strlit("6"); }
        }
        7 => {
            s.append("7");
            proof { reveal_strlit("7"); }
        }
        8 => {
            s.append("8");
            proof { reveal_strlit("8"); }
        }
        _ => {
            s.append("9");
            proof { reveal_strlit("9"); }
        }
    }
    proof {
        assert(final(s)@ =~= old(s)@ + seq![digit_char(d as nat)]);
    }
}

/// Appends n's decimal digits.
fn push_decimal(s: &mut String, n: u64)
    ensures
        final(s)@ == old(s)@ + dec_digits(n as nat),
    decreases n,
{
    if n >= 10 {
        push_decimal(s, n / 10);
        push_digit(s, (n % 10) as u8);
        proof {
            assert(final(s)@ =~= old(s)@ + dec_digits(n as nat));
        }
    } else {
        push_digit(s, n as u8);
    }
}

/// num / den rounded to the nearest integer, ties to even (den at least
/// 1024, so the result always fits).
fn rounded_tenths(num_bytes: u64, den: u64) -> (t: u64)
    requires
        den >= 1024,
    ensures
        t == round_half_even(num_bytes as int * 10, den as int),
{
    let num: u128 = (num_bytes as u128) * 10;
    let q = num / (den as u128);
    let r = num % (den as u128);
    proof {
        lemma_fundamental_div_mod(num as int, den as int);
        assert(102 * (q as int) <= num_bytes as int) by (nonlinear_arith)
            requires den as int >= 1024
                && num as int == den as int * (q as int) + r as int
                && 0 <= r as int && (r as int) < den as int
                && num as int == num_bytes as int * 10
                && 0 <= q as int;
    }
    if 2 * r > (den as u128) {
        (q as u64) + 1
    } else if 2 * r == (den as u128) {
        if q % 2 == 0 {
            q as u64
        } else {
            (q as u64) + 1
        }
    } else {
        q as u64
    }
}

/// Renders a byte count as B, KB or MB with one decimal place.
pub fn format_file_size(bytes: u64) -> (r: String)
    ensures
        r@ == spec_format_file_size(bytes as nat),
{
    let mut s = String::new();
    if bytes < 1024 {
        push_decimal(&mut s, bytes);
        s.append(" B");
        proof {
            reveal_strlit(" B");
            assert(s@ =~= spec_format_file_size(bytes as nat));
        }
    } else if bytes < 1048576 {
        let t = rounded_tenths(bytes, 1024);
        push_decimal(&mut s, t / 10);
        s.append(".");
        push_digit(&mut s, (t % 10) as u8);
        s.append(" KB");
        proof {
            reveal_strlit(".");
            reveal_strlit(" KB");
            assert(s@ =~= spec_format_file_size(bytes as nat));
        }
    } else {
        let t = rounded_tenths(bytes, 1048576);
        push_decimal(&mut s, t / 10);
        s.append(".");
        push_digit(&mut s, (t % 10) as u8);
        s.append(" MB");
        proof {
            reveal_strlit(".");
            reveal_strlit(" MB");
            assert(s@ =~= spec_format_file_size(bytes as nat));
        }
    }
    s
}

} // verus!
