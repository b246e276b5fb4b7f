//! The hexadecimal literal parser: an optional sign and `0x` prefix, a
//! sixteen-bit hex integer part, and an optional fraction of up to three
//! digits that is padded to exactly four before it fills the low word.

use vstd::prelude::*;

use crate::fix16::Fix16;
use crate::div::wneg32;

verus! {

/// The ways a hex literal can be refused, named after the failures the
/// native sixteen-bit radix parser distinguishes.
pub enum HexFailure {
    EmptyInput,
    InvalidDigit,
    TooLarge,
}

/// The message each failure carries.
pub open spec fn failure_text(k: HexFailure) -> Seq<char> {
    match k {
        HexFailure::EmptyInput => "cannot parse integer from empty string"@,
        HexFailure::InvalidDigit => "invalid digit found in string"@,
        HexFailure::TooLarge => "number too large to fit in target type"@,
    }
}

/// Whether the character is a decimal digit.
pub open spec fn is_dec_digit(c: char) -> bool {
    0x30 <= c as int <= 0x39
}

/// Whether the character is a hexadecimal digit, either case.
pub open spec fn is_hex_digit(c: char) -> bool {
    is_dec_digit(c) || 0x61 <= c as int <= 0x66 || 0x41 <= c as int <= 0x46
}

/// The value of a hexadecimal digit.
pub open spec fn hex_digit_val(c: char) -> int {
    if is_dec_digit(c) {
        c as int - 0x30
    } else if c as int >= 0x61 {
        c as int - 0x61 + 10
    } else {
        c as int - 0x41 + 10
    }
}

/// The left-to-right scan of the native radix parser: the first character
/// that is no hex digit is refused, a value that escapes sixteen bits is
/// refused as too large, and otherwise each digit enters the accumulator.
pub open spec fn scan_hex16(ds: Seq<char>, acc: int) -> Result<int, HexFailure>
    decreases ds.len(),
{
    if ds.len() <= 0 {
        Ok(acc)
    } else if !is_hex_digit(ds[0]) {
        Err(HexFailure::InvalidDigit)
    } else if acc * 16 + hex_digit_val(ds[0]) > 0xFFFF {
        Err(HexFailure::TooLarge)
    } else {
        scan_hex16(ds.subrange(1, ds.len() as int), acc * 16 + hex_digit_val(ds[0]))
    }
}

/// What the native sixteen-bit radix parser makes of a segment: an empty
/// segment is refused, a lone sign is an invalid digit, a leading `+` is
/// consumed, and a leading `-` falls through to be refused as a digit.
pub open spec fn parse_hex16(ds: Seq<char>) -> Result<int, HexFailure> {
    if ds.len() == 0 {
        Err(HexFailure::EmptyInput)
    } else if (ds[0] == '+' || ds[0] == '-') && ds.len() == 1 {
        Err(HexFailure::InvalidDigit)
    } else if ds[0] == '+' {
        scan_hex16(ds.subrange(1, ds.len() as int), 0)
    } else {
        scan_hex16(ds, 0)
    }
}

/// The position of the first dot at or after `i`.
pub open spec fn first_dot_from(cs: Seq<char>, i: int) -> Option<int>
    decreases cs.len() - i,
{
    if i < 0 || i >= cs.len() {
        None
    } else if cs[i] == '.' {
        Some(i)
    } else {
        first_dot_from(cs, i + 1)
    }
}

/// A short fraction normalized to exactly four hex digits: one digit gains
/// a zero on the left and two on the right, two digits gain two zeros on
/// the right, zero or three digits gain one zero on the right.
pub open spec fn padded(post: Seq<char>) -> Seq<char> {
    if post.len() == 1 {
        seq!['0'].add(post).add(seq!['0', '0'])
    } else if post.len() == 2 {
        post.add(seq!['0', '0'])
    } else {
        post.add(seq!['0'])
    }
}

/// What the whole hex literal parser yields on a character sequence: after
/// the optional `-` and `0x`/`0X` prefix, the part before the first dot
/// fills the high word and the normalized part after it fills the low word;
/// the first refused segment's failure is passed on, the integer part's
/// first.  An empty input is refused rather than read out of bounds.
pub open spec fn hex_parse(cs: Seq<char>) -> Result<i32, HexFailure> {
    if cs.len() == 0 {
        Err(HexFailure::EmptyInput)
    } else {
        let negative = cs[0] == '-';
        let off1: int = if negative {
            1
        } else {
            0
        };
        let off2: int = if cs.len() > off1 && cs[off1] == '0' && cs.len() > off1 + 1 && (cs[off1
            + 1] == 'x' || cs[off1 + 1] == 'X') {
            2
        } else {
            0
        };
        let start = off1 + off2;
        let assembled = match first_dot_from(cs, 0) {
            Some(d) => {
                let pre = cs.subrange(start, d);
                let post0 = cs.subrange(d + 1, cs.len() as int);
                let post = if post0.len() < 4 {
                    padded(post0)
                } else {
                    post0
                };
                match parse_hex16(pre) {
                    Err(k) => Err(k),
                    Ok(hi) => match parse_hex16(post) {
                        Err(k) => Err(k),
                        Ok(lo) => Ok(hi * 0x1_0000 + lo),
                    },
                }
            },
            None => {
                match parse_hex16(cs.subrange(start, cs.len() as int)) {
                    Err(k) => Err(k),
                    Ok(hi) => Ok(hi * 0x1_0000),
                }
            },
        };
        match assembled {
            Err(k) => Err(k),
            Ok(v) => {
                let raw = (v as u32) as i32;
                Ok(
                    if negative {
                        wneg32(raw)
                    } else {
                        raw
                    },
                )
            },
        }
    }
}

/// The characters of the string, gathered into a vector.
fn collect_chars(s: &str) -> (v: Vec<char>)
    ensures
        v@ == s@,
{
    let n = s.unicode_len();
    let mut v: Vec<char> = Vec::new();
    let mut i: usize = 0;
    while i < n
        invariant
            i <= n,
            n == s@.len(),
            v@ == s@.subrange(0, i as int),
        decreases n - i,
    {
        let c = s.get_char(i);
        v.push(c);
        proof {
            assert(v@ =~= s@.subrange(0, i + 1));
        }
        i = i + 1;
    }
    proof {
        assert(s@.subrange(0, s@.len() as int) =~= s@);
    }
    v
}

/// The message each failure carries, as an owned string.
fn failure_message(k: HexFailure) -> (m: String)
    ensures
        m@ == failure_text(k),
{
    match k {
        HexFailure::EmptyInput => String::from_str("cannot parse integer from empty string"),
        HexFailure::InvalidDigit => String::from_str("invalid digit found in string"),
        HexFailure::TooLarge => String::from_str("number too large to fit in target type"),
    }
}

/// The digit's value when the character is a hex digit, nothing otherwise.
fn hex_digit_of(c: char) -> (r: Option<u32>)
    ensures
        r matches Some(d) ==> is_hex_digit(c) && d as int == hex_digit_val(c) && d < 16,
        r is None ==> !is_hex_digit(c),
{
    let cu = c as u32;
    if cu >= 0x30 && cu <= 0x39 {
        Some(cu - 0x30)
    } else if cu >= 0x61 && cu <= 0x66 {
        Some(cu - 0x61 + 10)
    } else if cu >= 0x41 && cu <= 0x46 {
        Some(cu - 0x41 + 10)
    } else {
        None
    }
}

/// The native radix scan over the characters `[start, end)` of the vector.
fn parse_hex16_range(cs: &Vec<char>, start: usize, end: usize) -> (r: Result<u32, HexFailure>)
    requires
        start <= end <= cs@.len(),
    ensures
        ({
            let spec_r = parse_hex16(cs@.subrange(start as int, end as int));
            match r {
                Ok(v) => spec_r == Ok::<int, HexFailure>(v as int) && v <= 0xFFFF,
                Err(k) => spec_r == Err::<int, HexFailure>(k),
            }
        }),
{
    let ghost whole = cs@.subrange(start as int, end as int);
    if end - start == 0 {
        return Err(HexFailure::EmptyInput);
    }
    let first = cs[start];
    let mut i = start;
    if first == '+' || first == '-' {
        if end - start == 1 {
            return Err(HexFailure::InvalidDigit);
        }
        if first == '+' {
            i = start + 1;
            proof {
                assert(whole.subrange(1, whole.len() as int) =~= cs@.subrange(
                    i as int,
                    end as int,
                ));
            }
        }
    }
    let mut acc: u32 = 0;
    assert(parse_hex16(whole) == scan_hex16(cs@.subrange(i as int, end as int), 0));
    while i < end
        invariant
            start <= i <= end <= cs@.len(),
            acc <= 0xFFFF,
            parse_hex16(cs@.subrange(start as int, end as int)) == scan_hex16(
                cs@.subrange(i as int, end as int),
                acc as int,
            ),
        decreases end - i,
    {
        let c = cs[i];
        assert(c == cs@.subrange(i as int, end as int)[0]);
        let d = match hex_digit_of(c) {
            Some(d) => d,
            None => {
                assert(scan_hex16(cs@.subrange(i as int, end as int), acc as int) == Err::<
                    int,
                    HexFailure,
                >(HexFailure::InvalidDigit));
                return Err(HexFailure::InvalidDigit);
            },
        };
        if acc * 16 + d > 0xFFFF {
            assert(scan_hex16(cs@.subrange(i as int, end as int), acc as int) == Err::<
                int,
                HexFailure,
            >(HexFailure::TooLarge));
            return Err(HexFailure::TooLarge);
        }
        proof {
            assert(cs@.subrange(i as int, end as int).subrange(
                1,
                cs@.subrange(i as int, end as int).len() as int,
            ) =~= cs@.subrange(i + 1, end as int));
        }
        acc = acc * 16 + d;
        i = i + 1;
    }
    Ok(acc)
}

impl Fix16 {
    /// Parses a hexadecimal literal: an optional `-`, an optional `0x` or
    /// `0X`, a sixteen-bit hex integer part, and optionally a dot with a
    /// fraction, which a short spelling is first normalized to exactly four
    /// digits.  A refused segment's failure is returned as its message.
    #[verifier::rlimit(60)]
    pub fn from_hex_str(s: &String) -> (r: Result<Fix16, String>)
        ensures
            ({
                match (hex_parse(s@), r) {
                    (Ok(v), Ok(f)) => f.0 == v,
                    (Err(k), Err(m)) => m@ == failure_text(k),
                    _ => false,
                }
            }),
    {
        let cs = collect_chars(s.as_str());
        if cs.len() == 0 {
            return Err(failure_message(HexFailure::EmptyInput));
        }
        let negative = cs[0] == '-';
        let off1: usize = if negative {
            1
        } else {
            0
        };
        let off2: usize = if cs.len() > off1 && cs[off1] == '0' && cs.len() > off1 + 1 && (cs[off1
            + 1] == 'x' || cs[off1 + 1] == 'X') {
            2
        } else {
            0
        };
        let start = off1 + off2;

        let dot = find_dot(&cs);

        let out_val: u32;
        match dot {
            Some(d) => {
                proof {
                    lemma_dot_after_prefix(cs@, d as int, start as int);
                }
                let hi = match parse_hex16_range(&cs, start, d) {
                    Ok(v) => v,
                    Err(k) => {
                        return Err(failure_message(k));
                    },
                };
                let mut post: Vec<char> = Vec::new();
                let mut j = d + 1;
                while j < cs.len()
                    invariant
                        d < j <= cs@.len(),
                        post@ == cs@.subrange(d + 1, j as int),
                    decreases cs@.len() - j,
                {
                    let c = cs[j];
                    post.push(c);
                    proof {
                        assert(post@ =~= cs@.subrange(d + 1, j + 1));
                    }
                    j = j + 1;
                }
                let ghost post0 = cs@.subrange(d + 1, cs@.len() as int);
                assert(post@ == post0);

                let padded_post = if post.len() < 4 {
                    let mut p: Vec<char> = Vec::new();
                    if post.len() == 1 {
                        p.push('0');
                        p.push(post[0]);
                        p.push('0');
                        p.push('0');
                    } else if post.len() == 2 {
                        p.push(post[0]);
                        p.push(post[1]);
                        p.push('0');
                        p.push('0');
                    } else if post.len() == 3 {
                        p.push(post[0]);
                        p.push(post[1]);
                        p.push(post[2]);
                        p.push('0');
                    } else {
                        p.push('0');
                    }
                    proof {
                        assert(p@ =~= padded(post0));
                    }
                    p
                } else {
                    post
                };
                proof {
                    assert(padded_post@.subrange(0, padded_post@.len() as int) =~= padded_post@);
                }
                let lo = match parse_hex16_range(&padded_post, 0, padded_post.len()) {
                    Ok(v) => v,
                    Err(k) => {
                        return Err(failure_message(k));
                    },
                };
                out_val = hi * 0x1_0000 + lo;
            },
            None => {
                let hi = match parse_hex16_range(&cs, start, cs.len()) {
                    Ok(v) => v,
                    Err(k) => {
                        return Err(failure_message(k));
                    },
                };
                out_val = hi * 0x1_0000;
            },
        }

        let raw = out_val as i32;
        if negative {
            Ok(Fix16(0i32.wrapping_sub(raw)))
        } else {
            Ok(Fix16(raw))
        }
    }
}

/// The position of the first dot of the vector, if any.
fn find_dot(cs: &Vec<char>) -> (o: Option<usize>)
    ensures
        ({
            match o {
                Some(d) => first_dot_from(cs@, 0) == Some(d as int) && d < cs@.len(),
                None => first_dot_from(cs@, 0) == None::<int>,
            }
        }),
{
    let mut i: usize = 0;
    while i < cs.len()
        invariant
            i <= cs@.len(),
            first_dot_from(cs@, 0) == first_dot_from(cs@, i as int),
        decreases cs@.len() - i,
    {
        if cs[i] == '.' {
            return Some(i);
        }
        i = i + 1;
    }
    None
}

/// The first dot can never stand inside the sign-and-prefix region, whose
/// characters are drawn from `-`, `0`, `x` and `X`.
proof fn lemma_dot_after_prefix(cs: Seq<char>, d: int, start: int)
    requires
        first_dot_from(cs, 0) == Some(d),
        cs.len() > 0,
        start == ({
            let off1: int = if cs[0] == '-' {
                1
            } else {
                0
            };
            let off2: int = if cs.len() > off1 && cs[off1] == '0' && cs.len() > off1 + 1 && (
            cs[off1 + 1] == 'x' || cs[off1 + 1] == 'X') {
                2
            } else {
                0
            };
            off1 + off2
        }),
    ensures
        start <= d < cs.len(),
{
    lemma_first_dot_found(cs, 0, d);
    if d < start {
        assert(cs[d] == '.');
    }
}

/// Whatever index the first-dot search returns holds a dot, lies in range,
/// and nothing before it is a dot.
proof fn lemma_first_dot_found(cs: Seq<char>, i: int, d: int)
    requires
        0 <= i,
        first_dot_from(cs, i) == Some(d),
    ensures
        i <= d < cs.len(),
        cs[d] == '.',
        forall|j: int| i <= j < d ==> cs[j] != '.',
    decreases cs.len() - i,
{
    if i >= cs.len() {
    } else if cs[i] == '.' {
    } else {
        lemma_first_dot_found(cs, i + 1, d);
    }
}

} // verus!
