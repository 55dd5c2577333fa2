//! Bytes as text in the base 64 alphabet.
use crate::text::from_chars;
use vstd::prelude::*;
use vstd::string::*;
use vstd::utf8::*;

verus! {

/// The letter of a value below 64.
pub open spec fn letter(v: int) -> u8 {
    if v < 26 {
        (v + 0x41) as u8
    } else if v < 52 {
        (v - 26 + 0x61) as u8
    } else if v < 62 {
        (v - 52 + 0x30) as u8
    } else if v == 62 {
        0x2b
    } else {
        0x2f
    }
}

/// The value of a letter; the padding sign counts as zero.
pub open spec fn value(c: u8) -> Option<int> {
    if 0x41 <= c <= 0x5a {
        Some(c - 0x41)
    } else if 0x61 <= c <= 0x7a {
        Some(c - 0x61 + 26)
    } else if 0x30 <= c <= 0x39 {
        Some(c - 0x30 + 52)
    } else if c == 0x2b {
        Some(62)
    } else if c == 0x2f {
        Some(63)
    } else if c == 0x3d {
        Some(0)
    } else {
        None
    }
}

/// The letters of data: four for each three bytes, the last padded.
pub open spec fn encoded(data: Seq<u8>) -> Seq<u8>
    decreases data.len(),
{
    if data.len() == 0 {
        Seq::empty()
    } else if data.len() == 1 {
        seq![letter(data[0] as int / 4), letter((data[0] as int % 4) * 16), 0x3du8, 0x3du8]
    } else if data.len() == 2 {
        seq![
            letter(data[0] as int / 4),
            letter((data[0] as int % 4) * 16 + data[1] as int / 16),
            letter((data[1] as int % 16) * 4),
            0x3du8,
        ]
    } else {
        seq![
            letter(data[0] as int / 4),
            letter((data[0] as int % 4) * 16 + data[1] as int / 16),
            letter((data[1] as int % 16) * 4 + data[2] as int / 64),
            letter(data[2] as int % 64),
        ] + encoded(data.skip(3))
    }
}

/// The first of four letters that is none.
pub open spec fn first_invalid(s: Seq<u8>) -> Option<u8> {
    if value(s[0]) is None {
        Some(s[0])
    } else if value(s[1]) is None {
        Some(s[1])
    } else if value(s[2]) is None {
        Some(s[2])
    } else if value(s[3]) is None {
        Some(s[3])
    } else {
        None
    }
}

/// The bytes of four letters, fewer where there is padding.
pub open spec fn group_bytes(s: Seq<u8>) -> Seq<u8> {
    let a = value(s[0])->0;
    let b = value(s[1])->0;
    let c = value(s[2])->0;
    let d = value(s[3])->0;
    seq![(a * 4 + b / 16) as u8] + (if s[2] != 0x3d {
        seq![((b % 16) * 16 + c / 4) as u8]
    } else {
        Seq::empty()
    }) + (if s[3] != 0x3d {
        seq![((c % 4) * 64 + d) as u8]
    } else {
        Seq::empty()
    })
}

/// The bytes of letters in groups of four, or the first sign that is no letter. Less than four
/// letters at the end are left out.
pub open spec fn decoded(s: Seq<u8>) -> Result<Seq<u8>, u8>
    decreases s.len(),
{
    if s.len() < 4 {
        Ok(Seq::empty())
    } else {
        match first_invalid(s) {
            Some(c) => Err(c),
            None => match decoded(s.skip(4)) {
                Ok(rest) => Ok(group_bytes(s) + rest),
                Err(c) => Err(c),
            },
        }
    }
}

/// Bytes as characters of the same number.
pub open spec fn chars_of(s: Seq<u8>) -> Seq<char> {
    s.map_values(|b: u8| b as char)
}

fn letter_of(v: u8) -> (c: char)
    requires
        v < 64,
    ensures
        c == letter(v as int) as char,
{
    if v < 26 {
        (v + 0x41) as char
    } else if v < 52 {
        (v - 26 + 0x61) as char
    } else if v < 62 {
        (v - 52 + 0x30) as char
    } else if v == 62 {
        '+'
    } else {
        '/'
    }
}

fn value_of(c: u8) -> (v: Option<u8>)
    ensures
        match v {
            Some(n) => value(c) == Some(n as int) && n < 64,
            None => value(c) is None,
        },
{
    if c >= 0x41 && c <= 0x5a {
        Some(c - 0x41)
    } else if c >= 0x61 && c <= 0x7a {
        Some(c - 0x61 + 26)
    } else if c >= 0x30 && c <= 0x39 {
        Some(c - 0x30 + 52)
    } else if c == 0x2b {
        Some(62)
    } else if c == 0x2f {
        Some(63)
    } else if c == 0x3d {
        Some(0)
    } else {
        None
    }
}

/// Writes data in base 64.
pub fn encode(data: &[u8]) -> (s: String)
    ensures
        s@ == chars_of(encoded(data@)),
{
    let mut out: Vec<char> = Vec::new();
    let mut i: usize = 0;
    assert(data@.skip(0) =~= data@);
    assert(out@ + chars_of(encoded(data@)) =~= chars_of(encoded(data@)));
    while i < data.len()
        invariant
            i <= data.len(),
            out@ + chars_of(encoded(data@.skip(i as int))) == chars_of(encoded(data@)),
        decreases data.len() - i,
    {
        let ghost rest = data@.skip(i as int);
        let ghost before = out@;
        let left: usize = data.len() - i;
        let b0: u8 = data[i];
        assert(rest[0] == b0);
        if left == 1 {
            out.push(letter_of(b0 / 4));
            out.push(letter_of((b0 % 4) * 16));
            out.push('=');
            out.push('=');
            i += 1;
            assert(data@.skip(i as int) =~= Seq::empty());
            assert(out@ + chars_of(encoded(data@.skip(i as int))) =~= before + chars_of(
                encoded(rest),
            ));
        } else if left == 2 {
            let b1: u8 = data[i + 1];
            assert(rest[1] == b1);
            out.push(letter_of(b0 / 4));
            out.push(letter_of((b0 % 4) * 16 + b1 / 16));
            out.push(letter_of((b1 % 16) * 4));
            out.push('=');
            i += 2;
            assert(data@.skip(i as int) =~= Seq::empty());
            assert(out@ + chars_of(encoded(data@.skip(i as int))) =~= before + chars_of(
                encoded(rest),
            ));
        } else {
            let b1: u8 = data[i + 1];
            let b2: u8 = data[i + 2];
            assert(rest[1] == b1 && rest[2] == b2);
            out.push(letter_of(b0 / 4));
            out.push(letter_of((b0 % 4) * 16 + b1 / 16));
            out.push(letter_of((b1 % 16) * 4 + b2 / 64));
            out.push(letter_of(b2 % 64));
            i += 3;
            assert(rest.skip(3) =~= data@.skip(i as int));
            assert(out@ + chars_of(encoded(data@.skip(i as int))) =~= before + chars_of(
                encoded(rest),
            ));
        }
    }
    assert(data@.skip(i as int) =~= Seq::empty());
    assert(out@ =~= chars_of(encoded(data@)));
    from_chars(&out)
}

/// Reads data in base 64. Fails at the first sign that is no letter.
pub fn decode(s: &str) -> (result: Result<Vec<u8>, String>)
    ensures
        match result {
            Ok(data) => decoded(s.spec_bytes()) == Ok::<Seq<u8>, u8>(data@),
            Err(message) => decoded(s.spec_bytes()) matches Err(c) && message@
                == "invalid base64 char: "@.push(c as char),
        },
{
    let bytes = s.as_bytes();
    let mut out: Vec<u8> = Vec::new();
    let mut i: usize = 0;
    assert(bytes@.skip(0) =~= bytes@);
    proof {
        assert(joined(out@, decoded(bytes@)) == decoded(bytes@)) by {
            if decoded(bytes@) is Ok {
                assert(Seq::<u8>::empty() + decoded(bytes@)->Ok_0 =~= decoded(bytes@)->Ok_0);
                assert(out@ =~= Seq::<u8>::empty());
            }
        }
    }
    while bytes.len() - i >= 4
        invariant
            i <= bytes.len(),
            bytes@ == s.spec_bytes(),
            joined(out@, decoded(bytes@.skip(i as int))) == decoded(bytes@),
        decreases bytes.len() - i,
    {
        let ghost rest = bytes@.skip(i as int);
        assert(rest[0] == bytes@[i as int] && rest[1] == bytes@[i + 1] && rest[2] == bytes@[i + 2]
            && rest[3] == bytes@[i + 3]);
        let a: u8 = match value_of(bytes[i]) {
            Some(v) => v,
            None => {
                return Err(invalid(bytes[i]));
            },
        };
        let b: u8 = match value_of(bytes[i + 1]) {
            Some(v) => v,
            None => {
                return Err(invalid(bytes[i + 1]));
            },
        };
        let c: u8 = match value_of(bytes[i + 2]) {
            Some(v) => v,
            None => {
                return Err(invalid(bytes[i + 2]));
            },
        };
        let d: u8 = match value_of(bytes[i + 3]) {
            Some(v) => v,
            None => {
                return Err(invalid(bytes[i + 3]));
            },
        };
        let ghost before = out@;
        out.push(a * 4 + b / 16);
        if bytes[i + 2] != 0x3d {
            out.push((b % 16) * 16 + c / 4);
        }
        if bytes[i + 3] != 0x3d {
            out.push((c % 4) * 64 + d);
        }
        proof {
            assert(out@ =~= before + group_bytes(rest));
            assert(rest.skip(4) =~= bytes@.skip(i + 4));
            match decoded(rest.skip(4)) {
                Ok(tail) => {
                    assert(before + (group_bytes(rest) + tail) =~= out@ + tail);
                },
                Err(_) => {},
            }
        }
        i += 4;
    }
    assert(out@ + Seq::<u8>::empty() =~= out@);
    Ok(out)
}

spec fn joined(front: Seq<u8>, rest: Result<Seq<u8>, u8>) -> Result<Seq<u8>, u8> {
    match rest {
        Ok(tail) => Ok(front + tail),
        Err(c) => Err(c),
    }
}

fn invalid(c: u8) -> (message: String)
    ensures
        message@ == "invalid base64 char: "@.push(c as char),
{
    let mut message = "invalid base64 char: ".to_string();
    message.push(c as char);
    message
}

proof fn lemma_letter(v: int)
    requires
        0 <= v < 64,
    ensures
        value(letter(v)) == Some(v),
        letter(v) < 128,
        letter(v) != 0x3d,
{
}

proof fn lemma_group_letters(b0: u8, b1: u8, b2: u8)
    ensures
        0 <= b0 as int / 4 < 64,
        0 <= (b0 as int % 4) * 16 + b1 as int / 16 < 64,
        0 <= (b0 as int % 4) * 16 < 64,
        0 <= (b1 as int % 16) * 4 + b2 as int / 64 < 64,
        0 <= (b1 as int % 16) * 4 < 64,
        0 <= b2 as int % 64 < 64,
{
}

proof fn lemma_group_of_three(b0: u8, b1: u8, b2: u8, s: Seq<u8>)
    requires
        s.len() >= 4,
        s[0] == letter(b0 as int / 4),
        s[1] == letter((b0 as int % 4) * 16 + b1 as int / 16),
        s[2] == letter((b1 as int % 16) * 4 + b2 as int / 64),
        s[3] == letter(b2 as int % 64),
    ensures
        first_invalid(s) is None,
        group_bytes(s) == seq![b0, b1, b2],
{
    lemma_group_letters(b0, b1, b2);
    lemma_letter(b0 as int / 4);
    lemma_letter((b0 as int % 4) * 16 + b1 as int / 16);
    lemma_letter((b1 as int % 16) * 4 + b2 as int / 64);
    lemma_letter(b2 as int % 64);
    assert(group_bytes(s) =~= seq![b0, b1, b2]);
}

proof fn lemma_last_group(data: Seq<u8>)
    requires
        1 <= data.len() <= 2,
    ensures
        first_invalid(encoded(data)) is None,
        group_bytes(encoded(data)) == data,
{
    let s = encoded(data);
    let b0 = data[0];
    if data.len() == 1 {
        lemma_group_letters(b0, 0, 0);
        lemma_letter(b0 as int / 4);
        lemma_letter((b0 as int % 4) * 16);
        assert(group_bytes(s) =~= data);
    } else {
        let b1 = data[1];
        lemma_group_letters(b0, b1, 0);
        lemma_letter(b0 as int / 4);
        lemma_letter((b0 as int % 4) * 16 + b1 as int / 16);
        lemma_letter((b1 as int % 16) * 4);
        assert(group_bytes(s) =~= data);
    }
}

proof fn lemma_letters_are_ascii(data: Seq<u8>)
    ensures
        forall|i: int| 0 <= i < encoded(data).len() ==> (#[trigger] encoded(data)[i]) < 128,
    decreases data.len(),
{
    let s = encoded(data);
    if data.len() >= 3 {
        let rest = encoded(data.skip(3));
        lemma_letters_are_ascii(data.skip(3));
        lemma_group_letters(data[0], data[1], data[2]);
        lemma_letter(data[0] as int / 4);
        lemma_letter((data[0] as int % 4) * 16 + data[1] as int / 16);
        lemma_letter((data[1] as int % 16) * 4 + data[2] as int / 64);
        lemma_letter(data[2] as int % 64);
        assert forall|i: int| 0 <= i < s.len() implies (#[trigger] s[i]) < 128 by {
            if i >= 4 {
                assert(s[i] == rest[i - 4]);
            }
        }
    } else if data.len() == 2 {
        lemma_group_letters(data[0], data[1], 0);
        lemma_letter(data[0] as int / 4);
        lemma_letter((data[0] as int % 4) * 16 + data[1] as int / 16);
        lemma_letter((data[1] as int % 16) * 4);
    } else if data.len() == 1 {
        lemma_group_letters(data[0], 0, 0);
        lemma_letter(data[0] as int / 4);
        lemma_letter((data[0] as int % 4) * 16);
    }
}

proof fn lemma_decoded_after_encoded(data: Seq<u8>)
    ensures
        decoded(encoded(data)) == Ok::<Seq<u8>, u8>(data),
    decreases data.len(),
{
    let s = encoded(data);
    if data.len() == 0 {
        assert(data =~= Seq::empty());
    } else if data.len() <= 2 {
        lemma_last_group(data);
        assert(s.skip(4) =~= Seq::empty());
        assert(decoded(Seq::<u8>::empty()) == Ok::<Seq<u8>, u8>(Seq::empty()));
        assert(data + Seq::<u8>::empty() =~= data);
        assert(s.len() == 4);
    } else {
        lemma_decoded_after_encoded(data.skip(3));
        assert(s.skip(4) =~= encoded(data.skip(3)));
        lemma_group_of_three(data[0], data[1], data[2], s);
        assert(seq![data[0], data[1], data[2]] + data.skip(3) =~= data);
    }
}

/// Reading what was written gives the data back, whatever the data.
pub proof fn law_base64_reads_back(data: Seq<u8>)
    ensures
        decoded(encode_utf8(chars_of(encoded(data)))) == Ok::<Seq<u8>, u8>(data),
{
    let s = encoded(data);
    let chars = chars_of(s);
    lemma_letters_are_ascii(data);
    assert forall|i: int| 0 <= i < chars.len() implies 0 <= (#[trigger] chars[i]) as u32 <= 127 by {
        assert(s[i] < 128);
    }
    assert(is_ascii_chars(chars));
    is_ascii_chars_encode_utf8(chars);
    assert(encode_utf8(chars) =~= s);
    lemma_decoded_after_encoded(data);
}

/// The letters are the capitals, the small letters, the digits, a plus sign and a slash, in this
/// order.
pub proof fn law_the_alphabet(v: int)
    requires
        0 <= v < 64,
    ensures
        0 <= v < 26 ==> letter(v) as int == 'A' as int + v,
        26 <= v < 52 ==> letter(v) as int == 'a' as int + v - 26,
        52 <= v < 62 ==> letter(v) as int == '0' as int + v - 52,
        v == 62 ==> letter(v) == 0x2b,
        v == 63 ==> letter(v) == 0x2f,
        value(letter(v)) == Some(v),
{
}

/// Three bytes make a number of 24 bits, which is written in four letters of six bits, the highest
/// first; what follows is written on its own. Where bytes are missing at the end, signs of equality
/// stand for the letters that are not needed.
pub proof fn law_groups_of_three(a: u8, b: u8, c: u8, rest: Seq<u8>)
    ensures
        ({
            let n = a * 0x1_0000 + b * 0x100 + c;
            let m = a * 0x1_0000 + b * 0x100;
            let k = a * 0x1_0000;
            &&& encoded(seq![a, b, c] + rest) == seq![
                letter(n / 0x4_0000),
                letter(n / 0x1000 % 64),
                letter(n / 64 % 64),
                letter(n % 64),
            ] + encoded(rest)
            &&& encoded(seq![a, b]) == seq![
                letter(m / 0x4_0000),
                letter(m / 0x1000 % 64),
                letter(m / 64 % 64),
                0x3du8,
            ]
            &&& encoded(seq![a]) == seq![
                letter(k / 0x4_0000),
                letter(k / 0x1000 % 64),
                0x3du8,
                0x3du8,
            ]
        }),
{
    let s = seq![a, b, c] + rest;
    assert(s.skip(3) =~= rest);
    assert(s[0] == a && s[1] == b && s[2] == c);
    lemma_six_bits(a as int, b as int, c as int);
    lemma_six_bits(a as int, b as int, 0);
    lemma_six_bits(a as int, 0, 0);
}

proof fn lemma_six_bits(a: int, b: int, c: int)
    requires
        0 <= a < 256,
        0 <= b < 256,
        0 <= c < 256,
    ensures
        ({
            let n = a * 0x1_0000 + b * 0x100 + c;
            &&& n / 0x4_0000 == a / 4
            &&& n / 0x1000 % 64 == (a % 4) * 16 + b / 16
            &&& n / 64 % 64 == (b % 16) * 4 + c / 64
            &&& n % 64 == c % 64
        }),
{
    let n = a * 0x1_0000 + b * 0x100 + c;
    let q = a / 4;
    let r = a % 4;
    let t = b / 16;
    let u = b % 16;
    let v = c / 64;
    let w = c % 64;
    assert(n == q * 0x4_0000 + (r * 16 + t) * 0x1000 + (u * 4 + v) * 64 + w);
    assert(n / 64 == q * 0x1000 + (r * 16 + t) * 64 + (u * 4 + v));
    assert(n / 0x1000 == q * 64 + (r * 16 + t));
}

} // verus!
