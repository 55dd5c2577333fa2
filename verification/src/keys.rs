//! Translation of readable key notation into the bytes a terminal sends.
use crate::text::{bytes_equal, push_bytes};
use crate::text;
use vstd::prelude::*;
use vstd::string::*;
use vstd::utf8::*;

verus! {

/// The bytes sent by a key that is written by name between brackets.
pub open spec fn named_key(tag: Seq<u8>) -> Option<Seq<u8>> {
    if tag.len() == 6 && tag.take(5) == "CTRL+".spec_bytes() && 0x41 <= tag[5] <= 0x5a {
        Some(seq![(tag[5] - 0x40) as u8])
    } else if tag == "UP".spec_bytes() {
        Some("\x1b[A".spec_bytes())
    } else if tag == "DOWN".spec_bytes() {
        Some("\x1b[B".spec_bytes())
    } else if tag == "RIGHT".spec_bytes() {
        Some("\x1b[C".spec_bytes())
    } else if tag == "LEFT".spec_bytes() {
        Some("\x1b[D".spec_bytes())
    } else if tag == "HOME".spec_bytes() {
        Some("\x1b[H".spec_bytes())
    } else if tag == "END".spec_bytes() {
        Some("\x1b[F".spec_bytes())
    } else if tag == "PGUP".spec_bytes() {
        Some("\x1b[5~".spec_bytes())
    } else if tag == "PGDN".spec_bytes() {
        Some("\x1b[6~".spec_bytes())
    } else if tag == "DELETE".spec_bytes() {
        Some("\x1b[3~".spec_bytes())
    } else if tag == "BACKSPACE".spec_bytes() {
        Some("\x7f".spec_bytes())
    } else if tag == "TAB".spec_bytes() {
        Some("\t".spec_bytes())
    } else if tag == "SHIFT+TAB".spec_bytes() {
        Some("\x1b[Z".spec_bytes())
    } else if tag == "ENTER".spec_bytes() {
        Some("\r".spec_bytes())
    } else if tag == "ESCAPE".spec_bytes() {
        Some("\x1b".spec_bytes())
    } else if tag == "F1".spec_bytes() {
        Some("\x1bOP".spec_bytes())
    } else if tag == "F2".spec_bytes() {
        Some("\x1bOQ".spec_bytes())
    } else if tag == "F3".spec_bytes() {
        Some("\x1bOR".spec_bytes())
    } else if tag == "F4".spec_bytes() {
        Some("\x1bOS".spec_bytes())
    } else if tag == "F5".spec_bytes() {
        Some("\x1b[15~".spec_bytes())
    } else if tag == "F6".spec_bytes() {
        Some("\x1b[17~".spec_bytes())
    } else if tag == "F7".spec_bytes() {
        Some("\x1b[18~".spec_bytes())
    } else if tag == "F8".spec_bytes() {
        Some("\x1b[19~".spec_bytes())
    } else if tag == "F9".spec_bytes() {
        Some("\x1b[20~".spec_bytes())
    } else if tag == "F10".spec_bytes() {
        Some("\x1b[21~".spec_bytes())
    } else if tag == "F11".spec_bytes() {
        Some("\x1b[23~".spec_bytes())
    } else if tag == "F12".spec_bytes() {
        Some("\x1b[24~".spec_bytes())
    } else if tag == "PASTE_START".spec_bytes() {
        Some("\x1b[200~".spec_bytes())
    } else if tag == "PASTE_END".spec_bytes() {
        Some("\x1b[201~".spec_bytes())
    } else {
        None
    }
}

/// The value of one hexadecimal digit.
pub open spec fn hex_digit(b: u8) -> Option<u8> {
    if 0x30 <= b <= 0x39 {
        Some((b - 0x30) as u8)
    } else if 0x41 <= b <= 0x46 {
        Some((b - 0x41 + 10) as u8)
    } else if 0x61 <= b <= 0x66 {
        Some((b - 0x61 + 10) as u8)
    } else {
        None
    }
}

/// The byte written by two characters after `\x`: two hexadecimal digits, or a plus sign and
/// one digit.
pub open spec fn hex_pair(hi: u8, lo: u8) -> Option<u8> {
    match (hex_digit(hi), hex_digit(lo)) {
        (Some(h), Some(l)) => Some((h * 16 + l) as u8),
        (None, Some(l)) => if hi == 0x2b {
            Some(l)
        } else {
            None
        },
        _ => None,
    }
}

/// The escape at the start of `s`, if there is one: the bytes it stands for and its length.
pub open spec fn leading_escape(s: Seq<u8>) -> Option<(Seq<u8>, int)> {
    if s.len() < 2 {
        None
    } else if s[0] == 0x5e && 0x41 <= s[1] <= 0x5a {
        Some((seq![(s[1] - 0x40) as u8], 2))
    } else if s[0] == 0x5e && 0x61 <= s[1] <= 0x7a {
        Some((seq![(s[1] - 0x60) as u8], 2))
    } else if s[0] == 0x5c && s[1] == 0x6e {
        Some((seq![0x0au8], 2))
    } else if s[0] == 0x5c && s[1] == 0x72 {
        Some((seq![0x0du8], 2))
    } else if s[0] == 0x5c && s[1] == 0x74 {
        Some((seq![0x09u8], 2))
    } else if s[0] == 0x5c && s[1] == 0x78 && s.len() >= 4 {
        match hex_pair(s[2], s[3]) {
            Some(v) => Some((seq![v], 4)),
            None => None,
        }
    } else if s[0] == 0x5b {
        match text::first_index(s, |b: u8| b == 0x5d) {
            Some(end) => match named_key(s.subrange(1, end)) {
                Some(bytes) => Some((bytes, end + 1)),
                None => None,
            },
            None => None,
        }
    } else {
        None
    }
}

/// The bytes that a text in key notation stands for: each escape is replaced, and every other
/// byte stands for itself.
pub open spec fn key_bytes(s: Seq<u8>) -> Seq<u8>
    decreases s.len(),
{
    if s.len() == 0 {
        Seq::empty()
    } else {
        match leading_escape(s) {
            Some((bytes, n)) => if 0 < n <= s.len() {
                bytes + key_bytes(s.skip(n))
            } else {
                Seq::empty()
            },
            None => seq![s[0]] + key_bytes(s.skip(1)),
        }
    }
}

/// No `\x` is followed by two bytes that end inside a multi-byte character.
pub open spec fn hex_escapes_are_whole(s: Seq<u8>) -> bool {
    forall|i: int|
        0 <= i && i + 4 < s.len() && #[trigger] s[i] == 0x5c && s[i + 1] == 0x78 ==> !(0x80
            <= s[i + 4] < 0xc0)
}

fn hex_value(b: u8) -> (v: Option<u8>)
    ensures
        v == hex_digit(b),
        v is Some ==> v->0 < 16,
{
    if b >= 0x30 && b <= 0x39 {
        Some(b - 0x30)
    } else if b >= 0x41 && b <= 0x46 {
        Some(b - 0x41 + 10)
    } else if b >= 0x61 && b <= 0x66 {
        Some(b - 0x61 + 10)
    } else {
        None
    }
}

fn hex_byte(hi: u8, lo: u8) -> (v: Option<u8>)
    ensures
        v == hex_pair(hi, lo),
{
    match (hex_value(hi), hex_value(lo)) {
        (Some(h), Some(l)) => Some(h * 16 + l),
        (None, Some(l)) => if hi == 0x2b {
            Some(l)
        } else {
            None
        },
        _ => None,
    }
}

fn bracket_sequence(tag: &[u8]) -> (bytes: Option<Vec<u8>>)
    ensures
        match bytes {
            Some(b) => named_key(tag@) == Some(b@),
            None => named_key(tag@) is None,
        },
{
    if tag.len() == 6 {
        let prefix = vstd::slice::slice_subrange(tag, 0, 5);
        assert(prefix@ =~= tag@.take(5));
        if bytes_equal(prefix, "CTRL+".as_bytes()) && tag[5] >= 0x41 && tag[5] <= 0x5a {
            return Some(single(tag[5] - 0x40));
        }
    }
    let named: &[u8] =
        if bytes_equal(tag, "UP".as_bytes()) {
            "\x1b[A".as_bytes()
        } else if bytes_equal(tag, "DOWN".as_bytes()) {
            "\x1b[B".as_bytes()
        } else if bytes_equal(tag, "RIGHT".as_bytes()) {
            "\x1b[C".as_bytes()
        } else if bytes_equal(tag, "LEFT".as_bytes()) {
            "\x1b[D".as_bytes()
        } else if bytes_equal(tag, "HOME".as_bytes()) {
            "\x1b[H".as_bytes()
        } else if bytes_equal(tag, "END".as_bytes()) {
            "\x1b[F".as_bytes()
        } else if bytes_equal(tag, "PGUP".as_bytes()) {
            "\x1b[5~".as_bytes()
        } else if bytes_equal(tag, "PGDN".as_bytes()) {
            "\x1b[6~".as_bytes()
        } else if bytes_equal(tag, "DELETE".as_bytes()) {
            "\x1b[3~".as_bytes()
        } else if bytes_equal(tag, "BACKSPACE".as_bytes()) {
            "\x7f".as_bytes()
        } else if bytes_equal(tag, "TAB".as_bytes()) {
            "\t".as_bytes()
        } else if bytes_equal(tag, "SHIFT+TAB".as_bytes()) {
            "\x1b[Z".as_bytes()
        } else if bytes_equal(tag, "ENTER".as_bytes()) {
            "\r".as_bytes()
        } else if bytes_equal(tag, "ESCAPE".as_bytes()) {
            "\x1b".as_bytes()
        } else if bytes_equal(tag, "F1".as_bytes()) {
            "\x1bOP".as_bytes()
        } else if bytes_equal(tag, "F2".as_bytes()) {
            "\x1bOQ".as_bytes()
        } else if bytes_equal(tag, "F3".as_bytes()) {
            "\x1bOR".as_bytes()
        } else if bytes_equal(tag, "F4".as_bytes()) {
            "\x1bOS".as_bytes()
        } else if bytes_equal(tag, "F5".as_bytes()) {
            "\x1b[15~".as_bytes()
        } else if bytes_equal(tag, "F6".as_bytes()) {
            "\x1b[17~".as_bytes()
        } else if bytes_equal(tag, "F7".as_bytes()) {
            "\x1b[18~".as_bytes()
        } else if bytes_equal(tag, "F8".as_bytes()) {
            "\x1b[19~".as_bytes()
        } else if bytes_equal(tag, "F9".as_bytes()) {
            "\x1b[20~".as_bytes()
        } else if bytes_equal(tag, "F10".as_bytes()) {
            "\x1b[21~".as_bytes()
        } else if bytes_equal(tag, "F11".as_bytes()) {
            "\x1b[23~".as_bytes()
        } else if bytes_equal(tag, "F12".as_bytes()) {
            "\x1b[24~".as_bytes()
        } else if bytes_equal(tag, "PASTE_START".as_bytes()) {
            "\x1b[200~".as_bytes()
        } else if bytes_equal(tag, "PASTE_END".as_bytes()) {
            "\x1b[201~".as_bytes()
        } else {
            return None;
        };
    let mut bytes: Vec<u8> = Vec::new();
    push_bytes(&mut bytes, named);
    assert(bytes@ =~= named@);
    Some(bytes)
}

fn single(b: u8) -> (v: Vec<u8>)
    ensures
        v@ == seq![b],
{
    let mut v: Vec<u8> = Vec::new();
    v.push(b);
    assert(v@ =~= seq![b]);
    v
}

fn take_escape(s: &[u8]) -> (found: Option<(Vec<u8>, usize)>)
    ensures
        match found {
            Some((bytes, n)) => leading_escape(s@) == Some((bytes@, n as int)) && 0 < n <= s@.len(),
            None => leading_escape(s@) is None,
        },
{
    if s.len() < 2 {
        return None;
    }
    let next: u8 = s[1];
    if s[0] == 0x5e {
        if next >= 0x41 && next <= 0x5a {
            return Some((single(next - 0x40), 2));
        }
        if next >= 0x61 && next <= 0x7a {
            return Some((single(next - 0x60), 2));
        }
        return None;
    }
    if s[0] == 0x5c {
        if next == 0x6e {
            return Some((single(0x0a), 2));
        }
        if next == 0x72 {
            return Some((single(0x0d), 2));
        }
        if next == 0x74 {
            return Some((single(0x09), 2));
        }
        if next == 0x78 && s.len() >= 4 {
            return match hex_byte(s[2], s[3]) {
                Some(v) => Some((single(v), 4)),
                None => None,
            };
        }
        return None;
    }
    if s[0] == 0x5b {
        let mut end: usize = 1;
        while end < s.len() && s[end] != 0x5d
            invariant
                1 <= end <= s.len(),
                s@[0] == 0x5b,
                forall|k: int| 0 <= k < end ==> s@[k] != 0x5d,
            decreases s.len() - end,
        {
            end += 1;
        }
        if end < s.len() {
            proof {
                text::lemma_first_index_at(s@, |b: u8| b == 0x5d, end as int);
            }
            return match bracket_sequence(vstd::slice::slice_subrange(s, 1, end)) {
                Some(bytes) => Some((bytes, end + 1)),
                None => None,
            };
        }
        proof {
            text::lemma_first_index_none(s@, |b: u8| b == 0x5d);
        }
    }
    None
}

/// Whether every `\\x` escape of the text can be cut out of it at character boundaries, which
/// `process_special_keys` needs.
pub fn has_whole_hex_escapes(input: &str) -> (whole: bool)
    ensures
        whole == hex_escapes_are_whole(input.spec_bytes()),
{
    let bytes = input.as_bytes();
    let mut i: usize = 0;
    while i < bytes.len() && bytes.len() - i > 4
        invariant
            i <= bytes.len(),
            bytes@ == input.spec_bytes(),
            forall|k: int|
                0 <= k < i && k + 4 < bytes@.len() && #[trigger] bytes@[k] == 0x5c && bytes@[k + 1]
                    == 0x78 ==> !(0x80 <= bytes@[k + 4] < 0xc0),
        decreases bytes.len() - i,
    {
        if bytes[i] == 0x5c && bytes[i + 1] == 0x78 && bytes[i + 4] >= 0x80 && bytes[i + 4] < 0xc0 {
            assert(bytes@[i as int] == 0x5c);
            return false;
        }
        i += 1;
    }
    true
}

/// Replaces key notation in `input` by the bytes the keys send.
///
/// - `^A`..`^Z`, `^a`..`^z`: control characters
/// - `\\x1b`, `\\x03`: hexadecimal escapes
/// - `\\n`, `\\r`, `\\t`: common escapes
/// - `[UP]`, `[F5]`, `[CTRL+C]`, `[ENTER]`, ...: keys by name
///
/// All other bytes are kept.
pub fn process_special_keys(input: &str) -> (result: Vec<u8>)
    requires
        hex_escapes_are_whole(input.spec_bytes()),
    ensures
        result@ == key_bytes(input.spec_bytes()),
{
    let bytes = input.as_bytes();
    let mut result: Vec<u8> = Vec::new();
    let mut i: usize = 0;
    assert(bytes@.skip(0) =~= bytes@);
    assert(result@ + key_bytes(bytes@) =~= key_bytes(bytes@));
    while i < bytes.len()
        invariant
            i <= bytes.len(),
            result@ + key_bytes(bytes@.skip(i as int)) == key_bytes(bytes@),
        decreases bytes.len() - i,
    {
        let rest = vstd::slice::slice_subrange(bytes, i, bytes.len());
        assert(rest@ =~= bytes@.skip(i as int));
        let ghost before = result@;
        match take_escape(rest) {
            Some((expansion, n)) => {
                push_bytes(&mut result, &expansion);
                assert(bytes@.skip(i as int).skip(n as int) =~= bytes@.skip(i + n));
                assert(before + (expansion@ + key_bytes(bytes@.skip(i + n))) =~= result@ + key_bytes(bytes@.skip(i + n)));
                i += n;
            },
            None => {
                result.push(bytes[i]);
                assert(bytes@.skip(i as int).skip(1) =~= bytes@.skip(i + 1));
                assert(before + (seq![bytes@[i as int]] + key_bytes(bytes@.skip(i + 1))) =~= result@ + key_bytes(bytes@.skip(i + 1)));
                i += 1;
            },
        }
    }
    assert(bytes@.skip(i as int) =~= Seq::empty());
    assert(result@ =~= key_bytes(bytes@));
    result
}

/// Text without a caret, a backslash or an opening bracket stands for itself.
pub proof fn law_plain_text_is_kept(s: Seq<u8>)
    requires
        forall|i: int| 0 <= i < s.len() ==> s[i] != 0x5e && s[i] != 0x5c && s[i] != 0x5b,
    ensures
        key_bytes(s) == s,
    decreases s.len(),
{
    if s.len() > 0 {
        assert forall|i: int| 0 <= i < s.skip(1).len() implies s.skip(1)[i] != 0x5e && s.skip(1)[i]
            != 0x5c && s.skip(1)[i] != 0x5b by {
            assert(s.skip(1)[i] == s[i + 1]);
        }
        law_plain_text_is_kept(s.skip(1));
        assert(seq![s[0]] + s.skip(1) =~= s);
    } else {
        assert(key_bytes(s) =~= s);
    }
}

/// What follows plain text is translated on its own: plain text in front is only copied.
pub proof fn law_plain_prefix(plain: Seq<u8>, rest: Seq<u8>)
    requires
        forall|i: int|
            0 <= i < plain.len() ==> plain[i] != 0x5e && plain[i] != 0x5c && plain[i] != 0x5b,
    ensures
        key_bytes(plain + rest) == plain + key_bytes(rest),
    decreases plain.len(),
{
    if plain.len() > 0 {
        let s = plain + rest;
        assert forall|i: int| 0 <= i < plain.skip(1).len() implies plain.skip(1)[i] != 0x5e
            && plain.skip(1)[i] != 0x5c && plain.skip(1)[i] != 0x5b by {
            assert(plain.skip(1)[i] == plain[i + 1]);
        }
        law_plain_prefix(plain.skip(1), rest);
        assert(s.skip(1) =~= plain.skip(1) + rest);
        assert(seq![plain[0]] + (plain.skip(1) + key_bytes(rest)) =~= plain + key_bytes(rest));
    } else {
        assert(plain + rest =~= rest);
        assert(plain + key_bytes(rest) =~= key_bytes(rest));
    }
}

/// A control key may be written `[CTRL+C]` or `^C`, in either case of the letter behind the
/// caret: all stand for the same byte.
pub proof fn law_control_notations_agree(letter: u8)
    requires
        0x41 <= letter <= 0x5a,
    ensures
        key_bytes(seq![0x5bu8] + "CTRL+".spec_bytes() + seq![letter, 0x5du8]) == key_bytes(
            seq![0x5eu8, letter],
        ),
        key_bytes(seq![0x5eu8, (letter + 0x20) as u8]) == key_bytes(seq![0x5eu8, letter]),
        key_bytes(seq![0x5eu8, letter]) == seq![(letter - 0x40) as u8],
{
    reveal_strlit("CTRL+");
    vstd::utf8::is_ascii_chars_encode_utf8("CTRL+"@);
    let prefix = "CTRL+".spec_bytes();
    assert(prefix.len() == 5);
    assert forall|i: int| 0 <= i < 5 implies prefix[i] != 0x5d by {}
    let s = seq![0x5bu8] + prefix + seq![letter, 0x5du8];
    assert(s.len() == 8);
    assert forall|k: int| 0 <= k < 7 implies s[k] != 0x5d by {
        if 1 <= k < 6 {
            assert(s[k] == prefix[k - 1]);
        }
    }
    text::lemma_first_index_at(s, |b: u8| b == 0x5d, 7);
    let tag = s.subrange(1, 7);
    assert(tag.take(5) =~= prefix);
    assert(tag[5] == letter);
    let out = seq![(letter - 0x40) as u8];
    assert(leading_escape(s) == Some((out, 8int)));
    assert(s.skip(8) =~= Seq::empty());
    assert(out + key_bytes(s.skip(8)) =~= out);
    let caret = seq![0x5eu8, letter];
    assert(leading_escape(caret) == Some((out, 2int)));
    assert(caret.skip(2) =~= Seq::empty());
    assert(out + key_bytes(caret.skip(2)) =~= out);
    let lower = seq![0x5eu8, (letter + 0x20) as u8];
    assert(lower[1] == letter + 0x20);
    assert(leading_escape(lower) == Some((out, 2int)));
    assert(lower.skip(2) =~= Seq::empty());
    assert(out + key_bytes(lower.skip(2)) =~= out);
}

/// Whether a text holds neither a caret nor a backslash nor an opening bracket.
pub open spec fn is_plain(s: Seq<char>) -> bool {
    forall|i: int| 0 <= i < s.len() ==> #[trigger] s[i] != '^' && s[i] != '\\' && s[i] != '['
}

proof fn lemma_plain_bytes(s: Seq<char>)
    requires
        is_plain(s),
    ensures
        forall|i: int|
            0 <= i < encode_utf8(s).len() ==> #[trigger] encode_utf8(s)[i] != 0x5e && encode_utf8(
                s,
            )[i] != 0x5c && encode_utf8(s)[i] != 0x5b,
    decreases s.len(),
{
    if s.len() > 0 {
        let rest = s.drop_first();
        assert forall|i: int| 0 <= i < rest.len() implies #[trigger] rest[i] != '^' && rest[i]
            != '\\' && rest[i] != '[' by {
            assert(rest[i] == s[i + 1]);
        }
        lemma_plain_bytes(rest);
        let first = encode_scalar(s[0] as u32);
        lemma_first_is_plain(s[0]);
        let all = encode_utf8(s);
        assert(all == first + encode_utf8(rest));
        assert forall|i: int| 0 <= i < all.len() implies #[trigger] all[i] != 0x5e && all[i] != 0x5c
            && all[i] != 0x5b by {
            if i < first.len() {
                assert(all[i] == first[i]);
            } else {
                assert(all[i] == encode_utf8(rest)[i - first.len()]);
            }
        }
    }
}

proof fn lemma_first_is_plain(c: char)
    requires
        c != '^' && c != '\\' && c != '[',
    ensures
        forall|i: int|
            0 <= i < encode_scalar(c as u32).len() ==> #[trigger] encode_scalar(c as u32)[i] != 0x5e
                && encode_scalar(c as u32)[i] != 0x5c && encode_scalar(c as u32)[i] != 0x5b,
{
    text::lemma_encoded_bytes(c);
    if (c as int) < 0x80 {
        let b = c as u8;
        assert(b as int == c as int);
    }
}

proof fn lemma_hex_behind_plain(plain: Seq<u8>, rest: Seq<u8>)
    requires
        forall|i: int| 0 <= i < plain.len() ==> #[trigger] plain[i] != 0x5c,
        hex_escapes_are_whole(rest),
    ensures
        hex_escapes_are_whole(plain + rest),
{
    let s = plain + rest;
    assert forall|i: int|
        0 <= i && i + 4 < s.len() && #[trigger] s[i] == 0x5c && s[i + 1] == 0x78 implies !(0x80
        <= s[i + 4] < 0xc0) by {
        if i < plain.len() {
            assert(s[i] == plain[i]);
        } else {
            let k = i - plain.len();
            assert(rest[k] == s[i] && rest[k + 1] == s[i + 1] && rest[k + 4] == s[i + 4]);
        }
    }
}

/// A text without a caret, a backslash or an opening bracket stands for itself, and what follows it
/// is translated on its own.
pub proof fn law_plain_characters_are_kept(plain: Seq<char>, rest: Seq<char>)
    requires
        is_plain(plain),
    ensures
        key_bytes(encode_utf8(plain)) == encode_utf8(plain),
        key_bytes(encode_utf8(plain + rest)) == encode_utf8(plain) + key_bytes(encode_utf8(rest)),
        hex_escapes_are_whole(encode_utf8(rest)) ==> hex_escapes_are_whole(
            encode_utf8(plain + rest),
        ),
{
    lemma_plain_bytes(plain);
    text::lemma_encoded_pieces(plain, rest);
    law_plain_text_is_kept(encode_utf8(plain));
    law_plain_prefix(encode_utf8(plain), encode_utf8(rest));
    if hex_escapes_are_whole(encode_utf8(rest)) {
        lemma_hex_behind_plain(encode_utf8(plain), encode_utf8(rest));
    }
}

proof fn lemma_ascii_bytes(s: &str)
    requires
        forall|i: int| 0 <= i < s@.len() ==> '\0' <= #[trigger] s@[i] <= '\u{7f}',
    ensures
        s.spec_bytes().len() == s@.len(),
        forall|i: int| 0 <= i < s@.len() ==> #[trigger] s.spec_bytes()[i] == s@[i] as u8,
{
    is_ascii_chars_encode_utf8(s@);
    assert forall|i: int| 0 <= i < s@.len() implies #[trigger] s.spec_bytes()[i] == s@[i] as u8 by {
        assert(encode_utf8(s@)[i] == s@[i] as u8);
    }
}

proof fn lemma_is(tag: Seq<u8>, name: &str)
    requires
        forall|i: int| 0 <= i < name@.len() ==> '\0' <= #[trigger] name@[i] <= '\u{7f}',
    ensures
        tag == name.spec_bytes() <==> (tag.len() == name@.len() && forall|i: int|
            0 <= i < tag.len() ==> #[trigger] tag[i] == name@[i] as u8),
{
    lemma_ascii_bytes(name);
    if tag.len() == name@.len() && forall|i: int|
        0 <= i < tag.len() ==> #[trigger] tag[i] == name@[i] as u8 {
        assert(tag =~= name.spec_bytes());
    }
}

proof fn lemma_name_up(tag: Seq<u8>)
    ensures
        tag == "UP".spec_bytes() <==> (tag.len() == 2 && tag[0] == 0x55 && tag[1] == 0x50),
        "\x1b[A".spec_bytes() == seq![0x1bu8, 0x5b, 0x41],
{
    reveal_strlit("UP");
    reveal_strlit("\x1b[A");
    lemma_is(tag, "UP");
    lemma_is(seq![0x1bu8, 0x5b, 0x41], "\x1b[A");
}

proof fn lemma_name_down(tag: Seq<u8>)
    ensures
        tag == "DOWN".spec_bytes() <==> (tag.len() == 4 && tag[0] == 0x44 && tag[1] == 0x4f && tag[2] == 0x57 && tag[3] == 0x4e),
        "\x1b[B".spec_bytes() == seq![0x1bu8, 0x5b, 0x42],
{
    reveal_strlit("DOWN");
    reveal_strlit("\x1b[B");
    lemma_is(tag, "DOWN");
    lemma_is(seq![0x1bu8, 0x5b, 0x42], "\x1b[B");
}

proof fn lemma_name_right(tag: Seq<u8>)
    ensures
        tag == "RIGHT".spec_bytes() <==> (tag.len() == 5 && tag[0] == 0x52 && tag[1] == 0x49 && tag[2] == 0x47 && tag[3] == 0x48 && tag[4] == 0x54),
        "\x1b[C".spec_bytes() == seq![0x1bu8, 0x5b, 0x43],
{
    reveal_strlit("RIGHT");
    reveal_strlit("\x1b[C");
    lemma_is(tag, "RIGHT");
    lemma_is(seq![0x1bu8, 0x5b, 0x43], "\x1b[C");
}

proof fn lemma_name_left(tag: Seq<u8>)
    ensures
        tag == "LEFT".spec_bytes() <==> (tag.len() == 4 && tag[0] == 0x4c && tag[1] == 0x45 && tag[2] == 0x46 && tag[3] == 0x54),
        "\x1b[D".spec_bytes() == seq![0x1bu8, 0x5b, 0x44],
{
    reveal_strlit("LEFT");
    reveal_strlit("\x1b[D");
    lemma_is(tag, "LEFT");
    lemma_is(seq![0x1bu8, 0x5b, 0x44], "\x1b[D");
}

proof fn lemma_name_home(tag: Seq<u8>)
    ensures
        tag == "HOME".spec_bytes() <==> (tag.len() == 4 && tag[0] == 0x48 && tag[1] == 0x4f && tag[2] == 0x4d && tag[3] == 0x45),
        "\x1b[H".spec_bytes() == seq![0x1bu8, 0x5b, 0x48],
{
    reveal_strlit("HOME");
    reveal_strlit("\x1b[H");
    lemma_is(tag, "HOME");
    lemma_is(seq![0x1bu8, 0x5b, 0x48], "\x1b[H");
}

proof fn lemma_name_end(tag: Seq<u8>)
    ensures
        tag == "END".spec_bytes() <==> (tag.len() == 3 && tag[0] == 0x45 && tag[1] == 0x4e && tag[2] == 0x44),
        "\x1b[F".spec_bytes() == seq![0x1bu8, 0x5b, 0x46],
{
    reveal_strlit("END");
    reveal_strlit("\x1b[F");
    lemma_is(tag, "END");
    lemma_is(seq![0x1bu8, 0x5b, 0x46], "\x1b[F");
}

proof fn lemma_name_pgup(tag: Seq<u8>)
    ensures
        tag == "PGUP".spec_bytes() <==> (tag.len() == 4 && tag[0] == 0x50 && tag[1] == 0x47 && tag[2] == 0x55 && tag[3] == 0x50),
        "\x1b[5~".spec_bytes() == seq![0x1bu8, 0x5b, 0x35, 0x7e],
{
    reveal_strlit("PGUP");
    reveal_strlit("\x1b[5~");
    lemma_is(tag, "PGUP");
    lemma_is(seq![0x1bu8, 0x5b, 0x35, 0x7e], "\x1b[5~");
}

proof fn lemma_name_pgdn(tag: Seq<u8>)
    ensures
        tag == "PGDN".spec_bytes() <==> (tag.len() == 4 && tag[0] == 0x50 && tag[1] == 0x47 && tag[2] == 0x44 && tag[3] == 0x4e),
        "\x1b[6~".spec_bytes() == seq![0x1bu8, 0x5b, 0x36, 0x7e],
{
    reveal_strlit("PGDN");
    reveal_strlit("\x1b[6~");
    lemma_is(tag, "PGDN");
    lemma_is(seq![0x1bu8, 0x5b, 0x36, 0x7e], "\x1b[6~");
}

proof fn lemma_name_delete(tag: Seq<u8>)
    ensures
        tag == "DELETE".spec_bytes() <==> (tag.len() == 6 && tag[0] == 0x44 && tag[1] == 0x45 && tag[2] == 0x4c && tag[3] == 0x45 && tag[4] == 0x54 && tag[5] == 0x45),
        "\x1b[3~".spec_bytes() == seq![0x1bu8, 0x5b, 0x33, 0x7e],
{
    reveal_strlit("DELETE");
    reveal_strlit("\x1b[3~");
    lemma_is(tag, "DELETE");
    lemma_is(seq![0x1bu8, 0x5b, 0x33, 0x7e], "\x1b[3~");
}

proof fn lemma_name_backspace(tag: Seq<u8>)
    ensures
        tag == "BACKSPACE".spec_bytes() <==> (tag.len() == 9 && tag[0] == 0x42 && tag[1] == 0x41 && tag[2] == 0x43 && tag[3] == 0x4b && tag[4] == 0x53 && tag[5] == 0x50 && tag[6] == 0x41 && tag[7] == 0x43 && tag[8] == 0x45),
        "\x7f".spec_bytes() == seq![0x7fu8],
{
    reveal_strlit("BACKSPACE");
    reveal_strlit("\x7f");
    lemma_is(tag, "BACKSPACE");
    lemma_is(seq![0x7fu8], "\x7f");
}

proof fn lemma_name_tab(tag: Seq<u8>)
    ensures
        tag == "TAB".spec_bytes() <==> (tag.len() == 3 && tag[0] == 0x54 && tag[1] == 0x41 && tag[2] == 0x42),
        "\t".spec_bytes() == seq![0x09u8],
{
    reveal_strlit("TAB");
    reveal_strlit("\t");
    lemma_is(tag, "TAB");
    lemma_is(seq![0x09u8], "\t");
}

proof fn lemma_name_shift_tab(tag: Seq<u8>)
    ensures
        tag == "SHIFT+TAB".spec_bytes() <==> (tag.len() == 9 && tag[0] == 0x53 && tag[1] == 0x48 && tag[2] == 0x49 && tag[3] == 0x46 && tag[4] == 0x54 && tag[5] == 0x2b && tag[6] == 0x54 && tag[7] == 0x41 && tag[8] == 0x42),
        "\x1b[Z".spec_bytes() == seq![0x1bu8, 0x5b, 0x5a],
{
    reveal_strlit("SHIFT+TAB");
    reveal_strlit("\x1b[Z");
    lemma_is(tag, "SHIFT+TAB");
    lemma_is(seq![0x1bu8, 0x5b, 0x5a], "\x1b[Z");
}

proof fn lemma_name_enter(tag: Seq<u8>)
    ensures
        tag == "ENTER".spec_bytes() <==> (tag.len() == 5 && tag[0] == 0x45 && tag[1] == 0x4e && tag[2] == 0x54 && tag[3] == 0x45 && tag[4] == 0x52),
        "\r".spec_bytes() == seq![0x0du8],
{
    reveal_strlit("ENTER");
    reveal_strlit("\r");
    lemma_is(tag, "ENTER");
    lemma_is(seq![0x0du8], "\r");
}

proof fn lemma_name_escape(tag: Seq<u8>)
    ensures
        tag == "ESCAPE".spec_bytes() <==> (tag.len() == 6 && tag[0] == 0x45 && tag[1] == 0x53 && tag[2] == 0x43 && tag[3] == 0x41 && tag[4] == 0x50 && tag[5] == 0x45),
        "\x1b".spec_bytes() == seq![0x1bu8],
{
    reveal_strlit("ESCAPE");
    reveal_strlit("\x1b");
    lemma_is(tag, "ESCAPE");
    lemma_is(seq![0x1bu8], "\x1b");
}

proof fn lemma_name_f1(tag: Seq<u8>)
    ensures
        tag == "F1".spec_bytes() <==> (tag.len() == 2 && tag[0] == 0x46 && tag[1] == 0x31),
        "\x1bOP".spec_bytes() == seq![0x1bu8, 0x4f, 0x50],
{
    reveal_strlit("F1");
    reveal_strlit("\x1bOP");
    lemma_is(tag, "F1");
    lemma_is(seq![0x1bu8, 0x4f, 0x50], "\x1bOP");
}

proof fn lemma_name_f2(tag: Seq<u8>)
    ensures
        tag == "F2".spec_bytes() <==> (tag.len() == 2 && tag[0] == 0x46 && tag[1] == 0x32),
        "\x1bOQ".spec_bytes() == seq![0x1bu8, 0x4f, 0x51],
{
    reveal_strlit("F2");
    reveal_strlit("\x1bOQ");
    lemma_is(tag, "F2");
    lemma_is(seq![0x1bu8, 0x4f, 0x51], "\x1bOQ");
}

proof fn lemma_name_f3(tag: Seq<u8>)
    ensures
        tag == "F3".spec_bytes() <==> (tag.len() == 2 && tag[0] == 0x46 && tag[1] == 0x33),
        "\x1bOR".spec_bytes() == seq![0x1bu8, 0x4f, 0x52],
{
    reveal_strlit("F3");
    reveal_strlit("\x1bOR");
    lemma_is(tag, "F3");
    lemma_is(seq![0x1bu8, 0x4f, 0x52], "\x1bOR");
}

proof fn lemma_name_f4(tag: Seq<u8>)
    ensures
        tag == "F4".spec_bytes() <==> (tag.len() == 2 && tag[0] == 0x46 && tag[1] == 0x34),
        "\x1bOS".spec_bytes() == seq![0x1bu8, 0x4f, 0x53],
{
    reveal_strlit("F4");
    reveal_strlit("\x1bOS");
    lemma_is(tag, "F4");
    lemma_is(seq![0x1bu8, 0x4f, 0x53], "\x1bOS");
}

proof fn lemma_name_f5(tag: Seq<u8>)
    ensures
        tag == "F5".spec_bytes() <==> (tag.len() == 2 && tag[0] == 0x46 && tag[1] == 0x35),
        "\x1b[15~".spec_bytes() == seq![0x1bu8, 0x5b, 0x31, 0x35, 0x7e],
{
    reveal_strlit("F5");
    reveal_strlit("\x1b[15~");
    lemma_is(tag, "F5");
    lemma_is(seq![0x1bu8, 0x5b, 0x31, 0x35, 0x7e], "\x1b[15~");
}

proof fn lemma_name_f6(tag: Seq<u8>)
    ensures
        tag == "F6".spec_bytes() <==> (tag.len() == 2 && tag[0] == 0x46 && tag[1] == 0x36),
        "\x1b[17~".spec_bytes() == seq![0x1bu8, 0x5b, 0x31, 0x37, 0x7e],
{
    reveal_strlit("F6");
    reveal_strlit("\x1b[17~");
    lemma_is(tag, "F6");
    lemma_is(seq![0x1bu8, 0x5b, 0x31, 0x37, 0x7e], "\x1b[17~");
}

proof fn lemma_name_f7(tag: Seq<u8>)
    ensures
        tag == "F7".spec_bytes() <==> (tag.len() == 2 && tag[0] == 0x46 && tag[1] == 0x37),
        "\x1b[18~".spec_bytes() == seq![0x1bu8, 0x5b, 0x31, 0x38, 0x7e],
{
    reveal_strlit("F7");
    reveal_strlit("\x1b[18~");
    lemma_is(tag, "F7");
    lemma_is(seq![0x1bu8, 0x5b, 0x31, 0x38, 0x7e], "\x1b[18~");
}

proof fn lemma_name_f8(tag: Seq<u8>)
    ensures
        tag == "F8".spec_bytes() <==> (tag.len() == 2 && tag[0] == 0x46 && tag[1] == 0x38),
        "\x1b[19~".spec_bytes() == seq![0x1bu8, 0x5b, 0x31, 0x39, 0x7e],
{
    reveal_strlit("F8");
    reveal_strlit("\x1b[19~");
    lemma_is(tag, "F8");
    lemma_is(seq![0x1bu8, 0x5b, 0x31, 0x39, 0x7e], "\x1b[19~");
}

proof fn lemma_name_f9(tag: Seq<u8>)
    ensures
        tag == "F9".spec_bytes() <==> (tag.len() == 2 && tag[0] == 0x46 && tag[1] == 0x39),
        "\x1b[20~".spec_bytes() == seq![0x1bu8, 0x5b, 0x32, 0x30, 0x7e],
{
    reveal_strlit("F9");
    reveal_strlit("\x1b[20~");
    lemma_is(tag, "F9");
    lemma_is(seq![0x1bu8, 0x5b, 0x32, 0x30, 0x7e], "\x1b[20~");
}

proof fn lemma_name_f10(tag: Seq<u8>)
    ensures
        tag == "F10".spec_bytes() <==> (tag.len() == 3 && tag[0] == 0x46 && tag[1] == 0x31 && tag[2] == 0x30),
        "\x1b[21~".spec_bytes() == seq![0x1bu8, 0x5b, 0x32, 0x31, 0x7e],
{
    reveal_strlit("F10");
    reveal_strlit("\x1b[21~");
    lemma_is(tag, "F10");
    lemma_is(seq![0x1bu8, 0x5b, 0x32, 0x31, 0x7e], "\x1b[21~");
}

proof fn lemma_name_f11(tag: Seq<u8>)
    ensures
        tag == "F11".spec_bytes() <==> (tag.len() == 3 && tag[0] == 0x46 && tag[1] == 0x31 && tag[2] == 0x31),
        "\x1b[23~".spec_bytes() == seq![0x1bu8, 0x5b, 0x32, 0x33, 0x7e],
{
    reveal_strlit("F11");
    reveal_strlit("\x1b[23~");
    lemma_is(tag, "F11");
    lemma_is(seq![0x1bu8, 0x5b, 0x32, 0x33, 0x7e], "\x1b[23~");
}

proof fn lemma_name_f12(tag: Seq<u8>)
    ensures
        tag == "F12".spec_bytes() <==> (tag.len() == 3 && tag[0] == 0x46 && tag[1] == 0x31 && tag[2] == 0x32),
        "\x1b[24~".spec_bytes() == seq![0x1bu8, 0x5b, 0x32, 0x34, 0x7e],
{
    reveal_strlit("F12");
    reveal_strlit("\x1b[24~");
    lemma_is(tag, "F12");
    lemma_is(seq![0x1bu8, 0x5b, 0x32, 0x34, 0x7e], "\x1b[24~");
}

proof fn lemma_name_paste_start(tag: Seq<u8>)
    ensures
        tag == "PASTE_START".spec_bytes() <==> (tag.len() == 11 && tag[0] == 0x50 && tag[1] == 0x41 && tag[2] == 0x53 && tag[3] == 0x54 && tag[4] == 0x45 && tag[5] == 0x5f && tag[6] == 0x53 && tag[7] == 0x54 && tag[8] == 0x41 && tag[9] == 0x52 && tag[10] == 0x54),
        "\x1b[200~".spec_bytes() == seq![0x1bu8, 0x5b, 0x32, 0x30, 0x30, 0x7e],
{
    reveal_strlit("PASTE_START");
    reveal_strlit("\x1b[200~");
    lemma_is(tag, "PASTE_START");
    lemma_is(seq![0x1bu8, 0x5b, 0x32, 0x30, 0x30, 0x7e], "\x1b[200~");
}

proof fn lemma_name_paste_end(tag: Seq<u8>)
    ensures
        tag == "PASTE_END".spec_bytes() <==> (tag.len() == 9 && tag[0] == 0x50 && tag[1] == 0x41 && tag[2] == 0x53 && tag[3] == 0x54 && tag[4] == 0x45 && tag[5] == 0x5f && tag[6] == 0x45 && tag[7] == 0x4e && tag[8] == 0x44),
        "\x1b[201~".spec_bytes() == seq![0x1bu8, 0x5b, 0x32, 0x30, 0x31, 0x7e],
{
    reveal_strlit("PASTE_END");
    reveal_strlit("\x1b[201~");
    lemma_is(tag, "PASTE_END");
    lemma_is(seq![0x1bu8, 0x5b, 0x32, 0x30, 0x31, 0x7e], "\x1b[201~");
}

proof fn lemma_name_ctrl(tag: Seq<u8>)
    ensures
        tag == "CTRL+".spec_bytes() <==> (tag.len() == 5 && tag[0] == 0x43 && tag[1] == 0x54 && tag[2] == 0x52 && tag[3] == 0x4c && tag[4] == 0x2b),
{
    reveal_strlit("CTRL+");
    lemma_is(tag, "CTRL+");
}

/// The keys by the bytes of their names.
spec fn table(tag: Seq<u8>) -> Option<Seq<u8>> {
    if tag.len() == 6 && tag[0] == 0x43 && tag[1] == 0x54 && tag[2] == 0x52 && tag[3] == 0x4c && tag[4] == 0x2b && 0x41 <= tag[5] <= 0x5a {
        Some(seq![(tag[5] - 0x40) as u8])
    } else if tag.len() == 2 && tag[0] == 0x55 && tag[1] == 0x50 {
        Some(seq![0x1bu8, 0x5b, 0x41])
    } else if tag.len() == 4 && tag[0] == 0x44 && tag[1] == 0x4f && tag[2] == 0x57 && tag[3] == 0x4e {
        Some(seq![0x1bu8, 0x5b, 0x42])
    } else if tag.len() == 5 && tag[0] == 0x52 && tag[1] == 0x49 && tag[2] == 0x47 && tag[3] == 0x48 && tag[4] == 0x54 {
        Some(seq![0x1bu8, 0x5b, 0x43])
    } else if tag.len() == 4 && tag[0] == 0x4c && tag[1] == 0x45 && tag[2] == 0x46 && tag[3] == 0x54 {
        Some(seq![0x1bu8, 0x5b, 0x44])
    } else if tag.len() == 4 && tag[0] == 0x48 && tag[1] == 0x4f && tag[2] == 0x4d && tag[3] == 0x45 {
        Some(seq![0x1bu8, 0x5b, 0x48])
    } else if tag.len() == 3 && tag[0] == 0x45 && tag[1] == 0x4e && tag[2] == 0x44 {
        Some(seq![0x1bu8, 0x5b, 0x46])
    } else if tag.len() == 4 && tag[0] == 0x50 && tag[1] == 0x47 && tag[2] == 0x55 && tag[3] == 0x50 {
        Some(seq![0x1bu8, 0x5b, 0x35, 0x7e])
    } else if tag.len() == 4 && tag[0] == 0x50 && tag[1] == 0x47 && tag[2] == 0x44 && tag[3] == 0x4e {
        Some(seq![0x1bu8, 0x5b, 0x36, 0x7e])
    } else if tag.len() == 6 && tag[0] == 0x44 && tag[1] == 0x45 && tag[2] == 0x4c && tag[3] == 0x45 && tag[4] == 0x54 && tag[5] == 0x45 {
        Some(seq![0x1bu8, 0x5b, 0x33, 0x7e])
    } else if tag.len() == 9 && tag[0] == 0x42 && tag[1] == 0x41 && tag[2] == 0x43 && tag[3] == 0x4b && tag[4] == 0x53 && tag[5] == 0x50 && tag[6] == 0x41 && tag[7] == 0x43 && tag[8] == 0x45 {
        Some(seq![0x7fu8])
    } else if tag.len() == 3 && tag[0] == 0x54 && tag[1] == 0x41 && tag[2] == 0x42 {
        Some(seq![0x09u8])
    } else if tag.len() == 9 && tag[0] == 0x53 && tag[1] == 0x48 && tag[2] == 0x49 && tag[3] == 0x46 && tag[4] == 0x54 && tag[5] == 0x2b && tag[6] == 0x54 && tag[7] == 0x41 && tag[8] == 0x42 {
        Some(seq![0x1bu8, 0x5b, 0x5a])
    } else if tag.len() == 5 && tag[0] == 0x45 && tag[1] == 0x4e && tag[2] == 0x54 && tag[3] == 0x45 && tag[4] == 0x52 {
        Some(seq![0x0du8])
    } else if tag.len() == 6 && tag[0] == 0x45 && tag[1] == 0x53 && tag[2] == 0x43 && tag[3] == 0x41 && tag[4] == 0x50 && tag[5] == 0x45 {
        Some(seq![0x1bu8])
    } else if tag.len() == 2 && tag[0] == 0x46 && tag[1] == 0x31 {
        Some(seq![0x1bu8, 0x4f, 0x50])
    } else if tag.len() == 2 && tag[0] == 0x46 && tag[1] == 0x32 {
        Some(seq![0x1bu8, 0x4f, 0x51])
    } else if tag.len() == 2 && tag[0] == 0x46 && tag[1] == 0x33 {
        Some(seq![0x1bu8, 0x4f, 0x52])
    } else if tag.len() == 2 && tag[0] == 0x46 && tag[1] == 0x34 {
        Some(seq![0x1bu8, 0x4f, 0x53])
    } else if tag.len() == 2 && tag[0] == 0x46 && tag[1] == 0x35 {
        Some(seq![0x1bu8, 0x5b, 0x31, 0x35, 0x7e])
    } else if tag.len() == 2 && tag[0] == 0x46 && tag[1] == 0x36 {
        Some(seq![0x1bu8, 0x5b, 0x31, 0x37, 0x7e])
    } else if tag.len() == 2 && tag[0] == 0x46 && tag[1] == 0x37 {
        Some(seq![0x1bu8, 0x5b, 0x31, 0x38, 0x7e])
    } else if tag.len() == 2 && tag[0] == 0x46 && tag[1] == 0x38 {
        Some(seq![0x1bu8, 0x5b, 0x31, 0x39, 0x7e])
    } else if tag.len() == 2 && tag[0] == 0x46 && tag[1] == 0x39 {
        Some(seq![0x1bu8, 0x5b, 0x32, 0x30, 0x7e])
    } else if tag.len() == 3 && tag[0] == 0x46 && tag[1] == 0x31 && tag[2] == 0x30 {
        Some(seq![0x1bu8, 0x5b, 0x32, 0x31, 0x7e])
    } else if tag.len() == 3 && tag[0] == 0x46 && tag[1] == 0x31 && tag[2] == 0x31 {
        Some(seq![0x1bu8, 0x5b, 0x32, 0x33, 0x7e])
    } else if tag.len() == 3 && tag[0] == 0x46 && tag[1] == 0x31 && tag[2] == 0x32 {
        Some(seq![0x1bu8, 0x5b, 0x32, 0x34, 0x7e])
    } else if tag.len() == 11 && tag[0] == 0x50 && tag[1] == 0x41 && tag[2] == 0x53 && tag[3] == 0x54 && tag[4] == 0x45 && tag[5] == 0x5f && tag[6] == 0x53 && tag[7] == 0x54 && tag[8] == 0x41 && tag[9] == 0x52 && tag[10] == 0x54 {
        Some(seq![0x1bu8, 0x5b, 0x32, 0x30, 0x30, 0x7e])
    } else if tag.len() == 9 && tag[0] == 0x50 && tag[1] == 0x41 && tag[2] == 0x53 && tag[3] == 0x54 && tag[4] == 0x45 && tag[5] == 0x5f && tag[6] == 0x45 && tag[7] == 0x4e && tag[8] == 0x44 {
        Some(seq![0x1bu8, 0x5b, 0x32, 0x30, 0x31, 0x7e])
    } else {
        None
    }
}

proof fn lemma_table(tag: Seq<u8>)
    ensures
        named_key(tag) == table(tag),
{
    lemma_name_ctrl(tag.take(5));
    lemma_name_up(tag);
    lemma_name_down(tag);
    lemma_name_right(tag);
    lemma_name_left(tag);
    lemma_name_home(tag);
    lemma_name_end(tag);
    lemma_name_pgup(tag);
    lemma_name_pgdn(tag);
    lemma_name_delete(tag);
    lemma_name_backspace(tag);
    lemma_name_tab(tag);
    lemma_name_shift_tab(tag);
    lemma_name_enter(tag);
    lemma_name_escape(tag);
    lemma_name_f1(tag);
    lemma_name_f2(tag);
    lemma_name_f3(tag);
    lemma_name_f4(tag);
    lemma_name_f5(tag);
    lemma_name_f6(tag);
    lemma_name_f7(tag);
    lemma_name_f8(tag);
    lemma_name_f9(tag);
    lemma_name_f10(tag);
    lemma_name_f11(tag);
    lemma_name_f12(tag);
    lemma_name_paste_start(tag);
    lemma_name_paste_end(tag);
}

proof fn lemma_bracketed(tag: Seq<u8>, bytes: Seq<u8>, whole: Seq<u8>, rest: Seq<u8>)
    requires
        named_key(tag) == Some(bytes),
        forall|i: int| 0 <= i < tag.len() ==> #[trigger] tag[i] != 0x5d,
        whole == seq![0x5bu8] + tag + seq![0x5du8],
    ensures
        key_bytes(whole + rest) == bytes + key_bytes(rest),
{
    let s = whole + rest;
    let end: int = tag.len() + 1int;
    assert forall|k: int| 0 <= k < end implies s[k] != 0x5d by {
        if k > 0 {
            assert(s[k] == tag[k - 1]);
        }
    }
    assert(s[end] == 0x5d);
    text::lemma_first_index_at(s, |b: u8| b == 0x5d, end);
    assert(s.subrange(1, end) =~= tag);
    assert(leading_escape(s) == Some((bytes, end + 1)));
    assert(s.skip(end + 1) =~= rest);
}

/// A notation stands for bytes, and what follows it is translated on its own.
#[verifier::opaque]
pub open spec fn sends(notation: Seq<u8>, bytes: Seq<u8>, rest: Seq<u8>) -> bool {
    key_bytes(notation + rest) == bytes + key_bytes(rest)
}

proof fn lemma_key(tag: Seq<u8>, bytes: Seq<u8>, whole: Seq<u8>, rest: Seq<u8>)
    requires
        table(tag) == Some(bytes),
        forall|i: int| 0 <= i < tag.len() ==> #[trigger] tag[i] != 0x5d,
        whole =~= seq![0x5bu8] + tag + seq![0x5du8],
    ensures
        sends(whole, bytes, rest),
{
    reveal(sends);
    lemma_table(tag);
    lemma_bracketed(tag, bytes, whole, rest);
}

/// The arrows and the keys that go to an end or a page send these bytes, whatever follows.
pub proof fn law_arrow_and_paging_keys(rest: Seq<u8>)
    ensures
        // [UP]
        sends(seq![0x5bu8, 0x55, 0x50, 0x5d], seq![0x1bu8, 0x5b, 0x41], rest),
        // [DOWN]
        sends(seq![0x5bu8, 0x44, 0x4f, 0x57, 0x4e, 0x5d], seq![0x1bu8, 0x5b, 0x42], rest),
        // [RIGHT]
        sends(seq![0x5bu8, 0x52, 0x49, 0x47, 0x48, 0x54, 0x5d], seq![0x1bu8, 0x5b, 0x43], rest),
        // [LEFT]
        sends(seq![0x5bu8, 0x4c, 0x45, 0x46, 0x54, 0x5d], seq![0x1bu8, 0x5b, 0x44], rest),
        // [HOME]
        sends(seq![0x5bu8, 0x48, 0x4f, 0x4d, 0x45, 0x5d], seq![0x1bu8, 0x5b, 0x48], rest),
        // [END]
        sends(seq![0x5bu8, 0x45, 0x4e, 0x44, 0x5d], seq![0x1bu8, 0x5b, 0x46], rest),
        // [PGUP]
        sends(seq![0x5bu8, 0x50, 0x47, 0x55, 0x50, 0x5d], seq![0x1bu8, 0x5b, 0x35, 0x7e], rest),
        // [PGDN]
        sends(seq![0x5bu8, 0x50, 0x47, 0x44, 0x4e, 0x5d], seq![0x1bu8, 0x5b, 0x36, 0x7e], rest),
{
    lemma_key(seq![0x55u8, 0x50], seq![0x1bu8, 0x5b, 0x41], seq![0x5bu8, 0x55, 0x50, 0x5d], rest);
    lemma_key(seq![0x44u8, 0x4f, 0x57, 0x4e], seq![0x1bu8, 0x5b, 0x42], seq![0x5bu8, 0x44, 0x4f, 0x57, 0x4e, 0x5d], rest);
    lemma_key(seq![0x52u8, 0x49, 0x47, 0x48, 0x54], seq![0x1bu8, 0x5b, 0x43], seq![0x5bu8, 0x52, 0x49, 0x47, 0x48, 0x54, 0x5d], rest);
    lemma_key(seq![0x4cu8, 0x45, 0x46, 0x54], seq![0x1bu8, 0x5b, 0x44], seq![0x5bu8, 0x4c, 0x45, 0x46, 0x54, 0x5d], rest);
    lemma_key(seq![0x48u8, 0x4f, 0x4d, 0x45], seq![0x1bu8, 0x5b, 0x48], seq![0x5bu8, 0x48, 0x4f, 0x4d, 0x45, 0x5d], rest);
    lemma_key(seq![0x45u8, 0x4e, 0x44], seq![0x1bu8, 0x5b, 0x46], seq![0x5bu8, 0x45, 0x4e, 0x44, 0x5d], rest);
    lemma_key(seq![0x50u8, 0x47, 0x55, 0x50], seq![0x1bu8, 0x5b, 0x35, 0x7e], seq![0x5bu8, 0x50, 0x47, 0x55, 0x50, 0x5d], rest);
    lemma_key(seq![0x50u8, 0x47, 0x44, 0x4e], seq![0x1bu8, 0x5b, 0x36, 0x7e], seq![0x5bu8, 0x50, 0x47, 0x44, 0x4e, 0x5d], rest);
}

/// The keys for editing send these bytes, whatever follows.
pub proof fn law_editing_keys(rest: Seq<u8>)
    ensures
        // [DELETE]
        sends(seq![0x5bu8, 0x44, 0x45, 0x4c, 0x45, 0x54, 0x45, 0x5d], seq![0x1bu8, 0x5b, 0x33, 0x7e], rest),
        // [BACKSPACE]
        sends(seq![0x5bu8, 0x42, 0x41, 0x43, 0x4b, 0x53, 0x50, 0x41, 0x43, 0x45, 0x5d], seq![0x7fu8], rest),
        // [TAB]
        sends(seq![0x5bu8, 0x54, 0x41, 0x42, 0x5d], seq![0x09u8], rest),
        // [SHIFT+TAB]
        sends(seq![0x5bu8, 0x53, 0x48, 0x49, 0x46, 0x54, 0x2b, 0x54, 0x41, 0x42, 0x5d], seq![0x1bu8, 0x5b, 0x5a], rest),
        // [ENTER]
        sends(seq![0x5bu8, 0x45, 0x4e, 0x54, 0x45, 0x52, 0x5d], seq![0x0du8], rest),
        // [ESCAPE]
        sends(seq![0x5bu8, 0x45, 0x53, 0x43, 0x41, 0x50, 0x45, 0x5d], seq![0x1bu8], rest),
{
    lemma_key(seq![0x44u8, 0x45, 0x4c, 0x45, 0x54, 0x45], seq![0x1bu8, 0x5b, 0x33, 0x7e], seq![0x5bu8, 0x44, 0x45, 0x4c, 0x45, 0x54, 0x45, 0x5d], rest);
    lemma_key(seq![0x42u8, 0x41, 0x43, 0x4b, 0x53, 0x50, 0x41, 0x43, 0x45], seq![0x7fu8], seq![0x5bu8, 0x42, 0x41, 0x43, 0x4b, 0x53, 0x50, 0x41, 0x43, 0x45, 0x5d], rest);
    lemma_key(seq![0x54u8, 0x41, 0x42], seq![0x09u8], seq![0x5bu8, 0x54, 0x41, 0x42, 0x5d], rest);
    lemma_key(seq![0x53u8, 0x48, 0x49, 0x46, 0x54, 0x2b, 0x54, 0x41, 0x42], seq![0x1bu8, 0x5b, 0x5a], seq![0x5bu8, 0x53, 0x48, 0x49, 0x46, 0x54, 0x2b, 0x54, 0x41, 0x42, 0x5d], rest);
    lemma_key(seq![0x45u8, 0x4e, 0x54, 0x45, 0x52], seq![0x0du8], seq![0x5bu8, 0x45, 0x4e, 0x54, 0x45, 0x52, 0x5d], rest);
    lemma_key(seq![0x45u8, 0x53, 0x43, 0x41, 0x50, 0x45], seq![0x1bu8], seq![0x5bu8, 0x45, 0x53, 0x43, 0x41, 0x50, 0x45, 0x5d], rest);
}

/// The function keys send these bytes, whatever follows. The codes of the fifth and later keys
/// are no plain sequence: there are gaps behind the fifth and the tenth.
pub proof fn law_function_keys(rest: Seq<u8>)
    ensures
        // [F1]
        sends(seq![0x5bu8, 0x46, 0x31, 0x5d], seq![0x1bu8, 0x4f, 0x50], rest),
        // [F2]
        sends(seq![0x5bu8, 0x46, 0x32, 0x5d], seq![0x1bu8, 0x4f, 0x51], rest),
        // [F3]
        sends(seq![0x5bu8, 0x46, 0x33, 0x5d], seq![0x1bu8, 0x4f, 0x52], rest),
        // [F4]
        sends(seq![0x5bu8, 0x46, 0x34, 0x5d], seq![0x1bu8, 0x4f, 0x53], rest),
        // [F5]
        sends(seq![0x5bu8, 0x46, 0x35, 0x5d], seq![0x1bu8, 0x5b, 0x31, 0x35, 0x7e], rest),
        // [F6]
        sends(seq![0x5bu8, 0x46, 0x36, 0x5d], seq![0x1bu8, 0x5b, 0x31, 0x37, 0x7e], rest),
        // [F7]
        sends(seq![0x5bu8, 0x46, 0x37, 0x5d], seq![0x1bu8, 0x5b, 0x31, 0x38, 0x7e], rest),
        // [F8]
        sends(seq![0x5bu8, 0x46, 0x38, 0x5d], seq![0x1bu8, 0x5b, 0x31, 0x39, 0x7e], rest),
        // [F9]
        sends(seq![0x5bu8, 0x46, 0x39, 0x5d], seq![0x1bu8, 0x5b, 0x32, 0x30, 0x7e], rest),
        // [F10]
        sends(seq![0x5bu8, 0x46, 0x31, 0x30, 0x5d], seq![0x1bu8, 0x5b, 0x32, 0x31, 0x7e], rest),
        // [F11]
        sends(seq![0x5bu8, 0x46, 0x31, 0x31, 0x5d], seq![0x1bu8, 0x5b, 0x32, 0x33, 0x7e], rest),
        // [F12]
        sends(seq![0x5bu8, 0x46, 0x31, 0x32, 0x5d], seq![0x1bu8, 0x5b, 0x32, 0x34, 0x7e], rest),
{
    lemma_key(seq![0x46u8, 0x31], seq![0x1bu8, 0x4f, 0x50], seq![0x5bu8, 0x46, 0x31, 0x5d], rest);
    lemma_key(seq![0x46u8, 0x32], seq![0x1bu8, 0x4f, 0x51], seq![0x5bu8, 0x46, 0x32, 0x5d], rest);
    lemma_key(seq![0x46u8, 0x33], seq![0x1bu8, 0x4f, 0x52], seq![0x5bu8, 0x46, 0x33, 0x5d], rest);
    lemma_key(seq![0x46u8, 0x34], seq![0x1bu8, 0x4f, 0x53], seq![0x5bu8, 0x46, 0x34, 0x5d], rest);
    lemma_key(seq![0x46u8, 0x35], seq![0x1bu8, 0x5b, 0x31, 0x35, 0x7e], seq![0x5bu8, 0x46, 0x35, 0x5d], rest);
    lemma_key(seq![0x46u8, 0x36], seq![0x1bu8, 0x5b, 0x31, 0x37, 0x7e], seq![0x5bu8, 0x46, 0x36, 0x5d], rest);
    lemma_key(seq![0x46u8, 0x37], seq![0x1bu8, 0x5b, 0x31, 0x38, 0x7e], seq![0x5bu8, 0x46, 0x37, 0x5d], rest);
    lemma_key(seq![0x46u8, 0x38], seq![0x1bu8, 0x5b, 0x31, 0x39, 0x7e], seq![0x5bu8, 0x46, 0x38, 0x5d], rest);
    lemma_key(seq![0x46u8, 0x39], seq![0x1bu8, 0x5b, 0x32, 0x30, 0x7e], seq![0x5bu8, 0x46, 0x39, 0x5d], rest);
    lemma_key(seq![0x46u8, 0x31, 0x30], seq![0x1bu8, 0x5b, 0x32, 0x31, 0x7e], seq![0x5bu8, 0x46, 0x31, 0x30, 0x5d], rest);
    lemma_key(seq![0x46u8, 0x31, 0x31], seq![0x1bu8, 0x5b, 0x32, 0x33, 0x7e], seq![0x5bu8, 0x46, 0x31, 0x31, 0x5d], rest);
    lemma_key(seq![0x46u8, 0x31, 0x32], seq![0x1bu8, 0x5b, 0x32, 0x34, 0x7e], seq![0x5bu8, 0x46, 0x31, 0x32, 0x5d], rest);
}

/// What stands at the start and the end of pasted text.
pub proof fn law_pasting(rest: Seq<u8>)
    ensures
        // [PASTE_START]
        sends(seq![0x5bu8, 0x50, 0x41, 0x53, 0x54, 0x45, 0x5f, 0x53, 0x54, 0x41, 0x52, 0x54, 0x5d], seq![0x1bu8, 0x5b, 0x32, 0x30, 0x30, 0x7e], rest),
        // [PASTE_END]
        sends(seq![0x5bu8, 0x50, 0x41, 0x53, 0x54, 0x45, 0x5f, 0x45, 0x4e, 0x44, 0x5d], seq![0x1bu8, 0x5b, 0x32, 0x30, 0x31, 0x7e], rest),
{
    lemma_key(seq![0x50u8, 0x41, 0x53, 0x54, 0x45, 0x5f, 0x53, 0x54, 0x41, 0x52, 0x54], seq![0x1bu8, 0x5b, 0x32, 0x30, 0x30, 0x7e], seq![0x5bu8, 0x50, 0x41, 0x53, 0x54, 0x45, 0x5f, 0x53, 0x54, 0x41, 0x52, 0x54, 0x5d], rest);
    lemma_key(seq![0x50u8, 0x41, 0x53, 0x54, 0x45, 0x5f, 0x45, 0x4e, 0x44], seq![0x1bu8, 0x5b, 0x32, 0x30, 0x31, 0x7e], seq![0x5bu8, 0x50, 0x41, 0x53, 0x54, 0x45, 0x5f, 0x45, 0x4e, 0x44, 0x5d], rest);
}

/// A caret and a letter stand for a control character, whatever follows; a caret in front of
/// anything else stands for itself.
pub proof fn law_carets(b: u8, rest: Seq<u8>)
    ensures
        0x41 <= b <= 0x5a ==> key_bytes(seq![0x5eu8, b] + rest) == seq![(b - 0x40) as u8]
            + key_bytes(rest),
        0x61 <= b <= 0x7a ==> key_bytes(seq![0x5eu8, b] + rest) == seq![(b - 0x60) as u8]
            + key_bytes(rest),
        !(0x41 <= b <= 0x5a || 0x61 <= b <= 0x7a) ==> key_bytes(seq![0x5eu8, b] + rest)
            == seq![0x5eu8] + key_bytes(seq![b] + rest),
{
    let s = seq![0x5eu8, b] + rest;
    assert(s.skip(2) =~= rest);
    assert(s.skip(1) =~= seq![b] + rest);
    assert(s[0] == 0x5e && s[1] == b);
}

/// A name in brackets is translated by itself, whatever follows: so are control keys.
pub proof fn law_control_keys_by_name(letter: u8, rest: Seq<u8>)
    requires
        0x41 <= letter <= 0x5a,
    ensures
        key_bytes(seq![0x5bu8, 0x43, 0x54, 0x52, 0x4c, 0x2b, letter, 0x5d] + rest) == seq![
            (letter - 0x40) as u8,
        ] + key_bytes(rest),
{
    let tag = seq![0x43u8, 0x54, 0x52, 0x4c, 0x2b, letter];
    lemma_table(tag);
    assert(seq![0x5bu8, 0x43, 0x54, 0x52, 0x4c, 0x2b, letter, 0x5d] =~= seq![0x5bu8] + tag + seq![
        0x5du8,
    ]);
    lemma_bracketed(
        tag,
        seq![(letter - 0x40) as u8],
        seq![0x5bu8, 0x43, 0x54, 0x52, 0x4c, 0x2b, letter, 0x5d],
        rest,
    );
}

/// The hexadecimal digit of a number below sixteen, in capitals or not.
pub open spec fn hex_letter(d: int, capital: bool) -> u8 {
    if d < 10 {
        (0x30 + d) as u8
    } else if capital {
        (0x41 + d - 10) as u8
    } else {
        (0x61 + d - 10) as u8
    }
}

/// A backslash, an x and two hexadecimal digits stand for the byte that they denote, whatever
/// follows.
pub proof fn law_hexadecimal_escapes(v: u8, high: bool, low: bool, rest: Seq<u8>)
    ensures
        key_bytes(
            seq![0x5cu8, 0x78, hex_letter(v as int / 16, high), hex_letter(v as int % 16, low)]
                + rest,
        ) == seq![v] + key_bytes(rest),
{
    let a = hex_letter(v as int / 16, high);
    let b = hex_letter(v as int % 16, low);
    let s = seq![0x5cu8, 0x78, a, b] + rest;
    assert(0 <= v as int / 16 < 16);
    assert(hex_digit(a) == Some((v / 16) as u8));
    assert(hex_digit(b) == Some((v % 16) as u8));
    assert((v / 16) * 16 + v % 16 == v);
    assert(s[0] == 0x5c && s[1] == 0x78 && s[2] == a && s[3] == b);
    assert(s.skip(4) =~= rest);
}

/// A backslash in front of n, r or t stands for a newline, a return or a tab; in front of anything
/// but these and x it stands for itself.
pub proof fn law_backslashes(b: u8, rest: Seq<u8>)
    ensures
        key_bytes(seq![0x5cu8, 0x6e] + rest) == seq![0x0au8] + key_bytes(rest),
        key_bytes(seq![0x5cu8, 0x72] + rest) == seq![0x0du8] + key_bytes(rest),
        key_bytes(seq![0x5cu8, 0x74] + rest) == seq![0x09u8] + key_bytes(rest),
        b != 0x6e && b != 0x72 && b != 0x74 && b != 0x78 ==> key_bytes(seq![0x5cu8, b] + rest)
            == seq![0x5cu8] + key_bytes(seq![b] + rest),
{
    let n = seq![0x5cu8, 0x6e] + rest;
    assert(n.skip(2) =~= rest);
    let r = seq![0x5cu8, 0x72] + rest;
    assert(r.skip(2) =~= rest);
    let t = seq![0x5cu8, 0x74] + rest;
    assert(t.skip(2) =~= rest);
    let s = seq![0x5cu8, b] + rest;
    assert(s[0] == 0x5c && s[1] == b);
    assert(s.skip(1) =~= seq![b] + rest);
}

/// A bracket in front of a name with a small letter, and one that is not closed, stand for
/// themselves: there are no such keys.
pub proof fn law_other_brackets_are_kept(tag: Seq<u8>, i: int, rest: Seq<u8>)
    requires
        forall|k: int| 0 <= k < tag.len() ==> #[trigger] tag[k] != 0x5d,
        0 <= i < tag.len(),
        0x61 <= tag[i] <= 0x7a || tag[i] == 0x20,
    ensures
        key_bytes(seq![0x5bu8] + tag + seq![0x5du8] + rest) == seq![0x5bu8] + key_bytes(
            tag + seq![0x5du8] + rest,
        ),
        key_bytes(seq![0x5bu8] + tag) == seq![0x5bu8] + key_bytes(tag),
{
    lemma_table(tag);
    let s = seq![0x5bu8] + tag + seq![0x5du8] + rest;
    let end: int = tag.len() + 1int;
    assert forall|k: int| 0 <= k < end implies s[k] != 0x5d by {
        if k > 0 {
            assert(s[k] == tag[k - 1]);
        }
    }
    assert(s[end] == 0x5d);
    text::lemma_first_index_at(s, |b: u8| b == 0x5d, end);
    assert(s.subrange(1, end) =~= tag);
    assert(table(tag) is None);
    assert(s.skip(1) =~= tag + seq![0x5du8] + rest);
    let open = seq![0x5bu8] + tag;
    assert forall|k: int| 0 <= k < open.len() implies open[k] != 0x5d by {
        if k > 0 {
            assert(open[k] == tag[k - 1]);
        }
    }
    text::lemma_first_index_none(open, |b: u8| b == 0x5d);
    assert(open.skip(1) =~= tag);
}

} // verus!
