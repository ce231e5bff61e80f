//! Text made of bytes: lexemes as strings, and numbers in decimal.
use vstd::prelude::*;
use vstd::string::*;
use vstd::utf8::*;

verus! {

/// The characters that a run of bytes stands for, one character per byte.
pub open spec fn text_of(bytes: Seq<u8>) -> Seq<char> {
    Seq::new(bytes.len(), |i: int| bytes[i] as char)
}

/// True when every byte is an ASCII code.
pub open spec fn all_ascii(bytes: Seq<u8>) -> bool {
    forall|i: int| 0 <= i < bytes.len() ==> #[trigger] bytes[i] < 128
}

/// Appends one character to a string.
///
/// Trusted: this is `String::push`, which adds the given character at the
/// end and leaves what was there in place.
#[verifier::external_body]
fn push_char(s: &mut String, c: char)
    ensures
        final(s)@ == old(s)@.push(c),
{
    s.push(c)
}

/// Appends to `s` the characters that `bytes` stand for.
pub fn append_bytes(s: &mut String, bytes: &[u8])
    ensures
        final(s)@ == old(s)@ + text_of(bytes@),
{
    let mut i: usize = 0;
    while i < bytes.len()
        invariant
            i <= bytes@.len(),
            s@ == old(s)@ + text_of(bytes@.subrange(0, i as int)),
        decreases bytes@.len() - i,
    {
        push_char(s, bytes[i] as char);
        i = i + 1;
        assert(s@ =~= old(s)@ + text_of(bytes@.subrange(0, i as int)));
    }
    assert(bytes@.subrange(0, i as int) =~= bytes@);
}

/// The string that `bytes` stand for, one character per byte.
pub fn string_of_bytes(bytes: &[u8]) -> (s: String)
    ensures
        s@ == text_of(bytes@),
{
    let mut s = String::new();
    append_bytes(&mut s, bytes);
    assert(s@ =~= text_of(bytes@));
    s
}

/// ASCII bytes are their own UTF-8 encoding.
pub proof fn lemma_ascii_is_utf8(bytes: Seq<u8>)
    requires
        all_ascii(bytes),
    ensures
        is_ascii_chars(text_of(bytes)),
        encode_utf8(text_of(bytes)) == bytes,
        decode_utf8(bytes) == text_of(bytes),
{
    let cs = text_of(bytes);
    assert forall|i: int| 0 <= i < cs.len() implies '\0' <= #[trigger] cs[i] <= '\u{7f}' by {
        assert(bytes[i] < 128);
    }
    is_ascii_chars_encode_utf8(cs);
    assert forall|i: int| 0 <= i < bytes.len() implies encode_utf8(cs)[i] == bytes[i] by {
        assert(bytes[i] < 128);
        assert(cs[i] as u8 == encode_utf8(cs)[i]);
    }
    assert(encode_utf8(cs) =~= bytes);
    encode_utf8_decode_utf8(cs);
}

/// Tells whether ASCII bytes spell the given word.
pub(crate) fn bytes_spell(bytes: &[u8], word: &str) -> (r: bool)
    requires
        all_ascii(bytes@),
    ensures
        r == (text_of(bytes@) == word@),
{
    let w = word.as_bytes();
    proof {
        lemma_ascii_is_utf8(bytes@);
        encode_utf8_decode_utf8(word@);
    }
    if w.len() != bytes.len() {
        return false;
    }
    let mut i: usize = 0;
    while i < bytes.len()
        invariant
            i <= bytes@.len(),
            w@.len() == bytes@.len(),
            w@.subrange(0, i as int) == bytes@.subrange(0, i as int),
            w@ == encode_utf8(word@),
            encode_utf8(text_of(bytes@)) == bytes@,
        decreases bytes@.len() - i,
    {
        if w[i] != bytes[i] {
            return false;
        }
        i = i + 1;
        assert(w@.subrange(0, i as int) =~= w@.subrange(0, i - 1).push(w@[i - 1]));
        assert(bytes@.subrange(0, i as int) =~= bytes@.subrange(0, i - 1).push(bytes@[i - 1]));
    }
    assert(w@ =~= w@.subrange(0, i as int));
    assert(bytes@ =~= bytes@.subrange(0, i as int));
    true
}

/// The character of a decimal digit.
pub open spec fn digit_char(d: nat) -> char
    recommends
        d < 10,
{
    ((0x30 + d) as u8) as char
}

/// A number in decimal, without sign or leading zeros.
pub open spec fn decimal(n: nat) -> Seq<char>
    decreases n,
{
    if n < 10 {
        seq![digit_char(n)]
    } else {
        decimal(n / 10).push(digit_char(n % 10))
    }
}

/// Appends a number in decimal.
pub fn append_decimal(s: &mut String, n: usize)
    ensures
        final(s)@ == old(s)@ + decimal(n as nat),
    decreases n,
{
    if n >= 10 {
        append_decimal(s, n / 10);
    }
    let d: u8 = (n % 10) as u8;
    push_char(s, (0x30 + d) as char);
    assert(s@ =~= old(s)@ + decimal(n as nat));
}

/// The digit that a character shows, if it is a decimal digit.
pub open spec fn digit_value(c: char) -> Option<nat> {
    if '0' <= c <= '9' {
        Some((c as nat - 0x30) as nat)
    } else {
        None
    }
}

/// The number that a text shows in decimal: `None` for the empty text and
/// for one that holds anything but digits.
pub open spec fn decimal_value(s: Seq<char>) -> Option<nat>
    decreases s.len(),
{
    if s.len() == 0 {
        None
    } else {
        match digit_value(s.last()) {
            None => None,
            Some(d) => if s.len() == 1 {
                Some(d)
            } else {
                match decimal_value(s.drop_last()) {
                    None => None,
                    Some(v) => Some(v * 10 + d),
                }
            },
        }
    }
}

/// A text that shows a number is made of digits, and each of its beginnings
/// shows a number that is no larger.
pub proof fn lemma_decimal_prefix(s: Seq<char>, i: int)
    requires
        1 <= i <= s.len(),
        decimal_value(s) is Some,
    ensures
        digit_value(s[i - 1]) is Some,
        decimal_value(s.take(i)) is Some,
        decimal_value(s.take(i))->Some_0 <= decimal_value(s)->Some_0,
    decreases s.len(),
{
    if i == s.len() {
        assert(s.take(i) =~= s);
    } else {
        lemma_decimal_prefix(s.drop_last(), i);
        assert(s.drop_last().take(i) =~= s.take(i));
    }
}

/// The word that a text shows in decimal: `None` for a text that shows no
/// number and for a number that 32 bits cannot hold.
pub open spec fn word_value(s: Seq<char>) -> Option<u32> {
    match decimal_value(s) {
        Some(v) => if v <= u32::MAX {
            Some(v as u32)
        } else {
            None
        },
        None => None,
    }
}

/// Reads a number of at most 32 bits in decimal.
pub fn parse_u32(s: &str) -> (r: Option<u32>)
    ensures
        r == word_value(s@),
{
    let bytes = s.as_bytes();
    let n = bytes.len();
    if n == 0 {
        proof {
            if s@.len() > 0 {
                // a character takes at least one byte
                encode_utf8_decode_utf8(s@);
                assert(bytes@ =~= Seq::<u8>::empty());
                assert(decode_utf8(bytes@).len() == 0);
            }
        }
        return None;
    }
    let mut i: usize = 0;
    let mut acc: u64 = 0;
    while i < n
        invariant
            n == bytes@.len(),
            bytes@ == encode_utf8(s@),
            i <= n,
            acc <= u32::MAX,
            all_ascii(bytes@.subrange(0, i as int)),
            i > 0 ==> decimal_value(text_of(bytes@.subrange(0, i as int))) == Some(acc as nat),
            i == 0 ==> acc == 0,
        decreases n - i,
    {
        let b = bytes[i];
        if b < 0x30 || b > 0x39 {
            proof {
                lemma_not_decimal(s@, i as int);
            }
            return None;
        }
        let next: u64 = acc * 10 + (b - 0x30) as u64;
        proof {
            let before = bytes@.subrange(0, i as int);
            let now = bytes@.subrange(0, i + 1);
            assert(now.drop_last() =~= before);
            assert(text_of(now).drop_last() =~= text_of(before));
            assert(text_of(now).last() == b as char);
            assert(all_ascii(now)) by {
                assert forall|k: int| 0 <= k < now.len() implies #[trigger] now[k] < 128 by {
                    if k < i {
                        assert(before[k] < 128);
                    }
                }
            }
            assert(decimal_value(text_of(now)) == Some(next as nat));
        }
        if next > u32::MAX as u64 {
            proof {
                lemma_too_large(s@, i + 1, next as nat);
            }
            return None;
        }
        acc = next;
        i = i + 1;
    }
    proof {
        assert(bytes@.subrange(0, n as int) =~= bytes@);
        lemma_ascii_is_utf8(bytes@);
        encode_utf8_decode_utf8(s@);
    }
    Some(acc as u32)
}

/// A text whose encoding holds, after ASCII bytes, a byte that is no digit
/// shows no number.
proof fn lemma_not_decimal(s: Seq<char>, i: int)
    requires
        0 <= i < encode_utf8(s).len(),
        all_ascii(encode_utf8(s).subrange(0, i)),
        !(0x30 <= encode_utf8(s)[i] <= 0x39),
    ensures
        decimal_value(s) is None,
{
    let bytes = encode_utf8(s);
    if decimal_value(s) is Some {
        assert forall|k: int| 0 <= k < s.len() implies '\0' <= #[trigger] s[k] <= '\u{7f}' by {
            lemma_decimal_prefix(s, k + 1);
        }
        is_ascii_chars_encode_utf8(s);
        lemma_decimal_prefix(s, i + 1);
        assert(s[i] as u8 == bytes[i]);
    }
}

/// A text whose encoding begins with ASCII bytes that show a number shows
/// no smaller number.
proof fn lemma_too_large(s: Seq<char>, i: int, v: nat)
    requires
        1 <= i <= encode_utf8(s).len(),
        all_ascii(encode_utf8(s).subrange(0, i)),
        decimal_value(text_of(encode_utf8(s).subrange(0, i))) == Some(v),
    ensures
        decimal_value(s) matches Some(w) ==> v <= w,
{
    let bytes = encode_utf8(s);
    if decimal_value(s) is Some {
        assert forall|k: int| 0 <= k < s.len() implies '\0' <= #[trigger] s[k] <= '\u{7f}' by {
            lemma_decimal_prefix(s, k + 1);
        }
        is_ascii_chars_encode_utf8(s);
        lemma_decimal_prefix(s, i);
        assert(text_of(bytes.subrange(0, i)) =~= s.take(i)) by {
            assert forall|k: int| 0 <= k < i implies text_of(bytes.subrange(0, i))[k] == s.take(
                i,
            )[k] by {
                assert(s[k] as u8 == bytes[k]);
            }
        }
    }
}

} // verus!
