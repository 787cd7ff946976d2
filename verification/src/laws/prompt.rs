//! What the search prompt takes for what.

use crate::finder;
use crate::pattern;
use crate::pattern::Pattern;
use vstd::prelude::*;

verus! {

/// The digits are 0 to 9 and A to F in either case, and nothing else is one.
pub proof fn law_hex_digits(c: char, v: u8)
    ensures
        pattern::hex_value(c) == Some(v) <==> {
            &&& v < 16
            &&& c == "0123456789ABCDEF"@[v as int] || c == "0123456789abcdef"@[v as int]
        },
{
    reveal_strlit("0123456789ABCDEF");
    reveal_strlit("0123456789abcdef");
}

/// Whitespace is what Unicode says it is.
pub proof fn law_whitespace(c: char)
    ensures
        pattern::is_whitespace(c) <==> {
            ||| c == ' '
            ||| c == '\t'
            ||| c == '\n'
            ||| c == '\u{b}'
            ||| c == '\u{c}'
            ||| c == '\r'
            ||| c == '\u{85}'
            ||| c == '\u{a0}'
            ||| c == '\u{1680}'
            ||| '\u{2000}' <= c <= '\u{200a}'
            ||| c == '\u{2028}'
            ||| c == '\u{2029}'
            ||| c == '\u{202f}'
            ||| c == '\u{205f}'
            ||| c == '\u{3000}'
        },
{
}

/// A character takes one to four bytes in UTF-8, and a text as many as its
/// characters together.
pub proof fn law_utf8_lengths(s: Seq<char>, c: char)
    ensures
        pattern::utf8_len(Seq::empty()) == 0,
        pattern::utf8_len(s.push(c)) == pattern::utf8_len(s) + (if c <= '\u{7f}' {
            1nat
        } else if c <= '\u{7ff}' {
            2
        } else if c <= '\u{ffff}' {
            3
        } else {
            4
        }),
{
    assert(s.push(c).drop_last() =~= s);
}

/// Taking the whitespace out leaves the other characters in their order.
pub proof fn law_whitespace_goes(s: Seq<char>, c: char)
    ensures
        pattern::without_whitespace(Seq::empty()) == Seq::<char>::empty(),
        pattern::is_whitespace(c) ==> pattern::without_whitespace(s.push(c))
            == pattern::without_whitespace(s),
        !pattern::is_whitespace(c) ==> pattern::without_whitespace(s.push(c))
            == pattern::without_whitespace(s).push(c),
{
    reveal(Seq::filter);
    assert(s.push(c).drop_last() =~= s);
}

/// A blank input is no pattern.
pub proof fn law_blank_input(input: Seq<char>)
    requires
        forall|i: int| 0 <= i < input.len() ==> pattern::is_whitespace(#[trigger] input[i]),
    ensures
        pattern::parse_pattern(input) == Err::<Pattern, Seq<char>>("empty pattern"@),
        !pattern::cuts_character(input),
{
    lemma_spaces_before(input, Seq::empty());
    assert(input + Seq::<char>::empty() =~= input);
}

/// Whitespace around an input makes no difference.
pub proof fn law_whitespace_around(before: Seq<char>, s: Seq<char>, after: Seq<char>)
    requires
        s.len() > 0,
        !pattern::is_whitespace(s[0]),
        !pattern::is_whitespace(s.last()),
        forall|i: int| 0 <= i < before.len() ==> pattern::is_whitespace(#[trigger] before[i]),
        forall|i: int| 0 <= i < after.len() ==> pattern::is_whitespace(#[trigger] after[i]),
    ensures
        pattern::parse_pattern(before + s + after) == pattern::parse_pattern(s),
        pattern::cuts_character(before + s + after) == pattern::cuts_character(s),
{
    lemma_trimmed(before, s, after);
    lemma_trimmed(Seq::empty(), s, Seq::empty());
    assert(Seq::<char>::empty() + s + Seq::<char>::empty() =~= s);
}

proof fn lemma_trimmed(before: Seq<char>, s: Seq<char>, after: Seq<char>)
    requires
        s.len() > 0,
        !pattern::is_whitespace(s[0]),
        !pattern::is_whitespace(s.last()),
        forall|i: int| 0 <= i < before.len() ==> pattern::is_whitespace(#[trigger] before[i]),
        forall|i: int| 0 <= i < after.len() ==> pattern::is_whitespace(#[trigger] after[i]),
    ensures
        pattern::trim(before + s + after) == s,
{
    lemma_spaces_before(before, s + after);
    lemma_spaces_after(s, after);
    assert(before + (s + after) =~= before + s + after);
    assert((s + after)[0] == s[0]);
}

proof fn lemma_spaces_before(before: Seq<char>, rest: Seq<char>)
    requires
        forall|i: int| 0 <= i < before.len() ==> pattern::is_whitespace(#[trigger] before[i]),
    ensures
        pattern::trim_start(before + rest) == pattern::trim_start(rest),
    decreases before.len(),
{
    if before.len() == 0 {
        assert(before + rest =~= rest);
    } else {
        assert(pattern::is_whitespace(before[0]));
        assert((before + rest)[0] == before[0]);
        assert((before + rest).drop_first() =~= before.drop_first() + rest);
        lemma_spaces_before(before.drop_first(), rest);
    }
}

proof fn lemma_spaces_after(s: Seq<char>, after: Seq<char>)
    requires
        s.len() > 0,
        !pattern::is_whitespace(s.last()),
        forall|i: int| 0 <= i < after.len() ==> pattern::is_whitespace(#[trigger] after[i]),
    ensures
        pattern::trim_end(s + after) == s,
    decreases after.len(),
{
    if after.len() == 0 {
        assert(s + after =~= s);
    } else {
        assert(pattern::is_whitespace(after.last()));
        assert((s + after).last() == after.last());
        assert((s + after).drop_last() =~= s + after.drop_last());
        lemma_spaces_after(s, after.drop_last());
    }
}

/// Between slashes stands a regular expression; it is refused where it does not
/// compile, with the reason.
pub proof fn law_slashes(s: Seq<char>, text: Seq<char>)
    requires
        s.len() == text.len() + 2,
        s[0] == '/',
        s[s.len() - 1] == '/',
        forall|i: int| 0 <= i < text.len() ==> #[trigger] text[i] == s[i + 1],
    ensures
        finder::regex_error(text) is None ==> pattern::parse_pattern(s) == Ok::<
            Pattern,
            Seq<char>,
        >(Pattern::Regex(text)),
        finder::regex_error(text) matches Some(e) ==> pattern::parse_pattern(s) == Err::<
            Pattern,
            Seq<char>,
        >("regex error: "@ + e),
        !pattern::cuts_character(s),
{
    assert(s =~= seq!['/'] + text + seq!['/']);
    pattern::law_slashes_make_a_regex(text);
}

/// Between quotes stands ASCII text, which is searched for byte by byte; text
/// that is not ASCII is refused.
pub proof fn law_quotes(s: Seq<char>)
    requires
        s.len() >= 2,
        s[0] == '"',
        s[s.len() - 1] == '"',
    ensures
        !pattern::cuts_character(s),
        (forall|i: int| 1 <= i < s.len() - 1 ==> (#[trigger] s[i] as u32) < 128) ==> {
            &&& pattern::parse_pattern(s) matches Ok(Pattern::Exact(bytes))
            &&& bytes.len() == s.len() - 2
            &&& forall|i: int|
                0 <= i < bytes.len() ==> #[trigger] bytes[i] as int == s[i + 1] as int
        },
        (exists|i: int| 1 <= i < s.len() - 1 && (#[trigger] s[i] as u32) >= 128)
            ==> pattern::parse_pattern(s) == Err::<Pattern, Seq<char>>(
            "ASCII string contains non-ASCII characters"@,
        ),
{
    reveal_with_fuel(pattern::trim_start, 2);
    reveal_with_fuel(pattern::trim_end, 2);
    let text = pattern::inner(s);
    assert(pattern::trim(s) == s);
    if forall|i: int| 1 <= i < s.len() - 1 ==> (#[trigger] s[i] as u32) < 128 {
        assert forall|i: int| 0 <= i < text.len() implies (#[trigger] text[i] as u32) < 128 by {
            assert((s[i + 1] as u32) < 128);
        }
        let bytes = pattern::ascii_bytes(text);
        assert forall|i: int| 0 <= i < bytes.len() implies #[trigger] bytes[i] as int == s[i
            + 1] as int by {
            assert((text[i] as u32) < 128);
            lemma_ascii_char(text[i]);
        }
    }
    if exists|i: int| 1 <= i < s.len() - 1 && (#[trigger] s[i] as u32) >= 128 {
        let i = choose|i: int| 1 <= i < s.len() - 1 && (#[trigger] s[i] as u32) >= 128;
        assert(text[i - 1] == s[i]);
    }
}

proof fn lemma_ascii_char(c: char)
    requires
        (c as u32) < 128,
    ensures
        (c as u8) as int == c as int,
{
}

/// Everything else is hex: it is accepted exactly where the characters that are
/// no whitespace are the digits of bytes, two for each, and searched for as these
/// bytes. An odd number of bytes is refused as such.
pub proof fn law_everything_else_is_hex(s: Seq<char>, bytes: Seq<u8>)
    requires
        s.len() > 0,
        !pattern::is_whitespace(s[0]),
        !pattern::is_whitespace(s.last()),
        !(s.len() >= 2 && s[0] == '/' && s.last() == '/'),
        !(s.len() >= 2 && s[0] == '"' && s.last() == '"'),
    ensures
        pattern::parse_pattern(s) == Ok::<Pattern, Seq<char>>(Pattern::Exact(bytes))
            <==> pattern::is_hex_of(pattern::without_whitespace(s), bytes),
        !(pattern::parse_pattern(s) matches Ok(Pattern::Regex(_))),
        pattern::utf8_len(pattern::without_whitespace(s)) % 2 == 1 ==> pattern::parse_pattern(s)
            == Err::<Pattern, Seq<char>>("hex string must have an even number of digits"@),
{
    reveal_with_fuel(pattern::trim_start, 2);
    reveal_with_fuel(pattern::trim_end, 2);
    assert(pattern::trim(s) == s);
    let hex = pattern::without_whitespace(s);
    let keep = |c: char| !pattern::is_whitespace(c);
    s.lemma_filter_contains(keep, 0);
    assert(hex.len() > 0);
    if pattern::parse_pattern(s) == Ok::<Pattern, Seq<char>>(Pattern::Exact(bytes)) {
        lemma_decoded(hex, bytes);
    }
    if pattern::is_hex_of(hex, bytes) {
        pattern::law_hex_is_read_back(s, bytes);
    }
}

proof fn lemma_decoded(hex: Seq<char>, bytes: Seq<u8>)
    requires
        pattern::decode_pairs(hex) == Ok::<Seq<u8>, char>(bytes),
    ensures
        pattern::is_hex_of(hex, bytes),
    decreases hex.len(),
{
    if hex.len() > 0 {
        let rest = pattern::decode_pairs(hex.skip(2))->Ok_0;
        let b = pattern::pair_value(hex[0], hex[1])->0;
        lemma_decoded(hex.skip(2), rest);
        assert(bytes == seq![b] + rest);
        assert forall|i: int| 0 <= i < bytes.len() implies {
            &&& pattern::hex_value(hex[2 * i]) == Some((#[trigger] bytes[i] / 16) as u8)
            &&& pattern::hex_value(hex[2 * i + 1]) == Some((bytes[i] % 16) as u8)
        } by {
            if i == 0 {
                assert(hex[2 * i] == hex[0] && hex[2 * i + 1] == hex[1]);
            } else {
                assert(bytes[i] == rest[i - 1]);
                assert(hex[2 * i] == hex.skip(2)[2 * (i - 1)]);
                assert(hex[2 * i + 1] == hex.skip(2)[2 * (i - 1) + 1]);
            }
        }
    }
}

/// A hex input with a wrong digit is refused with the first character of the
/// first pair that is not made of two digits; `k` is the number of that pair. It
/// comes apart inside a character exactly where the two bytes of that pair do
/// not end with one.
pub proof fn law_wrong_digit_is_named(s: Seq<char>, k: int)
    requires
        s.len() > 0,
        !pattern::is_whitespace(s[0]),
        !pattern::is_whitespace(s.last()),
        !(s.len() >= 2 && s[0] == '/' && s.last() == '/'),
        !(s.len() >= 2 && s[0] == '"' && s.last() == '"'),
        pattern::utf8_len(pattern::without_whitespace(s)) % 2 == 0,
        0 <= 2 * k < pattern::without_whitespace(s).len(),
        forall|i: int|
            0 <= i < 2 * k ==> pattern::hex_value(#[trigger] pattern::without_whitespace(s)[i])
                is Some,
        pattern::hex_value(pattern::without_whitespace(s)[2 * k]) is None || 2 * k + 1
            >= pattern::without_whitespace(s).len() || pattern::hex_value(
            pattern::without_whitespace(s)[2 * k + 1],
        ) is None,
    ensures
        pattern::parse_pattern(s) == Err::<Pattern, Seq<char>>(
            "invalid hex digit '"@ + seq![pattern::without_whitespace(s)[2 * k]] + "'"@,
        ),
        ({
            let hex = pattern::without_whitespace(s);
            pattern::cuts_character(s) <==> {
                ||| (hex[2 * k] as u32) >= 0x800
                ||| (hex[2 * k] as u32) < 0x80 && 2 * k + 1 < hex.len() && (hex[2 * k + 1] as u32)
                    >= 0x80
            }
        }),
{
    reveal_with_fuel(pattern::trim_start, 2);
    reveal_with_fuel(pattern::trim_end, 2);
    assert(pattern::trim(s) == s);
    lemma_wrong_pair(pattern::without_whitespace(s), k);
}

proof fn lemma_wrong_pair(hex: Seq<char>, k: int)
    requires
        0 <= 2 * k < hex.len(),
        forall|i: int| 0 <= i < 2 * k ==> pattern::hex_value(#[trigger] hex[i]) is Some,
        pattern::hex_value(hex[2 * k]) is None || 2 * k + 1 >= hex.len() || pattern::hex_value(
            hex[2 * k + 1],
        ) is None,
    ensures
        pattern::decode_pairs(hex) == Err::<Seq<u8>, char>(hex[2 * k]),
        pattern::pairs_cut_character(hex) <==> {
            ||| (hex[2 * k] as u32) >= 0x800
            ||| (hex[2 * k] as u32) < 0x80 && 2 * k + 1 < hex.len() && (hex[2 * k + 1] as u32)
                >= 0x80
        },
    decreases k,
{
    if k > 0 {
        let rest = hex.skip(2);
        assert(pattern::hex_value(hex[0]) is Some && pattern::hex_value(hex[1]) is Some);
        assert(rest[2 * (k - 1)] == hex[2 * k]);
        assert(2 * k + 1 < hex.len() ==> rest[2 * (k - 1) + 1] == hex[2 * k + 1]);
        assert forall|i: int| 0 <= i < 2 * (k - 1) implies pattern::hex_value(
            #[trigger] rest[i],
        ) is Some by {
            assert(rest[i] == hex[i + 2]);
        }
        lemma_wrong_pair(rest, k - 1);
    }
}

/// An input of ASCII characters never comes apart inside a character.
pub proof fn law_ascii_input_is_not_cut(input: Seq<char>)
    requires
        forall|i: int| 0 <= i < input.len() ==> (#[trigger] input[i] as u32) < 128,
    ensures
        !pattern::cuts_character(input),
{
    lemma_trim_start_is_part(input);
    lemma_trim_end_is_part(pattern::trim_start(input));
    let s = pattern::trim(input);
    let hex = pattern::without_whitespace(s);
    let keep = |c: char| !pattern::is_whitespace(c);
    assert forall|i: int| 0 <= i < hex.len() implies (#[trigger] hex[i] as u32) < 128 by {
        assert(s.filter(keep).contains(hex[i]));
        s.lemma_filter_contains_rev(keep, hex[i]);
        assert(s.contains(hex[i]));
    }
    lemma_ascii_pairs(hex);
}

proof fn lemma_trim_start_is_part(s: Seq<char>)
    requires
        pattern::is_ascii_text(s),
    ensures
        pattern::is_ascii_text(pattern::trim_start(s)),
    decreases s.len(),
{
    if s.len() > 0 && pattern::is_whitespace(s[0]) {
        let t = s.drop_first();
        assert forall|i: int| 0 <= i < t.len() implies (#[trigger] t[i] as u32) < 128 by {
            assert(t[i] == s[i + 1]);
        }
        lemma_trim_start_is_part(t);
    }
}

proof fn lemma_trim_end_is_part(s: Seq<char>)
    requires
        pattern::is_ascii_text(s),
    ensures
        pattern::is_ascii_text(pattern::trim_end(s)),
    decreases s.len(),
{
    if s.len() > 0 && pattern::is_whitespace(s.last()) {
        let t = s.drop_last();
        assert forall|i: int| 0 <= i < t.len() implies (#[trigger] t[i] as u32) < 128 by {
            assert(t[i] == s[i]);
        }
        lemma_trim_end_is_part(t);
    }
}

proof fn lemma_ascii_pairs(hex: Seq<char>)
    requires
        forall|i: int| 0 <= i < hex.len() ==> (#[trigger] hex[i] as u32) < 128,
    ensures
        !pattern::pairs_cut_character(hex),
    decreases hex.len(),
{
    if hex.len() > 0 {
        assert((hex[0] as u32) < 128);
        if hex.len() >= 2 {
            assert((hex[1] as u32) < 128);
            lemma_ascii_pairs(hex.skip(2));
        }
    }
}

} // verus!
