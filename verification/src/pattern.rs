//! What the search prompt accepts: hex bytes, quoted ASCII and regular
//! expressions.

use crate::finder;
use crate::finder::check_regex;
use crate::text::{chars_of, text_of};
use vstd::prelude::*;
use vstd::string::*;

verus! {

/// What to search for.
#[derive(Debug)]
pub enum SearchPattern {
    /// These bytes.
    Exact(Vec<u8>),
    /// The regular expression with this text.
    Regex(String),
}

/// A search pattern as contracts speak of it.
pub enum Pattern {
    Exact(Seq<u8>),
    Regex(Seq<char>),
}

impl View for SearchPattern {
    type V = Pattern;

    open spec fn view(&self) -> Pattern {
        match *self {
            SearchPattern::Exact(bytes) => Pattern::Exact(bytes@),
            SearchPattern::Regex(text) => Pattern::Regex(text@),
        }
    }
}

/// The characters that Unicode gives the property White_Space.
pub open spec fn is_whitespace(c: char) -> bool {
    let n = c as u32;
    ||| 0x9 <= n <= 0xd
    ||| n == 0x20
    ||| n == 0x85
    ||| n == 0xa0
    ||| n == 0x1680
    ||| 0x2000 <= n <= 0x200a
    ||| n == 0x2028
    ||| n == 0x2029
    ||| n == 0x202f
    ||| n == 0x205f
    ||| n == 0x3000
}

/// The text without the whitespace at its start.
pub open spec fn trim_start(s: Seq<char>) -> Seq<char>
    decreases s.len(),
{
    if s.len() > 0 && is_whitespace(s[0]) {
        trim_start(s.drop_first())
    } else {
        s
    }
}

/// The text without the whitespace at its end.
pub open spec fn trim_end(s: Seq<char>) -> Seq<char>
    decreases s.len(),
{
    if s.len() > 0 && is_whitespace(s.last()) {
        trim_end(s.drop_last())
    } else {
        s
    }
}

/// The text without the whitespace around it.
pub open spec fn trim(s: Seq<char>) -> Seq<char> {
    trim_end(trim_start(s))
}

/// The text without any whitespace.
pub open spec fn without_whitespace(s: Seq<char>) -> Seq<char> {
    s.filter(|c: char| !is_whitespace(c))
}

/// The text starts and ends with `q`, and these are two characters.
pub open spec fn enclosed(s: Seq<char>, q: char) -> bool {
    s.len() >= 2 && s[0] == q && s.last() == q
}

/// The text between the first and the last character.
pub open spec fn inner(s: Seq<char>) -> Seq<char> {
    s.subrange(1, s.len() - 1)
}

/// The bytes that a character takes in UTF-8.
pub open spec fn utf8_width(c: char) -> nat {
    let n = c as u32;
    if n < 0x80 {
        1
    } else if n < 0x800 {
        2
    } else if n < 0x10000 {
        3
    } else {
        4
    }
}

/// The bytes that a text takes in UTF-8.
pub open spec fn utf8_len(s: Seq<char>) -> nat
    decreases s.len(),
{
    if s.len() == 0 {
        0
    } else {
        utf8_len(s.drop_last()) + utf8_width(s.last())
    }
}

/// The value of a hexadecimal digit in either case.
pub open spec fn hex_value(c: char) -> Option<u8> {
    if '0' <= c <= '9' {
        Some((c as u8 - 48) as u8)
    } else if 'a' <= c <= 'f' {
        Some((c as u8 - 87) as u8)
    } else if 'A' <= c <= 'F' {
        Some((c as u8 - 55) as u8)
    } else {
        None
    }
}

/// The byte that two hexadecimal digits stand for.
pub open spec fn pair_value(a: char, b: char) -> Option<u8> {
    match (hex_value(a), hex_value(b)) {
        (Some(high), Some(low)) => Some((16 * high + low) as u8),
        _ => None,
    }
}

/// The bytes that a run of pairs stands for, or the first character of the
/// first pair that stands for none.
pub open spec fn decode_pairs(s: Seq<char>) -> Result<Seq<u8>, char>
    decreases s.len(),
{
    if s.len() == 0 {
        Ok(seq![])
    } else if s.len() >= 2 && pair_value(s[0], s[1]) is Some {
        match decode_pairs(s.skip(2)) {
            Ok(rest) => Ok(seq![pair_value(s[0], s[1])->0] + rest),
            Err(c) => Err(c),
        }
    } else {
        Err(s[0])
    }
}

/// Taken two bytes of UTF-8 at a time, up to the first pair that stands for no
/// byte, the text comes apart inside a character.
pub open spec fn pairs_cut_character(s: Seq<char>) -> bool
    decreases s.len(),
{
    if s.len() == 0 {
        false
    } else if s.len() >= 2 && pair_value(s[0], s[1]) is Some {
        pairs_cut_character(s.skip(2))
    } else {
        utf8_width(s[0]) > 2 || utf8_width(s[0]) == 1 && s.len() >= 2 && utf8_width(s[1]) > 1
    }
}

/// What the prompt makes of its input: a regular expression between slashes,
/// ASCII text between quotes, and everything else as hex bytes.
pub open spec fn parse_pattern(input: Seq<char>) -> Result<Pattern, Seq<char>> {
    let s = trim(input);
    if s.len() == 0 {
        Err("empty pattern"@)
    } else if enclosed(s, '/') {
        match finder::regex_error(inner(s)) {
            None => Ok(Pattern::Regex(inner(s))),
            Some(e) => Err("regex error: "@ + e),
        }
    } else if enclosed(s, '"') {
        if is_ascii_text(inner(s)) {
            Ok(Pattern::Exact(ascii_bytes(inner(s))))
        } else {
            Err("ASCII string contains non-ASCII characters"@)
        }
    } else if utf8_len(without_whitespace(s)) % 2 != 0 {
        Err("hex string must have an even number of digits"@)
    } else {
        match decode_pairs(without_whitespace(s)) {
            Ok(bytes) => Ok(Pattern::Exact(bytes)),
            Err(c) => Err("invalid hex digit '"@ + seq![c] + "'"@),
        }
    }
}

/// The input is taken as hex bytes, and its pairs come apart inside a
/// character.
pub open spec fn cuts_character(input: Seq<char>) -> bool {
    let s = trim(input);
    &&& s.len() > 0
    &&& !enclosed(s, '/')
    &&& !enclosed(s, '"')
    &&& utf8_len(without_whitespace(s)) % 2 == 0
    &&& pairs_cut_character(without_whitespace(s))
}

/// All characters are ASCII.
pub open spec fn is_ascii_text(s: Seq<char>) -> bool {
    forall|i: int| 0 <= i < s.len() ==> (#[trigger] s[i] as u32) < 128
}

/// The characters of an ASCII text as bytes.
pub open spec fn ascii_bytes(s: Seq<char>) -> Seq<u8> {
    Seq::new(s.len(), |i: int| s[i] as u8)
}

/// A parse result as contracts speak of it.
pub open spec fn parse_view(r: Result<SearchPattern, String>) -> Result<Pattern, Seq<char>> {
    match r {
        Ok(p) => Ok(p@),
        Err(e) => Err(e@),
    }
}

fn whitespace(c: char) -> (r: bool)
    ensures
        r == is_whitespace(c),
{
    let n: u32 = c as u32;
    (0x9 <= n && n <= 0xd) || n == 0x20 || n == 0x85 || n == 0xa0 || n == 0x1680 || (0x2000 <= n
        && n <= 0x200a) || n == 0x2028 || n == 0x2029 || n == 0x202f || n == 0x205f || n == 0x3000
}

/// The bytes that a character takes in UTF-8.
pub(crate) fn width(c: char) -> (r: u8)
    ensures
        r == utf8_width(c),
{
    let n: u32 = c as u32;
    if n < 0x80 {
        1
    } else if n < 0x800 {
        2
    } else if n < 0x10000 {
        3
    } else {
        4
    }
}

/// The value of a hexadecimal digit in either case.
pub fn hex_digit(c: char) -> (r: Option<u8>)
    ensures
        r == hex_value(c),
        r matches Some(v) ==> v < 16,
{
    if '0' <= c && c <= '9' {
        Some(c as u8 - 48)
    } else if 'a' <= c && c <= 'f' {
        Some(c as u8 - 87)
    } else if 'A' <= c && c <= 'F' {
        Some(c as u8 - 55)
    } else {
        None
    }
}

fn hex_pair(a: char, b: char) -> (r: Option<u8>)
    ensures
        r == pair_value(a, b),
{
    match (hex_digit(a), hex_digit(b)) {
        (Some(high), Some(low)) => Some(16 * high + low),
        _ => None,
    }
}

/// The characters of the trimmed text.
fn trimmed_chars(input: &str) -> (v: Vec<char>)
    ensures
        v@ == trim(input@),
{
    let chars = chars_of(input);
    let mut from: usize = 0;
    assert(chars@.skip(0) =~= chars@);
    while from < chars.len() && whitespace(chars[from])
        invariant
            from <= chars@.len(),
            trim_start(chars@) == trim_start(chars@.skip(from as int)),
        decreases chars@.len() - from,
    {
        assert(chars@.skip(from as int).drop_first() =~= chars@.skip(from + 1));
        from = from + 1;
    }
    let ghost start = chars@.skip(from as int);
    assert(trim_start(chars@) == start);
    let mut to: usize = chars.len();
    assert(start =~= chars@.subrange(from as int, to as int));
    while from < to && whitespace(chars[to - 1])
        invariant
            from <= to <= chars@.len(),
            trim_end(start) == trim_end(chars@.subrange(from as int, to as int)),
        decreases to - from,
    {
        assert(chars@.subrange(from as int, to as int).drop_last() =~= chars@.subrange(
            from as int,
            to - 1,
        ));
        to = to - 1;
    }
    let mut v: Vec<char> = Vec::new();
    let mut i: usize = from;
    while i < to
        invariant
            from <= i <= to <= chars@.len(),
            v@ == chars@.subrange(from as int, i as int),
        decreases to - i,
    {
        v.push(chars[i]);
        i = i + 1;
        assert(chars@.subrange(from as int, i as int) =~= chars@.subrange(
            from as int,
            i - 1,
        ).push(chars@[i - 1]));
    }
    v
}

/// The characters that are no whitespace, and whether they take an even number
/// of bytes.
fn packed_chars(s: &Vec<char>) -> (r: (Vec<char>, bool))
    ensures
        r.0@ == without_whitespace(s@),
        r.1 == (utf8_len(without_whitespace(s@)) % 2 == 0),
{
    let mut v: Vec<char> = Vec::new();
    let mut even: bool = true;
    let mut i: usize = 0;
    let ghost keep = |c: char| !is_whitespace(c);
    proof {
        reveal(Seq::filter);
    }
    assert(v@ =~= s@.take(0).filter(keep));
    while i < s.len()
        invariant
            i <= s@.len(),
            keep == (|c: char| !is_whitespace(c)),
            v@ == s@.take(i as int).filter(keep),
            even == (utf8_len(v@) % 2 == 0),
        decreases s@.len() - i,
    {
        proof {
            reveal(Seq::filter);
            assert(s@.take(i + 1).drop_last() =~= s@.take(i as int));
        }
        let c = s[i];
        if !whitespace(c) {
            let ghost before = v@;
            v.push(c);
            assert(v@.drop_last() =~= before);
            if width(c) % 2 == 1 {
                even = !even;
            }
        }
        i = i + 1;
    }
    assert(s@.take(s@.len() as int) =~= s@);
    (v, even)
}

/// Whether the input is taken as hex bytes whose pairs come apart inside a
/// character. Such an input is no pattern and none of the prompt's errors.
pub fn pattern_cuts_character(input: &str) -> (r: bool)
    ensures
        r == cuts_character(input@),
{
    let s = trimmed_chars(input);
    let n: usize = s.len();
    if n == 0 {
        return false;
    }
    if n >= 2 && (s[0] == '/' && s[n - 1] == '/' || s[0] == '"' && s[n - 1] == '"') {
        return false;
    }
    let (packed, even) = packed_chars(&s);
    if !even {
        return false;
    }
    let mut i: usize = 0;
    assert(packed@.skip(0) =~= packed@);
    while i < packed.len()
        invariant
            i <= packed@.len(),
            pairs_cut_character(packed@) == pairs_cut_character(packed@.skip(i as int)),
            packed@ == without_whitespace(s@),
            cuts_character(input@) == pairs_cut_character(packed@),
        decreases packed@.len() - i,
    {
        let rest: usize = packed.len() - i;
        if rest >= 2 && hex_pair(packed[i], packed[i + 1]).is_some() {
            assert(packed@.skip(i as int).skip(2) =~= packed@.skip(i + 2));
            i = i + 2;
        } else {
            return width(packed[i]) > 2 || width(packed[i]) == 1 && rest >= 2 && width(
                packed[i + 1],
            ) > 1;
        }
    }
    false
}

/// Reads the input of the search prompt.
pub fn parse_search_pattern(input: &str) -> (r: Result<SearchPattern, String>)
    requires
        !cuts_character(input@),
    ensures
        parse_view(r) == parse_pattern(input@),
{
    let s = trimmed_chars(input);
    let n: usize = s.len();
    if n == 0 {
        return Err("empty pattern".to_string());
    }
    if n >= 2 && s[0] == '/' && s[n - 1] == '/' {
        let text = text_of(&s, 1, n - 1);
        let error = check_regex(text.as_str());
        return regex_pattern(text, error);
    }
    if n >= 2 && s[0] == '"' && s[n - 1] == '"' {
        return quoted_pattern(&s);
    }
    let (packed, even) = packed_chars(&s);
    if !even {
        return Err("hex string must have an even number of digits".to_string());
    }
    match decode_hex(&packed) {
        Ok(bytes) => Ok(SearchPattern::Exact(bytes)),
        Err(c) => {
            let mut message = "invalid hex digit '".to_string();
            message.push(c);
            message.append("'");
            assert(message@ =~= "invalid hex digit '"@ + seq![c] + "'"@);
            Err(message)
        },
    }
}

/// The pattern of a regular expression that compiles, or what is wrong with
/// one that does not.
pub fn regex_pattern(text: String, error: Option<String>) -> (r: Result<SearchPattern, String>)
    ensures
        error is None ==> parse_view(r) == Ok::<Pattern, Seq<char>>(Pattern::Regex(text@)),
        error matches Some(e) ==> parse_view(r) == Err::<Pattern, Seq<char>>(
            "regex error: "@ + e@,
        ),
{
    match error {
        None => Ok(SearchPattern::Regex(text)),
        Some(e) => {
            let mut message = "regex error: ".to_string();
            message.append(e.as_str());
            Err(message)
        },
    }
}

/// The bytes of the ASCII text between the quotes.
fn quoted_pattern(s: &Vec<char>) -> (r: Result<SearchPattern, String>)
    requires
        s@.len() >= 2,
    ensures
        is_ascii_text(inner(s@)) ==> parse_view(r) == Ok::<Pattern, Seq<char>>(
            Pattern::Exact(ascii_bytes(inner(s@))),
        ),
        !is_ascii_text(inner(s@)) ==> parse_view(r) == Err::<Pattern, Seq<char>>(
            "ASCII string contains non-ASCII characters"@,
        ),
{
    let mut bytes: Vec<u8> = Vec::new();
    let mut i: usize = 1;
    let ghost text = inner(s@);
    while i < s.len() - 1
        invariant
            s@.len() >= 2,
            1 <= i <= s@.len() - 1,
            text == inner(s@),
            bytes@ == ascii_bytes(text.take(i - 1)),
            is_ascii_text(text.take(i - 1)),
        decreases s@.len() - i,
    {
        let n: u32 = s[i] as u32;
        assert(text[i - 1] == s@[i as int]);
        if n >= 128 {
            return Err("ASCII string contains non-ASCII characters".to_string());
        }
        bytes.push(s[i] as u8);
        i = i + 1;
        assert(bytes@ =~= ascii_bytes(text.take(i - 1)));
    }
    assert(text.take(text.len() as int) =~= text);
    Ok(SearchPattern::Exact(bytes))
}

/// The bytes that a run of pairs stands for.
fn decode_hex(s: &Vec<char>) -> (r: Result<Vec<u8>, char>)
    ensures
        r matches Ok(bytes) ==> decode_pairs(s@) == Ok::<Seq<u8>, char>(bytes@),
        r matches Err(c) ==> decode_pairs(s@) == Err::<Seq<u8>, char>(c),
{
    let mut bytes: Vec<u8> = Vec::new();
    let mut i: usize = 0;
    assert(s@.skip(0) =~= s@);
    while i < s.len()
        invariant
            i <= s@.len(),
            decode_pairs(s@) == (match decode_pairs(s@.skip(i as int)) {
                Ok(rest) => Ok::<Seq<u8>, char>(bytes@ + rest),
                Err(c) => Err(c),
            }),
        decreases s@.len() - i,
    {
        let rest: usize = s.len() - i;
        if rest < 2 {
            return Err(s[i]);
        }
        match hex_pair(s[i], s[i + 1]) {
            Some(b) => {
                assert(s@.skip(i as int).skip(2) =~= s@.skip(i + 2));
                let ghost before = bytes@;
                bytes.push(b);
                assert(forall|tail: Seq<u8>|
                    before + (seq![b] + tail) =~= #[trigger] (bytes@ + tail));
                i = i + 2;
            },
            None => {
                return Err(s[i]);
            },
        }
    }
    assert(bytes@ + Seq::<u8>::empty() =~= bytes@);
    Ok(bytes)
}

/// The text is made of the digits of the bytes, two for each and the high one
/// first, in either case.
pub open spec fn is_hex_of(s: Seq<char>, bytes: Seq<u8>) -> bool {
    &&& s.len() == 2 * bytes.len()
    &&& forall|i: int|
        0 <= i < bytes.len() ==> {
            &&& hex_value(s[2 * i]) == Some((#[trigger] bytes[i] / 16) as u8)
            &&& hex_value(s[2 * i + 1]) == Some((bytes[i] % 16) as u8)
        }
}

/// Bytes written in hex are read back as these bytes: with digits in either
/// case, and with whitespace of any kind wherever it stands.
pub proof fn law_hex_is_read_back(input: Seq<char>, bytes: Seq<u8>)
    requires
        bytes.len() > 0,
        is_hex_of(without_whitespace(input), bytes),
    ensures
        parse_pattern(input) == Ok::<Pattern, Seq<char>>(Pattern::Exact(bytes)),
        !cuts_character(input),
{
    let s = trim(input);
    let hex = without_whitespace(input);
    lemma_trim_start(input);
    lemma_trim_end(trim_start(input));
    assert(without_whitespace(s) == hex);
    lemma_hex_decodes(hex, bytes);
    lemma_hex_chars(hex, bytes);
    lemma_narrow_text(hex);
    let keep = |c: char| !is_whitespace(c);
    s.lemma_filter_len(keep);
    assert(s.len() > 0);
    assert(!is_whitespace('/') && !is_whitespace('"'));
    assert(hex_value('/') is None && hex_value('"') is None);
    assert(s[0] != '/' && s[0] != '"') by {
        if s[0] == '/' || s[0] == '"' {
            s.lemma_filter_contains(keep, 0);
            assert(hex.contains(s[0]));
        }
    }
}

proof fn lemma_trim_start(s: Seq<char>)
    ensures
        without_whitespace(trim_start(s)) == without_whitespace(s),
    decreases s.len(),
{
    if s.len() > 0 && is_whitespace(s[0]) {
        let keep = |c: char| !is_whitespace(c);
        let first = seq![s[0]];
        lemma_trim_start(s.drop_first());
        Seq::filter_distributes_over_add(first, s.drop_first(), keep);
        assert(first + s.drop_first() =~= s);
        assert(first.filter(keep) =~= Seq::<char>::empty()) by {
            reveal(Seq::filter);
            reveal_with_fuel(Seq::filter, 2);
            assert(first.drop_last() =~= Seq::<char>::empty());
        }
        assert(first.filter(keep) + s.drop_first().filter(keep) =~= s.drop_first().filter(keep));
    }
}

proof fn lemma_trim_end(s: Seq<char>)
    ensures
        without_whitespace(trim_end(s)) == without_whitespace(s),
    decreases s.len(),
{
    if s.len() > 0 && is_whitespace(s.last()) {
        lemma_trim_end(s.drop_last());
        reveal(Seq::filter);
    }
}

/// The characters are hexadecimal digits.
proof fn lemma_hex_chars(hex: Seq<char>, bytes: Seq<u8>)
    requires
        is_hex_of(hex, bytes),
    ensures
        forall|k: int| 0 <= k < hex.len() ==> hex_value(#[trigger] hex[k]) is Some,
{
    assert forall|k: int| 0 <= k < hex.len() implies hex_value(#[trigger] hex[k]) is Some by {
        let b = bytes[k / 2];
        assert(k == 2 * (k / 2) || k == 2 * (k / 2) + 1);
    }
}

/// Hexadecimal digits take one byte each.
proof fn lemma_narrow_text(hex: Seq<char>)
    requires
        forall|k: int| 0 <= k < hex.len() ==> hex_value(#[trigger] hex[k]) is Some,
    ensures
        utf8_len(hex) == hex.len(),
    decreases hex.len(),
{
    if hex.len() > 0 {
        assert(hex_value(hex[hex.len() - 1]) is Some);
        assert forall|k: int| 0 <= k < hex.len() - 1 implies hex_value(
            #[trigger] hex.drop_last()[k],
        ) is Some by {
            assert(hex_value(hex[k]) is Some);
        }
        lemma_narrow_text(hex.drop_last());
    }
}

proof fn lemma_hex_decodes(hex: Seq<char>, bytes: Seq<u8>)
    requires
        is_hex_of(hex, bytes),
    ensures
        decode_pairs(hex) == Ok::<Seq<u8>, char>(bytes),
        !pairs_cut_character(hex),
    decreases bytes.len(),
{
    if bytes.len() == 0 {
        assert(bytes =~= Seq::<u8>::empty());
    } else {
        let b = bytes[0];
        let rest = bytes.drop_first();
        assert(hex_value(hex[0]) == Some((b / 16) as u8)) by {
            let i: int = 0;
            assert(hex[2 * i] == hex[0] && bytes[i] == b);
        }
        assert(pair_value(hex[0], hex[1]) == Some(b));
        assert forall|i: int| 0 <= i < rest.len() implies {
            &&& hex_value(hex.skip(2)[2 * i]) == Some((#[trigger] rest[i] / 16) as u8)
            &&& hex_value(hex.skip(2)[2 * i + 1]) == Some((rest[i] % 16) as u8)
        } by {
            assert(rest[i] == bytes[i + 1]);
            assert(hex.skip(2)[2 * i] == hex[2 * (i + 1)]);
            assert(hex.skip(2)[2 * i + 1] == hex[2 * (i + 1) + 1]);
        }
        lemma_hex_decodes(hex.skip(2), rest);
        assert(seq![b] + rest =~= bytes);
    }
}

/// ASCII text between quotes is searched for as its bytes.
pub proof fn law_quoted_text_is_read_back(s: Seq<char>)
    requires
        is_ascii_text(s),
    ensures
        parse_pattern(seq!['"'] + s + seq!['"']) == Ok::<Pattern, Seq<char>>(
            Pattern::Exact(ascii_bytes(s)),
        ),
        !cuts_character(seq!['"'] + s + seq!['"']),
{
    let q = seq!['"'] + s + seq!['"'];
    reveal_with_fuel(trim_start, 2);
    reveal_with_fuel(trim_end, 2);
    assert(q[0] == '"' && q.last() == '"');
    assert(inner(q) =~= s);
}

/// Text between slashes is a regular expression where it compiles, and an error
/// that says why where it does not.
pub proof fn law_slashes_make_a_regex(s: Seq<char>)
    ensures
        parse_pattern(seq!['/'] + s + seq!['/']) == (match finder::regex_error(s) {
            None => Ok::<Pattern, Seq<char>>(Pattern::Regex(s)),
            Some(e) => Err("regex error: "@ + e),
        }),
        !cuts_character(seq!['/'] + s + seq!['/']),
{
    let q = seq!['/'] + s + seq!['/'];
    reveal_with_fuel(trim_start, 2);
    reveal_with_fuel(trim_end, 2);
    assert(q[0] == '/' && q.last() == '/');
    assert(inner(q) =~= s);
}

} // verus!
