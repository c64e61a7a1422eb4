use vstd::prelude::*;

verus! {

/// Whether a character is white space in the sense of `char::is_whitespace`.
pub uninterp spec fn is_whitespace(c: char) -> bool;

/// Whether a character is a letter or a digit in the sense of `char::is_alphanumeric`.
pub uninterp spec fn is_alphanumeric(c: char) -> bool;

/// The characters that `char::to_uppercase` gives for a character.
pub uninterp spec fn uppercase_of(c: char) -> Seq<char>;

/// The characters that `str::to_lowercase` gives for a text.
pub uninterp spec fn lowercase_of(text: Seq<char>) -> Seq<char>;

/// Compares two string slices: `str::eq` of the standard library, which holds
/// exactly when both slices spell the same characters.
#[verifier::external_body]
pub(crate) fn same_text(a: &str, b: &str) -> (same: bool)
    ensures
        same == (a@ == b@),
{
    a == b
}

/// Appends one character to a string: `String::push` of the standard library.
#[verifier::external_body]
fn push_char(s: &mut String, c: char)
    ensures
        final(s)@ == old(s)@.push(c),
{
    s.push(c)
}

/// Asks `char::is_whitespace`; the answer is what `is_whitespace` names.
#[verifier::external_body]
fn whitespace(c: char) -> (r: bool)
    ensures
        r == is_whitespace(c),
{
    c.is_whitespace()
}

/// Asks `char::is_alphanumeric`; the answer is what `is_alphanumeric` names.
#[verifier::external_body]
fn alphanumeric(c: char) -> (r: bool)
    ensures
        r == is_alphanumeric(c),
{
    c.is_alphanumeric()
}

/// Collects what `char::to_uppercase` yields for `c`; the characters are what
/// `uppercase_of` names.
#[verifier::external_body]
fn uppercase(c: char) -> (r: Vec<char>)
    ensures
        r@ == uppercase_of(c),
{
    c.to_uppercase().collect()
}

/// Passes the characters through `str::to_lowercase`; the result is what
/// `lowercase_of` names.
#[verifier::external_body]
fn lowercase(text: &Vec<char>) -> (r: Vec<char>)
    ensures
        r@ == lowercase_of(text@),
{
    text.iter().collect::<String>().to_lowercase().chars().collect()
}

/// The characters of a string slice.
pub fn chars_of(text: &str) -> (chars: Vec<char>)
    ensures
        chars@ == text@,
{
    broadcast use vstd::string::axiom_spec_iter;

    let mut chars: Vec<char> = Vec::new();
    for c in it: text.chars()
        invariant
            it.seq() == text@,
            chars@ == text@.take(it.index()),
    {
        chars.push(c);
        assert(text@.take(it.index() + 1) =~= text@.take(it.index()).push(c));
    }
    assert(text@.take(text@.len() as int) =~= text@);
    chars
}

/// The string that spells the given characters.
pub fn string_of(chars: &Vec<char>) -> (text: String)
    ensures
        text@ == chars@,
{
    let mut text = String::new();
    let mut i: usize = 0;
    while i < chars.len()
        invariant
            i <= chars.len(),
            text@ == chars@.take(i as int),
        decreases chars.len() - i,
    {
        push_char(&mut text, chars[i]);
        assert(chars@.take(i + 1) =~= chars@.take(i as int).push(chars@[i as int]));
        i += 1;
    }
    assert(chars@.take(chars.len() as int) =~= chars@);
    text
}

/// `text` without the white space it begins with.
pub open spec fn trim_start(text: Seq<char>) -> Seq<char>
    decreases text.len(),
{
    if text.len() > 0 && is_whitespace(text[0]) {
        trim_start(text.skip(1))
    } else {
        text
    }
}

/// `text` without the white space it ends with.
pub open spec fn trim_end(text: Seq<char>) -> Seq<char>
    decreases text.len(),
{
    if text.len() > 0 && is_whitespace(text.last()) {
        trim_end(text.drop_last())
    } else {
        text
    }
}

/// `text` without the white space at either end.
pub open spec fn trimmed(text: Seq<char>) -> Seq<char> {
    trim_end(trim_start(text))
}

/// `text` with every run of white space replaced by one space character.
pub open spec fn collapsed(text: Seq<char>) -> Seq<char>
    decreases text.len(),
{
    if text.len() == 0 {
        text
    } else if !is_whitespace(text.last()) {
        collapsed(text.drop_last()).push(text.last())
    } else if text.len() > 1 && is_whitespace(text[text.len() - 2]) {
        collapsed(text.drop_last())
    } else {
        collapsed(text.drop_last()).push(' ')
    }
}

/// `text` with its first character in upper case.
pub open spec fn capitalized(text: Seq<char>) -> Seq<char> {
    if text.len() == 0 {
        text
    } else {
        uppercase_of(text[0]) + text.skip(1)
    }
}

fn trim(text: &Vec<char>) -> (out: Vec<char>)
    ensures
        out@ == trimmed(text@),
{
    let n = text.len();
    let mut start: usize = 0;
    assert(text@.skip(0) =~= text@);
    while start < n && whitespace(text[start])
        invariant
            start <= n,
            n == text@.len(),
            trim_start(text@) == trim_start(text@.skip(start as int)),
        decreases n - start,
    {
        assert(text@.skip(start as int).skip(1) =~= text@.skip(start + 1));
        start += 1;
    }
    let ghost rest = text@.skip(start as int);
    assert(trim_start(text@) == rest);
    let mut end: usize = n;
    assert(text@.subrange(start as int, n as int) =~= rest);
    while end > start && whitespace(text[end - 1])
        invariant
            start <= end <= n,
            n == text@.len(),
            trim_end(rest) == trim_end(text@.subrange(start as int, end as int)),
        decreases end - start,
    {
        assert(text@.subrange(start as int, end as int).drop_last() =~= text@.subrange(
            start as int,
            end - 1,
        ));
        end -= 1;
    }
    let mut out: Vec<char> = Vec::new();
    let mut i: usize = start;
    while i < end
        invariant
            start <= i <= end <= n,
            n == text@.len(),
            out@ == text@.subrange(start as int, i as int),
        decreases end - i,
    {
        out.push(text[i]);
        assert(text@.subrange(start as int, i + 1) =~= text@.subrange(start as int, i as int).push(
            text@[i as int],
        ));
        i += 1;
    }
    out
}

fn collapse(text: &Vec<char>) -> (out: Vec<char>)
    ensures
        out@ == collapsed(text@),
{
    let mut out: Vec<char> = Vec::new();
    let mut in_run = false;
    let mut i: usize = 0;
    while i < text.len()
        invariant
            i <= text.len(),
            out@ == collapsed(text@.take(i as int)),
            in_run == (i > 0 && is_whitespace(text@[i - 1])),
        decreases text.len() - i,
    {
        let c = text[i];
        let space = whitespace(c);
        proof {
            let next = text@.take(i + 1);
            assert(next.drop_last() =~= text@.take(i as int));
            assert(next.last() == c);
            if i > 0 {
                assert(next[next.len() - 2] == text@[i - 1]);
            }
        }
        if !space {
            out.push(c);
        } else if !in_run {
            out.push(' ');
        }
        in_run = space;
        i += 1;
    }
    assert(text@.take(text.len() as int) =~= text@);
    out
}

fn capitalize_chars(text: &Vec<char>) -> (out: Vec<char>)
    ensures
        out@ == capitalized(text@),
{
    if text.len() == 0 {
        return Vec::new();
    }
    let mut out = uppercase(text[0]);
    let ghost head = out@;
    let mut i: usize = 1;
    while i < text.len()
        invariant
            1 <= i <= text.len(),
            out@ == head + text@.subrange(1, i as int),
        decreases text.len() - i,
    {
        out.push(text[i]);
        assert(text@.subrange(1, i + 1) =~= text@.subrange(1, i as int).push(text@[i as int]));
        assert(out@ =~= head + text@.subrange(1, i + 1));
        i += 1;
    }
    assert(text@.subrange(1, text.len() as int) =~= text@.skip(1));
    out
}

/// Puts the first character of `input` in upper case and leaves the rest as it is.
pub fn capitalize(input: &str) -> (out: String)
    ensures
        out@ == capitalized(input@),
{
    let chars = chars_of(input);
    let out = capitalize_chars(&chars);
    string_of(&out)
}

/// The form in which a character's name is kept: trimmed, in lower case, each run
/// of white space collapsed to one space, the first character in upper case.
pub open spec fn prepared_name(input: Seq<char>) -> Seq<char> {
    capitalized(collapsed(lowercase_of(trimmed(input))))
}

/// Normalises a character's name.
pub fn prepare_name(input: &str) -> (out: String)
    ensures
        out@ == prepared_name(input@),
{
    let chars = chars_of(input);
    let t = trim(&chars);
    let l = lowercase(&t);
    let c = collapse(&l);
    let out = capitalize_chars(&c);
    string_of(&out)
}

/// The form in which the second part of a name is kept, if there is one: trimmed,
/// each run of white space collapsed to one space; none when nothing is left.
pub open spec fn prepared_name_extra(input: Option<Seq<char>>) -> Option<Seq<char>> {
    match input {
        Some(text) => if collapsed(trimmed(text)).len() == 0 {
            None
        } else {
            Some(collapsed(trimmed(text)))
        },
        None => None,
    }
}

/// The characters of a string that may be missing.
pub open spec fn text_of(text: Option<String>) -> Option<Seq<char>> {
    match text {
        Some(s) => Some(s@),
        None => None,
    }
}

/// The characters of a string slice that may be missing.
pub open spec fn slice_text_of(text: Option<&str>) -> Option<Seq<char>> {
    match text {
        Some(s) => Some(s@),
        None => None,
    }
}

/// Normalises the second part of a character's name.
pub fn prepare_name_extra(input: Option<&str>) -> (out: Option<String>)
    ensures
        text_of(out) == prepared_name_extra(slice_text_of(input)),
{
    match input {
        Some(s) => {
            let chars = chars_of(s);
            let t = trim(&chars);
            let c = collapse(&t);
            if c.len() == 0 {
                None
            } else {
                Some(string_of(&c))
            }
        },
        None => None,
    }
}

/// The characters of an identifier made from `text`: an underscore for each white
/// space character, the underscores, letters and digits as they are, nothing else.
pub open spec fn identifier_chars(text: Seq<char>) -> Seq<char>
    decreases text.len(),
{
    if text.len() == 0 {
        text
    } else if is_whitespace(text.last()) {
        identifier_chars(text.drop_last()).push('_')
    } else if text.last() == '_' || is_alphanumeric(text.last()) {
        identifier_chars(text.drop_last()).push(text.last())
    } else {
        identifier_chars(text.drop_last())
    }
}

/// The identifier that stands for a name: the identifier characters of the trimmed
/// name, in lower case.
pub open spec fn identifier(input: Seq<char>) -> Seq<char> {
    lowercase_of(identifier_chars(trimmed(input)))
}

/// Makes an identifier out of a name.
pub fn name_to_id(input: &str) -> (out: String)
    ensures
        out@ == identifier(input@),
{
    let chars = chars_of(input);
    let text = trim(&chars);
    let mut kept: Vec<char> = Vec::new();
    let mut i: usize = 0;
    while i < text.len()
        invariant
            i <= text.len(),
            kept@ == identifier_chars(text@.take(i as int)),
        decreases text.len() - i,
    {
        let c = text[i];
        proof {
            let next = text@.take(i + 1);
            assert(next.drop_last() =~= text@.take(i as int));
            assert(next.last() == c);
        }
        if whitespace(c) {
            kept.push('_');
        } else if c == '_' || alphanumeric(c) {
            kept.push(c);
        }
        i += 1;
    }
    assert(text@.take(text.len() as int) =~= text@);
    let lower = lowercase(&kept);
    string_of(&lower)
}

/// The upper-case hexadecimal digit for a number below 16.
pub open spec fn hex_digit(n: int) -> char {
    if n < 10 {
        ('0' as int + n) as char
    } else {
        ('A' as int + n - 10) as char
    }
}

/// Two upper-case hexadecimal digits for each byte, the high one first.
pub open spec fn hex(bytes: Seq<u8>) -> Seq<char>
    decreases bytes.len(),
{
    if bytes.len() == 0 {
        Seq::empty()
    } else {
        hex(bytes.drop_last()).push(hex_digit(bytes.last() as int / 16)).push(
            hex_digit(bytes.last() as int % 16),
        )
    }
}

fn hex_char(n: u8) -> (c: char)
    requires
        n < 16,
    ensures
        c == hex_digit(n as int),
{
    if n < 10 {
        (48u8 + n) as char
    } else {
        (55u8 + n) as char
    }
}

/// Spells bytes as upper-case hexadecimal digits.
pub fn hexstring(input: &[u8]) -> (out: String)
    ensures
        out@ == hex(input@),
{
    let mut out: Vec<char> = Vec::new();
    let mut i: usize = 0;
    while i < input.len()
        invariant
            i <= input@.len(),
            out@ == hex(input@.take(i as int)),
        decreases input@.len() - i,
    {
        let byte = input[i];
        proof {
            let next = input@.take(i + 1);
            assert(next.drop_last() =~= input@.take(i as int));
            assert(next.last() == byte);
        }
        out.push(hex_char(byte / 16));
        out.push(hex_char(byte % 16));
        i += 1;
    }
    assert(input@.take(input@.len() as int) =~= input@);
    string_of(&out)
}

/// The decimal digit for a number below 10.
pub open spec fn decimal_digit(n: int) -> char {
    ('0' as int + n) as char
}

/// The decimal digits of a number, without leading zeros.
pub open spec fn decimal(n: nat) -> Seq<char>
    decreases n,
{
    if n < 10 {
        seq![decimal_digit(n as int)]
    } else {
        decimal(n / 10).push(decimal_digit(n as int % 10))
    }
}

/// Appends the decimal digits of `value` to `out`.
pub fn push_decimal(out: &mut Vec<char>, value: u32)
    ensures
        final(out)@ == old(out)@ + decimal(value as nat),
    decreases value,
{
    if value >= 10 {
        push_decimal(out, value / 10);
    }
    let digit: u8 = (value % 10) as u8;
    out.push((48u8 + digit) as char);
    assert(out@ =~= old(out)@ + decimal(value as nat));
}

} // verus!
