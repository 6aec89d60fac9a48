//! Text as sequences of characters: numbers, padding, case, white space.

use vstd::prelude::*;

verus! {

/// `String::push`: the character is appended to the end of the string.
pub assume_specification[ String::push ](s: &mut String, c: char)
    ensures
        final(s)@ == old(s)@.push(c),
;

// ---------------------------------------------------------------------------
// Characters and strings
// ---------------------------------------------------------------------------

/// The texts that a vector of strings holds.
pub open spec fn texts(v: Seq<String>) -> Seq<Seq<char>> {
    Seq::new(v.len(), |i: int| v[i]@)
}

/// The characters of `s`, in order.
pub fn chars_of(s: &str) -> (v: Vec<char>)
    ensures
        v@ == s@,
{
    let mut v: Vec<char> = Vec::new();
    for c in it: s.chars()
        invariant
            v@ == it.seq().take(it.index() as int),
            it.seq() == s@,
    {
        v.push(c);
    }
    v
}

/// The string made of `chars[from..]`.
pub fn string_from(chars: &[char], from: usize) -> (s: String)
    requires
        from <= chars@.len(),
    ensures
        s@ == chars@.skip(from as int),
{
    let mut s = String::new();
    let mut i: usize = from;
    while i < chars.len()
        invariant
            from <= i <= chars@.len(),
            s@ == chars@.subrange(from as int, i as int),
        decreases chars@.len() - i,
    {
        s.push(chars[i]);
        i += 1;
    }
    s
}

/// Whether two texts hold the same characters.
pub fn same_text(a: &str, b: &str) -> (r: bool)
    ensures
        r == (a@ == b@),
{
    a.to_owned() == b.to_owned()
}

// ---------------------------------------------------------------------------
// Numbers
// ---------------------------------------------------------------------------

/// The digit that stands for `d` in bases up to sixteen.
pub open spec fn digit(d: nat) -> char {
    if d < 10 {
        ('0' as int + d) as char
    } else {
        ('a' as int + d - 10) as char
    }
}

/// `n` written in `base`, without leading zeros.
pub open spec fn numeral(n: nat, base: nat) -> Seq<char>
    decreases n,
{
    if base < 2 || n < base {
        seq![digit(n)]
    } else {
        proof {
            assert(n / base < n) by (nonlinear_arith)
                requires
                    base >= 2,
                    n >= base,
            ;
        }
        numeral(n / base, base).push(digit(n % base))
    }
}

/// `n` written in decimal.
pub open spec fn decimal(n: nat) -> Seq<char> {
    numeral(n, 10)
}

fn digit_char(d: u64) -> (c: char)
    requires
        d < 16,
    ensures
        c == digit(d as nat),
{
    if d < 10 {
        (48u8 + d as u8) as char
    } else {
        (97u8 + (d - 10) as u8) as char
    }
}

fn push_numeral(out: &mut String, n: u64, base: u64)
    requires
        2 <= base <= 16,
    ensures
        final(out)@ == old(out)@ + numeral(n as nat, base as nat),
    decreases n,
{
    if n < base {
        out.push(digit_char(n));
    } else {
        proof {
            assert(n / base < n) by (nonlinear_arith)
                requires
                    base >= 2,
                    n >= base,
            ;
            assert(0 <= n % base < base) by (nonlinear_arith)
                requires
                    base >= 2,
            ;
        }
        push_numeral(out, n / base, base);
        out.push(digit_char(n % base));
    }
}

/// `n` in decimal.
pub fn dec(n: u64) -> (s: String)
    ensures
        s@ == decimal(n as nat),
{
    let mut s = String::new();
    push_numeral(&mut s, n, 10);
    s
}

/// `n` in lower-case hexadecimal, zero-padded on the left to `width` digits.
pub open spec fn hexadecimal(n: nat, width: nat) -> Seq<char> {
    pad_left(numeral(n, 16), width, '0')
}

/// `n` in lower-case hexadecimal, at least `width` digits long.
pub fn hex(n: u64, width: usize) -> (s: String)
    ensures
        s@ == hexadecimal(n as nat, width as nat),
{
    let mut s = String::new();
    push_numeral(&mut s, n, 16);
    right_aligned(&s, width, '0')
}

// ---------------------------------------------------------------------------
// Padding
// ---------------------------------------------------------------------------

/// `n` copies of `c`.
pub open spec fn copies(c: char, n: nat) -> Seq<char> {
    Seq::new(n, |i: int| c)
}

/// `s` with enough of `fill` before it to be at least `width` long.
pub open spec fn pad_left(s: Seq<char>, width: nat, fill: char) -> Seq<char> {
    if s.len() >= width {
        s
    } else {
        copies(fill, (width - s.len()) as nat) + s
    }
}

/// `s` with enough of `fill` after it to be at least `width` long.
pub open spec fn pad_right(s: Seq<char>, width: nat, fill: char) -> Seq<char> {
    if s.len() >= width {
        s
    } else {
        s + copies(fill, (width - s.len()) as nat)
    }
}

/// Appends `n` copies of `c` to `out`.
fn push_copies(out: &mut String, c: char, n: usize)
    ensures
        final(out)@ == old(out)@ + copies(c, n as nat),
{
    let mut i: usize = 0;
    while i < n
        invariant
            i <= n,
            out@ == old(out)@ + copies(c, i as nat),
        decreases n - i,
    {
        out.push(c);
        i += 1;
        assert(copies(c, i as nat) == copies(c, (i - 1) as nat).push(c));
    }
}

/// `s` aligned right in a field of `width` characters.
pub fn right_aligned(s: &str, width: usize, fill: char) -> (r: String)
    ensures
        r@ == pad_left(s@, width as nat, fill),
{
    let len: usize = s.unicode_len();
    if len >= width {
        return s.to_owned();
    }
    let mut r = String::new();
    push_copies(&mut r, fill, width - len);
    r.append(s);
    r
}

/// `s` aligned left in a field of `width` characters.
pub fn left_aligned(s: &str, width: usize, fill: char) -> (r: String)
    ensures
        r@ == pad_right(s@, width as nat, fill),
{
    let len: usize = s.unicode_len();
    let mut r = s.to_owned();
    if len < width {
        push_copies(&mut r, fill, width - len);
    }
    r
}

// ---------------------------------------------------------------------------
// Case
// ---------------------------------------------------------------------------

/// `c` with the letters `A` to `Z` in lower case.
pub open spec fn lower_char(c: char) -> char {
    if 'A' <= c <= 'Z' {
        (c as int + 32) as char
    } else {
        c
    }
}

/// `s` with the letters `A` to `Z` in lower case.
pub open spec fn lower(s: Seq<char>) -> Seq<char> {
    Seq::new(s.len(), |i: int| lower_char(s[i]))
}

fn lowered_char(c: char) -> (r: char)
    ensures
        r == lower_char(c),
{
    if 'A' <= c && c <= 'Z' {
        (c as u8 + 32) as char
    } else {
        c
    }
}

/// `s` with ASCII letters in lower case.
pub fn lowered(s: &str) -> (r: String)
    ensures
        r@ == lower(s@),
{
    let chars = chars_of(s);
    let mut r = String::new();
    let mut i: usize = 0;
    while i < chars.len()
        invariant
            i <= chars@.len(),
            chars@ == s@,
            r@ == lower(s@.take(i as int)),
        decreases chars@.len() - i,
    {
        r.push(lowered_char(chars[i]));
        i += 1;
        assert(lower(s@.take(i as int)) == lower(s@.take(i - 1)).push(lower_char(s@[i - 1])));
    }
    assert(s@.take(i as int) == s@);
    r
}

// ---------------------------------------------------------------------------
// White space and control characters
// ---------------------------------------------------------------------------

/// The characters with the Unicode property `White_Space`.
pub open spec fn white_space(c: char) -> bool {
    let n = c as int;
    ||| 0x09 <= n <= 0x0d
    ||| n == 0x20
    ||| n == 0x85
    ||| n == 0xa0
    ||| n == 0x1680
    ||| 0x2000 <= n <= 0x200a
    ||| n == 0x2028
    ||| n == 0x2029
    ||| n == 0x202f
    ||| n == 0x205f
    ||| n == 0x3000
}

/// The characters of the Unicode general category `Cc`.
pub open spec fn control(c: char) -> bool {
    let n = c as int;
    n <= 0x1f || 0x7f <= n <= 0x9f
}

/// Whether `c` is white space.
pub fn is_white_space(c: char) -> (r: bool)
    ensures
        r == white_space(c),
{
    let n: u32 = c as u32;
    (0x09 <= n && n <= 0x0d) || n == 0x20 || n == 0x85 || n == 0xa0 || n == 0x1680 || (0x2000 <= n
        && n <= 0x200a) || n == 0x2028 || n == 0x2029 || n == 0x202f || n == 0x205f || n == 0x3000
}

/// Whether `c` is a control character.
pub fn is_control(c: char) -> (r: bool)
    ensures
        r == control(c),
{
    let n: u32 = c as u32;
    n <= 0x1f || (0x7f <= n && n <= 0x9f)
}

/// `s` without the white space at its start.
pub open spec fn trim_start(s: Seq<char>) -> Seq<char>
    decreases s.len(),
{
    if s.len() > 0 && white_space(s.first()) {
        trim_start(s.drop_first())
    } else {
        s
    }
}

/// `s` without the white space at its end.
pub open spec fn trim_end(s: Seq<char>) -> Seq<char>
    decreases s.len(),
{
    if s.len() > 0 && white_space(s.last()) {
        trim_end(s.drop_last())
    } else {
        s
    }
}

/// `s` without the white space at either end.
pub open spec fn trim(s: Seq<char>) -> Seq<char> {
    trim_end(trim_start(s))
}

/// `s` without the white space at either end.
pub fn trimmed(s: &str) -> (r: String)
    ensures
        r@ == trim(s@),
{
    let chars = chars_of(s);
    let mut from: usize = 0;
    assert(s@.skip(0) == s@);
    while from < chars.len() && is_white_space(chars[from])
        invariant
            from <= chars@.len(),
            chars@ == s@,
            trim_start(s@) == trim_start(s@.skip(from as int)),
        decreases chars@.len() - from,
    {
        assert(s@.skip(from as int).drop_first() == s@.skip(from + 1));
        from += 1;
    }
    let ghost body = s@.skip(from as int);
    assert(trim_start(s@) == body);
    let mut to: usize = chars.len();
    while to > from && is_white_space(chars[to - 1])
        invariant
            from <= to <= chars@.len(),
            chars@ == s@,
            body == s@.skip(from as int),
            trim_end(body) == trim_end(s@.subrange(from as int, to as int)),
        decreases to,
    {
        assert(s@.subrange(from as int, to as int).drop_last() == s@.subrange(
            from as int,
            to - 1,
        ));
        to -= 1;
    }
    let mut r = String::new();
    let mut i: usize = from;
    while i < to
        invariant
            from <= i <= to <= chars@.len(),
            chars@ == s@,
            r@ == s@.subrange(from as int, i as int),
        decreases to - i,
    {
        r.push(chars[i]);
        i += 1;
    }
    r
}

// ---------------------------------------------------------------------------
// Lists
// ---------------------------------------------------------------------------

/// The texts of `parts`, one after the other, with `sep` between them.
pub open spec fn join(parts: Seq<Seq<char>>, sep: Seq<char>) -> Seq<char>
    decreases parts.len(),
{
    if parts.len() == 0 {
        Seq::empty()
    } else if parts.len() == 1 {
        parts[0]
    } else {
        join(parts.drop_last(), sep) + sep + parts.last()
    }
}

/// `parts` joined by `sep`.
pub fn joined(parts: &[String], sep: &str) -> (r: String)
    ensures
        r@ == join(texts(parts@), sep@),
{
    let mut r = String::new();
    let mut i: usize = 0;
    while i < parts.len()
        invariant
            i <= parts@.len(),
            r@ == join(texts(parts@).take(i as int), sep@),
        decreases parts@.len() - i,
    {
        let ghost all = texts(parts@);
        if i > 0 {
            r.append(sep);
        }
        r.append(parts[i].as_str());
        i += 1;
        assert(all.take(i as int).drop_last() == all.take(i - 1));
        assert(all.take(i as int).last() == all[i - 1]);
        assert(join(all.take(0), sep@) == Seq::<char>::empty());
    }
    assert(texts(parts@).take(i as int) == texts(parts@));
    r
}

/// `line` where the condition holds, nothing otherwise.
pub open spec fn line_if(cond: bool, line: Seq<char>) -> Seq<Seq<char>> {
    if cond {
        seq![line]
    } else {
        Seq::empty()
    }
}

/// Appends one line.
pub fn push_line(lines: &mut Vec<String>, line: String)
    ensures
        texts(final(lines)@) == texts(old(lines)@).push(line@),
{
    lines.push(line);
    assert(texts(lines@) =~= texts(old(lines)@).push(line@));
}

/// Appends a line that is the same for every report.
pub fn push_text(lines: &mut Vec<String>, line: &str)
    ensures
        texts(final(lines)@) == texts(old(lines)@).push(line@),
{
    push_line(lines, line.to_owned());
}

/// Appends every line of `more`.
pub fn push_lines(lines: &mut Vec<String>, more: &[String])
    ensures
        texts(final(lines)@) == texts(old(lines)@) + texts(more@),
{
    let mut i: usize = 0;
    while i < more.len()
        invariant
            i <= more@.len(),
            texts(lines@) == texts(old(lines)@) + texts(more@).take(i as int),
        decreases more@.len() - i,
    {
        push_line(lines, more[i].clone());
        i += 1;
        assert(texts(more@).take(i as int) =~= texts(more@).take(i - 1).push(
            texts(more@)[i - 1],
        ));
    }
    assert(texts(more@).take(i as int) =~= texts(more@));
}

/// `true` or `false`.
pub open spec fn bool_text(b: bool) -> Seq<char> {
    if b {
        "true"@
    } else {
        "false"@
    }
}

/// `true` or `false`.
pub fn bool_word(b: bool) -> (s: &'static str)
    ensures
        s@ == bool_text(b),
{
    if b {
        "true"
    } else {
        "false"
    }
}

// ---------------------------------------------------------------------------
// Quoting
// ---------------------------------------------------------------------------

/// What `format!("{:?}")` makes of a text: the text in double quotes, with
/// quotes, backslashes and unprintable characters escaped.
pub uninterp spec fn debug_quoted(s: Seq<char>) -> Seq<char>;

/// `s` as std's `Debug` for `str` writes it. The result is a function of the
/// text alone; which characters it escapes is left to std.
#[verifier::external_body]
pub(crate) fn quoted(s: &str) -> (r: String)
    ensures
        r@ == debug_quoted(s@),
{
    format!("{s:?}")
}

/// A character as it stands in a JSON string literal.
pub open spec fn json_char(c: char) -> Seq<char> {
    if c == '"' || c == '\\' {
        seq!['\\', c]
    } else if c == '\u{8}' {
        "\\b"@
    } else if c == '\t' {
        "\\t"@
    } else if c == '\n' {
        "\\n"@
    } else if c == '\u{c}' {
        "\\f"@
    } else if c == '\r' {
        "\\r"@
    } else if (c as nat) < 0x20 {
        "\\u"@ + hexadecimal(c as nat, 4)
    } else {
        seq![c]
    }
}

/// The characters of a text as they stand in a JSON string literal.
pub open spec fn json_chars(s: Seq<char>) -> Seq<char>
    decreases s.len(),
{
    if s.len() == 0 {
        s
    } else {
        json_chars(s.drop_last()) + json_char(s.last())
    }
}

/// A text as a JSON string literal, quotes included.
pub open spec fn json_quoted(s: Seq<char>) -> Seq<char> {
    "\""@ + json_chars(s) + "\""@
}

/// `serde_json::Value::String` as it is displayed: the text in double quotes,
/// with quotes, backslashes and the control characters below 0x20 escaped, and
/// every other character as it is.
#[verifier::external_body]
pub(crate) fn json_string(s: &str) -> (r: String)
    ensures
        r@ == json_quoted(s@),
{
    serde_json::Value::String(s.to_owned()).to_string()
}

// ---------------------------------------------------------------------------
// Bytes as text
// ---------------------------------------------------------------------------

/// What `String::from_utf8_lossy` makes of bytes: the text they encode, with
/// the replacement character for what is no UTF-8.
pub uninterp spec fn utf8_lossy(b: Seq<u8>) -> Seq<char>;

/// `String::from_utf8_lossy`: a function of the bytes alone, and for ASCII
/// bytes the characters with those codes. What invalid sequences become is
/// left to std.
#[verifier::external_body]
pub(crate) fn lossy_text(b: &[u8]) -> (s: String)
    ensures
        s@ == utf8_lossy(b@),
        (forall|i: int| 0 <= i < b@.len() ==> #[trigger] b@[i] < 0x80) ==> s@ == Seq::new(
            b@.len(),
            |i: int| b@[i] as char,
        ),
{
    String::from_utf8_lossy(b).into_owned()
}

// ---------------------------------------------------------------------------
// Laws
// ---------------------------------------------------------------------------

/// A decimal number is written digit by digit: the digit of a number below ten
/// alone, and otherwise the rest of the number with its last digit behind it.
pub proof fn law_decimals_are_written_digit_by_digit(n: u64, r: String)
    requires
        call_ensures(dec, (n,), r),
    ensures
        r@.len() > 0,
        r@.last() as int == '0' as int + n % 10,
        n < 10 ==> r@.len() == 1,
        n >= 10 ==> r@.drop_last() == decimal((n / 10) as nat),
{
    let d = ('0' as int + n % 10) as char;
    assert(d as int == '0' as int + n % 10);
    if n >= 10 {
        assert(decimal(n as nat) == decimal((n / 10) as nat).push(digit((n % 10) as nat)));
        assert(decimal(n as nat).drop_last() =~= decimal((n / 10) as nat));
    }
}

/// The words for truth values.
pub proof fn law_truth_values_have_their_words(b: bool, r: &'static str)
    requires
        call_ensures(bool_word, (b,), r),
    ensures
        b ==> r@ == "true"@,
        !b ==> r@ == "false"@,
{
}

/// Hexadecimal is written digit by digit, in lower case: the last digit stands
/// for what is left over of sixteens, and what stands before it is the number
/// of sixteens, one digit narrower. Zeros fill it up to its width.
pub proof fn law_hexadecimals_are_written_digit_by_digit(n: u64, width: usize, r: String)
    requires
        call_ensures(hex, (n, width), r),
    ensures
        r@.len() >= width,
        r@.len() > 0,
        n % 16 < 10 ==> r@.last() as int == 0x30 + n % 16,
        n % 16 >= 10 ==> r@.last() as int == 0x61 + n % 16 - 10,
        n < 16 && width <= 1 ==> r@.len() == 1,
        n >= 16 ==> r@.drop_last() == hexadecimal(
            (n / 16) as nat,
            if width > 0 {
                (width - 1) as nat
            } else {
                0
            },
        ),
        n < 16 && width > 1 ==> r@.drop_last() == copies('0', (width - 1) as nat),
{
    let d: nat = (n % 16) as nat;
    let whole = numeral(n as nat, 16);
    assert(d < 10 ==> digit(d) as int == 0x30 + d);
    assert(d >= 10 ==> digit(d) as int == 0x61 + d - 10);
    if n >= 16 {
        let front = numeral((n / 16) as nat, 16);
        assert(whole == front.push(digit(d)));
        if whole.len() < width {
            assert(r@.drop_last() =~= copies('0', (width - 1 - front.len()) as nat) + front);
        } else {
            assert(r@.drop_last() =~= front);
        }
    } else {
        assert(whole == seq![digit(d)]);
        if width > 1 {
            assert(r@.drop_last() =~= copies('0', (width - 1) as nat));
        }
    }
}

/// A text aligned right ends in the text, has only the fill before it, and is
/// as wide as asked for unless the text is wider.
pub proof fn law_right_alignment_fills_on_the_left(s: &str, width: usize, fill: char, r: String)
    requires
        call_ensures(right_aligned, (s, width, fill), r),
    ensures
        r@.len() == if s@.len() < width {
            width as nat
        } else {
            s@.len()
        },
        r@.skip(r@.len() - s@.len()) == s@,
        forall|i: int| 0 <= i < r@.len() - s@.len() ==> #[trigger] r@[i] == fill,
{
    assert(r@.skip(r@.len() - s@.len()) =~= s@);
}

/// A text aligned left starts with the text, has only the fill behind it, and
/// is as wide as asked for unless the text is wider.
pub proof fn law_left_alignment_fills_on_the_right(s: &str, width: usize, fill: char, r: String)
    requires
        call_ensures(left_aligned, (s, width, fill), r),
    ensures
        r@.len() == if s@.len() < width {
            width as nat
        } else {
            s@.len()
        },
        r@.take(s@.len() as int) == s@,
        forall|i: int| s@.len() <= i < r@.len() ==> #[trigger] r@[i] == fill,
{
    assert(r@.take(s@.len() as int) =~= s@);
}

/// Only the letters `A` to `Z` change case, each to the letter 32 codes on.
pub proof fn law_only_ascii_letters_change_case(s: &str, r: String, i: int)
    requires
        call_ensures(lowered, (s,), r),
        0 <= i < s@.len(),
    ensures
        r@.len() == s@.len(),
        0x41 <= s@[i] as int <= 0x5a ==> r@[i] as int == s@[i] as int + 32,
        !(0x41 <= s@[i] as int <= 0x5a) ==> r@[i] == s@[i],
{
    let n = s@[i] as int;
    if 0x41 <= n <= 0x5a {
        assert((n + 32) as char as int == n + 32);
    }
}

/// Among the ASCII characters, white space is the blank and the five codes from
/// the tab to the carriage return; control characters are those below the
/// blank, and from the delete on to the end of the second block.
pub proof fn law_characters_have_their_class(c: char, white: bool, unseen: bool)
    requires
        call_ensures(is_white_space, (c,), white),
        call_ensures(is_control, (c,), unseen),
    ensures
        (c as int) < 0x80 ==> (white <==> c as int == 0x20 || 9 <= c as int <= 13),
        unseen <==> (c as int) < 0x20 || 0x7f <= (c as int) < 0xa0,
{
}

proof fn lemma_trim_start(s: Seq<char>) -> (n: int)
    ensures
        0 <= n <= s.len(),
        trim_start(s) == s.skip(n),
        forall|i: int| 0 <= i < n ==> white_space(#[trigger] s[i]),
        n < s.len() ==> !white_space(s[n]),
    decreases s.len(),
{
    if s.len() > 0 && white_space(s.first()) {
        let n = lemma_trim_start(s.drop_first());
        assert(s.drop_first().skip(n) =~= s.skip(n + 1));
        assert forall|i: int| 0 <= i < n + 1 implies white_space(#[trigger] s[i]) by {
            if i > 0 {
                assert(s.drop_first()[i - 1] == s[i]);
            }
        }
        n + 1
    } else {
        assert(s.skip(0) =~= s);
        0
    }
}

proof fn lemma_trim_end(s: Seq<char>) -> (n: int)
    ensures
        0 <= n <= s.len(),
        trim_end(s) == s.take(n),
        forall|i: int| n <= i < s.len() ==> white_space(#[trigger] s[i]),
        n > 0 ==> !white_space(s[n - 1]),
    decreases s.len(),
{
    if s.len() > 0 && white_space(s.last()) {
        let n = lemma_trim_end(s.drop_last());
        assert(s.drop_last().take(n) =~= s.take(n));
        assert forall|i: int| n <= i < s.len() implies white_space(#[trigger] s[i]) by {
            if i < s.len() - 1 {
                assert(s.drop_last()[i] == s[i]);
            }
        }
        n
    } else {
        assert(s.take(s.len() as int) =~= s);
        s.len() as int
    }
}

/// What is left of a text that has white space up to one place and on from
/// another, and none at those places.
pub proof fn lemma_trim_is(s: Seq<char>, from: int, to: int)
    requires
        0 <= from < to <= s.len(),
        forall|i: int| 0 <= i < from ==> white_space(#[trigger] s[i]),
        forall|i: int| to <= i < s.len() ==> white_space(#[trigger] s[i]),
        !white_space(s[from]),
        !white_space(s[to - 1]),
    ensures
        trim(s) == s.subrange(from, to),
{
    let n = lemma_trim_start(s);
    assert(n == from) by {
        if n > from {
            assert(white_space(s[from]));
        }
        if n < from {
            assert(white_space(s[n]));
        }
    }
    let body = trim_start(s);
    let m = lemma_trim_end(body);
    assert(body[to - 1 - from] == s[to - 1]);
    assert(m == to - from) by {
        if m > to - from {
            assert(body[m - 1] == s[from + m - 1]);
        }
        if m < to - from {
            assert(white_space(body[to - 1 - from]));
        }
    }
    assert(body.take(m) =~= s.subrange(from, to));
}

/// A trimmed text is a piece of the text that neither starts nor ends with
/// white space, and nothing but white space was cut off.
pub proof fn law_only_white_space_is_trimmed(s: &str, r: String) -> (from: int)
    requires
        call_ensures(trimmed, (s,), r),
    ensures
        0 <= from,
        from + r@.len() <= s@.len(),
        r@ == s@.subrange(from, from + r@.len()),
        forall|i: int|
            0 <= i < s@.len() && !(from <= i < from + r@.len()) ==> white_space(#[trigger] s@[i]),
        r@.len() > 0 ==> !white_space(r@.first()) && !white_space(r@.last()),
{
    let from = lemma_trim_start(s@);
    let body = trim_start(s@);
    let n = lemma_trim_end(body);
    assert(r@ =~= s@.subrange(from, from + n));
    assert forall|i: int|
        0 <= i < s@.len() && !(from <= i < from + r@.len()) implies white_space(#[trigger] s@[i]) by {
        if i >= from {
            assert(body[i - from] == s@[i]);
        }
    }
    from
}

/// Joining nothing gives nothing, one part is joined to itself, and each part
/// more comes behind one separator.
pub proof fn law_separators_stand_between_parts(parts: Seq<Seq<char>>, sep: Seq<char>, p: Seq<char>)
    ensures
        join(Seq::empty(), sep).len() == 0,
        join(seq![p], sep) == p,
        parts.len() > 0 ==> join(parts.push(p), sep) == join(parts, sep) + sep + p,
{
    assert(parts.push(p).drop_last() =~= parts);
}

} // verus!
