//! `SIZE` parsing and alignment rules.
//!
//! | Form | Meaning |
//! |---|---|
//! | `20` | bytes |
//! | `20K` `20M` `20G` `20T` | binary, 1024^n |
//! | `20KiB` `20MiB` `20GiB` `20TiB` | binary, 1024^n |
//! | `20KB` `20MB` `20GB` `20TB` | decimal, 1000^n |
//!
//! Matching is case-insensitive, but `GB` and `GiB` remain distinct: the `i`
//! is what selects binary, not the case. Bare `G` is binary because that is
//! what `20G` means to everyone who has ever made a disk image.

use vstd::prelude::*;

use crate::error::{is_usage, Error, Result};
use crate::text::{
    chars_of, debug_quoted, dec, decimal, digit, lower, lower_char, lowered, pad_left,
    quoted, right_aligned, same_text, string_from, trim, trim_end, trim_start, trimmed, white_space,
};

verus! {

pub const KIB: u64 = 1024;

pub const MIB: u64 = 1024 * 1024;

pub const GIB: u64 = 1024 * 1024 * 1024;

pub const TIB: u64 = 1024 * 1024 * 1024 * 1024;

// ---------------------------------------------------------------------------
// What a size text means
// ---------------------------------------------------------------------------

/// Whether `c` is one of the digits `0` to `9`.
pub open spec fn is_digit(c: char) -> bool {
    '0' <= c <= '9'
}

/// How many digits `s` starts with.
pub open spec fn digits_in_front(s: Seq<char>) -> nat
    decreases s.len(),
{
    if s.len() > 0 && is_digit(s[0]) {
        1 + digits_in_front(s.skip(1))
    } else {
        0
    }
}

/// The number that a row of digits writes.
pub open spec fn number(s: Seq<char>) -> nat
    decreases s.len(),
{
    if s.len() == 0 {
        0
    } else {
        number(s.drop_last()) * 10 + (s.last() as int - '0' as int) as nat
    }
}

/// How many bytes one unit is, for a unit in lower case.
pub open spec fn unit_bytes(unit: Seq<char>) -> Option<u64> {
    if unit == ""@ || unit == "b"@ {
        Some(1)
    } else if unit == "k"@ || unit == "kib"@ {
        Some(KIB)
    } else if unit == "m"@ || unit == "mib"@ {
        Some(MIB)
    } else if unit == "g"@ || unit == "gib"@ {
        Some(GIB)
    } else if unit == "t"@ || unit == "tib"@ {
        Some(TIB)
    } else if unit == "kb"@ {
        Some(1_000)
    } else if unit == "mb"@ {
        Some(1_000_000)
    } else if unit == "gb"@ {
        Some(1_000_000_000)
    } else if unit == "tb"@ {
        Some(1_000_000_000_000)
    } else {
        None
    }
}

/// Why a text is no size.
pub enum SizeFault {
    Empty,
    NoNumber,
    OutOfRange,
    UnknownUnit(Seq<char>),
    Overflow,
}

/// The byte count that a size text means, or why it means none: a number and
/// a unit, with white space allowed around either.
pub open spec fn size_of(input: Seq<char>) -> std::result::Result<u64, SizeFault> {
    let s = trim(input);
    let n = digits_in_front(s) as int;
    let value = number(s.take(n));
    let unit = lower(trim(s.skip(n)));
    if s.len() == 0 {
        Err(SizeFault::Empty)
    } else if n == 0 {
        Err(SizeFault::NoNumber)
    } else if value > u64::MAX {
        Err(SizeFault::OutOfRange)
    } else if unit_bytes(unit) is None {
        Err(SizeFault::UnknownUnit(unit))
    } else if value * unit_bytes(unit)->0 > u64::MAX {
        Err(SizeFault::Overflow)
    } else {
        Ok((value * unit_bytes(unit)->0) as u64)
    }
}

/// What the operator is told about `input`.
pub open spec fn fault_text(input: Seq<char>, fault: SizeFault) -> Seq<char> {
    match fault {
        SizeFault::Empty => "size is empty"@,
        SizeFault::NoNumber => "size "@ + debug_quoted(input) + " does not start with a number"@,
        SizeFault::OutOfRange => "size "@ + debug_quoted(input) + " is out of range"@,
        SizeFault::UnknownUnit(unit) => "size "@ + debug_quoted(input)
            + " has an unrecognized unit "@ + debug_quoted(unit)
            + " (use K/M/G/T for binary, KB/MB/GB/TB for decimal)"@,
        SizeFault::Overflow => "size "@ + debug_quoted(input) + " overflows a 64-bit byte count"@,
    }
}

// ---------------------------------------------------------------------------
// Parsing
// ---------------------------------------------------------------------------

proof fn lemma_digits_at(s: Seq<char>, n: int)
    requires
        0 <= n <= s.len(),
        forall|i: int| 0 <= i < n ==> is_digit(#[trigger] s[i]),
        n < s.len() ==> !is_digit(s[n]),
    ensures
        digits_in_front(s) == n,
    decreases s.len(),
{
    if n > 0 {
        let t = s.skip(1);
        assert forall|i: int| 0 <= i < n - 1 implies is_digit(#[trigger] t[i]) by {
            assert(t[i] == s[i + 1]);
        }
        lemma_digits_at(t, n - 1);
    }
}

proof fn lemma_number_grows(s: Seq<char>, k: int)
    requires
        0 <= k <= s.len(),
        forall|i: int| 0 <= i < s.len() ==> is_digit(#[trigger] s[i]),
    ensures
        number(s.take(k)) <= number(s),
    decreases s.len(),
{
    if k < s.len() {
        assert(s.drop_last().take(k) == s.take(k));
        lemma_number_grows(s.drop_last(), k);
    } else {
        assert(s.take(k) == s);
    }
}

/// How many digits `chars` starts with.
fn count_digits(chars: &[char]) -> (n: usize)
    ensures
        n == digits_in_front(chars@),
        n <= chars@.len(),
        forall|i: int| 0 <= i < n ==> is_digit(#[trigger] chars@[i]),
{
    let mut n: usize = 0;
    while n < chars.len() && '0' <= chars[n] && chars[n] <= '9'
        invariant
            n <= chars@.len(),
            forall|i: int| 0 <= i < n ==> is_digit(#[trigger] chars@[i]),
        decreases chars@.len() - n,
    {
        n += 1;
    }
    proof {
        lemma_digits_at(chars@, n as int);
    }
    n
}

/// The number that the first `n` digits write; `None` where it exceeds 64 bits.
fn read_number(chars: &[char], n: usize) -> (r: Option<u64>)
    requires
        n <= chars@.len(),
        forall|i: int| 0 <= i < n ==> is_digit(#[trigger] chars@[i]),
    ensures
        r is Some <==> number(chars@.take(n as int)) <= u64::MAX,
        r matches Some(v) ==> v == number(chars@.take(n as int)),
{
    let mut value: u64 = 0;
    let mut i: usize = 0;
    let ghost all = chars@.take(n as int);
    while i < n
        invariant
            i <= n <= chars@.len(),
            all == chars@.take(n as int),
            forall|i: int| 0 <= i < n ==> is_digit(#[trigger] chars@[i]),
            value == number(all.take(i as int)),
        decreases n - i,
    {
        let d: u64 = chars[i] as u64 - '0' as u64;
        proof {
            assert(all.take(i + 1).drop_last() == all.take(i as int));
            assert(all.take(i + 1).last() == chars@[i as int]);
            assert forall|j: int| 0 <= j < all.len() implies is_digit(#[trigger] all[j]) by {
                assert(all[j] == chars@[j]);
            }
            lemma_number_grows(all, i + 1);
        }
        let tens: u64 = match value.checked_mul(10) {
            Some(v) => v,
            None => {
                return None;
            },
        };
        value = match tens.checked_add(d) {
            Some(v) => v,
            None => {
                return None;
            },
        };
        i += 1;
    }
    assert(all.take(i as int) == all);
    Some(value)
}

/// How many bytes one unit is.
fn bytes_per_unit(unit: &str) -> (r: Option<u64>)
    ensures
        r == unit_bytes(unit@),
{
    if same_text(unit, "") || same_text(unit, "b") {
        Some(1)
    } else if same_text(unit, "k") || same_text(unit, "kib") {
        Some(KIB)
    } else if same_text(unit, "m") || same_text(unit, "mib") {
        Some(MIB)
    } else if same_text(unit, "g") || same_text(unit, "gib") {
        Some(GIB)
    } else if same_text(unit, "t") || same_text(unit, "tib") {
        Some(TIB)
    } else if same_text(unit, "kb") {
        Some(1_000)
    } else if same_text(unit, "mb") {
        Some(1_000_000)
    } else if same_text(unit, "gb") {
        Some(1_000_000_000)
    } else if same_text(unit, "tb") {
        Some(1_000_000_000_000)
    } else {
        None
    }
}

fn about(input: &str, what: &str) -> (e: Error)
    ensures
        is_usage(e, "size "@ + debug_quoted(input@) + what@),
{
    let mut m = "size ".to_owned();
    m.append(quoted(input).as_str());
    m.append(what);
    Error::Usage(m)
}

/// Parse a `SIZE` argument into an exact byte count.
pub fn parse(input: &str) -> (r: Result<u64>)
    ensures
        match size_of(input@) {
            Ok(n) => r == Ok::<u64, Error>(n),
            Err(fault) => r matches Err(e) && is_usage(e, fault_text(input@, fault)),
        },
{
    let t = trimmed(input);
    let chars = chars_of(t.as_str());
    if chars.len() == 0 {
        return Err(Error::Usage("size is empty".to_owned()));
    }
    let n: usize = count_digits(chars.as_slice());
    if n == 0 {
        return Err(about(input, " does not start with a number"));
    }
    let value: u64 = match read_number(chars.as_slice(), n) {
        Some(v) => v,
        None => {
            return Err(about(input, " is out of range"));
        },
    };
    let rest = string_from(chars.as_slice(), n);
    let unit = lowered(trimmed(rest.as_str()).as_str());
    let multiplier: u64 = match bytes_per_unit(unit.as_str()) {
        Some(v) => v,
        None => {
            let mut m = "size ".to_owned();
            m.append(quoted(input).as_str());
            m.append(" has an unrecognized unit ");
            m.append(quoted(unit.as_str()).as_str());
            m.append(" (use K/M/G/T for binary, KB/MB/GB/TB for decimal)");
            return Err(Error::Usage(m));
        },
    };
    match value.checked_mul(multiplier) {
        Some(v) => Ok(v),
        None => Err(about(input, " overflows a 64-bit byte count")),
    }
}

// ---------------------------------------------------------------------------
// Alignment
// ---------------------------------------------------------------------------

/// Whether a size is a whole number of sectors, and at least one.
pub open spec fn whole_sectors(bytes: u64) -> bool {
    bytes != 0 && bytes % 512 == 0
}

/// What is wrong with a size that is not.
pub open spec fn alignment_text(bytes: u64) -> Seq<char> {
    if bytes == 0 {
        "size must be greater than zero"@
    } else {
        "size "@ + decimal(bytes as nat) + " is not a multiple of 512 (off by "@ + decimal(
            (bytes % 512) as nat,
        ) + ")"@
    }
}

/// A fixed VHD is a whole number of 512-byte sectors. Anything else is
/// rejected rather than rounded, because silently changing the size the
/// operator asked for is worse than making them retype it.
pub fn require_512_aligned(bytes: u64) -> (r: Result<()>)
    ensures
        r is Ok <==> whole_sectors(bytes),
        r matches Err(e) ==> is_usage(e, alignment_text(bytes)),
{
    if bytes == 0 {
        return Err(Error::Usage("size must be greater than zero".to_owned()));
    }
    if bytes % 512 != 0 {
        let mut m = "size ".to_owned();
        m.append(dec(bytes).as_str());
        m.append(" is not a multiple of 512 (off by ");
        m.append(dec(bytes % 512).as_str());
        m.append(")");
        return Err(Error::Usage(m));
    }
    Ok(())
}

/// What is said about a size that is no whole number of mebibytes.
pub open spec fn mib_warning_text(bytes: u64) -> Seq<char> {
    "size "@ + decimal(bytes as nat)
        + " is not a multiple of 1 MiB; this works but is unusual and may produce surprising guest geometry"@
}

/// MB-aligned sizes are what Windows, Hyper-V, and IODD expect. Misaligned
/// ones work but invite geometry surprises, so this is a warning rather than a
/// refusal.
pub fn mib_alignment_warning(bytes: u64) -> (r: Option<String>)
    ensures
        r is None <==> bytes % MIB == 0,
        r matches Some(m) ==> m@ == mib_warning_text(bytes),
{
    if bytes % MIB == 0 {
        return None;
    }
    let mut m = "size ".to_owned();
    m.append(dec(bytes).as_str());
    m.append(
        " is not a multiple of 1 MiB; this works but is unusual and may produce surprising guest geometry",
    );
    Some(m)
}

// ---------------------------------------------------------------------------
// Rendering
// ---------------------------------------------------------------------------

/// `bytes` in units of `scale`, with two digits after the point unless they
/// are zero.
pub open spec fn scaled_text(bytes: u64, scale: u64, unit: Seq<char>) -> Seq<char> {
    let whole = decimal((bytes / scale) as nat);
    let hundredths = ((bytes % scale) * 100 / scale as int) as nat;
    if hundredths == 0 {
        whole + " "@ + unit
    } else {
        whole + "."@ + pad_left(decimal(hundredths), 2, '0') + " "@ + unit
    }
}

/// A byte count in the largest binary unit that it reaches.
pub open spec fn human_text(bytes: u64) -> Seq<char> {
    if bytes >= TIB {
        scaled_text(bytes, TIB, "TiB"@)
    } else if bytes >= GIB {
        scaled_text(bytes, GIB, "GiB"@)
    } else if bytes >= MIB {
        scaled_text(bytes, MIB, "MiB"@)
    } else if bytes >= KIB {
        scaled_text(bytes, KIB, "KiB"@)
    } else {
        decimal(bytes as nat) + " B"@
    }
}

fn scaled(bytes: u64, scale: u64, unit: &str) -> (s: String)
    requires
        0 < scale <= TIB,
    ensures
        s@ == scaled_text(bytes, scale, unit@),
{
    let part: u64 = bytes % scale;
    assert(part < scale) by (nonlinear_arith)
        requires
            part == bytes % scale,
            0 < scale,
    ;
    let hundredths: u64 = part * 100 / scale;
    let mut s = dec(bytes / scale);
    if hundredths != 0 {
        s.append(".");
        s.append(right_aligned(dec(hundredths).as_str(), 2, '0').as_str());
    }
    s.append(" ");
    s.append(unit);
    s
}

/// Render a byte count for reports. Binary units, since that is what the
/// footer and the device deal in.
pub fn humanize(bytes: u64) -> (s: String)
    ensures
        s@ == human_text(bytes),
{
    if bytes >= TIB {
        scaled(bytes, TIB, "TiB")
    } else if bytes >= GIB {
        scaled(bytes, GIB, "GiB")
    } else if bytes >= MIB {
        scaled(bytes, MIB, "MiB")
    } else if bytes >= KIB {
        scaled(bytes, KIB, "KiB")
    } else {
        let mut s = dec(bytes);
        s.append(" B");
        s
    }
}

// ---------------------------------------------------------------------------
// Laws
// ---------------------------------------------------------------------------

proof fn lemma_lower_trim_start(s: Seq<char>)
    ensures
        trim_start(lower(s)) == lower(trim_start(s)),
    decreases s.len(),
{
    if s.len() > 0 {
        assert(lower(s).drop_first() == lower(s.drop_first()));
        assert(white_space(lower_char(s[0])) == white_space(s[0]));
        lemma_lower_trim_start(s.drop_first());
    }
}

proof fn lemma_lower_trim_end(s: Seq<char>)
    ensures
        trim_end(lower(s)) == lower(trim_end(s)),
    decreases s.len(),
{
    if s.len() > 0 {
        assert(lower(s).drop_last() == lower(s.drop_last()));
        assert(white_space(lower_char(s.last())) == white_space(s.last()));
        lemma_lower_trim_end(s.drop_last());
    }
}

proof fn lemma_lower_trim(s: Seq<char>)
    ensures
        trim(lower(s)) == lower(trim(s)),
{
    lemma_lower_trim_start(s);
    lemma_lower_trim_end(trim_start(s));
}

proof fn lemma_digits_lower(s: Seq<char>)
    ensures
        digits_in_front(lower(s)) == digits_in_front(s),
        digits_in_front(s) <= s.len(),
        lower(s).take(digits_in_front(s) as int) == s.take(digits_in_front(s) as int),
    decreases s.len(),
{
    if s.len() > 0 {
        let t = s.skip(1);
        assert(lower(s).skip(1) == lower(t));
        lemma_digits_lower(t);
        let n = digits_in_front(s) as int;
        if is_digit(s[0]) {
            assert forall|i: int| 0 <= i < n implies lower(s).take(n)[i] == s.take(n)[i] by {
                if i > 0 {
                    assert(lower(t).take(n - 1)[i - 1] == t.take(n - 1)[i - 1]);
                }
            }
        }
        assert(lower(s).take(n) =~= s.take(n));
    } else {
        assert(lower(s).take(0) =~= s.take(0));
    }
}

proof fn lemma_size_of_lower(s: Seq<char>)
    ensures
        size_of(lower(s)) == size_of(s),
{
    let t = trim(s);
    lemma_lower_trim(s);
    lemma_digits_lower(t);
    let n = digits_in_front(t) as int;
    assert(lower(t).skip(n) == lower(t.skip(n)));
    lemma_lower_trim(t.skip(n));
    let u = trim(t.skip(n));
    assert(lower(lower(u)) =~= lower(u));
}

/// The case of a size text does not matter.
pub proof fn law_case_does_not_matter(a: Seq<char>, b: Seq<char>)
    requires
        lower(a) == lower(b),
    ensures
        size_of(a) == size_of(b),
{
    lemma_size_of_lower(a);
    lemma_size_of_lower(b);
}

proof fn lemma_trim_end_keeps_front(s: Seq<char>)
    ensures
        trim_end(s).len() <= s.len(),
        trim_end(s) == s.take(trim_end(s).len() as int),
        trim_end(s).len() > 0 ==> !white_space(trim_end(s).last()),
    decreases s.len(),
{
    if s.len() > 0 && white_space(s.last()) {
        lemma_trim_end_keeps_front(s.drop_last());
        let n = trim_end(s).len() as int;
        assert(s.drop_last().take(n) == s.take(n));
    } else {
        assert(s.take(s.len() as int) == s);
    }
}

proof fn lemma_trim_start_clean(s: Seq<char>)
    ensures
        trim_start(s).len() > 0 ==> !white_space(trim_start(s)[0]),
    decreases s.len(),
{
    if s.len() > 0 && white_space(s[0]) {
        lemma_trim_start_clean(s.drop_first());
    }
}

/// White space around a size text does not matter.
pub proof fn law_surrounding_space_does_not_matter(s: Seq<char>)
    ensures
        size_of(trim(s)) == size_of(s),
{
    let a = trim_start(s);
    let t = trim_end(a);
    lemma_trim_start_clean(s);
    lemma_trim_end_keeps_front(a);
    if t.len() > 0 {
        assert(t[0] == a[0]);
    }
    assert(trim_start(t) == t);
    assert(trim_end(t) == t);
}

proof fn lemma_decimal(n: nat)
    ensures
        decimal(n).len() > 0,
        forall|i: int| 0 <= i < decimal(n).len() ==> is_digit(#[trigger] decimal(n)[i]),
        number(decimal(n)) == n,
    decreases n,
{
    let s = decimal(n);
    if n < 10 {
        assert(s == seq![digit(n)]);
        assert(s.drop_last() == Seq::<char>::empty());
        assert(number(s.drop_last()) == 0);
    } else {
        lemma_decimal(n / 10);
        let front = decimal(n / 10);
        assert(s == front.push(digit(n % 10)));
        assert(s.drop_last() == front);
        assert forall|i: int| 0 <= i < s.len() implies is_digit(#[trigger] s[i]) by {
            if i < front.len() {
                assert(s[i] == front[i]);
            }
        }
    }
}

/// What a decimal number means in front of a unit.
proof fn lemma_number_and_unit(k: nat, suffix: Seq<char>, unit: Seq<char>)
    requires
        suffix.len() > 0 ==> !is_digit(suffix[0]) && !white_space(suffix.last()),
        lower(trim(suffix)) == unit,
        unit_bytes(unit) is Some,
    ensures
        k <= u64::MAX && k * unit_bytes(unit)->0 <= u64::MAX ==> size_of(decimal(k) + suffix)
            == Ok::<u64, SizeFault>((k * unit_bytes(unit)->0) as u64),
        k > u64::MAX || k * unit_bytes(unit)->0 > u64::MAX ==> size_of(decimal(k) + suffix) is Err,
{
    lemma_decimal(k);
    let d = decimal(k);
    let s = d + suffix;
    let n = d.len() as int;
    assert(s[0] == d[0]);
    assert(is_digit(d[0]));
    assert(trim_start(s) == s);
    if suffix.len() > 0 {
        assert(s.last() == suffix.last());
    } else {
        assert(s.last() == d[n - 1]);
        assert(is_digit(d[n - 1]));
    }
    assert(trim_end(s) == s);
    assert forall|i: int| 0 <= i < n implies is_digit(#[trigger] s[i]) by {
        assert(s[i] == d[i]);
    }
    if n < s.len() {
        assert(s[n] == suffix[0]);
    }
    lemma_digits_at(s, n);
    assert(s.take(n) == d);
    assert(s.skip(n) == suffix);
}

/// Bare digits are bytes: a byte count written in decimal is read back as it
/// was.
pub proof fn law_bare_digits_are_bytes(n: u64)
    ensures
        size_of(decimal(n as nat)) == Ok::<u64, SizeFault>(n),
{
    reveal_strlit("");
    let none = Seq::<char>::empty();
    assert(lower(none) =~= ""@);
    assert(trim(none) == none);
    lemma_number_and_unit(n as nat, none, ""@);
    assert(decimal(n as nat) + none =~= decimal(n as nat));
}

/// A size that is a whole number of the unit it is rendered in is read back
/// from its rendering.
pub proof fn law_whole_units_read_back(bytes: u64)
    requires
        bytes >= TIB ==> bytes % TIB == 0,
        GIB <= bytes < TIB ==> bytes % GIB == 0,
        MIB <= bytes < GIB ==> bytes % MIB == 0,
        KIB <= bytes < MIB ==> bytes % KIB == 0,
    ensures
        size_of(human_text(bytes)) == Ok::<u64, SizeFault>(bytes),
{
    if bytes >= TIB {
        lemma_tib();
        lemma_scaled_whole(bytes, TIB, "TiB"@);
        lemma_spaced_unit(bytes / TIB, "TiB"@, "tib"@, TIB);
    } else if bytes >= GIB {
        lemma_gib();
        lemma_scaled_whole(bytes, GIB, "GiB"@);
        lemma_spaced_unit(bytes / GIB, "GiB"@, "gib"@, GIB);
    } else if bytes >= MIB {
        lemma_mib();
        lemma_scaled_whole(bytes, MIB, "MiB"@);
        lemma_spaced_unit(bytes / MIB, "MiB"@, "mib"@, MIB);
    } else if bytes >= KIB {
        lemma_kib();
        lemma_scaled_whole(bytes, KIB, "KiB"@);
        lemma_spaced_unit(bytes / KIB, "KiB"@, "kib"@, KIB);
    } else {
        lemma_plain_bytes(bytes);
    }
}

proof fn lemma_plain_bytes(bytes: u64)
    ensures
        size_of(decimal(bytes as nat) + " B"@) == Ok::<u64, SizeFault>(bytes),
{
    reveal_strlit(" B");
    reveal_strlit("b");
    let suffix = " B"@;
    assert(suffix.drop_first() =~= seq!['B']);
    assert(trim_start(suffix) == suffix.drop_first()) by {
        reveal_with_fuel(trim_start, 2);
    }
    assert(trim_end(suffix.drop_first()) == suffix.drop_first());
    assert(lower(trim(suffix)) =~= "b"@);
    assert(unit_bytes("b"@) == Some(1u64));
    assert(bytes as nat * 1u64 == bytes);
    lemma_number_and_unit(bytes as nat, suffix, "b"@);
}

proof fn lemma_kib()
    ensures
        "KiB"@.len() == 3,
        lower("KiB"@) == "kib"@,
        !white_space("KiB"@[0]),
        !white_space("KiB"@[2]),
        unit_bytes("kib"@) == Some(KIB),
{
    reveal_strlit("KiB");
    reveal_strlit("kib");
    reveal_strlit("");
    reveal_strlit("b");
    reveal_strlit("k");
    assert(lower("KiB"@) =~= "kib"@);
}

proof fn lemma_mib()
    ensures
        "MiB"@.len() == 3,
        lower("MiB"@) == "mib"@,
        !white_space("MiB"@[0]),
        !white_space("MiB"@[2]),
        unit_bytes("mib"@) == Some(MIB),
{
    reveal_strlit("MiB");
    reveal_strlit("mib");
    reveal_strlit("");
    reveal_strlit("b");
    reveal_strlit("k");
    reveal_strlit("m");
    reveal_strlit("kib");
    assert("mib"@ != "kib"@) by {
        assert("mib"@[0] != "kib"@[0]);
    }
    assert(lower("MiB"@) =~= "mib"@);
}

proof fn lemma_gib()
    ensures
        "GiB"@.len() == 3,
        lower("GiB"@) == "gib"@,
        !white_space("GiB"@[0]),
        !white_space("GiB"@[2]),
        unit_bytes("gib"@) == Some(GIB),
{
    reveal_strlit("GiB");
    reveal_strlit("gib");
    reveal_strlit("");
    reveal_strlit("b");
    reveal_strlit("k");
    reveal_strlit("m");
    reveal_strlit("g");
    reveal_strlit("kib");
    reveal_strlit("mib");
    assert("gib"@ != "kib"@) by {
        assert("gib"@[0] != "kib"@[0]);
    }
    assert("gib"@ != "mib"@) by {
        assert("gib"@[0] != "mib"@[0]);
    }
    assert(lower("GiB"@) =~= "gib"@);
}

proof fn lemma_tib()
    ensures
        "TiB"@.len() == 3,
        lower("TiB"@) == "tib"@,
        !white_space("TiB"@[0]),
        !white_space("TiB"@[2]),
        unit_bytes("tib"@) == Some(TIB),
{
    reveal_strlit("TiB");
    reveal_strlit("tib");
    reveal_strlit("");
    reveal_strlit("b");
    reveal_strlit("k");
    reveal_strlit("m");
    reveal_strlit("g");
    reveal_strlit("t");
    reveal_strlit("kib");
    reveal_strlit("mib");
    reveal_strlit("gib");
    assert("tib"@ != "kib"@) by {
        assert("tib"@[0] != "kib"@[0]);
    }
    assert("tib"@ != "mib"@) by {
        assert("tib"@[0] != "mib"@[0]);
    }
    assert("tib"@ != "gib"@) by {
        assert("tib"@[0] != "gib"@[0]);
    }
    assert(lower("TiB"@) =~= "tib"@);
}

proof fn lemma_scaled_whole(bytes: u64, scale: u64, unit: Seq<char>)
    requires
        scale > 0,
        bytes % scale == 0,
    ensures
        scaled_text(bytes, scale, unit) == decimal((bytes / scale) as nat) + " "@ + unit,
        (bytes / scale) * scale == bytes,
{
    vstd::arithmetic::div_mod::lemma_fundamental_div_mod(bytes as int, scale as int);
    assert((bytes / scale) * scale == scale * (bytes / scale)) by (nonlinear_arith);
    assert(0int * 100 / scale as int == 0) by (nonlinear_arith)
        requires
            scale > 0,
    ;
}

proof fn lemma_spaced_unit(k: u64, unit: Seq<char>, low: Seq<char>, scale: u64)
    requires
        unit.len() == 3,
        lower(unit) == low,
        !white_space(unit[0]),
        !white_space(unit[2]),
        unit_bytes(low) == Some(scale),
        k * scale <= u64::MAX,
    ensures
        size_of(decimal(k as nat) + " "@ + unit) == Ok::<u64, SizeFault>((k * scale) as u64),
{
    reveal_strlit(" ");
    let suffix = " "@ + unit;
    assert(suffix.drop_first() =~= unit);
    assert(trim_start(suffix) == unit) by {
        reveal_with_fuel(trim_start, 2);
    }
    assert(trim_end(unit) == unit);
    lemma_number_and_unit(k as nat, suffix, low);
    assert(decimal(k as nat) + suffix =~= decimal(k as nat) + " "@ + unit);
}

/// `base` multiplied by itself, `n` times in all.
pub open spec fn raised(base: int, n: nat) -> int
    decreases n,
{
    if n == 0 {
        1
    } else {
        base * raised(base, (n - 1) as nat)
    }
}

/// Whether `letter` stands for the `n`th power of a thousand.
pub open spec fn stands_for(letter: char, n: nat) -> bool {
    (letter == 'k' && n == 1) || (letter == 'm' && n == 2) || (letter == 'g' && n == 3) || (letter
        == 't' && n == 4)
}

proof fn lemma_units_known()
    ensures
        unit_bytes("b"@) == Some(1u64),
        unit_bytes(seq!['k']) == Some(1024u64),
        unit_bytes(seq!['m']) == Some(1048576u64),
        unit_bytes(seq!['g']) == Some(1073741824u64),
        unit_bytes(seq!['t']) == Some(1099511627776u64),
        unit_bytes(seq!['k', 'i', 'b']) == Some(1024u64),
        unit_bytes(seq!['m', 'i', 'b']) == Some(1048576u64),
        unit_bytes(seq!['g', 'i', 'b']) == Some(1073741824u64),
        unit_bytes(seq!['t', 'i', 'b']) == Some(1099511627776u64),
        unit_bytes(seq!['k', 'b']) == Some(1000u64),
        unit_bytes(seq!['m', 'b']) == Some(1000000u64),
        unit_bytes(seq!['g', 'b']) == Some(1000000000u64),
        unit_bytes(seq!['t', 'b']) == Some(1000000000000u64),
{
    reveal_strlit("");
    reveal_strlit("b");
    reveal_strlit("k");
    reveal_strlit("m");
    reveal_strlit("g");
    reveal_strlit("t");
    reveal_strlit("kib");
    reveal_strlit("mib");
    reveal_strlit("gib");
    reveal_strlit("tib");
    reveal_strlit("kb");
    reveal_strlit("mb");
    reveal_strlit("gb");
    reveal_strlit("tb");
    assert("b"@ =~= seq!['b']);
    assert("k"@ =~= seq!['k']);
    assert("m"@ =~= seq!['m']);
    assert("g"@ =~= seq!['g']);
    assert("t"@ =~= seq!['t']);
    assert("kib"@ =~= seq!['k', 'i', 'b']);
    assert("mib"@ =~= seq!['m', 'i', 'b']);
    assert("gib"@ =~= seq!['g', 'i', 'b']);
    assert("tib"@ =~= seq!['t', 'i', 'b']);
    assert("kb"@ =~= seq!['k', 'b']);
    assert("mb"@ =~= seq!['m', 'b']);
    assert("gb"@ =~= seq!['g', 'b']);
    assert("tb"@ =~= seq!['t', 'b']);
    assert("b"@[0] == 'b' && "k"@[0] == 'k' && "m"@[0] == 'm' && "g"@[0] == 'g' && "t"@[0] == 't');
    assert("kib"@[0] == 'k' && "mib"@[0] == 'm' && "gib"@[0] == 'g' && "tib"@[0] == 't');
    assert("kb"@[0] == 'k' && "mb"@[0] == 'm' && "gb"@[0] == 'g' && "tb"@[0] == 't');
}

proof fn lemma_letters(k: nat, u: Seq<char>)
    requires
        1 <= u.len() <= 3,
        forall|i: int| 0 <= i < u.len() ==> 'a' <= #[trigger] u[i] <= 'z',
        unit_bytes(u) is Some,
    ensures
        k * unit_bytes(u)->0 <= u64::MAX ==> size_of(decimal(k) + u) == Ok::<u64, SizeFault>(
            (k * unit_bytes(u)->0) as u64,
        ),
        k * unit_bytes(u)->0 > u64::MAX ==> size_of(decimal(k) + u) is Err,
{
    assert('a' <= u[0] <= 'z');
    assert('a' <= u[u.len() - 1] <= 'z');
    assert(trim_start(u) == u);
    assert(trim_end(u) == u);
    assert(lower(u) =~= u);
    lemma_number_and_unit(k, u, u);
    if k > u64::MAX {
        assert(k * unit_bytes(u)->0 >= k) by (nonlinear_arith)
            requires
                unit_bytes(u)->0 >= 1,
        ;
    }
}

/// A letter alone, and one with `iB` behind it, counts in powers of 1024; one
/// with `B` behind it counts in powers of 1000; and `B` alone counts bytes. A
/// size that 64 bits cannot hold is refused, never wrapped.
pub proof fn law_units_are_powers(k: nat, letter: char, n: nat)
    requires
        stands_for(letter, n),
    ensures
        ({
            let binary = k * raised(1024, n);
            let thousands = k * raised(1000, n);
            &&& binary <= u64::MAX ==> size_of(decimal(k) + seq![letter]) == Ok::<u64, SizeFault>(
                binary as u64,
            ) && size_of(decimal(k) + seq![letter, 'i', 'b']) == Ok::<u64, SizeFault>(
                binary as u64,
            )
            &&& binary > u64::MAX ==> size_of(decimal(k) + seq![letter]) is Err && size_of(
                decimal(k) + seq![letter, 'i', 'b'],
            ) is Err
            &&& thousands <= u64::MAX ==> size_of(decimal(k) + seq![letter, 'b']) == Ok::<
                u64,
                SizeFault,
            >(thousands as u64)
            &&& thousands > u64::MAX ==> size_of(decimal(k) + seq![letter, 'b']) is Err
            &&& k <= u64::MAX ==> size_of(decimal(k) + seq!['b']) == Ok::<u64, SizeFault>(k as u64)
        }),
{
    reveal_with_fuel(raised, 6);
    lemma_units_known();
    lemma_letters(k, seq![letter]);
    lemma_letters(k, seq![letter, 'i', 'b']);
    lemma_letters(k, seq![letter, 'b']);
    reveal_strlit("b");
    assert("b"@ =~= seq!['b']);
    lemma_letters(k, seq!['b']);
    assert(raised(1024, 1) == 1024 && raised(1024, 2) == 1048576);
    assert(raised(1024, 3) == 1073741824 && raised(1024, 4) == 1099511627776);
    assert(raised(1000, 1) == 1000 && raised(1000, 2) == 1000000);
    assert(raised(1000, 3) == 1000000000 && raised(1000, 4) == 1000000000000);
    let one = unit_bytes(seq![letter])->0;
    let long = unit_bytes(seq![letter, 'i', 'b'])->0;
    let ten = unit_bytes(seq![letter, 'b'])->0;
    assert(one == raised(1024, n) && long == raised(1024, n) && ten == raised(1000, n));
    assert(k * one == k * raised(1024, n));
    assert(k * long == k * raised(1024, n));
    assert(k * ten == k * raised(1000, n));
    assert(unit_bytes(seq!['b'])->0 == 1);
    assert(k * 1u64 == k) by (nonlinear_arith);
}

/// Only a number with one of these units behind it is a size.
pub proof fn law_other_texts_are_no_sizes(s: Seq<char>)
    requires
        size_of(s) is Ok,
    ensures
        ({
            let t = trim(s);
            exists|n: int|
                #![trigger t.skip(n)]
                {
                    let unit = lower(trim(t.skip(n)));
                    &&& 1 <= n <= t.len()
                    &&& forall|i: int| 0 <= i < n ==> '0' <= #[trigger] t[i] <= '9'
                    &&& {
                        ||| unit == ""@ || unit == "b"@
                        ||| unit == "k"@ || unit == "m"@ || unit == "g"@ || unit == "t"@
                        ||| unit == "kib"@ || unit == "mib"@ || unit == "gib"@ || unit == "tib"@
                        ||| unit == "kb"@ || unit == "mb"@ || unit == "gb"@ || unit == "tb"@
                    }
                }
        }),
{
    let t = trim(s);
    let n = digits_in_front(t) as int;
    lemma_digits_in_front(t);
    assert(unit_bytes(lower(trim(t.skip(n)))) is Some);
}

proof fn lemma_digits_in_front(s: Seq<char>)
    ensures
        digits_in_front(s) <= s.len(),
        forall|i: int| 0 <= i < digits_in_front(s) ==> '0' <= #[trigger] s[i] <= '9',
    decreases s.len(),
{
    if s.len() > 0 && is_digit(s[0]) {
        lemma_digits_in_front(s.skip(1));
        assert forall|i: int| 0 <= i < digits_in_front(s) implies '0' <= #[trigger] s[i] <= '9' by {
            if i > 0 {
                assert(s.skip(1)[i - 1] == s[i]);
            }
        }
    }
}

/// A disk is a whole number of sectors, at least one, and is remarked on unless
/// it is a whole number of mebibytes.
pub proof fn law_disks_are_whole_sectors(bytes: u64, r: Result<()>, w: Option<String>)
    requires
        call_ensures(require_512_aligned, (bytes,), r),
        call_ensures(mib_alignment_warning, (bytes,), w),
    ensures
        r is Ok <==> bytes > 0 && bytes % 512 == 0,
        w is None <==> bytes % 1048576 == 0,
{
}

/// A rendering names the largest unit that the count reaches, and how many
/// whole ones there are.
pub proof fn law_renderings_name_the_unit_reached(bytes: u64)
    ensures
        ({
            let t = human_text(bytes);
            &&& bytes < 1024 ==> t == decimal(bytes as nat) + " B"@
            &&& 1024 <= bytes < 1048576 ==> decimal((bytes / 1024) as nat).is_prefix_of(t)
                && t.skip(t.len() - 3) == "KiB"@
            &&& 1048576 <= bytes < 1073741824 ==> decimal((bytes / 1048576) as nat).is_prefix_of(t)
                && t.skip(t.len() - 3) == "MiB"@
            &&& 1073741824 <= bytes < 1099511627776 ==> decimal(
                (bytes / 1073741824) as nat,
            ).is_prefix_of(t) && t.skip(t.len() - 3) == "GiB"@
            &&& 1099511627776 <= bytes ==> decimal((bytes / 1099511627776) as nat).is_prefix_of(t)
                && t.skip(t.len() - 3) == "TiB"@
        }),
{
    if bytes >= TIB {
        lemma_rendering(bytes, TIB, "TiB"@);
    } else if bytes >= GIB {
        lemma_rendering(bytes, GIB, "GiB"@);
    } else if bytes >= MIB {
        lemma_rendering(bytes, MIB, "MiB"@);
    } else if bytes >= KIB {
        lemma_rendering(bytes, KIB, "KiB"@);
    }
}

proof fn lemma_rendering(bytes: u64, scale: u64, unit: Seq<char>)
    requires
        unit == "KiB"@ || unit == "MiB"@ || unit == "GiB"@ || unit == "TiB"@,
    ensures
        ({
            let t = scaled_text(bytes, scale, unit);
            decimal((bytes / scale) as nat).is_prefix_of(t) && t.skip(t.len() - 3) == unit
        }),
{
    reveal_strlit("KiB");
    reveal_strlit("MiB");
    reveal_strlit("GiB");
    reveal_strlit("TiB");
    let t = scaled_text(bytes, scale, unit);
    assert(t.skip(t.len() - 3) =~= unit);
}

/// Whether a count of `bytes` is rendered in this unit, if it reaches it.
pub open spec fn is_unit_for(bytes: u64, scale: u64, unit: Seq<char>) -> bool {
    ||| scale == 1024 && unit == "KiB"@ && bytes < 1048576
    ||| scale == 1048576 && unit == "MiB"@ && bytes < 1073741824
    ||| scale == 1073741824 && unit == "GiB"@ && bytes < 1099511627776
    ||| scale == 1099511627776 && unit == "TiB"@
}

/// A rendering is exact to the hundredth below: where `h` hundredths of the unit
/// are reached beyond the whole ones, both digits of `h` stand behind the
/// point, and where not one is there is no point.
pub proof fn law_renderings_are_exact_to_the_hundredth(
    bytes: u64,
    scale: u64,
    unit: Seq<char>,
    whole: nat,
    h: nat,
    s: String,
)
    requires
        call_ensures(humanize, (bytes,), s),
        is_unit_for(bytes, scale, unit),
        whole > 0,
        h < 100,
        (whole * 100 + h) * scale <= bytes * 100 < (whole * 100 + h + 1) * scale,
    ensures
        h == 0 ==> s@ == decimal(whole) + " "@ + unit,
        h > 0 ==> s@ == decimal(whole) + "."@ + seq![
            (0x30 + h / 10) as char,
            (0x30 + h % 10) as char,
        ] + " "@ + unit,
{
    let part = bytes - whole * scale;
    assert((whole * 100 + h) * scale == whole * scale * 100 + h * scale) by (nonlinear_arith);
    assert((whole * 100 + h + 1) * scale == whole * scale * 100 + h * scale + scale)
        by (nonlinear_arith);
    assert(0 <= h * scale <= 99 * scale) by (nonlinear_arith)
        requires
            0 <= h < 100,
    ;
    assert(0 <= part < scale);
    vstd::arithmetic::div_mod::lemma_fundamental_div_mod_converse(
        bytes as int,
        scale as int,
        whole as int,
        part,
    );
    let rest = part * 100 - h * scale;
    vstd::arithmetic::div_mod::lemma_fundamental_div_mod_converse(
        part * 100,
        scale as int,
        h as int,
        rest,
    );
    assert(bytes >= scale) by (nonlinear_arith)
        requires
            bytes - whole * scale >= 0,
            whole >= 1,
    ;
    assert(s@ == scaled_text(bytes, scale, unit));
    if h > 0 {
        lemma_two_digits(h);
    }
}

proof fn lemma_two_digits(h: nat)
    requires
        0 < h < 100,
    ensures
        pad_left(decimal(h), 2, '0') == seq![(0x30 + h / 10) as char, (0x30 + h % 10) as char],
{
    let d = decimal(h);
    if h >= 10 {
        assert(d == decimal(h / 10).push(digit(h % 10)));
        assert(decimal(h / 10) == seq![digit(h / 10)]);
        assert(d =~= seq![(0x30 + h / 10) as char, (0x30 + h % 10) as char]);
    } else {
        assert(d == seq![digit(h)]);
        assert(h / 10 == 0 && h % 10 == h);
        assert((0x30 + 0) as char == '0');
        assert(pad_left(d, 2, '0') =~= seq!['0', digit(h)]);
    }
}

} // verus!
