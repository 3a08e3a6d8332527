//! Text handling: characters of strings, decimal and hexadecimal numbers,
//! white space, and the outside text functions the tools rely on.

use vstd::prelude::*;
use vstd::string::axiom_spec_iter;
use vstd::utf8::{decode_utf8, valid_utf8};

verus! {

/// The characters of `s`, one per element.
pub fn str_chars(s: &str) -> (v: Vec<char>)
    ensures
        v@ == s@,
{
    broadcast use axiom_spec_iter;
    let mut v: Vec<char> = Vec::new();
    for c in it: s.chars()
        invariant
            it.seq() == s@,
            v@ == it.seq().take(it.index()),
    {
        v.push(c);
        assert(v@ =~= it.seq().take(it.index() + 1));
    }
    assert(v@ =~= s@);
    v
}


/// `String::push`: appends the character `c`.
#[verifier::external_body]
pub(crate) fn push_char(s: &mut String, c: char)
    ensures
        final(s)@ == old(s)@.push(c),
{
    s.push(c)
}

/// `String::push_str`: appends the characters of `t`.
#[verifier::external_body]
pub(crate) fn push_str(s: &mut String, t: &str)
    ensures
        final(s)@ == old(s)@ + t@,
{
    s.push_str(t)
}

/// The string holding the characters of `v`.
pub fn string_from_chars(v: &[char]) -> (s: String)
    ensures
        s@ == v@,
{
    let mut s = String::new();
    let mut i: usize = 0;
    while i < v.len()
        invariant
            0 <= i <= v@.len(),
            s@ == v@.take(i as int),
        decreases v@.len() - i,
    {
        push_char(&mut s, v[i]);
        assert(s@ =~= v@.take(i + 1));
        i = i + 1;
    }
    assert(v@.take(v@.len() as int) =~= v@);
    s
}

/// Whether two strings hold the same characters.
pub fn str_eq(a: &str, b: &str) -> (r: bool)
    ensures
        r == (a@ == b@),
{
    let x = str_chars(a);
    let y = str_chars(b);
    if x.len() != y.len() {
        return false;
    }
    let mut i: usize = 0;
    while i < x.len()
        invariant
            x@ == a@,
            y@ == b@,
            x@.len() == y@.len(),
            0 <= i <= x@.len(),
            forall|j: int| 0 <= j < i ==> x@[j] == y@[j],
        decreases x@.len() - i,
    {
        if x[i] != y[i] {
            return false;
        }
        i = i + 1;
    }
    assert(x@ =~= y@);
    true
}

/// The character of decimal digit `d`.
pub open spec fn digit_char(d: nat) -> char {
    ((d % 10) + 48) as char
}

/// The decimal representation of `n`, without leading zeros.
pub open spec fn decimal(n: nat) -> Seq<char>
    decreases n,
{
    if n < 10 {
        seq![digit_char(n)]
    } else {
        decimal(n / 10).push(digit_char(n % 10))
    }
}

/// Appends the decimal representation of `n`.
pub fn push_decimal(s: &mut String, n: u64)
    ensures
        final(s)@ == old(s)@ + decimal(n as nat),
    decreases n,
{
    if n >= 10 {
        push_decimal(s, n / 10);
    }
    let d = (n % 10) as u8;
    let c = (d + 48) as char;
    assert(c == digit_char(n as nat % 10));
    push_char(s, c);
    assert(s@ =~= old(s)@ + decimal(n as nat));
}

/// The decimal representation of `n`.
pub fn decimal_string(n: u64) -> (s: String)
    ensures
        s@ == decimal(n as nat),
{
    let mut s = String::new();
    push_decimal(&mut s, n);
    assert(s@ =~= decimal(n as nat));
    s
}

/// Whether `c` is an ASCII decimal digit.
pub open spec fn is_digit(c: char) -> bool {
    '0' <= c && c <= '9'
}

/// The value of decimal digit `c`.
pub open spec fn digit_value(c: char) -> nat {
    (c as u32 - 48) as nat
}

/// Why a text is not an unsigned integer (the kinds that the standard
/// library's integer parsing reports).
#[derive(Clone, Copy, Debug, PartialEq, Eq, Structural)]
pub enum IntErrorKind {
    /// The text is empty.
    Empty,
    /// The text holds a character that is not a digit where a digit must be.
    InvalidDigit,
    /// The value is larger than the type can hold.
    PosOverflow,
}

/// The text the standard library gives for each kind of integer error.
pub open spec fn int_error_text(k: IntErrorKind) -> Seq<char> {
    match k {
        IntErrorKind::Empty => "cannot parse integer from empty string"@,
        IntErrorKind::InvalidDigit => "invalid digit found in string"@,
        IntErrorKind::PosOverflow => "number too large to fit in target type"@,
    }
}

impl IntErrorKind {
    /// The text the standard library gives for this kind of integer error.
    pub fn message(&self) -> (s: &'static str)
        ensures
            s@ == int_error_text(*self),
    {
        match self {
            IntErrorKind::Empty => "cannot parse integer from empty string",
            IntErrorKind::InvalidDigit => "invalid digit found in string",
            IntErrorKind::PosOverflow => "number too large to fit in target type",
        }
    }
}

/// Reads the digits `ds` after the value `acc` already read: each character
/// must be a digit, and the value may not exceed `max`; the first offending
/// character decides the error.
pub open spec fn spec_parse_digits(ds: Seq<char>, acc: nat, max: nat) -> Result<nat, IntErrorKind>
    decreases ds.len(),
{
    if ds.len() == 0 {
        Ok(acc)
    } else if !is_digit(ds[0]) {
        Err(IntErrorKind::InvalidDigit)
    } else if acc * 10 + digit_value(ds[0]) > max {
        Err(IntErrorKind::PosOverflow)
    } else {
        spec_parse_digits(ds.drop_first(), acc * 10 + digit_value(ds[0]), max)
    }
}

/// How the standard library reads an unsigned integer no larger than `max`
/// from text: an optional `+` sign, then one or more decimal digits.
pub open spec fn spec_parse_unsigned(s: Seq<char>, max: nat) -> Result<nat, IntErrorKind> {
    if s.len() == 0 {
        Err(IntErrorKind::Empty)
    } else if (s[0] == '+' || s[0] == '-') && s.len() == 1 {
        Err(IntErrorKind::InvalidDigit)
    } else if s[0] == '+' {
        spec_parse_digits(s.drop_first(), 0, max)
    } else {
        spec_parse_digits(s, 0, max)
    }
}

proof fn lemma_parse_digits_bound(ds: Seq<char>, acc: nat, max: nat)
    requires
        acc <= max,
    ensures
        spec_parse_digits(ds, acc, max) matches Ok(v) ==> v <= max,
    decreases ds.len(),
{
    if ds.len() > 0 && is_digit(ds[0]) && acc * 10 + digit_value(ds[0]) <= max {
        lemma_parse_digits_bound(ds.drop_first(), acc * 10 + digit_value(ds[0]), max);
    }
}

/// Reads an unsigned integer no larger than `max` from the characters
/// `cs`, as `str::parse` does for the unsigned integer types.
pub fn parse_unsigned_chars(cs: &[char], max: u32) -> (r: Result<u32, IntErrorKind>)
    ensures
        match r {
            Ok(v) => spec_parse_unsigned(cs@, max as nat) == Ok::<nat, IntErrorKind>(v as nat),
            Err(e) => spec_parse_unsigned(cs@, max as nat) == Err::<nat, IntErrorKind>(e),
        },
{
    if cs.len() == 0 {
        return Err(IntErrorKind::Empty);
    }
    if (cs[0] == '+' || cs[0] == '-') && cs.len() == 1 {
        return Err(IntErrorKind::InvalidDigit);
    }
    let start: usize = if cs[0] == '+' { 1 } else { 0 };
    assert(start == 1 ==> cs@.skip(1) =~= cs@.drop_first());
    assert(start == 0 ==> cs@.skip(0) =~= cs@);
    let mut acc: u64 = 0;
    let mut i: usize = start;
    while i < cs.len()
        invariant
            start <= i <= cs@.len(),
            acc <= max,
            spec_parse_unsigned(cs@, max as nat) == spec_parse_digits(cs@.skip(i as int), acc as nat, max as nat),
        decreases cs@.len() - i,
    {
        let c = cs[i];
        let ghost rest = cs@.skip(i as int);
        assert(rest[0] == c);
        assert(rest.drop_first() =~= cs@.skip(i + 1));
        if !('0' <= c && c <= '9') {
            return Err(IntErrorKind::InvalidDigit);
        }
        let d = (c as u32 - 48) as u64;
        let next = acc * 10 + d;
        if next > max as u64 {
            return Err(IntErrorKind::PosOverflow);
        }
        acc = next;
        i = i + 1;
    }
    assert(cs@.skip(cs@.len() as int) =~= Seq::<char>::empty());
    Ok(acc as u32)
}

/// Reads an unsigned integer no larger than `max` from `s`, as `str::parse`
/// does for the unsigned integer types.
pub fn parse_unsigned(s: &str, max: u32) -> (r: Result<u32, IntErrorKind>)
    ensures
        match r {
            Ok(v) => spec_parse_unsigned(s@, max as nat) == Ok::<nat, IntErrorKind>(v as nat),
            Err(e) => spec_parse_unsigned(s@, max as nat) == Err::<nat, IntErrorKind>(e),
        },
{
    let cs = str_chars(s);
    parse_unsigned_chars(cs.as_slice(), max)
}

/// Reads a `u8` from `s` as `str::parse::<u8>` does.
pub fn parse_u8(s: &str) -> (r: Result<u8, IntErrorKind>)
    ensures
        match r {
            Ok(v) => spec_parse_unsigned(s@, 255) == Ok::<nat, IntErrorKind>(v as nat),
            Err(e) => spec_parse_unsigned(s@, 255) == Err::<nat, IntErrorKind>(e),
        },
{
    match parse_unsigned(s, 255) {
        Ok(v) => {
            proof { lemma_parse_unsigned_bound(s@, 255); }
            Ok(v as u8)
        },
        Err(e) => Err(e),
    }
}

/// Reads a `u16` from `s` as `str::parse::<u16>` does.
pub fn parse_u16(s: &str) -> (r: Result<u16, IntErrorKind>)
    ensures
        match r {
            Ok(v) => spec_parse_unsigned(s@, 65535) == Ok::<nat, IntErrorKind>(v as nat),
            Err(e) => spec_parse_unsigned(s@, 65535) == Err::<nat, IntErrorKind>(e),
        },
{
    match parse_unsigned(s, 65535) {
        Ok(v) => {
            proof { lemma_parse_unsigned_bound(s@, 65535); }
            Ok(v as u16)
        },
        Err(e) => Err(e),
    }
}

/// Reads a `u32` from `s` as `str::parse::<u32>` does.
pub fn parse_u32(s: &str) -> (r: Result<u32, IntErrorKind>)
    ensures
        match r {
            Ok(v) => spec_parse_unsigned(s@, 0xffff_ffff) == Ok::<nat, IntErrorKind>(v as nat),
            Err(e) => spec_parse_unsigned(s@, 0xffff_ffff) == Err::<nat, IntErrorKind>(e),
        },
{
    parse_unsigned(s, 0xffff_ffff)
}

/// Values read by `spec_parse_unsigned` never exceed the bound.
pub proof fn lemma_parse_unsigned_bound(s: Seq<char>, max: nat)
    ensures
        spec_parse_unsigned(s, max) matches Ok(v) ==> v <= max,
{
    if s.len() > 0 {
        lemma_parse_digits_bound(s.drop_first(), 0, max);
        lemma_parse_digits_bound(s, 0, max);
    }
}


/// Reading one more character extends the value read so far by one
/// digit, or stops with the error that character causes.
proof fn lemma_parse_digits_push(ds: Seq<char>, c: char, acc: nat, max: nat)
    ensures
        spec_parse_digits(ds.push(c), acc, max) == match spec_parse_digits(ds, acc, max) {
            Ok(v) => if !is_digit(c) {
                Err(IntErrorKind::InvalidDigit)
            } else if v * 10 + digit_value(c) > max {
                Err(IntErrorKind::PosOverflow)
            } else {
                Ok(v * 10 + digit_value(c))
            },
            Err(e) => Err(e),
        },
    decreases ds.len(),
{
    let t = ds.push(c);
    if ds.len() == 0 {
        assert(t.drop_first() =~= Seq::<char>::empty());
        assert(t[0] == c);
        assert(spec_parse_digits(ds, acc, max) == Ok::<nat, IntErrorKind>(acc));
        if is_digit(c) && acc * 10 + digit_value(c) <= max {
            assert(spec_parse_digits(t.drop_first(), acc * 10 + digit_value(c), max) == Ok::<nat, IntErrorKind>(
                acc * 10 + digit_value(c),
            ));
        }
    } else {
        assert(t[0] == ds[0]);
        assert(t.drop_first() =~= ds.drop_first().push(c));
        if is_digit(ds[0]) && acc * 10 + digit_value(ds[0]) <= max {
            lemma_parse_digits_push(ds.drop_first(), c, acc * 10 + digit_value(ds[0]), max);
        }
    }
}

/// The characters of a decimal representation are digits, and the
/// first is never a sign.
pub proof fn lemma_decimal_digits(n: nat)
    ensures
        decimal(n).len() >= 1,
        forall|i: int| 0 <= i < decimal(n).len() ==> is_digit(#[trigger] decimal(n)[i]),
    decreases n,
{
    if n >= 10 {
        lemma_decimal_digits(n / 10);
    }
    assert forall|d: nat| d < 10 implies is_digit(#[trigger] digit_char(d)) && digit_value(digit_char(d)) == d by {
        assert(d % 10 == d);
    }
    assert(is_digit(digit_char(n % 10)));
}

/// Reading back the decimal representation of a number gives the number,
/// as long as it does not exceed the bound.
pub proof fn lemma_parse_decimal(n: nat, max: nat)
    requires
        n <= max,
    ensures
        spec_parse_unsigned(decimal(n), max) == Ok::<nat, IntErrorKind>(n),
{
    lemma_decimal_digits(n);
    lemma_parse_decimal_digits(n, max);
    let s = decimal(n);
    assert(is_digit(s[0]));
}

/// The digits of `decimal(n)` read as `n`.
proof fn lemma_parse_decimal_digits(n: nat, max: nat)
    requires
        n <= max,
    ensures
        spec_parse_digits(decimal(n), 0, max) == Ok::<nat, IntErrorKind>(n),
    decreases n,
{
    assert forall|d: nat| d < 10 implies is_digit(#[trigger] digit_char(d)) && digit_value(digit_char(d)) == d by {
        assert(d % 10 == d);
    }
    if n < 10 {
        let s = decimal(n);
        assert(s == seq![digit_char(n)]);
        assert(s.drop_first() =~= Seq::<char>::empty());
        assert(digit_value(digit_char(n)) == n);
        assert(is_digit(s[0]));
        assert(0 * 10 + digit_value(s[0]) == n);
        assert(spec_parse_digits(s.drop_first(), n, max) == Ok::<nat, IntErrorKind>(n));
    } else {
        lemma_parse_decimal_digits(n / 10, max);
        lemma_parse_digits_push(decimal(n / 10), digit_char(n % 10), 0, max);
        assert(digit_value(digit_char(n % 10)) == n % 10);
        assert((n / 10) * 10 + n % 10 == n);
    }
}

/// Whether `c` is white space (the Unicode `White_Space` property, as
/// `char::is_whitespace` decides it).
pub open spec fn is_ws(c: char) -> bool {
    ('\u{9}' <= c && c <= '\u{d}') || c == ' ' || c == '\u{85}' || c == '\u{a0}' || c == '\u{1680}'
        || ('\u{2000}' <= c && c <= '\u{200a}') || c == '\u{2028}' || c == '\u{2029}' || c
        == '\u{202f}' || c == '\u{205f}' || c == '\u{3000}'
}

/// Whether `c` is white space.
pub fn is_whitespace(c: char) -> (r: bool)
    ensures
        r == is_ws(c),
{
    ('\u{9}' <= c && c <= '\u{d}') || c == ' ' || c == '\u{85}' || c == '\u{a0}' || c == '\u{1680}'
        || ('\u{2000}' <= c && c <= '\u{200a}') || c == '\u{2028}' || c == '\u{2029}' || c
        == '\u{202f}' || c == '\u{205f}' || c == '\u{3000}'
}

/// `s` without its leading white space.
pub open spec fn trim_start(s: Seq<char>) -> Seq<char>
    decreases s.len(),
{
    if s.len() > 0 && is_ws(s[0]) {
        trim_start(s.drop_first())
    } else {
        s
    }
}

/// `s` without its trailing white space.
pub open spec fn trim_end(s: Seq<char>) -> Seq<char>
    decreases s.len(),
{
    if s.len() > 0 && is_ws(s.last()) {
        trim_end(s.drop_last())
    } else {
        s
    }
}

/// `s` without leading and trailing white space, as `str::trim` gives it.
pub open spec fn trim(s: Seq<char>) -> Seq<char> {
    trim_end(trim_start(s))
}

/// The characters of `s` without leading and trailing white space.
pub fn trim_chars(s: &[char]) -> (r: Vec<char>)
    ensures
        r@ == trim(s@),
{
    let mut lo: usize = 0;
    assert(s@.skip(0) =~= s@);
    while lo < s.len() && is_whitespace(s[lo])
        invariant
            0 <= lo <= s@.len(),
            trim_start(s@) == trim_start(s@.skip(lo as int)),
        decreases s@.len() - lo,
    {
        assert(s@.skip(lo as int).drop_first() =~= s@.skip(lo + 1));
        lo = lo + 1;
    }
    let ghost t = s@.skip(lo as int);
    assert(trim_start(s@) == t);
    let mut hi: usize = s.len();
    assert(t.take(t.len() as int) =~= t);
    while hi > lo && is_whitespace(s[hi - 1])
        invariant
            lo <= hi <= s@.len(),
            t == s@.skip(lo as int),
            trim_end(t) == trim_end(t.take(hi - lo)),
        decreases hi,
    {
        assert(t.take(hi - lo).last() == s@[hi - 1]);
        assert(t.take(hi - lo).drop_last() =~= t.take(hi - 1 - lo));
        hi = hi - 1;
    }
    let mut r: Vec<char> = Vec::new();
    let mut i: usize = lo;
    while i < hi
        invariant
            lo <= i <= hi <= s@.len(),
            r@ =~= s@.subrange(lo as int, i as int),
        decreases hi - i,
    {
        r.push(s[i]);
        i = i + 1;
    }
    assert(r@ =~= t.take(hi - lo));
    r
}

/// The pieces of `s` separated by `sep`, continuing a piece `cur` already
/// begun; as `str::split` gives them, there is always at least one piece.
pub open spec fn pieces_from(s: Seq<char>, sep: char, cur: Seq<char>) -> Seq<Seq<char>>
    decreases s.len(),
{
    if s.len() == 0 {
        seq![cur]
    } else if s[0] == sep {
        seq![cur] + pieces_from(s.drop_first(), sep, seq![])
    } else {
        pieces_from(s.drop_first(), sep, cur.push(s[0]))
    }
}

/// There is always at least one piece.
pub proof fn lemma_pieces_nonempty(s: Seq<char>, sep: char, cur: Seq<char>)
    ensures
        pieces_from(s, sep, cur).len() >= 1,
    decreases s.len(),
{
    if s.len() > 0 {
        if s[0] == sep {
            lemma_pieces_nonempty(s.drop_first(), sep, seq![]);
        } else {
            lemma_pieces_nonempty(s.drop_first(), sep, cur.push(s[0]));
        }
    }
}

/// The pieces of `s` separated by `sep`, as `str::split` gives them.
pub open spec fn split_on(s: Seq<char>, sep: char) -> Seq<Seq<char>> {
    pieces_from(s, sep, seq![])
}

/// Splits `s` at each `sep`.
pub fn split_chars(s: &[char], sep: char) -> (r: Vec<Vec<char>>)
    ensures
        r@.map_values(|p: Vec<char>| p@) == split_on(s@, sep),
        r@.len() >= 1,
{
    proof { lemma_pieces_nonempty(s@, sep, seq![]); }
    let mut r: Vec<Vec<char>> = Vec::new();
    let mut cur: Vec<char> = Vec::new();
    let mut i: usize = 0;
    assert(s@.skip(0) =~= s@);
    while i < s.len()
        invariant
            0 <= i <= s@.len(),
            r@.map_values(|p: Vec<char>| p@) + pieces_from(s@.skip(i as int), sep, cur@) == split_on(s@, sep),
        decreases s@.len() - i,
    {
        let ghost rest = s@.skip(i as int);
        assert(rest[0] == s@[i as int]);
        assert(rest.drop_first() =~= s@.skip(i + 1));
        let ghost before = r@.map_values(|p: Vec<char>| p@);
        if s[i] == sep {
            let piece = cur;
            cur = Vec::new();
            r.push(piece);
            assert(r@.map_values(|p: Vec<char>| p@) =~= before.push(piece@));
            assert(r@.map_values(|p: Vec<char>| p@) + pieces_from(s@.skip(i + 1), sep, cur@) =~= before + pieces_from(rest, sep, piece@));
        } else {
            let ghost old_cur = cur@;
            cur.push(s[i]);
            assert(cur@ == old_cur.push(s@[i as int]));
        }
        i = i + 1;
    }
    let ghost before = r@.map_values(|p: Vec<char>| p@);
    let ghost last = cur@;
    r.push(cur);
    assert(s@.skip(s@.len() as int) =~= Seq::<char>::empty());
    assert(r@.map_values(|p: Vec<char>| p@) =~= before + seq![last]);
    r
}

proof fn lemma_pieces_absent(s: Seq<char>, sep: char, cur: Seq<char>)
    requires
        forall|i: int| 0 <= i < s.len() ==> s[i] != sep,
    ensures
        pieces_from(s, sep, cur) == seq![cur + s],
    decreases s.len(),
{
    if s.len() == 0 {
        assert(cur + s =~= cur);
    } else {
        assert(s[0] != sep);
        lemma_pieces_absent(s.drop_first(), sep, cur.push(s[0]));
        assert(cur.push(s[0]) + s.drop_first() =~= cur + s);
    }
}

/// A text without the separator is one piece: itself.
pub proof fn lemma_split_on_absent(s: Seq<char>, sep: char)
    requires
        forall|i: int| 0 <= i < s.len() ==> s[i] != sep,
    ensures
        split_on(s, sep) == seq![s],
{
    lemma_pieces_absent(s, sep, seq![]);
    assert(Seq::<char>::empty() + s =~= s);
}

proof fn lemma_words_no_ws(w: Seq<char>, t: Seq<char>, cur: Seq<char>)
    requires
        forall|i: int| 0 <= i < w.len() ==> !is_ws(#[trigger] w[i]),
    ensures
        words_from(w + t, cur) == words_from(t, cur + w),
    decreases w.len(),
{
    if w.len() == 0 {
        assert(w + t =~= t);
        assert(cur + w =~= cur);
    } else {
        assert((w + t)[0] == w[0]);
        assert((w + t).drop_first() =~= w.drop_first() + t);
        assert(!is_ws(w[0]));
        lemma_words_no_ws(w.drop_first(), t, cur.push(w[0]));
        assert(cur.push(w[0]) + w.drop_first() =~= cur + w);
    }
}

/// Two words without white space, joined by one space, split back into
/// those two words.
pub proof fn lemma_split_ws_two(w: Seq<char>, h: Seq<char>)
    requires
        w.len() > 0,
        h.len() > 0,
        forall|i: int| 0 <= i < w.len() ==> !is_ws(#[trigger] w[i]),
        forall|i: int| 0 <= i < h.len() ==> !is_ws(#[trigger] h[i]),
    ensures
        split_ws(w + seq![' '] + h) == seq![w, h],
{
    let t = seq![' '] + h;
    assert(w + seq![' '] + h =~= w + t);
    lemma_words_no_ws(w, t, seq![]);
    assert(Seq::<char>::empty() + w =~= w);
    assert(t[0] == ' ' && is_ws(' '));
    assert(t.drop_first() =~= h);
    lemma_words_no_ws(h, seq![], seq![]);
    assert(h + Seq::<char>::empty() =~= h);
    assert(Seq::<char>::empty() + h =~= h);
    assert(words_from(Seq::<char>::empty(), h) == seq![h]);
    assert(words_from(t, w) == seq![w] + words_from(h, seq![]));
    assert(seq![w] + seq![h] =~= seq![w, h]);
}

/// A text that neither begins nor ends with white space is its own trim.
pub proof fn lemma_trim_fixed(s: Seq<char>)
    requires
        s.len() == 0 || (!is_ws(s[0]) && !is_ws(s.last())),
    ensures
        trim(s) == s,
{
}

/// A text split at its first separator: the part before it, then the
/// pieces of the rest.
pub proof fn lemma_split_on_first(a: Seq<char>, sep: char, b: Seq<char>)
    requires
        forall|i: int| 0 <= i < a.len() ==> a[i] != sep,
    ensures
        split_on(a + seq![sep] + b, sep) == seq![a] + split_on(b, sep),
{
    lemma_pieces_before(a, sep, b, seq![]);
    assert(Seq::<char>::empty() + a =~= a);
}

proof fn lemma_pieces_before(a: Seq<char>, sep: char, b: Seq<char>, cur: Seq<char>)
    requires
        forall|i: int| 0 <= i < a.len() ==> a[i] != sep,
    ensures
        pieces_from(a + seq![sep] + b, sep, cur) == seq![cur + a] + pieces_from(b, sep, seq![]),
    decreases a.len(),
{
    let s = a + seq![sep] + b;
    if a.len() == 0 {
        assert(s[0] == sep);
        assert(s.drop_first() =~= b);
        assert(cur + a =~= cur);
    } else {
        assert(s[0] == a[0] && a[0] != sep);
        assert(s.drop_first() =~= a.drop_first() + seq![sep] + b);
        lemma_pieces_before(a.drop_first(), sep, b, cur.push(a[0]));
        assert(cur.push(a[0]) + a.drop_first() =~= cur + a);
    }
}

/// The words of `s` separated by white space, continuing a word `cur`
/// already begun.
pub open spec fn words_from(s: Seq<char>, cur: Seq<char>) -> Seq<Seq<char>>
    decreases s.len(),
{
    if s.len() == 0 {
        if cur.len() > 0 { seq![cur] } else { seq![] }
    } else if is_ws(s[0]) {
        (if cur.len() > 0 { seq![cur] } else { seq![] }) + words_from(s.drop_first(), seq![])
    } else {
        words_from(s.drop_first(), cur.push(s[0]))
    }
}

/// The words of `s` separated by runs of white space, as
/// `str::split_whitespace` gives them.
pub open spec fn split_ws(s: Seq<char>) -> Seq<Seq<char>> {
    words_from(s, seq![])
}

/// Splits `s` into its white-space-separated words.
pub fn split_whitespace_chars(s: &[char]) -> (r: Vec<Vec<char>>)
    ensures
        r@.map_values(|p: Vec<char>| p@) == split_ws(s@),
{
    let mut r: Vec<Vec<char>> = Vec::new();
    let mut cur: Vec<char> = Vec::new();
    let mut i: usize = 0;
    assert(s@.skip(0) =~= s@);
    assert(r@.map_values(|p: Vec<char>| p@) + split_ws(s@) =~= split_ws(s@));
    while i < s.len()
        invariant
            0 <= i <= s@.len(),
            r@.map_values(|p: Vec<char>| p@) + words_from(s@.skip(i as int), cur@) == split_ws(s@),
        decreases s@.len() - i,
    {
        let ghost rest = s@.skip(i as int);
        assert(rest[0] == s@[i as int]);
        assert(rest.drop_first() =~= s@.skip(i + 1));
        let ghost before = r@.map_values(|p: Vec<char>| p@);
        if is_whitespace(s[i]) {
            if cur.len() > 0 {
                let piece = cur;
                cur = Vec::new();
                r.push(piece);
                assert(r@.map_values(|p: Vec<char>| p@) =~= before.push(piece@));
                assert(r@.map_values(|p: Vec<char>| p@) + words_from(s@.skip(i + 1), cur@) =~= before + words_from(rest, piece@));
            } else {
                assert(cur@ =~= Seq::<char>::empty());
                assert(Seq::<Seq<char>>::empty() + words_from(s@.skip(i + 1), cur@) =~= words_from(s@.skip(i + 1), cur@));
                assert(words_from(rest, cur@) == words_from(s@.skip(i + 1), cur@));
            }
        } else {
            let ghost old_cur = cur@;
            cur.push(s[i]);
            assert(cur@ == old_cur.push(s@[i as int]));
        }
        i = i + 1;
    }
    assert(s@.skip(s@.len() as int) =~= Seq::<char>::empty());
    let ghost before = r@.map_values(|p: Vec<char>| p@);
    if cur.len() > 0 {
        let ghost last = cur@;
        r.push(cur);
        assert(r@.map_values(|p: Vec<char>| p@) =~= before + seq![last]);
    } else {
        assert(before + Seq::<Seq<char>>::empty() =~= before);
    }
    r
}


/// The text `String::from_utf8_lossy` makes of `bytes`: the UTF-8 they
/// encode, with each invalid sequence replaced by U+FFFD.
pub uninterp spec fn utf8_lossy(bytes: Seq<u8>) -> Seq<char>;

/// `String::from_utf8_lossy`: the text of `bytes`, invalid UTF-8 sequences
/// replaced by U+FFFD; valid UTF-8 comes back as the text it encodes, and
/// bytes give at least one character (each invalid sequence becomes one).
#[verifier::external_body]
pub(crate) fn lossy_string(bytes: &[u8]) -> (s: String)
    ensures
        s@ == utf8_lossy(bytes@),
        valid_utf8(bytes@) ==> s@ == decode_utf8(bytes@),
        bytes@.len() > 0 ==> s@.len() > 0,
{
    String::from_utf8_lossy(bytes).into_owned()
}

}
