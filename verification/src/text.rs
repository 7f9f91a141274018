//! Text handling shared by the whole library: reading the characters of a
//! string, comparing strings, splitting text into pieces, reading integers and
//! booleans the way `str::parse` does, and writing decimal numbers.

use vstd::prelude::*;

verus! {

// ---------------------------------------------------------------------------
// Characters and strings
// ---------------------------------------------------------------------------

/// The characters of `s`, in order.
pub fn chars_of(s: &str) -> (v: Vec<char>)
    ensures
        v@ == s@,
{
    let mut v: Vec<char> = Vec::new();
    for c in it: s.chars()
        invariant
            v@ == it.seq().take(it.index() as int),
    {
        v.push(c);
    }
    v
}

/// Appends one character to a string: `String::push`. Claimed: the text
/// afterwards is the text before followed by `c`, as its documentation says.
#[verifier::external_body]
pub(crate) fn push_char(s: &mut String, c: char)
    ensures
        final(s)@ == old(s)@.push(c),
{
    s.push(c);
}

/// Builds a string out of characters.
pub fn string_from_chars(cs: &Vec<char>) -> (s: String)
    ensures
        s@ == cs@,
{
    let mut s = String::new();
    for i in 0..cs.len()
        invariant
            s@ == cs@.take(i as int),
    {
        push_char(&mut s, cs[i]);
        assert(cs@.take(i as int).push(cs@[i as int]) == cs@.take(i + 1));
    }
    assert(cs@.take(cs.len() as int) == cs@);
    s
}

/// Whether the string `s` holds exactly the text `lit`.
pub fn string_is(s: &String, lit: &str) -> (r: bool)
    ensures
        r == (s@ == lit@),
{
    let other = String::from_str(lit);
    *s == other
}

/// Whether two strings hold the same text.
pub fn same_text(a: &String, b: &String) -> (r: bool)
    ensures
        r == (a@ == b@),
{
    *a == *b
}

/// Whether the characters `cs` are exactly the text `lit`.
pub fn chars_are(cs: &Vec<char>, lit: &str) -> (r: bool)
    ensures
        r == (cs@ == lit@),
{
    let other = chars_of(lit);
    if cs.len() != other.len() {
        return false;
    }
    for i in 0..cs.len()
        invariant
            cs.len() == other.len(),
            other@ == lit@,
            forall|j: int| 0 <= j < i ==> cs@[j] == other@[j],
    {
        if cs[i] != other[i] {
            return false;
        }
    }
    assert(cs@ == other@);
    true
}

// ---------------------------------------------------------------------------
// White space and splitting
// ---------------------------------------------------------------------------

/// The characters that carry the Unicode `White_Space` property, which is
/// what `char::is_whitespace` (and so `str::split_whitespace`) goes by.
pub open spec fn is_white_space(c: char) -> bool {
    ||| ('\u{9}' <= c && c <= '\u{d}')
    ||| c == ' '
    ||| c == '\u{85}'
    ||| c == '\u{a0}'
    ||| c == '\u{1680}'
    ||| ('\u{2000}' <= c && c <= '\u{200a}')
    ||| c == '\u{2028}'
    ||| c == '\u{2029}'
    ||| c == '\u{202f}'
    ||| c == '\u{205f}'
    ||| c == '\u{3000}'
}

/// Whether `c` is a white-space character (`char::is_whitespace`).
pub fn char_is_white_space(c: char) -> (r: bool)
    ensures
        r == is_white_space(c),
{
    ('\u{9}' <= c && c <= '\u{d}') || c == ' ' || c == '\u{85}' || c == '\u{a0}' || c == '\u{1680}'
        || ('\u{2000}' <= c && c <= '\u{200a}') || c == '\u{2028}' || c == '\u{2029}' || c
        == '\u{202f}' || c == '\u{205f}' || c == '\u{3000}'
}

/// Separators: white space when `on_white_space`, otherwise the semicolon.
pub open spec fn is_separator(c: char, on_white_space: bool) -> bool {
    if on_white_space {
        is_white_space(c)
    } else {
        c == ';'
    }
}

/// Splitting the rest of a text `s`, given the piece `current` read so far and
/// the finished pieces `done`: empty pieces are dropped.
pub open spec fn pieces_from(
    s: Seq<char>,
    on_white_space: bool,
    current: Seq<char>,
    done: Seq<Seq<char>>,
) -> Seq<Seq<char>>
    decreases s.len(),
{
    if s.len() == 0 {
        if current.len() > 0 {
            done.push(current)
        } else {
            done
        }
    } else if is_separator(s[0], on_white_space) {
        pieces_from(
            s.drop_first(),
            on_white_space,
            Seq::empty(),
            if current.len() > 0 {
                done.push(current)
            } else {
                done
            },
        )
    } else {
        pieces_from(s.drop_first(), on_white_space, current.push(s[0]), done)
    }
}

/// The non-empty pieces of `s` between separators, in order. With white space
/// as separator this is `str::split_whitespace`; with the semicolon it is
/// `str::split(';')` without the empty pieces.
pub open spec fn nonempty_pieces(s: Seq<char>, on_white_space: bool) -> Seq<Seq<char>> {
    pieces_from(s, on_white_space, Seq::empty(), Seq::empty())
}

/// The non-empty pieces of `cs` between separators (see `nonempty_pieces`).
pub fn split_pieces(cs: &Vec<char>, on_white_space: bool) -> (r: Vec<Vec<char>>)
    ensures
        r@.map_values(|p: Vec<char>| p@) == nonempty_pieces(cs@, on_white_space),
{
    let mut done: Vec<Vec<char>> = Vec::new();
    let mut current: Vec<char> = Vec::new();
    let ghost whole = cs@;
    let mut i: usize = 0;
    assert(whole.skip(0) == whole);
    assert(done@.map_values(|p: Vec<char>| p@) =~= Seq::<Seq<char>>::empty());
    while i < cs.len()
        invariant
            0 <= i <= cs.len(),
            whole == cs@,
            nonempty_pieces(whole, on_white_space) == pieces_from(
                whole.skip(i as int),
                on_white_space,
                current@,
                done@.map_values(|p: Vec<char>| p@),
            ),
        decreases cs.len() - i,
    {
        let c = cs[i];
        assert(whole.skip(i as int).drop_first() == whole.skip(i + 1));
        assert(whole.skip(i as int)[0] == c);
        let sep = if on_white_space {
            char_is_white_space(c)
        } else {
            c == ';'
        };
        if sep {
            if current.len() > 0 {
                let ghost before = done@.map_values(|p: Vec<char>| p@);
                let piece = current;
                done.push(piece);
                assert(done@.map_values(|p: Vec<char>| p@) =~= before.push(piece@));
            }
            current = Vec::new();
            assert(current@ == Seq::<char>::empty());
        } else {
            current.push(c);
        }
        i = i + 1;
    }
    assert(whole.skip(i as int).len() == 0);
    if current.len() > 0 {
        let ghost before = done@.map_values(|p: Vec<char>| p@);
        let piece = current;
        done.push(piece);
        assert(done@.map_values(|p: Vec<char>| p@) =~= before.push(piece@));
    }
    done
}

// ---------------------------------------------------------------------------
// Integers and booleans, read as `str::parse` reads them
// ---------------------------------------------------------------------------

pub open spec fn is_digit(c: char) -> bool {
    '0' <= c && c <= '9'
}

pub open spec fn digit_value(c: char) -> nat {
    (c as int - 48) as nat
}

pub open spec fn all_digits(s: Seq<char>) -> bool {
    forall|i: int| 0 <= i < s.len() ==> is_digit(#[trigger] s[i])
}

/// The number written by the decimal digits `s`.
pub open spec fn decimal_value(s: Seq<char>) -> nat
    decreases s.len(),
{
    if s.len() == 0 {
        0
    } else {
        decimal_value(s.drop_last()) * 10 + digit_value(s.last())
    }
}

/// The value `str::parse` gives for an unsigned integer type whose largest
/// value is `max`: an optional `+`, then at least one decimal digit, and a value
/// that fits.
pub open spec fn unsigned_text_value(s: Seq<char>, max: nat) -> Option<nat> {
    let body = if s.len() > 0 && s[0] == '+' {
        s.drop_first()
    } else {
        s
    };
    if body.len() > 0 && all_digits(body) && decimal_value(body) <= max {
        Some(decimal_value(body))
    } else {
        None
    }
}

/// The value `str::parse` gives for a signed integer type ranging over
/// `min ..= max`: an optional `+` or `-`, then at least one decimal digit, and a
/// value that fits.
pub open spec fn signed_text_value(s: Seq<char>, min: int, max: int) -> Option<int> {
    if s.len() > 0 && s[0] == '-' {
        let body = s.drop_first();
        if body.len() > 0 && all_digits(body) && -(decimal_value(body) as int) >= min {
            Some(-(decimal_value(body) as int))
        } else {
            None
        }
    } else {
        match unsigned_text_value(s, max as nat) {
            Some(v) => Some(v as int),
            None => None,
        }
    }
}

pub open spec fn u32_text_value(s: Seq<char>) -> Option<u32> {
    match unsigned_text_value(s, u32::MAX as nat) {
        Some(v) => Some(v as u32),
        None => None,
    }
}

pub open spec fn i32_text_value(s: Seq<char>) -> Option<i32> {
    match signed_text_value(s, i32::MIN as int, i32::MAX as int) {
        Some(v) => Some(v as i32),
        None => None,
    }
}

pub open spec fn i64_text_value(s: Seq<char>) -> Option<i64> {
    match signed_text_value(s, i64::MIN as int, i64::MAX as int) {
        Some(v) => Some(v as i64),
        None => None,
    }
}

/// The value `str::parse::<bool>` gives: only `true` and `false` are read.
pub open spec fn bool_text_value(s: Seq<char>) -> Option<bool> {
    if s == "true"@ {
        Some(true)
    } else if s == "false"@ {
        Some(false)
    } else {
        None
    }
}

proof fn lemma_decimal_prefix_grows(s: Seq<char>, i: int, j: int)
    requires
        0 <= i <= j <= s.len(),
    ensures
        decimal_value(s.take(i)) <= decimal_value(s.take(j)),
    decreases j - i,
{
    if i < j {
        lemma_decimal_prefix_grows(s, i, j - 1);
        assert(s.take(j).drop_last() == s.take(j - 1));
    }
}

/// Reads the digits `cs[start..]` as a number no larger than `limit`.
fn bounded_decimal(cs: &Vec<char>, start: usize, limit: u64) -> (r: Option<u64>)
    requires
        start <= cs.len(),
    ensures
        ({
            let body = cs@.skip(start as int);
            r == if body.len() > 0 && all_digits(body) && decimal_value(body) <= limit {
                Some(decimal_value(body) as u64)
            } else {
                None
            }
        }),
{
    let ghost body = cs@.skip(start as int);
    if start == cs.len() {
        return None;
    }
    let mut acc: u64 = 0;
    let mut i: usize = start;
    while i < cs.len()
        invariant
            start <= i <= cs.len(),
            body == cs@.skip(start as int),
            all_digits(body.take(i - start)),
            acc as nat == decimal_value(body.take(i - start)),
            acc <= limit,
        decreases cs.len() - i,
    {
        let c = cs[i];
        assert(body[i - start] == c);
        if !('0' <= c && c <= '9') {
            return None;
        }
        let d: u64 = ((c as u32) - 48) as u64;
        assert(body.take(i + 1 - start).drop_last() == body.take(i - start));
        if d > limit || acc > (limit - d) / 10 {
            proof {
                assert(acc * 10 + d > limit) by (nonlinear_arith)
                    requires
                        d > limit || acc > (limit - d) / 10,
                        d <= 9,
                ;
                lemma_decimal_prefix_grows(body, i + 1 - start, body.len() as int);
                assert(body.take(body.len() as int) == body);
            }
            return None;
        }
        proof {
            assert(acc * 10 + d <= limit) by (nonlinear_arith)
                requires
                    d <= limit,
                    acc <= (limit - d) / 10,
            ;
        }
        acc = acc * 10 + d;
        i = i + 1;
        assert forall|k: int| 0 <= k < i - start implies is_digit(
            #[trigger] body.take(i - start)[k],
        ) by {
            if k < i - 1 - start {
                assert(body.take(i - 1 - start)[k] == body.take(i - start)[k]);
            }
        }
    }
    assert(body.take(i - start) == body);
    Some(acc)
}

/// Reads an unsigned integer no larger than `max` (see `unsigned_text_value`).
fn read_unsigned(cs: &Vec<char>, max: u64) -> (r: Option<u64>)
    ensures
        r == match unsigned_text_value(cs@, max as nat) {
            Some(v) => Some(v as u64),
            None => None,
        },
{
    let start: usize = if cs.len() > 0 && cs[0] == '+' {
        1
    } else {
        0
    };
    assert(start == 1 ==> cs@.skip(1) == cs@.drop_first());
    assert(start == 0 ==> cs@.skip(0) == cs@);
    bounded_decimal(cs, start, max)
}

/// Reads a signed integer in `-(max + 1) ..= max` (see `signed_text_value`).
fn read_signed(cs: &Vec<char>, max: u64) -> (r: Option<i128>)
    requires
        max < u64::MAX,
    ensures
        r == match signed_text_value(cs@, -(max + 1), max as int) {
            Some(v) => Some(v as i128),
            None => None,
        },
{
    if cs.len() > 0 && cs[0] == '-' {
        assert(cs@.skip(1) == cs@.drop_first());
        match bounded_decimal(cs, 1, max + 1) {
            Some(v) => Some(-(v as i128)),
            None => None,
        }
    } else {
        match read_unsigned(cs, max) {
            Some(v) => Some(v as i128),
            None => None,
        }
    }
}

/// `str::parse::<u32>`, `None` for an error.
pub fn parse_u32(cs: &Vec<char>) -> (r: Option<u32>)
    ensures
        r == u32_text_value(cs@),
{
    match read_unsigned(cs, 0xffff_ffff) {
        Some(v) => Some(v as u32),
        None => None,
    }
}

/// `str::parse::<i32>`, `None` for an error.
pub fn parse_i32(cs: &Vec<char>) -> (r: Option<i32>)
    ensures
        r == i32_text_value(cs@),
{
    match read_signed(cs, 0x7fff_ffff) {
        Some(v) => Some(v as i32),
        None => None,
    }
}

/// `str::parse::<i64>`, `None` for an error.
pub fn parse_i64(cs: &Vec<char>) -> (r: Option<i64>)
    ensures
        r == i64_text_value(cs@),
{
    match read_signed(cs, 0x7fff_ffff_ffff_ffff) {
        Some(v) => Some(v as i64),
        None => None,
    }
}

/// `str::parse::<bool>`, `None` for an error.
pub fn parse_bool(s: &String) -> (r: Option<bool>)
    ensures
        r == bool_text_value(s@),
{
    if string_is(s, "true") {
        Some(true)
    } else if string_is(s, "false") {
        Some(false)
    } else {
        None
    }
}

/// The text of `s` read as a `u32` (`str::parse::<u32>`).
pub fn text_to_u32(s: &String) -> (r: Option<u32>)
    ensures
        r == u32_text_value(s@),
{
    let cs = chars_of(s.as_str());
    parse_u32(&cs)
}

/// The text of `s` read as an `i32` (`str::parse::<i32>`).
pub fn text_to_i32(s: &String) -> (r: Option<i32>)
    ensures
        r == i32_text_value(s@),
{
    let cs = chars_of(s.as_str());
    parse_i32(&cs)
}

/// The text of `s` read as an `i64` (`str::parse::<i64>`).
pub fn text_to_i64(s: &String) -> (r: Option<i64>)
    ensures
        r == i64_text_value(s@),
{
    let cs = chars_of(s.as_str());
    parse_i64(&cs)
}

// ---------------------------------------------------------------------------
// Writing decimal numbers
// ---------------------------------------------------------------------------

pub open spec fn digit_char(d: nat) -> char {
    (d + 48) as char
}

/// The decimal digits of `n`, as `{}` writes them.
pub open spec fn decimal_text(n: nat) -> Seq<char>
    decreases n,
{
    if n < 10 {
        seq![digit_char(n)]
    } else {
        decimal_text(n / 10).push(digit_char(n % 10))
    }
}

/// `text` preceded by as many `0` as make it `width` long (`{:0width$}`).
pub open spec fn zero_padded(text: Seq<char>, width: nat) -> Seq<char> {
    if text.len() >= width {
        text
    } else {
        Seq::new((width - text.len()) as nat, |i: int| '0') + text
    }
}

/// Appends the decimal digits of `n`.
pub fn push_decimal(s: &mut String, n: u64)
    ensures
        final(s)@ == old(s)@ + decimal_text(n as nat),
    decreases n,
{
    if n >= 10 {
        push_decimal(s, n / 10);
    }
    let d: u64 = n % 10;
    let c = ((d as u8) + 48) as char;
    push_char(s, c);
}

/// The number of decimal digits of `n`.
fn decimal_len(n: u64) -> (r: u64)
    ensures
        r == decimal_text(n as nat).len(),
        1 <= r <= n as int + 1,
    decreases n,
{
    if n < 10 {
        1
    } else {
        let k = decimal_len(n / 10);
        k + 1
    }
}

/// Appends the decimal digits of `n`, led by zeros up to `width` characters.
pub fn push_zero_padded(s: &mut String, n: u64, width: u64)
    ensures
        final(s)@ == old(s)@ + zero_padded(decimal_text(n as nat), width as nat),
{
    let len = decimal_len(n);
    let ghost start = s@;
    if len < width {
        let mut k: u64 = 0;
        while k < width - len
            invariant
                len < width,
                k <= width - len,
                s@ == start + Seq::new(k as nat, |i: int| '0'),
            decreases width - len - k,
        {
            push_char(s, '0');
            k = k + 1;
            assert(Seq::new((k - 1) as nat, |i: int| '0').push('0') == Seq::new(k as nat, |i: int| '0'));
        }
    }
    let ghost mid = s@;
    push_decimal(s, n);
    assert(s@ == start + zero_padded(decimal_text(n as nat), width as nat));
}

// ---------------------------------------------------------------------------
// Floating-point literals, as `str::parse::<f32>` accepts them
// ---------------------------------------------------------------------------

pub open spec fn ascii_lower(c: char) -> char {
    if 'A' <= c && c <= 'Z' {
        ((c as int) + 32) as char
    } else {
        c
    }
}

/// Whether `s` is `lit` (given in lower case) up to the case of ASCII letters.
pub open spec fn equals_ignoring_case(s: Seq<char>, lit: Seq<char>) -> bool {
    s.len() == lit.len() && forall|i: int| 0 <= i < s.len() ==> ascii_lower(#[trigger] s[i]) == lit[i]
}

/// The index of the first exponent mark (`e` or `E`) from the `i`-th character on, or -1.
pub open spec fn exponent_mark_from(s: Seq<char>, i: int) -> int
    decreases s.len() - i,
{
    if i < 0 || i >= s.len() {
        -1
    } else if s[i] == 'e' || s[i] == 'E' {
        i
    } else {
        exponent_mark_from(s, i + 1)
    }
}

/// Digits with at most one `.` among them, and at least one digit.
pub open spec fn is_mantissa(m: Seq<char>) -> bool {
    &&& forall|i: int| 0 <= i < m.len() ==> is_digit(#[trigger] m[i]) || m[i] == '.'
    &&& exists|i: int| 0 <= i < m.len() && is_digit(#[trigger] m[i])
    &&& forall|i: int, j: int| #![trigger m[i], m[j]] 0 <= i < j < m.len() && m[i] == '.' ==> m[j] != '.'
}

/// An optional sign, then at least one digit.
pub open spec fn is_exponent(e: Seq<char>) -> bool {
    let digits = if e.len() > 0 && (e[0] == '+' || e[0] == '-') {
        e.drop_first()
    } else {
        e
    };
    digits.len() > 0 && all_digits(digits)
}

/// Whether `str::parse::<f32>` reads `s`: an optional sign, then `inf`,
/// `infinity` or `nan` in any case, or a decimal number (digits with at most
/// one point, at least one digit) with an optional exponent (`e` or `E`, an
/// optional sign, digits).
pub open spec fn is_float_text(s: Seq<char>) -> bool {
    let body = if s.len() > 0 && (s[0] == '+' || s[0] == '-') {
        s.drop_first()
    } else {
        s
    };
    let k = exponent_mark_from(body, 0);
    ||| equals_ignoring_case(body, "inf"@)
    ||| equals_ignoring_case(body, "infinity"@)
    ||| equals_ignoring_case(body, "nan"@)
    ||| (k < 0 && is_mantissa(body))
    ||| (k >= 0 && is_mantissa(body.take(k)) && is_exponent(body.skip(k + 1)))
}

fn lower_char(c: char) -> (r: char)
    ensures
        r == ascii_lower(c),
{
    if 'A' <= c && c <= 'Z' {
        (((c as u32) + 32) as u8) as char
    } else {
        c
    }
}

fn same_ignoring_case(s: &Vec<char>, from: usize, lit: &str) -> (r: bool)
    requires
        from <= s.len(),
    ensures
        r == equals_ignoring_case(s@.skip(from as int), lit@),
{
    let l = chars_of(lit);
    if s.len() - from != l.len() {
        return false;
    }
    let ghost body = s@.skip(from as int);
    for i in 0..l.len()
        invariant
            l@ == lit@,
            body == s@.skip(from as int),
            body.len() == l@.len(),
            from + l.len() == s.len(),
            forall|j: int| 0 <= j < i ==> ascii_lower(#[trigger] body[j]) == l@[j],
    {
        assert(body[i as int] == s@[from + i]);
        if lower_char(s[from + i]) != l[i] {
            return false;
        }
    }
    true
}

/// Whether `m[from..to]` is a mantissa.
fn check_mantissa(m: &Vec<char>, from: usize, to: usize) -> (r: bool)
    requires
        from <= to <= m.len(),
    ensures
        r == is_mantissa(m@.subrange(from as int, to as int)),
{
    let ghost t = m@.subrange(from as int, to as int);
    let mut digits = false;
    let mut dots: usize = 0;
    let mut first_dot: usize = 0;
    for i in from..to
        invariant
            from <= to <= m.len(),
            t == m@.subrange(from as int, to as int),
            forall|j: int| 0 <= j < i - from ==> is_digit(#[trigger] t[j]) || t[j] == '.',
            digits == (exists|j: int| 0 <= j < i - from && is_digit(#[trigger] t[j])),
            dots <= 1,
            dots == 0 ==> forall|j: int| 0 <= j < i - from ==> #[trigger] t[j] != '.',
            dots == 1 ==> 0 <= first_dot < i - from && t[first_dot as int] == '.' && forall|j: int|
                0 <= j < i - from && j != first_dot ==> #[trigger] t[j] != '.',
    {
        let c = m[i];
        assert(t[i - from] == c);
        if '0' <= c && c <= '9' {
            digits = true;
            assert(is_digit(t[i - from]));
        } else if c == '.' {
            if dots == 1 {
                assert(t[first_dot as int] == '.' && t[i - from] == '.');
                return false;
            }
            dots = 1;
            first_dot = i - from;
        } else {
            return false;
        }
    }
    digits
}

/// Whether `s[from..]` is an exponent.
fn check_exponent(s: &Vec<char>, from: usize) -> (r: bool)
    requires
        from <= s.len(),
    ensures
        r == is_exponent(s@.skip(from as int)),
{
    let ghost e = s@.skip(from as int);
    assert(e.len() > 0 ==> e[0] == s@[from as int]);
    let start = if from < s.len() && (s[from] == '+' || s[from] == '-') {
        from + 1
    } else {
        from
    };
    assert(start == from + 1 ==> e.drop_first() =~= s@.skip(start as int));
    assert(start == from ==> e =~= s@.skip(start as int));
    if start == s.len() {
        return false;
    }
    let ghost d = s@.skip(start as int);
    assert(is_exponent(e) == (d.len() > 0 && all_digits(d)));
    for i in start..s.len()
        invariant
            start <= s.len(),
            d == s@.skip(start as int),
            e == s@.skip(from as int),
            is_exponent(e) == (d.len() > 0 && all_digits(d)),
            forall|j: int| 0 <= j < i - start ==> is_digit(#[trigger] d[j]),
    {
        assert(d[i - start] == s@[i as int]);
        if !('0' <= s[i] && s[i] <= '9') {
            assert(!is_digit(d[i - start]));
            return false;
        }
    }
    true
}

/// Whether `str::parse::<f32>` reads the text (see `is_float_text`).
pub fn is_float_literal(t: &String) -> (r: bool)
    ensures
        r == is_float_text(t@),
{
    let s = chars_of(t.as_str());
    let from: usize = if s.len() > 0 && (s[0] == '+' || s[0] == '-') {
        1
    } else {
        0
    };
    let ghost body = s@.skip(from as int);
    assert(from == 1 ==> body =~= s@.drop_first());
    assert(from == 0 ==> body =~= s@);
    if same_ignoring_case(&s, from, "inf") || same_ignoring_case(&s, from, "infinity")
        || same_ignoring_case(&s, from, "nan") {
        return true;
    }
    // The first exponent mark.
    let mut k: usize = from;
    let mut found = false;
    while k < s.len() && !found
        invariant
            from <= k <= s.len(),
            body == s@.skip(from as int),
            found ==> k < s.len() && exponent_mark_from(body, 0) == k - from,
            !found ==> exponent_mark_from(body, 0) == exponent_mark_from(body, k - from),
        decreases s.len() - k + (if found { 0int } else { 1int }),
    {
        assert(body[k - from] == s@[k as int]);
        if s[k] == 'e' || s[k] == 'E' {
            found = true;
        } else {
            k = k + 1;
        }
    }
    if found {
        assert(body.take(k - from) =~= s@.subrange(from as int, k as int));
        assert(body.skip(k - from + 1) =~= s@.skip(k + 1));
        check_mantissa(&s, from, k) && check_exponent(&s, k + 1)
    } else {
        assert(body =~= s@.subrange(from as int, s.len() as int));
        check_mantissa(&s, from, s.len())
    }
}

// ---------------------------------------------------------------------------
// Trimming
// ---------------------------------------------------------------------------

/// The index of the first character from the `i`-th on that is not white
/// space, or the length.
pub open spec fn first_non_space_from(s: Seq<char>, i: int) -> int
    decreases s.len() - i,
{
    if i < 0 || i >= s.len() {
        s.len() as int
    } else if !is_white_space(s[i]) {
        i
    } else {
        first_non_space_from(s, i + 1)
    }
}

/// One past the index of the last character before the `j`-th that is not
/// white space, or 0.
pub open spec fn end_non_space_before(s: Seq<char>, j: int) -> int
    decreases j,
{
    if j <= 0 || j > s.len() {
        0
    } else if !is_white_space(s[j - 1]) {
        j
    } else {
        end_non_space_before(s, j - 1)
    }
}

/// The text without its leading and trailing white space (`str::trim`).
pub open spec fn trimmed(s: Seq<char>) -> Seq<char> {
    let a = first_non_space_from(s, 0);
    let b = end_non_space_before(s, s.len() as int);
    if a < b {
        s.subrange(a, b)
    } else {
        Seq::empty()
    }
}

/// The characters of `s` without leading and trailing white space.
pub fn trim_chars(cs: &Vec<char>) -> (r: Vec<char>)
    ensures
        r@ == trimmed(cs@),
{
    let ghost s = cs@;
    let mut a: usize = 0;
    while a < cs.len() && char_is_white_space(cs[a])
        invariant
            s == cs@,
            0 <= a <= cs.len(),
            first_non_space_from(s, 0) == first_non_space_from(s, a as int),
        decreases cs.len() - a,
    {
        a = a + 1;
    }
    let mut b: usize = cs.len();
    while b > 0 && char_is_white_space(cs[b - 1])
        invariant
            s == cs@,
            0 <= b <= cs.len(),
            end_non_space_before(s, s.len() as int) == end_non_space_before(s, b as int),
        decreases b,
    {
        b = b - 1;
    }
    let mut r: Vec<char> = Vec::new();
    if a < b {
        let mut i = a;
        while i < b
            invariant
                s == cs@,
                a <= i <= b <= cs.len(),
                r@ == s.subrange(a as int, i as int),
            decreases b - i,
        {
            r.push(cs[i]);
            i = i + 1;
            assert(r@ =~= s.subrange(a as int, i as int));
        }
    }
    r
}

/// `str::parse::<usize>`, `None` for an error.
pub fn parse_usize(cs: &Vec<char>) -> (r: Option<usize>)
    ensures
        r matches Some(v) ==> unsigned_text_value(cs@, usize::MAX as nat) == Some(v as nat),
        r is None ==> unsigned_text_value(cs@, usize::MAX as nat) is None,
{
    match read_unsigned(cs, usize::MAX as u64) {
        Some(v) => Some(v as usize),
        None => None,
    }
}

} // verus!
