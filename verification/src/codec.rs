//! The persistence codec: the two JSON documents that survive a restart —
//! the optional outstanding request and the processed identifier set — with
//! a proved round trip: parsing an encoded document yields what was encoded.

use vstd::prelude::*;

verus! {

// ---------------------------------------------------------------------
// Decimal numbers
// ---------------------------------------------------------------------
pub open spec fn digit_char(d: int) -> char {
    if d == 0 {
        '0'
    } else if d == 1 {
        '1'
    } else if d == 2 {
        '2'
    } else if d == 3 {
        '3'
    } else if d == 4 {
        '4'
    } else if d == 5 {
        '5'
    } else if d == 6 {
        '6'
    } else if d == 7 {
        '7'
    } else if d == 8 {
        '8'
    } else {
        '9'
    }
}

pub open spec fn digit_val(c: char) -> int {
    if c == '0' {
        0
    } else if c == '1' {
        1
    } else if c == '2' {
        2
    } else if c == '3' {
        3
    } else if c == '4' {
        4
    } else if c == '5' {
        5
    } else if c == '6' {
        6
    } else if c == '7' {
        7
    } else if c == '8' {
        8
    } else if c == '9' {
        9
    } else {
        -1
    }
}

pub open spec fn is_digit(c: char) -> bool {
    digit_val(c) >= 0
}

/// The decimal digits of `n`, most significant first.
pub open spec fn dec_nat(n: nat) -> Seq<char>
    decreases n,
{
    if n < 10 {
        seq![digit_char(n as int)]
    } else {
        dec_nat(n / 10).push(digit_char((n % 10) as int))
    }
}

pub open spec fn pow10(k: nat) -> nat
    decreases k,
{
    if k == 0 {
        1
    } else {
        10 * pow10((k - 1) as nat)
    }
}

/// The decimal form of a signed value: a minus sign for a negative one.
pub open spec fn dec_i64(v: i64) -> Seq<char> {
    if v < 0 {
        seq!['-'] + dec_nat((-(v as int)) as nat)
    } else {
        dec_nat(v as nat)
    }
}

proof fn lemma_dec_nat_digits(n: nat)
    ensures
        dec_nat(n).len() >= 1,
        forall|k: int| 0 <= k < dec_nat(n).len() ==> is_digit(#[trigger] dec_nat(n)[k]),
        digit_val(dec_nat(n)[dec_nat(n).len() - 1]) == n % 10,
    decreases n,
{
    if n < 10 {
        assert(digit_val(digit_char(n as int)) == n);
    } else {
        lemma_dec_nat_digits(n / 10);
        assert(forall|k: int|
            0 <= k < dec_nat(n / 10).len() ==> dec_nat(n)[k] == dec_nat(n / 10)[k]);
        assert(dec_nat(n)[dec_nat(n).len() - 1] == digit_char((n % 10) as int));
        assert(digit_val(digit_char((n % 10) as int)) == n % 10);
    }
}

/// Greedily consume decimal digits starting at `i`, extending `acc`.
pub open spec fn parse_digits(s: Seq<char>, i: int, acc: u64) -> Option<(u64, int)>
    decreases s.len() - i when 0 <= i <= s.len()
{
    if i < s.len() && is_digit(s[i]) {
        if acc as int * 10 + digit_val(s[i]) <= u64::MAX as int {
            parse_digits(s, i + 1, (acc as int * 10 + digit_val(s[i])) as u64)
        } else {
            None
        }
    } else {
        Some((acc, i))
    }
}

/// An unsigned decimal number at `i`: at least one digit, consumed greedily.
pub open spec fn parse_u64_at(s: Seq<char>, i: int) -> Option<(u64, int)> {
    if 0 <= i < s.len() && is_digit(s[i]) {
        parse_digits(s, i, 0)
    } else {
        None
    }
}

/// A signed decimal number at `i`: an optional minus sign, then digits.
pub open spec fn parse_i64_at(s: Seq<char>, i: int) -> Option<(i64, int)> {
    if 0 <= i < s.len() && s[i] == '-' {
        match parse_u64_at(s, i + 1) {
            Some((n, j)) => if n <= 0x8000_0000_0000_0000u64 {
                Some(((-(n as int)) as i64, j))
            } else {
                None
            },
            None => None,
        }
    } else {
        match parse_u64_at(s, i) {
            Some((n, j)) => if n <= i64::MAX as u64 {
                Some((n as i64, j))
            } else {
                None
            },
            None => None,
        }
    }
}

pub proof fn lemma_parse_digits_bounds(s: Seq<char>, i: int, acc: u64)
    requires
        0 <= i <= s.len(),
    ensures
        parse_digits(s, i, acc) matches Some((n, j)) ==> i <= j <= s.len(),
    decreases s.len() - i,
{
    if i < s.len() && is_digit(s[i]) {
        if acc as int * 10 + digit_val(s[i]) <= u64::MAX as int {
            lemma_parse_digits_bounds(s, i + 1, (acc as int * 10 + digit_val(s[i])) as u64);
        }
    }
}

pub proof fn lemma_parse_u64_bounds(s: Seq<char>, i: int)
    ensures
        parse_u64_at(s, i) matches Some((n, j)) ==> i < j <= s.len(),
{
    if 0 <= i < s.len() && is_digit(s[i]) {
        if 0 as int * 10 + digit_val(s[i]) <= u64::MAX as int {
            lemma_parse_digits_bounds(s, i + 1, (0 as int * 10 + digit_val(s[i])) as u64);
        }
    }
}

/// Parsing walks through the digits of `n` exactly, whatever follows them.
proof fn lemma_parse_dec(s: Seq<char>, i: int, n: u64, acc: u64)
    requires
        0 <= i,
        i + dec_nat(n as nat).len() <= s.len(),
        s.subrange(i, i + dec_nat(n as nat).len() as int) == dec_nat(n as nat),
        acc as int * pow10(dec_nat(n as nat).len() as nat) + n <= u64::MAX as int,
    ensures
        parse_digits(s, i, acc) == parse_digits(
            s,
            i + dec_nat(n as nat).len(),
            (acc as int * pow10(dec_nat(n as nat).len() as nat) + n) as u64,
        ),
    decreases n,
{
    let d = dec_nat(n as nat);
    let l = d.len() as int;
    if n < 10 {
        assert(s[i] == d[0]);
        assert(digit_val(s[i]) == n) by {
            assert(d[0] == digit_char(n as int));
            assert(digit_val(digit_char(n as int)) == n);
        }
        assert(pow10(0) == 1);
        assert(pow10(1) == 10);
        assert(parse_digits(s, i, acc) == parse_digits(s, i + 1, (acc as int * 10 + n) as u64));
    } else {
        let dp = dec_nat((n / 10) as nat);
        let lp = dp.len() as int;
        assert(d == dp.push(digit_char((n % 10) as int)));
        assert(l == lp + 1);
        assert(s.subrange(i, i + lp) == dp) by {
            assert forall|k: int| 0 <= k < lp implies s.subrange(i, i + lp)[k] == dp[k] by {
                assert(s.subrange(i, i + l)[k] == d[k]);
                assert(d[k] == dp[k]);
            }
            assert(s.subrange(i, i + lp) =~= dp);
        }
        let accp = acc as int * pow10(lp as nat) + n / 10;
        assert(pow10(lp as nat) >= 1) by {
            lemma_pow10_pos(lp as nat);
        }
        assert(pow10((lp + 1) as nat) == 10 * pow10(lp as nat));
        assert(accp * 10 + n % 10 == acc as int * pow10(l as nat) + n) by (nonlinear_arith)
            requires
                pow10(l as nat) == 10 * pow10(lp as nat),
                accp == acc as int * pow10(lp as nat) + n / 10,
                n == 10 * (n / 10) + n % 10,
                l == lp + 1,
        ;
        assert(0 <= accp && accp <= u64::MAX as int) by (nonlinear_arith)
            requires
                accp * 10 + n % 10 <= u64::MAX as int,
                0 <= n % 10 < 10,
                accp >= 0,
        ;
        assert(accp >= 0) by (nonlinear_arith)
            requires
                acc >= 0,
                pow10(lp as nat) >= 1,
                n / 10 >= 0,
                accp == acc as int * pow10(lp as nat) + n / 10,
        ;
        assert(pow10(lp as nat) >= 1) by {
            lemma_pow10_pos(lp as nat);
        }
        lemma_parse_dec(s, i, (n / 10) as u64, acc);
        // One more digit: the last of d.
        assert(s[i + lp] == digit_char((n % 10) as int)) by {
            assert(s.subrange(i, i + l)[lp] == d[lp]);
        }
        assert(digit_val(s[i + lp]) == n % 10);
        assert(parse_digits(s, i + lp, accp as u64) == parse_digits(
            s,
            i + l,
            (accp * 10 + n % 10) as u64,
        ));
    }
}

proof fn lemma_pow10_pos(k: nat)
    ensures
        pow10(k) >= 1,
    decreases k,
{
    if k > 0 {
        lemma_pow10_pos((k - 1) as nat);
    }
}

/// Round trip for an unsigned number: the digits of `n` followed by a
/// non-digit parse back to `n`.
pub proof fn lemma_parse_of_dec(s: Seq<char>, i: int, n: u64)
    requires
        0 <= i,
        i + dec_nat(n as nat).len() <= s.len(),
        s.subrange(i, i + dec_nat(n as nat).len() as int) == dec_nat(n as nat),
        i + dec_nat(n as nat).len() == s.len() || !is_digit(s[i + dec_nat(n as nat).len()]),
    ensures
        parse_u64_at(s, i) == Some((n, i + dec_nat(n as nat).len())),
{
    let d = dec_nat(n as nat);
    let l = d.len() as int;
    lemma_dec_nat_digits(n as nat);
    assert(s[i] == d[0]);
    assert(is_digit(s[i]));
    assert(pow10(l as nat) >= 1) by {
        lemma_pow10_pos(l as nat);
    }
    lemma_parse_dec(s, i, n, 0);
    assert(parse_digits(s, i + l, n) == Some((n, i + l)));
}

/// Round trip for a signed number.
pub proof fn lemma_parse_of_dec_i64(s: Seq<char>, i: int, v: i64)
    requires
        0 <= i,
        i + dec_i64(v).len() <= s.len(),
        s.subrange(i, i + dec_i64(v).len() as int) == dec_i64(v),
        i + dec_i64(v).len() == s.len() || !is_digit(s[i + dec_i64(v).len()]),
    ensures
        parse_i64_at(s, i) == Some((v, i + dec_i64(v).len())),
{
    let d = dec_i64(v);
    let l = d.len() as int;
    if v < 0 {
        let m = (-(v as int)) as nat;
        let dm = dec_nat(m);
        let lm = dm.len() as int;
        assert(d == seq!['-'] + dm);
        assert(s[i] == '-') by {
            assert(s.subrange(i, i + l)[0] == d[0]);
            assert(d[0] == '-');
        }
        assert(s.subrange(i + 1, i + 1 + lm) == dm) by {
            assert forall|k: int| 0 <= k < lm implies s.subrange(i + 1, i + 1 + lm)[k] == dm[k] by {
                assert(s.subrange(i, i + l)[k + 1] == d[k + 1]);
                assert(d[k + 1] == dm[k]);
            }
            assert(s.subrange(i + 1, i + 1 + lm) =~= dm);
        }
        lemma_parse_of_dec(s, i + 1, m as u64);
        assert(m <= 0x8000_0000_0000_0000u64);
        assert((-(m as int)) as i64 == v);
    } else {
        lemma_dec_nat_digits(v as nat);
        assert(s[i] == d[0]);
        assert(s[i] != '-') by {
            assert(is_digit(d[0]));
        }
        lemma_parse_of_dec(s, i, v as u64);
    }
}

// ---------------------------------------------------------------------
// Executable number encoding and parsing
// ---------------------------------------------------------------------
fn digit_of(d: u64) -> (c: char)
    requires
        d < 10,
    ensures
        c == digit_char(d as int),
{
    match d {
        0 => '0',
        1 => '1',
        2 => '2',
        3 => '3',
        4 => '4',
        5 => '5',
        6 => '6',
        7 => '7',
        8 => '8',
        _ => '9',
    }
}

fn char_digit(c: char) -> (d: Option<u64>)
    ensures
        is_digit(c) ==> d == Some(digit_val(c) as u64),
        !is_digit(c) ==> d is None,
{
    match c {
        '0' => Some(0),
        '1' => Some(1),
        '2' => Some(2),
        '3' => Some(3),
        '4' => Some(4),
        '5' => Some(5),
        '6' => Some(6),
        '7' => Some(7),
        '8' => Some(8),
        '9' => Some(9),
        _ => None,
    }
}

/// Append the decimal digits of `n`.
fn push_dec_u64(out: &mut Vec<char>, n: u64)
    ensures
        final(out)@ == old(out)@ + dec_nat(n as nat),
    decreases n,
{
    if n < 10 {
        out.push(digit_of(n));
        assert(out@ =~= old(out)@ + dec_nat(n as nat));
    } else {
        push_dec_u64(out, n / 10);
        out.push(digit_of(n % 10));
        assert(out@ =~= old(out)@ + dec_nat(n as nat));
    }
}

/// Append the decimal form of `v`, minus sign included.
fn push_dec_i64(out: &mut Vec<char>, v: i64)
    ensures
        final(out)@ == old(out)@ + dec_i64(v),
{
    if v < 0 {
        out.push('-');
        let m: u64 = (-(v as i128)) as u64;
        assert(m as nat == (-(v as int)) as nat);
        push_dec_u64(out, m);
        assert(out@ =~= old(out)@ + dec_i64(v));
    } else {
        push_dec_u64(out, v as u64);
    }
}

/// Parse an unsigned decimal number at `i`, exactly as the specification
/// parser does.
fn parse_u64(s: &Vec<char>, i: usize) -> (r: Option<(u64, usize)>)
    requires
        i <= s@.len(),
    ensures
        r matches Some((n, j)) ==> i <= j <= s@.len() && parse_u64_at(s@, i as int) == Some(
            (n, j as int),
        ),
        r is None ==> parse_u64_at(s@, i as int) is None,
{
    if i >= s.len() {
        return None;
    }
    let first = char_digit(s[i]);
    if first.is_none() {
        return None;
    }
    let mut acc: u64 = 0;
    let mut j: usize = i;
    loop
        invariant
            i <= j <= s@.len(),
            parse_u64_at(s@, i as int) == parse_digits(s@, j as int, acc),
            0 <= i < s@.len() && is_digit(s@[i as int]),
        decreases s@.len() - j,
    {
        if j >= s.len() {
            return Some((acc, j));
        }
        let dv = char_digit(s[j]);
        match dv {
            None => {
                return Some((acc, j));
            },
            Some(d) => {
                if acc <= (u64::MAX - d) / 10 {
                    assert(acc as int * 10 + d <= u64::MAX as int) by (nonlinear_arith)
                        requires
                            0 <= acc as int,
                            0 <= d < 10,
                            acc as int <= ((u64::MAX - d) as int) / 10,
                    ;
                    acc = acc * 10 + d;
                    j += 1;
                } else {
                    assert(acc as int * 10 + d > u64::MAX as int) by (nonlinear_arith)
                        requires
                            0 <= d < 10,
                            acc as int > ((u64::MAX - d) as int) / 10,
                    ;
                    return None;
                }
            },
        }
    }
}

/// Parse a signed decimal number at `i`, exactly as the specification
/// parser does.
fn parse_i64(s: &Vec<char>, i: usize) -> (r: Option<(i64, usize)>)
    requires
        i <= s@.len(),
    ensures
        r matches Some((v, j)) ==> i <= j <= s@.len() && parse_i64_at(s@, i as int) == Some(
            (v, j as int),
        ),
        r is None ==> parse_i64_at(s@, i as int) is None,
{
    if i < s.len() && s[i] == '-' {
        match parse_u64(s, i + 1) {
            Some((n, j)) => {
                if n <= 0x8000_0000_0000_0000u64 {
                    let v: i64 = (-(n as i128)) as i64;
                    assert(v as int == -(n as int));
                    Some((v, j))
                } else {
                    None
                }
            },
            None => None,
        }
    } else {
        match parse_u64(s, i) {
            Some((n, j)) => {
                if n <= i64::MAX as u64 {
                    Some((n as i64, j))
                } else {
                    None
                }
            },
            None => None,
        }
    }
}

// ---------------------------------------------------------------------
// Strings with quote and backslash escaping
// ---------------------------------------------------------------------
pub open spec fn hex_char(d: int) -> char {
    if d == 0 {
        '0'
    } else
    if d == 1 {
        '1'
    } else
    if d == 2 {
        '2'
    } else
    if d == 3 {
        '3'
    } else
    if d == 4 {
        '4'
    } else
    if d == 5 {
        '5'
    } else
    if d == 6 {
        '6'
    } else
    if d == 7 {
        '7'
    } else
    if d == 8 {
        '8'
    } else
    if d == 9 {
        '9'
    } else
    if d == 10 {
        'a'
    } else
    if d == 11 {
        'b'
    } else
    if d == 12 {
        'c'
    } else
    if d == 13 {
        'd'
    } else
    if d == 14 {
        'e'
    } else {
        'f'
    }
}

pub open spec fn hex_val(c: char) -> int {
    if c == '0' {
        0
    } else
    if c == '1' {
        1
    } else
    if c == '2' {
        2
    } else
    if c == '3' {
        3
    } else
    if c == '4' {
        4
    } else
    if c == '5' {
        5
    } else
    if c == '6' {
        6
    } else
    if c == '7' {
        7
    } else
    if c == '8' {
        8
    } else
    if c == '9' {
        9
    } else
    if c == 'a' {
        10
    } else
    if c == 'b' {
        11
    } else
    if c == 'c' {
        12
    } else
    if c == 'd' {
        13
    } else
    if c == 'e' {
        14
    } else if c == 'f' {
        15
    } else {
        -1
    }
}

/// The control character with code `v`.
pub open spec fn ctrl_char_of(v: int) -> char {
    if v == 0 {
        '\u{00}'
    } else
    if v == 1 {
        '\u{01}'
    } else
    if v == 2 {
        '\u{02}'
    } else
    if v == 3 {
        '\u{03}'
    } else
    if v == 4 {
        '\u{04}'
    } else
    if v == 5 {
        '\u{05}'
    } else
    if v == 6 {
        '\u{06}'
    } else
    if v == 7 {
        '\u{07}'
    } else
    if v == 8 {
        '\u{08}'
    } else
    if v == 9 {
        '\u{09}'
    } else
    if v == 10 {
        '\u{0a}'
    } else
    if v == 11 {
        '\u{0b}'
    } else
    if v == 12 {
        '\u{0c}'
    } else
    if v == 13 {
        '\u{0d}'
    } else
    if v == 14 {
        '\u{0e}'
    } else
    if v == 15 {
        '\u{0f}'
    } else
    if v == 16 {
        '\u{10}'
    } else
    if v == 17 {
        '\u{11}'
    } else
    if v == 18 {
        '\u{12}'
    } else
    if v == 19 {
        '\u{13}'
    } else
    if v == 20 {
        '\u{14}'
    } else
    if v == 21 {
        '\u{15}'
    } else
    if v == 22 {
        '\u{16}'
    } else
    if v == 23 {
        '\u{17}'
    } else
    if v == 24 {
        '\u{18}'
    } else
    if v == 25 {
        '\u{19}'
    } else
    if v == 26 {
        '\u{1a}'
    } else
    if v == 27 {
        '\u{1b}'
    } else
    if v == 28 {
        '\u{1c}'
    } else
    if v == 29 {
        '\u{1d}'
    } else
    if v == 30 {
        '\u{1e}'
    } else {
        '\u{1f}'
    }
}

pub open spec fn esc_char(c: char) -> Seq<char> {
    if c == '"' || c == '\\' {
        seq!['\\', c]
    } else if (c as u32) < 32 {
        seq!['\\', 'u', '0', '0', hex_char(((c as u32) / 16) as int), hex_char(
            ((c as u32) % 16) as int,
        )]
    } else {
        seq![c]
    }
}

/// The escaped form of a string's characters.
pub open spec fn esc(s: Seq<char>) -> Seq<char>
    decreases s.len(),
{
    if s.len() == 0 {
        Seq::empty()
    } else {
        esc_char(s[0]) + esc(s.drop_first())
    }
}

/// A string field as it stands in a document: quoted, with quotes,
/// backslashes and control characters escaped.
pub open spec fn quoted(s: Seq<char>) -> Seq<char> {
    seq!['"'] + esc(s) + seq!['"']
}

proof fn lemma_esc_push(s: Seq<char>, c: char)
    ensures
        esc(s.push(c)) == esc(s) + esc_char(c),
    decreases s.len(),
{
    assert(s.push(c)[0] == if s.len() == 0 { c } else { s[0] });
    if s.len() == 0 {
        let p = s.push(c);
        assert(p.drop_first() =~= Seq::<char>::empty());
        assert(esc(Seq::<char>::empty()) == Seq::<char>::empty());
        assert(esc(p) == esc_char(c) + esc(p.drop_first()));
        assert(esc(p) =~= esc(s) + esc_char(c));
    } else {
        assert(s.push(c).drop_first() =~= s.drop_first().push(c));
        lemma_esc_push(s.drop_first(), c);
        assert(esc(s.push(c)) =~= esc(s) + esc_char(c));
    }
}

/// The body of a quoted string from `i` up to its closing quote. Only the
/// escapes the encoder emits are read: `\"`, `\\`, and `\u00XX` with
/// lowercase hex for a control character.
pub open spec fn parse_str_body(s: Seq<char>, i: int) -> Option<(Seq<char>, int)>
    decreases s.len() - i,
    when 0 <= i <= s.len()
{
    if i >= s.len() {
        None
    } else if s[i] == '"' {
        Some((Seq::empty(), i + 1))
    } else if s[i] == '\\' {
        if i + 1 < s.len() && (s[i + 1] == '"' || s[i + 1] == '\\') {
            match parse_str_body(s, i + 2) {
                Some((t, j)) => Some((seq![s[i + 1]] + t, j)),
                None => None,
            }
        } else if i + 5 < s.len() && s[i + 1] == 'u' && s[i + 2] == '0' && s[i + 3] == '0'
            && hex_val(s[i + 4]) >= 0 && hex_val(s[i + 5]) >= 0 && hex_val(s[i + 4]) * 16
            + hex_val(s[i + 5]) < 32 {
            match parse_str_body(s, i + 6) {
                Some((t, j)) => Some(
                    (seq![ctrl_char_of(hex_val(s[i + 4]) * 16 + hex_val(s[i + 5]))] + t, j),
                ),
                None => None,
            }
        } else {
            None
        }
    } else {
        match parse_str_body(s, i + 1) {
            Some((t, j)) => Some((seq![s[i]] + t, j)),
            None => None,
        }
    }
}

/// A quoted string at `i`: an opening quote, a body, a closing quote.
pub open spec fn parse_string_at(s: Seq<char>, i: int) -> Option<(Seq<char>, int)> {
    if 0 <= i < s.len() && s[i] == '"' {
        parse_str_body(s, i + 1)
    } else {
        None
    }
}

proof fn lemma_hex_inverse(d: int)
    requires
        0 <= d < 16,
    ensures
        hex_val(hex_char(d)) == d,
{
}

proof fn lemma_ctrl_inverse(c: char)
    requires
        (c as u32) < 32,
    ensures
        ctrl_char_of(c as u32 as int) == c,
{
}

/// Round trip for a string: the escaped characters of `t` followed by a
/// closing quote parse back to `t`.
proof fn lemma_parse_esc(s: Seq<char>, i: int, t: Seq<char>)
    requires
        0 <= i,
        i + esc(t).len() + 1 <= s.len(),
        s.subrange(i, i + esc(t).len() as int) == esc(t),
        s[i + esc(t).len()] == '"',
    ensures
        parse_str_body(s, i) == Some((t, i + esc(t).len() + 1)),
    decreases t.len(),
{
    let e = esc(t);
    let l = e.len() as int;
    if t.len() == 0 {
        assert(s[i] == '"');
    } else {
        let c = t[0];
        let tp = t.drop_first();
        let ep = esc(tp);
        let lp = ep.len() as int;
        assert(e == esc_char(c) + ep);
        if c == '"' || c == '\\' {
            assert(l == lp + 2);
            assert(s[i] == '\\') by {
                assert(s.subrange(i, i + l)[0] == e[0]);
            }
            assert(s[i + 1] == c) by {
                assert(s.subrange(i, i + l)[1] == e[1]);
            }
            assert(s.subrange(i + 2, i + 2 + lp) == ep) by {
                assert forall|k: int|
                    0 <= k < lp implies s.subrange(i + 2, i + 2 + lp)[k] == ep[k] by {
                    assert(s.subrange(i, i + l)[k + 2] == e[k + 2]);
                    assert(e[k + 2] == ep[k]);
                }
                assert(s.subrange(i + 2, i + 2 + lp) =~= ep);
            }
            lemma_parse_esc(s, i + 2, tp);
            assert(seq![c] + tp =~= t);
        } else if (c as u32) < 32 {
            assert(l == lp + 6);
            let code = c as u32 as int;
            assert(s[i] == '\\') by {
                assert(s.subrange(i, i + l)[0] == e[0]);
            }
            assert(s[i + 1] == 'u') by {
                assert(s.subrange(i, i + l)[1] == e[1]);
            }
            assert(s[i + 2] == '0') by {
                assert(s.subrange(i, i + l)[2] == e[2]);
            }
            assert(s[i + 3] == '0') by {
                assert(s.subrange(i, i + l)[3] == e[3]);
            }
            assert(s[i + 4] == hex_char(code / 16)) by {
                assert(s.subrange(i, i + l)[4] == e[4]);
            }
            assert(s[i + 5] == hex_char(code % 16)) by {
                assert(s.subrange(i, i + l)[5] == e[5]);
            }
            lemma_hex_inverse(code / 16);
            lemma_hex_inverse(code % 16);
            assert(hex_val(s[i + 4]) * 16 + hex_val(s[i + 5]) == code);
            lemma_ctrl_inverse(c);
            assert(s.subrange(i + 6, i + 6 + lp) == ep) by {
                assert forall|k: int|
                    0 <= k < lp implies s.subrange(i + 6, i + 6 + lp)[k] == ep[k] by {
                    assert(s.subrange(i, i + l)[k + 6] == e[k + 6]);
                    assert(e[k + 6] == ep[k]);
                }
                assert(s.subrange(i + 6, i + 6 + lp) =~= ep);
            }
            lemma_parse_esc(s, i + 6, tp);
            assert(seq![c] + tp =~= t);
        } else {
            assert(l == lp + 1);
            assert(s[i] == c) by {
                assert(s.subrange(i, i + l)[0] == e[0]);
            }
            assert(s.subrange(i + 1, i + 1 + lp) == ep) by {
                assert forall|k: int|
                    0 <= k < lp implies s.subrange(i + 1, i + 1 + lp)[k] == ep[k] by {
                    assert(s.subrange(i, i + l)[k + 1] == e[k + 1]);
                    assert(e[k + 1] == ep[k]);
                }
                assert(s.subrange(i + 1, i + 1 + lp) =~= ep);
            }
            lemma_parse_esc(s, i + 1, tp);
            assert(seq![c] + tp =~= t);
        }
    }
}

/// Round trip for a whole quoted field.
pub proof fn lemma_parse_of_quoted(s: Seq<char>, i: int, t: Seq<char>)
    requires
        0 <= i,
        i + quoted(t).len() <= s.len(),
        s.subrange(i, i + quoted(t).len() as int) == quoted(t),
    ensures
        parse_string_at(s, i) == Some((t, i + quoted(t).len())),
{
    let q = quoted(t);
    let l = q.len() as int;
    let e = esc(t);
    let le = e.len() as int;
    assert(l == le + 2);
    assert(s[i] == '"') by {
        assert(s.subrange(i, i + l)[0] == q[0]);
    }
    assert(s.subrange(i + 1, i + 1 + le) == e) by {
        assert forall|k: int| 0 <= k < le implies s.subrange(i + 1, i + 1 + le)[k] == e[k] by {
            assert(s.subrange(i, i + l)[k + 1] == q[k + 1]);
            assert(q[k + 1] == e[k]);
        }
        assert(s.subrange(i + 1, i + 1 + le) =~= e);
    }
    assert(s[i + 1 + le] == '"') by {
        assert(s.subrange(i, i + l)[l - 1] == q[l - 1]);
        assert(q[l - 1] == '"');
    }
    lemma_parse_esc(s, i + 1, t);
}

// ---------------------------------------------------------------------
// Literal fragments
// ---------------------------------------------------------------------
/// The fixed characters `lit` stand in `s` at position `i`.
pub open spec fn lit_at(s: Seq<char>, i: int, lit: Seq<char>) -> bool {
    0 <= i && i + lit.len() <= s.len() && s.subrange(i, i + lit.len() as int) == lit
}

// ---------------------------------------------------------------------
// Trusted conversions between strings and character vectors
// ---------------------------------------------------------------------
/// Relies on str::chars: the iterator yields exactly the characters of the
/// string, in order.
#[verifier::external_body]
pub(crate) fn str_chars(s: &str) -> (r: Vec<char>)
    ensures
        r@ == s@,
{
    s.chars().collect()
}

/// Relies on String's FromIterator implementation: collecting characters
/// builds the string of exactly those characters, in order.
#[verifier::external_body]
pub(crate) fn string_from_chars(v: Vec<char>) -> (r: String)
    ensures
        r@ == v@,
{
    v.into_iter().collect()
}

// ---------------------------------------------------------------------
// Executable helpers shared by the two documents
// ---------------------------------------------------------------------
fn push_lit(out: &mut Vec<char>, lit: &str)
    ensures
        final(out)@ == old(out)@ + lit@,
{
    let mut l = str_chars(lit);
    out.append(&mut l);
}

fn hex_digit_of(d: u32) -> (c: char)
    requires
        d < 16,
    ensures
        c == hex_char(d as int),
{
    match d {
        0 => '0',
        1 => '1',
        2 => '2',
        3 => '3',
        4 => '4',
        5 => '5',
        6 => '6',
        7 => '7',
        8 => '8',
        9 => '9',
        10 => 'a',
        11 => 'b',
        12 => 'c',
        13 => 'd',
        14 => 'e',
        _ => 'f',
    }
}

fn hex_digit_val(c: char) -> (r: Option<u32>)
    ensures
        hex_val(c) >= 0 ==> r == Some(hex_val(c) as u32),
        hex_val(c) < 0 ==> r is None,
{
    match c {
        '0' => Some(0),
        '1' => Some(1),
        '2' => Some(2),
        '3' => Some(3),
        '4' => Some(4),
        '5' => Some(5),
        '6' => Some(6),
        '7' => Some(7),
        '8' => Some(8),
        '9' => Some(9),
        'a' => Some(10),
        'b' => Some(11),
        'c' => Some(12),
        'd' => Some(13),
        'e' => Some(14),
        'f' => Some(15),
        _ => None,
    }
}

fn ctrl_char(v: u32) -> (c: char)
    requires
        v < 32,
    ensures
        c == ctrl_char_of(v as int),
{
    match v {
        0 => '\u{00}',
        1 => '\u{01}',
        2 => '\u{02}',
        3 => '\u{03}',
        4 => '\u{04}',
        5 => '\u{05}',
        6 => '\u{06}',
        7 => '\u{07}',
        8 => '\u{08}',
        9 => '\u{09}',
        10 => '\u{0a}',
        11 => '\u{0b}',
        12 => '\u{0c}',
        13 => '\u{0d}',
        14 => '\u{0e}',
        15 => '\u{0f}',
        16 => '\u{10}',
        17 => '\u{11}',
        18 => '\u{12}',
        19 => '\u{13}',
        20 => '\u{14}',
        21 => '\u{15}',
        22 => '\u{16}',
        23 => '\u{17}',
        24 => '\u{18}',
        25 => '\u{19}',
        26 => '\u{1a}',
        27 => '\u{1b}',
        28 => '\u{1c}',
        29 => '\u{1d}',
        30 => '\u{1e}',
        _ => '\u{1f}',
    }
}

fn push_quoted(out: &mut Vec<char>, s: &Vec<char>)
    ensures
        final(out)@ == old(out)@ + quoted(s@),
{
    let ghost pre = out@;
    out.push('"');
    let mut k: usize = 0;
    while k < s.len()
        invariant
            k <= s@.len(),
            out@ == pre + seq!['"'] + esc(s@.take(k as int)),
        decreases s@.len() - k,
    {
        let c = s[k];
        if c == '"' || c == '\\' {
            out.push('\\');
            out.push(c);
        } else if (c as u32) < 32 {
            out.push('\\');
            out.push('u');
            out.push('0');
            out.push('0');
            out.push(hex_digit_of((c as u32) / 16));
            out.push(hex_digit_of((c as u32) % 16));
        } else {
            out.push(c);
        }
        proof {
            lemma_esc_push(s@.take(k as int), s@[k as int]);
            assert(s@.take(k as int + 1) =~= s@.take(k as int).push(s@[k as int]));
            assert(out@ =~= pre + seq!['"'] + esc(s@.take(k as int + 1)));
        }
        k += 1;
    }
    proof {
        assert(s@.take(s@.len() as int) =~= s@);
    }
    out.push('"');
    assert(out@ =~= pre + quoted(s@));
}

fn match_lit(s: &Vec<char>, i: usize, lit: &str) -> (r: Option<usize>)
    requires
        i <= s@.len(),
    ensures
        r matches Some(j) ==> lit_at(s@, i as int, lit@) && j as int == i + lit@.len() && i <= j
            <= s@.len(),
        r is None ==> !lit_at(s@, i as int, lit@),
{
    let l = str_chars(lit);
    if s.len() - i < l.len() {
        return None;
    }
    let n = s.len();
    let mut k: usize = 0;
    while k < l.len()
        invariant
            k <= l@.len(),
            i + l@.len() <= s@.len(),
            s@.len() == n,
            l@ == lit@,
            forall|m: int| 0 <= m < k ==> s@[i + m] == l@[m],
        decreases l@.len() - k,
    {
        if s[i + k] != l[k] {
            proof {
                assert(s@.subrange(i as int, i + lit@.len() as int)[k as int] == s@[i + k]);
            }
            return None;
        }
        k += 1;
    }
    proof {
        assert(s@.subrange(i as int, i + lit@.len() as int) =~= lit@);
    }
    Some(i + l.len())
}

/// Parse a quoted string at `i`, exactly as the specification parser does.
fn parse_string(s: &Vec<char>, i: usize) -> (r: Option<(Vec<char>, usize)>)
    requires
        i <= s@.len(),
    ensures
        r matches Some((t, j)) ==> i <= j <= s@.len() && parse_string_at(s@, i as int) == Some(
            (t@, j as int),
        ),
        r is None ==> parse_string_at(s@, i as int) is None,
{
    if i < s.len() && s[i] == '"' {
        match parse_body(s, i + 1) {
            Some((t, j)) => Some((t, j)),
            None => None,
        }
    } else {
        None
    }
}

fn parse_body(s: &Vec<char>, i: usize) -> (r: Option<(Vec<char>, usize)>)
    requires
        i <= s@.len(),
    ensures
        r matches Some((t, j)) ==> i <= j <= s@.len() && parse_str_body(s@, i as int) == Some(
            (t@, j as int),
        ),
        r is None ==> parse_str_body(s@, i as int) is None,
    decreases s@.len() - i,
{
    if i >= s.len() {
        None
    } else if s[i] == '"' {
        Some((Vec::new(), i + 1))
    } else if s[i] == '\\' {
        if i + 1 < s.len() && (s[i + 1] == '"' || s[i + 1] == '\\') {
            match parse_body(s, i + 2) {
                Some((t, j)) => {
                    let mut v: Vec<char> = Vec::new();
                    v.push(s[i + 1]);
                    let mut t2 = t;
                    v.append(&mut t2);
                    Some((v, j))
                },
                None => None,
            }
        } else if s.len() - i > 5 && s[i + 1] == 'u' && s[i + 2] == '0' && s[i + 3] == '0' {
            match (hex_digit_val(s[i + 4]), hex_digit_val(s[i + 5])) {
                (Some(h), Some(lo)) => {
                    let code = h * 16 + lo;
                    if code < 32 {
                        match parse_body(s, i + 6) {
                            Some((t, j)) => {
                                let mut v: Vec<char> = Vec::new();
                                v.push(ctrl_char(code));
                                let mut t2 = t;
                                v.append(&mut t2);
                                Some((v, j))
                            },
                            None => None,
                        }
                    } else {
                        None
                    }
                },
                _ => None,
            }
        } else {
            None
        }
    } else {
        match parse_body(s, i + 1) {
            Some((t, j)) => {
                let mut v: Vec<char> = Vec::new();
                v.push(s[i]);
                let mut t2 = t;
                v.append(&mut t2);
                Some((v, j))
            },
            None => None,
        }
    }
}

// ---------------------------------------------------------------------
// The processed-set document: a list of identifiers in brackets
// ---------------------------------------------------------------------
/// The comma-separated identifiers between the brackets.
pub open spec fn items_doc(ids: Seq<u64>) -> Seq<char>
    decreases ids.len(),
{
    if ids.len() == 0 {
        Seq::empty()
    } else if ids.len() == 1 {
        dec_nat(ids[0] as nat)
    } else {
        dec_nat(ids[0] as nat) + seq![','] + items_doc(ids.drop_first())
    }
}

/// The document persisted for the processed set.
pub open spec fn processed_doc(ids: Seq<u64>) -> Seq<char> {
    seq!['['] + items_doc(ids) + seq![']']
}

/// One or more numbers separated by commas, ended by the closing bracket.
pub open spec fn parse_items(s: Seq<char>, i: int) -> Option<(Seq<u64>, int)>
    decreases s.len() - i,
    when 0 <= i <= s.len()
    via parse_items_decreases
{
    match parse_u64_at(s, i) {
        Some((n, j)) => {
            if j < s.len() && s[j] == ',' {
                match parse_items(s, j + 1) {
                    Some((t, k)) => Some((seq![n] + t, k)),
                    None => None,
                }
            } else if j < s.len() && s[j] == ']' {
                Some((seq![n], j + 1))
            } else {
                None
            }
        },
        None => None,
    }
}

#[via_fn]
proof fn parse_items_decreases(s: Seq<char>, i: int) {
    lemma_parse_u64_bounds(s, i);
}

/// The whole processed-set document.
pub open spec fn parse_processed(s: Seq<char>) -> Option<Seq<u64>> {
    if s.len() >= 2 && s[0] == '[' {
        if s[1] == ']' && s.len() == 2 {
            Some(Seq::empty())
        } else {
            match parse_items(s, 1) {
                Some((ids, j)) => if j == s.len() {
                    Some(ids)
                } else {
                    None
                },
                None => None,
            }
        }
    } else {
        None
    }
}

proof fn lemma_items_doc_len(ids: Seq<u64>)
    requires
        ids.len() > 0,
    ensures
        items_doc(ids).len() >= 1,
    decreases ids.len(),
{
    lemma_dec_nat_digits(ids[0] as nat);
}

proof fn lemma_parse_items_of_doc(s: Seq<char>, i: int, ids: Seq<u64>)
    requires
        ids.len() > 0,
        0 <= i,
        i + items_doc(ids).len() < s.len(),
        s.subrange(i, i + items_doc(ids).len() as int) == items_doc(ids),
        s[i + items_doc(ids).len()] == ']',
    ensures
        parse_items(s, i) == Some((ids, i + items_doc(ids).len() + 1)),
    decreases ids.len(),
{
    let d = items_doc(ids);
    let l = d.len() as int;
    if ids.len() == 1 {
        lemma_parse_of_dec(s, i, ids[0]);
        assert(parse_u64_at(s, i) == Some((ids[0], i + l)));
        assert(seq![ids[0]] =~= ids);
    } else {
        let dn = dec_nat(ids[0] as nat);
        let ln = dn.len() as int;
        let rest = ids.drop_first();
        let dr = items_doc(rest);
        let lr = dr.len() as int;
        assert(d == dn + seq![','] + dr);
        assert(l == ln + 1 + lr);
        assert(s.subrange(i, i + ln) == dn) by {
            assert forall|k: int| 0 <= k < ln implies s.subrange(i, i + ln)[k] == dn[k] by {
                assert(s.subrange(i, i + l)[k] == d[k]);
                assert(d[k] == dn[k]);
            }
            assert(s.subrange(i, i + ln) =~= dn);
        }
        assert(s[i + ln] == ',') by {
            assert(s.subrange(i, i + l)[ln] == d[ln]);
            assert(d[ln] == ',');
        }
        lemma_parse_of_dec(s, i, ids[0]);
        assert(parse_u64_at(s, i) == Some((ids[0], i + ln)));
        assert(s.subrange(i + ln + 1, i + ln + 1 + lr) == dr) by {
            assert forall|k: int|
                0 <= k < lr implies s.subrange(i + ln + 1, i + ln + 1 + lr)[k] == dr[k] by {
                assert(s.subrange(i, i + l)[k + ln + 1] == d[k + ln + 1]);
                assert(d[k + ln + 1] == dr[k]);
            }
            assert(s.subrange(i + ln + 1, i + ln + 1 + lr) =~= dr);
        }
        lemma_parse_items_of_doc(s, i + ln + 1, rest);
        assert(seq![ids[0]] + rest =~= ids);
    }
}

/// Round trip for the processed set: parsing the encoded document yields
/// exactly the identifiers that were encoded.
pub proof fn lemma_processed_round_trip(ids: Seq<u64>)
    ensures
        parse_processed(processed_doc(ids)) == Some(ids),
{
    let s = processed_doc(ids);
    if ids.len() == 0 {
        assert(s =~= seq!['[', ']']);
        assert(s[0] == '[' && s[1] == ']' && s.len() == 2);
    } else {
        let d = items_doc(ids);
        let l = d.len() as int;
        lemma_items_doc_len(ids);
        assert(s.len() == l + 2);
        assert(s[0] == '[');
        assert(s.subrange(1, 1 + l) == d) by {
            assert forall|k: int| 0 <= k < l implies s.subrange(1, 1 + l)[k] == d[k] by {
                assert(s[k + 1] == d[k]);
            }
            assert(s.subrange(1, 1 + l) =~= d);
        }
        assert(s[1 + l] == ']');
        lemma_parse_items_of_doc(s, 1, ids);
        if s[1] == ']' && s.len() == 2 {
            assert(false);
        }
    }
}

fn push_items(out: &mut Vec<char>, ids: &Vec<u64>, k: usize)
    requires
        k <= ids@.len(),
    ensures
        final(out)@ == old(out)@ + items_doc(ids@.skip(k as int)),
    decreases ids@.len() - k,
{
    if k == ids.len() {
        assert(ids@.skip(k as int).len() == 0);
        assert(out@ =~= old(out)@ + items_doc(ids@.skip(k as int)));
    } else {
        let ghost t = ids@.skip(k as int);
        proof {
            assert(t[0] == ids@[k as int]);
            assert(t.drop_first() =~= ids@.skip(k as int + 1));
        }
        push_dec_u64(out, ids[k]);
        if k + 1 < ids.len() {
            out.push(',');
            push_items(out, ids, k + 1);
            assert(out@ =~= old(out)@ + items_doc(ids@.skip(k as int)));
        } else {
            assert(t.len() == 1);
            assert(out@ =~= old(out)@ + items_doc(ids@.skip(k as int)));
        }
    }
}

/// Encode the processed identifiers as their persisted document.
pub fn encode_processed_issues(ids: &Vec<u64>) -> (r: String)
    ensures
        r@ == processed_doc(ids@),
{
    let mut out: Vec<char> = Vec::new();
    out.push('[');
    push_items(&mut out, ids, 0);
    out.push(']');
    proof {
        assert(ids@.skip(0) =~= ids@);
        assert(out@ =~= processed_doc(ids@));
    }
    string_from_chars(out)
}

fn parse_items_x(s: &Vec<char>, i: usize) -> (r: Option<(Vec<u64>, usize)>)
    requires
        i <= s@.len(),
    ensures
        r matches Some((v, j)) ==> i <= j <= s@.len() && parse_items(s@, i as int) == Some(
            (v@, j as int),
        ),
        r is None ==> parse_items(s@, i as int) is None,
    decreases s@.len() - i,
{
    match parse_u64(s, i) {
        None => None,
        Some((n, j)) => {
            proof {
                lemma_parse_u64_bounds(s@, i as int);
            }
            if j < s.len() && s[j] == ',' {
                match parse_items_x(s, j + 1) {
                    Some((t, k)) => {
                        let mut v: Vec<u64> = Vec::new();
                        v.push(n);
                        let mut t2 = t;
                        v.append(&mut t2);
                        Some((v, k))
                    },
                    None => None,
                }
            } else if j < s.len() && s[j] == ']' {
                let mut v: Vec<u64> = Vec::new();
                v.push(n);
                assert(v@ =~= seq![n]);
                Some((v, j + 1))
            } else {
                None
            }
        },
    }
}

/// Parse a persisted processed-set document, exactly as the specification
/// parser does.
pub fn parse_processed_issues(s: &str) -> (r: Option<Vec<u64>>)
    ensures
        r matches Some(v) ==> parse_processed(s@) == Some(v@),
        r is None ==> parse_processed(s@) is None,
{
    let cs = str_chars(s);
    if cs.len() < 2 {
        return None;
    }
    if cs[0] != '[' {
        return None;
    }
    if cs[1] == ']' && cs.len() == 2 {
        let v: Vec<u64> = Vec::new();
        assert(v@ =~= Seq::<u64>::empty());
        return Some(v);
    }
    match parse_items_x(&cs, 1) {
        Some((v, j)) => {
            if j == cs.len() {
                Some(v)
            } else {
                None
            }
        },
        None => None,
    }
}

// ---------------------------------------------------------------------
// The active-request document
// ---------------------------------------------------------------------
/// The fields of the persisted request, as mathematical values.
pub struct ActiveDoc {
    pub repo_owner: Seq<char>,
    pub repo_name: Seq<char>,
    pub issue_number: u64,
    pub issue_url: Seq<char>,
    pub requested_at: i64,
    pub timeout: i64,
}

/// The mathematical content of an in-memory request record.
pub open spec fn active_view(a: crate::state::ActiveIssue) -> ActiveDoc {
    ActiveDoc {
        repo_owner: a.repo_owner@,
        repo_name: a.repo_name@,
        issue_number: a.issue_number,
        issue_url: a.issue_url@,
        requested_at: a.requested_at,
        timeout: a.timeout,
    }
}

/// The document persisted for the outstanding request.
pub open spec fn active_doc(a: ActiveDoc) -> Seq<char> {
    "{\"repo_owner\":"@ + quoted(a.repo_owner) + ",\"repo_name\":"@ + quoted(a.repo_name)
        + ",\"issue_number\":"@ + dec_nat(a.issue_number as nat) + ",\"issue_url\":"@ + quoted(
        a.issue_url,
    ) + ",\"requested_at\":"@ + dec_i64(a.requested_at) + ",\"timeout\":"@ + dec_i64(a.timeout)
        + "}"@
}

/// The whole active-request document.
pub open spec fn parse_active(s: Seq<char>) -> Option<ActiveDoc> {
    if !lit_at(s, 0, "{\"repo_owner\":"@) {
        None
    } else {
        match parse_string_at(s, "{\"repo_owner\":"@.len() as int) {
            None => None,
            Some((owner, i2)) => if !lit_at(s, i2, ",\"repo_name\":"@) {
                None
            } else {
                match parse_string_at(s, i2 + ",\"repo_name\":"@.len()) {
                    None => None,
                    Some((name, i4)) => if !lit_at(s, i4, ",\"issue_number\":"@) {
                        None
                    } else {
                        match parse_u64_at(s, i4 + ",\"issue_number\":"@.len()) {
                            None => None,
                            Some((num, i6)) => if !lit_at(s, i6, ",\"issue_url\":"@) {
                                None
                            } else {
                                match parse_string_at(s, i6 + ",\"issue_url\":"@.len()) {
                                    None => None,
                                    Some((url, i8)) => if !lit_at(s, i8, ",\"requested_at\":"@) {
                                        None
                                    } else {
                                        match parse_i64_at(s, i8 + ",\"requested_at\":"@.len()) {
                                            None => None,
                                            Some((req, i10)) => if !lit_at(
                                                s,
                                                i10,
                                                ",\"timeout\":"@,
                                            ) {
                                                None
                                            } else {
                                                match parse_i64_at(s, i10 + ",\"timeout\":"@.len()) {
                                                    None => None,
                                                    Some((to, i12)) => if i12 + 1 == s.len()
                                                        && s[i12] == '}' {
                                                        Some(
                                                            ActiveDoc {
                                                                repo_owner: owner,
                                                                repo_name: name,
                                                                issue_number: num,
                                                                issue_url: url,
                                                                requested_at: req,
                                                                timeout: to,
                                                            },
                                                        )
                                                    } else {
                                                        None
                                                    },
                                                }
                                            },
                                        }
                                    },
                                }
                            },
                        }
                    },
                }
            },
        }
    }
}

proof fn lemma_lit_and_after(s: Seq<char>, i: int, pre: Seq<char>, lit: Seq<char>)
    requires
        0 <= i,
        s.subrange(i, s.len() as int) == lit + pre,
        i + lit.len() + pre.len() == s.len(),
    ensures
        lit_at(s, i, lit),
        s.subrange(i + lit.len(), s.len() as int) == pre,
{
    assert(s.subrange(i, i + lit.len() as int) =~= lit) by {
        assert forall|k: int| 0 <= k < lit.len() implies s.subrange(i, i + lit.len() as int)[k]
            == lit[k] by {
            assert(s.subrange(i, i + lit.len() as int)[k] == s[i + k]);
            assert(s.subrange(i, s.len() as int)[k] == s[i + k]);
            assert((lit + pre)[k] == lit[k]);
        }
    }
    assert(s.subrange(i + lit.len(), s.len() as int) =~= pre) by {
        assert forall|k: int|
            0 <= k < pre.len() implies s.subrange(i + lit.len(), s.len() as int)[k] == pre[k] by {
            assert(s.subrange(i + lit.len(), s.len() as int)[k] == s[i + lit.len() + k]);
            assert(s.subrange(i, s.len() as int)[k + lit.len()] == s[i + k + lit.len()]);
            assert((lit + pre)[k + lit.len()] == pre[k]);
        }
    }
}

proof fn lemma_quoted_and_after(s: Seq<char>, i: int, pre: Seq<char>, t: Seq<char>)
    requires
        0 <= i,
        s.subrange(i, s.len() as int) == quoted(t) + pre,
        i + quoted(t).len() + pre.len() == s.len(),
    ensures
        parse_string_at(s, i) == Some((t, i + quoted(t).len())),
        s.subrange(i + quoted(t).len(), s.len() as int) == pre,
{
    let q = quoted(t);
    assert(s.subrange(i, i + q.len() as int) =~= q) by {
        assert forall|k: int| 0 <= k < q.len() implies s.subrange(i, i + q.len() as int)[k]
            == q[k] by {
            assert(s.subrange(i, i + q.len() as int)[k] == s[i + k]);
            assert(s.subrange(i, s.len() as int)[k] == s[i + k]);
            assert((q + pre)[k] == q[k]);
        }
    }
    lemma_parse_of_quoted(s, i, t);
    assert(s.subrange(i + q.len(), s.len() as int) =~= pre) by {
        assert forall|k: int|
            0 <= k < pre.len() implies s.subrange(i + q.len(), s.len() as int)[k] == pre[k] by {
            assert(s.subrange(i + q.len(), s.len() as int)[k] == s[i + q.len() + k]);
            assert(s.subrange(i, s.len() as int)[k + q.len()] == s[i + k + q.len()]);
            assert((q + pre)[k + q.len()] == pre[k]);
        }
    }
}

proof fn lemma_u64_and_after(s: Seq<char>, i: int, pre: Seq<char>, n: u64)
    requires
        0 <= i,
        s.subrange(i, s.len() as int) == dec_nat(n as nat) + pre,
        i + dec_nat(n as nat).len() + pre.len() == s.len(),
        pre.len() > 0,
        !is_digit(pre[0]),
    ensures
        parse_u64_at(s, i) == Some((n, i + dec_nat(n as nat).len())),
        s.subrange(i + dec_nat(n as nat).len(), s.len() as int) == pre,
{
    let d = dec_nat(n as nat);
    assert(s.subrange(i, i + d.len() as int) =~= d) by {
        assert forall|k: int| 0 <= k < d.len() implies s.subrange(i, i + d.len() as int)[k]
            == d[k] by {
            assert(s.subrange(i, i + d.len() as int)[k] == s[i + k]);
            assert(s.subrange(i, s.len() as int)[k] == s[i + k]);
            assert((d + pre)[k] == d[k]);
        }
    }
    assert(s[i + d.len()] == pre[0]) by {
        assert(s.subrange(i, s.len() as int)[d.len() as int] == (d + pre)[d.len() as int]);
    }
    lemma_parse_of_dec(s, i, n);
    assert(s.subrange(i + d.len(), s.len() as int) =~= pre) by {
        assert forall|k: int|
            0 <= k < pre.len() implies s.subrange(i + d.len(), s.len() as int)[k] == pre[k] by {
            assert(s.subrange(i + d.len(), s.len() as int)[k] == s[i + d.len() + k]);
            assert(s.subrange(i, s.len() as int)[k + d.len()] == s[i + k + d.len()]);
            assert((d + pre)[k + d.len()] == pre[k]);
        }
    }
}

proof fn lemma_i64_and_after(s: Seq<char>, i: int, pre: Seq<char>, v: i64)
    requires
        0 <= i,
        s.subrange(i, s.len() as int) == dec_i64(v) + pre,
        i + dec_i64(v).len() + pre.len() == s.len(),
        pre.len() > 0,
        !is_digit(pre[0]),
    ensures
        parse_i64_at(s, i) == Some((v, i + dec_i64(v).len())),
        s.subrange(i + dec_i64(v).len(), s.len() as int) == pre,
{
    let d = dec_i64(v);
    assert(s.subrange(i, i + d.len() as int) =~= d) by {
        assert forall|k: int| 0 <= k < d.len() implies s.subrange(i, i + d.len() as int)[k]
            == d[k] by {
            assert(s.subrange(i, i + d.len() as int)[k] == s[i + k]);
            assert(s.subrange(i, s.len() as int)[k] == s[i + k]);
            assert((d + pre)[k] == d[k]);
        }
    }
    assert(s[i + d.len()] == pre[0]) by {
        assert(s.subrange(i, s.len() as int)[d.len() as int] == (d + pre)[d.len() as int]);
    }
    lemma_parse_of_dec_i64(s, i, v);
    assert(s.subrange(i + d.len(), s.len() as int) =~= pre) by {
        assert forall|k: int|
            0 <= k < pre.len() implies s.subrange(i + d.len(), s.len() as int)[k] == pre[k] by {
            assert(s.subrange(i + d.len(), s.len() as int)[k] == s[i + d.len() + k]);
            assert(s.subrange(i, s.len() as int)[k + d.len()] == s[i + k + d.len()]);
            assert((d + pre)[k + d.len()] == pre[k]);
        }
    }
}

/// Round trip for the outstanding request: parsing the encoded document
/// yields exactly the record that was encoded.
#[verifier::rlimit(60)]
pub proof fn lemma_active_round_trip(a: ActiveDoc)
    ensures
        parse_active(active_doc(a)) == Some(a),
{
    let s = active_doc(a);
    let l1 = "{\"repo_owner\":"@;
    let l2 = ",\"repo_name\":"@;
    let l3 = ",\"issue_number\":"@;
    let l4 = ",\"issue_url\":"@;
    let l5 = ",\"requested_at\":"@;
    let l6 = ",\"timeout\":"@;
    let l7 = "}"@;
    reveal_strlit("{\"repo_owner\":");
    reveal_strlit(",\"repo_name\":");
    reveal_strlit(",\"issue_number\":");
    reveal_strlit(",\"issue_url\":");
    reveal_strlit(",\"requested_at\":");
    reveal_strlit(",\"timeout\":");
    reveal_strlit("}");
    let q1 = quoted(a.repo_owner);
    let q2 = quoted(a.repo_name);
    let d3 = dec_nat(a.issue_number as nat);
    let q4 = quoted(a.issue_url);
    let d5 = dec_i64(a.requested_at);
    let d6 = dec_i64(a.timeout);
    let i0 = 0int;
    let i1 = i0 + l1.len();
    let i2 = i1 + q1.len();
    let i3 = i2 + l2.len();
    let i4 = i3 + q2.len();
    let i5 = i4 + l3.len();
    let i6 = i5 + d3.len();
    let i7 = i6 + l4.len();
    let i8 = i7 + q4.len();
    let i9 = i8 + l5.len();
    let i10 = i9 + d5.len();
    let i11 = i10 + l6.len();
    let i12 = i11 + d6.len();
    assert(s.len() == i12 + 1);
    assert(s.subrange(i0, s.len() as int) =~= l1 + (q1 + (l2 + (q2 + (l3 + (d3 + (l4 + (q4 + (l5
        + (d5 + (l6 + (d6 + l7))))))))))));
    lemma_lit_and_after(s, i0, q1 + (l2 + (q2 + (l3 + (d3 + (l4 + (q4 + (l5 + (d5 + (l6 + (d6
        + l7)))))))))), l1);
    lemma_quoted_and_after(s, i1, l2 + (q2 + (l3 + (d3 + (l4 + (q4 + (l5 + (d5 + (l6 + (d6
        + l7))))))))), a.repo_owner);
    lemma_lit_and_after(s, i2, q2 + (l3 + (d3 + (l4 + (q4 + (l5 + (d5 + (l6 + (d6 + l7)))))))), l2);
    lemma_quoted_and_after(s, i3, l3 + (d3 + (l4 + (q4 + (l5 + (d5 + (l6 + (d6 + l7))))))),
        a.repo_name);
    lemma_lit_and_after(s, i4, d3 + (l4 + (q4 + (l5 + (d5 + (l6 + (d6 + l7)))))), l3);
    assert((l4 + (q4 + (l5 + (d5 + (l6 + (d6 + l7))))))[0] == ',');
    lemma_u64_and_after(s, i5, l4 + (q4 + (l5 + (d5 + (l6 + (d6 + l7))))), a.issue_number);
    lemma_lit_and_after(s, i6, q4 + (l5 + (d5 + (l6 + (d6 + l7)))), l4);
    lemma_quoted_and_after(s, i7, l5 + (d5 + (l6 + (d6 + l7))), a.issue_url);
    lemma_lit_and_after(s, i8, d5 + (l6 + (d6 + l7)), l5);
    assert((l6 + (d6 + l7))[0] == ',');
    lemma_i64_and_after(s, i9, l6 + (d6 + l7), a.requested_at);
    lemma_lit_and_after(s, i10, d6 + l7, l6);
    assert(l7[0] == '}');
    lemma_i64_and_after(s, i11, l7, a.timeout);
    assert(s[i12] == '}') by {
        assert(s.subrange(i12, s.len() as int)[0] == l7[0]);
    }
}

/// Encode an outstanding request as its persisted document.
pub fn encode_active_issue(a: &crate::state::ActiveIssue) -> (r: String)
    ensures
        r@ == active_doc(active_view(*a)),
{
    let mut out: Vec<char> = Vec::new();
    push_lit(&mut out, "{\"repo_owner\":");
    let owner = str_chars(a.repo_owner.as_str());
    push_quoted(&mut out, &owner);
    push_lit(&mut out, ",\"repo_name\":");
    let name = str_chars(a.repo_name.as_str());
    push_quoted(&mut out, &name);
    push_lit(&mut out, ",\"issue_number\":");
    push_dec_u64(&mut out, a.issue_number);
    push_lit(&mut out, ",\"issue_url\":");
    let url = str_chars(a.issue_url.as_str());
    push_quoted(&mut out, &url);
    push_lit(&mut out, ",\"requested_at\":");
    push_dec_i64(&mut out, a.requested_at);
    push_lit(&mut out, ",\"timeout\":");
    push_dec_i64(&mut out, a.timeout);
    push_lit(&mut out, "}");
    assert(out@ =~= active_doc(active_view(*a)));
    string_from_chars(out)
}

/// Parse a persisted active-request document, exactly as the specification
/// parser does.
pub fn parse_active_issue(s: &str) -> (r: Option<crate::state::ActiveIssue>)
    ensures
        r matches Some(b) ==> parse_active(s@) == Some(active_view(b)),
        r is None ==> parse_active(s@) is None,
{
    let cs = str_chars(s);
    let i1 = match match_lit(&cs, 0, "{\"repo_owner\":") {
        Some(j) => j,
        None => {
            return None;
        },
    };
    let (owner, i2) = match parse_string(&cs, i1) {
        Some(p) => p,
        None => {
            return None;
        },
    };
    let i3 = match match_lit(&cs, i2, ",\"repo_name\":") {
        Some(j) => j,
        None => {
            return None;
        },
    };
    let (name, i4) = match parse_string(&cs, i3) {
        Some(p) => p,
        None => {
            return None;
        },
    };
    let i5 = match match_lit(&cs, i4, ",\"issue_number\":") {
        Some(j) => j,
        None => {
            return None;
        },
    };
    let (num, i6) = match parse_u64(&cs, i5) {
        Some(p) => p,
        None => {
            return None;
        },
    };
    let i7 = match match_lit(&cs, i6, ",\"issue_url\":") {
        Some(j) => j,
        None => {
            return None;
        },
    };
    let (url, i8) = match parse_string(&cs, i7) {
        Some(p) => p,
        None => {
            return None;
        },
    };
    let i9 = match match_lit(&cs, i8, ",\"requested_at\":") {
        Some(j) => j,
        None => {
            return None;
        },
    };
    let (req, i10) = match parse_i64(&cs, i9) {
        Some(p) => p,
        None => {
            return None;
        },
    };
    let i11 = match match_lit(&cs, i10, ",\"timeout\":") {
        Some(j) => j,
        None => {
            return None;
        },
    };
    let (to, i12) = match parse_i64(&cs, i11) {
        Some(p) => p,
        None => {
            return None;
        },
    };
    if i12 < cs.len() && cs.len() - i12 == 1 && cs[i12] == '}' {
        let b = crate::state::ActiveIssue {
            repo_owner: string_from_chars(owner),
            repo_name: string_from_chars(name),
            issue_number: num,
            issue_url: string_from_chars(url),
            requested_at: req,
            timeout: to,
        };
        Some(b)
    } else {
        None
    }
}

} // verus!
