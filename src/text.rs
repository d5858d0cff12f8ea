//! Character-level helpers: line splitting, whitespace tokens and
//! integer literals.

use vstd::prelude::*;
use vstd::std_specs::iter::IteratorSpec;

verus! {

/// The characters of `s`, in order.
pub(crate) fn chars_of(s: &str) -> (r: Vec<char>)
    ensures
        r@ == s@,
{
    broadcast use vstd::string::group_string_axioms;

    let mut it = s.chars();
    let mut out: Vec<char> = Vec::new();
    loop
        invariant
            out@ + it.remaining() == s@,
            it.decrease() is Some,
        ensures
            out@ == s@,
        decreases it.decrease()->0,
    {
        match it.next() {
            Some(c) => {
                out.push(c);
            },
            None => {
                assert(out@ + it.remaining() =~= out@);
                break;
            },
        }
    }
    out
}

/// Relies on `String`'s `FromIterator<&char>`: the string holds exactly
/// these characters, in order.
#[verifier::external_body]
pub(crate) fn string_of(v: &[char]) -> (r: String)
    ensures
        r@ == v@,
{
    v.iter().collect()
}

/// A line taken up to a `'\n'` loses one `'\r'` just before it.
pub open spec fn strip_cr(l: Seq<char>) -> Seq<char> {
    if l.len() > 0 && l.last() == '\r' {
        l.drop_last()
    } else {
        l
    }
}

/// The lines of `s` from position `i` on, where `cur` is the part of the
/// current line read so far. Lines end at `'\n'` (or `"\r\n"`); the last
/// line needs no terminator, and a terminator at the very end opens no
/// new line.
pub open spec fn lines_acc(s: Seq<char>, i: int, cur: Seq<char>) -> Seq<Seq<char>>
    decreases s.len() - i,
{
    if i >= s.len() {
        if cur.len() == 0 {
            seq![]
        } else {
            seq![cur]
        }
    } else if s[i] == '\n' {
        seq![strip_cr(cur)] + lines_acc(s, i + 1, seq![])
    } else {
        lines_acc(s, i + 1, cur.push(s[i]))
    }
}

/// The lines of a text.
pub open spec fn split_lines(s: Seq<char>) -> Seq<Seq<char>> {
    lines_acc(s, 0, seq![])
}

/// The character sequences held by a list of lines.
pub open spec fn views(v: Seq<Vec<char>>) -> Seq<Seq<char>> {
    v.map_values(|l: Vec<char>| l@)
}

/// Splits `s` into its lines (see [`split_lines`]).
pub fn lines_of(s: &Vec<char>) -> (r: Vec<Vec<char>>)
    ensures
        views(r@) == split_lines(s@),
{
    let mut out: Vec<Vec<char>> = Vec::new();
    let mut cur: Vec<char> = Vec::new();
    let mut i: usize = 0;
    while i < s.len()
        invariant
            i <= s.len(),
            views(out@) + lines_acc(s@, i as int, cur@) == split_lines(s@),
        decreases s.len() - i,
    {
        let c = s[i];
        if c == '\n' {
            let ghost before = views(out@);
            let ghost line = cur@;
            if cur.len() > 0 && cur[cur.len() - 1] == '\r' {
                cur.pop();
            }
            assert(cur@ =~= strip_cr(line));
            out.push(cur);
            assert(views(out@) =~= before.push(strip_cr(line)));
            assert(views(out@) + lines_acc(s@, i + 1, seq![]) =~= before + lines_acc(
                s@,
                i as int,
                line,
            ));
            cur = Vec::new();
        } else {
            cur.push(c);
        }
        i = i + 1;
    }
    if cur.len() > 0 {
        let ghost before = views(out@);
        let ghost line = cur@;
        out.push(cur);
        assert(views(out@) =~= before + lines_acc(s@, i as int, line));
    } else {
        assert(views(out@) =~= views(out@) + lines_acc(s@, i as int, cur@));
    }
    out
}

/// Whitespace that separates tokens: the characters with the Unicode
/// `White_Space` property.
pub open spec fn is_space(c: char) -> bool {
    ||| '\u{9}' <= c && c <= '\u{d}'
    ||| c == ' '
    ||| c == '\u{85}'
    ||| c == '\u{a0}'
    ||| c == '\u{1680}'
    ||| '\u{2000}' <= c && c <= '\u{200a}'
    ||| c == '\u{2028}'
    ||| c == '\u{2029}'
    ||| c == '\u{202f}'
    ||| c == '\u{205f}'
    ||| c == '\u{3000}'
}

fn space(c: char) -> (r: bool)
    ensures
        r == is_space(c),
{
    ('\u{9}' <= c && c <= '\u{d}') || c == ' ' || c == '\u{85}' || c == '\u{a0}' || c
        == '\u{1680}' || ('\u{2000}' <= c && c <= '\u{200a}') || c == '\u{2028}' || c
        == '\u{2029}' || c == '\u{202f}' || c == '\u{205f}' || c == '\u{3000}'
}

/// The tokens of `s` from position `i` on, where `cur` is the part of the
/// current token read so far: maximal runs of characters that are not
/// whitespace.
pub open spec fn tokens_acc(s: Seq<char>, i: int, cur: Seq<char>) -> Seq<Seq<char>>
    decreases s.len() - i,
{
    if i >= s.len() {
        if cur.len() == 0 {
            seq![]
        } else {
            seq![cur]
        }
    } else if is_space(s[i]) {
        (if cur.len() == 0 {
            seq![]
        } else {
            seq![cur]
        }) + tokens_acc(s, i + 1, seq![])
    } else {
        tokens_acc(s, i + 1, cur.push(s[i]))
    }
}

/// The whitespace-separated tokens of a text.
pub open spec fn tokens(s: Seq<char>) -> Seq<Seq<char>> {
    tokens_acc(s, 0, seq![])
}

/// Splits `s` into its whitespace-separated tokens (see [`tokens`]).
pub fn tokens_of(s: &[char]) -> (r: Vec<Vec<char>>)
    ensures
        views(r@) == tokens(s@),
{
    let mut out: Vec<Vec<char>> = Vec::new();
    let mut cur: Vec<char> = Vec::new();
    let mut i: usize = 0;
    while i < s.len()
        invariant
            i <= s.len(),
            views(out@) + tokens_acc(s@, i as int, cur@) == tokens(s@),
        decreases s.len() - i,
    {
        let c = s[i];
        if space(c) {
            let ghost before = views(out@);
            let ghost word = cur@;
            if cur.len() > 0 {
                out.push(cur);
                assert(views(out@) =~= before.push(word));
                assert(views(out@) + tokens_acc(s@, i + 1, seq![]) =~= before + tokens_acc(
                    s@,
                    i as int,
                    word,
                ));
            } else {
                assert(views(out@) + tokens_acc(s@, i + 1, seq![]) =~= before + tokens_acc(
                    s@,
                    i as int,
                    word,
                ));
            }
            cur = Vec::new();
        } else {
            cur.push(c);
        }
        i = i + 1;
    }
    if cur.len() > 0 {
        let ghost before = views(out@);
        let ghost word = cur@;
        out.push(cur);
        assert(views(out@) =~= before + tokens_acc(s@, i as int, word));
    } else {
        assert(views(out@) =~= views(out@) + tokens_acc(s@, i as int, cur@));
    }
    out
}

/// The value of a digit or letter as a digit: `0`-`9`, then `a`/`A` = 10
/// up to `z`/`Z` = 35; 36 for any other character.
pub open spec fn digit_value(c: char) -> nat {
    if '0' <= c && c <= '9' {
        (c as u32 - '0' as u32) as nat
    } else if 'a' <= c && c <= 'z' {
        (c as u32 - 'a' as u32 + 10) as nat
    } else if 'A' <= c && c <= 'Z' {
        (c as u32 - 'A' as u32 + 10) as nat
    } else {
        36
    }
}

/// Every character of `s` is a digit in base `radix`.
pub open spec fn all_digits(s: Seq<char>, radix: nat) -> bool {
    forall|i: int| 0 <= i < s.len() ==> #[trigger] digit_value(s[i]) < radix
}

/// The number that the digits of `s` denote in base `radix`.
pub open spec fn digits_value(s: Seq<char>, radix: nat) -> nat
    decreases s.len(),
{
    if s.len() == 0 {
        0
    } else {
        digits_value(s.drop_last(), radix) * radix + digit_value(s.last())
    }
}

/// An unsigned literal: an optional `'+'`, then at least one digit in base
/// `radix`, denoting at most `max`.
pub open spec fn parse_unsigned(s: Seq<char>, radix: nat, max: nat) -> Option<nat> {
    let d = if s.len() > 0 && s[0] == '+' {
        s.skip(1)
    } else {
        s
    };
    if d.len() > 0 && all_digits(d, radix) && digits_value(d, radix) <= max {
        Some(digits_value(d, radix))
    } else {
        None
    }
}

/// A `u32` written in base `radix`.
pub open spec fn parse_u32(s: Seq<char>, radix: nat) -> Option<u32> {
    match parse_unsigned(s, radix, u32::MAX as nat) {
        Some(v) => Some(v as u32),
        None => None,
    }
}

/// An `i32` written in decimal, with an optional sign.
pub open spec fn parse_i32(s: Seq<char>) -> Option<i32> {
    if s.len() > 0 && s[0] == '-' {
        let d = s.skip(1);
        if d.len() > 0 && all_digits(d, 10) && digits_value(d, 10) <= 0x8000_0000 {
            Some((0 - digits_value(d, 10)) as i32)
        } else {
            None
        }
    } else {
        match parse_unsigned(s, 10, i32::MAX as nat) {
            Some(v) => Some(v as i32),
            None => None,
        }
    }
}

/// A prefix of a run of digits denotes at most what the whole run does.
proof fn lemma_prefix_value_le(s: Seq<char>, radix: nat, k: int)
    requires
        radix >= 1,
        0 <= k <= s.len(),
    ensures
        digits_value(s.take(k), radix) <= digits_value(s, radix),
    decreases s.len() - k,
{
    if k < s.len() {
        lemma_prefix_value_le(s, radix, k + 1);
        let p = digits_value(s.take(k), radix);
        assert(s.take(k + 1).drop_last() =~= s.take(k));
        assert(p * radix >= p) by (nonlinear_arith)
            requires
                radix >= 1,
        ;
    } else {
        assert(s.take(k) =~= s);
    }
}

fn digit_of(c: char) -> (r: u32)
    ensures
        r as nat == digit_value(c),
{
    if '0' <= c && c <= '9' {
        c as u32 - '0' as u32
    } else if 'a' <= c && c <= 'z' {
        c as u32 - 'a' as u32 + 10
    } else if 'A' <= c && c <= 'Z' {
        c as u32 - 'A' as u32 + 10
    } else {
        36
    }
}

/// The digits of `s` from `from` on, in base `radix`, if there is at least
/// one, all are digits, and their value is at most `max`.
fn digits_upto(s: &[char], from: usize, radix: u32, max: u64) -> (r: Option<u64>)
    requires
        2 <= radix <= 36,
        max <= u32::MAX as u64 + 1,
        from <= s@.len(),
    ensures
        ({
            let d = s@.skip(from as int);
            r == if d.len() > 0 && all_digits(d, radix as nat) && digits_value(d, radix as nat)
                <= max {
                Some(digits_value(d, radix as nat) as u64)
            } else {
                None::<u64>
            }
        }),
{
    let ghost d = s@.skip(from as int);
    if from == s.len() {
        return None;
    }
    let mut v: u64 = 0;
    let mut k: usize = from;
    while k < s.len()
        invariant
            from <= k <= s@.len(),
            d == s@.skip(from as int),
            2 <= radix <= 36,
            max <= u32::MAX as u64 + 1,
            v <= max,
            v as nat == digits_value(d.take(k - from), radix as nat),
            all_digits(d.take(k - from), radix as nat),
        decreases s.len() - k,
    {
        let dv = digit_of(s[k]);
        let ghost j = k - from;
        assert(d.take(j + 1).drop_last() =~= d.take(j));
        assert(d[j] == s@[k as int]);
        if dv >= radix {
            assert(!all_digits(d, radix as nat));
            return None;
        }
        assert(v * radix as u64 + dv as u64 <= 0x1_0000_0001u64 * 36 + 36) by (nonlinear_arith)
            requires
                v <= 0x1_0000_0001u64,
                radix <= 36,
                dv < 36,
        ;
        v = v * radix as u64 + dv as u64;
        if v > max {
            proof {
                lemma_prefix_value_le(d, radix as nat, j + 1);
            }
            return None;
        }
        k = k + 1;
        assert(all_digits(d.take(k - from), radix as nat)) by {
            assert forall|i: int| 0 <= i < d.take(k - from).len() implies digit_value(
                #[trigger] d.take(k - from)[i],
            ) < radix as nat by {
                if i < j {
                    assert(d.take(k - from)[i] == d.take(j)[i]);
                }
            }
        }
    }
    assert(d.take(k - from) =~= d);
    Some(v)
}

/// Reads a `u32` written in base `radix` (see [`parse_u32`]).
pub fn u32_of(s: &[char], radix: u32) -> (r: Option<u32>)
    requires
        2 <= radix <= 36,
    ensures
        r == parse_u32(s@, radix as nat),
{
    let from: usize = if s.len() > 0 && s[0] == '+' {
        1
    } else {
        0
    };
    proof {
        if from == 0 {
            assert(s@.skip(0) =~= s@);
        }
    }
    match digits_upto(s, from, radix, u32::MAX as u64) {
        Some(v) => Some(v as u32),
        None => None,
    }
}

/// Reads an `i32` written in decimal (see [`parse_i32`]).
pub fn i32_of(s: &[char]) -> (r: Option<i32>)
    ensures
        r == parse_i32(s@),
{
    if s.len() > 0 && s[0] == '-' {
        match digits_upto(s, 1, 10, 0x8000_0000) {
            Some(v) => Some((0 - v as i64) as i32),
            None => None,
        }
    } else {
        let from: usize = if s.len() > 0 && s[0] == '+' {
            1
        } else {
            0
        };
        proof {
            if from == 0 {
                assert(s@.skip(0) =~= s@);
            }
        }
        match digits_upto(s, from, 10, i32::MAX as u64) {
            Some(v) => Some(v as i32),
            None => None,
        }
    }
}

/// Lines joined by newlines.
pub open spec fn join_lines(ls: Seq<Seq<char>>) -> Seq<char>
    decreases ls.len(),
{
    if ls.len() == 0 {
        seq![]
    } else if ls.len() == 1 {
        ls[0]
    } else {
        join_lines(ls.drop_last()) + seq!['\n'] + ls.last()
    }
}

/// Appends `line` to `out`, after a newline when `sep` holds.
pub(crate) fn push_line(out: &mut Vec<char>, line: &Vec<char>, sep: bool)
    ensures
        final(out)@ == if sep {
            old(out)@ + seq!['\n'] + line@
        } else {
            old(out)@ + line@
        },
{
    let ghost start = if sep {
        old(out)@ + seq!['\n']
    } else {
        old(out)@
    };
    if sep {
        out.push('\n');
    }
    let mut j: usize = 0;
    while j < line.len()
        invariant
            j <= line@.len(),
            out@ == start + line@.take(j as int),
        decreases line@.len() - j,
    {
        out.push(line[j]);
        j = j + 1;
        assert(out@ =~= start + line@.take(j as int));
    }
    assert(line@.take(j as int) =~= line@);
}

/// The decimal digit for a value below ten.
pub open spec fn digit_char(v: nat) -> char {
    if v == 0 {
        '0'
    } else if v == 1 {
        '1'
    } else if v == 2 {
        '2'
    } else if v == 3 {
        '3'
    } else if v == 4 {
        '4'
    } else if v == 5 {
        '5'
    } else if v == 6 {
        '6'
    } else if v == 7 {
        '7'
    } else if v == 8 {
        '8'
    } else {
        '9'
    }
}

/// A natural number written in decimal, without leading zeros.
pub open spec fn nat_text(v: nat) -> Seq<char>
    decreases v,
{
    if v < 10 {
        seq![digit_char(v)]
    } else {
        nat_text(v / 10).push(digit_char(v % 10))
    }
}

/// An integer written in decimal: a `'-'` before negative numbers only.
pub open spec fn int_text(v: int) -> Seq<char> {
    if v < 0 {
        seq!['-'] + nat_text((-v) as nat)
    } else {
        nat_text(v as nat)
    }
}

/// Decimal digits written the usual way: at least one, and no leading
/// zero unless `0` is the only digit.
pub open spec fn canonical_digits(d: Seq<char>) -> bool {
    &&& d.len() > 0
    &&& all_digits(d, 10)
    &&& (d.len() == 1 || d[0] != '0')
}

/// An integer token written the usual way: canonical digits, after a `'-'`
/// only when the number is not zero.
pub open spec fn canonical_int(t: Seq<char>) -> bool {
    if t.len() > 0 && t[0] == '-' {
        canonical_digits(t.skip(1)) && digits_value(t.skip(1), 10) > 0
    } else {
        canonical_digits(t)
    }
}

proof fn lemma_digit_char(c: char)
    requires
        digit_value(c) < 10,
    ensures
        digit_char(digit_value(c)) == c,
{
    assert('0' <= c && c <= '9');
}

proof fn lemma_canonical_digits_text(d: Seq<char>)
    requires
        canonical_digits(d),
    ensures
        nat_text(digits_value(d, 10)) == d,
    decreases d.len(),
{
    let last = d.last();
    assert(digit_value(d[d.len() - 1]) < 10);
    lemma_digit_char(last);
    if d.len() == 1 {
        assert(d.drop_last() =~= seq![]);
        assert(digits_value(d.drop_last(), 10) == 0);
        assert(digits_value(d, 10) == digit_value(last));
        assert(nat_text(digit_value(last)) == seq![digit_char(digit_value(last))]);
        assert(nat_text(digits_value(d, 10)) =~= d);
    } else {
        let init = d.drop_last();
        assert(init[0] == d[0]);
        assert(all_digits(init, 10)) by {
            assert forall|i: int| 0 <= i < init.len() implies #[trigger] digit_value(init[i])
                < 10 by {
                assert(init[i] == d[i]);
            }
        }
        lemma_canonical_digits_text(init);
        lemma_prefix_value_le(init, 10, 1);
        assert(init.take(1).drop_last() =~= seq![]);
        assert(digit_value(init[0]) < 10);
        assert(digit_value(init[0]) != 0);
        let p = digits_value(init, 10);
        let v = digits_value(d, 10);
        let r = digit_value(last);
        assert(v == p * 10 + r);
        assert(p >= 1);
        assert(v / 10 == p && v % 10 == r) by (nonlinear_arith)
            requires
                v == p * 10 + r,
                r < 10,
        ;
        assert(nat_text(v) =~= d);
    }
}

/// A canonical integer token is what writing its value in decimal gives.
pub proof fn lemma_canonical_int_text(t: Seq<char>)
    requires
        canonical_int(t),
        parse_i32(t) is Some,
    ensures
        int_text(parse_i32(t)->Some_0 as int) == t,
{
    if t.len() > 0 && t[0] == '-' {
        let d = t.skip(1);
        lemma_canonical_digits_text(d);
        assert(t =~= seq!['-'] + d);
    } else {
        assert(digit_value(t[0]) < 10);
        assert(t[0] != '+');
        lemma_canonical_digits_text(t);
    }
}

} // verus!
