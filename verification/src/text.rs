//! Character-level text helpers shared by the codec: whitespace trimming
//! and base-10 signed integer parsing and formatting, each stated against
//! a spec-level model of the same grammar.

use vstd::prelude::*;

verus! {

/// A whitespace character, the set that surrounding-whitespace trimming
/// removes.
pub open spec fn is_space(c: char) -> bool {
    ||| ('\u{09}' <= c && c <= '\u{0D}')
    ||| c == ' '
    ||| c == '\u{85}'
    ||| c == '\u{A0}'
    ||| c == '\u{1680}'
    ||| ('\u{2000}' <= c && c <= '\u{200A}')
    ||| c == '\u{2028}'
    ||| c == '\u{2029}'
    ||| c == '\u{202F}'
    ||| c == '\u{205F}'
    ||| c == '\u{3000}'
}

fn is_space_exec(c: char) -> (r: bool)
    ensures
        r == is_space(c),
{
    ('\u{09}' <= c && c <= '\u{0D}') || c == ' ' || c == '\u{85}' || c == '\u{A0}'
        || c == '\u{1680}' || ('\u{2000}' <= c && c <= '\u{200A}') || c == '\u{2028}'
        || c == '\u{2029}' || c == '\u{202F}' || c == '\u{205F}' || c == '\u{3000}'
}

/// `s` without its leading whitespace.
pub open spec fn trim_start(s: Seq<char>) -> Seq<char>
    decreases s.len(),
{
    if s.len() > 0 && is_space(s[0]) {
        trim_start(s.drop_first())
    } else {
        s
    }
}

/// `s` without its trailing whitespace.
pub open spec fn trim_end(s: Seq<char>) -> Seq<char>
    decreases s.len(),
{
    if s.len() > 0 && is_space(s.last()) {
        trim_end(s.drop_last())
    } else {
        s
    }
}

/// `s` without surrounding whitespace.
pub open spec fn trim(s: Seq<char>) -> Seq<char> {
    trim_end(trim_start(s))
}

/// Trimming text that starts and ends with non-whitespace changes nothing.
pub proof fn lemma_trim_untrimmed(s: Seq<char>)
    requires
        s.len() > 0,
        !is_space(s[0]),
        !is_space(s.last()),
    ensures
        trim(s) == s,
{
}

/// `s` without surrounding whitespace, executable form.
pub fn trim_str(s: &str) -> (r: &str)
    ensures
        r@ == trim(s@),
{
    let n = s.unicode_len();
    proof {
        assert(s@.skip(0) =~= s@);
    }
    let mut a: usize = 0;
    while a < n && is_space_exec(s.get_char(a))
        invariant
            0 <= a <= n,
            n == s@.len(),
            trim_start(s@) == trim_start(s@.skip(a as int)),
        decreases n - a,
    {
        proof {
            assert(s@.skip(a as int).drop_first() =~= s@.skip(a as int + 1));
        }
        a += 1;
    }
    proof {
        if a < n {
            assert(trim_start(s@) == s@.skip(a as int));
        } else {
            assert(s@.skip(a as int) =~= Seq::<char>::empty());
        }
    }
    let mut b: usize = n;
    while b > a && is_space_exec(s.get_char(b - 1))
        invariant
            a <= b <= n,
            n == s@.len(),
            trim_start(s@) == s@.skip(a as int),
            a < n ==> !is_space(s@[a as int]),
            trim_end(s@.skip(a as int)) == trim_end(s@.subrange(a as int, b as int)),
        decreases b,
    {
        proof {
            assert(s@.subrange(a as int, b as int).drop_last() =~= s@.subrange(
                a as int,
                b as int - 1,
            ));
        }
        b -= 1;
    }
    proof {
        if b > a {
            assert(trim_end(s@.subrange(a as int, b as int)) == s@.subrange(a as int, b as int));
        } else {
            assert(s@.subrange(a as int, b as int) =~= Seq::<char>::empty());
        }
    }
    s.substring_char(a, b)
}

/// An ASCII decimal digit.
pub open spec fn is_dec_digit(c: char) -> bool {
    '0' <= c && c <= '9'
}

pub open spec fn all_dec_digits(s: Seq<char>) -> bool {
    forall|i: int| 0 <= i < s.len() ==> is_dec_digit(#[trigger] s[i])
}

/// The number read from `s` as a base-10 numeral (only meaningful when
/// every character is a digit).
pub open spec fn dec_digits_value(s: Seq<char>) -> int
    decreases s.len(),
{
    if s.len() == 0 {
        0
    } else {
        dec_digits_value(s.drop_last()) * 10 + (s.last() as int - '0' as int)
    }
}

/// The base-10 signed integer grammar: an optional `+` or `-` sign, then
/// one or more digits, with the value within the signed 64-bit range.
pub open spec fn parse_i64_text(s: Seq<char>) -> Option<i64> {
    if s.len() == 0 {
        None
    } else {
        let signed = s[0] == '-' || s[0] == '+';
        let ds = if signed {
            s.drop_first()
        } else {
            s
        };
        if ds.len() == 0 || !all_dec_digits(ds) {
            None
        } else {
            let v = dec_digits_value(ds);
            if s[0] == '-' {
                if v <= 0x8000_0000_0000_0000 {
                    Some((-v) as i64)
                } else {
                    None
                }
            } else {
                if v <= 0x7fff_ffff_ffff_ffff {
                    Some(v as i64)
                } else {
                    None
                }
            }
        }
    }
}

pub proof fn lemma_dec_value_nonneg(s: Seq<char>)
    requires
        all_dec_digits(s),
    ensures
        dec_digits_value(s) >= 0,
    decreases s.len(),
{
    if s.len() > 0 {
        assert(all_dec_digits(s.drop_last())) by {
            assert(forall|i: int|
                0 <= i < s.len() - 1 ==> s.drop_last()[i] == #[trigger] s[i]);
        }
        lemma_dec_value_nonneg(s.drop_last());
    }
}

/// A numeral is at least as large as any of its prefixes.
pub proof fn lemma_dec_value_prefix(s: Seq<char>, k: int)
    requires
        all_dec_digits(s),
        0 <= k <= s.len(),
    ensures
        dec_digits_value(s.take(k)) <= dec_digits_value(s),
    decreases s.len() - k,
{
    if k < s.len() {
        assert(s.take(k + 1).drop_last() =~= s.take(k));
        assert(all_dec_digits(s.take(k))) by {
            assert(forall|i: int| 0 <= i < k ==> s.take(k)[i] == #[trigger] s[i]);
        }
        lemma_dec_value_nonneg(s.take(k));
        assert(dec_digits_value(s.take(k + 1)) == dec_digits_value(s.take(k)) * 10 + (s[k] as int
            - '0' as int));
        lemma_dec_value_prefix(s, k + 1);
    } else {
        assert(s.take(k) =~= s);
    }
}

/// The digit character for a value below ten.
pub open spec fn digit_char(d: int) -> char {
    if d == 0 {
        '0'
    } else if d == 1 {
        '1'
    } else if d == 2 {
        '2'
    } else if d == 3 {
        '3'
    } else if d == 4 {
        '4'
    } else if d == 5 {
        '5'
    } else if d == 6 {
        '6'
    } else if d == 7 {
        '7'
    } else if d == 8 {
        '8'
    } else {
        '9'
    }
}

/// The base-10 digit string of `v`, most significant first, empty for
/// values below one.
pub open spec fn dec_digits_of(v: int) -> Seq<char>
    decreases v,
{
    if v <= 0 {
        Seq::<char>::empty()
    } else {
        dec_digits_of(v / 10).push(digit_char(v % 10))
    }
}

/// The canonical base-10 text of a signed integer.
pub open spec fn i64_text(v: int) -> Seq<char> {
    if v == 0 {
        seq!['0']
    } else if v > 0 {
        dec_digits_of(v)
    } else {
        seq!['-'] + dec_digits_of(-v)
    }
}

/// The digit string of a positive value is a nonempty numeral reading back
/// to the same value.
pub proof fn lemma_dec_digits_of_value(n: int)
    requires
        n >= 1,
    ensures
        dec_digits_of(n).len() >= 1,
        all_dec_digits(dec_digits_of(n)),
        dec_digits_value(dec_digits_of(n)) == n,
    decreases n,
{
    vstd::arithmetic::div_mod::lemma_fundamental_div_mod(n, 10);
    let pre = dec_digits_of(n / 10);
    let whole = pre.push(digit_char(n % 10));
    assert(whole.drop_last() =~= pre);
    if n >= 10 {
        lemma_dec_digits_of_value(n / 10);
    } else {
        assert(dec_digits_of(n / 10) =~= Seq::<char>::empty());
    }
    assert(dec_digits_value(whole) == dec_digits_value(pre) * 10 + (digit_char(n % 10) as int
        - '0' as int));
}

/// Formatting a signed integer and parsing the text back returns the same
/// value.
pub proof fn lemma_format_parse_i64(v: i64)
    ensures
        parse_i64_text(i64_text(v as int)) == Some(v),
{
    if v == 0 {
        let s = i64_text(0);
        assert(s =~= seq!['0']);
        assert(s.len() == 1);
        assert(s.last() == '0');
        assert(s.drop_last() =~= Seq::<char>::empty());
        assert(dec_digits_value(s) == dec_digits_value(s.drop_last()) * 10 + (s.last() as int
            - '0' as int));
    } else if v > 0 {
        lemma_dec_digits_of_value(v as int);
    } else {
        lemma_dec_digits_of_value(-(v as int));
        let s = i64_text(v as int);
        assert(s[0] == '-');
        assert(s.drop_first() =~= dec_digits_of(-(v as int)));
    }
}

/// The canonical text of a signed integer has no surrounding whitespace.
pub proof fn lemma_i64_text_trimmed(v: i64)
    ensures
        trim(i64_text(v as int)) == i64_text(v as int),
{
    let s = i64_text(v as int);
    if v == 0 {
    } else if v > 0 {
        lemma_dec_digits_of_value(v as int);
        assert(is_dec_digit(s[0]));
        assert(is_dec_digit(s.last()));
    } else {
        lemma_dec_digits_of_value(-(v as int));
        let ds = dec_digits_of(-(v as int));
        assert(s.last() == ds.last());
        assert(is_dec_digit(ds.last()));
    }
    lemma_trim_untrimmed(s);
}

fn is_dec_digit_exec(c: char) -> (r: bool)
    ensures
        r == is_dec_digit(c),
{
    '0' <= c && c <= '9'
}

/// Parses base-10 signed integer text; `None` exactly on text outside the
/// grammar or outside the signed 64-bit range.
pub fn parse_i64(s: &str) -> (r: Option<i64>)
    ensures
        r == parse_i64_text(s@),
{
    let n = s.unicode_len();
    if n == 0 {
        return None;
    }
    let c0 = s.get_char(0);
    let start: usize = if c0 == '-' || c0 == '+' {
        1
    } else {
        0
    };
    if n == start {
        return None;
    }
    let ghost ds = if start == 1 {
        s@.drop_first()
    } else {
        s@
    };
    proof {
        assert(ds =~= s@.subrange(start as int, n as int));
    }
    proof {
        assert(s@.subrange(start as int, start as int) =~= Seq::<char>::empty());
    }
    let mut i: usize = start;
    let mut acc: u128 = 0;
    while i < n
        invariant
            start <= i <= n,
            n == s@.len(),
            n > start,
            start <= 1,
            c0 == s@[0],
            start == 1 <==> (s@[0] == '-' || s@[0] == '+'),
            ds == s@.subrange(start as int, n as int),
            ds == (if s@[0] == '-' || s@[0] == '+' {
                s@.drop_first()
            } else {
                s@
            }),
            forall|j: int| start <= j < i ==> is_dec_digit(#[trigger] s@[j]),
            acc == dec_digits_value(s@.subrange(start as int, i as int)),
            acc <= 0x8000_0000_0000_0000,
        decreases n - i,
    {
        let c = s.get_char(i);
        if !is_dec_digit_exec(c) {
            proof {
                assert(ds[i - start] == s@[i as int]);
                assert(!all_dec_digits(ds));
            }
            return None;
        }
        let d: u128 = (c as u32 - 48) as u128;
        proof {
            assert(s@.subrange(start as int, i as int + 1).drop_last() =~= s@.subrange(
                start as int,
                i as int,
            ));
            assert(s@.subrange(start as int, i as int + 1).last() == c);
        }
        acc = acc * 10 + d;
        if acc > 0x8000_0000_0000_0000 {
            proof {
                assert(dec_digits_value(s@.subrange(start as int, i as int + 1))
                    == dec_digits_value(s@.subrange(start as int, i as int)) * 10 + (s@[i as int]
                    as int - '0' as int));
                assert(acc == dec_digits_value(s@.subrange(start as int, i as int + 1)));
                if all_dec_digits(ds) {
                    assert(ds.take(i as int + 1 - start) =~= s@.subrange(
                        start as int,
                        i as int + 1,
                    ));
                    lemma_dec_value_prefix(ds, i as int + 1 - start);
                    assert(dec_digits_value(ds) > 0x8000_0000_0000_0000);
                }
            }
            return None;
        }
        i += 1;
    }
    proof {
        assert(s@.subrange(start as int, n as int) =~= ds);
        assert(forall|j: int| 0 <= j < ds.len() ==> ds[j] == #[trigger] s@[j + start]);
    }
    if c0 == '-' {
        if acc == 0x8000_0000_0000_0000 {
            Some(i64::MIN)
        } else {
            Some(-(acc as i64))
        }
    } else {
        if acc == 0x8000_0000_0000_0000 {
            None
        } else {
            Some(acc as i64)
        }
    }
}

fn digit_str(d: u64) -> (r: &'static str)
    requires
        d < 10,
    ensures
        r@ == seq![digit_char(d as int)],
{
    proof {
        reveal_strlit("0");
        reveal_strlit("1");
        reveal_strlit("2");
        reveal_strlit("3");
        reveal_strlit("4");
        reveal_strlit("5");
        reveal_strlit("6");
        reveal_strlit("7");
        reveal_strlit("8");
        reveal_strlit("9");
    }
    let r = match d {
        0 => "0",
        1 => "1",
        2 => "2",
        3 => "3",
        4 => "4",
        5 => "5",
        6 => "6",
        7 => "7",
        8 => "8",
        _ => "9",
    };
    proof {
        assert(r@ =~= seq![digit_char(d as int)]);
    }
    r
}

fn push_digits(n: u64, out: &mut String)
    ensures
        final(out)@ == old(out)@ + dec_digits_of(n as int),
    decreases n,
{
    if n == 0 {
        proof {
            assert(out@ =~= old(out)@ + dec_digits_of(0));
        }
        return;
    }
    push_digits(n / 10, out);
    out.append(digit_str(n % 10));
    proof {
        vstd::arithmetic::div_mod::lemma_fundamental_div_mod(n as int, 10);
        assert(out@ =~= old(out)@ + dec_digits_of(n as int));
    }
}

/// Formats a signed integer as its canonical base-10 text.
pub fn format_i64(v: i64) -> (r: String)
    ensures
        r@ == i64_text(v as int),
{
    let mut out = String::new();
    if v == 0 {
        proof {
            reveal_strlit("0");
        }
        out.append("0");
        proof {
            assert(out@ =~= i64_text(0));
        }
    } else if v > 0 {
        push_digits(v as u64, &mut out);
        proof {
            assert(out@ =~= i64_text(v as int));
        }
    } else {
        proof {
            reveal_strlit("-");
        }
        out.append("-");
        let mag: u64 = (-(v as i128)) as u64;
        push_digits(mag, &mut out);
        proof {
            assert(out@ =~= i64_text(v as int));
        }
    }
    out
}

} // verus!
