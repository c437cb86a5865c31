//! Decimal text: parsing integers the way `str::parse::<i64>` does, and
//! printing them back, both against one mathematical reading of digit runs.
use vstd::prelude::*;

verus! {

pub open spec fn is_digit(c: char) -> bool {
    '0' <= c && c <= '9'
}

pub open spec fn digit_val(c: char) -> int {
    c as u32 - '0' as u32
}

pub open spec fn all_digits(s: Seq<char>) -> bool {
    forall|i: int| 0 <= i < s.len() ==> is_digit(#[trigger] s[i])
}

/// The number a run of decimal digits denotes.
pub open spec fn dec_val(s: Seq<char>) -> int
    decreases s.len(),
{
    if s.len() == 0 {
        0
    } else {
        dec_val(s.drop_last()) * 10 + digit_val(s.last())
    }
}

pub proof fn lemma_dec_val_nonneg(s: Seq<char>)
    requires
        all_digits(s),
    ensures
        dec_val(s) >= 0,
    decreases s.len(),
{
    if s.len() > 0 {
        assert(all_digits(s.drop_last())) by {
            assert(forall|i: int|
                0 <= i < s.len() - 1 ==> is_digit(#[trigger] s.drop_last()[i]) == is_digit(s[i]));
        }
        lemma_dec_val_nonneg(s.drop_last());
        let x = dec_val(s.drop_last());
        let d = digit_val(s.last());
        assert(is_digit(s[s.len() - 1]));
        assert(d >= 0);
        assert(x * 10 + d >= 0) by (nonlinear_arith)
            requires
                x >= 0,
                d >= 0,
        ;
    }
}

pub proof fn lemma_dec_val_take_le(s: Seq<char>, j: int)
    requires
        all_digits(s),
        0 <= j <= s.len(),
    ensures
        dec_val(s.take(j)) <= dec_val(s),
    decreases s.len(),
{
    if j == s.len() {
        assert(s.take(j) =~= s);
    } else {
        assert(all_digits(s.drop_last())) by {
            assert(forall|i: int|
                0 <= i < s.len() - 1 ==> is_digit(#[trigger] s.drop_last()[i]) == is_digit(s[i]));
        }
        assert(s.take(j) =~= s.drop_last().take(j));
        lemma_dec_val_take_le(s.drop_last(), j);
        lemma_dec_val_nonneg(s.drop_last());
        let x = dec_val(s.drop_last());
        let d = digit_val(s.last());
        assert(is_digit(s[s.len() - 1]));
        assert(x * 10 + d >= x) by (nonlinear_arith)
            requires
                x >= 0,
                d >= 0,
        ;
    }
}

/// Whether `c` is a decimal digit.
pub fn digit_char(c: char) -> (r: bool)
    ensures
        r == is_digit(c),
{
    '0' <= c && c <= '9'
}

/// Parse a run of decimal digits as an `i64`; a run whose value does not
/// fit is refused.
pub fn parse_digit_run(ds: &Vec<char>) -> (r: Option<i64>)
    requires
        all_digits(ds@),
    ensures
        match r {
            Option::Some(v) => v == dec_val(ds@),
            Option::None => dec_val(ds@) > i64::MAX,
        },
{
    let mut acc: i64 = 0;
    let mut j: usize = 0;
    proof {
        assert(ds@.take(0) =~= Seq::<char>::empty());
    }
    while j < ds.len()
        invariant
            j <= ds@.len(),
            all_digits(ds@),
            0 <= acc,
            acc == dec_val(ds@.take(j as int)),
        decreases ds@.len() - j,
    {
        let c = ds[j];
        proof {
            assert(is_digit(ds@[j as int]));
        }
        let du: u32 = (c as u32) - ('0' as u32);
        proof {
            assert(du == digit_val(ds@[j as int]));
            assert(du <= 9);
        }
        let d: i64 = du as i64;
        if acc > (9223372036854775807i64 - d) / 10 {
            proof {
                let x = acc as int;
                let dd = d as int;
                assert(x * 10 + dd > i64::MAX) by (nonlinear_arith)
                    requires
                        x > (i64::MAX - dd) / 10,
                        x >= 0,
                        0 <= dd <= 9,
                ;
                assert(ds@.take(j + 1).drop_last() =~= ds@.take(j as int));
                assert(ds@.take(j + 1).last() == ds@[j as int]);
                assert(dec_val(ds@.take(j + 1)) > i64::MAX);
                lemma_dec_val_take_le(ds@, j + 1);
                assert(ds@.take(ds@.len() as int) =~= ds@);
            }
            return Option::None;
        }
        proof {
            let x = acc as int;
            let dd = d as int;
            assert(x * 10 + dd <= i64::MAX) by (nonlinear_arith)
                requires
                    x <= (i64::MAX - dd) / 10,
                    x >= 0,
                    0 <= dd <= 9,
            ;
            assert(x * 10 + dd >= 0) by (nonlinear_arith)
                requires
                    x >= 0,
                    dd >= 0,
            ;
            assert(ds@.take(j + 1).drop_last() =~= ds@.take(j as int));
            assert(ds@.take(j + 1).last() == ds@[j as int]);
        }
        acc = acc * 10 + d;
        j = j + 1;
    }
    proof {
        assert(ds@.take(j as int) =~= ds@);
    }
    Option::Some(acc)
}

/// What `str::parse::<i64>` accepts: an optional sign, then one or more
/// decimal digits, the whole value within the type's range.
pub open spec fn parsed_i64(s: Seq<char>) -> Option<int> {
    let neg = s.len() > 0 && s[0] == '-';
    let ds = if s.len() > 0 && (s[0] == '-' || s[0] == '+') {
        s.skip(1)
    } else {
        s
    };
    if ds.len() >= 1 && all_digits(ds) && (if neg {
        dec_val(ds) <= 0x8000000000000000
    } else {
        dec_val(ds) <= i64::MAX
    }) {
        if neg {
            Option::Some(-dec_val(ds))
        } else {
            Option::Some(dec_val(ds))
        }
    } else {
        Option::None
    }
}

/// Parse an integer the way `str::parse::<i64>` does.
pub fn parse_i64(s: &Vec<char>) -> (r: Option<i64>)
    ensures
        match r {
            Option::Some(v) => parsed_i64(s@) == Option::Some(v as int),
            Option::None => parsed_i64(s@) is None,
        },
{
    let mut start: usize = 0;
    let mut neg: bool = false;
    if s.len() > 0 && (s[0] == '-' || s[0] == '+') {
        neg = s[0] == '-';
        start = 1;
    }
    let ghost ds = if s@.len() > 0 && (s@[0] == '-' || s@[0] == '+') {
        s@.skip(1)
    } else {
        s@
    };
    proof {
        assert(ds =~= s@.skip(start as int));
    }
    if s.len() == start {
        return Option::None;
    }
    let limit: u64 = if neg {
        9223372036854775808u64
    } else {
        9223372036854775807u64
    };
    let mut acc: u64 = 0;
    let mut j: usize = start;
    proof {
        assert(ds.take(0) =~= Seq::<char>::empty());
    }
    while j < s.len()
        invariant
            start <= j <= s@.len(),
            ds == s@.skip(start as int),
            start == 0 || start == 1,
            (start == 1) == (s@.len() > 0 && (s@[0] == '-' || s@[0] == '+')),
            neg == (s@.len() > 0 && s@[0] == '-'),
            ds.len() >= 1,
            limit == if neg {
                0x8000000000000000u64
            } else {
                0x7fffffffffffffffu64
            },
            acc <= limit,
            all_digits(ds.take(j - start)),
            acc == dec_val(ds.take(j - start)),
        decreases s@.len() - j,
    {
        let c = s[j];
        if !digit_char(c) {
            proof {
                assert(ds[j - start] == s@[j as int]);
                assert(!all_digits(ds));
            }
            return Option::None;
        }
        let du: u32 = (c as u32) - ('0' as u32);
        let d: u64 = du as u64;
        proof {
            assert(ds[j - start] == s@[j as int]);
            assert(d == digit_val(ds[j - start]));
            assert(d <= 9);
        }
        if acc > (limit - d) / 10 {
            proof {
                let x = acc as int;
                let dd = d as int;
                let lim = limit as int;
                assert(x * 10 + dd > lim) by (nonlinear_arith)
                    requires
                        x > (lim - dd) / 10,
                        x >= 0,
                        lim >= 0,
                        0 <= dd <= 9,
                ;
                assert(ds.take(j - start + 1).drop_last() =~= ds.take(j - start));
                assert(ds.take(j - start + 1).last() == ds[j - start]);
                assert(dec_val(ds.take(j - start + 1)) > lim);
                if ds.len() >= 1 && all_digits(ds) {
                    lemma_dec_val_take_le(ds, j - start + 1);
                    assert(ds.take(ds.len() as int) =~= ds);
                    assert(dec_val(ds) >= dec_val(ds.take(j - start + 1)));
                    assert(dec_val(ds) > lim);
                }
                if start == 0 {
                    assert(s@.skip(0) =~= s@);
                }
                assert(parsed_i64(s@) is None);
            }
            return Option::None;
        }
        proof {
            let x = acc as int;
            let dd = d as int;
            let lim = limit as int;
            assert(x * 10 + dd <= lim) by (nonlinear_arith)
                requires
                    x <= (lim - dd) / 10,
                    x >= 0,
                    lim >= 0,
                    0 <= dd <= 9,
            ;
            assert(x * 10 + dd >= 0) by (nonlinear_arith)
                requires
                    x >= 0,
                    dd >= 0,
            ;
            assert(ds.take(j - start + 1).drop_last() =~= ds.take(j - start));
            assert(ds.take(j - start + 1).last() == ds[j - start]);
            assert(forall|i: int|
                0 <= i < j - start + 1 ==> is_digit(#[trigger] ds.take(j - start + 1)[i]));
        }
        acc = acc * 10 + d;
        j = j + 1;
    }
    proof {
        assert(ds.take(j - start) =~= ds);
    }
    if neg {
        if acc == 9223372036854775808u64 {
            Option::Some(i64::MIN)
        } else {
            Option::Some(-(acc as i64))
        }
    } else {
        Option::Some(acc as i64)
    }
}

/// One decimal digit as a character.
pub open spec fn dec_digit(d: int) -> char {
    seq!['0', '1', '2', '3', '4', '5', '6', '7', '8', '9'][d]
}

/// The decimal text of a nonnegative number.
pub open spec fn udec(n: int) -> Seq<char>
    decreases n,
{
    if n < 10 {
        seq![dec_digit(if n < 0 {
            0
        } else {
            n
        })]
    } else {
        udec(n / 10).push(dec_digit(n % 10))
    }
}

/// The decimal text of an integer, as `i64` values print.
pub open spec fn idec(n: int) -> Seq<char> {
    if n < 0 {
        seq!['-'] + udec(-n)
    } else {
        udec(n)
    }
}

fn dec_digit_char(d: u64) -> (c: char)
    requires
        d < 10,
    ensures
        c == dec_digit(d as int),
{
    if d == 0 {
        '0'
    } else if d == 1 {
        '1'
    } else if d == 2 {
        '2'
    } else if d == 3 {
        '3'
    } else if d == 4 {
        '4'
    } else if d == 5 {
        '5'
    } else if d == 6 {
        '6'
    } else if d == 7 {
        '7'
    } else if d == 8 {
        '8'
    } else {
        '9'
    }
}

fn push_u64_dec(out: &mut Vec<char>, n: u64)
    ensures
        final(out)@ == old(out)@ + udec(n as int),
    decreases n,
{
    if n < 10 {
        out.push(dec_digit_char(n));
        proof {
            assert(final(out)@ =~= old(out)@ + udec(n as int));
        }
    } else {
        push_u64_dec(out, n / 10);
        out.push(dec_digit_char(n % 10));
        proof {
            assert(final(out)@ =~= old(out)@ + udec(n as int));
        }
    }
}

/// The decimal text of `n`, as `i64` values print.
pub fn i64_dec_chars(n: i64) -> (out: Vec<char>)
    ensures
        out@ == idec(n as int),
{
    let mut out: Vec<char> = Vec::new();
    if n < 0 {
        out.push('-');
        let mag: u64 = if n == i64::MIN {
            9223372036854775808u64
        } else {
            (-n) as u64
        };
        push_u64_dec(&mut out, mag);
        proof {
            assert(out@ =~= idec(n as int));
        }
    } else {
        push_u64_dec(&mut out, n as u64);
        proof {
            assert(out@ =~= idec(n as int));
        }
    }
    out
}

} // verus!
