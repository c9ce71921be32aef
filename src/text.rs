//! Text helpers: decimal rendering of integers and comparison of strings.
use vstd::arithmetic::div_mod::lemma_fundamental_div_mod;
use vstd::prelude::*;
use vstd::string::*;

verus! {

pub open spec fn digit_char(d: int) -> char {
    ((48 + d) as u8) as char
}

/// The decimal digits of `n`, without leading zeros.
pub open spec fn digits_of(n: nat) -> Seq<char>
    decreases n,
{
    if n < 10 {
        seq![digit_char(n as int)]
    } else {
        digits_of(n / 10) + seq![digit_char((n % 10) as int)]
    }
}

/// `n` in decimal, with a leading `-` when it is negative.
pub open spec fn decimal_of(n: int) -> Seq<char> {
    if n < 0 {
        seq!['-'] + digits_of((-n) as nat)
    } else {
        digits_of(n as nat)
    }
}

fn digit_str(d: u64) -> (r: &'static str)
    requires
        d < 10,
    ensures
        r@ == seq![digit_char(d as int)],
{
    proof {
        reveal_strlit("0");
        reveal_strlit("1");
        reveal_strlit("2");
        reveal_strlit("3");
        reveal_strlit("4");
        reveal_strlit("5");
        reveal_strlit("6");
        reveal_strlit("7");
        reveal_strlit("8");
        reveal_strlit("9");
    }
    match d {
        0 => "0",
        1 => "1",
        2 => "2",
        3 => "3",
        4 => "4",
        5 => "5",
        6 => "6",
        7 => "7",
        8 => "8",
        _ => "9",
    }
}

pub(crate) fn digits(n: u64) -> (r: String)
    ensures
        r@ == digits_of(n as nat),
    decreases n,
{
    if n < 10 {
        String::from_str(digit_str(n))
    } else {
        let mut s = digits(n / 10);
        s.append(digit_str(n % 10));
        s
    }
}

/// `n` in decimal.
pub(crate) fn decimal_text(n: i64) -> (r: String)
    ensures
        r@ == decimal_of(n as int),
{
    if n >= 0 {
        digits(n as u64)
    } else {
        let magnitude: u64 = if n == i64::MIN {
            9223372036854775808u64
        } else {
            (-n) as u64
        };
        let mut s = String::from_str("-");
        proof {
            reveal_strlit("-");
        }
        let d = digits(magnitude);
        s.append(d.as_str());
        s
    }
}

pub(crate) fn same_text(a: &str, b: &str) -> (r: bool)
    ensures
        r == (a@ == b@),
{
    let n = a.unicode_len();
    if n != b.unicode_len() {
        return false;
    }
    let mut i: usize = 0;
    while i < n
        invariant
            n == a@.len(),
            n == b@.len(),
            i <= n,
            forall|k: int| 0 <= k < i ==> a@[k] == b@[k],
        decreases n - i,
    {
        if a.get_char(i) != b.get_char(i) {
            return false;
        }
        i = i + 1;
    }
    assert(a@ =~= b@);
    true
}

pub open spec fn is_digit(c: char) -> bool {
    '0' <= c <= '9'
}

/// The number that a sequence of decimal digits spells.
pub open spec fn digits_value(s: Seq<char>) -> int
    decreases s.len(),
{
    if s.len() == 0 {
        0
    } else {
        digits_value(s.drop_last()) * 10 + ((s.last() as u32) - 48)
    }
}

/// Digits without a superfluous leading zero.
pub open spec fn is_canonical_digits(s: Seq<char>) -> bool {
    &&& s.len() > 0
    &&& forall|k: int| 0 <= k < s.len() ==> is_digit(#[trigger] s[k])
    &&& (s[0] == '0' ==> s.len() == 1)
}

pub open spec fn pow10(k: nat) -> int
    decreases k,
{
    if k == 0 {
        1
    } else {
        10 * pow10((k - 1) as nat)
    }
}

proof fn lemma_digit_char(k: int)
    requires
        0 <= k < 10,
    ensures
        digit_char(k) as u32 == 48 + k,
        is_digit(digit_char(k)),
{
}

proof fn lemma_digits_of(n: nat)
    ensures
        is_canonical_digits(digits_of(n)),
        digits_value(digits_of(n)) == n,
        digits_of(n).len() > 1 ==> n >= pow10((digits_of(n).len() - 1) as nat),
    decreases n,
{
    let d = digits_of(n);
    if n < 10 {
        lemma_digit_char(n as int);
        assert(d.drop_last() =~= Seq::<char>::empty());
        assert(d[0] == digit_char(n as int));
        assert(d.last() == d[0]);
        assert(digits_value(d) == digits_value(d.drop_last()) * 10 + ((d.last() as u32) - 48));
        assert forall|k: int| 0 <= k < d.len() implies is_digit(#[trigger] d[k]) by {
            assert(k == 0);
        }
    } else {
        lemma_digits_of(n / 10);
        lemma_fundamental_div_mod(n as int, 10);
        lemma_digit_char((n % 10) as int);
        let init = digits_of(n / 10);
        assert(d.drop_last() =~= init);
        assert(d.last() == digit_char((n % 10) as int));
        assert(digits_value(d) == digits_value(init) * 10 + ((d.last() as u32) - 48));
        assert(d[0] == init[0]);
        if init[0] == '0' {
            assert(init.len() == 1);
            assert(init.drop_last() =~= Seq::<char>::empty());
            assert(digits_value(init.drop_last()) == 0);
            assert(('0' as u32) == 48);
            assert(init.last() == init[0]);
            assert(digits_value(init) == 0);
        }
        assert(d[0] != '0');
        assert forall|k: int| 0 <= k < d.len() implies is_digit(#[trigger] d[k]) by {
            if k < init.len() {
                assert(d[k] == init[k]);
            }
        }
        if init.len() > 1 {
            assert(pow10((d.len() - 1) as nat) == 10 * pow10((init.len() - 1) as nat));
        } else {
            assert(pow10((d.len() - 1) as nat) == 10) by {
                assert(pow10(0) == 1);
            }
        }
    }
}

/// Canonical digits are the decimal form of the number they spell.
proof fn lemma_canonical_digits(s: Seq<char>)
    requires
        is_canonical_digits(s),
    ensures
        digits_of(digits_value(s) as nat) == s,
        s.len() > 1 ==> digits_value(s) >= 10,
        digits_value(s) >= 0,
    decreases s.len(),
{
    if s.len() == 1 {
        assert(s.drop_last() =~= Seq::<char>::empty());
        assert(s[0] == s.last());
        assert(is_digit(s[0]));
        assert(digits_value(s.drop_last()) == 0);
        let v = (s[0] as u32) - 48;
        assert(digits_value(s) == v);
        assert(digit_char(v as int) == s[0]);
        assert(digits_of(v as nat) =~= s);
    } else {
        let init = s.drop_last();
        assert(init[0] == s[0]);
        assert forall|k: int| 0 <= k < init.len() implies is_digit(#[trigger] init[k]) by {
            assert(init[k] == s[k]);
        }
        lemma_canonical_digits(init);
        assert(is_digit(s[s.len() - 1]));
        let v = digits_value(s);
        let d = (s.last() as u32) - 48;
        assert(digits_value(init) >= 1) by {
            if init.len() == 1 {
                assert(init.drop_last() =~= Seq::<char>::empty());
                assert(init[0] != '0');
            }
        }
        vstd::arithmetic::div_mod::lemma_fundamental_div_mod_converse(
            v,
            10,
            digits_value(init),
            d as int,
        );
        assert(digits_of(v as nat) =~= s);
    }
}

/// What the decimal form of an `i32` looks like: an optional `-`, then at
/// most ten canonical digits spelling its magnitude.
proof fn lemma_decimal_shape(key: Seq<char>, n: i32)
    requires
        key == decimal_of(n as int),
    ensures
        (key.len() > 0 && key[0] == '-') <==> n < 0,
        ({
            let start: int = if n < 0 {
                1
            } else {
                0
            };
            let body = key.subrange(start, key.len() as int);
            let m: int = if n < 0 {
                -n
            } else {
                n as int
            };
            &&& is_canonical_digits(body)
            &&& digits_value(body) == m
            &&& body.len() <= 10
        }),
{
    let m = (if n < 0 {
        -n
    } else {
        n as int
    }) as nat;
    lemma_digits_of(m);
    let d = digits_of(m);
    if n < 0 {
        assert(key.subrange(1, key.len() as int) =~= d);
    } else {
        assert(is_digit(d[0]));
        assert(key.subrange(0, key.len() as int) =~= d);
    }
    if d.len() > 10 {
        lemma_pow10_monotone(10, (d.len() - 1) as nat);
        assert(pow10(10) == 10000000000) by {
            reveal_with_fuel(pow10, 11);
        }
    }
}

/// The identifier whose decimal form `key` is; `None` when `key` is the
/// decimal form of no `i32`.
pub fn parse_track_id(key: &str) -> (r: Option<i32>)
    ensures
        match r {
            Some(n) => key@ == decimal_of(n as int),
            None => forall|n: i32| key@ != decimal_of(n as int),
        },
{
    let len = key.unicode_len();
    let neg = len > 0 && key.get_char(0) == '-';
    let start: usize = if neg {
        1
    } else {
        0
    };
    let ghost body = key@.subrange(start as int, len as int);
    if len == start || len - start > 10 {
        proof {
            assert forall|n: i32| key@ != decimal_of(n as int) by {
                if key@ == decimal_of(n as int) {
                    lemma_decimal_shape(key@, n);
                }
            }
        }
        return None;
    }
    if key.get_char(start) == '0' && len - start > 1 {
        proof {
            assert forall|n: i32| key@ != decimal_of(n as int) by {
                if key@ == decimal_of(n as int) {
                    lemma_decimal_shape(key@, n);
                    assert(body[0] == '0');
                }
            }
        }
        return None;
    }
    let mut v: u64 = 0;
    let mut i: usize = start;
    while i < len
        invariant
            start <= i <= len,
            len == key@.len(),
            len - start <= 10,
            neg == (key@.len() > 0 && key@[0] == '-'),
            start == (if neg {
                1usize
            } else {
                0usize
            }),
            body == key@.subrange(start as int, len as int),
            v == digits_value(key@.subrange(start as int, i as int)),
            v < pow10((i - start) as nat),
            forall|k: int| start <= k < i ==> is_digit(#[trigger] key@[k]),
        decreases len - i,
    {
        let c = key.get_char(i);
        if !('0' <= c && c <= '9') {
            proof {
                assert forall|n: i32| key@ != decimal_of(n as int) by {
                    if key@ == decimal_of(n as int) {
                        lemma_decimal_shape(key@, n);
                        assert(body[i - start] == c);
                    }
                }
            }
            return None;
        }
        proof {
            assert(key@.subrange(start as int, i + 1).drop_last() =~= key@.subrange(
                start as int,
                i as int,
            ));
            lemma_pow10_monotone((i - start + 1) as nat, 10);
            assert(pow10(10) == 10000000000) by {
                reveal_with_fuel(pow10, 11);
            }
            assert(pow10((i - start + 1) as nat) == 10 * pow10((i - start) as nat));
        }
        v = v * 10 + ((c as u32) - 48) as u64;
        i = i + 1;
    }
    proof {
        assert(key@.subrange(start as int, len as int) =~= body);
        assert(is_canonical_digits(body)) by {
            assert forall|k: int| 0 <= k < body.len() implies is_digit(#[trigger] body[k]) by {
                assert(body[k] == key@[start + k]);
            }
        }
        lemma_canonical_digits(body);
    }
    if neg {
        if v > 2147483648 || v == 0 {
            proof {
                assert forall|n: i32| key@ != decimal_of(n as int) by {
                    if key@ == decimal_of(n as int) {
                        lemma_decimal_shape(key@, n);
                    }
                }
            }
            return None;
        }
        proof {
            assert(key@ =~= seq!['-'] + body);
        }
        Some((-(v as i64)) as i32)
    } else {
        if v > 2147483647 {
            proof {
                assert forall|n: i32| key@ != decimal_of(n as int) by {
                    if key@ == decimal_of(n as int) {
                        lemma_decimal_shape(key@, n);
                    }
                }
            }
            return None;
        }
        proof {
            assert(key@ =~= body);
        }
        Some(v as i32)
    }
}

proof fn lemma_pow10_monotone(a: nat, b: nat)
    requires
        a <= b,
    ensures
        pow10(a) <= pow10(b),
        pow10(a) >= 1,
    decreases b,
{
    if a < b {
        lemma_pow10_monotone(a, (b - 1) as nat);
    } else if a > 0 {
        lemma_pow10_monotone((a - 1) as nat, (a - 1) as nat);
    }
}

} // verus!
