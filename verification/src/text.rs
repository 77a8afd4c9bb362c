//! Decimal text handling: parsing the tracker's text fields into integers
//! (with a default substituted on any parse failure), printing integers back
//! to text, and the lexicographic order on character sequences that the
//! roster's sort key uses.

use vstd::prelude::*;
use vstd::string::StrSliceExecFns;
use vstd::string::StringExecFns;

verus! {

pub open spec fn is_digit(c: char) -> bool {
    48 <= c as u32 && c as u32 <= 57
}

pub open spec fn digit_val(c: char) -> int {
    c as u32 - 48
}

pub open spec fn all_digits(s: Seq<char>) -> bool {
    forall|i: int| 0 <= i < s.len() ==> is_digit(#[trigger] s[i])
}

/// The non-negative integer denoted by a sequence of decimal digits.
pub open spec fn digits_val(s: Seq<char>) -> int
    decreases s.len(),
{
    if s.len() == 0 {
        0
    } else {
        digits_val(s.drop_last()) * 10 + digit_val(s.last())
    }
}

pub proof fn lemma_digits_val_nonneg(s: Seq<char>)
    requires
        all_digits(s),
    ensures
        digits_val(s) >= 0,
    decreases s.len(),
{
    if s.len() > 0 {
        assert(all_digits(s.drop_last()));
        lemma_digits_val_nonneg(s.drop_last());
    }
}

/// The value of a digit run never shrinks as more digits are appended.
pub proof fn lemma_digits_val_prefix_le(s: Seq<char>, k: int)
    requires
        all_digits(s),
        0 <= k <= s.len(),
    ensures
        digits_val(s.take(k)) <= digits_val(s),
    decreases s.len() - k,
{
    if k == s.len() {
        assert(s.take(k) =~= s);
    } else {
        assert(s.take(k + 1).drop_last() =~= s.take(k));
        assert(all_digits(s.take(k)));
        lemma_digits_val_nonneg(s.take(k));
        assert(digits_val(s.take(k + 1)) == digits_val(s.take(k)) * 10 + digit_val(s.take(k + 1).last()));
        assert(is_digit(s[k]));
        lemma_digits_val_prefix_le(s, k + 1);
    }
}

/// Exactly when a text field parses as an unsigned number: an optional
/// leading '+', then at least one digit, with the value in range.
pub open spec fn spec_parse_u32(s: Seq<char>) -> Option<u32> {
    let body = if s.len() > 0 && s[0] as u32 == 43 {
        s.subrange(1, s.len() as int)
    } else {
        s
    };
    if body.len() > 0 && all_digits(body) && digits_val(body) <= u32::MAX {
        Some(digits_val(body) as u32)
    } else {
        None
    }
}

/// The parse-with-default policy every text field of the tracker follows:
/// unparsable text is silently replaced by the given default.
pub open spec fn parse_u32_default(s: Seq<char>, default: u32) -> u32 {
    match spec_parse_u32(s) {
        Some(v) => v,
        None => default,
    }
}

/// Exactly when a text field parses as a signed number: an optional
/// leading '+' or '-', then at least one digit, with the value in range.
pub open spec fn spec_parse_i32(s: Seq<char>) -> Option<i32> {
    if s.len() > 0 && s[0] as u32 == 45 {
        let body = s.subrange(1, s.len() as int);
        if body.len() > 0 && all_digits(body) && digits_val(body) <= 0x8000_0000 {
            Some((-digits_val(body)) as i32)
        } else {
            None
        }
    } else {
        let body = if s.len() > 0 && s[0] as u32 == 43 {
            s.subrange(1, s.len() as int)
        } else {
            s
        };
        if body.len() > 0 && all_digits(body) && digits_val(body) <= i32::MAX {
            Some(digits_val(body) as i32)
        } else {
            None
        }
    }
}

pub open spec fn parse_i32_default(s: Seq<char>, default: i32) -> i32 {
    match spec_parse_i32(s) {
        Some(v) => v,
        None => default,
    }
}

/// Parse the digit run `s@[start..]` as a number no greater than `cap`.
fn parse_digits_capped(s: &str, start: usize, cap: u64) -> (r: Option<u64>)
    requires
        start <= s@.len(),
        cap <= 0x1_0000_0000,
    ensures
        ({
            let body = s@.subrange(start as int, s@.len() as int);
            match r {
                Some(v) => body.len() > 0 && all_digits(body) && digits_val(body) == v && v <= cap,
                None => !(body.len() > 0 && all_digits(body) && digits_val(body) <= cap),
            }
        }),
{
    let n = s.unicode_len();
    let ghost body = s@.subrange(start as int, s@.len() as int);
    if start == n {
        return None;
    }
    let mut i = start;
    let mut acc: u64 = 0;
    while i < n
        invariant
            start <= i <= n == s@.len(),
            start < n,
            body == s@.subrange(start as int, n as int),
            all_digits(s@.subrange(start as int, i as int)),
            acc == digits_val(s@.subrange(start as int, i as int)),
            acc <= cap <= 0x1_0000_0000,
        decreases n - i,
    {
        let c = s.get_char(i);
        let cv = c as u32;
        proof {
            assert(body[i - start] == s@[i as int]);
        }
        if cv < 48 || cv > 57 {
            return None;
        }
        let d = (cv - 48) as u64;
        let next = acc * 10 + d;
        proof {
            assert(s@.subrange(start as int, i + 1).drop_last() =~= s@.subrange(start as int, i as int));
            assert(s@.subrange(start as int, i + 1).last() == s@[i as int]);
        }
        if next > cap {
            proof {
                if all_digits(body) {
                    assert(body.take(i + 1 - start) =~= s@.subrange(start as int, i + 1));
                    lemma_digits_val_prefix_le(body, i + 1 - start);
                }
            }
            return None;
        }
        acc = next;
        i += 1;
    }
    proof {
        assert(s@.subrange(start as int, i as int) =~= body);
    }
    Some(acc)
}

/// Parse an unsigned field; unparsable text yields the default.
pub fn parse_u32_or(s: &str, default: u32) -> (r: u32)
    ensures
        r == parse_u32_default(s@, default),
{
    let n = s.unicode_len();
    let start: usize = if n > 0 && s.get_char(0) as u32 == 43 {
        1
    } else {
        0
    };
    proof {
        if start == 0 {
            assert(s@.subrange(0, s@.len() as int) =~= s@);
        }
    }
    match parse_digits_capped(s, start, 0xFFFF_FFFF) {
        Some(v) => v as u32,
        None => default,
    }
}

/// Parse a signed field; unparsable text yields the default.
pub fn parse_i32_or(s: &str, default: i32) -> (r: i32)
    ensures
        r == parse_i32_default(s@, default),
{
    let n = s.unicode_len();
    if n > 0 && s.get_char(0) as u32 == 45 {
        match parse_digits_capped(s, 1, 0x8000_0000) {
            Some(v) => {
                if v == 0x8000_0000 {
                    i32::MIN
                } else {
                    -(v as i32)
                }
            },
            None => default,
        }
    } else {
        let start: usize = if n > 0 && s.get_char(0) as u32 == 43 {
            1
        } else {
            0
        };
        proof {
            if start == 0 {
                assert(s@.subrange(0, s@.len() as int) =~= s@);
            }
        }
        match parse_digits_capped(s, start, 0x7FFF_FFFF) {
            Some(v) => v as i32,
            None => default,
        }
    }
}

pub open spec fn digit_char(d: int) -> char {
    if d == 0 {
        '0'
    } else if d == 1 {
        '1'
    } else if d == 2 {
        '2'
    } else if d == 3 {
        '3'
    } else if d == 4 {
        '4'
    } else if d == 5 {
        '5'
    } else if d == 6 {
        '6'
    } else if d == 7 {
        '7'
    } else if d == 8 {
        '8'
    } else {
        '9'
    }
}

/// The decimal text of a non-negative integer, most significant digit first.
pub open spec fn dec_digits(n: int) -> Seq<char>
    decreases n,
{
    if n < 0 {
        Seq::empty()
    } else if n < 10 {
        seq![digit_char(n)]
    } else {
        dec_digits(n / 10).push(digit_char(n % 10))
    }
}

/// Printing then parsing a number gives it back: the decimal text is all
/// digits and denotes the printed value.
pub proof fn lemma_dec_digits_val(n: int)
    requires
        n >= 0,
    ensures
        dec_digits(n).len() >= 1,
        all_digits(dec_digits(n)),
        digits_val(dec_digits(n)) == n,
    decreases n,
{
    if n < 10 {
        assert(is_digit(digit_char(n)));
        assert(digit_val(digit_char(n)) == n);
        assert(dec_digits(n).drop_last() =~= Seq::<char>::empty());
        assert(dec_digits(n).last() == digit_char(n));
        assert(digits_val(dec_digits(n)) == digits_val(dec_digits(n).drop_last()) * 10 + digit_val(
            dec_digits(n).last(),
        ));
    } else {
        lemma_dec_digits_val(n / 10);
        assert(is_digit(digit_char(n % 10)));
        assert(digit_val(digit_char(n % 10)) == n % 10);
        assert(dec_digits(n).drop_last() =~= dec_digits(n / 10));
        assert(dec_digits(n).last() == digit_char(n % 10));
    }
}

/// Round trip of the text fields: the decimal text of `n` parses back to `n`.
pub proof fn lemma_parse_of_dec_digits(n: u32, default: u32)
    ensures
        spec_parse_u32(dec_digits(n as int)) == Some(n),
        parse_u32_default(dec_digits(n as int), default) == n,
{
    lemma_dec_digits_val(n as int);
    let s = dec_digits(n as int);
    assert(is_digit(s[0]));
    assert(s[0] as u32 != 43);
}

fn digit_str(d: u32) -> (r: &'static str)
    requires
        d < 10,
    ensures
        r@ =~= seq![digit_char(d as int)],
{
    match d {
        0 => {
            proof { reveal_strlit("0"); }
            "0"
        },
        1 => {
            proof { reveal_strlit("1"); }
            "1"
        },
        2 => {
            proof { reveal_strlit("2"); }
            "2"
        },
        3 => {
            proof { reveal_strlit("3"); }
            "3"
        },
        4 => {
            proof { reveal_strlit("4"); }
            "4"
        },
        5 => {
            proof { reveal_strlit("5"); }
            "5"
        },
        6 => {
            proof { reveal_strlit("6"); }
            "6"
        },
        7 => {
            proof { reveal_strlit("7"); }
            "7"
        },
        8 => {
            proof { reveal_strlit("8"); }
            "8"
        },
        _ => {
            proof { reveal_strlit("9"); }
            "9"
        },
    }
}

/// Render a number as decimal text, as the draft's initiative field stores it.
pub fn u32_to_string(n: u32) -> (r: String)
    ensures
        r@ =~= dec_digits(n as int),
{
    let mut stack: Vec<u32> = Vec::new();
    let mut m: u32 = n;
    while m >= 10
        invariant
            forall|k: int| 0 <= k < stack@.len() ==> #[trigger] stack@[k] < 10,
            dec_digits(n as int) =~= dec_digits(m as int) + Seq::new(
                stack@.len(),
                |i: int| digit_char(stack@[stack@.len() - 1 - i] as int),
            ),
        decreases m,
    {
        let d = m % 10;
        let ghost old_stack = stack@;
        stack.push(d);
        m = m / 10;
        proof {
            let new_rev = Seq::new(
                stack@.len(),
                |i: int| digit_char(stack@[stack@.len() - 1 - i] as int),
            );
            let old_rev = Seq::new(
                old_stack.len(),
                |i: int| digit_char(old_stack[old_stack.len() - 1 - i] as int),
            );
            assert(new_rev =~= seq![digit_char(d as int)] + old_rev);
            assert(dec_digits((10 * m + d) as int) =~= dec_digits(m as int) + seq![digit_char(d as int)]);
            assert(dec_digits(n as int) =~= dec_digits(m as int) + new_rev);
        }
    }
    let ghost old_stack = stack@;
    stack.push(m);
    proof {
        let new_rev = Seq::new(
            stack@.len(),
            |i: int| digit_char(stack@[stack@.len() - 1 - i] as int),
        );
        let old_rev = Seq::new(
            old_stack.len(),
            |i: int| digit_char(old_stack[old_stack.len() - 1 - i] as int),
        );
        assert(new_rev =~= seq![digit_char(m as int)] + old_rev);
        assert(dec_digits(m as int) =~= seq![digit_char(m as int)]);
        assert(dec_digits(n as int) =~= new_rev);
    }
    let ghost target = dec_digits(n as int);
    let total = stack.len();
    let mut r = String::new();
    let mut i = total;
    while i > 0
        invariant
            i <= total == stack@.len(),
            forall|k: int| 0 <= k < stack@.len() ==> #[trigger] stack@[k] < 10,
            target =~= Seq::new(
                stack@.len(),
                |j: int| digit_char(stack@[stack@.len() - 1 - j] as int),
            ),
            r@ =~= target.take(total - i),
        decreases i,
    {
        i = i - 1;
        let d = stack[i];
        r.append(digit_str(d));
        proof {
            assert(target[total - 1 - i] == digit_char(stack@[i as int] as int));
            assert(r@ =~= target.take(total - i));
        }
    }
    proof {
        assert(target.take(total as int) =~= target);
    }
    r
}

/// Lexicographic "less than or equal" on character sequences, by code point.
/// This is the order `name` contributes to the roster's sort key.
pub open spec fn chars_le(a: Seq<char>, b: Seq<char>) -> bool
    decreases a.len(),
{
    if a.len() == 0 {
        true
    } else if b.len() == 0 {
        false
    } else if (a[0] as u32) < (b[0] as u32) {
        true
    } else if (a[0] as u32) > (b[0] as u32) {
        false
    } else {
        chars_le(a.drop_first(), b.drop_first())
    }
}

/// Any two character sequences compare one way or the other.
pub proof fn lemma_chars_le_total(a: Seq<char>, b: Seq<char>)
    ensures
        chars_le(a, b) || chars_le(b, a),
    decreases a.len(),
{
    if a.len() > 0 && b.len() > 0 && a[0] as u32 == b[0] as u32 {
        lemma_chars_le_total(a.drop_first(), b.drop_first());
    }
}

pub proof fn lemma_chars_le_trans(a: Seq<char>, b: Seq<char>, c: Seq<char>)
    requires
        chars_le(a, b),
        chars_le(b, c),
    ensures
        chars_le(a, c),
    decreases a.len(),
{
    if a.len() > 0 && b.len() > 0 && c.len() > 0 {
        if a[0] as u32 == b[0] as u32 && b[0] as u32 == c[0] as u32 {
            lemma_chars_le_trans(a.drop_first(), b.drop_first(), c.drop_first());
        }
    }
}

/// Compare two pieces of text lexicographically by code point.
pub fn str_le(a: &str, b: &str) -> (r: bool)
    ensures
        r == chars_le(a@, b@),
{
    let an = a.unicode_len();
    let bn = b.unicode_len();
    let mut i: usize = 0;
    proof {
        assert(a@.skip(0) =~= a@);
        assert(b@.skip(0) =~= b@);
    }
    loop
        invariant
            i <= an == a@.len(),
            i <= bn == b@.len(),
            chars_le(a@, b@) == chars_le(a@.skip(i as int), b@.skip(i as int)),
            chars_le(b@, a@) == chars_le(b@.skip(i as int), a@.skip(i as int)),
        decreases an - i,
    {
        if i == an {
            return true;
        }
        if i == bn {
            proof {
                assert(!chars_le(a@.skip(i as int), b@.skip(i as int)));
            }
            return false;
        }
        let ca = a.get_char(i) as u32;
        let cb = b.get_char(i) as u32;
        proof {
            assert(a@.skip(i as int)[0] == a@[i as int]);
            assert(b@.skip(i as int)[0] == b@[i as int]);
        }
        if ca < cb {
            return true;
        }
        if ca > cb {
            return false;
        }
        proof {
            assert(a@.skip(i as int).drop_first() =~= a@.skip(i + 1));
            assert(b@.skip(i as int).drop_first() =~= b@.skip(i + 1));
        }
        i += 1;
    }
}

} // verus!
