//! Decimal numbers and plain comparisons on text.
use vstd::prelude::*;
use vstd::string::StringExecFns;

verus! {

/// An ASCII decimal digit.
pub open spec fn is_digit(c: char) -> bool {
    '0' <= c && c <= '9'
}

/// The number that a digit stands for.
pub open spec fn digit_value(c: char) -> int {
    c as int - '0' as int
}

/// Every character is a decimal digit.
pub open spec fn all_digits(s: Seq<char>) -> bool {
    forall|i: int| 0 <= i < s.len() ==> is_digit(#[trigger] s[i])
}

/// The number that a run of decimal digits denotes, most significant first.
pub open spec fn decimal_value(s: Seq<char>) -> int
    decreases s.len(),
{
    if s.len() == 0 {
        0
    } else {
        decimal_value(s.drop_last()) * 10 + digit_value(s.last())
    }
}

/// The digits after an optional leading `+` or `-`.
pub open spec fn unsigned_part(s: Seq<char>) -> Seq<char> {
    if s.len() > 0 && (s[0] == '+' || s[0] == '-') {
        s.drop_first()
    } else {
        s
    }
}

/// What reading `s` as a decimal `i32` gives: an optional sign, then one or
/// more digits and nothing else, with a value that fits in an `i32`.
pub open spec fn parsed_i32(s: Seq<char>) -> Option<i32> {
    let body = unsigned_part(s);
    let magnitude = decimal_value(body);
    let value = if s.len() > 0 && s[0] == '-' { -magnitude } else { magnitude };
    if body.len() > 0 && all_digits(body) && i32::MIN <= value <= i32::MAX {
        Some(value as i32)
    } else {
        None
    }
}

/// The value of a run of digits is never below that of its prefixes.
proof fn lemma_decimal_value_prefix(s: Seq<char>, k: int)
    requires
        all_digits(s),
        0 <= k <= s.len(),
    ensures
        0 <= decimal_value(s.take(k)) <= decimal_value(s),
    decreases s.len(),
{
    if k == s.len() {
        assert(s.take(k) =~= s);
        if s.len() > 0 {
            lemma_decimal_value_prefix(s.drop_last(), k - 1);
            assert(s.drop_last().take(k - 1) =~= s.drop_last());
        }
    } else {
        lemma_decimal_value_prefix(s.drop_last(), k);
        assert(s.drop_last().take(k) =~= s.take(k));
        lemma_decimal_value_prefix(s.drop_last(), s.len() - 1);
        assert(s.drop_last().take(s.len() - 1) =~= s.drop_last());
    }
}

/// Reads `s` as a decimal `i32`, as `str::parse::<i32>` does.
pub fn parse_i32(s: &str) -> (r: Option<i32>)
    ensures
        r == parsed_i32(s@),
{
    let len = s.unicode_len();
    if len == 0 {
        return None;
    }
    let first = s.get_char(0);
    let negative = first == '-';
    let start: usize = if first == '+' || first == '-' { 1 } else { 0 };
    let ghost body = unsigned_part(s@);
    assert(body =~= s@.subrange(start as int, len as int));
    if start == len {
        return None;
    }
    let mut acc: i64 = 0;
    let mut i: usize = start;
    while i < len
        invariant
            start <= i <= len,
            len == s@.len(),
            start == 0 || start == 1,
            body == s@.subrange(start as int, len as int),
            body == unsigned_part(s@),
            all_digits(body.take(i - start)),
            acc == decimal_value(body.take(i - start)),
            0 <= acc <= 2147483648,
        decreases len - i,
    {
        let c = s.get_char(i);
        if !('0' <= c && c <= '9') {
            assert(!is_digit(body[i - start]));
            return None;
        }
        let d: i64 = (c as u32 - '0' as u32) as i64;
        proof {
            let t = body.take(i - start + 1);
            assert(t.drop_last() =~= body.take(i - start));
            assert(t.last() == c);
            assert(all_digits(t)) by {
                assert forall|j: int| 0 <= j < t.len() implies is_digit(#[trigger] t[j]) by {
                    if j < t.len() - 1 {
                        assert(t[j] == body.take(i - start)[j]);
                    }
                }
            }
        }
        acc = acc * 10 + d;
        if acc > 2147483648 {
            proof {
                if all_digits(body) {
                    lemma_decimal_value_prefix(body, i - start + 1);
                }
            }
            return None;
        }
        i += 1;
    }
    assert(body.take(len - start) =~= body);
    let value: i64 = if negative { -acc } else { acc };
    if value < -2147483648 || value > 2147483647 {
        None
    } else {
        Some(value as i32)
    }
}

/// Whether two texts hold the same characters.
pub fn same_text(a: &str, b: &str) -> (r: bool)
    ensures
        r == (a@ == b@),
{
    let n = a.unicode_len();
    if n != b.unicode_len() {
        return false;
    }
    let mut i: usize = 0;
    while i < n
        invariant
            n == a@.len(),
            n == b@.len(),
            i <= n,
            forall|j: int| 0 <= j < i ==> a@[j] == b@[j],
        decreases n - i,
    {
        if a.get_char(i) != b.get_char(i) {
            return false;
        }
        i += 1;
    }
    assert(a@ =~= b@);
    true
}

/// The character of a digit.
pub open spec fn digit_char(d: nat) -> char {
    if d == 0 {
        '0'
    } else if d == 1 {
        '1'
    } else if d == 2 {
        '2'
    } else if d == 3 {
        '3'
    } else if d == 4 {
        '4'
    } else if d == 5 {
        '5'
    } else if d == 6 {
        '6'
    } else if d == 7 {
        '7'
    } else if d == 8 {
        '8'
    } else {
        '9'
    }
}

/// The decimal digits of `n`, most significant first, without leading zeros.
pub open spec fn decimal_digits(n: nat) -> Seq<char>
    decreases n,
{
    if n < 10 {
        seq![digit_char(n)]
    } else {
        decimal_digits(n / 10).push(digit_char(n % 10))
    }
}

/// How an integer is written in decimal: a `-` before negative numbers.
pub open spec fn decimal_text(v: int) -> Seq<char> {
    if v < 0 {
        seq!['-'] + decimal_digits((-v) as nat)
    } else {
        decimal_digits(v as nat)
    }
}

/// Writing a number in decimal gives one or more digits, with no leading
/// zero but for zero itself, whose value is the number.
pub proof fn law_decimal_digits(m: nat)
    ensures
        decimal_digits(m).len() > 0,
        all_digits(decimal_digits(m)),
        decimal_value(decimal_digits(m)) == m,
        decimal_digits(m)[0] == '0' ==> m == 0,
    decreases m,
{
    lemma_decimal_digits(m);
    if m >= 10 {
        law_decimal_digits(m / 10);
        assert(decimal_digits(m)[0] == decimal_digits(m / 10)[0]);
    }
}

proof fn lemma_decimal_digits(m: nat)
    ensures
        decimal_digits(m).len() > 0,
        all_digits(decimal_digits(m)),
        decimal_value(decimal_digits(m)) == m,
    decreases m,
{
    let s = decimal_digits(m);
    if m < 10 {
        assert(s.drop_last() =~= Seq::<char>::empty());
        assert(decimal_value(s.drop_last()) == 0);
        assert(digit_value(digit_char(m)) == m);
        assert(decimal_value(s) == m);
    } else {
        lemma_decimal_digits(m / 10);
        let p = decimal_digits(m / 10);
        assert(s.drop_last() =~= p);
        assert(digit_value(digit_char(m % 10)) == m % 10);
        assert(s.last() == digit_char(m % 10));
        assert(decimal_value(s) == decimal_value(p) * 10 + digit_value(s.last()));
        vstd::arithmetic::div_mod::lemma_fundamental_div_mod(m as int, 10);
        assert(decimal_value(s) == m);
        assert(all_digits(s)) by {
            assert forall|i: int| 0 <= i < s.len() implies is_digit(#[trigger] s[i]) by {
                if i < p.len() {
                    assert(s[i] == p[i]);
                }
            }
        }
    }
}

/// Only a sign followed by digits reads as a number: every character of a
/// text that reads as an `i32` is a digit, but for a `+` or `-` in front, and
/// it holds at least one digit.
pub proof fn law_numbers_are_signed_digits(s: Seq<char>)
    ensures
        parsed_i32(s) is Some ==> (forall|i: int|
            0 <= i < s.len() ==> is_digit(#[trigger] s[i]) || (i == 0 && (s[0] == '+' || s[0] == '-')))
            && is_digit(s.last()),
{
    if parsed_i32(s) is Some {
        let body = unsigned_part(s);
        assert forall|i: int| 0 <= i < s.len() implies is_digit(#[trigger] s[i]) || (i == 0 && (s[0]
            == '+' || s[0] == '-')) by {
            if s[0] == '+' || s[0] == '-' {
                if i > 0 {
                    assert(s[i] == body[i - 1]);
                }
            } else {
                assert(s[i] == body[i]);
            }
        }
        assert(s.last() == body.last());
    }
}

/// Reading back what [`decimal_i64`] writes for an `i32` gives the number:
/// numbers written in decimal read as themselves.
pub proof fn law_decimal_reads_back(n: i32)
    ensures
        parsed_i32(decimal_text(n as int)) == Some(n),
{
    let t = decimal_text(n as int);
    if n < 0 {
        let m = (-(n as int)) as nat;
        lemma_decimal_digits(m);
        assert(t[0] == '-');
        assert(t.drop_first() =~= decimal_digits(m));
    } else {
        let m = n as nat;
        lemma_decimal_digits(m);
        assert(is_digit(t[0]));
        assert(unsigned_part(t) == t);
    }
}

fn digit_str(d: u64) -> (r: &'static str)
    requires
        d < 10,
    ensures
        r@ == seq![digit_char(d as nat)],
{
    proof {
        reveal_strlit("0");
        reveal_strlit("1");
        reveal_strlit("2");
        reveal_strlit("3");
        reveal_strlit("4");
        reveal_strlit("5");
        reveal_strlit("6");
        reveal_strlit("7");
        reveal_strlit("8");
        reveal_strlit("9");
    }
    let r = if d == 0 {
        "0"
    } else if d == 1 {
        "1"
    } else if d == 2 {
        "2"
    } else if d == 3 {
        "3"
    } else if d == 4 {
        "4"
    } else if d == 5 {
        "5"
    } else if d == 6 {
        "6"
    } else if d == 7 {
        "7"
    } else if d == 8 {
        "8"
    } else {
        "9"
    };
    assert(r@ =~= seq![digit_char(d as nat)]);
    r
}

/// Writes `n` in decimal.
fn unsigned_decimal(n: u64) -> (r: String)
    ensures
        r@ == decimal_digits(n as nat),
    decreases n,
{
    if n < 10 {
        String::from_str(digit_str(n))
    } else {
        let mut r = unsigned_decimal(n / 10);
        r.append(digit_str(n % 10));
        r
    }
}

/// Writes `v` in decimal, as `i64`'s `Display` does.
pub fn decimal_i64(v: i64) -> (r: String)
    ensures
        r@ == decimal_text(v as int),
{
    if v < 0 {
        let magnitude: u64 = (0 - (v as i128)) as u64;
        let mut r = String::from_str("-");
        proof {
            reveal_strlit("-");
        }
        r.append(unsigned_decimal(magnitude).as_str());
        r
    } else {
        unsigned_decimal(v as u64)
    }
}

/// A character with the Unicode property White_Space, which is what
/// `char::is_whitespace` and `str::trim` test for.
pub open spec fn is_white_space(c: char) -> bool {
    ||| ('\u{9}' <= c && c <= '\u{d}')
    ||| c == ' '
    ||| c == '\u{85}'
    ||| c == '\u{a0}'
    ||| c == '\u{1680}'
    ||| ('\u{2000}' <= c && c <= '\u{200a}')
    ||| c == '\u{2028}'
    ||| c == '\u{2029}'
    ||| c == '\u{202f}'
    ||| c == '\u{205f}'
    ||| c == '\u{3000}'
}

/// How many characters at the start of `s` are whitespace.
pub open spec fn leading_white_space(s: Seq<char>) -> nat
    decreases s.len(),
{
    if s.len() > 0 && is_white_space(s[0]) {
        1 + leading_white_space(s.drop_first())
    } else {
        0
    }
}

/// How many characters at the end of `s` are whitespace.
pub open spec fn trailing_white_space(s: Seq<char>) -> nat
    decreases s.len(),
{
    if s.len() > 0 && is_white_space(s.last()) {
        1 + trailing_white_space(s.drop_last())
    } else {
        0
    }
}

/// The text of `s` without the whitespace at its two ends, as `str::trim`
/// leaves it.
pub open spec fn trimmed(s: Seq<char>) -> Seq<char> {
    let rest = s.skip(leading_white_space(s) as int);
    rest.take(rest.len() - trailing_white_space(rest))
}

/// Trimming only drops whitespace from the two ends: the text is the dropped
/// whitespace, the trimmed text, then more dropped whitespace, and the
/// trimmed text neither starts nor ends with whitespace.
pub proof fn law_trim_drops_only_end_white_space(s: Seq<char>)
    ensures
        ({
            let t = trimmed(s);
            exists|a: int|
                0 <= a && a + t.len() <= s.len() && #[trigger] s.subrange(a, a + t.len()) == t
                    && (forall|i: int| 0 <= i < a ==> is_white_space(#[trigger] s[i])) && (forall|
                    i: int,
                | a + t.len() <= i < s.len() ==> is_white_space(#[trigger] s[i]))
        }),
        trimmed(s).len() > 0 ==> !is_white_space(trimmed(s)[0]) && !is_white_space(
            trimmed(s).last(),
        ),
{
    lemma_leading(s);
    let a = leading_white_space(s) as int;
    let rest = s.skip(a);
    lemma_trailing(rest);
    let t = trimmed(s);
    assert(s.subrange(a, a + t.len()) =~= t);
    assert forall|i: int| a + t.len() <= i < s.len() implies is_white_space(#[trigger] s[i]) by {
        assert(s[i] == rest[i - a]);
    }
    if t.len() > 0 {
        assert(t[0] == rest[0]);
        assert(t.last() == rest[t.len() - 1]);
    }
}

/// The leading whitespace is whitespace, and what follows it is not.
proof fn lemma_leading(s: Seq<char>)
    ensures
        leading_white_space(s) <= s.len(),
        forall|i: int| 0 <= i < leading_white_space(s) ==> is_white_space(#[trigger] s[i]),
        leading_white_space(s) < s.len() ==> !is_white_space(s[leading_white_space(s) as int]),
    decreases s.len(),
{
    if s.len() > 0 && is_white_space(s[0]) {
        let t = s.drop_first();
        lemma_leading(t);
        assert forall|i: int| 0 <= i < leading_white_space(s) implies is_white_space(#[trigger] s[i]) by {
            if i > 0 {
                assert(s[i] == t[i - 1]);
            }
        }
        if leading_white_space(s) < s.len() {
            assert(s[leading_white_space(s) as int] == t[leading_white_space(t) as int]);
        }
    }
}

/// The trailing whitespace is whitespace, and what precedes it is not.
proof fn lemma_trailing(s: Seq<char>)
    ensures
        trailing_white_space(s) <= s.len(),
        forall|i: int|
            s.len() - trailing_white_space(s) <= i < s.len() ==> is_white_space(#[trigger] s[i]),
        trailing_white_space(s) < s.len() ==> !is_white_space(
            s[s.len() - trailing_white_space(s) - 1],
        ),
    decreases s.len(),
{
    if s.len() > 0 && is_white_space(s.last()) {
        let t = s.drop_last();
        lemma_trailing(t);
        assert forall|i: int|
            s.len() - trailing_white_space(s) <= i < s.len() implies is_white_space(
            #[trigger] s[i],
        ) by {
            if i < s.len() - 1 {
                assert(s[i] == t[i]);
            }
        }
        if trailing_white_space(s) < s.len() {
            assert(s[s.len() - trailing_white_space(s) - 1] == t[t.len() - trailing_white_space(t) - 1]);
        }
    }
}

/// Whether `c` is whitespace, as `char::is_whitespace` says.
pub fn is_whitespace(c: char) -> (r: bool)
    ensures
        r == is_white_space(c),
{
    ('\u{9}' <= c && c <= '\u{d}') || c == ' ' || c == '\u{85}' || c == '\u{a0}' || c
        == '\u{1680}' || ('\u{2000}' <= c && c <= '\u{200a}') || c == '\u{2028}' || c
        == '\u{2029}' || c == '\u{202f}' || c == '\u{205f}' || c == '\u{3000}'
}

/// `s` without the whitespace at its two ends, as `str::trim` gives it.
pub fn trim(s: &str) -> (r: &str)
    ensures
        r@ == trimmed(s@),
{
    let n = s.unicode_len();
    let mut i: usize = 0;
    assert(s@.skip(0) =~= s@);
    while i < n && is_whitespace(s.get_char(i))
        invariant
            i <= n,
            n == s@.len(),
            leading_white_space(s@) == i + leading_white_space(s@.skip(i as int)),
        decreases n - i,
    {
        proof {
            let t = s@.skip(i as int);
            assert(t[0] == s@[i as int]);
            assert(t.drop_first() =~= s@.skip(i + 1));
        }
        i += 1;
    }
    proof {
        let t = s@.skip(i as int);
        if i < n {
            assert(t[0] == s@[i as int]);
        }
        assert(leading_white_space(t) == 0);
    }
    let ghost rest = s@.skip(i as int);
    let mut j: usize = n;
    assert(rest.take(rest.len() as int) =~= rest);
    while j > i && is_whitespace(s.get_char(j - 1))
        invariant
            i <= j <= n,
            n == s@.len(),
            rest == s@.skip(i as int),
            trailing_white_space(rest) == (n - j) + trailing_white_space(rest.take(j - i)),
        decreases j,
    {
        proof {
            let t = rest.take(j - i);
            assert(t.last() == s@[j - 1]);
            assert(t.drop_last() =~= rest.take(j - 1 - i));
        }
        j -= 1;
    }
    proof {
        let t = rest.take(j - i);
        if j > i {
            assert(t.last() == s@[j - 1]);
        }
        assert(trailing_white_space(t) == 0);
        assert(rest.take(rest.len() - trailing_white_space(rest)) =~= s@.subrange(i as int, j as int));
    }
    s.substring_char(i, j)
}

/// The text nodes of an element put end to end, as collecting them into one
/// string does.
pub fn join_texts(nodes: &Vec<String>) -> (r: String)
    ensures
        r@ == nodes.deep_view().flatten(),
{
    let mut r = String::new();
    let mut i: usize = 0;
    while i < nodes.len()
        invariant
            i <= nodes.len(),
            r@ == nodes.deep_view().take(i as int).flatten(),
        decreases nodes.len() - i,
    {
        proof {
            let v = nodes.deep_view();
            assert(v.take(i + 1) =~= v.take(i as int).push(v[i as int]));
            v.take(i as int).lemma_flatten_push(v[i as int]);
        }
        r.append(nodes[i].as_str());
        i += 1;
    }
    assert(nodes.deep_view().take(nodes.len() as int) =~= nodes.deep_view());
    r
}

} // verus!
