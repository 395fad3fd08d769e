//! Text helpers over `Seq<char>` models: comparison, decimal rendering and
//! decimal parsing.
use vstd::prelude::*;
use vstd::string::*;

verus! {

pub open spec fn is_digit(c: char) -> bool {
    '0' <= c && c <= '9'
}

pub open spec fn digit_value(c: char) -> int {
    c as int - '0' as int
}

/// The value of a run of decimal digits, most significant first.
pub open spec fn digits_value(s: Seq<char>) -> int
    decreases s.len(),
{
    if s.len() == 0 {
        0
    } else {
        digits_value(s.drop_last()) * 10 + digit_value(s.last())
    }
}

pub open spec fn all_digits(s: Seq<char>) -> bool {
    forall|i: int| 0 <= i < s.len() ==> is_digit(#[trigger] s[i])
}

/// A decimal integer: an optional `+` or `-` followed by at least one digit.
pub open spec fn decimal_value(s: Seq<char>) -> Option<int> {
    if s.len() > 0 && (s[0] == '+' || s[0] == '-') {
        let rest = s.subrange(1, s.len() as int);
        if rest.len() > 0 && all_digits(rest) {
            if s[0] == '-' {
                Some(-digits_value(rest))
            } else {
                Some(digits_value(rest))
            }
        } else {
            None
        }
    } else if s.len() > 0 && all_digits(s) {
        Some(digits_value(s))
    } else {
        None
    }
}

/// The 32-bit integer that decimal text denotes, if it denotes one in range.
pub open spec fn parsed_i32(s: Seq<char>) -> Option<i32> {
    match decimal_value(s) {
        Some(v) => if i32::MIN <= v <= i32::MAX {
            Some(v as i32)
        } else {
            None
        },
        None => None,
    }
}

/// Relies on `str::parse::<i32>`: an optional sign and decimal digits, with no
/// surrounding whitespace, whose value is in range.
#[verifier::external_body]
pub(crate) fn parse_i32(s: &str) -> (r: Option<i32>)
    ensures
        r == parsed_i32(s@),
{
    s.parse::<i32>().ok()
}

/// The decimal rendering of a natural number, without leading zeros.
pub open spec fn decimal_text(n: nat) -> Seq<char>
    decreases n,
{
    if n < 10 {
        seq![('0' as u8 + n as u8) as char]
    } else {
        decimal_text(n / 10) + seq![('0' as u8 + (n % 10) as u8) as char]
    }
}

/// The `"<line>:<column>"` form of a source position.
pub open spec fn position_of(line: nat, column: nat) -> Seq<char> {
    decimal_text(line) + seq![':'] + decimal_text(column)
}

/// The decimal rendering of `n`.
pub fn decimal_string(n: usize) -> (r: String)
    ensures
        r@ == decimal_text(n as nat),
    decreases n,
{
    if n < 10 {
        let mut s = String::new();
        push_char(&mut s, ('0' as u8 + n as u8) as char);
        assert(s@ =~= decimal_text(n as nat));
        s
    } else {
        let mut s = decimal_string(n / 10);
        push_char(&mut s, ('0' as u8 + (n % 10) as u8) as char);
        assert(s@ =~= decimal_text(n as nat));
        s
    }
}

/// The `"<line>:<column>"` form of a source position.
pub fn position_text(line: usize, column: usize) -> (r: String)
    ensures
        r@ == position_of(line as nat, column as nat),
{
    let l = decimal_string(line);
    let c = decimal_string(column);
    let with_colon = joined(l.as_str(), ":");
    let r = joined(with_colon.as_str(), c.as_str());
    proof {
        reveal_strlit(":");
        assert(r@ =~= position_of(line as nat, column as nat));
    }
    r
}

/// Relies on `String::push`: appends one character.
#[verifier::external_body]
pub(crate) fn push_char(s: &mut String, c: char)
    ensures
        final(s)@ == old(s)@.push(c),
{
    s.push(c)
}

/// `a` followed by `b`, as a new string.
pub fn joined(a: &str, b: &str) -> (r: String)
    ensures
        r@ == a@ + b@,
{
    String::from_str(a).concat(b)
}

pub fn same_text(a: &str, b: &str) -> (r: bool)
    ensures
        r == (a@ == b@),
{
    let n = a.unicode_len();
    if n != b.unicode_len() {
        return false;
    }
    let mut i: usize = 0;
    while i < n
        invariant
            n == a@.len(),
            n == b@.len(),
            i <= n,
            forall|k: int| 0 <= k < i ==> a@[k] == b@[k],
        decreases n - i,
    {
        if a.get_char(i) != b.get_char(i) {
            return false;
        }
        i += 1;
    }
    assert(a@ =~= b@);
    true
}

/// The outcome of comparing two values.
#[derive(Clone, Copy, PartialEq, Eq, Structural, Debug)]
pub enum Order {
    Less,
    Equal,
    Greater,
    Unordered,
}

/// Lexicographic order of texts by character code, which is the order of
/// their UTF-8 encodings.
pub open spec fn text_order(a: Seq<char>, b: Seq<char>) -> Order
    decreases a.len(),
{
    if a.len() == 0 {
        if b.len() == 0 {
            Order::Equal
        } else {
            Order::Less
        }
    } else if b.len() == 0 {
        Order::Greater
    } else if (a[0] as u32) < (b[0] as u32) {
        Order::Less
    } else if (a[0] as u32) > (b[0] as u32) {
        Order::Greater
    } else {
        text_order(a.drop_first(), b.drop_first())
    }
}

proof fn lemma_text_order_skip(a: Seq<char>, b: Seq<char>, i: int)
    requires
        0 <= i <= a.len(),
        i <= b.len(),
        forall|k: int| 0 <= k < i ==> a[k] == b[k],
    ensures
        text_order(a, b) == text_order(a.subrange(i, a.len() as int), b.subrange(i, b.len() as int)),
    decreases i,
{
    if i > 0 {
        assert(a[0] == b[0]);
        let a1 = a.drop_first();
        let b1 = b.drop_first();
        lemma_text_order_skip(a1, b1, i - 1);
        assert(a1.subrange(i - 1, a1.len() as int) =~= a.subrange(i, a.len() as int));
        assert(b1.subrange(i - 1, b1.len() as int) =~= b.subrange(i, b.len() as int));
    } else {
        assert(a.subrange(0, a.len() as int) =~= a);
        assert(b.subrange(0, b.len() as int) =~= b);
    }
}

pub fn compare_text(a: &str, b: &str) -> (r: Order)
    ensures
        r == text_order(a@, b@),
{
    let n = a.unicode_len();
    let m = b.unicode_len();
    let mut i: usize = 0;
    while i < n && i < m
        invariant
            n == a@.len(),
            m == b@.len(),
            i <= n,
            i <= m,
            forall|k: int| 0 <= k < i ==> a@[k] == b@[k],
        decreases n - i,
    {
        let x = a.get_char(i);
        let y = b.get_char(i);
        if (x as u32) < (y as u32) {
            proof {
                lemma_text_order_skip(a@, b@, i as int);
            }
            return Order::Less;
        }
        if (x as u32) > (y as u32) {
            proof {
                lemma_text_order_skip(a@, b@, i as int);
            }
            return Order::Greater;
        }
        i += 1;
    }
    proof {
        lemma_text_order_skip(a@, b@, i as int);
    }
    if i < n {
        Order::Greater
    } else if i < m {
        Order::Less
    } else {
        Order::Equal
    }
}

/// The characters with the Unicode `White_Space` property.
pub open spec fn is_white(c: char) -> bool {
    ('\t' <= c && c <= '\r') || c == ' ' || c == '\u{85}' || c == '\u{a0}' || c == '\u{1680}'
        || ('\u{2000}' <= c && c <= '\u{200a}') || c == '\u{2028}' || c == '\u{2029}'
        || c == '\u{202f}' || c == '\u{205f}' || c == '\u{3000}'
}

pub open spec fn trim_start(s: Seq<char>) -> Seq<char>
    decreases s.len(),
{
    if s.len() > 0 && is_white(s[0]) {
        trim_start(s.drop_first())
    } else {
        s
    }
}

pub open spec fn trim_end(s: Seq<char>) -> Seq<char>
    decreases s.len(),
{
    if s.len() > 0 && is_white(s.last()) {
        trim_end(s.drop_last())
    } else {
        s
    }
}

/// The text without leading and trailing whitespace.
pub open spec fn trimmed(s: Seq<char>) -> Seq<char> {
    trim_end(trim_start(s))
}

/// Relies on `str::trim`: removes leading and trailing characters for which
/// `char::is_whitespace` holds (the `White_Space` property).
#[verifier::external_body]
pub(crate) fn trim_text(s: &str) -> (r: String)
    ensures
        r@ == trimmed(s@),
{
    s.trim().to_string()
}

/// The length of a leading `+` or `-`.
pub open spec fn sign_len(s: Seq<char>) -> int {
    if s.len() > 0 && (s[0] == '+' || s[0] == '-') {
        1
    } else {
        0
    }
}

/// Decimal float text: an optional sign, then digits around exactly one `.`,
/// with at least one digit before it.
pub open spec fn float_shape(s: Seq<char>) -> bool {
    exists|k: int|
        sign_len(s) < k < s.len() && s[k] == '.' && forall|i: int|
            sign_len(s) <= i < s.len() && i != k ==> #[trigger] is_digit(s[i])
}

pub fn is_float_text(s: &str) -> (r: bool)
    ensures
        r == float_shape(s@),
{
    let n = s.unicode_len();
    let b: usize = if n > 0 && (s.get_char(0) == '+' || s.get_char(0) == '-') {
        1
    } else {
        0
    };
    assert(b == sign_len(s@));
    let mut dot: Option<usize> = None;
    let mut i: usize = b;
    while i < n
        invariant
            n == s@.len(),
            b == sign_len(s@),
            b <= i <= n,
            match dot {
                Some(k) => b <= k < i && s@[k as int] == '.',
                None => true,
            },
            forall|j: int| b <= j < i && (dot is None || j != dot->0) ==> #[trigger] is_digit(s@[j]),
        decreases n - i,
    {
        let c = s.get_char(i);
        if c == '.' {
            if let Some(k) = dot {
                assert forall|k2: int| sign_len(s@) < k2 < s@.len() && s@[k2] == '.' implies !(forall|j: int|
                    sign_len(s@) <= j < s@.len() && j != k2 ==> #[trigger] is_digit(s@[j])) by {
                    if k2 != k as int {
                        assert(!is_digit(s@[k as int]));
                    } else {
                        assert(!is_digit(s@[i as int]));
                    }
                }
                return false;
            }
            dot = Some(i);
        } else if !('0' <= c && c <= '9') {
            assert forall|k2: int| sign_len(s@) < k2 < s@.len() && s@[k2] == '.' implies !(forall|j: int|
                sign_len(s@) <= j < s@.len() && j != k2 ==> #[trigger] is_digit(s@[j])) by {
                assert(!is_digit(s@[i as int]));
            }
            return false;
        }
        i += 1;
    }
    match dot {
        Some(k) => {
            if k > b {
                assert(forall|j: int| sign_len(s@) <= j < s@.len() && j != k as int ==> #[trigger] is_digit(s@[j]));
                true
            } else {
                assert forall|k2: int| sign_len(s@) < k2 < s@.len() && s@[k2] == '.' implies !(forall|j: int|
                    sign_len(s@) <= j < s@.len() && j != k2 ==> #[trigger] is_digit(s@[j])) by {
                    if k2 != k as int {
                        assert(!is_digit(s@[k as int]));
                    }
                }
                false
            }
        },
        None => {
            assert forall|k2: int| sign_len(s@) < k2 < s@.len() && s@[k2] == '.' implies !(forall|j: int|
                sign_len(s@) <= j < s@.len() && j != k2 ==> #[trigger] is_digit(s@[j])) by {
                assert(is_digit(s@[k2]));
            }
            false
        },
    }
}

/// A line of input without its line ending: a final `\n`, and a `\r` just
/// before it.
pub open spec fn without_line_end(s: Seq<char>) -> Seq<char> {
    if s.len() > 0 && s.last() == '\n' {
        let t = s.drop_last();
        if t.len() > 0 && t.last() == '\r' {
            t.drop_last()
        } else {
            t
        }
    } else {
        s
    }
}

pub fn strip_line_end(s: &str) -> (r: String)
    ensures
        r@ == without_line_end(s@),
{
    let n = s.unicode_len();
    let mut k = n;
    if k > 0 && s.get_char(k - 1) == '\n' {
        k = k - 1;
        if k > 0 && s.get_char(k - 1) == '\r' {
            k = k - 1;
        }
    }
    let r = String::from_str(s.substring_char(0, k));
    assert(r@ =~= without_line_end(s@));
    r
}

} // verus!
