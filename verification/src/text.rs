//! Character-level text helpers: splitting, trimming and number parsing.
use vstd::prelude::*;

verus! {

/// The characters of a string slice.
pub fn chars_of(s: &str) -> (r: Vec<char>)
    ensures
        r@ == s@,
{
    let mut r: Vec<char> = Vec::new();
    for c in it: s.chars()
        invariant
            r@ == it.seq().take(it.index() as int),
            it.seq() == s@,
    {
        r.push(c);
    }
    r
}

/// `String: FromIterator<char>`: the string made of `chars`, in order.
#[verifier::external_body]
pub fn string_from_chars(chars: &[char]) -> (r: String)
    ensures
        r@ == chars@,
{
    chars.iter().collect()
}

/// Unicode `White_Space` property, as `char::is_whitespace` has it.
pub open spec fn is_whitespace_spec(c: char) -> bool {
    let u = c as u32;
    ||| 9 <= u <= 13
    ||| u == 32
    ||| u == 0x85
    ||| u == 0xA0
    ||| u == 0x1680
    ||| 0x2000 <= u <= 0x200A
    ||| u == 0x2028
    ||| u == 0x2029
    ||| u == 0x202F
    ||| u == 0x205F
    ||| u == 0x3000
}

pub fn is_whitespace(c: char) -> (r: bool)
    ensures
        r == is_whitespace_spec(c),
{
    let u = c as u32;
    (9 <= u && u <= 13) || u == 32 || u == 0x85 || u == 0xA0 || u == 0x1680 || (0x2000 <= u && u
        <= 0x200A) || u == 0x2028 || u == 0x2029 || u == 0x202F || u == 0x205F || u == 0x3000
}

/// `char::is_ascii_whitespace`: space, tab, line feed, form feed, carriage return.
pub open spec fn is_ascii_whitespace_spec(c: char) -> bool {
    let u = c as u32;
    u == 32 || u == 9 || u == 10 || u == 12 || u == 13
}

/// `char::is_ascii_punctuation`.
pub open spec fn is_ascii_punctuation_spec(c: char) -> bool {
    let u = c as u32;
    (33 <= u <= 47) || (58 <= u <= 64) || (91 <= u <= 96) || (123 <= u <= 126)
}

/// `char::is_ascii_digit`.
pub open spec fn is_digit_spec(c: char) -> bool {
    '0' <= c <= '9'
}

/// Number of leading whitespace characters.
pub open spec fn leading_ws(s: Seq<char>) -> nat
    decreases s.len(),
{
    if s.len() > 0 && is_whitespace_spec(s[0]) {
        1 + leading_ws(s.drop_first())
    } else {
        0
    }
}

/// Number of trailing whitespace characters.
pub open spec fn trailing_ws(s: Seq<char>) -> nat
    decreases s.len(),
{
    if s.len() > 0 && is_whitespace_spec(s.last()) {
        1 + trailing_ws(s.drop_last())
    } else {
        0
    }
}

/// `str::trim`: `s` without leading and trailing whitespace.
pub open spec fn trim_spec(s: Seq<char>) -> Seq<char> {
    if leading_ws(s) == s.len() {
        Seq::empty()
    } else {
        s.subrange(leading_ws(s) as int, s.len() - trailing_ws(s))
    }
}

/// The leading whitespace of a text is whitespace, and what follows it is not.
pub proof fn lemma_leading_ws_bound(s: Seq<char>)
    ensures
        leading_ws(s) <= s.len(),
        forall|i: int| 0 <= i < leading_ws(s) ==> is_whitespace_spec(#[trigger] s[i]),
        leading_ws(s) < s.len() ==> !is_whitespace_spec(s[leading_ws(s) as int]),
    decreases s.len(),
{
    if s.len() > 0 && is_whitespace_spec(s[0]) {
        lemma_leading_ws_bound(s.drop_first());
        assert forall|i: int| 0 <= i < leading_ws(s) implies is_whitespace_spec(#[trigger] s[i]) by {
            if i > 0 {
                assert(s[i] == s.drop_first()[i - 1]);
            }
        }
    }
}

/// The trailing whitespace of a text is whitespace, and what comes before it is not.
pub proof fn lemma_trailing_ws_bound(s: Seq<char>)
    ensures
        trailing_ws(s) <= s.len(),
        forall|i: int| s.len() - trailing_ws(s) <= i < s.len() ==> is_whitespace_spec(#[trigger] s[i]),
        trailing_ws(s) < s.len() ==> !is_whitespace_spec(s[s.len() - trailing_ws(s) - 1]),
    decreases s.len(),
{
    if s.len() > 0 && is_whitespace_spec(s.last()) {
        lemma_trailing_ws_bound(s.drop_last());
        assert forall|i: int| s.len() - trailing_ws(s) <= i < s.len() implies is_whitespace_spec(#[trigger] s[i]) by {
            if i < s.len() - 1 {
                assert(s[i] == s.drop_last()[i]);
            }
        }
    }
}

/// A run of `k` whitespace characters at the start, followed by another character or the end,
/// is the leading whitespace.
pub proof fn lemma_leading_ws_exact(s: Seq<char>, k: int)
    requires
        0 <= k <= s.len(),
        forall|i: int| 0 <= i < k ==> is_whitespace_spec(#[trigger] s[i]),
        k == s.len() || !is_whitespace_spec(s[k]),
    ensures
        leading_ws(s) == k,
    decreases k,
{
    if k > 0 {
        assert(is_whitespace_spec(s[0]));
        assert forall|i: int| 0 <= i < k - 1 implies is_whitespace_spec(#[trigger] s.drop_first()[i]) by {
            assert(s.drop_first()[i] == s[i + 1]);
        }
        if k < s.len() {
            assert(s.drop_first()[k - 1] == s[k]);
        }
        lemma_leading_ws_exact(s.drop_first(), k - 1);
    }
}

/// A run of `k` whitespace characters at the end, after another character or the start, is
/// the trailing whitespace.
pub proof fn lemma_trailing_ws_exact(s: Seq<char>, k: int)
    requires
        0 <= k <= s.len(),
        forall|i: int| s.len() - k <= i < s.len() ==> is_whitespace_spec(#[trigger] s[i]),
        k == s.len() || !is_whitespace_spec(s[s.len() - k - 1]),
    ensures
        trailing_ws(s) == k,
    decreases k,
{
    if k > 0 {
        assert(is_whitespace_spec(s[s.len() - 1]));
        assert forall|i: int| s.drop_last().len() - (k - 1) <= i < s.drop_last().len() implies is_whitespace_spec(#[trigger] s.drop_last()[i]) by {
            assert(s.drop_last()[i] == s[i]);
        }
        if k < s.len() {
            assert(s.drop_last()[s.drop_last().len() - (k - 1) - 1] == s[s.len() - k - 1]);
        }
        lemma_trailing_ws_exact(s.drop_last(), k - 1);
    }
}

/// Bounds `(start, end)` of `s` without surrounding whitespace.
pub fn trim_bounds(s: &[char]) -> (r: (usize, usize))
    ensures
        r.0 <= r.1 <= s@.len(),
        s@.subrange(r.0 as int, r.1 as int) == trim_spec(s@),
        r.0 == leading_ws(s@) || r.0 == r.1,
{
    let mut start: usize = 0;
    while start < s.len() && is_whitespace(s[start])
        invariant
            start <= s@.len(),
            forall|i: int| 0 <= i < start ==> is_whitespace_spec(#[trigger] s@[i]),
        decreases s@.len() - start,
    {
        start = start + 1;
    }
    proof {
        lemma_leading_ws_exact(s@, start as int);
    }
    if start == s.len() {
        return (start, start);
    }
    let mut end: usize = s.len();
    while end > start && is_whitespace(s[end - 1])
        invariant
            start < s@.len(),
            !is_whitespace_spec(s@[start as int]),
            start <= end <= s@.len(),
            forall|i: int| end <= i < s@.len() ==> is_whitespace_spec(#[trigger] s@[i]),
        decreases end,
    {
        end = end - 1;
    }
    proof {
        lemma_trailing_ws_exact(s@, s@.len() - end);
    }
    (start, end)
}

/// `str::trim` on a character slice.
pub fn trim(s: &[char]) -> (r: Vec<char>)
    ensures
        r@ == trim_spec(s@),
{
    let (start, end) = trim_bounds(s);
    slice_to_vec(s, start, end)
}

/// A copy of `s[start..end]`.
pub fn slice_to_vec<T: Copy>(s: &[T], start: usize, end: usize) -> (r: Vec<T>)
    requires
        start <= end <= s@.len(),
    ensures
        r@ == s@.subrange(start as int, end as int),
{
    let mut r: Vec<T> = Vec::new();
    let mut i = start;
    while i < end
        invariant
            start <= i <= end <= s@.len(),
            r@ == s@.subrange(start as int, i as int),
        decreases end - i,
    {
        r.push(s[i]);
        i = i + 1;
        assert(r@ =~= s@.subrange(start as int, i as int));
    }
    r
}

/// Pieces of `s` between occurrences of `sep`, as `str::split` gives them:
/// `n` separators give `n + 1` pieces.
pub open spec fn split_on(s: Seq<char>, sep: char) -> Seq<Seq<char>>
    decreases s.len(),
{
    if s.len() == 0 {
        seq![Seq::empty()]
    } else {
        let prev = split_on(s.drop_last(), sep);
        if s.last() == sep {
            prev.push(Seq::empty())
        } else {
            prev.update(prev.len() - 1, prev.last().push(s.last()))
        }
    }
}

pub proof fn lemma_split_on_len(s: Seq<char>, sep: char)
    ensures
        split_on(s, sep).len() >= 1,
    decreases s.len(),
{
    if s.len() > 0 {
        lemma_split_on_len(s.drop_last(), sep);
    }
}

/// `str::split` by a character.
pub fn split_by(s: &[char], sep: char) -> (r: Vec<Vec<char>>)
    ensures
        r.deep_view() == split_on(s@, sep),
{
    let mut r: Vec<Vec<char>> = Vec::new();
    let mut cur: Vec<char> = Vec::new();
    let mut i: usize = 0;
    while i < s.len()
        invariant
            0 <= i <= s@.len(),
            r.deep_view().push(cur@) == split_on(s@.take(i as int), sep),
        decreases s@.len() - i,
    {
        let c = s[i];
        let ghost prev = split_on(s@.take(i as int), sep);
        let ghost old_r = r.deep_view();
        proof {
            lemma_split_on_len(s@.take(i as int), sep);
            assert(s@.take(i as int + 1).drop_last() =~= s@.take(i as int));
            assert(s@.take(i as int + 1).last() == c);
        }
        if c == sep {
            let ghost old_rv = r@;
            assert(cur.deep_view() =~= cur@);
            r.push(cur);
            cur = Vec::new();
            assert(r@ == old_rv.push(r@.last()));
            assert(r.deep_view() =~= old_r.push(prev.last()));
            assert(prev =~= old_r.push(prev.last()));
            assert(r.deep_view().push(cur@) =~= prev.push(Seq::empty()));
        } else {
            cur.push(c);
            assert(r.deep_view() =~= old_r);
            assert(r.deep_view().push(cur@) =~= prev.update(prev.len() - 1, prev.last().push(c)));
        }
        i = i + 1;
    }
    let ghost old_r = r.deep_view();
    let ghost old_rv = r@;
    let ghost cur_v = cur@;
    assert(cur.deep_view() =~= cur@);
    r.push(cur);
    assert(r@ == old_rv.push(r@.last()));
    assert(r.deep_view() =~= old_r.push(cur_v));
    assert(s@.take(s@.len() as int) =~= s@);
    r
}

/// Value of a sequence of decimal digits.
pub open spec fn digits_value(s: Seq<char>) -> int
    decreases s.len(),
{
    if s.len() == 0 {
        0
    } else {
        digits_value(s.drop_last()) * 10 + (s.last() as u32 - '0' as u32)
    }
}

/// Non-empty and made of ASCII digits only.
pub open spec fn all_digits(s: Seq<char>) -> bool {
    s.len() > 0 && forall|i: int| 0 <= i < s.len() ==> is_digit_spec(#[trigger] s[i])
}

/// What `i32::from_str` accepts and returns: an optional `+` or `-` sign followed by
/// at least one ASCII digit, with a value in range.
pub open spec fn parse_i32_spec(s: Seq<char>) -> Option<i32> {
    if s.len() > 0 && s[0] == '-' && all_digits(s.drop_first()) {
        let v = -digits_value(s.drop_first());
        if i32::MIN <= v {
            Some(v as i32)
        } else {
            None
        }
    } else if s.len() > 0 && s[0] == '+' && all_digits(s.drop_first()) {
        let v = digits_value(s.drop_first());
        if v <= i32::MAX {
            Some(v as i32)
        } else {
            None
        }
    } else if all_digits(s) {
        let v = digits_value(s);
        if v <= i32::MAX {
            Some(v as i32)
        } else {
            None
        }
    } else {
        None
    }
}

/// What `u64::from_str` accepts and returns: an optional `+` sign followed by at least one
/// ASCII digit, with a value in range.
pub open spec fn parse_u64_spec(s: Seq<char>) -> Option<u64> {
    let d = if s.len() > 0 && s[0] == '+' {
        s.drop_first()
    } else {
        s
    };
    if all_digits(d) && digits_value(d) <= u64::MAX {
        Some(digits_value(d) as u64)
    } else {
        None
    }
}

proof fn lemma_digits_value_nonneg(s: Seq<char>)
    requires
        forall|i: int| 0 <= i < s.len() ==> is_digit_spec(#[trigger] s[i]),
    ensures
        digits_value(s) >= 0,
    decreases s.len(),
{
    if s.len() > 0 {
        lemma_digits_value_nonneg(s.drop_last());
        assert(is_digit_spec(s[s.len() - 1]));
    }
}

proof fn lemma_digits_value_monotone(s: Seq<char>, k: int)
    requires
        0 <= k <= s.len(),
        forall|i: int| 0 <= i < s.len() ==> is_digit_spec(#[trigger] s[i]),
    ensures
        digits_value(s.take(k)) <= digits_value(s),
    decreases s.len() - k,
{
    if k < s.len() {
        assert(s.drop_last().take(k) =~= s.take(k));
        lemma_digits_value_monotone(s.drop_last(), k);
        lemma_digits_value_nonneg(s.drop_last());
        assert(is_digit_spec(s[s.len() - 1]));
    } else {
        assert(s.take(k) =~= s);
    }
}

/// Value of the ASCII digits `s[start..]`, or `None` if not all digits, empty, or larger
/// than `limit`.
fn digits_up_to(s: &[char], start: usize, limit: u64) -> (r: Option<u64>)
    requires
        start <= s@.len(),
        limit >= 9,
    ensures
        r matches Some(v) ==> all_digits(s@.skip(start as int)) && v == digits_value(
            s@.skip(start as int),
        ) && v <= limit,
        r is None ==> !all_digits(s@.skip(start as int)) || digits_value(s@.skip(start as int))
            > limit,
{
    let ghost d = s@.skip(start as int);
    if start == s.len() {
        return None;
    }
    let mut i = start;
    let mut v: u64 = 0;
    while i < s.len()
        invariant
            start <= i <= s@.len(),
            d == s@.skip(start as int),
            forall|j: int| 0 <= j < i - start ==> is_digit_spec(#[trigger] d[j]),
            v == digits_value(d.take(i - start)),
            v <= limit,
            limit >= 9,
        decreases s@.len() - i,
    {
        let c = s[i];
        if !('0' <= c && c <= '9') {
            assert(!is_digit_spec(d[i - start]));
            return None;
        }
        let digit = (c as u32 - '0' as u32) as u64;
        assert(d.take(i - start + 1).drop_last() =~= d.take(i - start));
        if v > (limit - digit) / 10 {
            proof {
                let p = d.take(i - start + 1);
                assert(p.last() == c);
                assert(digits_value(p) == v * 10 + digit);
                assert(v * 10 + digit > limit) by (nonlinear_arith)
                    requires
                        v > (limit - digit) / 10,
                        digit <= 9,
                        limit >= 9,
                ;
                if all_digits(d) {
                    lemma_digits_value_monotone(d, i - start + 1);
                }
            }
            return None;
        }
        assert(v * 10 + digit <= limit) by (nonlinear_arith)
            requires
                v <= (limit - digit) / 10,
                digit <= 9,
        ;
        v = v * 10 + digit;
        i = i + 1;
    }
    assert(d.take(i - start) =~= d);
    Some(v)
}

/// `i32::from_str` on a character slice.
pub fn parse_i32(s: &[char]) -> (r: Option<i32>)
    ensures
        r == parse_i32_spec(s@),
{
    proof {
        if s@.len() > 0 {
            assert(s@.skip(1) =~= s@.drop_first());
        }
        assert(s@.skip(0) =~= s@);
    }
    if s.len() > 0 && s[0] == '-' {
        match digits_up_to(s, 1, 2147483648) {
            Some(v) => Some((0 - (v as i64)) as i32),
            None => {
                assert(!all_digits(s@)) by {
                    assert(!is_digit_spec(s@[0]));
                }
                None
            },
        }
    } else if s.len() > 0 && s[0] == '+' {
        match digits_up_to(s, 1, 2147483647) {
            Some(v) => Some(v as i32),
            None => {
                assert(!all_digits(s@)) by {
                    assert(!is_digit_spec(s@[0]));
                }
                None
            },
        }
    } else {
        match digits_up_to(s, 0, 2147483647) {
            Some(v) => Some(v as i32),
            None => None,
        }
    }
}

/// What `i64::from_str` accepts and returns: an optional `+` or `-` sign followed by
/// at least one ASCII digit, with a value in range.
pub open spec fn parse_i64_spec(s: Seq<char>) -> Option<i64> {
    if s.len() > 0 && s[0] == '-' && all_digits(s.drop_first()) {
        let v = -digits_value(s.drop_first());
        if i64::MIN <= v {
            Some(v as i64)
        } else {
            None
        }
    } else if s.len() > 0 && s[0] == '+' && all_digits(s.drop_first()) {
        let v = digits_value(s.drop_first());
        if v <= i64::MAX {
            Some(v as i64)
        } else {
            None
        }
    } else if all_digits(s) {
        let v = digits_value(s);
        if v <= i64::MAX {
            Some(v as i64)
        } else {
            None
        }
    } else {
        None
    }
}

/// `i64::from_str` on a character slice.
pub fn parse_i64(s: &[char]) -> (r: Option<i64>)
    ensures
        r == parse_i64_spec(s@),
{
    proof {
        if s@.len() > 0 {
            assert(s@.skip(1) =~= s@.drop_first());
        }
        assert(s@.skip(0) =~= s@);
    }
    if s.len() > 0 && s[0] == '-' {
        match digits_up_to(s, 1, 9223372036854775808) {
            Some(v) => Some((0 - (v as i128)) as i64),
            None => {
                assert(!all_digits(s@)) by {
                    assert(!is_digit_spec(s@[0]));
                }
                None
            },
        }
    } else if s.len() > 0 && s[0] == '+' {
        match digits_up_to(s, 1, 9223372036854775807) {
            Some(v) => Some(v as i64),
            None => {
                assert(!all_digits(s@)) by {
                    assert(!is_digit_spec(s@[0]));
                }
                None
            },
        }
    } else {
        match digits_up_to(s, 0, 9223372036854775807) {
            Some(v) => Some(v as i64),
            None => None,
        }
    }
}

/// `u64::from_str` on a character slice.
pub fn parse_u64(s: &[char]) -> (r: Option<u64>)
    ensures
        r == parse_u64_spec(s@),
{
    proof {
        if s@.len() > 0 {
            assert(s@.skip(1) =~= s@.drop_first());
        }
        assert(s@.skip(0) =~= s@);
    }
    if s.len() > 0 && s[0] == '+' {
        digits_up_to(s, 1, u64::MAX)
    } else {
        digits_up_to(s, 0, u64::MAX)
    }
}


/// The ASCII digit for `d`.
pub open spec fn digit_char(d: nat) -> char {
    (48 + d) as char
}

/// Decimal digits of `n`, most significant first, without leading zeros.
pub open spec fn decimal(n: nat) -> Seq<char>
    decreases n,
{
    if n < 10 {
        seq![digit_char(n)]
    } else {
        decimal(n / 10).push(digit_char(n % 10))
    }
}

/// `u64::to_string`: the decimal digits of `n`.
pub fn decimal_chars(n: u64) -> (r: Vec<char>)
    ensures
        r@ == decimal(n as nat),
    decreases n,
{
    let d = (n % 10) as u8;
    let c = (48u8 + d) as char;
    if n < 10 {
        let mut r: Vec<char> = Vec::new();
        r.push(c);
        assert(r@ =~= seq![digit_char(n as nat)]);
        r
    } else {
        let mut r = decimal_chars(n / 10);
        r.push(c);
        r
    }
}

proof fn lemma_decimal_digits(n: nat)
    ensures
        all_digits(decimal(n)),
        digits_value(decimal(n)) == n,
        decimal(n)[0] != '+',
    decreases n,
{
    let k = n % 10;
    assert(digit_char(k) as u32 == 48 + k);
    assert('0' as u32 == 48);
    let d = decimal(n);
    assert(digits_value(d) == digits_value(d.drop_last()) * 10 + (d.last() as u32 - '0' as u32));
    if n >= 10 {
        lemma_decimal_digits(n / 10);
        assert(d.drop_last() =~= decimal(n / 10));
        assert(forall|i: int| 0 <= i < d.len() - 1 ==> d[i] == decimal(n / 10)[i]);
        assert(d.last() == digit_char(k));
        assert(n == (n / 10) * 10 + k);
    } else {
        assert(d.drop_last() =~= Seq::<char>::empty());
        assert(k == n);
    }
}

/// A line of digits ended by a line feed trims to the digits.
pub proof fn lemma_trim_digit_line(d: Seq<char>)
    requires
        all_digits(d),
    ensures
        trim_spec(d.push('\n')) == d,
{
    let s = d.push('\n');
    assert(!is_whitespace_spec(s[0]));
    lemma_leading_ws_exact(s, 0);
    assert(is_whitespace_spec(s[s.len() - 1]));
    assert(!is_whitespace_spec(s[s.len() - 2]));
    lemma_trailing_ws_exact(s, 1);
    assert(s.subrange(0, s.len() - 1) =~= d);
}

/// The decimal digits of a number are digits.
pub proof fn lemma_decimal_all_digits(n: nat)
    ensures
        all_digits(decimal(n)),
{
    lemma_decimal_digits(n);
}

/// What is written in decimal reads back as the same number.
pub proof fn law_decimal_parse_roundtrip(n: u64)
    ensures
        parse_u64_spec(decimal(n as nat)) == Some(n),
{
    lemma_decimal_digits(n as nat);
}

/// Whether two strings hold the same text.
pub fn text_is(s: &str, other: &str) -> (r: bool)
    ensures
        r == (s@ == other@),
{
    let a = chars_of(s);
    let b = chars_of(other);
    if a.len() != b.len() {
        return false;
    }
    let mut i: usize = 0;
    while i < a.len()
        invariant
            a@ == s@,
            b@ == other@,
            a@.len() == b@.len(),
            0 <= i <= a@.len(),
            forall|k: int| 0 <= k < i ==> a@[k] == b@[k],
        decreases a@.len() - i,
    {
        if a[i] != b[i] {
            return false;
        }
        i = i + 1;
    }
    assert(a@ =~= b@);
    true
}

/// The characters that `char::to_lowercase` maps a character to.
pub uninterp spec fn lowercase_of(c: char) -> Seq<char>;

/// Calls `char::to_lowercase` and collects what it yields. Claimed: the characters are those
/// that `lowercase_of` names for `c`; which characters they are (the Unicode lowercase
/// mapping) is not stated.
#[verifier::external_body]
fn char_to_lowercase(c: char) -> (r: Vec<char>)
    ensures
        r@ == lowercase_of(c),
{
    c.to_lowercase().collect()
}

/// Each character of `s` replaced by its lowercase mapping.
pub open spec fn lowercase_spec(s: Seq<char>) -> Seq<char> {
    s.map_values(|c: char| lowercase_of(c)).flatten_alt()
}

/// The lowercase characters of a string, as `chars().flat_map(char::to_lowercase)` gives them.
pub fn lowercase(s: &str) -> (r: Vec<char>)
    ensures
        r@ == lowercase_spec(s@),
{
    let chars = chars_of(s);
    let ghost parts = chars@.map_values(|c: char| lowercase_of(c));
    let mut r: Vec<char> = Vec::new();
    let mut i: usize = 0;
    assert(parts.take(0) =~= Seq::<Seq<char>>::empty());
    while i < chars.len()
        invariant
            parts == chars@.map_values(|c: char| lowercase_of(c)),
            0 <= i <= chars@.len(),
            r@ == parts.take(i as int).flatten_alt(),
        decreases chars@.len() - i,
    {
        assert(parts.take(i + 1).drop_last() =~= parts.take(i as int));
        let mut low = char_to_lowercase(chars[i]);
        r.append(&mut low);
        i = i + 1;
    }
    assert(parts.take(i as int) =~= parts);
    r
}

/// Whether the characters spell the given text.
pub fn chars_are(s: &[char], text: &str) -> (r: bool)
    ensures
        r == (s@ == text@),
{
    let b = chars_of(text);
    if s.len() != b.len() {
        return false;
    }
    let mut i: usize = 0;
    while i < s.len()
        invariant
            b@ == text@,
            s@.len() == b@.len(),
            0 <= i <= s@.len(),
            forall|k: int| 0 <= k < i ==> s@[k] == b@[k],
        decreases s@.len() - i,
    {
        if s[i] != b[i] {
            return false;
        }
        i = i + 1;
    }
    assert(s@ =~= b@);
    true
}

/// Position of the first `c` in `s`.
pub open spec fn index_of_char(s: Seq<char>, c: char) -> Option<int>
    decreases s.len(),
{
    if s.len() == 0 {
        None
    } else if s[0] == c {
        Some(0)
    } else {
        match index_of_char(s.drop_first(), c) {
            Some(i) => Some(i + 1),
            None => None,
        }
    }
}

/// Past `k` characters that are not `c`, the first `c` is found `k` further on.
pub proof fn lemma_index_of_char(s: Seq<char>, c: char, k: int)
    requires
        0 <= k <= s.len(),
        forall|j: int| 0 <= j < k ==> s[j] != c,
    ensures
        index_of_char(s, c) == (match index_of_char(s.skip(k), c) {
            Some(i) => Some(i + k),
            None => None::<int>,
        }),
    decreases k,
{
    if k == 0 {
        assert(s.skip(0) =~= s);
    } else {
        assert(s.drop_first().skip(k - 1) =~= s.skip(k));
        assert forall|j: int| 0 <= j < k - 1 implies s.drop_first()[j] != c by {
            assert(s.drop_first()[j] == s[j + 1]);
        }
        lemma_index_of_char(s.drop_first(), c, k - 1);
    }
}

/// Position of the first `c` in `s`.
pub fn find_char(s: &[char], c: char) -> (r: Option<usize>)
    ensures
        r matches Some(i) ==> index_of_char(s@, c) == Some(i as int) && i < s@.len() && s@[i as int]
            == c,
        r is None ==> index_of_char(s@, c) is None,
{
    let mut i: usize = 0;
    while i < s.len()
        invariant
            0 <= i <= s@.len(),
            forall|j: int| 0 <= j < i ==> s@[j] != c,
        decreases s@.len() - i,
    {
        if s[i] == c {
            proof {
                lemma_index_of_char(s@, c, i as int);
            }
            return Some(i);
        }
        i = i + 1;
    }
    proof {
        lemma_index_of_char(s@, c, i as int);
    }
    None
}

} // verus!
