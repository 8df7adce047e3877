//! Command history: the text format of an update of a history entry, and entries of
//! visited paths.
use vstd::prelude::*;
use crate::text::{
    is_whitespace_spec, leading_ws, trailing_ws, lemma_index_of_char, lemma_leading_ws_bound, lemma_leading_ws_exact,
    lemma_trailing_ws_bound, lemma_trailing_ws_exact, all_digits, chars_of, is_digit_spec, chars_are, find_char, index_of_char, parse_i64, parse_i64_spec, slice_to_vec, split_by,
    split_on, string_from_chars, trim, trim_spec,
};

verus! {

/// A visited path and how often it was visited.
#[derive(Debug, Clone)]
pub struct PathEntry {
    pub path: String,
    pub count: i64,
}

/// Fields of a history update as they are read from text. The timestamps are kept as the
/// text they were given in, which is checked to be a floating point number.
#[derive(Debug, Clone, Default)]
pub struct HistoryRecord {
    pub id: Option<i64>,
    pub cmd: Option<String>,
    pub status: Option<i64>,
    pub cwd: Option<String>,
    pub hostname: Option<String>,
    pub user: Option<String>,
    pub start_ts: Option<String>,
    pub end_ts: Option<String>,
    pub session: Option<String>,
}

/// A history record as plain values.
pub struct RecordView {
    pub id: Option<i64>,
    pub cmd: Option<Seq<char>>,
    pub status: Option<i64>,
    pub cwd: Option<Seq<char>>,
    pub hostname: Option<Seq<char>>,
    pub user: Option<Seq<char>>,
    pub start_ts: Option<Seq<char>>,
    pub end_ts: Option<Seq<char>>,
    pub session: Option<Seq<char>>,
}

pub open spec fn text_view(s: Option<String>) -> Option<Seq<char>> {
    match s {
        Some(s) => Some(s@),
        None => None,
    }
}

pub open spec fn record_view(r: HistoryRecord) -> RecordView {
    RecordView {
        id: r.id,
        cmd: text_view(r.cmd),
        status: r.status,
        cwd: text_view(r.cwd),
        hostname: text_view(r.hostname),
        user: text_view(r.user),
        start_ts: text_view(r.start_ts),
        end_ts: text_view(r.end_ts),
        session: text_view(r.session),
    }
}

/// Why an update does not read.
#[derive(Debug, Clone, PartialEq, Eq)]
pub enum HistoryError {
    /// a key that is not known, or that has no value
    InvalidKey(String),
    /// the value of a numeric key is not a number
    InvalidNumber(String),
}

/// Why an update does not read, as plain values.
pub enum UpdateFault {
    Key(Seq<char>),
    Number(Seq<char>),
}

pub open spec fn error_view(e: HistoryError) -> UpdateFault {
    match e {
        HistoryError::InvalidKey(k) => UpdateFault::Key(k@),
        HistoryError::InvalidNumber(v) => UpdateFault::Number(v@),
    }
}

pub open spec fn empty_record() -> RecordView {
    RecordView {
        id: None,
        cmd: None,
        status: None,
        cwd: None,
        hostname: None,
        user: None,
        start_ts: None,
        end_ts: None,
        session: None,
    }
}

/// Key and value of one item: the item trimmed, cut at its first line break, the value
/// trimmed; no value when there is no line break.
pub open spec fn item_key_value(item: Seq<char>) -> (Seq<char>, Option<Seq<char>>) {
    let t = trim_spec(item);
    match index_of_char(t, '\n') {
        Some(i) => (t.take(i), Some(trim_spec(t.skip(i + 1)))),
        None => (t, None),
    }
}

/// The text with an optional `+` or `-` taken off its front.
pub open spec fn without_sign(s: Seq<char>) -> Seq<char> {
    if s.len() > 0 && (s[0] == '+' || s[0] == '-') {
        s.skip(1)
    } else {
        s
    }
}

/// `s` is the word `lower` with any of its letters in upper case, as `upper` has them.
pub open spec fn same_letters(s: Seq<char>, lower: Seq<char>, upper: Seq<char>) -> bool {
    &&& s.len() == lower.len()
    &&& forall|i: int| 0 <= i < s.len() ==> #[trigger] s[i] == lower[i] || s[i] == upper[i]
}

/// Digits with at most one `.` among them, and at least one digit.
pub open spec fn mantissa_ok(m: Seq<char>) -> bool {
    &&& forall|i: int| 0 <= i < m.len() ==> is_digit_spec(#[trigger] m[i]) || m[i] == '.'
    &&& forall|i: int, j: int| 0 <= i < j < m.len() && #[trigger] m[i] == '.' ==> #[trigger] m[j] != '.'
    &&& exists|i: int| 0 <= i < m.len() && is_digit_spec(#[trigger] m[i])
}

/// Nothing, or `e` or `E` followed by an optional sign and at least one digit.
pub open spec fn exponent_ok(x: Seq<char>) -> bool {
    x.len() == 0 || ((x[0] == 'e' || x[0] == 'E') && all_digits(without_sign(x.skip(1))))
}

/// What `f64::from_str` accepts: an optional sign, then `inf`, `infinity` or `nan` in any
/// case, or digits with at most one `.` and at least one digit, followed by an optional
/// exponent.
pub open spec fn float_syntax(s: Seq<char>) -> bool {
    let b = without_sign(s);
    ||| same_letters(b, "inf"@, "INF"@)
    ||| same_letters(b, "infinity"@, "INFINITY"@)
    ||| same_letters(b, "nan"@, "NAN"@)
    ||| exists|k: int| 0 <= k <= b.len() && mantissa_ok(b.take(k)) && exponent_ok(b.skip(k))
}

fn same_letters_check(s: &[char], lower: &str, upper: &str) -> (r: bool)
    requires
        lower@.len() == upper@.len(),
    ensures
        r == same_letters(s@, lower@, upper@),
{
    let l = chars_of(lower);
    let u = chars_of(upper);
    if s.len() != l.len() {
        return false;
    }
    let mut i: usize = 0;
    while i < s.len()
        invariant
            l@ == lower@,
            u@ == upper@,
            s@.len() == l@.len() == u@.len(),
            0 <= i <= s@.len(),
            forall|k: int| 0 <= k < i ==> #[trigger] s@[k] == l@[k] || s@[k] == u@[k],
        decreases s@.len() - i,
    {
        if s[i] != l[i] && s[i] != u[i] {
            assert(!(s@[i as int] == lower@[i as int] || s@[i as int] == upper@[i as int]));
            return false;
        }
        i = i + 1;
    }
    true
}

fn mantissa_check(m: &[char]) -> (r: bool)
    ensures
        r == mantissa_ok(m@),
{
    let mut seen_dot = false;
    let mut seen_digit = false;
    let mut i: usize = 0;
    while i < m.len()
        invariant
            0 <= i <= m@.len(),
            forall|k: int| 0 <= k < i ==> is_digit_spec(#[trigger] m@[k]) || m@[k] == '.',
            forall|a: int, b: int| 0 <= a < b < i && #[trigger] m@[a] == '.' ==> #[trigger] m@[b] != '.',
            seen_dot <==> exists|k: int| 0 <= k < i && m@[k] == '.',
            seen_digit <==> exists|k: int| 0 <= k < i && is_digit_spec(#[trigger] m@[k]),
        decreases m@.len() - i,
    {
        let c = m[i];
        if '0' <= c && c <= '9' {
            seen_digit = true;
        } else if c == '.' {
            if seen_dot {
                let ghost k = choose|k: int| 0 <= k < i && m@[k] == '.';
                assert(m@[k] == '.' && m@[i as int] == '.');
                return false;
            }
            seen_dot = true;
        } else {
            assert(!(is_digit_spec(m@[i as int]) || m@[i as int] == '.'));
            return false;
        }
        i = i + 1;
    }
    seen_digit
}

fn digits_from(s: &[char], start: usize) -> (r: bool)
    requires
        start <= s@.len(),
    ensures
        r == all_digits(s@.skip(start as int)),
{
    if start == s.len() {
        return false;
    }
    let mut i = start;
    while i < s.len()
        invariant
            start <= i <= s@.len(),
            forall|k: int| start <= k < i ==> is_digit_spec(#[trigger] s@[k]),
        decreases s@.len() - i,
    {
        if !('0' <= s[i] && s[i] <= '9') {
            assert(s@.skip(start as int)[i - start] == s@[i as int]);
            return false;
        }
        i = i + 1;
    }
    assert forall|k: int| 0 <= k < s@.skip(start as int).len() implies is_digit_spec(
        #[trigger] s@.skip(start as int)[k],
    ) by {
        assert(s@.skip(start as int)[k] == s@[start + k]);
    }
    true
}

fn exponent_check(x: &[char]) -> (r: bool)
    ensures
        r == exponent_ok(x@),
{
    if x.len() == 0 {
        return true;
    }
    if !(x[0] == 'e' || x[0] == 'E') {
        return false;
    }
    let start: usize = if x.len() > 1 && (x[1] == '+' || x[1] == '-') {
        2
    } else {
        1
    };
    assert(without_sign(x@.skip(1)) =~= x@.skip(start as int));
    digits_from(x, start)
}

/// Whether `f64::from_str` accepts the text.
pub fn float_syntax_check(v: &[char]) -> (r: bool)
    ensures
        r == float_syntax(v@),
{
    let start: usize = if v.len() > 0 && (v[0] == '+' || v[0] == '-') {
        1
    } else {
        0
    };
    let b = slice_to_vec(v, start, v.len());
    assert(b@ =~= without_sign(v@));
    proof {
        reveal_strlit("inf");
        reveal_strlit("INF");
        reveal_strlit("infinity");
        reveal_strlit("INFINITY");
        reveal_strlit("nan");
        reveal_strlit("NAN");
    }
    if same_letters_check(b.as_slice(), "inf", "INF") || same_letters_check(b.as_slice(), "infinity", "INFINITY")
        || same_letters_check(b.as_slice(), "nan", "NAN") {
        return true;
    }
    let ghost bs = b@;
    let mut k: usize = 0;
    while k < b.len() && !(b[k] == 'e' || b[k] == 'E')
        invariant
            bs == b@,
            0 <= k <= bs.len(),
            forall|j: int| 0 <= j < k ==> !(#[trigger] bs[j] == 'e' || bs[j] == 'E'),
        decreases bs.len() - k,
    {
        k = k + 1;
    }
    let m = slice_to_vec(b.as_slice(), 0, k);
    let x = slice_to_vec(b.as_slice(), k, b.len());
    assert(m@ =~= bs.take(k as int));
    assert(x@ =~= bs.skip(k as int));
    let ok = mantissa_check(m.as_slice()) && exponent_check(x.as_slice());
    if ok {
        return true;
    }
    assert forall|j: int| !(0 <= j <= bs.len() && mantissa_ok(#[trigger] bs.take(j)) && exponent_ok(bs.skip(j))) by {
        if 0 <= j < k {
            assert(bs.skip(j)[0] == bs[j]);
            assert(!(bs[j] == 'e' || bs[j] == 'E'));
        } else if k < j <= bs.len() {
            assert(bs.take(j)[k as int] == bs[k as int]);
            if mantissa_ok(bs.take(j)) {
                assert(is_digit_spec(bs.take(j)[k as int]) || bs.take(j)[k as int] == '.');
            }
        }
    }
    false
}

/// The record after one item.
pub open spec fn apply_item(r: RecordView, key: Seq<char>, value: Option<Seq<char>>) -> Result<
    RecordView,
    UpdateFault,
> {
    match value {
        None => Err(UpdateFault::Key(key)),
        Some(v) => if key == "id"@ {
            match parse_i64_spec(v) {
                Some(n) => Ok(RecordView { id: Some(n), ..r }),
                None => Err(UpdateFault::Number(v)),
            }
        } else if key == "cmd"@ {
            Ok(RecordView { cmd: Some(v), ..r })
        } else if key == "status"@ || key == "return"@ {
            match parse_i64_spec(v) {
                Some(n) => Ok(RecordView { status: Some(n), ..r }),
                None => Err(UpdateFault::Number(v)),
            }
        } else if key == "cwd"@ {
            Ok(RecordView { cwd: Some(v), ..r })
        } else if key == "hostname"@ {
            Ok(RecordView { hostname: Some(v), ..r })
        } else if key == "user"@ {
            Ok(RecordView { user: Some(v), ..r })
        } else if key == "start_ts"@ {
            if float_syntax(v) {
                Ok(RecordView { start_ts: Some(v), ..r })
            } else {
                Err(UpdateFault::Number(v))
            }
        } else if key == "end_ts"@ {
            if float_syntax(v) {
                Ok(RecordView { end_ts: Some(v), ..r })
            } else {
                Err(UpdateFault::Number(v))
            }
        } else if key == "session"@ {
            Ok(RecordView { session: Some(v), ..r })
        } else {
            Err(UpdateFault::Key(key))
        },
    }
}

/// `x` has the fields of `r`, but for the one numbered `f` (in the order id, cmd, status,
/// cwd, hostname, user, start_ts, end_ts, session).
pub open spec fn same_but(x: RecordView, r: RecordView, f: int) -> bool {
    &&& (f != 0 ==> x.id == r.id)
    &&& (f != 1 ==> x.cmd == r.cmd)
    &&& (f != 2 ==> x.status == r.status)
    &&& (f != 3 ==> x.cwd == r.cwd)
    &&& (f != 4 ==> x.hostname == r.hostname)
    &&& (f != 5 ==> x.user == r.user)
    &&& (f != 6 ==> x.start_ts == r.start_ts)
    &&& (f != 7 ==> x.end_ts == r.end_ts)
    &&& (f != 8 ==> x.session == r.session)
}

/// What each item of an update does: `cmd`, `cwd`, `hostname`, `user` and `session` set
/// their field to the value, whatever it is; `id`, and `status` or `return`, set theirs to
/// the integer the value holds, and fail with the value where it holds none; `start_ts` and
/// `end_ts` set theirs to the value where it is a floating point number, and fail with it
/// otherwise. No other field changes. An item without a value fails with its key.
pub proof fn law_history_items(r: RecordView, v: Seq<char>, key: Seq<char>)
    ensures
        apply_item(r, "cmd"@, Some(v)) matches Ok(x) && x.cmd == Some(v) && same_but(x, r, 1),
        apply_item(r, "cwd"@, Some(v)) matches Ok(x) && x.cwd == Some(v) && same_but(x, r, 3),
        apply_item(r, "hostname"@, Some(v)) matches Ok(x) && x.hostname == Some(v) && same_but(x, r, 4),
        apply_item(r, "user"@, Some(v)) matches Ok(x) && x.user == Some(v) && same_but(x, r, 5),
        apply_item(r, "session"@, Some(v)) matches Ok(x) && x.session == Some(v) && same_but(x, r, 8),
        match parse_i64_spec(v) {
            Some(n) => {
                &&& apply_item(r, "id"@, Some(v)) matches Ok(x) && x.id == Some(n) && same_but(x, r, 0)
                &&& apply_item(r, "status"@, Some(v)) matches Ok(x) && x.status == Some(n) && same_but(x, r, 2)
                &&& apply_item(r, "return"@, Some(v)) matches Ok(x) && x.status == Some(n) && same_but(x, r, 2)
            },
            None => {
                &&& apply_item(r, "id"@, Some(v)) == Err::<RecordView, UpdateFault>(UpdateFault::Number(v))
                &&& apply_item(r, "status"@, Some(v)) == Err::<RecordView, UpdateFault>(UpdateFault::Number(v))
                &&& apply_item(r, "return"@, Some(v)) == Err::<RecordView, UpdateFault>(UpdateFault::Number(v))
            },
        },
        float_syntax(v) ==> (apply_item(r, "start_ts"@, Some(v)) matches Ok(x) && x.start_ts == Some(
            v,
        ) && same_but(x, r, 6)),
        float_syntax(v) ==> (apply_item(r, "end_ts"@, Some(v)) matches Ok(x) && x.end_ts == Some(v)
            && same_but(x, r, 7)),
        !float_syntax(v) ==> apply_item(r, "start_ts"@, Some(v)) == Err::<RecordView, UpdateFault>(
            UpdateFault::Number(v),
        ),
        !float_syntax(v) ==> apply_item(r, "end_ts"@, Some(v)) == Err::<RecordView, UpdateFault>(
            UpdateFault::Number(v),
        ),
        apply_item(r, key, None) == Err::<RecordView, UpdateFault>(UpdateFault::Key(key)),
{
    reveal_strlit("id");
    reveal_strlit("cmd");
    reveal_strlit("status");
    reveal_strlit("return");
    reveal_strlit("cwd");
    reveal_strlit("hostname");
    reveal_strlit("user");
    reveal_strlit("start_ts");
    reveal_strlit("end_ts");
    reveal_strlit("session");
    assert("cmd"@ != "id"@) by {
        if "cmd"@ == "id"@ {
            assert("cmd"@.len() == "id"@.len());
        }
    }
    assert("status"@ != "id"@) by {
        if "status"@ == "id"@ {
            assert("status"@.len() == "id"@.len());
        }
    }
    assert("status"@ != "cmd"@) by {
        if "status"@ == "cmd"@ {
            assert("status"@.len() == "cmd"@.len());
        }
    }
    assert("return"@ != "id"@) by {
        if "return"@ == "id"@ {
            assert("return"@.len() == "id"@.len());
        }
    }
    assert("return"@ != "cmd"@) by {
        if "return"@ == "cmd"@ {
            assert("return"@.len() == "cmd"@.len());
        }
    }
    assert("return"@ != "status"@) by {
        if "return"@ == "status"@ {
            assert("return"@[0] == "status"@[0]);
        }
    }
    assert("cwd"@ != "id"@) by {
        if "cwd"@ == "id"@ {
            assert("cwd"@.len() == "id"@.len());
        }
    }
    assert("cwd"@ != "cmd"@) by {
        if "cwd"@ == "cmd"@ {
            assert("cwd"@[1] == "cmd"@[1]);
        }
    }
    assert("cwd"@ != "status"@) by {
        if "cwd"@ == "status"@ {
            assert("cwd"@.len() == "status"@.len());
        }
    }
    assert("cwd"@ != "return"@) by {
        if "cwd"@ == "return"@ {
            assert("cwd"@.len() == "return"@.len());
        }
    }
    assert("hostname"@ != "id"@) by {
        if "hostname"@ == "id"@ {
            assert("hostname"@.len() == "id"@.len());
        }
    }
    assert("hostname"@ != "cmd"@) by {
        if "hostname"@ == "cmd"@ {
            assert("hostname"@.len() == "cmd"@.len());
        }
    }
    assert("hostname"@ != "status"@) by {
        if "hostname"@ == "status"@ {
            assert("hostname"@.len() == "status"@.len());
        }
    }
    assert("hostname"@ != "return"@) by {
        if "hostname"@ == "return"@ {
            assert("hostname"@.len() == "return"@.len());
        }
    }
    assert("hostname"@ != "cwd"@) by {
        if "hostname"@ == "cwd"@ {
            assert("hostname"@.len() == "cwd"@.len());
        }
    }
    assert("user"@ != "id"@) by {
        if "user"@ == "id"@ {
            assert("user"@.len() == "id"@.len());
        }
    }
    assert("user"@ != "cmd"@) by {
        if "user"@ == "cmd"@ {
            assert("user"@.len() == "cmd"@.len());
        }
    }
    assert("user"@ != "status"@) by {
        if "user"@ == "status"@ {
            assert("user"@.len() == "status"@.len());
        }
    }
    assert("user"@ != "return"@) by {
        if "user"@ == "return"@ {
            assert("user"@.len() == "return"@.len());
        }
    }
    assert("user"@ != "cwd"@) by {
        if "user"@ == "cwd"@ {
            assert("user"@.len() == "cwd"@.len());
        }
    }
    assert("user"@ != "hostname"@) by {
        if "user"@ == "hostname"@ {
            assert("user"@.len() == "hostname"@.len());
        }
    }
    assert("start_ts"@ != "id"@) by {
        if "start_ts"@ == "id"@ {
            assert("start_ts"@.len() == "id"@.len());
        }
    }
    assert("start_ts"@ != "cmd"@) by {
        if "start_ts"@ == "cmd"@ {
            assert("start_ts"@.len() == "cmd"@.len());
        }
    }
    assert("start_ts"@ != "status"@) by {
        if "start_ts"@ == "status"@ {
            assert("start_ts"@.len() == "status"@.len());
        }
    }
    assert("start_ts"@ != "return"@) by {
        if "start_ts"@ == "return"@ {
            assert("start_ts"@.len() == "return"@.len());
        }
    }
    assert("start_ts"@ != "cwd"@) by {
        if "start_ts"@ == "cwd"@ {
            assert("start_ts"@.len() == "cwd"@.len());
        }
    }
    assert("start_ts"@ != "hostname"@) by {
        if "start_ts"@ == "hostname"@ {
            assert("start_ts"@[0] == "hostname"@[0]);
        }
    }
    assert("start_ts"@ != "user"@) by {
        if "start_ts"@ == "user"@ {
            assert("start_ts"@.len() == "user"@.len());
        }
    }
    assert("end_ts"@ != "id"@) by {
        if "end_ts"@ == "id"@ {
            assert("end_ts"@.len() == "id"@.len());
        }
    }
    assert("end_ts"@ != "cmd"@) by {
        if "end_ts"@ == "cmd"@ {
            assert("end_ts"@.len() == "cmd"@.len());
        }
    }
    assert("end_ts"@ != "status"@) by {
        if "end_ts"@ == "status"@ {
            assert("end_ts"@[0] == "status"@[0]);
        }
    }
    assert("end_ts"@ != "return"@) by {
        if "end_ts"@ == "return"@ {
            assert("end_ts"@[0] == "return"@[0]);
        }
    }
    assert("end_ts"@ != "cwd"@) by {
        if "end_ts"@ == "cwd"@ {
            assert("end_ts"@.len() == "cwd"@.len());
        }
    }
    assert("end_ts"@ != "hostname"@) by {
        if "end_ts"@ == "hostname"@ {
            assert("end_ts"@.len() == "hostname"@.len());
        }
    }
    assert("end_ts"@ != "user"@) by {
        if "end_ts"@ == "user"@ {
            assert("end_ts"@.len() == "user"@.len());
        }
    }
    assert("end_ts"@ != "start_ts"@) by {
        if "end_ts"@ == "start_ts"@ {
            assert("end_ts"@.len() == "start_ts"@.len());
        }
    }
    assert("session"@ != "id"@) by {
        if "session"@ == "id"@ {
            assert("session"@.len() == "id"@.len());
        }
    }
    assert("session"@ != "cmd"@) by {
        if "session"@ == "cmd"@ {
            assert("session"@.len() == "cmd"@.len());
        }
    }
    assert("session"@ != "status"@) by {
        if "session"@ == "status"@ {
            assert("session"@.len() == "status"@.len());
        }
    }
    assert("session"@ != "return"@) by {
        if "session"@ == "return"@ {
            assert("session"@.len() == "return"@.len());
        }
    }
    assert("session"@ != "cwd"@) by {
        if "session"@ == "cwd"@ {
            assert("session"@.len() == "cwd"@.len());
        }
    }
    assert("session"@ != "hostname"@) by {
        if "session"@ == "hostname"@ {
            assert("session"@.len() == "hostname"@.len());
        }
    }
    assert("session"@ != "user"@) by {
        if "session"@ == "user"@ {
            assert("session"@.len() == "user"@.len());
        }
    }
    assert("session"@ != "start_ts"@) by {
        if "session"@ == "start_ts"@ {
            assert("session"@.len() == "start_ts"@.len());
        }
    }
    assert("session"@ != "end_ts"@) by {
        if "session"@ == "end_ts"@ {
            assert("session"@.len() == "end_ts"@.len());
        }
    }
}

/// A text without the separator is one part.
proof fn lemma_split_single(s: Seq<char>, sep: char)
    requires
        forall|i: int| 0 <= i < s.len() ==> s[i] != sep,
    ensures
        split_on(s, sep) == seq![s],
    decreases s.len(),
{
    if s.len() == 0 {
        assert(s =~= Seq::<char>::empty());
    } else {
        lemma_split_single(s.drop_last(), sep);
        assert(s.drop_last().push(s.last()) =~= s);
        assert(seq![s.drop_last()].update(0, s.drop_last().push(s.last())) =~= seq![s]);
    }
}

/// An item written as a key (of characters that are neither whitespace nor line breaks), a
/// line break and a value that is not all whitespace is read as that key and the value
/// trimmed.
proof fn lemma_item_key_value(k: Seq<char>, v: Seq<char>)
    requires
        k.len() > 0,
        forall|i: int| 0 <= i < k.len() ==> !is_whitespace_spec(#[trigger] k[i]),
        exists|i: int| 0 <= i < v.len() && !is_whitespace_spec(#[trigger] v[i]),
    ensures
        item_key_value(k + seq!['\n'] + v) == (k, Some(trim_spec(v))),
{
    let x = k + seq!['\n'] + v;
    let n = k.len() as int;
    lemma_trailing_ws_bound(v);
    lemma_leading_ws_bound(v);
    let w = trailing_ws(v) as int;
    let l = leading_ws(v) as int;
    let j = choose|i: int| 0 <= i < v.len() && !is_whitespace_spec(#[trigger] v[i]);
    assert(w < v.len()) by {
        if w >= v.len() {
            assert(is_whitespace_spec(v[j]));
        }
    }
    assert(l < v.len()) by {
        if l >= v.len() {
            assert(is_whitespace_spec(v[j]));
        }
    }
    assert(x[0] == k[0]);
    lemma_leading_ws_exact(x, 0);
    assert forall|i: int| x.len() - w <= i < x.len() implies is_whitespace_spec(#[trigger] x[i]) by {
        assert(x[i] == v[i - n - 1]);
    }
    assert(x[x.len() - w - 1] == v[v.len() - w - 1]);
    lemma_trailing_ws_exact(x, w);
    let t = trim_spec(x);
    assert(t =~= x.subrange(0, x.len() - w));
    assert forall|i: int| 0 <= i < n implies t[i] != '\n' by {
        assert(t[i] == k[i]);
        assert(is_whitespace_spec('\n'));
    }
    lemma_index_of_char(t, '\n', n);
    assert(t.skip(n)[0] == '\n');
    assert(index_of_char(t.skip(n), '\n') == Some(0int));
    assert(t.take(n) =~= k);
    let rest = t.skip(n + 1);
    assert(rest =~= v.take(v.len() - w));
    assert forall|i: int| 0 <= i < l implies is_whitespace_spec(#[trigger] rest[i]) by {
        assert(rest[i] == v[i]);
    }
    assert(l <= v.len() - w - 1) by {
        if l > v.len() - w - 1 {
            assert(is_whitespace_spec(v[v.len() - w - 1]));
        }
    }
    assert(rest[l] == v[l]);
    lemma_leading_ws_exact(rest, l);
    lemma_trailing_ws_exact(rest, 0);
    assert(trim_spec(rest) =~= trim_spec(v));
}

/// An update of one item, a text field's key, a line break and a value that is not all
/// whitespace, sets that field of an empty record to the value trimmed and leaves the
/// others empty: `hostname`, `cmd`, `cwd`, `user` and `session` alike.
pub proof fn law_history_text_update(v: Seq<char>)
    requires
        exists|i: int| 0 <= i < v.len() && !is_whitespace_spec(#[trigger] v[i]),
        forall|i: int| 0 <= i < v.len() ==> v[i] != '\x0c',
    ensures
        history_update_spec("hostname"@ + seq!['\n'] + v) matches Ok(x) && x.hostname == Some(
            trim_spec(v),
        ) && same_but(x, empty_record(), 4),
        history_update_spec("cmd"@ + seq!['\n'] + v) matches Ok(x) && x.cmd == Some(trim_spec(v))
            && same_but(x, empty_record(), 1),
        history_update_spec("cwd"@ + seq!['\n'] + v) matches Ok(x) && x.cwd == Some(trim_spec(v))
            && same_but(x, empty_record(), 3),
        history_update_spec("user"@ + seq!['\n'] + v) matches Ok(x) && x.user == Some(trim_spec(v))
            && same_but(x, empty_record(), 5),
        history_update_spec("session"@ + seq!['\n'] + v) matches Ok(x) && x.session == Some(
            trim_spec(v),
        ) && same_but(x, empty_record(), 8),
{
    lemma_text_item("hostname"@, v);
    lemma_text_item("cmd"@, v);
    lemma_text_item("cwd"@, v);
    lemma_text_item("user"@, v);
    lemma_text_item("session"@, v);
    law_history_items(empty_record(), trim_spec(v), "hostname"@);
}

proof fn lemma_text_item(k: Seq<char>, v: Seq<char>)
    requires
        k == "hostname"@ || k == "cmd"@ || k == "cwd"@ || k == "user"@ || k == "session"@,
        exists|i: int| 0 <= i < v.len() && !is_whitespace_spec(#[trigger] v[i]),
        forall|i: int| 0 <= i < v.len() ==> v[i] != '\x0c',
    ensures
        history_update_spec(k + seq!['\n'] + v) == apply_item(empty_record(), k, Some(trim_spec(v))),
{
    reveal_strlit("hostname");
    reveal_strlit("cmd");
    reveal_strlit("cwd");
    reveal_strlit("user");
    reveal_strlit("session");
    assert forall|i: int| 0 <= i < k.len() implies !is_whitespace_spec(#[trigger] k[i]) && k[i] != '\x0c' by {
        assert('a' <= k[i] <= 'z');
    }
    let x = k + seq!['\n'] + v;
    assert forall|i: int| 0 <= i < x.len() implies x[i] != '\x0c' by {
        if i < k.len() {
            assert(x[i] == k[i]);
        } else if i > k.len() {
            assert(x[i] == v[i - k.len() - 1]);
        }
    }
    lemma_split_single(x, '\x0c');
    lemma_item_key_value(k, v);
    let items = seq![x];
    assert(items.drop_last() =~= Seq::<Seq<char>>::empty());
    assert(apply_items(items.drop_last()) == Ok::<RecordView, UpdateFault>(empty_record()));
    assert(items.last() == x);
    assert(history_update_spec(x) == apply_items(items));
}

/// The record read from the items, in order; the first item that does not read stops it.
pub open spec fn apply_items(items: Seq<Seq<char>>) -> Result<RecordView, UpdateFault>
    decreases items.len(),
{
    if items.len() == 0 {
        Ok(empty_record())
    } else {
        match apply_items(items.drop_last()) {
            Err(e) => Err(e),
            Ok(r) => {
                let (key, value) = item_key_value(items.last());
                apply_item(r, key, value)
            },
        }
    }
}

/// The record of an update written as items separated by form feeds, each a key and, after
/// a line break, its value.
pub open spec fn history_update_spec(text: Seq<char>) -> Result<RecordView, UpdateFault> {
    apply_items(split_on(text, '\x0c'))
}

proof fn lemma_fault_stays(items: Seq<Seq<char>>, k: int, e: UpdateFault)
    requires
        0 <= k <= items.len(),
        apply_items(items.take(k)) == Err::<RecordView, UpdateFault>(e),
    ensures
        apply_items(items) == Err::<RecordView, UpdateFault>(e),
    decreases items.len() - k,
{
    if k == items.len() {
        assert(items.take(k) =~= items);
    } else {
        assert(items.take(k + 1).drop_last() =~= items.take(k));
        lemma_fault_stays(items, k + 1, e);
    }
}

#[verifier::spinoff_prover]
fn key_value(item: &[char]) -> (r: (Vec<char>, Option<Vec<char>>))
    ensures
        r.0@ == item_key_value(item@).0,
        r.1 is Some == item_key_value(item@).1 is Some,
        r.1 matches Some(v) ==> item_key_value(item@).1 == Some(v@),
{
    let t = trim(item);
    let found = find_char(t.as_slice(), '\n');
    match found {
        Some(i) => {
            assert(i < t@.len());
            let len = t.len();
            assert(i < len);
            let next = i + 1;
            let key = slice_to_vec(t.as_slice(), 0, i);
            let rest = slice_to_vec(t.as_slice(), next, len);
            let value = trim(rest.as_slice());
            assert(key@ =~= t@.take(i as int));
            assert(rest@ =~= t@.skip(i + 1));
            (key, Some(value))
        },
        None => {
            let all = slice_to_vec(t.as_slice(), 0, t.len());
            assert(all@ =~= t@);
            (all, None)
        },
    }
}

fn apply(r: HistoryRecord, key: &Vec<char>, value: Option<Vec<char>>) -> (out: Result<HistoryRecord, HistoryError>)
    ensures
        out is Ok <==> apply_item(record_view(r), key@, match value {
            Some(v) => Some(v@),
            None => None,
        }) is Ok,
        out matches Ok(x) ==> apply_item(record_view(r), key@, match value {
            Some(v) => Some(v@),
            None => None,
        }) == Ok::<RecordView, UpdateFault>(record_view(x)),
        out matches Err(e) ==> apply_item(record_view(r), key@, match value {
            Some(v) => Some(v@),
            None => None,
        }) == Err::<RecordView, UpdateFault>(error_view(e)),
{
    let v = match value {
        None => {
            return Err(HistoryError::InvalidKey(string_from_chars(key.as_slice())));
        },
        Some(v) => v,
    };
    let text = string_from_chars(v.as_slice());
    if chars_are(key.as_slice(), "id") {
        match parse_i64(v.as_slice()) {
            Some(n) => Ok(HistoryRecord { id: Some(n), ..r }),
            None => Err(HistoryError::InvalidNumber(text)),
        }
    } else if chars_are(key.as_slice(), "cmd") {
        Ok(HistoryRecord { cmd: Some(text), ..r })
    } else if chars_are(key.as_slice(), "status") || chars_are(key.as_slice(), "return") {
        match parse_i64(v.as_slice()) {
            Some(n) => Ok(HistoryRecord { status: Some(n), ..r }),
            None => Err(HistoryError::InvalidNumber(text)),
        }
    } else if chars_are(key.as_slice(), "cwd") {
        Ok(HistoryRecord { cwd: Some(text), ..r })
    } else if chars_are(key.as_slice(), "hostname") {
        Ok(HistoryRecord { hostname: Some(text), ..r })
    } else if chars_are(key.as_slice(), "user") {
        Ok(HistoryRecord { user: Some(text), ..r })
    } else if chars_are(key.as_slice(), "start_ts") {
        if float_syntax_check(v.as_slice()) {
            Ok(HistoryRecord { start_ts: Some(text), ..r })
        } else {
            Err(HistoryError::InvalidNumber(text))
        }
    } else if chars_are(key.as_slice(), "end_ts") {
        if float_syntax_check(v.as_slice()) {
            Ok(HistoryRecord { end_ts: Some(text), ..r })
        } else {
            Err(HistoryError::InvalidNumber(text))
        }
    } else if chars_are(key.as_slice(), "session") {
        Ok(HistoryRecord { session: Some(text), ..r })
    } else {
        Err(HistoryError::InvalidKey(string_from_chars(key.as_slice())))
    }
}

impl HistoryRecord {
    /// Read an update: items separated by form feeds, each a key, a line break and the
    /// value; later items override earlier ones.
    pub fn parse(text: &str) -> (r: Result<HistoryRecord, HistoryError>)
        ensures
            r is Ok <==> history_update_spec(text@) is Ok,
            r matches Ok(x) ==> history_update_spec(text@) == Ok::<RecordView, UpdateFault>(
                record_view(x),
            ),
            r matches Err(e) ==> history_update_spec(text@) == Err::<RecordView, UpdateFault>(
                error_view(e),
            ),
    {
        let chars = crate::text::chars_of(text);
        let items = split_by(chars.as_slice(), '\x0c');
        let ghost its = split_on(text@, '\x0c');
        let mut record = HistoryRecord {
            id: None,
            cmd: None,
            status: None,
            cwd: None,
            hostname: None,
            user: None,
            start_ts: None,
            end_ts: None,
            session: None,
        };
        let mut i: usize = 0;
        while i < items.len()
            invariant
                items.deep_view() == its,
                its == split_on(text@, '\x0c'),
                0 <= i <= its.len(),
                apply_items(its.take(i as int)) == Ok::<RecordView, UpdateFault>(record_view(record)),
            decreases its.len() - i,
        {
            proof {
                assert(its.take(i + 1).drop_last() =~= its.take(i as int));
                assert(its.take(i + 1).last() == its[i as int]);
            }
            assert(items@[i as int]@ == its[i as int]);
            let (key, value) = key_value(items[i].as_slice());
            match apply(record, &key, value) {
                Ok(next) => {
                    record = next;
                },
                Err(e) => {
                    proof {
                        lemma_fault_stays(its, i + 1, error_view(e));
                    }
                    return Err(e);
                },
            }
            i = i + 1;
        }
        assert(its.take(i as int) =~= its);
        Ok(record)
    }
}

/// The shell that setup is written for.
#[derive(Debug, Clone, Copy, PartialEq, Eq, Structural)]
pub enum Shell {
    Bash,
}

impl Shell {
    /// `bash` or `sh`.
    pub fn parse(s: &str) -> (r: Result<Shell, String>)
        ensures
            r is Ok <==> (s@ == "bash"@ || s@ == "sh"@),
            r matches Ok(shell) ==> shell == Shell::Bash,
            r matches Err(e) ==> e@ == "failed to parse shell type: "@ + s@,
    {
        if crate::text::text_is(s, "bash") || crate::text::text_is(s, "sh") {
            Ok(Shell::Bash)
        } else {
            let mut text = crate::text::chars_of("failed to parse shell type: ");
            let mut rest = crate::text::chars_of(s);
            text.append(&mut rest);
            Err(string_from_chars(text.as_slice()))
        }
    }
}

impl std::str::FromStr for Shell {
    type Err = String;

    fn from_str(s: &str) -> (r: Result<Shell, String>)
        ensures
            r is Ok <==> (s@ == "bash"@ || s@ == "sh"@),
            r matches Ok(shell) ==> shell == Shell::Bash,
            r matches Err(e) ==> e@ == "failed to parse shell type: "@ + s@,
    {
        Shell::parse(s)
    }
}

} // verus!
