//! Framing of messages on a stream: each message comes after a line that holds its length
//! in bytes, in decimal.
use vstd::prelude::*;
use crate::text::{
    all_digits, chars_of, decimal, decimal_chars, is_digit_spec, parse_u64, parse_u64_spec,
    slice_to_vec, string_from_chars, trim, trim_spec, law_decimal_parse_roundtrip,
    lemma_decimal_all_digits, lemma_trim_digit_line,
};

verus! {

/// What the line read where a length is expected says.
#[derive(Debug, Clone, Copy, PartialEq, Eq)]
pub enum FrameSize {
    /// Nothing was read: the stream has ended.
    End,
    /// The message that follows has this many bytes.
    Size(usize),
    /// The line is not a length.
    Invalid,
}

/// What `usize::from_str` accepts and returns.
pub open spec fn parse_usize_spec(s: Seq<char>) -> Option<usize> {
    match parse_u64_spec(s) {
        Some(n) => if n <= usize::MAX {
            Some(n as usize)
        } else {
            None
        },
        None => None,
    }
}

/// The meaning of a length line: the end of the stream where it is empty, else the number
/// that it holds between surrounding whitespace.
pub open spec fn frame_size_spec(line: Seq<char>) -> FrameSize {
    if line.len() == 0 {
        FrameSize::End
    } else {
        match parse_usize_spec(trim_spec(line)) {
            Some(n) => FrameSize::Size(n),
            None => FrameSize::Invalid,
        }
    }
}

/// The line written before a message of `len` bytes.
pub open spec fn frame_header_spec(len: usize) -> Seq<char> {
    decimal(len as nat).push('\n')
}

/// Reads a length line.
pub fn frame_size(line: &str) -> (r: FrameSize)
    ensures
        r == frame_size_spec(line@),
{
    let chars = chars_of(line);
    if chars.len() == 0 {
        return FrameSize::End;
    }
    let digits = trim(chars.as_slice());
    match parse_u64(digits.as_slice()) {
        Some(n) => if n <= usize::MAX as u64 {
            FrameSize::Size(n as usize)
        } else {
            FrameSize::Invalid
        },
        None => FrameSize::Invalid,
    }
}

/// The line to write before a message of `len` bytes.
pub fn frame_header(len: usize) -> (r: String)
    ensures
        r@ == frame_header_spec(len),
{
    let mut chars = decimal_chars(len as u64);
    chars.push('\n');
    string_from_chars(chars.as_slice())
}

/// The line written before a message is read back as the message's length.
pub proof fn law_frame_header_size(len: usize)
    ensures
        frame_size_spec(frame_header_spec(len)) == FrameSize::Size(len),
{
    lemma_decimal_all_digits(len as nat);
    lemma_trim_digit_line(decimal(len as nat));
    law_decimal_parse_roundtrip(len as u64);
}

/// The bytes of an ASCII text.
pub open spec fn ascii_bytes(s: Seq<char>) -> Seq<u8> {
    s.map_values(|c: char| c as u8)
}

/// Bytes read as characters, each the character of its value.
pub open spec fn byte_chars(b: Seq<u8>) -> Seq<char> {
    b.map_values(|x: u8| x as char)
}

/// Messages written one after another, each after its length line.
pub open spec fn frames_encode(ms: Seq<Seq<u8>>) -> Seq<u8>
    decreases ms.len(),
{
    if ms.len() == 0 {
        Seq::empty()
    } else {
        ascii_bytes(frame_header_spec(ms[0].len() as usize)) + ms[0] + frames_encode(ms.skip(1))
    }
}

/// Whether `i` is the position of the first line feed.
pub open spec fn first_newline(s: Seq<u8>, i: int) -> bool {
    &&& 0 <= i < s.len()
    &&& s[i] == 10
    &&& forall|j: int| 0 <= j < i ==> s[j] != 10
}

/// Length of the first line, its line feed included; all of it where there is none.
pub open spec fn line_len(s: Seq<u8>) -> int {
    if exists|i: int| first_newline(s, i) {
        (choose|i: int| first_newline(s, i)) + 1
    } else {
        s.len() as int
    }
}

/// The first line of a stream that is not empty is not empty, and lies within it.
pub proof fn lemma_line_len_bounds(s: Seq<u8>)
    requires
        s.len() > 0,
    ensures
        1 <= line_len(s) <= s.len(),
{
    if exists|i: int| first_newline(s, i) {
        let i = choose|i: int| first_newline(s, i);
        assert(first_newline(s, i));
    }
}

proof fn lemma_line_len_at(s: Seq<u8>, i: int)
    requires
        first_newline(s, i),
    ensures
        line_len(s) == i + 1,
{
    let k = choose|k: int| first_newline(s, k);
    assert(first_newline(s, k));
    if k < i {
        assert(s[k] != 10);
    } else if k > i {
        assert(s[i] != 10);
    }
}

/// The text that `String::from_utf8` reads from bytes that are UTF-8.
pub uninterp spec fn utf8_text(b: Seq<u8>) -> Option<Seq<char>>;

/// `String::from_utf8`: claimed to give the text the bytes encode, as `utf8_text` names it,
/// and nothing where they are not UTF-8.
#[verifier::external_body]
fn text_of_utf8(bytes: Vec<u8>) -> (r: Option<String>)
    ensures
        match r {
            Some(t) => utf8_text(bytes@) == Some(t@),
            None => utf8_text(bytes@) is None,
        },
{
    String::from_utf8(bytes).ok()
}

/// The text of a line: the characters of its bytes where all are ASCII, else the text they
/// encode in UTF-8, if they do.
pub open spec fn line_text(line: Seq<u8>) -> Option<Seq<char>> {
    if forall|i: int| 0 <= i < line.len() ==> line[i] < 128 {
        Some(byte_chars(line))
    } else {
        utf8_text(line)
    }
}

/// The messages of a stream: each after a line that holds its length; none where a line is
/// not text, is not a length, or announces more bytes than follow.
pub open spec fn frames_decode(s: Seq<u8>) -> Option<Seq<Seq<u8>>>
    decreases s.len(),
{
    if s.len() == 0 {
        Some(Seq::empty())
    } else {
        let n = line_len(s);
        match line_text(s.take(n)) {
            None => None,
            Some(text) => match frame_size_spec(text) {
                FrameSize::Size(k) => if n + k <= s.len() {
                    proof {
                        lemma_line_len_bounds(s);
                    }
                    match frames_decode(s.skip(n + k)) {
                        Some(rest) => Some(seq![s.subrange(n, n + k)] + rest),
                        None => None,
                    }
                } else {
                    None
                },
                _ => None,
            }
        }
    }
}

/// The messages that came before, followed by those of the rest of the stream.
pub open spec fn after(done: Seq<Seq<u8>>, rest: Option<Seq<Seq<u8>>>) -> Option<Seq<Seq<u8>>> {
    match rest {
        Some(r) => Some(done + r),
        None => None,
    }
}

/// Splits a stream into its messages, each read after the line that holds its length.
pub fn decode_frames(stream: &[u8]) -> (r: Option<Vec<Vec<u8>>>)
    ensures
        match r {
            Some(v) => frames_decode(stream@) == Some(v@.map_values(|m: Vec<u8>| m@)),
            None => frames_decode(stream@) is None,
        },
{
    let mut out: Vec<Vec<u8>> = Vec::new();
    let mut pos: usize = 0;
    let ghost whole = stream@;
    assert(whole.skip(0) =~= whole);
    assert(out@.map_values(|m: Vec<u8>| m@) =~= Seq::<Seq<u8>>::empty());
    while pos < stream.len()
        invariant
            whole == stream@,
            0 <= pos <= whole.len(),
            frames_decode(whole) == after(out@.map_values(|m: Vec<u8>| m@), frames_decode(whole.skip(pos as int))),
        decreases whole.len() - pos,
    {
        let ghost rest = whole.skip(pos as int);
        let mut j = pos;
        while j < stream.len() && stream[j] != 10
            invariant
                whole == stream@,
                pos <= j <= whole.len(),
                forall|k: int| pos <= k < j ==> whole[k] != 10,
            decreases whole.len() - j,
        {
            j = j + 1;
        }
        let end = if j < stream.len() {
            j + 1
        } else {
            j
        };
        proof {
            if j < whole.len() {
                assert forall|k: int| 0 <= k < j - pos implies rest[k] != 10 by {
                    assert(rest[k] == whole[pos + k]);
                }
                assert(first_newline(rest, j - pos));
                lemma_line_len_at(rest, j - pos);
            } else {
                assert forall|i: int| !first_newline(rest, i) by {
                    if 0 <= i < rest.len() {
                        assert(rest[i] == whole[pos + i]);
                    }
                }
            }
        }
        let ghost n = end - pos;
        assert(n == line_len(rest));
        let mut ascii = true;
        let mut k = pos;
        while k < end
            invariant
                whole == stream@,
                pos <= k <= end <= whole.len(),
                ascii <==> forall|i: int| pos <= i < k ==> whole[i] < 128,
            decreases end - k,
        {
            if stream[k] >= 128 {
                ascii = false;
            }
            k = k + 1;
        }
        let bytes = slice_to_vec(stream, pos, end);
        assert(rest.take(n) =~= whole.subrange(pos as int, end as int));
        assert(bytes@ == rest.take(n));
        let text = if ascii {
            let mut line: Vec<char> = Vec::new();
            let mut k: usize = 0;
            while k < bytes.len()
                invariant
                    0 <= k <= bytes@.len(),
                    line@ == byte_chars(bytes@.take(k as int)),
                decreases bytes@.len() - k,
            {
                line.push(bytes[k] as char);
                k = k + 1;
                assert(line@ =~= byte_chars(bytes@.take(k as int)));
            }
            assert(bytes@.take(k as int) =~= bytes@);
            assert forall|i: int| 0 <= i < bytes@.len() implies bytes@[i] < 128 by {
                assert(bytes@[i] == whole[pos + i]);
            }
            string_from_chars(line.as_slice())
        } else {
            proof {
                let i = choose|i: int| pos <= i < end && !(whole[i] < 128);
                assert(bytes@[i - pos] == whole[i]);
            }
            match text_of_utf8(bytes) {
                Some(t) => t,
                None => {
                    return None;
                },
            }
        };
        assert(line_text(rest.take(n)) == Some(text@));
        match frame_size(text.as_str()) {
            FrameSize::Size(size) => {
                if size > stream.len() - end {
                    return None;
                }
                let message = slice_to_vec(stream, end, end + size);
                proof {
                    assert(message@ =~= rest.subrange(n, n + size));
                    assert(whole.skip(end + size) =~= rest.skip(n + size));
                    assert(out@.map_values(|m: Vec<u8>| m@).push(message@) =~= out@.map_values(
                        |m: Vec<u8>| m@,
                    ) + seq![message@]);
                }
                let ghost before = out@.map_values(|m: Vec<u8>| m@);
                out.push(message);
                proof {
                    assert(out@.map_values(|m: Vec<u8>| m@) =~= before.push(message@));
                    match frames_decode(whole.skip(end + size)) {
                        Some(r) => {
                            assert(before + (seq![message@] + r) =~= before.push(message@) + r);
                        },
                        None => {},
                    }
                }
                pos = end + size;
            },
            _ => {
                return None;
            },
        }
    }
    proof {
        assert(whole.skip(pos as int) =~= Seq::<u8>::empty());
        assert(out@.map_values(|m: Vec<u8>| m@) + Seq::<Seq<u8>>::empty() =~= out@.map_values(
            |m: Vec<u8>| m@,
        ));
    }
    Some(out)
}

/// The bytes of a length line: digits and a line feed, all ASCII.
proof fn lemma_header_bytes(len: usize)
    ensures
        ({
            let h = frame_header_spec(len);
            &&& ascii_bytes(h).len() == h.len()
            &&& h.len() >= 1
            &&& byte_chars(ascii_bytes(h)) == h
            &&& first_newline(ascii_bytes(h), h.len() - 1)
            &&& forall|i: int| 0 <= i < h.len() ==> #[trigger] ascii_bytes(h)[i] < 128
        }),
{
    let h = frame_header_spec(len);
    let d = decimal(len as nat);
    lemma_decimal_all_digits(len as nat);
    assert(h == d.push('\n'));
    let b = ascii_bytes(h);
    assert forall|i: int| 0 <= i < h.len() implies #[trigger] b[i] < 128 && (b[i] as char) == h[i] && (
    i < h.len() - 1 ==> b[i] != 10) by {
        if i < h.len() - 1 {
            assert(h[i] == d[i]);
            assert(is_digit_spec(d[i]));
        }
    }
    assert(byte_chars(b) =~= h);
}

/// Messages written one after another, each after its length line, are read back as the
/// same messages, in order.
pub proof fn law_frames_roundtrip(ms: Seq<Seq<u8>>)
    requires
        forall|i: int| 0 <= i < ms.len() ==> #[trigger] ms[i].len() <= usize::MAX,
    ensures
        frames_decode(frames_encode(ms)) == Some(ms),
    decreases ms.len(),
{
    if ms.len() > 0 {
        let m = ms[0];
        let len = m.len() as usize;
        let h = ascii_bytes(frame_header_spec(len));
        let rest = frames_encode(ms.skip(1));
        let s = frames_encode(ms);
        assert(s == h + m + rest);
        lemma_header_bytes(len);
        let n = h.len() as int;
        assert(first_newline(s, n - 1)) by {
            assert(s[n - 1] == h[n - 1]);
            assert forall|j: int| 0 <= j < n - 1 implies s[j] != 10 by {
                assert(s[j] == h[j]);
            }
        }
        lemma_line_len_at(s, n - 1);
        assert(s.take(n) =~= h);
        law_frame_header_size(len);
        assert(s.subrange(n, n + len) =~= m);
        assert(s.skip(n + len) =~= rest);
        assert forall|i: int| 0 <= i < ms.skip(1).len() implies #[trigger] ms.skip(1)[i].len() <= usize::MAX by {
            assert(ms.skip(1)[i] == ms[i + 1]);
        }
        law_frames_roundtrip(ms.skip(1));
        assert(seq![m] + ms.skip(1) =~= ms);
    }
}

} // verus!
