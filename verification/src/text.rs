//! Small helpers on text.

use vstd::prelude::*;
use vstd::string::{StrSliceExecFns, StringExecFns};
use vstd::utf8::{decode_utf8, encode_utf8, valid_utf8};

verus! {

/// Whether a character is white space: whether it has the Unicode property
/// White_Space, which is what `char::is_whitespace` of std goes by.
pub open spec fn is_white_space(c: char) -> bool {
    let n = c as u32;
    ||| 0x09 <= n <= 0x0D
    ||| n == 0x20
    ||| n == 0x85
    ||| n == 0xA0
    ||| n == 0x1680
    ||| 0x2000 <= n <= 0x200A
    ||| n == 0x2028
    ||| n == 0x2029
    ||| n == 0x202F
    ||| n == 0x205F
    ||| n == 0x3000
}

/// A text without the white space at its start.
pub open spec fn str_trimmed_start(text: Seq<char>) -> Seq<char>
    decreases text.len(),
{
    if text.len() > 0 && is_white_space(text[0]) {
        str_trimmed_start(text.skip(1))
    } else {
        text
    }
}

/// A text without the white space at its end.
pub open spec fn str_trimmed_end(text: Seq<char>) -> Seq<char>
    decreases text.len(),
{
    if text.len() > 0 && is_white_space(text.last()) {
        str_trimmed_end(text.drop_last())
    } else {
        text
    }
}

/// A text without the white space at its start and end.
pub open spec fn str_trimmed(text: Seq<char>) -> Seq<char> {
    str_trimmed_end(str_trimmed_start(text))
}

/// A text that neither starts nor ends with white space is trimmed already.
pub proof fn lemma_trimmed_already(text: Seq<char>)
    requires
        text.len() > 0 ==> !is_white_space(text[0]) && !is_white_space(text.last()),
    ensures
        str_trimmed(text) == text,
        str_trimmed_start(text) == text,
{
}

/// The number that a decimal digit stands for.
pub open spec fn decimal_digit_value(c: char) -> Option<nat> {
    if 48 <= c as u32 <= 57 {
        Some((c as u32 - 48) as nat)
    } else {
        None
    }
}

/// The number that a run of decimal digits spells, the empty run spelling 0;
/// nothing where anything but a digit is in it.
pub open spec fn decimal_value(digits: Seq<char>) -> Option<nat>
    decreases digits.len(),
{
    if digits.len() == 0 {
        Some(0)
    } else {
        match (decimal_value(digits.drop_last()), decimal_digit_value(digits.last())) {
            (Some(v), Some(d)) => Some(10 * v + d),
            _ => None,
        }
    }
}

/// The number that a text spells in decimal, if it spells one that fits 64
/// bits: a plus sign may come first, at least one digit has to follow, and
/// nothing else may.
pub open spec fn decimal_u64(text: Seq<char>) -> Option<u64> {
    let digits = if text.len() > 0 && text[0] == '+' {
        text.skip(1)
    } else {
        text
    };
    if digits.len() == 0 {
        None
    } else {
        match decimal_value(digits) {
            Some(v) => if v <= u64::MAX {
                Some(v as u64)
            } else {
                None
            },
            None => None,
        }
    }
}

/// Bytes read as text, with every stretch that is no UTF-8 replaced by the
/// replacement character: what `String::from_utf8_lossy` of std returns.
pub uninterp spec fn utf8_lossy_text(bytes: Seq<u8>) -> Seq<char>;

/// `bytes` read as text, with what is no UTF-8 replaced.
///
/// Trusted: `String::from_utf8_lossy` of std. Bytes that are UTF-8 are read
/// as they are.
#[verifier::external_body]
pub(crate) fn utf8_lossy(bytes: &[u8]) -> (text: String)
    ensures
        text@ == utf8_lossy_text(bytes@),
        valid_utf8(bytes@) ==> text@ == decode_utf8(bytes@),
{
    String::from_utf8_lossy(bytes).into_owned()
}

/// Whether `c` is white space.
pub fn is_whitespace(c: char) -> (yes: bool)
    ensures
        yes == is_white_space(c),
{
    let n: u32 = c as u32;
    (0x09 <= n && n <= 0x0D) || n == 0x20 || n == 0x85 || n == 0xA0 || n == 0x1680 || (0x2000 <= n
        && n <= 0x200A) || n == 0x2028 || n == 0x2029 || n == 0x202F || n == 0x205F || n == 0x3000
}

/// How many characters of white space `text` starts with.
fn leading_white_space(text: &str) -> (i: usize)
    ensures
        i <= text@.len(),
        str_trimmed_start(text@) == text@.skip(i as int),
{
    let n = text.unicode_len();
    let mut i: usize = 0;
    let mut done = false;
    proof {
        assert(text@.skip(0) =~= text@);
    }
    while i < n && !done
        invariant
            i <= n,
            n == text@.len(),
            str_trimmed_start(text@) == str_trimmed_start(text@.skip(i as int)),
            done ==> i < n && !is_white_space(text@[i as int]),
        decreases (n - i) + (if done { 0int } else { 1int }),
    {
        if is_whitespace(text.get_char(i)) {
            proof {
                assert(text@.skip(i as int).skip(1) =~= text@.skip(i + 1));
            }
            i = i + 1;
        } else {
            done = true;
        }
    }
    i
}

/// `text` without the white space at its start and end.
pub fn trim(text: &str) -> (trimmed: String)
    ensures
        trimmed@ == str_trimmed(text@),
{
    let n = text.unicode_len();
    let i = leading_white_space(text);
    let mut j: usize = n;
    let mut done = false;
    proof {
        assert(text@.subrange(i as int, n as int) =~= text@.skip(i as int));
    }
    while j > i && !done
        invariant
            i <= j <= n,
            n == text@.len(),
            str_trimmed(text@) == str_trimmed_end(text@.subrange(i as int, j as int)),
            done ==> j > i && !is_white_space(text@[j - 1]),
        decreases (j - i) + (if done { 0int } else { 1int }),
    {
        if is_whitespace(text.get_char(j - 1)) {
            proof {
                let part = text@.subrange(i as int, j as int);
                assert(part.last() == text@[j - 1]);
                assert(part.drop_last() =~= text@.subrange(i as int, j - 1));
            }
            j = j - 1;
        } else {
            done = true;
        }
    }
    proof {
        let part = text@.subrange(i as int, j as int);
        if j > i {
            assert(part.last() == text@[j - 1]);
        }
    }
    text.substring_char(i, j).to_owned()
}

/// `text` without the white space at its start.
pub fn trim_start(text: &str) -> (trimmed: String)
    ensures
        trimmed@ == str_trimmed_start(text@),
{
    let n = text.unicode_len();
    let i = leading_white_space(text);
    proof {
        assert(text@.subrange(i as int, n as int) =~= text@.skip(i as int));
    }
    text.substring_char(i, n).to_owned()
}

/// The number that the decimal digit `c` stands for.
pub fn digit_of(c: char) -> (d: Option<u64>)
    ensures
        match d {
            Some(x) => decimal_digit_value(c) == Some(x as nat),
            None => decimal_digit_value(c) is None,
        },
{
    let n: u32 = c as u32;
    if 48 <= n && n <= 57 {
        Some((n - 48) as u64)
    } else {
        None
    }
}

/// Where a run of digits spells a number, so does every start of it, and
/// none of them a larger one.
pub proof fn lemma_decimal_prefix(digits: Seq<char>, k: int)
    requires
        0 <= k <= digits.len(),
        decimal_value(digits) is Some,
    ensures
        decimal_value(digits.take(k)) is Some,
        decimal_value(digits.take(k))->0 <= decimal_value(digits)->0,
    decreases digits.len(),
{
    if k == digits.len() {
        assert(digits.take(k) =~= digits);
    } else {
        lemma_decimal_prefix(digits.drop_last(), k);
        assert(digits.drop_last().take(k) =~= digits.take(k));
    }
}

/// The number that `text` spells in decimal, if it spells one that fits 64
/// bits.
pub fn parse_u64(text: &str) -> (n: Option<u64>)
    ensures
        n == decimal_u64(text@),
{
    let len = text.unicode_len();
    let start: usize = if len > 0 && text.get_char(0) == '+' {
        1
    } else {
        0
    };
    if start == len {
        return None;
    }
    let ghost digits = if text@.len() > 0 && text@[0] == '+' {
        text@.skip(1)
    } else {
        text@
    };
    let mut v: u64 = 0;
    let mut i: usize = start;
    proof {
        assert(text@.skip(0) =~= text@);
        assert(digits.take(0) =~= Seq::<char>::empty());
    }
    while i < len
        invariant
            start <= i <= len,
            start < len,
            len == text@.len(),
            digits == text@.skip(start as int),
            digits == if text@.len() > 0 && text@[0] == '+' {
                text@.skip(1)
            } else {
                text@
            },
            decimal_value(digits.take(i - start)) == Some(v as nat),
        decreases len - i,
    {
        let c = text.get_char(i);
        proof {
            let upto = digits.take(i + 1 - start);
            assert(upto.drop_last() =~= digits.take(i - start));
            assert(upto.last() == c);
            assert(decimal_value(upto) == match (
                decimal_value(upto.drop_last()),
                decimal_digit_value(upto.last()),
            ) {
                (Some(v), Some(d)) => Some(10 * v + d),
                _ => None,
            });
            if decimal_value(digits) is Some {
                lemma_decimal_prefix(digits, i + 1 - start);
            }
        }
        let d = match digit_of(c) {
            Some(d) => d,
            None => {
                return None;
            },
        };
        if v > (u64::MAX - d) / 10 {
            return None;
        }
        v = v * 10 + d;
        i = i + 1;
    }
    proof {
        assert(digits.take(len - start) =~= digits);
    }
    Some(v)
}

/// Whether the text starts with a slash.
pub open spec fn starts_with_slash(text: Seq<char>) -> bool {
    text.len() > 0 && text[0] == '/'
}

/// Whether `text` starts with a slash.
pub fn has_leading_slash(text: &str) -> (yes: bool)
    ensures
        yes == starts_with_slash(text@),
{
    text.unicode_len() > 0 && text.get_char(0) == '/'
}

/// Whether `a` and `b` are the same text.
pub fn same_text(a: &str, b: &str) -> (same: bool)
    ensures
        same == (a@ == b@),
{
    let same = crate::bytes::bytes_eq(a.as_bytes(), b.as_bytes());
    proof {
        vstd::utf8::encode_utf8_decode_utf8(a@);
        vstd::utf8::encode_utf8_decode_utf8(b@);
    }
    same
}

/// A byte with an upper-case ASCII letter made lower-case.
pub open spec fn ascii_lower(b: u8) -> u8 {
    if 65 <= b <= 90 {
        (b + 32) as u8
    } else {
        b
    }
}

/// Bytes with their upper-case ASCII letters made lower-case.
pub open spec fn ascii_folded(bytes: Seq<u8>) -> Seq<u8> {
    Seq::new(bytes.len(), |i: int| ascii_lower(bytes[i]))
}

/// Whether two texts are the same but for the case of their ASCII letters.
pub open spec fn same_ignoring_ascii_case(a: Seq<char>, b: Seq<char>) -> bool {
    ascii_folded(encode_utf8(a)) == ascii_folded(encode_utf8(b))
}

/// Whether `a` and `b` are the same but for the case of their ASCII letters.
pub fn eq_ignore_ascii_case(a: &str, b: &str) -> (same: bool)
    ensures
        same == same_ignoring_ascii_case(a@, b@),
{
    let x = a.as_bytes();
    let y = b.as_bytes();
    if x.len() != y.len() {
        proof {
            assert(ascii_folded(x@).len() != ascii_folded(y@).len());
        }
        return false;
    }
    let mut i: usize = 0;
    while i < x.len()
        invariant
            i <= x.len(),
            x.len() == y.len(),
            x@ == encode_utf8(a@),
            y@ == encode_utf8(b@),
            forall|j: int| 0 <= j < i ==> ascii_lower(x@[j]) == ascii_lower(y@[j]),
        decreases x.len() - i,
    {
        let p: u8 = if 65 <= x[i] && x[i] <= 90 {
            x[i] + 32
        } else {
            x[i]
        };
        let q: u8 = if 65 <= y[i] && y[i] <= 90 {
            y[i] + 32
        } else {
            y[i]
        };
        if p != q {
            proof {
                assert(ascii_folded(x@)[i as int] != ascii_folded(y@)[i as int]);
            }
            return false;
        }
        i = i + 1;
    }
    proof {
        assert(ascii_folded(x@) =~= ascii_folded(y@));
    }
    true
}

/// Whether `needle` occurs in `hay`, not minding the case of ASCII letters.
pub open spec fn contains_ignoring_ascii_case(hay: Seq<u8>, needle: Seq<u8>) -> bool {
    exists|at: int|
        0 <= at && at + needle.len() <= hay.len() && #[trigger] ascii_folded(
            hay.subrange(at, at + needle.len()),
        ) == ascii_folded(needle)
}

/// Whether `needle` occurs in `hay`, not minding the case of ASCII letters.
pub fn contains_ignore_ascii_case(hay: &[u8], needle: &[u8]) -> (found: bool)
    ensures
        found == contains_ignoring_ascii_case(hay@, needle@),
{
    if needle.len() > hay.len() {
        return false;
    }
    if needle.len() == 0 {
        proof {
            let at: int = 0;
            assert(ascii_folded(hay@.subrange(at, at + needle@.len())) =~= ascii_folded(needle@));
        }
        return true;
    }
    let last: usize = hay.len() - needle.len();
    let mut at: usize = 0;
    while at <= last
        invariant
            at <= last + 1,
            last == hay.len() - needle.len(),
            0 < needle.len() <= hay.len(),
            forall|k: int|
                0 <= k < at ==> #[trigger] ascii_folded(hay@.subrange(k, k + needle.len()))
                    != ascii_folded(needle@),
        decreases last + 1 - at,
    {
        let mut j: usize = 0;
        let mut same = true;
        while j < needle.len()
            invariant
                j <= needle.len(),
                at <= last,
                last == hay.len() - needle.len(),
                needle.len() <= hay.len(),
                same ==> forall|k: int|
                    0 <= k < j ==> ascii_lower(hay@[at + k]) == ascii_lower(needle@[k]),
                !same ==> ascii_folded(hay@.subrange(at as int, at + needle.len()))
                    != ascii_folded(needle@),
            decreases needle.len() - j,
        {
            let p: u8 = if 65 <= hay[at + j] && hay[at + j] <= 90 {
                hay[at + j] + 32
            } else {
                hay[at + j]
            };
            let q: u8 = if 65 <= needle[j] && needle[j] <= 90 {
                needle[j] + 32
            } else {
                needle[j]
            };
            if p != q && same {
                same = false;
                proof {
                    let window = hay@.subrange(at as int, at + needle.len());
                    assert(ascii_folded(window)[j as int] != ascii_folded(needle@)[j as int]);
                }
            }
            j = j + 1;
        }
        if same {
            proof {
                let window = hay@.subrange(at as int, at + needle.len());
                assert(ascii_folded(window) =~= ascii_folded(needle@));
            }
            return true;
        }
        at = at + 1;
    }
    false
}

/// Whether `needle` occurs in `payload` read as text, with what is no UTF-8
/// replaced, not minding the case of ASCII letters.
pub open spec fn text_holds(payload: Seq<u8>, needle: Seq<u8>) -> bool {
    contains_ignoring_ascii_case(encode_utf8(utf8_lossy_text(payload)), needle)
}

/// Whether `needle` occurs in `payload` read as text, not minding the case of
/// ASCII letters. A payload that is UTF-8 is searched as it is.
pub fn holds_text(payload: &[u8], needle: &[u8]) -> (found: bool)
    ensures
        found == text_holds(payload@, needle@),
        valid_utf8(payload@) ==> found == contains_ignoring_ascii_case(payload@, needle@),
{
    let text = utf8_lossy(payload);
    proof {
        if valid_utf8(payload@) {
            vstd::utf8::decode_utf8_encode_utf8(payload@);
        }
    }
    contains_ignore_ascii_case(text.as_str().as_bytes(), needle)
}

/// `dir` and `name` as one path: `dir`, a slash, `name`.
pub open spec fn joined(dir: Seq<char>, name: Seq<char>) -> Seq<char> {
    dir + seq!['/'] + name
}

/// The path of `name` in the directory `dir`.
pub fn join_path(dir: &str, name: &str) -> (path: String)
    ensures
        path@ == joined(dir@, name@),
{
    let mut path = String::from_str(dir);
    path.append("/");
    path.append(name);
    proof {
        reveal_strlit("/");
        assert("/"@ =~= seq!['/']);
    }
    path
}

} // verus!
