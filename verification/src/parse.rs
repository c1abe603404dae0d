//! Reading a typed input line as a non-negative integer: surrounding
//! whitespace is ignored, one leading `+` is allowed, and the digits must be
//! decimal. Anything else is malformed.

use vstd::prelude::*;
use vstd::string::StrSliceExecFns;

verus! {

/// Whitespace characters that may surround the typed digits: the Unicode
/// white-space set that line trimming removes.
pub open spec fn is_space(c: char) -> bool {
    ||| c == ' '
    ||| c == '\t'
    ||| c == '\n'
    ||| c == '\r'
    ||| c == '\u{b}'
    ||| c == '\u{c}'
    ||| c == '\u{85}'
    ||| c == '\u{a0}'
    ||| c == '\u{1680}'
    ||| ('\u{2000}' as u32) <= (c as u32) <= ('\u{200a}' as u32)
    ||| c == '\u{2028}'
    ||| c == '\u{2029}'
    ||| c == '\u{202f}'
    ||| c == '\u{205f}'
    ||| c == '\u{3000}'
}

pub open spec fn is_dec_digit(c: char) -> bool {
    ('0' as u32) <= (c as u32) && (c as u32) <= ('9' as u32)
}

pub open spec fn dec_digit_val(c: char) -> nat {
    ((c as u32) - ('0' as u32)) as nat
}

/// How many whitespace characters the text begins with.
pub open spec fn space_prefix_len(s: Seq<char>) -> nat
    decreases s.len(),
{
    if s.len() > 0 && is_space(s[0]) {
        (1 + space_prefix_len(s.drop_first())) as nat
    } else {
        0
    }
}

/// How many whitespace characters the text ends with.
pub open spec fn space_suffix_len(s: Seq<char>) -> nat
    decreases s.len(),
{
    if s.len() > 0 && is_space(s.last()) {
        (1 + space_suffix_len(s.drop_last())) as nat
    } else {
        0
    }
}

/// The text with surrounding whitespace removed.
pub open spec fn trim_of(s: Seq<char>) -> Seq<char> {
    let a = space_prefix_len(s);
    let b = space_suffix_len(s);
    if a + b <= s.len() {
        s.subrange(a as int, s.len() - b)
    } else {
        Seq::empty()
    }
}

/// The number that a sequence of decimal digits denotes.
pub open spec fn dec_val(s: Seq<char>) -> nat
    decreases s.len(),
{
    if s.len() == 0 {
        0
    } else {
        dec_val(s.drop_last()) * 10 + dec_digit_val(s.last())
    }
}

pub open spec fn all_dec_digits(s: Seq<char>) -> bool {
    forall|i: int| 0 <= i < s.len() ==> is_dec_digit(#[trigger] s[i])
}

/// The digit body of an input line: whitespace trimmed, one optional leading
/// `+` sign removed.
pub open spec fn digit_body_of(s: Seq<char>) -> Seq<char> {
    let t = trim_of(s);
    if t.len() > 0 && t[0] == '+' {
        t.drop_first()
    } else {
        t
    }
}

/// What the line denotes as a non-negative integer, if it is well formed.
pub open spec fn choice_of(s: Seq<char>) -> Option<nat> {
    let u = digit_body_of(s);
    if u.len() > 0 && all_dec_digits(u) {
        Some(dec_val(u))
    } else {
        None
    }
}

proof fn lemma_space_prefix(s: Seq<char>, n: int)
    requires
        0 <= n <= s.len(),
        forall|k: int| 0 <= k < n ==> is_space(#[trigger] s[k]),
        n == s.len() || !is_space(s[n]),
    ensures
        space_prefix_len(s) == n,
    decreases n,
{
    if n == 0 {
    } else {
        assert(is_space(s[0]));
        lemma_space_prefix(s.drop_first(), n - 1);
    }
}

proof fn lemma_space_suffix(s: Seq<char>, n: int)
    requires
        0 <= n <= s.len(),
        forall|k: int| s.len() - n <= k < s.len() ==> is_space(#[trigger] s[k]),
        n == s.len() || !is_space(s[s.len() - n - 1]),
    ensures
        space_suffix_len(s) == n,
    decreases n,
{
    if n == 0 {
    } else {
        assert(is_space(s.last()));
        lemma_space_suffix(s.drop_last(), n - 1);
    }
}

/// Appending further digits never makes the denoted number smaller.
proof fn lemma_dec_val_prefix(s: Seq<char>, j: int)
    requires
        0 <= j <= s.len(),
    ensures
        dec_val(s.subrange(0, j)) <= dec_val(s),
    decreases s.len() - j,
{
    if j == s.len() {
        assert(s.subrange(0, j) =~= s);
    } else {
        lemma_dec_val_prefix(s, j + 1);
        let p = s.subrange(0, j + 1);
        assert(p.drop_last() =~= s.subrange(0, j));
        assert(dec_val(p) == dec_val(s.subrange(0, j)) * 10 + dec_digit_val(s[j]));
    }
}

fn is_space_char(c: char) -> (r: bool)
    ensures
        r == is_space(c),
{
    let u: u32 = c as u32;
    c == ' ' || c == '\t' || c == '\n' || c == '\r' || c == '\u{b}' || c == '\u{c}'
        || c == '\u{85}' || c == '\u{a0}' || c == '\u{1680}' || (('\u{2000}' as u32) <= u && u
        <= ('\u{200a}' as u32)) || c == '\u{2028}' || c == '\u{2029}' || c == '\u{202f}' || c
        == '\u{205f}' || c == '\u{3000}'
}

/// Parses one input line as a non-negative integer, as `choice_of` states it.
/// `None` also covers a well-formed number that does not fit in `usize`.
pub fn parse_choice(line: &str) -> (r: Option<usize>)
    ensures
        match r {
            Some(v) => choice_of(line@) == Some(v as nat),
            None => choice_of(line@) is None || choice_of(line@)->0 > usize::MAX,
        },
{
    let len = line.unicode_len();
    let mut start: usize = 0;
    while start < len && is_space_char(line.get_char(start))
        invariant
            0 <= start <= len,
            len == line@.len(),
            forall|k: int| 0 <= k < start ==> is_space(#[trigger] line@[k]),
        decreases len - start,
    {
        start += 1;
    }
    proof {
        lemma_space_prefix(line@, start as int);
    }
    if start == len {
        // All whitespace: the trimmed line is empty.
        proof {
            lemma_space_suffix(line@, len as int);
            assert(trim_of(line@).len() == 0);
        }
        return None;
    }
    let mut end: usize = len;
    while end > start && is_space_char(line.get_char(end - 1))
        invariant
            start <= end <= len,
            len == line@.len(),
            start < len && !is_space(line@[start as int]),
            forall|k: int| end <= k < len ==> is_space(#[trigger] line@[k]),
        decreases end,
    {
        end -= 1;
    }
    proof {
        assert(end > start);
        lemma_space_suffix(line@, len - end);
        assert(trim_of(line@) =~= line@.subrange(start as int, end as int));
    }
    let mut i = start;
    if line.get_char(i) == '+' {
        i += 1;
    }
    proof {
        assert(digit_body_of(line@) =~= line@.subrange(i as int, end as int));
    }
    if i == end {
        // A bare sign with no digits.
        return None;
    }
    let ghost body = line@.subrange(i as int, end as int);
    let mut acc: usize = 0;
    let mut j = i;
    while j < end
        invariant
            i <= j <= end <= len,
            i < end,
            len == line@.len(),
            body == line@.subrange(i as int, end as int),
            digit_body_of(line@) == body,
            forall|k: int| i <= k < j ==> is_dec_digit(#[trigger] line@[k]),
            acc == dec_val(line@.subrange(i as int, j as int)),
        decreases end - j,
    {
        let c = line.get_char(j);
        let u: u32 = c as u32;
        if u < ('0' as u32) || u > ('9' as u32) {
            // A non-digit inside the body: malformed.
            proof {
                assert(!is_dec_digit(body[j - i]));
            }
            return None;
        }
        let d: usize = (u - ('0' as u32)) as usize;
        proof {
            assert(line@.subrange(i as int, j + 1).drop_last() =~= line@.subrange(
                i as int,
                j as int,
            ));
            assert(dec_val(line@.subrange(i as int, j + 1)) == acc * 10 + d);
        }
        if acc > (usize::MAX - d) / 10 {
            // The number cannot fit in `usize`.
            proof {
                let m = usize::MAX as int;
                assert(acc * 10 + d > m) by (nonlinear_arith)
                    requires
                        acc > (m - d) / 10,
                        0 <= d <= 9,
                        m >= 10,
                        acc >= 0,
                ;
                if all_dec_digits(body) {
                    lemma_dec_val_prefix(body, j + 1 - i);
                    assert(body.subrange(0, j + 1 - i) =~= line@.subrange(i as int, j + 1));
                }
            }
            return None;
        }
        acc = acc * 10 + d;
        j += 1;
    }
    proof {
        assert(body =~= line@.subrange(i as int, j as int));
        assert(forall|k: int| 0 <= k < body.len() ==> is_dec_digit(#[trigger] body[k]));
    }
    Some(acc)
}

} // verus!
