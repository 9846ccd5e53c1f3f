//! Text functions of the registry.

use vstd::prelude::*;
use vstd::string::*;

use crate::exec::arith;
use crate::text;

verus! {

/// How many characters of white space `s` begins with, from `i` on.
pub open spec fn blank_end(s: Seq<char>, i: int) -> int
    decreases s.len() - i,
{
    if 0 <= i < s.len() && text::is_whitespace(s[i]) {
        blank_end(s, i + 1)
    } else {
        i
    }
}

/// Where the white space that ends at `j` begins.
pub open spec fn blank_start(s: Seq<char>, j: int) -> int
    decreases j,
{
    if 0 < j <= s.len() && text::is_whitespace(s[j - 1]) {
        blank_start(s, j - 1)
    } else {
        j
    }
}

/// `s` without the white space in front.
pub open spec fn trimmed_start(s: Seq<char>) -> Seq<char> {
    s.subrange(blank_end(s, 0), s.len() as int)
}

/// `s` without the white space behind.
pub open spec fn trimmed_end(s: Seq<char>) -> Seq<char> {
    s.subrange(0, blank_start(s, s.len() as int))
}

/// `s` without the white space at its ends.
pub open spec fn trimmed(s: Seq<char>) -> Seq<char> {
    trimmed_end(trimmed_start(s))
}

pub(crate) fn trim_start(s: &str) -> (r: String)
    ensures
        r@ == trimmed_start(s@),
{
    let chars = text::chars_of(s);
    let mut i: usize = 0;
    while i < chars.len() && text::char_is_whitespace(chars[i])
        invariant
            i <= chars.len(),
            chars@ == s@,
            blank_end(s@, 0) == blank_end(s@, i as int),
        decreases chars.len() - i,
    {
        i += 1;
    }
    text::text_of(&chars, i, chars.len())
}

pub(crate) fn trim_end(s: &str) -> (r: String)
    ensures
        r@ == trimmed_end(s@),
{
    let chars = text::chars_of(s);
    let mut j: usize = chars.len();
    while j > 0 && text::char_is_whitespace(chars[j - 1])
        invariant
            j <= chars.len(),
            chars@ == s@,
            blank_start(s@, s@.len() as int) == blank_start(s@, j as int),
        decreases j,
    {
        j -= 1;
    }
    text::text_of(&chars, 0, j)
}

pub(crate) fn trim(s: &str) -> (r: String)
    ensures
        r@ == trimmed(s@),
{
    trim_end(trim_start(s).as_str())
}

// --- Splitting ------------------------------------------------------------------------------------

/// The parts of `s[from..]` between occurrences of the non-empty `sep`, of
/// which none stands between `from` and `i`.
pub open spec fn parts_from(s: Seq<char>, sep: Seq<char>, from: int, i: int) -> Seq<Seq<char>>
    decreases s.len() - i,
{
    if i < 0 || sep.len() == 0 || i + sep.len() > s.len() {
        seq![s.subrange(from, s.len() as int)]
    } else if arith::stands_at(s, sep, i) {
        seq![s.subrange(from, i)] + parts_from(
            s,
            sep,
            i + sep.len(),
            i + sep.len(),
        )
    } else {
        parts_from(s, sep, from, i + 1)
    }
}

/// The parts of `s` between occurrences of `sep`; the empty text occurs before
/// every character and at the end.
pub open spec fn parts_of(s: Seq<char>, sep: Seq<char>) -> Seq<Seq<char>> {
    if sep.len() == 0 {
        seq![Seq::<char>::empty()] + Seq::new(s.len(), |i: int| seq![s[i]]) + seq![
            Seq::<char>::empty(),
        ]
    } else {
        parts_from(s, sep, 0, 0)
    }
}

/// The first `n` of `parts` with `glue` between them.
pub open spec fn glued(parts: Seq<Seq<char>>, glue: Seq<char>, n: nat) -> Seq<char>
    decreases n,
{
    if n == 0 || n > parts.len() {
        Seq::empty()
    } else if n == 1 {
        parts[0]
    } else {
        glued(parts, glue, (n - 1) as nat) + glue + parts[n - 1]
    }
}

/// `s` with every occurrence of `from` replaced by `to`, from left to right.
pub open spec fn replaced(s: Seq<char>, from: Seq<char>, to: Seq<char>) -> Seq<char> {
    glued(parts_of(s, from), to, parts_of(s, from).len())
}

pub(crate) fn split(s: &str, sep: &str) -> (r: Vec<String>)
    ensures
        text::strings_view(r@) == parts_of(s@, sep@),
{
    let chars = text::chars_of(s);
    let mark = text::chars_of(sep);
    let mut out: Vec<String> = Vec::new();
    if mark.len() == 0 {
        out.push(String::new());
        let mut i: usize = 0;
        let ghost singles = Seq::new(s@.len(), |k: int| seq![s@[k]]);
        while i < chars.len()
            invariant
                i <= chars.len(),
                chars@ == s@,
                singles == Seq::new(s@.len(), |k: int| seq![s@[k]]),
                text::strings_view(out@) =~= seq![Seq::<char>::empty()] + singles.take(i as int),
            decreases chars.len() - i,
        {
            let this = text::text_of(&chars, i, i + 1);
            proof {
                assert(this@ =~= seq![s@[i as int]]);
                assert(singles.take(i + 1) =~= singles.take(i as int).push(seq![s@[i as int]]));
                assert(text::strings_view(out@.push(this)) =~= text::strings_view(out@).push(
                    this@,
                ));
            }
            out.push(this);
            i += 1;
        }
        out.push(String::new());
        proof {
            assert(singles.take(i as int) =~= singles);
            assert(text::strings_view(out@) =~= parts_of(s@, sep@));
        }
        return out;
    }
    let mut from: usize = 0;
    let mut i: usize = 0;
    proof {
        assert(parts_of(s@, sep@) =~= text::strings_view(out@) + parts_from(s@, sep@, 0, 0));
    }
    while i < chars.len() && mark.len() <= chars.len() - i
        invariant
            from <= i <= chars.len(),
            chars@ == s@,
            mark@ == sep@,
            mark@.len() > 0,
            parts_of(s@, sep@) == text::strings_view(out@) + parts_from(
                s@,
                sep@,
                from as int,
                i as int,
            ),
        decreases chars.len() - i,
    {
        if arith::stands(&chars, &mark, i) {
            let this = text::text_of(&chars, from, i);
            proof {
                let rest = parts_from(s@, sep@, i + sep@.len(), i + sep@.len());
                assert(
                    text::strings_view(out@.push(this)) =~= text::strings_view(out@).push(this@)
                );
                assert(text::strings_view(out@) + (seq![this@] + rest) =~= text::strings_view(out@).push(
                    this@,
                ) + rest);
            }
            out.push(this);
            i += mark.len();
            from = i;
        } else {
            i += 1;
        }
    }
    let last = text::text_of(&chars, from, chars.len());
    proof {
        assert(text::strings_view(out@.push(last)) =~= text::strings_view(out@) + seq![last@]);
    }
    out.push(last);
    out
}

pub(crate) fn replace(s: &str, from: &str, to: &str) -> (r: String)
    ensures
        r@ == replaced(s@, from@, to@),
{
    let parts = split(s, from);
    let mut out = String::new();
    let mut i: usize = 0;
    while i < parts.len()
        invariant
            i <= parts.len(),
            out@ == glued(text::strings_view(parts@), to@, i as nat),
        decreases parts.len() - i,
    {
        out = if i == 0 {
            parts[0].clone()
        } else {
            text::join3(out.as_str(), to, parts[i].as_str())
        };
        i += 1;
    }
    out
}

// --- Reading integers -------------------------------------------------------------------------------

/// The value of the digits `s[i..]` behind the value `read`.
pub open spec fn digits_read(s: Seq<char>, i: int, read: nat) -> Option<nat>
    decreases s.len() - i,
{
    if i < 0 || i >= s.len() {
        Some(read)
    } else if !text::is_digit(s[i]) {
        None
    } else {
        digits_read(s, i + 1, read * 10 + ((s[i] as u32) - 48) as nat)
    }
}

/// The 64-bit integer that `s` writes: an optional sign and at least one
/// digit.
pub open spec fn integer_in(s: Seq<char>) -> Option<i64> {
    let signed = s.len() > 0 && (s[0] == '-' || s[0] == '+');
    let from: int = if signed {
        1
    } else {
        0
    };
    if from >= s.len() {
        None
    } else {
        match digits_read(s, from, 0) {
            None => None,
            Some(m) => if s[0] == '-' {
                if m <= 0x8000_0000_0000_0000 {
                    Some((-(m as int)) as i64)
                } else {
                    None
                }
            } else if m <= i64::MAX {
                Some(m as i64)
            } else {
                None
            },
        }
    }
}

proof fn lemma_digits_grow(s: Seq<char>, i: int, read: nat)
    requires
        0 <= i,
    ensures
        digits_read(s, i, read) matches Some(m) ==> m >= read,
    decreases s.len() - i,
{
    if i < s.len() && text::is_digit(s[i]) {
        lemma_digits_grow(s, i + 1, read * 10 + ((s[i] as u32) - 48) as nat);
    }
}

pub(crate) fn parse_integer(s: &str) -> (r: Option<i64>)
    ensures
        r == integer_in(s@),
{
    let chars = text::chars_of(s);
    let signed: bool = chars.len() > 0 && (chars[0] == '-' || chars[0] == '+');
    let from: usize = if signed {
        1
    } else {
        0
    };
    if from >= chars.len() {
        return None;
    }
    let mut m: u64 = 0;
    let mut over: bool = false;
    let mut i: usize = from;
    while i < chars.len()
        invariant
            from <= i <= chars.len(),
            chars@ == s@,
            signed == (s@.len() > 0 && (s@[0] == '-' || s@[0] == '+')),
            from == (if signed { 1int } else { 0int }),
            from < s@.len(),
            !over ==> digits_read(s@, from as int, 0) == digits_read(s@, i as int, m as nat),
            over ==> (digits_read(s@, from as int, 0) matches Some(n) ==> n > u64::MAX),
            over ==> exists|read: nat|
                read > u64::MAX && digits_read(s@, from as int, 0) == #[trigger] digits_read(
                    s@,
                    i as int,
                    read,
                ),
        decreases chars.len() - i,
    {
        let c = chars[i];
        if !text::char_is_digit(c) {
            proof {
                if over {
                    let read = choose|read: nat|
                        read > u64::MAX && digits_read(s@, from as int, 0)
                            == #[trigger] digits_read(s@, i as int, read);
                    assert(digits_read(s@, i as int, read) is None);
                }
            }
            return None;
        }
        let d: u64 = (c as u32 - 48) as u64;
        if over {
            proof {
                let read = choose|read: nat|
                    read > u64::MAX && digits_read(s@, from as int, 0) == #[trigger] digits_read(
                        s@,
                        i as int,
                        read,
                    );
                assert(digits_read(s@, i as int, read) == digits_read(
                    s@,
                    i + 1,
                    read * 10 + d as nat,
                ));
            }
        } else if m > 1844674407370955161 || (m == 1844674407370955161 && d > 5) {
            proof {
                let read = m as nat * 10 + d as nat;
                assert(digits_read(s@, i as int, m as nat) == digits_read(s@, i + 1, read));
                lemma_digits_grow(s@, i + 1, read);
            }
            over = true;
        } else {
            m = m * 10 + d;
        }
        i += 1;
    }
    if over {
        return None;
    }
    if chars[0] == '-' {
        if m < 0x8000_0000_0000_0000 {
            Some(-(m as i64))
        } else if m == 0x8000_0000_0000_0000 {
            Some(i64::MIN)
        } else {
            None
        }
    } else if m <= 0x7fff_ffff_ffff_ffff {
        Some(m as i64)
    } else {
        None
    }
}

} // verus!
