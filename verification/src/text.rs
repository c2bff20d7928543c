//! Operations on texts: white space at the ends of a text, the lines of a
//! text, and the replacement of a pattern.

use crate::clock::{decimal, decimal_text};
use crate::names::names_of;
use vstd::prelude::*;
use vstd::string::*;

verus! {

/// Whether `c` is white space: one of the characters to which Unicode
/// gives the property `White_Space`.
pub open spec fn is_space(c: char) -> bool {
    let n = c as int;
    9 <= n <= 13 || n == 0x20 || n == 0x85 || n == 0xA0 || n == 0x1680 || 0x2000 <= n <= 0x200A
        || n == 0x2028 || n == 0x2029 || n == 0x202F || n == 0x205F || n == 0x3000
}

/// Whether `c` is white space.
pub fn is_white_space(c: char) -> (r: bool)
    ensures
        r == is_space(c),
{
    let n: u32 = c as u32;
    9 <= n && n <= 13 || n == 0x20 || n == 0x85 || n == 0xA0 || n == 0x1680 || 0x2000 <= n && n
        <= 0x200A || n == 0x2028 || n == 0x2029 || n == 0x202F || n == 0x205F || n == 0x3000
}

/// The text `s` without the white space at its start.
pub open spec fn trimmed_start(s: Seq<char>) -> Seq<char>
    decreases s.len(),
{
    if s.len() > 0 && is_space(s[0]) {
        trimmed_start(s.skip(1))
    } else {
        s
    }
}

/// The text `s` without the white space at its end.
pub open spec fn trimmed_end(s: Seq<char>) -> Seq<char>
    decreases s.len(),
{
    if s.len() > 0 && is_space(s.last()) {
        trimmed_end(s.drop_last())
    } else {
        s
    }
}

/// The text `s` without the white space at its two ends.
pub open spec fn trimmed(s: Seq<char>) -> Seq<char> {
    trimmed_end(trimmed_start(s))
}

/// The text `s` without the white space at its two ends.
pub fn trim(s: &str) -> (r: &str)
    ensures
        r@ == trimmed(s@),
{
    let n = s.unicode_len();
    let mut b: usize = 0;
    proof {
        assert(s@.skip(0) =~= s@);
    }
    while b < n && is_white_space(s.get_char(b))
        invariant
            n == s@.len(),
            b <= n,
            trimmed_start(s@) == trimmed_start(s@.skip(b as int)),
        decreases n - b,
    {
        proof {
            assert(s@.skip(b as int).skip(1) =~= s@.skip(b + 1));
        }
        b += 1;
    }
    let mut e: usize = n;
    proof {
        assert(s@.skip(b as int) =~= s@.subrange(b as int, n as int));
    }
    while e > b && is_white_space(s.get_char(e - 1))
        invariant
            n == s@.len(),
            b <= e <= n,
            trimmed_end(s@.skip(b as int)) == trimmed_end(s@.subrange(b as int, e as int)),
        decreases e,
    {
        proof {
            assert(s@.subrange(b as int, e as int).drop_last() =~= s@.subrange(b as int, e - 1));
        }
        e -= 1;
    }
    s.substring_char(b, e)
}

/// The text `s` without the white space at its end.
pub fn trim_end(s: &str) -> (r: &str)
    ensures
        r@ == trimmed_end(s@),
{
    let n = s.unicode_len();
    let mut e: usize = n;
    proof {
        assert(s@.take(n as int) =~= s@);
    }
    while e > 0 && is_white_space(s.get_char(e - 1))
        invariant
            n == s@.len(),
            e <= n,
            trimmed_end(s@) == trimmed_end(s@.take(e as int)),
        decreases e,
    {
        proof {
            assert(s@.take(e as int).drop_last() =~= s@.take(e - 1));
        }
        e -= 1;
    }
    proof {
        assert(s@.take(e as int) =~= s@.subrange(0, e as int));
    }
    s.substring_char(0, e)
}

/// `line` without the carriage return at its end, where it has one.
pub open spec fn without_return(line: Seq<char>) -> Seq<char> {
    if line.len() > 0 && line.last() == '\r' {
        line.drop_last()
    } else {
        line
    }
}

/// The lines of what `s` holds from `start` on, where no line ends
/// between `start` and `i`.
pub open spec fn lines_from(s: Seq<char>, start: int, i: int) -> Seq<Seq<char>>
    decreases s.len() - i,
{
    if i >= s.len() {
        if start < s.len() {
            seq![s.subrange(start, s.len() as int)]
        } else {
            Seq::empty()
        }
    } else if s[i] == '\n' {
        seq![without_return(s.subrange(start, i))] + lines_from(s, i + 1, i + 1)
    } else {
        lines_from(s, start, i + 1)
    }
}

/// The lines of the text `s`. A line ends with a line feed, or with a
/// carriage return and a line feed, neither of which belongs to the line.
/// What follows the last line feed is a line too, unless it is empty.
pub open spec fn lines_of(s: Seq<char>) -> Seq<Seq<char>> {
    lines_from(s, 0, 0)
}

/// The lines of the text `s`.
pub fn lines(s: &str) -> (r: Vec<String>)
    ensures
        names_of(r@) == lines_of(s@),
{
    let n = s.unicode_len();
    let mut out: Vec<String> = Vec::new();
    let mut start: usize = 0;
    let mut i: usize = 0;
    proof {
        assert(names_of(out@) + lines_from(s@, 0, 0) =~= lines_of(s@));
    }
    while i < n
        invariant
            n == s@.len(),
            start <= i <= n,
            names_of(out@) + lines_from(s@, start as int, i as int) == lines_of(s@),
        decreases n - i,
    {
        if s.get_char(i) == '\n' {
            let mut end = i;
            if end > start && s.get_char(end - 1) == '\r' {
                end -= 1;
            }
            let line = String::from_str(s.substring_char(start, end));
            proof {
                let whole = s@.subrange(start as int, i as int);
                if whole.len() > 0 {
                    assert(whole.last() == s@[i - 1]);
                    assert(whole.drop_last() =~= s@.subrange(start as int, i - 1));
                }
                assert(line@ == without_return(whole));
                assert(names_of(out@.push(line)) =~= names_of(out@).push(line@));
                assert(names_of(out@).push(line@) + lines_from(s@, i + 1, i + 1) =~= names_of(out@)
                    + (seq![line@] + lines_from(s@, i + 1, i + 1)));
            }
            out.push(line);
            start = i + 1;
        }
        i += 1;
    }
    if start < n {
        let line = String::from_str(s.substring_char(start, n));
        proof {
            assert(names_of(out@.push(line)) =~= names_of(out@).push(line@));
            assert(names_of(out@).push(line@) =~= names_of(out@) + seq![line@]);
        }
        out.push(line);
    } else {
        proof {
            assert(names_of(out@) + Seq::<Seq<char>>::empty() =~= names_of(out@));
        }
    }
    out
}

/// `to`, then each character of `s` with `to` behind it.
pub open spec fn interleaved(s: Seq<char>, to: Seq<char>) -> Seq<char>
    decreases s.len(),
{
    if s.len() == 0 {
        to
    } else {
        to + seq![s[0]] + interleaved(s.skip(1), to)
    }
}

/// The text `s` with every match of `from` replaced by `to`. The matches
/// are taken from the left and do not overlap. The empty pattern matches
/// before every character and at the end.
pub open spec fn replaced(s: Seq<char>, from: Seq<char>, to: Seq<char>) -> Seq<char>
    decreases s.len(),
{
    if from.len() == 0 {
        interleaved(s, to)
    } else if s.len() == 0 {
        s
    } else if from.len() <= s.len() && s.take(from.len() as int) == from {
        to + replaced(s.skip(from.len() as int), from, to)
    } else {
        seq![s[0]] + replaced(s.skip(1), from, to)
    }
}

/// Whether the text `s` holds `from` at the place `i`.
pub fn holds_at(s: &str, from: &str, i: usize) -> (r: bool)
    ensures
        r == (i + from@.len() <= s@.len() && s@.subrange(i as int, i + from@.len()) == from@),
{
    let n = s.unicode_len();
    let m = from.unicode_len();
    if i > n || m > n - i {
        return false;
    }
    let mut k: usize = 0;
    while k < m
        invariant
            n == s@.len(),
            m == from@.len(),
            i <= n,
            m <= n - i,
            k <= m,
            forall|j: int| 0 <= j < k ==> s@[i + j] == from@[j],
        decreases m - k,
    {
        if s.get_char(i + k) != from.get_char(k) {
            proof {
                assert(s@.subrange(i as int, i + m)[k as int] == s@[i + k]);
            }
            return false;
        }
        k += 1;
    }
    proof {
        assert(s@.subrange(i as int, i + m) =~= from@);
    }
    true
}

/// The text `s` with every match of `from` replaced by `to`.
pub fn replace_all(s: &str, from: &str, to: &str) -> (r: String)
    ensures
        r@ == replaced(s@, from@, to@),
{
    let n = s.unicode_len();
    let m = from.unicode_len();
    let mut out = String::from_str("");
    let mut i: usize = 0;
    proof {
        reveal_strlit("");
        assert(s@.skip(0) =~= s@);
        assert(out@ + replaced(s@, from@, to@) =~= replaced(s@, from@, to@));
    }
    if m == 0 {
        while i < n
            invariant
                n == s@.len(),
                from@.len() == 0,
                i <= n,
                out@ + interleaved(s@.skip(i as int), to@) == replaced(s@, from@, to@),
            decreases n - i,
        {
            let ghost before = out@;
            out = out.concat(to).concat(s.substring_char(i, i + 1));
            proof {
                let rest = s@.skip(i as int);
                assert(rest.skip(1) =~= s@.skip(i + 1));
                assert(s@.subrange(i as int, i + 1) =~= seq![rest[0]]);
                assert(before + to@ + seq![rest[0]] + interleaved(rest.skip(1), to@) =~= before + (
                to@ + seq![rest[0]] + interleaved(rest.skip(1), to@)));
            }
            i += 1;
        }
        return out.concat(to);
    }
    while i < n
        invariant
            n == s@.len(),
            m == from@.len(),
            m > 0,
            i <= n,
            out@ + replaced(s@.skip(i as int), from@, to@) == replaced(s@, from@, to@),
        decreases n - i,
    {
        let ghost before = out@;
        let ghost rest = s@.skip(i as int);
        if holds_at(s, from, i) {
            out = out.concat(to);
            proof {
                assert(rest.take(m as int) =~= s@.subrange(i as int, i + m));
                assert(rest.skip(m as int) =~= s@.skip(i + m));
                assert(before + to@ + replaced(rest.skip(m as int), from@, to@) =~= before + (to@
                    + replaced(rest.skip(m as int), from@, to@)));
            }
            i += m;
        } else {
            out = out.concat(s.substring_char(i, i + 1));
            proof {
                if m <= rest.len() {
                    assert(rest.take(m as int) =~= s@.subrange(i as int, i + m));
                }
                assert(rest.skip(1) =~= s@.skip(i + 1));
                assert(s@.subrange(i as int, i + 1) =~= seq![rest[0]]);
                assert(before + seq![rest[0]] + replaced(rest.skip(1), from@, to@) =~= before + (
                seq![rest[0]] + replaced(rest.skip(1), from@, to@)));
            }
            i += 1;
        }
    }
    proof {
        assert(out@ + Seq::<char>::empty() =~= out@);
    }
    out
}

/// The decimal notation of `n`, with a minus sign where it is negative.
pub open spec fn signed_decimal(n: int) -> Seq<char> {
    if n >= 0 {
        decimal(n as nat)
    } else {
        "-"@ + decimal((-n) as nat)
    }
}

/// The decimal notation of `n`.
pub fn signed_decimal_text(n: i32) -> (r: String)
    ensures
        r@ == signed_decimal(n as int),
{
    if n >= 0 {
        decimal_text(n as u32)
    } else {
        let m: u32 = if n == i32::MIN {
            2147483648u32
        } else {
            (-n) as u32
        };
        String::from_str("-").concat(decimal_text(m).as_str())
    }
}

/// Whether the text `s` holds the character `c`.
pub fn has_char(s: &str, c: char) -> (r: bool)
    ensures
        r == s@.contains(c),
{
    let n = s.unicode_len();
    let mut i: usize = 0;
    while i < n
        invariant
            n == s@.len(),
            i <= n,
            forall|j: int| 0 <= j < i ==> s@[j] != c,
        decreases n - i,
    {
        if s.get_char(i) == c {
            return true;
        }
        i += 1;
    }
    false
}

/// `s` with spaces behind it up to `width` characters.
pub open spec fn padded(s: Seq<char>, width: nat) -> Seq<char> {
    if s.len() >= width {
        s
    } else {
        s + Seq::new((width - s.len()) as nat, |i: int| ' ')
    }
}

/// `s` with spaces behind it up to `width` characters.
pub fn pad_right(s: &str, width: usize) -> (r: String)
    ensures
        r@ == padded(s@, width as nat),
{
    let n = s.unicode_len();
    let mut r = String::from_str(s);
    if n >= width {
        return r;
    }
    let mut k: usize = 0;
    proof {
        reveal_strlit(" ");
        assert(r@ =~= s@ + Seq::new(0nat, |i: int| ' '));
    }
    while k < width - n
        invariant
            n == s@.len(),
            n < width,
            k <= width - n,
            r@ == s@ + Seq::new(k as nat, |i: int| ' '),
            " "@ == seq![' '],
        decreases width - n - k,
    {
        let ghost old_r = r@;
        r = r.concat(" ");
        proof {
            assert(old_r + seq![' '] =~= s@ + Seq::new((k + 1) as nat, |i: int| ' '));
        }
        k += 1;
    }
    r
}

/// The texts of `parts` in a row, with `sep` between them.
pub open spec fn joined_with(parts: Seq<Seq<char>>, sep: Seq<char>) -> Seq<char>
    decreases parts.len(),
{
    if parts.len() == 0 {
        Seq::empty()
    } else if parts.len() == 1 {
        parts[0]
    } else {
        joined_with(parts.drop_last(), sep) + sep + parts.last()
    }
}

/// The texts of `parts` in a row, with `sep` between them.
pub fn join_with(parts: &Vec<String>, sep: &str) -> (r: String)
    ensures
        r@ == joined_with(crate::names::names_of(parts@), sep@),
{
    let ghost all = crate::names::names_of(parts@);
    let mut r = String::new();
    let mut i: usize = 0;
    assert(all.take(0) =~= Seq::<Seq<char>>::empty());
    while i < parts.len()
        invariant
            all == crate::names::names_of(parts@),
            i <= parts@.len(),
            r@ == joined_with(all.take(i as int), sep@),
        decreases parts@.len() - i,
    {
        proof {
            assert(all.take(i + 1).drop_last() =~= all.take(i as int));
            assert(all.take(i + 1).last() == parts@[i as int]@);
        }
        if i == 0 {
            let ghost old_r = r@;
            r = r.concat(parts[i].as_str());
            proof {
                assert(old_r =~= Seq::<char>::empty());
                assert(r@ =~= parts@[0]@);
                assert(all.take(1)[0] == parts@[0]@);
            }
        } else {
            r = r.concat(sep).concat(parts[i].as_str());
        }
        i += 1;
    }
    proof {
        assert(all.take(parts@.len() as int) =~= all);
    }
    r
}

} // verus!
