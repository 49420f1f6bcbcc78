//! Building strings character by character.

use vstd::prelude::*;
use vstd::string::StrSliceExecFns;
use vstd::string::StringExecFns;

verus! {

/// `String::push` appends the given character to the end of the string.
pub assume_specification[ std::string::String::push ](s: &mut std::string::String, ch: char)
    ensures
        final(s)@ == old(s)@.push(ch),
;

/// The character of a decimal digit.
pub open spec fn digit(d: nat) -> char {
    (('0' as nat) + d) as char
}

/// A number in decimal, without sign or leading zeros.
pub open spec fn decimal(n: nat) -> Seq<char>
    decreases n,
{
    if n < 10 {
        seq![digit(n)]
    } else {
        decimal(n / 10).push(digit(n % 10))
    }
}

/// Writes `n` in decimal.
pub fn decimal_string(n: usize) -> (s: String)
    ensures
        s@ == decimal(n as nat),
{
    let mut digits: Vec<u8> = Vec::new();
    let mut rest: usize = n;
    while rest >= 10
        invariant
            forall|i: int| 0 <= i < digits.len() ==> digits[i] < 10,
            decimal(n as nat) == decimal(rest as nat) + Seq::new(
                digits.len() as nat,
                |i: int| digit(digits[digits.len() - 1 - i] as nat),
            ),
        decreases rest,
    {
        let ghost before = digits@;
        digits.push((rest % 10) as u8);
        proof {
            let tail_before = Seq::new(
                before.len() as nat,
                |i: int| digit(before[before.len() - 1 - i] as nat),
            );
            let tail_after = Seq::new(
                digits.len() as nat,
                |i: int| digit(digits[digits.len() - 1 - i] as nat),
            );
            assert(tail_after == seq![digit((rest % 10) as nat)] + tail_before);
            assert(decimal(rest as nat) == decimal((rest / 10) as nat).push(
                digit((rest % 10) as nat),
            ));
            assert(decimal(rest as nat) + tail_before == decimal((rest / 10) as nat) + tail_after);
        }
        rest = rest / 10;
    }
    let mut s = String::new();
    s.push((48u8 + rest as u8) as char);
    let ghost tail = Seq::new(
        digits.len() as nat,
        |i: int| digit(digits[digits.len() - 1 - i] as nat),
    );
    let mut k: usize = digits.len();
    while k > 0
        invariant
            k <= digits.len(),
            forall|i: int| 0 <= i < digits.len() ==> digits[i] < 10,
            tail == Seq::new(
                digits.len() as nat,
                |i: int| digit(digits[digits.len() - 1 - i] as nat),
            ),
            s@ == decimal(rest as nat) + tail.take(digits.len() - k),
        decreases k,
    {
        k = k - 1;
        s.push((48u8 + digits[k]) as char);
        proof {
            assert(tail.take(digits.len() - k) == tail.take(digits.len() - k - 1).push(
                tail[digits.len() - k - 1],
            ));
        }
    }
    proof {
        assert(tail.take(digits.len() as int) == tail);
    }
    s
}

/// `text` brought to `width` characters by `fill` before it; a text that is
/// as long or longer stays as it is.
pub open spec fn filled_before(text: Seq<char>, width: nat, fill: char) -> Seq<char> {
    if text.len() >= width {
        text
    } else {
        Seq::new((width - text.len()) as nat, |i: int| fill) + text
    }
}

/// `text` brought to `width` characters by spaces behind it; a text that is
/// as long or longer stays as it is.
pub open spec fn filled_behind(text: Seq<char>, width: nat) -> Seq<char> {
    if text.len() >= width {
        text
    } else {
        text + Seq::new((width - text.len()) as nat, |i: int| ' ')
    }
}

/// Appends `count` times the character `fill`.
pub fn push_repeated(s: &mut String, fill: char, count: usize)
    ensures
        final(s)@ == old(s)@ + Seq::new(count as nat, |i: int| fill),
{
    let mut done: usize = 0;
    while done < count
        invariant
            done <= count,
            s@ == old(s)@ + Seq::new(done as nat, |i: int| fill),
        decreases count - done,
    {
        s.push(fill);
        done = done + 1;
    }
}

/// Appends `text`, with `fill` before it where it is shorter than `width`.
pub fn push_filled_before(s: &mut String, text: &str, width: usize, fill: char)
    ensures
        final(s)@ == old(s)@ + filled_before(text@, width as nat, fill),
{
    let length = text.unicode_len();
    if length < width {
        push_repeated(s, fill, width - length);
    }
    s.append(text);
    proof {
        let gap = Seq::new((width - length) as nat, |i: int| fill);
        if length < width {
            assert(old(s)@ + gap + text@ == old(s)@ + (gap + text@));
        }
    }
}

/// Appends `text`, with spaces behind it where it is shorter than `width`.
pub fn push_filled_behind(s: &mut String, text: &str, width: usize)
    ensures
        final(s)@ == old(s)@ + filled_behind(text@, width as nat),
{
    let length = text.unicode_len();
    s.append(text);
    if length < width {
        push_repeated(s, ' ', width - length);
    }
    proof {
        let gap = Seq::new((width - length) as nat, |i: int| ' ');
        if length < width {
            assert(old(s)@ + text@ + gap == old(s)@ + (text@ + gap));
        }
    }
}

/// Copies `chars[from..to]` into a string.
pub fn string_from_chars(chars: &Vec<char>, from: usize, to: usize) -> (s: String)
    requires
        from <= to <= chars.len(),
    ensures
        s@ == chars@.subrange(from as int, to as int),
{
    let mut s = String::new();
    let mut i: usize = from;
    while i < to
        invariant
            from <= i <= to <= chars.len(),
            s@ == chars@.subrange(from as int, i as int),
        decreases to - i,
    {
        s.push(chars[i]);
        i = i + 1;
        proof {
            assert(chars@.subrange(from as int, i as int) == chars@.subrange(
                from as int,
                i - 1,
            ).push(chars@[i - 1]));
        }
    }
    s
}

} // verus!
