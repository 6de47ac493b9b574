//! Laws on texts.

use vstd::prelude::*;

use crate::output;
use crate::text;

verus! {

/// `part` stands somewhere in `s`.
pub open spec fn occurs(part: Seq<char>, s: Seq<char>) -> bool {
    exists|at: int|
        0 <= at && at + part.len() <= s.len() && part == #[trigger] s.subrange(
            at,
            at + part.len(),
        )
}

/// A text stands in what it is put between.
pub proof fn a_part_occurs(before: Seq<char>, part: Seq<char>, after: Seq<char>)
    ensures
        occurs(part, before + part + after),
{
    let s = before + part + after;
    let at = before.len() as int;
    assert(s.subrange(at, at + part.len()) =~= part);
}

/// What stands in a text stands in every text that holds it.
pub proof fn a_part_of_a_part_occurs(
    part: Seq<char>,
    before: Seq<char>,
    s: Seq<char>,
    after: Seq<char>,
)
    requires
        occurs(part, s),
    ensures
        occurs(part, before + s + after),
{
    let at = choose|at: int|
        0 <= at && at + part.len() <= s.len() && part == #[trigger] s.subrange(
            at,
            at + part.len(),
        );
    let whole = before + s + after;
    let there = before.len() + at;
    assert(whole.subrange(there, there + part.len()) =~= part);
}

proof fn lemma_trimmed_start(s: Seq<char>) -> (i: int)
    ensures
        0 <= i <= s.len(),
        text::trimmed_start(s) == s.skip(i),
        forall|k: int| 0 <= k < i ==> text::white(#[trigger] s[k]),
        i < s.len() ==> !text::white(s[i]),
    decreases s.len(),
{
    if s.len() > 0 && text::white(s[0]) {
        let rest = s.drop_first();
        let i = lemma_trimmed_start(rest);
        assert(rest.skip(i) =~= s.skip(i + 1));
        assert forall|k: int| 0 <= k < i + 1 implies text::white(#[trigger] s[k]) by {
            if k > 0 {
                assert(rest[k - 1] == s[k]);
            }
        }
        i + 1
    } else {
        assert(s.skip(0) =~= s);
        0
    }
}

proof fn lemma_trimmed_end(s: Seq<char>) -> (j: int)
    ensures
        0 <= j <= s.len(),
        text::trimmed_end(s) == s.take(j),
        forall|k: int| j <= k < s.len() ==> text::white(#[trigger] s[k]),
        j > 0 ==> !text::white(s[j - 1]),
    decreases s.len(),
{
    if s.len() > 0 && text::white(s.last()) {
        let rest = s.drop_last();
        let j = lemma_trimmed_end(rest);
        assert(rest.take(j) =~= s.take(j));
        assert forall|k: int| j <= k < s.len() implies text::white(#[trigger] s[k]) by {
            if k < rest.len() {
                assert(rest[k] == s[k]);
            }
        }
        if j > 0 {
            assert(rest[j - 1] == s[j - 1]);
        }
        j
    } else {
        assert(s.take(s.len() as int) =~= s);
        s.len() as int
    }
}

/// Trimming takes the white space off both ends and nothing else.
pub proof fn trimming_takes_white_space_off_both_ends(s: Seq<char>)
    ensures
        exists|i: int, j: int|
            {
                &&& 0 <= i <= j <= s.len()
                &&& text::trimmed(s) == #[trigger] s.subrange(i, j)
                &&& forall|k: int| 0 <= k < i || j <= k < s.len() ==> text::white(#[trigger] s[k])
                &&& i < j ==> !text::white(s[i]) && !text::white(s[j - 1])
            },
{
    let i = lemma_trimmed_start(s);
    let rest = s.skip(i);
    let j = lemma_trimmed_end(rest);
    assert(rest.take(j) =~= s.subrange(i, i + j));
    assert forall|k: int| 0 <= k < i || i + j <= k < s.len() implies text::white(
        #[trigger] s[k],
    ) by {
        if k >= i + j {
            assert(rest[k - i] == s[k]);
        }
    }
    if 0 < j {
        assert(rest[0] == s[i]);
        assert(rest[j - 1] == s[i + j - 1]);
    }
}

/// A text that neither begins nor ends with white space is left as it is, and a text of
/// white space alone leaves nothing.
pub proof fn trimming_is_exact(s: Seq<char>)
    ensures
        s.len() > 0 && !text::white(s[0]) && !text::white(s.last()) ==> text::trimmed(s) == s,
        (forall|k: int| 0 <= k < s.len() ==> text::white(#[trigger] s[k])) <==> text::trimmed(
            s,
        ).len() == 0,
{
    trimming_takes_white_space_off_both_ends(s);
    let (i, j) = choose|i: int, j: int|
        {
            &&& 0 <= i <= j <= s.len()
            &&& text::trimmed(s) == #[trigger] s.subrange(i, j)
            &&& forall|k: int| 0 <= k < i || j <= k < s.len() ==> text::white(#[trigger] s[k])
            &&& i < j ==> !text::white(s[i]) && !text::white(s[j - 1])
        };
    if s.len() > 0 && !text::white(s[0]) && !text::white(s.last()) {
        assert(i == 0 || i == j);
        if i > 0 {
            assert(text::white(s[0]));
        }
        if j < s.len() {
            assert(text::white(s[s.len() - 1]));
        }
        assert(s.subrange(i, j) =~= s);
    }
    if i < j {
        assert(!text::white(s[i]));
    }
}

/// Blanks, tabs and the ends of lines are white space; no other control character below
/// the blank is, nor is any ASCII character above it.
pub proof fn ascii_white_space(c: char)
    requires
        (c as int) < 0x80,
    ensures
        text::white(c) <==> c == ' ' || c == '\t' || c == '\n' || c == '\r' || c as int == 0x0b
            || c as int == 0x0c,
{
}

/// Beyond ASCII these are white space and no others.
pub proof fn other_white_space(c: char)
    requires
        c as int >= 0x80,
    ensures
        text::white(c) <==> c == '\u{85}' || c == '\u{a0}' || c == '\u{1680}' || ('\u{2000}' as int
            <= c as int <= '\u{200a}' as int) || c == '\u{2028}' || c == '\u{2029}' || c
            == '\u{202f}' || c == '\u{205f}' || c == '\u{3000}',
{
}

/// Replacing a character changes it everywhere and nothing else.
pub proof fn replacing_goes_character_by_character(s: Seq<char>, from: char, to: char, i: int)
    requires
        0 <= i < s.len(),
    ensures
        text::replaced(s, from, to).len() == s.len(),
        s[i] == from ==> text::replaced(s, from, to)[i] == to,
        s[i] != from ==> text::replaced(s, from, to)[i] == s[i],
{
}

/// Replacing keeps the length of a text.
pub proof fn replacing_keeps_the_length(s: Seq<char>, from: char, to: char)
    ensures
        text::replaced(s, from, to).len() == s.len(),
{
}

/// The number that decimal digits write.
pub open spec fn number(s: Seq<char>) -> int
    decreases s.len(),
{
    if s.len() == 0 {
        0
    } else {
        10 * number(s.drop_last()) + (s.last() as int - '0' as int)
    }
}

/// A number in decimal is written in digits, without a zero in front, and reads back.
pub proof fn decimals_read_back(n: nat)
    ensures
        text::decimal(n).len() > 0,
        forall|i: int|
            0 <= i < text::decimal(n).len() ==> '0' as int <= #[trigger] text::decimal(n)[i] as int
                <= '9' as int,
        number(text::decimal(n)) == n,
        n > 0 ==> text::decimal(n)[0] != '0',
        n == 0 ==> text::decimal(n) == seq!['0'],
    decreases n,
{
    let s = text::decimal(n);
    if n < 10 {
        assert(s.drop_last() =~= Seq::<char>::empty());
        assert(number(s.drop_last()) == 0);
    } else {
        decimals_read_back(n / 10);
        assert(s.drop_last() =~= text::decimal(n / 10));
        assert(s[0] == text::decimal(n / 10)[0]);
        assert forall|i: int| 0 <= i < s.len() implies '0' as int <= #[trigger] s[i] as int
            <= '9' as int by {
            if i < s.len() - 1 {
                assert(s[i] == text::decimal(n / 10)[i]);
            }
        }
    }
}

/// A negative number has a minus sign before the digits of its amount, any other has none.
pub proof fn signed_decimals_read_back(n: int)
    ensures
        n >= 0 ==> number(text::signed_decimal(n)) == n && text::signed_decimal(n)[0] != '-',
        n < 0 ==> text::signed_decimal(n)[0] == '-' && number(text::signed_decimal(n).skip(1))
            == -n,
        n >= 0 ==> text::signed_decimal(n) == text::decimal(n as nat),
        n < 0 ==> text::signed_decimal(n) == seq!['-'] + text::decimal((-n) as nat),
{
    reveal_strlit("-");
    if n >= 0 {
        decimals_read_back(n as nat);
    } else {
        decimals_read_back((-n) as nat);
        assert(text::signed_decimal(n).skip(1) =~= text::decimal((-n) as nat));
        assert("-"@ =~= seq!['-']);
    }
}

/// The mode of a file is written as four octal digits, which read back.
pub proof fn octals_read_back(n: nat)
    requires
        n < 4096,
    ensures
        ({
            let s = text::octal4(n);
            &&& s.len() == 4
            &&& forall|i: int| 0 <= i < 4 ==> '0' as int <= #[trigger] s[i] as int <= '7' as int
            &&& n == 512 * (s[0] as int - '0' as int) + 64 * (s[1] as int - '0' as int) + 8 * (
            s[2] as int - '0' as int) + (s[3] as int - '0' as int)
        }),
{
    let a = n / 512 % 8;
    let b = n / 64 % 8;
    let c = n / 8 % 8;
    let d = n % 8;
    assert(n / 8 / 8 == n / 64 && n / 64 / 8 == n / 512);
    assert(n == 8 * (n / 8) + d);
    assert(n / 8 == 8 * (n / 64) + c);
    assert(n / 64 == 8 * (n / 512) + b);
    assert(n / 512 == a);
    let s = text::octal4(n);
    assert(s[0] as int == 0x30 + a && s[1] as int == 0x30 + b);
    assert(s[2] as int == 0x30 + c && s[3] as int == 0x30 + d);
}

/// A text is filled up with blanks behind it to the width, and left as it is where it has
/// that width or more.
pub proof fn padding_fills_up_with_blanks(s: Seq<char>, width: nat)
    ensures
        s.len() >= width ==> text::padded(s, width) == s,
        s.len() < width ==> text::padded(s, width).len() == width,
        s.is_prefix_of(text::padded(s, width)),
        forall|i: int|
            s.len() <= i < text::padded(s, width).len() ==> #[trigger] text::padded(s, width)[i]
                == ' ',
    decreases width - s.len(),
{
    if s.len() < width {
        let t = s.push(' ');
        padding_fills_up_with_blanks(t, width);
        let r = text::padded(s, width);
        assert(r == text::padded(t, width));
        assert(t =~= r.subrange(0, t.len() as int));
        assert forall|i: int| 0 <= i < s.len() implies r[i] == s[i] by {
            assert(r.subrange(0, t.len() as int)[i] == t[i]);
        }
        assert(r.subrange(0, t.len() as int)[s.len() as int] == ' ');
        assert(s =~= r.subrange(0, s.len() as int));
    } else {
        assert(s =~= s.subrange(0, s.len() as int));
    }
}

/// One text joined is that text, and two lists joined are joined with the separator between
/// them: no text is lost, and each stands once, in its order.
pub proof fn joining_keeps_every_text(a: Seq<Seq<char>>, b: Seq<Seq<char>>, sep: Seq<char>)
    ensures
        a.len() == 0 ==> text::joined(a, sep) == Seq::<char>::empty(),
        a.len() == 1 ==> text::joined(a, sep) == a[0],
        a.len() > 0 && b.len() > 0 ==> text::joined(a + b, sep) == text::joined(a, sep) + sep
            + text::joined(b, sep),
    decreases b.len(),
{
    if a.len() > 0 && b.len() > 0 {
        let front = b.drop_last();
        assert((a + b).drop_last() =~= a + front);
        if front.len() > 0 {
            joining_keeps_every_text(a, front, sep);
            assert(text::joined(a + b, sep) =~= text::joined(a, sep) + sep + text::joined(b, sep));
        } else {
            assert(a + front =~= a);
            assert(text::joined(a + b, sep) =~= text::joined(a, sep) + sep + text::joined(b, sep));
        }
    }
}

/// Every text of a list stands in the list joined.
pub proof fn a_joined_text_occurs(parts: Seq<Seq<char>>, sep: Seq<char>, i: int)
    requires
        0 <= i < parts.len(),
    ensures
        occurs(parts[i], text::joined(parts, sep)),
    decreases parts.len(),
{
    let none = Seq::<char>::empty();
    if parts.len() == 1 {
        a_part_occurs(none, parts[0], none);
        assert(none + parts[0] + none =~= parts[0]);
    } else if i == parts.len() - 1 {
        let front = text::joined(parts.drop_last(), sep) + sep;
        a_part_occurs(front, parts.last(), none);
        assert(front + parts.last() + none =~= text::joined(parts, sep));
    } else {
        a_joined_text_occurs(parts.drop_last(), sep, i);
        let back = sep + parts.last();
        a_part_of_a_part_occurs(parts[i], none, text::joined(parts.drop_last(), sep), back);
        assert(none + text::joined(parts.drop_last(), sep) + back =~= text::joined(parts, sep));
    }
}

/// Each text of a list stands on a line of its own, two blanks in: one text, and the lists
/// one after the other.
pub proof fn every_text_has_its_line(a: Seq<Seq<char>>, b: Seq<Seq<char>>)
    ensures
        a.len() == 0 ==> output::indented(a) == Seq::<char>::empty(),
        a.len() == 1 ==> output::indented(a) == "\n  "@ + a[0],
        output::indented(a + b) == output::indented(a) + output::indented(b),
    decreases b.len(),
{
    if a.len() == 1 {
        assert(output::indented(a.drop_last()) =~= Seq::<char>::empty());
        assert(output::indented(a) =~= "\n  "@ + a[0]);
    }
    if b.len() == 0 {
        assert(a + b =~= a);
        assert(output::indented(a) + output::indented(b) =~= output::indented(a));
    } else {
        every_text_has_its_line(a, b.drop_last());
        assert((a + b).drop_last() =~= a + b.drop_last());
        assert(output::indented(a + b) =~= output::indented(a) + output::indented(b));
    }
}

/// The texts are alike before `k`, and there the first one ends or has the lesser character.
pub open spec fn lesser_at(a: Seq<char>, b: Seq<char>, k: int) -> bool {
    &&& 0 <= k <= a.len()
    &&& k < b.len()
    &&& forall|i: int| 0 <= i < k ==> #[trigger] a[i] == b[i]
    &&& k == a.len() || (a[k] as int) < (b[k] as int)
}

/// A text comes before another exactly where it begins it, or has the lesser character at
/// the first place where they differ.
pub proof fn texts_are_ordered_by_their_first_difference(a: Seq<char>, b: Seq<char>)
    ensures
        text::text_before(a, b) <==> exists|k: int| lesser_at(a, b, k),
    decreases a.len(),
{
    if a.len() == 0 {
        if b.len() > 0 {
            assert(lesser_at(a, b, 0));
        }
    } else if b.len() > 0 {
        let x = a.drop_first();
        let y = b.drop_first();
        if a[0] != b[0] {
            if (a[0] as int) < (b[0] as int) {
                assert(lesser_at(a, b, 0));
            }
            assert forall|k: int| #[trigger] lesser_at(a, b, k) implies k == 0 by {
                if k > 0 {
                    assert(a[0] == b[0]);
                }
            }
        } else {
            texts_are_ordered_by_their_first_difference(x, y);
            if text::text_before(x, y) {
                let k = choose|k: int| lesser_at(x, y, k);
                assert forall|i: int| 0 <= i < k + 1 implies #[trigger] a[i] == b[i] by {
                    if i > 0 {
                        assert(x[i - 1] == y[i - 1]);
                    }
                }
                assert(lesser_at(a, b, k + 1));
            }
            if exists|k: int| lesser_at(a, b, k) {
                let k = choose|k: int| lesser_at(a, b, k);
                assert forall|i: int| 0 <= i < k - 1 implies #[trigger] x[i] == y[i] by {
                    assert(a[i + 1] == b[i + 1]);
                }
                assert(lesser_at(x, y, k - 1));
            }
        }
    }
}

} // verus!
