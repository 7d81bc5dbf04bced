//! What texts say of each other: numerals read back as their numbers, and what is taken apart
//! can be put together again.

use crate::text;
use vstd::prelude::*;

verus! {

// ---------------------------------------------------------------- numerals

/// What one digit of a numeral is worth.
pub open spec fn digit_worth(c: char) -> int {
    if 'a' <= c <= 'f' {
        c as int - 87
    } else {
        c as int - 48
    }
}

/// What a numeral is worth.
pub open spec fn worth(s: Seq<char>, radix: int) -> int
    decreases s.len(),
{
    if s.len() == 0 {
        0
    } else {
        worth(s.drop_last(), radix) * radix + digit_worth(s.last())
    }
}

/// A decimal numeral reads back as its number, and has no leading zeros.
pub proof fn law_decimals_read_back(n: nat)
    ensures
        worth(text::decimal(n), 10) == n,
        text::decimal(n).len() >= 1,
        forall|i: int|
            0 <= i < text::decimal(n).len() ==> '0' <= #[trigger] text::decimal(n)[i] <= '9',
        n > 0 ==> text::decimal(n)[0] != '0',
    decreases n,
{
    reveal_with_fuel(worth, 2);
    let s = text::decimal(n);
    if n < 10 {
        assert(s.drop_last() =~= seq![]);
    } else {
        law_decimals_read_back(n / 10);
        assert(s.drop_last() =~= text::decimal(n / 10));
        assert(s[0] == text::decimal(n / 10)[0]);
        assert forall|i: int| 0 <= i < s.len() implies '0' <= #[trigger] s[i] <= '9' by {
            if i < s.len() - 1 {
                assert(s[i] == text::decimal(n / 10)[i]);
            }
        }
    }
}

/// A hexadecimal numeral reads back as its number, in lower case and without leading zeros.
pub proof fn law_hexadecimals_read_back(n: nat)
    ensures
        worth(text::hex(n), 16) == n,
        text::hex(n).len() >= 1,
        forall|i: int|
            0 <= i < text::hex(n).len() ==> '0' <= #[trigger] text::hex(n)[i] <= '9' || 'a'
                <= text::hex(n)[i] <= 'f',
        n > 0 ==> text::hex(n)[0] != '0',
    decreases n,
{
    reveal_with_fuel(worth, 2);
    let s = text::hex(n);
    if n < 16 {
        assert(s.drop_last() =~= seq![]);
    } else {
        law_hexadecimals_read_back(n / 16);
        assert(s.drop_last() =~= text::hex(n / 16));
        assert(s[0] == text::hex(n / 16)[0]);
        assert forall|i: int| 0 <= i < s.len() implies '0' <= #[trigger] s[i] <= '9' || 'a' <= s[i]
            <= 'f' by {
            if i < s.len() - 1 {
                assert(s[i] == text::hex(n / 16)[i]);
            }
        }
    }
}

/// Filling up reaches the width, keeps the text at the end, and adds only the filler.
pub proof fn law_filling_up_keeps_the_text(s: Seq<char>, width: nat, c: char)
    ensures
        ({
            let p = text::padded(s, width, c);
            &&& p.len() == if s.len() < width {
                width
            } else {
                s.len()
            }
            &&& p.skip(p.len() - s.len()) == s
            &&& forall|i: int| 0 <= i < p.len() - s.len() ==> #[trigger] p[i] == c
        }),
{
    let p = text::padded(s, width, c);
    assert(p.skip(p.len() - s.len()) =~= s);
}

// ---------------------------------------------------------------- white space

/// The blank, the tabulator and the line ends are white space, and no printed ASCII character is.
pub proof fn law_printed_characters_are_no_space(c: char)
    ensures
        '!' <= c <= '~' ==> !text::is_space(c),
        c == ' ' || c == '\t' || c == '\n' || c == '\r' ==> text::is_space(c),
{
}

/// Trimming takes white space off both ends, all of it, and nothing else.
pub proof fn law_trimming_takes_white_space(s: Seq<char>) -> (ends: (Seq<char>, Seq<char>))
    ensures
        s == ends.0 + text::trimmed(s) + ends.1,
        forall|i: int| 0 <= i < ends.0.len() ==> text::is_space(#[trigger] ends.0[i]),
        forall|i: int| 0 <= i < ends.1.len() ==> text::is_space(#[trigger] ends.1[i]),
        text::trimmed(s).len() > 0 ==> !text::is_space(text::trimmed(s)[0]) && !text::is_space(
            text::trimmed(s).last(),
        ),
{
    let front = lemma_trim_start(s);
    let t = text::trim_start(s);
    let back = lemma_trim_end(t);
    let u = text::trim_end(t);
    assert(s =~= front + u + back);
    if u.len() > 0 {
        assert(t[0] == u[0]);
    }
    (front, back)
}

/// Leading white space is taken off.
pub proof fn lemma_trim_start(s: Seq<char>) -> (front: Seq<char>)
    ensures
        s == front + text::trim_start(s),
        forall|i: int| 0 <= i < front.len() ==> text::is_space(#[trigger] front[i]),
        text::trim_start(s).len() > 0 ==> !text::is_space(text::trim_start(s)[0]),
    decreases s.len(),
{
    if s.len() > 0 && text::is_space(s[0]) {
        let rest = lemma_trim_start(s.drop_first());
        let front = seq![s[0]] + rest;
        assert(s =~= seq![s[0]] + s.drop_first());
        assert(seq![s[0]] + (rest + text::trim_start(s)) =~= front + text::trim_start(s));
        assert forall|i: int| 0 <= i < front.len() implies text::is_space(#[trigger] front[i]) by {
            if i > 0 {
                assert(front[i] == rest[i - 1]);
            }
        }
        front
    } else {
        assert(s =~= seq![] + s);
        seq![]
    }
}

/// Trailing white space is taken off.
pub proof fn lemma_trim_end(s: Seq<char>) -> (back: Seq<char>)
    ensures
        s == text::trim_end(s) + back,
        forall|i: int| 0 <= i < back.len() ==> text::is_space(#[trigger] back[i]),
        text::trim_end(s).len() > 0 ==> !text::is_space(text::trim_end(s).last()),
    decreases s.len(),
{
    if s.len() > 0 && text::is_space(s.last()) {
        let rest = lemma_trim_end(s.drop_last());
        let back = rest.push(s.last());
        assert(s =~= s.drop_last().push(s.last()));
        assert((text::trim_end(s) + rest).push(s.last()) =~= text::trim_end(s) + back);
        assert forall|i: int| 0 <= i < back.len() implies text::is_space(#[trigger] back[i]) by {
            if i < rest.len() {
                assert(back[i] == rest[i]);
            }
        }
        back
    } else {
        assert(s =~= s + seq![]);
        seq![]
    }
}

/// The first word stands behind white space alone, holds none, and ends where white space or
/// nothing follows; it is empty only where there is no word.
pub proof fn law_the_first_word(s: Seq<char>) -> (front: Seq<char>)
    ensures
        s == front + text::first_word(s) + text::after_word(s),
        forall|i: int| 0 <= i < front.len() ==> text::is_space(#[trigger] front[i]),
        forall|i: int|
            0 <= i < text::first_word(s).len() ==> !text::is_space(
                #[trigger] text::first_word(s)[i],
            ),
        text::after_word(s).len() > 0 ==> text::is_space(text::after_word(s)[0]),
        text::first_word(s).len() == 0 ==> text::after_word(s).len() == 0,
{
    let front = lemma_trim_start(s);
    let t = text::trim_start(s);
    lemma_up_to_space(t);
    assert(s =~= front + text::first_word(s) + text::after_word(s));
    front
}

proof fn lemma_up_to_space(s: Seq<char>)
    ensures
        ({
            let w = text::up_to_space(s);
            &&& w.len() <= s.len() && s.take(w.len() as int) == w
            &&& forall|i: int| 0 <= i < w.len() ==> !text::is_space(#[trigger] w[i])
            &&& w.len() < s.len() ==> text::is_space(s[w.len() as int])
        }),
    decreases s.len(),
{
    let w = text::up_to_space(s);
    if s.len() > 0 && !text::is_space(s[0]) {
        let rest = s.drop_first();
        let v = text::up_to_space(rest);
        lemma_up_to_space(rest);
        assert(w =~= seq![s[0]] + v);
        assert forall|i: int| 0 <= i < w.len() implies !text::is_space(#[trigger] w[i]) && w[i]
            == s[i] by {
            if i > 0 {
                assert(w[i] == v[i - 1]);
                assert(rest.take(v.len() as int)[i - 1] == s[i]);
            }
        }
        assert(s.take(w.len() as int) =~= w);
        if w.len() < s.len() {
            assert(rest[v.len() as int] == s[w.len() as int]);
        }
    } else {
        assert(s.take(0) =~= seq![]);
    }
}

// ---------------------------------------------------------------- order and search

/// The first difference decides which of two texts comes first.
pub proof fn law_the_first_difference_decides(
    common: Seq<char>,
    a: char,
    b: char,
    s: Seq<char>,
    t: Seq<char>,
)
    requires
        a < b,
    ensures
        text::ordered(common + seq![a] + s, common + seq![b] + t),
        !text::ordered(common + seq![b] + t, common + seq![a] + s),
        text::ordered(common, common + seq![a] + s),
        !text::ordered(common + seq![a] + s, common),
    decreases common.len(),
{
    let x = common + seq![a] + s;
    let y = common + seq![b] + t;
    if common.len() == 0 {
        assert(x[0] == a && y[0] == b);
    } else {
        let rest = common.drop_first();
        law_the_first_difference_decides(rest, a, b, s, t);
        assert(x.drop_first() =~= rest + seq![a] + s);
        assert(y.drop_first() =~= rest + seq![b] + t);
        assert(x[0] == common[0] && y[0] == common[0]);
    }
}

/// A text holds another exactly when it is that text with something before and after it.
pub proof fn law_holding_means_standing_within(s: Seq<char>, needle: Seq<char>)
    ensures
        text::holds(s, needle) <==> exists|front: Seq<char>, back: Seq<char>|
            s == #[trigger] (front + needle + back),
{
    if text::holds(s, needle) {
        let i = choose|i: int| #[trigger] text::stands_at(s, needle, i);
        let front = s.take(i);
        let back = s.skip(i + needle.len());
        assert(s =~= front + needle + back) by {
            assert forall|j: int| 0 <= j < s.len() implies s[j] == (front + needle + back)[j] by {
                if i <= j < i + needle.len() {
                    assert(s.subrange(i, i + needle.len())[j - i] == s[j]);
                }
            }
        }
    }
    if exists|front: Seq<char>, back: Seq<char>| s == #[trigger] (front + needle + back) {
        let (front, back) = choose|front: Seq<char>, back: Seq<char>|
            s == #[trigger] (front + needle + back);
        let i = front.len() as int;
        assert(s.subrange(i, i + needle.len()) =~= needle);
        assert(text::stands_at(s, needle, i));
    }
}

/// Lowering changes the capital ASCII letters, each to the small one, and nothing else.
pub proof fn law_lowering_changes_capitals(c: char)
    ensures
        'A' <= c <= 'Z' ==> text::ascii_lower(c) as int == c as int + 32,
        !('A' <= c <= 'Z') ==> text::ascii_lower(c) == c,
{
}

// ---------------------------------------------------------------- pieces and lines

/// The pieces of a text hold no separator, and joined by it give the text back.
pub proof fn law_pieces_join_again(s: Seq<char>, sep: char)
    ensures
        text::joined(text::pieces(s, sep), seq![sep]) == s,
        forall|i: int|
            0 <= i < text::pieces(s, sep).len() ==> !(#[trigger] text::pieces(s, sep)[i]).contains(
                sep,
            ),
    decreases s.len(),
{
    let p = text::pieces(s, sep);
    text::lemma_pieces_nonempty(s, sep);
    if s.len() == 0 {
        assert(p =~= seq![seq![]]);
    } else {
        let front = s.drop_last();
        let q = text::pieces(front, sep);
        law_pieces_join_again(front, sep);
        text::lemma_pieces_nonempty(front, sep);
        if s.last() == sep {
            assert(p.drop_last() =~= q);
            assert(text::joined(p, seq![sep]) =~= front + seq![sep] + seq![]);
            assert(s =~= front + seq![sep] + seq![]);
        } else {
            assert(p.drop_last() =~= q.drop_last());
            assert(p.last() == q.last().push(s.last()));
            if q.len() == 1 {
                assert(text::joined(q, seq![sep]) == q[0]);
                assert(s =~= q[0].push(s.last()));
            } else {
                assert(s =~= (text::joined(q.drop_last(), seq![sep]) + seq![sep] + q.last()).push(
                    s.last(),
                ));
                assert(text::joined(p, seq![sep]) =~= s);
            }
            assert forall|i: int| 0 <= i < p.len() implies !(#[trigger] p[i]).contains(sep) by {
                if i < p.len() - 1 {
                    assert(p[i] == q[i]);
                } else {
                    let l = q.last();
                    assert(!l.contains(sep));
                    assert forall|j: int| 0 <= j < p[i].len() implies p[i][j] != sep by {
                        if j < l.len() {
                            assert(p[i][j] == l[j]);
                        }
                    }
                }
            }
        }
    }
}

/// A separator parts the pieces before it from those after it.
pub proof fn law_a_separator_parts(a: Seq<char>, b: Seq<char>, sep: char)
    ensures
        text::pieces(a + seq![sep] + b, sep) == text::pieces(a, sep) + text::pieces(b, sep),
    decreases b.len(),
{
    let s = a + seq![sep] + b;
    text::lemma_pieces_nonempty(b, sep);
    if b.len() == 0 {
        assert(s.drop_last() =~= a);
        assert(text::pieces(s, sep) =~= text::pieces(a, sep) + text::pieces(b, sep));
    } else {
        let c = b.drop_last();
        law_a_separator_parts(a, c, sep);
        text::lemma_pieces_nonempty(c, sep);
        assert(s.drop_last() =~= a + seq![sep] + c);
        let q = text::pieces(a, sep) + text::pieces(c, sep);
        assert(q.last() == text::pieces(c, sep).last());
        assert(text::pieces(s, sep) =~= text::pieces(a, sep) + text::pieces(b, sep));
    }
}

/// A text without the separator is one piece.
pub proof fn law_no_separator_no_parting(a: Seq<char>, sep: char)
    requires
        !a.contains(sep),
    ensures
        text::pieces(a, sep) == seq![a],
    decreases a.len(),
{
    if a.len() > 0 {
        let b = a.drop_last();
        assert forall|i: int| 0 <= i < b.len() implies b[i] != sep by {
            assert(a[i] == b[i]);
        }
        law_no_separator_no_parting(b, sep);
        assert(a.last() != sep) by {
            assert(a[a.len() - 1] == a.last());
        }
        assert(b.push(a.last()) =~= a);
        assert(text::pieces(a, sep) =~= seq![a]);
    } else {
        assert(a =~= seq![]);
    }
}

/// Texts without the separator, joined by it, are the pieces of what comes out.
pub proof fn law_joined_texts_part_again(list: Seq<Seq<char>>, sep: char)
    requires
        list.len() > 0,
        forall|i: int| 0 <= i < list.len() ==> !(#[trigger] list[i]).contains(sep),
    ensures
        text::pieces(text::joined(list, seq![sep]), sep) == list,
    decreases list.len(),
{
    law_no_separator_no_parting(list.last(), sep);
    if list.len() > 1 {
        let front = list.drop_last();
        assert forall|i: int| 0 <= i < front.len() implies !(#[trigger] front[i]).contains(sep) by {
            assert(front[i] == list[i]);
        }
        law_joined_texts_part_again(front, sep);
        law_a_separator_parts(text::joined(front, seq![sep]), list.last(), sep);
        assert(front + seq![list.last()] =~= list);
    } else {
        assert(list[0] == list.last());
        assert(seq![list[0]] =~= list);
    }
}

/// A line and its end are the first line of a text, without a carriage return before the end, and
/// the other lines follow; what has no end is a line of its own unless it is empty.
pub proof fn law_lines_follow_each_other(line: Seq<char>, rest: Seq<char>)
    requires
        !line.contains('\n'),
    ensures
        line.len() == 0 || line.last() != '\r' ==> text::lines(line + seq!['\n'] + rest)
            == seq![line] + text::lines(rest),
        text::lines(line + seq!['\r', '\n'] + rest) == seq![line] + text::lines(rest),
        text::lines(line) == if line.len() == 0 {
            seq![]
        } else {
            seq![line]
        },
{
    lemma_first_line(line, rest);
    let returned = line.push('\r');
    assert forall|i: int| 0 <= i < returned.len() implies returned[i] != '\n' by {
        if i < line.len() {
            assert(returned[i] == line[i]);
        }
    }
    lemma_first_line(returned, rest);
    assert(returned.drop_last() =~= line);
    assert(returned + seq!['\n'] + rest =~= line + seq!['\r', '\n'] + rest);
    law_no_separator_no_parting(line, '\n');
    assert(text::lines(line) =~= if line.len() == 0 {
        seq![]
    } else {
        seq![line]
    });
}

proof fn lemma_first_line(line: Seq<char>, rest: Seq<char>)
    requires
        !line.contains('\n'),
    ensures
        text::lines(line + seq!['\n'] + rest) == seq![text::without_return(line)] + text::lines(
            rest,
        ),
{
    let s = line + seq!['\n'] + rest;
    law_a_separator_parts(line, rest, '\n');
    law_no_separator_no_parting(line, '\n');
    text::lemma_pieces_nonempty(rest, '\n');
    let p = text::pieces(rest, '\n');
    let all = seq![line] + p;
    assert(all.last() == p.last());
    assert(text::lines(s) =~= seq![text::without_return(line)] + text::lines(rest)) by {
        let f = |p: Seq<char>| text::without_return(p);
        assert(all.drop_last().map_values(f) =~= seq![text::without_return(line)]
            + p.drop_last().map_values(f));
    }
}

} // verus!
