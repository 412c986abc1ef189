//! Building blocks for text: decimal digits, repeated characters and
//! padding, each with the sequence of characters it stands for.

use vstd::prelude::*;
use vstd::string::StringExecFns;
use vstd::string::StrSliceExecFns;

verus! {

/// The character of a single decimal digit.
pub open spec fn digit_char(d: int) -> char {
    if d == 0 {
        '0'
    } else if d == 1 {
        '1'
    } else if d == 2 {
        '2'
    } else if d == 3 {
        '3'
    } else if d == 4 {
        '4'
    } else if d == 5 {
        '5'
    } else if d == 6 {
        '6'
    } else if d == 7 {
        '7'
    } else if d == 8 {
        '8'
    } else {
        '9'
    }
}

/// The decimal numeral of `n`, most significant digit first, without
/// leading zeros.
pub open spec fn decimal_digits(n: nat) -> Seq<char>
    decreases n,
{
    if n < 10 {
        seq![digit_char(n as int)]
    } else {
        decimal_digits(n / 10).push(digit_char((n % 10) as int))
    }
}

/// The last `width` decimal digits of `n`, zero filled on the left.
pub open spec fn fixed_digits(n: nat, width: nat) -> Seq<char>
    decreases width,
{
    if width == 0 {
        Seq::empty()
    } else {
        fixed_digits(n / 10, (width - 1) as nat).push(digit_char((n % 10) as int))
    }
}

/// `count` copies of `unit`, one after another.
pub open spec fn repeated(unit: Seq<char>, count: nat) -> Seq<char>
    decreases count,
{
    if count == 0 {
        Seq::empty()
    } else {
        repeated(unit, (count - 1) as nat) + unit
    }
}

/// `s` followed by spaces up to `width` characters; unchanged when it is
/// already that long.
pub open spec fn pad_right(s: Seq<char>, width: nat) -> Seq<char> {
    if s.len() >= width {
        s
    } else {
        s + repeated(" "@, (width - s.len()) as nat)
    }
}

/// `s` preceded by spaces up to `width` characters; unchanged when it is
/// already that long.
pub open spec fn pad_left(s: Seq<char>, width: nat) -> Seq<char> {
    if s.len() >= width {
        s
    } else {
        repeated(" "@, (width - s.len()) as nat) + s
    }
}

/// The characters of each text of `parts`, in order.
pub open spec fn texts(parts: Seq<String>) -> Seq<Seq<char>> {
    Seq::new(parts.len(), |i: int| parts[i]@)
}

/// The texts of `parts` one after another. Where `every` is positive, a
/// line feed follows each `every`-th of them.
pub open spec fn joined(parts: Seq<Seq<char>>, every: nat) -> Seq<char>
    decreases parts.len(),
{
    if parts.len() == 0 {
        Seq::empty()
    } else {
        joined(parts.drop_last(), every) + parts.last() + if every > 0 && parts.len() % every
            == 0 {
            "\n"@
        } else {
            Seq::empty()
        }
    }
}

/// Copies of a text are as long as the text, times their number.
pub proof fn lemma_repeated_len(unit: Seq<char>, count: nat)
    ensures
        repeated(unit, count).len() == count * unit.len(),
    decreases count,
{
    if count > 0 {
        lemma_repeated_len(unit, (count - 1) as nat);
        assert(count * unit.len() == (count - 1) * unit.len() + unit.len()) by (nonlinear_arith)
            requires
                count > 0,
        ;
    } else {
        assert(count * unit.len() == 0) by (nonlinear_arith)
            requires
                count == 0,
        ;
    }
}

/// Copies of a text hold no character that the text does not hold.
pub proof fn lemma_repeated_chars(unit: Seq<char>, count: nat)
    ensures
        forall|i: int|
            0 <= i < repeated(unit, count).len() ==> unit.contains(
                #[trigger] repeated(unit, count)[i],
            ),
    decreases count,
{
    if count > 0 {
        let front = repeated(unit, (count - 1) as nat);
        lemma_repeated_chars(unit, (count - 1) as nat);
        assert forall|i: int| 0 <= i < repeated(unit, count).len() implies unit.contains(
            #[trigger] repeated(unit, count)[i],
        ) by {
            if i < front.len() {
                assert(repeated(unit, count)[i] == front[i]);
            } else {
                assert(repeated(unit, count)[i] == unit[i - front.len()]);
            }
        }
    }
}

/// A padded text has the width asked for, or its own where that is more.
pub proof fn lemma_pad_len(s: Seq<char>, width: nat)
    ensures
        pad_right(s, width).len() == if s.len() >= width {
            s.len()
        } else {
            width
        },
        pad_left(s, width).len() == pad_right(s, width).len(),
{
    reveal_strlit(" ");
    if s.len() < width {
        lemma_repeated_len(" "@, (width - s.len()) as nat);
    }
}

/// A decimal numeral has at least one character and holds digits only.
pub proof fn lemma_decimal_digits_shape(n: nat)
    ensures
        decimal_digits(n).len() >= 1,
        forall|i: int|
            0 <= i < decimal_digits(n).len() ==> '0' <= #[trigger] decimal_digits(n)[i] <= '9',
    decreases n,
{
    if n >= 10 {
        lemma_decimal_digits_shape(n / 10);
    }
}

/// A fixed width numeral has exactly `width` characters, digits only.
pub proof fn lemma_fixed_digits_shape(n: nat, width: nat)
    ensures
        fixed_digits(n, width).len() == width,
        forall|i: int|
            0 <= i < width ==> '0' <= #[trigger] fixed_digits(n, width)[i] <= '9',
    decreases width,
{
    if width > 0 {
        lemma_fixed_digits_shape(n / 10, (width - 1) as nat);
    }
}

/// The one character text of a decimal digit.
pub fn digit_text(d: u64) -> (text: &'static str)
    requires
        d < 10,
    ensures
        text@ == seq![digit_char(d as int)],
{
    proof {
        reveal_strlit("0");
        reveal_strlit("1");
        reveal_strlit("2");
        reveal_strlit("3");
        reveal_strlit("4");
        reveal_strlit("5");
        reveal_strlit("6");
        reveal_strlit("7");
        reveal_strlit("8");
        reveal_strlit("9");
    }
    let text = if d == 0 {
        "0"
    } else if d == 1 {
        "1"
    } else if d == 2 {
        "2"
    } else if d == 3 {
        "3"
    } else if d == 4 {
        "4"
    } else if d == 5 {
        "5"
    } else if d == 6 {
        "6"
    } else if d == 7 {
        "7"
    } else if d == 8 {
        "8"
    } else {
        "9"
    };
    assert(text@ =~= seq![digit_char(d as int)]);
    text
}

/// Appends the decimal numeral of `n` to `out`.
pub fn append_decimal(out: &mut String, n: u64)
    ensures
        final(out)@ == old(out)@ + decimal_digits(n as nat),
    decreases n,
{
    if n >= 10 {
        append_decimal(out, n / 10);
    }
    out.append(digit_text(n % 10));
    assert(out@ =~= old(out)@ + decimal_digits(n as nat));
}

/// Appends the last `width` decimal digits of `n`, zero filled, to `out`.
pub fn append_fixed(out: &mut String, n: u64, width: u32)
    ensures
        final(out)@ == old(out)@ + fixed_digits(n as nat, width as nat),
    decreases width,
{
    if width > 0 {
        append_fixed(out, n / 10, width - 1);
        out.append(digit_text(n % 10));
    }
    assert(out@ =~= old(out)@ + fixed_digits(n as nat, width as nat));
}

/// The decimal numeral of `n`.
pub fn decimal_text(n: u64) -> (text: String)
    ensures
        text@ == decimal_digits(n as nat),
{
    let mut text = String::new();
    append_decimal(&mut text, n);
    assert(text@ =~= decimal_digits(n as nat));
    text
}

/// Appends `count` copies of `unit` to `out`.
pub fn append_repeated(out: &mut String, unit: &str, count: usize)
    ensures
        final(out)@ == old(out)@ + repeated(unit@, count as nat),
{
    let mut done: usize = 0;
    assert(out@ =~= old(out)@ + repeated(unit@, 0));
    while done < count
        invariant
            done <= count,
            out@ == old(out)@ + repeated(unit@, done as nat),
        decreases count - done,
    {
        out.append(unit);
        done = done + 1;
        assert(out@ =~= old(out)@ + repeated(unit@, done as nat));
    }
}

/// Appends `s`, then spaces up to `width` characters.
pub fn append_padded_right(out: &mut String, s: &str, width: usize)
    ensures
        final(out)@ == old(out)@ + pad_right(s@, width as nat),
{
    out.append(s);
    let len = s.unicode_len();
    if len < width {
        append_repeated(out, " ", width - len);
    }
    assert(out@ =~= old(out)@ + pad_right(s@, width as nat));
}

/// Appends spaces up to `width` characters, then `s`.
pub fn append_padded_left(out: &mut String, s: &str, width: usize)
    ensures
        final(out)@ == old(out)@ + pad_left(s@, width as nat),
{
    let len = s.unicode_len();
    if len < width {
        append_repeated(out, " ", width - len);
    }
    out.append(s);
    assert(out@ =~= old(out)@ + pad_left(s@, width as nat));
}

/// The texts of `parts` one after another, with a line feed after each
/// `every`-th of them where `every` is positive.
pub fn join(parts: &Vec<String>, every: usize) -> (text: String)
    ensures
        text@ == joined(texts(parts@), every as nat),
{
    let ghost all = texts(parts@);
    let mut text = String::new();
    let mut done: usize = 0;
    assert(text@ =~= joined(all.take(0), every as nat));
    while done < parts.len()
        invariant
            done <= parts.len(),
            all == texts(parts@),
            text@ == joined(all.take(done as int), every as nat),
        decreases parts.len() - done,
    {
        proof {
            assert(all.take(done + 1).drop_last() =~= all.take(done as int));
            assert(all.take(done + 1).last() == parts[done as int]@);
        }
        let ghost front = text@;
        text.append(parts[done].as_str());
        done = done + 1;
        if every > 0 && done % every == 0 {
            text.append("\n");
        } else {
            assert(text@ =~= front + parts[done - 1]@ + Seq::<char>::empty());
        }
    }
    assert(all.take(parts.len() as int) =~= all);
    text
}

} // verus!
