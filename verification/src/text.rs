//! Decimal numerals and joining of text, with the facts about them that the
//! anchors of the graph rest on.

use vstd::prelude::*;
use vstd::string::*;

verus! {

/// The character that stands for the digit `d`.
pub open spec fn digit_char(d: nat) -> char {
    if d == 0 {
        '0'
    } else if d == 1 {
        '1'
    } else if d == 2 {
        '2'
    } else if d == 3 {
        '3'
    } else if d == 4 {
        '4'
    } else if d == 5 {
        '5'
    } else if d == 6 {
        '6'
    } else if d == 7 {
        '7'
    } else if d == 8 {
        '8'
    } else {
        '9'
    }
}

/// Whether `c` is one of the ten decimal digits.
pub open spec fn is_digit(c: char) -> bool {
    c == '0' || c == '1' || c == '2' || c == '3' || c == '4' || c == '5' || c == '6' || c == '7'
        || c == '8' || c == '9'
}

/// The digit that `c` stands for (0 for any other character).
pub open spec fn digit_value(c: char) -> nat {
    if c == '1' {
        1
    } else if c == '2' {
        2
    } else if c == '3' {
        3
    } else if c == '4' {
        4
    } else if c == '5' {
        5
    } else if c == '6' {
        6
    } else if c == '7' {
        7
    } else if c == '8' {
        8
    } else if c == '9' {
        9
    } else {
        0
    }
}

/// The decimal numeral of `n`, without leading zeros.
pub open spec fn decimal(n: nat) -> Seq<char>
    decreases n,
{
    if n < 10 {
        seq![digit_char(n)]
    } else {
        decimal(n / 10).push(digit_char(n % 10))
    }
}

/// The number that a numeral stands for.
pub open spec fn decimal_value(s: Seq<char>) -> nat
    decreases s.len(),
{
    if s.len() == 0 {
        0
    } else {
        decimal_value(s.drop_last()) * 10 + digit_value(s.last())
    }
}

/// Whether every character of `s` is a decimal digit.
pub open spec fn all_digits(s: Seq<char>) -> bool {
    forall|i: int| 0 <= i < s.len() ==> is_digit(#[trigger] s[i])
}

/// A numeral is not empty and holds digits only.
pub proof fn lemma_decimal_digits(n: nat)
    ensures
        decimal(n).len() > 0,
        all_digits(decimal(n)),
    decreases n,
{
    if n >= 10 {
        lemma_decimal_digits(n / 10);
    }
}

/// Reading a numeral gives back the number it was written for.
pub proof fn lemma_decimal_value(n: nat)
    ensures
        decimal_value(decimal(n)) == n,
    decreases n,
{
    if n < 10 {
        let s = decimal(n);
        assert(s.drop_last() =~= Seq::<char>::empty());
        assert(decimal_value(s.drop_last()) == 0);
    } else {
        lemma_decimal_value(n / 10);
        let s = decimal(n);
        assert(s.drop_last() =~= decimal(n / 10));
    }
}

/// Two numbers with the same numeral are the same number.
pub proof fn lemma_decimal_injective(a: nat, b: nat)
    requires
        decimal(a) == decimal(b),
    ensures
        a == b,
{
    lemma_decimal_value(a);
    lemma_decimal_value(b);
}

/// The parts of `parts` in order, with `sep` between each two neighbours.
pub open spec fn join(parts: Seq<Seq<char>>, sep: Seq<char>) -> Seq<char>
    decreases parts.len(),
{
    if parts.len() == 0 {
        Seq::empty()
    } else if parts.len() == 1 {
        parts[0]
    } else {
        join(parts.drop_last(), sep) + sep + parts.last()
    }
}

fn digit_str(d: u32) -> (s: &'static str)
    requires
        d < 10,
    ensures
        s@ == seq![digit_char(d as nat)],
{
    proof {
        reveal_strlit("0");
        reveal_strlit("1");
        reveal_strlit("2");
        reveal_strlit("3");
        reveal_strlit("4");
        reveal_strlit("5");
        reveal_strlit("6");
        reveal_strlit("7");
        reveal_strlit("8");
        reveal_strlit("9");
    }
    let s = match d {
        0 => "0",
        1 => "1",
        2 => "2",
        3 => "3",
        4 => "4",
        5 => "5",
        6 => "6",
        7 => "7",
        8 => "8",
        _ => "9",
    };
    assert(s@ =~= seq![digit_char(d as nat)]);
    s
}

/// Appends the decimal numeral of `n` to `out`.
pub fn push_decimal(out: &mut String, n: u32)
    ensures
        final(out)@ == old(out)@ + decimal(n as nat),
    decreases n,
{
    if n >= 10 {
        push_decimal(out, n / 10);
    }
    out.append(digit_str(n % 10));
    assert(final(out)@ =~= old(out)@ + decimal(n as nat));
}

/// The decimal numeral of `n` as a string.
pub fn decimal_string(n: u32) -> (s: String)
    ensures
        s@ == decimal(n as nat),
{
    let mut s = String::new();
    push_decimal(&mut s, n);
    assert(s@ =~= decimal(n as nat));
    s
}

/// The two places of the output in which text of the caller's stands.
#[derive(Clone, Copy, Debug, PartialEq, Eq, Structural)]
pub enum Escape {
    /// Inside a label: as the text or an attribute of a tag.
    Html,
    /// Between the double quotes of an identifier.
    Quoted,
}

/// What is written for the character `c`: inside a label, `&`, `<`, `>` and
/// `"` become entities; between double quotes, `"` and `\` get a `\` in
/// front; any other character stands for itself.
pub open spec fn escape_char(mode: Escape, c: char) -> Seq<char> {
    match mode {
        Escape::Html => if c == '&' {
            "&amp;"@
        } else if c == '<' {
            "&lt;"@
        } else if c == '>' {
            "&gt;"@
        } else if c == '"' {
            "&quot;"@
        } else {
            seq![c]
        },
        Escape::Quoted => if c == '"' {
            "\\\""@
        } else if c == '\\' {
            "\\\\"@
        } else {
            seq![c]
        },
    }
}

/// What is written for the text `s`: what is written for each of its
/// characters, in order.
pub open spec fn escaped(mode: Escape, s: Seq<char>) -> Seq<char>
    decreases s.len(),
{
    if s.len() == 0 {
        Seq::empty()
    } else {
        escaped(mode, s.drop_last()) + escape_char(mode, s.last())
    }
}

/// Text written for a label holds none of `<`, `>` and `"`: it opens or
/// closes no tag and ends no attribute.
pub proof fn lemma_escaped_html_plain(s: Seq<char>)
    ensures
        forall|i: int|
            0 <= i < escaped(Escape::Html, s).len() ==> {
                let c = #[trigger] escaped(Escape::Html, s)[i];
                c != '<' && c != '>' && c != '"'
            },
    decreases s.len(),
{
    if s.len() > 0 {
        lemma_escaped_html_plain(s.drop_last());
        reveal_strlit("&amp;");
        reveal_strlit("&lt;");
        reveal_strlit("&gt;");
        reveal_strlit("&quot;");
        let head = escaped(Escape::Html, s.drop_last());
        let tail = escape_char(Escape::Html, s.last());
        assert forall|j: int| 0 <= j < tail.len() implies tail[j] != '<' && tail[j] != '>'
            && tail[j] != '"' by {}
        assert forall|i: int| 0 <= i < escaped(Escape::Html, s).len() implies {
            let c = #[trigger] escaped(Escape::Html, s)[i];
            c != '<' && c != '>' && c != '"'
        } by {
            if i < head.len() {
                assert(escaped(Escape::Html, s)[i] == head[i]);
            } else {
                assert(escaped(Escape::Html, s)[i] == tail[i - head.len()]);
            }
        }
    }
}

/// Text without any of the characters that are rewritten is written as it
/// stands.
pub proof fn lemma_escaped_unchanged(mode: Escape, s: Seq<char>)
    requires
        forall|i: int| 0 <= i < s.len() ==> escape_char(mode, #[trigger] s[i]) == seq![s[i]],
    ensures
        escaped(mode, s) == s,
    decreases s.len(),
{
    if s.len() > 0 {
        assert forall|i: int| 0 <= i < s.drop_last().len() implies escape_char(
            mode,
            #[trigger] s.drop_last()[i],
        ) == seq![s.drop_last()[i]] by {
            assert(s.drop_last()[i] == s[i]);
        }
        lemma_escaped_unchanged(mode, s.drop_last());
        assert(escape_char(mode, s.last()) == seq![s[s.len() - 1]]);
        assert(escaped(mode, s) =~= s);
    }
}

fn replacement(mode: Escape, c: char) -> (r: Option<&'static str>)
    ensures
        match r {
            Some(text) => text@ == escape_char(mode, c),
            None => escape_char(mode, c) == seq![c],
        },
{
    match mode {
        Escape::Html => if c == '&' {
            Some("&amp;")
        } else if c == '<' {
            Some("&lt;")
        } else if c == '>' {
            Some("&gt;")
        } else if c == '"' {
            Some("&quot;")
        } else {
            None
        },
        Escape::Quoted => if c == '"' {
            Some("\\\"")
        } else if c == '\\' {
            Some("\\\\")
        } else {
            None
        },
    }
}

/// Appends to `out` what is written for the text `s`.
pub fn push_escaped(out: &mut String, mode: Escape, s: &str)
    ensures
        final(out)@ == old(out)@ + escaped(mode, s@),
{
    let n = s.unicode_len();
    let mut start: usize = 0;
    let mut i: usize = 0;
    assert(s@.take(0) =~= Seq::<char>::empty());
    assert(out@ =~= old(out)@ + escaped(mode, s@.take(0)));
    while i < n
        invariant
            n == s@.len(),
            start <= i <= n,
            out@ + s@.subrange(start as int, i as int) == old(out)@ + escaped(
                mode,
                s@.take(i as int),
            ),
        decreases n - i,
    {
        let c = s.get_char(i);
        let ghost before = out@;
        let ghost run = s@.subrange(start as int, i as int);
        proof {
            assert(s@.take(i + 1).drop_last() =~= s@.take(i as int));
            assert(s@.take(i + 1).last() == c);
        }
        match replacement(mode, c) {
            Some(text) => {
                out.append(s.substring_char(start, i));
                out.append(text);
                start = i + 1;
                assert(out@ + s@.subrange(start as int, i + 1) =~= (before + run) + text@) by {
                    assert(s@.subrange(i + 1, i + 1) =~= Seq::<char>::empty());
                }
            },
            None => {
                assert(s@.subrange(start as int, i + 1) =~= run + seq![c]);
                assert(out@ + s@.subrange(start as int, i + 1) =~= (out@ + run) + seq![c]);
            },
        }
        i += 1;
    }
    out.append(s.substring_char(start, n));
    assert(s@.take(n as int) =~= s@);
}

} // verus!
