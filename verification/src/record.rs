//! Textual records: the key list as it is persisted, and the usernames as
//! they are entered.

use vstd::prelude::*;
use crate::chars::{char_is_space, chars_of, is_space, same_text, skip_spaces};

verus! {

/// The character of a decimal digit.
pub open spec fn digit(d: int) -> char {
    if d == 0 {
        '0'
    } else if d == 1 {
        '1'
    } else if d == 2 {
        '2'
    } else if d == 3 {
        '3'
    } else if d == 4 {
        '4'
    } else if d == 5 {
        '5'
    } else if d == 6 {
        '6'
    } else if d == 7 {
        '7'
    } else if d == 8 {
        '8'
    } else {
        '9'
    }
}

/// The decimal numeral of `n`, without leading zeros.
pub open spec fn decimal(n: nat) -> Seq<char>
    decreases n,
{
    if n < 10 {
        seq![digit(n as int)]
    } else {
        decimal(n / 10).push(digit((n % 10) as int))
    }
}

/// The items, separated by a comma and a space.
pub open spec fn joined(items: Seq<Seq<char>>) -> Seq<char>
    decreases items.len(),
{
    if items.len() == 0 {
        Seq::empty()
    } else if items.len() == 1 {
        items[0]
    } else {
        joined(items.drop_last()) + seq![',', ' '] + items.last()
    }
}

/// The items as a list in square brackets.
pub open spec fn listed(items: Seq<Seq<char>>) -> Seq<char> {
    seq!['['] + joined(items) + seq![']']
}

/// The numerals of the bytes of `row`.
pub open spec fn numerals(row: Seq<u8>) -> Seq<Seq<char>> {
    Seq::new(row.len(), |i: int| decimal(row[i] as nat))
}

/// One key as a list of decimal byte values.
pub open spec fn row_text(row: Seq<u8>) -> Seq<char> {
    listed(numerals(row))
}

/// The texts of the keys.
pub open spec fn row_texts(keys: Seq<Seq<u8>>) -> Seq<Seq<char>> {
    Seq::new(keys.len(), |i: int| row_text(keys[i]))
}

/// The key list as it is persisted: a list of lists of decimal byte values.
pub open spec fn keys_text(keys: Seq<Seq<u8>>) -> Seq<char> {
    listed(row_texts(keys))
}

/// The text of one decimal digit.
fn digit_text(d: u8) -> (text: &'static str)
    requires
        d < 10,
    ensures
        text@ == seq![digit(d as int)],
{
    proof {
        reveal_strlit("0");
        reveal_strlit("1");
        reveal_strlit("2");
        reveal_strlit("3");
        reveal_strlit("4");
        reveal_strlit("5");
        reveal_strlit("6");
        reveal_strlit("7");
        reveal_strlit("8");
        reveal_strlit("9");
    }
    let text = if d == 0 {
        "0"
    } else if d == 1 {
        "1"
    } else if d == 2 {
        "2"
    } else if d == 3 {
        "3"
    } else if d == 4 {
        "4"
    } else if d == 5 {
        "5"
    } else if d == 6 {
        "6"
    } else if d == 7 {
        "7"
    } else if d == 8 {
        "8"
    } else {
        "9"
    };
    assert(text@ =~= seq![digit(d as int)]);
    text
}

/// Appends the decimal numeral of a byte.
fn push_decimal(out: &mut String, n: u8)
    ensures
        final(out)@ == old(out)@ + decimal(n as nat),
{
    reveal_with_fuel(decimal, 3);
    if n >= 100 {
        out.append(digit_text(n / 100));
    }
    if n >= 10 {
        out.append(digit_text((n / 10) % 10));
    }
    out.append(digit_text(n % 10));
    assert(out@ =~= old(out)@ + decimal(n as nat));
}

/// Appends the separator before every item but the first.
fn push_separator(out: &mut String, index: usize)
    ensures
        final(out)@ == old(out)@ + (if index == 0 {
            Seq::<char>::empty()
        } else {
            seq![',', ' ']
        }),
{
    if index > 0 {
        out.append(", ");
        proof {
            reveal_strlit(", ");
            assert(", "@ =~= seq![',', ' ']);
        }
    }
    assert(out@ =~= old(out)@ + (if index == 0 {
        Seq::<char>::empty()
    } else {
        seq![',', ' ']
    }));
}

/// The first `n + 1` items joined are the first `n` joined, the separator
/// if there is an item before, and the next item.
proof fn lemma_joined_next(items: Seq<Seq<char>>, n: int)
    requires
        0 <= n < items.len(),
    ensures
        joined(items.take(n + 1)) == joined(items.take(n)) + (if n == 0 {
            Seq::<char>::empty()
        } else {
            seq![',', ' ']
        }) + items[n],
{
    let t = items.take(n + 1);
    assert(t.drop_last() =~= items.take(n));
    assert(t.last() == items[n]);
    if n == 0 {
        assert(joined(items.take(0)) =~= Seq::<char>::empty());
        assert(joined(t) =~= joined(items.take(n)) + Seq::<char>::empty() + items[n]);
    }
}

/// Appends one key as a list of decimal byte values.
fn push_row(out: &mut String, row: &Vec<u8>)
    ensures
        final(out)@ == old(out)@ + row_text(row@),
{
    let ghost items = numerals(row@);
    out.append("[");
    proof {
        reveal_strlit("[");
        reveal_strlit("]");
        assert("["@ =~= seq!['[']);
        assert("]"@ =~= seq![']']);
        assert(joined(items.take(0)) =~= Seq::<char>::empty());
        assert(out@ =~= old(out)@ + seq!['['] + joined(items.take(0)));
    }
    let mut i: usize = 0;
    while i < row.len()
        invariant
            i <= row.len(),
            items == numerals(row@),
            out@ == old(out)@ + seq!['['] + joined(items.take(i as int)),
        decreases row.len() - i,
    {
        let ghost before = out@;
        push_separator(out, i);
        push_decimal(out, row[i]);
        proof {
            lemma_joined_next(items, i as int);
            assert(out@ =~= old(out)@ + seq!['['] + joined(items.take(i + 1)));
        }
        i = i + 1;
    }
    out.append("]");
    proof {
        assert(items.take(i as int) =~= items);
        assert(out@ =~= old(out)@ + row_text(row@));
    }
}

/// Writes the key list as it is persisted.
pub fn render_keys(keys: &Vec<Vec<u8>>) -> (text: String)
    ensures
        text@ == keys_text(keys.deep_view()),
{
    let ghost items = row_texts(keys.deep_view());
    let mut out = String::new();
    out.append("[");
    proof {
        reveal_strlit("[");
        reveal_strlit("]");
        assert("["@ =~= seq!['[']);
        assert("]"@ =~= seq![']']);
        assert(joined(items.take(0)) =~= Seq::<char>::empty());
        assert(out@ =~= seq!['['] + joined(items.take(0)));
    }
    let mut i: usize = 0;
    while i < keys.len()
        invariant
            i <= keys.len(),
            items == row_texts(keys.deep_view()),
            out@ == seq!['['] + joined(items.take(i as int)),
        decreases keys.len() - i,
    {
        push_separator(&mut out, i);
        push_row(&mut out, &keys[i]);
        proof {
            assert(keys.deep_view()[i as int] =~= keys@[i as int]@);
            lemma_joined_next(items, i as int);
            assert(out@ =~= seq!['['] + joined(items.take(i + 1)));
        }
        i = i + 1;
    }
    out.append("]");
    proof {
        assert(items.take(i as int) =~= items);
        assert(out@ =~= keys_text(keys.deep_view()));
    }
    out
}

/// Where the text ends that is left of the first `n` characters of `s`
/// once whitespace at their end is taken away.
pub open spec fn end_of_text(s: Seq<char>, n: int) -> int
    decreases n,
{
    if n <= 0 {
        0
    } else if !is_space(s[n - 1]) {
        n
    } else {
        end_of_text(s, n - 1)
    }
}

/// `s` without the whitespace at its start and at its end.
pub open spec fn trimmed(s: Seq<char>) -> Seq<char> {
    let from = skip_spaces(s, 0);
    let to = end_of_text(s, s.len() as int);
    if from < to {
        s.subrange(from, to)
    } else {
        Seq::empty()
    }
}

/// The word that ends the entry of names.
pub open spec fn end_word() -> Seq<char> {
    seq!['d', 'o', 'n', 'e']
}

/// The names entered on the first `n` lines, given that none of them ends
/// the entry: each line, trimmed.
pub open spec fn names_of(lines: Seq<Seq<char>>, n: int) -> Seq<Seq<char>> {
    Seq::new(n as nat, |i: int| trimmed(lines[i]))
}

/// How many lines come before the one that ends the entry, from `i` on.
pub open spec fn entry_length(lines: Seq<Seq<char>>, i: int) -> int
    decreases lines.len() - i,
{
    if i >= lines.len() {
        lines.len() as int
    } else if trimmed(lines[i]) == end_word() {
        i
    } else {
        entry_length(lines, i + 1)
    }
}

/// The names that the lines enter: every line, trimmed, up to the first
/// line that holds the end word, or up to the last line if none does.
pub open spec fn entered(lines: Seq<Seq<char>>) -> Seq<Seq<char>> {
    names_of(lines, entry_length(lines, 0))
}

/// Trims a line.
pub fn trim_line(line: &str) -> (text: String)
    ensures
        text@ == trimmed(line@),
{
    let cs = chars_of(line);
    let n = cs.len();
    let mut from: usize = 0;
    while from < n && char_is_space(cs[from])
        invariant
            from <= n,
            n == cs.len(),
            skip_spaces(cs@, 0) == skip_spaces(cs@, from as int),
        decreases n - from,
    {
        from = from + 1;
    }
    let mut to: usize = n;
    while to > 0 && char_is_space(cs[to - 1])
        invariant
            to <= n,
            n == cs.len(),
            end_of_text(cs@, n as int) == end_of_text(cs@, to as int),
        decreases to,
    {
        to = to - 1;
    }
    if from < to {
        line.substring_char(from, to).to_owned()
    } else {
        String::new()
    }
}

/// Reads the names that were entered line by line.
pub fn entered_usernames(lines: &Vec<String>) -> (names: Vec<String>)
    ensures
        names.deep_view() == entered(lines.deep_view()),
{
    let mut names: Vec<String> = Vec::new();
    let mut i: usize = 0;
    proof {
        reveal_strlit("done");
        assert("done"@ =~= end_word());
    }
    while i < lines.len()
        invariant
            i <= lines.len(),
            "done"@ == end_word(),
            names.deep_view() == names_of(lines.deep_view(), i as int),
            entry_length(lines.deep_view(), 0) == entry_length(lines.deep_view(), i as int),
        decreases lines.len() - i,
    {
        let name = trim_line(lines[i].as_str());
        if same_text(name.as_str(), "done") {
            return names;
        }
        let ghost before = names.deep_view();
        names.push(name);
        proof {
            assert(names.deep_view() =~= before.push(name@));
            assert(names.deep_view() =~= names_of(lines.deep_view(), i + 1));
        }
        i = i + 1;
    }
    names
}

} // verus!
