//! Text: numbers in decimal and hexadecimal, separated lists, trimming.
use vstd::prelude::*;

use crate::u256::spelled_number;

verus! {

broadcast use vstd::string::group_string_axioms;

/// `String::push` appends one character.
pub assume_specification[ String::push ](s: &mut String, c: char)
    ensures
        final(s)@ == old(s)@.push(c),
;

/// The characters of each string of a list.
pub open spec fn texts(list: Seq<String>) -> Seq<Seq<char>> {
    list.map_values(|s: String| s@)
}

/// The digit of a number below sixteen, in lower case.
pub open spec fn digit(d: nat) -> char {
    if d < 10 {
        (48 + d) as char
    } else {
        (87 + d) as char
    }
}

/// A number in decimal, without leading zeros.
pub open spec fn decimal(n: nat) -> Seq<char>
    decreases n,
{
    if n < 10 {
        seq![digit(n)]
    } else {
        decimal(n / 10).push(digit(n % 10))
    }
}

/// A number in lower-case hexadecimal, without leading zeros.
pub open spec fn hexadecimal(n: nat) -> Seq<char>
    decreases n,
{
    if n < 16 {
        seq![digit(n)]
    } else {
        hexadecimal(n / 16).push(digit(n % 16))
    }
}

/// Whether the text is one or more decimal digits.
pub open spec fn is_decimal(s: Seq<char>) -> bool {
    s.len() > 0 && forall|i: int| 0 <= i < s.len() ==> '0' <= #[trigger] s[i] <= '9'
}

/// The number that a text of decimal digits spells.
pub open spec fn decimal_value(s: Seq<char>) -> nat
    decreases s.len(),
{
    if s.len() == 0 {
        0
    } else {
        (10 * decimal_value(s.drop_last()) + (s.last() as int - 48)) as nat
    }
}

/// A number written in decimal spells that number again.
pub proof fn lemma_decimal_round_trip(n: nat)
    ensures
        is_decimal(decimal(n)),
        decimal_value(decimal(n)) == n,
    decreases n,
{
    if n < 10 {
        reveal_with_fuel(decimal_value, 2);
        assert(seq![digit(n)].drop_last() =~= Seq::<char>::empty());
    } else {
        lemma_decimal_round_trip(n / 10);
        let s = decimal(n);
        assert(s.drop_last() =~= decimal(n / 10));
    }
}

/// The bytes in lower-case hexadecimal, two digits each.
pub open spec fn hex_bytes(bytes: Seq<u8>) -> Seq<char> {
    Seq::new(
        2 * bytes.len(),
        |i: int|
            digit(
                if i % 2 == 0 {
                    bytes[i / 2] as nat / 16
                } else {
                    bytes[i / 2] as nat % 16
                },
            ),
    )
}

/// The text cut at every occurrence of the separator.
pub open spec fn pieces(s: Seq<char>, separator: char) -> Seq<Seq<char>>
    decreases s.len(),
{
    if s.len() == 0 {
        seq![Seq::<char>::empty()]
    } else {
        let before = pieces(s.drop_last(), separator);
        if s.last() == separator {
            before.push(Seq::<char>::empty())
        } else {
            before.drop_last().push(before.last().push(s.last()))
        }
    }
}

/// Whether `needle` occurs in `text`.
pub open spec fn occurs(text: Seq<char>, needle: Seq<char>) -> bool {
    exists|i: int|
        0 <= i <= text.len() - needle.len() && #[trigger] text.subrange(i, i + needle.len())
            == needle
}

/// The characters that Unicode counts as white space.
pub open spec fn is_blank(c: char) -> bool {
    ||| '\u{9}' <= c <= '\u{d}'
    ||| c == ' '
    ||| c == '\u{85}'
    ||| c == '\u{a0}'
    ||| c == '\u{1680}'
    ||| '\u{2000}' <= c <= '\u{200a}'
    ||| c == '\u{2028}'
    ||| c == '\u{2029}'
    ||| c == '\u{202f}'
    ||| c == '\u{205f}'
    ||| c == '\u{3000}'
}

/// The text without the blanks at its start.
pub open spec fn trimmed_start(s: Seq<char>) -> Seq<char>
    decreases s.len(),
{
    if s.len() > 0 && is_blank(s.first()) {
        trimmed_start(s.drop_first())
    } else {
        s
    }
}

/// The text without the blanks at its end.
pub open spec fn trimmed_end(s: Seq<char>) -> Seq<char>
    decreases s.len(),
{
    if s.len() > 0 && is_blank(s.last()) {
        trimmed_end(s.drop_last())
    } else {
        s
    }
}

/// The text without the blanks at its start and its end.
pub open spec fn trimmed(s: Seq<char>) -> Seq<char> {
    trimmed_end(trimmed_start(s))
}

/// The characters of a text, as a list.
pub(crate) fn characters(s: &str) -> (r: Vec<char>)
    ensures
        r@ == s@,
{
    let mut list: Vec<char> = Vec::new();
    for c in it: s.chars()
        invariant
            it.seq() == s@,
            list@ == s@.take(it.index() as int),
    {
        list.push(c);
    }
    list
}

/// Cuts a text at every occurrence of the separator, as `str::split` does.
pub fn split(s: &str, separator: char) -> (r: Vec<String>)
    ensures
        texts(r@) == pieces(s@, separator),
{
    let list = characters(s);
    let mut done: Vec<String> = Vec::new();
    let mut start: usize = 0;
    let mut i: usize = 0;
    assert(s@.take(0) =~= Seq::<char>::empty());
    assert(texts(done@).push(s@.subrange(0, 0)) =~= seq![Seq::<char>::empty()]);
    while i < list.len()
        invariant
            list@ == s@,
            start <= i <= list.len(),
            pieces(s@.take(i as int), separator) == texts(done@).push(
                s@.subrange(start as int, i as int),
            ),
        decreases list.len() - i,
    {
        let ghost before = pieces(s@.take(i as int), separator);
        assert(s@.take(i + 1).drop_last() =~= s@.take(i as int));
        if list[i] == separator {
            let piece = s.substring_char(start, i).to_owned();
            done.push(piece);
            start = i + 1;
            assert(texts(done@) =~= before);
            assert(s@.subrange(start as int, i + 1) =~= Seq::<char>::empty());
        } else {
            assert(s@.subrange(start as int, i + 1) =~= s@.subrange(start as int, i as int).push(
                s@[i as int],
            ));
            assert(before.drop_last() =~= texts(done@));
        }
        i = i + 1;
    }
    let piece = s.substring_char(start, i).to_owned();
    assert(s@.take(i as int) =~= s@);
    let ghost before = texts(done@);
    done.push(piece);
    assert(texts(done@) =~= before.push(s@.subrange(start as int, i as int)));
    done
}

/// Whether `needle` occurs in `text`, as `str::contains` does.
pub fn contains(text: &str, needle: &str) -> (r: bool)
    ensures
        r == occurs(text@, needle@),
{
    let long = characters(text);
    let short = characters(needle);
    let mut i: usize = 0;
    while i <= long.len() && short.len() <= long.len() - i
        invariant
            long@ == text@,
            short@ == needle@,
            i <= long.len() + 1,
            forall|k: int|
                0 <= k < i && k <= text@.len() - needle@.len() ==> #[trigger] text@.subrange(
                    k,
                    k + needle@.len(),
                ) != needle@,
        decreases long.len() + 1 - i,
    {
        let mut j: usize = 0;
        while j < short.len() && long[i + j] == short[j]
            invariant
                long@ == text@,
                short@ == needle@,
                i + short.len() <= long.len(),
                j <= short.len(),
                forall|k: int| 0 <= k < j ==> text@[i + k] == #[trigger] needle@[k],
            decreases short.len() - j,
        {
            j = j + 1;
        }
        if j == short.len() {
            assert(text@.subrange(i as int, i + needle@.len()) =~= needle@);
            return true;
        }
        assert(text@.subrange(i as int, i + needle@.len())[j as int] != needle@[j as int]);
        i = i + 1;
    }
    false
}

/// Whether Unicode counts the character as white space.
pub fn blank(c: char) -> (r: bool)
    ensures
        r == is_blank(c),
{
    ('\u{9}' <= c && c <= '\u{d}') || c == ' ' || c == '\u{85}' || c == '\u{a0}' || c == '\u{1680}'
        || ('\u{2000}' <= c && c <= '\u{200a}') || c == '\u{2028}' || c == '\u{2029}' || c
        == '\u{202f}' || c == '\u{205f}' || c == '\u{3000}'
}

/// Removes the blanks at the start and the end of a text, as `str::trim` does.
pub fn trim(s: &str) -> (r: String)
    ensures
        r@ == trimmed(s@),
{
    let list = characters(s);
    let mut start: usize = 0;
    assert(s@.skip(0) =~= s@);
    while start < list.len() && blank(list[start])
        invariant
            list@ == s@,
            start <= list.len(),
            trimmed_start(s@.skip(start as int)) == trimmed_start(s@),
        decreases list.len() - start,
    {
        assert(s@.skip(start as int).drop_first() =~= s@.skip(start + 1));
        start = start + 1;
    }
    assert(trimmed_start(s@) == s@.skip(start as int));
    let mut end: usize = list.len();
    assert(s@.subrange(start as int, end as int) =~= s@.skip(start as int));
    while end > start && blank(list[end - 1])
        invariant
            list@ == s@,
            start <= end <= list.len(),
            trimmed_end(s@.subrange(start as int, end as int)) == trimmed(s@),
        decreases end,
    {
        assert(s@.subrange(start as int, end as int).drop_last() =~= s@.subrange(
            start as int,
            end - 1,
        ));
        end = end - 1;
    }
    s.substring_char(start, end).to_owned()
}

/// The number that a text spells as an unsigned integer: decimal digits, with
/// at most one plus sign before them.
pub open spec fn unsigned_value(s: Seq<char>) -> Option<nat> {
    let digits = if s.len() > 1 && s[0] == '+' {
        s.skip(1)
    } else {
        s
    };
    if is_decimal(digits) {
        Some(decimal_value(digits))
    } else {
        None
    }
}

/// The number that a text spells, where it is at most `max`.
pub open spec fn unsigned_up_to(s: Seq<char>, max: nat) -> Option<nat> {
    match unsigned_value(s) {
        Some(n) if n <= max => Some(n),
        _ => None,
    }
}

proof fn lemma_prefix_value(s: Seq<char>, k: int)
    requires
        is_decimal(s),
        0 <= k <= s.len(),
    ensures
        decimal_value(s.take(k)) <= decimal_value(s),
    decreases s.len() - k,
{
    if k == s.len() {
        assert(s.take(k) =~= s);
    } else {
        assert(s.take(k + 1).drop_last() =~= s.take(k));
        assert(s.take(k + 1).last() == s[k]);
        lemma_prefix_value(s, k + 1);
    }
}

/// Reads an unsigned integer of at most `max`, as the parsers of Rust's
/// unsigned types do.
pub fn parse_unsigned(s: &str, max: u64) -> (r: Option<u64>)
    ensures
        match r {
            Some(n) => unsigned_up_to(s@, max as nat) == Some(n as nat),
            None => unsigned_up_to(s@, max as nat) is None,
        },
{
    let list = characters(s);
    let start: usize = if list.len() > 1 && list[0] == '+' {
        1
    } else {
        0
    };
    if start == list.len() {
        return None;
    }
    let ghost digits = s@.skip(start as int);
    proof {
        assert(start == 0 ==> digits =~= s@);
    }
    let mut all: usize = start;
    while all < list.len()
        invariant
            list@ == s@,
            start <= all <= list.len(),
            digits == s@.skip(start as int),
            unsigned_value(s@) == (if is_decimal(digits) {
                Some(decimal_value(digits))
            } else {
                None::<nat>
            }),
            forall|k: int| 0 <= k < all - start ==> '0' <= #[trigger] digits[k] <= '9',
        decreases list.len() - all,
    {
        if list[all] < '0' || '9' < list[all] {
            assert(digits[all - start] == list[all as int]);
            return None;
        }
        all = all + 1;
    }
    let mut n: u64 = 0;
    let mut i: usize = start;
    assert(digits.take(0) =~= Seq::<char>::empty());
    while i < list.len()
        invariant
            list@ == s@,
            start <= i <= list.len(),
            digits == s@.skip(start as int),
            is_decimal(digits),
            unsigned_value(s@) == Some(decimal_value(digits)),
            n <= max,
            n == decimal_value(digits.take(i - start)),
        decreases list.len() - i,
    {
        proof {
            let k = i - start;
            assert(digits.take(k + 1).drop_last() =~= digits.take(k));
            assert(digits.take(k + 1).last() == list[i as int]);
            assert('0' <= digits[k] <= '9');
            lemma_prefix_value(digits, k + 1);
        }
        let d: u64 = (list[i] as u64) - 48;
        if d > max || n > max / 10 || n * 10 > max - d {
            assert(10 * n + d > max);
            return None;
        }
        n = n * 10 + d;
        i = i + 1;
    }
    assert(digits.take(i - start) =~= digits);
    Some(n)
}

/// Writes a number in lower-case hexadecimal after `0x`.
pub fn prefixed_hexadecimal(n: u64) -> (r: String)
    ensures
        r@ == seq!['0', 'x'] + hexadecimal(n as nat),
{
    let mut r = String::new();
    r.push('0');
    r.push('x');
    assert(r@ =~= seq!['0', 'x']);
    push_hexadecimal(&mut r, n);
    r
}

fn hex_digit(d: u64) -> (r: char)
    requires
        d < 16,
    ensures
        r == digit(d as nat),
{
    if d < 10 {
        (48 + d as u8) as char
    } else {
        (87 + d as u8) as char
    }
}

fn push_hexadecimal(s: &mut String, n: u64)
    ensures
        final(s)@ == old(s)@ + hexadecimal(n as nat),
    decreases n,
{
    if n >= 16 {
        push_hexadecimal(s, n / 16);
    }
    s.push(hex_digit(n % 16));
    assert(s@ =~= old(s)@ + hexadecimal(n as nat));
}

/// The character in lower case, where it is an ASCII letter.
pub open spec fn lower(c: char) -> char {
    if 'A' <= c <= 'Z' {
        (c as int + 32) as char
    } else {
        c
    }
}

/// Whether two texts differ at most in the case of ASCII letters.
pub open spec fn same_ignoring_case(a: Seq<char>, b: Seq<char>) -> bool {
    a.map_values(|c: char| lower(c)) == b.map_values(|c: char| lower(c))
}

fn to_lower(c: char) -> (r: char)
    ensures
        r == lower(c),
{
    if 'A' <= c && c <= 'Z' {
        (c as u8 + 32) as char
    } else {
        c
    }
}

/// Whether two texts differ at most in the case of ASCII letters.
pub fn equal_ignoring_case(a: &str, b: &str) -> (r: bool)
    ensures
        r == same_ignoring_case(a@, b@),
{
    let x = characters(a);
    let y = characters(b);
    let ghost p = a@.map_values(|c: char| lower(c));
    let ghost q = b@.map_values(|c: char| lower(c));
    if x.len() != y.len() {
        assert(p.len() != q.len());
        return false;
    }
    let mut i: usize = 0;
    while i < x.len()
        invariant
            x@ == a@,
            y@ == b@,
            x.len() == y.len(),
            p == a@.map_values(|c: char| lower(c)),
            q == b@.map_values(|c: char| lower(c)),
            i <= x.len(),
            forall|k: int| 0 <= k < i ==> #[trigger] p[k] == q[k],
        decreases x.len() - i,
    {
        if to_lower(x[i]) != to_lower(y[i]) {
            assert(p[i as int] != q[i as int]);
            return false;
        }
        i = i + 1;
    }
    assert(p =~= q);
    true
}

/// The texts of a list, one after the other, with a separator between each two.
pub open spec fn rejoined(list: Seq<Seq<char>>, separator: char) -> Seq<char>
    decreases list.len(),
{
    if list.len() == 0 {
        Seq::empty()
    } else if list.len() == 1 {
        list[0]
    } else {
        rejoined(list.drop_last(), separator).push(separator) + list.last()
    }
}

/// Cutting a text loses nothing: the pieces with the separator between them make up
/// the text again, and no piece holds the separator.
pub proof fn pieces_make_up_the_text(s: Seq<char>, separator: char)
    ensures
        pieces(s, separator).len() > 0,
        rejoined(pieces(s, separator), separator) == s,
        forall|i: int|
            0 <= i < pieces(s, separator).len() ==> !(#[trigger] pieces(s, separator)[i]).contains(
                separator,
            ),
    decreases s.len(),
{
    let list = pieces(s, separator);
    if s.len() == 0 {
        assert(list =~= seq![Seq::<char>::empty()]);
    } else {
        let rest = s.drop_last();
        let before = pieces(rest, separator);
        let c = s.last();
        pieces_make_up_the_text(rest, separator);
        assert(s =~= rest.push(c));
        if c == separator {
            assert(list.drop_last() =~= before);
            assert(rejoined(list, separator) =~= rest.push(separator));
        } else {
            let grown = before.last().push(c);
            assert(list.drop_last() =~= before.drop_last());
            if before.len() == 1 {
                assert(rejoined(list, separator) =~= grown);
            } else {
                assert(rejoined(list, separator) =~= rejoined(before, separator).push(c));
            }
            assert forall|i: int| 0 <= i < list.len() implies !(#[trigger] list[i]).contains(
                separator,
            ) by {
                if i < before.len() - 1 {
                    assert(list[i] == before[i]);
                } else {
                    assert(list[i] == grown);
                    assert(!before[i].contains(separator));
                    if grown.contains(separator) {
                        let k = grown.index_of(separator);
                        assert(before[i][k] == separator);
                    }
                }
            }
        }
    }
}

/// A text that is made up of two with a separator between them, of which the second
/// one does not hold the separator, is cut there.
pub proof fn last_piece_follows_the_last_separator(
    head: Seq<char>,
    tail: Seq<char>,
    separator: char,
)
    requires
        !tail.contains(separator),
    ensures
        pieces(head.push(separator) + tail, separator) == pieces(head, separator).push(tail),
        pieces(tail, separator) == seq![tail],
    decreases tail.len(),
{
    let whole = head.push(separator) + tail;
    if tail.len() == 0 {
        assert(whole =~= head.push(separator));
        assert(whole.drop_last() =~= head);
        assert(tail =~= Seq::empty());
    } else {
        let rest = tail.drop_last();
        assert(!rest.contains(separator)) by {
            if rest.contains(separator) {
                let k = rest.index_of(separator);
                assert(tail[k] == separator);
            }
        }
        assert(tail[tail.len() - 1] != separator);
        last_piece_follows_the_last_separator(head, rest, separator);
        assert(whole.drop_last() =~= head.push(separator) + rest);
        assert(rest.push(tail.last()) =~= tail);
        let before = pieces(head.push(separator) + rest, separator);
        assert(before.drop_last() =~= pieces(head, separator));
        assert(pieces(tail, separator) =~= seq![tail]);
    }
}

/// Trimming takes blanks from both ends and nothing else: what is left is a part of
/// the text, everything before it and after it is blank, and it neither starts nor
/// ends with a blank.
pub proof fn trimming_takes_blanks_from_both_ends(s: Seq<char>)
    ensures
        exists|i: int, j: int|
            0 <= i <= j <= s.len() && trimmed(s) == #[trigger] s.subrange(i, j) && (forall|k: int|
                (0 <= k < i || j <= k < s.len()) ==> is_blank(#[trigger] s[k])),
        trimmed(s).len() > 0 ==> !is_blank(trimmed(s).first()) && !is_blank(trimmed(s).last()),
{
    let i = lemma_trimmed_start(s);
    let t = s.skip(i);
    let j = lemma_trimmed_end(t);
    assert(trimmed(s) =~= s.subrange(i, i + j));
    assert forall|k: int| (0 <= k < i || i + j <= k < s.len()) implies is_blank(#[trigger] s[k]) by {
        if k >= i {
            assert(t[k - i] == s[k]);
        }
    }
}

proof fn lemma_trimmed_start(s: Seq<char>) -> (i: int)
    ensures
        0 <= i <= s.len(),
        trimmed_start(s) == s.skip(i),
        forall|k: int| 0 <= k < i ==> is_blank(#[trigger] s[k]),
        i < s.len() ==> !is_blank(s[i]),
    decreases s.len(),
{
    if s.len() > 0 && is_blank(s.first()) {
        let rest = s.drop_first();
        let i = lemma_trimmed_start(rest);
        assert(rest.skip(i) =~= s.skip(i + 1));
        assert forall|k: int| 0 <= k < i + 1 implies is_blank(#[trigger] s[k]) by {
            if k > 0 {
                assert(rest[k - 1] == s[k]);
            }
        }
        i + 1
    } else {
        assert(s.skip(0) =~= s);
        0
    }
}

proof fn lemma_trimmed_end(s: Seq<char>) -> (j: int)
    ensures
        0 <= j <= s.len(),
        trimmed_end(s) == s.take(j),
        forall|k: int| j <= k < s.len() ==> is_blank(#[trigger] s[k]),
        j > 0 ==> !is_blank(s[j - 1]),
    decreases s.len(),
{
    if s.len() > 0 && is_blank(s.last()) {
        let rest = s.drop_last();
        let j = lemma_trimmed_end(rest);
        assert(rest.take(j) =~= s.take(j));
        assert forall|k: int| j <= k < s.len() implies is_blank(#[trigger] s[k]) by {
            if k < rest.len() {
                assert(rest[k] == s[k]);
            }
        }
        j
    } else {
        assert(s.take(s.len() as int) =~= s);
        s.len() as int
    }
}

/// The ASCII characters that count as blank are the tab, the four that follow it and
/// the space; no letter, digit or punctuation mark does.
pub proof fn ascii_blanks_are_six(c: char)
    ensures
        (c as int) < 128 ==> (is_blank(c) <==> c as int == 32 || 9 <= c as int <= 13),
{
}

/// A number in decimal or hexadecimal has no leading zero, but for zero itself, which
/// is one digit.
pub proof fn numbers_have_no_leading_zero(n: nat)
    ensures
        decimal(n).len() > 0,
        hexadecimal(n).len() > 0,
        n > 0 ==> decimal(n)[0] != '0' && hexadecimal(n)[0] != '0',
        n == 0 ==> decimal(n).len() == 1 && hexadecimal(n).len() == 1,
    decreases n,
{
    if n >= 10 {
        numbers_have_no_leading_zero(n / 10);
    }
    if n >= 16 {
        numbers_have_no_leading_zero(n / 16);
    }
}

/// A number in hexadecimal, read digit by digit in base sixteen, is that number again.
pub proof fn hexadecimal_spells_the_number(n: nat)
    ensures
        spelled_number(hexadecimal(n), 16) == Some(n),
    decreases n,
{
    reveal_with_fuel(spelled_number, 2);
    if n < 16 {
        assert(hexadecimal(n).drop_last() =~= Seq::<char>::empty());
    } else {
        hexadecimal_spells_the_number(n / 16);
        assert(hexadecimal(n).drop_last() =~= hexadecimal(n / 16));
    }
}

/// A number that is written in decimal is read again, with a plus sign before it or
/// without, where it is at most the limit; beyond the limit it is refused.
pub proof fn written_number_is_read_up_to_the_limit(n: nat, max: nat)
    ensures
        n <= max ==> unsigned_up_to(decimal(n), max) == Some(n),
        n > max ==> unsigned_up_to(decimal(n), max) is None,
        n <= max ==> unsigned_up_to(seq!['+'] + decimal(n), max) == Some(n),
        n > max ==> unsigned_up_to(seq!['+'] + decimal(n), max) is None,
{
    lemma_decimal_round_trip(n);
    let signed = seq!['+'] + decimal(n);
    assert(signed.skip(1) =~= decimal(n));
    assert('0' <= decimal(n)[0] <= '9');
}

/// A text is read as a number only where it is digits, with at most one plus sign
/// before them: the empty text, a lone sign and any other character are refused.
pub proof fn only_digits_are_numbers(s: Seq<char>, max: nat)
    ensures
        s.len() == 0 ==> unsigned_up_to(s, max) is None,
        s == seq!['+'] ==> unsigned_up_to(s, max) is None,
        unsigned_up_to(s, max) is Some ==> (s[0] == '+' || '0' <= s[0] <= '9') && forall|k: int|
            1 <= k < s.len() ==> '0' <= #[trigger] s[k] <= '9',
        unsigned_up_to(s, max) matches Some(n) ==> n <= max,
{
    if unsigned_up_to(s, max) is Some {
        if s.len() > 1 && s[0] == '+' {
            assert forall|k: int| 1 <= k < s.len() implies '0' <= #[trigger] s[k] <= '9' by {
                assert(s.skip(1)[k - 1] == s[k]);
            }
        }
    }
}

/// Two texts are the same but for case exactly where they have the same length and
/// each two characters are equal, or are the same ASCII letter in either case.
pub proof fn case_is_all_that_differs(a: Seq<char>, b: Seq<char>)
    ensures
        same_ignoring_case(a, b) <==> a.len() == b.len() && forall|i: int|
            0 <= i < a.len() ==> ({
                let (x, y) = (#[trigger] a[i] as int, b[i] as int);
                ||| x == y
                ||| 65 <= x <= 90 && y == x + 32
                ||| 65 <= y <= 90 && x == y + 32
            }),
{
    let p = a.map_values(|c: char| lower(c));
    let q = b.map_values(|c: char| lower(c));
    if same_ignoring_case(a, b) {
        assert(p.len() == q.len());
        assert forall|i: int| 0 <= i < a.len() implies ({
            let (x, y) = (#[trigger] a[i] as int, b[i] as int);
            ||| x == y
            ||| 65 <= x <= 90 && y == x + 32
            ||| 65 <= y <= 90 && x == y + 32
        }) by {
            assert(p[i] == q[i]);
        }
    }
    if a.len() == b.len() && forall|i: int|
        0 <= i < a.len() ==> ({
            let (x, y) = (#[trigger] a[i] as int, b[i] as int);
            ||| x == y
            ||| 65 <= x <= 90 && y == x + 32
            ||| 65 <= y <= 90 && x == y + 32
        }) {
        assert forall|i: int| 0 <= i < p.len() implies p[i] == q[i] by {
            assert(a[i] as int == a[i] as int);
        }
        assert(p =~= q);
    }
}

/// A text occurs in another one exactly where that one is made up of something, the
/// text, and something else.
pub proof fn occurring_is_standing_inside(
    text: Seq<char>,
    needle: Seq<char>,
    before: Seq<char>,
    after: Seq<char>,
)
    ensures
        occurs(before + needle + after, needle),
        occurs(text, needle) ==> exists|i: int|
            #![trigger text.take(i)]
            0 <= i <= text.len() - needle.len() && text == text.take(i) + needle + text.skip(
                i + needle.len(),
            ),
{
    let whole = before + needle + after;
    let n = before.len() as int;
    assert(whole.subrange(n, n + needle.len()) =~= needle);
    if occurs(text, needle) {
        let i = choose|i: int|
            0 <= i <= text.len() - needle.len() && #[trigger] text.subrange(i, i + needle.len())
                == needle;
        assert(text =~= text.take(i) + text.subrange(i, i + needle.len()) + text.skip(
            i + needle.len(),
        ));
    }
}

/// The characters that count as blank, by their code points.
pub proof fn blanks_are_the_unicode_spaces(c: char)
    ensures
        is_blank(c) <==> {
            let n = c as int;
            ||| n == 9 || n == 10 || n == 11 || n == 12 || n == 13 || n == 32
            ||| n == 133 || n == 160 || n == 5760
            ||| 8192 <= n <= 8202
            ||| n == 8232 || n == 8233 || n == 8239 || n == 8287 || n == 12288
        },
{
}

} // verus!
