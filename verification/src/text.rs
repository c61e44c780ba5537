//! Text as sequences of characters: the few string operations that the
//! settings and padding formats are read with.
use vstd::prelude::*;

verus! {

/// The characters with the Unicode `White_Space` property.
pub open spec fn white_space(c: char) -> bool {
    ||| '\u{9}' <= c <= '\u{d}'
    ||| c == ' '
    ||| c == '\u{85}'
    ||| c == '\u{a0}'
    ||| c == '\u{1680}'
    ||| '\u{2000}' <= c <= '\u{200a}'
    ||| c == '\u{2028}'
    ||| c == '\u{2029}'
    ||| c == '\u{202f}'
    ||| c == '\u{205f}'
    ||| c == '\u{3000}'
}

/// `s` without the white space it begins with.
pub open spec fn trim_start(s: Seq<char>) -> Seq<char>
    decreases s.len(),
{
    if s.len() > 0 && white_space(s[0]) {
        trim_start(s.drop_first())
    } else {
        s
    }
}

/// `s` without the white space it ends with.
pub open spec fn trim_end(s: Seq<char>) -> Seq<char>
    decreases s.len(),
{
    if s.len() > 0 && white_space(s.last()) {
        trim_end(s.drop_last())
    } else {
        s
    }
}

/// `s` without the white space around it.
pub open spec fn trim(s: Seq<char>) -> Seq<char> {
    trim_end(trim_start(s))
}

/// The pieces of `s` between the occurrences of `sep`; one more piece than there are occurrences.
pub open spec fn split(s: Seq<char>, sep: char) -> Seq<Seq<char>>
    decreases s.len(),
{
    proof {
        s.index_of_first_ensures(sep);
    }
    match s.index_of_first(sep) {
        Some(i) => seq![s.take(i)] + split(s.skip(i + 1), sep),
        None => seq![s],
    }
}

/// `s` cut at the first `sep`: what stands before it and what stands behind it.
pub open spec fn split_once(s: Seq<char>, sep: char) -> Option<(Seq<char>, Seq<char>)> {
    match s.index_of_first(sep) {
        Some(i) => Some((s.take(i), s.skip(i + 1))),
        None => None,
    }
}

pub open spec fn is_digit(c: char) -> bool {
    '0' <= c <= '9'
}

/// The number that a row of decimal digits stands for.
pub open spec fn digits_value(s: Seq<char>) -> nat
    decreases s.len(),
{
    if s.len() == 0 {
        0
    } else {
        (digits_value(s.drop_last()) * 10 + (s.last() as nat - '0' as nat)) as nat
    }
}

/// `s` without the one `+` that it may begin with.
pub open spec fn unsigned_digits(s: Seq<char>) -> Seq<char> {
    if s.len() > 0 && s[0] == '+' {
        s.drop_first()
    } else {
        s
    }
}

pub open spec fn all_digits(s: Seq<char>) -> bool {
    forall|i: int| 0 <= i < s.len() ==> is_digit(#[trigger] s[i])
}

/// A decimal number up to `max`: an optional `+`, then one or more digits.
pub open spec fn parse_unsigned(s: Seq<char>, max: nat) -> Option<nat> {
    let digits = unsigned_digits(s);
    if digits.len() > 0 && all_digits(digits) && digits_value(digits) <= max {
        Some(digits_value(digits))
    } else {
        None
    }
}

/// The views of the pieces of a list.
pub open spec fn views(pieces: Seq<Vec<char>>) -> Seq<Seq<char>> {
    Seq::new(pieces.len(), |i: int| pieces[i]@)
}

pub fn chars_of(s: &str) -> (v: Vec<char>)
    ensures
        v@ == s@,
{
    let mut v: Vec<char> = Vec::new();
    for c in it: s.chars()
        invariant
            it.seq() == s@,
            v@ == it.seq().take(it.index() as int),
    {
        v.push(c);
    }
    v
}

pub fn is_white_space(c: char) -> (b: bool)
    ensures
        b == white_space(c),
{
    ('\u{9}' <= c && c <= '\u{d}') || c == ' ' || c == '\u{85}' || c == '\u{a0}' || c == '\u{1680}'
        || ('\u{2000}' <= c && c <= '\u{200a}') || c == '\u{2028}' || c == '\u{2029}' || c
        == '\u{202f}' || c == '\u{205f}' || c == '\u{3000}'
}

/// The decimal digits of `n`, with no leading zero.
pub open spec fn decimal(n: nat) -> Seq<char>
    decreases n,
{
    if n < 10 {
        seq![digit_char(n)]
    } else {
        decimal(n / 10).push(digit_char(n % 10))
    }
}

/// The character of a digit below ten.
pub open spec fn digit_char(d: nat) -> char {
    ('0' as nat + d) as char
}

/// Whether `needle` stands in `s` from position `at` on.
pub open spec fn occurs_at(s: Seq<char>, needle: Seq<char>, at: int) -> bool {
    0 <= at && at + needle.len() <= s.len() && s.subrange(at, at + needle.len()) == needle
}

/// Whether `needle` stands somewhere in `s`.
pub open spec fn contains(s: Seq<char>, needle: Seq<char>) -> bool {
    exists|at: int| occurs_at(s, needle, at)
}

/// The first occurrence is where nothing before it matches.
proof fn lemma_first_at(s: Seq<char>, c: char, i: int)
    requires
        0 <= i < s.len(),
        s[i] == c,
        forall|j: int| 0 <= j < i ==> s[j] != c,
    ensures
        s.index_of_first(c) == Some(i),
{
    s.index_of_first_ensures(c);
}

proof fn lemma_first_absent(s: Seq<char>, c: char)
    requires
        forall|j: int| 0 <= j < s.len() ==> s[j] != c,
    ensures
        s.index_of_first(c) is None,
{
    s.index_of_first_ensures(c);
}

pub fn trim_chars(s: &[char]) -> (r: Vec<char>)
    ensures
        r@ == trim(s@),
{
    let mut start: usize = 0;
    assert(s@.skip(0) =~= s@);
    while start < s.len() && is_white_space(s[start])
        invariant
            start <= s@.len(),
            trim_start(s@) == trim_start(s@.skip(start as int)),
        decreases s@.len() - start,
    {
        assert(s@.skip(start as int).drop_first() =~= s@.skip(start + 1));
        start = start + 1;
    }
    let ghost rest = s@.skip(start as int);
    assert(trim_start(s@) == rest);
    let mut end: usize = s.len();
    assert(s@.subrange(start as int, end as int) =~= rest);
    while start < end && is_white_space(s[end - 1])
        invariant
            start <= end <= s@.len(),
            trim_end(rest) == trim_end(s@.subrange(start as int, end as int)),
        decreases end,
    {
        let ghost cut = s@.subrange(start as int, end as int);
        assert(cut.last() == s@[end - 1]);
        assert(cut.drop_last() =~= s@.subrange(start as int, end - 1));
        end = end - 1;
    }
    vstd::slice::slice_to_vec(vstd::slice::slice_subrange(s, start, end))
}

/// The position of the first `c`, if there is one.
pub fn find_char(s: &[char], c: char) -> (r: Option<usize>)
    ensures
        match r {
            Some(i) => s@.index_of_first(c) == Some(i as int) && i < s@.len(),
            None => s@.index_of_first(c) is None,
        },
{
    let mut i: usize = 0;
    while i < s.len()
        invariant
            i <= s@.len(),
            forall|j: int| 0 <= j < i ==> s@[j] != c,
        decreases s@.len() - i,
    {
        if s[i] == c {
            proof {
                lemma_first_at(s@, c, i as int);
            }
            return Some(i);
        }
        i = i + 1;
    }
    proof {
        lemma_first_absent(s@, c);
    }
    None
}

pub fn split_chars(s: &[char], sep: char) -> (r: Vec<Vec<char>>)
    ensures
        views(r@) == split(s@, sep),
{
    let mut pieces: Vec<Vec<char>> = Vec::new();
    let mut start: usize = 0;
    let mut i: usize = 0;
    assert(s@.skip(0) =~= s@);
    assert(views(pieces@) + split(s@.skip(0), sep) =~= split(s@, sep));
    while i < s.len()
        invariant
            start <= i <= s@.len(),
            split(s@, sep) == views(pieces@) + split(s@.skip(start as int), sep),
            forall|j: int| start <= j < i ==> s@[j] != sep,
        decreases s@.len() - i,
    {
        if s[i] == sep {
            let ghost tail = s@.skip(start as int);
            let ghost before = views(pieces@);
            proof {
                lemma_first_at(tail, sep, i - start);
                assert(tail.take(i - start) =~= s@.subrange(start as int, i as int));
                assert(tail.skip(i - start + 1) =~= s@.skip(i + 1));
            }
            pieces.push(
                vstd::slice::slice_to_vec(vstd::slice::slice_subrange(s, start, i)),
            );
            proof {
                assert(views(pieces@) =~= before.push(s@.subrange(start as int, i as int)));
                assert(views(pieces@) + split(s@.skip(i + 1), sep) =~= before + split(tail, sep));
            }
            start = i + 1;
        }
        i = i + 1;
    }
    let ghost tail = s@.skip(start as int);
    let ghost before = views(pieces@);
    proof {
        lemma_first_absent(tail, sep);
        assert(s@.subrange(start as int, s@.len() as int) =~= tail);
    }
    pieces.push(vstd::slice::slice_to_vec(vstd::slice::slice_subrange(s, start, s.len())));
    assert(views(pieces@) =~= before + seq![tail]);
    pieces
}

pub fn split_once_chars(s: &[char], sep: char) -> (r: Option<(Vec<char>, Vec<char>)>)
    ensures
        match r {
            Some((before, behind)) => split_once(s@, sep) == Some((before@, behind@)),
            None => split_once(s@, sep) is None,
        },
{
    let len: usize = s.len();
    match find_char(s, sep) {
        Some(i) => {
            assert(s@.subrange(0, i as int) =~= s@.take(i as int));
            assert(s@.subrange(i + 1, s@.len() as int) =~= s@.skip(i + 1));
            Some(
                (
                    vstd::slice::slice_to_vec(vstd::slice::slice_subrange(s, 0, i)),
                    vstd::slice::slice_to_vec(vstd::slice::slice_subrange(s, i + 1, len)),
                ),
            )
        },
        None => None,
    }
}

/// Whether the characters of `s` are those of `word`.
pub fn is_word(s: &[char], word: &str) -> (b: bool)
    ensures
        b == (s@ == word@),
{
    let w: Vec<char> = chars_of(word);
    if s.len() != w.len() {
        return false;
    }
    let mut i: usize = 0;
    while i < s.len()
        invariant
            i <= s@.len(),
            w@ == word@,
            s@.len() == w@.len(),
            forall|j: int| 0 <= j < i ==> s@[j] == w@[j],
        decreases s@.len() - i,
    {
        if s[i] != w[i] {
            return false;
        }
        i = i + 1;
    }
    assert(s@ =~= word@);
    true
}

/// Leading digits never make the number larger than all of them do.
proof fn lemma_digits_prefix(s: Seq<char>, i: int)
    requires
        0 <= i <= s.len(),
        all_digits(s),
    ensures
        digits_value(s.take(i)) <= digits_value(s),
    decreases s.len() - i,
{
    if i == s.len() {
        assert(s.take(i) =~= s);
    } else {
        lemma_digits_prefix(s, i + 1);
        assert(s.take(i + 1).drop_last() =~= s.take(i));
        assert(is_digit(s.take(i + 1).last()));
    }
}

/// The number that `s` writes down, where it is one and is at most `max`.
pub fn parse_number(s: &[char], max: u64) -> (r: Option<u64>)
    ensures
        match r {
            Some(n) => parse_unsigned(s@, max as nat) == Some(n as nat),
            None => parse_unsigned(s@, max as nat) is None,
        },
{
    let len: usize = s.len();
    let from: usize = if len > 0 && s[0] == '+' {
        1
    } else {
        0
    };
    let ghost digits = unsigned_digits(s@);
    assert(digits =~= s@.skip(from as int));
    if from == len {
        return None;
    }
    let mut value: u64 = 0;
    let mut i: usize = from;
    while i < len
        invariant
            from <= i <= len,
            len == s@.len(),
            digits == s@.skip(from as int),
            digits == unsigned_digits(s@),
            forall|j: int| 0 <= j < i - from ==> is_digit(#[trigger] digits[j]),
            value == digits_value(digits.take(i - from)),
            value <= max,
        decreases len - i,
    {
        let c: char = s[i];
        let ghost k = i - from;
        assert(digits[k] == c);
        if !('0' <= c && c <= '9') {
            return None;
        }
        let d: u64 = (c as u32 - '0' as u32) as u64;
        assert(digits.take(k + 1).drop_last() =~= digits.take(k));
        assert(digits_value(digits.take(k + 1)) == value * 10 + d);
        if d > max || value > (max - d) / 10 {
            proof {
                if all_digits(digits) {
                    lemma_digits_prefix(digits, k + 1);
                }
            }
            return None;
        }
        value = value * 10 + d;
        i = i + 1;
    }
    assert(digits.take(i - from) =~= digits);
    Some(value)
}

fn digit_word(d: u32) -> (w: &'static str)
    requires
        d < 10,
    ensures
        w@ == seq![digit_char(d as nat)],
{
    proof {
        reveal_strlit("0");
        reveal_strlit("1");
        reveal_strlit("2");
        reveal_strlit("3");
        reveal_strlit("4");
        reveal_strlit("5");
        reveal_strlit("6");
        reveal_strlit("7");
        reveal_strlit("8");
        reveal_strlit("9");
    }
    match d {
        0 => "0",
        1 => "1",
        2 => "2",
        3 => "3",
        4 => "4",
        5 => "5",
        6 => "6",
        7 => "7",
        8 => "8",
        _ => "9",
    }
}

/// Writes `n` in decimal behind what `out` holds.
pub fn append_decimal(out: &mut String, n: u32)
    ensures
        final(out)@ == old(out)@ + decimal(n as nat),
    decreases n,
{
    if n >= 10 {
        append_decimal(out, n / 10);
    }
    out.append(digit_word(n % 10));
    assert(out@ =~= old(out)@ + decimal(n as nat));
}

/// Whether `needle` stands somewhere in `s`.
pub fn contains_word(s: &[char], needle: &str) -> (b: bool)
    ensures
        b == contains(s@, needle@),
{
    let w: Vec<char> = chars_of(needle);
    let len: usize = s.len();
    if w.len() > len {
        return false;
    }
    let last: usize = len - w.len();
    let mut at: usize = 0;
    loop
        invariant
            at <= last,
            len == s@.len(),
            w@ == needle@,
            last == len - w@.len(),
            forall|k: int| 0 <= k < at ==> !occurs_at(s@, w@, k),
        decreases last - at,
    {
        if is_word(vstd::slice::slice_subrange(s, at, at + w.len()), needle) {
            assert(occurs_at(s@, needle@, at as int));
            return true;
        }
        if at == last {
            return false;
        }
        at = at + 1;
    }
}

/// No character of `s` is `c`.
pub open spec fn lacks(s: Seq<char>, c: char) -> bool {
    forall|i: int| 0 <= i < s.len() ==> s[i] != c
}

/// `s` neither begins nor ends with white space.
pub open spec fn trimmed(s: Seq<char>) -> bool {
    s.len() > 0 ==> !white_space(s[0]) && !white_space(s.last())
}

/// The parts one behind the other, with `sep` between them.
pub open spec fn join(parts: Seq<Seq<char>>, sep: char) -> Seq<char>
    decreases parts.len(),
{
    if parts.len() == 0 {
        Seq::empty()
    } else if parts.len() == 1 {
        parts[0]
    } else {
        parts[0] + seq![sep] + join(parts.drop_first(), sep)
    }
}

pub proof fn lemma_trimmed(s: Seq<char>)
    requires
        trimmed(s),
    ensures
        trim(s) == s,
{
}

pub proof fn lemma_split_once(front: Seq<char>, sep: char, back: Seq<char>)
    requires
        lacks(front, sep),
    ensures
        split_once(front + seq![sep] + back, sep) == Some((front, back)),
{
    let s = front + seq![sep] + back;
    lemma_first_at(s, sep, front.len() as int);
    assert(s.take(front.len() as int) =~= front);
    assert(s.skip(front.len() as int + 1) =~= back);
}

pub proof fn lemma_split_first(front: Seq<char>, sep: char, back: Seq<char>)
    requires
        lacks(front, sep),
    ensures
        split(front + seq![sep] + back, sep) == seq![front] + split(back, sep),
{
    let s = front + seq![sep] + back;
    lemma_first_at(s, sep, front.len() as int);
    assert(s.take(front.len() as int) =~= front);
    assert(s.skip(front.len() as int + 1) =~= back);
}

pub proof fn lemma_split_whole(s: Seq<char>, sep: char)
    requires
        lacks(s, sep),
    ensures
        split(s, sep) == seq![s],
{
    lemma_first_absent(s, sep);
}

/// Splitting takes apart what joining put together.
pub proof fn law_split_join(parts: Seq<Seq<char>>, sep: char)
    requires
        parts.len() > 0,
        forall|i: int| 0 <= i < parts.len() ==> lacks(#[trigger] parts[i], sep),
    ensures
        split(join(parts, sep), sep) == parts,
    decreases parts.len(),
{
    assert(lacks(parts[0], sep));
    if parts.len() == 1 {
        lemma_split_whole(parts[0], sep);
        assert(seq![parts[0]] =~= parts);
    } else {
        let rest = parts.drop_first();
        assert forall|i: int| 0 <= i < rest.len() implies lacks(#[trigger] rest[i], sep) by {
            assert(rest[i] == parts[i + 1]);
        }
        law_split_join(rest, sep);
        lemma_split_first(parts[0], sep, join(rest, sep));
        assert(seq![parts[0]] + rest =~= parts);
    }
}

pub proof fn lemma_join_lacks(parts: Seq<Seq<char>>, sep: char, c: char)
    requires
        sep != c,
        forall|i: int| 0 <= i < parts.len() ==> lacks(#[trigger] parts[i], c),
    ensures
        lacks(join(parts, sep), c),
    decreases parts.len(),
{
    if parts.len() > 0 {
        assert(lacks(parts[0], c));
    }
    if parts.len() > 1 {
        let rest = parts.drop_first();
        assert forall|i: int| 0 <= i < rest.len() implies lacks(#[trigger] rest[i], c) by {
            assert(rest[i] == parts[i + 1]);
        }
        lemma_join_lacks(rest, sep, c);
    }
}

pub proof fn lemma_join_trimmed(parts: Seq<Seq<char>>, sep: char)
    requires
        forall|i: int|
            0 <= i < parts.len() ==> (#[trigger] parts[i]).len() > 0 && trimmed(parts[i]),
    ensures
        trimmed(join(parts, sep)),
        parts.len() > 0 ==> join(parts, sep).len() > 0,
    decreases parts.len(),
{
    if parts.len() > 0 {
        assert(parts[0].len() > 0 && trimmed(parts[0]));
    }
    if parts.len() > 1 {
        let rest = parts.drop_first();
        assert forall|i: int| 0 <= i < rest.len() implies (#[trigger] rest[i]).len() > 0 && trimmed(
            rest[i],
        ) by {
            assert(rest[i] == parts[i + 1]);
        }
        lemma_join_trimmed(rest, sep);
        assert(join(parts, sep)[0] == parts[0][0]);
        assert(join(parts, sep).last() == join(rest, sep).last());
    }
}

/// What `decimal` writes is a row of digits of that value.
pub proof fn lemma_decimal(n: nat)
    ensures
        decimal(n).len() > 0,
        all_digits(decimal(n)),
        digits_value(decimal(n)) == n,
    decreases n,
{
    if n < 10 {
        let s = seq![digit_char(n)];
        assert(s.drop_last() =~= Seq::<char>::empty());
        assert(digits_value(s.drop_last()) == 0);
        assert(s.last() == digit_char(n));
    } else {
        lemma_decimal(n / 10);
        let s = decimal(n / 10).push(digit_char(n % 10));
        assert(s.drop_last() =~= decimal(n / 10));
        assert forall|i: int| 0 <= i < s.len() implies is_digit(#[trigger] s[i]) by {
            if i < decimal(n / 10).len() {
                assert(is_digit(decimal(n / 10)[i]));
            }
        }
    }
}

/// A number is read back from its decimal digits.
pub proof fn law_decimal_round_trip(n: nat, max: nat)
    requires
        n <= max,
    ensures
        parse_unsigned(decimal(n), max) == Some(n),
{
    lemma_decimal(n);
    assert(is_digit(decimal(n)[0]));
    assert(unsigned_digits(decimal(n)) == decimal(n));
}

/// White space around a text goes, and nothing else: what is left neither
/// begins nor ends with any.
pub proof fn law_trim(before: Seq<char>, core: Seq<char>, after: Seq<char>)
    requires
        forall|i: int| 0 <= i < before.len() ==> white_space(#[trigger] before[i]),
        forall|i: int| 0 <= i < after.len() ==> white_space(#[trigger] after[i]),
        core.len() > 0 ==> !white_space(core[0]) && !white_space(core[core.len() - 1]),
    ensures
        trim(before + core + after) == core,
{
    if core.len() > 0 {
        lemma_trim_start(before, core + after);
        assert(before + core + after =~= before + (core + after));
        lemma_trim_end(core, after);
    } else {
        let blank = before + after;
        assert(before + core + after =~= blank);
        lemma_trim_start(blank, Seq::empty());
        assert(blank + Seq::<char>::empty() =~= blank);
        assert(core =~= Seq::empty());
    }
}

proof fn lemma_trim_start(before: Seq<char>, rest: Seq<char>)
    requires
        forall|i: int| 0 <= i < before.len() ==> white_space(#[trigger] before[i]),
        rest.len() > 0 ==> !white_space(rest[0]),
    ensures
        trim_start(before + rest) == rest,
    decreases before.len(),
{
    if before.len() == 0 {
        assert(before + rest =~= rest);
    } else {
        assert(white_space(before[0]));
        assert((before + rest).drop_first() =~= before.drop_first() + rest);
        lemma_trim_start(before.drop_first(), rest);
    }
}

proof fn lemma_trim_end(rest: Seq<char>, after: Seq<char>)
    requires
        forall|i: int| 0 <= i < after.len() ==> white_space(#[trigger] after[i]),
        rest.len() > 0,
        !white_space(rest[rest.len() - 1]),
    ensures
        trim_end(rest + after) == rest,
    decreases after.len(),
{
    if after.len() == 0 {
        assert(rest + after =~= rest);
    } else {
        assert(white_space(after[after.len() - 1]));
        assert((rest + after).drop_last() =~= rest + after.drop_last());
        lemma_trim_end(rest, after.drop_last());
    }
}

/// A text is cut at the first separator, into what stands before it and all that
/// stands behind it; one without a separator is not cut.
pub proof fn law_cut_at_separator(front: Seq<char>, sep: char, back: Seq<char>)
    requires
        forall|i: int| 0 <= i < front.len() ==> front[i] != sep,
    ensures
        split_once(front + seq![sep] + back, sep) == Some((front, back)),
        split_once(front, sep) is None,
        split(front + seq![sep] + back, sep) == seq![front] + split(back, sep),
        split(front, sep) == seq![front],
{
    lemma_split_once(front, sep, back);
    lemma_split_first(front, sep, back);
    lemma_split_whole(front, sep);
    lemma_first_absent(front, sep);
}

/// A text with anything in it but digits, behind the one `+` that it may begin
/// with, is no number, and neither is one without digits.
pub proof fn law_no_number(s: Seq<char>, i: int, max: nat)
    ensures
        s.len() == 0 ==> parse_unsigned(s, max) is None,
        s.len() == 1 && s[0] == '+' ==> parse_unsigned(s, max) is None,
        0 <= i < s.len() && !('0' <= s[i] <= '9') && (i > 0 || s[i] != '+') ==> parse_unsigned(
            s,
            max,
        ) is None,
{
    if 0 <= i < s.len() && !('0' <= s[i] <= '9') && (i > 0 || s[i] != '+') {
        let digits = unsigned_digits(s);
        if s[0] == '+' {
            assert(digits[i - 1] == s[i]);
        } else {
            assert(digits[i] == s[i]);
        }
    }
}

/// What a row of digits stands for: one digit for itself, and one more digit
/// behind a number for ten times the number and the digit; where that is above
/// `max` there is no number. A `+` before the row changes nothing.
pub proof fn law_number(digits: Seq<char>, last: char, max: nat)
    requires
        forall|i: int| 0 <= i < digits.len() ==> '0' <= #[trigger] digits[i] <= '9',
        '0' <= last <= '9',
    ensures
        ({
            let d = (last as nat - '0' as nat) as nat;
            let front = if digits.len() == 0 {
                Some(0nat)
            } else {
                parse_unsigned(digits, max)
            };
            parse_unsigned(digits.push(last), max) == match front {
                Some(n) => if n * 10 + d <= max {
                    Some(n * 10 + d)
                } else {
                    None
                },
                None => None,
            }
        }),
        parse_unsigned(seq!['+'] + digits.push(last), max) == parse_unsigned(
            digits.push(last),
            max,
        ),
{
    let all = digits.push(last);
    assert(all.drop_last() =~= digits);
    assert forall|i: int| 0 <= i < all.len() implies is_digit(#[trigger] all[i]) by {
        if i < digits.len() {
            assert('0' <= digits[i] <= '9');
        }
    }
    assert(all_digits(digits)) by {
        assert forall|i: int| 0 <= i < digits.len() implies is_digit(#[trigger] digits[i]) by {}
    }
    assert(is_digit(all[0]));
    assert(unsigned_digits(all) == all);
    assert((seq!['+'] + all).drop_first() =~= all);
    assert(digits_value(all) == digits_value(digits) * 10 + (last as nat - '0' as nat));
    if digits.len() > 0 {
        assert('0' <= digits[0] <= '9');
        assert(unsigned_digits(digits) == digits);
    }
}

/// A number is written in digits, without a leading zero.
pub proof fn law_decimal_digits(n: nat, i: int)
    ensures
        decimal(n).len() > 0,
        0 <= i < decimal(n).len() ==> '0' <= decimal(n)[i] <= '9',
        n >= 10 ==> decimal(n)[0] != '0',
        n < 10 ==> decimal(n).len() == 1,
    decreases n,
{
    lemma_decimal(n);
    if 0 <= i < decimal(n).len() {
        assert(is_digit(decimal(n)[i]));
    }
    if n >= 10 {
        law_decimal_digits(n / 10, 0);
        if n < 100 {
            assert(decimal(n / 10)[0] == digit_char(n / 10));
        }
        assert(decimal(n)[0] == decimal(n / 10)[0]);
    }
}

/// A text contains what stands in the middle of it.
pub proof fn law_contains_middle(front: Seq<char>, needle: Seq<char>, back: Seq<char>)
    ensures
        contains(front + needle + back, needle),
{
    let s = front + needle + back;
    assert(s.subrange(front.len() as int, front.len() + needle.len() as int) =~= needle);
    assert(occurs_at(s, needle, front.len() as int));
}

/// What a text contains stands somewhere in it, whole.
pub proof fn law_contained_stands(s: Seq<char>, needle: Seq<char>) -> (parts: (
    Seq<char>,
    Seq<char>,
))
    requires
        contains(s, needle),
    ensures
        s == parts.0 + needle + parts.1,
{
    let at = choose|at: int| occurs_at(s, needle, at);
    let front = s.take(at);
    let back = s.skip(at + needle.len());
    assert(s =~= front + s.subrange(at, at + needle.len()) + back);
    (front, back)
}

/// The pieces of a list are what they hold.
pub proof fn law_pieces(pieces: Seq<Vec<char>>, i: int)
    ensures
        views(pieces).len() == pieces.len(),
        0 <= i < pieces.len() ==> views(pieces)[i] == pieces[i]@,
{
}

} // verus!
