//! Padding schemes written down, and what reading them back gives.
use crate::padding::{
    chunk_bounds, chunks_of_parts, default_scheme, policy_chunks, scheme_hash, scheme_line,
    scheme_of, scheme_of_lines, skip_mark, PaddingError, PaddingSchemeView, SchemeLine,
    DEFAULT_PADDING_SCHEME,
};
use crate::text::{
    decimal, is_digit, join, lacks, law_decimal_round_trip, law_split_join, lemma_decimal,
    lemma_join_lacks, lemma_join_trimmed, lemma_split_once, lemma_split_whole, lemma_trimmed, trim,
    trimmed,
};
use vstd::prelude::*;

verus! {

/// `min-max`
pub open spec fn range_text(min: usize, max: usize) -> Seq<char> {
    decimal(min as nat) + seq!['-'] + decimal(max as nat)
}

/// The parts of the value that writes `chunks` down.
pub open spec fn parts_text(chunks: Seq<(usize, usize, bool)>) -> Seq<Seq<char>>
    decreases chunks.len(),
{
    if chunks.len() == 0 {
        Seq::empty()
    } else {
        let (min, max, can_skip) = chunks[0];
        let mark = if can_skip {
            seq![seq!['c']]
        } else {
            Seq::<Seq<char>>::empty()
        };
        seq![range_text(min, max)] + mark + parts_text(chunks.drop_first())
    }
}

/// The value that writes `chunks` down.
pub open spec fn policy_text(chunks: Seq<(usize, usize, bool)>) -> Seq<char> {
    join(parts_text(chunks), ',')
}

/// The line that writes down how one packet is cut.
pub open spec fn entry_text(entry: (u8, Seq<(usize, usize, bool)>)) -> Seq<char> {
    decimal(entry.0 as nat) + seq!['='] + policy_text(entry.1)
}

/// The line that writes down where the padding stops.
pub open spec fn stop_text(stop_at: u8) -> Seq<char> {
    "stop"@ + seq!['='] + decimal(stop_at as nat)
}

pub open spec fn lines_text(
    stop_at: u8,
    entries: Seq<(u8, Seq<(usize, usize, bool)>)>,
) -> Seq<Seq<char>> {
    seq![stop_text(stop_at)] + entries.map_values(
        |entry: (u8, Seq<(usize, usize, bool)>)| entry_text(entry),
    )
}

/// The text that writes a scheme down.
pub open spec fn scheme_text(
    stop_at: u8,
    entries: Seq<(u8, Seq<(usize, usize, bool)>)>,
) -> Seq<char> {
    join(lines_text(stop_at, entries), '\n')
}

/// The policies of a list of entries, a later entry replacing an earlier one.
pub open spec fn policies_of(
    entries: Seq<(u8, Seq<(usize, usize, bool)>)>,
    policies: Map<u8, Seq<(usize, usize, bool)>>,
) -> Map<u8, Seq<(usize, usize, bool)>>
    decreases entries.len(),
{
    if entries.len() == 0 {
        policies
    } else {
        policies_of(entries.drop_first(), policies.insert(entries[0].0, entries[0].1))
    }
}

proof fn lemma_range_text(min: usize, max: usize)
    ensures
        ({
            let part = range_text(min, max);
            &&& part.len() > 0
            &&& trim(part) == part
            &&& trimmed(part)
            &&& lacks(part, ',')
            &&& lacks(part, '\n')
            &&& lacks(part, '=')
            &&& part != seq!['c']
            &&& chunk_bounds(trim(part)) == Some(Ok::<(usize, usize), PaddingError>((min, max)))
        }),
{
    let low = decimal(min as nat);
    let high = decimal(max as nat);
    let part = range_text(min, max);
    lemma_decimal(min as nat);
    lemma_decimal(max as nat);
    assert(is_digit(low[0]) && is_digit(low.last()) && is_digit(high[0]) && is_digit(high.last()));
    assert(part[0] == low[0] && part.last() == high.last());
    assert forall|i: int| 0 <= i < part.len() implies is_digit(#[trigger] part[i]) || part[i]
        == '-' by {
        if i < low.len() {
            assert(part[i] == low[i]);
        } else if i > low.len() {
            assert(part[i] == high[i - low.len() - 1]);
        }
    }
    lemma_trimmed(part);
    lemma_trimmed(low);
    lemma_trimmed(high);
    assert(lacks(low, '-')) by {
        assert forall|i: int| 0 <= i < low.len() implies low[i] != '-' by {
            assert(is_digit(low[i]));
        }
    }
    lemma_split_once(low, '-', high);
    law_decimal_round_trip(min as nat, usize::MAX as nat);
    law_decimal_round_trip(max as nat, usize::MAX as nat);
}

proof fn lemma_parts_text(chunks: Seq<(usize, usize, bool)>)
    ensures
        chunks_of_parts(parts_text(chunks)) == Ok::<_, PaddingError>(chunks),
        chunks.len() > 0 ==> parts_text(chunks).len() > 0 && !skip_mark(
            seq![Seq::<char>::empty()] + parts_text(chunks),
        ),
        forall|i: int|
            0 <= i < parts_text(chunks).len() ==> {
                let part = #[trigger] parts_text(chunks)[i];
                part.len() > 0 && trimmed(part) && lacks(part, ',') && lacks(part, '\n') && lacks(
                    part,
                    '=',
                )
            },
    decreases chunks.len(),
{
    let parts = parts_text(chunks);
    if chunks.len() == 0 {
        assert(chunks =~= Seq::empty());
    } else {
        let (min, max, can_skip) = chunks[0];
        let rest = parts_text(chunks.drop_first());
        lemma_range_text(min, max);
        lemma_parts_text(chunks.drop_first());
        lemma_trimmed(seq!['c']);
        assert(parts[0] == range_text(min, max));
        assert((seq![Seq::<char>::empty()] + parts)[1] == parts[0]);
        if can_skip {
            assert(parts[1] == seq!['c']);
            assert(parts.skip(2) =~= rest);
        } else {
            assert(parts.skip(1) =~= rest);
            if rest.len() > 0 {
                assert(parts[1] == rest[0]);
                assert((seq![Seq::<char>::empty()] + rest)[1] == rest[0]);
            }
        }
        assert(skip_mark(parts) == can_skip);
        assert(seq![(min, max, can_skip)] + chunks.drop_first() =~= chunks);
        assert forall|i: int| 0 <= i < parts.len() implies {
            let part = #[trigger] parts[i];
            part.len() > 0 && trimmed(part) && lacks(part, ',') && lacks(part, '\n') && lacks(
                part,
                '=',
            )
        } by {
            let k: int = if can_skip {
                2
            } else {
                1
            };
            if i >= k {
                assert(parts[i] == rest[i - k]);
            }
        }
    }
}

/// A policy is read back from the value that writes it down.
pub proof fn law_policy_round_trip(chunks: Seq<(usize, usize, bool)>)
    ensures
        policy_chunks(policy_text(chunks)) == Ok::<_, PaddingError>(chunks),
{
    let parts = parts_text(chunks);
    lemma_parts_text(chunks);
    if chunks.len() == 0 {
        let text = Seq::<char>::empty();
        assert(policy_text(chunks) =~= text);
        lemma_split_whole(text, ',');
        lemma_trimmed(text);
        let whole = seq![text];
        assert(text.index_of_first('-') is None) by {
            text.index_of_first_ensures('-');
        }
        assert(whole.skip(1) =~= Seq::<Seq<char>>::empty());
        assert(chunks_of_parts(whole.skip(1)) == Ok::<_, PaddingError>(
            Seq::<(usize, usize, bool)>::empty(),
        ));
        assert(chunks =~= Seq::empty());
    } else {
        law_split_join(parts, ',');
    }
}

proof fn lemma_policy_text(chunks: Seq<(usize, usize, bool)>)
    ensures
        trimmed(policy_text(chunks)),
        lacks(policy_text(chunks), '\n'),
{
    let parts = parts_text(chunks);
    lemma_parts_text(chunks);
    assert forall|i: int| 0 <= i < parts.len() implies lacks(#[trigger] parts[i], '\n') by {}
    assert forall|i: int| 0 <= i < parts.len() implies (#[trigger] parts[i]).len() > 0 && trimmed(
        parts[i],
    ) by {}
    lemma_join_lacks(parts, ',', '\n');
    lemma_join_trimmed(parts, ',');
}

proof fn lemma_entry_text(entry: (u8, Seq<(usize, usize, bool)>))
    ensures
        lacks(entry_text(entry), '\n'),
        scheme_line(entry_text(entry)) == SchemeLine::Policy(entry.0, entry.1),
{
    let key = decimal(entry.0 as nat);
    let value = policy_text(entry.1);
    let line = entry_text(entry);
    lemma_decimal(entry.0 as nat);
    lemma_policy_text(entry.1);
    assert forall|i: int| 0 <= i < key.len() implies key[i] != '=' && key[i] != '\n' by {
        assert(is_digit(key[i]));
    }
    assert(is_digit(key[0]) && is_digit(key.last()));
    assert(line[0] == key[0]);
    assert(value.len() > 0 ==> line.last() == value.last());
    lemma_trimmed(line);
    lemma_trimmed(key);
    lemma_trimmed(value);
    lemma_split_once(key, '=', value);
    reveal_strlit("stop");
    assert("stop"@[0] == 's');
    law_decimal_round_trip(entry.0 as nat, 255);
    law_policy_round_trip(entry.1);
}

proof fn lemma_stop_text(stop_at: u8)
    ensures
        lacks(stop_text(stop_at), '\n'),
        scheme_line(stop_text(stop_at)) == SchemeLine::Stop(stop_at),
{
    let value = decimal(stop_at as nat);
    let line = stop_text(stop_at);
    lemma_decimal(stop_at as nat);
    reveal_strlit("stop");
    assert("stop"@ =~= seq!['s', 't', 'o', 'p']);
    assert forall|i: int| 0 <= i < value.len() implies value[i] != '\n' by {
        assert(is_digit(value[i]));
    }
    assert(is_digit(value[0]) && is_digit(value.last()));
    assert(line[0] == 's');
    assert(line.last() == value.last());
    lemma_trimmed(line);
    lemma_trimmed("stop"@);
    lemma_trimmed(value);
    lemma_split_once("stop"@, '=', value);
    law_decimal_round_trip(stop_at as nat, 255);
}

proof fn lemma_entries(
    lines: Seq<Seq<char>>,
    stop_at: u8,
    entries: Seq<(u8, Seq<(usize, usize, bool)>)>,
    policies: Map<u8, Seq<(usize, usize, bool)>>,
)
    requires
        lines == entries.map_values(|entry: (u8, Seq<(usize, usize, bool)>)| entry_text(entry)),
    ensures
        scheme_of_lines(lines, stop_at, policies) == Ok::<_, PaddingError>(
            (stop_at, policies_of(entries, policies)),
        ),
    decreases entries.len(),
{
    if entries.len() > 0 {
        lemma_entry_text(entries[0]);
        let rest = entries.drop_first();
        assert(lines.drop_first() =~= rest.map_values(
            |entry: (u8, Seq<(usize, usize, bool)>)| entry_text(entry),
        ));
        lemma_entries(
            lines.drop_first(),
            stop_at,
            rest,
            policies.insert(entries[0].0, entries[0].1),
        );
    }
}

/// A scheme is read back from the text that writes it down.
pub proof fn law_scheme_round_trip(stop_at: u8, entries: Seq<(u8, Seq<(usize, usize, bool)>)>)
    ensures
        scheme_of(scheme_text(stop_at, entries)) == Ok::<_, PaddingError>(
            PaddingSchemeView {
                stop_at,
                policies: policies_of(entries, Map::empty()),
                hash: scheme_hash(scheme_text(stop_at, entries)),
            },
        ),
{
    let lines = lines_text(stop_at, entries);
    lemma_stop_text(stop_at);
    assert forall|i: int| 0 <= i < lines.len() implies lacks(#[trigger] lines[i], '\n') by {
        if i > 0 {
            lemma_entry_text(entries[i - 1]);
            assert(lines[i] == entry_text(entries[i - 1]));
        }
    }
    law_split_join(lines, '\n');
    let rest = entries.map_values(|entry: (u8, Seq<(usize, usize, bool)>)| entry_text(entry));
    assert(lines[0] == stop_text(stop_at));
    assert(lines.drop_first() =~= rest);
    lemma_entries(rest, stop_at, entries, Map::empty());
}

/// The packets of the default scheme, in the order of its lines.
spec fn default_entries() -> Seq<(u8, Seq<(usize, usize, bool)>)> {
    let last = seq![(500usize, 1000usize, false)];
    seq![
        (0u8, seq![(30usize, 30usize, false)]),
        (1u8, seq![(100usize, 400usize, false)]),
        (
            2u8,
            seq![
                (400usize, 500usize, true),
                (500usize, 1000usize, true),
                (500usize, 1000usize, true),
                (500usize, 1000usize, true),
                (500usize, 1000usize, false),
            ],
        ),
        (3u8, seq![(9usize, 9usize, false), (500usize, 1000usize, false)]),
        (4u8, last),
        (5u8, last),
        (6u8, last),
        (7u8, last),
    ]
}

proof fn lemma_default_numbers()
    ensures
        decimal(0) == seq!['0'],
        decimal(1) == seq!['1'],
        decimal(2) == seq!['2'],
        decimal(3) == seq!['3'],
        decimal(4) == seq!['4'],
        decimal(5) == seq!['5'],
        decimal(6) == seq!['6'],
        decimal(7) == seq!['7'],
        decimal(8) == seq!['8'],
        decimal(9) == seq!['9'],
        decimal(30) == seq!['3', '0'],
        decimal(100) == seq!['1', '0', '0'],
        decimal(400) == seq!['4', '0', '0'],
        decimal(500) == seq!['5', '0', '0'],
        decimal(1000) == seq!['1', '0', '0', '0'],
{
    reveal_with_fuel(decimal, 5);
    assert(decimal(0) =~= seq!['0']);
    assert(decimal(1) =~= seq!['1']);
    assert(decimal(2) =~= seq!['2']);
    assert(decimal(3) =~= seq!['3']);
    assert(decimal(4) =~= seq!['4']);
    assert(decimal(5) =~= seq!['5']);
    assert(decimal(6) =~= seq!['6']);
    assert(decimal(7) =~= seq!['7']);
    assert(decimal(8) =~= seq!['8']);
    assert(decimal(9) =~= seq!['9']);
    assert(decimal(30) =~= seq!['3', '0']);
    assert(decimal(100) =~= seq!['1', '0', '0']);
    assert(decimal(400) =~= seq!['4', '0', '0']);
    assert(decimal(500) =~= seq!['5', '0', '0']);
    assert(decimal(1000) =~= seq!['1', '0', '0', '0']);
}

proof fn lemma_single_policy(min: usize, max: usize)
    ensures
        policy_text(seq![(min, max, false)]) == range_text(min, max),
{
    let chunks = seq![(min, max, false)];
    assert(chunks.drop_first() =~= Seq::empty());
    assert(parts_text(chunks.drop_first()) =~= Seq::<Seq<char>>::empty());
    assert(parts_text(chunks) =~= seq![range_text(min, max)]);
}

proof fn lemma_double_policy(first: (usize, usize), second: (usize, usize))
    ensures
        policy_text(seq![(first.0, first.1, false), (second.0, second.1, false)]) == range_text(
            first.0,
            first.1,
        ) + seq![','] + range_text(second.0, second.1),
{
    let chunks = seq![(first.0, first.1, false), (second.0, second.1, false)];
    let rest = seq![(second.0, second.1, false)];
    assert(chunks.drop_first() =~= rest);
    assert(rest.drop_first() =~= Seq::empty());
    assert(parts_text(rest.drop_first()) =~= Seq::<Seq<char>>::empty());
    assert(parts_text(rest) =~= seq![range_text(second.0, second.1)]);
    let parts = seq![range_text(first.0, first.1), range_text(second.0, second.1)];
    assert(parts_text(chunks) =~= parts);
    let tail = seq![range_text(second.0, second.1)];
    assert(parts.drop_first() =~= tail);
    assert(join(tail, ',') == range_text(second.0, second.1));
    assert(join(parts, ',') == parts[0] + seq![','] + join(tail, ','));
}

/// A chunk that may be left out, in front of others.
proof fn lemma_skip_policy(min: usize, max: usize, rest: Seq<(usize, usize, bool)>)
    requires
        rest.len() > 0,
    ensures
        policy_text(seq![(min, max, true)] + rest) == range_text(min, max) + seq![',', 'c', ',']
            + policy_text(rest),
{
    let chunks = seq![(min, max, true)] + rest;
    let parts = parts_text(chunks);
    assert(chunks.drop_first() =~= rest);
    lemma_parts_text(rest);
    assert(parts =~= seq![range_text(min, max), seq!['c']] + parts_text(rest));
    assert(parts.drop_first() =~= seq![seq!['c']] + parts_text(rest));
    assert(parts.drop_first().drop_first() =~= parts_text(rest));
    assert(join(parts.drop_first(), ',') == seq!['c'] + seq![','] + policy_text(rest));
    assert(policy_text(chunks) =~= range_text(min, max) + seq![',', 'c', ','] + policy_text(rest));
}

proof fn lemma_default_lines()
    ensures
        stop_text(8) == default_line(0),
        entry_text(default_entries()[0]) == default_line(1),
        entry_text(default_entries()[1]) == default_line(2),
        entry_text(default_entries()[2]) == default_line(3),
        entry_text(default_entries()[3]) == default_line(4),
        entry_text(default_entries()[4]) == default_line(5),
        entry_text(default_entries()[5]) == default_line(6),
        entry_text(default_entries()[6]) == default_line(7),
        entry_text(default_entries()[7]) == default_line(8),
{
    lemma_default_numbers();
    reveal_strlit("stop");
    assert(stop_text(8) =~= seq!['s', 't', 'o', 'p', '=', '8']);
    lemma_single_policy(30, 30);
    lemma_single_policy(100, 400);
    lemma_double_policy((9, 9), (500, 1000));
    lemma_single_policy(500, 1000);
    let last = seq![(500usize, 1000usize, false)];
    let one = seq![(500usize, 1000usize, true)] + last;
    let two = seq![(500usize, 1000usize, true)] + one;
    let three = seq![(500usize, 1000usize, true)] + two;
    lemma_skip_policy(500, 1000, last);
    lemma_skip_policy(500, 1000, one);
    lemma_skip_policy(500, 1000, two);
    lemma_skip_policy(400, 500, three);
    assert(default_entries()[2].1 =~= seq![(400usize, 500usize, true)] + three);
    let wide = seq!['5', '0', '0', '-', '1', '0', '0', '0'];
    assert(range_text(500, 1000) =~= wide);
    assert(entry_text(default_entries()[0]) =~= default_line(1));
    assert(entry_text(default_entries()[1]) =~= default_line(2));
    assert(entry_text(default_entries()[2]) =~= default_line(3));
    assert(entry_text(default_entries()[3]) =~= default_line(4));
    assert(entry_text(default_entries()[4]) =~= default_line(5));
    assert(entry_text(default_entries()[5]) =~= default_line(6));
    assert(entry_text(default_entries()[6]) =~= default_line(7));
    assert(entry_text(default_entries()[7]) =~= default_line(8));
}

/// The lines of the default scheme, character by character.
spec fn default_line(i: int) -> Seq<char> {
    if i == 0 {
        seq!['s', 't', 'o', 'p', '=', '8']
    } else if i == 1 {
        seq!['0', '=', '3', '0', '-', '3', '0']
    } else if i == 2 {
        seq!['1', '=', '1', '0', '0', '-', '4', '0', '0']
    } else if i == 3 {
        seq![
            '2', '=', '4', '0', '0', '-', '5', '0', '0', ',', 'c', ',', '5', '0', '0', '-',
            '1', '0', '0', '0', ',', 'c', ',', '5', '0', '0', '-', '1', '0', '0', '0', ',',
            'c', ',', '5', '0', '0', '-', '1', '0', '0', '0', ',', 'c', ',', '5', '0', '0',
            '-', '1', '0', '0', '0',
        ]
    } else if i == 4 {
        seq!['3', '=', '9', '-', '9', ',', '5', '0', '0', '-', '1', '0', '0', '0']
    } else if i == 5 {
        seq!['4', '=', '5', '0', '0', '-', '1', '0', '0', '0']
    } else if i == 6 {
        seq!['5', '=', '5', '0', '0', '-', '1', '0', '0', '0']
    } else if i == 7 {
        seq!['6', '=', '5', '0', '0', '-', '1', '0', '0', '0']
    } else {
        seq!['7', '=', '5', '0', '0', '-', '1', '0', '0', '0']
    }
}

/// The lines of the default scheme from the `i`th on, one behind the other.
spec fn default_from(i: int) -> Seq<char>
    decreases 8 - i,
{
    if i >= 8 {
        default_line(8)
    } else {
        default_line(i) + seq!['\n'] + default_from(i + 1)
    }
}

proof fn lemma_default_literal()
    ensures
        DEFAULT_PADDING_SCHEME@ == default_from(0),
{
    reveal_strlit(
        "stop=8\n0=30-30\n1=100-400\n2=400-500,c,500-1000,c,500-1000,c,500-1000,c,500-1000\n3=9-9,500-1000\n4=500-1000\n5=500-1000\n6=500-1000\n7=500-1000",
    );
    reveal_with_fuel(default_from, 9);
    assert(DEFAULT_PADDING_SCHEME@ =~= default_from(0));
}

/// The text of the default scheme writes down what it is to say.
proof fn lemma_default_text()
    ensures
        DEFAULT_PADDING_SCHEME@ == scheme_text(8, default_entries()),
{
    let e = default_entries();
    let lines = lines_text(8, e);
    lemma_default_literal();
    assert forall|i: int| 0 <= i < 9 implies #[trigger] lines[i] == default_line(i) by {
        lemma_default_lines();
        if i > 0 {
            assert(lines[i] == entry_text(e[i - 1]));
        }
    }
    assert(lines.len() == 9);
    lemma_default_from(lines, 0);
    assert(lines.skip(0) =~= lines);
}

proof fn lemma_default_from(lines: Seq<Seq<char>>, i: int)
    requires
        lines.len() == 9,
        forall|k: int| 0 <= k < 9 ==> #[trigger] lines[k] == default_line(k),
        0 <= i < 9,
    ensures
        join(lines.skip(i), '\n') == default_from(i),
    decreases 9 - i,
{
    lemma_join_from(lines, i);
    if i < 8 {
        lemma_default_from(lines, i + 1);
    }
}

/// One step of joining the lines from the `i`th on.
proof fn lemma_join_from(lines: Seq<Seq<char>>, i: int)
    requires
        0 <= i < lines.len(),
    ensures
        join(lines.skip(i), '\n') == (if i + 1 == lines.len() {
            lines[i]
        } else {
            lines[i] + seq!['\n'] + join(lines.skip(i + 1), '\n')
        }),
{
    assert(lines.skip(i).drop_first() =~= lines.skip(i + 1));
}

/// The text of the default scheme is a valid scheme.
pub proof fn law_default_scheme()
    ensures
        scheme_of(DEFAULT_PADDING_SCHEME@) == Ok::<_, PaddingError>(default_scheme()),
{
    let e = default_entries();
    lemma_default_text();
    law_scheme_round_trip(8, e);
    reveal_with_fuel(policies_of, 9);
    assert(policies_of(e, Map::empty()) =~= default_scheme().policies);
}

} // verus!
