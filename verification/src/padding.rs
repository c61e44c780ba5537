//! Padding schemes: how a server asks its clients to cut and pad their packets.
//!
//! A scheme is text, one `key=value` to the line. `stop=8` ends the padding
//! with that packet; `2=400-500,c,500-1000` says how packet 2 is cut: a chunk
//! of 400 to 500 bytes that may be left out (`c`), then one of 500 to 1000.
use crate::outside::{draw, hex_encode, hex_lower, sha256, sha256_digest};
use crate::text::{
    chars_of, is_word, law_cut_at_separator, parse_number, parse_unsigned, split, split_chars,
    split_once, split_once_chars, trim, trim_chars, views,
};
use crate::padding_text::law_default_scheme;
use std::collections::HashMap;
use vstd::prelude::*;

verus! {

broadcast use vstd::std_specs::hash::group_hash_axioms;

/// The scheme that a session begins with.
pub const DEFAULT_PADDING_SCHEME: &'static str =
    "stop=8\n0=30-30\n1=100-400\n2=400-500,c,500-1000,c,500-1000,c,500-1000,c,500-1000\n3=9-9,500-1000\n4=500-1000\n5=500-1000\n6=500-1000\n7=500-1000";

/// What the default scheme says.
pub open spec fn default_scheme() -> PaddingSchemeView {
    let last = seq![(500usize, 1000usize, false)];
    PaddingSchemeView {
        stop_at: 8,
        policies: map![
            0u8 => seq![(30usize, 30usize, false)],
            1u8 => seq![(100usize, 400usize, false)],
            2u8 => seq![
                (400usize, 500usize, true),
                (500usize, 1000usize, true),
                (500usize, 1000usize, true),
                (500usize, 1000usize, true),
                (500usize, 1000usize, false),
            ],
            3u8 => seq![(9usize, 9usize, false), (500usize, 1000usize, false)],
            4u8 => last,
            5u8 => last,
            6u8 => last,
            7u8 => last,
        ],
        hash: scheme_hash(DEFAULT_PADDING_SCHEME@),
    }
}

/// Why a padding scheme was refused.
#[derive(Debug, Clone, Copy, PartialEq, Eq, Structural)]
pub enum PaddingError {
    /// The lower bound of a chunk is not a number.
    InvalidMin,
    /// The upper bound of a chunk is not a number.
    InvalidMax,
    /// The value of `stop` is not a number below 256.
    InvalidStop,
}

impl PaddingError {
    pub open spec fn text(self) -> Seq<char> {
        match self {
            PaddingError::InvalidMin => "invalid padding min"@,
            PaddingError::InvalidMax => "invalid padding max"@,
            PaddingError::InvalidStop => "invalid stop value"@,
        }
    }

    pub fn message(self) -> (text: &'static str)
        ensures
            text@ == self.text(),
    {
        match self {
            PaddingError::InvalidMin => "invalid padding min",
            PaddingError::InvalidMax => "invalid padding max",
            PaddingError::InvalidStop => "invalid stop value",
        }
    }
}

/// How one packet is cut: chunks of `(min, max, can_skip)`.
#[derive(Debug)]
pub enum PaddingPolicy {
    Chunks(Vec<(usize, usize, bool)>),
}

/// The bounds that `min-max` writes down; nothing for a part without a dash.
pub open spec fn chunk_bounds(part: Seq<char>) -> Option<Result<(usize, usize), PaddingError>> {
    match split_once(part, '-') {
        None => None,
        Some((low, high)) => match parse_unsigned(trim(low), usize::MAX as nat) {
            None => Some(Err(PaddingError::InvalidMin)),
            Some(min) => match parse_unsigned(trim(high), usize::MAX as nat) {
                None => Some(Err(PaddingError::InvalidMax)),
                Some(max) => Some(Ok((min as usize, max as usize))),
            },
        },
    }
}

/// A `c` behind a part marks that part as one that may be left out.
pub open spec fn skip_mark(parts: Seq<Seq<char>>) -> bool {
    parts.len() > 1 && trim(parts[1]) == seq!['c']
}

/// The chunks that a list of parts writes down, or the first thing wrong with them.
pub open spec fn chunks_of_parts(parts: Seq<Seq<char>>) -> Result<
    Seq<(usize, usize, bool)>,
    PaddingError,
>
    decreases parts.len(),
{
    if parts.len() == 0 {
        Ok(Seq::empty())
    } else {
        let rest = if skip_mark(parts) {
            parts.skip(2)
        } else {
            parts.skip(1)
        };
        match chunk_bounds(trim(parts[0])) {
            None => chunks_of_parts(rest),
            Some(Err(e)) => Err(e),
            Some(Ok((min, max))) => prepend(
                seq![(min, max, skip_mark(parts))],
                chunks_of_parts(rest),
            ),
        }
    }
}

/// `front`, then what was read, where it could be.
pub open spec fn prepend(
    front: Seq<(usize, usize, bool)>,
    rest: Result<Seq<(usize, usize, bool)>, PaddingError>,
) -> Result<Seq<(usize, usize, bool)>, PaddingError> {
    match rest {
        Ok(chunks) => Ok(front + chunks),
        Err(e) => Err(e),
    }
}

/// The chunks that the value of a scheme line writes down.
pub open spec fn policy_chunks(s: Seq<char>) -> Result<Seq<(usize, usize, bool)>, PaddingError> {
    chunks_of_parts(split(s, ','))
}

/// The range that the size of a chunk is drawn from, with `remaining` bytes of
/// payload left; nothing where the cutting ends at this chunk.
pub open spec fn size_range(chunk: (usize, usize, bool), remaining: nat) -> Option<(nat, nat)> {
    let (min, max, can_skip) = chunk;
    if remaining == 0 {
        if can_skip {
            None
        } else {
            Some((min as nat, max as nat))
        }
    } else if min >= remaining {
        Some((remaining, remaining))
    } else {
        Some((
            min as nat,
            if max <= remaining {
                max as nat
            } else {
                remaining
            },
        ))
    }
}

/// What the sizes add up to.
pub open spec fn total(sizes: Seq<usize>) -> nat
    decreases sizes.len(),
{
    if sizes.len() == 0 {
        0
    } else {
        total(sizes.drop_last()) + sizes.last() as nat
    }
}

/// `sizes` may have been drawn for the first chunks, with payload left at each of them.
pub open spec fn cut_so_far(
    chunks: Seq<(usize, usize, bool)>,
    payload: nat,
    sizes: Seq<usize>,
) -> bool
    decreases sizes.len(),
{
    sizes.len() > 0 ==> {
        let before = sizes.drop_last();
        &&& sizes.len() <= chunks.len()
        &&& cut_so_far(chunks, payload, before)
        &&& total(before) < payload
        &&& size_range(
            chunks[before.len() as int],
            (payload - total(before)) as nat,
        ) matches Some((low, high)) && low <= sizes.last() <= high
    }
}

/// The next size is not drawn from an empty range.
pub open spec fn next_drawable(
    chunks: Seq<(usize, usize, bool)>,
    payload: nat,
    sizes: Seq<usize>,
) -> bool {
    sizes.len() < chunks.len() ==> (size_range(
        chunks[sizes.len() as int],
        (payload - total(sizes)) as nat,
    ) matches Some((low, high)) ==> low <= high)
}

/// No size is ever drawn from an empty range, whatever the draws before it gave.
pub open spec fn drawable(chunks: Seq<(usize, usize, bool)>, payload: nat) -> bool {
    forall|sizes: Seq<usize>| #[trigger]
        cut_so_far(chunks, payload, sizes) ==> next_drawable(chunks, payload, sizes)
}

/// `sizes` is a way to cut a payload of `remaining` bytes by `chunks`.
pub open spec fn cuts(chunks: Seq<(usize, usize, bool)>, remaining: nat, sizes: Seq<usize>) -> bool
    decreases chunks.len(),
{
    if chunks.len() == 0 {
        if remaining > 0 {
            sizes.len() == 1 && sizes[0] == remaining
        } else {
            sizes.len() == 0
        }
    } else {
        match size_range(chunks[0], remaining) {
            None => sizes.len() == 0,
            Some((low, high)) => {
                &&& sizes.len() > 0
                &&& low <= sizes[0] <= high
                &&& if remaining == 0 {
                    sizes.len() == 1
                } else {
                    cuts(chunks.drop_first(), (remaining - sizes[0]) as nat, sizes.drop_first())
                }
            },
        }
    }
}

impl PaddingPolicy {
    pub open spec fn chunks(self) -> Seq<(usize, usize, bool)> {
        match self {
            PaddingPolicy::Chunks(chunks) => chunks@,
        }
    }

    /// Reads the value of a scheme line.
    pub fn parse(s: &str) -> (r: Result<PaddingPolicy, PaddingError>)
        ensures
            match r {
                Ok(policy) => policy_chunks(s@) == Ok::<_, PaddingError>(policy.chunks()),
                Err(e) => policy_chunks(s@) == Err::<Seq<(usize, usize, bool)>, _>(e),
            },
    {
        let chars: Vec<char> = chars_of(s);
        PaddingPolicy::parse_chars(&chars)
    }

    fn parse_chars(s: &[char]) -> (r: Result<PaddingPolicy, PaddingError>)
        ensures
            match r {
                Ok(policy) => policy_chunks(s@) == Ok::<_, PaddingError>(policy.chunks()),
                Err(e) => policy_chunks(s@) == Err::<Seq<(usize, usize, bool)>, _>(e),
            },
    {
        let parts: Vec<Vec<char>> = split_chars(s, ',');
        let ghost all = views(parts@);
        let mut chunks: Vec<(usize, usize, bool)> = Vec::new();
        let mut i: usize = 0;
        proof {
            assert(all.skip(0) =~= all);
            assert(prepend(chunks@, chunks_of_parts(all)) == chunks_of_parts(all)) by {
                if let Ok(rest) = chunks_of_parts(all) {
                    assert(chunks@ + rest =~= rest);
                }
            }
        }
        while i < parts.len()
            invariant
                i <= parts@.len(),
                all == views(parts@),
                all == split(s@, ','),
                policy_chunks(s@) == prepend(chunks@, chunks_of_parts(all.skip(i as int))),
            decreases parts@.len() - i,
        {
            let ghost here = all.skip(i as int);
            let part: Vec<char> = trim_chars(&parts[i]);
            assert(here[0] == all[i as int]);
            let mut can_skip: bool = false;
            let mut next: usize = i + 1;
            if i + 1 < parts.len() {
                let behind: Vec<char> = trim_chars(&parts[i + 1]);
                assert(here[1] == all[i + 1]);
                proof {
                    reveal_strlit("c");
                    assert("c"@ =~= seq!['c']);
                }
                if is_word(&behind, "c") {
                    can_skip = true;
                    next = i + 2;
                }
            }
            assert(can_skip == skip_mark(here));
            assert(here.skip(next - i) =~= all.skip(next as int));
            match split_once_chars(&part, '-') {
                Some((low, high)) => {
                    let low: Vec<char> = trim_chars(&low);
                    let min: usize = match parse_number(&low, usize::MAX as u64) {
                        Some(n) => n as usize,
                        None => {
                            return Err(PaddingError::InvalidMin);
                        },
                    };
                    let high: Vec<char> = trim_chars(&high);
                    let max: usize = match parse_number(&high, usize::MAX as u64) {
                        Some(n) => n as usize,
                        None => {
                            return Err(PaddingError::InvalidMax);
                        },
                    };
                    let ghost before = chunks@;
                    chunks.push((min, max, can_skip));
                    proof {
                        let rest = chunks_of_parts(all.skip(next as int));
                        if let Ok(more) = rest {
                            assert(before + (seq![(min, max, can_skip)] + more) =~= chunks@ + more);
                        }
                    }
                },
                None => {},
            }
            i = next;
        }
        proof {
            assert(chunks@ + Seq::<(usize, usize, bool)>::empty() =~= chunks@);
        }
        Ok(PaddingPolicy::Chunks(chunks))
    }

    pub fn copy(&self) -> (policy: PaddingPolicy)
        ensures
            policy.chunks() == self.chunks(),
    {
        let PaddingPolicy::Chunks(chunks) = self;
        PaddingPolicy::Chunks(vstd::slice::slice_to_vec(chunks))
    }

    /// The range that the size of a chunk is drawn from.
    pub fn size_bounds(chunk: (usize, usize, bool), remaining: usize) -> (r: Option<(usize, usize)>)
        ensures
            match r {
                Some((low, high)) => size_range(chunk, remaining as nat) == Some(
                    (low as nat, high as nat),
                ),
                None => size_range(chunk, remaining as nat) is None,
            },
    {
        let (min, max, can_skip) = chunk;
        if remaining == 0 {
            if can_skip {
                None
            } else {
                Some((min, max))
            }
        } else if min >= remaining {
            Some((remaining, remaining))
        } else if max <= remaining {
            Some((min, max))
        } else {
            Some((min, remaining))
        }
    }

    /// Cuts a payload into chunk sizes. What the chunks leave over comes last; a
    /// chunk that is reached with nothing left becomes padding, unless it may be
    /// left out, and ends the cutting.
    pub fn apply(&self, payload_len: usize) -> (sizes: Vec<usize>)
        requires
            drawable(self.chunks(), payload_len as nat),
        ensures
            cuts(self.chunks(), payload_len as nat, sizes@),
    {
        let PaddingPolicy::Chunks(chunks) = self;
        let ghost all = chunks@;
        let mut remaining: usize = payload_len;
        let mut sizes: Vec<usize> = Vec::new();
        let mut i: usize = 0;
        proof {
            assert(all.skip(0) =~= all);
            assert forall|tail: Seq<usize>|
                #[trigger] cuts(all.skip(0), remaining as nat, tail) implies cuts(
                all,
                payload_len as nat,
                sizes@ + tail,
            ) by {
                assert(sizes@ + tail =~= tail);
            }
        }
        while i < chunks.len()
            invariant
                i <= chunks@.len(),
                all == chunks@,
                all == self.chunks(),
                i == sizes@.len(),
                drawable(all, payload_len as nat),
                cut_so_far(all, payload_len as nat, sizes@),
                total(sizes@) + remaining == payload_len,
                forall|tail: Seq<usize>| #[trigger]
                    cuts(all.skip(i as int), remaining as nat, tail) ==> cuts(
                        all,
                        payload_len as nat,
                        sizes@ + tail,
                    ),
            decreases chunks@.len() - i,
        {
            let ghost here = all.skip(i as int);
            let ghost before = remaining as nat;
            assert(here[0] == all[i as int]);
            assert(here.drop_first() =~= all.skip(i + 1));
            assert(next_drawable(all, payload_len as nat, sizes@));
            match PaddingPolicy::size_bounds(chunks[i], remaining) {
                None => {
                    proof {
                        let tail = Seq::<usize>::empty();
                        assert(cuts(here, before, tail));
                        assert(sizes@ + tail =~= sizes@);
                    }
                    return sizes;
                },
                Some((low, high)) => {
                    let size: usize = draw(low, high);
                    let ghost sent = sizes@;
                    sizes.push(size);
                    if remaining == 0 {
                        proof {
                            let tail = seq![size];
                            assert(cuts(here, before, tail));
                            assert(sent + tail =~= sizes@);
                        }
                        return sizes;
                    }
                    remaining = remaining - size;
                    proof {
                        assert(sizes@.drop_last() =~= sent);
                        assert forall|tail: Seq<usize>|
                            #[trigger] cuts(all.skip(i + 1), remaining as nat, tail) implies cuts(
                            all,
                            payload_len as nat,
                            sizes@ + tail,
                        ) by {
                            let longer = seq![size] + tail;
                            assert(longer.drop_first() =~= tail);
                            assert(cuts(here, before, longer));
                            assert(sent + longer =~= sizes@ + tail);
                        }
                    }
                },
            }
            i = i + 1;
        }
        let ghost sent = sizes@;
        if remaining > 0 {
            sizes.push(remaining);
        }
        proof {
            let tail = if remaining > 0 {
                seq![remaining]
            } else {
                Seq::<usize>::empty()
            };
            assert(all.skip(i as int).len() == 0);
            assert(cuts(all.skip(i as int), remaining as nat, tail));
            assert(sent + tail =~= sizes@);
        }
        sizes
    }
}

/// A scheme as the contracts see it.
#[verifier::ext_equal]
pub struct PaddingSchemeView {
    pub stop_at: u8,
    pub policies: Map<u8, Seq<(usize, usize, bool)>>,
    pub hash: Seq<char>,
}

/// How the packets of a session are padded.
#[derive(Debug)]
pub struct PaddingScheme {
    pub stop_at: u8,
    pub policies: HashMap<u8, PaddingPolicy>,
    pub hash: String,
}

/// The kinds of lines that a scheme has.
pub enum SchemeLine {
    Ignored,
    Stop(u8),
    Policy(u8, Seq<(usize, usize, bool)>),
    Invalid(PaddingError),
}

/// What a line of a scheme says.
pub open spec fn scheme_line(line: Seq<char>) -> SchemeLine {
    match split_once(trim(line), '=') {
        None => SchemeLine::Ignored,
        Some((key, value)) => if trim(key) == "stop"@ {
            match parse_unsigned(trim(value), 255) {
                None => SchemeLine::Invalid(PaddingError::InvalidStop),
                Some(n) => SchemeLine::Stop(n as u8),
            }
        } else {
            match parse_unsigned(trim(key), 255) {
                None => SchemeLine::Ignored,
                Some(n) => match policy_chunks(trim(value)) {
                    Ok(chunks) => SchemeLine::Policy(n as u8, chunks),
                    Err(e) => SchemeLine::Invalid(e),
                },
            }
        },
    }
}

/// The lines from the first on, read into `stop_at` and `policies`; a later line
/// for the same packet replaces an earlier one.
pub open spec fn scheme_of_lines(
    lines: Seq<Seq<char>>,
    stop_at: u8,
    policies: Map<u8, Seq<(usize, usize, bool)>>,
) -> Result<(u8, Map<u8, Seq<(usize, usize, bool)>>), PaddingError>
    decreases lines.len(),
{
    if lines.len() == 0 {
        Ok((stop_at, policies))
    } else {
        match scheme_line(lines[0]) {
            SchemeLine::Ignored => scheme_of_lines(lines.drop_first(), stop_at, policies),
            SchemeLine::Stop(n) => scheme_of_lines(lines.drop_first(), n, policies),
            SchemeLine::Policy(n, chunks) => scheme_of_lines(
                lines.drop_first(),
                stop_at,
                policies.insert(n, chunks),
            ),
            SchemeLine::Invalid(e) => Err(e),
        }
    }
}

/// The SHA-256 digest of the UTF-8 text, in lower-case hexadecimal.
pub open spec fn scheme_hash(raw: Seq<char>) -> Seq<char> {
    hex_lower(sha256_digest(vstd::utf8::encode_utf8(raw)))
}

/// The scheme that a text writes down. A carriage return before a line end is
/// white space and goes away with the rest of it.
pub open spec fn scheme_of(raw: Seq<char>) -> Result<PaddingSchemeView, PaddingError> {
    match scheme_of_lines(
        split(raw, '\n'),
        0,
        Map::<u8, Seq<(usize, usize, bool)>>::empty(),
    ) {
        Ok((stop_at, policies)) => Ok(
            PaddingSchemeView { stop_at, policies, hash: scheme_hash(raw) },
        ),
        Err(e) => Err(e),
    }
}

/// The chunks of each packet.
pub open spec fn policies_view(policies: Map<u8, PaddingPolicy>) -> Map<
    u8,
    Seq<(usize, usize, bool)>,
> {
    policies.map_values(|p: PaddingPolicy| p.chunks())
}

impl View for PaddingScheme {
    type V = PaddingSchemeView;

    open spec fn view(&self) -> PaddingSchemeView {
        PaddingSchemeView {
            stop_at: self.stop_at,
            policies: policies_view(self.policies@),
            hash: self.hash@,
        }
    }
}

impl PaddingScheme {
    pub fn copy(&self) -> (scheme: PaddingScheme)
        ensures
            scheme@ == self@,
    {
        let mut policies: HashMap<u8, PaddingPolicy> = HashMap::new();
        let mut next: usize = 0;
        while next < 256
            invariant
                next <= 256,
                forall|k: u8| #[trigger]
                    policies@.dom().contains(k) <==> k < next && self.policies@.dom().contains(k),
                forall|k: u8| #[trigger]
                    policies@.dom().contains(k) ==> policies@[k].chunks()
                        == self.policies@[k].chunks(),
            decreases 256 - next,
        {
            let packet: u8 = next as u8;
            if let Some(policy) = self.policies.get(&packet) {
                policies.insert(packet, policy.copy());
            }
            next = next + 1;
        }
        assert(policies_view(policies@) =~= policies_view(self.policies@));
        PaddingScheme { stop_at: self.stop_at, policies, hash: self.hash.clone() }
    }

    /// Reads a scheme. Lines without `=`, and those whose key is neither `stop`
    /// nor the number of a packet, say nothing.
    pub fn parse(raw: &str) -> (r: Result<PaddingScheme, PaddingError>)
        ensures
            match r {
                Ok(scheme) => scheme_of(raw@) == Ok::<_, PaddingError>(scheme@)
                    && scheme.hash@.len() == 64,
                Err(e) => scheme_of(raw@) == Err::<PaddingSchemeView, _>(e),
            },
    {
        let chars: Vec<char> = chars_of(raw);
        let lines: Vec<Vec<char>> = split_chars(&chars, '\n');
        let ghost all = views(lines@);
        let ghost outcome = scheme_of_lines(
            all,
            0,
            Map::<u8, Seq<(usize, usize, bool)>>::empty(),
        );
        let mut stop_at: u8 = 0;
        let mut policies: HashMap<u8, PaddingPolicy> = HashMap::new();
        let mut i: usize = 0;
        proof {
            assert(all.skip(0) =~= all);
            assert(policies_view(policies@) =~= Map::<u8, Seq<(usize, usize, bool)>>::empty());
        }
        while i < lines.len()
            invariant
                i <= lines@.len(),
                all == views(lines@),
                outcome == scheme_of_lines(
                    all.skip(i as int),
                    stop_at,
                    policies_view(policies@),
                ),
                all == split(raw@, '\n'),
                outcome == scheme_of_lines(
                    all,
                    0,
                    Map::<u8, Seq<(usize, usize, bool)>>::empty(),
                ),
            decreases lines@.len() - i,
        {
            let ghost here = all.skip(i as int);
            assert(here[0] == all[i as int]);
            assert(here.drop_first() =~= all.skip(i + 1));
            let line: Vec<char> = trim_chars(&lines[i]);
            if let Some((key, value)) = split_once_chars(&line, '=') {
                let key: Vec<char> = trim_chars(&key);
                let value: Vec<char> = trim_chars(&value);
                if is_word(&key, "stop") {
                    match parse_number(&value, 255) {
                        Some(n) => {
                            stop_at = n as u8;
                        },
                        None => {
                            return Err(PaddingError::InvalidStop);
                        },
                    }
                } else if let Some(n) = parse_number(&key, 255) {
                    match PaddingPolicy::parse_chars(&value) {
                        Ok(policy) => {
                            let ghost before = policies@;
                            policies.insert(n as u8, policy);
                            assert(policies_view(policies@) =~= policies_view(before).insert(
                                n as u8,
                                policy.chunks(),
                            ));
                        },
                        Err(e) => {
                            return Err(e);
                        },
                    }
                }
            }
            i = i + 1;
        }
        let hash: String = PaddingScheme::compute_hash(raw);
        Ok(PaddingScheme { stop_at, policies, hash })
    }

    /// The digest that names a scheme to the server.
    pub fn compute_hash(raw: &str) -> (hash: String)
        ensures
            hash@ == scheme_hash(raw@),
            hash@.len() == 64,
    {
        let digest: [u8; 32] = sha256(raw.as_bytes());
        hex_encode(digest.as_slice())
    }

    /// The scheme that a session begins with.
    pub fn get_default() -> (scheme: PaddingScheme)
        ensures
            scheme@ == default_scheme(),
            scheme.hash@.len() == 64,
    {
        proof {
            law_default_scheme();
        }
        PaddingScheme::parse(DEFAULT_PADDING_SCHEME).expect("default padding scheme must be valid")
    }
}

/// The cut that `draws` make, one for each chunk that is reached; nothing where
/// one is missing or out of its range.
pub open spec fn cut_by(
    chunks: Seq<(usize, usize, bool)>,
    remaining: nat,
    draws: Seq<usize>,
) -> Option<Seq<usize>>
    decreases chunks.len(),
{
    if chunks.len() == 0 {
        Some(
            if remaining > 0 {
                seq![remaining as usize]
            } else {
                Seq::empty()
            },
        )
    } else {
        match size_range(chunks[0], remaining) {
            None => Some(Seq::empty()),
            Some((low, high)) => if draws.len() == 0 || !(low <= draws[0] <= high) {
                None
            } else if remaining == 0 {
                Some(seq![draws[0]])
            } else {
                behind(
                    seq![draws[0]],
                    cut_by(
                        chunks.drop_first(),
                        (remaining - draws[0]) as nat,
                        draws.drop_first(),
                    ),
                )
            },
        }
    }
}

/// `front`, then the sizes that follow, where there are such.
pub open spec fn behind(front: Seq<usize>, rest: Option<Seq<usize>>) -> Option<Seq<usize>> {
    match rest {
        Some(sizes) => Some(front + sizes),
        None => None,
    }
}

impl PaddingPolicy {
    /// Cuts a payload by sizes that were drawn before, one for each chunk that is
    /// reached; nothing where one is missing or out of its range.
    pub fn apply_drawn(&self, payload_len: usize, draws: &[usize]) -> (r: Option<Vec<usize>>)
        ensures
            match r {
                Some(sizes) => cut_by(self.chunks(), payload_len as nat, draws@) == Some(sizes@),
                None => cut_by(self.chunks(), payload_len as nat, draws@) is None,
            },
    {
        let PaddingPolicy::Chunks(chunks) = self;
        let ghost all = chunks@;
        let ghost whole = cut_by(all, payload_len as nat, draws@);
        let mut remaining: usize = payload_len;
        let mut sizes: Vec<usize> = Vec::new();
        let mut i: usize = 0;
        proof {
            assert(all.skip(0) =~= all);
            assert(draws@.skip(0) =~= draws@);
            if let Some(rest) = whole {
                assert(sizes@ + rest =~= rest);
            }
        }
        while i < chunks.len()
            invariant
                i <= chunks@.len(),
                i <= draws@.len(),
                all == chunks@,
                all == self.chunks(),
                whole == cut_by(all, payload_len as nat, draws@),
                whole == behind(
                    sizes@,
                    cut_by(all.skip(i as int), remaining as nat, draws@.skip(i as int)),
                ),
            decreases chunks@.len() - i,
        {
            let ghost here = all.skip(i as int);
            let ghost left = draws@.skip(i as int);
            let ghost before = sizes@;
            assert(here[0] == all[i as int]);
            assert(here.drop_first() =~= all.skip(i + 1));
            match PaddingPolicy::size_bounds(chunks[i], remaining) {
                None => {
                    assert(before + Seq::<usize>::empty() =~= before);
                    return Some(sizes);
                },
                Some((low, high)) => {
                    if i >= draws.len() {
                        return None;
                    }
                    let size: usize = draws[i];
                    assert(left[0] == size);
                    assert(left.drop_first() =~= draws@.skip(i + 1));
                    if size < low || size > high {
                        return None;
                    }
                    sizes.push(size);
                    if remaining == 0 {
                        assert(before + seq![size] =~= sizes@);
                        return Some(sizes);
                    }
                    remaining = remaining - size;
                    proof {
                        if let Some(rest) = cut_by(
                            here.drop_first(),
                            remaining as nat,
                            left.drop_first(),
                        ) {
                            assert(before + (seq![size] + rest) =~= sizes@ + rest);
                        }
                    }
                },
            }
            i = i + 1;
        }
        let ghost before = sizes@;
        if remaining > 0 {
            sizes.push(remaining);
            assert(before + seq![remaining] =~= sizes@);
        } else {
            assert(before + Seq::<usize>::empty() =~= before);
        }
        Some(sizes)
    }
}

/// Every cut comes about by draws: by its own sizes.
pub proof fn law_cuts_are_drawn(
    chunks: Seq<(usize, usize, bool)>,
    payload: nat,
    sizes: Seq<usize>,
)
    requires
        cuts(chunks, payload, sizes),
    ensures
        cut_by(chunks, payload, sizes) == Some(sizes),
    decreases chunks.len(),
{
    if chunks.len() == 0 {
        if payload > 0 {
            assert(seq![payload as usize] =~= sizes);
        } else {
            assert(sizes =~= Seq::empty());
        }
    } else {
        match size_range(chunks[0], payload) {
            None => {
                assert(sizes =~= Seq::empty());
            },
            Some(_) => {
                if payload == 0 {
                    assert(seq![sizes[0]] =~= sizes);
                } else {
                    let rest = sizes.drop_first();
                    law_cuts_are_drawn(chunks.drop_first(), (payload - sizes[0]) as nat, rest);
                    assert(seq![sizes[0]] + rest =~= sizes);
                }
            },
        }
    }
}

/// What draws make of a payload that fits in memory is a cut of it.
pub proof fn law_draws_make_cuts(
    chunks: Seq<(usize, usize, bool)>,
    payload: nat,
    draws: Seq<usize>,
)
    requires
        payload <= usize::MAX,
    ensures
        cut_by(chunks, payload, draws) matches Some(sizes) ==> cuts(chunks, payload, sizes),
    decreases chunks.len(),
{
    if chunks.len() > 0 && payload > 0 {
        if let Some((low, high)) = size_range(chunks[0], payload) {
            if draws.len() > 0 && low <= draws[0] <= high {
                let next = (payload - draws[0]) as nat;
                law_draws_make_cuts(chunks.drop_first(), next, draws.drop_first());
                if let Some(rest) = cut_by(chunks.drop_first(), next, draws.drop_first()) {
                    assert((seq![draws[0]] + rest).drop_first() =~= rest);
                }
            }
        }
    }
}

/// Every chunk has bounds that a number can be drawn from.
pub open spec fn ordered(chunks: Seq<(usize, usize, bool)>) -> bool {
    forall|i: int| 0 <= i < chunks.len() ==> (#[trigger] chunks[i]).0 <= chunks[i].1
}

impl PaddingPolicy {
    /// Whether every chunk has bounds that a number can be drawn from.
    pub fn is_ordered(&self) -> (b: bool)
        ensures
            b == ordered(self.chunks()),
            b ==> forall|payload: nat| #[trigger] drawable(self.chunks(), payload),
    {
        let PaddingPolicy::Chunks(chunks) = self;
        let mut i: usize = 0;
        while i < chunks.len()
            invariant
                i <= chunks@.len(),
                chunks@ == self.chunks(),
                forall|j: int| 0 <= j < i ==> (#[trigger] chunks@[j]).0 <= chunks@[j].1,
            decreases chunks@.len() - i,
        {
            if chunks[i].0 > chunks[i].1 {
                return false;
            }
            i = i + 1;
        }
        proof {
            assert forall|payload: nat| #[trigger] drawable(self.chunks(), payload) by {
                law_ordered_drawable(self.chunks(), payload);
            }
        }
        true
    }
}

/// Chunks that each have their bounds in order cut any payload.
pub proof fn law_ordered_drawable(chunks: Seq<(usize, usize, bool)>, payload: nat)
    requires
        ordered(chunks),
    ensures
        drawable(chunks, payload),
{
    assert forall|sizes: Seq<usize>| #[trigger]
        cut_so_far(chunks, payload, sizes) implies next_drawable(chunks, payload, sizes) by {
        if sizes.len() < chunks.len() {
            assert(chunks[sizes.len() as int].0 <= chunks[sizes.len() as int].1);
        }
    }
}

proof fn lemma_total_front(sizes: Seq<usize>)
    requires
        sizes.len() > 0,
    ensures
        total(sizes) == sizes[0] + total(sizes.drop_first()),
    decreases sizes.len(),
{
    if sizes.len() == 1 {
        assert(sizes.drop_last() =~= Seq::empty());
        assert(sizes.drop_first() =~= Seq::empty());
    } else {
        lemma_total_front(sizes.drop_last());
        assert(sizes.drop_last().drop_first() =~= sizes.drop_first().drop_last());
    }
}

/// A cut loses nothing: the sizes add up to the payload, but for one more at the
/// end that is padding alone.
pub proof fn law_cut_keeps_payload(
    chunks: Seq<(usize, usize, bool)>,
    payload: nat,
    sizes: Seq<usize>,
)
    requires
        cuts(chunks, payload, sizes),
    ensures
        total(sizes) == payload || (sizes.len() > 0 && total(sizes.drop_last()) == payload),
    decreases chunks.len(),
{
    if sizes.len() == 0 {
        if chunks.len() > 0 {
            assert(size_range(chunks[0], payload) is None);
        }
    } else if sizes.len() == 1 {
        assert(sizes.drop_last() =~= Seq::empty());
        lemma_total_front(sizes);
        assert(sizes.drop_first() =~= Seq::empty());
        if chunks.len() > 0 && payload > 0 {
            law_cut_keeps_payload(
                chunks.drop_first(),
                (payload - sizes[0]) as nat,
                sizes.drop_first(),
            );
        }
    } else {
        let rest = sizes.drop_first();
        lemma_total_front(sizes);
        lemma_total_front(sizes.drop_last());
        assert(sizes.drop_last().drop_first() =~= rest.drop_last());
        law_cut_keeps_payload(chunks.drop_first(), (payload - sizes[0]) as nat, rest);
    }
}

/// A cut has at most one size more than there are chunks.
pub proof fn law_cut_length(chunks: Seq<(usize, usize, bool)>, payload: nat, sizes: Seq<usize>)
    requires
        cuts(chunks, payload, sizes),
    ensures
        sizes.len() <= chunks.len() + 1,
    decreases chunks.len(),
{
    if chunks.len() > 0 && payload > 0 {
        law_cut_length(chunks.drop_first(), (payload - sizes[0]) as nat, sizes.drop_first());
    }
}

/// What sizes add up to: nothing without any, and one more behind them adds itself.
pub proof fn law_total(sizes: Seq<usize>, last: usize)
    ensures
        total(Seq::empty()) == 0,
        total(sizes.push(last)) == total(sizes) + last,
{
    assert(sizes.push(last).drop_last() =~= sizes);
}

/// How large a chunk may be. While payload is left, the skip mark makes no
/// difference: the chunk takes all that is left where its lower bound is not below
/// that, and otherwise lies between its lower bound and the smaller of its upper
/// bound and what is left. With nothing left, a chunk that may be left out is, and
/// any other lies between its bounds.
pub proof fn law_chunk_size(min: usize, max: usize, can_skip: bool, remaining: nat)
    ensures
        remaining > 0 ==> size_range((min, max, can_skip), remaining) == size_range(
            (min, max, !can_skip),
            remaining,
        ),
        0 < remaining <= min ==> size_range((min, max, can_skip), remaining) == Some(
            (remaining, remaining),
        ),
        remaining > min ==> (size_range((min, max, can_skip), remaining) matches Some((low, high))
            && low == min && high <= max && high <= remaining && (high == max || high
            == remaining)),
        remaining == 0 ==> size_range((min, max, true), remaining) is None,
        remaining == 0 ==> size_range((min, max, false), remaining) == Some(
            (min as nat, max as nat),
        ),
{
}

/// Cutting, chunk by chunk, in full: `sizes` is a way to cut what is left by a
/// chunk and those behind it exactly when it begins with a size that the chunk
/// may have and goes on with a way to cut the rest by the others.
pub proof fn law_cut_by_chunk(
    min: usize,
    max: usize,
    can_skip: bool,
    others: Seq<(usize, usize, bool)>,
    remaining: nat,
    sizes: Seq<usize>,
)
    ensures
        ({
            let chunks = seq![(min, max, can_skip)] + others;
            &&& remaining == 0 && can_skip ==> (cuts(chunks, remaining, sizes) <==> sizes.len()
                == 0)
            &&& remaining == 0 && !can_skip ==> (cuts(chunks, remaining, sizes) <==> sizes.len()
                == 1 && min <= sizes[0] <= max)
            &&& 0 < remaining <= min ==> (cuts(chunks, remaining, sizes) <==> sizes.len() > 0
                && sizes[0] == remaining && cuts(others, 0, sizes.drop_first()))
            &&& remaining > min ==> (cuts(chunks, remaining, sizes) <==> sizes.len() > 0 && min
                <= sizes[0] <= max && sizes[0] <= remaining && cuts(
                others,
                (remaining - sizes[0]) as nat,
                sizes.drop_first(),
            ))
        }),
        cuts(Seq::empty(), remaining, sizes) <==> if remaining > 0 {
            sizes.len() == 1 && sizes[0] == remaining
        } else {
            sizes.len() == 0
        },
{
    let chunks = seq![(min, max, can_skip)] + others;
    assert(chunks[0] == (min, max, can_skip));
    assert(chunks.drop_first() =~= others);
}

/// Each size of a cut, by what the sizes before it have left of the payload. While
/// any is left, a chunk takes all of it where its lower bound is not below that,
/// and otherwise as much as its bounds and what is left allow, whether or not it
/// may be left out; behind the last chunk comes what is left. With nothing left,
/// one more size at most follows, as padding for a chunk that may not be left out.
pub proof fn law_cut_sizes(
    chunks: Seq<(usize, usize, bool)>,
    payload: nat,
    sizes: Seq<usize>,
    i: int,
)
    requires
        cuts(chunks, payload, sizes),
        0 <= i < sizes.len(),
    ensures
        ({
            let left = payload - total(sizes.take(i));
            &&& left >= 0
            &&& i <= chunks.len()
            &&& i < chunks.len() && left > 0 && chunks[i].0 >= left ==> sizes[i] == left
            &&& i < chunks.len() && left > 0 && chunks[i].0 < left ==> chunks[i].0 <= sizes[i]
                <= chunks[i].1 && sizes[i] <= left
            &&& i < chunks.len() && left == 0 ==> !chunks[i].2 && chunks[i].0 <= sizes[i]
                <= chunks[i].1 && i == sizes.len() - 1
            &&& i == chunks.len() ==> left > 0 && sizes[i] == left && i == sizes.len() - 1
        }),
    decreases chunks.len(),
{
    if i == 0 {
        assert(sizes.take(0) =~= Seq::empty());
    } else {
        let others = chunks.drop_first();
        let rest = sizes.drop_first();
        assert(chunks.len() > 0 && payload > 0);
        law_cut_sizes(others, (payload - sizes[0]) as nat, rest, i - 1);
        lemma_total_front(sizes.take(i));
        assert(sizes.take(i).drop_first() =~= rest.take(i - 1));
        if i < chunks.len() {
            assert(others[i - 1] == chunks[i]);
        }
    }
}

/// Where a cut ends, nothing is left, and the next chunk, if there is one, may be
/// left out or is what the last size padded for.
pub proof fn law_cut_ends(chunks: Seq<(usize, usize, bool)>, payload: nat, sizes: Seq<usize>)
    requires
        cuts(chunks, payload, sizes),
    ensures
        total(sizes) >= payload,
        sizes.len() < chunks.len() ==> chunks[sizes.len() as int].2 || (sizes.len() > 0 && total(
            sizes.drop_last(),
        ) == payload),
    decreases chunks.len(),
{
    if sizes.len() == 0 {
        if chunks.len() > 0 {
            assert(size_range(chunks[0], payload) is None);
        }
    } else if chunks.len() > 0 {
        lemma_total_front(sizes);
        let rest = sizes.drop_first();
        if payload == 0 {
            assert(sizes.drop_last() =~= Seq::empty());
        } else {
            law_cut_ends(chunks.drop_first(), (payload - sizes[0]) as nat, rest);
            if rest.len() > 0 {
                lemma_total_front(sizes.drop_last());
                assert(sizes.drop_last().drop_first() =~= rest.drop_last());
            }
            if sizes.len() < chunks.len() {
                assert(chunks.drop_first()[rest.len() as int] == chunks[sizes.len() as int]);
            }
        }
    } else {
        lemma_total_front(sizes);
        assert(sizes.drop_first() =~= Seq::empty());
    }
}

/// Draws are used in their order, one for each chunk that is reached, and draws
/// beyond those make no difference: whatever begins with the sizes that a cut has
/// for its chunks gives that cut.
pub proof fn law_draws_are_used(
    chunks: Seq<(usize, usize, bool)>,
    payload: nat,
    draws: Seq<usize>,
    sizes: Seq<usize>,
)
    requires
        cuts(chunks, payload, sizes),
        draws.len() >= sizes.len() || draws.len() >= chunks.len(),
        forall|i: int|
            0 <= i < sizes.len() && i < chunks.len() ==> #[trigger] sizes[i] == draws[i],
    ensures
        cut_by(chunks, payload, draws) == Some(sizes),
    decreases chunks.len(),
{
    if chunks.len() == 0 {
        if payload > 0 {
            assert(seq![payload as usize] =~= sizes);
        } else {
            assert(sizes =~= Seq::empty());
        }
    } else {
        match size_range(chunks[0], payload) {
            None => {
                assert(sizes =~= Seq::empty());
            },
            Some(_) => {
                assert(sizes[0] == draws[0]);
                if payload == 0 {
                    assert(seq![draws[0]] =~= sizes);
                } else {
                    let rest = sizes.drop_first();
                    let later = draws.drop_first();
                    assert forall|i: int|
                        0 <= i < rest.len() && i < chunks.drop_first().len() implies #[trigger] rest[i]
                        == later[i] by {
                        assert(sizes[i + 1] == draws[i + 1]);
                    }
                    law_draws_are_used(
                        chunks.drop_first(),
                        (payload - sizes[0]) as nat,
                        later,
                        rest,
                    );
                    assert(seq![draws[0]] + rest =~= sizes);
                }
            },
        }
    }
}

/// Where draws give a cut, its sizes for the chunks are those draws.
pub proof fn law_sizes_are_draws(
    chunks: Seq<(usize, usize, bool)>,
    payload: nat,
    draws: Seq<usize>,
    i: int,
)
    ensures
        cut_by(chunks, payload, draws) matches Some(sizes) ==> (0 <= i < sizes.len() && i
            < chunks.len() ==> i < draws.len() && sizes[i] == draws[i]),
    decreases chunks.len(),
{
    if chunks.len() > 0 && payload > 0 && draws.len() > 0 && i > 0 {
        if let Some((low, high)) = size_range(chunks[0], payload) {
            if low <= draws[0] <= high {
                let next = (payload - draws[0]) as nat;
                law_sizes_are_draws(chunks.drop_first(), next, draws.drop_first(), i - 1);
            }
        }
    }
}

/// One part of a policy. Without a dash it says nothing; otherwise what stands on
/// the two sides of the first dash are its bounds, and a side that is no number is
/// an error, the lower one first. A part that is followed by a `c` may be left out.
pub proof fn law_policy_part(
    part: Seq<char>,
    low: Seq<char>,
    high: Seq<char>,
    mark: Option<Seq<char>>,
)
    requires
        forall|i: int| 0 <= i < part.len() ==> part[i] != ',',
        forall|i: int| 0 <= i < low.len() ==> low[i] != '-',
        mark matches Some(c) ==> (forall|i: int| 0 <= i < c.len() ==> c[i] != ',') && trim(c)
            == seq!['c'],
    ensures
        ({
            let text = match mark {
                Some(c) => part + seq![','] + c,
                None => part,
            };
            let read = policy_chunks(text);
            let min = parse_unsigned(trim(low), usize::MAX as nat);
            let max = parse_unsigned(trim(high), usize::MAX as nat);
            &&& (forall|i: int| 0 <= i < trim(part).len() ==> trim(part)[i] != '-') ==> (
            read matches Ok(chunks) && chunks.len() == 0)
            &&& trim(part) == low + seq!['-'] + high ==> match (min, max) {
                (None, _) => read == Err::<Seq<(usize, usize, bool)>, _>(PaddingError::InvalidMin),
                (Some(_), None) => read == Err::<Seq<(usize, usize, bool)>, _>(
                    PaddingError::InvalidMax,
                ),
                (Some(a), Some(b)) => read matches Ok(chunks) && chunks.len() == 1 && chunks[0].0
                    == a && chunks[0].1 == b && chunks[0].2 == (mark is Some),
            }
        }),
{
    reveal_with_fuel(chunks_of_parts, 3);
    law_cut_at_separator(low, '-', high);
    match mark {
        Some(c) => {
            law_cut_at_separator(part, ',', c);
            law_cut_at_separator(c, ',', Seq::empty());
            let parts = seq![part] + seq![c];
            assert(parts[0] == part && parts[1] == c);
            assert(parts.skip(2) =~= Seq::empty());
        },
        None => {
            law_cut_at_separator(part, ',', Seq::empty());
            assert(seq![part].skip(1) =~= Seq::empty());
        },
    }
    if forall|i: int| 0 <= i < trim(part).len() ==> trim(part)[i] != '-' {
        law_cut_at_separator(trim(part), '-', Seq::empty());
    }
}

/// A policy is read part by part: a part, with the `c` behind it if one is there,
/// then the rest, whose chunks follow; the first error counts.
pub proof fn law_policy_parts(
    part: Seq<char>,
    mark: Option<Seq<char>>,
    next: Seq<char>,
    more: Option<Seq<char>>,
)
    requires
        forall|i: int| 0 <= i < part.len() ==> part[i] != ',',
        forall|i: int| 0 <= i < next.len() ==> next[i] != ',',
        mark matches Some(c) ==> (forall|i: int| 0 <= i < c.len() ==> c[i] != ',') && trim(c)
            == seq!['c'],
        mark is None ==> trim(next) != seq!['c'],
    ensures
        ({
            let first = match mark {
                Some(c) => part + seq![','] + c,
                None => part,
            };
            let rest = match more {
                Some(text) => next + seq![','] + text,
                None => next,
            };
            policy_chunks(first + seq![','] + rest) == match (
                policy_chunks(first),
                policy_chunks(rest),
            ) {
                (Err(e), _) => Err(e),
                (Ok(_), Err(e)) => Err(e),
                (Ok(a), Ok(b)) => Ok(a + b),
            }
        }),
{
    reveal_with_fuel(chunks_of_parts, 3);
    let rest = match more {
        Some(text) => next + seq![','] + text,
        None => next,
    };
    match more {
        Some(text) => {
            law_cut_at_separator(next, ',', text);
        },
        None => {
            law_cut_at_separator(next, ',', Seq::empty());
        },
    }
    let tail = split(rest, ',');
    assert(tail[0] == next);
    let empty = Seq::<(usize, usize, bool)>::empty();
    if let Ok(b) = policy_chunks(rest) {
        assert(empty + b =~= b);
    }
    match mark {
        Some(c) => {
            law_cut_at_separator(part, ',', c);
            law_cut_at_separator(c, ',', rest);
            law_cut_at_separator(part, ',', c + seq![','] + rest);
            assert(part + seq![','] + c + seq![','] + rest =~= part + seq![','] + (c + seq![',']
                + rest));
            let all = seq![part] + (seq![c] + tail);
            assert(all[0] == part && all[1] == c);
            assert(all.skip(2) =~= tail);
            let own = seq![part] + seq![c];
            assert(own[0] == part && own[1] == c);
            assert(own.skip(2) =~= Seq::empty());
        },
        None => {
            law_cut_at_separator(part, ',', rest);
            let all = seq![part] + tail;
            assert(all[0] == part && all[1] == next);
            assert(all.skip(1) =~= tail);
            assert(seq![part].skip(1) =~= Seq::empty());
        },
    }
    if let Some(Ok((min, max))) = chunk_bounds(trim(part)) {
        let own = seq![(min, max, mark is Some)];
        assert(own + empty =~= own);
    }
}

/// A scheme grows by a line at a time. Behind a text that cannot be read nothing
/// can be. A line without `=` says nothing, and neither does one whose key is
/// neither `stop` nor a number up to 255. `stop` sets where the padding ends, to a
/// number up to 255 or not at all, and the number of a packet sets its chunks, as
/// far as these can be read; the rest stays. Before the first line the padding
/// ends at 0 and no packet has chunks. The hash is that of the whole text.
pub proof fn law_scheme_grows(
    above: Option<Seq<char>>,
    line: Seq<char>,
    key: Seq<char>,
    value: Seq<char>,
)
    requires
        forall|i: int| 0 <= i < line.len() ==> line[i] != '\n',
        forall|i: int| 0 <= i < key.len() ==> key[i] != '=',
    ensures
        ({
            let text = match above {
                Some(lines) => lines + seq!['\n'] + line,
                None => line,
            };
            let nothing = PaddingSchemeView {
                stop_at: 0,
                policies: Map::empty(),
                hash: Seq::empty(),
            };
            let before = match above {
                Some(lines) => scheme_of(lines),
                None => Ok(nothing),
            };
            let after = scheme_of(text);
            let blank = forall|i: int| 0 <= i < trim(line).len() ==> trim(line)[i] != '=';
            let entry = trim(line) == key + seq!['='] + value;
            let packet = parse_unsigned(trim(key), 255);
            let number = parse_unsigned(trim(value), 255);
            &&& after matches Ok(scheme) ==> scheme.hash == hex_lower(
                sha256_digest(vstd::utf8::encode_utf8(text)),
            )
            &&& before matches Err(e) ==> after == Err::<PaddingSchemeView, _>(e)
            &&& before matches Ok(old_scheme) ==> {
                &&& blank ==> (after matches Ok(new_scheme) && new_scheme.stop_at
                    == old_scheme.stop_at && new_scheme.policies == old_scheme.policies)
                &&& entry && trim(key) == "stop"@ ==> match number {
                    Some(n) => after matches Ok(new_scheme) && new_scheme.stop_at == n
                        && new_scheme.policies == old_scheme.policies,
                    None => after == Err::<PaddingSchemeView, _>(PaddingError::InvalidStop),
                }
                &&& entry && trim(key) != "stop"@ && packet is None ==> (after matches Ok(
                    new_scheme,
                ) && new_scheme.stop_at == old_scheme.stop_at && new_scheme.policies
                    == old_scheme.policies)
                &&& entry && trim(key) != "stop"@ ==> (packet matches Some(n) ==> match policy_chunks(
                    trim(value),
                ) {
                    Ok(chunks) => after matches Ok(new_scheme) && new_scheme.stop_at
                        == old_scheme.stop_at && new_scheme.policies
                        == old_scheme.policies.insert(n as u8, chunks),
                    Err(e) => after == Err::<PaddingSchemeView, _>(e),
                })
            }
        }),
{
    let no_policies = Map::<u8, Seq<(usize, usize, bool)>>::empty();
    law_cut_at_separator(key, '=', value);
    if forall|i: int| 0 <= i < trim(line).len() ==> trim(line)[i] != '=' {
        law_cut_at_separator(trim(line), '=', Seq::empty());
    }
    match above {
        Some(lines) => {
            lemma_split_last(lines, '\n', line);
            lemma_scheme_push(split(lines, '\n'), line, 0, no_policies);
        },
        None => {
            law_cut_at_separator(line, '\n', Seq::empty());
            lemma_scheme_push(Seq::empty(), line, 0, no_policies);
            assert(Seq::<Seq<char>>::empty().push(line) =~= seq![line]);
        },
    }
}

/// Behind a separator, a text without one is the last piece.
proof fn lemma_split_last(front: Seq<char>, sep: char, back: Seq<char>)
    requires
        forall|i: int| 0 <= i < back.len() ==> back[i] != sep,
    ensures
        split(front + seq![sep] + back, sep) == split(front, sep).push(back),
    decreases front.len(),
{
    front.index_of_first_ensures(sep);
    match front.index_of_first(sep) {
        Some(i) => {
            let first = front.take(i);
            let rest = front.skip(i + 1);
            assert(front =~= first + seq![sep] + rest);
            assert forall|j: int| 0 <= j < first.len() implies first[j] != sep by {
                assert(front[j] == first[j]);
            }
            law_cut_at_separator(first, sep, rest);
            law_cut_at_separator(first, sep, rest + seq![sep] + back);
            assert(front + seq![sep] + back =~= first + seq![sep] + (rest + seq![sep] + back));
            lemma_split_last(rest, sep, back);
            assert(seq![first] + split(rest, sep).push(back) =~= (seq![first] + split(
                rest,
                sep,
            )).push(back));
        },
        None => {
            law_cut_at_separator(front, sep, back);
            law_cut_at_separator(back, sep, Seq::empty());
            assert(seq![front] + seq![back] =~= seq![front].push(back));
        },
    }
}

/// One more line is read into what those before it gave.
proof fn lemma_scheme_push(
    lines: Seq<Seq<char>>,
    last: Seq<char>,
    stop_at: u8,
    policies: Map<u8, Seq<(usize, usize, bool)>>,
)
    ensures
        scheme_of_lines(lines.push(last), stop_at, policies) == match scheme_of_lines(
            lines,
            stop_at,
            policies,
        ) {
            Err(e) => Err(e),
            Ok((stop, found)) => match scheme_line(last) {
                SchemeLine::Ignored => Ok((stop, found)),
                SchemeLine::Stop(n) => Ok((n, found)),
                SchemeLine::Policy(n, chunks) => Ok((stop, found.insert(n, chunks))),
                SchemeLine::Invalid(e) => Err(e),
            },
        },
    decreases lines.len(),
{
    reveal_with_fuel(scheme_of_lines, 2);
    let all = lines.push(last);
    if lines.len() == 0 {
        assert(all[0] == last);
        assert(all.drop_first() =~= Seq::empty());
    } else {
        assert(all[0] == lines[0]);
        assert(all.drop_first() =~= lines.drop_first().push(last));
        match scheme_line(lines[0]) {
            SchemeLine::Ignored => {
                lemma_scheme_push(lines.drop_first(), last, stop_at, policies);
            },
            SchemeLine::Stop(n) => {
                lemma_scheme_push(lines.drop_first(), last, n, policies);
            },
            SchemeLine::Policy(n, chunks) => {
                lemma_scheme_push(
                    lines.drop_first(),
                    last,
                    stop_at,
                    policies.insert(n, chunks),
                );
            },
            SchemeLine::Invalid(_) => {},
        }
    }
}

/// A policy and a scheme are what their fields hold.
pub proof fn law_scheme_fields(scheme: PaddingScheme, policy: PaddingPolicy, packet: u8)
    ensures
        policy matches PaddingPolicy::Chunks(chunks) ==> policy.chunks() == chunks@,
        scheme@.stop_at == scheme.stop_at,
        scheme@.hash == scheme.hash@,
        scheme@.policies.dom().contains(packet) <==> scheme.policies@.dom().contains(packet),
        scheme.policies@.dom().contains(packet) ==> scheme@.policies[packet]
            == scheme.policies@[packet].chunks(),
        PaddingError::InvalidMin.text() == "invalid padding min"@,
        PaddingError::InvalidMax.text() == "invalid padding max"@,
        PaddingError::InvalidStop.text() == "invalid stop value"@,
{
}

} // verus!
