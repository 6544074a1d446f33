//! The match extractor: finds every non-overlapping, left-to-right
//! occurrence of a query inside a subject byte string and builds one
//! [`MatchRecord`] per occurrence, holding the matched bytes together with a
//! padded context window on either side.
//!
//! All positions are byte offsets into the original subject.  The search
//! keeps a cursor: after a match at position `x` the next search resumes at
//! `x + query.len()`, so occurrences never overlap.

use vstd::prelude::*;

verus! {

/// The bytes of the ellipsis marker (`...`) placed where context was cut off.
pub open spec fn ellipsis() -> Seq<u8> {
    seq![46u8, 46u8, 46u8]
}

/// The query `q` occurs in `s` at byte position `i`.
pub open spec fn is_match_at(s: Seq<u8>, q: Seq<u8>, i: int) -> bool {
    0 <= i && i + q.len() <= s.len() && s.subrange(i, i + q.len()) == q
}

/// The query occurs somewhere in `s` at or after position `from`.
pub open spec fn has_match_from(s: Seq<u8>, q: Seq<u8>, from: int) -> bool {
    exists|i: int| from <= i && is_match_at(s, q, i)
}

/// The query occurs somewhere in `s`.
pub open spec fn has_match(s: Seq<u8>, q: Seq<u8>) -> bool {
    has_match_from(s, q, 0)
}

/// The positions of the non-overlapping, left-to-right occurrences of `q`
/// in `s`, scanning from position `from`: the leftmost occurrence is taken,
/// and the scan resumes immediately after its end.
pub open spec fn match_positions_from(s: Seq<u8>, q: Seq<u8>, from: int) -> Seq<int>
    decreases s.len() + 1 - from,
{
    if q.len() <= 0 || from < 0 || from + q.len() > s.len() {
        Seq::empty()
    } else if is_match_at(s, q, from) {
        seq![from] + match_positions_from(s, q, from + q.len())
    } else {
        match_positions_from(s, q, from + 1)
    }
}

/// The positions of all non-overlapping, left-to-right occurrences of `q` in `s`.
pub open spec fn match_positions(s: Seq<u8>, q: Seq<u8>) -> Seq<int> {
    match_positions_from(s, q, 0)
}

/// The mathematical model of one match record.
pub ghost struct MatchModel {
    /// One-based display column just past the end of the match.
    pub offset: int,
    /// Context before the match, clamped and marked.
    pub prefix: Seq<u8>,
    /// The matched bytes themselves.
    pub core: Seq<u8>,
    /// Context after the match, clamped and marked.
    pub suffix: Seq<u8>,
}

/// The context before a match at `x`: at most `start_padding` bytes,
/// preceded by the ellipsis marker exactly when bytes were cut off.
pub open spec fn prefix_at(s: Seq<u8>, x: int, start_padding: int) -> Seq<u8> {
    if x - start_padding > 0 {
        ellipsis() + s.subrange(x - start_padding, x)
    } else {
        s.subrange(0, x)
    }
}

/// The context after a match ending at `end`: at most `end_padding` bytes,
/// followed by the ellipsis marker exactly when bytes were cut off.
pub open spec fn suffix_at(s: Seq<u8>, end: int, end_padding: int) -> Seq<u8> {
    if end + end_padding < s.len() {
        s.subrange(end, end + end_padding) + ellipsis()
    } else {
        s.subrange(end, s.len() as int)
    }
}

/// The record rendered for a match of `q` at position `x` of `s`.
pub open spec fn record_at(s: Seq<u8>, q: Seq<u8>, x: int, start_padding: int, end_padding: int) -> MatchModel {
    MatchModel {
        offset: x + q.len() + 1,
        prefix: prefix_at(s, x, start_padding),
        core: s.subrange(x, x + q.len()),
        suffix: suffix_at(s, x + q.len(), end_padding),
    }
}

/// The full output of the extractor as a function of its inputs.
pub open spec fn matches_model(s: Seq<u8>, q: Seq<u8>, start_padding: int, end_padding: int) -> Seq<MatchModel> {
    match_positions(s, q).map_values(|x: int| record_at(s, q, x, start_padding, end_padding))
}

/// One occurrence of the query within a subject, with its rendered context.
pub struct MatchRecord {
    /// One-based display column just past the end of the match.
    pub offset: usize,
    /// Context before the match, clamped to the start padding and preceded
    /// by `...` when clamping dropped bytes.
    pub prefix: Vec<u8>,
    /// The matched bytes (equal to the query).
    pub core: Vec<u8>,
    /// Context after the match, clamped to the end padding and followed by
    /// `...` when clamping dropped bytes.
    pub suffix: Vec<u8>,
}

impl View for MatchRecord {
    type V = MatchModel;

    open spec fn view(&self) -> MatchModel {
        MatchModel {
            offset: self.offset as int,
            prefix: self.prefix@,
            core: self.core@,
            suffix: self.suffix@,
        }
    }
}

/// The ANSI escape that starts match highlighting (bold cyan).
pub open spec fn color_on() -> Seq<u8> {
    seq![27u8, 91u8, 51u8, 54u8, 59u8, 49u8, 109u8]
}

/// The ANSI escape that ends match highlighting.
pub open spec fn color_off() -> Seq<u8> {
    seq![27u8, 91u8, 48u8, 109u8]
}

/// The display line for one record: its context around the matched bytes,
/// which are wrapped in highlighting escapes unless color is off.
pub open spec fn display_of(m: MatchModel, no_colors: bool) -> Seq<u8> {
    if no_colors {
        m.prefix + m.core + m.suffix
    } else {
        m.prefix + color_on() + m.core + color_off() + m.suffix
    }
}

/// Bytes of context kept before a match.
pub const START_PADDING: usize = 20;

/// Bytes of context kept after a match, beyond the query length.
pub const END_PADDING: usize = 35;

/// Whether `q` matches the bytes of `s` starting at position `x`.
fn matches_at(s: &Vec<u8>, q: &Vec<u8>, x: usize) -> (r: bool)
    requires
        x + q@.len() <= s@.len(),
    ensures
        r == is_match_at(s@, q@, x as int),
{
    let slen: usize = s.len();
    let mut j: usize = 0;
    while j < q.len()
        invariant
            slen == s@.len(),
            x + q@.len() <= s@.len(),
            j <= q@.len(),
            forall|k: int| 0 <= k < j ==> s@[x + k] == q@[k],
        decreases q@.len() - j,
    {
        if s[x + j] != q[j] {
            assert(!is_match_at(s@, q@, x as int)) by {
                assert(s@.subrange(x as int, x + q@.len())[j as int] == s@[x + j]);
            }
            return false;
        }
        j += 1;
    }
    assert(s@.subrange(x as int, x + q@.len()) =~= q@);
    true
}

/// The position of the leftmost occurrence of `q` in `s` at or after `from`,
/// or `None` when there is none.
pub fn find_from(s: &Vec<u8>, q: &Vec<u8>, from: usize) -> (r: Option<usize>)
    requires
        q@.len() > 0,
    ensures
        match r {
            Some(x) => from <= x && is_match_at(s@, q@, x as int)
                && (forall|i: int| from <= i < x ==> !is_match_at(s@, q@, i)),
            None => forall|i: int| from <= i ==> !is_match_at(s@, q@, i),
        },
{
    if s.len() < q.len() {
        return None;
    }
    let last: usize = s.len() - q.len();
    let mut x: usize = from;
    while x <= last
        invariant
            q@.len() > 0,
            q@.len() <= s@.len() <= usize::MAX,
            last == s@.len() - q@.len(),
            from <= x,
            forall|i: int| from <= i < x ==> !is_match_at(s@, q@, i),
        decreases last + 1 - x,
    {
        if matches_at(s, q, x) {
            return Some(x);
        }
        x += 1;
    }
    None
}

/// Whether `q` occurs anywhere in `s`.
pub fn contains_query(s: &Vec<u8>, q: &Vec<u8>) -> (r: bool)
    requires
        q@.len() > 0,
    ensures
        r == has_match(s@, q@),
{
    let r = find_from(s, q, 0);
    match r {
        Some(x) => {
            assert(has_match(s@, q@));
            true
        },
        None => {
            assert(!has_match(s@, q@));
            false
        },
    }
}

/// When no occurrence lies at or after `from`, the scan from `from` yields
/// no positions.
proof fn lemma_positions_end(s: Seq<u8>, q: Seq<u8>, from: int)
    requires
        0 <= from,
        0 < q.len(),
        forall|i: int| from <= i ==> !is_match_at(s, q, i),
    ensures
        match_positions_from(s, q, from) == Seq::<int>::empty(),
    decreases s.len() + 1 - from,
{
    if from + q.len() <= s.len() {
        lemma_positions_end(s, q, from + 1);
    }
}

/// When the leftmost occurrence at or after `from` lies at `x`, the scan
/// from `from` yields `x` followed by the scan from just after that match.
proof fn lemma_positions_step(s: Seq<u8>, q: Seq<u8>, from: int, x: int)
    requires
        0 <= from,
        0 < q.len(),
        from <= x,
        is_match_at(s, q, x),
        forall|i: int| from <= i < x ==> !is_match_at(s, q, i),
    ensures
        match_positions_from(s, q, from) == seq![x] + match_positions_from(s, q, x + q.len()),
    decreases x - from,
{
    if from < x {
        lemma_positions_step(s, q, from + 1, x);
    }
}

/// Each position of the scan from `from` is a real occurrence at or after
/// `from`; successive positions never overlap; and every occurrence at or
/// after `from` starts at, or strictly inside, some reported occurrence.
#[verifier::rlimit(60)]
proof fn lemma_positions_sound_complete(s: Seq<u8>, q: Seq<u8>, from: int)
    requires
        0 <= from,
        0 < q.len(),
    ensures
        forall|k: int| 0 <= k < match_positions_from(s, q, from).len()
            ==> from <= #[trigger] match_positions_from(s, q, from)[k]
                && is_match_at(s, q, match_positions_from(s, q, from)[k]),
        forall|k: int| 0 <= k && k + 1 < match_positions_from(s, q, from).len()
            ==> #[trigger] match_positions_from(s, q, from)[k] + q.len()
                <= match_positions_from(s, q, from)[k + 1],
        forall|i: int| from <= i && #[trigger] is_match_at(s, q, i)
            ==> exists|k: int| 0 <= k < match_positions_from(s, q, from).len()
                && #[trigger] match_positions_from(s, q, from)[k] <= i
                    < match_positions_from(s, q, from)[k] + q.len(),
    decreases s.len() + 1 - from,
{
    let ps = match_positions_from(s, q, from);
    if from + q.len() > s.len() {
        // `ps` is empty, and there is no room for an occurrence at or after `from`.
    } else if is_match_at(s, q, from) {
        lemma_positions_sound_complete(s, q, from + q.len());
        let rest = match_positions_from(s, q, from + q.len());
        assert(ps == seq![from] + rest);
        assert forall|k: int| 0 <= k < ps.len() implies
            from <= ps[k] && is_match_at(s, q, ps[k]) by {
            if k > 0 {
                assert((seq![from] + rest)[k] == rest[k - 1]);
            }
        }
        assert forall|k: int| 0 <= k && k + 1 < ps.len() implies
            #[trigger] ps[k] + q.len() <= ps[k + 1] by {
            assert((seq![from] + rest)[k + 1] == rest[k]);
            if k > 0 {
                assert((seq![from] + rest)[k] == rest[k - 1]);
            }
        }
        assert forall|i: int| from <= i && is_match_at(s, q, i) implies
            exists|k: int| 0 <= k < ps.len() && #[trigger] ps[k] <= i < ps[k] + q.len() by {
            if i < from + q.len() {
                assert((seq![from] + rest)[0] == from);
                assert(0 <= 0 < ps.len() && ps[0] <= i < ps[0] + q.len());
            } else {
                let k0 = choose|k: int| 0 <= k < rest.len() && #[trigger] rest[k] <= i < rest[k] + q.len();
                assert((seq![from] + rest)[k0 + 1] == rest[k0]);
                assert(0 <= k0 + 1 < ps.len() && ps[k0 + 1] <= i < ps[k0 + 1] + q.len());
            }
        }
    } else {
        lemma_positions_sound_complete(s, q, from + 1);
        assert forall|i: int| from <= i && is_match_at(s, q, i) implies
            exists|k: int| 0 <= k < ps.len() && #[trigger] ps[k] <= i < ps[k] + q.len() by {
            assert(from + 1 <= i);
        }
    }
}

/// Law: on a subject where the query occurs `k` times non-overlapping, the
/// extractor reports exactly those `k` occurrences, left to right.  Every
/// reported position is a real occurrence; successive occurrences never
/// overlap, so positions and rendered display offsets strictly increase; and
/// every occurrence of the query starts at, or strictly inside, a reported
/// one, so none is skipped.
pub proof fn lemma_matches_ordered(s: Seq<u8>, q: Seq<u8>, start_padding: int, end_padding: int)
    requires
        0 < q.len(),
    ensures
        forall|k: int| 0 <= k < match_positions(s, q).len()
            ==> 0 <= #[trigger] match_positions(s, q)[k]
                && is_match_at(s, q, match_positions(s, q)[k]),
        forall|k: int| 0 <= k && k + 1 < match_positions(s, q).len()
            ==> #[trigger] match_positions(s, q)[k] + q.len() <= match_positions(s, q)[k + 1],
        forall|i: int| #[trigger] is_match_at(s, q, i)
            ==> exists|k: int| 0 <= k < match_positions(s, q).len()
                && #[trigger] match_positions(s, q)[k] <= i < match_positions(s, q)[k] + q.len(),
        matches_model(s, q, start_padding, end_padding).len() == match_positions(s, q).len(),
        forall|k: int| 0 <= k && k + 1 < matches_model(s, q, start_padding, end_padding).len()
            ==> #[trigger] matches_model(s, q, start_padding, end_padding)[k].offset
                < matches_model(s, q, start_padding, end_padding)[k + 1].offset,
{
    lemma_positions_sound_complete(s, q, 0);
    let ps = match_positions(s, q);
    let model = matches_model(s, q, start_padding, end_padding);
    assert(model == ps.map_values(|x: int| record_at(s, q, x, start_padding, end_padding)));
    assert(model.len() == ps.len());
    assert forall|k: int| 0 <= k && k + 1 < model.len() implies
        (#[trigger] model[k]).offset < model[k + 1].offset by {
        assert(model[k] == record_at(s, q, ps[k], start_padding, end_padding));
        assert(model[k + 1] == record_at(s, q, ps[k + 1], start_padding, end_padding));
        assert(ps[k] + q.len() <= ps[k + 1]);
    }
}

/// Law: the extractor yields no records exactly when the query does not
/// occur in the subject; in particular a query longer than the subject
/// yields none.
pub proof fn lemma_no_matches_iff(s: Seq<u8>, q: Seq<u8>)
    requires
        0 < q.len(),
    ensures
        match_positions(s, q).len() == 0 <==> !has_match(s, q),
        q.len() > s.len() ==> match_positions(s, q).len() == 0,
{
    lemma_positions_sound_complete(s, q, 0);
    if !has_match(s, q) {
        lemma_positions_end(s, q, 0);
    }
    if match_positions(s, q).len() == 0 && has_match(s, q) {
        let i = choose|i: int| 0 <= i && is_match_at(s, q, i);
        assert(is_match_at(s, q, i));
    }
    if q.len() > s.len() {
        assert(forall|i: int| 0 <= i ==> !is_match_at(s, q, i));
        lemma_positions_end(s, q, 0);
    }
}

/// Law: the matched bytes of a record are exactly the query.
pub proof fn lemma_core_is_query(s: Seq<u8>, q: Seq<u8>, x: int, start_padding: int, end_padding: int)
    requires
        is_match_at(s, q, x),
    ensures
        record_at(s, q, x, start_padding, end_padding).core == q,
{
}

/// The scan from `from` yields at most one occurrence per `q.len()` bytes
/// left of the subject.
proof fn lemma_count_bound_from(s: Seq<u8>, q: Seq<u8>, from: int)
    requires
        0 <= from,
        0 < q.len(),
    ensures
        match_positions_from(s, q, from).len() > 0
            ==> from + match_positions_from(s, q, from).len() * q.len() <= s.len(),
    decreases s.len() + 1 - from,
{
    let ps = match_positions_from(s, q, from);
    if from + q.len() > s.len() {
        // `ps` is empty.
    } else if is_match_at(s, q, from) {
        lemma_count_bound_from(s, q, from + q.len());
        let rest = match_positions_from(s, q, from + q.len());
        assert(ps == seq![from] + rest);
        assert(ps.len() == 1 + rest.len());
        assert((1 + rest.len()) * q.len() == q.len() + rest.len() * q.len())
            by (nonlinear_arith);
    } else {
        lemma_count_bound_from(s, q, from + 1);
    }
}

/// Law: the extractor yields a finite sequence of at most
/// `s.len() / q.len()` records.
pub proof fn lemma_match_count_bound(s: Seq<u8>, q: Seq<u8>)
    requires
        0 < q.len(),
    ensures
        match_positions(s, q).len() * q.len() <= s.len(),
{
    lemma_count_bound_from(s, q, 0);
    if match_positions(s, q).len() == 0 {
        assert(match_positions(s, q).len() * q.len() == 0) by (nonlinear_arith)
            requires match_positions(s, q).len() == 0,
        ;
    }
}

/// Law: the context before a match is truncated exactly when the match lies
/// more than `start_padding` bytes into the subject.  A truncated prefix is
/// the ellipsis marker followed by exactly the `start_padding` bytes before
/// the match; an untruncated one is everything before the match, with no
/// marker added.
pub proof fn lemma_prefix_truncation(s: Seq<u8>, q: Seq<u8>, x: int, start_padding: int, end_padding: int)
    requires
        is_match_at(s, q, x),
        0 <= start_padding,
    ensures
        x > start_padding ==> record_at(s, q, x, start_padding, end_padding).prefix
            == ellipsis() + s.subrange(x - start_padding, x),
        x > start_padding ==> record_at(s, q, x, start_padding, end_padding).prefix.len()
            == start_padding + 3,
        x > start_padding ==> record_at(s, q, x, start_padding, end_padding).prefix.subrange(0, 3)
            == ellipsis(),
        x <= start_padding ==> record_at(s, q, x, start_padding, end_padding).prefix
            == s.subrange(0, x),
        x <= start_padding ==> record_at(s, q, x, start_padding, end_padding).prefix.len() == x,
{
    let p = record_at(s, q, x, start_padding, end_padding).prefix;
    if x > start_padding {
        assert(p.subrange(0, 3) =~= ellipsis());
    }
}

/// Law: the context after a match is truncated exactly when more than
/// `end_padding` bytes of the subject remain past the match end.  A
/// truncated suffix is exactly the `end_padding` bytes after the match
/// followed by the ellipsis marker; an untruncated one is everything after
/// the match, with no marker added.
pub proof fn lemma_suffix_truncation(s: Seq<u8>, q: Seq<u8>, x: int, start_padding: int, end_padding: int)
    requires
        is_match_at(s, q, x),
        0 <= end_padding,
    ensures
        s.len() - (x + q.len()) > end_padding
            ==> record_at(s, q, x, start_padding, end_padding).suffix
                == s.subrange(x + q.len(), x + q.len() + end_padding) + ellipsis(),
        s.len() - (x + q.len()) > end_padding
            ==> record_at(s, q, x, start_padding, end_padding).suffix.len() == end_padding + 3,
        s.len() - (x + q.len()) > end_padding
            ==> record_at(s, q, x, start_padding, end_padding).suffix.subrange(
                end_padding, end_padding + 3) == ellipsis(),
        s.len() - (x + q.len()) <= end_padding
            ==> record_at(s, q, x, start_padding, end_padding).suffix
                == s.subrange(x + q.len(), s.len() as int),
        s.len() - (x + q.len()) <= end_padding
            ==> record_at(s, q, x, start_padding, end_padding).suffix.len()
                == s.len() - (x + q.len()),
{
    let u = record_at(s, q, x, start_padding, end_padding).suffix;
    if s.len() - (x + q.len()) > end_padding {
        assert(u.subrange(end_padding, end_padding + 3) =~= ellipsis());
    }
}

/// Builds the record for a match of `q` at position `x` of `s`.
fn make_record(s: &Vec<u8>, q: &Vec<u8>, x: usize, start_padding: usize, end_padding: usize) -> (r: MatchRecord)
    requires
        is_match_at(s@, q@, x as int),
        q@.len() > 0,
        s@.len() < usize::MAX,
    ensures
        r@ == record_at(s@, q@, x as int, start_padding as int, end_padding as int),
{
    let end: usize = x + q.len();
    let prefix_start: usize = if x > start_padding { x - start_padding } else { 0 };
    let mut prefix: Vec<u8> = Vec::new();
    if x > start_padding {
        prefix.push(46u8);
        prefix.push(46u8);
        prefix.push(46u8);
    }
    let mut before = vstd::slice::slice_to_vec(vstd::slice::slice_subrange(s.as_slice(), prefix_start, x));
    prefix.append(&mut before);
    let core = vstd::slice::slice_to_vec(vstd::slice::slice_subrange(s.as_slice(), x, end));
    let suffix_end: usize = if s.len() - end > end_padding { end + end_padding } else { s.len() };
    let mut suffix = vstd::slice::slice_to_vec(vstd::slice::slice_subrange(s.as_slice(), end, suffix_end));
    if suffix_end < s.len() {
        suffix.push(46u8);
        suffix.push(46u8);
        suffix.push(46u8);
    }
    proof {
        assert(prefix@ =~= prefix_at(s@, x as int, start_padding as int));
        assert(core@ =~= s@.subrange(x as int, end as int));
        assert(suffix@ =~= suffix_at(s@, end as int, end_padding as int));
    }
    MatchRecord { offset: end + 1, prefix, core, suffix }
}

/// Finds every non-overlapping, left-to-right occurrence of `q` in `s` and
/// returns one rendered record per occurrence: the matched bytes, a context
/// window of at most `start_padding` bytes before and `end_padding` bytes
/// after (each side marked with `...` when bytes were cut off), and the
/// one-based display column just past the match.
pub fn find_matches(s: &Vec<u8>, q: &Vec<u8>, start_padding: usize, end_padding: usize) -> (r: Vec<MatchRecord>)
    requires
        q@.len() > 0,
        s@.len() < usize::MAX,
    ensures
        r@.map_values(|m: MatchRecord| m@)
            == matches_model(s@, q@, start_padding as int, end_padding as int),
        r@.len() == match_positions(s@, q@).len(),
        forall|k: int| 0 <= k < r@.len()
            ==> #[trigger] r@[k]@ == record_at(
                s@, q@, match_positions(s@, q@)[k], start_padding as int, end_padding as int),
{
    let ghost total: Seq<int> = match_positions(s@, q@);
    let mut out: Vec<MatchRecord> = Vec::new();
    let mut cursor: usize = 0;
    loop
        invariant
            q@.len() > 0,
            s@.len() < usize::MAX,
            cursor <= s@.len(),
            total == match_positions(s@, q@),
            out@.len() <= total.len(),
            match_positions_from(s@, q@, cursor as int)
                == total.subrange(out@.len() as int, total.len() as int),
            forall|k: int| 0 <= k < out@.len()
                ==> #[trigger] out@[k]@ == record_at(
                    s@, q@, total[k], start_padding as int, end_padding as int),
        ensures
            out@.len() == total.len(),
            forall|k: int| 0 <= k < out@.len()
                ==> #[trigger] out@[k]@ == record_at(
                    s@, q@, total[k], start_padding as int, end_padding as int),
        decreases s@.len() - cursor,
    {
        match find_from(s, q, cursor) {
            None => {
                proof {
                    lemma_positions_end(s@, q@, cursor as int);
                    assert(total.subrange(out@.len() as int, total.len() as int).len() == 0);
                }
                break;
            },
            Some(x) => {
                proof {
                    lemma_positions_step(s@, q@, cursor as int, x as int);
                    let rest = match_positions_from(s@, q@, x + q@.len());
                    assert(total.subrange(out@.len() as int, total.len() as int)
                        == seq![x as int] + rest);
                    assert(total.len() - out@.len() == 1 + rest.len());
                    assert(total.subrange(out@.len() as int, total.len() as int)[0] == x as int);
                    assert(total[out@.len() as int] == x as int);
                    assert forall|i: int| 0 <= i < rest.len() implies
                        total.subrange(out@.len() as int + 1, total.len() as int)[i] == rest[i] by {
                        assert(total.subrange(out@.len() as int, total.len() as int)[i + 1]
                            == rest[i]);
                    };
                    assert(total.subrange(out@.len() as int + 1, total.len() as int) =~= rest);
                }
                let rec = make_record(s, q, x, start_padding, end_padding);
                out.push(rec);
                cursor = x + q.len();
            },
        }
    }
    proof {
        assert(out@.map_values(|m: MatchRecord| m@)
            =~= matches_model(s@, q@, start_padding as int, end_padding as int));
    }
    out
}

/// [`find_matches`] with the tool's standard padding: twenty bytes of
/// context before a match, and thirty-five bytes plus the query length
/// after it.
pub fn find_matches_standard(s: &Vec<u8>, q: &Vec<u8>) -> (r: Vec<MatchRecord>)
    requires
        q@.len() > 0,
        s@.len() < usize::MAX,
        q@.len() + END_PADDING <= usize::MAX,
    ensures
        r@.map_values(|m: MatchRecord| m@)
            == matches_model(s@, q@, START_PADDING as int, q@.len() + END_PADDING as int),
{
    find_matches(s, q, START_PADDING, q.len() + END_PADDING)
}

/// Appends the bytes of `more` to `dst`.
fn append_bytes(dst: &mut Vec<u8>, more: &Vec<u8>)
    ensures
        final(dst)@ == old(dst)@ + more@,
{
    dst.extend_from_slice(more.as_slice());
    proof {
        assert(dst@ =~= old(dst)@ + more@);
    }
}

/// Builds the display line for one record: context around the matched
/// bytes, which are wrapped in highlighting escapes unless color is off.
pub fn render_display(record: &MatchRecord, no_colors: bool) -> (r: Vec<u8>)
    ensures
        r@ == display_of(record@, no_colors),
{
    let mut out: Vec<u8> = Vec::new();
    append_bytes(&mut out, &record.prefix);
    if !no_colors {
        out.push(27);
        out.push(91);
        out.push(51);
        out.push(54);
        out.push(59);
        out.push(49);
        out.push(109);
    }
    append_bytes(&mut out, &record.core);
    if !no_colors {
        out.push(27);
        out.push(91);
        out.push(48);
        out.push(109);
    }
    append_bytes(&mut out, &record.suffix);
    proof {
        assert(out@ =~= display_of(record@, no_colors));
    }
    out
}

} // verus!
