use std::ops::RangeInclusive;
use vstd::prelude::*;
use vstd::std_specs::range::RangeInclusiveView;

verus! {

/// The abstract value of an inclusive range of code points.
pub type CodeRange = RangeInclusiveView<u32>;

/// `RangeInclusive::start`: the lower bound the range was built with.
pub assume_specification<Idx>[ RangeInclusive::<Idx>::start ](r: &RangeInclusive<Idx>) -> (res: &Idx)
    ensures
        *res == r@.start,
;

/// `RangeInclusive::end`: the upper bound the range was built with.
pub assume_specification<Idx>[ RangeInclusive::<Idx>::end ](r: &RangeInclusive<Idx>) -> (res: &Idx)
    ensures
        *res == r@.end,
;

/// `Clone` for `RangeInclusive<u32>`: the derived impl copies the bounds and
/// the exhaustion flag, so the copy has the same abstract value.
#[verifier::external_body]
fn clone_range(r: &RangeInclusive<u32>) -> (res: RangeInclusive<u32>)
    ensures
        res@ == r@,
{
    r.clone()
}

/// `RangeInclusive::is_empty` on `u32` bounds: the range yields nothing when
/// it is exhausted or its start lies above its end.
#[verifier::external_body]
fn range_is_empty(r: &RangeInclusive<u32>) -> (res: bool)
    ensures
        res == (r@.exhausted || r@.start > r@.end),
{
    r.is_empty()
}

/// Whether a code point is a Unicode scalar value, i.e. a valid `char`.
pub open spec fn is_scalar_value(k: int) -> bool {
    (0 <= k < 0xD800) || (0xE000 <= k <= 0x10FFFF)
}

/// `char::from_u32`: the character with code point `k`, or `None` for
/// surrogates and values above 0x10FFFF.
#[verifier::external_body]
fn char_from_u32(k: u32) -> (res: Option<char>)
    ensures
        res == (if is_scalar_value(k as int) {
            Some(k as char)
        } else {
            None
        }),
{
    char::from_u32(k)
}

// ---------------------------------------------------------------------------
// Sorting by start (stable)
// ---------------------------------------------------------------------------

/// The abstract values of a sequence of ranges.
pub open spec fn range_views(s: Seq<RangeInclusive<u32>>) -> Seq<CodeRange> {
    s.map_values(|r: RangeInclusive<u32>| r@)
}

/// Where a range with start `key` is inserted into `s` so that it follows
/// every trailing element whose start is not above `key`.
pub open spec fn insert_pos(s: Seq<CodeRange>, key: u32) -> nat
    decreases s.len(),
{
    if s.len() == 0 {
        0
    } else if s.last().start <= key {
        s.len()
    } else {
        insert_pos(s.drop_last(), key)
    }
}

/// Stable sort of ranges by their start.
pub open spec fn sorted_by_start(s: Seq<CodeRange>) -> Seq<CodeRange>
    decreases s.len(),
{
    if s.len() == 0 {
        Seq::empty()
    } else {
        let t = sorted_by_start(s.drop_last());
        t.insert(insert_pos(t, s.last().start) as int, s.last())
    }
}

/// The range that merging `r` into `prev` produces.
pub open spec fn joined(prev: CodeRange, r: CodeRange) -> CodeRange {
    RangeInclusiveView {
        start: prev.start,
        end: if prev.end >= r.end { prev.end } else { r.end },
        exhausted: false,
    }
}

/// Left-to-right merge of start-sorted ranges: `acc` holds the finished
/// ranges, `prev` the one being grown, `rest` what is left to visit. A range
/// whose start is at most one past the end of `prev` is merged into it.
pub open spec fn merge_from(acc: Seq<CodeRange>, prev: CodeRange, rest: Seq<CodeRange>) -> Seq<
    CodeRange,
>
    decreases rest.len(),
{
    if rest.len() == 0 {
        acc.push(prev)
    } else if rest[0].start <= prev.end + 1 {
        merge_from(acc, joined(prev, rest[0]), rest.drop_first())
    } else {
        merge_from(acc.push(prev), rest[0], rest.drop_first())
    }
}

/// The ranges that `optimize_ranges` returns for `src`.
pub open spec fn optimized(src: Seq<CodeRange>) -> Seq<CodeRange> {
    let s = sorted_by_start(src);
    merge_from(Seq::empty(), s[0], s.drop_first())
}

/// The merge never has to look one past `u32::MAX`: every range except the
/// last one in start order ends below `u32::MAX`.
pub open spec fn merge_fits(src: Seq<CodeRange>) -> bool {
    let s = sorted_by_start(src);
    forall|j: int| 0 <= j < s.len() - 1 ==> #[trigger] s[j].end < u32::MAX
}

proof fn lemma_sorted_len(s: Seq<CodeRange>)
    ensures
        sorted_by_start(s).len() == s.len(),
    decreases s.len(),
{
    if s.len() > 0 {
        lemma_sorted_len(s.drop_last());
        lemma_insert_pos_bound(sorted_by_start(s.drop_last()), s.last().start);
    }
}

proof fn lemma_insert_pos_bound(s: Seq<CodeRange>, key: u32)
    ensures
        insert_pos(s, key) <= s.len(),
        forall|j: int| insert_pos(s, key) <= j < s.len() ==> #[trigger] s[j].start > key,
    decreases s.len(),
{
    if s.len() > 0 && s.last().start > key {
        lemma_insert_pos_bound(s.drop_last(), key);
        assert forall|j: int| insert_pos(s, key) <= j < s.len() implies #[trigger] s[j].start
            > key by {
            if j < s.len() - 1 {
                assert(s.drop_last()[j] == s[j]);
            }
        }
    }
}

/// Sorts `source` by start, keeping the input order among equal starts.
fn sort_by_start(source: &Vec<RangeInclusive<u32>>) -> (sorted: Vec<RangeInclusive<u32>>)
    ensures
        range_views(sorted@) == sorted_by_start(range_views(source@)),
{
    let mut sorted: Vec<RangeInclusive<u32>> = Vec::with_capacity(source.len());
    let n = source.len();
    let mut i: usize = 0;
    while i < n
        invariant
            n == source.len(),
            i <= n,
            range_views(sorted@) == sorted_by_start(range_views(source@).take(i as int)),
        decreases n - i,
    {
        let ghost src = range_views(source@);
        let ghost before = range_views(sorted@);
        let key = *source[i].start();
        let mut j: usize = sorted.len();
        proof {
            assert(before.take(j as int) =~= before);
            assert(src.take(i as int + 1).drop_last() =~= src.take(i as int));
            lemma_sorted_len(src.take(i as int));
        }
        while j > 0 && *sorted[j - 1].start() > key
            invariant
                j <= sorted.len(),
                range_views(sorted@) == before,
                insert_pos(before, key) == insert_pos(before.take(j as int), key),
            decreases j,
        {
            proof {
                assert(before.take(j as int).drop_last() =~= before.take(j as int - 1));
            }
            j = j - 1;
        }
        proof {
            if j > 0 {
                assert(before.take(j as int).last() == before[j - 1]);
            }
            assert(insert_pos(before.take(j as int), key) == j);
        }
        let item = clone_range(&source[i]);
        sorted.insert(j, item);
        proof {
            assert(range_views(sorted@) =~= before.insert(j as int, src[i as int]));
        }
        i = i + 1;
    }
    proof {
        assert(range_views(source@).take(n as int) =~= range_views(source@));
    }
    sorted
}

// ---------------------------------------------------------------------------
// optimize_ranges
// ---------------------------------------------------------------------------

/// Whether merging `source` stays within `u32`: every range but the last in
/// start order ends below `u32::MAX`. `optimize_ranges` needs this.
pub fn ranges_can_merge(source: &Vec<RangeInclusive<u32>>) -> (r: bool)
    ensures
        r == merge_fits(range_views(source@)),
{
    let sorted = sort_by_start(source);
    let ghost s = range_views(sorted@);
    let n = sorted.len();
    let mut j: usize = 0;
    while j < n
        invariant
            n == sorted.len(),
            s == range_views(sorted@),
            s == sorted_by_start(range_views(source@)),
            j <= n,
            forall|k: int| 0 <= k < j && k < n - 1 ==> #[trigger] s[k].end < u32::MAX,
        decreases n - j,
    {
        proof {
            assert(s[j as int] == sorted@[j as int]@);
        }
        if j + 1 < n && *sorted[j].end() == u32::MAX {
            return false;
        }
        j = j + 1;
    }
    true
}

/// Sorts the ranges by start and merges every range that overlaps or touches
/// the one before it, so that the result covers the same code points with
/// fewer, separated ranges.
pub fn optimize_ranges(source: &Vec<RangeInclusive<u32>>) -> (result: Vec<RangeInclusive<u32>>)
    requires
        source.len() > 0,
        merge_fits(range_views(source@)),
    ensures
        range_views(result@) == optimized(range_views(source@)),
        1 <= result@.len() <= source@.len(),
{
    proof {
        lemma_optimized_len(range_views(source@));
    }
    let sorted = sort_by_start(source);
    let ghost s = range_views(sorted@);
    proof {
        lemma_sorted_len(range_views(source@));
    }
    let mut previous = clone_range(&sorted[0]);
    let mut result: Vec<RangeInclusive<u32>> = Vec::with_capacity(source.len());
    let n = sorted.len();
    let mut i: usize = 1;
    proof {
        assert(s[0].end == previous@.end);
        assert(s.subrange(1, n as int) =~= s.drop_first());
        assert(range_views(result@) =~= Seq::<CodeRange>::empty());
    }
    while i < n
        invariant
            n == sorted.len(),
            s == range_views(sorted@),
            n >= 1,
            1 <= i <= n,
            forall|j: int| 0 <= j < n - 1 ==> #[trigger] s[j].end < u32::MAX,
            exists|j: int| 0 <= j < i && s[j].end == previous@.end,
            merge_from(range_views(result@), previous@, s.subrange(i as int, n as int)) == merge_from(
                Seq::empty(),
                s[0],
                s.drop_first(),
            ),
        decreases n - i,
    {
        let range = clone_range(&sorted[i]);
        let pe = *previous.end();
        proof {
            let j = choose|j: int| 0 <= j < i && s[j].end == previous@.end;
            assert(s[j].end < u32::MAX);
            assert(s.subrange(i as int, n as int)[0] == s[i as int]);
            assert(s.subrange(i as int, n as int).drop_first() =~= s.subrange(
                i as int + 1,
                n as int,
            ));
        }
        let ghost rv = range_views(result@);
        let ghost pv = previous@;
        if *range.start() <= pe + 1 {
            let re = *range.end();
            let end = if pe >= re {
                pe
            } else {
                re
            };
            let start = *previous.start();
            previous = RangeInclusive::new(start, end);
            proof {
                assert(previous@ == joined(pv, s[i as int]));
                if pe < re {
                    assert(s[i as int].end == previous@.end);
                }
            }
        } else {
            result.push(previous);
            proof {
                assert(range_views(result@) =~= rv.push(pv));
            }
            previous = range;
            proof {
                assert(s[i as int].end == previous@.end);
            }
        }
        i = i + 1;
    }
    proof {
        assert(s.subrange(n as int, n as int) =~= Seq::<CodeRange>::empty());
    }
    let ghost rv = range_views(result@);
    let ghost pv = previous@;
    result.push(previous);
    proof {
        assert(range_views(result@) =~= rv.push(pv));
    }
    result
}

// ---------------------------------------------------------------------------
// to_char_set
// ---------------------------------------------------------------------------

/// The characters with code points `start..=end`, in order, skipping values
/// that are not Unicode scalar values.
pub open spec fn code_chars(start: int, end: int) -> Seq<char>
    decreases end - start + 1,
{
    if end < start {
        Seq::empty()
    } else {
        code_chars(start, end - 1) + if is_scalar_value(end) {
            seq![end as char]
        } else {
            Seq::empty()
        }
    }
}

/// The characters that iterating a range yields and that are valid `char`s.
pub open spec fn range_chars(r: CodeRange) -> Seq<char> {
    if r.exhausted {
        Seq::empty()
    } else {
        code_chars(r.start as int, r.end as int)
    }
}

/// The characters of all ranges, range after range.
pub open spec fn char_set(s: Seq<CodeRange>) -> Seq<char>
    decreases s.len(),
{
    if s.len() == 0 {
        Seq::empty()
    } else {
        char_set(s.drop_last()) + range_chars(s.last())
    }
}

/// How many code points the non-empty ranges of `s` hold together.
pub open spec fn code_point_count(s: Seq<CodeRange>) -> int
    decreases s.len(),
{
    if s.len() == 0 {
        0
    } else {
        code_point_count(s.drop_last()) + range_size(s.last())
    }
}

/// How many code points a range holds; none when it is empty.
pub open spec fn range_size(r: CodeRange) -> int {
    if r.exhausted || r.start > r.end {
        0
    } else {
        r.end - r.start + 1
    }
}

proof fn lemma_count_prefix(s: Seq<CodeRange>, i: int)
    requires
        0 <= i <= s.len(),
    ensures
        0 <= code_point_count(s.take(i)) <= code_point_count(s),
    decreases s.len(),
{
    if s.len() > 0 {
        if i == s.len() {
            assert(s.take(i) =~= s);
            lemma_count_prefix(s.drop_last(), i - 1);
            assert(s.drop_last().take(i - 1) =~= s.drop_last());
        } else {
            lemma_count_prefix(s.drop_last(), i);
            assert(s.drop_last().take(i) =~= s.take(i));
        }
    }
}

/// `total` plus the code points of `range`, in 64 bits.
fn count_step(total: u64, range: &RangeInclusive<u32>) -> (r: u64)
    requires
        total <= u32::MAX,
    ensures
        r == total + range_size(range@),
{
    if range_is_empty(range) {
        total
    } else {
        total + (*range.end() - *range.start()) as u64 + 1
    }
}

/// Whether the code points of all non-empty ranges of `source` number at
/// most `u32::MAX`, which `to_char_set` counts in 32 bits.
pub fn char_set_fits(source: &Vec<RangeInclusive<u32>>) -> (r: bool)
    ensures
        r == (code_point_count(range_views(source@)) <= u32::MAX),
{
    let n = source.len();
    let mut total: u64 = 0;
    let mut i: usize = 0;
    while i < n
        invariant
            n == source.len(),
            i <= n,
            total == code_point_count(range_views(source@).take(i as int)),
            total <= u32::MAX,
        decreases n - i,
    {
        proof {
            assert(range_views(source@).take(i as int + 1).drop_last() =~= range_views(
                source@,
            ).take(i as int));
            assert(range_views(source@)[i as int] == source@[i as int]@);
        }
        total = count_step(total, &source[i]);
        if total > 0xFFFF_FFFF {
            proof {
                lemma_count_prefix(range_views(source@), i as int + 1);
            }
            return false;
        }
        i = i + 1;
    }
    proof {
        assert(range_views(source@).take(n as int) =~= range_views(source@));
    }
    true
}

/// Lists the characters of every range, in range order and ascending within
/// each range; code points that are not valid characters are skipped. The
/// code points are first counted in 32 bits to reserve room for them, so
/// their number must fit there.
pub fn to_char_set(source: &Vec<RangeInclusive<u32>>) -> (result: Vec<char>)
    requires
        code_point_count(range_views(source@)) <= u32::MAX,
    ensures
        result@ == char_set(range_views(source@)),
{
    let n = source.len();
    let mut required_size: u32 = 0;
    let mut j: usize = 0;
    while j < n
        invariant
            n == source.len(),
            j <= n,
            required_size == code_point_count(range_views(source@).take(j as int)),
            code_point_count(range_views(source@)) <= u32::MAX,
        decreases n - j,
    {
        proof {
            assert(range_views(source@).take(j as int + 1).drop_last() =~= range_views(
                source@,
            ).take(j as int));
            assert(range_views(source@)[j as int] == source@[j as int]@);
            lemma_count_prefix(range_views(source@), j as int + 1);
        }
        let range = &source[j];
        if !range_is_empty(range) {
            required_size = required_size + (*range.end() - *range.start()) + 1;
        }
        j = j + 1;
    }
    let mut result: Vec<char> = Vec::with_capacity(required_size as usize);
    let mut i: usize = 0;
    while i < n
        invariant
            n == source.len(),
            i <= n,
            result@ == char_set(range_views(source@).take(i as int)),
        decreases n - i,
    {
        let ghost before = result@;
        let range = &source[i];
        proof {
            assert(range_views(source@).take(i as int + 1).drop_last() =~= range_views(
                source@,
            ).take(i as int));
        }
        if !range_is_empty(range) {
            let start = *range.start();
            let end = *range.end();
            let mut k = start;
            loop
                invariant_except_break
                    result@ == before + code_chars(start as int, k as int - 1),
                invariant
                    start <= k <= end,
                    !range@.exhausted,
                    range@.start == start,
                    range@.end == end,
                ensures
                    result@ == before + code_chars(start as int, end as int),
                decreases end - k,
            {
                if let Some(ch) = char_from_u32(k) {
                    result.push(ch);
                    proof {
                        assert(ch == k as char);
                    }
                }
                proof {
                    assert(result@ =~= before + code_chars(start as int, k as int));
                }
                if k == end {
                    break;
                }
                k = k + 1;
            }
            proof {
                assert(result@ =~= before + range_chars(range@));
            }
        } else {
            proof {
                assert(range_chars(range@) =~= Seq::<char>::empty());
                assert(result@ =~= before + range_chars(range@));
            }
        }
        i = i + 1;
    }
    proof {
        assert(range_views(source@).take(n as int) =~= range_views(source@));
    }
    result
}

// ---------------------------------------------------------------------------
// Laws of the character ranges
// ---------------------------------------------------------------------------

/// Some range of `s` contains `k`.
pub open spec fn covers(s: Seq<CodeRange>, k: int) -> bool {
    exists|i: int| 0 <= i < s.len() && #[trigger] contains_code(s[i], k)
}

/// `r` contains `k` (bounds inclusive).
pub open spec fn contains_code(r: CodeRange, k: int) -> bool {
    r.start <= k <= r.end
}

/// A range that yields at least one value.
pub open spec fn proper(r: CodeRange) -> bool {
    !r.exhausted && r.start <= r.end
}

/// Every range of `s` is proper.
pub open spec fn all_proper(s: Seq<CodeRange>) -> bool {
    forall|i: int| 0 <= i < s.len() ==> #[trigger] proper(s[i])
}

/// Starts never decrease along `s`.
pub open spec fn start_sorted(s: Seq<CodeRange>) -> bool {
    forall|i: int, j: int| 0 <= i <= j < s.len() ==> #[trigger] s[i].start <= #[trigger] s[j].start
}

/// Each range ends more than one code point before any later range starts:
/// the ranges are ascending, disjoint and not adjacent.
pub open spec fn separated(s: Seq<CodeRange>) -> bool {
    forall|i: int, j: int| 0 <= i < j < s.len() ==> #[trigger] s[i].end + 1 < #[trigger] s[j].start
}

proof fn lemma_insert_pos_sorted(t: Seq<CodeRange>, key: u32)
    requires
        start_sorted(t),
    ensures
        forall|j: int| 0 <= j < insert_pos(t, key) ==> #[trigger] t[j].start <= key,
    decreases t.len(),
{
    if t.len() > 0 {
        if t.last().start <= key {
            assert forall|j: int| 0 <= j < insert_pos(t, key) implies #[trigger] t[j].start
                <= key by {
                assert(t[j].start <= t[t.len() - 1].start);
            }
        } else {
            let d = t.drop_last();
            assert(start_sorted(d)) by {
                assert forall|i: int, j: int| 0 <= i <= j < d.len() implies #[trigger] d[i].start
                    <= #[trigger] d[j].start by {
                    assert(t[i].start <= t[j].start);
                }
            }
            lemma_insert_pos_sorted(d, key);
            lemma_insert_pos_bound(d, key);
            assert forall|j: int| 0 <= j < insert_pos(t, key) implies #[trigger] t[j].start
                <= key by {
                assert(d[j] == t[j]);
            }
        }
    }
}

proof fn lemma_insert_sorted(t: Seq<CodeRange>, p: int, v: CodeRange)
    requires
        start_sorted(t),
        0 <= p <= t.len(),
        forall|j: int| 0 <= j < p ==> #[trigger] t[j].start <= v.start,
        forall|j: int| p <= j < t.len() ==> #[trigger] t[j].start > v.start,
    ensures
        start_sorted(t.insert(p, v)),
{
    let r = t.insert(p, v);
    t.insert_ensures(p, v);
    assert forall|i: int, j: int| 0 <= i <= j < r.len() implies #[trigger] r[i].start
        <= #[trigger] r[j].start by {
        if i < p && j < p {
            assert(t[i].start <= t[j].start);
        } else if i < p && j == p {
        } else if i < p {
            assert(r[j] == t[j - 1]);
            assert(t[i].start <= t[j - 1].start);
        } else if i == p && j > p {
            assert(r[j] == t[j - 1]);
        } else if i > p {
            assert(r[i] == t[i - 1]);
            assert(r[j] == t[j - 1]);
            assert(t[i - 1].start <= t[j - 1].start);
        }
    }
}

/// The stable sort is sorted by start.
proof fn lemma_sorted_is_sorted(s: Seq<CodeRange>)
    ensures
        start_sorted(sorted_by_start(s)),
    decreases s.len(),
{
    if s.len() > 0 {
        let d = s.drop_last();
        let t = sorted_by_start(d);
        let key = s.last().start;
        lemma_sorted_is_sorted(d);
        lemma_insert_pos_bound(t, key);
        lemma_insert_pos_sorted(t, key);
        lemma_insert_sorted(t, insert_pos(t, key) as int, s.last());
    }
}

/// The stable sort holds exactly the elements of its input.
#[verifier::rlimit(30)]
proof fn lemma_sorted_members(s: Seq<CodeRange>)
    ensures
        forall|i: int|
            0 <= i < s.len() ==> exists|j: int|
                0 <= j < s.len() && #[trigger] sorted_by_start(s)[i] == s[j],
        forall|j: int|
            0 <= j < s.len() ==> exists|i: int|
                0 <= i < s.len() && sorted_by_start(s)[i] == #[trigger] s[j],
    decreases s.len(),
{
    lemma_sorted_len(s);
    if s.len() > 0 {
        let d = s.drop_last();
        let t = sorted_by_start(d);
        let key = s.last().start;
        let p = insert_pos(t, key) as int;
        lemma_sorted_members(d);
        lemma_sorted_len(d);
        lemma_insert_pos_bound(t, key);
        let r = sorted_by_start(s);
        assert(r == t.insert(p, s.last()));
        t.insert_ensures(p, s.last());
        assert forall|i: int| 0 <= i < s.len() implies exists|j: int|
            0 <= j < s.len() && #[trigger] r[i] == s[j] by {
            if i < p {
                let j = choose|j: int| 0 <= j < d.len() && t[i] == d[j];
                assert(s[j] == d[j]);
            } else if i == p {
                assert(r[i] == s[s.len() - 1]);
            } else {
                assert(r[i] == t[i - 1]);
                let j = choose|j: int| 0 <= j < d.len() && t[i - 1] == d[j];
                assert(s[j] == d[j]);
            }
        }
        assert forall|j: int| 0 <= j < s.len() implies exists|i: int|
            0 <= i < s.len() && r[i] == #[trigger] s[j] by {
            if j == s.len() - 1 {
                assert(r[p] == s[j]);
            } else {
                assert(d[j] == s[j]);
                let i = choose|i: int| 0 <= i < d.len() && t[i] == #[trigger] d[j];
                if i < p {
                    assert(r[i] == s[j]);
                } else {
                    assert(r[i + 1] == s[j]);
                }
            }
        }
    }
}

/// Facts about splitting a start-sorted sequence of proper ranges into its
/// first range and the rest.
proof fn lemma_head_tail(s: Seq<CodeRange>)
    requires
        s.len() > 0,
        all_proper(s),
        start_sorted(s),
    ensures
        proper(s[0]),
        all_proper(s.drop_first()),
        start_sorted(s.drop_first()),
        forall|i: int|
            0 <= i < s.drop_first().len() ==> s[0].start <= #[trigger] s.drop_first()[i].start,
        forall|k: int| covers(s, k) <==> (contains_code(s[0], k) || covers(s.drop_first(), k)),
{
    let tail = s.drop_first();
    assert(proper(s[0]));
    assert(all_proper(tail)) by {
        assert forall|i: int| 0 <= i < tail.len() implies #[trigger] proper(tail[i]) by {
            assert(tail[i] == s[i + 1]);
        }
    }
    assert(start_sorted(tail)) by {
        assert forall|i: int, j: int| 0 <= i <= j < tail.len() implies #[trigger] tail[i].start
            <= #[trigger] tail[j].start by {
            assert(tail[i] == s[i + 1]);
            assert(tail[j] == s[j + 1]);
        }
    }
    assert forall|i: int| 0 <= i < tail.len() implies s[0].start <= #[trigger] tail[i].start by {
        assert(tail[i] == s[i + 1]);
    }
    assert forall|k: int| covers(s, k) <==> (contains_code(s[0], k) || covers(tail, k)) by {
        if covers(s, k) {
            let i = choose|i: int| 0 <= i < s.len() && #[trigger] contains_code(s[i], k);
            if i > 0 {
                assert(tail[i - 1] == s[i]);
            }
        }
        if covers(tail, k) {
            let i = choose|i: int| 0 <= i < tail.len() && #[trigger] contains_code(tail[i], k);
            assert(tail[i] == s[i + 1]);
        }
        if contains_code(s[0], k) {
            assert(contains_code(s[0], k));
        }
    }
}

proof fn lemma_merge_acc(acc: Seq<CodeRange>, prev: CodeRange, rest: Seq<CodeRange>)
    ensures
        merge_from(acc, prev, rest) == acc + merge_from(Seq::empty(), prev, rest),
    decreases rest.len(),
{
    if rest.len() == 0 {
        assert(acc.push(prev) =~= acc + Seq::<CodeRange>::empty().push(prev));
    } else if rest[0].start <= prev.end + 1 {
        lemma_merge_acc(acc, joined(prev, rest[0]), rest.drop_first());
        lemma_merge_acc(Seq::empty(), joined(prev, rest[0]), rest.drop_first());
    } else {
        lemma_merge_acc(acc.push(prev), rest[0], rest.drop_first());
        lemma_merge_acc(seq![prev], rest[0], rest.drop_first());
        assert(Seq::<CodeRange>::empty().push(prev) =~= seq![prev]);
        assert(acc.push(prev) + merge_from(Seq::empty(), rest[0], rest.drop_first()) =~= acc + (
        seq![prev] + merge_from(Seq::empty(), rest[0], rest.drop_first())));
    }
}

/// Merging start-sorted proper ranges yields separated proper ranges that
/// cover exactly what the inputs cover.
proof fn lemma_merge(prev: CodeRange, rest: Seq<CodeRange>)
    requires
        proper(prev),
        all_proper(rest),
        start_sorted(rest),
        forall|i: int| 0 <= i < rest.len() ==> prev.start <= #[trigger] rest[i].start,
    ensures
        merge_from(Seq::empty(), prev, rest).len() >= 1,
        merge_from(Seq::empty(), prev, rest)[0].start == prev.start,
        all_proper(merge_from(Seq::empty(), prev, rest)),
        separated(merge_from(Seq::empty(), prev, rest)),
        forall|k: int|
            covers(merge_from(Seq::empty(), prev, rest), k) <==> (contains_code(prev, k) || covers(
                rest,
                k,
            )),
    decreases rest.len(),
{
    let m = merge_from(Seq::empty(), prev, rest);
    if rest.len() == 0 {
        assert(m =~= seq![prev]);
        assert forall|k: int| covers(m, k) <==> (contains_code(prev, k) || covers(rest, k)) by {
            if contains_code(prev, k) {
                assert(contains_code(m[0], k));
            }
        }
    } else {
        let r = rest[0];
        let tail = rest.drop_first();
        lemma_head_tail(rest);
        if r.start <= prev.end + 1 {
            let j = joined(prev, r);
            assert forall|i: int| 0 <= i < tail.len() implies j.start <= #[trigger] tail[i].start by {
                assert(tail[i] == rest[i + 1]);
                assert(rest[0].start <= rest[i + 1].start);
            }
            lemma_merge(j, tail);
            assert(r.start >= prev.start) by {
                assert(prev.start <= rest[0].start);
            }
            assert forall|k: int| contains_code(j, k) <==> (contains_code(prev, k) || contains_code(
                r,
                k,
            )) by {}
        } else {
            assert forall|i: int| 0 <= i < tail.len() implies r.start <= #[trigger] tail[i].start by {
                assert(tail[i] == rest[i + 1]);
                assert(rest[0].start <= rest[i + 1].start);
            }
            lemma_merge(r, tail);
            let m2 = merge_from(Seq::empty(), r, tail);
            lemma_merge_acc(seq![prev], r, tail);
            assert(Seq::<CodeRange>::empty().push(prev) =~= seq![prev]);
            assert(m == seq![prev] + m2);
            assert(m[0] == prev);
            assert forall|i: int| 0 <= i < m2.len() implies #[trigger] m2[i].start >= r.start by {
                if i > 0 {
                    assert(m2[0].end + 1 < m2[i].start);
                    assert(proper(m2[0]));
                }
            }
            assert(all_proper(m)) by {
                assert forall|i: int| 0 <= i < m.len() implies #[trigger] proper(m[i]) by {
                    if i > 0 {
                        assert(m[i] == m2[i - 1]);
                    }
                }
            }
            assert(separated(m)) by {
                assert forall|a: int, b: int| 0 <= a < b < m.len() implies #[trigger] m[a].end + 1
                    < #[trigger] m[b].start by {
                    assert(m[b] == m2[b - 1]);
                    if a > 0 {
                        assert(m[a] == m2[a - 1]);
                    }
                }
            }
            assert forall|k: int| covers(m, k) <==> (contains_code(prev, k) || covers(rest, k)) by {
                if covers(m, k) {
                    let i = choose|i: int| 0 <= i < m.len() && #[trigger] contains_code(m[i], k);
                    if i > 0 {
                        assert(m[i] == m2[i - 1]);
                    }
                }
                if covers(m2, k) {
                    let i = choose|i: int| 0 <= i < m2.len() && #[trigger] contains_code(m2[i], k);
                    assert(m[i + 1] == m2[i]);
                }
                if contains_code(prev, k) {
                    assert(contains_code(m[0], k));
                }
            }
        }
    }
}

/// Sorting keeps properness and coverage.
proof fn lemma_sorted_covers(src: Seq<CodeRange>)
    ensures
        all_proper(src) ==> all_proper(sorted_by_start(src)),
        forall|k: int| covers(src, k) <==> covers(sorted_by_start(src), k),
{
    let s = sorted_by_start(src);
    lemma_sorted_len(src);
    lemma_sorted_members(src);
    if all_proper(src) {
        assert forall|i: int| 0 <= i < s.len() implies #[trigger] proper(s[i]) by {
            let j = choose|j: int| 0 <= j < src.len() && s[i] == src[j];
            assert(proper(src[j]));
        }
    }
    assert forall|k: int| covers(src, k) <==> covers(s, k) by {
        if covers(src, k) {
            let j = choose|j: int| 0 <= j < src.len() && #[trigger] contains_code(src[j], k);
            let i = choose|i: int| 0 <= i < s.len() && s[i] == #[trigger] src[j];
            assert(contains_code(s[i], k));
        }
        if covers(s, k) {
            let i = choose|i: int| 0 <= i < s.len() && #[trigger] contains_code(s[i], k);
            let j = choose|j: int| 0 <= j < src.len() && #[trigger] s[i] == src[j];
            assert(contains_code(src[j], k));
        }
    }
}

/// Law: for proper (non-empty, not exhausted) input ranges, the optimized
/// ranges are proper, ascending, pairwise disjoint and non-adjacent, and they
/// cover exactly the code points that the input ranges cover.
pub proof fn law_optimize_ranges(src: Seq<CodeRange>)
    requires
        src.len() > 0,
        all_proper(src),
    ensures
        all_proper(optimized(src)),
        separated(optimized(src)),
        forall|k: int| covers(src, k) <==> covers(optimized(src), k),
{
    let s = sorted_by_start(src);
    lemma_sorted_len(src);
    lemma_sorted_is_sorted(src);
    lemma_sorted_covers(src);
    lemma_head_tail(s);
    lemma_merge(s[0], s.drop_first());
}

proof fn lemma_sorted_identity(s: Seq<CodeRange>)
    requires
        start_sorted(s),
    ensures
        sorted_by_start(s) == s,
    decreases s.len(),
{
    if s.len() > 0 {
        let t = s.drop_last();
        assert(start_sorted(t)) by {
            assert forall|i: int, j: int| 0 <= i <= j < t.len() implies #[trigger] t[i].start
                <= #[trigger] t[j].start by {
                assert(s[i].start <= s[j].start);
            }
        }
        lemma_sorted_identity(t);
        if t.len() > 0 {
            assert(t.last().start <= s.last().start);
        }
        assert(t.insert(t.len() as int, s.last()) =~= s);
    }
}

proof fn lemma_merge_separated(acc: Seq<CodeRange>, prev: CodeRange, rest: Seq<CodeRange>)
    requires
        separated(rest),
        forall|j: int| 0 <= j < rest.len() ==> prev.end + 1 < #[trigger] rest[j].start,
    ensures
        merge_from(acc, prev, rest) == acc.push(prev) + rest,
    decreases rest.len(),
{
    if rest.len() == 0 {
        assert(acc.push(prev) + rest =~= acc.push(prev));
    } else {
        let tail = rest.drop_first();
        assert(separated(tail)) by {
            assert forall|i: int, j: int| 0 <= i < j < tail.len() implies #[trigger] tail[i].end
                + 1 < #[trigger] tail[j].start by {
                assert(rest[i + 1].end + 1 < rest[j + 1].start);
            }
        }
        assert forall|j: int| 0 <= j < tail.len() implies rest[0].end + 1 < #[trigger] tail[j].start by {
            assert(rest[0].end + 1 < rest[j + 1].start);
        }
        assert(rest[0].start > prev.end + 1);
        lemma_merge_separated(acc.push(prev), rest[0], tail);
        assert(acc.push(prev).push(rest[0]) + tail =~= acc.push(prev) + rest);
    }
}

proof fn lemma_merge_nonempty(acc: Seq<CodeRange>, prev: CodeRange, rest: Seq<CodeRange>)
    ensures
        merge_from(acc, prev, rest).len() >= acc.len() + 1,
    decreases rest.len(),
{
    if rest.len() > 0 {
        if rest[0].start <= prev.end + 1 {
            lemma_merge_nonempty(acc, joined(prev, rest[0]), rest.drop_first());
        } else {
            lemma_merge_nonempty(acc.push(prev), rest[0], rest.drop_first());
        }
    }
}

/// Law: optimizing ranges that are already optimized changes nothing, and
/// optimized ranges can always be optimized again without overflow.
pub proof fn law_optimize_idempotent(src: Seq<CodeRange>)
    requires
        src.len() > 0,
        all_proper(src),
    ensures
        merge_fits(optimized(src)),
        optimized(optimized(src)) == optimized(src),
{
    let o = optimized(src);
    law_optimize_ranges(src);
    let s = sorted_by_start(src);
    lemma_sorted_len(src);
    lemma_merge_nonempty(Seq::empty(), s[0], s.drop_first());
    assert(start_sorted(o)) by {
        assert forall|i: int, j: int| 0 <= i <= j < o.len() implies #[trigger] o[i].start
            <= #[trigger] o[j].start by {
            assert(proper(o[i]));
            if i < j {
                assert(o[i].end + 1 < o[j].start);
            }
        }
    }
    lemma_sorted_identity(o);
    assert forall|j: int| 0 <= j < o.len() - 1 implies #[trigger] o[j].end < u32::MAX by {
        assert(o[j].end + 1 < o[j + 1].start);
    }
    let tail = o.drop_first();
    assert(separated(tail)) by {
        assert forall|i: int, j: int| 0 <= i < j < tail.len() implies #[trigger] tail[i].end + 1
            < #[trigger] tail[j].start by {
            assert(o[i + 1].end + 1 < o[j + 1].start);
        }
    }
    assert forall|j: int| 0 <= j < tail.len() implies o[0].end + 1 < #[trigger] tail[j].start by {
        assert(o[0].end + 1 < o[j + 1].start);
    }
    lemma_merge_separated(Seq::empty(), o[0], tail);
    assert(Seq::<CodeRange>::empty().push(o[0]) + tail =~= o);
}

proof fn lemma_canonical_bounds(a: Seq<CodeRange>, i: int, k: int)
    requires
        all_proper(a),
        separated(a),
        0 <= i < a.len(),
        contains_code(a[i], k),
    ensures
        a[0].start <= k,
        i > 0 ==> a[0].end + 1 < k,
{
    assert(proper(a[0]));
    if i > 0 {
        assert(a[0].end + 1 < a[i].start);
    }
}

/// Two proper, separated range lists that cover the same code points are
/// the same list.
proof fn lemma_canonical_unique(a: Seq<CodeRange>, b: Seq<CodeRange>)
    requires
        all_proper(a),
        all_proper(b),
        separated(a),
        separated(b),
        forall|k: int| covers(a, k) <==> covers(b, k),
    ensures
        a == b,
    decreases a.len() + b.len(),
{
    if a.len() == 0 || b.len() == 0 {
        if a.len() > 0 {
            assert(proper(a[0]));
            assert(contains_code(a[0], a[0].start as int));
            assert(covers(a, a[0].start as int));
        }
        if b.len() > 0 {
            assert(proper(b[0]));
            assert(contains_code(b[0], b[0].start as int));
            assert(covers(b, b[0].start as int));
        }
        assert(a =~= b);
    } else {
        let a0 = a[0];
        let b0 = b[0];
        assert(proper(a0) && proper(b0));
        // equal starts
        assert(contains_code(a0, a0.start as int));
        assert(covers(a, a0.start as int));
        let j = choose|j: int| 0 <= j < b.len() && #[trigger] contains_code(b[j], a0.start as int);
        lemma_canonical_bounds(b, j, a0.start as int);
        assert(contains_code(b0, b0.start as int));
        assert(covers(b, b0.start as int));
        let i = choose|i: int| 0 <= i < a.len() && #[trigger] contains_code(a[i], b0.start as int);
        lemma_canonical_bounds(a, i, b0.start as int);
        assert(a0.start == b0.start);
        // equal ends
        if a0.end < b0.end {
            let k = a0.end + 1;
            assert(contains_code(b0, k));
            assert(covers(b, k));
            let i2 = choose|i2: int| 0 <= i2 < a.len() && #[trigger] contains_code(a[i2], k);
            lemma_canonical_bounds(a, i2, k);
            assert(false);
        }
        if b0.end < a0.end {
            let k = b0.end + 1;
            assert(contains_code(a0, k));
            assert(covers(a, k));
            let j2 = choose|j2: int| 0 <= j2 < b.len() && #[trigger] contains_code(b[j2], k);
            lemma_canonical_bounds(b, j2, k);
            assert(false);
        }
        assert(a0 == b0);
        let ta = a.drop_first();
        let tb = b.drop_first();
        assert(all_proper(ta)) by {
            assert forall|x: int| 0 <= x < ta.len() implies #[trigger] proper(ta[x]) by {
                assert(proper(a[x + 1]));
            }
        }
        assert(all_proper(tb)) by {
            assert forall|x: int| 0 <= x < tb.len() implies #[trigger] proper(tb[x]) by {
                assert(proper(b[x + 1]));
            }
        }
        assert(separated(ta)) by {
            assert forall|x: int, y: int| 0 <= x < y < ta.len() implies #[trigger] ta[x].end + 1
                < #[trigger] ta[y].start by {
                assert(a[x + 1].end + 1 < a[y + 1].start);
            }
        }
        assert(separated(tb)) by {
            assert forall|x: int, y: int| 0 <= x < y < tb.len() implies #[trigger] tb[x].end + 1
                < #[trigger] tb[y].start by {
                assert(b[x + 1].end + 1 < b[y + 1].start);
            }
        }
        assert forall|k: int| covers(ta, k) <==> covers(tb, k) by {
            if covers(ta, k) {
                let x = choose|x: int| 0 <= x < ta.len() && #[trigger] contains_code(ta[x], k);
                assert(contains_code(a[x + 1], k));
                lemma_canonical_bounds(a, x + 1, k);
                assert(covers(a, k));
                let y = choose|y: int| 0 <= y < b.len() && #[trigger] contains_code(b[y], k);
                if y == 0 {
                    assert(false);
                }
                assert(tb[y - 1] == b[y]);
                assert(contains_code(tb[y - 1], k));
            }
            if covers(tb, k) {
                let x = choose|x: int| 0 <= x < tb.len() && #[trigger] contains_code(tb[x], k);
                assert(contains_code(b[x + 1], k));
                lemma_canonical_bounds(b, x + 1, k);
                assert(covers(b, k));
                let y = choose|y: int| 0 <= y < a.len() && #[trigger] contains_code(a[y], k);
                if y == 0 {
                    assert(false);
                }
                assert(ta[y - 1] == a[y]);
                assert(contains_code(ta[y - 1], k));
            }
        }
        lemma_canonical_unique(ta, tb);
        assert(a =~= seq![a0] + ta);
        assert(b =~= seq![b0] + tb);
    }
}

/// The range with the same bounds that has not been iterated yet.
pub open spec fn fresh(r: CodeRange) -> CodeRange {
    RangeInclusiveView { start: r.start, end: r.end, exhausted: false }
}

/// The ranges with their bounds, none iterated yet.
pub open spec fn strip(s: Seq<CodeRange>) -> Seq<CodeRange> {
    s.map_values(|r: CodeRange| fresh(r))
}

proof fn lemma_insert_pos_strip(t: Seq<CodeRange>, key: u32)
    ensures
        insert_pos(strip(t), key) == insert_pos(t, key),
    decreases t.len(),
{
    if t.len() > 0 {
        assert(strip(t).drop_last() =~= strip(t.drop_last()));
        lemma_insert_pos_strip(t.drop_last(), key);
    }
}

proof fn lemma_sorted_strip(s: Seq<CodeRange>)
    ensures
        sorted_by_start(strip(s)) == strip(sorted_by_start(s)),
    decreases s.len(),
{
    if s.len() > 0 {
        let t = sorted_by_start(s.drop_last());
        assert(strip(s).drop_last() =~= strip(s.drop_last()));
        lemma_sorted_strip(s.drop_last());
        lemma_insert_pos_strip(t, s.last().start);
        lemma_insert_pos_bound(t, s.last().start);
        let k = insert_pos(t, s.last().start) as int;
        assert(strip(t).insert(k, fresh(s.last())) =~= strip(t.insert(k, s.last())));
    }
}

proof fn lemma_merge_strip(acc: Seq<CodeRange>, prev: CodeRange, rest: Seq<CodeRange>)
    ensures
        strip(merge_from(acc, prev, rest)) == merge_from(strip(acc), fresh(prev), strip(rest)),
    decreases rest.len(),
{
    if rest.len() == 0 {
        assert(strip(acc.push(prev)) =~= strip(acc).push(fresh(prev)));
    } else {
        assert(strip(rest).drop_first() =~= strip(rest.drop_first()));
        assert(strip(rest)[0] == fresh(rest[0]));
        if rest[0].start <= prev.end + 1 {
            assert(joined(fresh(prev), fresh(rest[0])) == joined(prev, rest[0]));
            assert(fresh(joined(prev, rest[0])) == joined(prev, rest[0]));
            lemma_merge_strip(acc, joined(prev, rest[0]), rest.drop_first());
        } else {
            assert(strip(acc.push(prev)) =~= strip(acc).push(fresh(prev)));
            lemma_merge_strip(acc.push(prev), rest[0], rest.drop_first());
        }
    }
}

proof fn lemma_optimized_strip(src: Seq<CodeRange>)
    requires
        src.len() > 0,
    ensures
        strip(optimized(src)) == optimized(strip(src)),
{
    let s = sorted_by_start(src);
    lemma_sorted_len(src);
    lemma_sorted_strip(src);
    assert(strip(s).drop_first() =~= strip(s.drop_first()));
    lemma_merge_strip(Seq::empty(), s[0], s.drop_first());
    assert(strip(Seq::<CodeRange>::empty()) =~= Seq::<CodeRange>::empty());
}

/// Whether range `r` lies within the bounds of `o`.
pub open spec fn lies_within(r: CodeRange, o: CodeRange) -> bool {
    o.start <= r.start && r.end <= o.end
}

/// The ranges of `s` that lie within the bounds of `o`, in order.
pub open spec fn within(s: Seq<CodeRange>, o: CodeRange) -> Seq<CodeRange>
    decreases s.len(),
{
    if s.len() == 0 {
        Seq::empty()
    } else if lies_within(s.last(), o) {
        within(s.drop_last(), o).push(s.last())
    } else {
        within(s.drop_last(), o)
    }
}

/// Whether the iteration flag of `o` is the one merging gives it from the
/// ranges `s`: set exactly when a single range of `s` lies within `o` and
/// that range is exhausted.
pub open spec fn flag_fits(o: CodeRange, s: Seq<CodeRange>) -> bool {
    let w = within(s, o);
    o.exhausted == (w.len() == 1 && w[0].exhausted)
}

proof fn lemma_within_block(s: Seq<CodeRange>, o: CodeRange, b: int, n: int)
    requires
        0 <= b <= n <= s.len(),
        forall|j: int| 0 <= j < b ==> !lies_within(#[trigger] s[j], o),
        forall|j: int| b <= j < n ==> lies_within(#[trigger] s[j], o),
        forall|j: int| n <= j < s.len() ==> !lies_within(#[trigger] s[j], o),
    ensures
        within(s, o) == s.subrange(b, n),
    decreases s.len(),
{
    if s.len() > 0 {
        let d = s.drop_last();
        let l = s.len() - 1;
        assert(s.last() == s[l]);
        if l >= n {
            lemma_within_block(d, o, b, n);
            assert(d.subrange(b, n) =~= s.subrange(b, n));
        } else if b <= l {
            lemma_within_block(d, o, b, n - 1);
            assert(d.subrange(b, n - 1).push(s[l]) =~= s.subrange(b, n));
        } else {
            lemma_within_block(d, o, l, l);
            assert(d.subrange(l, l) =~= s.subrange(b, n));
        }
    }
}

proof fn lemma_merge_flags(s: Seq<CodeRange>, acc: Seq<CodeRange>, prev: CodeRange, b: int, n: int)
    requires
        start_sorted(s),
        forall|j: int| 0 <= j < s.len() ==> (#[trigger] s[j]).start <= s[j].end,
        0 <= b < n <= s.len(),
        forall|i: int| 0 <= i < acc.len() ==> flag_fits(#[trigger] acc[i], s),
        prev.start == s[b].start,
        forall|j: int| b <= j < n ==> (#[trigger] s[j]).end <= prev.end,
        prev.exhausted == (n - b == 1 && s[b].exhausted),
        forall|j: int| 0 <= j < b ==> (#[trigger] s[j]).end + 1 < prev.start,
    ensures
        forall|i: int|
            0 <= i < merge_from(acc, prev, s.skip(n)).len() ==> flag_fits(
                #[trigger] merge_from(acc, prev, s.skip(n))[i],
                s,
            ),
    decreases s.len() - n,
{
    let rest = s.skip(n);
    // The ranges of the current block lie within `prev`, earlier ones end
    // below it.
    assert forall|j: int| 0 <= j < b implies !lies_within(#[trigger] s[j], prev) by {
        assert(s[j].start <= s[b].start);
        if lies_within(s[j], prev) {
            assert(s[j].end + 1 < prev.start);
        }
    }
    assert forall|j: int| b <= j < n implies lies_within(#[trigger] s[j], prev) by {
        assert(s[b].start <= s[j].start);
    }
    if n == s.len() {
        lemma_within_block(s, prev, b, n);
        assert(merge_from(acc, prev, rest) == acc.push(prev));
        assert(flag_fits(prev, s)) by {
            assert(s.subrange(b, n).len() == n - b);
            if n - b == 1 {
                assert(s.subrange(b, n)[0] == s[b]);
            }
        }
        assert forall|i: int| 0 <= i < acc.push(prev).len() implies flag_fits(
            #[trigger] acc.push(prev)[i],
            s,
        ) by {
            if i < acc.len() {
                assert(acc.push(prev)[i] == acc[i]);
            }
        }
    } else {
        assert(rest[0] == s[n]);
        assert(rest.drop_first() =~= s.skip(n + 1));
        if rest[0].start <= prev.end + 1 {
            assert(merge_from(acc, prev, rest) == merge_from(
                acc,
                joined(prev, rest[0]),
                rest.drop_first(),
            ));
            lemma_merge_flags(s, acc, joined(prev, rest[0]), b, n + 1);
        } else {
            assert(merge_from(acc, prev, rest) == merge_from(acc.push(prev), rest[0], rest.drop_first()));
            assert forall|j: int| n <= j < s.len() implies !lies_within(#[trigger] s[j], prev) by {
                assert(s[n].start <= s[j].start);
            }
            lemma_within_block(s, prev, b, n);
            assert(flag_fits(prev, s)) by {
                assert(s.subrange(b, n).len() == n - b);
                if n - b == 1 {
                    assert(s.subrange(b, n)[0] == s[b]);
                }
            }
            assert forall|i: int| 0 <= i < acc.push(prev).len() implies flag_fits(
                #[trigger] acc.push(prev)[i],
                s,
            ) by {
                if i < acc.len() {
                    assert(acc.push(prev)[i] == acc[i]);
                }
            }
            assert forall|j: int| 0 <= j < n implies (#[trigger] s[j]).end + 1 < s[n].start by {
                if j < b {
                    assert(s[b].start <= s[n].start);
                }
            }
            lemma_merge_flags(s, acc.push(prev), rest[0], n, n + 1);
        }
    }
}

proof fn lemma_within_same_bounds(s: Seq<CodeRange>, o: CodeRange, p: CodeRange)
    requires
        o.start == p.start,
        o.end == p.end,
    ensures
        within(s, o) == within(s, p),
    decreases s.len(),
{
    if s.len() > 0 {
        lemma_within_same_bounds(s.drop_last(), o, p);
    }
}

/// The test of lying within the bounds of `o`.
pub open spec fn within_of(o: CodeRange) -> spec_fn(CodeRange) -> bool {
    |r: CodeRange| lies_within(r, o)
}

proof fn lemma_sorted_multiset(s: Seq<CodeRange>)
    ensures
        sorted_by_start(s).to_multiset() == s.to_multiset(),
    decreases s.len(),
{
    broadcast use vstd::seq_lib::group_to_multiset_ensures;

    if s.len() == 0 {
        assert(sorted_by_start(s) =~= s);
    } else {
        let t = sorted_by_start(s.drop_last());
        lemma_sorted_multiset(s.drop_last());
        lemma_insert_pos_bound(t, s.last().start);
        let k = insert_pos(t, s.last().start) as int;
        vstd::seq_lib::to_multiset_insert(t, k, s.last());
        assert(s.drop_last().push(s.last()) =~= s);
        vstd::seq_lib::to_multiset_build(s.drop_last(), s.last());
    }
}

proof fn lemma_within_multiset(s: Seq<CodeRange>, o: CodeRange)
    ensures
        within(s, o).to_multiset() == s.to_multiset().filter(within_of(o)),
    decreases s.len(),
{
    broadcast use vstd::seq_lib::group_to_multiset_ensures;
    broadcast use vstd::multiset::group_multiset_axioms;
    broadcast use vstd::multiset::group_multiset_properties;

    if s.len() == 0 {
        assert(within(s, o).to_multiset() =~= s.to_multiset().filter(within_of(o)));
    } else {
        let d = s.drop_last();
        let x = s.last();
        lemma_within_multiset(d, o);
        assert(d.push(x) =~= s);
        vstd::seq_lib::to_multiset_build(d, x);
        if lies_within(x, o) {
            vstd::seq_lib::to_multiset_build(within(d, o), x);
        }
        assert(within(s, o).to_multiset() =~= s.to_multiset().filter(within_of(o)));
    }
}

proof fn lemma_sorted_bounded(src: Seq<CodeRange>)
    requires
        forall|j: int| 0 <= j < src.len() ==> (#[trigger] src[j]).start <= src[j].end,
    ensures
        forall|j: int|
            0 <= j < sorted_by_start(src).len() ==> (#[trigger] sorted_by_start(src)[j]).start
                <= sorted_by_start(src)[j].end,
{
    let s = sorted_by_start(src);
    lemma_sorted_len(src);
    lemma_sorted_members(src);
    assert forall|j: int| 0 <= j < s.len() implies (#[trigger] s[j]).start <= s[j].end by {
        let k = choose|k: int| 0 <= k < src.len() && #[trigger] s[j] == src[k];
        assert(src[k].start <= src[k].end);
    }
}

proof fn lemma_optimized_flags(src: Seq<CodeRange>)
    requires
        src.len() > 0,
        forall|j: int| 0 <= j < src.len() ==> (#[trigger] src[j]).start <= src[j].end,
    ensures
        forall|i: int|
            0 <= i < optimized(src).len() ==> flag_fits(
                #[trigger] optimized(src)[i],
                sorted_by_start(src),
            ),
{
    let s = sorted_by_start(src);
    lemma_sorted_len(src);
    lemma_sorted_is_sorted(src);
    lemma_sorted_bounded(src);
    assert(s.skip(1) =~= s.drop_first());
    assert(optimized(src) == merge_from(Seq::empty(), s[0], s.skip(1)));
    lemma_merge_flags(s, Seq::empty(), s[0], 0, 1);
}

proof fn lemma_reordered_bounded(src: Seq<CodeRange>, reordered: Seq<CodeRange>)
    requires
        forall|j: int| 0 <= j < src.len() ==> (#[trigger] src[j]).start <= src[j].end,
        reordered.to_multiset() == src.to_multiset(),
    ensures
        reordered.len() == src.len(),
        forall|j: int| 0 <= j < reordered.len() ==> (#[trigger] reordered[j]).start <= reordered[j].end,
        forall|k: int| covers(src, k) <==> covers(reordered, k),
{
    broadcast use vstd::seq_lib::group_to_multiset_ensures;

    vstd::seq_lib::to_multiset_len(src);
    vstd::seq_lib::to_multiset_len(reordered);
    assert forall|i: int| 0 <= i < reordered.len() implies (#[trigger] reordered[i]).start
        <= reordered[i].end by {
        assert(reordered.contains(reordered[i]));
        assert(reordered.to_multiset().count(reordered[i]) > 0);
        assert(src.to_multiset().count(reordered[i]) > 0);
        assert(src.contains(reordered[i]));
        let j = choose|j: int| 0 <= j < src.len() && src[j] == reordered[i];
        assert(src[j].start <= src[j].end);
    }
    assert forall|k: int| covers(src, k) <==> covers(reordered, k) by {
        if covers(src, k) {
            let j = choose|j: int| 0 <= j < src.len() && #[trigger] contains_code(src[j], k);
            assert(src.contains(src[j]));
            assert(src.to_multiset().count(src[j]) > 0);
            assert(reordered.to_multiset().count(src[j]) > 0);
            assert(reordered.contains(src[j]));
            let i = choose|i: int| 0 <= i < reordered.len() && reordered[i] == src[j];
            assert(contains_code(reordered[i], k));
        }
        if covers(reordered, k) {
            let i = choose|i: int| 0 <= i < reordered.len() && #[trigger] contains_code(reordered[i], k);
            assert(reordered.contains(reordered[i]));
            assert(reordered.to_multiset().count(reordered[i]) > 0);
            assert(src.to_multiset().count(reordered[i]) > 0);
            assert(src.contains(reordered[i]));
            let j = choose|j: int| 0 <= j < src.len() && src[j] == reordered[i];
            assert(contains_code(src[j], k));
        }
    }
}

proof fn lemma_strip_covers(x: Seq<CodeRange>)
    requires
        forall|j: int| 0 <= j < x.len() ==> (#[trigger] x[j]).start <= x[j].end,
    ensures
        all_proper(strip(x)),
        forall|k: int| covers(strip(x), k) <==> covers(x, k),
{
    assert forall|k: int| covers(strip(x), k) <==> covers(x, k) by {
        if covers(strip(x), k) {
            let j = choose|j: int| 0 <= j < strip(x).len() && #[trigger] contains_code(strip(x)[j], k);
            assert(contains_code(x[j], k));
        }
        if covers(x, k) {
            let j = choose|j: int| 0 <= j < x.len() && #[trigger] contains_code(x[j], k);
            assert(contains_code(strip(x)[j], k));
        }
    }
}

proof fn lemma_same_bounds(src: Seq<CodeRange>, reordered: Seq<CodeRange>)
    requires
        src.len() > 0,
        forall|j: int| 0 <= j < src.len() ==> (#[trigger] src[j]).start <= src[j].end,
        reordered.to_multiset() == src.to_multiset(),
    ensures
        strip(optimized(reordered)) == strip(optimized(src)),
        optimized(reordered).len() == optimized(src).len(),
{
    lemma_reordered_bounded(src, reordered);
    let ss = strip(src);
    let sr = strip(reordered);
    lemma_strip_covers(src);
    lemma_strip_covers(reordered);
    law_optimize_ranges(ss);
    law_optimize_ranges(sr);
    assert forall|k: int| covers(optimized(sr), k) <==> covers(optimized(ss), k) by {
        assert(covers(optimized(sr), k) <==> covers(sr, k));
        assert(covers(optimized(ss), k) <==> covers(ss, k));
        assert(covers(sr, k) <==> covers(reordered, k));
        assert(covers(ss, k) <==> covers(src, k));
    }
    lemma_canonical_unique(optimized(sr), optimized(ss));
    lemma_optimized_strip(src);
    lemma_optimized_strip(reordered);
    assert(strip(optimized(src)).len() == optimized(src).len());
    assert(strip(optimized(reordered)).len() == optimized(reordered).len());
}

proof fn lemma_same_flag(sa: Seq<CodeRange>, sb: Seq<CodeRange>, x: CodeRange, y: CodeRange)
    requires
        sa.to_multiset() == sb.to_multiset(),
        x.start == y.start,
        x.end == y.end,
        flag_fits(x, sa),
        flag_fits(y, sb),
    ensures
        x.exhausted == y.exhausted,
{
    broadcast use vstd::seq_lib::group_to_multiset_ensures;

    lemma_within_same_bounds(sa, x, y);
    assert(within_of(x) == within_of(y));
    lemma_within_multiset(sa, y);
    lemma_within_multiset(sb, y);
    let wa = within(sa, y);
    let wb = within(sb, y);
    assert(wa.to_multiset() == wb.to_multiset());
    vstd::seq_lib::to_multiset_len(wa);
    vstd::seq_lib::to_multiset_len(wb);
    if wb.len() == 1 {
        assert(wb.contains(wb[0]));
        assert(wb.to_multiset().count(wb[0]) > 0);
        assert(wa.to_multiset().count(wb[0]) > 0);
        assert(wa.contains(wb[0]));
        assert(wa[0] == wb[0]);
    }
}

/// Law: the optimized ranges do not depend on the order of the input
/// ranges: any reordering of ranges whose start is at most their end
/// optimizes to the same list, iteration flags included.
pub proof fn law_optimize_order_independent(src: Seq<CodeRange>, reordered: Seq<CodeRange>)
    requires
        src.len() > 0,
        forall|j: int| 0 <= j < src.len() ==> (#[trigger] src[j]).start <= src[j].end,
        reordered.to_multiset() == src.to_multiset(),
    ensures
        optimized(reordered) == optimized(src),
{
    lemma_reordered_bounded(src, reordered);
    lemma_same_bounds(src, reordered);
    lemma_optimized_flags(src);
    lemma_optimized_flags(reordered);
    lemma_sorted_multiset(src);
    lemma_sorted_multiset(reordered);
    let a = optimized(reordered);
    let b = optimized(src);
    assert forall|i: int| 0 <= i < a.len() implies #[trigger] a[i] == b[i] by {
        assert(strip(a)[i] == strip(b)[i]);
        lemma_same_flag(sorted_by_start(reordered), sorted_by_start(src), a[i], b[i]);
    }
    assert(a =~= b);
}

proof fn lemma_merge_len(acc: Seq<CodeRange>, prev: CodeRange, rest: Seq<CodeRange>)
    ensures
        acc.len() + 1 <= merge_from(acc, prev, rest).len() <= acc.len() + 1 + rest.len(),
    decreases rest.len(),
{
    if rest.len() > 0 {
        if rest[0].start <= prev.end + 1 {
            lemma_merge_len(acc, joined(prev, rest[0]), rest.drop_first());
        } else {
            lemma_merge_len(acc.push(prev), rest[0], rest.drop_first());
        }
    }
}

proof fn lemma_merge_ends_below(acc: Seq<CodeRange>, prev: CodeRange, rest: Seq<CodeRange>)
    requires
        forall|i: int| 0 <= i < acc.len() ==> #[trigger] acc[i].end < u32::MAX,
        prev.end < u32::MAX,
        forall|j: int| 0 <= j < rest.len() ==> #[trigger] rest[j].end < u32::MAX,
    ensures
        forall|i: int|
            0 <= i < merge_from(acc, prev, rest).len() ==> #[trigger] merge_from(acc, prev, rest)[i].end
                < u32::MAX,
    decreases rest.len(),
{
    if rest.len() > 0 {
        assert(rest[0].end < u32::MAX);
        assert forall|j: int| 0 <= j < rest.drop_first().len() implies #[trigger] rest.drop_first()[j].end
            < u32::MAX by {
            assert(rest[j + 1].end < u32::MAX);
        }
        if rest[0].start <= prev.end + 1 {
            lemma_merge_ends_below(acc, joined(prev, rest[0]), rest.drop_first());
            assert(merge_from(acc, prev, rest) == merge_from(
                acc,
                joined(prev, rest[0]),
                rest.drop_first(),
            ));
        } else {
            assert(merge_from(acc, prev, rest) == merge_from(acc.push(prev), rest[0], rest.drop_first()));
            assert forall|i: int| 0 <= i < acc.push(prev).len() implies #[trigger] acc.push(
                prev,
            )[i].end < u32::MAX by {
                if i < acc.len() {
                    assert(acc.push(prev)[i] == acc[i]);
                }
            }
            lemma_merge_ends_below(acc.push(prev), rest[0], rest.drop_first());
        }
    } else {
        assert(merge_from(acc, prev, rest) == acc.push(prev));
        assert forall|i: int| 0 <= i < acc.push(prev).len() implies #[trigger] acc.push(prev)[i].end
            < u32::MAX by {
            if i < acc.len() {
                assert(acc.push(prev)[i] == acc[i]);
            }
        }
    }
}

proof fn lemma_optimized_len(src: Seq<CodeRange>)
    requires
        src.len() > 0,
    ensures
        1 <= optimized(src).len() <= src.len(),
{
    let s = sorted_by_start(src);
    lemma_sorted_len(src);
    lemma_merge_len(Seq::empty(), s[0], s.drop_first());
}

proof fn lemma_count_separated(s: Seq<CodeRange>)
    requires
        s.len() > 0,
        all_proper(s),
        separated(s),
    ensures
        code_point_count(s) <= s.last().end - s[0].start + 1,
    decreases s.len(),
{
    let t = s.drop_last();
    assert(proper(s.last()));
    if t.len() > 0 {
        assert(all_proper(t)) by {
            assert forall|i: int| 0 <= i < t.len() implies #[trigger] proper(t[i]) by {
                assert(proper(s[i]));
            }
        }
        assert(separated(t)) by {
            assert forall|i: int, j: int| 0 <= i < j < t.len() implies #[trigger] t[i].end + 1
                < #[trigger] t[j].start by {
                assert(s[i].end + 1 < s[j].start);
            }
        }
        lemma_count_separated(t);
        assert(t.last().end + 1 < s.last().start) by {
            assert(s[t.len() - 1].end + 1 < s[s.len() - 1].start);
        }
        assert(t[0] == s[0]);
    } else {
        assert(code_point_count(t) == 0);
    }
}

/// Law: ranges that each end below `u32::MAX` can always be merged, and
/// when they are proper, the characters of the merged ranges can always be
/// listed: they number at most `u32::MAX`.
pub proof fn law_merged_ranges_listable(src: Seq<CodeRange>)
    requires
        src.len() > 0,
        forall|i: int| 0 <= i < src.len() ==> #[trigger] src[i].end < u32::MAX,
    ensures
        merge_fits(src),
        all_proper(src) ==> code_point_count(optimized(src)) <= u32::MAX,
        1 <= optimized(src).len() <= src.len(),
{
    let s = sorted_by_start(src);
    lemma_sorted_len(src);
    lemma_sorted_members(src);
    assert forall|j: int| 0 <= j < s.len() - 1 implies #[trigger] s[j].end < u32::MAX by {
        let k = choose|k: int| 0 <= k < src.len() && #[trigger] s[j] == src[k];
        assert(src[k].end < u32::MAX);
    }
    lemma_optimized_len(src);
    if all_proper(src) {
        law_optimize_ranges(src);
        let o = optimized(src);
        lemma_count_separated(o);
        assert(proper(o[0]));
        assert(s[0].end < u32::MAX) by {
            let k = choose|k: int| 0 <= k < src.len() && #[trigger] s[0] == src[k];
        }
        assert forall|j: int| 0 <= j < s.drop_first().len() implies #[trigger] s.drop_first()[j].end
            < u32::MAX by {
            let k = choose|k: int| 0 <= k < src.len() && #[trigger] s[j + 1] == src[k];
        }
        lemma_merge_ends_below(Seq::empty(), s[0], s.drop_first());
        assert(o[o.len() - 1].end < u32::MAX);
    }
}

/// Code points of `cs` strictly ascend.
pub open spec fn strictly_ascending(cs: Seq<char>) -> bool {
    forall|i: int, j: int| 0 <= i < j < cs.len() ==> (#[trigger] cs[i] as int) < (#[trigger] cs[j] as int)
}

proof fn lemma_char_is_scalar(c: char)
    ensures
        is_scalar_value(c as int),
{
}

proof fn lemma_code_chars(start: int, end: int)
    ensures
        forall|i: int|
            0 <= i < code_chars(start, end).len() ==> start <= (#[trigger] code_chars(
                start,
                end,
            )[i] as int) <= end,
        strictly_ascending(code_chars(start, end)),
        forall|c: char| code_chars(start, end).contains(c) <==> start <= (c as int) <= end,
    decreases end - start + 1,
{
    let cs = code_chars(start, end);
    if end >= start {
        let p = code_chars(start, end - 1);
        lemma_code_chars(start, end - 1);
        let last: Seq<char> = if is_scalar_value(end) {
            seq![end as char]
        } else {
            Seq::empty()
        };
        assert(cs == p + last);
        assert forall|i: int| 0 <= i < cs.len() implies start <= (#[trigger] cs[i] as int) <= end by {
            if i < p.len() {
                assert(cs[i] == p[i]);
            } else {
                assert(cs[i] == end as char);
            }
        }
        assert forall|i: int, j: int| 0 <= i < j < cs.len() implies (#[trigger] cs[i] as int) < (
        #[trigger] cs[j] as int) by {
            if j < p.len() {
                assert(cs[i] == p[i]);
                assert(cs[j] == p[j]);
            } else {
                assert(cs[i] == p[i]);
                assert(cs[j] == end as char);
            }
        }
        assert forall|c: char| cs.contains(c) <==> start <= (c as int) <= end by {
            if cs.contains(c) {
                let i = choose|i: int| 0 <= i < cs.len() && cs[i] == c;
                assert(start <= (cs[i] as int) <= end);
            }
            if start <= (c as int) <= end {
                if (c as int) < end {
                    assert(p.contains(c));
                    let i = choose|i: int| 0 <= i < p.len() && p[i] == c;
                    assert(cs[i] == c);
                } else {
                    lemma_char_is_scalar(c);
                    assert(cs[p.len() as int] == c);
                }
            }
        }
    }
}

proof fn lemma_char_set(s: Seq<CodeRange>)
    requires
        all_proper(s),
        separated(s),
    ensures
        s.len() > 0 ==> forall|i: int|
            0 <= i < char_set(s).len() ==> s[0].start <= (#[trigger] char_set(s)[i] as int)
                <= s.last().end,
        strictly_ascending(char_set(s)),
        forall|c: char| char_set(s).contains(c) <==> covers(s, c as int),
    decreases s.len(),
{
    let cs = char_set(s);
    if s.len() == 0 {
        assert forall|c: char| cs.contains(c) <==> covers(s, c as int) by {}
    } else {
        let d = s.drop_last();
        let l = s.last();
        assert(all_proper(d)) by {
            assert forall|i: int| 0 <= i < d.len() implies #[trigger] proper(d[i]) by {
                assert(d[i] == s[i]);
            }
        }
        assert(separated(d)) by {
            assert forall|i: int, j: int| 0 <= i < j < d.len() implies #[trigger] d[i].end + 1
                < #[trigger] d[j].start by {
                assert(d[i] == s[i]);
                assert(d[j] == s[j]);
            }
        }
        lemma_char_set(d);
        let p = char_set(d);
        assert(proper(s[s.len() - 1]));
        lemma_code_chars(l.start as int, l.end as int);
        let q = range_chars(l);
        assert(cs == p + q);
        if d.len() > 0 {
            assert(d.last() == s[s.len() - 2]);
            assert(s[s.len() - 2].end + 1 < s[s.len() - 1].start);
            assert(proper(s[0]));
            assert(d[0] == s[0]);
            if s.len() > 2 {
                assert(s[0].end + 1 < s[s.len() - 1].start);
            }
        }
        assert forall|i: int| 0 <= i < cs.len() implies s[0].start <= (#[trigger] cs[i] as int)
            <= s.last().end by {
            if i < p.len() {
                assert(cs[i] == p[i]);
            } else {
                assert(cs[i] == q[i - p.len()]);
                if d.len() > 0 {
                    assert(s[0].start <= s[0].end);
                }
            }
        }
        assert forall|i: int, j: int| 0 <= i < j < cs.len() implies (#[trigger] cs[i] as int) < (
        #[trigger] cs[j] as int) by {
            if j < p.len() {
                assert(cs[i] == p[i]);
                assert(cs[j] == p[j]);
            } else if i >= p.len() {
                assert(cs[i] == q[i - p.len()]);
                assert(cs[j] == q[j - p.len()]);
            } else {
                assert(cs[i] == p[i]);
                assert(cs[j] == q[j - p.len()]);
            }
        }
        assert forall|c: char| cs.contains(c) <==> covers(s, c as int) by {
            if cs.contains(c) {
                let i = choose|i: int| 0 <= i < cs.len() && cs[i] == c;
                if i < p.len() {
                    assert(p[i] == c);
                    assert(p.contains(c));
                    assert(covers(d, c as int));
                    let k = choose|k: int| 0 <= k < d.len() && #[trigger] contains_code(d[k], c as int);
                    assert(d[k] == s[k]);
                    assert(contains_code(s[k], c as int));
                } else {
                    assert(q[i - p.len()] == c);
                    assert(q.contains(c));
                    assert(contains_code(s[s.len() - 1], c as int));
                }
            }
            if covers(s, c as int) {
                let k = choose|k: int| 0 <= k < s.len() && #[trigger] contains_code(s[k], c as int);
                if k < d.len() {
                    assert(d[k] == s[k]);
                    assert(contains_code(d[k], c as int));
                    assert(covers(d, c as int));
                    assert(p.contains(c));
                    let i = choose|i: int| 0 <= i < p.len() && p[i] == c;
                    assert(cs[i] == c);
                } else {
                    assert(q.contains(c));
                    let i = choose|i: int| 0 <= i < q.len() && q[i] == c;
                    assert(cs[p.len() + i] == c);
                }
            }
        }
    }
}

/// Law: listing the characters of optimized proper ranges gives every
/// character that some input range covers, each exactly once, in ascending
/// code-point order.
pub proof fn law_char_set_of_optimized(src: Seq<CodeRange>)
    requires
        src.len() > 0,
        all_proper(src),
    ensures
        strictly_ascending(char_set(optimized(src))),
        forall|c: char| char_set(optimized(src)).contains(c) <==> covers(src, c as int),
{
    law_optimize_ranges(src);
    lemma_char_set(optimized(src));
}

} // verus!
